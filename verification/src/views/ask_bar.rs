//! The ask overlay: a question with optional choices (single or multiple) and a free-text
//! answer line.

use vstd::prelude::*;
use crate::text::{
    byte_len, byte_offset_of, char_bytes, char_index_at, char_index_of, char_len_utf8, chars_of,
    fit_prefix, fit_prefix_len, is_boundary, lemma_byte_len_take_le, lemma_fit_prefix,
    lemma_prefix_boundary, str_byte_len, str_prefix, string_from_chars,
};

verus! {

/// Selection state for a single option in the ask overlay.
#[derive(Debug, Clone)]
pub struct AskOption {
    pub label: String,
    pub description: Option<String>,
    /// Only used in multi-select mode.
    pub checked: bool,
}

/// The mode of the ask overlay.
#[derive(Debug, Clone, Copy, PartialEq, Eq, Structural)]
pub enum AskMode {
    SingleSelect,
    MultiSelect,
    FreeText,
}

/// State for the ask overlay bar.
#[derive(Debug, Clone)]
pub struct AskState {
    pub question: String,
    pub context: String,
    pub options: Vec<AskOption>,
    pub mode: AskMode,
    /// Highlighted option index.
    pub cursor: usize,
    /// The user's typed text.
    pub input: String,
    /// Byte offset of the cursor in `input`.
    pub input_cursor: usize,
    /// True while the user is typing (options dimmed).
    pub input_active: bool,
}

/// Result of the ask interaction.
#[derive(Debug)]
pub enum AskResult {
    Selected(Vec<usize>),
    Text(String),
}

/// Indices of the checked options among the first `n`, in order.
pub open spec fn checked_upto(opts: Seq<AskOption>, n: int) -> Seq<usize>
    decreases n,
{
    if n <= 0 {
        seq![]
    } else if opts[n - 1].checked {
        checked_upto(opts, n - 1).push((n - 1) as usize)
    } else {
        checked_upto(opts, n - 1)
    }
}

/// Indices of all checked options, in order.
pub open spec fn checked_indices(opts: Seq<AskOption>) -> Seq<usize> {
    checked_upto(opts, opts.len() as int)
}

/// Rows the overlay needs: question, optional context, one row per option plus a blank
/// row, the input row and the hint row (the option count taken as a `u16`).
pub open spec fn ask_height(has_context: bool, n_options: usize) -> int {
    1 + (if has_context {
        1int
    } else {
        0
    }) + (if n_options > 0 {
        (n_options as u16) as int + 1
    } else {
        0
    }) + 2
}

impl AskState {
    /// Character index of the input cursor.
    pub open spec fn input_index(&self) -> int {
        char_index_at(self.input@, self.input_cursor as int) as int
    }

    /// Everything but the cursor and the input activity is as in `other`.
    pub open spec fn same_but_cursor(&self, other: &Self) -> bool {
        &&& self.question == other.question
        &&& self.context == other.context
        &&& self.options@ == other.options@
        &&& self.mode == other.mode
        &&& self.input == other.input
        &&& self.input_cursor == other.input_cursor
    }

    /// The answer that Enter gives.
    pub open spec fn answer(&self) -> AskAnswer {
        if self.input_active && self.input@.len() > 0 {
            AskAnswer::Text(self.input@)
        } else {
            match self.mode {
                AskMode::FreeText => AskAnswer::Text(self.input@),
                AskMode::SingleSelect => if self.options@.len() == 0 {
                    AskAnswer::Text(self.input@)
                } else {
                    AskAnswer::Selected(seq![self.cursor])
                },
                AskMode::MultiSelect => if checked_indices(self.options@).len() == 0 {
                    AskAnswer::Selected(seq![self.cursor])
                } else {
                    AskAnswer::Selected(checked_indices(self.options@))
                },
            }
        }
    }

    pub fn new(question: String, context: String, options: Vec<AskOption>, multi: bool) -> (s:
        Self)
        ensures
            s.question == question,
            s.context == context,
            s.options@ == options@,
            s.mode == if options@.len() == 0 {
                AskMode::FreeText
            } else if multi {
                AskMode::MultiSelect
            } else {
                AskMode::SingleSelect
            },
            s.cursor == 0,
            s.input@ == Seq::<char>::empty(),
            s.input_cursor == 0,
            s.input_active == (options@.len() == 0),
    {
        let input_active = options.len() == 0;
        let mode = if options.len() == 0 {
            AskMode::FreeText
        } else if multi {
            AskMode::MultiSelect
        } else {
            AskMode::SingleSelect
        };
        AskState {
            question,
            context,
            options,
            mode,
            cursor: 0,
            input: String::new(),
            input_cursor: 0,
            input_active,
        }
    }

    /// Height needed to render this overlay.
    pub fn height(&self) -> (h: u16)
        requires
            ask_height(self.context@.len() > 0, self.options@.len() as usize) <= u16::MAX,
        ensures
            h == ask_height(self.context@.len() > 0, self.options@.len() as usize),
    {
        let mut h: u16 = 1;
        if !self.context.as_str().is_empty() {
            h = h + 1;
        }
        if self.options.len() > 0 {
            h = h + self.options.len() as u16;
            h = h + 1;
        }
        h = h + 1;
        h = h + 1;
        h
    }

    /// Moves the highlight up, wrapping to the last option; leaves input mode.
    pub fn cursor_up(&mut self)
        ensures
            final(self).same_but_cursor(old(self)),
            old(self).options@.len() == 0 ==> *final(self) == *old(self),
            old(self).options@.len() > 0 ==> {
                &&& !final(self).input_active
                &&& final(self).cursor == if old(self).cursor > 0 {
                    old(self).cursor - 1
                } else {
                    old(self).options@.len() - 1
                }
            },
    {
        if self.options.len() > 0 {
            self.input_active = false;
            if self.cursor > 0 {
                self.cursor = self.cursor - 1;
            } else {
                self.cursor = self.options.len() - 1;
            }
        }
    }

    /// Moves the highlight down, wrapping to the first option; leaves input mode.
    pub fn cursor_down(&mut self)
        ensures
            final(self).same_but_cursor(old(self)),
            old(self).options@.len() == 0 ==> *final(self) == *old(self),
            old(self).options@.len() > 0 ==> {
                &&& !final(self).input_active
                &&& final(self).cursor == if old(self).cursor < old(self).options@.len() - 1 {
                    old(self).cursor + 1
                } else {
                    0
                }
            },
    {
        if self.options.len() > 0 {
            self.input_active = false;
            if self.cursor < self.options.len() - 1 {
                self.cursor = self.cursor + 1;
            } else {
                self.cursor = 0;
            }
        }
    }

    /// `self` is `before` with the highlighted checkbox toggled, where the mode lets it be.
    pub open spec fn toggled_from(&self, before: &Self) -> bool {
        &&& self.question == before.question
        &&& self.context == before.context
        &&& self.mode == before.mode
        &&& self.cursor == before.cursor
        &&& self.input == before.input
        &&& self.input_cursor == before.input_cursor
        &&& self.input_active == before.input_active
        &&& self.options@.len() == before.options@.len()
        &&& forall|i: int|
            0 <= i < before.options@.len() && i != before.cursor ==> self.options@[i]
                == before.options@[i]
        &&& before.cursor < before.options@.len() ==> {
            let o = before.options@[before.cursor as int];
            let n = self.options@[before.cursor as int];
            &&& n.label == o.label
            &&& n.description == o.description
            &&& n.checked == if before.mode == AskMode::MultiSelect && !before.input_active {
                !o.checked
            } else {
                o.checked
            }
        }
    }

    /// Toggles the highlighted checkbox in multi-select mode.
    pub fn toggle_current(&mut self)
        ensures
            final(self).toggled_from(old(self)),
    {
        if self.mode == AskMode::MultiSelect && !self.input_active {
            if self.cursor < self.options.len() {
                let mut opt = self.options.remove(self.cursor);
                opt.checked = !opt.checked;
                self.options.insert(self.cursor, opt);
            }
        }
    }

    /// Tab: copies the highlighted option's label into the input and starts typing.
    pub fn tab_to_edit(&mut self)
        requires
            old(self).options@.len() > 0 && !old(self).input_active ==> old(self).cursor < old(self).options@.len(),
        ensures
            old(self).options@.len() == 0 || old(self).input_active ==> *final(self) == *old(self),
            old(self).options@.len() > 0 && !old(self).input_active ==> {
                &&& final(self).input@ == old(self).options@[old(self).cursor as int].label@
                &&& final(self).input_cursor == byte_len(final(self).input@)
                &&& final(self).input_active
                &&& final(self).question == old(self).question
                &&& final(self).context == old(self).context
                &&& final(self).options@ == old(self).options@
                &&& final(self).mode == old(self).mode
                &&& final(self).cursor == old(self).cursor
            },
    {
        if self.options.len() > 0 && !self.input_active {
            let label = self.options[self.cursor].label.clone();
            self.input_cursor = str_byte_len(label.as_str());
            self.input = label;
            self.input_active = true;
        }
    }

    /// Quick-select option `n` (1-based) unless typing.
    pub fn quick_select(&mut self, n: usize) -> (ok: bool)
        ensures
            ok == (0 < n <= old(self).options@.len() && !old(self).input_active),
            ok ==> final(self).cursor == n - 1,
            !ok ==> final(self).cursor == old(self).cursor,
            final(self).same_but_cursor(old(self)),
            final(self).input_active == old(self).input_active,
    {
        if n > 0 && n <= self.options.len() && !self.input_active {
            self.cursor = n - 1;
            true
        } else {
            false
        }
    }

    /// Inserts `ch` at the input cursor and switches to typing.
    pub fn type_char(&mut self, ch: char)
        requires
            is_boundary(old(self).input@, old(self).input_cursor as int),
            byte_len(old(self).input@) + char_bytes(ch) <= isize::MAX,
        ensures
            final(self).input@ == old(self).input@.insert(old(self).input_index(), ch),
            final(self).input_cursor == old(self).input_cursor + char_bytes(ch),
            final(self).input_index() == old(self).input_index() + 1,
            is_boundary(final(self).input@, final(self).input_cursor as int),
            final(self).input_active,
            final(self).question == old(self).question,
            final(self).context == old(self).context,
            final(self).options@ == old(self).options@,
            final(self).mode == old(self).mode,
            final(self).cursor == old(self).cursor,
    {
        self.input_active = true;
        let mut chars = chars_of(self.input.as_str());
        let k = char_index_of(&chars, self.input_cursor);
        let ghost old_chars = chars@;
        chars.insert(k, ch);
        proof {
            assert(chars@.take(k + 1) =~= old_chars.take(k as int).push(ch));
            crate::text::lemma_byte_len_push(old_chars.take(k as int), ch);
            lemma_prefix_boundary(chars@, k + 1);
            lemma_byte_len_take_le(old_chars, k as int);
        }
        self.input = string_from_chars(chars.as_slice());
        self.input_cursor = self.input_cursor + char_len_utf8(ch);
    }

    /// Deletes the character before the input cursor; with an empty input and choices
    /// available, returns to option mode.
    pub fn backspace(&mut self)
        requires
            old(self).input_cursor > 0 && old(self).input@.len() > 0 ==> is_boundary(
                old(self).input@,
                old(self).input_cursor as int,
            ),
        ensures
            final(self).question == old(self).question,
            final(self).context == old(self).context,
            final(self).options@ == old(self).options@,
            final(self).mode == old(self).mode,
            final(self).cursor == old(self).cursor,
            old(self).input_cursor > 0 && old(self).input@.len() > 0 ==> {
                &&& final(self).input@ == old(self).input@.remove(old(self).input_index() - 1)
                &&& final(self).input_cursor == byte_len(
                    old(self).input@.take(old(self).input_index() - 1),
                )
                &&& is_boundary(final(self).input@, final(self).input_cursor as int)
            },
            !(old(self).input_cursor > 0 && old(self).input@.len() > 0) ==> {
                &&& final(self).input == old(self).input
                &&& final(self).input_cursor == old(self).input_cursor
            },
            final(self).input_active == if final(self).input@.len() == 0 && old(self).options@.len() > 0 {
                false
            } else {
                old(self).input_active
            },
    {
        let _ = str_byte_len(self.input.as_str());
        let chars = chars_of(self.input.as_str());
        if self.input_cursor > 0 && chars.len() > 0 {
            let mut chars = chars;
            let k = char_index_of(&chars, self.input_cursor);
            proof {
                if k == 0 {
                    assert(chars@.take(0) =~= Seq::<char>::empty());
                }
                lemma_byte_len_take_le(chars@, k as int);
            }
            let ghost old_chars = chars@;
            let prev = byte_offset_of(&chars, k - 1);
            chars.remove(k - 1);
            proof {
                assert(chars@.take(k - 1) =~= old_chars.take(k - 1));
                lemma_prefix_boundary(chars@, k - 1);
            }
            self.input = string_from_chars(chars.as_slice());
            self.input_cursor = prev;
        }
        if self.input.as_str().is_empty() && self.options.len() > 0 {
            self.input_active = false;
        }
    }

    /// The final answer when Enter is pressed.
    pub fn confirm(&self) -> (r: AskResult)
        ensures
            r.answer() == self.answer(),
    {
        if self.input_active && !self.input.as_str().is_empty() {
            return AskResult::Text(self.input.clone());
        }
        match self.mode {
            AskMode::FreeText => AskResult::Text(self.input.clone()),
            AskMode::SingleSelect => {
                if self.options.len() == 0 {
                    AskResult::Text(self.input.clone())
                } else {
                    let v = vec![self.cursor];
                    assert(v@ =~= seq![self.cursor]);
                    AskResult::Selected(v)
                }
            },
            AskMode::MultiSelect => {
                let mut selected: Vec<usize> = Vec::new();
                let mut i: usize = 0;
                while i < self.options.len()
                    invariant
                        i <= self.options@.len(),
                        selected@ == checked_upto(self.options@, i as int),
                    decreases self.options@.len() - i,
                {
                    if self.options[i].checked {
                        selected.push(i);
                    }
                    i = i + 1;
                }
                if selected.len() == 0 {
                    let v = vec![self.cursor];
                    assert(v@ =~= seq![self.cursor]);
                    AskResult::Selected(v)
                } else {
                    AskResult::Selected(selected)
                }
            },
        }
    }
}

/// An answer in terms of plain values.
pub enum AskAnswer {
    Selected(Seq<usize>),
    Text(Seq<char>),
}

impl AskResult {
    /// The answer this result carries.
    pub open spec fn answer(&self) -> AskAnswer {
        match self {
            AskResult::Selected(v) => AskAnswer::Selected(v@),
            AskResult::Text(t) => AskAnswer::Text(t@),
        }
    }
}

/// Widget that renders the ask overlay bar.
pub struct AskBar<'a> {
    state: &'a AskState,
}

impl<'a> AskBar<'a> {
    /// The state this bar shows.
    pub closed spec fn state(&self) -> &'a AskState {
        self.state
    }

    pub fn new(state: &'a AskState) -> (b: Self)
        ensures
            b.state() == state,
    {
        AskBar { state }
    }
}

/// The longest prefix of `s` that fits in `max` bytes without splitting a character.
pub fn truncate(s: &str, max: usize) -> (r: &str)
    ensures
        r@ == s@.take(fit_prefix(s@, max as int) as int),
        byte_len(r@) <= max,
        byte_len(s@) <= max ==> r@ == s@,
{
    let _ = str_byte_len(s);
    let chars = chars_of(s);
    let k = fit_prefix_len(&chars, max);
    proof {
        lemma_fit_prefix(chars@, max as int);
        lemma_byte_len_take_le(chars@, k as int);
        lemma_prefix_boundary(chars@, k as int);
        if byte_len(s@) <= max && k < chars@.len() {
            lemma_byte_len_take_le(chars@, k + 1);
        }
        if k == chars@.len() {
            assert(chars@.take(k as int) =~= chars@);
        }
    }
    let end = byte_offset_of(&chars, k);
    str_prefix(s, end)
}

/// Toggling the highlighted checkbox twice leaves the whole ask state as it was.
pub proof fn law_toggle_twice_restores(s: AskState, t: AskState, u: AskState)
    requires
        t.toggled_from(&s),
        u.toggled_from(&t),
    ensures
        u.options@ == s.options@,
        u.cursor == s.cursor,
        u.input == s.input,
        u.input_active == s.input_active,
        u.mode == s.mode,
{
    assert forall|i: int| 0 <= i < s.options@.len() implies u.options@[i] == s.options@[i] by {
        if i == s.cursor {
            assert(u.options@[i].checked == s.options@[i].checked);
        }
    }
    assert(u.options@ =~= s.options@);
}

} // verus!
