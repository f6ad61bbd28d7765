//! Multi-line prompt editor: a text buffer with a byte-offset cursor, line/column
//! bookkeeping, prompt history, and soft-wrap layout.

use vstd::prelude::*;
use crate::layout::Rect;
use crate::text::{
    byte_len, byte_offset_of, char_bytes, char_index_at, char_index_of, char_len_utf8, chars_of,
    count_of, first_index, is_ascii_whitespace, is_ascii_ws, is_boundary, is_whitespace, is_ws,
    last_index, lemma_boundary_index, lemma_byte_len_concat, lemma_byte_len_pos, lemma_byte_len_take_step, lemma_byte_len_push, lemma_byte_len_single, lemma_byte_len_split, lemma_count_concat, lemma_byte_len_take_le,
    lemma_byte_len_take_strict, lemma_count_take_step, lemma_first_index, lemma_last_index,
    lemma_last_index_take_step, lemma_prefix_boundary, lemma_split_on_len, push_char, split_chars, unicode_char_width, unicode_width, split_on,
    str_byte_len, string_from_chars, sub_chars, views,
};

verus! {

/// `a.saturating_sub(b)` for `u16`.
pub open spec fn sat_sub_u16(a: u16, b: u16) -> u16 {
    if a >= b {
        (a - b) as u16
    } else {
        0
    }
}

/// Bytes of the last line of `s`: everything after its last line feed.
pub open spec fn line_tail_bytes(s: Seq<char>) -> nat {
    byte_len(s.skip(last_index(s, '\n') + 1))
}

/// Characters in `s` are all whitespace (`str::trim` leaves nothing).
pub open spec fn all_ws(s: Seq<char>) -> bool {
    forall|i: int| 0 <= i < s.len() ==> is_ws(#[trigger] s[i])
}

/// Byte offset of `(line, col)` in the text whose lines are `lines` joined by line feeds,
/// with `col` clamped to the line's byte length.
pub open spec fn line_col_byte(lines: Seq<Seq<char>>, line: int, col: int) -> int
    decreases lines.len(),
{
    if lines.len() == 0 {
        0
    } else if line == 0 {
        if col < byte_len(lines[0]) {
            col
        } else {
            byte_len(lines[0]) as int
        }
    } else {
        byte_len(lines[0]) + 1 + line_col_byte(lines.drop_first(), line - 1, col)
    }
}

/// Encoded length of `lines` joined by single-byte separators.
pub open spec fn joined_bytes(lines: Seq<Seq<char>>) -> nat
    decreases lines.len(),
{
    if lines.len() == 0 {
        0
    } else if lines.len() == 1 {
        byte_len(lines[0])
    } else {
        byte_len(lines[0]) + 1 + joined_bytes(lines.drop_first())
    }
}

/// Moving left from `i`, skip characters whose ASCII-whitespace status is `ws`.
pub open spec fn back_while(s: Seq<char>, i: int, ws: bool) -> int
    decreases i,
{
    if 0 < i <= s.len() && is_ascii_ws(s[i - 1]) == ws {
        back_while(s, i - 1, ws)
    } else {
        i
    }
}

/// Moving right from `i`, skip characters whose ASCII-whitespace status is `ws`.
pub open spec fn fwd_while(s: Seq<char>, i: int, ws: bool) -> int
    decreases s.len() - i,
{
    if 0 <= i < s.len() && is_ascii_ws(s[i]) == ws {
        fwd_while(s, i + 1, ws)
    } else {
        i
    }
}

/// Start of the word before character `i`: skip whitespace, then non-whitespace.
pub open spec fn word_left(s: Seq<char>, i: int) -> int {
    back_while(s, back_while(s, i, true), false)
}

/// End of the whitespace after the word at character `i`.
pub open spec fn word_right(s: Seq<char>, i: int) -> int {
    fwd_while(s, fwd_while(s, i, false), true)
}

pub proof fn lemma_back_while(s: Seq<char>, i: int, ws: bool)
    requires
        0 <= i <= s.len(),
    ensures
        0 <= back_while(s, i, ws) <= i,
    decreases i,
{
    if 0 < i && is_ascii_ws(s[i - 1]) == ws {
        lemma_back_while(s, i - 1, ws);
    }
}

pub proof fn lemma_fwd_while(s: Seq<char>, i: int, ws: bool)
    requires
        0 <= i <= s.len(),
    ensures
        i <= fwd_while(s, i, ws) <= s.len(),
    decreases s.len() - i,
{
    if i < s.len() && is_ascii_ws(s[i]) == ws {
        lemma_fwd_while(s, i + 1, ws);
    }
}

/// Multi-line editor state with cursor management.
///
/// `cursor` is a byte offset into `content`; `cursor_line` and `cursor_col` are the
/// zero-based line and the byte column of the cursor within its line.
pub struct EditorState {
    pub content: String,
    pub cursor: usize,
    pub cursor_line: usize,
    pub cursor_col: usize,
    pub history: Vec<String>,
    pub history_idx: Option<usize>,
    pub scroll_offset: usize,
}

impl Default for EditorState {
    fn default() -> (s: Self)
        ensures
            s.wf(),
            s.content@ == Seq::<char>::empty(),
            s.cursor == 0,
            s.cursor_line == 0,
            s.cursor_col == 0,
            s.history@ == Seq::<String>::empty(),
            s.history_idx.is_none(),
            s.scroll_offset == 0,
    {
        Self::new()
    }
}

impl EditorState {
    /// Number of characters before the cursor.
    pub open spec fn cursor_index(&self) -> int {
        char_index_at(self.content@, self.cursor as int) as int
    }

    /// The text before the cursor.
    pub open spec fn before(&self) -> Seq<char> {
        self.content@.take(self.cursor_index())
    }

    /// The text from the cursor on.
    pub open spec fn after(&self) -> Seq<char> {
        self.content@.skip(self.cursor_index())
    }

    /// The cursor sits on a character boundary and the line/column fields describe it.
    pub open spec fn wf(&self) -> bool {
        &&& byte_len(self.content@) <= isize::MAX
        &&& is_boundary(self.content@, self.cursor as int)
        &&& self.cursor_line == count_of(self.before(), '\n')
        &&& self.cursor_col == line_tail_bytes(self.before())
    }

    /// The content fits the machine and the cursor sits on a character boundary.
    pub open spec fn cursor_ok(&self) -> bool {
        &&& byte_len(self.content@) <= isize::MAX
        &&& is_boundary(self.content@, self.cursor as int)
    }

    /// The cursor moved to the boundary before character `k` of `text`.
    pub open spec fn at(&self, text: Seq<char>, k: int) -> bool {
        &&& self.content@ == text
        &&& self.cursor == byte_len(text.take(k))
        &&& self.cursor_index() == k
    }

    /// History fields are left as they were.
    pub open spec fn same_history(&self, other: &Self) -> bool {
        &&& self.history@ == other.history@
        &&& self.history_idx == other.history_idx
        &&& self.scroll_offset == other.scroll_offset
    }

    /// Byte offset the cursor moves to when it goes to line `line` keeping its column.
    pub open spec fn vertical_target(&self, line: int) -> int {
        let lines = split_on(self.content@, '\n');
        line_col_byte(lines, line, self.cursor_col as int)
    }

    pub fn new() -> (s: Self)
        ensures
            s.wf(),
            s.content@ == Seq::<char>::empty(),
            s.cursor == 0,
            s.cursor_line == 0,
            s.cursor_col == 0,
            s.history@ == Seq::<String>::empty(),
            s.history_idx.is_none(),
            s.scroll_offset == 0,
    {
        let s = Self {
            content: String::new(),
            cursor: 0,
            cursor_line: 0,
            cursor_col: 0,
            history: Vec::new(),
            history_idx: None,
            scroll_offset: 0,
        };
        proof {
            lemma_prefix_boundary(s.content@, 0);
            assert(s.content@.take(0) =~= Seq::<char>::empty());
            assert(s.before().skip(0) =~= Seq::<char>::empty());
        }
        s
    }

    /// Recompute `cursor_line` and `cursor_col` from `cursor`.
    fn update_position(&mut self)
        requires
            old(self).cursor_ok(),
        ensures
            final(self).wf(),
            final(self).content == old(self).content,
            final(self).cursor == old(self).cursor,
            final(self).same_history(old(self)),
    {
        let chars = chars_of(self.content.as_str());
        let k = char_index_of(&chars, self.cursor);
        let ghost pre = chars@.take(k as int);
        let mut line: usize = 0;
        let mut start: usize = 0;
        let mut i: usize = 0;
        while i < k
            invariant
                k <= chars@.len(),
                pre == chars@.take(k as int),
                i <= k,
                line == count_of(chars@.take(i as int), '\n'),
                start == last_index(chars@.take(i as int), '\n') + 1,
                line <= i,
            decreases k - i,
        {
            proof {
                lemma_count_take_step(chars@, i as int, '\n');
                lemma_last_index_take_step(chars@, i as int, '\n');
            }
            if chars[i] == '\n' {
                line = line + 1;
                start = i + 1;
            }
            i = i + 1;
        }
        proof {
            lemma_last_index(pre, '\n');
            assert(chars@.take(i as int) =~= pre);
            lemma_byte_len_split(pre, start as int);
            assert(pre.take(start as int) =~= chars@.take(start as int));
            lemma_byte_len_take_le(chars@, k as int);
        }
        let b = byte_offset_of(&chars, start);
        self.cursor_line = line;
        self.cursor_col = self.cursor - b;
    }

    /// Inserts `c` at the cursor and moves the cursor past it.
    pub fn insert_char(&mut self, c: char)
        requires
            old(self).wf(),
            byte_len(old(self).content@) + char_bytes(c) <= isize::MAX,
        ensures
            final(self).wf(),
            final(self).at(
                old(self).before() + seq![c] + old(self).after(),
                old(self).cursor_index() + 1,
            ),
            final(self).same_history(old(self)),
    {
        let chars = chars_of(self.content.as_str());
        let k = char_index_of(&chars, self.cursor);
        let mut next = sub_chars(&chars, 0, k);
        next.push(c);
        let tail = sub_chars(&chars, k, chars.len());
        let mut j: usize = 0;
        while j < tail.len()
            invariant
                next@ == chars@.take(k as int).push(c) + tail@.take(j as int),
                j <= tail@.len(),
            decreases tail@.len() - j,
        {
            next.push(tail[j]);
            assert(tail@.take(j + 1) =~= tail@.take(j as int).push(tail@[j as int]));
            j = j + 1;
        }
        let ghost text = next@;
        proof {
            assert(tail@.take(tail@.len() as int) =~= tail@);
            assert(chars@.take(k as int) =~= chars@.subrange(0, k as int));
            assert(text =~= self.before() + seq![c] + self.after());
            assert(text.take(k + 1) =~= chars@.take(k as int).push(c));
            lemma_byte_len_push(chars@.take(k as int), c);
            lemma_byte_len_split(text, k + 1);
            lemma_byte_len_split(chars@, k as int);
            assert(text.skip(k + 1) =~= chars@.skip(k as int));
            lemma_prefix_boundary(text, k + 1);
            assert(byte_len(text) == byte_len(chars@) + char_bytes(c));
        }
        self.content = string_from_chars(next.as_slice());
        self.cursor = self.cursor + char_len_utf8(c);
        self.update_position();
    }

    /// Inserts a line feed at the cursor.
    pub fn insert_newline(&mut self)
        requires
            old(self).wf(),
            byte_len(old(self).content@) + 1 <= isize::MAX,
        ensures
            final(self).wf(),
            final(self).at(
                old(self).before() + seq!['\n'] + old(self).after(),
                old(self).cursor_index() + 1,
            ),
            final(self).same_history(old(self)),
    {
        self.insert_char('\n');
    }

    /// Replaces the characters `[from, to)` of the content by nothing and puts the cursor
    /// at `from`.
    fn remove_range(&mut self, chars: &Vec<char>, from: usize, to: usize)
        requires
            old(self).wf(),
            chars@ == old(self).content@,
            from <= to <= chars@.len(),
        ensures
            final(self).wf(),
            final(self).at(chars@.take(from as int) + chars@.skip(to as int), from as int),
            final(self).same_history(old(self)),
    {
        let mut next = sub_chars(chars, 0, from);
        let mut j = to;
        while j < chars.len()
            invariant
                to <= j <= chars@.len(),
                next@ == chars@.take(from as int) + chars@.subrange(to as int, j as int),
            decreases chars@.len() - j,
        {
            next.push(chars[j]);
            assert(chars@.subrange(to as int, j + 1) =~= chars@.subrange(to as int, j as int).push(
                chars@[j as int],
            ));
            j = j + 1;
        }
        let ghost text = next@;
        proof {
            assert(chars@.take(from as int) =~= chars@.subrange(0, from as int));
            assert(chars@.subrange(to as int, chars@.len() as int) =~= chars@.skip(to as int));
            assert(text.take(from as int) =~= chars@.take(from as int));
            assert(text.skip(from as int) =~= chars@.skip(to as int));
            lemma_byte_len_split(text, from as int);
            lemma_byte_len_split(chars@, to as int);
            lemma_byte_len_take_le(chars@, to as int);
            lemma_prefix_boundary(text, from as int);
            lemma_byte_len_take_strict(chars@, from as int, to as int);
        }
        let b = byte_offset_of(chars, from);
        self.content = string_from_chars(next.as_slice());
        self.cursor = b;
        self.update_position();
    }

    /// Deletes the character before the cursor.
    pub fn delete_back(&mut self)
        requires
            old(self).wf(),
        ensures
            final(self).wf(),
            final(self).same_history(old(self)),
            old(self).cursor == 0 ==> *final(self) == *old(self),
            old(self).cursor > 0 ==> final(self).at(
                old(self).before().drop_last() + old(self).after(),
                old(self).cursor_index() - 1,
            ),
    {
        if self.cursor > 0 {
            let chars = chars_of(self.content.as_str());
            let k = char_index_of(&chars, self.cursor);
            proof {
                if k == 0 {
                    assert(chars@.take(0) =~= Seq::<char>::empty());
                }
                assert(chars@.take(k - 1) =~= self.before().drop_last());
            }
            self.remove_range(&chars, k - 1, k);
        }
    }

    /// Deletes the character at the cursor.
    pub fn delete_forward(&mut self)
        requires
            old(self).wf(),
        ensures
            final(self).wf(),
            final(self).same_history(old(self)),
            old(self).cursor_index() == old(self).content@.len() ==> *final(self) == *old(self),
            old(self).cursor_index() < old(self).content@.len() ==> final(self).at(
                old(self).before() + old(self).after().drop_first(),
                old(self).cursor_index(),
            ),
    {
        let chars = chars_of(self.content.as_str());
        let k = char_index_of(&chars, self.cursor);
        if k < chars.len() {
            proof {
                assert(chars@.skip(k + 1) =~= self.after().drop_first());
            }
            self.remove_range(&chars, k, k + 1);
        }
    }

    /// Moves the cursor to character `k` of the unchanged content.
    fn move_to(&mut self, chars: &Vec<char>, k: usize)
        requires
            old(self).wf(),
            chars@ == old(self).content@,
            k <= chars@.len(),
        ensures
            final(self).wf(),
            final(self).at(old(self).content@, k as int),
            final(self).same_history(old(self)),
    {
        proof {
            lemma_byte_len_take_le(chars@, k as int);
            lemma_prefix_boundary(chars@, k as int);
        }
        self.cursor = byte_offset_of(chars, k);
        self.update_position();
    }

    /// Moves the cursor one character left.
    pub fn move_left(&mut self)
        requires
            old(self).wf(),
        ensures
            final(self).wf(),
            final(self).same_history(old(self)),
            old(self).cursor == 0 ==> *final(self) == *old(self),
            old(self).cursor > 0 ==> final(self).at(
                old(self).content@,
                old(self).cursor_index() - 1,
            ),
    {
        if self.cursor > 0 {
            let chars = chars_of(self.content.as_str());
            let k = char_index_of(&chars, self.cursor);
            proof {
                if k == 0 {
                    assert(chars@.take(0) =~= Seq::<char>::empty());
                }
            }
            self.move_to(&chars, k - 1);
        }
    }

    /// Moves the cursor one character right.
    pub fn move_right(&mut self)
        requires
            old(self).wf(),
        ensures
            final(self).wf(),
            final(self).same_history(old(self)),
            old(self).cursor_index() == old(self).content@.len() ==> *final(self) == *old(self),
            old(self).cursor_index() < old(self).content@.len() ==> final(self).at(
                old(self).content@,
                old(self).cursor_index() + 1,
            ),
    {
        let chars = chars_of(self.content.as_str());
        let k = char_index_of(&chars, self.cursor);
        if k < chars.len() {
            self.move_to(&chars, k + 1);
        }
    }


    /// Moves the cursor to the same byte column of the previous line; returns false (and
    /// changes nothing) on the first line.
    pub fn move_up(&mut self) -> (moved: bool)
        requires
            old(self).wf(),
            old(self).cursor_line > 0 ==> is_boundary(
                old(self).content@,
                old(self).vertical_target(old(self).cursor_line - 1),
            ),
        ensures
            final(self).wf(),
            moved == (old(self).cursor_line > 0),
            !moved ==> *final(self) == *old(self),
            moved ==> {
                &&& final(self).content == old(self).content
                &&& final(self).cursor == old(self).vertical_target(old(self).cursor_line - 1)
                &&& final(self).same_history(old(self))
            },
    {
        if self.cursor_line == 0 {
            return false;
        }
        let chars = chars_of(self.content.as_str());
        let lines = split_chars(&chars, '\n');
        proof {
            self.lemma_line_in_range(chars@);
            lemma_joined_split(chars@, '\n');
        }
        let target_line = self.cursor_line - 1;
        self.cursor = line_col_to_byte(&lines, target_line, self.cursor_col);
        self.update_position();
        true
    }

    /// Moves the cursor to the same byte column of the next line; returns false (and
    /// changes nothing) on the last line.
    pub fn move_down(&mut self) -> (moved: bool)
        requires
            old(self).wf(),
            old(self).cursor_line < count_of(old(self).content@, '\n') ==> is_boundary(
                old(self).content@,
                old(self).vertical_target(old(self).cursor_line + 1),
            ),
        ensures
            final(self).wf(),
            moved == (old(self).cursor_line < count_of(old(self).content@, '\n')),
            !moved ==> *final(self) == *old(self),
            moved ==> {
                &&& final(self).content == old(self).content
                &&& final(self).cursor == old(self).vertical_target(old(self).cursor_line + 1)
                &&& final(self).same_history(old(self))
            },
    {
        let chars = chars_of(self.content.as_str());
        let lines = split_chars(&chars, '\n');
        proof {
            self.lemma_line_in_range(chars@);
            lemma_joined_split(chars@, '\n');
            lemma_split_on_len(chars@, '\n');
            assert(views(lines@).len() == lines@.len());
        }
        if self.cursor_line >= lines.len() - 1 {
            return false;
        }
        let target_line = self.cursor_line + 1;
        self.cursor = line_col_to_byte(&lines, target_line, self.cursor_col);
        self.update_position();
        true
    }

    /// The cursor's line exists: it is at most the number of line feeds.
    proof fn lemma_line_in_range(&self, chars: Seq<char>)
        requires
            self.wf(),
            chars == self.content@,
        ensures
            self.cursor_line <= count_of(chars, '\n'),
            split_on(chars, '\n').len() == count_of(chars, '\n') + 1,
    {
        lemma_boundary_index(chars, self.cursor as int);
        let k = self.cursor_index();
        assert(chars =~= chars.take(k) + chars.skip(k));
        lemma_count_concat(chars.take(k), chars.skip(k), '\n');
        lemma_split_on_len(chars, '\n');
    }

    /// Moves the cursor to the start of its line.
    pub fn move_home(&mut self)
        requires
            old(self).wf(),
        ensures
            final(self).wf(),
            final(self).same_history(old(self)),
            final(self).at(
                old(self).content@,
                last_index(old(self).before(), '\n') + 1,
            ),
    {
        let chars = chars_of(self.content.as_str());
        let k = char_index_of(&chars, self.cursor);
        let mut i = k;
        while i > 0 && chars[i - 1] != '\n'
            invariant
                i <= k <= chars@.len(),
                forall|j: int| i <= j < k ==> chars@[j] != '\n',
            decreases i,
        {
            i = i - 1;
        }
        proof {
            let pre = chars@.take(k as int);
            lemma_last_index(pre, '\n');
            let li = last_index(pre, '\n');
            if li >= i as int {
                assert(pre[li] == chars@[li]);
            }
            if i > 0 {
                assert(pre[i - 1] == chars@[i - 1]);
            }
            assert(li + 1 == i as int);
        }
        self.move_to(&chars, i);
    }

    /// Moves the cursor to the end of its line.
    pub fn move_end(&mut self)
        requires
            old(self).wf(),
        ensures
            final(self).wf(),
            final(self).same_history(old(self)),
            final(self).at(
                old(self).content@,
                old(self).cursor_index() + first_index(old(self).after(), '\n'),
            ),
    {
        let chars = chars_of(self.content.as_str());
        let k = char_index_of(&chars, self.cursor);
        let mut i = k;
        while i < chars.len() && chars[i] != '\n'
            invariant
                k <= i <= chars@.len(),
                forall|j: int| k <= j < i ==> chars@[j] != '\n',
            decreases chars@.len() - i,
        {
            i = i + 1;
        }
        proof {
            let post = chars@.skip(k as int);
            lemma_first_index(post, '\n');
            let fi = first_index(post, '\n') as int;
            if fi < i - k {
                assert(post[fi] == chars@[k + fi]);
            }
            if i < chars@.len() {
                assert(post[i - k] == chars@[i as int]);
            }
            assert(fi == i - k);
        }
        self.move_to(&chars, i);
    }

    /// Moves the cursor to the start of the previous word.
    pub fn move_word_left(&mut self)
        requires
            old(self).wf(),
        ensures
            final(self).wf(),
            final(self).same_history(old(self)),
            old(self).cursor == 0 ==> *final(self) == *old(self),
            old(self).cursor > 0 ==> final(self).at(
                old(self).content@,
                word_left(old(self).content@, old(self).cursor_index()),
            ),
    {
        if self.cursor == 0 {
            return;
        }
        let chars = chars_of(self.content.as_str());
        let k = char_index_of(&chars, self.cursor);
        let p = word_left_index(&chars, k);
        self.move_to(&chars, p);
    }

    /// Moves the cursor past the current word and the whitespace after it.
    pub fn move_word_right(&mut self)
        requires
            old(self).wf(),
        ensures
            final(self).wf(),
            final(self).same_history(old(self)),
            final(self).at(
                old(self).content@,
                word_right(old(self).content@, old(self).cursor_index()),
            ),
    {
        let chars = chars_of(self.content.as_str());
        let k = char_index_of(&chars, self.cursor);
        let mut pos = k;
        while pos < chars.len() && !is_ascii_whitespace(chars[pos])
            invariant
                k <= pos <= chars@.len(),
                fwd_while(chars@, k as int, false) == fwd_while(chars@, pos as int, false),
            decreases chars@.len() - pos,
        {
            pos = pos + 1;
        }
        let mid = pos;
        while pos < chars.len() && is_ascii_whitespace(chars[pos])
            invariant
                mid <= pos <= chars@.len(),
                mid == fwd_while(chars@, k as int, false),
                fwd_while(chars@, mid as int, true) == fwd_while(chars@, pos as int, true),
            decreases chars@.len() - pos,
        {
            pos = pos + 1;
        }
        self.move_to(&chars, pos);
    }

    /// Deletes from the start of the previous word up to the cursor.
    pub fn delete_word_back(&mut self)
        requires
            old(self).wf(),
        ensures
            final(self).wf(),
            final(self).same_history(old(self)),
            old(self).cursor == 0 ==> *final(self) == *old(self),
            old(self).cursor > 0 ==> final(self).at(
                old(self).content@.take(word_left(old(self).content@, old(self).cursor_index()))
                    + old(self).after(),
                word_left(old(self).content@, old(self).cursor_index()),
            ),
    {
        if self.cursor == 0 {
            return;
        }
        let chars = chars_of(self.content.as_str());
        let k = char_index_of(&chars, self.cursor);
        let p = word_left_index(&chars, k);
        self.remove_range(&chars, p, k);
    }

    /// Deletes from the start of the line up to the cursor.
    pub fn delete_to_start(&mut self)
        requires
            old(self).wf(),
        ensures
            final(self).wf(),
            final(self).same_history(old(self)),
            final(self).at(
                old(self).content@.take(last_index(old(self).before(), '\n') + 1)
                    + old(self).after(),
                last_index(old(self).before(), '\n') + 1,
            ),
    {
        let chars = chars_of(self.content.as_str());
        let k = char_index_of(&chars, self.cursor);
        let mut i = k;
        while i > 0 && chars[i - 1] != '\n'
            invariant
                i <= k <= chars@.len(),
                forall|j: int| i <= j < k ==> chars@[j] != '\n',
            decreases i,
        {
            i = i - 1;
        }
        proof {
            let pre = chars@.take(k as int);
            lemma_last_index(pre, '\n');
            let li = last_index(pre, '\n');
            if li >= i as int {
                assert(pre[li] == chars@[li]);
            }
            if i > 0 {
                assert(pre[i - 1] == chars@[i - 1]);
            }
            assert(li + 1 == i as int);
        }
        self.remove_range(&chars, i, k);
    }

    /// Deletes from the cursor up to the end of the line.
    pub fn delete_to_end(&mut self)
        requires
            old(self).wf(),
        ensures
            final(self).wf(),
            final(self).same_history(old(self)),
            final(self).at(
                old(self).before() + old(self).content@.skip(
                    old(self).cursor_index() + first_index(old(self).after(), '\n'),
                ),
                old(self).cursor_index(),
            ),
    {
        let chars = chars_of(self.content.as_str());
        let k = char_index_of(&chars, self.cursor);
        let mut i = k;
        while i < chars.len() && chars[i] != '\n'
            invariant
                k <= i <= chars@.len(),
                forall|j: int| k <= j < i ==> chars@[j] != '\n',
            decreases chars@.len() - i,
        {
            i = i + 1;
        }
        proof {
            let post = chars@.skip(k as int);
            lemma_first_index(post, '\n');
            let fi = first_index(post, '\n') as int;
            if fi < i - k {
                assert(post[fi] == chars@[k + fi]);
            }
            if i < chars@.len() {
                assert(post[i - k] == chars@[i as int]);
            }
            assert(fi == i - k);
        }
        self.remove_range(&chars, k, i);
    }

    /// Empties the buffer.
    pub fn clear(&mut self)
        requires
            old(self).wf(),
        ensures
            final(self).wf(),
            final(self).at(Seq::<char>::empty(), 0),
            final(self).same_history(old(self)),
    {
        self.content = String::new();
        self.cursor = 0;
        proof {
            lemma_prefix_boundary(self.content@, 0);
            assert(self.content@.take(0) =~= Seq::<char>::empty());
        }
        self.update_position();
    }

    /// Replaces the buffer by `text` with the cursor at its end.
    pub fn set_content(&mut self, text: &str)
        ensures
            final(self).wf(),
            final(self).at(text@, text@.len() as int),
            final(self).same_history(old(self)),
    {
        let n = str_byte_len(text);
        self.content = text.to_owned();
        self.cursor = n;
        proof {
            lemma_prefix_boundary(text@, text@.len() as int);
            assert(text@.take(text@.len() as int) =~= text@);
        }
        self.update_position();
    }

    /// The buffer's text.
    pub fn content(&self) -> (r: &str)
        ensures
            r@ == self.content@,
    {
        self.content.as_str()
    }

    /// True when the buffer holds only whitespace.
    pub fn is_empty(&self) -> (r: bool)
        ensures
            r == all_ws(self.content@),
    {
        let chars = chars_of(self.content.as_str());
        all_whitespace(&chars)
    }

    /// Number of logical lines (at least one).
    pub fn line_count(&self) -> (n: usize)
        ensures
            n == count_of(self.content@, '\n') + 1,
    {
        let chars = chars_of(self.content.as_str());
        let lines = split_chars(&chars, '\n');
        proof {
            lemma_split_on_len(chars@, '\n');
            assert(views(lines@).len() == lines@.len());
        }
        lines.len()
    }


    /// Number of visual lines the buffer takes at `inner_width` columns (at least one).
    pub fn visual_line_count(&self, inner_width: u16) -> (n: usize)
        ensures
            n == wrapped_text(self.content@, editor_width(inner_width)).len(),
            n >= 1,
    {
        let lines = wrapped_lines(self.content.as_str(), inner_width);
        proof {
            assert(str_views(lines@).len() == lines@.len());
        }
        lines.len()
    }

    /// Screen cell of the cursor inside the bordered editor `area`, after soft wraps and
    /// vertical scrolling, kept inside the border.
    pub fn cursor_screen_position(&self, area: Rect) -> (p: (u16, u16))
        requires
            2 <= area.x + area.width <= u16::MAX,
            2 <= area.y + area.height <= u16::MAX,
            area.x + 1 + visual_pos(
                self.content@,
                editor_width(sat_sub_u16(area.width, 2)),
                self.cursor as int,
                0,
                0,
                0,
                0,
            ).1 <= u16::MAX,
            area.y + 1 + sat_sub_u16(
                visual_pos(
                    self.content@,
                    editor_width(sat_sub_u16(area.width, 2)),
                    self.cursor as int,
                    0,
                    0,
                    0,
                    0,
                ).0 as u16,
                self.scroll_offset as u16,
            ) <= u16::MAX,
        ensures
            ({
                let v = visual_pos(
                    self.content@,
                    editor_width(sat_sub_u16(area.width, 2)),
                    self.cursor as int,
                    0,
                    0,
                    0,
                    0,
                );
                let x = area.x + 1 + v.1;
                let y = area.y + 1 + sat_sub_u16(v.0 as u16, self.scroll_offset as u16);
                &&& p.0 == if x < area.x + area.width - 2 {
                    x
                } else {
                    area.x + area.width - 2
                }
                &&& p.1 == if y < area.y + area.height - 2 {
                    y
                } else {
                    area.y + area.height - 2
                }
            }),
    {
        let inner_x = area.x + 1;
        let inner_y = area.y + 1;
        let w = area.width.saturating_sub(2);
        let inner_width: u16 = if w >= 1 {
            w
        } else {
            1
        };
        let (visual_line, visual_col) = cursor_visual_position(
            self.content.as_str(),
            self.cursor,
            inner_width,
        );
        proof {
            assert(editor_width(inner_width) == editor_width(sat_sub_u16(area.width, 2)));
        }
        let x = inner_x + visual_col as u16;
        let y = inner_y + (visual_line as u16).saturating_sub(self.scroll_offset as u16);
        let max_x = area.x + area.width - 2;
        let max_y = area.y + area.height - 2;
        (
            if x < max_x {
                x
            } else {
                max_x
            },
            if y < max_y {
                y
            } else {
                max_y
            },
        )
    }

    /// Saves the buffer in the history unless it is blank, and leaves history browsing.
    pub fn push_history(&mut self)
        ensures
            final(self).content == old(self).content,
            final(self).cursor == old(self).cursor,
            final(self).cursor_line == old(self).cursor_line,
            final(self).cursor_col == old(self).cursor_col,
            final(self).scroll_offset == old(self).scroll_offset,
            final(self).history_idx.is_none(),
            all_ws(old(self).content@) ==> final(self).history@ == old(self).history@,
            !all_ws(old(self).content@) ==> final(self).history@ == old(self).history@.push(
                old(self).content,
            ),
    {
        if !self.is_empty() {
            let c = self.content.clone();
            self.history.push(c);
        }
        self.history_idx = None;
    }

    /// Steps back through the history, saving an unsaved non-empty buffer first.
    pub fn history_prev(&mut self)
        requires
            old(self).wf(),
            forall|i: int|
                0 <= i < old(self).history@.len() ==> byte_len(#[trigger] old(self).history@[i]@)
                    <= isize::MAX,
            old(self).history_idx matches Some(i) ==> i < old(self).history@.len(),
        ensures
            final(self).wf(),
            final(self).scroll_offset == old(self).scroll_offset,
            old(self).history@.len() == 0 ==> *final(self) == *old(self),
            old(self).history_idx == Some(0usize) ==> *final(self) == *old(self),
            old(self).history@.len() > 0 && old(self).history_idx.is_some()
                && old(self).history_idx.unwrap() > 0 ==> ({
                let i = old(self).history_idx.unwrap() as int;
                &&& final(self).history@ == old(self).history@
                &&& final(self).history_idx == Some((i - 1) as usize)
                &&& final(self).at(old(self).history@[i - 1]@, old(self).history@[i - 1]@.len() as int)
            }),
            old(self).history@.len() > 0 && old(self).history_idx.is_none() ==> {
                let h = if old(self).content@.len() == 0 {
                    old(self).history@
                } else {
                    old(self).history@.push(old(self).content)
                };
                &&& final(self).history@ == h
                &&& final(self).history_idx == Some((h.len() - 1) as usize)
                &&& final(self).at(h.last()@, h.last()@.len() as int)
            },
    {
        if self.history.len() == 0 {
            return;
        }
        let idx: usize = match self.history_idx {
            Some(i) => {
                if i > 0 {
                    i - 1
                } else {
                    return;
                }
            },
            None => {
                let chars = chars_of(self.content.as_str());
                if chars.len() > 0 {
                    let c = self.content.clone();
                    self.history.push(c);
                }
                self.history.len() - 1
            },
        };
        self.history_idx = Some(idx);
        let text = self.history[idx].clone();
        self.set_content(text.as_str());
    }

    /// Steps forward through the history; past the newest entry the buffer is emptied.
    pub fn history_next(&mut self)
        requires
            old(self).wf(),
            forall|i: int|
                0 <= i < old(self).history@.len() ==> byte_len(#[trigger] old(self).history@[i]@)
                    <= isize::MAX,
            old(self).history_idx matches Some(i) ==> i < usize::MAX,
        ensures
            final(self).wf(),
            final(self).scroll_offset == old(self).scroll_offset,
            final(self).history@ == old(self).history@,
            old(self).history_idx.is_none() ==> *final(self) == *old(self),
            old(self).history_idx.is_some() && old(self).history_idx.unwrap() + 1
                < old(self).history@.len() ==> ({
                let i = old(self).history_idx.unwrap() as int;
                &&& final(self).history_idx == Some((i + 1) as usize)
                &&& final(self).at(old(self).history@[i + 1]@, old(self).history@[i + 1]@.len() as int)
            }),
            old(self).history_idx.is_some() && old(self).history_idx.unwrap() + 1
                >= old(self).history@.len() ==> ({
                &&& final(self).history_idx.is_none()
                &&& final(self).at(Seq::<char>::empty(), 0)
            }),
    {
        if let Some(i) = self.history_idx {
            if i + 1 < self.history.len() {
                self.history_idx = Some(i + 1);
                let text = self.history[i + 1].clone();
                self.set_content(text.as_str());
            } else {
                self.history_idx = None;
                self.clear();
            }
        }
    }
}


/// Joining the pieces of `split_on(s, sep)` with a one-byte separator gives back the
/// encoded length of `s`.
pub proof fn lemma_joined_split(s: Seq<char>, sep: char)
    requires
        char_bytes(sep) == 1,
    ensures
        joined_bytes(split_on(s, sep)) == byte_len(s),
        split_on(s, sep).len() >= 1,
    decreases s.len(),
{
    lemma_first_index(s, sep);
    let i = first_index(s, sep) as int;
    if i < s.len() {
        let rest = s.skip(i + 1);
        lemma_joined_split(rest, sep);
        let l = split_on(s, sep);
        assert(l.drop_first() =~= split_on(rest, sep));
        lemma_byte_len_split(s, i);
        assert(s.skip(i) =~= seq![sep] + rest);
        lemma_byte_len_concat(seq![sep], rest);
        lemma_byte_len_single(sep);
    }
}

/// The byte offset of a position on an existing line lies within the joined text, and so
/// does the whole line.
pub proof fn lemma_line_col_byte_bound(lines: Seq<Seq<char>>, line: int, col: int)
    requires
        0 <= line < lines.len(),
        0 <= col,
    ensures
        0 <= line_col_byte(lines, line, col),
        line_col_byte(lines, line, col) <= joined_bytes(lines),
        byte_len(lines[line]) <= joined_bytes(lines),
    decreases lines.len(),
{
    if line > 0 {
        lemma_line_col_byte_bound(lines.drop_first(), line - 1, col);
    } else if lines.len() > 1 {
        lemma_joined_nonneg(lines.drop_first());
    }
}

pub proof fn lemma_joined_nonneg(lines: Seq<Seq<char>>)
    ensures
        joined_bytes(lines) >= 0,
{
}

/// Byte offset of `(line, col)` in the text whose lines are `lines`.
fn line_col_to_byte(lines: &Vec<Vec<char>>, line: usize, col: usize) -> (b: usize)
    requires
        line < lines@.len(),
        joined_bytes(views(lines@)) <= usize::MAX,
    ensures
        b == line_col_byte(views(lines@), line as int, col as int),
{
    let ghost l = views(lines@);
    let mut byte: usize = 0;
    let mut i: usize = 0;
    proof {
        assert(l.skip(0) =~= l);
    }
    while i < line
        invariant
            i <= line < lines@.len(),
            l == views(lines@),
            joined_bytes(l) <= usize::MAX,
            line_col_byte(l, line as int, col as int) == byte + line_col_byte(
                l.skip(i as int),
                line - i,
                col as int,
            ),
            byte + joined_bytes(l.skip(i as int)) == joined_bytes(l),
        decreases line - i,
    {
        let ghost r = l.skip(i as int);
        proof {
            assert(r.drop_first() =~= l.skip(i + 1));
            assert(r[0] == lines@[i as int]@);
            lemma_line_col_byte_bound(r, 0, 0);
        }
        let w = byte_offset_of(&lines[i], lines[i].len());
        proof {
            assert(lines@[i as int]@.take(lines@[i as int]@.len() as int) =~= lines@[i as int]@);
        }
        byte = byte + w + 1;
        i = i + 1;
    }
    let ghost r = l.skip(i as int);
    proof {
        assert(r[0] == lines@[i as int]@);
        lemma_line_col_byte_bound(r, 0, 0);
    }
    let w = byte_offset_of(&lines[i], lines[i].len());
    proof {
        assert(lines@[i as int]@.take(lines@[i as int]@.len() as int) =~= lines@[i as int]@);
    }
    if col < w {
        byte + col
    } else {
        byte + w
    }
}


/// Columns a character occupies in the editor: tabs take four, characters without a width
/// take one, and nothing takes less than one.
pub open spec fn display_width(c: char) -> nat {
    if c == '\t' {
        4
    } else {
        match unicode_width(c) {
            Some(w) => if w >= 1 {
                w as nat
            } else {
                1
            },
            None => 1,
        }
    }
}

/// Soft-wrap the rest of a logical line from character `i`, with `cur` the pending visual
/// line of width `cw`: a character that would overflow starts a new line, a character wider
/// than the whole line stands alone, and a line that reaches the width exactly is closed.
pub open spec fn wrap_from(line: Seq<char>, width: nat, i: int, cur: Seq<char>, cw: nat) -> Seq<
    Seq<char>,
>
    decreases line.len() - i,
{
    if i < 0 || i >= line.len() {
        if cur.len() > 0 {
            seq![cur]
        } else {
            seq![]
        }
    } else {
        let w = display_width(line[i]);
        let flush = cur.len() > 0 && cw + w > width;
        let out1: Seq<Seq<char>> = if flush {
            seq![cur]
        } else {
            seq![]
        };
        let cur1 = if flush {
            Seq::<char>::empty()
        } else {
            cur
        };
        let cw1: nat = if flush {
            0
        } else {
            cw
        };
        if cur1.len() == 0 && w > width {
            out1 + seq![seq![line[i]]] + wrap_from(line, width, i + 1, cur1, cw1)
        } else if cw1 + w == width {
            out1 + seq![cur1.push(line[i])] + wrap_from(line, width, i + 1, Seq::empty(), 0)
        } else {
            out1 + wrap_from(line, width, i + 1, cur1.push(line[i]), cw1 + w)
        }
    }
}

/// Visual lines of the logical lines `lines`: an empty logical line stays one empty visual
/// line, other lines are soft-wrapped.
pub open spec fn wrap_all(lines: Seq<Seq<char>>, width: nat) -> Seq<Seq<char>>
    decreases lines.len(),
{
    if lines.len() == 0 {
        seq![]
    } else {
        (if lines[0].len() == 0 {
            seq![Seq::<char>::empty()]
        } else {
            wrap_from(lines[0], width, 0, Seq::empty(), 0)
        }) + wrap_all(lines.drop_first(), width)
    }
}

/// Visual lines of `text` at `width` columns (at least one).
pub open spec fn wrapped_text(text: Seq<char>, width: nat) -> Seq<Seq<char>> {
    let out = wrap_all(split_on(text, '\n'), width);
    if out.len() == 0 {
        seq![Seq::<char>::empty()]
    } else {
        out
    }
}

/// The views of a vector of strings.
pub open spec fn str_views(v: Seq<String>) -> Seq<Seq<char>> {
    v.map_values(|x: String| x@)
}

pub proof fn lemma_str_views_push(v: Seq<String>, x: String)
    ensures
        str_views(v.push(x)) == str_views(v).push(x@),
{
    assert(str_views(v.push(x)) =~= str_views(v).push(x@));
}

/// Visual row and column of the cursor at byte `cursor`, continuing from character `i`
/// at `(row, col)` with `byte` bytes already passed.
pub open spec fn visual_pos(
    s: Seq<char>,
    width: nat,
    cursor: int,
    i: int,
    row: nat,
    col: nat,
    byte: int,
) -> (nat, nat)
    decreases s.len() - i,
{
    if i < 0 || i >= s.len() || byte >= cursor {
        (row, col)
    } else if s[i] == '\n' {
        visual_pos(s, width, cursor, i + 1, row + 1, 0, byte + 1)
    } else {
        let w = display_width(s[i]);
        let wrap = col > 0 && col + w > width;
        let row1: nat = if wrap {
            row + 1
        } else {
            row
        };
        let col1: nat = if wrap {
            0
        } else {
            col
        };
        let b = byte + char_bytes(s[i]);
        if col1 == 0 && w > width {
            visual_pos(s, width, cursor, i + 1, row1 + 1, 0, b)
        } else if col1 + w == width {
            visual_pos(s, width, cursor, i + 1, row1 + 1, 0, b)
        } else {
            visual_pos(s, width, cursor, i + 1, row1, col1 + w, b)
        }
    }
}

/// Columns `ch` occupies in the editor.
fn char_display_width(ch: char) -> (w: usize)
    ensures
        w == display_width(ch),
        1 <= w <= 255,
{
    if ch == '\t' {
        return 4;
    }
    match unicode_char_width(ch) {
        Some(w) => if w >= 1 {
            w
        } else {
            1
        },
        None => 1,
    }
}

/// Soft-wraps one non-empty logical line, appending its visual lines to `out`.
fn wrap_line_into(line: &Vec<char>, width: usize, out: &mut Vec<String>)
    requires
        width >= 1,
        width <= 65535,
    ensures
        str_views(final(out)@) == str_views(old(out)@) + wrap_from(
            line@,
            width as nat,
            0,
            Seq::empty(),
            0,
        ),
{
    let mut current = String::new();
    let mut current_width: usize = 0;
    let mut i: usize = 0;
    let ghost start = str_views(out@);
    proof {
        assert(str_views(out@) + wrap_from(line@, width as nat, 0, current@, 0) =~= start
            + wrap_from(line@, width as nat, 0, Seq::empty(), 0));
    }
    while i < line.len()
        invariant
            1 <= width <= 65535,
            i <= line@.len(),
            current_width <= width,
            current@.len() == 0 ==> current_width == 0,
            str_views(out@) + wrap_from(line@, width as nat, i as int, current@, current_width as nat)
                == start + wrap_from(line@, width as nat, 0, Seq::empty(), 0),
        decreases line@.len() - i,
    {
        let ch = line[i];
        let ch_width = char_display_width(ch);
        let ghost before_out = str_views(out@);
        let ghost cur0 = current@;
        let ghost cw0 = current_width as nat;
        let mut flushed = false;
        if !current.as_str().is_empty() && current_width + ch_width > width {
            proof {
                lemma_str_views_push(out@, current);
            }
            out.push(current);
            current = String::new();
            current_width = 0;
            flushed = true;
        }
        if current.as_str().is_empty() && ch_width > width {
            let mut single = String::new();
            push_char(&mut single, ch);
            proof {
                lemma_str_views_push(out@, single);
                assert(single@ =~= seq![ch]);
            }
            out.push(single);
            proof {
                let rest = wrap_from(line@, width as nat, i + 1, current@, current_width as nat);
                if flushed {
                    assert(str_views(out@) + rest =~= before_out + (seq![cur0] + seq![seq![ch]]
                        + rest));
                } else {
                    assert(str_views(out@) + rest =~= before_out + (Seq::<Seq<char>>::empty()
                        + seq![seq![ch]] + rest));
                }
            }
            i = i + 1;
            continue;
        }
        push_char(&mut current, ch);
        current_width = current_width + ch_width;
        if current_width == width {
            proof {
                lemma_str_views_push(out@, current);
            }
            out.push(current);
            proof {
                let rest = wrap_from(line@, width as nat, i + 1, Seq::empty(), 0);
                if flushed {
                    assert(str_views(out@) + rest =~= before_out + (seq![cur0] + seq![
                        Seq::<char>::empty().push(ch),
                    ] + rest));
                } else {
                    assert(str_views(out@) + rest =~= before_out + (Seq::<Seq<char>>::empty()
                        + seq![cur0.push(ch)] + rest));
                }
            }
            current = String::new();
            current_width = 0;
        } else {
            proof {
                let rest = wrap_from(line@, width as nat, i + 1, current@, current_width as nat);
                if flushed {
                    assert(current@ =~= Seq::<char>::empty().push(ch));
                    assert(str_views(out@) + rest =~= before_out + (seq![cur0] + rest));
                } else {
                    assert(str_views(out@) + rest =~= before_out + (Seq::<Seq<char>>::empty()
                        + rest));
                }
            }
        }
        i = i + 1;
    }
    if !current.as_str().is_empty() {
        proof {
            lemma_str_views_push(out@, current);
        }
        out.push(current);
        assert(str_views(out@) =~= start + wrap_from(line@, width as nat, 0, Seq::empty(), 0));
    } else {
        assert(str_views(out@) =~= start + wrap_from(line@, width as nat, 0, Seq::empty(), 0));
    }
}

/// Visual lines of `text` soft-wrapped at `inner_width` columns (at least one column).
fn wrapped_lines(text: &str, inner_width: u16) -> (out: Vec<String>)
    ensures
        str_views(out@) == wrapped_text(
            text@,
            if inner_width >= 1 {
                inner_width as nat
            } else {
                1
            },
        ),
{
    let width: usize = if inner_width >= 1 {
        inner_width as usize
    } else {
        1
    };
    let chars = chars_of(text);
    let lines = split_chars(&chars, '\n');
    let ghost all = views(lines@);
    let mut out: Vec<String> = Vec::new();
    let mut j: usize = 0;
    proof {
        assert(all.skip(0) =~= all);
        assert(str_views(out@) =~= Seq::<Seq<char>>::empty());
    }
    while j < lines.len()
        invariant
            1 <= width <= 65535,
            all == views(lines@),
            j <= lines@.len(),
            str_views(out@) + wrap_all(all.skip(j as int), width as nat) == wrap_all(
                all,
                width as nat,
            ),
        decreases lines@.len() - j,
    {
        let ghost r = all.skip(j as int);
        proof {
            assert(r.drop_first() =~= all.skip(j + 1));
            assert(r[0] == lines@[j as int]@);
        }
        let ghost prev = str_views(out@);
        if lines[j].len() == 0 {
            let empty = String::new();
            proof {
                lemma_str_views_push(out@, empty);
            }
            out.push(empty);
            proof {
                assert(prev + wrap_all(r, width as nat) =~= str_views(out@) + wrap_all(
                    all.skip(j + 1),
                    width as nat,
                ));
            }
        } else {
            wrap_line_into(&lines[j], width, &mut out);
            proof {
                assert(prev + wrap_all(r, width as nat) =~= str_views(out@) + wrap_all(
                    all.skip(j + 1),
                    width as nat,
                ));
            }
        }
        j = j + 1;
    }
    proof {
        assert(all.skip(lines@.len() as int) =~= Seq::<Seq<char>>::empty());
        assert(str_views(out@) + wrap_all(Seq::<Seq<char>>::empty(), width as nat) =~= str_views(
            out@,
        ));
    }
    if out.len() == 0 {
        let empty = String::new();
        proof {
            lemma_str_views_push(out@, empty);
        }
        out.push(empty);
    }
    out
}


/// Visual `(row, column)` of byte offset `cursor` when `text` is soft-wrapped at
/// `inner_width` columns.
fn cursor_visual_position(text: &str, cursor: usize, inner_width: u16) -> (p: (usize, usize))
    ensures
        p.0 as nat == visual_pos(text@, editor_width(inner_width), cursor as int, 0, 0, 0, 0).0,
        p.1 as nat == visual_pos(text@, editor_width(inner_width), cursor as int, 0, 0, 0, 0).1,
{
    let width: usize = if inner_width >= 1 {
        inner_width as usize
    } else {
        1
    };
    let n = str_byte_len(text);
    let chars = chars_of(text);
    proof {
        lemma_byte_len_pos(chars@);
    }
    let mut row: usize = 0;
    let mut col: usize = 0;
    let mut byte: usize = 0;
    let mut i: usize = 0;
    let ghost w = width as nat;
    while i < chars.len()
        invariant
            w == width,
            width == editor_width(inner_width),
            1 <= width <= 65535,
            chars@ == text@,
            byte_len(chars@) == n,
            n <= isize::MAX,
            chars@.len() <= n,
            i <= chars@.len(),
            byte == byte_len(chars@.take(i as int)),
            row <= 2 * i,
            col < width,
            visual_pos(chars@, w, cursor as int, 0, 0, 0, 0) == visual_pos(
                chars@,
                w,
                cursor as int,
                i as int,
                row as nat,
                col as nat,
                byte as int,
            ),
        ensures
            i >= chars@.len() || byte >= cursor,
        decreases chars@.len() - i,
    {
        if byte >= cursor {
            break;
        }
        let ch = chars[i];
        proof {
            lemma_byte_len_take_step(chars@, i as int);
            lemma_byte_len_take_le(chars@, i + 1);
        }
        if ch == '\n' {
            row = row + 1;
            col = 0;
            byte = byte + 1;
            i = i + 1;
            continue;
        }
        let ch_width = char_display_width(ch);
        if col > 0 && col + ch_width > width {
            row = row + 1;
            col = 0;
        }
        if col == 0 && ch_width > width {
            row = row + 1;
            col = 0;
            byte = byte + char_len_utf8(ch);
            i = i + 1;
            continue;
        }
        col = col + ch_width;
        byte = byte + char_len_utf8(ch);
        if col == width {
            row = row + 1;
            col = 0;
        }
        i = i + 1;
    }
    (row, col)
}

/// Columns available to the editor text: the inner width, but at least one.
pub open spec fn editor_width(inner_width: u16) -> nat {
    if inner_width >= 1 {
        inner_width as nat
    } else {
        1
    }
}

/// Character index of the start of the word before character `k`.
fn word_left_index(chars: &Vec<char>, k: usize) -> (p: usize)
    requires
        k <= chars@.len(),
    ensures
        p == word_left(chars@, k as int),
        p <= k,
{
    let mut pos = k;
    while pos > 0 && is_ascii_whitespace(chars[pos - 1])
        invariant
            pos <= k <= chars@.len(),
            back_while(chars@, k as int, true) == back_while(chars@, pos as int, true),
        decreases pos,
    {
        pos = pos - 1;
    }
    let mid = pos;
    while pos > 0 && !is_ascii_whitespace(chars[pos - 1])
        invariant
            pos <= mid <= k <= chars@.len(),
            mid == back_while(chars@, k as int, true),
            back_while(chars@, mid as int, false) == back_while(chars@, pos as int, false),
        decreases pos,
    {
        pos = pos - 1;
    }
    pos
}

/// True when every character of `v` is whitespace.
fn all_whitespace(v: &Vec<char>) -> (r: bool)
    ensures
        r == all_ws(v@),
{
    let mut i: usize = 0;
    while i < v.len()
        invariant
            i <= v@.len(),
            forall|j: int| 0 <= j < i ==> is_ws(#[trigger] v@[j]),
        decreases v@.len() - i,
    {
        if !is_whitespace(v[i]) {
            return false;
        }
        i = i + 1;
    }
    true
}

/// Deleting backward right after typing a character gives back the text and the cursor
/// position as they were: `t` is `s` after `insert_char(c)`, `u` is `t` after
/// `delete_back`.
pub proof fn law_delete_back_undoes_insert(s: EditorState, c: char, t: EditorState, u: EditorState)
    requires
        s.wf(),
        t.at(s.before() + seq![c] + s.after(), s.cursor_index() + 1),
        t.cursor > 0 ==> u.at(t.before().drop_last() + t.after(), t.cursor_index() - 1),
        t.cursor == 0 ==> u == t,
    ensures
        u.content@ == s.content@,
        u.cursor == s.cursor,
{
    let text = s.before() + seq![c] + s.after();
    let i = s.cursor_index();
    lemma_boundary_index(s.content@, s.cursor as int);
    assert(s.before().len() == i);
    assert(text.take(i + 1) =~= s.before().push(c));
    assert(text.skip(i + 1) =~= s.after());
    lemma_byte_len_push(s.before(), c);
    assert(t.cursor > 0) by {
        lemma_byte_len_single(c);
        assert(char_bytes(c) >= 1);
    }
    assert(t.before().drop_last() =~= s.before());
    assert(s.before() + s.after() =~= s.content@);
    assert((s.before() + s.after()).take(i) =~= s.before());
}

/// Moving right and then left returns the cursor to where it was, away from the end.
pub proof fn law_move_left_undoes_move_right(s: EditorState, t: EditorState, u: EditorState)
    requires
        s.wf(),
        s.cursor_index() < s.content@.len(),
        t.at(s.content@, s.cursor_index() + 1),
        t.cursor > 0 ==> u.at(t.content@, t.cursor_index() - 1),
        t.cursor == 0 ==> u == t,
    ensures
        u.content@ == s.content@,
        u.cursor == s.cursor,
{
    let i = s.cursor_index();
    lemma_boundary_index(s.content@, s.cursor as int);
    lemma_byte_len_take_step(s.content@, i);
    assert(s.content@.take(i + 1) =~= s.content@.take(i).push(s.content@[i]));
    lemma_byte_len_push(s.content@.take(i), s.content@[i]);
    lemma_byte_len_single(s.content@[i]);
}

} // verus!
