//! The session tree navigator: flattened nodes, a filter, and a selection.

use vstd::prelude::*;
use crate::text::{
    byte_len, byte_offset_of, char_index_at, chars_of, is_boundary, lemma_boundary_index,
    push_str, str_byte_len, str_eq, str_prefix,
};

verus! {

/// A flattened tree node for display.
#[derive(Debug, Clone)]
pub struct FlatTreeNode {
    pub id: String,
    pub depth: usize,
    pub summary: String,
    pub is_user: bool,
    pub is_tool: bool,
    pub has_children: bool,
    pub is_last_child: bool,
}

/// Filter mode for the tree view.
#[derive(Debug, Clone, Copy, PartialEq, Eq, Structural)]
pub enum TreeFilterMode {
    All,
    NoTools,
    UserOnly,
}

impl TreeFilterMode {
    /// The mode after this one in the cycle all → no-tools → user-only → all.
    pub open spec fn spec_next(self) -> Self {
        match self {
            TreeFilterMode::All => TreeFilterMode::NoTools,
            TreeFilterMode::NoTools => TreeFilterMode::UserOnly,
            TreeFilterMode::UserOnly => TreeFilterMode::All,
        }
    }

    pub fn next(self) -> (m: Self)
        ensures
            m == self.spec_next(),
    {
        match self {
            TreeFilterMode::All => TreeFilterMode::NoTools,
            TreeFilterMode::NoTools => TreeFilterMode::UserOnly,
            TreeFilterMode::UserOnly => TreeFilterMode::All,
        }
    }

    pub fn label(self) -> (l: &'static str)
        ensures
            l@ == match self {
                TreeFilterMode::All => "all"@,
                TreeFilterMode::NoTools => "no-tools"@,
                TreeFilterMode::UserOnly => "user-only"@,
            },
    {
        match self {
            TreeFilterMode::All => "all",
            TreeFilterMode::NoTools => "no-tools",
            TreeFilterMode::UserOnly => "user-only",
        }
    }
}

/// A node passes the filter.
pub open spec fn keeps(mode: TreeFilterMode, n: FlatTreeNode) -> bool {
    match mode {
        TreeFilterMode::All => true,
        TreeFilterMode::NoTools => !n.is_tool,
        TreeFilterMode::UserOnly => n.is_user,
    }
}

/// The nodes that pass the filter, in order.
pub open spec fn kept(nodes: Seq<FlatTreeNode>, mode: TreeFilterMode) -> Seq<FlatTreeNode>
    decreases nodes.len(),
{
    if nodes.len() == 0 {
        seq![]
    } else if keeps(mode, nodes.last()) {
        kept(nodes.drop_last(), mode).push(nodes.last())
    } else {
        kept(nodes.drop_last(), mode)
    }
}

/// Index of the first node with id `id`, if any.
pub open spec fn position_of(nodes: Seq<FlatTreeNode>, id: Seq<char>) -> Option<int>
    decreases nodes.len(),
{
    if nodes.len() == 0 {
        None
    } else if nodes[0].id@ == id {
        Some(0)
    } else {
        match position_of(nodes.drop_first(), id) {
            Some(i) => Some(i + 1),
            None => None,
        }
    }
}

/// State for the tree view overlay.
#[derive(Debug, Clone)]
pub struct TreeViewState {
    pub nodes: Vec<FlatTreeNode>,
    pub selected: usize,
    pub filter_mode: TreeFilterMode,
    pub current_id: Option<String>,
}

impl TreeViewState {
    /// The nodes shown under the current filter.
    pub open spec fn shown(&self) -> Seq<FlatTreeNode> {
        kept(self.nodes@, self.filter_mode)
    }

    /// Opens the tree with the current node selected (the first node when it is absent).
    pub fn new(nodes: Vec<FlatTreeNode>, current_id: Option<String>) -> (s: Self)
        ensures
            s.nodes@ == nodes@,
            s.filter_mode == TreeFilterMode::All,
            s.current_id == current_id,
            s.selected == match current_id {
                Some(id) => match position_of(nodes@, id@) {
                    Some(i) => i,
                    None => 0,
                },
                None => 0,
            },
    {
        let mut selected: usize = 0;
        match &current_id {
            Some(id) => {
                let mut i: usize = 0;
                let mut found = false;
                let ghost target = id@;
                assert(nodes@.skip(0) =~= nodes@);
                while i < nodes.len() && !found
                    invariant
                        target == id@,
                        i <= nodes@.len(),
                        found ==> position_of(nodes@, target) == Some(selected as int),
                        !found ==> position_of(nodes@, target) == match position_of(
                            nodes@.skip(i as int),
                            target,
                        ) {
                            Some(j) => Some(j + i),
                            None => None,
                        },
                        !found ==> selected == 0,
                    decreases nodes@.len() - i + (if found {
                        0int
                    } else {
                        1int
                    }),
                {
                    proof {
                        assert(nodes@.skip(i as int).drop_first() =~= nodes@.skip(i + 1));
                        assert(nodes@.skip(i as int)[0] == nodes@[i as int]);
                    }
                    if str_eq(nodes[i].id.as_str(), id.as_str()) {
                        selected = i;
                        found = true;
                    } else {
                        i = i + 1;
                    }
                }
                proof {
                    if !found {
                        assert(nodes@.skip(i as int).len() == 0);
                    }
                }
            },
            None => {},
        }
        TreeViewState { nodes, selected, filter_mode: TreeFilterMode::All, current_id }
    }

    pub fn move_up(&mut self)
        ensures
            final(self).nodes@ == old(self).nodes@,
            final(self).filter_mode == old(self).filter_mode,
            final(self).current_id == old(self).current_id,
            final(self).selected == if old(self).selected > 0 {
                old(self).selected - 1
            } else {
                0
            },
    {
        if self.selected > 0 {
            self.selected = self.selected - 1;
        }
    }

    pub fn move_down(&mut self)
        ensures
            final(self).nodes@ == old(self).nodes@,
            final(self).filter_mode == old(self).filter_mode,
            final(self).current_id == old(self).current_id,
            final(self).selected == if old(self).selected + 1 < old(self).shown().len() {
                old(self).selected + 1
            } else {
                old(self).selected as int
            },
    {
        let count = self.filtered_nodes().len();
        if self.selected < count && self.selected + 1 < count {
            self.selected = self.selected + 1;
        }
    }

    /// Id of the highlighted node among those shown.
    pub fn selected_id(&self) -> (r: Option<&str>)
        ensures
            r matches Some(id) ==> self.selected < self.shown().len() && id@ == self.shown()[
                self.selected as int
            ].id@,
            r is None ==> self.selected >= self.shown().len(),
    {
        let filtered = self.filtered_nodes();
        if self.selected < filtered.len() {
            Some(filtered[self.selected].id.as_str())
        } else {
            None
        }
    }

    /// Switches to the next filter, keeping the selection on a shown node.
    pub fn cycle_filter(&mut self)
        ensures
            final(self).nodes@ == old(self).nodes@,
            final(self).current_id == old(self).current_id,
            final(self).filter_mode == old(self).filter_mode.spec_next(),
            final(self).selected == if old(self).selected < (if final(self).shown().len() > 0 {
                final(self).shown().len() - 1
            } else {
                0
            }) {
                old(self).selected as int
            } else if final(self).shown().len() > 0 {
                final(self).shown().len() - 1
            } else {
                0
            },
    {
        self.filter_mode = self.filter_mode.next();
        let n = self.filtered_nodes().len();
        let last = if n > 0 {
            n - 1
        } else {
            0
        };
        if self.selected > last {
            self.selected = last;
        }
    }

    /// The nodes shown under the current filter.
    pub fn filtered_nodes(&self) -> (r: Vec<&FlatTreeNode>)
        ensures
            r@.map_values(|n: &FlatTreeNode| *n) == self.shown(),
    {
        let mut out: Vec<&FlatTreeNode> = Vec::new();
        let mut i: usize = 0;
        while i < self.nodes.len()
            invariant
                i <= self.nodes@.len(),
                out@.map_values(|n: &FlatTreeNode| *n) == kept(
                    self.nodes@.take(i as int),
                    self.filter_mode,
                ),
            decreases self.nodes@.len() - i,
        {
            let n = &self.nodes[i];
            let keep = match self.filter_mode {
                TreeFilterMode::All => true,
                TreeFilterMode::NoTools => !n.is_tool,
                TreeFilterMode::UserOnly => n.is_user,
            };
            proof {
                assert(self.nodes@.take(i + 1).drop_last() =~= self.nodes@.take(i as int));
            }
            if keep {
                assert(out@.push(n).map_values(|n: &FlatTreeNode| *n) =~= out@.map_values(
                    |n: &FlatTreeNode| *n,
                ).push(*n));
                out.push(n);
            }
            i = i + 1;
        }
        assert(self.nodes@.take(self.nodes@.len() as int) =~= self.nodes@);
        out
    }
}

/// `s` when it fits in `max` bytes, otherwise its first `max - 1` bytes and an ellipsis.
pub open spec fn tree_truncate_spec(s: Seq<char>, max: usize) -> Seq<char> {
    if byte_len(s) <= max {
        s
    } else {
        let cut: int = if max >= 1 {
            max - 1
        } else {
            0
        };
        s.take(char_index_at(s, cut) as int) + "…"@
    }
}

/// Byte-limited truncation with an ellipsis; the cut must fall on a character boundary.
pub fn truncate(s: &str, max: usize) -> (r: String)
    requires
        byte_len(s@) > max ==> is_boundary(s@, if max >= 1 {
            max - 1
        } else {
            0
        }),
    ensures
        r@ == tree_truncate_spec(s@, max),
{
    let n = str_byte_len(s);
    if n <= max {
        return s.to_owned();
    }
    let cut = if max >= 1 {
        max - 1
    } else {
        0
    };
    let mut out = str_prefix(s, cut).to_owned();
    push_str(&mut out, "…");
    out
}

// ── Flattening the session tree ─────────────────────────────────

/// A content block of a session message, as far as the tree reads it.
#[derive(Debug, Clone)]
pub enum TreeBlock {
    Text(String),
    Other,
}

/// A session entry, as far as the tree reads it.
#[derive(Debug, Clone)]
pub enum TreeEntry {
    Message { id: String, content: Vec<TreeBlock>, is_user: bool, is_tool: bool },
    Compaction { id: String, summary: String },
    /// Any other entry: neither it nor anything below it is listed.
    Other,
}

/// A node of the session tree: an entry and the entries that branch off after it.
#[derive(Debug)]
pub struct SessionTreeNode {
    pub entry: TreeEntry,
    pub children: Vec<SessionTreeNode>,
}

/// The text of the first text block, or nothing when there is none.
pub open spec fn first_text(blocks: Seq<TreeBlock>) -> Seq<char>
    decreases blocks.len(),
{
    if blocks.len() == 0 {
        Seq::empty()
    } else {
        match blocks[0] {
            TreeBlock::Text(t) => t@,
            TreeBlock::Other => first_text(blocks.drop_first()),
        }
    }
}

/// The summary of a message with text `text`: the text, or its first 57 bytes and an
/// ellipsis when it is longer than 60 bytes.
pub open spec fn message_summary(text: Seq<char>) -> Seq<char> {
    if byte_len(text) > 60 {
        text.take(char_index_at(text, 57) as int) + "…"@
    } else {
        text
    }
}

/// The summary of a compaction entry.
pub open spec fn compaction_summary(summary: Seq<char>) -> Seq<char> {
    "[compaction: "@ + tree_truncate_spec(summary, 40) + "]"@
}

/// The fields of a flattened node as plain values.
pub open spec fn flat_view(n: FlatTreeNode) -> (Seq<char>, int, Seq<char>, bool, bool, bool, bool) {
    (n.id@, n.depth as int, n.summary@, n.is_user, n.is_tool, n.has_children, n.is_last_child)
}

pub open spec fn flat_views(v: Seq<FlatTreeNode>) -> Seq<(Seq<char>, int, Seq<char>, bool, bool, bool, bool)> {
    v.map_values(|n: FlatTreeNode| flat_view(n))
}

/// The listing of the first `n` nodes of `tree`, at `depth`: each shown node followed by
/// the listing of its children one level deeper.
pub open spec fn flat_upto(tree: Seq<SessionTreeNode>, depth: int, n: int) -> Seq<
    (Seq<char>, int, Seq<char>, bool, bool, bool, bool),
>
    decreases tree, n,
{
    if n <= 0 || n > tree.len() {
        Seq::empty()
    } else {
        flat_upto(tree, depth, n - 1) + flat_node(tree[n - 1], depth, n == tree.len())
    }
}

/// The listing of one node at `depth`; `last` tells whether it is the last of its siblings.
pub open spec fn flat_node(node: SessionTreeNode, depth: int, last: bool) -> Seq<
    (Seq<char>, int, Seq<char>, bool, bool, bool, bool),
>
    decreases node, 0int,
{
    let kids = node.children@;
    let has_children = kids.len() > 0;
    match node.entry {
        TreeEntry::Message { id, content, is_user, is_tool } => seq![
            (id@, depth, message_summary(first_text(content@)), is_user, is_tool, has_children, last),
        ] + flat_upto(kids, depth + 1, kids.len() as int),
        TreeEntry::Compaction { id, summary } => seq![
            (id@, depth, compaction_summary(summary@), false, false, has_children, last),
        ] + flat_upto(kids, depth + 1, kids.len() as int),
        TreeEntry::Other => Seq::empty(),
    }
}

/// The first `n` nodes of `tree` can be listed at `depth` without a panic: every cut of
/// a summary falls on a character boundary, and no depth passes `usize::MAX`.
pub open spec fn flattenable(tree: Seq<SessionTreeNode>, depth: int, n: int) -> bool
    decreases tree, n,
{
    if n <= 0 || n > tree.len() {
        true
    } else {
        flattenable(tree, depth, n - 1) && node_flattenable(tree[n - 1], depth)
    }
}

/// One node can be listed at `depth` without a panic.
pub open spec fn node_flattenable(node: SessionTreeNode, depth: int) -> bool
    decreases node, 0int,
{
    let kids = node.children@;
    match node.entry {
        TreeEntry::Message { content, .. } => {
            &&& byte_len(first_text(content@)) > 60 ==> is_boundary(first_text(content@), 57)
            &&& depth + 1 <= usize::MAX
            &&& flattenable(kids, depth + 1, kids.len() as int)
        },
        TreeEntry::Compaction { summary, .. } => {
            &&& byte_len(summary@) > 40 ==> is_boundary(summary@, 39)
            &&& depth + 1 <= usize::MAX
            &&& flattenable(kids, depth + 1, kids.len() as int)
        },
        TreeEntry::Other => true,
    }
}

proof fn lemma_flattenable_node(tree: Seq<SessionTreeNode>, depth: int, n: int, i: int)
    requires
        flattenable(tree, depth, n),
        0 <= i < n <= tree.len(),
    ensures
        node_flattenable(tree[i], depth),
    decreases n,
{
    if i < n - 1 {
        lemma_flattenable_node(tree, depth, n - 1, i);
    }
}

/// The text of the first text block of a message (empty when there is none).
fn extract_text(content: &Vec<TreeBlock>) -> (r: String)
    ensures
        r@ == first_text(content@),
{
    let mut i: usize = 0;
    assert(content@.skip(0) =~= content@);
    while i < content.len()
        invariant
            i <= content@.len(),
            first_text(content@) == first_text(content@.skip(i as int)),
        decreases content@.len() - i,
    {
        match &content[i] {
            TreeBlock::Text(t) => {
                return t.clone();
            },
            TreeBlock::Other => {},
        }
        assert(content@.skip(i as int).drop_first() =~= content@.skip(i + 1));
        i = i + 1;
    }
    String::new()
}

/// Flattens a session tree into displayable nodes, depth first, from `depth` on.
pub fn flatten_tree(tree: &[SessionTreeNode], depth: usize) -> (r: Vec<FlatTreeNode>)
    requires
        flattenable(tree@, depth as int, tree@.len() as int),
    ensures
        flat_views(r@) == flat_upto(tree@, depth as int, tree@.len() as int),
    decreases tree@,
{
    let mut result: Vec<FlatTreeNode> = Vec::new();
    let len = tree.len();
    let mut i: usize = 0;
    while i < len
        invariant
            len == tree@.len(),
            i <= len,
            flattenable(tree@, depth as int, len as int),
            flat_views(result@) == flat_upto(tree@, depth as int, i as int),
        decreases len - i,
    {
        let node = &tree[i];
        proof {
            lemma_flattenable_node(tree@, depth as int, len as int, i as int);
        }
        let last = i == len - 1;
        let has_children = node.children.len() > 0;
        let ghost before = result@;
        match &node.entry {
            TreeEntry::Message { id, content, is_user, is_tool } => {
                let text = extract_text(content);
                let summary = if str_byte_len(text.as_str()) > 60 {
                    let mut s = str_prefix(text.as_str(), 57).to_owned();
                    push_str(&mut s, "…");
                    s
                } else {
                    text
                };
                result.push(
                    FlatTreeNode {
                        id: id.clone(),
                        depth,
                        summary,
                        is_user: *is_user,
                        is_tool: *is_tool,
                        has_children,
                        is_last_child: last,
                    },
                );
                proof {
                    assert(decreases_to!(tree@ => tree@[i as int]));
                    assert(decreases_to!(tree@[i as int] => tree@[i as int].children));
                }
                let mut below = flatten_tree(node.children.as_slice(), depth + 1);
                let ghost mid = result@;
                let ghost b = below@;
                result.append(&mut below);
                proof {
                    assert(flat_views(result@) =~= flat_views(before) + flat_views(mid.subrange(before.len() as int, mid.len() as int)) + flat_views(b));
                }
            },
            TreeEntry::Compaction { id, summary } => {
                let mut text = "[compaction: ".to_owned();
                let cut = truncate(summary.as_str(), 40);
                push_str(&mut text, cut.as_str());
                push_str(&mut text, "]");
                result.push(
                    FlatTreeNode {
                        id: id.clone(),
                        depth,
                        summary: text,
                        is_user: false,
                        is_tool: false,
                        has_children,
                        is_last_child: last,
                    },
                );
                proof {
                    assert(decreases_to!(tree@ => tree@[i as int]));
                    assert(decreases_to!(tree@[i as int] => tree@[i as int].children));
                }
                let mut below = flatten_tree(node.children.as_slice(), depth + 1);
                let ghost mid = result@;
                let ghost b = below@;
                result.append(&mut below);
                proof {
                    assert(flat_views(result@) =~= flat_views(before) + flat_views(mid.subrange(before.len() as int, mid.len() as int)) + flat_views(b));
                }
            },
            TreeEntry::Other => {},
        }
        proof {
            assert(flat_upto(tree@, depth as int, i + 1) == flat_upto(tree@, depth as int, i as int)
                + flat_node(tree@[i as int], depth as int, i + 1 == len));
        }
        i = i + 1;
    }
    result
}

} // verus!
