//! The layout of terminal panes: a tree of splits with the panes as its leaves.
//!
//! A split divides its area between two children, by a ratio that says how much the first child (the
//! left or the upper one) gets. Splitting a pane puts a split in its place, whose children are the
//! pane and a new one. One pane has the focus.

use vstd::prelude::*;
use crate::mux::command::MuxPaneSplitDirection;
use crate::text::{same_text, texts};

verus! {

pub type PaneId = String;

/// Where a new pane opens.
#[derive(Clone, Copy, Debug, PartialEq, Eq, Structural)]
pub enum SplitDirection {
    /// To the right: the children sit side by side.
    Right,
    /// Below: the children are stacked.
    Down,
}

/// Where the focus moves.
#[derive(Clone, Copy, Debug, PartialEq, Eq, Structural)]
pub enum Direction {
    Left,
    Right,
    Up,
    Down,
}

/// How much of its area a split gives to its first child.
#[derive(Clone, Copy, Debug, PartialEq, Eq, Structural)]
pub enum Ratio {
    /// So many thousandths.
    Thousandths(u16),
    /// The number that has these bits as a single-precision float.
    Float(u32),
}

/// The smallest ratio that a multiplexer can set, in thousandths.
pub const MIN_RATIO: u16 = 50;

/// The largest ratio that a multiplexer can set, in thousandths.
pub const MAX_RATIO: u16 = 950;

/// The ratio of a new split, in thousandths.
pub const EVEN_RATIO: u16 = 500;

/// The layout of a window, as a multiplexer describes it.
#[derive(Debug)]
pub enum MuxPaneLayout {
    Pane(PaneId),
    Split {
        direction: MuxPaneSplitDirection,
        ratio_millis: u16,
        first: Box<MuxPaneLayout>,
        second: Box<MuxPaneLayout>,
    },
}

/// A part of a layout.
#[derive(Debug)]
pub enum Node {
    Leaf(PaneId),
    Split { direction: SplitDirection, ratio: Ratio, first: Box<Node>, second: Box<Node> },
}

/// A layout, and the pane that has the focus.
#[derive(Debug)]
pub struct PaneLayout {
    pub root: Node,
    pub focused: PaneId,
}

/// A part of a layout, with the panes as sequences.
pub enum Tree {
    Leaf(Seq<char>),
    Split { direction: SplitDirection, ratio: Ratio, first: Box<Tree>, second: Box<Tree> },
}

/// A layout, with the panes as sequences.
pub struct LayoutView {
    pub root: Tree,
    pub focused: Seq<char>,
}

impl Node {
    /// The tree that a node shows.
    pub open spec fn tree(self) -> Tree
        decreases self,
    {
        match self {
            Node::Leaf(id) => Tree::Leaf(id@),
            Node::Split { direction, ratio, first, second } => Tree::Split {
                direction,
                ratio,
                first: Box::new(first.tree()),
                second: Box::new(second.tree()),
            },
        }
    }
}

impl View for PaneLayout {
    type V = LayoutView;

    open spec fn view(&self) -> LayoutView {
        LayoutView { root: self.root.tree(), focused: self.focused@ }
    }
}

/// The panes of a tree, from left to right and from top to bottom.
pub open spec fn leaves(tree: Tree) -> Seq<Seq<char>>
    decreases tree,
{
    match tree {
        Tree::Leaf(id) => seq![id],
        Tree::Split { direction: _, ratio: _, first, second } => leaves(*first) + leaves(*second),
    }
}

/// Whether a pane is in a tree.
pub open spec fn holds(tree: Tree, pane: Seq<char>) -> bool
    decreases tree,
{
    match tree {
        Tree::Leaf(id) => id == pane,
        Tree::Split { direction: _, ratio: _, first, second } => holds(*first, pane) || holds(
            *second,
            pane,
        ),
    }
}

/// The tree with a pane split in two: the pane, and a new one beside it. Where the pane occurs more
/// than once, its first occurrence is split.
pub open spec fn split_at(
    tree: Tree,
    target: Seq<char>,
    new_pane: Seq<char>,
    direction: SplitDirection,
) -> Tree
    decreases tree,
{
    match tree {
        Tree::Leaf(id) => if id == target {
            Tree::Split {
                direction,
                ratio: Ratio::Thousandths(EVEN_RATIO),
                first: Box::new(tree),
                second: Box::new(Tree::Leaf(new_pane)),
            }
        } else {
            tree
        },
        Tree::Split { direction: d, ratio, first, second } => if holds(*first, target) {
            Tree::Split {
                direction: d,
                ratio,
                first: Box::new(split_at(*first, target, new_pane, direction)),
                second,
            }
        } else {
            Tree::Split {
                direction: d,
                ratio,
                first,
                second: Box::new(split_at(*second, target, new_pane, direction)),
            }
        },
    }
}

/// The tree without a pane: the pane's neighbour takes the place of their split. Nothing is left
/// where the pane is the whole tree. Where the pane occurs more than once, its first occurrence goes.
pub open spec fn without(tree: Tree, pane: Seq<char>) -> Option<Tree>
    decreases tree,
{
    match tree {
        Tree::Leaf(id) => if id == pane {
            None
        } else {
            Some(tree)
        },
        Tree::Split { direction, ratio, first, second } => if holds(*first, pane) {
            match without(*first, pane) {
                None => Some(*second),
                Some(left) => Some(
                    Tree::Split { direction, ratio, first: Box::new(left), second },
                ),
            }
        } else {
            match without(*second, pane) {
                None => Some(*first),
                Some(left) => Some(
                    Tree::Split { direction, ratio, first, second: Box::new(left) },
                ),
            }
        },
    }
}

/// What takes the place of the split that a pane is taken out of: the part beside the pane.
pub open spec fn beside(tree: Tree, pane: Seq<char>) -> Tree
    decreases tree,
{
    match tree {
        Tree::Leaf(_) => tree,
        Tree::Split { direction: _, ratio: _, first, second } => if holds(*first, pane) {
            if without(*first, pane) is None {
                *second
            } else {
                beside(*first, pane)
            }
        } else if without(*second, pane) is None {
            *first
        } else {
            beside(*second, pane)
        },
    }
}

/// The tree with another ratio at the split that a path leads to. A path steps to the first child by
/// zero, and to the second by any other number. Where it leads to no split, nothing changes.
pub open spec fn with_ratio(tree: Tree, path: Seq<u8>, new_ratio: Ratio) -> Tree
    decreases tree,
{
    match tree {
        Tree::Leaf(_) => tree,
        Tree::Split { direction, ratio, first, second } => if path.len() == 0 {
            Tree::Split { direction, ratio: new_ratio, first, second }
        } else if path[0] == 0 {
            Tree::Split {
                direction,
                ratio,
                first: Box::new(with_ratio(*first, path.drop_first(), new_ratio)),
                second,
            }
        } else {
            Tree::Split {
                direction,
                ratio,
                first,
                second: Box::new(with_ratio(*second, path.drop_first(), new_ratio)),
            }
        },
    }
}

/// The size of a pane in cells: the first that is listed for it.
pub open spec fn size_of(sizes: Seq<(PaneId, (u16, u16))>, pane: Seq<char>) -> Option<(u16, u16)>
    decreases sizes.len(),
{
    if sizes.len() == 0 {
        None
    } else if sizes[0].0@ == pane {
        Some(sizes[0].1)
    } else {
        size_of(sizes.drop_first(), pane)
    }
}

/// A size, or the largest one where it is larger.
pub open spec fn cells(n: int) -> u16 {
    if n <= u16::MAX {
        n as u16
    } else {
        u16::MAX
    }
}

/// The larger of two sizes.
pub open spec fn larger(a: u16, b: u16) -> u16 {
    if a >= b {
        a
    } else {
        b
    }
}

/// The size of a window that holds panes of the given sizes, with one cell between neighbours.
pub open spec fn window_size(tree: Tree, sizes: Seq<(PaneId, (u16, u16))>) -> Option<(u16, u16)>
    decreases tree,
{
    match tree {
        Tree::Leaf(id) => size_of(sizes, id),
        Tree::Split { direction, ratio: _, first, second } => match (
            window_size(*first, sizes),
            window_size(*second, sizes),
        ) {
            (Some((c1, r1)), Some((c2, r2))) => Some(
                match direction {
                    SplitDirection::Right => (cells(c1 + c2 + 1), larger(r1, r2)),
                    SplitDirection::Down => (larger(c1, c2), cells(r1 + r2 + 1)),
                },
            ),
            _ => None,
        },
    }
}

/// The paths to the splits of a tree, each before those below it, behind a path that leads to the
/// tree.
pub open spec fn split_paths(tree: Tree, path: Seq<u8>) -> Seq<(Seq<u8>, SplitDirection)>
    decreases tree,
{
    match tree {
        Tree::Leaf(_) => Seq::empty(),
        Tree::Split { direction, ratio: _, first, second } => seq![(path, direction)]
            + split_paths(*first, path.push(0)) + split_paths(*second, path.push(1)),
    }
}

/// The tree that a multiplexer describes. Ratios are kept away from the edges.
pub open spec fn mux_tree(layout: MuxPaneLayout) -> Tree
    decreases layout,
{
    match layout {
        MuxPaneLayout::Pane(id) => Tree::Leaf(id@),
        MuxPaneLayout::Split { direction, ratio_millis, first, second } => Tree::Split {
            direction: match direction {
                MuxPaneSplitDirection::Right => SplitDirection::Right,
                MuxPaneSplitDirection::Down => SplitDirection::Down,
            },
            ratio: Ratio::Thousandths(
                if ratio_millis < MIN_RATIO {
                    MIN_RATIO
                } else if ratio_millis > MAX_RATIO {
                    MAX_RATIO
                } else {
                    ratio_millis
                },
            ),
            first: Box::new(mux_tree(*first)),
            second: Box::new(mux_tree(*second)),
        },
    }
}

/// The first pane of a tree.
pub open spec fn first_of(tree: Tree) -> Seq<char> {
    leaves(tree)[0]
}

impl LayoutView {
    /// The pane with the focus is in the layout.
    pub open spec fn wf(self) -> bool {
        holds(self.root, self.focused)
    }

    /// The layout with the focused pane split. The new pane has the focus.
    pub open spec fn split(self, new_pane: Seq<char>, direction: SplitDirection) -> LayoutView {
        LayoutView {
            root: split_at(self.root, self.focused, new_pane, direction),
            focused: new_pane,
        }
    }

    /// Whether a pane can be taken out: it is there, and it is not the only one.
    pub open spec fn removable(self, pane: Seq<char>) -> bool {
        holds(self.root, pane) && without(self.root, pane) is Some
    }

    /// The layout without a pane. Where the pane had the focus, it moves to the first pane of the part
    /// that takes the place of the split.
    pub open spec fn removed(self, pane: Seq<char>) -> LayoutView {
        if self.removable(pane) {
            let root = without(self.root, pane).unwrap();
            LayoutView {
                root,
                focused: if holds(root, self.focused) {
                    self.focused
                } else {
                    first_of(beside(self.root, pane))
                },
            }
        } else {
            self
        }
    }

    /// The layout without those of the listed panes that are gone.
    pub open spec fn dropped(self, listed: Seq<Seq<char>>, ids: Seq<Seq<char>>) -> LayoutView
        decreases listed.len(),
    {
        if listed.len() == 0 {
            self
        } else {
            let before = self.dropped(listed.drop_last(), ids);
            if ids.contains(listed.last()) {
                before
            } else {
                before.removed(listed.last())
            }
        }
    }

    /// The layout with the panes that it lacks, each split off the focused one.
    pub open spec fn adopted(self, ids: Seq<Seq<char>>, direction: SplitDirection) -> LayoutView
        decreases ids.len(),
    {
        if ids.len() == 0 {
            self
        } else {
            let before = self.adopted(ids.drop_last(), direction);
            if holds(before.root, ids.last()) {
                before
            } else {
                before.split(ids.last(), direction)
            }
        }
    }

    /// The layout without its panes that are gone. Where all are, one stays.
    pub open spec fn without_gone(self, ids: Seq<Seq<char>>) -> LayoutView {
        self.dropped(leaves(self.root), ids)
    }

    /// The layout brought in line with a list of panes. Where all its panes are gone, the one that
    /// stayed gives way once there are new ones.
    pub open spec fn reconciled(self, ids: Seq<Seq<char>>, direction: SplitDirection) -> LayoutView {
        self.without_gone(ids).adopted(ids, direction).without_gone(ids)
    }
}

proof fn leaves_not_empty(tree: Tree)
    ensures
        leaves(tree).len() > 0,
    decreases tree,
{
    match tree {
        Tree::Leaf(_) => {},
        Tree::Split { direction: _, ratio: _, first, second } => {
            leaves_not_empty(*first);
            leaves_not_empty(*second);
        },
    }
}

/// A pane is in a tree where it is one of its leaves.
pub proof fn held_are_leaves(tree: Tree, pane: Seq<char>)
    ensures
        holds(tree, pane) <==> leaves(tree).contains(pane),
    decreases tree,
{
    match tree {
        Tree::Leaf(id) => {
            assert(seq![id][0] == id);
        },
        Tree::Split { direction: _, ratio: _, first, second } => {
            held_are_leaves(*first, pane);
            held_are_leaves(*second, pane);
            let a = leaves(*first);
            let b = leaves(*second);
            if a.contains(pane) {
                let i = choose|i: int| 0 <= i < a.len() && a[i] == pane;
                assert((a + b)[i] == pane);
            }
            if b.contains(pane) {
                let i = choose|i: int| 0 <= i < b.len() && b[i] == pane;
                assert((a + b)[a.len() + i] == pane);
            }
            if (a + b).contains(pane) {
                let i = choose|i: int| 0 <= i < (a + b).len() && (a + b)[i] == pane;
                if i < a.len() {
                    assert(a[i] == pane);
                } else {
                    assert(b[i - a.len()] == pane);
                }
            }
        },
    }
}

impl Node {
    /// A node like this one.
    pub fn copy(&self) -> (out: Node)
        ensures
            out.tree() == self.tree(),
        decreases self,
    {
        match self {
            Node::Leaf(id) => Node::Leaf(id.clone()),
            Node::Split { direction, ratio, first, second } => Node::Split {
                direction: *direction,
                ratio: *ratio,
                first: Box::new(first.copy()),
                second: Box::new(second.copy()),
            },
        }
    }

    /// Whether a pane is in this part.
    pub fn node_contains(&self, pane: &str) -> (out: bool)
        ensures
            out == holds(self.tree(), pane@),
        decreases self,
    {
        match self {
            Node::Leaf(id) => same_text(id, pane),
            Node::Split { direction: _, ratio: _, first, second } => first.node_contains(pane)
                || second.node_contains(pane),
        }
    }

    fn collect_leaves(&self, out: &mut Vec<PaneId>)
        ensures
            texts(final(out)@) == texts(old(out)@) + leaves(self.tree()),
        decreases self,
    {
        let ghost before = texts(out@);
        match self {
            Node::Leaf(id) => {
                let ghost listed = out@;
                out.push(id.clone());
                assert(texts(out@) =~= texts(listed) + seq![id@]);
            },
            Node::Split { direction: _, ratio: _, first, second } => {
                first.collect_leaves(out);
                second.collect_leaves(out);
                assert(texts(out@) =~= before + (leaves(first.tree()) + leaves(second.tree())));
            },
        }
    }

    fn first_leaf(&self) -> (out: &str)
        ensures
            out@ == first_of(self.tree()),
        decreases self,
    {
        match self {
            Node::Leaf(id) => id.as_str(),
            Node::Split { direction: _, ratio: _, first, second: _ } => {
                proof {
                    leaves_not_empty(first.tree());
                }
                first.first_leaf()
            },
        }
    }

    fn split_leaf(&self, target: &str, new_pane: &str, split: SplitDirection) -> (out: Node)
        ensures
            out.tree() == split_at(self.tree(), target@, new_pane@, split),
        decreases self,
    {
        match self {
            Node::Leaf(id) => {
                if same_text(id, target) {
                    let fresh = Node::Leaf(new_pane.to_owned());
                    assert(fresh.tree() == Tree::Leaf(new_pane@));
                    Node::Split {
                        direction: split,
                        ratio: Ratio::Thousandths(EVEN_RATIO),
                        first: Box::new(self.copy()),
                        second: Box::new(fresh),
                    }
                } else {
                    self.copy()
                }
            },
            Node::Split { direction, ratio, first, second } => {
                if first.node_contains(target) {
                    Node::Split {
                        direction: *direction,
                        ratio: *ratio,
                        first: Box::new(first.split_leaf(target, new_pane, split)),
                        second: Box::new(second.copy()),
                    }
                } else {
                    Node::Split {
                        direction: *direction,
                        ratio: *ratio,
                        first: Box::new(first.copy()),
                        second: Box::new(second.split_leaf(target, new_pane, split)),
                    }
                }
            },
        }
    }

    /// The part without a pane, and the first pane of what takes the place of the split.
    fn remove_node(&self, pane: &str) -> (out: Option<(Node, PaneId)>)
        requires
            holds(self.tree(), pane@),
        ensures
            match out {
                Some((left, neighbour)) => without(self.tree(), pane@) == Some(left.tree())
                    && neighbour@ == first_of(beside(self.tree(), pane@)),
                None => without(self.tree(), pane@) is None,
            },
        decreases self,
    {
        match self {
            Node::Leaf(_) => None,
            Node::Split { direction, ratio, first, second } => {
                if first.node_contains(pane) {
                    match first.remove_node(pane) {
                        None => Some((second.copy(), second.first_leaf().to_owned())),
                        Some((left, neighbour)) => Some(
                            (
                                Node::Split {
                                    direction: *direction,
                                    ratio: *ratio,
                                    first: Box::new(left),
                                    second: Box::new(second.copy()),
                                },
                                neighbour,
                            ),
                        ),
                    }
                } else {
                    match second.remove_node(pane) {
                        None => Some((first.copy(), first.first_leaf().to_owned())),
                        Some((left, neighbour)) => Some(
                            (
                                Node::Split {
                                    direction: *direction,
                                    ratio: *ratio,
                                    first: Box::new(first.copy()),
                                    second: Box::new(left),
                                },
                                neighbour,
                            ),
                        ),
                    }
                }
            },
        }
    }

    fn with_ratio_at(&self, path: &[u8], at: usize, new_ratio: Ratio) -> (out: Node)
        requires
            at <= path@.len(),
        ensures
            out.tree() == with_ratio(self.tree(), path@.skip(at as int), new_ratio),
        decreases self,
    {
        match self {
            Node::Leaf(_) => self.copy(),
            Node::Split { direction, ratio, first, second } => {
                let ghost rest = path@.skip(at as int);
                if at == path.len() {
                    Node::Split {
                        direction: *direction,
                        ratio: new_ratio,
                        first: Box::new(first.copy()),
                        second: Box::new(second.copy()),
                    }
                } else if path[at] == 0 {
                    assert(rest.drop_first() =~= path@.skip(at + 1));
                    Node::Split {
                        direction: *direction,
                        ratio: *ratio,
                        first: Box::new(first.with_ratio_at(path, at + 1, new_ratio)),
                        second: Box::new(second.copy()),
                    }
                } else {
                    assert(rest.drop_first() =~= path@.skip(at + 1));
                    Node::Split {
                        direction: *direction,
                        ratio: *ratio,
                        first: Box::new(first.copy()),
                        second: Box::new(second.with_ratio_at(path, at + 1, new_ratio)),
                    }
                }
            },
        }
    }

    fn node_terminal_window_size(&self, sizes: &[(PaneId, (u16, u16))]) -> (out: Option<
        (u16, u16),
    >)
        ensures
            out == window_size(self.tree(), sizes@),
        decreases self,
    {
        match self {
            Node::Leaf(id) => leaf_size(sizes, id),
            Node::Split { direction, ratio: _, first, second } => {
                match (
                    first.node_terminal_window_size(sizes),
                    second.node_terminal_window_size(sizes),
                ) {
                    (Some((c1, r1)), Some((c2, r2))) => Some(
                        match direction {
                            SplitDirection::Right => (
                                c1.saturating_add(c2).saturating_add(1),
                                if r1 >= r2 {
                                    r1
                                } else {
                                    r2
                                },
                            ),
                            SplitDirection::Down => (
                                if c1 >= c2 {
                                    c1
                                } else {
                                    c2
                                },
                                r1.saturating_add(r2).saturating_add(1),
                            ),
                        },
                    ),
                    _ => None,
                }
            },
        }
    }
}

fn leaf_size(sizes: &[(PaneId, (u16, u16))], pane: &str) -> (out: Option<(u16, u16)>)
    ensures
        out == size_of(sizes@, pane@),
{
    let mut i: usize = 0;
    assert(sizes@.skip(0) =~= sizes@);
    while i < sizes.len()
        invariant
            i <= sizes@.len(),
            size_of(sizes@, pane@) == size_of(sizes@.skip(i as int), pane@),
        decreases sizes@.len() - i,
    {
        assert(sizes@.skip(i as int)[0] == sizes@[i as int]);
        assert(sizes@.skip(i as int).drop_first() =~= sizes@.skip(i + 1));
        if same_text(&sizes[i].0, pane) {
            return Some(sizes[i].1);
        }
        i = i + 1;
    }
    None
}

fn node_from_mux_layout(layout: &MuxPaneLayout) -> (out: Node)
    ensures
        out.tree() == mux_tree(*layout),
    decreases layout,
{
    match layout {
        MuxPaneLayout::Pane(id) => Node::Leaf(id.clone()),
        MuxPaneLayout::Split { direction, ratio_millis, first, second } => {
            let millis: u16 = if *ratio_millis < MIN_RATIO {
                MIN_RATIO
            } else if *ratio_millis > MAX_RATIO {
                MAX_RATIO
            } else {
                *ratio_millis
            };
            Node::Split {
                direction: match direction {
                    MuxPaneSplitDirection::Right => SplitDirection::Right,
                    MuxPaneSplitDirection::Down => SplitDirection::Down,
                },
                ratio: Ratio::Thousandths(millis),
                first: Box::new(node_from_mux_layout(first)),
                second: Box::new(node_from_mux_layout(second)),
            }
        },
    }
}

/// The paths of dividers, with each path as a sequence.
pub open spec fn path_views(paths: Seq<(Vec<u8>, SplitDirection)>) -> Seq<(Seq<u8>, SplitDirection)> {
    paths.map_values(|p: (Vec<u8>, SplitDirection)| (p.0@, p.1))
}

fn collect_paths(
    node: &Node,
    path: &Vec<u8>,
    out: &mut Vec<(Vec<u8>, SplitDirection)>,
)
    ensures
        path_views(final(out)@) == path_views(old(out)@) + split_paths(node.tree(), path@),
    decreases node,
{
    let ghost before = path_views(out@);
    match node {
        Node::Leaf(_) => {
            assert(before + split_paths(node.tree(), path@) =~= before);
        },
        Node::Split { direction, ratio: _, first, second } => {
            let ghost listed = out@;
            let here = path.clone();
            assert(here@ =~= path@);
            out.push((here, *direction));
            assert(path_views(out@) =~= path_views(listed).push((path@, *direction)));
            let mut left = path.clone();
            left.push(0);
            assert(left@ =~= path@.push(0));
            collect_paths(first, &left, out);
            let mut right = path.clone();
            right.push(1);
            assert(right@ =~= path@.push(1));
            collect_paths(second, &right, out);
            assert(path_views(out@) =~= before + (seq![(path@, *direction)] + split_paths(
                first.tree(),
                path@.push(0),
            ) + split_paths(second.tree(), path@.push(1))));
        },
    }
}

fn lists_pane(ids: &[PaneId], pane: &str) -> (out: bool)
    ensures
        out == texts(ids@).contains(pane@),
{
    let mut i: usize = 0;
    while i < ids.len()
        invariant
            i <= ids@.len(),
            forall|j: int| 0 <= j < i ==> texts(ids@)[j] != pane@,
        decreases ids@.len() - i,
    {
        assert(texts(ids@)[i as int] == ids@[i as int]@);
        if same_text(&ids[i], pane) {
            assert(texts(ids@).contains(pane@));
            return true;
        }
        i = i + 1;
    }
    assert(texts(ids@).len() == ids@.len());
    false
}

impl PaneLayout {
    /// A layout of one pane, which has the focus.
    pub fn single(pane: PaneId) -> (out: Self)
        ensures
            out@ == (LayoutView { root: Tree::Leaf(pane@), focused: pane@ }),
            out@.wf(),
    {
        PaneLayout { root: Node::Leaf(pane.clone()), focused: pane }
    }

    /// The layout that a multiplexer describes. The first pane has the focus.
    pub fn from_mux_layout(layout: &MuxPaneLayout) -> (out: Option<Self>)
        ensures
            out matches Some(made) && made@ == (LayoutView {
                root: mux_tree(*layout),
                focused: first_of(mux_tree(*layout)),
            }) && made@.wf(),
    {
        let root = node_from_mux_layout(layout);
        let focused = root.first_leaf().to_owned();
        proof {
            leaves_not_empty(root.tree());
            assert(leaves(root.tree()).contains(leaves(root.tree())[0]));
            held_are_leaves(root.tree(), focused@);
        }
        Some(PaneLayout { root, focused })
    }

    /// The pane with the focus.
    pub fn focused(&self) -> (out: &str)
        ensures
            out@ == self@.focused,
    {
        self.focused.as_str()
    }

    /// Whether there is only one pane.
    pub fn is_single(&self) -> (out: bool)
        ensures
            out == (self@.root is Leaf),
            out == (leaves(self@.root).len() == 1),
    {
        match &self.root {
            Node::Leaf(_) => true,
            Node::Split { direction: _, ratio: _, first, second } => {
                proof {
                    leaves_not_empty(first.tree());
                    leaves_not_empty(second.tree());
                }
                false
            },
        }
    }

    /// Whether a pane is in the layout.
    pub fn contains(&self, pane: &str) -> (out: bool)
        ensures
            out == holds(self@.root, pane@),
            out == leaves(self@.root).contains(pane@),
    {
        proof {
            held_are_leaves(self@.root, pane@);
        }
        self.root.node_contains(pane)
    }

    /// All panes, from left to right and from top to bottom.
    pub fn panes(&self) -> (out: Vec<PaneId>)
        ensures
            texts(out@) == leaves(self@.root),
    {
        let mut out: Vec<PaneId> = Vec::new();
        self.root.collect_leaves(&mut out);
        assert(texts(out@) =~= leaves(self@.root));
        out
    }

    /// Moves the focus to a pane, where it is in the layout.
    pub fn set_focus(&mut self, pane: &str) -> (out: bool)
        ensures
            out == holds(old(self)@.root, pane@),
            final(self).root == old(self).root,
            final(self)@.focused == (if out {
                pane@
            } else {
                old(self)@.focused
            }),
            old(self)@.wf() ==> final(self)@.wf(),
    {
        if self.contains(pane) {
            self.focused = pane.to_owned();
            true
        } else {
            false
        }
    }

    /// Splits the focused pane, and moves the focus to the new one.
    pub fn split_focused(&mut self, new_pane: PaneId, direction: SplitDirection)
        requires
            old(self)@.wf(),
        ensures
            final(self)@ == old(self)@.split(new_pane@, direction),
            final(self)@.wf(),
    {
        proof {
            split_adds(self@.root, self@.focused, new_pane@, direction, new_pane@);
            listed_has_times(self@.root, self@.focused);
            listed_has_times(self@.split(new_pane@, direction).root, new_pane@);
        }
        self.root = self.root.split_leaf(&self.focused, &new_pane, direction);
        self.focused = new_pane;
    }

    /// Takes a pane out, and says whether it did. The last pane stays. Where the pane had the focus, it
    /// moves to the neighbour that takes the place of the split.
    pub fn remove(&mut self, pane: &str) -> (out: bool)
        requires
            old(self)@.wf(),
        ensures
            out == old(self)@.removable(pane@),
            final(self)@ == old(self)@.removed(pane@),
            final(self)@.wf(),
    {
        if !self.contains(pane) {
            return false;
        }
        match self.root.remove_node(pane) {
            None => false,
            Some((root, neighbour)) => {
                proof {
                    removal_leaves_the_neighbour(self@.root, pane@);
                }
                self.root = root;
                if !self.contains(&self.focused) {
                    self.focused = neighbour;
                }
                true
            },
        }
    }

    fn drop_gone(&mut self, pane_ids: &[PaneId])
        requires
            old(self)@.wf(),
        ensures
            final(self)@ == old(self)@.without_gone(texts(pane_ids@)),
            final(self)@.wf(),
    {
        let ghost start = self@;
        let ghost ids = texts(pane_ids@);
        let listed = self.panes();
        let ghost all = texts(listed@);
        let mut i: usize = 0;
        assert(all.take(0) =~= Seq::<Seq<char>>::empty());
        while i < listed.len()
            invariant
                i <= listed@.len(),
                all == texts(listed@),
                ids == texts(pane_ids@),
                self@ == start.dropped(all.take(i as int), ids),
                self@.wf(),
            decreases listed@.len() - i,
        {
            proof {
                assert(all.take(i + 1).drop_last() =~= all.take(i as int));
                assert(all.take(i + 1).last() == listed@[i as int]@);
            }
            if !lists_pane(pane_ids, &listed[i]) {
                let _ = self.remove(&listed[i]);
            }
            i = i + 1;
        }
        assert(all.take(i as int) =~= all);
    }

    /// Brings the layout in line with a list of panes: panes that are gone are taken out, and new
    /// ones are split off to the right.
    pub fn reconcile(&mut self, pane_ids: &[PaneId])
        requires
            old(self)@.wf(),
        ensures
            final(self)@ == old(self)@.reconciled(texts(pane_ids@), SplitDirection::Right),
            final(self)@.wf(),
    {
        self.reconcile_with_new_pane_direction(pane_ids, SplitDirection::Right);
    }

    /// Brings the layout in line with a list of panes: panes that are gone are taken out, and new
    /// ones are split off in the given direction.
    pub fn reconcile_with_new_pane_direction(
        &mut self,
        pane_ids: &[PaneId],
        new_pane_direction: SplitDirection,
    )
        requires
            old(self)@.wf(),
        ensures
            final(self)@ == old(self)@.reconciled(texts(pane_ids@), new_pane_direction),
            final(self)@.wf(),
    {
        let ghost ids = texts(pane_ids@);
        self.drop_gone(pane_ids);
        let ghost middle = self@;
        let mut k: usize = 0;
        assert(ids.take(0) =~= Seq::<Seq<char>>::empty());
        while k < pane_ids.len()
            invariant
                k <= pane_ids@.len(),
                ids == texts(pane_ids@),
                self@ == middle.adopted(ids.take(k as int), new_pane_direction),
                self@.wf(),
            decreases pane_ids@.len() - k,
        {
            proof {
                assert(ids.take(k + 1).drop_last() =~= ids.take(k as int));
                assert(ids.take(k + 1).last() == pane_ids@[k as int]@);
            }
            if !self.contains(&pane_ids[k]) {
                self.split_focused(pane_ids[k].clone(), new_pane_direction);
            }
            k = k + 1;
        }
        assert(ids.take(k as int) =~= ids);
        self.drop_gone(pane_ids);
    }

    /// The size of a window that holds the panes, with one cell between neighbours. Unknown where the
    /// size of a pane is.
    pub fn terminal_window_size(&self, sizes: &[(PaneId, (u16, u16))]) -> (out: Option<(u16, u16)>)
        ensures
            out == window_size(self@.root, sizes@),
    {
        self.root.node_terminal_window_size(sizes)
    }

    /// Sets the ratio of the split that a path leads to.
    pub fn set_ratio_at(&mut self, path: &[u8], ratio: Ratio)
        ensures
            final(self)@ == (LayoutView {
                root: with_ratio(old(self)@.root, path@, ratio),
                focused: old(self)@.focused,
            }),
            old(self)@.wf() ==> final(self)@.wf(),
    {
        assert(path@.skip(0) =~= path@);
        proof {
            ratio_keeps_panes(self@.root, path@, ratio);
            held_are_leaves(self@.root, self@.focused);
            held_are_leaves(with_ratio(self@.root, path@, ratio), self@.focused);
        }
        self.root = self.root.with_ratio_at(path, 0, ratio);
    }

    /// The path and the direction of every divider, one for each split.
    pub fn divider_paths(&self) -> (out: Vec<(Vec<u8>, SplitDirection)>)
        ensures
            path_views(out@) == split_paths(self@.root, Seq::empty()),
    {
        let mut out: Vec<(Vec<u8>, SplitDirection)> = Vec::new();
        let path: Vec<u8> = Vec::new();
        collect_paths(&self.root, &path, &mut out);
        assert(path_views(out@) =~= split_paths(self@.root, Seq::empty()));
        out
    }
}

/// How often a pane is in a tree.
pub open spec fn times(tree: Tree, pane: Seq<char>) -> nat {
    leaves(tree).to_multiset().count(pane)
}

proof fn listed_has_times(tree: Tree, pane: Seq<char>)
    ensures
        holds(tree, pane) <==> times(tree, pane) > 0,
{
    held_are_leaves(tree, pane);
    vstd::seq_lib::to_multiset_contains(leaves(tree), pane);
}

proof fn times_of_split(direction: SplitDirection, ratio: Ratio, a: Tree, b: Tree, pane: Seq<char>)
    ensures
        times(
            Tree::Split { direction, ratio, first: Box::new(a), second: Box::new(b) },
            pane,
        ) == times(a, pane) + times(b, pane),
{
    broadcast use vstd::multiset::group_multiset_axioms;

    vstd::seq_lib::lemma_multiset_commutative(leaves(a), leaves(b));
}

proof fn times_of_leaf(id: Seq<char>, pane: Seq<char>)
    ensures
        times(Tree::Leaf(id), pane) == (if id == pane {
            1nat
        } else {
            0nat
        }),
{
    broadcast use vstd::multiset::group_multiset_axioms;

    assert(seq![id] =~= Seq::<Seq<char>>::empty().push(id));
    vstd::seq_lib::to_multiset_build(Seq::<Seq<char>>::empty(), id);
    assert(Seq::<Seq<char>>::empty().to_multiset().count(pane) == 0) by {
        vstd::seq_lib::to_multiset_contains(Seq::<Seq<char>>::empty(), pane);
    }
}

/// Splitting a pane adds the new pane, and nothing else.
pub proof fn split_adds(
    tree: Tree,
    target: Seq<char>,
    new_pane: Seq<char>,
    direction: SplitDirection,
    pane: Seq<char>,
)
    requires
        holds(tree, target),
    ensures
        times(split_at(tree, target, new_pane, direction), pane) == times(tree, pane) + (if pane
            == new_pane {
            1nat
        } else {
            0nat
        }),
    decreases tree,
{
    match tree {
        Tree::Leaf(id) => {
            times_of_leaf(new_pane, pane);
            times_of_split(
                direction,
                Ratio::Thousandths(EVEN_RATIO),
                tree,
                Tree::Leaf(new_pane),
                pane,
            );
        },
        Tree::Split { direction: d, ratio, first, second } => {
            times_of_split(d, ratio, *first, *second, pane);
            if holds(*first, target) {
                split_adds(*first, target, new_pane, direction, pane);
                times_of_split(
                    d,
                    ratio,
                    split_at(*first, target, new_pane, direction),
                    *second,
                    pane,
                );
            } else {
                split_adds(*second, target, new_pane, direction, pane);
                times_of_split(
                    d,
                    ratio,
                    *first,
                    split_at(*second, target, new_pane, direction),
                    pane,
                );
            }
        },
    }
}

/// Taking a pane out takes it out once, and nothing else. Only the last pane cannot be taken out.
pub proof fn removal_takes_one(tree: Tree, target: Seq<char>, pane: Seq<char>)
    requires
        holds(tree, target),
    ensures
        match without(tree, target) {
            Some(left) => times(left, pane) + (if pane == target {
                1nat
            } else {
                0nat
            }) == times(tree, pane),
            None => tree == Tree::Leaf(target),
        },
    decreases tree,
{
    match tree {
        Tree::Leaf(id) => {},
        Tree::Split { direction: d, ratio, first, second } => {
            times_of_split(d, ratio, *first, *second, pane);
            if holds(*first, target) {
                removal_takes_one(*first, target, pane);
                match without(*first, target) {
                    Some(left) => times_of_split(d, ratio, left, *second, pane),
                    None => times_of_leaf(target, pane),
                }
            } else {
                removal_takes_one(*second, target, pane);
                match without(*second, target) {
                    Some(left) => times_of_split(d, ratio, *first, left, pane),
                    None => times_of_leaf(target, pane),
                }
            }
        },
    }
}

proof fn removal_leaves_the_neighbour(tree: Tree, pane: Seq<char>)
    requires
        holds(tree, pane),
        without(tree, pane) is Some,
    ensures
        holds(without(tree, pane).unwrap(), first_of(beside(tree, pane))),
        holds(beside(tree, pane), first_of(beside(tree, pane))),
    decreases tree,
{
    match tree {
        Tree::Leaf(_) => {},
        Tree::Split { direction: _, ratio: _, first, second } => {
            if holds(*first, pane) {
                if without(*first, pane) is None {
                    first_is_held(*second);
                } else {
                    removal_leaves_the_neighbour(*first, pane);
                }
            } else if without(*second, pane) is None {
                first_is_held(*first);
            } else {
                removal_leaves_the_neighbour(*second, pane);
            }
        },
    }
}

/// Where a pane that has the focus is taken out, and is in the layout once, the focus moves to a pane
/// of the part that takes the place of the split.
pub proof fn focus_moves_to_the_neighbour(layout: LayoutView)
    requires
        layout.removable(layout.focused),
        times(layout.root, layout.focused) == 1,
    ensures
        holds(beside(layout.root, layout.focused), layout.removed(layout.focused).focused),
        layout.removed(layout.focused).wf(),
{
    let left = without(layout.root, layout.focused).unwrap();
    removal_takes_one(layout.root, layout.focused, layout.focused);
    listed_has_times(left, layout.focused);
    removal_leaves_the_neighbour(layout.root, layout.focused);
}

/// A pane that has not the focus is taken out without moving it.
pub proof fn focus_stays(layout: LayoutView, pane: Seq<char>)
    requires
        layout.wf(),
        pane != layout.focused,
    ensures
        layout.removed(pane).focused == layout.focused,
{
    if layout.removable(pane) {
        let left = without(layout.root, pane).unwrap();
        removal_takes_one(layout.root, pane, layout.focused);
        listed_has_times(layout.root, layout.focused);
        listed_has_times(left, layout.focused);
    }
}

/// Where the first of the given panes is in a list, or the length of the list.
pub open spec fn place_of(list: Seq<Seq<char>>, pane: Seq<char>) -> int
    decreases list.len(),
{
    if list.len() == 0 || list[0] == pane {
        0
    } else {
        1 + place_of(list.drop_first(), pane)
    }
}

proof fn place_in_sum(a: Seq<Seq<char>>, b: Seq<Seq<char>>, pane: Seq<char>)
    ensures
        a.contains(pane) ==> place_of(a + b, pane) == place_of(a, pane) && 0 <= place_of(a, pane)
            < a.len(),
        !a.contains(pane) ==> place_of(a + b, pane) == a.len() + place_of(b, pane),
    decreases a.len(),
{
    if a.len() == 0 {
        assert(a + b =~= b);
    } else {
        assert((a + b)[0] == a[0]);
        if a[0] != pane {
            let rest = a.drop_first();
            assert((a + b).drop_first() =~= rest + b);
            place_in_sum(rest, b, pane);
            if a.contains(pane) {
                let i = choose|i: int| 0 <= i < a.len() && a[i] == pane;
                assert(rest[i - 1] == pane);
            }
            if rest.contains(pane) {
                let i = choose|i: int| 0 <= i < rest.len() && rest[i] == pane;
                assert(a[i + 1] == pane);
            }
        } else {
            assert(a.contains(a[0]));
        }
    }
}

proof fn place_bounds(list: Seq<Seq<char>>, pane: Seq<char>)
    ensures
        0 <= place_of(list, pane) <= list.len(),
        list.contains(pane) ==> place_of(list, pane) < list.len(),
        place_of(list, pane) < list.len() ==> list[place_of(list, pane)] == pane,
    decreases list.len(),
{
    if list.len() > 0 && list[0] != pane {
        let rest = list.drop_first();
        place_bounds(rest, pane);
        if list.contains(pane) {
            let i = choose|i: int| 0 <= i < list.len() && list[i] == pane;
            assert(rest[i - 1] == pane);
        }
    }
}

/// Taking a pane out leaves the others in their order: the first of the panes with its name goes, and
/// nothing else changes.
pub proof fn removing_keeps_the_order(tree: Tree, pane: Seq<char>)
    requires
        holds(tree, pane),
    ensures
        0 <= place_of(leaves(tree), pane) < leaves(tree).len(),
        without(tree, pane) matches Some(left) ==> leaves(left) == leaves(tree).remove(
            place_of(leaves(tree), pane),
        ),
    decreases tree,
{
    held_are_leaves(tree, pane);
    place_bounds(leaves(tree), pane);
    match tree {
        Tree::Leaf(id) => {},
        Tree::Split { direction: _, ratio: _, first, second } => {
            let a = leaves(*first);
            let b = leaves(*second);
            let at = place_of(a + b, pane);
            held_are_leaves(*first, pane);
            held_are_leaves(*second, pane);
            place_in_sum(a, b, pane);
            place_bounds(b, pane);
            if holds(*first, pane) {
                removing_keeps_the_order(*first, pane);
                removal_takes_one(*first, pane, pane);
                match without(*first, pane) {
                    Some(left) => {
                        assert(leaves(left) + b =~= (a + b).remove(at));
                    },
                    None => {
                        assert(a =~= seq![pane]);
                        assert(b =~= (a + b).remove(at));
                    },
                }
            } else {
                removing_keeps_the_order(*second, pane);
                removal_takes_one(*second, pane, pane);
                match without(*second, pane) {
                    Some(left) => {
                        assert(a + leaves(left) =~= (a + b).remove(at));
                    },
                    None => {
                        assert(b =~= seq![pane]);
                        assert(a =~= (a + b).remove(at));
                    },
                }
            }
        },
    }
}

/// Splitting a pane puts the new one right behind it, and leaves the others in their order.
pub proof fn splitting_keeps_the_order(
    tree: Tree,
    target: Seq<char>,
    new_pane: Seq<char>,
    direction: SplitDirection,
)
    requires
        holds(tree, target),
    ensures
        0 <= place_of(leaves(tree), target) < leaves(tree).len(),
        leaves(split_at(tree, target, new_pane, direction)) == leaves(tree).insert(
            place_of(leaves(tree), target) + 1,
            new_pane,
        ),
    decreases tree,
{
    held_are_leaves(tree, target);
    place_bounds(leaves(tree), target);
    match tree {
        Tree::Leaf(id) => {
            assert(leaves(Tree::Leaf(new_pane)) =~= seq![new_pane]);
            assert(seq![id] + seq![new_pane] =~= seq![id].insert(1, new_pane));
        },
        Tree::Split { direction: _, ratio: _, first, second } => {
            let a = leaves(*first);
            let b = leaves(*second);
            let at = place_of(a + b, target);
            held_are_leaves(*first, target);
            held_are_leaves(*second, target);
            place_in_sum(a, b, target);
            place_bounds(b, target);
            if holds(*first, target) {
                splitting_keeps_the_order(*first, target, new_pane, direction);
                assert(a.insert(at + 1, new_pane) + b =~= (a + b).insert(at + 1, new_pane));
            } else {
                splitting_keeps_the_order(*second, target, new_pane, direction);
                assert(a + b.insert(at - a.len() + 1, new_pane) =~= (a + b).insert(
                    at + 1,
                    new_pane,
                ));
            }
        },
    }
}

proof fn filter_skips(list: Seq<Seq<char>>, i: int, keep: spec_fn(Seq<char>) -> bool)
    requires
        0 <= i < list.len(),
        !keep(list[i]),
    ensures
        list.remove(i).filter(keep) == list.filter(keep),
{
    let a = list.take(i);
    let b = list.skip(i + 1);
    let one = seq![list[i]];
    assert(list =~= a + one + b);
    assert(list.remove(i) =~= a + b);
    Seq::filter_distributes_over_add(a, one, keep);
    Seq::filter_distributes_over_add(a + one, b, keep);
    Seq::filter_distributes_over_add(a, b, keep);
    assert(one.filter(keep) =~= Seq::<Seq<char>>::empty()) by {
        reveal(Seq::filter);
        assert(one.drop_last() =~= Seq::<Seq<char>>::empty());
        assert(one.drop_last().filter(keep) =~= Seq::<Seq<char>>::empty());
    }
    assert(a.filter(keep) + one.filter(keep) =~= a.filter(keep));
}

proof fn filter_holds(list: Seq<Seq<char>>, keep: spec_fn(Seq<char>) -> bool, pane: Seq<char>)
    requires
        keep(pane),
    ensures
        list.filter(keep).contains(pane) <==> list.contains(pane),
    decreases list.len(),
{
    reveal(Seq::filter);
    if list.len() > 0 {
        let before = list.drop_last();
        let last = list.last();
        filter_holds(before, keep, pane);
        assert(list =~= before.push(last));
        let kept = before.filter(keep);
        if list.contains(pane) && last != pane {
            let i = choose|i: int| 0 <= i < list.len() && list[i] == pane;
            assert(before[i] == pane);
        }
        if before.contains(pane) {
            let i = choose|i: int| 0 <= i < before.len() && before[i] == pane;
            assert(list[i] == pane);
        }
        if last == pane {
            assert(list[list.len() - 1] == pane);
            assert(kept.push(last)[kept.len() as int] == pane);
        }
        if kept.contains(pane) && keep(last) {
            let i = choose|i: int| 0 <= i < kept.len() && kept[i] == pane;
            assert(kept.push(last)[i] == pane);
        }
        if kept.push(last).contains(pane) && last != pane {
            let i = choose|i: int| 0 <= i < kept.push(last).len() && kept.push(last)[i] == pane;
            assert(kept[i] == pane);
        }
    }
}

proof fn dropping_keeps_the_order(
    layout: LayoutView,
    listed: Seq<Seq<char>>,
    ids: Seq<Seq<char>>,
    keep: spec_fn(Seq<char>) -> bool,
)
    requires
        forall|n: Seq<char>| #[trigger] keep(n) ==> ids.contains(n),
    ensures
        leaves(layout.dropped(listed, ids).root).filter(keep) == leaves(layout.root).filter(keep),
    decreases listed.len(),
{
    if listed.len() > 0 {
        let last = listed.last();
        dropping_keeps_the_order(layout, listed.drop_last(), ids, keep);
        let middle = layout.dropped(listed.drop_last(), ids);
        if !ids.contains(last) && middle.removable(last) {
            removing_keeps_the_order(middle.root, last);
            place_bounds(leaves(middle.root), last);
            assert(!keep(last));
            filter_skips(leaves(middle.root), place_of(leaves(middle.root), last), keep);
        }
    }
}

proof fn adopting_keeps_the_order(
    layout: LayoutView,
    ids: Seq<Seq<char>>,
    direction: SplitDirection,
    keep: spec_fn(Seq<char>) -> bool,
)
    requires
        layout.wf(),
        forall|n: Seq<char>| #[trigger] keep(n) ==> holds(layout.root, n),
    ensures
        leaves(layout.adopted(ids, direction).root).filter(keep) == leaves(layout.root).filter(
            keep,
        ),
    decreases ids.len(),
{
    if ids.len() > 0 {
        let last = ids.last();
        let before = ids.drop_last();
        adopting_keeps_the_order(layout, before, direction, keep);
        adopted_holds(layout, before, direction);
        let middle = layout.adopted(before, direction);
        if !holds(middle.root, last) {
            if keep(last) {
                filter_holds(leaves(layout.root), keep, last);
                filter_holds(leaves(middle.root), keep, last);
                held_are_leaves(layout.root, last);
                held_are_leaves(middle.root, last);
            }
            splitting_keeps_the_order(middle.root, middle.focused, last, direction);
            let at = place_of(leaves(middle.root), middle.focused) + 1;
            let longer = leaves(middle.root).insert(at, last);
            assert(longer.remove(at) =~= leaves(middle.root));
            filter_skips(longer, at, keep);
        }
    }
}

/// Whether a pane of a layout is on a list.
pub open spec fn staying(layout: LayoutView, ids: Seq<Seq<char>>) -> spec_fn(Seq<char>) -> bool {
    |n: Seq<char>| holds(layout.root, n) && ids.contains(n)
}

/// The panes that stay when a layout is brought in line with a list keep their order.
pub proof fn reconciling_keeps_the_order(
    layout: LayoutView,
    ids: Seq<Seq<char>>,
    direction: SplitDirection,
)
    requires
        layout.wf(),
    ensures
        leaves(layout.reconciled(ids, direction).root).filter(staying(layout, ids)) == leaves(
            layout.root,
        ).filter(staying(layout, ids)),
{
    let keep = staying(layout, ids);
    let middle = layout.without_gone(ids);
    let full = middle.adopted(ids, direction);
    dropping_keeps_the_order(layout, leaves(layout.root), ids, keep);
    dropped_shrinks(layout, leaves(layout.root), ids);
    assert forall|n: Seq<char>| #[trigger] keep(n) implies holds(middle.root, n) by {
        filter_holds(leaves(layout.root), keep, n);
        filter_holds(leaves(middle.root), keep, n);
        held_are_leaves(layout.root, n);
        held_are_leaves(middle.root, n);
    }
    adopting_keeps_the_order(middle, ids, direction, keep);
    dropping_keeps_the_order(full, leaves(full.root), ids, keep);
}

/// The part of a tree that a path leads to; `None` where it leads out of the tree.
pub open spec fn part_at(tree: Tree, path: Seq<u8>) -> Option<Tree>
    decreases path.len(),
{
    if path.len() == 0 {
        Some(tree)
    } else {
        match tree {
            Tree::Leaf(_) => None,
            Tree::Split { direction: _, ratio: _, first, second } => if path[0] == 0 {
                part_at(*first, path.drop_first())
            } else {
                part_at(*second, path.drop_first())
            },
        }
    }
}

proof fn paths_lead_to_splits(tree: Tree, path: Seq<u8>, i: int)
    requires
        0 <= i < split_paths(tree, path).len(),
    ensures
        split_paths(tree, path)[i].0.len() >= path.len(),
        split_paths(tree, path)[i].0.take(path.len() as int) == path,
        part_at(tree, split_paths(tree, path)[i].0.skip(path.len() as int)) matches Some(
            Tree::Split { direction, ratio: _, first: _, second: _ },
        ) && direction == split_paths(tree, path)[i].1,
        forall|j: int|
            path.len() <= j < split_paths(tree, path)[i].0.len() ==> #[trigger] split_paths(
                tree,
                path,
            )[i].0[j] <= 1,
    decreases tree,
{
    let n = path.len() as int;
    let list = split_paths(tree, path);
    match tree {
        Tree::Leaf(_) => {},
        Tree::Split { direction, ratio: _, first, second } => {
            let left = split_paths(*first, path.push(0));
            let right = split_paths(*second, path.push(1));
            let here = list[i].0;
            if i == 0 {
                assert(here =~= path);
                assert(here.take(n) =~= path);
                assert(here.skip(n).len() == 0);
            } else {
                let (part, step, k) = if i - 1 < left.len() {
                    (*first, 0u8, i - 1)
                } else {
                    (*second, 1u8, i - 1 - left.len())
                };
                paths_lead_to_splits(part, path.push(step), k);
                assert(list[i] == split_paths(part, path.push(step))[k]);
                let longer = here.take(n + 1);
                assert(longer == path.push(step));
                assert(here[n] == longer[n]);
                assert(here.take(n) =~= longer.take(n));
                assert(path.push(step).take(n) =~= path);
                assert(here.skip(n).drop_first() =~= here.skip(n + 1));
                assert(here.skip(n)[0] == step);
                assert forall|j: int| n <= j < here.len() implies #[trigger] here[j] <= 1 by {
                    if j > n {
                        assert(split_paths(part, path.push(step))[k].0[j] <= 1);
                    }
                }
            }
        },
    }
}

proof fn paths_are_counted(tree: Tree, path: Seq<u8>)
    ensures
        split_paths(tree, path).len() + 1 == leaves(tree).len(),
    decreases tree,
{
    match tree {
        Tree::Leaf(_) => {},
        Tree::Split { direction: _, ratio: _, first, second } => {
            paths_are_counted(*first, path.push(0));
            paths_are_counted(*second, path.push(1));
        },
    }
}

proof fn paths_differ(tree: Tree, path: Seq<u8>, i: int, j: int)
    requires
        0 <= i < j < split_paths(tree, path).len(),
    ensures
        split_paths(tree, path)[i].0 != split_paths(tree, path)[j].0,
    decreases tree,
{
    let n = path.len() as int;
    let list = split_paths(tree, path);
    match tree {
        Tree::Leaf(_) => {},
        Tree::Split { direction: _, ratio: _, first, second } => {
            let left = split_paths(*first, path.push(0));
            let right = split_paths(*second, path.push(1));
            let m = left.len();
            if j - 1 < m {
                paths_lead_to_splits(*first, path.push(0), j - 1);
                assert(list[j] == left[j - 1]);
            } else {
                paths_lead_to_splits(*second, path.push(1), j - 1 - m);
                assert(list[j] == right[j - 1 - m]);
            }
            assert(list[j].0.len() > n);
            if i == 0 {
                assert(list[i].0 == path);
            } else if i - 1 < m {
                assert(list[i] == left[i - 1]);
                if j - 1 < m {
                    paths_differ(*first, path.push(0), i - 1, j - 1);
                } else {
                    paths_lead_to_splits(*first, path.push(0), i - 1);
                    assert(list[i].0.take(n + 1)[n] == 0);
                    assert(list[j].0.take(n + 1)[n] == 1);
                }
            } else {
                assert(list[i] == right[i - 1 - m]);
                paths_differ(*second, path.push(1), i - 1 - m, j - 1 - m);
            }
        },
    }
}

/// There is one divider less than there are panes. No two have the same path, and each path is made
/// of zeros and ones and leads to a split with the direction of the divider.
pub proof fn dividers_are_the_splits(tree: Tree)
    ensures
        split_paths(tree, Seq::empty()).len() + 1 == leaves(tree).len(),
        forall|i: int, j: int|
            0 <= i < j < split_paths(tree, Seq::empty()).len() ==> #[trigger] split_paths(
                tree,
                Seq::empty(),
            )[i].0 != #[trigger] split_paths(tree, Seq::empty())[j].0,
        forall|i: int|
            0 <= i < split_paths(tree, Seq::empty()).len() ==> {
                let (path, direction) = #[trigger] split_paths(tree, Seq::empty())[i];
                &&& part_at(tree, path) matches Some(
                    Tree::Split { direction: d, ratio: _, first: _, second: _ },
                ) && d == direction
                &&& forall|k: int| 0 <= k < path.len() ==> #[trigger] path[k] <= 1
            },
{
    let list = split_paths(tree, Seq::empty());
    paths_are_counted(tree, Seq::empty());
    assert forall|i: int, j: int| 0 <= i < j < list.len() implies #[trigger] list[i].0
        != #[trigger] list[j].0 by {
        paths_differ(tree, Seq::empty(), i, j);
    }
    assert forall|i: int| 0 <= i < list.len() implies {
        let (path, direction) = #[trigger] list[i];
        &&& part_at(tree, path) matches Some(
            Tree::Split { direction: d, ratio: _, first: _, second: _ },
        ) && d == direction
        &&& forall|k: int| 0 <= k < path.len() ==> #[trigger] path[k] <= 1
    } by {
        paths_lead_to_splits(tree, Seq::empty(), i);
        assert(list[i].0.skip(0) =~= list[i].0);
    }
}

/// Setting a ratio leaves the panes as they are.
pub proof fn ratio_keeps_panes(tree: Tree, path: Seq<u8>, ratio: Ratio)
    ensures
        leaves(with_ratio(tree, path, ratio)) == leaves(tree),
    decreases tree,
{
    match tree {
        Tree::Leaf(_) => {},
        Tree::Split { direction: _, ratio: _, first, second } => {
            if path.len() > 0 {
                ratio_keeps_panes(*first, path.drop_first(), ratio);
                ratio_keeps_panes(*second, path.drop_first(), ratio);
            }
        },
    }
}

proof fn split_makes_held(
    tree: Tree,
    target: Seq<char>,
    new_pane: Seq<char>,
    direction: SplitDirection,
)
    requires
        holds(tree, target),
    ensures
        holds(split_at(tree, target, new_pane, direction), new_pane),
    decreases tree,
{
    match tree {
        Tree::Leaf(_) => {
            assert(holds(Tree::Leaf(new_pane), new_pane));
        },
        Tree::Split { direction: _, ratio: _, first, second } => {
            if holds(*first, target) {
                split_makes_held(*first, target, new_pane, direction);
            } else {
                split_makes_held(*second, target, new_pane, direction);
            }
        },
    }
}

proof fn split_undone(
    tree: Tree,
    target: Seq<char>,
    new_pane: Seq<char>,
    direction: SplitDirection,
)
    requires
        holds(tree, target),
        !holds(tree, new_pane),
    ensures
        without(split_at(tree, target, new_pane, direction), new_pane) == Some(tree),
    decreases tree,
{
    match tree {
        Tree::Leaf(id) => {
            let fresh = Tree::Leaf(new_pane);
            assert(without(fresh, new_pane) is None);
        },
        Tree::Split { direction: _, ratio: _, first, second } => {
            if holds(*first, target) {
                split_undone(*first, target, new_pane, direction);
                split_makes_held(*first, target, new_pane, direction);
            } else {
                split_undone(*second, target, new_pane, direction);
            }
        },
    }
}

/// Taking out a new pane undoes its split.
pub proof fn removing_undoes_splitting(
    layout: LayoutView,
    new_pane: Seq<char>,
    direction: SplitDirection,
)
    requires
        layout.wf(),
        !holds(layout.root, new_pane),
    ensures
        layout.split(new_pane, direction).removed(new_pane).root == layout.root,
{
    split_undone(layout.root, layout.focused, new_pane, direction);
    split_makes_held(layout.root, layout.focused, new_pane, direction);
}

/// How often a pane is in a list.
pub open spec fn listed_times(list: Seq<Seq<char>>, pane: Seq<char>) -> nat {
    list.to_multiset().count(pane)
}

proof fn push_listed_times(list: Seq<Seq<char>>, last: Seq<char>, pane: Seq<char>)
    ensures
        listed_times(list.push(last), pane) == listed_times(list, pane) + (if pane == last {
            1nat
        } else {
            0nat
        }),
{
    broadcast use vstd::multiset::group_multiset_axioms;

    vstd::seq_lib::to_multiset_build(list, last);
}

proof fn dropped_times(
    layout: LayoutView,
    listed: Seq<Seq<char>>,
    ids: Seq<Seq<char>>,
    stays: Seq<char>,
)
    requires
        layout.wf(),
        ids.contains(stays),
        holds(layout.root, stays),
        forall|n: Seq<char>| #[trigger] listed_times(listed, n) <= times(layout.root, n),
    ensures
        layout.dropped(listed, ids).wf(),
        forall|n: Seq<char>|
            #[trigger] times(layout.dropped(listed, ids).root, n) == (if ids.contains(n) {
                times(layout.root, n)
            } else {
                (times(layout.root, n) - listed_times(listed, n)) as nat
            }),
    decreases listed.len(),
{
    broadcast use vstd::multiset::group_multiset_axioms;

    if listed.len() == 0 {
        assert forall|n: Seq<char>| #[trigger] listed_times(listed, n) == 0 by {
            vstd::seq_lib::to_multiset_contains(listed, n);
        }
        assert forall|n: Seq<char>|
            #[trigger] times(layout.dropped(listed, ids).root, n) == (if ids.contains(n) {
                times(layout.root, n)
            } else {
                (times(layout.root, n) - listed_times(listed, n)) as nat
            }) by {}
    } else {
        let before = listed.drop_last();
        let last = listed.last();
        assert(listed =~= before.push(last));
        assert forall|n: Seq<char>| #[trigger] listed_times(before, n) <= times(layout.root, n) by {
            push_listed_times(before, last, n);
            assert(listed_times(listed, n) <= times(layout.root, n));
        }
        dropped_times(layout, before, ids, stays);
        let middle = layout.dropped(before, ids);
        let out = layout.dropped(listed, ids);
        assert(listed_times(listed, last) <= times(layout.root, last));
        push_listed_times(before, last, last);
        if !ids.contains(last) {
            assert(times(middle.root, last) > 0);
            listed_has_times(middle.root, last);
            listed_has_times(layout.root, stays);
            assert(times(middle.root, stays) > 0);
            listed_has_times(middle.root, stays);
            removal_takes_one(middle.root, last, last);
            if without(middle.root, last) is None {
                assert(holds(Tree::Leaf(last), stays));
            }
            removal_leaves_the_neighbour(middle.root, last);
        }
        assert forall|n: Seq<char>|
            #[trigger] times(out.root, n) == (if ids.contains(n) {
                times(layout.root, n)
            } else {
                (times(layout.root, n) - listed_times(listed, n)) as nat
            }) by {
            push_listed_times(before, last, n);
            assert(times(middle.root, n) == (if ids.contains(n) {
                times(layout.root, n)
            } else {
                (times(layout.root, n) - listed_times(before, n)) as nat
            }));
            assert(listed_times(listed, n) <= times(layout.root, n));
            if !ids.contains(last) {
                removal_takes_one(middle.root, last, n);
            }
        }
    }
}

proof fn first_is_held(tree: Tree)
    ensures
        holds(tree, first_of(tree)),
{
    leaves_not_empty(tree);
    assert(leaves(tree).contains(leaves(tree)[0]));
    held_are_leaves(tree, first_of(tree));
}

proof fn adopted_holds(layout: LayoutView, ids: Seq<Seq<char>>, direction: SplitDirection)
    requires
        layout.wf(),
    ensures
        layout.adopted(ids, direction).wf(),
        forall|n: Seq<char>|
            #[trigger] times(layout.adopted(ids, direction).root, n) == (if times(layout.root, n)
                == 0 && ids.contains(n) {
                1
            } else {
                times(layout.root, n)
            }),
    decreases ids.len(),
{
    if ids.len() > 0 {
        let before = ids.drop_last();
        let last = ids.last();
        adopted_holds(layout, before, direction);
        let middle = layout.adopted(before, direction);
        let out = layout.adopted(ids, direction);
        listed_has_times(middle.root, last);
        if !holds(middle.root, last) {
            split_makes_held(middle.root, middle.focused, last, direction);
        }
        assert forall|n: Seq<char>|
            #[trigger] times(out.root, n) == (if times(layout.root, n) == 0 && ids.contains(n) {
                1
            } else {
                times(layout.root, n)
            }) by {
            assert(times(middle.root, n) == (if times(layout.root, n) == 0 && before.contains(n) {
                1
            } else {
                times(layout.root, n)
            }));
            if !holds(middle.root, last) {
                split_adds(middle.root, middle.focused, last, direction, n);
            }
            assert(ids[ids.len() - 1] == last);
            if before.contains(n) {
                let i = choose|i: int| 0 <= i < before.len() && before[i] == n;
                assert(ids[i] == n);
            }
            if ids.contains(n) && n != last {
                let i = choose|i: int| 0 <= i < ids.len() && ids[i] == n;
                assert(before[i] == n);
            }
        }
    }
}

proof fn dropped_shrinks(layout: LayoutView, listed: Seq<Seq<char>>, ids: Seq<Seq<char>>)
    requires
        layout.wf(),
    ensures
        layout.dropped(listed, ids).wf(),
        forall|n: Seq<char>|
            #[trigger] times(layout.dropped(listed, ids).root, n) <= times(layout.root, n),
    decreases listed.len(),
{
    if listed.len() > 0 {
        let before = listed.drop_last();
        let last = listed.last();
        dropped_shrinks(layout, before, ids);
        let middle = layout.dropped(before, ids);
        let out = layout.dropped(listed, ids);
        if !ids.contains(last) && middle.removable(last) {
            removal_leaves_the_neighbour(middle.root, last);
            assert forall|n: Seq<char>| #[trigger] times(out.root, n) <= times(layout.root, n) by {
                removal_takes_one(middle.root, last, n);
                assert(times(middle.root, n) <= times(layout.root, n));
            }
        }
    }
}

/// A layout that is brought in line with a list has exactly the panes of the list. Where it had no
/// pane twice, it still has none.
pub proof fn reconciling_matches(
    layout: LayoutView,
    ids: Seq<Seq<char>>,
    direction: SplitDirection,
)
    requires
        layout.wf(),
        ids.len() > 0,
    ensures
        layout.reconciled(ids, direction).wf(),
        forall|n: Seq<char>|
            holds(layout.reconciled(ids, direction).root, n) <==> #[trigger] ids.contains(n),
        (forall|n: Seq<char>| #[trigger] times(layout.root, n) <= 1) ==> (forall|n: Seq<char>|
            #[trigger] times(layout.reconciled(ids, direction).root, n) <= 1),
{
    dropped_shrinks(layout, leaves(layout.root), ids);
    let middle = layout.without_gone(ids);
    adopted_holds(middle, ids, direction);
    let full = middle.adopted(ids, direction);
    let listed = leaves(full.root);
    let stays = ids[0];
    assert(ids.contains(stays));
    assert(times(full.root, stays) > 0);
    listed_has_times(full.root, stays);
    assert forall|n: Seq<char>| #[trigger] listed_times(listed, n) <= times(full.root, n) by {}
    dropped_times(full, listed, ids, stays);
    let out = layout.reconciled(ids, direction);
    assert forall|n: Seq<char>| holds(out.root, n) <==> #[trigger] ids.contains(n) by {
        listed_has_times(out.root, n);
        assert(listed_times(listed, n) == times(full.root, n));
        assert(times(out.root, n) == (if ids.contains(n) {
            times(full.root, n)
        } else {
            0
        }));
        assert(times(full.root, n) == (if times(middle.root, n) == 0 && ids.contains(n) {
            1
        } else {
            times(middle.root, n)
        }));
    }
    if forall|n: Seq<char>| #[trigger] times(layout.root, n) <= 1 {
        assert forall|n: Seq<char>| #[trigger] times(out.root, n) <= 1 by {
            assert(times(layout.root, n) <= 1);
            assert(times(middle.root, n) <= 1);
            assert(times(full.root, n) <= 1);
            assert(times(out.root, n) <= times(full.root, n));
        }
    }
}

proof fn dropping_nothing(layout: LayoutView, listed: Seq<Seq<char>>, ids: Seq<Seq<char>>)
    requires
        forall|i: int| 0 <= i < listed.len() ==> ids.contains(#[trigger] listed[i]),
    ensures
        layout.dropped(listed, ids) == layout,
    decreases listed.len(),
{
    if listed.len() > 0 {
        assert(listed[listed.len() - 1] == listed.last());
        assert forall|i: int| 0 <= i < listed.drop_last().len() implies ids.contains(
            #[trigger] listed.drop_last()[i],
        ) by {
            assert(listed[i] == listed.drop_last()[i]);
        }
        dropping_nothing(layout, listed.drop_last(), ids);
    }
}

proof fn adopting_nothing(layout: LayoutView, ids: Seq<Seq<char>>, direction: SplitDirection)
    requires
        forall|i: int| 0 <= i < ids.len() ==> holds(layout.root, #[trigger] ids[i]),
    ensures
        layout.adopted(ids, direction) == layout,
    decreases ids.len(),
{
    if ids.len() > 0 {
        assert(ids[ids.len() - 1] == ids.last());
        assert forall|i: int| 0 <= i < ids.drop_last().len() implies holds(
            layout.root,
            #[trigger] ids.drop_last()[i],
        ) by {
            assert(ids[i] == ids.drop_last()[i]);
        }
        adopting_nothing(layout, ids.drop_last(), direction);
    }
}

/// A layout that has exactly the panes of a list stays as it is.
pub proof fn reconciling_in_line_changes_nothing(
    layout: LayoutView,
    ids: Seq<Seq<char>>,
    direction: SplitDirection,
)
    requires
        forall|n: Seq<char>| holds(layout.root, n) <==> #[trigger] ids.contains(n),
    ensures
        layout.reconciled(ids, direction) == layout,
{
    let listed = leaves(layout.root);
    assert forall|i: int| 0 <= i < listed.len() implies ids.contains(#[trigger] listed[i]) by {
        assert(listed.contains(listed[i]));
        held_are_leaves(layout.root, listed[i]);
    }
    dropping_nothing(layout, listed, ids);
    assert forall|i: int| 0 <= i < ids.len() implies holds(layout.root, #[trigger] ids[i]) by {
        assert(ids.contains(ids[i]));
    }
    adopting_nothing(layout, ids, direction);
    dropping_nothing(layout, listed, ids);
}

/// The part of a described layout that a path leads to; `None` where it leads out of it.
pub open spec fn described_at(layout: MuxPaneLayout, path: Seq<u8>) -> Option<MuxPaneLayout>
    decreases path.len(),
{
    if path.len() == 0 {
        Some(layout)
    } else {
        match layout {
            MuxPaneLayout::Pane(_) => None,
            MuxPaneLayout::Split { direction: _, ratio_millis: _, first, second } => if path[0]
                == 0 {
                described_at(*first, path.drop_first())
            } else {
                described_at(*second, path.drop_first())
            },
        }
    }
}

/// A described layout is taken over as it is: wherever a path leads to a pane in the description, it
/// leads to that pane in the layout, and wherever it leads to a split, it leads to one with the parts
/// side by side exactly where they are described side by side. A ratio is the described one unless
/// that is too close to an edge.
pub proof fn described_layout_is_kept(layout: MuxPaneLayout, path: Seq<u8>)
    ensures
        match described_at(layout, path) {
            None => part_at(mux_tree(layout), path) is None,
            Some(MuxPaneLayout::Pane(id)) => part_at(mux_tree(layout), path) == Some(
                Tree::Leaf(id@),
            ),
            Some(MuxPaneLayout::Split { direction: d, ratio_millis, first, second }) => part_at(
                mux_tree(layout),
                path,
            ) matches Some(Tree::Split { direction, ratio: Ratio::Thousandths(n), first: a, second: b })
                && {
                &&& direction is Right <==> d is Right
                &&& direction is Down <==> d is Down
                &&& 50 <= n <= 950
                &&& 50 <= ratio_millis <= 950 ==> n == ratio_millis
                &&& ratio_millis < 50 ==> n == 50
                &&& ratio_millis > 950 ==> n == 950
            },
        },
    decreases path.len(),
{
    if path.len() > 0 {
        match layout {
            MuxPaneLayout::Pane(_) => {},
            MuxPaneLayout::Split { direction: _, ratio_millis: _, first, second } => {
                if path[0] == 0 {
                    described_layout_is_kept(*first, path.drop_first());
                } else {
                    described_layout_is_kept(*second, path.drop_first());
                }
            },
        }
    }
}

/// The panes of a described layout, in the order of the description.
pub open spec fn described_panes(layout: MuxPaneLayout) -> Seq<Seq<char>>
    decreases layout,
{
    match layout {
        MuxPaneLayout::Pane(id) => seq![id@],
        MuxPaneLayout::Split { direction: _, ratio_millis: _, first, second } => described_panes(
            *first,
        ) + described_panes(*second),
    }
}

/// The panes of a layout that was taken over are those of the description, in its order.
pub proof fn described_panes_are_kept(layout: MuxPaneLayout)
    ensures
        leaves(mux_tree(layout)) == described_panes(layout),
    decreases layout,
{
    match layout {
        MuxPaneLayout::Pane(_) => {},
        MuxPaneLayout::Split { direction: _, ratio_millis: _, first, second } => {
            described_panes_are_kept(*first);
            described_panes_are_kept(*second);
        },
    }
}

/// A described layout that puts two parts side by side needs a window as wide as both and the cell
/// between them, and as high as the higher; one that stacks them the other way round.
pub proof fn described_direction_shows(
    layout: MuxPaneLayout,
    sizes: Seq<(PaneId, (u16, u16))>,
    a: (u16, u16),
    b: (u16, u16),
)
    requires
        layout matches MuxPaneLayout::Split { direction, ratio_millis, first, second }
            && window_size(mux_tree(*first), sizes) == Some(a) && window_size(
            mux_tree(*second),
            sizes,
        ) == Some(b),
        a.0 + b.0 < 65535,
        a.1 + b.1 < 65535,
    ensures
        layout matches MuxPaneLayout::Split { direction, ratio_millis, first, second } && {
            let size = window_size(mux_tree(layout), sizes).unwrap();
            &&& window_size(mux_tree(layout), sizes) is Some
            &&& direction is Right ==> size.0 == a.0 + b.0 + 1 && size.1 >= a.1 && size.1 >= b.1
                && (size.1 == a.1 || size.1 == b.1)
            &&& direction is Down ==> size.1 == a.1 + b.1 + 1 && size.0 >= a.0 && size.0 >= b.0
                && (size.0 == a.0 || size.0 == b.0)
        },
{
}

/// The path to the first leaf with a pane's name.
pub open spec fn path_of(tree: Tree, pane: Seq<char>) -> Seq<u8>
    decreases tree,
{
    match tree {
        Tree::Leaf(_) => Seq::empty(),
        Tree::Split { direction: _, ratio: _, first, second } => if holds(*first, pane) {
            seq![0u8] + path_of(*first, pane)
        } else {
            seq![1u8] + path_of(*second, pane)
        },
    }
}

/// Splitting a pane puts a split with two halves in its place: the pane first, the new one second, in
/// the direction that was asked for. Whatever a path leads to elsewhere stays.
pub proof fn split_takes_the_place_of_the_pane(
    tree: Tree,
    target: Seq<char>,
    new_pane: Seq<char>,
    direction: SplitDirection,
)
    requires
        holds(tree, target),
    ensures
        part_at(tree, path_of(tree, target)) == Some(Tree::Leaf(target)),
        part_at(split_at(tree, target, new_pane, direction), path_of(tree, target)) matches Some(
            Tree::Split { direction: d, ratio, first, second },
        ) && d == direction && ratio == Ratio::Thousandths(500) && *first == Tree::Leaf(target)
            && *second == Tree::Leaf(new_pane),
    decreases tree,
{
    match tree {
        Tree::Leaf(_) => {},
        Tree::Split { direction: _, ratio: _, first, second } => {
            if holds(*first, target) {
                split_takes_the_place_of_the_pane(*first, target, new_pane, direction);
                let rest = path_of(*first, target);
                assert((seq![0u8] + rest).drop_first() =~= rest);
            } else {
                split_takes_the_place_of_the_pane(*second, target, new_pane, direction);
                let rest = path_of(*second, target);
                assert((seq![1u8] + rest).drop_first() =~= rest);
            }
        },
    }
}

/// Setting a ratio sets that of the split at the path and of no other, and changes no direction.
pub proof fn ratio_is_set_where_asked(tree: Tree, path: Seq<u8>, new_ratio: Ratio, other: Seq<u8>)
    requires
        forall|i: int| 0 <= i < path.len() ==> #[trigger] path[i] <= 1,
        forall|i: int| 0 <= i < other.len() ==> #[trigger] other[i] <= 1,
    ensures
        match part_at(tree, other) {
            None => part_at(with_ratio(tree, path, new_ratio), other) is None,
            Some(Tree::Leaf(id)) => part_at(with_ratio(tree, path, new_ratio), other) == Some(
                Tree::Leaf(id),
            ),
            Some(Tree::Split { direction, ratio, first, second }) => part_at(
                with_ratio(tree, path, new_ratio),
                other,
            ) matches Some(Tree::Split { direction: d, ratio: r, first: a, second: b }) && d
                == direction && r == (if other == path {
                new_ratio
            } else {
                ratio
            }),
        },
    decreases path.len() + other.len(),
{
    match tree {
        Tree::Leaf(_) => {},
        Tree::Split { direction: _, ratio: _, first, second } => {
            if path.len() == 0 && other.len() == 0 {
                assert(path =~= other);
            } else if path.len() == 0 {
                assert(part_at(with_ratio(tree, path, new_ratio), other) == part_at(tree, other));
            } else if other.len() > 0 {
                let rest = path.drop_first();
                let left = other.drop_first();
                assert(path[0] <= 1 && other[0] <= 1);
                assert forall|i: int| 0 <= i < rest.len() implies #[trigger] rest[i] <= 1 by {
                    assert(path[i + 1] <= 1);
                }
                assert forall|i: int| 0 <= i < left.len() implies #[trigger] left[i] <= 1 by {
                    assert(other[i + 1] <= 1);
                }
                if path[0] == other[0] {
                    ratio_is_set_where_asked(*first, rest, new_ratio, left);
                    ratio_is_set_where_asked(*second, rest, new_ratio, left);
                    assert(path =~= seq![path[0]] + rest);
                    assert(other =~= seq![other[0]] + left);
                    if rest == left {
                        assert(path == other);
                    }
                } else {
                    assert(path != other);
                }
            }
        },
    }
}

/// The size of a pane is the first that is told of it.
pub proof fn pane_sizes_are_found(sizes: Seq<(PaneId, (u16, u16))>, pane: Seq<char>, i: int)
    ensures
        0 <= i < sizes.len() && sizes[i].0@ == pane && (forall|j: int|
            0 <= j < i ==> (#[trigger] sizes[j]).0@ != pane) ==> size_of(sizes, pane) == Some(
            sizes[i].1,
        ),
        (forall|j: int| 0 <= j < sizes.len() ==> (#[trigger] sizes[j]).0@ != pane) ==> size_of(
            sizes,
            pane,
        ) is None,
    decreases sizes.len(),
{
    if sizes.len() > 0 {
        let rest = sizes.drop_first();
        pane_sizes_are_found(sizes.drop_first(), pane, i - 1);
        assert forall|j: int| 0 <= j < rest.len() implies #[trigger] rest[j] == sizes[j + 1] by {}
        if 0 < i < sizes.len() && (forall|j: int|
            0 <= j < i ==> (#[trigger] sizes[j]).0@ != pane) {
            assert(sizes[0].0@ != pane);
            assert(rest[i - 1] == sizes[i]);
        }
        if forall|j: int| 0 <= j < sizes.len() ==> (#[trigger] sizes[j]).0@ != pane {
            assert(sizes[0].0@ != pane);
        }
    }
}

/// A window has room for its panes and a line between each two of them: side by side they add up in
/// columns and the higher counts in rows; one over the other it is the other way round. Where the size of
/// a pane is not known, neither is that of the window.
pub proof fn windows_have_room_for_their_panes(
    direction: SplitDirection,
    ratio: Ratio,
    first: Box<Tree>,
    second: Box<Tree>,
    sizes: Seq<(PaneId, (u16, u16))>,
)
    ensures
        ({
            let whole = window_size(Tree::Split { direction, ratio, first, second }, sizes);
            let a = window_size(*first, sizes);
            let b = window_size(*second, sizes);
            &&& whole is Some <==> a is Some && b is Some
            &&& whole matches Some(size) ==> {
                let (wide, high) = (a->Some_0.0 + b->Some_0.0 + 1, a->Some_0.1 + b->Some_0.1 + 1);
                match direction {
                    SplitDirection::Right => {
                        &&& wide <= 65535 ==> size.0 == wide
                        &&& wide > 65535 ==> size.0 == 65535
                        &&& size.1 >= a->Some_0.1 && size.1 >= b->Some_0.1
                        &&& size.1 == a->Some_0.1 || size.1 == b->Some_0.1
                    },
                    SplitDirection::Down => {
                        &&& high <= 65535 ==> size.1 == high
                        &&& high > 65535 ==> size.1 == 65535
                        &&& size.0 >= a->Some_0.0 && size.0 >= b->Some_0.0
                        &&& size.0 == a->Some_0.0 || size.0 == b->Some_0.0
                    },
                }
            }
        }),
{
}

/// A single pane is as large as its window.
pub proof fn single_pane_fills_the_window(id: Seq<char>, sizes: Seq<(PaneId, (u16, u16))>)
    ensures
        window_size(Tree::Leaf(id), sizes) == size_of(sizes, id),
{
}

/// A pane that is new to a layout is split off the focused one, the way it is asked, and gets the focus; one
/// that is there already changes nothing.
pub proof fn new_panes_are_split_off(layout: LayoutView, pane: Seq<char>, direction: SplitDirection)
    ensures
        holds(layout.root, pane) ==> layout.adopted(seq![pane], direction) == layout,
        !holds(layout.root, pane) ==> {
            let after = layout.adopted(seq![pane], direction);
            &&& after.focused == pane
            &&& after.root == split_at(layout.root, layout.focused, pane, direction)
        },
{
    let none = Seq::<Seq<char>>::empty();
    assert(seq![pane].drop_last() =~= none);
    assert(layout.adopted(none, direction) == layout);
}

}
