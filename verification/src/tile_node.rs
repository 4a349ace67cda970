//! The tree of tiles of a section.
//!
//! A node is a leaf with one tile, or arranges its children side by side, on top of each other, or
//! one at a time as tabs. Leaves are counted in depth-first order; a path is the list of child
//! indices that leads from the root to a node.
use vstd::prelude::*;

use crate::axis::AxisMap;
use crate::config::SplitAxis;
use crate::geometry::Size;
use crate::scalar::{num, Scalar};
use crate::tab_header::{header_view, TabHeader, TabHeaderView};
use crate::tile::Tile;

verus! {

/// How a node arranges its children.
#[derive(Clone, Copy, PartialEq, Eq, Structural, Debug)]
pub enum Layout {
    /// Side by side along the main axis.
    SplitH,
    /// On top of each other along the cross axis.
    SplitV,
    /// One at a time, with a single row of tabs.
    Tabbed,
    /// One at a time, with one row per tab.
    Stacked,
}

impl Layout {
    pub open spec fn spec_is_tabbing(self) -> bool {
        self == Layout::Tabbed || self == Layout::Stacked
    }

    pub open spec fn spec_for_axis(axis: SplitAxis) -> Self {
        match axis {
            SplitAxis::Main => Layout::SplitH,
            SplitAxis::Cross => Layout::SplitV,
        }
    }

    /// Whether children follow each other along an axis. Tabs follow each other along the cross
    /// axis.
    pub open spec fn arranges_along(self, axis: SplitAxis) -> bool {
        match self {
            Layout::SplitH => axis == SplitAxis::Main,
            _ => axis == SplitAxis::Cross,
        }
    }

    pub open spec fn spec_split_of_family(self) -> Self {
        if self == Layout::SplitH {
            Layout::SplitH
        } else {
            Layout::SplitV
        }
    }

    pub fn is_tabbing(&self) -> (r: bool)
        ensures
            r == self.spec_is_tabbing(),
    {
        matches!(self, Layout::Tabbed | Layout::Stacked)
    }

    pub fn is_split(&self) -> (r: bool)
        ensures
            r == !self.spec_is_tabbing(),
    {
        matches!(self, Layout::SplitH | Layout::SplitV)
    }

    pub fn split_for_axis(axis: SplitAxis) -> (r: Self)
        ensures
            r == Self::spec_for_axis(axis),
    {
        match axis {
            SplitAxis::Main => Layout::SplitH,
            SplitAxis::Cross => Layout::SplitV,
        }
    }

    /// Whether the children follow each other along an axis.
    pub fn is_along(&self, axis: SplitAxis) -> (r: bool)
        ensures
            r == self.arranges_along(axis),
    {
        match self {
            Layout::SplitH => axis == SplitAxis::Main,
            _ => axis == SplitAxis::Cross,
        }
    }

    /// The plain split that a layout turns into when its tabs are given up.
    pub fn split_of_family(&self) -> (r: Self)
        ensures
            r == self.spec_split_of_family(),
    {
        match self {
            Layout::SplitH => Layout::SplitH,
            _ => Layout::SplitV,
        }
    }
}

/// The span of a child along the axis of its parent.
#[derive(Clone, Copy, PartialEq, Eq, Debug)]
pub enum ChildSpan<N> {
    /// A share of what is left, by weight.
    Auto { weight: N },
    /// A fixed *tile* span.
    Fixed(N),
    /// One of the preset heights.
    Preset(usize),
}

impl<N: Scalar> ChildSpan<N> {
    pub open spec fn spec_auto_1() -> Self {
        ChildSpan::Auto { weight: num::<N>(1) }
    }

    pub fn auto_1() -> (r: Self)
        ensures
            r == Self::spec_auto_1(),
    {
        ChildSpan::Auto { weight: N::of_int(1) }
    }
}

/// What a node keeps for each of its children.
#[derive(Clone, Copy, PartialEq, Eq, Debug)]
pub struct SplitChildData<N> {
    pub span: ChildSpan<N>,
    /// The latest known size of the child, turned to the main axis.
    pub size: Size<N>,
    pub interactively_resizing_by_start_edge: bool,
}

impl<N: Scalar> SplitChildData<N> {
    pub open spec fn spec_new_auto() -> Self {
        SplitChildData {
            span: ChildSpan::spec_auto_1(),
            size: Size::spec_zero(),
            interactively_resizing_by_start_edge: false,
        }
    }

    pub open spec fn spec_update(self, tile: Tile<N>, axis: AxisMap) -> Self {
        SplitChildData {
            size: axis.spec_size(tile.tile_size),
            interactively_resizing_by_start_edge: tile.resizes_by_start(),
            ..self
        }
    }

    pub fn new_auto() -> (r: Self)
        ensures
            r == Self::spec_new_auto(),
    {
        SplitChildData {
            span: ChildSpan::auto_1(),
            size: Size::zero(),
            interactively_resizing_by_start_edge: false,
        }
    }

    /// Takes over the size of a tile.
    pub fn update(&mut self, tile: &Tile<N>, axis: AxisMap)
        ensures
            *final(self) == old(self).spec_update(*tile, axis),
    {
        self.size = axis.size_in(tile.tile_size);
        self.interactively_resizing_by_start_edge = tile.is_resized_by_start();
    }
}

/// A node of the tree of tiles.
pub enum TileNode<N> {
    Leaf(Tile<N>),
    Internal {
        layout: Layout,
        children: Vec<TileNode<N>>,
        active_idx: usize,
        data: Vec<SplitChildData<N>>,
        tab_header: Option<TabHeader<N>>,
    },
}

/// What a [`TileNode`] holds.
#[verifier::ext_equal]
pub ghost enum Tree<N> {
    Leaf(Tile<N>),
    Internal {
        layout: Layout,
        children: Seq<Tree<N>>,
        active_idx: usize,
        data: Seq<SplitChildData<N>>,
        header: Option<TabHeaderView<N>>,
    },
}

impl<N> TileNode<N> {
    pub open spec fn view(&self) -> Tree<N>
        decreases self,
    {
        match self {
            TileNode::Leaf(tile) => Tree::Leaf(*tile),
            TileNode::Internal { layout, children, active_idx, data, tab_header } => Tree::Internal {
                layout: *layout,
                children: Seq::new(
                    children@.len(),
                    |i: int|
                        if 0 <= i < children@.len() {
                            children@[i].view()
                        } else {
                            arbitrary()
                        },
                ),
                active_idx: *active_idx,
                data: data@,
                header: header_view(*tab_header),
            },
        }
    }
}

/// The nodes that the views of some nodes show.
pub open spec fn forest_view<N>(nodes: Seq<TileNode<N>>) -> Seq<Tree<N>> {
    Seq::new(nodes.len(), |i: int| nodes[i]@)
}

impl<N> Tree<N> {
    pub open spec fn child_count(self) -> nat {
        match self {
            Tree::Leaf(_) => 0,
            Tree::Internal { children, .. } => children.len(),
        }
    }

    pub open spec fn is_tabbed(self) -> bool {
        self matches Tree::Internal { layout, .. } && layout.spec_is_tabbing()
    }

    pub open spec fn layout(self) -> Option<Layout> {
        match self {
            Tree::Leaf(_) => None,
            Tree::Internal { layout, .. } => Some(layout),
        }
    }

    pub open spec fn is_main_split(self) -> bool {
        self.layout() == Some(Layout::SplitH)
    }

    pub open spec fn header(self) -> Option<TabHeaderView<N>> {
        match self {
            Tree::Leaf(_) => None,
            Tree::Internal { header, .. } => header,
        }
    }

    pub open spec fn child_data(self) -> Seq<SplitChildData<N>> {
        match self {
            Tree::Leaf(_) => Seq::empty(),
            Tree::Internal { data, .. } => data,
        }
    }

    pub open spec fn has_nested_children(self) -> bool {
        self matches Tree::Internal { children, .. } && exists|i: int|
            0 <= i < children.len() && !(#[trigger] children[i] is Leaf)
    }

    /// Whether the nodes on the way of every path are in order: data for each child, an active
    /// child among the children, if there are any, and a header for tabs.
    pub open spec fn sane(self) -> bool
        decreases self,
    {
        match self {
            Tree::Leaf(_) => true,
            Tree::Internal { layout, children, active_idx, data, header } => {
                &&& data.len() == children.len()
                &&& children.len() <= usize::MAX
                &&& children.len() > 0 ==> active_idx < children.len()
                &&& layout.spec_is_tabbing() ==> header is Some
                &&& forall|i: int| 0 <= i < children.len() ==> (#[trigger] children[i]).sane()
            },
        }
    }

    /// Whether the tree is in order and no node is without children.
    pub open spec fn wf(self) -> bool
        decreases self,
    {
        match self {
            Tree::Leaf(_) => true,
            Tree::Internal { layout, children, active_idx, data, header } => {
                &&& data.len() == children.len()
                &&& children.len() <= usize::MAX
                &&& active_idx < children.len()
                &&& layout.spec_is_tabbing() ==> header is Some
                &&& forall|i: int| 0 <= i < children.len() ==> (#[trigger] children[i]).wf()
            },
        }
    }

    /// The tiles of the tree in depth-first order.
    pub open spec fn leaves(self) -> Seq<Tile<N>>
        decreases self, 0int,
    {
        match self {
            Tree::Leaf(tile) => seq![tile],
            Tree::Internal { children, .. } => Self::forest_leaves(
                children,
                children.len() as int,
            ),
        }
    }

    /// The tiles of the first `upto` of some trees.
    pub open spec fn forest_leaves(children: Seq<Tree<N>>, upto: int) -> Seq<Tile<N>>
        decreases children, upto,
    {
        if 0 < upto <= children.len() {
            Self::forest_leaves(children, upto - 1) + children[upto - 1].leaves()
        } else {
            Seq::empty()
        }
    }

    /// The paths of the leaves, in the order of the leaves.
    pub open spec fn leaf_paths(self) -> Seq<Seq<usize>>
        decreases self, 0int,
    {
        match self {
            Tree::Leaf(_) => seq![Seq::empty()],
            Tree::Internal { children, .. } => Self::forest_paths(children, children.len() as int),
        }
    }

    /// The paths of the leaves below the first `upto` of some children.
    pub open spec fn forest_paths(children: Seq<Tree<N>>, upto: int) -> Seq<Seq<usize>>
        decreases children, upto,
    {
        if 0 < upto <= children.len() {
            Self::forest_paths(children, upto - 1) + prefixed(
                (upto - 1) as usize,
                children[upto - 1].leaf_paths(),
            )
        } else {
            Seq::empty()
        }
    }

    pub open spec fn has_path(self, path: Seq<usize>) -> bool
        decreases path.len(),
    {
        path.len() == 0 || match self {
            Tree::Leaf(_) => false,
            Tree::Internal { children, .. } => path[0] < children.len()
                && children[path[0] as int].has_path(path.skip(1)),
        }
    }

    pub open spec fn node(self, path: Seq<usize>) -> Tree<N>
        decreases path.len(),
    {
        if path.len() == 0 {
            self
        } else {
            match self {
                Tree::Leaf(_) => self,
                Tree::Internal { children, .. } => children[path[0] as int].node(path.skip(1)),
            }
        }
    }

    /// The tree with another node at the end of a path.
    pub open spec fn with_node(self, path: Seq<usize>, node: Tree<N>) -> Tree<N>
        decreases path.len(),
    {
        if path.len() == 0 {
            node
        } else {
            match self {
                Tree::Leaf(_) => self,
                Tree::Internal { layout, children, active_idx, data, header } => Tree::Internal {
                    layout,
                    children: children.update(
                        path[0] as int,
                        children[path[0] as int].with_node(path.skip(1), node),
                    ),
                    active_idx,
                    data,
                    header,
                },
            }
        }
    }

    /// What the parent at the end of a path without its last step keeps for the child of that
    /// step.
    pub open spec fn leaf_data(self, path: Seq<usize>) -> Option<SplitChildData<N>> {
        if path.len() == 0 {
            None
        } else {
            let data = self.node(path.drop_last()).child_data();
            if path.last() < data.len() {
                Some(data[path.last() as int])
            } else {
                None
            }
        }
    }

    /// The path of the leaf that is reached by following the active children.
    pub open spec fn active_path(self) -> Seq<usize>
        decreases self,
    {
        match self {
            Tree::Leaf(_) => Seq::empty(),
            Tree::Internal { children, active_idx, .. } => if active_idx < children.len() {
                seq![active_idx] + children[active_idx as int].active_path()
            } else {
                Seq::empty()
            },
        }
    }

    /// The tile that is reached by following the active children.
    pub open spec fn active_leaf(self) -> Tile<N>
        decreases self,
    {
        match self {
            Tree::Leaf(tile) => tile,
            Tree::Internal { children, active_idx, .. } => if active_idx < children.len() {
                children[active_idx as int].active_leaf()
            } else {
                arbitrary()
            },
        }
    }

    /// The index of the active leaf among the leaves.
    pub open spec fn active_leaf_idx(self) -> usize {
        match position_of(self.leaf_paths(), self.active_path()) {
            Some(i) => i,
            None => 0,
        }
    }

    /// The path of a leaf given by its index, if there is one.
    pub open spec fn path_for_leaf_index(self, idx: usize) -> Option<Seq<usize>> {
        if idx < self.leaf_paths().len() {
            Some(self.leaf_paths()[idx as int])
        } else {
            None
        }
    }
}

/// Paths that go through a child first.
pub open spec fn prefixed(child: usize, paths: Seq<Seq<usize>>) -> Seq<Seq<usize>> {
    Seq::new(paths.len(), |i: int| seq![child] + paths[i])
}

/// The index of the first path that equals a target, among the first `upto`.
pub open spec fn position_upto(
    paths: Seq<Seq<usize>>,
    target: Seq<usize>,
    upto: int,
) -> Option<usize>
    decreases upto,
{
    if upto <= 0 {
        None
    } else {
        match position_upto(paths, target, upto - 1) {
            Some(i) => Some(i),
            None => if paths[upto - 1] == target {
                Some((upto - 1) as usize)
            } else {
                None
            },
        }
    }
}

/// The index of the first path that equals a target.
pub open spec fn position_of(paths: Seq<Seq<usize>>, target: Seq<usize>) -> Option<usize> {
    position_upto(paths, target, paths.len() as int)
}

/// The paths in a vector of paths.
pub open spec fn path_views(paths: Seq<Vec<usize>>) -> Seq<Seq<usize>> {
    Seq::new(paths.len(), |i: int| paths[i]@)
}

/// A path that is looked for and present is found.
pub proof fn lemma_position_found(paths: Seq<Seq<usize>>, target: Seq<usize>, i: int, upto: int)
    requires
        0 <= i < upto <= paths.len(),
        paths.len() <= usize::MAX,
        paths[i] == target,
    ensures
        position_upto(paths, target, upto) is Some,
        position_upto(paths, target, upto)->0 < upto,
        paths[position_upto(paths, target, upto)->0 as int] == target,
    decreases upto,
{
    if i < upto - 1 {
        lemma_position_found(paths, target, i, upto - 1);
    } else {
        lemma_position_in_range(paths, target, upto - 1);
    }
}

/// What is found is in range and is what was looked for.
pub proof fn lemma_position_in_range(paths: Seq<Seq<usize>>, target: Seq<usize>, upto: int)
    requires
        0 <= upto <= paths.len(),
        paths.len() <= usize::MAX,
    ensures
        position_upto(paths, target, upto) matches Some(i) ==> i < upto && paths[i as int]
            == target,
        position_upto(paths, target, upto) is None ==> forall|j: int|
            0 <= j < upto ==> #[trigger] paths[j] != target,
    decreases upto,
{
    if upto > 0 {
        lemma_position_in_range(paths, target, upto - 1);
    }
}

/// Compares two paths.
pub fn paths_are_equal(a: &Vec<usize>, b: &Vec<usize>) -> (r: bool)
    ensures
        r == (a@ == b@),
{
    if a.len() != b.len() {
        return false;
    }
    let mut i: usize = 0;
    while i < a.len()
        invariant
            i <= a.len(),
            a.len() == b.len(),
            forall|j: int| 0 <= j < i ==> a@[j] == b@[j],
        decreases a.len() - i,
    {
        if a[i] != b[i] {
            assert(a@[i as int] != b@[i as int]);
            return false;
        }
        i = i + 1;
    }
    assert(a@ =~= b@);
    true
}

/// The first of some paths that equals a target.
pub fn find_path(paths: &Vec<Vec<usize>>, target: &Vec<usize>) -> (r: Option<usize>)
    ensures
        r == position_of(path_views(paths@), target@),
{
    let ghost views = path_views(paths@);
    let mut i: usize = 0;
    while i < paths.len()
        invariant
            i <= paths.len(),
            views == path_views(paths@),
            position_upto(views, target@, i as int) is None,
        decreases paths.len() - i,
    {
        if paths_are_equal(&paths[i], target) {
            proof {
                assert(views[i as int] == target@);
                lemma_position_stays(views, target@, i as int + 1, views.len() as int);
            }
            return Some(i);
        }
        i = i + 1;
    }
    None
}

proof fn lemma_position_stays(paths: Seq<Seq<usize>>, target: Seq<usize>, from: int, upto: int)
    requires
        0 <= from <= upto,
        position_upto(paths, target, from) is Some,
    ensures
        position_upto(paths, target, upto) == position_upto(paths, target, from),
    decreases upto - from,
{
    if from < upto {
        lemma_position_stays(paths, target, from, upto - 1);
    }
}

} // verus!
