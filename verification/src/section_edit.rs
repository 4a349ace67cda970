//! Adding, removing, focusing and moving tiles within a section.
use vstd::prelude::*;

use crate::animation::AnimationKind;
use crate::axis::AxisMap;
use crate::config::{LayoutOptions, Options, SplitAxis};
use crate::geometry::Point;
use crate::scalar::{num, Scalar};
use crate::section::{axis_of, lemma_section_tiles, Section, SectionProps, SectionView};
use crate::section_resize::{lemma_leaf_data_only, lemma_prefix};
use crate::section_size::{lemma_with_sizes, work, Work};
use crate::tab_header::{header_view, TabHeader, TabHeaderView};
use crate::tile::{Outbox, OutboxView, Tile, TileEffect};
use crate::tile_node::{Layout, SplitChildData, TileNode, Tree};
use crate::tree_edit::{
    lemma_activated_leaves, lemma_activated_wf, lemma_inserted_wf, lemma_leaf_swap_keeps_paths,
    lemma_without_leaf_sane,
};
use crate::tree_layout::lemma_sized;
use crate::tree_leaves::{
    lemma_inserted_leaves, lemma_leaves_before_child, lemma_leaves_before_leaf,
    lemma_node_at_replaced, lemma_subtree, lemma_without_leaf,
};
use crate::tree_simplify::{lemma_collapsed, lemma_forest_prefix, lemma_simplified_wf};
use crate::tree_walk::{
    join_paths, lemma_active_path, lemma_has_leaf, lemma_node_split, lemma_node_wf, lemma_parent,
    lemma_wf_is_sane, lemma_with_node_wf, path_prefix,
};
use crate::windows::{bag, ids, lemma_bag_concat, lemma_bag_update};

verus! {

/// The position noted first for a window among the first `upto` notes.
pub open spec fn noted_position<N>(
    notes: Seq<(u64, Point<N>)>,
    window: u64,
    upto: int,
) -> Option<Point<N>>
    decreases upto,
{
    if upto <= 0 {
        None
    } else {
        match noted_position(notes, window, upto - 1) {
            Some(pos) => Some(pos),
            None => if notes[upto - 1].0 == window {
                Some(notes[upto - 1].1)
            } else {
                None
            },
        }
    }
}

fn find_note<N: Scalar>(notes: &Vec<(u64, Point<N>)>, window: u64) -> (r: Option<Point<N>>)
    ensures
        r == noted_position(notes@, window, notes@.len() as int),
{
    let mut found: Option<Point<N>> = None;
    let mut i: usize = 0;
    while i < notes.len()
        invariant
            i <= notes.len(),
            found == noted_position(notes@, window, i as int),
        decreases notes.len() - i,
    {
        if found.is_none() && notes[i].0 == window {
            found = Some(notes[i].1);
        }
        i = i + 1;
    }
    found
}

/// The movements of the first `upto` tiles whose position is not what it was.
pub open spec fn move_effects<N: Scalar>(
    tiles: Seq<Tile<N>>,
    now: Seq<(u64, Point<N>)>,
    prev: Seq<(u64, Point<N>)>,
    upto: int,
) -> Seq<(u64, TileEffect<N>)>
    decreases upto,
{
    if upto <= 0 {
        Seq::empty()
    } else {
        let before = move_effects(tiles, now, prev, upto - 1);
        let window = tiles[upto - 1].id;
        match (
            noted_position(now, window, now.len() as int),
            noted_position(prev, window, prev.len() as int),
        ) {
            (Some(new_pos), Some(prev_pos)) => if new_pos.spec_same(prev_pos) {
                before
            } else {
                before.push(
                    (window, TileEffect::AnimateMoveFrom { delta: prev_pos - new_pos }),
                )
            },
            _ => before,
        }
    }
}

/// The step to the next (or previous) one.
pub open spec fn step(forwards: bool) -> int {
    if forwards {
        1
    } else {
        -1
    }
}

impl<N: Scalar> Tree<N> {
    /// The nearest place on a path, at most `upto` steps down, where there is a sibling in a
    /// direction along an axis: the number of steps to the parent, and the sibling.
    pub open spec fn sibling_along(
        self,
        path: Seq<usize>,
        axis: SplitAxis,
        forwards: bool,
        upto: int,
    ) -> Option<(int, usize)>
        decreases upto,
    {
        if upto <= 0 {
            None
        } else {
            let parent = self.node(path.take(upto - 1));
            let sibling = path[upto - 1] + step(forwards);
            if parent.layout() is Some && parent.layout()->0.arranges_along(axis) && 0 <= sibling
                < parent.child_count() {
                Some((upto - 1, sibling as usize))
            } else {
                self.sibling_along(path, axis, forwards, upto - 1)
            }
        }
    }

    /// The path of the leaf that focus moves to in a direction along an axis.
    pub open spec fn focus_target(self, axis: SplitAxis, forwards: bool) -> Option<Seq<usize>> {
        let path = self.active_path();
        match self.sibling_along(path, axis, forwards, path.len() as int) {
            Some((k, sibling)) => {
                let head = path.take(k).push(sibling);
                Some(head + self.node(head).active_path())
            },
            None => None,
        }
    }

    /// The tree brought into its simplest shape.
    pub open spec fn normalized(self) -> Self {
        self.simplified().collapsed()
    }

    /// A pair of a leaf and a new one in place of the leaf.
    pub open spec fn paired(
        layout: Layout,
        old: (Tree<N>, SplitChildData<N>),
        new: (Tree<N>, SplitChildData<N>),
        new_last: bool,
        activate: bool,
        header: Option<TabHeaderView<N>>,
    ) -> Self {
        let new_idx: usize = if new_last {
            1
        } else {
            0
        };
        Tree::Internal {
            layout,
            children: if new_last {
                seq![old.0, new.0]
            } else {
                seq![new.0, old.0]
            },
            active_idx: if activate {
                new_idx
            } else {
                (1 - new_idx) as usize
            },
            data: if new_last {
                seq![old.1, new.1]
            } else {
                seq![new.1, old.1]
            },
            header,
        }
    }

    /// A leaf added beside (or else as a tab with) the leaf at the end of a path: into its parent
    /// where that is arranged so, or else with the leaf in a node of their own. A tab is the active
    /// one of its tabs in any case. Also the path of the added leaf.
    pub open spec fn with_beside(
        self,
        path: Seq<usize>,
        layout: Layout,
        header: Option<TabHeaderView<N>>,
        new: (Tree<N>, SplitChildData<N>),
        place_after: bool,
        activate: bool,
    ) -> (Self, Seq<usize>) {
        let parent_path = path.drop_last();
        let parent = self.node(parent_path);
        let fits = if layout.spec_is_tabbing() {
            parent.is_tabbed()
        } else {
            parent.layout() == Some(layout)
        };
        if fits {
            let idx = path.last() + (if place_after {
                1int
            } else {
                0int
            });
            let active = parent.active_idx();
            let active = if layout.spec_is_tabbing() {
                idx as usize
            } else if !activate && active >= idx {
                (active + 1) as usize
            } else {
                active
            };
            (
                self.with_node(parent_path, parent.with_inserted(idx, new.0, new.1, active)),
                parent_path.push(idx as usize),
            )
        } else {
            (
                self.with_node(
                    path,
                    Self::paired(
                        layout,
                        (self.node(path), SplitChildData::spec_new_auto()),
                        new,
                        place_after,
                        activate || layout.spec_is_tabbing(),
                        header,
                    ),
                ),
                path.push(
                    if place_after {
                        1
                    } else {
                        0
                    },
                ),
            )
        }
    }
}

impl<N: Scalar> SectionView<N> {
    /// The positions of the tiles, noted by window.
    pub open spec fn positions_by_id(self, layout: LayoutOptions<N>) -> Seq<(u64, Point<N>)> {
        Seq::new(
            self.tiles().len(),
            |i: int| (self.tiles()[i].id, self.leaf_positions(layout)[i]),
        )
    }

    /// A tile told of the view of the section.
    pub open spec fn adopted(self, layout: LayoutOptions<N>, tile: Tile<N>) -> Tile<N> {
        tile.configured(axis_of(layout).spec_size(self.props.view_size), self.props.scale)
    }

    /// What is kept for a tile that comes into the section.
    pub open spec fn slot_for(self, layout: LayoutOptions<N>, tile: Tile<N>) -> SplitChildData<N> {
        SplitChildData::spec_new_auto().spec_update(tile, axis_of(layout))
    }

    /// The section without a tile.
    pub open spec fn without_tile(self, idx: usize) -> Self {
        self.with_root(self.root.without_leaf(self.root.leaf_paths()[idx as int]).normalized())
    }

    /// The tree, and the path of a tile added to it beside the tile `target_idx`.
    pub open spec fn root_with_beside(
        self,
        options: Options<N>,
        target_idx: usize,
        tile: Tile<N>,
        layout: Layout,
        place_after: bool,
        activate: bool,
    ) -> (Tree<N>, Seq<usize>) {
        let new = (Tree::Leaf(tile), self.slot_for(options.layout, tile));
        let header = if layout.spec_is_tabbing() {
            Some(TabHeaderView::fresh(options.layout.tab_header))
        } else {
            None
        };
        match self.root.path_for_leaf_index(target_idx) {
            Some(path) => self.root.with_beside(path, layout, header, new, place_after, activate),
            None => (
                self.root.with_inserted(
                    self.root.child_count() as int,
                    new.0,
                    new.1,
                    self.root.active_idx(),
                ),
                seq![self.root.child_count() as usize],
            ),
        }
    }

    /// The root of the section with a new row at a leaf position, and the index of that row. A
    /// single row of tiles side by side is wrapped, so that the new row is above or below it.
    pub open spec fn root_with_row(
        self,
        layout: LayoutOptions<N>,
        leaf_idx: usize,
        tile: Tile<N>,
        activate: bool,
    ) -> (Tree<N>, usize) {
        let new = (Tree::Leaf(tile), self.slot_for(layout, tile));
        if self.root.is_main_split() {
            (
                Tree::paired(
                    Layout::SplitV,
                    (self.root, SplitChildData::spec_new_auto()),
                    new,
                    leaf_idx != 0,
                    activate,
                    None,
                ),
                if leaf_idx == 0 {
                    0
                } else {
                    1
                },
            )
        } else {
            let idx = self.leaf_idx_to_root_child(leaf_idx);
            let active = self.root.active_idx();
            let active = if activate {
                idx
            } else if active >= idx {
                (active + 1) as usize
            } else {
                active
            };
            (self.root.with_inserted(idx as int, new.0, new.1, active), idx)
        }
    }

    /// The section once a window has changed.
    pub open spec fn with_changed_tile(
        self,
        layout: LayoutOptions<N>,
        idx: usize,
        tile: Tile<N>,
    ) -> Self {
        let path = self.root.leaf_paths()[idx as int];
        let root = self.root.with_node(path, Tree::Leaf(tile));
        match root.leaf_data(path) {
            Some(data) => self.with_root(
                root.with_leaf_data(path, data.spec_update(tile, axis_of(layout))),
            ),
            None => self.with_root(root),
        }
    }
}

impl<N: Scalar> Work<N> {
    pub open spec fn push(self, window: u64, effect: TileEffect<N>) -> Self {
        Work { out: self.out.push(window, effect), ..self }
    }

    pub open spec fn push_seq(self, effects: Seq<(u64, TileEffect<N>)>) -> Self {
        Work { out: OutboxView { effects: self.out.effects + effects, ..self.out }, ..self }
    }

    /// Movements of the tiles that are not where they were.
    pub open spec fn moved_from(
        self,
        layout: LayoutOptions<N>,
        prev: Seq<(u64, Point<N>)>,
    ) -> Self {
        self.push_seq(
            move_effects(
                self.section.tiles(),
                self.section.positions_by_id(layout),
                prev,
                self.section.tiles().len() as int,
            ),
        )
    }

    pub open spec fn activate_path(self, path: Seq<usize>) -> Self {
        self.with_section(self.section.with_root(self.section.root.activated(path))).push(
            self.section.root.node(path)->Leaf_0.id,
            TileEffect::EnsureAlphaAnimatesTo1,
        )
    }

    pub open spec fn activate_idx(self, idx: usize) -> Self {
        match self.section.root.path_for_leaf_index(idx) {
            Some(path) => self.activate_path(path),
            None => self,
        }
    }

    pub open spec fn focus_in_axis(self, axis: SplitAxis, forwards: bool) -> Self {
        match self.section.root.focus_target(axis, forwards) {
            Some(path) => self.activate_path(path),
            None => self,
        }
    }

    #[verifier::opaque]
    pub open spec fn swap_in_axis(
        self,
        options: Options<N>,
        axis: SplitAxis,
        forwards: bool,
    ) -> Self {
        let root = self.section.root;
        let path = root.active_path();
        match root.sibling_along(path, axis, forwards, path.len() as int) {
            Some((k, sibling)) => {
                let parent = root.node(path.take(k));
                let swapped = root.with_node(
                    path.take(k),
                    parent.with_swapped(path[k] as int, sibling as int).with_active_idx(sibling),
                );
                self.with_section(self.section.with_root(swapped)).push(
                    swapped.active_leaf().id,
                    TileEffect::EnsureAlphaAnimatesTo1,
                ).sized(options, true).moved_from(
                    options.layout,
                    self.section.positions_by_id(options.layout),
                )
            },
            None => self,
        }
    }

    pub open spec fn swap_leaves(self, options: Options<N>, a: usize, b: usize) -> Self {
        let root = self.section.root;
        let count = root.leaves().len();
        if a == b || a >= count || b >= count {
            self
        } else {
            self.with_section(
                self.section.with_root(
                    root.with_swapped_leaves(
                        root.leaf_paths()[a as int],
                        root.leaf_paths()[b as int],
                    ),
                ),
            ).sized(options, true).moved_from(
                options.layout,
                self.section.positions_by_id(options.layout),
            )
        }
    }

    /// What follows on a leaf that was added at the end of a path.
    pub open spec fn finished_adding(
        self,
        options: Options<N>,
        path: Seq<usize>,
        activate: bool,
        prev: Seq<(u64, Point<N>)>,
    ) -> Self {
        let active = if activate {
            self.activate_path(path)
        } else {
            self
        };
        active.with_section(active.section.with_root(active.section.root.normalized())).sized(
            options,
            true,
        ).moved_from(options.layout, prev)
    }

    /// A tile added beside another one, along a split or as a tab.
    #[verifier::opaque]
    pub open spec fn add_beside(
        self,
        options: Options<N>,
        target_idx: usize,
        tile: Tile<N>,
        layout: Layout,
        place_after: bool,
        activate: bool,
    ) -> Self {
        let tile = self.section.adopted(options.layout, tile);
        let (root, path) = self.section.root_with_beside(
            options,
            target_idx,
            tile,
            layout,
            place_after,
            activate,
        );
        self.with_section(self.section.with_root(root)).finished_adding(
            options,
            path,
            activate,
            self.section.positions_by_id(options.layout),
        )
    }

    /// A tile added as a new row at a leaf position.
    #[verifier::opaque]
    pub open spec fn add_tile_at(
        self,
        options: Options<N>,
        leaf_idx: usize,
        tile: Tile<N>,
        activate: bool,
    ) -> Self {
        let section = self.section;
        let tile = section.adopted(options.layout, tile);
        let (root, _) = section.root_with_row(options.layout, leaf_idx, tile, activate);
        let added = self.with_section(
            SectionView {
                root,
                props: if section.root.is_tabbed() {
                    section.props
                } else {
                    SectionProps {
                        is_pending_fullscreen: false,
                        is_pending_maximized: false,
                        ..section.props
                    }
                },
            },
        );
        let active = if activate {
            added.push(tile.id, TileEffect::EnsureAlphaAnimatesTo1)
        } else {
            added
        };
        active.sized(options, true).moved_from(
            options.layout,
            section.positions_by_id(options.layout),
        )
    }

    /// A tile changed, and the tiles after it moved along with it.
    #[verifier::opaque]
    pub open spec fn update_window(
        self,
        layout: LayoutOptions<N>,
        idx: usize,
        tile: Tile<N>,
    ) -> Self {
        let after = self.section.with_changed_tile(layout, idx, tile);
        let offset = self.section.leaf_size(idx).h - after.leaf_size(idx).h;
        let below = after.tiles().skip(idx + 1);
        let changed = self.with_section(after);
        if after.root.is_tabbed() || offset.spec_same(num::<N>(0)) {
            changed
        } else if tile.has_resize_animation {
            Work {
                out: changed.out.push_all(
                    below,
                    TileEffect::AnimateMoveYFrom {
                        delta: offset,
                        kind: AnimationKind::WindowResize,
                    },
                ),
                ..changed
            }
        } else {
            Work {
                out: changed.out.push_all(
                    below,
                    TileEffect::OffsetMoveYAnimCurrent { delta: offset },
                ),
                ..changed
            }
        }
    }
}

/// Where among `count` tiles a new one comes to stand beside the tile `target_idx`: right after it,
/// or right before it. Where there is no such tile, the new one comes last.
pub open spec fn beside_idx(count: int, target_idx: usize, place_after: bool) -> int {
    if target_idx >= count {
        count
    } else if place_after {
        target_idx + 1
    } else {
        target_idx as int
    }
}

/// Whether some tiles are others with one more among them, in the same order otherwise.
pub open spec fn inserted_among<N>(had: Seq<Tile<N>>, has: Seq<Tile<N>>, tile: Tile<N>) -> bool {
    exists|k: int| 0 <= k <= had.len() && has == #[trigger] had.insert(k, tile)
}

/// Whatever is done to a section, it is in order as long as its tree is.
pub proof fn lemma_normalized<N: Scalar>(tree: Tree<N>)
    requires
        tree.sane(),
        tree is Internal,
        0 < tree.leaves().len() <= usize::MAX,
    ensures
        tree.normalized().wf(),
        tree.normalized() is Internal,
        tree.normalized().leaves() == tree.leaves(),
{
    lemma_simplified_wf(tree);
    crate::tree_simplify::lemma_simplified(tree);
    lemma_collapsed(tree.simplified());
}

/// Swapping children keeps a node in order.
pub proof fn lemma_swapped_wf<N: Scalar>(node: Tree<N>, a: int, b: int, active: usize)
    requires
        node.wf(),
        node is Internal,
        0 <= a < node->children.len(),
        0 <= b < node->children.len(),
        active < node->children.len(),
    ensures
        node.with_swapped(a, b).with_active_idx(active).wf(),
{
    let new = node.with_swapped(a, b).with_active_idx(active);
    assert forall|i: int| 0 <= i < new->children.len() implies (#[trigger] new->children[i]).wf() by {
        let from = if i == b {
            a
        } else if i == a {
            b
        } else {
            i
        };
        assert(new->children[i] == node->children[from]);
    }
}

/// Swapping children keeps the number of leaves.
pub proof fn lemma_swapped_count<N: Scalar>(node: Tree<N>, a: int, b: int, active: usize)
    requires
        node is Internal,
        0 <= a < node->children.len(),
        0 <= b < node->children.len(),
    ensures
        node.with_swapped(a, b).with_active_idx(active).leaves().len() == node.leaves().len(),
{
    let c = node->children;
    let d = node.with_swapped(a, b).with_active_idx(active)->children;
    lemma_forest_sum(c, c.len() as int);
    lemma_forest_sum(d, d.len() as int);
    let counts = Seq::new(c.len(), |i: int| c[i].leaves().len() as int);
    let swapped = Seq::new(d.len(), |i: int| d[i].leaves().len() as int);
    lemma_sum_swapped(counts, a, b, counts.len() as int);
    assert(swapped =~= counts.update(a, counts[b]).update(b, counts[a]));
}

/// Swapping children keeps the windows of their leaves.
pub proof fn lemma_swapped_bag<N: Scalar>(node: Tree<N>, a: int, b: int, active: usize)
    requires
        node is Internal,
        0 <= a < node->children.len(),
        0 <= b < node->children.len(),
    ensures
        bag(node.with_swapped(a, b).with_active_idx(active).leaves()) == bag(node.leaves()),
{
    let c = node->children;
    let d = node.with_swapped(a, b).with_active_idx(active)->children;
    let n = c.len() as int;
    let x = bag(Tree::forest_leaves(d, n));
    let y = bag(Tree::forest_leaves(c, n));
    assert forall|w: u64| #[trigger] x.count(w) == y.count(w) by {
        lemma_forest_window_count(c, w, n);
        lemma_forest_window_count(d, w, n);
        let counts = Seq::new(c.len(), |i: int| bag(c[i].leaves()).count(w) as int);
        let swapped = Seq::new(d.len(), |i: int| bag(d[i].leaves()).count(w) as int);
        lemma_sum_swapped(counts, a, b, n);
        assert(swapped =~= counts.update(a, counts[b]).update(b, counts[a]));
    }
    assert(x =~= y);
}

proof fn lemma_forest_window_count<N>(children: Seq<Tree<N>>, window: u64, upto: int)
    requires
        0 <= upto <= children.len(),
    ensures
        bag(Tree::forest_leaves(children, upto)).count(window) == int_sum(
            Seq::new(children.len(), |i: int| bag(children[i].leaves()).count(window) as int),
            upto,
        ),
    decreases upto,
{
    if upto > 0 {
        lemma_forest_window_count(children, window, upto - 1);
        lemma_bag_concat(Tree::forest_leaves(children, upto - 1), children[upto - 1].leaves());
    } else {
        reveal(bag);
        assert(ids(Tree::forest_leaves(children, upto)) =~= Seq::<u64>::empty());
        ids(Tree::forest_leaves(children, upto)).to_multiset_ensures();
    }
}

spec fn int_sum(values: Seq<int>, upto: int) -> int
    decreases upto,
{
    if upto <= 0 {
        0
    } else {
        int_sum(values, upto - 1) + values[upto - 1]
    }
}

proof fn lemma_forest_sum<N>(children: Seq<Tree<N>>, upto: int)
    requires
        0 <= upto <= children.len(),
    ensures
        Tree::forest_leaves(children, upto).len() == int_sum(
            Seq::new(children.len(), |i: int| children[i].leaves().len() as int),
            upto,
        ),
    decreases upto,
{
    if upto > 0 {
        lemma_forest_sum(children, upto - 1);
    }
}

proof fn lemma_sum_swapped(values: Seq<int>, a: int, b: int, upto: int)
    requires
        0 <= a < values.len(),
        0 <= b < values.len(),
        0 <= upto <= values.len(),
    ensures
        int_sum(values.update(a, values[b]).update(b, values[a]), upto) == int_sum(values, upto)
            + (if a < upto {
            values[b] - values[a]
        } else {
            0
        }) + (if b < upto {
            values[a] - values[b]
        } else {
            0
        }),
    decreases upto,
{
    if upto > 0 {
        lemma_sum_swapped(values, a, b, upto - 1);
    }
}

/// What is found as a sibling is one.
pub proof fn lemma_sibling<N: Scalar>(
    tree: Tree<N>,
    path: Seq<usize>,
    axis: SplitAxis,
    forwards: bool,
    upto: int,
)
    requires
        tree.wf(),
        tree.has_path(path),
        0 <= upto <= path.len(),
    ensures
        tree.sibling_along(path, axis, forwards, upto) matches Some((k, sibling)) ==> {
            &&& 0 <= k < upto
            &&& tree.has_path(path.take(k))
            &&& tree.node(path.take(k)) is Internal
            &&& tree.node(path.take(k)).wf()
            &&& path[k] < tree.node(path.take(k))->children.len()
            &&& sibling < tree.node(path.take(k))->children.len()
            &&& tree.has_path(path.take(k).push(sibling))
        },
    decreases upto,
{
    if upto > 0 {
        lemma_prefix(tree, path, upto - 1);
        lemma_node_wf(tree, path.take(upto - 1));
        lemma_sibling(tree, path, axis, forwards, upto - 1);
        if let Some((k, sibling)) = tree.sibling_along(path, axis, forwards, upto) {
            if k == upto - 1 {
                lemma_extend(tree, path.take(k), sibling);
            }
        }
    }
}

/// A path goes on to any child of the node that it leads to.
pub proof fn lemma_extend<N>(tree: Tree<N>, path: Seq<usize>, child: usize)
    requires
        tree.has_path(path),
        tree.node(path) is Internal,
        child < tree.node(path)->children.len(),
    ensures
        tree.has_path(path.push(child)),
        tree.node(path.push(child)) == tree.node(path)->children[child as int],
{
    let tail = seq![child];
    assert(path.push(child) =~= path + tail);
    lemma_node_split(tree, path, tail);
    assert(tail.skip(1) =~= Seq::empty());
    let node = tree.node(path);
    assert(node->children[child as int].has_path(tail.skip(1)));
    assert(node.has_path(tail));
    assert(node->children[child as int].node(tail.skip(1)) == node->children[child as int]);
}

/// The path that focus moves to leads to a leaf.
proof fn lemma_focus_target<N: Scalar>(tree: Tree<N>, axis: SplitAxis, forwards: bool)
    requires
        tree.wf(),
    ensures
        tree.focus_target(axis, forwards) matches Some(path) ==> tree.has_path(path) && tree.node(
            path,
        ) is Leaf,
{
    let path = tree.active_path();
    lemma_active_path(tree);
    lemma_sibling(tree, path, axis, forwards, path.len() as int);
    if let Some((k, sibling)) = tree.sibling_along(path, axis, forwards, path.len() as int) {
        let head = path.take(k).push(sibling);
        lemma_node_wf(tree, head);
        lemma_active_path(tree.node(head));
        lemma_node_split(tree, head, tree.node(head).active_path());
    }
}

/// Exchanging two leaves keeps a tree in order.
pub proof fn lemma_leaf_swap_wf<N: Scalar>(tree: Tree<N>, a: Seq<usize>, b: Seq<usize>)
    requires
        tree.wf(),
        tree is Internal,
        tree.has_path(a),
        tree.has_path(b),
        tree.node(a) is Leaf,
        tree.node(b) is Leaf,
        a.len() > 0,
        b.len() > 0,
    ensures
        tree.with_swapped_leaves(a, b).wf(),
        tree.with_swapped_leaves(a, b) is Internal,
        tree.with_swapped_leaves(a, b).leaves().len() == tree.leaves().len(),
{
    let tile_a = tree.node(a)->Leaf_0;
    let tile_b = tree.node(b)->Leaf_0;
    let mid = tree.with_node(a, Tree::Leaf(tile_b));
    lemma_with_node_wf(tree, a, Tree::Leaf(tile_b));
    lemma_leaf_swap_keeps_paths(tree, a, tile_b);
    assert(mid.has_path(b));
    lemma_replaced_leaf(tree, a, tile_b, b);
    lemma_with_node_wf(mid, b, Tree::Leaf(tile_a));
    lemma_leaf_swap_keeps_paths(mid, b, tile_a);
    crate::tree_walk::lemma_wf_is_sane(tree);
    crate::tree_walk::lemma_leaf_paths(tree);
    let new = tree.with_swapped_leaves(a, b);
    crate::tree_walk::lemma_wf_is_sane(new);
    crate::tree_walk::lemma_leaf_paths(new);
}

/// Exchanging two leaves keeps the windows of a tree.
proof fn lemma_leaf_swap_bag<N: Scalar>(tree: Tree<N>, i: int, j: int)
    requires
        tree.wf(),
        0 <= i < tree.leaf_paths().len(),
        0 <= j < tree.leaf_paths().len(),
        i != j,
    ensures
        bag(tree.with_swapped_leaves(tree.leaf_paths()[i], tree.leaf_paths()[j]).leaves()) == bag(
            tree.leaves(),
        ),
{
    crate::tree_walk::lemma_wf_is_sane(tree);
    crate::tree_walk::lemma_leaf_paths(tree);
    let a = tree.leaf_paths()[i];
    let b = tree.leaf_paths()[j];
    let tile_a = tree.node(a)->Leaf_0;
    let tile_b = tree.node(b)->Leaf_0;
    let mid = tree.with_node(a, Tree::Leaf(tile_b));
    lemma_replaced_leaves(tree, i, tile_b);
    lemma_with_node_wf(tree, a, Tree::Leaf(tile_b));
    lemma_leaf_swap_keeps_paths(tree, a, tile_b);
    crate::tree_walk::lemma_wf_is_sane(mid);
    lemma_replaced_leaves(mid, j, tile_a);
    let tiles = tree.leaves();
    let between = tiles.update(i, tile_b);
    lemma_bag_update(tiles, i, tile_b);
    lemma_bag_update(between, j, tile_a);
    let x = bag(tiles);
    let y = bag(between);
    let z = bag(between.update(j, tile_a));
    assert(y.insert(tile_a.id) == x.insert(tile_b.id));
    assert(z.insert(tile_b.id) == y.insert(tile_a.id));
    assert forall|w: u64| #[trigger] z.count(w) == x.count(w) by {
        assert(z.insert(tile_b.id).count(w) == x.insert(tile_b.id).count(w));
    }
    assert(z =~= x);
}

/// Exchanging one leaf leaves other leaves leaves.
proof fn lemma_replaced_leaf<N>(tree: Tree<N>, a: Seq<usize>, tile: Tile<N>, b: Seq<usize>)
    requires
        tree.has_path(a),
        tree.has_path(b),
        tree.node(a) is Leaf,
        tree.node(b) is Leaf,
    ensures
        tree.with_node(a, Tree::Leaf(tile)).node(b) is Leaf,
    decreases a.len(),
{
    if a.len() > 0 && b.len() > 0 && a[0] == b[0] {
        lemma_replaced_leaf(tree->children[a[0] as int], a.skip(1), tile, b.skip(1));
    }
}

/// One more thing in the midst of others.
proof fn lemma_in_midst<T>(pre: Seq<T>, a: Seq<T>, b: Seq<T>, post: Seq<T>, thing: T)
    ensures
        pre + (a + seq![thing] + b) + post == (pre + (a + b) + post).insert(
            pre.len() + a.len() as int,
            thing,
        ),
{
    assert(pre + (a + seq![thing] + b) + post =~= (pre + (a + b) + post).insert(
        pre.len() + a.len() as int,
        thing,
    ));
}

/// A leaf added beside another one: the tree is in order, and the path leads to the leaf.
#[verifier::spinoff_prover]
#[verifier::rlimit(40)]
pub proof fn lemma_beside<N: Scalar>(
    tree: Tree<N>,
    path: Seq<usize>,
    layout: Layout,
    header: Option<TabHeaderView<N>>,
    tile: Tile<N>,
    slot: SplitChildData<N>,
    place_after: bool,
    activate: bool,
)
    requires
        tree.wf(),
        tree is Internal,
        tree.has_path(path),
        tree.node(path) is Leaf,
        path.len() > 0,
        tree.leaves().len() < usize::MAX,
        layout.spec_is_tabbing() ==> header is Some,
    ensures
        ({
            let (new, new_path) = tree.with_beside(
                path,
                layout,
                header,
                (Tree::Leaf(tile), slot),
                place_after,
                activate,
            );
            &&& new.wf()
            &&& new is Internal
            &&& new.has_path(new_path)
            &&& new.node(new_path) == Tree::Leaf(tile)
            &&& new_path.len() > 0
            &&& new.leaves().len() == tree.leaves().len() + 1
            &&& new.leaves() == tree.leaves().insert(
                tree.leaves_before_node(path) + (if place_after {
                    1int
                } else {
                    0int
                }),
                tile,
            )
            &&& inserted_among(tree.leaves(), new.leaves(), tile)
        }),
{
    let leaf = Tree::Leaf(tile);
    let parent_path = path.drop_last();
    lemma_parent(tree, path);
    lemma_leaves_before_child(tree, parent_path, path.last());
    assert(parent_path.push(path.last()) =~= path);
    lemma_node_wf(tree, parent_path);
    let parent = tree.node(parent_path);
    let (new, new_path) = tree.with_beside(
        path,
        layout,
        header,
        (leaf, slot),
        place_after,
        activate,
    );
    let fits = if layout.spec_is_tabbing() {
        parent.is_tabbed()
    } else {
        parent.layout() == Some(layout)
    };
    lemma_children_within(tree, parent_path);
    if fits {
        let idx = path.last() + (if place_after {
            1int
        } else {
            0int
        });
        let active = parent.active_idx();
        let active = if layout.spec_is_tabbing() {
            idx as usize
        } else if !activate && active >= idx {
            (active + 1) as usize
        } else {
            active
        };
        let node = parent.with_inserted(idx, leaf, slot, active);
        lemma_inserted_wf(parent, idx, leaf, slot, active);
        lemma_with_node_wf(tree, parent_path, node);
        lemma_inserted_leaves(parent, idx, leaf, slot, active);
        let (pre, post) = lemma_subtree(tree, parent_path);
        lemma_node_at_replaced(tree, parent_path, node);
        lemma_extend(new, parent_path, idx as usize);
        assert(new == tree.with_node(parent_path, node));
        assert(leaf.leaves() =~= seq![tile]);
        let a = Tree::forest_leaves(parent->children, idx);
        let b = Tree::forest_leaves(parent->children.skip(idx), parent->children.len() - idx);
        lemma_in_midst(pre, a, b, post, tile);
        assert(parent->children[path.last() as int] == tree.node(path)) by {
            lemma_extend(tree, parent_path, path.last());
        }
        assert(tree.node(path).leaves().len() == 1);
        assert(new.leaves() == tree.leaves().insert(pre.len() + a.len() as int, tile));
    } else {
        let node = Tree::paired(
            layout,
            (tree.node(path), SplitChildData::spec_new_auto()),
            (leaf, slot),
            place_after,
            activate || layout.spec_is_tabbing(),
            header,
        );
        lemma_pair(
            layout,
            (tree.node(path), SplitChildData::spec_new_auto()),
            (leaf, slot),
            place_after,
            activate || layout.spec_is_tabbing(),
            header,
        );
        lemma_with_node_wf(tree, path, node);
        let (pre, post) = lemma_subtree(tree, path);
        lemma_node_at_replaced(tree, path, node);
        let side: usize = if place_after {
            1
        } else {
            0
        };
        lemma_extend(new, path, side);
        assert(new == tree.with_node(path, node));
        assert(tree.node(path).leaves().len() == 1);
        assert(leaf.leaves() =~= seq![tile]);
        let old_leaf = tree.node(path).leaves();
        let none = Seq::<Tile<N>>::empty();
        assert(node.leaves() == if place_after {
            old_leaf + seq![tile]
        } else {
            seq![tile] + old_leaf
        });
        if place_after {
            lemma_in_midst(pre, old_leaf, none, post, tile);
            assert(old_leaf + seq![tile] + none =~= old_leaf + seq![tile]);
            assert(old_leaf + none =~= old_leaf);
        } else {
            lemma_in_midst(pre, none, old_leaf, post, tile);
            assert(none + seq![tile] + old_leaf =~= seq![tile] + old_leaf);
            assert(none + old_leaf =~= old_leaf);
        }
        assert(new.leaves() == tree.leaves().insert(pre.len() + side as int, tile));
    }
}

/// The children of a node are no more than the leaves of the tree.
pub proof fn lemma_children_within<N: Scalar>(tree: Tree<N>, path: Seq<usize>)
    requires
        tree.wf(),
        tree.has_path(path),
    ensures
        tree.node(path).child_count() <= tree.leaves().len(),
{
    lemma_node_wf(tree, path);
    let node = tree.node(path);
    let _ = lemma_subtree(tree, path);
    if let Tree::Internal { children, .. } = node {
        lemma_forest_count(children, children.len() as int);
    }
}

proof fn lemma_forest_count<N>(children: Seq<Tree<N>>, upto: int)
    requires
        0 <= upto <= children.len(),
        forall|i: int| 0 <= i < children.len() ==> (#[trigger] children[i]).wf(),
    ensures
        upto <= Tree::forest_leaves(children, upto).len(),
    decreases upto,
{
    if upto > 0 {
        lemma_forest_count(children, upto - 1);
        lemma_has_leaf(children[upto - 1]);
    }
}

/// A pair of nodes in order is in order.
proof fn lemma_pair<N: Scalar>(
    layout: Layout,
    old: (Tree<N>, SplitChildData<N>),
    new: (Tree<N>, SplitChildData<N>),
    new_last: bool,
    activate: bool,
    header: Option<TabHeaderView<N>>,
)
    requires
        old.0.wf(),
        new.0.wf(),
        layout.spec_is_tabbing() ==> header is Some,
    ensures
        Tree::paired(layout, old, new, new_last, activate, header).wf(),
        Tree::paired(layout, old, new, new_last, activate, header).leaves() == if new_last {
            old.0.leaves() + new.0.leaves()
        } else {
            new.0.leaves() + old.0.leaves()
        },
{
    let node = Tree::paired(layout, old, new, new_last, activate, header);
    let c = node->children;
    assert(Tree::forest_leaves(c, 0) =~= Seq::empty());
    assert(Tree::forest_leaves(c, 1) =~= c[0].leaves());
    assert(Tree::forest_leaves(c, 2) =~= c[0].leaves() + c[1].leaves());
}

/// A new row: the root is in order.
pub proof fn lemma_row<N: Scalar>(
    section: SectionView<N>,
    layout: LayoutOptions<N>,
    leaf_idx: usize,
    tile: Tile<N>,
    activate: bool,
)
    requires
        section.wf(),
        section.tiles().len() < usize::MAX,
    ensures
        ({
            let (root, idx) = section.root_with_row(layout, leaf_idx, tile, activate);
            &&& root.wf()
            &&& root is Internal
            &&& root.leaves().len() == section.tiles().len() + 1
            &&& inserted_among(section.tiles(), root.leaves(), tile)
            &&& idx < root->children.len()
            &&& Tree::forest_leaves(root->children, idx as int).len() <= section.tiles().len()
            &&& root.leaves() == section.tiles().insert(
                Tree::forest_leaves(root->children, idx as int).len() as int,
                tile,
            )
            &&& root->children[idx as int] == Tree::Leaf(tile)
        }),
{
    let leaf = Tree::Leaf(tile);
    let slot = section.slot_for(layout, tile);
    let (root, idx) = section.root_with_row(layout, leaf_idx, tile, activate);
    lemma_section_tiles(section, layout);
    lemma_children_within(section.root, Seq::empty());
    assert(leaf.leaves() =~= seq![tile]);
    if section.root.is_main_split() {
        lemma_pair(
            Layout::SplitV,
            (section.root, SplitChildData::spec_new_auto()),
            (leaf, slot),
            leaf_idx != 0,
            activate,
            None,
        );
        let k = if leaf_idx != 0 {
            section.tiles().len() as int
        } else {
            0
        };
        assert(root.leaves() =~= section.tiles().insert(k, tile));
        let c = root->children;
        assert(Tree::forest_leaves(c, 0) =~= Seq::empty());
        assert(Tree::forest_leaves(c, 1) =~= c[0].leaves());
    } else {
        let active = root.active_idx();
        lemma_forest_prefix(section.root->children, root->children, idx as int);
        lemma_inserted_wf(section.root, idx as int, leaf, slot, active);
        lemma_inserted_leaves(section.root, idx as int, leaf, slot, active);
        let k = Tree::forest_leaves(section.root->children, idx as int).len() as int;
        assert(root.leaves() =~= section.tiles().insert(k, tile));
    }
}

/// Requesting sizes keeps the leaves below each child of the root.
proof fn lemma_sized_children<N: Scalar>(
    section: SectionView<N>,
    options: Options<N>,
    upto: int,
)
    requires
        section.wf(),
        0 <= upto <= section.root->children.len(),
    ensures
        Tree::forest_leaves(section.with_sizes(options).root->children, upto)
            == Tree::forest_leaves(section.root->children, upto),
    decreases upto,
{
    if upto > 0 {
        lemma_sized_children(section, options, upto - 1);
        let layout = options.layout;
        let sizes = section.root.child_sizes(
            section.available_size(layout),
            section.measures(layout),
        );
        lemma_sized(
            section.root->children[upto - 1],
            sizes[upto - 1],
            section.measures(layout),
        );
    }
}

impl<N: Scalar> Section<N> {
    /// The positions of the tiles, noted by window, which survive changes of the tree.
    pub fn leaf_positions_by_id(&self, layout: &LayoutOptions<N>) -> (r: Vec<(u64, Point<N>)>)
        requires
            self@.wf(),
        ensures
            r@ == self@.positions_by_id(*layout),
    {
        let tiles = self.tiles();
        let positions = self.leaf_positions(layout);
        let mut notes: Vec<(u64, Point<N>)> = Vec::new();
        let mut i: usize = 0;
        while i < tiles.len()
            invariant
                i <= tiles.len(),
                tiles@ == self@.tiles(),
                positions@ == self@.leaf_positions(*layout),
                positions.len() == tiles.len(),
                notes.len() == i,
                forall|j: int| 0 <= j < i ==> notes@[j] == (tiles@[j].id, positions@[j]),
            decreases tiles.len() - i,
        {
            notes.push((tiles[i].id, positions[i]));
            i = i + 1;
        }
        assert(notes@ =~= self@.positions_by_id(*layout));
        notes
    }

    /// Moves the tiles that are not where they were from there to where they are.
    pub fn animate_leaves_if_moved(
        &self,
        layout: &LayoutOptions<N>,
        prev: &Vec<(u64, Point<N>)>,
        out: &mut Outbox<N>,
    )
        requires
            self@.wf(),
        ensures
            work(self@, final(out)@) == work(self@, old(out)@).moved_from(*layout, prev@),
    {
        let now = self.leaf_positions_by_id(layout);
        let tiles = self.tiles();
        let mut i: usize = 0;
        assert(old(out)@.effects + move_effects(tiles@, now@, prev@, 0) =~= old(out)@.effects);
        while i < tiles.len()
            invariant
                i <= tiles.len(),
                out@.transactions == old(out)@.transactions,
                out@.effects == old(out)@.effects + move_effects(tiles@, now@, prev@, i as int),
            decreases tiles.len() - i,
        {
            let window: u64 = tiles[i].id;
            let new_pos = find_note(&now, window);
            let prev_pos = find_note(prev, window);
            if let (Some(new_pos), Some(prev_pos)) = (new_pos, prev_pos) {
                if !new_pos.same(prev_pos) {
                    out.push(
                        window,
                        TileEffect::AnimateMoveFrom { delta: prev_pos.sub(new_pos) },
                    );
                }
            }
            assert(out@.effects =~= old(out)@.effects + move_effects(
                tiles@,
                now@,
                prev@,
                i as int + 1,
            ));
            i = i + 1;
        }
    }

    /// Brings the tree into its simplest shape: no empty nodes, no single children, no split
    /// directly inside of one along the same axis, and no root around a single node.
    pub fn normalize(&mut self)
        requires
            old(self)@.root.sane(),
            old(self)@.root is Internal,
            0 < old(self)@.root.leaves().len() <= usize::MAX,
        ensures
            final(self)@ == old(self)@.with_root(old(self)@.root.normalized()),
            final(self)@.wf(),
            final(self)@.place() == old(self)@.place(),
            final(self)@.tiles() == old(self)@.tiles(),
    {
        proof {
            lemma_normalized(self@.root);
        }
        self.root.simplify();
        self.root.collapse_root();
    }

    fn activate_leaf_path(&mut self, path: &Vec<usize>, out: &mut Outbox<N>) -> (r: bool)
        requires
            old(self)@.wf(),
            old(self)@.root.has_path(path@),
            old(self)@.root.node(path@) is Leaf,
        ensures
            work(final(self)@, final(out)@) == work(old(self)@, old(out)@).activate_path(path@),
            r == old(self)@.root.is_inactive_along(path@),
            final(self)@.wf(),
            final(self)@.place() == old(self)@.place(),
            final(self)@.tiles() == old(self)@.tiles(),
            final(self)@.root.leaf_paths() == old(self)@.root.leaf_paths(),
    {
        proof {
            lemma_activated_wf(self@.root, path@);
            lemma_activated_leaves(self@.root, path@);
        }
        let tile = self.root.leaf_at(path);
        let changed = self.root.activate_path(path);
        if let Some(tile) = tile {
            out.push(tile.id, TileEffect::EnsureAlphaAnimatesTo1);
        }
        changed
    }

    /// Activates a leaf by making every node on its path active. Tells whether anything changed.
    pub fn activate_idx(&mut self, idx: usize, out: &mut Outbox<N>) -> (r: bool)
        requires
            old(self)@.wf(),
        ensures
            work(final(self)@, final(out)@) == work(old(self)@, old(out)@).activate_idx(idx),
            r == match old(self)@.root.path_for_leaf_index(idx) {
                Some(path) => old(self)@.root.is_inactive_along(path),
                None => false,
            },
            final(self)@.wf(),
            final(self)@.place() == old(self)@.place(),
            final(self)@.tiles() == old(self)@.tiles(),
    {
        proof {
            crate::tree_walk::lemma_wf_is_sane(self@.root);
            crate::tree_walk::lemma_leaf_paths(self@.root);
        }
        match self.root.path_for_leaf_index(idx) {
            Some(path) => self.activate_leaf_path(&path, out),
            None => false,
        }
    }

    /// Activates the leaf that has a window.
    pub fn activate_window(&mut self, window: u64, out: &mut Outbox<N>)
        requires
            old(self)@.wf(),
            old(self)@.contains(window),
        ensures
            work(final(self)@, final(out)@) == work(old(self)@, old(out)@).activate_idx(
                old(self)@.position(window)->0,
            ),
            final(self)@.wf(),
            final(self)@.place() == old(self)@.place(),
            final(self)@.tiles() == old(self)@.tiles(),
    {
        if let Some(idx) = self.position(window) {
            self.activate_idx(idx, out);
        }
    }

    /// Moves focus to the adjacent leaf along an axis.
    ///
    /// Goes up from the active leaf to the nearest node that arranges its children along the axis
    /// and has a sibling in the direction, and down into what was last active of that sibling.
    /// Tells whether there was one.
    pub fn focus_in_axis(&mut self, axis: SplitAxis, forwards: bool, out: &mut Outbox<N>) -> (r:
        bool)
        requires
            old(self)@.wf(),
        ensures
            work(final(self)@, final(out)@) == work(old(self)@, old(out)@).focus_in_axis(
                axis,
                forwards,
            ),
            r == (old(self)@.root.focus_target(axis, forwards) is Some),
            final(self)@.wf(),
            final(self)@.place() == old(self)@.place(),
            final(self)@.tiles() == old(self)@.tiles(),
    {
        proof {
            lemma_active_path(self@.root);
            lemma_focus_target(self@.root, axis, forwards);
            lemma_sibling(
                self@.root,
                self@.root.active_path(),
                axis,
                forwards,
                self@.root.active_path().len() as int,
            );
        }
        let active_path = self.root.active_path();
        match self.sibling_along(&active_path, axis, forwards) {
            Some((k, sibling)) => {
                let mut head = path_prefix(&active_path, k);
                head.push(sibling);
                let below = self.root.node_at(&head).active_path();
                let path = join_paths(&head, &below);
                self.activate_leaf_path(&path, out);
                true
            },
            None => false,
        }
    }

    /// The nearest place on a path where there is a sibling in a direction along an axis.
    fn sibling_along(&self, path: &Vec<usize>, axis: SplitAxis, forwards: bool) -> (r: Option<
        (usize, usize),
    >)
        requires
            self@.wf(),
            self@.root.has_path(path@),
        ensures
            match r {
                Some((k, sibling)) => self@.root.sibling_along(
                    path@,
                    axis,
                    forwards,
                    path@.len() as int,
                ) == Some((k as int, sibling)),
                None => self@.root.sibling_along(path@, axis, forwards, path@.len() as int)
                    is None,
            },
    {
        let mut k: usize = path.len();
        while k > 0
            invariant
                k <= path.len(),
                self@.wf(),
                self@.root.has_path(path@),
                self@.root.sibling_along(path@, axis, forwards, path@.len() as int)
                    == self@.root.sibling_along(path@, axis, forwards, k as int),
            decreases k,
        {
            proof {
                lemma_prefix(self@.root, path@, k - 1);
            }
            let above = path_prefix(path, k - 1);
            let parent = self.root.node_at(&above);
            let child: usize = path[k - 1];
            if let Some(layout) = parent.layout() {
                if layout.is_along(axis) {
                    if forwards && child < parent.child_count() - 1 {
                        return Some((k - 1, child + 1));
                    }
                    if !forwards && child > 0 {
                        return Some((k - 1, child - 1));
                    }
                }
            }
            k = k - 1;
        }
        None
    }

    /// Swaps what is active with its adjacent sibling along an axis. Tells whether there was one.
    pub fn swap_in_axis(
        &mut self,
        options: &Options<N>,
        axis: SplitAxis,
        forwards: bool,
        out: &mut Outbox<N>,
    ) -> (r: bool)
        requires
            old(self)@.wf(),
        ensures
            work(final(self)@, final(out)@) == work(old(self)@, old(out)@).swap_in_axis(
                *options,
                axis,
                forwards,
            ),
            r == (old(self)@.root.sibling_along(
                old(self)@.root.active_path(),
                axis,
                forwards,
                old(self)@.root.active_path().len() as int,
            ) is Some),
            final(self)@.wf(),
            final(self)@.place() == old(self)@.place(),
            final(self)@.windows() == old(self)@.windows(),
    {
        reveal(Work::swap_in_axis);
        let ghost before = self@;
        let active_path = self.root.active_path();
        proof {
            lemma_active_path(before.root);
            lemma_sibling(
                before.root,
                active_path@,
                axis,
                forwards,
                active_path@.len() as int,
            );
        }
        match self.sibling_along(&active_path, axis, forwards) {
            Some((k, sibling)) => {
                let prev = self.leaf_positions_by_id(&options.layout);
                let above = path_prefix(&active_path, k);
                let child: usize = active_path[k];
                let parent = self.root.node_at_mut(&above);
                parent.swap_leaves(child, sibling);
                parent.set_active_idx(sibling);
                proof {
                    let node = before.root.node(above@);
                    lemma_swapped_wf(node, child as int, sibling as int, sibling);
                    lemma_swapped_count(node, child as int, sibling as int, sibling);
                    let new = node.with_swapped(child as int, sibling as int).with_active_idx(
                        sibling,
                    );
                    lemma_with_node_wf(before.root, above@, new);
                    let (head, tail) = lemma_subtree(before.root, above@);
                    assert(self@.root == before.root.with_node(above@, new));
                    assert(self@.root.leaves().len() == before.root.leaves().len());
                    lemma_swapped_bag(node, child as int, sibling as int, sibling);
                    lemma_bag_concat(head + new.leaves(), tail);
                    lemma_bag_concat(head, new.leaves());
                    lemma_bag_concat(head + node.leaves(), tail);
                    lemma_bag_concat(head, node.leaves());
                }
                let active = self.active_tile();
                out.push(active.id, TileEffect::EnsureAlphaAnimatesTo1);
                self.update_tile_sizes(options, true, out);
                self.animate_leaves_if_moved(&options.layout, &prev, out);
                true
            },
            None => false,
        }
    }

    /// Exchanges two windows: each takes the place of the other, and everything around them stays.
    /// Nothing happens where there is no such pair.
    pub fn swap_leaves_by_flat_idx(
        &mut self,
        options: &Options<N>,
        a: usize,
        b: usize,
        out: &mut Outbox<N>,
    )
        requires
            old(self)@.wf(),
        ensures
            work(final(self)@, final(out)@) == work(old(self)@, old(out)@).swap_leaves(
                *options,
                a,
                b,
            ),
            final(self)@.wf(),
            final(self)@.place() == old(self)@.place(),
            final(self)@.windows() == old(self)@.windows(),
    {
        let ghost before = self@;
        proof {
            lemma_section_tiles(before, options.layout);
        }
        if a == b {
            return;
        }
        if let (Some(pa), Some(pb)) = (
            self.root.path_for_leaf_index(a),
            self.root.path_for_leaf_index(b),
        ) {
            let prev = self.leaf_positions_by_id(&options.layout);
            self.root.swap_leaf_contents(&pa, &pb);
            proof {
                lemma_leaf_swap_wf(before.root, pa@, pb@);
                lemma_leaf_swap_bag(before.root, a as int, b as int);
            }
            self.update_tile_sizes(options, true, out);
            self.animate_leaves_if_moved(&options.layout, &prev, out);
        }
    }

    pub fn focus_index(&mut self, index: u8, out: &mut Outbox<N>)
        requires
            old(self)@.wf(),
        ensures
            work(final(self)@, final(out)@) == work(old(self)@, old(out)@).activate_idx(
                focused_index(index, old(self)@.tiles().len() as int),
            ),
            final(self)@.wf(),
            final(self)@.place() == old(self)@.place(),
            final(self)@.tiles() == old(self)@.tiles(),
    {
        proof {
            crate::tree_walk::lemma_has_leaf(self@.root);
        }
        let wanted: usize = if index == 0 {
            0
        } else {
            (index - 1) as usize
        };
        let last: usize = self.tiles_len() - 1;
        let idx: usize = if wanted < last {
            wanted
        } else {
            last
        };
        self.activate_idx(idx, out);
    }

    /// Takes a tile out of a section that has others.
    pub fn remove_tile(&mut self, idx: usize) -> (r: Tile<N>)
        requires
            old(self)@.wf(),
            idx < old(self)@.tiles().len(),
            old(self)@.tiles().len() > 1,
        ensures
            final(self)@ == old(self)@.without_tile(idx),
            r == old(self)@.tiles()[idx as int],
            final(self)@.wf(),
            final(self)@.place() == old(self)@.place(),
            final(self)@.tiles() == old(self)@.tiles().remove(idx as int),
    {
        let ghost before = self@;
        let tile = self.tile(idx);
        proof {
            crate::tree_walk::lemma_wf_is_sane(before.root);
            crate::tree_walk::lemma_leaf_paths(before.root);
            lemma_without_leaf(before.root, idx as int);
            lemma_without_leaf_sane(before.root, before.root.leaf_paths()[idx as int]);
        }
        if let Some(path) = self.root.path_for_leaf_index(idx) {
            self.root.remove_leaf(&path);
            assert(self@.root is Internal) by {
                let p = before.root.leaf_paths()[idx as int];
                lemma_parent(before.root, p);
            }
            self.normalize();
        }
        tile
    }

    /// The tile told of the view of the section.
    fn adopt(&self, layout: &LayoutOptions<N>, tile: Tile<N>) -> (r: Tile<N>)
        ensures
            r == self@.adopted(*layout, tile),
    {
        let mut tile = tile;
        tile.view_size = AxisMap::new(layout.main_axis).size_out(self.props.view_size);
        tile.scale = self.props.scale;
        tile
    }

    fn slot_for(&self, layout: &LayoutOptions<N>, tile: &Tile<N>) -> (r: SplitChildData<N>)
        ensures
            r == self@.slot_for(*layout, *tile),
    {
        let mut slot = SplitChildData::new_auto();
        slot.update(tile, AxisMap::new(layout.main_axis));
        slot
    }

    /// Adds a tile beside another one, along a split or as a tab.
    #[verifier::spinoff_prover]
    #[verifier::rlimit(60)]
    pub(crate) fn add_beside(
        &mut self,
        options: &Options<N>,
        target_idx: usize,
        tile: Tile<N>,
        layout: Layout,
        place_after: bool,
        activate: bool,
        out: &mut Outbox<N>,
    )
        requires
            old(self)@.wf(),
            old(self)@.tiles().len() < usize::MAX,
        ensures
            work(final(self)@, final(out)@) == work(old(self)@, old(out)@).add_beside(
                *options,
                target_idx,
                tile,
                layout,
                place_after,
                activate,
            ),
            final(self)@.wf(),
            final(self)@.place() == old(self)@.place(),
            final(self)@.tiles() == old(self)@.tiles().insert(
                beside_idx(old(self)@.tiles().len() as int, target_idx, place_after),
                old(self)@.adopted(options.layout, tile),
            ),
            inserted_among(
                old(self)@.tiles(),
                final(self)@.tiles(),
                old(self)@.adopted(options.layout, tile),
            ),
    {
        reveal(Work::add_beside);
        let ghost before = self@;
        let tile = self.adopt(&options.layout, tile);
        let prev = self.leaf_positions_by_id(&options.layout);
        let slot = self.slot_for(&options.layout, &tile);
        proof {
            lemma_section_tiles(before, options.layout);
            lemma_children_within(before.root, Seq::empty());
        }
        let ghost header = if layout.spec_is_tabbing() {
            Some(TabHeaderView::fresh(options.layout.tab_header))
        } else {
            None
        };
        let new_path: Vec<usize>;
        match self.root.path_for_leaf_index(target_idx) {
            Some(path) => {
                proof {
                    lemma_wf_is_sane(before.root);
                    lemma_leaves_before_leaf(before.root, target_idx as int);
                    lemma_beside(
                        before.root,
                        path@,
                        layout,
                        header,
                        tile,
                        slot,
                        place_after,
                        activate,
                    );
                    lemma_parent(before.root, path@);
                    lemma_node_wf(before.root, path@.drop_last());
                    lemma_children_within(before.root, path@.drop_last());
                }
                let parent_path = path_prefix(&path, path.len() - 1);
                assert(parent_path@ =~= path@.drop_last());
                let child: usize = path[path.len() - 1];
                let parent = self.root.node_at(&parent_path);
                let fits = if layout.is_tabbing() {
                    parent.is_tabbed()
                } else {
                    match parent.layout() {
                        Some(own) => own == layout,
                        None => false,
                    }
                };
                if fits {
                    let idx: usize = if place_after {
                        child + 1
                    } else {
                        child
                    };
                    let active: usize = parent.active_idx();
                    let active: usize = if layout.is_tabbing() {
                        idx
                    } else if !activate && active >= idx {
                        active + 1
                    } else {
                        active
                    };
                    self.root.node_at_mut(&parent_path).insert_leaf(idx, tile, slot, active);
                    let mut leaf_path = parent_path;
                    leaf_path.push(idx);
                    new_path = leaf_path;
                } else {
                    let old_tile = match self.root.leaf_at(&path) {
                        Some(old_tile) => old_tile,
                        None => tile,
                    };
                    let tab_header = if layout.is_tabbing() {
                        Some(TabHeader::new(options.layout.tab_header))
                    } else {
                        None
                    };
                    assert(header_view(tab_header) == header);
                    let old_child = (TileNode::Leaf(old_tile), SplitChildData::new_auto());
                    let new_child = (TileNode::Leaf(tile), slot);
                    let new_idx: usize = if place_after {
                        1
                    } else {
                        0
                    };
                    let active: usize = if activate || layout.is_tabbing() {
                        new_idx
                    } else {
                        1 - new_idx
                    };
                    let pair = if place_after {
                        TileNode::pair(layout, old_child, new_child, active, tab_header)
                    } else {
                        TileNode::pair(layout, new_child, old_child, active, tab_header)
                    };
                    let node = self.root.node_at_mut(&path);
                    *node = pair;
                    let mut leaf_path = path;
                    leaf_path.push(new_idx);
                    new_path = leaf_path;
                }
            },
            None => {
                // The target is not there; append at the root so that the tile is not lost.
                let idx: usize = self.root.child_count();
                let active: usize = self.root.active_idx();
                let ghost leaf = Tree::Leaf(tile);
                proof {
                    lemma_inserted_wf(before.root, idx as int, leaf, slot, active);
                    lemma_inserted_leaves(before.root, idx as int, leaf, slot, active);
                    assert(leaf.leaves() =~= seq![tile]);
                    let new = before.root.with_inserted(idx as int, leaf, slot, active);
                    let k = Tree::forest_leaves(before.root->children, idx as int).len() as int;
                    assert(new.leaves() =~= before.tiles().insert(k, tile));
                    assert(new.has_path(Seq::empty()));
                    lemma_extend(new, Seq::empty(), idx);
                    assert(Seq::<usize>::empty().push(idx) =~= seq![idx]);
                }
                self.root.insert_leaf(idx, tile, slot, active);
                let mut leaf_path: Vec<usize> = Vec::new();
                leaf_path.push(idx);
                assert(leaf_path@ =~= seq![idx]);
                new_path = leaf_path;
            },
        }
        assert(self@.with_root(self@.root) == before.with_root(self@.root));
        assert((self@.root, new_path@) == before.root_with_beside(
            *options,
            target_idx,
            tile,
            layout,
            place_after,
            activate,
        ));
        if activate {
            self.activate_leaf_path(&new_path, out);
        }
        proof {
            crate::tree_walk::lemma_wf_is_sane(self@.root);
        }
        self.normalize();
        let ghost normal = self@;
        self.update_tile_sizes(options, true, out);
        proof {
            lemma_with_sizes(normal, *options);
        }
        self.animate_leaves_if_moved(&options.layout, &prev, out);
    }

    /// Adds a tile as a split child of the tile at `target_idx`, on the side that `place_after`
    /// tells: into the split that the target is in where that runs along the axis, or else with
    /// the target in a split of their own.
    pub fn add_tile_to_split(
        &mut self,
        options: &Options<N>,
        target_idx: usize,
        tile: Tile<N>,
        axis: SplitAxis,
        place_after: bool,
        activate: bool,
        out: &mut Outbox<N>,
    )
        requires
            old(self)@.wf(),
            old(self)@.tiles().len() < usize::MAX,
        ensures
            work(final(self)@, final(out)@) == work(old(self)@, old(out)@).add_beside(
                *options,
                target_idx,
                tile,
                Layout::spec_for_axis(axis),
                place_after,
                activate,
            ),
            final(self)@.wf(),
            final(self)@.place() == old(self)@.place(),
            final(self)@.tiles() == old(self)@.tiles().insert(
                beside_idx(old(self)@.tiles().len() as int, target_idx, place_after),
                old(self)@.adopted(options.layout, tile),
            ),
            inserted_among(
                old(self)@.tiles(),
                final(self)@.tiles(),
                old(self)@.adopted(options.layout, tile),
            ),
    {
        let layout = Layout::split_for_axis(axis);
        self.add_beside(options, target_idx, tile, layout, place_after, activate, out);
    }

    /// Groups a tile into tabs with the tile at `target_idx`: into the tabs that the target is
    /// among, right after it, or else with the target into tabs of their own. The new tile becomes
    /// the active tab there; whether those tabs are made active too is what `activate` tells.
    pub fn add_tile_as_tab(
        &mut self,
        options: &Options<N>,
        target_idx: usize,
        tile: Tile<N>,
        activate: bool,
        out: &mut Outbox<N>,
    )
        requires
            old(self)@.wf(),
            old(self)@.tiles().len() < usize::MAX,
        ensures
            work(final(self)@, final(out)@) == work(old(self)@, old(out)@).add_beside(
                *options,
                target_idx,
                tile,
                Layout::Tabbed,
                true,
                activate,
            ),
            final(self)@.wf(),
            final(self)@.place() == old(self)@.place(),
            final(self)@.tiles() == old(self)@.tiles().insert(
                beside_idx(old(self)@.tiles().len() as int, target_idx, true),
                old(self)@.adopted(options.layout, tile),
            ),
            inserted_among(
                old(self)@.tiles(),
                final(self)@.tiles(),
                old(self)@.adopted(options.layout, tile),
            ),
            target_idx < old(self)@.tiles().len() ==> final(self)@.root.groups(
                old(self)@.tiles()[target_idx as int],
                old(self)@.adopted(options.layout, tile),
            ),
    {
        proof {
            if target_idx < self@.tiles().len() {
                crate::section_laws::law_grouped_tile_is_the_active_tab(
                    work(self@, out@),
                    *options,
                    target_idx,
                    tile,
                    activate,
                );
            }
        }
        self.add_beside(options, target_idx, tile, Layout::Tabbed, true, activate, out);
    }

    /// Inserts a tile as a new row of the section at a leaf position. A section that is a single
    /// row gets the tile above or below it. Gives the leaf index of the tile.
    pub fn add_tile_at(
        &mut self,
        options: &Options<N>,
        leaf_idx: usize,
        tile: Tile<N>,
        activate: bool,
        out: &mut Outbox<N>,
    ) -> (r: usize)
        requires
            old(self)@.wf(),
            old(self)@.tiles().len() < usize::MAX,
        ensures
            work(final(self)@, final(out)@) == work(old(self)@, old(out)@).add_tile_at(
                *options,
                leaf_idx,
                tile,
                activate,
            ),
            r == final(self)@.leaves_before(
                old(self)@.root_with_row(
                    options.layout,
                    leaf_idx,
                    old(self)@.adopted(options.layout, tile),
                    activate,
                ).1 as int,
            ),
            final(self)@.wf(),
            final(self)@.place() == old(self)@.place(),
            final(self)@.tiles() == old(self)@.tiles().insert(
                r as int,
                old(self)@.adopted(options.layout, tile),
            ),
            inserted_among(
                old(self)@.tiles(),
                final(self)@.tiles(),
                old(self)@.adopted(options.layout, tile),
            ),
            r <= old(self)@.tiles().len(),
    {
        reveal(Work::add_tile_at);
        let ghost before = self@;
        let tile = self.adopt(&options.layout, tile);
        let prev = self.leaf_positions_by_id(&options.layout);
        if !self.is_tabbed() {
            self.props.is_pending_fullscreen = false;
            self.props.is_pending_maximized = false;
        }
        let slot = self.slot_for(&options.layout, &tile);
        proof {
            lemma_row(before, options.layout, leaf_idx, tile, activate);
            lemma_section_tiles(before, options.layout);
            lemma_children_within(before.root, Seq::empty());
        }
        let new_root_idx: usize;
        if self.root.is_main_split() {
            let mut root = TileNode::Leaf(tile);
            std::mem::swap(&mut root, &mut self.root);
            let old_child = (root, SplitChildData::new_auto());
            let new_child = (TileNode::Leaf(tile), slot);
            new_root_idx = if leaf_idx == 0 {
                0
            } else {
                1
            };
            let active: usize = if activate {
                new_root_idx
            } else {
                1 - new_root_idx
            };
            self.root = if leaf_idx == 0 {
                TileNode::pair(Layout::SplitV, new_child, old_child, active, None)
            } else {
                TileNode::pair(Layout::SplitV, old_child, new_child, active, None)
            };
        } else {
            let idx: usize = self.leaf_idx_to_root_child(leaf_idx);
            let active: usize = self.root.active_idx();
            let active: usize = if activate {
                idx
            } else if active >= idx {
                active + 1
            } else {
                active
            };
            self.root.insert_leaf(idx, tile, slot, active);
            new_root_idx = idx;
        }
        assert((self@.root, new_root_idx) == before.root_with_row(
            options.layout,
            leaf_idx,
            tile,
            activate,
        ));
        if activate {
            out.push(tile.id, TileEffect::EnsureAlphaAnimatesTo1);
        }
        let ghost added = self@;
        self.update_tile_sizes(options, true, out);
        proof {
            lemma_with_sizes(added, *options);
            lemma_sized_children(added, *options, new_root_idx as int);
        }
        self.animate_leaves_if_moved(&options.layout, &prev, out);
        proof {
            let children = self@.root->children;
            crate::tree_leaves::lemma_forest_parts(children, new_root_idx as int);
            lemma_node_wf(self@.root, Seq::empty());
            lemma_has_leaf(children[new_root_idx as int]);
        }
        self.root_child_first_leaf_idx(new_root_idx)
    }

    /// Takes over what changed of a window, and moves the tiles below in tandem.
    pub fn update_window(
        &mut self,
        layout: &LayoutOptions<N>,
        tile_idx: usize,
        tile: Tile<N>,
        out: &mut Outbox<N>,
    )
        requires
            old(self)@.wf(),
            tile_idx < old(self)@.tiles().len(),
        ensures
            work(final(self)@, final(out)@) == work(old(self)@, old(out)@).update_window(
                *layout,
                tile_idx,
                tile,
            ),
            final(self)@.wf(),
            final(self)@.place() == old(self)@.place(),
            final(self)@.tiles().len() == old(self)@.tiles().len(),
            final(self)@.tiles() == old(self)@.tiles().update(tile_idx as int, tile),
    {
        reveal(Work::update_window);
        let ghost before = self@;
        let prev_height = self.leaf_size(tile_idx).h;
        proof {
            lemma_section_tiles(before, *layout);
            lemma_changed_tile(before, *layout, tile_idx, tile);
        }
        if let Some(path) = self.root.path_for_leaf_index(tile_idx) {
            self.root.set_leaf(&path, tile);
            assert(self@.root.has_path(path@));
            if let Some(data) = self.root.leaf_data(&path) {
                let mut data = data;
                data.update(&tile, AxisMap::new(layout.main_axis));
                self.root.set_leaf_data(&path, data);
            }
        }
        assert(self@ == before.with_changed_tile(*layout, tile_idx, tile));
        let offset = prev_height.sub(self.leaf_size(tile_idx).h);
        if !self.is_tabbed() && !offset.same(N::of_int(0)) {
            let tiles = self.tiles();
            let mut below: Vec<Tile<N>> = Vec::new();
            let mut i: usize = tile_idx + 1;
            while i < tiles.len()
                invariant
                    tile_idx < i <= tiles.len(),
                    below@ == tiles@.subrange(tile_idx + 1, i as int),
                decreases tiles.len() - i,
            {
                below.push(tiles[i]);
                assert(below@ =~= tiles@.subrange(tile_idx + 1, i + 1));
                i = i + 1;
            }
            assert(below@ =~= tiles@.skip(tile_idx + 1));
            if tile.has_resize_animation {
                out.push_all(
                    &below,
                    TileEffect::AnimateMoveYFrom {
                        delta: offset,
                        kind: AnimationKind::WindowResize,
                    },
                );
            } else {
                out.push_all(&below, TileEffect::OffsetMoveYAnimCurrent { delta: offset });
            }
        }
    }
}

/// The leaf index that a one-based number stands for, kept within the leaves.
pub open spec fn focused_index(index: u8, count: int) -> usize {
    let wanted = if index == 0 {
        0int
    } else {
        index - 1
    };
    (if wanted < count - 1 {
        wanted
    } else {
        count - 1
    }) as usize
}

/// A changed tile leaves a section in order.
pub proof fn lemma_changed_tile<N: Scalar>(
    section: SectionView<N>,
    layout: LayoutOptions<N>,
    idx: usize,
    tile: Tile<N>,
)
    requires
        section.wf(),
        idx < section.tiles().len(),
    ensures
        section.with_changed_tile(layout, idx, tile).wf(),
        section.with_changed_tile(layout, idx, tile).tiles() == section.tiles().update(
            idx as int,
            tile,
        ),
        section.with_changed_tile(layout, idx, tile).root.leaf_paths()
            == section.root.leaf_paths(),
        section.with_changed_tile(layout, idx, tile).props == section.props,
        ({
            let path = section.root.leaf_paths()[idx as int];
            let root = section.root.with_node(path, Tree::Leaf(tile));
            root.wf() && root.has_path(path)
        }),
{
    lemma_section_tiles(section, layout);
    let path = section.root.leaf_paths()[idx as int];
    let leaf = Tree::Leaf(tile);
    let root = section.root.with_node(path, leaf);
    lemma_with_node_wf(section.root, path, leaf);
    lemma_leaf_swap_keeps_paths(section.root, path, tile);
    lemma_node_at_replaced(section.root, path, leaf);
    lemma_wf_is_sane(section.root);
    lemma_replaced_leaves(section.root, idx as int, tile);
    lemma_wf_is_sane(root);
    crate::tree_walk::lemma_leaf_paths(root);
    if let Some(data) = root.leaf_data(path) {
        lemma_leaf_data_only(root, path, data.spec_update(tile, axis_of(layout)));
    }
}

/// Exchanging the tile of a leaf exchanges it among the tiles, and nothing else.
pub proof fn lemma_replaced_leaves<N: Scalar>(tree: Tree<N>, i: int, tile: Tile<N>)
    requires
        tree.sane(),
        0 <= i < tree.leaf_paths().len(),
    ensures
        tree.with_node(tree.leaf_paths()[i], Tree::Leaf(tile)).leaves() == tree.leaves().update(
            i,
            tile,
        ),
    decreases tree,
{
    match tree {
        Tree::Leaf(_) => {
            assert(tree.leaf_paths()[0].len() == 0);
            assert(tree.leaves().update(0, tile) =~= seq![tile]);
        },
        Tree::Internal { children, .. } => {
            let n = children.len() as int;
            assert forall|k: int| 0 <= k < children.len() implies (#[trigger] children[k]).leaf_paths().len()
                == children[k].leaves().len() by {
                crate::tree_walk::lemma_leaf_paths(children[k]);
            }
            let (c, j) = crate::tree_leaves::lemma_find_child(children, i, n);
            let child = children[c];
            let path = tree.leaf_paths()[i];
            let below = child.leaf_paths()[j];
            assert(path == seq![c as usize] + below);
            assert(path.skip(1) =~= below);
            lemma_replaced_leaves(child, j, tile);
            let new = tree.with_node(path, Tree::Leaf(tile))->children;
            assert(new =~= children.update(c, child.with_node(below, Tree::Leaf(tile))));
            crate::tree_leaves::lemma_forest_parts(children, c);
            crate::tree_leaves::lemma_forest_parts(new, c);
            crate::tree_simplify::lemma_forest_prefix(children, new, c);
            assert(new.skip(c + 1) =~= children.skip(c + 1));
            crate::tree_walk::lemma_leaf_paths(child);
            let head = Tree::forest_leaves(children, c);
            let tail = Tree::forest_leaves(children.skip(c + 1), n - c - 1);
            assert(tree.leaves().update(i, tile) =~= head + child.leaves().update(j, tile) + tail);
        },
    }
}

} // verus!
