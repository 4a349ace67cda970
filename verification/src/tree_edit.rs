//! Changing single nodes of a tree of tiles.
use vstd::prelude::*;

use crate::axis::AxisMap;
use crate::config::{SectionDisplay, TabHeaderConfig};
use crate::scalar::Scalar;
use crate::tab_header::{header_view, TabHeader, TabHeaderView};
use crate::tile::Tile;
use crate::tile_node::{forest_view, Layout, SplitChildData, TileNode, Tree};
use crate::tree_walk::{
    lemma_node_wf, lemma_parent, lemma_wf_is_sane, lemma_with_node_sane, path_prefix,
};

verus! {

impl<N: Scalar> Tree<N> {
    pub open spec fn with_active_idx(self, idx: usize) -> Self {
        match self {
            Tree::Leaf(_) => self,
            Tree::Internal { layout, children, data, header, .. } => Tree::Internal {
                layout,
                children,
                active_idx: idx,
                data,
                header,
            },
        }
    }

    pub open spec fn with_child_data(self, data: Seq<SplitChildData<N>>) -> Self {
        match self {
            Tree::Leaf(_) => self,
            Tree::Internal { layout, children, active_idx, header, .. } => Tree::Internal {
                layout,
                children,
                active_idx,
                data,
                header,
            },
        }
    }

    pub open spec fn with_header(self, header: Option<TabHeaderView<N>>) -> Self {
        match self {
            Tree::Leaf(_) => self,
            Tree::Internal { layout, children, active_idx, data, .. } => Tree::Internal {
                layout,
                children,
                active_idx,
                data,
                header,
            },
        }
    }

    /// The tree with the nodes along a path active.
    pub open spec fn activated(self, path: Seq<usize>) -> Self
        decreases path.len(),
    {
        if path.len() == 0 {
            self
        } else {
            match self {
                Tree::Leaf(_) => self,
                Tree::Internal { layout, children, data, header, .. } => Tree::Internal {
                    layout,
                    children: children.update(
                        path[0] as int,
                        children[path[0] as int].activated(path.skip(1)),
                    ),
                    active_idx: path[0],
                    data,
                    header,
                },
            }
        }
    }

    /// Whether some node along a path is not active.
    pub open spec fn is_inactive_along(self, path: Seq<usize>) -> bool
        decreases path.len(),
    {
        path.len() != 0 && match self {
            Tree::Leaf(_) => false,
            Tree::Internal { children, active_idx, .. } => active_idx != path[0]
                || children[path[0] as int].is_inactive_along(path.skip(1)),
        }
    }

    /// Two children, with what is kept for them, in each other's place.
    pub open spec fn with_swapped(self, a: int, b: int) -> Self {
        match self {
            Tree::Leaf(_) => self,
            Tree::Internal { layout, children, active_idx, data, header } => Tree::Internal {
                layout,
                children: children.update(a, children[b]).update(b, children[a]),
                active_idx,
                data: data.update(a, data[b]).update(b, data[a]),
                header,
            },
        }
    }

    /// A child inserted before the child `idx`.
    pub open spec fn with_inserted(
        self,
        idx: int,
        child: Tree<N>,
        child_data: SplitChildData<N>,
        active: usize,
    ) -> Self {
        match self {
            Tree::Leaf(_) => self,
            Tree::Internal { layout, children, data, header, .. } => Tree::Internal {
                layout,
                children: children.insert(idx, child),
                active_idx: active,
                data: data.insert(idx, child_data),
                header,
            },
        }
    }

    /// A child taken out. The active child stays active; where it was the one taken out, the next
    /// one takes its place, or the last one where there is no next.
    pub open spec fn without_child(self, idx: int) -> Self {
        match self {
            Tree::Leaf(_) => self,
            Tree::Internal { layout, children, active_idx, data, header } => Tree::Internal {
                layout,
                children: children.remove(idx),
                active_idx: if idx < active_idx || (idx == active_idx && 0 < idx == children.len()
                    - 1) {
                    (active_idx - 1) as usize
                } else {
                    active_idx
                },
                data: data.remove(idx),
                header,
            },
        }
    }

    /// The tree without the leaf at the end of a path.
    pub open spec fn without_leaf(self, path: Seq<usize>) -> Self {
        self.with_node(
            path.drop_last(),
            self.node(path.drop_last()).without_child(path.last() as int),
        )
    }

    /// Two leaves in each other's place; everything around them stays.
    pub open spec fn with_swapped_leaves(self, a: Seq<usize>, b: Seq<usize>) -> Self {
        self.with_node(a, self.node(b)).with_node(b, self.node(a))
    }

    /// Other data for the node at the end of a path.
    pub open spec fn with_leaf_data(self, path: Seq<usize>, data: SplitChildData<N>) -> Self {
        if path.len() == 0 {
            self
        } else {
            let parent = self.node(path.drop_last());
            self.with_node(
                path.drop_last(),
                parent.with_child_data(parent.child_data().update(path.last() as int, data)),
            )
        }
    }

    /// The data of the children that are leaves brought up to date with their tiles.
    pub open spec fn with_fresh_data(self, axis: AxisMap) -> Self {
        match self {
            Tree::Leaf(_) => self,
            Tree::Internal { children, data, .. } => self.with_child_data(
                fresh_data(children, data, axis, data.len() as int),
            ),
        }
    }

    /// The node showing its children in another layout.
    pub open spec fn with_layout(self, new_layout: Layout, config: TabHeaderConfig<N>) -> Self {
        match self {
            Tree::Leaf(_) => self,
            Tree::Internal { children, active_idx, data, header, .. } => Tree::Internal {
                layout: new_layout,
                children,
                active_idx,
                data,
                header: if new_layout.spec_is_tabbing() {
                    let kept = match header {
                        Some(header) => header,
                        None => TabHeaderView::fresh(config),
                    };
                    Some(kept.with_stacked(new_layout == Layout::Stacked))
                } else {
                    None
                },
            },
        }
    }

    /// The node with a display mode; one that it has already changes nothing.
    pub open spec fn with_display(
        self,
        display: SectionDisplay,
        config: TabHeaderConfig<N>,
    ) -> Self {
        match self {
            Tree::Leaf(_) => self,
            Tree::Internal { layout, .. } => match display {
                SectionDisplay::Tabbed => if layout.spec_is_tabbing() {
                    self
                } else {
                    self.with_layout(Layout::Tabbed, config)
                },
                SectionDisplay::Normal => if layout.spec_is_tabbing() {
                    self.with_layout(layout.spec_split_of_family(), config)
                } else {
                    self
                },
            },
        }
    }

    /// The node tabbed where it was not, and the other way round.
    pub open spec fn with_tabbed_toggled(self, config: TabHeaderConfig<N>) -> Self {
        if self.is_tabbed() {
            self.with_display(SectionDisplay::Normal, config)
        } else {
            self.with_display(SectionDisplay::Tabbed, config)
        }
    }
}

pub open spec fn fresh_data<N: Scalar>(
    children: Seq<Tree<N>>,
    data: Seq<SplitChildData<N>>,
    axis: AxisMap,
    upto: int,
) -> Seq<SplitChildData<N>> {
    Seq::new(
        data.len(),
        |i: int|
            if i < upto && i < children.len() && children[i] is Leaf {
                data[i].spec_update(children[i]->Leaf_0, axis)
            } else {
                data[i]
            },
    )
}

/// Activating a path keeps a tree in order.
pub proof fn lemma_activated_wf<N: Scalar>(tree: Tree<N>, path: Seq<usize>)
    requires
        tree.wf(),
        tree.has_path(path),
    ensures
        tree.activated(path).wf(),
    decreases path.len(),
{
    if path.len() > 0 {
        let children = tree->children;
        lemma_activated_wf(children[path[0] as int], path.skip(1));
        let new = tree.activated(path)->children;
        assert forall|i: int| 0 <= i < new.len() implies (#[trigger] new[i]).wf() by {
            if i != path[0] {
                assert(new[i] == children[i]);
            }
        }
    }
}

/// Activating a path changes neither the leaves nor their paths.
pub proof fn lemma_activated_leaves<N: Scalar>(tree: Tree<N>, path: Seq<usize>)
    requires
        tree.has_path(path),
    ensures
        tree.activated(path).leaves() == tree.leaves(),
        tree.activated(path).leaf_paths() == tree.leaf_paths(),
        forall|p: Seq<usize>| #[trigger] tree.activated(path).has_path(p) == tree.has_path(p),
    decreases path.len(),
{
    if path.len() > 0 {
        let children = tree->children;
        let child = children[path[0] as int];
        lemma_activated_leaves(child, path.skip(1));
        let new = tree.activated(path)->children;
        lemma_forest_same(children, new, children.len() as int);
        assert forall|p: Seq<usize>| #[trigger]
            tree.activated(path).has_path(p) == tree.has_path(p) by {
            if p.len() > 0 && p[0] < children.len() {
                if p[0] == path[0] {
                    assert(child.activated(path.skip(1)).has_path(p.skip(1)) == child.has_path(
                        p.skip(1),
                    ));
                }
            }
        }
    }
}

/// Trees with the same leaves make forests with the same leaves.
pub proof fn lemma_forest_same<N>(a: Seq<Tree<N>>, b: Seq<Tree<N>>, upto: int)
    requires
        a.len() == b.len(),
        forall|i: int|
            0 <= i < a.len() ==> #[trigger] a[i].leaves() == b[i].leaves() && a[i].leaf_paths()
                == b[i].leaf_paths(),
        0 <= upto <= a.len(),
    ensures
        Tree::forest_leaves(a, upto) == Tree::forest_leaves(b, upto),
        Tree::forest_paths(a, upto) == Tree::forest_paths(b, upto),
    decreases upto,
{
    if upto > 0 {
        lemma_forest_same(a, b, upto - 1);
        assert(a[upto - 1].leaves() == b[upto - 1].leaves());
    }
}

/// After a path to a leaf is activated, the active leaf is the one at its end.
pub proof fn lemma_activated_path<N: Scalar>(tree: Tree<N>, path: Seq<usize>)
    requires
        tree.wf(),
        tree.has_path(path),
        tree.node(path) is Leaf,
    ensures
        tree.activated(path).active_path() == path,
        tree.activated(path).active_leaf() == tree.node(path)->Leaf_0,
    decreases path.len(),
{
    if path.len() > 0 {
        let child = tree->children[path[0] as int];
        lemma_activated_path(child, path.skip(1));
        assert(seq![path[0]] + path.skip(1) =~= path);
    } else {
        assert(tree.active_path() =~= path);
    }
}

/// Taking a leaf out of a tree in order leaves a sane tree.
pub proof fn lemma_without_leaf_sane<N: Scalar>(tree: Tree<N>, path: Seq<usize>)
    requires
        tree.wf(),
        tree.has_path(path),
        path.len() > 0,
    ensures
        tree.without_leaf(path).sane(),
{
    lemma_parent(tree, path);
    lemma_wf_is_sane(tree);
    let parent = tree.node(path.drop_last());
    lemma_node_wf(tree, path.drop_last());
    lemma_wf_is_sane(parent);
    let idx = path.last() as int;
    let without = parent.without_child(idx);
    assert forall|i: int| 0 <= i < without->children.len() implies (#[trigger] without->children[i]).sane() by {
        let from = if i < idx {
            i
        } else {
            i + 1
        };
        assert(without->children[i] == parent->children[from]);
    }
    lemma_with_node_sane(tree, path.drop_last(), without);
}

/// An added child leaves a node in order.
pub proof fn lemma_inserted_wf<N: Scalar>(
    node: Tree<N>,
    idx: int,
    child: Tree<N>,
    child_data: SplitChildData<N>,
    active: usize,
)
    requires
        node.wf(),
        node is Internal,
        child.wf(),
        0 <= idx <= node->children.len() < usize::MAX,
        active <= node->children.len(),
    ensures
        node.with_inserted(idx, child, child_data, active).wf(),
{
    let new = node.with_inserted(idx, child, child_data, active);
    assert forall|i: int| 0 <= i < new->children.len() implies (#[trigger] new->children[i]).wf() by {
        if i < idx {
            assert(new->children[i] == node->children[i]);
        } else if i > idx {
            assert(new->children[i] == node->children[i - 1]);
        }
    }
}

/// What a node shows is determined by its parts.
pub proof fn lemma_view_parts<N>(node: TileNode<N>)
    requires
        node is Internal,
    ensures
        node@ == (Tree::Internal {
            layout: node->layout,
            children: forest_view(node->children@),
            active_idx: node->active_idx,
            data: node->data@,
            header: header_view(node->tab_header),
        }),
{
    assert(node@->children =~= forest_view(node->children@));
}

impl<N: Scalar> TileNode<N> {
    /// A node with some children.
    pub fn internal(
        layout: Layout,
        children: Vec<TileNode<N>>,
        active_idx: usize,
        data: Vec<SplitChildData<N>>,
        tab_header: Option<TabHeader<N>>,
    ) -> (r: Self)
        ensures
            r@ == (Tree::Internal {
                layout,
                children: forest_view(children@),
                active_idx,
                data: data@,
                header: header_view(tab_header),
            }),
    {
        let r = TileNode::Internal { layout, children, active_idx, data, tab_header };
        proof {
            lemma_view_parts(r);
        }
        r
    }

    /// A node with two children.
    pub fn pair(
        layout: Layout,
        first: (TileNode<N>, SplitChildData<N>),
        second: (TileNode<N>, SplitChildData<N>),
        active_idx: usize,
        tab_header: Option<TabHeader<N>>,
    ) -> (r: Self)
        ensures
            r@ == (Tree::Internal {
                layout,
                children: seq![first.0@, second.0@],
                active_idx,
                data: seq![first.1, second.1],
                header: header_view(tab_header),
            }),
    {
        let mut children: Vec<TileNode<N>> = Vec::new();
        let mut data: Vec<SplitChildData<N>> = Vec::new();
        children.push(first.0);
        children.push(second.0);
        data.push(first.1);
        data.push(second.1);
        assert(forest_view(children@) =~= seq![first.0@, second.0@]);
        assert(data@ =~= seq![first.1, second.1]);
        Self::internal(layout, children, active_idx, data, tab_header)
    }

    pub fn set_active_idx(&mut self, idx: usize)
        ensures
            final(self)@ == old(self)@.with_active_idx(idx),
    {
        let ghost before = *self;
        if let TileNode::Internal { active_idx, .. } = self {
            *active_idx = idx;
        }
        proof {
            if before is Internal {
                lemma_view_parts(before);
                lemma_view_parts(*self);
            }
        }
    }

    fn activate_from(&mut self, path: &Vec<usize>, at: usize) -> (r: bool)
        requires
            at <= path.len(),
            old(self)@.has_path(path@.skip(at as int)),
        ensures
            final(self)@ == old(self)@.activated(path@.skip(at as int)),
            r == old(self)@.is_inactive_along(path@.skip(at as int)),
        decreases path.len() - at,
    {
        let ghost before = *self;
        if at == path.len() {
            return false;
        }
        proof {
            assert(path@.skip(at as int).skip(1) =~= path@.skip(at as int + 1));
            assert(path@.skip(at as int)[0] == path@[at as int]);
        }
        let i: usize = path[at];
        let mut changed = false;
        if let TileNode::Internal { children, active_idx, .. } = self {
            proof {
                assert(before@->children[i as int] == children@[i as int]@);
            }
            changed = *active_idx != i;
            *active_idx = i;
            let below = children[i].activate_from(path, at + 1);
            changed = changed || below;
        }
        proof {
            lemma_view_parts(before);
            lemma_view_parts(*self);
            assert(forest_view(self->children@) =~= before@.activated(
                path@.skip(at as int),
            )->children);
        }
        changed
    }

    /// Makes the nodes along a path active. Tells whether anything changed.
    pub fn activate_path(&mut self, path: &Vec<usize>) -> (r: bool)
        requires
            old(self)@.has_path(path@),
        ensures
            final(self)@ == old(self)@.activated(path@),
            r == old(self)@.is_inactive_along(path@),
    {
        assert(path@.skip(0) =~= path@);
        self.activate_from(path, 0)
    }

    /// Puts two children in each other's place.
    pub fn swap_leaves(&mut self, a: usize, b: usize)
        requires
            old(self)@.wf(),
            a < old(self)@.child_count(),
            b < old(self)@.child_count(),
        ensures
            final(self)@ == old(self)@.with_swapped(a as int, b as int),
    {
        let ghost before = *self;
        if a == b {
            proof {
                lemma_view_parts(before);
                assert(before@->children.update(a as int, before@->children[b as int]).update(
                    b as int,
                    before@->children[a as int],
                ) =~= before@->children);
                assert(before@->data.update(a as int, before@->data[b as int]).update(
                    b as int,
                    before@->data[a as int],
                ) =~= before@->data);
            }
            return;
        }
        if let TileNode::Internal { children, data, .. } = self {
            let ghost cs = children@;
            let (lo, hi): (usize, usize) = if a < b {
                (a, b)
            } else {
                (b, a)
            };
            let high = children.remove(hi);
            let low = children.remove(lo);
            children.insert(lo, high);
            children.insert(hi, low);
            assert(children@ =~= cs.update(a as int, cs[b as int]).update(b as int, cs[a as int]));
            let data_a = data[a];
            let data_b = data[b];
            data[a] = data_b;
            data[b] = data_a;
        }
        proof {
            lemma_view_parts(before);
            lemma_view_parts(*self);
            assert(forest_view(self->children@) =~= before@.with_swapped(
                a as int,
                b as int,
            )->children);
        }
    }

    /// Puts a tile in place of the one at the end of a path.
    pub fn set_leaf(&mut self, path: &Vec<usize>, tile: Tile<N>)
        requires
            old(self)@.has_path(path@),
        ensures
            final(self)@ == old(self)@.with_node(path@, Tree::Leaf(tile)),
    {
        let node = self.node_at_mut(path);
        *node = TileNode::Leaf(tile);
    }

    /// The tile at the end of a path, if there is one.
    pub fn leaf_at(&self, path: &Vec<usize>) -> (r: Option<Tile<N>>)
        requires
            self@.has_path(path@),
        ensures
            r == match self@.node(path@) {
                Tree::Leaf(tile) => Some(tile),
                _ => None,
            },
    {
        match self.node_at(path) {
            TileNode::Leaf(tile) => Some(*tile),
            TileNode::Internal { .. } => None,
        }
    }

    /// Inserts a leaf before the child `idx`.
    pub fn insert_leaf(
        &mut self,
        idx: usize,
        tile: Tile<N>,
        child_data: SplitChildData<N>,
        active: usize,
    )
        requires
            old(self)@.wf(),
            idx <= old(self)@.child_count(),
            old(self)@ is Internal,
        ensures
            final(self)@ == old(self)@.with_inserted(
                idx as int,
                Tree::Leaf(tile),
                child_data,
                active,
            ),
    {
        let ghost before = *self;
        if let TileNode::Internal { children, data, active_idx, .. } = self {
            children.insert(idx, TileNode::Leaf(tile));
            data.insert(idx, child_data);
            *active_idx = active;
        }
        proof {
            lemma_view_parts(before);
            lemma_view_parts(*self);
            assert(forest_view(self->children@) =~= before@.with_inserted(
                idx as int,
                Tree::Leaf(tile),
                child_data,
                active,
            )->children);
        }
    }

    fn remove_child(&mut self, idx: usize) -> (r: TileNode<N>)
        requires
            old(self)@.wf(),
            idx < old(self)@.child_count(),
        ensures
            final(self)@ == old(self)@.without_child(idx as int),
            r@ == old(self)@->children[idx as int],
    {
        let ghost before = *self;
        match self {
            TileNode::Leaf(tile) => {
                TileNode::Leaf(*tile)
            },
            TileNode::Internal { children, data, active_idx, .. } => {
                let child = children.remove(idx);
                data.remove(idx);
                if idx < *active_idx || (idx == *active_idx && 0 < idx && idx == children.len()) {
                    *active_idx = *active_idx - 1;
                }
                proof {
                    lemma_view_parts(before);
                    lemma_view_parts(*self);
                    assert(forest_view(self->children@) =~= before@.without_child(
                        idx as int,
                    )->children);
                }
                child
            },
        }
    }

    /// Takes a leaf out of the tree.
    pub fn remove_leaf(&mut self, path: &Vec<usize>) -> (r: Option<Tile<N>>)
        requires
            old(self)@.wf(),
            old(self)@.has_path(path@),
            path.len() > 0,
        ensures
            final(self)@ == old(self)@.without_leaf(path@),
            r == match old(self)@.node(path@) {
                Tree::Leaf(tile) => Some(tile),
                _ => None,
            },
    {
        proof {
            lemma_parent(self@, path@);
            lemma_node_wf(self@, path@.drop_last());
        }
        let parent = path_prefix(path, path.len() - 1);
        assert(parent@ =~= path@.drop_last());
        let last: usize = path[path.len() - 1];
        let removed = self.node_at_mut(&parent).remove_child(last);
        match removed {
            TileNode::Leaf(tile) => Some(tile),
            TileNode::Internal { .. } => None,
        }
    }

    /// Puts two leaves in each other's place.
    pub fn swap_leaf_contents(&mut self, a: &Vec<usize>, b: &Vec<usize>)
        requires
            old(self)@.has_path(a@),
            old(self)@.has_path(b@),
            old(self)@.node(a@) is Leaf,
            old(self)@.node(b@) is Leaf,
        ensures
            final(self)@ == old(self)@.with_swapped_leaves(a@, b@),
    {
        let tile_a = self.leaf_at(a);
        let tile_b = self.leaf_at(b);
        if let (Some(tile_a), Some(tile_b)) = (tile_a, tile_b) {
            let ghost before = self@;
            self.set_leaf(a, tile_b);
            proof {
                lemma_leaf_swap_keeps_paths(before, a@, tile_b);
                assert(self@.has_path(b@));
            }
            self.set_leaf(b, tile_a);
        }
    }

    fn set_child_data(&mut self, idx: usize, child_data: SplitChildData<N>)
        requires
            idx < old(self)@.child_data().len(),
        ensures
            final(self)@ == old(self)@.with_child_data(
                old(self)@.child_data().update(idx as int, child_data),
            ),
    {
        let ghost before = *self;
        if let TileNode::Internal { data, .. } = self {
            data[idx] = child_data;
        }
        proof {
            lemma_view_parts(before);
            lemma_view_parts(*self);
        }
    }

    /// Keeps other data for the node at the end of a path.
    pub fn set_leaf_data(&mut self, path: &Vec<usize>, child_data: SplitChildData<N>)
        requires
            old(self)@.wf(),
            old(self)@.has_path(path@),
        ensures
            final(self)@ == old(self)@.with_leaf_data(path@, child_data),
    {
        if path.len() == 0 {
            return;
        }
        proof {
            lemma_parent(self@, path@);
            lemma_node_wf(self@, path@.drop_last());
        }
        let parent = path_prefix(path, path.len() - 1);
        assert(parent@ =~= path@.drop_last());
        let last: usize = path[path.len() - 1];
        self.node_at_mut(&parent).set_child_data(last, child_data);
    }

    /// Replaces what is kept for the children.
    pub fn set_all_child_data(&mut self, new_data: Vec<SplitChildData<N>>)
        ensures
            final(self)@ == old(self)@.with_child_data(new_data@),
    {
        let ghost before = *self;
        if let TileNode::Internal { data, .. } = self {
            *data = new_data;
        }
        proof {
            if before is Internal {
                lemma_view_parts(before);
                lemma_view_parts(*self);
            }
        }
    }

    /// Brings the data of the children that are leaves up to date with their tiles.
    pub fn update_data(&mut self, axis: AxisMap)
        requires
            old(self)@.wf(),
        ensures
            final(self)@ == old(self)@.with_fresh_data(axis),
    {
        let ghost before = *self;
        if let TileNode::Internal { children, data, .. } = self {
            let ghost cs = forest_view(children@);
            let ghost ds = data@;
            proof {
                lemma_view_parts(before);
            }
            let mut i: usize = 0;
            assert(data@ =~= fresh_data(cs, ds, axis, 0));
            while i < data.len()
                invariant
                    i <= data.len(),
                    data.len() == children.len(),
                    cs == forest_view(children@),
                    ds.len() == data.len(),
                    data@ == fresh_data(cs, ds, axis, i as int),
                decreases data.len() - i,
            {
                if let TileNode::Leaf(tile) = &children[i] {
                    assert(cs[i as int] == children@[i as int]@);
                    let mut fresh = data[i];
                    fresh.update(tile, axis);
                    data[i] = fresh;
                }
                assert(cs[i as int] == children@[i as int]@);
                assert(data@ =~= fresh_data(cs, ds, axis, i as int + 1));
                i = i + 1;
            }
        }
        proof {
            if before is Internal {
                lemma_view_parts(before);
                lemma_view_parts(*self);
            }
        }
    }

    /// Shows the children in another layout. A header appears with tabs and goes with them.
    pub fn set_layout(&mut self, new_layout: Layout, config: TabHeaderConfig<N>)
        ensures
            final(self)@ == old(self)@.with_layout(new_layout, config),
    {
        let ghost before = *self;
        if let TileNode::Internal { layout, tab_header, .. } = self {
            *layout = new_layout;
            if new_layout.is_tabbing() {
                let mut header = match tab_header.take() {
                    Some(header) => header,
                    None => TabHeader::new(config),
                };
                header.set_stacked(matches!(new_layout, Layout::Stacked));
                *tab_header = Some(header);
            } else {
                *tab_header = None;
            }
        }
        proof {
            if before is Internal {
                lemma_view_parts(before);
                lemma_view_parts(*self);
            }
        }
    }

    /// Shows the children all at once or as tabs.
    pub fn set_display(&mut self, display: SectionDisplay, config: TabHeaderConfig<N>)
        ensures
            final(self)@ == old(self)@.with_display(display, config),
    {
        if let Some(layout) = self.layout() {
            match display {
                SectionDisplay::Tabbed => {
                    if !layout.is_tabbing() {
                        self.set_layout(Layout::Tabbed, config);
                    }
                },
                SectionDisplay::Normal => {
                    if layout.is_tabbing() {
                        self.set_layout(layout.split_of_family(), config);
                    }
                },
            }
        }
    }

    /// Turns a split into tabs and the other way round.
    pub fn toggle_tabbed(&mut self, config: TabHeaderConfig<N>)
        ensures
            final(self)@ == old(self)@.with_tabbed_toggled(config),
    {
        if self.is_tabbed() {
            self.set_display(SectionDisplay::Normal, config);
        } else {
            self.set_display(SectionDisplay::Tabbed, config);
        }
    }

    /// Replaces the header.
    pub fn set_header(&mut self, header: Option<TabHeader<N>>)
        ensures
            final(self)@ == old(self)@.with_header(header_view(header)),
    {
        let ghost before = *self;
        if let TileNode::Internal { tab_header, .. } = self {
            *tab_header = header;
        }
        proof {
            if before is Internal {
                lemma_view_parts(before);
                lemma_view_parts(*self);
            }
        }
    }

    /// Takes the header out of the node.
    pub fn take_header(&mut self) -> (r: Option<TabHeader<N>>)
        ensures
            final(self)@ == old(self)@.with_header(None),
            header_view(r) == old(self)@.header(),
    {
        let ghost before = *self;
        let mut taken: Option<TabHeader<N>> = None;
        if let TileNode::Internal { tab_header, .. } = self {
            taken = tab_header.take();
        }
        proof {
            if before is Internal {
                lemma_view_parts(before);
                lemma_view_parts(*self);
            }
        }
        taken
    }
}

/// Exchanging one leaf for another keeps every path.
pub proof fn lemma_leaf_swap_keeps_paths<N>(tree: Tree<N>, path: Seq<usize>, tile: Tile<N>)
    requires
        tree.has_path(path),
        tree.node(path) is Leaf,
    ensures
        forall|p: Seq<usize>| #[trigger]
            tree.with_node(path, Tree::Leaf(tile)).has_path(p) == tree.has_path(p),
        tree.with_node(path, Tree::Leaf(tile)).leaf_paths() == tree.leaf_paths(),
    decreases path.len(),
{
    let new = tree.with_node(path, Tree::Leaf(tile));
    if path.len() > 0 {
        let children = tree->children;
        let child = children[path[0] as int];
        lemma_leaf_swap_keeps_paths(child, path.skip(1), tile);
        assert forall|p: Seq<usize>| #[trigger] new.has_path(p) == tree.has_path(p) by {
            if p.len() > 0 && p[0] < children.len() && p[0] == path[0] {
                assert(child.with_node(path.skip(1), Tree::Leaf(tile)).has_path(p.skip(1))
                    == child.has_path(p.skip(1)));
            }
        }
        lemma_forest_paths_same(children, new->children, children.len() as int);
    } else {
        assert forall|p: Seq<usize>| #[trigger] new.has_path(p) == tree.has_path(p) by {}
    }
}

proof fn lemma_forest_paths_same<N>(a: Seq<Tree<N>>, b: Seq<Tree<N>>, upto: int)
    requires
        a.len() == b.len(),
        forall|i: int| 0 <= i < a.len() ==> #[trigger] a[i].leaf_paths() == b[i].leaf_paths(),
        0 <= upto <= a.len(),
    ensures
        Tree::forest_paths(a, upto) == Tree::forest_paths(b, upto),
    decreases upto,
{
    if upto > 0 {
        lemma_forest_paths_same(a, b, upto - 1);
        assert(a[upto - 1].leaf_paths() == b[upto - 1].leaf_paths());
    }
}

} // verus!
