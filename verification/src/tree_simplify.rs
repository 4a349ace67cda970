//! Bringing a tree of tiles into its simplest shape.
//!
//! A node without children goes, a node with one child gives way to it, and a split directly
//! inside of a split along the same axis is merged into it. None of this changes which tiles there
//! are, in which order, and which one is active.
use vstd::prelude::*;

use crate::scalar::Scalar;
use crate::tile::Tile;
use crate::tile_node::{forest_view, Layout, SplitChildData, TileNode, Tree};
use crate::tree_edit::lemma_view_parts;
use crate::tree_walk::lemma_wf_is_sane;

verus! {

/// The nodes of some slots.
pub open spec fn slot_nodes<N>(slots: Seq<(Tree<N>, SplitChildData<N>)>) -> Seq<Tree<N>> {
    Seq::new(slots.len(), |i: int| slots[i].0)
}

/// What is kept for the nodes of some slots.
pub open spec fn slot_data<N>(slots: Seq<(Tree<N>, SplitChildData<N>)>) -> Seq<SplitChildData<N>> {
    Seq::new(slots.len(), |i: int| slots[i].1)
}

/// Nodes paired with what is kept for them.
pub open spec fn zip_slots<N>(nodes: Seq<Tree<N>>, data: Seq<SplitChildData<N>>) -> Seq<
    (Tree<N>, SplitChildData<N>),
> {
    Seq::new(nodes.len(), |i: int| (nodes[i], data[i]))
}

impl<N> Tree<N> {
    /// The node itself, or its only child.
    pub open spec fn unwrapped(self) -> Self {
        match self {
            Tree::Internal { children, .. } if children.len() == 1 => children[0],
            _ => self,
        }
    }

    /// Whether the node is a plain split that merges into a parent of a layout.
    pub open spec fn merges_into(self, parent: Layout) -> bool {
        self matches Tree::Internal { layout, .. } && layout == parent && !layout.spec_is_tabbing()
    }

    /// The slots that a simple node takes in a parent of a layout.
    pub open spec fn merged(self, parent: Layout, slot: SplitChildData<N>) -> Seq<
        (Tree<N>, SplitChildData<N>),
    > {
        if self is Internal && self->children.len() == 0 {
            Seq::empty()
        } else if self.unwrapped().merges_into(parent) {
            zip_slots(self.unwrapped()->children, self.unwrapped()->data)
        } else {
            seq![(self.unwrapped(), slot)]
        }
    }

    /// Which of the slots that a node takes is the active one.
    pub open spec fn merged_active(self, parent: Layout) -> int {
        if self is Internal && self->children.len() == 0 {
            0
        } else if self.unwrapped().merges_into(parent) {
            self.unwrapped()->active_idx as int
        } else {
            0
        }
    }

    pub open spec fn simplified(self) -> Self
        decreases self, 0int,
    {
        match self {
            Tree::Leaf(_) => self,
            Tree::Internal { layout, children, active_idx, data, header } => {
                let slots = Self::simplified_slots(layout, children, data, children.len() as int);
                let active = if active_idx < children.len() {
                    Self::simplified_slots(layout, children, data, active_idx as int).len()
                        + children[active_idx as int].simplified().merged_active(layout)
                } else {
                    0
                };
                Tree::Internal {
                    layout,
                    children: slot_nodes(slots),
                    active_idx: clipped(active, slots.len() as int),
                    data: slot_data(slots),
                    header,
                }
            },
        }
    }

    /// The slots that the first `upto` children of a node take once they are simple.
    pub open spec fn simplified_slots(
        layout: Layout,
        children: Seq<Tree<N>>,
        data: Seq<SplitChildData<N>>,
        upto: int,
    ) -> Seq<(Tree<N>, SplitChildData<N>)>
        decreases children, upto,
    {
        if 0 < upto <= children.len() {
            Self::simplified_slots(layout, children, data, upto - 1)
                + children[upto - 1].simplified().merged(layout, data[upto - 1])
        } else {
            Seq::empty()
        }
    }

    /// Whether no node below this one has less than two children.
    pub open spec fn tidy(self) -> bool
        decreases self,
    {
        match self {
            Tree::Leaf(_) => true,
            Tree::Internal { children, .. } => forall|i: int|
                0 <= i < children.len() ==> (#[trigger] children[i]).tidy() && (children[i]
                    is Internal ==> children[i]->children.len() >= 2),
        }
    }

    /// The tree without roots that have nothing but another node below them.
    pub open spec fn collapsed(self) -> Self
        decreases self,
    {
        match self {
            Tree::Internal { children, .. } if children.len() == 1 && children[0]
                is Internal => children[0].collapsed(),
            _ => self,
        }
    }
}

/// An index kept within a length.
pub open spec fn clipped(idx: int, len: int) -> usize {
    if idx < len {
        idx as usize
    } else if len > 0 {
        (len - 1) as usize
    } else {
        0
    }
}

/// Leaves of forests one after the other.
pub proof fn lemma_forest_concat<N>(a: Seq<Tree<N>>, b: Seq<Tree<N>>, upto: int)
    requires
        0 <= upto <= b.len(),
    ensures
        Tree::forest_leaves(a + b, a.len() + upto) == Tree::forest_leaves(a, a.len() as int)
            + Tree::forest_leaves(b, upto),
    decreases upto,
{
    if upto == 0 {
        lemma_forest_prefix(a, a + b, a.len() as int);
        assert(Tree::forest_leaves(a, a.len() as int) + Seq::<Tile<N>>::empty()
            =~= Tree::forest_leaves(a, a.len() as int));
    } else {
        lemma_forest_concat(a, b, upto - 1);
        assert((a + b)[a.len() + upto - 1] == b[upto - 1]);
        assert(Tree::forest_leaves(a + b, a.len() + upto) =~= Tree::forest_leaves(
            a,
            a.len() as int,
        ) + Tree::forest_leaves(b, upto));
    }
}

/// A forest that begins like another has the same first leaves.
pub proof fn lemma_forest_prefix<N>(a: Seq<Tree<N>>, b: Seq<Tree<N>>, upto: int)
    requires
        0 <= upto <= a.len(),
        a.len() <= b.len(),
        forall|i: int| 0 <= i < upto ==> a[i] == b[i],
    ensures
        Tree::forest_leaves(a, upto) == Tree::forest_leaves(b, upto),
    decreases upto,
{
    if upto > 0 {
        lemma_forest_prefix(a, b, upto - 1);
    }
}

/// The slots of a node have the leaves of the node, and are no more than those.
proof fn lemma_merged<N>(node: Tree<N>, parent: Layout, slot: SplitChildData<N>)
    requires
        node.sane(),
        node.tidy(),
    ensures
        Tree::forest_leaves(
            slot_nodes(node.merged(parent, slot)),
            node.merged(parent, slot).len() as int,
        ) == node.leaves(),
        forall|i: int|
            0 <= i < node.merged(parent, slot).len() ==> {
                let inner = (#[trigger] node.merged(parent, slot)[i]).0;
                inner.sane() && inner.tidy() && (inner is Internal ==> inner->children.len() >= 2)
            },
        node.merged(parent, slot).len() > 0 ==> node.merged_active(parent) < node.merged(
            parent,
            slot,
        ).len(),
{
    let slots = node.merged(parent, slot);
    let nodes = slot_nodes(slots);
    let inner = node.unwrapped();
    if node is Internal && node->children.len() == 0 {
        assert(node.leaves() =~= Seq::empty());
        assert(Tree::forest_leaves(nodes, 0) =~= Seq::empty());
    } else {
        if node is Internal && node->children.len() == 1 {
            lemma_single(node);
            assert(inner.sane() && inner.tidy());
        }
        if inner.merges_into(parent) {
            assert(nodes =~= inner->children);
        } else {
            reveal_with_fuel(Tree::forest_leaves, 2);
            assert(nodes[0] == inner);
            assert(Tree::forest_leaves(nodes, 1) =~= inner.leaves());
        }
    }
}

/// A node with one child has the leaves of the child.
proof fn lemma_single<N>(node: Tree<N>)
    requires
        node is Internal,
        node->children.len() == 1,
    ensures
        node.leaves() == node->children[0].leaves(),
{
    let children = node->children;
    assert(Tree::forest_leaves(children, 0) =~= Seq::empty());
    assert(Tree::forest_leaves(children, 1) =~= children[0].leaves());
}

/// Simplifying keeps the leaves and leaves a tidy tree.
pub proof fn lemma_simplified<N>(tree: Tree<N>)
    requires
        tree.sane(),
        tree.leaves().len() <= usize::MAX,
    ensures
        tree.simplified().leaves() == tree.leaves(),
        tree.simplified().sane(),
        tree.simplified().tidy(),
        tree is Internal <==> tree.simplified() is Internal,
    decreases tree, 0int,
{
    if let Tree::Internal { layout, children, data, active_idx, .. } = tree {
        let n = children.len() as int;
        lemma_simplified_slots(tree, n);
        let slots = Tree::simplified_slots(layout, children, data, n);
        lemma_slots_fit(slots);
        assert(slot_nodes(slots).len() == slots.len());
        let new = tree.simplified();
        assert forall|i: int| 0 <= i < new->children.len() implies (#[trigger] new->children[i]).sane()
            && new->children[i].tidy() && (new->children[i] is Internal
            ==> new->children[i]->children.len() >= 2) by {
            assert(new->children[i] == slots[i].0);
        }
    }
}

/// Each slot has a leaf, so that slots can be counted where leaves can.
proof fn lemma_slots_fit<N>(slots: Seq<(Tree<N>, SplitChildData<N>)>)
    requires
        forall|i: int|
            0 <= i < slots.len() ==> (#[trigger] slots[i]).0.sane() && slots[i].0.tidy() && (
            slots[i].0 is Internal ==> slots[i].0->children.len() >= 2),
    ensures
        slots.len() <= Tree::forest_leaves(slot_nodes(slots), slots.len() as int).len(),
{
    lemma_forest_count(slot_nodes(slots), slots.len() as int);
}

proof fn lemma_forest_count<N>(nodes: Seq<Tree<N>>, upto: int)
    requires
        0 <= upto <= nodes.len(),
        forall|i: int|
            0 <= i < nodes.len() ==> (#[trigger] nodes[i]).sane() && nodes[i].tidy() && (nodes[i]
                is Internal ==> nodes[i]->children.len() >= 2),
    ensures
        upto <= Tree::forest_leaves(nodes, upto).len(),
    decreases nodes, upto,
{
    if upto > 0 {
        lemma_forest_count(nodes, upto - 1);
        let node = nodes[upto - 1];
        if let Tree::Internal { children, .. } = node {
            lemma_forest_count(children, children.len() as int);
        }
        assert(node.leaves().len() >= 1);
    }
}

proof fn lemma_simplified_slots<N>(tree: Tree<N>, upto: int)
    requires
        tree is Internal,
        tree.sane(),
        tree.leaves().len() <= usize::MAX,
        0 <= upto <= tree->children.len(),
    ensures
        ({
            let slots = Tree::simplified_slots(tree->layout, tree->children, tree->data, upto);
            &&& Tree::forest_leaves(slot_nodes(slots), slots.len() as int) == Tree::forest_leaves(
                tree->children,
                upto,
            )
            &&& forall|i: int|
                0 <= i < slots.len() ==> (#[trigger] slots[i]).0.sane() && slots[i].0.tidy() && (
                slots[i].0 is Internal ==> slots[i].0->children.len() >= 2)
        }),
    decreases tree->children, upto,
{
    let (layout, children, data) = (tree->layout, tree->children, tree->data);
    let slots = Tree::simplified_slots(layout, children, data, upto);
    if upto > 0 {
        lemma_simplified_slots(tree, upto - 1);
        let child = children[upto - 1];
        lemma_forest_bound(children, upto - 1, children.len() as int);
        lemma_simplified(child);
        let simple = child.simplified();
        lemma_merged(simple, layout, data[upto - 1]);
        let before = Tree::simplified_slots(layout, children, data, upto - 1);
        let own = simple.merged(layout, data[upto - 1]);
        assert(slots == before + own);
        assert(slot_nodes(slots) =~= slot_nodes(before) + slot_nodes(own));
        lemma_forest_concat(slot_nodes(before), slot_nodes(own), own.len() as int);
        assert forall|i: int| 0 <= i < slots.len() implies (#[trigger] slots[i]).0.sane()
            && slots[i].0.tidy() && (slots[i].0 is Internal ==> slots[i].0->children.len()
            >= 2) by {
            if i < before.len() {
                assert(slots[i] == before[i]);
            } else {
                assert(slots[i] == own[i - before.len()]);
            }
        }
    } else {
        assert(slots =~= Seq::empty());
        assert(Tree::forest_leaves(slot_nodes(slots), 0) =~= Seq::empty());
    }
}

/// A child has no more leaves than the forest it is in.
pub proof fn lemma_forest_bound<N>(children: Seq<Tree<N>>, i: int, upto: int)
    requires
        0 <= i < upto <= children.len(),
    ensures
        children[i].leaves().len() <= Tree::forest_leaves(children, upto).len(),
    decreases upto,
{
    if i < upto - 1 {
        lemma_forest_bound(children, i, upto - 1);
    }
}

/// A sane and tidy tree with a leaf is in order.
pub proof fn lemma_tidy_is_wf<N>(tree: Tree<N>)
    requires
        tree.sane(),
        tree.tidy(),
        tree is Internal ==> tree->children.len() > 0,
    ensures
        tree.wf(),
    decreases tree,
{
    if let Tree::Internal { children, .. } = tree {
        assert forall|i: int| 0 <= i < children.len() implies (#[trigger] children[i]).wf() by {
            lemma_tidy_is_wf(children[i]);
        }
    }
}

/// Simplifying a sane tree with a leaf leaves a tree in order.
pub proof fn lemma_simplified_wf<N>(tree: Tree<N>)
    requires
        tree.sane(),
        0 < tree.leaves().len() <= usize::MAX,
    ensures
        tree.simplified().wf(),
        tree.simplified().tidy(),
        tree.simplified().leaves() == tree.leaves(),
{
    lemma_simplified(tree);
    lemma_tidy_is_wf(tree.simplified());
}

/// Dropping superfluous roots keeps the leaves, and keeps the tree in order.
pub proof fn lemma_collapsed<N>(tree: Tree<N>)
    requires
        tree.wf(),
    ensures
        tree.collapsed().wf(),
        tree.collapsed().leaves() == tree.leaves(),
        tree.collapsed().active_leaf() == tree.active_leaf(),
        tree is Internal <==> tree.collapsed() is Internal,
        tree.tidy() ==> tree.collapsed().tidy(),
    decreases tree,
{
    if let Tree::Internal { children, .. } = tree {
        if children.len() == 1 && children[0] is Internal {
            lemma_collapsed(children[0]);
            lemma_single(tree);
        }
    }
}

/// Simplifying a tree in order keeps its active leaf.
pub proof fn lemma_simplified_active<N>(tree: Tree<N>)
    requires
        tree.wf(),
        tree.leaves().len() <= usize::MAX,
    ensures
        tree.simplified().active_leaf() == tree.active_leaf(),
    decreases tree,
{
    lemma_wf_is_sane(tree);
    if let Tree::Internal { layout, children, data, active_idx, .. } = tree {
        let n = children.len() as int;
        let a = active_idx as int;
        let child = children[a];
        lemma_forest_bound(children, a, n);
        lemma_simplified_active(child);
        lemma_wf_is_sane(child);
        crate::tree_walk::lemma_has_leaf(child);
        lemma_simplified_wf(child);
        let simple = child.simplified();
        lemma_wf_is_sane(simple);
        lemma_merged(simple, layout, data[a]);
        let own = simple.merged(layout, data[a]);
        let start = Tree::simplified_slots(layout, children, data, a);
        let slots = Tree::simplified_slots(layout, children, data, n);
        lemma_slots_at(layout, children, data, a, n);
        assert(own.len() > 0);
        let j = simple.merged_active(layout);
        assert(slots[start.len() + j] == own[j]);
        lemma_simplified_slots(tree, n);
        lemma_slots_fit(slots);
        let new = tree.simplified();
        assert(new->active_idx == start.len() + j);
        assert(new->children[start.len() + j] == own[j].0);
        let inner = simple.unwrapped();
        assert(inner.active_leaf() == simple.active_leaf());
    }
}

/// The slots of a child stand after those of the children before it.
proof fn lemma_slots_at<N>(
    layout: Layout,
    children: Seq<Tree<N>>,
    data: Seq<SplitChildData<N>>,
    i: int,
    upto: int,
)
    requires
        0 <= i < upto <= children.len(),
    ensures
        ({
            let start = Tree::simplified_slots(layout, children, data, i);
            let own = children[i].simplified().merged(layout, data[i]);
            let slots = Tree::simplified_slots(layout, children, data, upto);
            &&& start.len() + own.len() <= slots.len()
            &&& forall|j: int| 0 <= j < own.len() ==> slots[start.len() + j] == #[trigger] own[j]
        }),
    decreases upto,
{
    if i < upto - 1 {
        lemma_slots_at(layout, children, data, i, upto - 1);
    }
}

/// Simplifying a tree and dropping superfluous roots changes neither the tiles nor their order,
/// and the active tile stays active.
pub proof fn law_simplifying_keeps_tiles<N>(tree: Tree<N>)
    requires
        tree.wf(),
        tree.leaves().len() <= usize::MAX,
    ensures
        tree.simplified().collapsed().leaves() == tree.leaves(),
        tree.simplified().collapsed().active_leaf() == tree.active_leaf(),
        tree.simplified().collapsed().wf(),
{
    lemma_wf_is_sane(tree);
    crate::tree_walk::lemma_has_leaf(tree);
    lemma_simplified_wf(tree);
    lemma_simplified_active(tree);
    lemma_collapsed(tree.simplified());
}

impl<N: Scalar> TileNode<N> {
    /// Appends the slots that a simple node takes in a parent of a layout. Tells which of them is
    /// the active one.
    fn merge_into(
        node: TileNode<N>,
        parent: Layout,
        slot: SplitChildData<N>,
        children: &mut Vec<TileNode<N>>,
        data: &mut Vec<SplitChildData<N>>,
    ) -> (r: usize)
        requires
            node@.sane(),
            node@.unwrapped().sane(),
        ensures
            forest_view(final(children)@) == forest_view(old(children)@) + slot_nodes(
                node@.merged(parent, slot),
            ),
            final(data)@ == old(data)@ + slot_data(node@.merged(parent, slot)),
            r == node@.merged_active(parent),
    {
        let ghost whole = node@;
        let node = match node {
            TileNode::Internal {
                layout,
                children: inner_children,
                active_idx,
                data: inner_data,
                tab_header,
            } => {
                let mut inner_children = inner_children;
                if inner_children.len() == 0 {
                    proof {
                        assert(forest_view(children@) =~= forest_view(children@) + slot_nodes(
                            whole.merged(parent, slot),
                        ));
                        assert(data@ =~= data@ + slot_data(whole.merged(parent, slot)));
                    }
                    return 0;
                }
                if inner_children.len() == 1 {
                    let only = inner_children.remove(0);
                    assert(only@ == whole->children[0]);
                    only
                } else {
                    TileNode::Internal {
                        layout,
                        children: inner_children,
                        active_idx,
                        data: inner_data,
                        tab_header,
                    }
                }
            },
            leaf => leaf,
        };
        let ghost slots = whole.merged(parent, slot);
        let ghost had = forest_view(children@);
        let ghost had_data = data@;
        assert(node@ == whole.unwrapped());
        match node {
            TileNode::Internal {
                layout,
                children: inner_children,
                active_idx,
                data: inner_data,
                tab_header,
            } => {
                let ghost inner = whole.unwrapped();
                let mut inner_children = inner_children;
                let mut inner_data = inner_data;
                assert(inner->children =~= forest_view(inner_children@));
                if layout == parent && layout.is_split() {
                    let ghost cs = inner_children@;
                    let ghost all = children@;
                    children.append(&mut inner_children);
                    data.append(&mut inner_data);
                    proof {
                        assert(children@ == all + cs);
                        assert(forest_view(children@) =~= had + slot_nodes(slots));
                        assert(data@ =~= had_data + slot_data(slots));
                    }
                    active_idx
                } else {
                    let node = TileNode::Internal {
                        layout,
                        children: inner_children,
                        active_idx,
                        data: inner_data,
                        tab_header,
                    };
                    assert(node@ == inner);
                    children.push(node);
                    data.push(slot);
                    proof {
                        assert(forest_view(children@) =~= had + slot_nodes(slots));
                        assert(data@ =~= had_data + slot_data(slots));
                    }
                    0
                }
            },
            leaf => {
                children.push(leaf);
                data.push(slot);
                proof {
                    assert(forest_view(children@) =~= had + slot_nodes(slots));
                    assert(data@ =~= had_data + slot_data(slots));
                }
                0
            },
        }
    }

    /// Brings the tree into its simplest shape.
    pub fn simplify(&mut self)
        requires
            old(self)@.sane(),
            old(self)@.leaves().len() <= usize::MAX,
        ensures
            final(self)@ == old(self)@.simplified(),
        decreases *old(self),
    {
        let ghost before = *self;
        let ghost tree = self@;
        if let TileNode::Internal { layout, children, active_idx, data, .. } = self {
            proof {
                lemma_view_parts(before);
            }
            let ghost cs = children@;
            let ghost ds = data@;
            let ghost nodes = forest_view(cs);
            let mut left: Vec<TileNode<N>> = Vec::new();
            std::mem::swap(&mut left, children);
            let count: usize = left.len();
            let mut new_children: Vec<TileNode<N>> = Vec::new();
            let mut new_data: Vec<SplitChildData<N>> = Vec::new();
            let mut new_active: usize = 0;
            let mut i: usize = 0;
            proof {
                assert(left@ =~= cs.skip(0));
                assert(forest_view(new_children@) =~= slot_nodes(
                    Tree::simplified_slots(*layout, nodes, ds, 0),
                ));
                assert(new_data@ =~= slot_data(Tree::simplified_slots(*layout, nodes, ds, 0)));
            }
            while i < count
                invariant
                    i <= count,
                    count == cs.len(),
                    left@ == cs.skip(i as int),
                    before is Internal,
                    before == *old(self),
                    cs == before->children@,
                    nodes == forest_view(cs),
                    ds == before->data@,
                    data@ == ds,
                    ds.len() == cs.len(),
                    *layout == before->layout,
                    *active_idx == before->active_idx,
                    tree == before@,
                    tree is Internal,
                    tree->children == nodes,
                    tree->data == ds,
                    tree->layout == *layout,
                    tree.sane(),
                    tree.leaves().len() <= usize::MAX,
                    forest_view(new_children@) == slot_nodes(
                        Tree::simplified_slots(*layout, nodes, ds, i as int),
                    ),
                    new_data@ == slot_data(Tree::simplified_slots(*layout, nodes, ds, i as int)),
                    *active_idx < i ==> new_active == Tree::simplified_slots(
                        *layout,
                        nodes,
                        ds,
                        *active_idx as int,
                    ).len() + nodes[*active_idx as int].simplified().merged_active(*layout),
                decreases count - i,
            {
                let mut node = left.remove(0);
                let ghost was = node;
                proof {
                    assert(node == cs[i as int]);
                    assert(left@ =~= cs.skip(i as int + 1));
                    assert(nodes[i as int] == node@);
                    assert(decreases_to!(before => before->children@[i as int]));
                    lemma_forest_bound(nodes, i as int, nodes.len() as int);
                    lemma_simplified(node@);
                }
                node.simplify();
                proof {
                    lemma_merged(node@, *layout, ds[i as int]);
                    let simple = node@;
                    if simple is Internal && simple->children.len() == 1 {
                        assert(simple->children[0].sane());
                    }
                }
                let start: usize = new_children.len();
                proof {
                    assert(forest_view(new_children@).len() == start);
                }
                let slot = data[i];
                let within = Self::merge_into(
                    node,
                    *layout,
                    slot,
                    &mut new_children,
                    &mut new_data,
                );
                proof {
                    let slots = Tree::simplified_slots(*layout, nodes, ds, i as int);
                    let own = nodes[i as int].simplified().merged(*layout, ds[i as int]);
                    let next = Tree::simplified_slots(*layout, nodes, ds, i as int + 1);
                    assert(next == slots + own);
                    assert(slot_nodes(next) =~= slot_nodes(slots) + slot_nodes(own));
                    assert(slot_data(next) =~= slot_data(slots) + slot_data(own));
                }
                if i == *active_idx {
                    assert(start + within <= new_children.len()) by {
                        assert(forest_view(new_children@).len() == new_children@.len());
                    }
                    new_active = start + within;
                }
                i = i + 1;
            }
            let len: usize = new_children.len();
            if new_active >= len {
                new_active = if len > 0 {
                    len - 1
                } else {
                    0
                };
            }
            proof {
                let slots = Tree::simplified_slots(*layout, nodes, ds, cs.len() as int);
                assert(forest_view(new_children@).len() == slots.len());
            }
            *children = new_children;
            *data = new_data;
            *active_idx = new_active;
        }
        proof {
            if before is Internal {
                lemma_view_parts(*self);
                assert(self@ =~= tree.simplified());
            }
        }
    }

    /// Drops roots that have nothing but another node below them.
    pub fn collapse_root(&mut self)
        ensures
            final(self)@ == old(self)@.collapsed(),
        decreases *old(self),
    {
        let ghost before = *self;
        let mut only: Option<TileNode<N>> = None;
        if let TileNode::Internal { children, .. } = self {
            proof {
                lemma_view_parts(before);
            }
            if children.len() == 1 && !children[0].is_leaf() {
                assert(before@->children[0] == children@[0]@);
                assert(decreases_to!(before => before->children@[0]));
                only = Some(children.remove(0));
            } else {
                assert(children@.len() == 1 ==> before@->children[0] == children@[0]@);
            }
        }
        if let Some(child) = only {
            let mut child = child;
            child.collapse_root();
            *self = child;
        }
    }
}

} // verus!
