//! What changes of a tree of tiles do to its leaves.
use vstd::prelude::*;

use crate::scalar::Scalar;
use crate::tile::Tile;
use crate::tile_node::{prefixed, SplitChildData, Tree};
use crate::tree_simplify::{lemma_forest_concat, lemma_forest_prefix};
use crate::tree_walk::lemma_leaf_paths;

verus! {

impl<N> Tree<N> {
    /// The number of leaves before those below a node.
    pub open spec fn leaves_before_node(self, path: Seq<usize>) -> int
        decreases path.len(),
    {
        if path.len() == 0 {
            0
        } else {
            Self::forest_leaves(self->children, path[0] as int).len()
                + self->children[path[0] as int].leaves_before_node(path.skip(1))
        }
    }
}

/// The leaves of a forest, taken apart at one of its trees.
pub proof fn lemma_forest_parts<N>(children: Seq<Tree<N>>, c: int)
    requires
        0 <= c < children.len(),
    ensures
        Tree::forest_leaves(children, children.len() as int) == Tree::forest_leaves(children, c)
            + children[c].leaves() + Tree::forest_leaves(
            children.skip(c + 1),
            children.len() - c - 1,
        ),
        Tree::forest_leaves(children.take(c), c) == Tree::forest_leaves(children, c),
{
    let a = children.take(c + 1);
    let b = children.skip(c + 1);
    assert(a + b =~= children);
    lemma_forest_concat(a, b, b.len() as int);
    lemma_forest_prefix(a, children, c);
    assert(a[c] == children[c]);
    lemma_forest_prefix(children.take(c), children, c);
}

/// Which tree of a forest a leaf is in, and which leaf of it.
pub proof fn lemma_find_child<N>(children: Seq<Tree<N>>, i: int, upto: int) -> (r: (int, int))
    requires
        0 <= upto <= children.len(),
        0 <= i < Tree::forest_paths(children, upto).len(),
        forall|k: int|
            0 <= k < children.len() ==> (#[trigger] children[k]).leaf_paths().len()
                == children[k].leaves().len(),
    ensures
        0 <= r.0 < upto,
        0 <= r.1 < children[r.0].leaf_paths().len(),
        Tree::forest_paths(children, upto)[i] == seq![r.0 as usize]
            + children[r.0].leaf_paths()[r.1],
        i == Tree::forest_leaves(children, r.0).len() + r.1,
        Tree::forest_paths(children, upto).len() == Tree::forest_leaves(children, upto).len(),
    decreases upto,
{
    let before = Tree::forest_paths(children, upto - 1);
    lemma_forest_lens(children, upto);
    lemma_forest_lens(children, upto - 1);
    if i < before.len() {
        assert(Tree::forest_paths(children, upto)[i] == before[i]);
        lemma_find_child(children, i, upto - 1)
    } else {
        let own = prefixed((upto - 1) as usize, children[upto - 1].leaf_paths());
        let j = i - before.len();
        assert(Tree::forest_paths(children, upto)[i] == own[j]);
        (upto - 1, j)
    }
}

proof fn lemma_forest_lens<N>(children: Seq<Tree<N>>, upto: int)
    requires
        upto <= children.len(),
        forall|k: int|
            0 <= k < children.len() ==> (#[trigger] children[k]).leaf_paths().len()
                == children[k].leaves().len(),
    ensures
        Tree::forest_paths(children, upto).len() == Tree::forest_leaves(children, upto).len(),
    decreases upto,
{
    if upto > 0 {
        lemma_forest_lens(children, upto - 1);
        assert(children[upto - 1].leaf_paths().len() == children[upto - 1].leaves().len());
    }
}

proof fn lemma_children_lens<N>(tree: Tree<N>)
    requires
        tree.sane(),
        tree is Internal,
    ensures
        forall|k: int|
            0 <= k < tree->children.len() ==> (#[trigger] tree->children[k]).leaf_paths().len()
                == tree->children[k].leaves().len(),
{
    assert forall|k: int| 0 <= k < tree->children.len() implies (#[trigger] tree->children[k]).leaf_paths().len()
        == tree->children[k].leaves().len() by {
        lemma_leaf_paths(tree->children[k]);
    }
}

/// Taking a leaf out of a tree takes its tile out of the tiles.
pub proof fn lemma_without_leaf<N: Scalar>(tree: Tree<N>, i: int)
    requires
        tree.sane(),
        tree is Internal,
        0 <= i < tree.leaf_paths().len(),
    ensures
        tree.without_leaf(tree.leaf_paths()[i]).leaves() == tree.leaves().remove(i),
        tree.leaf_paths().len() == tree.leaves().len(),
        tree.leaf_paths()[i].len() > 0,
    decreases tree,
{
    let children = tree->children;
    let n = children.len() as int;
    lemma_children_lens(tree);
    let (c, j) = lemma_find_child(children, i, n);
    let child = children[c];
    let path = tree.leaf_paths()[i];
    assert(path == seq![c as usize] + child.leaf_paths()[j]);
    let head = Tree::forest_leaves(children, c);
    let tail = Tree::forest_leaves(children.skip(c + 1), n - c - 1);
    lemma_forest_parts(children, c);
    lemma_leaf_paths(child);
    if child is Leaf {
        assert(child.leaf_paths()[j].len() == 0);
        assert(path.drop_last() =~= Seq::empty());
        let rest = children.remove(c);
        assert(rest =~= children.take(c) + children.skip(c + 1));
        lemma_forest_concat(children.take(c), children.skip(c + 1), n - c - 1);
        assert(tree.without_leaf(path)->children == rest);
        assert(child.leaves().len() == 1);
        assert(tree.leaves().remove(i) =~= head + tail);
    } else {
        lemma_without_leaf(child, j);
        let below = child.leaf_paths()[j];
        assert(path.drop_last() =~= seq![c as usize] + below.drop_last());
        assert(path.drop_last().skip(1) =~= below.drop_last());
        assert(path.last() == below.last());
        let new = tree.without_leaf(path);
        assert(new->children =~= children.update(c, child.without_leaf(below)));
        lemma_forest_parts(new->children, c);
        lemma_forest_prefix(children, new->children, c);
        assert(new->children.skip(c + 1) =~= children.skip(c + 1));
        assert(tree.leaves().remove(i) =~= head + child.leaves().remove(j) + tail);
    }
}

/// Where the leaves below a node stand among all leaves: whatever takes the place of the node, the
/// leaves around it stay.
pub proof fn lemma_subtree<N>(tree: Tree<N>, path: Seq<usize>) -> (r: (Seq<Tile<N>>, Seq<Tile<N>>))
    requires
        tree.has_path(path),
    ensures
        r.0.len() == tree.leaves_before_node(path),
        tree.leaves() == r.0 + tree.node(path).leaves() + r.1,
        forall|node: Tree<N>| #[trigger]
            tree.with_node(path, node).leaves() == r.0 + node.leaves() + r.1,
    decreases path.len(),
{
    if path.len() == 0 {
        let none = Seq::<Tile<N>>::empty();
        assert(none + tree.leaves() + none =~= tree.leaves());
        assert forall|node: Tree<N>| #[trigger]
            tree.with_node(path, node).leaves() == none + node.leaves() + none by {
            assert(none + node.leaves() + none =~= node.leaves());
        }
        (none, none)
    } else {
        let children = tree->children;
        let c = path[0] as int;
        let child = children[c];
        let (before, after) = lemma_subtree(child, path.skip(1));
        let head = Tree::forest_leaves(children, c);
        let tail = Tree::forest_leaves(children.skip(c + 1), children.len() - c - 1);
        lemma_forest_parts(children, c);
        assert(tree.leaves() =~= (head + before) + tree.node(path).leaves() + (after + tail));
        assert forall|node: Tree<N>| #[trigger]
            tree.with_node(path, node).leaves() == (head + before) + node.leaves() + (after
                + tail) by {
            let new = tree.with_node(path, node)->children;
            lemma_forest_parts(new, c);
            lemma_forest_prefix(children, new, c);
            assert(new.skip(c + 1) =~= children.skip(c + 1));
            assert(new[c] == child.with_node(path.skip(1), node));
            assert(new[c].leaves() == before + node.leaves() + after);
            assert(tree.with_node(path, node).leaves() =~= (head + before) + node.leaves() + (
            after + tail));
        }
        (head + before, after + tail)
    }
}

/// A leaf has as many leaves before it as its index says.
pub proof fn lemma_leaves_before_leaf<N>(tree: Tree<N>, i: int)
    requires
        tree.sane(),
        0 <= i < tree.leaf_paths().len(),
    ensures
        tree.leaves_before_node(tree.leaf_paths()[i]) == i,
    decreases tree,
{
    match tree {
        Tree::Leaf(_) => {},
        Tree::Internal { children, .. } => {
            assert forall|k: int| 0 <= k < children.len() implies (#[trigger] children[k]).leaf_paths().len()
                == children[k].leaves().len() by {
                lemma_leaf_paths(children[k]);
            }
            let (c, j) = lemma_find_child(children, i, children.len() as int);
            lemma_leaves_before_leaf(children[c], j);
            assert(tree.leaf_paths()[i].skip(1) =~= children[c].leaf_paths()[j]);
        },
    }
}

/// Before a child stand the leaves before its parent and those of the children before it.
pub proof fn lemma_leaves_before_child<N>(tree: Tree<N>, path: Seq<usize>, child: usize)
    requires
        tree.has_path(path),
    ensures
        tree.leaves_before_node(path.push(child)) == tree.leaves_before_node(path)
            + Tree::forest_leaves(tree.node(path)->children, child as int).len(),
    decreases path.len(),
{
    if path.len() == 0 {
        let below = path.push(child).skip(1);
        assert(below =~= Seq::<usize>::empty());
        assert(tree->children[child as int].leaves_before_node(below) == 0);
        assert(path.push(child)[0] == child);
    } else {
        lemma_leaves_before_child(tree->children[path[0] as int], path.skip(1), child);
        assert(path.push(child).skip(1) =~= path.skip(1).push(child));
    }
}

/// An inserted child puts its leaves between those of the other children.
pub proof fn lemma_inserted_leaves<N: Scalar>(
    node: Tree<N>,
    idx: int,
    child: Tree<N>,
    child_data: SplitChildData<N>,
    active: usize,
)
    requires
        node is Internal,
        0 <= idx <= node->children.len(),
    ensures
        node.with_inserted(idx, child, child_data, active).leaves() == Tree::forest_leaves(
            node->children,
            idx,
        ) + child.leaves() + Tree::forest_leaves(
            node->children.skip(idx),
            node->children.len() - idx,
        ),
        node.leaves() == Tree::forest_leaves(node->children, idx) + Tree::forest_leaves(
            node->children.skip(idx),
            node->children.len() - idx,
        ),
{
    let children = node->children;
    let new = node.with_inserted(idx, child, child_data, active)->children;
    lemma_forest_parts(new, idx);
    lemma_forest_prefix(children, new, idx);
    assert(new.skip(idx + 1) =~= children.skip(idx));
    let a = children.take(idx);
    assert(a + children.skip(idx) =~= children);
    lemma_forest_concat(a, children.skip(idx), children.len() - idx);
    lemma_forest_prefix(a, children, idx);
}

/// The node that was put at the end of a path is there.
pub proof fn lemma_node_at_replaced<N>(tree: Tree<N>, path: Seq<usize>, node: Tree<N>)
    requires
        tree.has_path(path),
    ensures
        tree.with_node(path, node).has_path(path),
        tree.with_node(path, node).node(path) == node,
    decreases path.len(),
{
    if path.len() > 0 {
        lemma_node_at_replaced(tree->children[path[0] as int], path.skip(1), node);
    }
}

} // verus!
