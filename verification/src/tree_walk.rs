//! Finding nodes, leaves and paths in a tree of tiles.
use vstd::prelude::*;

use crate::config::SectionDisplay;
use crate::scalar::Scalar;
use crate::tab_header::{header_view, TabHeader};
use crate::tile::Tile;
use crate::tile_node::{
    find_path, forest_view, lemma_position_found, path_views, prefixed, Layout, SplitChildData,
    TileNode, Tree,
};

verus! {

impl<N> Tree<N> {
    pub open spec fn display_mode(self) -> SectionDisplay {
        if self.is_tabbed() {
            SectionDisplay::Tabbed
        } else {
            SectionDisplay::Normal
        }
    }

    pub open spec fn active_idx(self) -> usize {
        match self {
            Tree::Leaf(_) => 0,
            Tree::Internal { active_idx, .. } => active_idx,
        }
    }
}

/// A tree in order is sane.
pub proof fn lemma_wf_is_sane<N>(tree: Tree<N>)
    requires
        tree.wf(),
    ensures
        tree.sane(),
    decreases tree,
{
    if let Tree::Internal { children, .. } = tree {
        assert forall|i: int| 0 <= i < children.len() implies (#[trigger] children[i]).sane() by {
            lemma_wf_is_sane(children[i]);
        }
    }
}

/// Leaves and their paths correspond, and each path leads to its leaf.
pub proof fn lemma_leaf_paths<N>(tree: Tree<N>)
    requires
        tree.sane(),
    ensures
        tree.leaf_paths().len() == tree.leaves().len(),
        forall|i: int|
            0 <= i < tree.leaves().len() ==> {
                &&& tree.has_path(#[trigger] tree.leaf_paths()[i])
                &&& tree.node(tree.leaf_paths()[i]) == Tree::Leaf(tree.leaves()[i])
                &&& tree is Internal ==> tree.leaf_paths()[i].len() > 0
            },
    decreases tree, 0int,
{
    match tree {
        Tree::Leaf(_) => {},
        Tree::Internal { children, .. } => {
            lemma_forest_paths(tree, children, children.len() as int);
        },
    }
}

proof fn lemma_forest_paths<N>(tree: Tree<N>, children: Seq<Tree<N>>, upto: int)
    requires
        tree.sane(),
        tree is Internal,
        tree->children == children,
        0 <= upto <= children.len(),
    ensures
        Tree::forest_paths(children, upto).len() == Tree::forest_leaves(children, upto).len(),
        forall|i: int|
            0 <= i < Tree::forest_leaves(children, upto).len() ==> {
                &&& tree.has_path(#[trigger] Tree::forest_paths(children, upto)[i])
                &&& tree.node(Tree::forest_paths(children, upto)[i]) == Tree::Leaf(
                    Tree::forest_leaves(children, upto)[i],
                )
                &&& Tree::forest_paths(children, upto)[i].len() > 0
            },
    decreases children, upto,
{
    if upto > 0 {
        lemma_forest_paths(tree, children, upto - 1);
        let child = children[upto - 1];
        lemma_leaf_paths(child);
        let before = Tree::forest_paths(children, upto - 1);
        let last = prefixed((upto - 1) as usize, child.leaf_paths());
        assert forall|i: int|
            0 <= i < Tree::forest_leaves(children, upto).len() implies {
            &&& tree.has_path(#[trigger] Tree::forest_paths(children, upto)[i])
            &&& tree.node(Tree::forest_paths(children, upto)[i]) == Tree::Leaf(
                Tree::forest_leaves(children, upto)[i],
            )
            &&& Tree::forest_paths(children, upto)[i].len() > 0
        } by {
            if i >= before.len() {
                let j = i - before.len();
                let path = last[j];
                assert(path.skip(1) =~= child.leaf_paths()[j]);
                assert(path[0] == upto - 1);
            } else {
                assert(Tree::forest_paths(children, upto)[i] == before[i]);
            }
        }
    }
}

/// Following the active children leads to a leaf, and its path is among those of the leaves.
pub proof fn lemma_active_path<N>(tree: Tree<N>)
    requires
        tree.wf(),
    ensures
        tree.has_path(tree.active_path()),
        tree.node(tree.active_path()) == Tree::Leaf(tree.active_leaf()),
        tree is Internal ==> tree.active_path().len() > 0,
        exists|i: int|
            0 <= i < tree.leaf_paths().len() && #[trigger] tree.leaf_paths()[i]
                == tree.active_path(),
    decreases tree,
{
    match tree {
        Tree::Leaf(_) => {
            assert(tree.leaf_paths().len() == 1);
            assert(tree.leaf_paths()[0] =~= tree.active_path());
        },
        Tree::Internal { children, active_idx, .. } => {
            let child = children[active_idx as int];
            lemma_active_path(child);
            let path = tree.active_path();
            assert(path.skip(1) =~= child.active_path());
            let j = choose|j: int|
                0 <= j < child.leaf_paths().len() && #[trigger] child.leaf_paths()[j]
                    == child.active_path();
            let prefix = prefixed(active_idx, child.leaf_paths());
            assert(prefix[j] =~= path);
            lemma_forest_path_at(children, active_idx as int, j, children.len() as int);
            let all = Tree::forest_paths(children, children.len() as int);
            let i = choose|i: int| 0 <= i < all.len() && #[trigger] all[i] == prefix[j];
            assert(tree.leaf_paths()[i] == path);
        },
    }
}

/// The paths below a child stand among those of the forest.
proof fn lemma_forest_path_at<N>(children: Seq<Tree<N>>, child: int, j: int, upto: int)
    requires
        0 <= child < upto <= children.len(),
        children.len() <= usize::MAX,
        0 <= j < children[child].leaf_paths().len(),
    ensures
        exists|i: int|
            0 <= i < Tree::forest_paths(children, upto).len() && #[trigger] Tree::forest_paths(
                children,
                upto,
            )[i] == prefixed(child as usize, children[child].leaf_paths())[j],
    decreases upto,
{
    let before = Tree::forest_paths(children, upto - 1);
    let all = Tree::forest_paths(children, upto);
    if child == upto - 1 {
        assert(all[before.len() + j] == prefixed(
            child as usize,
            children[child].leaf_paths(),
        )[j]);
    } else {
        lemma_forest_path_at(children, child, j, upto - 1);
        let i = choose|i: int|
            0 <= i < before.len() && #[trigger] before[i] == prefixed(
                child as usize,
                children[child].leaf_paths(),
            )[j];
        assert(all[i] == before[i]);
    }
}

/// The active leaf has its place among the leaves. (Counting it needs that the leaves can be
/// counted.)
pub proof fn lemma_active_leaf_idx<N>(tree: Tree<N>)
    requires
        tree.wf(),
        tree.leaves().len() <= usize::MAX,
    ensures
        tree.active_leaf_idx() < tree.leaves().len(),
        tree.leaf_paths()[tree.active_leaf_idx() as int] == tree.active_path(),
        tree.leaves()[tree.active_leaf_idx() as int] == tree.active_leaf(),
        tree.leaves().len() > 0,
{
    lemma_wf_is_sane(tree);
    lemma_active_path(tree);
    lemma_leaf_paths(tree);
    let paths = tree.leaf_paths();
    let i = choose|i: int| 0 <= i < paths.len() && #[trigger] paths[i] == tree.active_path();
    lemma_position_found(paths, tree.active_path(), i, paths.len() as int);
}

/// A tree in order has a leaf.
pub proof fn lemma_has_leaf<N>(tree: Tree<N>)
    requires
        tree.wf(),
    ensures
        tree.leaves().len() > 0,
{
    lemma_active_path(tree);
    lemma_wf_is_sane(tree);
    lemma_leaf_paths(tree);
}

/// Nodes of a tree in order are in order.
pub proof fn lemma_node_wf<N>(tree: Tree<N>, path: Seq<usize>)
    requires
        tree.wf(),
        tree.has_path(path),
    ensures
        tree.node(path).wf(),
    decreases path.len(),
{
    if path.len() > 0 {
        lemma_node_wf(tree->children[path[0] as int], path.skip(1));
    }
}

/// Replacing a node by one in order keeps the tree in order.
pub proof fn lemma_with_node_wf<N>(tree: Tree<N>, path: Seq<usize>, node: Tree<N>)
    requires
        tree.wf(),
        tree.has_path(path),
        node.wf(),
    ensures
        tree.with_node(path, node).wf(),
    decreases path.len(),
{
    if path.len() > 0 {
        let children = tree->children;
        lemma_with_node_wf(children[path[0] as int], path.skip(1), node);
        let new = tree.with_node(path, node)->children;
        assert forall|i: int| 0 <= i < new.len() implies (#[trigger] new[i]).wf() by {
            if i != path[0] {
                assert(new[i] == children[i]);
            }
        }
    }
}

/// Replacing a node by a sane one keeps the tree sane.
pub proof fn lemma_with_node_sane<N>(tree: Tree<N>, path: Seq<usize>, node: Tree<N>)
    requires
        tree.sane(),
        tree.has_path(path),
        node.sane(),
    ensures
        tree.with_node(path, node).sane(),
    decreases path.len(),
{
    if path.len() > 0 {
        let children = tree->children;
        lemma_with_node_sane(children[path[0] as int], path.skip(1), node);
        let new = tree.with_node(path, node)->children;
        assert forall|i: int| 0 <= i < new.len() implies (#[trigger] new[i]).sane() by {
            if i != path[0] {
                assert(new[i] == children[i]);
            }
        }
    }
}

/// A path can be walked in two parts.
pub proof fn lemma_node_split<N>(tree: Tree<N>, a: Seq<usize>, b: Seq<usize>)
    ensures
        tree.has_path(a + b) == (tree.has_path(a) && tree.node(a).has_path(b)),
        tree.has_path(a) ==> tree.node(a + b) == tree.node(a).node(b),
    decreases a.len(),
{
    if a.len() == 0 {
        assert(a + b =~= b);
    } else {
        assert((a + b).skip(1) =~= a.skip(1) + b);
        if let Tree::Internal { children, .. } = tree {
            if a[0] < children.len() {
                lemma_node_split(children[a[0] as int], a.skip(1), b);
            }
        }
    }
}

/// The parent on a path has the child of the last step.
pub proof fn lemma_parent<N>(tree: Tree<N>, path: Seq<usize>)
    requires
        tree.has_path(path),
        path.len() > 0,
    ensures
        tree.has_path(path.drop_last()),
        tree.node(path.drop_last()) is Internal,
        path.last() < tree.node(path.drop_last())->children.len(),
        tree.node(path) == tree.node(path.drop_last())->children[path.last() as int],
{
    let a = path.drop_last();
    let b = seq![path.last()];
    assert(a + b =~= path);
    lemma_node_split(tree, a, b);
    assert(b.skip(1) =~= Seq::empty());
    let parent = tree.node(a);
    assert(parent.has_path(b));
    reveal_with_fuel(Tree::node, 2);
    reveal_with_fuel(Tree::has_path, 2);
}

/// What a node shows after one of its children was replaced.
pub proof fn lemma_view_update<N>(node: TileNode<N>, i: int)
    requires
        node is Internal,
        0 <= i < node->children@.len(),
    ensures
        forall|new: Vec<TileNode<N>>, child: TileNode<N>|
            #![trigger new@, node->children@.update(i, child)]
            new@ == node->children@.update(i, child) ==> (TileNode::Internal {
                layout: node->layout,
                children: new,
                active_idx: node->active_idx,
                data: node->data,
                tab_header: node->tab_header,
            })@ == (Tree::Internal {
                layout: node->layout,
                children: node@->children.update(i, child@),
                active_idx: node->active_idx,
                data: node->data@,
                header: header_view(node->tab_header),
            }),
{
    assert forall|new: Vec<TileNode<N>>, child: TileNode<N>|
        #![trigger new@, node->children@.update(i, child)]
        new@ == node->children@.update(i, child) implies (TileNode::Internal {
        layout: node->layout,
        children: new,
        active_idx: node->active_idx,
        data: node->data,
        tab_header: node->tab_header,
    })@ == (Tree::Internal {
        layout: node->layout,
        children: node@->children.update(i, child@),
        active_idx: node->active_idx,
        data: node->data@,
        header: header_view(node->tab_header),
    }) by {
        let after = TileNode::Internal {
            layout: node->layout,
            children: new,
            active_idx: node->active_idx,
            data: node->data,
            tab_header: node->tab_header,
        };
        assert(after@->children =~= node@->children.update(i, child@));
    }
}

impl<N> TileNode<N> {
    pub fn child_count(&self) -> (r: usize)
        ensures
            r == self@.child_count(),
    {
        match self {
            TileNode::Leaf(_) => 0,
            TileNode::Internal { children, .. } => children.len(),
        }
    }

    pub fn active_idx(&self) -> (r: usize)
        ensures
            r == self@.active_idx(),
    {
        match self {
            TileNode::Leaf(_) => 0,
            TileNode::Internal { active_idx, .. } => *active_idx,
        }
    }

    pub fn layout(&self) -> (r: Option<Layout>)
        ensures
            r == self@.layout(),
    {
        match self {
            TileNode::Leaf(_) => None,
            TileNode::Internal { layout, .. } => Some(*layout),
        }
    }

    pub fn is_leaf(&self) -> (r: bool)
        ensures
            r == (self@ is Leaf),
    {
        matches!(self, TileNode::Leaf(_))
    }

    pub fn is_tabbed(&self) -> (r: bool)
        ensures
            r == self@.is_tabbed(),
    {
        match self {
            TileNode::Leaf(_) => false,
            TileNode::Internal { layout, .. } => layout.is_tabbing(),
        }
    }

    pub fn is_main_split(&self) -> (r: bool)
        ensures
            r == self@.is_main_split(),
    {
        match self {
            TileNode::Internal { layout: Layout::SplitH, .. } => true,
            _ => false,
        }
    }

    pub fn display_mode(&self) -> (r: SectionDisplay)
        ensures
            r == self@.display_mode(),
    {
        if self.is_tabbed() {
            SectionDisplay::Tabbed
        } else {
            SectionDisplay::Normal
        }
    }

    pub fn tab_header(&self) -> (r: Option<&TabHeader<N>>)
        ensures
            match r {
                Some(header) => self@.header() == Some(header@),
                None => self@.header() is None,
            },
    {
        match self {
            TileNode::Leaf(_) => None,
            TileNode::Internal { tab_header, .. } => match tab_header {
                Some(header) => Some(header),
                None => None,
            },
        }
    }

    pub fn has_nested_children(&self) -> (r: bool)
        ensures
            r == self@.has_nested_children(),
    {
        match self {
            TileNode::Leaf(_) => false,
            TileNode::Internal { children, .. } => {
                let mut i: usize = 0;
                while i < children.len()
                    invariant
                        i <= children.len(),
                        self@ is Internal,
                        self@->children == forest_view(children@),
                        forall|j: int| 0 <= j < i ==> self@->children[j] is Leaf,
                    decreases children.len() - i,
                {
                    if !children[i].is_leaf() {
                        assert(!(self@->children[i as int] is Leaf));
                        return true;
                    }
                    i = i + 1;
                }
                false
            },
        }
    }
}

impl<N: Copy> TileNode<N> {
    /// What is kept for each child.
    pub fn child_data(&self) -> (r: Vec<SplitChildData<N>>)
        ensures
            r@ == self@.child_data(),
    {
        let mut out: Vec<SplitChildData<N>> = Vec::new();
        if let TileNode::Internal { data, .. } = self {
            let mut i: usize = 0;
            while i < data.len()
                invariant
                    i <= data.len(),
                    out@ == data@.take(i as int),
                decreases data.len() - i,
            {
                out.push(data[i]);
                assert(out@ =~= data@.take(i + 1));
                i = i + 1;
            }
            assert(data@.take(i as int) =~= data@);
        }
        out
    }

    fn push_leaves(&self, out: &mut Vec<Tile<N>>)
        ensures
            final(out)@ == old(out)@ + self@.leaves(),
        decreases self,
    {
        match self {
            TileNode::Leaf(tile) => {
                out.push(*tile);
            },
            TileNode::Internal { children, .. } => {
                let mut i: usize = 0;
                while i < children.len()
                    invariant
                        i <= children.len(),
                        decreases_to!(self => children),
                        self@ is Internal,
                        self@->children == forest_view(children@),
                        out@ == old(out)@ + Tree::forest_leaves(self@->children, i as int),
                    decreases children.len() - i,
                {
                    children[i].push_leaves(out);
                    assert(self@->children[i as int] == children@[i as int]@);
                    assert(out@ =~= old(out)@ + Tree::forest_leaves(
                        self@->children,
                        i as int + 1,
                    ));
                    i = i + 1;
                }
            },
        }
    }

    /// The tiles in depth-first order.
    pub fn leaves(&self) -> (r: Vec<Tile<N>>)
        ensures
            r@ == self@.leaves(),
    {
        let mut out: Vec<Tile<N>> = Vec::new();
        self.push_leaves(&mut out);
        assert(out@ =~= self@.leaves());
        out
    }

    pub fn leaf_count(&self) -> (r: usize)
        ensures
            r == self@.leaves().len(),
    {
        self.leaves().len()
    }
}

/// A path that goes through a child first.
fn extend_path(child: usize, path: &Vec<usize>) -> (r: Vec<usize>)
    ensures
        r@ == seq![child] + path@,
{
    let mut out: Vec<usize> = Vec::new();
    out.push(child);
    let mut i: usize = 0;
    while i < path.len()
        invariant
            i <= path.len(),
            out@ == seq![child] + path@.take(i as int),
        decreases path.len() - i,
    {
        out.push(path[i]);
        assert(out@ =~= seq![child] + path@.take(i + 1));
        i = i + 1;
    }
    assert(path@.take(i as int) =~= path@);
    out
}

/// The first `len` steps of a path.
pub fn path_prefix(path: &Vec<usize>, len: usize) -> (r: Vec<usize>)
    requires
        len <= path.len(),
    ensures
        r@ == path@.take(len as int),
{
    let mut out: Vec<usize> = Vec::new();
    let mut i: usize = 0;
    while i < len
        invariant
            i <= len,
            len <= path.len(),
            out@ == path@.take(i as int),
        decreases len - i,
    {
        out.push(path[i]);
        assert(out@ =~= path@.take(i + 1));
        i = i + 1;
    }
    out
}

/// A path followed by another one.
pub fn join_paths(a: &Vec<usize>, b: &Vec<usize>) -> (r: Vec<usize>)
    ensures
        r@ == a@ + b@,
{
    let mut out = path_prefix(a, a.len());
    assert(out@ =~= a@);
    let mut i: usize = 0;
    while i < b.len()
        invariant
            i <= b.len(),
            out@ == a@ + b@.take(i as int),
        decreases b.len() - i,
    {
        out.push(b[i]);
        assert(out@ =~= a@ + b@.take(i + 1));
        i = i + 1;
    }
    assert(b@.take(i as int) =~= b@);
    out
}

/// Whether a path begins with another one.
pub fn path_starts_with(path: &Vec<usize>, prefix: &Vec<usize>) -> (r: bool)
    ensures
        r == prefix@.is_prefix_of(path@),
{
    if path.len() < prefix.len() {
        return false;
    }
    let mut i: usize = 0;
    while i < prefix.len()
        invariant
            i <= prefix.len(),
            prefix.len() <= path.len(),
            forall|j: int| 0 <= j < i ==> prefix@[j] == path@[j],
        decreases prefix.len() - i,
    {
        if prefix[i] != path[i] {
            assert(path@.subrange(0, prefix@.len() as int)[i as int] != prefix@[i as int]);
            return false;
        }
        i = i + 1;
    }
    assert(path@.subrange(0, prefix@.len() as int) =~= prefix@);
    true
}

impl<N> TileNode<N> {
    /// The paths of the leaves, in the order of the leaves.
    pub fn leaf_paths(&self) -> (r: Vec<Vec<usize>>)
        ensures
            path_views(r@) == self@.leaf_paths(),
        decreases self,
    {
        let mut out: Vec<Vec<usize>> = Vec::new();
        match self {
            TileNode::Leaf(_) => {
                out.push(Vec::new());
                assert(path_views(out@) =~= self@.leaf_paths());
            },
            TileNode::Internal { children, .. } => {
                let mut i: usize = 0;
                assert(path_views(out@) =~= Tree::forest_paths(self@->children, 0));
                while i < children.len()
                    invariant
                        i <= children.len(),
                        decreases_to!(self => children),
                        self@ is Internal,
                        self@->children == forest_view(children@),
                        path_views(out@) == Tree::forest_paths(self@->children, i as int),
                    decreases children.len() - i,
                {
                    let below = children[i].leaf_paths();
                    let ghost before = path_views(out@);
                    let ghost child_paths = self@->children[i as int].leaf_paths();
                    assert(path_views(below@) == child_paths);
                    let mut j: usize = 0;
                    while j < below.len()
                        invariant
                            j <= below.len(),
                            path_views(below@) == child_paths,
                            path_views(out@) == before + prefixed(i, child_paths.take(j as int)),
                        decreases below.len() - j,
                    {
                        let path = extend_path(i, &below[j]);
                        let ghost had = out@;
                        assert(child_paths[j as int] == below@[j as int]@);
                        out.push(path);
                        proof {
                            let now = before + prefixed(i, child_paths.take(j + 1));
                            assert(path_views(had).len() == before.len() + j);
                            assert forall|k: int| 0 <= k < now.len() implies path_views(out@)[k]
                                == now[k] by {
                                if k < path_views(had).len() {
                                    assert(path_views(out@)[k] == path_views(had)[k]);
                                }
                            }
                            assert(path_views(out@) =~= now);
                        }
                        j = j + 1;
                    }
                    assert(child_paths.take(j as int) =~= child_paths);
                    i = i + 1;
                }
            },
        }
        out
    }

    /// The path of a leaf given by its index.
    pub fn path_for_leaf_index(&self, idx: usize) -> (r: Option<Vec<usize>>)
        ensures
            match r {
                Some(path) => self@.path_for_leaf_index(idx) == Some(path@),
                None => self@.path_for_leaf_index(idx) is None,
            },
    {
        let paths = self.leaf_paths();
        if idx < paths.len() {
            let path = path_prefix(&paths[idx], paths[idx].len());
            assert(self@.leaf_paths()[idx as int] == paths@[idx as int]@);
            assert(path@ =~= paths@[idx as int]@);
            Some(path)
        } else {
            None
        }
    }

    /// The path of the active leaf.
    pub fn active_path(&self) -> (r: Vec<usize>)
        ensures
            r@ == self@.active_path(),
        decreases self,
    {
        match self {
            TileNode::Leaf(_) => Vec::new(),
            TileNode::Internal { children, active_idx, .. } => {
                if *active_idx < children.len() {
                    assert(self@->children[*active_idx as int] == children@[*active_idx as int]@);
                    let below = children[*active_idx].active_path();
                    extend_path(*active_idx, &below)
                } else {
                    Vec::new()
                }
            },
        }
    }

    /// The index of the active leaf among the leaves.
    pub fn active_leaf_idx(&self) -> (r: usize)
        ensures
            r == self@.active_leaf_idx(),
    {
        let paths = self.leaf_paths();
        let active = self.active_path();
        match find_path(&paths, &active) {
            Some(i) => i,
            None => 0,
        }
    }

    fn node_from(&self, path: &Vec<usize>, at: usize) -> (r: &TileNode<N>)
        requires
            at <= path.len(),
            self@.has_path(path@.skip(at as int)),
        ensures
            r@ == self@.node(path@.skip(at as int)),
        decreases path.len() - at,
    {
        if at == path.len() {
            return self;
        }
        proof {
            assert(path@.skip(at as int).skip(1) =~= path@.skip(at as int + 1));
        }
        match self {
            TileNode::Leaf(_) => self,
            TileNode::Internal { children, .. } => {
                assert(self@->children[path@[at as int] as int]
                    == children@[path@[at as int] as int]@);
                children[path[at]].node_from(path, at + 1)
            },
        }
    }

    /// The node at the end of a path.
    pub fn node_at(&self, path: &Vec<usize>) -> (r: &TileNode<N>)
        requires
            self@.has_path(path@),
        ensures
            r@ == self@.node(path@),
    {
        assert(path@.skip(0) =~= path@);
        self.node_from(path, 0)
    }

    fn node_from_mut(&mut self, path: &Vec<usize>, at: usize) -> (r: &mut TileNode<N>)
        requires
            at <= path.len(),
            old(self)@.has_path(path@.skip(at as int)),
        ensures
            r@ == old(self)@.node(path@.skip(at as int)),
            final(self)@ == old(self)@.with_node(path@.skip(at as int), final(r)@),
        decreases path.len() - at,
    {
        let ghost before = *self;
        if at == path.len() {
            self
        } else {
            proof {
                assert(path@.skip(at as int).skip(1) =~= path@.skip(at as int + 1));
                assert(path@.skip(at as int)[0] == path@[at as int]);
            }
            match self {
                TileNode::Leaf(_) => self,
                TileNode::Internal { children, .. } => {
                    let i: usize = path[at];
                    proof {
                        assert(before@->children[i as int] == children@[i as int]@);
                        lemma_view_update(before, i as int);
                    }
                    children[i].node_from_mut(path, at + 1)
                },
            }
        }
    }

    /// The node at the end of a path, to change it.
    pub fn node_at_mut(&mut self, path: &Vec<usize>) -> (r: &mut TileNode<N>)
        requires
            old(self)@.has_path(path@),
        ensures
            r@ == old(self)@.node(path@),
            final(self)@ == old(self)@.with_node(path@, final(r)@),
    {
        assert(path@.skip(0) =~= path@);
        self.node_from_mut(path, 0)
    }
}

impl<N: Scalar> TileNode<N> {
    /// What is kept for the node at the end of a path.
    pub fn leaf_data(&self, path: &Vec<usize>) -> (r: Option<SplitChildData<N>>)
        requires
            self@.has_path(path@),
        ensures
            r == self@.leaf_data(path@),
    {
        if path.len() == 0 {
            return None;
        }
        proof {
            lemma_parent(self@, path@);
        }
        let parent = path_prefix(path, path.len() - 1);
        assert(parent@ =~= path@.drop_last());
        let last: usize = path[path.len() - 1];
        match self.node_at(&parent) {
            TileNode::Leaf(_) => None,
            TileNode::Internal { data, .. } => if last < data.len() {
                Some(data[last])
            } else {
                None
            },
        }
    }

    /// The tile of the active leaf.
    pub fn active_leaf(&self) -> (r: Tile<N>)
        requires
            self@.wf(),
        ensures
            r == self@.active_leaf(),
        decreases self,
    {
        match self {
            TileNode::Leaf(tile) => *tile,
            TileNode::Internal { children, active_idx, .. } => {
                assert(self@->children[*active_idx as int] == children@[*active_idx as int]@);
                children[*active_idx].active_leaf()
            },
        }
    }
}

} // verus!
