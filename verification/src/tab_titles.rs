//! What is written on tabs.
use vstd::prelude::*;

use crate::scalar::Scalar;
use crate::section::{Section, SectionView};
use crate::tab_bar::texts;
use crate::tile_node::{forest_view, Layout, TileNode, Tree};
use crate::tree_edit::lemma_view_parts;

verus! {

/// The letter that stands for a layout.
pub open spec fn letter_of(layout: Layout) -> Seq<char> {
    match layout {
        Layout::SplitH => "H"@,
        Layout::SplitV => "V"@,
        Layout::Tabbed => "T"@,
        Layout::Stacked => "S"@,
    }
}

fn letter(layout: Layout) -> (r: &'static str)
    ensures
        r@ == letter_of(layout),
{
    match layout {
        Layout::SplitH => "H",
        Layout::SplitV => "V",
        Layout::Tabbed => "T",
        Layout::Stacked => "S",
    }
}

impl<N: Scalar> Tree<N> {
    /// A tree written out, with the titles of its leaves from `from` on: the title of a single
    /// window, or else the layout with everything below it, as in `H[a V[b c]]`.
    pub open spec fn written(self, titles: Seq<Seq<char>>, from: int) -> Seq<char>
        decreases self, 0int,
    {
        match self {
            Tree::Leaf(_) => titles[from],
            Tree::Internal { layout, children, .. } => letter_of(layout) + "["@
                + Self::forest_written(children, titles, from, children.len() as int) + "]"@,
        }
    }

    /// The first `upto` children written out, one after the other.
    pub open spec fn forest_written(
        children: Seq<Tree<N>>,
        titles: Seq<Seq<char>>,
        from: int,
        upto: int,
    ) -> Seq<char>
        decreases children, upto,
    {
        if 0 < upto <= children.len() {
            Self::forest_written(children, titles, from, upto - 1) + (if upto > 1 {
                " "@
            } else {
                Seq::empty()
            }) + children[upto - 1].written(
                titles,
                from + Self::forest_leaves(children, upto - 1).len(),
            )
        } else {
            Seq::empty()
        }
    }
}

impl<N: Scalar> SectionView<N> {
    /// What is written on the tabs of a container: one title for each child.
    pub open spec fn tab_titles(self, path: Seq<usize>, titles: Seq<Seq<char>>) -> Seq<
        Seq<char>,
    > {
        Seq::new(
            self.root.node(path).child_count(),
            |i: int|
                {
                    let child = path.push(i as usize);
                    self.root.node(child).written(titles, self.root.leaves_before_node(child))
                },
        )
    }
}

proof fn lemma_forest_prefix<N>(children: Seq<Tree<N>>, i: int, upto: int)
    requires
        0 <= i < upto <= children.len(),
    ensures
        Tree::forest_leaves(children, i).len() + children[i].leaves().len()
            <= Tree::forest_leaves(children, upto).len(),
    decreases upto,
{
    if i < upto - 1 {
        lemma_forest_prefix(children, i, upto - 1);
    }
}

proof fn lemma_leaves_before<N: Scalar>(tree: Tree<N>, path: Seq<usize>)
    requires
        tree.has_path(path),
    ensures
        0 <= tree.leaves_before_node(path),
        tree.leaves_before_node(path) + tree.node(path).leaves().len() <= tree.leaves().len(),
    decreases path.len(),
{
    if path.len() > 0 {
        let children = tree->children;
        lemma_leaves_before(children[path[0] as int], path.skip(1));
        lemma_forest_prefix(children, path[0] as int, children.len() as int);
    }
}

impl<N: Scalar> TileNode<N> {
    fn push_written(&self, titles: &Vec<String>, from: usize, out: &mut String) -> (r: usize)
        requires
            from + self@.leaves().len() <= titles.len(),
        ensures
            final(out)@ == old(out)@ + self@.written(texts(titles@), from as int),
            r == from + self@.leaves().len(),
        decreases self,
    {
        match self {
            TileNode::Leaf(_) => {
                out.append(titles[from].as_str());
                from + 1
            },
            TileNode::Internal { layout, children, .. } => {
                proof {
                    lemma_view_parts(*self);
                }
                let ghost all = self@->children;
                out.append(letter(*layout));
                out.append("[");
                let ghost head = out@;
                let mut next: usize = from;
                let mut i: usize = 0;
                assert(head =~= head + Tree::forest_written(all, texts(titles@), from as int, 0));
                while i < children.len()
                    invariant
                        i <= children.len(),
                        decreases_to!(self => children),
                        self@ is Internal,
                        all == self@->children,
                        all == forest_view(children@),
                        from + Tree::forest_leaves(all, all.len() as int).len() <= titles@.len(),
                        next == from + Tree::forest_leaves(all, i as int).len(),
                        out@ == head + Tree::forest_written(
                            all,
                            texts(titles@),
                            from as int,
                            i as int,
                        ),
                    decreases children.len() - i,
                {
                    proof {
                        lemma_forest_prefix(all, i as int, all.len() as int);
                        assert(all[i as int] == children@[i as int]@);
                    }
                    if i > 0 {
                        out.append(" ");
                    }
                    next = children[i].push_written(titles, next, out);
                    assert(out@ =~= head + Tree::forest_written(
                        all,
                        texts(titles@),
                        from as int,
                        i as int + 1,
                    ));
                    i = i + 1;
                }
                out.append("]");
                assert(out@ =~= old(out)@ + self@.written(texts(titles@), from as int));
                next
            },
        }
    }

    /// The tree written out, with the titles of its windows: the title of a single window, or else
    /// the layout with everything below it, as in `H[a V[b c]]`.
    pub fn tree_repr(&self, titles: &Vec<String>) -> (r: String)
        requires
            self@.leaves().len() <= titles@.len(),
        ensures
            r@ == self@.written(texts(titles@), 0),
    {
        let mut out = String::new();
        self.push_written(titles, 0, &mut out);
        assert(out@ =~= self@.written(texts(titles@), 0));
        out
    }

    fn count_before(&self, path: &Vec<usize>, at: usize) -> (r: usize)
        requires
            at <= path@.len(),
            self@.has_path(path@.skip(at as int)),
            self@.leaves().len() <= usize::MAX,
        ensures
            r == self@.leaves_before_node(path@.skip(at as int)),
        decreases path@.len() - at,
    {
        proof {
            lemma_leaves_before(self@, path@.skip(at as int));
        }
        if at == path.len() {
            return 0;
        }
        match self {
            TileNode::Leaf(_) => 0,
            TileNode::Internal { children, .. } => {
                let child: usize = path[at];
                proof {
                    lemma_view_parts(*self);
                    assert(path@.skip(at as int)[0] == child);
                    assert(path@.skip(at as int).skip(1) =~= path@.skip(at + 1));
                    lemma_forest_prefix(
                        self@->children,
                        child as int,
                        self@->children.len() as int,
                    );
                }
                let ghost all = self@->children;
                let mut before: usize = 0;
                let mut i: usize = 0;
                while i < child
                    invariant
                        i <= child < children.len(),
                        all == forest_view(children@),
                        before == Tree::forest_leaves(all, i as int).len(),
                        Tree::forest_leaves(all, all.len() as int).len() <= usize::MAX,
                    decreases child - i,
                {
                    proof {
                        lemma_forest_prefix(all, i as int, all.len() as int);
                        assert(all[i as int] == children@[i as int]@);
                    }
                    before = before + children[i].leaf_count();
                    i = i + 1;
                }
                assert(all[child as int] == children@[child as int]@);
                before + children[child].count_before(path, at + 1)
            },
        }
    }
}

impl<N: Scalar> Section<N> {
    /// What is written on the tabs of a container, given the titles of all windows of the section:
    /// one title for each child. A tab over a group of windows shows the group.
    pub fn tab_titles(&self, path: &Vec<usize>, titles: &Vec<String>) -> (r: Vec<String>)
        requires
            self@.wf(),
            self@.root.has_path(path@),
            titles@.len() == self@.tiles().len(),
        ensures
            texts(r@) == self@.tab_titles(path@, texts(titles@)),
    {
        let count: usize = self.root.node_at(path).child_count();
        let ghost expected = self@.tab_titles(path@, texts(titles@));
        let mut out: Vec<String> = Vec::new();
        let mut i: usize = 0;
        while i < count
            invariant
                i <= count,
                count == self@.root.node(path@).child_count(),
                self@.wf(),
                self@.root.has_path(path@),
                titles@.len() == self@.tiles().len(),
                expected == self@.tab_titles(path@, texts(titles@)),
                out.len() == i,
                forall|j: int| 0 <= j < i ==> (#[trigger] out@[j])@ == expected[j],
            decreases count - i,
        {
            let mut child = path.clone();
            child.push(i);
            proof {
                crate::section_edit::lemma_extend(self@.root, path@, i);
                assert(child@ =~= path@.push(i));
                lemma_leaves_before(self@.root, child@);
                assert(child@.skip(0) =~= child@);
            }
            let before: usize = self.root.count_before(&child, 0);
            let mut title = String::new();
            self.root.node_at(&child).push_written(titles, before, &mut title);
            assert(title@ =~= expected[i as int]);
            out.push(title);
            i = i + 1;
        }
        assert(texts(out@) =~= expected);
        out
    }
}

} // verus!
