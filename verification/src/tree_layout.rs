//! Sizes and positions in a tree of tiles.
use vstd::prelude::*;

use crate::axis::AxisMap;
use crate::config::TabHeaderConfig;
use crate::geometry::{Point, Size};
use crate::scalar::{num, Scalar};
use crate::tile_node::{
    forest_view, path_views, prefixed, ChildSpan, Layout, SplitChildData, TileNode, Tree,
};
use crate::tree_edit::lemma_view_parts;

verus! {

/// Where a leaf stands.
#[derive(Clone, Copy, PartialEq, Eq, Debug)]
pub struct LeafLayout<N> {
    pub pos: Point<N>,
    /// The span of the leaf along the main axis.
    pub main_size: N,
    /// Whether the leaf starts where the section starts along the main axis.
    pub aligned: bool,
    pub resizing_by_start: bool,
}

/// What sizes in a tree depend on besides the tree.
#[derive(Clone, Copy, PartialEq, Eq, Debug)]
pub struct Measures<N> {
    pub gaps: N,
    pub scale: N,
    pub axis: AxisMap,
}

/// The greater of two spans; the second one where neither is greater.
pub open spec fn later_max<N: Scalar>(a: N, b: N) -> N {
    if b < a {
        a
    } else {
        b
    }
}

/// The lesser of two spans; the first one where neither is less.
pub open spec fn earlier_min<N: Scalar>(a: N, b: N) -> N {
    if b < a {
        b
    } else {
        a
    }
}

pub fn pick_later_max<N: Scalar>(a: N, b: N) -> (r: N)
    ensures
        r == later_max(a, b),
{
    if b.lt(a) {
        a
    } else {
        b
    }
}

pub fn pick_earlier_min<N: Scalar>(a: N, b: N) -> (r: N)
    ensures
        r == earlier_min(a, b),
{
    if b.lt(a) {
        b
    } else {
        a
    }
}

/// The sum of the first `upto` numbers.
pub open spec fn sum_upto<N: Scalar>(values: Seq<N>, upto: int) -> N
    decreases upto,
{
    if upto <= 0 {
        num::<N>(0)
    } else {
        sum_upto(values, upto - 1) + values[upto - 1]
    }
}

/// The greatest of the first `upto` numbers, which are at least one.
pub open spec fn max_upto<N: Scalar>(values: Seq<N>, upto: int) -> N
    decreases upto,
{
    if upto <= 1 {
        values[0]
    } else {
        later_max(max_upto(values, upto - 1), values[upto - 1])
    }
}

/// The least of the first `upto` numbers, which are at least one.
pub open spec fn min_upto<N: Scalar>(values: Seq<N>, upto: int) -> N
    decreases upto,
{
    if upto <= 1 {
        values[0]
    } else {
        earlier_min(min_upto(values, upto - 1), values[upto - 1])
    }
}

pub fn sum_of<N: Scalar>(values: &Vec<N>) -> (r: N)
    ensures
        r == sum_upto(values@, values@.len() as int),
{
    let mut total = N::of_int(0);
    let mut i: usize = 0;
    while i < values.len()
        invariant
            i <= values.len(),
            total == sum_upto(values@, i as int),
        decreases values.len() - i,
    {
        total = total.add(values[i]);
        i = i + 1;
    }
    total
}

pub fn max_of<N: Scalar>(values: &Vec<N>) -> (r: N)
    requires
        values.len() > 0,
    ensures
        r == max_upto(values@, values@.len() as int),
{
    let mut best = values[0];
    let mut i: usize = 1;
    while i < values.len()
        invariant
            1 <= i <= values.len(),
            best == max_upto(values@, i as int),
        decreases values.len() - i,
    {
        best = pick_later_max(best, values[i]);
        i = i + 1;
    }
    best
}

pub fn min_of<N: Scalar>(values: &Vec<N>) -> (r: N)
    requires
        values.len() > 0,
    ensures
        r == min_upto(values@, values@.len() as int),
{
    let mut best = values[0];
    let mut i: usize = 1;
    while i < values.len()
        invariant
            1 <= i <= values.len(),
            best == min_upto(values@, i as int),
        decreases values.len() - i,
    {
        best = pick_earlier_min(best, values[i]);
        i = i + 1;
    }
    best
}

impl<N: Scalar> Tree<N> {
    /// Which leaves are shown: those that no tab on their path hides.
    pub open spec fn visibility(self, shown: bool) -> Seq<bool>
        decreases self, 0int,
    {
        match self {
            Tree::Leaf(_) => seq![shown],
            Tree::Internal { layout, children, active_idx, .. } => Self::forest_visibility(
                children,
                layout,
                active_idx,
                shown,
                children.len() as int,
            ),
        }
    }

    pub open spec fn forest_visibility(
        children: Seq<Tree<N>>,
        layout: Layout,
        active_idx: usize,
        shown: bool,
        upto: int,
    ) -> Seq<bool>
        decreases children, upto,
    {
        if 0 < upto <= children.len() {
            Self::forest_visibility(children, layout, active_idx, shown, upto - 1)
                + children[upto - 1].visibility(
                shown && (!layout.spec_is_tabbing() || upto - 1 == active_idx),
            )
        } else {
            Seq::empty()
        }
    }

    /// Where the children of the node start.
    pub open spec fn content_origin(self, origin: Point<N>, scale: N, is_root: bool) -> Point<N> {
        match self {
            Tree::Leaf(_) => origin,
            Tree::Internal { layout, children, header, .. } => if layout.spec_is_tabbing()
                && !is_root && header is Some {
                origin + header->0.content_offset(children.len() as usize, scale)
            } else {
                origin
            },
        }
    }

    /// The positions of the leaves, in the order of the leaves.
    pub open spec fn leaf_layout(
        self,
        slot: SplitChildData<N>,
        origin: Point<N>,
        gaps: N,
        scale: N,
        aligned: bool,
        is_root: bool,
    ) -> Seq<LeafLayout<N>>
        decreases self, 0int,
    {
        match self {
            Tree::Leaf(_) => seq![
                LeafLayout {
                    pos: origin,
                    main_size: slot.size.w,
                    aligned,
                    resizing_by_start: slot.interactively_resizing_by_start_edge,
                },
            ],
            Tree::Internal { layout, children, data, .. } => Self::forest_layout(
                children,
                layout,
                data,
                self.content_origin(origin, scale, is_root),
                gaps,
                scale,
                aligned && layout != Layout::SplitH,
                children.len() as int,
            ),
        }
    }

    pub open spec fn forest_layout(
        children: Seq<Tree<N>>,
        layout: Layout,
        data: Seq<SplitChildData<N>>,
        origin: Point<N>,
        gaps: N,
        scale: N,
        aligned: bool,
        upto: int,
    ) -> Seq<LeafLayout<N>>
        decreases children, upto,
    {
        if 0 < upto <= children.len() {
            Self::forest_layout(children, layout, data, origin, gaps, scale, aligned, upto - 1)
                + children[upto - 1].leaf_layout(
                data[upto - 1],
                child_origin(layout, data, origin, gaps, upto - 1),
                gaps,
                scale,
                aligned,
                false,
            )
        } else {
            Seq::empty()
        }
    }

    /// The least span along the main axis (or else the cross axis) that the tiles can have.
    pub open spec fn min_span(self, axis: AxisMap, main: bool) -> N
        decreases self, 0int,
    {
        match self {
            Tree::Leaf(tile) => {
                let size = axis.spec_size(tile.min_size_nonfullscreen);
                if main {
                    size.w.spec_max(num::<N>(1))
                } else {
                    size.h
                }
            },
            Tree::Internal { layout, children, .. } => {
                let spans = Self::min_spans(children, axis, main);
                if spans.len() == 0 {
                    num::<N>(0)
                } else if layout == if main {
                    Layout::SplitH
                } else {
                    Layout::SplitV
                } {
                    sum_upto(spans, spans.len() as int)
                } else {
                    max_upto(spans, spans.len() as int)
                }
            },
        }
    }

    pub open spec fn min_spans(children: Seq<Tree<N>>, axis: AxisMap, main: bool) -> Seq<N>
        decreases children, 0int,
    {
        Seq::new(
            children.len(),
            |i: int|
                if 0 <= i < children.len() {
                    children[i].min_span(axis, main)
                } else {
                    arbitrary()
                },
        )
    }

    /// The greatest span along the main axis that the tiles can have.
    pub open spec fn max_main_span(self, axis: AxisMap) -> N
        decreases self, 0int,
    {
        match self {
            Tree::Leaf(tile) => {
                let size = axis.spec_size(tile.max_size_nonfullscreen);
                if size.w.spec_same(num::<N>(0)) {
                    num::<N>(i32::MAX as int)
                } else {
                    size.w
                }
            },
            Tree::Internal { layout, children, .. } => {
                let spans = Self::max_main_spans(children, axis);
                if spans.len() == 0 {
                    num::<N>(0)
                } else if layout == Layout::SplitH {
                    sum_upto(spans, spans.len() as int)
                } else {
                    min_upto(spans, spans.len() as int)
                }
            },
        }
    }

    pub open spec fn max_main_spans(children: Seq<Tree<N>>, axis: AxisMap) -> Seq<N>
        decreases children, 0int,
    {
        Seq::new(
            children.len(),
            |i: int|
                if 0 <= i < children.len() {
                    children[i].max_main_span(axis)
                } else {
                    arbitrary()
                },
        )
    }

    /// The sizes of the children of a node that has a size to give.
    pub open spec fn child_sizes(self, available: Size<N>, measures: Measures<N>) -> Seq<Size<N>> {
        match self {
            Tree::Leaf(_) => Seq::empty(),
            Tree::Internal { layout, children, data, header, .. } => {
                let mins = Seq::new(
                    children.len(),
                    |i: int| children[i].min_span(measures.axis, layout == Layout::SplitH),
                );
                let all_gaps = measures.gaps * (num::<N>(children.len() as int) - num::<N>(1));
                let extra = if header is Some {
                    header->0.extra_size(children.len() as usize, measures.scale).h
                } else {
                    num::<N>(0)
                };
                Seq::new(
                    children.len(),
                    |i: int|
                        match layout {
                            Layout::SplitH => Size {
                                w: shared_span(data, mins, available.w - all_gaps, i),
                                h: available.h,
                            },
                            Layout::SplitV => Size {
                                w: available.w,
                                h: shared_span(data, mins, available.h - all_gaps, i),
                            },
                            _ => Size {
                                w: available.w,
                                h: (available.h - extra).spec_max(num::<N>(1)),
                            },
                        },
                )
            },
        }
    }

    /// The tree with a size given to the children of every node.
    pub open spec fn sized(self, available: Size<N>, measures: Measures<N>) -> Self
        decreases self,
    {
        match self {
            Tree::Leaf(_) => self,
            Tree::Internal { layout, children, active_idx, data, header } => {
                let sizes = self.child_sizes(available, measures);
                Tree::Internal {
                    layout,
                    children: Seq::new(
                        children.len(),
                        |i: int|
                            if 0 <= i < children.len() {
                                children[i].sized(sizes[i], measures)
                            } else {
                                arbitrary()
                            },
                    ),
                    active_idx,
                    data: with_sizes(data, sizes),
                    header,
                }
            },
        }
    }

    /// The paths of the nodes that show their children as tabs, each node before those below it.
    pub open spec fn tabbed_paths(self) -> Seq<Seq<usize>>
        decreases self, 0int,
    {
        match self {
            Tree::Leaf(_) => Seq::empty(),
            Tree::Internal { layout, children, .. } => {
                let own: Seq<Seq<usize>> = if layout.spec_is_tabbing() {
                    seq![Seq::empty()]
                } else {
                    Seq::empty()
                };
                own + Self::forest_tabbed_paths(children, children.len() as int)
            },
        }
    }

    pub open spec fn forest_tabbed_paths(children: Seq<Tree<N>>, upto: int) -> Seq<Seq<usize>>
        decreases children, upto,
    {
        if 0 < upto <= children.len() {
            Self::forest_tabbed_paths(children, upto - 1) + prefixed(
                (upto - 1) as usize,
                children[upto - 1].tabbed_paths(),
            )
        } else {
            Seq::empty()
        }
    }

    /// The tree told of another view and of another look of headers.
    pub open spec fn configured(
        self,
        view_size: Size<N>,
        scale: N,
        config: TabHeaderConfig<N>,
    ) -> Self
        decreases self,
    {
        match self {
            Tree::Leaf(tile) => Tree::Leaf(tile.configured(view_size, scale)),
            Tree::Internal { layout, children, active_idx, data, header } => Tree::Internal {
                layout,
                children: Seq::new(
                    children.len(),
                    |i: int|
                        if 0 <= i < children.len() {
                            children[i].configured(view_size, scale, config)
                        } else {
                            arbitrary()
                        },
                ),
                active_idx,
                data,
                header: match header {
                    Some(header) => Some(
                        header.with_config(config).with_stacked(layout == Layout::Stacked),
                    ),
                    None => None,
                },
            },
        }
    }
}

/// Where the child `i` of a node starts, when the children start at `origin`.
pub open spec fn child_origin<N: Scalar>(
    layout: Layout,
    data: Seq<SplitChildData<N>>,
    origin: Point<N>,
    gaps: N,
    i: int,
) -> Point<N>
    decreases i,
{
    if i <= 0 {
        origin
    } else {
        after_child(layout, child_origin(layout, data, origin, gaps, i - 1), data[i - 1], gaps)
    }
}

/// Where the next child starts.
pub open spec fn after_child<N: Scalar>(
    layout: Layout,
    at: Point<N>,
    data: SplitChildData<N>,
    gaps: N,
) -> Point<N> {
    match layout {
        Layout::SplitH => Point { x: at.x + (data.size.w + gaps), y: at.y },
        Layout::SplitV => Point { x: at.x, y: at.y + (data.size.h + gaps) },
        _ => at,
    }
}

/// What fixed children take of a span, never less than they need.
pub open spec fn fixed_span<N: Scalar>(data: SplitChildData<N>, least: N) -> N {
    match data.span {
        ChildSpan::Fixed(span) => span.spec_max(least),
        _ => num::<N>(0),
    }
}

/// The weight of a child in the division of what fixed children leave.
pub open spec fn auto_weight<N: Scalar>(data: SplitChildData<N>) -> N {
    match data.span {
        ChildSpan::Auto { weight } => weight,
        ChildSpan::Fixed(_) => num::<N>(0),
        ChildSpan::Preset(_) => num::<N>(1),
    }
}

/// The span of a child: fixed, or by its weight a share of what is left, never less than it needs.
pub open spec fn shared_span<N: Scalar>(
    data: Seq<SplitChildData<N>>,
    mins: Seq<N>,
    total: N,
    i: int,
) -> N {
    let fixed = Seq::new(data.len(), |j: int| fixed_span(data[j], mins[j]));
    let weights = Seq::new(data.len(), |j: int| auto_weight(data[j]));
    match data[i].span {
        ChildSpan::Fixed(span) => span.spec_max(mins[i]),
        _ => ((total - sum_upto(fixed, fixed.len() as int)) * auto_weight(data[i]).spec_div(
            sum_upto(weights, weights.len() as int),
        )).spec_max(mins[i]),
    }
}

/// Data with other sizes.
pub open spec fn with_sizes<N>(
    data: Seq<SplitChildData<N>>,
    sizes: Seq<Size<N>>,
) -> Seq<SplitChildData<N>> {
    Seq::new(
        data.len(),
        |i: int|
            if i < sizes.len() {
                SplitChildData { size: sizes[i], ..data[i] }
            } else {
                data[i]
            },
    )
}

/// There is one answer about visibility for each leaf.
pub proof fn lemma_visibility_len<N: Scalar>(tree: Tree<N>, shown: bool)
    ensures
        tree.visibility(shown).len() == tree.leaves().len(),
    decreases tree, 0int,
{
    if let Tree::Internal { layout, children, active_idx, .. } = tree {
        lemma_forest_visibility_len(children, layout, active_idx, shown, children.len() as int);
    }
}

proof fn lemma_forest_visibility_len<N: Scalar>(
    children: Seq<Tree<N>>,
    layout: Layout,
    active_idx: usize,
    shown: bool,
    upto: int,
)
    requires
        0 <= upto <= children.len(),
    ensures
        Tree::forest_visibility(children, layout, active_idx, shown, upto).len()
            == Tree::forest_leaves(children, upto).len(),
    decreases children, upto,
{
    if upto > 0 {
        lemma_forest_visibility_len(children, layout, active_idx, shown, upto - 1);
        lemma_visibility_len(
            children[upto - 1],
            shown && (!layout.spec_is_tabbing() || upto - 1 == active_idx),
        );
    }
}

/// There is one position for each leaf.
pub proof fn lemma_layout_len<N: Scalar>(
    tree: Tree<N>,
    slot: SplitChildData<N>,
    origin: Point<N>,
    gaps: N,
    scale: N,
    aligned: bool,
    is_root: bool,
)
    ensures
        tree.leaf_layout(slot, origin, gaps, scale, aligned, is_root).len() == tree.leaves().len(),
    decreases tree, 0int,
{
    if let Tree::Internal { layout, children, data, .. } = tree {
        lemma_forest_layout_len(
            children,
            layout,
            data,
            tree.content_origin(origin, scale, is_root),
            gaps,
            scale,
            aligned && layout != Layout::SplitH,
            children.len() as int,
        );
    }
}

proof fn lemma_forest_layout_len<N: Scalar>(
    children: Seq<Tree<N>>,
    layout: Layout,
    data: Seq<SplitChildData<N>>,
    origin: Point<N>,
    gaps: N,
    scale: N,
    aligned: bool,
    upto: int,
)
    requires
        0 <= upto <= children.len(),
    ensures
        Tree::forest_layout(children, layout, data, origin, gaps, scale, aligned, upto).len()
            == Tree::forest_leaves(children, upto).len(),
    decreases children, upto,
{
    if upto > 0 {
        lemma_forest_layout_len(
            children,
            layout,
            data,
            origin,
            gaps,
            scale,
            aligned,
            upto - 1,
        );
        lemma_layout_len(
            children[upto - 1],
            data[upto - 1],
            child_origin(layout, data, origin, gaps, upto - 1),
            gaps,
            scale,
            aligned,
            false,
        );
    }
}

/// Giving sizes keeps everything but the sizes.
pub proof fn lemma_sized<N: Scalar>(tree: Tree<N>, available: Size<N>, measures: Measures<N>)
    ensures
        tree.wf() ==> tree.sized(available, measures).wf(),
        tree.sized(available, measures).leaves() == tree.leaves(),
        tree.sized(available, measures).leaf_paths() == tree.leaf_paths(),
        tree.sized(available, measures).active_path() == tree.active_path(),
        tree.sized(available, measures).active_leaf() == tree.active_leaf(),
        tree is Internal <==> tree.sized(available, measures) is Internal,
        forall|p: Seq<usize>| #[trigger]
            tree.sized(available, measures).has_path(p) == tree.has_path(p),
        forall|p: Seq<usize>|
            tree.has_path(p) ==> ((#[trigger] tree.sized(available, measures).node(p)) is Leaf
                <==> tree.node(p) is Leaf),
    decreases tree,
{
    let new = tree.sized(available, measures);
    if let Tree::Internal { children, active_idx, .. } = tree {
        let sizes = tree.child_sizes(available, measures);
        assert forall|i: int| 0 <= i < children.len() implies #[trigger] children[i].leaves()
            == new->children[i].leaves() && children[i].leaf_paths()
            == new->children[i].leaf_paths() by {
            lemma_sized(children[i], sizes[i], measures);
        }
        crate::tree_edit::lemma_forest_same(children, new->children, children.len() as int);
        if tree.wf() {
            assert forall|i: int| 0 <= i < new->children.len() implies (#[trigger] new->children[i]).wf() by {
                lemma_sized(children[i], sizes[i], measures);
                assert(children[i].wf());
            }
        }
        if active_idx < children.len() {
            lemma_sized(children[active_idx as int], sizes[active_idx as int], measures);
        }
        assert forall|p: Seq<usize>| #[trigger] new.has_path(p) == tree.has_path(p) by {
            if p.len() > 0 && p[0] < children.len() {
                lemma_sized(children[p[0] as int], sizes[p[0] as int], measures);
                assert(new->children[p[0] as int].has_path(p.skip(1))
                    == children[p[0] as int].has_path(p.skip(1)));
            }
        }
        assert forall|p: Seq<usize>| tree.has_path(p) implies ((#[trigger] new.node(p)) is Leaf
            <==> tree.node(p) is Leaf) by {
            if p.len() > 0 {
                lemma_sized(children[p[0] as int], sizes[p[0] as int], measures);
                assert(new->children[p[0] as int].node(p.skip(1)) is Leaf
                    <==> children[p[0] as int].node(p.skip(1)) is Leaf);
            }
        }
    } else {
        assert forall|p: Seq<usize>| #[trigger] new.has_path(p) == tree.has_path(p) by {}
    }
}

/// Configuring keeps a tree in order.
pub proof fn lemma_configured<N: Scalar>(
    tree: Tree<N>,
    view_size: Size<N>,
    scale: N,
    config: TabHeaderConfig<N>,
)
    ensures
        tree.wf() ==> tree.configured(view_size, scale, config).wf(),
        tree.configured(view_size, scale, config).leaf_paths() == tree.leaf_paths(),
        tree.configured(view_size, scale, config).leaves().len() == tree.leaves().len(),
        tree is Internal <==> tree.configured(view_size, scale, config) is Internal,
        forall|i: int|
            0 <= i < tree.leaves().len() ==> #[trigger] tree.configured(
                view_size,
                scale,
                config,
            ).leaves()[i] == tree.leaves()[i].configured(view_size, scale),
    decreases tree, 0int,
{
    let new = tree.configured(view_size, scale, config);
    if let Tree::Internal { children, active_idx, .. } = tree {
        if tree.wf() {
            assert forall|i: int| 0 <= i < new->children.len() implies (#[trigger] new->children[i]).wf() by {
                lemma_configured(children[i], view_size, scale, config);
                assert(children[i].wf());
            }
        }
        lemma_configured_forest(
            children,
            new->children,
            view_size,
            scale,
            config,
            children.len() as int,
        );
    }
}

proof fn lemma_configured_forest<N: Scalar>(
    children: Seq<Tree<N>>,
    new: Seq<Tree<N>>,
    view_size: Size<N>,
    scale: N,
    config: TabHeaderConfig<N>,
    upto: int,
)
    requires
        0 <= upto <= children.len(),
        new.len() == children.len(),
        forall|i: int|
            0 <= i < children.len() ==> #[trigger] new[i] == children[i].configured(
                view_size,
                scale,
                config,
            ),
    ensures
        Tree::forest_paths(new, upto) == Tree::forest_paths(children, upto),
        Tree::forest_leaves(new, upto).len() == Tree::forest_leaves(children, upto).len(),
        forall|i: int|
            0 <= i < Tree::forest_leaves(children, upto).len() ==> #[trigger] Tree::forest_leaves(
                new,
                upto,
            )[i] == Tree::forest_leaves(children, upto)[i].configured(view_size, scale),
    decreases children, upto,
{
    if upto > 0 {
        lemma_configured_forest(children, new, view_size, scale, config, upto - 1);
        lemma_configured(children[upto - 1], view_size, scale, config);
        assert(new[upto - 1] == children[upto - 1].configured(view_size, scale, config));
        let before = Tree::forest_leaves(children, upto - 1);
        let before_new = Tree::forest_leaves(new, upto - 1);
        let own = children[upto - 1].leaves();
        let own_new = new[upto - 1].leaves();
        assert forall|i: int| 0 <= i < Tree::forest_leaves(children, upto).len() implies #[trigger] Tree::forest_leaves(
            new,
            upto,
        )[i] == Tree::forest_leaves(children, upto)[i].configured(view_size, scale) by {
            if i < before.len() {
                assert(before_new[i] == before[i].configured(view_size, scale));
            } else {
                let j = i - before.len();
                assert(own_new[j] == own[j].configured(view_size, scale));
            }
        }
    }
}

impl<N: Scalar> TileNode<N> {
    fn push_visibility(&self, shown: bool, out: &mut Vec<bool>)
        ensures
            final(out)@ == old(out)@ + self@.visibility(shown),
        decreases self,
    {
        match self {
            TileNode::Leaf(_) => {
                out.push(shown);
            },
            TileNode::Internal { layout, children, active_idx, .. } => {
                let mut i: usize = 0;
                proof {
                    lemma_view_parts(*self);
                }
                while i < children.len()
                    invariant
                        i <= children.len(),
                        decreases_to!(self => children),
                        self@ is Internal,
                        self@->children == forest_view(children@),
                        out@ == old(out)@ + Tree::forest_visibility(
                            self@->children,
                            *layout,
                            *active_idx,
                            shown,
                            i as int,
                        ),
                    decreases children.len() - i,
                {
                    children[i].push_visibility(
                        shown && (!layout.is_tabbing() || i == *active_idx),
                        out,
                    );
                    assert(self@->children[i as int] == children@[i as int]@);
                    assert(out@ =~= old(out)@ + Tree::forest_visibility(
                        self@->children,
                        *layout,
                        *active_idx,
                        shown,
                        i as int + 1,
                    ));
                    i = i + 1;
                }
            },
        }
    }

    /// Which leaves are shown: those that no tab on their path hides.
    pub fn leaf_visibility(&self) -> (r: Vec<bool>)
        ensures
            r@ == self@.visibility(true),
    {
        let mut out: Vec<bool> = Vec::new();
        self.push_visibility(true, &mut out);
        assert(out@ =~= self@.visibility(true));
        out
    }

    fn push_layout(
        &self,
        slot: SplitChildData<N>,
        origin: Point<N>,
        gaps: N,
        scale: N,
        aligned: bool,
        is_root: bool,
        out: &mut Vec<LeafLayout<N>>,
    )
        requires
            self@.wf(),
        ensures
            final(out)@ == old(out)@ + self@.leaf_layout(
                slot,
                origin,
                gaps,
                scale,
                aligned,
                is_root,
            ),
        decreases self,
    {
        match self {
            TileNode::Leaf(_) => {
                out.push(
                    LeafLayout {
                        pos: origin,
                        main_size: slot.size.w,
                        aligned,
                        resizing_by_start: slot.interactively_resizing_by_start_edge,
                    },
                );
            },
            TileNode::Internal { layout, children, data, tab_header, .. } => {
                proof {
                    lemma_view_parts(*self);
                }
                let mut start = origin;
                if layout.is_tabbing() && !is_root {
                    if let Some(header) = tab_header {
                        start = origin.add(header.content_offset(children.len(), scale));
                    }
                }
                let ghost content = self@.content_origin(origin, scale, is_root);
                assert(start == content);
                let inner_aligned = aligned && !matches!(layout, Layout::SplitH);
                let mut at = start;
                let mut i: usize = 0;
                while i < children.len()
                    invariant
                        i <= children.len(),
                        decreases_to!(self => children),
                        self@ is Internal,
                        self@.wf(),
                        self@->children == forest_view(children@),
                        self@->data == data@,
                        data.len() == children.len(),
                        inner_aligned == (aligned && *layout != Layout::SplitH),
                        at == child_origin(*layout, data@, content, gaps, i as int),
                        out@ == old(out)@ + Tree::forest_layout(
                            self@->children,
                            *layout,
                            data@,
                            content,
                            gaps,
                            scale,
                            inner_aligned,
                            i as int,
                        ),
                    decreases children.len() - i,
                {
                    assert(self@->children[i as int] == children@[i as int]@);
                    children[i].push_layout(data[i], at, gaps, scale, inner_aligned, false, out);
                    assert(out@ =~= old(out)@ + Tree::forest_layout(
                        self@->children,
                        *layout,
                        data@,
                        content,
                        gaps,
                        scale,
                        inner_aligned,
                        i as int + 1,
                    ));
                    at = match layout {
                        Layout::SplitH => Point {
                            x: at.x.add(data[i].size.w.add(gaps)),
                            y: at.y,
                        },
                        Layout::SplitV => Point {
                            x: at.x,
                            y: at.y.add(data[i].size.h.add(gaps)),
                        },
                        _ => at,
                    };
                    i = i + 1;
                }
            },
        }
    }

    /// The positions of the leaves of a section that starts at `origin`.
    pub fn leaf_layout(&self, origin: Point<N>, gaps: N, scale: N) -> (r: Vec<LeafLayout<N>>)
        requires
            self@.wf(),
        ensures
            r@ == self@.leaf_layout(
                SplitChildData::spec_new_auto(),
                origin,
                gaps,
                scale,
                true,
                true,
            ),
    {
        let mut out: Vec<LeafLayout<N>> = Vec::new();
        let slot = SplitChildData::new_auto();
        self.push_layout(slot, origin, gaps, scale, true, true, &mut out);
        assert(out@ =~= self@.leaf_layout(
            SplitChildData::spec_new_auto(),
            origin,
            gaps,
            scale,
            true,
            true,
        ));
        out
    }

    /// The least span along one axis that the tiles can have.
    pub fn min_span(&self, axis: AxisMap, main: bool) -> (r: N)
        ensures
            r == self@.min_span(axis, main),
        decreases self,
    {
        match self {
            TileNode::Leaf(tile) => {
                let size = axis.size_in(tile.min_size_nonfullscreen);
                if main {
                    size.w.max(N::of_int(1))
                } else {
                    size.h
                }
            },
            TileNode::Internal { layout, children, .. } => {
                proof {
                    lemma_view_parts(*self);
                }
                let ghost nodes = self@->children;
                let ghost all = Tree::min_spans(nodes, axis, main);
                let mut spans: Vec<N> = Vec::new();
                let mut i: usize = 0;
                while i < children.len()
                    invariant
                        i <= children.len(),
                        decreases_to!(self => children),
                        nodes == forest_view(children@),
                        spans.len() == i,
                        forall|j: int| 0 <= j < i ==> spans@[j] == nodes[j].min_span(axis, main),
                    decreases children.len() - i,
                {
                    assert(nodes[i as int] == children@[i as int]@);
                    spans.push(children[i].min_span(axis, main));
                    i = i + 1;
                }
                assert(spans@ =~= all);
                if spans.len() == 0 {
                    N::of_int(0)
                } else if (main && matches!(layout, Layout::SplitH)) || (!main && matches!(
                    layout,
                    Layout::SplitV
                )) {
                    sum_of(&spans)
                } else {
                    max_of(&spans)
                }
            },
        }
    }

    /// The greatest span along the main axis that the tiles can have.
    pub fn max_main_span(&self, axis: AxisMap) -> (r: N)
        ensures
            r == self@.max_main_span(axis),
        decreases self,
    {
        match self {
            TileNode::Leaf(tile) => {
                let size = axis.size_in(tile.max_size_nonfullscreen);
                if size.w.same(N::of_int(0)) {
                    N::of_int(i32::MAX as i64)
                } else {
                    size.w
                }
            },
            TileNode::Internal { layout, children, .. } => {
                proof {
                    lemma_view_parts(*self);
                }
                let ghost nodes = self@->children;
                let ghost all = Tree::max_main_spans(nodes, axis);
                let mut spans: Vec<N> = Vec::new();
                let mut i: usize = 0;
                while i < children.len()
                    invariant
                        i <= children.len(),
                        decreases_to!(self => children),
                        nodes == forest_view(children@),
                        spans.len() == i,
                        forall|j: int| 0 <= j < i ==> spans@[j] == nodes[j].max_main_span(axis),
                    decreases children.len() - i,
                {
                    assert(nodes[i as int] == children@[i as int]@);
                    spans.push(children[i].max_main_span(axis));
                    i = i + 1;
                }
                assert(spans@ =~= all);
                if spans.len() == 0 {
                    N::of_int(0)
                } else if matches!(layout, Layout::SplitH) {
                    sum_of(&spans)
                } else {
                    min_of(&spans)
                }
            },
        }
    }

    /// The span of a child along the axis of its parent.
    fn share(data: &Vec<SplitChildData<N>>, mins: &Vec<N>, total: N, i: usize) -> (r: N)
        requires
            i < data.len(),
            data.len() == mins.len(),
        ensures
            r == shared_span(data@, mins@, total, i as int),
    {
        let mut fixed: Vec<N> = Vec::new();
        let mut weights: Vec<N> = Vec::new();
        let mut j: usize = 0;
        while j < data.len()
            invariant
                j <= data.len(),
                data.len() == mins.len(),
                fixed.len() == j,
                weights.len() == j,
                forall|k: int| 0 <= k < j ==> fixed@[k] == fixed_span(data@[k], mins@[k]),
                forall|k: int| 0 <= k < j ==> weights@[k] == auto_weight(data@[k]),
            decreases data.len() - j,
        {
            match data[j].span {
                ChildSpan::Fixed(span) => {
                    fixed.push(span.max(mins[j]));
                    weights.push(N::of_int(0));
                },
                ChildSpan::Auto { weight } => {
                    fixed.push(N::of_int(0));
                    weights.push(weight);
                },
                ChildSpan::Preset(_) => {
                    fixed.push(N::of_int(0));
                    weights.push(N::of_int(1));
                },
            }
            j = j + 1;
        }
        assert(fixed@ =~= Seq::new(data@.len(), |k: int| fixed_span(data@[k], mins@[k])));
        assert(weights@ =~= Seq::new(data@.len(), |k: int| auto_weight(data@[k])));
        match data[i].span {
            ChildSpan::Fixed(span) => span.max(mins[i]),
            _ => total.sub(sum_of(&fixed)).mul(weights[i].div(sum_of(&weights))).max(mins[i]),
        }
    }

    /// The sizes of the children of a node that has a size to give.
    fn child_sizes(&self, available: Size<N>, measures: Measures<N>) -> (r: Vec<Size<N>>)
        requires
            self@.wf(),
        ensures
            r@ == self@.child_sizes(available, measures),
    {
        let mut sizes: Vec<Size<N>> = Vec::new();
        match self {
            TileNode::Leaf(_) => {
                assert(sizes@ =~= self@.child_sizes(available, measures));
            },
            TileNode::Internal { layout, children, data, tab_header, .. } => {
                proof {
                    lemma_view_parts(*self);
                }
                let ghost nodes = self@->children;
                let ghost all = self@.child_sizes(available, measures);
                let main = matches!(layout, Layout::SplitH);
                let mut mins: Vec<N> = Vec::new();
                let mut i: usize = 0;
                while i < children.len()
                    invariant
                        i <= children.len(),
                        nodes == forest_view(children@),
                        mins.len() == i,
                        forall|j: int|
                            0 <= j < i ==> mins@[j] == nodes[j].min_span(measures.axis, main),
                    decreases children.len() - i,
                {
                    assert(nodes[i as int] == children@[i as int]@);
                    mins.push(children[i].min_span(measures.axis, main));
                    i = i + 1;
                }
                let ghost spec_mins = Seq::new(
                    nodes.len(),
                    |i: int| nodes[i].min_span(measures.axis, *layout == Layout::SplitH),
                );
                assert(mins@ =~= spec_mins);
                let all_gaps = measures.gaps.mul(N::of_usize(children.len()).sub(N::of_int(1)));
                let extra = match tab_header {
                    Some(header) => header.extra_size(children.len(), measures.scale).h,
                    None => N::of_int(0),
                };
                i = 0;
                while i < children.len()
                    invariant
                        i <= children.len(),
                        children.len() == data.len(),
                        children.len() == mins.len(),
                        mins@ == spec_mins,
                        all.len() == children.len(),
                        sizes.len() == i,
                        forall|j: int|
                            #![trigger all[j]]
                            0 <= j < children.len() ==> all[j] == match *layout {
                                Layout::SplitH => Size {
                                    w: shared_span(data@, spec_mins, available.w - all_gaps, j),
                                    h: available.h,
                                },
                                Layout::SplitV => Size {
                                    w: available.w,
                                    h: shared_span(data@, spec_mins, available.h - all_gaps, j),
                                },
                                _ => Size {
                                    w: available.w,
                                    h: (available.h - extra).spec_max(num::<N>(1)),
                                },
                            },
                        forall|j: int| 0 <= j < i ==> sizes@[j] == #[trigger] all[j],
                    decreases children.len() - i,
                {
                    let size = match layout {
                        Layout::SplitH => Size {
                            w: Self::share(data, &mins, available.w.sub(all_gaps), i),
                            h: available.h,
                        },
                        Layout::SplitV => Size {
                            w: available.w,
                            h: Self::share(data, &mins, available.h.sub(all_gaps), i),
                        },
                        _ => Size {
                            w: available.w,
                            h: available.h.sub(extra).max(N::of_int(1)),
                        },
                    };
                    assert(size == all[i as int]);
                    sizes.push(size);
                    i = i + 1;
                }
                assert(sizes@ =~= all);
            },
        }
        sizes
    }

    /// Gives a size to the children of every node.
    pub fn apply_sizes(&mut self, available: Size<N>, measures: Measures<N>)
        requires
            old(self)@.wf(),
        ensures
            final(self)@ == old(self)@.sized(available, measures),
        decreases *old(self),
    {
        let ghost before = *self;
        let ghost tree = self@;
        let sizes = self.child_sizes(available, measures);
        if let TileNode::Internal { children, data, .. } = self {
            proof {
                lemma_view_parts(before);
            }
            let ghost cs = children@;
            let ghost ds = data@;
            let mut i: usize = 0;
            while i < children.len()
                invariant
                    i <= children.len(),
                    children.len() == cs.len(),
                    children.len() == data.len(),
                    children.len() == sizes.len(),
                    before is Internal,
                    before == *old(self),
                    cs == before->children@,
                    ds == before->data@,
                    tree == before@,
                    tree.wf(),
                    tree->children == forest_view(cs),
                    sizes@ == tree.child_sizes(available, measures),
                    forall|j: int| i <= j < cs.len() ==> children@[j] == cs[j],
                    forall|j: int|
                        0 <= j < i ==> (#[trigger] children@[j])@ == cs[j]@.sized(
                            sizes@[j],
                            measures,
                        ),
                    forall|j: int|
                        0 <= j < data@.len() ==> data@[j] == if j < i {
                            SplitChildData { size: sizes@[j], ..ds[j] }
                        } else {
                            ds[j]
                        },
                decreases children.len() - i,
            {
                let mut slot = data[i];
                slot.size = sizes[i];
                data[i] = slot;
                proof {
                    assert(tree->children[i as int] == cs[i as int]@);
                    assert(decreases_to!(before => before->children@[i as int]));
                }
                children[i].apply_sizes(sizes[i], measures);
                i = i + 1;
            }
        }
        proof {
            if before is Internal {
                lemma_view_parts(*self);
                assert(self@->children =~= tree.sized(available, measures)->children);
                assert(self@->data =~= tree.sized(available, measures)->data);
            }
        }
    }

    /// The paths of the nodes that show their children as tabs, each node before those below it.
    pub fn tabbed_paths(&self) -> (r: Vec<Vec<usize>>)
        ensures
            path_views(r@) == self@.tabbed_paths(),
        decreases self,
    {
        let mut out: Vec<Vec<usize>> = Vec::new();
        match self {
            TileNode::Leaf(_) => {
                assert(path_views(out@) =~= self@.tabbed_paths());
            },
            TileNode::Internal { layout, children, .. } => {
                proof {
                    lemma_view_parts(*self);
                }
                if layout.is_tabbing() {
                    out.push(Vec::new());
                }
                let ghost own = path_views(out@);
                let mut i: usize = 0;
                proof {
                    let expected: Seq<Seq<usize>> = if layout.spec_is_tabbing() {
                        seq![Seq::empty()]
                    } else {
                        Seq::empty()
                    };
                    assert(own =~= expected);
                    assert(own + Tree::forest_tabbed_paths(self@->children, 0) =~= own);
                }
                while i < children.len()
                    invariant
                        i <= children.len(),
                        decreases_to!(self => children),
                        self@ is Internal,
                        self@->children == forest_view(children@),
                        path_views(out@) == own + Tree::forest_tabbed_paths(
                            self@->children,
                            i as int,
                        ),
                    decreases children.len() - i,
                {
                    let below = children[i].tabbed_paths();
                    let ghost before = path_views(out@);
                    let ghost child_paths = self@->children[i as int].tabbed_paths();
                    assert(path_views(below@) == child_paths);
                    let mut j: usize = 0;
                    assert(before + prefixed(i, child_paths.take(0)) =~= before);
                    while j < below.len()
                        invariant
                            j <= below.len(),
                            path_views(below@) == child_paths,
                            path_views(out@) == before + prefixed(i, child_paths.take(j as int)),
                        decreases below.len() - j,
                    {
                        let mut path: Vec<usize> = Vec::new();
                        path.push(i);
                        let path = crate::tree_walk::join_paths(&path, &below[j]);
                        let ghost had = out@;
                        assert(child_paths[j as int] == below@[j as int]@);
                        assert(path@ =~= seq![i] + child_paths[j as int]);
                        out.push(path);
                        proof {
                            let now = before + prefixed(i, child_paths.take(j + 1));
                            assert(path_views(had).len() == before.len() + j);
                            assert forall|k: int| 0 <= k < now.len() implies path_views(out@)[k]
                                == now[k] by {
                                if k < path_views(had).len() {
                                    assert(path_views(out@)[k] == path_views(had)[k]);
                                }
                            }
                            assert(path_views(out@) =~= now);
                        }
                        j = j + 1;
                    }
                    proof {
                        assert(child_paths.take(j as int) =~= child_paths);
                        assert(path_views(out@) =~= own + Tree::forest_tabbed_paths(
                            self@->children,
                            i as int + 1,
                        ));
                    }
                    i = i + 1;
                }
            },
        }
        out
    }

    /// Tells all tiles of another view, and all headers of another look.
    pub fn update_config(&mut self, view_size: Size<N>, scale: N, config: TabHeaderConfig<N>)
        ensures
            final(self)@ == old(self)@.configured(view_size, scale, config),
        decreases *old(self),
    {
        let ghost before = *self;
        let ghost tree = self@;
        match self {
            TileNode::Leaf(tile) => {
                tile.view_size = view_size;
                tile.scale = scale;
            },
            TileNode::Internal { layout, children, tab_header, .. } => {
                proof {
                    lemma_view_parts(before);
                }
                if let Some(header) = tab_header.take() {
                    let mut header = header;
                    header.update_config(config);
                    header.set_stacked(matches!(layout, Layout::Stacked));
                    *tab_header = Some(header);
                }
                let ghost cs = children@;
                let mut i: usize = 0;
                while i < children.len()
                    invariant
                        i <= children.len(),
                        children.len() == cs.len(),
                        before is Internal,
                        before == *old(self),
                        cs == before->children@,
                        tree == before@,
                        tree->children == forest_view(cs),
                        forall|j: int| i <= j < cs.len() ==> children@[j] == cs[j],
                        forall|j: int|
                            0 <= j < i ==> (#[trigger] children@[j])@ == cs[j]@.configured(
                                view_size,
                                scale,
                                config,
                            ),
                    decreases children.len() - i,
                {
                    proof {
                        assert(tree->children[i as int] == cs[i as int]@);
                        assert(decreases_to!(before => before->children@[i as int]));
                    }
                    children[i].update_config(view_size, scale, config);
                    i = i + 1;
                }
            },
        }
        proof {
            if before is Internal {
                lemma_view_parts(*self);
                assert(self@->children =~= tree.configured(view_size, scale, config)->children);
            }
        }
    }
}

} // verus!
