//! Changing the size of a section or of a tile in it.
use vstd::prelude::*;

use crate::axis::AxisMap;
use crate::config::{LayoutOptions, Options, ResolvedSize, SectionWidth, SizeChange, SplitAxis};
use crate::order::{sort_keyed, sorted_upto, Keyed};
use crate::scalar::{clamp, clamped, num, Scalar};
use crate::section::{axis_of, lemma_section_tiles, Section, SectionProps, SectionView};
use crate::section_size::{lemma_data_only, work, Work};
use crate::tile::{Outbox, Tile};
use crate::tile_node::{forest_view, ChildSpan, SplitChildData, TileNode, Tree};
use crate::tree_edit::{lemma_forest_same, lemma_view_parts};
use crate::tree_walk::{
    lemma_leaf_paths, lemma_node_split, lemma_node_wf, lemma_parent, lemma_wf_is_sane,
    lemma_with_node_wf, path_prefix,
};

verus! {

/// Exchanging a node for one with the same tiles keeps all tiles.
pub proof fn lemma_with_same_node<N>(tree: Tree<N>, path: Seq<usize>, node: Tree<N>)
    requires
        tree.has_path(path),
        node.leaves() == tree.node(path).leaves(),
        node.leaf_paths() == tree.node(path).leaf_paths(),
    ensures
        tree.with_node(path, node).leaves() == tree.leaves(),
        tree.with_node(path, node).leaf_paths() == tree.leaf_paths(),
    decreases path.len(),
{
    if path.len() > 0 {
        let children = tree->children;
        lemma_with_same_node(children[path[0] as int], path.skip(1), node);
        lemma_forest_same(
            children,
            tree.with_node(path, node)->children,
            children.len() as int,
        );
    }
}

/// Other data for a node changes no tile.
pub proof fn lemma_leaf_data_only<N: Scalar>(
    tree: Tree<N>,
    path: Seq<usize>,
    data: SplitChildData<N>,
)
    requires
        tree.wf(),
        tree.has_path(path),
    ensures
        tree.with_leaf_data(path, data).wf(),
        tree.with_leaf_data(path, data).leaves() == tree.leaves(),
        tree.with_leaf_data(path, data).leaf_paths() == tree.leaf_paths(),
        tree is Internal <==> tree.with_leaf_data(path, data) is Internal,
{
    if path.len() > 0 {
        lemma_parent(tree, path);
        let at = path.drop_last();
        lemma_node_wf(tree, at);
        let parent = tree.node(at);
        lemma_all_data_only(
            tree,
            at,
            parent.child_data().update(path.last() as int, data),
        );
    }
}

/// Other data for the children of a node changes no tile.
pub proof fn lemma_all_data_only<N: Scalar>(
    tree: Tree<N>,
    path: Seq<usize>,
    data: Seq<SplitChildData<N>>,
)
    requires
        tree.wf(),
        tree.has_path(path),
        data.len() == tree.node(path).child_data().len(),
    ensures
        ({
            let new = tree.with_node(path, tree.node(path).with_child_data(data));
            &&& new.wf()
            &&& new.leaves() == tree.leaves()
            &&& new.leaf_paths() == tree.leaf_paths()
            &&& tree is Internal <==> new is Internal
        }),
{
    lemma_node_wf(tree, path);
    lemma_data_only(tree.node(path), data);
    lemma_with_node_wf(tree, path, tree.node(path).with_child_data(data));
    lemma_with_same_node(tree, path, tree.node(path).with_child_data(data));
}

impl<N: Scalar> Tree<N> {
    /// The length of the path to the nearest ancestor, less than `upto` steps down, that arranges
    /// its children along an axis.
    pub open spec fn nearest_along(self, path: Seq<usize>, axis: SplitAxis, upto: int) -> Option<
        int,
    >
        decreases upto,
    {
        if upto <= 0 {
            None
        } else if self.node(path.take(upto - 1)).layout() matches Some(layout)
            && layout.arranges_along(axis) {
            Some(upto - 1)
        } else {
            self.nearest_along(path, axis, upto - 1)
        }
    }
}

/// A prefix of a path leads somewhere too.
pub proof fn lemma_prefix<N>(tree: Tree<N>, path: Seq<usize>, len: int)
    requires
        tree.has_path(path),
        0 <= len <= path.len(),
    ensures
        tree.has_path(path.take(len)),
        len < path.len() ==> tree.node(path.take(len)) is Internal && path[len] < tree.node(
            path.take(len),
        )->children.len(),
{
    let a = path.take(len);
    let b = path.skip(len);
    assert(a + b =~= path);
    lemma_node_split(tree, a, b);
}

impl<N: Scalar> TileNode<N> {
    /// The length of the path to the nearest ancestor that arranges its children along an axis.
    pub fn nearest_along(&self, path: &Vec<usize>, axis: SplitAxis) -> (r: Option<usize>)
        requires
            self@.has_path(path@),
        ensures
            match r {
                Some(k) => self@.nearest_along(path@, axis, path@.len() as int) == Some(k as int)
                    && k < path.len(),
                None => self@.nearest_along(path@, axis, path@.len() as int) is None,
            },
    {
        let mut k: usize = path.len();
        while k > 0
            invariant
                k <= path.len(),
                self@.has_path(path@),
                self@.nearest_along(path@, axis, path@.len() as int) == self@.nearest_along(
                    path@,
                    axis,
                    k as int,
                ),
            decreases k,
        {
            proof {
                lemma_prefix(self@, path@, k - 1);
            }
            let above = path_prefix(path, k - 1);
            if let Some(layout) = self.node_at(&above).layout() {
                if layout.is_along(axis) {
                    return Some(k - 1);
                }
            }
            k = k - 1;
        }
        None
    }
}

/// The heights of children, to be put in order.
pub open spec fn keyed_heights<N>(data: Seq<SplitChildData<N>>) -> Seq<Keyed<N>> {
    Seq::new(data.len(), |i: int| Keyed { key: data[i].size.h, idx: i as usize })
}

/// The weight that keeps a height, when the median height has weight one.
pub open spec fn kept_weight<N: Scalar>(height: N, median: N) -> N {
    let weight = if num::<N>(0) < median && height.spec_is_finite() {
        height.spec_div(median)
    } else {
        num::<N>(1)
    };
    if weight.spec_is_finite() {
        weight
    } else {
        num::<N>(1)
    }
}

/// Children with automatic spans that keep their heights.
pub open spec fn auto_heights<N: Scalar>(data: Seq<SplitChildData<N>>) -> Seq<SplitChildData<N>> {
    let sorted = sorted_upto(keyed_heights(data), data.len() as int);
    let median = sorted[sorted.len() as int / 2].key;
    Seq::new(
        data.len(),
        |i: int|
            SplitChildData {
                span: ChildSpan::Auto { weight: kept_weight(data[i].size.h, median) },
                ..data[i]
            },
    )
}

/// What the siblings of a child need at least along the cross axis, with a gap for each.
pub open spec fn taken_by_siblings<N: Scalar>(
    children: Seq<Tree<N>>,
    axis: AxisMap,
    gaps: N,
    but: int,
    upto: int,
) -> N
    decreases upto,
{
    if upto <= 0 {
        num::<N>(0)
    } else {
        let before = taken_by_siblings(children, axis, gaps, but, upto - 1);
        if upto - 1 == but {
            before
        } else {
            before + (num::<N>(1).spec_max(children[upto - 1].min_span(axis, false)) + gaps)
        }
    }
}

/// The index after (or before) another one in a cycle.
pub open spec fn cycled(idx: usize, len: int, forwards: bool) -> usize {
    if forwards {
        ((idx + 1) % len) as usize
    } else {
        ((idx + (len - 1)) % len) as usize
    }
}

#[verifier::spinoff_prover]
fn cycle(idx: usize, len: usize, forwards: bool) -> (r: usize)
    requires
        len > 0,
    ensures
        r == cycled(idx, len as int, forwards),
        r < len,
{
    let at: usize = idx % len;
    proof {
        let (i, n) = (idx as int, len as int);
        vstd::arithmetic::div_mod::lemma_fundamental_div_mod(i, n);
        let q = i / n;
        if forwards {
            if at + 1 == n {
                assert(i + 1 == (q + 1) * n) by (nonlinear_arith)
                    requires
                        i == n * q + at,
                        at + 1 == n,
                ;
                vstd::arithmetic::div_mod::lemma_mod_multiples_basic(q + 1, n);
            } else {
                assert(i + 1 == q * n + (at + 1)) by (nonlinear_arith)
                    requires
                        i == n * q + at,
                ;
                vstd::arithmetic::div_mod::lemma_mod_multiples_vanish(q, at + 1, n);
                vstd::arithmetic::div_mod::lemma_small_mod((at + 1) as nat, n as nat);
            }
        } else {
            if at == 0 {
                assert(i + (n - 1) == q * n + (n - 1)) by (nonlinear_arith)
                    requires
                        i == n * q + at,
                        at == 0,
                ;
                vstd::arithmetic::div_mod::lemma_mod_multiples_vanish(q, n - 1, n);
                vstd::arithmetic::div_mod::lemma_small_mod((n - 1) as nat, n as nat);
            } else {
                assert(i + (n - 1) == (q + 1) * n + (at - 1)) by (nonlinear_arith)
                    requires
                        i == n * q + at,
                ;
                vstd::arithmetic::div_mod::lemma_mod_multiples_vanish(q + 1, at - 1, n);
                vstd::arithmetic::div_mod::lemma_small_mod((at - 1) as nat, n as nat);
            }
        }
    }
    if forwards {
        if at + 1 == len {
            0
        } else {
            at + 1
        }
    } else {
        if at == 0 {
            len - 1
        } else {
            at - 1
        }
    }
}

/// The first of the first `upto` flags that is set.
pub open spec fn first_set(flags: Seq<bool>, upto: int) -> Option<usize>
    decreases upto,
{
    if upto <= 0 {
        None
    } else {
        match first_set(flags, upto - 1) {
            Some(i) => Some(i),
            None => if flags[upto - 1] {
                Some((upto - 1) as usize)
            } else {
                None
            },
        }
    }
}

/// The last of the first `upto` flags that is set.
pub open spec fn last_set(flags: Seq<bool>, upto: int) -> Option<usize>
    decreases upto,
{
    if upto <= 0 {
        None
    } else if flags[upto - 1] {
        Some((upto - 1) as usize)
    } else {
        last_set(flags, upto - 1)
    }
}

fn find_first_set(flags: &Vec<bool>) -> (r: Option<usize>)
    ensures
        r == first_set(flags@, flags@.len() as int),
        r matches Some(i) ==> i < flags.len(),
{
    let mut found: Option<usize> = None;
    let mut i: usize = 0;
    while i < flags.len()
        invariant
            i <= flags.len(),
            found == first_set(flags@, i as int),
            found matches Some(k) ==> k < i,
        decreases flags.len() - i,
    {
        if found.is_none() && flags[i] {
            found = Some(i);
        }
        i = i + 1;
    }
    found
}

fn find_last_set(flags: &Vec<bool>) -> (r: Option<usize>)
    ensures
        r == last_set(flags@, flags@.len() as int),
        r matches Some(i) ==> i < flags.len(),
{
    let mut i: usize = flags.len();
    while i > 0
        invariant
            i <= flags.len(),
            last_set(flags@, flags@.len() as int) == last_set(flags@, i as int),
        decreases i,
    {
        if flags[i - 1] {
            return Some(i - 1);
        }
        i = i - 1;
    }
    None
}

/// The preset to switch to: the first larger one, or the last smaller one, and around the end.
pub open spec fn next_preset(larger: Seq<bool>, smaller: Seq<bool>, forwards: bool) -> usize {
    let len = larger.len() as int;
    if forwards {
        match first_set(larger, len) {
            Some(i) => i,
            None => 0,
        }
    } else {
        match last_set(smaller, len) {
            Some(i) => i,
            None => (len - 1) as usize,
        }
    }
}

impl<N: Scalar> SectionView<N> {
    pub open spec fn with_root(self, root: Tree<N>) -> Self {
        SectionView { root, ..self }
    }

    /// The section with automatic heights that keep what is seen.
    pub open spec fn with_auto_heights(self) -> Self {
        self.with_root(self.root.with_child_data(auto_heights(self.root.child_data())))
    }

    /// The width that a change leads to.
    pub open spec fn changed_width(
        self,
        layout: LayoutOptions<N>,
        change: SizeChange<N>,
        tile: Tile<N>,
    ) -> SectionWidth<N> {
        let current_width = if self.props.is_full_width || self.props.is_pending_maximized {
            SectionWidth::Proportion(num::<N>(1))
        } else {
            self.props.width
        };
        let current_main_span = self.resolved_main_span(layout, current_width);
        let hundred = num::<N>(100);
        match change {
            SizeChange::SetFixed(fixed) => SectionWidth::Fixed(
                clamped(
                    tile.with_border(num::<N>(fixed as int)),
                    num::<N>(1),
                    num::<N>(100000),
                ),
            ),
            SizeChange::SetProportion(proportion) => SectionWidth::Proportion(
                clamped(proportion.spec_div(hundred), num::<N>(0), num::<N>(10000)),
            ),
            SizeChange::AdjustFixed(delta) => SectionWidth::Fixed(
                clamped(
                    current_main_span + num::<N>(delta as int),
                    num::<N>(1),
                    num::<N>(100000),
                ),
            ),
            SizeChange::AdjustProportion(delta) => {
                let current_proportion = match current_width {
                    SectionWidth::Proportion(proportion) => proportion,
                    SectionWidth::Fixed(_) => {
                        let available = self.props.working_area.size.w - layout.gaps;
                        if available.spec_same(num::<N>(0)) {
                            num::<N>(1)
                        } else {
                            (current_main_span + layout.gaps + self.extra_size().w).spec_div(
                                available,
                            )
                        }
                    },
                };
                SectionWidth::Proportion(
                    clamped(
                        current_proportion + delta.spec_div(hundred),
                        num::<N>(0),
                        num::<N>(10000),
                    ),
                )
            },
        }
    }

    pub open spec fn with_changed_width(
        self,
        layout: LayoutOptions<N>,
        change: SizeChange<N>,
        tile: Tile<N>,
    ) -> Self {
        SectionView {
            props: SectionProps {
                width: self.changed_width(layout, change, tile),
                preset_width_idx: None,
                is_full_width: false,
                is_pending_maximized: false,
                ..self.props
            },
            ..self
        }
    }

    pub open spec fn with_full_width_toggled(self) -> Self {
        SectionView {
            props: if self.props.is_pending_maximized {
                SectionProps { is_pending_maximized: false, is_full_width: false, ..self.props }
            } else {
                SectionProps { is_full_width: !self.props.is_full_width, ..self.props }
            },
            ..self
        }
    }

    /// The preset width that comes next.
    pub open spec fn next_preset_width(
        self,
        options: Options<N>,
        tile: Tile<N>,
        forwards: bool,
    ) -> usize {
        let presets = options.preset_section_widths@;
        let len = presets.len() as int;
        if !self.props.is_full_width && !self.props.is_pending_maximized
            && self.props.preset_width_idx is Some {
            cycled(self.props.preset_width_idx->0, len, forwards)
        } else {
            let axis = axis_of(options.layout);
            let window = axis.spec_size(tile.window_expected_size).w;
            let whole = axis.spec_size(tile.tile_expected_size).w;
            let one = num::<N>(1);
            let larger = Seq::new(
                presets.len(),
                |i: int|
                    match self.preset_main_span(options.layout, presets[i]) {
                        ResolvedSize::Tile(span) => whole + one < span,
                        ResolvedSize::Window(span) => window + one < span,
                    },
            );
            let smaller = Seq::new(
                presets.len(),
                |i: int|
                    match self.preset_main_span(options.layout, presets[i]) {
                        ResolvedSize::Tile(span) => span + one < whole,
                        ResolvedSize::Window(span) => span + one < window,
                    },
            );
            next_preset(larger, smaller, forwards)
        }
    }

    /// The span that a change gives to a child of a split along the main axis.
    pub open spec fn changed_child_span(
        self,
        layout: LayoutOptions<N>,
        change: SizeChange<N>,
        current_span: N,
    ) -> N {
        let available = self.props.working_area.size.w - layout.gaps;
        let hundred = num::<N>(100);
        match change {
            SizeChange::SetFixed(fixed) => clamped(
                num::<N>(fixed as int),
                num::<N>(1),
                num::<N>(100000),
            ),
            SizeChange::SetProportion(proportion) => available * proportion.spec_div(hundred),
            SizeChange::AdjustFixed(delta) => clamped(
                current_span + num::<N>(delta as int),
                num::<N>(1),
                num::<N>(100000),
            ),
            SizeChange::AdjustProportion(delta) => {
                let current = if available.spec_same(num::<N>(0)) {
                    num::<N>(1)
                } else {
                    current_span.spec_div(available)
                };
                available * (current + delta.spec_div(hundred))
            },
        }
    }

    /// The window span along the cross axis that a change leads to, before any limits.
    pub open spec fn changed_window_span(
        self,
        layout: LayoutOptions<N>,
        change: SizeChange<N>,
        tile: Tile<N>,
        current: ChildSpan<N>,
    ) -> N {
        let (current_window, current_tile) = match current {
            ChildSpan::Fixed(span) => (tile.without_border(span), span),
            _ => {
                let span = axis_of(layout).spec_size(tile.window_size).h;
                (span, tile.with_border(span))
            },
        };
        let gaps = layout.gaps;
        let available = self.props.working_area.size.h - gaps;
        let extra = self.extra_size().h;
        let hundred = num::<N>(100);
        let current_proportion = if available.spec_same(num::<N>(0)) {
            num::<N>(1)
        } else {
            (current_tile + gaps).spec_div(available)
        };
        match change {
            SizeChange::SetFixed(fixed) => num::<N>(fixed as int),
            SizeChange::SetProportion(proportion) => tile.without_border(
                available * proportion.spec_div(hundred) - gaps - extra,
            ),
            SizeChange::AdjustFixed(delta) => current_window + num::<N>(delta as int),
            SizeChange::AdjustProportion(delta) => tile.without_border(
                available * (current_proportion + delta.spec_div(hundred)) - gaps - extra,
            ),
        }
    }

    /// A window span within what the other windows leave and what the window can have.
    pub open spec fn limited_window_span(
        self,
        layout: LayoutOptions<N>,
        tile: Tile<N>,
        taken: N,
        wanted: N,
    ) -> N {
        let gaps = layout.gaps;
        let left = self.props.working_area.size.h - self.extra_size().h - gaps - taken - gaps;
        let span = num::<N>(1).spec_max(tile.without_border(left)).spec_min(wanted);
        let span = if tile.window_max_size.h > 0 {
            span.spec_min(num::<N>(tile.window_max_size.h as int))
        } else {
            span
        };
        let span = if tile.window_min_size.h > 0 {
            span.spec_max(num::<N>(tile.window_min_size.h as int))
        } else {
            span
        };
        clamped(span, num::<N>(1), num::<N>(100000))
    }

    /// What the other children of the node that a height is resized in need at least.
    pub open spec fn taken_beside(self, layout: LayoutOptions<N>, path: Seq<usize>) -> N {
        let parent = self.root.node(path.drop_last());
        if self.root.is_tabbed() || parent.is_tabbed() || parent is Leaf {
            num::<N>(0)
        } else {
            taken_by_siblings(
                parent->children,
                axis_of(layout),
                layout.gaps,
                path.last() as int,
                parent->children.len() as int,
            )
        }
    }

    /// The section once the span of the child at the end of a path along the cross axis has
    /// changed.
    pub open spec fn with_changed_height(
        self,
        layout: LayoutOptions<N>,
        change: SizeChange<N>,
        tile: Tile<N>,
        path: Seq<usize>,
    ) -> Self {
        let base = if self.root.leaf_data(path) matches Some(data) && data.span is Auto {
            self.with_auto_heights()
        } else {
            self
        };
        let current = match base.root.leaf_data(path) {
            Some(data) => data.span,
            None => ChildSpan::spec_auto_1(),
        };
        let wanted = base.changed_window_span(layout, change, tile, current);
        let span = base.limited_window_span(
            layout,
            tile,
            base.taken_beside(layout, path),
            wanted,
        );
        SectionView {
            root: base.root.with_leaf_data(
                path,
                SplitChildData {
                    span: ChildSpan::Fixed(tile.with_border(span)),
                    size: tile.tile_size,
                    interactively_resizing_by_start_edge: false,
                },
            ),
            props: SectionProps { is_pending_maximized: false, ..base.props },
        }
    }

    /// The section with another span for the child at the end of a path.
    pub open spec fn with_leaf_span(self, path: Seq<usize>, span: ChildSpan<N>) -> Self {
        match self.root.leaf_data(path) {
            Some(data) => self.with_root(
                self.root.with_leaf_data(path, SplitChildData { span, ..data }),
            ),
            None => self,
        }
    }

    /// The preset height that comes next.
    pub open spec fn next_preset_height(
        self,
        options: Options<N>,
        tile: Tile<N>,
        path: Seq<usize>,
        forwards: bool,
    ) -> usize {
        let presets = options.preset_window_heights@;
        let len = presets.len() as int;
        let data = self.root.leaf_data(path);
        if data is Some && data->0.span is Preset && !self.props.is_pending_maximized {
            cycled(data->0.span->Preset_0, len, forwards)
        } else {
            let current = match data {
                Some(data) => data.size.h,
                None => num::<N>(0),
            };
            let one = num::<N>(1);
            let larger = Seq::new(
                presets.len(),
                |i: int|
                    current + one < tile.with_border(
                        self.preset_window_span(options.layout, tile, presets[i]),
                    ),
            );
            let smaller = Seq::new(
                presets.len(),
                |i: int|
                    tile.with_border(
                        self.preset_window_span(options.layout, tile, presets[i]),
                    ) + one < current,
            );
            next_preset(larger, smaller, forwards)
        }
    }
}

/// Children of a split along the main axis after one of them was given a span: the other ones
/// keep their proportions.
pub open spec fn resized_children<N: Scalar>(
    data: Seq<SplitChildData<N>>,
    child: int,
    span: N,
) -> Seq<SplitChildData<N>> {
    Seq::new(
        data.len(),
        |i: int|
            SplitChildData {
                span: if i == child {
                    ChildSpan::Fixed(span)
                } else {
                    ChildSpan::Auto {
                        weight: if num::<N>(0) < data[i].size.w {
                            data[i].size.w
                        } else {
                            num::<N>(1)
                        },
                    }
                },
                ..data[i]
            },
    )
}

/// Children that all have an automatic span with weight one.
pub open spec fn reset_children<N: Scalar>(data: Seq<SplitChildData<N>>) -> Seq<
    SplitChildData<N>,
> {
    Seq::new(data.len(), |i: int| SplitChildData { span: ChildSpan::spec_auto_1(), ..data[i] })
}

impl<N: Scalar> Work<N> {
    pub open spec fn with_section(self, section: SectionView<N>) -> Self {
        Work { section, ..self }
    }

    #[verifier::opaque]
    pub open spec fn set_section_width(
        self,
        options: Options<N>,
        change: SizeChange<N>,
        tile_idx: usize,
        animate: bool,
    ) -> Self {
        self.with_section(
            self.section.with_changed_width(
                options.layout,
                change,
                self.section.tiles()[tile_idx as int],
            ),
        ).sized(options, animate)
    }

    #[verifier::opaque]
    pub open spec fn toggle_width(
        self,
        options: Options<N>,
        tile_idx: usize,
        forwards: bool,
    ) -> Self {
        let tile = self.section.tiles()[tile_idx as int];
        let idx = self.section.next_preset_width(options, tile, forwards);
        let preset = options.preset_section_widths@[idx as int];
        let after = self.set_section_width(options, SizeChange::of_preset(preset), tile_idx, true);
        after.with_section(
            SectionView {
                props: SectionProps { preset_width_idx: Some(idx), ..after.section.props },
                ..after.section
            },
        )
    }

    #[verifier::opaque]
    pub open spec fn toggle_full_width(self, options: Options<N>) -> Self {
        self.with_section(self.section.with_full_width_toggled()).sized(options, true)
    }

    #[verifier::opaque]
    pub open spec fn set_split_child_width(
        self,
        options: Options<N>,
        change: SizeChange<N>,
        tile_idx: usize,
        animate: bool,
    ) -> Self {
        let section = self.section;
        match section.root.path_for_leaf_index(tile_idx) {
            Some(path) => match section.root.nearest_along(
                path,
                SplitAxis::Main,
                path.len() as int,
            ) {
                Some(k) => {
                    let current = match section.root.leaf_data(path.take(k + 1)) {
                        Some(data) => data.size.w,
                        None => num::<N>(0),
                    };
                    let span = section.changed_child_span(options.layout, change, current);
                    let parent = section.root.node(path.take(k));
                    self.with_section(
                        SectionView {
                            root: section.root.with_node(
                                path.take(k),
                                parent.with_child_data(
                                    resized_children(
                                        parent.child_data(),
                                        path[k] as int,
                                        span,
                                    ),
                                ),
                            ),
                            props: SectionProps { is_pending_maximized: false, ..section.props },
                        },
                    ).sized(options, animate)
                },
                None => self.set_section_width(options, change, tile_idx, animate),
            },
            None => self,
        }
    }

    #[verifier::opaque]
    pub open spec fn set_window_height(
        self,
        options: Options<N>,
        change: SizeChange<N>,
        tile_idx: usize,
        animate: bool,
    ) -> Self {
        let section = self.section;
        let path = section.root.leaf_paths()[tile_idx as int];
        match section.root.nearest_along(path, SplitAxis::Cross, path.len() as int) {
            Some(k) => self.with_section(
                section.with_changed_height(
                    options.layout,
                    change,
                    section.tiles()[tile_idx as int],
                    path.take(k + 1),
                ),
            ).sized(options, animate),
            None => self,
        }
    }

    #[verifier::opaque]
    pub open spec fn reset_window_height(self, options: Options<N>, tile_idx: usize) -> Self {
        let section = self.section;
        let reset = if section.root.is_tabbed() {
            section.with_root(
                section.root.with_child_data(reset_children(section.root.child_data())),
            )
        } else {
            section.with_leaf_span(
                section.root.leaf_paths()[tile_idx as int],
                ChildSpan::spec_auto_1(),
            )
        };
        self.with_section(reset).sized(options, true)
    }

    #[verifier::opaque]
    pub open spec fn toggle_window_height(
        self,
        options: Options<N>,
        tile_idx: usize,
        forwards: bool,
    ) -> Self {
        let section = self.section;
        let path = section.root.leaf_paths()[tile_idx as int];
        let base = if section.root.leaf_data(path) matches Some(data) && data.span is Auto {
            section.with_auto_heights()
        } else {
            section
        };
        let idx = base.next_preset_height(
            options,
            section.tiles()[tile_idx as int],
            path,
            forwards,
        );
        let chosen = base.with_leaf_span(path, ChildSpan::Preset(idx));
        self.with_section(
            SectionView {
                props: SectionProps { is_pending_maximized: false, ..chosen.props },
                ..chosen
            },
        ).sized(options, true)
    }

    #[verifier::opaque]
    pub open spec fn set_fullscreen(self, options: Options<N>, is_fullscreen: bool) -> Self {
        if self.section.props.is_pending_fullscreen == is_fullscreen {
            self
        } else {
            self.with_section(
                SectionView {
                    props: SectionProps {
                        is_pending_fullscreen: is_fullscreen,
                        ..self.section.props
                    },
                    ..self.section
                },
            ).sized(options, true)
        }
    }

    #[verifier::opaque]
    pub open spec fn set_maximized(self, options: Options<N>, maximize: bool) -> Self {
        if self.section.props.is_pending_maximized == maximize {
            self
        } else {
            self.with_section(
                SectionView {
                    props: SectionProps { is_pending_maximized: maximize, ..self.section.props },
                    ..self.section
                },
            ).sized(options, true)
        }
    }
}

/// Making heights automatic changes no tile.
pub proof fn lemma_auto_heights<N: Scalar>(section: SectionView<N>)
    requires
        section.wf(),
    ensures
        section.with_auto_heights().wf(),
        section.with_auto_heights().tiles() == section.tiles(),
        section.with_auto_heights().root.leaf_paths() == section.root.leaf_paths(),
        forall|p: Seq<usize>| #[trigger]
            section.with_auto_heights().root.has_path(p) == section.root.has_path(p),
{
    lemma_data_only(section.root, auto_heights(section.root.child_data()));
}

impl<N: Scalar> Section<N> {
    /// Converts all heights in the section to automatic, preserving the apparent heights.
    ///
    /// All weights are recomputed to preserve the current tile heights while "centering" the
    /// weights at the median window height (it gets weight one).
    #[verifier::spinoff_prover]
    pub fn convert_heights_to_auto(&mut self)
        requires
            old(self)@.wf(),
        ensures
            final(self)@ == old(self)@.with_auto_heights(),
            final(self)@.wf(),
            final(self)@.place() == old(self)@.place(),
    {
        let ghost before = self@;
        let mut data = self.root.child_data();
        let ghost had = data@;
        let mut heights: Vec<Keyed<N>> = Vec::new();
        let mut i: usize = 0;
        while i < data.len()
            invariant
                i <= data.len(),
                heights.len() == i,
                forall|j: int| 0 <= j < i ==> heights@[j] == keyed_heights(data@)[j],
            decreases data.len() - i,
        {
            heights.push(Keyed { key: data[i].size.h, idx: i });
            i = i + 1;
        }
        assert(heights@ =~= keyed_heights(had));
        let sorted = sort_keyed(&heights);
        let median = sorted[sorted.len() / 2].key;
        i = 0;
        while i < data.len()
            invariant
                i <= data.len(),
                data.len() == had.len(),
                median == sorted_upto(keyed_heights(had), had.len() as int)[had.len() as int
                    / 2].key,
                sorted_upto(keyed_heights(had), had.len() as int).len() == had.len(),
                forall|j: int|
                    0 <= j < data@.len() ==> data@[j] == if j < i {
                        auto_heights(had)[j]
                    } else {
                        had[j]
                    },
            decreases data.len() - i,
        {
            // A fresh slot has no size before its first layout, so that the median can be zero;
            // anything that is no ordinary number counts as a neutral weight.
            let height = data[i].size.h;
            let weight = if N::of_int(0).lt(median) && height.is_finite() {
                height.div(median)
            } else {
                N::of_int(1)
            };
            let weight = if weight.is_finite() {
                weight
            } else {
                N::of_int(1)
            };
            let mut slot = data[i];
            slot.span = ChildSpan::Auto { weight };
            data[i] = slot;
            i = i + 1;
        }
        assert(data@ =~= auto_heights(had));
        self.root.set_all_child_data(data);
        proof {
            lemma_auto_heights(before);
        }
    }

    /// Changes the width of the section.
    ///
    /// A fixed width is what the window of the given tile gets.
    #[verifier::spinoff_prover]
    pub fn set_section_width(
        &mut self,
        options: &Options<N>,
        change: SizeChange<N>,
        tile_idx: usize,
        animate: bool,
        out: &mut Outbox<N>,
    )
        requires
            old(self)@.wf(),
            tile_idx < old(self)@.tiles().len(),
        ensures
            work(final(self)@, final(out)@) == work(old(self)@, old(out)@).set_section_width(
                *options,
                change,
                tile_idx,
                animate,
            ),
            final(self)@.wf(),
            final(self)@.place() == old(self)@.place(),
            final(self)@.tiles() == old(self)@.tiles(),
    {
        reveal(Work::set_section_width);
        let layout = &options.layout;
        let current_width = if self.props.is_full_width || self.props.is_pending_maximized {
            SectionWidth::Proportion(N::of_int(1))
        } else {
            self.props.width
        };
        let current_main_span = self.resolve_section_main_span(layout, current_width);
        let hundred = N::of_int(100);
        let new_width = match change {
            SizeChange::SetFixed(fixed) => {
                let tile = self.tile(tile_idx);
                SectionWidth::Fixed(
                    clamp(
                        tile.tile_width_for_window_width(N::of_int(fixed as i64)),
                        N::of_int(1),
                        N::of_int(100000),
                    ),
                )
            },
            SizeChange::SetProportion(proportion) => SectionWidth::Proportion(
                clamp(proportion.div(hundred), N::of_int(0), N::of_int(10000)),
            ),
            SizeChange::AdjustFixed(delta) => SectionWidth::Fixed(
                clamp(
                    current_main_span.add(N::of_int(delta as i64)),
                    N::of_int(1),
                    N::of_int(100000),
                ),
            ),
            SizeChange::AdjustProportion(delta) => {
                let current_proportion = match current_width {
                    SectionWidth::Proportion(proportion) => proportion,
                    SectionWidth::Fixed(_) => {
                        let available = self.props.working_area.size.w.sub(layout.gaps);
                        if available.same(N::of_int(0)) {
                            N::of_int(1)
                        } else {
                            current_main_span.add(layout.gaps).add(self.extra_size().w).div(
                                available,
                            )
                        }
                    },
                };
                SectionWidth::Proportion(
                    clamp(
                        current_proportion.add(delta.div(hundred)),
                        N::of_int(0),
                        N::of_int(10000),
                    ),
                )
            },
        };
        self.props.width = new_width;
        self.props.preset_width_idx = None;
        self.props.is_full_width = false;
        self.props.is_pending_maximized = false;
        self.update_tile_sizes(options, animate, out);
    }

    /// The preset width that comes next.
    #[verifier::spinoff_prover]
    fn next_preset_width(&self, options: &Options<N>, tile_idx: usize, forwards: bool) -> (r: usize)
        requires
            self@.wf(),
            tile_idx < self@.tiles().len(),
            options.preset_section_widths.len() > 0,
        ensures
            r == self@.next_preset_width(*options, self@.tiles()[tile_idx as int], forwards),
            r < options.preset_section_widths.len(),
    {
        let presets = &options.preset_section_widths;
        let len: usize = presets.len();
        if !self.props.is_full_width && !self.props.is_pending_maximized {
            if let Some(idx) = self.props.preset_width_idx {
                return cycle(idx, len, forwards);
            }
        }
        let axis = AxisMap::new(options.layout.main_axis);
        let tile = self.tile(tile_idx);
        let window = axis.size_in(tile.window_expected_size).w;
        let whole = axis.size_in(tile.tile_expected_size).w;
        // Some allowance for fractional scaling purposes.
        let one = N::of_int(1);
        let ghost larger_spec = Seq::new(
            presets@.len(),
            |i: int|
                match self@.preset_main_span(options.layout, presets@[i]) {
                    ResolvedSize::Tile(span) => whole + one < span,
                    ResolvedSize::Window(span) => window + one < span,
                },
        );
        let ghost smaller_spec = Seq::new(
            presets@.len(),
            |i: int|
                match self@.preset_main_span(options.layout, presets@[i]) {
                    ResolvedSize::Tile(span) => span + one < whole,
                    ResolvedSize::Window(span) => span + one < window,
                },
        );
        let mut larger: Vec<bool> = Vec::new();
        let mut smaller: Vec<bool> = Vec::new();
        let mut i: usize = 0;
        while i < len
            invariant
                i <= len,
                len == presets.len(),
                self@.wf(),
                larger.len() == i,
                smaller.len() == i,
                larger_spec.len() == len,
                smaller_spec.len() == len,
                forall|j: int|
                    #![trigger larger_spec[j]]
                    #![trigger smaller_spec[j]]
                    0 <= j < len ==> larger_spec[j] == match self@.preset_main_span(
                        options.layout,
                        presets@[j],
                    ) {
                        ResolvedSize::Tile(span) => whole + one < span,
                        ResolvedSize::Window(span) => window + one < span,
                    } && smaller_spec[j] == match self@.preset_main_span(
                        options.layout,
                        presets@[j],
                    ) {
                        ResolvedSize::Tile(span) => span + one < whole,
                        ResolvedSize::Window(span) => span + one < window,
                    },
                forall|j: int| 0 <= j < i ==> larger@[j] == #[trigger] larger_spec[j],
                forall|j: int| 0 <= j < i ==> smaller@[j] == #[trigger] smaller_spec[j],
            decreases len - i,
        {
            let (is_larger, is_smaller) = match self.resolve_preset_main_span(
                &options.layout,
                presets[i],
            ) {
                ResolvedSize::Tile(span) => (whole.add(one).lt(span), span.add(one).lt(whole)),
                ResolvedSize::Window(span) => (window.add(one).lt(span), span.add(one).lt(window)),
            };
            assert(is_larger == larger_spec[i as int]);
            assert(is_smaller == smaller_spec[i as int]);
            larger.push(is_larger);
            smaller.push(is_smaller);
            i = i + 1;
        }
        assert(larger@ =~= larger_spec);
        assert(smaller@ =~= smaller_spec);
        if forwards {
            match find_first_set(&larger) {
                Some(i) => i,
                None => 0,
            }
        } else {
            match find_last_set(&smaller) {
                Some(i) => i,
                None => len - 1,
            }
        }
    }

    /// Switches to the next preset width.
    pub fn toggle_width(
        &mut self,
        options: &Options<N>,
        tile_idx: usize,
        forwards: bool,
        out: &mut Outbox<N>,
    )
        requires
            old(self)@.wf(),
            tile_idx < old(self)@.tiles().len(),
            options.preset_section_widths.len() > 0,
        ensures
            work(final(self)@, final(out)@) == work(old(self)@, old(out)@).toggle_width(
                *options,
                tile_idx,
                forwards,
            ),
            final(self)@.wf(),
            final(self)@.place() == old(self)@.place(),
            final(self)@.tiles() == old(self)@.tiles(),
    {
        reveal(Work::toggle_width);
        let preset_idx = self.next_preset_width(options, tile_idx, forwards);
        let preset = options.preset_section_widths[preset_idx];
        self.set_section_width(options, SizeChange::from_preset(preset), tile_idx, true, out);
        self.props.preset_width_idx = Some(preset_idx);
    }

    pub fn toggle_full_width(&mut self, options: &Options<N>, out: &mut Outbox<N>)
        requires
            old(self)@.wf(),
        ensures
            work(final(self)@, final(out)@) == work(old(self)@, old(out)@).toggle_full_width(
                *options,
            ),
            final(self)@.wf(),
            final(self)@.place() == old(self)@.place(),
            final(self)@.tiles() == old(self)@.tiles(),
    {
        reveal(Work::toggle_full_width);
        if self.props.is_pending_maximized {
            // Treat it as unmaximize.
            self.props.is_pending_maximized = false;
            self.props.is_full_width = false;
        } else {
            self.props.is_full_width = !self.props.is_full_width;
        }
        self.update_tile_sizes(options, true, out);
    }

    /// Resizes the child of the nearest split along the main axis that a tile is in. Without such
    /// a split the tile spans the section, so the section is resized instead.
    #[verifier::spinoff_prover]
    pub fn set_split_child_width(
        &mut self,
        options: &Options<N>,
        change: SizeChange<N>,
        tile_idx: usize,
        animate: bool,
        out: &mut Outbox<N>,
    )
        requires
            old(self)@.wf(),
        ensures
            work(final(self)@, final(out)@) == work(old(self)@, old(out)@).set_split_child_width(
                *options,
                change,
                tile_idx,
                animate,
            ),
            final(self)@.wf(),
            final(self)@.place() == old(self)@.place(),
            final(self)@.tiles() == old(self)@.tiles(),
    {
        reveal(Work::set_split_child_width);
        let ghost before = self@;
        proof {
            lemma_section_tiles(before, options.layout);
        }
        let path = match self.root.path_for_leaf_index(tile_idx) {
            Some(path) => path,
            None => {
                return;
            },
        };
        let k: usize = match self.root.nearest_along(&path, SplitAxis::Main) {
            Some(k) => k,
            None => {
                self.set_section_width(options, change, tile_idx, animate, out);
                return;
            },
        };
        proof {
            lemma_prefix(before.root, path@, k as int);
            lemma_prefix(before.root, path@, k as int + 1);
            lemma_node_wf(before.root, path@.take(k as int));
        }
        let child_path = path_prefix(&path, k + 1);
        let parent_path = path_prefix(&path, k);
        let child_idx: usize = path[k];
        let current_span = match self.root.leaf_data(&child_path) {
            Some(data) => data.size.w,
            None => N::of_int(0),
        };
        let available = self.props.working_area.size.w.sub(options.layout.gaps);
        let hundred = N::of_int(100);
        let new_span = match change {
            SizeChange::SetFixed(fixed) => clamp(
                N::of_int(fixed as i64),
                N::of_int(1),
                N::of_int(100000),
            ),
            SizeChange::SetProportion(proportion) => available.mul(proportion.div(hundred)),
            SizeChange::AdjustFixed(delta) => clamp(
                current_span.add(N::of_int(delta as i64)),
                N::of_int(1),
                N::of_int(100000),
            ),
            SizeChange::AdjustProportion(delta) => {
                let current = if available.same(N::of_int(0)) {
                    N::of_int(1)
                } else {
                    current_span.div(available)
                };
                available.mul(current.add(delta.div(hundred)))
            },
        };
        // The siblings become automatic, weighted by their current spans, so that they keep their
        // proportions.
        let mut data = self.root.node_at(&parent_path).child_data();
        let ghost had = data@;
        let mut i: usize = 0;
        while i < data.len()
            invariant
                i <= data.len(),
                data.len() == had.len(),
                forall|j: int|
                    0 <= j < data@.len() ==> data@[j] == if j < i {
                        resized_children(had, child_idx as int, new_span)[j]
                    } else {
                        had[j]
                    },
            decreases data.len() - i,
        {
            let mut slot = data[i];
            slot.span = if i == child_idx {
                ChildSpan::Fixed(new_span)
            } else {
                ChildSpan::Auto {
                    weight: if N::of_int(0).lt(slot.size.w) {
                        slot.size.w
                    } else {
                        N::of_int(1)
                    },
                }
            };
            data[i] = slot;
            i = i + 1;
        }
        assert(data@ =~= resized_children(had, child_idx as int, new_span));
        self.root.node_at_mut(&parent_path).set_all_child_data(data);
        proof {
            lemma_all_data_only(
                before.root,
                path@.take(k as int),
                resized_children(had, child_idx as int, new_span),
            );
        }
        self.props.is_pending_maximized = false;
        self.update_tile_sizes(options, animate, out);
    }

    /// What the other children of the node that a height is resized in need at least.
    #[verifier::spinoff_prover]
    fn taken_beside(&self, layout: &LayoutOptions<N>, path: &Vec<usize>) -> (r: N)
        requires
            self@.wf(),
            self@.root.has_path(path@),
            path.len() > 0,
        ensures
            r == self@.taken_beside(*layout, path@),
    {
        proof {
            lemma_parent(self@.root, path@);
        }
        let axis = AxisMap::new(layout.main_axis);
        let parent_path = path_prefix(path, path.len() - 1);
        assert(parent_path@ =~= path@.drop_last());
        let child_idx: usize = path[path.len() - 1];
        let parent = self.root.node_at(&parent_path);
        if self.is_tabbed() || parent.is_tabbed() {
            return N::of_int(0);
        }
        match parent {
            TileNode::Leaf(_) => N::of_int(0),
            TileNode::Internal { children, .. } => {
                let ghost nodes = parent@->children;
                proof {
                    lemma_view_parts(*parent);
                }
                let mut taken = N::of_int(0);
                let mut i: usize = 0;
                while i < children.len()
                    invariant
                        i <= children.len(),
                        nodes == forest_view(children@),
                        axis == axis_of(*layout),
                        taken == taken_by_siblings(
                            nodes,
                            axis,
                            layout.gaps,
                            child_idx as int,
                            i as int,
                        ),
                    decreases children.len() - i,
                {
                    if i != child_idx {
                        assert(nodes[i as int] == children@[i as int]@);
                        taken = taken.add(
                            N::of_int(1).max(children[i].min_span(axis, false)).add(layout.gaps),
                        );
                    }
                    i = i + 1;
                }
                taken
            },
        }
    }

    /// Resizes the child of the nearest node that arranges its children along the cross axis and
    /// has the tile in it. Without such a node the tile fills the cross axis, and nothing happens.
    #[verifier::spinoff_prover]
    pub fn set_window_height(
        &mut self,
        options: &Options<N>,
        change: SizeChange<N>,
        tile_idx: usize,
        animate: bool,
        out: &mut Outbox<N>,
    )
        requires
            old(self)@.wf(),
            tile_idx < old(self)@.tiles().len(),
        ensures
            work(final(self)@, final(out)@) == work(old(self)@, old(out)@).set_window_height(
                *options,
                change,
                tile_idx,
                animate,
            ),
            final(self)@.wf(),
            final(self)@.place() == old(self)@.place(),
            final(self)@.tiles() == old(self)@.tiles(),
    {
        reveal(Work::set_window_height);
        let ghost before = self@;
        let layout = &options.layout;
        proof {
            lemma_section_tiles(before, *layout);
        }
        let path = match self.root.path_for_leaf_index(tile_idx) {
            Some(path) => path,
            None => {
                return;
            },
        };
        let k: usize = match self.root.nearest_along(&path, SplitAxis::Cross) {
            Some(k) => k,
            None => {
                return;
            },
        };
        proof {
            lemma_prefix(before.root, path@, k as int + 1);
            lemma_auto_heights(before);
        }
        let path = path_prefix(&path, k + 1);
        let tile = self.tile(tile_idx);

        // Only one window in the section can have a height that is not automatic. A tile that has
        // one already keeps the weights of the others.
        let is_auto = match self.root.leaf_data(&path) {
            Some(data) => matches!(data.span, ChildSpan::Auto { .. }),
            None => false,
        };
        if is_auto {
            self.convert_heights_to_auto();
        }
        let ghost base = self@;
        assert(base.root.has_path(path@));
        let current_height = match self.root.leaf_data(&path) {
            Some(data) => data.span,
            None => ChildSpan::auto_1(),
        };
        let (current_window, current_tile) = match current_height {
            ChildSpan::Fixed(span) => (tile.window_height_for_tile_height(span), span),
            _ => {
                let span = AxisMap::new(layout.main_axis).size_in(tile.window_size).h;
                (span, tile.tile_height_for_window_height(span))
            },
        };
        let gaps = layout.gaps;
        let available = self.props.working_area.size.h.sub(gaps);
        let extra = self.extra_size().h;
        let hundred = N::of_int(100);
        let current_proportion = if available.same(N::of_int(0)) {
            N::of_int(1)
        } else {
            current_tile.add(gaps).div(available)
        };
        let wanted = match change {
            SizeChange::SetFixed(fixed) => N::of_int(fixed as i64),
            SizeChange::SetProportion(proportion) => tile.window_height_for_tile_height(
                available.mul(proportion.div(hundred)).sub(gaps).sub(extra),
            ),
            SizeChange::AdjustFixed(delta) => current_window.add(N::of_int(delta as i64)),
            SizeChange::AdjustProportion(delta) => tile.window_height_for_tile_height(
                available.mul(current_proportion.add(delta.div(hundred))).sub(gaps).sub(extra),
            ),
        };
        assert(wanted == base.changed_window_span(*layout, change, tile, current_height));

        let taken = self.taken_beside(layout, &path);
        let left = self.props.working_area.size.h.sub(extra).sub(gaps).sub(taken).sub(gaps);
        let mut span = N::of_int(1).max(tile.window_height_for_tile_height(left)).min(wanted);
        if tile.window_max_size.h > 0 {
            span = span.min(N::of_int(tile.window_max_size.h as i64));
        }
        if tile.window_min_size.h > 0 {
            span = span.max(N::of_int(tile.window_min_size.h as i64));
        }
        let span = clamp(span, N::of_int(1), N::of_int(100000));

        let data = SplitChildData {
            span: ChildSpan::Fixed(tile.tile_height_for_window_height(span)),
            size: tile.tile_size,
            interactively_resizing_by_start_edge: false,
        };
        self.root.set_leaf_data(&path, data);
        proof {
            lemma_leaf_data_only(base.root, path@, data);
        }
        self.props.is_pending_maximized = false;
        self.update_tile_sizes(options, animate, out);
    }

    fn set_leaf_span(&mut self, path: &Vec<usize>, span: ChildSpan<N>)
        requires
            old(self)@.wf(),
            old(self)@.root.has_path(path@),
        ensures
            final(self)@ == old(self)@.with_leaf_span(path@, span),
            final(self)@.wf(),
            final(self)@.place() == old(self)@.place(),
            final(self)@.tiles() == old(self)@.tiles(),
    {
        if let Some(data) = self.root.leaf_data(path) {
            let mut data = data;
            data.span = span;
            proof {
                lemma_leaf_data_only(self@.root, path@, data);
            }
            self.root.set_leaf_data(path, data);
        }
    }

    /// Makes a height automatic again. With tabs, all of them.
    #[verifier::spinoff_prover]
    pub fn reset_window_height(&mut self, options: &Options<N>, tile_idx: usize, out: &mut Outbox<
        N,
    >)
        requires
            old(self)@.wf(),
            tile_idx < old(self)@.tiles().len(),
        ensures
            work(final(self)@, final(out)@) == work(old(self)@, old(out)@).reset_window_height(
                *options,
                tile_idx,
            ),
            final(self)@.wf(),
            final(self)@.place() == old(self)@.place(),
            final(self)@.tiles() == old(self)@.tiles(),
    {
        reveal(Work::reset_window_height);
        let ghost before = self@;
        proof {
            lemma_section_tiles(before, options.layout);
        }
        if self.is_tabbed() {
            let mut data = self.root.child_data();
            let ghost had = data@;
            let mut i: usize = 0;
            while i < data.len()
                invariant
                    i <= data.len(),
                    data.len() == had.len(),
                    forall|j: int|
                        0 <= j < data@.len() ==> data@[j] == if j < i {
                            reset_children(had)[j]
                        } else {
                            had[j]
                        },
                decreases data.len() - i,
            {
                let mut slot = data[i];
                slot.span = ChildSpan::auto_1();
                data[i] = slot;
                i = i + 1;
            }
            assert(data@ =~= reset_children(had));
            self.root.set_all_child_data(data);
            proof {
                lemma_data_only(before.root, reset_children(had));
            }
        } else if let Some(path) = self.root.path_for_leaf_index(tile_idx) {
            self.set_leaf_span(&path, ChildSpan::auto_1());
        }
        self.update_tile_sizes(options, true, out);
    }

    /// The preset height that comes next.
    #[verifier::spinoff_prover]
    fn next_preset_height(
        &self,
        options: &Options<N>,
        tile: &Tile<N>,
        path: &Vec<usize>,
        forwards: bool,
    ) -> (r: usize)
        requires
            self@.wf(),
            self@.root.has_path(path@),
            options.preset_window_heights.len() > 0,
        ensures
            r == self@.next_preset_height(*options, *tile, path@, forwards),
            r < options.preset_window_heights.len(),
    {
        let presets = &options.preset_window_heights;
        let len: usize = presets.len();
        let data = self.root.leaf_data(path);
        let mut current = N::of_int(0);
        if let Some(data) = data {
            if let ChildSpan::Preset(idx) = data.span {
                if !self.props.is_pending_maximized {
                    return cycle(idx, len, forwards);
                }
            }
            current = data.size.h;
        }
        let one = N::of_int(1);
        let ghost larger_spec = Seq::new(
            presets@.len(),
            |i: int|
                current + one < tile.with_border(
                    self@.preset_window_span(options.layout, *tile, presets@[i]),
                ),
        );
        let ghost smaller_spec = Seq::new(
            presets@.len(),
            |i: int|
                tile.with_border(
                    self@.preset_window_span(options.layout, *tile, presets@[i]),
                ) + one < current,
        );
        let mut larger: Vec<bool> = Vec::new();
        let mut smaller: Vec<bool> = Vec::new();
        let mut i: usize = 0;
        while i < len
            invariant
                i <= len,
                len == presets.len(),
                self@.wf(),
                larger.len() == i,
                smaller.len() == i,
                larger_spec.len() == len,
                smaller_spec.len() == len,
                forall|j: int|
                    #![trigger larger_spec[j]]
                    #![trigger smaller_spec[j]]
                    0 <= j < len ==> larger_spec[j] == (current + one < tile.with_border(
                        self@.preset_window_span(options.layout, *tile, presets@[j]),
                    )) && smaller_spec[j] == (tile.with_border(
                        self@.preset_window_span(options.layout, *tile, presets@[j]),
                    ) + one < current),
                forall|j: int| 0 <= j < i ==> larger@[j] == #[trigger] larger_spec[j],
                forall|j: int| 0 <= j < i ==> smaller@[j] == #[trigger] smaller_spec[j],
            decreases len - i,
        {
            let span = tile.tile_height_for_window_height(
                self.resolve_preset_window_span(&options.layout, tile, presets[i]),
            );
            let is_larger = current.add(one).lt(span);
            let is_smaller = span.add(one).lt(current);
            assert(is_larger == larger_spec[i as int]);
            assert(is_smaller == smaller_spec[i as int]);
            larger.push(is_larger);
            smaller.push(is_smaller);
            i = i + 1;
        }
        assert(larger@ =~= larger_spec);
        assert(smaller@ =~= smaller_spec);
        if forwards {
            match find_first_set(&larger) {
                Some(i) => i,
                None => 0,
            }
        } else {
            match find_last_set(&smaller) {
                Some(i) => i,
                None => len - 1,
            }
        }
    }

    /// Switches to the next preset height.
    #[verifier::spinoff_prover]
    pub fn toggle_window_height(
        &mut self,
        options: &Options<N>,
        tile_idx: usize,
        forwards: bool,
        out: &mut Outbox<N>,
    )
        requires
            old(self)@.wf(),
            tile_idx < old(self)@.tiles().len(),
            options.preset_window_heights.len() > 0,
        ensures
            work(final(self)@, final(out)@) == work(old(self)@, old(out)@).toggle_window_height(
                *options,
                tile_idx,
                forwards,
            ),
            final(self)@.wf(),
            final(self)@.place() == old(self)@.place(),
            final(self)@.tiles() == old(self)@.tiles(),
    {
        reveal(Work::toggle_window_height);
        let ghost before = self@;
        proof {
            lemma_section_tiles(before, options.layout);
            lemma_auto_heights(before);
        }
        let path = match self.root.path_for_leaf_index(tile_idx) {
            Some(path) => path,
            None => {
                return;
            },
        };
        let tile = self.tile(tile_idx);
        let is_auto = match self.root.leaf_data(&path) {
            Some(data) => matches!(data.span, ChildSpan::Auto { .. }),
            None => false,
        };
        if is_auto {
            self.convert_heights_to_auto();
        }
        assert(self@.root.has_path(path@));
        let preset_idx = self.next_preset_height(options, &tile, &path, forwards);
        self.set_leaf_span(&path, ChildSpan::Preset(preset_idx));
        self.props.is_pending_maximized = false;
        self.update_tile_sizes(options, true, out);
    }

    /// Asks the tiles to become fullscreen, or to leave it.
    pub fn set_fullscreen(&mut self, options: &Options<N>, is_fullscreen: bool, out: &mut Outbox<N>)
        requires
            old(self)@.wf(),
            is_fullscreen && !old(self)@.props.is_pending_fullscreen ==> old(self)@.tiles().len()
                == 1 || old(self)@.root.is_tabbed(),
        ensures
            work(final(self)@, final(out)@) == work(old(self)@, old(out)@).set_fullscreen(
                *options,
                is_fullscreen,
            ),
            final(self)@.wf(),
            final(self)@.place() == old(self)@.place(),
            final(self)@.tiles() == old(self)@.tiles(),
    {
        reveal(Work::set_fullscreen);
        if self.props.is_pending_fullscreen == is_fullscreen {
            return;
        }
        self.props.is_pending_fullscreen = is_fullscreen;
        self.update_tile_sizes(options, true, out);
    }

    /// Asks the tiles to become maximized, or to stop being it.
    pub fn set_maximized(&mut self, options: &Options<N>, maximize: bool, out: &mut Outbox<N>)
        requires
            old(self)@.wf(),
            maximize && !old(self)@.props.is_pending_maximized ==> old(self)@.tiles().len() == 1
                || old(self)@.root.is_tabbed(),
        ensures
            work(final(self)@, final(out)@) == work(old(self)@, old(out)@).set_maximized(
                *options,
                maximize,
            ),
            final(self)@.wf(),
            final(self)@.place() == old(self)@.place(),
            final(self)@.tiles() == old(self)@.tiles(),
    {
        reveal(Work::set_maximized);
        if self.props.is_pending_maximized == maximize {
            return;
        }
        self.props.is_pending_maximized = maximize;
        self.update_tile_sizes(options, true, out);
    }
}

/// Whether at most one child has a span that is not automatic.
pub open spec fn at_most_one_is_set<N>(data: Seq<SplitChildData<N>>) -> bool {
    forall|i: int, j: int|
        0 <= i < j < data.len() ==> (#[trigger] data[i]).span is Auto || (#[trigger] data[j]).span is Auto
}

/// Whether two lists of children have the same spans.
pub open spec fn same_spans<N>(a: Seq<SplitChildData<N>>, b: Seq<SplitChildData<N>>) -> bool {
    a.len() == b.len() && forall|i: int|
        0 <= i < a.len() ==> (#[trigger] a[i]).span == (#[trigger] b[i]).span
}

/// Requesting sizes changes no span.
pub proof fn lemma_sizing_keeps_spans<N: Scalar>(section: SectionView<N>, options: Options<N>)
    requires
        section.wf(),
    ensures
        same_spans(section.with_sizes(options).root.child_data(), section.root.child_data()),
{
}

/// Other data for a child below the root touches no child of the root, and for a child of the root
/// only that one.
proof fn lemma_root_data<N: Scalar>(tree: Tree<N>, path: Seq<usize>, data: SplitChildData<N>)
    requires
        tree.wf(),
        tree.has_path(path),
        path.len() > 0,
    ensures
        tree.with_leaf_data(path, data).child_data() == if path.len() == 1 {
            tree.child_data().update(path[0] as int, data)
        } else {
            tree.child_data()
        },
        path.len() == 1 ==> tree.leaf_data(path) == Some(tree.child_data()[path[0] as int]),
{
    lemma_parent(tree, path);
    if path.len() == 1 {
        assert(path.drop_last() =~= Seq::<usize>::empty());
    }
}

/// The nearest ancestor stands on the path.
pub proof fn lemma_nearest_along_within<N: Scalar>(
    tree: Tree<N>,
    path: Seq<usize>,
    axis: SplitAxis,
    upto: int,
)
    requires
        0 <= upto <= path.len(),
    ensures
        tree.nearest_along(path, axis, upto) matches Some(k) ==> 0 <= k < upto,
    decreases upto,
{
    if upto > 0 {
        lemma_nearest_along_within(tree, path, axis, upto - 1);
    }
}

/// Another span for a child touches no child of the root, or only that one.
proof fn lemma_span_at_root<N: Scalar>(
    section: SectionView<N>,
    path: Seq<usize>,
    span: ChildSpan<N>,
)
    requires
        section.wf(),
        section.root.has_path(path),
        path.len() > 0,
    ensures
        section.with_leaf_span(path, span).wf(),
        ({
            let data = section.root.child_data();
            let after = section.with_leaf_span(path, span).root.child_data();
            &&& after.len() == data.len()
            &&& forall|i: int|
                0 <= i < data.len() ==> (#[trigger] after[i]).span == if path.len() == 1 && i
                    == path[0] {
                    span
                } else {
                    data[i].span
                }
        }),
{
    lemma_parent(section.root, path);
    if let Some(data) = section.root.leaf_data(path) {
        lemma_root_data(section.root, path, SplitChildData { span, ..data });
        lemma_leaf_data_only(section.root, path, SplitChildData { span, ..data });
    }
}

/// A set height touches no child of the root, or only the one that it is set for; the others may
/// have become automatic.
#[verifier::spinoff_prover]
proof fn lemma_changed_height_at_root<N: Scalar>(
    section: SectionView<N>,
    layout: LayoutOptions<N>,
    change: SizeChange<N>,
    tile: Tile<N>,
    path: Seq<usize>,
)
    requires
        section.wf(),
        section.root.has_path(path),
        path.len() > 0,
    ensures
        section.with_changed_height(layout, change, tile, path).wf(),
        ({
            let data = section.root.child_data();
            let base = if section.root.leaf_data(path) matches Some(d) && d.span is Auto {
                auto_heights(data)
            } else {
                data
            };
            let after = section.with_changed_height(
                layout,
                change,
                tile,
                path,
            ).root.child_data();
            &&& after.len() == data.len()
            &&& path.len() == 1 ==> section.root.leaf_data(path) == Some(data[path[0] as int])
            &&& forall|i: int|
                0 <= i < data.len() && !(path.len() == 1 && i == path[0]) ==> (
                #[trigger] after[i]).span == base[i].span
        }),
{
    lemma_auto_heights(section);
    lemma_parent(section.root, path);
    let base = if section.root.leaf_data(path) matches Some(d) && d.span is Auto {
        section.with_auto_heights()
    } else {
        section
    };
    let current = match base.root.leaf_data(path) {
        Some(data) => data.span,
        None => ChildSpan::spec_auto_1(),
    };
    let wanted = base.changed_window_span(layout, change, tile, current);
    let span = base.limited_window_span(layout, tile, base.taken_beside(layout, path), wanted);
    let set = SplitChildData {
        span: ChildSpan::Fixed(tile.with_border(span)),
        size: tile.tile_size,
        interactively_resizing_by_start_edge: false,
    };
    lemma_root_data(section.root, path, set);
    lemma_root_data(base.root, path, set);
    lemma_leaf_data_only(base.root, path, set);
}

/// Setting the height of a window leaves at most one child of its section with a height that is
/// not automatic, if that was so before. When a window with an automatic height gets one of its
/// own, all other children become automatic, with the weights that keep the heights that they have
/// at that moment.
#[verifier::spinoff_prover]
pub proof fn law_set_height_leaves_others_automatic<N: Scalar>(
    before: Work<N>,
    options: Options<N>,
    change: SizeChange<N>,
    tile_idx: usize,
    animate: bool,
)
    requires
        before.section.wf(),
        tile_idx < before.section.tiles().len(),
        at_most_one_is_set(before.section.root.child_data()),
    ensures
        ({
            let path = before.section.root.leaf_paths()[tile_idx as int];
            let data = before.section.root.child_data();
            let after = before.set_window_height(
                options,
                change,
                tile_idx,
                animate,
            ).section.root.child_data();
            &&& after.len() == data.len()
            &&& at_most_one_is_set(after)
            &&& before.section.root.nearest_along(path, SplitAxis::Cross, path.len() as int)
                == Some(0int) && data[path[0] as int].span is Auto ==> forall|j: int|
                0 <= j < data.len() && j != path[0] ==> (#[trigger] after[j]).span
                    == auto_heights(data)[j].span
        }),
{
    reveal(Work::set_window_height);
    let section = before.section;
    let path = section.root.leaf_paths()[tile_idx as int];
    lemma_section_tiles(section, options.layout);
    lemma_wf_is_sane(section.root);
    lemma_leaf_paths(section.root);
    lemma_auto_heights(section);
    if let Some(k) = section.root.nearest_along(path, SplitAxis::Cross, path.len() as int) {
        lemma_nearest_along_within(section.root, path, SplitAxis::Cross, path.len() as int);
        let at = path.take(k + 1);
        lemma_prefix(section.root, path, k + 1);
        let tile = section.tiles()[tile_idx as int];
        let changed = section.with_changed_height(options.layout, change, tile, at);
        lemma_changed_height_at_root(section, options.layout, change, tile, at);
        lemma_sizing_keeps_spans(changed, options);
    }
}

/// Moving the height of a window on to the next preset leaves at most one child of its section
/// with a height that is not automatic, if that was so before.
#[verifier::spinoff_prover]
pub proof fn law_preset_height_leaves_others_automatic<N: Scalar>(
    before: Work<N>,
    options: Options<N>,
    tile_idx: usize,
    forwards: bool,
)
    requires
        before.section.wf(),
        tile_idx < before.section.tiles().len(),
        at_most_one_is_set(before.section.root.child_data()),
    ensures
        at_most_one_is_set(
            before.toggle_window_height(options, tile_idx, forwards).section.root.child_data(),
        ),
{
    reveal(Work::toggle_window_height);
    let section = before.section;
    let path = section.root.leaf_paths()[tile_idx as int];
    lemma_section_tiles(section, options.layout);
    lemma_wf_is_sane(section.root);
    lemma_leaf_paths(section.root);
    lemma_auto_heights(section);
    let base = if section.root.leaf_data(path) matches Some(d) && d.span is Auto {
        section.with_auto_heights()
    } else {
        section
    };
    lemma_root_data(section.root, path, section.root.leaf_data(path)->Some_0);
    let idx = base.next_preset_height(options, section.tiles()[tile_idx as int], path, forwards);
    lemma_span_at_root(base, path, ChildSpan::Preset(idx));
    let chosen = base.with_leaf_span(path, ChildSpan::Preset(idx));
    let shown = SectionView {
        props: SectionProps { is_pending_maximized: false, ..chosen.props },
        ..chosen
    };
    lemma_sizing_keeps_spans(shown, options);
}

/// Resetting the height of a window makes it automatic and sets no other height.
#[verifier::spinoff_prover]
pub proof fn law_reset_height_is_automatic<N: Scalar>(
    before: Work<N>,
    options: Options<N>,
    tile_idx: usize,
)
    requires
        before.section.wf(),
        tile_idx < before.section.tiles().len(),
    ensures
        ({
            let path = before.section.root.leaf_paths()[tile_idx as int];
            let data = before.section.root.child_data();
            let after = before.reset_window_height(options, tile_idx).section.root.child_data();
            &&& after.len() == data.len()
            &&& path.len() == 1 ==> after[path[0] as int].span == ChildSpan::<N>::spec_auto_1()
            &&& forall|j: int|
                0 <= j < data.len() ==> (#[trigger] after[j]).span == data[j].span || after[j].span
                    == ChildSpan::<N>::spec_auto_1()
        }),
{
    reveal(Work::reset_window_height);
    let section = before.section;
    let data = section.root.child_data();
    let path = section.root.leaf_paths()[tile_idx as int];
    lemma_section_tiles(section, options.layout);
    lemma_wf_is_sane(section.root);
    lemma_leaf_paths(section.root);
    lemma_parent(section.root, path);
    if section.root.is_tabbed() {
        lemma_data_only(section.root, reset_children(data));
        lemma_sizing_keeps_spans(
            section.with_root(section.root.with_child_data(reset_children(data))),
            options,
        );
    } else {
        lemma_span_at_root(section, path, ChildSpan::spec_auto_1());
        lemma_sizing_keeps_spans(section.with_leaf_span(path, ChildSpan::spec_auto_1()), options);
    }
}

} // verus!
