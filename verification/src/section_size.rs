//! Requesting sizes of the tiles of a section.
use vstd::prelude::*;

use crate::axis::AxisMap;
use crate::config::{
    resolve_preset_size, resolved_preset, LayoutOptions, Options, PresetSize, ResolvedSize,
    SectionWidth, SizingMode,
};
use crate::geometry::Size;
use crate::scalar::{clamp, clamped, num, Scalar};
use crate::section::{axis_of, lemma_section_tiles, Section, SectionView};
use crate::spans::{
    collect_greatest_sizes, collect_least_sizes, compute_non_auto_limit, compute_tabbed_span,
    distribute, division, greatest_sizes, least_sizes, limit_main_span, limited_main_span,
    non_auto_limit, tabbed_span,
};
use crate::tile::{Outbox, OutboxView, Tile, TileEffect};
use crate::tile_node::{ChildSpan, SplitChildData, Tree};
use crate::tree_layout::{lemma_sized, lemma_visibility_len, Measures};

verus! {

/// A section together with what was asked of tiles so far.
#[verifier::ext_equal]
pub ghost struct Work<N> {
    pub section: SectionView<N>,
    pub out: OutboxView<N>,
}

/// A section at work.
pub open spec fn work<N>(section: SectionView<N>, out: OutboxView<N>) -> Work<N> {
    Work { section, out }
}

/// An effect for each of some tiles.
pub open spec fn tile_effects<N>(
    tiles: Seq<Tile<N>>,
    effect: spec_fn(int) -> TileEffect<N>,
) -> Seq<(u64, TileEffect<N>)> {
    Seq::new(tiles.len(), |i: int| (tiles[i].id, effect(i)))
}

/// The transaction that a tile takes part in: with tabs, only the one that is shown does.
pub open spec fn joined(transaction: u64, takes_part: bool) -> Option<u64> {
    if takes_part {
        Some(transaction)
    } else {
        None
    }
}

impl<N: Scalar> SectionView<N> {
    pub open spec fn measures(self, layout: LayoutOptions<N>) -> Measures<N> {
        Measures { gaps: layout.gaps, scale: self.props.scale, axis: axis_of(layout) }
    }

    pub open spec fn desired_width(self) -> SectionWidth<N> {
        if self.props.is_full_width {
            SectionWidth::Proportion(num::<N>(1))
        } else {
            self.props.width
        }
    }

    /// Whether tiles are laid out through the levels of the tree.
    pub open spec fn is_nested(self) -> bool {
        self.root.has_nested_children() || self.root.is_main_split()
    }

    /// The size that a nested tree is given.
    pub open spec fn available_size(self, layout: LayoutOptions<N>) -> Size<N> {
        let axis = axis_of(layout);
        let desired = self.resolved_main_span(layout, self.desired_width());
        let span = desired.spec_min(self.root.max_main_span(axis)).spec_max(
            self.root.min_span(axis, true),
        );
        Size {
            w: span.spec_max(num::<N>(1)),
            h: (self.props.working_area.size.h - layout.gaps * num::<N>(2)).spec_max(num::<N>(1)),
        }
    }

    pub open spec fn max_tile_cross_span(self, layout: LayoutOptions<N>) -> N {
        self.props.working_area.size.h - layout.gaps * num::<N>(2) - self.extra_size().h
    }

    pub open spec fn child_spans(self) -> Seq<ChildSpan<N>> {
        let data = self.root.child_data();
        Seq::new(data.len(), |i: int| data[i].span)
    }

    /// The limit on the one span that is not automatic, where it has to leave space to others.
    pub open spec fn shared_limit(self, layout: LayoutOptions<N>) -> Option<N> {
        if self.tiles().len() > 1 && !self.root.is_tabbed() {
            non_auto_limit(
                self.tiles(),
                self.child_spans(),
                least_sizes(self.tiles(), axis_of(layout)),
                layout.gaps,
                self.max_tile_cross_span(layout),
            )
        } else {
            None
        }
    }

    pub open spec fn preset_cross_span(
        self,
        layout: LayoutOptions<N>,
        preset: PresetSize<N>,
    ) -> ResolvedSize<N> {
        resolved_preset(
            preset,
            layout.gaps,
            self.props.working_area.size.h,
            self.extra_size().h,
        )
    }

    pub open spec fn preset_main_span(
        self,
        layout: LayoutOptions<N>,
        preset: PresetSize<N>,
    ) -> ResolvedSize<N> {
        resolved_preset(
            preset,
            layout.gaps,
            self.props.working_area.size.w,
            self.extra_size().w,
        )
    }

    /// The whole window span that a preset stands for.
    pub open spec fn preset_window_span(
        self,
        layout: LayoutOptions<N>,
        tile: Tile<N>,
        preset: PresetSize<N>,
    ) -> N {
        let span = match self.preset_cross_span(layout, preset) {
            ResolvedSize::Tile(span) => tile.without_border(span),
            ResolvedSize::Window(span) => span,
        };
        clamped(span.spec_round(), num::<N>(1), num::<N>(100000))
    }

    /// A span as a *tile* span that is fixed or automatic, within what there is. A preset that
    /// does not exist counts as automatic.
    pub open spec fn converted_span(
        self,
        options: Options<N>,
        tile: Tile<N>,
        span: ChildSpan<N>,
    ) -> ChildSpan<N> {
        let limit = self.shared_limit(options.layout);
        match span {
            ChildSpan::Auto { .. } => span,
            ChildSpan::Fixed(tile_span) => {
                let cap = match limit {
                    Some(limit) => tile.with_border(limit),
                    None => self.max_tile_cross_span(options.layout),
                };
                ChildSpan::Fixed(tile_span.spec_round().spec_max(num::<N>(1)).spec_min(cap))
            },
            ChildSpan::Preset(idx) => if idx < options.preset_window_heights@.len() {
                let window_span = self.preset_window_span(
                    options.layout,
                    tile,
                    options.preset_window_heights@[idx as int],
                );
                let window_span = match limit {
                    Some(limit) => window_span.spec_min(limit),
                    None => window_span,
                };
                ChildSpan::Fixed(tile.with_border(window_span))
            } else {
                ChildSpan::spec_auto_1()
            },
        }
    }

    pub open spec fn converted_spans(self, options: Options<N>) -> Seq<ChildSpan<N>> {
        let tiles = self.tiles();
        let spans = self.child_spans();
        let converted = Seq::new(
            tiles.len(),
            |i: int| self.converted_span(options, tiles[i], spans[i]),
        );
        if self.root.is_tabbed() {
            let least = least_sizes(tiles, axis_of(options.layout));
            let span = tabbed_span(converted, least, self.max_tile_cross_span(options.layout));
            Seq::new(tiles.len(), |i: int| ChildSpan::Fixed(span))
        } else {
            converted
        }
    }

    /// The tile spans along the cross axis in a section without nested tiles.
    pub open spec fn flat_cross_spans(self, options: Options<N>) -> Seq<ChildSpan<N>> {
        let axis = axis_of(options.layout);
        let tiles = self.tiles();
        division(
            tiles,
            self.converted_spans(options),
            least_sizes(tiles, axis),
            greatest_sizes(tiles, axis),
            self.props.working_area.size.h - options.layout.gaps * (num::<N>(tiles.len() as int)
                + num::<N>(1)),
        )
    }

    /// The tile span along the main axis in a section without nested tiles.
    pub open spec fn flat_main_span(self, layout: LayoutOptions<N>) -> N {
        let axis = axis_of(layout);
        limited_main_span(
            self.resolved_main_span(layout, self.desired_width()),
            least_sizes(self.tiles(), axis),
            greatest_sizes(self.tiles(), axis),
        )
    }

    /// The section after sizes were requested of its tiles.
    pub open spec fn with_sizes(self, options: Options<N>) -> Self {
        let layout = options.layout;
        if self.pending_sizing_mode() != SizingMode::Normal {
            self
        } else if self.is_nested() {
            SectionView {
                root: self.root.sized(self.available_size(layout), self.measures(layout)),
                ..self
            }
        } else {
            SectionView { root: self.root.with_fresh_data(axis_of(layout)), ..self }
        }
    }

    /// What is requested of the tile `i`.
    pub open spec fn size_effect(
        self,
        options: Options<N>,
        animate: bool,
        transaction: u64,
        i: int,
    ) -> TileEffect<N> {
        let layout = options.layout;
        let axis = axis_of(layout);
        let takes_part = !self.root.is_tabbed() || i == self.active_leaf_idx();
        match self.pending_sizing_mode() {
            SizingMode::Fullscreen => TileEffect::RequestFullscreen {
                animate,
                transaction: joined(transaction, takes_part),
            },
            SizingMode::Maximized => TileEffect::RequestMaximized {
                size: axis.spec_size(self.props.parent_area.size),
                animate,
                transaction: joined(transaction, takes_part),
            },
            SizingMode::Normal => if self.is_nested() {
                TileEffect::RequestTileSize {
                    size: axis.spec_size(self.with_sizes(options).leaf_size(i as usize)),
                    animate,
                    transaction: joined(transaction, self.root.visibility(true)[i]),
                }
            } else {
                TileEffect::RequestTileSize {
                    size: axis.spec_size(
                        Size {
                            w: self.flat_main_span(layout),
                            h: self.flat_cross_spans(options)[i]->Fixed_0,
                        },
                    ),
                    animate,
                    transaction: joined(
                        transaction,
                        !self.root.is_tabbed() || i == self.root.active_idx(),
                    ),
                }
            },
        }
    }
}

impl<N: Scalar> Work<N> {
    /// Sizes requested of all tiles as part of a transaction.
    pub open spec fn sized_in(self, options: Options<N>, animate: bool, transaction: u64) -> Self {
        Work {
            section: self.section.with_sizes(options),
            out: OutboxView {
                effects: self.out.effects + tile_effects(
                    self.section.tiles(),
                    |i: int| self.section.size_effect(options, animate, transaction, i),
                ),
                ..self.out
            },
        }
    }

    /// Sizes requested of all tiles in a transaction of their own.
    pub open spec fn sized(self, options: Options<N>, animate: bool) -> Self {
        Work { out: self.out.with_transaction(), ..self }.sized_in(
            options,
            animate,
            self.out.next_transaction(),
        )
    }
}

/// In a tree without nested nodes the tiles are the children.
pub proof fn lemma_flat<N>(tree: Tree<N>)
    requires
        tree is Internal,
        !tree.has_nested_children(),
    ensures
        tree.leaves().len() == tree->children.len(),
        forall|i: int|
            0 <= i < tree->children.len() ==> tree->children[i] == Tree::Leaf(
                #[trigger] tree.leaves()[i],
            ),
{
    lemma_flat_forest(tree->children, tree->children.len() as int);
}

proof fn lemma_flat_forest<N>(children: Seq<Tree<N>>, upto: int)
    requires
        0 <= upto <= children.len(),
        forall|i: int| 0 <= i < children.len() ==> #[trigger] children[i] is Leaf,
    ensures
        Tree::forest_leaves(children, upto).len() == upto,
        forall|i: int|
            0 <= i < upto ==> children[i] == Tree::Leaf(
                #[trigger] Tree::forest_leaves(children, upto)[i],
            ),
    decreases upto,
{
    if upto > 0 {
        lemma_flat_forest(children, upto - 1);
        assert(children[upto - 1] is Leaf);
        assert(children[upto - 1].leaves() =~= seq![children[upto - 1]->Leaf_0]);
    }
}

/// Other data for the children of the root changes neither tiles nor paths.
pub proof fn lemma_data_only<N: Scalar>(tree: Tree<N>, data: Seq<SplitChildData<N>>)
    requires
        tree.wf(),
        data.len() == tree.child_data().len(),
    ensures
        tree.with_child_data(data).wf(),
        tree.with_child_data(data).leaves() == tree.leaves(),
        tree.with_child_data(data).leaf_paths() == tree.leaf_paths(),
        tree.with_child_data(data).active_path() == tree.active_path(),
        tree.with_child_data(data).active_leaf() == tree.active_leaf(),
        tree is Internal <==> tree.with_child_data(data) is Internal,
{
}

/// Requesting sizes keeps the tiles, their order, and which one is active.
pub proof fn lemma_with_sizes<N: Scalar>(section: SectionView<N>, options: Options<N>)
    requires
        section.wf(),
    ensures
        section.with_sizes(options).wf(),
        section.with_sizes(options).tiles() == section.tiles(),
        section.with_sizes(options).root.leaf_paths() == section.root.leaf_paths(),
        section.with_sizes(options).root.active_path() == section.root.active_path(),
        section.with_sizes(options).root.active_leaf() == section.root.active_leaf(),
        section.with_sizes(options).active_leaf_idx() == section.active_leaf_idx(),
        section.with_sizes(options).props == section.props,
        section.with_sizes(options).root.layout() == section.root.layout(),
        section.with_sizes(options).root.child_count() == section.root.child_count(),
        section.with_sizes(options).root.active_idx() == section.root.active_idx(),
        section.with_sizes(options).root.header() == section.root.header(),
        section.with_sizes(options).sizing_mode() == section.sizing_mode(),
{
    let layout = options.layout;
    lemma_sized(section.root, section.available_size(layout), section.measures(layout));
    let data = section.root.child_data();
    let fresh = crate::tree_edit::fresh_data(
        section.root->children,
        data,
        axis_of(layout),
        data.len() as int,
    );
    lemma_data_only(section.root, fresh);
    lemma_section_tiles(section, layout);
}

impl<N: Scalar> Section<N> {
    pub fn resolve_preset_main_span(
        &self,
        layout: &LayoutOptions<N>,
        preset: PresetSize<N>,
    ) -> (r: ResolvedSize<N>)
        requires
            self@.wf(),
        ensures
            r == self@.preset_main_span(*layout, preset),
    {
        resolve_preset_size(
            preset,
            layout.gaps,
            self.props.working_area.size.w,
            self.extra_size().w,
        )
    }

    pub fn resolve_preset_cross_span(
        &self,
        layout: &LayoutOptions<N>,
        preset: PresetSize<N>,
    ) -> (r: ResolvedSize<N>)
        requires
            self@.wf(),
        ensures
            r == self@.preset_cross_span(*layout, preset),
    {
        resolve_preset_size(
            preset,
            layout.gaps,
            self.props.working_area.size.h,
            self.extra_size().h,
        )
    }

    /// The whole window span that a preset stands for.
    pub fn resolve_preset_window_span(
        &self,
        layout: &LayoutOptions<N>,
        tile: &Tile<N>,
        preset: PresetSize<N>,
    ) -> (r: N)
        requires
            self@.wf(),
        ensures
            r == self@.preset_window_span(*layout, *tile, preset),
    {
        let span = match self.resolve_preset_cross_span(layout, preset) {
            ResolvedSize::Tile(span) => tile.window_height_for_tile_height(span),
            ResolvedSize::Window(span) => span,
        };
        clamp(span.round(), N::of_int(1), N::of_int(100000))
    }

    fn desired_width(&self) -> (r: SectionWidth<N>)
        ensures
            r == self@.desired_width(),
    {
        if self.props.is_full_width {
            SectionWidth::Proportion(N::of_int(1))
        } else {
            self.props.width
        }
    }

    fn is_nested(&self) -> (r: bool)
        ensures
            r == self@.is_nested(),
    {
        self.root.has_nested_children() || self.root.is_main_split()
    }

    fn child_spans(&self) -> (r: Vec<ChildSpan<N>>)
        ensures
            r@ == self@.child_spans(),
    {
        let data = self.root.child_data();
        let mut spans: Vec<ChildSpan<N>> = Vec::new();
        let mut i: usize = 0;
        while i < data.len()
            invariant
                i <= data.len(),
                spans.len() == i,
                forall|j: int| 0 <= j < i ==> spans@[j] == data@[j].span,
            decreases data.len() - i,
        {
            spans.push(data[i].span);
            i = i + 1;
        }
        assert(spans@ =~= self@.child_spans());
        spans
    }

    /// The spans as tile spans that are fixed or automatic.
    fn convert_spans(&self, options: &Options<N>) -> (r: Vec<ChildSpan<N>>)
        requires
            self@.wf(),
            !self@.is_nested(),
        ensures
            r@ == self@.converted_spans(*options),
            r@.len() == self@.tiles().len(),
            forall|j: int| 0 <= j < r@.len() ==> !(#[trigger] r@[j] is Preset),
    {
        proof {
            lemma_flat(self@.root);
            lemma_section_tiles(self@, options.layout);
        }
        let axis = AxisMap::new(options.layout.main_axis);
        let tiles = self.tiles();
        let spans = self.child_spans();
        let least = collect_least_sizes(&tiles, axis);
        let two = N::of_int(2);
        let max_tile_cross_span = self.props.working_area.size.h.sub(
            options.layout.gaps.mul(two),
        ).sub(self.extra_size().h);
        let is_tabbed = self.is_tabbed();
        let limit = if tiles.len() > 1 && !is_tabbed {
            compute_non_auto_limit(
                &tiles,
                &spans,
                &least,
                options.layout.gaps,
                max_tile_cross_span,
            )
        } else {
            None
        };
        let mut converted: Vec<ChildSpan<N>> = Vec::new();
        let mut i: usize = 0;
        while i < tiles.len()
            invariant
                i <= tiles.len(),
                tiles@ == self@.tiles(),
                spans@ == self@.child_spans(),
                spans.len() == tiles.len(),
                self@.wf(),
                limit == self@.shared_limit(options.layout),
                max_tile_cross_span == self@.max_tile_cross_span(options.layout),
                converted.len() == i,
                forall|j: int|
                    0 <= j < i ==> converted@[j] == self@.converted_span(
                        *options,
                        tiles@[j],
                        spans@[j],
                    ),
            decreases tiles.len() - i,
        {
            let tile = tiles[i];
            let span = match spans[i] {
                ChildSpan::Auto { weight } => ChildSpan::Auto { weight },
                ChildSpan::Fixed(tile_span) => {
                    let cap = match limit {
                        Some(limit) => tile.tile_height_for_window_height(limit),
                        None => max_tile_cross_span,
                    };
                    ChildSpan::Fixed(tile_span.round().max(N::of_int(1)).min(cap))
                },
                ChildSpan::Preset(idx) => {
                    if idx < options.preset_window_heights.len() {
                        let preset = options.preset_window_heights[idx];
                        let window_span = self.resolve_preset_window_span(
                            &options.layout,
                            &tile,
                            preset,
                        );
                        let window_span = match limit {
                            Some(limit) => window_span.min(limit),
                            None => window_span,
                        };
                        ChildSpan::Fixed(tile.tile_height_for_window_height(window_span))
                    } else {
                        ChildSpan::auto_1()
                    }
                },
            };
            converted.push(span);
            i = i + 1;
        }
        let ghost plain = Seq::new(
            tiles@.len(),
            |j: int| self@.converted_span(*options, tiles@[j], spans@[j]),
        );
        assert(converted@ =~= plain);
        if is_tabbed {
            let span = compute_tabbed_span(&converted, &least, max_tile_cross_span);
            let mut filled: Vec<ChildSpan<N>> = Vec::new();
            i = 0;
            while i < tiles.len()
                invariant
                    i <= tiles.len(),
                    filled.len() == i,
                    forall|j: int| 0 <= j < i ==> filled@[j] == ChildSpan::Fixed(span),
                decreases tiles.len() - i,
            {
                filled.push(ChildSpan::Fixed(span));
                i = i + 1;
            }
            assert(filled@ =~= self@.converted_spans(*options));
            return filled;
        }
        converted
    }

    /// Requests sizes of the tiles of a section that is going to be fullscreen or maximized.
    fn request_whole_screen(
        &self,
        options: &Options<N>,
        animate: bool,
        transaction: u64,
        out: &mut Outbox<N>,
    )
        requires
            self@.wf(),
            self@.pending_sizing_mode() != SizingMode::Normal,
        ensures
            work(self@, final(out)@) == work(self@, old(out)@).sized_in(
                *options,
                animate,
                transaction,
            ),
    {
        let axis = AxisMap::new(options.layout.main_axis);
        let mode = self.pending_sizing_mode();
        let active_leaf_idx = self.active_leaf_idx();
        let is_tabbed = self.is_tabbed();
        let parent_area_size = axis.size_out(self.props.parent_area.size);
        let tiles = self.tiles();
        let ghost effect = |i: int| self@.size_effect(*options, animate, transaction, i);
        let mut i: usize = 0;
        while i < tiles.len()
            invariant
                i <= tiles.len(),
                tiles@ == self@.tiles(),
                mode == self@.pending_sizing_mode(),
                mode != SizingMode::Normal,
                active_leaf_idx == self@.active_leaf_idx(),
                is_tabbed == self@.root.is_tabbed(),
                parent_area_size == axis_of(options.layout).spec_size(
                    self@.props.parent_area.size,
                ),
                effect == (|i: int| self@.size_effect(*options, animate, transaction, i)),
                out@.transactions == old(out)@.transactions,
                out@.effects == old(out)@.effects + tile_effects(tiles@, effect).take(i as int),
            decreases tiles.len() - i,
        {
            // With tabs, only the visible window takes part in the transaction.
            let own = if is_tabbed && i != active_leaf_idx {
                None
            } else {
                Some(transaction)
            };
            let request = if mode.is_fullscreen() {
                TileEffect::RequestFullscreen { animate, transaction: own }
            } else {
                TileEffect::RequestMaximized {
                    size: parent_area_size,
                    animate,
                    transaction: own,
                }
            };
            out.push(tiles[i].id, request);
            assert(effect(i as int) == request);
            assert(out@.effects =~= old(out)@.effects + tile_effects(tiles@, effect).take(i + 1));
            i = i + 1;
        }
        assert(tile_effects(tiles@, effect).take(i as int) =~= tile_effects(tiles@, effect));
    }

    /// Requests sizes of tiles through the levels of the tree.
    ///
    /// The root reserves the band of its own header, if it has one: it is not taken off here.
    fn update_tile_sizes_recursive(
        &mut self,
        options: &Options<N>,
        animate: bool,
        transaction: u64,
        out: &mut Outbox<N>,
    )
        requires
            old(self)@.wf(),
            old(self)@.pending_sizing_mode() == SizingMode::Normal,
            old(self)@.is_nested(),
        ensures
            work(final(self)@, final(out)@) == work(old(self)@, old(out)@).sized_in(
                *options,
                animate,
                transaction,
            ),
            final(self)@.wf(),
            final(self)@.place() == old(self)@.place(),
            final(self)@.tiles() == old(self)@.tiles(),
    {
        let ghost before = self@;
        let layout = options.layout;
        let axis = AxisMap::new(layout.main_axis);
        let one = N::of_int(1);
        let desired = self.resolve_section_main_span(&layout, self.desired_width());
        let span = desired.min(self.root.max_main_span(axis)).max(self.root.min_span(axis, true));
        let available = Size {
            w: span.max(one),
            h: self.props.working_area.size.h.sub(layout.gaps.mul(N::of_int(2))).max(one),
        };
        let measures = Measures { gaps: layout.gaps, scale: self.props.scale, axis };
        let visibility = self.root.leaf_visibility();
        self.root.apply_sizes(available, measures);
        proof {
            lemma_with_sizes(before, *options);
            lemma_visibility_len(before.root, true);
        }
        let tiles = self.tiles();
        let ghost effect = |i: int| before.size_effect(*options, animate, transaction, i);
        let mut i: usize = 0;
        while i < tiles.len()
            invariant
                i <= tiles.len(),
                tiles@ == before.tiles(),
                self@ == before.with_sizes(*options),
                self@.wf(),
                before.pending_sizing_mode() == SizingMode::Normal,
                before.is_nested(),
                visibility@ == before.root.visibility(true),
                visibility.len() == tiles.len(),
                axis == axis_of(options.layout),
                effect == (|i: int| before.size_effect(*options, animate, transaction, i)),
                out@.transactions == old(out)@.transactions,
                out@.effects == old(out)@.effects + tile_effects(tiles@, effect).take(i as int),
            decreases tiles.len() - i,
        {
            let own = if visibility[i] {
                Some(transaction)
            } else {
                None
            };
            let size = axis.size_out(self.leaf_size(i));
            let request = TileEffect::RequestTileSize { size, animate, transaction: own };
            out.push(tiles[i].id, request);
            assert(effect(i as int) == request);
            assert(out@.effects =~= old(out)@.effects + tile_effects(tiles@, effect).take(i + 1));
            i = i + 1;
        }
        assert(tile_effects(tiles@, effect).take(i as int) =~= tile_effects(tiles@, effect));
    }

    /// Requests sizes of all tiles as part of a transaction.
    ///
    /// Windows that share the cross axis get what their configured spans say, and divide the rest
    /// by their weights, so that each has at least its least size. Nested arrangements go through
    /// the levels of the tree instead.
    pub fn update_tile_sizes_with_transaction(
        &mut self,
        options: &Options<N>,
        animate: bool,
        transaction: u64,
        out: &mut Outbox<N>,
    )
        requires
            old(self)@.wf(),
        ensures
            work(final(self)@, final(out)@) == work(old(self)@, old(out)@).sized_in(
                *options,
                animate,
                transaction,
            ),
            final(self)@.wf(),
            final(self)@.place() == old(self)@.place(),
            final(self)@.tiles() == old(self)@.tiles(),
    {
        let ghost before = self@;
        if !self.pending_sizing_mode().is_normal() {
            self.request_whole_screen(options, animate, transaction, out);
            return;
        }
        if self.is_nested() {
            self.update_tile_sizes_recursive(options, animate, transaction, out);
            return;
        }
        let layout = options.layout;
        let axis = AxisMap::new(layout.main_axis);
        proof {
            lemma_flat(before.root);
            lemma_section_tiles(before, layout);
        }
        let tiles = self.tiles();
        let least = collect_least_sizes(&tiles, axis);
        let greatest = collect_greatest_sizes(&tiles, axis);
        let desired = self.resolve_section_main_span(&layout, self.desired_width());
        let section_main_span = limit_main_span(desired, &least, &greatest);

        let converted = self.convert_spans(options);
        let gap_span = layout.gaps.mul(N::of_usize(tiles.len()).add(N::of_int(1)));
        let total = self.props.working_area.size.h.sub(gap_span);
        let spans = distribute(&tiles, converted, &least, &greatest, total);
        assert(spans@ == before.flat_cross_spans(*options));

        let active_tile_idx = self.active_tile_idx();
        let is_tabbed = self.is_tabbed();
        let ghost effect = |i: int| before.size_effect(*options, animate, transaction, i);
        let mut i: usize = 0;
        while i < tiles.len()
            invariant
                i <= tiles.len(),
                tiles@ == before.tiles(),
                spans@ == before.flat_cross_spans(*options),
                spans.len() == tiles.len(),
                forall|j: int| 0 <= j < spans@.len() ==> #[trigger] spans@[j] is Fixed,
                section_main_span == before.flat_main_span(options.layout),
                before.pending_sizing_mode() == SizingMode::Normal,
                !before.is_nested(),
                is_tabbed == before.root.is_tabbed(),
                active_tile_idx == before.root.active_idx(),
                axis == axis_of(options.layout),
                effect == (|i: int| before.size_effect(*options, animate, transaction, i)),
                out@.transactions == old(out)@.transactions,
                out@.effects == old(out)@.effects + tile_effects(tiles@, effect).take(i as int),
            decreases tiles.len() - i,
        {
            assert(spans@[i as int] is Fixed);
            if let ChildSpan::Fixed(tile_cross_span) = spans[i] {
                let size = axis.size_out(Size { w: section_main_span, h: tile_cross_span });
                let own = if is_tabbed && i != active_tile_idx {
                    None
                } else {
                    Some(transaction)
                };
                let request = TileEffect::RequestTileSize { size, animate, transaction: own };
                out.push(tiles[i].id, request);
                assert(effect(i as int) == request);
            }
            assert(out@.effects =~= old(out)@.effects + tile_effects(tiles@, effect).take(i + 1));
            i = i + 1;
        }
        assert(tile_effects(tiles@, effect).take(i as int) =~= tile_effects(tiles@, effect));
        // The data mirrors the tiles here, unlike in nested arrangements, where it is what the
        // tiles are going to be.
        self.root.update_data(axis);
        proof {
            lemma_with_sizes(before, *options);
        }
    }

    /// Requests sizes of all tiles in a transaction of their own.
    pub fn update_tile_sizes(&mut self, options: &Options<N>, animate: bool, out: &mut Outbox<N>)
        requires
            old(self)@.wf(),
        ensures
            work(final(self)@, final(out)@) == work(old(self)@, old(out)@).sized(*options, animate),
            final(self)@.wf(),
            final(self)@.place() == old(self)@.place(),
            final(self)@.tiles() == old(self)@.tiles(),
    {
        let transaction = out.begin_transaction();
        self.update_tile_sizes_with_transaction(options, animate, transaction, out);
    }
}

} // verus!
