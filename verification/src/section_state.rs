//! Making a section, telling it of changed options, and its animations.
use vstd::prelude::*;

use crate::animation::{unless_done, Animation, AnimationKind};
use crate::axis::AxisMap;
use crate::config::{
    presets_are_same, same_presets, InteractiveResize, LayoutOptions, Options, PresetSize,
    SectionDisplay, SectionWidth, SizingMode, TabHeaderConfig,
};
use crate::geometry::{Point, Rectangle, Size};
use crate::scalar::{num, Scalar};
use crate::section::{
    axis_of, cross_space_vec, cross_vec, lemma_section_tiles, MoveAnimation, Section, SectionProps,
    SectionView,
};
use crate::section_resize::lemma_auto_heights;
use crate::section_size::{lemma_with_sizes, tile_effects, work, Work};
use crate::tab_header::{TabHeader, TabHeaderView};
use crate::tile::{Outbox, OutboxView, Tile, TileEffect};
use crate::tile_node::{Layout, SplitChildData, TileNode, Tree};
use crate::tree_layout::{lemma_configured, lemma_visibility_len};
use crate::tree_walk::lemma_wf_is_sane;
use crate::windows::lemma_bag_same_ids;

verus! {

/// The index of the first of the first `upto` presets that is a width.
pub open spec fn preset_position<N: Scalar>(
    presets: Seq<PresetSize<N>>,
    width: SectionWidth<N>,
    upto: int,
) -> Option<usize>
    decreases upto,
{
    if upto <= 0 {
        None
    } else {
        match preset_position(presets, width, upto - 1) {
            Some(i) => Some(i),
            None => if width.spec_same(SectionWidth::of_preset(presets[upto - 1])) {
                Some((upto - 1) as usize)
            } else {
                None
            },
        }
    }
}

/// Finds the first preset that is a width.
pub fn find_preset<N: Scalar>(presets: &Vec<PresetSize<N>>, width: SectionWidth<N>) -> (r: Option<
    usize,
>)
    ensures
        r == preset_position(presets@, width, presets@.len() as int),
{
    let mut found: Option<usize> = None;
    let mut i: usize = 0;
    while i < presets.len()
        invariant
            i <= presets.len(),
            found == preset_position(presets@, width, i as int),
        decreases presets.len() - i,
    {
        if found.is_none() && width.same(&SectionWidth::from_preset(presets[i])) {
            found = Some(i);
        }
        i = i + 1;
    }
    found
}

/// The look of the header that a new section with tabs gets.
pub open spec fn indicator_config<N>(layout: LayoutOptions<N>) -> TabHeaderConfig<N> {
    TabHeaderConfig { indicator: layout.tab_indicator, ..layout.tab_header }
}

/// The display mode that a window asks for, or else the configured one.
pub open spec fn display_for<N>(tile: Tile<N>, layout: LayoutOptions<N>) -> SectionDisplay {
    match tile.rules.default_section_display {
        Some(display) => display,
        None => layout.default_section_display,
    }
}

fn display_of<N: Scalar>(tile: &Tile<N>, layout: &LayoutOptions<N>) -> (r: SectionDisplay)
    ensures
        r == display_for(*tile, *layout),
{
    match tile.rules.default_section_display {
        Some(display) => display,
        None => layout.default_section_display,
    }
}

/// The place that a section is in: sizes of the view and of the areas in it.
#[derive(Clone, Copy, PartialEq, Eq, Debug)]
pub struct Place<N> {
    pub view_size: Size<N>,
    pub working_area: Rectangle<N>,
    pub parent_area: Rectangle<N>,
    pub scale: N,
}

impl<N: Scalar> SectionView<N> {
    /// The place that the section was last told of.
    pub open spec fn place(self) -> Place<N> {
        Place {
            view_size: self.props.view_size,
            working_area: self.props.working_area,
            parent_area: self.props.parent_area,
            scale: self.props.scale,
        }
    }
}

/// Whether other options change the sizes of tiles.
pub open spec fn resizing_options<N: Scalar>(a: Options<N>, b: Options<N>) -> bool {
    ||| !same_presets(a.preset_window_heights@, b.preset_window_heights@)
    ||| a.layout.main_axis != b.layout.main_axis
    ||| !a.layout.gaps.spec_same(b.layout.gaps)
    ||| a.layout.border.off != b.layout.border.off
    ||| !a.layout.border.width.spec_same(b.layout.border.width)
    ||| !a.layout.tab_indicator.spec_same(b.layout.tab_indicator)
}

fn options_resize<N: Scalar>(a: &Options<N>, b: &Options<N>) -> (r: bool)
    ensures
        r == resizing_options(*a, *b),
{
    !presets_are_same(&a.preset_window_heights, &b.preset_window_heights) || a.layout.main_axis
        != b.layout.main_axis || !a.layout.gaps.same(b.layout.gaps) || a.layout.border.off
        != b.layout.border.off || !a.layout.border.width.same(b.layout.border.width)
        || !a.layout.tab_indicator.same(&b.layout.tab_indicator)
}

/// The fading of those of the first `upto` tiles that are not shown as tabs.
pub open spec fn fade_effects<N: Scalar>(
    tiles: Seq<Tile<N>>,
    shown: Seq<bool>,
    display: SectionDisplay,
    upto: int,
) -> Seq<(u64, TileEffect<N>)>
    decreases upto,
{
    if upto <= 0 {
        Seq::empty()
    } else {
        let before = fade_effects(tiles, shown, display, upto - 1);
        if shown[upto - 1] {
            before
        } else {
            let to_tabbed = display == SectionDisplay::Tabbed;
            before.push(
                (
                    tiles[upto - 1].id,
                    TileEffect::AnimateAlpha {
                        from: num::<N>(
                            if to_tabbed {
                                1
                            } else {
                                0
                            },
                        ),
                        to: num::<N>(
                            if to_tabbed {
                                0
                            } else {
                                1
                            },
                        ),
                        kind: AnimationKind::WindowMovement,
                    },
                ),
            )
        }
    }
}

impl<N: Scalar> SectionView<N> {
    /// A section of one tile.
    pub open spec fn fresh(
        options: Options<N>,
        tile: Tile<N>,
        place: Place<N>,
        width: SectionWidth<N>,
        is_full_width: bool,
    ) -> Self {
        let axis = axis_of(options.layout);
        let tile = tile.configured(axis.spec_size(place.view_size), place.scale);
        let tabbed = display_for(tile, options.layout) == SectionDisplay::Tabbed;
        SectionView {
            root: Tree::Internal {
                layout: if tabbed {
                    Layout::Tabbed
                } else {
                    Layout::SplitV
                },
                children: seq![Tree::Leaf(tile)],
                active_idx: 0,
                data: seq![SplitChildData::spec_new_auto().spec_update(tile, axis)],
                header: if tabbed {
                    Some(TabHeaderView::fresh_indicator(indicator_config(options.layout)))
                } else {
                    None
                },
            },
            props: SectionProps {
                width,
                preset_width_idx: preset_position(
                    options.preset_section_widths@,
                    width,
                    options.preset_section_widths@.len() as int,
                ),
                is_full_width,
                is_pending_fullscreen: false,
                is_pending_maximized: false,
                move_animation: None,
                view_size: place.view_size,
                working_area: place.working_area,
                parent_area: place.parent_area,
                scale: place.scale,
                pending_split_direction: None,
            },
        }
    }

    /// The section with the header of its root appearing, where it has one.
    pub open spec fn header_opening(self, kind: AnimationKind) -> Self {
        match self.root.header() {
            Some(header) => self.with_root(self.root.with_header(Some(header.opening(kind)))),
            None => self,
        }
    }

    /// The section with another look of the header of its root, where it has one.
    pub open spec fn with_own_header(self, header: TabHeaderView<N>) -> Self {
        self.with_root(self.root.with_header(Some(header)))
    }

    pub open spec fn with_move(self, move_animation: Option<MoveAnimation<N>>) -> Self {
        SectionView { props: SectionProps { move_animation, ..self.props }, ..self }
    }

    /// The section moving from an offset on top of where it moves already.
    pub open spec fn moving_from(self, offset: N, kind: AnimationKind) -> Self {
        let current = match self.props.move_animation {
            Some(movement) => movement.from * movement.anim.value,
            None => num::<N>(0),
        };
        self.with_move(
            Some(
                MoveAnimation {
                    anim: Animation::spec_new(num::<N>(1), num::<N>(0), num::<N>(0), kind),
                    from: offset + current,
                },
            ),
        )
    }

    /// The section with its movement shifted, unless that is almost done.
    pub open spec fn with_shifted_move(self, offset: N) -> Self {
        match self.props.move_animation {
            Some(movement) => if num::<N>(1).spec_div(num::<N>(1000)) < movement.anim.value {
                self.with_move(
                    Some(
                        MoveAnimation {
                            from: movement.from + offset.spec_div(movement.anim.value),
                            ..movement
                        },
                    ),
                )
            } else {
                self
            },
            None => self,
        }
    }

    /// The section without animations that are done.
    pub open spec fn advanced(self) -> Self {
        let moved = match self.props.move_animation {
            Some(movement) if movement.anim.done => self.with_move(None),
            _ => self,
        };
        match moved.root.header() {
            Some(header) => moved.with_own_header(
                header.with_open_anim(unless_done(header.open_anim())),
            ),
            None => moved,
        }
    }

    /// Whether the header or the section itself is animated.
    pub open spec fn is_moving(self) -> bool {
        ||| self.props.move_animation is Some
        ||| self.root.header() matches Some(header) && header.open_anim() is Some
    }

    pub open spec fn are_animations_ongoing(self) -> bool {
        ||| self.is_moving()
        ||| exists|i: int|
            0 <= i < self.tiles().len() && (#[trigger] self.tiles()[i]).are_animations_ongoing
    }

    pub open spec fn are_transitions_ongoing(self) -> bool {
        ||| self.is_moving()
        ||| exists|i: int|
            0 <= i < self.tiles().len() && (#[trigger] self.tiles()[i]).are_transitions_ongoing
    }

    /// The section told of another place and of other options, before its tiles follow.
    pub open spec fn configured(self, old: Options<N>, new: Options<N>, place: Place<N>) -> Self {
        let base = if same_presets(old.preset_window_heights@, new.preset_window_heights@) {
            self
        } else {
            self.with_auto_heights()
        };
        SectionView {
            root: base.root.configured(
                axis_of(new.layout).spec_size(place.view_size),
                place.scale,
                new.layout.tab_header,
            ),
            props: SectionProps {
                preset_width_idx: if same_presets(
                    old.preset_section_widths@,
                    new.preset_section_widths@,
                ) {
                    self.props.preset_width_idx
                } else {
                    None
                },
                view_size: place.view_size,
                working_area: place.working_area,
                parent_area: place.parent_area,
                scale: place.scale,
                ..self.props
            },
        }
    }

    pub open spec fn is_in(self, place: Place<N>) -> bool {
        &&& self.props.view_size.spec_same(place.view_size)
        &&& self.props.working_area.spec_same(place.working_area)
        &&& self.props.parent_area.spec_same(place.parent_area)
    }

    /// Where the tile `i` moves from when the display mode changes.
    pub open spec fn display_move(
        self,
        layout: LayoutOptions<N>,
        display: SectionDisplay,
        i: int,
    ) -> Point<N> {
        let config = layout.tab_header;
        let shown = self.with_root(self.root.with_display(display, config));
        let normal = self.with_root(
            shown.root.with_display(SectionDisplay::Tabbed, config).with_display(
                SectionDisplay::Normal,
                config,
            ),
        );
        let prev_origin = self.tiles_origin(layout);
        let cross = normal.leaf_positions(layout)[i].y - prev_origin.y;
        (prev_origin - shown.tiles_origin(layout)) + cross_vec(
            if display == SectionDisplay::Normal {
                cross * num::<N>(-1)
            } else {
                cross
            },
        )
    }
}

impl<N: Scalar> Work<N> {
    /// A section made for a tile.
    #[verifier::opaque]
    pub open spec fn new_with_tile(
        out: OutboxView<N>,
        options: Options<N>,
        tile: Tile<N>,
        place: Place<N>,
        width: SectionWidth<N>,
        is_full_width: bool,
    ) -> Self {
        let made = work(
            SectionView::fresh(options, tile, place, width, is_full_width),
            out,
        ).sized(options, false);
        let made = match tile.pending_sizing_mode {
            SizingMode::Normal => made,
            SizingMode::Maximized => made.set_maximized(options, true),
            SizingMode::Fullscreen => made.set_fullscreen(options, true),
        };
        if display_for(tile, options.layout) == SectionDisplay::Tabbed
            && !options.layout.tab_indicator.hide_when_single_tab && made.section.sizing_mode()
            == SizingMode::Normal {
            made.with_section(made.section.header_opening(AnimationKind::WindowMovement))
        } else {
            made
        }
    }

    #[verifier::opaque]
    pub open spec fn update_config(self, old: Options<N>, new: Options<N>, place: Place<N>) -> Self {
        let told = self.with_section(self.section.configured(old, new, place));
        if resizing_options(old, new) || !self.section.is_in(place) {
            told.sized(new, false)
        } else {
            told
        }
    }

    pub open spec fn update_shaders(self) -> Self {
        let asked = Work {
            out: self.out.push_all(self.section.tiles(), TileEffect::UpdateShaders),
            ..self
        };
        match self.section.root.header() {
            Some(header) => asked.with_section(
                self.section.with_own_header(header.with_stale_shaders()),
            ),
            None => asked,
        }
    }

    /// Another display mode: the tiles move and fade from how they were shown.
    #[verifier::opaque]
    pub open spec fn set_section_display(
        self,
        options: Options<N>,
        display: SectionDisplay,
    ) -> Self {
        let section = self.section;
        let layout = options.layout;
        if section.root.display_mode() == display {
            self
        } else {
            let shown = section.root.with_display(display, layout.tab_header);
            let tabbed = shown.with_display(SectionDisplay::Tabbed, layout.tab_header);
            let normal = tabbed.with_display(SectionDisplay::Normal, layout.tab_header);
            let tiles = section.tiles();
            let effects = tile_effects(
                tiles,
                |i: int|
                    TileEffect::AnimateMoveFrom { delta: section.display_move(layout, display, i) },
            ) + fade_effects(tiles, tabbed.visibility(true), display, tiles.len() as int);
            let changed = section.with_root(
                normal.with_display(display, layout.tab_header).normalized(),
            );
            self.with_section(
                if display == SectionDisplay::Tabbed {
                    changed.header_opening(AnimationKind::WindowMovement)
                } else {
                    changed
                },
            ).push_seq(effects).sized(options, true)
        }
    }

    pub open spec fn start_open_animation(self, window: u64) -> Self {
        match self.section.position(window) {
            Some(_) => {
                let started = self.push(window, TileEffect::StartOpenAnimation);
                if self.section.root.is_tabbed() && self.section.sizing_mode()
                    == SizingMode::Normal && self.section.tiles().len() == 1
                    && !self.section.root.header()->0.config.indicator.hide_when_single_tab {
                    started.with_section(
                        self.section.header_opening(AnimationKind::WindowOpen),
                    )
                } else {
                    started
                }
            },
            None => self,
        }
    }
}

/// Another header changes no tile.
pub proof fn lemma_header_only<N: Scalar>(tree: Tree<N>, header: Option<TabHeaderView<N>>)
    requires
        tree.wf(),
        tree.is_tabbed() ==> header is Some,
    ensures
        tree.with_header(header).wf(),
        tree.with_header(header).leaves() == tree.leaves(),
        tree.with_header(header).leaf_paths() == tree.leaf_paths(),
        tree is Internal <==> tree.with_header(header) is Internal,
        tree.with_header(header).active_path() == tree.active_path(),
{
}

/// Another layout of the root changes no tile.
pub proof fn lemma_layout_only<N: Scalar>(
    tree: Tree<N>,
    layout: Layout,
    config: TabHeaderConfig<N>,
)
    requires
        tree.wf(),
    ensures
        tree.with_layout(layout, config).wf(),
        tree.with_layout(layout, config).leaves() == tree.leaves(),
        tree.with_layout(layout, config).leaf_paths() == tree.leaf_paths(),
        tree is Internal <==> tree.with_layout(layout, config) is Internal,
        tree.with_layout(layout, config).active_path() == tree.active_path(),
{
}

/// Another display mode changes no tile.
pub proof fn lemma_display_only<N: Scalar>(
    tree: Tree<N>,
    display: SectionDisplay,
    config: TabHeaderConfig<N>,
)
    requires
        tree.wf(),
    ensures
        tree.with_display(display, config).wf(),
        tree.with_display(display, config).leaves() == tree.leaves(),
        tree.with_display(display, config).leaf_paths() == tree.leaf_paths(),
        tree is Internal <==> tree.with_display(display, config) is Internal,
        tree.with_display(display, config).active_path() == tree.active_path(),
{
    if let Tree::Internal { layout, .. } = tree {
        lemma_layout_only(tree, Layout::Tabbed, config);
        lemma_layout_only(tree, layout.spec_split_of_family(), config);
    }
}

/// A new section is in order.
pub proof fn lemma_fresh<N: Scalar>(
    options: Options<N>,
    tile: Tile<N>,
    place: Place<N>,
    width: SectionWidth<N>,
    is_full_width: bool,
)
    ensures
        SectionView::fresh(options, tile, place, width, is_full_width).wf(),
        SectionView::fresh(options, tile, place, width, is_full_width).tiles() == seq![
            tile.configured(axis_of(options.layout).spec_size(place.view_size), place.scale),
        ],
{
    let section = SectionView::fresh(options, tile, place, width, is_full_width);
    let children = section.root->children;
    assert(Tree::forest_leaves(children, 0) =~= Seq::empty());
    assert(children[0].wf());
    assert(children[0].leaves().len() == 1);
    assert(Tree::forest_leaves(children, 1) =~= children[0].leaves());
}

impl<N: Scalar> Section<N> {
    #[verifier::spinoff_prover]
    fn fresh(
        options: &Options<N>,
        tile: Tile<N>,
        place: Place<N>,
        width: SectionWidth<N>,
        is_full_width: bool,
    ) -> (r: Self)
        ensures
            r@ == SectionView::fresh(*options, tile, place, width, is_full_width),
            r@.wf(),
            r@.place() == place,
            r@.tiles() == seq![
                tile.configured(axis_of(options.layout).spec_size(place.view_size), place.scale),
            ],
            !r@.props.is_pending_fullscreen,
            !r@.props.is_pending_maximized,
    {
        let layout = options.layout;
        let axis = AxisMap::new(layout.main_axis);
        let is_tabbed = matches!(display_of(&tile, &layout), SectionDisplay::Tabbed);
        let ghost given = tile;
        let mut tile = tile;
        tile.view_size = axis.size_out(place.view_size);
        tile.scale = place.scale;
        let mut slot = SplitChildData::new_auto();
        slot.update(&tile, axis);
        let mut children: Vec<TileNode<N>> = Vec::new();
        children.push(TileNode::Leaf(tile));
        let mut data: Vec<SplitChildData<N>> = Vec::new();
        data.push(slot);
        let root = if is_tabbed {
            let config = TabHeaderConfig { indicator: layout.tab_indicator, ..layout.tab_header };
            TileNode::internal(
                Layout::Tabbed,
                children,
                0,
                data,
                Some(TabHeader::new_indicator(config)),
            )
        } else {
            TileNode::internal(Layout::SplitV, children, 0, data, None)
        };
        let section = Section {
            root,
            props: SectionProps {
                width,
                preset_width_idx: find_preset(&options.preset_section_widths, width),
                is_full_width,
                is_pending_fullscreen: false,
                is_pending_maximized: false,
                move_animation: None,
                view_size: place.view_size,
                working_area: place.working_area,
                parent_area: place.parent_area,
                scale: place.scale,
                pending_split_direction: None,
            },
        };
        let ghost fresh = SectionView::fresh(*options, given, place, width, is_full_width);
        proof {
            lemma_fresh(*options, given, place, width, is_full_width);
            assert(section@.root->children =~= fresh.root->children);
            assert(section@.root->data =~= fresh.root->data);
            assert(section@ == fresh);
        }
        section
    }

    /// Makes a section for a tile.
    ///
    /// A width that is one of the presets counts as that preset, so that switching to the next
    /// preset goes on from it, whatever width the window chose for itself.
    #[verifier::spinoff_prover]
    pub fn new_with_tile(
        options: &Options<N>,
        tile: Tile<N>,
        place: Place<N>,
        width: SectionWidth<N>,
        is_full_width: bool,
        out: &mut Outbox<N>,
    ) -> (r: Self)
        ensures
            work(r@, final(out)@) == Work::new_with_tile(
                old(out)@,
                *options,
                tile,
                place,
                width,
                is_full_width,
            ),
            r@.wf(),
            r@.place() == place,
            r@.tiles() == seq![
                tile.configured(axis_of(options.layout).spec_size(place.view_size), place.scale),
            ],
    {
        reveal(Work::new_with_tile);
        let layout = options.layout;
        let is_tabbed = matches!(display_of(&tile, &layout), SectionDisplay::Tabbed);
        let pending = tile.pending_sizing_mode;
        let mut section = Self::fresh(options, tile, place, width, is_full_width);
        proof {
            lemma_with_sizes(section@, *options);
        }
        section.update_tile_sizes(options, false, out);
        let ghost made = section@;
        match pending {
            SizingMode::Normal => {},
            SizingMode::Maximized => {
                proof {
                    lemma_with_sizes(
                        SectionView {
                            props: SectionProps { is_pending_maximized: true, ..made.props },
                            ..made
                        },
                        *options,
                    );
                }
                section.set_maximized(options, true, out);
            },
            SizingMode::Fullscreen => {
                proof {
                    lemma_with_sizes(
                        SectionView {
                            props: SectionProps { is_pending_fullscreen: true, ..made.props },
                            ..made
                        },
                        *options,
                    );
                }
                section.set_fullscreen(options, true, out);
            },
        }
        if is_tabbed && !layout.tab_indicator.hide_when_single_tab
            && section.sizing_mode().is_normal() {
            section.open_header(AnimationKind::WindowMovement);
        }
        section
    }

    /// Lets the header of the root appear, where there is one.
    pub fn open_header(&mut self, kind: AnimationKind)
        requires
            old(self)@.wf(),
        ensures
            final(self)@ == old(self)@.header_opening(kind),
            final(self)@.wf(),
            final(self)@.place() == old(self)@.place(),
            final(self)@.tiles() == old(self)@.tiles(),
            final(self)@.root.leaf_paths() == old(self)@.root.leaf_paths(),
    {
        let ghost before = self@;
        if let Some(header) = self.root.take_header() {
            let mut header = header;
            proof {
                lemma_header_only(before.root, Some(header@.opening(kind)));
            }
            header.start_open_animation(kind);
            self.root.set_header(Some(header));
        } else {
            assert(self@.root == before.root);
        }
    }

    /// Tells the section and its tiles of another place and of other options.
    #[verifier::spinoff_prover]
    pub fn update_config(
        &mut self,
        old_options: &Options<N>,
        options: &Options<N>,
        place: Place<N>,
        out: &mut Outbox<N>,
    )
        requires
            old(self)@.wf(),
        ensures
            work(final(self)@, final(out)@) == work(old(self)@, old(out)@).update_config(
                *old_options,
                *options,
                place,
            ),
            final(self)@.wf(),
            final(self)@.place() == place,
            final(self)@.tiles().len() == old(self)@.tiles().len(),
            final(self)@.windows() == old(self)@.windows(),
    {
        reveal(Work::update_config);
        let ghost before = self@;
        let stays = self.props.view_size.same(place.view_size) && self.props.working_area.same(
            place.working_area,
        ) && self.props.parent_area.same(place.parent_area);
        if !presets_are_same(&old_options.preset_section_widths, &options.preset_section_widths) {
            self.props.preset_width_idx = None;
        }
        proof {
            lemma_auto_heights(before);
            lemma_auto_heights(self@);
        }
        if !presets_are_same(&old_options.preset_window_heights, &options.preset_window_heights) {
            self.convert_heights_to_auto();
        }
        let tile_view_size = AxisMap::new(options.layout.main_axis).size_out(place.view_size);
        proof {
            lemma_configured(self@.root, tile_view_size, place.scale, options.layout.tab_header);
        }
        self.root.update_config(tile_view_size, place.scale, options.layout.tab_header);
        self.props.view_size = place.view_size;
        self.props.working_area = place.working_area;
        self.props.parent_area = place.parent_area;
        self.props.scale = place.scale;
        assert(self@ == before.configured(*old_options, *options, place));
        proof {
            lemma_bag_same_ids(self@.tiles(), before.tiles());
        }
        if options_resize(old_options, options) || !stays {
            proof {
                lemma_with_sizes(self@, *options);
            }
            self.update_tile_sizes(options, false, out);
        }
    }

    #[verifier::spinoff_prover]
    pub fn update_shaders(&mut self, out: &mut Outbox<N>)
        requires
            old(self)@.wf(),
        ensures
            work(final(self)@, final(out)@) == work(old(self)@, old(out)@).update_shaders(),
            final(self)@.wf(),
            final(self)@.place() == old(self)@.place(),
            final(self)@.tiles() == old(self)@.tiles(),
    {
        let ghost before = self@;
        let tiles = self.tiles();
        out.push_all(&tiles, TileEffect::UpdateShaders);
        if let Some(header) = self.root.take_header() {
            let mut header = header;
            proof {
                lemma_header_only(before.root, Some(header@.with_stale_shaders()));
            }
            header.update_shaders();
            self.root.set_header(Some(header));
        } else {
            assert(self@.root == before.root);
        }
    }

    /// Drops animations that are done.
    #[verifier::spinoff_prover]
    pub fn advance_animations(&mut self)
        requires
            old(self)@.wf(),
        ensures
            final(self)@ == old(self)@.advanced(),
            final(self)@.wf(),
            final(self)@.place() == old(self)@.place(),
            final(self)@.tiles() == old(self)@.tiles(),
    {
        let ghost before = self@;
        let done = match self.props.move_animation {
            Some(movement) => movement.anim.is_done(),
            None => false,
        };
        if done {
            self.props.move_animation = None;
        }
        if let Some(header) = self.root.take_header() {
            let mut header = header;
            proof {
                lemma_header_only(
                    before.root,
                    Some(header@.with_open_anim(unless_done(header@.open_anim()))),
                );
            }
            header.advance_animations();
            self.root.set_header(Some(header));
        } else {
            assert(self@.root == before.root);
        }
    }

    /// Takes over how far the movement of the section has come.
    #[verifier::spinoff_prover]
    pub fn sample_move_animation(&mut self, value: N, done: bool)
        requires
            old(self)@.wf(),
        ensures
            final(self)@ == match old(self)@.props.move_animation {
                Some(movement) => old(self)@.with_move(
                    Some(
                        MoveAnimation {
                            anim: Animation { value, done, ..movement.anim },
                            ..movement
                        },
                    ),
                ),
                None => old(self)@,
            },
            final(self)@.wf(),
            final(self)@.place() == old(self)@.place(),
    {
        if let Some(movement) = self.props.move_animation {
            let mut movement = movement;
            movement.anim.sample(value, done);
            self.props.move_animation = Some(movement);
        }
    }

    fn is_moving(&self) -> (r: bool)
        ensures
            r == self@.is_moving(),
    {
        if self.props.move_animation.is_some() {
            return true;
        }
        match self.root.tab_header() {
            Some(header) => header.are_animations_ongoing(),
            None => false,
        }
    }

    #[verifier::spinoff_prover]
    pub fn are_animations_ongoing(&self) -> (r: bool)
        ensures
            r == self@.are_animations_ongoing(),
    {
        if self.is_moving() {
            return true;
        }
        let tiles = self.tiles();
        let mut i: usize = 0;
        while i < tiles.len()
            invariant
                i <= tiles.len(),
                tiles@ == self@.tiles(),
                !self@.is_moving(),
                forall|j: int| 0 <= j < i ==> !(#[trigger] tiles@[j]).are_animations_ongoing,
            decreases tiles.len() - i,
        {
            if tiles[i].are_animations_ongoing {
                assert(self@.tiles()[i as int].are_animations_ongoing);
                return true;
            }
            i = i + 1;
        }
        false
    }

    #[verifier::spinoff_prover]
    pub fn are_transitions_ongoing(&self) -> (r: bool)
        ensures
            r == self@.are_transitions_ongoing(),
    {
        if self.is_moving() {
            return true;
        }
        let tiles = self.tiles();
        let mut i: usize = 0;
        while i < tiles.len()
            invariant
                i <= tiles.len(),
                tiles@ == self@.tiles(),
                !self@.is_moving(),
                forall|j: int| 0 <= j < i ==> !(#[trigger] tiles@[j]).are_transitions_ongoing,
            decreases tiles.len() - i,
        {
            if tiles[i].are_transitions_ongoing {
                assert(self@.tiles()[i as int].are_transitions_ongoing);
                return true;
            }
            i = i + 1;
        }
        false
    }

    pub fn animate_move_from(&mut self, from_x_offset: N)
        requires
            old(self)@.wf(),
        ensures
            final(self)@ == old(self)@.moving_from(from_x_offset, AnimationKind::WindowMovement),
            final(self)@.wf(),
            final(self)@.place() == old(self)@.place(),
    {
        self.animate_move_from_with_config(from_x_offset, AnimationKind::WindowMovement);
    }

    /// Moves the section from an offset to where it is, on top of a movement that is under way.
    pub fn animate_move_from_with_config(&mut self, from_x_offset: N, kind: AnimationKind)
        requires
            old(self)@.wf(),
        ensures
            final(self)@ == old(self)@.moving_from(from_x_offset, kind),
            final(self)@.wf(),
            final(self)@.place() == old(self)@.place(),
    {
        let current = match self.props.move_animation {
            Some(movement) => movement.from.mul(movement.anim.value()),
            None => N::of_int(0),
        };
        let anim = Animation::new(N::of_int(1), N::of_int(0), N::of_int(0), kind);
        self.props.move_animation = Some(MoveAnimation { anim, from: from_x_offset.add(current) });
    }

    /// Shifts a movement that is under way, so that the section does not seem to jump when its
    /// place changes. One that is almost done is left alone.
    pub fn offset_move_anim_current(&mut self, offset: N)
        requires
            old(self)@.wf(),
        ensures
            final(self)@ == old(self)@.with_shifted_move(offset),
            final(self)@.wf(),
            final(self)@.place() == old(self)@.place(),
    {
        if let Some(movement) = self.props.move_animation {
            let value = movement.anim.value();
            if N::of_int(1).div(N::of_int(1000)).lt(value) {
                self.props.move_animation = Some(
                    MoveAnimation { from: movement.from.add(offset.div(value)), ..movement },
                );
            }
        }
    }

    /// Shows the windows all at once or as tabs. The tiles move and fade from how they were
    /// shown.
    #[verifier::spinoff_prover]
    pub fn set_section_display(
        &mut self,
        options: &Options<N>,
        display: SectionDisplay,
        out: &mut Outbox<N>,
    )
        requires
            old(self)@.wf(),
        ensures
            work(final(self)@, final(out)@) == work(old(self)@, old(out)@).set_section_display(
                *options,
                display,
            ),
            final(self)@.wf(),
            final(self)@.place() == old(self)@.place(),
            final(self)@.tiles() == old(self)@.tiles(),
    {
        reveal(Work::set_section_display);
        if self.root.display_mode() == display {
            return;
        }
        let ghost before = self@;
        let ghost out_before = out@;
        let config = options.layout.tab_header;
        let ghost shown_root = before.root.with_display(display, config);
        let ghost tabbed_root = shown_root.with_display(SectionDisplay::Tabbed, config);
        let ghost normal_root = tabbed_root.with_display(SectionDisplay::Normal, config);
        proof {
            lemma_display_only(before.root, display, config);
            lemma_display_only(shown_root, SectionDisplay::Tabbed, config);
            lemma_display_only(tabbed_root, SectionDisplay::Normal, config);
            lemma_display_only(normal_root, display, config);
            lemma_visibility_len(tabbed_root, true);
            lemma_section_tiles(before, options.layout);
        }
        let prev_origin = self.tiles_origin(&options.layout);
        self.root.set_display(display, config);
        let new_origin = self.tiles_origin(&options.layout);
        let origin_delta = prev_origin.sub(new_origin);
        self.root.set_display(SectionDisplay::Tabbed, config);
        let shown = self.root.leaf_visibility();
        self.root.set_display(SectionDisplay::Normal, config);
        let positions = self.leaf_positions(&options.layout);
        let tiles = self.tiles();
        let ghost move_of = |i: int|
            TileEffect::AnimateMoveFrom {
                delta: before.display_move(options.layout, display, i),
            };
        let ghost moves = tile_effects(tiles@, move_of);
        let mut i: usize = 0;
        assert(out_before.effects + moves.take(0) =~= out_before.effects);
        while i < tiles.len()
            invariant
                i <= tiles.len(),
                positions.len() == tiles.len(),
                moves.len() == tiles.len(),
                moves == tile_effects(tiles@, move_of),
                forall|j: int|
                    0 <= j < positions.len() ==> #[trigger] move_of(j) == (
                    TileEffect::AnimateMoveFrom {
                        delta: origin_delta + cross_vec(
                            if display == SectionDisplay::Normal {
                                (positions@[j].y - prev_origin.y) * num::<N>(-1)
                            } else {
                                positions@[j].y - prev_origin.y
                            },
                        ),
                    }),
                out@.effects == out_before.effects + moves.take(i as int),
                out@.transactions == out_before.transactions,
            decreases tiles.len() - i,
        {
            let mut cross_delta = positions[i].y.sub(prev_origin.y);
            if matches!(display, SectionDisplay::Normal) {
                cross_delta = cross_delta.mul(N::of_int(-1));
            }
            let delta = origin_delta.add(cross_space_vec(cross_delta));
            out.push(tiles[i].id, TileEffect::AnimateMoveFrom { delta });
            assert(moves[i as int] == (tiles@[i as int].id, move_of(i as int)));
            assert(out@.effects =~= out_before.effects + moves.take(i + 1));
            i = i + 1;
        }
        assert(moves.take(i as int) =~= moves);
        let ghost moved = out@;
        i = 0;
        assert(moved.effects + fade_effects(tiles@, shown@, display, 0) =~= moved.effects);
        while i < tiles.len()
            invariant
                i <= tiles.len(),
                shown.len() == tiles.len(),
                out@.effects == moved.effects + fade_effects(tiles@, shown@, display, i as int),
                out@.transactions == moved.transactions,
            decreases tiles.len() - i,
        {
            if !shown[i] {
                let (from, to): (i64, i64) = if matches!(display, SectionDisplay::Tabbed) {
                    (1, 0)
                } else {
                    (0, 1)
                };
                out.push(
                    tiles[i].id,
                    TileEffect::AnimateAlpha {
                        from: N::of_int(from),
                        to: N::of_int(to),
                        kind: AnimationKind::WindowMovement,
                    },
                );
            }
            assert(out@.effects =~= moved.effects + fade_effects(
                tiles@,
                shown@,
                display,
                i as int + 1,
            ));
            i = i + 1;
        }
        self.root.set_display(display, config);
        proof {
            lemma_wf_is_sane(self@.root);
        }
        self.normalize();
        if matches!(display, SectionDisplay::Tabbed) {
            self.open_header(AnimationKind::WindowMovement);
        }
        assert(out@.effects =~= out_before.effects + (moves + fade_effects(
            tiles@,
            shown@,
            display,
            tiles@.len() as int,
        )));
        self.update_tile_sizes(options, true, out);
    }

    /// Lets a window appear. Tells whether it is in this section.
    #[verifier::spinoff_prover]
    pub fn start_open_animation(&mut self, window: u64, out: &mut Outbox<N>) -> (r: bool)
        requires
            old(self)@.wf(),
        ensures
            work(final(self)@, final(out)@) == work(old(self)@, old(out)@).start_open_animation(
                window,
            ),
            r == old(self)@.contains(window),
            final(self)@.wf(),
            final(self)@.place() == old(self)@.place(),
            final(self)@.tiles() == old(self)@.tiles(),
    {
        if self.position(window).is_none() {
            return false;
        }
        out.push(window, TileEffect::StartOpenAnimation);
        let hide = match self.root.tab_header() {
            Some(header) => header.hide_when_single_tab(),
            None => true,
        };
        if self.is_tabbed() && self.sizing_mode().is_normal() && self.tiles_len() == 1 && !hide {
            self.open_header(AnimationKind::WindowOpen);
        }
        true
    }
}

/// The resize that goes on once the resize of windows of a section was called off.
pub open spec fn resize_without<N: Scalar>(
    resize: Option<InteractiveResize<N>>,
    section: SectionView<N>,
) -> Option<InteractiveResize<N>> {
    match resize {
        Some(resize) if section.contains(resize.window) => None,
        _ => resize,
    }
}

/// Calls off a resize of any window of a section.
pub fn cancel_resize_for_section<N: Scalar>(
    interactive_resize: &mut Option<InteractiveResize<N>>,
    section: &Section<N>,
    out: &mut Outbox<N>,
)
    ensures
        *final(interactive_resize) == resize_without(*old(interactive_resize), section@),
        final(out)@ == old(out)@.push_all(
            section@.tiles(),
            TileEffect::CancelInteractiveResize,
        ),
{
    let concerned = match interactive_resize {
        Some(resize) => section.contains(resize.window),
        None => false,
    };
    if concerned {
        *interactive_resize = None;
    }
    let tiles = section.tiles();
    out.push_all(&tiles, TileEffect::CancelInteractiveResize);
}

} // verus!
