//! A space of sections: what is where, what has focus, and where the view stands.
#![allow(dead_code)]
use scrolling_layout::axis::MainAxis;
use scrolling_layout::config::{
    Border, CenterFocusedSection, ConfigureIntent, LayoutOptions, Options, PresetSize,
    SectionDisplay, SectionWidth, SizingMode, Struts, TabHeaderConfig, TabIndicatorConfig,
    TabIndicatorPosition, TabStyle, TilingDrag, WholeSize, WindowRules,
};
use scrolling_layout::geometry::{Point, Rectangle, Size};
use scrolling_layout::insert_hint::Color;
use scrolling_layout::scalar::Scalar;
use scrolling_layout::space::ScrollingSpace;
use scrolling_layout::tab_bar::{TabBarConfig, TabBarPosition};
use scrolling_layout::tile::Tile;
use scrolling_layout::animation::{Animation, AnimationKind};
use scrolling_layout::axis::ResizeEdge;
use scrolling_layout::config::{InsertPosition, ScrollDirection, SizeChange, SplitAxis};
use scrolling_layout::tile::TileEffect;
use scrolling_layout::tile_node::ChildSpan;
use scrolling_layout::view_offset::{SwipeTracker, ViewOffset};
use scrolling_layout::space_draw::DrawItem;
use scrolling_layout::space_gesture::DndScroll;
use scrolling_layout::space_hit::{pick_hit, HitCandidate};

/// Logical pixels as floating-point numbers.
#[derive(Clone, Copy, PartialEq, Debug)]
struct Float(f64);

impl Scalar for Float {
    fn of_int(value: i64) -> Self {
        Float(value as f64)
    }

    fn of_usize(value: usize) -> Self {
        Float(value as f64)
    }

    fn largest() -> Self {
        Float(f64::MAX)
    }

    fn smallest() -> Self {
        Float(f64::MIN)
    }

    fn add(self, rhs: Self) -> Self {
        Float(self.0 + rhs.0)
    }

    fn sub(self, rhs: Self) -> Self {
        Float(self.0 - rhs.0)
    }

    fn mul(self, rhs: Self) -> Self {
        Float(self.0 * rhs.0)
    }

    fn div(self, rhs: Self) -> Self {
        Float(self.0 / rhs.0)
    }

    fn neg(self) -> Self {
        Float(-self.0)
    }

    fn abs(self) -> Self {
        Float(self.0.abs())
    }

    fn min(self, rhs: Self) -> Self {
        Float(self.0.min(rhs.0))
    }

    fn max(self, rhs: Self) -> Self {
        Float(self.0.max(rhs.0))
    }

    fn lt(self, rhs: Self) -> bool {
        self.0 < rhs.0
    }

    fn le(self, rhs: Self) -> bool {
        self.0 <= rhs.0
    }

    fn same(self, rhs: Self) -> bool {
        self.0 == rhs.0
    }

    fn round(self) -> Self {
        Float(self.0.round())
    }

    fn floor(self) -> Self {
        Float(self.0.floor())
    }

    fn ceil(self) -> Self {
        Float(self.0.ceil())
    }

    fn is_finite(self) -> bool {
        self.0.is_finite()
    }

    fn to_i32(self) -> i32 {
        self.0 as i32
    }
}

const BLACK: Color<Float> = Color { r: Float(0.), g: Float(0.), b: Float(0.), a: Float(1.) };

fn options() -> Options<Float> {
    let indicator = TabIndicatorConfig {
        off: false,
        hide_when_single_tab: false,
        place_within_section: true,
        gap: Float(4.),
        width: Float(6.),
        position: TabIndicatorPosition::Left,
    };
    let bar = TabBarConfig {
        off: false,
        height: Float(20.),
        position: TabBarPosition::Top,
        gaps_between_tabs: Float(0.),
        active_color: None,
        inactive_color: None,
        text_color: BLACK,
        active_text_color: None,
        inactive_text_color: None,
    };
    Options {
        layout: LayoutOptions {
            main_axis: MainAxis::Horizontal,
            gaps: Float(10.),
            struts: Struts {
                left: Float(0.),
                right: Float(0.),
                top: Float(0.),
                bottom: Float(0.),
            },
            border: Border { off: true, width: Float(4.) },
            center_focused_section: CenterFocusedSection::Never,
            always_center_single_section: false,
            default_section_display: SectionDisplay::Normal,
            tab_indicator: indicator,
            tab_header: TabHeaderConfig { style: TabStyle::Indicator, indicator, bar },
            tiling_drag: TilingDrag::InPlace,
            dnd_scroll_delay: 100_000_000,
            dnd_scroll_max_speed: Float(1000.),
            disable_transactions: false,
            disable_resize_throttling: false,
            deactivate_unfocused_windows: false,
        },
        preset_section_widths: vec![PresetSize::Proportion(Float(0.5)), PresetSize::Fixed(300)],
        preset_window_heights: vec![PresetSize::Fixed(200), PresetSize::Fixed(500)],
    }
}

fn size(w: f64, h: f64) -> Size<Float> {
    Size { w: Float(w), h: Float(h) }
}

fn point(x: f64, y: f64) -> Point<Float> {
    Point { x: Float(x), y: Float(y) }
}

fn rect(x: f64, y: f64, w: f64, h: f64) -> Rectangle<Float> {
    Rectangle { loc: point(x, y), size: size(w, h) }
}

/// A tile without decorations around a window of some size.
fn tile(id: u64, w: f64, h: f64) -> Tile<Float> {
    Tile {
        id,
        tile_size: size(w, h),
        animated_tile_size: size(w, h),
        window_size: size(w, h),
        window_loc: point(0., 0.),
        requested_size: Some(size(w, h)),
        window_expected_size: size(w, h),
        tile_expected_size: size(w, h),
        min_size_nonfullscreen: size(0., 0.),
        max_size_nonfullscreen: size(0., 0.),
        window_min_size: WholeSize { w: 0, h: 0 },
        window_max_size: WholeSize { w: 0, h: 0 },
        border: None,
        sizing_mode: SizingMode::Normal,
        pending_sizing_mode: SizingMode::Normal,
        interactive_resize: None,
        configure_intent: ConfigureIntent::NotNeeded,
        rules: WindowRules {
            border: Border { off: true, width: Float(4.) },
            default_section_display: None,
        },
        is_urgent: false,
        has_resize_animation: false,
        has_alpha_animation: false,
        are_animations_ongoing: false,
        are_transitions_ongoing: false,
        render_offset: point(0., 0.),
        view_size: size(1280., 720.),
        scale: Float(1.),
    }
}

fn space_with(options: Options<Float>) -> ScrollingSpace<Float> {
    ScrollingSpace::new(
        size(1280., 720.),
        rect(0., 0., 1280., 720.),
        Float(1.),
        options,
    )
}

/// A space with a section of its own for each window.
fn space_of(windows: &[u64]) -> ScrollingSpace<Float> {
    let mut space = space_with(options());
    for window in windows {
        add(&mut space, *window);
    }
    space
}

fn add(space: &mut ScrollingSpace<Float>, window: u64) {
    space.add_tile(
        None,
        tile(window, 400., 700.),
        true,
        SectionWidth::Fixed(Float(400.)),
        false,
        None,
    );
}

fn windows(space: &ScrollingSpace<Float>) -> Vec<u64> {
    space.tiles().iter().map(|tile| tile.id).collect()
}

fn section_windows(space: &ScrollingSpace<Float>, idx: usize) -> Vec<u64> {
    space.sections()[idx].tiles().iter().map(|tile| tile.id).collect()
}

fn view_animation(from: f64, to: f64) -> ViewOffset<Float> {
    ViewOffset::Animation(Animation {
        from: Float(from),
        to: Float(to),
        initial_velocity: Float(0.),
        kind: AnimationKind::HorizontalViewMovement,
        value: Float(from),
        done: false,
    })
}

fn swipe(pos: f64) -> SwipeTracker<Float> {
    SwipeTracker { pos: Float(pos), velocity: Float(0.), projected_end_pos: Float(pos) }
}

#[test]
fn sections_stand_side_by_side() {
    let space = space_of(&[1, 2, 3]);
    assert_eq!(windows(&space), vec![1, 2, 3]);
    assert_eq!(
        space.section_main_positions(),
        vec![Float(0.), Float(410.), Float(820.), Float(1230.)]
    );
    assert_eq!(space.active_section_idx(), 2);
    assert_eq!(space.active_window(), Some(3));
    assert!(space.verify_invariants());
}

#[test]
fn sections_stand_along_a_vertical_main_axis() {
    let mut options = options();
    options.layout.main_axis = MainAxis::Vertical;
    let mut space = space_with(options);
    for window in [1, 2] {
        space.add_tile(
            None,
            tile(window, 1260., 300.),
            true,
            SectionWidth::Fixed(Float(300.)),
            false,
            None,
        );
    }
    assert_eq!(space.view_size(), size(720., 1280.));
    assert_eq!(space.parent_area(), rect(0., 0., 720., 1280.));
    assert_eq!(
        space.section_main_positions(),
        vec![Float(0.), Float(310.), Float(620.)]
    );
    let placed = space.tiles_with_render_positions();
    assert_eq!(placed[0].0.id, 2);
    assert_eq!(placed[0].1, point(10., 320.));
    assert_eq!(placed[1].1, point(10., 10.));
}

#[test]
fn first_window_asks_for_its_size() {
    let mut space = space_of(&[1]);
    let effects = space.take_effects();
    assert_eq!(
        effects[0],
        (
            1,
            TileEffect::RequestTileSize {
                size: size(400., 700.),
                animate: false,
                transaction: Some(1),
            }
        )
    );
    assert!(space.take_effects().is_empty());
}

#[test]
fn view_follows_new_sections() {
    let mut space = space_of(&[1]);
    assert_eq!(space.view_offset(), ViewOffset::Static(Float(-10.)));
    add(&mut space, 2);
    add(&mut space, 3);
    assert_eq!(space.view_offset(), ViewOffset::Static(Float(-830.)));
    assert_eq!(space.view_pos(), Float(-10.));

    add(&mut space, 4);
    assert_eq!(space.view_offset(), view_animation(-1240., -870.));
    assert_eq!(space.view_pos(), Float(-10.));
    assert_eq!(space.target_view_pos(), Float(360.));
    assert!(space.are_animations_ongoing());
    assert!(space.are_transitions_ongoing());

    space.sample_view_offset(Float(-870.), true);
    space.advance_animations(0);
    assert_eq!(space.view_offset(), ViewOffset::Static(Float(-870.)));
}

#[test]
fn removing_a_new_section_goes_back() {
    let mut space = space_of(&[1, 2, 3]);
    space.focus_section(1);
    assert_eq!(space.active_window(), Some(1));
    let before = space.target_view_pos();

    add(&mut space, 4);
    assert_eq!(windows(&space), vec![1, 4, 2, 3]);
    assert_eq!(space.active_section_idx(), 1);

    let removed = space.remove_active_tile(0).unwrap();
    assert_eq!(removed.tile.id, 4);
    assert_eq!(removed.width, SectionWidth::Fixed(Float(400.)));
    assert_eq!(windows(&space), vec![1, 2, 3]);
    assert_eq!(space.active_section_idx(), 0);
    assert_eq!(space.target_view_pos(), before);
}

#[test]
fn removing_an_older_section_activates_the_next() {
    let mut space = space_of(&[1, 2, 3]);
    space.focus_section(2);
    assert_eq!(space.remove_tile(2, 0).tile.id, 2);
    assert_eq!(windows(&space), vec![1, 3]);
    assert_eq!(space.active_window(), Some(3));
}

#[test]
fn removing_the_last_window_empties_the_space() {
    let mut space = space_of(&[1]);
    assert!(space.remove_active_section().is_some());
    assert!(space.is_empty());
    assert_eq!(space.active_window(), None);
    assert!(space.remove_active_tile(0).is_none());
}

#[test]
fn activated_window_is_active() {
    let mut space = space_of(&[1, 2, 3]);
    for window in [2, 1, 3] {
        assert!(space.activate_window(window));
        assert_eq!(space.active_window(), Some(window));
        assert_eq!(windows(&space), vec![1, 2, 3]);
    }
    assert!(!space.activate_window(9));
    assert_eq!(space.active_window(), Some(3));
}

#[test]
fn focus_goes_along_the_sections() {
    let mut space = space_of(&[1, 2, 3]);
    assert!(!space.focus_right());
    assert!(space.focus_left());
    assert_eq!(space.active_window(), Some(2));
    space.focus_section_first();
    assert_eq!(space.active_window(), Some(1));
    assert!(!space.focus_left());
    space.focus_section_last();
    assert_eq!(space.active_window(), Some(3));
    space.focus_section(2);
    assert_eq!(space.active_window(), Some(2));
    space.focus_section(100);
    assert_eq!(space.active_window(), Some(3));
    assert!(!space.focus_down());
    assert!(!space.focus_up());
}

#[test]
fn sections_are_moved() {
    let mut space = space_of(&[1, 2, 3]);
    assert!(space.move_left());
    assert_eq!(windows(&space), vec![1, 3, 2]);
    assert_eq!(space.active_window(), Some(3));
    space.move_section_to_first();
    assert_eq!(windows(&space), vec![3, 1, 2]);
    assert!(!space.move_left());
    space.move_section_to_index(2);
    assert_eq!(windows(&space), vec![1, 3, 2]);
    space.move_section_to_last();
    assert_eq!(windows(&space), vec![1, 2, 3]);
    assert_eq!(space.active_window(), Some(3));
}

#[test]
fn windows_are_consumed_and_expelled() {
    let mut space = space_of(&[1, 2, 3]);
    space.focus_section_first();
    space.consume_into_section();
    assert_eq!(section_windows(&space, 0), vec![1, 2]);
    assert_eq!(section_windows(&space, 1), vec![3]);
    assert!(space.focus_down());
    assert_eq!(space.active_window(), Some(2));
    assert!(space.focus_up());

    space.expel_from_section();
    assert_eq!(windows(&space), vec![1, 2, 3]);
    assert_eq!(space.sections().len(), 3);

    space.consume_or_expel_window_right(None);
    assert_eq!(section_windows(&space, 0), vec![2, 1]);
    space.consume_or_expel_window_left(Some(1));
    assert_eq!(section_windows(&space, 0), vec![1]);
    assert_eq!(section_windows(&space, 1), vec![2]);
}

#[test]
fn window_in_a_section_is_moved_down() {
    let mut space = space_of(&[1, 2]);
    space.focus_section_first();
    space.consume_into_section();
    assert_eq!(space.active_window(), Some(1));
    assert!(space.move_down());
    assert_eq!(section_windows(&space, 0), vec![2, 1]);
    assert_eq!(space.active_window(), Some(1));
    assert!(!space.move_down());
    assert!(space.move_up());
    assert_eq!(section_windows(&space, 0), vec![1, 2]);
}

#[test]
fn next_window_splits_the_focused_one() {
    let mut space = space_of(&[1, 2]);
    space.split_window(None);
    add(&mut space, 3);
    assert_eq!(space.sections().len(), 2);
    assert_eq!(section_windows(&space, 1), vec![2, 3]);
    assert_eq!(space.active_window(), Some(3));
    assert!(space.focus_left());
    assert_eq!(space.active_window(), Some(2));
    assert_eq!(space.active_section_idx(), 1);
}

#[test]
fn window_of_another_section_joins_a_split() {
    let mut space = space_of(&[1, 2, 3]);
    space.focus_section_last();
    space.consume_window_into_split(Some(SplitAxis::Cross), Some(1));
    assert_eq!(section_windows(&space, 0), vec![2]);
    assert_eq!(section_windows(&space, 1), vec![3, 1]);
    assert_eq!(space.active_window(), Some(1));
}

#[test]
fn swapping_exchanges_windows() {
    let mut space = space_of(&[1, 2, 3]);
    space.swap_tiles((0, 0), (2, 0));
    assert_eq!(windows(&space), vec![3, 2, 1]);
    space.swap_tiles((0, 0), (2, 0));
    assert_eq!(windows(&space), vec![1, 2, 3]);
    space.swap_tiles((0, 0), (7, 0));
    assert_eq!(windows(&space), vec![1, 2, 3]);

    space.swap_window_in_direction(ScrollDirection::Left);
    assert_eq!(windows(&space), vec![1, 3, 2]);
    assert_eq!(space.active_window(), Some(3));
    assert_eq!(space.position_of(2), Some((2, 0)));
    assert_eq!(space.tile_at(2, 0).unwrap().id, 2);
    assert!(space.tile_at(2, 1).is_none());
}

#[test]
fn swapping_between_sections_of_several_windows() {
    let mut space = space_of(&[1, 2, 3]);
    space.focus_section_first();
    space.consume_into_section();
    space.swap_window_in_direction(ScrollDirection::Right);
    assert_eq!(section_windows(&space, 0), vec![3, 2]);
    assert_eq!(section_windows(&space, 1), vec![1]);
    assert_eq!(space.active_window(), Some(1));
}

#[test]
fn tabs_show_one_window() {
    let mut space = space_of(&[1, 2]);
    space.focus_section_first();
    space.consume_into_section();
    space.toggle_section_tabbed_display();
    assert!(space.sections()[0].is_tabbed());
    let shown: Vec<(u64, bool)> = space
        .tiles_with_render_positions()
        .iter()
        .map(|(tile, _, visible)| (tile.id, *visible))
        .collect();
    assert_eq!(shown, vec![(1, true), (2, false)]);

    space.move_tab(ScrollDirection::Right);
    assert_eq!(section_windows(&space, 0), vec![2, 1]);
    assert_eq!(space.active_window(), Some(1));

    space.toggle_section_tabbed_display();
    assert!(!space.sections()[0].is_tabbed());
}

#[test]
fn everything_is_drawn_once() {
    let space = space_of(&[1, 2]);
    let mut drawn = Vec::new();
    for item in space.render(true) {
        match item {
            DrawItem::Tile { window, pos, focus_ring } => drawn.push((window, pos, focus_ring)),
            _ => panic!("only tiles are there"),
        }
    }
    assert_eq!(
        drawn,
        vec![(2, point(420., 10.), true), (1, point(10., 10.), false)]
    );
}

#[test]
fn layout_is_told_with_numbers_from_one() {
    let mut space = space_of(&[1, 2]);
    space.focus_section_first();
    space.consume_into_section();
    let placements = space.tiles_with_ipc_layouts();
    assert_eq!(placements.len(), 2);
    assert_eq!(placements[1].tile.id, 2);
    assert_eq!(placements[1].section, 1);
    assert_eq!(placements[1].path, vec![2]);
    assert_eq!(placements[0].pos, point(10., 10.));
    assert_eq!(placements[1].pos, point(10., 720.));
}

#[test]
fn unrounded_positions_are_given_out() {
    let space = space_of(&[1]);
    assert_eq!(
        space.tiles_with_render_positions_mut(false)[0].1,
        point(10., 10.)
    );
}

#[test]
fn window_is_clamped_to_the_view() {
    let space = space_of(&[1]);
    assert_eq!(
        space.active_window_visual_rectangle(),
        Some(rect(10., 10., 400., 700.))
    );
    assert_eq!(space_of(&[]).active_window_visual_rectangle(), None);
}

#[test]
fn popups_stay_with_their_window() {
    let space = space_of(&[1]);
    assert_eq!(space.popup_target_rect(1), Some(rect(0., -10., 400., 720.)));
    assert_eq!(space.popup_target_rect(2), None);
}

#[test]
fn tiles_may_be_under_the_pointer() {
    let space = space_of(&[1, 2]);
    let candidates = space.window_under(point(20., 20.));
    assert_eq!(
        candidates,
        vec![
            HitCandidate::Tile { window: 2, pos: point(420., 10.) },
            HitCandidate::Tile { window: 1, pos: point(10., 10.) },
        ]
    );
    assert_eq!(pick_hit(&candidates, &vec![false, true]), Some(1));
    assert_eq!(pick_hit(&candidates, &vec![false, false]), None);
    let tab: Vec<HitCandidate<Float>> = vec![HitCandidate::Tab { window: 5 }];
    assert_eq!(pick_hit(&tab, &vec![false]), Some(0));
}

#[test]
fn only_tab_bars_are_scrolled() {
    let mut space = space_of(&[1, 2]);
    assert!(!space.scroll_tab_bar(point(20., 20.), Float(5.)));
}

#[test]
fn closed_window_fades_out_in_place() {
    let mut space = space_of(&[1, 2]);
    let closing = space.start_close_animation_for_window(2).unwrap();
    assert_eq!(closing.tile_pos, point(410., 10.));
    assert_eq!(closing.tile_size, size(400., 700.));
    // Sections behind the active one close up, so the window moves with them.
    let closing = space.start_close_animation_for_window(1).unwrap();
    assert_eq!(closing.tile_pos, point(-410., 10.));

    let mut views = Vec::new();
    for item in space.render(false) {
        if let DrawItem::Closing { closing, view } = item {
            views.push((closing.window, view));
        }
    }
    let view = rect(-10., 0., 1280., 720.);
    assert_eq!(views, vec![(1, view), (2, view)]);

    space.closing_windows[0].done = true;
    space.advance_animations(0);
    assert_eq!(space.closing_windows.len(), 1);
    assert_eq!(space.closing_windows[0].window, 1);
    assert!(space.are_animations_ongoing());
}

#[test]
fn dropped_window_lands_next_to_sections() {
    let space = space_of(&[1]);
    assert_eq!(
        space.insert_position(point(0., 100.)),
        InsertPosition::NewSection(0)
    );
    assert_eq!(
        space.insert_position(point(1000., 100.)),
        InsertPosition::NewSection(1)
    );
    assert_eq!(
        space.insert_position(point(210., 360.)),
        InsertPosition::Swap(0, 0)
    );
    assert_eq!(
        space_of(&[]).insert_position(point(5., 5.)),
        InsertPosition::NewSection(0)
    );
}

#[test]
fn hint_of_a_new_section() {
    assert_eq!(
        space_of(&[]).insert_hint_area(InsertPosition::NewSection(0)),
        Some(rect(10., 10., 300., 700.))
    );
    assert_eq!(
        space_of(&[1]).insert_hint_area(InsertPosition::NewSection(1)),
        Some(rect(420., 10., 300., 700.))
    );
    assert_eq!(
        space_of(&[1]).insert_hint_area(InsertPosition::Floating),
        None
    );
}

#[test]
fn resize_goes_on_for_one_window() {
    let mut space = space_of(&[1, 2]);
    let edges = ResizeEdge { top: false, bottom: false, left: false, right: true };
    assert!(space.interactive_resize_begin(2, edges));
    assert!(!space.interactive_resize_begin(1, edges));
    assert!(!space.interactive_resize_update(1, point(50., 0.)));
    assert!(space.interactive_resize_update(2, point(50., 0.)));
    assert_eq!(
        space.sections()[1].props.width,
        SectionWidth::Fixed(Float(450.))
    );
    space.interactive_resize_end(Some(1));
    assert!(space.props.interactive_resize.is_some());
    space.interactive_resize_end(Some(2));
    assert!(space.props.interactive_resize.is_none());
}

#[test]
fn resize_ends_with_its_window() {
    let mut space = space_of(&[1, 2]);
    let edges = ResizeEdge { top: false, bottom: false, left: false, right: true };
    assert!(space.interactive_resize_begin(2, edges));
    space.remove_tile(2, 0);
    assert!(space.props.interactive_resize.is_none());
}

#[test]
fn preset_widths_cycle() {
    let mut space = space_of(&[1]);
    space.toggle_width(true);
    assert_eq!(
        space.sections()[0].props.width,
        SectionWidth::Proportion(Float(0.5))
    );
    space.toggle_width(true);
    assert_eq!(
        space.sections()[0].props.width,
        SectionWidth::Fixed(Float(300.))
    );
    space.toggle_width(true);
    assert_eq!(space.sections()[0].props.preset_width_idx, Some(0));
    space.toggle_width(false);
    assert_eq!(space.sections()[0].props.preset_width_idx, Some(1));
}

#[test]
fn width_is_set() {
    let mut space = space_of(&[1]);
    space.set_window_width(None, SizeChange::SetFixed(500));
    assert_eq!(
        space.sections()[0].props.width,
        SectionWidth::Fixed(Float(500.))
    );
    space.toggle_full_width();
    assert!(space.sections()[0].props.is_full_width);
    space.toggle_full_width();
    assert!(!space.sections()[0].props.is_full_width);
    assert_eq!(
        space.sections()[0].props.width,
        SectionWidth::Fixed(Float(500.))
    );
}

#[test]
fn fullscreen_is_entered_and_left() {
    let mut space = space_of(&[1]);
    assert!(space.set_maximized(1, true));
    assert!(space.set_fullscreen(1, true));
    assert!(!space.set_fullscreen(1, true));
    assert!(space.is_active_pending_fullscreen());
    assert!(!space.render_above_top_layer());
    let effects = space.take_effects();
    assert!(matches!(
        effects[effects.len() - 1],
        (1, TileEffect::RequestFullscreen { animate: true, .. })
    ));

    let mut full = tile(1, 1280., 720.);
    full.sizing_mode = SizingMode::Fullscreen;
    full.pending_sizing_mode = SizingMode::Fullscreen;
    space.update_window(1, full, None);
    space.sample_view_offset(Float(0.), true);
    space.advance_animations(0);
    assert!(space.render_above_top_layer());

    assert!(space.set_fullscreen(1, false));
    assert_eq!(
        space.sections()[0].pending_sizing_mode(),
        SizingMode::Maximized
    );
}

#[test]
fn fullscreen_window_leaves_its_neighbors() {
    let mut space = space_of(&[1, 2]);
    space.focus_section_first();
    space.consume_into_section();
    assert_eq!(space.sections().len(), 1);
    assert!(space.set_fullscreen(1, true));
    assert_eq!(windows(&space), vec![2, 1]);
    assert_eq!(space.sections().len(), 2);
}

#[test]
fn section_is_centered() {
    let mut space = space_of(&[1]);
    space.center_section();
    assert_eq!(space.view_offset(), view_animation(-10., -440.));

    let mut options = options();
    options.layout.center_focused_section = CenterFocusedSection::Always;
    let mut space = space_with(options);
    add(&mut space, 1);
    assert_eq!(space.view_offset(), ViewOffset::Static(Float(-440.)));
}

#[test]
fn other_gaps_move_sections() {
    let mut space = space_of(&[1, 2]);
    let mut wide = options();
    wide.layout.gaps = Float(20.);
    space.update_config(
        size(1280., 720.),
        rect(0., 0., 1280., 720.),
        Float(1.),
        wide,
    );
    assert_eq!(
        space.section_main_positions(),
        vec![Float(0.), Float(420.), Float(840.)]
    );
    assert_eq!(windows(&space), vec![1, 2]);
}

#[test]
fn swipe_comes_to_rest_at_the_closest_place() {
    let mut space = space_of(&[1]);
    space.view_offset_gesture_begin(false);
    assert_eq!(space.view_offset_gesture_update(swipe(50.), true), None);
    assert_eq!(
        space.view_offset_gesture_update(swipe(50.), false),
        Some(true)
    );
    assert_eq!(space.view_pos(), Float(40.));
    assert!(!space.view_offset_gesture_end(swipe(50.), Some(true)));
    assert!(space.view_offset_gesture_end(swipe(50.), Some(false)));
    assert_eq!(space.view_offset(), view_animation(40., -10.));
    assert!(!space.view_offset_gesture_end(swipe(50.), None));
}

#[test]
fn swipe_focuses_the_furthest_visible_section() {
    let mut space = space_of(&[1, 2, 3, 4]);
    space.focus_section_first();
    space.sample_view_offset(Float(-10.), true);
    space.advance_animations(0);
    space.view_offset_gesture_begin(false);
    space.view_offset_gesture_update(swipe(1000.), false);
    assert!(space.view_offset_gesture_end(swipe(1000.), None));
    assert_eq!(space.active_window(), Some(4));
    assert_eq!(space.target_view_pos(), Float(360.));
}

#[test]
fn snaps_go_from_start_to_end() {
    let space = space_of(&[1, 2, 3, 4]);
    let places: Vec<f64> = space
        .collect_view_snaps()
        .iter()
        .map(|snap| snap.key.0)
        .collect();
    assert_eq!(places, vec![-10., 360.]);
}

#[test]
fn drag_scrolls_the_view_within_bounds() {
    let mut space = space_of(&[1]);
    assert_eq!(
        space.dnd_scroll_gesture_scroll(Float(2.), 0),
        DndScroll::Ignored
    );
    space.dnd_scroll_gesture_begin(0);
    assert_eq!(
        space.dnd_scroll_gesture_scroll(Float(2.), 200_000_000),
        DndScroll::Waiting
    );
    assert_eq!(
        space.dnd_scroll_gesture_scroll(Float(2.), 700_000_000),
        DndScroll::Push(Float(1000.))
    );
    space.dnd_scroll_gesture_apply(swipe(1000.));
    assert_eq!(space.view_offset().target(), Float(400.));
    assert_eq!(
        space.dnd_scroll_gesture_scroll(Float(0.), 800_000_000),
        DndScroll::Ignored
    );
    space.dnd_scroll_gesture_end(swipe(1000.));
    assert!(!space.view_offset().is_gesture());
}

#[test]
fn drag_that_did_not_scroll_leaves_the_view() {
    let mut space = space_of(&[1]);
    space.dnd_scroll_gesture_begin(0);
    space.dnd_scroll_gesture_end(swipe(0.));
    assert_eq!(space.view_offset(), ViewOffset::Static(Float(-10.)));
}

#[test]
fn sizes_for_new_windows() {
    let space = space_of(&[]);
    let plain = WindowRules {
        border: Border { off: true, width: Float(4.) },
        default_section_display: None,
    };
    let bordered = WindowRules {
        border: Border { off: false, width: Float(4.) },
        default_section_display: None,
    };
    assert_eq!(
        space.new_window_size(Some(PresetSize::Proportion(Float(0.5))), None, &plain),
        WholeSize { w: 625, h: 700 }
    );
    assert_eq!(
        space.new_window_size(None, Some(PresetSize::Fixed(300)), &plain),
        WholeSize { w: 0, h: 300 }
    );
    assert_eq!(
        space.new_window_size(Some(PresetSize::Proportion(Float(0.5))), None, &bordered),
        WholeSize { w: 617, h: 692 }
    );
    assert_eq!(
        space.new_window_toplevel_bounds(&plain),
        WholeSize { w: 1260, h: 700 }
    );
    let tabbed = WindowRules {
        default_section_display: Some(SectionDisplay::Tabbed),
        ..plain
    };
    assert_eq!(
        space.new_window_toplevel_bounds(&tabbed),
        WholeSize { w: 1250, h: 700 }
    );
}

#[test]
fn active_tile_can_be_changed() {
    let mut space = space_of(&[1, 2]);
    space.active_tile_mut().unwrap().is_urgent = true;
    assert!(space.active_tile().unwrap().is_urgent);
    assert!(!space.tile_at(0, 0).unwrap().is_urgent);
    assert!(space_of(&[]).active_tile_mut().is_none());
}

#[test]
fn swapping_within_a_section() {
    let mut space = space_of(&[1, 2, 3]);
    space.focus_section_first();
    space.consume_into_section();
    space.consume_into_section();
    assert_eq!(section_windows(&space, 0), vec![1, 2, 3]);
    space.swap_tiles((0, 0), (0, 2));
    assert_eq!(section_windows(&space, 0), vec![3, 2, 1]);
    assert_eq!(space.sections().len(), 1);
    space.swap_tiles((0, 1), (0, 1));
    assert_eq!(section_windows(&space, 0), vec![3, 2, 1]);
}

#[test]
fn only_one_height_is_set() {
    let mut space = space_of(&[1, 2, 3]);
    space.focus_section_first();
    space.consume_into_section();
    space.consume_into_section();
    let is_auto = |space: &ScrollingSpace<Float>| -> Vec<bool> {
        space.sections()[0]
            .root
            .child_data()
            .iter()
            .map(|data| matches!(data.span, ChildSpan::Auto { .. }))
            .collect()
    };
    assert_eq!(is_auto(&space), vec![true, true, true]);
    space.set_window_height(Some(1), SizeChange::SetFixed(200));
    assert_eq!(is_auto(&space), vec![false, true, true]);
    assert_eq!(space.sections()[0].root.child_data()[0].span, ChildSpan::Fixed(Float(200.)));
    space.set_window_height(Some(3), SizeChange::SetFixed(100));
    assert_eq!(is_auto(&space), vec![true, true, false]);
    space.toggle_window_height(Some(2), true);
    assert_eq!(is_auto(&space), vec![true, false, true]);
    space.reset_window_height(Some(2));
    assert_eq!(is_auto(&space), vec![true, true, true]);
}

#[test]
fn tabs_of_groups_are_written_out() {
    let mut space = space_of(&[1, 2, 3]);
    space.focus_section_first();
    space.consume_into_section();
    space.consume_window_into_split(Some(SplitAxis::Main), Some(3));
    let titles: Vec<String> =
        section_windows(&space, 0).iter().map(|window| format!("w{}", window)).collect();
    assert_eq!(titles, vec!["w1", "w3", "w2"]);
    let section = &space.sections()[0];
    assert_eq!(section.root.tree_repr(&titles), "V[H[w1 w3] w2]");
    assert_eq!(section.tab_titles(&vec![], &titles), vec!["H[w1 w3]", "w2"]);
    assert_eq!(section.tab_titles(&vec![0], &titles), vec!["w1", "w3"]);
}

#[test]
fn window_that_is_not_activated_leaves_focus() {
    let mut space = space_of(&[1, 2]);
    space.split_window(Some(SplitAxis::Cross));
    space.add_tile(
        None,
        tile(3, 400., 700.),
        false,
        SectionWidth::Fixed(Float(400.)),
        false,
        None,
    );
    assert_eq!(section_windows(&space, 1), vec![2, 3]);
    assert_eq!(space.active_window(), Some(2));
}

#[test]
fn only_the_nested_split_becomes_tabs() {
    let mut space = space_of(&[1, 2, 3]);
    space.focus_section_first();
    space.consume_into_section();
    space.consume_window_into_split(Some(SplitAxis::Main), Some(3));
    let titles: Vec<String> = vec!["a".to_string(), "b".to_string(), "c".to_string()];
    assert_eq!(space.sections()[0].root.tree_repr(&titles), "V[H[a b] c]");
    space.toggle_tabbed();
    assert_eq!(space.sections()[0].root.tree_repr(&titles), "V[T[a b] c]");
    assert_eq!(space.active_window(), Some(3));
    assert_eq!(section_windows(&space, 0), vec![1, 3, 2]);
    space.toggle_tabbed();
    assert_eq!(section_windows(&space, 0), vec![1, 3, 2]);
    assert_eq!(space.active_window(), Some(3));
}

#[test]
fn windows_are_told_that_they_do_not_float() {
    let mut space = space_of(&[1, 2]);
    space.take_effects();
    space.refresh(true, true);
    let told: Vec<(u64, bool, bool, bool)> = space
        .take_effects()
        .into_iter()
        .filter_map(|(window, effect)| match effect {
            TileEffect::SetState { active_in_section, floating, activated, .. } => {
                Some((window, active_in_section, floating, activated))
            }
            _ => None,
        })
        .collect();
    assert_eq!(told, vec![(1, true, false, false), (2, true, false, true)]);
}

#[test]
fn every_window_needs_a_requested_size() {
    let mut space = space_of(&[1, 2]);
    assert!(space.verify_invariants());
    space.tile_mut_at(0, 0).unwrap().requested_size = None;
    assert!(!space.verify_invariants());
}

#[test]
fn expelling_undoes_consuming() {
    let mut space = space_of(&[1, 2, 3]);
    space.focus_section(2);
    space.consume_or_expel_window_left(None);
    assert_eq!(section_windows(&space, 0), vec![1, 2]);
    assert_eq!(space.active_window(), Some(2));
    space.consume_or_expel_window_right(None);
    assert_eq!(windows(&space), vec![1, 2, 3]);
    assert_eq!(space.sections().len(), 3);
    assert_eq!(space.active_section_idx(), 1);
    assert_eq!(space.active_window(), Some(2));
}

#[test]
fn split_takes_one_window() {
    let mut space = space_of(&[1, 2]);
    space.split_window(Some(SplitAxis::Cross));
    add(&mut space, 3);
    assert_eq!(section_windows(&space, 1), vec![2, 3]);
    add(&mut space, 4);
    assert_eq!(space.sections().len(), 3);
    assert_eq!(section_windows(&space, 2), vec![4]);
}

#[test]
fn hints_beside_a_tile_are_its_halves() {
    let space = space_of(&[1, 2]);
    let whole = space.insert_hint_area(InsertPosition::InsertTab(1, 0)).unwrap();
    assert_eq!(space.insert_hint_area(InsertPosition::Swap(1, 0)), Some(whole));
    let hint = |axis: SplitAxis, after: bool| {
        space.insert_hint_area(InsertPosition::InSplit(1, 0, axis, after)).unwrap()
    };
    let (w, h) = (whole.size.w.0 / 2., whole.size.h.0 / 2.);
    let (x, y) = (whole.loc.x.0, whole.loc.y.0);
    assert_eq!(hint(SplitAxis::Main, false), rect(x, y, w, h * 2.));
    assert_eq!(hint(SplitAxis::Main, true), rect(x + w, y, w, h * 2.));
    assert_eq!(hint(SplitAxis::Cross, false), rect(x, y, w * 2., h));
    assert_eq!(hint(SplitAxis::Cross, true), rect(x, y + h, w * 2., h));
}

#[test]
fn requested_heights_fit_the_working_area() {
    let mut space = space_of(&[1, 2, 3]);
    space.focus_section_first();
    space.consume_into_section();
    space.take_effects();
    space.consume_into_section();
    let mut heights: Vec<(u64, f64)> = Vec::new();
    for (window, effect) in space.take_effects() {
        if let TileEffect::RequestTileSize { size, .. } = effect {
            heights.retain(|(other, _)| *other != window);
            heights.push((window, size.h.0));
        }
    }
    assert_eq!(heights.len(), 3);
    let total: f64 = heights.iter().map(|(_, height)| height).sum();
    assert_eq!(total + 40., 720.);
}

#[test]
fn hidden_tab_is_closed_at_once() {
    let mut space = space_of(&[1, 2, 3]);
    space.focus_section_first();
    space.consume_into_section();
    space.toggle_section_tabbed_display();
    assert!(space.start_close_animation_for_window(2).is_none());
    assert!(space.start_close_animation_for_window(1).is_some());
}

#[test]
fn grouped_tile_is_the_active_tab() {
    for activate in [false, true] {
        let mut space = space_of(&[1, 2]);
        space.focus_section_first();
        space.add_tile_as_tab(0, 0, tile(3, 400., 700.), activate);
        assert_eq!(section_windows(&space, 0), vec![1, 3]);
        assert!(space.sections()[0].is_tabbed());
        assert_eq!(space.sections()[0].active_tile().id, 3);
        assert_eq!(section_windows(&space, 1), vec![2]);
    }

    // The tabs are the active ones of their section, but the section is not activated.
    let mut space = space_of(&[1, 2]);
    space.add_tile_as_tab(0, 0, tile(3, 400., 700.), false);
    assert_eq!(space.active_section_idx(), 1);
    assert_eq!(space.active_window(), Some(2));
    assert_eq!(space.sections()[0].active_tile().id, 3);
}

#[test]
fn grouping_leaves_the_row_beside_the_tabs_active() {
    let mut space = space_of(&[1, 2]);
    space.focus_section_first();
    space.consume_into_section();
    assert_eq!(section_windows(&space, 0), vec![1, 2]);
    assert_eq!(space.active_window(), Some(1));
    space.add_tile_as_tab(0, 1, tile(3, 400., 700.), false);
    assert_eq!(section_windows(&space, 0), vec![1, 2, 3]);
    assert_eq!(space.active_window(), Some(1));
    assert_eq!(space.tab_child_infos(&vec![1]).len(), 2);
    assert!(space.focus_down());
    assert_eq!(space.active_window(), Some(3));
}
