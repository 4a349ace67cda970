//! The parts that the layout is made of.
#![allow(dead_code)]
use scrolling_layout::animation::{Animation, AnimationKind};
use scrolling_layout::axis::{AxisMap, MainAxis, PhysicalAxis, ResizeEdge};
use scrolling_layout::axis_policy::InputAxisPolicy;
use scrolling_layout::fit::compute_new_view_offset;
use scrolling_layout::geometry::{Point, Rectangle, Size};
use scrolling_layout::insert_hint::{
    Color, CornerRadius, HintKind, InsertHintConfig, InsertHintElement,
};
use scrolling_layout::order::{find_closest, sort_keyed, Keyed};
use scrolling_layout::scalar::{clamp, Pixels, Scalar};
use scrolling_layout::tab_bar::{
    title_texture_size, TabBar, TabBarConfig, TabBarPosition, TabInfo, TitleTexture,
};
use scrolling_layout::view_offset::{SwipeTracker, ViewGesture, ViewOffset};

/// Logical pixels as floating-point numbers.
#[derive(Clone, Copy, PartialEq, Debug)]
struct Float(f64);

impl Scalar for Float {
    fn of_int(value: i64) -> Self {
        Float(value as f64)
    }

    fn of_usize(value: usize) -> Self {
        Float(value as f64)
    }

    fn largest() -> Self {
        Float(f64::MAX)
    }

    fn smallest() -> Self {
        Float(f64::MIN)
    }

    fn add(self, rhs: Self) -> Self {
        Float(self.0 + rhs.0)
    }

    fn sub(self, rhs: Self) -> Self {
        Float(self.0 - rhs.0)
    }

    fn mul(self, rhs: Self) -> Self {
        Float(self.0 * rhs.0)
    }

    fn div(self, rhs: Self) -> Self {
        Float(self.0 / rhs.0)
    }

    fn neg(self) -> Self {
        Float(-self.0)
    }

    fn abs(self) -> Self {
        Float(self.0.abs())
    }

    fn min(self, rhs: Self) -> Self {
        Float(self.0.min(rhs.0))
    }

    fn max(self, rhs: Self) -> Self {
        Float(self.0.max(rhs.0))
    }

    fn lt(self, rhs: Self) -> bool {
        self.0 < rhs.0
    }

    fn le(self, rhs: Self) -> bool {
        self.0 <= rhs.0
    }

    fn same(self, rhs: Self) -> bool {
        self.0 == rhs.0
    }

    fn round(self) -> Self {
        Float(self.0.round())
    }

    fn floor(self) -> Self {
        Float(self.0.floor())
    }

    fn ceil(self) -> Self {
        Float(self.0.ceil())
    }

    fn is_finite(self) -> bool {
        self.0.is_finite()
    }

    fn to_i32(self) -> i32 {
        self.0 as i32
    }
}

fn size(w: f64, h: f64) -> Size<Float> {
    Size { w: Float(w), h: Float(h) }
}

fn point(x: f64, y: f64) -> Point<Float> {
    Point { x: Float(x), y: Float(y) }
}

fn rect(x: f64, y: f64, w: f64, h: f64) -> Rectangle<Float> {
    Rectangle { loc: point(x, y), size: size(w, h) }
}

fn grey(level: f64) -> Color<Float> {
    Color { r: Float(level), g: Float(level), b: Float(level), a: Float(1.) }
}

#[test]
fn axis_map_is_an_involution() {
    for main_axis in [MainAxis::Horizontal, MainAxis::Vertical] {
        let axis = AxisMap::new(main_axis);
        let area = rect(1., 2., 3., 4.);
        assert_eq!(axis.rect_out(axis.rect_in(area)), area);
        let edges = ResizeEdge { top: true, bottom: false, left: false, right: true };
        assert_eq!(axis.resize_edges_out(axis.resize_edges_in(edges)), edges);
    }
    let vertical = AxisMap::new(MainAxis::Vertical);
    assert_eq!(vertical.point_in(point(1., 2.)), point(2., 1.));
    assert_eq!(vertical.size_in(size(3., 4.)), size(4., 3.));
    assert_eq!(vertical.main_vec(Float(5.)), point(0., 5.));
}

#[test]
fn policy_of_no_axis_is_horizontal() {
    let policy = InputAxisPolicy::default();
    assert!(!policy.is_vertical());
    assert_eq!(policy.main_axis(), MainAxis::Horizontal);
    assert_eq!(policy.screenshot_main_axis(), PhysicalAxis::Width);
}

#[test]
fn rectangles_intersect() {
    let a = rect(0., 0., 10., 10.);
    assert_eq!(a.intersection(rect(5., 6., 10., 10.)), Some(rect(5., 6., 5., 4.)));
    assert_eq!(a.intersection(rect(20., 0., 5., 5.)), None);
    assert!(a.contains(point(0., 9.)));
    assert!(!a.contains(point(10., 5.)));
}

#[test]
fn points_are_rounded_to_physical_pixels() {
    assert_eq!(point(0.3, 0.8).round_in_physical(Float(2.)), point(0.5, 1.));
}

#[test]
fn view_moves_as_little_as_it_can() {
    let fit = |view: f64, main: f64, span: f64| {
        compute_new_view_offset(
            Float(view),
            Float(1000.),
            Float(main),
            Float(span),
            Float(10.),
        )
    };
    // Visible already.
    assert_eq!(fit(0., 100., 300.), Float(-100.));
    // Past the end, past the start, and wider than the view.
    assert_eq!(fit(0., 900., 300.), Float(-690.));
    assert_eq!(fit(500., 100., 300.), Float(-10.));
    assert_eq!(fit(0., 100., 1000.), Float(0.));
}

#[test]
fn sorting_is_stable() {
    let keyed = |key: f64, idx: usize| Keyed { key: Float(key), idx };
    let items = vec![keyed(3., 0), keyed(1., 1), keyed(3., 2), keyed(2., 3)];
    let sorted = sort_keyed(&items);
    let order: Vec<usize> = sorted.iter().map(|item| item.idx).collect();
    assert_eq!(order, vec![1, 3, 0, 2]);
    assert_eq!(find_closest(&sorted, Float(1.5)), 0);
    assert_eq!(find_closest(&sorted, Float(2.6)), 2);
}

#[test]
fn values_are_clamped() {
    assert_eq!(clamp(Float(5.), Float(0.), Float(3.)), Float(3.));
    assert_eq!(clamp(Float(-5.), Float(0.), Float(3.)), Float(0.));
    assert_eq!(clamp(Float(2.), Float(0.), Float(3.)), Float(2.));
}

#[test]
fn whole_pixels_saturate() {
    let most = Pixels::largest();
    assert_eq!(most.add(Pixels::of_int(1)).value, i64::MAX);
    assert_eq!(Pixels::of_int(7).div(Pixels::of_int(2)).value, 3);
    assert_eq!(Pixels::of_int(-3).abs().value, 3);
}

#[test]
fn view_is_sent_to_its_target() {
    let mut offset = ViewOffset::Static(Float(10.));
    offset.send_to(Float(10.5), Float(1.), AnimationKind::WindowMovement);
    assert_eq!(offset, ViewOffset::Static(Float(10.5)));
    offset.send_to(Float(30.), Float(1.), AnimationKind::WindowMovement);
    assert_eq!(offset.current(), Float(10.5));
    assert_eq!(offset.target(), Float(30.));
    offset.offset(Float(-5.));
    assert_eq!(offset.current(), Float(5.5));
    assert_eq!(offset.stationary(), Float(25.));
    offset.stop_anim_and_gesture();
    assert_eq!(offset, ViewOffset::Static(Float(5.5)));
}

#[test]
fn gesture_starts_in_place() {
    let offset = ViewOffset::Animation(Animation {
        from: Float(0.),
        to: Float(100.),
        initial_velocity: Float(0.),
        kind: AnimationKind::HorizontalViewMovement,
        value: Float(40.),
        done: false,
    });
    let gesture = offset.begin_gesture(true, Some(7));
    assert_eq!(
        gesture,
        ViewGesture {
            current_view_offset: Float(40.),
            animation: None,
            tracker: SwipeTracker::new(),
            delta_from_tracker: Float(40.),
            stationary_view_offset: Float(100.),
            is_touchpad: true,
            dnd_last_event_time: Some(7),
            dnd_nonzero_start_time: None,
        }
    );
    let mut offset = ViewOffset::Gesture(gesture);
    assert!(offset.is_dnd_scroll());
    offset.cancel_gesture();
    assert_eq!(offset, ViewOffset::Static(Float(40.)));
}

#[test]
fn hint_is_painted_for_its_kind() {
    let config = InsertHintConfig {
        off: false,
        color: grey(0.1),
        swap_color: grey(0.2),
        tab_color: grey(0.3),
        gradient: None,
        swap_gradient: None,
        tab_gradient: None,
    };
    let radius = CornerRadius {
        top_left: Float(0.),
        top_right: Float(0.),
        bottom_right: Float(0.),
        bottom_left: Float(0.),
    };
    let mut hint = InsertHintElement::new(config);
    let paint = |hint: &InsertHintElement<Float>| {
        let (ring, _) = hint.render(point(0., 0.));
        let elements = ring.elements.unwrap();
        if elements.is_urgent {
            ring.config.urgent_color
        } else if elements.is_active {
            ring.config.active_color
        } else {
            ring.config.inactive_color
        }
    };
    for (kind, color) in [
        (HintKind::Split, grey(0.1)),
        (HintKind::Swap, grey(0.2)),
        (HintKind::Tab, grey(0.3)),
    ] {
        hint.update_render_elements(
            size(100., 50.),
            kind,
            rect(0., 0., 1., 1.),
            radius,
            Float(1.),
        );
        assert_eq!(paint(&hint), color);
    }
    let (ring, at) = hint.render(point(3., 4.));
    assert_eq!(at, point(3., 4.));
    assert_eq!(ring.elements.unwrap().size, size(100., 50.));
    hint.update_config(InsertHintConfig { color: grey(0.9), ..config });
    assert_eq!(hint.render(point(0., 0.)).0.config.active_color, grey(0.9));
    hint.update_shaders();
    assert!(hint.render(point(0., 0.)).0.shaders_stale);
}

fn bar_config() -> TabBarConfig<Float> {
    TabBarConfig {
        off: false,
        height: Float(20.),
        position: TabBarPosition::Top,
        gaps_between_tabs: Float(0.),
        active_color: Some(grey(0.7)),
        inactive_color: None,
        text_color: grey(1.),
        active_text_color: None,
        inactive_text_color: Some(grey(0.5)),
    }
}

fn tabs(count: usize, active: usize) -> Vec<TabInfo<Float>> {
    (0..count)
        .map(|i| TabInfo {
            is_active: i == active,
            is_urgent: false,
            geometry: rect(0., 0., 0., 0.),
        })
        .collect()
}

#[test]
fn tabs_fill_the_bar() {
    let mut bar = TabBar::new(bar_config());
    assert_eq!(bar.extra_size(2, Float(1.)), size(0., 21.));
    assert_eq!(bar.content_offset(2, Float(1.)), point(0., 21.));
    bar.update_render_elements(true, rect(10., 50., 600., 400.), 2, &tabs(2, 1), Float(1.));
    assert_eq!(bar.hit(point(15., 30.)), Some(0));
    assert_eq!(bar.hit(point(320., 30.)), Some(1));
    assert_eq!(bar.hit(point(5., 30.)), None);

    let backgrounds = bar.render_backgrounds(point(1., 2.), true);
    assert_eq!(backgrounds.len(), 2);
    assert_eq!(backgrounds[0].location, point(11., 31.));
    assert_eq!(backgrounds[1].location, point(311., 31.));
    assert_eq!(backgrounds[1].size, size(300., 20.));
    assert_eq!(backgrounds[1].color, grey(0.7));
    assert_ne!(bar.render_backgrounds(point(1., 2.), false)[1].color, grey(0.7));
    assert!(!bar.scroll(Float(50.), Float(600.)));

    bar.update_render_elements(false, rect(10., 50., 600., 400.), 2, &tabs(2, 1), Float(1.));
    assert_eq!(bar.hit(point(15., 30.)), None);
}

#[test]
fn many_tabs_scroll_to_the_active_one() {
    let mut bar = TabBar::new(bar_config());
    bar.update_render_elements(true, rect(0., 50., 250., 400.), 10, &tabs(10, 9), Float(1.));
    // Tabs of a hundred pixels each: the last one ends where the bar ends.
    assert_eq!(bar.hit(point(249., 30.)), Some(9));
    assert!(!bar.scroll(Float(10.), Float(250.)));
    assert!(bar.scroll(Float(-100.), Float(250.)));
    assert!(bar.scroll(Float(-10000.), Float(250.)));
    assert!(!bar.scroll(Float(-1.), Float(250.)));
}

#[test]
fn tabs_keep_minimum_width() {
    let mut bar = TabBar::new(bar_config());
    bar.update_render_elements(true, rect(0., 50., 250., 400.), 10, &tabs(10, 0), Float(1.));
    assert_eq!(bar.hit(point(99., 30.)), Some(0));
    assert_eq!(bar.hit(point(101., 30.)), Some(1));
    assert_eq!(bar.hit(point(201., 30.)), Some(2));
}

#[test]
fn minimum_tab_width_is_rounded_up() {
    // A hundred logical pixels are 133 and a third physical ones here.
    let mut bar = TabBar::new(bar_config());
    let scale = Float(4. / 3.);
    bar.update_render_elements(true, rect(0., 50., 250., 400.), 10, &tabs(10, 0), scale);
    assert_eq!(bar.hit(point(100.2, 30.)), Some(0));
    assert_eq!(bar.hit(point(100.8, 30.)), Some(1));
    assert_eq!(bar.hit(point(200.7, 30.)), Some(1));
    assert_eq!(bar.hit(point(201.3, 30.)), Some(2));
}

#[test]
fn active_tab_is_inside_the_bar() {
    let mut bar = TabBar::new(bar_config());
    bar.update_render_elements(true, rect(0., 50., 250., 400.), 10, &tabs(10, 7), Float(1.));
    assert!((0..250).any(|x| bar.hit(point(x as f64, 30.)) == Some(7)));
    let width = (0..250).filter(|x| bar.hit(point(*x as f64, 30.)) == Some(7)).count();
    assert!(width >= 99);
}

#[test]
fn stacked_tabs_take_a_row_each() {
    let mut bar = TabBar::new(bar_config());
    bar.set_stacked(true);
    assert_eq!(bar.extra_size(3, Float(1.)), size(0., 61.));
    bar.update_render_elements(true, rect(0., 61., 250., 400.), 3, &tabs(3, 0), Float(1.));
    assert_eq!(bar.hit(point(100., 10.)), Some(0));
    assert_eq!(bar.hit(point(100., 30.)), Some(1));
    assert_eq!(bar.hit(point(100., 50.)), Some(2));
}

#[test]
fn titles_are_rendered_once() {
    let mut bar = TabBar::new(bar_config());
    bar.update_render_elements(true, rect(0., 50., 600., 400.), 2, &tabs(2, 0), Float(1.));
    let titles = vec![String::from("one"), String::from("two")];
    let requests = bar.prepare_titles(Float(1.), true, &titles);
    assert_eq!(requests.len(), 2);
    assert_eq!(requests[0].color, grey(1.));
    assert_eq!(requests[1].color, grey(0.5));
    bar.store_title(0, Some(TitleTexture { handle: 5, size: size(40., 10.) }));
    bar.store_title(1, None);
    assert!(bar.prepare_titles(Float(1.), true, &titles).is_empty());
    let drawn = bar.render_titles(point(0., 0.), &titles);
    assert_eq!(drawn.len(), 1);
    assert_eq!(drawn[0].texture.handle, 5);

    // Another title takes the texture away, and so do other colors.
    let renamed = vec![String::from("three"), String::from("two")];
    assert_eq!(bar.prepare_titles(Float(1.), true, &renamed).len(), 1);
    assert_eq!(bar.prepare_titles(Float(1.), false, &renamed).len(), 1);
}

#[test]
fn title_textures_have_a_limit() {
    assert_eq!(title_texture_size(0, 10), None);
    assert_eq!(title_texture_size(40, 10), Some((40, 10)));
    assert_eq!(title_texture_size(20000, 10), Some((16383, 10)));
}
