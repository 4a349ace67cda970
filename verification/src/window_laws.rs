//! What a window is offered, and what is seen of it.
use vstd::prelude::*;

use crate::animation::AnimationKind;
use crate::config::{PresetSize, SizingMode, WindowRules};
use crate::exact::{covers, exact, rounds};
use crate::geometry::{greater, lesser, Point, Rectangle};
use crate::insert_hint::Color;
use crate::scalar::{num, Scalar};
use crate::section::axis_of;
use crate::space::SpaceView;
use crate::space_query::whole_size_out;
use crate::tab_bar::TabBarView;
use crate::view_laws::{
    law_centered_section_has_equal_margins, law_view_goes_where_it_is_sent, rest,
};
use crate::view_offset::ViewOffset;
use crate::visible_laws::lemma_places_alike;

verus! {

/// The area that two rectangles share is where both of them are, and there is one wherever a point
/// is inside of both.
pub proof fn law_shared_area_is_in_both<N: Scalar>(
    value: spec_fn(N) -> real,
    one: Rectangle<N>,
    other: Rectangle<N>,
    pos: Point<N>,
)
    requires
        exact(value),
    ensures
        one.spec_intersection(other) matches Some(shared) ==> (covers(value, shared, pos)
            <==> covers(value, one, pos) && covers(value, other, pos)),
        one.spec_intersection(other) is None && covers(value, one, pos) && covers(
            value,
            other,
            pos,
        ) ==> {
            ||| value(pos.x) == value(one.loc.x) || value(pos.x) == value(other.loc.x)
            ||| value(pos.y) == value(one.loc.y) || value(pos.y) == value(other.loc.y)
        },
{
    let (one_x, other_x) = (one.loc.x.spec_add(one.size.w), other.loc.x.spec_add(other.size.w));
    let (one_y, other_y) = (one.loc.y.spec_add(one.size.h), other.loc.y.spec_add(other.size.h));
    assert(value(one_x) == value(one.loc.x) + value(one.size.w));
    assert(value(other_x) == value(other.loc.x) + value(other.size.w));
    assert(value(one_y) == value(one.loc.y) + value(one.size.h));
    assert(value(other_y) == value(other.loc.y) + value(other.size.h));
    assert(one.loc.x.spec_lt(other_x) <==> value(one.loc.x) < value(other_x));
    assert(other.loc.x.spec_lt(one_x) <==> value(other.loc.x) < value(one_x));
    assert(one.loc.y.spec_lt(other_y) <==> value(one.loc.y) < value(other_y));
    assert(other.loc.y.spec_lt(one_y) <==> value(other.loc.y) < value(one_y));
    if let Some(shared) = one.spec_intersection(other) {
        assert(value(shared.size.w) == value(lesser(one_x, other_x)) - value(
            shared.loc.x,
        ));
        assert(value(shared.size.h) == value(lesser(one_y, other_y)) - value(
            shared.loc.y,
        ));
    }
}

/// What is given of the active window is inside of the view.
pub proof fn law_active_window_is_clamped_to_the_view<N: Scalar>(
    value: spec_fn(N) -> real,
    space: SpaceView<N>,
)
    requires
        exact(value),
    ensures
        space.active_window_rect() matches Some(rect) ==> {
            let seen = axis_of(space.layout()).spec_rect(rect);
            let view = space.props.view_size;
            &&& 0 as real <= value(seen.loc.x)
            &&& value(seen.loc.x) + value(seen.size.w) <= value(view.w)
            &&& 0 as real <= value(seen.loc.y)
            &&& value(seen.loc.y) + value(seen.size.h) <= value(view.h)
        },
{
    let view = space.props.view_size;
    let zero = num::<N>(0);
    assert(value(zero) == 0 as real);
    assert(value(zero.spec_add(view.w)) == value(view.w));
    assert(value(zero.spec_add(view.h)) == value(view.h));
    assert(forall|a: N, b: N|
        value(#[trigger] lesser(a, b)) <= value(a) && value(lesser(a, b)) <= value(b));
    assert(forall|a: N, b: N|
        value(#[trigger] greater(a, b)) >= value(a) && value(greater(a, b)) >= value(b));
}

/// A new window that asks for no height is offered all that the gaps and the border leave of the
/// working area; one that asks for a height is offered it, as far as there is room.
pub proof fn law_new_window_is_offered_what_fits<N: Scalar>(
    value: spec_fn(N) -> real,
    space: SpaceView<N>,
    width: Option<PresetSize<N>>,
    height: i32,
    rules: WindowRules<N>,
)
    requires
        exact(value),
        rounds(value),
        0 as real <= value(space.layout().gaps) <= 100_000 as real,
        0 as real <= value(rules.border.width) <= 100_000 as real,
        0 as real <= value(space.props.working_area.size.h) <= 1_000_000 as real,
        height >= 1,
    ensures
        ({
            let axis = axis_of(space.layout());
            let free = whole_size_out(axis, space.new_window_size(width, None, rules));
            let fixed = whole_size_out(
                axis,
                space.new_window_size(width, Some(PresetSize::Fixed(height)), rules),
            );
            let around = 2 as real * value(space.layout().gaps) + if rules.border.off {
                0 as real
            } else {
                2 as real * value(rules.border.width)
            };
            let room = value(space.props.working_area.size.h) - around;
            &&& free.h >= 1
            &&& room >= 1 as real ==> free.h as real <= room && room < free.h as real + 1 as real
            &&& height as real <= room ==> fixed.h == height
            &&& height as real > room ==> fixed.h == free.h
            &&& width is None ==> free.w == 0
        }),
{
    let gaps = space.layout().gaps;
    let full = space.full_height(rules);
    let two = num::<N>(2);
    let area = space.props.working_area.size.h;
    assert(value(two) == 2 as real);
    assert(value(gaps.spec_mul(two)) == value(gaps) * 2 as real);
    assert(value(area.spec_sub(gaps.spec_mul(two))) == value(area) - value(gaps) * 2 as real);
    assert(value(rules.border.width.spec_mul(two)) == value(rules.border.width) * 2 as real);
    assert(value(num::<N>(height as int)) == height as real);
    let asked = num::<N>(height as int).spec_min(full);
    let down = value(full.spec_floor());
    let (low, whole) = (down.floor(), full.spec_floor().spec_to_i32());
    assert(down == low as real);
    assert(whole == low);
    let cut = value(asked.spec_floor());
    assert(cut == cut.floor() as real);
    assert(asked.spec_floor().spec_to_i32() == cut.floor());
    if height as real <= value(full) {
        assert(cut.floor() == height);
    } else {
        assert(cut.floor() == low);
    }
}

/// Centering the active section leaves as much room before it as after it.
pub proof fn law_center_section_has_equal_margins<N: Scalar>(
    value: spec_fn(N) -> real,
    space: SpaceView<N>,
)
    requires
        exact(value),
        space.sections.len() > 0,
        value(space.props.scale) > 0 as real,
        space.active().sizing_mode() == SizingMode::Normal,
        value(space.width(space.props.active_section_idx as int)) < value(
            space.props.working_area.size.w,
        ),
    ensures
        ({
            let active = space.props.active_section_idx as int;
            let start = rest(value, space.center_section());
            let end = start + value(space.props.working_area.size.w);
            let from = value(space.section_pos(active));
            from - start == end - (from + value(space.width(active)))
        }),
{
    let active = space.props.active_section_idx as int;
    let after = space.center_section();
    let kind = AnimationKind::HorizontalViewMovement;
    let offset = space.centered_offset_for(None, active);
    law_view_goes_where_it_is_sent(value, space, active, offset, kind);
    law_centered_section_has_equal_margins(
        value,
        space,
        None,
        space.section_pos(active),
        space.width(active),
    );
    lemma_places_alike(space, after, active);
    assert(value(after.target_view_pos()) == value(space.section_pos(active)) + value(
        after.props.view_offset.spec_target(),
    ));
}

/// While time goes on, the view keeps going to the same place.
pub proof fn law_time_keeps_the_target<N: Scalar>(offset: ViewOffset<N>, now: u64)
    ensures
        offset.advanced(now).spec_target() == offset.spec_target(),
{
}

/// Only the active tab of the active section stands out: it has the colors for active tabs, and
/// every other tab looks as it does where the section is not active.
pub proof fn law_only_the_active_tab_stands_out<N: Scalar>(
    bar: TabBarView<N>,
    pos: Point<N>,
    i: int,
    color: Color<N>,
)
    ensures
        bar.props.config.active_color == Some(color) && i == bar.props.active_idx
            ==> bar.background(pos, true, i).color == color,
        bar.props.config.active_text_color == Some(color) && i == bar.props.active_idx
            ==> bar.text_color(i, true) == color,
        bar.props.config.inactive_color == Some(color) ==> bar.background(pos, false, i).color
            == color,
        bar.props.config.inactive_text_color == Some(color) ==> bar.text_color(i, false) == color,
        i != bar.props.active_idx ==> bar.background(pos, true, i) == bar.background(pos, false, i)
            && bar.text_color(i, true) == bar.text_color(i, false),
{
}

} // verus!
