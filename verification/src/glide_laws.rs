//! Windows that go from one section to another glide there from where they were.
use vstd::prelude::*;

use crate::animation::AnimationKind;
use crate::exact::exact;
use crate::geometry::Point;
use crate::scalar::{num, Scalar};
use crate::section::SectionView;
use crate::space::SpaceView;
use crate::space_remove::removed_from;
use crate::tile::TileEffect;
use crate::visible_laws::lemma_places_alike;

verus! {

/// Where a section is seen in the strip of sections while it moves.
pub open spec fn start_of<N: Scalar>(
    value: spec_fn(N) -> real,
    space: SpaceView<N>,
    section: int,
) -> real {
    value(space.section_pos(section)) + value(space.sections[section].render_offset().x)
}

/// Where a tile is seen in a section that starts at some place in the strip.
pub open spec fn in_strip<N: Scalar>(
    value: spec_fn(N) -> real,
    space: SpaceView<N>,
    start: real,
    section: SectionView<N>,
    tile: int,
) -> (real, real) {
    let offset = section.tile_offset(space.layout(), tile);
    (start + value(offset.x), value(offset.y))
}

/// Whether the last thing that was asked for is that a window moves from one position to another.
pub open spec fn glides<N: Scalar>(
    value: spec_fn(N) -> real,
    space: SpaceView<N>,
    window: u64,
    from: (real, real),
    to: (real, real),
) -> bool {
    &&& space.out.effects.len() > 0
    &&& space.out.effects.last().0 == window
    &&& space.out.effects.last().1 matches TileEffect::AnimateMoveFrom { delta } && {
        &&& to.0 + value(delta.x) == from.0
        &&& to.1 + value(delta.y) == from.1
    }
}

proof fn lemma_point_sums<N: Scalar>(value: spec_fn(N) -> real)
    requires
        exact(value),
    ensures
        value(num::<N>(0)) == 0 as real,
        forall|a: Point<N>, b: Point<N>|
            value((#[trigger] a.spec_add(b)).x) == value(a.x) + value(b.x) && value(
                a.spec_add(b).y,
            ) == value(a.y) + value(b.y),
        forall|a: Point<N>, b: Point<N>|
            value((#[trigger] a.spec_sub(b)).x) == value(a.x) - value(b.x) && value(
                a.spec_sub(b).y,
            ) == value(a.y) - value(b.y),
{
}

/// The first window of the next section that is taken into the active one glides there from where it
/// was.
pub proof fn law_consumed_window_glides<N: Scalar>(value: spec_fn(N) -> real, space: SpaceView<N>)
    requires
        exact(value),
        space.props.active_section_idx + 1 < space.sections.len(),
    ensures
        ({
            let target = space.props.active_section_idx as int;
            let after = space.consume_into_section();
            let grown = after.sections[target];
            let last = grown.tiles().len() - 1;
            glides(
                value,
                after,
                grown.tiles()[last].id,
                in_strip(value, space, start_of(value, space, target + 1), space.sections[target + 1], 0),
                in_strip(
                    value,
                    space,
                    value(space.section_pos(target)) + value(grown.render_offset().x),
                    grown,
                    last,
                ),
            )
        }),
{
    lemma_point_sums(value);
    let target = space.props.active_section_idx as int;
    let source = space.sections[target + 1];
    let delta = space.section_pos(target + 1).spec_add(source.render_offset().x).spec_sub(
        space.section_pos(target),
    );
    assert(value(delta) == value(space.section_pos(target + 1)) + value(source.render_offset().x)
        - value(space.section_pos(target)));
}

/// A window that moves right into the next section glides there from where it was.
pub proof fn law_window_glides_right<N: Scalar>(
    value: spec_fn(N) -> real,
    space: SpaceView<N>,
    col: int,
)
    requires
        exact(value),
        0 <= col,
        col + 1 < space.sections.len(),
    ensures
        ({
            let after = space.consumed_right(col);
            let grown = after.sections[col];
            let last = grown.tiles().len() - 1;
            glides(
                value,
                after,
                grown.tiles()[last].id,
                in_strip(value, space, start_of(value, space, col), space.sections[col], 0),
                in_strip(value, space, start_of(value, space, col + 1), grown, last),
            )
        }),
{
    lemma_point_sums(value);
    let step = space.section_pos(col).spec_sub(space.section_pos(col + 1));
    assert(value(step) == value(space.section_pos(col)) - value(space.section_pos(col + 1)));
}

/// A window that moves left into the section before it glides there from where it was, where the
/// active section is not after it.
pub proof fn law_window_glides_left<N: Scalar>(
    value: spec_fn(N) -> real,
    space: SpaceView<N>,
    col: int,
)
    requires
        exact(value),
        0 < col < space.sections.len(),
        space.props.active_section_idx <= col,
    ensures
        ({
            let after = space.consumed_left(col);
            let grown = after.sections[col - 1];
            let last = grown.tiles().len() - 1;
            glides(
                value,
                after,
                grown.tiles()[last].id,
                in_strip(value, space, start_of(value, space, col), space.sections[col], 0),
                in_strip(
                    value,
                    space,
                    value(space.section_pos(col - 1)) + value(grown.render_offset().x),
                    grown,
                    last,
                ),
            )
        }),
{
    lemma_point_sums(value);
    let step = space.section_pos(col).spec_sub(space.section_pos(col - 1));
    assert(value(step) == value(space.section_pos(col)) - value(space.section_pos(col - 1)));
}

/// A window that gets a section of its own after the one it was in glides there from where it was,
/// where the active section is not after it.
pub proof fn law_expelled_window_glides_right<N: Scalar>(
    value: spec_fn(N) -> real,
    space: SpaceView<N>,
    col: int,
    tile: usize,
)
    requires
        exact(value),
        0 <= col < space.sections.len(),
        tile < space.sections[col].tiles().len(),
        space.expelled_right(col, tile).props.active_section_idx <= col + 1,
    ensures
        ({
            let after = space.expelled_right(col, tile);
            let own = after.sections[col + 1];
            glides(
                value,
                after,
                own.tiles()[0].id,
                in_strip(value, space, start_of(value, space, col), space.sections[col], tile as int),
                in_strip(value, space, value(after.section_pos(col + 1)), own, 0),
            )
        }),
{
    lemma_point_sums(value);
    let after = space.expelled_right(col, tile);
    let source = space.sections[col];
    let removed = removed_from(source, tile as int);
    let moved = space.taken(col, tile, None).add_tile(
        Some((col + 1) as usize),
        removed.tile,
        space.is_active_leaf(col as usize, tile),
        removed.width,
        removed.is_full_width,
        Some(AnimationKind::WindowMovement),
    );
    assert(after.sections == moved.sections && after.options == moved.options);
    lemma_places_alike(moved, after, col + 1);
    let step = space.section_pos(col).spec_sub(moved.section_pos(col + 1));
    assert(value(step) == value(space.section_pos(col)) - value(moved.section_pos(col + 1)));
}

/// A window that gets a section of its own before the one it was in glides there from where it was.
/// The section that it was in is then the next one.
pub proof fn law_expelled_window_glides_left<N: Scalar>(
    value: spec_fn(N) -> real,
    space: SpaceView<N>,
    col: int,
    tile: usize,
)
    requires
        exact(value),
        0 <= col < space.sections.len(),
        tile < space.sections[col].tiles().len(),
        col <= space.expelled_left(col, tile).props.active_section_idx,
    ensures
        ({
            let after = space.expelled_left(col, tile);
            let own = after.sections[col];
            let source = space.sections[col];
            glides(
                value,
                after,
                own.tiles()[0].id,
                in_strip(
                    value,
                    space,
                    value(after.section_pos(col + 1)) + value(source.render_offset().x),
                    source,
                    tile as int,
                ),
                in_strip(value, space, value(after.section_pos(col)), own, 0),
            )
        }),
{
    lemma_point_sums(value);
    let after = space.expelled_left(col, tile);
    let removed = removed_from(space.sections[col], tile as int);
    let moved = space.taken(col, tile, None).add_tile(
        Some(col as usize),
        removed.tile,
        space.is_active_leaf(col as usize, tile),
        removed.width,
        removed.is_full_width,
        Some(AnimationKind::WindowMovement),
    );
    assert(after.sections == moved.sections && after.options == moved.options);
    lemma_places_alike(moved, after, col);
    lemma_places_alike(moved, after, col + 1);
    let step = after.section_pos(col + 1).spec_sub(after.section_pos(col));
    assert(value(step) == value(after.section_pos(col + 1)) - value(after.section_pos(col)));
}

/// The last window of the active section that gets a section of its own after it glides there from
/// where it was.
pub proof fn law_last_window_glides_out<N: Scalar>(value: spec_fn(N) -> real, space: SpaceView<N>)
    requires
        exact(value),
        space.wf(),
        space.sections.len() > 0,
        space.active().tiles().len() > 1,
    ensures
        ({
            let source = space.props.active_section_idx as int;
            let after = space.expel_from_section();
            let own = after.sections[source + 1];
            glides(
                value,
                after,
                own.tiles()[0].id,
                in_strip(
                    value,
                    space,
                    start_of(value, space, source),
                    space.active(),
                    space.active().tiles().len() - 1,
                ),
                in_strip(value, space, value(after.section_pos(source + 1)), own, 0),
            )
        }),
{
    lemma_point_sums(value);
    let source = space.props.active_section_idx as int;
    let section = space.active();
    assert(space.sections[source].wf());
    let tile = (section.tiles().len() - 1) as usize;
    assert(tile == section.tiles().len() - 1);
    let after = space.expel_from_section();
    let removed = removed_from(section, tile as int);
    let moved = space.taken(source, tile, None).add_tile(
        Some((source + 1) as usize),
        removed.tile,
        false,
        removed.width,
        removed.is_full_width,
        Some(AnimationKind::WindowMovement),
    );
    assert(after.sections == moved.sections && after.options == moved.options);
    lemma_places_alike(moved, after, source + 1);
    let step = space.section_pos(source).spec_sub(moved.section_pos(source + 1));
    assert(value(step) == value(space.section_pos(source)) - value(moved.section_pos(source + 1)));
}

} // verus!
