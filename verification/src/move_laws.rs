//! Sections that move do not jump.
use vstd::prelude::*;

use crate::animation::AnimationKind;
use crate::config::LayoutOptions;
use crate::exact::exact;
use crate::scalar::{num, Scalar};
use crate::section::{axis_of, main_vec, SectionView};
use crate::space::SpaceView;
use crate::space_add::kind_or;

verus! {

/// Where a section is seen, from the start of the view.
pub open spec fn seen_at<N: Scalar>(
    value: spec_fn(N) -> real,
    space: SpaceView<N>,
    i: int,
) -> real {
    value(space.section_pos(i)) + value(space.sections[i].render_offset().x) - value(
        space.view_pos(),
    )
}

/// A section that starts to move from an offset is first seen off by that.
proof fn lemma_moving<N: Scalar>(
    value: spec_fn(N) -> real,
    section: SectionView<N>,
    offset: N,
    kind: AnimationKind,
)
    requires
        exact(value),
    ensures
        value(section.moving_from(offset, kind).render_offset().x) == value(
            section.render_offset().x,
        ) + value(offset),
{
    let (zero, one) = (num::<N>(0), num::<N>(1));
    assert(value(zero) == 0 as real && value(one) == 1 as real);
    let current = match section.props.move_animation {
        Some(movement) => movement.from.spec_mul(movement.anim.value),
        None => zero,
    };
    let from = offset.spec_add(current);
    assert(value(from) == value(offset) + value(current));
    assert(value(zero.spec_add(from.spec_mul(one))) == value(zero) + value(from.spec_mul(one)));
    assert(value(from.spec_mul(one)) == value(from) * 1 as real);
    assert(value(from) * 1 as real == value(from)) by (nonlinear_arith);
    assert(value(zero.spec_add(current)) == value(current));
}

/// The starts of the sections after one was taken out.
proof fn lemma_starts_without<N: Scalar>(
    value: spec_fn(N) -> real,
    space: SpaceView<N>,
    other: SpaceView<N>,
    col: int,
    i: int,
)
    requires
        exact(value),
        0 <= col < space.sections.len(),
        0 <= i <= other.sections.len(),
        other.options == space.options,
        other.sections.len() == space.sections.len() - 1,
        forall|j: int|
            0 <= j < other.sections.len() ==> (#[trigger] other.sections[j]).width(space.layout())
                == space.width(if j < col {
                j
            } else {
                j + 1
            }),
    ensures
        value(other.section_pos(i)) == if i <= col {
            value(space.section_pos(i))
        } else {
            value(space.section_pos(i + 1)) - (value(space.section_pos(col + 1)) - value(
                space.section_pos(col),
            ))
        },
    decreases i,
{
    if i > 0 {
        lemma_starts_without(value, space, other, col, i - 1);
        let j = i - 1;
        assert(other.sections[j].width(space.layout()) == space.width(if j < col {
            j
        } else {
            j + 1
        }));
        let gap = space.layout().gaps;
        let step = other.width(j).spec_add(gap);
        assert(value(other.section_pos(j).spec_add(step)) == value(other.section_pos(j)) + value(
            step,
        ));
        let k = if j < col {
            j
        } else {
            j + 1
        };
        assert(value(space.section_pos(k).spec_add(space.width(k).spec_add(gap))) == value(
            space.section_pos(k),
        ) + value(space.width(k).spec_add(gap)));
        assert(space.section_pos(k + 1) == space.section_pos(k).spec_add(
            space.width(k).spec_add(gap),
        ));
    }
}

/// What is left once a section that is not the active one was taken out.
proof fn lemma_without_section<N: Scalar>(
    space: SpaceView<N>,
    col: int,
    kind: Option<AnimationKind>,
)
    requires
        space.wf(),
        0 <= col < space.sections.len(),
        col != space.props.active_section_idx,
        !space.props.view_offset.spec_is_dnd_scroll(),
    ensures
        ({
            let after = space.without_section(col, kind);
            let active = space.props.active_section_idx as int;
            let move_kind = kind_or(kind, AnimationKind::WindowMovement);
            let offset = space.section_pos(col + 1).spec_sub(space.section_pos(col));
            &&& after.options == space.options
            &&& after.props.view_offset == space.props.view_offset
            &&& after.props.active_section_idx == if active < col {
                active
            } else {
                active - 1
            }
            &&& after.sections.len() == space.sections.len() - 1
            &&& forall|j: int|
                0 <= j < col ==> (#[trigger] after.sections[j]) == if active < col {
                    space.sections[j]
                } else {
                    space.sections[j].moving_from(offset.spec_neg(), move_kind)
                }
            &&& forall|j: int|
                col <= j < after.sections.len() ==> (#[trigger] after.sections[j]) == if active
                    < col {
                    space.sections[j + 1].moving_from(offset, move_kind)
                } else {
                    space.sections[j + 1]
                }
        }),
{
}

/// Movement does not change the span of a section.
proof fn lemma_moving_keeps_width<N: Scalar>(
    section: SectionView<N>,
    layout: LayoutOptions<N>,
    offset: N,
    kind: AnimationKind,
)
    ensures
        section.moving_from(offset, kind).width(layout) == section.width(layout),
{
}

/// Taking out a section that is not the active one does not make any other section jump: each is
/// seen where it was, and moves to its new place from there.
pub proof fn law_removal_leaves_sections_in_place<N: Scalar>(
    value: spec_fn(N) -> real,
    space: SpaceView<N>,
    col: int,
    kind: Option<AnimationKind>,
    i: int,
)
    requires
        exact(value),
        space.wf(),
        0 <= col < space.sections.len(),
        0 <= i < space.sections.len(),
        i != col,
        col != space.props.active_section_idx,
        !space.props.view_offset.spec_is_dnd_scroll(),
    ensures
        ({
            let after = space.without_section(col, kind);
            seen_at(
                value,
                after,
                if i < col {
                    i
                } else {
                    i - 1
                },
            ) == seen_at(value, space, i)
        }),
{
    lemma_without_section(space, col, kind);
    let after = space.without_section(col, kind);
    let move_kind = kind_or(kind, AnimationKind::WindowMovement);
    let offset = space.section_pos(col + 1).spec_sub(space.section_pos(col));
    lemma_seen_alike(value, space, after, col, offset, move_kind, i);
}

/// Sections that move by what was taken out are seen where they were.
proof fn lemma_seen_alike<N: Scalar>(
    value: spec_fn(N) -> real,
    space: SpaceView<N>,
    after: SpaceView<N>,
    col: int,
    offset: N,
    kind: AnimationKind,
    i: int,
)
    requires
        exact(value),
        0 <= col < space.sections.len(),
        0 <= i < space.sections.len(),
        i != col,
        col != space.props.active_section_idx,
        space.props.active_section_idx < space.sections.len(),
        offset == space.section_pos(col + 1).spec_sub(space.section_pos(col)),
        after.options == space.options,
        after.props.view_offset == space.props.view_offset,
        after.sections.len() == space.sections.len() - 1,
        after.props.active_section_idx == if space.props.active_section_idx < col {
            space.props.active_section_idx as int
        } else {
            space.props.active_section_idx - 1
        },
        forall|j: int|
            0 <= j < col ==> (#[trigger] after.sections[j]) == if space.props.active_section_idx
                < col {
                space.sections[j]
            } else {
                space.sections[j].moving_from(offset.spec_neg(), kind)
            },
        forall|j: int|
            col <= j < after.sections.len() ==> (#[trigger] after.sections[j])
                == if space.props.active_section_idx < col {
                space.sections[j + 1].moving_from(offset, kind)
            } else {
                space.sections[j + 1]
            },
    ensures
        seen_at(
            value,
            after,
            if i < col {
                i
            } else {
                i - 1
            },
        ) == seen_at(value, space, i),
{
    let active = space.props.active_section_idx as int;
    lemma_moving(value, space.sections[i], offset, kind);
    lemma_moving(value, space.sections[i], offset.spec_neg(), kind);
    let now = if i < col {
        i
    } else {
        i - 1
    };
    let now_active = after.props.active_section_idx as int;
    assert forall|j: int| 0 <= j < after.sections.len() implies (
    #[trigger] after.sections[j]).width(space.layout()) == space.width(if j < col {
        j
    } else {
        j + 1
    }) by {
        let k = if j < col {
            j
        } else {
            j + 1
        };
        lemma_moving_keeps_width(space.sections[k], space.layout(), offset, kind);
        lemma_moving_keeps_width(space.sections[k], space.layout(), offset.spec_neg(), kind);
    }
    lemma_starts_without(value, space, after, col, now);
    lemma_starts_without(value, space, after, col, now_active);
    let current = space.props.view_offset.spec_current();
    assert(value(space.section_pos(active).spec_add(current)) == value(space.section_pos(active))
        + value(current));
    assert(value(after.section_pos(now_active).spec_add(current)) == value(
        after.section_pos(now_active),
    ) + value(current));
    assert(value(offset) == value(space.section_pos(col + 1)) - value(space.section_pos(col)));
    assert(value(offset.spec_neg()) == -value(offset));
}

/// What there is once a section was put in that is not activated.
proof fn lemma_with_inserted<N: Scalar>(
    space: SpaceView<N>,
    col: int,
    section: SectionView<N>,
    kind: Option<AnimationKind>,
)
    requires
        space.wf(),
        0 <= col <= space.sections.len(),
        0 < space.sections.len() < usize::MAX,
    ensures
        ({
            let after = space.with_inserted(col, section, false, kind);
            let active = space.props.active_section_idx as int;
            let move_kind = kind_or(kind, AnimationKind::WindowMovement);
            let inserted = SpaceView {
                sections: space.sections.insert(col, section),
                props: after.props,
                ..space
            };
            let offset = inserted.section_pos(col + 1).spec_sub(inserted.section_pos(col));
            &&& after.options == space.options
            &&& after.props.view_offset == space.props.view_offset
            &&& after.props.active_section_idx == if col <= active {
                active + 1
            } else {
                active
            }
            &&& after.sections.len() == space.sections.len() + 1
            &&& after.sections[col] == section
            &&& forall|j: int|
                0 <= j < col && col <= active ==> (#[trigger] after.sections[j])
                    == space.sections[j].moving_from(offset, move_kind)
            &&& forall|j: int|
                0 <= j < col && col > active ==> (#[trigger] after.sections[j])
                    == space.sections[j]
            &&& forall|j: int|
                col < j < after.sections.len() && col <= active ==> (#[trigger] after.sections[j])
                    == space.sections[j - 1]
            &&& forall|j: int|
                col < j < after.sections.len() && col > active ==> (#[trigger] after.sections[j])
                    == space.sections[j - 1].moving_from(offset.spec_neg(), move_kind)
        }),
{
    reveal(SpaceView::with_inserted);
}

/// Putting in a section that is not activated does not make any other section jump: each is seen
/// where it was, and makes room from there.
pub proof fn law_insertion_leaves_sections_in_place<N: Scalar>(
    value: spec_fn(N) -> real,
    space: SpaceView<N>,
    col: int,
    section: SectionView<N>,
    kind: Option<AnimationKind>,
    i: int,
)
    requires
        exact(value),
        space.wf(),
        0 <= col <= space.sections.len(),
        0 <= i < space.sections.len() < usize::MAX,
    ensures
        ({
            let after = space.with_inserted(col, section, false, kind);
            seen_at(
                value,
                after,
                if i < col {
                    i
                } else {
                    i + 1
                },
            ) == seen_at(value, space, i)
        }),
{
    lemma_with_inserted(space, col, section, kind);
    let after = space.with_inserted(col, section, false, kind);
    let inserted = SpaceView {
        sections: space.sections.insert(col, section),
        props: after.props,
        ..space
    };
    let offset = inserted.section_pos(col + 1).spec_sub(inserted.section_pos(col));
    let move_kind = kind_or(kind, AnimationKind::WindowMovement);
    lemma_widths_inserted(space, after, inserted, col, section, offset, move_kind);
    lemma_widths_alike(inserted, after, col);
    lemma_widths_alike(inserted, after, col + 1);
    lemma_seen_inserted(value, space, after, col, offset, move_kind, i);
}

/// The spans of the sections after one was put in.
proof fn lemma_widths_inserted<N: Scalar>(
    space: SpaceView<N>,
    after: SpaceView<N>,
    inserted: SpaceView<N>,
    col: int,
    section: SectionView<N>,
    offset: N,
    kind: AnimationKind,
)
    requires
        0 <= col <= space.sections.len(),
        after.options == space.options,
        after.sections.len() == space.sections.len() + 1,
        inserted.sections == space.sections.insert(col, section),
        after.sections[col] == section,
        forall|j: int|
            0 <= j < col ==> (#[trigger] after.sections[j]) == space.sections[j]
                || after.sections[j] == space.sections[j].moving_from(offset, kind),
        forall|j: int|
            col < j < after.sections.len() ==> (#[trigger] after.sections[j]) == space.sections[j
                - 1] || after.sections[j] == space.sections[j - 1].moving_from(
                offset.spec_neg(),
                kind,
            ),
    ensures
        forall|k: int|
            0 <= k < after.sections.len() ==> (#[trigger] after.sections[k]).width(space.layout())
                == inserted.sections[k].width(space.layout()),
        forall|j: int|
            0 <= j < space.sections.len() ==> (#[trigger] space.sections[j]).width(space.layout())
                == after.width(if j < col {
                j
            } else {
                j + 1
            }),
{
    assert forall|k: int| 0 <= k < after.sections.len() implies (
    #[trigger] after.sections[k]).width(space.layout()) == inserted.sections[k].width(
        space.layout(),
    ) by {
        if k != col {
            let j = if k < col {
                k
            } else {
                k - 1
            };
            lemma_moving_keeps_width(space.sections[j], space.layout(), offset, kind);
            lemma_moving_keeps_width(space.sections[j], space.layout(), offset.spec_neg(), kind);
            assert(inserted.sections[k] == space.sections[j]);
        }
    }
    assert forall|j: int| 0 <= j < space.sections.len() implies (
    #[trigger] space.sections[j]).width(space.layout()) == after.width(if j < col {
        j
    } else {
        j + 1
    }) by {
        let k = if j < col {
            j
        } else {
            j + 1
        };
        assert(after.sections[k].width(space.layout()) == inserted.sections[k].width(
            space.layout(),
        ));
        assert(inserted.sections[k] == space.sections[j]);
    }
}

/// Sections that move by what was put in are seen where they were.
proof fn lemma_seen_inserted<N: Scalar>(
    value: spec_fn(N) -> real,
    space: SpaceView<N>,
    after: SpaceView<N>,
    col: int,
    offset: N,
    kind: AnimationKind,
    i: int,
)
    requires
        exact(value),
        0 <= col <= space.sections.len(),
        0 <= i < space.sections.len(),
        space.props.active_section_idx < space.sections.len(),
        offset == after.section_pos(col + 1).spec_sub(after.section_pos(col)),
        after.options == space.options,
        after.props.view_offset == space.props.view_offset,
        after.sections.len() == space.sections.len() + 1,
        after.props.active_section_idx == if col <= space.props.active_section_idx {
            space.props.active_section_idx + 1
        } else {
            space.props.active_section_idx as int
        },
        forall|j: int|
            0 <= j < space.sections.len() ==> (#[trigger] space.sections[j]).width(space.layout())
                == after.width(if j < col {
                j
            } else {
                j + 1
            }),
        i < col ==> after.sections[i] == if col <= space.props.active_section_idx {
            space.sections[i].moving_from(offset, kind)
        } else {
            space.sections[i]
        },
        i >= col ==> after.sections[i + 1] == if col <= space.props.active_section_idx {
            space.sections[i]
        } else {
            space.sections[i].moving_from(offset.spec_neg(), kind)
        },
    ensures
        seen_at(
            value,
            after,
            if i < col {
                i
            } else {
                i + 1
            },
        ) == seen_at(value, space, i),
{
    let active = space.props.active_section_idx as int;
    let now_active = after.props.active_section_idx as int;
    lemma_moving(value, space.sections[i], offset, kind);
    lemma_moving(value, space.sections[i], offset.spec_neg(), kind);
    lemma_starts_without(value, after, space, col, i);
    lemma_starts_without(value, after, space, col, active);
    let current = space.props.view_offset.spec_current();
    assert(value(space.section_pos(active).spec_add(current)) == value(space.section_pos(active))
        + value(current));
    assert(value(after.section_pos(now_active).spec_add(current)) == value(
        after.section_pos(now_active),
    ) + value(current));
    assert(value(offset) == value(after.section_pos(col + 1)) - value(after.section_pos(col)));
    assert(value(offset.spec_neg()) == -value(offset));
}

/// Sections of the same widths are at the same places.
proof fn lemma_widths_alike<N: Scalar>(space: SpaceView<N>, other: SpaceView<N>, i: int)
    requires
        other.options == space.options,
        other.sections.len() == space.sections.len(),
        0 <= i <= space.sections.len(),
        forall|j: int|
            0 <= j < space.sections.len() ==> (#[trigger] other.sections[j]).width(space.layout())
                == space.sections[j].width(space.layout()),
    ensures
        other.section_pos(i) == space.section_pos(i),
    decreases i,
{
    if i > 0 {
        lemma_widths_alike(space, other, i - 1);
        assert(other.sections[i - 1].width(space.layout()) == space.sections[i - 1].width(
            space.layout(),
        ));
    }
}

/// Once a section has become wider or narrower, the sections around it are first seen as if that had
/// not happened: those after it, or, where the active section is after it, it and those before it,
/// start off by as much as the next section has moved.
pub proof fn law_width_change_is_made_up_for<N: Scalar>(
    value: spec_fn(N) -> real,
    space: SpaceView<N>,
    col: int,
    prev_next: N,
    i: int,
)
    requires
        exact(value),
        space.wf(),
        0 <= col < space.sections.len(),
        0 <= i < space.sections.len(),
    ensures
        ({
            let after = space.with_width_change(col, prev_next);
            let grown = value(space.section_pos(col + 1)) - value(prev_next);
            seen_at(value, after, i) == seen_at(value, space, i) + if space.props.active_section_idx
                <= col && i > col {
                -grown
            } else if space.props.active_section_idx > col && i <= col {
                grown
            } else {
                0 as real
            }
        }),
{
    let offset = space.section_pos(col + 1).spec_sub(prev_next);
    let kind = AnimationKind::WindowMovement;
    assert(value(num::<N>(0)) == 0 as real);
    assert(value(offset) == value(space.section_pos(col + 1)) - value(prev_next));
    assert(value(offset.spec_neg()) == -value(offset));
    if value(offset) != 0 as real {
        let count = space.sections.len() as int;
        if space.props.active_section_idx <= col {
            lemma_moved_section(value, space, col + 1, count, offset.spec_neg(), kind, i);
        } else {
            lemma_moved_section(value, space, 0, col + 1, offset, kind, i);
        }
    }
}

/// Sections that follow a section that was resized start from where they were: narrower by
/// `offset`, the section lets those after it start further on by that, or, where the active section
/// is after it, those before it and itself further back.
pub proof fn law_sections_follow_a_resize<N: Scalar>(
    value: spec_fn(N) -> real,
    space: SpaceView<N>,
    col: int,
    offset: N,
    i: int,
)
    requires
        exact(value),
        space.wf(),
        0 <= col < space.sections.len(),
        0 <= i < space.sections.len(),
    ensures
        ({
            let after = space.with_resized(col, offset, true);
            seen_at(value, after, i) == seen_at(value, space, i) + if space.props.active_section_idx
                <= col && i > col {
                value(offset)
            } else if space.props.active_section_idx > col && i <= col {
                -value(offset)
            } else {
                0 as real
            }
        }),
{
    let kind = AnimationKind::WindowResize;
    let count = space.sections.len() as int;
    assert(value(num::<N>(0)) == 0 as real);
    assert(value(offset.spec_neg()) == -value(offset));
    if value(offset) != 0 as real {
        if space.props.active_section_idx <= col {
            lemma_moved_section(value, space, col + 1, count, offset, kind, i);
        } else {
            lemma_moved_section(value, space, 0, col + 1, offset.spec_neg(), kind, i);
        }
    }
}

/// Some sections moving are seen off by the offset, and the others as they were.
proof fn lemma_moved_section<N: Scalar>(
    value: spec_fn(N) -> real,
    space: SpaceView<N>,
    from: int,
    to: int,
    offset: N,
    kind: AnimationKind,
    i: int,
)
    requires
        exact(value),
        0 <= i < space.sections.len(),
        space.props.active_section_idx < space.sections.len(),
    ensures
        seen_at(value, space.with_moved(from, to, offset, kind), i) == seen_at(value, space, i)
            + if from <= i < to {
            value(offset)
        } else {
            0 as real
        },
{
    let after = space.with_moved(from, to, offset, kind);
    lemma_moving(value, space.sections[i], offset, kind);
    assert forall|j: int| 0 <= j < space.sections.len() implies (
    #[trigger] after.sections[j]).width(space.layout()) == space.sections[j].width(
        space.layout(),
    ) by {
        lemma_moving_keeps_width(space.sections[j], space.layout(), offset, kind);
    }
    lemma_widths_alike(space, after, i);
    lemma_widths_alike(space, after, space.props.active_section_idx as int);
    assert(after.view_pos() == space.view_pos());
}

/// A window that is closed, alone in its section, fades out where it was seen: there where it was on
/// screen once its section is gone and the view has been kept in place.
pub proof fn law_closed_window_fades_out_in_place<N: Scalar>(
    value: spec_fn(N) -> real,
    space: SpaceView<N>,
    window: u64,
    kind: Option<AnimationKind>,
)
    requires
        exact(value),
        space.wf(),
        space.section_of(window) is Some,
        space.section_of(window) != Some(space.props.active_section_idx),
        space.sections[space.section_of(window)->0 as int].tiles().len() == 1,
        space.closing_window(window) is Some,
        !space.props.view_offset.spec_is_dnd_scroll(),
    ensures
        ({
            let col = space.section_of(window)->0 as int;
            let section = space.sections[col];
            let idx = section.position(window)->0 as int;
            let axis = axis_of(space.layout());
            let was = axis.spec_point(
                space.tile_screen_pos(
                    col,
                    section.tiles()[idx],
                    section.leaf_positions(space.layout())[idx],
                    false,
                ),
            );
            let fades = axis.spec_point(space.closing_window(window)->0.tile_pos);
            let after = space.without_section(col, kind);
            &&& value(fades.x) - value(after.view_pos()) == value(was.x)
            &&& value(fades.y) == value(was.y)
        }),
{
    let col = space.section_of(window)->0 as int;
    crate::space::lemma_section_of(space, window, space.sections.len() as int);
    lemma_without_section(space, col, kind);
    let after = space.without_section(col, kind);
    let active = space.props.active_section_idx as int;
    let now_active = after.props.active_section_idx as int;
    let offset = space.section_pos(col + 1).spec_sub(space.section_pos(col));
    let move_kind = kind_or(kind, AnimationKind::WindowMovement);
    assert forall|j: int| 0 <= j < after.sections.len() implies (
    #[trigger] after.sections[j]).width(space.layout()) == space.width(if j < col {
        j
    } else {
        j + 1
    }) by {
        let k = if j < col {
            j
        } else {
            j + 1
        };
        lemma_moving_keeps_width(space.sections[k], space.layout(), offset, move_kind);
        lemma_moving_keeps_width(space.sections[k], space.layout(), offset.spec_neg(), move_kind);
    }
    lemma_starts_without(value, space, after, col, now_active);
    let current = space.props.view_offset.spec_current();
    assert(value(space.section_pos(active).spec_add(current)) == value(space.section_pos(active))
        + value(current));
    assert(value(after.section_pos(now_active).spec_add(current)) == value(
        after.section_pos(now_active),
    ) + value(current));
    let section = space.sections[col];
    let idx = section.position(window)->0 as int;
    let pos = space.tile_screen_pos(
        col,
        section.tiles()[idx],
        section.leaf_positions(space.layout())[idx],
        false,
    );
    let axis = axis_of(space.layout());
    assert(value(num::<N>(0)) == 0 as real);
    let view = axis.spec_point(main_vec(space.view_pos()));
    let shift = axis.spec_point(main_vec(offset.spec_neg()));
    assert(value(pos.x.spec_add(view.x)) == value(pos.x) + value(view.x));
    assert(value(pos.y.spec_add(view.y)) == value(pos.y) + value(view.y));
    assert(value(pos.x.spec_add(view.x).spec_add(shift.x)) == value(pos.x.spec_add(view.x))
        + value(shift.x));
    assert(value(pos.y.spec_add(view.y).spec_add(shift.y)) == value(pos.y.spec_add(view.y))
        + value(shift.y));
    assert(value(offset.spec_neg()) == -(value(space.section_pos(col + 1)) - value(
        space.section_pos(col),
    )));
}

} // verus!
