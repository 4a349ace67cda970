//! What holds across operations on a space, whatever it looks like.
use vstd::multiset::Multiset;
use vstd::prelude::*;

use crate::animation::AnimationKind;
use crate::config::{Options, SectionWidth, SizingMode, SplitAxis};
use crate::geometry::Point;
use crate::scalar::{ordered, Scalar};
use crate::section::{lemma_section_tiles, lemma_window_position, SectionView};
use crate::section_laws::law_tile_is_added_beside;
use crate::section_resize::cycled;
use crate::section_size::{lemma_with_sizes, Work};
use crate::section_tabs::{active_first, law_render_order_is_a_permutation, lemma_others};
use crate::space::{in_step, lemma_section_of, SpaceView};
use crate::tile::Tile;
use crate::tile_node::Layout;
use crate::tree_edit::lemma_activated_path;
use crate::view_offset::SwipeTracker;
use crate::windows::{
    bag, ids, lemma_bag_concat, lemma_bag_contains, lemma_bag_insert, lemma_bag_remove, lemma_windows_insert,
    lemma_windows_remove, windows_of,
};
use crate::working_area::working_area;

verus! {

/// A section that is made next to the active one and activated, and then removed with nothing else
/// focused in between, leaves the previous section active and every other section in its place.
#[verifier::spinoff_prover]
pub proof fn law_removing_a_new_section_goes_back<N: Scalar>(
    space: SpaceView<N>,
    section: SectionView<N>,
    made: Option<AnimationKind>,
    removed: Option<AnimationKind>,
)
    requires
        space.wf(),
        space.sections.len() > 0,
        space.sections.len() < usize::MAX,
        section.wf(),
    ensures
        ({
            let idx = space.props.active_section_idx + 1;
            let added = space.with_inserted(idx, section, true, made);
            let back = added.without_section(idx, removed);
            &&& added.props.active_section_idx == idx
            &&& added.sections[idx].tiles() == section.tiles()
            &&& back.props.active_section_idx == space.props.active_section_idx
            &&& back.props.activate_prev_section_on_removal is None
            &&& back.sections.len() == space.sections.len()
            &&& forall|j: int|
                0 <= j < space.sections.len() ==> (#[trigger] back.sections[j]).root
                    == space.sections[j].root
        }),
{
    reveal(SpaceView::with_inserted);
    let idx = space.props.active_section_idx + 1;
    let added = space.with_inserted(idx, section, true, made);
    let back = added.without_section(idx, removed);
    assert forall|j: int| 0 <= j < added.sections.len() implies (
    #[trigger] added.sections[j]).root == space.sections.insert(idx, section)[j].root by {
    }
    assert forall|j: int| 0 <= j < space.sections.len() implies (
    #[trigger] back.sections[j]).root == space.sections[j].root by {
        let k = if j < idx {
            j
        } else {
            j + 1
        };
        assert(added.sections[k].root == space.sections[j].root);
    }
}

/// The view goes back to where it was before a section was made next to the active one, once that
/// section is removed with nothing else focused in between: it is sent to the offset that the
/// previous section had, and from there only as far as the previous section needs to be visible.
pub proof fn law_view_goes_back_with_the_section<N: Scalar>(
    space: SpaceView<N>,
    section: SectionView<N>,
    made: Option<AnimationKind>,
    removed: Option<AnimationKind>,
)
    requires
        space.wf(),
        space.sections.len() > 0,
        space.sections.len() < usize::MAX,
        section.wf(),
    ensures
        ({
            let active = space.props.active_section_idx;
            let idx = active + 1;
            let kind = crate::space_add::kind_or(removed, AnimationKind::HorizontalViewMovement);
            let added = space.with_inserted(idx, section, true, made);
            let taken = added.section_taken(
                idx,
                crate::space_add::kind_or(removed, AnimationKind::WindowMovement),
            );
            added.without_section(idx, removed) == taken.activated(active, kind).view_sent(
                active as int,
                space.props.view_offset.spec_stationary(),
                kind,
            ).view_sent_to(None, active as int, None, kind)
        }),
{
    reveal(SpaceView::with_inserted);
}

/// A window that is in the space is the active one once it was activated: its section is active,
/// and it is the active window there.
pub proof fn law_activated_window_is_active<N: Scalar>(space: SpaceView<N>, window: u64)
    requires
        space.wf(),
        space.section_of(window) is Some,
    ensures
        ({
            let after = space.activate_window(window);
            &&& after.props.active_section_idx == space.section_of(window)->0
            &&& after.active().root.active_leaf().id == window
        }),
{
    lemma_section_of(space, window, space.sections.len() as int);
    let col = space.section_of(window)->0 as int;
    let section = space.sections[col];
    assert(section.wf());
    lemma_section_tiles(section, space.layout());
    lemma_window_position(section.tiles(), window, section.tiles().len() as int);
    let idx = section.position(window)->0;
    let path = section.root.leaf_paths()[idx as int];
    lemma_activated_path(section.root, path);
}

/// Full width is taken back by toggling it again, unless the section was maximized at first: then
/// both are given up and the second toggle makes it full width.
pub proof fn law_full_width_is_toggled_back<N: Scalar>(work: Work<N>, options: Options<N>)
    requires
        work.section.wf(),
    ensures
        ({
            let twice = work.toggle_full_width(options).toggle_full_width(options);
            &&& twice.section.tiles() == work.section.tiles()
            &&& !work.section.props.is_pending_maximized ==> twice.section.props
                == work.section.props
            &&& work.section.props.is_pending_maximized ==> twice.section.props.is_full_width
                && !twice.section.props.is_pending_maximized
        }),
{
    reveal(Work::toggle_full_width);
    let first = work.section.with_full_width_toggled();
    assert(first.root == work.section.root);
    assert(first.wf());
    lemma_with_sizes(first, options);
    let once = work.toggle_full_width(options).section;
    let second = once.with_full_width_toggled();
    assert(second.wf());
    lemma_with_sizes(second, options);
}

/// Fullscreen is where a section goes when it is asked to; leaving it goes back to maximized or to
/// normal, whichever it was before.
#[verifier::spinoff_prover]
pub proof fn law_leaving_fullscreen_goes_back<N: Scalar>(work: Work<N>, options: Options<N>)
    requires
        work.section.wf(),
        !work.section.props.is_pending_fullscreen,
    ensures
        ({
            let full = work.set_fullscreen(options, true);
            let back = full.set_fullscreen(options, false);
            &&& full.section.pending_sizing_mode() == SizingMode::Fullscreen
            &&& back.section.props == work.section.props
            &&& back.section.pending_sizing_mode() == work.section.pending_sizing_mode()
            &&& back.section.tiles() == work.section.tiles()
        }),
{
    reveal(Work::set_fullscreen);
    let asked = SectionView {
        props: crate::section::SectionProps {
            is_pending_fullscreen: true,
            ..work.section.props
        },
        ..work.section
    };
    assert(asked.wf());
    lemma_with_sizes(asked, options);
    let full = work.set_fullscreen(options, true).section;
    let left = SectionView {
        props: crate::section::SectionProps { is_pending_fullscreen: false, ..full.props },
        ..full
    };
    assert(left.wf());
    lemma_with_sizes(left, options);
}

/// Going through presets one way and then the other comes back to where it started, and never
/// leaves the presets.
#[verifier::spinoff_prover]
pub proof fn law_presets_cycle(idx: usize, len: int, forwards: bool)
    requires
        idx < len <= usize::MAX,
    ensures
        cycled(idx, len, forwards) < len,
        cycled(cycled(idx, len, forwards), len, !forwards) == idx,
        len > 1 ==> cycled(idx, len, forwards) != idx,
{
    if forwards {
        if idx + 1 < len {
            assert((idx + 1) % len == idx + 1) by (nonlinear_arith)
                requires
                    0 <= idx + 1 < len,
            ;
            assert((idx + 1 + (len - 1)) % len == idx) by (nonlinear_arith)
                requires
                    0 <= idx < len,
            ;
        } else {
            assert((idx + 1) % len == 0) by (nonlinear_arith)
                requires
                    idx + 1 == len,
            ;
            assert((0 + (len - 1)) % len == len - 1) by (nonlinear_arith)
                requires
                    len > 0,
            ;
        }
    } else {
        if idx > 0 {
            assert((idx + (len - 1)) % len == idx - 1) by (nonlinear_arith)
                requires
                    0 < idx < len,
            ;
            assert((idx - 1 + 1) % len == idx) by (nonlinear_arith)
                requires
                    0 < idx < len,
            ;
        } else {
            assert((0 + (len - 1)) % len == len - 1) by (nonlinear_arith)
                requires
                    len > 0,
            ;
            assert((len - 1 + 1) % len == 0) by (nonlinear_arith)
                requires
                    len > 0,
            ;
        }
    }
}

/// The tiles among what is placed on screen.
pub open spec fn tiles_of<N>(placed: Seq<(Tile<N>, Point<N>, bool)>) -> Seq<Tile<N>> {
    Seq::new(placed.len(), |i: int| placed[i].0)
}

/// Every window of the space is drawn exactly once, and nothing else is.
#[verifier::spinoff_prover]
pub proof fn law_every_window_is_drawn_once<N: Scalar>(space: SpaceView<N>, round: bool)
    requires
        space.wf(),
    ensures
        bag(tiles_of(space.all_placed(round))) == space.windows(),
{
    let count = space.sections.len() as int;
    let active = space.props.active_section_idx;
    let order = space.render_order();
    if count > 0 {
        law_render_order_is_a_permutation(active, count);
        lemma_others(active, count);
        crate::space_render::lemma_render_order(space);
    }
    let drawn = Seq::new(order.len(), |i: int| space.sections[order[i] as int]);
    lemma_placed_windows(space, drawn, round, order.len() as int);
    assert(drawn.take(order.len() as int) =~= drawn);
    if count > 0 {
        let first = space.sections[active as int];
        let rest = space.sections.remove(active as int);
        assert(drawn =~= rest.insert(0, first)) by {
            assert forall|i: int| 1 <= i < count implies drawn[i] == rest.insert(0, first)[i] by {
                assert(order[i] == crate::section_tabs::others_upto(active, count)[i - 1]);
            }
        }
        lemma_windows_remove(space.sections, active as int);
        lemma_windows_insert(rest, 0, first);
    } else {
        assert(order =~= Seq::empty());
        assert(drawn =~= space.sections);
    }
}

#[verifier::spinoff_prover]
proof fn lemma_placed_windows<N: Scalar>(
    space: SpaceView<N>,
    drawn: Seq<SectionView<N>>,
    round: bool,
    upto: int,
)
    requires
        space.wf(),
        0 <= upto <= space.render_order().len(),
        drawn == Seq::new(
            space.render_order().len(),
            |i: int| space.sections[space.render_order()[i] as int],
        ),
        forall|i: int|
            0 <= i < space.render_order().len() ==> (#[trigger] space.render_order()[i])
                < space.sections.len(),
    ensures
        bag(tiles_of(space.placed_upto(upto, round))) == windows_of(drawn.take(upto)),
    decreases upto,
{
    reveal(windows_of);
    if upto > 0 {
        lemma_placed_windows(space, drawn, round, upto - 1);
        let col = space.render_order()[upto - 1] as int;
        let before = space.placed_upto(upto - 1, round);
        let own = space.placed_tiles(col, round);
        assert(tiles_of(before + own) =~= tiles_of(before) + tiles_of(own));
        lemma_bag_concat(tiles_of(before), tiles_of(own));
        assert(drawn.take(upto).drop_last() =~= drawn.take(upto - 1));
        assert(drawn.take(upto).last() == space.sections[col]);
        lemma_placed_section(space, col, round);
    } else {
        assert(tiles_of(space.placed_upto(upto, round)) =~= Seq::<Tile<N>>::empty());
        lemma_bag_empty::<N>();
        assert(drawn.take(upto) =~= Seq::empty());
    }
}

proof fn lemma_bag_empty<N>()
    ensures
        bag(Seq::<Tile<N>>::empty()) == Multiset::<u64>::empty(),
{
    reveal(bag);
    assert(ids(Seq::<Tile<N>>::empty()) =~= Seq::<u64>::empty());
    ids(Seq::<Tile<N>>::empty()).to_multiset_ensures();
    assert(bag(Seq::<Tile<N>>::empty()) =~= Multiset::empty());
}

proof fn lemma_placed_section<N: Scalar>(space: SpaceView<N>, col: int, round: bool)
    requires
        space.wf(),
        0 <= col < space.sections.len(),
    ensures
        bag(tiles_of(space.placed_tiles(col, round))) == space.sections[col].windows(),
{
    let section = space.sections[col];
    assert(section.wf());
    lemma_section_tiles(section, space.layout());
    let tiles = section.tiles();
    let active = section.active_leaf_idx();
    let count = tiles.len() as int;
    law_render_order_is_a_permutation(active, count);
    lemma_others(active, count);
    let order = active_first(active, count);
    let placed = tiles_of(space.placed_tiles(col, round));
    let rest = tiles.remove(active as int);
    assert(placed =~= rest.insert(0, tiles[active as int])) by {
        assert forall|i: int| 1 <= i < count implies placed[i] == rest.insert(
            0,
            tiles[active as int],
        )[i] by {
            assert(order[i] == crate::section_tabs::others_upto(active, count)[i - 1]);
        }
    }
    lemma_bag_insert(rest, 0, tiles[active as int]);
    lemma_bag_remove(tiles, active as int);
}

/// A tab hides everything below it: only the last of what may be under a point is a tab.
pub proof fn law_tab_hides_what_is_below<N: Scalar>(space: SpaceView<N>, pos: Point<N>)
    ensures
        forall|i: int|
            0 <= i < space.candidates(pos).len() - 1 ==> #[trigger] space.candidates(pos)[i]
                is Tile,
{
    lemma_tab_is_last(space, pos, space.render_order().len() as int);
}

#[verifier::spinoff_prover]
proof fn lemma_tab_is_last<N: Scalar>(space: SpaceView<N>, pos: Point<N>, upto: int)
    ensures
        forall|i: int|
            0 <= i < space.candidates_upto(pos, upto).len() - 1 ==> #[trigger]
                space.candidates_upto(pos, upto)[i] is Tile,
    decreases upto,
{
    if upto > 0 {
        lemma_tab_is_last(space, pos, upto - 1);
        let before = space.candidates_upto(pos, upto - 1);
        let col = space.render_order()[upto - 1] as int;
        let own = space.section_candidates(col, pos);
        let all = space.candidates_upto(pos, upto);
        if !(before.len() > 0 && before.last() is Tab) {
            let section = space.sections[col];
            lemma_shown_are_tiles(
                space,
                col,
                section.render_tiles(space.layout()).len() as int,
            );
            assert forall|i: int| 0 <= i < all.len() - 1 implies #[trigger] all[i] is Tile by {
                if i < before.len() {
                    assert(all[i] == before[i]);
                    if i == before.len() - 1 {
                        assert(before.last() is Tile);
                    }
                } else {
                    assert(all[i] == own[i - before.len()]);
                }
            }
        }
    }
}

proof fn lemma_shown_are_tiles<N: Scalar>(space: SpaceView<N>, col: int, upto: int)
    ensures
        forall|i: int|
            0 <= i < space.shown_upto(col, upto).len() ==> #[trigger] space.shown_upto(
                col,
                upto,
            )[i] is Tile,
    decreases upto,
{
    if upto > 0 {
        lemma_shown_are_tiles(space, col, upto - 1);
    }
}

/// A drag scrolls the view no further than its bounds.
pub proof fn law_dnd_scroll_stays_in_bounds<N: Scalar>(
    space: SpaceView<N>,
    tracker: SwipeTracker<N>,
)
    requires
        ordered::<N>(),
        space.props.view_offset is Gesture,
        space.dnd_bounds().0.spec_le(space.dnd_bounds().1),
    ensures
        ({
            let after = space.dnd_scrolled(tracker).props.view_offset.spec_target();
            &&& space.dnd_bounds().0.spec_le(after)
            &&& after.spec_le(space.dnd_bounds().1)
        }),
{
    let gesture = space.props.view_offset->Gesture_0;
    let value = tracker.pos + gesture.delta_from_tracker;
    let (lo, hi) = space.dnd_bounds();
    assert(value.spec_lt(lo) || lo.spec_le(value));
    assert(hi.spec_lt(value) || value.spec_le(hi));
    assert(lo.spec_le(lo) && hi.spec_le(hi));
}

/// A split that was asked for takes the next window: it joins the section of the focused window
/// instead of getting one of its own, as the leaf right after the focused window, split from it
/// along the axis that was asked for. The request is then used up, and no other section gains or
/// loses a tile.
#[verifier::spinoff_prover]
pub proof fn law_next_window_joins_the_split<N: Scalar>(
    space: SpaceView<N>,
    direction: Option<SplitAxis>,
    tile: Tile<N>,
    activate: bool,
    width: SectionWidth<N>,
    is_full_width: bool,
    kind: Option<AnimationKind>,
)
    requires
        space.wf(),
        space.sections.len() > 0,
        space.active().tiles().len() < usize::MAX,
        space.active().pending_sizing_mode() == SizingMode::Normal,
    ensures
        ({
            let axis = match direction {
                Some(axis) => axis,
                None => SplitAxis::Main,
            };
            let at = space.props.active_section_idx as int;
            let after = space.split_window(direction).add_tile(
                None,
                tile,
                activate,
                width,
                is_full_width,
                kind,
            );
            &&& after.sections.len() == space.sections.len()
            &&& after.props.active_section_idx == at
            &&& after.sections[at].root == Work {
                section: space.active().with_pending_split(None),
                out: space.out,
            }.add_beside(
                space.options,
                space.active().active_leaf_idx(),
                tile,
                Layout::spec_for_axis(axis),
                true,
                activate,
            ).section.root
            &&& after.sections[at].tiles() == space.active().tiles().insert(
                space.active().active_leaf_idx() + 1,
                space.active().adopted(space.layout(), tile),
            )
            &&& after.sections[at].props.pending_split_direction is None
            &&& activate ==> after.active().root.active_leaf() == space.active().adopted(
                space.layout(),
                tile,
            )
            &&& forall|i: int|
                0 <= i < space.sections.len() && i != at ==> (#[trigger] after.sections[i]).root
                    == space.sections[i].root
        }),
{
    reveal(SpaceView::add_tile);
    reveal(SpaceView::with_beside);
    reveal(Work::add_beside);
    let at = space.props.active_section_idx as int;
    let axis = match direction {
        Some(axis) => axis,
        None => SplitAxis::Main,
    };
    let asked = space.split_window(direction);
    let bare = space.active().with_pending_split(None);
    assert(asked.active().with_pending_split(None) == bare);
    let free = SpaceView { sections: asked.sections.update(at, bare), ..asked };
    assert(free.sections[at] == bare);
    assert(space.sections[at].wf());
    crate::tree_walk::lemma_active_leaf_idx(space.active().root);
    let work = Work { section: bare, out: space.out };
    law_tile_is_added_beside(
        work,
        space.options,
        space.active().active_leaf_idx(),
        tile,
        Layout::spec_for_axis(axis),
        true,
        activate,
    );
}

/// A split that was asked for takes one window only: the window after it gets a section of its own
/// again.
#[verifier::spinoff_prover]
pub proof fn law_split_takes_one_window<N: Scalar>(
    space: SpaceView<N>,
    direction: Option<SplitAxis>,
    first: Tile<N>,
    activate_first: bool,
    second: Tile<N>,
    activate_second: bool,
    width: SectionWidth<N>,
    is_full_width: bool,
    kind: Option<AnimationKind>,
)
    requires
        space.wf(),
        space.sections.len() > 0,
        space.active().tiles().len() < usize::MAX,
        space.active().pending_sizing_mode() == SizingMode::Normal,
    ensures
        ({
            let once = space.split_window(direction).add_tile(
                None,
                first,
                activate_first,
                width,
                is_full_width,
                kind,
            );
            let twice = once.add_tile(None, second, activate_second, width, is_full_width, kind);
            &&& once.sections.len() == space.sections.len()
            &&& twice == once.with_own_section(
                None,
                second,
                activate_second,
                width,
                is_full_width,
                kind,
            )
            &&& twice.sections.len() == space.sections.len() + 1
        }),
{
    law_next_window_joins_the_split(
        space,
        direction,
        first,
        activate_first,
        width,
        is_full_width,
        kind,
    );
    reveal(SpaceView::add_tile);
    reveal(SpaceView::with_own_section);
    reveal(SpaceView::with_inserted);
}

/// A window of all sections is in one of them.
proof fn lemma_window_is_somewhere<N: Scalar>(sections: Seq<SectionView<N>>, window: u64)
    requires
        windows_of(sections).contains(window),
    ensures
        exists|i: int| 0 <= i < sections.len() && (#[trigger] sections[i]).contains(window),
    decreases sections.len(),
{
    reveal(windows_of);
    if sections.len() > 0 {
        let rest = sections.drop_last();
        if windows_of(rest).contains(window) {
            lemma_window_is_somewhere(rest, window);
            let i = choose|i: int| 0 <= i < rest.len() && (#[trigger] rest[i]).contains(window);
            assert(sections[i].contains(window));
        } else {
            lemma_bag_contains(sections.last().tiles(), window);
            assert(sections[sections.len() - 1].contains(window));
        }
    }
}

/// A space that is in order, and whose resize is of a window of its own, has what every operation
/// keeps: the working area is what the parent area leaves of the struts at the scale, the active
/// section is among the sections, every section has a tile and was told of the place and the scale
/// of the space, and the window that is being resized is found.
#[verifier::spinoff_prover]
pub proof fn law_what_operations_keep<N: Scalar>(space: SpaceView<N>)
    requires
        space.wf(),
        space.resizes_own(),
    ensures
        space.props.working_area == working_area(
            space.props.parent_area,
            space.props.scale,
            space.layout().struts,
        ),
        space.sections.len() > 0 ==> space.props.active_section_idx < space.sections.len(),
        forall|i: int|
            0 <= i < space.sections.len() ==> {
                &&& (#[trigger] space.sections[i]).tiles().len() > 0
                &&& space.sections[i].props.scale == space.props.scale
                &&& space.sections[i].place() == space.place()
            },
        space.props.interactive_resize matches Some(resize) ==> space.section_of(resize.window)
            is Some,
{
    reveal(in_step);
    assert forall|i: int| 0 <= i < space.sections.len() implies {
        &&& (#[trigger] space.sections[i]).tiles().len() > 0
        &&& space.sections[i].props.scale == space.props.scale
        &&& space.sections[i].place() == space.place()
    } by {
        assert(space.sections[i].wf());
        crate::tree_walk::lemma_has_leaf(space.sections[i].root);
        assert(space.sections[i].place() == space.place());
    }
    if let Some(resize) = space.props.interactive_resize {
        lemma_window_is_somewhere(space.sections, resize.window);
        lemma_section_of(space, resize.window, space.sections.len() as int);
    }
}

} // verus!
