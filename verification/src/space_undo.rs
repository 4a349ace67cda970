//! Moving a window out of its section and back.
use vstd::prelude::*;

use crate::animation::AnimationKind;
use crate::config::{Options, SectionWidth, SizingMode};
use crate::scalar::Scalar;
use crate::section::{axis_of, lemma_section_tiles, SectionProps, SectionView};
use crate::section_edit::{lemma_normalized, lemma_row};
use crate::section_resize::lemma_auto_heights;
use crate::section_size::{lemma_with_sizes, Work};
use crate::section_state::{lemma_fresh, lemma_header_only, Place};
use crate::space::SpaceView;
use crate::space_remove::{lemma_weight_reset, removed_from};
use crate::tile::{OutboxView, Tile};
use crate::tile_node::Tree;
use crate::tree_edit::{
    lemma_activated_leaves, lemma_activated_wf, lemma_without_leaf_sane,
};
use crate::tree_layout::lemma_configured;
use crate::tree_leaves::{lemma_leaves_before_leaf, lemma_without_leaf};
use crate::tree_walk::{lemma_active_leaf_idx, lemma_leaf_paths, lemma_wf_is_sane};
use crate::windows::ids;

verus! {

/// Taking a tile out of a section leaves the other ones, in their order.
#[verifier::spinoff_prover]
pub proof fn lemma_take_tile<N: Scalar>(
    before: Work<N>,
    options: Options<N>,
    idx: usize,
    transaction: u64,
    kind: AnimationKind,
)
    requires
        before.section.wf(),
        idx < before.section.tiles().len(),
        before.section.tiles().len() > 1,
    ensures
        before.take_tile(options, idx, transaction, kind).section.wf(),
        before.take_tile(options, idx, transaction, kind).section.tiles()
            == before.section.tiles().remove(idx as int),
        before.take_tile(options, idx, transaction, kind).section.props == before.section.props,
{
    reveal(Work::take_tile);
    let section = before.section;
    lemma_wf_is_sane(section.root);
    lemma_leaf_paths(section.root);
    let path = section.root.leaf_paths()[idx as int];
    lemma_without_leaf(section.root, idx as int);
    lemma_without_leaf_sane(section.root, path);
    lemma_normalized(section.root.without_leaf(path));
    let rest = section.without_tile(idx);
    lemma_weight_reset(rest);
    let rest = rest.with_weight_reset();
    lemma_wf_is_sane(rest.root);
    lemma_leaf_paths(rest.root);
    if idx > 0 && idx - 1 < rest.tiles().len() {
        let previous = rest.root.leaf_paths()[idx - 1];
        lemma_activated_wf(rest.root, previous);
        lemma_activated_leaves(rest.root, previous);
        lemma_with_sizes(rest.with_root(rest.root.activated(previous)), options);
    }
    lemma_with_sizes(rest, options);
}

/// A section that is made for a tile holds that tile only.
#[verifier::spinoff_prover]
pub proof fn lemma_made<N: Scalar>(
    out: OutboxView<N>,
    options: Options<N>,
    tile: Tile<N>,
    place: Place<N>,
    width: SectionWidth<N>,
    is_full_width: bool,
)
    ensures
        ({
            let made = Work::new_with_tile(out, options, tile, place, width, is_full_width).section;
            &&& made.wf()
            &&& ids(made.tiles()) == seq![tile.id]
        }),
{
    reveal(Work::new_with_tile);
    reveal(Work::set_maximized);
    reveal(Work::set_fullscreen);
    lemma_fresh(options, tile, place, width, is_full_width);
    let fresh = SectionView::fresh(options, tile, place, width, is_full_width);
    lemma_with_sizes(fresh, options);
    let made = fresh.with_sizes(options);
    let maximized = SectionView {
        props: SectionProps { is_pending_maximized: true, ..made.props },
        ..made
    };
    let full = SectionView {
        props: SectionProps { is_pending_fullscreen: true, ..made.props },
        ..made
    };
    lemma_with_sizes(maximized, options);
    lemma_with_sizes(full, options);
    let told = Work { section: fresh, out }.sized(options, false);
    let done = match tile.pending_sizing_mode {
        SizingMode::Normal => told,
        SizingMode::Maximized => told.set_maximized(options, true),
        SizingMode::Fullscreen => told.set_fullscreen(options, true),
    };
    if let Some(header) = done.section.root.header() {
        lemma_header_only(
            done.section.root,
            Some(header.opening(AnimationKind::WindowMovement)),
        );
    }
    assert(ids(fresh.tiles()) =~= seq![tile.id]);
}

/// A section that is told of other options or another view keeps its windows, in their order.
#[verifier::spinoff_prover]
pub proof fn lemma_told<N: Scalar>(
    before: Work<N>,
    old_options: Options<N>,
    options: Options<N>,
    place: Place<N>,
)
    requires
        before.section.wf(),
    ensures
        ({
            let after = before.update_config(old_options, options, place).section;
            &&& after.wf()
            &&& ids(after.tiles()) == ids(before.section.tiles())
        }),
{
    reveal(Work::update_config);
    lemma_auto_heights(before.section);
    let base = if crate::config::same_presets(
        old_options.preset_window_heights@,
        options.preset_window_heights@,
    ) {
        before.section
    } else {
        before.section.with_auto_heights()
    };
    lemma_configured(
        base.root,
        axis_of(options.layout).spec_size(place.view_size),
        place.scale,
        options.layout.tab_header,
    );
    let told = before.section.configured(old_options, options, place);
    assert(ids(told.tiles()) =~= ids(before.section.tiles()));
    lemma_with_sizes(told, options);
}

/// A row that is added behind all others, and activated, is the last leaf and the active one.
#[verifier::spinoff_prover]
proof fn lemma_last_row<N: Scalar>(before: Work<N>, options: Options<N>, tile: Tile<N>)
    requires
        before.section.wf(),
        before.section.tiles().len() < usize::MAX,
    ensures
        ({
            let section = before.section;
            let count = section.tiles().len() as int;
            let after = before.add_tile_at(options, count as usize, tile, true).section;
            &&& after.wf()
            &&& after.tiles() == section.tiles().push(section.adopted(options.layout, tile))
            &&& after.active_leaf_idx() == count
        }),
{
    reveal(Work::add_tile_at);
    let section = before.section;
    let count = section.tiles().len() as usize;
    let tile = section.adopted(options.layout, tile);
    lemma_section_tiles(section, options.layout);
    lemma_wf_is_sane(section.root);
    lemma_leaf_paths(section.root);
    let (root, row) = section.root_with_row(options.layout, count, tile, true);
    lemma_row(section, options.layout, count, tile, true);
    assert(root.active_idx() == row);
    let before_row = Tree::forest_leaves(root->children, row as int).len() as int;
    if section.root.is_main_split() {
        assert(Tree::forest_leaves(root->children, 0) =~= Seq::empty());
        assert(Tree::forest_leaves(root->children, 1) =~= section.root.leaves());
    } else {
        crate::tree_simplify::lemma_forest_prefix(
            section.root->children,
            root->children,
            row as int,
        );
    }
    assert(before_row == count);
    let added = SectionView {
        root,
        props: if section.root.is_tabbed() {
            section.props
        } else {
            SectionProps {
                is_pending_fullscreen: false,
                is_pending_maximized: false,
                ..section.props
            }
        },
    };
    lemma_with_sizes(added, options);
    lemma_active_leaf_idx(root);
    lemma_wf_is_sane(root);
    lemma_leaf_paths(root);
    lemma_leaves_before_leaf(root, root.active_leaf_idx() as int);
    assert(root->children[row as int].active_path() =~= Seq::empty());
    assert(root.active_path() =~= seq![row]);
    assert(seq![row].skip(1) =~= Seq::<usize>::empty());
    assert(root->children[row as int].leaves_before_node(seq![row].skip(1)) == 0);
    assert(section.tiles().insert(count as int, tile) =~= section.tiles().push(tile));
}

/// Taking out the only tile of the active section, with a previous one to go back to, leaves the
/// other sections, with the previous one active.
#[verifier::spinoff_prover]
proof fn lemma_gone<N: Scalar>(
    space: SpaceView<N>,
    col: int,
    transaction: u64,
    kind: Option<AnimationKind>,
)
    requires
        0 < col < space.sections.len(),
        space.props.active_section_idx == col,
        space.sections[col].tiles().len() == 1,
        space.props.activate_prev_section_on_removal is Some,
    ensures
        ({
            let after = space.remove_tile_by_idx(col, 0, transaction, kind);
            &&& after.sections.len() == space.sections.len() - 1
            &&& after.props.active_section_idx == col - 1
            &&& after.options == space.options
            &&& forall|j: int|
                0 <= j < after.sections.len() ==> {
                    let had = space.sections[if j < col {
                        j
                    } else {
                        j + 1
                    }];
                    let has = #[trigger] after.sections[j];
                    &&& has.root == had.root
                    &&& has.props.pending_split_direction == had.props.pending_split_direction
                    &&& has.props.view_size == had.props.view_size
                    &&& has.props.scale == had.props.scale
                }
        }),
{
    reveal(SpaceView::remove_tile_by_idx);
    let move_kind = crate::space_add::kind_or(kind, AnimationKind::WindowMovement);
    let taken = space.section_taken(col, move_kind);
    assert forall|j: int| 0 <= j < taken.sections.len() implies {
        let had = space.sections[if j < col {
            j
        } else {
            j + 1
        }];
        let has = #[trigger] taken.sections[j];
        &&& has.root == had.root
        &&& has.props.pending_split_direction == had.props.pending_split_direction
        &&& has.props.view_size == had.props.view_size
        &&& has.props.scale == had.props.scale
    } by {}
    let after = space.remove_tile_by_idx(col, 0, transaction, kind);
    assert(after.sections == taken.sections);
}

/// Adding a tile behind all others of the active section, and activating it.
proof fn lemma_joined<N: Scalar>(space: SpaceView<N>, tile: Tile<N>)
    requires
        space.props.active_section_idx < space.sections.len(),
        space.active().wf(),
        space.active().tiles().len() < usize::MAX,
        space.active().props.pending_split_direction is None,
    ensures
        ({
            let col = space.props.active_section_idx as int;
            let after = space.add_tile_to_section(col as usize, None, tile, true);
            let had = space.sections[col];
            let has = after.sections[col];
            &&& after.sections.len() == space.sections.len()
            &&& after.props.active_section_idx == col
            &&& after.options == space.options
            &&& has.wf()
            &&& has.tiles() == had.tiles().push(had.adopted(space.layout(), tile))
            &&& has.active_leaf_idx() == had.tiles().len()
            &&& forall|j: int|
                0 <= j < after.sections.len() && j != col ==> (#[trigger] after.sections[j]).root
                    == space.sections[j].root
        }),
{
    reveal(SpaceView::add_tile_to_section);
    reveal(SpaceView::with_row);
    let col = space.props.active_section_idx as int;
    let bare = space.active().with_pending_split(None);
    lemma_last_row(Work { section: bare, out: space.out }, space.options, tile);
}

/// What a window that was alone in the active section leads to when it is moved into the section
/// before it.
#[verifier::spinoff_prover]
proof fn lemma_consumed_left<N: Scalar>(space: SpaceView<N>)
    requires
        space.wf(),
        space.sections.len() > 0,
        space.props.active_section_idx > 0,
        space.active().tiles().len() == 1,
        space.sections[space.props.active_section_idx - 1].tiles().len() < usize::MAX,
        space.sections[space.props.active_section_idx
            - 1].props.pending_split_direction is None,
    ensures
        ({
            let col = space.props.active_section_idx as int;
            let after = space.consumed_left(col);
            let had = space.sections[col - 1];
            let has = after.sections[col - 1];
            &&& after.sections.len() == space.sections.len() - 1
            &&& after.props.active_section_idx == col - 1
            &&& has.wf()
            &&& has.tiles() == had.tiles().push(
                had.adopted(space.layout(), space.active().tiles()[0]),
            )
            &&& has.active_leaf_idx() == had.tiles().len()
            &&& forall|j: int|
                0 <= j < after.sections.len() && j != col - 1 ==> (
                #[trigger] after.sections[j]).root == space.sections[if j < col {
                    j
                } else {
                    j + 1
                }].root
        }),
{
    let col = space.props.active_section_idx as int;
    let target = space.sections[col - 1];
    assert(target.wf() && space.sections[col].wf());
    lemma_active_leaf_idx(space.sections[col].root);
    let tile = space.sections[col].tiles()[0];
    let main_delta = space.section_pos(col) - space.section_pos(col - 1);
    let noted = if space.props.activate_prev_section_on_removal is None {
        space.with_prev_offset(
            Some(space.props.view_offset.spec_stationary() + main_delta),
        )
    } else {
        space
    };
    let told = SpaceView { out: noted.out.with_transaction(), ..noted };
    lemma_gone(
        told,
        col,
        noted.out.next_transaction(),
        Some(AnimationKind::WindowMovement),
    );
    let gone = noted.taken(col, 0, Some(AnimationKind::WindowMovement));
    assert(gone.sections[col - 1].root == target.root);
    lemma_joined(gone, tile);
    let joined = gone.add_tile_to_section((col - 1) as usize, None, tile, true);
    let after = space.consumed_left(col);
    assert(after.sections == joined.sections && after.props == joined.props);
    assert forall|j: int| 0 <= j < after.sections.len() && j != col - 1 implies (
    #[trigger] after.sections[j]).root == space.sections[if j < col {
        j
    } else {
        j + 1
    }].root by {
        assert(gone.sections[j].root == told.sections[if j < col {
            j
        } else {
            j + 1
        }].root);
    }
}

/// Putting in a section changes the tree of none.
#[verifier::spinoff_prover]
proof fn lemma_put_in<N: Scalar>(
    space: SpaceView<N>,
    at: int,
    section: SectionView<N>,
    activate: bool,
    kind: Option<AnimationKind>,
)
    requires
        0 <= at <= space.sections.len(),
        at <= usize::MAX,
    ensures
        ({
            let after = space.with_inserted(at, section, activate, kind);
            &&& after.sections.len() == space.sections.len() + 1
            &&& activate ==> after.props.active_section_idx == at
            &&& after.sections[at].root == section.root
            &&& forall|j: int|
                0 <= j < after.sections.len() && j != at ==> (#[trigger] after.sections[j]).root
                    == space.sections[if j < at {
                    j
                } else {
                    j - 1
                }].root
        }),
{
    reveal(SpaceView::with_inserted);
}

/// A tile in a section of its own at a place: the other sections move apart for it.
#[verifier::spinoff_prover]
pub proof fn lemma_own_section<N: Scalar>(
    space: SpaceView<N>,
    at: usize,
    tile: Tile<N>,
    activate: bool,
    width: SectionWidth<N>,
    is_full_width: bool,
    kind: Option<AnimationKind>,
)
    requires
        at <= space.sections.len(),
    ensures
        ({
            let after = space.add_tile(Some(at), tile, activate, width, is_full_width, kind);
            &&& after.sections.len() == space.sections.len() + 1
            &&& activate ==> after.props.active_section_idx == at
            &&& after.sections[at as int].wf()
            &&& ids(after.sections[at as int].tiles()) == seq![tile.id]
            &&& forall|j: int|
                0 <= j < after.sections.len() && j != at ==> (#[trigger] after.sections[j]).root
                    == space.sections[if j < at {
                    j
                } else {
                    j - 1
                }].root
        }),
{
    reveal(SpaceView::add_tile);
    reveal(SpaceView::with_own_section);
    lemma_made(space.out, space.options, tile, space.place(), width, is_full_width);
    let made = Work::new_with_tile(
        space.out,
        space.options,
        tile,
        space.place(),
        width,
        is_full_width,
    );
    lemma_told(made, space.options, space.options, space.place());
    let told = made.update_config(space.options, space.options, space.place());
    lemma_put_in(
        SpaceView { out: told.out, ..space },
        at as int,
        told.section,
        activate,
        kind,
    );
}

/// What the active window of a section with others leads to when it is moved to a section of its
/// own after it.
#[verifier::spinoff_prover]
proof fn lemma_expelled_right<N: Scalar>(space: SpaceView<N>, col: int, idx: usize)
    requires
        0 <= col < space.sections.len() < usize::MAX,
        space.sections[col].wf(),
        space.sections[col].tiles().len() > 1,
        idx < space.sections[col].tiles().len(),
        space.props.active_section_idx == col,
        space.sections[col].active_leaf_idx() == idx,
    ensures
        ({
            let after = space.expelled_right(col, idx);
            let had = space.sections[col];
            &&& after.sections.len() == space.sections.len() + 1
            &&& after.props.active_section_idx == col + 1
            &&& after.sections[col].tiles() == had.tiles().remove(idx as int)
            &&& after.sections[col + 1].wf()
            &&& ids(after.sections[col + 1].tiles()) == seq![had.tiles()[idx as int].id]
            &&& forall|j: int|
                0 <= j < after.sections.len() && j != col && j != col + 1 ==> (
                #[trigger] after.sections[j]).root == space.sections[if j < col {
                    j
                } else {
                    j - 1
                }].root
        }),
{
    reveal(SpaceView::remove_tile_by_idx);
    let had = space.sections[col];
    let told = SpaceView { out: space.out.with_transaction(), ..space };
    lemma_take_tile(
        told.at(col),
        space.options,
        idx,
        space.out.next_transaction(),
        AnimationKind::WindowMovement,
    );
    let gone = space.taken(col, idx, None);
    assert(gone.sections.len() == space.sections.len());
    assert(gone.sections[col].tiles() == had.tiles().remove(idx as int));
    assert(gone.props.active_section_idx == col);
    let removed = removed_from(had, idx as int);
    lemma_own_section(
        gone,
        (col + 1) as usize,
        removed.tile,
        true,
        removed.width,
        removed.is_full_width,
        Some(AnimationKind::WindowMovement),
    );
}

/// Moving a window that was alone in its section into the section before it, and then right again,
/// gives every section the windows that it had, in their order, with that window active; unless
/// the section before waits for a window to split with.
#[verifier::spinoff_prover]
pub proof fn law_expelling_undoes_consuming<N: Scalar>(space: SpaceView<N>)
    requires
        space.wf(),
        space.has_room(),
        space.sections.len() > 0,
        space.props.active_section_idx > 0,
        space.active().tiles().len() == 1,
        space.sections[space.props.active_section_idx
            - 1].props.pending_split_direction is None,
    ensures
        ({
            let after = space.consume_or_expel_left(None).consume_or_expel_right(None);
            &&& after.sections.len() == space.sections.len()
            &&& forall|j: int|
                0 <= j < space.sections.len() ==> ids((#[trigger] after.sections[j]).tiles())
                    == ids(space.sections[j].tiles())
            &&& after.props.active_section_idx == space.props.active_section_idx
            &&& after.active().root.active_leaf().id == space.active().root.active_leaf().id
        }),
{
    let col = space.props.active_section_idx as int;
    let once = space.consume_or_expel_left(None);
    let had = space.sections[col - 1];
    assert(had.wf() && space.sections[col].wf());
    lemma_active_leaf_idx(had.root);
    lemma_active_leaf_idx(space.sections[col].root);
    lemma_consumed_left(space);
    let idx = had.tiles().len() as usize;
    lemma_expelled_right(once, col - 1, idx);
    let twice = once.consume_or_expel_right(None);
    let window = space.active().tiles()[0].id;
    assert(once.sections[col - 1].tiles().remove(idx as int) =~= had.tiles());
    assert(ids(space.sections[col].tiles()) =~= seq![window]);
    lemma_active_leaf_idx(twice.sections[col].root);
    assert(ids(twice.sections[col].tiles())[0] == window);
    assert(twice.sections[col].tiles()[0].id == window);
    assert forall|j: int| 0 <= j < space.sections.len() implies ids(
        (#[trigger] twice.sections[j]).tiles(),
    ) == ids(space.sections[j].tiles()) by {
        if j < col - 1 {
            assert(twice.sections[j].root == once.sections[j].root);
        } else if j > col {
            assert(twice.sections[j].root == once.sections[j - 1].root);
        }
    }
}

} // verus!
