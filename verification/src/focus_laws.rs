//! Which way focus and what is focused go.
use vstd::prelude::*;

use crate::config::{ConfigureIntent, LayoutOptions, Options, SplitAxis};
use crate::scalar::Scalar;
use crate::section::SectionView;
use crate::section_edit::{
    focused_index, lemma_children_within, lemma_sibling, lemma_swapped_count, lemma_swapped_wf,
};
use crate::section_size::{lemma_with_sizes, Work};
use crate::space::SpaceView;
use crate::space_focus::index_within;
use crate::space_window::{intent_upto, RefreshState};
use crate::tile::Tile;
use crate::tile_node::Tree;
use crate::tree_edit::lemma_activated_path;
use crate::tree_walk::{lemma_active_path, lemma_node_split, lemma_node_wf};

verus! {

/// Focus that leaves a section goes to the section after it, or, backwards, to the one before it,
/// and stays where there is none.
pub proof fn law_focus_goes_on_to_the_next_section<N: Scalar>(space: SpaceView<N>, forwards: bool)
    requires
        space.wf(),
        space.sections.len() > 0,
        !space.can_focus_inside(SplitAxis::Main, forwards),
    ensures
        ({
            let active = space.props.active_section_idx as int;
            let after = space.focus_along_main(forwards);
            let next = if forwards {
                active + 1
            } else {
                active - 1
            };
            if 0 <= next < space.sections.len() {
                after.props.active_section_idx == next && after.sections == space.sections
            } else {
                after == space
            }
        }),
{
}

/// Whether a path goes one place on from another one, or back, among the children of one node that
/// are arranged along an axis.
pub open spec fn is_beside<N>(
    tree: Tree<N>,
    from: Seq<usize>,
    to: Seq<usize>,
    axis: SplitAxis,
    forwards: bool,
    k: int,
) -> bool {
    &&& 0 <= k < from.len()
    &&& k < to.len()
    &&& to.take(k) == from.take(k)
    &&& tree.node(from.take(k)).layout() is Some
    &&& tree.node(from.take(k)).layout()->0.arranges_along(axis)
    &&& to[k] == if forwards {
        from[k] + 1
    } else {
        from[k] - 1
    }
}

/// Focus that moves inside of a section along an axis goes one place on, or back, among windows or
/// groups of windows that are arranged along that axis, and there to the window that is active.
pub proof fn law_focus_goes_one_place_on<N: Scalar>(
    before: Work<N>,
    axis: SplitAxis,
    forwards: bool,
)
    requires
        before.section.wf(),
        before.section.root.focus_target(axis, forwards) is Some,
    ensures
        ({
            let root = before.section.root;
            let after = before.focus_in_axis(axis, forwards).section.root;
            &&& exists|k: int|
                #[trigger] is_beside(root, root.active_path(), after.active_path(), axis, forwards, k)
            &&& after.leaves().len() == root.leaves().len()
        }),
{
    let root = before.section.root;
    let path = root.active_path();
    lemma_active_path(root);
    lemma_sibling(root, path, axis, forwards, path.len() as int);
    lemma_along(root, path, axis, forwards, path.len() as int);
    let (k, sibling) = root.sibling_along(path, axis, forwards, path.len() as int)->0;
    let head = path.take(k).push(sibling);
    lemma_children_within(root, path.take(k));
    lemma_node_wf(root, head);
    lemma_active_path(root.node(head));
    lemma_node_split(root, head, root.node(head).active_path());
    let target = head + root.node(head).active_path();
    lemma_activated_path(root, target);
    crate::tree_edit::lemma_activated_leaves(root, target);
    assert(target.take(k) =~= path.take(k));
    assert(target[k] == sibling);
    let after = before.focus_in_axis(axis, forwards).section.root;
    assert(is_beside(root, path, after.active_path(), axis, forwards, k));
}

/// A sibling that is found is next to the node, among children along the axis.
proof fn lemma_along<N: Scalar>(
    tree: Tree<N>,
    path: Seq<usize>,
    axis: SplitAxis,
    forwards: bool,
    upto: int,
)
    requires
        0 <= upto <= path.len(),
        tree.leaves().len() <= usize::MAX,
    ensures
        tree.sibling_along(path, axis, forwards, upto) matches Some((k, sibling)) ==> {
            &&& 0 <= k < upto
            &&& tree.node(path.take(k)).layout() is Some
            &&& tree.node(path.take(k)).layout()->0.arranges_along(axis)
            &&& 0 <= path[k] + (if forwards {
                1int
            } else {
                -1int
            }) < tree.node(path.take(k)).child_count()
            &&& sibling == (path[k] + (if forwards {
                1int
            } else {
                -1int
            })) as usize
        },
    decreases upto,
{
    if upto > 0 {
        lemma_along(tree, path, axis, forwards, upto - 1);
    }
}

/// Moving the active tab takes it one place on, or back, and it stays the active one.
pub proof fn law_tab_moves_one_place_on<N: Scalar>(
    before: Work<N>,
    options: Options<N>,
    forwards: bool,
)
    requires
        before.section.wf(),
        before.section.root.is_tabbed(),
    ensures
        ({
            let root = before.section.root;
            let after = before.move_tab(options, forwards).section;
            let active = root.active_idx() as int;
            let next = if forwards {
                active + 1
            } else {
                active - 1
            };
            if 0 <= next < root.child_count() {
                &&& after.root.active_idx() == next
                &&& after.root.active_leaf() == root.active_leaf()
            } else {
                after == before.section
            }
        }),
{
    let root = before.section.root;
    let active = root.active_idx() as int;
    let beside = before.section.tab_beside(forwards);
    if beside != active {
        lemma_swapped_wf(root, active, beside as int, beside);
        lemma_swapped_count(root, active, beside as int, beside);
        let swapped = root.with_swapped(active, beside as int).with_active_idx(beside);
        lemma_with_sizes(before.section.with_root(swapped), options);
        assert(swapped->children[beside as int] == root->children[active]);
    }
}

/// Numbers of sections and windows count from one, and those past the end stand for the last.
pub proof fn law_numbers_count_from_one(index: usize, number: u8, count: int)
    requires
        0 < count <= usize::MAX,
    ensures
        1 <= index <= count ==> index_within(index, count) == index - 1,
        index > count ==> index_within(index, count) == count - 1,
        index_within(0, count) == 0,
        1 <= number <= count ==> focused_index(number, count) == number - 1,
        number > count ==> focused_index(number, count) == count - 1,
        focused_index(0, count) == 0,
{
}

/// Windows that are told of their state together are told at once if any of them should be; else
/// they wait if any of them has to; else they are told if any of them can be.
pub proof fn law_windows_wait_for_each_other<N>(tiles: Seq<Tile<N>>, upto: int)
    requires
        0 <= upto <= tiles.len(),
    ensures
        ({
            let any = |intent: ConfigureIntent|
                exists|i: int| 0 <= i < upto && (#[trigger] tiles[i]).configure_intent == intent;
            let joint = intent_upto(tiles, upto);
            &&& joint == ConfigureIntent::ShouldSend <==> any(ConfigureIntent::ShouldSend)
            &&& joint == ConfigureIntent::Throttled <==> !any(ConfigureIntent::ShouldSend) && any(
                ConfigureIntent::Throttled,
            )
            &&& joint == ConfigureIntent::CanSend <==> !any(ConfigureIntent::ShouldSend) && !any(
                ConfigureIntent::Throttled,
            ) && any(ConfigureIntent::CanSend)
        }),
    decreases upto,
{
    if upto > 0 {
        law_windows_wait_for_each_other(tiles, upto - 1);
        let last = tiles[upto - 1].configure_intent;
        assert forall|intent: ConfigureIntent|
            #![trigger has_intent(tiles, upto, intent)]
            has_intent(tiles, upto, intent) == (has_intent(tiles, upto - 1, intent) || last
                == intent) by {
            if has_intent(tiles, upto - 1, intent) {
                let i = choose|i: int|
                    0 <= i < upto - 1 && (#[trigger] tiles[i]).configure_intent == intent;
                assert(tiles[i].configure_intent == intent);
            }
            if last == intent {
                assert(tiles[upto - 1].configure_intent == intent);
            }
            if has_intent(tiles, upto, intent) {
                let i = choose|i: int|
                    0 <= i < upto && (#[trigger] tiles[i]).configure_intent == intent;
                assert(i < upto - 1 || i == upto - 1);
            }
        }
        assert(has_intent(tiles, upto, ConfigureIntent::ShouldSend) == (has_intent(
            tiles,
            upto - 1,
            ConfigureIntent::ShouldSend,
        ) || last == ConfigureIntent::ShouldSend));
        assert(has_intent(tiles, upto, ConfigureIntent::Throttled) == (has_intent(
            tiles,
            upto - 1,
            ConfigureIntent::Throttled,
        ) || last == ConfigureIntent::Throttled));
        assert(has_intent(tiles, upto, ConfigureIntent::CanSend) == (has_intent(
            tiles,
            upto - 1,
            ConfigureIntent::CanSend,
        ) || last == ConfigureIntent::CanSend));
    }
}

spec fn has_intent<N>(tiles: Seq<Tile<N>>, upto: int, intent: ConfigureIntent) -> bool {
    exists|i: int| 0 <= i < upto && (#[trigger] tiles[i]).configure_intent == intent
}

/// Only windows of an active section are told to look active. The active window of it does, unless
/// it is to look so only with the focus and has not got it; then no other does either.
pub proof fn law_active_window_looks_active<N: Scalar>(
    section: SectionView<N>,
    layout: LayoutOptions<N>,
    state: RefreshState<N>,
    i: int,
)
    ensures
        section.is_tile_activated(layout, state, i) ==> state.is_active,
        state.is_active && state.is_focused && i == section.active_leaf_idx()
            ==> section.is_tile_activated(layout, state, i),
        layout.deactivate_unfocused_windows && section.is_tile_activated(layout, state, i)
            ==> state.is_focused && i == section.active_leaf_idx(),
        !section.root.is_tabbed() && section.is_tile_activated(layout, state, i) ==> i
            == section.active_leaf_idx(),
{
}

} // verus!
