//! Swapping windows, and reaching tiles by their place.
use vstd::prelude::*;

use crate::animation::AnimationKind;
use crate::config::{ScrollDirection, SplitAxis};
use crate::geometry::Point;
use crate::scalar::Scalar;
use crate::section::{lemma_section_tiles, lemma_window_position, Section, SectionView};
use crate::section_edit::{lemma_replaced_leaves, step};
use crate::section_laws::law_swapping_leaves_exchanges_tiles;
use crate::section_size::{lemma_with_sizes, Work};
use crate::space::{lemma_after_wf, lemma_in_step, ScrollingSpace, SpaceView};
use crate::space_add::gained;
use crate::space_moves::lemma_room_after_gain;
use crate::space_remove::{lost, lost_section, removed_from};
use crate::space_undo::lemma_own_section;
use crate::tile::{OutboxView, Tile, TileEffect};
use crate::tile_node::{TileNode, Tree};
use crate::tree_edit::{
    lemma_activated_leaves, lemma_activated_path, lemma_leaf_swap_keeps_paths,
};
use crate::tree_walk::{lemma_leaf_paths, lemma_wf_is_sane, lemma_with_node_wf};
use crate::windows::{
    bag, ids, keeps_windows, lemma_bag_contains, lemma_bag_insert, lemma_bag_remove,
    lemma_bag_single, lemma_bag_update, lemma_windows_update, windows_of,
};

verus! {

/// Which way a direction goes along the sections.
pub open spec fn goes_forwards(direction: ScrollDirection) -> bool {
    direction == ScrollDirection::Right
}

impl<N: Scalar> SectionView<N> {
    /// The section with another tile in the place of a leaf.
    pub open spec fn with_tile_at(self, idx: int, tile: Tile<N>) -> Self {
        self.with_root(self.root.with_node(self.root.leaf_paths()[idx], Tree::Leaf(tile)))
    }
}

/// Another tile in the place of a leaf leaves the section in order.
pub proof fn lemma_with_tile_at<N: Scalar>(section: SectionView<N>, idx: int, tile: Tile<N>)
    requires
        section.wf(),
        0 <= idx < section.tiles().len(),
    ensures
        section.with_tile_at(idx, tile).wf(),
        section.with_tile_at(idx, tile).tiles() == section.tiles().update(idx, tile),
        section.with_tile_at(idx, tile).root.leaf_paths() == section.root.leaf_paths(),
        section.with_tile_at(idx, tile).props == section.props,
{
    let path = section.root.leaf_paths()[idx];
    lemma_wf_is_sane(section.root);
    lemma_leaf_paths(section.root);
    lemma_replaced_leaves(section.root, idx, tile);
    lemma_with_node_wf(section.root, path, Tree::Leaf(tile));
    lemma_leaf_swap_keeps_paths(section.root, path, tile);
    assert(path.len() > 0);
}

impl<N: Scalar> SpaceView<N> {
    /// The place of a tile on the whole, moved along with its section.
    pub open spec fn tile_point(self, col: int, tile: usize) -> Point<N> {
        let section = self.sections[col];
        let at = section.render_offset() + section.tile_offset(self.layout(), tile as int);
        Point { x: at.x + self.section_pos(col), y: at.y }
    }

    /// The windows of two sections exchanged, before any is activated.
    pub open spec fn windows_exchanged(self, source: int, target: int) -> Self {
        let source_tile = self.sections[source].active_leaf_idx();
        let target_tile = self.sections[target].active_leaf_idx();
        let target_window = self.sections[target].tiles()[target_tile as int].id;
        let removed = removed_from(self.sections[source], source_tile as int);
        let drained = self.sections[source].tiles().len() == 1;
        let transaction = self.out.next_transaction();
        let adjusted = if source < target && drained {
            target - 1
        } else {
            target
        };
        let gone = SpaceView { out: self.out.with_transaction(), ..self }.remove_tile_by_idx(
            source,
            source_tile,
            transaction,
            None,
        );
        let joined = gone.add_tile_to_section(
            adjusted as usize,
            Some(target_tile),
            removed.tile,
            false,
        );
        let flat = joined.sections[adjusted].position(target_window)->0;
        let other = joined.sections[adjusted].tiles()[flat as int];
        let parted = joined.remove_tile_by_idx(adjusted, flat, transaction, None);
        if drained {
            parted.add_tile(
                Some(source as usize),
                other,
                true,
                removed.width,
                removed.is_full_width,
                None,
            )
        } else {
            parted.add_tile_to_section(source as usize, Some(source_tile), other, false)
        }
    }

    /// A window of a section activated, where it is there.
    pub open spec fn window_activated(self, col: int, window: u64) -> Self {
        match self.sections[col].position(window) {
            Some(idx) => self.after(col, self.at(col).activate_idx(idx)),
            None => self,
        }
    }

    /// Something asked of a window of a section, where it is there.
    pub open spec fn asked(self, col: int, window: u64, effects: Seq<TileEffect<N>>) -> Self {
        if self.sections[col].contains(window) {
            SpaceView {
                out: OutboxView {
                    effects: self.out.effects + Seq::new(
                        effects.len(),
                        |i: int| (window, effects[i]),
                    ),
                    ..self.out
                },
                ..self
            }
        } else {
            self
        }
    }

    /// The active windows of two sections swapped: each takes the place of the other, and is the
    /// active one there.
    pub open spec fn sections_swapped(self, source: int, target: int) -> Self {
        let source_tile = self.sections[source].active_leaf_idx();
        let target_tile = self.sections[target].active_leaf_idx();
        let source_window = self.sections[source].tiles()[source_tile as int].id;
        let target_window = self.sections[target].tiles()[target_tile as int].id;
        let source_pt = self.tile_point(source, source_tile);
        let target_pt = self.tile_point(target, target_tile);
        self.windows_exchanged(source, target).window_activated(
            source,
            target_window,
        ).window_activated(target, source_window).asked(
            target,
            source_window,
            seq![
                TileEffect::AnimateMoveFrom { delta: source_pt - target_pt },
                TileEffect::EnsureAlphaAnimatesTo1,
            ],
        ).asked(
            source,
            target_window,
            seq![
                TileEffect::StopMoveAnimations,
                TileEffect::AnimateMoveFrom { delta: target_pt - source_pt },
                TileEffect::EnsureAlphaAnimatesTo1,
            ],
        ).activated(target as usize, AnimationKind::HorizontalViewMovement)
    }

    /// Whether what is active has a sibling along the main axis.
    pub open spec fn can_swap_inside(self, forwards: bool) -> bool {
        let root = self.active().root;
        let path = root.active_path();
        root.sibling_along(path, SplitAxis::Main, forwards, path.len() as int) is Some
    }

    /// The active window swapped in a direction: with its sibling in the section first, and then
    /// with the active window of the next section.
    pub open spec fn swap_window(self, forwards: bool) -> Self {
        let active = self.props.active_section_idx as int;
        let target = active + step(forwards);
        if self.sections.len() == 0 {
            self
        } else if self.can_swap_inside(forwards) {
            self.after(
                active,
                self.at(active).swap_in_axis(self.options, SplitAxis::Main, forwards),
            )
        } else if !self.has_neighbor(forwards) {
            self
        } else if self.active().tiles().len() == 1 && self.sections[target].tiles().len() == 1 {
            self.move_section_to(target)
        } else {
            self.sections_swapped(active, target)
        }
    }

    /// The place of a window.
    pub open spec fn position_of(self, window: u64) -> Option<(usize, usize)> {
        match self.section_of(window) {
            Some(col) => Some((col, self.sections[col as int].position(window)->0)),
            None => None,
        }
    }

    pub open spec fn has_tile(self, at: (usize, usize)) -> bool {
        at.0 < self.sections.len() && at.1 < self.sections[at.0 as int].tiles().len()
    }

    /// Tiles of two sections in the place of each other.
    pub open spec fn tiles_exchanged(self, a: (usize, usize), b: (usize, usize)) -> Self {
        let a_tile = self.sections[a.0 as int].tiles()[a.1 as int];
        let b_tile = self.sections[b.0 as int].tiles()[b.1 as int];
        SpaceView {
            sections: self.sections.update(
                a.0 as int,
                self.sections[a.0 as int].with_tile_at(a.1 as int, b_tile),
            ).update(b.0 as int, self.sections[b.0 as int].with_tile_at(b.1 as int, a_tile)),
            ..self
        }
    }

    pub open spec fn section_sized(self, col: int, animate: bool) -> Self {
        self.after(col, self.at(col).sized(self.options, animate))
    }

    pub open spec fn section_moved_from(self, col: int, prev: Seq<(u64, Point<N>)>) -> Self {
        self.after(col, self.at(col).moved_from(self.layout(), prev))
    }

    /// Tiles of two sections swapped, each resized to its new place.
    pub open spec fn swapped_across(self, lo: (usize, usize), hi: (usize, usize)) -> Self {
        let prev_lo = self.sections[lo.0 as int].positions_by_id(self.layout());
        let prev_hi = self.sections[hi.0 as int].positions_by_id(self.layout());
        self.tiles_exchanged(lo, hi).section_sized(lo.0 as int, true).section_sized(
            hi.0 as int,
            true,
        ).section_moved_from(lo.0 as int, prev_lo).section_moved_from(hi.0 as int, prev_hi)
    }

    pub open spec fn swap_tiles(self, a: (usize, usize), b: (usize, usize)) -> Self {
        if a.0 >= self.sections.len() || b.0 >= self.sections.len() {
            self
        } else if a.0 == b.0 {
            self.after(a.0 as int, self.at(a.0 as int).swap_leaves(self.options, a.1, b.1))
        } else if !self.has_tile(a) || !self.has_tile(b) {
            self
        } else if a.0 < b.0 {
            self.swapped_across(a, b)
        } else {
            self.swapped_across(b, a)
        }
    }
}

/// Whether two sections have exchanged the windows `given` and `got`: the first has the second
/// window in place of the first one, and the other way round. All other sections have the windows
/// that they had.
#[verifier::opaque]
pub open spec fn traded<N: Scalar>(
    had: SpaceView<N>,
    has: SpaceView<N>,
    source: int,
    target: int,
    given: u64,
    got: u64,
) -> bool {
    &&& has.sections.len() == had.sections.len()
    &&& has.sections[source].windows().insert(given) == had.sections[source].windows().insert(got)
    &&& has.sections[target].windows().insert(got) == had.sections[target].windows().insert(given)
    &&& forall|j: int|
        0 <= j < had.sections.len() && j != source && j != target ==> (
        #[trigger] has.sections[j]).windows() == had.sections[j].windows()
}

impl<N: Scalar> SpaceView<N> {
    /// Whether the active window is swapped with that of the next section, and not with a sibling
    /// in its own one; and not both of them are alone, in which case the sections change places.
    pub open spec fn swaps_across(self, forwards: bool) -> bool {
        &&& self.sections.len() > 0
        &&& !self.can_swap_inside(forwards)
        &&& self.has_neighbor(forwards)
        &&& !(self.active().tiles().len() == 1
            && self.sections[self.props.active_section_idx + step(forwards)].tiles().len() == 1)
    }
}

/// Whether the active windows of two sections have changed places: each section has the window of
/// the other in place of its own, as the active one, and the focus went along with the window of
/// the first.
pub open spec fn active_windows_swapped<N: Scalar>(
    had: SpaceView<N>,
    has: SpaceView<N>,
    source: int,
    target: int,
) -> bool {
    let given = had.sections[source].root.active_leaf().id;
    let got = had.sections[target].root.active_leaf().id;
    &&& traded(had, has, source, target, given, got)
    &&& has.sections[source].root.active_leaf().id == got
    &&& has.sections[target].root.active_leaf().id == given
    &&& has.props.active_section_idx == target
}

/// Swapping two tiles of different sections exchanges them and nothing else: every other place
/// keeps its tile, the trees keep their leaves where they are, and no section comes or goes.
#[verifier::spinoff_prover]
pub proof fn law_swapping_exchanges_tiles<N: Scalar>(
    space: SpaceView<N>,
    a: (usize, usize),
    b: (usize, usize),
)
    requires
        space.wf(),
        space.has_tile(a),
        space.has_tile(b),
        a.0 != b.0,
    ensures
        ({
            let after = space.swap_tiles(a, b);
            let a_tile = space.sections[a.0 as int].tiles()[a.1 as int];
            let b_tile = space.sections[b.0 as int].tiles()[b.1 as int];
            &&& after.sections.len() == space.sections.len()
            &&& after.props == space.props
            &&& after.sections[a.0 as int].tiles() == space.sections[a.0 as int].tiles().update(
                a.1 as int,
                b_tile,
            )
            &&& after.sections[b.0 as int].tiles() == space.sections[b.0 as int].tiles().update(
                b.1 as int,
                a_tile,
            )
            &&& after.sections[a.0 as int].root.leaf_paths() == space.sections[a.0 as int].root.leaf_paths()
            &&& after.sections[b.0 as int].root.leaf_paths() == space.sections[b.0 as int].root.leaf_paths()
            &&& forall|i: int|
                0 <= i < space.sections.len() && i != a.0 && i != b.0 ==> after.sections[i]
                    == #[trigger] space.sections[i]
        }),
{
    let lo = if a.0 < b.0 {
        a
    } else {
        b
    };
    let hi = if a.0 < b.0 {
        b
    } else {
        a
    };
    let l = lo.0 as int;
    let h = hi.0 as int;
    let l_tile = space.sections[l].tiles()[lo.1 as int];
    let h_tile = space.sections[h].tiles()[hi.1 as int];
    assert(space.sections[l].wf() && space.sections[h].wf());
    lemma_with_tile_at(space.sections[l], lo.1 as int, h_tile);
    lemma_with_tile_at(space.sections[h], hi.1 as int, l_tile);
    let exchanged = space.tiles_exchanged(lo, hi);
    lemma_with_sizes(exchanged.sections[l], space.options);
    let sized = exchanged.section_sized(l, true);
    lemma_with_sizes(sized.sections[h], space.options);
}

/// Swapping two tiles of one section exchanges them and nothing else: every other place keeps its
/// tile, the tree keeps its leaves where they are, and no section comes or goes.
#[verifier::spinoff_prover]
pub proof fn law_swapping_within_a_section<N: Scalar>(
    space: SpaceView<N>,
    a: (usize, usize),
    b: (usize, usize),
)
    requires
        space.wf(),
        space.has_tile(a),
        space.has_tile(b),
        a.0 == b.0,
        a.1 != b.1,
    ensures
        ({
            let after = space.swap_tiles(a, b);
            let col = a.0 as int;
            let tiles = space.sections[col].tiles();
            &&& after.sections.len() == space.sections.len()
            &&& after.props == space.props
            &&& after.sections[col].tiles() == tiles.update(a.1 as int, tiles[b.1 as int]).update(
                b.1 as int,
                tiles[a.1 as int],
            )
            &&& after.sections[col].root.leaf_paths() == space.sections[col].root.leaf_paths()
            &&& forall|i: int|
                0 <= i < space.sections.len() && i != col ==> after.sections[i]
                    == #[trigger] space.sections[i]
        }),
{
    assert(space.sections[a.0 as int].wf());
    law_swapping_leaves_exchanges_tiles(space.at(a.0 as int), space.options, a.1, b.1);
}

impl<N: Scalar> Section<N> {
    /// Puts another tile in the place of a leaf.
    pub fn set_tile(&mut self, idx: usize, tile: Tile<N>)
        requires
            old(self)@.wf(),
            idx < old(self)@.tiles().len(),
        ensures
            final(self)@ == old(self)@.with_tile_at(idx as int, tile),
            final(self)@.wf(),
            final(self)@.place() == old(self)@.place(),
            final(self)@.tiles() == old(self)@.tiles().update(idx as int, tile),
    {
        proof {
            lemma_with_tile_at(self@, idx as int, tile);
            lemma_wf_is_sane(self@.root);
            lemma_leaf_paths(self@.root);
        }
        if let Some(path) = self.root.path_for_leaf_index(idx) {
            self.root.set_leaf(&path, tile);
        }
    }
}

/// Exchanging two tiles of different sections keeps the windows of the space.
#[verifier::spinoff_prover]
proof fn lemma_exchanged_windows<N: Scalar>(
    before: SpaceView<N>,
    after: SpaceView<N>,
    a: (usize, usize),
    b: (usize, usize),
)
    requires
        before.has_tile(a),
        before.has_tile(b),
        a.0 != b.0,
        after.sections == before.sections.update(a.0 as int, after.sections[a.0 as int]).update(
            b.0 as int,
            after.sections[b.0 as int],
        ),
        after.sections[a.0 as int].tiles() == before.sections[a.0 as int].tiles().update(
            a.1 as int,
            before.sections[b.0 as int].tiles()[b.1 as int],
        ),
        after.sections[b.0 as int].tiles() == before.sections[b.0 as int].tiles().update(
            b.1 as int,
            before.sections[a.0 as int].tiles()[a.1 as int],
        ),
    ensures
        after.windows() == before.windows(),
{
    let (i, j) = (a.0 as int, b.0 as int);
    let tile_a = before.sections[i].tiles()[a.1 as int];
    let tile_b = before.sections[j].tiles()[b.1 as int];
    let mid = before.sections.update(i, after.sections[i]);
    lemma_windows_update(before.sections, i, after.sections[i]);
    lemma_windows_update(mid, j, after.sections[j]);
    lemma_bag_update(before.sections[i].tiles(), a.1 as int, tile_b);
    lemma_bag_update(before.sections[j].tiles(), b.1 as int, tile_a);
    let x = after.windows();
    let y = before.windows();
    let m = windows_of(mid);
    let (had_a, has_a) = (before.sections[i].windows(), after.sections[i].windows());
    let (had_b, has_b) = (before.sections[j].windows(), after.sections[j].windows());
    assert forall|w: u64| #[trigger] x.count(w) == y.count(w) by {
        assert(m.add(had_a).count(w) == y.add(has_a).count(w));
        assert(x.add(had_b).count(w) == m.add(has_b).count(w));
        assert(has_a.insert(tile_a.id).count(w) == had_a.insert(tile_b.id).count(w));
        assert(has_b.insert(tile_b.id).count(w) == had_b.insert(tile_a.id).count(w));
    }
    assert(x =~= y);
}

impl<N: Scalar> ScrollingSpace<N> {
    fn tile_point(&self, col: usize, tile: usize) -> (r: Point<N>)
        requires
            self@.wf(),
            col < self@.sections.len(),
            tile < self@.sections[col as int].tiles().len(),
        ensures
            r == self@.tile_point(col as int, tile),
    {
        assert(self@.sections[col as int] == self.sections@[col as int]@);
        let section = &self.sections[col];
        let at = section.render_offset().add(section.tile_offset(&self.options.layout, tile));
        Point { x: at.x.add(self.section_main_pos(col)), y: at.y }
    }

    #[verifier::spinoff_prover]
    fn activate_window_in(&mut self, col: usize, window: u64)
        requires
            old(self)@.wf(),
            col < old(self)@.sections.len(),
        ensures
            final(self)@ == old(self)@.window_activated(col as int, window),
            final(self)@.wf(),
            keeps_windows(old(self)@, final(self)@),
            final(self)@.sections.len() == old(self)@.sections.len(),
            old(self)@.sections[col as int].contains(window)
                ==> final(self)@.sections[col as int].root.active_leaf().id == window,
            final(self)@.sections[col as int].tiles() == old(self)@.sections[col as int].tiles(),
            forall|j: int|
                0 <= j < old(self)@.sections.len() && j != col ==> final(self)@.sections[j]
                    == #[trigger] old(self)@.sections[j],
    {
        let ghost before = self@;
        assert(before.sections[col as int] == self.sections@[col as int]@);
        assert(before.sections[col as int].wf());
        proof {
            let section = before.sections[col as int];
            lemma_section_tiles(section, before.layout());
            lemma_window_position(section.tiles(), window, section.tiles().len() as int);
            if let Some(idx) = section.position(window) {
                let path = section.root.leaf_paths()[idx as int];
                lemma_wf_is_sane(section.root);
                lemma_leaf_paths(section.root);
                lemma_activated_path(section.root, path);
                lemma_activated_leaves(section.root, path);
            }
        }
        if let Some(idx) = self.sections[col].position(window) {
            self.sections[col].activate_idx(idx, &mut self.outbox);
            proof {
                let done = before.at(col as int).activate_idx(idx);
                assert(self@ == before.after(col as int, done));
                lemma_after_wf(before, col as int, done);
            }
        }
    }

    #[verifier::spinoff_prover]
    fn ask(&mut self, col: usize, window: u64, effects: &Vec<TileEffect<N>>)
        requires
            old(self)@.wf(),
            col < old(self)@.sections.len(),
        ensures
            final(self)@ == old(self)@.asked(col as int, window, effects@),
            final(self)@.wf(),
            keeps_windows(old(self)@, final(self)@),
            final(self)@.sections == old(self)@.sections,
    {
        let ghost before = self@;
        assert(before.sections[col as int] == self.sections@[col as int]@);
        if !self.sections[col].contains(window) {
            return;
        }
        let ghost asked = Seq::new(effects@.len(), |i: int| (window, effects@[i]));
        let mut i: usize = 0;
        assert(before.out.effects + asked.take(0) =~= before.out.effects);
        while i < effects.len()
            invariant
                i <= effects.len(),
                asked == Seq::new(effects@.len(), |j: int| (window, effects@[j])),
                self@ == (SpaceView {
                    out: OutboxView {
                        effects: before.out.effects + asked.take(i as int),
                        ..before.out
                    },
                    ..before
                }),
            decreases effects.len() - i,
        {
            self.outbox.push(window, effects[i]);
            assert(before.out.effects + asked.take(i + 1) =~= (before.out.effects + asked.take(
                i as int,
            )).push(asked[i as int]));
            i = i + 1;
        }
        assert(asked.take(i as int) =~= asked);
    }

    #[verifier::spinoff_prover]
    #[verifier::rlimit(60)]
    fn exchange_windows(&mut self, source: usize, target: usize)
        requires
            old(self)@.wf(),
            old(self)@.has_room(),
            source < old(self)@.sections.len(),
            target < old(self)@.sections.len(),
            source == target + 1 || target == source + 1,
        ensures
            final(self)@ == old(self)@.windows_exchanged(source as int, target as int),
            final(self)@.wf(),
            keeps_windows(old(self)@, final(self)@),
            final(self)@.sections.len() == old(self)@.sections.len(),
            traded(
                old(self)@,
                final(self)@,
                source as int,
                target as int,
                old(self)@.sections[source as int].root.active_leaf().id,
                old(self)@.sections[target as int].root.active_leaf().id,
            ),
    {
        let ghost before = self@;
        assert(before.sections[source as int] == self.sections@[source as int]@);
        assert(before.sections[target as int] == self.sections@[target as int]@);
        proof {
            crate::tree_walk::lemma_has_leaf(before.sections[source as int].root);
            crate::tree_walk::lemma_has_leaf(before.sections[target as int].root);
        }
        let source_tile: usize = self.sections[source].active_leaf_idx();
        let target_tile: usize = self.sections[target].active_leaf_idx();
        let drained = self.sections[source].tiles_len() == 1;
        let target_window: u64 = self.sections[target].tile(target_tile).id;
        let transaction = self.outbox.begin_transaction();
        let removed = self.remove_tile_by_idx(source, source_tile, transaction, None);
        let ghost gone = self@;
        let adjusted: usize = if source < target && drained {
            target - 1
        } else {
            target
        };
        assert(gone.sections[adjusted as int].tiles() == before.sections[target as int].tiles());
        self.add_tile_to_section(adjusted, Some(target_tile), removed.tile, false);
        let ghost joined = self@;
        proof {
            let tile = gone.sections[adjusted as int].adopted(gone.layout(), removed.tile);
            lemma_room_after_gain(gone, joined, adjusted as int, tile);
            lemma_kept(
                gone.sections[adjusted as int].tiles(),
                joined.sections[adjusted as int].tiles(),
                tile,
                target_tile as int,
            );
            assert(joined.sections[adjusted as int] == self.sections@[adjusted as int]@);
            assert(joined.sections[adjusted as int].contains(target_window));
        }
        let flat: usize = match self.sections[adjusted].position(target_window) {
            Some(flat) => flat,
            None => 0,
        };
        let other = self.remove_tile_by_idx(adjusted, flat, transaction, None);
        let ghost parted = self@;
        proof {
            assert forall|j: int| 0 <= j < parted.sections.len() implies (
            #[trigger] parted.sections[j]).tiles().len() < usize::MAX by {
                assert(gone.sections[j].tiles().len() < usize::MAX);
                if j != adjusted {
                    assert(parted.sections[j].tiles() == joined.sections[j].tiles());
                    assert(joined.sections[j].tiles() == gone.sections[j].tiles());
                }
            }
        }
        if drained {
            self.add_tile(
                Some(source),
                other.tile,
                true,
                removed.width,
                removed.is_full_width,
                None,
            );
        } else {
            self.add_tile_to_section(source, Some(source_tile), other.tile, false);
        }
        proof {
            crate::tree_walk::lemma_active_leaf_idx(before.sections[source as int].root);
            crate::tree_walk::lemma_active_leaf_idx(before.sections[target as int].root);
            if drained {
                lemma_own_section(
                    parted,
                    source,
                    other.tile,
                    true,
                    removed.width,
                    removed.is_full_width,
                    None,
                );
            }
            lemma_traded(
                before,
                gone,
                joined,
                parted,
                self@,
                source as int,
                target as int,
                source_tile as int,
                flat as int,
                gone.sections[adjusted as int].adopted(gone.layout(), removed.tile),
                parted.sections[source as int].adopted(parted.layout(), other.tile),
            );
        }
    }

    #[verifier::spinoff_prover]
    #[verifier::rlimit(60)]
    fn swap_sections(&mut self, source: usize, target: usize)
        requires
            old(self)@.wf(),
            old(self)@.has_room(),
            source < old(self)@.sections.len(),
            target < old(self)@.sections.len(),
            source == target + 1 || target == source + 1,
        ensures
            final(self)@ == old(self)@.sections_swapped(source as int, target as int),
            final(self)@.wf(),
            keeps_windows(old(self)@, final(self)@),
            active_windows_swapped(old(self)@, final(self)@, source as int, target as int),
    {
        let ghost before = self@;
        assert(before.sections[source as int] == self.sections@[source as int]@);
        assert(before.sections[target as int] == self.sections@[target as int]@);
        let source_tile: usize = self.sections[source].active_leaf_idx();
        let target_tile: usize = self.sections[target].active_leaf_idx();
        let source_window: u64 = self.sections[source].tile(source_tile).id;
        let target_window: u64 = self.sections[target].tile(target_tile).id;
        let source_pt = self.tile_point(source, source_tile);
        let target_pt = self.tile_point(target, target_tile);
        self.exchange_windows(source, target);
        proof {
            let has = self@;
            crate::tree_walk::lemma_active_leaf_idx(before.sections[source as int].root);
            crate::tree_walk::lemma_active_leaf_idx(before.sections[target as int].root);
            lemma_traded_contain(
                before,
                has,
                source as int,
                target as int,
                source_window,
                target_window,
            );
        }
        let ghost exchanged = self@;
        self.activate_window_in(source, target_window);
        self.activate_window_in(target, source_window);
        let ghost shown = self@;
        proof {
            assert forall|j: int| 0 <= j < exchanged.sections.len() implies (
            #[trigger] shown.sections[j]).tiles() == exchanged.sections[j].tiles() by {}
            lemma_traded_stays(
                before,
                exchanged,
                shown,
                source as int,
                target as int,
                source_window,
                target_window,
            );
        }
        let mut there: Vec<TileEffect<N>> = Vec::new();
        there.push(TileEffect::AnimateMoveFrom { delta: source_pt.sub(target_pt) });
        there.push(TileEffect::EnsureAlphaAnimatesTo1);
        let mut back: Vec<TileEffect<N>> = Vec::new();
        back.push(TileEffect::StopMoveAnimations);
        back.push(TileEffect::AnimateMoveFrom { delta: target_pt.sub(source_pt) });
        back.push(TileEffect::EnsureAlphaAnimatesTo1);
        proof {
            let expected: Seq<TileEffect<N>> = seq![
                TileEffect::AnimateMoveFrom { delta: source_pt - target_pt },
                TileEffect::EnsureAlphaAnimatesTo1,
            ];
            assert(there@ =~= expected);
            let expected: Seq<TileEffect<N>> = seq![
                TileEffect::StopMoveAnimations,
                TileEffect::AnimateMoveFrom { delta: target_pt - source_pt },
                TileEffect::EnsureAlphaAnimatesTo1,
            ];
            assert(back@ =~= expected);
        }
        self.ask(target, source_window, &there);
        self.ask(source, target_window, &back);
        self.activate_section(target);
        proof {
            assert(self@.sections == shown.sections);
            lemma_traded_stays(
                before,
                shown,
                self@,
                source as int,
                target as int,
                source_window,
                target_window,
            );
        }
    }

    #[verifier::spinoff_prover]
    fn swap_inside(&mut self, forwards: bool) -> (r: bool)
        requires
            old(self)@.wf(),
            old(self)@.sections.len() > 0,
        ensures
            r == old(self)@.can_swap_inside(forwards),
            r ==> final(self)@ == old(self)@.after(
                old(self)@.props.active_section_idx as int,
                old(self)@.at(old(self)@.props.active_section_idx as int).swap_in_axis(
                    old(self)@.options,
                    SplitAxis::Main,
                    forwards,
                ),
            ),
            !r ==> final(self)@ == old(self)@,
            final(self)@.wf(),
            keeps_windows(old(self)@, final(self)@),
    {
        let ghost before = self@;
        let active: usize = self.props.active_section_idx;
        assert(before.sections[active as int] == self.sections@[active as int]@);
        assert(before.sections[active as int].wf());
        let swapped = self.sections[active].swap_in_axis(
            &self.options,
            SplitAxis::Main,
            forwards,
            &mut self.outbox,
        );
        proof {
            let done = before.at(active as int).swap_in_axis(
                before.options,
                SplitAxis::Main,
                forwards,
            );
            assert(self@ == before.after(active as int, done));
            lemma_after_wf(before, active as int, done);
            if !swapped {
                reveal(Work::swap_in_axis);
                assert(before.after(active as int, before.at(active as int)).sections
                    =~= before.sections);
            }
        }
        swapped
    }

    /// Swaps the active window in a direction: with its sibling in the section first, and then
    /// with the active window of the next section. Two sections of one window each change places.
    #[verifier::spinoff_prover]
    pub fn swap_window_in_direction(&mut self, direction: ScrollDirection)
        requires
            old(self)@.wf(),
            old(self)@.has_room(),
        ensures
            final(self)@ == old(self)@.swap_window(goes_forwards(direction)),
            final(self)@.wf(),
            keeps_windows(old(self)@, final(self)@),
            old(self)@.swaps_across(goes_forwards(direction)) ==> active_windows_swapped(
                old(self)@,
                final(self)@,
                old(self)@.props.active_section_idx as int,
                old(self)@.props.active_section_idx + step(goes_forwards(direction)),
            ),
    {
        if self.is_empty() {
            return;
        }
        let forwards = matches!(direction, ScrollDirection::Right);
        if self.swap_inside(forwards) {
            return;
        }
        let source: usize = self.props.active_section_idx;
        let target: usize = if forwards {
            if source >= self.sections.len() - 1 {
                return;
            }
            source + 1
        } else {
            if source == 0 {
                return;
            }
            source - 1
        };
        assert(self@.sections[source as int] == self.sections@[source as int]@);
        assert(self@.sections[target as int] == self.sections@[target as int]@);
        if self.sections[source].tiles_len() == 1 && self.sections[target].tiles_len() == 1 {
            self.move_section_to(target);
        } else {
            self.swap_sections(source, target);
        }
    }

    /// The section and the leaf of a window.
    pub fn position_of(&self, window: u64) -> (r: Option<(usize, usize)>)
        ensures
            r == self@.position_of(window),
            r matches Some(at) ==> self@.has_tile(at) && self@.sections[at.0 as int].tiles()[at.1 as int].id
                == window,
    {
        match self.section_of(window) {
            Some(col) => {
                assert(self@.sections[col as int] == self.sections@[col as int]@);
                match self.sections[col].position(window) {
                    Some(tile) => Some((col, tile)),
                    None => None,
                }
            },
            None => None,
        }
    }

    #[verifier::spinoff_prover]
    fn exchange_tiles(&mut self, a: (usize, usize), b: (usize, usize))
        requires
            old(self)@.wf(),
            old(self)@.has_tile(a),
            old(self)@.has_tile(b),
            a.0 != b.0,
        ensures
            final(self)@ == old(self)@.tiles_exchanged(a, b),
            final(self)@.wf(),
            keeps_windows(old(self)@, final(self)@),
    {
        let ghost before = self@;
        assert(before.sections[a.0 as int] == self.sections@[a.0 as int]@);
        assert(before.sections[b.0 as int] == self.sections@[b.0 as int]@);
        assert(before.sections[a.0 as int].wf() && before.sections[b.0 as int].wf());
        let a_tile = self.sections[a.0].tile(a.1);
        let b_tile = self.sections[b.0].tile(b.1);
        self.sections[a.0].set_tile(a.1, b_tile);
        self.sections[b.0].set_tile(b.1, a_tile);
        proof {
            assert(self@.sections =~= before.tiles_exchanged(a, b).sections);
            lemma_exchanged_windows(before, self@, a, b);
            lemma_in_step(before, self@);
            assert forall|j: int| 0 <= j < self@.sections.len() implies (
            #[trigger] self@.sections[j]).wf() by {
                if j != a.0 && j != b.0 {
                    assert(self@.sections[j] == before.sections[j]);
                }
            }
        }
    }

    fn size_section(&mut self, col: usize, animate: bool)
        requires
            old(self)@.wf(),
            col < old(self)@.sections.len(),
        ensures
            final(self)@ == old(self)@.section_sized(col as int, animate),
            final(self)@.wf(),
            keeps_windows(old(self)@, final(self)@),
            final(self)@.sections.len() == old(self)@.sections.len(),
    {
        let ghost before = self@;
        assert(before.sections[col as int] == self.sections@[col as int]@);
        assert(before.sections[col as int].wf());
        self.sections[col].update_tile_sizes(&self.options, animate, &mut self.outbox);
        proof {
            let done = before.at(col as int).sized(before.options, animate);
            assert(self@ == before.after(col as int, done));
            lemma_after_wf(before, col as int, done);
        }
    }

    fn move_section_leaves(&mut self, col: usize, prev: &Vec<(u64, Point<N>)>)
        requires
            old(self)@.wf(),
            col < old(self)@.sections.len(),
        ensures
            final(self)@ == old(self)@.section_moved_from(col as int, prev@),
            final(self)@.wf(),
            keeps_windows(old(self)@, final(self)@),
            final(self)@.sections.len() == old(self)@.sections.len(),
    {
        let ghost before = self@;
        assert(before.sections[col as int] == self.sections@[col as int]@);
        assert(before.sections[col as int].wf());
        self.sections[col].animate_leaves_if_moved(
            &self.options.layout,
            prev,
            &mut self.outbox,
        );
        proof {
            let done = before.at(col as int).moved_from(before.layout(), prev@);
            assert(done.section == before.sections[col as int]);
            assert(before.after(col as int, done).sections =~= before.sections);
            assert(self@ == before.after(col as int, done));
        }
    }

    fn swap_across(&mut self, lo: (usize, usize), hi: (usize, usize))
        requires
            old(self)@.wf(),
            old(self)@.has_tile(lo),
            old(self)@.has_tile(hi),
            lo.0 < hi.0,
        ensures
            final(self)@ == old(self)@.swapped_across(lo, hi),
            final(self)@.wf(),
            keeps_windows(old(self)@, final(self)@),
    {
        let prev_lo = self.section_leaf_positions(lo.0);
        let prev_hi = self.section_leaf_positions(hi.0);
        self.exchange_tiles(lo, hi);
        self.size_section(lo.0, true);
        self.size_section(hi.0, true);
        self.move_section_leaves(lo.0, &prev_lo);
        self.move_section_leaves(hi.0, &prev_hi);
    }

    /// Swaps two tiles, each given by its section and leaf. The two windows exchange places; the
    /// number of windows and the shape of the trees stay. Nothing happens where there is no such
    /// tile.
    #[verifier::spinoff_prover]
    pub fn swap_tiles(&mut self, a: (usize, usize), b: (usize, usize))
        requires
            old(self)@.wf(),
        ensures
            final(self)@ == old(self)@.swap_tiles(a, b),
            final(self)@.wf(),
            keeps_windows(old(self)@, final(self)@),
    {
        let ghost before = self@;
        if a.0 >= self.sections.len() || b.0 >= self.sections.len() {
            return;
        }
        assert(before.sections[a.0 as int] == self.sections@[a.0 as int]@);
        assert(before.sections[b.0 as int] == self.sections@[b.0 as int]@);
        assert(before.sections[a.0 as int].wf());
        if a.0 == b.0 {
            self.sections[a.0].swap_leaves_by_flat_idx(
                &self.options,
                a.1,
                b.1,
                &mut self.outbox,
            );
            proof {
                let done = before.at(a.0 as int).swap_leaves(before.options, a.1, b.1);
                assert(self@ == before.after(a.0 as int, done));
                lemma_after_wf(before, a.0 as int, done);
            }
            return;
        }
        if a.1 >= self.sections[a.0].tiles_len() || b.1 >= self.sections[b.0].tiles_len() {
            return;
        }
        if a.0 < b.0 {
            self.swap_across(a, b);
        } else {
            self.swap_across(b, a);
        }
    }

    /// The tile at a leaf of a section, if there is one.
    pub fn tile_at(&self, section_idx: usize, flat_leaf_idx: usize) -> (r: Option<Tile<N>>)
        ensures
            r == if self@.has_tile((section_idx, flat_leaf_idx)) {
                Some(self@.sections[section_idx as int].tiles()[flat_leaf_idx as int])
            } else {
                None
            },
    {
        if section_idx >= self.sections.len() {
            return None;
        }
        assert(self@.sections[section_idx as int] == self.sections@[section_idx as int]@);
        if flat_leaf_idx >= self.sections[section_idx].tiles_len() {
            return None;
        }
        Some(self.sections[section_idx].tile(flat_leaf_idx))
    }

    /// Where the leaves of a section are, noted by window.
    pub fn section_leaf_positions(&self, section_idx: usize) -> (r: Vec<(u64, Point<N>)>)
        requires
            self@.wf(),
        ensures
            r@ == if section_idx < self@.sections.len() {
                self@.sections[section_idx as int].positions_by_id(self@.layout())
            } else {
                Seq::empty()
            },
    {
        if section_idx >= self.sections.len() {
            return Vec::new();
        }
        assert(self@.sections[section_idx as int] == self.sections@[section_idx as int]@);
        self.sections[section_idx].leaf_positions_by_id(&self.options.layout)
    }

    /// Moves the leaves of a section from where they were to where they are.
    pub fn animate_section_leaves_if_moved(
        &mut self,
        section_idx: usize,
        prev: &Vec<(u64, Point<N>)>,
    )
        requires
            old(self)@.wf(),
        ensures
            final(self)@ == if section_idx < old(self)@.sections.len() {
                old(self)@.section_moved_from(section_idx as int, prev@)
            } else {
                old(self)@
            },
            final(self)@.wf(),
            keeps_windows(old(self)@, final(self)@),
    {
        if section_idx < self.sections.len() {
            self.move_section_leaves(section_idx, prev);
        }
    }

    /// Resizes the tiles of a section to fit their places.
    pub fn update_section_tile_sizes(&mut self, section_idx: usize, animate: bool)
        requires
            old(self)@.wf(),
        ensures
            final(self)@ == if section_idx < old(self)@.sections.len() {
                old(self)@.section_sized(section_idx as int, animate)
            } else {
                old(self)@
            },
            final(self)@.wf(),
            keeps_windows(old(self)@, final(self)@),
    {
        if section_idx < self.sections.len() {
            self.size_section(section_idx, animate);
        }
    }

    /// Gives access to the tile at a leaf of a section, if there is one.
    #[verifier::spinoff_prover]
    pub fn tile_mut_at(&mut self, section_idx: usize, flat_leaf_idx: usize) -> (r: Option<
        &mut Tile<N>,
    >)
        requires
            old(self)@.wf(),
        ensures
            match r {
                Some(tile) => {
                    &&& old(self)@.has_tile((section_idx, flat_leaf_idx))
                    &&& *tile
                        == old(self)@.sections[section_idx as int].tiles()[flat_leaf_idx as int]
                    &&& final(self)@ == (SpaceView {
                        sections: old(self)@.sections.update(
                            section_idx as int,
                            old(self)@.sections[section_idx as int].with_tile_at(
                                flat_leaf_idx as int,
                                *final(tile),
                            ),
                        ),
                        ..old(self)@
                    })
                },
                None => !old(self)@.has_tile((section_idx, flat_leaf_idx)) && final(self)@ == old(
                    self,
                )@,
            },
    {
        let ghost before = self@;
        if section_idx >= self.sections.len() {
            return None;
        }
        assert(before.sections[section_idx as int] == self.sections@[section_idx as int]@);
        assert(before.sections[section_idx as int].wf());
        proof {
            lemma_section_tiles(before.sections[section_idx as int], before.layout());
        }
        match self.sections[section_idx].root.path_for_leaf_index(flat_leaf_idx) {
            Some(path) => {
                match self.sections[section_idx].root.node_at_mut(&path) {
                    TileNode::Leaf(tile) => Some(tile),
                    _ => None,
                }
            },
            None => None,
        }
    }
}

/// A tile stays when another comes in among them.
proof fn lemma_kept<N>(had: Seq<Tile<N>>, has: Seq<Tile<N>>, tile: Tile<N>, i: int)
    requires
        crate::section_edit::inserted_among(had, has, tile),
        0 <= i < had.len(),
    ensures
        crate::section::has_window(has, had[i].id),
{
    let k = choose|k: int| 0 <= k <= had.len() && has == #[trigger] had.insert(k, tile);
    let j = if i < k {
        i
    } else {
        i + 1
    };
    assert(has[j] == had[i]);
}

/// A section that has another tile among its own has one more window.
proof fn lemma_bag_among<N>(had: Seq<Tile<N>>, has: Seq<Tile<N>>, tile: Tile<N>)
    requires
        crate::section_edit::inserted_among(had, has, tile),
    ensures
        bag(has) == bag(had).insert(tile.id),
{
    let k = choose|k: int| 0 <= k <= had.len() && has == #[trigger] had.insert(k, tile);
    lemma_bag_insert(had, k, tile);
}

/// A tile of one section moved into another, and one of that back into the first, leaves both with
/// the window of the other in place of their own.
#[verifier::spinoff_prover]
proof fn lemma_traded<N: Scalar>(
    before: SpaceView<N>,
    gone: SpaceView<N>,
    joined: SpaceView<N>,
    parted: SpaceView<N>,
    after: SpaceView<N>,
    source: int,
    target: int,
    source_tile: int,
    flat: int,
    given: Tile<N>,
    got: Tile<N>,
)
    requires
        0 <= source < before.sections.len(),
        0 <= target < before.sections.len(),
        source != target,
        0 <= source_tile < before.sections[source].tiles().len(),
        given.id == before.sections[source].tiles()[source_tile].id,
        ({
            let drained = before.sections[source].tiles().len() == 1;
            let adjusted = if source < target && drained {
                target - 1
            } else {
                target
            };
            &&& drained ==> source_tile == 0 && lost_section(before, gone, source)
            &&& !drained ==> lost(before, gone, source, source_tile)
            &&& gained(gone, joined, adjusted, given)
            &&& 0 <= flat < joined.sections[adjusted].tiles().len()
            &&& got.id == joined.sections[adjusted].tiles()[flat].id
            &&& lost(joined, parted, adjusted, flat)
            &&& drained ==> {
                &&& after.sections.len() == parted.sections.len() + 1
                &&& ids(after.sections[source].tiles()) == seq![got.id]
                &&& forall|j: int|
                    0 <= j < after.sections.len() && j != source ==> (
                    #[trigger] after.sections[j]).root == parted.sections[if j < source {
                        j
                    } else {
                        j - 1
                    }].root
            }
            &&& !drained ==> gained(parted, after, source, got)
        }),
    ensures
        traded(before, after, source, target, given.id, got.id),
{
    reveal(traded);
    let drained = before.sections[source].tiles().len() == 1;
    let adjusted = if source < target && drained {
        target - 1
    } else {
        target
    };
    assert(gone.sections[adjusted].tiles() == before.sections[target].tiles());
    lemma_bag_among(gone.sections[adjusted].tiles(), joined.sections[adjusted].tiles(), given);
    lemma_bag_remove(joined.sections[adjusted].tiles(), flat);
    let rest = parted.sections[adjusted].windows();
    assert(rest.insert(got.id) == before.sections[target].windows().insert(given.id));
    if drained {
        let tiles = before.sections[source].tiles();
        assert(ids(tiles) =~= seq![given.id]);
        let mine = after.sections[source].tiles();
        let single = seq![got.id];
        assert(single.len() == 1 && single[0] == got.id);
        assert(ids(mine) == single);
        assert(mine.len() == ids(mine).len());
        assert(ids(mine)[0] == mine[0].id);
        assert(mine =~= seq![mine[0]]);
        assert(tiles =~= seq![tiles[0]]);
        lemma_bag_single(mine[0]);
        lemma_bag_single(tiles[0]);
        assert(after.sections[source].windows().insert(given.id)
            =~= before.sections[source].windows().insert(got.id));
        assert(after.sections[target].root == parted.sections[adjusted].root);
        assert forall|j: int|
            0 <= j < before.sections.len() && j != source && j != target implies (
        #[trigger] after.sections[j]).windows() == before.sections[j].windows() by {
            let k = if j < source {
                j
            } else {
                j - 1
            };
            assert(after.sections[j].root == parted.sections[k].root);
            assert(parted.sections[k].tiles() == joined.sections[k].tiles());
            assert(joined.sections[k].tiles() == gone.sections[k].tiles());
            assert(gone.sections[k].tiles() == before.sections[j].tiles());
        }
    } else {
        assert(parted.sections[source].tiles() == joined.sections[source].tiles());
        assert(joined.sections[source].tiles() == gone.sections[source].tiles());
        lemma_bag_remove(before.sections[source].tiles(), source_tile);
        lemma_bag_among(
            parted.sections[source].tiles(),
            after.sections[source].tiles(),
            got,
        );
        let left = gone.sections[source].windows();
        assert(left.insert(given.id) == before.sections[source].windows());
        assert(left.insert(got.id).insert(given.id) =~= left.insert(given.id).insert(got.id));
        assert(after.sections[target].tiles() == parted.sections[target].tiles());
        assert forall|j: int|
            0 <= j < before.sections.len() && j != source && j != target implies (
        #[trigger] after.sections[j]).windows() == before.sections[j].windows() by {
            assert(after.sections[j].tiles() == parted.sections[j].tiles());
            assert(parted.sections[j].tiles() == joined.sections[j].tiles());
            assert(joined.sections[j].tiles() == gone.sections[j].tiles());
            assert(gone.sections[j].tiles() == before.sections[j].tiles());
        }
    }
}

/// Sections that have exchanged windows hold them.
proof fn lemma_traded_contain<N: Scalar>(
    had: SpaceView<N>,
    has: SpaceView<N>,
    source: int,
    target: int,
    given: u64,
    got: u64,
)
    requires
        traded(had, has, source, target, given, got),
        had.sections[source].contains(given),
        had.sections[target].contains(got),
    ensures
        has.sections[source].contains(got),
        has.sections[target].contains(given),
{
    reveal(traded);
    lemma_bag_contains(had.sections[source].tiles(), given);
    lemma_bag_contains(had.sections[target].tiles(), got);
    lemma_bag_contains(has.sections[source].tiles(), got);
    lemma_bag_contains(has.sections[target].tiles(), given);
    let s = has.sections[source].windows();
    let t = has.sections[target].windows();
    assert(s.insert(given).count(got) == had.sections[source].windows().insert(got).count(got));
    assert(t.insert(got).count(given) == had.sections[target].windows().insert(given).count(given));
    assert(s.insert(given).count(given) == had.sections[source].windows().insert(got).count(
        given,
    ));
    assert(t.insert(got).count(got) == had.sections[target].windows().insert(given).count(got));
}

/// Sections that have exchanged windows still have when their tiles stay.
proof fn lemma_traded_stays<N: Scalar>(
    had: SpaceView<N>,
    mid: SpaceView<N>,
    has: SpaceView<N>,
    source: int,
    target: int,
    given: u64,
    got: u64,
)
    requires
        traded(had, mid, source, target, given, got),
        0 <= source < had.sections.len(),
        0 <= target < had.sections.len(),
        has.sections.len() == mid.sections.len(),
        forall|j: int|
            0 <= j < mid.sections.len() ==> (#[trigger] has.sections[j]).tiles()
                == mid.sections[j].tiles(),
    ensures
        traded(had, has, source, target, given, got),
{
    reveal(traded);
    assert(has.sections[source].tiles() == mid.sections[source].tiles());
    assert(has.sections[target].tiles() == mid.sections[target].tiles());
}

} // verus!
