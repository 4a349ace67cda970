//! Moving windows between sections.
use vstd::prelude::*;

use crate::animation::AnimationKind;
use crate::config::{SizingMode, SplitAxis};
use crate::geometry::Point;
use crate::scalar::{num, Scalar};
use crate::section::{main_space_vec, main_vec};
use crate::section_size::work;
use crate::space::{lemma_after_wf, ScrollingSpace, SpaceProps, SpaceView};
use crate::space_add::gained;
use crate::space_remove::{lost, lost_section, removed_from, RemovedTile};
use crate::tile::{Tile, TileEffect};
use crate::tile_node::Layout;
use crate::windows::{gains_window, keeps_windows, lemma_gained_windows, loses_window};

verus! {

impl<N: Scalar> SpaceView<N> {
    /// The section and the leaf of a window, or of the active one.
    pub open spec fn source_of(self, window: Option<u64>) -> (usize, usize) {
        match window {
            Some(window) => {
                let col = self.section_of(window)->0;
                (col, self.sections[col as int].position(window)->0)
            },
            None => (self.props.active_section_idx, self.active().active_leaf_idx()),
        }
    }

    pub open spec fn is_active_leaf(self, col: usize, tile: usize) -> bool {
        self.props.active_section_idx == col && self.sections[col as int].active_leaf_idx() == tile
    }

    /// A tile taken out in a transaction of its own.
    pub open spec fn taken(self, col: int, tile: usize, kind: Option<AnimationKind>) -> Self {
        SpaceView { out: self.out.with_transaction(), ..self }.remove_tile_by_idx(
            col,
            tile,
            self.out.next_transaction(),
            kind,
        )
    }

    /// A tile moving from an offset.
    pub open spec fn with_tile_moving(self, col: int, tile: int, delta: Point<N>) -> Self {
        SpaceView {
            out: self.out.push(
                self.sections[col].tiles()[tile].id,
                TileEffect::AnimateMoveFrom { delta },
            ),
            ..self
        }
    }

    pub open spec fn with_prev_offset(self, offset: Option<N>) -> Self {
        self.with_props(SpaceProps { activate_prev_section_on_removal: offset, ..self.props })
    }

    /// The only tile of a section moved to the end of the section before it.
    pub open spec fn consumed_left(self, col: int) -> Self {
        let target = col - 1;
        let was_active = self.is_active_leaf(col as usize, 0);
        let tile = self.sections[col].tiles()[0];
        let prev_off = self.sections[col].tile_offset(self.layout(), 0);
        let main_delta = if self.props.active_section_idx <= col {
            self.section_pos(col) - self.section_pos(target)
        } else {
            num::<N>(0).spec_max(self.width(target) - self.width(col))
        };
        let noted = if was_active && self.props.activate_prev_section_on_removal is None {
            self.with_prev_offset(Some(self.props.view_offset.spec_stationary() + main_delta))
        } else {
            self
        };
        let moved = noted.taken(col, 0, Some(AnimationKind::WindowMovement)).add_tile_to_section(
            target as usize,
            None,
            tile,
            was_active,
        );
        let section = moved.sections[target];
        let last = section.tiles().len() - 1;
        let delta = main_vec(main_delta) + main_vec(self.sections[col].render_offset().x)
            - main_vec(section.render_offset().x) + (prev_off - section.tile_offset(
            self.layout(),
            last,
        ));
        moved.with_tile_moving(target, last, delta)
    }

    /// A tile of a section moved to a section of its own before it.
    pub open spec fn expelled_left(self, col: int, tile: usize) -> Self {
        let was_active = self.is_active_leaf(col as usize, tile);
        let source = self.sections[col];
        let removed = removed_from(source, tile as int);
        let prev_off = source.tile_offset(self.layout(), tile as int);
        let added = self.taken(col, tile, None).add_tile(
            Some(col as usize),
            removed.tile,
            was_active,
            removed.width,
            removed.is_full_width,
            Some(AnimationKind::WindowMovement),
        );
        let moved = if was_active {
            added.with_prev_offset(None)
        } else {
            added
        };
        let start = main_vec(source.render_offset().x);
        let start = if col <= moved.props.active_section_idx {
            start + main_vec(moved.section_pos(col + 1) - moved.section_pos(col))
        } else {
            start
        };
        moved.with_tile_moving(
            col,
            0,
            start + (prev_off - moved.sections[col].tile_offset(self.layout(), 0)),
        )
    }

    /// A window moved left: out of a section that has others, or else into the section before.
    pub open spec fn consume_or_expel_left(self, window: Option<u64>) -> Self {
        let (col, tile) = self.source_of(window);
        if self.sections.len() == 0 {
            self
        } else if self.sections[col as int].tiles().len() > 1 {
            self.expelled_left(col as int, tile)
        } else if col > 0 {
            self.consumed_left(col as int)
        } else {
            self
        }
    }

    /// The only tile of a section moved to the end of the section after it.
    pub open spec fn consumed_right(self, col: int) -> Self {
        let was_active = self.is_active_leaf(col as usize, 0);
        let source = self.sections[col];
        let tile = source.tiles()[0];
        let prev_off = source.tile_offset(self.layout(), 0);
        let start = main_vec(source.render_offset().x) + main_vec(
            self.section_pos(col) - self.section_pos(col + 1),
        ) - main_vec(self.sections[col + 1].render_offset().x);
        let noted = if was_active {
            self.with_prev_offset(None)
        } else {
            self
        };
        let moved = noted.taken(col, 0, Some(AnimationKind::WindowMovement)).add_tile_to_section(
            col as usize,
            None,
            tile,
            was_active,
        );
        let section = moved.sections[col];
        let last = section.tiles().len() - 1;
        moved.with_tile_moving(
            col,
            last,
            start + (prev_off - section.tile_offset(self.layout(), last)),
        )
    }

    /// A tile of a section moved to a section of its own after it.
    pub open spec fn expelled_right(self, col: int, tile: usize) -> Self {
        let was_active = self.is_active_leaf(col as usize, tile);
        let source = self.sections[col];
        let removed = removed_from(source, tile as int);
        let prev_off = source.tile_offset(self.layout(), tile as int);
        let moved = self.taken(col, tile, None).add_tile(
            Some((col + 1) as usize),
            removed.tile,
            was_active,
            removed.width,
            removed.is_full_width,
            Some(AnimationKind::WindowMovement),
        );
        let delta = if moved.props.active_section_idx <= col + 1 {
            self.section_pos(col) - moved.section_pos(col + 1)
        } else {
            num::<N>(0).spec_max(self.width(col) - moved.width(col + 1)).spec_neg()
        };
        moved.with_tile_moving(
            col + 1,
            0,
            main_vec(source.render_offset().x) + main_vec(delta) + (prev_off
                - moved.sections[col + 1].tile_offset(self.layout(), 0)),
        )
    }

    /// A window moved right: out of a section that has others, or else into the section after.
    pub open spec fn consume_or_expel_right(self, window: Option<u64>) -> Self {
        let (col, tile) = self.source_of(window);
        if self.sections.len() == 0 {
            self
        } else if self.sections[col as int].tiles().len() > 1 {
            self.expelled_right(col as int, tile)
        } else if col + 1 < self.sections.len() {
            self.consumed_right(col as int)
        } else {
            self
        }
    }

    /// The first tile of the next section moved to the end of the active one.
    pub open spec fn consume_into_section(self) -> Self {
        let target = self.props.active_section_idx;
        let source = target + 1;
        if source >= self.sections.len() {
            self
        } else {
            let section = self.sections[source];
            let main_delta = self.section_pos(source) + section.render_offset().x
                - self.section_pos(target as int);
            let prev_off = section.tile_offset(self.layout(), 0);
            let moved = self.taken(source, 0, None).add_tile_to_section(
                target,
                None,
                section.tiles()[0],
                false,
            );
            let grown = moved.sections[target as int];
            let last = grown.tiles().len() - 1;
            moved.with_tile_moving(
                target as int,
                last,
                main_vec(main_delta) + (prev_off - grown.tile_offset(self.layout(), last))
                    - main_vec(grown.render_offset().x),
            )
        }
    }

    /// The last tile of the active section moved to a section of its own after it.
    pub open spec fn expel_from_section(self) -> Self {
        let source = self.props.active_section_idx as int;
        let section = self.sections[source];
        let tile = (section.tiles().len() - 1) as usize;
        if self.sections.len() == 0 || section.tiles().len() == 1 {
            self
        } else {
            let removed = removed_from(section, tile as int);
            let prev_off = section.tile_offset(self.layout(), tile as int);
            let moved = self.taken(source, tile, None).add_tile(
                Some((source + 1) as usize),
                removed.tile,
                false,
                removed.width,
                removed.is_full_width,
                Some(AnimationKind::WindowMovement),
            );
            moved.with_tile_moving(
                source + 1,
                0,
                main_vec(section.render_offset().x) + main_vec(
                    self.section_pos(source) - moved.section_pos(source + 1),
                ) + (prev_off - moved.sections[source + 1].tile_offset(self.layout(), 0)),
            )
        }
    }

    /// The active section waiting for a window to split with.
    pub open spec fn split_window(self, direction: Option<SplitAxis>) -> Self {
        let axis = match direction {
            Some(axis) => axis,
            None => SplitAxis::Main,
        };
        if self.sections.len() == 0 {
            self
        } else {
            SpaceView {
                sections: self.sections.update(
                    self.props.active_section_idx as int,
                    self.active().with_pending_split(Some(axis)),
                ),
                ..self
            }
        }
    }

    /// The first of the sections below `upto`, but for the active one, that has a window.
    pub open spec fn other_section_of(self, window: u64, upto: int) -> Option<usize>
        decreases upto,
    {
        if upto <= 0 {
            None
        } else {
            match self.other_section_of(window, upto - 1) {
                Some(i) => Some(i),
                None => if upto - 1 != self.props.active_section_idx
                    && self.sections[upto - 1].contains(window) {
                    Some((upto - 1) as usize)
                } else {
                    None
                },
            }
        }
    }

    /// The window to consume into a split: a given one of another section, or else the active one
    /// of the section before, or of the one after where there is none before.
    pub open spec fn split_source(self, window: Option<u64>) -> (usize, usize) {
        let active = self.props.active_section_idx;
        let count = self.sections.len();
        match window {
            Some(window) => match self.other_section_of(window, count as int) {
                Some(col) => (col, self.sections[col as int].position(window)->0),
                None => {
                    let col: usize = if active == 0 {
                        1
                    } else {
                        (active - 1) as usize
                    };
                    (col, self.sections[col as int].active_leaf_idx())
                },
            },
            None => {
                let col: usize = if active + 1 < count {
                    (active + 1) as usize
                } else {
                    (active - 1) as usize
                };
                (col, self.sections[col as int].active_leaf_idx())
            },
        }
    }

    /// A window of another section placed beside the active one, once it was taken out.
    pub open spec fn split_with(
        self,
        target_tile: usize,
        tile: Tile<N>,
        axis: SplitAxis,
        prev_pos: Point<N>,
    ) -> Self {
        let target = self.props.active_section_idx as int;
        let prev_next = self.section_pos(target + 1);
        let split = self.after(
            target,
            self.at(target).add_beside(
                self.options,
                target_tile,
                tile,
                Layout::spec_for_axis(axis),
                true,
                true,
            ),
        );
        let section = split.sections[target];
        SpaceView {
            out: split.out.push(
                section.root.active_leaf().id,
                TileEffect::AnimateMoveFrom {
                    delta: prev_pos - section.active_tile_offset(self.layout()),
                },
            ),
            ..split
        }.with_width_change(target, prev_next)
    }

    pub open spec fn consume_window_into_split(
        self,
        direction: Option<SplitAxis>,
        window: Option<u64>,
    ) -> Self {
        let axis = match direction {
            Some(axis) => axis,
            None => SplitAxis::Main,
        };
        let target = self.props.active_section_idx as int;
        let (source, tile) = self.split_source(window);
        if self.sections.len() < 2 || self.active().pending_sizing_mode() != SizingMode::Normal {
            self
        } else {
            let section = self.sections[source as int];
            let prev_pos = section.active_tile_offset(self.layout()) + main_vec(
                self.section_pos(source as int) - self.section_pos(target),
            );
            self.taken(source as int, tile, None).split_with(
                self.active().active_leaf_idx(),
                section.tiles()[tile as int],
                axis,
                prev_pos,
            )
        }
    }
}

/// A space that has lost a tile has room for it.
pub proof fn lemma_room_after_gain<N: Scalar>(
    had: SpaceView<N>,
    has: SpaceView<N>,
    col: int,
    tile: Tile<N>,
)
    requires
        gained(had, has, col, tile),
        0 <= col < had.sections.len(),
    ensures
        has.sections[col].tiles().len() == had.sections[col].tiles().len() + 1,
{
    let k = choose|k: int|
        0 <= k <= had.sections[col].tiles().len() && has.sections[col].tiles()
            == #[trigger] had.sections[col].tiles().insert(k, tile);
    assert(has.sections[col].tiles() == had.sections[col].tiles().insert(k, tile));
}

proof fn lemma_other_section<N: Scalar>(space: SpaceView<N>, window: u64, upto: int)
    requires
        0 <= upto <= space.sections.len() <= usize::MAX,
    ensures
        space.other_section_of(window, upto) matches Some(i) ==> i < upto && i
            != space.props.active_section_idx && space.sections[i as int].contains(window),
    decreases upto,
{
    if upto > 0 {
        lemma_other_section(space, window, upto - 1);
    }
}

impl<N: Scalar> ScrollingSpace<N> {
    #[verifier::spinoff_prover]
    pub(crate) fn source_of(&self, window: Option<u64>) -> (r: (usize, usize))
        requires
            self@.wf(),
            self@.sections.len() > 0,
            window matches Some(window) ==> self@.section_of(window) is Some,
        ensures
            r == self@.source_of(window),
            r.0 < self@.sections.len(),
            r.1 < self@.sections[r.0 as int].tiles().len(),
    {
        match window {
            Some(window) => {
                let col: usize = match self.section_of(window) {
                    Some(col) => col,
                    None => 0,
                };
                assert(self@.sections[col as int] == self.sections@[col as int]@);
                let tile: usize = match self.sections[col].position(window) {
                    Some(tile) => tile,
                    None => 0,
                };
                (col, tile)
            },
            None => {
                let col: usize = self.props.active_section_idx;
                assert(self@.sections[col as int] == self.sections@[col as int]@);
                (col, self.sections[col].active_leaf_idx())
            },
        }
    }

    fn is_active_leaf(&self, col: usize, tile: usize) -> (r: bool)
        requires
            self@.wf(),
            col < self@.sections.len(),
        ensures
            r == self@.is_active_leaf(col, tile),
    {
        assert(self@.sections[col as int] == self.sections@[col as int]@);
        self.props.active_section_idx == col && self.sections[col].active_leaf_idx() == tile
    }

    /// Takes a tile out in a transaction of its own.
    pub(crate) fn take(&mut self, col: usize, tile: usize, kind: Option<AnimationKind>) -> (r:
        RemovedTile<N>)
        requires
            old(self)@.wf(),
            col < old(self)@.sections.len(),
            tile < old(self)@.sections[col as int].tiles().len(),
        ensures
            final(self)@ == old(self)@.taken(col as int, tile, kind),
            r == removed_from(old(self)@.sections[col as int], tile as int),
            final(self)@.wf(),
            loses_window(old(self)@, final(self)@, r.tile.id),
            final(self)@.options == old(self)@.options,
            old(self)@.sections[col as int].tiles().len() > 1 ==> lost(
                old(self)@,
                final(self)@,
                col as int,
                tile as int,
            ),
            old(self)@.sections[col as int].tiles().len() == 1 ==> lost_section(
                old(self)@,
                final(self)@,
                col as int,
            ),
            old(self)@.has_room() ==> final(self)@.has_room(),
    {
        let transaction = self.outbox.begin_transaction();
        self.remove_tile_by_idx(col, tile, transaction, kind)
    }

    fn section_render_x(&self, col: usize) -> (r: N)
        requires
            col < self@.sections.len(),
        ensures
            r == self@.sections[col as int].render_offset().x,
    {
        assert(self@.sections[col as int] == self.sections@[col as int]@);
        self.sections[col].render_offset().x
    }

    fn section_tile_offset(&self, col: usize, tile: usize) -> (r: Point<N>)
        requires
            self@.wf(),
            col < self@.sections.len(),
            tile <= self@.sections[col as int].tiles().len(),
        ensures
            r == self@.sections[col as int].tile_offset(self@.layout(), tile as int),
    {
        assert(self@.sections[col as int] == self.sections@[col as int]@);
        self.sections[col].tile_offset(&self.options.layout, tile)
    }

    fn section_len(&self, col: usize) -> (r: usize)
        requires
            self@.wf(),
            col < self@.sections.len(),
        ensures
            r == self@.sections[col as int].tiles().len(),
            r > 0,
    {
        assert(self@.sections[col as int] == self.sections@[col as int]@);
        proof {
            crate::tree_walk::lemma_has_leaf(self@.sections[col as int].root);
        }
        self.sections[col].tiles_len()
    }

    fn move_tile_from(&mut self, col: usize, tile: usize, delta: Point<N>)
        requires
            old(self)@.wf(),
            col < old(self)@.sections.len(),
            tile < old(self)@.sections[col as int].tiles().len(),
        ensures
            final(self)@ == old(self)@.with_tile_moving(col as int, tile as int, delta),
            final(self)@.wf(),
            keeps_windows(old(self)@, final(self)@),
    {
        assert(self@.sections[col as int] == self.sections@[col as int]@);
        let window: u64 = self.sections[col].tile(tile).id;
        self.outbox.push(window, TileEffect::AnimateMoveFrom { delta });
    }

    #[verifier::spinoff_prover]
    fn consume_left(&mut self, col: usize)
        requires
            old(self)@.wf(),
            old(self)@.has_room(),
            0 < col < old(self)@.sections.len(),
            old(self)@.sections[col as int].tiles().len() == 1,
        ensures
            final(self)@ == old(self)@.consumed_left(col as int),
            final(self)@.wf(),
            keeps_windows(old(self)@, final(self)@),
    {
        let target: usize = col - 1;
        let prev_off = self.section_tile_offset(col, 0);
        let was_active = self.is_active_leaf(col, 0);
        let main_delta = if self.props.active_section_idx <= col {
            self.section_main_pos(col).sub(self.section_main_pos(target))
        } else {
            N::of_int(0).max(self.section_width(target).sub(self.section_width(col)))
        };
        if was_active && self.props.activate_prev_section_on_removal.is_none() {
            self.props.activate_prev_section_on_removal = Some(
                self.props.view_offset.stationary().add(main_delta),
            );
        }
        let delta = main_space_vec(main_delta).add(main_space_vec(self.section_render_x(col)));
        let removed = self.take(col, 0, Some(AnimationKind::WindowMovement));
        self.add_tile_to_section(target, None, removed.tile, was_active);
        let delta = delta.sub(main_space_vec(self.section_render_x(target)));
        let last: usize = self.section_len(target) - 1;
        let delta = delta.add(prev_off.sub(self.section_tile_offset(target, last)));
        self.move_tile_from(target, last, delta);
    }

    #[verifier::spinoff_prover]
    fn expel_left(&mut self, col: usize, tile: usize)
        requires
            old(self)@.wf(),
            old(self)@.has_room(),
            col < old(self)@.sections.len(),
            tile < old(self)@.sections[col as int].tiles().len(),
            old(self)@.sections[col as int].tiles().len() > 1,
        ensures
            final(self)@ == old(self)@.expelled_left(col as int, tile),
            final(self)@.wf(),
            keeps_windows(old(self)@, final(self)@),
    {
        let prev_off = self.section_tile_offset(col, tile);
        let was_active = self.is_active_leaf(col, tile);
        let mut delta = main_space_vec(self.section_render_x(col));
        let removed = self.take(col, tile, None);
        self.add_tile(
            Some(col),
            removed.tile,
            was_active,
            removed.width,
            removed.is_full_width,
            Some(AnimationKind::WindowMovement),
        );
        if was_active {
            self.props.activate_prev_section_on_removal = None;
        }
        if col <= self.props.active_section_idx {
            let span = self.section_main_pos(col + 1).sub(self.section_main_pos(col));
            delta = delta.add(main_space_vec(span));
        }
        let delta = delta.add(prev_off.sub(self.section_tile_offset(col, 0)));
        self.move_tile_from(col, 0, delta);
    }

    /// Moves a window left: out of a section that has others into one of its own, or else into the
    /// section before.
    pub fn consume_or_expel_window_left(&mut self, window: Option<u64>)
        requires
            old(self)@.wf(),
            old(self)@.has_room(),
            old(self)@.sections.len() > 0 ==> (window matches Some(window) ==> old(
                self,
            )@.section_of(window) is Some),
        ensures
            final(self)@ == old(self)@.consume_or_expel_left(window),
            final(self)@.wf(),
            keeps_windows(old(self)@, final(self)@),
    {
        if self.is_empty() {
            return;
        }
        let (col, tile) = self.source_of(window);
        if self.section_len(col) > 1 {
            self.expel_left(col, tile);
        } else if col > 0 {
            self.consume_left(col);
        }
    }

    fn consume_right(&mut self, col: usize)
        requires
            old(self)@.wf(),
            old(self)@.has_room(),
            col + 1 < old(self)@.sections.len(),
            old(self)@.sections[col as int].tiles().len() == 1,
        ensures
            final(self)@ == old(self)@.consumed_right(col as int),
            final(self)@.wf(),
            keeps_windows(old(self)@, final(self)@),
    {
        let prev_off = self.section_tile_offset(col, 0);
        let was_active = self.is_active_leaf(col, 0);
        let source_main = self.section_main_pos(col);
        let next_main = self.section_main_pos(col + 1);
        let delta = main_space_vec(self.section_render_x(col)).add(
            main_space_vec(source_main.sub(next_main)),
        ).sub(main_space_vec(self.section_render_x(col + 1)));
        if was_active {
            self.props.activate_prev_section_on_removal = None;
        }
        let removed = self.take(col, 0, Some(AnimationKind::WindowMovement));
        self.add_tile_to_section(col, None, removed.tile, was_active);
        let last: usize = self.section_len(col) - 1;
        let delta = delta.add(prev_off.sub(self.section_tile_offset(col, last)));
        self.move_tile_from(col, last, delta);
    }

    #[verifier::spinoff_prover]
    pub(crate) fn expel_right(&mut self, col: usize, tile: usize)
        requires
            old(self)@.wf(),
            old(self)@.has_room(),
            col < old(self)@.sections.len(),
            tile < old(self)@.sections[col as int].tiles().len(),
            old(self)@.sections[col as int].tiles().len() > 1,
        ensures
            final(self)@ == old(self)@.expelled_right(col as int, tile),
            final(self)@.wf(),
            keeps_windows(old(self)@, final(self)@),
            final(self)@.options == old(self)@.options,
            final(self)@.sections.len() == old(self)@.sections.len() + 1,
            final(self)@.sections[col + 1].tiles().len() == 1,
    {
        let prev_off = self.section_tile_offset(col, tile);
        let was_active = self.is_active_leaf(col, tile);
        let source_main = self.section_main_pos(col);
        let prev_width = self.section_width(col);
        let start = main_space_vec(self.section_render_x(col));
        let removed = self.take(col, tile, None);
        self.add_tile(
            Some(col + 1),
            removed.tile,
            was_active,
            removed.width,
            removed.is_full_width,
            Some(AnimationKind::WindowMovement),
        );
        let shift = if self.props.active_section_idx <= col + 1 {
            source_main.sub(self.section_main_pos(col + 1))
        } else {
            N::of_int(0).max(prev_width.sub(self.section_width(col + 1))).neg()
        };
        let delta = start.add(main_space_vec(shift)).add(
            prev_off.sub(self.section_tile_offset(col + 1, 0)),
        );
        self.move_tile_from(col + 1, 0, delta);
    }

    /// Moves a window right: out of a section that has others into one of its own, or else into
    /// the section after.
    pub fn consume_or_expel_window_right(&mut self, window: Option<u64>)
        requires
            old(self)@.wf(),
            old(self)@.has_room(),
            old(self)@.sections.len() > 0 ==> (window matches Some(window) ==> old(
                self,
            )@.section_of(window) is Some),
        ensures
            final(self)@ == old(self)@.consume_or_expel_right(window),
            final(self)@.wf(),
            keeps_windows(old(self)@, final(self)@),
    {
        if self.is_empty() {
            return;
        }
        let (col, tile) = self.source_of(window);
        if self.section_len(col) > 1 {
            self.expel_right(col, tile);
        } else if col < self.sections.len() - 1 {
            self.consume_right(col);
        }
    }

    /// Moves the first window of the next section to the end of the active one.
    pub fn consume_into_section(&mut self)
        requires
            old(self)@.wf(),
            old(self)@.has_room(),
        ensures
            final(self)@ == old(self)@.consume_into_section(),
            final(self)@.wf(),
            keeps_windows(old(self)@, final(self)@),
    {
        let target: usize = self.props.active_section_idx;
        if self.is_empty() || target >= self.sections.len() - 1 {
            return;
        }
        let source: usize = target + 1;
        let main_delta = self.section_main_pos(source).add(self.section_render_x(source)).sub(
            self.section_main_pos(target),
        );
        let prev_off = self.section_tile_offset(source, 0);
        proof {
            crate::tree_walk::lemma_has_leaf(self@.sections[source as int].root);
        }
        let removed = self.take(source, 0, None);
        self.add_tile_to_section(target, None, removed.tile, false);
        let last: usize = self.section_len(target) - 1;
        let delta = main_space_vec(main_delta).add(
            prev_off.sub(self.section_tile_offset(target, last)),
        ).sub(main_space_vec(self.section_render_x(target)));
        self.move_tile_from(target, last, delta);
    }

    /// Moves the last window of the active section to a section of its own after it.
    #[verifier::spinoff_prover]
    pub fn expel_from_section(&mut self)
        requires
            old(self)@.wf(),
            old(self)@.has_room(),
        ensures
            final(self)@ == old(self)@.expel_from_section(),
            final(self)@.wf(),
            keeps_windows(old(self)@, final(self)@),
    {
        if self.is_empty() {
            return;
        }
        let source: usize = self.props.active_section_idx;
        let count: usize = self.section_len(source);
        if count == 1 {
            return;
        }
        let tile: usize = count - 1;
        let source_main = self.section_main_pos(source);
        let start = main_space_vec(self.section_render_x(source));
        let prev_off = self.section_tile_offset(source, tile);
        let removed = self.take(source, tile, None);
        self.add_tile(
            Some(source + 1),
            removed.tile,
            false,
            removed.width,
            removed.is_full_width,
            Some(AnimationKind::WindowMovement),
        );
        let shift = source_main.sub(self.section_main_pos(source + 1));
        let delta = start.add(main_space_vec(shift)).add(
            prev_off.sub(self.section_tile_offset(source + 1, 0)),
        );
        self.move_tile_from(source + 1, 0, delta);
    }

    /// Lets the next window that is opened split the focused one along an axis.
    pub fn split_window(&mut self, direction: Option<SplitAxis>)
        requires
            old(self)@.wf(),
        ensures
            final(self)@ == old(self)@.split_window(direction),
            final(self)@.wf(),
            keeps_windows(old(self)@, final(self)@),
    {
        if self.is_empty() {
            return;
        }
        let ghost before = self@;
        let axis = match direction {
            Some(axis) => axis,
            None => SplitAxis::Main,
        };
        let active: usize = self.props.active_section_idx;
        let section = &mut self.sections[active];
        section.props.pending_split_direction = Some(axis);
        proof {
            let told = before.active().with_pending_split(Some(axis));
            assert(before.sections[active as int].wf());
            assert(self@.sections =~= before.sections.update(active as int, told));
            lemma_after_wf(before, active as int, work(told, before.out));
        }
    }

    #[verifier::spinoff_prover]
    fn split_source(&self, window: Option<u64>) -> (r: (usize, usize))
        requires
            self@.wf(),
            self@.sections.len() >= 2,
        ensures
            r == self@.split_source(window),
            r.0 < self@.sections.len(),
            r.0 != self@.props.active_section_idx,
            r.1 < self@.sections[r.0 as int].tiles().len(),
    {
        let active: usize = self.props.active_section_idx;
        let mut col: usize = if active > 0 {
            active - 1
        } else {
            1
        };
        match window {
            Some(window) => {
                let mut found: Option<usize> = None;
                let mut i: usize = 0;
                while i < self.sections.len()
                    invariant
                        i <= self.sections.len(),
                        active == self.props.active_section_idx,
                        found == self@.other_section_of(window, i as int),
                    decreases self.sections.len() - i,
                {
                    assert(self@.sections[i as int] == self.sections@[i as int]@);
                    if found.is_none() && i != active && self.sections[i].contains(window) {
                        found = Some(i);
                    }
                    i = i + 1;
                }
                proof {
                    lemma_other_section(self@, window, self@.sections.len() as int);
                }
                if let Some(other) = found {
                    assert(self@.sections[other as int] == self.sections@[other as int]@);
                    if let Some(tile) = self.sections[other].position(window) {
                        return (other, tile);
                    }
                }
            },
            None => {
                if active < self.sections.len() - 1 {
                    col = active + 1;
                }
            },
        }
        assert(self@.sections[col as int] == self.sections@[col as int]@);
        (col, self.sections[col].active_leaf_idx())
    }

    #[verifier::spinoff_prover]
    fn split_with(
        &mut self,
        target_tile: usize,
        tile: Tile<N>,
        axis: SplitAxis,
        prev_pos: Point<N>,
    )
        requires
            old(self)@.wf(),
            old(self)@.has_room(),
            old(self)@.sections.len() > 0,
        ensures
            final(self)@ == old(self)@.split_with(target_tile, tile, axis, prev_pos),
            final(self)@.wf(),
            gains_window(old(self)@, final(self)@, tile.id),
    {
        let ghost before = self@;
        let target: usize = self.props.active_section_idx;
        let prev_next = self.section_main_pos(target + 1);
        assert(before.sections[target as int] == self.sections@[target as int]@);
        assert(before.sections[target as int].wf());
        assert(before.sections[target as int].tiles().len() < usize::MAX);
        self.sections[target].add_tile_to_split(
            &self.options,
            target_tile,
            tile,
            axis,
            true,
            true,
            &mut self.outbox,
        );
        proof {
            let done = before.at(target as int).add_beside(
                before.options,
                target_tile,
                tile,
                Layout::spec_for_axis(axis),
                true,
                true,
            );
            assert(self@ == before.after(target as int, done));
            lemma_after_wf(before, target as int, done);
            let adopted = before.sections[target as int].adopted(before.layout(), tile);
            assert(gained(before, self@, target as int, adopted));
            lemma_gained_windows(before, self@, target as int, adopted);
        }
        assert(self@.sections[target as int] == self.sections@[target as int]@);
        assert(self@.sections[target as int].wf());
        let new_pos = self.sections[target].active_tile_offset(&self.options.layout);
        let window: u64 = self.sections[target].active_tile().id;
        self.outbox.push(window, TileEffect::AnimateMoveFrom { delta: prev_pos.sub(new_pos) });
        self.follow_width_change(target, prev_next);
    }

    /// Takes a window of another section and places it beside the focused window, in a split along
    /// an axis: a given window, or else the focused one of the next section.
    #[verifier::spinoff_prover]
    pub fn consume_window_into_split(
        &mut self,
        direction: Option<SplitAxis>,
        window: Option<u64>,
    )
        requires
            old(self)@.wf(),
            old(self)@.has_room(),
        ensures
            final(self)@ == old(self)@.consume_window_into_split(direction, window),
            final(self)@.wf(),
            keeps_windows(old(self)@, final(self)@),
    {
        if self.sections.len() < 2 {
            return;
        }
        let axis = match direction {
            Some(axis) => axis,
            None => SplitAxis::Main,
        };
        let target: usize = self.props.active_section_idx;
        let (source, tile) = self.split_source(window);
        assert(self@.sections[target as int] == self.sections@[target as int]@);
        assert(self@.sections[source as int] == self.sections@[source as int]@);
        if !self.sections[target].pending_sizing_mode().is_normal() {
            return;
        }
        let target_tile: usize = self.sections[target].active_leaf_idx();
        let shift = self.section_main_pos(source).sub(self.section_main_pos(target));
        let prev_pos = self.sections[source].active_tile_offset(&self.options.layout).add(
            main_space_vec(shift),
        );
        let removed = self.take(source, tile, None);
        self.split_with(target_tile, removed.tile, axis, prev_pos);
    }
}

} // verus!
