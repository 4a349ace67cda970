//! Adding tiles and sections to the space.
use vstd::multiset::Multiset;
use vstd::prelude::*;

use crate::animation::AnimationKind;
use crate::config::{Options, SectionWidth, SizingMode, SplitAxis};
use crate::scalar::{num, Scalar};
use crate::section::{axis_of, Section, SectionProps, SectionView};
use crate::section_edit::inserted_among;
use crate::section_size::{work, Work};
use crate::space::{
    in_step, lemma_after_wf, lemma_in_step, ScrollingSpace, SpaceProps, SpaceView,
};
use crate::tile::{Tile, TileEffect};
use crate::tile_node::Layout;
use crate::view_offset::ViewOffset;
use crate::windows::{
    gains_window, gains_windows, keeps_windows, lemma_bag_single, lemma_gained_windows,
    lemma_windows_insert, lemma_windows_pointwise, lemma_windows_update,
};

verus! {

/// The given animation, or else the usual one.
pub open spec fn kind_or(kind: Option<AnimationKind>, usual: AnimationKind) -> AnimationKind {
    match kind {
        Some(kind) => kind,
        None => usual,
    }
}

pub(crate) fn pick_kind(kind: Option<AnimationKind>, usual: AnimationKind) -> (r: AnimationKind)
    ensures
        r == kind_or(kind, usual),
{
    match kind {
        Some(kind) => kind,
        None => usual,
    }
}

/// Whether the sections of two spaces have the same tiles.
pub open spec fn same_tiles<N: Scalar>(a: SpaceView<N>, b: SpaceView<N>) -> bool {
    &&& a.sections.len() == b.sections.len()
    &&& forall|j: int|
        0 <= j < a.sections.len() ==> (#[trigger] a.sections[j]).tiles() == b.sections[j].tiles()
}

/// Whether a section has gained a tile, and the others are as they were.
pub open spec fn gained<N: Scalar>(
    had: SpaceView<N>,
    has: SpaceView<N>,
    col: int,
    tile: Tile<N>,
) -> bool {
    &&& had.sections.len() == has.sections.len()
    &&& forall|j: int|
        0 <= j < had.sections.len() && j != col ==> (#[trigger] has.sections[j]).tiles()
            == had.sections[j].tiles()
    &&& inserted_among(had.sections[col].tiles(), has.sections[col].tiles(), tile)
}

impl<N: Scalar> SectionView<N> {
    pub open spec fn with_pending_split(self, axis: Option<SplitAxis>) -> Self {
        SectionView { props: SectionProps { pending_split_direction: axis, ..self.props }, ..self }
    }
}

impl<N: Scalar> SpaceView<N> {
    /// The space with some sections, from `from` to before `to`, moving from an offset.
    pub open spec fn with_moved(self, from: int, to: int, offset: N, kind: AnimationKind) -> Self {
        SpaceView {
            sections: Seq::new(
                self.sections.len(),
                |i: int|
                    if from <= i < to {
                        self.sections[i].moving_from(offset, kind)
                    } else {
                        self.sections[i]
                    },
            ),
            ..self
        }
    }

    /// The space with the sections on one side of a section moving, once that section has become
    /// wider by `offset`: those after it, or, where the active section is after it, it and those
    /// before it.
    pub open spec fn with_grown(self, col: int, offset: N, kind: AnimationKind) -> Self {
        if self.props.active_section_idx <= col {
            self.with_moved(col + 1, self.sections.len() as int, offset.spec_neg(), kind)
        } else {
            self.with_moved(0, col + 1, offset, kind)
        }
    }

    /// The space after the width of a section has changed, where the next one started at
    /// `prev_next` before.
    pub open spec fn with_width_change(self, col: int, prev_next: N) -> Self {
        let offset = self.section_pos(col + 1) - prev_next;
        if offset.spec_same(num::<N>(0)) {
            self
        } else {
            self.with_grown(col, offset, AnimationKind::WindowMovement)
        }
    }

    pub open spec fn activated_if(self, activate: bool, col: usize) -> Self {
        if activate && self.props.active_section_idx != col {
            self.activated(col, AnimationKind::HorizontalViewMovement)
        } else {
            self
        }
    }

    /// A tile added beside another one of a section that is neither fullscreen nor maximized.
    #[verifier::opaque]
    pub open spec fn with_beside(
        self,
        col: usize,
        tile_idx: usize,
        tile: Tile<N>,
        layout: Layout,
        place_after: bool,
        activate: bool,
    ) -> Self {
        let prev_next = self.section_pos(col + 1);
        self.after(
            col as int,
            self.at(col as int).add_beside(
                self.options,
                tile_idx,
                tile,
                layout,
                place_after,
                activate,
            ),
        ).activated_if(activate, col).with_width_change(col as int, prev_next)
    }

    pub open spec fn add_beside(
        self,
        col: usize,
        tile_idx: usize,
        tile: Tile<N>,
        layout: Layout,
        place_after: bool,
        activate: bool,
    ) -> Self {
        if self.sections[col as int].pending_sizing_mode() == SizingMode::Normal {
            self.with_beside(col, tile_idx, tile, layout, place_after, activate)
        } else {
            self.add_tile_to_section(col, None, tile, activate)
        }
    }

    /// The tab behind the active one fading out, once a tab was added: the one that was active
    /// before, or else the added one.
    pub open spec fn with_fade(
        self,
        col: int,
        activate: bool,
        prev_active: u64,
        new_leaf_idx: int,
    ) -> Self {
        let section = self.sections[col];
        let fade = TileEffect::AnimateAlpha {
            from: num::<N>(1),
            to: num::<N>(0),
            kind: AnimationKind::WindowMovement,
        };
        if !section.root.is_tabbed() {
            self
        } else if !activate {
            SpaceView { out: self.out.push(section.tiles()[new_leaf_idx].id, fade), ..self }
        } else if section.contains(prev_active) {
            SpaceView { out: self.out.push(prev_active, fade), ..self }
        } else {
            self
        }
    }

    /// A tile added as a row of a section.
    #[verifier::opaque]
    pub open spec fn with_row(
        self,
        col: usize,
        tile_idx: Option<usize>,
        tile: Tile<N>,
        activate: bool,
    ) -> Self {
        let section = self.sections[col as int];
        let prev_next = self.section_pos(col + 1);
        let leaf_idx = match tile_idx {
            Some(idx) => idx,
            None => section.tiles().len() as usize,
        };
        let row = section.root_with_row(
            self.layout(),
            leaf_idx,
            section.adopted(self.layout(), tile),
            activate,
        ).1;
        let added = self.after(
            col as int,
            self.at(col as int).add_tile_at(self.options, leaf_idx, tile, activate),
        );
        let faded = added.activated_if(activate, col).with_fade(
            col as int,
            activate,
            section.root.active_leaf().id,
            added.sections[col as int].leaves_before(row as int),
        );
        faded.with_grown(
            col as int,
            faded.section_pos(col + 1) - prev_next,
            AnimationKind::WindowMovement,
        )
    }

    #[verifier::opaque]
    pub open spec fn add_tile_to_section(
        self,
        col: usize,
        tile_idx: Option<usize>,
        tile: Tile<N>,
        activate: bool,
    ) -> Self {
        let section = self.sections[col as int];
        let taken = SpaceView {
            sections: self.sections.update(col as int, section.with_pending_split(None)),
            ..self
        };
        match section.props.pending_split_direction {
            Some(axis) if section.pending_sizing_mode() == SizingMode::Normal => taken.with_beside(
                col,
                section.active_leaf_idx(),
                tile,
                Layout::spec_for_axis(axis),
                true,
                activate,
            ),
            _ => taken.with_row(col, tile_idx, tile, activate),
        }
    }

    /// A section inserted among the others.
    #[verifier::opaque]
    pub open spec fn with_inserted(
        self,
        idx: int,
        section: SectionView<N>,
        activate: bool,
        kind: Option<AnimationKind>,
    ) -> Self {
        let was_empty = self.sections.len() == 0;
        let active = self.props.active_section_idx;
        let inserted = SpaceView {
            sections: self.sections.insert(idx, section),
            props: SpaceProps {
                active_section_idx: if !was_empty && idx <= active {
                    (active + 1) as usize
                } else {
                    active
                },
                ..self.props
            },
            ..self
        };
        let offset = inserted.section_pos(idx + 1) - inserted.section_pos(idx);
        let move_kind = kind_or(kind, AnimationKind::WindowMovement);
        let moved = if inserted.props.active_section_idx <= idx {
            inserted.with_moved(
                idx + 1,
                inserted.sections.len() as int,
                offset.spec_neg(),
                move_kind,
            )
        } else {
            inserted.with_moved(0, idx, offset, move_kind)
        };
        if activate {
            moved.with_new_active(idx, was_empty, kind)
        } else {
            moved
        }
    }

    /// The space with a section activated that was just made.
    pub open spec fn with_new_active(
        self,
        idx: int,
        was_empty: bool,
        kind: Option<AnimationKind>,
    ) -> Self {
        let ready = if was_empty {
            let still = self.with_view_offset(ViewOffset::Static(num::<N>(0)));
            still.with_view_offset(ViewOffset::Static(still.offset_for(None, idx, None)))
        } else {
            self
        };
        let prev_offset = if !was_empty && idx == self.props.active_section_idx + 1 {
            Some(ready.props.view_offset.spec_stationary())
        } else {
            None
        };
        let activated = ready.activated(
            idx as usize,
            kind_or(kind, AnimationKind::HorizontalViewMovement),
        );
        activated.with_props(
            SpaceProps { activate_prev_section_on_removal: prev_offset, ..activated.props },
        )
    }

    /// Where a section goes: to a given place, or else right after the active one.
    pub open spec fn place_of_new(self, idx: Option<usize>) -> int {
        match idx {
            Some(idx) => idx as int,
            None => if self.sections.len() == 0 {
                0
            } else {
                self.props.active_section_idx + 1
            },
        }
    }

    pub open spec fn add_section(
        self,
        idx: Option<usize>,
        section: SectionView<N>,
        section_options: Options<N>,
        activate: bool,
        kind: Option<AnimationKind>,
    ) -> Self {
        let told = work(section, self.out).update_config(
            section_options,
            self.options,
            self.place(),
        );
        SpaceView { out: told.out, ..self }.with_inserted(
            self.place_of_new(idx),
            told.section,
            activate,
            kind,
        )
    }

    /// A tile added in a section of its own.
    #[verifier::opaque]
    pub open spec fn with_own_section(
        self,
        idx: Option<usize>,
        tile: Tile<N>,
        activate: bool,
        width: SectionWidth<N>,
        is_full_width: bool,
        kind: Option<AnimationKind>,
    ) -> Self {
        let made = Work::new_with_tile(
            self.out,
            self.options,
            tile,
            self.place(),
            width,
            is_full_width,
        );
        SpaceView { out: made.out, ..self }.add_section(
            idx,
            made.section,
            self.options,
            activate,
            kind,
        )
    }

    #[verifier::opaque]
    pub open spec fn add_tile(
        self,
        idx: Option<usize>,
        tile: Tile<N>,
        activate: bool,
        width: SectionWidth<N>,
        is_full_width: bool,
        kind: Option<AnimationKind>,
    ) -> Self {
        let active = self.active();
        match active.props.pending_split_direction {
            Some(axis) if idx is None && self.sections.len() > 0 && active.pending_sizing_mode()
                == SizingMode::Normal => {
                let at = self.props.active_section_idx;
                SpaceView {
                    sections: self.sections.update(at as int, active.with_pending_split(None)),
                    ..self
                }.add_beside(
                    at,
                    active.active_leaf_idx(),
                    tile,
                    Layout::spec_for_axis(axis),
                    true,
                    activate,
                )
            },
            _ => self.with_own_section(idx, tile, activate, width, is_full_width, kind),
        }
    }
}

impl<N: Scalar> ScrollingSpace<N> {
    /// Lets some sections, from `from` to before `to`, move from an offset.
    #[verifier::spinoff_prover]
    pub(crate) fn move_sections(&mut self, from: usize, to: usize, offset: N, kind: AnimationKind)
        requires
            old(self)@.loose(),
            from <= to <= old(self)@.sections.len(),
        ensures
            final(self)@ == old(self)@.with_moved(from as int, to as int, offset, kind),
            final(self)@.loose(),
            old(self)@.wf() ==> final(self)@.wf(),
            final(self)@.sections.len() == old(self)@.sections.len(),
            same_tiles(old(self)@, final(self)@),
            keeps_windows(old(self)@, final(self)@),
            old(self)@.has_room() ==> final(self)@.has_room(),
    {
        let ghost before = self@;
        let mut i: usize = from;
        assert(before.with_moved(from as int, from as int, offset, kind).sections
            =~= before.sections);
        while i < to
            invariant
                from <= i <= to <= before.sections.len(),
                before.loose(),
                self@ == before.with_moved(from as int, i as int, offset, kind),
                self@.loose(),
            decreases to - i,
        {
            let ghost prev = self@;
            assert(self@.sections[i as int] == self.sections@[i as int]@);
            assert(prev.sections[i as int] == before.sections[i as int]);
            self.sections[i].animate_move_from_with_config(offset, kind);
            proof {
                assert(self@.sections =~= prev.sections.update(
                    i as int,
                    self.sections@[i as int]@,
                ));
                assert(self@.sections =~= before.with_moved(
                    from as int,
                    i as int + 1,
                    offset,
                    kind,
                ).sections);
                assert forall|j: int| 0 <= j < self@.sections.len() implies (
                #[trigger] self@.sections[j]).wf() by {
                    if j != i {
                        assert(self@.sections[j] == prev.sections[j]);
                    }
                }
                lemma_in_step(prev, self@);
            }
            i = i + 1;
        }
        assert forall|j: int| 0 <= j < self@.sections.len() implies (
        #[trigger] self@.sections[j]).tiles() == before.sections[j].tiles() by {
        }
        proof {
            lemma_windows_pointwise(self@.sections, before.sections);
        }
    }

    /// Lets the sections on one side of a section move that has become wider.
    pub(crate) fn grow_around(&mut self, col: usize, offset: N, kind: AnimationKind)
        requires
            old(self)@.loose(),
            col < old(self)@.sections.len(),
        ensures
            final(self)@ == old(self)@.with_grown(col as int, offset, kind),
            final(self)@.loose(),
            old(self)@.wf() ==> final(self)@.wf(),
            same_tiles(old(self)@, final(self)@),
            keeps_windows(old(self)@, final(self)@),
    {
        if self.props.active_section_idx <= col {
            let end: usize = self.sections.len();
            self.move_sections(col + 1, end, offset.neg(), kind);
        } else {
            self.move_sections(0, col + 1, offset, kind);
        }
    }

    /// Moves sections to account for a changed width of one of them.
    pub(crate) fn follow_width_change(&mut self, col: usize, prev_next: N)
        requires
            old(self)@.wf(),
            col < old(self)@.sections.len(),
        ensures
            final(self)@ == old(self)@.with_width_change(col as int, prev_next),
            final(self)@.wf(),
            same_tiles(old(self)@, final(self)@),
            keeps_windows(old(self)@, final(self)@),
    {
        let offset = self.section_main_pos(col + 1).sub(prev_next);
        if !offset.same(N::of_int(0)) {
            self.grow_around(col, offset, AnimationKind::WindowMovement);
        }
    }

    fn activate_if(&mut self, activate: bool, col: usize)
        requires
            old(self)@.wf(),
            col < old(self)@.sections.len(),
        ensures
            final(self)@ == old(self)@.activated_if(activate, col),
            final(self)@.wf(),
            keeps_windows(old(self)@, final(self)@),
            final(self)@.sections == old(self)@.sections,
            same_tiles(old(self)@, final(self)@),
    {
        if activate && self.props.active_section_idx != col {
            self.activate_section(col);
        }
    }

    #[verifier::spinoff_prover]
    fn insert_beside(
        &mut self,
        col_idx: usize,
        tile_idx: usize,
        tile: Tile<N>,
        layout: Layout,
        place_after: bool,
        activate: bool,
    )
        requires
            old(self)@.wf(),
            old(self)@.has_room(),
            col_idx < old(self)@.sections.len(),
        ensures
            final(self)@ == old(self)@.with_beside(
                col_idx,
                tile_idx,
                tile,
                layout,
                place_after,
                activate,
            ),
            final(self)@.wf(),
            final(self)@.options == old(self)@.options,
            gains_window(old(self)@, final(self)@, tile.id),
            gained(
                old(self)@,
                final(self)@,
                col_idx as int,
                old(self)@.sections[col_idx as int].adopted(old(self)@.layout(), tile),
            ),
            final(self)@.sections.len() == old(self)@.sections.len(),
    {
        reveal(SpaceView::with_beside);
        let ghost before = self@;
        let prev_next = self.section_main_pos(col_idx + 1);
        assert(before.sections[col_idx as int].wf());
        assert(before.sections[col_idx as int].tiles().len() < usize::MAX);
        self.sections[col_idx].add_beside(
            &self.options,
            tile_idx,
            tile,
            layout,
            place_after,
            activate,
            &mut self.outbox,
        );
        proof {
            assert(self@ == before.after(
                col_idx as int,
                before.at(col_idx as int).add_beside(
                    before.options,
                    tile_idx,
                    tile,
                    layout,
                    place_after,
                    activate,
                ),
            ));
            assert forall|j: int| 0 <= j < self@.sections.len() implies (
            #[trigger] self@.sections[j]).wf() by {
                if j != col_idx {
                    assert(self@.sections[j] == before.sections[j]);
                }
            }
        }
        proof {
            let adopted = before.sections[col_idx as int].adopted(before.layout(), tile);
            assert(gained(before, self@, col_idx as int, adopted));
            lemma_gained_windows(before, self@, col_idx as int, adopted);
            lemma_in_step(before, self@);
        }
        self.activate_if(activate, col_idx);
        self.follow_width_change(col_idx, prev_next);
    }

    /// Adds a tile beside a tile of a section, along an axis. A section that is fullscreen or
    /// maximized gets it as a row instead.
    #[verifier::spinoff_prover]
    pub fn add_tile_to_split(
        &mut self,
        col_idx: usize,
        tile_idx: usize,
        axis: SplitAxis,
        place_after: bool,
        tile: Tile<N>,
        activate: bool,
    )
        requires
            old(self)@.wf(),
            old(self)@.has_room(),
            col_idx < old(self)@.sections.len(),
        ensures
            final(self)@ == old(self)@.add_beside(
                col_idx,
                tile_idx,
                tile,
                Layout::spec_for_axis(axis),
                place_after,
                activate,
            ),
            final(self)@.wf(),
            gains_window(old(self)@, final(self)@, tile.id),
            final(self)@.options == old(self)@.options,
            gained(
                old(self)@,
                final(self)@,
                col_idx as int,
                old(self)@.sections[col_idx as int].adopted(old(self)@.layout(), tile),
            ),
            final(self)@.sections.len() == old(self)@.sections.len(),
    {
        assert(self@.sections[col_idx as int] == self.sections@[col_idx as int]@);
        if !self.sections[col_idx].pending_sizing_mode().is_normal() {
            self.add_tile_to_section(col_idx, None, tile, activate);
            return;
        }
        let layout = Layout::split_for_axis(axis);
        self.insert_beside(col_idx, tile_idx, tile, layout, place_after, activate);
    }

    /// Groups a tile into tabs with a tile of a section. A section that is fullscreen or maximized
    /// gets it as a row instead.
    #[verifier::spinoff_prover]
    pub fn add_tile_as_tab(
        &mut self,
        col_idx: usize,
        tile_idx: usize,
        tile: Tile<N>,
        activate: bool,
    )
        requires
            old(self)@.wf(),
            old(self)@.has_room(),
            col_idx < old(self)@.sections.len(),
        ensures
            final(self)@ == old(self)@.add_beside(
                col_idx,
                tile_idx,
                tile,
                Layout::Tabbed,
                true,
                activate,
            ),
            final(self)@.wf(),
            gains_window(old(self)@, final(self)@, tile.id),
            gained(
                old(self)@,
                final(self)@,
                col_idx as int,
                old(self)@.sections[col_idx as int].adopted(old(self)@.layout(), tile),
            ),
            final(self)@.sections.len() == old(self)@.sections.len(),
    {
        assert(self@.sections[col_idx as int] == self.sections@[col_idx as int]@);
        if !self.sections[col_idx].pending_sizing_mode().is_normal() {
            self.add_tile_to_section(col_idx, None, tile, activate);
            return;
        }
        self.insert_beside(col_idx, tile_idx, tile, Layout::Tabbed, true, activate);
    }

    #[verifier::spinoff_prover]
    fn put_row(&mut self, col_idx: usize, leaf_idx: usize, tile: Tile<N>, activate: bool) -> (r:
        usize)
        requires
            old(self)@.wf(),
            old(self)@.has_room(),
            col_idx < old(self)@.sections.len(),
        ensures
            final(self)@ == old(self)@.after(
                col_idx as int,
                old(self)@.at(col_idx as int).add_tile_at(
                    old(self)@.options,
                    leaf_idx,
                    tile,
                    activate,
                ),
            ),
            final(self)@.wf(),
            gains_window(old(self)@, final(self)@, tile.id),
            gained(
                old(self)@,
                final(self)@,
                col_idx as int,
                old(self)@.sections[col_idx as int].adopted(old(self)@.layout(), tile),
            ),
            r == final(self)@.sections[col_idx as int].leaves_before(
                old(self)@.sections[col_idx as int].root_with_row(
                    old(self)@.layout(),
                    leaf_idx,
                    old(self)@.sections[col_idx as int].adopted(old(self)@.layout(), tile),
                    activate,
                ).1 as int,
            ),
            r < final(self)@.sections[col_idx as int].tiles().len(),
    {
        let ghost before = self@;
        assert(before.sections[col_idx as int] == self.sections@[col_idx as int]@);
        assert(before.sections[col_idx as int].wf());
        assert(before.sections[col_idx as int].tiles().len() < usize::MAX);
        let new_leaf_idx: usize = self.sections[col_idx].add_tile_at(
            &self.options,
            leaf_idx,
            tile,
            activate,
            &mut self.outbox,
        );
        proof {
            let done = before.at(col_idx as int).add_tile_at(
                before.options,
                leaf_idx,
                tile,
                activate,
            );
            assert(self@ == before.after(col_idx as int, done));
            lemma_after_wf(before, col_idx as int, done);
            let adopted = before.sections[col_idx as int].adopted(before.layout(), tile);
            assert(gained(before, self@, col_idx as int, adopted));
            lemma_gained_windows(before, self@, col_idx as int, adopted);
        }
        new_leaf_idx
    }

    #[verifier::spinoff_prover]
    fn fade_behind(&mut self, col: usize, activate: bool, prev_active: u64, new_leaf_idx: usize)
        requires
            old(self)@.wf(),
            col < old(self)@.sections.len(),
            new_leaf_idx < old(self)@.sections[col as int].tiles().len(),
        ensures
            final(self)@ == old(self)@.with_fade(
                col as int,
                activate,
                prev_active,
                new_leaf_idx as int,
            ),
            final(self)@.sections == old(self)@.sections,
            final(self)@.wf(),
            keeps_windows(old(self)@, final(self)@),
    {
        assert(self@.sections[col as int] == self.sections@[col as int]@);
        if self.sections[col].is_tabbed() {
            let fade = TileEffect::AnimateAlpha {
                from: N::of_int(1),
                to: N::of_int(0),
                kind: AnimationKind::WindowMovement,
            };
            if activate {
                if self.sections[col].contains(prev_active) {
                    self.outbox.push(prev_active, fade);
                }
            } else {
                let new_id: u64 = self.sections[col].tile(new_leaf_idx).id;
                self.outbox.push(new_id, fade);
            }
        }
    }

    #[verifier::spinoff_prover]
    #[verifier::rlimit(40)]
    fn insert_row(
        &mut self,
        col_idx: usize,
        tile_idx: Option<usize>,
        tile: Tile<N>,
        activate: bool,
    )
        requires
            old(self)@.wf(),
            old(self)@.has_room(),
            col_idx < old(self)@.sections.len(),
        ensures
            final(self)@ == old(self)@.with_row(col_idx, tile_idx, tile, activate),
            final(self)@.wf(),
            final(self)@.options == old(self)@.options,
            gains_window(old(self)@, final(self)@, tile.id),
            gained(
                old(self)@,
                final(self)@,
                col_idx as int,
                old(self)@.sections[col_idx as int].adopted(old(self)@.layout(), tile),
            ),
    {
        reveal(SpaceView::with_row);
        let ghost before = self@;
        let prev_next = self.section_main_pos(col_idx + 1);
        assert(before.sections[col_idx as int] == self.sections@[col_idx as int]@);
        let leaf_idx: usize = match tile_idx {
            Some(idx) => idx,
            None => self.sections[col_idx].tiles_len(),
        };
        let prev_active: u64 = self.sections[col_idx].active_tile().id;
        let new_leaf_idx: usize = self.put_row(col_idx, leaf_idx, tile, activate);
        self.activate_if(activate, col_idx);
        self.fade_behind(col_idx, activate, prev_active, new_leaf_idx);
        let offset = self.section_main_pos(col_idx + 1).sub(prev_next);
        self.grow_around(col_idx, offset, AnimationKind::WindowMovement);
    }

    /// Adds a tile to a section: beside the active tile where the section waits for a split, or
    /// else as a row.
    #[verifier::spinoff_prover]
    pub fn add_tile_to_section(
        &mut self,
        col_idx: usize,
        tile_idx: Option<usize>,
        tile: Tile<N>,
        activate: bool,
    )
        requires
            old(self)@.wf(),
            old(self)@.has_room(),
            col_idx < old(self)@.sections.len(),
        ensures
            final(self)@ == old(self)@.add_tile_to_section(col_idx, tile_idx, tile, activate),
            final(self)@.wf(),
            gains_window(old(self)@, final(self)@, tile.id),
            final(self)@.options == old(self)@.options,
            gained(
                old(self)@,
                final(self)@,
                col_idx as int,
                old(self)@.sections[col_idx as int].adopted(old(self)@.layout(), tile),
            ),
            final(self)@.sections.len() == old(self)@.sections.len(),
    {
        reveal(SpaceView::add_tile_to_section);
        let ghost before = self@;
        assert(before.sections[col_idx as int] == self.sections@[col_idx as int]@);
        let pending = self.sections[col_idx].props.pending_split_direction;
        self.clear_pending_split(col_idx);
        assert(self@.sections[col_idx as int] == self.sections@[col_idx as int]@);
        if let Some(axis) = pending {
            if self.sections[col_idx].pending_sizing_mode().is_normal() {
                let active: usize = self.sections[col_idx].active_leaf_idx();
                let layout = Layout::split_for_axis(axis);
                self.insert_beside(col_idx, active, tile, layout, true, activate);
                return;
            }
        }
        self.insert_row(col_idx, tile_idx, tile, activate);
    }

    #[verifier::spinoff_prover]
    fn clear_pending_split(&mut self, col_idx: usize)
        requires
            old(self)@.wf(),
            col_idx < old(self)@.sections.len(),
        ensures
            final(self)@ == (SpaceView {
                sections: old(self)@.sections.update(
                    col_idx as int,
                    old(self)@.sections[col_idx as int].with_pending_split(None),
                ),
                ..old(self)@
            }),
            final(self)@.wf(),
            keeps_windows(old(self)@, final(self)@),
            old(self)@.has_room() ==> final(self)@.has_room(),
    {
        let ghost before = self@;
        let section = &mut self.sections[col_idx];
        section.props.pending_split_direction = None;
        proof {
            assert(self@.sections =~= before.sections.update(
                col_idx as int,
                before.sections[col_idx as int].with_pending_split(None),
            ));
            lemma_windows_update(
                before.sections,
                col_idx as int,
                before.sections[col_idx as int].with_pending_split(None),
            );
            assert forall|j: int| 0 <= j < self@.sections.len() implies (
            #[trigger] self@.sections[j]).wf() && self@.sections[j].tiles()
                == before.sections[j].tiles() by {
                if j != col_idx {
                    assert(self@.sections[j] == before.sections[j]);
                } else {
                    assert(before.sections[j].wf());
                }
            }
            lemma_in_step(before, self@);
        }
    }

    /// Puts a section among the others.
    #[verifier::spinoff_prover]
    pub(crate) fn insert_section(
        &mut self,
        idx: usize,
        section: Section<N>,
        activate: bool,
        kind: Option<AnimationKind>,
    )
        requires
            old(self)@.wf(),
            old(self)@.sections.len() < usize::MAX,
            idx <= old(self)@.sections.len(),
            section@.wf(),
            section@.place() == old(self)@.place(),
        ensures
            final(self)@ == old(self)@.with_inserted(idx as int, section@, activate, kind),
            final(self)@.wf(),
            final(self)@.options == old(self)@.options,
            gains_windows(old(self)@, final(self)@, section@.windows()),
            final(self)@.sections.len() == old(self)@.sections.len() + 1,
            final(self)@.sections[idx as int].tiles() == section@.tiles(),
    {
        reveal(SpaceView::with_inserted);
        let ghost before = self@;
        let was_empty = self.is_empty();
        self.sections.insert(idx, section);
        if !was_empty && idx <= self.props.active_section_idx {
            self.props.active_section_idx = self.props.active_section_idx + 1;
        }
        proof {
            assert(self@.sections =~= before.sections.insert(idx as int, section@));
            lemma_windows_insert(before.sections, idx as int, section@);
            assert forall|j: int| 0 <= j < self@.sections.len() implies (
            #[trigger] self@.sections[j]).wf() by {
                if j < idx {
                    assert(self@.sections[j] == before.sections[j]);
                } else if j > idx {
                    assert(self@.sections[j] == before.sections[j - 1]);
                }
            }
            assert(self@.is_in_step()) by {
                reveal(in_step);
                assert forall|j: int| 0 <= j < self@.sections.len() implies (
                #[trigger] self@.sections[j]).place() == before.place() by {
                    if j < idx {
                        assert(self@.sections[j] == before.sections[j]);
                    } else if j > idx {
                        assert(self@.sections[j] == before.sections[j - 1]);
                    }
                }
            }
        }
        let offset = self.section_main_pos(idx + 1).sub(self.section_main_pos(idx));
        let move_kind = pick_kind(kind, AnimationKind::WindowMovement);
        if self.props.active_section_idx <= idx {
            let end: usize = self.sections.len();
            self.move_sections(idx + 1, end, offset.neg(), move_kind);
        } else {
            self.move_sections(0, idx, offset, move_kind);
        }
        if activate {
            self.activate_new(idx, was_empty, kind);
        }
    }

    fn activate_new(&mut self, idx: usize, was_empty: bool, kind: Option<AnimationKind>)
        requires
            old(self)@.wf(),
            idx < old(self)@.sections.len(),
        ensures
            final(self)@ == old(self)@.with_new_active(idx as int, was_empty, kind),
            final(self)@.wf(),
            keeps_windows(old(self)@, final(self)@),
    {
        // The first window of an empty space removes the effect of whatever view offset was left
        // over, without an animation.
        if was_empty {
            self.props.view_offset = ViewOffset::Static(N::of_int(0));
            let offset = self.compute_new_view_offset_for_section(None, idx, None);
            self.props.view_offset = ViewOffset::Static(offset);
        }
        let prev_offset = if !was_empty && idx > 0 && idx - 1 == self.props.active_section_idx {
            Some(self.props.view_offset.stationary())
        } else {
            None
        };
        self.activate_section_with_anim_config(
            idx,
            pick_kind(kind, AnimationKind::HorizontalViewMovement),
        );
        self.props.activate_prev_section_on_removal = prev_offset;
    }

    /// Adds a section that was laid out with some options so far: at a given place, or else right
    /// after the active section.
    #[verifier::spinoff_prover]
    pub fn add_section(
        &mut self,
        idx: Option<usize>,
        section: Section<N>,
        section_options: &Options<N>,
        activate: bool,
        kind: Option<AnimationKind>,
    )
        requires
            old(self)@.wf(),
            old(self)@.sections.len() < usize::MAX,
            idx matches Some(idx) ==> idx <= old(self)@.sections.len(),
            section@.wf(),
        ensures
            final(self)@ == old(self)@.add_section(
                idx,
                section@,
                *section_options,
                activate,
                kind,
            ),
            final(self)@.wf(),
            gains_windows(old(self)@, final(self)@, section@.windows()),
            final(self)@.sections.len() == old(self)@.sections.len() + 1,
    {
        let at: usize = match idx {
            Some(idx) => idx,
            None => if self.is_empty() {
                0
            } else {
                self.props.active_section_idx + 1
            },
        };
        let place = self.place();
        let mut section = section;
        section.update_config(section_options, &self.options, place, &mut self.outbox);
        self.insert_section(at, section, activate, kind);
    }

    #[verifier::spinoff_prover]
    fn add_own_section(
        &mut self,
        col_idx: Option<usize>,
        tile: Tile<N>,
        activate: bool,
        width: SectionWidth<N>,
        is_full_width: bool,
        kind: Option<AnimationKind>,
    )
        requires
            old(self)@.wf(),
            old(self)@.sections.len() < usize::MAX,
            col_idx matches Some(idx) ==> idx <= old(self)@.sections.len(),
        ensures
            final(self)@ == old(self)@.with_own_section(
                col_idx,
                tile,
                activate,
                width,
                is_full_width,
                kind,
            ),
            final(self)@.wf(),
            final(self)@.options == old(self)@.options,
            gains_window(old(self)@, final(self)@, tile.id),
            final(self)@.sections.len() == old(self)@.sections.len() + 1,
            col_idx matches Some(idx) ==> final(self)@.sections[idx as int].tiles().len() == 1,
    {
        reveal(SpaceView::with_own_section);
        let at: usize = match col_idx {
            Some(idx) => idx,
            None => if self.is_empty() {
                0
            } else {
                self.props.active_section_idx + 1
            },
        };
        let place = self.place();
        let mut section = Section::new_with_tile(
            &self.options,
            tile,
            place,
            width,
            is_full_width,
            &mut self.outbox,
        );
        section.update_config(&self.options, &self.options, place, &mut self.outbox);
        let ghost before = self@;
        proof {
            lemma_bag_single(
                tile.configured(
                    axis_of(before.layout()).spec_size(place.view_size),
                    place.scale,
                ),
            );
            let windows = before.windows();
            assert(windows.add(Multiset::empty().insert(tile.id)) =~= windows.insert(tile.id));
        }
        self.insert_section(at, section, activate, kind);
    }

    /// Adds a tile: beside the active one where the active section waits for a split, or else in a
    /// section of its own.
    #[verifier::spinoff_prover]
    #[verifier::rlimit(60)]
    pub fn add_tile(
        &mut self,
        col_idx: Option<usize>,
        tile: Tile<N>,
        activate: bool,
        width: SectionWidth<N>,
        is_full_width: bool,
        kind: Option<AnimationKind>,
    )
        requires
            old(self)@.wf(),
            old(self)@.has_room(),
            col_idx matches Some(idx) ==> idx <= old(self)@.sections.len(),
        ensures
            final(self)@ == old(self)@.add_tile(
                col_idx,
                tile,
                activate,
                width,
                is_full_width,
                kind,
            ),
            final(self)@.wf(),
            gains_window(old(self)@, final(self)@, tile.id),
            final(self)@.options == old(self)@.options,
            col_idx is Some ==> final(self)@.sections.len() == old(self)@.sections.len() + 1,
            col_idx matches Some(idx) ==> final(self)@.sections[idx as int].tiles().len() == 1,
    {
        reveal(SpaceView::add_tile);
        if col_idx.is_none() && !self.is_empty() {
            let active: usize = self.props.active_section_idx;
            assert(self@.sections[active as int] == self.sections@[active as int]@);
            assert(self@.sections[active as int].wf());
            if self.sections[active].pending_sizing_mode().is_normal() {
                if let Some(axis) = self.sections[active].props.pending_split_direction {
                    let target: usize = self.sections[active].active_leaf_idx();
                    self.clear_pending_split(active);
                    self.add_tile_to_split(active, target, axis, true, tile, activate);
                    return;
                }
            }
        }
        self.add_own_section(col_idx, tile, activate, width, is_full_width, kind);
    }

    /// Adds a tile in a section of its own, right after the section that has a window.
    pub fn add_tile_right_of(
        &mut self,
        right_of: u64,
        tile: Tile<N>,
        activate: bool,
        width: SectionWidth<N>,
        is_full_width: bool,
    )
        requires
            old(self)@.wf(),
            old(self)@.has_room(),
            old(self)@.section_of(right_of) is Some,
        ensures
            final(self)@ == old(self)@.add_tile(
                Some((old(self)@.section_of(right_of)->0 + 1) as usize),
                tile,
                activate,
                width,
                is_full_width,
                None,
            ),
            final(self)@.wf(),
            gains_window(old(self)@, final(self)@, tile.id),
    {
        if let Some(idx) = self.section_of(right_of) {
            self.add_tile(Some(idx + 1), tile, activate, width, is_full_width, None);
        }
    }
}

} // verus!
