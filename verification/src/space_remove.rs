//! Taking tiles and sections out of the space.
use vstd::multiset::Multiset;
use vstd::prelude::*;

use crate::animation::AnimationKind;
use crate::config::{Options, SectionWidth, SizingMode};
use crate::scalar::{num, Scalar};
use crate::section::{lemma_section_tiles, Section, SectionView};
use crate::section_size::{lemma_data_only, lemma_with_sizes, work, Work};
use crate::section_state::resize_without;
use crate::space::{in_step, lemma_after_wf, ScrollingSpace, SpaceProps, SpaceView};
use crate::space_add::{kind_or, pick_kind, same_tiles};
use crate::tile::{Outbox, Tile, TileEffect};
use crate::tile_node::{ChildSpan, SplitChildData};
use crate::windows::{
    keeps_windows, lemma_bag_contains, lemma_bag_single, lemma_lost_section_windows,
    lemma_lost_windows, loses_window, loses_windows,
};

verus! {

/// A tile that was taken out, and how its section was.
#[derive(Clone, Copy, PartialEq, Eq, Debug)]
pub struct RemovedTile<N> {
    pub tile: Tile<N>,
    pub width: SectionWidth<N>,
    pub is_full_width: bool,
    pub is_floating: bool,
}

/// Whether a section has lost a tile, and the others are as they were.
pub open spec fn lost<N: Scalar>(
    had: SpaceView<N>,
    has: SpaceView<N>,
    col: int,
    idx: int,
) -> bool {
    &&& had.sections.len() == has.sections.len()
    &&& forall|j: int|
        0 <= j < had.sections.len() && j != col ==> (#[trigger] has.sections[j]).tiles()
            == had.sections[j].tiles()
    &&& has.sections[col].tiles() == had.sections[col].tiles().remove(idx)
}

/// Whether a section is gone, and the others are as they were.
pub open spec fn lost_section<N: Scalar>(had: SpaceView<N>, has: SpaceView<N>, col: int) -> bool {
    &&& has.sections.len() == had.sections.len() - 1
    &&& forall|j: int|
        0 <= j < has.sections.len() ==> (#[trigger] has.sections[j]).tiles() == had.sections[if j
            < col {
            j
        } else {
            j + 1
        }].tiles()
}

/// What is taken out of a section along with a tile.
pub open spec fn removed_from<N: Scalar>(section: SectionView<N>, tile_idx: int) -> RemovedTile<N> {
    RemovedTile {
        tile: section.tiles()[tile_idx],
        width: section.props.width,
        is_full_width: section.props.is_full_width,
        is_floating: false,
    }
}

impl<N: Scalar> SectionView<N> {
    /// The section with the weight of a single tile made one.
    pub open spec fn with_weight_reset(self) -> Self {
        let data = self.root.child_data();
        if self.tiles().len() == 1 && data[0].span is Auto {
            self.with_root(
                self.root.with_child_data(
                    data.update(
                        0,
                        SplitChildData { span: ChildSpan::spec_auto_1(), ..data[0] },
                    ),
                ),
            )
        } else {
            self
        }
    }
}

impl<N: Scalar> Work<N> {
    /// The tiles after a tile move up, and the tile fades in where it was not shown.
    pub open spec fn leaving(self, options: Options<N>, idx: usize, kind: AnimationKind) -> Self {
        let section = self.section;
        let offset = section.tile_offset(options.layout, idx + 1).y - section.tile_offset(
            options.layout,
            idx as int,
        ).y;
        let moved = Work {
            out: self.out.push_all(
                section.tiles().skip(idx + 1),
                TileEffect::AnimateMoveYFrom {
                    delta: offset,
                    kind: AnimationKind::WindowMovement,
                },
            ),
            ..self
        };
        if section.root.is_tabbed() && idx != section.root.active_idx() {
            moved.push(
                section.tiles()[idx as int].id,
                TileEffect::AnimateAlpha { from: num::<N>(0), to: num::<N>(1), kind },
            )
        } else {
            moved
        }
    }

    /// A tile taken out of a section that has others. The active tile stays active; where it was
    /// the one taken out, the next one is, or else the previous one.
    #[verifier::opaque]
    pub open spec fn take_tile(
        self,
        options: Options<N>,
        idx: usize,
        transaction: u64,
        kind: AnimationKind,
    ) -> Self {
        let section = self.section;
        let rest = section.without_tile(idx).with_weight_reset();
        let left = self.leaving(options, idx, kind).with_section(rest);
        let opaque = TileEffect::EnsureAlphaAnimatesTo1;
        let shown = if section.root.has_nested_children() {
            left.push(rest.root.active_leaf().id, opaque)
        } else if idx != section.root.active_idx() {
            left
        } else if idx == rest.tiles().len() {
            left.activate_idx((idx - 1) as usize)
        } else {
            left.push(rest.tiles()[idx as int].id, opaque)
        };
        shown.sized_in(options, true, transaction)
    }
}

impl<N: Scalar> SpaceView<N> {
    /// The space with sections moving in place of one that is taken out, or that shrinks, by
    /// `offset`.
    pub open spec fn with_shrunk(self, col: int, offset: N, kind: AnimationKind) -> Self {
        if self.props.active_section_idx <= col {
            self.with_moved(col + 1, self.sections.len() as int, offset, kind)
        } else {
            self.with_moved(0, col + 1, offset.spec_neg(), kind)
        }
    }

    /// A tile taken out of a section that has others.
    pub open spec fn without_tile(
        self,
        col: int,
        tile_idx: usize,
        transaction: u64,
        kind: Option<AnimationKind>,
    ) -> Self {
        let section = self.sections[col];
        let move_kind = kind_or(kind, AnimationKind::WindowMovement);
        let done = self.at(col).take_tile(self.options, tile_idx, transaction, move_kind);
        let rest = section.without_tile(tile_idx);
        let window = section.tiles()[tile_idx as int].id;
        let taken = self.after(col, done).with_props(
            SpaceProps {
                view_offset_to_restore: if col == self.props.active_section_idx
                    && section.sizing_mode() != SizingMode::Normal && rest.sizing_mode()
                    == SizingMode::Normal {
                    None
                } else {
                    self.props.view_offset_to_restore
                },
                interactive_resize: match self.props.interactive_resize {
                    Some(resize) if resize.window == window => None,
                    _ => self.props.interactive_resize,
                },
                ..self.props
            },
        );
        taken.with_shrunk(col, self.width(col) - taken.width(col), move_kind)
    }

    /// The space with sections moving in place of a section that is to be taken out.
    pub open spec fn closing_in(self, col: int, kind: AnimationKind) -> Self {
        let offset = self.section_pos(col + 1) - self.section_pos(col);
        if self.props.active_section_idx <= col {
            self.with_moved(col + 1, self.sections.len() as int, offset, kind)
        } else {
            self.with_moved(0, col, offset.spec_neg(), kind)
        }
    }

    /// A section taken out, before another one is activated.
    pub open spec fn section_taken(self, col: int, kind: AnimationKind) -> Self {
        let moved = self.closing_in(col, kind);
        SpaceView {
            sections: moved.sections.remove(col),
            props: SpaceProps {
                interactive_resize: resize_without(
                    self.props.interactive_resize,
                    self.sections[col],
                ),
                activate_prev_section_on_removal: if col + 1 == self.props.active_section_idx {
                    None
                } else {
                    self.props.activate_prev_section_on_removal
                },
                view_offset_to_restore: if col == self.props.active_section_idx {
                    None
                } else {
                    self.props.view_offset_to_restore
                },
                ..self.props
            },
            ..moved
        }
    }

    /// The previous section activated, at the view offset that it had.
    pub open spec fn back_to_previous(self, prev_offset: N, kind: AnimationKind) -> Self {
        let idx = (self.props.active_section_idx - 1) as usize;
        self.activated(idx, kind).view_sent(idx as int, prev_offset, kind).view_sent_to(
            None,
            idx as int,
            None,
            kind,
        )
    }

    /// The space once a section was taken out and the right one is active.
    pub open spec fn settled_after(self, col: int, kind: Option<AnimationKind>) -> Self {
        let view_kind = kind_or(kind, AnimationKind::HorizontalViewMovement);
        let active = self.props.active_section_idx;
        let last = self.sections.len() - 1;
        if self.sections.len() == 0 {
            self
        } else if col < active {
            self.with_props(
                SpaceProps {
                    active_section_idx: (active - 1) as usize,
                    activate_prev_section_on_removal: None,
                    ..self.props
                },
            )
        } else if col == active && self.props.activate_prev_section_on_removal is Some {
            if col > 0 {
                self.back_to_previous(
                    self.props.activate_prev_section_on_removal->0,
                    view_kind,
                )
            } else {
                self
            }
        } else {
            self.activated(
                if active < last {
                    active
                } else {
                    last as usize
                },
                view_kind,
            )
        }
    }

    pub open spec fn without_section(self, col: int, kind: Option<AnimationKind>) -> Self {
        self.section_taken(col, kind_or(kind, AnimationKind::WindowMovement)).settled_after(
            col,
            kind,
        )
    }

    #[verifier::opaque]
    pub open spec fn remove_tile_by_idx(
        self,
        col: int,
        tile_idx: usize,
        transaction: u64,
        kind: Option<AnimationKind>,
    ) -> Self {
        if self.sections[col].tiles().len() == 1 {
            self.without_section(col, kind)
        } else {
            self.without_tile(col, tile_idx, transaction, kind)
        }
    }
}

pub proof fn lemma_weight_reset<N: Scalar>(section: SectionView<N>)
    requires
        section.wf(),
    ensures
        section.with_weight_reset().wf(),
        section.with_weight_reset().tiles() == section.tiles(),
        section.with_weight_reset().root.active_leaf() == section.root.active_leaf(),
        section.with_weight_reset().props == section.props,
{
    let data = section.root.child_data();
    let new = SplitChildData { span: ChildSpan::spec_auto_1(), ..data[0] };
    lemma_data_only(section.root, data.update(0, new));
}

impl<N: Scalar> Section<N> {
    fn reset_weight(&mut self)
        requires
            old(self)@.wf(),
        ensures
            final(self)@ == old(self)@.with_weight_reset(),
            final(self)@.wf(),
            final(self)@.place() == old(self)@.place(),
            final(self)@.tiles() == old(self)@.tiles(),
    {
        proof {
            lemma_weight_reset(self@);
        }
        if self.tiles_len() == 1 {
            let mut data = self.root.child_data();
            if let ChildSpan::Auto { .. } = data[0].span {
                let mut first = data[0];
                first.span = ChildSpan::Auto { weight: N::of_int(1) };
                data.set(0, first);
                self.root.set_all_child_data(data);
            }
        }
    }

    #[verifier::spinoff_prover]
    fn leave(&mut self, options: &Options<N>, idx: usize, kind: AnimationKind, out: &mut Outbox<N>)
        requires
            old(self)@.wf(),
            idx < old(self)@.tiles().len(),
        ensures
            work(final(self)@, final(out)@) == work(old(self)@, old(out)@).leaving(
                *options,
                idx,
                kind,
            ),
            final(self)@ == old(self)@,
            final(self)@.place() == old(self)@.place(),
    {
        let layout = options.layout;
        let offset = self.tile_offset(&layout, idx + 1).y.sub(self.tile_offset(&layout, idx).y);
        let tiles = self.tiles();
        let mut below: Vec<Tile<N>> = Vec::new();
        let mut i: usize = idx + 1;
        while i < tiles.len()
            invariant
                idx < i <= tiles.len(),
                below@ == tiles@.subrange(idx + 1, i as int),
            decreases tiles.len() - i,
        {
            below.push(tiles[i]);
            assert(below@ =~= tiles@.subrange(idx + 1, i + 1));
            i = i + 1;
        }
        assert(below@ =~= tiles@.skip(idx + 1));
        out.push_all(
            &below,
            TileEffect::AnimateMoveYFrom { delta: offset, kind: AnimationKind::WindowMovement },
        );
        if self.is_tabbed() && idx != self.active_tile_idx() {
            out.push(
                tiles[idx].id,
                TileEffect::AnimateAlpha { from: N::of_int(0), to: N::of_int(1), kind },
            );
        }
    }

    /// Takes a tile out of a section that has others. The tiles after it move up, and the active
    /// one is sure to be seen.
    #[verifier::spinoff_prover]
    pub fn take_tile(
        &mut self,
        options: &Options<N>,
        idx: usize,
        transaction: u64,
        kind: AnimationKind,
        out: &mut Outbox<N>,
    ) -> (r: Tile<N>)
        requires
            old(self)@.wf(),
            idx < old(self)@.tiles().len(),
            old(self)@.tiles().len() > 1,
        ensures
            work(final(self)@, final(out)@) == work(old(self)@, old(out)@).take_tile(
                *options,
                idx,
                transaction,
                kind,
            ),
            r == old(self)@.tiles()[idx as int],
            final(self)@.wf(),
            final(self)@.place() == old(self)@.place(),
            final(self)@.tiles() == old(self)@.tiles().remove(idx as int),
    {
        reveal(Work::take_tile);
        self.leave(options, idx, kind, out);
        let was_nested = self.root.has_nested_children();
        let was_active = idx == self.active_tile_idx();
        let tile = self.remove_tile(idx);
        self.reset_weight();
        proof {
            lemma_section_tiles(self@, options.layout);
        }
        let opaque = TileEffect::EnsureAlphaAnimatesTo1;
        if was_nested {
            let active = self.active_tile();
            out.push(active.id, opaque);
        } else if was_active {
            if idx == self.tiles_len() {
                self.activate_idx(idx - 1, out);
            } else {
                let next = self.tile(idx);
                out.push(next.id, opaque);
            }
        }
        proof {
            lemma_with_sizes(self@, *options);
        }
        self.update_tile_sizes_with_transaction(options, true, transaction, out);
        tile
    }
}

impl<N: Scalar> ScrollingSpace<N> {
    #[verifier::spinoff_prover]
    fn pull_tile(
        &mut self,
        section_idx: usize,
        tile_idx: usize,
        transaction: u64,
        kind: AnimationKind,
    ) -> (r: Tile<N>)
        requires
            old(self)@.wf(),
            section_idx < old(self)@.sections.len(),
            tile_idx < old(self)@.sections[section_idx as int].tiles().len(),
            old(self)@.sections[section_idx as int].tiles().len() > 1,
        ensures
            final(self)@ == old(self)@.after(
                section_idx as int,
                old(self)@.at(section_idx as int).take_tile(
                    old(self)@.options,
                    tile_idx,
                    transaction,
                    kind,
                ),
            ),
            r == old(self)@.sections[section_idx as int].tiles()[tile_idx as int],
            final(self)@.wf(),
            old(self)@.windows() == final(self)@.windows().insert(r.id),
            lost(old(self)@, final(self)@, section_idx as int, tile_idx as int),
    {
        let ghost before = self@;
        assert(before.sections[section_idx as int] == self.sections@[section_idx as int]@);
        assert(before.sections[section_idx as int].wf());
        let tile = self.sections[section_idx].take_tile(
            &self.options,
            tile_idx,
            transaction,
            kind,
            &mut self.outbox,
        );
        proof {
            let done = before.at(section_idx as int).take_tile(
                before.options,
                tile_idx,
                transaction,
                kind,
            );
            assert(self@ == before.after(section_idx as int, done));
            lemma_after_wf(before, section_idx as int, done);
            lemma_lost_windows(before, self@, section_idx as int, tile_idx as int);
        }
        tile
    }

    #[verifier::spinoff_prover]
    fn take_tile(
        &mut self,
        section_idx: usize,
        tile_idx: usize,
        transaction: u64,
        kind: Option<AnimationKind>,
    ) -> (r: RemovedTile<N>)
        requires
            old(self)@.wf(),
            section_idx < old(self)@.sections.len(),
            tile_idx < old(self)@.sections[section_idx as int].tiles().len(),
            old(self)@.sections[section_idx as int].tiles().len() > 1,
        ensures
            final(self)@ == old(self)@.without_tile(
                section_idx as int,
                tile_idx,
                transaction,
                kind,
            ),
            r == removed_from(old(self)@.sections[section_idx as int], tile_idx as int),
            final(self)@.wf(),
            loses_window(old(self)@, final(self)@, r.tile.id),
            final(self)@.sections.len() == old(self)@.sections.len(),
            lost(old(self)@, final(self)@, section_idx as int, tile_idx as int),
            old(self)@.has_room() ==> final(self)@.has_room(),
    {
        let ghost before = self@;
        assert(before.sections[section_idx as int] == self.sections@[section_idx as int]@);
        let prev_width = self.section_width(section_idx);
        let move_kind = pick_kind(kind, AnimationKind::WindowMovement);
        let was_normal = self.sections[section_idx].sizing_mode().is_normal();
        let width = self.sections[section_idx].props.width;
        let is_full_width = self.sections[section_idx].props.is_full_width;
        let tile = self.pull_tile(section_idx, tile_idx, transaction, move_kind);
        proof {
            lemma_taken_mode(before.sections[section_idx as int], tile_idx);
            assert(self@.sections[section_idx as int] == self.sections@[section_idx as int]@);
        }
        if section_idx == self.props.active_section_idx && !was_normal
            && self.sections[section_idx].sizing_mode().is_normal() {
            self.props.view_offset_to_restore = None;
        }
        let is_resized = match self.props.interactive_resize {
            Some(resize) => resize.window == tile.id,
            None => false,
        };
        if is_resized {
            self.props.interactive_resize = None;
        }
        let offset = prev_width.sub(self.section_width(section_idx));
        if self.props.active_section_idx <= section_idx {
            let end: usize = self.sections.len();
            self.move_sections(section_idx + 1, end, offset, move_kind);
        } else {
            self.move_sections(0, section_idx + 1, offset.neg(), move_kind);
        }
        proof {
            lemma_lost_room(before, self@, section_idx as int, tile_idx as int);
        }
        RemovedTile { tile, width, is_full_width, is_floating: false }
    }

    pub fn remove_active_tile(&mut self, transaction: u64) -> (r: Option<RemovedTile<N>>)
        requires
            old(self)@.wf(),
        ensures
            old(self)@.sections.len() == 0 ==> r is None && final(self)@ == old(self)@,
            old(self)@.sections.len() > 0 ==> {
                let col = old(self)@.props.active_section_idx as int;
                let idx = old(self)@.active().active_leaf_idx();
                &&& r == Some(removed_from(old(self)@.active(), idx as int))
                &&& final(self)@ == old(self)@.remove_tile_by_idx(col, idx, transaction, None)
            },
            final(self)@.wf(),
            old(self)@.sections.len() > 0 ==> loses_window(
                old(self)@,
                final(self)@,
                r->0.tile.id,
            ),
    {
        if self.is_empty() {
            return None;
        }
        let active: usize = self.props.active_section_idx;
        assert(self@.sections[active as int] == self.sections@[active as int]@);
        assert(self@.sections[active as int].wf());
        let idx: usize = self.sections[active].active_leaf_idx();
        Some(self.remove_tile_by_idx(active, idx, transaction, None))
    }

    /// Takes a window out of the space.
    pub fn remove_tile(&mut self, window: u64, transaction: u64) -> (r: RemovedTile<N>)
        requires
            old(self)@.wf(),
            old(self)@.section_of(window) is Some,
        ensures
            ({
                let col = old(self)@.section_of(window)->0 as int;
                let idx = old(self)@.sections[col].position(window)->0;
                &&& r == removed_from(old(self)@.sections[col], idx as int)
                &&& r.tile.id == window
                &&& final(self)@ == old(self)@.remove_tile_by_idx(col, idx, transaction, None)
            }),
            final(self)@.wf(),
            loses_window(old(self)@, final(self)@, r.tile.id),
    {
        let col: usize = match self.section_of(window) {
            Some(col) => col,
            None => 0,
        };
        assert(self@.sections[col as int] == self.sections@[col as int]@);
        let idx: usize = match self.sections[col].position(window) {
            Some(idx) => idx,
            None => 0,
        };
        self.remove_tile_by_idx(col, idx, transaction, None)
    }

    /// Takes a tile out of a section. The only tile of a section takes the section with it.
    #[verifier::spinoff_prover]
    pub fn remove_tile_by_idx(
        &mut self,
        section_idx: usize,
        tile_idx: usize,
        transaction: u64,
        kind: Option<AnimationKind>,
    ) -> (r: RemovedTile<N>)
        requires
            old(self)@.wf(),
            section_idx < old(self)@.sections.len(),
            tile_idx < old(self)@.sections[section_idx as int].tiles().len(),
        ensures
            final(self)@ == old(self)@.remove_tile_by_idx(
                section_idx as int,
                tile_idx,
                transaction,
                kind,
            ),
            r == removed_from(old(self)@.sections[section_idx as int], tile_idx as int),
            final(self)@.wf(),
            loses_window(old(self)@, final(self)@, r.tile.id),
            final(self)@.options == old(self)@.options,
            final(self)@.sections.len() == old(self)@.sections.len() - if old(
                self,
            )@.sections[section_idx as int].tiles().len() == 1 {
                1int
            } else {
                0int
            },
            old(self)@.sections[section_idx as int].tiles().len() > 1 ==> lost(
                old(self)@,
                final(self)@,
                section_idx as int,
                tile_idx as int,
            ),
            old(self)@.sections[section_idx as int].tiles().len() == 1 ==> lost_section(
                old(self)@,
                final(self)@,
                section_idx as int,
            ),
            old(self)@.has_room() ==> final(self)@.has_room(),
    {
        reveal(SpaceView::remove_tile_by_idx);
        assert(self@.sections[section_idx as int] == self.sections@[section_idx as int]@);
        if self.sections[section_idx].tiles_len() == 1 {
            proof {
                let tiles = self@.sections[section_idx as int].tiles();
                assert(tiles =~= seq![tiles[0]]);
                lemma_bag_single(tiles[0]);
            }
            let section = self.remove_section_by_idx(section_idx, kind);
            proof {
                let id = section@.tiles()[0].id;
                assert(self@.windows().add(Multiset::empty().insert(id))
                    =~= self@.windows().insert(id));
            }
            return RemovedTile {
                tile: section.tile(tile_idx),
                width: section.props.width,
                is_full_width: section.props.is_full_width,
                is_floating: false,
            };
        }
        self.take_tile(section_idx, tile_idx, transaction, kind)
    }

    pub fn remove_active_section(&mut self) -> (r: Option<Section<N>>)
        requires
            old(self)@.wf(),
        ensures
            old(self)@.sections.len() == 0 ==> r is None && final(self)@ == old(self)@,
            old(self)@.sections.len() > 0 ==> {
                &&& r is Some
                &&& r->0@ == old(self)@.active()
                &&& final(self)@ == old(self)@.without_section(
                    old(self)@.props.active_section_idx as int,
                    None,
                )
            },
            final(self)@.wf(),
            old(self)@.sections.len() > 0 ==> loses_windows(
                old(self)@,
                final(self)@,
                old(self)@.active().windows(),
            ),
    {
        if self.is_empty() {
            return None;
        }
        let active: usize = self.props.active_section_idx;
        Some(self.remove_section_by_idx(active, None))
    }

    fn close_in(&mut self, section_idx: usize, kind: AnimationKind)
        requires
            old(self)@.wf(),
            section_idx < old(self)@.sections.len(),
        ensures
            final(self)@ == old(self)@.closing_in(section_idx as int, kind),
            final(self)@.wf(),
            keeps_windows(old(self)@, final(self)@),
            same_tiles(old(self)@, final(self)@),
    {
        let offset = self.section_main_pos(section_idx + 1).sub(
            self.section_main_pos(section_idx),
        );
        if self.props.active_section_idx <= section_idx {
            let end: usize = self.sections.len();
            self.move_sections(section_idx + 1, end, offset, kind);
        } else {
            self.move_sections(0, section_idx, offset.neg(), kind);
        }
    }

    #[verifier::spinoff_prover]
    fn take_section(&mut self, section_idx: usize, kind: AnimationKind) -> (r: Section<N>)
        requires
            old(self)@.wf(),
            section_idx < old(self)@.sections.len(),
        ensures
            final(self)@ == old(self)@.section_taken(section_idx as int, kind),
            r@ == old(self)@.sections[section_idx as int],
            final(self)@.loose(),
            loses_windows(old(self)@, final(self)@, r@.windows()),
            final(self)@.sections.len() == old(self)@.sections.len() - 1,
            final(self)@.props.active_section_idx == old(self)@.props.active_section_idx,
            lost_section(old(self)@, final(self)@, section_idx as int),
            old(self)@.has_room() ==> final(self)@.has_room(),
    {
        let ghost before = self@;
        self.close_in(section_idx, kind);
        let ghost moved = self@;
        assert(moved.sections[section_idx as int] == before.sections[section_idx as int]);
        assert(moved.sections[section_idx as int] == self.sections@[section_idx as int]@);
        let section = self.sections.remove(section_idx);
        proof {
            assert(self@.sections =~= moved.sections.remove(section_idx as int));
            assert forall|j: int| 0 <= j < self@.sections.len() implies (
            #[trigger] self@.sections[j]).wf() by {
                if j < section_idx {
                    assert(self@.sections[j] == moved.sections[j]);
                } else {
                    assert(self@.sections[j] == moved.sections[j + 1]);
                }
            }
            assert(self@.is_in_step()) by {
                reveal(in_step);
                assert forall|j: int| 0 <= j < self@.sections.len() implies (
                #[trigger] self@.sections[j]).place() == moved.place() by {
                    if j < section_idx {
                        assert(self@.sections[j] == moved.sections[j]);
                    } else {
                        assert(self@.sections[j] == moved.sections[j + 1]);
                    }
                }
            }
            lemma_lost_section_windows(before, self@, section_idx as int);
            if let Some(resize) = before.props.interactive_resize {
                lemma_bag_contains(section@.tiles(), resize.window);
            }
        }
        let is_resized = match self.props.interactive_resize {
            Some(resize) => section.contains(resize.window),
            None => false,
        };
        if is_resized {
            self.props.interactive_resize = None;
        }
        let active: usize = self.props.active_section_idx;
        if active > 0 && section_idx == active - 1 {
            self.props.activate_prev_section_on_removal = None;
        }
        if section_idx == active {
            self.props.view_offset_to_restore = None;
        }
        section
    }

    /// Takes out a section. Where the active one was made right after the previous one and nothing
    /// else was focused since, the previous one is activated at the view offset that it had;
    /// otherwise the active one stays, or the next one takes its place.
    pub fn remove_section_by_idx(
        &mut self,
        section_idx: usize,
        kind: Option<AnimationKind>,
    ) -> (r: Section<N>)
        requires
            old(self)@.wf(),
            section_idx < old(self)@.sections.len(),
        ensures
            final(self)@ == old(self)@.without_section(section_idx as int, kind),
            r@ == old(self)@.sections[section_idx as int],
            final(self)@.wf(),
            loses_windows(old(self)@, final(self)@, r@.windows()),
            final(self)@.sections.len() == old(self)@.sections.len() - 1,
            lost_section(old(self)@, final(self)@, section_idx as int),
            old(self)@.has_room() ==> final(self)@.has_room(),
    {
        let section = self.take_section(
            section_idx,
            pick_kind(kind, AnimationKind::WindowMovement),
        );
        self.settle_after(section_idx, kind);
        section
    }

    #[verifier::spinoff_prover]
    fn settle_after(&mut self, section_idx: usize, kind: Option<AnimationKind>)
        requires
            old(self)@.loose(),
            section_idx <= old(self)@.sections.len(),
        ensures
            final(self)@ == old(self)@.settled_after(section_idx as int, kind),
            final(self)@.sections == old(self)@.sections,
            keeps_windows(old(self)@, final(self)@),
            old(self)@.props.active_section_idx < old(self)@.sections.len() || section_idx
                < old(self)@.props.active_section_idx || (section_idx
                == old(self)@.props.active_section_idx) ==> final(self)@.wf(),
    {
        if self.is_empty() {
            return;
        }
        let view_kind = pick_kind(kind, AnimationKind::HorizontalViewMovement);
        let active: usize = self.props.active_section_idx;
        let last: usize = self.sections.len() - 1;
        if section_idx < active {
            self.props.active_section_idx = active - 1;
            self.props.activate_prev_section_on_removal = None;
            return;
        }
        if section_idx == active {
            if let Some(prev_offset) = self.props.activate_prev_section_on_removal {
                if section_idx > 0 {
                    self.activate_section_with_anim_config(active - 1, view_kind);
                    self.animate_view_offset_with_config(active - 1, prev_offset, view_kind);
                    self.animate_view_offset_to_section_with_config(
                        None,
                        active - 1,
                        None,
                        view_kind,
                    );
                }
                return;
            }
        }
        let idx: usize = if active < last {
            active
        } else {
            last
        };
        self.activate_section_with_anim_config(idx, view_kind);
    }
}

/// Where a tile is lost, there is as much room as before.
proof fn lemma_lost_room<N: Scalar>(had: SpaceView<N>, has: SpaceView<N>, col: int, idx: int)
    requires
        lost(had, has, col, idx),
        0 <= col < had.sections.len(),
        0 <= idx < had.sections[col].tiles().len(),
    ensures
        had.has_room() ==> has.has_room(),
{
    if had.has_room() {
        assert forall|j: int| 0 <= j < has.sections.len() implies (
        #[trigger] has.sections[j]).tiles().len() < usize::MAX by {
            assert(had.sections[j].tiles().len() < usize::MAX);
        }
    }
}

/// What is left of a section has the same sizing mode whatever else is done to it.
proof fn lemma_taken_mode<N: Scalar>(section: SectionView<N>, idx: usize)
    requires
        section.wf(),
        idx < section.tiles().len(),
        section.tiles().len() > 1,
    ensures
        section.without_tile(idx).tiles() == section.tiles().remove(idx as int),
{
    crate::tree_walk::lemma_wf_is_sane(section.root);
    crate::tree_walk::lemma_leaf_paths(section.root);
    crate::tree_leaves::lemma_without_leaf(section.root, idx as int);
    crate::tree_edit::lemma_without_leaf_sane(
        section.root,
        section.root.leaf_paths()[idx as int],
    );
    let path = section.root.leaf_paths()[idx as int];
    crate::tree_walk::lemma_parent(section.root, path);
    crate::section_edit::lemma_normalized(section.root.without_leaf(path));
}

} // verus!
