//! Changing the sizes of windows and sections of the space.
use vstd::prelude::*;

use crate::animation::AnimationKind;
use crate::config::{SectionWidth, SizeChange, SizingMode};
use crate::scalar::{num, Scalar};
use crate::section::{SectionProps, SectionView};
use crate::section_size::{work, Work};
use crate::section_state::{cancel_resize_for_section, resize_without};
use crate::space::{lemma_after_wf, ScrollingSpace, SpaceProps, SpaceView};
use crate::tile::TileEffect;
use crate::windows::keeps_windows;

verus! {

/// What is found of the sections that are wholly in view.
#[derive(Clone, Copy, PartialEq, Eq, Debug)]
pub struct VisibleScan<N> {
    /// The span that they take, with a gap after each.
    pub occupied: N,
    /// The start of the first one that does not start before the view.
    pub first: Option<N>,
    /// The start of the active one, if it is among them.
    pub active: Option<N>,
    /// Whether another one than the active one is among them.
    pub has_other: bool,
    /// Whether the end of the view was reached.
    pub stopped: bool,
}

impl<N: Scalar> SectionView<N> {
    /// The section with a fixed width.
    pub open spec fn with_fixed_width(self, width: N) -> Self {
        SectionView {
            props: SectionProps {
                width: SectionWidth::Fixed(width),
                preset_width_idx: None,
                is_full_width: false,
                ..self.props
            },
            ..self
        }
    }
}

impl<N: Scalar> SpaceView<N> {
    /// The space with any resize of windows of a section called off.
    pub open spec fn resize_cancelled(self, col: int) -> Self {
        SpaceView {
            props: SpaceProps {
                interactive_resize: resize_without(
                    self.props.interactive_resize,
                    self.sections[col],
                ),
                ..self.props
            },
            out: self.out.push_all(
                self.sections[col].tiles(),
                TileEffect::CancelInteractiveResize,
            ),
            ..self
        }
    }

    /// The sections in view among the first `upto`.
    pub open spec fn scan_upto(self, upto: int) -> VisibleScan<N>
        decreases upto,
    {
        if upto <= 0 {
            VisibleScan {
                occupied: num::<N>(0),
                first: None,
                active: None,
                has_other: false,
                stopped: false,
            }
        } else {
            let before = self.scan_upto(upto - 1);
            let gap = self.layout().gaps;
            let view = self.target_view_pos() + self.props.working_area.loc.x;
            let main = self.section_pos(upto - 1);
            let span = self.width(upto - 1);
            let is_active = upto - 1 == self.props.active_section_idx;
            let first = match before.first {
                Some(first) => Some(first),
                None => Some(main),
            };
            if before.stopped || main < view + gap {
                before
            } else if view + self.props.working_area.size.w < main + span + gap {
                VisibleScan { first, stopped: true, ..before }
            } else {
                VisibleScan {
                    occupied: before.occupied + (span + gap),
                    first,
                    active: if is_active {
                        Some(main)
                    } else {
                        before.active
                    },
                    has_other: before.has_other || !is_active,
                    stopped: false,
                }
            }
        }
    }

    pub open spec fn scan(self) -> VisibleScan<N> {
        self.scan_upto(self.sections.len() as int)
    }

    /// The view sent to an offset from the active section, and then to where that is in view.
    pub open spec fn view_settled(self, new_view_offset: N) -> Self {
        let active = self.props.active_section_idx as int;
        self.view_sent(active, new_view_offset, AnimationKind::HorizontalViewMovement).view_sent_to(
            None,
            active,
            None,
            AnimationKind::HorizontalViewMovement,
        )
    }

    /// The sections in view centered as a whole.
    pub open spec fn center_visible_sections(self) -> Self {
        let scan = self.scan();
        let area = self.props.working_area;
        if self.sections.len() == 0 || self.is_centering() || scan.active is None {
            self
        } else {
            let free = area.size.w - scan.occupied + self.layout().gaps;
            let new_view = scan.first->0 - free.spec_div(num::<N>(2)) - area.loc.x;
            self.resize_cancelled(self.props.active_section_idx as int).view_settled(
                new_view - scan.active->0,
            )
        }
    }

    pub open spec fn full_width_toggled(self) -> Self {
        let active = self.props.active_section_idx as int;
        self.after(active, self.at(active).toggle_full_width(self.options))
    }

    /// The active section made as wide as what is free of the view.
    pub open spec fn expand_section(self) -> Self {
        let active = self.props.active_section_idx as int;
        let section = self.active();
        let scan = self.scan();
        let gap = self.layout().gaps;
        let area = self.props.working_area;
        let available = area.size.w - gap - scan.occupied - section.extra_size().w;
        if self.sections.len() == 0 || section.pending_sizing_mode() != SizingMode::Normal
            || section.props.is_full_width {
            self
        } else if self.is_centering() {
            self.full_width_toggled().resize_cancelled(active)
        } else if scan.active is None || available <= num::<N>(0) {
            self
        } else if !scan.has_other {
            self.resize_cancelled(active).full_width_toggled()
        } else {
            let free = self.resize_cancelled(active);
            free.after(
                active,
                work(section.with_fixed_width(self.width(active) + available), free.out).sized(
                    self.options,
                    true,
                ),
            ).view_settled(scan.first->0 - gap - area.loc.x - scan.active->0)
        }
    }

    /// The space after a section was resized.
    pub open spec fn resized(self, col: int, done: Work<N>) -> Self {
        self.after(col, done).resize_cancelled(col)
    }

    /// Whether a section has to give up a window that is to take the whole screen.
    pub open spec fn has_to_expel(self, col: int) -> bool {
        let section = self.sections[col];
        section.tiles().len() > 1 && (!section.root.is_tabbed() || section.active_tab_is_nested())
    }

    /// The space with a window in a section that can take the whole screen, and that section.
    pub open spec fn made_single(self, col: int, window: u64, expel: bool) -> (Self, int) {
        let free = self.resize_cancelled(col);
        if expel && self.has_to_expel(col) {
            (free.expelled_right(col, self.sections[col].position(window)->0), col + 1)
        } else {
            (free, col)
        }
    }

    pub open spec fn set_fullscreen(self, window: u64, is_fullscreen: bool) -> Self {
        let col = self.section_of(window)->0 as int;
        if is_fullscreen == self.sections[col].props.is_pending_fullscreen {
            self
        } else {
            let (single, at) = self.made_single(col, window, is_fullscreen);
            single.after(at, single.at(at).set_fullscreen(self.options, is_fullscreen))
        }
    }

    pub open spec fn set_maximized(self, window: u64, maximize: bool) -> Self {
        let col = self.section_of(window)->0 as int;
        if maximize == self.sections[col].props.is_pending_maximized {
            self
        } else {
            let (single, at) = self.made_single(col, window, maximize);
            single.after(at, single.at(at).set_maximized(self.options, maximize))
        }
    }
}

impl<N: Scalar> ScrollingSpace<N> {
    /// Calls off any resize of windows of a section.
    pub(crate) fn cancel_resize(&mut self, col: usize)
        requires
            old(self)@.wf(),
            col < old(self)@.sections.len(),
        ensures
            final(self)@ == old(self)@.resize_cancelled(col as int),
            final(self)@.wf(),
            keeps_windows(old(self)@, final(self)@),
    {
        assert(self@.sections[col as int] == self.sections@[col as int]@);
        let mut resize = self.props.interactive_resize;
        cancel_resize_for_section(&mut resize, &self.sections[col], &mut self.outbox);
        self.props.interactive_resize = resize;
    }

    /// The sections that are wholly in view once the view has come to rest.
    fn scan(&self) -> (r: VisibleScan<N>)
        requires
            self@.wf(),
        ensures
            r == self@.scan(),
    {
        let gap = self.options.layout.gaps;
        let positions = self.section_main_positions();
        let area = self.props.working_area;
        let view = self.target_view_main_pos().add(area.loc.x);
        let mut scan: VisibleScan<N> = VisibleScan {
            occupied: N::of_int(0),
            first: None,
            active: None,
            has_other: false,
            stopped: false,
        };
        let mut i: usize = 0;
        while i < self.sections.len()
            invariant
                i <= self.sections.len(),
                self@.wf(),
                gap == self@.layout().gaps,
                area == self@.props.working_area,
                view == self@.target_view_pos() + area.loc.x,
                positions@ == Seq::new(
                    self@.sections.len() + 1,
                    |j: int| self@.section_pos(j),
                ),
                scan == self@.scan_upto(i as int),
            decreases self.sections.len() - i,
        {
            let main = positions[i];
            if !scan.stopped && !main.lt(view.add(gap)) {
                if scan.first.is_none() {
                    scan.first = Some(main);
                }
                let span = self.section_width(i);
                if view.add(area.size.w).lt(main.add(span).add(gap)) {
                    scan.stopped = true;
                } else {
                    if i == self.props.active_section_idx {
                        scan.active = Some(main);
                    } else {
                        scan.has_other = true;
                    }
                    scan.occupied = scan.occupied.add(span.add(gap));
                }
            }
            i = i + 1;
        }
        scan
    }

    fn settle_view(&mut self, new_view_offset: N)
        requires
            old(self)@.wf(),
            old(self)@.sections.len() > 0,
        ensures
            final(self)@ == old(self)@.view_settled(new_view_offset),
            final(self)@.wf(),
            keeps_windows(old(self)@, final(self)@),
    {
        let active: usize = self.props.active_section_idx;
        self.animate_view_offset(active, new_view_offset);
        self.animate_view_offset_to_section(None, active, None);
    }

    /// Centers the sections that are wholly in view, as a whole.
    pub fn center_visible_sections(&mut self)
        requires
            old(self)@.wf(),
        ensures
            final(self)@ == old(self)@.center_visible_sections(),
            final(self)@.wf(),
            keeps_windows(old(self)@, final(self)@),
    {
        if self.is_empty() || self.is_centering_focused_section() {
            return;
        }
        let scan = self.scan();
        if let (Some(first), Some(active_main)) = (scan.first, scan.active) {
            let active: usize = self.props.active_section_idx;
            let area = self.props.working_area;
            self.cancel_resize(active);
            let free = area.size.w.sub(scan.occupied).add(self.options.layout.gaps);
            let new_view = first.sub(free.div(N::of_int(2))).sub(area.loc.x);
            self.settle_view(new_view.sub(active_main));
        } else {
            proof {
                lemma_scan(self@, self@.sections.len() as int);
            }
        }
    }

    fn toggle_active_full_width(&mut self)
        requires
            old(self)@.wf(),
            old(self)@.sections.len() > 0,
        ensures
            final(self)@ == old(self)@.full_width_toggled(),
            final(self)@.wf(),
            keeps_windows(old(self)@, final(self)@),
            final(self)@.sections.len() == old(self)@.sections.len(),
    {
        let ghost before = self@;
        let active: usize = self.props.active_section_idx;
        assert(before.sections[active as int] == self.sections@[active as int]@);
        assert(before.sections[active as int].wf());
        self.sections[active].toggle_full_width(&self.options, &mut self.outbox);
        proof {
            let done = before.at(active as int).toggle_full_width(before.options);
            assert(self@ == before.after(active as int, done));
            lemma_after_wf(before, active as int, done);
        }
    }

    fn widen_active(&mut self, width: N)
        requires
            old(self)@.wf(),
            old(self)@.sections.len() > 0,
        ensures
            final(self)@ == old(self)@.after(
                old(self)@.props.active_section_idx as int,
                work(old(self)@.active().with_fixed_width(width), old(self)@.out).sized(
                    old(self)@.options,
                    true,
                ),
            ),
            final(self)@.wf(),
            keeps_windows(old(self)@, final(self)@),
            final(self)@.sections.len() == old(self)@.sections.len(),
    {
        let ghost before = self@;
        let active: usize = self.props.active_section_idx;
        assert(before.sections[active as int] == self.sections@[active as int]@);
        assert(before.sections[active as int].wf());
        let section = &mut self.sections[active];
        section.props.width = SectionWidth::Fixed(width);
        section.props.preset_width_idx = None;
        section.props.is_full_width = false;
        section.update_tile_sizes(&self.options, true, &mut self.outbox);
        proof {
            let done = work(before.active().with_fixed_width(width), before.out).sized(
                before.options,
                true,
            );
            assert(self@ == before.after(active as int, done));
            lemma_after_wf(before, active as int, done);
        }
    }

    /// Makes the active section as wide as what is free of the view, next to the sections that are
    /// wholly in view.
    pub fn expand_section_to_available_width(&mut self)
        requires
            old(self)@.wf(),
        ensures
            final(self)@ == old(self)@.expand_section(),
            final(self)@.wf(),
            keeps_windows(old(self)@, final(self)@),
    {
        if self.is_empty() {
            return;
        }
        let active: usize = self.props.active_section_idx;
        assert(self@.sections[active as int] == self.sections@[active as int]@);
        assert(self@.sections[active as int].wf());
        if !self.sections[active].pending_sizing_mode().is_normal()
            || self.sections[active].props.is_full_width {
            return;
        }
        if self.is_centering_focused_section() {
            self.toggle_active_full_width();
            self.cancel_resize(active);
            return;
        }
        let scan = self.scan();
        proof {
            lemma_scan(self@, self@.sections.len() as int);
        }
        let (first, active_main) = match (scan.first, scan.active) {
            (Some(first), Some(active_main)) => (first, active_main),
            _ => {
                return;
            },
        };
        let gap = self.options.layout.gaps;
        let area = self.props.working_area;
        let available = area.size.w.sub(gap).sub(scan.occupied).sub(
            self.sections[active].extra_size().w,
        );
        if available.le(N::of_int(0)) {
            return;
        }
        let width = self.section_width(active).add(available);
        self.cancel_resize(active);
        if !scan.has_other {
            self.toggle_active_full_width();
            return;
        }
        self.widen_active(width);
        self.settle_view(first.sub(gap).sub(area.loc.x).sub(active_main));
    }

    /// Switches the active section to the next preset width, or to the previous one.
    pub fn toggle_width(&mut self, forwards: bool)
        requires
            old(self)@.wf(),
            old(self)@.sections.len() > 0 ==> old(self)@.options.preset_section_widths@.len() > 0,
        ensures
            final(self)@ == if old(self)@.sections.len() > 0 {
                let col = old(self)@.props.active_section_idx as int;
                old(self)@.resized(
                    col,
                    old(self)@.at(col).toggle_width(
                        old(self)@.options,
                        old(self)@.active().active_leaf_idx(),
                        forwards,
                    ),
                )
            } else {
                old(self)@
            },
            final(self)@.wf(),
            keeps_windows(old(self)@, final(self)@),
    {
        self.toggle_window_width(None, forwards);
    }

    pub fn toggle_full_width(&mut self)
        requires
            old(self)@.wf(),
        ensures
            final(self)@ == if old(self)@.sections.len() > 0 {
                old(self)@.full_width_toggled().resize_cancelled(
                    old(self)@.props.active_section_idx as int,
                )
            } else {
                old(self)@
            },
            final(self)@.wf(),
            keeps_windows(old(self)@, final(self)@),
    {
        if !self.is_empty() {
            let active: usize = self.props.active_section_idx;
            self.toggle_active_full_width();
            self.cancel_resize(active);
        }
    }

    /// Changes the width of a window: of its place in the nearest split along the main axis, or
    /// else of its section.
    pub fn set_window_width(&mut self, window: Option<u64>, change: SizeChange<N>)
        requires
            old(self)@.wf(),
            old(self)@.sections.len() > 0 ==> (window matches Some(window) ==> old(
                self,
            )@.section_of(window) is Some),
        ensures
            final(self)@ == if old(self)@.sections.len() > 0 {
                let (col, tile) = old(self)@.source_of(window);
                old(self)@.resized(
                    col as int,
                    old(self)@.at(col as int).set_split_child_width(
                        old(self)@.options,
                        change,
                        tile,
                        true,
                    ),
                )
            } else {
                old(self)@
            },
            final(self)@.wf(),
            keeps_windows(old(self)@, final(self)@),
    {
        if self.is_empty() {
            return;
        }
        let ghost before = self@;
        let (col, tile) = self.source_of(window);
        assert(before.sections[col as int] == self.sections@[col as int]@);
        assert(before.sections[col as int].wf());
        self.sections[col].set_split_child_width(
            &self.options,
            change,
            tile,
            true,
            &mut self.outbox,
        );
        proof {
            let done = before.at(col as int).set_split_child_width(
                before.options,
                change,
                tile,
                true,
            );
            assert(self@ == before.after(col as int, done));
            lemma_after_wf(before, col as int, done);
        }
        self.cancel_resize(col);
    }

    /// Changes the height of a window.
    pub fn set_window_height(&mut self, window: Option<u64>, change: SizeChange<N>)
        requires
            old(self)@.wf(),
            old(self)@.sections.len() > 0 ==> (window matches Some(window) ==> old(
                self,
            )@.section_of(window) is Some),
        ensures
            final(self)@ == if old(self)@.sections.len() > 0 {
                let (col, tile) = old(self)@.source_of(window);
                old(self)@.resized(
                    col as int,
                    old(self)@.at(col as int).set_window_height(
                        old(self)@.options,
                        change,
                        tile,
                        true,
                    ),
                )
            } else {
                old(self)@
            },
            final(self)@.wf(),
            keeps_windows(old(self)@, final(self)@),
    {
        if self.is_empty() {
            return;
        }
        let ghost before = self@;
        let (col, tile) = self.source_of(window);
        assert(before.sections[col as int] == self.sections@[col as int]@);
        assert(before.sections[col as int].wf());
        self.sections[col].set_window_height(&self.options, change, tile, true, &mut self.outbox);
        proof {
            let done = before.at(col as int).set_window_height(before.options, change, tile, true);
            assert(self@ == before.after(col as int, done));
            lemma_after_wf(before, col as int, done);
        }
        self.cancel_resize(col);
    }

    /// Makes the height of a window automatic again.
    pub fn reset_window_height(&mut self, window: Option<u64>)
        requires
            old(self)@.wf(),
            old(self)@.sections.len() > 0 ==> (window matches Some(window) ==> old(
                self,
            )@.section_of(window) is Some),
        ensures
            final(self)@ == if old(self)@.sections.len() > 0 {
                let (col, tile) = old(self)@.source_of(window);
                old(self)@.resized(
                    col as int,
                    old(self)@.at(col as int).reset_window_height(old(self)@.options, tile),
                )
            } else {
                old(self)@
            },
            final(self)@.wf(),
            keeps_windows(old(self)@, final(self)@),
    {
        if self.is_empty() {
            return;
        }
        let ghost before = self@;
        let (col, tile) = self.source_of(window);
        assert(before.sections[col as int] == self.sections@[col as int]@);
        assert(before.sections[col as int].wf());
        self.sections[col].reset_window_height(&self.options, tile, &mut self.outbox);
        proof {
            let done = before.at(col as int).reset_window_height(before.options, tile);
            assert(self@ == before.after(col as int, done));
            lemma_after_wf(before, col as int, done);
        }
        self.cancel_resize(col);
    }

    /// Switches the section of a window to the next preset width, or to the previous one.
    pub fn toggle_window_width(&mut self, window: Option<u64>, forwards: bool)
        requires
            old(self)@.wf(),
            old(self)@.sections.len() > 0 ==> old(self)@.options.preset_section_widths@.len() > 0,
            old(self)@.sections.len() > 0 ==> (window matches Some(window) ==> old(
                self,
            )@.section_of(window) is Some),
        ensures
            final(self)@ == if old(self)@.sections.len() > 0 {
                let (col, tile) = old(self)@.source_of(window);
                old(self)@.resized(
                    col as int,
                    old(self)@.at(col as int).toggle_width(old(self)@.options, tile, forwards),
                )
            } else {
                old(self)@
            },
            final(self)@.wf(),
            keeps_windows(old(self)@, final(self)@),
    {
        if self.is_empty() {
            return;
        }
        let ghost before = self@;
        let (col, tile) = self.source_of(window);
        assert(before.sections[col as int] == self.sections@[col as int]@);
        assert(before.sections[col as int].wf());
        self.sections[col].toggle_width(&self.options, tile, forwards, &mut self.outbox);
        proof {
            let done = before.at(col as int).toggle_width(before.options, tile, forwards);
            assert(self@ == before.after(col as int, done));
            lemma_after_wf(before, col as int, done);
        }
        self.cancel_resize(col);
    }

    /// Switches a window to the next preset height, or to the previous one.
    pub fn toggle_window_height(&mut self, window: Option<u64>, forwards: bool)
        requires
            old(self)@.wf(),
            old(self)@.sections.len() > 0 ==> old(self)@.options.preset_window_heights@.len() > 0,
            old(self)@.sections.len() > 0 ==> (window matches Some(window) ==> old(
                self,
            )@.section_of(window) is Some),
        ensures
            final(self)@ == if old(self)@.sections.len() > 0 {
                let (col, tile) = old(self)@.source_of(window);
                old(self)@.resized(
                    col as int,
                    old(self)@.at(col as int).toggle_window_height(
                        old(self)@.options,
                        tile,
                        forwards,
                    ),
                )
            } else {
                old(self)@
            },
            final(self)@.wf(),
            keeps_windows(old(self)@, final(self)@),
    {
        if self.is_empty() {
            return;
        }
        let ghost before = self@;
        let (col, tile) = self.source_of(window);
        assert(before.sections[col as int] == self.sections@[col as int]@);
        assert(before.sections[col as int].wf());
        self.sections[col].toggle_window_height(&self.options, tile, forwards, &mut self.outbox);
        proof {
            let done = before.at(col as int).toggle_window_height(before.options, tile, forwards);
            assert(self@ == before.after(col as int, done));
            lemma_after_wf(before, col as int, done);
        }
        self.cancel_resize(col);
    }

    fn make_single(&mut self, col: usize, window: u64, expel: bool) -> (r: usize)
        requires
            old(self)@.wf(),
            expel ==> old(self)@.has_room(),
            col < old(self)@.sections.len(),
            old(self)@.sections[col as int].contains(window),
        ensures
            (final(self)@, r as int) == old(self)@.made_single(col as int, window, expel),
            final(self)@.wf(),
            keeps_windows(old(self)@, final(self)@),
            final(self)@.options == old(self)@.options,
            r < final(self)@.sections.len(),
            expel ==> final(self)@.sections[r as int].tiles().len() == 1
                || final(self)@.sections[r as int].root.is_tabbed(),
    {
        assert(self@.sections[col as int] == self.sections@[col as int]@);
        assert(self@.sections[col as int].wf());
        let section = &self.sections[col];
        proof {
            crate::tree_walk::lemma_has_leaf(section@.root);
        }
        let has_to_expel = section.tiles_len() > 1 && (!section.is_tabbed()
            || section.active_tab_is_nested());
        let tile: usize = match section.position(window) {
            Some(tile) => tile,
            None => 0,
        };
        self.cancel_resize(col);
        if expel && has_to_expel {
            self.expel_right(col, tile);
            col + 1
        } else {
            col
        }
    }

    /// Makes the section of a window fullscreen, or lets it leave fullscreen. A window that is not
    /// alone gets a section of its own first. Tells whether anything was to be done.
    pub fn set_fullscreen(&mut self, window: u64, is_fullscreen: bool) -> (r: bool)
        requires
            old(self)@.wf(),
            is_fullscreen ==> old(self)@.has_room(),
            old(self)@.section_of(window) is Some,
        ensures
            final(self)@ == old(self)@.set_fullscreen(window, is_fullscreen),
            r == (is_fullscreen != old(self)@.sections[old(self)@.section_of(
                window,
            )->0 as int].props.is_pending_fullscreen),
            final(self)@.wf(),
            keeps_windows(old(self)@, final(self)@),
    {
        let col: usize = match self.section_of(window) {
            Some(col) => col,
            None => 0,
        };
        assert(self@.sections[col as int] == self.sections@[col as int]@);
        if is_fullscreen == self.sections[col].props.is_pending_fullscreen {
            return false;
        }
        let at: usize = self.make_single(col, window, is_fullscreen);
        let ghost single = self@;
        assert(single.sections[at as int] == self.sections@[at as int]@);
        assert(single.sections[at as int].wf());
        self.sections[at].set_fullscreen(&self.options, is_fullscreen, &mut self.outbox);
        proof {
            let done = single.at(at as int).set_fullscreen(single.options, is_fullscreen);
            assert(self@ == single.after(at as int, done));
            lemma_after_wf(single, at as int, done);
        }
        true
    }

    /// Maximizes the section of a window, or lets it leave that. A window that is not alone gets a
    /// section of its own first. Tells whether anything was to be done.
    pub fn set_maximized(&mut self, window: u64, maximize: bool) -> (r: bool)
        requires
            old(self)@.wf(),
            maximize ==> old(self)@.has_room(),
            old(self)@.section_of(window) is Some,
        ensures
            final(self)@ == old(self)@.set_maximized(window, maximize),
            r == (maximize != old(self)@.sections[old(self)@.section_of(
                window,
            )->0 as int].props.is_pending_maximized),
            final(self)@.wf(),
            keeps_windows(old(self)@, final(self)@),
    {
        let col: usize = match self.section_of(window) {
            Some(col) => col,
            None => 0,
        };
        assert(self@.sections[col as int] == self.sections@[col as int]@);
        if maximize == self.sections[col].props.is_pending_maximized {
            return false;
        }
        let at: usize = self.make_single(col, window, maximize);
        let ghost single = self@;
        assert(single.sections[at as int] == self.sections@[at as int]@);
        assert(single.sections[at as int].wf());
        self.sections[at].set_maximized(&self.options, maximize, &mut self.outbox);
        proof {
            let done = single.at(at as int).set_maximized(single.options, maximize);
            assert(self@ == single.after(at as int, done));
            lemma_after_wf(single, at as int, done);
        }
        true
    }
}

/// Where the active section is found in view, so is a first one.
proof fn lemma_scan<N: Scalar>(space: SpaceView<N>, upto: int)
    ensures
        space.scan_upto(upto).active is Some ==> space.scan_upto(upto).first is Some,
    decreases upto,
{
    if upto > 0 {
        lemma_scan(space, upto - 1);
    }
}

} // verus!
