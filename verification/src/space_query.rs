//! Looking at a space, telling it of time and of how it is drawn, and checking it.
use vstd::prelude::*;

use crate::axis::AxisMap;
use crate::config::{
    resolve_preset_size, resolved_preset, Border, PresetSize, ResolvedSize, SectionDisplay,
    SizingMode, WholeSize, WindowRules,
};
use crate::geometry::{Rectangle, Size};
use crate::scalar::{num, Scalar};
use crate::section::{axis_of, main_space_vec, main_vec, Section};
use crate::section_tabs::TabChild;
use crate::space::{
    lemma_after_wf, lemma_in_step, ClosingWindow, ScrollingSpace, SpaceProps, SpaceView,
};
use crate::tab_header::{TabIndicator, TabIndicatorView};
use crate::tile::Tile;
use crate::view_offset::{ViewGesture, ViewOffset};
use crate::working_area::{
    compute_toplevel_bounds, compute_working_area, toplevel_bounds, working_area,
};
use crate::windows::{keeps_windows, lemma_after_windows, lemma_windows_update};

verus! {

/// A whole size turned from the main axis to the screen.
pub open spec fn whole_size_out(axis: AxisMap, size: WholeSize) -> WholeSize {
    if axis.swaps() {
        WholeSize { w: size.h, h: size.w }
    } else {
        size
    }
}

fn turn_whole_size_out(axis: AxisMap, size: WholeSize) -> (r: WholeSize)
    ensures
        r == whole_size_out(axis, size),
{
    if axis.is_vertical() {
        WholeSize { w: size.h, h: size.w }
    } else {
        size
    }
}

/// A span without the border of its window.
pub open spec fn inside_border<N: Scalar>(border: Border<N>, span: N) -> N {
    if border.off {
        span
    } else {
        span - border.width * num::<N>(2)
    }
}

fn without_border<N: Scalar>(border: Border<N>, span: N) -> (r: N)
    ensures
        r == inside_border(border, span),
{
    if border.off {
        span
    } else {
        span.sub(border.width.mul(N::of_int(2)))
    }
}

/// The span of the window that a span stands for.
pub open spec fn window_span<N: Scalar>(border: Border<N>, size: ResolvedSize<N>) -> N {
    match size {
        ResolvedSize::Tile(span) => inside_border(border, span),
        ResolvedSize::Window(span) => span,
    }
}

fn span_of_window<N: Scalar>(border: Border<N>, size: ResolvedSize<N>) -> (r: N)
    ensures
        r == window_span(border, size),
{
    match size {
        ResolvedSize::Tile(span) => without_border(border, span),
        ResolvedSize::Window(span) => span,
    }
}

/// A whole span, at least one.
pub open spec fn whole_span<N: Scalar>(span: N) -> i32 {
    if span.spec_floor().spec_to_i32() < 1 {
        1
    } else {
        span.spec_floor().spec_to_i32()
    }
}

fn make_whole<N: Scalar>(span: N) -> (r: i32)
    ensures
        r == whole_span(span),
{
    let whole: i32 = span.floor().to_i32();
    if whole < 1 {
        1
    } else {
        whole
    }
}

/// Windows that have not faded out yet among the first `upto`.
pub open spec fn still_closing<N>(closing: Seq<ClosingWindow<N>>, upto: int) -> Seq<
    ClosingWindow<N>,
>
    decreases upto,
{
    if upto <= 0 {
        Seq::empty()
    } else {
        let before = still_closing(closing, upto - 1);
        if closing[upto - 1].done {
            before
        } else {
            before.push(closing[upto - 1])
        }
    }
}

impl<N: Scalar> SpaceView<N> {
    /// What a new window takes of the space next to it: a header, if it is going to be a tab.
    pub open spec fn new_window_extra(self, rules: WindowRules<N>) -> Size<N> {
        let display = match rules.default_section_display {
            Some(display) => display,
            None => self.layout().default_section_display,
        };
        if display == SectionDisplay::Tabbed {
            TabIndicatorView::<N>::fresh(self.layout().tab_indicator).extra_size(
                1,
                self.props.scale,
            )
        } else {
            Size::spec_zero()
        }
    }

    pub open spec fn new_window_bounds(self, rules: WindowRules<N>) -> WholeSize {
        whole_size_out(
            axis_of(self.layout()),
            toplevel_bounds(
                rules.border,
                self.props.working_area.size,
                self.new_window_extra(rules),
                self.layout().gaps,
            ),
        )
    }

    /// The span of a window that takes all of the working area across the main axis.
    pub open spec fn full_height(self, rules: WindowRules<N>) -> N {
        inside_border(
            rules.border,
            self.props.working_area.size.h - self.layout().gaps * num::<N>(2),
        )
    }

    /// The size to offer to a new window. No width leaves it to the window; the height is limited
    /// by the working area.
    pub open spec fn new_window_size(
        self,
        width: Option<PresetSize<N>>,
        height: Option<PresetSize<N>>,
        rules: WindowRules<N>,
    ) -> WholeSize {
        let gaps = self.layout().gaps;
        let area = self.props.working_area.size;
        let extra = self.new_window_extra(rules);
        let w = match width {
            Some(preset) => whole_span(
                window_span(rules.border, resolved_preset(preset, gaps, area.w, extra.w)),
            ),
            None => 0,
        };
        let h = match height {
            Some(preset) => window_span(
                rules.border,
                resolved_preset(preset, gaps, area.h, extra.h),
            ).spec_min(self.full_height(rules)),
            None => self.full_height(rules),
        };
        whole_size_out(axis_of(self.layout()), WholeSize { w, h: whole_span(h) })
    }

    /// The first `upto` sections told to load their shaders anew.
    pub open spec fn shaders_updated_upto(self, upto: int) -> Self
        decreases upto,
    {
        if upto <= 0 {
            self
        } else {
            let before = self.shaders_updated_upto(upto - 1);
            before.after(upto - 1, before.at(upto - 1).update_shaders())
        }
    }

    /// The space after time went on.
    pub open spec fn advanced(self, now: u64) -> Self {
        SpaceView {
            sections: Seq::new(self.sections.len(), |i: int| self.sections[i].advanced()),
            closing: still_closing(self.closing, self.closing.len() as int),
            props: SpaceProps { view_offset: self.props.view_offset.advanced(now), ..self.props },
            ..self
        }
    }

    pub open spec fn are_animations_ongoing(self) -> bool {
        ||| self.props.view_offset.spec_is_animation_ongoing()
        ||| exists|i: int|
            0 <= i < self.sections.len() && (#[trigger] self.sections[i]).are_animations_ongoing()
        ||| self.closing.len() > 0
    }

    pub open spec fn are_transitions_ongoing(self) -> bool {
        ||| !(self.props.view_offset is Static)
        ||| exists|i: int|
            0 <= i < self.sections.len() && (#[trigger] self.sections[i]).are_transitions_ongoing()
        ||| self.closing.len() > 0
    }

    /// The view as seen from a section.
    pub open spec fn view_from_section(self, col: int) -> Rectangle<N> {
        Rectangle {
            loc: main_vec(self.view_pos()) - main_vec(self.section_pos(col))
                - self.sections[col].render_offset(),
            size: self.props.view_size,
        }
    }

    /// The first `upto` sections told how they are seen.
    pub open spec fn shown_anew_upto(self, is_active: bool, upto: int) -> Self
        decreases upto,
    {
        if upto <= 0 {
            self
        } else {
            let before = self.shown_anew_upto(is_active, upto - 1);
            before.after(
                upto - 1,
                before.at(upto - 1).update_render_elements(
                    self.layout(),
                    is_active && upto - 1 == self.props.active_section_idx,
                    self.view_from_section(upto - 1),
                ),
            )
        }
    }

    /// Whether everything holds that operations on the space are to keep.
    pub open spec fn keeps_invariants(self) -> bool {
        let zero = num::<N>(0);
        &&& zero < self.props.view_size.w
        &&& zero < self.props.view_size.h
        &&& zero < self.props.scale
        &&& self.props.scale.spec_is_finite()
        &&& self.props.working_area.spec_same(
            working_area(self.props.parent_area, self.props.scale, self.layout().struts),
        )
        &&& forall|i: int|
            0 <= i < self.sections.len() ==> {
                &&& self.props.scale.spec_same((#[trigger] self.sections[i]).props.scale)
                &&& self.sections[i].keeps_invariants(self.options)
            }
        &&& (self.sections.len() > 0 && self.props.view_offset_to_restore is Some)
            ==> self.active().sizing_mode() != SizingMode::Normal
        &&& self.props.interactive_resize matches Some(resize) ==> self.section_of(resize.window)
            is Some
    }
}

/// Drawing anew keeps sections where they are and what they hold.
proof fn lemma_shown_anew<N: Scalar>(space: SpaceView<N>, is_active: bool, upto: int)
    requires
        0 <= upto <= space.sections.len(),
    ensures
        ({
            let after = space.shown_anew_upto(is_active, upto);
            &&& after.sections.len() == space.sections.len()
            &&& after.props == space.props
            &&& after.closing == space.closing
            &&& after.options == space.options
            &&& forall|i: int|
                upto <= i < space.sections.len() ==> after.sections[i]
                    == #[trigger] space.sections[i]
        }),
    decreases upto,
{
    if upto > 0 {
        lemma_shown_anew(space, is_active, upto - 1);
    }
}

impl<N: Scalar> ScrollingSpace<N> {
    /// Tells the sections to load their shaders anew.
    pub fn update_shaders(&mut self)
        requires
            old(self)@.wf(),
        ensures
            final(self)@ == old(self)@.shaders_updated_upto(old(self)@.sections.len() as int),
            final(self)@.wf(),
            keeps_windows(old(self)@, final(self)@),
    {
        let ghost before = self@;
        let mut i: usize = 0;
        while i < self.sections.len()
            invariant
                i <= self.sections.len(),
                self.sections.len() == before.sections.len(),
                self@ == before.shaders_updated_upto(i as int),
                keeps_windows(before, self@),
                self@.wf(),
            decreases self.sections.len() - i,
        {
            let ghost prev = self@;
            assert(prev.sections[i as int] == self.sections@[i as int]@);
            assert(prev.sections[i as int].wf());
            self.sections[i].update_shaders(&mut self.outbox);
            proof {
                let done = prev.at(i as int).update_shaders();
                assert(self@ == prev.after(i as int, done));
                lemma_after_windows(prev, i as int, done);
                lemma_after_wf(prev, i as int, done);
            }
            i = i + 1;
        }
    }

    /// Lets time go on to `now`, in nanoseconds: animations that have ended are done with.
    pub fn advance_animations(&mut self, now: u64)
        requires
            old(self)@.wf(),
        ensures
            final(self)@ == old(self)@.advanced(now),
            final(self)@.wf(),
            keeps_windows(old(self)@, final(self)@),
    {
        let ghost before = self@;
        let mut view_offset = self.props.view_offset;
        view_offset.advance(now);
        self.props.view_offset = view_offset;
        let ghost offset_advanced = self@;
        let mut i: usize = 0;
        while i < self.sections.len()
            invariant
                i <= self.sections.len(),
                before.wf(),
                self@ == (SpaceView { sections: self@.sections, ..offset_advanced }),
                self@.sections.len() == before.sections.len(),
                forall|j: int|
                    0 <= j < i ==> #[trigger] self@.sections[j] == before.sections[j].advanced(),
                forall|j: int|
                    i <= j < before.sections.len() ==> #[trigger] self@.sections[j]
                        == before.sections[j],
                self@.windows() == before.windows(),
                forall|j: int| 0 <= j < self@.sections.len() ==> (#[trigger] self@.sections[j]).wf(),
            decreases self.sections.len() - i,
        {
            let ghost prev = self@;
            assert(prev.sections[i as int] == self.sections@[i as int]@);
            assert(prev.sections[i as int].wf());
            self.sections[i].advance_animations();
            assert(self@.sections =~= prev.sections.update(
                i as int,
                before.sections[i as int].advanced(),
            ));
            proof {
                lemma_windows_update(
                    prev.sections,
                    i as int,
                    before.sections[i as int].advanced(),
                );
            }
            i = i + 1;
        }
        let mut kept: Vec<ClosingWindow<N>> = Vec::new();
        let mut k: usize = 0;
        while k < self.closing_windows.len()
            invariant
                k <= self.closing_windows.len(),
                kept@ == still_closing(self.closing_windows@, k as int),
            decreases self.closing_windows.len() - k,
        {
            let closing = self.closing_windows[k];
            if !closing.done {
                kept.push(closing);
            }
            k = k + 1;
        }
        self.closing_windows = kept;
        assert(self@.sections =~= before.advanced(now).sections);
        proof {
            lemma_in_step(before, self@);
        }
    }

    pub fn are_animations_ongoing(&self) -> (r: bool)
        ensures
            r == self@.are_animations_ongoing(),
    {
        if self.props.view_offset.is_animation_ongoing() || self.closing_windows.len() > 0 {
            return true;
        }
        let mut i: usize = 0;
        while i < self.sections.len()
            invariant
                i <= self.sections.len(),
                forall|j: int|
                    0 <= j < i ==> !(#[trigger] self@.sections[j]).are_animations_ongoing(),
            decreases self.sections.len() - i,
        {
            assert(self@.sections[i as int] == self.sections@[i as int]@);
            if self.sections[i].are_animations_ongoing() {
                return true;
            }
            i = i + 1;
        }
        false
    }

    pub fn are_transitions_ongoing(&self) -> (r: bool)
        ensures
            r == self@.are_transitions_ongoing(),
    {
        if !self.props.view_offset.is_static() || self.closing_windows.len() > 0 {
            return true;
        }
        let mut i: usize = 0;
        while i < self.sections.len()
            invariant
                i <= self.sections.len(),
                forall|j: int|
                    0 <= j < i ==> !(#[trigger] self@.sections[j]).are_transitions_ongoing(),
            decreases self.sections.len() - i,
        {
            assert(self@.sections[i as int] == self.sections@[i as int]@);
            if self.sections[i].are_transitions_ongoing() {
                return true;
            }
            i = i + 1;
        }
        false
    }

    /// Tells tiles and headers how they are seen.
    pub fn update_render_elements(&mut self, is_active: bool)
        requires
            old(self)@.wf(),
        ensures
            final(self)@ == old(self)@.shown_anew_upto(
                is_active,
                old(self)@.sections.len() as int,
            ),
            final(self)@.wf(),
            keeps_windows(old(self)@, final(self)@),
    {
        let ghost before = self@;
        let view_main_offset = main_space_vec(self.view_main_pos());
        let positions = self.section_main_positions();
        let mut i: usize = 0;
        while i < self.sections.len()
            invariant
                i <= self.sections.len(),
                before.wf(),
                self.sections.len() == before.sections.len(),
                positions.len() == before.sections.len() + 1,
                forall|j: int|
                    0 <= j <= before.sections.len() ==> positions@[j] == before.section_pos(j),
                view_main_offset == main_vec(before.view_pos()),
                self@ == before.shown_anew_upto(is_active, i as int),
                keeps_windows(before, self@),
                self@.wf(),
            decreases self.sections.len() - i,
        {
            let ghost prev = self@;
            proof {
                lemma_shown_anew(before, is_active, i as int);
                assert(prev.sections[i as int] == before.sections[i as int]);
            }
            assert(prev.sections[i as int] == self.sections@[i as int]@);
            assert(prev.sections[i as int].wf());
            let section_pos = view_main_offset.sub(main_space_vec(positions[i])).sub(
                self.sections[i].render_offset(),
            );
            let view_rect = Rectangle::new(section_pos, self.props.view_size);
            let is_section_active = is_active && i == self.props.active_section_idx;
            self.sections[i].update_render_elements(
                &self.options.layout,
                is_section_active,
                view_rect,
                &mut self.outbox,
            );
            proof {
                let done = prev.at(i as int).update_render_elements(
                    before.layout(),
                    is_section_active,
                    view_rect,
                );
                assert(self@ == prev.after(i as int, done));
                lemma_after_windows(prev, i as int, done);
                lemma_after_wf(prev, i as int, done);
            }
            i = i + 1;
        }
    }

    /// The active tile, if there is any.
    pub fn active_tile(&self) -> (r: Option<Tile<N>>)
        requires
            self@.wf(),
        ensures
            r == if self@.sections.len() == 0 {
                None
            } else {
                Some(self@.active().root.active_leaf())
            },
    {
        if self.is_empty() {
            return None;
        }
        let idx: usize = self.props.active_section_idx;
        assert(self@.sections[idx as int] == self.sections@[idx as int]@);
        assert(self@.sections[idx as int].wf());
        Some(self.sections[idx].active_tile())
    }

    /// The active window, if there is any.
    pub fn active_window(&self) -> (r: Option<u64>)
        requires
            self@.wf(),
        ensures
            r == if self@.sections.len() == 0 {
                None
            } else {
                Some(self@.active().root.active_leaf().id)
            },
    {
        match self.active_tile() {
            Some(tile) => Some(tile.id),
            None => None,
        }
    }

    /// Gives access to the active tile, if there is any.
    pub fn active_tile_mut(&mut self) -> (r: Option<&mut Tile<N>>)
        requires
            old(self)@.wf(),
        ensures
            match r {
                Some(tile) => {
                    let active = old(self)@.props.active_section_idx as int;
                    let leaf = old(self)@.active().active_leaf_idx() as int;
                    &&& old(self)@.sections.len() > 0
                    &&& *tile == old(self)@.active().tiles()[leaf]
                    &&& final(self)@ == (SpaceView {
                        sections: old(self)@.sections.update(
                            active,
                            old(self)@.active().with_tile_at(leaf, *final(tile)),
                        ),
                        ..old(self)@
                    })
                },
                None => old(self)@.sections.len() == 0 && final(self)@ == old(self)@,
            },
    {
        if self.is_empty() {
            return None;
        }
        let idx: usize = self.props.active_section_idx;
        assert(self@.sections[idx as int] == self.sections@[idx as int]@);
        assert(self@.sections[idx as int].wf());
        proof {
            crate::section::lemma_section_tiles(self@.active(), self@.layout());
        }
        let leaf: usize = self.sections[idx].active_leaf_idx();
        self.tile_mut_at(idx, leaf)
    }

    pub fn is_active_pending_fullscreen(&self) -> (r: bool)
        requires
            self@.wf(),
        ensures
            r == (self@.sections.len() > 0 && self@.active().pending_sizing_mode()
                == SizingMode::Fullscreen),
    {
        if self.is_empty() {
            return false;
        }
        let idx: usize = self.props.active_section_idx;
        assert(self@.sections[idx as int] == self.sections@[idx as int]@);
        self.sections[idx].pending_sizing_mode().is_fullscreen()
    }

    fn new_window_extra(&self, rules: &WindowRules<N>) -> (r: Size<N>)
        ensures
            r == self@.new_window_extra(*rules),
    {
        let display = match rules.default_section_display {
            Some(display) => display,
            None => self.options.layout.default_section_display,
        };
        if matches!(display, SectionDisplay::Tabbed) {
            TabIndicator::new(self.options.layout.tab_indicator).extra_size(1, self.props.scale)
        } else {
            Size::zero()
        }
    }

    /// The largest size that a new window can have.
    pub fn new_window_toplevel_bounds(&self, rules: &WindowRules<N>) -> (r: WholeSize)
        ensures
            r == self@.new_window_bounds(*rules),
    {
        let axis = AxisMap::new(self.options.layout.main_axis);
        let bounds = compute_toplevel_bounds(
            rules.border,
            self.props.working_area.size,
            self.new_window_extra(rules),
            self.options.layout.gaps,
        );
        turn_whole_size_out(axis, bounds)
    }

    /// The size to offer to a new window. No width leaves it to the window; the height is limited
    /// by the working area.
    pub fn new_window_size(
        &self,
        width: Option<PresetSize<N>>,
        height: Option<PresetSize<N>>,
        rules: &WindowRules<N>,
    ) -> (r: WholeSize)
        ensures
            r == self@.new_window_size(width, height, *rules),
    {
        let axis = AxisMap::new(self.options.layout.main_axis);
        let border = rules.border;
        let gaps = self.options.layout.gaps;
        let area = self.props.working_area.size;
        let extra = self.new_window_extra(rules);
        let w: i32 = match width {
            Some(preset) => {
                let size = resolve_preset_size(preset, gaps, area.w, extra.w);
                make_whole(span_of_window(border, size))
            },
            None => 0,
        };
        let full_height = without_border(border, area.h.sub(gaps.mul(N::of_int(2))));
        let h = match height {
            Some(preset) => {
                let size = resolve_preset_size(preset, gaps, area.h, extra.h);
                span_of_window(border, size).min(full_height)
            },
            None => full_height,
        };
        turn_whole_size_out(axis, WholeSize { w, h: make_whole(h) })
    }

    /// The sections.
    pub fn sections(&self) -> (r: &Vec<Section<N>>)
        ensures
            *r == self.sections,
    {
        &self.sections
    }

    /// The size of the view, turned to the main axis.
    pub fn view_size(&self) -> (r: Size<N>)
        ensures
            r == self@.props.view_size,
    {
        self.props.view_size
    }

    /// The working area with struts, turned to the main axis.
    pub fn parent_area(&self) -> (r: Rectangle<N>)
        ensures
            r == self@.props.parent_area,
    {
        self.props.parent_area
    }

    pub fn active_section_idx(&self) -> (r: usize)
        ensures
            r == self@.props.active_section_idx,
    {
        self.props.active_section_idx
    }

    pub fn view_offset(&self) -> (r: ViewOffset<N>)
        ensures
            r == self@.props.view_offset,
    {
        self.props.view_offset
    }

    pub fn options(&self) -> (r: &crate::config::Options<N>)
        ensures
            *r == self@.options,
    {
        &self.options
    }

    /// What the tabs of a container of the active section stand for.
    pub fn tab_child_infos(&self, path: &Vec<usize>) -> (r: Vec<TabChild<N>>)
        requires
            self@.wf(),
            self@.sections.len() > 0,
            self@.active().root.has_path(path@),
        ensures
            r@ == self@.active().tab_children(self@.layout(), path@),
    {
        let idx: usize = self.props.active_section_idx;
        assert(self@.sections[idx as int] == self.sections@[idx as int]@);
        assert(self@.sections[idx as int].wf());
        self.sections[idx].tab_children(&self.options.layout, path)
    }

    /// Records what the clock says of the animation of the view.
    pub fn sample_view_offset(&mut self, value: N, done: bool)
        requires
            old(self)@.wf(),
        ensures
            final(self)@ == old(self)@.with_view_offset(
                match old(self)@.props.view_offset {
                    ViewOffset::Animation(animation) => ViewOffset::Animation(
                        crate::animation::Animation { value, done, ..animation },
                    ),
                    ViewOffset::Gesture(gesture) => ViewOffset::Gesture(
                        ViewGesture {
                            animation: match gesture.animation {
                                Some(animation) => Some(
                                    crate::animation::Animation { value, done, ..animation },
                                ),
                                None => None,
                            },
                            ..gesture
                        },
                    ),
                    ViewOffset::Static(offset) => ViewOffset::Static(offset),
                },
            ),
            final(self)@.wf(),
            keeps_windows(old(self)@, final(self)@),
    {
        match self.props.view_offset {
            ViewOffset::Animation(animation) => {
                let mut animation = animation;
                animation.sample(value, done);
                self.props.view_offset = ViewOffset::Animation(animation);
            },
            ViewOffset::Gesture(gesture) => {
                if let Some(animation) = gesture.animation {
                    let mut animation = animation;
                    animation.sample(value, done);
                    self.props.view_offset = ViewOffset::Gesture(
                        ViewGesture { animation: Some(animation), ..gesture },
                    );
                }
            },
            ViewOffset::Static(_) => {},
        }
    }

    fn sections_keep_invariants(&self) -> (r: bool)
        requires
            self@.wf(),
        ensures
            r == (forall|i: int|
                0 <= i < self@.sections.len() ==> {
                    &&& self@.props.scale.spec_same((#[trigger] self@.sections[i]).props.scale)
                    &&& self@.sections[i].keeps_invariants(self@.options)
                }),
    {
        let mut i: usize = 0;
        while i < self.sections.len()
            invariant
                i <= self.sections.len(),
                self@.wf(),
                forall|j: int|
                    0 <= j < i ==> {
                        &&& self@.props.scale.spec_same((#[trigger] self@.sections[j]).props.scale)
                        &&& self@.sections[j].keeps_invariants(self@.options)
                    },
            decreases self.sections.len() - i,
        {
            assert(self@.sections[i as int] == self.sections@[i as int]@);
            assert(self@.sections[i as int].wf());
            let same_scale = self.props.scale.same(self.sections[i].props.scale);
            if !same_scale || !self.sections[i].verify_invariants(&self.options) {
                return false;
            }
            i = i + 1;
        }
        true
    }

    /// Tells whether everything holds that operations on the space are to keep.
    pub fn verify_invariants(&self) -> (r: bool)
        requires
            self@.wf(),
        ensures
            r == self@.keeps_invariants(),
    {
        let zero = N::of_int(0);
        let props = &self.props;
        if !zero.lt(props.view_size.w) || !zero.lt(props.view_size.h) || !zero.lt(props.scale)
            || !props.scale.is_finite() {
            return false;
        }
        let area = compute_working_area(
            props.parent_area,
            props.scale,
            self.options.layout.struts,
        );
        if !props.working_area.same(area) || !self.sections_keep_invariants() {
            return false;
        }
        if !self.is_empty() && props.view_offset_to_restore.is_some() {
            let idx: usize = props.active_section_idx;
            assert(self@.sections[idx as int] == self.sections@[idx as int]@);
            if self.sections[idx].sizing_mode().is_normal() {
                return false;
            }
        }
        match props.interactive_resize {
            Some(resize) => self.section_of(resize.window).is_some(),
            None => true,
        }
    }
}

} // verus!
