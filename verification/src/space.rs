//! The scrolling space: sections side by side along the main axis, and a view that moves over
//! them.
use vstd::prelude::*;

use crate::animation::AnimationKind;
use crate::axis::AxisMap;
use crate::config::{
    CenterFocusedSection, InteractiveResize, LayoutOptions, Options, SizingMode, Struts,
};
use crate::fit::{compute_new_view_offset, fitting_view_offset};
use crate::geometry::{Point, Rectangle, Size};
use crate::scalar::{num, Scalar};
use crate::section::{axis_of, Section, SectionView};
use crate::section_size::{work, Work};
use crate::section_state::Place;
use crate::tile::{Outbox, OutboxView, Tile, TileEffect};
use crate::view_offset::ViewOffset;
use crate::working_area::{compute_working_area, working_area};
use crate::windows::{keeps_windows, lemma_after_windows, lemma_windows_update};

verus! {

/// A window that is fading out after it was closed.
#[derive(Clone, Copy, PartialEq, Eq, Debug)]
pub struct ClosingWindow<N> {
    pub window: u64,
    pub tile_size: Size<N>,
    pub tile_pos: Point<N>,
    pub done: bool,
}

/// Everything of a space but its sections. Sizes are turned to the main axis.
#[derive(Clone, Copy, PartialEq, Eq, Debug)]
pub struct SpaceProps<N> {
    /// Index of the currently active section, if any.
    pub active_section_idx: usize,
    /// Ongoing interactive resize.
    pub interactive_resize: Option<InteractiveResize<N>>,
    /// Offset of the view computed from the active section.
    ///
    /// Any gaps, and the padding from the working area, are handled with this view offset rather
    /// than added as a constant elsewhere. So fullscreen windows, which ignore the padding, need
    /// no special treatment.
    pub view_offset: ViewOffset<N>,
    /// Set when the active section was made right after the one before it, and nothing else was
    /// focused since: then removing it activates the one before, at the view offset kept here.
    pub activate_prev_section_on_removal: Option<N>,
    /// View offset to restore after leaving fullscreen or maximized.
    pub view_offset_to_restore: Option<N>,
    /// View size for this space.
    pub view_size: Size<N>,
    /// Working area for this space, without exclusive zones and struts.
    pub working_area: Rectangle<N>,
    /// Working area for this space, struts included.
    pub parent_area: Rectangle<N>,
    /// Scale of the output the space is on (and rounds its sizes to).
    pub scale: N,
}

/// The scrolling space.
pub struct ScrollingSpace<N> {
    pub sections: Vec<Section<N>>,
    /// Windows in the closing animation.
    pub closing_windows: Vec<ClosingWindow<N>>,
    pub props: SpaceProps<N>,
    pub options: Options<N>,
    /// What the tiles have to do.
    pub outbox: Outbox<N>,
}

/// What a [`ScrollingSpace`] holds.
#[verifier::ext_equal]
pub ghost struct SpaceView<N> {
    pub sections: Seq<SectionView<N>>,
    pub closing: Seq<ClosingWindow<N>>,
    pub props: SpaceProps<N>,
    pub options: Options<N>,
    pub out: OutboxView<N>,
}

pub open spec fn section_views<N>(sections: Seq<Section<N>>) -> Seq<SectionView<N>> {
    Seq::new(sections.len(), |i: int| sections[i]@)
}

impl<N> ScrollingSpace<N> {
    pub open spec fn view(&self) -> SpaceView<N> {
        SpaceView {
            sections: section_views(self.sections@),
            closing: self.closing_windows@,
            props: self.props,
            options: self.options,
            out: self.outbox@,
        }
    }
}

/// Whether the working area is what the parent area leaves of the struts at the scale, and every
/// section was told of the place that it is in.
#[verifier::opaque]
pub open spec fn in_step<N: Scalar>(
    place: Place<N>,
    struts: Struts<N>,
    sections: Seq<SectionView<N>>,
) -> bool {
    &&& place.working_area == working_area(place.parent_area, place.scale, struts)
    &&& forall|i: int| 0 <= i < sections.len() ==> (#[trigger] sections[i]).place() == place
}

/// Sections that were told of the same places are in step with a space as they were.
pub proof fn lemma_in_step<N: Scalar>(before: SpaceView<N>, after: SpaceView<N>)
    requires
        before.is_in_step(),
        after.place() == before.place(),
        after.layout().struts == before.layout().struts,
        after.sections.len() == before.sections.len(),
        forall|i: int|
            0 <= i < after.sections.len() ==> (#[trigger] after.sections[i]).place()
                == before.sections[i].place(),
    ensures
        after.is_in_step(),
{
    reveal(in_step);
}

impl<N: Scalar> SpaceView<N> {
    /// Whether the working area and all sections are in step with the space.
    pub open spec fn is_in_step(self) -> bool {
        in_step(self.place(), self.layout().struts, self.sections)
    }

    /// Whether the space is in order but for the active section, which may be one past the last.
    pub open spec fn loose(self) -> bool {
        &&& self.sections.len() <= usize::MAX
        &&& forall|i: int| 0 <= i < self.sections.len() ==> (#[trigger] self.sections[i]).wf()
        &&& self.props.active_section_idx <= self.sections.len()
        &&& self.is_in_step()
        &&& num::<N>(0) <= num::<N>(0)
        &&& num::<N>(0) <= self.options.layout.gaps
    }

    /// Whether the space is in order: every section is and is in step with the space, the active
    /// one is among them, and gaps are not negative.
    pub open spec fn wf(self) -> bool {
        &&& self.loose()
        &&& self.sections.len() > 0 ==> self.props.active_section_idx < self.sections.len()
    }

    /// Whether another section, and another tile in any section, can be counted.
    pub open spec fn has_room(self) -> bool {
        &&& self.sections.len() < usize::MAX
        &&& forall|i: int|
            0 <= i < self.sections.len() ==> (#[trigger] self.sections[i]).tiles().len()
                < usize::MAX
    }

    pub open spec fn layout(self) -> LayoutOptions<N> {
        self.options.layout
    }

    pub open spec fn place(self) -> Place<N> {
        Place {
            view_size: self.props.view_size,
            working_area: self.props.working_area,
            parent_area: self.props.parent_area,
            scale: self.props.scale,
        }
    }

    pub open spec fn active(self) -> SectionView<N> {
        self.sections[self.props.active_section_idx as int]
    }

    /// A section at work.
    pub open spec fn at(self, i: int) -> Work<N> {
        work(self.sections[i], self.out)
    }

    /// The space after work on a section.
    pub open spec fn after(self, i: int, done: Work<N>) -> Self {
        SpaceView { sections: self.sections.update(i, done.section), out: done.out, ..self }
    }

    pub open spec fn with_props(self, props: SpaceProps<N>) -> Self {
        SpaceView { props, ..self }
    }

    pub open spec fn with_view_offset(self, view_offset: ViewOffset<N>) -> Self {
        self.with_props(SpaceProps { view_offset, ..self.props })
    }

    pub open spec fn width(self, i: int) -> N {
        self.sections[i].width(self.layout())
    }

    /// The main-axis start position of a section, or of one past the last.
    pub open spec fn section_pos(self, i: int) -> N
        decreases i,
    {
        if i <= 0 {
            num::<N>(0)
        } else {
            self.section_pos(i - 1) + (self.width(i - 1) + self.layout().gaps)
        }
    }

    pub open spec fn view_pos(self) -> N {
        self.section_pos(self.props.active_section_idx as int)
            + self.props.view_offset.spec_current()
    }

    pub open spec fn target_view_pos(self) -> N {
        self.section_pos(self.props.active_section_idx as int)
            + self.props.view_offset.spec_target()
    }

    pub open spec fn is_centering(self) -> bool {
        self.layout().center_focused_section == CenterFocusedSection::Always || (
        self.layout().always_center_single_section && self.sections.len() <= 1)
    }

    /// The area that a section in a sizing mode aligns with.
    pub open spec fn work_area(self, mode: SizingMode) -> Rectangle<N> {
        if mode == SizingMode::Maximized {
            self.props.parent_area
        } else {
            self.props.working_area
        }
    }

    pub open spec fn fit_offset(
        self,
        target_view_main: Option<N>,
        section_main: N,
        section_span: N,
        mode: SizingMode,
    ) -> N {
        let area = self.work_area(mode);
        let padding = if mode == SizingMode::Maximized {
            num::<N>(0)
        } else {
            self.layout().gaps
        };
        let target = match target_view_main {
            Some(target) => target,
            None => self.target_view_pos(),
        };
        if mode == SizingMode::Fullscreen {
            num::<N>(0)
        } else {
            fitting_view_offset(
                target + area.loc.x,
                area.size.w,
                section_main,
                section_span,
                padding,
            ) - area.loc.x
        }
    }

    /// The view offset that centers a section, or aligns it to the start where it is wider than
    /// the view.
    pub open spec fn centered_offset(
        self,
        target_view_main: Option<N>,
        section_main: N,
        section_span: N,
        mode: SizingMode,
    ) -> N {
        let area = self.work_area(mode);
        if mode == SizingMode::Fullscreen || area.size.w <= section_span {
            self.fit_offset(target_view_main, section_main, section_span, mode)
        } else {
            (area.size.w - section_span).spec_neg().spec_div(num::<N>(2)) - area.loc.x
        }
    }

    pub open spec fn fit_offset_for(self, target_view_main: Option<N>, idx: int) -> N {
        self.fit_offset(
            target_view_main,
            self.section_pos(idx),
            self.width(idx),
            self.sections[idx].sizing_mode(),
        )
    }

    pub open spec fn centered_offset_for(self, target_view_main: Option<N>, idx: int) -> N {
        self.centered_offset(
            target_view_main,
            self.section_pos(idx),
            self.width(idx),
            self.sections[idx].sizing_mode(),
        )
    }

    /// The neighbor of a section on the side that focus comes from.
    pub open spec fn source_for(self, idx: int, prev_idx: int) -> int {
        if prev_idx > idx {
            if idx + 1 < self.sections.len() {
                idx + 1
            } else {
                self.sections.len() - 1
            }
        } else if idx > 0 {
            idx - 1
        } else {
            0
        }
    }

    /// Whether a section fits into the view together with its neighbor on the side that focus
    /// comes from.
    pub open spec fn fits_with_source(self, idx: int, prev_idx: int) -> bool {
        let source = self.source_for(idx, prev_idx);
        let source_main = self.section_pos(source);
        let target_main = self.section_pos(idx);
        let combined = if source_main < target_main {
            target_main - source_main + self.width(idx)
        } else {
            source_main - target_main + self.width(source)
        } + self.layout().gaps * num::<N>(2);
        combined <= self.props.working_area.size.w
    }

    /// The view offset for a section that focus comes to.
    pub open spec fn offset_for(
        self,
        target_view_main: Option<N>,
        idx: int,
        prev_idx: Option<usize>,
    ) -> N {
        let centered = self.centered_offset_for(target_view_main, idx);
        let fit = self.fit_offset_for(target_view_main, idx);
        if self.is_centering() {
            centered
        } else if self.layout().center_focused_section == CenterFocusedSection::OnOverflow {
            match prev_idx {
                None => fit,
                Some(prev) => if prev == idx || self.fits_with_source(idx, prev as int) {
                    fit
                } else {
                    centered
                },
            }
        } else {
            fit
        }
    }

    /// The space with the view sent to an offset from a section.
    pub open spec fn view_sent(self, idx: int, new_view_offset: N, kind: AnimationKind) -> Self {
        let delta = self.section_pos(self.props.active_section_idx as int) - self.section_pos(idx);
        self.with_view_offset(
            self.props.view_offset.spec_offset(delta).sent_to(
                new_view_offset,
                num::<N>(1).spec_div(self.props.scale),
                kind,
            ),
        )
    }

    pub open spec fn view_sent_to(
        self,
        target_view_main: Option<N>,
        idx: int,
        prev_idx: Option<usize>,
        kind: AnimationKind,
    ) -> Self {
        self.view_sent(idx, self.offset_for(target_view_main, idx, prev_idx), kind)
    }

    pub open spec fn view_sent_to_center(
        self,
        target_view_main: Option<N>,
        idx: int,
        kind: AnimationKind,
    ) -> Self {
        self.view_sent(idx, self.centered_offset_for(target_view_main, idx), kind)
    }

    /// The space with a section activated.
    pub open spec fn activated(self, idx: usize, kind: AnimationKind) -> Self {
        let active = self.props.active_section_idx;
        if active == idx && (self.sections.len() == 0
            || !self.props.view_offset.spec_is_dnd_scroll()) {
            self
        } else {
            let sent = self.view_sent_to(None, idx as int, Some(active), kind);
            if active == idx {
                sent
            } else {
                sent.with_props(
                    SpaceProps {
                        active_section_idx: idx,
                        activate_prev_section_on_removal: None,
                        view_offset_to_restore: None,
                        interactive_resize: None,
                        ..sent.props
                    },
                )
            }
        }
    }

    /// The sections after a change of the view, of the output or of options.
    pub open spec fn configured_upto(
        self,
        options: Options<N>,
        place: Place<N>,
        upto: int,
    ) -> Self
        decreases upto,
    {
        if upto <= 0 {
            self
        } else {
            let before = self.configured_upto(options, place, upto - 1);
            before.after(
                upto - 1,
                before.at(upto - 1).update_config(self.options, options, place),
            )
        }
    }

    pub open spec fn update_config(
        self,
        view_size: Size<N>,
        parent_area: Rectangle<N>,
        scale: N,
        options: Options<N>,
    ) -> Self {
        let place = place_for(view_size, parent_area, scale, options.layout);
        let told = self.configured_upto(options, place, self.sections.len() as int);
        let told = SpaceView {
            props: SpaceProps {
                view_size: place.view_size,
                working_area: place.working_area,
                parent_area: place.parent_area,
                scale: place.scale,
                ..self.props
            },
            options,
            ..told
        };
        if self.sections.len() > 0 && !(self.props.view_offset is Gesture) {
            told.view_sent_to(
                None,
                self.props.active_section_idx as int,
                None,
                AnimationKind::HorizontalViewMovement,
            )
        } else {
            told
        }
    }

    /// The tiles of the first `upto` sections.
    pub open spec fn tiles_upto(self, upto: int) -> Seq<Tile<N>>
        decreases upto,
    {
        if upto <= 0 {
            Seq::empty()
        } else {
            self.tiles_upto(upto - 1) + self.sections[upto - 1].tiles()
        }
    }

    /// All tiles, section by section.
    pub open spec fn tiles(self) -> Seq<Tile<N>> {
        self.tiles_upto(self.sections.len() as int)
    }

    /// The first of the sections below `upto` that has a window.
    pub open spec fn section_of_upto(self, window: u64, upto: int) -> Option<usize>
        decreases upto,
    {
        if upto <= 0 {
            None
        } else {
            match self.section_of_upto(window, upto - 1) {
                Some(i) => Some(i),
                None => if self.sections[upto - 1].contains(window) {
                    Some((upto - 1) as usize)
                } else {
                    None
                },
            }
        }
    }

    /// The section that has a window.
    pub open spec fn section_of(self, window: u64) -> Option<usize> {
        self.section_of_upto(window, self.sections.len() as int)
    }
}

/// Sizes and areas on screen, turned to the main axis.
pub open spec fn place_for<N: Scalar>(
    view_size: Size<N>,
    parent_area: Rectangle<N>,
    scale: N,
    layout: LayoutOptions<N>,
) -> Place<N> {
    let axis = axis_of(layout);
    let parent_area = axis.spec_rect(parent_area);
    Place {
        view_size: axis.spec_size(view_size),
        working_area: working_area(parent_area, scale, layout.struts),
        parent_area,
        scale,
    }
}

fn compute_place<N: Scalar>(
    view_size: Size<N>,
    parent_area: Rectangle<N>,
    scale: N,
    layout: &LayoutOptions<N>,
) -> (r: Place<N>)
    ensures
        r == place_for(view_size, parent_area, scale, *layout),
{
    let axis = AxisMap::new(layout.main_axis);
    let parent_area = axis.rect_in(parent_area);
    Place {
        view_size: axis.size_in(view_size),
        working_area: compute_working_area(parent_area, scale, layout.struts),
        parent_area,
        scale,
    }
}

/// A window that is there is found in a section that has it.
pub proof fn lemma_section_of<N: Scalar>(space: SpaceView<N>, window: u64, upto: int)
    requires
        0 <= upto <= space.sections.len() <= usize::MAX,
    ensures
        match space.section_of_upto(window, upto) {
            Some(i) => i < upto && space.sections[i as int].contains(window),
            None => forall|j: int|
                0 <= j < upto ==> !(#[trigger] space.sections[j]).contains(window),
        },
    decreases upto,
{
    if upto > 0 {
        lemma_section_of(space, window, upto - 1);
    }
}

/// Work on a section that leaves it in order leaves the space in order.
pub proof fn lemma_after_wf<N: Scalar>(space: SpaceView<N>, i: int, done: Work<N>)
    requires
        space.wf(),
        0 <= i < space.sections.len(),
        done.section.wf(),
        done.section.place() == space.sections[i].place(),
    ensures
        space.after(i, done).wf(),
        space.after(i, done).sections[i] == done.section,
        done.section.windows() == space.sections[i].windows() ==> keeps_windows(
            space,
            space.after(i, done),
        ),
{
    if done.section.windows() == space.sections[i].windows() {
        lemma_after_windows(space, i, done);
    }
    let after = space.after(i, done);
    lemma_in_step(space, after);
    assert forall|j: int| 0 <= j < after.sections.len() implies (
    #[trigger] after.sections[j]).wf() by {
        if j != i {
            assert(after.sections[j] == space.sections[j]);
        }
    }
}

/// Options changing one section after the other leave a space in order.
proof fn lemma_configured_len<N: Scalar>(
    space: SpaceView<N>,
    options: Options<N>,
    place: Place<N>,
    upto: int,
)
    requires
        0 <= upto <= space.sections.len(),
    ensures
        space.configured_upto(options, place, upto).sections.len() == space.sections.len(),
        space.configured_upto(options, place, upto).props == space.props,
        space.configured_upto(options, place, upto).closing == space.closing,
        space.configured_upto(options, place, upto).options == space.options,
        forall|i: int|
            upto <= i < space.sections.len() ==> space.configured_upto(
                options,
                place,
                upto,
            ).sections[i] == #[trigger] space.sections[i],
    decreases upto,
{
    if upto > 0 {
        lemma_configured_len(space, options, place, upto - 1);
    }
}

impl<N: Scalar> ScrollingSpace<N> {
    pub fn new(
        view_size: Size<N>,
        parent_area: Rectangle<N>,
        scale: N,
        options: Options<N>,
    ) -> (r: Self)
        ensures
            r@ == (SpaceView {
                sections: Seq::empty(),
                closing: Seq::empty(),
                props: SpaceProps {
                    active_section_idx: 0,
                    interactive_resize: None,
                    view_offset: ViewOffset::Static(num::<N>(0)),
                    activate_prev_section_on_removal: None,
                    view_offset_to_restore: None,
                    view_size: place_for(view_size, parent_area, scale, options.layout).view_size,
                    working_area: place_for(
                        view_size,
                        parent_area,
                        scale,
                        options.layout,
                    ).working_area,
                    parent_area: place_for(
                        view_size,
                        parent_area,
                        scale,
                        options.layout,
                    ).parent_area,
                    scale,
                },
                options,
                out: OutboxView { effects: Seq::empty(), transactions: 0 },
            }),
            num::<N>(0) <= num::<N>(0) && num::<N>(0) <= options.layout.gaps ==> r@.wf(),
    {
        reveal(in_step);
        let place = compute_place(view_size, parent_area, scale, &options.layout);
        ScrollingSpace {
            sections: Vec::new(),
            closing_windows: Vec::new(),
            props: SpaceProps {
                active_section_idx: 0,
                interactive_resize: None,
                view_offset: ViewOffset::Static(N::of_int(0)),
                activate_prev_section_on_removal: None,
                view_offset_to_restore: None,
                view_size: place.view_size,
                working_area: place.working_area,
                parent_area: place.parent_area,
                scale,
            },
            options,
            outbox: Outbox::new(),
        }
    }

    /// Takes what the tiles have to do.
    pub fn take_effects(&mut self) -> (r: Vec<(u64, TileEffect<N>)>)
        requires
            old(self)@.wf(),
        ensures
            r@ == old(self)@.out.effects,
            final(self)@ == (SpaceView {
                out: OutboxView { effects: Seq::empty(), ..old(self)@.out },
                ..old(self)@
            }),
            final(self)@.wf(),
            keeps_windows(old(self)@, final(self)@),
    {
        self.outbox.take()
    }

    pub fn place(&self) -> (r: Place<N>)
        ensures
            r == self@.place(),
    {
        Place {
            view_size: self.props.view_size,
            working_area: self.props.working_area,
            parent_area: self.props.parent_area,
            scale: self.props.scale,
        }
    }

    /// Tells the space of another view, another output or other options.
    pub fn update_config(
        &mut self,
        view_size: Size<N>,
        parent_area: Rectangle<N>,
        scale: N,
        options: Options<N>,
    )
        requires
            old(self)@.wf(),
            num::<N>(0) <= options.layout.gaps,
        ensures
            final(self)@ == old(self)@.update_config(view_size, parent_area, scale, options),
            final(self)@.wf(),
            keeps_windows(old(self)@, final(self)@),
    {
        let ghost before = self@;
        let place = compute_place(view_size, parent_area, scale, &options.layout);
        let mut i: usize = 0;
        while i < self.sections.len()
            invariant
                i <= self.sections.len(),
                before.wf(),
                self@ == before.configured_upto(options, place, i as int),
                self@.sections.len() == before.sections.len(),
                self@.options == before.options,
                self@.props == before.props,
                self@.windows() == before.windows(),
                forall|j: int| 0 <= j < self@.sections.len() ==> (#[trigger] self@.sections[j]).wf(),
                forall|j: int| 0 <= j < i ==> (#[trigger] self@.sections[j]).place() == place,
            decreases self.sections.len() - i,
        {
            let ghost prev = self@;
            assert(prev.sections[i as int].wf());
            self.sections[i].update_config(&self.options, &options, place, &mut self.outbox);
            proof {
                assert(self@.sections =~= prev.sections.update(
                    i as int,
                    self.sections@[i as int]@,
                ));
                assert(self@ == prev.after(
                    i as int,
                    prev.at(i as int).update_config(before.options, options, place),
                ));
                lemma_windows_update(prev.sections, i as int, self.sections@[i as int]@);
            }
            i = i + 1;
        }
        proof {
            lemma_configured_len(before, options, place, before.sections.len() as int);
        }
        self.props.view_size = place.view_size;
        self.props.working_area = place.working_area;
        self.props.parent_area = place.parent_area;
        self.props.scale = scale;
        self.options = options;
        assert(self@.is_in_step()) by {
            reveal(in_step);
        }
        if !self.is_empty() && !self.props.view_offset.is_gesture() {
            let active: usize = self.props.active_section_idx;
            self.animate_view_offset_to_section(None, active, None);
        }
    }

    pub fn is_empty(&self) -> (r: bool)
        ensures
            r == (self@.sections.len() == 0),
    {
        self.sections.len() == 0
    }

    /// All tiles, section by section.
    pub fn tiles(&self) -> (r: Vec<Tile<N>>)
        ensures
            r@ == self@.tiles(),
    {
        let mut all: Vec<Tile<N>> = Vec::new();
        let mut i: usize = 0;
        while i < self.sections.len()
            invariant
                i <= self.sections.len(),
                all@ == self@.tiles_upto(i as int),
            decreases self.sections.len() - i,
        {
            let mut own = self.sections[i].tiles();
            assert(self@.sections[i as int] == self.sections@[i as int]@);
            all.append(&mut own);
            i = i + 1;
        }
        all
    }

    /// The section that has a window.
    pub fn section_of(&self, window: u64) -> (r: Option<usize>)
        ensures
            r == self@.section_of(window),
            match r {
                Some(i) => i < self@.sections.len() && self@.sections[i as int].contains(window),
                None => forall|j: int|
                    0 <= j < self@.sections.len() ==> !(#[trigger] self@.sections[j]).contains(
                        window,
                    ),
            },
    {
        let mut found: Option<usize> = None;
        let mut i: usize = 0;
        while i < self.sections.len()
            invariant
                i <= self.sections.len(),
                found == self@.section_of_upto(window, i as int),
            decreases self.sections.len() - i,
        {
            assert(self@.sections[i as int] == self.sections@[i as int]@);
            if found.is_none() && self.sections[i].contains(window) {
                found = Some(i);
            }
            i = i + 1;
        }
        proof {
            lemma_section_of(self@, window, self@.sections.len() as int);
        }
        found
    }

    /// The span of a section along the main axis.
    pub fn section_width(&self, idx: usize) -> (r: N)
        requires
            self@.loose(),
            idx < self@.sections.len(),
        ensures
            r == self@.width(idx as int),
    {
        assert(self@.sections[idx as int] == self.sections@[idx as int]@);
        self.sections[idx].width(&self.options.layout)
    }

    /// The main-axis start position of each section, and of one past the last.
    pub fn section_main_positions(&self) -> (r: Vec<N>)
        requires
            self@.loose(),
        ensures
            r@ == Seq::new(
                self@.sections.len() + 1,
                |i: int| self@.section_pos(i),
            ),
    {
        let mut positions: Vec<N> = Vec::new();
        let mut main = N::of_int(0);
        let mut i: usize = 0;
        while i < self.sections.len()
            invariant
                i <= self.sections.len(),
                self@.loose(),
                positions.len() == i,
                main == self@.section_pos(i as int),
                forall|j: int| 0 <= j < i ==> positions@[j] == self@.section_pos(j),
            decreases self.sections.len() - i,
        {
            positions.push(main);
            main = main.add(self.section_width(i).add(self.options.layout.gaps));
            i = i + 1;
        }
        positions.push(main);
        assert(positions@ =~= Seq::new(
            self@.sections.len() + 1,
            |j: int| self@.section_pos(j),
        ));
        positions
    }

    pub fn section_main_pos(&self, section_idx: usize) -> (r: N)
        requires
            self@.loose(),
            section_idx <= self@.sections.len(),
        ensures
            r == self@.section_pos(section_idx as int),
    {
        let mut main = N::of_int(0);
        let mut i: usize = 0;
        while i < section_idx
            invariant
                i <= section_idx <= self.sections.len(),
                self@.loose(),
                main == self@.section_pos(i as int),
            decreases section_idx - i,
        {
            main = main.add(self.section_width(i).add(self.options.layout.gaps));
            i = i + 1;
        }
        main
    }

    pub fn view_main_pos(&self) -> (r: N)
        requires
            self@.loose(),
        ensures
            r == self@.view_pos(),
    {
        self.section_main_pos(self.props.active_section_idx).add(self.props.view_offset.current())
    }

    pub fn view_pos(&self) -> (r: N)
        requires
            self@.loose(),
        ensures
            r == self@.view_pos(),
    {
        self.view_main_pos()
    }

    pub fn target_view_main_pos(&self) -> (r: N)
        requires
            self@.loose(),
        ensures
            r == self@.target_view_pos(),
    {
        self.section_main_pos(self.props.active_section_idx).add(self.props.view_offset.target())
    }

    pub fn target_view_pos(&self) -> (r: N)
        requires
            self@.loose(),
        ensures
            r == self@.target_view_pos(),
    {
        self.target_view_main_pos()
    }

    pub fn is_centering_focused_section(&self) -> (r: bool)
        ensures
            r == self@.is_centering(),
    {
        matches!(self.options.layout.center_focused_section, CenterFocusedSection::Always) || (
        self.options.layout.always_center_single_section && self.sections.len() <= 1)
    }

    pub fn work_area(&self, mode: SizingMode) -> (r: Rectangle<N>)
        ensures
            r == self@.work_area(mode),
    {
        if mode.is_maximized() {
            self.props.parent_area
        } else {
            self.props.working_area
        }
    }

    pub fn compute_new_view_offset_fit(
        &self,
        target_view_main: Option<N>,
        section_main: N,
        section_span: N,
        mode: SizingMode,
    ) -> (r: N)
        requires
            self@.loose(),
        ensures
            r == self@.fit_offset(target_view_main, section_main, section_span, mode),
    {
        if mode.is_fullscreen() {
            return N::of_int(0);
        }
        let area = self.work_area(mode);
        let padding = if mode.is_maximized() {
            N::of_int(0)
        } else {
            self.options.layout.gaps
        };
        let target = match target_view_main {
            Some(target) => target,
            None => self.target_view_main_pos(),
        };
        let new_offset = compute_new_view_offset(
            target.add(area.loc.x),
            area.size.w,
            section_main,
            section_span,
            padding,
        );
        new_offset.sub(area.loc.x)
    }

    pub fn compute_new_view_offset_centered(
        &self,
        target_view_main: Option<N>,
        section_main: N,
        section_span: N,
        mode: SizingMode,
    ) -> (r: N)
        requires
            self@.loose(),
        ensures
            r == self@.centered_offset(target_view_main, section_main, section_span, mode),
    {
        let area = self.work_area(mode);
        if mode.is_fullscreen() || area.size.w.le(section_span) {
            return self.compute_new_view_offset_fit(
                target_view_main,
                section_main,
                section_span,
                mode,
            );
        }
        area.size.w.sub(section_span).neg().div(N::of_int(2)).sub(area.loc.x)
    }

    pub fn compute_new_view_offset_for_section_fit(
        &self,
        target_view_main: Option<N>,
        idx: usize,
    ) -> (r: N)
        requires
            self@.loose(),
            idx < self@.sections.len(),
        ensures
            r == self@.fit_offset_for(target_view_main, idx as int),
    {
        assert(self@.sections[idx as int] == self.sections@[idx as int]@);
        self.compute_new_view_offset_fit(
            target_view_main,
            self.section_main_pos(idx),
            self.section_width(idx),
            self.sections[idx].sizing_mode(),
        )
    }

    pub fn compute_new_view_offset_for_section_centered(
        &self,
        target_view_main: Option<N>,
        idx: usize,
    ) -> (r: N)
        requires
            self@.loose(),
            idx < self@.sections.len(),
        ensures
            r == self@.centered_offset_for(target_view_main, idx as int),
    {
        assert(self@.sections[idx as int] == self.sections@[idx as int]@);
        self.compute_new_view_offset_centered(
            target_view_main,
            self.section_main_pos(idx),
            self.section_width(idx),
            self.sections[idx].sizing_mode(),
        )
    }

    fn fits_with_source(&self, idx: usize, prev_idx: usize) -> (r: bool)
        requires
            self@.loose(),
            idx < self@.sections.len(),
        ensures
            r == self@.fits_with_source(idx as int, prev_idx as int),
    {
        let source: usize = if prev_idx > idx {
            if idx < self.sections.len() - 1 {
                idx + 1
            } else {
                self.sections.len() - 1
            }
        } else if idx > 0 {
            idx - 1
        } else {
            0
        };
        let source_main = self.section_main_pos(source);
        let target_main = self.section_main_pos(idx);
        let combined = if source_main.lt(target_main) {
            target_main.sub(source_main).add(self.section_width(idx))
        } else {
            source_main.sub(target_main).add(self.section_width(source))
        };
        let combined = combined.add(self.options.layout.gaps.mul(N::of_int(2)));
        combined.le(self.props.working_area.size.w)
    }

    /// The view offset for a section that focus comes to: centered where sections always are, or
    /// where it does not fit into the view together with its neighbor; otherwise the least
    /// movement that shows it.
    pub fn compute_new_view_offset_for_section(
        &self,
        target_view_main: Option<N>,
        idx: usize,
        prev_idx: Option<usize>,
    ) -> (r: N)
        requires
            self@.loose(),
            idx < self@.sections.len(),
        ensures
            r == self@.offset_for(target_view_main, idx as int, prev_idx),
    {
        if self.is_centering_focused_section() {
            return self.compute_new_view_offset_for_section_centered(target_view_main, idx);
        }
        match self.options.layout.center_focused_section {
            CenterFocusedSection::Always => self.compute_new_view_offset_for_section_centered(
                target_view_main,
                idx,
            ),
            CenterFocusedSection::OnOverflow => match prev_idx {
                None => self.compute_new_view_offset_for_section_fit(target_view_main, idx),
                Some(prev) => if prev == idx || self.fits_with_source(idx, prev) {
                    self.compute_new_view_offset_for_section_fit(target_view_main, idx)
                } else {
                    self.compute_new_view_offset_for_section_centered(target_view_main, idx)
                },
            },
            CenterFocusedSection::Never => self.compute_new_view_offset_for_section_fit(
                target_view_main,
                idx,
            ),
        }
    }

    pub fn animate_view_offset(&mut self, idx: usize, new_view_offset: N)
        requires
            old(self)@.loose(),
            idx <= old(self)@.sections.len(),
        ensures
            final(self)@ == old(self)@.view_sent(
                idx as int,
                new_view_offset,
                AnimationKind::HorizontalViewMovement,
            ),
            final(self)@.loose(),
            old(self)@.wf() ==> final(self)@.wf(),
    {
        self.animate_view_offset_with_config(
            idx,
            new_view_offset,
            AnimationKind::HorizontalViewMovement,
        );
    }

    /// Sends the view to an offset from a section.
    pub fn animate_view_offset_with_config(
        &mut self,
        idx: usize,
        new_view_offset: N,
        kind: AnimationKind,
    )
        requires
            old(self)@.loose(),
            idx <= old(self)@.sections.len(),
        ensures
            final(self)@ == old(self)@.view_sent(idx as int, new_view_offset, kind),
            final(self)@.loose(),
            old(self)@.wf() ==> final(self)@.wf(),
    {
        let new_main = self.section_main_pos(idx);
        let old_main = self.section_main_pos(self.props.active_section_idx);
        let mut view_offset = self.props.view_offset;
        view_offset.offset(old_main.sub(new_main));
        view_offset.send_to(new_view_offset, N::of_int(1).div(self.props.scale), kind);
        self.props.view_offset = view_offset;
    }

    pub fn animate_view_offset_to_section_centered(
        &mut self,
        target_view_main: Option<N>,
        idx: usize,
        kind: AnimationKind,
    )
        requires
            old(self)@.loose(),
            idx < old(self)@.sections.len(),
        ensures
            final(self)@ == old(self)@.view_sent_to_center(target_view_main, idx as int, kind),
            final(self)@.loose(),
            old(self)@.wf() ==> final(self)@.wf(),
    {
        let offset = self.compute_new_view_offset_for_section_centered(target_view_main, idx);
        self.animate_view_offset_with_config(idx, offset, kind);
    }

    pub fn animate_view_offset_to_section_with_config(
        &mut self,
        target_view_main: Option<N>,
        idx: usize,
        prev_idx: Option<usize>,
        kind: AnimationKind,
    )
        requires
            old(self)@.loose(),
            idx < old(self)@.sections.len(),
        ensures
            final(self)@ == old(self)@.view_sent_to(target_view_main, idx as int, prev_idx, kind),
            final(self)@.loose(),
            old(self)@.wf() ==> final(self)@.wf(),
    {
        let offset = self.compute_new_view_offset_for_section(target_view_main, idx, prev_idx);
        self.animate_view_offset_with_config(idx, offset, kind);
    }

    pub fn animate_view_offset_to_section(
        &mut self,
        target_view_main: Option<N>,
        idx: usize,
        prev_idx: Option<usize>,
    )
        requires
            old(self)@.loose(),
            idx < old(self)@.sections.len(),
        ensures
            final(self)@ == old(self)@.view_sent_to(
                target_view_main,
                idx as int,
                prev_idx,
                AnimationKind::HorizontalViewMovement,
            ),
            final(self)@.loose(),
            old(self)@.wf() ==> final(self)@.wf(),
    {
        self.animate_view_offset_to_section_with_config(
            target_view_main,
            idx,
            prev_idx,
            AnimationKind::HorizontalViewMovement,
        );
    }

    pub fn activate_section(&mut self, idx: usize)
        requires
            old(self)@.loose(),
            idx < old(self)@.sections.len(),
        ensures
            final(self)@ == old(self)@.activated(idx, AnimationKind::HorizontalViewMovement),
            final(self)@.wf(),
            keeps_windows(old(self)@, final(self)@),
    {
        self.activate_section_with_anim_config(idx, AnimationKind::HorizontalViewMovement);
    }

    /// Activates a section and brings it into view. During a drag the view is brought there even
    /// where the section was active already.
    pub fn activate_section_with_anim_config(&mut self, idx: usize, kind: AnimationKind)
        requires
            old(self)@.loose(),
            idx < old(self)@.sections.len(),
        ensures
            final(self)@ == old(self)@.activated(idx, kind),
            final(self)@.wf(),
            keeps_windows(old(self)@, final(self)@),
    {
        let active: usize = self.props.active_section_idx;
        if active == idx && (self.is_empty() || !self.props.view_offset.is_dnd_scroll()) {
            return;
        }
        self.animate_view_offset_to_section_with_config(None, idx, Some(active), kind);
        if active != idx {
            self.props.active_section_idx = idx;
            self.props.activate_prev_section_on_removal = None;
            self.props.view_offset_to_restore = None;
            self.props.interactive_resize = None;
        }
    }
}

} // verus!
