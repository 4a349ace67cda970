//! Where the view may come to rest after a swipe.
use vstd::prelude::*;

use crate::config::{CenterFocusedSection, SizingMode};
use crate::geometry::Rectangle;
use crate::order::{
    closest_upto, find_closest, is_sorted, law_closest_is_first_minimum, law_sorting,
    lemma_sorted_len, sort_keyed, sorted_upto, Keyed,
};
use crate::scalar::{clamp, clamped, num, ordered, Scalar};
use crate::space::{ScrollingSpace, SpaceView};

verus! {

/// A resting place of the view: the position of the view, and the section that it is for.
pub open spec fn snap_at<N>(view_main_pos: N, col_idx: usize) -> Keyed<N> {
    Keyed { key: view_main_pos, idx: col_idx }
}

/// Some resting places, and one more where it lies between two others.
pub open spec fn with_snap_between<N: Scalar>(
    snaps: Seq<Keyed<N>>,
    view_main_pos: N,
    col_idx: usize,
    startmost_snap: N,
    endmost_snap: N,
) -> Seq<Keyed<N>> {
    if startmost_snap < view_main_pos && view_main_pos < endmost_snap {
        snaps.push(snap_at(view_main_pos, col_idx))
    } else {
        snaps
    }
}

impl<N: Scalar> SpaceView<N> {
    /// The start of a section, with spans and gaps added up one after the other.
    pub open spec fn summed_pos(self, i: int) -> N
        decreases i,
    {
        if i <= 0 {
            num::<N>(0)
        } else {
            self.summed_pos(i - 1) + self.width(i - 1) + self.layout().gaps
        }
    }

    pub open spec fn section_area(self, col: int) -> Rectangle<N> {
        self.work_area(self.sections[col].sizing_mode())
    }

    /// How far a section stays from the edge of the working area.
    pub open spec fn snap_padding(self, col: int) -> N {
        if self.sections[col].sizing_mode() == SizingMode::Maximized {
            num::<N>(0)
        } else {
            clamped(
                (self.section_area(col).size.w - self.width(col)).spec_div(num::<N>(2)),
                num::<N>(0),
                self.layout().gaps,
            )
        }
    }

    /// The position of the view that centers a section, or aligns it to the start where it is
    /// wider than the view.
    pub open spec fn centered_view(self, section_main: N, col: int) -> N {
        let area = self.section_area(col);
        if area.size.w <= self.width(col) {
            section_main - area.loc.x
        } else {
            section_main - (area.size.w - self.width(col)).spec_div(num::<N>(2)) - area.loc.x
        }
    }

    /// Whether a section has to be centered, since it does not fit into the view next to a
    /// neighbor.
    pub open spec fn overflows_with(self, col: int, neighbor: int) -> bool {
        &&& self.layout().center_focused_section == CenterFocusedSection::OnOverflow
        &&& 0 <= neighbor < self.sections.len()
        &&& self.section_area(col).size.w < self.width(neighbor) + num::<N>(3)
            * self.layout().gaps + self.width(col)
    }

    /// The start of the view that shows a section at its start, and the end of the view that
    /// shows it at its end.
    pub open spec fn snap_range(self, section_main: N, col: int) -> (N, N) {
        let width = self.width(col);
        if self.sections[col].sizing_mode() == SizingMode::Fullscreen {
            (section_main, section_main + width)
        } else {
            let area = self.section_area(col);
            let start_strut = area.loc.x;
            let end_strut = self.props.view_size.w - area.size.w - area.loc.x;
            let padding = self.snap_padding(col);
            let centered = self.centered_view(section_main, col);
            let start = if self.overflows_with(col, col + 1) {
                centered
            } else {
                section_main - padding - start_strut
            };
            let end = if self.overflows_with(col, col - 1) {
                centered + self.props.view_size.w
            } else {
                section_main + width + padding + end_strut
            };
            (start, end)
        }
    }

    /// The resting places where every section is centered.
    pub open spec fn centered_snaps(self) -> Seq<Keyed<N>> {
        Seq::new(
            self.sections.len(),
            |i: int|
                snap_at(
                    if self.sections[i].sizing_mode() == SizingMode::Fullscreen {
                        self.section_pos(i)
                    } else {
                        self.centered_view(self.section_pos(i), i)
                    },
                    i as usize,
                ),
        )
    }

    pub open spec fn startmost_snap(self) -> N {
        self.snap_range(num::<N>(0), 0).0
    }

    pub open spec fn endmost_snap(self) -> N {
        let last = self.sections.len() - 1;
        self.snap_range(self.summed_pos(last), last).1 - self.props.view_size.w
    }

    /// The resting places at the ends, and for the first `upto` sections those between.
    pub open spec fn aligned_snaps_upto(self, upto: int) -> Seq<Keyed<N>>
        decreases upto,
    {
        if upto <= 0 {
            seq![
                snap_at(self.startmost_snap(), 0),
                snap_at(self.endmost_snap(), (self.sections.len() - 1) as usize),
            ]
        } else {
            let before = self.aligned_snaps_upto(upto - 1);
            let col = (upto - 1) as usize;
            let (start, end) = self.snap_range(self.section_pos(upto - 1), upto - 1);
            with_snap_between(
                with_snap_between(
                    before,
                    start,
                    col,
                    self.startmost_snap(),
                    self.endmost_snap(),
                ),
                end - self.props.view_size.w,
                col,
                self.startmost_snap(),
                self.endmost_snap(),
            )
        }
    }

    /// The resting places in no particular order.
    pub open spec fn unsorted_snaps(self) -> Seq<Keyed<N>> {
        if self.is_centering() {
            self.centered_snaps()
        } else {
            self.aligned_snaps_upto(self.sections.len() as int)
        }
    }

    /// All resting places of the view, from the start of the strip to its end.
    pub open spec fn view_snaps(self) -> Seq<Keyed<N>> {
        sorted_upto(self.unsorted_snaps(), self.unsorted_snaps().len() as int)
    }

    /// The resting place closest to a position of the view.
    pub open spec fn closest_snap(self, target_view_main: N) -> Keyed<N> {
        let snaps = self.view_snaps();
        snaps[closest_upto(snaps, target_view_main, snaps.len() as int)]
    }

    /// Whether the edge of a section that movement goes to is in view.
    pub open spec fn is_visible_from(self, view_main: N, col: int, towards_end: bool) -> bool {
        let main = self.section_pos(col);
        let width = self.width(col);
        if self.sections[col].sizing_mode() == SizingMode::Fullscreen {
            if towards_end {
                main + width <= view_main + self.props.view_size.w
            } else {
                view_main <= main
            }
        } else {
            let area = self.section_area(col);
            let padding = self.snap_padding(col);
            if towards_end {
                main + width + padding <= view_main + area.loc.x + area.size.w
            } else {
                view_main + area.loc.x <= main - padding
            }
        }
    }

    /// The last of the sections in a row from `col` on whose end is in view.
    pub open spec fn visible_run_end(self, view_main: N, col: int) -> int
        decreases self.sections.len() - col,
    {
        if col + 1 < self.sections.len() && self.is_visible_from(view_main, col + 1, true) {
            self.visible_run_end(view_main, col + 1)
        } else {
            col
        }
    }

    /// The first of the sections in a row up to `col` whose start is in view.
    pub open spec fn visible_run_start(self, view_main: N, col: int) -> int
        decreases col,
    {
        if col > 0 && self.is_visible_from(view_main, col - 1, false) {
            self.visible_run_start(view_main, col - 1)
        } else {
            col
        }
    }

    /// The section to focus where the view comes to rest: the furthest one in the direction of the
    /// movement that is in view.
    pub open spec fn furthest_visible(
        self,
        snap: Keyed<N>,
        target_view_offset: N,
        current_view_offset: N,
    ) -> int {
        if self.is_centering() {
            snap.idx as int
        } else if current_view_offset <= target_view_offset {
            self.visible_run_end(snap.key, snap.idx as int)
        } else {
            self.visible_run_start(snap.key, snap.idx as int)
        }
    }
}

/// Sorting keeps what every index has.
pub proof fn lemma_sorted_indices<N: Scalar>(items: Seq<Keyed<N>>, upto: int, bound: int)
    requires
        0 <= upto <= items.len(),
        forall|i: int| 0 <= i < items.len() ==> (#[trigger] items[i]).idx < bound,
    ensures
        sorted_upto(items, upto).len() == upto,
        forall|i: int|
            0 <= i < upto ==> (#[trigger] sorted_upto(items, upto)[i]).idx < bound,
    decreases upto,
{
    lemma_sorted_len(items, upto);
    if upto > 0 {
        lemma_sorted_indices(items, upto - 1, bound);
        let before = sorted_upto(items, upto - 1);
        let after = sorted_upto(items, upto);
        let item = items[upto - 1];
        let at = crate::order::place_among(before, item.key, before.len() as int);
        crate::order::lemma_place_in_range(before, item.key, before.len() as int);
        assert forall|i: int| 0 <= i < upto implies (#[trigger] after[i]).idx < bound by {
            if i < at {
                assert(after[i] == before[i]);
            } else if i > at {
                assert(after[i] == before[i - 1]);
            }
        }
    }
}

/// There are always resting places at the ends.
proof fn lemma_aligned_snaps_len<N: Scalar>(space: SpaceView<N>, upto: int)
    ensures
        space.aligned_snaps_upto(upto).len() >= 2,
    decreases upto,
{
    if upto > 0 {
        lemma_aligned_snaps_len(space, upto - 1);
    }
}

/// The view comes to rest in order: the resting places go from the start of the strip to its end,
/// and no place is closer to where a swipe would end than the one that is chosen.
pub proof fn law_view_rests_at_the_closest_snap<N: Scalar>(
    space: SpaceView<N>,
    target_view_main: N,
)
    requires
        ordered::<N>(),
        space.sections.len() > 0,
    ensures
        is_sorted(space.view_snaps()),
        space.view_snaps().to_multiset() == space.unsorted_snaps().to_multiset(),
        forall|i: int|
            0 <= i < space.view_snaps().len() ==> (space.closest_snap(target_view_main).key
                - target_view_main).spec_abs().spec_le(
                (#[trigger] space.view_snaps()[i].key - target_view_main).spec_abs(),
            ),
{
    lemma_aligned_snaps_len(space, space.sections.len() as int);
    let unsorted = space.unsorted_snaps();
    let n = unsorted.len() as int;
    law_sorting(unsorted, n);
    assert(unsorted.take(n) =~= unsorted);
    lemma_sorted_len(unsorted, n);
    law_closest_is_first_minimum(space.view_snaps(), target_view_main, n);
}

impl<N: Scalar> ScrollingSpace<N> {
    fn push_snap_if_between_bounds(
        snaps: &mut Vec<Keyed<N>>,
        view_main_pos: N,
        col_idx: usize,
        startmost_snap: N,
        endmost_snap: N,
    )
        ensures
            final(snaps)@ == with_snap_between(
                old(snaps)@,
                view_main_pos,
                col_idx,
                startmost_snap,
                endmost_snap,
            ),
    {
        if startmost_snap.lt(view_main_pos) && view_main_pos.lt(endmost_snap) {
            snaps.push(Keyed { key: view_main_pos, idx: col_idx });
        }
    }

    fn section_area(&self, col: usize) -> (r: Rectangle<N>)
        requires
            self@.wf(),
            col < self@.sections.len(),
        ensures
            r == self@.section_area(col as int),
    {
        assert(self@.sections[col as int] == self.sections@[col as int]@);
        self.work_area(self.sections[col].sizing_mode())
    }

    fn snap_padding(&self, col: usize) -> (r: N)
        requires
            self@.wf(),
            col < self@.sections.len(),
        ensures
            r == self@.snap_padding(col as int),
    {
        assert(self@.sections[col as int] == self.sections@[col as int]@);
        if self.sections[col].sizing_mode().is_maximized() {
            return N::of_int(0);
        }
        let slack = self.section_area(col).size.w.sub(self.section_width(col));
        clamp(slack.div(N::of_int(2)), N::of_int(0), self.options.layout.gaps)
    }

    fn centered_view(&self, section_main: N, col: usize) -> (r: N)
        requires
            self@.wf(),
            col < self@.sections.len(),
        ensures
            r == self@.centered_view(section_main, col as int),
    {
        let area = self.section_area(col);
        let width = self.section_width(col);
        if area.size.w.le(width) {
            section_main.sub(area.loc.x)
        } else {
            section_main.sub(area.size.w.sub(width).div(N::of_int(2))).sub(area.loc.x)
        }
    }

    fn overflows_with(&self, col: usize, neighbor: Option<usize>) -> (r: bool)
        requires
            self@.wf(),
            col < self@.sections.len(),
            neighbor matches Some(other) ==> other < self@.sections.len(),
        ensures
            r == (neighbor matches Some(other) && self@.overflows_with(col as int, other as int)),
    {
        if !matches!(
            self.options.layout.center_focused_section,
            CenterFocusedSection::OnOverflow
        ) {
            return false;
        }
        match neighbor {
            Some(other) => {
                let gaps = N::of_int(3).mul(self.options.layout.gaps);
                let both = self.section_width(other).add(gaps).add(self.section_width(col));
                self.section_area(col).size.w.lt(both)
            },
            None => false,
        }
    }

    /// The start of the view that shows a section at its start, and the end of the view that shows
    /// it at its end.
    ///
    /// Normal sections align with the working area, but fullscreen sections align with the whole
    /// view.
    pub fn aligned_section_snap_range(&self, section_main: N, col: usize) -> (r: (N, N))
        requires
            self@.wf(),
            col < self@.sections.len(),
        ensures
            r == self@.snap_range(section_main, col as int),
    {
        assert(self@.sections[col as int] == self.sections@[col as int]@);
        let width = self.section_width(col);
        if self.sections[col].sizing_mode().is_fullscreen() {
            return (section_main, section_main.add(width));
        }
        let area = self.section_area(col);
        let start_strut = area.loc.x;
        let end_strut = self.props.view_size.w.sub(area.size.w).sub(area.loc.x);
        let padding = self.snap_padding(col);
        let centered = self.centered_view(section_main, col);
        let next: Option<usize> = if col < self.sections.len() - 1 {
            Some(col + 1)
        } else {
            None
        };
        let prev: Option<usize> = if col > 0 {
            Some(col - 1)
        } else {
            None
        };
        let start = if self.overflows_with(col, next) {
            centered
        } else {
            section_main.sub(padding).sub(start_strut)
        };
        let end = if self.overflows_with(col, prev) {
            centered.add(self.props.view_size.w)
        } else {
            section_main.add(width).add(padding).add(end_strut)
        };
        (start, end)
    }

    /// The start of a section, with spans and gaps added up one after the other.
    pub fn summed_section_pos(&self, idx: usize) -> (r: N)
        requires
            self@.wf(),
            idx <= self@.sections.len(),
        ensures
            r == self@.summed_pos(idx as int),
    {
        let mut main = N::of_int(0);
        let mut i: usize = 0;
        while i < idx
            invariant
                i <= idx <= self@.sections.len(),
                self@.wf(),
                main == self@.summed_pos(i as int),
            decreases idx - i,
        {
            main = main.add(self.section_width(i)).add(self.options.layout.gaps);
            i = i + 1;
        }
        main
    }

    fn collect_centered_view_snaps(&self) -> (r: Vec<Keyed<N>>)
        requires
            self@.wf(),
        ensures
            r@ == self@.centered_snaps(),
            forall|i: int| 0 <= i < r@.len() ==> (#[trigger] r@[i]).idx < self@.sections.len(),
    {
        let ghost expected = self@.centered_snaps();
        let mut snaps: Vec<Keyed<N>> = Vec::new();
        let mut main = N::of_int(0);
        let mut i: usize = 0;
        while i < self.sections.len()
            invariant
                i <= self.sections.len(),
                self@.wf(),
                expected == self@.centered_snaps(),
                main == self@.section_pos(i as int),
                snaps.len() == i,
                forall|j: int| 0 <= j < i ==> snaps@[j] == expected[j],
                forall|j: int|
                    0 <= j < i ==> (#[trigger] snaps@[j]).idx < self@.sections.len(),
            decreases self.sections.len() - i,
        {
            assert(self@.sections[i as int] == self.sections@[i as int]@);
            let key = if self.sections[i].sizing_mode().is_fullscreen() {
                main
            } else {
                self.centered_view(main, i)
            };
            snaps.push(Keyed { key, idx: i });
            main = main.add(self.section_width(i).add(self.options.layout.gaps));
            i = i + 1;
        }
        assert(snaps@ =~= expected);
        snaps
    }

    fn collect_aligned_view_snaps(&self) -> (r: Vec<Keyed<N>>)
        requires
            self@.wf(),
            self@.sections.len() > 0,
        ensures
            r@ == self@.aligned_snaps_upto(self@.sections.len() as int),
            r@.len() > 0,
            forall|i: int| 0 <= i < r@.len() ==> (#[trigger] r@[i]).idx < self@.sections.len(),
    {
        let last: usize = self.sections.len() - 1;
        let startmost = self.aligned_section_snap_range(N::of_int(0), 0).0;
        let last_main = self.summed_section_pos(last);
        let endmost = self.aligned_section_snap_range(last_main, last).1.sub(
            self.props.view_size.w,
        );
        let mut snaps: Vec<Keyed<N>> = Vec::new();
        snaps.push(Keyed { key: startmost, idx: 0 });
        snaps.push(Keyed { key: endmost, idx: last });
        assert(snaps@ =~= self@.aligned_snaps_upto(0));
        let mut main = N::of_int(0);
        let mut i: usize = 0;
        while i < self.sections.len()
            invariant
                i <= self.sections.len(),
                self@.wf(),
                startmost == self@.startmost_snap(),
                endmost == self@.endmost_snap(),
                main == self@.section_pos(i as int),
                snaps@ == self@.aligned_snaps_upto(i as int),
                snaps.len() > 0,
                forall|j: int|
                    0 <= j < snaps@.len() ==> (#[trigger] snaps@[j]).idx < self@.sections.len(),
            decreases self.sections.len() - i,
        {
            let (start, end) = self.aligned_section_snap_range(main, i);
            Self::push_snap_if_between_bounds(&mut snaps, start, i, startmost, endmost);
            Self::push_snap_if_between_bounds(
                &mut snaps,
                end.sub(self.props.view_size.w),
                i,
                startmost,
                endmost,
            );
            main = main.add(self.section_width(i).add(self.options.layout.gaps));
            i = i + 1;
        }
        snaps
    }

    /// All resting places of the view, from the start of the strip to its end.
    pub fn collect_view_snaps(&self) -> (r: Vec<Keyed<N>>)
        requires
            self@.wf(),
            self@.sections.len() > 0,
        ensures
            r@ == self@.view_snaps(),
            r@.len() > 0,
            forall|i: int| 0 <= i < r@.len() ==> (#[trigger] r@[i]).idx < self@.sections.len(),
    {
        let snaps = if self.is_centering_focused_section() {
            self.collect_centered_view_snaps()
        } else {
            self.collect_aligned_view_snaps()
        };
        proof {
            lemma_sorted_indices(snaps@, snaps@.len() as int, self@.sections.len() as int);
        }
        sort_keyed(&snaps)
    }

    /// The resting place closest to a position of the view.
    pub fn closest_view_snap(&self, target_view_main: N) -> (r: Keyed<N>)
        requires
            self@.wf(),
            self@.sections.len() > 0,
        ensures
            r == self@.closest_snap(target_view_main),
            r.idx < self@.sections.len(),
    {
        let snaps = self.collect_view_snaps();
        let closest: usize = find_closest(&snaps, target_view_main);
        snaps[closest]
    }

    /// Whether the edge of a section that movement goes to is in view.
    pub fn section_fully_visible_from_view_main(
        &self,
        view_main_pos: N,
        col_idx: usize,
        towards_end: bool,
    ) -> (r: bool)
        requires
            self@.wf(),
            col_idx < self@.sections.len(),
        ensures
            r == self@.is_visible_from(view_main_pos, col_idx as int, towards_end),
    {
        assert(self@.sections[col_idx as int] == self.sections@[col_idx as int]@);
        let main = self.section_main_pos(col_idx);
        let width = self.section_width(col_idx);
        if self.sections[col_idx].sizing_mode().is_fullscreen() {
            if towards_end {
                main.add(width).le(view_main_pos.add(self.props.view_size.w))
            } else {
                view_main_pos.le(main)
            }
        } else {
            let area = self.section_area(col_idx);
            let padding = self.snap_padding(col_idx);
            if towards_end {
                main.add(width).add(padding).le(view_main_pos.add(area.loc.x).add(area.size.w))
            } else {
                view_main_pos.add(area.loc.x).le(main.sub(padding))
            }
        }
    }

    /// The section to focus where the view comes to rest: the furthest one in the direction of the
    /// movement that is in view.
    pub fn furthest_visible_section_from_snap(
        &self,
        snap: Keyed<N>,
        target_view_offset: N,
        current_view_offset: N,
    ) -> (r: usize)
        requires
            self@.wf(),
            snap.idx < self@.sections.len(),
        ensures
            r == self@.furthest_visible(snap, target_view_offset, current_view_offset),
            r < self@.sections.len(),
    {
        if self.is_centering_focused_section() {
            return snap.idx;
        }
        let mut col: usize = snap.idx;
        if current_view_offset.le(target_view_offset) {
            let ghost end = self@.visible_run_end(snap.key, col as int);
            while col < self.sections.len() - 1 && self.section_fully_visible_from_view_main(
                snap.key,
                col + 1,
                true,
            )
                invariant
                    col < self@.sections.len(),
                    self@.wf(),
                    end == self@.visible_run_end(snap.key, col as int),
                decreases self@.sections.len() - col,
            {
                col = col + 1;
            }
            assert(end == col);
        } else {
            let ghost start = self@.visible_run_start(snap.key, col as int);
            while col > 0 && self.section_fully_visible_from_view_main(snap.key, col - 1, false)
                invariant
                    col < self@.sections.len(),
                    self@.wf(),
                    start == self@.visible_run_start(snap.key, col as int),
                decreases col,
            {
                col = col - 1;
            }
            assert(start == col);
        }
        col
    }
}

} // verus!
