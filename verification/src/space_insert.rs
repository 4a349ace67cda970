//! Where a dragged window would land, and the hint that shows it.
use vstd::prelude::*;

use crate::axis::AxisMap;
use crate::config::{InsertPosition, LayoutOptions, SizingMode, SplitAxis, TilingDrag};
use crate::geometry::{Point, Rectangle, Size};
use crate::order::{closest_upto, find_closest, Keyed};
use crate::scalar::{clamp, clamped, num, Pixels, Scalar};
use crate::section::{axis_of, lemma_section_tiles, Section, SectionView};
use crate::space::{ScrollingSpace, SpaceView};
use crate::tree_layout::lemma_visibility_len;

verus! {

/// The width of the band around a gap in which a window is dropped into the gap: twice the gap,
/// or a few pixels where there are no gaps, but never more than a third of the tile.
pub open spec fn gap_band<N: Scalar>(gaps: N, tile_span: N) -> N {
    let band = if gaps.spec_same(num::<N>(0)) {
        num::<N>(6)
    } else {
        gaps * num::<N>(2)
    };
    band.spec_min(tile_span.spec_div(num::<N>(3)).spec_max(num::<N>(0)))
}

fn compute_gap_band<N: Scalar>(gaps: N, tile_span: N) -> (r: N)
    ensures
        r == gap_band(gaps, tile_span),
{
    let band = if gaps.same(N::of_int(0)) {
        N::of_int(6)
    } else {
        gaps.mul(N::of_int(2))
    };
    band.min(tile_span.div(N::of_int(3)).max(N::of_int(0)))
}

/// How far along a tile a position is, from zero to one.
pub open spec fn relative<N: Scalar>(at: N, start: N, span: N) -> N {
    clamped((at - start).spec_div(span.spec_max(num::<N>(1))), num::<N>(0), num::<N>(1))
}

fn compute_relative<N: Scalar>(at: N, start: N, span: N) -> (r: N)
    ensures
        r == relative(at, start, span),
{
    clamp(at.sub(start).div(span.max(N::of_int(1))), N::of_int(0), N::of_int(1))
}

/// Whether a relative position is in the middle third.
pub open spec fn in_middle_third<N: Scalar>(at: N) -> bool {
    num::<N>(1).spec_div(num::<N>(3)) <= at && at <= num::<N>(2).spec_div(num::<N>(3))
}

fn is_in_middle_third<N: Scalar>(at: N) -> (r: bool)
    ensures
        r == in_middle_third(at),
{
    N::of_int(1).div(N::of_int(3)).le(at) && at.le(N::of_int(2).div(N::of_int(3)))
}

/// What dropping on a window does, by the region of the window: the middle swaps or groups into
/// tabs, and the edges place the dropped window on their side.
pub open spec fn region<N: Scalar>(
    col: usize,
    tile: usize,
    rel_x: N,
    rel_y: N,
    drag: TilingDrag,
) -> InsertPosition {
    let half = num::<N>(1).spec_div(num::<N>(2));
    if in_middle_third(rel_x) && in_middle_third(rel_y) {
        if drag == TilingDrag::InPlace {
            InsertPosition::Swap(col, tile)
        } else {
            InsertPosition::InsertTab(col, tile)
        }
    } else if (rel_y - half).spec_abs() <= (rel_x - half).spec_abs() {
        InsertPosition::InSplit(col, tile, SplitAxis::Main, half < rel_x)
    } else {
        InsertPosition::InSplit(col, tile, SplitAxis::Cross, half < rel_y)
    }
}

/// Tells what dropping on a region of a window does.
pub fn find_region<N: Scalar>(
    col: usize,
    tile: usize,
    rel_x: N,
    rel_y: N,
    drag: TilingDrag,
) -> (r: InsertPosition)
    ensures
        r == region(col, tile, rel_x, rel_y, drag),
{
    let half = N::of_int(1).div(N::of_int(2));
    if is_in_middle_third(rel_x) && is_in_middle_third(rel_y) {
        if matches!(drag, TilingDrag::InPlace) {
            InsertPosition::Swap(col, tile)
        } else {
            InsertPosition::InsertTab(col, tile)
        }
    } else if rel_y.sub(half).abs().le(rel_x.sub(half).abs()) {
        InsertPosition::InSplit(col, tile, SplitAxis::Main, half.lt(rel_x))
    } else {
        InsertPosition::InSplit(col, tile, SplitAxis::Cross, half.lt(rel_y))
    }
}

impl<N: Scalar> SectionView<N> {
    /// The span of the active leaf along the cross axis.
    pub open spec fn active_height(self) -> N {
        match self.root.leaf_data(self.root.active_path()) {
            Some(data) => data.size.h,
            None => num::<N>(0),
        }
    }

    /// The tops of the tiles.
    pub open spec fn tops(self, layout: LayoutOptions<N>) -> Seq<Keyed<N>> {
        let positions = self.leaf_positions(layout);
        Seq::new(positions.len(), |i: int| Keyed { key: positions[i].y, idx: i as usize })
    }

    /// The row gap that is closest along the cross axis, and where it is. With tabs, that is above
    /// or below what is shown.
    pub open spec fn closest_row(
        self,
        layout: LayoutOptions<N>,
        cross: N,
    ) -> (usize, N) {
        if self.root.is_tabbed() {
            let top = self.active_tile_offset(layout).y;
            let bottom = top + self.active_height();
            if (top - cross).spec_abs() <= (bottom - cross).spec_abs() {
                (self.root.active_idx(), top)
            } else {
                ((self.root.active_idx() + 1) as usize, bottom)
            }
        } else {
            let tops = self.tops(layout);
            let i = closest_upto(tops, cross, tops.len() as int);
            (i as usize, tops[i].key)
        }
    }

    /// Whether the leaf `i` is shown and a position is on it.
    pub open spec fn is_on_leaf(
        self,
        layout: LayoutOptions<N>,
        section_main: N,
        main: N,
        cross: N,
        i: int,
    ) -> bool {
        let pos = self.leaf_positions(layout)[i];
        let size = self.leaf_size(i as usize);
        let left = section_main + pos.x;
        &&& self.root.visibility(true)[i]
        &&& pos.y <= cross
        &&& cross <= pos.y + size.h
        &&& left <= main
        &&& main <= left + size.w
    }

    /// The first of the leaves below `upto` that is shown at a position.
    pub open spec fn leaf_under_upto(
        self,
        layout: LayoutOptions<N>,
        section_main: N,
        main: N,
        cross: N,
        upto: int,
    ) -> Option<usize>
        decreases upto,
    {
        if upto <= 0 {
            None
        } else {
            match self.leaf_under_upto(layout, section_main, main, cross, upto - 1) {
                Some(i) => Some(i),
                None => if self.is_on_leaf(layout, section_main, main, cross, upto - 1) {
                    Some((upto - 1) as usize)
                } else {
                    None
                },
            }
        }
    }

    /// Where a window lands that is dropped inside of the section, away from all gaps.
    pub open spec fn interior_position(
        self,
        layout: LayoutOptions<N>,
        col: usize,
        section_main: N,
        main: N,
        cross: N,
        closest_tile: usize,
    ) -> InsertPosition {
        let count = self.tiles().len();
        let tile = match self.leaf_under_upto(layout, section_main, main, cross, count as int) {
            Some(tile) => tile,
            None => closest_tile,
        };
        if tile < count {
            let pos = self.leaf_positions(layout)[tile as int];
            let size = self.leaf_size(tile);
            region(
                col,
                tile,
                relative(main, section_main + pos.x, size.w),
                relative(cross, pos.y, size.h),
                layout.tiling_drag,
            )
        } else {
            InsertPosition::InSplit(col, tile, SplitAxis::Main, false)
        }
    }
}

impl<N: Scalar> SpaceView<N> {
    /// The starts of the sections, and of one past the last.
    pub open spec fn section_starts(self) -> Seq<Keyed<N>> {
        Seq::new(
            self.sections.len() + 1,
            |i: int| Keyed { key: self.section_pos(i), idx: i as usize },
        )
    }

    /// The gap between sections that is closest.
    pub open spec fn closest_gap(self, main: N) -> int {
        closest_upto(self.section_starts(), main, self.sections.len() as int + 1)
    }

    /// The number of sections, and one past the last, that start in a row before a position,
    /// counted on from `from`.
    pub open spec fn started(self, main: N, from: int) -> int
        decreases self.sections.len() + 1 - from,
    {
        if 0 <= from <= self.sections.len() && self.section_pos(from) <= main {
            self.started(main, from + 1)
        } else {
            from
        }
    }

    /// The section that is at a position, or one past the last.
    pub open spec fn section_at(self, main: N) -> int {
        let started = self.started(main, 0);
        if started > 0 {
            started - 1
        } else {
            0
        }
    }

    /// Where a window lands that is dropped at a position in a section, or in a gap around it.
    pub open spec fn position_in_section(
        self,
        col: int,
        main_raw: N,
        cross_raw: N,
        main: N,
        cross: N,
    ) -> InsertPosition {
        let layout = self.layout();
        let section = self.sections[col];
        let section_main = self.section_pos(col);
        let gap = self.closest_gap(main);
        let (row, row_cross) = section.closest_row(layout, cross);
        let main_dist = (self.section_pos(gap) - main).spec_abs();
        let cross_dist = (row_cross - cross).spec_abs();
        let local = Point { x: main_raw - section_main, y: cross_raw };
        let last = (section.tiles().len() - 1) as usize;
        let close = section.leaf_size(
            if row < last {
                row
            } else {
                last
            },
        );
        match section.header_band_target(layout, local) {
            Some(target) => InsertPosition::InsertTab(col as usize, target),
            None => if gap_band(layout.gaps, close.w) < main_dist && gap_band(layout.gaps, close.h)
                < cross_dist {
                section.interior_position(
                    layout,
                    col as usize,
                    section_main,
                    main_raw,
                    cross_raw,
                    row,
                )
            } else if main_dist <= cross_dist {
                InsertPosition::NewSection(gap as usize)
            } else {
                InsertPosition::InSection(col as usize, row)
            },
        }
    }

    /// Where a window lands that is dropped at a position on screen.
    pub open spec fn insert_position(self, pos: Point<N>) -> InsertPosition {
        let pos = axis_of(self.layout()).spec_point(pos);
        let half_gap = self.layout().gaps.spec_div(num::<N>(2));
        let main_raw = pos.x + self.view_pos();
        let main = main_raw + half_gap;
        let col = self.section_at(main);
        if self.sections.len() == 0 || main < num::<N>(0) {
            InsertPosition::NewSection(0)
        } else if col == self.sections.len() {
            InsertPosition::NewSection(self.closest_gap(main) as usize)
        } else {
            self.position_in_section(col, main_raw, pos.y, main, pos.y + half_gap)
        }
    }

    /// Whether a position is one that there can be a hint for.
    pub open spec fn can_hint(self, position: InsertPosition) -> bool {
        position matches InsertPosition::InSection(col, _) ==> col != self.sections.len()
    }

    /// The hint for a new section, as in the space.
    pub open spec fn new_section_hint(self, col: int) -> Rectangle<N> {
        let gaps = self.layout().gaps;
        let area = self.props.working_area;
        let size = Size { w: num::<N>(300), h: area.size.h - gaps * num::<N>(2) };
        let start = self.section_pos(col);
        let x = if col == 0 && self.sections.len() > 0 {
            start - (size.w + gaps)
        } else if col == 0 || col == self.sections.len() {
            start
        } else {
            start - size.w.spec_div(num::<N>(2)) - gaps.spec_div(num::<N>(2))
        };
        Rectangle { loc: Point { x, y: area.loc.y + gaps }, size }
    }

    /// The hint for a new row of a section, as in the space.
    pub open spec fn row_hint(self, col: int, row: usize) -> Rectangle<N> {
        let layout = self.layout();
        let section = self.sections[col];
        let (height, y) = if section.root.is_tabbed() {
            let top = section.active_tile_offset(layout).y;
            let bottom = top + section.active_height();
            if row <= section.root.active_idx() {
                (num::<N>(150), top)
            } else {
                (num::<N>(150), bottom - num::<N>(150))
            }
        } else {
            let top = section.tile_offset(layout, row as int).y;
            if row == 0 {
                (num::<N>(150), top)
            } else if row == section.tiles().len() {
                (num::<N>(150), top - layout.gaps - num::<N>(150))
            } else {
                (num::<N>(300), top - layout.gaps.spec_div(num::<N>(2)) - num::<N>(150))
            }
        };
        let extra = if section.root.is_tabbed() && section.sizing_mode() == SizingMode::Normal {
            section.extra_size().w
        } else {
            num::<N>(0)
        };
        Rectangle {
            loc: Point { x: self.section_pos(col) + section.tiles_origin(layout).x, y },
            size: Size { w: self.width(col) - extra, h: height },
        }
    }

    /// The rectangle of a tile, as in the space.
    pub open spec fn tile_rect(self, col: int, tile: usize) -> Rectangle<N> {
        let section = self.sections[col];
        let offset = section.tile_offset(self.layout(), tile as int);
        Rectangle {
            loc: Point { x: self.section_pos(col) + offset.x, y: offset.y },
            size: section.leaf_size(tile),
        }
    }

    /// The half of a tile that a window placed beside it is going to take.
    pub open spec fn split_hint(
        self,
        col: int,
        tile: usize,
        axis: SplitAxis,
        place_after: bool,
    ) -> Rectangle<N> {
        let rect = self.tile_rect(col, tile);
        match axis {
            SplitAxis::Main => {
                let half = rect.size.w.spec_div(num::<N>(2));
                Rectangle {
                    loc: if place_after {
                        Point { x: rect.loc.x + half, y: rect.loc.y }
                    } else {
                        rect.loc
                    },
                    size: Size { w: half, h: rect.size.h },
                }
            },
            SplitAxis::Cross => {
                let half = rect.size.h.spec_div(num::<N>(2));
                Rectangle {
                    loc: if place_after {
                        Point { x: rect.loc.x, y: rect.loc.y + half }
                    } else {
                        rect.loc
                    },
                    size: Size { w: rect.size.w, h: half },
                }
            },
        }
    }

    /// The hint for a position, as in the space. There is none for what does not exist.
    pub open spec fn hint_in_space(self, position: InsertPosition) -> Option<Rectangle<N>> {
        let count = self.sections.len();
        match position {
            InsertPosition::NewSection(col) => if col <= count {
                Some(self.new_section_hint(col as int))
            } else {
                None
            },
            InsertPosition::InSection(col, row) => if col < count && row
                <= self.sections[col as int].tiles().len() {
                Some(self.row_hint(col as int, row))
            } else {
                None
            },
            InsertPosition::InSplit(col, tile, axis, place_after) => if col < count && tile
                < self.sections[col as int].tiles().len() {
                Some(self.split_hint(col as int, tile, axis, place_after))
            } else {
                None
            },
            InsertPosition::InsertTab(col, tile) => if col < count && tile
                < self.sections[col as int].tiles().len() {
                Some(self.tile_rect(col as int, tile))
            } else {
                None
            },
            InsertPosition::Swap(col, tile) => if col < count && tile
                < self.sections[col as int].tiles().len() {
                Some(self.tile_rect(col as int, tile))
            } else {
                None
            },
            InsertPosition::Floating => None,
        }
    }

    /// The start of the view that a hint is seen from. The first window of an empty space cancels
    /// out any view offset.
    pub open spec fn hint_view_pos(self, hint: Rectangle<N>) -> N {
        if self.sections.len() > 0 {
            self.view_pos()
        } else if self.is_centering() {
            self.centered_offset(
                Some(num::<N>(0)),
                num::<N>(0),
                hint.size.w,
                SizingMode::Normal,
            )
        } else {
            self.fit_offset(Some(num::<N>(0)), num::<N>(0), hint.size.w, SizingMode::Normal)
        }
    }

    /// The area of the hint for a position, on screen.
    pub open spec fn insert_hint_area(self, position: InsertPosition) -> Option<Rectangle<N>> {
        match self.hint_in_space(position) {
            Some(hint) => Some(
                axis_of(self.layout()).spec_rect(
                    Rectangle {
                        loc: Point {
                            x: hint.loc.x - self.hint_view_pos(hint),
                            y: hint.loc.y,
                        },
                        size: hint.size,
                    },
                ),
            ),
            None => None,
        }
    }
}

/// The hint for a new tab and the one for a swap are the same: the whole target tile, as it is seen
/// on screen.
pub proof fn law_tab_hint_is_the_tile<N: Scalar>(space: SpaceView<N>, col: usize, tile: usize)
    requires
        col < space.sections.len(),
        tile < space.sections[col as int].tiles().len(),
    ensures
        ({
            let rect = space.tile_rect(col as int, tile);
            let seen = axis_of(space.layout()).spec_rect(
                Rectangle {
                    loc: Point { x: rect.loc.x - space.view_pos(), y: rect.loc.y },
                    size: rect.size,
                },
            );
            &&& space.insert_hint_area(InsertPosition::InsertTab(col, tile)) == Some(seen)
            &&& space.insert_hint_area(InsertPosition::Swap(col, tile)) == Some(seen)
        }),
{
}

/// Whether a coordinate is far from where whole pixels saturate.
pub open spec fn is_moderate(value: Pixels) -> bool {
    -0x1000_0000_0000_0000 <= value.value <= 0x1000_0000_0000_0000
}

/// Whether two spans are the halves of a third one: of the same length, the second right behind the
/// first, from the start of the whole to its end, but for the one pixel that is left over of an odd
/// length.
pub open spec fn are_halves(
    whole: (Pixels, Pixels),
    first: (Pixels, Pixels),
    second: (Pixels, Pixels),
) -> bool {
    &&& first.0 == whole.0
    &&& first.1 == second.1
    &&& second.0.value == first.0.value + first.1.value
    &&& second.0.value + second.1.value == whole.0.value + whole.1.value - whole.1.value % 2
}

/// The hints on the two sides of a tile are its halves, along the axis of the split, and go all the
/// way along the other one. Stated in whole pixels, turned to the main axis, for coordinates far
/// from where they saturate.
pub proof fn law_split_hints_are_halves(space: SpaceView<Pixels>, col: usize, tile: usize)
    requires
        space.wf(),
        col < space.sections.len(),
        tile < space.sections[col as int].tiles().len(),
        is_moderate(space.tile_rect(col as int, tile).loc.x),
        is_moderate(space.tile_rect(col as int, tile).loc.y),
        is_moderate(space.tile_rect(col as int, tile).size.w),
        is_moderate(space.tile_rect(col as int, tile).size.h),
        is_moderate(space.view_pos()),
    ensures
        ({
            let axis = axis_of(space.layout());
            let hint = |position: InsertPosition|
                axis.spec_rect(space.insert_hint_area(position)->0);
            let whole = hint(InsertPosition::InsertTab(col, tile));
            let left = hint(InsertPosition::InSplit(col, tile, SplitAxis::Main, false));
            let right = hint(InsertPosition::InSplit(col, tile, SplitAxis::Main, true));
            let top = hint(InsertPosition::InSplit(col, tile, SplitAxis::Cross, false));
            let bottom = hint(InsertPosition::InSplit(col, tile, SplitAxis::Cross, true));
            &&& are_halves(
                (whole.loc.x, whole.size.w),
                (left.loc.x, left.size.w),
                (right.loc.x, right.size.w),
            )
            &&& (left.loc.y, left.size.h) == (whole.loc.y, whole.size.h)
            &&& (right.loc.y, right.size.h) == (whole.loc.y, whole.size.h)
            &&& are_halves(
                (whole.loc.y, whole.size.h),
                (top.loc.y, top.size.h),
                (bottom.loc.y, bottom.size.h),
            )
            &&& (top.loc.x, top.size.w) == (whole.loc.x, whole.size.w)
            &&& (bottom.loc.x, bottom.size.w) == (whole.loc.x, whole.size.w)
        }),
{
}

/// Whether a span can be cut in the middle without loss: two halves of its length make the whole
/// length, sums of them may be grouped either way, and the view may be taken off before or after.
pub open spec fn is_cut_exactly<N: Scalar>(at: N, length: N, view: N) -> bool {
    let half = length.spec_div(num::<N>(2));
    &&& half + half == length
    &&& (at + half) - view == (at - view) + half
    &&& ((at - view) + half) + half == (at - view) + (half + half)
}

/// Whether two spans make up a third one: of the same length, the second right behind the first,
/// from the start of the whole to its end.
pub open spec fn make_up<N: Scalar>(whole: (N, N), first: (N, N), second: (N, N)) -> bool {
    &&& first.0 == whole.0
    &&& first.1 == second.1
    &&& first.1 + second.1 == whole.1
    &&& second.0 == first.0 + first.1
    &&& second.0 + second.1 == whole.0 + whole.1
}

/// The hints on the two sides of a tile make up the tile, along the axis of the split, and go all
/// the way along the other one. Stated for any number type, turned to the main axis, where the tile
/// can be cut without loss along the main axis, the view taken off, and along the cross axis.
pub proof fn law_split_hints_make_up_the_tile<N: Scalar>(
    space: SpaceView<N>,
    col: usize,
    tile: usize,
)
    requires
        space.wf(),
        col < space.sections.len(),
        tile < space.sections[col as int].tiles().len(),
        is_cut_exactly(
            space.tile_rect(col as int, tile).loc.x,
            space.tile_rect(col as int, tile).size.w,
            space.view_pos(),
        ),
        ({
            let rect = space.tile_rect(col as int, tile);
            let half = rect.size.h.spec_div(num::<N>(2));
            &&& half + half == rect.size.h
            &&& (rect.loc.y + half) + half == rect.loc.y + (half + half)
        }),
    ensures
        ({
            let axis = axis_of(space.layout());
            let hint = |position: InsertPosition|
                axis.spec_rect(space.insert_hint_area(position)->0);
            let whole = hint(InsertPosition::InsertTab(col, tile));
            let left = hint(InsertPosition::InSplit(col, tile, SplitAxis::Main, false));
            let right = hint(InsertPosition::InSplit(col, tile, SplitAxis::Main, true));
            let top = hint(InsertPosition::InSplit(col, tile, SplitAxis::Cross, false));
            let bottom = hint(InsertPosition::InSplit(col, tile, SplitAxis::Cross, true));
            &&& make_up(
                (whole.loc.x, whole.size.w),
                (left.loc.x, left.size.w),
                (right.loc.x, right.size.w),
            )
            &&& (left.loc.y, left.size.h) == (whole.loc.y, whole.size.h)
            &&& (right.loc.y, right.size.h) == (whole.loc.y, whole.size.h)
            &&& make_up(
                (whole.loc.y, whole.size.h),
                (top.loc.y, top.size.h),
                (bottom.loc.y, bottom.size.h),
            )
            &&& (top.loc.x, top.size.w) == (whole.loc.x, whole.size.w)
            &&& (bottom.loc.x, bottom.size.w) == (whole.loc.x, whole.size.w)
        }),
{
}

impl<N: Scalar> Section<N> {
    fn active_height(&self) -> (r: N)
        requires
            self@.wf(),
        ensures
            r == self@.active_height(),
    {
        proof {
            crate::tree_walk::lemma_active_path(self@.root);
        }
        let path = self.root.active_path();
        match self.root.leaf_data(&path) {
            Some(data) => data.size.h,
            None => N::of_int(0),
        }
    }

    /// The row gap that is closest along the cross axis, and where it is.
    fn closest_row(&self, layout: &LayoutOptions<N>, cross: N) -> (r: (usize, N))
        requires
            self@.wf(),
        ensures
            r == self@.closest_row(*layout, cross),
    {
        if self.is_tabbed() {
            let top = self.active_tile_offset(layout).y;
            let bottom = top.add(self.active_height());
            let active: usize = self.root.active_idx();
            if top.sub(cross).abs().le(bottom.sub(cross).abs()) {
                (active, top)
            } else {
                (active + 1, bottom)
            }
        } else {
            proof {
                lemma_section_tiles(self@, *layout);
            }
            let positions = self.leaf_positions(layout);
            let mut tops: Vec<Keyed<N>> = Vec::new();
            let mut i: usize = 0;
            while i < positions.len()
                invariant
                    i <= positions.len(),
                    tops.len() == i,
                    forall|j: int|
                        0 <= j < i ==> tops@[j] == (Keyed {
                            key: positions@[j].y,
                            idx: j as usize,
                        }),
                decreases positions.len() - i,
            {
                tops.push(Keyed { key: positions[i].y, idx: i });
                i = i + 1;
            }
            assert(tops@ =~= self@.tops(*layout));
            let closest = find_closest(&tops, cross);
            (closest, tops[closest].key)
        }
    }

    /// The first leaf that is shown at a position.
    fn leaf_under(
        &self,
        layout: &LayoutOptions<N>,
        section_main: N,
        main: N,
        cross: N,
    ) -> (r: Option<usize>)
        requires
            self@.wf(),
        ensures
            r == self@.leaf_under_upto(
                *layout,
                section_main,
                main,
                cross,
                self@.tiles().len() as int,
            ),
    {
        let positions = self.leaf_positions(layout);
        let visibility = self.root.leaf_visibility();
        proof {
            lemma_visibility_len(self@.root, true);
        }
        let mut found: Option<usize> = None;
        let mut i: usize = 0;
        while i < positions.len()
            invariant
                i <= positions.len(),
                self@.wf(),
                positions@ == self@.leaf_positions(*layout),
                visibility@ == self@.root.visibility(true),
                visibility.len() == positions.len(),
                found == self@.leaf_under_upto(*layout, section_main, main, cross, i as int),
            decreases positions.len() - i,
        {
            if found.is_none() && visibility[i] {
                let pos = positions[i];
                let size = self.leaf_size(i);
                let left = section_main.add(pos.x);
                if pos.y.le(cross) && cross.le(pos.y.add(size.h)) && left.le(main) && main.le(
                    left.add(size.w),
                ) {
                    found = Some(i);
                }
            }
            i = i + 1;
        }
        found
    }

    fn interior_position(
        &self,
        layout: &LayoutOptions<N>,
        col: usize,
        section_main: N,
        main: N,
        cross: N,
        closest_tile: usize,
    ) -> (r: InsertPosition)
        requires
            self@.wf(),
        ensures
            r == self@.interior_position(*layout, col, section_main, main, cross, closest_tile),
    {
        let positions = self.leaf_positions(layout);
        let tile: usize = match self.leaf_under(layout, section_main, main, cross) {
            Some(tile) => tile,
            None => closest_tile,
        };
        if tile < positions.len() {
            let pos = positions[tile];
            let size = self.leaf_size(tile);
            let rel_x = compute_relative(main, section_main.add(pos.x), size.w);
            let rel_y = compute_relative(cross, pos.y, size.h);
            find_region(col, tile, rel_x, rel_y, layout.tiling_drag)
        } else {
            InsertPosition::InSplit(col, tile, SplitAxis::Main, false)
        }
    }
}

impl<N: Scalar> ScrollingSpace<N> {
    /// The gap between sections that is closest.
    fn closest_gap(&self, main: N) -> (r: usize)
        requires
            self@.wf(),
            self@.sections.len() < usize::MAX,
        ensures
            r == self@.closest_gap(main),
            r <= self@.sections.len(),
    {
        let positions = self.section_main_positions();
        let mut starts: Vec<Keyed<N>> = Vec::new();
        let mut i: usize = 0;
        while i < positions.len()
            invariant
                i <= positions.len(),
                starts.len() == i,
                forall|j: int|
                    0 <= j < i ==> starts@[j] == (Keyed { key: positions@[j], idx: j as usize }),
            decreases positions.len() - i,
        {
            starts.push(Keyed { key: positions[i], idx: i });
            i = i + 1;
        }
        assert(starts@ =~= self@.section_starts());
        find_closest(&starts, main)
    }

    /// The section that is at a position, or one past the last.
    fn section_at(&self, main: N) -> (r: usize)
        requires
            self@.wf(),
            self@.sections.len() < usize::MAX,
        ensures
            r == self@.section_at(main),
            r <= self@.sections.len(),
    {
        let positions = self.section_main_positions();
        let mut i: usize = 0;
        while i < positions.len() && positions[i].le(main)
            invariant
                i <= positions.len(),
                positions@.len() == self@.sections.len() + 1,
                forall|j: int| 0 <= j < positions@.len() ==> positions@[j] == self@.section_pos(j),
                self@.started(main, 0) == self@.started(main, i as int),
            decreases positions.len() - i,
        {
            i = i + 1;
        }
        if i > 0 {
            i - 1
        } else {
            0
        }
    }

    fn position_in_section(
        &self,
        col: usize,
        main_raw: N,
        cross_raw: N,
        main: N,
        cross: N,
    ) -> (r: InsertPosition)
        requires
            self@.wf(),
            self@.sections.len() < usize::MAX,
            col < self@.sections.len(),
        ensures
            r == self@.position_in_section(col as int, main_raw, cross_raw, main, cross),
    {
        let layout = self.options.layout;
        let section = &self.sections[col];
        assert(self@.sections[col as int] == section@);
        proof {
            lemma_section_tiles(section@, layout);
        }
        let section_main = self.section_main_pos(col);
        let gap: usize = self.closest_gap(main);
        let (row, row_cross) = section.closest_row(&layout, cross);
        let main_dist = self.section_main_pos(gap).sub(main).abs();
        let cross_dist = row_cross.sub(cross).abs();
        let local = Point { x: main_raw.sub(section_main), y: cross_raw };
        if let Some(target) = section.header_band_target(&layout, local) {
            return InsertPosition::InsertTab(col, target);
        }
        let last: usize = section.tiles_len() - 1;
        let close = section.leaf_size(
            if row < last {
                row
            } else {
                last
            },
        );
        let main_threshold = compute_gap_band(layout.gaps, close.w);
        let cross_threshold = compute_gap_band(layout.gaps, close.h);
        if main_threshold.lt(main_dist) && cross_threshold.lt(cross_dist) {
            section.interior_position(&layout, col, section_main, main_raw, cross_raw, row)
        } else if main_dist.le(cross_dist) {
            InsertPosition::NewSection(gap)
        } else {
            InsertPosition::InSection(col, row)
        }
    }

    /// Where a window lands that is dropped at a position on screen.
    ///
    /// Near a gap it becomes a section or a row of its own. On the header of tabs it becomes a
    /// tab. Inside of a window the region decides: the middle swaps the two or groups them into
    /// tabs, and the edges place the dropped window on their side.
    pub fn insert_position(&self, pos: Point<N>) -> (r: InsertPosition)
        requires
            self@.wf(),
            self@.sections.len() < usize::MAX,
        ensures
            r == self@.insert_position(pos),
    {
        if self.is_empty() {
            return InsertPosition::NewSection(0);
        }
        let pos = AxisMap::new(self.options.layout.main_axis).point_in(pos);
        let main_raw = pos.x.add(self.view_main_pos());
        let cross_raw = pos.y;
        let half_gap = self.options.layout.gaps.div(N::of_int(2));
        let main = main_raw.add(half_gap);
        let cross = cross_raw.add(half_gap);
        if main.lt(N::of_int(0)) {
            return InsertPosition::NewSection(0);
        }
        let col: usize = self.section_at(main);
        if col == self.sections.len() {
            return InsertPosition::NewSection(self.closest_gap(main));
        }
        self.position_in_section(col, main_raw, cross_raw, main, cross)
    }

    fn new_section_hint(&self, col: usize) -> (r: Rectangle<N>)
        requires
            self@.wf(),
            col <= self@.sections.len(),
        ensures
            r == self@.new_section_hint(col as int),
    {
        let gaps = self.options.layout.gaps;
        let area = self.props.working_area;
        let size = Size { w: N::of_int(300), h: area.size.h.sub(gaps.mul(N::of_int(2))) };
        let start = self.section_main_pos(col);
        let x = if col == 0 && !self.is_empty() {
            start.sub(size.w.add(gaps))
        } else if col == 0 || col == self.sections.len() {
            start
        } else {
            start.sub(size.w.div(N::of_int(2))).sub(gaps.div(N::of_int(2)))
        };
        Rectangle { loc: Point { x, y: area.loc.y.add(gaps) }, size }
    }

    fn row_hint(&self, col: usize, row: usize) -> (r: Rectangle<N>)
        requires
            self@.wf(),
            col < self@.sections.len(),
            row <= self@.sections[col as int].tiles().len(),
        ensures
            r == self@.row_hint(col as int, row),
    {
        let layout = self.options.layout;
        let section = &self.sections[col];
        assert(self@.sections[col as int] == section@);
        let short = N::of_int(150);
        let is_tabbed = section.is_tabbed();
        let (height, y) = if is_tabbed {
            let top = section.active_tile_offset(&layout).y;
            let bottom = top.add(section.active_height());
            if row <= section.active_tile_idx() {
                (short, top)
            } else {
                (short, bottom.sub(short))
            }
        } else {
            let top = section.tile_offset(&layout, row).y;
            if row == 0 {
                (short, top)
            } else if row == section.tiles_len() {
                (short, top.sub(layout.gaps).sub(short))
            } else {
                (N::of_int(300), top.sub(layout.gaps.div(N::of_int(2))).sub(short))
            }
        };
        let origin_x = section.tiles_origin(&layout).x;
        let extra = if is_tabbed && section.sizing_mode().is_normal() {
            section.extra_size().w
        } else {
            N::of_int(0)
        };
        Rectangle {
            loc: Point { x: self.section_main_pos(col).add(origin_x), y },
            size: Size { w: self.section_width(col).sub(extra), h: height },
        }
    }

    fn tile_rect(&self, col: usize, tile: usize) -> (r: Rectangle<N>)
        requires
            self@.wf(),
            col < self@.sections.len(),
            tile <= self@.sections[col as int].tiles().len(),
        ensures
            r == self@.tile_rect(col as int, tile),
    {
        let section = &self.sections[col];
        assert(self@.sections[col as int] == section@);
        let offset = section.tile_offset(&self.options.layout, tile);
        Rectangle {
            loc: Point { x: self.section_main_pos(col).add(offset.x), y: offset.y },
            size: section.leaf_size(tile),
        }
    }

    fn split_hint(&self, col: usize, tile: usize, axis: SplitAxis, place_after: bool) -> (r:
        Rectangle<N>)
        requires
            self@.wf(),
            col < self@.sections.len(),
            tile < self@.sections[col as int].tiles().len(),
        ensures
            r == self@.split_hint(col as int, tile, axis, place_after),
    {
        let rect = self.tile_rect(col, tile);
        match axis {
            SplitAxis::Main => {
                let half = rect.size.w.div(N::of_int(2));
                let loc = if place_after {
                    Point { x: rect.loc.x.add(half), y: rect.loc.y }
                } else {
                    rect.loc
                };
                Rectangle { loc, size: Size { w: half, h: rect.size.h } }
            },
            SplitAxis::Cross => {
                let half = rect.size.h.div(N::of_int(2));
                let loc = if place_after {
                    Point { x: rect.loc.x, y: rect.loc.y.add(half) }
                } else {
                    rect.loc
                };
                Rectangle { loc, size: Size { w: rect.size.w, h: half } }
            },
        }
    }

    fn hint_in_space(&self, position: InsertPosition) -> (r: Option<Rectangle<N>>)
        requires
            self@.wf(),
        ensures
            r == self@.hint_in_space(position),
    {
        match position {
            InsertPosition::NewSection(col) => {
                if col <= self.sections.len() {
                    Some(self.new_section_hint(col))
                } else {
                    None
                }
            },
            InsertPosition::InSection(col, row) => {
                if self.has_leaf(col, row, true) {
                    Some(self.row_hint(col, row))
                } else {
                    None
                }
            },
            InsertPosition::InSplit(col, tile, axis, place_after) => {
                if self.has_leaf(col, tile, false) {
                    Some(self.split_hint(col, tile, axis, place_after))
                } else {
                    None
                }
            },
            InsertPosition::InsertTab(col, tile) | InsertPosition::Swap(col, tile) => {
                if self.has_leaf(col, tile, false) {
                    Some(self.tile_rect(col, tile))
                } else {
                    None
                }
            },
            InsertPosition::Floating => None,
        }
    }

    /// Whether there is a leaf, or, where that counts too, one could come after the last.
    fn has_leaf(&self, col: usize, tile: usize, or_past_last: bool) -> (r: bool)
        ensures
            r == (col < self@.sections.len() && (tile < self@.sections[col as int].tiles().len() || (
            or_past_last && tile == self@.sections[col as int].tiles().len()))),
    {
        if col >= self.sections.len() {
            return false;
        }
        assert(self@.sections[col as int] == self.sections@[col as int]@);
        let count: usize = self.sections[col].tiles_len();
        tile < count || (or_past_last && tile == count)
    }

    /// The area of the hint that shows where a dragged window is going to land, on screen. There
    /// is none for what does not exist.
    pub fn insert_hint_area(&self, position: InsertPosition) -> (r: Option<Rectangle<N>>)
        requires
            self@.wf(),
            self@.can_hint(position),
        ensures
            r == self@.insert_hint_area(position),
    {
        let hint = match self.hint_in_space(position) {
            Some(hint) => hint,
            None => {
                return None;
            },
        };
        let zero = N::of_int(0);
        let view_pos = if self.is_empty() {
            if self.is_centering_focused_section() {
                self.compute_new_view_offset_centered(
                    Some(zero),
                    zero,
                    hint.size.w,
                    SizingMode::Normal,
                )
            } else {
                self.compute_new_view_offset_fit(
                    Some(zero),
                    zero,
                    hint.size.w,
                    SizingMode::Normal,
                )
            }
        } else {
            self.view_main_pos()
        };
        let seen = Rectangle {
            loc: Point { x: hint.loc.x.sub(view_pos), y: hint.loc.y },
            size: hint.size,
        };
        Some(AxisMap::new(self.options.layout.main_axis).rect_out(seen))
    }
}

} // verus!
