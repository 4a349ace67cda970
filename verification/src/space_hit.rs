//! What of a space is under a pointer.
use vstd::prelude::*;

use crate::axis::AxisMap;
use crate::config::{LayoutOptions, SizingMode};
use crate::geometry::{Point, Rectangle};
use crate::scalar::Scalar;
use crate::section::{axis_of, lemma_section_tiles, Section, SectionView};
use crate::section_size::work;
use crate::section_state::lemma_header_only;
use crate::section_tabs::{
    in_header_band, is_in_header_band, nested_views, order_active_first, unit_of, NestedTabbedView,
};
use crate::space::{lemma_after_wf, ScrollingSpace, SpaceView};
use crate::space_render::lemma_render_order;
use crate::tab_header::first_hit;
use crate::tile::Tile;
use crate::windows::{keeps_windows, lemma_after_windows};

verus! {

/// Something that may be under the pointer.
#[derive(Clone, Copy, PartialEq, Eq, Debug)]
pub enum HitCandidate<N> {
    /// A tab is under the pointer; a click activates this window.
    Tab { window: u64 },
    /// The tile of a window is shown at a position on screen; the window tells whether the pointer
    /// is on it.
    Tile { window: u64, pos: Point<N> },
}

impl<N: Scalar> SectionView<N> {
    /// The tab of the root whose header is under a point, by the leaf that stands for it.
    pub open spec fn root_tab_under(self, layout: LayoutOptions<N>, local: Point<N>) -> Option<
        usize,
    > {
        if self.root.is_tabbed() {
            match first_hit(self.root.header()->0.rects(), local) {
                Some(idx) => {
                    let children = self.tab_children(layout, Seq::empty());
                    if idx < children.len() {
                        Some(children[idx as int].rep_leaf_idx)
                    } else {
                        Some(0)
                    }
                },
                None => None,
            }
        } else {
            None
        }
    }

    /// The first of the first `upto` nested containers with a tab under a point, by the leaf that
    /// stands for the tab.
    pub open spec fn nested_tab_under(
        self,
        units: Seq<NestedTabbedView<N>>,
        local: Point<N>,
        upto: int,
    ) -> Option<usize>
        decreases upto,
    {
        if upto <= 0 {
            None
        } else {
            match self.nested_tab_under(units, local, upto - 1) {
                Some(leaf) => Some(leaf),
                None => {
                    let unit = units[upto - 1];
                    let header = self.root.node(unit.path).header();
                    if unit.visible && header is Some {
                        match first_hit(header->0.rects(), local) {
                            Some(idx) => if idx < unit.rep_leaf_idx.len() {
                                Some(unit.rep_leaf_idx[idx as int])
                            } else {
                                Some(0)
                            },
                            None => None,
                        }
                    } else {
                        None
                    }
                },
            }
        }
    }

    /// The tab under a point, by the leaf that stands for it. Headers of fullscreen and maximized
    /// sections are not there.
    pub open spec fn tab_under(self, layout: LayoutOptions<N>, local: Point<N>) -> Option<usize> {
        if self.sizing_mode() != SizingMode::Normal {
            None
        } else {
            match self.root_tab_under(layout, local) {
                Some(leaf) => Some(leaf),
                None => {
                    let units = self.nested_tabbed(layout);
                    self.nested_tab_under(units, local, units.len() as int)
                },
            }
        }
    }

    /// Whether a point is on the header of the root.
    pub open spec fn is_on_root_header(self, layout: LayoutOptions<N>, local: Point<N>) -> bool {
        &&& self.root.is_tabbed()
        &&& self.sizing_mode() == SizingMode::Normal
        &&& in_header_band(
            self.tab_indicator_area(layout),
            self.root.header()->0,
            self.root.child_count() as usize,
            self.props.scale,
            local,
        )
    }

    /// The section after the tabs of its root were scrolled.
    pub open spec fn with_scrolled_tabs(self, layout: LayoutOptions<N>, delta: N) -> Self {
        self.with_root(
            self.root.with_header(
                Some(
                    self.root.header()->0.scrolled(delta, self.tab_indicator_area(layout).size.w),
                ),
            ),
        )
    }

    pub open spec fn scrolls_tabs(self, layout: LayoutOptions<N>, delta: N) -> bool {
        self.root.header()->0.scrolls(delta, self.tab_indicator_area(layout).size.w)
    }
}

impl<N: Scalar> SpaceView<N> {
    /// A point on screen as seen from a section.
    pub open spec fn local_point(self, col: int, pos: Point<N>) -> Point<N> {
        axis_of(self.layout()).spec_point(pos) - self.section_view_pos(col).rounded(
            self.props.scale,
        )
    }

    /// Where a tile is on screen when it is hit.
    pub open spec fn tile_hit_pos(self, col: int, tile: Tile<N>, tile_off: Point<N>) -> Point<N> {
        axis_of(self.layout()).spec_point(
            self.tile_view_pos(col, tile, tile_off).rounded(self.props.scale),
        )
    }

    /// The tiles that are shown among the first `upto` of a section.
    pub open spec fn shown_upto(self, col: int, upto: int) -> Seq<HitCandidate<N>>
        decreases upto,
    {
        if upto <= 0 {
            Seq::empty()
        } else {
            let before = self.shown_upto(col, upto - 1);
            let (tile, tile_off, visible) = self.sections[col].render_tiles(
                self.layout(),
            )[upto - 1];
            if visible {
                before.push(
                    HitCandidate::Tile {
                        window: tile.id,
                        pos: self.tile_hit_pos(col, tile, tile_off),
                    },
                )
            } else {
                before
            }
        }
    }

    /// What of a section may be under a point: the tab that is there, or else the shown tiles.
    pub open spec fn section_candidates(self, col: int, pos: Point<N>) -> Seq<HitCandidate<N>> {
        let section = self.sections[col];
        match section.tab_under(self.layout(), self.local_point(col, pos)) {
            Some(leaf) => seq![HitCandidate::Tab { window: section.tiles()[leaf as int].id }],
            None => self.shown_upto(col, section.render_tiles(self.layout()).len() as int),
        }
    }

    /// What of the sections drawn first may be under a point, up to the first tab.
    pub open spec fn candidates_upto(self, pos: Point<N>, upto: int) -> Seq<HitCandidate<N>>
        decreases upto,
    {
        if upto <= 0 {
            Seq::empty()
        } else {
            let before = self.candidates_upto(pos, upto - 1);
            if before.len() > 0 && before.last() is Tab {
                before
            } else {
                before + self.section_candidates(self.render_order()[upto - 1] as int, pos)
            }
        }
    }

    /// What may be under a point, topmost first.
    pub open spec fn candidates(self, pos: Point<N>) -> Seq<HitCandidate<N>> {
        self.candidates_upto(pos, self.render_order().len() as int)
    }

    /// The first of the first `upto` sections whose header is under a point.
    pub open spec fn header_under_upto(self, pos: Point<N>, upto: int) -> Option<usize>
        decreases upto,
    {
        if upto <= 0 {
            None
        } else {
            match self.header_under_upto(pos, upto - 1) {
                Some(col) => Some(col),
                None => if self.sections[upto - 1].is_on_root_header(
                    self.layout(),
                    self.local_point(upto - 1, pos),
                ) {
                    Some((upto - 1) as usize)
                } else {
                    None
                },
            }
        }
    }

    /// The section whose header is under a point.
    pub open spec fn header_under(self, pos: Point<N>) -> Option<usize> {
        self.header_under_upto(pos, self.sections.len() as int)
    }

    /// The view as it is on screen, at the origin.
    pub open spec fn screen_rect(self) -> Rectangle<N> {
        Rectangle {
            loc: Point::spec_zero(),
            size: axis_of(self.layout()).spec_size(self.props.view_size),
        }
    }

    /// The space after the tabs of a section were scrolled and laid out anew.
    pub open spec fn with_scrolled_tabs(self, col: int, delta: N) -> Self {
        let scrolled = work(
            self.sections[col].with_scrolled_tabs(self.layout(), delta),
            self.out,
        );
        self.after(
            col,
            scrolled.update_render_elements(
                self.layout(),
                col == self.props.active_section_idx,
                self.screen_rect(),
            ),
        )
    }
}

/// Whether a candidate is what the pointer is on, given what its window says.
pub open spec fn is_hit<N>(candidate: HitCandidate<N>, on_tile: bool) -> bool {
    candidate is Tab || on_tile
}

/// The first candidate that the pointer is on, given what each of the windows says.
pub fn pick_hit<N>(candidates: &Vec<HitCandidate<N>>, on_tile: &Vec<bool>) -> (r: Option<usize>)
    requires
        candidates@.len() == on_tile@.len(),
    ensures
        match r {
            Some(i) => {
                &&& i < candidates@.len()
                &&& is_hit(candidates@[i as int], on_tile@[i as int])
                &&& forall|j: int|
                    0 <= j < i ==> !is_hit(#[trigger] candidates@[j], on_tile@[j])
            },
            None => forall|j: int|
                0 <= j < candidates@.len() ==> !is_hit(#[trigger] candidates@[j], on_tile@[j]),
        },
{
    let mut i: usize = 0;
    while i < candidates.len()
        invariant
            i <= candidates.len(),
            candidates@.len() == on_tile@.len(),
            forall|j: int| 0 <= j < i ==> !is_hit(#[trigger] candidates@[j], on_tile@[j]),
        decreases candidates.len() - i,
    {
        if matches!(&candidates[i], HitCandidate::Tab { .. }) || on_tile[i] {
            return Some(i);
        }
        i = i + 1;
    }
    None
}

impl<N: Scalar> Section<N> {
    fn root_tab_under(&self, layout: &LayoutOptions<N>, local: Point<N>) -> (r: Option<usize>)
        requires
            self@.wf(),
        ensures
            r == self@.root_tab_under(*layout, local),
            r matches Some(leaf) ==> leaf < self@.tiles().len(),
    {
        proof {
            lemma_section_tiles(self@, *layout);
        }
        if !self.is_tabbed() {
            return None;
        }
        match self.root.tab_header() {
            Some(header) => match header.hit(local) {
                Some(idx) => {
                    let top: Vec<usize> = Vec::new();
                    assert(top@ =~= Seq::empty());
                    let children = self.tab_children(layout, &top);
                    if idx < children.len() {
                        Some(children[idx].rep_leaf_idx)
                    } else {
                        Some(0)
                    }
                },
                None => None,
            },
            None => None,
        }
    }

    /// The tab under a point, by the leaf that stands for it.
    pub fn tab_under(&self, layout: &LayoutOptions<N>, local: Point<N>) -> (r: Option<usize>)
        requires
            self@.wf(),
        ensures
            r == self@.tab_under(*layout, local),
            r matches Some(leaf) ==> leaf < self@.tiles().len(),
    {
        if !self.sizing_mode().is_normal() {
            return None;
        }
        if let Some(leaf) = self.root_tab_under(layout, local) {
            return Some(leaf);
        }
        proof {
            lemma_section_tiles(self@, *layout);
        }
        let units = self.collect_nested_tabbed(layout);
        let ghost views = self@.nested_tabbed(*layout);
        assert(views.len() == units@.len());
        let mut found: Option<usize> = None;
        let mut i: usize = 0;
        while i < units.len()
            invariant
                i <= units.len(),
                self@.wf(),
                0 < self@.tiles().len(),
                views == nested_views(units@),
                forall|j: int| 0 <= j < units@.len() ==> unit_of(self@, (#[trigger] units@[j])@),
                found == self@.nested_tab_under(views, local, i as int),
                found matches Some(leaf) ==> leaf < self@.tiles().len(),
            decreases units.len() - i,
        {
            let unit = &units[i];
            assert(views[i as int] == units@[i as int]@);
            assert(unit_of(self@, units@[i as int]@));
            if found.is_none() && unit.visible {
                if let Some(header) = self.root.node_at(&unit.path).tab_header() {
                    if let Some(idx) = header.hit(local) {
                        found = if idx < unit.rep_leaf_idx.len() {
                            assert(unit@.rep_leaf_idx[idx as int] < self@.tiles().len());
                            Some(unit.rep_leaf_idx[idx])
                        } else {
                            Some(0)
                        };
                    }
                }
            }
            i = i + 1;
        }
        found
    }

    /// Whether a point is on the header of the root.
    pub fn is_on_root_header(&self, layout: &LayoutOptions<N>, local: Point<N>) -> (r: bool)
        requires
            self@.wf(),
        ensures
            r == self@.is_on_root_header(*layout, local),
    {
        if !self.is_tabbed() || !self.sizing_mode().is_normal() {
            return false;
        }
        match self.root.tab_header() {
            Some(header) => is_in_header_band(
                self.tab_indicator_area(layout),
                header,
                self.root.child_count(),
                self.props.scale,
                local,
            ),
            None => false,
        }
    }

    /// Scrolls the tabs of the root. Tells whether they moved.
    pub fn scroll_tabs(&mut self, layout: &LayoutOptions<N>, delta: N) -> (r: bool)
        requires
            old(self)@.wf(),
            old(self)@.root.header() is Some,
        ensures
            r == old(self)@.scrolls_tabs(*layout, delta),
            final(self)@ == old(self)@.with_scrolled_tabs(*layout, delta),
            final(self)@.wf(),
            final(self)@.place() == old(self)@.place(),
            final(self)@.tiles() == old(self)@.tiles(),
    {
        let ghost before = self@;
        let area_width = self.tab_indicator_area(layout).size.w;
        match self.root.take_header() {
            Some(header) => {
                let mut header = header;
                proof {
                    lemma_header_only(before.root, Some(header@.scrolled(delta, area_width)));
                }
                let scrolled = header.scroll(delta, area_width);
                self.root.set_header(Some(header));
                scrolled
            },
            None => false,
        }
    }
}

/// Scrolling that moves nothing leaves a section as it was.
proof fn lemma_unmoved_tabs<N: Scalar>(
    section: SectionView<N>,
    layout: LayoutOptions<N>,
    delta: N,
)
    requires
        section.wf(),
        section.root.header() is Some,
        !section.scrolls_tabs(layout, delta),
    ensures
        section.with_scrolled_tabs(layout, delta) == section,
{
}

impl<N: Scalar> ScrollingSpace<N> {
    fn local_point(&self, col: usize, pos: Point<N>) -> (r: Point<N>)
        requires
            self@.wf(),
            col < self@.sections.len(),
        ensures
            r == self@.local_point(col as int, pos),
    {
        let axis = AxisMap::new(self.options.layout.main_axis);
        let section_pos = self.section_view_pos(col).round_in_physical(self.props.scale);
        axis.point_in(pos).sub(section_pos)
    }

    fn shown_tiles(&self, col: usize) -> (r: Vec<HitCandidate<N>>)
        requires
            self@.wf(),
            col < self@.sections.len(),
        ensures
            r@ == self@.shown_upto(
                col as int,
                self@.sections[col as int].render_tiles(self@.layout()).len() as int,
            ),
            forall|i: int| 0 <= i < r@.len() ==> #[trigger] r@[i] is Tile,
    {
        let axis = AxisMap::new(self.options.layout.main_axis);
        let section_pos = self.section_view_pos(col);
        assert(self@.sections[col as int] == self.sections@[col as int]@);
        assert(self@.sections[col as int].wf());
        let tiles = self.sections[col].tiles_in_render_order(&self.options.layout);
        let mut out: Vec<HitCandidate<N>> = Vec::new();
        let mut i: usize = 0;
        while i < tiles.len()
            invariant
                i <= tiles.len(),
                axis == axis_of(self@.layout()),
                section_pos == self@.section_view_pos(col as int),
                tiles@ == self@.sections[col as int].render_tiles(self@.layout()),
                out@ == self@.shown_upto(col as int, i as int),
                forall|j: int| 0 <= j < out@.len() ==> #[trigger] out@[j] is Tile,
            decreases tiles.len() - i,
        {
            let (tile, tile_off, visible) = tiles[i];
            if visible {
                let pos = section_pos.add(tile_off).add(tile.render_offset);
                let pos = axis.point_out(pos.round_in_physical(self.props.scale));
                out.push(HitCandidate::Tile { window: tile.id, pos });
            }
            i = i + 1;
        }
        out
    }

    /// What may be under a point, topmost first: the shown tiles, up to a tab that the point is
    /// on. A tab hides whatever is below it.
    pub fn window_under(&self, pos: Point<N>) -> (r: Vec<HitCandidate<N>>)
        requires
            self@.wf(),
        ensures
            r@ == self@.candidates(pos),
    {
        let order = order_active_first(self.props.active_section_idx, self.sections.len());
        proof {
            lemma_render_order(self@);
        }
        let mut all: Vec<HitCandidate<N>> = Vec::new();
        let mut found_tab = false;
        let mut k: usize = 0;
        while k < order.len()
            invariant
                k <= order.len(),
                self@.wf(),
                order@ == self@.render_order(),
                forall|i: int|
                    0 <= i < order@.len() ==> (#[trigger] order@[i]) < self@.sections.len(),
                all@ == self@.candidates_upto(pos, k as int),
                found_tab == (all@.len() > 0 && all@.last() is Tab),
            decreases order.len() - k,
        {
            if !found_tab {
                let col: usize = order[k];
                assert(self@.sections[col as int] == self.sections@[col as int]@);
                assert(self@.sections[col as int].wf());
                let local = self.local_point(col, pos);
                match self.sections[col].tab_under(&self.options.layout, local) {
                    Some(leaf) => {
                        let ghost before = all@;
                        let window = self.sections[col].tile(leaf).id;
                        all.push(HitCandidate::Tab { window });
                        found_tab = true;
                        assert(all@ =~= before + seq![HitCandidate::<N>::Tab { window }]);
                    },
                    None => {
                        let mut shown = self.shown_tiles(col);
                        let ghost before = all@;
                        let ghost added = shown@;
                        all.append(&mut shown);
                        assert(all@ =~= before + added);
                        assert(added.len() > 0 ==> all@.last() == added.last());
                        assert(added.len() == 0 ==> all@ =~= before);
                    },
                }
            }
            k = k + 1;
        }
        all
    }

    /// The section whose header is under a point.
    pub fn header_under(&self, pos: Point<N>) -> (r: Option<usize>)
        requires
            self@.wf(),
        ensures
            r == self@.header_under(pos),
            r matches Some(col) ==> col < self@.sections.len()
                && self@.sections[col as int].is_on_root_header(
                self@.layout(),
                self@.local_point(col as int, pos),
            ),
    {
        let mut col: usize = 0;
        let mut found: Option<usize> = None;
        while col < self.sections.len()
            invariant
                col <= self.sections.len(),
                self@.wf(),
                found == self@.header_under_upto(pos, col as int),
                found matches Some(at) ==> at < self@.sections.len()
                    && self@.sections[at as int].is_on_root_header(
                    self@.layout(),
                    self@.local_point(at as int, pos),
                ),
            decreases self.sections.len() - col,
        {
            assert(self@.sections[col as int] == self.sections@[col as int]@);
            assert(self@.sections[col as int].wf());
            if found.is_none() {
                let local = self.local_point(col, pos);
                if self.sections[col].is_on_root_header(&self.options.layout, local) {
                    found = Some(col);
                }
            }
            col = col + 1;
        }
        found
    }

    /// Scrolls the tab bar under the given pointer position, if any. Tells whether a tab bar was
    /// scrolled.
    pub fn scroll_tab_bar(&mut self, pos: Point<N>, delta: N) -> (r: bool)
        requires
            old(self)@.wf(),
        ensures
            r == (old(self)@.header_under(pos) matches Some(col)
                && old(self)@.sections[col as int].scrolls_tabs(old(self)@.layout(), delta)),
            final(self)@ == if r {
                old(self)@.with_scrolled_tabs(old(self)@.header_under(pos)->0 as int, delta)
            } else {
                old(self)@
            },
            final(self)@.wf(),
            keeps_windows(old(self)@, final(self)@),
    {
        let ghost before = self@;
        let col: usize = match self.header_under(pos) {
            Some(col) => col,
            None => {
                return false;
            },
        };
        assert(before.sections[col as int] == self.sections@[col as int]@);
        assert(before.sections[col as int].wf());
        let axis = AxisMap::new(self.options.layout.main_axis);
        let screen = Rectangle::new(Point::zero(), axis.size_out(self.props.view_size));
        let is_active = col == self.props.active_section_idx;
        let scrolled = self.sections[col].scroll_tabs(&self.options.layout, delta);
        if !scrolled {
            proof {
                lemma_unmoved_tabs(before.sections[col as int], before.layout(), delta);
                assert(self@.sections =~= before.sections);
            }
            return false;
        }
        self.sections[col].update_render_elements(
            &self.options.layout,
            is_active,
            screen,
            &mut self.outbox,
        );
        proof {
            let done = work(
                before.sections[col as int].with_scrolled_tabs(before.layout(), delta),
                before.out,
            ).update_render_elements(before.layout(), is_active, before.screen_rect());
            assert(self@ == before.after(col as int, done));
            lemma_after_windows(before, col as int, done);
            lemma_after_wf(before, col as int, done);
        }
        true
    }
}

} // verus!
