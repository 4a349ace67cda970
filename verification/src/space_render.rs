//! Where everything of a space is seen, in which order it is drawn, and what is under a pointer.
use vstd::prelude::*;

use crate::axis::AxisMap;
use crate::config::SizingMode;
use crate::geometry::{Point, Rectangle, Size};
use crate::scalar::{num, Scalar};
use crate::section::{axis_of, lemma_section_tiles, main_space_vec, main_vec};
use crate::section_tabs::{active_first, law_render_order_is_a_permutation, order_active_first};
use crate::space::{ScrollingSpace, SpaceView};
use crate::tile::Tile;
use crate::tile_node::{path_views, Tree};

verus! {

/// Where a tile is in the layout, as told to others.
pub struct TilePlacement<N> {
    pub tile: Tile<N>,
    /// Position in the view, on screen.
    pub pos: Point<N>,
    /// Number of the section, from one.
    pub section: usize,
    /// Path from the root of the section to the tile, children counted from one. For a flat
    /// section this is a single number.
    pub path: Vec<usize>,
}

/// What a [`TilePlacement`] holds.
#[verifier::ext_equal]
pub ghost struct TilePlacementView<N> {
    pub tile: Tile<N>,
    pub pos: Point<N>,
    pub section: int,
    pub path: Seq<int>,
}

impl<N> TilePlacement<N> {
    pub open spec fn view(&self) -> TilePlacementView<N> {
        TilePlacementView {
            tile: self.tile,
            pos: self.pos,
            section: self.section as int,
            path: Seq::new(self.path@.len(), |i: int| self.path@[i] as int),
        }
    }
}

pub open spec fn placement_views<N>(all: Seq<TilePlacement<N>>) -> Seq<TilePlacementView<N>> {
    Seq::new(all.len(), |i: int| all[i]@)
}

/// A path with children counted from one.
pub open spec fn counted_from_one(path: Seq<usize>) -> Seq<int> {
    Seq::new(path.len(), |i: int| path[i] + 1)
}

impl<N: Scalar> SpaceView<N> {
    /// The order in which sections are drawn: the active one first, on top of all others.
    pub open spec fn render_order(self) -> Seq<usize> {
        active_first(self.props.active_section_idx, self.sections.len() as int)
    }

    /// Where a section is in the view, turned to the main axis.
    pub open spec fn section_view_pos(self, col: int) -> Point<N> {
        main_vec(self.view_pos().spec_neg()) + main_vec(self.section_pos(col))
            + self.sections[col].render_offset()
    }

    /// Where a tile of a section is in the view, turned to the main axis.
    pub open spec fn tile_view_pos(self, col: int, tile: Tile<N>, tile_off: Point<N>) -> Point<N> {
        self.section_view_pos(col) + tile_off + tile.render_offset
    }

    /// Where a tile of a section is on screen.
    pub open spec fn tile_screen_pos(
        self,
        col: int,
        tile: Tile<N>,
        tile_off: Point<N>,
        round: bool,
    ) -> Point<N> {
        let pos = axis_of(self.layout()).spec_point(self.tile_view_pos(col, tile, tile_off));
        if round {
            pos.rounded(self.props.scale)
        } else {
            pos
        }
    }

    /// The tiles of a section in the order they are drawn, where they are on screen, and whether
    /// they are shown.
    pub open spec fn placed_tiles(self, col: int, round: bool) -> Seq<(Tile<N>, Point<N>, bool)> {
        let tiles = self.sections[col].render_tiles(self.layout());
        Seq::new(
            tiles.len(),
            |i: int|
                (
                    tiles[i].0,
                    self.tile_screen_pos(col, tiles[i].0, tiles[i].1, round),
                    tiles[i].2,
                ),
        )
    }

    /// The tiles of the sections that are drawn first.
    pub open spec fn placed_upto(self, upto: int, round: bool) -> Seq<(Tile<N>, Point<N>, bool)>
        decreases upto,
    {
        if upto <= 0 {
            Seq::empty()
        } else {
            self.placed_upto(upto - 1, round) + self.placed_tiles(
                self.render_order()[upto - 1] as int,
                round,
            )
        }
    }

    /// All tiles in the order they are drawn.
    pub open spec fn all_placed(self, round: bool) -> Seq<(Tile<N>, Point<N>, bool)> {
        self.placed_upto(self.render_order().len() as int, round)
    }

    /// Where the tile `i` of a section is in the layout.
    pub open spec fn placement(self, col: int, i: int) -> TilePlacementView<N> {
        let section = self.sections[col];
        let pos = main_vec(self.view_pos().spec_neg()) + main_vec(self.section_pos(col))
            + section.leaf_positions(self.layout())[i];
        TilePlacementView {
            tile: section.tiles()[i],
            pos: axis_of(self.layout()).spec_point(pos).rounded(self.props.scale),
            section: col + 1,
            path: counted_from_one(section.root.leaf_paths()[i]),
        }
    }

    /// Where the tiles of the first `upto` sections are in the layout.
    pub open spec fn placements_upto(self, upto: int) -> Seq<TilePlacementView<N>>
        decreases upto,
    {
        if upto <= 0 {
            Seq::empty()
        } else {
            self.placements_upto(upto - 1) + Seq::new(
                self.sections[upto - 1].tiles().len(),
                |i: int| self.placement(upto - 1, i),
            )
        }
    }

    /// The geometry of the active window relative to and clamped to the view, where the view is
    /// going to stand.
    pub open spec fn active_window_rect(self) -> Option<Rectangle<N>> {
        let axis = axis_of(self.layout());
        let section = self.active();
        let active = section.active_leaf_idx() as int;
        let tile = section.tiles()[active];
        let view = Rectangle { loc: Point::spec_zero(), size: self.props.view_size };
        let window = Rectangle {
            loc: main_vec(self.props.view_offset.spec_target().spec_neg())
                + section.leaf_positions(self.layout())[active] + axis.spec_point(tile.window_loc),
            size: axis.spec_size(tile.window_size),
        };
        match view.spec_intersection(window) {
            Some(rect) => Some(axis.spec_rect(rect)),
            None => None,
        }
    }

    /// Where popups of the window `i` of a section should stay: within the window along the first
    /// axis, and within the whole parent area along the second.
    pub open spec fn popup_rect(self, col: int, i: int) -> Rectangle<N> {
        let axis = axis_of(self.layout());
        let tile = self.sections[col].tiles()[i];
        let pos = self.sections[col].leaf_positions(self.layout())[i];
        axis.spec_rect(
            Rectangle {
                loc: Point {
                    x: num::<N>(0),
                    y: num::<N>(0) + self.props.parent_area.loc.y - pos.y - axis.spec_point(
                        tile.window_loc,
                    ).y,
                },
                size: Size {
                    w: axis.spec_size(tile.window_size).w,
                    h: self.props.parent_area.size.h,
                },
            },
        )
    }

    /// Whether the space covers what is otherwise on top: the view stands still on a fullscreen
    /// section.
    pub open spec fn renders_above_top_layer(self) -> bool {
        &&& self.sections.len() > 0
        &&& self.props.view_offset is Static
        &&& self.active().sizing_mode() == SizingMode::Fullscreen
    }
}

/// Order of drawing in range.
pub proof fn lemma_render_order<N: Scalar>(space: SpaceView<N>)
    requires
        space.wf(),
    ensures
        space.render_order().len() == space.sections.len(),
        forall|i: int|
            0 <= i < space.render_order().len() ==> (#[trigger] space.render_order()[i])
                < space.sections.len(),
{
    let count = space.sections.len() as int;
    let active = space.props.active_section_idx;
    if count > 0 {
        law_render_order_is_a_permutation(active, count);
        let order = space.render_order();
        assert forall|i: int| 0 <= i < order.len() implies (#[trigger] order[i]) < count by {
            lemma_order_in_range(active, count);
        }
    }
}

/// Every index in the order of drawing is one of those that are drawn.
pub proof fn lemma_order_in_range(active: usize, count: int)
    requires
        0 <= count <= usize::MAX,
    ensures
        forall|i: int|
            0 <= i < active_first(active, count).len() ==> (#[trigger] active_first(
                active,
                count,
            )[i]) < count,
    decreases count,
{
    if count > 0 {
        lemma_order_in_range(active, count - 1);
        let order = active_first(active, count);
        let before = active_first(active, count - 1);
        assert forall|i: int| 0 <= i < order.len() implies (#[trigger] order[i]) < count by {
            let head: int = if active < count {
                1
            } else {
                0
            };
            let head_before: int = if active < count - 1 {
                1
            } else {
                0
            };
            if i >= head && i - head + head_before < before.len() {
                assert(order[i] == before[i - head + head_before]);
            }
        }
    }
}

impl<N: Scalar> ScrollingSpace<N> {
    /// Where a section is in the view, turned to the main axis.
    pub fn section_view_pos(&self, col: usize) -> (r: Point<N>)
        requires
            self@.wf(),
            col < self@.sections.len(),
        ensures
            r == self@.section_view_pos(col as int),
    {
        let view_off = main_space_vec(self.view_main_pos().neg());
        let section_offset = main_space_vec(self.section_main_pos(col));
        assert(self@.sections[col as int] == self.sections@[col as int]@);
        view_off.add(section_offset).add(self.sections[col].render_offset())
    }

    pub fn placed_tiles(&self, col: usize, round: bool) -> (r: Vec<(Tile<N>, Point<N>, bool)>)
        requires
            self@.wf(),
            col < self@.sections.len(),
        ensures
            r@ == self@.placed_tiles(col as int, round),
    {
        let axis = AxisMap::new(self.options.layout.main_axis);
        let section_pos = self.section_view_pos(col);
        assert(self@.sections[col as int] == self.sections@[col as int]@);
        assert(self@.sections[col as int].wf());
        let tiles = self.sections[col].tiles_in_render_order(&self.options.layout);
        let ghost expected = self@.placed_tiles(col as int, round);
        let mut out: Vec<(Tile<N>, Point<N>, bool)> = Vec::new();
        let mut i: usize = 0;
        while i < tiles.len()
            invariant
                i <= tiles.len(),
                axis == axis_of(self@.layout()),
                section_pos == self@.section_view_pos(col as int),
                tiles@ == self@.sections[col as int].render_tiles(self@.layout()),
                expected == self@.placed_tiles(col as int, round),
                out.len() == i,
                forall|j: int| 0 <= j < i ==> out@[j] == expected[j],
            decreases tiles.len() - i,
        {
            let (tile, tile_off, visible) = tiles[i];
            let pos = axis.point_out(section_pos.add(tile_off).add(tile.render_offset));
            let pos = if round {
                pos.round_in_physical(self.props.scale)
            } else {
                pos
            };
            out.push((tile, pos, visible));
            i = i + 1;
        }
        assert(out@ =~= expected);
        out
    }

    fn all_placed(&self, round: bool) -> (r: Vec<(Tile<N>, Point<N>, bool)>)
        requires
            self@.wf(),
        ensures
            r@ == self@.all_placed(round),
    {
        let order = order_active_first(self.props.active_section_idx, self.sections.len());
        proof {
            lemma_render_order(self@);
        }
        let mut all: Vec<(Tile<N>, Point<N>, bool)> = Vec::new();
        let mut k: usize = 0;
        while k < order.len()
            invariant
                k <= order.len(),
                self@.wf(),
                order@ == self@.render_order(),
                forall|i: int|
                    0 <= i < order@.len() ==> (#[trigger] order@[i]) < self@.sections.len(),
                all@ == self@.placed_upto(k as int, round),
            decreases order.len() - k,
        {
            let mut own = self.placed_tiles(order[k], round);
            all.append(&mut own);
            k = k + 1;
        }
        all
    }

    /// All tiles in the order they are drawn, where they are on screen, and whether they are
    /// shown.
    pub fn tiles_with_render_positions(&self) -> (r: Vec<(Tile<N>, Point<N>, bool)>)
        requires
            self@.wf(),
        ensures
            r@ == self@.all_placed(true),
    {
        self.all_placed(true)
    }

    /// All tiles in the order they are drawn and where they are on screen, rounded to physical
    /// pixels or not.
    pub fn tiles_with_render_positions_mut(&self, round: bool) -> (r: Vec<(Tile<N>, Point<N>)>)
        requires
            self@.wf(),
        ensures
            r@ == Seq::new(
                self@.all_placed(round).len(),
                |i: int| (self@.all_placed(round)[i].0, self@.all_placed(round)[i].1),
            ),
    {
        let placed = self.all_placed(round);
        let ghost all = self@.all_placed(round);
        let mut out: Vec<(Tile<N>, Point<N>)> = Vec::new();
        let mut i: usize = 0;
        while i < placed.len()
            invariant
                i <= placed.len(),
                placed@ == all,
                out.len() == i,
                forall|j: int| 0 <= j < i ==> out@[j] == (all[j].0, all[j].1),
            decreases placed.len() - i,
        {
            let (tile, pos, _) = placed[i];
            out.push((tile, pos));
            i = i + 1;
        }
        assert(out@ =~= Seq::new(all.len(), |j: int| (all[j].0, all[j].1)));
        out
    }

    fn placements_of(&self, col: usize) -> (r: Vec<TilePlacement<N>>)
        requires
            self@.wf(),
            col < self@.sections.len(),
        ensures
            placement_views(r@) == Seq::new(
                self@.sections[col as int].tiles().len(),
                |i: int| self@.placement(col as int, i),
            ),
    {
        let axis = AxisMap::new(self.options.layout.main_axis);
        let view_off = main_space_vec(self.view_main_pos().neg());
        let section_offset = main_space_vec(self.section_main_pos(col));
        let ghost section = self@.sections[col as int];
        assert(section == self.sections@[col as int]@);
        assert(section.wf());
        let tiles = self.sections[col].tiles();
        let positions = self.sections[col].leaf_positions(&self.options.layout);
        let paths = self.sections[col].root.leaf_paths();
        proof {
            lemma_section_tiles(section, self@.layout());
            assert(path_views(paths@).len() == paths@.len());
        }
        let mut out: Vec<TilePlacement<N>> = Vec::new();
        let mut i: usize = 0;
        assert(placement_views(out@) =~= Seq::empty());
        while i < tiles.len()
            invariant
                i <= tiles.len(),
                self@.wf(),
                col < self@.sections.len(),
                axis == axis_of(self@.layout()),
                view_off == main_vec(self@.view_pos().spec_neg()),
                section_offset == main_vec(self@.section_pos(col as int)),
                section == self@.sections[col as int],
                section.wf(),
                tiles@ == section.tiles(),
                positions@ == section.leaf_positions(self@.layout()),
                positions.len() == tiles.len(),
                paths.len() == tiles.len(),
                path_views(paths@) == section.root.leaf_paths(),
                out.len() == i,
                forall|j: int| 0 <= j < i ==> (#[trigger] out@[j])@ == self@.placement(
                    col as int,
                    j,
                ),
            decreases tiles.len() - i,
        {
            let pos = view_off.add(section_offset).add(positions[i]);
            let pos = axis.point_out(pos).round_in_physical(self.props.scale);
            assert(path_views(paths@)[i as int] == paths@[i as int]@);
            proof {
                lemma_section_tiles(section, self@.layout());
                lemma_path_is_countable(section.root, paths@[i as int]@);
            }
            let path = count_from_one(&paths[i]);
            let placement = TilePlacement { tile: tiles[i], pos, section: col + 1, path };
            assert(placement@.path =~= counted_from_one(paths@[i as int]@));
            out.push(placement);
            i = i + 1;
        }
        assert(placement_views(out@) =~= Seq::new(
            section.tiles().len(),
            |j: int| self@.placement(col as int, j),
        ));
        out
    }

    /// All tiles and where they are in the layout, section by section.
    pub fn tiles_with_ipc_layouts(&self) -> (r: Vec<TilePlacement<N>>)
        requires
            self@.wf(),
        ensures
            placement_views(r@) == self@.placements_upto(self@.sections.len() as int),
    {
        let mut all: Vec<TilePlacement<N>> = Vec::new();
        let mut col: usize = 0;
        assert(placement_views(all@) =~= Seq::empty());
        while col < self.sections.len()
            invariant
                col <= self.sections.len(),
                self@.wf(),
                placement_views(all@) == self@.placements_upto(col as int),
            decreases self.sections.len() - col,
        {
            let mut own = self.placements_of(col);
            let ghost before = all@;
            let ghost added = own@;
            all.append(&mut own);
            assert(placement_views(all@) =~= placement_views(before) + placement_views(added));
            col = col + 1;
        }
        all
    }

    /// The geometry of the active window relative to and clamped to the view.
    ///
    /// During animations, assumes the final view position.
    pub fn active_window_visual_rectangle(&self) -> (r: Option<Rectangle<N>>)
        requires
            self@.wf(),
        ensures
            r == if self@.sections.len() == 0 {
                None
            } else {
                self@.active_window_rect()
            },
    {
        if self.is_empty() {
            return None;
        }
        let idx: usize = self.props.active_section_idx;
        assert(self@.sections[idx as int] == self.sections@[idx as int]@);
        assert(self@.sections[idx as int].wf());
        proof {
            lemma_section_tiles(self@.active(), self@.layout());
        }
        let section = &self.sections[idx];
        let axis = AxisMap::new(self.options.layout.main_axis);
        let view_off = main_space_vec(self.props.view_offset.target().neg());
        let positions = section.leaf_positions(&self.options.layout);
        let active: usize = section.active_leaf_idx();
        let tile = section.tile(active);
        let window_pos = view_off.add(positions[active]).add(axis.point_in(tile.window_loc));
        let window = Rectangle::new(window_pos, axis.size_in(tile.window_size));
        let view = Rectangle::new(Point::zero(), self.props.view_size);
        match view.intersection(window) {
            Some(rect) => Some(axis.rect_out(rect)),
            None => None,
        }
    }

    /// Where popups of a window should stay.
    ///
    /// Popups are positioned within the window geometry along the first axis, so that they remain
    /// visible even where the window is flush with the edge of the screen, and within the whole
    /// parent area along the other.
    pub fn popup_target_rect(&self, window: u64) -> (r: Option<Rectangle<N>>)
        requires
            self@.wf(),
        ensures
            r == match self@.section_of(window) {
                Some(col) => Some(
                    self@.popup_rect(
                        col as int,
                        self@.sections[col as int].position(window)->0 as int,
                    ),
                ),
                None => None,
            },
    {
        match self.section_of(window) {
            Some(col) => {
                assert(self@.sections[col as int] == self.sections@[col as int]@);
                assert(self@.sections[col as int].wf());
                proof {
                    lemma_section_tiles(self@.sections[col as int], self@.layout());
                }
                let section = &self.sections[col];
                let idx: usize = match section.position(window) {
                    Some(idx) => idx,
                    None => 0,
                };
                let axis = AxisMap::new(self.options.layout.main_axis);
                let tile = section.tile(idx);
                let pos = section.leaf_positions(&self.options.layout)[idx];
                let window_size = axis.size_out(tile.window_size);
                let window_loc = axis.point_out(tile.window_loc);
                let zero = N::of_int(0);
                let y = zero.add(self.props.parent_area.loc.y).sub(pos.y).sub(window_loc.y);
                let target = Rectangle::new(
                    Point { x: zero, y },
                    Size { w: window_size.w, h: self.props.parent_area.size.h },
                );
                Some(axis.rect_out(target))
            },
            None => None,
        }
    }

    /// Whether the space is drawn above the top layer: on a fullscreen window, while the view is
    /// stationary.
    pub fn render_above_top_layer(&self) -> (r: bool)
        requires
            self@.wf(),
        ensures
            r == self@.renders_above_top_layer(),
    {
        if self.is_empty() || !self.props.view_offset.is_static() {
            return false;
        }
        let idx: usize = self.props.active_section_idx;
        assert(self@.sections[idx as int] == self.sections@[idx as int]@);
        self.sections[idx].sizing_mode().is_fullscreen()
    }
}

/// The children on a path in a tree can be counted.
proof fn lemma_path_is_countable<N: Scalar>(tree: Tree<N>, path: Seq<usize>)
    requires
        tree.wf(),
        tree.has_path(path),
    ensures
        forall|i: int| 0 <= i < path.len() ==> (#[trigger] path[i]) < usize::MAX,
    decreases path.len(),
{
    if path.len() > 0 {
        let child = tree->children[path[0] as int];
        lemma_path_is_countable(child, path.skip(1));
        assert forall|i: int| 0 <= i < path.len() implies (#[trigger] path[i]) < usize::MAX by {
            if i > 0 {
                assert(path[i] == path.skip(1)[i - 1]);
            }
        }
    }
}

/// Counts the children on a path from one.
fn count_from_one(path: &Vec<usize>) -> (r: Vec<usize>)
    requires
        forall|i: int| 0 <= i < path@.len() ==> (#[trigger] path@[i]) < usize::MAX,
    ensures
        r@.len() == path@.len(),
        forall|i: int| 0 <= i < path@.len() ==> (#[trigger] r@[i]) == path@[i] + 1,
{
    let mut out: Vec<usize> = Vec::new();
    let mut i: usize = 0;
    while i < path.len()
        invariant
            i <= path.len(),
            forall|j: int| 0 <= j < path@.len() ==> (#[trigger] path@[j]) < usize::MAX,
            out.len() == i,
            forall|j: int| 0 <= j < i ==> (#[trigger] out@[j]) == path@[j] + 1,
        decreases path.len() - i,
    {
        out.push(path[i] + 1);
        i = i + 1;
    }
    out
}

} // verus!
