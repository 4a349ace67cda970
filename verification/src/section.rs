//! A section: a tree of tiles that takes one place along the main axis.
use vstd::prelude::*;

use crate::animation::Animation;
use crate::axis::AxisMap;
use crate::config::{
    CenterFocusedSection, LayoutOptions, SectionWidth, SizingMode, SplitAxis,
};
use crate::geometry::{Point, Rectangle, Size};
use crate::scalar::{num, Scalar};
use crate::tile::Tile;
use crate::tile_node::{SplitChildData, TileNode, Tree};
use crate::tree_layout::{lemma_layout_len, max_upto, sum_of, sum_upto, LeafLayout};
use crate::tree_walk::{lemma_active_leaf_idx, lemma_leaf_paths, lemma_wf_is_sane};

verus! {

/// A movement of a whole section, from an offset that is scaled by an animation.
#[derive(Clone, Copy, PartialEq, Eq, Debug)]
pub struct MoveAnimation<N> {
    pub anim: Animation<N>,
    pub from: N,
}

/// Everything of a section but its tiles. Sizes are turned to the main axis.
#[derive(Clone, Copy, PartialEq, Eq, Debug)]
pub struct SectionProps<N> {
    /// Desired width of the section, to be restored when it stops being full-width or fullscreen.
    pub width: SectionWidth<N>,
    /// Currently selected preset width.
    pub preset_width_idx: Option<usize>,
    pub is_full_width: bool,
    /// Whether the section is going to be fullscreen. The tiles take some time to follow.
    pub is_pending_fullscreen: bool,
    /// Whether the section is going to be maximized. Together with pending fullscreen, this is
    /// where leaving fullscreen goes back to.
    pub is_pending_maximized: bool,
    pub move_animation: Option<MoveAnimation<N>>,
    /// Latest known size of the view.
    pub view_size: Size<N>,
    /// Latest known working area.
    pub working_area: Rectangle<N>,
    /// Latest known working area with the struts.
    pub parent_area: Rectangle<N>,
    pub scale: N,
    /// The axis along which the next window splits the focused one.
    pub pending_split_direction: Option<SplitAxis>,
}

/// A section.
pub struct Section<N> {
    pub root: TileNode<N>,
    pub props: SectionProps<N>,
}

/// What a [`Section`] holds.
#[verifier::ext_equal]
pub ghost struct SectionView<N> {
    pub root: Tree<N>,
    pub props: SectionProps<N>,
}

impl<N> Section<N> {
    pub open spec fn view(&self) -> SectionView<N> {
        SectionView { root: self.root@, props: self.props }
    }
}

/// The map between the screen and a layout with some options.
pub open spec fn axis_of<N>(layout: LayoutOptions<N>) -> AxisMap {
    AxisMap { main_axis: layout.main_axis }
}

/// The index of the first of the first `upto` tiles that has a window.
pub open spec fn window_position<N>(tiles: Seq<Tile<N>>, window: u64, upto: int) -> Option<usize>
    decreases upto,
{
    if upto <= 0 {
        None
    } else {
        match window_position(tiles, window, upto - 1) {
            Some(i) => Some(i),
            None => if tiles[upto - 1].id == window {
                Some((upto - 1) as usize)
            } else {
                None
            },
        }
    }
}

/// Whether one of some tiles has a window.
pub open spec fn has_window<N>(tiles: Seq<Tile<N>>, window: u64) -> bool {
    exists|i: int| 0 <= i < tiles.len() && (#[trigger] tiles[i]).id == window
}

/// A window that is there is found, and what is found has the window.
pub proof fn lemma_window_position<N>(tiles: Seq<Tile<N>>, window: u64, upto: int)
    requires
        0 <= upto <= tiles.len() <= usize::MAX,
    ensures
        match window_position(tiles, window, upto) {
            Some(i) => i < upto && tiles[i as int].id == window,
            None => forall|j: int| 0 <= j < upto ==> (#[trigger] tiles[j]).id != window,
        },
    decreases upto,
{
    if upto > 0 {
        lemma_window_position(tiles, window, upto - 1);
    }
}

/// Finds the first tile that has a window.
pub fn find_window<N>(tiles: &Vec<Tile<N>>, window: u64) -> (r: Option<usize>)
    ensures
        r == window_position(tiles@, window, tiles@.len() as int),
        r matches Some(i) ==> i < tiles@.len() && tiles@[i as int].id == window,
        r is Some <==> has_window(tiles@, window),
{
    let mut found: Option<usize> = None;
    let mut i: usize = 0;
    while i < tiles.len()
        invariant
            i <= tiles.len(),
            found == window_position(tiles@, window, i as int),
        decreases tiles.len() - i,
    {
        if found.is_none() && tiles[i].id == window {
            found = Some(i);
        }
        i = i + 1;
    }
    proof {
        lemma_window_position(tiles@, window, tiles@.len() as int);
    }
    found
}

/// The greatest main-axis span of the first `upto` leaves that start where the section starts.
pub open spec fn max_aligned<N: Scalar>(raw: Seq<LeafLayout<N>>, upto: int) -> N
    decreases upto,
{
    if upto <= 0 {
        num::<N>(0)
    } else {
        let before = max_aligned(raw, upto - 1);
        if raw[upto - 1].aligned {
            before.spec_max(raw[upto - 1].main_size)
        } else {
            before
        }
    }
}

/// The position of a leaf once leaves are centered, or kept at their end edge while they are
/// resized by their start edge.
pub open spec fn shifted_pos<N: Scalar>(
    leaf: LeafLayout<N>,
    origin: Point<N>,
    max_main: N,
    center: bool,
) -> Point<N> {
    if leaf.aligned && center {
        Point { x: origin.x + (max_main - leaf.main_size).spec_div(num::<N>(2)), y: leaf.pos.y }
    } else if leaf.aligned && leaf.resizing_by_start {
        Point { x: origin.x + max_main - leaf.main_size, y: leaf.pos.y }
    } else {
        leaf.pos
    }
}

impl<N: Scalar> SectionView<N> {
    /// Whether the section is in order: it has tiles that can be counted, in a tree in order whose
    /// root arranges children.
    pub open spec fn wf(self) -> bool {
        &&& self.root.wf()
        &&& self.root is Internal
        &&& self.root.leaves().len() <= usize::MAX
    }

    pub open spec fn tiles(self) -> Seq<Tile<N>> {
        self.root.leaves()
    }

    pub open spec fn contains(self, window: u64) -> bool {
        has_window(self.tiles(), window)
    }

    pub open spec fn position(self, window: u64) -> Option<usize> {
        window_position(self.tiles(), window, self.tiles().len() as int)
    }

    pub open spec fn active_leaf_idx(self) -> usize {
        self.root.active_leaf_idx()
    }

    pub open spec fn pending_sizing_mode(self) -> SizingMode {
        if self.props.is_pending_fullscreen {
            SizingMode::Fullscreen
        } else if self.props.is_pending_maximized {
            SizingMode::Maximized
        } else {
            SizingMode::Normal
        }
    }

    /// Fullscreen if any tile is, else maximized if any tile is.
    pub open spec fn sizing_mode(self) -> SizingMode {
        let tiles = self.tiles();
        if exists|i: int|
            0 <= i < tiles.len() && (#[trigger] tiles[i]).sizing_mode == SizingMode::Fullscreen {
            SizingMode::Fullscreen
        } else if exists|i: int|
            0 <= i < tiles.len() && (#[trigger] tiles[i]).sizing_mode == SizingMode::Maximized {
            SizingMode::Maximized
        } else {
            SizingMode::Normal
        }
    }

    /// Space taken up by the header of tabs.
    pub open spec fn extra_size(self) -> Size<N> {
        if self.root.is_tabbed() {
            self.root.header()->0.extra_size(self.root.child_count() as usize, self.props.scale)
        } else {
            Size::spec_zero()
        }
    }

    /// How far the header of tabs shifts the tiles.
    pub open spec fn header_offset(self) -> Point<N> {
        self.root.header()->0.content_offset(self.root.child_count() as usize, self.props.scale)
    }

    /// Where the tiles start.
    pub open spec fn tiles_origin(self, layout: LayoutOptions<N>) -> Point<N> {
        let zero = Point::<N>::spec_zero();
        match self.sizing_mode() {
            SizingMode::Fullscreen => zero,
            SizingMode::Maximized => zero + cross_vec(self.props.parent_area.loc.y),
            SizingMode::Normal => {
                let origin = zero + cross_vec(self.props.working_area.loc.y + layout.gaps);
                if self.root.is_tabbed() {
                    origin + self.header_offset()
                } else {
                    origin
                }
            },
        }
    }

    pub open spec fn raw_layout(self, layout: LayoutOptions<N>) -> Seq<LeafLayout<N>> {
        self.root.leaf_layout(
            SplitChildData::spec_new_auto(),
            self.tiles_origin(layout),
            layout.gaps,
            self.props.scale,
            true,
            true,
        )
    }

    /// The positions of the tiles, in the order of the leaves.
    pub open spec fn leaf_positions(self, layout: LayoutOptions<N>) -> Seq<Point<N>> {
        let raw = self.raw_layout(layout);
        let max_main = max_aligned(raw, raw.len() as int);
        Seq::new(
            raw.len(),
            |i: int|
                shifted_pos(
                    raw[i],
                    self.tiles_origin(layout),
                    max_main,
                    layout.center_focused_section == CenterFocusedSection::Always,
                ),
        )
    }

    /// The size kept for a leaf by its parent.
    pub open spec fn leaf_size(self, idx: usize) -> Size<N> {
        match self.root.path_for_leaf_index(idx) {
            Some(path) => match self.root.leaf_data(path) {
                Some(data) => data.size,
                None => Size::spec_zero(),
            },
            None => Size::spec_zero(),
        }
    }

    /// The position of a tile, or where one after the last would stand.
    pub open spec fn tile_offset(self, layout: LayoutOptions<N>, idx: int) -> Point<N> {
        let positions = self.leaf_positions(layout);
        if idx < positions.len() {
            positions[idx]
        } else {
            let last = positions.len() - 1;
            Point {
                x: positions[last].x,
                y: positions[last].y + self.leaf_size(last as usize).h + layout.gaps,
            }
        }
    }

    pub open spec fn active_tile_offset(self, layout: LayoutOptions<N>) -> Point<N> {
        self.raw_layout(layout)[self.active_leaf_idx() as int].pos
    }

    /// The span of the section along the main axis. Children side by side add up; otherwise the
    /// widest child counts.
    pub open spec fn width(self, layout: LayoutOptions<N>) -> N {
        let data = self.root.child_data();
        let spans = Seq::new(data.len(), |i: int| data[i].size.w);
        let main_span = if self.root.is_main_split() {
            sum_upto(spans, spans.len() as int) + layout.gaps * num::<N>(
                if data.len() > 0 {
                    data.len() - 1
                } else {
                    0
                },
            )
        } else if data.len() == 0 {
            num::<N>(0)
        } else {
            max_upto(spans, spans.len() as int)
        };
        if self.root.is_tabbed() && self.sizing_mode() == SizingMode::Normal {
            main_span + self.root.header()->0.extra_size(
                self.root.child_count() as usize,
                self.props.scale,
            ).w
        } else {
            main_span
        }
    }

    /// The span along the main axis that a width stands for.
    pub open spec fn resolved_main_span(
        self,
        layout: LayoutOptions<N>,
        width: SectionWidth<N>,
    ) -> N {
        match width {
            SectionWidth::Proportion(proportion) => (self.props.working_area.size.w - layout.gaps)
                * proportion - layout.gaps - self.extra_size().w,
            SectionWidth::Fixed(width) => width,
        }
    }

    pub open spec fn render_offset(self) -> Point<N> {
        match self.props.move_animation {
            Some(movement) => Point {
                x: num::<N>(0) + movement.from * movement.anim.value,
                y: num::<N>(0),
            },
            None => Point::spec_zero(),
        }
    }

    /// Whether the root shows tabs and the active one is not a single tile.
    pub open spec fn active_tab_is_nested(self) -> bool {
        &&& self.root.is_tabbed()
        &&& self.root.active_idx() < self.root.child_count()
        &&& !(self.root->children[self.root.active_idx() as int] is Leaf)
    }

    /// The child of the root below which a leaf is, or one past the last child.
    pub open spec fn leaf_idx_to_root_child(self, leaf_idx: usize) -> usize {
        match self.root.path_for_leaf_index(leaf_idx) {
            Some(path) if path.len() > 0 => path[0],
            _ => self.root.child_count() as usize,
        }
    }

    /// The number of leaves before a child of the root.
    pub open spec fn leaves_before(self, root_child: int) -> int {
        Tree::forest_leaves(self.root->children, root_child).len() as int
    }
}

/// A vector along the main axis.
pub open spec fn main_vec<N: Scalar>(main: N) -> Point<N> {
    Point { x: main, y: num::<N>(0) }
}

/// A vector along the cross axis.
pub open spec fn cross_vec<N: Scalar>(cross: N) -> Point<N> {
    Point { x: num::<N>(0), y: cross }
}

/// A vector in scrolling-space coordinates, where X is main axis and Y is cross axis.
pub fn main_space_vec<N: Scalar>(main: N) -> (r: Point<N>)
    ensures
        r == main_vec(main),
{
    Point { x: main, y: N::of_int(0) }
}

/// A vector in scrolling-space coordinates, where X is main axis and Y is cross axis.
pub fn cross_space_vec<N: Scalar>(cross: N) -> (r: Point<N>)
    ensures
        r == cross_vec(cross),
{
    Point { x: N::of_int(0), y: cross }
}

/// Facts about the tiles and paths of a section in order.
pub proof fn lemma_section_tiles<N: Scalar>(section: SectionView<N>, layout: LayoutOptions<N>)
    requires
        section.wf(),
    ensures
        0 < section.tiles().len() <= usize::MAX,
        section.root.leaf_paths().len() == section.tiles().len(),
        section.active_leaf_idx() < section.tiles().len(),
        section.tiles()[section.active_leaf_idx() as int] == section.root.active_leaf(),
        section.leaf_positions(layout).len() == section.tiles().len(),
        section.raw_layout(layout).len() == section.tiles().len(),
        forall|i: int|
            0 <= i < section.tiles().len() ==> {
                &&& section.root.has_path(#[trigger] section.root.leaf_paths()[i])
                &&& section.root.node(section.root.leaf_paths()[i]) == Tree::Leaf(
                    section.tiles()[i],
                )
                &&& section.root.leaf_paths()[i].len() > 0
            },
{
    lemma_active_leaf_idx(section.root);
    lemma_wf_is_sane(section.root);
    lemma_leaf_paths(section.root);
    lemma_layout_len(
        section.root,
        SplitChildData::spec_new_auto(),
        section.tiles_origin(layout),
        layout.gaps,
        section.props.scale,
        true,
        true,
    );
}

impl<N: Scalar> Section<N> {
    /// The tiles in depth-first order.
    pub fn tiles(&self) -> (r: Vec<Tile<N>>)
        ensures
            r@ == self@.tiles(),
    {
        self.root.leaves()
    }

    pub fn is_tabbed(&self) -> (r: bool)
        ensures
            r == self@.root.is_tabbed(),
    {
        self.root.is_tabbed()
    }

    pub fn tiles_len(&self) -> (r: usize)
        ensures
            r == self@.tiles().len(),
    {
        self.root.leaf_count()
    }

    /// The index of the active child of the root.
    pub fn active_tile_idx(&self) -> (r: usize)
        ensures
            r == self@.root.active_idx(),
    {
        self.root.active_idx()
    }

    /// The index of the active leaf among all leaves.
    pub fn active_leaf_idx(&self) -> (r: usize)
        requires
            self@.wf(),
        ensures
            r == self@.active_leaf_idx(),
            r < self@.tiles().len(),
    {
        proof {
            lemma_active_leaf_idx(self@.root);
        }
        self.root.active_leaf_idx()
    }

    pub fn active_tile(&self) -> (r: Tile<N>)
        requires
            self@.wf(),
        ensures
            r == self@.root.active_leaf(),
    {
        self.root.active_leaf()
    }

    /// The tile at a leaf index.
    pub fn tile(&self, idx: usize) -> (r: Tile<N>)
        requires
            idx < self@.tiles().len(),
        ensures
            r == self@.tiles()[idx as int],
    {
        let tiles = self.tiles();
        tiles[idx]
    }

    pub fn contains(&self, window: u64) -> (r: bool)
        ensures
            r == self@.contains(window),
    {
        let tiles = self.tiles();
        find_window(&tiles, window).is_some()
    }

    pub fn position(&self, window: u64) -> (r: Option<usize>)
        ensures
            r == self@.position(window),
            r matches Some(i) ==> i < self@.tiles().len() && self@.tiles()[i as int].id == window,
            r is Some <==> self@.contains(window),
    {
        let tiles = self.tiles();
        find_window(&tiles, window)
    }

    pub fn is_pending_fullscreen(&self) -> (r: bool)
        ensures
            r == self@.props.is_pending_fullscreen,
    {
        self.props.is_pending_fullscreen
    }

    pub fn is_pending_maximized(&self) -> (r: bool)
        ensures
            r == self@.props.is_pending_maximized,
    {
        self.props.is_pending_maximized
    }

    pub fn pending_sizing_mode(&self) -> (r: SizingMode)
        ensures
            r == self@.pending_sizing_mode(),
    {
        if self.props.is_pending_fullscreen {
            SizingMode::Fullscreen
        } else if self.props.is_pending_maximized {
            SizingMode::Maximized
        } else {
            SizingMode::Normal
        }
    }

    /// How much of the screen the section takes right now: what its largest tile takes. This lags
    /// behind the pending mode until the tiles have followed.
    pub fn sizing_mode(&self) -> (r: SizingMode)
        ensures
            r == self@.sizing_mode(),
    {
        let tiles = self.tiles();
        let mut any_fullscreen = false;
        let mut any_maximized = false;
        let mut i: usize = 0;
        while i < tiles.len()
            invariant
                i <= tiles.len(),
                tiles@ == self@.tiles(),
                any_fullscreen <==> exists|j: int|
                    0 <= j < i && (#[trigger] tiles@[j]).sizing_mode == SizingMode::Fullscreen,
                any_maximized <==> exists|j: int|
                    0 <= j < i && (#[trigger] tiles@[j]).sizing_mode == SizingMode::Maximized,
            decreases tiles.len() - i,
        {
            let ghost fullscreen_before = any_fullscreen;
            let ghost maximized_before = any_maximized;
            match tiles[i].sizing_mode {
                SizingMode::Normal => {},
                SizingMode::Maximized => {
                    any_maximized = true;
                },
                SizingMode::Fullscreen => {
                    any_fullscreen = true;
                },
            }
            proof {
                if any_fullscreen && !fullscreen_before {
                    assert(tiles@[i as int].sizing_mode == SizingMode::Fullscreen);
                }
                if any_maximized && !maximized_before {
                    assert(tiles@[i as int].sizing_mode == SizingMode::Maximized);
                }
            }
            i = i + 1;
        }
        if any_fullscreen {
            SizingMode::Fullscreen
        } else if any_maximized {
            SizingMode::Maximized
        } else {
            SizingMode::Normal
        }
    }

    /// Extra size taken up by elements in the section such as the tab indicator.
    pub fn extra_size(&self) -> (r: Size<N>)
        requires
            self@.wf(),
        ensures
            r == self@.extra_size(),
    {
        if self.is_tabbed() {
            match self.root.tab_header() {
                Some(header) => header.extra_size(self.root.child_count(), self.props.scale),
                None => Size::zero(),
            }
        } else {
            Size::zero()
        }
    }

    pub fn header_offset(&self) -> (r: Point<N>)
        requires
            self@.wf(),
            self@.root.is_tabbed(),
        ensures
            r == self@.header_offset(),
    {
        match self.root.tab_header() {
            Some(header) => header.content_offset(self.root.child_count(), self.props.scale),
            None => Point::zero(),
        }
    }

    pub fn tiles_origin(&self, layout: &LayoutOptions<N>) -> (r: Point<N>)
        requires
            self@.wf(),
        ensures
            r == self@.tiles_origin(*layout),
    {
        let zero = Point::zero();
        match self.sizing_mode() {
            SizingMode::Fullscreen => zero,
            SizingMode::Maximized => zero.add(cross_space_vec(self.props.parent_area.loc.y)),
            SizingMode::Normal => {
                let origin = zero.add(
                    cross_space_vec(self.props.working_area.loc.y.add(layout.gaps)),
                );
                if self.is_tabbed() {
                    origin.add(self.header_offset())
                } else {
                    origin
                }
            },
        }
    }

    pub fn raw_layout(&self, layout: &LayoutOptions<N>) -> (r: Vec<LeafLayout<N>>)
        requires
            self@.wf(),
        ensures
            r@ == self@.raw_layout(*layout),
    {
        let origin = self.tiles_origin(layout);
        self.root.leaf_layout(origin, layout.gaps, self.props.scale)
    }

    /// The single source of truth for the positions of tiles: rendering, hit-testing and animation
    /// all go through this, so they can never disagree.
    pub fn leaf_positions(&self, layout: &LayoutOptions<N>) -> (r: Vec<Point<N>>)
        requires
            self@.wf(),
        ensures
            r@ == self@.leaf_positions(*layout),
            r@.len() == self@.tiles().len(),
    {
        let origin = self.tiles_origin(layout);
        let raw = self.raw_layout(layout);
        let center = matches!(layout.center_focused_section, CenterFocusedSection::Always);
        let mut max_main = N::of_int(0);
        let mut i: usize = 0;
        while i < raw.len()
            invariant
                i <= raw.len(),
                max_main == max_aligned(raw@, i as int),
            decreases raw.len() - i,
        {
            if raw[i].aligned {
                max_main = max_main.max(raw[i].main_size);
            }
            i = i + 1;
        }
        let mut positions: Vec<Point<N>> = Vec::new();
        i = 0;
        while i < raw.len()
            invariant
                i <= raw.len(),
                positions.len() == i,
                forall|j: int|
                    0 <= j < i ==> positions@[j] == shifted_pos(raw@[j], origin, max_main, center),
            decreases raw.len() - i,
        {
            let leaf = raw[i];
            let pos = if leaf.aligned && center {
                Point {
                    x: origin.x.add(max_main.sub(leaf.main_size).div(N::of_int(2))),
                    y: leaf.pos.y,
                }
            } else if leaf.aligned && leaf.resizing_by_start {
                Point { x: origin.x.add(max_main).sub(leaf.main_size), y: leaf.pos.y }
            } else {
                leaf.pos
            };
            positions.push(pos);
            i = i + 1;
        }
        proof {
            assert(positions@ =~= self@.leaf_positions(*layout));
            lemma_section_tiles(self@, *layout);
        }
        positions
    }

    /// The size kept for a leaf by its parent.
    pub fn leaf_size(&self, idx: usize) -> (r: Size<N>)
        requires
            self@.wf(),
        ensures
            r == self@.leaf_size(idx),
    {
        proof {
            lemma_wf_is_sane(self@.root);
            lemma_leaf_paths(self@.root);
        }
        match self.root.path_for_leaf_index(idx) {
            Some(path) => match self.root.leaf_data(&path) {
                Some(data) => data.size,
                None => Size::zero(),
            },
            None => Size::zero(),
        }
    }

    /// The position of a tile, or where one after the last would stand.
    pub fn tile_offset(&self, layout: &LayoutOptions<N>, tile_idx: usize) -> (r: Point<N>)
        requires
            self@.wf(),
            tile_idx <= self@.tiles().len(),
        ensures
            r == self@.tile_offset(*layout, tile_idx as int),
    {
        proof {
            lemma_section_tiles(self@, *layout);
        }
        let positions = self.leaf_positions(layout);
        if tile_idx < positions.len() {
            return positions[tile_idx];
        }
        let last: usize = positions.len() - 1;
        Point {
            x: positions[last].x,
            y: positions[last].y.add(self.leaf_size(last).h).add(layout.gaps),
        }
    }

    pub fn active_tile_offset(&self, layout: &LayoutOptions<N>) -> (r: Point<N>)
        requires
            self@.wf(),
        ensures
            r == self@.active_tile_offset(*layout),
    {
        proof {
            lemma_section_tiles(self@, *layout);
        }
        let raw = self.raw_layout(layout);
        raw[self.active_leaf_idx()].pos
    }

    /// The span of the section along the main axis.
    pub fn width(&self, layout: &LayoutOptions<N>) -> (r: N)
        requires
            self@.wf(),
        ensures
            r == self@.width(*layout),
    {
        let data = self.root.child_data();
        let mut spans: Vec<N> = Vec::new();
        let mut i: usize = 0;
        while i < data.len()
            invariant
                i <= data.len(),
                spans.len() == i,
                forall|j: int| 0 <= j < i ==> spans@[j] == data@[j].size.w,
            decreases data.len() - i,
        {
            spans.push(data[i].size.w);
            i = i + 1;
        }
        assert(spans@ =~= Seq::new(data@.len(), |j: int| data@[j].size.w));
        let main_span = if self.root.is_main_split() {
            let inner: usize = if data.len() > 0 {
                data.len() - 1
            } else {
                0
            };
            sum_of(&spans).add(layout.gaps.mul(N::of_usize(inner)))
        } else if data.len() == 0 {
            N::of_int(0)
        } else {
            crate::tree_layout::max_of(&spans)
        };
        if self.is_tabbed() && self.sizing_mode().is_normal() {
            let extra = match self.root.tab_header() {
                Some(header) => header.extra_size(self.root.child_count(), self.props.scale),
                None => Size::zero(),
            };
            main_span.add(extra.w)
        } else {
            main_span
        }
    }

    pub fn resolve_section_main_span(
        &self,
        layout: &LayoutOptions<N>,
        width: SectionWidth<N>,
    ) -> (r: N)
        requires
            self@.wf(),
        ensures
            r == self@.resolved_main_span(*layout, width),
    {
        match width {
            SectionWidth::Proportion(proportion) => self.props.working_area.size.w.sub(
                layout.gaps,
            ).mul(proportion).sub(layout.gaps).sub(self.extra_size().w),
            SectionWidth::Fixed(width) => width,
        }
    }

    pub fn render_offset(&self) -> (r: Point<N>)
        ensures
            r == self@.render_offset(),
    {
        let zero = N::of_int(0);
        match self.props.move_animation {
            Some(movement) => Point {
                x: zero.add(movement.from.mul(movement.anim.value())),
                y: zero,
            },
            None => Point::zero(),
        }
    }

    pub fn active_tab_is_nested(&self) -> (r: bool)
        ensures
            r == self@.active_tab_is_nested(),
    {
        match &self.root {
            TileNode::Leaf(_) => false,
            TileNode::Internal { layout, children, active_idx, .. } => {
                assert(self@.root->children.len() == children@.len());
                if layout.is_tabbing() && *active_idx < children.len() {
                    assert(self@.root->children[*active_idx as int]
                        == children@[*active_idx as int]@);
                    !children[*active_idx].is_leaf()
                } else {
                    false
                }
            },
        }
    }

    /// Maps a leaf index to the child of the root that contains it, or to one past the last child.
    pub fn leaf_idx_to_root_child(&self, leaf_idx: usize) -> (r: usize)
        requires
            self@.wf(),
        ensures
            r == self@.leaf_idx_to_root_child(leaf_idx),
            r <= self@.root.child_count(),
    {
        proof {
            lemma_wf_is_sane(self@.root);
            lemma_leaf_paths(self@.root);
        }
        match self.root.path_for_leaf_index(leaf_idx) {
            Some(path) if path.len() > 0 => path[0],
            _ => self.root.child_count(),
        }
    }

    /// The index of the first leaf below a child of the root.
    pub fn root_child_first_leaf_idx(&self, root_child: usize) -> (r: usize)
        requires
            self@.wf(),
            root_child <= self@.root.child_count(),
        ensures
            r == self@.leaves_before(root_child as int),
    {
        match &self.root {
            TileNode::Leaf(_) => 0,
            TileNode::Internal { children, .. } => {
                let ghost nodes = self@.root->children;
                assert(nodes =~= crate::tile_node::forest_view(children@));
                let mut before: Vec<Tile<N>> = Vec::new();
                let mut i: usize = 0;
                while i < root_child
                    invariant
                        i <= root_child,
                        root_child <= children.len(),
                        nodes == crate::tile_node::forest_view(children@),
                        before@ == Tree::forest_leaves(nodes, i as int),
                    decreases root_child - i,
                {
                    let mut own = children[i].leaves();
                    assert(nodes[i as int] == children@[i as int]@);
                    before.append(&mut own);
                    i = i + 1;
                }
                before.len()
            },
        }
    }
}

} // verus!
