//! The order in which a space is drawn, and windows that fade out.
use vstd::prelude::*;

use crate::axis::AxisMap;
use crate::geometry::{Point, Rectangle};
use crate::scalar::{num, Scalar};
use crate::section::{axis_of, lemma_section_tiles, main_space_vec, main_vec};
use crate::section_tabs::{
    nested_views, order_active_first, unit_of, NestedTabbed, NestedTabbedView,
};
use crate::space::{ClosingWindow, ScrollingSpace, SpaceView};
use crate::space_render::lemma_render_order;
use crate::tile::Tile;
use crate::tile_node::SplitChildData;
use crate::tree_layout::{lemma_visibility_len, later_max, pick_later_max};
use crate::windows::keeps_windows;

verus! {

/// Something to draw. What comes earlier is on top.
pub enum DrawItem<N> {
    /// A window that is fading out, seen through a view.
    Closing { closing: ClosingWindow<N>, view: Rectangle<N> },
    /// The header of a container of a section, at the position of the section.
    Header { section: usize, path: Vec<usize>, pos: Point<N> },
    /// The tile of a window.
    Tile { window: u64, pos: Point<N>, focus_ring: bool },
    /// The bar of tabs of a container of a section, at the position of the section.
    Bar { section: usize, path: Vec<usize>, pos: Point<N>, is_active: bool },
}

/// What a [`DrawItem`] holds.
#[verifier::ext_equal]
pub ghost enum DrawItemView<N> {
    Closing { closing: ClosingWindow<N>, view: Rectangle<N> },
    Header { section: usize, path: Seq<usize>, pos: Point<N> },
    Tile { window: u64, pos: Point<N>, focus_ring: bool },
    Bar { section: usize, path: Seq<usize>, pos: Point<N>, is_active: bool },
}

impl<N> DrawItem<N> {
    pub open spec fn view(&self) -> DrawItemView<N> {
        match *self {
            DrawItem::Closing { closing, view } => DrawItemView::Closing { closing, view },
            DrawItem::Header { section, path, pos } => DrawItemView::Header {
                section,
                path: path@,
                pos,
            },
            DrawItem::Tile { window, pos, focus_ring } => DrawItemView::Tile {
                window,
                pos,
                focus_ring,
            },
            DrawItem::Bar { section, path, pos, is_active } => DrawItemView::Bar {
                section,
                path: path@,
                pos,
                is_active,
            },
        }
    }
}

pub open spec fn item_views<N>(items: Seq<DrawItem<N>>) -> Seq<DrawItemView<N>> {
    Seq::new(items.len(), |i: int| items[i]@)
}

fn push_item<N>(items: &mut Vec<DrawItem<N>>, item: DrawItem<N>)
    ensures
        item_views(final(items)@) == item_views(old(items)@).push(item@),
{
    let ghost before = items@;
    items.push(item);
    assert(item_views(items@) =~= item_views(before).push(item@));
}

/// The greatest of the main-axis spans of the first `upto` children, but for one child.
pub open spec fn widest_other_upto<N: Scalar>(
    data: Seq<SplitChildData<N>>,
    except: usize,
    upto: int,
) -> Option<N>
    decreases upto,
{
    if upto <= 0 {
        None
    } else {
        let before = widest_other_upto(data, except, upto - 1);
        if upto - 1 == except {
            before
        } else {
            match before {
                Some(widest) => Some(later_max(widest, data[upto - 1].size.w)),
                None => Some(data[upto - 1].size.w),
            }
        }
    }
}

impl<N: Scalar> SpaceView<N> {
    /// The part of the strip of sections that is on screen.
    pub open spec fn view_rect(self) -> Rectangle<N> {
        let axis = axis_of(self.layout());
        Rectangle {
            loc: axis.spec_point(main_vec(self.view_pos())),
            size: axis.spec_size(self.props.view_size),
        }
    }

    /// Windows that are fading out, the last one on top.
    pub open spec fn closing_items(self) -> Seq<DrawItemView<N>> {
        Seq::new(
            self.closing.len(),
            |i: int|
                DrawItemView::Closing {
                    closing: self.closing[self.closing.len() - 1 - i],
                    view: self.view_rect(),
                },
        )
    }

    /// Where the headers of a section are drawn.
    pub open spec fn header_pos(self, col: int) -> Point<N> {
        axis_of(self.layout()).spec_point(self.section_view_pos(col)).rounded(self.props.scale)
    }

    pub open spec fn is_bar_at(self, col: int, path: Seq<usize>) -> bool {
        self.sections[col].root.node(path).header() matches Some(header) && header.body is Bar
    }

    pub open spec fn is_indicator_at(self, col: int, path: Seq<usize>) -> bool {
        self.sections[col].root.node(path).header() matches Some(header)
            && header.body is Indicator
    }

    /// The indicators of the first `upto` nested containers of a section, where they are shown.
    pub open spec fn indicators_upto(
        self,
        col: usize,
        units: Seq<NestedTabbedView<N>>,
        upto: int,
    ) -> Seq<DrawItemView<N>>
        decreases upto,
    {
        if upto <= 0 {
            Seq::empty()
        } else {
            let before = self.indicators_upto(col, units, upto - 1);
            let unit = units[upto - 1];
            if unit.visible && self.is_indicator_at(col as int, unit.path) {
                before.push(
                    DrawItemView::Header {
                        section: col,
                        path: unit.path,
                        pos: self.header_pos(col as int),
                    },
                )
            } else {
                before
            }
        }
    }

    /// The headers of a section that are drawn above its tiles.
    pub open spec fn header_items(self, col: usize) -> Seq<DrawItemView<N>> {
        let units = self.sections[col as int].nested_tabbed(self.layout());
        let nested = self.indicators_upto(col, units, units.len() as int);
        if self.sections[col as int].root.header() is Some {
            seq![
                DrawItemView::Header {
                    section: col,
                    path: Seq::empty(),
                    pos: self.header_pos(col as int),
                },
            ] + nested
        } else {
            nested
        }
    }

    /// The first `upto` tiles of a section that are shown or are changing their opacity. The first
    /// tile of the section drawn first has the focus ring.
    pub open spec fn tile_items_upto(
        self,
        col: usize,
        focus_ring: bool,
        upto: int,
    ) -> Seq<DrawItemView<N>>
        decreases upto,
    {
        if upto <= 0 {
            Seq::empty()
        } else {
            let before = self.tile_items_upto(col, focus_ring, upto - 1);
            let (tile, pos, visible) = self.placed_tiles(col as int, true)[upto - 1];
            if visible || tile.has_alpha_animation {
                before.push(
                    DrawItemView::Tile {
                        window: tile.id,
                        pos,
                        focus_ring: focus_ring && upto == 1,
                    },
                )
            } else {
                before
            }
        }
    }

    /// What of a section is drawn in the first pass.
    pub open spec fn section_items(self, col: usize, focus_ring: bool) -> Seq<DrawItemView<N>> {
        self.header_items(col) + self.tile_items_upto(
            col,
            focus_ring,
            self.placed_tiles(col as int, true).len() as int,
        )
    }

    /// What is drawn in the first pass, of the sections drawn first.
    pub open spec fn items_upto(self, focus_ring: bool, upto: int) -> Seq<DrawItemView<N>>
        decreases upto,
    {
        if upto <= 0 {
            Seq::empty()
        } else {
            self.items_upto(focus_ring, upto - 1) + self.section_items(
                self.render_order()[upto - 1],
                focus_ring && upto == 1,
            )
        }
    }

    /// The bars of the first `upto` nested containers of a section, where they are shown.
    pub open spec fn nested_bars_upto(
        self,
        col: usize,
        units: Seq<NestedTabbedView<N>>,
        upto: int,
    ) -> Seq<DrawItemView<N>>
        decreases upto,
    {
        if upto <= 0 {
            Seq::empty()
        } else {
            let before = self.nested_bars_upto(col, units, upto - 1);
            let unit = units[upto - 1];
            if unit.visible && self.is_bar_at(col as int, unit.path) {
                before.push(
                    DrawItemView::Bar {
                        section: col,
                        path: unit.path,
                        pos: self.header_pos(col as int),
                        is_active: col == self.props.active_section_idx && unit.active_on_path,
                    },
                )
            } else {
                before
            }
        }
    }

    /// The bars of a section.
    pub open spec fn bar_items(self, col: usize) -> Seq<DrawItemView<N>> {
        let section = self.sections[col as int];
        let units = section.nested_tabbed(self.layout());
        let nested = self.nested_bars_upto(col, units, units.len() as int);
        if section.root.is_tabbed() && self.is_bar_at(col as int, Seq::empty()) {
            seq![
                DrawItemView::Bar {
                    section: col,
                    path: Seq::empty(),
                    pos: self.header_pos(col as int),
                    is_active: col == self.props.active_section_idx,
                },
            ] + nested
        } else {
            nested
        }
    }

    /// The bars of the first `upto` sections.
    pub open spec fn bars_upto(self, upto: int) -> Seq<DrawItemView<N>>
        decreases upto,
    {
        if upto <= 0 {
            Seq::empty()
        } else {
            self.bars_upto(upto - 1) + self.bar_items((upto - 1) as usize)
        }
    }

    /// Everything that is drawn.
    pub open spec fn draw_items(self, focus_ring: bool) -> Seq<DrawItemView<N>> {
        self.closing_items() + self.items_upto(focus_ring, self.render_order().len() as int)
            + self.bars_upto(self.sections.len() as int)
    }

    /// How far the sections after `col` move back once its tile `idx` is gone.
    pub open spec fn closing_shift(self, col: int, idx: usize) -> N {
        let section = self.sections[col];
        if section.tiles().len() == 1 {
            self.section_pos(col + 1) - self.section_pos(col)
        } else {
            let data = section.root.child_data();
            match widest_other_upto(
                data,
                section.leaf_idx_to_root_child(idx),
                data.len() as int,
            ) {
                Some(widest) => self.width(col) - widest,
                None => num::<N>(0),
            }
        }
    }

    /// Whether a window that is to be closed is there and, where it is shown and leaves other
    /// windows behind in a section before the active one, whether a child of the root of that
    /// section stays.
    pub open spec fn can_close(self, window: u64) -> bool {
        self.section_of(window) matches Some(col) && {
            let section = self.sections[col as int];
            let idx = section.position(window)->0;
            let data = section.root.child_data();
            col < self.props.active_section_idx && section.root.visibility(true)[idx as int]
                && section.tiles().len() > 1 ==> widest_other_upto(
                data,
                section.leaf_idx_to_root_child(idx),
                data.len() as int,
            ) is Some
        }
    }

    /// Where a window that is closed fades out, with its position in the strip of sections. A tile
    /// that is not shown does not fade out.
    pub open spec fn closing_window(self, window: u64) -> Option<ClosingWindow<N>> {
        match self.section_of(window) {
            Some(col) => {
                let section = self.sections[col as int];
                let axis = axis_of(self.layout());
                let idx = section.position(window)->0;
                let tile = section.tiles()[idx as int];
                let pos = self.tile_screen_pos(
                    col as int,
                    tile,
                    section.leaf_positions(self.layout())[idx as int],
                    false,
                ) + axis.spec_point(main_vec(self.view_pos()));
                if section.root.visibility(true)[idx as int] {
                    Some(
                        ClosingWindow {
                            window,
                            tile_size: axis.spec_size(tile.tile_size),
                            tile_pos: if col < self.props.active_section_idx {
                                pos + axis.spec_point(
                                    main_vec(self.closing_shift(col as int, idx).spec_neg()),
                                )
                            } else {
                                pos
                            },
                            done: false,
                        },
                    )
                } else {
                    None
                }
            },
            None => None,
        }
    }
}

fn widest_other<N: Scalar>(data: &Vec<SplitChildData<N>>, except: usize) -> (r: Option<N>)
    ensures
        r == widest_other_upto(data@, except, data@.len() as int),
{
    let mut widest: Option<N> = None;
    let mut i: usize = 0;
    while i < data.len()
        invariant
            i <= data.len(),
            widest == widest_other_upto(data@, except, i as int),
        decreases data.len() - i,
    {
        if i != except {
            widest = match widest {
                Some(before) => Some(pick_later_max(before, data[i].size.w)),
                None => Some(data[i].size.w),
            };
        }
        i = i + 1;
    }
    widest
}

impl<N: Scalar> ScrollingSpace<N> {
    fn view_rect(&self) -> (r: Rectangle<N>)
        requires
            self@.wf(),
        ensures
            r == self@.view_rect(),
    {
        let axis = AxisMap::new(self.options.layout.main_axis);
        Rectangle::new(
            axis.point_out(main_space_vec(self.view_main_pos())),
            axis.size_out(self.props.view_size),
        )
    }

    fn header_pos(&self, col: usize) -> (r: Point<N>)
        requires
            self@.wf(),
            col < self@.sections.len(),
        ensures
            r == self@.header_pos(col as int),
    {
        let axis = AxisMap::new(self.options.layout.main_axis);
        axis.point_out(self.section_view_pos(col)).round_in_physical(self.props.scale)
    }

    fn push_closing(&self, items: &mut Vec<DrawItem<N>>)
        requires
            self@.wf(),
        ensures
            item_views(final(items)@) == item_views(old(items)@) + self@.closing_items(),
    {
        let view = self.view_rect();
        let ghost before = item_views(items@);
        let ghost expected = self@.closing_items();
        let count: usize = self.closing_windows.len();
        let mut i: usize = 0;
        assert(before + expected.take(0) =~= before);
        while i < count
            invariant
                i <= count,
                count == self.closing_windows@.len(),
                view == self@.view_rect(),
                expected == self@.closing_items(),
                item_views(items@) == before + expected.take(i as int),
            decreases count - i,
        {
            push_item(
                items,
                DrawItem::Closing { closing: self.closing_windows[count - 1 - i], view },
            );
            assert(expected.take(i as int + 1) =~= expected.take(i as int).push(
                expected[i as int],
            ));
            assert(item_views(items@) =~= before + expected.take(i as int + 1));
            i = i + 1;
        }
        assert(expected.take(count as int) =~= expected);
    }

    fn push_headers(&self, col: usize, units: &Vec<NestedTabbed<N>>, items: &mut Vec<DrawItem<N>>)
        requires
            self@.wf(),
            col < self@.sections.len(),
            nested_views(units@) == self@.sections[col as int].nested_tabbed(self@.layout()),
            forall|i: int|
                0 <= i < units@.len() ==> unit_of(
                    self@.sections[col as int],
                    (#[trigger] units@[i])@,
                ),
        ensures
            item_views(final(items)@) == item_views(old(items)@) + self@.header_items(col),
    {
        let ghost section = self@.sections[col as int];
        assert(section == self.sections@[col as int]@);
        assert(section.wf());
        let pos = self.header_pos(col);
        let ghost before = item_views(items@);
        if self.sections[col].root.tab_header().is_some() {
            push_item(items, DrawItem::Header { section: col, path: Vec::new(), pos });
            assert(item_views(items@).last().arrow_Header_path() =~= Seq::<usize>::empty());
        }
        let ghost head = if section.root.header() is Some {
            seq![
                DrawItemView::Header { section: col, path: Seq::<usize>::empty(), pos },
            ]
        } else {
            Seq::empty()
        };
        let ghost views = section.nested_tabbed(self@.layout());
        assert(views.len() == units@.len());
        let mut i: usize = 0;
        assert(item_views(items@) =~= before + (head + self@.indicators_upto(col, views, 0)));
        while i < units.len()
            invariant
                i <= units.len(),
                self@.wf(),
                col < self@.sections.len(),
                section == self@.sections[col as int],
                section == self.sections@[col as int]@,
                section.wf(),
                pos == self@.header_pos(col as int),
                views == nested_views(units@),
                forall|j: int|
                    0 <= j < units@.len() ==> unit_of(section, (#[trigger] units@[j])@),
                item_views(items@) == before + (head + self@.indicators_upto(
                    col,
                    views,
                    i as int,
                )),
            decreases units.len() - i,
        {
            let unit = &units[i];
            assert(views[i as int] == units@[i as int]@);
            assert(unit_of(section, units@[i as int]@));
            let ghost so_far = item_views(items@);
            let is_indicator = match self.sections[col].root.node_at(&unit.path).tab_header() {
                Some(header) => !header.is_bar(),
                None => false,
            };
            if unit.visible && is_indicator {
                let path = unit.path.clone();
                assert(path@ =~= unit.path@);
                push_item(items, DrawItem::Header { section: col, path, pos });
            }
            assert(item_views(items@) =~= before + (head + self@.indicators_upto(
                col,
                views,
                i as int + 1,
            )));
            i = i + 1;
        }
        assert(head + self@.indicators_upto(col, views, views.len() as int)
            =~= self@.header_items(col));
    }

    fn push_tiles(&self, col: usize, focus_ring: bool, items: &mut Vec<DrawItem<N>>)
        requires
            self@.wf(),
            col < self@.sections.len(),
        ensures
            item_views(final(items)@) == item_views(old(items)@) + self@.tile_items_upto(
                col,
                focus_ring,
                self@.placed_tiles(col as int, true).len() as int,
            ),
    {
        let placed = self.placed_tiles(col, true);
        let ghost before = item_views(items@);
        let mut i: usize = 0;
        assert(before + self@.tile_items_upto(col, focus_ring, 0) =~= before);
        while i < placed.len()
            invariant
                i <= placed.len(),
                placed@ == self@.placed_tiles(col as int, true),
                item_views(items@) == before + self@.tile_items_upto(col, focus_ring, i as int),
            decreases placed.len() - i,
        {
            let (tile, pos, visible) = placed[i];
            if visible || tile.has_alpha_animation {
                push_item(
                    items,
                    DrawItem::Tile { window: tile.id, pos, focus_ring: focus_ring && i == 0 },
                );
            }
            assert(item_views(items@) =~= before + self@.tile_items_upto(
                col,
                focus_ring,
                i as int + 1,
            ));
            i = i + 1;
        }
    }

    fn push_bars(&self, col: usize, units: &Vec<NestedTabbed<N>>, items: &mut Vec<DrawItem<N>>)
        requires
            self@.wf(),
            col < self@.sections.len(),
            nested_views(units@) == self@.sections[col as int].nested_tabbed(self@.layout()),
            forall|i: int|
                0 <= i < units@.len() ==> unit_of(
                    self@.sections[col as int],
                    (#[trigger] units@[i])@,
                ),
        ensures
            item_views(final(items)@) == item_views(old(items)@) + self@.bar_items(col),
    {
        let ghost section = self@.sections[col as int];
        assert(section == self.sections@[col as int]@);
        assert(section.wf());
        let pos = self.header_pos(col);
        let is_section_active = col == self.props.active_section_idx;
        let ghost before = item_views(items@);
        let is_root_bar = match self.sections[col].root.tab_header() {
            Some(header) => header.is_bar(),
            None => false,
        };
        let own = self.sections[col].is_tabbed() && is_root_bar;
        if own {
            push_item(
                items,
                DrawItem::Bar { section: col, path: Vec::new(), pos, is_active: is_section_active },
            );
            assert(item_views(items@).last().arrow_Bar_path() =~= Seq::<usize>::empty());
        }
        let ghost head = if own {
            seq![
                DrawItemView::Bar {
                    section: col,
                    path: Seq::<usize>::empty(),
                    pos,
                    is_active: is_section_active,
                },
            ]
        } else {
            Seq::empty()
        };
        let ghost views = section.nested_tabbed(self@.layout());
        assert(views.len() == units@.len());
        let mut i: usize = 0;
        assert(item_views(items@) =~= before + (head + self@.nested_bars_upto(col, views, 0)));
        while i < units.len()
            invariant
                i <= units.len(),
                self@.wf(),
                col < self@.sections.len(),
                section == self@.sections[col as int],
                section == self.sections@[col as int]@,
                section.wf(),
                pos == self@.header_pos(col as int),
                is_section_active == (col == self@.props.active_section_idx),
                views == nested_views(units@),
                forall|j: int|
                    0 <= j < units@.len() ==> unit_of(section, (#[trigger] units@[j])@),
                item_views(items@) == before + (head + self@.nested_bars_upto(
                    col,
                    views,
                    i as int,
                )),
            decreases units.len() - i,
        {
            let unit = &units[i];
            assert(views[i as int] == units@[i as int]@);
            assert(unit_of(section, units@[i as int]@));
            let is_bar = match self.sections[col].root.node_at(&unit.path).tab_header() {
                Some(header) => header.is_bar(),
                None => false,
            };
            if unit.visible && is_bar {
                let path = unit.path.clone();
                assert(path@ =~= unit.path@);
                push_item(
                    items,
                    DrawItem::Bar {
                        section: col,
                        path,
                        pos,
                        is_active: is_section_active && unit.active_on_path,
                    },
                );
            }
            assert(item_views(items@) =~= before + (head + self@.nested_bars_upto(
                col,
                views,
                i as int + 1,
            )));
            i = i + 1;
        }
        assert(head + self@.nested_bars_upto(col, views, views.len() as int)
            =~= self@.bar_items(col));
    }

    /// Everything to draw: windows that are fading out, then the sections in their order with
    /// headers above their tiles, then bars of tabs.
    ///
    /// Tiles in a hidden tab are drawn while they change their opacity, so that going in and out
    /// of tabs can be animated.
    pub fn render(&self, focus_ring: bool) -> (r: Vec<DrawItem<N>>)
        requires
            self@.wf(),
        ensures
            item_views(r@) == self@.draw_items(focus_ring),
    {
        let mut items: Vec<DrawItem<N>> = Vec::new();
        assert(item_views(items@) =~= Seq::empty());
        self.push_closing(&mut items);
        let ghost closing = self@.closing_items();
        assert(item_views(items@) =~= closing);
        let order = order_active_first(self.props.active_section_idx, self.sections.len());
        proof {
            lemma_render_order(self@);
        }
        let mut k: usize = 0;
        assert(item_views(items@) =~= closing + self@.items_upto(focus_ring, 0));
        while k < order.len()
            invariant
                k <= order.len(),
                self@.wf(),
                order@ == self@.render_order(),
                forall|i: int|
                    0 <= i < order@.len() ==> (#[trigger] order@[i]) < self@.sections.len(),
                item_views(items@) == closing + self@.items_upto(focus_ring, k as int),
            decreases order.len() - k,
        {
            let col: usize = order[k];
            assert(self@.sections[col as int] == self.sections@[col as int]@);
            assert(self@.sections[col as int].wf());
            let ghost before = item_views(items@);
            let units = self.sections[col].collect_nested_tabbed(&self.options.layout);
            self.push_headers(col, &units, &mut items);
            self.push_tiles(col, focus_ring && k == 0, &mut items);
            assert(item_views(items@) =~= before + self@.section_items(
                col,
                focus_ring && k == 0,
            ));
            assert(item_views(items@) =~= closing + self@.items_upto(focus_ring, k as int + 1));
            k = k + 1;
        }
        let ghost first = closing + self@.items_upto(focus_ring, order@.len() as int);
        let mut col: usize = 0;
        assert(item_views(items@) =~= first + self@.bars_upto(0));
        while col < self.sections.len()
            invariant
                col <= self.sections.len(),
                self@.wf(),
                item_views(items@) == first + self@.bars_upto(col as int),
            decreases self.sections.len() - col,
        {
            assert(self@.sections[col as int] == self.sections@[col as int]@);
            assert(self@.sections[col as int].wf());
            let units = self.sections[col].collect_nested_tabbed(&self.options.layout);
            self.push_bars(col, &units, &mut items);
            assert(item_views(items@) =~= first + self@.bars_upto(col as int + 1));
            col = col + 1;
        }
        items
    }

    fn closing_shift(&self, col: usize, idx: usize) -> (r: N)
        requires
            self@.wf(),
            col < self@.sections.len(),
            idx < self@.sections[col as int].tiles().len(),
        ensures
            r == self@.closing_shift(col as int, idx),
    {
        assert(self@.sections[col as int] == self.sections@[col as int]@);
        assert(self@.sections[col as int].wf());
        if self.sections[col].tiles_len() == 1 {
            return self.section_main_pos(col + 1).sub(self.section_main_pos(col));
        }
        let data = self.sections[col].root.child_data();
        let root_child: usize = self.sections[col].leaf_idx_to_root_child(idx);
        match widest_other(&data, root_child) {
            Some(widest) => self.section_width(col).sub(widest),
            None => N::of_int(0),
        }
    }

    /// Lets a window that is closed fade out where it is, if it is shown. Tells where.
    ///
    /// Its position is kept in the strip of sections, moved along with the sections that close up
    /// behind it.
    pub fn start_close_animation_for_window(&mut self, window: u64) -> (r: Option<
        ClosingWindow<N>,
    >)
        requires
            old(self)@.wf(),
            old(self)@.can_close(window),
        ensures
            r == old(self)@.closing_window(window),
            final(self)@ == (SpaceView {
                closing: match r {
                    Some(closing) => old(self)@.closing.push(closing),
                    None => old(self)@.closing,
                },
                ..old(self)@
            }),
            final(self)@.wf(),
            keeps_windows(old(self)@, final(self)@),
    {
        let col: usize = match self.section_of(window) {
            Some(col) => col,
            None => {
                return None;
            },
        };
        assert(self@.sections[col as int] == self.sections@[col as int]@);
        assert(self@.sections[col as int].wf());
        proof {
            lemma_section_tiles(self@.sections[col as int], self@.layout());
            lemma_visibility_len(self@.sections[col as int].root, true);
        }
        let section = &self.sections[col];
        let idx: usize = match section.position(window) {
            Some(idx) => idx,
            None => {
                return None;
            },
        };
        let tile = section.tile(idx);
        if !section.root.leaf_visibility()[idx] {
            return None;
        }
        let axis = AxisMap::new(self.options.layout.main_axis);
        let offset = section.leaf_positions(&self.options.layout)[idx];
        let pos = self.section_view_pos(col).add(offset).add(tile.render_offset);
        let pos = axis.point_out(pos).add(axis.main_vec(self.view_main_pos()));
        let pos = if col < self.props.active_section_idx {
            pos.add(axis.main_vec(self.closing_shift(col, idx).neg()))
        } else {
            pos
        };
        let closing = ClosingWindow {
            window,
            tile_size: axis.size_out(tile.tile_size),
            tile_pos: pos,
            done: false,
        };
        self.closing_windows.push(closing);
        Some(closing)
    }
}

} // verus!
