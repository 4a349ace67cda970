//! The headers of tabs in a section: what each tab stands for and where headers are.
use vstd::prelude::*;

use crate::axis::AxisMap;
use crate::config::{LayoutOptions, SizingMode};
use crate::geometry::{Point, Rectangle, Size};
use crate::scalar::{num, Scalar};
use crate::section::{axis_of, lemma_section_tiles, Section, SectionView};
use crate::section_edit::lemma_extend;
use crate::section_resize::lemma_with_same_node;
use crate::section_size::{tile_effects, work, Work};
use crate::section_state::lemma_header_only;
use crate::tab_bar::{last_active, TabInfo};
use crate::tab_header::{TabHeader, TabHeaderView};
use crate::tile::{Outbox, TileEffect};
use crate::tile_node::{
    find_path, lemma_position_in_range, path_views, position_of, prefixed, SplitChildData, Tree,
};
use crate::tree_layout::lemma_visibility_len;
use crate::tree_walk::{join_paths, lemma_node_wf, lemma_with_node_wf, path_starts_with};

verus! {

/// What one tab of a tabbing container stands for.
#[derive(Clone, Copy, PartialEq, Eq, Debug)]
pub struct TabChild<N> {
    /// The leaf that stands for the tab: the active one below it.
    pub rep_leaf_idx: usize,
    /// Bounding box of every leaf below the tab.
    pub geometry: Rectangle<N>,
}

/// A tabbing container below the root of a section.
pub struct NestedTabbed<N> {
    /// Path from the root to the container.
    pub path: Vec<usize>,
    /// The rectangle of what is below the container; the header is drawn next to it.
    pub content_area: Rectangle<N>,
    /// Number of tabs.
    pub tab_count: usize,
    pub active_idx: usize,
    /// Whether the container is shown, that is, no tab above hides it.
    pub visible: bool,
    /// Whether the container is on the active path.
    pub active_on_path: bool,
    /// The leaf that stands for each tab.
    pub rep_leaf_idx: Vec<usize>,
}

/// What a [`NestedTabbed`] holds.
#[verifier::ext_equal]
pub ghost struct NestedTabbedView<N> {
    pub path: Seq<usize>,
    pub content_area: Rectangle<N>,
    pub tab_count: usize,
    pub active_idx: usize,
    pub visible: bool,
    pub active_on_path: bool,
    pub rep_leaf_idx: Seq<usize>,
}

impl<N> NestedTabbed<N> {
    pub open spec fn view(&self) -> NestedTabbedView<N> {
        NestedTabbedView {
            path: self.path@,
            content_area: self.content_area,
            tab_count: self.tab_count,
            active_idx: self.active_idx,
            visible: self.visible,
            active_on_path: self.active_on_path,
            rep_leaf_idx: self.rep_leaf_idx@,
        }
    }
}

pub open spec fn nested_views<N>(units: Seq<NestedTabbed<N>>) -> Seq<NestedTabbedView<N>> {
    Seq::new(units.len(), |i: int| units[i]@)
}

/// The edges of a box.
#[derive(Clone, Copy, PartialEq, Eq, Debug)]
pub struct Bounds<N> {
    pub x0: N,
    pub y0: N,
    pub x1: N,
    pub y1: N,
}

impl<N: Scalar> Bounds<N> {
    /// A box around nothing.
    pub open spec fn spec_nothing() -> Self {
        Bounds {
            x0: N::spec_largest(),
            y0: N::spec_largest(),
            x1: N::spec_smallest(),
            y1: N::spec_smallest(),
        }
    }

    /// The box grown to hold a rectangle.
    pub open spec fn spec_with(self, pos: Point<N>, size: Size<N>) -> Self {
        Bounds {
            x0: self.x0.spec_min(pos.x),
            y0: self.y0.spec_min(pos.y),
            x1: self.x1.spec_max(pos.x + size.w),
            y1: self.y1.spec_max(pos.y + size.h),
        }
    }

    pub open spec fn spec_is_nothing(self) -> bool {
        self.x1 < self.x0 || self.y1 < self.y0
    }

    pub open spec fn spec_rect(self) -> Rectangle<N> {
        Rectangle {
            loc: Point { x: self.x0, y: self.y0 },
            size: Size { w: self.x1 - self.x0, h: self.y1 - self.y0 },
        }
    }

    pub fn is_nothing(self) -> (r: bool)
        ensures
            r == self.spec_is_nothing(),
    {
        self.x1.lt(self.x0) || self.y1.lt(self.y0)
    }

    pub fn rect(self) -> (r: Rectangle<N>)
        ensures
            r == self.spec_rect(),
    {
        Rectangle {
            loc: Point { x: self.x0, y: self.y0 },
            size: Size { w: self.x1.sub(self.x0), h: self.y1.sub(self.y0) },
        }
    }
}

/// A rectangle at the origin without extent.
pub open spec fn no_rect<N: Scalar>() -> Rectangle<N> {
    Rectangle { loc: Point::spec_zero(), size: Size::spec_zero() }
}

/// The greatest span of the first `upto` children along the cross axis, at least zero.
pub open spec fn max_cross_upto<N: Scalar>(data: Seq<SplitChildData<N>>, upto: int) -> N
    decreases upto,
{
    if upto <= 0 {
        num::<N>(0)
    } else {
        max_cross_upto(data, upto - 1).spec_max(data[upto - 1].size.h)
    }
}

/// The greatest span of the first `upto` children along the main axis, at least zero.
pub open spec fn max_main_upto<N: Scalar>(data: Seq<SplitChildData<N>>, upto: int) -> N
    decreases upto,
{
    if upto <= 0 {
        num::<N>(0)
    } else {
        max_main_upto(data, upto - 1).spec_max(data[upto - 1].size.w)
    }
}

/// Whether a point is in the band that a header takes next to its content.
pub open spec fn in_header_band<N: Scalar>(
    content: Rectangle<N>,
    header: TabHeaderView<N>,
    tab_count: usize,
    scale: N,
    pos: Point<N>,
) -> bool {
    let extra = header.extra_size(tab_count, scale);
    let offset = header.content_offset(tab_count, scale);
    let full = Rectangle {
        loc: content.loc - offset,
        size: Size { w: content.size.w + extra.w, h: content.size.h + extra.h },
    };
    &&& !(extra.w <= num::<N>(0) && extra.h <= num::<N>(0))
    &&& full.spec_contains(pos)
    &&& !content.spec_contains(pos)
}

pub fn is_in_header_band<N: Scalar>(
    content: Rectangle<N>,
    header: &TabHeader<N>,
    tab_count: usize,
    scale: N,
    pos: Point<N>,
) -> (r: bool)
    ensures
        r == in_header_band(content, header@, tab_count, scale, pos),
{
    let zero = N::of_int(0);
    let extra = header.extra_size(tab_count, scale);
    if extra.w.le(zero) && extra.h.le(zero) {
        return false;
    }
    let offset = header.content_offset(tab_count, scale);
    let full = Rectangle {
        loc: content.loc.sub(offset),
        size: Size { w: content.size.w.add(extra.w), h: content.size.h.add(extra.h) },
    };
    full.contains(pos) && !content.contains(pos)
}

/// The order in which leaves are drawn: the active one first, on top of all others.
pub open spec fn active_first(active: usize, count: int) -> Seq<usize> {
    (if active < count {
        seq![active]
    } else {
        Seq::empty()
    }) + others_upto(active, count)
}

/// The indices below `upto` but one, in order.
pub open spec fn others_upto(active: usize, upto: int) -> Seq<usize>
    decreases upto,
{
    if upto <= 0 {
        Seq::empty()
    } else if upto - 1 == active {
        others_upto(active, upto - 1)
    } else {
        others_upto(active, upto - 1).push((upto - 1) as usize)
    }
}

/// Puts the active one first and keeps the order of the others.
pub fn order_active_first(active: usize, count: usize) -> (r: Vec<usize>)
    ensures
        r@ == active_first(active, count as int),
{
    let mut order: Vec<usize> = Vec::new();
    if active < count {
        order.push(active);
    }
    let ghost head = order@;
    let mut i: usize = 0;
    assert(head + others_upto(active, 0) =~= head);
    while i < count
        invariant
            i <= count,
            order@ == head + others_upto(active, i as int),
        decreases count - i,
    {
        if i != active {
            order.push(i);
        }
        assert(order@ =~= head + others_upto(active, i as int + 1));
        i = i + 1;
    }
    assert(head =~= if active < count {
        seq![active]
    } else {
        Seq::empty()
    });
    order
}

pub proof fn lemma_others(active: usize, upto: int)
    requires
        0 <= upto <= usize::MAX,
    ensures
        others_upto(active, upto).len() == if active < upto {
            upto - 1
        } else {
            upto
        },
        forall|i: int|
            0 <= i < others_upto(active, upto).len() ==> (#[trigger] others_upto(active, upto)[i])
                == if i < active {
                i
            } else {
                i + 1
            },
    decreases upto,
{
    if upto > 0 {
        lemma_others(active, upto - 1);
    }
}

/// Drawing goes over every leaf exactly once, the active one first and the others in order.
pub proof fn law_render_order_is_a_permutation(active: usize, count: int)
    requires
        0 <= count <= usize::MAX,
        active < count,
    ensures
        active_first(active, count).len() == count,
        active_first(active, count)[0] == active,
        active_first(active, count).no_duplicates(),
        forall|i: usize| i < count ==> #[trigger] active_first(active, count).contains(i),
        forall|i: int, j: int|
            1 <= i < j < count ==> #[trigger] active_first(active, count)[i]
                < #[trigger] active_first(active, count)[j],
{
    lemma_others(active, count);
    let order = active_first(active, count);
    assert forall|i: usize| i < count implies #[trigger] order.contains(i) by {
        if i == active {
            assert(order[0] == i);
        } else if i < active {
            assert(order[i + 1] == others_upto(active, count)[i as int]);
            assert(order[i + 1] == i);
        } else {
            assert(order[i as int] == others_upto(active, count)[i - 1]);
            assert(order[i as int] == i);
        }
    }
}

impl<N: Scalar> Tree<N> {
    /// The tree with another header of the node at the end of a path.
    pub open spec fn with_header_at(self, path: Seq<usize>, header: TabHeaderView<N>) -> Self {
        self.with_node(path, self.node(path).with_header(Some(header)))
    }
}

impl<N: Scalar> SectionView<N> {
    /// The index of the leaf at the end of a path.
    pub open spec fn leaf_at_path(self, path: Seq<usize>) -> usize {
        match position_of(self.root.leaf_paths(), path) {
            Some(i) => i,
            None => 0,
        }
    }

    /// The box around those of the first `upto` leaves that are below a node.
    pub open spec fn bounds_upto(
        self,
        layout: LayoutOptions<N>,
        path: Seq<usize>,
        upto: int,
    ) -> Bounds<N>
        decreases upto,
    {
        if upto <= 0 {
            Bounds::spec_nothing()
        } else {
            let before = self.bounds_upto(layout, path, upto - 1);
            if path.is_prefix_of(self.root.leaf_paths()[upto - 1]) {
                before.spec_with(
                    self.leaf_positions(layout)[upto - 1],
                    self.leaf_size((upto - 1) as usize),
                )
            } else {
                before
            }
        }
    }

    /// The box around all leaves below a node.
    pub open spec fn bounds(self, layout: LayoutOptions<N>, path: Seq<usize>) -> Bounds<N> {
        self.bounds_upto(layout, path, self.tiles().len() as int)
    }

    /// The leaf that stands for a node: the active one below it.
    pub open spec fn rep_leaf(self, path: Seq<usize>) -> usize {
        self.leaf_at_path(path + self.root.node(path).active_path())
    }

    pub open spec fn tab_child(self, layout: LayoutOptions<N>, path: Seq<usize>) -> TabChild<N> {
        let bounds = self.bounds(layout, path);
        TabChild {
            rep_leaf_idx: self.rep_leaf(path),
            geometry: if bounds.spec_is_nothing() {
                no_rect()
            } else {
                bounds.spec_rect()
            },
        }
    }

    /// What the tabs of a container stand for: one for each child.
    pub open spec fn tab_children(self, layout: LayoutOptions<N>, path: Seq<usize>) -> Seq<
        TabChild<N>,
    > {
        Seq::new(
            self.root.node(path).child_count(),
            |i: int| self.tab_child(layout, path.push(i as usize)),
        )
    }

    pub open spec fn tab_infos(self, layout: LayoutOptions<N>, path: Seq<usize>) -> Seq<
        TabInfo<N>,
    > {
        let children = self.tab_children(layout, path);
        Seq::new(
            children.len(),
            |i: int|
                TabInfo {
                    is_active: i == self.root.node(path).active_idx(),
                    is_urgent: self.tiles()[children[i].rep_leaf_idx as int].is_urgent,
                    geometry: children[i].geometry,
                },
        )
    }

    pub open spec fn nested_unit(self, layout: LayoutOptions<N>, path: Seq<usize>)
        -> NestedTabbedView<N> {
        let node = self.root.node(path);
        NestedTabbedView {
            path,
            content_area: self.bounds(layout, path).spec_rect(),
            tab_count: node.child_count() as usize,
            active_idx: node.active_idx(),
            visible: self.root.visibility(true)[self.rep_leaf(path) as int],
            active_on_path: path.is_prefix_of(self.root.active_path()),
            rep_leaf_idx: Seq::new(
                node.child_count(),
                |i: int| self.rep_leaf(path.push(i as usize)),
            ),
        }
    }

    /// The containers at the ends of the first `upto` paths, but for the root and for containers
    /// around nothing.
    pub open spec fn nested_upto(
        self,
        layout: LayoutOptions<N>,
        paths: Seq<Seq<usize>>,
        upto: int,
    ) -> Seq<NestedTabbedView<N>>
        decreases upto,
    {
        if upto <= 0 {
            Seq::empty()
        } else {
            let before = self.nested_upto(layout, paths, upto - 1);
            let path = paths[upto - 1];
            if path.len() == 0 || self.bounds(layout, path).spec_is_nothing() {
                before
            } else {
                before.push(self.nested_unit(layout, path))
            }
        }
    }

    /// All tabbing containers below the root.
    pub open spec fn nested_tabbed(self, layout: LayoutOptions<N>) -> Seq<NestedTabbedView<N>> {
        let paths = self.root.tabbed_paths();
        self.nested_upto(layout, paths, paths.len() as int)
    }

    /// The area whose edge the header of the root is at: as wide as the widest child, or as the
    /// active tile while that is resized, and as tall as the tallest child.
    pub open spec fn tab_indicator_area(self, layout: LayoutOptions<N>) -> Rectangle<N> {
        let data = self.root.child_data();
        let active = axis_of(layout).spec_size(self.root.active_leaf().animated_tile_size);
        Rectangle {
            loc: self.tiles_origin(layout),
            size: Size {
                w: active.w.spec_max(max_main_upto(data, data.len() as int)),
                h: max_cross_upto(data, data.len() as int),
            },
        }
    }

    /// The deepest of the first `upto` nested containers whose header is at a position, and the
    /// leaf to drop on; or else the root.
    pub open spec fn band_upto(
        self,
        layout: LayoutOptions<N>,
        pos: Point<N>,
        units: Seq<NestedTabbedView<N>>,
        upto: int,
    ) -> Option<(int, usize)>
        decreases upto,
    {
        if upto <= 0 {
            if self.root.is_tabbed() && in_header_band(
                self.tab_indicator_area(layout),
                self.root.header()->0,
                self.root.child_count() as usize,
                self.props.scale,
                pos,
            ) {
                Some((0, self.active_leaf_idx()))
            } else {
                None
            }
        } else {
            let best = self.band_upto(layout, pos, units, upto - 1);
            let unit = units[upto - 1];
            let header = self.root.node(unit.path).header();
            let is_over = unit.visible && header is Some && in_header_band(
                unit.content_area,
                header->0,
                unit.tab_count,
                self.props.scale,
                pos,
            );
            let deeper = match best {
                Some((depth, _)) => unit.path.len() >= depth,
                None => true,
            };
            if is_over && deeper {
                Some((unit.path.len() as int, unit.rep_leaf_idx[unit.active_idx as int]))
            } else {
                best
            }
        }
    }

    /// The leaf to group a window with that is dropped on a header at a position.
    pub open spec fn header_band_target(self, layout: LayoutOptions<N>, pos: Point<N>) -> Option<
        usize,
    > {
        let units = self.nested_tabbed(layout);
        match self.band_upto(layout, pos, units, units.len() as int) {
            Some((_, leaf)) => Some(leaf),
            None => None,
        }
    }

    /// The section after the header of its root was laid out anew.
    pub open spec fn with_root_header_updated(
        self,
        layout: LayoutOptions<N>,
        is_active: bool,
        view_rect: Rectangle<N>,
    ) -> Self {
        match self.root.header() {
            Some(header) => self.with_root(
                self.root.with_header(
                    Some(
                        header.updated(
                            self.root.is_tabbed() && self.sizing_mode() == SizingMode::Normal,
                            self.tab_indicator_area(layout),
                            view_rect,
                            self.root.child_count() as usize,
                            self.tab_infos(layout, Seq::empty()),
                            is_active,
                            self.props.scale,
                        ),
                    ),
                ),
            ),
            None => self,
        }
    }

    /// The section after the headers of the first `upto` nested containers were laid out anew.
    pub open spec fn with_nested_updated(
        self,
        layout: LayoutOptions<N>,
        is_active: bool,
        view_rect: Rectangle<N>,
        units: Seq<NestedTabbedView<N>>,
        upto: int,
    ) -> Self
        decreases upto,
    {
        if upto <= 0 {
            self
        } else {
            let before = self.with_nested_updated(layout, is_active, view_rect, units, upto - 1);
            let unit = units[upto - 1];
            match before.root.node(unit.path).header() {
                Some(header) => before.with_root(
                    before.root.with_header_at(
                        unit.path,
                        header.updated(
                            unit.visible && self.sizing_mode() == SizingMode::Normal,
                            unit.content_area,
                            view_rect,
                            unit.tab_count,
                            before.tab_infos(layout, unit.path),
                            is_active && unit.active_on_path,
                            self.props.scale,
                        ),
                    ),
                ),
                None => before,
            }
        }
    }

    /// The tiles, where they are and whether they are shown, in the order they are drawn.
    pub open spec fn render_tiles(self, layout: LayoutOptions<N>) -> Seq<
        (crate::tile::Tile<N>, Point<N>, bool),
    > {
        let order = active_first(self.active_leaf_idx(), self.tiles().len() as int);
        Seq::new(
            order.len(),
            |i: int|
                (
                    self.tiles()[order[i] as int],
                    self.leaf_positions(layout)[order[i] as int],
                    self.root.visibility(true)[order[i] as int],
                ),
        )
    }

    /// What the tile `i` is told when everything is drawn anew.
    pub open spec fn render_effect(
        self,
        layout: LayoutOptions<N>,
        is_active: bool,
        view_rect: Rectangle<N>,
        i: int,
    ) -> TileEffect<N> {
        TileEffect::UpdateRenderElements {
            is_active: is_active && i == self.active_leaf_idx(),
            view_loc: view_rect.loc - (self.leaf_positions(layout)[i]
                + self.tiles()[i].render_offset),
            view_size: view_rect.size,
        }
    }
}

impl<N: Scalar> Work<N> {
    #[verifier::opaque]
    pub open spec fn update_render_elements(
        self,
        layout: LayoutOptions<N>,
        is_active: bool,
        view_rect: Rectangle<N>,
    ) -> Self {
        let section = self.section;
        let asked = self.push_seq(
            tile_effects(
                section.tiles(),
                |i: int| section.render_effect(layout, is_active, view_rect, i),
            ),
        );
        let with_root = section.with_root_header_updated(layout, is_active, view_rect);
        let units = with_root.nested_tabbed(layout);
        asked.with_section(
            with_root.with_nested_updated(
                layout,
                is_active,
                view_rect,
                units,
                units.len() as int,
            ),
        )
    }
}

/// Where exactly one tab is active, that one is found.
proof fn lemma_last_active<N>(tabs: Seq<TabInfo<N>>, active: usize, upto: int, previous: usize)
    requires
        active < upto <= tabs.len() <= usize::MAX,
        forall|i: int| 0 <= i < tabs.len() ==> (#[trigger] tabs[i]).is_active == (i == active),
    ensures
        last_active(tabs, upto, previous) == active,
    decreases upto,
{
    if active < upto - 1 {
        lemma_last_active(tabs, active, upto - 1, previous);
    }
}

/// The headers of a tree do not change what else is at a path.
pub proof fn lemma_header_at<N: Scalar>(
    tree: Tree<N>,
    path: Seq<usize>,
    header: TabHeaderView<N>,
    other: Seq<usize>,
)
    requires
        tree.has_path(path),
    ensures
        tree.with_header_at(path, header).has_path(other) == tree.has_path(other),
        tree.has_path(other) ==> {
            let a = tree.with_header_at(path, header).node(other);
            let b = tree.node(other);
            &&& a.child_count() == b.child_count()
            &&& a.active_idx() == b.active_idx()
            &&& a.layout() == b.layout()
        },
    decreases path.len(),
{
    if path.len() > 0 && other.len() > 0 {
        let c = path[0];
        let child = tree->children[c as int];
        let new = tree.with_header_at(path, header);
        assert(new->children[c as int] == child.with_header_at(path.skip(1), header));
        if other[0] == c {
            lemma_header_at(child, path.skip(1), header, other.skip(1));
        } else if tree.has_path(other) || new.has_path(other) {
            assert(new->children[other[0] as int] == tree->children[other[0] as int]);
        }
    }
}

/// Another header below the root keeps a section in order, with the same tiles.
proof fn lemma_section_header_at<N: Scalar>(
    section: SectionView<N>,
    path: Seq<usize>,
    header: TabHeaderView<N>,
)
    requires
        section.wf(),
        section.root.has_path(path),
        path.len() > 0,
    ensures
        section.with_root(section.root.with_header_at(path, header)).wf(),
        section.with_root(section.root.with_header_at(path, header)).tiles() == section.tiles(),
        section.with_root(section.root.with_header_at(path, header)).root.leaf_paths()
            == section.root.leaf_paths(),
{
    let node = section.root.node(path);
    lemma_node_wf(section.root, path);
    lemma_header_only(node, Some(header));
    lemma_with_node_wf(section.root, path, node.with_header(Some(header)));
    lemma_with_same_node(section.root, path, node.with_header(Some(header)));
}

/// The paths of tabbing containers lead to them.
pub proof fn lemma_tabbed_paths<N: Scalar>(tree: Tree<N>)
    requires
        tree.wf(),
    ensures
        forall|i: int|
            0 <= i < tree.tabbed_paths().len() ==> tree.has_path(
                #[trigger] tree.tabbed_paths()[i],
            ) && tree.node(tree.tabbed_paths()[i]).is_tabbed(),
    decreases tree, 0int,
{
    if let Tree::Internal { layout, children, .. } = tree {
        let n = children.len() as int;
        lemma_forest_tabbed_paths(children, n);
        let forest = Tree::forest_tabbed_paths(children, n);
        let all = tree.tabbed_paths();
        assert forall|i: int| 0 <= i < all.len() implies tree.has_path(#[trigger] all[i])
            && tree.node(all[i]).is_tabbed() by {
            let own: int = if layout.spec_is_tabbing() {
                1
            } else {
                0
            };
            if i < own {
                assert(all[i] == Seq::<usize>::empty());
            } else {
                assert(all[i] == forest[i - own]);
                let p = all[i];
                assert(p.len() > 0 && p[0] < n);
                let child = children[p[0] as int];
                assert(child.has_path(p.skip(1)) && child.node(p.skip(1)).is_tabbed());
            }
        }
    }
}

proof fn lemma_forest_tabbed_paths<N: Scalar>(children: Seq<Tree<N>>, upto: int)
    requires
        0 <= upto <= children.len() <= usize::MAX,
        forall|i: int| 0 <= i < children.len() ==> (#[trigger] children[i]).wf(),
    ensures
        forall|i: int|
            0 <= i < Tree::forest_tabbed_paths(children, upto).len() ==> {
                let p = #[trigger] Tree::forest_tabbed_paths(children, upto)[i];
                &&& p.len() > 0
                &&& p[0] < upto
                &&& children[p[0] as int].has_path(p.skip(1))
                &&& children[p[0] as int].node(p.skip(1)).is_tabbed()
            },
    decreases children, upto,
{
    if 0 < upto {
        lemma_forest_tabbed_paths(children, upto - 1);
        let child = children[upto - 1];
        lemma_tabbed_paths(child);
        let before = Tree::forest_tabbed_paths(children, upto - 1);
        let own = prefixed((upto - 1) as usize, child.tabbed_paths());
        let all = Tree::forest_tabbed_paths(children, upto);
        assert(all == before + own);
        assert forall|i: int| 0 <= i < all.len() implies {
            let p = #[trigger] all[i];
            &&& p.len() > 0
            &&& p[0] < upto
            &&& children[p[0] as int].has_path(p.skip(1))
            &&& children[p[0] as int].node(p.skip(1)).is_tabbed()
        } by {
            if i < before.len() {
                assert(all[i] == before[i]);
            } else {
                let below = child.tabbed_paths()[i - before.len()];
                assert(all[i] == seq![(upto - 1) as usize] + below);
                assert(all[i].skip(1) =~= below);
            }
        }
    }
}

/// What is known of nested containers.
pub open spec fn unit_of<N: Scalar>(section: SectionView<N>, unit: NestedTabbedView<N>) -> bool {
    &&& unit.path.len() > 0
    &&& section.root.has_path(unit.path)
    &&& section.root.node(unit.path) is Internal
    &&& section.root.node(unit.path).is_tabbed()
    &&& unit.tab_count == section.root.node(unit.path).child_count()
    &&& unit.active_idx == section.root.node(unit.path).active_idx()
    &&& unit.active_idx < unit.tab_count
    &&& unit.rep_leaf_idx.len() == unit.tab_count
    &&& forall|i: int|
        0 <= i < unit.rep_leaf_idx.len() ==> (#[trigger] unit.rep_leaf_idx[i])
            < section.tiles().len()
}

/// The leaf that stands for a node is one of the leaves.
proof fn lemma_rep_leaf<N: Scalar>(section: SectionView<N>, path: Seq<usize>)
    requires
        section.wf(),
    ensures
        section.rep_leaf(path) < section.tiles().len(),
{
    crate::tree_walk::lemma_wf_is_sane(section.root);
    crate::tree_walk::lemma_leaf_paths(section.root);
    crate::tree_walk::lemma_has_leaf(section.root);
    lemma_position_in_range(
        section.root.leaf_paths(),
        path + section.root.node(path).active_path(),
        section.root.leaf_paths().len() as int,
    );
}

proof fn lemma_unit<N: Scalar>(
    section: SectionView<N>,
    layout: LayoutOptions<N>,
    path: Seq<usize>,
)
    requires
        section.wf(),
        section.root.has_path(path),
        section.root.node(path).is_tabbed(),
        path.len() > 0,
    ensures
        unit_of(section, section.nested_unit(layout, path)),
{
    lemma_node_wf(section.root, path);
    let unit = section.nested_unit(layout, path);
    assert forall|i: int| 0 <= i < unit.rep_leaf_idx.len() implies (#[trigger] unit.rep_leaf_idx[i])
        < section.tiles().len() by {
        lemma_rep_leaf(section, path.push(i as usize));
    }
}

impl<N: Scalar> Section<N> {
    fn leaf_at_path(&self, path: &Vec<usize>) -> (r: usize)
        requires
            self@.wf(),
        ensures
            r == self@.leaf_at_path(path@),
    {
        let paths = self.root.leaf_paths();
        match find_path(&paths, path) {
            Some(i) => i,
            None => 0,
        }
    }

    fn rep_leaf(&self, path: &Vec<usize>) -> (r: usize)
        requires
            self@.wf(),
            self@.root.has_path(path@),
        ensures
            r == self@.rep_leaf(path@),
            r < self@.tiles().len(),
    {
        proof {
            lemma_rep_leaf(self@, path@);
        }
        let below = self.root.node_at(path).active_path();
        let full = join_paths(path, &below);
        self.leaf_at_path(&full)
    }

    fn bounds(&self, layout: &LayoutOptions<N>, path: &Vec<usize>) -> (r: Bounds<N>)
        requires
            self@.wf(),
        ensures
            r == self@.bounds(*layout, path@),
    {
        let paths = self.root.leaf_paths();
        let positions = self.leaf_positions(layout);
        let mut bounds = Bounds {
            x0: N::largest(),
            y0: N::largest(),
            x1: N::smallest(),
            y1: N::smallest(),
        };
        proof {
            lemma_section_tiles(self@, *layout);
            assert(path_views(paths@).len() == paths@.len());
        }
        let mut i: usize = 0;
        while i < paths.len()
            invariant
                i <= paths.len(),
                self@.wf(),
                paths.len() == self@.tiles().len(),
                positions@ == self@.leaf_positions(*layout),
                positions.len() == paths.len(),
                path_views(paths@) == self@.root.leaf_paths(),
                bounds == self@.bounds_upto(*layout, path@, i as int),
            decreases paths.len() - i,
        {
            assert(path_views(paths@)[i as int] == paths@[i as int]@);
            if path_starts_with(&paths[i], path) {
                let pos = positions[i];
                let size = self.leaf_size(i);
                bounds = Bounds {
                    x0: bounds.x0.min(pos.x),
                    y0: bounds.y0.min(pos.y),
                    x1: bounds.x1.max(pos.x.add(size.w)),
                    y1: bounds.y1.max(pos.y.add(size.h)),
                };
            }
            i = i + 1;
        }
        bounds
    }

    /// What the tabs of a tabbing container stand for: one for each child.
    ///
    /// A tab over a group of windows has the extent of the whole group, and its active window
    /// stands for it.
    pub fn tab_children(&self, layout: &LayoutOptions<N>, path: &Vec<usize>) -> (r: Vec<
        TabChild<N>,
    >)
        requires
            self@.wf(),
            self@.root.has_path(path@),
        ensures
            r@ == self@.tab_children(*layout, path@),
            forall|i: int|
                0 <= i < r@.len() ==> (#[trigger] r@[i]).rep_leaf_idx < self@.tiles().len(),
    {
        let count: usize = self.root.node_at(path).child_count();
        let mut out: Vec<TabChild<N>> = Vec::new();
        let mut i: usize = 0;
        while i < count
            invariant
                i <= count,
                count == self@.root.node(path@).child_count(),
                self@.wf(),
                self@.root.has_path(path@),
                out.len() == i,
                forall|j: int|
                    0 <= j < i ==> out@[j] == self@.tab_child(*layout, path@.push(j as usize)),
                forall|j: int|
                    0 <= j < i ==> (#[trigger] out@[j]).rep_leaf_idx < self@.tiles().len(),
            decreases count - i,
        {
            let mut child_path = path.clone();
            child_path.push(i);
            proof {
                lemma_extend(self@.root, path@, i);
                assert(child_path@ =~= path@.push(i));
            }
            let bounds = self.bounds(layout, &child_path);
            let geometry = if bounds.is_nothing() {
                Rectangle { loc: Point::zero(), size: Size::zero() }
            } else {
                bounds.rect()
            };
            let rep_leaf_idx = self.rep_leaf(&child_path);
            out.push(TabChild { rep_leaf_idx, geometry });
            i = i + 1;
        }
        assert(out@ =~= self@.tab_children(*layout, path@));
        out
    }

    pub fn tab_infos(&self, layout: &LayoutOptions<N>, path: &Vec<usize>) -> (r: Vec<TabInfo<N>>)
        requires
            self@.wf(),
            self@.root.has_path(path@),
        ensures
            r@ == self@.tab_infos(*layout, path@),
    {
        let children = self.tab_children(layout, path);
        let tiles = self.tiles();
        let active: usize = self.root.node_at(path).active_idx();
        let mut infos: Vec<TabInfo<N>> = Vec::new();
        let ghost expected = self@.tab_infos(*layout, path@);
        let mut i: usize = 0;
        while i < children.len()
            invariant
                i <= children.len(),
                children@ == self@.tab_children(*layout, path@),
                expected == self@.tab_infos(*layout, path@),
                tiles@ == self@.tiles(),
                active == self@.root.node(path@).active_idx(),
                infos.len() == i,
                forall|j: int|
                    0 <= j < children@.len() ==> (#[trigger] children@[j]).rep_leaf_idx
                        < tiles@.len(),
                forall|j: int| 0 <= j < i ==> infos@[j] == expected[j],
            decreases children.len() - i,
        {
            let child = children[i];
            infos.push(
                TabInfo {
                    is_active: i == active,
                    is_urgent: tiles[child.rep_leaf_idx].is_urgent,
                    geometry: child.geometry,
                },
            );
            i = i + 1;
        }
        assert(infos@ =~= expected);
        infos
    }

    /// All tabbing containers below the root, which are drawn and hit like sections with tabs.
    pub fn collect_nested_tabbed(&self, layout: &LayoutOptions<N>) -> (r: Vec<NestedTabbed<N>>)
        requires
            self@.wf(),
        ensures
            nested_views(r@) == self@.nested_tabbed(*layout),
            forall|i: int| 0 <= i < r@.len() ==> unit_of(self@, (#[trigger] r@[i])@),
    {
        let paths = self.root.tabbed_paths();
        let ghost all = self@.root.tabbed_paths();
        let visibility = self.root.leaf_visibility();
        let active_path = self.root.active_path();
        proof {
            lemma_tabbed_paths(self@.root);
            lemma_visibility_len(self@.root, true);
            assert(all.len() == paths.len());
        }
        let mut out: Vec<NestedTabbed<N>> = Vec::new();
        let mut k: usize = 0;
        assert(nested_views(out@) =~= Seq::empty());
        while k < paths.len()
            invariant
                k <= paths.len(),
                self@.wf(),
                all == self@.root.tabbed_paths(),
                path_views(paths@) == all,
                visibility@ == self@.root.visibility(true),
                visibility@.len() == self@.tiles().len(),
                active_path@ == self@.root.active_path(),
                forall|i: int|
                    0 <= i < all.len() ==> self@.root.has_path(#[trigger] all[i])
                        && self@.root.node(all[i]).is_tabbed(),
                nested_views(out@) == self@.nested_upto(*layout, all, k as int),
                forall|i: int| 0 <= i < out@.len() ==> unit_of(self@, (#[trigger] out@[i])@),
            decreases paths.len() - k,
        {
            assert(all[k as int] == paths@[k as int]@);
            let path = paths[k].clone();
            assert(path@ =~= all[k as int]);
            if path.len() > 0 {
                let bounds = self.bounds(layout, &path);
                if !bounds.is_nothing() {
                    proof {
                        lemma_unit(self@, *layout, path@);
                    }
                    let node = self.root.node_at(&path);
                    let tab_count: usize = node.child_count();
                    let active_idx: usize = node.active_idx();
                    let ghost unit = self@.nested_unit(*layout, path@);
                    let mut rep_leaf_idx: Vec<usize> = Vec::new();
                    let mut i: usize = 0;
                    while i < tab_count
                        invariant
                            i <= tab_count,
                            self@.wf(),
                            self@.root.has_path(path@),
                            tab_count == self@.root.node(path@).child_count(),
                            rep_leaf_idx.len() == i,
                            forall|j: int|
                                0 <= j < i ==> rep_leaf_idx@[j] == self@.rep_leaf(
                                    path@.push(j as usize),
                                ),
                        decreases tab_count - i,
                    {
                        let mut child_path = path.clone();
                        child_path.push(i);
                        proof {
                            lemma_extend(self@.root, path@, i);
                            assert(child_path@ =~= path@.push(i));
                        }
                        rep_leaf_idx.push(self.rep_leaf(&child_path));
                        i = i + 1;
                    }
                    assert(rep_leaf_idx@ =~= unit.rep_leaf_idx);
                    let visible = visibility[self.rep_leaf(&path)];
                    let active_on_path = path_starts_with(&active_path, &path);
                    let ghost before = out@;
                    let found = NestedTabbed {
                        path,
                        content_area: bounds.rect(),
                        tab_count,
                        active_idx,
                        visible,
                        active_on_path,
                        rep_leaf_idx,
                    };
                    assert(found@ == unit);
                    out.push(found);
                    proof {
                        assert(nested_views(out@) =~= nested_views(before).push(unit));
                        assert forall|j: int| 0 <= j < out@.len() implies unit_of(
                            self@,
                            (#[trigger] out@[j])@,
                        ) by {
                            if j < before.len() {
                                assert(out@[j] == before[j]);
                            }
                        }
                    }
                }
            }
            k = k + 1;
        }
        out
    }

    pub fn tab_indicator_area(&self, layout: &LayoutOptions<N>) -> (r: Rectangle<N>)
        requires
            self@.wf(),
        ensures
            r == self@.tab_indicator_area(*layout),
    {
        let data = self.root.child_data();
        let mut max_cross = N::of_int(0);
        let mut max_main = N::of_int(0);
        let mut i: usize = 0;
        while i < data.len()
            invariant
                i <= data.len(),
                max_cross == max_cross_upto(data@, i as int),
                max_main == max_main_upto(data@, i as int),
            decreases data.len() - i,
        {
            max_cross = max_cross.max(data[i].size.h);
            max_main = max_main.max(data[i].size.w);
            i = i + 1;
        }
        let tile = self.active_tile();
        let active = AxisMap::new(layout.main_axis).size_in(tile.animated_tile_size);
        Rectangle {
            loc: self.tiles_origin(layout),
            size: Size { w: active.w.max(max_main), h: max_cross },
        }
    }

    /// The leaf to group a dropped window with, where it is dropped on a header. The header of the
    /// innermost container wins.
    pub fn header_band_target(&self, layout: &LayoutOptions<N>, pos: Point<N>) -> (r: Option<usize>)
        requires
            self@.wf(),
        ensures
            r == self@.header_band_target(*layout, pos),
            r matches Some(leaf) ==> leaf < self@.tiles().len(),
    {
        let scale = self.props.scale;
        let mut best: Option<(usize, usize)> = None;
        if self.is_tabbed() {
            if let Some(header) = self.root.tab_header() {
                if is_in_header_band(
                    self.tab_indicator_area(layout),
                    header,
                    self.root.child_count(),
                    scale,
                    pos,
                ) {
                    best = Some((0, self.active_leaf_idx()));
                }
            }
        }
        let units = self.collect_nested_tabbed(layout);
        let ghost views = self@.nested_tabbed(*layout);
        let mut i: usize = 0;
        assert(views.len() == units@.len());
        while i < units.len()
            invariant
                i <= units.len(),
                self@.wf(),
                scale == self@.props.scale,
                views == nested_views(units@),
                forall|j: int| 0 <= j < units@.len() ==> unit_of(self@, (#[trigger] units@[j])@),
                match best {
                    Some((depth, leaf)) => self@.band_upto(*layout, pos, views, i as int) == Some(
                        (depth as int, leaf),
                    ) && leaf < self@.tiles().len(),
                    None => self@.band_upto(*layout, pos, views, i as int) is None,
                },
            decreases units.len() - i,
        {
            let unit = &units[i];
            assert(views[i as int] == units@[i as int]@);
            assert(unit_of(self@, units@[i as int]@));
            if unit.visible {
                if let Some(header) = self.root.node_at(&unit.path).tab_header() {
                    if is_in_header_band(unit.content_area, header, unit.tab_count, scale, pos) {
                        let depth: usize = unit.path.len();
                        let deeper = match best {
                            Some((other, _)) => depth >= other,
                            None => true,
                        };
                        if deeper {
                            best = Some((depth, unit.rep_leaf_idx[unit.active_idx]));
                        }
                    }
                }
            }
            i = i + 1;
        }
        match best {
            Some((_, leaf)) => Some(leaf),
            None => None,
        }
    }

    /// The tiles, where they are and whether they are shown, in the order they are drawn: the
    /// active one first, on top of all others.
    pub fn tiles_in_render_order(&self, layout: &LayoutOptions<N>) -> (r: Vec<
        (crate::tile::Tile<N>, Point<N>, bool),
    >)
        requires
            self@.wf(),
        ensures
            r@ == self@.render_tiles(*layout),
    {
        let tiles = self.tiles();
        let positions = self.leaf_positions(layout);
        let visibility = self.root.leaf_visibility();
        let active: usize = self.active_leaf_idx();
        let order = order_active_first(active, tiles.len());
        proof {
            lemma_visibility_len(self@.root, true);
            lemma_others(active, tiles@.len() as int);
        }
        let mut out: Vec<(crate::tile::Tile<N>, Point<N>, bool)> = Vec::new();
        let mut i: usize = 0;
        while i < order.len()
            invariant
                i <= order.len(),
                tiles@ == self@.tiles(),
                positions@ == self@.leaf_positions(*layout),
                positions.len() == tiles.len(),
                visibility@ == self@.root.visibility(true),
                visibility.len() == tiles.len(),
                active < tiles.len(),
                order@ == active_first(active, tiles@.len() as int),
                order@.len() == tiles@.len(),
                forall|j: int| 0 <= j < order@.len() ==> (#[trigger] order@[j]) < tiles@.len(),
                out.len() == i,
                forall|j: int|
                    0 <= j < i ==> out@[j] == (
                        tiles@[order@[j] as int],
                        positions@[order@[j] as int],
                        visibility@[order@[j] as int],
                    ),
            decreases order.len() - i,
        {
            let idx: usize = order[i];
            out.push((tiles[idx], positions[idx], visibility[idx]));
            i = i + 1;
        }
        assert(out@ =~= self@.render_tiles(*layout));
        out
    }

    fn update_root_header(
        &mut self,
        layout: &LayoutOptions<N>,
        is_active: bool,
        view_rect: Rectangle<N>,
    )
        requires
            old(self)@.wf(),
        ensures
            final(self)@ == old(self)@.with_root_header_updated(*layout, is_active, view_rect),
            final(self)@.wf(),
            final(self)@.place() == old(self)@.place(),
            final(self)@.tiles() == old(self)@.tiles(),
    {
        let ghost before = self@;
        if self.root.tab_header().is_none() {
            return;
        }
        let top: Vec<usize> = Vec::new();
        let infos = self.tab_infos(layout, &top);
        assert(top@ =~= Seq::empty());
        let enabled = self.is_tabbed() && self.sizing_mode().is_normal();
        let area = self.tab_indicator_area(layout);
        let tab_count: usize = self.root.child_count();
        let scale = self.props.scale;
        proof {
            let active = before.root.active_idx();
            assert forall|p: usize| #[trigger] last_active(infos@, tab_count as int, p)
                == active by {
                lemma_last_active(infos@, active, tab_count as int, p);
            }
        }
        if let Some(header) = self.root.take_header() {
            let mut header = header;
            proof {
                lemma_header_only(
                    before.root,
                    Some(
                        header@.updated(enabled, area, view_rect, tab_count, infos@, is_active, scale),
                    ),
                );
            }
            header.update_render_elements(
                enabled,
                area,
                view_rect,
                tab_count,
                infos,
                is_active,
                scale,
            );
            self.root.set_header(Some(header));
        }
    }

    fn update_nested_header(
        &mut self,
        layout: &LayoutOptions<N>,
        is_active: bool,
        view_rect: Rectangle<N>,
        unit: &NestedTabbed<N>,
        normal: bool,
    )
        requires
            old(self)@.wf(),
            unit_of(old(self)@, unit@),
        ensures
            final(self)@ == old(self)@.with_root(
                old(self)@.root.with_header_at(
                    unit.path@,
                    old(self)@.root.node(unit.path@).header()->0.updated(
                        unit.visible && normal,
                        unit.content_area,
                        view_rect,
                        unit.tab_count,
                        old(self)@.tab_infos(*layout, unit.path@),
                        is_active && unit.active_on_path,
                        old(self)@.props.scale,
                    ),
                ),
            ),
            final(self)@.wf(),
            final(self)@.place() == old(self)@.place(),
            final(self)@.tiles() == old(self)@.tiles(),
    {
        let ghost before = self@;
        let infos = self.tab_infos(layout, &unit.path);
        let scale = self.props.scale;
        let tab_count: usize = unit.tab_count;
        proof {
            let active = unit.active_idx;
            assert forall|p: usize| #[trigger] last_active(infos@, tab_count as int, p)
                == active by {
                lemma_last_active(infos@, active, tab_count as int, p);
            }
            lemma_node_wf(before.root, unit.path@);
        }
        let node = self.root.node_at_mut(&unit.path);
        if let Some(header) = node.take_header() {
            let mut header = header;
            let ghost new_header = header@.updated(
                unit.visible && normal,
                unit.content_area,
                view_rect,
                tab_count,
                infos@,
                is_active && unit.active_on_path,
                scale,
            );
            header.update_render_elements(
                unit.visible && normal,
                unit.content_area,
                view_rect,
                tab_count,
                infos,
                is_active && unit.active_on_path,
                scale,
            );
            node.set_header(Some(header));
            proof {
                lemma_section_header_at(before, unit.path@, new_header);
            }
        }
    }

    /// Tells the tiles and headers of the section how they are seen.
    pub fn update_render_elements(
        &mut self,
        layout: &LayoutOptions<N>,
        is_active: bool,
        view_rect: Rectangle<N>,
        out: &mut Outbox<N>,
    )
        requires
            old(self)@.wf(),
        ensures
            work(final(self)@, final(out)@) == work(old(self)@, old(out)@).update_render_elements(
                *layout,
                is_active,
                view_rect,
            ),
            final(self)@.wf(),
            final(self)@.place() == old(self)@.place(),
            final(self)@.tiles() == old(self)@.tiles(),
    {
        proof {
            reveal(Work::update_render_elements);
        }
        let ghost before = self@;
        let ghost out_before = out@;
        let tiles = self.tiles();
        let positions = self.leaf_positions(layout);
        let active: usize = self.active_leaf_idx();
        let ghost effect_of = |i: int| before.render_effect(*layout, is_active, view_rect, i);
        let ghost effects = tile_effects(tiles@, effect_of);
        let mut i: usize = 0;
        assert(out_before.effects + effects.take(0) =~= out_before.effects);
        while i < tiles.len()
            invariant
                i <= tiles.len(),
                tiles@ == before.tiles(),
                positions@ == before.leaf_positions(*layout),
                positions.len() == tiles.len(),
                active == before.active_leaf_idx(),
                effects == tile_effects(tiles@, effect_of),
                effects.len() == tiles.len(),
                effect_of == |j: int| before.render_effect(*layout, is_active, view_rect, j),
                out@.effects == out_before.effects + effects.take(i as int),
                out@.transactions == out_before.transactions,
            decreases tiles.len() - i,
        {
            let tile = tiles[i];
            let view_loc = view_rect.loc.sub(positions[i].add(tile.render_offset));
            out.push(
                tile.id,
                TileEffect::UpdateRenderElements {
                    is_active: is_active && i == active,
                    view_loc,
                    view_size: view_rect.size,
                },
            );
            assert(effects[i as int] == (tiles@[i as int].id, effect_of(i as int)));
            assert(out@.effects =~= out_before.effects + effects.take(i + 1));
            i = i + 1;
        }
        assert(effects.take(i as int) =~= effects);
        self.update_root_header(layout, is_active, view_rect);
        let ghost with_root = self@;
        let normal = self.sizing_mode().is_normal();
        let units = self.collect_nested_tabbed(layout);
        let ghost views = with_root.nested_tabbed(*layout);
        assert(views.len() == units@.len());
        i = 0;
        while i < units.len()
            invariant
                i <= units.len(),
                self@.wf(),
                self@.tiles() == with_root.tiles(),
                self@.props == with_root.props,
                normal == (with_root.sizing_mode() == SizingMode::Normal),
                views == nested_views(units@),
                forall|j: int| 0 <= j < units@.len() ==> unit_of(self@, (#[trigger] units@[j])@),
                self@ == with_root.with_nested_updated(
                    *layout,
                    is_active,
                    view_rect,
                    views,
                    i as int,
                ),
            decreases units.len() - i,
        {
            let unit = &units[i];
            assert(views[i as int] == units@[i as int]@);
            assert(unit_of(self@, units@[i as int]@));
            let ghost prev = self@;
            proof {
                lemma_node_wf(prev.root, unit.path@);
            }
            self.update_nested_header(layout, is_active, view_rect, unit, normal);
            proof {
                let header = prev.root.node(unit.path@).header()->0.updated(
                    unit.visible && normal,
                    unit.content_area,
                    view_rect,
                    unit.tab_count,
                    prev.tab_infos(*layout, unit.path@),
                    is_active && unit.active_on_path,
                    prev.props.scale,
                );
                assert forall|j: int| 0 <= j < units@.len() implies unit_of(
                    self@,
                    (#[trigger] units@[j])@,
                ) by {
                    lemma_header_at(prev.root, unit.path@, header, units@[j]@.path);
                }
            }
            i = i + 1;
        }
    }
}

} // verus!
