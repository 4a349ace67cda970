//! Telling whether a section keeps what its operations are to keep.
use vstd::prelude::*;

use crate::axis::AxisMap;
use crate::config::{Options, SizingMode};
use crate::geometry::Size;
use crate::scalar::{num, Scalar};
use crate::section::{axis_of, Section, SectionView};
use crate::tile::Tile;
use crate::tile_node::{forest_view, ChildSpan, SplitChildData, TileNode, Tree};

verus! {

/// The span along the cross axis that a tile has for a size that was requested of its window.
pub open spec fn requested_cross_span<N: Scalar>(
    tile: Tile<N>,
    requested_size: Size<N>,
    axis: AxisMap,
) -> N {
    tile.with_border(axis.spec_size(requested_size).h)
}

pub open spec fn least_cross_span<N: Scalar>(tile: Tile<N>, axis: AxisMap) -> N {
    num::<N>(1).spec_max(axis.spec_size(tile.min_size_nonfullscreen).h)
}

/// The sum of what the tiles among the first `upto` children were asked to have, where they were
/// asked.
pub open spec fn requested_sum<N: Scalar>(children: Seq<Tree<N>>, axis: AxisMap, upto: int) -> N
    decreases upto,
{
    if upto <= 0 {
        num::<N>(0)
    } else {
        let before = requested_sum(children, axis, upto - 1);
        match children[upto - 1] {
            Tree::Leaf(tile) => match tile.requested_size {
                Some(size) => before + requested_cross_span(tile, size, axis),
                None => before,
            },
            _ => before,
        }
    }
}

/// The sum of the least spans of the tiles among the first `upto` children.
pub open spec fn least_sum<N: Scalar>(children: Seq<Tree<N>>, axis: AxisMap, upto: int) -> N
    decreases upto,
{
    if upto <= 0 {
        num::<N>(0)
    } else {
        let before = least_sum(children, axis, upto - 1);
        match children[upto - 1] {
            Tree::Leaf(tile) => before + least_cross_span(tile, axis),
            _ => before,
        }
    }
}

/// Whether the child `i` is a tile of a fixed span.
pub open spec fn is_fixed_tile<N: Scalar>(
    children: Seq<Tree<N>>,
    data: Seq<SplitChildData<N>>,
    i: int,
) -> bool {
    children[i] is Leaf && data[i].span is Fixed
}

impl<N: Scalar> SectionView<N> {
    /// Whether spans are whole, so that they can be summed up without rounding.
    pub open spec fn has_whole_spans(self, options: Options<N>) -> bool {
        let height = self.props.working_area.size.h;
        &&& self.props.scale.spec_round().spec_same(self.props.scale)
        &&& height.spec_round().spec_same(height)
        &&& options.layout.gaps.spec_round().spec_same(options.layout.gaps)
    }

    /// Whether a span together with gaps and headers stays within the working area, or is as small
    /// as it can be.
    pub open spec fn fits_working_area(
        self,
        options: Options<N>,
        requested: N,
        least: N,
        gaps: N,
    ) -> bool {
        let extra = self.extra_size().h;
        requested + gaps + extra <= (least + gaps + extra).spec_max(
            self.props.working_area.size.h,
        )
    }

    /// Whether what is kept of a tile that is a child of the root is right.
    pub open spec fn tile_is_right(
        self,
        options: Options<N>,
        tile: Tile<N>,
        data: SplitChildData<N>,
    ) -> bool {
        let axis = axis_of(options.layout);
        let normal = self.pending_sizing_mode() == SizingMode::Normal;
        &&& self.props.scale.spec_same(tile.scale)
        &&& self.pending_sizing_mode() == tile.pending_sizing_mode
        &&& axis.spec_size(self.props.view_size).spec_same(tile.view_size)
        &&& (!self.root.has_nested_children() && !self.root.is_main_split() && normal) ==> {
            &&& data.size.spec_same(axis.spec_size(tile.tile_size))
            &&& data.interactively_resizing_by_start_edge == tile.resizes_by_start()
        }
        &&& data.span matches ChildSpan::Preset(idx) ==> idx < options.preset_window_heights@.len()
        &&& tile.requested_size is Some
        &&& (!self.root.is_tabbed() && normal && self.has_whole_spans(options))
            ==> self.fits_working_area(
            options,
            requested_cross_span(tile, tile.requested_size->0, axis),
            least_cross_span(tile, axis),
            options.layout.gaps * num::<N>(2),
        )
    }

    /// Whether everything holds that operations on the section are to keep.
    pub open spec fn keeps_invariants(self, options: Options<N>) -> bool {
        let axis = axis_of(options.layout);
        let children = self.root->children;
        let data = self.root.child_data();
        let count = children.len() as int;
        &&& self.root.tidy()
        &&& self.pending_sizing_mode() == SizingMode::Normal || count == 1 || self.root.is_tabbed()
        &&& self.props.preset_width_idx matches Some(idx) ==> idx
            < options.preset_section_widths@.len()
        &&& count == 1 ==> (data[0].span matches ChildSpan::Auto { weight } ==> weight.spec_same(
            num::<N>(1),
        ))
        &&& forall|i: int|
            0 <= i < count && children[i] is Leaf ==> self.tile_is_right(
                options,
                (#[trigger] children[i])->Leaf_0,
                data[i],
            )
        &&& forall|i: int, j: int|
            0 <= i < j < count && #[trigger] is_fixed_tile(children, data, i)
                ==> !#[trigger] is_fixed_tile(children, data, j)
        &&& (!self.root.is_tabbed() && !self.root.is_main_split() && count > 1
            && self.has_whole_spans(options)) ==> self.fits_working_area(
            options,
            requested_sum(children, axis, count),
            least_sum(children, axis, count),
            options.layout.gaps * (num::<N>(count) + num::<N>(1)),
        )
    }
}

impl<N: Scalar> TileNode<N> {
    /// Tells whether no node below this one has less than two children.
    pub fn is_tidy(&self) -> (r: bool)
        ensures
            r == self@.tidy(),
        decreases self,
    {
        match self {
            TileNode::Leaf(_) => true,
            TileNode::Internal { children, .. } => {
                let ghost nodes = self@->children;
                assert(nodes =~= forest_view(children@));
                let mut i: usize = 0;
                while i < children.len()
                    invariant
                        i <= children.len(),
                        *self is Internal,
                        self->children == *children,
                        nodes == self@->children,
                        self@ is Internal,
                        nodes == forest_view(children@),
                        forall|j: int|
                            0 <= j < i ==> (#[trigger] nodes[j]).tidy() && (nodes[j] is Internal
                                ==> nodes[j]->children.len() >= 2),
                    decreases children.len() - i,
                {
                    assert(nodes[i as int] == children@[i as int]@);
                    if !children[i].is_tidy() {
                        assert(!nodes[i as int].tidy());
                        return false;
                    }
                    if !children[i].is_leaf() && children[i].child_count() < 2 {
                        assert(nodes[i as int] is Internal && nodes[i as int]->children.len() < 2);
                        return false;
                    }
                    i = i + 1;
                }
                true
            },
        }
    }
}

impl<N: Scalar> Section<N> {
    fn has_whole_spans(&self, options: &Options<N>) -> (r: bool)
        ensures
            r == self@.has_whole_spans(*options),
    {
        let height = self.props.working_area.size.h;
        self.props.scale.round().same(self.props.scale) && height.round().same(height)
            && options.layout.gaps.round().same(options.layout.gaps)
    }

    fn fits_working_area(&self, options: &Options<N>, requested: N, least: N, gaps: N) -> (r: bool)
        requires
            self@.wf(),
        ensures
            r == self@.fits_working_area(*options, requested, least, gaps),
    {
        let extra = self.extra_size().h;
        let limit = least.add(gaps).add(extra).max(self.props.working_area.size.h);
        requested.add(gaps).add(extra).le(limit)
    }

    fn tile_is_right(&self, options: &Options<N>, tile: &Tile<N>, data: &SplitChildData<N>) -> (r:
        bool)
        requires
            self@.wf(),
        ensures
            r == self@.tile_is_right(*options, *tile, *data),
    {
        let axis = AxisMap::new(options.layout.main_axis);
        let normal = self.pending_sizing_mode().is_normal();
        if !self.props.scale.same(tile.scale) || self.pending_sizing_mode()
            != tile.pending_sizing_mode || !axis.size_out(self.props.view_size).same(
            tile.view_size,
        ) {
            return false;
        }
        if !self.root.has_nested_children() && !self.root.is_main_split() && normal {
            if !data.size.same(axis.size_in(tile.tile_size))
                || data.interactively_resizing_by_start_edge != tile.is_resized_by_start() {
                return false;
            }
        }
        if let ChildSpan::Preset(idx) = data.span {
            if idx >= options.preset_window_heights.len() {
                return false;
            }
        }
        let requested_size = match tile.requested_size {
            Some(size) => size,
            None => {
                return false;
            },
        };
        if !self.is_tabbed() && normal && self.has_whole_spans(options) {
            let requested = tile.tile_height_for_window_height(axis.size_in(requested_size).h);
            let least = N::of_int(1).max(axis.size_in(tile.min_size_nonfullscreen).h);
            let gaps = options.layout.gaps.mul(N::of_int(2));
            if !self.fits_working_area(options, requested, least, gaps) {
                return false;
            }
        }
        true
    }

    /// Tells whether everything holds that operations on the section are to keep: no redundant
    /// nodes, fullscreen and maximized only for a single child or tabs, presets that exist, sizes
    /// that are those of the tiles, a size requested of every child, at most one fixed height, and
    /// heights within the working area.
    #[verifier::loop_isolation(false)]
    pub fn verify_invariants(&self, options: &Options<N>) -> (r: bool)
        requires
            self@.wf(),
        ensures
            r == self@.keeps_invariants(*options),
    {
        let axis = AxisMap::new(options.layout.main_axis);
        let ghost nodes = self@.root->children;
        if !self.root.is_tidy() {
            return false;
        }
        let count: usize = self.root.child_count();
        if !self.pending_sizing_mode().is_normal() && count != 1 && !self.is_tabbed() {
            return false;
        }
        if let Some(idx) = self.props.preset_width_idx {
            if idx >= options.preset_section_widths.len() {
                return false;
            }
        }
        let data = self.root.child_data();
        if count == 1 {
            if let ChildSpan::Auto { weight } = data[0].span {
                if !weight.same(N::of_int(1)) {
                    return false;
                }
            }
        }
        let mut found_fixed = false;
        let mut requested_total = N::of_int(0);
        let mut least_total = N::of_int(0);
        if let TileNode::Internal { children, .. } = &self.root {
            assert(nodes =~= forest_view(children@));
            let mut i: usize = 0;
            while i < children.len()
                invariant
                    i <= children.len(),
                    children.len() == count,
                    nodes == forest_view(children@),
                    requested_total == requested_sum(nodes, axis, i as int),
                    least_total == least_sum(nodes, axis, i as int),
                    forall|j: int|
                        0 <= j < i && nodes[j] is Leaf ==> self@.tile_is_right(
                            *options,
                            (#[trigger] nodes[j])->Leaf_0,
                            data@[j],
                        ),
                    found_fixed <==> exists|j: int|
                        0 <= j < i && #[trigger] is_fixed_tile(nodes, data@, j),
                    forall|j: int, k: int|
                        0 <= j < k < i && #[trigger] is_fixed_tile(nodes, data@, j)
                            ==> !#[trigger] is_fixed_tile(nodes, data@, k),
                decreases children.len() - i,
            {
                assert(nodes[i as int] == children@[i as int]@);
                if let TileNode::Leaf(tile) = &children[i] {
                    assert(nodes[i as int] == Tree::Leaf(*tile));
                    if !self.tile_is_right(options, tile, &data[i]) {
                        assert(!self@.tile_is_right(
                            *options,
                            nodes[i as int]->Leaf_0,
                            data@[i as int],
                        ));
                        return false;
                    }
                    if let ChildSpan::Fixed(_) = data[i].span {
                        assert(is_fixed_tile(nodes, data@, i as int));
                        if found_fixed {
                            assert(!self@.keeps_invariants(*options)) by {
                                let j = choose|j: int|
                                    0 <= j < i && #[trigger] is_fixed_tile(nodes, data@, j);
                                assert(is_fixed_tile(nodes, data@, j));
                                assert(is_fixed_tile(nodes, data@, i as int));
                            }
                            return false;
                        }
                        found_fixed = true;
                    } else {
                        assert(!is_fixed_tile(nodes, data@, i as int));
                    }
                    if let Some(size) = tile.requested_size {
                        requested_total = requested_total.add(
                            tile.tile_height_for_window_height(axis.size_in(size).h),
                        );
                    }
                    least_total = least_total.add(
                        N::of_int(1).max(axis.size_in(tile.min_size_nonfullscreen).h),
                    );
                } else {
                    assert(!is_fixed_tile(nodes, data@, i as int));
                }
                i = i + 1;
            }
        }
        if !self.is_tabbed() && !self.root.is_main_split() && count > 1 && self.has_whole_spans(
            options,
        ) {
            let gaps = options.layout.gaps.mul(N::of_usize(count).add(N::of_int(1)));
            if !self.fits_working_area(options, requested_total, least_total, gaps) {
                return false;
            }
        }
        true
    }
}

} // verus!
