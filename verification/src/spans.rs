//! Dividing the span of a section among its windows.
use vstd::prelude::*;

use crate::axis::AxisMap;
use crate::geometry::Size;
use crate::scalar::{num, Scalar};
use crate::tile::Tile;
use crate::tile_node::ChildSpan;
use crate::tree_layout::{max_upto, pick_later_max};

verus! {

/// The least size of a tile outside of fullscreen, at least one pixel, turned to the main axis.
pub open spec fn least_size<N: Scalar>(tile: Tile<N>, axis: AxisMap) -> Size<N> {
    let size = axis.spec_size(tile.min_size_nonfullscreen);
    Size { w: size.w.spec_max(num::<N>(1)), h: size.h.spec_max(num::<N>(1)) }
}

/// The greatest size of a tile outside of fullscreen, turned to the main axis.
pub open spec fn greatest_size<N: Scalar>(tile: Tile<N>, axis: AxisMap) -> Size<N> {
    axis.spec_size(tile.max_size_nonfullscreen)
}

pub open spec fn least_sizes<N: Scalar>(tiles: Seq<Tile<N>>, axis: AxisMap) -> Seq<Size<N>> {
    Seq::new(tiles.len(), |i: int| least_size(tiles[i], axis))
}

pub open spec fn greatest_sizes<N: Scalar>(tiles: Seq<Tile<N>>, axis: AxisMap) -> Seq<Size<N>> {
    Seq::new(tiles.len(), |i: int| greatest_size(tiles[i], axis))
}

pub open spec fn main_spans<N>(sizes: Seq<Size<N>>) -> Seq<N> {
    Seq::new(sizes.len(), |i: int| sizes[i].w)
}

pub open spec fn cross_spans<N>(sizes: Seq<Size<N>>) -> Seq<N> {
    Seq::new(sizes.len(), |i: int| sizes[i].h)
}

/// The least of the first `upto` numbers that are not zero.
pub open spec fn min_nonzero<N: Scalar>(values: Seq<N>, upto: int) -> Option<N>
    decreases upto,
{
    if upto <= 0 {
        None
    } else {
        let before = min_nonzero(values, upto - 1);
        let value = values[upto - 1];
        if value.spec_same(num::<N>(0)) {
            before
        } else {
            match before {
                Some(best) => Some(
                    if value < best {
                        value
                    } else {
                        best
                    },
                ),
                None => Some(value),
            }
        }
    }
}

/// A desired span along the main axis, kept within what all tiles can have. Where that is
/// contradictory, the least spans win.
pub open spec fn limited_main_span<N: Scalar>(
    desired: N,
    least: Seq<Size<N>>,
    greatest: Seq<Size<N>>,
) -> N {
    let min_span = max_upto(main_spans(least), least.len() as int);
    let max_span = match min_nonzero(main_spans(greatest), greatest.len() as int) {
        Some(span) => span,
        None => num::<N>(i32::MAX as int),
    };
    desired.spec_min(max_span.spec_max(min_span)).spec_max(min_span)
}

pub fn limit_main_span<N: Scalar>(
    desired: N,
    least: &Vec<Size<N>>,
    greatest: &Vec<Size<N>>,
) -> (r: N)
    requires
        least.len() > 0,
    ensures
        r == limited_main_span(desired, least@, greatest@),
{
    let mut min_span = least[0].w;
    let mut i: usize = 1;
    while i < least.len()
        invariant
            1 <= i <= least.len(),
            min_span == max_upto(main_spans(least@), i as int),
        decreases least.len() - i,
    {
        min_span = pick_later_max(min_span, least[i].w);
        i = i + 1;
    }
    let mut max_span: Option<N> = None;
    i = 0;
    while i < greatest.len()
        invariant
            i <= greatest.len(),
            max_span == min_nonzero(main_spans(greatest@), i as int),
        decreases greatest.len() - i,
    {
        let span = greatest[i].w;
        if !span.same(N::of_int(0)) {
            max_span = match max_span {
                Some(best) => if span.lt(best) {
                    Some(span)
                } else {
                    Some(best)
                },
                None => Some(span),
            };
        }
        i = i + 1;
    }
    let max_span = match max_span {
        Some(span) => span,
        None => N::of_int(i32::MAX as i64),
    };
    desired.min(max_span.max(min_span)).max(min_span)
}

pub fn collect_least_sizes<N: Scalar>(tiles: &Vec<Tile<N>>, axis: AxisMap) -> (r: Vec<Size<N>>)
    ensures
        r@ == least_sizes(tiles@, axis),
{
    let mut out: Vec<Size<N>> = Vec::new();
    let mut i: usize = 0;
    while i < tiles.len()
        invariant
            i <= tiles.len(),
            out.len() == i,
            forall|j: int| 0 <= j < i ==> out@[j] == least_size(tiles@[j], axis),
        decreases tiles.len() - i,
    {
        let size = axis.size_in(tiles[i].min_size_nonfullscreen);
        out.push(Size { w: size.w.max(N::of_int(1)), h: size.h.max(N::of_int(1)) });
        i = i + 1;
    }
    assert(out@ =~= least_sizes(tiles@, axis));
    out
}

pub fn collect_greatest_sizes<N: Scalar>(tiles: &Vec<Tile<N>>, axis: AxisMap) -> (r: Vec<Size<N>>)
    ensures
        r@ == greatest_sizes(tiles@, axis),
{
    let mut out: Vec<Size<N>> = Vec::new();
    let mut i: usize = 0;
    while i < tiles.len()
        invariant
            i <= tiles.len(),
            out.len() == i,
            forall|j: int| 0 <= j < i ==> out@[j] == greatest_size(tiles@[j], axis),
        decreases tiles.len() - i,
    {
        out.push(axis.size_in(tiles[i].max_size_nonfullscreen));
        i = i + 1;
    }
    assert(out@ =~= greatest_sizes(tiles@, axis));
    out
}

/// The first of the first `upto` spans that is not automatic.
pub open spec fn first_non_auto<N>(spans: Seq<ChildSpan<N>>, upto: int) -> Option<int>
    decreases upto,
{
    if upto <= 0 {
        None
    } else {
        match first_non_auto(spans, upto - 1) {
            Some(i) => Some(i),
            None => if spans[upto - 1] is Auto {
                None
            } else {
                Some(upto - 1)
            },
        }
    }
}

/// What the other ones of the first `upto` tiles need at least, with a gap for each.
pub open spec fn taken_by_others<N: Scalar>(
    least: Seq<Size<N>>,
    gaps: N,
    but: int,
    upto: int,
) -> N
    decreases upto,
{
    if upto <= 0 {
        num::<N>(0)
    } else {
        let before = taken_by_others(least, gaps, but, upto - 1);
        if upto - 1 == but {
            before
        } else {
            before + (least[upto - 1].h + gaps)
        }
    }
}

/// The greatest *window* span for the one tile of several whose span is not automatic, so that the
/// other ones can have their least spans.
pub open spec fn non_auto_limit<N: Scalar>(
    tiles: Seq<Tile<N>>,
    spans: Seq<ChildSpan<N>>,
    least: Seq<Size<N>>,
    gaps: N,
    max_tile_cross_span: N,
) -> Option<N> {
    match first_non_auto(spans, spans.len() as int) {
        Some(i) => Some(
            num::<N>(1).spec_max(
                tiles[i].without_border(
                    max_tile_cross_span - taken_by_others(least, gaps, i, least.len() as int),
                ).spec_round(),
            ),
        ),
        None => None,
    }
}

pub fn compute_non_auto_limit<N: Scalar>(
    tiles: &Vec<Tile<N>>,
    spans: &Vec<ChildSpan<N>>,
    least: &Vec<Size<N>>,
    gaps: N,
    max_tile_cross_span: N,
) -> (r: Option<N>)
    requires
        tiles.len() == spans.len(),
    ensures
        r == non_auto_limit(tiles@, spans@, least@, gaps, max_tile_cross_span),
{
    let mut i: usize = 0;
    while i < spans.len()
        invariant
            i <= spans.len(),
            tiles.len() == spans.len(),
            first_non_auto(spans@, i as int) is None,
        decreases spans.len() - i,
    {
        if !matches!(spans[i], ChildSpan::Auto { .. }) {
            let mut taken = N::of_int(0);
            let mut j: usize = 0;
            while j < least.len()
                invariant
                    j <= least.len(),
                    taken == taken_by_others(least@, gaps, i as int, j as int),
                decreases least.len() - j,
            {
                if j != i {
                    taken = taken.add(least[j].h.add(gaps));
                }
                j = j + 1;
            }
            proof {
                assert(first_non_auto(spans@, i as int + 1) == Some(i as int));
                lemma_first_non_auto_stays(spans@, i as int + 1, spans@.len() as int);
            }
            let window_span = tiles[i].window_height_for_tile_height(
                max_tile_cross_span.sub(taken),
            );
            return Some(N::of_int(1).max(window_span.round()));
        }
        i = i + 1;
    }
    None
}

proof fn lemma_first_non_auto_stays<N>(spans: Seq<ChildSpan<N>>, from: int, upto: int)
    requires
        0 <= from <= upto,
        first_non_auto(spans, from) is Some,
    ensures
        first_non_auto(spans, upto) == first_non_auto(spans, from),
    decreases upto - from,
{
    if from < upto {
        lemma_first_non_auto_stays(spans, from, upto - 1);
    }
}

/// The first fixed one of the first `upto` spans.
pub open spec fn first_fixed<N>(spans: Seq<ChildSpan<N>>, upto: int) -> Option<N>
    decreases upto,
{
    if upto <= 0 {
        None
    } else {
        match first_fixed(spans, upto - 1) {
            Some(span) => Some(span),
            None => match spans[upto - 1] {
                ChildSpan::Fixed(span) => Some(span),
                _ => None,
            },
        }
    }
}

/// The span that all tabs have: that of the fixed one, if there is one, but enough for every tab,
/// as long as it fits the workspace.
pub open spec fn tabbed_span<N: Scalar>(
    spans: Seq<ChildSpan<N>>,
    least: Seq<Size<N>>,
    max_tile_cross_span: N,
) -> N {
    let wanted = match first_fixed(spans, spans.len() as int) {
        Some(span) => span,
        None => max_tile_cross_span,
    };
    wanted.spec_max(
        max_tile_cross_span.spec_min(max_upto(cross_spans(least), least.len() as int)),
    )
}

pub fn compute_tabbed_span<N: Scalar>(
    spans: &Vec<ChildSpan<N>>,
    least: &Vec<Size<N>>,
    max_tile_cross_span: N,
) -> (r: N)
    requires
        least.len() > 0,
    ensures
        r == tabbed_span(spans@, least@, max_tile_cross_span),
{
    let mut fixed: Option<N> = None;
    let mut i: usize = 0;
    while i < spans.len()
        invariant
            i <= spans.len(),
            fixed == first_fixed(spans@, i as int),
        decreases spans.len() - i,
    {
        if fixed.is_none() {
            if let ChildSpan::Fixed(span) = spans[i] {
                fixed = Some(span);
            }
        }
        i = i + 1;
    }
    let wanted = match fixed {
        Some(span) => span,
        None => max_tile_cross_span,
    };
    let mut min_span = least[0].h;
    i = 1;
    while i < least.len()
        invariant
            1 <= i <= least.len(),
            min_span == max_upto(cross_spans(least@), i as int),
        decreases least.len() - i,
    {
        min_span = pick_later_max(min_span, least[i].h);
        i = i + 1;
    }
    wanted.max(max_tile_cross_span.min(min_span))
}

/// A span under the limits of a tile. A tile that can have one span only is fixed at it.
pub open spec fn limited_span<N: Scalar>(
    span: ChildSpan<N>,
    least: Size<N>,
    greatest: Size<N>,
) -> ChildSpan<N> {
    let span = if least.h.spec_same(greatest.h) {
        ChildSpan::Fixed(least.h)
    } else {
        span
    };
    match span {
        ChildSpan::Fixed(h) => {
            let h = if num::<N>(0) < greatest.h {
                h.spec_min(greatest.h)
            } else {
                h
            };
            ChildSpan::Fixed(h.spec_max(least.h))
        },
        span => span,
    }
}

pub open spec fn limited_spans<N: Scalar>(
    spans: Seq<ChildSpan<N>>,
    least: Seq<Size<N>>,
    greatest: Seq<Size<N>>,
) -> Seq<ChildSpan<N>> {
    Seq::new(spans.len(), |i: int| limited_span(spans[i], least[i], greatest[i]))
}

/// What the first `upto` spans leave of a total once the fixed ones are taken off.
pub open spec fn left_by_fixed<N: Scalar>(spans: Seq<ChildSpan<N>>, total: N, upto: int) -> N
    decreases upto,
{
    if upto <= 0 {
        total
    } else {
        let before = left_by_fixed(spans, total, upto - 1);
        match spans[upto - 1] {
            ChildSpan::Fixed(h) => before - h,
            _ => before,
        }
    }
}

/// The weights of the automatic ones of the first `upto` spans.
pub open spec fn weight_upto<N: Scalar>(spans: Seq<ChildSpan<N>>, upto: int) -> N
    decreases upto,
{
    if upto <= 0 {
        num::<N>(0)
    } else {
        let before = weight_upto(spans, upto - 1);
        match spans[upto - 1] {
            ChildSpan::Auto { weight } => before + weight,
            _ => before,
        }
    }
}

/// The number of automatic ones of the first `upto` spans.
pub open spec fn autos_upto<N>(spans: Seq<ChildSpan<N>>, upto: int) -> nat
    decreases upto,
{
    if upto <= 0 {
        0
    } else if spans[upto - 1] is Auto {
        autos_upto(spans, upto - 1) + 1
    } else {
        autos_upto(spans, upto - 1)
    }
}

/// An automatic tile span made such that the window inside has a whole span.
pub open spec fn whole_window_span<N: Scalar>(tile: Tile<N>, tile_span: N) -> N {
    tile.with_border(tile.without_border(tile_span).spec_round().spec_max(num::<N>(1)))
}

fn to_whole_window_span<N: Scalar>(tile: &Tile<N>, tile_span: N) -> (r: N)
    ensures
        r == whole_window_span(*tile, tile_span),
{
    tile.tile_height_for_window_height(
        tile.window_height_for_tile_height(tile_span).round().max(N::of_int(1)),
    )
}

/// The first tile, from `i` on, for which its share of what is left is too little.
pub open spec fn first_too_small<N: Scalar>(
    tiles: Seq<Tile<N>>,
    spans: Seq<ChildSpan<N>>,
    least: Seq<Size<N>>,
    left: N,
    weight_left: N,
    i: int,
) -> Option<int>
    decreases spans.len() - i,
{
    if i < 0 || spans.len() <= i {
        None
    } else {
        match spans[i] {
            ChildSpan::Auto { weight } => {
                let share = left * weight.spec_div(weight_left);
                if share < least[i].h {
                    Some(i)
                } else {
                    first_too_small(
                        tiles,
                        spans,
                        least,
                        left - whole_window_span(tiles[i], share),
                        weight_left - weight,
                        i + 1,
                    )
                }
            },
            _ => first_too_small(tiles, spans, least, left, weight_left, i + 1),
        }
    }
}

/// The automatic spans from `i` on filled with their shares, one after the other.
pub open spec fn filled<N: Scalar>(
    tiles: Seq<Tile<N>>,
    spans: Seq<ChildSpan<N>>,
    left: N,
    weight_left: N,
    i: int,
) -> Seq<ChildSpan<N>>
    decreases spans.len() - i,
{
    if i < 0 || spans.len() <= i {
        spans
    } else {
        match spans[i] {
            ChildSpan::Auto { weight } => {
                let span = whole_window_span(tiles[i], left * weight.spec_div(weight_left));
                filled(
                    tiles,
                    spans.update(i, ChildSpan::Fixed(span)),
                    left - span,
                    weight_left - weight,
                    i + 1,
                )
            },
            _ => filled(tiles, spans, left, weight_left, i + 1),
        }
    }
}

/// What is left divided among the automatic spans by their weights. A tile that would get less
/// than it needs is given that first, and the rest is divided among the other ones.
pub open spec fn distributed<N: Scalar>(
    tiles: Seq<Tile<N>>,
    spans: Seq<ChildSpan<N>>,
    least: Seq<Size<N>>,
    left: N,
    total_weight: N,
) -> Seq<ChildSpan<N>>
    decreases autos_upto(spans, spans.len() as int),
{
    if autos_upto(spans, spans.len() as int) == 0 {
        spans
    } else {
        match first_too_small(tiles, spans, least, left, total_weight, 0) {
            Some(i) => {
                proof {
                    lemma_too_small_is_auto(tiles, spans, least, left, total_weight, 0);
                    lemma_autos_update(spans, i, ChildSpan::Fixed(least[i].h), spans.len() as int);
                }
                distributed(
                    tiles,
                    spans.update(i, ChildSpan::Fixed(least[i].h)),
                    least,
                    left - least[i].h,
                    total_weight - spans[i]->weight,
                )
            },
            None => filled(tiles, spans, left, total_weight, 0),
        }
    }
}

/// A tile whose share is too little is an automatic one.
pub proof fn lemma_too_small_is_auto<N: Scalar>(
    tiles: Seq<Tile<N>>,
    spans: Seq<ChildSpan<N>>,
    least: Seq<Size<N>>,
    left: N,
    weight_left: N,
    i: int,
)
    requires
        0 <= i,
    ensures
        first_too_small(tiles, spans, least, left, weight_left, i) matches Some(j) ==> i <= j
            < spans.len() && spans[j] is Auto,
    decreases spans.len() - i,
{
    if i < spans.len() {
        match spans[i] {
            ChildSpan::Auto { weight } => {
                let share = left * weight.spec_div(weight_left);
                lemma_too_small_is_auto(
                    tiles,
                    spans,
                    least,
                    left - whole_window_span(tiles[i], share),
                    weight_left - weight,
                    i + 1,
                );
            },
            _ => {
                lemma_too_small_is_auto(tiles, spans, least, left, weight_left, i + 1);
            },
        }
    }
}

/// Fixing an automatic span leaves one automatic span less.
pub proof fn lemma_autos_update<N>(
    spans: Seq<ChildSpan<N>>,
    i: int,
    span: ChildSpan<N>,
    upto: int,
)
    requires
        0 <= i < spans.len(),
        upto <= spans.len(),
        spans[i] is Auto,
        !(span is Auto),
    ensures
        autos_upto(spans.update(i, span), upto) == autos_upto(spans, upto) - (if i < upto {
            1int
        } else {
            0int
        }),
    decreases upto,
{
    if upto > 0 {
        lemma_autos_update(spans, i, span, upto - 1);
    }
}

/// Filling leaves no automatic span from `i` on.
proof fn lemma_filled<N: Scalar>(
    tiles: Seq<Tile<N>>,
    spans: Seq<ChildSpan<N>>,
    left: N,
    weight_left: N,
    i: int,
)
    requires
        0 <= i,
        forall|j: int| 0 <= j < spans.len() ==> !(#[trigger] spans[j] is Preset),
        forall|j: int| 0 <= j < i && j < spans.len() ==> #[trigger] spans[j] is Fixed,
    ensures
        filled(tiles, spans, left, weight_left, i).len() == spans.len(),
        forall|j: int|
            0 <= j < spans.len() ==> #[trigger] filled(tiles, spans, left, weight_left, i)[j]
                is Fixed,
    decreases spans.len() - i,
{
    if i < spans.len() {
        match spans[i] {
            ChildSpan::Auto { weight } => {
                let span = whole_window_span(tiles[i], left * weight.spec_div(weight_left));
                lemma_filled(
                    tiles,
                    spans.update(i, ChildSpan::Fixed(span)),
                    left - span,
                    weight_left - weight,
                    i + 1,
                );
            },
            _ => {
                lemma_filled(tiles, spans, left, weight_left, i + 1);
            },
        }
    }
}

proof fn lemma_no_autos<N>(spans: Seq<ChildSpan<N>>, upto: int)
    requires
        autos_upto(spans, upto) == 0,
        upto <= spans.len(),
    ensures
        forall|j: int| 0 <= j < upto ==> !(#[trigger] spans[j] is Auto),
    decreases upto,
{
    if upto > 0 {
        lemma_no_autos(spans, upto - 1);
    }
}

/// The division gives every tile a fixed span.
pub proof fn law_division_is_complete<N: Scalar>(
    tiles: Seq<Tile<N>>,
    spans: Seq<ChildSpan<N>>,
    least: Seq<Size<N>>,
    left: N,
    total_weight: N,
)
    requires
        forall|j: int| 0 <= j < spans.len() ==> !(#[trigger] spans[j] is Preset),
    ensures
        distributed(tiles, spans, least, left, total_weight).len() == spans.len(),
        forall|j: int|
            0 <= j < spans.len() ==> #[trigger] distributed(
                tiles,
                spans,
                least,
                left,
                total_weight,
            )[j] is Fixed,
    decreases autos_upto(spans, spans.len() as int),
{
    if autos_upto(spans, spans.len() as int) == 0 {
        lemma_no_autos(spans, spans.len() as int);
    } else {
        lemma_too_small_is_auto(tiles, spans, least, left, total_weight, 0);
        match first_too_small(tiles, spans, least, left, total_weight, 0) {
            Some(i) => {
                let fixed = ChildSpan::Fixed(least[i].h);
                lemma_autos_update(spans, i, fixed, spans.len() as int);
                law_division_is_complete(
                    tiles,
                    spans.update(i, fixed),
                    least,
                    left - least[i].h,
                    total_weight - spans[i]->weight,
                );
            },
            None => {
                lemma_filled(tiles, spans, left, total_weight, 0);
            },
        }
    }
}

/// A span that was fixed before the division is not changed by it.
pub proof fn law_division_keeps_fixed_spans<N: Scalar>(
    tiles: Seq<Tile<N>>,
    spans: Seq<ChildSpan<N>>,
    least: Seq<Size<N>>,
    left: N,
    total_weight: N,
    at: int,
)
    requires
        0 <= at < spans.len(),
        !(spans[at] is Auto),
    ensures
        distributed(tiles, spans, least, left, total_weight)[at] == spans[at],
    decreases autos_upto(spans, spans.len() as int),
{
    if autos_upto(spans, spans.len() as int) != 0 {
        lemma_too_small_is_auto(tiles, spans, least, left, total_weight, 0);
        match first_too_small(tiles, spans, least, left, total_weight, 0) {
            Some(i) => {
                let fixed = ChildSpan::Fixed(least[i].h);
                lemma_autos_update(spans, i, fixed, spans.len() as int);
                law_division_keeps_fixed_spans(
                    tiles,
                    spans.update(i, fixed),
                    least,
                    left - least[i].h,
                    total_weight - spans[i]->weight,
                    at,
                );
            },
            None => {
                lemma_filled_keeps(tiles, spans, left, total_weight, 0, at);
            },
        }
    }
}

proof fn lemma_filled_keeps<N: Scalar>(
    tiles: Seq<Tile<N>>,
    spans: Seq<ChildSpan<N>>,
    left: N,
    weight_left: N,
    i: int,
    at: int,
)
    requires
        0 <= i,
        0 <= at < spans.len(),
        !(spans[at] is Auto),
    ensures
        filled(tiles, spans, left, weight_left, i)[at] == spans[at],
    decreases spans.len() - i,
{
    if i < spans.len() {
        match spans[i] {
            ChildSpan::Auto { weight } => {
                let span = whole_window_span(tiles[i], left * weight.spec_div(weight_left));
                lemma_filled_keeps(
                    tiles,
                    spans.update(i, ChildSpan::Fixed(span)),
                    left - span,
                    weight_left - weight,
                    i + 1,
                    at,
                );
            },
            _ => {
                lemma_filled_keeps(tiles, spans, left, weight_left, i + 1, at);
            },
        }
    }
}

/// Brings the spans under the limits of their tiles, and divides what is left of `total` among the
/// automatic ones.
pub fn distribute<N: Scalar>(
    tiles: &Vec<Tile<N>>,
    spans: Vec<ChildSpan<N>>,
    least: &Vec<Size<N>>,
    greatest: &Vec<Size<N>>,
    total: N,
) -> (r: Vec<ChildSpan<N>>)
    requires
        tiles.len() == spans.len(),
        least.len() == spans.len(),
        greatest.len() == spans.len(),
        forall|j: int| 0 <= j < spans@.len() ==> !(#[trigger] spans@[j] is Preset),
    ensures
        r@ == division(tiles@, spans@, least@, greatest@, total),
        r@.len() == spans@.len(),
        forall|j: int| 0 <= j < r@.len() ==> #[trigger] r@[j] is Fixed,
{
    let ghost wanted = spans@;
    let ghost limits = limited_spans(spans@, least@, greatest@);
    let mut spans = spans;
    let mut left = total;
    let mut total_weight = N::of_int(0);
    let mut autos: usize = 0;
    let mut i: usize = 0;
    while i < spans.len()
        invariant
            i <= spans.len(),
            spans.len() == wanted.len(),
            least.len() == spans.len(),
            greatest.len() == spans.len(),
            limits == limited_spans(wanted, least@, greatest@),
            forall|j: int|
                0 <= j < spans@.len() ==> spans@[j] == if j < i {
                    limits[j]
                } else {
                    wanted[j]
                },
            left == left_by_fixed(limits, total, i as int),
            total_weight == weight_upto(limits, i as int),
            autos == autos_upto(limits, i as int),
            autos <= i,
        decreases spans.len() - i,
    {
        if least[i].h.same(greatest[i].h) {
            spans[i] = ChildSpan::Fixed(least[i].h);
        }
        match spans[i] {
            ChildSpan::Fixed(h) => {
                let h = if N::of_int(0).lt(greatest[i].h) {
                    h.min(greatest[i].h)
                } else {
                    h
                };
                let h = h.max(least[i].h);
                spans[i] = ChildSpan::Fixed(h);
                left = left.sub(h);
            },
            ChildSpan::Auto { weight } => {
                total_weight = total_weight.add(weight);
                autos = autos + 1;
            },
            ChildSpan::Preset(_) => {},
        }
        assert(spans@[i as int] == limits[i as int]);
        i = i + 1;
    }
    assert(spans@ =~= limits);
    let ghost goal = distributed(tiles@, limits, least@, left, total_weight);
    proof {
        assert forall|j: int| 0 <= j < limits.len() implies !(#[trigger] limits[j] is Preset) by {
            assert(!(wanted[j] is Preset));
        }
        law_division_is_complete(tiles@, limits, least@, left, total_weight);
    }
    while autos > 0
        invariant
            tiles.len() == spans.len(),
            least.len() == spans.len(),
            spans.len() == wanted.len(),
            autos == autos_upto(spans@, spans@.len() as int),
            goal == distributed(tiles@, spans@, least@, left, total_weight),
        decreases autos,
    {
        // The window spans are whole, so what is left is computed along the way.
        let mut remaining = left;
        let mut remaining_weight = total_weight;
        let mut too_small: Option<usize> = None;
        let ghost found = first_too_small(tiles@, spans@, least@, left, total_weight, 0);
        let mut j: usize = 0;
        while j < spans.len() && too_small.is_none()
            invariant
                j <= spans.len(),
                tiles.len() == spans.len(),
                least.len() == spans.len(),
                match too_small {
                    Some(k) => k < spans.len() && found == Some(k as int),
                    None => found == first_too_small(
                        tiles@,
                        spans@,
                        least@,
                        remaining,
                        remaining_weight,
                        j as int,
                    ),
                },
            decreases spans.len() - j,
        {
            if let ChildSpan::Auto { weight } = spans[j] {
                let share = remaining.mul(weight.div(remaining_weight));
                if share.lt(least[j].h) {
                    too_small = Some(j);
                } else {
                    remaining = remaining.sub(to_whole_window_span(&tiles[j], share));
                    remaining_weight = remaining_weight.sub(weight);
                }
            }
            j = j + 1;
        }
        proof {
            lemma_too_small_is_auto(tiles@, spans@, least@, left, total_weight, 0);
        }
        if let Some(k) = too_small {
            if let ChildSpan::Auto { weight } = spans[k] {
                proof {
                    lemma_autos_update(
                        spans@,
                        k as int,
                        ChildSpan::Fixed(least@[k as int].h),
                        spans@.len() as int,
                    );
                }
                spans[k] = ChildSpan::Fixed(least[k].h);
                left = left.sub(least[k].h);
                total_weight = total_weight.sub(weight);
                autos = autos - 1;
            }
        } else {
            let mut at: usize = 0;
            while at < spans.len()
                invariant
                    at <= spans.len(),
                    tiles.len() == spans.len(),
                    spans.len() == wanted.len(),
                    goal == filled(tiles@, spans@, left, total_weight, at as int),
                    forall|k: int|
                        0 <= k < at ==> !(#[trigger] spans@[k] is Auto),
                decreases spans.len() - at,
            {
                if let ChildSpan::Auto { weight } = spans[at] {
                    let span = to_whole_window_span(
                        &tiles[at],
                        left.mul(weight.div(total_weight)),
                    );
                    spans[at] = ChildSpan::Fixed(span);
                    left = left.sub(span);
                    total_weight = total_weight.sub(weight);
                }
                at = at + 1;
            }
            autos = 0;
            proof {
                lemma_all_fixed(spans@, spans@.len() as int);
            }
        }
    }
    spans
}

proof fn lemma_all_fixed<N>(spans: Seq<ChildSpan<N>>, upto: int)
    requires
        forall|k: int| 0 <= k < upto ==> !(#[trigger] spans[k] is Auto),
    ensures
        autos_upto(spans, upto) == 0,
    decreases upto,
{
    if upto > 0 {
        lemma_all_fixed(spans, upto - 1);
    }
}

/// Spans under the limits of their tiles, and what is left of `total` divided among the automatic
/// ones.
pub open spec fn division<N: Scalar>(
    tiles: Seq<Tile<N>>,
    spans: Seq<ChildSpan<N>>,
    least: Seq<Size<N>>,
    greatest: Seq<Size<N>>,
    total: N,
) -> Seq<ChildSpan<N>> {
    let limits = limited_spans(spans, least, greatest);
    distributed(
        tiles,
        limits,
        least,
        left_by_fixed(limits, total, limits.len() as int),
        weight_upto(limits, limits.len() as int),
    )
}

} // verus!
