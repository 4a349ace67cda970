//! How much of the working area the tiles of a section take.
use vstd::prelude::*;

use crate::config::Options;
use crate::geometry::Size;
use crate::scalar::{num, Pixels, Scalar};
use crate::section::{axis_of, SectionView};
use crate::section_resize::at_most_one_is_set;
use crate::section_size::lemma_flat;
use crate::spans::{
    autos_upto, distributed, filled, first_non_auto, first_too_small, greatest_sizes, least_size,
    least_sizes, left_by_fixed, lemma_autos_update, lemma_too_small_is_auto, limited_span,
    limited_spans, taken_by_others, weight_upto, whole_window_span,
};
use crate::tile::Tile;
use crate::tile_node::ChildSpan;

verus! {

/// A bound on lengths that keeps sums of them far from where whole pixels saturate.
pub const LONGEST: i64 = 0x100_0000_0000;

/// A bound on how many tiles there are, so that sums of lengths stay in range.
pub const MOST_TILES: i64 = 0x1_0000;

/// The sum of the fixed ones of the first `upto` spans.
pub open spec fn fixed_total(spans: Seq<ChildSpan<Pixels>>, upto: int) -> int
    decreases upto,
{
    if upto <= 0 {
        0
    } else {
        fixed_total(spans, upto - 1) + match spans[upto - 1] {
            ChildSpan::Fixed(h) => h.value as int,
            _ => 0,
        }
    }
}

/// The sum of the least heights of the first `upto` tiles.
pub open spec fn least_total(least: Seq<Size<Pixels>>, upto: int) -> int
    decreases upto,
{
    if upto <= 0 {
        0
    } else {
        least_total(least, upto - 1) + least[upto - 1].h.value
    }
}

/// The sum of what the first `upto` tiles have at least: the fixed ones their span, the others
/// their least height.
pub open spec fn needed_total(
    spans: Seq<ChildSpan<Pixels>>,
    least: Seq<Size<Pixels>>,
    upto: int,
) -> int
    decreases upto,
{
    if upto <= 0 {
        0
    } else {
        needed_total(spans, least, upto - 1) + match spans[upto - 1] {
            ChildSpan::Fixed(h) => h.value as int,
            _ => least[upto - 1].h.value as int,
        }
    }
}

/// The sum of the weights of the automatic ones of the first `upto` spans.
pub open spec fn weight_total(spans: Seq<ChildSpan<Pixels>>, upto: int) -> int
    decreases upto,
{
    if upto <= 0 {
        0
    } else {
        weight_total(spans, upto - 1) + match spans[upto - 1] {
            ChildSpan::Auto { weight } => weight.value as int,
            _ => 0,
        }
    }
}

/// Whether a tile has room for its border and a pixel of its window at least, within bounds.
pub open spec fn has_room_for_border(tile: Tile<Pixels>, least: Size<Pixels>) -> bool {
    let border = match tile.border {
        Some(width) => width.value as int,
        None => 0,
    };
    &&& 0 <= border
    &&& 1 + 2 * border <= least.h.value <= LONGEST
}

/// Whether a span is within bounds: its weight, or its length and not below what its tile needs.
pub open spec fn is_in_bounds(span: ChildSpan<Pixels>) -> bool {
    match span {
        ChildSpan::Auto { weight } => 0 <= weight.value <= LONGEST,
        ChildSpan::Fixed(h) => 0 <= h.value <= 2 * LONGEST,
        ChildSpan::Preset(_) => false,
    }
}

spec fn bounded(
    tiles: Seq<Tile<Pixels>>,
    spans: Seq<ChildSpan<Pixels>>,
    least: Seq<Size<Pixels>>,
) -> bool {
    &&& spans.len() <= MOST_TILES
    &&& tiles.len() == spans.len()
    &&& least.len() == spans.len()
    &&& forall|i: int|
        0 <= i < spans.len() ==> is_in_bounds(#[trigger] spans[i]) && has_room_for_border(
            tiles[i],
            least[i],
        )
}

proof fn lemma_sum_bounds(
    tiles: Seq<Tile<Pixels>>,
    spans: Seq<ChildSpan<Pixels>>,
    least: Seq<Size<Pixels>>,
    upto: int,
)
    requires
        bounded(tiles, spans, least),
        0 <= upto <= spans.len(),
    ensures
        0 <= fixed_total(spans, upto) <= upto * 2 * LONGEST,
        0 <= needed_total(spans, least, upto) <= upto * 2 * LONGEST,
        0 <= weight_total(spans, upto) <= upto * LONGEST,
        0 <= least_total(least, upto) <= upto * LONGEST,
        fixed_total(spans, upto) <= needed_total(spans, least, upto),
        weight_upto(spans, upto).value == weight_total(spans, upto),
    decreases upto,
{
    if upto > 0 {
        lemma_sum_bounds(tiles, spans, least, upto - 1);
        assert(is_in_bounds(spans[upto - 1]) && has_room_for_border(
            tiles[upto - 1],
            least[upto - 1],
        ));
    }
}

proof fn lemma_left(
    tiles: Seq<Tile<Pixels>>,
    spans: Seq<ChildSpan<Pixels>>,
    least: Seq<Size<Pixels>>,
    total: Pixels,
    upto: int,
)
    requires
        bounded(tiles, spans, least),
        0 <= upto <= spans.len(),
        -0x1000_0000_0000_0000 <= total.value <= LONGEST,
    ensures
        left_by_fixed(spans, total, upto).value == total.value - fixed_total(spans, upto),
    decreases upto,
{
    if upto > 0 {
        lemma_left(tiles, spans, least, total, upto - 1);
        lemma_sum_bounds(tiles, spans, least, upto);
        lemma_sum_bounds(tiles, spans, least, upto - 1);
        assert(is_in_bounds(spans[upto - 1]));
    }
}

/// An automatic span that is fixed.
proof fn lemma_fixed(
    spans: Seq<ChildSpan<Pixels>>,
    least: Seq<Size<Pixels>>,
    i: int,
    h: Pixels,
    upto: int,
)
    requires
        0 <= i < spans.len(),
        spans[i] is Auto,
        0 <= upto <= spans.len(),
    ensures
        ({
            let new = spans.update(i, ChildSpan::Fixed(h));
            &&& h == least[i].h ==> needed_total(new, least, upto) == needed_total(
                spans,
                least,
                upto,
            )
            &&& fixed_total(new, upto) == fixed_total(spans, upto) + if i < upto {
                h.value as int
            } else {
                0
            }
            &&& weight_total(new, upto) == weight_total(spans, upto) - if i < upto {
                spans[i]->weight.value as int
            } else {
                0
            }
        }),
    decreases upto,
{
    if upto > 0 {
        lemma_fixed(spans, least, i, h, upto - 1);
    }
}

/// Weights add up.
proof fn lemma_weight_grows(spans: Seq<ChildSpan<Pixels>>, from: int, upto: int)
    requires
        0 <= from <= upto <= spans.len(),
        forall|i: int| 0 <= i < spans.len() ==> is_in_bounds(#[trigger] spans[i]),
    ensures
        weight_total(spans, from) <= weight_total(spans, upto),
    decreases upto - from,
{
    if from < upto {
        lemma_weight_grows(spans, from, upto - 1);
        assert(is_in_bounds(spans[upto - 1]));
    }
}

/// A border takes twice its width.
proof fn lemma_border(tile: Tile<Pixels>)
    ensures
        tile.border matches Some(width) ==> (0 <= width.value <= LONGEST ==> (width
            * num::<Pixels>(2)).value == 2 * width.value),
{
    if let Some(width) = tile.border {
        let two = num::<Pixels>(2).value as int;
        let w = width.value as int;
        assert(two == 2);
        assert(w * two == 2 * w) by (nonlinear_arith)
            requires
                two == 2,
        ;
    }
}

/// What comes before does not count for which share is too little.
proof fn lemma_too_small_beyond(
    tiles: Seq<Tile<Pixels>>,
    spans: Seq<ChildSpan<Pixels>>,
    least: Seq<Size<Pixels>>,
    left: Pixels,
    weight_left: Pixels,
    at: int,
    span: ChildSpan<Pixels>,
    i: int,
)
    requires
        0 <= at < i,
        at < spans.len(),
    ensures
        first_too_small(tiles, spans.update(at, span), least, left, weight_left, i)
            == first_too_small(tiles, spans, least, left, weight_left, i),
    decreases spans.len() - i,
{
    if i < spans.len() {
        match spans[i] {
            ChildSpan::Auto { weight } => {
                let share = left * weight.spec_div(weight_left);
                lemma_too_small_beyond(
                    tiles,
                    spans,
                    least,
                    left - whole_window_span(tiles[i], share),
                    weight_left - weight,
                    at,
                    span,
                    i + 1,
                );
            },
            _ => {
                lemma_too_small_beyond(tiles, spans, least, left, weight_left, at, span, i + 1);
            },
        }
    }
}

/// Where no share is too little, what is filled in is no more than what is left.
proof fn lemma_filled_total(
    tiles: Seq<Tile<Pixels>>,
    spans: Seq<ChildSpan<Pixels>>,
    least: Seq<Size<Pixels>>,
    left: Pixels,
    weight_left: Pixels,
    i: int,
)
    requires
        bounded(tiles, spans, least),
        0 <= i <= spans.len(),
        -0x2000_0000_0000_0000 <= left.value <= LONGEST,
        weight_left.value == weight_total(spans, spans.len() as int) - weight_total(spans, i),
        first_too_small(tiles, spans, least, left, weight_left, i) is None,
    ensures
        ({
            let n = spans.len() as int;
            let after = filled(tiles, spans, left, weight_left, i);
            &&& after.len() == n
            &&& fixed_total(after, n) == fixed_total(spans, n) || (left.value >= 1 && fixed_total(
                after,
                n,
            ) == fixed_total(spans, n) + left.value)
        }),
    decreases spans.len() - i,
{
    let n = spans.len() as int;
    if i < n {
        assert(is_in_bounds(spans[i]) && has_room_for_border(tiles[i], least[i]));
        lemma_weight_grows(spans, i + 1, n);
        match spans[i] {
            ChildSpan::Auto { weight } => {
                let w = weight.value as int;
                let whole = weight_left.value as int;
                assert(whole >= w >= 0);
                let share = left * weight.spec_div(weight_left);
                assert(share.value >= 1);
                assert(whole > 0);
                assert(w / whole <= 1 && (w < whole ==> w / whole == 0) && (w == whole ==> w
                    / whole == 1)) by (nonlinear_arith)
                    requires
                        0 <= w <= whole,
                        whole > 0,
                ;
                assert(left.value * 0 == 0);
                assert(w == whole);
                assert(left.value * 1 == left.value);
                assert(share == left);
                let span = whole_window_span(tiles[i], share);
                lemma_border(tiles[i]);
                assert(span == left);
                let new = spans.update(i, ChildSpan::Fixed(span));
                lemma_fixed(spans, least, i, span, n);
                lemma_fixed(spans, least, i, span, i + 1);
                lemma_too_small_beyond(
                    tiles,
                    spans,
                    least,
                    left - span,
                    weight_left - weight,
                    i,
                    ChildSpan::Fixed(span),
                    i + 1,
                );
                lemma_filled_total(tiles, new, least, left - span, weight_left - weight, i + 1);
            },
            _ => {
                lemma_filled_total(tiles, spans, least, left, weight_left, i + 1);
            },
        }
    }
}

/// What is divided among tiles stays within the total, or is as little as they need.
proof fn lemma_distributed_total(
    tiles: Seq<Tile<Pixels>>,
    spans: Seq<ChildSpan<Pixels>>,
    least: Seq<Size<Pixels>>,
    left: Pixels,
    total_weight: Pixels,
    total: int,
)
    requires
        bounded(tiles, spans, least),
        -0x1000_0000_0000_0000 <= total <= LONGEST,
        left.value == total - fixed_total(spans, spans.len() as int),
        total_weight.value == weight_total(spans, spans.len() as int),
    ensures
        ({
            let n = spans.len() as int;
            let after = distributed(tiles, spans, least, left, total_weight);
            &&& after.len() == n
            &&& fixed_total(after, n) <= total || fixed_total(after, n) <= needed_total(
                spans,
                least,
                n,
            )
        }),
    decreases autos_upto(spans, spans.len() as int),
{
    let n = spans.len() as int;
    lemma_sum_bounds(tiles, spans, least, n);
    if autos_upto(spans, n) != 0 {
        lemma_too_small_is_auto(tiles, spans, least, left, total_weight, 0);
        match first_too_small(tiles, spans, least, left, total_weight, 0) {
            Some(i) => {
                let h = least[i].h;
                let fixed = ChildSpan::Fixed(h);
                let new = spans.update(i, fixed);
                assert(is_in_bounds(spans[i]) && has_room_for_border(tiles[i], least[i]));
                lemma_autos_update(spans, i, fixed, n);
                lemma_fixed(spans, least, i, h, n);
                assert forall|j: int| 0 <= j < new.len() implies is_in_bounds(#[trigger] new[j])
                    && has_room_for_border(tiles[j], least[j]) by {
                    assert(is_in_bounds(spans[j]));
                }
                lemma_sum_bounds(tiles, new, least, n);
                lemma_distributed_total(
                    tiles,
                    new,
                    least,
                    left - h,
                    total_weight - spans[i]->weight,
                    total,
                );
            },
            None => {
                lemma_filled_total(tiles, spans, least, left, total_weight, 0);
            },
        }
    }
}

/// What the others of some tiles need, in numbers.
proof fn lemma_taken(least: Seq<Size<Pixels>>, gaps: Pixels, but: int, upto: int)
    requires
        0 <= but < least.len() <= MOST_TILES,
        0 <= upto <= least.len(),
        0 <= gaps.value <= LONGEST,
        forall|i: int| 0 <= i < least.len() ==> 0 <= (#[trigger] least[i]).h.value <= LONGEST,
    ensures
        ({
            let own = if but < upto {
                1int
            } else {
                0int
            };
            &&& 0 <= taken_by_others(least, gaps, but, upto).value <= upto * 2 * LONGEST
            &&& taken_by_others(least, gaps, but, upto).value == least_total(least, upto) - own
                * least[but].h.value + (upto - own) * gaps.value
        }),
    decreases upto,
{
    if upto > 0 {
        lemma_taken(least, gaps, but, upto - 1);
        let g = gaps.value as int;
        let own = if but < upto - 1 {
            1int
        } else {
            0int
        };
        assert(least[upto - 1].h.value <= LONGEST);
        assert((upto - own) * g == (upto - 1 - own) * g + g) by (nonlinear_arith);
    } else {
        assert(0 * gaps.value == 0);
    }
}

/// A sum that takes one summand in place of another.
proof fn lemma_needed_but_one(
    limits: Seq<ChildSpan<Pixels>>,
    least: Seq<Size<Pixels>>,
    set: int,
    most: int,
    upto: int,
)
    requires
        limits.len() == least.len(),
        0 <= upto <= limits.len(),
        0 <= set < limits.len(),
        forall|i: int|
            0 <= i < limits.len() && i != set ==> (#[trigger] limits[i] matches ChildSpan::Fixed(h)
                ==> h.value == least[i].h.value),
        limits[set] matches ChildSpan::Fixed(h) ==> h.value <= most,
        least[set].h.value <= most,
    ensures
        needed_total(limits, least, upto) <= least_total(least, upto) + if set < upto {
            most - least[set].h.value
        } else {
            0
        },
    decreases upto,
{
    if upto > 0 {
        lemma_needed_but_one(limits, least, set, most, upto - 1);
    }
}

/// Whether the numbers that the heights of a section follow from are within bounds, and every tile
/// has room for its border.
pub open spec fn has_bounded_heights(
    section: SectionView<Pixels>,
    options: Options<Pixels>,
) -> bool {
    let axis = axis_of(options.layout);
    let tiles = section.tiles();
    let data = section.root.child_data();
    &&& tiles.len() <= MOST_TILES
    &&& 0 <= section.props.working_area.size.h.value <= LONGEST
    &&& 0 <= options.layout.gaps.value <= LONGEST
    &&& forall|i: int|
        0 <= i < tiles.len() ==> has_room_for_border(
            #[trigger] tiles[i],
            least_size(tiles[i], axis),
        )
    &&& forall|i: int|
        0 <= i < data.len() ==> ((#[trigger] data[i]).span matches ChildSpan::Auto { weight } ==> 0
            <= weight.value <= LONGEST)
}

/// The span that is not automatic leaves the others what they need.
proof fn lemma_set_span(
    section: SectionView<Pixels>,
    options: Options<Pixels>,
    set: int,
)
    requires
        section.wf(),
        !section.root.is_tabbed(),
        section.child_spans().len() == section.tiles().len(),
        has_bounded_heights(section, options),
        0 <= set < section.tiles().len(),
        !(section.child_spans()[set] is Auto),
        first_non_auto(section.child_spans(), section.tiles().len() as int) == Some(set),
        section.tiles().len() > 1 || !(section.child_spans()[set] is Preset),
    ensures
        ({
            let axis = axis_of(options.layout);
            let n = section.tiles().len() as int;
            let least = least_sizes(section.tiles(), axis);
            let own = least[set].h.value as int;
            let left = section.props.working_area.size.h.value - (n + 1)
                * options.layout.gaps.value - (least_total(least, n) - own);
            section.converted_spans(options)[set] matches ChildSpan::Fixed(h) ==> h.value <= if own
                < left {
                left
            } else {
                own
            }
        }),
{
    let axis = axis_of(options.layout);
    let tiles = section.tiles();
    let n = tiles.len() as int;
    let least = least_sizes(tiles, axis);
    let gaps = options.layout.gaps;
    let g = gaps.value as int;
    let height = section.props.working_area.size.h.value as int;
    let tile = tiles[set];
    assert forall|i: int| 0 <= i < least.len() implies 0 <= (#[trigger] least[i]).h.value
        <= LONGEST by {
        assert(has_room_for_border(tiles[i], least_size(tiles[i], axis)));
    }
    assert(has_room_for_border(tile, least_size(tile, axis)));
    lemma_border(tile);
    lemma_taken(least, gaps, set, n);
    let two = num::<Pixels>(2).value as int;
    assert(g * two == 2 * g) by (nonlinear_arith)
        requires
            two == 2,
    ;
    let most = section.max_tile_cross_span(options.layout);
    assert(most.value == height - 2 * g);
    assert(1 * least[set].h.value == least[set].h.value);
    assert((n + 1) * g == (n - 1) * g + 2 * g) by (nonlinear_arith);
    assert(0 <= (n - 1) * g <= MOST_TILES * LONGEST) by (nonlinear_arith)
        requires
            1 <= n <= MOST_TILES,
            0 <= g <= LONGEST,
    ;
    if n == 1 {
        assert(least_total(least, 1) == least_total(least, 0) + least[0].h.value);
    }
}

/// In a section without nested tiles and without tabs, where at most one height is not automatic,
/// the heights that are requested stay within the working area together with the gaps, or are as
/// small as the tiles can be. Stated in whole pixels. The height of a tile that is alone and at a
/// preset is not held to the working area.
pub proof fn law_heights_fit_the_working_area(
    section: SectionView<Pixels>,
    options: Options<Pixels>,
)
    requires
        section.wf(),
        !section.root.is_tabbed(),
        !section.is_nested(),
        at_most_one_is_set(section.root.child_data()),
        section.tiles().len() > 1 || !(section.root.child_data()[0].span is Preset),
        has_bounded_heights(section, options),
    ensures
        ({
            let n = section.tiles().len() as int;
            let height = section.props.working_area.size.h.value;
            let gaps = (n + 1) * options.layout.gaps.value;
            let least = least_sizes(section.tiles(), axis_of(options.layout));
            let spans = section.flat_cross_spans(options);
            &&& spans.len() == n
            &&& fixed_total(spans, n) + gaps <= height || fixed_total(spans, n) <= least_total(
                least,
                n,
            )
        }),
{
    let axis = axis_of(options.layout);
    let tiles = section.tiles();
    let n = tiles.len() as int;
    let least = least_sizes(tiles, axis);
    let greatest = greatest_sizes(tiles, axis);
    let data = section.root.child_data();
    let spans = section.child_spans();
    let g = options.layout.gaps.value as int;
    let height = section.props.working_area.size.h.value as int;
    lemma_flat(section.root);
    assert(data.len() == n);
    crate::tree_walk::lemma_has_leaf(section.root);
    let converted = section.converted_spans(options);
    let limits = limited_spans(converted, least, greatest);
    let set = match first_non_auto(spans, n) {
        Some(i) => i,
        None => 0,
    };
    lemma_first_non_auto(spans, n);
    assert forall|i: int| 0 <= i < n && i != set implies converted[i] is Auto && is_in_bounds(
        converted[i],
    ) by {
        assert(data[i].span is Auto) by {
            if first_non_auto(spans, n) is Some {
                assert(spans[set] == data[set].span);
                if i < set {
                    assert(data[i].span is Auto || data[set].span is Auto);
                } else {
                    assert(data[set].span is Auto || data[i].span is Auto);
                }
            } else {
                assert(spans[i] is Auto);
            }
        }
        assert(spans[i] == data[i].span);
    }
    let own = least[set].h.value as int;
    let left = height - (n + 1) * g - (least_total(least, n) - own);
    let most = if own < left {
        left
    } else {
        own
    };
    if spans[set] is Auto {
        assert(spans[set] == data[set].span);
        assert(converted[set] is Auto && is_in_bounds(converted[set]));
    } else {
        assert(spans[0] == data[0].span);
        lemma_set_span(section, options, set);
    }
    assert forall|i: int| 0 <= i < least.len() implies 1 <= (#[trigger] least[i]).h.value
        <= LONGEST by {
        assert(has_room_for_border(tiles[i], least_size(tiles[i], axis)));
    }
    lemma_least_bounds(least, set, n);
    assert(0 <= (n + 1) * g <= (MOST_TILES + 1) * LONGEST) by (nonlinear_arith)
        requires
            1 <= n <= MOST_TILES,
            0 <= g <= LONGEST,
    ;
    assert(most <= LONGEST);
    assert forall|i: int| 0 <= i < n implies is_in_bounds(#[trigger] limits[i])
        && has_room_for_border(tiles[i], least[i]) && (i != set ==> (
    limits[i] matches ChildSpan::Fixed(h) ==> h.value == least[i].h.value)) && (i == set ==> (
    limits[i] matches ChildSpan::Fixed(h) ==> h.value <= most)) by {
        assert(has_room_for_border(tiles[i], least_size(tiles[i], axis)));
        assert(1 <= least[i].h.value <= LONGEST);
        assert(limits[i] == limited_span(converted[i], least[i], greatest[i]));
    }
    lemma_needed_but_one(limits, least, set, most, n);
    let count = (num::<Pixels>(n) + num::<Pixels>(1)).value as int;
    assert(count == n + 1);
    assert(g * count == (n + 1) * g) by (nonlinear_arith)
        requires
            count == n + 1,
    ;
    let total = section.props.working_area.size.h - options.layout.gaps * (num::<Pixels>(n)
        + num::<Pixels>(1));
    assert(total.value == height - (n + 1) * g);
    lemma_sum_bounds(tiles, limits, least, n);
    lemma_left(tiles, limits, least, total, n);
    lemma_distributed_total(
        tiles,
        limits,
        least,
        left_by_fixed(limits, total, n),
        weight_upto(limits, n),
        total.value as int,
    );
}

/// The first span that is not automatic is not, and none is where there is no first.
proof fn lemma_first_non_auto(spans: Seq<ChildSpan<Pixels>>, upto: int)
    requires
        0 <= upto <= spans.len(),
    ensures
        match first_non_auto(spans, upto) {
            Some(i) => 0 <= i < upto && !(spans[i] is Auto),
            None => forall|i: int| 0 <= i < upto ==> #[trigger] spans[i] is Auto,
        },
    decreases upto,
{
    if upto > 0 {
        lemma_first_non_auto(spans, upto - 1);
    }
}

/// The sum of least heights is no less than one of them.
proof fn lemma_least_bounds(least: Seq<Size<Pixels>>, but: int, upto: int)
    requires
        0 <= but < least.len(),
        0 <= upto <= least.len(),
        forall|i: int| 0 <= i < least.len() ==> 1 <= (#[trigger] least[i]).h.value <= LONGEST,
    ensures
        0 <= least_total(least, upto) <= upto * LONGEST,
        but < upto ==> least[but].h.value <= least_total(least, upto),
    decreases upto,
{
    if upto > 0 {
        lemma_least_bounds(least, but, upto - 1);
        assert(least[upto - 1].h.value >= 1);
    }
}

} // verus!
