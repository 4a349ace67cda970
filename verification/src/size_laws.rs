//! How spans are shared out and kept within limits.
use vstd::prelude::*;

use crate::config::{
    resolved_preset, LayoutOptions, Options, PresetSize, ResolvedSize, SizeChange,
};
use crate::exact::exact;
use crate::geometry::Size;
use crate::resize_laws::{frame, lemma_border};
use crate::scalar::{num, Scalar};
use crate::section::{axis_of, SectionView};
use crate::section_resize::next_preset;
use crate::tile::Tile;
use crate::tile_node::{ChildSpan, Layout, SplitChildData, Tree};
use crate::tree_layout::{auto_weight, fixed_span, shared_span, sum_upto, Measures};

verus! {

/// The sum of the first `upto` numbers.
pub open spec fn total<N>(value: spec_fn(N) -> real, numbers: Seq<N>, upto: int) -> real
    decreases upto,
{
    if upto <= 0 {
        0 as real
    } else {
        total(value, numbers, upto - 1) + value(numbers[upto - 1])
    }
}

proof fn lemma_total<N: Scalar>(value: spec_fn(N) -> real, numbers: Seq<N>, upto: int)
    requires
        exact(value),
        0 <= upto <= numbers.len(),
    ensures
        value(sum_upto(numbers, upto)) == total(value, numbers, upto),
    decreases upto,
{
    if upto > 0 {
        lemma_total(value, numbers, upto - 1);
    } else {
        assert(value(num::<N>(0)) == 0 as real);
    }
}

/// What the first children take: what is fixed, and their shares of the rest.
proof fn lemma_shares_add_up<N: Scalar>(
    value: spec_fn(N) -> real,
    data: Seq<SplitChildData<N>>,
    mins: Seq<N>,
    whole: N,
    upto: int,
)
    requires
        exact(value),
        mins.len() == data.len(),
        0 <= upto <= data.len(),
        ({
            let weights = Seq::new(data.len(), |j: int| auto_weight(data[j]));
            total(value, weights, data.len() as int) > 0 as real
        }),
        forall|i: int|
            0 <= i < data.len() && !((#[trigger] data[i]).span is Fixed) ==> value(
                shared_span(data, mins, whole, i),
            ) > value(mins[i]),
    ensures
        ({
            let fixed = Seq::new(data.len(), |j: int| fixed_span(data[j], mins[j]));
            let weights = Seq::new(data.len(), |j: int| auto_weight(data[j]));
            let spans = Seq::new(data.len(), |j: int| shared_span(data, mins, whole, j));
            let n = data.len() as int;
            let left = value(whole) - total(value, fixed, n);
            total(value, spans, upto) == total(value, fixed, upto) + left * (total(
                value,
                weights,
                upto,
            ) / total(value, weights, n))
        }),
    decreases upto,
{
    let fixed = Seq::new(data.len(), |j: int| fixed_span(data[j], mins[j]));
    let weights = Seq::new(data.len(), |j: int| auto_weight(data[j]));
    let spans = Seq::new(data.len(), |j: int| shared_span(data, mins, whole, j));
    let n = data.len() as int;
    lemma_total(value, fixed, n);
    lemma_total(value, weights, n);
    let left = value(whole) - total(value, fixed, n);
    let all = total(value, weights, n);
    assert(value(num::<N>(0)) == 0 as real);
    if upto > 0 {
        lemma_shares_add_up(value, data, mins, whole, upto - 1);
        let i = upto - 1;
        let weight = auto_weight(data[i]);
        let rest = whole.spec_sub(sum_upto(fixed, n));
        let part = weight.spec_div(sum_upto(weights, n));
        let before = total(value, weights, i);
        assert(value(rest) == left);
        assert(value(part) == value(weight) / all);
        assert(value(rest.spec_mul(part)) == value(rest) * value(part));
        assert(left * ((before + value(weight)) / all) == left * (before / all) + left * (value(
            weight,
        ) / all)) by (nonlinear_arith)
            requires
                all > 0 as real,
        ;
        if data[i].span is Fixed {
            assert(value(weight) == 0 as real);
            assert(left * (value(weight) / all) == 0 as real) by (nonlinear_arith)
                requires
                    all > 0 as real,
                    value(weight) == 0 as real,
            ;
            assert(fixed[i] == spans[i]);
        } else {
            assert(value(spans[i]) > value(mins[i]));
            assert(spans[i] == rest.spec_mul(part).spec_max(mins[i]));
            assert(value(fixed[i]) == 0 as real);
        }
    } else {
        assert(left * (0 as real / all) == 0 as real) by (nonlinear_arith)
            requires
                all > 0 as real,
        ;
    }
}

/// The children of a split take all of its span, with a gap between any two of them, where none is
/// held up by the least span that it needs.
pub proof fn law_split_children_fill_the_span<N: Scalar>(
    value: spec_fn(N) -> real,
    node: Tree<N>,
    available: Size<N>,
    measures: Measures<N>,
)
    requires
        exact(value),
        node is Internal,
        node->layout == Layout::SplitH || node->layout == Layout::SplitV,
        node->children.len() == node->data.len(),
        ({
            let data = node->data;
            let weights = Seq::new(data.len(), |j: int| auto_weight(data[j]));
            total(value, weights, data.len() as int) > 0 as real
        }),
        ({
            let sizes = node.child_sizes(available, measures);
            let across = node->layout == Layout::SplitH;
            forall|i: int|
                0 <= i < node->data.len() && !((#[trigger] node->data[i]).span is Fixed) ==> value(
                    if across {
                        sizes[i].w
                    } else {
                        sizes[i].h
                    },
                ) > value(node->children[i].min_span(measures.axis, across))
        }),
    ensures
        ({
            let sizes = node.child_sizes(available, measures);
            let across = node->layout == Layout::SplitH;
            let n = node->children.len() as int;
            let spans = Seq::new(
                sizes.len(),
                |i: int|
                    if across {
                        sizes[i].w
                    } else {
                        sizes[i].h
                    },
            );
            let gaps = (n - 1) as real * value(measures.gaps);
            total(value, spans, n) + gaps == value(
                if across {
                    available.w
                } else {
                    available.h
                },
            )
        }),
{
    let (children, data) = (node->children, node->data);
    let across = node->layout == Layout::SplitH;
    let n = children.len() as int;
    let mins = Seq::new(children.len(), |i: int| children[i].min_span(measures.axis, across));
    let sizes = node.child_sizes(available, measures);
    let gaps = measures.gaps.spec_mul(num::<N>(n).spec_sub(num::<N>(1)));
    let whole = (if across {
        available.w
    } else {
        available.h
    }).spec_sub(gaps);
    let spans = Seq::new(
        sizes.len(),
        |i: int|
            if across {
                sizes[i].w
            } else {
                sizes[i].h
            },
    );
    let shared = Seq::new(data.len(), |j: int| shared_span(data, mins, whole, j));
    assert(spans =~= shared);
    assert forall|i: int| 0 <= i < data.len() && !((#[trigger] data[i]).span is Fixed) implies value(
        shared_span(data, mins, whole, i),
    ) > value(mins[i]) by {
        assert(shared[i] == spans[i]);
    }
    lemma_shares_add_up(value, data, mins, whole, n);
    let weights = Seq::new(data.len(), |j: int| auto_weight(data[j]));
    let fixed = Seq::new(data.len(), |j: int| fixed_span(data[j], mins[j]));
    let all = total(value, weights, n);
    let left = value(whole) - total(value, fixed, n);
    assert(left * (all / all) == left) by (nonlinear_arith)
        requires
            all > 0 as real,
    ;
    assert(value(num::<N>(1)) == 1 as real && value(num::<N>(n)) == n as real);
    assert(value(gaps) == value(measures.gaps) * value(num::<N>(n).spec_sub(num::<N>(1))));
    assert(n as real - 1 as real == (n - 1) as real);
    let (g, k) = (value(measures.gaps), (n - 1) as real);
    assert(g * k == k * g) by (nonlinear_arith);
}

/// A height asked for a window is given to it as far as the others leave room for it and the window
/// can have it: never more than the window takes, never less than it needs, and just that much
/// where it fits.
pub proof fn law_height_is_given_within_limits<N: Scalar>(
    value: spec_fn(N) -> real,
    section: SectionView<N>,
    layout: LayoutOptions<N>,
    tile: Tile<N>,
    others: N,
    wanted: N,
)
    requires
        exact(value),
        tile.window_max_size.h <= 0 || tile.window_min_size.h <= tile.window_max_size.h,
        tile.window_max_size.h <= 100_000,
        tile.window_min_size.h <= 100_000,
    ensures
        ({
            let given = value(section.limited_window_span(layout, tile, others, wanted));
            let area = value(section.props.working_area.size.h) - value(section.extra_size().h);
            let room = area - 2 as real * value(layout.gaps) - value(others) - frame(value, tile);
            let least = tile.window_min_size.h as real;
            let most = tile.window_max_size.h as real;
            &&& 1 as real <= given <= 100_000 as real
            &&& tile.window_min_size.h > 0 ==> given >= least
            &&& tile.window_max_size.h > 0 ==> given <= most
            &&& (given > 1 as real && given > least) ==> given <= room && given <= value(wanted)
            &&& (1 as real <= value(wanted) <= 100_000 as real && value(wanted) <= room && (
            tile.window_min_size.h <= 0 || value(wanted) >= least) && (tile.window_max_size.h <= 0
                || value(wanted) <= most)) ==> given == value(wanted)
        }),
{
    let gaps = layout.gaps;
    let area = section.props.working_area.size.h.spec_sub(section.extra_size().h);
    let left = area.spec_sub(gaps).spec_sub(others).spec_sub(gaps);
    assert(value(left) == value(area) - value(gaps) - value(others) - value(gaps));
    lemma_border(value, tile, left);
    assert(value(num::<N>(1)) == 1 as real && value(num::<N>(100000)) == 100000 as real);
    let (most, least) = (
        num::<N>(tile.window_max_size.h as int),
        num::<N>(tile.window_min_size.h as int),
    );
    assert(value(most) == tile.window_max_size.h as real);
    assert(value(least) == tile.window_min_size.h as real);
    let span = num::<N>(1).spec_max(tile.without_border(left)).spec_min(wanted);
    assert(value(span.spec_min(most)) <= value(span));
    let kept = if tile.window_max_size.h > 0 {
        span.spec_min(most)
    } else {
        span
    };
    assert(value(kept.spec_max(least)) >= value(kept));
}

/// The height that a change asks for is that of the window as it is and the step, or the one that
/// was given; and a share of a hundred is of the height of the area, less one gap.
pub proof fn law_height_asked_for<N: Scalar>(
    value: spec_fn(N) -> real,
    section: SectionView<N>,
    layout: LayoutOptions<N>,
    tile: Tile<N>,
    change: SizeChange<N>,
    current: N,
)
    requires
        exact(value),
    ensures
        ({
            let asked = value(
                section.changed_window_span(layout, change, tile, ChildSpan::Fixed(current)),
            );
            let area = value(section.props.working_area.size.h) - value(layout.gaps);
            let around = frame(value, tile) + value(layout.gaps) + value(section.extra_size().h);
            match change {
                SizeChange::SetFixed(fixed) => asked == fixed as real,
                SizeChange::AdjustFixed(step) => asked + frame(value, tile) == value(current)
                    + step as real,
                SizeChange::SetProportion(share) => (asked + around) * 100 as real == area * value(
                    share,
                ),
                SizeChange::AdjustProportion(step) => area != 0 as real ==> (asked + around)
                    * 100 as real == (value(current) + value(layout.gaps)) * 100 as real + area
                    * value(step),
            }
        }),
{
    lemma_border(value, tile, current);
    let hundred = num::<N>(100);
    let gaps = layout.gaps;
    let available = section.props.working_area.size.h.spec_sub(gaps);
    let extra = section.extra_size().h;
    assert(value(hundred) == 100 as real && value(num::<N>(0)) == 0 as real);
    assert(value(available) == value(section.props.working_area.size.h) - value(gaps));
    match change {
        SizeChange::SetFixed(_) => {},
        SizeChange::AdjustFixed(step) => {
            assert(value(num::<N>(step as int)) == step as real);
        },
        SizeChange::SetProportion(share) => {
            let part = share.spec_div(hundred);
            let span = available.spec_mul(part).spec_sub(gaps).spec_sub(extra);
            lemma_border(value, tile, span);
            assert(value(part) == value(share) / 100 as real);
            assert(value(available.spec_mul(part)) == value(available) * value(part));
            lemma_of_a_hundred(value(available), value(share));
        },
        SizeChange::AdjustProportion(step) => {
            let part = step.spec_div(hundred);
            let held = current.spec_add(gaps).spec_div(available);
            let span = available.spec_mul(held.spec_add(part)).spec_sub(gaps).spec_sub(extra);
            lemma_border(value, tile, span);
            assert(value(part) == value(step) / 100 as real);
            if value(available) != 0 as real {
                let (a, c, s) = (value(available), value(current) + value(gaps), value(step));
                assert(value(held) == c / a);
                assert(value(available.spec_mul(held.spec_add(part))) == a * (c / a + s
                    / 100 as real));
                assert((a * (c / a + s / 100 as real)) * 100 as real == c * 100 as real + a * s)
                    by (nonlinear_arith)
                    requires
                        a != 0 as real,
                ;
            }
        },
    }
}

proof fn lemma_of_a_hundred(whole: real, share: real)
    by (nonlinear_arith)
    ensures
        (whole * (share / 100 as real)) * 100 as real == whole * share,
{
}

/// Going on to the next preset takes the first one that is larger, and going back the last one that
/// is smaller; past the ends it starts over from the other end.
pub proof fn law_next_preset_is_the_next_size(larger: Seq<bool>, smaller: Seq<bool>)
    requires
        0 < larger.len() <= usize::MAX,
        smaller.len() == larger.len(),
    ensures
        ({
            let up = next_preset(larger, smaller, true) as int;
            let down = next_preset(larger, smaller, false) as int;
            &&& 0 <= up < larger.len()
            &&& 0 <= down < smaller.len()
            &&& forall|j: int| 0 <= j < up ==> !(#[trigger] larger[j])
            &&& !larger[up] ==> up == 0 && forall|j: int|
                0 <= j < larger.len() ==> !(#[trigger] larger[j])
            &&& forall|j: int| down < j < smaller.len() ==> !(#[trigger] smaller[j])
            &&& !smaller[down] ==> down == smaller.len() - 1 && forall|j: int|
                0 <= j < smaller.len() ==> !(#[trigger] smaller[j])
        }),
{
    lemma_first_set(larger, larger.len() as int);
    lemma_last_set(smaller, smaller.len() as int);
}

proof fn lemma_first_set(flags: Seq<bool>, upto: int)
    requires
        0 <= upto <= flags.len() <= usize::MAX,
    ensures
        match crate::section_resize::first_set(flags, upto) {
            Some(i) => i < upto && flags[i as int] && forall|j: int|
                0 <= j < i ==> !(#[trigger] flags[j]),
            None => forall|j: int| 0 <= j < upto ==> !(#[trigger] flags[j]),
        },
    decreases upto,
{
    if upto > 0 {
        lemma_first_set(flags, upto - 1);
    }
}

proof fn lemma_last_set(flags: Seq<bool>, upto: int)
    requires
        0 <= upto <= flags.len() <= usize::MAX,
    ensures
        match crate::section_resize::last_set(flags, upto) {
            Some(i) => i < upto && flags[i as int] && forall|j: int|
                i < j < upto ==> !(#[trigger] flags[j]),
            None => forall|j: int| 0 <= j < upto ==> !(#[trigger] flags[j]),
        },
    decreases upto,
{
    if upto > 0 {
        lemma_last_set(flags, upto - 1);
    }
}

/// Whether a preset is wider than a tile by more than a pixel, or, turned around, narrower.
pub open spec fn differs<N: Scalar>(
    value: spec_fn(N) -> real,
    section: SectionView<N>,
    options: Options<N>,
    tile: Tile<N>,
    i: int,
    wider: bool,
) -> bool {
    let axis = axis_of(options.layout);
    let (span, now) = match section.preset_main_span(
        options.layout,
        options.preset_section_widths@[i],
    ) {
        ResolvedSize::Tile(span) => (value(span), value(axis.spec_size(tile.tile_expected_size).w)),
        ResolvedSize::Window(span) => (
            value(span),
            value(axis.spec_size(tile.window_expected_size).w),
        ),
    };
    if wider {
        span > now + 1 as real
    } else {
        now > span + 1 as real
    }
}

/// A section that has no preset width goes on to the first preset that is wider than its tile, and
/// back to the last one that is narrower; past the ends it starts over from the other end.
pub proof fn law_next_preset_width_is_the_next_wider<N: Scalar>(
    value: spec_fn(N) -> real,
    section: SectionView<N>,
    options: Options<N>,
    tile: Tile<N>,
)
    requires
        exact(value),
        section.props.preset_width_idx is None,
        0 < options.preset_section_widths@.len() <= usize::MAX,
    ensures
        ({
            let up = section.next_preset_width(options, tile, true) as int;
            let down = section.next_preset_width(options, tile, false) as int;
            let n = options.preset_section_widths@.len() as int;
            &&& 0 <= up < n
            &&& 0 <= down < n
            &&& forall|j: int|
                0 <= j < up ==> !(#[trigger] differs(value, section, options, tile, j, true))
            &&& differs(value, section, options, tile, up, true) || (up == 0 && forall|j: int|
                0 <= j < n ==> !(#[trigger] differs(value, section, options, tile, j, true)))
            &&& forall|j: int|
                down < j < n ==> !(#[trigger] differs(value, section, options, tile, j, false))
            &&& differs(value, section, options, tile, down, false) || (down == n - 1 && forall|
                j: int,
            |
                0 <= j < n ==> !(#[trigger] differs(value, section, options, tile, j, false)))
        }),
{
    let presets = options.preset_section_widths@;
    let axis = axis_of(options.layout);
    let window = axis.spec_size(tile.window_expected_size).w;
    let whole = axis.spec_size(tile.tile_expected_size).w;
    let one = num::<N>(1);
    assert(value(one) == 1 as real);
    let larger = Seq::new(
        presets.len(),
        |i: int|
            match section.preset_main_span(options.layout, presets[i]) {
                ResolvedSize::Tile(span) => whole.spec_add(one).spec_lt(span),
                ResolvedSize::Window(span) => window.spec_add(one).spec_lt(span),
            },
    );
    let smaller = Seq::new(
        presets.len(),
        |i: int|
            match section.preset_main_span(options.layout, presets[i]) {
                ResolvedSize::Tile(span) => span.spec_add(one).spec_lt(whole),
                ResolvedSize::Window(span) => span.spec_add(one).spec_lt(window),
            },
    );
    law_next_preset_is_the_next_size(larger, smaller);
    assert forall|j: int| 0 <= j < presets.len() implies larger[j] == #[trigger] differs(
        value,
        section,
        options,
        tile,
        j,
        true,
    ) by {}
    assert forall|j: int| 0 <= j < presets.len() implies smaller[j] == #[trigger] differs(
        value,
        section,
        options,
        tile,
        j,
        false,
    ) by {}
    assert(section.next_preset_width(options, tile, true) == next_preset(larger, smaller, true));
    assert(section.next_preset_width(options, tile, false) == next_preset(larger, smaller, false));
}

/// Whether a preset is higher than a tile by more than a pixel, or, turned around, lower.
pub open spec fn differs_in_height<N: Scalar>(
    value: spec_fn(N) -> real,
    section: SectionView<N>,
    options: Options<N>,
    tile: Tile<N>,
    now: N,
    i: int,
    higher: bool,
) -> bool {
    let span = value(
        section.preset_window_span(options.layout, tile, options.preset_window_heights@[i]),
    ) + frame(value, tile);
    if higher {
        span > value(now) + 1 as real
    } else {
        value(now) > span + 1 as real
    }
}

/// A window that has no preset height goes on to the first preset that is higher than it is, and
/// back to the last one that is lower; past the ends it starts over from the other end.
pub proof fn law_next_preset_height_is_the_next_higher<N: Scalar>(
    value: spec_fn(N) -> real,
    section: SectionView<N>,
    options: Options<N>,
    tile: Tile<N>,
    path: Seq<usize>,
)
    requires
        exact(value),
        section.root.leaf_data(path) is Some,
        !(section.root.leaf_data(path)->0.span is Preset),
        0 < options.preset_window_heights@.len() <= usize::MAX,
    ensures
        ({
            let now = section.root.leaf_data(path)->0.size.h;
            let up = section.next_preset_height(options, tile, path, true) as int;
            let down = section.next_preset_height(options, tile, path, false) as int;
            let n = options.preset_window_heights@.len() as int;
            let higher = |j: int| differs_in_height(value, section, options, tile, now, j, true);
            let lower = |j: int| differs_in_height(value, section, options, tile, now, j, false);
            &&& 0 <= up < n
            &&& 0 <= down < n
            &&& forall|j: int| 0 <= j < up ==> !(#[trigger] higher(j))
            &&& higher(up) || (up == 0 && forall|j: int| 0 <= j < n ==> !(#[trigger] higher(j)))
            &&& forall|j: int| down < j < n ==> !(#[trigger] lower(j))
            &&& lower(down) || (down == n - 1 && forall|j: int|
                0 <= j < n ==> !(#[trigger] lower(j)))
        }),
{
    let presets = options.preset_window_heights@;
    let now = section.root.leaf_data(path)->0.size.h;
    let one = num::<N>(1);
    assert(value(one) == 1 as real);
    let larger = Seq::new(
        presets.len(),
        |i: int|
            now.spec_add(one).spec_lt(
                tile.with_border(section.preset_window_span(options.layout, tile, presets[i])),
            ),
    );
    let smaller = Seq::new(
        presets.len(),
        |i: int|
            tile.with_border(
                section.preset_window_span(options.layout, tile, presets[i]),
            ).spec_add(one).spec_lt(now),
    );
    law_next_preset_is_the_next_size(larger, smaller);
    assert forall|j: int| 0 <= j < presets.len() implies larger[j] == #[trigger] differs_in_height(
        value,
        section,
        options,
        tile,
        now,
        j,
        true,
    ) by {
        lemma_border(
            value,
            tile,
            section.preset_window_span(options.layout, tile, presets[j]),
        );
    }
    assert forall|j: int| 0 <= j < presets.len() implies smaller[j] == #[trigger] differs_in_height(
        value,
        section,
        options,
        tile,
        now,
        j,
        false,
    ) by {
        lemma_border(
            value,
            tile,
            section.preset_window_span(options.layout, tile, presets[j]),
        );
    }
    assert(section.next_preset_height(options, tile, path, true) == next_preset(
        larger,
        smaller,
        true,
    ));
    assert(section.next_preset_height(options, tile, path, false) == next_preset(
        larger,
        smaller,
        false,
    ));
}

/// Presets whose shares make up the whole fill a span of the working area, with a gap between the
/// two and on both sides.
pub proof fn law_preset_shares_fill_the_span<N: Scalar>(
    value: spec_fn(N) -> real,
    share: N,
    rest: N,
    gaps: N,
    span: N,
    extra: N,
)
    requires
        exact(value),
        value(share) + value(rest) == 1 as real,
    ensures
        ({
            let one = resolved_preset(PresetSize::Proportion(share), gaps, span, extra);
            let other = resolved_preset(PresetSize::Proportion(rest), gaps, span, extra);
            &&& one is Tile && other is Tile
            &&& value(gaps) + (value(one->Tile_0) + value(extra)) + value(gaps) + (value(
                other->Tile_0,
            ) + value(extra)) + value(gaps) == value(span)
        }),
{
    let free = span.spec_sub(gaps);
    let (f, a, b) = (value(free), value(share), value(rest));
    assert(value(free.spec_mul(share)) == f * a);
    assert(value(free.spec_mul(rest)) == f * b);
    assert(f * a + f * b == f) by (nonlinear_arith)
        requires
            a + b == 1 as real,
    ;
    let one = free.spec_mul(share).spec_sub(gaps).spec_sub(extra);
    let other = free.spec_mul(rest).spec_sub(gaps).spec_sub(extra);
    assert(value(one) == value(free.spec_mul(share)) - value(gaps) - value(extra));
    assert(value(other) == value(free.spec_mul(rest)) - value(gaps) - value(extra));
}

} // verus!
