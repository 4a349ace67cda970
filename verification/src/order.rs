//! Ordering by numbers.
use vstd::prelude::*;

use crate::scalar::{ordered, Scalar};

verus! {

/// Something with an index, to be ordered by a number.
#[derive(Clone, Copy, PartialEq, Eq, Debug)]
pub struct Keyed<N> {
    pub key: N,
    pub idx: usize,
}

/// Where something belongs among the first `upto` things in order: after all that are not greater,
/// counted from the end.
pub open spec fn place_among<N: Scalar>(sorted: Seq<Keyed<N>>, key: N, upto: int) -> int
    decreases upto,
{
    if upto <= 0 {
        0
    } else if key < sorted[upto - 1].key {
        place_among(sorted, key, upto - 1)
    } else {
        upto
    }
}

/// The first `upto` things in order. Equal ones stay in the order that they came in.
pub open spec fn sorted_upto<N: Scalar>(items: Seq<Keyed<N>>, upto: int) -> Seq<Keyed<N>>
    decreases upto,
{
    if upto <= 0 {
        Seq::empty()
    } else {
        let before = sorted_upto(items, upto - 1);
        let item = items[upto - 1];
        before.insert(place_among(before, item.key, before.len() as int), item)
    }
}

pub open spec fn is_sorted<N: Scalar>(items: Seq<Keyed<N>>) -> bool {
    forall|i: int, j: int|
        0 <= i < j < items.len() ==> #[trigger] items[i].key.spec_le(#[trigger] items[j].key)
}

pub proof fn lemma_sorted_len<N: Scalar>(items: Seq<Keyed<N>>, upto: int)
    requires
        0 <= upto,
    ensures
        sorted_upto(items, upto).len() == upto,
    decreases upto,
{
    if upto > 0 {
        lemma_sorted_len(items, upto - 1);
        let before = sorted_upto(items, upto - 1);
        lemma_place_in_range(before, items[upto - 1].key, before.len() as int);
    }
}

pub proof fn lemma_place_in_range<N: Scalar>(sorted: Seq<Keyed<N>>, key: N, upto: int)
    requires
        0 <= upto <= sorted.len(),
    ensures
        0 <= place_among(sorted, key, upto) <= upto,
        place_among(sorted, key, upto) > 0 ==> !(key < sorted[place_among(sorted, key, upto)
            - 1].key),
        forall|i: int|
            place_among(sorted, key, upto) <= i < upto ==> key < (#[trigger] sorted[i]).key,
    decreases upto,
{
    if upto > 0 && key < sorted[upto - 1].key {
        lemma_place_in_range(sorted, key, upto - 1);
    }
}

/// Sorting brings things into order, and neither loses nor adds any.
pub proof fn law_sorting<N: Scalar>(items: Seq<Keyed<N>>, upto: int)
    requires
        ordered::<N>(),
        0 <= upto <= items.len(),
    ensures
        is_sorted(sorted_upto(items, upto)),
        sorted_upto(items, upto).to_multiset() == items.take(upto).to_multiset(),
    decreases upto,
{
    broadcast use vstd::seq_lib::group_to_multiset_ensures;

    if upto > 0 {
        law_sorting(items, upto - 1);
        lemma_sorted_len(items, upto - 1);
        let before = sorted_upto(items, upto - 1);
        let item = items[upto - 1];
        let at = place_among(before, item.key, before.len() as int);
        lemma_place_in_range(before, item.key, before.len() as int);
        let after = before.insert(at, item);
        assert(items.take(upto) =~= items.take(upto - 1).push(item));
        vstd::seq_lib::to_multiset_insert(before, at, item);
        assert forall|i: int, j: int| 0 <= i < j < after.len() implies #[trigger] after[i].key.spec_le(
            #[trigger] after[j].key,
        ) by {
            let a = if i < at {
                i
            } else {
                i - 1
            };
            let b = if j < at {
                j
            } else {
                j - 1
            };
            if j < at {
                assert(before[i].key.spec_le(before[j].key));
            } else if i > at {
                assert(before[i - 1].key.spec_le(before[j - 1].key));
            } else if i < at && j > at {
                assert(before[i].key.spec_le(before[j - 1].key));
            } else if i == at {
                assert(item.key < before[j - 1].key);
                assert(item.key.spec_lt(before[j - 1].key));
            } else {
                assert(j == at && i < at);
                if i < at - 1 {
                    assert(before[i].key.spec_le(before[at - 1].key));
                }
                assert(!item.key.spec_lt(before[at - 1].key));
                assert(before[at - 1].key.spec_le(item.key));
            }
        }
    } else {
        assert(sorted_upto(items, 0) =~= items.take(0));
    }
}

/// Puts things into order; equal ones stay in the order that they came in.
pub fn sort_keyed<N: Scalar>(items: &Vec<Keyed<N>>) -> (r: Vec<Keyed<N>>)
    ensures
        r@ == sorted_upto(items@, items@.len() as int),
        r@.len() == items@.len(),
{
    let mut sorted: Vec<Keyed<N>> = Vec::new();
    let mut i: usize = 0;
    while i < items.len()
        invariant
            i <= items.len(),
            sorted.len() == i,
            sorted@ == sorted_upto(items@, i as int),
        decreases items.len() - i,
    {
        let item = items[i];
        let mut at: usize = sorted.len();
        let ghost place = place_among(sorted@, item.key, sorted@.len() as int);
        while at > 0 && item.key.lt(sorted[at - 1].key)
            invariant
                at <= sorted.len(),
                place == place_among(sorted@, item.key, at as int),
            decreases at,
        {
            at = at - 1;
        }
        assert(place == at);
        sorted.insert(at, item);
        i = i + 1;
    }
    sorted
}

/// The first of the first `upto` things, which are at least one, whose distance is least.
pub open spec fn closest_upto<N: Scalar>(items: Seq<Keyed<N>>, target: N, upto: int) -> int
    decreases upto,
{
    if upto <= 1 {
        0
    } else {
        let before = closest_upto(items, target, upto - 1);
        if (items[upto - 1].key - target).spec_abs() < (items[before].key - target).spec_abs() {
            upto - 1
        } else {
            before
        }
    }
}

/// The first thing, of at least one, whose distance from a target is least.
pub fn find_closest<N: Scalar>(items: &Vec<Keyed<N>>, target: N) -> (r: usize)
    requires
        items.len() > 0,
    ensures
        r == closest_upto(items@, target, items@.len() as int),
        r < items.len(),
{
    let mut best: usize = 0;
    let mut i: usize = 1;
    while i < items.len()
        invariant
            1 <= i <= items.len(),
            best < i,
            best == closest_upto(items@, target, i as int),
        decreases items.len() - i,
    {
        if items[i].key.sub(target).abs().lt(items[best].key.sub(target).abs()) {
            best = i;
        }
        i = i + 1;
    }
    best
}

/// The closest thing is closest: nothing is nearer to the target, and nothing before it is as
/// near.
pub proof fn law_closest_is_first_minimum<N: Scalar>(
    items: Seq<Keyed<N>>,
    target: N,
    upto: int,
)
    requires
        ordered::<N>(),
        0 < upto <= items.len(),
    ensures
        ({
            let best = closest_upto(items, target, upto);
            let distance = (items[best].key - target).spec_abs();
            &&& 0 <= best < upto
            &&& forall|i: int|
                0 <= i < upto ==> distance.spec_le((#[trigger] items[i].key - target).spec_abs())
            &&& forall|i: int|
                0 <= i < best ==> distance.spec_lt((#[trigger] items[i].key - target).spec_abs())
        }),
    decreases upto,
{
    if upto > 1 {
        law_closest_is_first_minimum(items, target, upto - 1);
        let before = closest_upto(items, target, upto - 1);
        let best = closest_upto(items, target, upto);
        let d_before = (items[before].key - target).spec_abs();
        let d_best = (items[best].key - target).spec_abs();
        let d_new = (items[upto - 1].key - target).spec_abs();
        assert(d_new.spec_lt(d_before) <==> !d_before.spec_le(d_new));
        assert(d_new.spec_le(d_before) || d_before.spec_le(d_new));
        assert forall|i: int| 0 <= i < upto implies d_best.spec_le(
            (#[trigger] items[i].key - target).spec_abs(),
        ) by {
            let d = (items[i].key - target).spec_abs();
            if i < upto - 1 {
                assert(d_before.spec_le(d));
            }
            assert(d_new.spec_le(d_new));
        }
        assert forall|i: int| 0 <= i < best implies d_best.spec_lt(
            (#[trigger] items[i].key - target).spec_abs(),
        ) by {
            let d = (items[i].key - target).spec_abs();
            if best == upto - 1 {
                assert(d_before.spec_le(d));
                assert(d_new.spec_lt(d) <==> !d.spec_le(d_new));
                if d.spec_le(d_new) {
                    assert(d_before.spec_le(d_new));
                }
            }
        }
    } else {
        let d = (items[0].key - target).spec_abs();
        assert(d.spec_le(d));
    }
}

} // verus!
