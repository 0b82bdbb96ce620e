//! Properties of ranges that span several operations.

use vstd::prelude::*;

use crate::format::{decimal, digits};
use crate::range::{
    back_step, back_stepped, bounded_elements, clamp, front_popped, intersection_of,
    lemma_spec_new, max, min, sort_bounded, KInt, KRange,
};

verus! {

/// A range made by [`KRange::new`] reports back the bounds it was made with,
/// through [`KRange::start`] and [`KRange::end`].
pub proof fn law_new_reports_its_bounds(start: Option<KInt>, end: Option<(KInt, bool)>)
    ensures
        KRange::spec_new(start, end).start_bound() == start,
        KRange::spec_new(start, end).end_bound() == end,
        KRange::spec_new(start, end).has_both_bounds() == (start is Some && end is Some),
{
    lemma_spec_new(start, end);
}

/// The sorted translation of a range never descends: its start is at most its
/// end.
pub proof fn law_sorted_range_ascends(r: KRange)
    ensures
        r.sorted_bounds().0 <= r.sorted_bounds().1,
{
}

/// An ascending range `start..end` or `start..=end` is its own sorted
/// translation, with an inclusive end moved one step up.
pub proof fn law_ascending_range_sorts_to_itself(start: KInt, end: KInt, inclusive: bool)
    requires
        start < end,
    ensures
        KRange::spec_new(Some(start), Some((end, inclusive))).sorted_bounds() == (
            start as int,
            if inclusive { end + 1 } else { end as int },
        ),
{
    lemma_spec_new(Some(start), Some((end, inclusive)));
}

/// A descending range, or one whose start equals its end, sorts to the
/// numbers above its end (from its end, when the end is inclusive) up to and
/// including its start.
pub proof fn law_descending_range_sorts_below_its_start(start: KInt, end: KInt, inclusive: bool)
    requires
        start >= end,
    ensures
        KRange::spec_new(Some(start), Some((end, inclusive))).sorted_bounds() == (
            if inclusive { end as int } else { end + 1 },
            start + 1,
        ),
{
    lemma_spec_new(Some(start), Some((end, inclusive)));
}

/// The elements of a range with both bounds, counted out: an ascending range
/// is walked up one by one from its start to its end, a descending one down one
/// by one from its start to its end, the end itself only when it is
/// inclusive; a range whose start equals its end holds that number when the
/// end is inclusive and nothing otherwise.
pub proof fn law_elements_count_from_the_start(start: KInt, end: KInt, inclusive: bool, i: int)
    ensures
        ({
            let elems = KRange::spec_new(Some(start), Some((end, inclusive))).elements();
            &&& start < end ==> elems.len() == end - start + if inclusive { 1int } else { 0 }
            &&& start > end ==> elems.len() == start - end + if inclusive { 1int } else { 0 }
            &&& start == end ==> elems.len() == if inclusive { 1int } else { 0 }
            &&& 0 <= i < elems.len() ==> elems[i] == if start <= end {
                start + i
            } else {
                start - i
            }
        }),
{
    lemma_spec_new(Some(start), Some((end, inclusive)));
}

/// A range with both bounds holds exactly the numbers of its sorted
/// translation: a number is one of the elements that the range is walked
/// through if and only if the range contains it.
pub proof fn law_elements_are_the_sorted_range(r: KRange, x: int)
    requires
        r.has_both_bounds(),
    ensures
        r.elements().contains(x) <==> r.sorted_bounds().0 <= x < r.sorted_bounds().1,
{
    let s = r.start_bound()->0 as int;
    let e = (r.end_bound()->0).0 as int;
    let inclusive = (r.end_bound()->0).1;
    let elems = bounded_elements(s, e, inclusive);
    let (lo, hi) = sort_bounded(s, e, inclusive);
    if lo <= x < hi {
        if s < e {
            assert(elems[x - s] == x);
        } else if s > e {
            assert(elems[s - x] == x);
        } else {
            assert(elems[0] == x);
        }
    }
}

/// The size of a range with both bounds is the number of its elements.
pub proof fn law_size_counts_elements(r: KRange)
    requires
        r.has_both_bounds(),
    ensures
        r.sorted_bounds().1 - r.sorted_bounds().0 == r.elements().len(),
{
}

/// Two ranges have an intersection exactly when some number lies in both, and
/// the intersection holds exactly the numbers that both hold.
pub proof fn law_intersection_holds_common_numbers(a: KRange, b: KRange, x: int)
    requires
        a.sorted_fits(),
        b.sorted_fits(),
    ensures
        intersection_of(a, b) is Some <==> exists|y: int|
            #[trigger] a.sorted_contains(y) && #[trigger] b.sorted_contains(y),
        intersection_of(a, b) is Some ==> {
            let r = intersection_of(a, b)->0;
            &&& r.sorted_fits()
            &&& r.sorted_contains(x) <==> (a.sorted_contains(x) && b.sorted_contains(x))
        },
{
    let (a0, a1) = a.sorted_bounds();
    let (b0, b1) = b.sorted_bounds();
    let lo = max(a0, b0);
    let hi = min(a1, b1);
    lemma_spec_new(Some(lo as KInt), Some((hi as KInt, false)));
    if lo < hi {
        assert(a.sorted_contains(lo) && b.sorted_contains(lo));
    }
}

/// The intersection does not depend on the order of the two ranges.
pub proof fn law_intersection_is_symmetric(a: KRange, b: KRange)
    ensures
        intersection_of(a, b) == intersection_of(b, a),
{
}

/// Walking a range from its front with [`KRange::pop_front`] hands out every
/// element once, in order, and nothing after the last: for any run of calls
/// starting from a range with both bounds, call `i` hands out `elements()[i]`
/// while there are elements left, and `None` from then on.
pub proof fn law_front_walk_hands_out_each_element(ranges: Seq<KRange>, outputs: Seq<Option<KInt>>)
    requires
        ranges.len() == outputs.len() + 1,
        forall|i: int| 0 <= i < outputs.len() ==> front_popped(ranges[i], outputs[i], ranges[i + 1]),
    ensures
        forall|i: int|
            0 <= i < outputs.len() ==> outputs[i] == if i < ranges[0].elements().len() {
                Some(ranges[0].elements()[i] as KInt)
            } else {
                None::<KInt>
            },
{
    assert forall|i: int| 0 <= i < outputs.len() implies outputs[i] == if i
        < ranges[0].elements().len() {
        Some(ranges[0].elements()[i] as KInt)
    } else {
        None::<KInt>
    } by {
        lemma_front_walk_rest(ranges, outputs, i);
        assert(front_popped(ranges[i], outputs[i], ranges[i + 1]));
    }
}

/// After `j` calls of a front walk, the elements left are those past the first
/// `j`.
proof fn lemma_front_walk_rest(ranges: Seq<KRange>, outputs: Seq<Option<KInt>>, j: int)
    requires
        ranges.len() == outputs.len() + 1,
        forall|i: int| 0 <= i < outputs.len() ==> front_popped(ranges[i], outputs[i], ranges[i + 1]),
        0 <= j <= outputs.len(),
    ensures
        ranges[j].elements() == ranges[0].elements().skip(
            if j < ranges[0].elements().len() { j } else { ranges[0].elements().len() as int },
        ),
    decreases j,
{
    let all = ranges[0].elements();
    if j == 0 {
        assert(all.skip(0) =~= all);
    } else {
        lemma_front_walk_rest(ranges, outputs, j - 1);
        assert(front_popped(ranges[j - 1], outputs[j - 1], ranges[j]));
        if j - 1 < all.len() {
            assert(all.skip(j - 1).drop_first() =~= all.skip(j));
        }
    }
}

/// A range with a start and no end keeps its start, negative or not: its
/// sorted translation runs from the start to the largest `KInt`, so it
/// contains exactly the numbers from its start up to, and not including, the
/// largest `KInt`.
pub proof fn law_open_end_keeps_its_start(start: KInt, x: int)
    ensures
        KRange::spec_new(Some(start), None).sorted_bounds() == (
            start as int,
            0x7fff_ffff_ffff_ffffint,
        ),
        KRange::spec_new(Some(start), None).sorted_fits(),
        KRange::spec_new(Some(start), None).sorted_contains(x) <==> (start <= x
            < 0x7fff_ffff_ffff_ffffint),
{
    lemma_spec_new(Some(start), None);
}

/// A range with an end and no start keeps its end, negative or not: it
/// contains exactly the numbers from the smallest `KInt` below its end, or up
/// to and including its end when the end is inclusive.
pub proof fn law_open_start_keeps_its_end(end: KInt, inclusive: bool, x: int)
    ensures
        KRange::spec_new(None, Some((end, inclusive))).sorted_bounds() == (
            -0x8000_0000_0000_0000int,
            if inclusive { end + 1 } else { end as int },
        ),
        KRange::spec_new(None, Some((end, inclusive))).sorted_contains(x) <==> (
        -0x8000_0000_0000_0000int <= x && if inclusive { x <= end } else { x < end }),
{
    lemma_spec_new(None, Some((end, inclusive)));
}

/// [`KRange::new`] holds both bounds in 32-bit form exactly when each lies in
/// `-2147483648..=2147483647`, and in 64-bit form otherwise.
pub proof fn law_new_uses_32_bit_form_when_bounds_fit(start: KInt, end: KInt, inclusive: bool)
    ensures
        KRange::spec_new(Some(start), Some((end, inclusive))).is_large() <==> !(-2147483648
            <= start <= 2147483647 && -2147483648 <= end <= 2147483647),
{
    lemma_spec_new(Some(start), Some((end, inclusive)));
}

/// [`KRange::pop_back`] on an ascending inclusive range made by
/// [`KRange::new`] from bounds in `-2147483648..=2147483647` hands out its
/// last element and leaves the others.
pub proof fn law_pop_back_walks_ascending_inclusive_ranges(start: KInt, end: KInt)
    requires
        -2147483648 <= start <= end <= 2147483647,
    ensures
        ({
            let r = KRange::spec_new(Some(start), Some((end, true)));
            let step = back_step(start, end, true, r.is_large());
            &&& step.0 == Some(end)
            &&& step.1 == start
            &&& bounded_elements(step.1 as int, step.2 as int, step.3) == r.elements().drop_last()
            &&& end == r.elements().last()
        }),
{
    let r = KRange::spec_new(Some(start), Some((end, true)));
    lemma_spec_new(Some(start), Some((end, true)));
    let step = back_step(start, end, true, r.is_large());
    assert(bounded_elements(step.1 as int, step.2 as int, step.3) =~= r.elements().drop_last());
}

/// On a descending range, or one whose start equals its end, a step of
/// [`KRange::pop_back`] is a step from the front, whatever form the bounds are
/// held in: a descending range hands out its start and moves it one step
/// down; a single inclusive number is handed out once and the end becomes
/// exclusive; an empty range hands out nothing and keeps its bounds.
pub proof fn law_pop_back_on_descending_ranges(start: KInt, end: KInt, inclusive: bool, large: bool)
    requires
        start >= end,
    ensures
        ({
            let step = back_step(start, end, inclusive, large);
            let elems = bounded_elements(start as int, end as int, inclusive);
            let rest = bounded_elements(step.1 as int, step.2 as int, step.3);
            &&& start > end ==> step.0 == Some(start) && step.1 == start - 1 && step.2 == end
                && step.3 == inclusive
            &&& start == end && inclusive ==> step.0 == Some(start) && step.1 == start && step.2
                == end && !step.3
            &&& start == end && !inclusive ==> step.0 == None::<KInt> && step.1 == start
                && step.2 == end && !step.3
            &&& step.1 >= step.2
            &&& elems.len() > 0 ==> step.0 == Some(elems[0] as KInt) && rest == elems.drop_first()
            &&& elems.len() == 0 ==> step.0 == None::<KInt> && rest == elems
        }),
{
    let step = back_step(start, end, inclusive, large);
    let elems = bounded_elements(start as int, end as int, inclusive);
    let rest = bounded_elements(step.1 as int, step.2 as int, step.3);
    if elems.len() > 0 {
        assert(rest =~= elems.drop_first());
    }
}

/// Walking a descending range, or a range of one number, from its end with
/// [`KRange::pop_back`] hands out every element once, from the start, and
/// then nothing: for any run of calls that each take the step
/// [`KRange::pop_back`] promises, call `i` hands out `elements()[i]` while
/// there are elements left, and `None` from then on.
pub proof fn law_back_walk_of_descending_ranges(ranges: Seq<KRange>, outputs: Seq<Option<KInt>>)
    requires
        ranges.len() == outputs.len() + 1,
        ranges[0].has_both_bounds(),
        ranges[0].start_bound()->0 >= (ranges[0].end_bound()->0).0,
        forall|i: int| 0 <= i < outputs.len() ==> back_stepped(ranges[i], outputs[i], ranges[i + 1]),
    ensures
        forall|i: int|
            0 <= i < outputs.len() ==> outputs[i] == if i < ranges[0].elements().len() {
                Some(ranges[0].elements()[i] as KInt)
            } else {
                None::<KInt>
            },
{
    assert forall|i: int| 0 <= i < outputs.len() implies outputs[i] == if i
        < ranges[0].elements().len() {
        Some(ranges[0].elements()[i] as KInt)
    } else {
        None::<KInt>
    } by {
        lemma_back_walk_of_descending_rest(ranges, outputs, i);
        let r = ranges[i];
        law_pop_back_on_descending_ranges(
            r.start_bound()->0,
            (r.end_bound()->0).0,
            (r.end_bound()->0).1,
            r.is_large(),
        );
        assert(back_stepped(ranges[i], outputs[i], ranges[i + 1]));
    }
}

/// After `j` calls of a walk from the end of a descending range, the range is
/// still descending and its elements are those past the first `j`.
proof fn lemma_back_walk_of_descending_rest(
    ranges: Seq<KRange>,
    outputs: Seq<Option<KInt>>,
    j: int,
)
    requires
        ranges.len() == outputs.len() + 1,
        ranges[0].has_both_bounds(),
        ranges[0].start_bound()->0 >= (ranges[0].end_bound()->0).0,
        forall|i: int| 0 <= i < outputs.len() ==> back_stepped(ranges[i], outputs[i], ranges[i + 1]),
        0 <= j <= outputs.len(),
    ensures
        ranges[j].has_both_bounds(),
        ranges[j].start_bound()->0 >= (ranges[j].end_bound()->0).0,
        ranges[j].elements() == ranges[0].elements().skip(
            if j < ranges[0].elements().len() { j } else { ranges[0].elements().len() as int },
        ),
    decreases j,
{
    let all = ranges[0].elements();
    if j == 0 {
        assert(all.skip(0) =~= all);
    } else {
        lemma_back_walk_of_descending_rest(ranges, outputs, j - 1);
        let r = ranges[j - 1];
        assert(back_stepped(ranges[j - 1], outputs[j - 1], ranges[j]));
        law_pop_back_on_descending_ranges(
            r.start_bound()->0,
            (r.end_bound()->0).0,
            (r.end_bound()->0).1,
            r.is_large(),
        );
        if j - 1 < all.len() {
            assert(all.skip(j - 1).drop_first() =~= all.skip(j));
        }
    }
}

/// The indices of a range whose sorted translation already lies within
/// `0..=max_index` are that sorted translation, unchanged.
pub proof fn law_indices_keep_bounds_within_range(r: KRange, max_index: int)
    requires
        0 <= r.sorted_bounds().0,
        r.sorted_bounds().1 <= max_index,
    ensures
        clamp(r.sorted_bounds().0, 0, max_index) == r.sorted_bounds().0,
        clamp(r.sorted_bounds().1, clamp(r.sorted_bounds().0, 0, max_index), max_index)
            == r.sorted_bounds().1,
{
    law_sorted_range_ascends(r);
}

/// On an ascending range, a step of [`KRange::pop_back`] hands out the end
/// bound and keeps the start and the inclusive flag; the end moves one step
/// down when the bounds are held in 32-bit form and one step up when they are
/// held in 64-bit form, which [`KRange::pop_back`] asks to stay below the
/// largest `KInt`.
pub proof fn law_pop_back_on_ascending_ranges(start: KInt, end: KInt, inclusive: bool, large: bool)
    requires
        start < end,
        large ==> end < 0x7fff_ffff_ffff_ffffint,
    ensures
        back_step(start, end, inclusive, large).0 == Some(end),
        back_step(start, end, inclusive, large).1 == start,
        back_step(start, end, inclusive, large).2 == if large { end + 1 } else { end - 1 },
        back_step(start, end, inclusive, large).3 == inclusive,
{
}

/// An index of a range below 0 becomes 0, one above `max_index` becomes
/// `max_index`, and one in between is kept; the end index is held in the same
/// way between the start index and `max_index`.
pub proof fn law_indices_clamp_each_bound(r: KRange, max_index: int)
    requires
        0 <= max_index,
    ensures
        ({
            let (lo, hi) = r.sorted_bounds();
            let start = clamp(lo, 0, max_index);
            let end = clamp(hi, start, max_index);
            &&& lo < 0 ==> start == 0
            &&& lo > max_index ==> start == max_index
            &&& 0 <= lo <= max_index ==> start == lo
            &&& hi < start ==> end == start
            &&& hi > max_index ==> end == max_index
            &&& start <= hi <= max_index ==> end == hi
        }),
{
}

/// The text of a range made from its bounds is the decimal start, if any,
/// then `..`, then `=` for an inclusive end and the decimal end, if any.
pub proof fn law_rendering_spells_the_bounds(start: Option<KInt>, end: Option<(KInt, bool)>)
    ensures
        KRange::spec_new(start, end).rendering() == (match start {
            Some(s) => decimal(s as int),
            None => Seq::<char>::empty(),
        }) + seq!['.', '.'] + (match end {
            Some((e, true)) => seq!['='] + decimal(e as int),
            Some((e, false)) => decimal(e as int),
            None => Seq::<char>::empty(),
        }),
{
    lemma_spec_new(start, end);
}

/// The indices of a range lie within `0..=max_index`, the start at most the
/// end; a missing start gives index 0 and a missing end gives `max_index`.
pub proof fn law_indices_within_bounds(r: KRange, max_index: int)
    requires
        0 <= max_index <= KInt::MAX,
    ensures
        ({
            let start = clamp(r.sorted_bounds().0, 0, max_index);
            let end = clamp(r.sorted_bounds().1, start, max_index);
            &&& 0 <= start <= end <= max_index
            &&& r.start_bound() is None ==> start == 0
            &&& r.end_bound() is None ==> end == max_index
        }),
{
}

/// The number that a string of decimal digits stands for, the most
/// significant digit first.
pub open spec fn numeral_value(text: Seq<char>) -> int
    decreases text.len(),
{
    if text.len() == 0 {
        0
    } else {
        numeral_value(text.drop_last()) * 10 + (text.last() as int - '0' as int)
    }
}

/// True when every character of `text` is a decimal digit.
pub open spec fn all_digits(text: Seq<char>) -> bool {
    forall|i: int| 0 <= i < text.len() ==> '0' <= #[trigger] text[i] <= '9'
}

/// The digits that [`KRange::to_string`] writes for a natural number are its
/// decimal numeral: they are all decimal digits, there is at least one, the
/// first is not `0` unless the number is 0, and they stand for the number.
pub proof fn law_digits_are_the_numeral(n: nat)
    ensures
        digits(n).len() >= 1,
        all_digits(digits(n)),
        numeral_value(digits(n)) == n,
        n > 0 ==> digits(n)[0] != '0',
    decreases n,
{
    let d = digits(n);
    if n >= 10 {
        law_digits_are_the_numeral(n / 10);
        assert(d.drop_last() =~= digits(n / 10));
        assert(d[0] == digits(n / 10)[0]);
        assert(d.last() as int - '0' as int == n % 10);
        assert(numeral_value(d) == numeral_value(digits(n / 10)) * 10 + n % 10);
        assert((n / 10) * 10 + n % 10 == n) by (nonlinear_arith);
    } else {
        assert(d.drop_last() =~= Seq::<char>::empty());
        assert(numeral_value(d.drop_last()) == 0);
        assert(d.last() as int - '0' as int == n);
    }
}

/// The decimal text of an integer is `-` followed by the numeral of its
/// magnitude when it is negative, and the numeral of the integer otherwise.
pub proof fn law_decimal_is_the_signed_numeral(n: int)
    ensures
        n < 0 ==> decimal(n).len() >= 2 && decimal(n)[0] == '-' && all_digits(decimal(n).drop_first())
            && numeral_value(decimal(n).drop_first()) == -n,
        n >= 0 ==> all_digits(decimal(n)) && numeral_value(decimal(n)) == n,
{
    if n < 0 {
        law_digits_are_the_numeral((-n) as nat);
        assert(decimal(n).drop_first() =~= digits((-n) as nat));
    } else {
        law_digits_are_the_numeral(n as nat);
    }
}

} // verus!
