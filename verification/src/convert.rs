//! Conversions from the range expressions of Rust into [`KRange`].

use std::ops::{Bound, Range, RangeBounds, RangeFrom, RangeFull, RangeInclusive, RangeTo, RangeToInclusive};
use vstd::prelude::*;

use crate::range::{KInt, KRange};

verus! {

/// `std::ops::RangeFrom`, `start..`; its one field is public.
#[verifier::external_type_specification]
#[verifier::reject_recursive_types(Idx)]
pub struct ExRangeFrom<Idx>(RangeFrom<Idx>);

/// `std::ops::RangeTo`, `..end`; its one field is public.
#[verifier::external_type_specification]
#[verifier::reject_recursive_types(Idx)]
pub struct ExRangeTo<Idx>(RangeTo<Idx>);

/// `std::ops::RangeToInclusive`, `..=end`; its one field is public.
#[verifier::external_type_specification]
#[verifier::reject_recursive_types(Idx)]
pub struct ExRangeToInclusive<Idx>(RangeToInclusive<Idx>);

/// `std::ops::RangeFull`, `..`, which holds nothing.
#[verifier::external_type_specification]
pub struct ExRangeFull(RangeFull);

/// `std::ops::Bound`, one end of a range: included, excluded or absent; its
/// variants are public.
#[verifier::external_type_specification]
#[verifier::reject_recursive_types(T)]
pub struct ExBound<T>(Bound<T>);

/// `RangeInclusive::start`, the lower bound of `start..=end`; the
/// documentation leaves the value open once the range has been walked to its
/// end, so nothing is said of it then.
pub assume_specification<Idx>[ RangeInclusive::<Idx>::start ](range: &RangeInclusive<Idx>) -> (r:
    &Idx)
    ensures
        !range@.exhausted ==> *r == range@.start,
;

/// `RangeBounds::end_bound` of `start..=end`, with `Included(end)` given as
/// `(end, true)` and `Excluded(end)` as `(end, false)`. An inclusive range that
/// has not been walked to its end reports its end as included; nothing is said
/// of one that has.
#[verifier::external_body]
fn inclusive_end_bound(range: &RangeInclusive<KInt>) -> (r: Option<(KInt, bool)>)
    ensures
        !range@.exhausted ==> r == Some((range@.end, true)),
{
    match range.end_bound() {
        Bound::Included(end) => Some((*end, true)),
        Bound::Excluded(end) => Some((*end, false)),
        Bound::Unbounded => None,
    }
}

/// The start bound given by a `Bound`: an included value, or none.
pub open spec fn start_of(b: Bound<KInt>) -> Option<KInt> {
    match b {
        Bound::Included(s) => Some(s),
        _ => None,
    }
}

/// The end bound given by a `Bound`, with its inclusive flag, or none.
pub open spec fn end_of(b: Bound<KInt>) -> Option<(KInt, bool)> {
    match b {
        Bound::Included(e) => Some((e, true)),
        Bound::Excluded(e) => Some((e, false)),
        Bound::Unbounded => None,
    }
}

impl KRange {
    /// The range between a pair of bounds, as `RangeBounds` gives them.
    ///
    /// A start is included or absent; an excluded start has no meaning for a
    /// range and is not accepted.
    pub fn from_bounds(start: Bound<KInt>, end: Bound<KInt>) -> (r: Self)
        requires
            !(start is Excluded),
        ensures
            r == KRange::spec_new(start_of(start), end_of(end)),
            r.built_from(start_of(start), end_of(end)),
    {
        let start = match start {
            Bound::Included(s) => Some(s),
            _ => None,
        };
        let end = match end {
            Bound::Included(e) => Some((e, true)),
            Bound::Excluded(e) => Some((e, false)),
            Bound::Unbounded => None,
        };
        KRange::new(start, end)
    }
}

impl From<Range<KInt>> for KRange {
    /// The range `start..end`.
    fn from(range: Range<KInt>) -> (r: Self)
        ensures
            r.built_from(Some(range.start), Some((range.end, false))),
    {
        KRange::new(Some(range.start), Some((range.end, false)))
    }
}

impl vstd::std_specs::convert::FromSpecImpl<Range<KInt>> for KRange {
    open spec fn obeys_from_spec() -> bool {
        true
    }

    open spec fn from_spec(v: Range<KInt>) -> KRange {
        KRange::spec_new(Some(v.start), Some((v.end, false)))
    }
}

impl From<RangeFrom<KInt>> for KRange {
    /// The range `start..`.
    fn from(range: RangeFrom<KInt>) -> (r: Self)
        ensures
            r.built_from(Some(range.start), None),
    {
        KRange::new(Some(range.start), None)
    }
}

impl vstd::std_specs::convert::FromSpecImpl<RangeFrom<KInt>> for KRange {
    open spec fn obeys_from_spec() -> bool {
        true
    }

    open spec fn from_spec(v: RangeFrom<KInt>) -> KRange {
        KRange::spec_new(Some(v.start), None)
    }
}

impl From<RangeInclusive<KInt>> for KRange {
    /// The range `start..=end`.
    fn from(range: RangeInclusive<KInt>) -> (r: Self)
        ensures
            !range@.exhausted ==> r == KRange::spec_new(
                Some(range@.start),
                Some((range@.end, true)),
            ) && r.built_from(Some(range@.start), Some((range@.end, true))),
    {
        let start = *range.start();
        match inclusive_end_bound(&range) {
            Some(end) => KRange::new(Some(start), Some(end)),
            None => KRange::new(Some(start), None),
        }
    }
}

impl vstd::std_specs::convert::FromSpecImpl<RangeInclusive<KInt>> for KRange {
    /// Nothing is promised of a range that has been walked to its end, so the
    /// conversion is stated by the impl's own `ensures` alone.
    open spec fn obeys_from_spec() -> bool {
        false
    }

    open spec fn from_spec(v: RangeInclusive<KInt>) -> KRange {
        KRange::spec_new(Some(v@.start), Some((v@.end, true)))
    }
}

impl From<RangeTo<KInt>> for KRange {
    /// The range `..end`.
    fn from(range: RangeTo<KInt>) -> (r: Self)
        ensures
            r.built_from(None, Some((range.end, false))),
    {
        KRange::new(None, Some((range.end, false)))
    }
}

impl vstd::std_specs::convert::FromSpecImpl<RangeTo<KInt>> for KRange {
    open spec fn obeys_from_spec() -> bool {
        true
    }

    open spec fn from_spec(v: RangeTo<KInt>) -> KRange {
        KRange::spec_new(None, Some((v.end, false)))
    }
}

impl From<RangeToInclusive<KInt>> for KRange {
    /// The range `..=end`.
    fn from(range: RangeToInclusive<KInt>) -> (r: Self)
        ensures
            r.built_from(None, Some((range.end, true))),
    {
        KRange::new(None, Some((range.end, true)))
    }
}

impl vstd::std_specs::convert::FromSpecImpl<RangeToInclusive<KInt>> for KRange {
    open spec fn obeys_from_spec() -> bool {
        true
    }

    open spec fn from_spec(v: RangeToInclusive<KInt>) -> KRange {
        KRange::spec_new(None, Some((v.end, true)))
    }
}

impl From<RangeFull> for KRange {
    /// The range `..`, with neither bound.
    fn from(range: RangeFull) -> (r: Self)
        ensures
            r.built_from(None, None),
    {
        KRange::new(None, None)
    }
}

impl vstd::std_specs::convert::FromSpecImpl<RangeFull> for KRange {
    open spec fn obeys_from_spec() -> bool {
        true
    }

    open spec fn from_spec(v: RangeFull) -> KRange {
        KRange::spec_new(None, None)
    }
}

} // verus!
