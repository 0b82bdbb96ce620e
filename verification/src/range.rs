//! The integer range type used by the Koto runtime.

use std::ops::Range;
use vstd::prelude::*;

use crate::format::{decimal, push_char, push_decimal};

verus! {

/// The integer type of range bounds.
pub type KInt = i64;

/// True when `x` can be held by an `i32`.
pub open spec fn fits_i32(x: KInt) -> bool {
    i32::MIN <= x <= i32::MAX
}

/// The sorted translation of a range with both bounds: the lowest element and
/// one past the highest.
pub open spec fn sort_bounded(start: int, end: int, inclusive: bool) -> (int, int) {
    if start < end {
        (start, if inclusive { end + 1 } else { end })
    } else {
        (if inclusive { end } else { end + 1 }, start + 1)
    }
}

/// The larger of two integers.
pub open spec fn max(a: int, b: int) -> int {
    if b < a {
        a
    } else {
        b
    }
}

/// The smaller of two integers.
pub open spec fn min(a: int, b: int) -> int {
    if b < a {
        b
    } else {
        a
    }
}

/// `x` held to the interval `lo..=hi`.
pub open spec fn clamp(x: int, lo: int, hi: int) -> int {
    if x < lo {
        lo
    } else if x > hi {
        hi
    } else {
        x
    }
}

/// The elements of a range with both bounds, in the order in which the range
/// is walked from its start.
pub open spec fn bounded_elements(start: int, end: int, inclusive: bool) -> Seq<int> {
    let extra: int = if inclusive { 1 } else { 0 };
    if start < end {
        Seq::new((end - start + extra) as nat, |i: int| start + i)
    } else if start > end {
        Seq::new((start - end + extra) as nat, |i: int| start - i)
    } else if inclusive {
        seq![start]
    } else {
        Seq::empty()
    }
}

/// The intersection of two ranges: the numbers from the larger of their
/// sorted starts up to the smaller of their sorted ends, as an exclusive range,
/// or `None` when that leaves no number.
pub open spec fn intersection_of(a: KRange, b: KRange) -> Option<KRange> {
    let lo = max(a.sorted_bounds().0, b.sorted_bounds().0);
    let hi = min(a.sorted_bounds().1, b.sorted_bounds().1);
    if lo < hi {
        Some(KRange::spec_new(Some(lo as KInt), Some((hi as KInt, false))))
    } else {
        None
    }
}

/// The range that [`KRange::new`] makes has the bounds it was given, in the
/// form that `new` picks for them.
pub broadcast proof fn lemma_spec_new(start: Option<KInt>, end: Option<(KInt, bool)>)
    ensures
        (#[trigger] KRange::spec_new(start, end)).built_from(start, end),
{
}

/// One step of [`KRange::pop_front`] on a range with both bounds: the element
/// handed out, the new start and the new inclusive flag.
pub open spec fn front_step(start: KInt, end: KInt, inclusive: bool) -> (Option<KInt>, KInt, bool) {
    if start < end {
        (Some(start), (start + 1) as KInt, inclusive)
    } else if start > end {
        (Some(start), (start - 1) as KInt, inclusive)
    } else if inclusive {
        (Some(start), start, false)
    } else {
        (None, start, inclusive)
    }
}

/// One step of [`KRange::pop_back`] on a range with both bounds, held in 64-bit
/// form when `large` holds: the element handed out, the new start, the new end
/// and the new inclusive flag.
///
/// An ascending range hands out its end bound and moves the end one step down,
/// or one step up when held in 64-bit form; a descending range hands out its
/// start and moves the start one step down, as [`KRange::pop_front`] does.
pub open spec fn back_step(start: KInt, end: KInt, inclusive: bool, large: bool) -> (
    Option<KInt>,
    KInt,
    KInt,
    bool,
) {
    if start < end {
        if large {
            (Some(end), start, (end + 1) as KInt, inclusive)
        } else {
            (Some(end), start, (end - 1) as KInt, inclusive)
        }
    } else if start > end {
        (Some(start), (start - 1) as KInt, end, inclusive)
    } else if inclusive {
        (Some(start), start, end, false)
    } else {
        (None, start, end, inclusive)
    }
}

/// One call of [`KRange::pop_front`] on a range with both bounds, as seen
/// through its elements: the first element is handed out and the rest are
/// left; an empty range hands out nothing and is left as it was.
pub open spec fn front_popped(before: KRange, out: Option<KInt>, after: KRange) -> bool {
    &&& after.has_both_bounds()
    &&& if before.elements().len() > 0 {
        &&& out == Some(before.elements()[0] as KInt)
        &&& after.elements() == before.elements().drop_first()
    } else {
        &&& out == None::<KInt>
        &&& after == before
    }
}

/// One call of [`KRange::pop_back`] on a range with both bounds, as seen
/// through its bounds: [`back_step`] gives the element handed out and the new
/// bounds, and the form in which the bounds are held is kept.
pub open spec fn back_stepped(before: KRange, out: Option<KInt>, after: KRange) -> bool {
    let s = before.start_bound()->0;
    let (e, inclusive) = before.end_bound()->0;
    let step = back_step(s, e, inclusive, before.is_large());
    &&& out == step.0
    &&& after.start_bound() == Some(step.1)
    &&& after.end_bound() == Some((step.2, step.3))
    &&& after.is_large() == before.is_large()
}

/// Both bounds of a range whose bounds do not fit in an `i32`.
///
/// Kept behind a pointer so that a [`KRange`] stays 16 bytes wide.
#[derive(Clone, Debug, Hash, PartialEq, Eq)]
struct BoundedKint {
    start: KInt,
    end: KInt,
    inclusive: bool,
}

/// The bounds of a range; both bounds are kept in 32-bit form when they fit.
#[derive(Clone, Debug, Hash, PartialEq, Eq)]
enum Inner {
    Unbounded,
    From { start: KInt },
    To { end: KInt, inclusive: bool },
    Bounded { start: i32, end: i32, inclusive: bool },
    BoundedLarge(Box<BoundedKint>),
}

/// The integer range type used by the Koto runtime.
///
/// A range has an optional start and an optional end; the end carries a flag
/// that says whether it is inclusive.
#[derive(Clone, Debug, Hash, PartialEq, Eq)]
pub struct KRange(Inner);

/// The error returned by range operations that need both bounds.
#[derive(Clone, Copy, Debug, PartialEq, Eq)]
pub enum RangeError {
    /// The range lacks a start or an end.
    ExpectedBoundedRange,
}

impl RangeError {
    /// The message that describes the error.
    pub fn message(&self) -> (r: &'static str)
        ensures
            r@ == "expected a bounded range"@,
    {
        match self {
            RangeError::ExpectedBoundedRange => "expected a bounded range",
        }
    }
}

impl KRange {
    /// The start bound of the range, if it has one.
    pub closed spec fn start_bound(&self) -> Option<KInt> {
        match self.0 {
            Inner::From { start } => Some(start),
            Inner::Bounded { start, .. } => Some(start as KInt),
            Inner::BoundedLarge(r) => Some(r.start),
            _ => None,
        }
    }

    /// The end bound of the range with its inclusive flag, if it has one.
    pub closed spec fn end_bound(&self) -> Option<(KInt, bool)> {
        match self.0 {
            Inner::To { end, inclusive } => Some((end, inclusive)),
            Inner::Bounded { end, inclusive, .. } => Some((end as KInt, inclusive)),
            Inner::BoundedLarge(r) => Some((r.end, r.inclusive)),
            _ => None,
        }
    }

    /// True when both bounds are held behind a pointer, in 64-bit form.
    pub closed spec fn is_large(&self) -> bool {
        self.0 is BoundedLarge
    }

    /// The range has the given bounds and is held in the form that
    /// [`KRange::new`] picks for them.
    pub open spec fn built_from(&self, start: Option<KInt>, end: Option<(KInt, bool)>) -> bool {
        &&& self.start_bound() == start
        &&& self.end_bound() == end
        &&& self.is_large() == (start is Some && end is Some && !(fits_i32(start->0)
            && fits_i32((end->0).0)))
    }

    /// True when the range has both a start and an end.
    pub open spec fn has_both_bounds(&self) -> bool {
        self.start_bound() is Some && self.end_bound() is Some
    }

    /// The sorted translation of the range, with missing bounds replaced by
    /// the smallest and the largest `KInt`.
    pub open spec fn sorted_bounds(&self) -> (int, int) {
        match (self.start_bound(), self.end_bound()) {
            (Some(s), Some((e, inclusive))) => sort_bounded(s as int, e as int, inclusive),
            (Some(s), None) => (s as int, KInt::MAX as int),
            (None, Some((e, inclusive))) => (
                KInt::MIN as int,
                if inclusive { e + 1 } else { e as int },
            ),
            (None, None) => (KInt::MIN as int, KInt::MAX as int),
        }
    }

    /// True when both ends of the sorted translation can be held by a `KInt`.
    pub open spec fn sorted_fits(&self) -> bool {
        self.sorted_bounds().0 <= KInt::MAX && self.sorted_bounds().1 <= KInt::MAX
    }

    /// True when `x` lies in the sorted translation of the range.
    pub open spec fn sorted_contains(&self, x: int) -> bool {
        self.sorted_bounds().0 <= x < self.sorted_bounds().1
    }

    /// The elements of a range with both bounds, in the order in which
    /// [`KRange::pop_front`] hands them out; empty for other ranges.
    pub open spec fn elements(&self) -> Seq<int> {
        match (self.start_bound(), self.end_bound()) {
            (Some(s), Some((e, inclusive))) => bounded_elements(s as int, e as int, inclusive),
            _ => Seq::empty(),
        }
    }

    /// The range that [`KRange::new`] makes from the given bounds.
    pub closed spec fn spec_new(start: Option<KInt>, end: Option<(KInt, bool)>) -> KRange {
        match (start, end) {
            (Some(start), Some((end, inclusive))) => {
                if fits_i32(start) && fits_i32(end) {
                    KRange(Inner::Bounded { start: start as i32, end: end as i32, inclusive })
                } else {
                    KRange(Inner::BoundedLarge(Box::new(BoundedKint { start, end, inclusive })))
                }
            },
            (Some(start), None) => KRange(Inner::From { start }),
            (None, Some((end, inclusive))) => KRange(Inner::To { end, inclusive }),
            (None, None) => KRange(Inner::Unbounded),
        }
    }

    /// A range is determined by its bounds and its form: two ranges with the
    /// same start, the same end and the same form are equal.
    pub proof fn lemma_bounds_determine_range(a: KRange, b: KRange)
        requires
            a.start_bound() == b.start_bound(),
            a.end_bound() == b.end_bound(),
            a.is_large() == b.is_large(),
        ensures
            a == b,
    {
        match (a.0, b.0) {
            (Inner::BoundedLarge(x), Inner::BoundedLarge(y)) => {
                assert(*x == *y);
            },
            _ => {},
        }
    }

    /// The text of the range: its start, `..`, then `=` when the end is
    /// inclusive, and its end; missing bounds are left out.
    pub open spec fn rendering(&self) -> Seq<char> {
        let start = match self.start_bound() {
            Some(s) => decimal(s as int),
            None => Seq::empty(),
        };
        let end = match self.end_bound() {
            Some((e, inclusive)) => if inclusive {
                seq!['='] + decimal(e as int)
            } else {
                decimal(e as int)
            },
            None => Seq::empty(),
        };
        start + seq!['.', '.'] + end
    }

    /// Initializes a range with the given start and end bounds.
    ///
    /// The end bound has an additional flag that specifies whether or not the
    /// end of the range is inclusive.
    pub fn new(start: Option<KInt>, end: Option<(KInt, bool)>) -> (r: Self)
        ensures
            r == KRange::spec_new(start, end),
            r.built_from(start, end),
    {
        match (start, end) {
            (Some(start), Some((end, inclusive))) => {
                if i32::MIN as KInt <= start && start <= i32::MAX as KInt && i32::MIN as KInt <= end
                    && end <= i32::MAX as KInt {
                    KRange(Inner::Bounded { start: start as i32, end: end as i32, inclusive })
                } else {
                    KRange(Inner::BoundedLarge(Box::new(BoundedKint { start, end, inclusive })))
                }
            },
            (Some(start), None) => KRange(Inner::From { start }),
            (None, Some((end, inclusive))) => KRange(Inner::To { end, inclusive }),
            (None, None) => KRange(Inner::Unbounded),
        }
    }
    /// Returns the start of the range.
    pub fn start(&self) -> (r: Option<KInt>)
        ensures
            r == self.start_bound(),
    {
        match &self.0 {
            Inner::From { start } => Some(*start),
            Inner::Bounded { start, .. } => Some(*start as KInt),
            Inner::BoundedLarge(r) => Some(r.start),
            _ => None,
        }
    }

    /// Returns the end of the range, with a flag that says whether the end
    /// is inclusive.
    pub fn end(&self) -> (r: Option<(KInt, bool)>)
        ensures
            r == self.end_bound(),
    {
        match &self.0 {
            Inner::To { end, inclusive } => Some((*end, *inclusive)),
            Inner::Bounded { end, inclusive, .. } => Some((*end as KInt, *inclusive)),
            Inner::BoundedLarge(r) => Some((r.end, r.inclusive)),
            _ => None,
        }
    }

    /// Returns a sorted translation of the range with missing boundaries
    /// replaced by min/max values.
    ///
    /// No clamping of the range boundaries is performed (as in
    /// [`KRange::indices`]), so negative indices are preserved.
    pub fn as_sorted_range(&self) -> (r: Range<KInt>)
        requires
            self.sorted_fits(),
        ensures
            r.start == self.sorted_bounds().0,
            r.end == self.sorted_bounds().1,
    {
        let (start, end) = match &self.0 {
            Inner::From { start } => (*start, KInt::MAX),
            Inner::To { end, inclusive } => (KInt::MIN, if *inclusive { *end + 1 } else { *end }),
            Inner::Bounded { start, end, inclusive } => sort_bounds(
                *start as KInt,
                *end as KInt,
                *inclusive,
            ),
            Inner::BoundedLarge(r) => sort_bounds(r.start, r.end, r.inclusive),
            Inner::Unbounded => (KInt::MIN, KInt::MAX),
        };
        start..end
    }

    /// Returns true if the provided number is within the sorted translation of
    /// the range.
    pub fn contains(&self, n: KInt) -> (r: bool)
        requires
            self.sorted_fits(),
        ensures
            r == self.sorted_contains(n as int),
    {
        self.as_sorted_range().contains(&n)
    }

    /// Returns the range translated into non-negative indices, suitable for
    /// container access.
    ///
    /// The start index is clamped to the range `0..=max_index`, and the end
    /// index to the range `start..=max_index`.
    pub fn indices(&self, max_index: usize) -> (r: Range<usize>)
        requires
            self.sorted_fits(),
            max_index <= KInt::MAX,
        ensures
            r.start == clamp(self.sorted_bounds().0, 0, max_index as int),
            r.end == clamp(self.sorted_bounds().1, r.start as int, max_index as int),
            r.start <= r.end <= max_index,
    {
        let max_index = max_index as KInt;
        let range = self.as_sorted_range();
        let start = clamp_kint(range.start, 0, max_index);
        let end = clamp_kint(range.end, start, max_index);
        (start as usize)..(end as usize)
    }

    /// Returns the intersection of two ranges.
    ///
    /// The intersection of the sorted translations of both ranges, as an
    /// exclusive range; `None` when they hold no number in common.
    pub fn intersection(&self, other: &KRange) -> (r: Option<Self>)
        requires
            self.sorted_fits(),
            other.sorted_fits(),
        ensures
            r == intersection_of(*self, *other),
            r is Some ==> r->0.built_from(
                Some(max(self.sorted_bounds().0, other.sorted_bounds().0) as KInt),
                Some((min(self.sorted_bounds().1, other.sorted_bounds().1) as KInt, false)),
            ),
    {
        let this = self.as_sorted_range();
        let other = other.as_sorted_range();
        let start = max_kint(this.start, other.start);
        let end = min_kint(this.end, other.end);
        if start < end {
            Some(Self::from(start..end))
        } else {
            None
        }
    }

    /// Returns true if the range's start is less than or equal to its end.
    ///
    /// A range with an end and no start is ascending when its end is above 0.
    pub fn is_ascending(&self) -> (r: bool)
        ensures
            r == match (self.start_bound(), self.end_bound()) {
                (Some(s), Some((e, _))) => s <= e,
                (None, Some((e, _))) => e > 0,
                _ => true,
            },
    {
        match &self.0 {
            Inner::To { end, .. } => *end > 0,
            Inner::Bounded { start, end, .. } => *start <= *end,
            Inner::BoundedLarge(r) => r.start <= r.end,
            _ => true,
        }
    }

    /// Returns true if the range has defined start and end boundaries.
    pub fn is_bounded(&self) -> (r: bool)
        ensures
            r == self.has_both_bounds(),
    {
        match &self.0 {
            Inner::Bounded { .. } | Inner::BoundedLarge(_) => true,
            _ => false,
        }
    }

    /// Returns the size of the range if both start and end boundaries are
    /// specified.
    ///
    /// Descending ranges have a non-negative size.
    pub fn size(&self) -> (r: Option<usize>)
        requires
            self.has_both_bounds() ==> self.sorted_fits() && self.sorted_bounds().1
                - self.sorted_bounds().0 <= KInt::MAX,
        ensures
            r == if self.has_both_bounds() {
                Some((self.sorted_bounds().1 - self.sorted_bounds().0) as usize)
            } else {
                None::<usize>
            },
    {
        if self.is_bounded() {
            let range = self.as_sorted_range();
            Some((range.end - range.start) as usize)
        } else {
            None
        }
    }

    /// Removes and returns the first element in the range.
    ///
    /// This is how a range is iterated over: the elements come out in the
    /// order of [`KRange::elements`]. Returns an error if the range is not
    /// bounded.
    pub fn pop_front(&mut self) -> (r: Result<Option<KInt>, RangeError>)
        ensures
            !old(self).has_both_bounds() ==> r == Err::<Option<KInt>, RangeError>(
                RangeError::ExpectedBoundedRange,
            ) && *final(self) == *old(self),
            old(self).has_both_bounds() ==> r is Ok && front_popped(
                *old(self),
                r->Ok_0,
                *final(self),
            ),
            old(self).has_both_bounds() ==> {
                let s = old(self).start_bound()->0;
                let (e, inclusive) = old(self).end_bound()->0;
                let step = front_step(s, e, inclusive);
                &&& final(self).start_bound() == Some(step.1)
                &&& final(self).end_bound() == Some((e, step.2))
                &&& final(self).is_large() == old(self).is_large()
            },
    {
        let result = match &self.0 {
            Inner::Bounded { start, end, inclusive } => {
                let (s, e, inc) = (*start, *end, *inclusive);
                if s < e {
                    self.0 = Inner::Bounded { start: s + 1, end: e, inclusive: inc };
                    Some(s as KInt)
                } else if s > e {
                    self.0 = Inner::Bounded { start: s - 1, end: e, inclusive: inc };
                    Some(s as KInt)
                } else if inc {
                    // Allow iteration to stop
                    self.0 = Inner::Bounded { start: s, end: e, inclusive: false };
                    Some(s as KInt)
                } else {
                    None
                }
            },
            Inner::BoundedLarge(r) => {
                let (s, e, inc) = (r.start, r.end, r.inclusive);
                if s < e {
                    self.0 = large(s + 1, e, inc);
                    Some(s)
                } else if s > e {
                    self.0 = large(s - 1, e, inc);
                    Some(s)
                } else if inc {
                    // Allow iteration to stop
                    self.0 = large(s, e, false);
                    Some(s)
                } else {
                    None
                }
            },
            _ => return Err(RangeError::ExpectedBoundedRange),
        };
        proof {
            lemma_front_step_elements(
                old(self).start_bound()->0,
                (old(self).end_bound()->0).0,
                (old(self).end_bound()->0).1,
            );
        }
        Ok(result)
    }

    /// Removes and returns an element from the range, working from its end
    /// bound.
    ///
    /// This does not walk the elements from the back. [`back_step`] gives the
    /// steps, as the runtime has always taken them: an ascending range hands
    /// out its end bound, which for an exclusive end lies outside the range
    /// (`10..13` gives 13 and leaves `10..12`), and moves the end one step
    /// down, or one step up when its bounds are held in 64-bit form; a
    /// descending range hands out its start and moves the start one step down,
    /// as [`KRange::pop_front`] does. Only an ascending inclusive range held in
    /// 32-bit form gives up its last element. Returns an error if the range is
    /// not bounded.
    pub fn pop_back(&mut self) -> (r: Result<Option<KInt>, RangeError>)
        requires
            old(self).is_large() && old(self).start_bound()->0 < (old(self).end_bound()->0).0
                ==> (old(self).end_bound()->0).0 < KInt::MAX,
        ensures
            !old(self).has_both_bounds() ==> r == Err::<Option<KInt>, RangeError>(
                RangeError::ExpectedBoundedRange,
            ) && *final(self) == *old(self),
            old(self).has_both_bounds() ==> {
                let s = old(self).start_bound()->0;
                let (e, inclusive) = old(self).end_bound()->0;
                let step = back_step(s, e, inclusive, old(self).is_large());
                &&& r == Ok::<Option<KInt>, RangeError>(step.0)
                &&& final(self).start_bound() == Some(step.1)
                &&& final(self).end_bound() == Some((step.2, step.3))
                &&& final(self).is_large() == old(self).is_large()
                &&& step.0 is None ==> *final(self) == *old(self)
            },
            old(self).has_both_bounds() ==> r is Ok && back_stepped(
                *old(self),
                r->Ok_0,
                *final(self),
            ),
            old(self).has_both_bounds() && !old(self).is_large() && old(self).start_bound()->0 <= (
            old(self).end_bound()->0).0 && (old(self).end_bound()->0).1 ==> {
                &&& r == Ok::<Option<KInt>, RangeError>(Some(old(self).elements().last() as KInt))
                &&& final(self).elements() == old(self).elements().drop_last()
            },
    {
        let result = match &self.0 {
            Inner::Bounded { start, end, inclusive } => {
                let (s, e, inc) = (*start, *end, *inclusive);
                if s < e {
                    self.0 = Inner::Bounded { start: s, end: e - 1, inclusive: inc };
                    Some(e as KInt)
                } else if s > e {
                    self.0 = Inner::Bounded { start: s - 1, end: e, inclusive: inc };
                    Some(s as KInt)
                } else if inc {
                    // Allow iteration to stop
                    self.0 = Inner::Bounded { start: s, end: e, inclusive: false };
                    Some(s as KInt)
                } else {
                    None
                }
            },
            Inner::BoundedLarge(r) => {
                let (s, e, inc) = (r.start, r.end, r.inclusive);
                if s < e {
                    self.0 = large(s, e + 1, inc);
                    Some(e)
                } else if s > e {
                    self.0 = large(s - 1, e, inc);
                    Some(s)
                } else if inc {
                    // Allow iteration to stop
                    self.0 = large(s, e, false);
                    Some(s)
                } else {
                    None
                }
            },
            _ => return Err(RangeError::ExpectedBoundedRange),
        };
        proof {
            let s = old(self).start_bound()->0;
            let (e, inclusive) = old(self).end_bound()->0;
            if s <= e && inclusive {
                lemma_back_step_elements(s, e, inclusive);
            }
        }
        Ok(result)
    }

    /// Renders the range as text, e.g. `10..=20`, `..5` or `3..`.
    pub fn to_string(&self) -> (r: String)
        ensures
            r@ == self.rendering(),
    {
        let mut out = String::new();
        if let Some(start) = self.start() {
            push_decimal(&mut out, start);
        }
        push_char(&mut out, '.');
        push_char(&mut out, '.');
        if let Some((end, inclusive)) = self.end() {
            if inclusive {
                push_char(&mut out, '=');
            }
            push_decimal(&mut out, end);
        }
        proof {
            assert(out@ =~= self.rendering());
        }
        out
    }
}

/// Both bounds in 64-bit form, behind a pointer.
fn large(start: KInt, end: KInt, inclusive: bool) -> (r: Inner)
    ensures
        r == Inner::BoundedLarge(Box::new(BoundedKint { start, end, inclusive })),
{
    Inner::BoundedLarge(Box::new(BoundedKint { start, end, inclusive }))
}

/// Taking a step from the front of a range hands out its first element and
/// leaves the rest.
proof fn lemma_front_step_elements(start: KInt, end: KInt, inclusive: bool)
    ensures
        ({
            let old_elems = bounded_elements(start as int, end as int, inclusive);
            let step = front_step(start, end, inclusive);
            let new_elems = bounded_elements(step.1 as int, end as int, step.2);
            &&& old_elems.len() > 0 ==> step.0 == Some(old_elems[0] as KInt) && new_elems
                == old_elems.drop_first()
            &&& old_elems.len() == 0 ==> step.0 == None::<KInt> && new_elems == old_elems
        }),
{
    let old_elems = bounded_elements(start as int, end as int, inclusive);
    let step = front_step(start, end, inclusive);
    let new_elems = bounded_elements(step.1 as int, end as int, step.2);
    if start < end || start > end {
        assert(new_elems =~= old_elems.drop_first());
    } else if inclusive {
        assert(new_elems =~= old_elems.drop_first());
    }
}

/// Taking a step from the back of an ascending inclusive range held in 32-bit
/// form hands out its last element and leaves the rest.
proof fn lemma_back_step_elements(start: KInt, end: KInt, inclusive: bool)
    requires
        start <= end,
        inclusive,
    ensures
        ({
            let old_elems = bounded_elements(start as int, end as int, inclusive);
            let step = back_step(start, end, inclusive, false);
            let new_elems = bounded_elements(step.1 as int, step.2 as int, step.3);
            &&& old_elems.len() > 0
            &&& step.0 == Some(old_elems.last() as KInt)
            &&& new_elems == old_elems.drop_last()
        }),
{
    let old_elems = bounded_elements(start as int, end as int, inclusive);
    let step = back_step(start, end, inclusive, false);
    let new_elems = bounded_elements(step.1 as int, step.2 as int, step.3);
    assert(new_elems =~= old_elems.drop_last());
}

/// The larger of `a` and `b`, as `Ord::max` computes it.
fn max_kint(a: KInt, b: KInt) -> (r: KInt)
    ensures
        r == max(a as int, b as int),
{
    if b < a {
        a
    } else {
        b
    }
}

/// The smaller of `a` and `b`, as `Ord::min` computes it.
fn min_kint(a: KInt, b: KInt) -> (r: KInt)
    ensures
        r == min(a as int, b as int),
{
    if b < a {
        b
    } else {
        a
    }
}

/// `x` held to the interval `lo..=hi`, as `Ord::clamp` computes it.
fn clamp_kint(x: KInt, lo: KInt, hi: KInt) -> (r: KInt)
    requires
        lo <= hi,
    ensures
        r == clamp(x as int, lo as int, hi as int),
{
    if x < lo {
        lo
    } else if x > hi {
        hi
    } else {
        x
    }
}

/// The sorted translation of a range with both bounds.
fn sort_bounds(start: KInt, end: KInt, inclusive: bool) -> (r: (KInt, KInt))
    requires
        sort_bounded(start as int, end as int, inclusive).0 <= KInt::MAX,
        sort_bounded(start as int, end as int, inclusive).1 <= KInt::MAX,
    ensures
        r.0 == sort_bounded(start as int, end as int, inclusive).0,
        r.1 == sort_bounded(start as int, end as int, inclusive).1,
{
    if start < end {
        (start, if inclusive { end + 1 } else { end })
    } else {
        (if inclusive { end } else { end + 1 }, start + 1)
    }
}

} // verus!
