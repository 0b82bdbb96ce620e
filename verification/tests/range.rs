use koto_runtime::KRange;
use std::ops::Bound;

#[test]
fn size_of() {
    assert_eq!(std::mem::size_of::<KRange>(), 16);
}

#[test]
fn as_sorted_range() {
    assert_eq!(10..20, KRange::from(10..20).as_sorted_range());
    assert_eq!(10..21, KRange::from(10..=20).as_sorted_range());
    assert_eq!(11..21, KRange::from(20..10).as_sorted_range());
    assert_eq!(10..21, KRange::from(20..=10).as_sorted_range());

    assert_eq!(10..i64::MAX, KRange::from(10..).as_sorted_range(),);
    assert_eq!(i64::MIN..10, KRange::from(..10).as_sorted_range(),);
}

#[test]
fn intersection() {
    assert_eq!(
        Some(KRange::from(15..20)),
        KRange::from(10..20).intersection(&KRange::from(15..25))
    );
    assert_eq!(
        Some(KRange::from(200..201)),
        KRange::from(100..=200).intersection(&KRange::from(300..=200))
    );
    assert_eq!(
        None,
        KRange::from(100..200).intersection(&KRange::from(0..50))
    );
}

#[test]
fn is_ascending() {
    assert!(KRange::from(10..20).is_ascending());
    assert!(!KRange::from(30..20).is_ascending());
    assert!(KRange::from(..=1).is_ascending());
    assert!(KRange::from(20..).is_ascending());
}

#[test]
fn range_bounded_large() {
    let start_big = 2_i64.pow(42);
    let end_big = 2_i64.pow(43);
    assert!(KRange::from(start_big..end_big).is_ascending());
    assert_eq!(
        KRange::from(start_big..end_big).size().unwrap(),
        (end_big - start_big) as usize
    );
}

#[test]
fn new_keeps_its_bounds() {
    let r = KRange::new(Some(3), Some((7, true)));
    assert_eq!(r.start(), Some(3));
    assert_eq!(r.end(), Some((7, true)));
    assert!(r.is_bounded());

    let big = KRange::new(Some(-(1 << 40)), Some((5, false)));
    assert_eq!(big.start(), Some(-(1 << 40)));
    assert_eq!(big.end(), Some((5, false)));

    let from = KRange::new(Some(4), None);
    assert_eq!(from.start(), Some(4));
    assert_eq!(from.end(), None);
    assert!(!from.is_bounded());

    let to = KRange::new(None, Some((9, true)));
    assert_eq!(to.start(), None);
    assert_eq!(to.end(), Some((9, true)));

    let all = KRange::new(None, None);
    assert_eq!(all.start(), None);
    assert_eq!(all.end(), None);
    assert_eq!(all, KRange::from(..));
}

#[test]
fn from_range_kinds() {
    assert_eq!(KRange::from(1..5), KRange::new(Some(1), Some((5, false))));
    assert_eq!(KRange::from(1..=5), KRange::new(Some(1), Some((5, true))));
    assert_eq!(KRange::from(1..), KRange::new(Some(1), None));
    assert_eq!(KRange::from(..5), KRange::new(None, Some((5, false))));
    assert_eq!(KRange::from(..=5), KRange::new(None, Some((5, true))));
}

#[test]
fn from_walked_inclusive_range_has_excluded_end() {
    let mut walked = 1..=1;
    assert_eq!(walked.next(), Some(1));
    assert_eq!(walked.next(), None);
    assert_eq!(KRange::from(walked).end(), Some((1, false)));
}

#[test]
fn sorted_range_of_large_and_open_ranges() {
    let big = 1_i64 << 40;
    assert_eq!(KRange::from(-big..big).as_sorted_range(), -big..big);
    assert_eq!(KRange::from(big..=-big).as_sorted_range(), -big..big + 1);
    assert_eq!(KRange::from(..=10).as_sorted_range(), i64::MIN..11);
    assert_eq!(KRange::from(..).as_sorted_range(), i64::MIN..i64::MAX);
    assert_eq!(KRange::from(5..5).as_sorted_range(), 6..6);
    assert_eq!(KRange::from(5..=5).as_sorted_range(), 5..6);
}

#[test]
fn contains_follows_sorted_range() {
    let r = KRange::from(20..10);
    assert!(!r.contains(10));
    assert!(r.contains(11));
    assert!(r.contains(20));
    assert!(!r.contains(21));
    assert!(KRange::from(..0).contains(i64::MIN));
    assert!(!KRange::from(..0).contains(0));
    assert!(KRange::from(3..).contains(1 << 50));
}

#[test]
fn indices_are_clamped() {
    assert_eq!(KRange::from(2..5).indices(10), 2..5);
    assert_eq!(KRange::from(-3..5).indices(10), 0..5);
    assert_eq!(KRange::from(2..50).indices(10), 2..10);
    assert_eq!(KRange::from(20..50).indices(10), 10..10);
    assert_eq!(KRange::from(..5).indices(10), 0..5);
    assert_eq!(KRange::from(3..).indices(10), 3..10);
    assert_eq!(KRange::from(8..=2).indices(10), 2..9);
}

#[test]
fn intersection_is_within_both_ranges() {
    assert_eq!(
        Some(KRange::from(5..10)),
        KRange::from(0..10).intersection(&KRange::from(5..20))
    );
    assert_eq!(None, KRange::from(0..10).intersection(&KRange::from(3..3)));
    assert_eq!(
        Some(KRange::from(5..10)),
        KRange::from(5..10).intersection(&KRange::from(0..20))
    );
    assert_eq!(
        Some(KRange::from(15..20)),
        KRange::from(15..20).intersection(&KRange::from(10..25))
    );
    assert_eq!(None, KRange::from(0..10).intersection(&KRange::from(10..20)));
    assert_eq!(
        Some(KRange::from(11..13)),
        KRange::from(12..=10).intersection(&KRange::from(11..)),
    );
}

#[test]
fn intersection_is_symmetric() {
    let ranges = [
        KRange::from(15..20),
        KRange::from(10..25),
        KRange::from(30..=20),
        KRange::from(..12),
        KRange::from(18..),
        KRange::from(5..5),
    ];
    for a in ranges.iter() {
        for b in ranges.iter() {
            assert_eq!(a.intersection(b), b.intersection(a));
        }
    }
}

#[test]
fn is_ascending_of_other_shapes() {
    assert!(!KRange::from(..0).is_ascending());
    assert!(KRange::from(..).is_ascending());
    assert!(KRange::from(5..=5).is_ascending());
    assert!(!KRange::from((1_i64 << 40)..0).is_ascending());
}

#[test]
fn size_counts_elements() {
    assert_eq!(KRange::from(10..20).size(), Some(10));
    assert_eq!(KRange::from(10..=20).size(), Some(11));
    assert_eq!(KRange::from(20..10).size(), Some(10));
    assert_eq!(KRange::from(20..=10).size(), Some(11));
    assert_eq!(KRange::from(5..5).size(), Some(0));
    assert_eq!(KRange::from(5..).size(), None);
    assert_eq!(KRange::from(..5).size(), None);
}

fn drain_front(mut r: KRange) -> Vec<i64> {
    let mut out = Vec::new();
    while let Some(x) = r.pop_front().unwrap() {
        out.push(x);
    }
    out
}

#[test]
fn pop_front_walks_the_elements() {
    assert_eq!(drain_front(KRange::from(1..4)), vec![1, 2, 3]);
    assert_eq!(drain_front(KRange::from(1..=4)), vec![1, 2, 3, 4]);
    assert_eq!(drain_front(KRange::from(4..1)), vec![4, 3, 2]);
    assert_eq!(drain_front(KRange::from(4..=1)), vec![4, 3, 2, 1]);
    assert_eq!(drain_front(KRange::from(2..2)), Vec::<i64>::new());
    assert_eq!(drain_front(KRange::from(2..=2)), vec![2]);
    let big = 1_i64 << 40;
    assert_eq!(drain_front(KRange::from(big..big + 3)), vec![big, big + 1, big + 2]);
    // The number of elements handed out is the size of the range.
    assert_eq!(drain_front(KRange::from(20..=10)).len(), KRange::from(20..=10).size().unwrap());
}

#[test]
fn pop_front_needs_both_bounds() {
    let mut r = KRange::from(3..);
    assert_eq!(r.pop_front(), Err(koto_runtime::RangeError::ExpectedBoundedRange));
    assert_eq!(r, KRange::from(3..));
    assert_eq!(
        koto_runtime::RangeError::ExpectedBoundedRange.message(),
        "expected a bounded range"
    );
    let mut r = KRange::from(..);
    assert_eq!(r.pop_back(), Err(koto_runtime::RangeError::ExpectedBoundedRange));
}

#[test]
fn pop_back_steps() {
    // An ascending inclusive range gives up its elements from the end.
    let mut r = KRange::from(1..=3);
    assert_eq!(r.pop_back(), Ok(Some(3)));
    assert_eq!(r.pop_back(), Ok(Some(2)));
    assert_eq!(r.pop_back(), Ok(Some(1)));
    assert_eq!(r.pop_back(), Ok(None));

    // An ascending exclusive range hands out its end bound.
    let mut r = KRange::from(10..13);
    assert_eq!(r.pop_back(), Ok(Some(13)));
    assert_eq!(r, KRange::from(10..12));

    // A descending range hands out its start, as `pop_front` does.
    let mut r = KRange::from(12..=10);
    assert_eq!(r.pop_back(), Ok(Some(12)));
    assert_eq!(r, KRange::from(11..=10));

    let mut r = KRange::from(2..2);
    assert_eq!(r.pop_back(), Ok(None));
    assert_eq!(r, KRange::from(2..2));

    // An ascending range held in 64-bit form moves its end up.
    let big = 1_i64 << 40;
    let mut r = KRange::from(big..big + 2);
    assert_eq!(r.pop_back(), Ok(Some(big + 2)));
    assert_eq!(r, KRange::from(big..big + 3));
}

#[test]
fn pop_front_leaves_the_rest() {
    let mut r = KRange::from(12..=10);
    assert_eq!(r.pop_front(), Ok(Some(12)));
    assert_eq!(r, KRange::from(11..=10));
    assert_eq!(r.as_sorted_range(), 10..12);

    let mut r = KRange::from(5_000_000_001..=5_000_000_000);
    assert_eq!(r.pop_front(), Ok(Some(5_000_000_001)));
    assert_eq!(r, KRange::from(5_000_000_000..=5_000_000_000));
    assert_eq!(r.pop_front(), Ok(Some(5_000_000_000)));
    assert_eq!(r.pop_front(), Ok(None));
    assert_eq!(r.pop_front(), Ok(None));

    let mut r = KRange::from(7..7);
    assert_eq!(r.pop_front(), Ok(None));
    assert_eq!(r, KRange::from(7..7));
}

#[test]
fn from_bounds_pairs() {
    assert_eq!(
        KRange::from_bounds(Bound::Included(1), Bound::Excluded(5)),
        KRange::from(1..5)
    );
    assert_eq!(
        KRange::from_bounds(Bound::Included(1), Bound::Included(5)),
        KRange::from(1..=5)
    );
    assert_eq!(
        KRange::from_bounds(Bound::Unbounded, Bound::Included(5)),
        KRange::from(..=5)
    );
    assert_eq!(KRange::from_bounds(Bound::Included(1), Bound::Unbounded), KRange::from(1..));
    assert_eq!(KRange::from_bounds(Bound::Unbounded, Bound::Unbounded), KRange::from(..));
}

#[test]
fn to_string_renders_bounds() {
    assert_eq!(KRange::from(10..20).to_string(), "10..20");
    assert_eq!(KRange::from(10..=20).to_string(), "10..=20");
    assert_eq!(KRange::from(-5..).to_string(), "-5..");
    assert_eq!(KRange::from(..=0).to_string(), "..=0");
    assert_eq!(KRange::from(..).to_string(), "..");
    assert_eq!(KRange::from(i64::MIN..i64::MAX).to_string(), "-9223372036854775808..9223372036854775807");
}
