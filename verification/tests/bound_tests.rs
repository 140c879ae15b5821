use risingwave::bound::{merge_lower_bound, merge_upper_bound, Bound};

#[test]
fn merge_upper_keeps_the_smaller_endpoint() {
    assert_eq!(merge_upper_bound(Bound::Included(5), Bound::Included(3)), Bound::Included(3));
    assert_eq!(merge_upper_bound(Bound::Excluded(5), Bound::Excluded(7)), Bound::Excluded(5));
    assert_eq!(merge_upper_bound(Bound::Included(4), Bound::Excluded(5)), Bound::Included(4));
    assert_eq!(merge_upper_bound(Bound::Included(6), Bound::Excluded(5)), Bound::Excluded(5));
    assert_eq!(merge_upper_bound(Bound::Excluded(5), Bound::Included(4)), Bound::Included(4));
    assert_eq!(merge_upper_bound(Bound::Excluded(5), Bound::Included(9)), Bound::Excluded(5));
}

#[test]
fn merge_upper_prefers_exclusive_on_a_tie() {
    assert_eq!(merge_upper_bound(Bound::Included(5), Bound::Excluded(5)), Bound::Excluded(5));
    assert_eq!(merge_upper_bound(Bound::Excluded(5), Bound::Included(5)), Bound::Excluded(5));
}

#[test]
fn merge_upper_with_unbounded_keeps_the_other() {
    assert_eq!(merge_upper_bound(Bound::Unbounded, Bound::Included(5)), Bound::Included(5));
    assert_eq!(merge_upper_bound(Bound::Excluded(5), Bound::Unbounded), Bound::Excluded(5));
    assert_eq!(merge_upper_bound(Bound::Unbounded, Bound::Unbounded), Bound::<i64>::Unbounded);
}

#[test]
fn merge_lower_keeps_the_larger_endpoint() {
    assert_eq!(merge_lower_bound(Bound::Included(5), Bound::Included(3)), Bound::Included(5));
    assert_eq!(merge_lower_bound(Bound::Excluded(5), Bound::Excluded(7)), Bound::Excluded(7));
    assert_eq!(merge_lower_bound(Bound::Included(6), Bound::Excluded(5)), Bound::Included(6));
    assert_eq!(merge_lower_bound(Bound::Included(4), Bound::Excluded(5)), Bound::Excluded(5));
    assert_eq!(merge_lower_bound(Bound::Excluded(5), Bound::Included(6)), Bound::Included(6));
    assert_eq!(merge_lower_bound(Bound::Excluded(5), Bound::Included(2)), Bound::Excluded(5));
}

#[test]
fn merge_lower_prefers_exclusive_on_a_tie() {
    assert_eq!(merge_lower_bound(Bound::Included(5), Bound::Excluded(5)), Bound::Excluded(5));
    assert_eq!(merge_lower_bound(Bound::Excluded(5), Bound::Included(5)), Bound::Excluded(5));
}

#[test]
fn merge_lower_with_unbounded_keeps_the_other() {
    assert_eq!(merge_lower_bound(Bound::Unbounded, Bound::Excluded(-3)), Bound::Excluded(-3));
    assert_eq!(merge_lower_bound(Bound::Included(0), Bound::Unbounded), Bound::Included(0));
}

#[test]
fn merging_is_an_intersection_on_sample_values() {
    let bounds = [
        Bound::Included(3),
        Bound::Excluded(3),
        Bound::Included(7),
        Bound::Excluded(7),
        Bound::Unbounded,
    ];
    let below = |b: Bound<i64>, x: i64| match b {
        Bound::Included(t) => x <= t,
        Bound::Excluded(t) => x < t,
        Bound::Unbounded => true,
    };
    let above = |b: Bound<i64>, x: i64| match b {
        Bound::Included(t) => t <= x,
        Bound::Excluded(t) => t < x,
        Bound::Unbounded => true,
    };
    for a in bounds {
        for b in bounds {
            assert_eq!(merge_upper_bound(a, b), merge_upper_bound(b, a));
            assert_eq!(merge_lower_bound(a, b), merge_lower_bound(b, a));
            for x in 0..10 {
                assert_eq!(below(merge_upper_bound(a, b), x), below(a, x) && below(b, x));
                assert_eq!(above(merge_lower_bound(a, b), x), above(a, x) && above(b, x));
            }
        }
    }
}
