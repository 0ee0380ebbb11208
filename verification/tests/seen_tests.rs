use zeta::seen::SeenIds;

#[test]
fn repeated_id_is_not_new() {
    let mut s = SeenIds::new(3);
    assert!(s.is_new(5));
    assert!(!s.is_new(5));
    assert!(s.is_new(6));
    assert!(!s.is_new(5));
}

#[test]
fn oldest_id_is_forgotten_when_full() {
    let mut s = SeenIds::new(2);
    assert!(s.is_new(1));
    assert!(s.is_new(2));
    assert!(s.is_new(3)); // forgets 1
    assert!(!s.is_new(2));
    assert!(!s.is_new(3));
    assert!(s.is_new(1)); // 1 was forgotten; now forgets 2
    assert!(s.is_new(2));
}

#[test]
fn zero_bound_keeps_the_newest() {
    let mut s = SeenIds::new(0);
    assert!(s.is_new(9));
    assert!(!s.is_new(9));
    assert!(s.is_new(10));
    assert!(s.is_new(9));
}

#[test]
fn duplicate_within_the_window_is_refused() {
    let max = 4;
    let mut s = SeenIds::new(max);
    assert!(s.is_new(100));
    // Fewer than `max` other ids admitted since: 100 is still refused.
    for x in 1..max as u64 {
        assert!(s.is_new(x));
        assert!(!s.is_new(100));
    }
    // The `max`-th admission forgets it.
    assert!(s.is_new(max as u64));
    assert!(s.is_new(100));
}
