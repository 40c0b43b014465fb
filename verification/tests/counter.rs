use sidekiq_stats::counter::{Count, Counter};

#[test]
fn count_starts_where_it_is_told() {
    assert_eq!(Count::new(0).value(), 0);
    assert_eq!(Count::new(5).value(), 5);
}

#[test]
fn count_wraps_around_both_ends() {
    let mut count = Count::new(usize::MAX);
    count.incrby(3);
    assert_eq!(count.value(), 2);
    count.decrby(4);
    assert_eq!(count.value(), usize::MAX - 1);
    count.incrby(usize::MAX);
    assert_eq!(count.value(), usize::MAX - 2);
}

#[test]
fn decrement_undoes_increment() {
    let mut count = Count::new(usize::MAX - 1);
    count.incrby(10);
    count.decrby(10);
    assert_eq!(count.value(), usize::MAX - 1);
}

#[test]
fn counter_wraps_around_both_ends() {
    let jobs = Counter::new(usize::MAX);
    assert_eq!(jobs.value(), usize::MAX);
    jobs.incrby(3);
    assert_eq!(jobs.value(), 2);
    jobs.decrby(4);
    assert_eq!(jobs.value(), usize::MAX - 1);
    assert_eq!(jobs.value(), usize::MAX - 1);
}

#[test]
fn clones_of_a_counter_count_together() {
    let jobs = Counter::new(2);
    let seen_elsewhere = jobs.clone();
    jobs.incrby(7);
    assert_eq!(seen_elsewhere.value(), 9);
    seen_elsewhere.decrby(4);
    assert_eq!(jobs.value(), 5);
}

#[test]
fn updates_add_up_across_clones() {
    let jobs = Counter::new(usize::MAX - 1);
    let first = jobs.clone();
    let second = first.clone();
    first.incrby(5);
    second.decrby(20);
    jobs.incrby(17);
    for handle in [&jobs, &first, &second] {
        assert_eq!(handle.value(), 0);
    }
}

#[test]
fn decrement_through_a_clone_undoes_increment() {
    let jobs = Counter::new(usize::MAX);
    let other = jobs.clone();
    jobs.incrby(9);
    other.decrby(9);
    assert_eq!(jobs.value(), usize::MAX);
    other.decrby(usize::MAX);
    jobs.incrby(usize::MAX);
    assert_eq!(other.value(), usize::MAX);
}
