use relay_patterns::shared_state::Counter;

#[test]
fn test_counter() {
    let mut counter = Counter::new(0);
    for _ in 0..10 {
        counter.increment();
    }
    assert_eq!(counter.get(), 10);
}

#[test]
fn counter_starts_at_its_initial_value() {
    let counter = Counter::new(5);
    assert_eq!(counter.get(), 5);
}

#[test]
fn counter_steps_through_negative_values() {
    let mut counter = Counter::new(-3);
    counter.increment();
    counter.increment();
    counter.increment();
    assert_eq!(counter.get(), 0);
}
