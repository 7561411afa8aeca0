use relay_patterns::streams::{take_n, FibonacciStream};

#[test]
fn test_fibonacci_stream() {
    let stream = FibonacciStream::new();
    let items = take_n(stream, 10);
    assert_eq!(items, vec![0, 1, 1, 2, 3, 5, 8, 13, 21, 34]);
}

#[test]
fn take_zero_pulls_nothing() {
    let items = take_n(FibonacciStream::new(), 0);
    assert!(items.is_empty());
}

#[test]
fn take_yields_exactly_the_requested_length() {
    for n in [1usize, 2, 31, 64] {
        assert_eq!(take_n(FibonacciStream::new(), n).len(), n);
    }
}

#[test]
fn pulls_advance_and_a_fresh_stream_restarts() {
    let mut stream = FibonacciStream::new();
    assert_eq!(stream.next_value(), 0);
    assert_eq!(stream.next_value(), 1);
    assert_eq!(stream.next_value(), 1);
    assert_eq!(stream.next_value(), 2);
    let mut again = FibonacciStream::new();
    assert_eq!(again.next_value(), 0);
}

#[test]
fn values_wrap_at_the_word_size() {
    let items = take_n(FibonacciStream::new(), 95);
    assert_eq!(items[92], 7540113804746346429);
    assert_eq!(items[93], 12200160415121876738);
    assert_eq!(items[94], 1293530146158671551);
}
