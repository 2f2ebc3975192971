use logv::data_source::line_registry::{LineRegistryError, LineRegistryImpl};
use logv::interval::{Interval, IntervalBound};

const N: usize = 15;

/// A sample registry with the first N Fibonacci numbers.
fn create_registry() -> LineRegistryImpl {
    let mut data = vec![];
    let mut a: i64 = 1;
    let mut b: i64 = 1;
    for _i in 0..N {
        data.push(b);
        let c = a + b;
        a = b;
        b = c;
    }
    LineRegistryImpl::with_data(data)
}

fn test_count(interval: Interval, expected: usize) {
    let registry = create_registry();
    let actual = registry.count(&interval);
    assert_eq!(actual, Ok(expected));
}

#[test]
fn test_count_1() {
    test_count(Interval::closed(1, 3), 3);
}

#[test]
fn test_count_2() {
    test_count(Interval::closed(0, 10), 5);
}

#[test]
fn test_count_3() {
    test_count(Interval::inf_closed(10), 5);
}

#[test]
fn test_count_4() {
    test_count(Interval::empty(), 0);
}

#[test]
fn test_count_5() {
    test_count(Interval::open(1, 5), 2);
}

#[test]
fn test_count_6() {
    test_count(Interval::open(1, 6), 3);
}

#[test]
fn count_beyond_crawled_is_refused() {
    let registry = create_registry();
    let actual = registry.count(&Interval::closed(0, 1000));
    assert_eq!(
        actual,
        Err(LineRegistryError::NotReachedYet { requested: IntervalBound::Fixed { value: 1000, is_included: true }, limit: 987 })
    );
}

#[test]
fn pushing_twice_registers_once() {
    let mut registry = LineRegistryImpl::new();
    registry.push(5);
    registry.push(5);
    registry.push(2);
    assert_eq!(registry.line_breaks(), vec![2, 5]);
    assert_eq!(registry.crawled(), 5);
}

#[test]
fn pushing_a_registered_break_leaves_the_crawled_limit() {
    let mut registry = LineRegistryImpl::new();
    assert_eq!(registry.build(b"\n", 1000, || false, |_| {}), Ok(()));
    assert_eq!(registry.build(b"\n", 0, || false, |_| {}), Ok(()));
    assert_eq!(registry.crawled(), 1);
    registry.push(1000);
    assert_eq!(registry.crawled(), 1);
    assert_eq!(registry.line_breaks(), vec![0, 1000]);
    registry.push(5);
    assert_eq!(registry.crawled(), 5);
}

#[test]
fn an_interrupted_build_is_cancelled() {
    let mut registry = LineRegistryImpl::new();
    assert_eq!(registry.build(b"a\nb", 0, || true, |_| {}), Err(LineRegistryError::Cancelled));
}
