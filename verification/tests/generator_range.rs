use pew::benchmark::range_values;
use pew::generator::Generator;
use pew::generator::RangeGenerator;
use pew::generator::compose;

#[test]
fn identity_generator_hands_index_through() {
    assert_eq!(RangeGenerator.generate(0), 0);
    assert_eq!(RangeGenerator.generate(1024), 1024);
}

#[test]
fn one_transform_applies_to_index() {
    let chain = compose(RangeGenerator, |x: u64| x * 2);
    assert_eq!(chain.generate(21), 42);
}

#[test]
fn two_transforms_compose_left_to_right() {
    // With g1 registered first and g2 second, the chain derives g2(g1(i)).
    let chain = compose(compose(RangeGenerator, |x: u64| x + 3), |x: u64| x * 10);
    assert_eq!(chain.generate(4), 70);
    assert_eq!(chain.generate(0), 30);
}

#[test]
fn transform_may_change_the_type() {
    let chain = compose(RangeGenerator, |n: u64| {
        let mut v = Vec::new();
        for i in 0..n {
            v.push(i);
        }
        v
    });
    assert_eq!(chain.generate(4), vec![0u64, 1, 2, 3]);
}

#[test]
fn range_enumeration_is_exponential() {
    assert_eq!(range_values(16, 1024, 2), vec![16, 32, 64, 128, 256, 512, 1024]);
}

#[test]
fn range_with_equal_bounds_is_one_value() {
    assert_eq!(range_values(5, 5, 2), vec![5]);
}

#[test]
fn range_with_crossed_bounds_is_empty() {
    assert_eq!(range_values(2, 1, 2), Vec::<u64>::new());
}

#[test]
fn range_stops_where_step_passes_upper_bound() {
    assert_eq!(range_values(16, 1000, 2), vec![16, 32, 64, 128, 256, 512]);
    assert_eq!(range_values(3, 100, 3), vec![3, 9, 27, 81]);
}

#[test]
fn range_near_largest_value_does_not_overflow() {
    assert_eq!(range_values(u64::MAX - 1, u64::MAX, 3), vec![u64::MAX - 1]);
    assert_eq!(range_values(u64::MAX, u64::MAX, 2), vec![u64::MAX]);
}
