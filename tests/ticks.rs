use conrod_graph::closest::{get_lower_bound_index, pick_closest};
use conrod_graph::ticks::{plan, plan_fixed, PlanError, MAX_TARGET_COUNT, MAX_TICKS, TICK_SCALE};

fn units(values: &[i128]) -> Vec<f64> {
    values.iter().map(|v| *v as f64 / TICK_SCALE as f64).collect()
}

#[test]
fn it_works() {}

#[test]
fn exact_fit_range() {
    let ts = plan(0, 100, 10, 0).unwrap();
    assert_eq!(ts.step, 10 * TICK_SCALE);
    let expected: Vec<i128> = (0..=10).map(|k| k * 10 * TICK_SCALE).collect();
    assert_eq!(ts.values, expected);
    assert_eq!(ts.first_index, 0);
}

#[test]
fn mantissa_rounds_up_to_ten() {
    let ts = plan(0, 97, 10, 0).unwrap();
    assert_eq!(ts.step, 10 * TICK_SCALE);
    assert_eq!(units(&ts.values), vec![0.0, 10.0, 20.0, 30.0, 40.0, 50.0, 60.0, 70.0, 80.0, 90.0]);
}

#[test]
fn symmetric_range_includes_zero() {
    let ts = plan(-5, 5, 4, 0).unwrap();
    assert_eq!(ts.step, 25_000);
    assert_eq!(units(&ts.values), vec![-5.0, -2.5, 0.0, 2.5, 5.0]);
    assert_eq!(ts.first_index, -2);
    assert!(ts.values.contains(&0));
}

#[test]
fn degenerate_range_is_empty() {
    let ts = plan(1, 1, 5, 0).unwrap();
    assert!(ts.values.is_empty());
}

#[test]
fn inverted_range_is_empty() {
    let ts = plan(10, -10, 5, 0).unwrap();
    assert!(ts.values.is_empty());
}

#[test]
fn zero_target_count_is_empty() {
    let ts = plan(0, 100, 0, 0).unwrap();
    assert!(ts.values.is_empty());
}

#[test]
fn too_many_ticks_requested() {
    assert!(matches!(plan(0, 100, MAX_TARGET_COUNT + 1, 0), Err(PlanError::ExhaustedCapacity)));
    assert!(plan(0, 100, MAX_TARGET_COUNT, 0).is_ok());
}

#[test]
fn grid_follows_origin() {
    let ts = plan(0, 10, 5, 1).unwrap();
    assert_eq!(ts.step, 2 * TICK_SCALE);
    assert_eq!(units(&ts.values), vec![1.0, 3.0, 5.0, 7.0, 9.0]);
}

#[test]
fn small_range_uses_fractional_step() {
    let ts = plan(0, 1, 8, 0).unwrap();
    assert_eq!(ts.step, 1_000);
    assert_eq!(ts.values.len(), 11);
    assert_eq!(ts.values[10], TICK_SCALE);
    let ts = plan(0, 1, 1000, 0).unwrap();
    assert_eq!(ts.step, 10);
}

#[test]
fn ticks_ascend_within_range() {
    for &(min, max, count, origin) in &[(-7i64, 1234i64, 7usize, 3i64), (-1_000_000, 3, 13, -5), (5, 6, 3, 100)] {
        let ts = plan(min, max, count, origin).unwrap();
        for pair in ts.values.windows(2) {
            assert!(pair[0] < pair[1]);
            assert_eq!(pair[1] - pair[0], ts.step);
        }
        for v in &ts.values {
            assert!(*v >= min as i128 * TICK_SCALE && *v <= max as i128 * TICK_SCALE);
            assert_eq!((*v - origin as i128 * TICK_SCALE) % ts.step, 0);
        }
    }
}

#[test]
fn step_is_nice() {
    for &(min, max, count) in &[(0i64, 3i64, 7usize), (-123, 4567, 9), (0, 1, 3), (17, 1_000_000_007, 11), (0, 9, 4)] {
        let ts = plan(min, max, count, 0).unwrap();
        let mut m = ts.step;
        while m % 10 == 0 && m > 100 {
            m /= 10;
        }
        assert!([10, 20, 25, 50, 100].contains(&m), "step {} for {:?}", ts.step, (min, max, count));
    }
}

#[test]
fn tick_count_stays_near_target() {
    for count in 1..60usize {
        for &(min, max) in &[(0i64, 1i64), (0, 97), (-5, 5), (-3_000_000_000, 7), (i64::MIN, i64::MAX)] {
            let ts = plan(min, max, count, 0).unwrap();
            assert!(2 * ts.values.len() <= 3 * count + 2, "{} ticks for {}", ts.values.len(), count);
        }
    }
}

#[test]
fn fixed_step_ticks() {
    assert_eq!(plan_fixed(0, 10, 3).unwrap(), vec![0, 3, 6, 9]);
    assert_eq!(plan_fixed(-7, 7, 5).unwrap(), vec![-5, 0, 5]);
    assert_eq!(plan_fixed(0, 10, 5).unwrap(), vec![0, 5]);
    assert_eq!(plan_fixed(3, 3, 1).unwrap(), Vec::<i64>::new());
}

#[test]
fn fixed_step_must_be_positive() {
    assert_eq!(plan_fixed(0, 10, 0), Err(PlanError::InvalidStep));
    assert_eq!(plan_fixed(0, 10, -2), Err(PlanError::InvalidStep));
}

#[test]
fn fixed_step_capacity() {
    assert_eq!(plan_fixed(0, i64::MAX, 1), Err(PlanError::ExhaustedCapacity));
    assert_eq!(plan_fixed(0, MAX_TICKS as i64, 1).unwrap().len(), MAX_TICKS);
    assert_eq!(plan_fixed(0, MAX_TICKS as i64 + 1, 1), Err(PlanError::ExhaustedCapacity));
}

#[test]
fn closest_prefers_nearer() {
    let mantissas: [u128; 5] = [10, 20, 25, 50, 100];
    assert_eq!(pick_closest(&mantissas, 30), 25);
    assert_eq!(pick_closest(&mantissas, 5), 10);
    assert_eq!(pick_closest(&mantissas, 500), 100);
    assert_eq!(pick_closest(&mantissas, 40), 50);
}

#[test]
fn closest_ties_go_lower() {
    let mantissas: [u128; 5] = [10, 20, 25, 50, 100];
    assert_eq!(pick_closest(&mantissas, 15), 10);
    assert_eq!(pick_closest(&mantissas, 75), 50);
}

#[test]
fn lower_bound_index() {
    let s: [u128; 4] = [1, 3, 3, 8];
    assert_eq!(get_lower_bound_index(&s, 0), Some(0));
    assert_eq!(get_lower_bound_index(&s, 3), Some(3));
    assert_eq!(get_lower_bound_index(&s, 8), None);
}
