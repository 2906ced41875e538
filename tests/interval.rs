use mapo::{calc_next_tick, calc_prev_tick, calc_tick_spacing, Interval, Spacing};

#[test]
fn test_interval_extend() {
    let ival = Interval::from_values(&[1, 2, 3]);
    assert_eq!(ival, Some(Interval::new(1, 3)));
}

#[test]
fn extend_in_place_grows_both_ends() {
    let mut ival = Interval::new(2, 3);
    ival.extend(&[1, 2, 3, 7, -4]);
    assert_eq!(ival.as_tuple(), (-4, 7));
}

#[test]
fn from_values_needs_two_distinct_values() {
    assert_eq!(Interval::from_values(&[]), None);
    assert_eq!(Interval::from_values(&[5]), None);
    assert_eq!(Interval::from_values(&[5, 5, 5]), None);
    assert_eq!(Interval::from_values(&[5, -1, 5]), Some(Interval::new(-1, 5)));
}

#[test]
fn interval_accessors() {
    let mut ival = Interval::new(-3, 9);
    assert!(ival.is_valid());
    assert_eq!(ival.min(), -3);
    assert_eq!(ival.max(), 9);
    assert_eq!(ival.size(), 12);
    assert_eq!(ival.center(), 3);
    ival.set_min(1);
    ival.set_max(4);
    assert_eq!(ival.as_tuple(), (1, 4));
    assert_eq!(Interval::new(-3, 0).center(), -2);
}

#[test]
fn extend_to_and_include_zero() {
    let ival = Interval::new(5, 10);
    assert_eq!(ival.extend_to(12).as_tuple(), (5, 12));
    assert_eq!(ival.extend_to(-1).as_tuple(), (-1, 10));
    assert_eq!(ival.extend_to(7).as_tuple(), (5, 10));
    assert_eq!(ival.include_zero().as_tuple(), (0, 10));
    assert_eq!(Interval::new(-10, -5).include_zero().as_tuple(), (-10, 0));
}

#[test]
fn to_rounded_widens_to_round_steps() {
    // width 44: the first of 1, 2, 5, ... whose tenfold exceeds 44 is 5
    assert_eq!(Interval::new(3, 47).to_rounded(), Some(Interval::new(0, 50)));
    // width 20: the step is 5 (2 × 10 does not exceed 20)
    assert_eq!(Interval::new(0, 20).to_rounded(), Some(Interval::new(0, 25)));
    // width 1: the step is 1
    assert_eq!(Interval::new(-7, -6).to_rounded(), Some(Interval::new(-7, -5)));
    assert_eq!(Interval::new(i64::MAX - 10, i64::MAX).to_rounded(), None);
}

#[test]
fn prev_and_next_tick_scenario() {
    // values in tenths: 1.0 and 2.0, then -0.5 and 1.0
    assert_eq!(calc_prev_tick(10, 20), 0);
    assert_eq!(calc_next_tick(10, 20), 20);
    assert_eq!(calc_prev_tick(-5, 10), -10);
    assert_eq!(calc_next_tick(-5, 10), 0);
}

#[test]
fn prev_and_next_tick_bracket_the_value() {
    for &(v, s) in &[(7i64, 3i64), (-7, 3), (9, 3), (0, 5), (-1, 1), (i64::MAX, 2), (i64::MIN, 3)] {
        let next = calc_next_tick(v, s);
        let prev = calc_prev_tick(v, s);
        assert!(next >= v as i128 && next < v as i128 + s as i128);
        assert!(prev <= v as i128 && prev > v as i128 - s as i128);
        assert_eq!(next.rem_euclid(s as i128), 0);
        assert_eq!(prev.rem_euclid(s as i128), 0);
    }
    assert_eq!(calc_next_tick(9, 3), 9);
    assert_eq!(calc_prev_tick(9, 3), 9);
}

#[test]
fn spacing_needs_two_ticks() {
    let ival = Interval::new(0, 100);
    assert_eq!(calc_tick_spacing(ival, 0), None);
    assert_eq!(calc_tick_spacing(ival, 1), None);
}

#[test]
fn spacing_for_zero_to_hundred() {
    // ticks every 10 would be 0, 10, ..., 100: eleven, one too many for ten
    let s = calc_tick_spacing(Interval::new(0, 100), 10).unwrap();
    assert_eq!(s, Spacing { mult: 2, exp: 1 });
    let s = calc_tick_spacing(Interval::new(0, 100), 11).unwrap();
    assert_eq!(s, Spacing { mult: 1, exp: 1 });
}

#[test]
fn spacing_finer_than_one_unit() {
    // [0, 1] with five ticks: 0, 0.5, 1
    let s = calc_tick_spacing(Interval::new(0, 1), 5).unwrap();
    assert_eq!(s, Spacing { mult: 5, exp: -1 });
    // 0.01 would give 101 ticks; 0.02 gives 51
    let s = calc_tick_spacing(Interval::new(0, 1), 100).unwrap();
    assert_eq!(s, Spacing { mult: 2, exp: -2 });
}

#[test]
fn spacing_on_wide_intervals() {
    let s = calc_tick_spacing(Interval::new(i64::MIN, i64::MAX), 2).unwrap();
    assert_eq!(s, Spacing { mult: 1, exp: 19 });
    let s = calc_tick_spacing(Interval::new(-1, 1), usize::MAX).unwrap();
    assert!(s.exp < 0);
}

fn count_ticks(lo: i64, hi: i64, s: Spacing) -> i128 {
    // multiples of mult × 10^exp in [lo, hi], counted with exact integers
    let (num, den): (i128, i128) = if s.exp >= 0 {
        (s.mult as i128 * 10i128.pow(s.exp as u32), 1)
    } else {
        (s.mult as i128, 10i128.pow((-s.exp) as u32))
    };
    let last = (hi as i128 * den).div_euclid(num);
    let first = -((-(lo as i128 * den)).div_euclid(num));
    last - first + 1
}

#[test]
fn spacing_is_nice_and_tight() {
    for &(lo, hi) in &[(0i64, 100i64), (3, 47), (-250, 1234), (1, 2), (-5, 5), (999, 1001)] {
        for target in 2usize..40 {
            let s = calc_tick_spacing(Interval::new(lo, hi), target).unwrap();
            assert!(s.mult == 1 || s.mult == 2 || s.mult == 5);
            assert!(count_ticks(lo, hi, s) <= target as i128);
            let tenth = Spacing { mult: s.mult, exp: s.exp - 1 };
            assert!(count_ticks(lo, hi, tenth) > target as i128);
        }
    }
}

#[test]
fn next_tick_mirrors_prev_tick() {
    for &(v, s) in &[(7i64, 3i64), (-7, 3), (9, 3), (0, 5), (-1, 1), (123456, 1000)] {
        assert_eq!(calc_next_tick(v, s), -calc_prev_tick(-v, s));
    }
}

#[test]
fn scale_center_about_the_middle() {
    assert_eq!(Interval::new(0, 10).scale_center(2, 1), Some(Interval::new(-5, 15)));
    assert_eq!(Interval::new(0, 10).scale_center(1, 1), Some(Interval::new(0, 10)));
    // [0.75, 2.25] widens to whole values
    assert_eq!(Interval::new(0, 3).scale_center(1, 2), Some(Interval::new(0, 3)));
    assert_eq!(Interval::new(-4, 4).scale_center(1, 4), Some(Interval::new(-1, 1)));
    assert_eq!(Interval::new(i64::MIN, i64::MAX).scale_center(3, 1), None);
}
