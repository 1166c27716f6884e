use customaio::curve::{build_curve, interpolate};

#[test]
fn interpolation_matches_liquidctl() {
    let p = vec![(20, 50), (50, 70), (60, 100)];
    assert_eq!(interpolate(&p, 33), 59);
    assert_eq!(interpolate(&[(20, 50), (50, 70)], 19), 50);
    assert_eq!(interpolate(&[(20, 50), (50, 70)], 51), 70);
    assert_eq!(interpolate(&[(20, 50)], 20), 50);
}

#[test]
fn curve_covers_twenty_to_fiftynine() {
    let c = build_curve(&[[20, 30], [55, 100]], 0, 100);
    assert_eq!(c.len(), 40);
    assert_eq!(c[0], 30);
    assert_eq!(*c.last().unwrap(), 100);
}

#[test]
fn curve_respects_channel_minimum() {
    // The pump refuses anything under 20%.
    let c = build_curve(&[[20, 0], [59, 0]], 20, 100);
    assert!(c.iter().all(|&d| d >= 20));
}

#[test]
fn interpolation_hits_every_point_of_a_monotone_profile() {
    let p = [(20, 30), (35, 30), (40, 40), (45, 55), (50, 75), (55, 100)];
    for &(t, d) in &p {
        assert_eq!(interpolate(&p, t), d);
    }
}

#[test]
fn interpolation_rounds_to_nearest() {
    // 40 -> 55 over five degrees: 43 is 40 + 3 * 15 / 5 = 49.
    assert_eq!(interpolate(&[(40, 40), (45, 55)], 43), 49);
    // 20 -> 21 over two degrees: the midpoint rounds up.
    assert_eq!(interpolate(&[(0, 20), (2, 21)], 1), 21);
    // A falling profile rounds toward the lower duty the same way.
    assert_eq!(interpolate(&[(0, 21), (2, 20)], 1), 21);
}

#[test]
fn interpolation_holds_end_duties_outside_the_profile() {
    let p = [(30, 40), (50, 80)];
    assert_eq!(interpolate(&p, -5), 40);
    assert_eq!(interpolate(&p, 30), 40);
    assert_eq!(interpolate(&p, 50), 80);
    assert_eq!(interpolate(&p, 1000), 80);
}

#[test]
fn curve_ends_at_full_duty_without_points() {
    let c = build_curve(&[], 0, 100);
    assert_eq!(c.len(), 40);
    assert!(c.iter().all(|&d| d == 100));
}

#[test]
fn curve_of_the_default_silent_pump_profile() {
    let c = build_curve(&[[20, 60], [35, 60], [40, 70], [45, 80], [50, 90], [55, 100]], 20, 100);
    assert_eq!(c.len(), 40);
    assert_eq!(c[0], 60); // 20 C
    assert_eq!(c[15], 60); // 35 C
    assert_eq!(c[18], 66); // 38 C: 60 + 3 * 10 / 5, rounded
    assert_eq!(c[20], 70); // 40 C
    assert_eq!(c[35], 100); // 55 C, and full duty from there on
    assert_eq!(c[39], 100);
    assert!(c.windows(2).all(|w| w[0] <= w[1]));
}

#[test]
fn curve_never_falls_even_for_falling_points() {
    let c = build_curve(&[[20, 80], [30, 40], [40, 60], [50, 20]], 0, 100);
    assert!(c.windows(2).all(|w| w[0] <= w[1]));
    assert_eq!(c[0], 80);
    assert_eq!(c[39], 100);
}

#[test]
fn curve_keeps_the_highest_duty_of_repeated_temperatures() {
    let c = build_curve(&[[30, 10], [30, 50], [20, 0]], 0, 100);
    // 20 -> 0, 30 -> 50 (the higher of the two), then up to 100 at 59.
    assert_eq!(c[0], 0);
    assert_eq!(c[5], 25);
    assert_eq!(c[10], 50);
    assert_eq!(c[39], 100);
}

#[test]
fn curve_stops_at_the_first_full_duty_point() {
    // (40, 100) ends the profile; later points are ignored.
    let c = build_curve(&[[20, 0], [40, 100], [50, 10]], 0, 100);
    assert_eq!(c[10], 50);
    assert_eq!(c[20], 100);
    assert!(c[20..].iter().all(|&d| d == 100));
}

#[test]
fn curve_clamps_to_the_channel_range() {
    let c = build_curve(&[[20, 250], [59, 255]], 30, 90);
    assert!(c.iter().all(|&d| (30..=90).contains(&d)));
    assert_eq!(c[39], 90);
    let c = build_curve(&[[20, 0]], 30, 100);
    assert_eq!(c[0], 30);
}

#[test]
fn point_order_does_not_change_the_curve() {
    let a = [[20u8, 30u8], [35, 45], [50, 80], [30, 40]];
    let b = [[50u8, 80u8], [30, 40], [20, 30], [35, 45]];
    assert_eq!(build_curve(&a, 20, 100), build_curve(&b, 20, 100));
}
