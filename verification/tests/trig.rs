use raycaster::fixed::{FRAC_PI_2, ONE, PI, TAU};
use raycaster::trig::{cosf, reduce, sinf, tanf};

#[test]
fn reduce_brings_an_angle_into_one_turn() {
    assert_eq!(reduce(0), 0);
    assert_eq!(reduce(TAU), 0);
    assert_eq!(reduce(TAU - 1), TAU - 1);
    assert_eq!(reduce(TAU + 5), 5);
    assert_eq!(reduce(-1), TAU - 1);
    assert_eq!(reduce(-TAU), 0);
    assert_eq!(reduce(-TAU - 7), TAU - 7);
    assert_eq!(reduce(i64::MAX), i64::MAX.rem_euclid(TAU));
    assert_eq!(reduce(i64::MIN), i64::MIN.rem_euclid(TAU));
}

#[test]
fn sine_is_exact_on_the_axes() {
    assert_eq!(sinf(0), 0);
    assert_eq!(sinf(FRAC_PI_2), ONE);
    assert_eq!(sinf(PI), 0);
    assert_eq!(sinf(PI + FRAC_PI_2), -ONE);
    assert_eq!(sinf(TAU), 0);
    assert_eq!(sinf(-FRAC_PI_2), -ONE);
}

#[test]
fn cosine_is_exact_on_the_axes() {
    assert_eq!(cosf(0), ONE);
    assert_eq!(cosf(FRAC_PI_2), 0);
    assert_eq!(cosf(PI), -ONE);
    assert_eq!(cosf(PI + FRAC_PI_2), 0);
    assert_eq!(cosf(-FRAC_PI_2), 0);
    assert_eq!(cosf(-PI), -ONE);
}

#[test]
fn sine_follows_bhaskara() {
    assert_eq!(sinf(PI / 6), 32_767);
    assert_eq!(sinf(PI / 4), 46_260);
    assert_eq!(sinf(ONE), 55_064);
    assert_eq!(sinf(-ONE), -55_064);
    assert_eq!(sinf(100 * ONE), -33_197);
    assert_eq!(cosf(ONE), 35_389);
    assert_eq!(cosf(PI / 4), 46_260);
}

#[test]
fn sine_is_within_a_few_percent_of_the_true_sine() {
    let mut raw = -3 * TAU;
    while raw <= 3 * TAU {
        let exact = (raw as f64 / ONE as f64).sin();
        let got = sinf(raw) as f64 / ONE as f64;
        assert!((got - exact).abs() < 0.002, "sine of {raw}: {got} against {exact}");
        let exact = (raw as f64 / ONE as f64).cos();
        let got = cosf(raw) as f64 / ONE as f64;
        assert!((got - exact).abs() < 0.002, "cosine of {raw}: {got} against {exact}");
        raw += 1_013;
    }
}

#[test]
fn sine_and_cosine_stay_within_one() {
    let mut raw = -2 * TAU;
    while raw <= 2 * TAU {
        assert!(-ONE <= sinf(raw) && sinf(raw) <= ONE);
        assert!(-ONE <= cosf(raw) && cosf(raw) <= ONE);
        raw += 97;
    }
    for raw in [i64::MIN, i64::MIN + 1, i64::MAX - 1, i64::MAX] {
        assert!(-ONE <= sinf(raw) && sinf(raw) <= ONE);
        assert!(-ONE <= cosf(raw) && cosf(raw) <= ONE);
    }
}

#[test]
fn trig_repeats_after_a_turn() {
    for raw in [-987_654_321i64, -3 * ONE, -1, 0, 1, 38_127, ONE, 1_234_567, 5 * TAU + 17] {
        for turns in [-3i64, -1, 1, 2, 1000] {
            assert_eq!(sinf(raw + turns * TAU), sinf(raw));
            assert_eq!(cosf(raw + turns * TAU), cosf(raw));
            assert_eq!(tanf(raw + turns * TAU), tanf(raw));
        }
    }
}

#[test]
fn cosine_is_the_sine_a_quarter_turn_on() {
    for raw in [-500_000i64, -ONE, 0, 7, ONE, 300_000, i64::MAX, i64::MIN] {
        let shifted = (raw as i128 + FRAC_PI_2 as i128).rem_euclid(TAU as i128) as i64;
        assert_eq!(cosf(raw), sinf(shifted));
    }
}

#[test]
fn tangent_is_sine_over_cosine() {
    assert_eq!(tanf(0), 0);
    assert_eq!(tanf(PI / 4), ONE);
    assert_eq!(tanf(ONE), 101_971);
    assert_eq!(tanf(-ONE), -101_971);
    assert_eq!(tanf(2 * ONE), -142_838);
    assert_eq!(tanf(PI), 0);
}

#[test]
fn tangent_at_a_right_angle_is_the_sentinel() {
    assert_eq!(tanf(FRAC_PI_2), ONE * ONE);
    assert_eq!(tanf(PI + FRAC_PI_2), -ONE * ONE);
    assert_eq!(tanf(-FRAC_PI_2), -ONE * ONE);
    assert_eq!(tanf(FRAC_PI_2 + 5 * TAU), ONE * ONE);
}

#[test]
fn tangent_stays_within_the_sentinel() {
    let mut raw = -TAU;
    while raw <= TAU {
        let t = tanf(raw);
        assert!(-ONE * ONE <= t && t <= ONE * ONE, "tangent of {raw}");
        raw += 251;
    }
    for near in [FRAC_PI_2, PI + FRAC_PI_2, -FRAC_PI_2] {
        for off in -3i64..=3 {
            let t = tanf(near + off);
            assert!(-ONE * ONE <= t && t <= ONE * ONE, "tangent of {}", near + off);
        }
    }
}
