use mmux::ratio::{Ratio, GREATEST, HALF, LEAST, ONE, STEP};

/// The double that a ratio stands for.
fn value(ratio: Ratio) -> f64 {
    ratio.units as f64 / ONE as f64
}

fn share(ratio: f64, n: usize) -> usize {
    ((n as f64) * ratio) as usize
}

fn next(ratio: f64, grow: bool) -> f64 {
    (ratio + if grow { 0.05 } else { -0.05 }).clamp(0.01, 0.99)
}

#[test]
fn constants_are_the_doubles() {
    assert_eq!(HALF as f64 / ONE as f64, 0.5);
    assert_eq!(STEP as f64 / ONE as f64, 0.05);
    assert_eq!(LEAST as f64 / ONE as f64, 0.01);
    assert_eq!(GREATEST as f64 / ONE as f64, 0.99);
    assert_eq!(Ratio::half().units, HALF);
}

#[test]
fn scale_is_the_product_cut_to_an_integer() {
    for ratio in ratios() {
        for n in 0..2000 {
            assert_eq!(ratio.scale(n), share(value(ratio), n));
        }
        for n in [65_535, 65_537, 1 << 20, (1 << 53) - 1, (1 << 53) + 1, usize::MAX] {
            assert_eq!(ratio.scale(n), share(value(ratio), n));
        }
    }
}

#[test]
fn step_rounds_like_a_double() {
    for grow in [true, false] {
        let mut ratio = Ratio::half();
        let mut expected = 0.5;
        for _ in 0..25 {
            ratio = ratio.step(grow);
            expected = next(expected, grow);
            assert_eq!(value(ratio), expected);
        }
    }
    // Back and forth, from both ends.
    let mut ratio = Ratio::half();
    let mut expected = 0.5;
    for i in 0..400 {
        let grow = (i / 13) % 2 == 0 || i % 7 == 3;
        ratio = ratio.step(grow);
        expected = next(expected, grow);
        assert_eq!(value(ratio), expected);
    }
}

#[test]
fn step_stops_at_the_ends() {
    assert_eq!(Ratio { units: GREATEST }.step(true).units, GREATEST);
    assert_eq!(Ratio { units: LEAST }.step(false).units, LEAST);
}

#[test]
fn half_rounds_down() {
    assert_eq!(Ratio::half().scale(80), 40);
    assert_eq!(Ratio::half().scale(81), 40);
    assert_eq!(Ratio::half().scale(1), 0);
    assert_eq!(Ratio::half().scale(0), 0);
}

fn ratios() -> Vec<Ratio> {
    let mut found = vec![Ratio { units: LEAST }, Ratio { units: GREATEST }];
    let mut up = Ratio::half();
    let mut down = Ratio::half();
    for _ in 0..12 {
        found.push(up);
        found.push(down);
        up = up.step(true);
        down = down.step(false);
    }
    found
}
