use rics::chance::{is_dropped, is_less, is_probability, ONE, ZERO};

fn samples() -> Vec<f32> {
    vec![
        0.0,
        -0.0,
        1.0,
        -1.0,
        0.5,
        0.25,
        0.999_999_94,
        1.000_000_1,
        2.0,
        -0.5,
        1e-45,
        -1e-45,
        1e-10,
        3.4e38,
        -3.4e38,
        f32::INFINITY,
        f32::NEG_INFINITY,
        f32::NAN,
        -f32::NAN,
        f32::MIN_POSITIVE,
        f32::EPSILON,
    ]
}

#[test]
fn the_named_patterns_are_zero_and_one() {
    assert_eq!(ZERO, 0.0f32.to_bits());
    assert_eq!(ONE, 1.0f32.to_bits());
}

#[test]
fn less_agrees_with_the_numbers() {
    for a in samples() {
        for b in samples() {
            assert_eq!(is_less(a.to_bits(), b.to_bits()), a < b, "{} < {}", a, b);
        }
    }
}

#[test]
fn probability_agrees_with_the_numbers() {
    for v in samples() {
        assert_eq!(is_probability(v.to_bits()), v >= 0.0 && v <= 1.0, "{}", v);
    }
}

#[test]
fn probability_at_the_edges() {
    assert!(is_probability(0.0f32.to_bits()));
    assert!(is_probability((-0.0f32).to_bits()));
    assert!(is_probability(1.0f32.to_bits()));
    assert!(!is_probability(1.000_000_1f32.to_bits()));
    assert!(!is_probability((-1e-45f32).to_bits()));
    assert!(!is_probability(f32::NAN.to_bits()));
}

#[test]
fn dropped_agrees_with_the_numbers() {
    for chance in samples() {
        for draw in samples() {
            let expected = chance != 0.0 && draw < chance;
            assert_eq!(
                is_dropped(chance.to_bits(), draw.to_bits()),
                expected,
                "chance {} draw {}",
                chance,
                draw
            );
        }
    }
}

#[test]
fn chance_of_zero_drops_nothing() {
    for draw in [0.0f32, 0.1, 0.5, 0.999].iter() {
        assert!(!is_dropped(ZERO, draw.to_bits()));
        assert!(!is_dropped((-0.0f32).to_bits(), draw.to_bits()));
    }
}

#[test]
fn chance_of_one_drops_every_draw_below_one() {
    for draw in [0.0f32, 0.1, 0.5, 0.999_999_94].iter() {
        assert!(is_dropped(ONE, draw.to_bits()));
    }
}

#[test]
fn chance_of_a_half_splits_the_draws() {
    let half = 0.5f32.to_bits();
    assert!(is_dropped(half, 0.25f32.to_bits()));
    assert!(!is_dropped(half, 0.5f32.to_bits()));
    assert!(!is_dropped(half, 0.75f32.to_bits()));
}
