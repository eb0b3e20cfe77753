//! The verified arithmetic against the machine's own.
use openbarista::binary32::Binary32;
use openbarista::binary64::Binary64;
use openbarista::convert::fixed3_text;
use openbarista::decimal::read_number;

fn b(x: f32) -> Binary32 {
    Binary32::from_bits(x.to_bits())
}

fn f(x: Binary32) -> f32 {
    f32::from_bits(x.to_bits())
}

/// Equal, where all NaNs are alike.
fn same(ours: Binary32, theirs: f32) -> bool {
    if theirs.is_nan() {
        f(ours).is_nan()
    } else {
        ours.to_bits() == theirs.to_bits()
    }
}

struct Numbers {
    state: u64,
}

impl Numbers {
    fn bits(&mut self) -> u32 {
        self.state = self.state.wrapping_mul(6364136223846793005).wrapping_add(1442695040888963407);
        (self.state >> 32) as u32
    }

    fn any(&mut self) -> f32 {
        f32::from_bits(self.bits())
    }

    fn ordinary(&mut self) -> f32 {
        (self.bits() as f32 - 2147483648.0) / 65536.0
    }
}

fn special() -> Vec<f32> {
    vec![
        0.0,
        -0.0,
        1.0,
        -1.0,
        0.5,
        1.5,
        2.5,
        0.1,
        f32::MAX,
        f32::MIN,
        f32::MIN_POSITIVE,
        f32::from_bits(1),
        f32::from_bits(0x007f_ffff),
        f32::from_bits(0x8000_0001),
        f32::INFINITY,
        f32::NEG_INFINITY,
        f32::NAN,
        16777216.0,
        16777217.0,
        65535.5,
        32767.5,
        -32768.5,
        3.4e38,
        1e-45,
    ]
}

fn pairs() -> Vec<(f32, f32)> {
    let mut all: Vec<(f32, f32)> = Vec::new();
    for x in special() {
        for y in special() {
            all.push((x, y));
        }
    }
    let mut numbers = Numbers { state: 7 };
    for _ in 0..4000 {
        all.push((numbers.any(), numbers.any()));
        all.push((numbers.ordinary(), numbers.ordinary()));
        let x = numbers.any();
        all.push((x, f32::from_bits(x.to_bits() ^ (numbers.bits() & 0x8000_0007))));
    }
    all
}

#[test]
fn sums_and_differences_are_rounded_like_the_machines() {
    for (x, y) in pairs() {
        assert!(same(b(x).plus(b(y)), x + y), "{x:e} + {y:e}");
        assert!(same(b(x).minus(b(y)), x - y), "{x:e} - {y:e}");
    }
}

#[test]
fn products_and_quotients_are_rounded_like_the_machines() {
    for (x, y) in pairs() {
        assert!(same(b(x).times(b(y)), x * y), "{x:e} * {y:e}");
        assert!(same(b(x).divided_by(b(y)), x / y), "{x:e} / {y:e}");
    }
}

#[test]
fn numbers_are_ordered_like_the_machines() {
    for (x, y) in pairs() {
        assert_eq!(b(x).less(b(y)), x < y);
        assert_eq!(b(x).less_or_equal(b(y)), x <= y);
        assert_eq!(b(x).equals(b(y)), x == y);
        assert!(same(b(x).max(b(y)), x.max(y)) || (x == 0.0 && y == 0.0));
        assert_eq!(b(x).is_nan(), x.is_nan());
        assert_eq!(b(x).is_finite(), x.is_finite());
        assert!(same(b(x).abs(), x.abs()));
        assert!(same(b(x).negate(), -x));
    }
}

#[test]
fn roots_are_rounded_like_the_machines() {
    for (x, _) in pairs() {
        assert!(same(b(x).sqrt(), x.sqrt()), "sqrt({x:e})");
    }
}

#[test]
fn integers_are_converted_like_the_machines() {
    let mut numbers = Numbers { state: 11 };
    for _ in 0..2000 {
        let n = ((numbers.bits() as u64) << 32) | numbers.bits() as u64;
        let n = n >> (numbers.bits() % 64);
        assert!(same(Binary32::from_unsigned(n), n as f32), "{n}");
        assert!(same(Binary32::from_signed(n as i64), n as i64 as f32), "{n}");
    }
    for (x, _) in pairs() {
        assert_eq!(b(x).round_to_u16(), x.round() as u16, "{x:e}");
        assert_eq!(b(x).round_to_i16(), x.round() as i16, "{x:e}");
    }
}

#[test]
fn double_precision_sums_match_the_machines() {
    let mut numbers = Numbers { state: 5 };
    let mut ours = Binary64::widen(b(0.0));
    let mut theirs = 0.0f64;
    let mut count = 0u32;
    for _ in 0..3000 {
        let x = numbers.ordinary();
        ours = ours.plus(Binary64::widen(b(x)));
        theirs += x as f64;
        count += 1;
        let average = ours.divided_by(Binary64::from_count(count)).narrow();
        assert!(same(average, (theirs / count as f64) as f32), "after {count}");
    }
}

#[test]
fn three_digits_are_written_like_the_machines() {
    for (x, _) in pairs() {
        assert_eq!(fixed3_text(b(x)), format!("{x:.3}"), "{x:e}");
    }
    for t in 0..4000 {
        let x = t as f32 / 2000.0;
        assert_eq!(fixed3_text(b(x)), format!("{x:.3}"));
    }
}

#[test]
fn decimal_texts_are_read_like_the_machines() {
    let texts = [
        "0", "-0", "+1", "1.", ".5", ".", "", "-", "+", "1e3", "1E3", "1e+3", "1e-3", "1e", "1e+",
        "e5", "1.5.2", "inf", "-INF", "Infinity", "+infinity", "nan", "NaN", "-nan", "infinit",
        "1_0", " 1", "1 ", "0x10", "16777217", "16777216.5", "3.4028235e38", "3.4028236e38", "1e39",
        "-1e39", "1e-45", "7e-46", "7.1e-46", "1.4e-45", "1e-50", "0e999999999999",
        "1e-999999999999999999999", "1e999999999999999999999", "0.1", "0.3", "9007199254740993",
        "1.00000005960464477539062500000000000000000000001", "1.000000059604644775390625",
        "340282356779733661637539395458142568447.9999", "340282356779733661637539395458142568448",
        "00000000000000000000000000000000000000000000001", "18.3", "44.80", "٣",
    ];
    for t in texts {
        match (read_number(t), t.parse::<f32>()) {
            (Some(ours), Ok(theirs)) => assert!(same(ours, theirs), "{t}"),
            (None, Err(_)) => {}
            (ours, theirs) => panic!("{t}: {ours:?} {theirs:?}"),
        }
    }
    let mut numbers = Numbers { state: 3 };
    for _ in 0..300 {
        let x = numbers.any();
        if x.is_finite() {
            let t = format!("{x:e}");
            assert!(same(read_number(&t).unwrap(), t.parse::<f32>().unwrap()), "{t}");
            let long = format!("{}{:08}e{}", numbers.bits(), numbers.bits() % 100000000, -30);
            assert!(same(read_number(&long).unwrap(), long.parse::<f32>().unwrap()), "{long}");
        }
    }
}

#[test]
fn clamping_and_zeroing_match_the_machines() {
    for (x, _) in pairs() {
        assert!(same(b(x).clamp(b(0.0), b(12.0)), x.clamp(0.0, 12.0)) || x == 0.0, "{x:e}");
        assert!(same(b(x).finite_or_zero(), if x.is_finite() { x } else { 0.0 }));
    }
}
