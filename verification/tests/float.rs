use sabantui::float::{Double, Single};

fn chars(s: &str) -> Vec<char> {
    s.chars().collect()
}

fn single(x: f32) -> Single {
    Single { bits: x.to_bits() }
}

fn double(x: f64) -> Double {
    Double { bits: x.to_bits() }
}

const TEXTS: [&str; 46] = [
    "0", "-0", "1", "+1", "-1", ".5", "5.", ".", "", "+", "-", "e5", "1e", "1e+", "1e5", "1E-5", "1.5e3",
    "59.94", "60.000000", "74.97", "143.856003", "0.1", "0.2", "0.3", "16777217", "16777219",
    "3.4028235e38", "3.4028236e38", "1e39", "1e-45", "7e-46", "1.17549435e-38", "1e400", "-1e400",
    "inf", "-inf", "+Infinity", "infinit", "nan", "-NaN", "1_000", "0x10", " 1", "1 ", "00012.500",
    "2.2250738585072014e-308",
];

#[test]
fn reading_single_numbers_agrees_with_std() {
    for t in TEXTS {
        let ours = Single::parse(&chars(t)).map(|x| f32::from_bits(x.bits));
        let std = t.parse::<f32>().ok();
        match (ours, std) {
            (Some(a), Some(b)) => assert!(a.to_bits() == b.to_bits() || (a.is_nan() && b.is_nan()), "{t}"),
            (None, None) => {}
            _ => panic!("{t}"),
        }
    }
}

#[test]
fn reading_double_numbers_agrees_with_std() {
    for t in TEXTS {
        let ours = Double::parse(&chars(t)).map(|x| f64::from_bits(x.bits));
        let std = t.parse::<f64>().ok();
        match (ours, std) {
            (Some(a), Some(b)) => assert!(a.to_bits() == b.to_bits() || (a.is_nan() && b.is_nan()), "{t}"),
            (None, None) => {}
            _ => panic!("{t}"),
        }
    }
}

const SINGLES: [f32; 30] = [
    0.0, -0.0, 1.0, -1.0, 0.1, 0.05, 0.5, 0.75, 59.94, 60.0, 143.856, 1.0e-45, 1.1754944e-38, 3.4028235e38,
    16777216.0, 16777218.0, 0.3, 1.5, 2.5, 99.5, 0.004, 0.005, 0.995, 1e10, 1e-10, 123456.79, 8388608.5, 0.33333334,
    f32::INFINITY, f32::NEG_INFINITY,
];

const DOUBLES: [f64; 36] = [
    0.0, -0.0, 1.0, -1.0, 0.1, 0.25, 0.5, 0.75, 1.25, 1.5, 1.75, 2.0, 2.25, 1.3333333333333333, 0.30000000000000004,
    123456789.125, 1e15, 1e16, 123456789012345680.0, 9007199254740993.0, 1125899906842624.25, 1e21, 1e22, 1e23, 1.5e300,
    1.7976931348623157e308, 5e-324, 2.2250738585072014e-308, 1e-7, 1.1920928955078125e-7, 4.35, 0.0001, 100.0, 12345.678,
    f64::INFINITY, f64::NEG_INFINITY,
];

#[test]
fn writing_agrees_with_std() {
    for x in SINGLES {
        assert_eq!(single(x).to_text(), format!("{x}"));
    }
    for x in DOUBLES {
        assert_eq!(double(x).to_text(), format!("{x}"));
    }
    assert_eq!(double(f64::NAN).to_text(), "NaN");
    assert_eq!(single(f32::NAN).to_text(), "NaN");
}

#[test]
fn written_numbers_are_the_numbers_read() {
    for x in DOUBLES {
        let s = double(x).to_text();
        assert_eq!(Double::parse(&chars(&s)).unwrap().bits, x.to_bits());
    }
    for x in SINGLES {
        let s = single(x).to_text();
        assert_eq!(Single::parse(&chars(&s)).unwrap().bits, x.to_bits());
    }
}

#[test]
fn writing_with_places_agrees_with_std() {
    for x in SINGLES {
        for k in 0..4u32 {
            let ours: String = single(x).fixed(k).into_iter().collect();
            assert_eq!(ours, format!("{x:.0$}", k as usize));
        }
    }
    for x in [0.25f64, 1.25, 1.005, 2.675, -0.125, 0.0, -0.0, 1e22, 0.999, f64::INFINITY, f64::NAN] {
        for k in 0..5u32 {
            let ours: String = double(x).fixed(k).into_iter().collect();
            assert_eq!(ours, format!("{x:.0$}", k as usize));
        }
    }
}

#[test]
fn single_arithmetic_agrees_with_std() {
    let tenth = single(0.1);
    for x in SINGLES {
        let y = single(x);
        assert_eq!(y.clamped().bits, x.clamp(0.0, 1.0).to_bits());
        assert_eq!(f32::from_bits(y.at_least(tenth).bits), x.max(0.1));
        assert_eq!(y.is_positive(), x > 0.0);
        assert_eq!(f64::from_bits(y.widened().bits), x as f64);
        assert_eq!(y.rounded(), x.round() as u32);
        for z in SINGLES {
            assert_eq!(y.less(single(z)), x < z);
            assert_eq!(y == single(z), x == z);
            let sum = f32::from_bits(y.plus(single(z)).bits);
            assert!(sum == x + z || (sum.is_nan() && (x + z).is_nan()));
            assert_eq!(y.closer(single(z), tenth), (x - z).abs() < 0.1);
            assert_eq!(y.farther(single(z), tenth), (x - z).abs() > 0.1);
        }
    }
    for x in [0.0f32, 0.05, 0.1, 0.333, 0.5, 0.755, 1.0] {
        for of in [100.0f32, 255.0, 1515.0, 19393.0] {
            assert_eq!(single(x).share(single(of)).bits, (x * of).to_bits());
        }
    }
    for (part, whole) in [(0u32, 7u32), (1, 3), (50, 100), (16777217, 16777219), (300, 100), (1515, 19393)] {
        let expected = (part as f32 / whole as f32).clamp(0.0, 1.0);
        assert_eq!(Single::ratio(part, whole).bits, expected.to_bits());
        assert_eq!(Single::of_whole(part).bits, (part as f32).to_bits());
    }
    let nan = single(f32::NAN);
    assert!(f32::from_bits(nan.clamped().bits).is_nan());
    assert_eq!(nan.at_least(tenth).bits, 0.1f32.to_bits());
    assert_eq!(nan.rounded(), 0);
    assert!(!nan.less(tenth) && !tenth.less(nan) && nan != nan);
    assert!(!nan.farther(tenth, tenth) && !nan.closer(tenth, tenth));
}

#[test]
fn double_arithmetic_agrees_with_std() {
    let limit = double(0.01);
    let few = [0.0, -0.0, 0.1, 1.0, -2.5, 1.25, 1.005, 1e300, 5e-324, f64::INFINITY, f64::NAN];
    for x in few {
        let y = double(x);
        let narrow = f32::from_bits(y.narrowed().bits);
        assert!(narrow == x as f32 || (narrow.is_nan() && x.is_nan()));
        assert_eq!(y.is_positive(), x > 0.0);
        assert_eq!(f64::from_bits(y.at_least(double(0.1)).bits), x.max(0.1));
        let within = f64::from_bits(y.between(double(0.1), double(10.0)).bits);
        assert!(within == x.clamp(0.1, 10.0) || (within.is_nan() && x.is_nan()));
        for z in few {
            assert_eq!(y.less(double(z)), x < z);
            assert_eq!(y.closer(double(z), limit), (x - z).abs() < 0.01);
            let product = f64::from_bits(y.times(double(z)).bits);
            assert!(product.to_bits() == (x * z).to_bits() || (product.is_nan() && (x * z).is_nan()));
            let sum = f64::from_bits(y.plus(double(z)).bits);
            assert!(sum.to_bits() == (x + z).to_bits() || (sum.is_nan() && (x + z).is_nan()));
            let quotient = f64::from_bits(y.over(double(z)).bits);
            assert!(quotient.to_bits() == (x / z).to_bits() || (quotient.is_nan() && (x / z).is_nan()));
        }
    }
    for n in [0u32, 1, 33, 50, 99, 100, u32::MAX] {
        assert_eq!(f64::from_bits(Double::of_whole(n).bits), n as f64);
        assert_eq!(f64::from_bits(Double::hundredths(n).bits), n as f64 / 100.0);
    }
}
