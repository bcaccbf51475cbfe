use sabantui::float::Double;
use sabantui::kelvin::{curves, kelvin_to_rgb, kelvin_to_rgb_scales, multiplier_of, Curve};

fn double(x: f64) -> Double {
    Double { bits: x.to_bits() }
}

fn number(x: Double) -> f64 {
    f64::from_bits(x.bits)
}

fn level(c: Curve) -> Double {
    let found = match c {
        Curve::Level(x) => number(x),
        Curve::Logarithm { of, .. } => number(of).ln(),
        Curve::Power { of, exponent, .. } => number(of).powf(number(exponent)),
    };
    c.level(double(found))
}

fn levels(kelvin: u16, full_at_edge: bool) -> (Double, Double, Double) {
    let (r, g, b) = curves(kelvin, full_at_edge);
    (level(r), level(g), level(b))
}

fn scales(kelvin: u16) -> (f64, f64, f64) {
    let (r, g, b) = levels(kelvin, true);
    let (r, g, b) = kelvin_to_rgb_scales(r, g, b);
    (number(r), number(g), number(b))
}

fn amounts(kelvin: u16) -> (f64, f64, f64) {
    let (r, g, b) = levels(kelvin, false);
    let (r, g, b) = kelvin_to_rgb(r, g, b);
    (number(r), number(g), number(b))
}

const KELVINS: [u16; 18] =
    [0, 999, 1000, 1001, 1899, 1900, 1901, 2700, 4500, 5000, 6500, 6599, 6600, 6601, 8000, 9999, 10000, 65535];

#[test]
fn kelvin_scales_are_finite() {
    let (r, g, b) = scales(6500);
    assert!(r.is_finite());
    assert!(g.is_finite());
    assert!(b.is_finite());
}

#[test]
fn scales_keep_the_luma() {
    for k in KELVINS {
        let temp = (k as f64).clamp(1000.0, 10000.0) / 100.0;
        let red = if temp <= 66.0 { 255.0 } else { 329.698727446 * (temp - 60.0).powf(-0.1332047592) };
        let green = if temp <= 66.0 {
            99.4708025861 * temp.ln() - 161.1195681661
        } else {
            288.1221695283 * (temp - 60.0).powf(-0.0755148492)
        };
        let blue = if temp >= 66.0 {
            255.0
        } else if temp <= 19.0 {
            0.0
        } else {
            138.5177312231 * (temp - 10.0).ln() - 305.0447927307
        };
        let r = red.clamp(0.0, 255.0) / 255.0;
        let g = green.clamp(0.0, 255.0) / 255.0;
        let b = blue.clamp(0.0, 255.0) / 255.0;
        let luma = 0.2126 * r + 0.7152 * g + 0.0722 * b;
        assert_eq!(scales(k), (r / luma, g / luma, b / luma), "{k}");
        let (r, g, b) = scales(k);
        assert!(0.0 <= r && r <= 16.0 && 0.0 <= g && g <= 16.0 && 0.0 <= b && b <= 16.0);
    }
}

#[test]
fn amounts_are_shares_of_the_greatest_level() {
    assert_eq!(amounts(1900), (1.0, amounts(1900).1, 0.0));
    assert_eq!(amounts(6601).2, 1.0);
    assert_eq!(amounts(6600).2, ((138.5177312231f64 * 56.0f64.ln() - 305.0447927307) / 255.0).clamp(0.0, 1.0));
    for k in KELVINS {
        let (r, g, b) = amounts(k);
        for x in [r, g, b] {
            assert!(0.0 <= x && x <= 1.0, "{k}");
        }
        assert!(r == 1.0 || b == 1.0, "{k}");
    }
}

#[test]
fn levels_out_of_range_are_brought_back() {
    let (r, g, b) = kelvin_to_rgb(double(-3.5), double(1e300), double(f64::NAN));
    assert_eq!((number(r), number(g)), (0.0, 1.0));
    assert!(number(b).is_nan());
    let (r, g, b) = kelvin_to_rgb_scales(double(0.0), double(0.0), double(0.0));
    assert_eq!((number(r), number(g), number(b)), (0.0, 0.0, 0.0));
}

#[test]
fn multipliers_go_up_to_two() {
    assert_eq!(number(multiplier_of(double(0.5), double(0.8))), 0.5 / 0.8);
    assert_eq!(number(multiplier_of(double(1.0), double(0.1))), 2.0);
    assert_eq!(number(multiplier_of(double(0.0), double(0.5))), 0.0);
    assert_eq!(number(multiplier_of(double(1.0), double(0.0))), 2.0);
    assert!(number(multiplier_of(double(0.0), double(0.0))).is_nan());
}
