use verdure::color_map::{Color, ColorMap, ColorScheme};
use verdure::scalar::Value;

const U: i64 = 65536;

fn incandescent_first() -> Color {
    Color { r: 206, g: 255, b: 255 }
}

fn incandescent_last() -> Color {
    Color { r: 168, g: 0, b: 3 }
}

fn rainbow_first() -> Color {
    Color { r: 232, g: 236, b: 251 }
}

fn rainbow_last() -> Color {
    Color { r: 82, g: 26, b: 19 }
}

#[test]
fn clamps_to_first_stop_at_or_below_min() {
    let cm = ColorMap::new(0, U, ColorScheme::Incandescent);
    assert_eq!(cm.get_color(Value::Finite(0)), incandescent_first());
    assert_eq!(cm.get_color(Value::Finite(-1)), incandescent_first());
    assert_eq!(cm.get_color(Value::Finite(i64::MIN)), incandescent_first());
}

#[test]
fn clamps_to_last_stop_at_or_above_max() {
    let cm = ColorMap::new(0, U, ColorScheme::Incandescent);
    assert_eq!(cm.get_color(Value::Finite(U)), incandescent_last());
    assert_eq!(cm.get_color(Value::Finite(U + 1)), incandescent_last());
    assert_eq!(cm.get_color(Value::Finite(i64::MAX)), incandescent_last());
}

#[test]
fn rainbow_clamps_too() {
    let cm = ColorMap::new(-1000, 1000, ColorScheme::Rainbow);
    assert_eq!(cm.get_color(Value::Finite(-1000)), rainbow_first());
    assert_eq!(cm.get_color(Value::Finite(1000)), rainbow_last());
}

#[test]
fn degenerate_range_returns_first_stop() {
    let cm = ColorMap::new(5, 5, ColorScheme::Rainbow);
    assert_eq!(cm.get_color(Value::Finite(-123456)), rainbow_first());
    assert_eq!(cm.get_color(Value::Finite(5)), rainbow_first());
    assert_eq!(cm.get_color(Value::Finite(987654321)), rainbow_first());
}

#[test]
fn non_finite_input_returns_invalid_color() {
    let cm = ColorMap::new(0, U, ColorScheme::Incandescent);
    let gray = Color { r: 136, g: 136, b: 136 };
    assert_eq!(cm.get_color(Value::Nan), gray);
    assert_eq!(cm.get_color(Value::PosInf), gray);
    assert_eq!(cm.get_color(Value::NegInf), gray);
    let cm2 = ColorMap::new(3, 3, ColorScheme::Rainbow);
    let gray2 = Color { r: 102, g: 102, b: 102 };
    assert_eq!(cm2.get_color(Value::Nan), gray2);
}

#[test]
fn midpoint_lands_exactly_on_middle_stop() {
    // Over eleven stops, the halfway sample scales to continuous index
    // five exactly, the sixth stop.
    let cm = ColorMap::new(0, U, ColorScheme::Incandescent);
    assert_eq!(
        cm.get_color(Value::Finite(U / 2)),
        Color { r: 231, g: 181, b: 3 }
    );
}

#[test]
fn interpolates_between_stops_exactly() {
    // The sample 36045/65536 scales to continuous index 360450/65536,
    // between the sixth and seventh stops with fraction 32770/65536.
    let cm = ColorMap::new(0, U, ColorScheme::Incandescent);
    assert_eq!(
        cm.get_color(Value::Finite(36045)),
        Color { r: 236, g: 166, b: 3 }
    );
}

#[test]
fn mix_endpoints_are_exact() {
    let a = Color { r: 10, g: 200, b: 31 };
    let b = Color { r: 255, g: 0, b: 99 };
    assert_eq!(a.mix(b, 0), a);
    assert_eq!(a.mix(b, U), b);
    assert_eq!(a.mix(b, U / 2), Color { r: 132, g: 100, b: 65 });
}
