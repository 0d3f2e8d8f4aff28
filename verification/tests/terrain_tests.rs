use verdure::color_map::Color;
use verdure::domain::Field;
use verdure::scalar::Value;
use verdure::terrain::{field_colors, get_terrain_color, terrain_colors, Surface, Terrain};

const U: i64 = 65536;

#[test]
fn low_ground_is_sand() {
    let sand = Color { r: 194, g: 178, b: 128 };
    assert_eq!(get_terrain_color(Value::Finite(-U)), sand);
    assert_eq!(get_terrain_color(Value::Finite(-19661)), sand);
    assert_eq!(get_terrain_color(Value::Finite(i64::MIN)), sand);
}

#[test]
fn high_ground_is_bedrock() {
    let bedrock = Color { r: 87, g: 105, b: 95 };
    assert_eq!(get_terrain_color(Value::Finite(U)), bedrock);
    assert_eq!(get_terrain_color(Value::Finite(45875)), bedrock);
    assert_eq!(get_terrain_color(Value::Finite(i64::MAX)), bedrock);
}

#[test]
fn waterline_blends_exactly() {
    // Height zero sits 19661 steps into the one-unit blend band.
    assert_eq!(
        get_terrain_color(Value::Finite(0)),
        Color { r: 161, g: 156, b: 118 }
    );
}

#[test]
fn invalid_height_falls_back_to_sand() {
    let sand = Color { r: 194, g: 178, b: 128 };
    assert_eq!(get_terrain_color(Value::Nan), sand);
    assert_eq!(get_terrain_color(Value::NegInf), sand);
    assert_eq!(get_terrain_color(Value::PosInf), sand);
}

#[test]
fn terrain_colors_map_each_height() {
    let heights = vec![Value::Finite(-U), Value::Finite(U), Value::Nan, Value::Finite(0)];
    let colors = terrain_colors(&heights);
    assert_eq!(
        colors,
        vec![
            Color { r: 194, g: 178, b: 128 },
            Color { r: 87, g: 105, b: 95 },
            Color { r: 194, g: 178, b: 128 },
            Color { r: 161, g: 156, b: 118 },
        ]
    );
}

#[test]
fn field_colors_normalize_over_the_snapshot() {
    // A two-valued field: the low cells take the first incandescent stop,
    // the high cells the last, and an invalid cell the gray sentinel.
    let mut f = Field::new(0);
    let (nx, ny) = f.size();
    for y in 0..ny {
        for x in 0..nx {
            f.set(x, y, Value::Finite(if x < 32 { 100 } else { 900 }));
        }
    }
    f.set(5, 7, Value::Nan);
    let positions = vec![(2 * U, 2 * U), (50 * U, 2 * U), (5 * U, 7 * U)];
    let colors = field_colors(&f, &positions);
    assert_eq!(
        colors,
        vec![
            Color { r: 206, g: 255, b: 255 },
            Color { r: 168, g: 0, b: 3 },
            Color { r: 136, g: 136, b: 136 },
        ]
    );
}

#[test]
fn field_colors_of_a_uniform_snapshot_use_the_degenerate_rule() {
    // A uniform snapshot has an equal minimum and maximum, so every sample
    // falls back to the first stop.
    let f = Field::new(0);
    let colors = field_colors(&f, &vec![(0, 0), (10 * U, 10 * U)]);
    assert_eq!(
        colors,
        vec![Color { r: 206, g: 255, b: 255 }, Color { r: 206, g: 255, b: 255 }]
    );
}

#[test]
fn terrain_and_surface_carry_their_fields() {
    let mut height_map = Field::new(2);
    height_map.set(10, 10, Value::Finite(3 * U));
    let terrain = Terrain { height_map };
    assert_eq!(terrain.height_map.get(10, 10), Value::Finite(3 * U));

    let surface = Surface { veg_density: Field::new(2) };
    assert_eq!(surface.veg_density.get_nearest(0, 0), Value::Finite(0));
}
