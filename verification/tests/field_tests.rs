use verdure::domain::Field;
use verdure::scalar::Value;

const U: i64 = 65536;

#[test]
fn new_field_resolution_and_scale() {
    let f = Field::new(3);
    assert_eq!(f.size(), (512, 512));
    assert_eq!(f.idx_scale(), 8);
    let f0 = Field::new(0);
    assert_eq!(f0.size(), (64, 64));
    assert_eq!(f0.idx_scale(), 1);
}

#[test]
fn new_field_is_zeroed() {
    let f = Field::new(0);
    assert_eq!(f.get(0, 0), Value::Finite(0));
    assert_eq!(f.get(63, 63), Value::Finite(0));
    assert_eq!(f.get(17, 40), Value::Finite(0));
}

#[test]
fn get_set_roundtrip() {
    let mut f = Field::new(1);
    f.set(3, 5, Value::Finite(4242));
    assert_eq!(f.get(3, 5), Value::Finite(4242));
    assert_eq!(f.get(5, 3), Value::Finite(0));
}

#[test]
fn nearest_rounds_to_closest_cell() {
    let mut f = Field::new(0);
    f.set(2, 3, Value::Finite(777));
    // 2.4 rounds to cell 2, 3.4 rounds to cell 3.
    let p24 = (24 * U) / 10;
    let p34 = (34 * U) / 10;
    assert_eq!(f.get_nearest(p24, p34), Value::Finite(777));
    // 2.6 rounds to cell 3 instead.
    let p26 = (26 * U) / 10;
    assert_eq!(f.get_nearest(p26, p34), Value::Finite(0));
}

#[test]
fn nearest_clamps_beyond_boundary() {
    // A field of subdivisions 3 over the 64x64 base domain is 512x512;
    // world position (256, 256) addresses grid cell (2048, 2048) before
    // clamping, which must land on (511, 511).
    let mut f = Field::new(3);
    f.set(511, 511, Value::Finite(99));
    assert_eq!(f.get_nearest(256 * U, 256 * U), Value::Finite(99));
}

#[test]
fn nearest_never_faults_anywhere() {
    let mut f = Field::new(2);
    f.set(0, 0, Value::Finite(-5));
    assert_eq!(f.get_nearest(-123456789 * U, -1), Value::Finite(-5));
    assert_eq!(f.get_nearest(i64::MAX, i64::MIN), Value::Finite(0));
}

#[test]
fn bilinear_exact_at_cell_centers() {
    let mut f = Field::new(0);
    f.set(5, 7, Value::Finite(131072));
    f.set(6, 7, Value::Finite(-40000));
    f.set(5, 8, Value::Finite(1));
    f.set(6, 8, Value::Nan);
    assert_eq!(f.get_bilinear(5 * U, 7 * U), Value::Finite(131072));
    assert_eq!(f.get_bilinear(6 * U, 7 * U), Value::Finite(-40000));
    assert_eq!(f.get_bilinear(5 * U, 8 * U), Value::Finite(1));
    assert_eq!(f.get_bilinear(6 * U, 8 * U), Value::Nan);
}

#[test]
fn bilinear_blends_halfway() {
    let mut f = Field::new(0);
    f.set(0, 0, Value::Finite(0));
    f.set(1, 0, Value::Finite(U));
    assert_eq!(f.get_bilinear(U / 2, 0), Value::Finite(U / 2));
    // A quarter of the way across the cell.
    assert_eq!(f.get_bilinear(U / 4, 0), Value::Finite(U / 4));
}

#[test]
fn bilinear_clamps_outside_domain() {
    let mut f = Field::new(0);
    f.set(0, 0, Value::Finite(321));
    f.set(63, 63, Value::Finite(-321));
    assert_eq!(f.get_bilinear(-100 * U, -100 * U), Value::Finite(321));
    assert_eq!(f.get_bilinear(100000 * U, 100000 * U), Value::Finite(-321));
}

#[test]
fn kernel_adds_exact_falloff_weights() {
    let mut f = Field::new(0);
    // Radius two world units at cell (2, 2), amount one.
    f.add_kernel(2 * U, 2 * U, 2 * U, U);
    // Center cell: full weight.
    assert_eq!(f.get(2, 2), Value::Finite(65536));
    // One cell away: three quarters.
    assert_eq!(f.get(3, 2), Value::Finite(49152));
    assert_eq!(f.get(2, 1), Value::Finite(49152));
    // Diagonal neighbor: one half.
    assert_eq!(f.get(3, 3), Value::Finite(32768));
    // Exactly on the circle: untouched.
    assert_eq!(f.get(4, 2), Value::Finite(0));
    // Far away: untouched.
    assert_eq!(f.get(10, 10), Value::Finite(0));
}

#[test]
fn kernel_inverse_restores_field() {
    let mut f = Field::new(0);
    for x in 0..64usize {
        for y in 0..64usize {
            f.set(x, y, Value::Finite((x as i64) * 1000 - (y as i64) * 77));
        }
    }
    f.set(9, 9, Value::Nan);
    f.set(10, 10, Value::PosInf);
    let before: Vec<Value> = (0..64usize)
        .flat_map(|y| (0..64usize).map(move |x| (x, y)))
        .map(|(x, y)| f.get(x, y))
        .collect();
    f.add_kernel(10 * U, 10 * U, 3 * U, 54321);
    f.add_kernel(10 * U, 10 * U, 3 * U, -54321);
    let after: Vec<Value> = (0..64usize)
        .flat_map(|y| (0..64usize).map(move |x| (x, y)))
        .map(|(x, y)| f.get(x, y))
        .collect();
    assert_eq!(before, after);
}

#[test]
fn zero_radius_kernel_touches_nothing() {
    let mut f = Field::new(0);
    f.set(2, 2, Value::Finite(5));
    f.add_kernel(2 * U, 2 * U, 0, U);
    let (nx, ny) = f.size();
    for y in 0..ny {
        for x in 0..nx {
            let expected = if (x, y) == (2, 2) { Value::Finite(5) } else { Value::Finite(0) };
            assert_eq!(f.get(x, y), expected);
        }
    }
}

#[test]
fn kernel_outside_grid_touches_nothing() {
    let mut f = Field::new(0);
    f.add_kernel(-50 * U, -50 * U, 2 * U, U);
    let (nx, ny) = f.size();
    for y in 0..ny {
        for x in 0..nx {
            assert_eq!(f.get(x, y), Value::Finite(0));
        }
    }
}

#[test]
fn min_max_skips_unordered_cells() {
    // A field of one NaN and an otherwise uniform value reduces to that
    // value on both ends.
    let mut f = Field::new(0);
    let (nx, ny) = f.size();
    for y in 0..ny {
        for x in 0..nx {
            f.set(x, y, Value::Finite(7));
        }
    }
    f.set(13, 29, Value::Nan);
    assert_eq!(f.compute_min_max(), (Value::Finite(7), Value::Finite(7)));
}

#[test]
fn min_max_of_all_invalid_returns_bounds() {
    let mut f = Field::new(0);
    let (nx, ny) = f.size();
    for y in 0..ny {
        for x in 0..nx {
            f.set(x, y, Value::Nan);
        }
    }
    assert_eq!(
        f.compute_min_max(),
        (Value::Finite(i64::MAX), Value::Finite(i64::MIN))
    );
}

#[test]
fn min_max_orders_infinities() {
    let mut f = Field::new(0);
    f.set(1, 1, Value::Finite(-9));
    f.set(2, 2, Value::Finite(55));
    f.set(3, 3, Value::PosInf);
    assert_eq!(f.compute_min_max(), (Value::Finite(-9), Value::PosInf));
}
