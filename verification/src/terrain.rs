//! The terrain and vegetation surface fields, and terrain coloring.
//!
//! A `Terrain` owns the height field and a `Surface` owns the vegetation
//! density field; both are plain `Field`s, populated and read by their
//! owners. Terrain coloring blends from sand to bedrock across a fixed
//! height band around the waterline.

use vstd::prelude::*;

use crate::scalar::{Value, UNIT};
use crate::color_map::{
    Color, ColorMap, ColorScheme, color_lerp, color_of, lemma_lerp_channel_range,
    scheme_invalid_color, scheme_stops,
};
use crate::domain::{Field, cell_at, clamp_int, max_fold, min_fold, nearest_axis};

verus! {

/// The bedrock color above the boundary band.
pub open spec fn bedrock_color() -> Color {
    Color { r: 87, g: 105, b: 95 }
}

/// The sand color below the boundary band.
pub open spec fn sand_color() -> Color {
    Color { r: 194, g: 178, b: 128 }
}

/// Height mantissa where the sand-to-bedrock blend begins: the boundary
/// position less the boundary width, three tenths of a unit below zero.
pub const BOUNDARY_START: i64 = -19661;

/// The terrain: a height field over the world rectangle.
pub struct Terrain {
    pub height_map: Field,
}

/// The living surface: a vegetation density field over the world rectangle.
pub struct Surface {
    pub veg_density: Field,
}

/// The terrain color at a height: sand below the boundary band, bedrock
/// above it, blended linearly across one unit. A non-finite height sample
/// falls back to sand.
pub open spec fn terrain_color_spec(height: Value) -> Color {
    if !height.spec_is_finite() {
        sand_color()
    } else {
        let t = clamp_int(height.m() - BOUNDARY_START, 0, UNIT as int);
        color_lerp(sand_color(), bedrock_color(), t)
    }
}

/// The terrain color at a height sample.
pub fn get_terrain_color(height: Value) -> (c: Color)
    ensures
        c == terrain_color_spec(height),
{
    let m: i64 = match height {
        Value::Finite(m) => m,
        _ => {
            return Color { r: 194, g: 178, b: 128 };
        },
    };
    let shifted: i64 = if m >= i64::MAX - 19661 {
        i64::MAX
    } else {
        m + 19661
    };
    let t: i64 = if shifted < 0 {
        0
    } else if shifted > 65536 {
        65536
    } else {
        shifted
    };
    proof {
        lemma_lerp_channel_range(194, 87, t as int);
        lemma_lerp_channel_range(178, 105, t as int);
        lemma_lerp_channel_range(128, 95, t as int);
    }
    let sand = Color { r: 194, g: 178, b: 128 };
    let bedrock = Color { r: 87, g: 105, b: 95 };
    sand.mix(bedrock, t)
}

/// The terrain colors of a batch of height samples, one per vertex; the
/// compute half of recoloring a surface by height.
pub fn terrain_colors(heights: &Vec<Value>) -> (colors: Vec<Color>)
    ensures
        colors@.len() == heights@.len(),
        forall|i: int| 0 <= i < heights@.len() ==> colors@[i] == terrain_color_spec(
            #[trigger] heights@[i],
        ),
{
    let mut colors: Vec<Color> = Vec::new();
    let mut i: usize = 0;
    let n = heights.len();
    while i < n
        invariant
            i <= n,
            n == heights@.len(),
            colors@.len() == i,
            forall|j: int| 0 <= j < i ==> colors@[j] == terrain_color_spec(#[trigger] heights@[j]),
        decreases n - i,
    {
        let c = get_terrain_color(heights[i]);
        colors.push(c);
        i = i + 1;
    }
    colors
}

/// The range a field snapshot is normalized over: its reduced minimum and
/// maximum where those are finite and ordered. A snapshot holding an
/// infinity, or no ordered cell at all, has no usable bounds — normalizing
/// over them would collapse or invert the gradient — so the unit range
/// stands in: finite samples still spread over the palette and non-finite
/// samples keep their invalid-data color.
pub open spec fn snapshot_range(cells: Seq<Value>) -> (int, int) {
    let lo = min_fold(cells);
    let hi = max_fold(cells);
    if lo is Finite && hi is Finite && lo.m() <= hi.m() {
        (lo.m(), hi.m())
    } else {
        (0, UNIT as int)
    }
}

/// The incandescent palette colors of a field snapshot at a batch of world
/// positions, normalized over the snapshot's own value range; the compute
/// half of recoloring a surface from a field.
pub fn field_colors(field: &Field, positions: &Vec<(i64, i64)>) -> (colors: Vec<Color>)
    requires
        field.wf(),
    ensures
        colors@.len() == positions@.len(),
        forall|i: int| 0 <= i < positions@.len() ==> colors@[i] == color_of(
            scheme_stops(ColorScheme::Incandescent),
            scheme_invalid_color(ColorScheme::Incandescent),
            snapshot_range(field.cells()).0,
            snapshot_range(field.cells()).1,
            field.cells()[cell_at(
                nearest_axis((#[trigger] positions@[i]).0 * field.scale_of(), field.nx()),
                nearest_axis(positions@[i].1 * field.scale_of(), field.ny()),
                field.nx(),
            )],
        ),
{
    let (lo, hi) = field.compute_min_max();
    let (min_m, max_m): (i64, i64) = match (lo, hi) {
        (Value::Finite(a), Value::Finite(b)) => {
            if a <= b {
                (a, b)
            } else {
                (0, UNIT)
            }
        },
        _ => (0, UNIT),
    };
    let cmap = ColorMap::new(min_m, max_m, ColorScheme::Incandescent);
    let mut colors: Vec<Color> = Vec::new();
    let mut i: usize = 0;
    let n = positions.len();
    while i < n
        invariant
            i <= n,
            n == positions@.len(),
            field.wf(),
            cmap.wf(),
            cmap.spec_min() == snapshot_range(field.cells()).0,
            cmap.spec_max() == snapshot_range(field.cells()).1,
            cmap.stops() == scheme_stops(ColorScheme::Incandescent),
            cmap.invalid_color() == scheme_invalid_color(ColorScheme::Incandescent),
            colors@.len() == i,
            forall|j: int| 0 <= j < i ==> colors@[j] == color_of(
                scheme_stops(ColorScheme::Incandescent),
                scheme_invalid_color(ColorScheme::Incandescent),
                snapshot_range(field.cells()).0,
                snapshot_range(field.cells()).1,
                field.cells()[cell_at(
                    nearest_axis((#[trigger] positions@[j]).0 * field.scale_of(), field.nx()),
                    nearest_axis(positions@[j].1 * field.scale_of(), field.ny()),
                    field.nx(),
                )],
            ),
        decreases n - i,
    {
        let (px, pz) = positions[i];
        let sample = field.get_nearest(px, pz);
        let c = cmap.get_color(sample);
        colors.push(c);
        i = i + 1;
    }
    colors
}

} // verus!
