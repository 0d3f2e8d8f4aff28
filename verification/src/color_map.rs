//! Palette-based value-to-color mapping.
//!
//! A `ColorMap` binds one of the named palettes to a scalar range
//! `[min, max]` and turns any sample into a color: non-finite samples get
//! the palette's invalid-data color, a degenerate range falls back to the
//! first stop, and every other sample is normalized, clamped into the
//! range, and blended linearly between the two palette stops around it.
//!
//! Colors are linear-light RGB triples with eight-bit channels.

use vstd::prelude::*;
use vstd::arithmetic::div_mod::{lemma_div_multiples_vanish, lemma_mod_multiples_basic};

use crate::scalar::{Value, UNIT, div_trunc};
use crate::domain::clamp_int;

verus! {

/// A linear-light RGB color with eight-bit channels.
#[derive(Clone, Copy, PartialEq, Eq, Structural, Debug)]
pub struct Color {
    pub r: u8,
    pub g: u8,
    pub b: u8,
}

/// One channel blended from `a` (at `t == 0`) to `b` (at `t == UNIT`):
/// the convex combination in `UNIT` steps, rounded down.
pub open spec fn lerp_channel(a: int, b: int, t: int) -> int
    recommends
        0 <= t <= UNIT,
{
    (a * (UNIT - t) + b * t) / (UNIT as int)
}

/// Two colors blended channel by channel.
pub open spec fn color_lerp(a: Color, b: Color, t: int) -> Color
    recommends
        0 <= t <= UNIT,
{
    Color {
        r: lerp_channel(a.r as int, b.r as int, t) as u8,
        g: lerp_channel(a.g as int, b.g as int, t) as u8,
        b: lerp_channel(a.b as int, b.b as int, t) as u8,
    }
}

/// A channel blend of eight-bit channels stays within eight bits, and the
/// endpoints are exact.
pub proof fn lemma_lerp_channel_range(a: int, b: int, t: int)
    requires
        0 <= a <= 255,
        0 <= b <= 255,
        0 <= t <= UNIT,
    ensures
        0 <= lerp_channel(a, b, t) <= 255,
        t == 0 ==> lerp_channel(a, b, t) == a,
        t == UNIT ==> lerp_channel(a, b, t) == b,
{
    let u = UNIT as int;
    assert(0 <= (a * (u - t) + b * t) / u <= 255) by (nonlinear_arith)
        requires
            0 <= a <= 255,
            0 <= b <= 255,
            0 <= t <= u,
            u == UNIT,
    ;
    if t == 0 {
        assert(a * (u - t) + b * t == u * a) by (nonlinear_arith)
            requires
                t == 0,
        ;
        lemma_div_multiples_vanish(a, u);
    }
    if t == u {
        assert(a * (u - t) + b * t == u * b) by (nonlinear_arith)
            requires
                t == u,
        ;
        lemma_div_multiples_vanish(b, u);
    }
}

impl Color {
    /// Blends towards `other` by the fraction `t` of `UNIT`, channel by
    /// channel; exact at both endpoints.
    pub fn mix(self, other: Color, t: i64) -> (c: Color)
        requires
            0 <= t <= UNIT,
        ensures
            c == color_lerp(self, other, t as int),
    {
        proof {
            lemma_lerp_channel_range(self.r as int, other.r as int, t as int);
            lemma_lerp_channel_range(self.g as int, other.g as int, t as int);
            lemma_lerp_channel_range(self.b as int, other.b as int, t as int);
        }
        let tt = t as u64;
        let cr = (self.r as u64 * (65536 - tt) + other.r as u64 * tt) / 65536;
        let cg = (self.g as u64 * (65536 - tt) + other.g as u64 * tt) / 65536;
        let cb = (self.b as u64 * (65536 - tt) + other.b as u64 * tt) / 65536;
        Color { r: cr as u8, g: cg as u8, b: cb as u8 }
    }
}

/// The named palettes: a fixed, ordered sequence of stops, conceptually
/// evenly spaced over the normalized range, with an invalid-data color each.
#[derive(Clone, Copy)]
pub enum ColorScheme {
    Incandescent,
    Rainbow,
}

/// The eleven stops of the incandescent heat ramp.
pub open spec fn incandescent_stops() -> Seq<Color> {
    seq![
        Color { r: 206, g: 255, b: 255 },
        Color { r: 198, g: 247, b: 214 },
        Color { r: 162, g: 244, b: 155 },
        Color { r: 187, g: 228, b: 83 },
        Color { r: 213, g: 206, b: 4 },
        Color { r: 231, g: 181, b: 3 },
        Color { r: 241, g: 153, b: 3 },
        Color { r: 246, g: 121, b: 11 },
        Color { r: 249, g: 73, b: 2 },
        Color { r: 228, g: 5, b: 21 },
        Color { r: 168, g: 0, b: 3 },
    ]
}

/// The thirty-four stops of the full-spectrum ramp.
pub open spec fn rainbow_stops() -> Seq<Color> {
    seq![
        Color { r: 232, g: 236, b: 251 },
        Color { r: 221, g: 216, b: 239 },
        Color { r: 209, g: 193, b: 225 },
        Color { r: 195, g: 168, b: 209 },
        Color { r: 181, g: 143, b: 194 },
        Color { r: 167, g: 120, b: 180 },
        Color { r: 155, g: 98, b: 167 },
        Color { r: 140, g: 78, b: 153 },
        Color { r: 111, g: 76, b: 155 },
        Color { r: 96, g: 89, b: 169 },
        Color { r: 85, g: 104, b: 184 },
        Color { r: 78, g: 121, b: 197 },
        Color { r: 77, g: 138, b: 198 },
        Color { r: 78, g: 150, b: 188 },
        Color { r: 84, g: 158, b: 179 },
        Color { r: 89, g: 165, b: 169 },
        Color { r: 96, g: 171, b: 158 },
        Color { r: 105, g: 177, b: 144 },
        Color { r: 119, g: 183, b: 125 },
        Color { r: 140, g: 188, b: 104 },
        Color { r: 166, g: 190, b: 84 },
        Color { r: 190, g: 188, b: 72 },
        Color { r: 209, g: 181, b: 65 },
        Color { r: 221, g: 170, b: 60 },
        Color { r: 228, g: 156, b: 57 },
        Color { r: 231, g: 140, b: 53 },
        Color { r: 230, g: 121, b: 50 },
        Color { r: 228, g: 99, b: 45 },
        Color { r: 223, g: 72, b: 40 },
        Color { r: 218, g: 34, b: 34 },
        Color { r: 184, g: 34, b: 30 },
        Color { r: 149, g: 33, b: 27 },
        Color { r: 114, g: 30, b: 23 },
        Color { r: 82, g: 26, b: 19 },
    ]
}

/// The stops of a named palette.
pub open spec fn scheme_stops(scheme: ColorScheme) -> Seq<Color> {
    match scheme {
        ColorScheme::Incandescent => incandescent_stops(),
        ColorScheme::Rainbow => rainbow_stops(),
    }
}

/// The invalid-data color of a named palette.
pub open spec fn scheme_invalid_color(scheme: ColorScheme) -> Color {
    match scheme {
        ColorScheme::Incandescent => Color { r: 136, g: 136, b: 136 },
        ColorScheme::Rainbow => Color { r: 102, g: 102, b: 102 },
    }
}

/// A named palette's stops and invalid-data color.
fn get_color_scheme(color_scheme: ColorScheme) -> (r: (Vec<Color>, Color))
    ensures
        r.0@ == scheme_stops(color_scheme),
        r.1 == scheme_invalid_color(color_scheme),
{
    match color_scheme {
        ColorScheme::Incandescent => {
            let stops = vec![
                Color { r: 206, g: 255, b: 255 },
                Color { r: 198, g: 247, b: 214 },
                Color { r: 162, g: 244, b: 155 },
                Color { r: 187, g: 228, b: 83 },
                Color { r: 213, g: 206, b: 4 },
                Color { r: 231, g: 181, b: 3 },
                Color { r: 241, g: 153, b: 3 },
                Color { r: 246, g: 121, b: 11 },
                Color { r: 249, g: 73, b: 2 },
                Color { r: 228, g: 5, b: 21 },
                Color { r: 168, g: 0, b: 3 },
            ];
            proof {
                assert(stops@ =~= incandescent_stops());
            }
            (stops, Color { r: 136, g: 136, b: 136 })
        },
        ColorScheme::Rainbow => {
            let stops = vec![
                Color { r: 232, g: 236, b: 251 },
                Color { r: 221, g: 216, b: 239 },
                Color { r: 209, g: 193, b: 225 },
                Color { r: 195, g: 168, b: 209 },
                Color { r: 181, g: 143, b: 194 },
                Color { r: 167, g: 120, b: 180 },
                Color { r: 155, g: 98, b: 167 },
                Color { r: 140, g: 78, b: 153 },
                Color { r: 111, g: 76, b: 155 },
                Color { r: 96, g: 89, b: 169 },
                Color { r: 85, g: 104, b: 184 },
                Color { r: 78, g: 121, b: 197 },
                Color { r: 77, g: 138, b: 198 },
                Color { r: 78, g: 150, b: 188 },
                Color { r: 84, g: 158, b: 179 },
                Color { r: 89, g: 165, b: 169 },
                Color { r: 96, g: 171, b: 158 },
                Color { r: 105, g: 177, b: 144 },
                Color { r: 119, g: 183, b: 125 },
                Color { r: 140, g: 188, b: 104 },
                Color { r: 166, g: 190, b: 84 },
                Color { r: 190, g: 188, b: 72 },
                Color { r: 209, g: 181, b: 65 },
                Color { r: 221, g: 170, b: 60 },
                Color { r: 228, g: 156, b: 57 },
                Color { r: 231, g: 140, b: 53 },
                Color { r: 230, g: 121, b: 50 },
                Color { r: 228, g: 99, b: 45 },
                Color { r: 223, g: 72, b: 40 },
                Color { r: 218, g: 34, b: 34 },
                Color { r: 184, g: 34, b: 30 },
                Color { r: 149, g: 33, b: 27 },
                Color { r: 114, g: 30, b: 23 },
                Color { r: 82, g: 26, b: 19 },
            ];
            proof {
                assert(stops@ =~= rainbow_stops());
            }
            (stops, Color { r: 102, g: 102, b: 102 })
        },
    }
}

/// The normalized, clamped position of the sample mantissa `m` in the
/// range `[min, max]`, in `UNIT` steps.
pub open spec fn range_fraction(m: int, min: int, max: int) -> int
    recommends
        min < max,
{
    clamp_int(div_trunc((m - min) * UNIT, max - min), 0, UNIT as int)
}

/// The color of a sample under a palette and a range: non-finite samples
/// get the invalid-data color, a degenerate range gets the first stop, and
/// any other sample is normalized and blended between the two stops around
/// its continuous palette position.
pub open spec fn color_of(stops: Seq<Color>, invalid: Color, min: int, max: int, value: Value) -> Color
    recommends
        2 <= stops.len(),
        min <= max,
{
    if !value.spec_is_finite() {
        invalid
    } else if min == max {
        stops[0]
    } else {
        let t = range_fraction(value.m(), min, max);
        let sel = t * (stops.len() - 1);
        let lower = sel / (UNIT as int);
        let frac = sel % (UNIT as int);
        let upper = if lower + 1 < stops.len() - 1 {
            lower + 1
        } else {
            stops.len() - 1
        };
        color_lerp(stops[lower], stops[upper], frac)
    }
}

/// A palette bound to a scalar range.
pub struct ColorMap {
    min: i64,
    max: i64,
    colors: Vec<Color>,
    bad_data_color: Color,
}

impl ColorMap {
    /// The lower range bound.
    pub closed spec fn spec_min(self) -> int {
        self.min as int
    }

    /// The upper range bound.
    pub closed spec fn spec_max(self) -> int {
        self.max as int
    }

    /// The palette stops.
    pub closed spec fn stops(self) -> Seq<Color> {
        self.colors@
    }

    /// The invalid-data color.
    pub closed spec fn invalid_color(self) -> Color {
        self.bad_data_color
    }

    /// The range is ordered and the palette holds at least two stops, few
    /// enough for the index arithmetic.
    pub open spec fn wf(self) -> bool {
        &&& self.spec_min() <= self.spec_max()
        &&& 2 <= self.stops().len() <= 65536
    }

    /// Binds a named palette to the range `[min, max]`; `min == max` is the
    /// legal degenerate range.
    pub fn new(min: i64, max: i64, color_scheme: ColorScheme) -> (r: ColorMap)
        requires
            min <= max,
        ensures
            r.wf(),
            r.spec_min() == min,
            r.spec_max() == max,
            r.stops() == scheme_stops(color_scheme),
            r.invalid_color() == scheme_invalid_color(color_scheme),
    {
        let (colors, bad_color) = get_color_scheme(color_scheme);
        proof {
            assert(incandescent_stops().len() == 11);
            assert(rainbow_stops().len() == 34);
        }
        ColorMap { min, max, colors, bad_data_color: bad_color }
    }

    /// The color of one sample: the invalid-data color for a non-finite
    /// sample, the first stop for a degenerate range, and otherwise the
    /// blend of the two stops around the sample's clamped, normalized
    /// position in the range.
    pub fn get_color(&self, value: Value) -> (c: Color)
        requires
            self.wf(),
        ensures
            c == color_of(
                self.stops(),
                self.invalid_color(),
                self.spec_min(),
                self.spec_max(),
                value,
            ),
    {
        let m: i64 = match value {
            Value::Finite(m) => m,
            _ => {
                return self.bad_data_color;
            },
        };
        if self.min == self.max {
            return self.colors[0];
        }
        let num: i128 = (m as i128 - self.min as i128) * 65536;
        let den: i128 = self.max as i128 - self.min as i128;
        let q: i128 = if num >= 0 {
            let qp: u128 = num as u128 / den as u128;
            proof {
                assert(num as int / den as int <= num as int) by (nonlinear_arith)
                    requires
                        num as int >= 0,
                        den as int >= 1,
                ;
                assert(num as int / den as int >= 0) by (nonlinear_arith)
                    requires
                        num as int >= 0,
                        den as int >= 1,
                ;
            }
            qp as i128
        } else {
            let qp: u128 = (-num) as u128 / den as u128;
            proof {
                assert((-num as int) / den as int <= -num as int) by (nonlinear_arith)
                    requires
                        -num as int >= 0,
                        den as int >= 1,
                ;
                assert((-num as int) / den as int >= 0) by (nonlinear_arith)
                    requires
                        -num as int >= 0,
                        den as int >= 1,
                ;
            }
            -(qp as i128)
        };
        let t: i64 = if q < 0 {
            0
        } else if q > 65536 {
            65536
        } else {
            q as i64
        };
        let count = self.colors.len();
        proof {
            crate::scalar::lemma_bounded_mul(t as int, count as int - 1, 0x10000, 0x10000);
        }
        let sel: u64 = t as u64 * (count - 1) as u64;
        let lower: usize = (sel / 65536) as usize;
        let frac: i64 = (sel % 65536) as i64;
        proof {
            assert(sel as int / 65536 <= count - 1) by (nonlinear_arith)
                requires
                    sel as int == t as int * (count - 1),
                    0 <= t <= 65536,
                    count >= 2,
            ;
            assert(sel as int / 65536 >= 0) by (nonlinear_arith)
                requires
                    sel as int >= 0,
            ;
        }
        let upper: usize = if lower + 1 < count - 1 {
            lower + 1
        } else {
            count - 1
        };
        self.colors[lower].mix(self.colors[upper], frac)
    }
}

/// Clamping law, low side: with an ordered, non-degenerate range, every
/// finite sample at or below the range floor maps to the first stop.
pub proof fn lemma_color_clamps_low(stops: Seq<Color>, invalid: Color, min: int, max: int, m: i64)
    requires
        2 <= stops.len() <= 65536,
        min < max,
        m as int <= min,
    ensures
        color_of(stops, invalid, min, max, Value::Finite(m)) == stops[0],
{
    let u = UNIT as int;
    let num = (m as int - min) * u;
    assert(num <= 0) by (nonlinear_arith)
        requires
            m as int - min <= 0,
            u > 0,
            num == (m as int - min) * u,
    ;
    if num < 0 {
        assert((-num) / u >= 0) by (nonlinear_arith)
            requires
                -num >= 0,
                u > 0,
        ;
        assert(div_trunc(num, max - min) <= 0) by (nonlinear_arith)
            requires
                num < 0,
                max - min > 0,
        ;
    }
    let t = range_fraction(m as int, min, max);
    assert(t == 0);
    assert(0 * (stops.len() - 1) == 0) by (nonlinear_arith);
    let sel = t * (stops.len() - 1);
    let lower = sel / u;
    let frac = sel % u;
    assert(lower == 0 && frac == 0) by {
        lemma_div_multiples_vanish(0, u);
        lemma_mod_multiples_basic(0, u);
    }
    let upper = if lower + 1 < stops.len() - 1 {
        lower + 1
    } else {
        stops.len() - 1
    };
    lemma_lerp_channel_range(stops[0].r as int, stops[upper].r as int, 0);
    lemma_lerp_channel_range(stops[0].g as int, stops[upper].g as int, 0);
    lemma_lerp_channel_range(stops[0].b as int, stops[upper].b as int, 0);
}

/// Clamping law, high side: with an ordered, non-degenerate range, every
/// finite sample at or above the range ceiling maps to the last stop.
pub proof fn lemma_color_clamps_high(stops: Seq<Color>, invalid: Color, min: int, max: int, m: i64)
    requires
        2 <= stops.len() <= 65536,
        min < max,
        m as int >= max,
    ensures
        color_of(stops, invalid, min, max, Value::Finite(m)) == stops[stops.len() - 1],
{
    let u = UNIT as int;
    let d = max - min;
    let num = (m as int - min) * u;
    assert(num >= d * u) by (nonlinear_arith)
        requires
            m as int - min >= d,
            u > 0,
            num == (m as int - min) * u,
    ;
    assert(num / d >= (d * u) / d) by {
        vstd::arithmetic::div_mod::lemma_div_is_ordered(d * u, num, d);
    }
    assert((d * u) / d == u) by {
        lemma_div_multiples_vanish(u, d);
    }
    let t = range_fraction(m as int, min, max);
    assert(t == u);
    let n1 = stops.len() - 1;
    let sel = t * n1;
    assert(sel == u * n1) by (nonlinear_arith)
        requires
            t == u,
            sel == t * n1,
    ;
    let lower = sel / u;
    let frac = sel % u;
    assert(lower == n1) by {
        lemma_div_multiples_vanish(n1, u);
    }
    assert(frac == 0) by {
        lemma_mod_multiples_basic(n1, u);
        assert(n1 * u == u * n1) by (nonlinear_arith);
    }
    lemma_lerp_channel_range(stops[n1].r as int, stops[n1].r as int, 0);
    lemma_lerp_channel_range(stops[n1].g as int, stops[n1].g as int, 0);
    lemma_lerp_channel_range(stops[n1].b as int, stops[n1].b as int, 0);
}

/// Degenerate-range law: with `min == max`, every finite sample maps to
/// the first stop.
pub proof fn lemma_color_degenerate_range(
    stops: Seq<Color>,
    invalid: Color,
    min: int,
    value: Value,
)
    requires
        2 <= stops.len(),
        value is Finite,
    ensures
        color_of(stops, invalid, min, min, value) == stops[0],
{
}

/// Invalid-data law: every non-finite sample maps to the invalid-data
/// color, whatever the range.
pub proof fn lemma_color_invalid_input(
    stops: Seq<Color>,
    invalid: Color,
    min: int,
    max: int,
    value: Value,
)
    requires
        !(value is Finite),
    ensures
        color_of(stops, invalid, min, max, value) == invalid,
{
}

} // verus!
