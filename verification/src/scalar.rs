//! The scalar sample type.
//!
//! A `Value` is a fixed-point number (`Finite`, with `UNIT` mantissa steps
//! per unit) or one of the non-finite values: the two infinities and `Nan`,
//! the invalid-data marker. Arithmetic is total: finite overflow saturates
//! to the matching infinity, opposite infinities cancel to `Nan`, and `Nan`
//! absorbs everything. `Nan` is unordered with every value, itself included.

use vstd::prelude::*;

verus! {

/// Mantissa steps per world unit: `Finite(UNIT)` is the scalar one.
pub const UNIT: i64 = 65536;

/// Half of `UNIT`, the rounding offset for nearest sampling.
pub const HALF_UNIT: i64 = 32768;

#[derive(Clone, Copy, PartialEq, Eq, Structural, Debug)]
pub enum Value {
    NegInf,
    Finite(i64),
    PosInf,
    Nan,
}

impl Value {
    /// The additive zero, the initial content of every grid cell.
    pub open spec fn spec_zero() -> Value {
        Value::Finite(0)
    }

    pub open spec fn spec_is_finite(self) -> bool {
        self is Finite
    }

    /// The mantissa of a finite value.
    pub open spec fn m(self) -> int {
        self->Finite_0 as int
    }

    pub fn zero() -> (r: Value)
        ensures
            r == Value::spec_zero(),
    {
        Value::Finite(0)
    }

    pub fn is_finite(self) -> (r: bool)
        ensures
            r == self.spec_is_finite(),
    {
        match self {
            Value::Finite(_) => true,
            _ => false,
        }
    }

    pub fn add(self, b: Value) -> (r: Value)
        ensures
            r == add_v(self, b),
    {
        match (self, b) {
            (Value::Nan, _) => Value::Nan,
            (_, Value::Nan) => Value::Nan,
            (Value::PosInf, Value::NegInf) => Value::Nan,
            (Value::NegInf, Value::PosInf) => Value::Nan,
            (Value::PosInf, _) => Value::PosInf,
            (_, Value::PosInf) => Value::PosInf,
            (Value::NegInf, _) => Value::NegInf,
            (_, Value::NegInf) => Value::NegInf,
            (Value::Finite(x), Value::Finite(y)) => {
                let s: i128 = x as i128 + y as i128;
                if s > i64::MAX as i128 {
                    Value::PosInf
                } else if s < i64::MIN as i128 {
                    Value::NegInf
                } else {
                    Value::Finite(s as i64)
                }
            },
        }
    }

    /// Adds a finite mantissa to a value.
    pub fn add_scalar(self, w: i64) -> (r: Value)
        ensures
            r == add_fin(self, w as int),
    {
        self.add(Value::Finite(w))
    }

    pub fn lt(self, b: Value) -> (r: bool)
        ensures
            r == lt_v(self, b),
    {
        match (self, b) {
            (Value::Nan, _) => false,
            (_, Value::Nan) => false,
            (Value::NegInf, Value::NegInf) => false,
            (Value::NegInf, _) => true,
            (_, Value::NegInf) => false,
            (Value::PosInf, _) => false,
            (_, Value::PosInf) => true,
            (Value::Finite(x), Value::Finite(y)) => x < y,
        }
    }

    /// Interpolates from `self` to `b` by the fraction `t` of `UNIT`.
    pub fn lerp(self, b: Value, t: i64) -> (r: Value)
        requires
            0 <= t <= UNIT,
        ensures
            r == lerp_v(self, b, t as int),
    {
        if t == 0 {
            self
        } else if t == UNIT {
            b
        } else {
            match (self, b) {
                (Value::Finite(x), Value::Finite(y)) => {
                    proof {
                        lemma_bounded_mul(x as int, (UNIT - t) as int, 0x8000_0000_0000_0000, 0x10000);
                        lemma_bounded_mul(y as int, t as int, 0x8000_0000_0000_0000, 0x10000);
                    }
                    let n: i128 = x as i128 * (UNIT - t) as i128 + y as i128 * t as i128;
                    let q: i128 = if n >= 0 {
                        n / UNIT as i128
                    } else {
                        -((-n) / UNIT as i128)
                    };
                    proof {
                        lemma_lerp_mantissa_in_range(x as int, y as int, t as int);
                    }
                    Value::Finite(q as i64)
                },
                _ => Value::Nan,
            }
        }
    }
}

/// A sum of mantissas, saturated into the value range: finite overflow
/// becomes the matching infinity.
pub open spec fn sat(s: int) -> Value {
    if s > i64::MAX {
        Value::PosInf
    } else if s < i64::MIN {
        Value::NegInf
    } else {
        Value::Finite(s as i64)
    }
}

/// Total addition: `Nan` absorbs, opposite infinities cancel to `Nan`,
/// an infinity absorbs any finite value, finite sums saturate.
pub open spec fn add_v(a: Value, b: Value) -> Value {
    match (a, b) {
        (Value::Nan, _) => Value::Nan,
        (_, Value::Nan) => Value::Nan,
        (Value::PosInf, Value::NegInf) => Value::Nan,
        (Value::NegInf, Value::PosInf) => Value::Nan,
        (Value::PosInf, _) => Value::PosInf,
        (_, Value::PosInf) => Value::PosInf,
        (Value::NegInf, _) => Value::NegInf,
        (_, Value::NegInf) => Value::NegInf,
        (Value::Finite(x), Value::Finite(y)) => sat(x + y),
    }
}

/// Addition of a finite mantissa to a value; agrees with `add_v` on
/// `Finite(w)` whenever `w` is in range.
pub open spec fn add_fin(v: Value, w: int) -> Value {
    match v {
        Value::Nan => Value::Nan,
        Value::PosInf => Value::PosInf,
        Value::NegInf => Value::NegInf,
        Value::Finite(x) => sat(x + w),
    }
}

/// Strict order; false whenever either side is `Nan` (unordered).
pub open spec fn lt_v(a: Value, b: Value) -> bool {
    match (a, b) {
        (Value::Nan, _) => false,
        (_, Value::Nan) => false,
        (Value::NegInf, Value::NegInf) => false,
        (Value::NegInf, _) => true,
        (_, Value::NegInf) => false,
        (Value::PosInf, _) => false,
        (_, Value::PosInf) => true,
        (Value::Finite(x), Value::Finite(y)) => x < y,
    }
}

/// Truncating division for a positive divisor: rounds toward zero, so it is
/// antisymmetric in the numerator.
pub open spec fn div_trunc(n: int, d: int) -> int
    recommends
        d > 0,
{
    if n >= 0 {
        n / d
    } else {
        -((-n) / d)
    }
}

/// Linear interpolation from `a` (at `t == 0`) to `b` (at `t == UNIT`).
/// The endpoints are exact for every value; strictly inside, two finite
/// values blend convexly and any non-finite operand poisons the result.
pub open spec fn lerp_v(a: Value, b: Value, t: int) -> Value
    recommends
        0 <= t <= UNIT,
{
    if t == 0 {
        a
    } else if t == UNIT {
        b
    } else {
        match (a, b) {
            (Value::Finite(x), Value::Finite(y)) => Value::Finite(
                div_trunc(x * (UNIT - t) + y * t, UNIT as int) as i64,
            ),
            _ => Value::Nan,
        }
    }
}

/// A product of values bounded in magnitude is bounded by the product of
/// the magnitude bounds.
pub proof fn lemma_bounded_mul(a: int, b: int, a_cap: int, b_cap: int)
    requires
        -a_cap <= a <= a_cap,
        -b_cap <= b <= b_cap,
        0 <= a_cap,
        0 <= b_cap,
    ensures
        -(a_cap * b_cap) <= a * b <= a_cap * b_cap,
{
    assert(-(a_cap * b_cap) <= a * b <= a_cap * b_cap) by (nonlinear_arith)
        requires
            -a_cap <= a <= a_cap,
            -b_cap <= b <= b_cap,
            0 <= a_cap,
            0 <= b_cap,
    ;
}

/// The interpolant stays between its finite endpoints, so it fits the
/// mantissa range.
pub proof fn lemma_lerp_mantissa_in_range(x: int, y: int, t: int)
    requires
        i64::MIN <= x <= i64::MAX,
        i64::MIN <= y <= i64::MAX,
        0 <= t <= UNIT,
    ensures
        i64::MIN <= div_trunc(x * (UNIT - t) + y * t, UNIT as int) <= i64::MAX,
{
    let u = UNIT as int;
    let n = x * (u - t) + y * t;
    assert(i64::MIN * u <= n <= i64::MAX * u) by (nonlinear_arith)
        requires
            i64::MIN <= x <= i64::MAX,
            i64::MIN <= y <= i64::MAX,
            0 <= t <= u,
            u == UNIT,
            n == x * (u - t) + y * t,
    ;
    if n >= 0 {
        assert(n / u <= i64::MAX) by (nonlinear_arith)
            requires
                u > 0,
                0 <= n <= i64::MAX * u,
        ;
        assert(n / u >= 0) by (nonlinear_arith)
            requires
                u > 0,
                n >= 0,
        ;
    } else {
        assert((-n) / u <= -(i64::MIN as int)) by (nonlinear_arith)
            requires
                u > 0,
                0 <= -n <= -(i64::MIN as int) * u,
        ;
        assert((-n) / u >= 0) by (nonlinear_arith)
            requires
                u > 0,
                -n >= 0,
        ;
    }
}

} // verus!
