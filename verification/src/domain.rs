//! The 2D scalar field over the fixed world rectangle.
//!
//! The world is the square `[0, 64] x [0, 64]` in world units. A `Field`
//! covers it with a grid of `64 * 2^subdivisions` cells per side, each cell
//! holding one `Value`. World coordinates are fixed-point mantissas
//! (`UNIT` steps per world unit); grid coordinates are cell indices, and
//! `scale` cells cover one world unit along each axis.
//!
//! Sampling clamps grid coordinates into the grid, so no world position,
//! however far outside the rectangle, faults; the direct indexed accessors
//! `get` and `set` are the one unclamped path and demand valid indices.

use vstd::prelude::*;
use vstd::arithmetic::div_mod::lemma_fundamental_div_mod_converse;

use crate::scalar::{Value, UNIT, HALF_UNIT, lerp_v};

verus! {

/// Cells per world-unit side of the base (undivided) grid.
pub const BASE_RESOLUTION: usize = 64;

/// Width and height of the world rectangle, as a coordinate mantissa.
pub const WORLD_EXTENT: i64 = 4194304;

/// Two raised to a small power; the grid scale of a subdivision level.
pub open spec fn two_to(e: nat) -> nat
    decreases e,
{
    if e == 0 {
        1
    } else {
        2 * two_to((e - 1) as nat)
    }
}

pub proof fn lemma_two_to_monotone(a: nat, b: nat)
    requires
        a <= b,
    ensures
        two_to(a) <= two_to(b),
    decreases b,
{
    if a < b {
        lemma_two_to_monotone(a, (b - 1) as nat);
    }
}

pub proof fn lemma_two_to_9()
    ensures
        two_to(9) == 512,
{
    reveal_with_fuel(two_to, 10);
}

/// `v` forced into `[lo, hi]`.
pub open spec fn clamp_int(v: int, lo: int, hi: int) -> int
    recommends
        lo <= hi,
{
    if v < lo {
        lo
    } else if v > hi {
        hi
    } else {
        v
    }
}

/// The grid index nearest to the grid-space mantissa `g`, clamped into
/// `[0, n-1]`: round half away from zero, then clamp. Every negative `g`
/// rounds at or below zero, so it clamps to zero.
pub open spec fn nearest_axis(g: int, n: int) -> int
    recommends
        n >= 1,
{
    if g < 0 {
        0
    } else if (g + HALF_UNIT) / (UNIT as int) > n - 1 {
        n - 1
    } else {
        (g + HALF_UNIT) / (UNIT as int)
    }
}

/// Row-major cell index.
pub open spec fn cell_at(ix: int, iy: int, nx: int) -> int {
    iy * nx + ix
}

/// The bilinear blend of the four cells around the grid-space position
/// `(gx, gy)` (mantissas): floor and ceiling indices per axis, each clamped
/// into the grid, blended along x at both rows and then along y by the
/// fractional offsets within the cell.
pub open spec fn bilinear_spec(cells: Seq<Value>, nx: int, ny: int, gx: int, gy: int) -> Value
    recommends
        nx >= 1,
        ny >= 1,
        cells.len() == nx * ny,
{
    let u = UNIT as int;
    let x0 = clamp_int(gx / u, 0, nx - 1);
    let x1 = clamp_int(gx / u + 1, 0, nx - 1);
    let y0 = clamp_int(gy / u, 0, ny - 1);
    let y1 = clamp_int(gy / u + 1, 0, ny - 1);
    let tx = gx % u;
    let ty = gy % u;
    let row0 = lerp_v(cells[cell_at(x0, y0, nx)], cells[cell_at(x1, y0, nx)], tx);
    let row1 = lerp_v(cells[cell_at(x0, y1, nx)], cells[cell_at(x1, y1, nx)], tx);
    lerp_v(row0, row1, ty)
}

/// Largest world-coordinate mantissa magnitude the kernel arithmetic
/// carries without leaving the wide intermediate range.
pub const COORD_LIMIT: i64 = 0x8000_0000_0000;

/// Largest kernel radius mantissa the kernel arithmetic carries.
pub const RADIUS_LIMIT: i64 = 0x8000_0000;

/// Squared distance, in grid-space mantissas, from the center of the cell
/// `(ix, iy)` to the kernel center `(gcx, gcy)`.
pub open spec fn cell_dist2(ix: int, iy: int, gcx: int, gcy: int) -> int {
    (ix * UNIT - gcx) * (ix * UNIT - gcx) + (iy * UNIT - gcy) * (iy * UNIT - gcy)
}

/// A kernel write touches exactly the cells strictly inside its circle.
pub open spec fn kernel_touches(ix: int, iy: int, gcx: int, gcy: int, r2: int) -> bool {
    cell_dist2(ix, iy, gcx, gcy) < r2
}

/// The falloff-weighted contribution at squared distance `d2`: the full
/// `amount` at the center, fading linearly in `d2` to nothing at the
/// circle's edge. The fraction is carried in `UNIT` steps and the two
/// truncating divisions round towards zero, so the weight of `-amount` is
/// exactly the negated weight of `amount`.
pub open spec fn kernel_weight(amount: int, d2: int, r2: int) -> int
    recommends
        0 <= d2 < r2,
{
    let q = (r2 - d2) * (UNIT as int) / r2;
    if amount >= 0 {
        amount * q / (UNIT as int)
    } else {
        -((-amount) * q / (UNIT as int))
    }
}

/// The whole buffer after one kernel write: every touched cell gains its
/// weight, every other cell is untouched.
pub open spec fn kernel_apply(
    cells: Seq<Value>,
    nx: int,
    gcx: int,
    gcy: int,
    r2: int,
    amount: int,
) -> Seq<Value> {
    Seq::new(
        cells.len(),
        |i: int|
            {
                let ix = i % nx;
                let iy = i / nx;
                if kernel_touches(ix, iy, gcx, gcy, r2) {
                    crate::scalar::add_fin(
                        cells[i],
                        kernel_weight(amount, cell_dist2(ix, iy, gcx, gcy), r2),
                    )
                } else {
                    cells[i]
                }
            },
    )
}

/// The buffer mid-write: rows below `ylim` are done, and within row `ylim`
/// the columns below `xlim` are done.
pub open spec fn kernel_upto(
    cells: Seq<Value>,
    nx: int,
    gcx: int,
    gcy: int,
    r2: int,
    amount: int,
    ylim: int,
    xlim: int,
) -> Seq<Value> {
    Seq::new(
        cells.len(),
        |i: int|
            {
                let ix = i % nx;
                let iy = i / nx;
                if kernel_touches(ix, iy, gcx, gcy, r2) && (iy < ylim || (iy == ylim && ix
                    < xlim)) {
                    crate::scalar::add_fin(
                        cells[i],
                        kernel_weight(amount, cell_dist2(ix, iy, gcx, gcy), r2),
                    )
                } else {
                    cells[i]
                }
            },
    )
}

/// A cell on an axis strictly outside the kernel's grid-space bounding box
/// lies at least one cell width beyond the circle, so it is untouched.
proof fn lemma_outside_box_untouched(jx: int, jy: int, gcx: int, gcy: int, r: int, lo_fx: int, hi_fx: int, lo_fy: int, hi_fy: int)
    requires
        r >= 0,
        lo_fx == (gcx - r) / (UNIT as int),
        hi_fx == (gcx + r + UNIT - 1) / (UNIT as int),
        lo_fy == (gcy - r) / (UNIT as int),
        hi_fy == (gcy + r + UNIT - 1) / (UNIT as int),
        jx < lo_fx || jx > hi_fx || jy < lo_fy || jy > hi_fy,
    ensures
        !kernel_touches(jx, jy, gcx, gcy, r * r),
{
    let u = UNIT as int;
    vstd::arithmetic::div_mod::lemma_fundamental_div_mod(gcx - r, u);
    vstd::arithmetic::div_mod::lemma_fundamental_div_mod(gcx + r + u - 1, u);
    vstd::arithmetic::div_mod::lemma_fundamental_div_mod(gcy - r, u);
    vstd::arithmetic::div_mod::lemma_fundamental_div_mod(gcy + r + u - 1, u);
    let dx = jx * u - gcx;
    let dy = jy * u - gcy;
    assert(dx * dx >= 0) by (nonlinear_arith);
    assert(dy * dy >= 0) by (nonlinear_arith);
    if jx < lo_fx {
        assert(jx * u <= (lo_fx - 1) * u) by (nonlinear_arith)
            requires
                jx <= lo_fx - 1,
                u > 0,
        ;
        assert(lo_fx * u <= gcx - r);
        assert(dx <= -(r + u));
        assert(dx * dx > r * r) by (nonlinear_arith)
            requires
                dx <= -(r + u),
                r >= 0,
                u > 0,
        ;
    } else if jx > hi_fx {
        assert(jx * u >= (hi_fx + 1) * u) by (nonlinear_arith)
            requires
                jx >= hi_fx + 1,
                u > 0,
        ;
        assert(hi_fx * u >= gcx + r) by {
            assert((gcx + r + u - 1) % u < u);
        }
        assert(dx >= r + 1);
        assert(dx * dx > r * r) by (nonlinear_arith)
            requires
                dx >= r + 1,
                r >= 0,
        ;
    } else if jy < lo_fy {
        assert(jy * u <= (lo_fy - 1) * u) by (nonlinear_arith)
            requires
                jy <= lo_fy - 1,
                u > 0,
        ;
        assert(dy <= -(r + u));
        assert(dy * dy > r * r) by (nonlinear_arith)
            requires
                dy <= -(r + u),
                r >= 0,
                u > 0,
        ;
    } else {
        assert(jy * u >= (hi_fy + 1) * u) by (nonlinear_arith)
            requires
                jy >= hi_fy + 1,
                u > 0,
        ;
        assert(hi_fy * u >= gcy + r) by {
            assert((gcy + r + u - 1) % u < u);
        }
        assert(dy >= r + 1);
        assert(dy * dy > r * r) by (nonlinear_arith)
            requires
                dy >= r + 1,
                r >= 0,
        ;
    }
}

/// The falloff fraction and the weight it scales stay within their ranges.
pub proof fn lemma_kernel_weight_bounds(amount: int, d2: int, r2: int)
    requires
        0 <= d2 < r2,
        i64::MIN <= amount <= i64::MAX,
    ensures
        0 <= (r2 - d2) * (UNIT as int) / r2 <= UNIT,
        i64::MIN <= kernel_weight(amount, d2, r2) <= i64::MAX,
        amount >= 0 ==> 0 <= kernel_weight(amount, d2, r2) <= amount,
        amount < 0 ==> amount <= kernel_weight(amount, d2, r2) <= 0,
{
    let u = UNIT as int;
    let q = (r2 - d2) * u / r2;
    assert(0 <= q <= u) by (nonlinear_arith)
        requires
            0 <= d2 < r2,
            u > 0,
            q == (r2 - d2) * u / r2,
    ;
    if amount >= 0 {
        assert(0 <= amount * q / u <= amount) by (nonlinear_arith)
            requires
                amount >= 0,
                0 <= q <= u,
                u > 0,
        ;
    } else {
        assert(0 <= (-amount) * q / u <= -amount) by (nonlinear_arith)
            requires
                -amount > 0,
                0 <= q <= u,
                u > 0,
        ;
    }
}

/// Sampling round-trip law: the bilinear blend taken exactly at a grid
/// cell's center (the grid-space mantissa of the cell index) is exactly
/// that cell's stored value, whatever the buffer holds — the interpolation
/// weight is one at the known point.
pub proof fn lemma_bilinear_at_cell_center(cells: Seq<Value>, nx: int, ny: int, ix: int, iy: int)
    requires
        nx >= 1,
        ny >= 1,
        cells.len() == nx * ny,
        0 <= ix < nx,
        0 <= iy < ny,
    ensures
        bilinear_spec(cells, nx, ny, ix * UNIT, iy * UNIT) == cells[cell_at(ix, iy, nx)],
{
    let u = UNIT as int;
    lemma_fundamental_div_mod_converse(ix * u, u, ix, 0);
    lemma_fundamental_div_mod_converse(iy * u, u, iy, 0);
}

/// Sampling bounds law: every world position, however far outside the
/// rectangle, names a cell index inside the grid, on both the nearest and
/// the clamped bilinear paths.
pub proof fn lemma_sample_index_in_bounds(g: int, n: int)
    requires
        n >= 1,
    ensures
        0 <= nearest_axis(g, n) < n,
        0 <= clamp_int(g / (UNIT as int), 0, n - 1) < n,
        0 <= clamp_int(g / (UNIT as int) + 1, 0, n - 1) < n,
{
    if g >= 0 {
        assert((g + HALF_UNIT) / (UNIT as int) >= 0) by (nonlinear_arith)
            requires
                g >= 0,
        ;
    }
}

/// The falloff weight of the negated amount is exactly the negated weight:
/// both divisions round towards zero on the magnitude, and the sign is
/// applied afterwards.
pub proof fn lemma_kernel_weight_antisymmetric(amount: int, d2: int, r2: int)
    requires
        0 <= d2 < r2,
    ensures
        kernel_weight(-amount, d2, r2) == -kernel_weight(amount, d2, r2),
{
    let u = UNIT as int;
    let q = (r2 - d2) * u / r2;
    if amount > 0 {
        assert(kernel_weight(amount, d2, r2) == amount * q / u);
        assert(kernel_weight(-amount, d2, r2) == -(amount * q / u));
    } else if amount < 0 {
        assert(kernel_weight(amount, d2, r2) == -((-amount) * q / u));
        assert(kernel_weight(-amount, d2, r2) == (-amount) * q / u);
    } else {
        assert(0 * q == 0);
        assert(kernel_weight(0, d2, r2) == 0 * q / u);
    }
}

/// Kernel inverse law: a kernel write followed by the write of the negated
/// amount at the same center and radius restores every cell exactly,
/// provided no touched finite cell overflows the mantissa range on the
/// first write. Non-finite cells are restored too: the infinities and the
/// invalid marker absorb both writes.
pub proof fn lemma_kernel_inverse(
    cells: Seq<Value>,
    nx: int,
    gcx: int,
    gcy: int,
    r2: int,
    amount: int,
)
    requires
        0 < r2,
        forall|i: int|
            0 <= i < cells.len() && kernel_touches(i % nx, i / nx, gcx, gcy, r2)
                && (#[trigger] cells[i]) is Finite ==> i64::MIN <= cells[i].m() + kernel_weight(
                amount,
                cell_dist2(i % nx, i / nx, gcx, gcy),
                r2,
            ) <= i64::MAX,
    ensures
        kernel_apply(kernel_apply(cells, nx, gcx, gcy, r2, amount), nx, gcx, gcy, r2, -amount)
            == cells,
{
    let once = kernel_apply(cells, nx, gcx, gcy, r2, amount);
    let twice = kernel_apply(once, nx, gcx, gcy, r2, -amount);
    assert forall|i: int| 0 <= i < cells.len() implies twice[i] == cells[i] by {
        let ix = i % nx;
        let iy = i / nx;
        if kernel_touches(ix, iy, gcx, gcy, r2) {
            let d2 = cell_dist2(ix, iy, gcx, gcy);
            assert((ix * UNIT - gcx) * (ix * UNIT - gcx) >= 0) by (nonlinear_arith);
            assert((iy * UNIT - gcy) * (iy * UNIT - gcy) >= 0) by (nonlinear_arith);
            lemma_kernel_weight_antisymmetric(amount, d2, r2);
        }
    }
    assert(twice =~= cells);
}

/// The running minimum of a buffer: starts at the greatest finite value
/// and takes each cell that compares strictly below it. A cell unordered
/// with the accumulator (`Nan`) never compares below and is skipped.
pub open spec fn min_fold(s: Seq<Value>) -> Value
    decreases s.len(),
{
    if s.len() == 0 {
        Value::Finite(i64::MAX)
    } else {
        let prev = min_fold(s.drop_last());
        if crate::scalar::lt_v(s.last(), prev) {
            s.last()
        } else {
            prev
        }
    }
}

/// The running maximum of a buffer: starts at the least finite value and
/// takes each cell that compares strictly above it; `Nan` cells are skipped.
pub open spec fn max_fold(s: Seq<Value>) -> Value
    decreases s.len(),
{
    if s.len() == 0 {
        Value::Finite(i64::MIN)
    } else {
        let prev = max_fold(s.drop_last());
        if crate::scalar::lt_v(prev, s.last()) {
            s.last()
        } else {
            prev
        }
    }
}

/// A buffer whose cells are all either `Nan` or one finite value, with the
/// finite value present at least once, reduces to that value on both ends:
/// the unordered cells are skipped, not poisonous.
pub proof fn lemma_min_max_skip_unordered(s: Seq<Value>, m: i64)
    requires
        forall|i: int| 0 <= i < s.len() ==> s[i] == Value::Nan || s[i] == Value::Finite(m),
        exists|i: int| 0 <= i < s.len() && s[i] == Value::Finite(m),
    ensures
        min_fold(s) == Value::Finite(m),
        max_fold(s) == Value::Finite(m),
    decreases s.len(),
{
    let prefix = s.drop_last();
    if s.last() == Value::Finite(m) {
        if exists|i: int| 0 <= i < prefix.len() && prefix[i] == Value::Finite(m) {
            lemma_min_max_skip_unordered(prefix, m);
        } else {
            lemma_min_max_all_unordered(prefix);
        }
    } else {
        let w = choose|i: int| 0 <= i < s.len() && s[i] == Value::Finite(m);
        assert(prefix[w] == Value::Finite(m));
        lemma_min_max_skip_unordered(prefix, m);
    }
}

/// A buffer of `Nan` cells alone leaves both accumulators at their bounds.
pub proof fn lemma_min_max_all_unordered(s: Seq<Value>)
    requires
        forall|i: int| 0 <= i < s.len() ==> s[i] == Value::Nan,
    ensures
        min_fold(s) == Value::Finite(i64::MAX),
        max_fold(s) == Value::Finite(i64::MIN),
    decreases s.len(),
{
    if s.len() > 0 {
        lemma_min_max_all_unordered(s.drop_last());
    }
}

/// A grid of scalar samples over the world rectangle.
pub struct Field {
    buffer: Vec<Value>,
    size_x: usize,
    size_y: usize,
    scale: usize,
}

impl Field {
    /// Grid cells along the x axis.
    pub closed spec fn nx(self) -> int {
        self.size_x as int
    }

    /// Grid cells along the y axis.
    pub closed spec fn ny(self) -> int {
        self.size_y as int
    }

    /// Grid cells per world unit.
    pub closed spec fn scale_of(self) -> int {
        self.scale as int
    }

    /// The row-major cell contents.
    pub closed spec fn cells(self) -> Seq<Value> {
        self.buffer@
    }

    /// The grid shape is consistent: a square of `64 * scale` cells per
    /// side over the fixed world rectangle, with one buffered value per
    /// cell, at a scale the coordinate arithmetic can carry.
    pub open spec fn wf(self) -> bool {
        &&& 1 <= self.scale_of() <= 512
        &&& self.nx() == BASE_RESOLUTION * self.scale_of()
        &&& self.ny() == BASE_RESOLUTION * self.scale_of()
        &&& self.cells().len() == self.nx() * self.ny()
    }

    /// A valid pair of clamped axis indices names a cell inside the buffer.
    proof fn lemma_cell_in_bounds(self, ix: int, iy: int)
        requires
            self.wf(),
            0 <= ix < self.nx(),
            0 <= iy < self.ny(),
        ensures
            0 <= cell_at(ix, iy, self.nx()) < self.cells().len(),
    {
        assert(0 <= iy * self.nx() + ix < self.nx() * self.ny()) by (nonlinear_arith)
            requires
                0 <= ix < self.nx(),
                0 <= iy < self.ny(),
        ;
    }

    /// Allocates the zero-filled grid of a subdivision level: `2^s` cells
    /// per world unit, `64 * 2^s` cells per side.
    pub fn new(subdivisions: u32) -> (r: Field)
        requires
            subdivisions <= 9,
        ensures
            r.wf(),
            r.scale_of() == two_to(subdivisions as nat),
            r.cells() == Seq::new((r.nx() * r.ny()) as nat, |i: int| Value::spec_zero()),
    {
        let mut scale: usize = 1;
        let mut i: u32 = 0;
        while i < subdivisions
            invariant
                i <= subdivisions <= 9,
                scale == two_to(i as nat),
            decreases subdivisions - i,
        {
            proof {
                lemma_two_to_monotone(i as nat + 1, 9);
                lemma_two_to_9();
            }
            scale = scale * 2;
            i = i + 1;
        }
        proof {
            lemma_two_to_monotone(0, subdivisions as nat);
            lemma_two_to_monotone(subdivisions as nat, 9);
            lemma_two_to_9();
        }
        let size_x: usize = BASE_RESOLUTION * scale;
        let size_y: usize = BASE_RESOLUTION * scale;
        proof {
            crate::scalar::lemma_bounded_mul(size_x as int, size_y as int, 0x8000, 0x8000);
        }
        let len: usize = size_x * size_y;
        let mut buffer: Vec<Value> = Vec::new();
        let mut j: usize = 0;
        while j < len
            invariant
                j <= len,
                buffer@ == Seq::new(j as nat, |i: int| Value::spec_zero()),
            decreases len - j,
        {
            buffer.push(Value::zero());
            proof {
                assert(buffer@ =~= Seq::new((j + 1) as nat, |i: int| Value::spec_zero()));
            }
            j = j + 1;
        }
        Field { buffer, size_x, size_y, scale }
    }

    /// Grid cells along each axis.
    pub fn size(&self) -> (r: (usize, usize))
        ensures
            r.0 == self.nx(),
            r.1 == self.ny(),
    {
        (self.size_x, self.size_y)
    }

    /// Grid cells per world unit.
    pub fn idx_scale(&self) -> (r: usize)
        ensures
            r == self.scale_of(),
    {
        self.scale
    }

    /// Unclamped indexed read; the caller owes valid indices.
    pub fn get(&self, x: usize, y: usize) -> (r: Value)
        requires
            self.wf(),
            x < self.nx(),
            y < self.ny(),
        ensures
            r == self.cells()[cell_at(x as int, y as int, self.nx())],
    {
        proof {
            self.lemma_cell_in_bounds(x as int, y as int);
        }
        // Binds the buffer length as a machine word, which bounds the
        // index arithmetic below it.
        let _len: usize = self.buffer.len();
        self.buffer[y * self.size_x + x]
    }

    /// Unclamped indexed write; the caller owes valid indices.
    pub fn set(&mut self, x: usize, y: usize, v: Value)
        requires
            old(self).wf(),
            x < old(self).nx(),
            y < old(self).ny(),
        ensures
            final(self).wf(),
            final(self).nx() == old(self).nx(),
            final(self).ny() == old(self).ny(),
            final(self).scale_of() == old(self).scale_of(),
            final(self).cells() == old(self).cells().update(
                cell_at(x as int, y as int, old(self).nx()),
                v,
            ),
    {
        proof {
            self.lemma_cell_in_bounds(x as int, y as int);
        }
        let _len: usize = self.buffer.len();
        let i: usize = y * self.size_x + x;
        self.buffer.set(i, v);
    }

    /// The cell nearest to the world position `(px, py)` (coordinate
    /// mantissas): scaled into grid space, rounded to the nearest index and
    /// clamped into the grid, along each axis. No position faults.
    pub fn get_nearest(&self, px: i64, py: i64) -> (r: Value)
        requires
            self.wf(),
        ensures
            r == self.cells()[cell_at(
                nearest_axis(px * self.scale_of(), self.nx()),
                nearest_axis(py * self.scale_of(), self.ny()),
                self.nx(),
            )],
    {
        let ix = self.nearest_index(px, self.size_x);
        let iy = self.nearest_index(py, self.size_y);
        proof {
            self.lemma_cell_in_bounds(ix as int, iy as int);
        }
        let _len: usize = self.buffer.len();
        self.buffer[iy * self.size_x + ix]
    }

    /// The bilinear blend of the four cells around the world position
    /// `(px, py)` (coordinate mantissas). At and beyond the grid edge the
    /// clamped corner indices coincide and the blend degenerates to the
    /// edge cell. No position faults.
    pub fn get_bilinear(&self, px: i64, py: i64) -> (r: Value)
        requires
            self.wf(),
        ensures
            r == bilinear_spec(
                self.cells(),
                self.nx(),
                self.ny(),
                px * self.scale_of(),
                py * self.scale_of(),
            ),
    {
        proof {
            lemma_bounded_mul_i64_scale(px as int, self.scale_of());
            lemma_bounded_mul_i64_scale(py as int, self.scale_of());
        }
        let gx: i128 = px as i128 * self.scale as i128;
        let gy: i128 = py as i128 * self.scale as i128;
        let (qx, tx) = floor_frac(gx);
        let (qy, ty) = floor_frac(gy);
        let x0 = clamp_index(qx, self.size_x);
        let x1 = clamp_index(qx + 1, self.size_x);
        let y0 = clamp_index(qy, self.size_y);
        let y1 = clamp_index(qy + 1, self.size_y);
        proof {
            self.lemma_cell_in_bounds(x0 as int, y0 as int);
            self.lemma_cell_in_bounds(x1 as int, y0 as int);
            self.lemma_cell_in_bounds(x0 as int, y1 as int);
            self.lemma_cell_in_bounds(x1 as int, y1 as int);
        }
        let _len: usize = self.buffer.len();
        let c00 = self.buffer[y0 * self.size_x + x0];
        let c10 = self.buffer[y0 * self.size_x + x1];
        let c01 = self.buffer[y1 * self.size_x + x0];
        let c11 = self.buffer[y1 * self.size_x + x1];
        let row0 = c00.lerp(c10, tx);
        let row1 = c01.lerp(c11, tx);
        row0.lerp(row1, ty)
    }

    /// Reduces the whole buffer to its least and greatest ordered cells.
    /// The accumulators start at the finite bounds, so a buffer with no
    /// ordered cell at all returns those bounds unchanged.
    pub fn compute_min_max(&self) -> (r: (Value, Value))
        requires
            self.wf(),
        ensures
            r.0 == min_fold(self.cells()),
            r.1 == max_fold(self.cells()),
    {
        let mut lo = Value::Finite(i64::MAX);
        let mut hi = Value::Finite(i64::MIN);
        let len = self.buffer.len();
        let mut j: usize = 0;
        while j < len
            invariant
                j <= len,
                len == self.cells().len(),
                lo == min_fold(self.cells().take(j as int)),
                hi == max_fold(self.cells().take(j as int)),
            decreases len - j,
        {
            let c = self.buffer[j];
            proof {
                let t = self.cells().take(j as int + 1);
                assert(t.drop_last() =~= self.cells().take(j as int));
                assert(t.last() == self.cells()[j as int]);
            }
            if c.lt(lo) {
                lo = c;
            }
            if hi.lt(c) {
                hi = c;
            }
            j = j + 1;
        }
        proof {
            assert(self.cells().take(len as int) =~= self.cells());
        }
        (lo, hi)
    }

    /// Adds a falloff-weighted contribution of `amount` to every cell whose
    /// center lies strictly within `radius` (a world-unit mantissa) of the
    /// world position `(cx, cy)`: the full `amount` at the center, fading
    /// linearly in squared distance to nothing at the circle's edge. Cells
    /// outside the circle are untouched — a zero radius touches nothing —
    /// and a kernel centered outside the grid touches only the cells of the
    /// circle that the grid holds.
    pub fn add_kernel(&mut self, cx: i64, cy: i64, radius: i64, amount: i64)
        requires
            old(self).wf(),
            -COORD_LIMIT <= cx <= COORD_LIMIT,
            -COORD_LIMIT <= cy <= COORD_LIMIT,
            0 <= radius <= RADIUS_LIMIT,
        ensures
            final(self).wf(),
            final(self).nx() == old(self).nx(),
            final(self).ny() == old(self).ny(),
            final(self).scale_of() == old(self).scale_of(),
            final(self).cells() == kernel_apply(
                old(self).cells(),
                old(self).nx(),
                cx * old(self).scale_of(),
                cy * old(self).scale_of(),
                (radius * old(self).scale_of()) * (radius * old(self).scale_of()),
                amount as int,
            ),
    {
        let ghost cells0 = old(self).cells();
        let ghost nxg = old(self).nx();
        proof {
            crate::scalar::lemma_bounded_mul(cx as int, self.scale_of(), COORD_LIMIT as int, 512);
            crate::scalar::lemma_bounded_mul(cy as int, self.scale_of(), COORD_LIMIT as int, 512);
            crate::scalar::lemma_bounded_mul(
                radius as int,
                self.scale_of(),
                RADIUS_LIMIT as int,
                512,
            );
        }
        let scale_w: i128 = self.scale as i128;
        let gcx: i128 = cx as i128 * scale_w;
        let gcy: i128 = cy as i128 * scale_w;
        let r: i128 = radius as i128 * scale_w;
        proof {
            crate::scalar::lemma_bounded_mul(
                r as int,
                r as int,
                0x200_0000_0000,
                0x200_0000_0000,
            );
        }
        proof {
            let sc = old(self).scale_of();
            assert(radius as int * sc >= 0) by (nonlinear_arith)
                requires
                    radius as int >= 0,
                    sc >= 1,
            ;
            assert(r as int * r as int >= 0) by (nonlinear_arith)
                requires
                    r as int >= 0,
            ;
        }
        let r2: i128 = r * r;
        let (lo_fx, _tx) = floor_frac(gcx - r);
        let (hi_fx, _hx) = floor_frac(gcx + r + 65535);
        let (lo_fy, _ty) = floor_frac(gcy - r);
        let (hi_fy, _hy) = floor_frac(gcy + r + 65535);
        let xlo = clamp_index(lo_fx, self.size_x);
        let xhi = clamp_index(hi_fx, self.size_x);
        let ylo = clamp_index(lo_fy, self.size_y);
        let yhi = clamp_index(hi_fy, self.size_y);
        let ghost gcxg = gcx as int;
        let ghost gcyg = gcy as int;
        let ghost r2g = r2 as int;
        let ghost am = amount as int;
        proof {
            assert forall|jx: int, jy: int|
                0 <= jx < nxg && 0 <= jy < old(self).ny() && !(xlo <= jx <= xhi && ylo <= jy
                    <= yhi) implies !kernel_touches(jx, jy, gcxg, gcyg, r2g) by {
                if jx < lo_fx as int || jx > hi_fx as int || jy < lo_fy as int || jy > hi_fy as int {
                    lemma_outside_box_untouched(
                        jx,
                        jy,
                        gcxg,
                        gcyg,
                        r as int,
                        lo_fx as int,
                        hi_fx as int,
                        lo_fy as int,
                        hi_fy as int,
                    );
                }
            }
        }
        let mut iy: usize = ylo;
        while iy <= yhi
            invariant
                self.wf(),
                self.nx() == nxg,
                self.ny() == old(self).ny(),
                self.scale_of() == old(self).scale_of(),
                cells0.len() == self.cells().len(),
                ylo <= iy <= yhi + 1,
                yhi < self.ny(),
                xlo <= xhi < nxg,
                forall|jx: int, jy: int|
                    0 <= jx < nxg && 0 <= jy < self.ny() && !(xlo <= jx <= xhi && ylo <= jy
                        <= yhi) ==> !kernel_touches(jx, jy, gcxg, gcyg, r2g),
                self.cells() == kernel_upto(cells0, nxg, gcxg, gcyg, r2g, am, iy as int, 0),
                -0x4000_0000_0000_0000 <= gcxg <= 0x4000_0000_0000_0000,
                -0x4000_0000_0000_0000 <= gcyg <= 0x4000_0000_0000_0000,
                0 <= r2g <= 0x4_0000_0000_0000_0000_0000,
                r2 == r2g,
                gcx == gcxg,
                gcy == gcyg,
                am == amount as int,
            decreases yhi + 1 - iy,
        {
            let mut ix: usize = xlo;
            proof {
                let sa = kernel_upto(cells0, nxg, gcxg, gcyg, r2g, am, iy as int, xlo as int);
                let sb = kernel_upto(cells0, nxg, gcxg, gcyg, r2g, am, iy as int, 0);
                assert forall|i: int| 0 <= i < cells0.len() implies sa[i] == sb[i] by {
                    lemma_row_major_bounds(i, nxg, self.ny());
                    assert(kernel_touches(i % nxg, i / nxg, gcxg, gcyg, r2g)
                        || !kernel_touches(i % nxg, i / nxg, gcxg, gcyg, r2g));
                }
                assert(sa =~= sb);
            }
            while ix <= xhi
                invariant
                    self.wf(),
                    self.nx() == nxg,
                    self.ny() == old(self).ny(),
                    self.scale_of() == old(self).scale_of(),
                    cells0.len() == self.cells().len(),
                    ylo <= iy <= yhi,
                    yhi < self.ny(),
                    xlo <= ix <= xhi + 1,
                    xlo <= xhi < nxg,
                    self.cells() == kernel_upto(
                        cells0,
                        nxg,
                        gcxg,
                        gcyg,
                        r2g,
                        am,
                        iy as int,
                        ix as int,
                    ),
                    -0x4000_0000_0000_0000 <= gcxg <= 0x4000_0000_0000_0000,
                    -0x4000_0000_0000_0000 <= gcyg <= 0x4000_0000_0000_0000,
                    0 <= r2g <= 0x4_0000_0000_0000_0000_0000,
                    r2 == r2g,
                    gcx == gcxg,
                    gcy == gcyg,
                    am == amount as int,
                decreases xhi + 1 - ix,
            {
                let dx: i128 = ix as i128 * 65536 - gcx;
                let dy: i128 = iy as i128 * 65536 - gcy;
                proof {
                    crate::scalar::lemma_bounded_mul(
                        dx as int,
                        dx as int,
                        0x5000_0000_0000_0000,
                        0x5000_0000_0000_0000,
                    );
                    crate::scalar::lemma_bounded_mul(
                        dy as int,
                        dy as int,
                        0x5000_0000_0000_0000,
                        0x5000_0000_0000_0000,
                    );
                    assert(dx as int * dx as int >= 0) by (nonlinear_arith);
                    assert(dy as int * dy as int >= 0) by (nonlinear_arith);
                }
                let d2: i128 = dx * dx + dy * dy;
                let ghost i0 = iy as int * nxg + ix as int;
                proof {
                    self.lemma_cell_in_bounds(ix as int, iy as int);
                    vstd::arithmetic::div_mod::lemma_fundamental_div_mod_converse(
                        i0,
                        nxg,
                        iy as int,
                        ix as int,
                    );
                }
                if d2 < r2 {
                    let w = kernel_weight_exec(amount, d2, r2);
                    proof {
                        self.lemma_cell_in_bounds(ix as int, iy as int);
                    }
                    let _len: usize = self.buffer.len();
                    let i: usize = iy * self.size_x + ix;
                    let cur = self.buffer[i];
                    let nv = cur.add_scalar(w);
                    self.buffer.set(i, nv);
                }
                proof {
                    let sb = kernel_upto(cells0, nxg, gcxg, gcyg, r2g, am, iy as int, ix as int + 1);
                    assert forall|i: int| 0 <= i < cells0.len() implies self.cells()[i] == sb[i] by {
                        lemma_row_major_bounds(i, nxg, self.ny());
                        if i != i0 {
                            vstd::arithmetic::div_mod::lemma_fundamental_div_mod(i, nxg);
                            assert(!(i % nxg == ix as int && i / nxg == iy as int)) by (nonlinear_arith)
                                requires
                                    i != i0,
                                    i0 == iy as int * nxg + ix as int,
                                    i == nxg * (i / nxg) + i % nxg,
                            ;
                        }
                    }
                    assert(self.cells() =~= sb);
                }
                ix = ix + 1;
            }
            proof {
                let sa = kernel_upto(cells0, nxg, gcxg, gcyg, r2g, am, iy as int, xhi as int + 1);
                let sb = kernel_upto(cells0, nxg, gcxg, gcyg, r2g, am, iy as int + 1, 0);
                assert forall|i: int| 0 <= i < cells0.len() implies sa[i] == sb[i] by {
                    lemma_row_major_bounds(i, nxg, self.ny());
                    assert(kernel_touches(i % nxg, i / nxg, gcxg, gcyg, r2g)
                        || !kernel_touches(i % nxg, i / nxg, gcxg, gcyg, r2g));
                }
                assert(sa =~= sb);
            }
            iy = iy + 1;
        }
        proof {
            let sb = kernel_apply(cells0, nxg, gcxg, gcyg, r2g, am);
            assert forall|i: int| 0 <= i < cells0.len() implies self.cells()[i] == sb[i] by {
                lemma_row_major_bounds(i, nxg, self.ny());
                assert(kernel_touches(i % nxg, i / nxg, gcxg, gcyg, r2g)
                    || !kernel_touches(i % nxg, i / nxg, gcxg, gcyg, r2g));
            }
            assert(self.cells() =~= sb);
        }
    }

    /// One axis of nearest sampling.
    fn nearest_index(&self, p: i64, n: usize) -> (r: usize)
        requires
            self.wf(),
            n >= 1,
        ensures
            r == nearest_axis(p * self.scale_of(), n as int),
    {
        proof {
            lemma_bounded_mul_i64_scale(p as int, self.scale_of());
        }
        let g: i128 = p as i128 * self.scale as i128;
        if g < 0 {
            0
        } else {
            let q: u128 = (g as u128 + HALF_UNIT as u128) / UNIT as u128;
            if q > (n - 1) as u128 {
                n - 1
            } else {
                q as usize
            }
        }
    }
}

/// A row-major index inside the buffer decomposes into axis indices inside
/// the grid.
proof fn lemma_row_major_bounds(i: int, nx: int, ny: int)
    requires
        nx >= 1,
        ny >= 1,
        0 <= i < nx * ny,
    ensures
        0 <= i % nx < nx,
        0 <= i / nx < ny,
{
    vstd::arithmetic::div_mod::lemma_fundamental_div_mod(i, nx);
    assert(0 <= i % nx < nx);
    assert(i / nx < ny) by (nonlinear_arith)
        requires
            nx >= 1,
            ny >= 1,
            0 <= i < nx * ny,
            i == nx * (i / nx) + i % nx,
            0 <= i % nx < nx,
    ;
    assert(i / nx >= 0) by (nonlinear_arith)
        requires
            nx >= 1,
            i >= 0,
            i == nx * (i / nx) + i % nx,
            0 <= i % nx < nx,
    ;
}

/// One cell's kernel weight; `q` carries the falloff fraction in `UNIT`
/// steps and the sign of `amount` is applied after the magnitude divide, so
/// opposite amounts give exactly opposite weights.
fn kernel_weight_exec(amount: i64, d2: i128, r2: i128) -> (w: i64)
    requires
        0 <= d2 < r2,
        r2 <= 0x4_0000_0000_0000_0000_0000,
    ensures
        w == kernel_weight(amount as int, d2 as int, r2 as int),
{
    proof {
        lemma_kernel_weight_bounds(amount as int, d2 as int, r2 as int);
    }
    let q: u128 = ((r2 - d2) as u128 * 65536) / (r2 as u128);
    let am: i128 = amount as i128;
    if am >= 0 {
        proof {
            crate::scalar::lemma_bounded_mul(am as int, q as int, 0x8000_0000_0000_0000, 0x10000);
        }
        let wq: u128 = (am as u128 * q) / 65536;
        wq as i64
    } else {
        proof {
            crate::scalar::lemma_bounded_mul(-am as int, q as int, 0x8000_0000_0000_0000, 0x10000);
        }
        let mag: u128 = ((-am) as u128 * q) / 65536;
        let wi: i128 = -(mag as i128);
        wi as i64
    }
}

/// An unclamped cell index forced into the grid range `[0, n-1]`.
fn clamp_index(q: i128, n: usize) -> (r: usize)
    requires
        n >= 1,
    ensures
        r == clamp_int(q as int, 0, n as int - 1),
{
    if q < 0 {
        0
    } else if q > (n - 1) as i128 {
        n - 1
    } else {
        q as usize
    }
}

/// Splits a grid-space mantissa into its floor cell index and the
/// fractional offset within the cell.
fn floor_frac(g: i128) -> (r: (i128, i64))
    requires
        -0x1_0000_0000_0000_0000_0000 <= g <= 0x1_0000_0000_0000_0000_0000,
    ensures
        r.0 == g as int / (UNIT as int),
        r.1 == g as int % (UNIT as int),
        0 <= r.1 < UNIT,
{
    if g >= 0 {
        let gu: u128 = g as u128;
        let q: u128 = gu / 65536;
        let f: u128 = gu % 65536;
        proof {
            assert((gu as int) / 65536 <= gu as int) by (nonlinear_arith)
                requires
                    gu as int >= 0,
            ;
            lemma_fundamental_div_mod_converse(g as int, UNIT as int, q as int, f as int);
        }
        (q as i128, f as i64)
    } else {
        let m: u128 = (-g) as u128;
        let qm: u128 = m / 65536;
        let fm: u128 = m % 65536;
        proof {
            assert((m as int) / 65536 <= m as int) by (nonlinear_arith)
                requires
                    m as int >= 0,
            ;
        }
        if fm == 0 {
            proof {
                lemma_fundamental_div_mod_converse(g as int, UNIT as int, -(qm as int), 0);
            }
            (-(qm as i128), 0)
        } else {
            proof {
                lemma_fundamental_div_mod_converse(
                    g as int,
                    UNIT as int,
                    -(qm as int) - 1,
                    65536 - fm as int,
                );
            }
            (-(qm as i128) - 1, (65536 - fm) as i64)
        }
    }
}

/// A coordinate mantissa times a grid scale stays well inside the wide
/// intermediate range.
pub proof fn lemma_bounded_mul_i64_scale(p: int, s: int)
    requires
        i64::MIN <= p <= i64::MAX,
        0 <= s <= 65536,
    ensures
        -0x8000_0000_0000_0000_0000 <= p * s <= 0x8000_0000_0000_0000_0000,
{
    crate::scalar::lemma_bounded_mul(p, s, 0x8000_0000_0000_0000, 0x10000);
}

} // verus!
