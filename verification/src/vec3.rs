//! Three-component vectors of fixed-point scalars.
//!
//! The one type doubles as a point in space and as a colour, exactly as
//! the aliases say.  Component-wise operators combine per component;
//! `dot`, `cross`, `length` and `unit` mix components.  Each operation is
//! specified exactly over the integer representation in `fx`.

use crate::fx::{
    fx_add, fx_div, fx_mul, fx_neg, fx_sqrt, fx_sub, lemma_tdiv_bounds, lemma_tdiv_mono, sat,
    sat_i128, spec_add, spec_div, spec_mul, spec_neg, spec_sqrt, spec_sub, tdiv, tdiv_i128,
    FX_MAX, FX_MIN, SCALE,
};
use crate::rng::rand_range_i64;
use vstd::prelude::*;

verus! {

/// A vector of three fixed-point scalars.
#[derive(Clone, Copy, Debug, PartialEq, Eq, Structural)]
pub struct Vec3 {
    pub x: i64,
    pub y: i64,
    pub z: i64,
}

/// A location in space.
pub type Point3 = Vec3;

/// A colour; the channels carry red, green and blue radiance.
pub type Colour = Vec3;

impl Vec3 {
    /// All components lie in the representable scalar range.
    pub open spec fn wf(self) -> bool {
        &&& FX_MIN <= self.x <= FX_MAX
        &&& FX_MIN <= self.y <= FX_MAX
        &&& FX_MIN <= self.z <= FX_MAX
    }
}

/// Component-wise sum.
pub open spec fn add_spec(a: Vec3, b: Vec3) -> Vec3 {
    Vec3 {
        x: spec_add(a.x as int, b.x as int) as i64,
        y: spec_add(a.y as int, b.y as int) as i64,
        z: spec_add(a.z as int, b.z as int) as i64,
    }
}

/// Component-wise difference.
pub open spec fn sub_spec(a: Vec3, b: Vec3) -> Vec3 {
    Vec3 {
        x: spec_sub(a.x as int, b.x as int) as i64,
        y: spec_sub(a.y as int, b.y as int) as i64,
        z: spec_sub(a.z as int, b.z as int) as i64,
    }
}

/// Component-wise negation.
pub open spec fn neg_spec(a: Vec3) -> Vec3 {
    Vec3 {
        x: spec_neg(a.x as int) as i64,
        y: spec_neg(a.y as int) as i64,
        z: spec_neg(a.z as int) as i64,
    }
}

/// Component-wise product of two vectors.
pub open spec fn mul_spec(a: Vec3, b: Vec3) -> Vec3 {
    Vec3 {
        x: spec_mul(a.x as int, b.x as int) as i64,
        y: spec_mul(a.y as int, b.y as int) as i64,
        z: spec_mul(a.z as int, b.z as int) as i64,
    }
}

/// Product with a scalar.
pub open spec fn scale_spec(a: Vec3, s: int) -> Vec3 {
    Vec3 {
        x: spec_mul(a.x as int, s) as i64,
        y: spec_mul(a.y as int, s) as i64,
        z: spec_mul(a.z as int, s) as i64,
    }
}

/// Quotient by a scalar.
pub open spec fn div_spec(a: Vec3, s: int) -> Vec3 {
    Vec3 {
        x: spec_div(a.x as int, s) as i64,
        y: spec_div(a.y as int, s) as i64,
        z: spec_div(a.z as int, s) as i64,
    }
}

/// The dot product: the three component products are summed exactly and
/// rounded once.
pub open spec fn dot_spec(a: Vec3, b: Vec3) -> int {
    sat(tdiv(a.x * b.x + a.y * b.y + a.z * b.z, SCALE as int))
}

/// The cross product, one rounding per component.
pub open spec fn cross_spec(a: Vec3, b: Vec3) -> Vec3 {
    Vec3 {
        x: sat(tdiv(a.y * b.z - a.z * b.y, SCALE as int)) as i64,
        y: sat(tdiv(a.z * b.x - a.x * b.z, SCALE as int)) as i64,
        z: sat(tdiv(a.x * b.y - a.y * b.x, SCALE as int)) as i64,
    }
}

/// The euclidean length.
pub open spec fn length_spec(a: Vec3) -> int {
    spec_sqrt(dot_spec(a, a))
}

/// The vector scaled to unit length by dividing through its length.
pub open spec fn unit_spec(a: Vec3) -> Vec3 {
    div_spec(a, length_spec(a))
}

/// Whether every component is closer to zero than the threshold 1e-8 of
/// a unit.  That threshold lies below the scalar resolution `1/SCALE`,
/// so exactly the zero vector satisfies it.
pub open spec fn near_zero_spec(a: Vec3) -> bool {
    a.x == 0 && a.y == 0 && a.z == 0
}

/// `v - 2*dot(v,n)*n`: the reflection of `v` about the plane with normal `n`.
pub open spec fn reflect_spec(v: Vec3, n: Vec3) -> Vec3 {
    sub_spec(v, scale_spec(n, spec_mul(2 * SCALE as int, dot_spec(v, n))))
}

/// The exact (unrounded) dot product of two integer triples.
pub open spec fn idot(
    ax: int,
    ay: int,
    az: int,
    bx: int,
    by: int,
    bz: int,
) -> int {
    ax * bx + ay * by + az * bz
}

/// The reflection law behind `reflect`, stated over exact integer
/// arithmetic: for a normal of exactly unit squared length
/// (`idot(n,n) == SCALE*SCALE`) and any incoming `v` with
/// `d == idot(v,n)`, the exact reflected vector
/// `r = SCALE*SCALE*v - 2*d*n` satisfies `idot(r,n) == -d * SCALE*SCALE`;
/// its normal component is the incoming one negated.  The executable
/// `reflect` computes `r / (SCALE*SCALE)` up to one fixed-point rounding
/// per step.
pub proof fn lemma_reflect_opposes_normal(
    vx: int,
    vy: int,
    vz: int,
    nx: int,
    ny: int,
    nz: int,
)
    requires
        idot(nx, ny, nz, nx, ny, nz) == SCALE as int * SCALE as int,
    ensures
        idot(
            SCALE as int * SCALE as int * vx - 2 * idot(vx, vy, vz, nx, ny, nz) * nx,
            SCALE as int * SCALE as int * vy - 2 * idot(vx, vy, vz, nx, ny, nz) * ny,
            SCALE as int * SCALE as int * vz - 2 * idot(vx, vy, vz, nx, ny, nz) * nz,
            nx,
            ny,
            nz,
        ) == -(idot(vx, vy, vz, nx, ny, nz) * (SCALE as int * SCALE as int)),
{
    let ss = SCALE as int * SCALE as int;
    let d = idot(vx, vy, vz, nx, ny, nz);
    assert((ss * vx - 2 * d * nx) * nx == ss * (vx * nx) - 2 * d * (nx * nx)) by (nonlinear_arith);
    assert((ss * vy - 2 * d * ny) * ny == ss * (vy * ny) - 2 * d * (ny * ny)) by (nonlinear_arith);
    assert((ss * vz - 2 * d * nz) * nz == ss * (vz * nz) - 2 * d * (nz * nz)) by (nonlinear_arith);
    assert(ss * (vx * nx) + ss * (vy * ny) + ss * (vz * nz) == ss * (vx * nx + vy * ny + vz
        * nz)) by (nonlinear_arith);
    assert(2 * d * (nx * nx) + 2 * d * (ny * ny) + 2 * d * (nz * nz) == 2 * d * (nx * nx + ny * ny
        + nz * nz)) by (nonlinear_arith);
    assert(ss * d - 2 * d * ss == -(d * ss)) by (nonlinear_arith);
}

/// The reflection law at the executable operations, for the unit normal
/// along the second axis: with the doubled normal component still
/// representable, `reflect` introduces no rounding there, and the
/// reflected vector's normal component is exactly the incoming one
/// negated.  (For general unit normals the same law holds of the exact
/// arithmetic: see `lemma_reflect_opposes_normal`.)
pub proof fn lemma_reflect_opposes_axis_normal(v: Vec3, n: Vec3)
    requires
        v.wf(),
        n == (Vec3 { x: 0i64, y: SCALE, z: 0i64 }),
        -(FX_MAX as int) <= 2 * v.y <= FX_MAX as int,
    ensures
        dot_spec(v, n) == v.y,
        dot_spec(reflect_spec(v, n), n) == -dot_spec(v, n),
{
    crate::fx::lemma_tdiv_cancel(v.y as int);
    assert(v.x * n.x == 0 && v.z * n.z == 0) by (nonlinear_arith)
        requires
            n.x == 0,
            n.z == 0,
    ;
    assert(dot_spec(v, n) == v.y);
    let d = v.y as int;
    assert(2 * SCALE * d == (2 * d) * SCALE) by (nonlinear_arith);
    crate::fx::lemma_tdiv_cancel(2 * d);
    assert(spec_mul(2 * SCALE as int, d) == sat(2 * d));
    let s = 2 * d;
    assert(SCALE * s == s * SCALE) by (nonlinear_arith);
    crate::fx::lemma_tdiv_cancel(s);
    crate::fx::lemma_spec_mul_zero(s);
    assert(spec_mul(0, s) == spec_mul(s, 0)) by (nonlinear_arith);
    let r = reflect_spec(v, n);
    assert(r.x == v.x && r.y == -v.y && r.z == v.z);
    assert(r.x * n.x == 0 && r.z * n.z == 0) by (nonlinear_arith)
        requires
            n.x == 0,
            n.z == 0,
    ;
    assert(r.y * n.y == (-v.y) * SCALE) by (nonlinear_arith)
        requires
            r.y == -v.y,
            n.y == SCALE,
    ;
    crate::fx::lemma_tdiv_cancel(-(v.y as int));
}

/// Negating one argument negates the dot product.
pub proof fn lemma_dot_neg(a: Vec3, b: Vec3)
    requires
        a.wf(),
    ensures
        dot_spec(neg_spec(a), b) == -dot_spec(a, b),
{
    let s = a.x * b.x + a.y * b.y + a.z * b.z;
    let na = neg_spec(a);
    assert(na.x == -a.x && na.y == -a.y && na.z == -a.z);
    assert(na.x * b.x == -(a.x * b.x)) by (nonlinear_arith)
        requires
            na.x == -a.x,
    ;
    assert(na.y * b.y == -(a.y * b.y)) by (nonlinear_arith)
        requires
            na.y == -a.y,
    ;
    assert(na.z * b.z == -(a.z * b.z)) by (nonlinear_arith)
        requires
            na.z == -a.z,
    ;
    assert(tdiv(-s, SCALE as int) == -tdiv(s, SCALE as int)) by {
        if s == 0 {
            assert(tdiv(0, SCALE as int) == 0) by {
                vstd::arithmetic::div_mod::lemma_div_of0(SCALE as int);
            }
        }
    }
}

/// The dot product of a vector with itself is non-negative.
pub proof fn lemma_dot_self_nonneg(a: Vec3)
    ensures
        dot_spec(a, a) >= 0,
{
    assert(a.x * a.x >= 0 && a.y * a.y >= 0 && a.z * a.z >= 0) by (nonlinear_arith);
    lemma_tdiv_bounds(a.x * a.x + a.y * a.y + a.z * a.z, SCALE as int);
}

/// Negating a vector does not change its dot product with itself.
pub proof fn lemma_dot_self_neg(a: Vec3)
    requires
        a.wf(),
    ensures
        dot_spec(neg_spec(a), neg_spec(a)) == dot_spec(a, a),
{
    let na = neg_spec(a);
    assert(na.x == -a.x && na.y == -a.y && na.z == -a.z);
    assert(na.x * na.x == a.x * a.x) by (nonlinear_arith)
        requires
            na.x == -a.x,
    ;
    assert(na.y * na.y == a.y * a.y) by (nonlinear_arith)
        requires
            na.y == -a.y,
    ;
    assert(na.z * na.z == a.z * a.z) by (nonlinear_arith)
        requires
            na.z == -a.z,
    ;
}

/// Normalizing a cube sample whose rounded squared length is not zero
/// cannot blow up: every component of the quotient stays within two
/// units.  (The rounded squared length of such a vector is at least one
/// scalar step, so its length is at least `sqrt(SCALE)` steps, and no
/// component exceeds twice that.)
pub proof fn lemma_unit_components_bounded(v: Vec3)
    requires
        -SCALE < v.x < SCALE,
        -SCALE < v.y < SCALE,
        -SCALE < v.z < SCALE,
        dot_spec(v, v) >= 1,
    ensures
        -(2 * SCALE as int) <= unit_spec(v).x as int <= 2 * SCALE as int,
        -(2 * SCALE as int) <= unit_spec(v).y as int <= 2 * SCALE as int,
        -(2 * SCALE as int) <= unit_spec(v).z as int <= 2 * SCALE as int,
{
    let raw = v.x * v.x + v.y * v.y + v.z * v.z;
    assert(v.x * v.x >= 0 && v.y * v.y >= 0 && v.z * v.z >= 0) by (nonlinear_arith);
    assert(raw < 3 * (SCALE as int) * (SCALE as int)) by (nonlinear_arith)
        requires
            raw == v.x * v.x + v.y * v.y + v.z * v.z,
            -SCALE < v.x < SCALE,
            -SCALE < v.y < SCALE,
            -SCALE < v.z < SCALE,
    ;
    lemma_tdiv_bounds(raw, SCALE as int);
    let ls = dot_spec(v, v);
    assert(ls == raw / (SCALE as int));
    vstd::arithmetic::div_mod::lemma_fundamental_div_mod(raw, SCALE as int);
    vstd::arithmetic::div_mod::lemma_remainder_upper(raw, SCALE as int);
    assert(raw < ls * SCALE + SCALE);
    crate::fx::lemma_sqrt_floor_bounds(ls * SCALE);
    let len = crate::fx::spec_sqrt(ls);
    assert(len * len <= ls * SCALE < (len + 1) * (len + 1));
    assert(len >= 4096) by (nonlinear_arith)
        requires
            ls >= 1,
            ls * SCALE < (len + 1) * (len + 1),
            SCALE as int == 16777216,
            len >= 0,
    ;
    lemma_component_below_twice_length(v.x as int, raw, ls, len);
    lemma_component_below_twice_length(v.y as int, raw, ls, len);
    lemma_component_below_twice_length(v.z as int, raw, ls, len);
    lemma_small_quotient_bounded(v.x as int, len);
    lemma_small_quotient_bounded(v.y as int, len);
    lemma_small_quotient_bounded(v.z as int, len);
}

/// A component whose square is below the rounded squared length (plus
/// its rounding slack) stays below twice the rounded length.
proof fn lemma_component_below_twice_length(c: int, raw: int, ls: int, len: int)
    requires
        c * c <= raw,
        raw < ls * SCALE + SCALE,
        ls * SCALE < (len + 1) * (len + 1),
        len >= 4096,
    ensures
        -(2 * len) < c < 2 * len,
{
    assert(c * c < 4 * (len * len)) by (nonlinear_arith)
        requires
            c * c <= raw,
            raw < ls * SCALE + SCALE,
            ls * SCALE < (len + 1) * (len + 1),
            SCALE as int == 16777216,
            len >= 4096,
    ;
    assert(-(2 * len) < c < 2 * len) by (nonlinear_arith)
        requires
            c * c < 4 * (len * len),
            len >= 0,
    ;
}

/// Dividing a numerator below twice the divisor (in scalar units) gives
/// a quotient within two units.
proof fn lemma_small_quotient_bounded(c: int, len: int)
    requires
        -(2 * len) < c < 2 * len,
        len >= 1,
    ensures
        -(2 * SCALE as int) <= spec_div(c, len) <= 2 * SCALE as int,
{
    vstd::arithmetic::div_mod::lemma_div_multiples_vanish(2 * SCALE as int, len);
    assert(len * (2 * SCALE as int) == 2 * len * SCALE) by (nonlinear_arith);
    assert(tdiv(2 * len * SCALE, len) == 2 * SCALE as int);
    if c >= 0 {
        assert(c * SCALE <= 2 * len * SCALE) by (nonlinear_arith)
            requires
                c <= 2 * len,
                SCALE as int > 0,
        ;
        lemma_tdiv_mono(c * SCALE, 2 * len * SCALE, len);
        lemma_tdiv_bounds(c * SCALE, len);
    } else {
        assert(-(c * SCALE) <= 2 * len * SCALE) by (nonlinear_arith)
            requires
                -(2 * len) < c,
                SCALE as int > 0,
        ;
        lemma_tdiv_mono(-(c * SCALE), 2 * len * SCALE, len);
        lemma_tdiv_bounds(-(c * SCALE), len);
        assert(tdiv(c * SCALE, len) == -tdiv(-(c * SCALE), len));
    }
}

impl Vec3 {
    /// Pack three scalars into a vector.
    pub fn new(x: i64, y: i64, z: i64) -> (r: Vec3)
        requires
            FX_MIN <= x <= FX_MAX,
            FX_MIN <= y <= FX_MAX,
            FX_MIN <= z <= FX_MAX,
        ensures
            r == (Vec3 { x, y, z }),
            r.wf(),
    {
        Vec3 { x, y, z }
    }

    /// The zero vector.
    pub fn zero() -> (r: Vec3)
        ensures
            r == (Vec3 { x: 0i64, y: 0i64, z: 0i64 }),
            r.wf(),
    {
        Vec3 { x: 0, y: 0, z: 0 }
    }

    /// The first component.
    pub fn x(&self) -> (r: i64)
        ensures
            r == self.x,
    {
        self.x
    }

    /// The second component.
    pub fn y(&self) -> (r: i64)
        ensures
            r == self.y,
    {
        self.y
    }

    /// The third component.
    pub fn z(&self) -> (r: i64)
        ensures
            r == self.z,
    {
        self.z
    }

    /// Component-wise sum.
    pub fn add(self, rhs: Vec3) -> (r: Vec3)
        ensures
            r == add_spec(self, rhs),
            r.wf(),
    {
        Vec3 {
            x: fx_add(self.x, rhs.x),
            y: fx_add(self.y, rhs.y),
            z: fx_add(self.z, rhs.z),
        }
    }

    /// Component-wise difference.
    pub fn sub(self, rhs: Vec3) -> (r: Vec3)
        ensures
            r == sub_spec(self, rhs),
            r.wf(),
    {
        Vec3 {
            x: fx_sub(self.x, rhs.x),
            y: fx_sub(self.y, rhs.y),
            z: fx_sub(self.z, rhs.z),
        }
    }

    /// Component-wise negation.
    pub fn neg(self) -> (r: Vec3)
        ensures
            r == neg_spec(self),
            r.wf(),
    {
        Vec3 { x: fx_neg(self.x), y: fx_neg(self.y), z: fx_neg(self.z) }
    }

    /// Component-wise product, the attenuation product on colours.
    pub fn mul(self, rhs: Vec3) -> (r: Vec3)
        ensures
            r == mul_spec(self, rhs),
            r.wf(),
    {
        Vec3 {
            x: fx_mul(self.x, rhs.x),
            y: fx_mul(self.y, rhs.y),
            z: fx_mul(self.z, rhs.z),
        }
    }

    /// Product with a scalar.
    pub fn scale(self, s: i64) -> (r: Vec3)
        ensures
            r == scale_spec(self, s as int),
            r.wf(),
    {
        Vec3 { x: fx_mul(self.x, s), y: fx_mul(self.y, s), z: fx_mul(self.z, s) }
    }

    /// Quotient by a scalar.
    pub fn div(self, s: i64) -> (r: Vec3)
        ensures
            r == div_spec(self, s as int),
            r.wf(),
    {
        Vec3 { x: fx_div(self.x, s), y: fx_div(self.y, s), z: fx_div(self.z, s) }
    }

    /// The dot product.
    pub fn dot(&self, rhs: Vec3) -> (r: i64)
        requires
            self.wf(),
            rhs.wf(),
        ensures
            r as int == dot_spec(*self, rhs),
    {
        proof {
            lemma_dot_products_bounded(*self, rhs);
        }
        let px = (self.x as i128) * (rhs.x as i128);
        let py = (self.y as i128) * (rhs.y as i128);
        let pz = (self.z as i128) * (rhs.z as i128);
        sat_i128(tdiv_i128(px + py + pz, SCALE as i128))
    }

    /// The cross product.
    pub fn cross(&self, rhs: Vec3) -> (r: Vec3)
        requires
            self.wf(),
            rhs.wf(),
        ensures
            r == cross_spec(*self, rhs),
            r.wf(),
    {
        proof {
            lemma_dot_products_bounded(*self, rhs);
            lemma_dot_products_bounded(rhs, *self);
        }
        let x = sat_i128(tdiv_i128(
            (self.y as i128) * (rhs.z as i128) - (self.z as i128) * (rhs.y as i128),
            SCALE as i128,
        ));
        let y = sat_i128(tdiv_i128(
            (self.z as i128) * (rhs.x as i128) - (self.x as i128) * (rhs.z as i128),
            SCALE as i128,
        ));
        let z = sat_i128(tdiv_i128(
            (self.x as i128) * (rhs.y as i128) - (self.y as i128) * (rhs.x as i128),
            SCALE as i128,
        ));
        Vec3 { x, y, z }
    }

    /// The squared length; exactly the dot product of the vector with itself.
    pub fn length_squared(&self) -> (r: i64)
        requires
            self.wf(),
        ensures
            r as int == dot_spec(*self, *self),
            r >= 0,
    {
        proof {
            lemma_dot_self_nonneg(*self);
        }
        self.dot(*self)
    }

    /// The euclidean length.
    pub fn length(&self) -> (r: i64)
        requires
            self.wf(),
        ensures
            r as int == length_spec(*self),
            r >= 0,
    {
        proof {
            lemma_dot_self_nonneg(*self);
        }
        fx_sqrt(self.length_squared())
    }

    /// Whether the vector is within 1e-8 of zero in every component; at
    /// this resolution, whether it is the zero vector.
    pub fn is_near_zero(&self) -> (r: bool)
        ensures
            r == near_zero_spec(*self),
    {
        self.x == 0 && self.y == 0 && self.z == 0
    }

    /// The vector divided by its own length.  On the zero vector the
    /// quotients saturate, the counterpart of the non-finite values a
    /// float division by zero produces; callers guard with
    /// `is_near_zero` first.
    pub fn unit(&self) -> (r: Vec3)
        requires
            self.wf(),
        ensures
            r == unit_spec(*self),
            r.wf(),
    {
        let l = self.length();
        Vec3 { x: fx_div(self.x, l), y: fx_div(self.y, l), z: fx_div(self.z, l) }
    }

    /// Reflect about the plane with (unit) normal `n`.
    pub fn reflect(&self, n: Vec3) -> (r: Vec3)
        requires
            self.wf(),
            n.wf(),
        ensures
            r == reflect_spec(*self, n),
            r.wf(),
    {
        let d = self.dot(n);
        let s = fx_mul(2 * SCALE, d);
        self.sub(n.scale(s))
    }

    /// A vector of three uniform draws from `[0, 1)`.
    pub fn random() -> (r: Vec3)
        ensures
            r.wf(),
            0 <= r.x < SCALE && 0 <= r.y < SCALE && 0 <= r.z < SCALE,
    {
        Vec3::random_range(0, SCALE)
    }

    /// A vector of three uniform draws from `[min, max)`.
    pub fn random_range(min: i64, max: i64) -> (r: Vec3)
        requires
            FX_MIN <= min < max <= FX_MAX,
        ensures
            r.wf(),
            min <= r.x < max && min <= r.y < max && min <= r.z < max,
    {
        let x = rand_range_i64(min, max);
        let y = rand_range_i64(min, max);
        let z = rand_range_i64(min, max);
        Vec3 { x, y, z }
    }

    /// A uniform point strictly inside the unit ball, by rejection
    /// sampling over the enclosing cube.  The redraws are bounded so the
    /// sampler provably terminates; after 64 straight rejections (odds
    /// below 2^-64) it falls back to the centre, which lies in the ball.
    pub fn random_in_unit_ball() -> (r: Vec3)
        ensures
            r.wf(),
            dot_spec(r, r) < SCALE,
            -SCALE < r.x < SCALE && -SCALE < r.y < SCALE && -SCALE < r.z < SCALE,
    {
        let mut tries: u64 = 0;
        while tries < 64
            decreases 64 - tries,
        {
            let v = Vec3::random_range(-SCALE + 1, SCALE);
            if v.length_squared() < SCALE {
                return v;
            }
            tries = tries + 1;
        }
        proof {
            lemma_dot_self_nonneg(Vec3 { x: 0i64, y: 0i64, z: 0i64 });
            vstd::arithmetic::div_mod::lemma_div_of0(SCALE as int);
        }
        Vec3::zero()
    }

    /// A point of the unit ball lying in the half about `normal`: the
    /// ball sample, flipped when it points against the normal.  The
    /// flip keeps the point strictly inside the ball.
    pub fn random_in_unit_half_ball(normal: Vec3) -> (r: Vec3)
        requires
            normal.wf(),
        ensures
            r.wf(),
            dot_spec(r, normal) >= 0,
            dot_spec(r, r) < SCALE,
            -SCALE < r.x < SCALE && -SCALE < r.y < SCALE && -SCALE < r.z < SCALE,
    {
        let in_unit_ball = Vec3::random_in_unit_ball();
        if in_unit_ball.dot(normal) > 0 {
            in_unit_ball
        } else {
            proof {
                lemma_dot_neg(in_unit_ball, normal);
                lemma_dot_self_neg(in_unit_ball);
            }
            in_unit_ball.neg()
        }
    }

    /// A direction of unit length, uniform over the sphere surface: a
    /// ball sample normalized, redrawn while its rounded squared length
    /// is zero (such a draw is too close to zero to normalize, even
    /// when no component is exactly zero).  The redraws are bounded so
    /// the sampler provably terminates; after 64 straight degenerate
    /// draws it falls back to the first axis direction, which has
    /// exactly unit length.  Every result stays within two units per
    /// component.
    pub fn random_on_unit_sphere() -> (r: Vec3)
        ensures
            r.wf(),
            -(2 * SCALE as int) <= r.x as int <= 2 * SCALE as int,
            -(2 * SCALE as int) <= r.y as int <= 2 * SCALE as int,
            -(2 * SCALE as int) <= r.z as int <= 2 * SCALE as int,
    {
        let mut tries: u64 = 0;
        while tries < 64
            decreases 64 - tries,
        {
            let v = Vec3::random_in_unit_ball();
            if v.length_squared() > 0 {
                proof {
                    lemma_unit_components_bounded(v);
                }
                return v.unit();
            }
            tries = tries + 1;
        }
        Vec3 { x: SCALE, y: 0, z: 0 }
    }
}

/// With both vectors in the representable range, every component product
/// stays within `FX_MAX` squared, so sums of three fit far inside `i128`.
proof fn lemma_dot_products_bounded(a: Vec3, b: Vec3)
    requires
        a.wf(),
        b.wf(),
    ensures
        -((FX_MAX as int) * (FX_MAX as int)) <= a.x * b.x <= (FX_MAX as int) * (FX_MAX as int),
        -((FX_MAX as int) * (FX_MAX as int)) <= a.x * b.y <= (FX_MAX as int) * (FX_MAX as int),
        -((FX_MAX as int) * (FX_MAX as int)) <= a.x * b.z <= (FX_MAX as int) * (FX_MAX as int),
        -((FX_MAX as int) * (FX_MAX as int)) <= a.y * b.x <= (FX_MAX as int) * (FX_MAX as int),
        -((FX_MAX as int) * (FX_MAX as int)) <= a.y * b.y <= (FX_MAX as int) * (FX_MAX as int),
        -((FX_MAX as int) * (FX_MAX as int)) <= a.y * b.z <= (FX_MAX as int) * (FX_MAX as int),
        -((FX_MAX as int) * (FX_MAX as int)) <= a.z * b.x <= (FX_MAX as int) * (FX_MAX as int),
        -((FX_MAX as int) * (FX_MAX as int)) <= a.z * b.y <= (FX_MAX as int) * (FX_MAX as int),
        -((FX_MAX as int) * (FX_MAX as int)) <= a.z * b.z <= (FX_MAX as int) * (FX_MAX as int),
        3 * ((FX_MAX as int) * (FX_MAX as int)) < i128::MAX as int,
{
    let m = FX_MAX as int;
    assert forall|p: int, q: int|
        -m <= p <= m && -m <= q <= m implies -(m * m) <= #[trigger] (p * q) <= m * m by {
        assert(-(m * m) <= p * q <= m * m) by (nonlinear_arith)
            requires
                -m <= p <= m,
                -m <= q <= m,
                m >= 0,
        ;
    }
    assert(-(m * m) <= a.x * b.x <= m * m);
    assert(-(m * m) <= a.x * b.y <= m * m);
    assert(-(m * m) <= a.x * b.z <= m * m);
    assert(-(m * m) <= a.y * b.x <= m * m);
    assert(-(m * m) <= a.y * b.y <= m * m);
    assert(-(m * m) <= a.y * b.z <= m * m);
    assert(-(m * m) <= a.z * b.x <= m * m);
    assert(-(m * m) <= a.z * b.y <= m * m);
    assert(-(m * m) <= a.z * b.z <= m * m);
    assert(3 * (m * m) < i128::MAX as int) by (nonlinear_arith)
        requires
            m == 70368744177664,
    ;
}

} // verus!
