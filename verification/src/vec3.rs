//! Three-component vectors over fixed-point scalars.
//!
//! A `Vec3` is a position, a direction or a colour triple, depending on the
//! caller's reading; the type carries no unit tag.  Addition, subtraction
//! and negation are exact; products, quotients and the square root follow
//! the truncating fixed-point model of [`crate::fixed`].

use crate::fixed::{
    div_fx, fx_div, fx_mul, fx_sqrt, lemma_div_trunc_scaled, lemma_sqrt_floor, mul_fx, sqrt_floor, sqrt_fx,
    FX_LIM,
};
use vstd::prelude::*;

verus! {

#[derive(Clone, Copy, Debug, PartialEq, Eq, Structural)]
pub struct Vec3 {
    pub x: i64,
    pub y: i64,
    pub z: i64,
}

/// Fixed-point dot product of two component triples.
pub open spec fn dot3(ax: int, ay: int, az: int, bx: int, b_y: int, bz: int) -> int {
    fx_mul(ax, bx) + fx_mul(ay, b_y) + fx_mul(az, bz)
}

/// Fixed-point dot product of two vectors.
pub open spec fn dot_v(a: Vec3, b: Vec3) -> int {
    dot3(a.x as int, a.y as int, a.z as int, b.x as int, b.y as int, b.z as int)
}

/// Fixed-point length of a vector: the rescaled square root of the
/// squared length.
pub open spec fn len_v(a: Vec3) -> int {
    fx_sqrt(dot_v(a, a))
}

/// The x component of the unit vector of `a`.
pub open spec fn unit_x(a: Vec3) -> int {
    fx_div(a.x as int, len_v(a))
}

/// The y component of the unit vector of `a`.
pub open spec fn unit_y(a: Vec3) -> int {
    fx_div(a.y as int, len_v(a))
}

/// The z component of the unit vector of `a`.
pub open spec fn unit_z(a: Vec3) -> int {
    fx_div(a.z as int, len_v(a))
}

/// The unit vector of `v`, assembled from its spec components.
pub open spec fn unit_of(v: Vec3) -> Vec3 {
    Vec3 { x: unit_x(v) as i64, y: unit_y(v) as i64, z: unit_z(v) as i64 }
}

impl Vec3 {
    /// Every component's magnitude is at most `bound`.
    pub open spec fn in_range(self, bound: int) -> bool {
        &&& -bound <= self.x <= bound
        &&& -bound <= self.y <= bound
        &&& -bound <= self.z <= bound
    }

    pub fn new(x: i64, y: i64, z: i64) -> (v: Vec3)
        ensures
            v == (Vec3 { x, y, z }),
    {
        Vec3 { x, y, z }
    }

    pub fn x(&self) -> (r: i64)
        ensures
            r == self.x,
    {
        self.x
    }

    pub fn y(&self) -> (r: i64)
        ensures
            r == self.y,
    {
        self.y
    }

    pub fn z(&self) -> (r: i64)
        ensures
            r == self.z,
    {
        self.z
    }

    /// The red channel, when the vector is read as a colour.
    pub fn r(&self) -> (r: i64)
        ensures
            r == self.x,
    {
        self.x
    }

    /// The green channel, when the vector is read as a colour.
    pub fn g(&self) -> (r: i64)
        ensures
            r == self.y,
    {
        self.y
    }

    /// The blue channel, when the vector is read as a colour.
    pub fn b(&self) -> (r: i64)
        ensures
            r == self.z,
    {
        self.z
    }

    /// Component-wise sum; exact.
    pub fn add(self, other: Vec3) -> (r: Vec3)
        requires
            i64::MIN <= self.x + other.x <= i64::MAX,
            i64::MIN <= self.y + other.y <= i64::MAX,
            i64::MIN <= self.z + other.z <= i64::MAX,
        ensures
            r.x == self.x + other.x,
            r.y == self.y + other.y,
            r.z == self.z + other.z,
    {
        Vec3 { x: self.x + other.x, y: self.y + other.y, z: self.z + other.z }
    }

    /// Component-wise difference; exact.
    pub fn sub(self, other: Vec3) -> (r: Vec3)
        requires
            i64::MIN <= self.x - other.x <= i64::MAX,
            i64::MIN <= self.y - other.y <= i64::MAX,
            i64::MIN <= self.z - other.z <= i64::MAX,
        ensures
            r.x == self.x - other.x,
            r.y == self.y - other.y,
            r.z == self.z - other.z,
    {
        Vec3 { x: self.x - other.x, y: self.y - other.y, z: self.z - other.z }
    }

    /// Component-wise negation; exact.
    pub fn neg(self) -> (r: Vec3)
        requires
            self.x > i64::MIN,
            self.y > i64::MIN,
            self.z > i64::MIN,
        ensures
            r.x == -self.x,
            r.y == -self.y,
            r.z == -self.z,
    {
        Vec3 { x: -self.x, y: -self.y, z: -self.z }
    }

    /// Scalar multiple: each component rescaled by the fixed-point product.
    pub fn scale(self, k: i64) -> (r: Vec3)
        requires
            -FX_LIM <= k <= FX_LIM,
            self.in_range(FX_LIM as int),
        ensures
            r.x == fx_mul(self.x as int, k as int),
            r.y == fx_mul(self.y as int, k as int),
            r.z == fx_mul(self.z as int, k as int),
            r.in_range(0x4000_0000_0000),
    {
        Vec3 { x: mul_fx(self.x, k), y: mul_fx(self.y, k), z: mul_fx(self.z, k) }
    }

    /// Scalar quotient: each component divided by `k`.
    pub fn div_scalar(self, k: i64) -> (r: Vec3)
        requires
            k != 0,
            self.in_range(0x4100_0000_0000),
        ensures
            r.x == fx_div(self.x as int, k as int),
            r.y == fx_div(self.y as int, k as int),
            r.z == fx_div(self.z as int, k as int),
    {
        Vec3 { x: div_fx(self.x, k), y: div_fx(self.y, k), z: div_fx(self.z, k) }
    }

    /// Dot product: the sum of the component-wise fixed-point products.
    pub fn dot(self, other: Vec3) -> (r: i64)
        requires
            self.in_range(FX_LIM as int),
            other.in_range(FX_LIM as int),
        ensures
            r as int == dot_v(self, other),
            -0xC000_0000_0000 <= r <= 0xC000_0000_0000,
    {
        mul_fx(self.x, other.x) + mul_fx(self.y, other.y) + mul_fx(self.z, other.z)
    }

    /// Squared length: the dot product of the vector with itself.
    pub fn squared_length(self) -> (r: i64)
        requires
            self.in_range(FX_LIM as int),
        ensures
            r as int == dot_v(self, self),
            -0xC000_0000_0000 <= r <= 0xC000_0000_0000,
    {
        self.dot(self)
    }

    /// Length: the fixed-point square root of the squared length.
    pub fn length(self) -> (r: i64)
        requires
            self.in_range(FX_LIM as int),
        ensures
            r as int == len_v(self),
            r >= 0,
    {
        let q = self.squared_length();
        proof {
            lemma_dot_self_nonneg(self);
        }
        sqrt_fx(q)
    }

    /// The unit vector: the vector divided by its length.  The squared
    /// length must be at least one scale unit (a vector shorter than one
    /// unit would normalize with a large truncation error), so the length
    /// divides out to components within twice the scale.
    pub fn unit_vector(self) -> (r: Vec3)
        requires
            self.in_range(FX_LIM as int),
            dot_v(self, self) >= 65536,
        ensures
            r.x == unit_x(self),
            r.y == unit_y(self),
            r.z == unit_z(self),
            r.in_range(0x2_0000),
            len_v(self) >= 65536,
    {
        proof {
            lemma_unit_in_range(self);
        }
        let l = self.length();
        self.div_scalar(l)
    }
}

/// The unit vector of any representable vector of squared length at least
/// one scale unit has all components within `2 * SCALE`, and the length
/// itself is at least the scale.
pub proof fn lemma_unit_in_range(a: Vec3)
    requires
        a.in_range(FX_LIM as int),
        dot_v(a, a) >= 65536,
    ensures
        len_v(a) >= 65536,
        -0x2_0000 <= unit_x(a) <= 0x2_0000,
        -0x2_0000 <= unit_y(a) <= 0x2_0000,
        -0x2_0000 <= unit_z(a) <= 0x2_0000,
{
    let q = dot_v(a, a);
    lemma_dot_self_nonneg(a);
    crate::fixed::lemma_fx_square_nonneg(a.x as int);
    crate::fixed::lemma_fx_square_nonneg(a.y as int);
    crate::fixed::lemma_fx_square_nonneg(a.z as int);
    let l = len_v(a);
    lemma_sqrt_floor(q * 65536);
    assert(q * 65536 >= 65536 * 65536) by (nonlinear_arith)
        requires
            q >= 65536;
    assert(l >= 65536) by (nonlinear_arith)
        requires
            l >= 0,
            (l + 1) * (l + 1) > 65536 * 65536;
    lemma_unit_comp(a.x as int, q, l);
    lemma_unit_comp(a.y as int, q, l);
    lemma_unit_comp(a.z as int, q, l);
}

/// One component of a unit vector is within `2 * SCALE`: the component's
/// square is under the squared length, and the length's square root floor
/// loses less than a factor of two.
proof fn lemma_unit_comp(x: int, q: int, l: int)
    requires
        -0x8000_0000 <= x <= 0x8000_0000,
        0 <= fx_mul(x, x) <= q,
        l == sqrt_floor(q * 65536),
        l >= 256,
        q * 65536 < (l + 1) * (l + 1),
    ensures
        -0x2_0000 <= fx_div(x, l) <= 0x2_0000,
{
    let xx = x * x;
    assert(x * x >= 0) by (nonlinear_arith);
    let q2 = fx_mul(x, x);
    assert(q2 == xx / 65536);
    vstd::arithmetic::div_mod::lemma_fundamental_div_mod(xx, 65536);
    vstd::arithmetic::div_mod::lemma_mod_bound(xx, 65536);
    assert(xx < (q2 + 1) * 65536);
    assert(xx < q * 65536 + 65536);
    assert(vstd::math::abs(x) <= 2 * l) by (nonlinear_arith)
        requires
            x * x < (l + 1) * (l + 1) + 65536,
            l >= 256;
    assert(-(0x2_0000 * l) <= x * 65536 <= 0x2_0000 * l) by (nonlinear_arith)
        requires
            vstd::math::abs(x) <= 2 * l,
            l >= 0;
    lemma_div_trunc_scaled(x * 65536, l, 0x2_0000);
}

/// A vector's dot product with itself is non-negative: each fixed-point
/// square is.
pub proof fn lemma_dot_self_nonneg(a: Vec3)
    ensures
        dot_v(a, a) >= 0,
{
    crate::fixed::lemma_fx_square_nonneg(a.x as int);
    crate::fixed::lemma_fx_square_nonneg(a.y as int);
    crate::fixed::lemma_fx_square_nonneg(a.z as int);
}


/// One component of the unit vector, squared and cross-multiplied by the
/// squared length: the quotient's square sits within one quotient step of
/// the exact ratio.
proof fn lemma_unit_comp_sq(xi: int, l: int)
    requires
        l >= 1,
    ensures
        ({
            let ui = fx_div(xi, l);
            let au = vstd::math::abs(ui) as int;
            &&& (ui * ui) * (l * l) <= (xi * xi) * 0x1_0000_0000
            &&& (xi * xi) * 0x1_0000_0000 < ((au + 1) * (au + 1)) * (l * l)
        }),
{
    let ui = fx_div(xi, l);
    let au = vstd::math::abs(ui) as int;
    let axi = vstd::math::abs(xi) as int;
    crate::fixed::lemma_div_trunc_char(xi * 65536, l);
    if xi >= 0 {
        assert(xi * 65536 >= 0);
        assert(vstd::math::abs(xi * 65536) as int == axi * 65536);
    } else {
        assert(xi * 65536 < 0);
        assert(vstd::math::abs(xi * 65536) as int == axi * 65536);
    }
    assert(xi * (crate::fixed::SCALE as int) == xi * 65536);
    assert(au * l <= axi * 65536);
    assert(axi * 65536 < (au + 1) * l);
    assert(ui == au || ui == -au);
    assert(xi == axi || xi == -axi);
    assert(ui * ui == au * au) by (nonlinear_arith)
        requires
            ui == au || ui == -au;
    assert(xi * xi == axi * axi) by (nonlinear_arith)
        requires
            xi == axi || xi == -axi;
    assert((ui * ui) * (l * l) <= (xi * xi) * 0x1_0000_0000 && (xi * xi) * 0x1_0000_0000 < ((au
        + 1) * (au + 1)) * (l * l)) by (nonlinear_arith)
        requires
            au * l <= axi * 65536,
            axi * 65536 < (au + 1) * l,
            au >= 0,
            axi >= 0,
            l >= 1,
            ui * ui == au * au,
            xi * xi == axi * axi;
}

/// Normalization is sound: the unit vector of any representable vector of
/// squared length at least one scale unit has fixed-point length within a
/// few ulps of one (between 65528 and 65538 at scale 65536).
pub proof fn lemma_unit_vector_length(a: Vec3)
    requires
        a.in_range(FX_LIM as int),
        dot_v(a, a) >= 65536,
    ensures
        65528 <= len_v(unit_of(a)) <= 65538,
{
    lemma_unit_in_range(a);
    let q = dot_v(a, a);
    let l = len_v(a);
    assert(q * (crate::fixed::SCALE as int) == q * 65536);
    lemma_sqrt_floor(q * 65536);
    let ax = a.x as int;
    let ay = a.y as int;
    let az = a.z as int;
    let ux = unit_x(a);
    let uy = unit_y(a);
    let uz = unit_z(a);
    let u = unit_of(a);
    assert(u.x as int == ux && u.y as int == uy && u.z as int == uz);
    crate::fixed::lemma_fx_sq_char(ax);
    crate::fixed::lemma_fx_sq_char(ay);
    crate::fixed::lemma_fx_sq_char(az);
    let xx = ax * ax + ay * ay + az * az;
    assert(q * 65536 <= xx);
    assert(xx < (q + 3) * 65536);
    lemma_unit_comp_sq(ax, l);
    lemma_unit_comp_sq(ay, l);
    lemma_unit_comp_sq(az, l);
    let uu = ux * ux + uy * uy + uz * uz;
    let aux = vstd::math::abs(ux) as int;
    let auy = vstd::math::abs(uy) as int;
    let auz = vstd::math::abs(uz) as int;
    assert(ux == aux || ux == -aux);
    assert(ux * ux == aux * aux) by (nonlinear_arith)
        requires
            ux == aux || ux == -aux;
    assert(uy == auy || uy == -auy);
    assert(uy * uy == auy * auy) by (nonlinear_arith)
        requires
            uy == auy || uy == -auy;
    assert(uz == auz || uz == -auz);
    assert(uz * uz == auz * auz) by (nonlinear_arith)
        requires
            uz == auz || uz == -auz;
    assert(aux <= 0x2_0000 && auy <= 0x2_0000 && auz <= 0x2_0000);
    crate::fixed::lemma_fx_sq_char(ux);
    crate::fixed::lemma_fx_sq_char(uy);
    crate::fixed::lemma_fx_sq_char(uz);
    let d2 = dot_v(u, u);
    assert(d2 == fx_mul(ux, ux) + fx_mul(uy, uy) + fx_mul(uz, uz));
    assert(d2 * 65536 <= uu);
    assert(uu < (d2 + 3) * 65536);
    // sum the three per-component cross-multiplied bounds
    assert(uu * (l * l) <= xx * 0x1_0000_0000) by (nonlinear_arith)
        requires
            (ux * ux) * (l * l) <= (ax * ax) * 0x1_0000_0000,
            (uy * uy) * (l * l) <= (ay * ay) * 0x1_0000_0000,
            (uz * uz) * (l * l) <= (az * az) * 0x1_0000_0000,
            uu == ux * ux + uy * uy + uz * uz,
            xx == ax * ax + ay * ay + az * az;
    assert((ax * ax) * 0x1_0000_0000 < (ux * ux) * (l * l) + ((2 * aux + 1) * (l * l)))
        by (nonlinear_arith)
        requires
            (ax * ax) * 0x1_0000_0000 < ((aux + 1) * (aux + 1)) * (l * l),
            ux * ux == aux * aux;
    assert((ay * ay) * 0x1_0000_0000 < (uy * uy) * (l * l) + ((2 * auy + 1) * (l * l)))
        by (nonlinear_arith)
        requires
            (ay * ay) * 0x1_0000_0000 < ((auy + 1) * (auy + 1)) * (l * l),
            uy * uy == auy * auy;
    assert((az * az) * 0x1_0000_0000 < (uz * uz) * (l * l) + ((2 * auz + 1) * (l * l)))
        by (nonlinear_arith)
        requires
            (az * az) * 0x1_0000_0000 < ((auz + 1) * (auz + 1)) * (l * l),
            uz * uz == auz * auz;
    assert(xx * 0x1_0000_0000 < uu * (l * l) + ((2 * aux + 2 * auy + 2 * auz + 3) * (l * l)))
        by (nonlinear_arith)
        requires
            (ax * ax) * 0x1_0000_0000 < (ux * ux) * (l * l) + ((2 * aux + 1) * (l * l)),
            (ay * ay) * 0x1_0000_0000 < (uy * uy) * (l * l) + ((2 * auy + 1) * (l * l)),
            (az * az) * 0x1_0000_0000 < (uz * uz) * (l * l) + ((2 * auz + 1) * (l * l)),
            uu == ux * ux + uy * uy + uz * uz,
            xx == ax * ax + ay * ay + az * az;
    assert(uu * (l * l) + ((2 * aux + 2 * auy + 2 * auz + 3) * (l * l)) <= uu * (l * l) + 786435
        * (l * l)) by (nonlinear_arith)
        requires
            2 * aux + 2 * auy + 2 * auz + 3 <= 786435,
            l >= 1;
    assert(xx * 0x1_0000_0000 < (uu + 786435) * (l * l)) by (nonlinear_arith)
        requires
            xx * 0x1_0000_0000 < uu * (l * l) + 786435 * (l * l);
    // upper bound on the unit squared length
    assert(xx <= (l + 1) * (l + 1) + 196607);
    assert(xx * 0x1_0000_0000 <= ((l + 1) * (l + 1) + 196607) * 0x1_0000_0000);
    assert(d2 <= 65542) by (nonlinear_arith)
        requires
            d2 * 65536 <= uu,
            uu * (l * l) <= ((l + 1) * (l + 1) + 196607) * 0x1_0000_0000,
            l >= 65536;
    // lower bound on the unit squared length
    assert(l * l <= q * 65536);
    assert((l * l) * 0x1_0000_0000 <= xx * 0x1_0000_0000);
    assert(d2 >= 65521) by (nonlinear_arith)
        requires
            (l * l) * 0x1_0000_0000 <= xx * 0x1_0000_0000,
            xx * 0x1_0000_0000 < (uu + 786435) * (l * l),
            uu < (d2 + 3) * 65536,
            l >= 65536;
    // the length of the unit vector
    assert(d2 * (crate::fixed::SCALE as int) == d2 * 65536);
    assert(65539 * 65539 == 4295360521) by (nonlinear_arith);
    assert(65528 * 65528 == 4293918784) by (nonlinear_arith);
    crate::fixed::lemma_sqrt_below(65539, d2 * 65536);
    crate::fixed::lemma_sqrt_at_least(65528, d2 * 65536);
}

} // verus!
