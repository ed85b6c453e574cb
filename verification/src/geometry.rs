//! Two-dimensional fixed-point vectors.
//!
//! One model-space unit is `UNIT` steps. Every stored coordinate lies in
//! `[-COORD_MAX, COORD_MAX]`; sums that would leave that range saturate.

use vstd::prelude::*;

verus! {

/// Number of fixed-point steps in one model-space unit.
pub const UNIT: i32 = 10_000;

/// Largest magnitude a stored coordinate can have.
pub const COORD_MAX: i32 = 1_000_000;

/// A point or an offset in model space, in fixed-point steps.
#[derive(Clone, Copy, Debug, PartialEq, Eq, Structural)]
pub struct Vec2 {
    pub x: i32,
    pub y: i32,
}

/// `v` limited to `[lo, hi]`.
pub open spec fn clamp_int(v: int, lo: int, hi: int) -> int {
    if v < lo {
        lo
    } else if v > hi {
        hi
    } else {
        v
    }
}

/// Whether a single coordinate is inside the representable range.
pub open spec fn coord_in_range(c: int) -> bool {
    -(COORD_MAX as int) <= c <= COORD_MAX as int
}

/// `a + b`, saturated to the coordinate range.
pub open spec fn sat_add(a: int, b: int) -> int {
    clamp_int(a + b, -(COORD_MAX as int), COORD_MAX as int)
}

/// Saturating sum of two coordinates.
pub fn add_coord(a: i32, b: i32) -> (r: i32)
    ensures
        r as int == sat_add(a as int, b as int),
        coord_in_range(r as int),
{
    let s: i64 = a as i64 + b as i64;
    if s < -(COORD_MAX as i64) {
        -COORD_MAX
    } else if s > COORD_MAX as i64 {
        COORD_MAX
    } else {
        s as i32
    }
}

/// `v` limited to `[lo, hi]`.
pub fn clamp_coord(v: i32, lo: i32, hi: i32) -> (r: i32)
    requires
        lo <= hi,
    ensures
        r as int == clamp_int(v as int, lo as int, hi as int),
{
    if v < lo {
        lo
    } else if v > hi {
        hi
    } else {
        v
    }
}

/// Quotient of `n` by a positive `d`, rounded towards minus infinity.
pub fn floor_div(n: i128, d: i128) -> (q: i128)
    requires
        d > 0,
    ensures
        q as int == (n as int) / (d as int),
{
    if n >= 0 {
        n / d
    } else {
        let m: i128 = -(n + 1);
        let k: i128 = m / d;
        proof {
            let mi = m as int;
            let di = d as int;
            vstd::arithmetic::div_mod::lemma_fundamental_div_mod(mi, di);
            vstd::arithmetic::div_mod::lemma_mod_bound(mi, di);
            let r = mi % di;
            assert(0 <= k <= mi) by (nonlinear_arith)
                requires
                    mi == di * k + r,
                    0 <= r < di,
                    mi >= 0,
                    di > 0,
            ;
            assert(n as int == (-k - 1) * di + (di - r - 1)) by (nonlinear_arith)
                requires
                    mi == di * k + r,
                    n as int == -mi - 1,
            ;
            vstd::arithmetic::div_mod::lemma_fundamental_div_mod_converse(
                n as int,
                di,
                -k - 1,
                di - r - 1,
            );
        }
        -k - 1
    }
}

impl Vec2 {
    /// Both coordinates are inside the representable range.
    pub open spec fn in_range(self) -> bool {
        coord_in_range(self.x as int) && coord_in_range(self.y as int)
    }

    /// The componentwise saturating sum.
    pub open spec fn spec_plus(self, d: Vec2) -> Vec2 {
        Vec2 {
            x: sat_add(self.x as int, d.x as int) as i32,
            y: sat_add(self.y as int, d.y as int) as i32,
        }
    }

    /// The opposite offset.
    pub open spec fn spec_negated(self) -> Vec2 {
        Vec2 { x: (-(self.x as int)) as i32, y: (-(self.y as int)) as i32 }
    }

    /// The componentwise clamp into the box spanned by `lo` and `hi`.
    pub open spec fn spec_clamp(self, lo: Vec2, hi: Vec2) -> Vec2 {
        Vec2 {
            x: clamp_int(self.x as int, lo.x as int, hi.x as int) as i32,
            y: clamp_int(self.y as int, lo.y as int, hi.y as int) as i32,
        }
    }

    /// Squared Euclidean distance between two points.
    pub open spec fn spec_dist_sq(self, o: Vec2) -> int {
        (self.x - o.x) * (self.x - o.x) + (self.y - o.y) * (self.y - o.y)
    }

    pub fn new(x: i32, y: i32) -> (r: Vec2)
        ensures
            r == (Vec2 { x, y }),
    {
        Vec2 { x, y }
    }

    /// Componentwise saturating sum.
    pub fn plus(self, d: Vec2) -> (r: Vec2)
        ensures
            r == self.spec_plus(d),
            r.in_range(),
    {
        Vec2 { x: add_coord(self.x, d.x), y: add_coord(self.y, d.y) }
    }

    /// The opposite offset.
    pub fn negated(self) -> (r: Vec2)
        requires
            self.in_range(),
        ensures
            r == self.spec_negated(),
            r.x == -self.x,
            r.y == -self.y,
            r.in_range(),
    {
        Vec2 { x: -self.x, y: -self.y }
    }

    /// Componentwise clamp into the box spanned by `lo` and `hi`.
    pub fn clamp(self, lo: Vec2, hi: Vec2) -> (r: Vec2)
        requires
            lo.x <= hi.x,
            lo.y <= hi.y,
        ensures
            r == self.spec_clamp(lo, hi),
            lo.x <= r.x <= hi.x,
            lo.y <= r.y <= hi.y,
    {
        Vec2 { x: clamp_coord(self.x, lo.x, hi.x), y: clamp_coord(self.y, lo.y, hi.y) }
    }

    /// Squared Euclidean distance between two points.
    pub fn dist_sq(self, o: Vec2) -> (r: i128)
        ensures
            r as int == self.spec_dist_sq(o),
            r >= 0,
    {
        let dx: i128 = self.x as i128 - o.x as i128;
        let dy: i128 = self.y as i128 - o.y as i128;
        assert(0 <= dx * dx <= 0x1_0000_0000 * 0x1_0000_0000) by (nonlinear_arith)
            requires
                -0x1_0000_0000 <= dx <= 0x1_0000_0000,
        ;
        assert(0 <= dy * dy <= 0x1_0000_0000 * 0x1_0000_0000) by (nonlinear_arith)
            requires
                -0x1_0000_0000 <= dy <= 0x1_0000_0000,
        ;
        dx * dx + dy * dy
    }
}

} // verus!
