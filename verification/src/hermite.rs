//! Piecewise cubic Hermite evaluation of the curve as a function y(x).
//!
//! On the segment between two keys the local parameter is
//! `t = (x - x0) / (x1 - x0)`, and the value is
//! `y0 * h00(t) + m0 * h10(t) + y1 * h01(t) + m1 * h11(t)` with the basis
//! polynomials `h00 = 2t^3 - 3t^2 + 1`, `h10 = t^3 - 2t^2 + t`,
//! `h01 = -2t^3 + 3t^2`, `h11 = t^3 - t^2`. The slope `m0` is that of the
//! first key's outgoing tangent, `m1` that of the second key's incoming
//! tangent, each taken as `y / x` of the offset. The result is the exact
//! rational value in fixed-point steps, rounded towards minus infinity.

use vstd::prelude::*;
use crate::geometry::{floor_div, UNIT};
use crate::key::AnimationKey;
use crate::sequence::{
    all_in_range,
    first_bracket,
    lemma_first_bracket,
    lemma_first_bracket_from,
    sorted_by_x,
    strictly_sorted_by_x,
};

verus! {

/// `h00(n / d)` times `d^3`.
pub open spec fn h00(n: int, d: int) -> int {
    2 * (n * n * n) - 3 * (n * n * d) + d * d * d
}

/// `h10(n / d)` times `d^3`.
pub open spec fn h10(n: int, d: int) -> int {
    n * n * n - 2 * (n * n * d) + n * d * d
}

/// `h01(n / d)` times `d^3`.
pub open spec fn h01(n: int, d: int) -> int {
    3 * (n * n * d) - 2 * (n * n * n)
}

/// `h11(n / d)` times `d^3`.
pub open spec fn h11(n: int, d: int) -> int {
    n * n * n - n * n * d
}

/// The rational `num / den`, rounded towards minus infinity.
pub open spec fn floor_ratio(num: int, den: int) -> int {
    if den > 0 {
        num / den
    } else {
        (-num) / (-den)
    }
}

/// Numerator of the Hermite value at `x` between `k0` and `k1`, over
/// `hermite_den`.
pub open spec fn hermite_num(k0: AnimationKey, k1: AnimationKey, x: int) -> int {
    let n = x - k0.pos.x;
    let d = k1.pos.x - k0.pos.x;
    k0.tangent_out.x * k1.tangent_in.x * (k0.pos.y * h00(n, d) + k1.pos.y * h01(n, d)) + UNIT * (
    k0.tangent_out.y * k1.tangent_in.x * h10(n, d) + k1.tangent_in.y * k0.tangent_out.x * h11(
        n,
        d,
    ))
}

/// Common denominator of the Hermite value between `k0` and `k1`.
pub open spec fn hermite_den(k0: AnimationKey, k1: AnimationKey) -> int {
    let d = k1.pos.x - k0.pos.x;
    k0.tangent_out.x * k1.tangent_in.x * (d * d * d)
}

/// The Hermite value at `x` on the segment from `k0` to `k1`; none where
/// one of the two tangents that shape the segment is vertical.
pub open spec fn spec_evaluate_pair(k0: AnimationKey, k1: AnimationKey, x: int) -> Option<int> {
    if k0.tangent_out.x == 0 || k1.tangent_in.x == 0 {
        None
    } else {
        Some(floor_ratio(hermite_num(k0, k1, x), hermite_den(k0, k1)))
    }
}

/// The value of the curve through `s` at `x`: the first key's y at or
/// before the first key, the last key's y at or behind the last key, and
/// the Hermite value on the first bracketing segment in between.
pub open spec fn spec_evaluate(s: Seq<AnimationKey>, x: int) -> Option<int> {
    if x <= s.first().pos.x {
        Some(s.first().pos.y as int)
    } else if x >= s.last().pos.x {
        Some(s.last().pos.y as int)
    } else {
        let i = first_bracket(s, x, 0);
        spec_evaluate_pair(s[i], s[i + 1], x)
    }
}

/// Bounds of a product from bounds of its factors.
proof fn lemma_mul_bound(a: int, b: int, ma: int, mb: int)
    requires
        -ma <= a <= ma,
        -mb <= b <= mb,
    ensures
        -(ma * mb) <= a * b <= ma * mb,
{
    assert(-(ma * mb) <= a * b <= ma * mb) by (nonlinear_arith)
        requires
            -ma <= a <= ma,
            -mb <= b <= mb,
    ;
}

/// Bounds of a product of two factors that are not negative.
proof fn lemma_mul_nonneg(a: int, b: int, ma: int, mb: int)
    requires
        0 <= a <= ma,
        0 <= b <= mb,
    ensures
        0 <= a * b <= ma * mb,
{
    assert(0 <= a * b <= ma * mb) by (nonlinear_arith)
        requires
            0 <= a <= ma,
            0 <= b <= mb,
    ;
}

/// The absolute value of `x`.
pub open spec fn abs(x: int) -> int {
    if x < 0 {
        -x
    } else {
        x
    }
}

/// A quotient by a positive number lies within `k` where the dividend lies
/// within `k` times the divisor.
proof fn lemma_floor_bound(num: int, den: int, k: int)
    requires
        den > 0,
        k >= 0,
        -k * den <= num <= k * den,
    ensures
        -k <= num / den <= k,
{
    vstd::arithmetic::div_mod::lemma_fundamental_div_mod(num, den);
    vstd::arithmetic::div_mod::lemma_mod_bound(num, den);
    let q = num / den;
    let r = num % den;
    assert(-k <= q <= k) by (nonlinear_arith)
        requires
            num == den * q + r,
            0 <= r < den,
            -k * den <= num <= k * den,
            den > 0,
    ;
}

/// The basis polynomials in factored form, with `e = d - n`.
proof fn lemma_basis_factored(n: int, d: int)
    ensures
        h00(n, d) == (d - n) * (d - n) * (d + 2 * n),
        h01(n, d) == n * n * (3 * d - 2 * n),
        h10(n, d) == n * ((d - n) * (d - n)),
        h11(n, d) == -(n * n * (d - n)),
{
    assert(h00(n, d) == (d - n) * (d - n) * (d + 2 * n)) by (nonlinear_arith);
    assert(h01(n, d) == n * n * (3 * d - 2 * n)) by (nonlinear_arith);
    assert(h10(n, d) == n * ((d - n) * (d - n))) by (nonlinear_arith);
    assert(h11(n, d) == -(n * n * (d - n))) by (nonlinear_arith);
}

/// The Hermite value at `time` on the segment from `pt1` to `pt2`, rounded
/// towards minus infinity; none where the outgoing tangent of `pt1` or the
/// incoming tangent of `pt2` is vertical, so that no slope exists.
pub fn evaluate_pair(pt1: &AnimationKey, pt2: &AnimationKey, time: i32) -> (r: Option<i64>)
    requires
        pt1.in_range(),
        pt2.in_range(),
        pt1.pos.x < pt2.pos.x,
        pt1.pos.x <= time <= pt2.pos.x,
    ensures
        match r {
            Some(y) => spec_evaluate_pair(*pt1, *pt2, time as int) == Some(y as int),
            None => spec_evaluate_pair(*pt1, *pt2, time as int) is None,
        },
        r is None <==> pt1.tangent_out.x == 0 || pt2.tangent_in.x == 0,
        r matches Some(y) ==> -20_006_000_000 <= y <= 20_006_000_000,
{
    let tx0: i128 = pt1.tangent_out.x as i128;
    let ty0: i128 = pt1.tangent_out.y as i128;
    let tx1: i128 = pt2.tangent_in.x as i128;
    let ty1: i128 = pt2.tangent_in.y as i128;
    if tx0 == 0 || tx1 == 0 {
        return None;
    }
    let y0: i128 = pt1.pos.y as i128;
    let y1: i128 = pt2.pos.y as i128;
    let n: i128 = time as i128 - pt1.pos.x as i128;
    let d: i128 = pt2.pos.x as i128 - pt1.pos.x as i128;
    let e: i128 = d - n;
    let ghost m: int = 1_000_000;
    let ghost w: int = 2_000_000;
    proof {
        lemma_mul_nonneg(n as int, n as int, w, w);
        lemma_mul_nonneg(e as int, e as int, w, w);
        lemma_mul_nonneg(d as int, d as int, w, w);
    }
    let n2: i128 = n * n;
    let e2: i128 = e * e;
    let d2: i128 = d * d;
    proof {
        lemma_mul_nonneg(d2 as int, d as int, w * w, w);
        lemma_mul_nonneg(e2 as int, (d + 2 * n) as int, w * w, 3 * w);
        lemma_mul_nonneg(n2 as int, (3 * d - 2 * n) as int, w * w, 3 * w);
        lemma_mul_nonneg(n as int, e2 as int, w, w * w);
        lemma_mul_nonneg(n2 as int, e as int, w * w, w);
    }
    let d3: i128 = d2 * d;
    let a: i128 = e2 * (d + 2 * n);
    let b: i128 = n2 * (3 * d - 2 * n);
    let c: i128 = n * e2;
    let f: i128 = n2 * e;
    proof {
        lemma_mul_bound(y0 as int, a as int, m, w * w * (3 * w));
        lemma_mul_bound(y1 as int, b as int, m, w * w * (3 * w));
        lemma_mul_bound(tx0 as int, tx1 as int, m, m);
        lemma_mul_bound(ty0 as int, tx1 as int, m, m);
        lemma_mul_bound(ty1 as int, tx0 as int, m, m);
    }
    let yy: i128 = y0 * a + y1 * b;
    let txx: i128 = tx0 * tx1;
    let u0: i128 = ty0 * tx1;
    let u1: i128 = ty1 * tx0;
    proof {
        lemma_mul_bound(txx as int, yy as int, m * m, 2 * (m * (w * w * (3 * w))));
        lemma_mul_bound(u0 as int, c as int, m * m, w * (w * w));
        lemma_mul_bound(u1 as int, f as int, m * m, w * w * w);
        lemma_mul_bound(txx as int, d3 as int, m * m, w * w * w);
        assert(txx != 0) by (nonlinear_arith)
            requires
                txx == tx0 * tx1,
                tx0 != 0,
                tx1 != 0,
        ;
        assert(d3 > 0) by (nonlinear_arith)
            requires
                d3 == d2 * d,
                d2 == d * d,
                d > 0,
        ;
        assert(txx * d3 != 0) by (nonlinear_arith)
            requires
                txx != 0,
                d3 > 0,
        ;
    }
    let p1: i128 = txx * yy;
    let s0: i128 = u0 * c;
    let s1: i128 = u1 * f;
    let inner: i128 = s0 - s1;
    proof {
        lemma_mul_bound(UNIT as int, inner as int, 10_000, 2 * (m * m * (w * w * w)));
    }
    let p2: i128 = (UNIT as i128) * inner;
    let num: i128 = p1 + p2;
    let den: i128 = txx * d3;
    proof {
        let ni = n as int;
        let di = d as int;
        lemma_basis_factored(ni, di);
        assert(a as int == h00(ni, di));
        assert(b as int == h01(ni, di));
        assert(c as int == h10(ni, di));
        assert(f as int == -h11(ni, di));
        assert(d3 as int == di * di * di);
        assert(u1 * h11(ni, di) == -(u1 * f)) by (nonlinear_arith)
            requires
                f as int == -h11(ni, di),
        ;
        assert(num as int == hermite_num(*pt1, *pt2, time as int)) by {
            assert(UNIT * (u0 * c - u1 * f) == UNIT * (u0 * h10(ni, di) + u1 * h11(ni, di)));
        }
        assert(den as int == hermite_den(*pt1, *pt2));
    }
    proof {
        let d3i = d3 as int;
        let t = abs(tx0 as int) * abs(tx1 as int);
        lemma_mul_nonneg(e as int, e as int, d as int, d as int);
        lemma_mul_nonneg(n as int, n as int, d as int, d as int);
        lemma_mul_nonneg(e2 as int, (d + 2 * n) as int, d2 as int, 3 * d);
        lemma_mul_nonneg(n2 as int, (3 * d - 2 * n) as int, d2 as int, 3 * d);
        lemma_mul_nonneg(n as int, e2 as int, d as int, d2 as int);
        lemma_mul_nonneg(n2 as int, e as int, d2 as int, d as int);
        assert(d2 * (3 * d) == 3 * d3i && d * d2 == d3i) by (nonlinear_arith)
            requires
                d3i == d2 * d,
        ;
        lemma_mul_bound(y0 as int, a as int, m, a as int);
        lemma_mul_bound(y1 as int, b as int, m, b as int);
        assert(-3_000_000 * d3i <= y0 * a <= 3_000_000 * d3i) by (nonlinear_arith)
            requires
                -(m * a) <= y0 * a <= m * a,
                0 <= a <= 3 * d3i,
                m == 1_000_000,
        ;
        assert(-3_000_000 * d3i <= y1 * b <= 3_000_000 * d3i) by (nonlinear_arith)
            requires
                -(m * b) <= y1 * b <= m * b,
                0 <= b <= 3 * d3i,
                m == 1_000_000,
        ;
        assert(6 * m * d3i == 6_000_000 * d3i);
        assert(abs(txx as int) == t && t >= 1 && abs(tx1 as int) <= t && abs(tx0 as int) <= t)
            by (nonlinear_arith)
            requires
                txx == tx0 * tx1,
                tx0 != 0,
                tx1 != 0,
                t == abs(tx0 as int) * abs(tx1 as int),
        ;
        lemma_mul_bound(txx as int, yy as int, t, 6 * m * d3i);
        lemma_mul_bound(ty0 as int, tx1 as int, m, abs(tx1 as int));
        lemma_mul_bound(ty1 as int, tx0 as int, m, abs(tx0 as int));
        assert(m * abs(tx1 as int) <= m * t && m * abs(tx0 as int) <= m * t) by (nonlinear_arith)
            requires
                abs(tx1 as int) <= t,
                abs(tx0 as int) <= t,
                m == 1_000_000,
        ;
        lemma_mul_bound(u0 as int, c as int, m * t, d3i);
        lemma_mul_bound(u1 as int, f as int, m * t, d3i);
        lemma_mul_bound(UNIT as int, inner as int, 10_000, 2 * (m * t * d3i));
        let td = t * d3i;
        assert(t * (6 * m * d3i) == 6_000_000 * td && 10_000 * (2 * (m * t * d3i))
            == 20_000_000_000 * td) by (nonlinear_arith)
            requires
                td == t * d3i,
                m == 1_000_000,
        ;
        assert(-20_006_000_000 * td <= num <= 20_006_000_000 * td);
        assert(td > 0) by (nonlinear_arith)
            requires
                t >= 1,
                d3i > 0,
                td == t * d3i,
        ;
        if txx > 0 {
            assert(den as int == td);
        } else {
            assert(-(txx * d3) == (-txx) * d3) by (nonlinear_arith);
            assert(-den == td);
        }
    }
    let q: i128 = if den > 0 {
        floor_div(num, den)
    } else {
        floor_div(-num, -den)
    };
    proof {
        let nn: int = if den > 0 {
            num as int
        } else {
            -num
        };
        let dd = abs(den as int);
        lemma_floor_bound(nn, dd, 20_006_000_000);
    }
    Some(q as i64)
}

/// The value at `time` of the curve through the keys `pts`. At or outside
/// the two end keys it is the y of that end key. In between it is the
/// Hermite value on the first pair of neighbours that brackets `time`,
/// none where a tangent of that pair is vertical.
pub fn evaluate(pts: &Vec<AnimationKey>, time: i32) -> (r: Option<i64>)
    requires
        pts@.len() >= 1,
        sorted_by_x(pts@),
        all_in_range(pts@),
    ensures
        match r {
            Some(y) => spec_evaluate(pts@, time as int) == Some(y as int),
            None => spec_evaluate(pts@, time as int) is None,
        },
        time <= pts@.first().pos.x ==> r == Some(pts@.first().pos.y as i64),
        time >= pts@.last().pos.x && time > pts@.first().pos.x ==> r == Some(
            pts@.last().pos.y as i64,
        ),
        r is None <==> pts@.first().pos.x < time < pts@.last().pos.x && (pts@[first_bracket(
            pts@,
            time as int,
            0,
        )].tangent_out.x == 0 || pts@[first_bracket(pts@, time as int, 0) + 1].tangent_in.x == 0),
{
    if time <= pts[0].pos.x {
        return Some(pts[0].pos.y as i64);
    }
    if time >= pts[pts.len() - 1].pos.x {
        return Some(pts[pts.len() - 1].pos.y as i64);
    }
    proof {
        lemma_first_bracket(pts@, time as int, 0);
    }
    let n = pts.len();
    let mut index_1: usize = 0;
    while !(pts[index_1].pos.x <= time && pts[index_1 + 1].pos.x >= time)
        invariant
            n == pts@.len(),
            0 <= index_1 < pts@.len() - 1,
            index_1 <= first_bracket(pts@, time as int, 0) < pts@.len() - 1,
            first_bracket(pts@, time as int, index_1 as int) == first_bracket(
                pts@,
                time as int,
                0,
            ),
        decreases pts@.len() - index_1,
    {
        proof {
            lemma_first_bracket_from(pts@, time as int, index_1 + 1);
        }
        index_1 += 1;
    }
    evaluate_pair(&pts[index_1], &pts[index_1 + 1], time)
}

/// At the x of its second key a segment has exactly that key's y, and at
/// the x of its first key exactly the first key's y.
pub proof fn lemma_pair_at_ends(k0: AnimationKey, k1: AnimationKey)
    requires
        k0.pos.x < k1.pos.x,
        k0.tangent_out.x != 0,
        k1.tangent_in.x != 0,
    ensures
        spec_evaluate_pair(k0, k1, k1.pos.x as int) == Some(k1.pos.y as int),
        spec_evaluate_pair(k0, k1, k0.pos.x as int) == Some(k0.pos.y as int),
{
    let d = k1.pos.x - k0.pos.x;
    let t = k0.tangent_out.x * k1.tangent_in.x;
    let d3 = d * d * d;
    let den = hermite_den(k0, k1);
    assert(h00(d, d) == 0 && h10(d, d) == 0 && h11(d, d) == 0 && h01(d, d) == d3)
        by (nonlinear_arith)
        requires
            d3 == d * d * d,
    ;
    assert(h00(0, d) == d3 && h10(0, d) == 0 && h11(0, d) == 0 && h01(0, d) == 0)
        by (nonlinear_arith)
        requires
            d3 == d * d * d,
    ;
    assert(den == t * d3);
    assert(den != 0) by (nonlinear_arith)
        requires
            den == t * d3,
            t == k0.tangent_out.x * k1.tangent_in.x,
            k0.tangent_out.x != 0,
            k1.tangent_in.x != 0,
            d3 == d * d * d,
            d > 0,
    ;
    let y1 = k1.pos.y as int;
    let y0 = k0.pos.y as int;
    assert(hermite_num(k0, k1, k1.pos.x as int) == y1 * den) by (nonlinear_arith)
        requires
            hermite_num(k0, k1, k1.pos.x as int) == t * (k0.pos.y * 0 + y1 * d3) + UNIT * (
            k0.tangent_out.y * k1.tangent_in.x * 0 + k1.tangent_in.y * k0.tangent_out.x * 0),
            den == t * d3,
    ;
    assert(hermite_num(k0, k1, k0.pos.x as int) == y0 * den) by (nonlinear_arith)
        requires
            hermite_num(k0, k1, k0.pos.x as int) == t * (y0 * d3 + k1.pos.y * 0) + UNIT * (
            k0.tangent_out.y * k1.tangent_in.x * 0 + k1.tangent_in.y * k0.tangent_out.x * 0),
            den == t * d3,
    ;
    lemma_floor_ratio_of_multiple(y1, den);
    lemma_floor_ratio_of_multiple(y0, den);
}

/// The rounded ratio of a multiple of `den` to `den` is the factor.
proof fn lemma_floor_ratio_of_multiple(y: int, den: int)
    requires
        den != 0,
    ensures
        floor_ratio(y * den, den) == y,
{
    if den > 0 {
        assert(y * den == den * y) by (nonlinear_arith);
        vstd::arithmetic::div_mod::lemma_div_multiples_vanish(y, den);
    } else {
        assert(-(y * den) == (-den) * y) by (nonlinear_arith);
        vstd::arithmetic::div_mod::lemma_div_multiples_vanish(y, -den);
    }
}

/// The curve passes through its keys: where the x coordinates increase
/// strictly, the value at a key's x is that key's y, provided the two
/// tangents of the segment that ends at the key are not vertical.
pub proof fn lemma_curve_passes_through_keys(s: Seq<AnimationKey>, i: int)
    requires
        strictly_sorted_by_x(s),
        0 <= i < s.len(),
        0 < i < s.len() - 1 ==> s[i - 1].tangent_out.x != 0 && s[i].tangent_in.x != 0,
    ensures
        spec_evaluate(s, s[i].pos.x as int) == Some(s[i].pos.y as int),
{
    let x = s[i].pos.x as int;
    if i == 0 {
    } else if i == s.len() - 1 {
        assert(s[0].pos.x < s[i].pos.x);
    } else {
        assert(s[0].pos.x < x);
        assert(x < s[s.len() - 1].pos.x);
        lemma_first_bracket(s, x, 0);
        let b = first_bracket(s, x, 0);
        // the bracket is the segment that ends at key i
        if b + 1 < i {
            assert(s[b + 1].pos.x < s[i].pos.x);
        }
        if b + 1 > i {
            assert(s[i].pos.x <= s[b].pos.x);
        }
        assert(b == i - 1);
        lemma_pair_at_ends(s[i - 1], s[i]);
    }
}

} // verus!
