//! Evaluation of the curve as a chain of cubic Bezier segments.
//!
//! The segment between two keys has the control points `k0.pos`,
//! `k0.pos + k0.tangent_out`, `k1.pos + k1.tangent_in` and `k1.pos`; the
//! tangents are used as plain offsets. A parameter `t` in `[0, 1]` is given
//! as a fraction `num / den`. Results are exact rationals in fixed-point
//! steps, rounded towards minus infinity.

use vstd::prelude::*;
use crate::geometry::{floor_div, Vec2, UNIT, COORD_MAX};
use crate::key::AnimationKey;
use crate::sequence::{
    all_in_range,
    first_bracket,
    lemma_first_bracket,
    lemma_first_bracket_from,
    sorted_by_x,
    strictly_sorted_by_x,
};

verus! {

/// The Bernstein blend of four control values at `n / d`, times `d^3`.
pub open spec fn bezier_num(p0: int, p1: int, p2: int, p3: int, n: int, d: int) -> int {
    let e = d - n;
    e * e * e * p0 + 3 * (n * (e * e)) * p1 + 3 * (n * n * e) * p2 + n * n * n * p3
}

/// The Bernstein blend of four control values at `n / d`, rounded down.
pub open spec fn bezier_coord(p0: int, p1: int, p2: int, p3: int, n: int, d: int) -> int {
    bezier_num(p0, p1, p2, p3, n, d) / (d * d * d)
}

/// The point at parameter `n / d` of the Bezier segment from `k0` to `k1`.
pub open spec fn spec_evaluate_pair_bezier(k0: AnimationKey, k1: AnimationKey, n: int, d: int) -> (
    int,
    int,
) {
    (
        bezier_coord(
            k0.pos.x as int,
            k0.pos.x + k0.tangent_out.x,
            k1.pos.x + k1.tangent_in.x,
            k1.pos.x as int,
            n,
            d,
        ),
        bezier_coord(
            k0.pos.y as int,
            k0.pos.y + k0.tangent_out.y,
            k1.pos.y + k1.tangent_in.y,
            k1.pos.y as int,
            n,
            d,
        ),
    )
}

/// The value of the curve through `s` at `x`: the first key's y at or
/// before the first key, the last key's y at or behind the last key, and
/// in between the y of the Bezier point whose parameter is the place of
/// `x` between the two keys of the first bracketing pair.
pub open spec fn spec_evaluate(s: Seq<AnimationKey>, x: int) -> int {
    if x <= s.first().pos.x {
        s.first().pos.y as int
    } else if x >= s.last().pos.x {
        s.last().pos.y as int
    } else {
        let i = first_bracket(s, x, 0);
        spec_evaluate_pair_bezier(s[i], s[i + 1], x - s[i].pos.x, s[i + 1].pos.x - s[i].pos.x).1
    }
}

/// The x of the sample number `i` out of `resolution` over the unit interval.
pub open spec fn sample_x(i: int, resolution: int) -> int {
    (i * UNIT) / resolution
}

/// The weights of a Bezier blend are not negative and add up to `d^3`, so
/// the blend of values within `m` lies within `m`.
proof fn lemma_bezier_bound(p0: int, p1: int, p2: int, p3: int, n: int, d: int, m: int)
    requires
        0 <= n <= d,
        d > 0,
        -m <= p0 <= m,
        -m <= p1 <= m,
        -m <= p2 <= m,
        -m <= p3 <= m,
    ensures
        -m * (d * d * d) <= bezier_num(p0, p1, p2, p3, n, d) <= m * (d * d * d),
        d * d * d > 0,
        -m <= bezier_coord(p0, p1, p2, p3, n, d) <= m,
{
    let e = d - n;
    let w0 = e * e * e;
    let w1 = 3 * (n * (e * e));
    let w2 = 3 * (n * n * e);
    let w3 = n * n * n;
    let d3 = d * d * d;
    assert(w0 >= 0 && w1 >= 0 && w2 >= 0 && w3 >= 0) by (nonlinear_arith)
        requires
            e >= 0,
            n >= 0,
            w0 == e * e * e,
            w1 == 3 * (n * (e * e)),
            w2 == 3 * (n * n * e),
            w3 == n * n * n,
    ;
    assert(w0 + w1 + w2 + w3 == d3) by (nonlinear_arith)
        requires
            e == d - n,
            w0 == e * e * e,
            w1 == 3 * (n * (e * e)),
            w2 == 3 * (n * n * e),
            w3 == n * n * n,
            d3 == d * d * d,
    ;
    assert(d3 > 0) by (nonlinear_arith)
        requires
            d > 0,
            d3 == d * d * d,
    ;
    assert(-(m * w0) <= w0 * p0 <= m * w0) by (nonlinear_arith)
        requires
            w0 >= 0,
            -m <= p0 <= m,
    ;
    assert(-(m * w1) <= w1 * p1 <= m * w1) by (nonlinear_arith)
        requires
            w1 >= 0,
            -m <= p1 <= m,
    ;
    assert(-(m * w2) <= w2 * p2 <= m * w2) by (nonlinear_arith)
        requires
            w2 >= 0,
            -m <= p2 <= m,
    ;
    assert(-(m * w3) <= w3 * p3 <= m * w3) by (nonlinear_arith)
        requires
            w3 >= 0,
            -m <= p3 <= m,
    ;
    assert(m * w0 + m * w1 + m * w2 + m * w3 == m * d3) by (nonlinear_arith)
        requires
            w0 + w1 + w2 + w3 == d3,
    ;
    let num = bezier_num(p0, p1, p2, p3, n, d);
    assert(num == w0 * p0 + w1 * p1 + w2 * p2 + w3 * p3);
    assert(m >= 0);
    assert((-m) * d3 == -(m * d3)) by (nonlinear_arith);
    assert(-(m * d3) <= num <= m * d3);
    vstd::arithmetic::div_mod::lemma_fundamental_div_mod(num, d3);
    vstd::arithmetic::div_mod::lemma_mod_bound(num, d3);
    let q = num / d3;
    let r = num % d3;
    assert(-m <= q <= m) by (nonlinear_arith)
        requires
            num == d3 * q + r,
            0 <= r < d3,
            -m * d3 <= num <= m * d3,
            d3 > 0,
    ;
}

/// A Bezier blend starts at its first and ends at its last control value.
pub proof fn lemma_blend_at_ends(p0: int, p1: int, p2: int, p3: int, d: int)
    requires
        d > 0,
    ensures
        bezier_coord(p0, p1, p2, p3, 0, d) == p0,
        bezier_coord(p0, p1, p2, p3, d, d) == p3,
{
    let d3 = d * d * d;
    assert(d3 > 0) by (nonlinear_arith)
        requires
            d > 0,
            d3 == d * d * d,
    ;
    assert(bezier_num(p0, p1, p2, p3, 0, d) == d3 * p0) by (nonlinear_arith)
        requires
            d3 == d * d * d,
    ;
    assert(bezier_num(p0, p1, p2, p3, d, d) == d3 * p3) by (nonlinear_arith)
        requires
            d3 == d * d * d,
    ;
    vstd::arithmetic::div_mod::lemma_div_multiples_vanish(p0, d3);
    vstd::arithmetic::div_mod::lemma_div_multiples_vanish(p3, d3);
}

/// The curve passes through its keys: where the x coordinates increase
/// strictly, the value at a key's x is that key's y.
pub proof fn lemma_curve_passes_through_keys(s: Seq<AnimationKey>, i: int)
    requires
        strictly_sorted_by_x(s),
        0 <= i < s.len(),
    ensures
        spec_evaluate(s, s[i].pos.x as int) == s[i].pos.y,
{
    let x = s[i].pos.x as int;
    if i == 0 {
    } else if i == s.len() - 1 {
        assert(s[0].pos.x < s[i].pos.x);
    } else {
        assert(s[0].pos.x < x);
        assert(x < s[s.len() - 1].pos.x);
        lemma_first_bracket(s, x, 0);
        let b = first_bracket(s, x, 0);
        if b + 1 < i {
            assert(s[b + 1].pos.x < s[i].pos.x);
        }
        if b + 1 > i {
            assert(s[i].pos.x <= s[b].pos.x);
        }
        assert(b == i - 1);
        let k0 = s[i - 1];
        let k1 = s[i];
        lemma_blend_at_ends(
            k0.pos.y as int,
            k0.pos.y + k0.tangent_out.y,
            k1.pos.y + k1.tangent_in.y,
            k1.pos.y as int,
            k1.pos.x - k0.pos.x,
        );
    }
}

/// One coordinate of a Bezier point.
fn blend(p0: i32, p1: i64, p2: i64, p3: i32, num: i32, den: i32) -> (r: i32)
    requires
        0 <= num <= den,
        den > 0,
        -2_000_000 <= p0 <= 2_000_000,
        -2_000_000 <= p1 <= 2_000_000,
        -2_000_000 <= p2 <= 2_000_000,
        -2_000_000 <= p3 <= 2_000_000,
    ensures
        r as int == bezier_coord(p0 as int, p1 as int, p2 as int, p3 as int, num as int, den as int),
        -2_000_000 <= r <= 2_000_000,
{
    let n: i128 = num as i128;
    let d: i128 = den as i128;
    let e: i128 = d - n;
    let ghost lim: int = 0x8000_0000;
    proof {
        assert(0 <= e * e <= lim * lim) by (nonlinear_arith)
            requires
                0 <= e <= lim,
        ;
        assert(0 <= n * n <= lim * lim) by (nonlinear_arith)
            requires
                0 <= n <= lim,
        ;
        assert(0 <= d * d <= lim * lim) by (nonlinear_arith)
            requires
                0 <= d <= lim,
        ;
    }
    let e2: i128 = e * e;
    let n2: i128 = n * n;
    let d2: i128 = d * d;
    proof {
        assert(0 <= e2 * e <= lim * lim * lim) by (nonlinear_arith)
            requires
                0 <= e <= lim,
                0 <= e2 <= lim * lim,
        ;
        assert(0 <= n * e2 <= lim * lim * lim) by (nonlinear_arith)
            requires
                0 <= n <= lim,
                0 <= e2 <= lim * lim,
        ;
        assert(0 <= n2 * e <= lim * lim * lim) by (nonlinear_arith)
            requires
                0 <= e <= lim,
                0 <= n2 <= lim * lim,
        ;
        assert(0 <= n2 * n <= lim * lim * lim) by (nonlinear_arith)
            requires
                0 <= n <= lim,
                0 <= n2 <= lim * lim,
        ;
        assert(0 < d2 * d <= lim * lim * lim) by (nonlinear_arith)
            requires
                0 < d <= lim,
                0 <= d2 <= lim * lim,
                d2 == d * d,
        ;
    }
    let w0: i128 = e2 * e;
    let w1: i128 = 3 * (n * e2);
    let w2: i128 = 3 * (n2 * e);
    let w3: i128 = n2 * n;
    let d3: i128 = d2 * d;
    let ghost big: int = 3 * (lim * lim * lim);
    proof {
        assert(-(big * 2_000_000) <= w0 * p0 <= big * 2_000_000) by (nonlinear_arith)
            requires
                0 <= w0 <= big,
                -2_000_000 <= p0 <= 2_000_000,
        ;
        assert(-(big * 2_000_000) <= w1 * p1 <= big * 2_000_000) by (nonlinear_arith)
            requires
                0 <= w1 <= big,
                -2_000_000 <= p1 <= 2_000_000,
        ;
        assert(-(big * 2_000_000) <= w2 * p2 <= big * 2_000_000) by (nonlinear_arith)
            requires
                0 <= w2 <= big,
                -2_000_000 <= p2 <= 2_000_000,
        ;
        assert(-(big * 2_000_000) <= w3 * p3 <= big * 2_000_000) by (nonlinear_arith)
            requires
                0 <= w3 <= big,
                -2_000_000 <= p3 <= 2_000_000,
        ;
        assert(big * 2_000_000 < 0x1000_0000_0000_0000_0000_0000_0000_0000) by (nonlinear_arith)
            requires
                big == 3 * (lim * lim * lim),
                lim == 0x8000_0000,
        ;
    }
    let total: i128 = w0 * (p0 as i128) + w1 * (p1 as i128) + w2 * (p2 as i128) + w3 * (
    p3 as i128);
    proof {
        assert(e * e * e == e2 * e);
        assert(n * n * e == n2 * e);
        assert(n * n * n == n2 * n);
        assert(d * d * d == d2 * d);
        assert(total as int == bezier_num(
            p0 as int,
            p1 as int,
            p2 as int,
            p3 as int,
            n as int,
            d as int,
        ));
        lemma_bezier_bound(
            p0 as int,
            p1 as int,
            p2 as int,
            p3 as int,
            n as int,
            d as int,
            2_000_000,
        );
    }
    let q: i128 = floor_div(total, d3);
    q as i32
}

/// The point at parameter `num / den` of the cubic Bezier segment from
/// `pt1` to `pt2`, each coordinate rounded towards minus infinity.
pub fn evaluate_pair_bezier(pt1: &AnimationKey, pt2: &AnimationKey, num: i32, den: i32) -> (r: Vec2)
    requires
        pt1.in_range(),
        pt2.in_range(),
        0 <= num <= den,
        den > 0,
    ensures
        (r.x as int, r.y as int) == spec_evaluate_pair_bezier(*pt1, *pt2, num as int, den as int),
        -2 * COORD_MAX <= r.x <= 2 * COORD_MAX,
        -2 * COORD_MAX <= r.y <= 2 * COORD_MAX,
{
    let x = blend(
        pt1.pos.x,
        pt1.pos.x as i64 + pt1.tangent_out.x as i64,
        pt2.pos.x as i64 + pt2.tangent_in.x as i64,
        pt2.pos.x,
        num,
        den,
    );
    let y = blend(
        pt1.pos.y,
        pt1.pos.y as i64 + pt1.tangent_out.y as i64,
        pt2.pos.y as i64 + pt2.tangent_in.y as i64,
        pt2.pos.y,
        num,
        den,
    );
    Vec2 { x, y }
}

/// The value at `time` of the curve through the keys `pts`. At or outside
/// the two end keys it is the y of that end key; in between it is the y of
/// the Bezier segment on the first pair of neighbours that brackets `time`.
pub fn evaluate(pts: &Vec<AnimationKey>, time: i32) -> (y: i32)
    requires
        pts@.len() >= 1,
        sorted_by_x(pts@),
        all_in_range(pts@),
    ensures
        y as int == spec_evaluate(pts@, time as int),
        time <= pts@.first().pos.x ==> y == pts@.first().pos.y,
        time >= pts@.last().pos.x && time > pts@.first().pos.x ==> y == pts@.last().pos.y,
        -2 * COORD_MAX <= y <= 2 * COORD_MAX,
{
    if time <= pts[0].pos.x {
        return pts[0].pos.y;
    }
    if time >= pts[pts.len() - 1].pos.x {
        return pts[pts.len() - 1].pos.y;
    }
    proof {
        lemma_first_bracket(pts@, time as int, 0);
    }
    let n = pts.len();
    let mut index_1: usize = 0;
    while !(pts[index_1].pos.x <= time && pts[index_1 + 1].pos.x >= time)
        invariant
            n == pts@.len(),
            0 <= index_1 < pts@.len() - 1,
            index_1 <= first_bracket(pts@, time as int, 0) < pts@.len() - 1,
            first_bracket(pts@, time as int, index_1 as int) == first_bracket(
                pts@,
                time as int,
                0,
            ),
        decreases pts@.len() - index_1,
    {
        proof {
            lemma_first_bracket_from(pts@, time as int, index_1 + 1);
        }
        index_1 += 1;
    }
    let delta: i32 = pts[index_1 + 1].pos.x - pts[index_1].pos.x;
    let t: i32 = time - pts[index_1].pos.x;
    evaluate_pair_bezier(&pts[index_1], &pts[index_1 + 1], t, delta).y
}

/// Samples of the curve at `curve_resolution + 1` evenly spaced x over the
/// unit interval, first at 0 and last at one unit.
pub fn get_hermite(points: &Vec<AnimationKey>, curve_resolution: usize) -> (pts: Vec<Vec2>)
    requires
        points@.len() >= 1,
        sorted_by_x(points@),
        all_in_range(points@),
        1 <= curve_resolution < usize::MAX,
    ensures
        pts@.len() == curve_resolution + 1,
        forall|i: int|
            0 <= i <= curve_resolution ==> {
                &&& (#[trigger] pts@[i]).x as int == sample_x(i, curve_resolution as int)
                &&& pts@[i].y as int == spec_evaluate(
                    points@,
                    sample_x(i, curve_resolution as int),
                )
            },
{
    let mut pts: Vec<Vec2> = Vec::new();
    let mut i: usize = 0;
    while i <= curve_resolution
        invariant
            0 <= i <= curve_resolution + 1,
            1 <= curve_resolution < usize::MAX,
            points@.len() >= 1,
            sorted_by_x(points@),
            all_in_range(points@),
            pts@.len() == i,
            forall|j: int|
                0 <= j < i ==> {
                    &&& (#[trigger] pts@[j]).x as int == sample_x(j, curve_resolution as int)
                    &&& pts@[j].y as int == spec_evaluate(
                        points@,
                        sample_x(j, curve_resolution as int),
                    )
                },
        decreases curve_resolution + 1 - i,
    {
        let scaled: u128 = (i as u128) * (UNIT as u128);
        let t128: u128 = scaled / (curve_resolution as u128);
        proof {
            let ii = i as int;
            let rr = curve_resolution as int;
            assert(ii * UNIT <= rr * UNIT) by (nonlinear_arith)
                requires
                    ii <= rr,
            ;
            vstd::arithmetic::div_mod::lemma_div_is_ordered(ii * UNIT, rr * UNIT, rr);
            assert(rr * UNIT == UNIT * rr) by (nonlinear_arith);
            vstd::arithmetic::div_mod::lemma_div_multiples_vanish(UNIT as int, rr);
            vstd::arithmetic::div_mod::lemma_div_pos_is_pos(ii * UNIT, rr);
        }
        let t: i32 = t128 as i32;
        let value = evaluate(points, t);
        pts.push(Vec2 { x: t, y: value });
        i += 1;
    }
    pts
}

} // verus!
