//! Enclosure: an interval operation holds every result of the operation on
//! members of its operands.
use vstd::prelude::*;
use crate::exact_math::interval::{
    iv_add, iv_div, iv_div_ok, iv_has, iv_mul, iv_neg, iv_recip, iv_sub, iv_wf,
    lemma_min_max_bounds, lemma_mul_denom, lemma_reduced_le, q_max, q_min, q_recip, reduced,
};
use crate::exact_math::rational::{
    in_lowest_terms, lemma_lowest_terms_canonical, lemma_normalize, lemma_q_add_monotone,
    lemma_q_le_trans, lemma_q_sub_monotone, lemma_regroup, normalize, q_add, q_div, q_le, q_mul,
    q_sub, same_value,
};

verus! {

/// Scaling by a non-negative factor keeps `<=`; by a non-positive one it
/// reverses it.
proof fn lemma_scale_signed(u: int, v: int, k: int)
    requires
        u <= v,
    ensures
        k >= 0 ==> u * k <= v * k && k * u <= k * v,
        k <= 0 ==> v * k <= u * k && k * v <= k * u,
{
    if k >= 0 {
        assert(u * k <= v * k && k * u <= k * v) by (nonlinear_arith)
            requires
                u <= v,
                k >= 0,
        ;
    } else {
        assert(v * k <= u * k && k * v <= k * u) by (nonlinear_arith)
            requires
                u <= v,
                k < 0,
        ;
    }
}

/// Multiplying both sides of `p <= q` on the right by `y` keeps the order
/// when `y >= 0` and reverses it when `y <= 0`.
proof fn lemma_q_mul_mono_right(p: (int, int), q: (int, int), y: (int, int))
    requires
        p.1 > 0,
        q.1 > 0,
        y.1 > 0,
        q_le(p, q),
    ensures
        y.0 >= 0 ==> q_le(q_mul(p, y), q_mul(q, y)),
        y.0 <= 0 ==> q_le(q_mul(q, y), q_mul(p, y)),
{
    let k = y.0 * y.1;
    assert(y.0 >= 0 ==> k >= 0) by (nonlinear_arith)
        requires
            y.1 > 0,
            k == y.0 * y.1,
    ;
    assert(y.0 <= 0 ==> k <= 0) by (nonlinear_arith)
        requires
            y.1 > 0,
            k == y.0 * y.1,
    ;
    lemma_regroup(p.0, y.0, q.1, y.1);
    lemma_regroup(q.0, y.0, p.1, y.1);
    lemma_scale_signed(p.0 * q.1, q.0 * p.1, k);
}

/// Multiplying both sides of `p <= q` on the left by `z` keeps the order
/// when `z >= 0` and reverses it when `z <= 0`.
proof fn lemma_q_mul_mono_left(z: (int, int), p: (int, int), q: (int, int))
    requires
        p.1 > 0,
        q.1 > 0,
        z.1 > 0,
        q_le(p, q),
    ensures
        z.0 >= 0 ==> q_le(q_mul(z, p), q_mul(z, q)),
        z.0 <= 0 ==> q_le(q_mul(z, q), q_mul(z, p)),
{
    let k = z.0 * z.1;
    assert(z.0 >= 0 ==> k >= 0) by (nonlinear_arith)
        requires
            z.1 > 0,
            k == z.0 * z.1,
    ;
    assert(z.0 <= 0 ==> k <= 0) by (nonlinear_arith)
        requires
            z.1 > 0,
            k == z.0 * z.1,
    ;
    lemma_regroup(z.0, p.0, z.1, q.1);
    lemma_regroup(z.0, q.0, z.1, p.1);
    lemma_scale_signed(p.0 * q.1, q.0 * p.1, k);
}

/// For `y` in `[b0, b1]`, `z * y` lies between the smaller and the larger
/// of the reduced products `z * b0` and `z * b1`.
proof fn lemma_mul_between_right(
    z: (int, int),
    b: ((int, int), (int, int)),
    y: (int, int),
)
    requires
        z.1 > 0,
        b.0.1 > 0,
        b.1.1 > 0,
        y.1 > 0,
        iv_has(b, y),
    ensures
        q_le(q_min(reduced(q_mul(z, b.0)), reduced(q_mul(z, b.1))), q_mul(z, y)),
        q_le(q_mul(z, y), q_max(reduced(q_mul(z, b.0)), reduced(q_mul(z, b.1)))),
{
    let c0 = q_mul(z, b.0);
    let c1 = q_mul(z, b.1);
    let m = q_mul(z, y);
    lemma_mul_denom(z, b.0);
    lemma_mul_denom(z, b.1);
    lemma_mul_denom(z, y);
    lemma_q_mul_mono_left(z, b.0, y);
    lemma_q_mul_mono_left(z, y, b.1);
    lemma_reduced_le(c0, m);
    lemma_reduced_le(c1, m);
    lemma_reduced_le(m, c0);
    lemma_reduced_le(m, c1);
    lemma_min_max_bounds(reduced(c0), reduced(c1));
    if z.0 >= 0 {
        lemma_q_le_trans(q_min(reduced(c0), reduced(c1)), reduced(c0), m);
        lemma_q_le_trans(m, reduced(c1), q_max(reduced(c0), reduced(c1)));
    } else {
        lemma_q_le_trans(q_min(reduced(c0), reduced(c1)), reduced(c1), m);
        lemma_q_le_trans(m, reduced(c0), q_max(reduced(c0), reduced(c1)));
    }
}

/// The least of the four corners is not above any of them, the greatest not
/// below any of them.
proof fn lemma_corner_bounds(ac: (int, int), ad: (int, int), bc: (int, int), bd: (int, int))
    requires
        ac.1 > 0,
        ad.1 > 0,
        bc.1 > 0,
        bd.1 > 0,
    ensures
        q_le(q_min(q_min(q_min(ac, ad), bc), bd), q_min(ac, ad)),
        q_le(q_min(q_min(q_min(ac, ad), bc), bd), q_min(bc, bd)),
        q_le(q_max(ac, ad), q_max(q_max(q_max(ac, ad), bc), bd)),
        q_le(q_max(bc, bd), q_max(q_max(q_max(ac, ad), bc), bd)),
{
    let m1 = q_min(ac, ad);
    let m2 = q_min(m1, bc);
    let m3 = q_min(m2, bd);
    let n1 = q_max(ac, ad);
    let n2 = q_max(n1, bc);
    let n3 = q_max(n2, bd);
    lemma_min_max_bounds(ac, ad);
    lemma_min_max_bounds(m1, bc);
    lemma_min_max_bounds(m2, bd);
    lemma_min_max_bounds(n1, bc);
    lemma_min_max_bounds(n2, bd);
    lemma_min_max_bounds(bc, bd);
    lemma_q_le_trans(m3, m2, m1);
    lemma_q_le_trans(m3, m2, bc);
    lemma_q_le_trans(n1, n2, n3);
    lemma_q_le_trans(bc, n2, n3);
}

/// Interval addition encloses every sum: for `x` in `a` and `y` in `b`,
/// `x + y` lies in `a + b`.
pub proof fn lemma_add_encloses(
    a: ((int, int), (int, int)),
    b: ((int, int), (int, int)),
    x: (int, int),
    y: (int, int),
)
    requires
        iv_wf(a),
        iv_wf(b),
        x.1 > 0,
        y.1 > 0,
        iv_has(a, x),
        iv_has(b, y),
    ensures
        iv_has(iv_add(a, b), reduced(q_add(x, y))),
{
    let s = q_add(x, y);
    assert(s.1 > 0 && q_add(a.0, b.0).1 > 0 && q_add(a.1, b.1).1 > 0) by (nonlinear_arith)
        requires
            x.1 > 0,
            y.1 > 0,
            a.0.1 > 0,
            a.1.1 > 0,
            b.0.1 > 0,
            b.1.1 > 0,
            s == q_add(x, y),
    ;
    lemma_q_add_monotone(a.0, b.0, x, y);
    lemma_q_add_monotone(x, y, a.1, b.1);
    lemma_reduced_le(q_add(a.0, b.0), s);
    lemma_reduced_le(s, q_add(a.1, b.1));
}

/// Interval subtraction encloses every difference: for `x` in `a` and `y`
/// in `b`, `x - y` lies in `a - b`.
pub proof fn lemma_sub_encloses(
    a: ((int, int), (int, int)),
    b: ((int, int), (int, int)),
    x: (int, int),
    y: (int, int),
)
    requires
        iv_wf(a),
        iv_wf(b),
        x.1 > 0,
        y.1 > 0,
        iv_has(a, x),
        iv_has(b, y),
    ensures
        iv_has(iv_sub(a, b), reduced(q_sub(x, y))),
{
    let s = q_sub(x, y);
    assert(s.1 > 0 && q_sub(a.0, b.1).1 > 0 && q_sub(a.1, b.0).1 > 0) by (nonlinear_arith)
        requires
            x.1 > 0,
            y.1 > 0,
            a.0.1 > 0,
            a.1.1 > 0,
            b.0.1 > 0,
            b.1.1 > 0,
            s == q_sub(x, y),
    ;
    lemma_q_sub_monotone(a.0, b.1, x, y);
    lemma_q_sub_monotone(x, y, a.1, b.0);
    lemma_reduced_le(q_sub(a.0, b.1), s);
    lemma_reduced_le(s, q_sub(a.1, b.0));
}

/// Interval negation encloses every negation: for `x` in `a`, `-x` lies in
/// `-a`.
pub proof fn lemma_neg_encloses(a: ((int, int), (int, int)), x: (int, int))
    requires
        iv_wf(a),
        x.1 > 0,
        iv_has(a, x),
    ensures
        iv_has(iv_neg(a), (-x.0, x.1)),
{
    assert((-a.1.0) * x.1 <= (-x.0) * a.1.1) by (nonlinear_arith)
        requires
            x.0 * a.1.1 <= a.1.0 * x.1,
    ;
    assert((-x.0) * a.0.1 <= (-a.0.0) * x.1) by (nonlinear_arith)
        requires
            a.0.0 * x.1 <= x.0 * a.0.1,
    ;
}

/// Interval multiplication encloses every product: for `x` in `a` and `y`
/// in `b`, `x * y` lies in `a * b`.
pub proof fn lemma_mul_encloses(
    a: ((int, int), (int, int)),
    b: ((int, int), (int, int)),
    x: (int, int),
    y: (int, int),
)
    requires
        iv_wf(a),
        iv_wf(b),
        x.1 > 0,
        y.1 > 0,
        iv_has(a, x),
        iv_has(b, y),
    ensures
        iv_has(iv_mul(a, b), reduced(q_mul(x, y))),
{
    let m = q_mul(x, y);
    let ac = reduced(q_mul(a.0, b.0));
    let ad = reduced(q_mul(a.0, b.1));
    let bc = reduced(q_mul(a.1, b.0));
    let bd = reduced(q_mul(a.1, b.1));
    let lo = iv_mul(a, b).0;
    let hi = iv_mul(a, b).1;
    lemma_mul_denom(x, y);
    lemma_mul_denom(a.0, y);
    lemma_mul_denom(a.1, y);
    lemma_mul_denom(a.0, b.0);
    lemma_mul_denom(a.0, b.1);
    lemma_mul_denom(a.1, b.0);
    lemma_mul_denom(a.1, b.1);
    lemma_corner_bounds(ac, ad, bc, bd);
    lemma_min_max_bounds(ac, ad);
    lemma_min_max_bounds(bc, bd);
    // x * y lies between a.0 * y and a.1 * y, in an order given by the sign of y.
    lemma_q_mul_mono_right(a.0, x, y);
    lemma_q_mul_mono_right(x, a.1, y);
    // each of a.0 * y and a.1 * y lies between its two corners.
    lemma_mul_between_right(a.0, b, y);
    lemma_mul_between_right(a.1, b, y);
    let p0 = q_mul(a.0, y);
    let p1 = q_mul(a.1, y);
    let mn0 = q_min(ac, ad);
    let mx0 = q_max(ac, ad);
    let mn1 = q_min(bc, bd);
    let mx1 = q_max(bc, bd);
    lemma_q_le_trans(lo, mn0, p0);
    lemma_q_le_trans(lo, mn1, p1);
    lemma_q_le_trans(p0, mx0, hi);
    lemma_q_le_trans(p1, mx1, hi);
    if y.0 >= 0 {
        lemma_q_le_trans(lo, p0, m);
        lemma_q_le_trans(m, p1, hi);
    } else {
        lemma_q_le_trans(lo, p1, m);
        lemma_q_le_trans(m, p0, hi);
    }
    lemma_reduced_le(m, hi);
    lemma_reduced_le(lo, m);
}

/// Equal value is transitive through a fraction with a non-zero
/// denominator.
proof fn lemma_same_value_trans(p: (int, int), q: (int, int), r: (int, int))
    requires
        q.1 != 0,
        same_value(p, q),
        same_value(q, r),
    ensures
        same_value(p, r),
{
    lemma_regroup(p.0, q.1, r.1, 1);
    assert((p.0 * r.1) * q.1 == (r.0 * p.1) * q.1) by (nonlinear_arith)
        requires
            p.0 * q.1 == q.0 * p.1,
            q.0 * r.1 == r.0 * q.1,
    ;
    assert(p.0 * r.1 == r.0 * p.1) by (nonlinear_arith)
        requires
            (p.0 * r.1) * q.1 == (r.0 * p.1) * q.1,
            q.1 != 0,
    ;
}

/// Taking reciprocals reverses `<=` between two numbers of the same sign.
proof fn lemma_recip_antitone(p: (int, int), q: (int, int))
    requires
        p.1 > 0,
        q.1 > 0,
        q_le(p, q),
        (p.0 > 0 && q.0 > 0) || (p.0 < 0 && q.0 < 0),
    ensures
        q_recip(p).1 > 0,
        q_recip(q).1 > 0,
        q_le(q_recip(q), q_recip(p)),
{
    let rp = q_recip(p);
    let rq = q_recip(q);
    lemma_normalize(p.1, p.0);
    lemma_normalize(q.1, q.0);
    let s = p.0 * q.0;
    let k = rq.1 * rp.1;
    assert(s > 0 && k > 0) by (nonlinear_arith)
        requires
            (p.0 > 0 && q.0 > 0) || (p.0 < 0 && q.0 < 0),
            rp.1 > 0,
            rq.1 > 0,
            s == p.0 * q.0,
            k == rq.1 * rp.1,
    ;
    // rq.0 * q.0 == q.1 * rq.1 and rp.0 * p.0 == p.1 * rp.1
    lemma_regroup(rq.0, rp.1, p.0, q.0);
    lemma_regroup(rq.0, q.0, rp.1, p.0);
    lemma_regroup(q.1, rq.1, rp.1, p.0);
    lemma_regroup(rp.0, rq.1, p.0, q.0);
    lemma_regroup(rp.0, p.0, rq.1, q.0);
    lemma_regroup(p.1, rp.1, rq.1, q.0);
    assert((rq.0 * rp.1) * s == (q.1 * p.0) * k) by (nonlinear_arith)
        requires
            rq.0 * q.0 == q.1 * rq.1,
            s == p.0 * q.0,
            k == rq.1 * rp.1,
    ;
    assert((rp.0 * rq.1) * s == (p.1 * q.0) * k) by (nonlinear_arith)
        requires
            rp.0 * p.0 == p.1 * rp.1,
            s == p.0 * q.0,
            k == rq.1 * rp.1,
    ;
    assert(q.1 * p.0 <= p.1 * q.0) by (nonlinear_arith)
        requires
            p.0 * q.1 <= q.0 * p.1,
    ;
    assert((q.1 * p.0) * k <= (p.1 * q.0) * k) by (nonlinear_arith)
        requires
            q.1 * p.0 <= p.1 * q.0,
            k > 0,
    ;
    assert(rq.0 * rp.1 <= rp.0 * rq.1) by (nonlinear_arith)
        requires
            (rq.0 * rp.1) * s <= (rp.0 * rq.1) * s,
            s > 0,
    ;
}

/// Dividing by `y` is multiplying by its reciprocal: both give the same
/// reduced fraction.
proof fn lemma_div_is_mul_recip(x: (int, int), y: (int, int))
    requires
        x.1 > 0,
        y.1 > 0,
        y.0 != 0,
    ensures
        q_recip(y).1 > 0,
        reduced(q_div(x, y)) == reduced(q_mul(x, q_recip(y))),
{
    let r = q_recip(y);
    lemma_normalize(y.1, y.0);
    let a = q_mul(x, r);
    let b = q_div(x, y);
    assert(a.1 != 0 && b.1 != 0) by (nonlinear_arith)
        requires
            x.1 > 0,
            r.1 > 0,
            y.0 != 0,
            a.1 == x.1 * r.1,
            b.1 == x.1 * y.0,
    ;
    lemma_regroup(x.0, r.0, x.1, y.0);
    lemma_regroup(x.0, y.1, x.1, r.1);
    assert(same_value(a, b)) by (nonlinear_arith)
        requires
            r.0 * y.0 == y.1 * r.1,
            a == q_mul(x, r),
            b == q_div(x, y),
            (x.0 * r.0) * (x.1 * y.0) == (x.0 * x.1) * (r.0 * y.0),
            (x.0 * y.1) * (x.1 * r.1) == (x.0 * x.1) * (y.1 * r.1),
    ;
    lemma_normalize(a.0, a.1);
    lemma_normalize(b.0, b.1);
    let ra = reduced(a);
    let rb = reduced(b);
    lemma_same_value_trans(ra, a, b);
    assert(same_value(b, rb)) by (nonlinear_arith)
        requires
            same_value(rb, b),
    ;
    lemma_same_value_trans(ra, b, rb);
    lemma_lowest_terms_canonical(ra, rb);
}

/// Interval division encloses every quotient: for `x` in `a` and `y` in an
/// accepted divisor `b`, `x / y` lies in `a / b`.
pub proof fn lemma_div_encloses(
    a: ((int, int), (int, int)),
    b: ((int, int), (int, int)),
    x: (int, int),
    y: (int, int),
)
    requires
        iv_wf(a),
        iv_wf(b),
        iv_div_ok(b),
        x.1 > 0,
        y.1 > 0,
        iv_has(a, x),
        iv_has(b, y),
    ensures
        y.0 != 0,
        iv_has(iv_div(a, b), reduced(q_div(x, y))),
{
    assert((b.0.0 > 0 && y.0 > 0 && b.1.0 > 0) || (b.0.0 < 0 && y.0 < 0 && b.1.0 < 0))
        by (nonlinear_arith)
        requires
            !(b.0.0 <= 0 && 0 <= b.1.0),
            b.0.1 > 0,
            b.1.1 > 0,
            y.1 > 0,
            b.0.0 * y.1 <= y.0 * b.0.1,
            y.0 * b.1.1 <= b.1.0 * y.1,
    ;
    lemma_recip_antitone(b.0, y);
    lemma_recip_antitone(y, b.1);
    lemma_q_le_trans(q_recip(b.0), q_recip(b.1), q_recip(y));
    lemma_q_le_trans(q_recip(y), q_recip(b.0), q_recip(b.1));
    lemma_normalize(b.0.1, b.0.0);
    lemma_normalize(b.1.1, b.1.0);
    lemma_normalize(y.1, y.0);
    assert(iv_wf(iv_recip(b)));
    lemma_mul_encloses(a, iv_recip(b), x, q_recip(y));
    lemma_div_is_mul_recip(x, y);
}

} // verus!
