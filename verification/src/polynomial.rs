//! Polynomials over the field, as coefficient lists with the constant term
//! first, and their interpolation from sample points.

use crate::felt::{
    congruent, field_add, field_mul, field_sub, is_unit, lemma_congruent_canonical,
    lemma_field_add_congruent, lemma_field_mul_congruent, lemma_field_sub_congruent,
    lemma_field_sub_zero, modulus, Felt,
};
use crate::prime::lemma_nonzero_is_unit;
use vstd::arithmetic::div_mod::{lemma_mod_twice, lemma_mul_mod_noop_right, lemma_small_mod};
use vstd::prelude::*;

verus! {

/// The numbers that a list of field elements stands for.
pub open spec fn values(felts: Seq<Felt>) -> Seq<nat> {
    Seq::new(felts.len(), |i: int| felts[i]@)
}

/// The value at `x` of the polynomial with coefficients `coeffs`, constant term first.
pub open spec fn poly_eval(coeffs: Seq<nat>, x: nat) -> nat
    decreases coeffs.len(),
{
    if coeffs.len() == 0 {
        0
    } else {
        field_add(coeffs[0], field_mul(x, poly_eval(coeffs.drop_first(), x)))
    }
}

/// The coefficients of `p + c * m`, for two lists of one length.
pub open spec fn scaled_sum(p: Seq<nat>, c: nat, m: Seq<nat>) -> Seq<nat> {
    Seq::new(p.len(), |i: int| field_add(p[i], field_mul(c, m[i])))
}

/// The product of `x - points[j]` over all `j`.
pub open spec fn vanishing(points: Seq<nat>, x: nat) -> nat
    decreases points.len(),
{
    if points.len() == 0 {
        1
    } else {
        field_mul(vanishing(points.drop_last(), x), field_sub(x, points.last()))
    }
}

/// Whether the difference of every two of the points has an inverse.
pub open spec fn separable(xs: Seq<nat>) -> bool {
    forall|i: int, j: int| 0 <= i < j < xs.len() ==> is_unit(field_sub(xs[j], xs[i]))
}

/// Whether no two of the points are equal.
pub open spec fn distinct(xs: Seq<nat>) -> bool {
    forall|i: int, j: int| 0 <= i < j < xs.len() ==> xs[i] != xs[j]
}

/// Whether each of the numbers is below the modulus.
pub open spec fn canonical(xs: Seq<nat>) -> bool {
    forall|i: int| 0 <= i < xs.len() ==> xs[i] < modulus()
}

/// Whether the polynomial `coeffs` has one coefficient for each point and
/// takes the value `ys[i]` at `xs[i]`.
pub open spec fn interpolates(coeffs: Seq<nat>, xs: Seq<nat>, ys: Seq<nat>) -> bool {
    &&& coeffs.len() == xs.len()
    &&& forall|i: int| 0 <= i < xs.len() ==> poly_eval(coeffs, xs[i]) == ys[i]
}

/// Evaluation is linear: the value of `p + c * m` is that of `p` plus `c` times that of `m`.
pub proof fn lemma_eval_scaled_sum(p: Seq<nat>, c: nat, m: Seq<nat>, x: nat)
    requires
        p.len() == m.len(),
    ensures
        poly_eval(scaled_sum(p, c, m), x) == field_add(
            poly_eval(p, x),
            field_mul(c, poly_eval(m, x)),
        ),
    decreases p.len(),
{
    let s = scaled_sum(p, c, m);
    let ci = c as int;
    let xi = x as int;
    if p.len() == 0 {
        assert(ci * 0 == 0) by (nonlinear_arith);
    } else {
        let pt = p.drop_first();
        let mt = m.drop_first();
        lemma_eval_scaled_sum(pt, c, mt, x);
        assert(s.drop_first() =~= scaled_sum(pt, c, mt));
        let ep = poly_eval(pt, x) as int;
        let em = poly_eval(mt, x) as int;
        let p_low = p[0] as int;
        let m_low = m[0] as int;
        // the left side, term by term
        lemma_field_mul_congruent(c, m[0], ci, m_low);
        lemma_field_add_congruent(p[0], field_mul(c, m[0]), p_low, ci * m_low);
        lemma_field_mul_congruent(c, poly_eval(mt, x), ci, em);
        lemma_field_add_congruent(
            poly_eval(pt, x),
            field_mul(c, poly_eval(mt, x)),
            ep,
            ci * em,
        );
        lemma_field_mul_congruent(x, poly_eval(s.drop_first(), x), xi, ep + ci * em);
        lemma_field_add_congruent(
            s[0],
            field_mul(x, poly_eval(s.drop_first(), x)),
            p_low + ci * m_low,
            xi * (ep + ci * em),
        );
        // the right side, term by term
        lemma_field_mul_congruent(x, poly_eval(pt, x), xi, ep);
        lemma_field_add_congruent(p[0], field_mul(x, poly_eval(pt, x)), p_low, xi * ep);
        lemma_field_mul_congruent(x, poly_eval(mt, x), xi, em);
        lemma_field_add_congruent(m[0], field_mul(x, poly_eval(mt, x)), m_low, xi * em);
        lemma_field_mul_congruent(c, poly_eval(m, x), ci, m_low + xi * em);
        lemma_field_add_congruent(
            poly_eval(p, x),
            field_mul(c, poly_eval(m, x)),
            p_low + xi * ep,
            ci * (m_low + xi * em),
        );
        assert((p_low + ci * m_low) + xi * (ep + ci * em) == (p_low + xi * ep) + ci * (m_low + xi * em))
            by (nonlinear_arith);
        lemma_congruent_canonical(
            poly_eval(s, x),
            field_add(poly_eval(p, x), field_mul(c, poly_eval(m, x))),
        );
    }
}

/// A zero coefficient at the high end does not change the value.
pub proof fn lemma_eval_push_zero(coeffs: Seq<nat>, x: nat)
    ensures
        poly_eval(coeffs.push(0), x) == poly_eval(coeffs, x),
    decreases coeffs.len(),
{
    let longer = coeffs.push(0);
    if coeffs.len() == 0 {
        assert(longer.drop_first() =~= Seq::<nat>::empty());
        assert(poly_eval(longer.drop_first(), x) == 0);
        assert(x * 0 == 0) by (nonlinear_arith);
    } else {
        lemma_eval_push_zero(coeffs.drop_first(), x);
        assert(longer.drop_first() =~= coeffs.drop_first().push(0));
    }
}

/// A zero coefficient at the low end multiplies the value by `x`.
pub proof fn lemma_eval_shift(coeffs: Seq<nat>, x: nat)
    ensures
        poly_eval(seq![0nat] + coeffs, x) == field_mul(x, poly_eval(coeffs, x)),
{
    let longer = seq![0nat] + coeffs;
    assert(longer.drop_first() =~= coeffs);
    lemma_mod_twice((x * poly_eval(coeffs, x)) as int, modulus() as int);
}

/// The difference of a number and itself is zero.
pub proof fn lemma_field_sub_self(x: nat)
    ensures
        field_sub(x, x) == 0,
{
    lemma_field_sub_congruent(x, x, x as int, x as int);
    lemma_congruent_canonical(field_sub(x, x), 0);
}

/// The product over the points is zero at each of the points.
pub proof fn lemma_vanishing_root(points: Seq<nat>, x: nat, j: int)
    requires
        0 <= j < points.len(),
        points[j] == x,
    ensures
        vanishing(points, x) == 0,
    decreases points.len(),
{
    let head = vanishing(points.drop_last(), x);
    let last = field_sub(x, points.last());
    if j == points.len() - 1 {
        lemma_field_sub_self(x);
        assert(head as int * 0 == 0) by (nonlinear_arith);
    } else {
        lemma_vanishing_root(points.drop_last(), x, j);
        assert(0 * last as int == 0) by (nonlinear_arith);
    }
    lemma_small_mod(0, modulus());
}

/// One has an inverse.
pub proof fn lemma_one_is_unit()
    ensures
        is_unit(1),
{
    lemma_small_mod(1, modulus());
    assert(field_mul(1, 1) == 1);
}

/// A product has an inverse exactly where both factors have one.
pub proof fn lemma_unit_product(a: nat, b: nat)
    ensures
        is_unit(field_mul(a, b)) <==> is_unit(a) && is_unit(b),
{
    let c = field_mul(a, b);
    let ai = a as int;
    let bi = b as int;
    lemma_field_mul_congruent(a, b, ai, bi);
    lemma_small_mod(1, modulus());
    if is_unit(a) && is_unit(b) {
        let a2: nat = choose|w: nat| #[trigger] field_mul(a, w) == 1;
        let b2: nat = choose|w: nat| #[trigger] field_mul(b, w) == 1;
        lemma_field_mul_congruent(a, a2, ai, a2 as int);
        lemma_field_mul_congruent(b, b2, bi, b2 as int);
        lemma_field_mul_congruent(a2, b2, a2 as int, b2 as int);
        lemma_field_mul_congruent(c, field_mul(a2, b2), ai * bi, a2 as int * b2 as int);
        lemma_field_mul_congruent(1, 1, ai * a2 as int, bi * b2 as int);
        assert((ai * bi) * (a2 as int * b2 as int) == (ai * a2 as int) * (bi * b2 as int))
            by (nonlinear_arith);
        lemma_congruent_canonical(field_mul(c, field_mul(a2, b2)), field_mul(1, 1));
        assert(field_mul(c, field_mul(a2, b2)) == 1);
    }
    if is_unit(c) {
        let w: nat = choose|w: nat| #[trigger] field_mul(c, w) == 1;
        let wi = w as int;
        lemma_field_mul_congruent(c, w, ai * bi, wi);
        lemma_field_mul_congruent(a, b * w, ai, bi * wi);
        lemma_field_mul_congruent(b, a * w, bi, ai * wi);
        assert((ai * bi) * wi == ai * (bi * wi)) by (nonlinear_arith);
        assert((ai * bi) * wi == bi * (ai * wi)) by (nonlinear_arith);
        lemma_congruent_canonical(field_mul(a, b * w), 1);
        lemma_congruent_canonical(field_mul(b, a * w), 1);
    }
}

/// The product over the points has an inverse at `x` exactly where each
/// difference of `x` and a point has one.
pub proof fn lemma_vanishing_unit(points: Seq<nat>, x: nat)
    ensures
        is_unit(vanishing(points, x)) <==> (forall|j: int|
            0 <= j < points.len() ==> is_unit(field_sub(x, #[trigger] points[j]))),
    decreases points.len(),
{
    if points.len() == 0 {
        lemma_one_is_unit();
    } else {
        let front = points.drop_last();
        lemma_vanishing_unit(front, x);
        lemma_unit_product(vanishing(front, x), field_sub(x, points.last()));
        if is_unit(vanishing(points, x)) {
            assert forall|j: int| 0 <= j < points.len() implies is_unit(
                field_sub(x, #[trigger] points[j]),
            ) by {
                if j < points.len() - 1 {
                    assert(front[j] == points[j]);
                }
            }
        }
        if forall|j: int| 0 <= j < points.len() ==> is_unit(field_sub(x, #[trigger] points[j])) {
            assert forall|j: int| 0 <= j < front.len() implies is_unit(
                field_sub(x, #[trigger] front[j]),
            ) by {
                assert(front[j] == points[j]);
            }
            assert(is_unit(field_sub(x, points[points.len() - 1])));
        }
    }
}

/// Adding the right multiple of the product over the earlier points gives
/// the wanted value at the new point.
pub proof fn lemma_newton_step(pk: nat, yk: nat, mk: nat, inv: nat)
    requires
        yk < modulus(),
        field_mul(mk, inv) == 1,
    ensures
        field_add(pk, field_mul(field_mul(field_sub(yk, pk), inv), mk)) == yk,
{
    let p = modulus() as int;
    let t = field_sub(yk, pk);
    let ti = t as int;
    let c = field_mul(t, inv);
    lemma_field_sub_congruent(yk, pk, yk as int, pk as int);
    lemma_field_mul_congruent(t, inv, ti, inv as int);
    lemma_field_mul_congruent(c, mk, ti * inv as int, mk as int);
    assert((ti * inv as int) * mk as int == ti * (mk as int * inv as int)) by (nonlinear_arith);
    lemma_mul_mod_noop_right(ti, mk as int * inv as int, p);
    lemma_small_mod(1, modulus());
    assert(ti * 1 == ti) by (nonlinear_arith);
    assert(congruent(field_mul(c, mk) as int, yk - pk));
    lemma_field_add_congruent(pk, field_mul(c, mk), pk as int, yk - pk);
    lemma_congruent_canonical(field_add(pk, field_mul(c, mk)), yk);
}

/// Multiplying by `x - a`, written as `x` times the value minus `a` times the value.
pub proof fn lemma_linear_factor(e: nat, x: nat, a: nat)
    ensures
        field_add(field_mul(x, e), field_mul(field_sub(0, a), e)) == field_mul(e, field_sub(x, a)),
{
    let ei = e as int;
    let xi = x as int;
    let ai = a as int;
    lemma_field_mul_congruent(x, e, xi, ei);
    lemma_field_sub_congruent(0, a, 0, ai);
    lemma_field_mul_congruent(field_sub(0, a), e, 0 - ai, ei);
    lemma_field_add_congruent(
        field_mul(x, e),
        field_mul(field_sub(0, a), e),
        xi * ei,
        (0 - ai) * ei,
    );
    lemma_field_sub_congruent(x, a, xi, ai);
    lemma_field_mul_congruent(e, field_sub(x, a), ei, xi - ai);
    assert(xi * ei + (0 - ai) * ei == ei * (xi - ai)) by (nonlinear_arith);
    lemma_congruent_canonical(
        field_add(field_mul(x, e), field_mul(field_sub(0, a), e)),
        field_mul(e, field_sub(x, a)),
    );
}

/// One more point: the polynomial through the earlier points, corrected by a
/// multiple of their product, goes through the new point too.
pub proof fn lemma_step_points(
    p: Seq<nat>,
    m: Seq<nat>,
    xs: Seq<nat>,
    ys: Seq<nat>,
    k: int,
    inv: nat,
    next: Seq<nat>,
)
    requires
        0 <= k < xs.len(),
        xs.len() == ys.len(),
        p.len() == k,
        m.len() == k + 1,
        ys[k] < modulus(),
        interpolates(p, xs.take(k), ys.take(k)),
        forall|x: nat| #[trigger] poly_eval(m, x) == vanishing(xs.take(k), x),
        field_mul(poly_eval(m, xs[k]), inv) == 1,
        next == scaled_sum(
            p.push(0),
            field_mul(field_sub(ys[k], poly_eval(p, xs[k])), inv),
            m,
        ),
    ensures
        interpolates(next, xs.take(k + 1), ys.take(k + 1)),
{
    let c = field_mul(field_sub(ys[k], poly_eval(p, xs[k])), inv);
    assert forall|j: int| 0 <= j < k + 1 implies poly_eval(next, #[trigger] xs.take(k + 1)[j])
        == ys.take(k + 1)[j] by {
        let x = xs[j];
        lemma_eval_scaled_sum(p.push(0), c, m, x);
        lemma_eval_push_zero(p, x);
        if j < k {
            assert(xs.take(k)[j] == x);
            assert(ys.take(k)[j] == ys[j]);
            lemma_vanishing_root(xs.take(k), x, j);
            assert(poly_eval(m, x) == 0);
            assert(c as int * 0 == 0) by (nonlinear_arith);
            lemma_small_mod(0, modulus());
            lemma_small_mod(ys[j], modulus());
        } else {
            lemma_newton_step(poly_eval(p, x), ys[k], poly_eval(m, x), inv);
        }
    }
}

/// One more point: the product over the points gains the factor `x - a`.
pub proof fn lemma_step_vanishing(m: Seq<nat>, points: Seq<nat>, a: nat, next: Seq<nat>)
    requires
        forall|x: nat| #[trigger] poly_eval(m, x) == vanishing(points, x),
        next == scaled_sum(seq![0nat] + m, field_sub(0, a), m.push(0)),
    ensures
        forall|x: nat| #[trigger] poly_eval(next, x) == vanishing(points.push(a), x),
{
    assert forall|x: nat| #[trigger] poly_eval(next, x) == vanishing(points.push(a), x) by {
        lemma_eval_scaled_sum(seq![0nat] + m, field_sub(0, a), m.push(0), x);
        lemma_eval_shift(m, x);
        lemma_eval_push_zero(m, x);
        lemma_linear_factor(poly_eval(m, x), x, a);
        assert(points.push(a).drop_last() =~= points);
    }
}

/// Zero has no inverse.
pub proof fn lemma_zero_is_no_unit()
    ensures
        !is_unit(0),
{
    assert forall|b: nat| #[trigger] field_mul(0, b) != 1 by {
        assert(0 * b == 0) by (nonlinear_arith);
        lemma_small_mod(0, modulus());
    }
}

/// Points of which two are equal are not separable.
pub proof fn lemma_repeated_point(xs: Seq<nat>, i: int, j: int)
    requires
        0 <= i < j < xs.len(),
        xs[i] == xs[j],
    ensures
        !separable(xs),
{
    lemma_field_sub_self(xs[j]);
    lemma_zero_is_no_unit();
    assert(!is_unit(field_sub(xs[j], xs[i])));
}

/// Two different residues have a difference with an inverse.
pub proof fn lemma_difference_is_unit(a: nat, b: nat)
    requires
        a < modulus(),
        b < modulus(),
        a != b,
    ensures
        is_unit(field_sub(a, b)),
{
    if field_sub(a, b) == 0 {
        lemma_field_sub_zero(a, b);
    }
    lemma_field_sub_congruent(a, b, a as int, b as int);
    lemma_small_mod(field_sub(a, b), modulus());
    lemma_nonzero_is_unit(field_sub(a, b));
}

/// Residues are separable exactly where no two of them are equal.
pub proof fn lemma_separable_is_distinct(xs: Seq<nat>)
    requires
        canonical(xs),
    ensures
        separable(xs) <==> distinct(xs),
{
    if separable(xs) {
        assert forall|i: int, j: int| 0 <= i < j < xs.len() implies xs[i] != xs[j] by {
            if xs[i] == xs[j] {
                lemma_repeated_point(xs, i, j);
            }
        }
    }
    if distinct(xs) {
        assert forall|i: int, j: int| 0 <= i < j < xs.len() implies is_unit(
            field_sub(xs[j], xs[i]),
        ) by {
            lemma_difference_is_unit(xs[j], xs[i]);
        }
    }
}

/// What a number with an inverse multiplies to zero is zero.
pub proof fn lemma_cancel_unit(u: nat, e: nat)
    requires
        is_unit(u),
        e < modulus(),
        field_mul(u, e) == 0,
    ensures
        e == 0,
{
    let w: nat = choose|w: nat| #[trigger] field_mul(u, w) == 1;
    let ui = u as int;
    let wi = w as int;
    let ei = e as int;
    lemma_field_mul_congruent(u, w, ui, wi);
    lemma_field_mul_congruent(u, e, ui, ei);
    // e is congruent to (u * w) * e, and that to w * (u * e)
    lemma_field_mul_congruent(1, e, ui * wi, ei);
    lemma_field_mul_congruent(w, 0, wi, ui * ei);
    assert((ui * wi) * ei == wi * (ui * ei)) by (nonlinear_arith);
    assert(1 * e == e) by (nonlinear_arith);
    assert(w * 0 == 0) by (nonlinear_arith);
    lemma_small_mod(e, modulus());
    lemma_small_mod(0, modulus());
    lemma_congruent_canonical(field_mul(1, e), field_mul(w, 0));
}

/// The quotient of the polynomial `d` by `X - r`, with a zero coefficient
/// at its high end: its coefficient at place `k` is the value at `r` of
/// what `d` holds above place `k`.
pub open spec fn quotient(d: Seq<nat>, r: nat) -> Seq<nat> {
    Seq::new(d.len(), |k: int| poly_eval(d.skip(k + 1), r))
}

/// Division with remainder by `X - r`: the value of `d` at `x` is `x - r`
/// times the value of the quotient, plus the value of `d` at `r`.
pub proof fn lemma_quotient_identity(d: Seq<nat>, r: nat, x: nat)
    ensures
        poly_eval(d, x) == field_add(
            field_mul(field_sub(x, r), poly_eval(quotient(d, r), x)),
            poly_eval(d, r),
        ),
    decreases d.len(),
{
    let xi = x as int;
    let ri = r as int;
    let q = quotient(d, r);
    if d.len() == 0 {
        assert((xi - ri) * 0 == 0) by (nonlinear_arith);
        lemma_field_sub_congruent(x, r, xi, ri);
        lemma_field_mul_congruent(field_sub(x, r), 0, xi - ri, 0);
        lemma_field_add_congruent(field_mul(field_sub(x, r), 0), 0, 0, 0);
        lemma_congruent_canonical(field_add(field_mul(field_sub(x, r), 0), 0), 0);
    } else {
        let t = d.drop_first();
        let qt = quotient(t, r);
        lemma_quotient_identity(t, r, x);
        assert(q.drop_first() =~= qt) by {
            assert forall|k: int| 0 <= k < qt.len() implies q.drop_first()[k] == qt[k] by {
                assert(d.skip(k + 2) =~= t.skip(k + 1));
            }
        }
        assert(d.skip(1) =~= t);
        assert(q[0] == poly_eval(t, r));
        let lead = d[0] as int;
        let tr = poly_eval(t, r) as int;
        let tx = poly_eval(t, x) as int;
        let qx = poly_eval(qt, x) as int;
        // what is known of the tail
        lemma_field_sub_congruent(x, r, xi, ri);
        lemma_field_mul_congruent(field_sub(x, r), poly_eval(qt, x), xi - ri, qx);
        lemma_field_add_congruent(
            field_mul(field_sub(x, r), poly_eval(qt, x)),
            poly_eval(t, r),
            (xi - ri) * qx,
            tr,
        );
        assert(congruent(tx, (xi - ri) * qx + tr));
        // the left side
        lemma_field_mul_congruent(x, poly_eval(t, x), xi, (xi - ri) * qx + tr);
        lemma_field_add_congruent(
            d[0],
            field_mul(x, poly_eval(t, x)),
            lead,
            xi * ((xi - ri) * qx + tr),
        );
        // the right side
        lemma_field_mul_congruent(x, poly_eval(qt, x), xi, qx);
        lemma_field_add_congruent(q[0], field_mul(x, poly_eval(qt, x)), tr, xi * qx);
        lemma_field_mul_congruent(field_sub(x, r), poly_eval(q, x), xi - ri, tr + xi * qx);
        lemma_field_mul_congruent(r, poly_eval(t, r), ri, tr);
        lemma_field_add_congruent(d[0], field_mul(r, poly_eval(t, r)), lead, ri * tr);
        lemma_field_add_congruent(
            field_mul(field_sub(x, r), poly_eval(q, x)),
            poly_eval(d, r),
            (xi - ri) * (tr + xi * qx),
            lead + ri * tr,
        );
        assert(lead + xi * ((xi - ri) * qx + tr) == (xi - ri) * (tr + xi * qx) + (lead + ri * tr))
            by (nonlinear_arith);
        lemma_congruent_canonical(
            poly_eval(d, x),
            field_add(field_mul(field_sub(x, r), poly_eval(q, x)), poly_eval(d, r)),
        );
    }
}

/// A polynomial with as many different roots as it has coefficients has
/// only zero coefficients.
pub proof fn lemma_roots_force_zero(d: Seq<nat>, roots: Seq<nat>)
    requires
        canonical(d),
        canonical(roots),
        distinct(roots),
        roots.len() == d.len(),
        forall|i: int| 0 <= i < roots.len() ==> poly_eval(d, #[trigger] roots[i]) == 0,
    ensures
        forall|k: int| 0 <= k < d.len() ==> d[k] == 0,
    decreases d.len(),
{
    if d.len() > 0 {
        let n = d.len() as int;
        let r = roots.last();
        let front = roots.drop_last();
        let q = quotient(d, r);
        let short = q.drop_last();
        assert(poly_eval(d, roots[n - 1]) == 0);
        assert(d.skip(n) =~= Seq::<nat>::empty());
        assert(q =~= short.push(0));
        assert forall|i: int| 0 <= i < front.len() implies poly_eval(short, #[trigger] front[i])
            == 0 by {
            let x = front[i];
            assert(x == roots[i]);
            assert(poly_eval(d, roots[i]) == 0);
            lemma_quotient_identity(d, r, x);
            lemma_eval_push_zero(short, x);
            let value = poly_eval(short, x);
            let product = field_mul(field_sub(x, r), value);
            lemma_small_mod(product, modulus());
            assert(product == 0);
            assert(roots[i] != roots[n - 1]);
            lemma_difference_is_unit(x, r);
            lemma_cancel_unit(field_sub(x, r), value);
        }
        assert(canonical(front)) by {
            assert forall|i: int| 0 <= i < front.len() implies front[i] < modulus() by {
                assert(front[i] == roots[i]);
            }
        }
        assert(distinct(front)) by {
            assert forall|i: int, j: int| 0 <= i < j < front.len() implies front[i] != front[j] by {
                assert(front[i] == roots[i] && front[j] == roots[j]);
            }
        }
        lemma_roots_force_zero(short, front);
        assert forall|k: int| 0 <= k < n implies d[k] == 0 by {
            let here = d.skip(k);
            let above = poly_eval(d.skip(k + 1), r);
            assert(here.drop_first() =~= d.skip(k + 1));
            assert(here[0] == d[k]);
            assert(above == 0) by {
                if k + 1 < n {
                    assert(short[k] == q[k]);
                    assert(short[k] == 0);
                }
            }
            assert(poly_eval(here, r) == 0) by {
                if k == 0 {
                    assert(here =~= d);
                } else {
                    assert(short[k - 1] == q[k - 1]);
                    assert(short[k - 1] == 0);
                }
            }
            assert(r * 0 == 0) by (nonlinear_arith);
            lemma_small_mod(0, modulus());
            lemma_small_mod(d[k], modulus());
        }
    }
}

/// Through points of which no two are equal goes one polynomial only with
/// one coefficient for each point.
pub proof fn lemma_interpolant_is_single(a: Seq<nat>, b: Seq<nat>, xs: Seq<nat>, ys: Seq<nat>)
    requires
        canonical(a),
        canonical(b),
        canonical(xs),
        distinct(xs),
        interpolates(a, xs, ys),
        interpolates(b, xs, ys),
    ensures
        a == b,
{
    let minus_one = field_sub(0, 1);
    let d = scaled_sum(a, minus_one, b);
    lemma_field_sub_congruent(0, 1, 0, 1);
    assert forall|i: int| 0 <= i < xs.len() implies poly_eval(d, #[trigger] xs[i]) == 0 by {
        let x = xs[i];
        let y = ys[i] as int;
        lemma_eval_scaled_sum(a, minus_one, b, x);
        lemma_field_mul_congruent(minus_one, poly_eval(b, x), -1, y);
        lemma_field_add_congruent(poly_eval(a, x), field_mul(minus_one, poly_eval(b, x)), y, -1 * y);
        assert(y + -1 * y == 0);
        lemma_congruent_canonical(poly_eval(d, x), 0);
    }
    lemma_roots_force_zero(d, xs);
    assert forall|k: int| 0 <= k < a.len() implies a[k] == b[k] by {
        assert(d[k] == 0);
        let ak = a[k] as int;
        let bk = b[k] as int;
        lemma_field_mul_congruent(minus_one, b[k], -1, bk);
        lemma_field_add_congruent(a[k], field_mul(minus_one, b[k]), ak, -1 * bk);
        lemma_small_mod(0, modulus());
        // a[k] - b[k] is a multiple of the modulus, and both are below it
        lemma_field_sub_congruent(a[k], b[k], ak, bk);
        assert(ak + -1 * bk == ak - bk);
        lemma_congruent_canonical(field_sub(a[k], b[k]), 0);
        lemma_field_sub_zero(a[k], b[k]);
    }
    assert(a =~= b);
}

/// Why an interpolation fails.
#[derive(Clone, Copy, Debug, PartialEq, Eq, Structural)]
pub enum InterpolationError {
    /// There are not as many values as points.
    LengthMismatch,
    /// Two of the points leave no single interpolant.
    DuplicateXValue,
}

/// What an interpolation through the points `(xs[i], ys[i])` may give: the
/// polynomial with one coefficient for each point that takes the value
/// `ys[i]` at `xs[i]`, where there are as many values as points and no two
/// points are equal; else the failure that says which of the two is amiss.
pub open spec fn interpolation_outcome(
    xs: Seq<nat>,
    ys: Seq<nat>,
    r: Result<Seq<nat>, InterpolationError>,
) -> bool {
    match r {
        Ok(coeffs) => {
            &&& xs.len() == ys.len()
            &&& distinct(xs)
            &&& canonical(coeffs)
            &&& interpolates(coeffs, xs, ys)
        },
        Err(InterpolationError::LengthMismatch) => xs.len() != ys.len(),
        Err(InterpolationError::DuplicateXValue) => xs.len() == ys.len() && !distinct(xs),
    }
}

/// The numbers that the coefficients of a result stand for.
pub open spec fn coefficients(r: Result<Vec<Felt>, InterpolationError>) -> Result<
    Seq<nat>,
    InterpolationError,
> {
    match r {
        Ok(coeffs) => Ok(values(coeffs@)),
        Err(e) => Err(e),
    }
}

/// Through two points with different first coordinates goes a polynomial
/// of two coefficients, and the interpolation gives it.
pub proof fn lemma_two_points(
    a: nat,
    b: nat,
    y1: nat,
    y2: nat,
    r: Result<Seq<nat>, InterpolationError>,
)
    requires
        a != b,
        interpolation_outcome(seq![a, b], seq![y1, y2], r),
    ensures
        r matches Ok(coeffs) && coeffs.len() == 2 && poly_eval(coeffs, a) == y1 && poly_eval(
            coeffs,
            b,
        ) == y2,
{
    let xs = seq![a, b];
    let ys = seq![y1, y2];
    assert(distinct(xs));
    assert(xs[0] == a && xs[1] == b && ys[0] == y1 && ys[1] == y2);
}

/// Points of which two are equal, with as many values, give the failure
/// for equal points; points with another number of values give the failure
/// for the lengths.
pub proof fn lemma_failures(xs: Seq<nat>, ys: Seq<nat>, r: Result<Seq<nat>, InterpolationError>)
    requires
        interpolation_outcome(xs, ys, r),
    ensures
        xs.len() != ys.len() ==> r == Err::<Seq<nat>, InterpolationError>(
            InterpolationError::LengthMismatch,
        ),
        xs.len() == ys.len() && !distinct(xs) ==> r == Err::<Seq<nat>, InterpolationError>(
            InterpolationError::DuplicateXValue,
        ),
{
}

/// The value of the polynomial `coeffs` at `x`.
pub fn evaluate(coeffs: &Vec<Felt>, x: &Felt) -> (r: Felt)
    ensures
        r@ == poly_eval(values(coeffs@), x@),
{
    let mut acc = Felt::zero();
    let mut i: usize = coeffs.len();
    let ghost all = values(coeffs@);
    proof {
        lemma_small_mod(0, modulus());
    }
    while i > 0
        invariant
            i <= coeffs.len(),
            all == values(coeffs@),
            acc@ == poly_eval(all.subrange(i as int, all.len() as int), x@),
        decreases i,
    {
        i -= 1;
        let t = x.mul(&acc);
        acc = coeffs[i].add(&t);
        proof {
            let suffix = all.subrange(i as int, all.len() as int);
            assert(suffix.drop_first() =~= all.subrange(i + 1, all.len() as int));
            assert(suffix[0] == coeffs[i as int]@);
        }
    }
    assert(all.subrange(0, all.len() as int) =~= all);
    acc
}

/// The coefficients of `p + c * m`.
fn combine(p: &Vec<Felt>, c: &Felt, m: &Vec<Felt>) -> (r: Vec<Felt>)
    requires
        p.len() == m.len(),
    ensures
        r.len() == p.len(),
        values(r@) == scaled_sum(values(p@), c@, values(m@)),
        canonical(values(r@)),
{
    let mut out: Vec<Felt> = Vec::new();
    let mut i: usize = 0;
    while i < p.len()
        invariant
            i <= p.len(),
            p.len() == m.len(),
            out.len() == i,
            forall|j: int| 0 <= j < i ==> out[j]@ == field_add(p[j]@, field_mul(c@, m[j]@)),
        decreases p.len() - i,
    {
        let t = c.mul(&m[i]);
        out.push(p[i].add(&t));
        i += 1;
    }
    assert(values(out@) =~= scaled_sum(values(p@), c@, values(m@)));
    out
}

/// The coefficients of `m` moved up by one place, with a zero constant term.
fn shifted(m: &Vec<Felt>) -> (r: Vec<Felt>)
    ensures
        r.len() == m.len() + 1,
        values(r@) == seq![0nat] + values(m@),
{
    let mut out: Vec<Felt> = Vec::new();
    out.push(Felt::zero());
    let mut i: usize = 0;
    while i < m.len()
        invariant
            i <= m.len(),
            out.len() == i + 1,
            out[0]@ == 0,
            forall|j: int| 0 <= j < i ==> out[j + 1] == m[j],
        decreases m.len() - i,
    {
        out.push(m[i]);
        i += 1;
    }
    assert(values(out@) =~= seq![0nat] + values(m@));
    out
}

/// The polynomial with one coefficient for each point that takes the value
/// `ys[i]` at `xs[i]`.
///
/// It fails where there are not as many values as points, and where two
/// points are equal.
pub fn interpolate(xs: &Vec<Felt>, ys: &Vec<Felt>) -> (r: Result<Vec<Felt>, InterpolationError>)
    ensures
        interpolation_outcome(values(xs@), values(ys@), coefficients(r)),
{
    if xs.len() != ys.len() {
        return Err(InterpolationError::LengthMismatch);
    }
    let n: usize = xs.len();
    let ghost xv = values(xs@);
    let ghost yv = values(ys@);
    let mut p: Vec<Felt> = Vec::new();
    let mut m: Vec<Felt> = Vec::new();
    m.push(Felt::one());
    let mut k: usize = 0;
    proof {
        assert(values(m@) =~= seq![1nat]);
        assert forall|x: nat| #[trigger] poly_eval(values(m@), x) == vanishing(xv.take(0), x) by {
            let unit = values(m@);
            assert(unit.drop_first() =~= Seq::<nat>::empty());
            assert(poly_eval(unit.drop_first(), x) == 0);
            assert(x * 0 == 0) by (nonlinear_arith);
            lemma_small_mod(0, modulus());
            lemma_small_mod(1, modulus());
            assert(field_mul(x, 0) == 0);
            assert(unit[0] == 1);
            assert(poly_eval(unit, x) == field_add(1, 0));
            assert(xv.take(0).len() == 0);
        }
    }
    while k < n
        invariant
            k <= n,
            n == xs.len(),
            n == ys.len(),
            xv == values(xs@),
            yv == values(ys@),
            p.len() == k,
            m.len() == k + 1,
            canonical(xv.take(k as int)),
            canonical(values(p@)),
            separable(xv.take(k as int)),
            interpolates(values(p@), xv.take(k as int), yv.take(k as int)),
            forall|x: nat| #[trigger]
                poly_eval(values(m@), x) == vanishing(xv.take(k as int), x),
        decreases n - k,
    {
        let xk = xs[k];
        let yk = ys[k];
        let ghost front = xv.take(k as int);
        let mk = evaluate(&m, &xk);
        proof {
            use_type_invariant(&xk);
            lemma_vanishing_unit(front, xk@);
        }
        match mk.inverse() {
            None => {
                proof {
                    lemma_zero_is_no_unit();
                    let j = choose|j: int|
                        0 <= j < front.len() && !is_unit(field_sub(xk@, #[trigger] front[j]));
                    assert(front[j] == xv[j]);
                    assert(xv[k as int] == xk@);
                    if xk@ != xv[j] {
                        lemma_difference_is_unit(xk@, xv[j]);
                    }
                    assert(xv[j] == xv[k as int]);
                }
                return Err(InterpolationError::DuplicateXValue);
            },
            Some(inv) => {
                let pk = evaluate(&p, &xk);
                let c = yk.sub(&pk).mul(&inv);
                let zero_minus = Felt::zero().sub(&xk);
                let ghost p_before = values(p@);
                let ghost m_before = values(m@);
                p.push(Felt::zero());
                let next_p = combine(&p, &c, &m);
                let up = shifted(&m);
                m.push(Felt::zero());
                let next_m = combine(&up, &zero_minus, &m);
                proof {
                    use_type_invariant(&yk);
                    assert(values(p@) =~= p_before.push(0));
                    assert(values(m@) =~= m_before.push(0));
                    assert(is_unit(mk@));
                    lemma_step_points(p_before, m_before, xv, yv, k as int, inv@, values(next_p@));
                    lemma_step_vanishing(m_before, front, xk@, values(next_m@));
                    let longer = xv.take(k + 1);
                    assert(front.push(xk@) =~= longer);
                    assert forall|i: int, j: int| 0 <= i < j < longer.len() implies is_unit(
                        field_sub(#[trigger] longer[j], #[trigger] longer[i]),
                    ) by {
                        if j < k {
                            assert(front[i] == xv[i] && front[j] == xv[j]);
                        } else {
                            assert(front[i] == xv[i]);
                        }
                    }
                    assert forall|i: int| 0 <= i < longer.len() implies longer[i] < modulus() by {
                        if i < k {
                            assert(front[i] == xv[i]);
                        }
                    }
                }
                p = next_p;
                m = next_m;
                k += 1;
            },
        }
    }
    proof {
        assert(xv.take(n as int) =~= xv);
        assert(yv.take(n as int) =~= yv);
        lemma_separable_is_distinct(xv);
    }
    Ok(p)
}

} // verus!
