//! The mathematics of polynomials over the scalar field: coefficient
//! sequences, their evaluation, and the operations on them.

use crate::utils::field::{field_inverse, group_order};
use vstd::arithmetic::div_mod::{
    lemma_add_mod_noop, lemma_fundamental_div_mod_converse, lemma_mod_self_0, lemma_mul_mod_noop,
    lemma_mul_mod_noop_left, lemma_small_mod,
};
use vstd::arithmetic::mul::{
    lemma_mul_basics, lemma_mul_is_associative, lemma_mul_is_commutative, lemma_mul_is_distributive_add_other_way,
};
use vstd::prelude::*;

verus! {

/// `x` to the power `e`.
pub open spec fn power(x: nat, e: nat) -> nat
    decreases e,
{
    if e == 0 {
        1
    } else {
        x * power(x, (e - 1) as nat)
    }
}

/// The coefficient of `x^k`: zero beyond the sequence.
pub open spec fn coef(p: Seq<nat>, k: int) -> nat {
    if 0 <= k < p.len() {
        p[k]
    } else {
        0
    }
}

/// The coefficients of `p` as a function of the exponent.
pub open spec fn coef_fn(p: Seq<nat>) -> spec_fn(int) -> nat {
    |k: int| coef(p, k)
}

/// `f(0) + f(1) x + ... + f(len - 1) x^(len - 1)`, over the integers.
pub open spec fn series(f: spec_fn(int) -> nat, len: nat, x: nat) -> nat
    decreases len,
{
    if len == 0 {
        0
    } else {
        series(f, (len - 1) as nat, x) + f(len - 1) * power(x, (len - 1) as nat)
    }
}

/// The value of `p` at `x`, over the integers.
pub open spec fn poly_sum(p: Seq<nat>, x: nat) -> nat {
    series(coef_fn(p), p.len(), x)
}

/// The value of `p` at `x` in the field.
pub open spec fn poly_eval(p: Seq<nat>, x: nat) -> nat {
    poly_sum(p, x) % group_order()
}

/// Every coefficient is a field element (below the order).
pub open spec fn reduced(p: Seq<nat>) -> bool {
    forall|k: int| 0 <= k < p.len() ==> #[trigger] p[k] < group_order()
}

/// `len` coefficients, all equal to `c`.
pub open spec fn constant_coefficients(len: nat, c: nat) -> Seq<nat> {
    Seq::new(len, |k: int| c)
}

/// The sum of two polynomials, as long as the longer one.
pub open spec fn poly_add(p: Seq<nat>, q: Seq<nat>) -> Seq<nat> {
    let len = if p.len() < q.len() {
        q.len()
    } else {
        p.len()
    };
    Seq::new(len, |k: int| (coef(p, k) + coef(q, k)) % group_order())
}

/// `p` with every coefficient multiplied by `s`.
pub open spec fn poly_scale(p: Seq<nat>, s: nat) -> Seq<nat> {
    Seq::new(p.len(), |k: int| (p[k] * s) % group_order())
}

/// `sum over i' < i of p[i'] * q[k - i']`: the coefficient of `x^k` in the
/// product of the first `i` terms of `p` with `q`.
pub open spec fn conv(p: Seq<nat>, q: Seq<nat>, k: int, i: nat) -> nat
    decreases i,
{
    if i == 0 {
        0
    } else {
        conv(p, q, k, (i - 1) as nat) + coef(p, i - 1) * coef(q, k - (i - 1))
    }
}

/// The product of two polynomials, `len(p) + len(q) - 1` coefficients.
pub open spec fn poly_mul(p: Seq<nat>, q: Seq<nat>) -> Seq<nat> {
    Seq::new((p.len() + q.len() - 1) as nat, |k: int| conv(p, q, k, p.len()) % group_order())
}

/// `a - b` in the field, for field elements.
pub open spec fn field_sub(a: nat, b: nat) -> nat {
    ((a + group_order() - b) % (group_order() as int)) as nat
}

/// `-a` in the field, for a field element.
pub open spec fn field_neg(a: nat) -> nat {
    ((group_order() - a) % (group_order() as int)) as nat
}

/// The inverse of `a`, or zero for zero.
pub open spec fn inverse_or_zero(a: nat) -> nat {
    if a == 0 {
        0
    } else {
        field_inverse(a)
    }
}

/// `(x - xj) / (xi - xj)`, with zero in place of the inverse of zero.
pub open spec fn basis_factor(xi: nat, xj: nat) -> Seq<nat> {
    poly_scale(seq![field_neg(xj), 1], inverse_or_zero(field_sub(xi, xj)))
}

/// The product of the factors `(x - xs[j']) / (xs[i] - xs[j'])` for
/// `j' < j`, `j' != i`, starting from the constant 1.
pub open spec fn basis_upto(xs: Seq<nat>, i: int, j: nat) -> Seq<nat>
    decreases j,
{
    if j == 0 {
        seq![1nat]
    } else if i == j - 1 {
        basis_upto(xs, i, (j - 1) as nat)
    } else {
        poly_mul(basis_upto(xs, i, (j - 1) as nat), basis_factor(xs[i], xs[j - 1]))
    }
}

/// The Lagrange basis polynomial of the `i`-th of the points `xs`.
pub open spec fn basis(xs: Seq<nat>, i: int) -> Seq<nat> {
    basis_upto(xs, i, xs.len())
}

/// The first coordinates of points.
pub open spec fn xs_of(points: Seq<(nat, nat)>) -> Seq<nat> {
    points.map_values(|pt: (nat, nat)| pt.0)
}

/// `len(points)` zeros plus `ys[i'] * basis_i'` for `i' < i`.
pub open spec fn interpolate_upto(points: Seq<(nat, nat)>, i: nat) -> Seq<nat>
    decreases i,
{
    if i == 0 {
        constant_coefficients(points.len(), 0)
    } else {
        poly_add(
            interpolate_upto(points, (i - 1) as nat),
            poly_scale(basis(xs_of(points), i - 1), points[i - 1].1),
        )
    }
}

/// The Lagrange interpolation polynomial of the points.
pub open spec fn interpolation(points: Seq<(nat, nat)>) -> Seq<nat> {
    interpolate_upto(points, points.len())
}


/// The partial products of a basis polynomial grow by one coefficient per
/// factor taken in.
proof fn lemma_basis_upto_len(xs: Seq<nat>, i: int, j: nat)
    requires
        0 <= i,
        j <= xs.len(),
    ensures
        basis_upto(xs, i, j).len() == if i < j { j as int } else { j + 1int },
    decreases j,
{
    if j > 0 {
        lemma_basis_upto_len(xs, i, (j - 1) as nat);
    }
}

/// The Lagrange basis polynomial of one of `n` points has `n` coefficients:
/// its degree is `n - 1`, one factor `x - xs[j]` for each other point.
pub proof fn lemma_basis_degree(xs: Seq<nat>, i: int)
    requires
        0 <= i < xs.len(),
    ensures
        basis(xs, i).len() == xs.len(),
{
    lemma_basis_upto_len(xs, i, xs.len());
}

/// Partial sums of the interpolation keep one coefficient per point.
proof fn lemma_interpolate_upto_len(points: Seq<(nat, nat)>, i: nat)
    requires
        i <= points.len(),
    ensures
        interpolate_upto(points, i).len() == points.len(),
    decreases i,
{
    if i > 0 {
        lemma_interpolate_upto_len(points, (i - 1) as nat);
        assert(xs_of(points).len() == points.len());
        lemma_basis_degree(xs_of(points), i - 1);
    }
}

/// The interpolation polynomial of `n` points has `n` coefficients: its
/// degree is below the number of points, which with its values at the
/// points makes it the one polynomial through them.
pub proof fn lemma_interpolation_degree(points: Seq<(nat, nat)>)
    ensures
        interpolation(points).len() == points.len(),
{
    lemma_interpolate_upto_len(points, points.len());
}

// ---------------------------------------------------------------------------
// Laws of evaluation
// ---------------------------------------------------------------------------

/// `x^(a + b) = x^a * x^b`.
pub proof fn lemma_power_add(x: nat, a: nat, b: nat)
    ensures
        power(x, a + b) == power(x, a) * power(x, b),
    decreases a,
{
    if a > 0 {
        let a1 = (a - 1) as nat;
        lemma_power_add(x, a1, b);
        let pa = power(x, a1) as int;
        let pb = power(x, b) as int;
        assert(((a + b) - 1) as nat == a1 + b);
        assert(power(x, a + b) == x * power(x, a1 + b));
        assert(power(x, a) == x * pa);
        assert(x * (pa * pb) == (x * pa) * pb) by (nonlinear_arith);
        assert(power(x, a + b) == power(x, a) * power(x, b));
    } else {
        lemma_mul_basics(power(x, b) as int);
    }
}

/// Series of functions that agree below `len` are equal.
pub proof fn lemma_series_ext(f: spec_fn(int) -> nat, g: spec_fn(int) -> nat, len: nat, x: nat)
    requires
        forall|k: int| 0 <= k < len ==> #[trigger] f(k) == g(k),
    ensures
        series(f, len, x) == series(g, len, x),
    decreases len,
{
    if len > 0 {
        lemma_series_ext(f, g, (len - 1) as nat, x);
    }
}

/// The series of a pointwise sum is the sum of the series.
pub proof fn lemma_series_add(
    f: spec_fn(int) -> nat,
    g: spec_fn(int) -> nat,
    h: spec_fn(int) -> nat,
    len: nat,
    x: nat,
)
    requires
        forall|k: int| 0 <= k < len ==> #[trigger] h(k) == f(k) + g(k),
    ensures
        series(h, len, x) == series(f, len, x) + series(g, len, x),
    decreases len,
{
    if len > 0 {
        let k = len - 1;
        lemma_series_add(f, g, h, (len - 1) as nat, x);
        assert(h(k) == f(k) + g(k));
        lemma_mul_is_distributive_add_other_way(power(x, k as nat) as int, f(k) as int, g(k) as int);
    }
}

/// The series of a pointwise multiple is the multiple of the series.
pub proof fn lemma_series_scale(f: spec_fn(int) -> nat, h: spec_fn(int) -> nat, s: nat, len: nat, x: nat)
    requires
        forall|k: int| 0 <= k < len ==> #[trigger] h(k) == f(k) * s,
    ensures
        series(h, len, x) == series(f, len, x) * s,
    decreases len,
{
    if len > 0 {
        let k = len - 1;
        let e = power(x, k as nat);
        lemma_series_scale(f, h, s, (len - 1) as nat, x);
        assert(h(k) == f(k) * s);
        let a = series(f, (len - 1) as nat, x) as int;
        let fk = f(k) as int;
        let si = s as int;
        let ei = e as int;
        assert(series(h, len, x) == a * si + (fk * si) * ei);
        assert(series(f, len, x) == a + fk * ei);
        assert(a * si + (fk * si) * ei == (a + fk * ei) * si) by (nonlinear_arith);
    } else {
        lemma_mul_basics(s as int);
    }
}

/// Reducing every term modulo the order leaves the series the same modulo
/// the order.
pub proof fn lemma_series_mod(f: spec_fn(int) -> nat, h: spec_fn(int) -> nat, len: nat, x: nat)
    requires
        forall|k: int| 0 <= k < len ==> #[trigger] h(k) == f(k) % group_order(),
    ensures
        series(h, len, x) % group_order() == series(f, len, x) % group_order(),
    decreases len,
{
    if len > 0 {
        let n = group_order() as int;
        let k = len - 1;
        let e = power(x, k as nat) as int;
        lemma_series_mod(f, h, (len - 1) as nat, x);
        assert(h(k) == f(k) % group_order());
        let a = series(h, (len - 1) as nat, x) as int;
        let b = series(f, (len - 1) as nat, x) as int;
        lemma_mul_mod_noop_left(f(k) as int, e, n);
        lemma_add_mod_noop(a, (h(k) as int) * e, n);
        lemma_add_mod_noop(b, (f(k) as int) * e, n);
    }
}

/// Terms that are zero beyond `len` add nothing.
pub proof fn lemma_series_zero_tail(f: spec_fn(int) -> nat, len: nat, m: nat, x: nat)
    requires
        len <= m,
        forall|k: int| len <= k < m ==> #[trigger] f(k) == 0,
    ensures
        series(f, m, x) == series(f, len, x),
    decreases m,
{
    if m > len {
        lemma_series_zero_tail(f, len, (m - 1) as nat, x);
    }
}

/// A zero series sums to zero.
pub proof fn lemma_series_zero(f: spec_fn(int) -> nat, len: nat, x: nat)
    requires
        forall|k: int| 0 <= k < len ==> #[trigger] f(k) == 0,
    ensures
        series(f, len, x) == 0,
    decreases len,
{
    if len > 0 {
        lemma_series_zero(f, (len - 1) as nat, x);
    }
}

/// The coefficients of `q` moved up by `i` places.
pub open spec fn shifted_coef_fn(q: Seq<nat>, i: nat) -> spec_fn(int) -> nat {
    |k: int| coef(q, k - i)
}

/// Moving the coefficients up by `i` places multiplies the value by `x^i`.
pub proof fn lemma_series_shift(q: Seq<nat>, i: nat, t: nat, x: nat)
    requires
        t <= q.len(),
    ensures
        series(shifted_coef_fn(q, i), i + t, x) == power(x, i) * series(coef_fn(q), t, x),
    decreases t,
{
    let g = shifted_coef_fn(q, i);
    if t == 0 {
        lemma_series_zero(g, i, x);
        lemma_mul_basics(power(x, i) as int);
    } else {
        lemma_series_shift(q, i, (t - 1) as nat, x);
        let k = i + t - 1;
        let t1 = (t - 1) as nat;
        assert(g(k) == coef(q, t - 1));
        assert(coef_fn(q)(t - 1) == coef(q, t - 1));
        lemma_power_add(x, i, t1);
        assert(((i + t) - 1) as nat == i + t1);
        let pi = power(x, i) as int;
        let c = coef(q, t - 1) as int;
        let pt = power(x, t1) as int;
        let sq = series(coef_fn(q), t1, x) as int;
        assert(series(g, i + t, x) == pi * sq + c * (pi * pt));
        assert(series(coef_fn(q), t, x) == sq + c * pt);
        assert(pi * sq + c * (pi * pt) == pi * (sq + c * pt)) by (nonlinear_arith);
    }
}

/// A polynomial's value does not change with trailing zero terms.
pub proof fn lemma_poly_sum_extend(p: Seq<nat>, m: nat, x: nat)
    requires
        p.len() <= m,
    ensures
        series(coef_fn(p), m, x) == poly_sum(p, x),
{
    lemma_series_zero_tail(coef_fn(p), p.len(), m, x);
}

/// Evaluating a sum is summing the values.
pub proof fn lemma_eval_add(p: Seq<nat>, q: Seq<nat>, x: nat)
    ensures
        poly_eval(poly_add(p, q), x) == (poly_eval(p, x) + poly_eval(q, x)) % group_order(),
{
    let n = group_order() as int;
    let r = poly_add(p, q);
    let m = r.len();
    let f = |k: int| coef(p, k) + coef(q, k);
    assert forall|k: int| 0 <= k < m implies #[trigger] coef_fn(r)(k) == f(k) % group_order() by {}
    lemma_series_mod(f, coef_fn(r), m, x);
    lemma_series_add(coef_fn(p), coef_fn(q), f, m, x);
    lemma_poly_sum_extend(p, m, x);
    lemma_poly_sum_extend(q, m, x);
    lemma_add_mod_noop(poly_sum(p, x) as int, poly_sum(q, x) as int, n);
}

/// Evaluating a multiple is multiplying the value.
pub proof fn lemma_eval_scale(p: Seq<nat>, s: nat, x: nat)
    ensures
        poly_eval(poly_scale(p, s), x) == (poly_eval(p, x) * s) % group_order(),
{
    let n = group_order() as int;
    let r = poly_scale(p, s);
    let f = |k: int| coef(p, k) * s;
    assert forall|k: int| 0 <= k < p.len() implies #[trigger] coef_fn(r)(k) == f(k) % group_order() by {}
    lemma_series_mod(f, coef_fn(r), p.len(), x);
    lemma_series_scale(coef_fn(p), f, s, p.len(), x);
    lemma_mul_mod_noop_left(poly_sum(p, x) as int, s as int, n);
}

/// The terms that the `i`-th coefficient of `p` adds to a product.
pub open spec fn product_term_fn(p: Seq<nat>, q: Seq<nat>, i: nat) -> spec_fn(int) -> nat {
    |k: int| coef(p, i as int) * coef(q, k - i)
}

/// The coefficients of the product of the first `i` terms of `p` with `q`.
pub open spec fn conv_fn(p: Seq<nat>, q: Seq<nat>, i: nat) -> spec_fn(int) -> nat {
    |k: int| conv(p, q, k, i)
}

/// The product of the first `i` terms of `p` with `q`, as a value.
proof fn lemma_conv_series(p: Seq<nat>, q: Seq<nat>, i: nat, x: nat)
    requires
        i <= p.len(),
        p.len() + q.len() >= 1,
    ensures
        series(conv_fn(p, q, i), (p.len() + q.len() - 1) as nat, x) == series(coef_fn(p), i, x) * poly_sum(q, x),
    decreases i,
{
    let len = (p.len() + q.len() - 1) as nat;
    if i == 0 {
        lemma_series_zero(conv_fn(p, q, 0), len, x);
        lemma_mul_basics(poly_sum(q, x) as int);
    } else {
        let j = (i - 1) as nat;
        lemma_conv_series(p, q, j, x);
        let term = product_term_fn(p, q, j);
        assert forall|k: int| 0 <= k < len implies #[trigger] conv_fn(p, q, i)(k) == conv_fn(p, q, j)(k) + term(k) by {}
        lemma_series_add(conv_fn(p, q, j), term, conv_fn(p, q, i), len, x);
        let c = coef(p, j as int);
        assert forall|k: int| 0 <= k < len implies #[trigger] term(k) == shifted_coef_fn(q, j)(k) * c by {
            lemma_mul_is_commutative(c as int, coef(q, k - j) as int);
        }
        lemma_series_scale(shifted_coef_fn(q, j), term, c, len, x);
        assert forall|k: int| j + q.len() <= k < len implies #[trigger] shifted_coef_fn(q, j)(k) == 0 by {}
        lemma_series_zero_tail(shifted_coef_fn(q, j), j + q.len(), len, x);
        lemma_series_shift(q, j, q.len(), x);
        let a = series(coef_fn(p), j, x) as int;
        let e = power(x, j) as int;
        let qs = poly_sum(q, x) as int;
        assert(coef_fn(p)(j as int) == c);
        assert(series(coef_fn(p), i, x) == a + c * e);
        assert(series(conv_fn(p, q, i), len, x) == a * qs + (e * qs) * c);
        assert((a + c * e) * qs == a * qs + (e * qs) * c) by (nonlinear_arith);
    }
}

/// Evaluating a product is multiplying the values.
pub proof fn lemma_eval_mul(p: Seq<nat>, q: Seq<nat>, x: nat)
    requires
        p.len() + q.len() >= 1,
    ensures
        poly_eval(poly_mul(p, q), x) == (poly_eval(p, x) * poly_eval(q, x)) % group_order(),
{
    let n = group_order() as int;
    let r = poly_mul(p, q);
    let len = r.len();
    assert forall|k: int| 0 <= k < len implies #[trigger] coef_fn(r)(k) == conv_fn(p, q, p.len())(k) % group_order() by {}
    lemma_series_mod(conv_fn(p, q, p.len()), coef_fn(r), len, x);
    lemma_conv_series(p, q, p.len(), x);
    lemma_mul_mod_noop(poly_sum(p, x) as int, poly_sum(q, x) as int, n);
}


/// No two of the points share a first coordinate.
pub open spec fn distinct(xs: Seq<nat>) -> bool {
    forall|a: int, b: int| 0 <= a < xs.len() && 0 <= b < xs.len() && a != b ==> xs[a] != xs[b]
}

/// `a + x` at `x`: the value of the linear polynomial with coefficients `[a, 1]`.
pub proof fn lemma_eval_linear(a: nat, y: nat)
    ensures
        poly_eval(seq![a, 1nat], y) == (a + y) % group_order(),
{
    let p = seq![a, 1nat];
    assert(power(y, 0) == 1);
    assert(power(y, 1) == y * power(y, 0));
    lemma_mul_basics(y as int);
    lemma_mul_basics(a as int);
    assert(coef_fn(p)(0) == a);
    assert(coef_fn(p)(1) == 1);
    assert(series(coef_fn(p), 0, y) == 0);
    assert(series(coef_fn(p), 1, y) == a * power(y, 0));
    assert(series(coef_fn(p), 2, y) == series(coef_fn(p), 1, y) + 1 * power(y, 1));
}

/// `-b + a` is `a - b` in the field.
pub proof fn lemma_neg_plus(a: nat, b: nat)
    requires
        a < group_order(),
        b < group_order(),
    ensures
        (field_neg(b) + a) % group_order() == field_sub(a, b),
{
    let n = group_order() as int;
    lemma_add_mod_noop(n - b, a as int, n);
    lemma_small_mod(a, group_order());
    assert((n - b + a) == (a + n - b));
}

/// `a - b` is zero in the field exactly where `a == b`, for field elements.
pub proof fn lemma_sub_zero(a: nat, b: nat)
    requires
        a < group_order(),
        b < group_order(),
    ensures
        (field_sub(a, b) == 0) <==> (a == b),
        field_sub(a, b) < group_order(),
{
    let n = group_order() as int;
    if a >= b {
        lemma_fundamental_div_mod_converse(a + n - b, n, 1, a - b);
    } else {
        lemma_fundamental_div_mod_converse(a + n - b, n, 0, a + n - b);
    }
}

/// A polynomial of zeros is zero everywhere.
pub proof fn lemma_eval_zeros(len: nat, y: nat)
    ensures
        poly_eval(constant_coefficients(len, 0), y) == 0,
{
    let p = constant_coefficients(len, 0);
    assert forall|k: int| 0 <= k < len implies #[trigger] coef_fn(p)(k) == 0 by {}
    lemma_series_zero(coef_fn(p), len, y);
    lemma_small_mod(0, group_order());
}

} // verus!
