//! Polynomials with coefficients in the scalar field of secp256k1.

use crate::utils::field::{
    group_order, scalar_add, scalar_invert, scalar_mul, scalar_neg, scalar_sub, FieldElement,
};
use crate::utils::polynomial::algebra::{
    distinct, lemma_basis_degree, lemma_interpolation_degree, lemma_eval_add, lemma_eval_linear, lemma_eval_mul, lemma_eval_scale, lemma_eval_zeros,
    lemma_neg_plus, lemma_sub_zero, basis, basis_factor, basis_upto, coef, coef_fn, constant_coefficients, conv, field_neg, field_sub,
    interpolate_upto, interpolation, inverse_or_zero, poly_add, poly_eval, poly_mul, poly_scale, power,
    series, xs_of,
};
use vstd::arithmetic::div_mod::{lemma_add_mod_noop, lemma_mul_mod_noop_left, lemma_mul_mod_noop_right, lemma_small_mod};
use vstd::arithmetic::mul::{lemma_mul_basics, lemma_mul_is_commutative};
use vstd::prelude::*;

verus! {

/// The values of a sequence of field elements.
pub open spec fn values(s: Seq<FieldElement>) -> Seq<nat> {
    s.map_values(|c: FieldElement| c@)
}

/// The values of a sequence of points.
pub open spec fn point_values(s: Seq<(FieldElement, FieldElement)>) -> Seq<(nat, nat)> {
    s.map_values(|pt: (FieldElement, FieldElement)| (pt.0@, pt.1@))
}

/// A polynomial: `coefficients[k]` is the coefficient of `x^k`.
#[derive(Debug, Clone)]
pub struct Polynomial {
    coefficients: Vec<FieldElement>,
}

impl View for Polynomial {
    type V = Seq<nat>;

    closed spec fn view(&self) -> Seq<nat> {
        values(self.coefficients@)
    }
}

impl Polynomial {
    /// The polynomial with the given coefficients, lowest degree first.
    pub fn new(coefficients: Vec<FieldElement>) -> (res: Self)
        ensures
            res@ == values(coefficients@),
    {
        Polynomial { coefficients }
    }

    /// `degree + 1` zero coefficients.
    pub fn zero(degree: usize) -> (res: Self)
        requires
            degree < usize::MAX,
        ensures
            res@ == constant_coefficients((degree + 1) as nat, 0),
    {
        let coefficients = vec![FieldElement::zero(); degree + 1];
        let res = Polynomial { coefficients };
        assert(res@ =~= constant_coefficients((degree + 1) as nat, 0));
        res
    }

    /// `degree + 1` coefficients equal to one: `1 + x + ... + x^degree`.
    pub fn one(degree: usize) -> (res: Self)
        requires
            degree < usize::MAX,
        ensures
            res@ == constant_coefficients((degree + 1) as nat, 1),
    {
        let coefficients = vec![FieldElement::one(); degree + 1];
        let res = Polynomial { coefficients };
        assert(res@ =~= constant_coefficients((degree + 1) as nat, 1));
        res
    }

    /// The value of the polynomial at `x`.
    pub fn evaluate_at(&self, x: FieldElement) -> (res: FieldElement)
        ensures
            res@ == poly_eval(self@, x@),
    {
        let ghost n = group_order() as int;
        let mut result = FieldElement::zero();
        let mut power_of_x = FieldElement::one();
        let len = self.coefficients.len();
        let mut i: usize = 0;
        proof {
            lemma_small_mod(1, group_order());
            lemma_small_mod(0, group_order());
        }
        while i < len
            invariant
                len == self@.len(),
                i <= len,
                n == group_order(),
                result@ == series(coef_fn(self@), i as nat, x@) % group_order(),
                power_of_x@ == power(x@, i as nat) % group_order(),
            decreases len - i,
        {
            let coeff = self.coefficients[i];
            let term = scalar_mul(&coeff, &power_of_x);
            result = scalar_add(&result, &term);
            let ghost before = power_of_x@;
            power_of_x = scalar_mul(&power_of_x, &x);
            proof {
                let s = series(coef_fn(self@), i as nat, x@) as int;
                let p = power(x@, i as nat) as int;
                let c = coeff@ as int;
                assert(coef_fn(self@)(i as int) == c);
                lemma_mul_mod_noop_right(c, p, n);
                lemma_add_mod_noop(s, c * p, n);
                lemma_mul_mod_noop_left(p, x@ as int, n);
                lemma_mul_is_commutative(p, x@ as int);
            }
            i = i + 1;
        }
        result
    }
}


impl Polynomial {
    /// The sum of two polynomials: coefficients added where both have one,
    /// the longer one's beyond.
    pub fn add(self, other: Self) -> (res: Self)
        ensures
            res@ == poly_add(self@, other@),
            forall|x: nat| #[trigger] poly_eval(res@, x) == (poly_eval(self@, x) + poly_eval(other@, x)) % group_order(),
    {
        let ghost p = self@;
        let ghost q = other@;
        let (shorter, longer) = if self.coefficients.len() < other.coefficients.len() {
            (self.coefficients, other.coefficients)
        } else {
            (other.coefficients, self.coefficients)
        };
        let ghost sv = values(shorter@);
        let ghost lv = values(longer@);
        let mut result_coefficients: Vec<FieldElement> = Vec::with_capacity(longer.len());
        let mut i: usize = 0;
        while i < shorter.len()
            invariant
                (sv == p && lv == q) || (sv == q && lv == p),
                sv == values(shorter@),
                lv == values(longer@),
                shorter@.len() <= longer@.len(),
                i <= shorter@.len(),
                result_coefficients@.len() == i,
                forall|k: int| 0 <= k < i ==> #[trigger] result_coefficients@[k]@ == (coef(p, k) + coef(q, k)) % group_order(),
            decreases shorter@.len() - i,
        {
            let c = scalar_add(&shorter[i], &longer[i]);
            result_coefficients.push(c);
            i = i + 1;
        }
        while i < longer.len()
            invariant
                (sv == p && lv == q) || (sv == q && lv == p),
                sv == values(shorter@),
                lv == values(longer@),
                shorter@.len() <= i <= longer@.len(),
                result_coefficients@.len() == i,
                forall|k: int| 0 <= k < i ==> #[trigger] result_coefficients@[k]@ == (coef(p, k) + coef(q, k)) % group_order(),
            decreases longer@.len() - i,
        {
            let c = longer[i];
            c.value_in_range();
            proof {
                lemma_small_mod(c@, group_order());
            }
            result_coefficients.push(c);
            i = i + 1;
        }
        let res = Polynomial { coefficients: result_coefficients };
        assert(res@ =~= poly_add(p, q));
        proof {
            assert forall|x: nat| #[trigger] poly_eval(res@, x) == (poly_eval(p, x) + poly_eval(q, x)) % group_order() by {
                lemma_eval_add(p, q, x);
            }
        }
        res
    }

    /// The polynomial with every coefficient multiplied by `scalar`.
    pub fn mul_scalar(self, scalar: FieldElement) -> (res: Self)
        ensures
            res@ == poly_scale(self@, scalar@),
            forall|x: nat| #[trigger] poly_eval(res@, x) == (poly_eval(self@, x) * scalar@) % group_order(),
    {
        let mut result_coefficients: Vec<FieldElement> = Vec::with_capacity(self.coefficients.len());
        let mut i: usize = 0;
        while i < self.coefficients.len()
            invariant
                i <= self@.len(),
                result_coefficients@.len() == i,
                forall|k: int| 0 <= k < i ==> #[trigger] result_coefficients@[k]@ == (self@[k] * scalar@) % group_order(),
            decreases self@.len() - i,
        {
            let c = scalar_mul(&self.coefficients[i], &scalar);
            result_coefficients.push(c);
            i = i + 1;
        }
        let res = Polynomial { coefficients: result_coefficients };
        assert(res@ =~= poly_scale(self@, scalar@));
        proof {
            assert forall|x: nat| #[trigger] poly_eval(res@, x) == (poly_eval(self@, x) * scalar@) % group_order() by {
                lemma_eval_scale(self@, scalar@, x);
            }
        }
        res
    }

    /// The product of two polynomials (not both empty).
    pub fn mul_polynomial(self, other: Self) -> (res: Self)
        requires
            1 <= self@.len() + other@.len() <= usize::MAX,
        ensures
            res@ == poly_mul(self@, other@),
            res@.len() == self@.len() + other@.len() - 1,
            forall|x: nat| #[trigger] poly_eval(res@, x) == (poly_eval(self@, x) * poly_eval(other@, x)) % group_order(),
    {
        let ghost p = self@;
        let ghost q = other@;
        let ghost n = group_order() as int;
        let n1 = self.coefficients.len();
        let n2 = other.coefficients.len();
        let len = n1 + n2 - 1;
        let mut result_coefficients = vec![FieldElement::zero(); len];
        proof {
            lemma_small_mod(0, group_order());
        }
        let mut i: usize = 0;
        while i < n1
            invariant
                p == self@,
                q == other@,
                n1 == p.len(),
                n2 == q.len(),
                len == n1 + n2 - 1,
                n == group_order(),
                i <= n1,
                result_coefficients@.len() == len,
                forall|k: int| 0 <= k < len ==> #[trigger] result_coefficients@[k]@ == conv(p, q, k, i as nat) % group_order(),
            decreases n1 - i,
        {
            let a = self.coefficients[i];
            assert(a@ == p[i as int]);
            let mut j: usize = 0;
            while j < n2
                invariant
                    p == self@,
                    q == other@,
                    n1 == p.len(),
                    n2 == q.len(),
                    len == n1 + n2 - 1,
                    n == group_order(),
                    i < n1,
                    j <= n2,
                    a@ == p[i as int],
                    result_coefficients@.len() == len,
                    forall|k: int| 0 <= k < len ==> #[trigger] result_coefficients@[k]@ == (conv(p, q, k, i as nat) + if i <= k < i + j {
                        p[i as int] * q[k - i]
                    } else {
                        0
                    }) % group_order(),
                decreases n2 - j,
            {
                let b = other.coefficients[j];
                assert(b@ == q[j as int]);
                let product = scalar_mul(&a, &b);
                let current = result_coefficients[i + j];
                let updated = scalar_add(&current, &product);
                let ghost before = result_coefficients@;
                result_coefficients.set(i + j, updated);
                proof {
                    let k = (i + j) as int;
                    let x = conv(p, q, k, i as nat) as int;
                    lemma_add_mod_noop(x, (a@ * b@) as int, n);
                    assert forall|m: int| 0 <= m < len implies #[trigger] result_coefficients@[m]@ == (conv(p, q, m, i as nat) + if i <= m < i + j + 1 {
                        p[i as int] * q[m - i]
                    } else {
                        0
                    }) % group_order() by {
                        if m != k {
                            assert(result_coefficients@[m] == before[m]);
                        }
                    }
                }
                j = j + 1;
            }
            proof {
                assert forall|k: int| 0 <= k < len implies #[trigger] result_coefficients@[k]@ == conv(p, q, k, (i + 1) as nat) % group_order() by {
                    assert(conv(p, q, k, (i + 1) as nat) == conv(p, q, k, i as nat) + coef(p, i as int) * coef(q, k - i));
                    assert(coef(p, i as int) == p[i as int]);
                    if i <= k < i + n2 {
                        assert(coef(q, k - i) == q[k - i]);
                    } else {
                        assert(coef(q, k - i) == 0);
                        lemma_mul_basics(coef(p, i as int) as int);
                    }
                }
            }
            i = i + 1;
        }
        let res = Polynomial { coefficients: result_coefficients };
        assert(res@ =~= poly_mul(p, q));
        proof {
            assert forall|x: nat| #[trigger] poly_eval(res@, x) == (poly_eval(p, x) * poly_eval(q, x)) % group_order() by {
                lemma_eval_mul(p, q, x);
            }
        }
        res
    }
}


impl Polynomial {
    /// The Lagrange basis polynomial of the `i`-th point: the product over
    /// the other points `j` of `(x - x_j) / (x_i - x_j)`, where the inverse
    /// of a zero difference is taken as zero.
    pub fn basis_polynomial(points: &[(FieldElement, FieldElement)], i: usize) -> (res: Self)
        requires
            i < points@.len(),
            points@.len() <= usize::MAX - 2,
        ensures
            res@ == basis(xs_of(point_values(points@)), i as int),
            res@.len() == points@.len(),
            forall|k: int|
                0 <= k < points@.len() && k != i ==> poly_eval(
                    res@,
                    #[trigger] xs_of(point_values(points@))[k],
                ) == 0,
            (forall|k: int|
                0 <= k < points@.len() && k != i ==> #[trigger] xs_of(point_values(points@))[k]
                    != xs_of(point_values(points@))[i as int]) ==> poly_eval(
                res@,
                xs_of(point_values(points@))[i as int],
            ) == 1,
    {
        let ghost xs = xs_of(point_values(points@));
        let (xi, _) = points[i];
        xi.value_in_range();
        let mut li = Polynomial::one(0);
        proof {
            assert(li@ =~= seq![1nat]);
            assert(li@ == constant_coefficients(1, 1));
            lemma_eval_constant_one(xi@);
        }
        let mut j: usize = 0;
        while j < points.len()
            invariant
                xs == xs_of(point_values(points@)),
                xs.len() == points@.len(),
                i < xs.len(),
                xs.len() <= usize::MAX - 2,
                xi@ == xs[i as int],
                j <= points@.len(),
                li@ == basis_upto(xs, i as int, j as nat),
                1 <= li@.len() <= j + 1,
                xi@ < group_order(),
                forall|k: int| 0 <= k < j && k != i ==> poly_eval(li@, #[trigger] xs[k]) == 0,
                (forall|k: int| 0 <= k < j && k != i ==> #[trigger] xs[k] != xs[i as int]) ==> poly_eval(
                    li@,
                    xs[i as int],
                ) == 1,
            decreases points@.len() - j,
        {
            let (xj, _) = points[j];
            xj.value_in_range();
            assert(xj@ == xs[j as int]);
            let ghost before = li@;
            if i != j {
                let term = Polynomial::new(vec![scalar_neg(&xj), FieldElement::one()]);
                let difference = scalar_sub(&xi, &xj);
                let inverted_denom = match scalar_invert(&difference) {
                    Some(inverse) => inverse,
                    None => FieldElement::zero(),
                };
                let factor = term.mul_scalar(inverted_denom);
                proof {
                    assert(factor@ =~= basis_factor(xs[i as int], xs[j as int]));
                    let linear = seq![field_neg(xj@), 1nat];
                    assert(term@ =~= linear);
                    lemma_sub_zero(xi@, xj@);
                    assert forall|y: nat| #[trigger] poly_eval(factor@, y) == (((field_neg(xj@) + y) % group_order()) * inverted_denom@) % group_order() by {
                        lemma_eval_scale(linear, inverted_denom@, y);
                        lemma_eval_linear(field_neg(xj@), y);
                    }
                    lemma_neg_plus(xj@, xj@);
                    lemma_neg_plus(xi@, xj@);
                    lemma_mul_basics(inverted_denom@ as int);
                    lemma_small_mod(0, group_order());
                    lemma_small_mod(1, group_order());
                }
                li = li.mul_polynomial(factor);
                proof {
                    assert forall|y: nat| #[trigger] poly_eval(li@, y) == (poly_eval(before, y) * poly_eval(factor@, y)) % group_order() by {
                        lemma_eval_mul(before, factor@, y);
                    }
                    assert(poly_eval(factor@, xj@) == 0);
                    assert forall|k: int| 0 <= k < j + 1 && k != i implies poly_eval(li@, #[trigger] xs[k]) == 0 by {
                        if k < j {
                            lemma_mul_basics(poly_eval(factor@, xs[k]) as int);
                        } else {
                            lemma_mul_basics(poly_eval(before, xs[k]) as int);
                        }
                    }
                    if xi@ != xj@ {
                        assert(poly_eval(factor@, xi@) == 1);
                        lemma_mul_basics(poly_eval(before, xi@) as int);
                    }
                }
            } else {
                proof {
                    assert(li@ == before);
                }
            }
            j = j + 1;
        }
        proof {
            lemma_basis_degree(xs_of(point_values(points@)), i as int);
        }
        li
    }

    /// The polynomial through the given points: the sum over `i` of
    /// `y_i` times the `i`-th basis polynomial, on top of
    /// `len(points)` zero coefficients.
    pub fn interpolate(points: &[(FieldElement, FieldElement)]) -> (res: Self)
        requires
            1 <= points@.len() <= usize::MAX - 2,
        ensures
            res@ == interpolation(point_values(points@)),
            res@.len() == points@.len(),
            distinct(xs_of(point_values(points@))) ==> forall|k: int|
                0 <= k < points@.len() ==> poly_eval(res@, #[trigger] xs_of(point_values(points@))[k])
                    == point_values(points@)[k].1,
    {
        let ghost pts = point_values(points@);
        let ghost xs = xs_of(pts);
        let mut result = Polynomial::zero(points.len() - 1);
        proof {
            assert forall|y: nat| #[trigger] poly_eval(result@, y) == 0 by {
                lemma_eval_zeros(pts.len(), y);
            }
        }
        let mut i: usize = 0;
        while i < points.len()
            invariant
                pts == point_values(points@),
                xs == xs_of(pts),
                xs.len() == pts.len(),
                pts.len() == points@.len(),
                points@.len() <= usize::MAX - 2,
                i <= points@.len(),
                result@ == interpolate_upto(pts, i as nat),
                forall|k: int| 0 <= k < i ==> #[trigger] pts[k].1 < group_order(),
                distinct(xs) ==> forall|k: int|
                    0 <= k < pts.len() ==> poly_eval(result@, #[trigger] xs[k]) == if k < i {
                        pts[k].1
                    } else {
                        0
                    },
            decreases points@.len() - i,
        {
            let (_, yi) = points[i];
            yi.value_in_range();
            assert(yi@ == pts[i as int].1);
            let basis_poly = Polynomial::basis_polynomial(points, i);
            let ghost basis_view = basis_poly@;
            let term = basis_poly.mul_scalar(yi);
            let ghost before = result@;
            let ghost term_view = term@;
            result = result.add(term);
            proof {
                if distinct(xs) {
                    assert forall|k: int| 0 <= k < pts.len() implies poly_eval(result@, #[trigger] xs[k]) == if k < i + 1 {
                        pts[k].1
                    } else {
                        0
                    } by {
                        lemma_eval_add(before, term_view, xs[k]);
                        lemma_eval_scale(basis_view, yi@, xs[k]);
                        if k == i {
                            assert forall|m: int| 0 <= m < points@.len() && m != i implies #[trigger] xs[m] != xs[i as int] by {}
                            assert(poly_eval(basis_view, xs[k]) == 1);
                            lemma_mul_basics(yi@ as int);
                            lemma_small_mod(yi@, group_order());
                            lemma_small_mod(0, group_order());
                        } else {
                            assert(poly_eval(basis_view, xs[k]) == 0);
                            lemma_mul_basics(yi@ as int);
                            lemma_small_mod(0, group_order());
                            if k < i {
                                lemma_small_mod(pts[k].1, group_order());
                            }
                        }
                    }
                }
            }
            i = i + 1;
        }
        proof {
            lemma_interpolation_degree(point_values(points@));
        }
        result
    }
}


/// The constant polynomial 1 is one everywhere.
proof fn lemma_eval_constant_one(y: nat)
    ensures
        poly_eval(constant_coefficients(1, 1), y) == 1,
{
    let p = constant_coefficients(1, 1);
    assert(coef_fn(p)(0) == 1);
    assert(power(y, 0) == 1);
    assert(series(coef_fn(p), 1, y) == series(coef_fn(p), 0, y) + 1 * power(y, 0));
    lemma_small_mod(1, group_order());
}

impl std::ops::Add for Polynomial {
    type Output = Polynomial;

    /// `p + q`: the sum, as `Polynomial::add` computes it.
    fn add(self, other: Polynomial) -> (res: Polynomial)
        ensures
            res@ == poly_add(self@, other@),
            forall|x: nat| #[trigger] poly_eval(res@, x) == (poly_eval(self@, x) + poly_eval(other@, x)) % group_order(),
    {
        Polynomial::add(self, other)
    }
}

/// The operator `+` on polynomials: defined on all pairs. Its result is
/// described by the impl's `ensures` over views, which a spec value of the
/// type cannot carry, so `obeys_add_spec` is false.
impl vstd::std_specs::ops::AddSpecImpl for Polynomial {
    open spec fn obeys_add_spec() -> bool {
        false
    }

    open spec fn add_req(self, rhs: Polynomial) -> bool {
        true
    }

    open spec fn add_spec(self, rhs: Polynomial) -> Polynomial {
        self
    }
}

impl std::ops::Mul for Polynomial {
    type Output = Polynomial;

    /// `p * q`: the product, as `Polynomial::mul_polynomial` computes it.
    fn mul(self, other: Polynomial) -> (res: Polynomial)
        ensures
            res@ == poly_mul(self@, other@),
            res@.len() == self@.len() + other@.len() - 1,
            forall|x: nat| #[trigger] poly_eval(res@, x) == (poly_eval(self@, x) * poly_eval(other@, x)) % group_order(),
    {
        Polynomial::mul_polynomial(self, other)
    }
}

/// The operator `*` on polynomials: defined where they are not both empty
/// and the product's length fits in a `usize`. Its result is described by
/// the impl's `ensures` over views, so `obeys_mul_spec` is false.
impl vstd::std_specs::ops::MulSpecImpl for Polynomial {
    open spec fn obeys_mul_spec() -> bool {
        false
    }

    open spec fn mul_req(self, rhs: Polynomial) -> bool {
        1 <= self@.len() + rhs@.len() <= usize::MAX
    }

    open spec fn mul_spec(self, rhs: Polynomial) -> Polynomial {
        self
    }
}

impl std::ops::Mul<FieldElement> for Polynomial {
    type Output = Polynomial;

    /// `p * s`: every coefficient times `s`, as `Polynomial::mul_scalar`
    /// computes it.
    fn mul(self, scalar: FieldElement) -> (res: Polynomial)
        ensures
            res@ == poly_scale(self@, scalar@),
            forall|x: nat| #[trigger] poly_eval(res@, x) == (poly_eval(self@, x) * scalar@) % group_order(),
    {
        Polynomial::mul_scalar(self, scalar)
    }
}

/// The operator `*` of a polynomial by a field element: defined on all
/// pairs; its result is described by the impl's `ensures`, so
/// `obeys_mul_spec` is false.
impl vstd::std_specs::ops::MulSpecImpl<FieldElement> for Polynomial {
    open spec fn obeys_mul_spec() -> bool {
        false
    }

    open spec fn mul_req(self, rhs: FieldElement) -> bool {
        true
    }

    open spec fn mul_spec(self, rhs: FieldElement) -> Polynomial {
        self
    }
}

} // verus!
