use zk_circuits::utils::polynomial::Polynomial;
use zk_circuits::utils::FieldElement;

fn fe(n: u64) -> FieldElement {
    FieldElement::from_u64(n)
}

#[test]
fn test_basis_polynomials() {
    let points = vec![(fe(0), fe(0)), (fe(1), fe(1)), (fe(3), fe(6))];
    for (i, &(xi, _)) in points.iter().enumerate() {
        let basis_poly = Polynomial::basis_polynomial(&points, i);

        assert_eq!(basis_poly.evaluate_at(xi), FieldElement::one());

        for (j, &(xj, _)) in points.iter().enumerate() {
            if j != i {
                assert_eq!(basis_poly.evaluate_at(xj), FieldElement::zero());
            }
        }
    }
}

#[test]
fn test_lagrange_polynomial() {
    let points = vec![(fe(1), fe(3)), (fe(2), fe(7)), (fe(3), fe(4))];

    let poly = Polynomial::interpolate(&points);

    assert_eq!(poly.evaluate_at(fe(1)), fe(3));
    assert_eq!(poly.evaluate_at(fe(2)), fe(7));
    assert_eq!(poly.evaluate_at(fe(3)), fe(4));
}

#[test]
fn test_evaluate_at() {
    // 1 + 2x + 3x^2 at 2 is 17
    let poly = Polynomial::new(vec![fe(1), fe(2), fe(3)]);
    assert_eq!(poly.evaluate_at(fe(2)), fe(17));
    assert_eq!(poly.evaluate_at(fe(0)), fe(1));
}

#[test]
fn test_zero_and_one() {
    assert_eq!(Polynomial::zero(2).evaluate_at(fe(5)), fe(0));
    // 1 + x + x^2 at 2
    assert_eq!(Polynomial::one(2).evaluate_at(fe(2)), fe(7));
}

#[test]
fn test_add_and_mul() {
    let p = Polynomial::new(vec![fe(1), fe(1)]); // 1 + x
    let q = Polynomial::new(vec![fe(2), fe(0), fe(1)]); // 2 + x^2
    let sum = p.clone().add(q.clone());
    assert_eq!(sum.evaluate_at(fe(3)), fe(4 + 11));
    let product = p.clone().mul_polynomial(q.clone());
    assert_eq!(product.evaluate_at(fe(3)), fe(4 * 11));
    let scaled = p.mul_scalar(fe(5));
    assert_eq!(scaled.evaluate_at(fe(3)), fe(20));
}

#[test]
fn test_operators() {
    let p = Polynomial::new(vec![fe(1), fe(1)]); // 1 + x
    let q = Polynomial::new(vec![fe(2), fe(0), fe(1)]); // 2 + x^2
    let sum = p.clone() + q.clone();
    assert_eq!(sum.evaluate_at(fe(3)), fe(15));
    let product = p.clone() * q.clone();
    assert_eq!(product.evaluate_at(fe(3)), fe(44));
    let scaled = p * fe(5);
    assert_eq!(scaled.evaluate_at(fe(3)), fe(20));
}

#[test]
fn test_field_wraps_at_the_order() {
    // -1 is n - 1: (x - 1) evaluated at 0
    let p = Polynomial::new(vec![fe(0), fe(1)]);
    let minus_one = Polynomial::interpolate(&[(fe(0), fe(0)), (fe(1), fe(1))]);
    assert_eq!(minus_one.evaluate_at(fe(7)), p.evaluate_at(fe(7)));
    assert_ne!(fe(1), fe(2));
}

#[test]
fn test_polynomial_creation() {
    let coefficients = vec![1, 2, 3];
    let poly = zk_circuits::zk_proof::polynomial::Polynomial::new(coefficients.clone());
    assert_eq!(poly.coefficients, coefficients);
}

#[test]
fn test_polynomial_evaluation() {
    let poly = zk_circuits::zk_proof::polynomial::Polynomial::new(vec![1, 2, 3]);
    assert_eq!(poly.evaluate(0), 1);
    assert_eq!(poly.evaluate(1), 6);
    assert_eq!(poly.evaluate(2), 17);
}

#[test]
fn test_integer_polynomial_negative_point() {
    let poly = zk_circuits::zk_proof::polynomial::Polynomial::new(vec![5, -3, 0, 1]);
    // 5 + 6 + 0 - 8
    assert_eq!(poly.evaluate(-2), 3);
}
