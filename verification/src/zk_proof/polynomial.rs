//! Polynomials with `i32` coefficients, evaluated in `i32` arithmetic.

use vstd::prelude::*;

verus! {

/// `x` to the power `e`, over the integers.
pub open spec fn int_power(x: int, e: nat) -> int
    decreases e,
{
    if e == 0 {
        1
    } else {
        x * int_power(x, (e - 1) as nat)
    }
}

/// The `i`-th term of the evaluation at `x`: `c_i * x^i`, with the exponent
/// taken as a `u32`.
pub open spec fn term(coefficients: Seq<i32>, x: i32, i: int) -> int {
    coefficients[i] as int * int_power(x as int, (i as u32) as nat)
}

/// The sum of the first `i` terms.
pub open spec fn partial_value(coefficients: Seq<i32>, x: i32, i: nat) -> int
    decreases i,
{
    if i == 0 {
        0
    } else {
        partial_value(coefficients, x, (i - 1) as nat) + term(coefficients, x, i - 1)
    }
}

/// Fits in an `i32`.
pub open spec fn fits_i32(v: int) -> bool {
    i32::MIN <= v <= i32::MAX
}

/// Every power, term and partial sum of the evaluation at `x` fits in an
/// `i32`, so the evaluation does not overflow.
pub open spec fn evaluation_fits(coefficients: Seq<i32>, x: i32) -> bool {
    forall|i: int|
        0 <= i < coefficients.len() ==> {
            &&& fits_i32(int_power(x as int, (i as u32) as nat))
            &&& fits_i32(#[trigger] term(coefficients, x, i))
            &&& fits_i32(partial_value(coefficients, x, (i + 1) as nat))
        }
}

/// `x` to the power `exp` (`i32::pow`), where the result fits in an `i32`.
#[verifier::external_body]
fn i32_pow(x: i32, exp: u32) -> (res: i32)
    requires
        fits_i32(int_power(x as int, exp as nat)),
    ensures
        res == int_power(x as int, exp as nat),
{
    x.pow(exp)
}

/// A polynomial: `coefficients[k]` is the coefficient of `x^k`.
pub struct Polynomial {
    pub coefficients: Vec<i32>,
}

impl Polynomial {
    /// The polynomial with the given coefficients, lowest degree first.
    pub fn new(coefficients: Vec<i32>) -> (res: Self)
        ensures
            res.coefficients == coefficients,
    {
        Polynomial { coefficients }
    }

    /// The value at `x`: the sum of `c_i * x^i`.
    pub fn evaluate(&self, x: i32) -> (res: i32)
        requires
            evaluation_fits(self.coefficients@, x),
        ensures
            res == partial_value(self.coefficients@, x, self.coefficients@.len()),
    {
        let mut acc: i32 = 0;
        let mut i: usize = 0;
        while i < self.coefficients.len()
            invariant
                i <= self.coefficients@.len(),
                evaluation_fits(self.coefficients@, x),
                acc == partial_value(self.coefficients@, x, i as nat),
            decreases self.coefficients@.len() - i,
        {
            let coeff = self.coefficients[i];
            proof {
                assert(fits_i32(term(self.coefficients@, x, i as int)));
            }
            let p = i32_pow(x, i as u32);
            acc = acc + coeff * p;
            i = i + 1;
        }
        acc
    }
}

} // verus!
