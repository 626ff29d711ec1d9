//! Elements of the scalar field of secp256k1, held by their canonical
//! big-endian encoding; the arithmetic is k256's.

use k256::elliptic_curve::PrimeField;
use k256::{FieldBytes, Scalar};
use vstd::arithmetic::div_mod::lemma_fundamental_div_mod_converse;
use vstd::prelude::*;

verus! {

/// The order `n` of secp256k1's group: the modulus of its scalar field.
pub open spec fn group_order() -> nat {
    115792089237316195423570985008687907852837564279074904382605163141518161494337nat
}

/// The number that a big-endian byte string encodes.
pub open spec fn be_value(bytes: Seq<u8>) -> nat
    decreases bytes.len(),
{
    if bytes.len() == 0 {
        0
    } else {
        be_value(bytes.drop_last()) * 256 + bytes.last() as nat
    }
}

/// Two byte strings of one length that encode the same number are equal.
proof fn lemma_be_value_injective(a: Seq<u8>, b: Seq<u8>)
    requires
        a.len() == b.len(),
        be_value(a) == be_value(b),
    ensures
        a == b,
    decreases a.len(),
{
    if a.len() > 0 {
        let v = be_value(a) as int;
        lemma_fundamental_div_mod_converse(v, 256, be_value(a.drop_last()) as int, a.last() as int);
        lemma_fundamental_div_mod_converse(v, 256, be_value(b.drop_last()) as int, b.last() as int);
        lemma_be_value_injective(a.drop_last(), b.drop_last());
        assert(a =~= a.drop_last().push(a.last()));
        assert(b =~= b.drop_last().push(b.last()));
    } else {
        assert(a =~= b);
    }
}

/// The multiplicative inverse that k256 computes for a nonzero element.
pub uninterp spec fn field_inverse(a: nat) -> nat;

/// An element of the scalar field of secp256k1: the integers modulo
/// `group_order()`, held by the 32-byte big-endian encoding of the
/// representative below the order.
#[derive(Clone, Copy, Debug)]
pub struct FieldElement {
    bytes: [u8; 32],
}

impl View for FieldElement {
    type V = nat;

    closed spec fn view(&self) -> nat {
        be_value(self.bytes@)
    }
}

impl FieldElement {
    #[verifier::type_invariant]
    spec fn reduced(self) -> bool {
        be_value(self.bytes@) < group_order()
    }

    /// Brings the fact that the value is below the order into a proof.
    pub(crate) fn value_in_range(&self)
        ensures
            self@ < group_order(),
    {
        proof {
            use_type_invariant(self);
        }
    }

    /// Zero.
    pub fn zero() -> (res: Self)
        ensures
            res@ == 0,
    {
        scalar_zero()
    }

    /// One.
    pub fn one() -> (res: Self)
        ensures
            res@ == 1,
    {
        scalar_one()
    }

    /// The element `x`.
    pub fn from_u64(x: u64) -> (res: Self)
        ensures
            res@ == x,
    {
        scalar_from_u64(x)
    }
}

impl PartialEq for FieldElement {
    fn eq(&self, other: &Self) -> (res: bool) {
        let mut i: usize = 0;
        while i < 32
            invariant
                i <= 32,
                forall|k: int| 0 <= k < i ==> self.bytes@[k] == other.bytes@[k],
            decreases 32 - i,
        {
            if self.bytes[i] != other.bytes[i] {
                proof {
                    if be_value(self.bytes@) == be_value(other.bytes@) {
                        lemma_be_value_injective(self.bytes@, other.bytes@);
                    }
                }
                return false;
            }
            i = i + 1;
        }
        proof {
            assert(self.bytes@ =~= other.bytes@);
        }
        true
    }
}

impl vstd::std_specs::cmp::PartialEqSpecImpl for FieldElement {
    open spec fn obeys_eq_spec() -> bool {
        true
    }

    open spec fn eq_spec(&self, other: &Self) -> bool {
        self@ == other@
    }
}

impl Eq for FieldElement {

}

/// The zero of k256's scalar field (`Scalar::ZERO`).
#[verifier::external_body]
fn scalar_zero() -> (res: FieldElement)
    ensures
        res@ == 0,
{
    FieldElement { bytes: Scalar::ZERO.to_bytes().into() }
}

/// The one of k256's scalar field (`Scalar::ONE`).
#[verifier::external_body]
fn scalar_one() -> (res: FieldElement)
    ensures
        res@ == 1,
{
    FieldElement { bytes: Scalar::ONE.to_bytes().into() }
}

/// A `u64` as a field element (`<Scalar as From<u64>>::from`).
#[verifier::external_body]
fn scalar_from_u64(x: u64) -> (res: FieldElement)
    ensures
        res@ == x,
{
    FieldElement { bytes: Scalar::from(x).to_bytes().into() }
}

/// `a + b mod n` (`<Scalar as Add>::add`).
#[verifier::external_body]
pub(crate) fn scalar_add(a: &FieldElement, b: &FieldElement) -> (res: FieldElement)
    ensures
        res@ == (a@ + b@) % group_order(),
{
    let x = Scalar::from_repr(FieldBytes::from(a.bytes)).unwrap();
    let y = Scalar::from_repr(FieldBytes::from(b.bytes)).unwrap();
    FieldElement { bytes: (x + y).to_bytes().into() }
}

/// `a - b mod n` (`<Scalar as Sub>::sub`).
#[verifier::external_body]
pub(crate) fn scalar_sub(a: &FieldElement, b: &FieldElement) -> (res: FieldElement)
    ensures
        res@ == (a@ + group_order() - b@) % (group_order() as int),
{
    let x = Scalar::from_repr(FieldBytes::from(a.bytes)).unwrap();
    let y = Scalar::from_repr(FieldBytes::from(b.bytes)).unwrap();
    FieldElement { bytes: (x - y).to_bytes().into() }
}

/// `a * b mod n` (`<Scalar as Mul>::mul`).
#[verifier::external_body]
pub(crate) fn scalar_mul(a: &FieldElement, b: &FieldElement) -> (res: FieldElement)
    ensures
        res@ == (a@ * b@) % group_order(),
{
    let x = Scalar::from_repr(FieldBytes::from(a.bytes)).unwrap();
    let y = Scalar::from_repr(FieldBytes::from(b.bytes)).unwrap();
    FieldElement { bytes: (x * y).to_bytes().into() }
}

/// `-a mod n` (`<Scalar as Neg>::neg`).
#[verifier::external_body]
pub(crate) fn scalar_neg(a: &FieldElement) -> (res: FieldElement)
    ensures
        res@ == (group_order() - a@) % (group_order() as int),
{
    let x = Scalar::from_repr(FieldBytes::from(a.bytes)).unwrap();
    FieldElement { bytes: (-x).to_bytes().into() }
}

/// The inverse of `a` (`Scalar::invert`): none for zero; for a nonzero
/// element, the value named `field_inverse(a)`, whose product with `a` is
/// 1 modulo the order.
#[verifier::external_body]
pub(crate) fn scalar_invert(a: &FieldElement) -> (res: Option<FieldElement>)
    ensures
        res is None <==> a@ == 0,
        res matches Some(r) ==> r@ == field_inverse(a@) && (a@ * r@) % group_order() == 1,
{
    let x = Scalar::from_repr(FieldBytes::from(a.bytes)).unwrap();
    let inverse: Option<Scalar> = x.invert().into();
    match inverse {
        Some(s) => Some(FieldElement { bytes: s.to_bytes().into() }),
        None => None,
    }
}

} // verus!
