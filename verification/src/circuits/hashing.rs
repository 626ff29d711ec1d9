//! How a circuit node is hashed, and how a hash is written as a name.
//!
//! A node is hashed with std's `DefaultHasher`, whose state vstd models as the
//! sequence of byte strings written into it so far. The bytes that `Hash`
//! writes for an operation, a string, an `i64`, an `i32` and a `u64` are fixed for the
//! target the library is built for; they are named here, not spelled out.

use crate::circuits::circuit::Operation;
use std::collections::hash_map::DefaultHasher;
use std::hash::{Hash, Hasher};
use vstd::prelude::*;

verus! {

/// What `<Operation as Hash>::hash` writes into a `DefaultHasher`.
pub uninterp spec fn operation_hash_writes(op: Operation) -> Seq<Seq<u8>>;

/// What `<String as Hash>::hash` writes into a `DefaultHasher` for a string
/// with the characters `text`.
pub uninterp spec fn text_hash_writes(text: Seq<char>) -> Seq<Seq<u8>>;

/// What `<i64 as Hash>::hash` writes into a `DefaultHasher`.
pub uninterp spec fn number_hash_writes(n: i64) -> Seq<Seq<u8>>;

/// What `<i32 as Hash>::hash` writes into a `DefaultHasher`.
pub uninterp spec fn small_number_hash_writes(n: i32) -> Seq<Seq<u8>>;

/// What `Hasher::write_u64` writes into a `DefaultHasher`.
pub uninterp spec fn word_hash_writes(w: u64) -> Seq<Seq<u8>>;

/// What `Hasher::write_usize` writes into a `DefaultHasher`.
pub uninterp spec fn index_hash_writes(i: usize) -> Seq<Seq<u8>>;

/// Feeds an operation to the hasher through its derived `Hash` impl
/// (`<Operation as Hash>::hash`); the contract claims that the bytes it adds
/// depend on the operation alone.
#[verifier::external_body]
pub(crate) fn hash_operation(op: &Operation, state: &mut DefaultHasher)
    ensures
        final(state)@ == old(state)@ + operation_hash_writes(*op),
{
    op.hash(state)
}

/// Feeds a string to the hasher (`<String as Hash>::hash`); the contract
/// claims that the bytes it adds depend on the characters alone.
#[verifier::external_body]
pub(crate) fn hash_text(text: &String, state: &mut DefaultHasher)
    ensures
        final(state)@ == old(state)@ + text_hash_writes(text@),
{
    text.hash(state)
}

/// Feeds an `i64` to the hasher (`<i64 as Hash>::hash`); the contract claims
/// that the bytes it adds depend on the number alone.
#[verifier::external_body]
pub(crate) fn hash_number(n: i64, state: &mut DefaultHasher)
    ensures
        final(state)@ == old(state)@ + number_hash_writes(n),
{
    n.hash(state)
}

/// Feeds an `i32` to the hasher (`<i32 as Hash>::hash`); the contract claims
/// that the bytes it adds depend on the number alone.
#[verifier::external_body]
pub(crate) fn hash_small_number(n: i32, state: &mut DefaultHasher)
    ensures
        final(state)@ == old(state)@ + small_number_hash_writes(n),
{
    n.hash(state)
}

/// Writes a `u64` into the hasher (`Hasher::write_u64`); the contract claims
/// that the bytes it adds depend on the number alone.
#[verifier::external_body]
pub(crate) fn hash_word(w: u64, state: &mut DefaultHasher)
    ensures
        final(state)@ == old(state)@ + word_hash_writes(w),
{
    state.write_u64(w)
}

/// Writes a `usize` into the hasher (`Hasher::write_usize`); the contract
/// claims that the bytes it adds depend on the number alone.
#[verifier::external_body]
pub(crate) fn hash_index(i: usize, state: &mut DefaultHasher)
    ensures
        final(state)@ == old(state)@ + index_hash_writes(i),
{
    state.write_usize(i)
}

/// The character of a decimal digit.
pub open spec fn digit_char(d: nat) -> char {
    (48 + d) as char
}

/// The decimal numeral of `n`: no sign, no leading zeros.
pub open spec fn decimal(n: nat) -> Seq<char>
    decreases n,
{
    if n < 10 {
        seq![digit_char(n)]
    } else {
        decimal(n / 10).push(digit_char(n % 10))
    }
}

/// Writes a `u64` in decimal (`<u64 as ToString>::to_string`); the contract
/// states the numeral that `Display` for integers writes.
#[verifier::external_body]
pub(crate) fn decimal_string(n: u64) -> (res: String)
    ensures
        res@ == decimal(n as nat),
{
    n.to_string()
}

} // verus!
