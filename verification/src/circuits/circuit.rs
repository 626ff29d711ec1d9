//! Arithmetic circuits: binary operations over numbers, named inputs and
//! nested circuits.

use crate::circuits::hashing::{
    decimal, decimal_string, hash_number, hash_operation, hash_text, hash_word,
    number_hash_writes, operation_hash_writes, text_hash_writes, word_hash_writes,
};
use crate::circuits::indexed_map::{with_item, IndexedMap, key_views};
use std::collections::hash_map::DefaultHasher;
use std::hash::Hasher;
use vstd::prelude::*;
use vstd::std_specs::hash::DefaultHasherAdditionalSpecFns;

verus! {

/// The operation that a circuit node applies to its operands.
#[derive(Debug, Clone, Copy, PartialEq, Eq, Structural, Hash)]
pub enum Operation {
    Add,
    Multiply,
}

/// An operand of a circuit node.
#[derive(Debug)]
pub enum Operand {
    Number(i64),
    Variable(String),
    NestedCircuit(Box<Circuit>),
}

/// A circuit node: an operation, its operands, and the node's hash once
/// it has been computed (0 until then).
#[derive(Debug)]
pub struct Circuit {
    pub operation: Operation,
    pub operands: Vec<Operand>,
    pub hash: u64,
}

// ---------------------------------------------------------------------------
// Hashes of nodes
// ---------------------------------------------------------------------------

/// What hashing an operand writes into the node's hasher.
pub open spec fn operand_hash_writes(o: Operand) -> Seq<Seq<u8>>
    decreases o,
{
    match o {
        Operand::Number(n) => number_hash_writes(n),
        Operand::Variable(v) => text_hash_writes(v@),
        Operand::NestedCircuit(c) => word_hash_writes(circuit_digest(*c)),
    }
}

/// What hashing a run of operands writes, in order.
pub open spec fn operands_hash_writes(ops: Seq<Operand>) -> Seq<Seq<u8>>
    decreases ops,
{
    if ops.len() == 0 {
        Seq::empty()
    } else {
        operands_hash_writes(ops.drop_last()) + operand_hash_writes(ops.last())
    }
}

/// The hash of a node: the operation, then each operand, fed to a fresh
/// `DefaultHasher` (a nested node contributes its own hash). The stored hash
/// fields play no part.
pub open spec fn circuit_digest(c: Circuit) -> u64
    decreases c,
{
    DefaultHasher::spec_finish(operation_hash_writes(c.operation) + operands_hash_writes(c.operands@))
}

/// `after` is `before` with the hash field of every node set to its digest.
pub open spec fn operand_rehashed(before: Operand, after: Operand) -> bool
    decreases before,
{
    match before {
        Operand::NestedCircuit(c) => match after {
            Operand::NestedCircuit(d) => rehashed(*c, *d),
            _ => false,
        },
        _ => after == before,
    }
}

/// Operand by operand, `after` is `before` rehashed.
pub open spec fn operands_rehashed(before: Seq<Operand>, after: Seq<Operand>) -> bool
    decreases before,
{
    &&& before.len() == after.len()
    &&& before.len() > 0 ==> {
        &&& operands_rehashed(before.drop_last(), after.drop_last())
        &&& operand_rehashed(before.last(), after.last())
    }
}

/// `after` is `before` with every hash field set to the node's digest.
pub open spec fn rehashed(before: Circuit, after: Circuit) -> bool
    decreases before,
{
    &&& after.operation == before.operation
    &&& after.hash == circuit_digest(before)
    &&& operands_rehashed(before.operands@, after.operands@)
}

/// `b` has the shape of `a`: the same constants and inputs, and nested
/// nodes with the same operations, node by node; where `with_hashes`, also
/// the same stored hashes.
pub open spec fn operand_matches(a: Operand, b: Operand, with_hashes: bool) -> bool
    decreases a,
{
    match a {
        Operand::NestedCircuit(c) => match b {
            Operand::NestedCircuit(d) => circuit_matches(*c, *d, with_hashes),
            _ => false,
        },
        _ => b == a,
    }
}

/// Operand by operand, `b` has the shape of `a`.
pub open spec fn operands_match(a: Seq<Operand>, b: Seq<Operand>, with_hashes: bool) -> bool
    decreases a,
{
    &&& a.len() == b.len()
    &&& a.len() > 0 ==> {
        &&& operands_match(a.drop_last(), b.drop_last(), with_hashes)
        &&& operand_matches(a.last(), b.last(), with_hashes)
    }
}

/// `b` has the operation and operands of `a`, node by node; where
/// `with_hashes`, also the stored hash of every node.
pub open spec fn circuit_matches(a: Circuit, b: Circuit, with_hashes: bool) -> bool
    decreases a,
{
    &&& b.operation == a.operation
    &&& with_hashes ==> b.hash == a.hash
    &&& operands_match(a.operands@, b.operands@, with_hashes)
}

// ---------------------------------------------------------------------------
// Variables of a circuit
// ---------------------------------------------------------------------------

/// The name given to the output of the root node.
pub open spec fn out_name() -> Seq<char> {
    "out"@
}

/// The name of the constant-one variable.
pub open spec fn one_name() -> Seq<char> {
    "1"@
}

/// Names added to the static variables while indexing an operand.
pub open spec fn operand_static_names(o: Operand) -> Seq<Seq<char>>
    decreases o,
{
    match o {
        Operand::Number(_) => Seq::empty(),
        Operand::Variable(v) => seq![v@],
        Operand::NestedCircuit(c) => static_names(*c, false),
    }
}

/// Names added to the static variables while indexing a run of operands.
pub open spec fn operands_static_names(ops: Seq<Operand>) -> Seq<Seq<char>>
    decreases ops,
{
    if ops.len() == 0 {
        Seq::empty()
    } else {
        operands_static_names(ops.drop_last()) + operand_static_names(ops.last())
    }
}

/// Names added to the static variables while indexing a node, in order:
/// the input names of its operands, and `out` after the root.
pub open spec fn static_names(c: Circuit, root: bool) -> Seq<Seq<char>>
    decreases c,
{
    operands_static_names(c.operands@) + if root {
        seq![out_name()]
    } else {
        Seq::empty()
    }
}

/// Names added to the linearization variables while indexing an operand.
pub open spec fn operand_linear_names(o: Operand) -> Seq<Seq<char>>
    decreases o,
{
    match o {
        Operand::NestedCircuit(c) => linear_names(*c, false),
        _ => Seq::empty(),
    }
}

/// Names added to the linearization variables while indexing a run of operands.
pub open spec fn operands_linear_names(ops: Seq<Operand>) -> Seq<Seq<char>>
    decreases ops,
{
    if ops.len() == 0 {
        Seq::empty()
    } else {
        operands_linear_names(ops.drop_last()) + operand_linear_names(ops.last())
    }
}

/// Names added to the linearization variables while indexing a node, in
/// order: those of its nested nodes, then (below the root) the decimal
/// numeral of the node's own hash.
pub open spec fn linear_names(c: Circuit, root: bool) -> Seq<Seq<char>>
    decreases c,
{
    operands_linear_names(c.operands@) + if root {
        Seq::empty()
    } else {
        seq![decimal(circuit_digest(c) as nat)]
    }
}

/// The items of an indexed map after adding `names` one by one.
pub open spec fn add_all(items: Seq<Seq<char>>, names: Seq<Seq<char>>) -> Seq<Seq<char>>
    decreases names.len(),
{
    if names.len() == 0 {
        items
    } else {
        with_item(add_all(items, names.drop_last()), names.last())
    }
}

/// Adding two runs of names is adding their concatenation.
pub proof fn lemma_add_all_concat(items: Seq<Seq<char>>, xs: Seq<Seq<char>>, ys: Seq<Seq<char>>)
    ensures
        add_all(items, xs + ys) == add_all(add_all(items, xs), ys),
    decreases ys.len(),
{
    if ys.len() == 0 {
        assert(xs + ys =~= xs);
    } else {
        lemma_add_all_concat(items, xs, ys.drop_last());
        assert((xs + ys).drop_last() =~= xs + ys.drop_last());
        assert((xs + ys).last() == ys.last());
    }
}

/// The variables of a circuit, in the order in which they index the columns
/// of its constraint system: `1`, the input names in order of first
/// appearance, `out`, then the names of the nested nodes' outputs.
pub open spec fn circuit_variables(c: Circuit) -> Seq<Seq<char>> {
    add_all(seq![one_name()], static_names(c, true)) + add_all(Seq::empty(), linear_names(c, true))
}

/// Rehashing changes only stored hashes, which no digest reads: the digest
/// of each operand stays the same.
proof fn lemma_operand_rehashed_digest(before: Operand, after: Operand)
    requires
        operand_rehashed(before, after),
    ensures
        operand_hash_writes(after) == operand_hash_writes(before),
        operand_static_names(after) == operand_static_names(before),
        operand_linear_names(after) == operand_linear_names(before),
    decreases before,
{
    match before {
        Operand::NestedCircuit(c) => match after {
            Operand::NestedCircuit(d) => {
                lemma_rehashed_digest(*c, *d);
            },
            _ => {},
        },
        _ => {},
    }
}

/// Run by run of operands, rehashing keeps what the digests and the
/// variable names depend on.
proof fn lemma_operands_rehashed_digest(before: Seq<Operand>, after: Seq<Operand>)
    requires
        operands_rehashed(before, after),
    ensures
        operands_hash_writes(after) == operands_hash_writes(before),
        operands_static_names(after) == operands_static_names(before),
        operands_linear_names(after) == operands_linear_names(before),
    decreases before,
{
    if before.len() > 0 {
        lemma_operands_rehashed_digest(before.drop_last(), after.drop_last());
        lemma_operand_rehashed_digest(before.last(), after.last());
    }
}

/// A rehashed circuit has the digest, and the variable names, of the
/// circuit it was rehashed from.
pub proof fn lemma_rehashed_digest(before: Circuit, after: Circuit)
    requires
        rehashed(before, after),
    ensures
        circuit_digest(after) == circuit_digest(before),
        static_names(after, true) == static_names(before, true),
        static_names(after, false) == static_names(before, false),
        linear_names(after, true) == linear_names(before, true),
        linear_names(after, false) == linear_names(before, false),
    decreases before,
{
    lemma_operands_rehashed_digest(before.operands@, after.operands@);
}

/// Rehashing a rehashed circuit leaves it as it is.
proof fn lemma_rehashed_fixed(before: Circuit, after: Circuit)
    requires
        rehashed(before, after),
    ensures
        rehashed(after, after),
    decreases before,
{
    lemma_rehashed_digest(before, after);
    lemma_operands_rehashed_fixed(before.operands@, after.operands@);
}

/// Run by run of operands, rehashing a rehashed run leaves it as it is.
proof fn lemma_operands_rehashed_fixed(before: Seq<Operand>, after: Seq<Operand>)
    requires
        operands_rehashed(before, after),
    ensures
        operands_rehashed(after, after),
    decreases before,
{
    if before.len() > 0 {
        lemma_operands_rehashed_fixed(before.drop_last(), after.drop_last());
        assert(operand_rehashed(before.last(), after.last()));
        match before.last() {
            Operand::NestedCircuit(c) => match after.last() {
                Operand::NestedCircuit(d) => {
                    assert(rehashed(*c, *d));
                    lemma_rehashed_fixed(*c, *d);
                    assert(operand_rehashed(after.last(), after.last()));
                },
                _ => {},
            },
            _ => {
                assert(operand_rehashed(after.last(), after.last()));
            },
        }
    }
}

/// Hashing and indexing a circuit a second time changes nothing: the
/// rehashed circuit keeps its digest and its variables, and rehashing it
/// again gives it back.
pub proof fn lemma_reindex_unchanged(before: Circuit, after: Circuit)
    requires
        rehashed(before, after),
    ensures
        circuit_digest(after) == circuit_digest(before),
        circuit_variables(after) == circuit_variables(before),
        rehashed(after, after),
{
    lemma_rehashed_digest(before, after);
    lemma_rehashed_fixed(before, after);
}

/// Operands of the same shape write the same bytes and add the same names.
proof fn lemma_operand_matches_digest(a: Operand, b: Operand)
    requires
        operand_matches(a, b, false),
    ensures
        operand_hash_writes(b) == operand_hash_writes(a),
        operand_static_names(b) == operand_static_names(a),
        operand_linear_names(b) == operand_linear_names(a),
    decreases a,
{
    match a {
        Operand::NestedCircuit(c) => match b {
            Operand::NestedCircuit(d) => {
                lemma_matches_digest(*c, *d);
            },
            _ => {},
        },
        _ => {},
    }
}

/// Runs of operands of the same shape write the same bytes and add the
/// same names.
proof fn lemma_operands_match_digest(a: Seq<Operand>, b: Seq<Operand>)
    requires
        operands_match(a, b, false),
    ensures
        operands_hash_writes(b) == operands_hash_writes(a),
        operands_static_names(b) == operands_static_names(a),
        operands_linear_names(b) == operands_linear_names(a),
    decreases a,
{
    if a.len() > 0 {
        lemma_operands_match_digest(a.drop_last(), b.drop_last());
        lemma_operand_matches_digest(a.last(), b.last());
    }
}

/// Circuits of the same shape have the same digest and the same names.
proof fn lemma_matches_digest(a: Circuit, b: Circuit)
    requires
        circuit_matches(a, b, false),
    ensures
        circuit_digest(b) == circuit_digest(a),
        static_names(b, true) == static_names(a, true),
        static_names(b, false) == static_names(a, false),
        linear_names(b, true) == linear_names(a, true),
        linear_names(b, false) == linear_names(a, false),
    decreases a,
{
    lemma_operands_match_digest(a.operands@, b.operands@);
}

/// Rehashing runs of operands of the same shape gives runs that match,
/// stored hashes included.
proof fn lemma_operands_rehash_match(a: Seq<Operand>, b: Seq<Operand>, a2: Seq<Operand>, b2: Seq<Operand>)
    requires
        operands_match(a, b, false),
        operands_rehashed(a, a2),
        operands_rehashed(b, b2),
    ensures
        operands_match(a2, b2, true),
    decreases a,
{
    if a.len() > 0 {
        assert(operand_matches(a.last(), b.last(), false));
        assert(operand_rehashed(a.last(), a2.last()));
        assert(operand_rehashed(b.last(), b2.last()));
        lemma_operands_rehash_match(a.drop_last(), b.drop_last(), a2.drop_last(), b2.drop_last());
        match a.last() {
            Operand::NestedCircuit(c) => match b.last() {
                Operand::NestedCircuit(d) => match a2.last() {
                    Operand::NestedCircuit(c2) => match b2.last() {
                        Operand::NestedCircuit(d2) => {
                            lemma_rehash_match(*c, *d, *c2, *d2);
                        },
                        _ => {},
                    },
                    _ => {},
                },
                _ => {},
            },
            _ => {},
        }
        assert(operand_matches(a2.last(), b2.last(), true));
    }
}

/// Rehashing circuits of the same shape gives circuits that match, stored
/// hashes included.
proof fn lemma_rehash_match(a: Circuit, b: Circuit, a2: Circuit, b2: Circuit)
    requires
        circuit_matches(a, b, false),
        rehashed(a, a2),
        rehashed(b, b2),
    ensures
        circuit_matches(a2, b2, true),
    decreases a,
{
    lemma_matches_digest(a, b);
    lemma_operands_rehash_match(a.operands@, b.operands@, a2.operands@, b2.operands@);
}

/// Hashing and indexing reads no stored hash: two circuits that differ only
/// in their stored hashes get the same variable map, the same hash, and
/// the same hash at every node.
pub proof fn lemma_index_ignores_stored_hashes(c1: Circuit, c2: Circuit, after1: Circuit, after2: Circuit)
    requires
        circuit_matches(c1, c2, false),
        rehashed(c1, after1),
        rehashed(c2, after2),
    ensures
        circuit_variables(c2) == circuit_variables(c1),
        circuit_digest(c2) == circuit_digest(c1),
        circuit_matches(after1, after2, true),
{
    lemma_matches_digest(c1, c2);
    lemma_rehash_match(c1, c2, after1, after2);
}

/// What std's hashing writes for an operand as it stands: a constant by
/// `<i64 as Hash>` of the constant itself, an input by `<String as Hash>`
/// of its name, a nested node by writing its stored hash as a `u64`.
pub open spec fn given_operand_writes(o: Operand) -> Seq<Seq<u8>> {
    match o {
        Operand::Number(n) => number_hash_writes(n),
        Operand::Variable(v) => text_hash_writes(v@),
        Operand::NestedCircuit(d) => word_hash_writes(d.hash),
    }
}

/// In a run of operands whose nested nodes hold their digests, hashing the
/// run writes what std's hashing writes for each operand as it stands.
proof fn lemma_operands_writes_as_given(ops: Seq<Operand>)
    requires
        operands_rehashed(ops, ops),
    ensures
        operands_hash_writes(ops) == ops.map_values(|o: Operand| given_operand_writes(o)).flatten(),
    decreases ops.len(),
{
    let f = |o: Operand| given_operand_writes(o);
    if ops.len() == 0 {
        assert(ops.map_values(f) =~= Seq::<Seq<Seq<u8>>>::empty());
    } else {
        let rest = ops.drop_last();
        lemma_operands_writes_as_given(rest);
        assert(ops.map_values(f) =~= rest.map_values(f).push(f(ops.last())));
        rest.map_values(f).lemma_flatten_push(f(ops.last()));
        match ops.last() {
            Operand::NestedCircuit(d) => {
                assert(operand_rehashed(ops.last(), ops.last()));
                assert(rehashed(*d, *d));
            },
            _ => {},
        }
        assert(operand_hash_writes(ops.last()) == f(ops.last()));
    }
}

/// The stored hash that indexing gives a node is what std's
/// `DefaultHasher` finishes with after hashing the node as it stands: its
/// operation, then each operand in order, a constant by `<i64 as Hash>` of
/// the constant itself (sign included), an input by its name, a nested
/// node by its own stored hash. Every nested node of an indexed circuit is
/// itself indexed, so this holds at every depth.
pub proof fn lemma_indexed_hash_is_std_hash(before: Circuit, after: Circuit)
    requires
        rehashed(before, after),
    ensures
        after.hash == DefaultHasher::spec_finish(
            operation_hash_writes(after.operation) + after.operands@.map_values(
                |o: Operand| given_operand_writes(o),
            ).flatten(),
        ),
{
    lemma_rehashed_digest(before, after);
    lemma_rehashed_fixed(before, after);
    lemma_operands_writes_as_given(after.operands@);
}

/// A copy of an operand, down to its nested nodes.
fn copy_operand(o: &Operand) -> (res: Operand)
    ensures
        operand_matches(*o, res, true),
    decreases *o,
{
    match o {
        Operand::Number(n) => Operand::Number(*n),
        Operand::Variable(v) => Operand::Variable(v.clone()),
        Operand::NestedCircuit(d) => Operand::NestedCircuit(Box::new(copy_circuit(&**d))),
    }
}

/// A copy of a circuit, down to its nested nodes.
fn copy_circuit(c: &Circuit) -> (res: Circuit)
    ensures
        circuit_matches(*c, res, true),
    decreases *c,
{
    let mut operands: Vec<Operand> = Vec::new();
    let mut i: usize = 0;
    proof {
        assert(c.operands@.take(0) =~= Seq::<Operand>::empty());
    }
    while i < c.operands.len()
        invariant
            i <= c.operands@.len(),
            operands_match(c.operands@.take(i as int), operands@, true),
        decreases c.operands@.len() - i,
    {
        let ghost before = operands@;
        let o = copy_operand(&c.operands[i]);
        operands.push(o);
        proof {
            assert(c.operands@.take(i + 1).drop_last() =~= c.operands@.take(i as int));
            assert(operands@.drop_last() =~= before);
        }
        i += 1;
    }
    proof {
        assert(c.operands@.take(i as int) =~= c.operands@);
    }
    Circuit { operation: c.operation, operands, hash: c.hash }
}

impl Clone for Operand {
    fn clone(&self) -> (res: Self)
        ensures
            operand_matches(*self, res, true),
    {
        copy_operand(self)
    }
}

impl Clone for Circuit {
    fn clone(&self) -> (res: Self)
        ensures
            circuit_matches(*self, res, true),
    {
        copy_circuit(self)
    }
}

impl Circuit {
    /// A node applying `operation` to two operands, with the given hash or 0.
    pub fn new(operation: Operation, operand1: Operand, operand2: Operand, hash: Option<u64>) -> (res: Self)
        ensures
            res.operation == operation,
            res.operands@ == seq![operand1, operand2],
            res.hash == match hash {
                Some(h) => h,
                None => 0,
            },
    {
        let h = match hash {
            Some(h) => h,
            None => 0,
        };
        Circuit { operation, operands: vec![operand1, operand2], hash: h }
    }

    /// Stores `new_hash` as the node's hash.
    pub fn set_hash(&mut self, new_hash: u64)
        ensures
            final(self).hash == new_hash,
            final(self).operation == old(self).operation,
            final(self).operands == old(self).operands,
    {
        self.hash = new_hash;
    }

    /// The node's stored hash.
    pub fn get_hash(&self) -> (res: u64)
        ensures
            res == self.hash,
    {
        self.hash
    }

    /// Whether the node has exactly two operands.
    pub fn is_valid(&self) -> (res: bool)
        ensures
            res == (self.operands.len() == 2),
    {
        self.operands.len() == 2
    }
}


impl Circuit {
    /// Hashes every node and collects the circuit's variables: `1`, the
    /// input names in order of first appearance and `out`, followed by the
    /// decimal hash of each nested node (each name once per part).
    pub fn hash_and_index_circuit(&mut self) -> (res: IndexedMap<String>)
        ensures
            rehashed(*old(self), *final(self)),
            res@ == circuit_variables(*old(self)),
            final(self).hash == DefaultHasher::spec_finish(
                operation_hash_writes(final(self).operation) + final(self).operands@.map_values(
                    |o: Operand| given_operand_writes(o),
                ).flatten(),
            ),
    {
        let mut linearization_variables: IndexedMap<String> = IndexedMap::new();
        let mut static_variables = IndexedMap::from_vector(vec!["1".to_string()]);
        proof {
            assert(static_variables@ =~= seq![one_name()]);
        }
        self.hash_and_index_recursive(true, &mut static_variables, &mut linearization_variables);
        let mut combined = static_variables.into_vector();
        let mut rest = linearization_variables.into_vector();
        let ghost left = combined@;
        let ghost right = rest@;
        combined.append(&mut rest);
        proof {
            assert(combined@ =~= left + right);
            assert(key_views(left + right) =~= key_views(left) + key_views(right));
            lemma_indexed_hash_is_std_hash(*old(self), *self);
        }
        IndexedMap::from_vector(combined)
    }

    /// Hashes this node after its nested nodes, stores the hash, and adds
    /// the node's variables to the static and linearization maps.
    fn hash_and_index_recursive(
        &mut self,
        root: bool,
        static_variables: &mut IndexedMap<String>,
        linearization_variables: &mut IndexedMap<String>,
    ) -> (res: u64)
        ensures
            rehashed(*old(self), *final(self)),
            res == circuit_digest(*old(self)),
            final(static_variables)@ == add_all(old(static_variables)@, static_names(*old(self), root)),
            final(linearization_variables)@ == add_all(
                old(linearization_variables)@,
                linear_names(*old(self), root),
            ),
        decreases *old(self),
    {
        let ghost ops = old(self).operands@;
        let mut hasher = DefaultHasher::new();
        hash_operation(&self.operation, &mut hasher);
        let n = self.operands.len();
        let mut i: usize = 0;
        proof {
            assert(ops.take(0) =~= Seq::<Operand>::empty());
            assert(hasher@ =~= operation_hash_writes(old(self).operation) + operands_hash_writes(ops.take(0)));
            assert(operands_rehashed(ops.take(0), self.operands@.take(0)));
        }
        while i < n
            invariant
                ops == old(self).operands@,
                n == ops.len(),
                i <= n,
                self.operation == old(self).operation,
                self.operands@.len() == n,
                operands_rehashed(ops.take(i as int), self.operands@.take(i as int)),
                forall|k: int| i <= k < n ==> self.operands@[k] == ops[k],
                hasher@ == operation_hash_writes(old(self).operation) + operands_hash_writes(ops.take(i as int)),
                static_variables@ == add_all(old(static_variables)@, operands_static_names(ops.take(i as int))),
                linearization_variables@ == add_all(
                    old(linearization_variables)@,
                    operands_linear_names(ops.take(i as int)),
                ),
            decreases n - i,
        {
            let ghost before = self.operands@;
            let ghost prev_static = static_variables@;
            let ghost prev_linear = linearization_variables@;
            let ghost prev_writes = hasher@;
            proof {
                assert(ops.take(i + 1).drop_last() =~= ops.take(i as int));
                assert(ops.take(i + 1).last() == ops[i as int]);
            }
            let operand = &mut self.operands[i];
            match operand {
                Operand::Variable(var) => {
                    let name = var.clone();
                    static_variables.add(name);
                    hash_text(var, &mut hasher);
                    proof {
                        assert(operand_static_names(ops[i as int]) == seq![var@]);
                        assert(static_variables@ == with_item(prev_static, var@));
                        assert(add_all(prev_static, seq![var@]) == with_item(
                            add_all(prev_static, seq![var@].drop_last()), var@));
                        assert(seq![var@].drop_last() =~= Seq::<Seq<char>>::empty());
                        lemma_add_all_concat(
                            old(static_variables)@,
                            operands_static_names(ops.take(i as int)),
                            seq![var@],
                        );
                        lemma_add_all_concat(
                            old(linearization_variables)@,
                            operands_linear_names(ops.take(i as int)),
                            Seq::empty(),
                        );
                        assert(operands_linear_names(ops.take(i as int)) + Seq::<Seq<char>>::empty()
                            =~= operands_linear_names(ops.take(i as int)));
                    }
                },
                Operand::NestedCircuit(nested) => {
                    let nested_hash = (&mut **nested).hash_and_index_recursive(
                        false,
                        static_variables,
                        linearization_variables,
                    );
                    hash_word(nested_hash, &mut hasher);
                    proof {
                        lemma_add_all_concat(
                            old(static_variables)@,
                            operands_static_names(ops.take(i as int)),
                            operand_static_names(ops[i as int]),
                        );
                        lemma_add_all_concat(
                            old(linearization_variables)@,
                            operands_linear_names(ops.take(i as int)),
                            operand_linear_names(ops[i as int]),
                        );
                    }
                },
                Operand::Number(num) => {
                    hash_number(*num, &mut hasher);
                    proof {
                        assert(operands_static_names(ops.take(i as int)) + Seq::<Seq<char>>::empty()
                            =~= operands_static_names(ops.take(i as int)));
                        assert(operands_linear_names(ops.take(i as int)) + Seq::<Seq<char>>::empty()
                            =~= operands_linear_names(ops.take(i as int)));
                    }
                },
            }
            proof {
                assert(operand_rehashed(ops[i as int], self.operands@[i as int]));
                assert(hasher@ == prev_writes + operand_hash_writes(ops[i as int]));
                assert(static_variables@ == add_all(
                    old(static_variables)@,
                    operands_static_names(ops.take(i as int)) + operand_static_names(ops[i as int]),
                ));
                assert(linearization_variables@ == add_all(
                    old(linearization_variables)@,
                    operands_linear_names(ops.take(i as int)) + operand_linear_names(ops[i as int]),
                ));
                assert(operands_static_names(ops.take(i + 1)) == operands_static_names(ops.take(i as int))
                    + operand_static_names(ops[i as int]));
                assert(operands_linear_names(ops.take(i + 1)) == operands_linear_names(ops.take(i as int))
                    + operand_linear_names(ops[i as int]));
                assert(hasher@ =~= operation_hash_writes(old(self).operation) + operands_hash_writes(ops.take(i + 1)));
                assert(self.operands@.take(i + 1).drop_last() =~= before.take(i as int));
                assert(self.operands@.take(i as int) =~= before.take(i as int));
            }
            i += 1;
        }
        proof {
            assert(ops.take(n as int) =~= ops);
            assert(self.operands@.take(n as int) =~= self.operands@);
        }
        let circuit_hash = hasher.finish();
        self.set_hash(circuit_hash);
        if root {
            static_variables.add("out".to_string());
            proof {
                let names = operands_static_names(ops);
                assert((names + seq![out_name()]).drop_last() =~= names);
                assert(operands_linear_names(ops) + Seq::<Seq<char>>::empty() =~= operands_linear_names(ops));
            }
        } else {
            linearization_variables.add(decimal_string(circuit_hash));
            proof {
                let names = operands_linear_names(ops);
                assert((names + seq![decimal(circuit_hash as nat)]).drop_last() =~= names);
                assert(operands_static_names(ops) + Seq::<Seq<char>>::empty() =~= operands_static_names(ops));
            }
        }
        circuit_hash
    }
}

} // verus!
