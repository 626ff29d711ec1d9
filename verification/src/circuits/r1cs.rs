//! Indexing a circuit's variables into two lists: input variables in one
//! list, the outputs of nested nodes in another, each with its index.

use crate::circuits::circuit::{Circuit, Operand};
use crate::circuits::hashing::{
    decimal, decimal_string, hash_index, hash_operation, hash_small_number, hash_word,
    index_hash_writes, operation_hash_writes, small_number_hash_writes, word_hash_writes,
};
use crate::circuits::indexed_map::{
    key_views, last_index_of, lemma_last_index_of_found, position_of, IndexedMap,
};
use std::collections::hash_map::DefaultHasher;
use std::hash::Hasher;
use vstd::prelude::*;
use vstd::std_specs::hash::DefaultHasherAdditionalSpecFns;

verus! {

/// The variables collected so far: the input variables (starting with `1`)
/// and the index of each, and the nested nodes' outputs and their indices.
pub struct IndexingState {
    pub static_variables: Seq<Seq<char>>,
    pub static_indices: Seq<Seq<char>>,
    pub linearization_variables: Seq<Seq<char>>,
    pub linearization_indices: Seq<Seq<char>>,
}

/// Registers an input variable: appended to the list, and given the next
/// index, unless it has an index already.
pub open spec fn add_input(st: IndexingState, name: Seq<char>) -> IndexingState {
    if st.static_indices.contains(name) {
        st
    } else {
        IndexingState {
            static_variables: st.static_variables.push(name),
            static_indices: st.static_indices.push(name),
            ..st
        }
    }
}

/// Registers a nested node's output under `name`, unless it has an index
/// already.
pub open spec fn add_output(st: IndexingState, name: Seq<char>) -> IndexingState {
    if st.linearization_indices.contains(name) {
        st
    } else {
        IndexingState {
            linearization_variables: st.linearization_variables.push(name),
            linearization_indices: st.linearization_indices.push(name),
            ..st
        }
    }
}

/// The index of a registered name.
pub open spec fn index_in(indices: Seq<Seq<char>>, name: Seq<char>) -> usize {
    match last_index_of(indices, name) {
        Some(i) => i as usize,
        None => 0,
    }
}

/// What traversing an operand writes into its node's hasher, and the state
/// afterwards: an input is registered and hashed by its index, a nested
/// node is traversed and hashed by its own hash, a number by its value as
/// an `i32`.
pub open spec fn traverse_operand(o: Operand, st: IndexingState) -> (Seq<Seq<u8>>, IndexingState)
    decreases o,
{
    match o {
        Operand::Number(n) => (small_number_hash_writes(n as i32), st),
        Operand::Variable(v) => {
            let after = add_input(st, v@);
            (index_hash_writes(index_in(after.static_indices, v@)), after)
        },
        Operand::NestedCircuit(d) => {
            let done = traverse_node(*d, false, st);
            (word_hash_writes(done.0), done.1)
        },
    }
}

/// Traversing a run of operands, left to right.
pub open spec fn traverse_operands(ops: Seq<Operand>, st: IndexingState) -> (Seq<Seq<u8>>, IndexingState)
    decreases ops,
{
    if ops.len() == 0 {
        (Seq::empty(), st)
    } else {
        let done = traverse_operands(ops.drop_last(), st);
        let last = traverse_operand(ops.last(), done.1);
        (done.0 + last.0, last.1)
    }
}

/// The hash of a node and the state after traversing it: its operands in
/// order, then `out` registered as an input for the root, or the node's
/// hash (in decimal) registered as an output below it.
pub open spec fn traverse_node(c: Circuit, root: bool, st: IndexingState) -> (u64, IndexingState)
    decreases c,
{
    let done = traverse_operands(c.operands@, st);
    let h = DefaultHasher::spec_finish(operation_hash_writes(c.operation) + done.0);
    if root {
        (h, add_input(done.1, "out"@))
    } else {
        (h, add_output(done.1, decimal(h as nat)))
    }
}

/// What std's hashing writes for an operand, given the indexing state
/// before it: a constant by `<i32 as Hash>` of the constant itself, an
/// input by its index written as a `usize`, a nested node by its hash
/// written as a `u64`.
pub open spec fn split_given_writes(o: Operand, st: IndexingState) -> Seq<Seq<u8>> {
    match o {
        Operand::Number(n) => small_number_hash_writes(n as i32),
        Operand::Variable(v) => index_hash_writes(index_in(add_input(st, v@).static_indices, v@)),
        Operand::NestedCircuit(d) => word_hash_writes(traverse_node(*d, false, st).0),
    }
}

/// The hash this indexing gives a node is what std's `DefaultHasher`
/// finishes with after hashing its operation, then its first operand, then
/// its second: a constant by `<i32 as Hash>` of the constant itself (sign
/// included), an input by its index, a nested node by its own hash.
pub proof fn lemma_split_hash_is_std_hash(c: Circuit, root: bool, st: IndexingState)
    requires
        indexable(c),
    ensures
        traverse_node(c, root, st).0 == DefaultHasher::spec_finish(
            operation_hash_writes(c.operation) + split_given_writes(c.operands@[0], st)
                + split_given_writes(c.operands@[1], traverse_operand(c.operands@[0], st).1),
        ),
{
    let ops = c.operands@;
    assert(ops.drop_last().drop_last() =~= Seq::<Operand>::empty());
    assert(ops.drop_last().last() == ops[0]);
    assert(ops.last() == ops[1]);
    let first = traverse_operand(ops[0], st);
    assert(first.0 == split_given_writes(ops[0], st));
    assert(traverse_operand(ops[1], first.1).0 == split_given_writes(ops[1], first.1));
    let second = traverse_operand(ops[1], first.1);
    assert(traverse_operands(ops.drop_last().drop_last(), st) == (Seq::<Seq<u8>>::empty(), st));
    assert(traverse_operands(ops.drop_last(), st) == (Seq::<Seq<u8>>::empty() + first.0, first.1));
    assert(traverse_operands(ops, st) == (Seq::<Seq<u8>>::empty() + first.0 + second.0, second.1));
    let op = operation_hash_writes(c.operation);
    assert(op + (Seq::<Seq<u8>>::empty() + first.0 + second.0) =~= op + first.0 + second.0);
}

/// Every node has exactly two operands, and every constant is an `i32`,
/// the width this indexing hashes constants at.
pub open spec fn indexable(c: Circuit) -> bool
    decreases c,
{
    &&& c.operands@.len() == 2
    &&& forall|k: int| 0 <= k < 2 ==> match #[trigger] c.operands@[k] {
        Operand::NestedCircuit(d) => indexable(*d),
        Operand::Number(n) => i32::MIN <= n <= i32::MAX,
        _ => true,
    }
}

/// How deeply nodes are nested below this one.
pub open spec fn nesting(c: Circuit) -> nat
    decreases c,
{
    if c.operands@.len() == 2 {
        let a = match c.operands@[0] {
            Operand::NestedCircuit(d) => nesting(*d) + 1,
            _ => 0nat,
        };
        let b = match c.operands@[1] {
            Operand::NestedCircuit(d) => nesting(*d) + 1,
            _ => 0nat,
        };
        if a < b {
            b
        } else {
            a
        }
    } else {
        0
    }
}

/// A constraint system that indexes inputs and node outputs in separate
/// lists, with the variables it collects.
pub struct R1CS {
    a_matrix: Vec<Vec<i32>>,
    b_matrix: Vec<Vec<i32>>,
    c_matrix: Vec<Vec<i32>>,
    pub static_variables: Vec<String>,
    pub linearization_variables: Vec<String>,
    pub combined_var_vector: Vec<String>,
    pub static_var_indices: IndexedMap<String>,
    pub linearization_var_indices: IndexedMap<String>,
    pub combined_indices: IndexedMap<String>,
}

/// The rows of a matrix.
pub open spec fn matrix_rows(m: Seq<Vec<i32>>) -> Seq<Seq<i32>> {
    m.map_values(|r: Vec<i32>| r@)
}

struct Constraint {
    a: Vec<i32>,
    b: Vec<i32>,
    c: Vec<i32>,
}

impl R1CS {
    /// The variables collected so far.
    pub closed spec fn state(&self) -> IndexingState {
        IndexingState {
            static_variables: key_views(self.static_variables@),
            static_indices: self.static_var_indices@,
            linearization_variables: key_views(self.linearization_variables@),
            linearization_indices: self.linearization_var_indices@,
        }
    }

    /// The rows of `A`, `B` and `C`.
    pub closed spec fn rows(&self) -> (Seq<Seq<i32>>, Seq<Seq<i32>>, Seq<Seq<i32>>) {
        (matrix_rows(self.a_matrix@), matrix_rows(self.b_matrix@), matrix_rows(self.c_matrix@))
    }

    /// The combined list of variables and its index.
    pub closed spec fn combined(&self) -> (Seq<Seq<char>>, Seq<Seq<char>>) {
        (key_views(self.combined_var_vector@), self.combined_indices@)
    }

    /// An empty system whose input variables start with `1`.
    pub fn new() -> (res: Self)
        ensures
            res.state() == (IndexingState {
                static_variables: seq!["1"@],
                static_indices: Seq::empty(),
                linearization_variables: Seq::empty(),
                linearization_indices: Seq::empty(),
            }),
            res.combined() == (Seq::<Seq<char>>::empty(), Seq::<Seq<char>>::empty()),
            res.rows() == (Seq::<Seq<i32>>::empty(), Seq::<Seq<i32>>::empty(), Seq::<Seq<i32>>::empty()),
    {
        let mut r1cs = R1CS {
            a_matrix: Vec::new(),
            b_matrix: Vec::new(),
            c_matrix: Vec::new(),
            static_variables: Vec::new(),
            linearization_variables: Vec::new(),
            combined_var_vector: Vec::new(),
            static_var_indices: IndexedMap::new(),
            linearization_var_indices: IndexedMap::new(),
            combined_indices: IndexedMap::new(),
        };
        r1cs.static_variables.push("1".to_string());
        proof {
            assert(key_views(r1cs.static_variables@) =~= seq!["1"@]);
            assert(key_views(r1cs.linearization_variables@) =~= Seq::<Seq<char>>::empty());
            assert(key_views(r1cs.combined_var_vector@) =~= Seq::<Seq<char>>::empty());
            assert(matrix_rows(r1cs.a_matrix@) =~= Seq::<Seq<i32>>::empty());
            assert(matrix_rows(r1cs.b_matrix@) =~= Seq::<Seq<i32>>::empty());
            assert(matrix_rows(r1cs.c_matrix@) =~= Seq::<Seq<i32>>::empty());
        }
        r1cs
    }

    #[allow(dead_code)]
    fn add_constraint(&mut self, constraint: Constraint)
        ensures
            final(self).state() == old(self).state(),
            final(self).combined() == old(self).combined(),
            final(self).rows() == (
                old(self).rows().0.push(constraint.a@),
                old(self).rows().1.push(constraint.b@),
                old(self).rows().2.push(constraint.c@),
            ),
    {
        let ghost a0 = self.a_matrix@;
        let ghost b0 = self.b_matrix@;
        let ghost c0 = self.c_matrix@;
        self.a_matrix.push(constraint.a);
        self.b_matrix.push(constraint.b);
        self.c_matrix.push(constraint.c);
        assert(matrix_rows(self.a_matrix@) =~= matrix_rows(a0).push(constraint.a@));
        assert(matrix_rows(self.b_matrix@) =~= matrix_rows(b0).push(constraint.b@));
        assert(matrix_rows(self.c_matrix@) =~= matrix_rows(c0).push(constraint.c@));
    }

    /// The index of `name`, giving it the next index if it has none.
    fn get_variable_index(&mut self, name: &str) -> (res: usize)
        ensures
            final(self).state() == (IndexingState {
                static_indices: if old(self).state().static_indices.contains(name@) {
                    old(self).state().static_indices
                } else {
                    old(self).state().static_indices.push(name@)
                },
                ..old(self).state()
            }),
            final(self).combined() == old(self).combined(),
            res == index_in(final(self).state().static_indices, name@),
    {
        let key = name.to_string();
        proof {
            lemma_last_index_of_found(self.static_var_indices@, name@);
        }
        match self.static_var_indices.get_index(&key) {
            Some(index) => index,
            None => {
                let new_index = self.static_var_indices.len();
                self.static_var_indices.add(key);
                proof {
                    lemma_last_index_of_found(self.static_var_indices@, name@);
                }
                new_index
            },
        }
    }

    /// Registers an input variable and gives its index.
    fn add_variable_to_inputs_vector(&mut self, name: &str) -> (res: usize)
        ensures
            final(self).state() == add_input(old(self).state(), name@),
            final(self).combined() == old(self).combined(),
            res == index_in(final(self).state().static_indices, name@),
    {
        let key = name.to_string();
        proof {
            lemma_last_index_of_found(self.static_var_indices@, name@);
        }
        match self.static_var_indices.get_index(&key) {
            Some(index) => index,
            None => {
                let ghost before = self.static_variables@;
                self.static_variables.push(name.to_string());
                let new_index = self.static_var_indices.len();
                self.static_var_indices.add(key);
                proof {
                    assert(key_views(self.static_variables@) =~= key_views(before).push(name@));
                    lemma_last_index_of_found(self.static_var_indices@, name@);
                }
                new_index
            },
        }
    }

    /// Registers a nested node's output under its hash and gives its index.
    fn add_variable_to_operation_vector(&mut self, operation_hash: u64) -> (res: usize)
        ensures
            final(self).state() == add_output(old(self).state(), decimal(operation_hash as nat)),
            final(self).combined() == old(self).combined(),
            res == index_in(final(self).state().linearization_indices, decimal(operation_hash as nat)),
    {
        let hash_str = decimal_string(operation_hash);
        proof {
            lemma_last_index_of_found(self.linearization_var_indices@, hash_str@);
        }
        match self.linearization_var_indices.get_index(&hash_str) {
            Some(index) => index,
            None => {
                let ghost before = self.linearization_variables@;
                let new_index = self.linearization_var_indices.len();
                self.linearization_var_indices.add(hash_str.clone());
                self.linearization_variables.push(hash_str);
                proof {
                    assert(key_views(self.linearization_variables@) =~= key_views(before).push(decimal(operation_hash as nat)));
                    lemma_last_index_of_found(self.linearization_var_indices@, decimal(operation_hash as nat));
                }
                new_index
            },
        }
    }

    /// Lists the input variables followed by the outputs, and indexes the
    /// list (a name listed twice by its last place).
    pub fn combine_variable_vectors(&mut self)
        ensures
            final(self).state() == old(self).state(),
            final(self).combined() == (
                old(self).state().static_variables + old(self).state().linearization_variables,
                old(self).state().static_variables + old(self).state().linearization_variables,
            ),
    {
        let mut combined_vars: Vec<String> = Vec::new();
        let mut i: usize = 0;
        while i < self.static_variables.len()
            invariant
                i <= self.static_variables@.len(),
                combined_vars@.len() == i,
                key_views(combined_vars@) == key_views(self.static_variables@).take(i as int),
            decreases self.static_variables@.len() - i,
        {
            let ghost before = combined_vars@;
            let name = self.static_variables[i].clone();
            combined_vars.push(name);
            assert(combined_vars@ == before.push(name));
            assert(key_views(combined_vars@) =~= key_views(self.static_variables@).take(i + 1));
            i = i + 1;
        }
        let mut j: usize = 0;
        while j < self.linearization_variables.len()
            invariant
                i == self.static_variables@.len(),
                j <= self.linearization_variables@.len(),
                combined_vars@.len() == i + j,
                key_views(combined_vars@) == key_views(self.static_variables@) + key_views(
                    self.linearization_variables@,
                ).take(j as int),
            decreases self.linearization_variables@.len() - j,
        {
            let ghost before = combined_vars@;
            let name = self.linearization_variables[j].clone();
            combined_vars.push(name);
            assert(combined_vars@ == before.push(name));
            assert(name@ == self.linearization_variables@[j as int]@);
            assert(key_views(combined_vars@) =~= key_views(before).push(name@));
            assert(key_views(combined_vars@) =~= key_views(self.static_variables@) + key_views(
                self.linearization_variables@,
            ).take(j + 1));
            j = j + 1;
        }
        proof {
            assert(key_views(self.static_variables@).take(i as int) =~= key_views(self.static_variables@));
            assert(key_views(self.linearization_variables@).take(j as int) =~= key_views(
                self.linearization_variables@,
            ));
        }
        let copy = clone_names(&combined_vars);
        self.combined_var_vector = combined_vars;
        self.combined_indices = IndexedMap::from_vector(copy);
    }

    /// Walks a circuit of binary nodes, left operand first: registers each
    /// input variable, registers each nested node's output under its hash,
    /// and registers `out` once the root is done; returns the node's hash.
    pub fn traverse_and_index_circuit(&mut self, circuit: &Circuit, depth: usize) -> (res: u64)
        requires
            indexable(*circuit),
            depth + nesting(*circuit) <= usize::MAX,
        ensures
            (res, final(self).state()) == traverse_node(*circuit, depth == 0, old(self).state()),
            final(self).combined() == old(self).combined(),
        decreases *circuit,
    {
        let ghost ops = circuit.operands@;
        let ghost start = self.state();
        let mut hasher = DefaultHasher::new();
        hash_operation(&circuit.operation, &mut hasher);
        let mut i: usize = 0;
        proof {
            assert(ops.take(0) =~= Seq::<Operand>::empty());
            assert(hasher@ =~= operation_hash_writes(circuit.operation) + traverse_operands(ops.take(0), start).0);
        }
        while i < 2
            invariant
                ops == circuit.operands@,
                ops.len() == 2,
                indexable(*circuit),
                depth + nesting(*circuit) <= usize::MAX,
                i <= 2,
                hasher@ == operation_hash_writes(circuit.operation) + traverse_operands(ops.take(i as int), start).0,
                self.state() == traverse_operands(ops.take(i as int), start).1,
                self.combined() == old(self).combined(),
            decreases 2 - i,
        {
            let ghost prev = traverse_operands(ops.take(i as int), start);
            proof {
                assert(ops.take(i + 1).drop_last() =~= ops.take(i as int));
                assert(ops.take(i + 1).last() == ops[i as int]);
            }
            match &circuit.operands[i] {
                Operand::Variable(var) => {
                    self.add_variable_to_inputs_vector(var.as_str());
                    let index = self.get_variable_index(var.as_str());
                    hash_index(index, &mut hasher);
                },
                Operand::NestedCircuit(nested) => {
                    proof {
                        assert(indexable(**nested));
                        assert(nesting(**nested) + 1 <= nesting(*circuit));
                    }
                    let nested_hash = self.traverse_and_index_circuit(&**nested, depth + 1);
                    hash_word(nested_hash, &mut hasher);
                },
                Operand::Number(num) => {
                    hash_small_number(*num as i32, &mut hasher);
                },
            }
            proof {
                let step = traverse_operand(ops[i as int], prev.1);
                assert(self.state() == step.1);
                assert(hasher@ =~= operation_hash_writes(circuit.operation) + (prev.0 + step.0));
            }
            i += 1;
        }
        proof {
            assert(ops.take(2) =~= ops);
        }
        let circuit_hash = hasher.finish();
        if depth != 0 {
            self.add_variable_to_operation_vector(circuit_hash);
        } else {
            self.add_variable_to_inputs_vector("out");
        }
        circuit_hash
    }
}

/// A copy of a list of names.
fn clone_names(names: &Vec<String>) -> (res: Vec<String>)
    ensures
        key_views(res@) == key_views(names@),
{
    let mut res: Vec<String> = Vec::new();
    let mut i: usize = 0;
    while i < names.len()
        invariant
            i <= names@.len(),
            res@.len() == i,
            key_views(res@) == key_views(names@).take(i as int),
        decreases names@.len() - i,
    {
        let name = names[i].clone();
        let ghost before = res@;
        res.push(name);
        assert(res@ == before.push(name));
        assert(name@ == names@[i as int]@);
        assert(key_views(res@) =~= key_views(names@).take(i + 1));
        i = i + 1;
    }
    assert(key_views(names@).take(i as int) =~= key_views(names@));
    res
}

} // verus!
