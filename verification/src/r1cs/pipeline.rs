//! Indexing a circuit yields a variable map over which its constraints can
//! be generated.

use crate::circuits::circuit::{
    add_all, circuit_digest, circuit_variables, linear_names, one_name, operand_linear_names,
    operand_rehashed, operand_static_names, operands_linear_names, operands_rehashed,
    operands_static_names, out_name, rehashed, static_names, Circuit, Operand,
};
use crate::circuits::hashing::decimal;
use crate::circuits::indexed_map::{lemma_last_index_of_found, with_item};
use crate::r1cs::completeness::{
    circuit_inputs, circuit_nodes, inputs_apart, lemma_witness_satisfies, names_a_node,
    names_unambiguous, operand_inputs, operand_nodes,
};
use crate::r1cs::r1cs::{
    column, constant_sum_fits, constraint_rows, constraints_defined, eval_node, node_name,
    operand_defined, witness_of,
};
use crate::r1cs::satisfaction::{
    assignment_vector, circuit_wires_separated, rows_hold, wires_separated,
};
use vstd::prelude::*;

verus! {

/// Every node of the circuit has exactly two operands, and every sum of
/// two constants fits in an `i64`.
pub open spec fn binary_circuit(c: Circuit) -> bool
    decreases c,
{
    if c.operands@.len() != 2 {
        false
    } else {
        &&& constant_sum_fits(c.operands@[0], c.operands@[1], c.operation)
        &&& (match c.operands@[0] {
            Operand::NestedCircuit(d) => binary_circuit(*d),
            _ => true,
        })
        &&& (match c.operands@[1] {
            Operand::NestedCircuit(d) => binary_circuit(*d),
            _ => true,
        })
    }
}

/// Operand by operand, a rehashed run of operands is rehashed.
proof fn lemma_operands_rehashed_at(before: Seq<Operand>, after: Seq<Operand>, k: int)
    requires
        operands_rehashed(before, after),
        0 <= k < before.len(),
    ensures
        after.len() == before.len(),
        operand_rehashed(before[k], after[k]),
    decreases before.len(),
{
    if k < before.len() - 1 {
        lemma_operands_rehashed_at(before.drop_last(), after.drop_last(), k);
    }
}

/// The names an operand adds are among those its run of operands adds.
proof fn lemma_operand_names_within(ops: Seq<Operand>, k: int, name: Seq<char>)
    requires
        0 <= k < ops.len(),
    ensures
        operand_static_names(ops[k]).contains(name) ==> operands_static_names(ops).contains(name),
        operand_linear_names(ops[k]).contains(name) ==> operands_linear_names(ops).contains(name),
    decreases ops.len(),
{
    let last = ops.len() - 1;
    let s = operands_static_names(ops.drop_last());
    let t = operand_static_names(ops.last());
    let u = operands_linear_names(ops.drop_last());
    let v = operand_linear_names(ops.last());
    if k < last {
        lemma_operand_names_within(ops.drop_last(), k, name);
        if s.contains(name) {
            let i = choose|i: int| 0 <= i < s.len() && s[i] == name;
            assert((s + t)[i] == name);
        }
        if u.contains(name) {
            let i = choose|i: int| 0 <= i < u.len() && u[i] == name;
            assert((u + v)[i] == name);
        }
    } else {
        if t.contains(name) {
            let i = choose|i: int| 0 <= i < t.len() && t[i] == name;
            assert((s + t)[s.len() + i] == name);
        }
        if v.contains(name) {
            let i = choose|i: int| 0 <= i < v.len() && v[i] == name;
            assert((u + v)[u.len() + i] == name);
        }
    }
}

/// Adding names to an indexed map keeps what it had and gains the names.
proof fn lemma_add_all_contains(items: Seq<Seq<char>>, names: Seq<Seq<char>>, name: Seq<char>)
    ensures
        (items.contains(name) || names.contains(name)) ==> add_all(items, names).contains(name),
    decreases names.len(),
{
    if names.len() > 0 {
        let prev = add_all(items, names.drop_last());
        lemma_add_all_contains(items, names.drop_last(), name);
        if names.contains(name) && name != names.last() {
            let i = choose|i: int| 0 <= i < names.len() && names[i] == name;
            assert(names.drop_last()[i] == name);
        }
        if prev.contains(name) && !prev.contains(names.last()) {
            let i = choose|i: int| 0 <= i < prev.len() && prev[i] == name;
            assert(prev.push(names.last())[i] == name);
        }
        if name == names.last() && !prev.contains(name) {
            assert(prev.push(name)[prev.len() as int] == name);
        }
    }
}

/// The parts of a circuit whose names are all in `names` can be turned
/// into constraints over `names`.
proof fn lemma_rehashed_defined(before: Circuit, after: Circuit, root: bool, names: Seq<Seq<char>>)
    requires
        rehashed(before, after),
        binary_circuit(before),
        forall|x: Seq<char>| static_names(before, root).contains(x) ==> names.contains(x),
        forall|x: Seq<char>| linear_names(before, root).contains(x) ==> names.contains(x),
    ensures
        constraints_defined(after, root, names),
    decreases before,
{
    let bops = before.operands@;
    let aops = after.operands@;
    let s = operands_static_names(bops);
    let l = operands_linear_names(bops);
    lemma_operands_rehashed_at(bops, aops, 0);
    lemma_operands_rehashed_at(bops, aops, 1);
    assert forall|x: Seq<char>| s.contains(x) implies names.contains(x) by {
        let i = choose|i: int| 0 <= i < s.len() && s[i] == x;
        if root {
            assert((s + seq![out_name()])[i] == x);
        } else {
            assert((s + Seq::<Seq<char>>::empty())[i] == x);
        }
    }
    assert forall|x: Seq<char>| l.contains(x) implies names.contains(x) by {
        let i = choose|i: int| 0 <= i < l.len() && l[i] == x;
        if root {
            assert((l + Seq::<Seq<char>>::empty())[i] == x);
        } else {
            assert((l + seq![decimal(circuit_digest(before) as nat)])[i] == x);
        }
    }
    if root {
        assert((s + seq![out_name()])[s.len() as int] == out_name());
    } else {
        assert((l + seq![decimal(circuit_digest(before) as nat)])[l.len() as int] == decimal(
            circuit_digest(before) as nat,
        ));
    }
    assert(names.contains(node_name(after, root)));
    assert forall|k: int| 0 <= k < 2 implies operand_defined(#[trigger] aops[k], names) by {
        assert forall|x: Seq<char>| operand_static_names(bops[k]).contains(x) implies names.contains(x) by {
            lemma_operand_names_within(bops, k, x);
        }
        assert forall|x: Seq<char>| operand_linear_names(bops[k]).contains(x) implies names.contains(x) by {
            lemma_operand_names_within(bops, k, x);
        }
        match bops[k] {
            Operand::NestedCircuit(bd) => {
                match aops[k] {
                    Operand::NestedCircuit(ad) => {
                        lemma_rehashed_defined(*bd, *ad, false, names);
                    },
                    _ => {},
                }
            },
            Operand::Variable(v) => {
                assert(operand_static_names(bops[k])[0] == v@);
            },
            _ => {},
        }
    }
}

/// After `hash_and_index_circuit`, constraints can be generated for every
/// circuit whose nodes have two operands each and whose constant sums fit.
pub proof fn lemma_indexed_circuit_defined(before: Circuit, after: Circuit)
    requires
        rehashed(before, after),
        binary_circuit(before),
    ensures
        constraints_defined(after, true, circuit_variables(before)),
{
    let names = circuit_variables(before);
    let left = add_all(seq![one_name()], static_names(before, true));
    let right = add_all(Seq::empty(), linear_names(before, true));
    assert forall|x: Seq<char>| static_names(before, true).contains(x) implies names.contains(x) by {
        lemma_add_all_contains(seq![one_name()], static_names(before, true), x);
        let i = choose|i: int| 0 <= i < left.len() && left[i] == x;
        assert(names[i] == x);
    }
    assert forall|x: Seq<char>| linear_names(before, true).contains(x) implies names.contains(x) by {
        lemma_add_all_contains(Seq::empty(), linear_names(before, true), x);
        let i = choose|i: int| 0 <= i < right.len() && right[i] == x;
        assert(names[left.len() + i] == x);
    }
    lemma_rehashed_defined(before, after, true, names);
}

/// Adding names keeps the items already there, in place.
proof fn lemma_add_all_prefix(items: Seq<Seq<char>>, names: Seq<Seq<char>>)
    ensures
        add_all(items, names).len() >= items.len(),
        forall|i: int| 0 <= i < items.len() ==> #[trigger] add_all(items, names)[i] == items[i],
    decreases names.len(),
{
    if names.len() > 0 {
        lemma_add_all_prefix(items, names.drop_last());
    }
}

/// Every input a circuit reads is among the static names its indexing adds.
proof fn lemma_inputs_named(c: Circuit, root: bool, k: Seq<char>)
    requires
        circuit_inputs(c).contains(k),
    ensures
        static_names(c, root).contains(k),
    decreases c,
{
    let ops = c.operands@;
    let s = operands_static_names(ops);
    let i: int = if operand_inputs(ops[0]).contains(k) { 0 } else { 1 };
    assert(operand_inputs(ops[i]).contains(k));
    match ops[i] {
        Operand::Variable(v) => {
            assert(operand_static_names(ops[i])[0] == k);
        },
        Operand::NestedCircuit(d) => {
            lemma_inputs_named(*d, false, k);
        },
        _ => {},
    }
    lemma_operand_names_within(ops, i, k);
    let j = choose|j: int| 0 <= j < s.len() && s[j] == k;
    if root {
        assert((s + seq![out_name()])[j] == k);
    } else {
        assert((s + Seq::<Seq<char>>::empty())[j] == k);
    }
}

/// In a circuit whose stored hashes are its digests, the output variable
/// of every nested node is among the linear names its indexing adds.
proof fn lemma_nodes_named(c: Circuit, root: bool, d: Circuit)
    requires
        rehashed(c, c),
        circuit_nodes(c).contains(d),
    ensures
        linear_names(c, root).contains(node_name(d, false)),
    decreases c,
{
    let ops = c.operands@;
    let l = operands_linear_names(ops);
    let name = node_name(d, false);
    let i: int = if operand_nodes(ops[0]).contains(d) { 0 } else { 1 };
    assert(operand_nodes(ops[i]).contains(d));
    lemma_operands_rehashed_at(ops, ops, i);
    match ops[i] {
        Operand::NestedCircuit(b) => {
            assert(rehashed(*b, *b));
            let lb = linear_names(*b, false);
            if d == *b {
                assert(lb[lb.len() - 1] == name);
            } else {
                lemma_nodes_named(*b, false, d);
            }
            assert(lb.contains(name));
        },
        _ => {},
    }
    lemma_operand_names_within(ops, i, name);
    let j = choose|j: int| 0 <= j < l.len() && l[j] == name;
    if root {
        assert((l + Seq::<Seq<char>>::empty())[j] == name);
    } else {
        assert((l + seq![decimal(circuit_digest(c) as nat)])[j] == name);
    }
}

/// A variable of the map other than the first has a column other than 0.
proof fn lemma_column_not_first(names: Seq<Seq<char>>, name: Seq<char>)
    requires
        names.contains(name),
        name != names[0],
    ensures
        column(names, name) != 0,
{
    lemma_last_index_of_found(names, name);
}

/// The wires of every node are told apart where every input and every
/// nested node's output is a variable of the map other than the first, and
/// no input is named like a nested node's output.
proof fn lemma_wires_separated(c: Circuit, names: Seq<Seq<char>>)
    requires
        forall|k: Seq<char>| #[trigger] circuit_inputs(c).contains(k) ==> names.contains(k) && k != names[0],
        forall|d: Circuit| #[trigger] circuit_nodes(c).contains(d) ==> names.contains(node_name(d, false))
            && node_name(d, false) != names[0],
        inputs_apart(circuit_inputs(c), circuit_nodes(c)),
    ensures
        circuit_wires_separated(c, names),
    decreases c,
{
    if c.operands@.len() >= 2 {
        let o1 = c.operands@[0];
        let o2 = c.operands@[1];
        assert(circuit_inputs(c) == operand_inputs(o1).union(operand_inputs(o2)));
        assert(circuit_nodes(c) == operand_nodes(o1).union(operand_nodes(o2)));
        lemma_operand_wires(o1, c, names);
        lemma_operand_wires(o2, c, names);
        match o1 {
            Operand::Variable(v) => match o2 {
                Operand::NestedCircuit(d) => {
                    assert(circuit_inputs(c).contains(v@));
                    assert(operand_nodes(o2).contains(*d));
                    assert(circuit_nodes(c).contains(*d));
                },
                _ => {},
            },
            Operand::NestedCircuit(d) => match o2 {
                Operand::Variable(v) => {
                    assert(circuit_inputs(c).contains(v@));
                    assert(operand_nodes(o1).contains(*d));
                    assert(circuit_nodes(c).contains(*d));
                },
                _ => {},
            },
            _ => {},
        }
        assert(wires_separated(o1, o2, names));
    }
}

/// An operand of `c` has a column other than 0, and a nested node behind
/// it has its wires told apart.
proof fn lemma_operand_wires(o: Operand, c: Circuit, names: Seq<Seq<char>>)
    requires
        c.operands@.len() >= 2,
        o == c.operands@[0] || o == c.operands@[1],
        forall|k: Seq<char>| #[trigger] circuit_inputs(c).contains(k) ==> names.contains(k) && k != names[0],
        forall|d: Circuit| #[trigger] circuit_nodes(c).contains(d) ==> names.contains(node_name(d, false))
            && node_name(d, false) != names[0],
        inputs_apart(circuit_inputs(c), circuit_nodes(c)),
    ensures
        !(o is Number) ==> column(names, crate::r1cs::r1cs::operand_name(o)) != 0,
        o matches Operand::NestedCircuit(d) ==> circuit_wires_separated(*d, names),
    decreases c, 0nat,
{
    let o1 = c.operands@[0];
    let o2 = c.operands@[1];
    assert(circuit_inputs(c) == operand_inputs(o1).union(operand_inputs(o2)));
    assert(circuit_nodes(c) == operand_nodes(o1).union(operand_nodes(o2)));
    match o {
        Operand::Variable(v) => {
            assert(operand_inputs(o).contains(v@));
            assert(circuit_inputs(c).contains(v@));
            lemma_column_not_first(names, v@);
        },
        Operand::NestedCircuit(d) => {
            assert(operand_nodes(o).contains(*d));
            assert(circuit_nodes(c).contains(*d));
            lemma_column_not_first(names, node_name(*d, false));
            assert forall|k: Seq<char>| #[trigger] circuit_inputs(*d).contains(k) implies names.contains(k)
                && k != names[0] by {
                assert(circuit_inputs(c).contains(k));
            }
            assert forall|e: Circuit| #[trigger] circuit_nodes(*d).contains(e) implies names.contains(
                node_name(e, false),
            ) && node_name(e, false) != names[0] by {
                assert(operand_nodes(o).contains(e));
                assert(circuit_nodes(c).contains(e));
            }
            assert forall|k: Seq<char>, e: Circuit|
                circuit_inputs(*d).contains(k) && circuit_nodes(*d).contains(e) implies node_name(e, false)
                != k by {
                assert(circuit_inputs(c).contains(k));
                assert(operand_nodes(o).contains(e));
                assert(circuit_nodes(c).contains(e));
            }
            lemma_wires_separated(*d, names);
        },
        _ => {},
    }
}

/// The whole run, as a program uses it: index a circuit, generate its
/// constraints over the variable map, compute its witness; every
/// constraint holds for the witness's values. This holds where every node
/// has two operands and its constant sums fit, the variable map names no
/// variable twice, no input is named `1` or `out`, nested nodes with the
/// same hash are the same node, the inputs give `1` the value 1, and the
/// circuit can be evaluated over them.
pub proof fn lemma_indexed_witness_satisfies(before: Circuit, after: Circuit, inputs: Map<Seq<char>, i64>)
    requires
        rehashed(before, after),
        binary_circuit(before),
        circuit_variables(before).no_duplicates(),
        !circuit_inputs(after).contains(one_name()),
        !circuit_inputs(after).contains(out_name()),
        names_unambiguous(circuit_nodes(after)),
        inputs[one_name()] == 1,
        eval_node(after, inputs, true) is Some,
    ensures
        rows_hold(
            constraint_rows(after, true, circuit_variables(before)),
            assignment_vector(circuit_variables(before), witness_of(after, inputs)),
        ),
{
    let names = circuit_variables(before);
    let left = add_all(seq![one_name()], static_names(before, true));
    let right = add_all(Seq::empty(), linear_names(before, true));
    assert(names == left + right);
    lemma_indexed_circuit_defined(before, after);
    crate::circuits::circuit::lemma_reindex_unchanged(before, after);
    lemma_add_all_prefix(seq![one_name()], static_names(before, true));
    assert(names[0] == one_name());
    reveal_strlit("1");
    reveal_strlit("out");
    assert(one_name() != out_name()) by {
        assert(one_name().len() != out_name().len());
    }
    // Inputs are in the left part, node outputs in the right part.
    assert forall|k: Seq<char>| #[trigger] circuit_inputs(after).contains(k) implies left.contains(k) by {
        lemma_inputs_named(after, true, k);
        crate::circuits::circuit::lemma_rehashed_digest(before, after);
        lemma_add_all_contains(seq![one_name()], static_names(before, true), k);
    }
    assert forall|d: Circuit| #[trigger] circuit_nodes(after).contains(d) implies right.contains(node_name(d, false)) by {
        lemma_nodes_named(after, true, d);
        crate::circuits::circuit::lemma_rehashed_digest(before, after);
        lemma_add_all_contains(Seq::empty(), linear_names(before, true), node_name(d, false));
    }
    // What is left is apart from what is right.
    assert forall|a: Seq<char>, b: Seq<char>| left.contains(a) && right.contains(b) implies a != b by {
        let i = choose|i: int| 0 <= i < left.len() && left[i] == a;
        let j = choose|j: int| 0 <= j < right.len() && right[j] == b;
        assert(names[i] == a);
        assert(names[left.len() + j] == b);
    }
    assert(left.contains(one_name())) by {
        assert(left[0] == one_name());
    }
    assert forall|k: Seq<char>| #[trigger] circuit_inputs(after).contains(k) implies names.contains(k) && k
        != names[0] by {
        let i = choose|i: int| 0 <= i < left.len() && left[i] == k;
        assert(names[i] == k);
    }
    assert forall|d: Circuit| #[trigger] circuit_nodes(after).contains(d) implies names.contains(node_name(d, false))
        && node_name(d, false) != names[0] by {
        let j = choose|j: int| 0 <= j < right.len() && right[j] == node_name(d, false);
        assert(names[left.len() + j] == node_name(d, false));
    }
    assert forall|k: Seq<char>, d: Circuit|
        circuit_inputs(after).contains(k) && circuit_nodes(after).contains(d) implies node_name(d, false) != k by {
        assert(left.contains(k));
        assert(right.contains(node_name(d, false)));
    }
    assert(!names_a_node(circuit_nodes(after), names[0])) by {
        if names_a_node(circuit_nodes(after), names[0]) {
            let d = choose|d: Circuit| #[trigger] circuit_nodes(after).contains(d) && node_name(d, false) == names[0];
            assert(right.contains(node_name(d, false)));
        }
    }
    lemma_wires_separated(after, names);
    lemma_witness_satisfies(after, names, inputs);
}

} // verus!
