//! The witness computed for a circuit satisfies the circuit's constraints,
//! provided its variables are unambiguous: no input is named like the
//! output of a node or `out`, and nodes with the same output variable are
//! the same node.

use crate::circuits::circuit::{out_name, Circuit, Operand};
use crate::circuits::hashing::{decimal, digit_char};
use crate::r1cs::r1cs::{
    constraint_rows, constraints_defined, eval_node, eval_operand, eval_operands, node_name,
    operand_defined, witness_of,
};
use crate::r1cs::satisfaction::{
    apply_operation, assignment_consistent, assignment_vector, circuit_wires_separated,
    lemma_constraints_hold, rows_hold, wire,
};
use vstd::prelude::*;

verus! {

/// The value of an operand when the inputs take their values from `env`.
pub open spec fn operand_value(o: Operand, env: Map<Seq<char>, i64>) -> int
    decreases o,
{
    match o {
        Operand::Number(n) => n as int,
        Operand::Variable(v) => env[v@] as int,
        Operand::NestedCircuit(d) => node_value(*d, env),
    }
}

/// The value of a node when the inputs take their values from `env`.
pub open spec fn node_value(c: Circuit, env: Map<Seq<char>, i64>) -> int
    decreases c,
{
    if c.operands@.len() < 2 {
        0
    } else {
        apply_operation(
            c.operation,
            operand_value(c.operands@[0], env),
            operand_value(c.operands@[1], env),
        )
    }
}

/// The input variables an operand reads.
pub open spec fn operand_inputs(o: Operand) -> Set<Seq<char>>
    decreases o,
{
    match o {
        Operand::Number(_) => Set::empty(),
        Operand::Variable(v) => Set::empty().insert(v@),
        Operand::NestedCircuit(d) => circuit_inputs(*d),
    }
}

/// The input variables a circuit reads.
pub open spec fn circuit_inputs(c: Circuit) -> Set<Seq<char>>
    decreases c,
{
    if c.operands@.len() < 2 {
        Set::empty()
    } else {
        operand_inputs(c.operands@[0]).union(operand_inputs(c.operands@[1]))
    }
}

/// The nodes an operand holds: a nested node and the nodes below it.
pub open spec fn operand_nodes(o: Operand) -> Set<Circuit>
    decreases o,
{
    match o {
        Operand::NestedCircuit(d) => circuit_nodes(*d).insert(*d),
        _ => Set::empty(),
    }
}

/// The nodes below a circuit.
pub open spec fn circuit_nodes(c: Circuit) -> Set<Circuit>
    decreases c,
{
    if c.operands@.len() < 2 {
        Set::empty()
    } else {
        operand_nodes(c.operands@[0]).union(operand_nodes(c.operands@[1]))
    }
}

/// The nodes whose values evaluating `c` records: those below it, and `c`
/// itself below the root.
pub open spec fn recorded_nodes(c: Circuit, root: bool) -> Set<Circuit> {
    if root {
        circuit_nodes(c)
    } else {
        circuit_nodes(c).insert(c)
    }
}

/// Some node of the set has `k` as its output variable.
pub open spec fn names_a_node(nodes: Set<Circuit>, k: Seq<char>) -> bool {
    exists|d: Circuit| #[trigger] nodes.contains(d) && node_name(d, false) == k
}

/// Nodes of the set with the same output variable are the same node.
pub open spec fn names_unambiguous(nodes: Set<Circuit>) -> bool {
    forall|d1: Circuit, d2: Circuit|
        #![trigger nodes.contains(d1), nodes.contains(d2)]
        nodes.contains(d1) && nodes.contains(d2) && node_name(d1, false) == node_name(d2, false)
            ==> d1 == d2
}

/// No input is also the output variable of a node.
pub open spec fn inputs_apart(inputs: Set<Seq<char>>, nodes: Set<Circuit>) -> bool {
    forall|k: Seq<char>, d: Circuit|
        #![trigger inputs.contains(k), nodes.contains(d)]
        inputs.contains(k) && nodes.contains(d) ==> node_name(d, false) != k
}

/// How far nodes are nested below a circuit.
pub open spec fn height(c: Circuit) -> nat
    decreases c,
{
    if c.operands@.len() < 2 {
        0
    } else {
        let a = match c.operands@[0] {
            Operand::NestedCircuit(d) => height(*d) + 1,
            _ => 0nat,
        };
        let b = match c.operands@[1] {
            Operand::NestedCircuit(d) => height(*d) + 1,
            _ => 0nat,
        };
        if a < b {
            b
        } else {
            a
        }
    }
}

/// A node below a circuit is lower than it, so it is not the circuit.
proof fn lemma_nodes_lower(c: Circuit, d: Circuit)
    requires
        circuit_nodes(c).contains(d),
    ensures
        height(d) < height(c),
    decreases c,
{
    let ops = c.operands@;
    if operand_nodes(ops[0]).contains(d) {
        if let Operand::NestedCircuit(b) = ops[0] {
            if d != *b {
                lemma_nodes_lower(*b, d);
            }
        }
    } else {
        if let Operand::NestedCircuit(b) = ops[1] {
            if d != *b {
                lemma_nodes_lower(*b, d);
            }
        }
    }
}

/// A node below a circuit reads only inputs the circuit reads.
proof fn lemma_nodes_inputs(c: Circuit, d: Circuit)
    requires
        circuit_nodes(c).contains(d),
    ensures
        circuit_inputs(d).subset_of(circuit_inputs(c)),
    decreases c,
{
    let ops = c.operands@;
    if operand_nodes(ops[0]).contains(d) {
        if let Operand::NestedCircuit(b) = ops[0] {
            if d != *b {
                lemma_nodes_inputs(*b, d);
            }
        }
    } else {
        if let Operand::NestedCircuit(b) = ops[1] {
            if d != *b {
                lemma_nodes_inputs(*b, d);
            }
        }
    }
}

/// The value of a node depends only on the inputs it reads.
proof fn lemma_value_frame(c: Circuit, e1: Map<Seq<char>, i64>, e2: Map<Seq<char>, i64>)
    requires
        forall|k: Seq<char>| circuit_inputs(c).contains(k) ==> e1[k] == e2[k],
    ensures
        node_value(c, e1) == node_value(c, e2),
    decreases c,
{
    if c.operands@.len() >= 2 {
        lemma_operand_value_frame(c.operands@[0], e1, e2);
        lemma_operand_value_frame(c.operands@[1], e1, e2);
    }
}

/// The value of an operand depends only on the inputs it reads.
proof fn lemma_operand_value_frame(o: Operand, e1: Map<Seq<char>, i64>, e2: Map<Seq<char>, i64>)
    requires
        forall|k: Seq<char>| operand_inputs(o).contains(k) ==> e1[k] == e2[k],
    ensures
        operand_value(o, e1) == operand_value(o, e2),
    decreases o,
{
    match o {
        Operand::Variable(v) => {
            assert(operand_inputs(o).contains(v@));
        },
        Operand::NestedCircuit(d) => {
            lemma_value_frame(*d, e1, e2);
        },
        _ => {},
    }
}

/// What evaluating an operand does: it yields the operand's value, leaves
/// every variable that is no node's output alone, and records each node's
/// value under its output variable.
proof fn lemma_eval_operand(o: Operand, w: Map<Seq<char>, i64>, names: Seq<Seq<char>>)
    requires
        operand_defined(o, names),
        eval_operand(o, w) is Some,
        inputs_apart(operand_inputs(o), operand_nodes(o)),
        names_unambiguous(operand_nodes(o)),
    ensures
        eval_operand(o, w).unwrap().0 == operand_value(o, w),
        forall|k: Seq<char>| !names_a_node(operand_nodes(o), k) ==> #[trigger] eval_operand(o, w).unwrap().1[k] == w[k],
        forall|d: Circuit| #[trigger] operand_nodes(o).contains(d) ==> eval_operand(o, w).unwrap().1[node_name(d, false)] == node_value(d, w),
    decreases o,
{
    match o {
        Operand::NestedCircuit(d) => {
            assert forall|k: Seq<char>, d2: Circuit|
                circuit_inputs(*d).contains(k) && circuit_nodes(*d).contains(d2)
                implies node_name(d2, false) != k by {
                assert(operand_nodes(o).contains(d2));
            }
            lemma_eval_node(*d, false, w, names);
        },
        _ => {},
    }
}

/// What evaluating a node does: it yields the node's value, leaves every
/// variable that is no recorded node's output alone, and records each
/// node's value under its output variable.
proof fn lemma_eval_node(c: Circuit, root: bool, w: Map<Seq<char>, i64>, names: Seq<Seq<char>>)
    requires
        constraints_defined(c, root, names),
        eval_node(c, w, root) is Some,
        inputs_apart(circuit_inputs(c), circuit_nodes(c)),
        names_unambiguous(recorded_nodes(c, root)),
    ensures
        eval_node(c, w, root).unwrap().0 == node_value(c, w),
        forall|k: Seq<char>| !names_a_node(recorded_nodes(c, root), k) ==> #[trigger] eval_node(c, w, root).unwrap().1[k] == w[k],
        forall|d: Circuit| #[trigger] recorded_nodes(c, root).contains(d) ==> eval_node(c, w, root).unwrap().1[node_name(d, false)] == node_value(d, w),
    decreases c,
{
    let ops = c.operands@;
    let o1 = ops[0];
    let o2 = ops[1];
    assert(ops.len() == 2);
    let pre = ops.drop_last();
    assert(pre.drop_last() =~= Seq::<Operand>::empty());
    assert(pre.last() == o1);
    assert(ops.last() == o2);
    assert(eval_operands(pre.drop_last(), w) == Some((Seq::<i64>::empty(), w)));
    assert(eval_operands(ops, w) is Some);
    assert(eval_operands(pre, w) is Some);
    assert(eval_operand(o1, w) is Some);
    let e1 = eval_operand(o1, w).unwrap();
    let w1 = e1.1;
    assert(eval_operands(pre, w) == Some((Seq::<i64>::empty().push(e1.0), w1)));
    assert(eval_operand(o2, w1) is Some);
    let e2 = eval_operand(o2, w1).unwrap();
    let w2 = e2.1;
    let nodes = circuit_nodes(c);
    let all = recorded_nodes(c, root);
    assert(nodes == operand_nodes(o1).union(operand_nodes(o2)));
    assert(circuit_inputs(c) == operand_inputs(o1).union(operand_inputs(o2)));
    assert(eval_operands(ops, w) == Some((Seq::<i64>::empty().push(e1.0).push(e2.0), w2)));
    assert(names_unambiguous(nodes)) by {
        assert forall|d1: Circuit, d2: Circuit|
            nodes.contains(d1) && nodes.contains(d2) && node_name(d1, false) == node_name(d2, false)
            implies d1 == d2 by {
            assert(all.contains(d1) && all.contains(d2));
        }
    }
    assert forall|k: Seq<char>, d: Circuit|
        operand_inputs(o1).contains(k) && operand_nodes(o1).contains(d) implies node_name(d, false) != k by {
        assert(circuit_inputs(c).contains(k) && nodes.contains(d));
    }
    assert forall|k: Seq<char>, d: Circuit|
        operand_inputs(o2).contains(k) && operand_nodes(o2).contains(d) implies node_name(d, false) != k by {
        assert(circuit_inputs(c).contains(k) && nodes.contains(d));
    }
    assert forall|d1: Circuit, d2: Circuit|
        operand_nodes(o1).contains(d1) && operand_nodes(o1).contains(d2) && node_name(d1, false)
            == node_name(d2, false) implies d1 == d2 by {
        assert(nodes.contains(d1) && nodes.contains(d2));
    }
    assert forall|d1: Circuit, d2: Circuit|
        operand_nodes(o2).contains(d1) && operand_nodes(o2).contains(d2) && node_name(d1, false)
            == node_name(d2, false) implies d1 == d2 by {
        assert(nodes.contains(d1) && nodes.contains(d2));
    }
    lemma_eval_operand(o1, w, names);
    lemma_eval_operand(o2, w1, names);
    // The inputs read by the second operand are as the first found them.
    assert forall|k: Seq<char>| circuit_inputs(c).contains(k) implies w1[k] == w[k] by {
        if names_a_node(operand_nodes(o1), k) {
            let d = choose|d: Circuit| #[trigger] operand_nodes(o1).contains(d) && node_name(d, false) == k;
            assert(nodes.contains(d));
        }
    }
    lemma_operand_value_frame(o2, w1, w);
    let done = eval_node(c, w, root).unwrap();
    assert(done.0 == node_value(c, w));
    assert forall|k: Seq<char>| !names_a_node(all, k) implies #[trigger] done.1[k] == w[k] by {
        if names_a_node(operand_nodes(o1), k) {
            let d = choose|d: Circuit| #[trigger] operand_nodes(o1).contains(d) && node_name(d, false) == k;
            assert(all.contains(d));
        }
        if names_a_node(operand_nodes(o2), k) {
            let d = choose|d: Circuit| #[trigger] operand_nodes(o2).contains(d) && node_name(d, false) == k;
            assert(all.contains(d));
        }
        if !root {
            assert(all.contains(c));
        }
    }
    assert forall|d: Circuit| #[trigger] all.contains(d) implies done.1[node_name(d, false)] == node_value(d, w) by {
        if nodes.contains(d) {
            lemma_nodes_inputs(c, d);
            lemma_value_frame(d, w1, w);
            if operand_nodes(o2).contains(d) {
                assert(w2[node_name(d, false)] == node_value(d, w));
            } else {
                assert(operand_nodes(o1).contains(d));
                if names_a_node(operand_nodes(o2), node_name(d, false)) {
                    let d2 = choose|d2: Circuit| #[trigger] operand_nodes(o2).contains(d2) && node_name(d2, false) == node_name(d, false);
                    assert(nodes.contains(d2));
                }
                assert(w2[node_name(d, false)] == node_value(d, w));
            }
            if !root {
                lemma_nodes_lower(c, d);
                assert(all.contains(c));
                assert(node_name(d, false) != node_name(c, false));
            }
        }
    }
}

/// A circuit is consistent with `env` where `env` gives each node below it
/// and the circuit's own output variable their values under `inputs`, and
/// agrees with `inputs` on the inputs it reads.
proof fn lemma_consistent_from_values(
    c: Circuit,
    root: bool,
    env: Map<Seq<char>, i64>,
    inputs: Map<Seq<char>, i64>,
)
    requires
        forall|d: Circuit| #[trigger] circuit_nodes(c).contains(d) ==> env[node_name(d, false)] as int == node_value(d, inputs),
        forall|k: Seq<char>| #[trigger] circuit_inputs(c).contains(k) ==> env[k] == inputs[k],
        env[node_name(c, root)] as int == node_value(c, inputs),
    ensures
        assignment_consistent(c, root, env),
    decreases c,
{
    if c.operands@.len() >= 2 {
        let o1 = c.operands@[0];
        let o2 = c.operands@[1];
        assert(circuit_nodes(c) == operand_nodes(o1).union(operand_nodes(o2)));
        assert(circuit_inputs(c) == operand_inputs(o1).union(operand_inputs(o2)));
        lemma_wire_value(o1, env, inputs, c);
        lemma_wire_value(o2, env, inputs, c);
    }
}

/// The wire of an operand of `c` carries the operand's value, and a nested
/// node behind it is consistent with `env`.
proof fn lemma_wire_value(o: Operand, env: Map<Seq<char>, i64>, inputs: Map<Seq<char>, i64>, c: Circuit)
    requires
        c.operands@.len() >= 2,
        o == c.operands@[0] || o == c.operands@[1],
        forall|d: Circuit| #[trigger] circuit_nodes(c).contains(d) ==> env[node_name(d, false)] as int == node_value(d, inputs),
        forall|k: Seq<char>| #[trigger] circuit_inputs(c).contains(k) ==> env[k] == inputs[k],
    ensures
        wire(o, env) == operand_value(o, inputs),
        o matches Operand::NestedCircuit(d) ==> assignment_consistent(*d, false, env),
    decreases c, 0nat,
{
    let o1 = c.operands@[0];
    let o2 = c.operands@[1];
    assert(circuit_nodes(c) == operand_nodes(o1).union(operand_nodes(o2)));
    assert(circuit_inputs(c) == operand_inputs(o1).union(operand_inputs(o2)));
    match o {
        Operand::Variable(v) => {
            assert(operand_inputs(o).contains(v@));
            assert(circuit_inputs(c).contains(v@));
        },
        Operand::NestedCircuit(d) => {
            assert(operand_nodes(o).contains(*d));
            assert(circuit_nodes(c).contains(*d));
            assert forall|e: Circuit| #[trigger] circuit_nodes(*d).contains(e) implies env[node_name(e, false)] as int
                == node_value(e, inputs) by {
                assert(operand_nodes(o).contains(e));
                assert(circuit_nodes(c).contains(e));
            }
            assert forall|k: Seq<char>| #[trigger] circuit_inputs(*d).contains(k) implies env[k] == inputs[k] by {
                assert(operand_inputs(o).contains(k));
                assert(circuit_inputs(c).contains(k));
            }
            lemma_consistent_from_values(*d, false, env, inputs);
        },
        _ => {},
    }
}

/// A numeral never spells `out`: it ends in a digit.
proof fn lemma_numeral_not_out(n: nat)
    ensures
        decimal(n) != out_name(),
{
    reveal_strlit("out");
    let last: nat = n % 10;
    assert(decimal(n).last() == digit_char(last)) by {
        if n >= 10 {
            assert(decimal(n) == decimal(n / 10).push(digit_char(n % 10)));
        }
    }
    assert(out_name().last() == 't');
    assert(digit_char(last) != 't');
}

/// The witness computed for a circuit gives every node its value: each
/// nested node's output variable holds the node's value, `out` holds the
/// circuit's value, and every input keeps the value it was given, where no
/// input is named `out` or like a nested node's output variable and nested
/// nodes with the same output variable are the same node.
pub proof fn lemma_witness_consistent(c: Circuit, names: Seq<Seq<char>>, inputs: Map<Seq<char>, i64>)
    requires
        constraints_defined(c, true, names),
        eval_node(c, inputs, true) is Some,
        inputs_apart(circuit_inputs(c), circuit_nodes(c)),
        !circuit_inputs(c).contains(out_name()),
        names_unambiguous(circuit_nodes(c)),
    ensures
        assignment_consistent(c, true, witness_of(c, inputs)),
        forall|k: Seq<char>| k != out_name() && !names_a_node(circuit_nodes(c), k) ==> #[trigger] witness_of(c, inputs)[k]
            == inputs[k],
{
    lemma_eval_node(c, true, inputs, names);
    let done = eval_node(c, inputs, true).unwrap();
    let env = witness_of(c, inputs);
    assert(env == done.1.insert(out_name(), done.0));
    assert forall|d: Circuit| #[trigger] circuit_nodes(c).contains(d) implies env[node_name(d, false)] as int
        == node_value(d, inputs) by {
        lemma_numeral_not_out(d.hash as nat);
        assert(recorded_nodes(c, true).contains(d));
    }
    assert forall|k: Seq<char>| #[trigger] circuit_inputs(c).contains(k) implies env[k] == inputs[k] by {
        if names_a_node(circuit_nodes(c), k) {
            let d = choose|d: Circuit| #[trigger] circuit_nodes(c).contains(d) && node_name(d, false) == k;
        }
    }
    lemma_consistent_from_values(c, true, env, inputs);
}

/// The witness computed for a circuit satisfies the circuit's constraints:
/// every row `a·w * b·w == c·w` holds for the vector of its values, where
/// the constraints can be generated, the circuit can be evaluated over the
/// inputs, its wires are told apart, its variables are unambiguous (as
/// for `lemma_witness_consistent`), and the first variable of the map is
/// an input of value 1 that is neither `out` nor a nested node's output.
pub proof fn lemma_witness_satisfies(c: Circuit, names: Seq<Seq<char>>, inputs: Map<Seq<char>, i64>)
    requires
        constraints_defined(c, true, names),
        circuit_wires_separated(c, names),
        eval_node(c, inputs, true) is Some,
        inputs_apart(circuit_inputs(c), circuit_nodes(c)),
        !circuit_inputs(c).contains(out_name()),
        names_unambiguous(circuit_nodes(c)),
        names.len() > 0,
        names[0] != out_name(),
        !names_a_node(circuit_nodes(c), names[0]),
        inputs[names[0]] == 1,
    ensures
        rows_hold(constraint_rows(c, true, names), assignment_vector(names, witness_of(c, inputs))),
{
    lemma_witness_consistent(c, names, inputs);
    assert(witness_of(c, inputs)[names[0]] == inputs[names[0]]);
    lemma_constraints_hold(c, true, names, witness_of(c, inputs));
}

} // verus!
