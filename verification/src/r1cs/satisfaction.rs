//! The constraints of a circuit hold for every assignment that gives each
//! node's output variable the result of the node.

use crate::circuits::circuit::{Circuit, Operand, Operation};
use crate::circuits::indexed_map::lemma_last_index_of_found;
use crate::r1cs::r1cs::{
    column, constant_and_column, constraint_rows, constraints_defined, node_name, node_row,
    operand_coefficients, operand_defined, operand_name, operand_rows, paired_columns, two_columns,
    zeros, ConstraintRow,
};
use vstd::arithmetic::mul::lemma_mul_basics;
use vstd::prelude::*;

verus! {

/// `s · w`: the sum of `s[j] * w[j]`.
pub open spec fn dot(s: Seq<i64>, w: Seq<int>) -> int
    decreases s.len(),
{
    if s.len() == 0 {
        0
    } else {
        dot(s.drop_last(), w) + s.last() * w[s.len() - 1]
    }
}

/// The assignment as a vector: the value of each variable, by column.
pub open spec fn assignment_vector(names: Seq<Seq<char>>, env: Map<Seq<char>, i64>) -> Seq<int> {
    Seq::new(names.len(), |j: int| env[names[j]] as int)
}

/// The value on an operand's wire: a constant, or the value of the
/// variable it names (an input, or a nested node's output).
pub open spec fn wire(o: Operand, env: Map<Seq<char>, i64>) -> int {
    match o {
        Operand::Number(n) => n as int,
        _ => env[operand_name(o)] as int,
    }
}

/// What a node computes.
pub open spec fn apply_operation(op: Operation, x: int, y: int) -> int {
    match op {
        Operation::Add => x + y,
        Operation::Multiply => x * y,
    }
}

/// `env` gives the output variable of every node reached from `c` (through
/// the first two operands) the result of the node on its wires.
pub open spec fn assignment_consistent(c: Circuit, root: bool, env: Map<Seq<char>, i64>) -> bool
    decreases c,
{
    if c.operands@.len() < 2 {
        true
    } else {
        &&& env[node_name(c, root)] as int == apply_operation(
            c.operation,
            wire(c.operands@[0], env),
            wire(c.operands@[1], env),
        )
        &&& (match c.operands@[0] {
            Operand::NestedCircuit(d) => assignment_consistent(*d, false, env),
            _ => true,
        })
        &&& (match c.operands@[1] {
            Operand::NestedCircuit(d) => assignment_consistent(*d, false, env),
            _ => true,
        })
    }
}

/// The wires of a node are told apart by the constraint system: no wire
/// variable sits in column 0 (the constant one), and an input and a nested
/// node feeding the same node have different names.
pub open spec fn wires_separated(o1: Operand, o2: Operand, names: Seq<Seq<char>>) -> bool {
    &&& !(o1 is Number) ==> column(names, operand_name(o1)) != 0
    &&& !(o2 is Number) ==> column(names, operand_name(o2)) != 0
    &&& ((o1 is Variable && o2 is NestedCircuit) || (o1 is NestedCircuit && o2 is Variable))
        ==> operand_name(o1) != operand_name(o2)
}

/// Every node reached from `c` has separated wires.
pub open spec fn circuit_wires_separated(c: Circuit, names: Seq<Seq<char>>) -> bool
    decreases c,
{
    if c.operands@.len() < 2 {
        true
    } else {
        &&& wires_separated(c.operands@[0], c.operands@[1], names)
        &&& (match c.operands@[0] {
            Operand::NestedCircuit(d) => circuit_wires_separated(*d, names),
            _ => true,
        })
        &&& (match c.operands@[1] {
            Operand::NestedCircuit(d) => circuit_wires_separated(*d, names),
            _ => true,
        })
    }
}

/// A constraint holds for the vector `w`: `(a·w) * (b·w) == c·w`.
pub open spec fn row_holds(r: ConstraintRow, w: Seq<int>) -> bool {
    dot(r.a, w) * dot(r.b, w) == dot(r.c, w)
}

/// The zero row is zero.
proof fn lemma_dot_zeros(len: nat, w: Seq<int>)
    ensures
        dot(zeros(len), w) == 0,
    decreases len,
{
    if len > 0 {
        assert(zeros(len).drop_last() =~= zeros((len - 1) as nat));
        lemma_dot_zeros((len - 1) as nat, w);
        lemma_mul_basics(w[len - 1]);
    }
}

/// Changing one entry changes the product by the change times `w` there.
proof fn lemma_dot_update(s: Seq<i64>, w: Seq<int>, i: int, v: i64)
    requires
        0 <= i < s.len(),
    ensures
        dot(s.update(i, v), w) == dot(s, w) + (v - s[i]) * w[i],
    decreases s.len(),
{
    let t = s.update(i, v);
    let k = s.len() - 1;
    if i == k {
        assert(t.drop_last() =~= s.drop_last());
        assert(v * w[k] == s[k] * w[k] + (v - s[k]) * w[k]) by (nonlinear_arith);
    } else {
        assert(t.drop_last() =~= s.drop_last().update(i, v));
        lemma_dot_update(s.drop_last(), w, i, v);
    }
}

/// A row with a single entry `v` in column `i`.
proof fn lemma_dot_single(len: nat, w: Seq<int>, i: int, v: i64)
    requires
        0 <= i < len,
    ensures
        dot(zeros(len).update(i, v), w) == v * w[i],
{
    lemma_dot_zeros(len, w);
    lemma_dot_update(zeros(len), w, i, v);
}

/// A row with `u` in column `i`, then `v` written in column `j`.
proof fn lemma_dot_double(len: nat, w: Seq<int>, i: int, u: i64, j: int, v: i64)
    requires
        0 <= i < len,
        0 <= j < len,
    ensures
        dot(zeros(len).update(i, u).update(j, v), w) == if i == j {
            v * w[j]
        } else {
            u * w[i] + v * w[j]
        },
{
    lemma_dot_single(len, w, i, u);
    lemma_dot_update(zeros(len).update(i, u), w, j, v);
    if i == j {
        assert(u * w[i] + (v - u) * w[i] == v * w[i]) by (nonlinear_arith);
    }
}

/// The column of a variable in the map holds that variable, and different
/// variables are in different columns.
proof fn lemma_column(names: Seq<Seq<char>>, name: Seq<char>)
    requires
        names.contains(name),
    ensures
        0 <= column(names, name) < names.len(),
        names[column(names, name)] == name,
{
    lemma_last_index_of_found(names, name);
}

/// The own constraint of a node holds for a consistent assignment.
proof fn lemma_node_row_holds(c: Circuit, root: bool, names: Seq<Seq<char>>, env: Map<Seq<char>, i64>)
    requires
        constraints_defined(c, root, names),
        assignment_consistent(c, root, env),
        wires_separated(c.operands@[0], c.operands@[1], names),
        env[names[0]] == 1,
    ensures
        row_holds(node_row(c, root, names), assignment_vector(names, env)),
{
    lemma_node_row_value(c, root, names, env);
}

/// What the own constraint of a node reads: on the left, the node's
/// operation applied to the values on its two wires; on the right, the
/// value of the node's output variable.
proof fn lemma_node_row_value(c: Circuit, root: bool, names: Seq<Seq<char>>, env: Map<Seq<char>, i64>)
    requires
        constraints_defined(c, root, names),
        wires_separated(c.operands@[0], c.operands@[1], names),
        env[names[0]] == 1,
    ensures
        ({
            let w = assignment_vector(names, env);
            let row = node_row(c, root, names);
            &&& dot(row.a, w) * dot(row.b, w) == apply_operation(
                c.operation,
                wire(c.operands@[0], env),
                wire(c.operands@[1], env),
            )
            &&& dot(row.c, w) == env[node_name(c, root)] as int
        }),
{
    let w = assignment_vector(names, env);
    let len = names.len();
    let o1 = c.operands@[0];
    let o2 = c.operands@[1];
    let row = node_row(c, root, names);
    let x = wire(o1, env);
    let y = wire(o2, env);
    lemma_column(names, node_name(c, root));
    let out = column(names, node_name(c, root));
    lemma_dot_single(len, w, out, 1);
    lemma_mul_basics(w[out]);
    assert(dot(row.c, w) == env[node_name(c, root)] as int);
    assert(w[0] == 1);
    if !(o1 is Number) {
        assert(names.contains(operand_name(o1))) by {
            match o1 {
                Operand::NestedCircuit(d) => {
                    assert(constraints_defined(*d, false, names));
                },
                _ => {},
            }
        }
        lemma_column(names, operand_name(o1));
        assert(w[column(names, operand_name(o1))] == x);
    }
    if !(o2 is Number) {
        assert(names.contains(operand_name(o2))) by {
            match o2 {
                Operand::NestedCircuit(d) => {
                    assert(constraints_defined(*d, false, names));
                },
                _ => {},
            }
        }
        lemma_column(names, operand_name(o2));
        assert(w[column(names, operand_name(o2))] == y);
    }
    let z = zeros(len);
    let ab = operand_coefficients(o1, o2, c.operation, names);
    assert(row.a == ab.0 && row.b == ab.1);
    match o1 {
        Operand::Number(n1) => match o2 {
            Operand::Number(n2) => match c.operation {
                Operation::Add => {
                    lemma_dot_single(len, w, 0, (n1 + n2) as i64);
                    lemma_dot_single(len, w, 0, 1);
                    lemma_mul_basics(dot(row.a, w));
                },
                Operation::Multiply => {
                    lemma_dot_single(len, w, 0, n1);
                    lemma_dot_single(len, w, 0, n2);
                    lemma_mul_basics(n1 as int);
                    lemma_mul_basics(n2 as int);
                },
            },
            _ => {
                let i = column(names, operand_name(o2));
                lemma_constant_and_column(n1 as int, i, c.operation, len, w, y);
            },
        },
        Operand::Variable(v1) => match o2 {
            Operand::Number(n2) => {
                let i = column(names, v1@);
                lemma_constant_and_column(n2 as int, i, c.operation, len, w, x);
                assert(apply_operation(c.operation, x, y) == apply_operation(c.operation, n2 as int, x)) by (nonlinear_arith)
                    requires y == n2 as int;
            },
            Operand::Variable(v2) => {
                let i = column(names, v1@);
                let j = column(names, v2@);
                lemma_paired_columns(i, j, v1@ == v2@, c.operation, len, w, x, y);
            },
            Operand::NestedCircuit(_) => {
                let i = column(names, operand_name(o2));
                let j = column(names, v1@);
                assert(names[i] != names[j]);
                lemma_two_columns(i, j, c.operation, len, w, y, x);
                assert(apply_operation(c.operation, x, y) == apply_operation(c.operation, y, x)) by (nonlinear_arith);
            },
        },
        Operand::NestedCircuit(_) => match o2 {
            Operand::Number(n2) => {
                let i = column(names, operand_name(o1));
                lemma_constant_and_column(n2 as int, i, c.operation, len, w, x);
                assert(apply_operation(c.operation, x, y) == apply_operation(c.operation, n2 as int, x)) by (nonlinear_arith)
                    requires y == n2 as int;
            },
            Operand::Variable(v2) => {
                let i = column(names, operand_name(o1));
                let j = column(names, v2@);
                assert(names[i] != names[j]);
                lemma_two_columns(i, j, c.operation, len, w, x, y);
            },
            Operand::NestedCircuit(_) => {
                let i = column(names, operand_name(o1));
                let j = column(names, operand_name(o2));
                lemma_paired_columns(i, j, i == j, c.operation, len, w, x, y);
            },
        },
    }
}

/// `a` and `b` of a constant `k` with the wire in column `i != 0`.
proof fn lemma_constant_and_column(k: int, i: int, op: Operation, len: nat, w: Seq<int>, v: int)
    requires
        0 < i < len,
        i64::MIN <= k <= i64::MAX,
        w[0] == 1,
        w[i] == v,
    ensures
        ({
            let ab = constant_and_column(k as i64, i, op, zeros(len));
            dot(ab.0, w) * dot(ab.1, w) == apply_operation(op, k, v)
        }),
{
    match op {
        Operation::Add => {
            lemma_dot_double(len, w, 0, k as i64, i, 1);
            lemma_dot_single(len, w, 0, 1);
            assert((k * 1 + 1 * v) * (1 * 1) == k + v) by (nonlinear_arith);
        },
        Operation::Multiply => {
            lemma_dot_single(len, w, 0, k as i64);
            lemma_dot_single(len, w, i, 1);
            assert((k * 1) * (1 * v) == k * v) by (nonlinear_arith);
        },
    }
}

/// `a` and `b` of the wires in columns `i != j`.
proof fn lemma_two_columns(i: int, j: int, op: Operation, len: nat, w: Seq<int>, x: int, y: int)
    requires
        0 < i < len,
        0 < j < len,
        i != j,
        w[0] == 1,
        w[i] == x,
        w[j] == y,
    ensures
        ({
            let ab = two_columns(i, j, op, zeros(len));
            dot(ab.0, w) * dot(ab.1, w) == apply_operation(op, x, y)
        }),
{
    match op {
        Operation::Add => {
            lemma_dot_double(len, w, i, 1, j, 1);
            lemma_dot_single(len, w, 0, 1);
            assert((1 * x + 1 * y) * (1 * 1) == x + y) by (nonlinear_arith);
        },
        Operation::Multiply => {
            lemma_dot_single(len, w, i, 1);
            lemma_dot_single(len, w, j, 1);
            assert((1 * x) * (1 * y) == x * y) by (nonlinear_arith);
        },
    }
}

/// `a` and `b` of the wires in columns `i` and `j`, where a shared column
/// means a shared wire.
proof fn lemma_paired_columns(
    i: int,
    j: int,
    same: bool,
    op: Operation,
    len: nat,
    w: Seq<int>,
    x: int,
    y: int,
)
    requires
        0 < i < len,
        0 < j < len,
        same ==> x == y && i == j,
        !same ==> i != j,
        w[0] == 1,
        w[i] == x,
        w[j] == y,
    ensures
        ({
            let ab = paired_columns(i, j, same, op, zeros(len));
            dot(ab.0, w) * dot(ab.1, w) == apply_operation(op, x, y)
        }),
{
    match op {
        Operation::Add => {
            lemma_dot_single(len, w, 0, 1);
            if same {
                lemma_dot_single(len, w, i, 2);
                assert((2 * x) * (1 * 1) == x + x) by (nonlinear_arith);
            } else {
                lemma_dot_double(len, w, i, 1, j, 1);
                assert((1 * x + 1 * y) * (1 * 1) == x + y) by (nonlinear_arith);
            }
        },
        Operation::Multiply => {
            lemma_dot_single(len, w, i, 1);
            lemma_dot_single(len, w, j, 1);
            assert((1 * x) * (1 * y) == x * y) by (nonlinear_arith);
        },
    }
}


/// Every constraint in a list holds for `w`.
pub open spec fn rows_hold(rows: Seq<ConstraintRow>, w: Seq<int>) -> bool {
    forall|k: int| 0 <= k < rows.len() ==> row_holds(#[trigger] rows[k], w)
}

/// The constraints of an operand hold for a consistent assignment.
proof fn lemma_operand_rows_hold(o: Operand, names: Seq<Seq<char>>, env: Map<Seq<char>, i64>)
    requires
        operand_defined(o, names),
        o matches Operand::NestedCircuit(d) ==> assignment_consistent(*d, false, env)
            && circuit_wires_separated(*d, names),
        env[names[0]] == 1,
    ensures
        rows_hold(operand_rows(o, names), assignment_vector(names, env)),
    decreases o,
{
    match o {
        Operand::NestedCircuit(d) => {
            lemma_constraints_hold(*d, false, names, env);
        },
        _ => {},
    }
}

/// The constraints of a circuit encode its nodes: every constraint holds
/// for every assignment that gives the constant-one column the value 1
/// and each node's output variable the result of the node on its wires,
/// provided the wires of each node are told apart.
pub proof fn lemma_constraints_hold(c: Circuit, root: bool, names: Seq<Seq<char>>, env: Map<Seq<char>, i64>)
    requires
        constraints_defined(c, root, names),
        assignment_consistent(c, root, env),
        circuit_wires_separated(c, names),
        env[names[0]] == 1,
    ensures
        rows_hold(constraint_rows(c, root, names), assignment_vector(names, env)),
    decreases c,
{
    let w = assignment_vector(names, env);
    let o1 = c.operands@[0];
    let o2 = c.operands@[1];
    lemma_operand_rows_hold(o1, names, env);
    lemma_operand_rows_hold(o2, names, env);
    lemma_node_row_holds(c, root, names, env);
    let first = operand_rows(o1, names);
    let second = operand_rows(o2, names);
    let rows = constraint_rows(c, root, names);
    assert(rows == first + second + seq![node_row(c, root, names)]);
    assert forall|k: int| 0 <= k < rows.len() implies row_holds(#[trigger] rows[k], w) by {
        if k < first.len() {
            assert(rows[k] == first[k]);
        } else if k < first.len() + second.len() {
            assert(rows[k] == second[k - first.len()]);
        } else {
            assert(rows[k] == node_row(c, root, names));
        }
    }
}

/// The number of nodes of a circuit: the node itself and, through its
/// first two operands, every nested node at every depth.
pub open spec fn node_count(c: Circuit) -> nat
    decreases c,
{
    if c.operands@.len() < 2 {
        1
    } else {
        1 + operand_node_count(c.operands@[0]) + operand_node_count(c.operands@[1])
    }
}

/// The number of nodes behind an operand.
pub open spec fn operand_node_count(o: Operand) -> nat
    decreases o,
{
    match o {
        Operand::NestedCircuit(d) => node_count(*d),
        _ => 0,
    }
}

/// The constraints of a circuit hold one row per node: every nested node,
/// at every depth, contributes its own row.
pub proof fn lemma_one_row_per_node(c: Circuit, root: bool, names: Seq<Seq<char>>)
    requires
        constraints_defined(c, root, names),
    ensures
        constraint_rows(c, root, names).len() == node_count(c),
    decreases c,
{
    lemma_operand_rows_count(c.operands@[0], names);
    lemma_operand_rows_count(c.operands@[1], names);
}

/// The rows of an operand are one per node behind it.
proof fn lemma_operand_rows_count(o: Operand, names: Seq<Seq<char>>)
    requires
        operand_defined(o, names),
    ensures
        operand_rows(o, names).len() == operand_node_count(o),
    decreases o,
{
    if let Operand::NestedCircuit(d) = o {
        lemma_one_row_per_node(*d, false, names);
    }
}

/// The constraints of a circuit pin its values down: every assignment that
/// satisfies all of them, gives the constant-one column the value 1, and
/// tells the wires of each node apart, gives every node's output variable
/// the result of the node on its wires.
pub proof fn lemma_rows_force_values(c: Circuit, root: bool, names: Seq<Seq<char>>, env: Map<Seq<char>, i64>)
    requires
        constraints_defined(c, root, names),
        circuit_wires_separated(c, names),
        env[names[0]] == 1,
        rows_hold(constraint_rows(c, root, names), assignment_vector(names, env)),
    ensures
        assignment_consistent(c, root, env),
    decreases c,
{
    let w = assignment_vector(names, env);
    let o1 = c.operands@[0];
    let o2 = c.operands@[1];
    let first = operand_rows(o1, names);
    let second = operand_rows(o2, names);
    let rows = constraint_rows(c, root, names);
    assert(rows == first + second + seq![node_row(c, root, names)]);
    assert(rows_hold(first, w)) by {
        assert forall|k: int| 0 <= k < first.len() implies row_holds(#[trigger] first[k], w) by {
            assert(rows[k] == first[k]);
        }
    }
    assert(rows_hold(second, w)) by {
        assert forall|k: int| 0 <= k < second.len() implies row_holds(#[trigger] second[k], w) by {
            assert(rows[first.len() + k] == second[k]);
        }
    }
    assert(row_holds(node_row(c, root, names), w)) by {
        assert(rows[(first.len() + second.len()) as int] == node_row(c, root, names));
    }
    lemma_node_row_value(c, root, names, env);
    if let Operand::NestedCircuit(d) = o1 {
        lemma_rows_force_values(*d, false, names, env);
    }
    if let Operand::NestedCircuit(d) = o2 {
        lemma_rows_force_values(*d, false, names, env);
    }
}

} // verus!
