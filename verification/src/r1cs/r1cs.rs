//! The rank-1 constraint system of a circuit: one constraint `a·w * b·w = c·w`
//! per node, over the circuit's variable vector `w`.

use crate::circuits::circuit::{out_name, Circuit, Operand, Operation};
use crate::circuits::hashing::{decimal, decimal_string};
use crate::circuits::indexed_map::{last_index_of, lemma_last_index_of_found, IndexedMap};
use crate::r1cs::witness::Witness;
use vstd::prelude::*;

verus! {

/// One constraint: the coefficients of the variables in `a`, `b` and `c`.
pub struct ConstraintRow {
    pub a: Seq<i64>,
    pub b: Seq<i64>,
    pub c: Seq<i64>,
}

/// A row of zeros, one per variable.
pub open spec fn zeros(len: nat) -> Seq<i64> {
    Seq::new(len, |k: int| 0i64)
}

/// The column of a variable: its position in the variable map.
pub open spec fn column(names: Seq<Seq<char>>, name: Seq<char>) -> int {
    match last_index_of(names, name) {
        Some(i) => i as int,
        None => 0,
    }
}

/// The variable that holds a node's output: `out` for the root, otherwise
/// the decimal numeral of the node's stored hash.
pub open spec fn node_name(c: Circuit, root: bool) -> Seq<char> {
    if root {
        out_name()
    } else {
        decimal(c.hash as nat)
    }
}

/// The variable named by an operand: an input's name, or a nested node's
/// output variable.
pub open spec fn operand_name(o: Operand) -> Seq<char> {
    match o {
        Operand::Number(_) => Seq::empty(),
        Operand::Variable(v) => v@,
        Operand::NestedCircuit(c) => node_name(*c, false),
    }
}

/// `a` and `b` for a constant `n` combined with the variable in column `i`:
/// `(n + x) * 1` for a sum, `n * x` for a product.
pub open spec fn constant_and_column(n: i64, i: int, op: Operation, z: Seq<i64>) -> (Seq<i64>, Seq<i64>) {
    match op {
        Operation::Add => (z.update(0, n).update(i, 1), z.update(0, 1)),
        Operation::Multiply => (z.update(0, n), z.update(i, 1)),
    }
}

/// `a` and `b` for two variables in columns `i` and `j`, set one after the
/// other: `(x + y) * 1` for a sum, `x * y` for a product.
pub open spec fn two_columns(i: int, j: int, op: Operation, z: Seq<i64>) -> (Seq<i64>, Seq<i64>) {
    match op {
        Operation::Add => (z.update(i, 1).update(j, 1), z.update(0, 1)),
        Operation::Multiply => (z.update(i, 1), z.update(j, 1)),
    }
}

/// `a` and `b` for two variables in columns `i` and `j` whose sum counts one
/// column twice where both are the same.
pub open spec fn paired_columns(i: int, j: int, same: bool, op: Operation, z: Seq<i64>) -> (Seq<i64>, Seq<i64>) {
    match op {
        Operation::Add => if same {
            (z.update(i, 2), z.update(0, 1))
        } else {
            (z.update(i, 1).update(j, 1), z.update(0, 1))
        },
        Operation::Multiply => (z.update(i, 1), z.update(j, 1)),
    }
}

/// `a` and `b` of the constraint for a node with operands `o1` and `o2`.
pub open spec fn operand_coefficients(
    o1: Operand,
    o2: Operand,
    op: Operation,
    names: Seq<Seq<char>>,
) -> (Seq<i64>, Seq<i64>) {
    let z = zeros(names.len());
    match o1 {
        Operand::Number(n1) => match o2 {
            Operand::Number(n2) => match op {
                Operation::Add => (z.update(0, (n1 + n2) as i64), z.update(0, 1)),
                Operation::Multiply => (z.update(0, n1), z.update(0, n2)),
            },
            _ => constant_and_column(n1, column(names, operand_name(o2)), op, z),
        },
        Operand::Variable(v1) => match o2 {
            Operand::Number(n2) => constant_and_column(n2, column(names, v1@), op, z),
            Operand::Variable(v2) => paired_columns(
                column(names, v1@),
                column(names, v2@),
                v1@ == v2@,
                op,
                z,
            ),
            Operand::NestedCircuit(_) => two_columns(
                column(names, operand_name(o2)),
                column(names, v1@),
                op,
                z,
            ),
        },
        Operand::NestedCircuit(_) => match o2 {
            Operand::Number(n2) => constant_and_column(n2, column(names, operand_name(o1)), op, z),
            Operand::Variable(v2) => two_columns(
                column(names, operand_name(o1)),
                column(names, v2@),
                op,
                z,
            ),
            Operand::NestedCircuit(_) => {
                let i = column(names, operand_name(o1));
                let j = column(names, operand_name(o2));
                paired_columns(i, j, i == j, op, z)
            },
        },
    }
}

/// The constraint of a single node: its first two operands combined by its
/// operation in `a` and `b`, and its output variable in `c`.
pub open spec fn node_row(c: Circuit, root: bool, names: Seq<Seq<char>>) -> ConstraintRow {
    let ab = operand_coefficients(c.operands@[0], c.operands@[1], c.operation, names);
    ConstraintRow {
        a: ab.0,
        b: ab.1,
        c: zeros(names.len()).update(column(names, node_name(c, root)), 1),
    }
}

/// The constraints contributed by an operand: those of a nested node.
pub open spec fn operand_rows(o: Operand, names: Seq<Seq<char>>) -> Seq<ConstraintRow>
    decreases o,
{
    match o {
        Operand::NestedCircuit(d) => constraint_rows(*d, false, names),
        _ => Seq::empty(),
    }
}

/// The constraints of a circuit, in the order they are generated: those of
/// the nested nodes among its first two operands, in order, then its own.
pub open spec fn constraint_rows(c: Circuit, root: bool, names: Seq<Seq<char>>) -> Seq<ConstraintRow>
    decreases c,
{
    if c.operands@.len() < 2 {
        Seq::empty()
    } else {
        operand_rows(c.operands@[0], names) + operand_rows(c.operands@[1], names) + seq![
            node_row(c, root, names),
        ]
    }
}

/// An operand can be turned into constraints: an input is a known
/// variable, a nested node can itself be turned into constraints.
pub open spec fn operand_defined(o: Operand, names: Seq<Seq<char>>) -> bool
    decreases o,
{
    match o {
        Operand::Number(_) => true,
        Operand::Variable(v) => names.contains(v@),
        Operand::NestedCircuit(d) => constraints_defined(*d, false, names),
    }
}

/// The sum of two constant operands, where the node adds them, fits in an `i64`.
pub open spec fn constant_sum_fits(o1: Operand, o2: Operand, op: Operation) -> bool {
    match o1 {
        Operand::Number(n1) => match o2 {
            Operand::Number(n2) => op == Operation::Add ==> i64::MIN <= n1 + n2 <= i64::MAX,
            _ => true,
        },
        _ => true,
    }
}

/// A circuit can be turned into constraints over `names`: every node that
/// is reached has two operands, its output variable and the variables it
/// reads are in `names`, and a sum of two constants fits in an `i64`.
pub open spec fn constraints_defined(c: Circuit, root: bool, names: Seq<Seq<char>>) -> bool
    decreases c,
{
    &&& c.operands@.len() >= 2
    &&& names.contains(node_name(c, root))
    &&& operand_defined(c.operands@[0], names)
    &&& operand_defined(c.operands@[1], names)
    &&& constant_sum_fits(c.operands@[0], c.operands@[1], c.operation)
}

/// The `a` rows of a list of constraints.
pub open spec fn a_parts(rows: Seq<ConstraintRow>) -> Seq<Seq<i64>> {
    rows.map_values(|r: ConstraintRow| r.a)
}

/// The `b` rows of a list of constraints.
pub open spec fn b_parts(rows: Seq<ConstraintRow>) -> Seq<Seq<i64>> {
    rows.map_values(|r: ConstraintRow| r.b)
}

/// The `c` rows of a list of constraints.
pub open spec fn c_parts(rows: Seq<ConstraintRow>) -> Seq<Seq<i64>> {
    rows.map_values(|r: ConstraintRow| r.c)
}

/// The rows of a matrix.
pub open spec fn matrix_rows(m: Seq<Vec<i64>>) -> Seq<Seq<i64>> {
    m.map_values(|r: Vec<i64>| r@)
}

struct Constraint {
    a: Vec<i64>,
    b: Vec<i64>,
    c: Vec<i64>,
}

/// A rank-1 constraint system: the matrices `A`, `B`, `C` (one row per
/// constraint) over the variables of `variable_map`.
#[derive(Debug)]
pub struct R1CS {
    a_matrix: Vec<Vec<i64>>,
    b_matrix: Vec<Vec<i64>>,
    c_matrix: Vec<Vec<i64>>,
    pub variable_map: IndexedMap<String>,
}

impl R1CS {
    /// The variables that index the columns, in order.
    pub closed spec fn variables(&self) -> Seq<Seq<char>> {
        self.variable_map@
    }

    /// The rows of `A`.
    pub closed spec fn a_rows(&self) -> Seq<Seq<i64>> {
        matrix_rows(self.a_matrix@)
    }

    /// The rows of `B`.
    pub closed spec fn b_rows(&self) -> Seq<Seq<i64>> {
        matrix_rows(self.b_matrix@)
    }

    /// The rows of `C`.
    pub closed spec fn c_rows(&self) -> Seq<Seq<i64>> {
        matrix_rows(self.c_matrix@)
    }

    /// A system with no constraints over the given variables.
    pub fn new(variable_map: IndexedMap<String>) -> (res: Self)
        ensures
            res.variables() == variable_map@,
            res.a_rows() == Seq::<Seq<i64>>::empty(),
            res.b_rows() == Seq::<Seq<i64>>::empty(),
            res.c_rows() == Seq::<Seq<i64>>::empty(),
    {
        let res = R1CS { a_matrix: Vec::new(), b_matrix: Vec::new(), c_matrix: Vec::new(), variable_map };
        assert(res.a_rows() =~= Seq::<Seq<i64>>::empty());
        assert(res.b_rows() =~= Seq::<Seq<i64>>::empty());
        assert(res.c_rows() =~= Seq::<Seq<i64>>::empty());
        res
    }

    fn add_constraint(&mut self, constraint: Constraint)
        ensures
            final(self).variables() == old(self).variables(),
            final(self).a_rows() == old(self).a_rows().push(constraint.a@),
            final(self).b_rows() == old(self).b_rows().push(constraint.b@),
            final(self).c_rows() == old(self).c_rows().push(constraint.c@),
    {
        let ghost a0 = self.a_matrix@;
        let ghost b0 = self.b_matrix@;
        let ghost c0 = self.c_matrix@;
        self.a_matrix.push(constraint.a);
        self.b_matrix.push(constraint.b);
        self.c_matrix.push(constraint.c);
        assert(self.a_rows() =~= matrix_rows(a0).push(constraint.a@));
        assert(self.b_rows() =~= matrix_rows(b0).push(constraint.b@));
        assert(self.c_rows() =~= matrix_rows(c0).push(constraint.c@));
    }

    /// The matrices `A`, `B` and `C`.
    pub fn get_constraint_matrices(&self) -> (res: (&Vec<Vec<i64>>, &Vec<Vec<i64>>, &Vec<Vec<i64>>))
        ensures
            matrix_rows(res.0@) == self.a_rows(),
            matrix_rows(res.1@) == self.b_rows(),
            matrix_rows(res.2@) == self.c_rows(),
    {
        (&self.a_matrix, &self.b_matrix, &self.c_matrix)
    }

    /// The variables that index the columns.
    pub fn get_variable_map(&self) -> (res: &IndexedMap<String>)
        ensures
            res@ == self.variables(),
    {
        &self.variable_map
    }

    /// The column of a variable that is known to be in the map.
    fn column_of(&self, name: &String) -> (res: usize)
        requires
            self.variable_map@.contains(name@),
        ensures
            res == column(self.variable_map@, name@),
            res < self.variable_map@.len(),
    {
        proof {
            lemma_last_index_of_found(self.variable_map@, name@);
        }
        match self.variable_map.get_index(name) {
            Some(index) => index,
            None => {
                assert(false);
                0
            },
        }
    }
}


/// A row of zeros, built.
fn zero_row(length: usize) -> (res: Vec<i64>)
    ensures
        res@ == zeros(length as nat),
{
    let res = vec![0i64; length];
    assert(res@ =~= zeros(length as nat));
    res
}

impl R1CS {
    /// The constraint starts blank: `a` and `b` are rows of zeros, one per
    /// variable, and there is at least one variable.
    spec fn blank(&self, constraint: &Constraint) -> bool {
        &&& constraint.a@ == zeros(self.variables().len())
        &&& constraint.b@ == zeros(self.variables().len())
        &&& self.variables().len() >= 1
    }

    fn handle_number_number_case(
        &self,
        num1: i64,
        num2: i64,
        operation: &Operation,
        constraint: &mut Constraint,
    )
        requires
            self.blank(old(constraint)),
            *operation == Operation::Add ==> i64::MIN <= num1 + num2 <= i64::MAX,
        ensures
            final(constraint).c@ == old(constraint).c@,
            (final(constraint).a@, final(constraint).b@) == operand_coefficients(
                Operand::Number(num1),
                Operand::Number(num2),
                *operation,
                self.variables(),
            ),
    {
        match operation {
            Operation::Add => {
                constraint.a[0] = num1 + num2;
                constraint.b[0] = 1;
            },
            Operation::Multiply => {
                constraint.a[0] = num1;
                constraint.b[0] = num2;
            },
        }
    }

    fn handle_number_variable_case(
        &self,
        var: String,
        num: i64,
        operation: &Operation,
        constraint: &mut Constraint,
    )
        requires
            self.blank(old(constraint)),
            self.variables().contains(var@),
        ensures
            final(constraint).c@ == old(constraint).c@,
            (final(constraint).a@, final(constraint).b@) == constant_and_column(
                num,
                column(self.variables(), var@),
                *operation,
                zeros(self.variables().len()),
            ),
    {
        let index = self.column_of(&var);
        match operation {
            Operation::Add => {
                constraint.a[0] = num;
                constraint.a[index] = 1;
                constraint.b[0] = 1;
            },
            Operation::Multiply => {
                constraint.a[0] = num;
                constraint.b[index] = 1;
            },
        }
    }

    fn handle_variable_variable_case(
        &self,
        var1: String,
        var2: String,
        operation: &Operation,
        constraint: &mut Constraint,
    )
        requires
            self.blank(old(constraint)),
            self.variables().contains(var1@),
            self.variables().contains(var2@),
        ensures
            final(constraint).c@ == old(constraint).c@,
            (final(constraint).a@, final(constraint).b@) == paired_columns(
                column(self.variables(), var1@),
                column(self.variables(), var2@),
                var1@ == var2@,
                *operation,
                zeros(self.variables().len()),
            ),
    {
        let index1 = self.column_of(&var1);
        let index2 = self.column_of(&var2);
        match operation {
            Operation::Add => {
                if var1 == var2 {
                    constraint.a[index1] = 2;
                    constraint.b[0] = 1;
                } else {
                    constraint.a[index1] = 1;
                    constraint.a[index2] = 1;
                    constraint.b[0] = 1;
                }
            },
            Operation::Multiply => {
                constraint.a[index1] = 1;
                constraint.b[index2] = 1;
            },
        }
    }

    fn handle_number_nested_circuit_case(
        &self,
        num: i64,
        circuit: &Circuit,
        operation: &Operation,
        constraint: &mut Constraint,
    )
        requires
            self.blank(old(constraint)),
            self.variables().contains(node_name(*circuit, false)),
        ensures
            final(constraint).c@ == old(constraint).c@,
            (final(constraint).a@, final(constraint).b@) == constant_and_column(
                num,
                column(self.variables(), node_name(*circuit, false)),
                *operation,
                zeros(self.variables().len()),
            ),
    {
        let index = self.column_of(&decimal_string(circuit.hash));
        match operation {
            Operation::Add => {
                constraint.a[0] = num;
                constraint.a[index] = 1;
                constraint.b[0] = 1;
            },
            Operation::Multiply => {
                constraint.a[0] = num;
                constraint.b[index] = 1;
            },
        }
    }

    fn handle_variable_nested_circuit_case(
        &self,
        var: String,
        circuit: &Circuit,
        operation: &Operation,
        constraint: &mut Constraint,
    )
        requires
            self.blank(old(constraint)),
            self.variables().contains(var@),
            self.variables().contains(node_name(*circuit, false)),
        ensures
            final(constraint).c@ == old(constraint).c@,
            (final(constraint).a@, final(constraint).b@) == two_columns(
                column(self.variables(), node_name(*circuit, false)),
                column(self.variables(), var@),
                *operation,
                zeros(self.variables().len()),
            ),
    {
        let nested_index = self.column_of(&decimal_string(circuit.hash));
        let var_index = self.column_of(&var);
        match operation {
            Operation::Add => {
                constraint.a[nested_index] = 1;
                constraint.a[var_index] = 1;
                constraint.b[0] = 1;
            },
            Operation::Multiply => {
                constraint.a[nested_index] = 1;
                constraint.b[var_index] = 1;
            },
        }
    }

    fn handle_double_nested_circuit_case(
        &self,
        circuit1: &Circuit,
        circuit2: &Circuit,
        operation: &Operation,
        constraint: &mut Constraint,
    )
        requires
            self.blank(old(constraint)),
            self.variables().contains(node_name(*circuit1, false)),
            self.variables().contains(node_name(*circuit2, false)),
        ensures
            final(constraint).c@ == old(constraint).c@,
            (final(constraint).a@, final(constraint).b@) == paired_columns(
                column(self.variables(), node_name(*circuit1, false)),
                column(self.variables(), node_name(*circuit2, false)),
                column(self.variables(), node_name(*circuit1, false)) == column(
                    self.variables(),
                    node_name(*circuit2, false),
                ),
                *operation,
                zeros(self.variables().len()),
            ),
    {
        let index1 = self.column_of(&decimal_string(circuit1.hash));
        let index2 = self.column_of(&decimal_string(circuit2.hash));
        match operation {
            Operation::Add => {
                constraint.b[0] = 1;
                if index1 == index2 {
                    constraint.a[index1] = 2;
                } else {
                    constraint.a[index1] = 1;
                    constraint.a[index2] = 1;
                }
            },
            Operation::Multiply => {
                constraint.a[index1] = 1;
                constraint.b[index2] = 1;
            },
        }
    }

    /// The constraint of a single node.
    fn node_constraint(&self, circuit: &Circuit, root: bool) -> (res: Constraint)
        requires
            constraints_defined(*circuit, root, self.variables()),
        ensures
            res.a@ == node_row(*circuit, root, self.variables()).a,
            res.b@ == node_row(*circuit, root, self.variables()).b,
            res.c@ == node_row(*circuit, root, self.variables()).c,
    {
        let length = self.variable_map.len();
        let circuit_index = if root {
            self.column_of(&"out".to_string())
        } else {
            self.column_of(&decimal_string(circuit.get_hash()))
        };
        let mut constraint = Constraint { b: zero_row(length), c: zero_row(length), a: zero_row(length) };
        constraint.c[circuit_index] = 1;
        let operand1 = &circuit.operands[0];
        let operand2 = &circuit.operands[1];
        proof {
            let names = self.variables();
            if let Operand::NestedCircuit(d) = operand1 {
                assert(constraints_defined(**d, false, names));
                assert(names.contains(node_name(**d, false)));
            }
            if let Operand::NestedCircuit(d) = operand2 {
                assert(constraints_defined(**d, false, names));
                assert(names.contains(node_name(**d, false)));
            }
        }
        match (operand1, operand2) {
            (Operand::Number(num1), Operand::Number(num2)) => {
                self.handle_number_number_case(*num1, *num2, &circuit.operation, &mut constraint)
            },
            (Operand::Number(num), Operand::Variable(var))
            | (Operand::Variable(var), Operand::Number(num)) => {
                self.handle_number_variable_case(var.clone(), *num, &circuit.operation, &mut constraint)
            },
            (Operand::Variable(var1), Operand::Variable(var2)) => {
                self.handle_variable_variable_case(
                    var1.clone(),
                    var2.clone(),
                    &circuit.operation,
                    &mut constraint,
                )
            },
            (Operand::NestedCircuit(nested_circuit), Operand::Number(num))
            | (Operand::Number(num), Operand::NestedCircuit(nested_circuit)) => {
                self.handle_number_nested_circuit_case(
                    *num,
                    nested_circuit,
                    &circuit.operation,
                    &mut constraint,
                )
            },
            (Operand::NestedCircuit(nested_circuit), Operand::Variable(var))
            | (Operand::Variable(var), Operand::NestedCircuit(nested_circuit)) => {
                self.handle_variable_nested_circuit_case(
                    var.clone(),
                    nested_circuit,
                    &circuit.operation,
                    &mut constraint,
                )
            },
            (Operand::NestedCircuit(circuit1), Operand::NestedCircuit(circuit2)) => {
                self.handle_double_nested_circuit_case(
                    circuit1,
                    circuit2,
                    &circuit.operation,
                    &mut constraint,
                )
            },
        }
        constraint
    }

    /// Appends the constraints of `circuit`: first those of the nested
    /// nodes among its two operands, in order, then the node's own.
    pub fn generate_r1cs_constraints(&mut self, circuit: &Circuit, root: bool)
        requires
            constraints_defined(*circuit, root, old(self).variables()),
        ensures
            final(self).variables() == old(self).variables(),
            final(self).a_rows() == old(self).a_rows() + a_parts(
                constraint_rows(*circuit, root, old(self).variables()),
            ),
            final(self).b_rows() == old(self).b_rows() + b_parts(
                constraint_rows(*circuit, root, old(self).variables()),
            ),
            final(self).c_rows() == old(self).c_rows() + c_parts(
                constraint_rows(*circuit, root, old(self).variables()),
            ),
            final(self).a_rows().len() == old(self).a_rows().len() + crate::r1cs::satisfaction::node_count(*circuit),
            final(self).b_rows().len() == old(self).b_rows().len() + crate::r1cs::satisfaction::node_count(*circuit),
            final(self).c_rows().len() == old(self).c_rows().len() + crate::r1cs::satisfaction::node_count(*circuit),
        decreases circuit,
    {
        let ghost names = self.variables();
        let constraint = self.node_constraint(circuit, root);
        let ghost first = operand_rows(circuit.operands@[0], names);
        let ghost second = operand_rows(circuit.operands@[1], names);
        let ghost a0 = self.a_rows();
        let ghost b0 = self.b_rows();
        let ghost c0 = self.c_rows();
        match &circuit.operands[0] {
            Operand::NestedCircuit(nested_circuit) => {
                self.generate_r1cs_constraints(nested_circuit, false);
            },
            _ => {
                assert(a_parts(first) =~= Seq::<Seq<i64>>::empty());
                assert(b_parts(first) =~= Seq::<Seq<i64>>::empty());
                assert(c_parts(first) =~= Seq::<Seq<i64>>::empty());
                assert(a0 + a_parts(first) =~= a0);
                assert(b0 + b_parts(first) =~= b0);
                assert(c0 + c_parts(first) =~= c0);
            },
        }
        let ghost a1 = self.a_rows();
        let ghost b1 = self.b_rows();
        let ghost c1 = self.c_rows();
        match &circuit.operands[1] {
            Operand::NestedCircuit(nested_circuit) => {
                self.generate_r1cs_constraints(nested_circuit, false);
            },
            _ => {
                assert(a_parts(second) =~= Seq::<Seq<i64>>::empty());
                assert(b_parts(second) =~= Seq::<Seq<i64>>::empty());
                assert(c_parts(second) =~= Seq::<Seq<i64>>::empty());
                assert(a1 + a_parts(second) =~= a1);
                assert(b1 + b_parts(second) =~= b1);
                assert(c1 + c_parts(second) =~= c1);
            },
        }
        let ghost row = node_row(*circuit, root, names);
        self.add_constraint(constraint);
        proof {
            let rows = constraint_rows(*circuit, root, names);
            assert(rows == first + second + seq![row]);
            assert(a_parts(rows) =~= a_parts(first) + a_parts(second) + seq![row.a]);
            assert(b_parts(rows) =~= b_parts(first) + b_parts(second) + seq![row.b]);
            assert(c_parts(rows) =~= c_parts(first) + c_parts(second) + seq![row.c]);
            assert(self.a_rows() =~= a0 + a_parts(rows));
            assert(self.b_rows() =~= b0 + b_parts(rows));
            assert(self.c_rows() =~= c0 + c_parts(rows));
            crate::r1cs::satisfaction::lemma_one_row_per_node(*circuit, root, names);
        }
    }
}


// ---------------------------------------------------------------------------
// Evaluation
// ---------------------------------------------------------------------------

/// The value of an operand and the witness after computing it, or `None`
/// where evaluation fails (an input without a value, an arithmetic
/// overflow, a node with more than two operands).
pub open spec fn eval_operand(o: Operand, w: Map<Seq<char>, i64>) -> Option<(i64, Map<Seq<char>, i64>)>
    decreases o,
{
    match o {
        Operand::Number(n) => Some((n, w)),
        Operand::Variable(v) => if w.contains_key(v@) {
            Some((w[v@], w))
        } else {
            None
        },
        Operand::NestedCircuit(d) => eval_node(*d, w, false),
    }
}

/// The values of a run of operands, evaluated left to right, and the
/// witness afterwards.
pub open spec fn eval_operands(ops: Seq<Operand>, w: Map<Seq<char>, i64>) -> Option<(Seq<i64>, Map<Seq<char>, i64>)>
    decreases ops,
{
    if ops.len() == 0 {
        Some((Seq::empty(), w))
    } else {
        match eval_operands(ops.drop_last(), w) {
            None => None,
            Some(done) => match eval_operand(ops.last(), done.1) {
                None => None,
                Some(last) => Some((done.0.push(last.0), last.1)),
            },
        }
    }
}

/// The value of a node, computed from its (at most two) operand values, a
/// missing operand counting as 0; below the root the value is recorded
/// under the decimal numeral of the node's stored hash.
pub open spec fn eval_node(c: Circuit, w: Map<Seq<char>, i64>, root: bool) -> Option<(i64, Map<Seq<char>, i64>)>
    decreases c,
{
    if c.operands@.len() > 2 {
        None
    } else {
        match eval_operands(c.operands@, w) {
            None => None,
            Some(done) => {
                let x: int = if done.0.len() > 0 { done.0[0] as int } else { 0 };
                let y: int = if done.0.len() > 1 { done.0[1] as int } else { 0 };
                let r: int = match c.operation {
                    Operation::Add => x + y,
                    Operation::Multiply => x * y,
                };
                if r < i64::MIN || r > i64::MAX {
                    None
                } else if root {
                    Some((r as i64, done.1))
                } else {
                    Some((r as i64, done.1.insert(decimal(c.hash as nat), r as i64)))
                }
            },
        }
    }
}

/// The witness of a circuit over the given inputs: the inputs, the value
/// of every nested node under its name, and the circuit's value as `out`.
pub open spec fn witness_of(c: Circuit, inputs: Map<Seq<char>, i64>) -> Map<Seq<char>, i64> {
    let done = eval_node(c, inputs, true).unwrap();
    done.1.insert(out_name(), done.0)
}

impl R1CS {
    /// Evaluates the circuit over `inputs`, recording the value of each
    /// nested node and, as `out`, the circuit's value.
    pub fn compute_witness(&self, circuit: &Circuit, inputs: Witness) -> (res: Witness)
        requires
            eval_node(*circuit, inputs@, true) is Some,
        ensures
            res@ == witness_of(*circuit, inputs@),
    {
        let mut witness = inputs;
        let output = self.evaluate_circuit_recursively(circuit, &mut witness, true);
        witness.insert("out".to_string(), output);
        witness
    }

    fn evaluate_circuit_recursively(&self, circuit: &Circuit, witness: &mut Witness, root: bool) -> (res: i64)
        requires
            eval_node(*circuit, old(witness)@, root) is Some,
        ensures
            (res, final(witness)@) == eval_node(*circuit, old(witness)@, root).unwrap(),
        decreases circuit,
    {
        let ghost ops = circuit.operands@;
        let mut values: [i64; 2] = [0i64, 0i64];
        let n = circuit.operands.len();
        let mut i: usize = 0;
        proof {
            assert(ops.take(0) =~= Seq::<Operand>::empty());
        }
        while i < n
            invariant
                ops == circuit.operands@,
                n == ops.len(),
                n <= 2,
                i <= n,
                eval_node(*circuit, old(witness)@, root) is Some,
                eval_operands(ops, old(witness)@) is Some,
                eval_operands(ops.take(i as int), old(witness)@) is Some,
                eval_operands(ops.take(i as int), old(witness)@).unwrap().1 == witness@,
                forall|k: int| 0 <= k < i ==> values@[k] == eval_operands(ops.take(i as int), old(witness)@).unwrap().0[k],
                forall|k: int| i <= k < 2 ==> values@[k] == 0,
                eval_operands(ops.take(i as int), old(witness)@).unwrap().0.len() == i,
            decreases n - i,
        {
            proof {
                assert(ops.take(i + 1).drop_last() =~= ops.take(i as int));
                lemma_eval_operands_prefix(ops, old(witness)@, i as int + 1);
                assert(ops.take(i + 1).last() == ops[i as int]);
                let done = eval_operands(ops.take(i as int), old(witness)@).unwrap();
                assert(eval_operand(ops[i as int], done.1) is Some);
            }
            let ghost w_before = witness@;
            let value = match &circuit.operands[i] {
                Operand::Number(num) => *num,
                Operand::Variable(var) => match witness.get(var) {
                    Some(v) => v,
                    None => {
                        assert(false);
                        0
                    },
                },
                Operand::NestedCircuit(nested_circuit) => {
                    self.evaluate_circuit_recursively(nested_circuit, witness, false)
                },
            };
            proof {
                let done = eval_operands(ops.take(i as int), old(witness)@).unwrap();
                let step = eval_operand(ops[i as int], w_before).unwrap();
                assert(value == step.0);
                assert(witness@ == step.1);
                assert(eval_operands(ops.take(i + 1), old(witness)@).unwrap() == (done.0.push(step.0), step.1));
            }
            values.set(i, value);
            i += 1;
        }
        proof {
            assert(ops.take(n as int) =~= ops);
        }
        let output = match circuit.operation {
            Operation::Add => values[0] + values[1],
            Operation::Multiply => values[0] * values[1],
        };
        if !root {
            witness.insert(decimal_string(circuit.hash), output);
        }
        output
    }
}

/// Where a run of operands evaluates, so does each prefix of it.
pub proof fn lemma_eval_operands_prefix(ops: Seq<Operand>, w: Map<Seq<char>, i64>, k: int)
    requires
        0 <= k <= ops.len(),
        eval_operands(ops, w) is Some,
    ensures
        eval_operands(ops.take(k), w) is Some,
    decreases ops.len(),
{
    if k < ops.len() {
        assert(ops.drop_last().take(k) =~= ops.take(k));
        lemma_eval_operands_prefix(ops.drop_last(), w, k);
    } else {
        assert(ops.take(k) =~= ops);
    }
}


impl R1CS {
    /// Whether the variable map holds `name`.
    fn has_variable(&self, name: &String) -> (res: bool)
        ensures
            res == self.variables().contains(name@),
    {
        proof {
            lemma_last_index_of_found(self.variables(), name@);
        }
        match self.variable_map.get_index(name) {
            Some(_) => true,
            None => false,
        }
    }

    /// Whether an operand can be turned into constraints.
    fn accepts_operand(&self, operand: &Operand) -> (res: bool)
        ensures
            res == operand_defined(*operand, self.variables()),
        decreases operand,
    {
        match operand {
            Operand::Number(_) => true,
            Operand::Variable(var) => self.has_variable(var),
            Operand::NestedCircuit(nested_circuit) => self.accepts(nested_circuit, false),
        }
    }

    /// Whether `generate_r1cs_constraints` can be called on `circuit`: every
    /// node it reaches has two operands, every variable it needs is in the
    /// map, and every sum of two constants fits in an `i64`.
    pub fn accepts(&self, circuit: &Circuit, root: bool) -> (res: bool)
        ensures
            res == constraints_defined(*circuit, root, self.variables()),
        decreases circuit,
    {
        if circuit.operands.len() < 2 {
            return false;
        }
        let name = if root {
            "out".to_string()
        } else {
            decimal_string(circuit.hash)
        };
        if !self.has_variable(&name) {
            return false;
        }
        let fits = match (&circuit.operands[0], &circuit.operands[1]) {
            (Operand::Number(num1), Operand::Number(num2)) => match circuit.operation {
                Operation::Add => num1.checked_add(*num2).is_some(),
                Operation::Multiply => true,
            },
            _ => true,
        };
        fits && self.accepts_operand(&circuit.operands[0]) && self.accepts_operand(&circuit.operands[1])
    }

    /// Evaluates like `evaluate_circuit_recursively`, but gives `None`
    /// where that would fail; the witness is then left in some state.
    fn try_evaluate(&self, circuit: &Circuit, witness: &mut Witness, root: bool) -> (res: Option<i64>)
        ensures
            match eval_node(*circuit, old(witness)@, root) {
                Some(done) => res == Some(done.0) && final(witness)@ == done.1,
                None => res is None,
            },
        decreases circuit,
    {
        let ghost ops = circuit.operands@;
        let ghost w0 = witness@;
        let n = circuit.operands.len();
        if n > 2 {
            return None;
        }
        let mut values: [i64; 2] = [0i64, 0i64];
        let mut i: usize = 0;
        proof {
            assert(ops.take(0) =~= Seq::<Operand>::empty());
        }
        while i < n
            invariant
                ops == circuit.operands@,
                n == ops.len(),
                n <= 2,
                i <= n,
                eval_operands(ops.take(i as int), w0) is Some,
                eval_operands(ops.take(i as int), w0).unwrap().1 == witness@,
                forall|k: int| 0 <= k < i ==> values@[k] == eval_operands(ops.take(i as int), w0).unwrap().0[k],
                forall|k: int| i <= k < 2 ==> values@[k] == 0,
                eval_operands(ops.take(i as int), w0).unwrap().0.len() == i,
                eval_node(*circuit, w0, root) is Some ==> eval_operands(ops, w0) is Some,
                w0 == old(witness)@,
            decreases n - i,
        {
            proof {
                assert(ops.take(i + 1).drop_last() =~= ops.take(i as int));
                assert(ops.take(i + 1).last() == ops[i as int]);
                if eval_operands(ops, w0) is Some {
                    lemma_eval_operands_prefix(ops, w0, i as int + 1);
                }
            }
            let ghost w_before = witness@;
            let value = match &circuit.operands[i] {
                Operand::Number(num) => Some(*num),
                Operand::Variable(var) => witness.get(var),
                Operand::NestedCircuit(nested_circuit) => self.try_evaluate(nested_circuit, witness, false),
            };
            match value {
                Some(v) => {
                    proof {
                        let done = eval_operands(ops.take(i as int), w0).unwrap();
                        let step = eval_operand(ops[i as int], w_before).unwrap();
                        assert(v == step.0);
                        assert(eval_operands(ops.take(i + 1), w0).unwrap() == (done.0.push(step.0), step.1));
                    }
                    values.set(i, v);
                },
                None => {
                    proof {
                        assert(eval_operands(ops.take(i + 1), w0) is None);
                        if eval_operands(ops, w0) is Some {
                            lemma_eval_operands_prefix(ops, w0, i as int + 1);
                        }
                        assert(eval_operands(ops, w0) is None);
                        assert(eval_node(*circuit, w0, root) is None);
                    }
                    return None;
                },
            }
            i += 1;
        }
        proof {
            assert(ops.take(n as int) =~= ops);
        }
        let output = match circuit.operation {
            Operation::Add => values[0].checked_add(values[1]),
            Operation::Multiply => values[0].checked_mul(values[1]),
        };
        match output {
            Some(v) => {
                if !root {
                    witness.insert(decimal_string(circuit.hash), v);
                }
                Some(v)
            },
            None => None,
        }
    }

    /// The witness of `circuit` over `inputs`, or `None` where computing it
    /// fails: an input without a value, an arithmetic overflow, or a node
    /// with more than two operands.
    pub fn try_compute_witness(&self, circuit: &Circuit, inputs: Witness) -> (res: Option<Witness>)
        ensures
            res is Some <==> eval_node(*circuit, inputs@, true) is Some,
            res matches Some(w) ==> w@ == witness_of(*circuit, inputs@),
    {
        let mut witness = inputs;
        match self.try_evaluate(circuit, &mut witness, true) {
            Some(output) => {
                witness.insert("out".to_string(), output);
                Some(witness)
            },
            None => None,
        }
    }
}

} // verus!
