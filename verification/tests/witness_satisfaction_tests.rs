use zk_circuits::circuits::{Circuit, Operand, Operation};
use zk_circuits::r1cs::r1cs::R1CS;
use zk_circuits::r1cs::Witness;

fn variable(name: &str) -> Operand {
    Operand::Variable(name.to_string())
}

fn nested(circuit: Circuit) -> Operand {
    Operand::NestedCircuit(Box::new(circuit))
}

fn dot(row: &[i64], w: &[i64]) -> i64 {
    row.iter().zip(w.iter()).map(|(a, b)| a * b).sum()
}

/// Builds the system and the witness of `circuit`, and checks every row.
fn check_rows(mut circuit: Circuit, inputs: &[(&str, i64)]) -> usize {
    let variable_map = circuit.hash_and_index_circuit();
    let mut r1cs = R1CS::new(variable_map);
    assert!(r1cs.accepts(&circuit, true));
    r1cs.generate_r1cs_constraints(&circuit, true);

    let mut given = Witness::new();
    for (name, value) in inputs {
        given.insert(name.to_string(), *value);
    }
    let witness = r1cs.compute_witness(&circuit, given);

    let map = r1cs.get_variable_map();
    let mut w = Vec::new();
    for i in 0..map.len() {
        let name = map.get_item(i).unwrap();
        w.push(witness.get(name).expect("every variable has a value"));
    }
    let (a, b, c) = r1cs.get_constraint_matrices();
    for k in 0..a.len() {
        assert_eq!(dot(&a[k], &w) * dot(&b[k], &w), dot(&c[k], &w), "row {}", k);
    }
    a.len()
}

#[test]
fn witness_satisfies_a_single_product() {
    let circuit = Circuit::new(Operation::Multiply, variable("x"), variable("y"), None);
    assert_eq!(check_rows(circuit, &[("1", 1), ("x", 3), ("y", 7)]), 1);
}

#[test]
fn witness_satisfies_nested_sums_and_products() {
    let inner = Circuit::new(Operation::Add, variable("x"), Operand::Number(5), None);
    let right = Circuit::new(Operation::Multiply, variable("y"), Operand::Number(-2), None);
    let circuit = Circuit::new(Operation::Multiply, nested(inner), nested(right), None);
    assert_eq!(check_rows(circuit, &[("1", 1), ("x", 3), ("y", 4)]), 3);
}

#[test]
fn witness_satisfies_a_repeated_subcircuit() {
    let left = Circuit::new(Operation::Add, variable("x"), Operand::Number(1), None);
    let right = Circuit::new(Operation::Add, variable("x"), Operand::Number(1), None);
    let circuit = Circuit::new(Operation::Multiply, nested(left), nested(right), None);
    assert_eq!(check_rows(circuit, &[("1", 1), ("x", 6)]), 3);
}

#[test]
fn witness_satisfies_a_square_of_one_input() {
    let circuit = Circuit::new(Operation::Add, variable("x"), variable("x"), None);
    assert_eq!(check_rows(circuit, &[("1", 1), ("x", 9)]), 1);
}
