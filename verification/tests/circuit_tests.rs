use std::collections::hash_map::DefaultHasher;
use std::hash::{Hash, Hasher};
use zk_circuits::circuits::{Circuit, IndexedMap, Operand, Operation};
use zk_circuits::r1cs::r1cs::R1CS;
use zk_circuits::r1cs::Witness;

fn number(n: i64) -> Operand {
    Operand::Number(n)
}

fn variable(name: &str) -> Operand {
    Operand::Variable(name.to_string())
}

fn nested(circuit: Circuit) -> Operand {
    Operand::NestedCircuit(Box::new(circuit))
}

fn matrices(mut circuit: Circuit) -> (Vec<Vec<i64>>, Vec<Vec<i64>>, Vec<Vec<i64>>) {
    let variable_map = circuit.hash_and_index_circuit();
    let mut r1cs = R1CS::new(variable_map);
    r1cs.generate_r1cs_constraints(&circuit, true);
    let (a, b, c) = r1cs.get_constraint_matrices();
    (a.clone(), b.clone(), c.clone())
}

fn names(map: &IndexedMap<String>) -> Vec<String> {
    let mut out = Vec::new();
    for i in 0..map.len() {
        out.push(map.get_item(i).unwrap().clone());
    }
    out
}

#[test]
fn test_new_circuit() {
    let operand1 = Operand::Number(1);
    let operand2 = Operand::Number(2);
    let circuit = Circuit::new(Operation::Add, operand1, operand2, None);

    assert_eq!(circuit.operands.len(), 2);
    assert_eq!(circuit.hash, 0);
}

#[test]
fn test_new_circuit_keeps_given_hash() {
    let circuit = Circuit::new(Operation::Multiply, number(1), variable("x"), Some(42));
    assert_eq!(circuit.get_hash(), 42);
    assert!(circuit.is_valid());
}

#[test]
fn test_set_hash() {
    let mut circuit = Circuit::new(Operation::Add, number(1), number(2), None);
    circuit.set_hash(7);
    assert_eq!(circuit.get_hash(), 7);
}

#[test]
fn test_is_valid_needs_two_operands() {
    let circuit = Circuit { operation: Operation::Add, operands: vec![number(1)], hash: 0 };
    assert!(!circuit.is_valid());
}

#[test]
fn test_from_circuit_with_simple_addition() {
    let circuit = Circuit::new(Operation::Add, number(1), number(2), None);
    let (a_matrix, b_matrix, c_matrix) = matrices(circuit);

    assert_eq!(a_matrix, vec![vec![3, 0]]);
    assert_eq!(b_matrix, vec![vec![1, 0]]);
    assert_eq!(c_matrix, vec![vec![0, 1]]);
}

#[test]
fn test_from_circuit_with_simple_multiplication() {
    let circuit = Circuit::new(Operation::Multiply, number(3), number(4), None);
    let (a_matrix, b_matrix, c_matrix) = matrices(circuit);

    assert_eq!(a_matrix, vec![vec![3, 0]]);
    assert_eq!(b_matrix, vec![vec![4, 0]]);
    assert_eq!(c_matrix, vec![vec![0, 1]]);
}

#[test]
fn test_from_circuit_with_variable_addition() {
    let circuit = Circuit::new(Operation::Add, variable("x"), variable("y"), None);
    let (a_matrix, b_matrix, c_matrix) = matrices(circuit);

    assert_eq!(a_matrix, vec![vec![0, 1, 1, 0]]);
    assert_eq!(b_matrix, vec![vec![1, 0, 0, 0]]);
    assert_eq!(c_matrix, vec![vec![0, 0, 0, 1]]);
}

#[test]
fn test_from_circuit_with_variable_multiplication() {
    let circuit = Circuit::new(Operation::Multiply, variable("x"), variable("y"), None);
    let (a_matrix, b_matrix, c_matrix) = matrices(circuit);

    assert_eq!(a_matrix, vec![vec![0, 1, 0, 0]]);
    assert_eq!(b_matrix, vec![vec![0, 0, 1, 0]]);
    assert_eq!(c_matrix, vec![vec![0, 0, 0, 1]]);
}

#[test]
fn test_from_circuit_with_nested_addition() {
    let inner = Circuit::new(Operation::Add, number(1), number(2), None);
    let circuit = Circuit::new(Operation::Add, nested(inner), number(5), None);
    let (a_matrix, b_matrix, c_matrix) = matrices(circuit);

    assert_eq!(a_matrix, vec![vec![3, 0, 0], vec![5, 0, 1]]);
    assert_eq!(b_matrix, vec![vec![1, 0, 0], vec![1, 0, 0]]);
    assert_eq!(c_matrix, vec![vec![0, 0, 1], vec![0, 1, 0]]);
}

#[test]
fn test_from_circuit_with_nested_multiplication() {
    let inner = Circuit::new(Operation::Multiply, number(1), number(2), None);
    let circuit = Circuit::new(Operation::Add, nested(inner), number(5), None);
    let (a_matrix, b_matrix, c_matrix) = matrices(circuit);

    assert_eq!(a_matrix, vec![vec![1, 0, 0], vec![5, 0, 1]]);
    assert_eq!(b_matrix, vec![vec![2, 0, 0], vec![1, 0, 0]]);
    assert_eq!(c_matrix, vec![vec![0, 0, 1], vec![0, 1, 0]]);
}

#[test]
fn test_same_variable_added_twice() {
    let circuit = Circuit::new(Operation::Add, variable("x"), variable("x"), None);
    let (a_matrix, b_matrix, c_matrix) = matrices(circuit);

    assert_eq!(a_matrix, vec![vec![0, 2, 0]]);
    assert_eq!(b_matrix, vec![vec![1, 0, 0]]);
    assert_eq!(c_matrix, vec![vec![0, 0, 1]]);
}

#[test]
fn test_number_times_variable() {
    let circuit = Circuit::new(Operation::Multiply, variable("x"), number(7), None);
    let (a_matrix, b_matrix, c_matrix) = matrices(circuit);

    assert_eq!(a_matrix, vec![vec![7, 0, 0]]);
    assert_eq!(b_matrix, vec![vec![0, 1, 0]]);
    assert_eq!(c_matrix, vec![vec![0, 0, 1]]);
}

#[test]
fn test_variable_plus_nested() {
    let inner = Circuit::new(Operation::Multiply, variable("x"), variable("y"), None);
    let circuit = Circuit::new(Operation::Add, variable("z"), nested(inner), None);
    let (a_matrix, b_matrix, c_matrix) = matrices(circuit);

    // variables: 1, z, x, y, out, (inner)
    assert_eq!(a_matrix, vec![vec![0, 0, 1, 0, 0, 0], vec![0, 1, 0, 0, 0, 1]]);
    assert_eq!(b_matrix, vec![vec![0, 0, 0, 1, 0, 0], vec![1, 0, 0, 0, 0, 0]]);
    assert_eq!(c_matrix, vec![vec![0, 0, 0, 0, 0, 1], vec![0, 0, 0, 0, 1, 0]]);
}

#[test]
fn test_double_nested_product() {
    let left = Circuit::new(Operation::Add, variable("x"), number(1), None);
    let right = Circuit::new(Operation::Add, variable("y"), number(2), None);
    let circuit = Circuit::new(Operation::Multiply, nested(left), nested(right), None);
    let (a_matrix, b_matrix, c_matrix) = matrices(circuit);

    // variables: 1, x, y, out, (left), (right)
    assert_eq!(a_matrix, vec![vec![1, 1, 0, 0, 0, 0], vec![2, 0, 1, 0, 0, 0], vec![0, 0, 0, 0, 1, 0]]);
    assert_eq!(b_matrix, vec![vec![1, 0, 0, 0, 0, 0], vec![1, 0, 0, 0, 0, 0], vec![0, 0, 0, 0, 0, 1]]);
    assert_eq!(c_matrix, vec![vec![0, 0, 0, 0, 1, 0], vec![0, 0, 0, 0, 0, 1], vec![0, 0, 0, 1, 0, 0]]);
}

#[test]
fn test_hash_and_index_names_variables() {
    let inner = Circuit::new(Operation::Multiply, variable("x"), variable("x"), None);
    let mut circuit = Circuit::new(Operation::Add, nested(inner), variable("y"), None);
    let map = circuit.hash_and_index_circuit();
    let inner_hash = match &circuit.operands[0] {
        Operand::NestedCircuit(c) => c.get_hash(),
        _ => unreachable!(),
    };
    assert_ne!(inner_hash, 0);
    assert_ne!(circuit.get_hash(), 0);
    assert_eq!(
        names(&map),
        vec!["1".to_string(), "x".to_string(), "y".to_string(), "out".to_string(), inner_hash.to_string()]
    );
    assert_eq!(map.get_index(&inner_hash.to_string()), Some(4));
}

#[test]
fn test_hashing_is_deterministic_and_ignores_stored_hashes() {
    let mut first = Circuit::new(Operation::Add, variable("x"), number(3), None);
    let mut second = Circuit::new(Operation::Add, variable("x"), number(3), Some(99));
    first.hash_and_index_circuit();
    second.hash_and_index_circuit();
    assert_eq!(first.get_hash(), second.get_hash());
    let mut third = Circuit::new(Operation::Multiply, variable("x"), number(3), None);
    third.hash_and_index_circuit();
    assert_ne!(first.get_hash(), third.get_hash());
}

#[test]
fn test_compute_witness() {
    let inner = Circuit::new(Operation::Multiply, variable("x"), variable("x"), None);
    let mut circuit = Circuit::new(Operation::Add, nested(inner), number(5), None);
    let variable_map = circuit.hash_and_index_circuit();
    let r1cs = R1CS::new(variable_map);
    let mut inputs = Witness::new();
    inputs.insert("1".to_string(), 1);
    inputs.insert("x".to_string(), 3);
    let witness = r1cs.compute_witness(&circuit, inputs);
    let inner_hash = match &circuit.operands[0] {
        Operand::NestedCircuit(c) => c.get_hash(),
        _ => unreachable!(),
    };
    assert_eq!(witness.get(&"out".to_string()), Some(14));
    assert_eq!(witness.get(&inner_hash.to_string()), Some(9));
    assert_eq!(witness.get(&"x".to_string()), Some(3));
    assert_eq!(witness.get(&"1".to_string()), Some(1));
    assert_eq!(witness.entries().len(), 4);
}

#[test]
fn test_witness_satisfies_constraints() {
    let left = Circuit::new(Operation::Add, variable("x"), number(1), None);
    let right = Circuit::new(Operation::Multiply, variable("y"), variable("x"), None);
    let mut circuit = Circuit::new(Operation::Multiply, nested(left), nested(right), None);
    let variable_map = circuit.hash_and_index_circuit();
    let mut r1cs = R1CS::new(variable_map);
    r1cs.generate_r1cs_constraints(&circuit, true);
    let mut inputs = Witness::new();
    inputs.insert("1".to_string(), 1);
    inputs.insert("x".to_string(), 4);
    inputs.insert("y".to_string(), -2);
    let witness = r1cs.compute_witness(&circuit, inputs);
    let map = r1cs.get_variable_map();
    let w: Vec<i64> = (0..map.len()).map(|i| witness.get(map.get_item(i).unwrap()).unwrap()).collect();
    let (a, b, c) = r1cs.get_constraint_matrices();
    let dot = |row: &Vec<i64>| row.iter().zip(w.iter()).map(|(x, y)| x * y).sum::<i64>();
    for k in 0..a.len() {
        assert_eq!(dot(&a[k]) * dot(&b[k]), dot(&c[k]));
    }
    assert_eq!(witness.get(&"out".to_string()), Some(-40));
}

#[test]
fn test_witness_insert_replaces() {
    let mut w = Witness::new();
    w.insert("a".to_string(), 1);
    w.insert("b".to_string(), 2);
    w.insert("a".to_string(), 5);
    assert_eq!(w.get(&"a".to_string()), Some(5));
    assert_eq!(w.get(&"b".to_string()), Some(2));
    assert_eq!(w.get(&"c".to_string()), None);
    assert_eq!(w.entries().len(), 2);
}

#[test]
fn test_hash_matches_a_default_hasher_over_the_node() {
    let inner = Circuit::new(Operation::Add, variable("x"), number(3), None);
    let mut circuit = Circuit::new(Operation::Multiply, nested(inner), variable("y"), None);
    circuit.hash_and_index_circuit();

    let mut inner_hasher = DefaultHasher::new();
    Operation::Add.hash(&mut inner_hasher);
    "x".to_string().hash(&mut inner_hasher);
    3i64.hash(&mut inner_hasher);
    let inner_hash = inner_hasher.finish();

    let mut outer_hasher = DefaultHasher::new();
    Operation::Multiply.hash(&mut outer_hasher);
    outer_hasher.write_u64(inner_hash);
    "y".to_string().hash(&mut outer_hasher);

    assert_eq!(circuit.get_hash(), outer_hasher.finish());
    match &circuit.operands[0] {
        Operand::NestedCircuit(c) => assert_eq!(c.get_hash(), inner_hash),
        _ => unreachable!(),
    }
}

#[test]
fn test_clone_indexes_like_the_original_circuit() {
    let inner = Circuit::new(Operation::Add, variable("x"), number(3), Some(7));
    let circuit = Circuit::new(Operation::Multiply, nested(inner), variable("y"), Some(5));
    let mut first = circuit.clone();
    let mut second = circuit;
    second.set_hash(12345);
    let first_map = first.hash_and_index_circuit();
    let second_map = second.hash_and_index_circuit();
    assert_eq!(names(&first_map), names(&second_map));
    assert_eq!(first.get_hash(), second.get_hash());
    match (&first.operands[0], &second.operands[0]) {
        (Operand::NestedCircuit(a), Operand::NestedCircuit(b)) => assert_eq!(a.get_hash(), b.get_hash()),
        _ => unreachable!(),
    }
}
