use std::collections::hash_map::DefaultHasher;
use std::hash::{Hash, Hasher};
use zk_circuits::circuits::r1cs::R1CS;
use zk_circuits::circuits::{Circuit, Operand, Operation};

fn variable(name: &str) -> Operand {
    Operand::Variable(name.to_string())
}

fn strings(names: &[&str]) -> Vec<String> {
    names.iter().map(|s| s.to_string()).collect()
}

#[test]
fn split_new_starts_with_one() {
    let r1cs = R1CS::new();
    assert_eq!(r1cs.static_variables, strings(&["1"]));
    assert!(r1cs.linearization_variables.is_empty());
    assert!(r1cs.combined_var_vector.is_empty());
    assert_eq!(r1cs.static_var_indices.len(), 0);
}

#[test]
fn split_traverse_registers_inputs_and_out() {
    let circuit = Circuit::new(Operation::Add, variable("x"), variable("y"), None);
    let mut r1cs = R1CS::new();
    let hash = r1cs.traverse_and_index_circuit(&circuit, 0);

    assert_eq!(r1cs.static_variables, strings(&["1", "x", "y", "out"]));
    assert_eq!(r1cs.static_var_indices.get_index(&"x".to_string()), Some(0));
    assert_eq!(r1cs.static_var_indices.get_index(&"y".to_string()), Some(1));
    assert_eq!(r1cs.static_var_indices.get_index(&"out".to_string()), Some(2));
    assert!(r1cs.linearization_variables.is_empty());

    let mut hasher = DefaultHasher::new();
    Operation::Add.hash(&mut hasher);
    hasher.write_usize(0);
    hasher.write_usize(1);
    assert_eq!(hash, hasher.finish());
}

#[test]
fn split_traverse_repeated_variable_keeps_one_index() {
    let circuit = Circuit::new(Operation::Multiply, variable("x"), variable("x"), None);
    let mut r1cs = R1CS::new();
    r1cs.traverse_and_index_circuit(&circuit, 0);
    assert_eq!(r1cs.static_variables, strings(&["1", "x", "out"]));
    assert_eq!(r1cs.static_var_indices.get_index(&"x".to_string()), Some(0));
}

#[test]
fn split_traverse_registers_nested_outputs_by_hash() {
    let inner = Circuit::new(Operation::Add, variable("x"), Operand::Number(3), None);
    let circuit = Circuit::new(
        Operation::Multiply,
        Operand::NestedCircuit(Box::new(inner)),
        variable("y"),
        None,
    );
    let mut r1cs = R1CS::new();
    let hash = r1cs.traverse_and_index_circuit(&circuit, 0);

    let mut inner_hasher = DefaultHasher::new();
    Operation::Add.hash(&mut inner_hasher);
    inner_hasher.write_usize(0);
    3i32.hash(&mut inner_hasher);
    let inner_hash = inner_hasher.finish();

    let mut outer_hasher = DefaultHasher::new();
    Operation::Multiply.hash(&mut outer_hasher);
    outer_hasher.write_u64(inner_hash);
    outer_hasher.write_usize(1);

    assert_eq!(hash, outer_hasher.finish());
    assert_eq!(r1cs.static_variables, strings(&["1", "x", "y", "out"]));
    assert_eq!(r1cs.linearization_variables, vec![inner_hash.to_string()]);
    assert_eq!(r1cs.linearization_var_indices.get_index(&inner_hash.to_string()), Some(0));
}

#[test]
fn split_traverse_below_the_root_registers_its_own_output() {
    let circuit = Circuit::new(Operation::Multiply, variable("a"), Operand::Number(-2), None);
    let mut r1cs = R1CS::new();
    let hash = r1cs.traverse_and_index_circuit(&circuit, 1);
    assert_eq!(r1cs.static_variables, strings(&["1", "a"]));
    assert_eq!(r1cs.linearization_variables, vec![hash.to_string()]);
}

#[test]
fn split_combine_lists_inputs_then_outputs() {
    let inner = Circuit::new(Operation::Add, variable("x"), Operand::Number(3), None);
    let circuit = Circuit::new(
        Operation::Multiply,
        Operand::NestedCircuit(Box::new(inner)),
        variable("x"),
        None,
    );
    let mut r1cs = R1CS::new();
    r1cs.traverse_and_index_circuit(&circuit, 0);
    r1cs.combine_variable_vectors();

    let inner_name = r1cs.linearization_variables[0].clone();
    let mut expected = strings(&["1", "x", "out"]);
    expected.push(inner_name.clone());
    assert_eq!(r1cs.combined_var_vector, expected);
    assert_eq!(r1cs.combined_indices.get_index(&"1".to_string()), Some(0));
    assert_eq!(r1cs.combined_indices.get_index(&"out".to_string()), Some(2));
    assert_eq!(r1cs.combined_indices.get_index(&inner_name), Some(3));
    assert_eq!(r1cs.combined_indices.len(), 4);
}
