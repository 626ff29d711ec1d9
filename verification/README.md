# zk_circuits

Arithmetic circuits (sums and products of constants and named inputs),
their rank-1 constraint systems, witnesses, and polynomials over the
secp256k1 scalar field, written in Verus with their contracts proved.

Layout:

- `src/circuits/`: circuits and their hashing and indexing (`circuit.rs`,
  `hashing.rs`), the indexed vector of names (`indexed_map.rs`), and an
  indexing into separate input and output lists (`r1cs.rs`).
- `src/r1cs/`: constraint generation and evaluation (`r1cs.rs`), the
  witness map (`witness.rs`), and the proofs that the constraints hold for
  consistent assignments (`satisfaction.rs`), that an indexed circuit can
  be turned into constraints (`pipeline.rs`), and that the computed
  witness satisfies them (`completeness.rs`).
- `src/utils/`: field elements (`field.rs`) and polynomials with Lagrange
  interpolation (`polynomial/`), with the algebra of evaluation.
- `src/zk_proof/`: integer polynomials; `src/zk_proofs/`: the QAP record.
- `app/`: the program around the library: JSON loading, serde and error
  types, key generation, and the `f64` systems and QAPs.
- `tests/`: tests run against the compiled library.
