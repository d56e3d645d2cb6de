# binius

Parts of a proof system over 64-bit words, written in Rust and verified with Verus.

- `src/constraint_system.rs`, `src/constraint_system/`: constraint systems, their validation and
  their byte format.
- `src/key_collection/`: the prover's index over a constraint system. A counting-sort builder and a
  one-pass builder, both proved to build the one key collection of a system.
- `src/ir.rs`, `src/circuit/`: gate graphs, the construction of circuits, and the computation of an
  assignment of their wires.
- `src/keccak/`: Keccak-256 as a circuit, sound and complete for messages of variable length.
- `src/compile_cache/`: the compilation cache: its digest, its checksum, its bytes, and when it is
  refused.
- `src/serialization/`: the byte format of values, on the `bytes` crate.
- `app/`: the library's errors as standard errors.

Contracts are stated over models: a `DeepView` of each type, and an assignment `Seq<u64>` of words
to wires for circuits. Public proof functions whose names begin with `law_` relate several
functions. What is believed of the `bytes` and `cranelift_entity` crates stands in
`src/serialization/buffers.rs`, `src/compile_cache/wire_set.rs` and
`src/compile_cache/wire_mapping.rs`.
