# snarkfold

Folding-based aggregation of Groth16 proofs over BN254, verified with Verus.

- `src/field.rs`, `src/curve.rs`: scalars and the groups G1, G2, GT, each value held as its
  canonical compressed encoding; every operation is an arkworks call behind a small trusted
  wrapper whose contract names its result.
- `src/encoding.rs`: the byte layout of the canonical serialization, with readers and writers
  proved against it.
- `src/hash.rs`: Keccak-256 hashing into the scalar field.
- `src/groth16.rs`: instances, proofs, cross terms and verifying keys, with their models,
  serialization and round-trip laws.
- `src/folding.rs`: cross terms, the Fiat–Shamir challenge, folding of instances and proofs, and
  the check of the augmented relaxed relation.
- `src/ivc.rs`: incremental and batch aggregation, the verifier's replay of the transcript, and
  the laws that tie them together.
- `app/lib.rs`: conversions from arkworks values, hashing of any serializable value, and the
  error type with `Display`.
