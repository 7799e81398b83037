# private_accumulator_proof_delegation

Cryptographic accumulators whose witnesses can be updated by an untrusted
party without revealing them, written in Verus and verified against their
contracts.

- `src/rsa_accumulator/`: the accumulator over an RSA group (its set of
  accumulated primes is a `Vec` kept without repetitions, `set_distinct`,
  in place of a hash set: the primes are big numbers, whose hashing
  vstd's `HashSet` specification does not cover) (with or without a
  known group order), its membership and non-membership witnesses, the
  blinding, delegated update and unblinding of both, and `laws.rs`, the
  proofs of what the operations promise together (a witness verifies, an
  update keeps it verifying, deleting undoes adding, ...).
- `src/bilinear_accumulator.rs`: the KZG accumulator over BLS12-381, with the
  same operations; `src/poly.rs` holds its polynomials and their algebra.
- `src/nizk.rs`: the proofs of discrete-log equality (RSA) and of equal
  polynomial exponents (pairing-based) that back delegated updates.
- `src/groups/`: the RSA group, modular units and signed exponents, the
  BLS12-381 scalars and points, and the reference-string group.
- `src/bignum.rs`, `src/arith.rs`, `src/math.rs`: big natural and signed
  numbers and the modular arithmetic the proofs rest on.
- `src/traits.rs`: the `Group`, `Accumulator` and
  `PrivatelyDelegatableAccumulator` interfaces.
- `src/groups/class_group.rs`: only the check of class-group parameters;
  the class-group construction (its group arithmetic and the accumulator
  over it) is not included, since the crates it needs (`class_group`,
  `curv-kzen`, which link GMP and PARI) are not available to this build.
- `app/`: a small program that runs the RSA accumulator, and serde forms of
  the proof types.

Calls into `num-bigint`, `glass_pumpkin`, `rand`, `sha2` and the arkworks
crates go through small trusted functions whose doc comments say what their
contracts assume.
