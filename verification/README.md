# warp_folding

WARP accumulation (Bünz, Chiesa, Fenzi, Wang, "Linear-Time Accumulation
Schemes") over the Mersenne-31 cubic extension `M31Ext3 = F_p[x]/(x³ − 5)`,
written in Verus. The library's functions state their behaviour in
`requires`/`ensures` over mathematical models and Verus proves them. The
outside crates (`sha3`, `rand`, `rand_chacha`) are reached through a few
trusted wrappers whose contracts are believed, not proved: the two hash
functions and the seeded generators are named by uninterpreted spec
functions, and every statement about digests and sampled values goes
through those names.

## Layout

- `src/field.rs`, `src/binary.rs`: the field and powers of two.
- `src/pesat.rs`, `src/twin.rs`: PESAT instances, the twin-constrained
  relation, `eq` tables and multilinear extensions.
- `src/constr_5_10.rs` … `src/constr_9_4.rs`: the reduction and the three
  steps of a fold (pseudo-batching, codeword batching, multilinear
  batching) and their composition.
- `src/transcript.rs`, `src/fs.rs`: the Keccak/SHA-3 transcript and the
  non-interactive fold with parallel repetition.
- `src/merkle.rs`, `src/code.rs`, `src/orion_code.rs`: Keccak-256 Merkle
  commitments and linear codes (identity, Spielman-style, Orion).
- `src/decider.rs`, `src/prover.rs`, `src/wire.rs`,
  `src/chunk_pesat_prover.rs`: the decider, the running prover state, the
  byte formats, and chunk proofs.
- `src/prime.rs`, `src/poly.rs`, `src/round_poly.rs`: the primality of
  `p = 2^31 − 1` and inverses in `F_p`, univariate polynomials by their
  coefficients with Lagrange interpolation, and the degree of the
  pseudo-batching round polynomial.
- `src/render.rs`: the decimal text of field elements used in error
  messages.
- `app/`: error types with their messages, floating-point views of the
  Orion parameters, and the seeded sampling of the Spielman-style code.
  The multilinear-batching sumcheck is the CPU one (`constr_8_2::prove`);
  a GPU-offloaded variant is not part of this crate.

## Main results

- The reduction's accumulator passes the decider on satisfied instances
  (`constr_5_10::lemma_reduce_complete`). Its bundled constraint is the
  eq-weighted sum `Σ_j eq(bin(j), τ)·p_j(x, w)` of the PESAT constraints,
  of degree at most `d + log M` (`constr_5_10::lemma_bundled_eval`,
  `constr_5_10::lemma_bundled_degree`).
- Codeword batching and multilinear batching are complete
  (`constr_7_2::lemma_codeword_batching_complete`,
  `constr_8_2::lemma_batching_complete`); the sumcheck's folding computes
  the multilinear extension (`constr_8_2::lemma_fold_rounds_mle`).
- An honest fold passes every check: the round polynomial of
  pseudo-batching has degree at most `D`, so its values at `0, …, D`
  interpolate it (`poly::lemma_interpolation`,
  `round_poly::lemma_h_interpolates`,
  `round_poly::lemma_pseudo_batching_complete`), and the fold is complete
  under explicit and under transcript challenges
  (`constr_9_4::lemma_fold_complete`, `fs::lemma_fs_fold_complete`,
  `fs::lemma_fs_honest_accepted`). A submission of `fold_block` is
  accepted by the verifier, which outputs the new accumulator
  (`prover::lemma_fold_step_accepted`).
- Folding keeps accumulators decidable (`decider::lemma_fold_keeps_decider`,
  `prover::lemma_fold_step_keeps_decider`).
- The codes are linear and systematic; the byte formats round-trip and
  decode uniquely; Merkle openings verify.
- The production Orion code is fixed by its seed
  (`orion_code::lemma_orion_linear_code_determined`), so genesis and the
  block witnesses are fixed by their seeds
  (`prover::lemma_genesis_determined`,
  `prover::lemma_block_instance_determined`); the non-interactive fold is
  a function of its inputs' contents (`fs::lemma_fs_fold_output_determined`),
  so folding the same block into equal accumulators gives equal roots
  (`prover::lemma_fold_determined`), and a restored state holds the same
  accumulator and continues its chain (`prover::lemma_restored_state`).
- Padding a PESAT instance keeps it satisfied
  (`chunk_pesat_prover::lemma_padding_keeps_satisfied`). A chunk proof
  and its check use the production code and the `τ` derived from the
  block seed (`chunk_pesat_prover::chunk_setup_ok`), and an honest proof
  of a satisfied instance, over an index that the all-zeros anchor also
  satisfies, is accepted under its block seed
  (`chunk_pesat_prover::lemma_chunk_complete`).
