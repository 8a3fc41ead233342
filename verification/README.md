# hypertron

A shielded pool for a Soroban token, verified with Verus. Notes are Poseidon
commitments in a depth-20 Merkle tree; spending a note reveals its nullifier,
which a registry accepts once; every deposit, exit and private transfer is
gated by a Groth16 proof over BLS12-381 checked on chain; an optional
allowlist or denylist is consulted at exit only. Exits emit a privacy
attestation that claims only what the pool backs.

## Layout

- `src/` — the verified library.
  - `field`, `poseidon`, `digest`, `address`, `curve`: field elements as
    32-byte big-endian strings, and the calls into arkworks, soroban-sdk,
    soroban-poseidon, sha2 and stellar-xdr behind trusted wrappers.
  - `merkle`, `note`: the tree every root is taken over, authentication
    paths, note commitments and nullifiers.
  - `commitment`, `nullifier`, `proof_verifier`, `compliance`, `token`: the
    component contracts.
  - `transfer`: the pool — deposit, unshield, private transfers — with the
    laws it keeps (spend-once, payout binding, backed attestations, solvency,
    one-time configuration).
  - `crypto`: viewing keys and note encryption (X25519 + ChaCha20-Poly1305).
  - `parse`, `witness`, `groth16`: the prover's text parsing, witness
    assignment for each circuit, and the hex transport forms.
- `tests/` — scenarios run against the compiled library, including real
  Groth16 proofs checked by the verifier contract.
- `app/` — the prover CLI and the JavaScript-facing API: the R1CS circuits
  (arkworks `ConstraintSynthesizer` impls), proving, serde JSON and file I/O.

## Modelling choices

- The pool is generic over its proof backend and exit policy, reached
  through the `VerifierApi` and `ComplianceApi` traits; its laws hold for any
  implementation. It holds its components directly instead of calling them
  at configured addresses: the addresses in `Config` are recorded, and a
  `compliance` entry of `None` turns the exit policy off.
- `TokenLedger` stands for the pooled SEP-41 token.
- Authorization is a `caller` argument that each contract's `requires` ties to
  its admin or authority (a depositor's own signature is not modelled); published events are kept in the contract's state.
- The Soroban host traps when a call exhausts its CPU budget: a proof check
  takes at most 32 public inputs, and one pairing check at most 8 pairs.
