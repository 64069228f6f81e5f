# Discharge of deferred monster evaluations, verified

A Verus library that certifies many deferred multilinear evaluations, one for each leaf proof of a
fixed constraint system, with one batched argument over GF(2^128). Beside it stand circuit gadgets
for the Vision permutations over the same field, and the key, address and proof-file logic of BIP32
Bitcoin signatures of knowledge.

## Layout

- `src/field`, `src/multilinear`: the field, and multilinear and univariate polynomials over it.
- `src/cs.rs`, `src/table.rs`, `src/claim.rs`, `src/monster.rs`: constraint systems, their term
  tables, claims, and the evaluation that claims are about.
- `src/histogram.rs`, `src/reduction.rs`, `src/poles.rs`, `src/fracadd.rs`, `src/cubic.rs`,
  `src/packed.rs`, `src/merged.rs`, `src/discharge.rs`, `src/vk.rs`: the parts of the argument.
- `src/step1.rs`, `src/step2`, `src/mode.rs`: the native and the committed mode, as state machines
  on both sides of the transcript.
- `src/native.rs`, `src/step2/run.rs`, `src/step2/session.rs`: whole runs of the verifiers and of
  the prover, and when they succeed.
- `src/soundness.rs`, `src/step2/laws.rs`: what accepting a proof pins down, and why honest proofs
  are accepted.
- `src/synth.rs`, `src/recorder.rs`: synthetic systems and claims, and captured ones.
- `src/vision`: the gadgets, the circuits that they build, and the permutations.
- `src/bip32`, `src/digest.rs`, `src/text.rs`, `src/messages.rs`: the wallet's logic, hashes, texts.
- `tests`: runs over an in-memory transcript, known values and error cases.
- `app`: the `bip32-sig` program, and drivers that run the two modes over a transcript.

## What is proved and what is trusted

Every function in `src` is verified against its contract, except the small wrappers around calls into
`sha2`, `ripemd`, `bitcoin` and `bip39`. Their contracts are trusted; each stands beside its call with
a comment that says what is claimed. Verified functions do not panic, up to one event that no input is
known to reach: in key derivation, a child key outside the curve's order. What only a proof system can supply is an argument of the functions that need it: the
canonical encoding of a constraint system, shift evaluations, code parameters, challenges, Merkle
roots, and the outcomes of sumchecks and openings.
