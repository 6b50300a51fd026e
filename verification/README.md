# trust_core

The core of Trust, a checker for Rust functions written inside Trust macros
(`trust::total!`, `trust::spec!`, `trust::proof!`, `trust::loop_spec!`,
`#[trust::module]`, `#[derive(TrustModel)]`). The library is written in Verus:
each function carries a `requires`/`ensures` contract that Verus proves.

## Layout

- `src/metadata.rs`: the one-line metadata record the macros write, its
  reader and writer.
- `src/frontend.rs`: what the macros check on their input (signatures,
  `given`/`gives` contract blocks, module and model refusals) and the records
  they emit.
- `src/text.rs`, `src/tokens.rs`, `src/segments.rs`: text and token helpers,
  and the executable segments of a function body.
- `src/solver.rs`: integer comparison predicates, their parser, and the
  prover that asks Z3 whether assumptions imply a conclusion over the
  parameters' integer ranges. A `Proved` answer means the implication holds
  for every assignment within the ranges.
- `src/arith.rs`, `src/obligations.rs`, `src/index.rs`, `src/calls.rs`:
  the overflow, division, slice-index and callee-precondition obligations a
  body shows, from its tokens or from the compiler's reported facts.
- `src/discharge.rs`: discharging obligations by the built-in rules or Z3.
- `src/loops.rs`, `src/postcond.rs`: loop specifications and postconditions.
- `src/types.rs`: the types a checked signature may use.
- `src/pipeline.rs`: checking one item and a whole crate's records.
- `src/laws.rs`: properties stated over several functions.
- `app/`: the procedural-macro entry points and other code outside Verus.

## Building and checking

The crate depends on `z3`. The Verus proofs cover `src/`; `tests/` runs the
library on concrete inputs.
