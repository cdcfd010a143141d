# ALGOL26 compiler core, verified

The checks and transformations at the heart of the ALGOL26 compiler, with
their behaviour stated in contracts and proved by Verus.

## Layout

- `src/common` — types and their model, text helpers (decimal numbers,
  Unicode trimming, character classes, text in the shape of derived
  `Debug`), association lists, reachability along a successor relation.
- `src/frontend` — the lexer (source text to tokens with positions, with
  the block structure of the indentation as `Indent`/`Dedent` tokens), the
  syntax tree, type syntax, the module loader's bookkeeping (import
  resolution, caching, cycle detection), and the source-shaped rendering of
  a parsed program.
- `src/ir/semantic_ir` — the typed IR: values, instructions, terminators,
  blocks, functions, programs, and their rendering as text (linear,
  control-flow and signature views).
- `src/ir/cfg_verifier.rs`, `src/ir/graph.rs` — the structural check of each
  function's graph (ids, terminators, successors, reachability, switch
  targets, fork shapes).
- `src/ir/semantic_verifier` — the type-level check of instructions and
  terminators along the paths of each function, and the invariant that
  executable IR holds no type variable.
- `src/ir/cfg` — the ownership analysis: its state, the transfer through a
  block, the worklist engine that runs it to a fixpoint, and the lowering of
  the IR to its graphs.
- `src/ir/optimizer` — unreachable-block removal, constant propagation,
  dead-code elimination, branch simplification, cycle detection.
- `src/ir/instantiation_plan.rs`, `src/ir/mangling_laws.rs`,
  `src/ir/call_ids.rs`, `src/ir/monomorphize.rs` — the plan of generic
  specializations, its closure over the calls in declaration bodies, the
  injective mangling of their names, the check of trait bounds and the
  substitution of type parameters.
- `src/ir/lowered.rs` — the lowered IR, its builder and its listing.
- `src/ir/verified_ir.rs` — a program that has passed verification.
- `app/` — what is not verified: reading modules from disk, the value of a
  floating-point literal, constant folding and the interpreter (both compute
  in floating point), the optimizer's pipeline.
- `tests/` — tests of the library.
