# symexrs

A symbolic execution engine for Rust whose core is verified with Verus.

User code runs on symbolic drop-in values that carry an expression beside
their concrete value. Path exploration is replay-based: the engine re-runs
the code with forced branch decisions; undecided branches follow the
concrete (concolic) outcome and record their alternatives as new work.

## Layout

- `src/` — the verified library:
  - `expressions`, `simplify`, `simplify_laws`, `eval`, `smt`, `validate`,
    `lower`: the expression language, its simplifier (and what it keeps)
    and evaluator, SMT-LIB rendering, validation limits, and lowering to
    typed solver terms;
  - `runtime`, `trace_text`, `engine`, `scheduler`, `decision`: the decision
    stream of a run, the text of run and manager state, the explorer and its
    schedulers;
  - `manager`, `solver`, `name_map`, `value_map`: variables, path
    constraints, answer caches, solver sessions and models;
  - `coverage`, `coverage_source_map`, `coverage_profile`, `profile_format`:
    coverage bookkeeping and the LLVM profile formats;
  - `symex_async`: the executor, channels and timers of the async runtime;
  - `text`, `fmt`, `floatbits`, `intops`: helpers on characters, decimal
    text, IEEE-754 bit patterns and integer division.
- `tests/` — tests of the library.
- `app/` — the program around the library: the Z3 binding, the per-thread
  runtime, running user code under exploration, the binary's coverage
  counters, the futures of the async runtime, and the symbolic types.
