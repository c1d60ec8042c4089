# tpt_formal_lab

Verification-first building blocks for safety-critical Rust, written in Verus:
each public function states its result in `requires`/`ensures`, and Verus
proves the code against it.

- `exact_math` — arbitrary-precision integers, rationals kept in lowest terms,
  and rational intervals whose operations provably enclose every result.
- `verified_ode` — Picard-iteration steps for `y' = f(t, y)` over rational
  intervals.
- `deterministic_sim` — integer fixed-point numbers and a simulation whose
  systems run in name order over entities kept in id order.
- `det_proptest` — a fixed-seed generator, strategies, and a property runner
  that shrinks a failure to the first failing value in index order.
- `redundancy` — majority, median and bitwise votes over `N` channels, with
  the laws that they outlast fewer than half faulty channels.
- `verified_algorithms` — sortedness and permutation tests, an insertion sort
  and a binary search.
- `smt` — SMT-LIB2 sorts, expressions and problems, and reading of models.
- `proof_ast` — a kind-typed AST of terms and propositions.
- `macro_support` — the text that the `#[traces]` and contract attribute
  macros generate.

`app/` holds what the library cannot: the token handling of the attribute
macros (built on `syn` and `quote`) and the conversions to and from `f64`.
`tests/` exercises the library with concrete values.
