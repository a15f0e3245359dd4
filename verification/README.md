# crap4rust

Computes CRAP scores for Rust functions by combining cognitive complexity
with test coverage: CRAP(m) = comp(m)² × (1 − cov(m))³ + comp(m).

The crate has two parts.

- `src/` is the verified library, written in Verus. It holds the rules of
  the analysis, each with a contract proved by Verus: which packages of a
  workspace are analysed, which source roots and files belong to a package,
  which code is test-only, how functions are named, the cognitive complexity
  of a function body (over a model of Rust syntax in `src/syntax.rs`, which
  `syn` fills in through `src/syntax_conversion.rs`), how
  duplicate coverage records are merged, how coverage is matched to
  functions, the `cargo llvm-cov` command line, and the project verdict and
  exit status.
- `app/` is the command-line program around it: argument parsing, running
  `cargo metadata` and `cargo llvm-cov`, walking and reading source files,
  reading the coverage export with `serde_json`, the
  floating-point CRAP scores and thresholds, and printing the report.

`tests/` exercises the library on concrete values.
