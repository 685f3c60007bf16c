# erasure_bench

Benchmarks of Reed-Solomon erasure coding (the `reed-solomon-erasure` crate): encoding,
encoding with a fresh codec per pass, encoding through byte slices, verification and
reconstruction, over a grid of shard configurations, each rated by how many ways it can
lose shards and still be recovered.

- `src/` is the library, verified with Verus:
  - `combinatorics`: wrapping `u128` factorials, n choose k, and their laws.
  - `shards`: random shard construction and the models of shards used in contracts.
  - `codec`: the trusted boundary to `reed-solomon-erasure`; every contract there is
    taken from the crate's source and documentation.
  - `bench`: the benchmark runs, with what each computes and measures.
  - `plan`: the grid of configurations the program runs.
- `app/main.rs` runs the benchmarks and prints the timings, which need floating point.
- `tests/` exercises the library against the real crates.
