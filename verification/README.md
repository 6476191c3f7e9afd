# kzn_recsys

A recommender-system toolkit: the closed-form linear model with side features (FEASE), what serves
and evaluates it, and what two-tower and sequence models need around their networks.

## Layout

- `src/` is the library. Its functions are verified: a contract says what each returns or changes,
  and the laws that relate functions stand beside them as public proof functions. What is trusted
  without proof are the wrappers of outside calls in `src/ids.rs` and `src/sampling.rs`.
- `tests/` runs the library on floating-point values.
- `app/` is what surrounds it: tables in files, floating-point functions, matrix inversion, neural
  networks, threads and the Python module.

## Numbers

The library does not fix a number type. Code that adds, multiplies or compares takes any type with
the operators it uses; its contracts speak of those operators and name the products and sums that
must be defined. Constants such as zero and one are arguments. What only floating point can compute
(logarithms, roots, powers, an inverse matrix) is an argument too.

Lists are ranked by their values, highest first. A value that is not a number (NaN) ranks last.

## Outside crates

- `ahash`: hash maps and sets, behind the wrappers in `src/ids.rs`.
- `rand`: seeded shuffles and choices, behind the wrappers in `src/sampling.rs`.
- `nalgebra`, `sprs`, `rayon`, `bincode`, `serde`, `pyo3`, `log`: in `app/`. So are `polars`,
  `burn`, `usearch` and `turbovec`, each compiled on request.
