# ripopt

The core of a primal-dual interior-point solver for nonlinear programs, verified
with Verus:

```text
min  f(x)
s.t. g_l <= g(x) <= g_u
     x_l <=  x   <= x_u
```

Numbers are binary64 bit patterns. The arithmetic on them is a parameter (`Fpu`),
so every contract holds bit for bit for whatever arithmetic is plugged in.

Besides the contracts, public proof functions state what holds across functions:
what a cache, a retry or a reduction keeps; that tapes have the derivatives they
are read for; and, where no operation rounds, that corrected, scaled, condensed
and recovered quantities solve the systems they stand for.

## Layout

- `src/float.rs`, `text.rs`, `sorted.rs`: numbers as bits, decimal texts, sorted lists.
- `src/problem.rs`: what a nonlinear program is; `options.rs`, `result.rs`.
- `src/linear_solver/`: packed and triplet matrices, the solver interface with its
  call log, the plan of the sparse direct solver, the hybrid, low-rank corrections,
  eigenvalues.
- `src/kkt/`: the condensed KKT system: barrier terms, assembly, perturbation
  handling, directions with iterative refinement.
- `src/kkt_aug/`: the augmented system with slack unknowns.
- `src/nl/`: `.nl` files, expression tapes with first and second derivatives,
  sparsity of Hessians, `.sol` files.
- `src/preprocessing/`, `src/reduction_frame/`, `src/linearity.rs`,
  `src/l1_penalty_barrier_nlp.rs`, `src/retry.rs`: reductions and reformulations.
- `app/`: floating point, the `feral` factorization, `faer` conversion, files and
  the environment.
