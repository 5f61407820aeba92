# gumbel_estimation

Count-distinct estimators built on the Gumbel distribution (GHLL, GHLL+),
with the integer core verified by Verus.

- `src/` — the verified library:
  - `registers.rs`: 5-bit registers packed six to a 32-bit word; writing,
    raising to a maximum, reading back; the clamp-and-bias code of a level.
  - `common.rs`: precision rules, the split of a hash into register index and
    remaining bits, the bit pattern of a float in `[1, 2)`.
  - `ghll_plus.rs`: the GHLL+ estimator's registers and free-register flags.
  - `flags.rs`: the free-register flags, kept in a `bitvec` bit-vector.
  - `gen_data.rs`: the distinct values and the repeated part of a generated
    dataset.
  - `gumbel.rs`, `comparison.rs`: transform markers, names and ranges used by
    the comparison suite.
- `app/` — the floating-point side (Gumbel transforms, estimates, the
  real-valued GHLL), the comparison tool, the dataset generator.
- `tests/` — tests of the library.
