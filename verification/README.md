# core_math_rs

Correctly rounded arc-cosine, arc-sine, arc-tangent, inverse hyperbolic
cosine and cube root on IEEE 754 binary16 values, with binary16 and binary32
values carried as their bit patterns (`u16`, `u32`).

- `src/` is the verified library (Verus):
  - `encoding` — the value model: magnitudes of binary16 and binary32
    patterns as integers in units of 2^-149, and the order lemmas;
  - `convert` — exact widening binary16 → binary32 and round-to-nearest-even
    narrowing binary32 → binary16, with their laws (uniqueness, monotonicity,
    narrowing undoes widening, symmetry under negation);
  - `acos`, `asin`, `atan`, `acosh`, `cbrt` — for each function, the
    decisions taken on the input bits: special values, domain errors,
    tabulated hard cases, exact cube roots, and the choice of polynomial and
    argument reduction;
  - `utils` — the invalid-operation NaN and NaN quieting.
- `app/` evaluates the polynomials in binary32 arithmetic and composes the
  complete functions `cr_acosf16`, `cr_asinf16`, `cr_atanf16`,
  `cr_acoshf16`, `cr_cbrtf16` from the library's decisions.
- `tests/` exercises the library, exhaustively over all binary16 inputs
  where that is cheap.
