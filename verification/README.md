# simplex

A two-phase simplex and branch-and-bound solver for linear and integer
programs, read from a small text format:

```
max z = 3x_1 + 2x_2
x_1 + x_2 <= 4
x_1 + 3x_2 <= 6
x_1, x_2 >= 0
```

## Layout

- `src/` is the verified library (Verus). It holds the part of the solver
  that decides without looking at a floating-point number: the grammar of
  the text (lines recognised by the `regex` crate behind trusted wrappers,
  their pieces interpreted by verified code), variable bounds and their
  defaults, the numbering of slack, excess and artificial variables, the
  bases of the simplex method (every exchange keeps basic and non-basic
  columns a partition), the bookkeeping of branch and bound, statuses and
  error messages. Coefficient types are generic where a value carries
  numbers.
- `app/` is the program around it: the menu and file I/O, and the
  numerical work on `f64` (matrices, reduced costs, ratio tests, rounding),
  which calls the library for every structural decision.
- `tests/` exercises the library on concrete values.
