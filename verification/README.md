# alpha_tak

The verified core of AlphaTak, an AlphaZero-style bot for the board game
Tak, written in Verus.

- `src/` is the library. Every function in it is verified against its
  `requires`/`ensures`; the few calls into outside crates (`regex`,
  `rand`/`rand_distr`, `takparse`, the system clock) go through small
  trusted wrappers whose contracts say what those crates promise.
- `tests/` runs the library on concrete values.
- `app/` is a small command-line front end (argument parsing, files,
  printing) and the floating-point arithmetic of the search, which the
  verified library does not hold.

The main modules: `tile` (stacks and the carry rule), `repr` and `encoding`
(the network's input encoding and move counts), `notation`, `ptn` and
`example` (the PTN, TPS and training-example formats), `analysis` (the
analysis writer), `tei` and `session` (the engine and interactive-session
commands), `bot`, `search`, `schedule` and `pit` (move choice, the search
tree's visit counts, the worker pools and match bookkeeping).
