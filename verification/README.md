# dyne

The front end of Dyne, a small language for computational physics whose
types carry physical units (`Scalar<kg>`, `Vec<3, m/s>`, `Mat<2, 3>`),
written in Verus with its behaviour stated as contracts and proved.

## Layout

- `src/lexer/` — the scanner. `tokenize` is specified by `lexes_to`
  (each token spells its text, only blanks, comments and folded line
  breaks lie between tokens, each token is the longest match) and, on
  failure, by `lex_fails`; `unique` proves that a source lexes to at most
  one token stream, and to none where lexing fails.
- `src/parser/` — recursive-descent parser over the token stream. Its
  contracts cover progress and node ids, the node kind each leading token
  yields, and success on small forms (lone operands, empty calls, `(x)`,
  `[]`, one-line `if` and `match`, simple `for` headers with empty
  bodies, a lone `let`, blank programs); they do not state the full
  grammar.
- `src/sema/` — name resolution (`resolve`, which reports every repeated
  top-level name), type lowering (`ty`,
  specified by `lower_spec`), the bidirectional checker (`check`, with
  the arithmetic rules of `operators::arith_spec`), unification
  (`unify`), unit dimensions (`dimension`), match exhaustiveness
  (`exhaust`, sound with respect to `top_level_covered`) and the
  floating-point accumulation warnings (`precision`, exact with respect
  to `items_ws`).
- `src/diag.rs`, `src/error.rs`, `src/source.rs` — diagnostics, their
  rendering, and source positions.
- `app/main.rs` — the command-line driver: reads a file, compiles it and
  prints the diagnostics.
- `tests/` — behaviour tests, run against the compiled library.
