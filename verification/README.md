# learn

A small lambda-calculus front end, verified with Verus: a lexer, a
backtracking parser that tracks delimiters, and a type checker that infers
types with ena's union-find table of type variables.

The language has variables, numbers, functions `x.body`, application by
juxtaposition, `+`, parentheses, and `let x = value in body` (read as the
function `x.body` applied to `value`).

## Layout

- `src/` — the verified library.
  - `token.rs`, `lexer.rs`: tokens and delimiters; the lexer, specified on the
    bytes of the source.
  - `skim.rs`: parse outcomes (`Parsed`), the parse state (`Context`), and the
    combinators the grammar is built from.
  - `parsers.rs`: the `Parser` trait, a parser given by its model, with the
    combinators `Or`, `Optional` and `Span` and the parsers `Just` and `Eof`.
  - `parser.rs`: the grammar, each rule specified by a model of its outcome.
  - `syntax.rs`: expressions, and what it means for one to be well typed.
  - `table.rs`: ena's unification table, behind trusted wrappers whose
    contracts state what ena's source does: new keys, roots, union by rank,
    and values combined as `Ty::unify_values` combines them.
  - `typy.rs`: the table of type variables over it, its model, and
    unification.
  - `types.rs`: types and their rendering.
  - `check.rs`: scoping and the typing rules.
  - `program.rs`: a whole program, parsed and checked.
  - `diag.rs`, `text.rs`: diagnostics and text helpers.
- `tests/` — tests on concrete programs.
- `app/` — the command line program: logging, the error report, printing.
