# bel_lang

A small scripting language: its lexer, parser and the scoping and type rules
of its interpreter, verified with Verus, and the evaluator around them.

Layout:

- `src/` — the verified library.
  - `types.rs`: the value types, their names and which types accept which.
  - `token.rs`: token kinds and tokens.
  - `lexer.rs`: the lexer, specified by `lex_from`, a function from the
    input characters to the tokens and the characters no token starts with.
  - `ast.rs`: the syntax tree and its mathematical view, `Tree`.
  - `grammar.rs`: the grammar as spec functions over token sequences;
    `parser.rs`: `Parser::check`, which tells whether the tokens form a
    program and otherwise gives the grammar's error, and `Parser::parse`,
    which on tokens that do builds exactly the tree the grammar gives.
  - `scope.rs`: nested scopes of variables with their declared types, and
    the rules that `bel` and `ster` variables put on assignments; an
    assignment must name a declared variable and meet its rule, which
    `declared_type` and `check_constraint` let a caller test first.
  - `runtime.rs`: type-error messages, built-in lookup and argument checks.
- `app/` — the evaluator. Values are `f64` numbers, so evaluation and
  printing live here, on top of the library.
- `tests/` — tests of the library on concrete programs.
