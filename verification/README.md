# rlox

A tree-walking interpreter for a small Lox-like language, written in Verus.

- `src/scanner.rs` turns source text into tokens; `scan` states the scanner over characters.
- `src/parser.rs` parses tokens by recursive descent; the `p_*` functions state the grammar.
- `src/interpreter.rs` and `src/environment.rs` run programs; `eval_expr` and `exec_stmt`
  state the meaning of expressions and statements over mathematical values.
- `src/object.rs` holds run-time values; `src/num.rs` holds integers of any size, computed by
  `num_bigint`.
- `src/ast_generator.rs` generates Rust source for syntax-tree node types.
- `app/` holds the command-line program: argument handling, files, the prompt and printing.

## Design notes

- Scopes. Each scope is a vector of `(name, value)` bindings in which the last binding of a
  name is the one that counts, and the chain of scopes is owned: a block moves the current
  environment into a new one as its enclosing scope and takes it back when it ends, also
  when it fails. Verus does not support `RefCell`, so a shared, mutable chain of scopes
  cannot be verified; and vstd's specifications of `HashMap` and `HashSet` describe their
  contents only for keys whose hashing and equality it models (integers and other
  primitive keys, not `String`), so a map keyed by variable names would carry no usable
  contract.
- The generator's set of class names is, for the same reason, a vector whose invariant is
  that no name occurs twice.
- Errors. Where a malformed program or tree would otherwise abort, the library returns an
  error (`ParseError`, `RuntimeError`) instead. A run that stops on a runtime error keeps
  the state it reached: the values printed before the error, and the variables as the
  failing step left them, with any block it was in already closed.
- `while` loops share a budget of iterations (`u64::MAX` for a new interpreter); a run that
  spends it stops with `RuntimeError::LoopLimit`.
