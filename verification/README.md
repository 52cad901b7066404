# asalang

A small expression language with functions, variables, arithmetic and
if-expressions: a parser from source text to a syntax tree, and an interpreter
that evaluates the tree.

- `src/grammar.rs` states the grammar over character sequences; `src/parser.rs`
  parses a `&str` and is proved to return what the grammar says.
- `src/semantics.rs` states what evaluating a tree does; `src/interpreter.rs`
  (`Runtime`, `start_interpreter`) is proved to do it. `Runtime::run_with_fuel`
  and `start_interpreter_with_fuel` bound the depth of nested evaluation and
  say when it runs out; `try_parse` parses by any rule and says when a number
  literal is too large for `i32`.
- `src/laws.rs` holds properties across calls: evaluation does not depend on
  how much fuel it is given once it ends, a variable reads back its value, a
  defined function is bound to its body, a call evaluates its arguments in
  the caller's state and runs the body in a fresh frame that binds exactly
  the parameters, a finished evaluation with no if-expression leaves the stack
  as deep as it found it, and `math_expression` is `l1`.
- `app/main.rs` parses and runs a sample program.
