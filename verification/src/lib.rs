//! A small expression language: a parser from source text to a syntax tree,
//! and an interpreter that evaluates the tree.
pub mod bindings;
pub mod grammar;
pub mod grammar_laws;
pub mod interpreter;
pub mod laws;
pub mod node;
pub mod parser;
pub mod semantics;
mod source;

pub use grammar::ErrorKind;
pub use interpreter::{
    start_interpreter, start_interpreter_with_fuel, try_start_interpreter, RunEnd, Runtime, Value,
};
pub use node::Node;
pub use parser::{
    arguments, boolean, else_clause, else_if_clause, expression, function_call,
    function_definition, function_return, identifier, if_clause, if_expression, l1, l1_infix, l2,
    l2_infix, l3, l3_infix, l4, math_expression, number, other_arg, parenthetical_expression,
    program, return_statement, statement, string, try_parse, try_program, Rule, var_statement, variable_define,
    ParseError,
};
pub use semantics::RuntimeError;
