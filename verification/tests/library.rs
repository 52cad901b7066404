// Parsers, errors and evaluation checked on concrete inputs.
use asalang::{
    start_interpreter_with_fuel, try_parse, Rule, RunEnd,
    boolean, expression, l1, math_expression, function_call, identifier, l3_infix, number, program, start_interpreter,
    statement, string, try_program, try_start_interpreter, variable_define, ErrorKind, Node,
    Runtime, RuntimeError, Value,
};

fn run(text: &str) -> Result<Value, &'static str> {
    let (rest, tree) = program(text).expect("parses");
    assert_eq!(rest, "");
    start_interpreter(&tree)
}

fn describe(n: &Node) -> String {
    format!("{:?}", n)
}

#[test]
fn identifier_stops_at_first_non_alphanumeric() {
    let (rest, n) = identifier("abc1 def").unwrap();
    assert_eq!(rest, " def");
    assert_eq!(describe(&n), describe(&Node::Identifier { value: "abc1".to_string() }));
}

#[test]
fn identifier_error_reports_position_and_kind() {
    let e = identifier("+x").unwrap_err();
    assert_eq!(e.input, "+x");
    assert_eq!(e.kind, ErrorKind::AlphaNumeric);
}

#[test]
fn identifier_starts_with_a_letter() {
    let (rest, n) = identifier("x1 = 2").unwrap();
    assert_eq!(rest, " = 2");
    assert_eq!(describe(&n), describe(&Node::Identifier { value: "x1".to_string() }));
    let e = identifier("1x").unwrap_err();
    assert_eq!((e.input, e.kind), ("1x", ErrorKind::AlphaNumeric));
}

#[test]
fn call_name_starts_with_a_letter() {
    let e = function_call("1f()").unwrap_err();
    assert_eq!((e.input, e.kind), ("1f()", ErrorKind::AlphaNumeric));
    let (rest, n) = function_call("f1()").unwrap();
    assert_eq!(rest, "");
    let expected = Node::FunctionCall { name: "f1".to_string(), children: vec![] };
    assert_eq!(describe(&n), describe(&expected));
}

#[test]
fn number_reads_leading_digits() {
    let (rest, n) = number("0042abc").unwrap();
    assert_eq!(rest, "abc");
    assert_eq!(describe(&n), describe(&Node::Number { value: 42 }));
    let e = number("x1").unwrap_err();
    assert_eq!((e.input, e.kind), ("x1", ErrorKind::Digit));
}

#[test]
fn largest_number_literal_is_accepted() {
    let (rest, n) = number("2147483647").unwrap();
    assert_eq!(rest, "");
    assert_eq!(describe(&n), describe(&Node::Number { value: 2147483647 }));
}

#[test]
fn too_large_number_literal_is_refused() {
    assert!(try_program("2147483648").is_none());
    assert!(try_program("let x = 99999999999;").is_none());
    assert!(try_program("2147483647").is_some());
}

#[test]
fn boolean_literals() {
    let (rest, n) = boolean("false;").unwrap();
    assert_eq!(rest, ";");
    assert_eq!(describe(&n), describe(&Node::Bool { value: false }));
    let e = boolean("maybe").unwrap_err();
    assert_eq!((e.input, e.kind), ("maybe", ErrorKind::Tag));
}

#[test]
fn string_literal_and_its_errors() {
    let (rest, n) = string("\"hi there 2\" rest").unwrap();
    assert_eq!(rest, " rest");
    assert_eq!(describe(&n), describe(&Node::String { value: "hi there 2".to_string() }));
    let e = string("\"\"").unwrap_err();
    assert_eq!((e.input, e.kind), ("\"", ErrorKind::Tag));
    let e = string("\"ab!\"").unwrap_err();
    assert_eq!((e.input, e.kind), ("!\"", ErrorKind::Tag));
}

#[test]
fn infix_operator_with_operand() {
    let (rest, n) = l3_infix(" ^ 2 + 1").unwrap();
    assert_eq!(rest, " + 1");
    let expected = Node::MathExpression {
        name: "^".to_string(),
        children: vec![Node::Number { value: 2 }],
    };
    assert_eq!(describe(&n), describe(&expected));
}

#[test]
fn function_call_with_arguments() {
    let (rest, n) = function_call("f(1,x)z").unwrap();
    assert_eq!(rest, "z");
    let expected = Node::FunctionCall {
        name: "f".to_string(),
        children: vec![Node::FunctionArguments {
            children: vec![
                Node::Expression { children: vec![Node::Number { value: 1 }] },
                Node::Expression { children: vec![Node::Identifier { value: "x".to_string() }] },
            ],
        }],
    };
    assert_eq!(describe(&n), describe(&expected));
}

#[test]
fn variable_define_needs_space_after_let() {
    let e = variable_define("letx = 1").unwrap_err();
    assert_eq!((e.input, e.kind), ("x = 1", ErrorKind::Space));
    let (rest, _) = variable_define("let x=1;").unwrap();
    assert_eq!(rest, ";");
}

#[test]
fn statement_consumes_trailing_whitespace() {
    let (rest, _) = statement("return 1;\n\n  x").unwrap();
    assert_eq!(rest, "x");
}

#[test]
fn empty_program_is_an_error() {
    let e = program("").unwrap_err();
    assert_eq!((e.input, e.kind), ("", ErrorKind::AlphaNumeric));
}

#[test]
fn expression_wraps_its_child() {
    let (rest, n) = expression("true").unwrap();
    assert_eq!(rest, "");
    let expected = Node::Expression { children: vec![Node::Bool { value: true }] };
    assert_eq!(describe(&n), describe(&expected));
}

#[test]
fn multiplication_and_division_group_to_the_right() {
    assert_eq!(run("8 / 4 / 2"), Ok(Value::Number(4)));
    assert_eq!(run("2 * 3 - 1"), Ok(Value::Number(5)));
    assert_eq!(run("10 - 2 - 3"), Ok(Value::Number(5)));
}

#[test]
fn division_rounds_toward_zero() {
    assert_eq!(run("fn main() { let a = 0 - 7; return a / 2; }"), Ok(Value::Number(-3)));
}

#[test]
fn power_by_zero_is_one() {
    assert_eq!(run("5 ^ 0"), Ok(Value::Number(1)));
    assert_eq!(run("fn main() { let n = 0 - 2; return 3 ^ n; }"), Ok(Value::Number(1)));
}

#[test]
fn division_by_zero_stops_the_program() {
    let (_, tree) = program("1 / 0").unwrap();
    assert_eq!(try_start_interpreter(&tree), None);
}

#[test]
fn arithmetic_overflow_stops_the_program() {
    let (_, tree) = program("2147483647 + 1").unwrap();
    assert_eq!(try_start_interpreter(&tree), None);
    let (_, tree) = program("2 ^ 31").unwrap();
    assert_eq!(try_start_interpreter(&tree), None);
}

#[test]
fn too_few_arguments_stops_the_program() {
    let (_, tree) = program("fn f(a){return a;} fn main(){return f();}").unwrap();
    assert_eq!(try_start_interpreter(&tree), None);
}

#[test]
fn math_on_a_string_is_an_error() {
    assert_eq!(
        run("fn main() { let x = \"a\"; return x + 1; }"),
        Err("Cannot do math on String or Bool or undefined variable referenced")
    );
}

#[test]
fn a_variable_reads_back_its_value() {
    assert_eq!(run("fn main() { let x = 7; let y = x * 2; return y; }"), Ok(Value::Number(14)));
}

#[test]
fn a_defined_function_can_be_called() {
    assert_eq!(run("fn two() { return 2; } fn main() { return 3 * two(); }"), Ok(Value::Number(6)));
}

#[test]
fn last_statement_of_a_body_gives_the_result() {
    assert_eq!(run("fn main() { return 1; let x = 2; }"), Ok(Value::Number(2)));
}

#[test]
fn callee_does_not_see_caller_variables() {
    assert_eq!(
        run("fn f() { return x; } fn main() { let x = 1; return f(); }"),
        Err("Undefined variable")
    );
}

#[test]
fn first_true_clause_is_taken() {
    assert_eq!(
        run("if false { return 1; } else if true { return 2; } else { return 3; }"),
        Ok(Value::Number(2))
    );
    assert_eq!(run("if false { return 1; } else { return 3; }"), Ok(Value::Number(3)));
}

#[test]
fn runtime_evaluates_nodes_directly() {
    let mut rt = Runtime::new();
    assert_eq!(rt.run(&Node::Number { value: 3 }), Ok(Value::Number(3)));
    assert_eq!(rt.run(&Node::String { value: "s".to_string() }), Ok(Value::String("s".to_string())));
    assert_eq!(
        rt.run(&Node::FunctionArguments { children: vec![] }),
        Err("Unhandled Node")
    );
    assert_eq!(
        rt.run(&Node::Statement { children: vec![Node::Number { value: 1 }] }),
        Err("Unknown Statement")
    );
    assert_eq!(
        rt.run(&Node::Expression {
            children: vec![Node::Statement { children: vec![] }]
        }),
        Err("Unknown Expression")
    );
    assert_eq!(rt.run(&Node::ElseClause { children: vec![] }), Err("No result found"));
    assert_eq!(
        rt.run(&Node::IfClause { children: vec![Node::Number { value: 1 }] }),
        Err("Unexpected conditional expression")
    );
    assert_eq!(
        rt.run(&Node::IfExpression { children: vec![Node::Number { value: 1 }] }),
        Err("Invalid If Expression")
    );
    assert_eq!(
        rt.run(&Node::MathExpression {
            name: "%".to_string(),
            children: vec![Node::Number { value: 1 }, Node::Number { value: 2 }],
        }),
        Err("Undefined operator")
    );
    assert_eq!(
        rt.run(&Node::FunctionCall { name: "nothing".to_string(), children: vec![] }),
        Err("Undefined function")
    );
}

#[test]
fn runtime_keeps_defined_functions_between_runs() {
    let mut rt = Runtime::new();
    let (_, def) = program("fn three() { return 3; }").unwrap();
    assert_eq!(rt.run(&def), Ok(Value::Bool(true)));
    let call = Node::FunctionCall { name: "three".to_string(), children: vec![] };
    assert_eq!(rt.run(&call), Ok(Value::Number(3)));
}

#[test]
fn error_messages() {
    let all = [
        (RuntimeError::UndefinedOperator, "Undefined operator"),
        (
            RuntimeError::CannotDoMath,
            "Cannot do math on String or Bool or undefined variable referenced",
        ),
        (RuntimeError::UndefinedFunction, "Undefined function"),
        (RuntimeError::UndefinedVariable, "Undefined variable"),
        (RuntimeError::UnknownStatement, "Unknown Statement"),
        (RuntimeError::UnknownExpression, "Unknown Expression"),
        (RuntimeError::NoResultFound, "No result found"),
        (RuntimeError::InvalidIfExpression, "Invalid If Expression"),
        (RuntimeError::InconsistentType, "Inconsistent type used in if expression"),
        (RuntimeError::ConditionNotMet, "Condition not met"),
        (RuntimeError::UnexpectedConditional, "Unexpected conditional expression"),
        (RuntimeError::UnhandledNode, "Unhandled Node"),
    ];
    for (e, m) in all.iter() {
        assert_eq!(e.message(), *m);
    }
}

#[test]
fn copies_are_equal() {
    let (_, tree) = program("fn f(a) { return a ^ 2; } fn main() { return f(3); }").unwrap();
    assert_eq!(describe(&tree.duplicate()), describe(&tree));
    let v = Value::String("v".to_string());
    assert_eq!(v.duplicate(), v);
    assert_eq!(start_interpreter(&tree.duplicate()), start_interpreter(&tree));
    assert_eq!(describe(&tree.clone()), describe(&tree));
}

#[test]
fn a_call_leaves_the_caller_variables_alone() {
    assert_eq!(
        run("fn f() { let x = 2; return x; } fn main() { let x = 1; let y = f(); return x + y; }"),
        Ok(Value::Number(3))
    );
}

#[test]
fn a_call_binds_each_parameter_to_its_argument() {
    assert_eq!(
        run("fn main() { return f(10, 3, 1); } fn f(a, b, c) { return a - b - c; }"),
        Ok(Value::Number(6))
    );
    assert_eq!(
        run("fn main() { return f(1, 2, 3, 4); } fn f(a, b) { return b; }"),
        Ok(Value::Number(2))
    );
}

#[test]
fn a_call_stops_at_the_first_failing_argument() {
    assert_eq!(
        run("fn main() { return f(1, g(), h()); } fn f(a, b, c) { return a; }"),
        Err("Undefined function")
    );
    assert_eq!(
        run("fn main() { return f(q); } fn f(a) { return a; }"),
        Err("Undefined variable")
    );
}

#[test]
fn math_expression_is_l1() {
    for text in ["1 + 2 * 3 - 4", "(1+2)^2 rest", "x", "+", "", "f(1) / 2"] {
        let a = math_expression(text).map(|(r, n)| (r, describe(&n))).map_err(|e| (e.input, e.kind));
        let b = l1(text).map(|(r, n)| (r, describe(&n))).map_err(|e| (e.input, e.kind));
        assert_eq!(a, b);
    }
}

#[test]
fn try_parse_reports_an_oversized_literal() {
    assert!(try_parse(Rule::Expression, "1 + 99999999999").is_none());
    assert!(try_parse(Rule::Number, "2147483648").is_none());
    let (rest, n) = try_parse(Rule::Expression, "1 + 2;").unwrap().unwrap();
    assert_eq!(rest, ";");
    let (rest2, n2) = expression("1 + 2;").unwrap();
    assert_eq!((rest, describe(&n)), (rest2, describe(&n2)));
    let e = try_parse(Rule::Identifier, "1x").unwrap().unwrap_err();
    assert_eq!((e.input, e.kind), ("1x", ErrorKind::AlphaNumeric));
    let (rest, _) = try_parse(Rule::L3Infix, " ^ 2 + 1").unwrap().unwrap();
    assert_eq!(rest, " + 1");
}

#[test]
fn a_run_with_fuel_reports_when_the_fuel_runs_out() {
    let (_, tree) = program("123").unwrap();
    assert_eq!(start_interpreter_with_fuel(&tree, 1), RunEnd::OutOfFuel);
    assert_eq!(start_interpreter_with_fuel(&tree, 10), RunEnd::Finished(Ok(Value::Number(123))));
    let (_, tree) = program("fn main() { return main(); }").unwrap();
    assert_eq!(start_interpreter_with_fuel(&tree, 200), RunEnd::OutOfFuel);
    let (_, tree) = program("fn main() { return 1 / 0; }").unwrap();
    assert_eq!(start_interpreter_with_fuel(&tree, 10), RunEnd::Stopped);
    let (_, tree) = program("x").unwrap();
    assert_eq!(start_interpreter_with_fuel(&tree, 10), RunEnd::Finished(Err("Undefined variable")));
}

#[test]
fn runtime_run_with_fuel() {
    let mut rt = Runtime::new();
    let node = Node::MathExpression {
        name: "+".to_string(),
        children: vec![Node::Number { value: 1 }, Node::Number { value: 2 }],
    };
    assert_eq!(rt.run_with_fuel(&node, 1), RunEnd::OutOfFuel);
    assert_eq!(rt.run_with_fuel(&node, 2), RunEnd::Finished(Ok(Value::Number(3))));
}

#[test]
fn a_finished_call_pops_its_frame() {
    assert_eq!(
        run("fn main() { let x = 4; let y = f(1); let z = f(2); return x * y + z; } fn f(a) { let x = 10; return x + a; }"),
        Ok(Value::Number(56))
    );
}

#[test]
fn an_if_type_check_that_fails_twice_leaves_its_scratch_frame() {
    assert_eq!(
        run("fn main() { let x = 1; let y = if true { return q; }; return x; }"),
        Err("Undefined variable")
    );
    assert_eq!(
        run("fn main() { let x = 1; let y = if true { return 2; }; return x + y; }"),
        Ok(Value::Number(3))
    );
}
