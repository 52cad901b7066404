// Programs parsed and run end to end.
use asalang::{program, start_interpreter, Value};

#[test]
fn numeric() -> Result<(), String> {
    match program(r#"123"#) {
        Ok((input, p)) => {
            assert_eq!(input, "");
            assert_eq!(start_interpreter(&p), Ok(Value::Number(123)));
            Ok(())
        },
        Err(e) => Err(format!("{:?}", e)),
    }
}

#[test]
fn identifier() -> Result<(), String> {
    match program(r#"x"#) {
        Ok((input, p)) => {
            assert_eq!(input, "");
            assert_eq!(start_interpreter(&p), Err("Undefined variable"));
            Ok(())
        },
        Err(e) => Err(format!("{:?}", e)),
    }
}

#[test]
fn string() -> Result<(), String> {
    match program(r#""hello world""#) {
        Ok((input, p)) => {
            assert_eq!(input, "");
            assert_eq!(start_interpreter(&p), Ok(Value::String("hello world".to_string())));
            Ok(())
        },
        Err(e) => Err(format!("{:?}", e)),
    }
}

#[test]
fn bool_true() -> Result<(), String> {
    match program(r#"true"#) {
        Ok((input, p)) => {
            assert_eq!(input, "");
            assert_eq!(start_interpreter(&p), Ok(Value::Bool(true)));
            Ok(())
        },
        Err(e) => Err(format!("{:?}", e)),
    }
}

#[test]
fn bool_false() -> Result<(), String> {
    match program(r#"false"#) {
        Ok((input, p)) => {
            assert_eq!(input, "");
            assert_eq!(start_interpreter(&p), Ok(Value::Bool(false)));
            Ok(())
        },
        Err(e) => Err(format!("{:?}", e)),
    }
}

#[test]
fn function_call() -> Result<(), String> {
    match program(r#"foo()"#) {
        Ok((input, p)) => {
            assert_eq!(input, "");
            assert_eq!(start_interpreter(&p), Err("Undefined function"));
            Ok(())
        },
        Err(e) => Err(format!("{:?}", e)),
    }
}

#[test]
fn function_call_one_arg() -> Result<(), String> {
    match program(r#"foo(a)"#) {
        Ok((input, p)) => {
            assert_eq!(input, "");
            assert_eq!(start_interpreter(&p), Err("Undefined function"));
            Ok(())
        },
        Err(e) => Err(format!("{:?}", e)),
    }
}

#[test]
fn function_call_more_args() -> Result<(), String> {
    match program(r#"foo(a,b,c)"#) {
        Ok((input, p)) => {
            assert_eq!(input, "");
            assert_eq!(start_interpreter(&p), Err("Undefined function"));
            Ok(())
        },
        Err(e) => Err(format!("{:?}", e)),
    }
}

#[test]
fn variable_define() -> Result<(), String> {
    match program(r#"let x = 123;"#) {
        Ok((input, p)) => {
            assert_eq!(input, "");
            assert_eq!(start_interpreter(&p), Ok(Value::Number(123)));
            Ok(())
        },
        Err(e) => Err(format!("{:?}", e)),
    }
}

#[test]
fn variable_init() -> Result<(), String> {
    match program(r#"let x = 1;"#) {
        Ok((input, p)) => {
            assert_eq!(input, "");
            assert_eq!(start_interpreter(&p), Ok(Value::Number(1)));
            Ok(())
        },
        Err(e) => Err(format!("{:?}", e)),
    }
}

#[test]
fn variable_bool() -> Result<(), String> {
    match program(r#"let bool = true;"#) {
        Ok((input, p)) => {
            assert_eq!(input, "");
            assert_eq!(start_interpreter(&p), Ok(Value::Bool(true)));
            Ok(())
        },
        Err(e) => Err(format!("{:?}", e)),
    }
}

#[test]
fn variable_string() -> Result<(), String> {
    match program(r#"let string = "Hello World";"#) {
        Ok((input, p)) => {
            assert_eq!(input, "");
            assert_eq!(start_interpreter(&p), Ok(Value::String("Hello World".to_string())));
            Ok(())
        },
        Err(e) => Err(format!("{:?}", e)),
    }
}

#[test]
fn variable_init_no_space() -> Result<(), String> {
    match program(r#"let x=1;"#) {
        Ok((input, p)) => {
            assert_eq!(input, "");
            assert_eq!(start_interpreter(&p), Ok(Value::Number(1)));
            Ok(())
        },
        Err(e) => Err(format!("{:?}", e)),
    }
}

#[test]
fn math() -> Result<(), String> {
    match program(r#"1 + 1"#) {
        Ok((input, p)) => {
            assert_eq!(input, "");
            assert_eq!(start_interpreter(&p), Ok(Value::Number(2)));
            Ok(())
        },
        Err(e) => Err(format!("{:?}", e)),
    }
}

#[test]
fn math_no_space() -> Result<(), String> {
    match program(r#"1+1"#) {
        Ok((input, p)) => {
            assert_eq!(input, "");
            assert_eq!(start_interpreter(&p), Ok(Value::Number(2)));
            Ok(())
        },
        Err(e) => Err(format!("{:?}", e)),
    }
}

#[test]
fn math_subtraction() -> Result<(), String> {
    match program(r#"1 - 1"#) {
        Ok((input, p)) => {
            assert_eq!(input, "");
            assert_eq!(start_interpreter(&p), Ok(Value::Number(0)));
            Ok(())
        },
        Err(e) => Err(format!("{:?}", e)),
    }
}

#[test]
fn math_multiply() -> Result<(), String> {
    match program(r#"2 * 4"#) {
        Ok((input, p)) => {
            assert_eq!(input, "");
            assert_eq!(start_interpreter(&p), Ok(Value::Number(8)));
            Ok(())
        },
        Err(e) => Err(format!("{:?}", e)),
    }
}

#[test]
fn math_divide() -> Result<(), String> {
    match program(r#"6 / 2"#) {
        Ok((input, p)) => {
            assert_eq!(input, "");
            assert_eq!(start_interpreter(&p), Ok(Value::Number(3)));
            Ok(())
        },
        Err(e) => Err(format!("{:?}", e)),
    }
}

#[test]
fn math_exponent() -> Result<(), String> {
    match program(r#"2 ^ 4"#) {
        Ok((input, p)) => {
            assert_eq!(input, "");
            assert_eq!(start_interpreter(&p), Ok(Value::Number(16)));
            Ok(())
        },
        Err(e) => Err(format!("{:?}", e)),
    }
}

#[test]
fn math_more_terms() -> Result<(), String> {
    match program(r#"10 + 2*6"#) {
        Ok((input, p)) => {
            assert_eq!(input, "");
            assert_eq!(start_interpreter(&p), Ok(Value::Number(22)));
            Ok(())
        },
        Err(e) => Err(format!("{:?}", e)),
    }
}

#[test]
fn math_more_terms_paren() -> Result<(), String> {
    match program(r#"((10+2)*6)/4"#) {
        Ok((input, p)) => {
            assert_eq!(input, "");
            assert_eq!(start_interpreter(&p), Ok(Value::Number(18)));
            Ok(())
        },
        Err(e) => Err(format!("{:?}", e)),
    }
}

#[test]
fn assign_math() -> Result<(), String> {
    match program(r#"let x = 1 + 1;"#) {
        Ok((input, p)) => {
            assert_eq!(input, "");
            assert_eq!(start_interpreter(&p), Ok(Value::Number(2)));
            Ok(())
        },
        Err(e) => Err(format!("{:?}", e)),
    }
}

#[test]
fn assign_function() -> Result<(), String> {
    match program(r#"let x = foo();"#) {
        Ok((input, p)) => {
            assert_eq!(input, "");
            assert_eq!(start_interpreter(&p), Err("Undefined function"));
            Ok(())
        },
        Err(e) => Err(format!("{:?}", e)),
    }
}

#[test]
fn assign_function_arguments() -> Result<(), String> {
    match program(r#"let x = foo(a,b,c);"#) {
        Ok((input, p)) => {
            assert_eq!(input, "");
            assert_eq!(start_interpreter(&p), Err("Undefined function"));
            Ok(())
        },
        Err(e) => Err(format!("{:?}", e)),
    }
}

#[test]
fn define_function() -> Result<(), String> {
    match program(r#"fn main(){return foo();} fn foo(){return 5;}"#) {
        Ok((input, p)) => {
            assert_eq!(input, "");
            assert_eq!(start_interpreter(&p), Ok(Value::Number(5)));
            Ok(())
        },
        Err(e) => Err(format!("{:?}", e)),
    }
}

#[test]
fn define_function_args() -> Result<(), String> {
    match program(r#"fn main(){return foo(1,2,3);} fn foo(a,b,c){return a+b+c;}"#) {
        Ok((input, p)) => {
            assert_eq!(input, "");
            assert_eq!(start_interpreter(&p), Ok(Value::Number(6)));
            Ok(())
        },
        Err(e) => Err(format!("{:?}", e)),
    }
}

#[test]
fn define_function_more_statement() -> Result<(), String> {
    match program(r#"fn main() {
  return foo();
}
fn foo(){
  let x = 5;
  return x;
}"#) {
        Ok((input, p)) => {
            assert_eq!(input, "");
            assert_eq!(start_interpreter(&p), Ok(Value::Number(5)));
            Ok(())
        },
        Err(e) => Err(format!("{:?}", e)),
    }
}

#[test]
fn define_full_program() -> Result<(), String> {
    match program(r#"fn foo(a,b,c) {
  let x = a + 1;
  let y = bar(c - b);
  return x * y;
}

fn bar(a) {
  return a * 3;
}

fn main() {
  return foo(1,2,3);  
}"#) {
        Ok((input, p)) => {
            assert_eq!(input, "");
            assert_eq!(start_interpreter(&p), Ok(Value::Number(6)));
            Ok(())
        },
        Err(e) => Err(format!("{:?}", e)),
    }
}

#[test]
fn function_var_scope() -> Result<(), String> {
    match program(r#"fn main() {
    let y = 1;
    return foo();
  }
  fn foo(){
    return y;
  }"#) {
        Ok((input, p)) => {
            assert_eq!(input, "");
            assert_eq!(start_interpreter(&p), Err("Undefined variable"));
            Ok(())
        },
        Err(e) => Err(format!("{:?}", e)),
    }
}

#[test]
fn multiple_exp_args() -> Result<(), String> {
    match program(r#"fn foo(a,b,c,d) {
    let y = bar(a + b, c + d);
    return y + 1;
  }
  
  fn bar(a, b) {
    return a + b;
  }
  
  fn main() {
    return foo(1,2,3,4);  
  }"#) {
        Ok((input, p)) => {
            assert_eq!(input, "");
            assert_eq!(start_interpreter(&p), Ok(Value::Number(11)));
            Ok(())
        },
        Err(e) => Err(format!("{:?}", e)),
    }
}

#[test]
fn no_main() -> Result<(), String> {
    match program(r#"fn foo(a,b,c,d) {
    let y = bar(a + b, c + d);
    return y + 1;
  }
  
  fn bar(a, b) {
    return a + b;
  }"#) {
        Ok((input, p)) => {
            assert_eq!(input, "");
            assert_eq!(start_interpreter(&p), Err("Undefined function"));
            Ok(())
        },
        Err(e) => Err(format!("{:?}", e)),
    }
}

#[test]
fn if_let_multiline() -> Result<(), String> {
    match program(r#"let x = if false {
    return 4;
} else if true {
    let a = 5;
    let b = a ^ 2;
    return b;
};"#) {
        Ok((input, p)) => {
            assert_eq!(input, "");
            assert_eq!(start_interpreter(&p), Ok(Value::Number(25)));
            Ok(())
        },
        Err(e) => Err(format!("{:?}", e)),
    }
}

#[test]
fn if_return_str() -> Result<(), String> {
    match program(r#"if false { return "invalid"; } else { return "valid"; }"#) {
        Ok((input, p)) => {
            assert_eq!(input, "");
            assert_eq!(start_interpreter(&p), Ok(Value::String("valid".to_string())));
            Ok(())
        },
        Err(e) => Err(format!("{:?}", e)),
    }
}

#[test]
fn if_return_var() -> Result<(), String> {
    match program(r#"if false {let z=1; return z * 2;} else if true {let x = 2; let y = x + 1; return y;}"#) {
        Ok((input, p)) => {
            assert_eq!(input, "");
            assert_eq!(start_interpreter(&p), Ok(Value::Number(3)));
            Ok(())
        },
        Err(e) => Err(format!("{:?}", e)),
    }
}

#[test]
fn if_invalid_return_type() -> Result<(), String> {
    match program(r#"if true {let z = 0; return z * 2;} else if false {return "valid";}"#) {
        Ok((input, p)) => {
            assert_eq!(input, "");
            assert_eq!(start_interpreter(&p), Err("Inconsistent type used in if expression"));
            Ok(())
        },
        Err(e) => Err(format!("{:?}", e)),
    }
}

#[test]
fn if_no_condition_met() -> Result<(), String> {
    match program(r#"if false {let z = 0; return z * 2;} else if false {let x = 1; let y = x + 1; return y;}"#) {
        Ok((input, p)) => {
            assert_eq!(input, "");
            assert_eq!(start_interpreter(&p), Err("Condition not met"));
            Ok(())
        },
        Err(e) => Err(format!("{:?}", e)),
    }
}

#[test]
fn if_wrong_order() -> Result<(), String> {
    match program(r#"let x = if false {return 4;} else {return false;} else if true {let a = 5; let b = a ^ 2;};"#) {
        Ok((input, _)) => {
            assert_ne!(input, "");
            Ok(())
        },
        Err(e) => Err(format!("{:?}", e)),
    }
}
