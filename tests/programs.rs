use anarchy::{
    execute, parse, ExecutionContext, LanguageError, LanguageErrorType, Location, NumOp, ParseError, Position,
    SyntaxError, Value, ValueType, VariableKey,
};

fn float_op(op: NumOp, a: u32, b: u32) -> u32 {
    let x = f32::from_bits(a);
    let y = f32::from_bits(b);
    let flag = |c: bool| c as u32;
    match op {
        NumOp::Add => (x + y).to_bits(),
        NumOp::Sub => (x - y).to_bits(),
        NumOp::Mul => (x * y).to_bits(),
        NumOp::Div => (x / y).to_bits(),
        NumOp::Rem => (x % y).to_bits(),
        NumOp::Pow => x.powf(y).to_bits(),
        NumOp::Equal => flag(x == y),
        NumOp::NotEqual => flag(x != y),
        NumOp::Less => flag(x < y),
        NumOp::Greater => flag(x > y),
        NumOp::LessEqual => flag(x <= y),
        NumOp::GreaterEqual => flag(x >= y),
        NumOp::Truncate => x as u32,
        NumOp::Widen => (a as f32).to_bits(),
        NumOp::Sin => x.sin().to_bits(),
        NumOp::Cos => x.cos().to_bits(),
        NumOp::Tan => x.tan().to_bits(),
        NumOp::Asin => x.asin().to_bits(),
        NumOp::Acos => x.acos().to_bits(),
        NumOp::Atan => x.atan().to_bits(),
        NumOp::Sqrt => x.sqrt().to_bits(),
        NumOp::Log2 => x.log(2.0).to_bits(),
    }
}

fn read_number(text: String) -> u32 {
    text.parse::<f32>().unwrap().to_bits()
}

fn top(name: &str) -> VariableKey {
    VariableKey { name: name.to_string(), scope: String::new() }
}

fn num(v: f32) -> Value {
    Value::Number(v.to_bits())
}

/// Parses `code`, seeds the inputs, runs it, and gives the context.
fn run(code: &str, inputs: &[(&str, f32)]) -> Result<ExecutionContext, LanguageError> {
    let mut ctx = ExecutionContext::new();
    let program = match parse(&mut ctx, code, &read_number) {
        Ok(p) => p,
        Err(e) => panic!("parse failed: {:?}", e),
    };
    for (name, v) in inputs {
        ctx.set_runtime(name, num(*v));
    }
    execute(&mut ctx, &program, &float_op)?;
    Ok(ctx)
}

fn output(ctx: &mut ExecutionContext, name: &str) -> f32 {
    let slot = ctx.register(top(name));
    match ctx.unattributed_get(slot) {
        Ok(Value::Number(bits)) => f32::from_bits(bits),
        other => panic!("{} is not a number: {:?}", name, other),
    }
}

fn rgb(ctx: &mut ExecutionContext) -> (f32, f32, f32) {
    (output(ctx, "r"), output(ctx, "g"), output(ctx, "b"))
}

#[test]
fn bitwise_time_program() {
    let code = "r = time & 255; g = (time + 64) & 255; b = (time * 2) & 255;";
    let mut ctx = run(code, &[("time", 300.0), ("x", 0.0), ("y", 0.0)]).unwrap();
    assert_eq!(rgb(&mut ctx), (44.0, 108.0, 88.0));
}

#[test]
fn tuple_indexing_program() {
    let mut ctx = run("t = (1, 2, 3); r = t[0]; g = t[1]; b = t[2];", &[]).unwrap();
    assert_eq!(rgb(&mut ctx), (1.0, 2.0, 3.0));
}

#[test]
fn tuple_index_out_of_range() {
    let err = run("t = (1, 2, 3); r = t[3];", &[]).unwrap_err();
    assert!(matches!(err.error, LanguageErrorType::Range(3, 3)));
    assert_eq!(err.location, Some(Location { start_line: 1, start_column: 22, end_line: 1, end_column: 23 }));
}

#[test]
fn if_else_program() {
    let code = "if (x < 50) { r = 255; } else { r = 0; } g = 0; b = 0;";
    let mut low = run(code, &[("x", 10.0)]).unwrap();
    assert_eq!(output(&mut low, "r"), 255.0);
    let mut high = run(code, &[("x", 80.0)]).unwrap();
    assert_eq!(output(&mut high, "r"), 0.0);
}

#[test]
fn user_function_program() {
    let mut ctx = run("def sq(n) { return n*n; } r = sq(4); g = sq(sq(2)); b = 0;", &[]).unwrap();
    assert_eq!(rgb(&mut ctx), (16.0, 16.0, 0.0));
}

#[test]
fn logical_operators_program() {
    let mut ctx = run("r = 1 and 0; g = 0 or 7; b = !0;", &[]).unwrap();
    assert_eq!(rgb(&mut ctx), (0.0, 7.0, 1.0));
}

#[test]
fn power_and_modulo_programs() {
    let mut pow = run("r = 2 ** 10;", &[]).unwrap();
    assert_eq!(output(&mut pow, "r"), 1024.0);
    let mut rem = run("r = 7 % 3;", &[]).unwrap();
    assert_eq!(output(&mut rem, "r"), 1.0);
}

#[test]
fn unset_variable_read() {
    let err = run("r = q;", &[]).unwrap_err();
    match err.error {
        LanguageErrorType::Reference(name) => assert_eq!(name, "q"),
        other => panic!("unexpected error {:?}", other),
    }
    assert_eq!(err.location, Some(Location { start_line: 1, start_column: 5, end_line: 1, end_column: 6 }));
}

#[test]
fn indexing_a_number_is_a_type_error() {
    let err = run("r = 5[0];", &[]).unwrap_err();
    match err.error {
        LanguageErrorType::Type(ValueType::Tuple, Value::Number(bits)) => assert_eq!(f32::from_bits(bits), 5.0),
        other => panic!("unexpected error {:?}", other),
    }
    assert_eq!(err.location, Some(Location { start_line: 1, start_column: 5, end_line: 1, end_column: 6 }));
}

#[test]
fn arithmetic_on_a_tuple_is_a_type_error() {
    let err = run("r = (1, 2) + 1;", &[]).unwrap_err();
    assert!(matches!(err.error, LanguageErrorType::Type(ValueType::Number, Value::Tuple(_))));
}

#[test]
fn short_circuit_and_skips_right_operand() {
    let mut ctx = run("r = 0 and q; g = 1 or q; b = 0;", &[]).unwrap();
    assert_eq!(rgb(&mut ctx), (0.0, 1.0, 0.0));
}

#[test]
fn and_evaluates_right_operand_when_left_is_true() {
    let err = run("r = 1 and q;", &[]).unwrap_err();
    assert!(matches!(err.error, LanguageErrorType::Reference(_)));
}

#[test]
fn tuple_length_and_items_round_trip() {
    let mut ctx = run("t = (4, 5, 6, 7); r = len(t); g = t[3]; b = len(());", &[]).unwrap();
    assert_eq!(rgb(&mut ctx), (4.0, 7.0, 0.0));
}

#[test]
fn index_equal_to_length_is_a_range_error() {
    let err = run("t = (4, 5); r = t[len(t)];", &[]).unwrap_err();
    assert!(matches!(err.error, LanguageErrorType::Range(2, 2)));
}

#[test]
fn bitwise_or_with_zero_keeps_integers() {
    let mut ctx = run("r = 16777216 | 0; g = 4294967040 | 0; b = 12345 | 0;", &[]).unwrap();
    assert_eq!(rgb(&mut ctx), (16777216.0, 4294967040.0, 12345.0));
}

#[test]
fn comparisons_give_zero_or_one() {
    let mut ctx = run("r = 3 >= 2; g = 3 == 4; b = 2 != 3;", &[]).unwrap();
    assert_eq!(rgb(&mut ctx), (1.0, 0.0, 1.0));
}

#[test]
fn division_by_zero_is_infinite() {
    let mut ctx = run("r = 1 / 0;", &[]).unwrap();
    assert_eq!(output(&mut ctx, "r"), f32::INFINITY);
}

#[test]
fn log_is_base_two() {
    let mut ctx = run("r = log(8); g = abs(-3); b = sqrt(16);", &[]).unwrap();
    assert_eq!(rgb(&mut ctx), (3.0, 3.0, 4.0));
}

#[test]
fn function_without_return_gives_zero() {
    let mut ctx = run("def f(a) { z = a; } r = f(9); g = 1; b = 2;", &[]).unwrap();
    assert_eq!(rgb(&mut ctx), (0.0, 1.0, 2.0));
}

#[test]
fn return_inside_if_leaves_the_function() {
    let code = "def pick(a) { if (a > 1) { return 10; } return 20; } r = pick(5); g = pick(0); b = 0;";
    let mut ctx = run(code, &[]).unwrap();
    assert_eq!(rgb(&mut ctx), (10.0, 20.0, 0.0));
}

#[test]
fn else_if_chain() {
    let code = "if (x < 10) { r = 1; } else if (x < 20) { r = 2; } else { r = 3; }";
    for (x, want) in [(5.0, 1.0), (15.0, 2.0), (25.0, 3.0)] {
        let mut ctx = run(code, &[("x", x)]).unwrap();
        assert_eq!(output(&mut ctx, "r"), want);
    }
}

#[test]
fn precedence_of_operators() {
    let mut ctx = run("r = 1 + 2 * 3; g = -2 ** 2; b = (1 + 2) * 3;", &[]).unwrap();
    assert_eq!(rgb(&mut ctx), (7.0, 4.0, 9.0));
}

#[test]
fn unknown_function_is_a_parse_error() {
    let mut ctx = ExecutionContext::new();
    match parse(&mut ctx, "r = nope(1);", &read_number) {
        Err(ParseError::LanguageError(e)) => {
            assert!(matches!(e.error, LanguageErrorType::Reference(ref n) if n == "nope"));
            assert_eq!(e.location, Some(Location { start_line: 1, start_column: 5, end_line: 1, end_column: 9 }));
        },
        other => panic!("unexpected result {:?}", other),
    }
}

#[test]
fn wrong_argument_count_is_a_parse_error() {
    let mut ctx = ExecutionContext::new();
    match parse(&mut ctx, "def f(a) { return a; } r = f(1, 2);", &read_number) {
        Err(ParseError::LanguageError(e)) => {
            assert!(matches!(e.error, LanguageErrorType::ArgumentCountMismatch(2, 1)));
            assert_eq!(e.location, Some(Location { start_line: 1, start_column: 29, end_line: 1, end_column: 35 }));
        },
        other => panic!("unexpected result {:?}", other),
    }
}

#[test]
fn syntax_error_is_reported() {
    let mut ctx = ExecutionContext::new();
    assert!(matches!(parse(&mut ctx, "r = ;", &read_number), Err(ParseError::Syntax(_, _))));
    assert!(matches!(parse(&mut ctx, "r = 1 $ 2;", &read_number), Err(ParseError::Syntax(_, _))));
}

#[test]
fn comments_are_skipped() {
    let mut ctx = run("// a comment\nr = 1; // trailing\ng = 2; b = 3;", &[]).unwrap();
    assert_eq!(rgb(&mut ctx), (1.0, 2.0, 3.0));
}

#[test]
fn syntax_error_positions() {
    let mut ctx = ExecutionContext::new();
    match parse(&mut ctx, "r = ;", &read_number) {
        Err(ParseError::Syntax(p, SyntaxError::ExpectedExpression)) => assert_eq!(p, Position { line: 1, column: 5 }),
        other => panic!("unexpected result {:?}", other),
    }
    match parse(&mut ctx, "r = 1 $ 2;", &read_number) {
        Err(ParseError::Syntax(p, SyntaxError::UnexpectedCharacter)) => assert_eq!(p, Position { line: 1, column: 7 }),
        other => panic!("unexpected result {:?}", other),
    }
    match parse(&mut ctx, "r = (1, 2", &read_number) {
        Err(ParseError::Syntax(p, SyntaxError::UnexpectedEnd)) => assert_eq!(p, Position { line: 1, column: 10 }),
        other => panic!("unexpected result {:?}", other),
    }
    match parse(&mut ctx, "r = 1;\n}", &read_number) {
        Err(ParseError::Syntax(p, SyntaxError::ExpectedStatement)) => assert_eq!(p, Position { line: 2, column: 1 }),
        other => panic!("unexpected result {:?}", other),
    }
}

#[test]
fn builtin_with_wrong_argument_count() {
    let mut ctx = ExecutionContext::new();
    match parse(&mut ctx, "r = sin();", &read_number) {
        Err(ParseError::LanguageError(e)) => {
            assert!(matches!(e.error, LanguageErrorType::ArgumentCountMismatch(0, 1)));
        },
        other => panic!("unexpected result {:?}", other),
    }
}

#[test]
fn recursion_is_not_visible_inside_its_own_body() {
    let mut ctx = ExecutionContext::new();
    match parse(&mut ctx, "def f(n) { return f(n); } r = f(1);", &read_number) {
        Err(ParseError::LanguageError(e)) => {
            assert!(matches!(e.error, LanguageErrorType::Reference(ref n) if n == "f"));
        },
        other => panic!("unexpected result {:?}", other),
    }
}

#[test]
fn type_error_is_located_at_the_operand() {
    let err = run("r = (1, 2) * 3;", &[]).unwrap_err();
    assert_eq!(err.location, Some(Location { start_line: 1, start_column: 5, end_line: 1, end_column: 11 }));
}
