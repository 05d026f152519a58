use anarchy::{
    execute, parse, ExecutionContext, LanguageErrorType, NumOp, Value, VariableKey,
};

fn float_op(op: NumOp, a: u32, b: u32) -> u32 {
    let x = f32::from_bits(a);
    let y = f32::from_bits(b);
    match op {
        NumOp::Add => (x + y).to_bits(),
        NumOp::Sub => (x - y).to_bits(),
        NumOp::Mul => (x * y).to_bits(),
        NumOp::Div => (x / y).to_bits(),
        NumOp::Rem => (x % y).to_bits(),
        NumOp::Pow => x.powf(y).to_bits(),
        NumOp::Equal => (x == y) as u32,
        NumOp::NotEqual => (x != y) as u32,
        NumOp::Less => (x < y) as u32,
        NumOp::Greater => (x > y) as u32,
        NumOp::LessEqual => (x <= y) as u32,
        NumOp::GreaterEqual => (x >= y) as u32,
        NumOp::Truncate => x as u32,
        NumOp::Widen => (a as f32).to_bits(),
        NumOp::Sin => x.sin().to_bits(),
        NumOp::Cos => x.cos().to_bits(),
        NumOp::Tan => x.tan().to_bits(),
        NumOp::Asin => x.asin().to_bits(),
        NumOp::Acos => x.acos().to_bits(),
        NumOp::Atan => x.atan().to_bits(),
        NumOp::Sqrt => x.sqrt().to_bits(),
        NumOp::Log2 => x.log(2.0).to_bits(),
    }
}

fn read_number(text: String) -> u32 {
    text.parse::<f32>().unwrap().to_bits()
}

fn key(name: &str, scope: &str) -> VariableKey {
    VariableKey { name: name.to_string(), scope: scope.to_string() }
}

fn number_in(ctx: &ExecutionContext, slot: usize) -> Option<f32> {
    match ctx.unattributed_get(slot) {
        Ok(Value::Number(bits)) => Some(f32::from_bits(bits)),
        _ => None,
    }
}

#[test]
fn register_is_idempotent_and_injective() {
    let mut ctx = ExecutionContext::new();
    let a = ctx.register(key("x", ""));
    let b = ctx.register(key("x", ""));
    let c = ctx.register(key("x", "f"));
    let d = ctx.register(key("y", ""));
    assert_eq!(a, b);
    assert_eq!((a, c, d), (0, 1, 2));
    assert_eq!(ctx.len(), 3);
}

#[test]
fn reset_unsets_every_slot_and_keeps_layout() {
    let mut ctx = ExecutionContext::new();
    ctx.set_runtime("x", Value::Number(3.0f32.to_bits()));
    let slot = ctx.register(key("x", ""));
    assert_eq!(number_in(&ctx, slot), Some(3.0));
    ctx.reset();
    match ctx.unattributed_get(slot) {
        Err(e) => {
            assert!(matches!(e.error, LanguageErrorType::Reference(ref n) if n == "x"));
            assert!(e.location.is_none());
        },
        Ok(v) => panic!("slot still set: {:?}", v),
    }
    assert_eq!(ctx.register(key("x", "")), slot);
}

#[test]
fn exported_layout_keeps_slot_numbers() {
    let mut ctx = ExecutionContext::new();
    let code = "def f(a) { return a + k; } r = f(x); k = 2;";
    parse(&mut ctx, code, &read_number).unwrap();
    let layout = ctx.export_scope_locations();
    let mut other = ExecutionContext::new_with_scope_locations(layout);
    assert_eq!(other.len(), ctx.len());
    for (name, scope) in [("a", "f"), ("k", "f"), ("r", ""), ("x", ""), ("k", "")] {
        assert_eq!(other.register(key(name, scope)), ctx.register(key(name, scope)));
    }
    assert_eq!(other.len(), ctx.len());
}

#[test]
fn rerun_after_reset_gives_same_outputs() {
    let mut ctx = ExecutionContext::new();
    let program = parse(&mut ctx, "q = x * 2; r = q + time; g = 0 or q; b = 1;", &read_number).unwrap();
    let mut outputs = Vec::new();
    for _ in 0..2 {
        ctx.reset();
        ctx.set_runtime("x", Value::Number(21.0f32.to_bits()));
        ctx.set_runtime("time", Value::Number(5.0f32.to_bits()));
        execute(&mut ctx, &program, &float_op).unwrap();
        let slots: Vec<Option<f32>> = ["r", "g", "b"].iter().map(|n| {
            let s = ctx.register(key(n, ""));
            number_in(&ctx, s)
        }).collect();
        outputs.push(slots);
    }
    assert_eq!(outputs[0], outputs[1]);
    assert_eq!(outputs[0], vec![Some(47.0), Some(42.0), Some(1.0)]);
}

#[test]
fn swapping_independent_assignments_changes_nothing() {
    let run = |code: &str| {
        let mut ctx = ExecutionContext::new();
        let program = parse(&mut ctx, code, &read_number).unwrap();
        ctx.set_runtime("x", Value::Number(4.0f32.to_bits()));
        execute(&mut ctx, &program, &float_op).unwrap();
        ["x", "p", "q"].iter().map(|n| {
            let s = ctx.register(key(n, ""));
            number_in(&ctx, s)
        }).collect::<Vec<_>>()
    };
    let one = run("p = x + 1; q = x * 3;");
    let two = run("q = x * 3; p = x + 1;");
    assert_eq!(one, two);
    assert_eq!(one, vec![Some(4.0), Some(5.0), Some(12.0)]);
}

#[test]
fn function_parameters_live_in_the_function_scope() {
    let mut ctx = ExecutionContext::new();
    let program = parse(&mut ctx, "def f(x) { return x * 10; } x = 1; r = f(2);", &read_number).unwrap();
    execute(&mut ctx, &program, &float_op).unwrap();
    let top_x = ctx.register(key("x", ""));
    let param_x = ctx.register(key("x", "f"));
    let r = ctx.register(key("r", ""));
    assert_ne!(top_x, param_x);
    assert_eq!(number_in(&ctx, top_x), Some(1.0));
    assert_eq!(number_in(&ctx, param_x), Some(2.0));
    assert_eq!(number_in(&ctx, r), Some(20.0));
}

#[test]
fn top_level_return_ends_the_program() {
    let mut ctx = ExecutionContext::new();
    let program = parse(&mut ctx, "r = 1; return (r, 2); r = 5;", &read_number).unwrap();
    let result = execute(&mut ctx, &program, &float_op).unwrap();
    match result {
        Some(Value::Tuple(items)) => assert_eq!(items.len(), 2),
        other => panic!("unexpected result {:?}", other),
    }
    let r = ctx.register(key("r", ""));
    assert_eq!(number_in(&ctx, r), Some(1.0));
}

#[test]
fn nested_tuples_are_values() {
    let mut ctx = ExecutionContext::new();
    let program = parse(&mut ctx, "t = ((1, 2), (3, (4, 5))); r = t[1][1][0]; g = len(t[1]);", &read_number).unwrap();
    execute(&mut ctx, &program, &float_op).unwrap();
    let r = ctx.register(key("r", ""));
    let g = ctx.register(key("g", ""));
    assert_eq!(number_in(&ctx, r), Some(4.0));
    assert_eq!(number_in(&ctx, g), Some(2.0));
}

#[test]
fn parsed_program_fits_its_context_only() {
    let mut ctx = ExecutionContext::new();
    let program = parse(&mut ctx, "def f(a) { return a; } r = f(x);", &read_number).unwrap();
    assert!(program.fits(ctx.len()));
    assert!(program.fits(ctx.len() + 5));
    assert!(!program.fits(0));
}
