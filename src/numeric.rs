use vstd::prelude::*;
use crate::ast::{BinaryOp, Builtin};
use crate::value::{bool_bits, ONE_BITS, ZERO_BITS};

verus! {

/// The single-precision operations that a program's evaluation asks of its
/// host. Operands and results are the bits of `f32` values, except where a
/// variant says otherwise. Unary operations ignore their second operand.
#[derive(Clone, Copy, Debug, PartialEq, Eq, Structural)]
pub enum NumOp {
    Add,
    Sub,
    Mul,
    Div,
    /// Remainder, as `%` on `f32`.
    Rem,
    /// `powf`.
    Pow,
    /// Comparisons give `1` where they hold and `0` where not.
    Equal,
    NotEqual,
    Less,
    Greater,
    LessEqual,
    GreaterEqual,
    /// The number converted to `u32` by truncation toward zero, saturating.
    Truncate,
    /// The `u32` operand converted to the nearest number.
    Widen,
    Sin,
    Cos,
    Tan,
    Asin,
    Acos,
    Atan,
    Sqrt,
    /// The base-2 logarithm.
    Log2,
}

/// Whether a host's number function can be called on any operands and gives
/// one result for each.
pub open spec fn number_fn_ok<F: Fn(NumOp, u32, u32) -> u32>(f: F) -> bool {
    &&& forall|op: NumOp, a: u32, b: u32| #[trigger] f.requires((op, a, b))
    &&& forall|op: NumOp, a: u32, b: u32, r1: u32, r2: u32|
        #[trigger] f.ensures((op, a, b), r1) && #[trigger] f.ensures((op, a, b), r2) ==> r1 == r2
}

/// The function that a host's number function computes.
pub open spec fn number_semantics<F: Fn(NumOp, u32, u32) -> u32>(f: F) -> spec_fn(NumOp, u32, u32) -> u32 {
    |op: NumOp, a: u32, b: u32| choose|r: u32| f.ensures((op, a, b), r)
}

/// Calls the host's number function.
pub fn call_number<F: Fn(NumOp, u32, u32) -> u32>(f: &F, op: NumOp, a: u32, b: u32) -> (r: u32)
    requires
        number_fn_ok(*f),
    ensures
        r == (number_semantics(*f))(op, a, b),
{
    let r = f(op, a, b);
    proof {
        let c = choose|c: u32| f.ensures((op, a, b), c);
        assert(f.ensures((op, a, b), c));
    }
    r
}

/// What a binary operator gives on two numbers, given the host's operations.
pub open spec fn binary_bits(ops: spec_fn(NumOp, u32, u32) -> u32, op: BinaryOp, x: u32, y: u32) -> u32 {
    match op {
        BinaryOp::Add => ops(NumOp::Add, x, y),
        BinaryOp::Sub => ops(NumOp::Sub, x, y),
        BinaryOp::Mul => ops(NumOp::Mul, x, y),
        BinaryOp::Div => ops(NumOp::Div, x, y),
        BinaryOp::Modulo => ops(NumOp::Rem, x, y),
        BinaryOp::Pow => ops(NumOp::Pow, x, y),
        BinaryOp::BinaryAnd => ops(NumOp::Widen, ops(NumOp::Truncate, x, 0) & ops(NumOp::Truncate, y, 0), 0),
        BinaryOp::BinaryOr => ops(NumOp::Widen, ops(NumOp::Truncate, x, 0) | ops(NumOp::Truncate, y, 0), 0),
        BinaryOp::Xor => ops(NumOp::Widen, ops(NumOp::Truncate, x, 0) ^ ops(NumOp::Truncate, y, 0), 0),
        BinaryOp::ShiftLeft => ops(
            NumOp::Widen,
            ops(NumOp::Truncate, x, 0) << (ops(NumOp::Truncate, y, 0) % 32),
            0,
        ),
        BinaryOp::ShiftRight => ops(
            NumOp::Widen,
            ops(NumOp::Truncate, x, 0) >> (ops(NumOp::Truncate, y, 0) % 32),
            0,
        ),
        BinaryOp::Equal => bool_bits(ops(NumOp::Equal, x, y) != 0),
        BinaryOp::NotEqual => bool_bits(ops(NumOp::NotEqual, x, y) != 0),
        BinaryOp::LessThan => bool_bits(ops(NumOp::Less, x, y) != 0),
        BinaryOp::GreaterThan => bool_bits(ops(NumOp::Greater, x, y) != 0),
        BinaryOp::LessThanOrEqual => bool_bits(ops(NumOp::LessEqual, x, y) != 0),
        BinaryOp::GreaterThanOrEqual => bool_bits(ops(NumOp::GreaterEqual, x, y) != 0),
    }
}

/// What a built-in function gives on a number. `abs` clears the sign bit,
/// exactly as `f32::abs` does.
pub open spec fn builtin_bits(ops: spec_fn(NumOp, u32, u32) -> u32, b: Builtin, x: u32) -> u32 {
    match b {
        Builtin::Sin => ops(NumOp::Sin, x, 0),
        Builtin::Cos => ops(NumOp::Cos, x, 0),
        Builtin::Tan => ops(NumOp::Tan, x, 0),
        Builtin::Asin => ops(NumOp::Asin, x, 0),
        Builtin::Acos => ops(NumOp::Acos, x, 0),
        Builtin::Atan => ops(NumOp::Atan, x, 0),
        Builtin::Abs => x & 0x7fff_ffffu32,
        Builtin::Sqrt => ops(NumOp::Sqrt, x, 0),
        Builtin::Log => ops(NumOp::Log2, x, 0),
    }
}

fn bits_of_bool(b: bool) -> (r: u32)
    ensures
        r == bool_bits(b),
{
    if b {
        ONE_BITS
    } else {
        ZERO_BITS
    }
}

fn bitwise<F: Fn(NumOp, u32, u32) -> u32>(f: &F, op: BinaryOp, x: u32, y: u32) -> (r: u32)
    requires
        number_fn_ok(*f),
        op is BinaryAnd || op is BinaryOr || op is Xor || op is ShiftLeft || op is ShiftRight,
    ensures
        r == binary_bits(number_semantics(*f), op, x, y),
{
    let a = call_number(f, NumOp::Truncate, x, 0);
    let b = call_number(f, NumOp::Truncate, y, 0);
    let c = match op {
        BinaryOp::BinaryAnd => a & b,
        BinaryOp::BinaryOr => a | b,
        BinaryOp::Xor => a ^ b,
        BinaryOp::ShiftLeft => a.wrapping_shl(b),
        _ => a.wrapping_shr(b),
    };
    call_number(f, NumOp::Widen, c, 0)
}

/// Applies a binary operator to two numbers.
pub fn apply_binary<F: Fn(NumOp, u32, u32) -> u32>(f: &F, op: BinaryOp, x: u32, y: u32) -> (r: u32)
    requires
        number_fn_ok(*f),
    ensures
        r == binary_bits(number_semantics(*f), op, x, y),
{
    match op {
        BinaryOp::Add => call_number(f, NumOp::Add, x, y),
        BinaryOp::Sub => call_number(f, NumOp::Sub, x, y),
        BinaryOp::Mul => call_number(f, NumOp::Mul, x, y),
        BinaryOp::Div => call_number(f, NumOp::Div, x, y),
        BinaryOp::Modulo => call_number(f, NumOp::Rem, x, y),
        BinaryOp::Pow => call_number(f, NumOp::Pow, x, y),
        BinaryOp::Equal => bits_of_bool(call_number(f, NumOp::Equal, x, y) != 0),
        BinaryOp::NotEqual => bits_of_bool(call_number(f, NumOp::NotEqual, x, y) != 0),
        BinaryOp::LessThan => bits_of_bool(call_number(f, NumOp::Less, x, y) != 0),
        BinaryOp::GreaterThan => bits_of_bool(call_number(f, NumOp::Greater, x, y) != 0),
        BinaryOp::LessThanOrEqual => bits_of_bool(call_number(f, NumOp::LessEqual, x, y) != 0),
        BinaryOp::GreaterThanOrEqual => bits_of_bool(call_number(f, NumOp::GreaterEqual, x, y) != 0),
        _ => bitwise(f, op, x, y),
    }
}

/// Applies a built-in function to a number.
pub fn apply_builtin<F: Fn(NumOp, u32, u32) -> u32>(f: &F, b: Builtin, x: u32) -> (r: u32)
    requires
        number_fn_ok(*f),
    ensures
        r == builtin_bits(number_semantics(*f), b, x),
{
    match b {
        Builtin::Sin => call_number(f, NumOp::Sin, x, 0),
        Builtin::Cos => call_number(f, NumOp::Cos, x, 0),
        Builtin::Tan => call_number(f, NumOp::Tan, x, 0),
        Builtin::Asin => call_number(f, NumOp::Asin, x, 0),
        Builtin::Acos => call_number(f, NumOp::Acos, x, 0),
        Builtin::Atan => call_number(f, NumOp::Atan, x, 0),
        Builtin::Abs => x & 0x7fff_ffffu32,
        Builtin::Sqrt => call_number(f, NumOp::Sqrt, x, 0),
        Builtin::Log => call_number(f, NumOp::Log2, x, 0),
    }
}

} // verus!
