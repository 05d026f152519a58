use vstd::prelude::*;
use crate::ast::{ElseBranch, Expression, ExpressionOp, Function, IfStatement, Statement};
use crate::context::{unset_error, KeyModel};
use crate::error::{ErrorKind, ErrorModel, Location};
use crate::numeric::{binary_bits, builtin_bits, NumOp};
use crate::value::{bool_bits, is_zero_bits, ValueModel, ValueType, ZERO_BITS};

verus! {

/// The contents of a context's slots.
pub type Slots = Seq<Option<ValueModel>>;

/// What evaluation needs besides the slots: the host's number operations,
/// the program's functions, and the names of the slots (for errors).
pub struct Semantics {
    pub ops: spec_fn(NumOp, u32, u32) -> u32,
    pub functions: Seq<Function>,
    pub names: Map<KeyModel, usize>,
}

/// A value used as a number: its bits, or a type error at `location`.
pub open spec fn as_number(v: ValueModel, location: Location) -> Result<u32, ErrorModel> {
    match v {
        ValueModel::Number(n) => Ok(n),
        _ => Err(ErrorModel { location: Some(location), kind: ErrorKind::Type(ValueType::Number, v) }),
    }
}

/// A value used as a tuple: its items, or a type error at `location`.
pub open spec fn as_tuple(v: ValueModel, location: Location) -> Result<Seq<ValueModel>, ErrorModel> {
    match v {
        ValueModel::Tuple(items) => Ok(items),
        _ => Err(ErrorModel { location: Some(location), kind: ErrorKind::Type(ValueType::Tuple, v) }),
    }
}

/// A tuple's length as a number: the nearest number to it (lengths beyond
/// `u32::MAX` count as `u32::MAX`).
pub open spec fn length_bits(ops: spec_fn(NumOp, u32, u32) -> u32, n: nat) -> u32 {
    ops(NumOp::Widen, if n > u32::MAX { u32::MAX } else { n as u32 }, 0)
}

/// The slots after each parameter gets the argument at its position.
pub open spec fn bind(s: Slots, params: Seq<usize>, vals: Seq<ValueModel>) -> Slots
    decreases params.len(),
{
    if params.len() == 0 || vals.len() == 0 {
        s
    } else {
        bind(s.update(params[0] as int, Some(vals[0])), params.drop_first(), vals.drop_first())
    }
}

/// The outcome of `rest` with `done` put in front of the values it gives.
pub open spec fn prepend(done: Seq<ValueModel>, rest: (Result<Seq<ValueModel>, ErrorModel>, Slots)) -> (Result<Seq<ValueModel>, ErrorModel>, Slots) {
    match rest.0 {
        Ok(vs) => (Ok(done + vs), rest.1),
        Err(e) => (Err(e), rest.1),
    }
}

/// The number of nodes of an expression: the measure by which evaluation
/// terminates.
pub open spec fn expr_size(e: Expression) -> nat
    decreases e, 0nat,
{
    match e.op {
        ExpressionOp::TupleLiteral(es) => 1 + list_size(es@),
        ExpressionOp::UserCall(_, args) => 1 + list_size(args@),
        ExpressionOp::Index(a, b) => 1 + expr_size(*a) + expr_size(*b),
        ExpressionOp::Binary(_, a, b) => 1 + expr_size(*a) + expr_size(*b),
        ExpressionOp::And(a, b) => 1 + expr_size(*a) + expr_size(*b),
        ExpressionOp::Or(a, b) => 1 + expr_size(*a) + expr_size(*b),
        ExpressionOp::Neg(a) => 1 + expr_size(*a),
        ExpressionOp::Invert(a) => 1 + expr_size(*a),
        ExpressionOp::Len(a) => 1 + expr_size(*a),
        ExpressionOp::Builtin(_, a) => 1 + expr_size(*a),
        _ => 1,
    }
}

pub open spec fn list_size(es: Seq<Expression>) -> nat
    decreases es, 0nat,
{
    if es.len() == 0 {
        0
    } else {
        1 + expr_size(es[0]) + list_size(es.drop_first())
    }
}

pub open spec fn stmt_size(st: Statement) -> nat
    decreases st, 0nat,
{
    match st {
        Statement::Assignment { value, .. } => 1 + expr_size(value),
        Statement::If(ifs) => 1 + if_size(ifs),
        Statement::Return(e) => 1 + expr_size(e),
    }
}

pub open spec fn if_size(ifs: IfStatement) -> nat
    decreases ifs, 0nat,
{
    1 + expr_size(ifs.condition) + block_size(ifs.if_branch@) + match ifs.else_branch {
        ElseBranch::IfStatement(b) => if_size(*b),
        ElseBranch::ElseStatement(v) => block_size(v@),
        ElseBranch::Absent => 0,
    }
}

pub open spec fn block_size(stmts: Seq<Statement>) -> nat
    decreases stmts, 0nat,
{
    if stmts.len() == 0 {
        0
    } else {
        1 + stmt_size(stmts[0]) + block_size(stmts.drop_first())
    }
}

/// The value of an expression, and the slots afterwards. Functions called
/// from here are those numbered below `bound`.
pub open spec fn eval_expr(sem: Semantics, bound: nat, e: Expression, s: Slots) -> (Result<ValueModel, ErrorModel>, Slots)
    decreases bound, expr_size(e), 0nat,
{
    match e.op {
        ExpressionOp::NumberLiteral(n) => (Ok(ValueModel::Number(n)), s),
        ExpressionOp::Reference(slot) => match s[slot as int] {
            Some(v) => (Ok(v), s),
            None => (Err(unset_error(sem.names, slot, Some(e.location))), s),
        },
        ExpressionOp::TupleLiteral(es) => {
            let (r, s1) = eval_list(sem, bound, es@, s);
            match r {
                Ok(vs) => (Ok(ValueModel::Tuple(vs)), s1),
                Err(err) => (Err(err), s1),
            }
        },
        ExpressionOp::Index(t, ix) => {
            let (rt, s1) = eval_expr(sem, bound, *t, s);
            match rt {
                Err(err) => (Err(err), s1),
                Ok(tv) => {
                    let (ri, s2) = eval_expr(sem, bound, *ix, s1);
                    match ri {
                        Err(err) => (Err(err), s2),
                        Ok(iv) => match as_number(iv, ix.location) {
                            Err(err) => (Err(err), s2),
                            Ok(n) => match as_tuple(tv, t.location) {
                                Err(err) => (Err(err), s2),
                                Ok(items) => {
                                    let i = (sem.ops)(NumOp::Truncate, n, 0) as usize;
                                    if i < items.len() {
                                        (Ok(items[i as int]), s2)
                                    } else {
                                        (Err(ErrorModel {
                                            location: Some(ix.location),
                                            kind: ErrorKind::Range(i, items.len() as usize),
                                        }), s2)
                                    }
                                },
                            },
                        },
                    }
                },
            }
        },
        ExpressionOp::Neg(a) => {
            let (r, s1) = eval_expr(sem, bound, *a, s);
            match r {
                Err(err) => (Err(err), s1),
                Ok(v) => match as_number(v, a.location) {
                    Err(err) => (Err(err), s1),
                    Ok(n) => (Ok(ValueModel::Number(n ^ 0x8000_0000u32)), s1),
                },
            }
        },
        ExpressionOp::Invert(a) => {
            let (r, s1) = eval_expr(sem, bound, *a, s);
            match r {
                Err(err) => (Err(err), s1),
                Ok(v) => match as_number(v, a.location) {
                    Err(err) => (Err(err), s1),
                    Ok(n) => (Ok(ValueModel::Number(bool_bits(is_zero_bits(n)))), s1),
                },
            }
        },
        ExpressionOp::Binary(op, l, r) => {
            let (rl, s1) = eval_expr(sem, bound, *l, s);
            match rl {
                Err(err) => (Err(err), s1),
                Ok(lv) => match as_number(lv, l.location) {
                    Err(err) => (Err(err), s1),
                    Ok(x) => {
                        let (rr, s2) = eval_expr(sem, bound, *r, s1);
                        match rr {
                            Err(err) => (Err(err), s2),
                            Ok(rv) => match as_number(rv, r.location) {
                                Err(err) => (Err(err), s2),
                                Ok(y) => (Ok(ValueModel::Number(binary_bits(sem.ops, op, x, y))), s2),
                            },
                        }
                    },
                },
            }
        },
        ExpressionOp::And(l, r) => {
            let (rl, s1) = eval_expr(sem, bound, *l, s);
            match rl {
                Err(err) => (Err(err), s1),
                Ok(lv) => match as_number(lv, l.location) {
                    Err(err) => (Err(err), s1),
                    Ok(x) => if is_zero_bits(x) {
                        (Ok(ValueModel::Number(ZERO_BITS)), s1)
                    } else {
                        let (rr, s2) = eval_expr(sem, bound, *r, s1);
                        match rr {
                            Err(err) => (Err(err), s2),
                            Ok(rv) => match as_number(rv, r.location) {
                                Err(err) => (Err(err), s2),
                                Ok(y) => (Ok(ValueModel::Number(y)), s2),
                            },
                        }
                    },
                },
            }
        },
        ExpressionOp::Or(l, r) => {
            let (rl, s1) = eval_expr(sem, bound, *l, s);
            match rl {
                Err(err) => (Err(err), s1),
                Ok(lv) => match as_number(lv, l.location) {
                    Err(err) => (Err(err), s1),
                    Ok(x) => if !is_zero_bits(x) {
                        (Ok(ValueModel::Number(x)), s1)
                    } else {
                        let (rr, s2) = eval_expr(sem, bound, *r, s1);
                        match rr {
                            Err(err) => (Err(err), s2),
                            Ok(rv) => match as_number(rv, r.location) {
                                Err(err) => (Err(err), s2),
                                Ok(y) => (Ok(ValueModel::Number(y)), s2),
                            },
                        }
                    },
                },
            }
        },
        ExpressionOp::Len(a) => {
            let (r, s1) = eval_expr(sem, bound, *a, s);
            match r {
                Err(err) => (Err(err), s1),
                Ok(v) => match as_tuple(v, a.location) {
                    Err(err) => (Err(err), s1),
                    Ok(items) => (Ok(ValueModel::Number(length_bits(sem.ops, items.len()))), s1),
                },
            }
        },
        ExpressionOp::Builtin(b, a) => {
            let (r, s1) = eval_expr(sem, bound, *a, s);
            match r {
                Err(err) => (Err(err), s1),
                Ok(v) => match as_number(v, a.location) {
                    Err(err) => (Err(err), s1),
                    Ok(x) => (Ok(ValueModel::Number(builtin_bits(sem.ops, b, x))), s1),
                },
            }
        },
        ExpressionOp::UserCall(id, args) => {
            if id < bound && id < sem.functions.len() {
                let (ra, s1) = eval_list(sem, bound, args@, s);
                match ra {
                    Err(err) => (Err(err), s1),
                    Ok(vals) => {
                        let f = sem.functions[id as int];
                        let s2 = bind(s1, f.arguments@, vals);
                        let (rb, s3) = exec_block(sem, id as nat, f.contents@, s2);
                        match rb {
                            Err(err) => (Err(err), s3),
                            Ok(Some(v)) => (Ok(v), s3),
                            Ok(None) => (Ok(ValueModel::Number(ZERO_BITS)), s3),
                        }
                    },
                }
            } else {
                (Ok(ValueModel::Number(ZERO_BITS)), s)
            }
        },
    }
}

/// The values of expressions evaluated left to right, stopping at the first
/// error, and the slots afterwards.
pub open spec fn eval_list(sem: Semantics, bound: nat, es: Seq<Expression>, s: Slots) -> (Result<Seq<ValueModel>, ErrorModel>, Slots)
    decreases bound, list_size(es), 1nat,
{
    if es.len() == 0 {
        (Ok(Seq::empty()), s)
    } else {
        let (r, s1) = eval_expr(sem, bound, es[0], s);
        match r {
            Err(err) => (Err(err), s1),
            Ok(v) => prepend(seq![v], eval_list(sem, bound, es.drop_first(), s1)),
        }
    }
}

/// Runs statements in order until one returns a value; gives that value, or
/// `None` where none did, and the slots afterwards.
pub open spec fn exec_block(sem: Semantics, bound: nat, stmts: Seq<Statement>, s: Slots) -> (Result<Option<ValueModel>, ErrorModel>, Slots)
    decreases bound, block_size(stmts), 1nat,
{
    if stmts.len() == 0 {
        (Ok(None), s)
    } else {
        let (r, s1) = exec_stmt(sem, bound, stmts[0], s);
        match r {
            Err(err) => (Err(err), s1),
            Ok(Some(v)) => (Ok(Some(v)), s1),
            Ok(None) => exec_block(sem, bound, stmts.drop_first(), s1),
        }
    }
}

pub open spec fn exec_stmt(sem: Semantics, bound: nat, st: Statement, s: Slots) -> (Result<Option<ValueModel>, ErrorModel>, Slots)
    decreases bound, stmt_size(st), 0nat,
{
    match st {
        Statement::Assignment { variable, value } => {
            let (r, s1) = eval_expr(sem, bound, value, s);
            match r {
                Err(err) => (Err(err), s1),
                Ok(v) => (Ok(None), s1.update(variable as int, Some(v))),
            }
        },
        Statement::If(ifs) => exec_if(sem, bound, ifs, s),
        Statement::Return(e) => {
            let (r, s1) = eval_expr(sem, bound, e, s);
            match r {
                Err(err) => (Err(err), s1),
                Ok(v) => (Ok(Some(v)), s1),
            }
        },
    }
}

pub open spec fn exec_if(sem: Semantics, bound: nat, ifs: IfStatement, s: Slots) -> (Result<Option<ValueModel>, ErrorModel>, Slots)
    decreases bound, if_size(ifs), 0nat,
{
    let (r, s1) = eval_expr(sem, bound, ifs.condition, s);
    match r {
        Err(err) => (Err(err), s1),
        Ok(v) => match as_number(v, ifs.condition.location) {
            Err(err) => (Err(err), s1),
            Ok(c) => if !is_zero_bits(c) {
                exec_block(sem, bound, ifs.if_branch@, s1)
            } else {
                match ifs.else_branch {
                    ElseBranch::IfStatement(b) => exec_if(sem, bound, *b, s1),
                    ElseBranch::ElseStatement(v) => exec_block(sem, bound, v@, s1),
                    ElseBranch::Absent => (Ok(None), s1),
                }
            },
        },
    }
}

} // verus!
