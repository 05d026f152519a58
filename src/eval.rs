use vstd::prelude::*;
use crate::ast::{
    exprs_wf, function_wf, lemma_block_wf, lemma_exprs_wf, block_wf, expr_wf, functions_wf, if_wf, stmt_wf, ElseBranch, Expression, ExpressionOp, Function,
    IfStatement, Statement,
};
use crate::context::{ExecutionContext, KeyModel};
use crate::error::{ErrorModel, LanguageError, LanguageErrorType, Location};
use crate::numeric::{apply_binary, apply_builtin, call_number, number_fn_ok, number_semantics, NumOp};
use crate::semantics::{
    as_number, as_tuple, bind, block_size, eval_expr, eval_list, exec_block, exec_if, exec_stmt,
    expr_size, if_size, list_size, prepend, stmt_size, Semantics,
};
use crate::value::{
    is_zero, lemma_view_all_index, lemma_view_all_len, lemma_view_all_push, view_all, Value, ValueModel,
    ValueType, ONE_BITS, ZERO_BITS,
};

verus! {

/// The model of an evaluation's result.
pub open spec fn result_view(r: Result<Value, LanguageError>) -> Result<ValueModel, ErrorModel> {
    match r {
        Ok(v) => Ok(v@),
        Err(e) => Err(e@),
    }
}

/// The model of a block's result.
pub open spec fn outcome_view(r: Result<Option<Value>, LanguageError>) -> Result<Option<ValueModel>, ErrorModel> {
    match r {
        Ok(Some(v)) => Ok(Some(v@)),
        Ok(None) => Ok(None),
        Err(e) => Err(e@),
    }
}

/// The model of a list evaluation's result.
pub open spec fn list_view(r: Result<Vec<Value>, LanguageError>) -> Result<Seq<ValueModel>, ErrorModel> {
    match r {
        Ok(vs) => Ok(view_all(vs@)),
        Err(e) => Err(e@),
    }
}

/// The semantics that evaluation with the host function `f` follows.
pub open spec fn semantics_of<F: Fn(NumOp, u32, u32) -> u32>(
    f: F,
    functions: Seq<Function>,
    names: Map<KeyModel, usize>,
) -> Semantics {
    Semantics { ops: number_semantics(f), functions, names }
}

proof fn lemma_list_size_elem(es: Seq<Expression>, i: int)
    requires
        0 <= i < es.len(),
    ensures
        expr_size(es[i]) < list_size(es),
    decreases es.len(),
{
    if i > 0 {
        lemma_list_size_elem(es.drop_first(), i - 1);
    }
}

proof fn lemma_block_size_elem(stmts: Seq<Statement>, i: int)
    requires
        0 <= i < stmts.len(),
    ensures
        stmt_size(stmts[i]) < block_size(stmts),
    decreases stmts.len(),
{
    if i > 0 {
        lemma_block_size_elem(stmts.drop_first(), i - 1);
    }
}

fn number_or_error(v: Value, location: Location) -> (r: Result<u32, LanguageError>)
    ensures
        match r {
            Ok(n) => as_number(v@, location) == Ok::<u32, ErrorModel>(n),
            Err(e) => as_number(v@, location) == Err::<u32, ErrorModel>(e@),
        },
{
    match v {
        Value::Number(n) => Ok(n),
        v => Err(LanguageError { location: Some(location), error: LanguageErrorType::Type(ValueType::Number, v) }),
    }
}

fn tuple_or_error(v: Value, location: Location) -> (r: Result<Vec<Value>, LanguageError>)
    ensures
        match r {
            Ok(items) => as_tuple(v@, location) == Ok::<Seq<ValueModel>, ErrorModel>(view_all(items@)),
            Err(e) => as_tuple(v@, location) == Err::<Seq<ValueModel>, ErrorModel>(e@),
        },
{
    match v {
        Value::Tuple(items) => Ok(items),
        v => Err(LanguageError { location: Some(location), error: LanguageErrorType::Type(ValueType::Tuple, v) }),
    }
}

/// Evaluates an expression in `ctx`, calling functions numbered below
/// `bound`.
fn evaluate<F: Fn(NumOp, u32, u32) -> u32>(
    e: &Expression,
    ctx: &mut ExecutionContext,
    functions: &Vec<Function>,
    f: &F,
    Ghost(bound): Ghost<nat>,
) -> (r: Result<Value, LanguageError>)
    requires
        old(ctx).wf(),
        number_fn_ok(*f),
        functions_wf(functions@, old(ctx).slots().len()),
        bound <= functions@.len(),
        expr_wf(*e, old(ctx).slots().len(), functions@, bound),
    ensures
        final(ctx).wf(),
        final(ctx).names() == old(ctx).names(),
        final(ctx).slots().len() == old(ctx).slots().len(),
        (result_view(r), final(ctx).slots()) == eval_expr(
            semantics_of(*f, functions@, old(ctx).names()),
            bound,
            *e,
            old(ctx).slots(),
        ),
    decreases bound, expr_size(*e), 0nat,
{
    let ghost sem = semantics_of(*f, functions@, old(ctx).names());
    match &e.op {
        ExpressionOp::NumberLiteral(n) => Ok(Value::Number(*n)),
        ExpressionOp::Reference(slot) => ctx.get(*slot, e.location),
        ExpressionOp::TupleLiteral(es) => {
            proof {
                lemma_exprs_wf(es@, old(ctx).slots().len(), functions@, bound);
            }
            match evaluate_list(es, ctx, functions, f, Ghost(bound)) {
                Ok(vs) => Ok(Value::Tuple(vs)),
                Err(err) => Err(err),
            }
        },
        ExpressionOp::Index(t, ix) => {
            let tv = match evaluate(t, ctx, functions, f, Ghost(bound)) {
                Ok(v) => v,
                Err(err) => return Err(err),
            };
            let iv = match evaluate(ix, ctx, functions, f, Ghost(bound)) {
                Ok(v) => v,
                Err(err) => return Err(err),
            };
            let n = match number_or_error(iv, ix.location) {
                Ok(n) => n,
                Err(err) => return Err(err),
            };
            let items = match tuple_or_error(tv, t.location) {
                Ok(items) => items,
                Err(err) => return Err(err),
            };
            let i = call_number(f, NumOp::Truncate, n, 0) as usize;
            proof {
                lemma_view_all_len(items@);
            }
            if i < items.len() {
                proof {
                    lemma_view_all_index(items@, i as int);
                }
                Ok(items[i].duplicate())
            } else {
                Err(LanguageError { location: Some(ix.location), error: LanguageErrorType::Range(i, items.len()) })
            }
        },
        ExpressionOp::Neg(a) => {
            let v = match evaluate(a, ctx, functions, f, Ghost(bound)) {
                Ok(v) => v,
                Err(err) => return Err(err),
            };
            match number_or_error(v, a.location) {
                Ok(n) => Ok(Value::Number(n ^ 0x8000_0000u32)),
                Err(err) => Err(err),
            }
        },
        ExpressionOp::Invert(a) => {
            let v = match evaluate(a, ctx, functions, f, Ghost(bound)) {
                Ok(v) => v,
                Err(err) => return Err(err),
            };
            match number_or_error(v, a.location) {
                Ok(n) => Ok(Value::Number(if is_zero(n) { ONE_BITS } else { ZERO_BITS })),
                Err(err) => Err(err),
            }
        },
        ExpressionOp::Binary(op, l, r) => {
            let lv = match evaluate(l, ctx, functions, f, Ghost(bound)) {
                Ok(v) => v,
                Err(err) => return Err(err),
            };
            let x = match number_or_error(lv, l.location) {
                Ok(n) => n,
                Err(err) => return Err(err),
            };
            let rv = match evaluate(r, ctx, functions, f, Ghost(bound)) {
                Ok(v) => v,
                Err(err) => return Err(err),
            };
            let y = match number_or_error(rv, r.location) {
                Ok(n) => n,
                Err(err) => return Err(err),
            };
            Ok(Value::Number(apply_binary(f, *op, x, y)))
        },
        ExpressionOp::And(l, r) => {
            let lv = match evaluate(l, ctx, functions, f, Ghost(bound)) {
                Ok(v) => v,
                Err(err) => return Err(err),
            };
            let x = match number_or_error(lv, l.location) {
                Ok(n) => n,
                Err(err) => return Err(err),
            };
            if is_zero(x) {
                return Ok(Value::Number(ZERO_BITS));
            }
            let rv = match evaluate(r, ctx, functions, f, Ghost(bound)) {
                Ok(v) => v,
                Err(err) => return Err(err),
            };
            match number_or_error(rv, r.location) {
                Ok(y) => Ok(Value::Number(y)),
                Err(err) => Err(err),
            }
        },
        ExpressionOp::Or(l, r) => {
            let lv = match evaluate(l, ctx, functions, f, Ghost(bound)) {
                Ok(v) => v,
                Err(err) => return Err(err),
            };
            let x = match number_or_error(lv, l.location) {
                Ok(n) => n,
                Err(err) => return Err(err),
            };
            if !is_zero(x) {
                return Ok(Value::Number(x));
            }
            let rv = match evaluate(r, ctx, functions, f, Ghost(bound)) {
                Ok(v) => v,
                Err(err) => return Err(err),
            };
            match number_or_error(rv, r.location) {
                Ok(y) => Ok(Value::Number(y)),
                Err(err) => Err(err),
            }
        },
        ExpressionOp::Len(a) => {
            let v = match evaluate(a, ctx, functions, f, Ghost(bound)) {
                Ok(v) => v,
                Err(err) => return Err(err),
            };
            match tuple_or_error(v, a.location) {
                Ok(items) => {
                    proof {
                        lemma_view_all_len(items@);
                    }
                    let n: u32 = if items.len() > 0xffff_ffffusize { 0xffff_ffffu32 } else { items.len() as u32 };
                    Ok(Value::Number(call_number(f, NumOp::Widen, n, 0)))
                },
                Err(err) => Err(err),
            }
        },
        ExpressionOp::Builtin(b, a) => {
            let v = match evaluate(a, ctx, functions, f, Ghost(bound)) {
                Ok(v) => v,
                Err(err) => return Err(err),
            };
            match number_or_error(v, a.location) {
                Ok(x) => Ok(Value::Number(apply_builtin(f, *b, x))),
                Err(err) => Err(err),
            }
        },
        ExpressionOp::UserCall(id, args) => {
            proof {
                lemma_exprs_wf(args@, old(ctx).slots().len(), functions@, bound);
            }
            let vals = match evaluate_list(args, ctx, functions, f, Ghost(bound)) {
                Ok(vs) => vs,
                Err(err) => return Err(err),
            };
            let function = &functions[*id];
            proof {
                assert(crate::ast::function_wf(functions@, *id as int, old(ctx).slots().len()));
            }
            bind_arguments(ctx, &function.arguments, &vals);
            proof {
                lemma_view_all_len(vals@);
            }
            match execute_block(&function.contents, ctx, functions, f, Ghost(*id as nat)) {
                Ok(Some(v)) => Ok(v),
                Ok(None) => Ok(Value::Number(ZERO_BITS)),
                Err(err) => Err(err),
            }
        },
    }
}

/// Stores each value in the slot of the parameter at its position.
fn bind_arguments(ctx: &mut ExecutionContext, params: &Vec<usize>, vals: &Vec<Value>)
    requires
        old(ctx).wf(),
        forall|j: int| 0 <= j < params@.len() ==> #[trigger] params@[j] < old(ctx).slots().len(),
    ensures
        final(ctx).wf(),
        final(ctx).names() == old(ctx).names(),
        final(ctx).slots().len() == old(ctx).slots().len(),
        final(ctx).slots() == bind(old(ctx).slots(), params@, view_all(vals@)),
{
    proof {
        lemma_view_all_len(vals@);
        assert(params@.subrange(0, params@.len() as int) =~= params@);
        assert(view_all(vals@).subrange(0, vals@.len() as int) =~= view_all(vals@));
    }
    let mut j: usize = 0;
    while j < params.len() && j < vals.len()
        invariant
            ctx.wf(),
            ctx.names() == old(ctx).names(),
            ctx.slots().len() == old(ctx).slots().len(),
            j <= params@.len(),
            j <= vals@.len(),
            view_all(vals@).len() == vals@.len(),
            forall|k: int| 0 <= k < params@.len() ==> #[trigger] params@[k] < old(ctx).slots().len(),
            bind(old(ctx).slots(), params@, view_all(vals@)) == bind(
                ctx.slots(),
                params@.subrange(j as int, params@.len() as int),
                view_all(vals@).subrange(j as int, vals@.len() as int),
            ),
        decreases params@.len() - j,
    {
        let v = vals[j].duplicate();
        proof {
            lemma_view_all_index(vals@, j as int);
            let ps = params@.subrange(j as int, params@.len() as int);
            let vs = view_all(vals@).subrange(j as int, vals@.len() as int);
            assert(ps.drop_first() =~= params@.subrange(j + 1, params@.len() as int));
            assert(vs.drop_first() =~= view_all(vals@).subrange(j + 1, vals@.len() as int));
        }
        ctx.set(params[j], v);
        j += 1;
    }
    proof {
        let ps = params@.subrange(j as int, params@.len() as int);
        let vs = view_all(vals@).subrange(j as int, vals@.len() as int);
        assert(ps.len() == 0 || vs.len() == 0);
    }
}

/// Evaluates expressions left to right, stopping at the first error.
fn evaluate_list<F: Fn(NumOp, u32, u32) -> u32>(
    es: &Vec<Expression>,
    ctx: &mut ExecutionContext,
    functions: &Vec<Function>,
    f: &F,
    Ghost(bound): Ghost<nat>,
) -> (r: Result<Vec<Value>, LanguageError>)
    requires
        old(ctx).wf(),
        number_fn_ok(*f),
        functions_wf(functions@, old(ctx).slots().len()),
        bound <= functions@.len(),
        forall|i: int| 0 <= i < es@.len() ==> #[trigger] expr_wf(es@[i], old(ctx).slots().len(), functions@, bound),
    ensures
        final(ctx).wf(),
        final(ctx).names() == old(ctx).names(),
        final(ctx).slots().len() == old(ctx).slots().len(),
        (list_view(r), final(ctx).slots()) == eval_list(
            semantics_of(*f, functions@, old(ctx).names()),
            bound,
            es@,
            old(ctx).slots(),
        ),
    decreases bound, list_size(es@), 1nat,
{
    let ghost sem = semantics_of(*f, functions@, old(ctx).names());
    let mut out: Vec<Value> = Vec::new();
    let mut i: usize = 0;
    proof {
        assert(es@.subrange(0, es@.len() as int) =~= es@);
        assert(view_all(out@) =~= Seq::<ValueModel>::empty());
        assert(prepend(Seq::empty(), eval_list(sem, bound, es@, old(ctx).slots())) == eval_list(sem, bound, es@, old(ctx).slots())) by {
            let r = eval_list(sem, bound, es@, old(ctx).slots());
            if let Ok(vs) = r.0 {
                assert(Seq::<ValueModel>::empty() + vs =~= vs);
            }
        }
    }
    while i < es.len()
        invariant
            ctx.wf(),
            ctx.names() == old(ctx).names(),
            ctx.slots().len() == old(ctx).slots().len(),
            i <= es@.len(),
            number_fn_ok(*f),
            functions_wf(functions@, old(ctx).slots().len()),
            bound <= functions@.len(),
            sem == semantics_of(*f, functions@, old(ctx).names()),
            forall|k: int| 0 <= k < es@.len() ==> #[trigger] expr_wf(es@[k], old(ctx).slots().len(), functions@, bound),
            eval_list(sem, bound, es@, old(ctx).slots()) == prepend(
                view_all(out@),
                eval_list(sem, bound, es@.subrange(i as int, es@.len() as int), ctx.slots()),
            ),
        decreases es@.len() - i,
    {
        proof {
            lemma_list_size_elem(es@, i as int);
            let rest = es@.subrange(i as int, es@.len() as int);
            assert(rest[0] == es@[i as int]);
            assert(rest.drop_first() =~= es@.subrange(i + 1, es@.len() as int));
        }
        let ghost before = ctx.slots();
        let v = match evaluate(&es[i], ctx, functions, f, Ghost(bound)) {
            Ok(v) => v,
            Err(err) => return Err(err),
        };
        proof {
            let rest = es@.subrange(i as int, es@.len() as int);
            let tail = eval_list(sem, bound, es@.subrange(i + 1, es@.len() as int), ctx.slots());
            lemma_view_all_push(out@, v);
            match tail.0 {
                Ok(vs) => {
                    assert(view_all(out@) + (seq![v@] + vs) =~= view_all(out@).push(v@) + vs);
                },
                Err(_) => {},
            }
        }
        out.push(v);
        i += 1;
    }
    Ok(out)
}

/// Runs statements in order until one returns a value.
fn execute_block<F: Fn(NumOp, u32, u32) -> u32>(
    stmts: &Vec<Statement>,
    ctx: &mut ExecutionContext,
    functions: &Vec<Function>,
    f: &F,
    Ghost(bound): Ghost<nat>,
) -> (r: Result<Option<Value>, LanguageError>)
    requires
        old(ctx).wf(),
        number_fn_ok(*f),
        functions_wf(functions@, old(ctx).slots().len()),
        bound <= functions@.len(),
        block_wf(stmts@, old(ctx).slots().len(), functions@, bound),
    ensures
        final(ctx).wf(),
        final(ctx).names() == old(ctx).names(),
        final(ctx).slots().len() == old(ctx).slots().len(),
        (outcome_view(r), final(ctx).slots()) == exec_block(
            semantics_of(*f, functions@, old(ctx).names()),
            bound,
            stmts@,
            old(ctx).slots(),
        ),
    decreases bound, block_size(stmts@), 1nat,
{
    let ghost sem = semantics_of(*f, functions@, old(ctx).names());
    let mut i: usize = 0;
    proof {
        assert(stmts@.subrange(0, stmts@.len() as int) =~= stmts@);
    }
    while i < stmts.len()
        invariant
            ctx.wf(),
            ctx.names() == old(ctx).names(),
            ctx.slots().len() == old(ctx).slots().len(),
            i <= stmts@.len(),
            number_fn_ok(*f),
            functions_wf(functions@, old(ctx).slots().len()),
            bound <= functions@.len(),
            sem == semantics_of(*f, functions@, old(ctx).names()),
            block_wf(stmts@, old(ctx).slots().len(), functions@, bound),
            exec_block(sem, bound, stmts@, old(ctx).slots())
                == exec_block(sem, bound, stmts@.subrange(i as int, stmts@.len() as int), ctx.slots()),
        decreases stmts@.len() - i,
    {
        proof {
            lemma_block_size_elem(stmts@, i as int);
            let rest = stmts@.subrange(i as int, stmts@.len() as int);
            assert(rest[0] == stmts@[i as int]);
            assert(rest.drop_first() =~= stmts@.subrange(i + 1, stmts@.len() as int));
            lemma_block_wf(stmts@, old(ctx).slots().len(), functions@, bound);
        }
        match execute_statement(&stmts[i], ctx, functions, f, Ghost(bound)) {
            Ok(Some(v)) => return Ok(Some(v)),
            Ok(None) => {},
            Err(err) => return Err(err),
        }
        i += 1;
    }
    Ok(None)
}

fn execute_statement<F: Fn(NumOp, u32, u32) -> u32>(
    st: &Statement,
    ctx: &mut ExecutionContext,
    functions: &Vec<Function>,
    f: &F,
    Ghost(bound): Ghost<nat>,
) -> (r: Result<Option<Value>, LanguageError>)
    requires
        old(ctx).wf(),
        number_fn_ok(*f),
        functions_wf(functions@, old(ctx).slots().len()),
        bound <= functions@.len(),
        stmt_wf(*st, old(ctx).slots().len(), functions@, bound),
    ensures
        final(ctx).wf(),
        final(ctx).names() == old(ctx).names(),
        final(ctx).slots().len() == old(ctx).slots().len(),
        (outcome_view(r), final(ctx).slots()) == exec_stmt(
            semantics_of(*f, functions@, old(ctx).names()),
            bound,
            *st,
            old(ctx).slots(),
        ),
    decreases bound, stmt_size(*st), 0nat,
{
    match st {
        Statement::Assignment { variable, value } => {
            let v = match evaluate(value, ctx, functions, f, Ghost(bound)) {
                Ok(v) => v,
                Err(err) => return Err(err),
            };
            ctx.set(*variable, v);
            Ok(None)
        },
        Statement::If(ifs) => execute_if(ifs, ctx, functions, f, Ghost(bound)),
        Statement::Return(e) => match evaluate(e, ctx, functions, f, Ghost(bound)) {
            Ok(v) => Ok(Some(v)),
            Err(err) => Err(err),
        },
    }
}

fn execute_if<F: Fn(NumOp, u32, u32) -> u32>(
    ifs: &IfStatement,
    ctx: &mut ExecutionContext,
    functions: &Vec<Function>,
    f: &F,
    Ghost(bound): Ghost<nat>,
) -> (r: Result<Option<Value>, LanguageError>)
    requires
        old(ctx).wf(),
        number_fn_ok(*f),
        functions_wf(functions@, old(ctx).slots().len()),
        bound <= functions@.len(),
        if_wf(*ifs, old(ctx).slots().len(), functions@, bound),
    ensures
        final(ctx).wf(),
        final(ctx).names() == old(ctx).names(),
        final(ctx).slots().len() == old(ctx).slots().len(),
        (outcome_view(r), final(ctx).slots()) == exec_if(
            semantics_of(*f, functions@, old(ctx).names()),
            bound,
            *ifs,
            old(ctx).slots(),
        ),
    decreases bound, if_size(*ifs), 0nat,
{
    let v = match evaluate(&ifs.condition, ctx, functions, f, Ghost(bound)) {
        Ok(v) => v,
        Err(err) => return Err(err),
    };
    let c = match number_or_error(v, ifs.condition.location) {
        Ok(c) => c,
        Err(err) => return Err(err),
    };
    if !is_zero(c) {
        execute_block(&ifs.if_branch, ctx, functions, f, Ghost(bound))
    } else {
        match &ifs.else_branch {
            ElseBranch::IfStatement(b) => execute_if(b, ctx, functions, f, Ghost(bound)),
            ElseBranch::ElseStatement(block) => execute_block(block, ctx, functions, f, Ghost(bound)),
            ElseBranch::Absent => Ok(None),
        }
    }
}

} // verus!

verus! {

/// A parsed program: its top-level statements and its user functions, each
/// numbered by its position.
#[derive(Debug)]
pub struct ParsedLanguage {
    pub top_level: Vec<Statement>,
    pub functions: Vec<Function>,
}

impl ParsedLanguage {
    /// Whether the program uses only slots below `nslots`, and each call
    /// names a function defined before the caller with as many arguments as
    /// it has parameters.
    pub open spec fn wf(&self, nslots: nat) -> bool {
        &&& functions_wf(self.functions@, nslots)
        &&& block_wf(self.top_level@, nslots, self.functions@, self.functions@.len())
    }
}

fn expr_fits(e: &Expression, nslots: usize, funcs: &Vec<Function>, bound: usize) -> (r: bool)
    ensures
        r == expr_wf(*e, nslots as nat, funcs@, bound as nat),
    decreases expr_size(*e), 0nat,
{
    match &e.op {
        ExpressionOp::NumberLiteral(_) => true,
        ExpressionOp::TupleLiteral(es) => exprs_fit(es, nslots, funcs, bound),
        ExpressionOp::Reference(slot) => *slot < nslots,
        ExpressionOp::Index(a, b) => expr_fits(a, nslots, funcs, bound) && expr_fits(b, nslots, funcs, bound),
        ExpressionOp::Binary(_, a, b) => expr_fits(a, nslots, funcs, bound) && expr_fits(b, nslots, funcs, bound),
        ExpressionOp::And(a, b) => expr_fits(a, nslots, funcs, bound) && expr_fits(b, nslots, funcs, bound),
        ExpressionOp::Or(a, b) => expr_fits(a, nslots, funcs, bound) && expr_fits(b, nslots, funcs, bound),
        ExpressionOp::Neg(a) => expr_fits(a, nslots, funcs, bound),
        ExpressionOp::Invert(a) => expr_fits(a, nslots, funcs, bound),
        ExpressionOp::Len(a) => expr_fits(a, nslots, funcs, bound),
        ExpressionOp::Builtin(_, a) => expr_fits(a, nslots, funcs, bound),
        ExpressionOp::UserCall(id, args) => {
            *id < bound && *id < funcs.len() && args.len() == funcs[*id].arguments.len()
                && exprs_fit(args, nslots, funcs, bound)
        },
    }
}

fn exprs_fit(es: &Vec<Expression>, nslots: usize, funcs: &Vec<Function>, bound: usize) -> (r: bool)
    ensures
        r == exprs_wf(es@, nslots as nat, funcs@, bound as nat),
    decreases list_size(es@), 1nat,
{
    proof {
        lemma_exprs_wf(es@, nslots as nat, funcs@, bound as nat);
    }
    let mut i: usize = 0;
    while i < es.len()
        invariant
            i <= es@.len(),
            forall|k: int| 0 <= k < i ==> #[trigger] expr_wf(es@[k], nslots as nat, funcs@, bound as nat),
        decreases es@.len() - i,
    {
        proof {
            lemma_list_size_elem(es@, i as int);
        }
        if !expr_fits(&es[i], nslots, funcs, bound) {
            proof {
                lemma_exprs_wf(es@, nslots as nat, funcs@, bound as nat);
            }
            return false;
        }
        i += 1;
    }
    proof {
        lemma_exprs_wf(es@, nslots as nat, funcs@, bound as nat);
    }
    true
}

fn stmt_fits(st: &Statement, nslots: usize, funcs: &Vec<Function>, bound: usize) -> (r: bool)
    ensures
        r == stmt_wf(*st, nslots as nat, funcs@, bound as nat),
    decreases stmt_size(*st), 0nat,
{
    match st {
        Statement::Assignment { variable, value } => *variable < nslots && expr_fits(value, nslots, funcs, bound),
        Statement::If(ifs) => if_fits(ifs, nslots, funcs, bound),
        Statement::Return(e) => expr_fits(e, nslots, funcs, bound),
    }
}

fn if_fits(ifs: &IfStatement, nslots: usize, funcs: &Vec<Function>, bound: usize) -> (r: bool)
    ensures
        r == if_wf(*ifs, nslots as nat, funcs@, bound as nat),
    decreases if_size(*ifs), 0nat,
{
    expr_fits(&ifs.condition, nslots, funcs, bound) && block_fits(&ifs.if_branch, nslots, funcs, bound)
        && match &ifs.else_branch {
        ElseBranch::IfStatement(b) => if_fits(b, nslots, funcs, bound),
        ElseBranch::ElseStatement(v) => block_fits(v, nslots, funcs, bound),
        ElseBranch::Absent => true,
    }
}

fn block_fits(stmts: &Vec<Statement>, nslots: usize, funcs: &Vec<Function>, bound: usize) -> (r: bool)
    ensures
        r == block_wf(stmts@, nslots as nat, funcs@, bound as nat),
    decreases block_size(stmts@), 1nat,
{
    proof {
        lemma_block_wf(stmts@, nslots as nat, funcs@, bound as nat);
    }
    let mut i: usize = 0;
    while i < stmts.len()
        invariant
            i <= stmts@.len(),
            forall|k: int| 0 <= k < i ==> #[trigger] stmt_wf(stmts@[k], nslots as nat, funcs@, bound as nat),
        decreases stmts@.len() - i,
    {
        proof {
            lemma_block_size_elem(stmts@, i as int);
        }
        if !stmt_fits(&stmts[i], nslots, funcs, bound) {
            proof {
                lemma_block_wf(stmts@, nslots as nat, funcs@, bound as nat);
            }
            return false;
        }
        i += 1;
    }
    proof {
        lemma_block_wf(stmts@, nslots as nat, funcs@, bound as nat);
    }
    true
}

impl ParsedLanguage {
    /// Whether the program can run in a context of `nslots` slots: the test
    /// of what [`execute`] requires of the program.
    pub fn fits(&self, nslots: usize) -> (r: bool)
        ensures
            r == self.wf(nslots as nat),
    {
        let funcs = &self.functions;
        let mut k: usize = 0;
        while k < funcs.len()
            invariant
                k <= funcs@.len(),
                funcs == &self.functions,
                forall|j: int| 0 <= j < k ==> #[trigger] function_wf(funcs@, j, nslots as nat),
            decreases funcs@.len() - k,
        {
            let f = &funcs[k];
            let mut j: usize = 0;
            while j < f.arguments.len()
                invariant
                    k < funcs@.len(),
                    *f == funcs@[k as int],
                    funcs == &self.functions,
                    j <= f.arguments@.len(),
                    forall|i: int| 0 <= i < j ==> #[trigger] f.arguments@[i] < nslots,
                decreases f.arguments@.len() - j,
            {
                if f.arguments[j] >= nslots {
                    proof {
                        assert(!function_wf(funcs@, k as int, nslots as nat));
                    }
                    return false;
                }
                j += 1;
            }
            if !block_fits(&f.contents, nslots, funcs, k) {
                proof {
                    assert(!function_wf(funcs@, k as int, nslots as nat));
                }
                return false;
            }
            k += 1;
        }
        block_fits(&self.top_level, nslots, funcs, funcs.len())
    }
}

/// What running `program` from the slots `s` gives: the value of a top-level
/// `return`, if any, and the slots afterwards.
pub open spec fn run(sem: Semantics, program: ParsedLanguage, s: Seq<Option<ValueModel>>) -> (Result<Option<ValueModel>, ErrorModel>, Seq<Option<ValueModel>>) {
    exec_block(sem, program.functions@.len(), program.top_level@, s)
}

/// Runs `program` in `context`, with `f` for the arithmetic on numbers.
/// Gives the value of a top-level `return`, if one ran, or the first error.
pub fn execute<F: Fn(NumOp, u32, u32) -> u32>(
    context: &mut ExecutionContext,
    program: &ParsedLanguage,
    f: &F,
) -> (r: Result<Option<Value>, LanguageError>)
    requires
        old(context).wf(),
        program.wf(old(context).slots().len()),
        number_fn_ok(*f),
    ensures
        final(context).wf(),
        final(context).names() == old(context).names(),
        (outcome_view(r), final(context).slots()) == run(
            semantics_of(*f, program.functions@, old(context).names()),
            *program,
            old(context).slots(),
        ),
{
    execute_block(&program.top_level, context, &program.functions, f, Ghost(program.functions@.len()))
}

} // verus!
