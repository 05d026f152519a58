use vstd::prelude::*;
use crate::ast::{expr_wf, exprs_wf, BinaryOp, Expression, ExpressionOp, Statement};
use crate::error::{ErrorKind, ErrorModel};
use crate::eval::{run, ParsedLanguage};
use crate::numeric::{binary_bits, NumOp};
use crate::semantics::{eval_expr, eval_list, exec_block, expr_size, length_bits, list_size, Semantics, Slots};
use crate::value::{is_zero_bits, ValueModel, ValueType, ZERO_BITS};

verus! {

/// The slots of a context of `n` slots just reset and then seeded with
/// `seeds`, each a slot and the value stored in it, in order.
pub open spec fn seeded(n: nat, seeds: Seq<(usize, ValueModel)>) -> Slots
    decreases seeds.len(),
{
    if seeds.len() == 0 {
        Seq::new(n, |i: int| None::<ValueModel>)
    } else {
        seeded(n, seeds.drop_last()).update(seeds.last().0 as int, Some(seeds.last().1))
    }
}

/// Running a program after a reset and the same seeding gives the same
/// outcome and the same slots, whatever the slots held before the reset:
/// a reset context of `n` slots holds only `n` unset slots.
pub proof fn law_rerun_after_reset(
    sem: Semantics,
    program: ParsedLanguage,
    before_first: Slots,
    before_second: Slots,
    seeds: Seq<(usize, ValueModel)>,
)
    requires
        before_first.len() == before_second.len(),
    ensures
        run(sem, program, seeded(before_first.len(), seeds))
            == run(sem, program, seeded(before_second.len(), seeds)),
{
}

/// In `a and b`, a left operand equal to zero gives zero, and the right
/// operand is not evaluated: the outcome does not depend on it.
pub proof fn law_and_short_circuit(sem: Semantics, bound: nat, e: Expression, s: Slots)
    requires
        e.op is And,
        eval_expr(sem, bound, *e.op->And_0, s).0 matches Ok(ValueModel::Number(x)) && is_zero_bits(x),
    ensures
        eval_expr(sem, bound, e, s) == (
            Ok::<ValueModel, ErrorModel>(ValueModel::Number(ZERO_BITS)),
            eval_expr(sem, bound, *e.op->And_0, s).1,
        ),
{
}

/// In `a or b`, a left operand other than zero is the result, and the right
/// operand is not evaluated.
pub proof fn law_or_short_circuit(sem: Semantics, bound: nat, e: Expression, s: Slots)
    requires
        e.op is Or,
        eval_expr(sem, bound, *e.op->Or_0, s).0 matches Ok(ValueModel::Number(x)) && !is_zero_bits(x),
    ensures
        eval_expr(sem, bound, e, s) == eval_expr(sem, bound, *e.op->Or_0, s),
{
}

/// A list of expressions that evaluates without error gives one value per
/// expression.
pub proof fn lemma_eval_list_len(sem: Semantics, bound: nat, es: Seq<Expression>, s: Slots)
    requires
        eval_list(sem, bound, es, s).0 is Ok,
    ensures
        eval_list(sem, bound, es, s).0->Ok_0.len() == es.len(),
    decreases es.len(),
{
    if es.len() > 0 {
        let (r, s1) = eval_expr(sem, bound, es[0], s);
        lemma_eval_list_len(sem, bound, es.drop_first(), s1);
    }
}

/// A tuple literal `(v1, ..., vn)` whose items evaluate without error is the
/// tuple of their values, and has `n` items.
pub proof fn law_tuple_literal(sem: Semantics, bound: nat, t: Expression, s: Slots)
    requires
        t.op is TupleLiteral,
        eval_list(sem, bound, t.op->TupleLiteral_0@, s).0 is Ok,
    ensures
        ({
            let (r, s1) = eval_list(sem, bound, t.op->TupleLiteral_0@, s);
            &&& r->Ok_0.len() == t.op->TupleLiteral_0@.len()
            &&& eval_expr(sem, bound, t, s) == (Ok::<ValueModel, ErrorModel>(ValueModel::Tuple(r->Ok_0)), s1)
        }),
{
    lemma_eval_list_len(sem, bound, t.op->TupleLiteral_0@, s);
}

/// `len` of a tuple literal of `n` items is `n` (as a number).
pub proof fn law_len_of_tuple_literal(sem: Semantics, bound: nat, e: Expression, s: Slots)
    requires
        e.op is Len,
        (*e.op->Len_0).op is TupleLiteral,
        eval_list(sem, bound, (*e.op->Len_0).op->TupleLiteral_0@, s).0 is Ok,
    ensures
        eval_expr(sem, bound, e, s) == (
            Ok::<ValueModel, ErrorModel>(ValueModel::Number(
                length_bits(sem.ops, (*e.op->Len_0).op->TupleLiteral_0@.len()),
            )),
            eval_list(sem, bound, (*e.op->Len_0).op->TupleLiteral_0@, s).1,
        ),
{
    law_tuple_literal(sem, bound, *e.op->Len_0, s);
}

/// Indexing a tuple literal `(v1, ..., vn)` at an index `i` below `n` gives
/// the value of the item at position `i`.
pub proof fn law_index_of_tuple_literal(sem: Semantics, bound: nat, e: Expression, s: Slots, i: usize)
    requires
        e.op is Index,
        (*e.op->Index_0).op is TupleLiteral,
        eval_list(sem, bound, (*e.op->Index_0).op->TupleLiteral_0@, s).0 is Ok,
        ({
            let s1 = eval_list(sem, bound, (*e.op->Index_0).op->TupleLiteral_0@, s).1;
            eval_expr(sem, bound, *e.op->Index_1, s1).0 matches Ok(ValueModel::Number(k))
                && (sem.ops)(NumOp::Truncate, k, 0) as usize == i
        }),
        i < (*e.op->Index_0).op->TupleLiteral_0@.len(),
    ensures
        ({
            let (r, s1) = eval_list(sem, bound, (*e.op->Index_0).op->TupleLiteral_0@, s);
            eval_expr(sem, bound, e, s) == (
                Ok::<ValueModel, ErrorModel>(r->Ok_0[i as int]),
                eval_expr(sem, bound, *e.op->Index_1, s1).1,
            )
        }),
{
    law_tuple_literal(sem, bound, *e.op->Index_0, s);
}

/// Indexing a tuple at an index equal to its length fails with a range
/// error of that index and length, at the index expression.
pub proof fn law_index_at_length(sem: Semantics, bound: nat, e: Expression, s: Slots)
    requires
        e.op is Index,
        eval_expr(sem, bound, *e.op->Index_0, s).0 matches Ok(ValueModel::Tuple(items)) && ({
            let s1 = eval_expr(sem, bound, *e.op->Index_0, s).1;
            eval_expr(sem, bound, *e.op->Index_1, s1).0 matches Ok(ValueModel::Number(k))
                && (sem.ops)(NumOp::Truncate, k, 0) as usize == items.len()
        }),
    ensures
        ({
            let items = eval_expr(sem, bound, *e.op->Index_0, s).0->Ok_0->Tuple_0;
            let s1 = eval_expr(sem, bound, *e.op->Index_0, s).1;
            eval_expr(sem, bound, e, s) == (
                Err::<ValueModel, ErrorModel>(ErrorModel {
                    location: Some((*e.op->Index_1).location),
                    kind: ErrorKind::Range(items.len() as usize, items.len() as usize),
                }),
                eval_expr(sem, bound, *e.op->Index_1, s1).1,
            )
        }),
{
}

/// Indexing a number (with a numeric index) fails with a type error that
/// expects a tuple and names the number, at the indexed expression.
pub proof fn law_index_of_number(sem: Semantics, bound: nat, e: Expression, s: Slots)
    requires
        e.op is Index,
        eval_expr(sem, bound, *e.op->Index_0, s).0 matches Ok(ValueModel::Number(_)),
        ({
            let s1 = eval_expr(sem, bound, *e.op->Index_0, s).1;
            eval_expr(sem, bound, *e.op->Index_1, s1).0 matches Ok(ValueModel::Number(_))
        }),
    ensures
        ({
            let (r, s1) = eval_expr(sem, bound, *e.op->Index_0, s);
            eval_expr(sem, bound, e, s) == (
                Err::<ValueModel, ErrorModel>(ErrorModel {
                    location: Some((*e.op->Index_0).location),
                    kind: ErrorKind::Type(ValueType::Tuple, r->Ok_0),
                }),
                eval_expr(sem, bound, *e.op->Index_1, s1).1,
            )
        }),
{
}

/// `x | 0` is `x` wherever `x` converts to an integer `n` that converts
/// back to `x`, and zero converts to the integer zero: what single-precision
/// arithmetic gives for every integer it represents exactly.
pub proof fn law_or_zero(ops: spec_fn(NumOp, u32, u32) -> u32, x: u32)
    requires
        ops(NumOp::Truncate, ZERO_BITS, 0) == 0,
        ops(NumOp::Widen, ops(NumOp::Truncate, x, 0), 0) == x,
    ensures
        binary_bits(ops, BinaryOp::BinaryOr, x, ZERO_BITS) == x,
{
    let n = ops(NumOp::Truncate, x, 0);
    assert(n | 0u32 == n) by (bit_vector);
}


/// Whether `e` calls no user function and never reads slot `v`.
pub open spec fn independent_of(e: Expression, v: usize) -> bool
    decreases expr_size(e), 0nat,
{
    match e.op {
        ExpressionOp::NumberLiteral(_) => true,
        ExpressionOp::Reference(slot) => slot != v,
        ExpressionOp::TupleLiteral(es) => all_independent_of(es@, v),
        ExpressionOp::Index(a, b) => independent_of(*a, v) && independent_of(*b, v),
        ExpressionOp::Binary(_, a, b) => independent_of(*a, v) && independent_of(*b, v),
        ExpressionOp::And(a, b) => independent_of(*a, v) && independent_of(*b, v),
        ExpressionOp::Or(a, b) => independent_of(*a, v) && independent_of(*b, v),
        ExpressionOp::Neg(a) => independent_of(*a, v),
        ExpressionOp::Invert(a) => independent_of(*a, v),
        ExpressionOp::Len(a) => independent_of(*a, v),
        ExpressionOp::Builtin(_, a) => independent_of(*a, v),
        ExpressionOp::UserCall(_, _) => false,
    }
}

pub open spec fn all_independent_of(es: Seq<Expression>, v: usize) -> bool
    decreases list_size(es), 1nat,
{
    es.len() > 0 ==> independent_of(es[0], v) && all_independent_of(es.drop_first(), v)
}

/// An expression that calls no user function leaves the slots as they are,
/// and its outcome does not depend on a slot that it never reads.
pub proof fn lemma_frame(sem: Semantics, bound: nat, e: Expression, s: Slots, v: usize, x: Option<ValueModel>)
    requires
        independent_of(e, v),
        expr_wf(e, s.len(), sem.functions, bound),
        v < s.len(),
    ensures
        eval_expr(sem, bound, e, s).1 == s,
        eval_expr(sem, bound, e, s.update(v as int, x)) == (eval_expr(sem, bound, e, s).0, s.update(v as int, x)),
    decreases expr_size(e), 0nat,
{
    let t = s.update(v as int, x);
    match e.op {
        ExpressionOp::TupleLiteral(es) => lemma_frame_list(sem, bound, es@, s, v, x),
        ExpressionOp::Index(a, b) => {
            lemma_frame(sem, bound, *a, s, v, x);
            lemma_frame(sem, bound, *b, s, v, x);
        },
        ExpressionOp::Binary(_, a, b) => {
            lemma_frame(sem, bound, *a, s, v, x);
            lemma_frame(sem, bound, *b, s, v, x);
        },
        ExpressionOp::And(a, b) => {
            lemma_frame(sem, bound, *a, s, v, x);
            lemma_frame(sem, bound, *b, s, v, x);
        },
        ExpressionOp::Or(a, b) => {
            lemma_frame(sem, bound, *a, s, v, x);
            lemma_frame(sem, bound, *b, s, v, x);
        },
        ExpressionOp::Neg(a) => lemma_frame(sem, bound, *a, s, v, x),
        ExpressionOp::Invert(a) => lemma_frame(sem, bound, *a, s, v, x),
        ExpressionOp::Len(a) => lemma_frame(sem, bound, *a, s, v, x),
        ExpressionOp::Builtin(_, a) => lemma_frame(sem, bound, *a, s, v, x),
        ExpressionOp::Reference(slot) => {
            assert(t[slot as int] == s[slot as int]);
        },
        _ => {},
    }
}

pub proof fn lemma_frame_list(sem: Semantics, bound: nat, es: Seq<Expression>, s: Slots, v: usize, x: Option<ValueModel>)
    requires
        all_independent_of(es, v),
        exprs_wf(es, s.len(), sem.functions, bound),
        v < s.len(),
    ensures
        eval_list(sem, bound, es, s).1 == s,
        eval_list(sem, bound, es, s.update(v as int, x)) == (eval_list(sem, bound, es, s).0, s.update(v as int, x)),
    decreases list_size(es), 1nat,
{
    if es.len() > 0 {
        lemma_frame(sem, bound, es[0], s, v, x);
        lemma_frame_list(sem, bound, es.drop_first(), s, v, x);
    }
}

/// Two assignments to different slots, neither of which reads the other's
/// slot or calls a user function, and whose expressions evaluate without
/// error, can be swapped: both orders give the same slots, which differ from
/// the slots before only in the two assigned ones. (Where both expressions
/// fail, the order decides which error is reported.)
pub proof fn law_swap_independent_assignments(
    sem: Semantics,
    bound: nat,
    a: usize,
    e1: Expression,
    b: usize,
    e2: Expression,
    s: Slots,
)
    requires
        a != b,
        a < s.len(),
        b < s.len(),
        independent_of(e1, b),
        independent_of(e2, a),
        expr_wf(e1, s.len(), sem.functions, bound),
        expr_wf(e2, s.len(), sem.functions, bound),
        eval_expr(sem, bound, e1, s).0 is Ok,
        eval_expr(sem, bound, e2, s).0 is Ok,
    ensures
        ({
            let first = Statement::Assignment { variable: a, value: e1 };
            let second = Statement::Assignment { variable: b, value: e2 };
            let v1 = eval_expr(sem, bound, e1, s).0->Ok_0;
            let v2 = eval_expr(sem, bound, e2, s).0->Ok_0;
            let after = s.update(a as int, Some(v1)).update(b as int, Some(v2));
            &&& exec_block(sem, bound, seq![first, second], s) == (Ok::<Option<ValueModel>, ErrorModel>(None), after)
            &&& exec_block(sem, bound, seq![second, first], s) == (Ok::<Option<ValueModel>, ErrorModel>(None), after)
        }),
{
    let first = Statement::Assignment { variable: a, value: e1 };
    let second = Statement::Assignment { variable: b, value: e2 };
    let v1 = eval_expr(sem, bound, e1, s).0->Ok_0;
    let v2 = eval_expr(sem, bound, e2, s).0->Ok_0;
    lemma_frame(sem, bound, e1, s, b, Some(v2));
    lemma_frame(sem, bound, e2, s, a, Some(v1));
    let after = s.update(a as int, Some(v1)).update(b as int, Some(v2));
    assert(s.update(b as int, Some(v2)).update(a as int, Some(v1)) =~= after);
    let one = seq![first, second];
    let two = seq![second, first];
    assert(one[0] == first && one.drop_first() =~= seq![second]);
    assert(seq![second].drop_first() =~= Seq::<Statement>::empty());
    assert(two[0] == second && two.drop_first() =~= seq![first]);
    assert(seq![first].drop_first() =~= Seq::<Statement>::empty());
    reveal_with_fuel(exec_block, 3);
}

} // verus!
