use vstd::prelude::*;
use crate::error::Location;
use crate::semantics::{block_size, expr_size, if_size, list_size, stmt_size};

verus! {

/// The binary operators that take two numbers.
#[derive(Clone, Copy, Debug, PartialEq, Eq, Structural)]
pub enum BinaryOp {
    Add,
    Sub,
    Mul,
    Div,
    Modulo,
    Pow,
    BinaryAnd,
    BinaryOr,
    Xor,
    ShiftLeft,
    ShiftRight,
    Equal,
    NotEqual,
    LessThan,
    GreaterThan,
    LessThanOrEqual,
    GreaterThanOrEqual,
}

/// The built-in functions of one number.
#[derive(Clone, Copy, Debug, PartialEq, Eq, Structural)]
pub enum Builtin {
    Sin,
    Cos,
    Tan,
    Asin,
    Acos,
    Atan,
    Abs,
    Sqrt,
    /// The base-2 logarithm.
    Log,
}

/// An expression and the source it was read from.
#[derive(Debug)]
pub struct Expression {
    pub location: Location,
    pub op: ExpressionOp,
}

#[derive(Debug)]
pub enum ExpressionOp {
    /// The bits of a single-precision number.
    NumberLiteral(u32),
    TupleLiteral(Vec<Expression>),
    /// The value in a slot.
    Reference(usize),
    /// A tuple, then the index into it.
    Index(Box<Expression>, Box<Expression>),
    Neg(Box<Expression>),
    Invert(Box<Expression>),
    Binary(BinaryOp, Box<Expression>, Box<Expression>),
    And(Box<Expression>, Box<Expression>),
    Or(Box<Expression>, Box<Expression>),
    /// The length of a tuple.
    Len(Box<Expression>),
    Builtin(Builtin, Box<Expression>),
    /// A call of the user function with that number.
    UserCall(usize, Vec<Expression>),
}

#[derive(Debug)]
pub struct IfStatement {
    pub condition: Expression,
    pub if_branch: Vec<Statement>,
    pub else_branch: ElseBranch,
}

#[derive(Debug)]
pub enum ElseBranch {
    IfStatement(Box<IfStatement>),
    ElseStatement(Vec<Statement>),
    Absent,
}

#[derive(Debug)]
pub enum Statement {
    Assignment { variable: usize, value: Expression },
    If(IfStatement),
    Return(Expression),
}

/// A user function: the slots of its parameters, and its body.
#[derive(Debug)]
pub struct Function {
    pub arguments: Vec<usize>,
    pub contents: Vec<Statement>,
}

/// Whether an expression reads only slots below `nslots` and calls only
/// functions numbered below `bound`, each with as many arguments as it has
/// parameters.
pub open spec fn expr_wf(e: Expression, nslots: nat, funcs: Seq<Function>, bound: nat) -> bool
    decreases e,
{
    match e.op {
        ExpressionOp::NumberLiteral(_) => true,
        ExpressionOp::TupleLiteral(es) => exprs_wf(es@, nslots, funcs, bound),
        ExpressionOp::Reference(slot) => slot < nslots,
        ExpressionOp::Index(t, i) => expr_wf(*t, nslots, funcs, bound) && expr_wf(*i, nslots, funcs, bound),
        ExpressionOp::Neg(a) => expr_wf(*a, nslots, funcs, bound),
        ExpressionOp::Invert(a) => expr_wf(*a, nslots, funcs, bound),
        ExpressionOp::Binary(_, l, r) => expr_wf(*l, nslots, funcs, bound) && expr_wf(*r, nslots, funcs, bound),
        ExpressionOp::And(l, r) => expr_wf(*l, nslots, funcs, bound) && expr_wf(*r, nslots, funcs, bound),
        ExpressionOp::Or(l, r) => expr_wf(*l, nslots, funcs, bound) && expr_wf(*r, nslots, funcs, bound),
        ExpressionOp::Len(a) => expr_wf(*a, nslots, funcs, bound),
        ExpressionOp::Builtin(_, a) => expr_wf(*a, nslots, funcs, bound),
        ExpressionOp::UserCall(id, args) => {
            &&& id < bound
            &&& id < funcs.len()
            &&& args@.len() == funcs[id as int].arguments@.len()
            &&& exprs_wf(args@, nslots, funcs, bound)
        },
    }
}

pub open spec fn exprs_wf(es: Seq<Expression>, nslots: nat, funcs: Seq<Function>, bound: nat) -> bool
    decreases es,
{
    es.len() > 0 ==> expr_wf(es[0], nslots, funcs, bound) && exprs_wf(es.drop_first(), nslots, funcs, bound)
}

/// A list of expressions is well formed exactly where each one is.
pub proof fn lemma_exprs_wf(es: Seq<Expression>, nslots: nat, funcs: Seq<Function>, bound: nat)
    ensures
        exprs_wf(es, nslots, funcs, bound)
            <==> forall|i: int| 0 <= i < es.len() ==> #[trigger] expr_wf(es[i], nslots, funcs, bound),
    decreases es.len(),
{
    if es.len() > 0 {
        lemma_exprs_wf(es.drop_first(), nslots, funcs, bound);
        if forall|i: int| 0 <= i < es.len() ==> #[trigger] expr_wf(es[i], nslots, funcs, bound) {
            assert forall|i: int| 0 <= i < es.drop_first().len() implies #[trigger] expr_wf(
                es.drop_first()[i],
                nslots,
                funcs,
                bound,
            ) by {
                assert(es.drop_first()[i] == es[i + 1]);
            }
            assert(expr_wf(es[0], nslots, funcs, bound));
            assert(exprs_wf(es, nslots, funcs, bound));
        }
        if exprs_wf(es, nslots, funcs, bound) {
            assert forall|i: int| 0 <= i < es.len() implies #[trigger] expr_wf(es[i], nslots, funcs, bound) by {
                if i > 0 {
                    assert(es.drop_first()[i - 1] == es[i]);
                }
            }
        }
    }
}

/// A block is well formed exactly where each statement is.
pub proof fn lemma_block_wf(stmts: Seq<Statement>, nslots: nat, funcs: Seq<Function>, bound: nat)
    ensures
        block_wf(stmts, nslots, funcs, bound)
            <==> forall|i: int| 0 <= i < stmts.len() ==> #[trigger] stmt_wf(stmts[i], nslots, funcs, bound),
    decreases stmts.len(),
{
    if stmts.len() > 0 {
        lemma_block_wf(stmts.drop_first(), nslots, funcs, bound);
        if forall|i: int| 0 <= i < stmts.len() ==> #[trigger] stmt_wf(stmts[i], nslots, funcs, bound) {
            assert forall|i: int| 0 <= i < stmts.drop_first().len() implies #[trigger] stmt_wf(
                stmts.drop_first()[i],
                nslots,
                funcs,
                bound,
            ) by {
                assert(stmts.drop_first()[i] == stmts[i + 1]);
            }
            assert(stmt_wf(stmts[0], nslots, funcs, bound));
            assert(block_wf(stmts, nslots, funcs, bound));
        }
        if block_wf(stmts, nslots, funcs, bound) {
            assert forall|i: int| 0 <= i < stmts.len() implies #[trigger] stmt_wf(stmts[i], nslots, funcs, bound) by {
                if i > 0 {
                    assert(stmts.drop_first()[i - 1] == stmts[i]);
                }
            }
        }
    }
}

pub open spec fn stmt_wf(st: Statement, nslots: nat, funcs: Seq<Function>, bound: nat) -> bool
    decreases st,
{
    match st {
        Statement::Assignment { variable, value } => variable < nslots && expr_wf(value, nslots, funcs, bound),
        Statement::If(ifs) => if_wf(ifs, nslots, funcs, bound),
        Statement::Return(e) => expr_wf(e, nslots, funcs, bound),
    }
}

pub open spec fn if_wf(ifs: IfStatement, nslots: nat, funcs: Seq<Function>, bound: nat) -> bool
    decreases ifs,
{
    &&& expr_wf(ifs.condition, nslots, funcs, bound)
    &&& block_wf(ifs.if_branch@, nslots, funcs, bound)
    &&& match ifs.else_branch {
        ElseBranch::IfStatement(b) => if_wf(*b, nslots, funcs, bound),
        ElseBranch::ElseStatement(v) => block_wf(v@, nslots, funcs, bound),
        ElseBranch::Absent => true,
    }
}

pub open spec fn block_wf(stmts: Seq<Statement>, nslots: nat, funcs: Seq<Function>, bound: nat) -> bool
    decreases stmts,
{
    stmts.len() > 0 ==> stmt_wf(stmts[0], nslots, funcs, bound) && block_wf(stmts.drop_first(), nslots, funcs, bound)
}

/// Whether every function reads and writes only slots below `nslots`, and
/// calls only functions defined before it.
pub open spec fn functions_wf(funcs: Seq<Function>, nslots: nat) -> bool {
    forall|k: int| 0 <= k < funcs.len() ==> #[trigger] function_wf(funcs, k, nslots)
}

pub open spec fn function_wf(funcs: Seq<Function>, k: int, nslots: nat) -> bool {
    &&& forall|j: int| 0 <= j < funcs[k].arguments@.len() ==> #[trigger] funcs[k].arguments@[j] < nslots
    &&& block_wf(funcs[k].contents@, nslots, funcs, k as nat)
}

} // verus!

verus! {

/// Whether `a` is a prefix of `b`.
pub open spec fn is_prefix(a: Seq<Function>, b: Seq<Function>) -> bool {
    a.len() <= b.len() && forall|i: int| 0 <= i < a.len() ==> #[trigger] a[i] == b[i]
}

/// Well-formedness survives more slots and more functions after the ones
/// that exist.
pub proof fn lemma_expr_wf_mono(e: Expression, n: nat, m: nat, fs: Seq<Function>, gs: Seq<Function>, b: nat)
    requires
        expr_wf(e, n, fs, b),
        n <= m,
        is_prefix(fs, gs),
    ensures
        expr_wf(e, m, gs, b),
    decreases expr_size(e), 0nat,
{
    match e.op {
        ExpressionOp::TupleLiteral(es) => lemma_exprs_wf_mono(es@, n, m, fs, gs, b),
        ExpressionOp::UserCall(id, args) => {
            assert(fs[id as int] == gs[id as int]);
            lemma_exprs_wf_mono(args@, n, m, fs, gs, b);
        },
        ExpressionOp::Index(x, y) => {
            lemma_expr_wf_mono(*x, n, m, fs, gs, b);
            lemma_expr_wf_mono(*y, n, m, fs, gs, b);
        },
        ExpressionOp::Binary(_, x, y) => {
            lemma_expr_wf_mono(*x, n, m, fs, gs, b);
            lemma_expr_wf_mono(*y, n, m, fs, gs, b);
        },
        ExpressionOp::And(x, y) => {
            lemma_expr_wf_mono(*x, n, m, fs, gs, b);
            lemma_expr_wf_mono(*y, n, m, fs, gs, b);
        },
        ExpressionOp::Or(x, y) => {
            lemma_expr_wf_mono(*x, n, m, fs, gs, b);
            lemma_expr_wf_mono(*y, n, m, fs, gs, b);
        },
        ExpressionOp::Neg(x) => lemma_expr_wf_mono(*x, n, m, fs, gs, b),
        ExpressionOp::Invert(x) => lemma_expr_wf_mono(*x, n, m, fs, gs, b),
        ExpressionOp::Len(x) => lemma_expr_wf_mono(*x, n, m, fs, gs, b),
        ExpressionOp::Builtin(_, x) => lemma_expr_wf_mono(*x, n, m, fs, gs, b),
        _ => {},
    }
}

pub proof fn lemma_exprs_wf_mono(es: Seq<Expression>, n: nat, m: nat, fs: Seq<Function>, gs: Seq<Function>, b: nat)
    requires
        exprs_wf(es, n, fs, b),
        n <= m,
        is_prefix(fs, gs),
    ensures
        exprs_wf(es, m, gs, b),
    decreases list_size(es), 1nat,
{
    if es.len() > 0 {
        lemma_expr_wf_mono(es[0], n, m, fs, gs, b);
        lemma_exprs_wf_mono(es.drop_first(), n, m, fs, gs, b);
    }
}

pub proof fn lemma_stmt_wf_mono(st: Statement, n: nat, m: nat, fs: Seq<Function>, gs: Seq<Function>, b: nat)
    requires
        stmt_wf(st, n, fs, b),
        n <= m,
        is_prefix(fs, gs),
    ensures
        stmt_wf(st, m, gs, b),
    decreases stmt_size(st), 0nat,
{
    match st {
        Statement::Assignment { variable, value } => lemma_expr_wf_mono(value, n, m, fs, gs, b),
        Statement::If(ifs) => lemma_if_wf_mono(ifs, n, m, fs, gs, b),
        Statement::Return(e) => lemma_expr_wf_mono(e, n, m, fs, gs, b),
    }
}

pub proof fn lemma_if_wf_mono(ifs: IfStatement, n: nat, m: nat, fs: Seq<Function>, gs: Seq<Function>, b: nat)
    requires
        if_wf(ifs, n, fs, b),
        n <= m,
        is_prefix(fs, gs),
    ensures
        if_wf(ifs, m, gs, b),
    decreases if_size(ifs), 0nat,
{
    lemma_expr_wf_mono(ifs.condition, n, m, fs, gs, b);
    lemma_block_wf_mono(ifs.if_branch@, n, m, fs, gs, b);
    match ifs.else_branch {
        ElseBranch::IfStatement(x) => lemma_if_wf_mono(*x, n, m, fs, gs, b),
        ElseBranch::ElseStatement(v) => lemma_block_wf_mono(v@, n, m, fs, gs, b),
        ElseBranch::Absent => {},
    }
}

pub proof fn lemma_block_wf_mono(stmts: Seq<Statement>, n: nat, m: nat, fs: Seq<Function>, gs: Seq<Function>, b: nat)
    requires
        block_wf(stmts, n, fs, b),
        n <= m,
        is_prefix(fs, gs),
    ensures
        block_wf(stmts, m, gs, b),
    decreases block_size(stmts), 1nat,
{
    if stmts.len() > 0 {
        lemma_stmt_wf_mono(stmts[0], n, m, fs, gs, b);
        lemma_block_wf_mono(stmts.drop_first(), n, m, fs, gs, b);
    }
}

} // verus!

verus! {

pub proof fn lemma_functions_wf_grow(fs: Seq<Function>, n: nat, m: nat)
    requires
        functions_wf(fs, n),
        n <= m,
    ensures
        functions_wf(fs, m),
{
    assert forall|k: int| 0 <= k < fs.len() implies #[trigger] function_wf(fs, k, m) by {
        assert(function_wf(fs, k, n));
        lemma_block_wf_mono(fs[k].contents@, n, m, fs, fs, k as nat);
    }
}

/// Appending a function whose parameters and body are well formed keeps the
/// function list well formed.
pub proof fn lemma_functions_wf_push(fs: Seq<Function>, f: Function, n: nat)
    requires
        functions_wf(fs, n),
        forall|j: int| 0 <= j < f.arguments@.len() ==> #[trigger] f.arguments@[j] < n,
        block_wf(f.contents@, n, fs, fs.len()),
    ensures
        functions_wf(fs.push(f), n),
{
    let gs = fs.push(f);
    assert(is_prefix(fs, gs));
    assert forall|k: int| 0 <= k < gs.len() implies #[trigger] function_wf(gs, k, n) by {
        if k < fs.len() {
            assert(function_wf(fs, k, n));
            assert(gs[k] == fs[k]);
            lemma_block_wf_mono(fs[k].contents@, n, n, fs, gs, k as nat);
        } else {
            assert(gs[k] == f);
            lemma_block_wf_mono(f.contents@, n, n, fs, gs, fs.len());
        }
    }
}

} // verus!

verus! {

/// The model of an expression.
pub struct ExprView {
    pub location: Location,
    pub op: OpView,
}

/// The model of an expression's operation.
pub enum OpView {
    NumberLiteral(u32),
    TupleLiteral(Seq<ExprView>),
    Reference(usize),
    Index(Box<ExprView>, Box<ExprView>),
    Neg(Box<ExprView>),
    Invert(Box<ExprView>),
    Binary(BinaryOp, Box<ExprView>, Box<ExprView>),
    And(Box<ExprView>, Box<ExprView>),
    Or(Box<ExprView>, Box<ExprView>),
    Len(Box<ExprView>),
    Builtin(Builtin, Box<ExprView>),
    UserCall(usize, Seq<ExprView>),
}

/// The model of a statement.
pub enum StmtView {
    Assignment { variable: usize, value: ExprView },
    If(IfView),
    Return(ExprView),
}

pub struct IfView {
    pub condition: ExprView,
    pub if_branch: Seq<StmtView>,
    pub else_branch: ElseView,
}

pub enum ElseView {
    IfStatement(Box<IfView>),
    ElseStatement(Seq<StmtView>),
    Absent,
}

pub struct FunctionView {
    pub arguments: Seq<usize>,
    pub contents: Seq<StmtView>,
}

impl Expression {
    pub open spec fn view(&self) -> ExprView
        decreases self,
    {
        ExprView { location: self.location, op: self.op.view() }
    }
}

impl ExpressionOp {
    pub open spec fn view(&self) -> OpView
        decreases self,
    {
        match self {
            ExpressionOp::NumberLiteral(n) => OpView::NumberLiteral(*n),
            ExpressionOp::TupleLiteral(es) => OpView::TupleLiteral(exprs_view(es@)),
            ExpressionOp::Reference(s) => OpView::Reference(*s),
            ExpressionOp::Index(a, b) => OpView::Index(Box::new((**a).view()), Box::new((**b).view())),
            ExpressionOp::Neg(a) => OpView::Neg(Box::new((**a).view())),
            ExpressionOp::Invert(a) => OpView::Invert(Box::new((**a).view())),
            ExpressionOp::Binary(o, a, b) => OpView::Binary(*o, Box::new((**a).view()), Box::new((**b).view())),
            ExpressionOp::And(a, b) => OpView::And(Box::new((**a).view()), Box::new((**b).view())),
            ExpressionOp::Or(a, b) => OpView::Or(Box::new((**a).view()), Box::new((**b).view())),
            ExpressionOp::Len(a) => OpView::Len(Box::new((**a).view())),
            ExpressionOp::Builtin(k, a) => OpView::Builtin(*k, Box::new((**a).view())),
            ExpressionOp::UserCall(id, args) => OpView::UserCall(*id, exprs_view(args@)),
        }
    }
}

pub open spec fn exprs_view(s: Seq<Expression>) -> Seq<ExprView>
    decreases s,
{
    if s.len() == 0 {
        Seq::empty()
    } else {
        exprs_view(s.drop_last()).push(s.last().view())
    }
}

impl Statement {
    pub open spec fn view(&self) -> StmtView
        decreases self,
    {
        match self {
            Statement::Assignment { variable, value } => StmtView::Assignment { variable: *variable, value: value.view() },
            Statement::If(ifs) => StmtView::If(ifs.view()),
            Statement::Return(e) => StmtView::Return(e.view()),
        }
    }
}

impl IfStatement {
    pub open spec fn view(&self) -> IfView
        decreases self,
    {
        IfView {
            condition: self.condition.view(),
            if_branch: stmts_view(self.if_branch@),
            else_branch: match &self.else_branch {
                ElseBranch::IfStatement(b) => ElseView::IfStatement(Box::new((**b).view())),
                ElseBranch::ElseStatement(v) => ElseView::ElseStatement(stmts_view(v@)),
                ElseBranch::Absent => ElseView::Absent,
            },
        }
    }
}

pub open spec fn stmts_view(s: Seq<Statement>) -> Seq<StmtView>
    decreases s,
{
    if s.len() == 0 {
        Seq::empty()
    } else {
        stmts_view(s.drop_last()).push(s.last().view())
    }
}

impl Function {
    pub open spec fn view(&self) -> FunctionView {
        FunctionView { arguments: self.arguments@, contents: stmts_view(self.contents@) }
    }
}

pub open spec fn functions_view(s: Seq<Function>) -> Seq<FunctionView> {
    s.map_values(|f: Function| f.view())
}

pub proof fn lemma_exprs_view_push(s: Seq<Expression>, e: Expression)
    ensures
        exprs_view(s.push(e)) == exprs_view(s).push(e.view()),
{
    assert(s.push(e).drop_last() =~= s);
}

pub proof fn lemma_stmts_view_push(s: Seq<Statement>, st: Statement)
    ensures
        stmts_view(s.push(st)) == stmts_view(s).push(st.view()),
{
    assert(s.push(st).drop_last() =~= s);
}

pub proof fn lemma_exprs_view_len(s: Seq<Expression>)
    ensures
        exprs_view(s).len() == s.len(),
    decreases s.len(),
{
    if s.len() > 0 {
        lemma_exprs_view_len(s.drop_last());
    }
}

} // verus!

verus! {

pub proof fn lemma_exprs_view_index(s: Seq<Expression>, i: int)
    requires
        0 <= i < s.len(),
    ensures
        exprs_view(s).len() == s.len(),
        exprs_view(s)[i] == s[i].view(),
    decreases s.len(),
{
    lemma_exprs_view_len(s);
    if i < s.len() - 1 {
        lemma_exprs_view_index(s.drop_last(), i);
    }
}

} // verus!
