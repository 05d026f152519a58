use vstd::prelude::*;
use crate::ast::{
    block_wf, expr_wf, exprs_view, exprs_wf, functions_view, functions_wf, if_wf, lemma_block_wf,
    lemma_block_wf_mono, lemma_expr_wf_mono, lemma_exprs_view_index, lemma_exprs_view_len, lemma_exprs_view_push,
    lemma_exprs_wf, lemma_functions_wf_grow, lemma_functions_wf_push, lemma_stmt_wf_mono, lemma_stmts_view_push,
    stmt_wf, stmts_view, BinaryOp, Builtin, ElseBranch, ExprView, Expression, ExpressionOp, Function, FunctionView,
    IfStatement, IfView, Statement, StmtView,
};
use crate::context::{lemma_extends_refl, lemma_extends_trans, ExecutionContext, VariableKey};
use crate::error::{LanguageError, LanguageErrorType, Location, ParseError, ParseFault, Position, SyntaxError};
use crate::eval::ParsedLanguage;
use crate::grammar::{
    binary_of, builtin_of, find_fn, infix_level, is_builtin_name, kw, program_of, rec_binary, rec_binary_tail,
    rec_block, rec_call, rec_if, rec_items, rec_param_list, rec_params, rec_postfix, rec_postfix_tail, rec_primary,
    rec_program, rec_stmt, rec_unary, reg, sym, unexpected_at, Env, ExprParse, FnTable, Reg,
};
use crate::lexer::{lex_all, tokenize, view_tokens, word_is, Keyword, Symbol, Token, TokenKind};

verus! {

/// Relies on `str::chars`, collected: the characters of the text in order.
#[verifier::external_body]
fn chars_of(s: &str) -> (r: Vec<char>)
    ensures
        r@ == s@,
{
    s.chars().collect()
}

/// Relies on collecting characters into a `String`: the same characters.
#[verifier::external_body]
fn string_of(v: &Vec<char>) -> (r: String)
    ensures
        r@ == v@,
{
    v.iter().collect()
}

/// What the parser reads: the tokens, where the text ends, and the names of
/// the functions defined so far, numbered by position.
struct Parser {
    toks: Vec<Token>,
    eof: Position,
    fn_names: Vec<Vec<char>>,
}

/// The table of the functions with these names.
pub open spec fn table_of(names: Seq<Vec<char>>, funcs: Seq<Function>) -> FnTable {
    Seq::new(names.len(), |i: int| (names[i]@, funcs[i].arguments@.len()))
}

/// The variables of a context and its number of slots.
pub open spec fn state_of(ctx: ExecutionContext) -> Reg {
    (ctx.names(), ctx.slots().len())
}

/// The bits that the number function gives for a literal's text.
pub open spec fn literal_semantics<G: Fn(String) -> u32>(number: G) -> spec_fn(Seq<char>) -> u32 {
    |text: Seq<char>| choose|r: u32| #[trigger] reads_as(number, text, r)
}

/// Whether the number function can give `r` for the text `text`.
pub open spec fn reads_as<G: Fn(String) -> u32>(number: G, text: Seq<char>, r: u32) -> bool {
    exists|s: String| s@ == text && #[trigger] number.ensures((s,), r)
}

/// What the grammar sees while parsing in `scope` with the functions
/// `funcs` (named `names`) defined so far.
pub open spec fn env_of(names: Seq<Vec<char>>, funcs: Seq<Function>, scope: Seq<char>, num: spec_fn(Seq<char>) -> u32, eof: Position) -> Env {
    Env { tb: table_of(names, funcs), scope, num, eof }
}

/// Whether a statement parser's outcome is the grammar's `o`.
pub open spec fn stmt_outcome(r: Result<(Statement, usize), ParseError>, o: Result<(StmtView, int, Reg), ParseFault>, after: Reg) -> bool {
    match r {
        Ok((st, np)) => o == Ok::<(StmtView, int, Reg), ParseFault>((st@, np as int, after)),
        Err(e) => o == Err::<(StmtView, int, Reg), ParseFault>(e@),
    }
}

/// Whether an `if` parser's outcome is the grammar's `o`.
pub open spec fn if_outcome(r: Result<(IfStatement, usize), ParseError>, o: Result<(IfView, int, Reg), ParseFault>, after: Reg) -> bool {
    match r {
        Ok((ifs, np)) => o == Ok::<(IfView, int, Reg), ParseFault>((ifs@, np as int, after)),
        Err(e) => o == Err::<(IfView, int, Reg), ParseFault>(e@),
    }
}

/// Whether an expression parser's outcome is the grammar's `o`, ending with
/// the registrations `after`.
pub open spec fn expr_outcome(r: Result<(Expression, usize), ParseError>, o: ExprParse, after: Reg) -> bool {
    match r {
        Ok((e, np)) => o == Ok::<(ExprView, int, Reg), ParseFault>((e@, np as int, after)),
        Err(err) => o == Err::<(ExprView, int, Reg), ParseFault>(err@),
    }
}

/// Whether `e` is well formed for the functions `funcs`, called from code
/// defined after all of them.
pub open spec fn wf_in(e: Expression, ctx: ExecutionContext, funcs: Seq<Function>) -> bool {
    expr_wf(e, ctx.slots().len(), funcs, funcs.len())
}

proof fn lemma_wf_grow(e: Expression, a: ExecutionContext, b: ExecutionContext, funcs: Seq<Function>)
    requires
        wf_in(e, a, funcs),
        b.extends(&a),
    ensures
        wf_in(e, b, funcs),
{
    lemma_expr_wf_mono(e, a.slots().len(), b.slots().len(), funcs, funcs, funcs.len());
}

fn span(start: Position, end: Position) -> (r: Location)
    ensures
        r == (Location { start_line: start.line, start_column: start.column, end_line: end.line, end_column: end.column }),
{
    Location { start_line: start.line, start_column: start.column, end_line: end.line, end_column: end.column }
}

fn token_span(t: &Token) -> (r: Location)
    ensures
        r == (Location { start_line: t.start.line, start_column: t.start.column, end_line: t.end.line, end_column: t.end.column }),
{
    span(t.start, t.end)
}

/// The error for the token at `pos` (or the end of the text).
fn unexpected(p: &Parser, pos: usize, what: SyntaxError) -> (r: ParseError)
    ensures
        r@ == unexpected_at(view_tokens(p.toks@), p.eof, pos as int, what),
{
    if pos < p.toks.len() {
        ParseError::Syntax(p.toks[pos].start, what)
    } else {
        ParseError::Syntax(p.eof, SyntaxError::UnexpectedEnd)
    }
}

fn symbol_at(p: &Parser, pos: usize) -> (r: Option<Symbol>)
    ensures
        r is Some ==> pos < p.toks.len(),
        r == sym(view_tokens(p.toks@), pos as int),
{
    if pos < p.toks.len() {
        match &p.toks[pos].kind {
            TokenKind::Symbol(s) => Some(*s),
            _ => None,
        }
    } else {
        None
    }
}

fn keyword_at(p: &Parser, pos: usize) -> (r: Option<Keyword>)
    ensures
        r is Some ==> pos < p.toks.len(),
        r == kw(view_tokens(p.toks@), pos as int),
{
    if pos < p.toks.len() {
        match &p.toks[pos].kind {
            TokenKind::Keyword(k) => Some(*k),
            _ => None,
        }
    } else {
        None
    }
}

/// Consumes the symbol `s` at `pos`.
fn expect_symbol(p: &Parser, pos: usize, s: Symbol) -> (r: Result<usize, ParseError>)
    ensures
        r matches Ok(np) ==> np == pos + 1 && np <= p.toks@.len(),
        r is Ok <==> sym(view_tokens(p.toks@), pos as int) == Some(s),
        r matches Err(e) ==> e@ == unexpected_at(view_tokens(p.toks@), p.eof, pos as int, SyntaxError::ExpectedSymbol),
{
    match symbol_at(p, pos) {
        Some(t) => if t == s {
            Ok(pos + 1)
        } else {
            Err(unexpected(p, pos, SyntaxError::ExpectedSymbol))
        },
        None => Err(unexpected(p, pos, SyntaxError::ExpectedSymbol)),
    }
}

/// The slot of `name` in `scope`, registered where new.
fn register_name(ctx: &mut ExecutionContext, name: &Vec<char>, scope: &Vec<char>) -> (r: usize)
    requires
        old(ctx).wf(),
    ensures
        final(ctx).extends(old(ctx)),
        r < final(ctx).slots().len(),
        final(ctx).names().dom().contains((name@, scope@)),
        final(ctx).names()[(name@, scope@)] == r,
        reg(state_of(*old(ctx)), (name@, scope@)) == (r, state_of(*final(ctx))),
{
    let key = VariableKey { name: string_of(name), scope: string_of(scope) };
    let r = ctx.register(key);
    proof {
        if old(ctx).names().dom().contains(key@) {
            assert(r == old(ctx).names()[key@]);
        }
    }
    r
}

/// The operators of a precedence level, lowest first: `and or`; the
/// comparisons; the bitwise operators; `+ -`; `* / %`; `**`.
enum Infix {
    Arith(BinaryOp),
    And,
    Or,
}

fn infix_at(p: &Parser, pos: usize, level: u8) -> (r: Option<Infix>)
    requires
        1 <= level <= 6,
    ensures
        r is Some ==> pos < p.toks.len(),
        r is Some <==> infix_level(view_tokens(p.toks@), pos as int) == level,
        r matches Some(Infix::And) ==> kw(view_tokens(p.toks@), pos as int) == Some(Keyword::And),
        r matches Some(Infix::Or) ==> kw(view_tokens(p.toks@), pos as int) == Some(Keyword::Or),
        r matches Some(Infix::Arith(o)) ==> kw(view_tokens(p.toks@), pos as int) != Some(Keyword::And)
            && kw(view_tokens(p.toks@), pos as int) != Some(Keyword::Or)
            && o == binary_of(sym(view_tokens(p.toks@), pos as int)->Some_0),
{
    if level == 1 {
        return match keyword_at(p, pos) {
            Some(Keyword::And) => Some(Infix::And),
            Some(Keyword::Or) => Some(Infix::Or),
            _ => None,
        };
    }
    let op = match symbol_at(p, pos) {
        Some(s) => match s {
            Symbol::EqEq => if level == 2 { Some(BinaryOp::Equal) } else { None },
            Symbol::NotEq => if level == 2 { Some(BinaryOp::NotEqual) } else { None },
            Symbol::Less => if level == 2 { Some(BinaryOp::LessThan) } else { None },
            Symbol::Greater => if level == 2 { Some(BinaryOp::GreaterThan) } else { None },
            Symbol::LessEq => if level == 2 { Some(BinaryOp::LessThanOrEqual) } else { None },
            Symbol::GreaterEq => if level == 2 { Some(BinaryOp::GreaterThanOrEqual) } else { None },
            Symbol::Caret => if level == 3 { Some(BinaryOp::Xor) } else { None },
            Symbol::Amp => if level == 3 { Some(BinaryOp::BinaryAnd) } else { None },
            Symbol::ShiftLeft => if level == 3 { Some(BinaryOp::ShiftLeft) } else { None },
            Symbol::ShiftRight => if level == 3 { Some(BinaryOp::ShiftRight) } else { None },
            Symbol::Pipe => if level == 3 { Some(BinaryOp::BinaryOr) } else { None },
            Symbol::Plus => if level == 4 { Some(BinaryOp::Add) } else { None },
            Symbol::Minus => if level == 4 { Some(BinaryOp::Sub) } else { None },
            Symbol::Star => if level == 5 { Some(BinaryOp::Mul) } else { None },
            Symbol::Slash => if level == 5 { Some(BinaryOp::Div) } else { None },
            Symbol::Percent => if level == 5 { Some(BinaryOp::Modulo) } else { None },
            Symbol::StarStar => if level == 6 { Some(BinaryOp::Pow) } else { None },
            _ => None,
        },
        None => None,
    };
    match op {
        Some(o) => Some(Infix::Arith(o)),
        None => None,
    }
}

fn builtin_named(name: &Vec<char>) -> (r: Option<Builtin>)
    ensures
        r is Some <==> is_builtin_name(name@) && name@ != seq!['l', 'e', 'n'],
        r is Some ==> r == Some(builtin_of(name@)),
{
    if word_is(name, &['s', 'i', 'n']) {
        Some(Builtin::Sin)
    } else if word_is(name, &['c', 'o', 's']) {
        Some(Builtin::Cos)
    } else if word_is(name, &['t', 'a', 'n']) {
        Some(Builtin::Tan)
    } else if word_is(name, &['a', 's', 'i', 'n']) {
        Some(Builtin::Asin)
    } else if word_is(name, &['a', 'c', 'o', 's']) {
        Some(Builtin::Acos)
    } else if word_is(name, &['a', 't', 'a', 'n']) {
        Some(Builtin::Atan)
    } else if word_is(name, &['a', 'b', 's']) {
        Some(Builtin::Abs)
    } else if word_is(name, &['s', 'q', 'r', 't']) {
        Some(Builtin::Sqrt)
    } else if word_is(name, &['l', 'o', 'g']) {
        Some(Builtin::Log)
    } else {
        None
    }
}

/// The number of the latest function named `name`, if any.
fn find_function(p: &Parser, funcs: &Vec<Function>, name: &Vec<char>) -> (r: Option<usize>)
    requires
        p.fn_names@.len() == funcs@.len(),
    ensures
        r matches Some(id) ==> id < p.fn_names@.len(),
        match r {
            Some(id) => find_fn(table_of(p.fn_names@, funcs@), name@, p.fn_names@.len() as int) == Some(id as int),
            None => find_fn(table_of(p.fn_names@, funcs@), name@, p.fn_names@.len() as int) is None,
        },
{
    let ghost tb = table_of(p.fn_names@, funcs@);
    let mut i: usize = p.fn_names.len();
    while i > 0
        invariant
            i <= p.fn_names@.len(),
            p.fn_names@.len() == funcs@.len(),
            tb == table_of(p.fn_names@, funcs@),
            find_fn(tb, name@, p.fn_names@.len() as int) == find_fn(tb, name@, i as int),
        decreases i,
    {
        i -= 1;
        if word_is(name, p.fn_names[i].as_slice()) {
            return Some(i);
        }
    }
    None
}


/// Whether the number function can be called on any text.
/// Whether the number function can be called on any text and gives one
/// result for each text.
pub open spec fn number_reader_ok<G: Fn(String) -> u32>(number: G) -> bool {
    &&& forall|s: String| #[trigger] number.requires((s,))
    &&& forall|s1: String, s2: String, r1: u32, r2: u32|
        s1@ == s2@ && #[trigger] number.ensures((s1,), r1) && #[trigger] number.ensures((s2,), r2) ==> r1 == r2
}

/// Reads a number literal with the host's number function.
fn read_literal<G: Fn(String) -> u32>(number: &G, text: &Vec<char>) -> (r: u32)
    requires
        number_reader_ok(*number),
    ensures
        r == (literal_semantics(*number))(text@),
{
    let st = string_of(text);
    let bits = number(st);
    proof {
        assert(number.ensures((st,), bits));
        assert(reads_as(*number, text@, bits));
        let r2 = (literal_semantics(*number))(text@);
        assert(reads_as(*number, text@, r2));
        let s2 = choose|s: String| s@ == text@ && #[trigger] number.ensures((s,), r2);
        assert(number.ensures((s2,), r2));
        assert(number.ensures((st,), bits));
    }
    bits
}

/// The guarantees of an expression parser that started at `pos` with the
/// context `before` and ended with `after`.
pub open spec fn parsed(
    r: Result<(Expression, usize), ParseError>,
    pos: usize,
    ntoks: nat,
    before: ExecutionContext,
    after: ExecutionContext,
    funcs: Seq<Function>,
) -> bool {
    &&& after.extends(&before)
    &&& r matches Ok((e, np)) ==> pos < np <= ntoks && wf_in(e, after, funcs)
}

/// Parses the operators of precedence `level` and above, starting at `pos`.
fn parse_binary<G: Fn(String) -> u32>(
    p: &Parser,
    ctx: &mut ExecutionContext,
    scope: &Vec<char>,
    funcs: &Vec<Function>,
    number: &G,
    pos: usize,
    level: u8,
) -> (r: Result<(Expression, usize), ParseError>)
    requires
        old(ctx).wf(),
        number_reader_ok(*number),
        pos <= p.toks@.len(),
        p.fn_names@.len() == funcs@.len(),
        1 <= level <= 6,
    ensures
        parsed(r, pos, p.toks@.len(), *old(ctx), *final(ctx), funcs@),
        expr_outcome(r, rec_binary(view_tokens(p.toks@), env_of(p.fn_names@, funcs@, scope@, literal_semantics(*number), p.eof), pos as int, level as nat, state_of(*old(ctx))), state_of(*final(ctx))),
    decreases p.toks@.len() - pos, 9 - level,
{
    let ghost ctx0 = *ctx;
    let ghost t = view_tokens(p.toks@);
    let ghost env = env_of(p.fn_names@, funcs@, scope@, literal_semantics(*number), p.eof);
    let ghost st0 = state_of(*ctx);
    let first = if level == 6 {
        parse_unary(p, ctx, scope, funcs, number, pos)
    } else {
        parse_binary(p, ctx, scope, funcs, number, pos, level + 1)
    };
    let (mut lhs, mut cur) = match first {
        Ok(x) => x,
        Err(e) => return Err(e),
    };
    loop
        invariant
            ctx.extends(&ctx0),
            ctx0 == *old(ctx),
            number_reader_ok(*number),
            p.fn_names@.len() == funcs@.len(),
            t == view_tokens(p.toks@),
            env == env_of(p.fn_names@, funcs@, scope@, literal_semantics(*number), p.eof),
            st0 == state_of(*old(ctx)),
            1 <= level <= 6,
            pos < cur <= p.toks@.len(),
            wf_in(lhs, *ctx, funcs@),
            rec_binary(t, env, pos as int, level as nat, st0) == rec_binary_tail(t, env, cur as int, level as nat, lhs@, state_of(*ctx)),
        decreases p.toks@.len() - cur,
    {
        let op = match infix_at(p, cur, level) {
            Some(op) => op,
            None => return Ok((lhs, cur)),
        };
        let location = token_span(&p.toks[cur]);
        let ghost ctx1 = *ctx;
        let next = if level == 6 {
            parse_unary(p, ctx, scope, funcs, number, cur + 1)
        } else {
            parse_binary(p, ctx, scope, funcs, number, cur + 1, level + 1)
        };
        let (rhs, np) = match next {
            Ok(x) => x,
            Err(e) => {
                proof {
                    lemma_extends_trans(&ctx0, &ctx1, ctx);
                }
                return Err(e);
            },
        };
        proof {
            lemma_extends_trans(&ctx0, &ctx1, ctx);
            lemma_wf_grow(lhs, ctx1, *ctx, funcs@);
        }
        let op = match op {
            Infix::Arith(o) => ExpressionOp::Binary(o, Box::new(lhs), Box::new(rhs)),
            Infix::And => ExpressionOp::And(Box::new(lhs), Box::new(rhs)),
            Infix::Or => ExpressionOp::Or(Box::new(lhs), Box::new(rhs)),
        };
        lhs = Expression { location, op };
        cur = np;
    }
}

/// Parses prefix `!` and `-`, then a postfix expression.
fn parse_unary<G: Fn(String) -> u32>(
    p: &Parser,
    ctx: &mut ExecutionContext,
    scope: &Vec<char>,
    funcs: &Vec<Function>,
    number: &G,
    pos: usize,
) -> (r: Result<(Expression, usize), ParseError>)
    requires
        old(ctx).wf(),
        number_reader_ok(*number),
        pos <= p.toks@.len(),
        p.fn_names@.len() == funcs@.len(),
    ensures
        parsed(r, pos, p.toks@.len(), *old(ctx), *final(ctx), funcs@),
        expr_outcome(r, rec_unary(view_tokens(p.toks@), env_of(p.fn_names@, funcs@, scope@, literal_semantics(*number), p.eof), pos as int, state_of(*old(ctx))), state_of(*final(ctx))),
    decreases p.toks@.len() - pos, 2nat,
{
    let s = symbol_at(p, pos);
    match s {
        Some(Symbol::Bang) | Some(Symbol::Minus) => {
            let location = token_span(&p.toks[pos]);
            let (inner, np) = match parse_unary(p, ctx, scope, funcs, number, pos + 1) {
                Ok(x) => x,
                Err(e) => return Err(e),
            };
            let op = match s {
                Some(Symbol::Bang) => ExpressionOp::Invert(Box::new(inner)),
                _ => ExpressionOp::Neg(Box::new(inner)),
            };
            Ok((Expression { location, op }, np))
        },
        _ => parse_postfix(p, ctx, scope, funcs, number, pos),
    }
}

/// Parses a primary expression followed by any number of `[index]`.
fn parse_postfix<G: Fn(String) -> u32>(
    p: &Parser,
    ctx: &mut ExecutionContext,
    scope: &Vec<char>,
    funcs: &Vec<Function>,
    number: &G,
    pos: usize,
) -> (r: Result<(Expression, usize), ParseError>)
    requires
        old(ctx).wf(),
        number_reader_ok(*number),
        pos <= p.toks@.len(),
        p.fn_names@.len() == funcs@.len(),
    ensures
        parsed(r, pos, p.toks@.len(), *old(ctx), *final(ctx), funcs@),
        expr_outcome(r, rec_postfix(view_tokens(p.toks@), env_of(p.fn_names@, funcs@, scope@, literal_semantics(*number), p.eof), pos as int, state_of(*old(ctx))), state_of(*final(ctx))),
    decreases p.toks@.len() - pos, 1nat,
{
    let ghost ctx0 = *ctx;
    let ghost t = view_tokens(p.toks@);
    let ghost env = env_of(p.fn_names@, funcs@, scope@, literal_semantics(*number), p.eof);
    let ghost st0 = state_of(*ctx);
    let (mut e, mut cur) = match parse_primary(p, ctx, scope, funcs, number, pos) {
        Ok(x) => x,
        Err(err) => return Err(err),
    };
    loop
        invariant
            ctx.extends(&ctx0),
            ctx0 == *old(ctx),
            number_reader_ok(*number),
            p.fn_names@.len() == funcs@.len(),
            t == view_tokens(p.toks@),
            env == env_of(p.fn_names@, funcs@, scope@, literal_semantics(*number), p.eof),
            st0 == state_of(*old(ctx)),
            pos < cur <= p.toks@.len(),
            wf_in(e, *ctx, funcs@),
            rec_postfix(t, env, pos as int, st0) == rec_postfix_tail(t, env, cur as int, e@, state_of(*ctx)),
        decreases p.toks@.len() - cur,
    {
        match symbol_at(p, cur) {
            Some(Symbol::LBracket) => {},
            _ => return Ok((e, cur)),
        }
        let ghost ctx1 = *ctx;
        let (index, np) = match parse_binary(p, ctx, scope, funcs, number, cur + 1, 1) {
            Ok(x) => x,
            Err(err) => {
                proof {
                    lemma_extends_trans(&ctx0, &ctx1, ctx);
                }
                return Err(err);
            },
        };
        proof {
            lemma_extends_trans(&ctx0, &ctx1, ctx);
            lemma_wf_grow(e, ctx1, *ctx, funcs@);
        }
        let close = match expect_symbol(p, np, Symbol::RBracket) {
            Ok(c) => c,
            Err(err) => return Err(err),
        };
        let location = span(p.toks[cur].start, p.toks[np].end);
        e = Expression { location, op: ExpressionOp::Index(Box::new(e), Box::new(index)) };
        cur = close;
    }
}

/// Parses expressions separated by commas up to a closing parenthesis,
/// starting just after the opening one. Gives them, the position of the
/// closing parenthesis, and whether a comma was seen.
fn parse_items<G: Fn(String) -> u32>(
    p: &Parser,
    ctx: &mut ExecutionContext,
    scope: &Vec<char>,
    funcs: &Vec<Function>,
    number: &G,
    pos: usize,
) -> (r: Result<(Vec<Expression>, usize, bool), ParseError>)
    requires
        old(ctx).wf(),
        number_reader_ok(*number),
        pos <= p.toks@.len(),
        p.fn_names@.len() == funcs@.len(),
    ensures
        final(ctx).extends(old(ctx)),
        r matches Ok((items, close, comma)) ==> {
            &&& pos <= close < p.toks.len()
            &&& exprs_wf(items@, final(ctx).slots().len(), funcs@, funcs@.len())
            &&& (items@.len() == 1 && !comma ==> pos < close)
        },
        match r {
            Ok((items, close, comma)) => rec_items(view_tokens(p.toks@), env_of(p.fn_names@, funcs@, scope@, literal_semantics(*number), p.eof), pos as int, Seq::empty(), false, state_of(*old(ctx)))
                == Ok::<(Seq<ExprView>, int, bool, Reg), ParseFault>((exprs_view(items@), close as int, comma, state_of(*final(ctx)))),
            Err(e) => rec_items(view_tokens(p.toks@), env_of(p.fn_names@, funcs@, scope@, literal_semantics(*number), p.eof), pos as int, Seq::empty(), false, state_of(*old(ctx)))
                == Err::<(Seq<ExprView>, int, bool, Reg), ParseFault>(e@),
        },
    decreases p.toks@.len() - pos, 9nat,
{
    let ghost ctx0 = *ctx;
    let ghost t = view_tokens(p.toks@);
    let ghost env = env_of(p.fn_names@, funcs@, scope@, literal_semantics(*number), p.eof);
    let ghost st0 = state_of(*ctx);
    let mut items: Vec<Expression> = Vec::new();
    let mut cur = pos;
    let mut comma = false;
    loop
        invariant
            ctx.extends(&ctx0),
            ctx0 == *old(ctx),
            number_reader_ok(*number),
            p.fn_names@.len() == funcs@.len(),
            t == view_tokens(p.toks@),
            env == env_of(p.fn_names@, funcs@, scope@, literal_semantics(*number), p.eof),
            st0 == state_of(*old(ctx)),
            pos <= cur <= p.toks@.len(),
            items@.len() > 0 ==> pos < cur && comma,
            forall|k: int| 0 <= k < items@.len() ==> #[trigger] expr_wf(items@[k], ctx.slots().len(), funcs@, funcs@.len()),
            rec_items(t, env, pos as int, Seq::empty(), false, st0) == rec_items(t, env, cur as int, exprs_view(items@), comma, state_of(*ctx)),
        decreases p.toks@.len() - cur,
    {
        match symbol_at(p, cur) {
            Some(Symbol::RParen) => {
                proof {
                    lemma_exprs_wf(items@, ctx.slots().len(), funcs@, funcs@.len());
                }
                return Ok((items, cur, comma));
            },
            _ => {},
        }
        let ghost ctx1 = *ctx;
        let (e, np) = match parse_binary(p, ctx, scope, funcs, number, cur, 1) {
            Ok(x) => x,
            Err(err) => {
                proof {
                    lemma_extends_trans(&ctx0, &ctx1, ctx);
                }
                return Err(err);
            },
        };
        proof {
            lemma_extends_trans(&ctx0, &ctx1, ctx);
            assert forall|k: int| 0 <= k < items@.len() implies #[trigger] expr_wf(items@[k], ctx.slots().len(), funcs@, funcs@.len()) by {
                lemma_wf_grow(items@[k], ctx1, *ctx, funcs@);
            }
        }
        proof {
            lemma_exprs_view_push(items@, e);
        }
        items.push(e);
        match symbol_at(p, np) {
            Some(Symbol::Comma) => {
                comma = true;
                cur = np + 1;
            },
            Some(Symbol::RParen) => {
                proof {
                    lemma_exprs_wf(items@, ctx.slots().len(), funcs@, funcs@.len());
                }
                return Ok((items, np, comma));
            },
            _ => return Err(unexpected(p, np, SyntaxError::ExpectedSymbol)),
        }
    }
}

/// Parses a number, a name, a call, a tuple or a parenthesized expression.
fn parse_primary<G: Fn(String) -> u32>(
    p: &Parser,
    ctx: &mut ExecutionContext,
    scope: &Vec<char>,
    funcs: &Vec<Function>,
    number: &G,
    pos: usize,
) -> (r: Result<(Expression, usize), ParseError>)
    requires
        old(ctx).wf(),
        number_reader_ok(*number),
        pos <= p.toks@.len(),
        p.fn_names@.len() == funcs@.len(),
    ensures
        parsed(r, pos, p.toks@.len(), *old(ctx), *final(ctx), funcs@),
        expr_outcome(r, rec_primary(view_tokens(p.toks@), env_of(p.fn_names@, funcs@, scope@, literal_semantics(*number), p.eof), pos as int, state_of(*old(ctx))), state_of(*final(ctx))),
    decreases p.toks@.len() - pos, 0nat,
{
    if pos >= p.toks.len() {
        return Err(unexpected(p, pos, SyntaxError::ExpectedExpression));
    }
    let location = token_span(&p.toks[pos]);
    match &p.toks[pos].kind {
        TokenKind::Number(text) => {
            let bits = read_literal(number, text);
            Ok((Expression { location, op: ExpressionOp::NumberLiteral(bits) }, pos + 1))
        },
        TokenKind::Ident(name) => {
            match symbol_at(p, pos + 1) {
                Some(Symbol::LParen) => parse_call(p, ctx, scope, funcs, number, pos),
                _ => {
                    let slot = register_name(ctx, name, scope);
                    Ok((Expression { location, op: ExpressionOp::Reference(slot) }, pos + 1))
                },
            }
        },
        TokenKind::Symbol(Symbol::LParen) => {
            let (mut items, close, comma) = match parse_items(p, ctx, scope, funcs, number, pos + 1) {
                Ok(x) => x,
                Err(err) => return Err(err),
            };
            proof {
                lemma_exprs_wf(items@, ctx.slots().len(), funcs@, funcs@.len());
            }
            proof {
                lemma_exprs_view_len(items@);
                if items@.len() == 1 {
                    lemma_exprs_view_index(items@, 0);
                }
            }
            if items.len() == 1 && !comma {
                let inner = items.pop().unwrap();
                proof {
                    assert(wf_in(inner, *ctx, funcs@));
                }
                let location = span(p.toks[pos + 1].start, p.toks[close - 1].end);
                Ok((Expression { location, op: inner.op }, close + 1))
            } else {
                let location = span(p.toks[pos].start, p.toks[close].end);
                Ok((Expression { location, op: ExpressionOp::TupleLiteral(items) }, close + 1))
            }
        },
        _ => Err(unexpected(p, pos, SyntaxError::ExpectedExpression)),
    }
}

/// Parses `name(arguments)` at `pos`: a built-in, or a function defined
/// earlier with as many parameters as there are arguments.
fn parse_call<G: Fn(String) -> u32>(
    p: &Parser,
    ctx: &mut ExecutionContext,
    scope: &Vec<char>,
    funcs: &Vec<Function>,
    number: &G,
    pos: usize,
) -> (r: Result<(Expression, usize), ParseError>)
    requires
        old(ctx).wf(),
        number_reader_ok(*number),
        pos + 1 < p.toks.len(),
        p.fn_names@.len() == funcs@.len(),
    ensures
        parsed(r, pos, p.toks@.len(), *old(ctx), *final(ctx), funcs@),
        expr_outcome(r, rec_call(view_tokens(p.toks@), env_of(p.fn_names@, funcs@, scope@, literal_semantics(*number), p.eof), pos as int, state_of(*old(ctx))), state_of(*final(ctx))),
    decreases p.toks@.len() - (pos + 1), 0nat,
{
    let name = match &p.toks[pos].kind {
        TokenKind::Ident(name) => name,
        _ => return Err(unexpected(p, pos, SyntaxError::ExpectedIdentifier)),
    };
    let (mut args, close, _) = match parse_items(p, ctx, scope, funcs, number, pos + 2) {
        Ok(x) => x,
        Err(err) => return Err(err),
    };
    proof {
        lemma_exprs_wf(args@, ctx.slots().len(), funcs@, funcs@.len());
        lemma_exprs_view_len(args@);
        if args@.len() == 1 {
            lemma_exprs_view_index(args@, 0);
        }
    }
    let location = span(p.toks[pos].start, p.toks[close].end);
    let args_location = span(p.toks[pos + 1].start, p.toks[close].end);
    let is_len = word_is(name, &['l', 'e', 'n']);
    let builtin = builtin_named(name);
    if is_len || builtin.is_some() {
        if args.len() != 1 {
            return Err(ParseError::LanguageError(LanguageError {
                location: Some(args_location),
                error: LanguageErrorType::ArgumentCountMismatch(args.len(), 1),
            }));
        }
        let arg = Box::new(args.pop().unwrap());
        let op = if is_len {
            ExpressionOp::Len(arg)
        } else {
            ExpressionOp::Builtin(builtin.unwrap(), arg)
        };
        return Ok((Expression { location, op }, close + 1));
    }
    match find_function(p, funcs, name) {
        None => Err(ParseError::LanguageError(LanguageError {
            location: Some(token_span(&p.toks[pos])),
            error: LanguageErrorType::Reference(string_of(name)),
        })),
        Some(id) => {
            let expected = funcs[id].arguments.len();
            if expected != args.len() {
                Err(ParseError::LanguageError(LanguageError {
                    location: Some(args_location),
                    error: LanguageErrorType::ArgumentCountMismatch(args.len(), expected),
                }))
            } else {
                proof {
                    lemma_exprs_wf(args@, ctx.slots().len(), funcs@, funcs@.len());
                }
                Ok((Expression { location, op: ExpressionOp::UserCall(id, args) }, close + 1))
            }
        },
    }
}


/// The guarantees of a statement parser.
pub open spec fn parsed_stmt(
    r: Result<(Statement, usize), ParseError>,
    pos: usize,
    ntoks: nat,
    before: ExecutionContext,
    after: ExecutionContext,
    funcs: Seq<Function>,
) -> bool {
    &&& after.extends(&before)
    &&& r matches Ok((st, np)) ==> pos < np <= ntoks && stmt_wf(st, after.slots().len(), funcs, funcs.len())
}

/// Parses statements up to a `}` or the end of the text, which it does not
/// consume.
fn parse_block<G: Fn(String) -> u32>(
    p: &Parser,
    ctx: &mut ExecutionContext,
    scope: &Vec<char>,
    funcs: &Vec<Function>,
    number: &G,
    pos: usize,
) -> (r: Result<(Vec<Statement>, usize), ParseError>)
    requires
        old(ctx).wf(),
        number_reader_ok(*number),
        pos <= p.toks@.len(),
        p.fn_names@.len() == funcs@.len(),
    ensures
        final(ctx).extends(old(ctx)),
        r matches Ok((stmts, np)) ==> pos <= np <= p.toks@.len()
            && block_wf(stmts@, final(ctx).slots().len(), funcs@, funcs@.len()),
        match r {
            Ok((stmts, np)) => rec_block(view_tokens(p.toks@), env_of(p.fn_names@, funcs@, scope@, literal_semantics(*number), p.eof), pos as int, Seq::empty(), state_of(*old(ctx)))
                == Ok::<(Seq<StmtView>, int, Reg), ParseFault>((stmts_view(stmts@), np as int, state_of(*final(ctx)))),
            Err(e) => rec_block(view_tokens(p.toks@), env_of(p.fn_names@, funcs@, scope@, literal_semantics(*number), p.eof), pos as int, Seq::empty(), state_of(*old(ctx)))
                == Err::<(Seq<StmtView>, int, Reg), ParseFault>(e@),
        },
    decreases p.toks@.len() - pos, 2nat,
{
    let ghost ctx0 = *ctx;
    let ghost t = view_tokens(p.toks@);
    let ghost env = env_of(p.fn_names@, funcs@, scope@, literal_semantics(*number), p.eof);
    let ghost st0 = state_of(*ctx);
    let mut stmts: Vec<Statement> = Vec::new();
    let mut cur = pos;
    loop
        invariant
            ctx.extends(&ctx0),
            ctx0 == *old(ctx),
            number_reader_ok(*number),
            p.fn_names@.len() == funcs@.len(),
            t == view_tokens(p.toks@),
            env == env_of(p.fn_names@, funcs@, scope@, literal_semantics(*number), p.eof),
            st0 == state_of(*old(ctx)),
            pos <= cur <= p.toks@.len(),
            forall|k: int| 0 <= k < stmts@.len() ==> #[trigger] stmt_wf(stmts@[k], ctx.slots().len(), funcs@, funcs@.len()),
            rec_block(t, env, pos as int, Seq::empty(), st0) == rec_block(t, env, cur as int, stmts_view(stmts@), state_of(*ctx)),
        decreases p.toks@.len() - cur,
    {
        let at_end = match symbol_at(p, cur) {
            Some(Symbol::RBrace) => true,
            _ => cur >= p.toks.len(),
        };
        if at_end {
            proof {
                lemma_block_wf(stmts@, ctx.slots().len(), funcs@, funcs@.len());
            }
            return Ok((stmts, cur));
        }
        let ghost ctx1 = *ctx;
        let (st, np) = match parse_statement(p, ctx, scope, funcs, number, cur) {
            Ok(x) => x,
            Err(err) => {
                proof {
                    lemma_extends_trans(&ctx0, &ctx1, ctx);
                }
                return Err(err);
            },
        };
        proof {
            lemma_extends_trans(&ctx0, &ctx1, ctx);
            assert forall|k: int| 0 <= k < stmts@.len() implies #[trigger] stmt_wf(stmts@[k], ctx.slots().len(), funcs@, funcs@.len()) by {
                lemma_stmt_wf_mono(stmts@[k], ctx1.slots().len(), ctx.slots().len(), funcs@, funcs@, funcs@.len());
            }
        }
        proof {
            lemma_stmts_view_push(stmts@, st);
        }
        stmts.push(st);
        cur = np;
    }
}

/// Parses an assignment, an `if` or a `return`.
fn parse_statement<G: Fn(String) -> u32>(
    p: &Parser,
    ctx: &mut ExecutionContext,
    scope: &Vec<char>,
    funcs: &Vec<Function>,
    number: &G,
    pos: usize,
) -> (r: Result<(Statement, usize), ParseError>)
    requires
        old(ctx).wf(),
        number_reader_ok(*number),
        pos <= p.toks@.len(),
        p.fn_names@.len() == funcs@.len(),
    ensures
        parsed_stmt(r, pos, p.toks@.len(), *old(ctx), *final(ctx), funcs@),
        stmt_outcome(r, rec_stmt(view_tokens(p.toks@), env_of(p.fn_names@, funcs@, scope@, literal_semantics(*number), p.eof), pos as int, state_of(*old(ctx))), state_of(*final(ctx))),
    decreases p.toks@.len() - pos, 1nat,
{
    if pos >= p.toks.len() {
        return Err(unexpected(p, pos, SyntaxError::ExpectedStatement));
    }
    match &p.toks[pos].kind {
        TokenKind::Keyword(Keyword::If) => match parse_if(p, ctx, scope, funcs, number, pos) {
            Ok((ifs, np)) => Ok((Statement::If(ifs), np)),
            Err(err) => Err(err),
        },
        TokenKind::Keyword(Keyword::Return) => {
            let (e, np) = match parse_binary(p, ctx, scope, funcs, number, pos + 1, 1) {
                Ok(x) => x,
                Err(err) => return Err(err),
            };
            match expect_symbol(p, np, Symbol::Semicolon) {
                Ok(end) => Ok((Statement::Return(e), end)),
                Err(err) => Err(err),
            }
        },
        TokenKind::Ident(name) => {
            let after_eq = match expect_symbol(p, pos + 1, Symbol::Assign) {
                Ok(c) => c,
                Err(err) => return Err(err),
            };
            let ghost ctx0 = *ctx;
            let variable = register_name(ctx, name, scope);
            let ghost ctx1 = *ctx;
            let (value, np) = match parse_binary(p, ctx, scope, funcs, number, after_eq, 1) {
                Ok(x) => x,
                Err(err) => {
                    proof {
                        lemma_extends_trans(&ctx0, &ctx1, ctx);
                    }
                    return Err(err);
                },
            };
            proof {
                lemma_extends_trans(&ctx0, &ctx1, ctx);
            }
            match expect_symbol(p, np, Symbol::Semicolon) {
                Ok(end) => Ok((Statement::Assignment { variable, value }, end)),
                Err(err) => Err(err),
            }
        },
        _ => Err(unexpected(p, pos, SyntaxError::ExpectedStatement)),
    }
}

/// Parses `if (condition) { ... }` with an optional `else if` or `else`.
fn parse_if<G: Fn(String) -> u32>(
    p: &Parser,
    ctx: &mut ExecutionContext,
    scope: &Vec<char>,
    funcs: &Vec<Function>,
    number: &G,
    pos: usize,
) -> (r: Result<(IfStatement, usize), ParseError>)
    requires
        old(ctx).wf(),
        number_reader_ok(*number),
        pos <= p.toks@.len(),
        p.fn_names@.len() == funcs@.len(),
    ensures
        final(ctx).extends(old(ctx)),
        r matches Ok((ifs, np)) ==> pos < np <= p.toks@.len()
            && if_wf(ifs, final(ctx).slots().len(), funcs@, funcs@.len()),
        if_outcome(r, rec_if(view_tokens(p.toks@), env_of(p.fn_names@, funcs@, scope@, literal_semantics(*number), p.eof), pos as int, state_of(*old(ctx))), state_of(*final(ctx))),
    decreases p.toks@.len() - pos, 0nat,
{
    let ghost ctx0 = *ctx;
    let ghost n = funcs@.len();
    match keyword_at(p, pos) {
        Some(Keyword::If) => {},
        _ => return Err(unexpected(p, pos, SyntaxError::ExpectedStatement)),
    }
    let cur = match expect_symbol(p, pos + 1, Symbol::LParen) {
        Ok(c) => c,
        Err(err) => return Err(err),
    };
    let (condition, np) = match parse_binary(p, ctx, scope, funcs, number, cur, 1) {
        Ok(x) => x,
        Err(err) => return Err(err),
    };
    let ghost ctx1 = *ctx;
    let cur = match expect_symbol(p, np, Symbol::RParen) {
        Ok(c) => c,
        Err(err) => return Err(err),
    };
    let cur = match expect_symbol(p, cur, Symbol::LBrace) {
        Ok(c) => c,
        Err(err) => return Err(err),
    };
    let (if_branch, np) = match parse_block(p, ctx, scope, funcs, number, cur) {
        Ok(x) => x,
        Err(err) => {
            proof {
                lemma_extends_trans(&ctx0, &ctx1, ctx);
            }
            return Err(err);
        },
    };
    let ghost ctx2 = *ctx;
    proof {
        lemma_extends_trans(&ctx0, &ctx1, ctx);
    }
    let cur = match expect_symbol(p, np, Symbol::RBrace) {
        Ok(c) => c,
        Err(err) => return Err(err),
    };
    let (else_branch, end) = match keyword_at(p, cur) {
        Some(Keyword::Else) => {
            match keyword_at(p, cur + 1) {
                Some(Keyword::If) => {
                    match parse_if(p, ctx, scope, funcs, number, cur + 1) {
                        Ok((b, np)) => (ElseBranch::IfStatement(Box::new(b)), np),
                        Err(err) => {
                            proof {
                                lemma_extends_trans(&ctx0, &ctx2, ctx);
                            }
                            return Err(err);
                        },
                    }
                },
                _ => {
                    let c = match expect_symbol(p, cur + 1, Symbol::LBrace) {
                        Ok(c) => c,
                        Err(err) => return Err(err),
                    };
                    let (block, np) = match parse_block(p, ctx, scope, funcs, number, c) {
                        Ok(x) => x,
                        Err(err) => {
                            proof {
                                lemma_extends_trans(&ctx0, &ctx2, ctx);
                            }
                            return Err(err);
                        },
                    };
                    match expect_symbol(p, np, Symbol::RBrace) {
                        Ok(c) => (ElseBranch::ElseStatement(block), c),
                        Err(err) => {
                            proof {
                                lemma_extends_trans(&ctx0, &ctx2, ctx);
                            }
                            return Err(err);
                        },
                    }
                },
            }
        },
        _ => (ElseBranch::Absent, cur),
    };
    proof {
        lemma_extends_trans(&ctx0, &ctx2, ctx);
        lemma_expr_wf_mono(condition, ctx1.slots().len(), ctx.slots().len(), funcs@, funcs@, n as nat);
        lemma_block_wf_mono(if_branch@, ctx2.slots().len(), ctx.slots().len(), funcs@, funcs@, n as nat);
    }
    Ok((IfStatement { condition, if_branch, else_branch }, end))
}

fn copy_chars(v: &Vec<char>) -> (r: Vec<char>)
    ensures
        r@ == v@,
{
    let mut r: Vec<char> = Vec::new();
    let mut i: usize = 0;
    while i < v.len()
        invariant
            i <= v@.len(),
            r@ == v@.subrange(0, i as int),
        decreases v@.len() - i,
    {
        r.push(v[i]);
        i += 1;
    }
    proof {
        assert(v@.subrange(0, v@.len() as int) =~= v@);
    }
    r
}

/// Parses a parameter list `(a, b, ...)` at `pos`, registering each
/// parameter in the scope of the function `scope`.
fn parse_params(p: &Parser, ctx: &mut ExecutionContext, scope: &Vec<char>, pos: usize) -> (r: Result<(Vec<usize>, usize), ParseError>)
    requires
        old(ctx).wf(),
        pos <= p.toks@.len(),
    ensures
        final(ctx).extends(old(ctx)),
        r matches Ok((params, np)) ==> {
            &&& pos < np <= p.toks@.len()
            &&& forall|j: int| 0 <= j < params@.len() ==> #[trigger] params@[j] < final(ctx).slots().len()
        },
        match r {
            Ok((params, np)) => rec_param_list(view_tokens(p.toks@), p.eof, scope@, pos as int, state_of(*old(ctx)))
                == Ok::<(Seq<usize>, int, Reg), ParseFault>((params@, np as int, state_of(*final(ctx)))),
            Err(e) => rec_param_list(view_tokens(p.toks@), p.eof, scope@, pos as int, state_of(*old(ctx)))
                == Err::<(Seq<usize>, int, Reg), ParseFault>(e@),
        },
{
    let ghost ctx0 = *ctx;
    let ghost t = view_tokens(p.toks@);
    let ghost st0 = state_of(*ctx);
    let mut cur = match expect_symbol(p, pos, Symbol::LParen) {
        Ok(c) => c,
        Err(err) => return Err(err),
    };
    let mut params: Vec<usize> = Vec::new();
    match symbol_at(p, cur) {
        Some(Symbol::RParen) => return Ok((params, cur + 1)),
        _ => {},
    }
    loop
        invariant
            ctx.extends(&ctx0),
            ctx0 == *old(ctx),
            t == view_tokens(p.toks@),
            pos < cur <= p.toks@.len(),
            forall|j: int| 0 <= j < params@.len() ==> #[trigger] params@[j] < ctx.slots().len(),
            st0 == state_of(*old(ctx)),
            rec_param_list(t, p.eof, scope@, pos as int, st0) == rec_params(t, p.eof, scope@, cur as int, params@, state_of(*ctx)),
        decreases p.toks@.len() - cur,
    {
        if cur >= p.toks.len() {
            return Err(unexpected(p, cur, SyntaxError::ExpectedIdentifier));
        }
        let slot = match &p.toks[cur].kind {
            TokenKind::Ident(name) => {
                let ghost ctx1 = *ctx;
                let slot = register_name(ctx, name, scope);
                proof {
                    lemma_extends_trans(&ctx0, &ctx1, ctx);
                }
                slot
            },
            _ => return Err(unexpected(p, cur, SyntaxError::ExpectedIdentifier)),
        };
        params.push(slot);
        match symbol_at(p, cur + 1) {
            Some(Symbol::Comma) => {
                cur = cur + 2;
            },
            Some(Symbol::RParen) => return Ok((params, cur + 2)),
            _ => return Err(unexpected(p, cur + 1, SyntaxError::ExpectedSymbol)),
        }
    }
}

/// Parses a program from its tokens: function definitions
/// `def name(params) { ... }`, then top-level statements, up to the end.
/// Succeeds exactly where the tokens form a program. Every name read is
/// registered in `execution_context`: parameters and the variables of a
/// function in the scope named after it, the others in the top-level scope.
/// `number` gives the bits of the single-precision number nearest to the
/// text of a number literal; `eof` is the position just after the text.
pub fn parse_tokens<G: Fn(String) -> u32>(
    execution_context: &mut ExecutionContext,
    toks: Vec<Token>,
    eof: Position,
    number: &G,
) -> (r: Result<ParsedLanguage, ParseError>)
    requires
        old(execution_context).wf(),
        number_reader_ok(*number),
    ensures
        final(execution_context).extends(old(execution_context)),
        r matches Ok(program) ==> program.wf(final(execution_context).slots().len()),
        match r {
            Ok(program) => program_of(view_tokens(toks@), literal_semantics(*number), eof, state_of(*old(execution_context)))
                == Ok::<(Seq<FunctionView>, Seq<StmtView>, Reg), ParseFault>(
                    (functions_view(program.functions@), stmts_view(program.top_level@), state_of(*final(execution_context))),
                ),
            Err(e) => program_of(view_tokens(toks@), literal_semantics(*number), eof, state_of(*old(execution_context)))
                == Err::<(Seq<FunctionView>, Seq<StmtView>, Reg), ParseFault>(e@),
        },
{
    let ghost ctx0 = *execution_context;
    let ghost t = view_tokens(toks@);
    let ghost st0 = state_of(*execution_context);
    let mut p = Parser { toks, eof, fn_names: Vec::new() };
    let mut functions: Vec<Function> = Vec::new();
    let mut cur: usize = 0;
    proof {
        assert(table_of(p.fn_names@, functions@) =~= Seq::<(Seq<char>, nat)>::empty());
        assert(functions_view(functions@) =~= Seq::<FunctionView>::empty());
    }
    loop
        invariant
            execution_context.extends(&ctx0),
            ctx0 == *old(execution_context),
            number_reader_ok(*number),
            p.fn_names@.len() == functions@.len(),
            t == view_tokens(p.toks@),
            t == view_tokens(toks@),
            cur <= p.toks@.len(),
            functions_wf(functions@, execution_context.slots().len()),
            p.eof == eof,
            program_of(t, literal_semantics(*number), eof, st0) == rec_program(
                t,
                literal_semantics(*number),
                eof,
                cur as int,
                table_of(p.fn_names@, functions@),
                functions_view(functions@),
                state_of(*execution_context),
            ),
            st0 == state_of(*old(execution_context)),
        ensures
            kw(t, cur as int) != Some(Keyword::Def),
        decreases p.toks@.len() - cur,
    {
        match keyword_at(&p, cur) {
            Some(Keyword::Def) => {},
            _ => break,
        }
        if cur + 1 >= p.toks.len() {
            return Err(unexpected(&p, cur + 1, SyntaxError::ExpectedIdentifier));
        }
        let name = match &p.toks[cur + 1].kind {
            TokenKind::Ident(name) => copy_chars(name),
            _ => return Err(unexpected(&p, cur + 1, SyntaxError::ExpectedIdentifier)),
        };
        let ghost ctx1 = *execution_context;
        let (arguments, np) = match parse_params(&p, execution_context, &name, cur + 2) {
            Ok(x) => x,
            Err(err) => {
                proof {
                    lemma_extends_trans(&ctx0, &ctx1, execution_context);
                }
                return Err(err);
            },
        };
        proof {
            lemma_extends_trans(&ctx0, &ctx1, execution_context);
        }
        let body_start = match expect_symbol(&p, np, Symbol::LBrace) {
            Ok(c) => c,
            Err(err) => return Err(err),
        };
        let ghost ctx2 = *execution_context;
        let (contents, bp) = match parse_block(&p, execution_context, &name, &functions, number, body_start) {
            Ok(x) => x,
            Err(err) => {
                proof {
                    lemma_extends_trans(&ctx0, &ctx2, execution_context);
                }
                return Err(err);
            },
        };
        proof {
            lemma_extends_trans(&ctx0, &ctx2, execution_context);
        }
        let end = match expect_symbol(&p, bp, Symbol::RBrace) {
            Ok(c) => c,
            Err(err) => return Err(err),
        };
        let f = Function { arguments, contents };
        let ghost old_table = table_of(p.fn_names@, functions@);
        let ghost old_views = functions_view(functions@);
        proof {
            lemma_functions_wf_grow(functions@, ctx1.slots().len(), execution_context.slots().len());
            lemma_functions_wf_push(functions@, f, execution_context.slots().len() as nat);
        }
        p.fn_names.push(name);
        functions.push(f);
        proof {
            assert(table_of(p.fn_names@, functions@) =~= old_table.push((t[cur + 1].kind->Ident_0, f.arguments@.len())));
            assert(functions_view(functions@) =~= old_views.push(f@));
        }
        cur = end;
    }
    let ghost ctx3 = *execution_context;
    let top_scope: Vec<char> = Vec::new();
    let (top_level, np) = match parse_block(&p, execution_context, &top_scope, &functions, number, cur) {
        Ok(x) => x,
        Err(err) => {
            proof {
                lemma_extends_trans(&ctx0, &ctx3, execution_context);
            }
            return Err(err);
        },
    };
    proof {
        lemma_extends_trans(&ctx0, &ctx3, execution_context);
        lemma_functions_wf_grow(functions@, ctx3.slots().len(), execution_context.slots().len());
    }
    if np < p.toks.len() {
        return Err(unexpected(&p, np, SyntaxError::ExpectedStatement));
    }
    Ok(ParsedLanguage { top_level, functions })
}

/// Parses a program's text: splits it into tokens, then parses them as
/// [`parse_tokens`] does.
pub fn parse<G: Fn(String) -> u32>(
    execution_context: &mut ExecutionContext,
    code: &str,
    number: &G,
) -> (r: Result<ParsedLanguage, ParseError>)
    requires
        old(execution_context).wf(),
        number_reader_ok(*number),
    ensures
        final(execution_context).extends(old(execution_context)),
        r matches Ok(program) ==> program.wf(final(execution_context).slots().len()),
        code@.len() < usize::MAX ==> match lex_all(code@) {
            Ok((ts, eof)) => match r {
                Ok(program) => program_of(ts, literal_semantics(*number), eof, state_of(*old(execution_context)))
                    == Ok::<(Seq<FunctionView>, Seq<StmtView>, Reg), ParseFault>(
                        (functions_view(program.functions@), stmts_view(program.top_level@), state_of(*final(execution_context))),
                    ),
                Err(e) => program_of(ts, literal_semantics(*number), eof, state_of(*old(execution_context)))
                    == Err::<(Seq<FunctionView>, Seq<StmtView>, Reg), ParseFault>(e@),
            },
            Err(q) => r == Err::<ParsedLanguage, ParseError>(ParseError::Syntax(q, SyntaxError::UnexpectedCharacter)),
        },
{
    let src = chars_of(code);
    if src.len() == usize::MAX {
        // No text of this length fits in memory.
        proof {
            lemma_extends_refl(execution_context);
        }
        return Err(ParseError::Syntax(Position { line: 1, column: 1 }, SyntaxError::UnexpectedEnd));
    }
    match tokenize(&src) {
        Ok((toks, eof)) => parse_tokens(execution_context, toks, eof, number),
        Err(err) => {
            proof {
                lemma_extends_refl(execution_context);
            }
            Err(err)
        },
    }
}

} // verus!
