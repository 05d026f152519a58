use vstd::prelude::*;
use crate::ast::{BinaryOp, Builtin, ElseView, ExprView, FunctionView, IfView, OpView, StmtView};
use crate::context::{names_after, slot_for, KeyModel};
use crate::error::{ErrorKind, ErrorModel, Location, ParseFault, Position, SyntaxError};
use crate::lexer::{Keyword, KindView, Symbol, TokenView};

verus! {

/// The user functions visible to a piece of code: the name and the number
/// of parameters of each, numbered by position.
pub type FnTable = Seq<(Seq<char>, nat)>;

/// The symbol token at `i`, if there is one.
pub open spec fn sym(t: Seq<TokenView>, i: int) -> Option<Symbol> {
    if 0 <= i < t.len() {
        match t[i].kind {
            KindView::Symbol(s) => Some(s),
            _ => None,
        }
    } else {
        None
    }
}

/// The keyword token at `i`, if there is one.
pub open spec fn kw(t: Seq<TokenView>, i: int) -> Option<Keyword> {
    if 0 <= i < t.len() {
        match t[i].kind {
            KindView::Keyword(k) => Some(k),
            _ => None,
        }
    } else {
        None
    }
}

/// The precedence level of the binary operator at `i` (lowest is 1), or 0.
pub open spec fn infix_level(t: Seq<TokenView>, i: int) -> nat {
    match kw(t, i) {
        Some(Keyword::And) | Some(Keyword::Or) => 1,
        _ => match sym(t, i) {
            Some(Symbol::EqEq) | Some(Symbol::NotEq) | Some(Symbol::Less) | Some(Symbol::Greater)
            | Some(Symbol::LessEq) | Some(Symbol::GreaterEq) => 2,
            Some(Symbol::Caret) | Some(Symbol::Amp) | Some(Symbol::ShiftLeft) | Some(Symbol::ShiftRight)
            | Some(Symbol::Pipe) => 3,
            Some(Symbol::Plus) | Some(Symbol::Minus) => 4,
            Some(Symbol::Star) | Some(Symbol::Slash) | Some(Symbol::Percent) => 5,
            Some(Symbol::StarStar) => 6,
            _ => 0,
        },
    }
}

/// The names of the built-in functions, each of one argument.
pub open spec fn is_builtin_name(n: Seq<char>) -> bool {
    ||| n == seq!['s', 'i', 'n']
    ||| n == seq!['c', 'o', 's']
    ||| n == seq!['t', 'a', 'n']
    ||| n == seq!['a', 's', 'i', 'n']
    ||| n == seq!['a', 'c', 'o', 's']
    ||| n == seq!['a', 't', 'a', 'n']
    ||| n == seq!['a', 'b', 's']
    ||| n == seq!['s', 'q', 'r', 't']
    ||| n == seq!['l', 'o', 'g']
    ||| n == seq!['l', 'e', 'n']
}

/// The number of the last function named `n` among the first `k`.
pub open spec fn find_fn(tb: FnTable, n: Seq<char>, k: int) -> Option<int>
    decreases k,
{
    if k <= 0 || k > tb.len() {
        None
    } else if tb[k - 1].0 == n {
        Some(k - 1)
    } else {
        find_fn(tb, n, k - 1)
    }
}

/// What the parser reads besides the tokens: the visible functions, the
/// scope that names are registered in, the bits of each literal's text, and
/// the position just after the text.
pub struct Env {
    pub tb: FnTable,
    pub scope: Seq<char>,
    pub num: spec_fn(Seq<char>) -> u32,
    pub eof: Position,
}

/// The variables registered so far and the number of slots.
pub type Reg = (Map<KeyModel, usize>, nat);

/// Registers `key`: its slot, and the registrations afterwards.
pub open spec fn reg(st: Reg, key: KeyModel) -> (usize, Reg) {
    let slot = slot_for(st.0, st.1, key);
    let n = if st.0.dom().contains(key) { st.1 } else { st.1 + 1 };
    (slot, (names_after(st.0, st.1, key), n))
}

/// The source covered by the tokens `a` through `b`.
pub open spec fn loc(t: Seq<TokenView>, a: int, b: int) -> Location {
    Location {
        start_line: t[a].start.line,
        start_column: t[a].start.column,
        end_line: t[b].end.line,
        end_column: t[b].end.column,
    }
}

/// A syntax error at the token `pos`, or at the end of the text.
pub open spec fn unexpected_at(t: Seq<TokenView>, eof: Position, pos: int, what: SyntaxError) -> ParseFault {
    if 0 <= pos < t.len() {
        ParseFault::Syntax(t[pos].start, what)
    } else {
        ParseFault::Syntax(eof, SyntaxError::UnexpectedEnd)
    }
}

/// A language error at `location`.
pub open spec fn language_fault(location: Location, kind: ErrorKind) -> ParseFault {
    ParseFault::Language(ErrorModel { location: Some(location), kind })
}

/// The binary operator that a symbol stands for.
pub open spec fn binary_of(s: Symbol) -> BinaryOp {
    match s {
        Symbol::EqEq => BinaryOp::Equal,
        Symbol::NotEq => BinaryOp::NotEqual,
        Symbol::Less => BinaryOp::LessThan,
        Symbol::Greater => BinaryOp::GreaterThan,
        Symbol::LessEq => BinaryOp::LessThanOrEqual,
        Symbol::GreaterEq => BinaryOp::GreaterThanOrEqual,
        Symbol::Caret => BinaryOp::Xor,
        Symbol::Amp => BinaryOp::BinaryAnd,
        Symbol::ShiftLeft => BinaryOp::ShiftLeft,
        Symbol::ShiftRight => BinaryOp::ShiftRight,
        Symbol::Pipe => BinaryOp::BinaryOr,
        Symbol::Plus => BinaryOp::Add,
        Symbol::Minus => BinaryOp::Sub,
        Symbol::Star => BinaryOp::Mul,
        Symbol::Slash => BinaryOp::Div,
        Symbol::Percent => BinaryOp::Modulo,
        _ => BinaryOp::Pow,
    }
}

/// The expression that the operator at `cur` makes of `lhs` and `rhs`.
pub open spec fn combine(t: Seq<TokenView>, cur: int, lhs: ExprView, rhs: ExprView) -> ExprView {
    let op = if kw(t, cur) == Some(Keyword::And) {
        OpView::And(Box::new(lhs), Box::new(rhs))
    } else if kw(t, cur) == Some(Keyword::Or) {
        OpView::Or(Box::new(lhs), Box::new(rhs))
    } else {
        OpView::Binary(binary_of(sym(t, cur)->Some_0), Box::new(lhs), Box::new(rhs))
    };
    ExprView { location: loc(t, cur, cur), op }
}

/// The built-in named `n` (other than `len`).
pub open spec fn builtin_of(n: Seq<char>) -> Builtin {
    if n == seq!['s', 'i', 'n'] {
        Builtin::Sin
    } else if n == seq!['c', 'o', 's'] {
        Builtin::Cos
    } else if n == seq!['t', 'a', 'n'] {
        Builtin::Tan
    } else if n == seq!['a', 's', 'i', 'n'] {
        Builtin::Asin
    } else if n == seq!['a', 'c', 'o', 's'] {
        Builtin::Acos
    } else if n == seq!['a', 't', 'a', 'n'] {
        Builtin::Atan
    } else if n == seq!['a', 'b', 's'] {
        Builtin::Abs
    } else if n == seq!['s', 'q', 'r', 't'] {
        Builtin::Sqrt
    } else {
        Builtin::Log
    }
}

/// An expression parse: the expression, where it ends, and the
/// registrations afterwards; or the first error.
pub type ExprParse = Result<(ExprView, int, Reg), ParseFault>;

/// The expression of operators of precedence `level` and above that starts
/// at `pos`.
pub open spec fn rec_binary(t: Seq<TokenView>, env: Env, pos: int, level: nat, st: Reg) -> ExprParse
    decreases t.len() - pos, 9 - level, 0nat,
{
    if pos < 0 || pos > t.len() || level < 1 || level > 6 {
        Err(unexpected_at(t, env.eof, pos, SyntaxError::ExpectedExpression))
    } else {
        let first = if level == 6 { rec_unary(t, env, pos, st) } else { rec_binary(t, env, pos, level + 1, st) };
        match first {
            Ok((e1, p1, st1)) => if pos < p1 <= t.len() {
                rec_binary_tail(t, env, p1, level, e1, st1)
            } else {
                Err(unexpected_at(t, env.eof, pos, SyntaxError::ExpectedExpression))
            },
            Err(f) => Err(f),
        }
    }
}

/// The rest of a left-associative chain of operators of precedence `level`
/// from `cur`, after the operand `lhs`.
pub open spec fn rec_binary_tail(t: Seq<TokenView>, env: Env, cur: int, level: nat, lhs: ExprView, st: Reg) -> ExprParse
    decreases t.len() - cur, 0nat, 0nat,
{
    if cur < 0 || cur > t.len() || level < 1 || level > 6 {
        Err(unexpected_at(t, env.eof, cur, SyntaxError::ExpectedExpression))
    } else if infix_level(t, cur) == level {
        let next = if level == 6 { rec_unary(t, env, cur + 1, st) } else { rec_binary(t, env, cur + 1, level + 1, st) };
        match next {
            Ok((rhs, np, st1)) => if cur < np <= t.len() {
                rec_binary_tail(t, env, np, level, combine(t, cur, lhs, rhs), st1)
            } else {
                Err(unexpected_at(t, env.eof, cur, SyntaxError::ExpectedExpression))
            },
            Err(f) => Err(f),
        }
    } else {
        Ok((lhs, cur, st))
    }
}

/// Prefix `!` and `-`, then a postfix expression.
pub open spec fn rec_unary(t: Seq<TokenView>, env: Env, pos: int, st: Reg) -> ExprParse
    decreases t.len() - pos, 2nat, 0nat,
{
    if pos < 0 || pos > t.len() {
        Err(unexpected_at(t, env.eof, pos, SyntaxError::ExpectedExpression))
    } else if sym(t, pos) == Some(Symbol::Bang) || sym(t, pos) == Some(Symbol::Minus) {
        match rec_unary(t, env, pos + 1, st) {
            Ok((e, np, st1)) => {
                let op = if sym(t, pos) == Some(Symbol::Bang) {
                    OpView::Invert(Box::new(e))
                } else {
                    OpView::Neg(Box::new(e))
                };
                Ok((ExprView { location: loc(t, pos, pos), op }, np, st1))
            },
            Err(f) => Err(f),
        }
    } else {
        rec_postfix(t, env, pos, st)
    }
}

/// A primary expression followed by any number of `[index]`.
pub open spec fn rec_postfix(t: Seq<TokenView>, env: Env, pos: int, st: Reg) -> ExprParse
    decreases t.len() - pos, 1nat, 0nat,
{
    if pos < 0 || pos > t.len() {
        Err(unexpected_at(t, env.eof, pos, SyntaxError::ExpectedExpression))
    } else {
        match rec_primary(t, env, pos, st) {
            Ok((e1, p1, st1)) => if pos < p1 <= t.len() {
                rec_postfix_tail(t, env, p1, e1, st1)
            } else {
                Err(unexpected_at(t, env.eof, pos, SyntaxError::ExpectedExpression))
            },
            Err(f) => Err(f),
        }
    }
}

pub open spec fn rec_postfix_tail(t: Seq<TokenView>, env: Env, cur: int, e: ExprView, st: Reg) -> ExprParse
    decreases t.len() - cur, 0nat, 0nat,
{
    if cur < 0 || cur > t.len() {
        Err(unexpected_at(t, env.eof, cur, SyntaxError::ExpectedExpression))
    } else if sym(t, cur) == Some(Symbol::LBracket) {
        match rec_binary(t, env, cur + 1, 1, st) {
            Ok((ix, np, st1)) => if cur < np {
                if sym(t, np) == Some(Symbol::RBracket) {
                    rec_postfix_tail(
                        t,
                        env,
                        np + 1,
                        ExprView { location: loc(t, cur, np), op: OpView::Index(Box::new(e), Box::new(ix)) },
                        st1,
                    )
                } else {
                    Err(unexpected_at(t, env.eof, np, SyntaxError::ExpectedSymbol))
                }
            } else {
                Err(unexpected_at(t, env.eof, cur, SyntaxError::ExpectedExpression))
            },
            Err(f) => Err(f),
        }
    } else {
        Ok((e, cur, st))
    }
}

/// Expressions separated by commas, up to a `)`, from `cur`, after the
/// expressions `acc`, with `comma` telling whether a comma came yet. Gives
/// the expressions, the position of the `)`, whether a comma came, and the
/// registrations afterwards.
pub open spec fn rec_items(t: Seq<TokenView>, env: Env, cur: int, acc: Seq<ExprView>, comma: bool, st: Reg) -> Result<(Seq<ExprView>, int, bool, Reg), ParseFault>
    decreases t.len() - cur, 9nat, 0nat,
{
    if cur < 0 || cur > t.len() {
        Err(unexpected_at(t, env.eof, cur, SyntaxError::ExpectedExpression))
    } else if sym(t, cur) == Some(Symbol::RParen) {
        Ok((acc, cur, comma, st))
    } else {
        match rec_binary(t, env, cur, 1, st) {
            Ok((e, np, st1)) => if cur < np {
                if sym(t, np) == Some(Symbol::Comma) {
                    rec_items(t, env, np + 1, acc.push(e), true, st1)
                } else if sym(t, np) == Some(Symbol::RParen) {
                    Ok((acc.push(e), np, comma, st1))
                } else {
                    Err(unexpected_at(t, env.eof, np, SyntaxError::ExpectedSymbol))
                }
            } else {
                Err(unexpected_at(t, env.eof, cur, SyntaxError::ExpectedExpression))
            },
            Err(f) => Err(f),
        }
    }
}

/// A number, a name, a call, a tuple, or a parenthesized expression (whose
/// location is that of its inside).
pub open spec fn rec_primary(t: Seq<TokenView>, env: Env, pos: int, st: Reg) -> ExprParse
    decreases t.len() - pos, 0nat, 0nat,
{
    if pos < 0 || pos >= t.len() {
        Err(unexpected_at(t, env.eof, pos, SyntaxError::ExpectedExpression))
    } else {
        match t[pos].kind {
            KindView::Number(text) => Ok((
                ExprView { location: loc(t, pos, pos), op: OpView::NumberLiteral((env.num)(text)) },
                pos + 1,
                st,
            )),
            KindView::Ident(name) => if sym(t, pos + 1) == Some(Symbol::LParen) {
                rec_call(t, env, pos, st)
            } else {
                let (slot, st1) = reg(st, (name, env.scope));
                Ok((ExprView { location: loc(t, pos, pos), op: OpView::Reference(slot) }, pos + 1, st1))
            },
            KindView::Symbol(Symbol::LParen) => match rec_items(t, env, pos + 1, Seq::empty(), false, st) {
                Ok((items, close, comma, st1)) => if items.len() == 1 && !comma {
                    Ok((ExprView { location: loc(t, pos + 1, close - 1), op: items[0].op }, close + 1, st1))
                } else {
                    Ok((ExprView { location: loc(t, pos, close), op: OpView::TupleLiteral(items) }, close + 1, st1))
                },
                Err(f) => Err(f),
            },
            _ => Err(unexpected_at(t, env.eof, pos, SyntaxError::ExpectedExpression)),
        }
    }
}

/// A call `name(arguments)` at `pos`: of a built-in with one argument, or
/// of the last visible function of that name, with as many arguments as it
/// has parameters. An unknown name is a reference error at the name; a
/// wrong number of arguments is an error at the argument list.
pub open spec fn rec_call(t: Seq<TokenView>, env: Env, pos: int, st: Reg) -> ExprParse
    decreases t.len() - (pos + 1), 0nat, 0nat,
{
    if pos < 0 || pos + 1 >= t.len() {
        Err(unexpected_at(t, env.eof, pos, SyntaxError::ExpectedIdentifier))
    } else {
        match t[pos].kind {
            KindView::Ident(name) => match rec_items(t, env, pos + 2, Seq::empty(), false, st) {
                Ok((args, close, _, st1)) => {
                    let location = loc(t, pos, close);
                    let args_location = loc(t, pos + 1, close);
                    if is_builtin_name(name) {
                        if args.len() == 1 {
                            let op = if name == seq!['l', 'e', 'n'] {
                                OpView::Len(Box::new(args[0]))
                            } else {
                                OpView::Builtin(builtin_of(name), Box::new(args[0]))
                            };
                            Ok((ExprView { location, op }, close + 1, st1))
                        } else {
                            Err(language_fault(args_location, ErrorKind::ArgumentCountMismatch(args.len() as usize, 1)))
                        }
                    } else {
                        match find_fn(env.tb, name, env.tb.len() as int) {
                            Some(id) => if env.tb[id].1 == args.len() {
                                Ok((ExprView { location, op: OpView::UserCall(id as usize, args) }, close + 1, st1))
                            } else {
                                Err(language_fault(
                                    args_location,
                                    ErrorKind::ArgumentCountMismatch(args.len() as usize, env.tb[id].1 as usize),
                                ))
                            },
                            None => Err(language_fault(loc(t, pos, pos), ErrorKind::Reference(name))),
                        }
                    }
                },
                Err(f) => Err(f),
            },
            _ => Err(unexpected_at(t, env.eof, pos, SyntaxError::ExpectedIdentifier)),
        }
    }
}

/// Statements from `cur` up to a `}` or the end of the tokens, after the
/// statements `acc`; gives them, where they end, and the registrations.
pub open spec fn rec_block(t: Seq<TokenView>, env: Env, cur: int, acc: Seq<StmtView>, st: Reg) -> Result<(Seq<StmtView>, int, Reg), ParseFault>
    decreases t.len() - cur, 2nat,
{
    if cur < 0 || cur > t.len() {
        Err(unexpected_at(t, env.eof, cur, SyntaxError::ExpectedStatement))
    } else if sym(t, cur) == Some(Symbol::RBrace) || cur >= t.len() {
        Ok((acc, cur, st))
    } else {
        match rec_stmt(t, env, cur, st) {
            Ok((s1, np, st1)) => if cur < np <= t.len() {
                rec_block(t, env, np, acc.push(s1), st1)
            } else {
                Err(unexpected_at(t, env.eof, cur, SyntaxError::ExpectedStatement))
            },
            Err(f) => Err(f),
        }
    }
}

/// An assignment `name = expression;` (the name registered first), an
/// `if`, or `return expression;`.
pub open spec fn rec_stmt(t: Seq<TokenView>, env: Env, pos: int, st: Reg) -> Result<(StmtView, int, Reg), ParseFault>
    decreases t.len() - pos, 1nat,
{
    if pos < 0 || pos >= t.len() {
        Err(unexpected_at(t, env.eof, pos, SyntaxError::ExpectedStatement))
    } else {
        match t[pos].kind {
            KindView::Keyword(Keyword::If) => match rec_if(t, env, pos, st) {
                Ok((ifv, np, st1)) => Ok((StmtView::If(ifv), np, st1)),
                Err(f) => Err(f),
            },
            KindView::Keyword(Keyword::Return) => match rec_binary(t, env, pos + 1, 1, st) {
                Ok((e, np, st1)) => if sym(t, np) == Some(Symbol::Semicolon) {
                    Ok((StmtView::Return(e), np + 1, st1))
                } else {
                    Err(unexpected_at(t, env.eof, np, SyntaxError::ExpectedSymbol))
                },
                Err(f) => Err(f),
            },
            KindView::Ident(name) => if sym(t, pos + 1) == Some(Symbol::Assign) {
                let (slot, st1) = reg(st, (name, env.scope));
                match rec_binary(t, env, pos + 2, 1, st1) {
                    Ok((e, np, st2)) => if sym(t, np) == Some(Symbol::Semicolon) {
                        Ok((StmtView::Assignment { variable: slot, value: e }, np + 1, st2))
                    } else {
                        Err(unexpected_at(t, env.eof, np, SyntaxError::ExpectedSymbol))
                    },
                    Err(f) => Err(f),
                }
            } else {
                Err(unexpected_at(t, env.eof, pos + 1, SyntaxError::ExpectedSymbol))
            },
            _ => Err(unexpected_at(t, env.eof, pos, SyntaxError::ExpectedStatement)),
        }
    }
}

/// `if (condition) { ... }`, then optionally `else if ...` or
/// `else { ... }`.
pub open spec fn rec_if(t: Seq<TokenView>, env: Env, pos: int, st: Reg) -> Result<(IfView, int, Reg), ParseFault>
    decreases t.len() - pos, 0nat,
{
    if pos < 0 || pos > t.len() || kw(t, pos) != Some(Keyword::If) {
        Err(unexpected_at(t, env.eof, pos, SyntaxError::ExpectedStatement))
    } else if sym(t, pos + 1) != Some(Symbol::LParen) {
        Err(unexpected_at(t, env.eof, pos + 1, SyntaxError::ExpectedSymbol))
    } else {
        match rec_binary(t, env, pos + 2, 1, st) {
            Ok((c, np, st1)) => if pos >= np {
                Err(unexpected_at(t, env.eof, pos, SyntaxError::ExpectedStatement))
            } else if sym(t, np) != Some(Symbol::RParen) {
                Err(unexpected_at(t, env.eof, np, SyntaxError::ExpectedSymbol))
            } else if sym(t, np + 1) != Some(Symbol::LBrace) {
                Err(unexpected_at(t, env.eof, np + 1, SyntaxError::ExpectedSymbol))
            } else {
                match rec_block(t, env, np + 2, Seq::empty(), st1) {
                    Ok((b, bp, st2)) => if pos >= bp {
                        Err(unexpected_at(t, env.eof, pos, SyntaxError::ExpectedStatement))
                    } else if sym(t, bp) != Some(Symbol::RBrace) {
                        Err(unexpected_at(t, env.eof, bp, SyntaxError::ExpectedSymbol))
                    } else {
                        let cur = bp + 1;
                        if kw(t, cur) == Some(Keyword::Else) {
                            if kw(t, cur + 1) == Some(Keyword::If) {
                                match rec_if(t, env, cur + 1, st2) {
                                    Ok((e, np3, st3)) => Ok((
                                        IfView { condition: c, if_branch: b, else_branch: ElseView::IfStatement(Box::new(e)) },
                                        np3,
                                        st3,
                                    )),
                                    Err(f) => Err(f),
                                }
                            } else if sym(t, cur + 1) != Some(Symbol::LBrace) {
                                Err(unexpected_at(t, env.eof, cur + 1, SyntaxError::ExpectedSymbol))
                            } else {
                                match rec_block(t, env, cur + 2, Seq::empty(), st2) {
                                    Ok((eb, bp2, st3)) => if sym(t, bp2) == Some(Symbol::RBrace) {
                                        Ok((
                                            IfView { condition: c, if_branch: b, else_branch: ElseView::ElseStatement(eb) },
                                            bp2 + 1,
                                            st3,
                                        ))
                                    } else {
                                        Err(unexpected_at(t, env.eof, bp2, SyntaxError::ExpectedSymbol))
                                    },
                                    Err(f) => Err(f),
                                }
                            }
                        } else {
                            Ok((IfView { condition: c, if_branch: b, else_branch: ElseView::Absent }, cur, st2))
                        }
                    },
                    Err(f) => Err(f),
                }
            },
            Err(f) => Err(f),
        }
    }
}

/// The rest of a parameter list from `cur`, after the slots `acc`, each
/// parameter registered in `scope`: gives the slots, the position after the
/// `)`, and the registrations.
pub open spec fn rec_params(t: Seq<TokenView>, eof: Position, scope: Seq<char>, cur: int, acc: Seq<usize>, st: Reg) -> Result<(Seq<usize>, int, Reg), ParseFault>
    decreases t.len() - cur,
{
    if cur < 0 || cur >= t.len() {
        Err(unexpected_at(t, eof, cur, SyntaxError::ExpectedIdentifier))
    } else {
        match t[cur].kind {
            KindView::Ident(name) => {
                let (slot, st1) = reg(st, (name, scope));
                if sym(t, cur + 1) == Some(Symbol::Comma) {
                    rec_params(t, eof, scope, cur + 2, acc.push(slot), st1)
                } else if sym(t, cur + 1) == Some(Symbol::RParen) {
                    Ok((acc.push(slot), cur + 2, st1))
                } else {
                    Err(unexpected_at(t, eof, cur + 1, SyntaxError::ExpectedSymbol))
                }
            },
            _ => Err(unexpected_at(t, eof, cur, SyntaxError::ExpectedIdentifier)),
        }
    }
}

/// A parameter list `(a, b, ...)` at `pos`.
pub open spec fn rec_param_list(t: Seq<TokenView>, eof: Position, scope: Seq<char>, pos: int, st: Reg) -> Result<(Seq<usize>, int, Reg), ParseFault> {
    if sym(t, pos) != Some(Symbol::LParen) {
        Err(unexpected_at(t, eof, pos, SyntaxError::ExpectedSymbol))
    } else if sym(t, pos + 1) == Some(Symbol::RParen) {
        Ok((Seq::empty(), pos + 2, st))
    } else {
        rec_params(t, eof, scope, pos + 1, Seq::empty(), st)
    }
}

/// Function definitions `def name(params) { ... }` from `cur`, each seeing
/// the ones before it (`tb`, with models `funcs`), then top-level statements
/// up to the end. Gives the functions and top-level statements, and the
/// registrations afterwards.
pub open spec fn rec_program(
    t: Seq<TokenView>,
    num: spec_fn(Seq<char>) -> u32,
    eof: Position,
    cur: int,
    tb: FnTable,
    funcs: Seq<FunctionView>,
    st: Reg,
) -> Result<(Seq<FunctionView>, Seq<StmtView>, Reg), ParseFault>
    decreases t.len() - cur,
{
    if cur < 0 || cur > t.len() {
        Err(unexpected_at(t, eof, cur, SyntaxError::ExpectedStatement))
    } else if kw(t, cur) == Some(Keyword::Def) {
        if cur + 1 < t.len() && t[cur + 1].kind is Ident {
            let name = t[cur + 1].kind->Ident_0;
            match rec_param_list(t, eof, name, cur + 2, st) {
                Ok((params, np, st1)) => if sym(t, np) != Some(Symbol::LBrace) {
                    Err(unexpected_at(t, eof, np, SyntaxError::ExpectedSymbol))
                } else {
                    match rec_block(t, Env { tb, scope: name, num, eof }, np + 1, Seq::empty(), st1) {
                        Ok((body, bp, st2)) => if cur >= bp {
                            Err(unexpected_at(t, eof, cur, SyntaxError::ExpectedStatement))
                        } else if sym(t, bp) != Some(Symbol::RBrace) {
                            Err(unexpected_at(t, eof, bp, SyntaxError::ExpectedSymbol))
                        } else {
                            rec_program(
                                t,
                                num,
                                eof,
                                bp + 1,
                                tb.push((name, params.len())),
                                funcs.push(FunctionView { arguments: params, contents: body }),
                                st2,
                            )
                        },
                        Err(f) => Err(f),
                    }
                },
                Err(f) => Err(f),
            }
        } else {
            Err(unexpected_at(t, eof, cur + 1, SyntaxError::ExpectedIdentifier))
        }
    } else {
        match rec_block(t, Env { tb, scope: Seq::empty(), num, eof }, cur, Seq::empty(), st) {
            Ok((top, bp, st1)) => if bp == t.len() {
                Ok((funcs, top, st1))
            } else {
                Err(unexpected_at(t, eof, bp, SyntaxError::ExpectedStatement))
            },
            Err(f) => Err(f),
        }
    }
}

/// The program that the tokens form, starting from the registrations `st`:
/// its functions, its top-level statements, and the registrations after;
/// or the first error.
pub open spec fn program_of(t: Seq<TokenView>, num: spec_fn(Seq<char>) -> u32, eof: Position, st: Reg) -> Result<(Seq<FunctionView>, Seq<StmtView>, Reg), ParseFault> {
    rec_program(t, num, eof, 0, Seq::empty(), Seq::empty(), st)
}

} // verus!
