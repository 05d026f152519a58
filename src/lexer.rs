use vstd::prelude::*;
use crate::error::{ParseError, Position, SyntaxError};

verus! {

/// The punctuation and operator tokens.
#[derive(Clone, Copy, Debug, PartialEq, Eq, Structural)]
pub enum Symbol {
    LParen,
    RParen,
    LBrace,
    RBrace,
    LBracket,
    RBracket,
    Comma,
    Semicolon,
    Assign,
    Plus,
    Minus,
    Star,
    StarStar,
    Slash,
    Percent,
    Amp,
    Pipe,
    Caret,
    ShiftLeft,
    ShiftRight,
    EqEq,
    NotEq,
    Less,
    Greater,
    LessEq,
    GreaterEq,
    Bang,
}

/// The reserved words.
#[derive(Clone, Copy, Debug, PartialEq, Eq, Structural)]
pub enum Keyword {
    Def,
    If,
    Else,
    Return,
    And,
    Or,
}

#[derive(Debug)]
pub enum TokenKind {
    /// An identifier: `[A-Za-z_][A-Za-z0-9_]*`, not a keyword.
    Ident(Vec<char>),
    /// A number: digits, optionally followed by `.` and digits.
    Number(Vec<char>),
    Keyword(Keyword),
    Symbol(Symbol),
}

/// A token and the stretch of source it covers.
#[derive(Debug)]
pub struct Token {
    pub kind: TokenKind,
    pub start: Position,
    pub end: Position,
}

pub open spec fn is_alpha(c: char) -> bool {
    ('a' <= c && c <= 'z') || ('A' <= c && c <= 'Z') || c == '_'
}

pub open spec fn is_digit(c: char) -> bool {
    '0' <= c && c <= '9'
}

/// The model of a token's kind.
pub enum KindView {
    Ident(Seq<char>),
    Number(Seq<char>),
    Keyword(Keyword),
    Symbol(Symbol),
}

/// The model of a token.
pub struct TokenView {
    pub kind: KindView,
    pub start: Position,
    pub end: Position,
}

impl TokenKind {
    pub open spec fn view(&self) -> KindView {
        match self {
            TokenKind::Ident(v) => KindView::Ident(v@),
            TokenKind::Number(v) => KindView::Number(v@),
            TokenKind::Keyword(k) => KindView::Keyword(*k),
            TokenKind::Symbol(s) => KindView::Symbol(*s),
        }
    }
}

impl Token {
    pub open spec fn view(&self) -> TokenView {
        TokenView { kind: self.kind@, start: self.start, end: self.end }
    }
}

/// The models of a sequence of tokens.
pub open spec fn view_tokens(ts: Seq<Token>) -> Seq<TokenView> {
    ts.map_values(|t: Token| t@)
}

/// The end of the run of letters, digits and `_` that starts at `i`.
pub open spec fn word_end(src: Seq<char>, i: int) -> int
    decreases src.len() - i,
{
    if 0 <= i < src.len() && (is_alpha(src[i]) || is_digit(src[i])) {
        word_end(src, i + 1)
    } else {
        i
    }
}

/// The end of the run of digits that starts at `i`.
pub open spec fn digits_end(src: Seq<char>, i: int) -> int
    decreases src.len() - i,
{
    if 0 <= i < src.len() && is_digit(src[i]) {
        digits_end(src, i + 1)
    } else {
        i
    }
}

/// The end of a number whose first digit is just before `i`: more digits,
/// then optionally `.` and at least one digit.
pub open spec fn number_end(src: Seq<char>, i: int) -> int {
    let d = digits_end(src, i);
    if 0 <= d && d + 1 < src.len() && src[d] == '.' && is_digit(src[d + 1]) {
        digits_end(src, d + 1)
    } else {
        d
    }
}

/// The position of the first line break at or after `i`, or the end.
pub open spec fn line_end(src: Seq<char>, i: int) -> int
    decreases src.len() - i,
{
    if 0 <= i < src.len() && src[i] != '\n' {
        line_end(src, i + 1)
    } else {
        i
    }
}

pub open spec fn keyword_spec(w: Seq<char>) -> Option<Keyword> {
    if w == seq!['d', 'e', 'f'] {
        Some(Keyword::Def)
    } else if w == seq!['i', 'f'] {
        Some(Keyword::If)
    } else if w == seq!['e', 'l', 's', 'e'] {
        Some(Keyword::Else)
    } else if w == seq!['r', 'e', 't', 'u', 'r', 'n'] {
        Some(Keyword::Return)
    } else if w == seq!['a', 'n', 'd'] {
        Some(Keyword::And)
    } else if w == seq!['o', 'r'] {
        Some(Keyword::Or)
    } else {
        None
    }
}

/// The one-character symbols.
pub open spec fn single_symbol(c: char) -> Option<Symbol> {
    if c == '(' {
        Some(Symbol::LParen)
    } else if c == ')' {
        Some(Symbol::RParen)
    } else if c == '{' {
        Some(Symbol::LBrace)
    } else if c == '}' {
        Some(Symbol::RBrace)
    } else if c == '[' {
        Some(Symbol::LBracket)
    } else if c == ']' {
        Some(Symbol::RBracket)
    } else if c == ',' {
        Some(Symbol::Comma)
    } else if c == ';' {
        Some(Symbol::Semicolon)
    } else if c == '=' {
        Some(Symbol::Assign)
    } else if c == '+' {
        Some(Symbol::Plus)
    } else if c == '-' {
        Some(Symbol::Minus)
    } else if c == '*' {
        Some(Symbol::Star)
    } else if c == '/' {
        Some(Symbol::Slash)
    } else if c == '%' {
        Some(Symbol::Percent)
    } else if c == '&' {
        Some(Symbol::Amp)
    } else if c == '|' {
        Some(Symbol::Pipe)
    } else if c == '^' {
        Some(Symbol::Caret)
    } else if c == '<' {
        Some(Symbol::Less)
    } else if c == '>' {
        Some(Symbol::Greater)
    } else if c == '!' {
        Some(Symbol::Bang)
    } else {
        None
    }
}

/// The symbol that starts at `i` and its length: the two-character symbols
/// `** << >> == != <= >=` first, then the one-character ones.
pub open spec fn symbol_spec(src: Seq<char>, i: int) -> Option<(Symbol, nat)> {
    let c = src[i];
    let next = if i + 1 < src.len() { src[i + 1] } else { ' ' };
    if c == '*' && next == '*' {
        Some((Symbol::StarStar, 2))
    } else if c == '<' && next == '<' {
        Some((Symbol::ShiftLeft, 2))
    } else if c == '>' && next == '>' {
        Some((Symbol::ShiftRight, 2))
    } else if c == '=' && next == '=' {
        Some((Symbol::EqEq, 2))
    } else if c == '!' && next == '=' {
        Some((Symbol::NotEq, 2))
    } else if c == '<' && next == '=' {
        Some((Symbol::LessEq, 2))
    } else if c == '>' && next == '=' {
        Some((Symbol::GreaterEq, 2))
    } else {
        match single_symbol(c) {
            Some(s) => Some((s, 1)),
            None => None,
        }
    }
}

pub open spec fn at(line: nat, col: nat) -> Position {
    Position { line: line as usize, column: col as usize }
}

/// The outcome of `rest` with `done` put in front of the tokens it gives.
pub open spec fn after(done: Seq<TokenView>, rest: Result<(Seq<TokenView>, Position), Position>) -> Result<(Seq<TokenView>, Position), Position> {
    match rest {
        Ok((ts, end)) => Ok((done + ts, end)),
        Err(p) => Err(p),
    }
}

/// The tokens of `src` from `i`, at line `line` and column `col`, and the
/// position after the text: spaces, tabs, carriage returns, line breaks and
/// `//` comments separate tokens; a word is a keyword or an identifier; a
/// character that starts no token is an error at its position.
#[verifier::opaque]
pub open spec fn lex(src: Seq<char>, i: int, line: nat, col: nat) -> Result<(Seq<TokenView>, Position), Position>
    decreases src.len() - i,
{
    if i < 0 || i >= src.len() {
        Ok((Seq::empty(), at(line, col)))
    } else {
        let c = src[i];
        if c == '\n' {
            lex(src, i + 1, line + 1, 1)
        } else if c == ' ' || c == '\t' || c == '\r' {
            lex(src, i + 1, line, col + 1)
        } else if c == '/' && i + 1 < src.len() && src[i + 1] == '/' {
            let e = line_end(src, i + 2);
            if i < e <= src.len() {
                lex(src, e, line, (col + (e - i)) as nat)
            } else {
                Err(at(line, col))
            }
        } else if is_alpha(c) {
            let e = word_end(src, i + 1);
            let w = src.subrange(i, e);
            let kind = match keyword_spec(w) {
                Some(k) => KindView::Keyword(k),
                None => KindView::Ident(w),
            };
            let end_col = (col + (e - i)) as nat;
            if i < e <= src.len() {
                after(seq![TokenView { kind, start: at(line, col), end: at(line, end_col) }], lex(src, e, line, end_col))
            } else {
                Err(at(line, col))
            }
        } else if is_digit(c) {
            let e = number_end(src, i + 1);
            let end_col = (col + (e - i)) as nat;
            if i < e <= src.len() {
                after(
                    seq![TokenView { kind: KindView::Number(src.subrange(i, e)), start: at(line, col), end: at(line, end_col) }],
                    lex(src, e, line, end_col),
                )
            } else {
                Err(at(line, col))
            }
        } else {
            match symbol_spec(src, i) {
                Some((s, n)) => after(
                    seq![TokenView { kind: KindView::Symbol(s), start: at(line, col), end: at(line, col + n) }],
                    lex(src, i + n, line, col + n),
                ),
                None => Err(at(line, col)),
            }
        }
    }
}

/// The tokens of a whole text, from line 1, column 1.
pub open spec fn lex_all(src: Seq<char>) -> Result<(Seq<TokenView>, Position), Position> {
    lex(src, 0, 1, 1)
}

fn alpha(c: char) -> (r: bool)
    ensures
        r == is_alpha(c),
{
    ('a' <= c && c <= 'z') || ('A' <= c && c <= 'Z') || c == '_'
}

fn digit(c: char) -> (r: bool)
    ensures
        r == is_digit(c),
{
    '0' <= c && c <= '9'
}

/// Whether `v` holds exactly the characters of `w`.
pub fn word_is(v: &Vec<char>, w: &[char]) -> (r: bool)
    ensures
        r == (v@ == w@),
{
    if v.len() != w.len() {
        return false;
    }
    let mut i: usize = 0;
    while i < v.len()
        invariant
            v@.len() == w@.len(),
            i <= v@.len(),
            forall|j: int| 0 <= j < i ==> v@[j] == w@[j],
        decreases v@.len() - i,
    {
        if v[i] != w[i] {
            return false;
        }
        i += 1;
    }
    proof {
        assert(v@ =~= w@);
    }
    true
}

fn keyword_of(v: &Vec<char>) -> (r: Option<Keyword>)
    ensures
        r == keyword_spec(v@),
{
    let r = if word_is(v, &['d', 'e', 'f']) {
        Some(Keyword::Def)
    } else if word_is(v, &['i', 'f']) {
        Some(Keyword::If)
    } else if word_is(v, &['e', 'l', 's', 'e']) {
        Some(Keyword::Else)
    } else if word_is(v, &['r', 'e', 't', 'u', 'r', 'n']) {
        Some(Keyword::Return)
    } else if word_is(v, &['a', 'n', 'd']) {
        Some(Keyword::And)
    } else if word_is(v, &['o', 'r']) {
        Some(Keyword::Or)
    } else {
        None
    };
    r
}

/// The symbol that starts at `src[i]`, and its length in characters.
fn symbol_at(src: &Vec<char>, i: usize) -> (r: Option<(Symbol, usize)>)
    requires
        i < src@.len(),
        src@.len() < usize::MAX,
    ensures
        r matches Some((_, n)) ==> 1 <= n <= 2 && i + n <= src@.len(),
        match r {
            Some((s, n)) => symbol_spec(src@, i as int) == Some((s, n as nat)),
            None => symbol_spec(src@, i as int) is None,
        },
{
    let c = src[i];
    let next: char = if i + 1 < src.len() { src[i + 1] } else { ' ' };
    if c == '*' && next == '*' {
        Some((Symbol::StarStar, 2))
    } else if c == '<' && next == '<' {
        Some((Symbol::ShiftLeft, 2))
    } else if c == '>' && next == '>' {
        Some((Symbol::ShiftRight, 2))
    } else if c == '=' && next == '=' {
        Some((Symbol::EqEq, 2))
    } else if c == '!' && next == '=' {
        Some((Symbol::NotEq, 2))
    } else if c == '<' && next == '=' {
        Some((Symbol::LessEq, 2))
    } else if c == '>' && next == '=' {
        Some((Symbol::GreaterEq, 2))
    } else {
        let s = match c {
            '(' => Symbol::LParen,
            ')' => Symbol::RParen,
            '{' => Symbol::LBrace,
            '}' => Symbol::RBrace,
            '[' => Symbol::LBracket,
            ']' => Symbol::RBracket,
            ',' => Symbol::Comma,
            ';' => Symbol::Semicolon,
            '=' => Symbol::Assign,
            '+' => Symbol::Plus,
            '-' => Symbol::Minus,
            '*' => Symbol::Star,
            '/' => Symbol::Slash,
            '%' => Symbol::Percent,
            '&' => Symbol::Amp,
            '|' => Symbol::Pipe,
            '^' => Symbol::Caret,
            '<' => Symbol::Less,
            '>' => Symbol::Greater,
            '!' => Symbol::Bang,
            _ => {
                return None;
            },
        };
        Some((s, 1))
    }
}

proof fn lemma_after_push(done: Seq<TokenView>, t: TokenView, rest: Result<(Seq<TokenView>, Position), Position>)
    ensures
        after(done, after(seq![t], rest)) == after(done.push(t), rest),
{
    if let Ok((ts, _)) = rest {
        assert(done + (seq![t] + ts) =~= done.push(t) + ts);
    }
}

proof fn lemma_view_tokens_push(ts: Seq<Token>, t: Token)
    ensures
        view_tokens(ts.push(t)) == view_tokens(ts).push(t@),
{
    assert(view_tokens(ts.push(t)) =~= view_tokens(ts).push(t@));
}

/// One step of `lex`, at a character that starts no token.
proof fn lemma_lex_skip(src: Seq<char>, i: int, line: nat, col: nat)
    requires
        0 <= i < src.len(),
    ensures
        src[i] == '\n' ==> lex(src, i, line, col) == lex(src, i + 1, line + 1, 1),
        (src[i] == ' ' || src[i] == '\t' || src[i] == '\r') ==> lex(src, i, line, col) == lex(src, i + 1, line, col + 1),
        (src[i] == '/' && i + 1 < src.len() && src[i + 1] == '/' && i < line_end(src, i + 2) <= src.len())
            ==> lex(src, i, line, col) == lex(src, line_end(src, i + 2), line, (col + (line_end(src, i + 2) - i)) as nat),
{
    reveal_with_fuel(lex, 1);
}

/// One step of `lex`, at a character that starts a token.
proof fn lemma_lex_token(src: Seq<char>, i: int, line: nat, col: nat)
    requires
        0 <= i < src.len(),
        src[i] != '\n' && src[i] != ' ' && src[i] != '\t' && src[i] != '\r',
        !(src[i] == '/' && i + 1 < src.len() && src[i + 1] == '/'),
    ensures
        is_alpha(src[i]) && i < word_end(src, i + 1) <= src.len() ==> ({
            let e = word_end(src, i + 1);
            let w = src.subrange(i, e);
            let kind = match keyword_spec(w) {
                Some(k) => KindView::Keyword(k),
                None => KindView::Ident(w),
            };
            let end_col = (col + (e - i)) as nat;
            lex(src, i, line, col) == after(
                seq![TokenView { kind, start: at(line, col), end: at(line, end_col) }],
                lex(src, e, line, end_col),
            )
        }),
        !is_alpha(src[i]) && is_digit(src[i]) && i < number_end(src, i + 1) <= src.len() ==> ({
            let e = number_end(src, i + 1);
            let end_col = (col + (e - i)) as nat;
            lex(src, i, line, col) == after(
                seq![TokenView { kind: KindView::Number(src.subrange(i, e)), start: at(line, col), end: at(line, end_col) }],
                lex(src, e, line, end_col),
            )
        }),
        !is_alpha(src[i]) && !is_digit(src[i]) ==> lex(src, i, line, col) == match symbol_spec(src, i) {
            Some((s, n)) => after(
                seq![TokenView { kind: KindView::Symbol(s), start: at(line, col), end: at(line, col + n) }],
                lex(src, i + n, line, col + n),
            ),
            None => Err(at(line, col)),
        },
{
    reveal_with_fuel(lex, 1);
}

proof fn lemma_lex_end(src: Seq<char>, i: int, line: nat, col: nat)
    requires
        i >= src.len(),
    ensures
        lex(src, i, line, col) == Ok::<(Seq<TokenView>, Position), Position>((Seq::empty(), at(line, col))),
{
    reveal_with_fuel(lex, 1);
}

/// Reads the rest of a word whose first character is at `i`.
fn scan_word(src: &Vec<char>, i: usize) -> (r: (Vec<char>, usize))
    requires
        i < src.len(),
    ensures
        r.1 == word_end(src@, i + 1),
        i < r.1 <= src@.len(),
        r.0@ == src@.subrange(i as int, r.1 as int),
{
    let mut word: Vec<char> = Vec::new();
    word.push(src[i]);
    let mut j = i + 1;
    while j < src.len() && (alpha(src[j]) || digit(src[j]))
        invariant
            i < j <= src@.len(),
            word@ == src@.subrange(i as int, j as int),
            word_end(src@, i + 1) == word_end(src@, j as int),
        decreases src@.len() - j,
    {
        word.push(src[j]);
        j += 1;
        proof {
            assert(word@ =~= src@.subrange(i as int, j as int));
        }
    }
    (word, j)
}

/// The end of the run of digits from `i`.
fn scan_digits(src: &Vec<char>, i: usize) -> (e: usize)
    requires
        i <= src@.len(),
    ensures
        e == digits_end(src@, i as int),
        i <= e <= src@.len(),
{
    let mut j = i;
    while j < src.len() && digit(src[j])
        invariant
            i <= j <= src@.len(),
            digits_end(src@, i as int) == digits_end(src@, j as int),
        decreases src@.len() - j,
    {
        j += 1;
    }
    j
}

/// Reads a number whose first digit is at `i`.
fn scan_number(src: &Vec<char>, i: usize) -> (r: (Vec<char>, usize))
    requires
        i < src.len(),
        src@.len() < usize::MAX,
    ensures
        r.1 == number_end(src@, i + 1),
        i < r.1 <= src@.len(),
        r.0@ == src@.subrange(i as int, r.1 as int),
{
    let d = scan_digits(src, i + 1);
    let e = if d + 1 < src.len() && src[d] == '.' && digit(src[d + 1]) {
        scan_digits(src, d + 1)
    } else {
        d
    };
    let mut text: Vec<char> = Vec::new();
    let mut j = i;
    while j < e
        invariant
            i <= j <= e,
            e <= src@.len(),
            text@ == src@.subrange(i as int, j as int),
        decreases e - j,
    {
        text.push(src[j]);
        j += 1;
        proof {
            assert(text@ =~= src@.subrange(i as int, j as int));
        }
    }
    (text, e)
}

/// The end of a comment whose `//` is at `i`: the next line break or the end.
fn scan_comment(src: &Vec<char>, i: usize) -> (e: usize)
    requires
        i + 2 <= src.len(),
    ensures
        e == line_end(src@, i + 2),
        i + 2 <= e <= src@.len(),
{
    let mut j = i + 2;
    while j < src.len() && src[j] != '\n'
        invariant
            i + 2 <= j <= src@.len(),
            line_end(src@, i + 2) == line_end(src@, j as int),
        decreases src@.len() - j,
    {
        j += 1;
    }
    j
}

/// Splits source text into tokens, skipping whitespace and `//` comments.
/// Positions are 1-based lines and columns counted in characters. Also
/// gives the position just after the text.
pub fn tokenize(src: &Vec<char>) -> (r: Result<(Vec<Token>, Position), ParseError>)
    requires
        src@.len() < usize::MAX,
    ensures
        match r {
            Ok((toks, end)) => lex_all(src@) == Ok::<(Seq<TokenView>, Position), Position>((view_tokens(toks@), end)),
            Err(e) => lex_all(src@) is Err && e == ParseError::Syntax(
                lex_all(src@)->Err_0,
                SyntaxError::UnexpectedCharacter,
            ),
        },
{
    let mut toks: Vec<Token> = Vec::new();
    let mut i: usize = 0;
    let mut line: usize = 1;
    let mut col: usize = 1;
    proof {
        assert(view_tokens(toks@) =~= Seq::<TokenView>::empty());
        assert(after(Seq::empty(), lex_all(src@)) == lex_all(src@)) by {
            if let Ok((ts, _)) = lex_all(src@) {
                assert(Seq::<TokenView>::empty() + ts =~= ts);
            }
        }
    }
    while i < src.len()
        invariant
            i <= src@.len(),
            src@.len() < usize::MAX,
            1 <= line <= i + 1,
            1 <= col <= i + 1,
            lex_all(src@) == after(view_tokens(toks@), lex(src@, i as int, line as nat, col as nat)),
        decreases src@.len() - i,
    {
        let c = src[i];
        let start = Position { line, column: col };
        proof {
            lemma_lex_skip(src@, i as int, line as nat, col as nat);
        }
        if c == '\n' {
            i += 1;
            line += 1;
            col = 1;
        } else if c == ' ' || c == '\t' || c == '\r' {
            i += 1;
            col += 1;
        } else if c == '/' && i + 1 < src.len() && src[i + 1] == '/' {
            let e = scan_comment(src, i);
            col = col + (e - i);
            i = e;
        } else {
            proof {
                lemma_lex_token(src@, i as int, line as nat, col as nat);
            }
            if alpha(c) || digit(c) {
                let (text, e) = if alpha(c) { scan_word(src, i) } else { scan_number(src, i) };
                let end_col = col + (e - i);
                let kind = if alpha(c) {
                    match keyword_of(&text) {
                        Some(k) => TokenKind::Keyword(k),
                        None => TokenKind::Ident(text),
                    }
                } else {
                    TokenKind::Number(text)
                };
                let tok = Token { kind, start, end: Position { line, column: end_col } };
                proof {
                    lemma_view_tokens_push(toks@, tok);
                    lemma_after_push(view_tokens(toks@), tok@, lex(src@, e as int, line as nat, end_col as nat));
                }
                toks.push(tok);
                i = e;
                col = end_col;
            } else {
                match symbol_at(src, i) {
                    Some((s, n)) => {
                        let end_col = col + n;
                        let tok = Token { kind: TokenKind::Symbol(s), start, end: Position { line, column: end_col } };
                        proof {
                            lemma_view_tokens_push(toks@, tok);
                            lemma_after_push(view_tokens(toks@), tok@, lex(src@, i + n, line as nat, end_col as nat));
                        }
                        toks.push(tok);
                        i = i + n;
                        col = end_col;
                    },
                    None => {
                        return Err(ParseError::Syntax(start, SyntaxError::UnexpectedCharacter));
                    },
                }
            }
        }
    }
    proof {
        lemma_lex_end(src@, i as int, line as nat, col as nat);
        assert(view_tokens(toks@) + Seq::<TokenView>::empty() =~= view_tokens(toks@));
        assert(at(line as nat, col as nat) == Position { line, column: col });
    }
    Ok((toks, Position { line, column: col }))
}

} // verus!
