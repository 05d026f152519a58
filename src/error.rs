use vstd::prelude::*;
use crate::value::{Value, ValueModel, ValueType};

verus! {

/// A stretch of source text, as 1-based line and column numbers. The end is
/// the position just after the last character.
#[derive(Clone, Copy, Debug, PartialEq, Eq, Structural)]
pub struct Location {
    pub start_line: usize,
    pub start_column: usize,
    pub end_line: usize,
    pub end_column: usize,
}

/// What went wrong, in the language's own terms.
#[derive(Debug)]
pub enum LanguageErrorType {
    /// A value of the wrong kind: the kind expected and the value found.
    Type(ValueType, Value),
    /// An unset variable read, or a call of an undefined function.
    Reference(String),
    /// A tuple index out of bounds: the index and the tuple's length.
    Range(usize, usize),
    /// A call with the wrong number of arguments: found, then expected.
    ArgumentCountMismatch(usize, usize),
}

/// A language error and, where known, the source it comes from.
#[derive(Debug)]
pub struct LanguageError {
    pub location: Option<Location>,
    pub error: LanguageErrorType,
}

/// The model of a [`LanguageErrorType`].
pub enum ErrorKind {
    Type(ValueType, ValueModel),
    Reference(Seq<char>),
    Range(usize, usize),
    ArgumentCountMismatch(usize, usize),
}

/// The model of a [`LanguageError`].
pub struct ErrorModel {
    pub location: Option<Location>,
    pub kind: ErrorKind,
}

impl LanguageErrorType {
    pub open spec fn view(&self) -> ErrorKind {
        match self {
            LanguageErrorType::Type(t, v) => ErrorKind::Type(*t, v@),
            LanguageErrorType::Reference(name) => ErrorKind::Reference(name@),
            LanguageErrorType::Range(i, n) => ErrorKind::Range(*i, *n),
            LanguageErrorType::ArgumentCountMismatch(f, e) => ErrorKind::ArgumentCountMismatch(*f, *e),
        }
    }
}

impl LanguageError {
    pub open spec fn view(&self) -> ErrorModel {
        ErrorModel { location: self.location, kind: self.error@ }
    }

    /// The error's kind with its detail, as shown to a user.
    pub fn kind_name(&self) -> (r: &'static str)
        ensures
            self.error is Type ==> r@ == "TypeError"@,
            self.error is Reference ==> r@ == "ReferenceError"@,
            self.error is Range ==> r@ == "RangeError"@,
            self.error is ArgumentCountMismatch ==> r@ == "ArgumentCountMismatch"@,
    {
        match &self.error {
            LanguageErrorType::Type(..) => "TypeError",
            LanguageErrorType::Reference(..) => "ReferenceError",
            LanguageErrorType::Range(..) => "RangeError",
            LanguageErrorType::ArgumentCountMismatch(..) => "ArgumentCountMismatch",
        }
    }
}

/// A value read by a host, outside any source location.
#[derive(Debug)]
pub struct UntrackedValue(pub Value);

impl UntrackedValue {
    /// The bits of the number held, or a type error without a location.
    pub fn number(self) -> (r: Result<u32, LanguageError>)
        ensures
            match self.0 {
                Value::Number(n) => r == Ok::<u32, LanguageError>(n),
                _ => r matches Err(e) && e@ == (ErrorModel {
                    location: None,
                    kind: ErrorKind::Type(ValueType::Number, self.0@),
                }),
            },
    {
        match self.0 {
            Value::Number(n) => Ok(n),
            v => Err(LanguageError { location: None, error: LanguageErrorType::Type(ValueType::Number, v) }),
        }
    }
}

/// A position in source text (1-based line and column).
#[derive(Clone, Copy, Debug, PartialEq, Eq, Structural)]
pub struct Position {
    pub line: usize,
    pub column: usize,
}

/// How source text departs from the grammar.
#[derive(Clone, Copy, Debug, PartialEq, Eq, Structural)]
pub enum SyntaxError {
    /// A character that starts no token.
    UnexpectedCharacter,
    /// A token where an expression should start.
    ExpectedExpression,
    /// A token where a statement should start.
    ExpectedStatement,
    /// A token other than the identifier that the grammar asks for.
    ExpectedIdentifier,
    /// A token other than the symbol that the grammar asks for.
    ExpectedSymbol,
    /// The text ended where the grammar asks for more.
    UnexpectedEnd,
}

/// The model of a [`ParseError`].
pub enum ParseFault {
    Syntax(Position, SyntaxError),
    Language(ErrorModel),
}

/// Why source text could not be turned into a program.
#[derive(Debug)]
pub enum ParseError {
    /// The text does not follow the grammar: where, and how.
    Syntax(Position, SyntaxError),
    /// The text follows the grammar but names an unknown function or calls
    /// one with the wrong number of arguments.
    LanguageError(LanguageError),
}

impl ParseError {
    pub open spec fn view(&self) -> ParseFault {
        match self {
            ParseError::Syntax(p, k) => ParseFault::Syntax(*p, *k),
            ParseError::LanguageError(e) => ParseFault::Language(e@),
        }
    }
}

} // verus!
