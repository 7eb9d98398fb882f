//! The errors with which a run ends.

use vstd::prelude::*;
use crate::tokens::{Token, TokenType, TokenView, ValueView};

verus! {

/// Why the parser or the analyzer rejected a program.
#[derive(Debug, PartialEq, Eq, Clone, Copy, Structural)]
pub enum ErrorCode {
    UnexpectedToken,
    IDNotFound,
    DuplicateID,
    WrongParamsNum,
}

impl ErrorCode {
    /// The words that describe the code.
    pub open spec fn text(self) -> Seq<char> {
        match self {
            ErrorCode::UnexpectedToken => "Unexpected token"@,
            ErrorCode::IDNotFound => "Identifier not found"@,
            ErrorCode::DuplicateID => "Duplicate id found"@,
            ErrorCode::WrongParamsNum => "Wrong number of params"@,
        }
    }

    /// The words that describe the code.
    pub fn message(&self) -> (message: String)
        ensures
            message@ == self.text(),
    {
        match self {
            ErrorCode::UnexpectedToken => String::from_str("Unexpected token"),
            ErrorCode::IDNotFound => String::from_str("Identifier not found"),
            ErrorCode::DuplicateID => String::from_str("Duplicate id found"),
            ErrorCode::WrongParamsNum => String::from_str("Wrong number of params"),
        }
    }
}

/// The lexer met a character that starts no token, or a number it cannot hold.
#[derive(Debug, PartialEq)]
pub struct LexerError {
    pub message: String,
}

impl LexerError {
    /// An error with the given message.
    pub fn new(message: String) -> (error: LexerError)
        ensures
            error.message == message,
    {
        LexerError { message }
    }

    /// Ends the computation with this error.
    pub fn throw<T>(self) -> (raised: Result<T, LexerError>)
        ensures
            raised matches Err(error) && error == self,
    {
        Err(self)
    }
}

/// The parser met a token that the grammar does not allow where it stands.
#[derive(Debug, PartialEq)]
pub struct ParserError {
    pub message: String,
    pub error_code: ErrorCode,
    pub token: Token,
}

/// The mathematical content of a [`ParserError`].
pub struct ParserErrorView {
    pub message: Seq<char>,
    pub error_code: ErrorCode,
    pub token: TokenView,
}

impl View for ParserError {
    type V = ParserErrorView;

    open spec fn view(&self) -> ParserErrorView {
        ParserErrorView { message: self.message@, error_code: self.error_code, token: self.token@ }
    }
}

impl ParserError {
    /// An error with the given message and code at the given token.
    pub fn new(message: String, error_code: ErrorCode, token: Token) -> (error: ParserError)
        ensures
            error == (ParserError { message, error_code, token }),
    {
        ParserError { message, error_code, token }
    }

    /// Ends the computation with this error.
    pub fn throw<T>(self) -> (raised: Result<T, ParserError>)
        ensures
            raised matches Err(error) && error == self,
    {
        Err(self)
    }
}

/// The analyzer found a name that is not declared or declared twice, or a
/// call with the wrong number of arguments.
#[derive(Debug, PartialEq)]
pub struct SemanticError {
    pub message: String,
    pub error_code: ErrorCode,
    pub token: Token,
}

/// The mathematical content of a [`SemanticError`].
pub struct SemanticErrorView {
    pub message: Seq<char>,
    pub error_code: ErrorCode,
    pub token: TokenView,
}

impl View for SemanticError {
    type V = SemanticErrorView;

    open spec fn view(&self) -> SemanticErrorView {
        SemanticErrorView {
            message: self.message@,
            error_code: self.error_code,
            token: self.token@,
        }
    }
}

impl SemanticError {
    /// An error with the given message and code at the given token.
    pub fn new(message: String, error_code: ErrorCode, token: Token) -> (error: SemanticError)
        ensures
            error == (SemanticError { message, error_code, token }),
    {
        SemanticError { message, error_code, token }
    }

    /// Ends the computation with this error.
    pub fn throw<T>(self) -> (raised: Result<T, SemanticError>)
        ensures
            raised matches Err(error) && error == self,
    {
        Err(self)
    }
}

/// The error with the given code at the given token.
pub open spec fn failure(error_code: ErrorCode, token: TokenView) -> SemanticErrorView {
    SemanticErrorView { message: error_code.text(), error_code, token }
}

/// An identifier token for the name `value`, placed where `at` stands.
pub open spec fn name_token(value: ValueView, at: TokenView) -> TokenView {
    TokenView { type_: TokenType::ID, value, lineno: at.lineno, column: at.column }
}

/// Why the execution of a program was abandoned.
#[derive(Debug, PartialEq, Eq, Clone, Copy, Structural)]
pub enum EvaluationError {
    /// An operator met something that is not a number, or an integer together
    /// with a real.
    KindMismatch,
    /// The token is no operator for numbers of this kind.
    InvalidOperator,
    /// `DIV` with a divisor of zero.
    DivisionByZero,
    /// The quotient or the negation is not a 32-bit integer.
    Overflow,
    /// The name has no binding in the active frame.
    UndefinedVariable,
    /// A name was read or written while the call stack was empty.
    NoActiveFrame,
    /// The call was not resolved, or no body is found for it: the symbol on
    /// the call holds none and the procedure is not running.
    UnresolvedCall,
    /// As many calls are under way as the engine allows.
    CallDepthExceeded,
    /// A node holds something else where an identifier is expected.
    NotAnIdentifier,
}

/// Any error with which a run can end.
#[derive(Debug, PartialEq)]
pub enum Error {
    Lexer(LexerError),
    Parser(ParserError),
    Semantic(SemanticError),
    Evaluation(EvaluationError),
}

/// The mathematical content of an [`Error`]. A lexer error is its message.
pub enum ErrorView {
    Lexer(Seq<char>),
    Parser(ParserErrorView),
    Semantic(SemanticErrorView),
    Evaluation(EvaluationError),
}

impl View for Error {
    type V = ErrorView;

    open spec fn view(&self) -> ErrorView {
        match self {
            Error::Lexer(error) => ErrorView::Lexer(error.message@),
            Error::Parser(error) => ErrorView::Parser(error@),
            Error::Semantic(error) => ErrorView::Semantic(error@),
            Error::Evaluation(error) => ErrorView::Evaluation(*error),
        }
    }
}

/// The parser's error with the given code at the given token.
pub open spec fn rejection(error_code: ErrorCode, token: TokenView) -> ErrorView {
    ErrorView::Parser(ParserErrorView { message: error_code.text(), error_code, token })
}

} // verus!
