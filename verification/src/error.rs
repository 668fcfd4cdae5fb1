//! What can go wrong in a translation. Every error ends the attempt.
use crate::lexer::{Token, TokenView};
use vstd::prelude::*;

verus! {

/// The stage of the translation that an error belongs to.
#[derive(Clone, Copy, Debug, PartialEq, Eq, Structural)]
pub enum ErrorKind {
    /// The text is not made of tokens.
    Lexical,
    /// The tokens do not follow the grammar.
    Syntax,
    /// A name is used against the rules for variables and labels.
    Semantic,
}

/// What the parser was looking for where it met something else.
#[derive(Clone, Copy, Debug, PartialEq, Eq, Structural)]
pub enum Expected {
    /// The keyword that opens a statement.
    Statement,
    /// The name of a variable or label.
    Identifier,
    /// The end of the line.
    Newline,
    /// `THEN` behind the condition of an `IF`.
    Then,
    /// `REPEAT` behind the condition of a `WHILE`.
    Repeat,
    /// `=` behind the target of a `LET`.
    Assign,
    /// A number or a variable.
    Operand,
}

/// The first fault found in a program.
#[derive(Debug, PartialEq)]
pub enum CompileError {
    /// A character that starts no token, and its index in the text.
    UnknownCharacter { character: char, position: usize },
    /// A numeric literal that is no number of the supported range: its
    /// text, and the index of its first character.
    MalformedNumber { text: String, position: usize },
    /// A string literal without its closing quote: the index of the
    /// opening quote.
    UnterminatedString { position: usize },
    /// A token that the grammar does not allow where it stands; `found` is
    /// `None` where the tokens end too early.
    UnexpectedToken { expected: Expected, found: Option<Token> },
    /// A variable read before any `LET` or `INPUT` of it.
    UndeclaredVariable { name: String },
    /// A second `LABEL` of the same name.
    DuplicateLabel { name: String },
    /// A `GOTO` whose label the program declares nowhere.
    UndeclaredLabel { name: String },
}

/// The model of a [`CompileError`].
pub enum CompileErrorView {
    UnknownCharacter { character: char, position: int },
    MalformedNumber { text: Seq<char>, position: int },
    UnterminatedString { position: int },
    UnexpectedToken { expected: Expected, found: Option<TokenView> },
    UndeclaredVariable { name: Seq<char> },
    DuplicateLabel { name: Seq<char> },
    UndeclaredLabel { name: Seq<char> },
}

impl CompileErrorView {
    /// The stage that the error belongs to.
    pub open spec fn kind(self) -> ErrorKind {
        match self {
            CompileErrorView::UnknownCharacter { .. } => ErrorKind::Lexical,
            CompileErrorView::MalformedNumber { .. } => ErrorKind::Lexical,
            CompileErrorView::UnterminatedString { .. } => ErrorKind::Lexical,
            CompileErrorView::UnexpectedToken { .. } => ErrorKind::Syntax,
            CompileErrorView::UndeclaredVariable { .. } => ErrorKind::Semantic,
            CompileErrorView::DuplicateLabel { .. } => ErrorKind::Semantic,
            CompileErrorView::UndeclaredLabel { .. } => ErrorKind::Semantic,
        }
    }
}

impl DeepView for CompileError {
    type V = CompileErrorView;

    open spec fn deep_view(&self) -> CompileErrorView {
        match self {
            CompileError::UnknownCharacter { character, position } => {
                CompileErrorView::UnknownCharacter {
                    character: *character,
                    position: *position as int,
                }
            },
            CompileError::MalformedNumber { text, position } => CompileErrorView::MalformedNumber {
                text: text@,
                position: *position as int,
            },
            CompileError::UnterminatedString { position } => CompileErrorView::UnterminatedString {
                position: *position as int,
            },
            CompileError::UnexpectedToken { expected, found } => CompileErrorView::UnexpectedToken {
                expected: *expected,
                found: match found {
                    Some(token) => Some(token@),
                    None => None,
                },
            },
            CompileError::UndeclaredVariable { name } => CompileErrorView::UndeclaredVariable {
                name: name@,
            },
            CompileError::DuplicateLabel { name } => CompileErrorView::DuplicateLabel {
                name: name@,
            },
            CompileError::UndeclaredLabel { name } => CompileErrorView::UndeclaredLabel {
                name: name@,
            },
        }
    }
}

impl View for CompileError {
    type V = CompileErrorView;

    open spec fn view(&self) -> CompileErrorView {
        self.deep_view()
    }
}

/// The error that an outcome carries, if it is a failure.
pub open spec fn failure_of<T>(outcome: Result<T, CompileError>) -> Option<CompileErrorView> {
    match outcome {
        Ok(_) => None,
        Err(error) => Some(error@),
    }
}

impl CompileError {
    /// The stage that the error belongs to.
    pub fn kind(&self) -> (kind: ErrorKind)
        ensures
            kind == self@.kind(),
    {
        match self {
            CompileError::UnknownCharacter { .. } => ErrorKind::Lexical,
            CompileError::MalformedNumber { .. } => ErrorKind::Lexical,
            CompileError::UnterminatedString { .. } => ErrorKind::Lexical,
            CompileError::UnexpectedToken { .. } => ErrorKind::Syntax,
            CompileError::UndeclaredVariable { .. } => ErrorKind::Semantic,
            CompileError::DuplicateLabel { .. } => ErrorKind::Semantic,
            CompileError::UndeclaredLabel { .. } => ErrorKind::Semantic,
        }
    }
}

} // verus!
