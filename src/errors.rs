use vstd::prelude::*;

use crate::parser::string_of;
use crate::text::push_text;

verus! {

/// What can go wrong while parsing or evaluating, and the signals that carry control
/// out of loops, functions and the session.
#[derive(Debug, PartialEq, Clone)]
pub enum Error {
    StackUnderflow,
    UnknownWord(String),
    Redefined(String),
    InvalidAddress,
    DivisionByZero,
    CompileTimeWord,
    CustomError(String),
    ParsingError(String),
    InvalidName(String),
    MissingArgument,
    /// Leave the innermost `begin` or `do` loop.
    Leave,
    /// Return early from the innermost function.
    Exit,
    /// `recurse` used outside any function.
    Recurse,
    /// Clear the return stack and return to the top level.
    Quit,
    /// Clear the return stack and fail.
    Abort,
    /// `include` of a file whose text the host has not supplied.
    Include(String),
    /// The host is asked to end the session.
    Bye,
    /// The evaluation ran deeper than its fuel allows.
    StepLimit,
}

/// The mathematical form of an [`Error`]: texts become character sequences.
pub enum ErrorModel {
    StackUnderflow,
    UnknownWord(Seq<char>),
    Redefined(Seq<char>),
    InvalidAddress,
    DivisionByZero,
    CompileTimeWord,
    CustomError(Seq<char>),
    ParsingError(Seq<char>),
    InvalidName(Seq<char>),
    MissingArgument,
    Leave,
    Exit,
    Recurse,
    Quit,
    Abort,
    Include(Seq<char>),
    Bye,
    StepLimit,
}

impl View for Error {
    type V = ErrorModel;

    open spec fn view(&self) -> ErrorModel {
        match self {
            Error::StackUnderflow => ErrorModel::StackUnderflow,
            Error::UnknownWord(s) => ErrorModel::UnknownWord(s@),
            Error::Redefined(s) => ErrorModel::Redefined(s@),
            Error::InvalidAddress => ErrorModel::InvalidAddress,
            Error::DivisionByZero => ErrorModel::DivisionByZero,
            Error::CompileTimeWord => ErrorModel::CompileTimeWord,
            Error::CustomError(s) => ErrorModel::CustomError(s@),
            Error::ParsingError(s) => ErrorModel::ParsingError(s@),
            Error::InvalidName(s) => ErrorModel::InvalidName(s@),
            Error::MissingArgument => ErrorModel::MissingArgument,
            Error::Leave => ErrorModel::Leave,
            Error::Exit => ErrorModel::Exit,
            Error::Recurse => ErrorModel::Recurse,
            Error::Quit => ErrorModel::Quit,
            Error::Abort => ErrorModel::Abort,
            Error::Include(s) => ErrorModel::Include(s@),
            Error::Bye => ErrorModel::Bye,
            Error::StepLimit => ErrorModel::StepLimit,
        }
    }
}

/// The outcome of a step, as the contracts speak of it.
pub type Outcome = Result<(), ErrorModel>;

/// The model of a result.
pub open spec fn outcome(r: Result<(), Error>) -> Outcome {
    match r {
        Ok(()) => Ok(()),
        Err(e) => Err(e@),
    }
}

/// The message shown to the user for an error.
pub open spec fn message_of(e: ErrorModel) -> Seq<char> {
    match e {
        ErrorModel::StackUnderflow => "stack underflow"@,
        ErrorModel::UnknownWord(n) => n + " is an unknown word"@,
        ErrorModel::Redefined(n) => n + " was redefined"@,
        ErrorModel::InvalidAddress => "invalid memory address"@,
        ErrorModel::DivisionByZero => "division by zero"@,
        ErrorModel::CompileTimeWord => "interpreting a compile-only word"@,
        ErrorModel::CustomError(m) => m,
        ErrorModel::ParsingError(m) => m,
        ErrorModel::InvalidName(n) => n + " is an invalid name"@,
        ErrorModel::MissingArgument => "argument is missing"@,
        ErrorModel::Leave => "leave outside of a loop"@,
        ErrorModel::Exit => "exit outside of a function"@,
        ErrorModel::Recurse => "recurse outside of a function"@,
        ErrorModel::Quit => "quit"@,
        ErrorModel::Abort => "aborted"@,
        ErrorModel::Include(p) => "cannot include "@ + p,
        ErrorModel::Bye => "bye"@,
        ErrorModel::StepLimit => "evaluation nested too deep"@,
    }
}

impl Error {
    /// The message shown to the user for this error.
    pub fn message(&self) -> (r: String)
        ensures
            r@ == message_of(self@),
    {
        let mut text: Vec<char> = Vec::new();
        match self {
            Error::StackUnderflow => push_text(&mut text, "stack underflow"),
            Error::UnknownWord(n) => {
                push_text(&mut text, n.as_str());
                push_text(&mut text, " is an unknown word");
            },
            Error::Redefined(n) => {
                push_text(&mut text, n.as_str());
                push_text(&mut text, " was redefined");
            },
            Error::InvalidAddress => push_text(&mut text, "invalid memory address"),
            Error::DivisionByZero => push_text(&mut text, "division by zero"),
            Error::CompileTimeWord => push_text(&mut text, "interpreting a compile-only word"),
            Error::CustomError(m) => push_text(&mut text, m.as_str()),
            Error::ParsingError(m) => push_text(&mut text, m.as_str()),
            Error::InvalidName(n) => {
                push_text(&mut text, n.as_str());
                push_text(&mut text, " is an invalid name");
            },
            Error::MissingArgument => push_text(&mut text, "argument is missing"),
            Error::Leave => push_text(&mut text, "leave outside of a loop"),
            Error::Exit => push_text(&mut text, "exit outside of a function"),
            Error::Recurse => push_text(&mut text, "recurse outside of a function"),
            Error::Quit => push_text(&mut text, "quit"),
            Error::Abort => push_text(&mut text, "aborted"),
            Error::Include(p) => {
                push_text(&mut text, "cannot include ");
                push_text(&mut text, p.as_str());
            },
            Error::Bye => push_text(&mut text, "bye"),
            Error::StepLimit => push_text(&mut text, "evaluation nested too deep"),
        }
        assert(text@ =~= message_of(self@));
        string_of(&text)
    }
}

} // verus!
