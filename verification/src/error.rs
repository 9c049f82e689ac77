//! Errors.

use crate::location::{Location, Place};
use vstd::prelude::*;
use vstd::string::StringExecFns;

verus! {

/// A value of the wrong kind was met during evaluation, or an operation was
/// given operands that it does not take.
#[derive(Debug)]
pub struct TypeError {
    pub msg: String,
}

impl View for TypeError {
    type V = Seq<char>;

    open spec fn view(&self) -> Seq<char> {
        self.msg@
    }
}

impl TypeError {
    pub fn new(msg: String) -> (e: TypeError)
        ensures
            e@ == msg@,
    {
        TypeError { msg }
    }

    /// The message.
    pub fn to_text(&self) -> (s: String)
        ensures
            s@ == self@,
    {
        self.msg.clone()
    }
}

/// Why a source text could not be run.
#[derive(Debug)]
pub enum LispError {
    /// A `)` closes nothing.
    UnmatchedClosingParen { location: Location },
    /// A `(` is never closed.
    UnmatchedOpeningParen { location: Location },
    /// An identifier is bound to nothing.
    UnknownIdentifier { name: String, location: Location },
    /// A pair of parentheses holds nothing.
    EmptyStatement { location: Location },
    /// A call starts with something that is no function.
    NotCallable { location: Location },
    /// Evaluation failed.
    TypeMismatch { message: String },
}

/// What a `LispError` stands for.
pub enum Failure {
    UnmatchedClosingParen { location: Place },
    UnmatchedOpeningParen { location: Place },
    UnknownIdentifier { name: Seq<char>, location: Place },
    EmptyStatement { location: Place },
    NotCallable { location: Place },
    TypeMismatch { message: Seq<char> },
}

impl View for LispError {
    type V = Failure;

    open spec fn view(&self) -> Failure {
        match self {
            LispError::UnmatchedClosingParen { location } => Failure::UnmatchedClosingParen {
                location: location@,
            },
            LispError::UnmatchedOpeningParen { location } => Failure::UnmatchedOpeningParen {
                location: location@,
            },
            LispError::UnknownIdentifier { name, location } => Failure::UnknownIdentifier {
                name: name@,
                location: location@,
            },
            LispError::EmptyStatement { location } => Failure::EmptyStatement {
                location: location@,
            },
            LispError::NotCallable { location } => Failure::NotCallable { location: location@ },
            LispError::TypeMismatch { message } => Failure::TypeMismatch { message: message@ },
        }
    }
}

impl Failure {
    /// The message that describes the failure.
    pub open spec fn text(self) -> Seq<char> {
        match self {
            Failure::UnmatchedClosingParen { location } => location.text()
                + " - Unmatched closing parenthesis!"@,
            Failure::UnmatchedOpeningParen { location } => location.text()
                + " - Unmatched opening parenthesis!"@,
            Failure::UnknownIdentifier { name, location } => location.text()
                + " - Unknown identifier `"@ + name + "`!"@,
            Failure::EmptyStatement { location } => location.text()
                + " - Empty statements are not allowed!"@,
            Failure::NotCallable { location } => location.text()
                + " - Cannot make a raw list (Yet..)!"@,
            Failure::TypeMismatch { message } => message,
        }
    }
}

impl LispError {
    /// The message that describes the error.
    pub fn to_text(&self) -> (s: String)
        ensures
            s@ == self@.text(),
    {
        match self {
            LispError::UnmatchedClosingParen { location } => {
                let mut s = location.to_text();
                s.append(" - Unmatched closing parenthesis!");
                s
            },
            LispError::UnmatchedOpeningParen { location } => {
                let mut s = location.to_text();
                s.append(" - Unmatched opening parenthesis!");
                s
            },
            LispError::UnknownIdentifier { name, location } => {
                let mut s = location.to_text();
                s.append(" - Unknown identifier `");
                s.append(name.as_str());
                s.append("`!");
                s
            },
            LispError::EmptyStatement { location } => {
                let mut s = location.to_text();
                s.append(" - Empty statements are not allowed!");
                s
            },
            LispError::NotCallable { location } => {
                let mut s = location.to_text();
                s.append(" - Cannot make a raw list (Yet..)!");
                s
            },
            LispError::TypeMismatch { message } => message.clone(),
        }
    }
}

impl vstd::std_specs::convert::FromSpecImpl<TypeError> for LispError {
    open spec fn obeys_from_spec() -> bool {
        true
    }

    open spec fn from_spec(e: TypeError) -> LispError {
        LispError::TypeMismatch { message: e.msg }
    }
}

impl From<TypeError> for LispError {
    fn from(e: TypeError) -> (r: LispError) {
        LispError::TypeMismatch { message: e.msg }
    }
}

} // verus!
