//! Program-level errors: what parsing and calibration expansion can
//! surface. The lexer and parser live outside this crate; their
//! errors are modelled here as plain messages.

use vstd::prelude::*;

use crate::instruction::Instruction;

verus! {

/// A lexing failure, reduced to its message.
#[derive(Debug, PartialEq)]
pub struct LexError {
    pub message: String,
}

/// A parsing failure, reduced to its message.
#[derive(Debug, PartialEq)]
pub struct ParseError {
    pub message: String,
}

/// A syntax error: a lexing or parsing failure.
#[derive(Debug, PartialEq)]
pub struct SyntaxError {
    pub message: String,
}

impl From<LexError> for SyntaxError {
    fn from(e: LexError) -> (r: Self) {
        SyntaxError { message: e.message }
    }
}

impl vstd::std_specs::convert::FromSpecImpl<LexError> for SyntaxError {
    open spec fn obeys_from_spec() -> bool {
        true
    }

    open spec fn from_spec(e: LexError) -> Self {
        SyntaxError { message: e.message }
    }
}

impl From<ParseError> for SyntaxError {
    fn from(e: ParseError) -> (r: Self) {
        SyntaxError { message: e.message }
    }
}

impl vstd::std_specs::convert::FromSpecImpl<ParseError> for SyntaxError {
    open spec fn obeys_from_spec() -> bool {
        true
    }

    open spec fn from_spec(e: ParseError) -> Self {
        SyntaxError { message: e.message }
    }
}

/// A successful parse that left input behind: the partially parsed
/// value and the leftover text.
#[derive(Debug, PartialEq)]
pub struct LeftoverError<T> {
    pub parsed: T,
    pub leftover: String,
}

impl<T> LeftoverError<T> {
    /// Maps the partially parsed value, keeping the leftover text.
    pub fn map_parsed<T2, F: Fn(T) -> T2>(self, map: F) -> (r: LeftoverError<T2>)
        requires
            forall|t: T| call_requires(map, (t,)),
        ensures
            r.leftover == self.leftover,
            call_ensures(map, (self.parsed,), r.parsed),
    {
        LeftoverError { parsed: map(self.parsed), leftover: self.leftover }
    }
}

/// What can go wrong while building a program: an invalid or recursive
/// calibration, a syntax error, or leftover input after parsing.
#[derive(Debug, PartialEq)]
pub enum ProgramError<T> {
    InvalidCalibration { instruction: Instruction, message: String },
    RecursiveCalibration(Instruction),
    Syntax(SyntaxError),
    Leftover(LeftoverError<T>),
}

impl<T> From<LexError> for ProgramError<T> {
    fn from(e: LexError) -> (r: Self) {
        Self::Syntax(SyntaxError::from(e))
    }
}

impl<T> vstd::std_specs::convert::FromSpecImpl<LexError> for ProgramError<T> {
    open spec fn obeys_from_spec() -> bool {
        true
    }

    open spec fn from_spec(e: LexError) -> Self {
        ProgramError::Syntax(SyntaxError { message: e.message })
    }
}

impl<T> From<ParseError> for ProgramError<T> {
    fn from(e: ParseError) -> (r: Self) {
        Self::Syntax(SyntaxError::from(e))
    }
}

impl<T> vstd::std_specs::convert::FromSpecImpl<ParseError> for ProgramError<T> {
    open spec fn obeys_from_spec() -> bool {
        true
    }

    open spec fn from_spec(e: ParseError) -> Self {
        ProgramError::Syntax(SyntaxError { message: e.message })
    }
}

impl<T> From<LeftoverError<T>> for ProgramError<T> {
    fn from(err: LeftoverError<T>) -> (r: Self) {
        Self::Leftover(err)
    }
}

impl<T> vstd::std_specs::convert::FromSpecImpl<LeftoverError<T>> for ProgramError<T> {
    open spec fn obeys_from_spec() -> bool {
        true
    }

    open spec fn from_spec(err: LeftoverError<T>) -> Self {
        ProgramError::Leftover(err)
    }
}

impl<T> ProgramError<T> {
    /// Maps the partially parsed value carried by a leftover error;
    /// every other variant is unchanged.
    pub fn map_parsed<T2, F: Fn(T) -> T2>(self, map: F) -> (r: ProgramError<T2>)
        requires
            forall|t: T| call_requires(map, (t,)),
        ensures
            self matches ProgramError::InvalidCalibration { instruction, message }
                ==> r == (ProgramError::<T2>::InvalidCalibration { instruction, message }),
            self matches ProgramError::RecursiveCalibration(inst)
                ==> r == ProgramError::<T2>::RecursiveCalibration(inst),
            self matches ProgramError::Syntax(err) ==> r == ProgramError::<T2>::Syntax(err),
            self matches ProgramError::Leftover(err) ==> (r matches ProgramError::<T2>::Leftover(err2)
                && err2.leftover == err.leftover
                && call_ensures(map, (err.parsed,), err2.parsed)),
    {
        match self {
            Self::InvalidCalibration { instruction, message } => ProgramError::InvalidCalibration { instruction, message },
            Self::RecursiveCalibration(inst) => ProgramError::RecursiveCalibration(inst),
            Self::Syntax(err) => ProgramError::Syntax(err),
            Self::Leftover(err) => ProgramError::Leftover(err.map_parsed(map)),
        }
    }
}

} // verus!
