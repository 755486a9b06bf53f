//! The error taxonomy: lexical errors, syntax errors, binding errors and
//! type errors.  Every failure of the reader or the evaluator is reported
//! through [`Error`]; nothing panics.  Binding failures are fatal: an atom
//! that is not bound fails evaluation rather than yielding unit.

use vstd::prelude::*;

use crate::reader::Loc;
use crate::value::{view_value, SpecValue, Value};

verus! {

/// A failure of lexing, parsing or evaluation.
#[derive(Debug)]
pub enum Error {
    /// An unrecognized character, at its location.
    BadChar(char, Loc),
    /// A numeric token whose value does not fit the number model.
    BadNumber(Loc),
    /// End of input inside a list; the location is the opening delimiter's.
    Unbalanced(Loc),
    /// A token standing where no expression can begin.
    Unexpected(Loc),
    /// A lookup of a name that no frame binds.
    Undefined(String),
    /// A definition of a name already bound in the innermost frame.
    Redefined(String),
    /// A condition that did not evaluate to a boolean.
    NotABool(Value),
    /// An arithmetic argument that did not evaluate to a number.
    NotANumber(Value),
    /// A binding or parameter position holding something besides an atom.
    NotAnAtom(Value),
    /// A parameter-list position holding something besides a list.
    NotAList(Value),
    /// An application whose head is neither a native function nor a closure.
    NotCallable(Value),
    /// A special form applied to fewer arguments than it requires.
    MissingArg,
    /// An arithmetic result outside the representable decimals.
    Overflow,
    /// Evaluation deeper than the caller's step budget.
    OutOfFuel,
}

/// The mathematical counterpart of an [`Error`].
pub enum SpecError {
    BadChar(char, Loc),
    BadNumber(Loc),
    Unbalanced(Loc),
    Unexpected(Loc),
    Undefined(Seq<char>),
    Redefined(Seq<char>),
    NotABool(SpecValue),
    NotANumber(SpecValue),
    NotAnAtom(SpecValue),
    NotAList(SpecValue),
    NotCallable(SpecValue),
    MissingArg,
    Overflow,
    OutOfFuel,
}

/// The model of an error.
pub open spec fn view_error(e: Error) -> SpecError {
    match e {
        Error::BadChar(c, l) => SpecError::BadChar(c, l),
        Error::BadNumber(l) => SpecError::BadNumber(l),
        Error::Unbalanced(l) => SpecError::Unbalanced(l),
        Error::Unexpected(l) => SpecError::Unexpected(l),
        Error::Undefined(s) => SpecError::Undefined(s@),
        Error::Redefined(s) => SpecError::Redefined(s@),
        Error::NotABool(v) => SpecError::NotABool(view_value(v)),
        Error::NotANumber(v) => SpecError::NotANumber(view_value(v)),
        Error::NotAnAtom(v) => SpecError::NotAnAtom(view_value(v)),
        Error::NotAList(v) => SpecError::NotAList(view_value(v)),
        Error::NotCallable(v) => SpecError::NotCallable(view_value(v)),
        Error::MissingArg => SpecError::MissingArg,
        Error::Overflow => SpecError::Overflow,
        Error::OutOfFuel => SpecError::OutOfFuel,
    }
}

/// The model of an evaluation result.
pub open spec fn res_view(r: Result<Value, Error>) -> Result<SpecValue, SpecError> {
    match r {
        Ok(v) => Ok(view_value(v)),
        Err(e) => Err(view_error(e)),
    }
}

} // verus!
