use vstd::prelude::*;
use crate::term::{Expr, Term};

verus! {

/// Why checking or reduction failed.
pub enum Error {
    /// A global name with no entry.
    UnknownReference(Vec<u8>),
    /// A term's type is not convertible to the type it was checked against.
    TypeMismatch { expected: Term, found: Term },
    /// A function with no known type (an unannotated `Lambda`).
    NeedsAnnotation,
    /// An application whose function's type is not a `Pi`.
    NonFunctionApplied(Term),
    /// A case whose scrutinee's type is not an applied datatype former.
    NonDatatypeScrutinee(Term),
    /// A constructor that no branch names.
    MissingBranch(Vec<u8>),
    /// A branch naming something that is not a constructor of the datatype.
    UnknownBranch(Vec<u8>),
    /// Two branches naming the same constructor.
    DuplicateBranch(Vec<u8>),
    /// A motive, or a branch, whose binders do not match the datatype.
    MotiveArityMismatch,
    /// A case on a constructor with no matching branch (a checker defect).
    InternalReductionError,
    /// The reduction budget ran out (a possibly non-terminating program).
    OutOfFuel,
    /// A de Bruijn index or binder depth left the `u64` range.
    IndexOverflow,
}

/// The model of an error: its terms by their models, its names as byte sequences.
pub enum Fault {
    UnknownReference(Seq<u8>),
    TypeMismatch(Expr, Expr),
    NeedsAnnotation,
    NonFunctionApplied(Expr),
    NonDatatypeScrutinee(Expr),
    MissingBranch(Seq<u8>),
    UnknownBranch(Seq<u8>),
    DuplicateBranch(Seq<u8>),
    MotiveArityMismatch,
    InternalReductionError,
    OutOfFuel,
    IndexOverflow,
}

impl Error {
    /// The model of this error (`TypeMismatch(expected, found)`).
    pub open spec fn view(&self) -> Fault {
        match self {
            Error::UnknownReference(n) => Fault::UnknownReference(n@),
            Error::TypeMismatch { expected, found } => Fault::TypeMismatch(expected@, found@),
            Error::NeedsAnnotation => Fault::NeedsAnnotation,
            Error::NonFunctionApplied(t) => Fault::NonFunctionApplied(t@),
            Error::NonDatatypeScrutinee(t) => Fault::NonDatatypeScrutinee(t@),
            Error::MissingBranch(n) => Fault::MissingBranch(n@),
            Error::UnknownBranch(n) => Fault::UnknownBranch(n@),
            Error::DuplicateBranch(n) => Fault::DuplicateBranch(n@),
            Error::MotiveArityMismatch => Fault::MotiveArityMismatch,
            Error::InternalReductionError => Fault::InternalReductionError,
            Error::OutOfFuel => Fault::OutOfFuel,
            Error::IndexOverflow => Fault::IndexOverflow,
        }
    }
}

/// The model of a checking result that carries a term.
pub open spec fn typed_view(r: Result<Term, Error>) -> Result<Expr, Fault> {
    match r {
        Ok(t) => Ok(t@),
        Err(x) => Err(x@),
    }
}

/// The model of a checking result without a value.
pub open spec fn unit_view(r: Result<(), Error>) -> Result<(), Fault> {
    match r {
        Ok(()) => Ok(()),
        Err(x) => Err(x@),
    }
}

} // verus!
