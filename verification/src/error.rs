//! What the kernel reports when it refuses a statement.
use vstd::prelude::*;
use crate::ast::Expr;
use crate::model::Term;

verus! {

/// The model of an [`Error`].
pub enum Fault {
    CannotProveAxiom,
    VariableNotFound,
    ExprDoesNotTypeCheck,
    /// The type that was stated, then the type that was inferred.
    TypesDoNotMatch(Term, Term),
    AlreadyExists,
}

impl Fault {
    /// The message that is shown for the fault.
    pub open spec fn diagnostic(self) -> Seq<char> {
        match self {
            Fault::CannotProveAxiom => "Axioms cannot be proven"@,
            Fault::VariableNotFound => "Bound variable is not found"@,
            Fault::ExprDoesNotTypeCheck => "Expression does not type check"@,
            Fault::TypesDoNotMatch(_, _) => "Types do not match"@,
            Fault::AlreadyExists => "Axiom or theorem with the same name already exists"@,
        }
    }
}

/// The cause of an error, where one is known.
pub type AdditionalErr = Option<Box<Error>>;

#[derive(Debug)]
pub enum Error {
    /// A proof was given for an axiom.
    CannotProveAxiom,
    /// A proof was given for a name that the context does not hold.
    VariableNotFound,
    /// An expression has no type. The kernel gives no cause.
    ExprDoesNotTypeCheck(AdditionalErr),
    /// The type of a proof is not the type of its theorem: the stated type,
    /// then the inferred one.
    TypesDoNotMatch(Expr, Expr),
    /// The name is already that of an axiom or a theorem.
    AlreadyExists,
}

impl View for Error {
    type V = Fault;

    open spec fn view(&self) -> Fault {
        match self {
            Error::CannotProveAxiom => Fault::CannotProveAxiom,
            Error::VariableNotFound => Fault::VariableNotFound,
            Error::ExprDoesNotTypeCheck(_) => Fault::ExprDoesNotTypeCheck,
            Error::TypesDoNotMatch(expected, actual) => Fault::TypesDoNotMatch(expected@, actual@),
            Error::AlreadyExists => Fault::AlreadyExists,
        }
    }
}

impl Error {
    /// The message that is shown for the error.
    pub fn message(&self) -> (r: String)
        ensures
            r@ == self@.diagnostic(),
    {
        match self {
            Error::CannotProveAxiom => "Axioms cannot be proven".to_owned(),
            Error::VariableNotFound => "Bound variable is not found".to_owned(),
            Error::ExprDoesNotTypeCheck(_) => "Expression does not type check".to_owned(),
            Error::TypesDoNotMatch(_, _) => "Types do not match".to_owned(),
            Error::AlreadyExists => "Axiom or theorem with the same name already exists".to_owned(),
        }
    }
}

} // verus!
