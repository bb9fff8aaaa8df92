//! A small proof-assistant kernel for a dependently typed lambda calculus
//! with a hierarchy of universes.
//!
//! Terms are checked against a context of axioms and theorems. Every
//! executable operation is tied by its contract to a mathematical model of
//! terms ([`model::Term`]) and of the operations on them.
use vstd::prelude::*;

pub mod ast;
pub mod capture;
pub mod context;
pub mod equality;
pub mod error;
pub mod free_vars;
pub mod fresh;
pub mod model;
pub mod nameless;
pub mod normal;
pub mod normalize;
pub mod parser;
pub mod printer;
pub mod scope;
pub mod session;
pub mod shift;
pub mod subst;
pub mod typecheck;
pub mod weakening;

pub use context::Context;
pub use error::{AdditionalErr, Error};
pub use normalize::Normalize;
pub use subst::{Subst, SubstTracker};
pub use typecheck::TypeInfer;

verus! {

/// The integer type of universe levels and of generated identifiers.
pub type Uinf = u128;

} // verus!
