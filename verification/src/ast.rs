//! The executable syntax tree and its view as a [`Term`].
use vstd::prelude::*;
use vstd::std_specs::cmp::PartialEqSpecImpl;
use vstd::std_specs::convert::FromSpecImpl;
use std::marker::PhantomData;
use crate::model::{Binder, Name, Term};
use crate::Uinf;

verus! {

/// A top level statement.
#[derive(Debug)]
pub enum Statement {
    /// A named type that is taken without proof.
    Axiom(Axiom),
    /// A theorem.
    TH(Theorem),
    /// A proof.
    PF(Proof),
}

/// The statement of an axiom.
#[derive(Debug)]
pub struct Axiom {
    /// The name of the axiom.
    pub name: Variable,
    /// The type that the axiom inhabits.
    pub typ: Expr,
}

/// The statement of a theorem, without its proof.
#[derive(Debug)]
pub struct Theorem {
    /// The name of the theorem.
    pub name: Variable,
    /// The type that states the theorem.
    pub typ: Expr,
}

/// The proof of a theorem that was stated before.
#[derive(Debug)]
pub struct Proof {
    /// The name of the theorem.
    pub name: Variable,
    /// The proof of the theorem.
    pub value: Expr,
}

/// A name written by the user.
#[derive(Debug, Eq, Hash)]
pub struct StrVar {
    pub name: String,
}

/// A name generated during substitution. Identifiers are handed out by a
/// `SubstTracker`; one made by hand may collide with a later generated name.
#[derive(Debug, Eq, Hash)]
pub struct GenSym {
    pub name: String,
    pub id: Uinf,
}

/// A variable name. Two names are equal when they are of one kind and agree
/// in their text and, for generated names, in their identifier.
#[derive(Debug, Eq, Hash)]
pub enum Variable {
    /// The variant for names that users write.
    Str(StrVar),
    /// A name generated during analysis.
    GenSym(GenSym),
}

/// A universe of types.
#[derive(Clone, Copy, PartialEq, Eq, PartialOrd, Ord, Structural, Debug)]
pub struct Universe {
    pub level: Uinf,
}

/// Function application.
#[derive(Debug)]
pub struct Application {
    pub e1: Box<Expr>,
    pub e2: Box<Expr>,
}

/// A binder. The marker `T` tells a lambda abstraction from a pi type.
#[derive(Debug)]
pub struct Abstraction<T> {
    /// The bound variable.
    pub x: Variable,
    /// The type of the bound variable; `x` is not bound in it.
    pub t: Box<Expr>,
    /// The expression in which `x` is bound.
    pub e: Box<Expr>,
    /// Tells pi types from lambda abstractions.
    pub _ty: PhantomData<T>,
}

/// The marker of pi types.
#[derive(Clone, Copy, Debug)]
pub struct PiPhantom;

/// The marker of lambda abstractions.
#[derive(Clone, Copy, Debug)]
pub struct LambdaPhantom;

/// Pi types.
pub type Pi = Abstraction<PiPhantom>;

/// Lambda abstractions.
pub type Lambda = Abstraction<LambdaPhantom>;

/// An expression of the calculus.
#[derive(Debug)]
pub enum Expr {
    Var(Variable),
    Uni(Universe),
    Pi(Pi),
    Lambda(Lambda),
    App(Application),
}

impl View for Variable {
    type V = Name;

    open spec fn view(&self) -> Name {
        match self {
            Variable::Str(s) => Name::User(s.name@),
            Variable::GenSym(g) => Name::Fresh(g.name@, g.id as nat),
        }
    }
}

impl Expr {
    /// The term that the expression stands for.
    pub open spec fn term(&self) -> Term
        decreases self,
    {
        match self {
            Expr::Var(v) => Term::Var(v@),
            Expr::Uni(u) => Term::Uni(u.level as nat),
            Expr::Pi(p) => Term::Abs(
                Binder::Pi,
                p.x@,
                Box::new(p.t.term()),
                Box::new(p.e.term()),
            ),
            Expr::Lambda(l) => Term::Abs(
                Binder::Lambda,
                l.x@,
                Box::new(l.t.term()),
                Box::new(l.e.term()),
            ),
            Expr::App(a) => Term::App(Box::new(a.e1.term()), Box::new(a.e2.term())),
        }
    }

    /// Whether `v` occurs free in the expression.
    pub fn has_free(&self, v: &Variable) -> (r: bool)
        ensures
            r == self@.has_free(v@),
        decreases self,
    {
        match self {
            Expr::Var(u) => *u == *v,
            Expr::Uni(_) => false,
            Expr::App(a) => a.e1.has_free(v) || a.e2.has_free(v),
            Expr::Pi(p) => p.t.has_free(v) || (p.x != *v && p.e.has_free(v)),
            Expr::Lambda(l) => l.t.has_free(v) || (l.x != *v && l.e.has_free(v)),
        }
    }

    /// A copy of the whole tree.
    pub fn duplicate(&self) -> (r: Self)
        ensures
            r == *self,
        decreases self,
    {
        match self {
            Expr::Var(v) => Expr::Var(v.clone()),
            Expr::Uni(u) => Expr::Uni(*u),
            Expr::Pi(p) => Expr::Pi(
                Abstraction {
                    x: p.x.clone(),
                    t: Box::new(p.t.duplicate()),
                    e: Box::new(p.e.duplicate()),
                    _ty: PhantomData,
                },
            ),
            Expr::Lambda(l) => Expr::Lambda(
                Abstraction {
                    x: l.x.clone(),
                    t: Box::new(l.t.duplicate()),
                    e: Box::new(l.e.duplicate()),
                    _ty: PhantomData,
                },
            ),
            Expr::App(a) => Expr::App(
                Application { e1: Box::new(a.e1.duplicate()), e2: Box::new(a.e2.duplicate()) },
            ),
        }
    }
}

impl View for Expr {
    type V = Term;

    open spec fn view(&self) -> Term {
        self.term()
    }
}

impl From<Pi> for Expr {
    fn from(l: Pi) -> (r: Self) {
        Expr::Pi(l)
    }
}

impl FromSpecImpl<Pi> for Expr {
    open spec fn obeys_from_spec() -> bool {
        true
    }

    open spec fn from_spec(l: Pi) -> Self {
        Expr::Pi(l)
    }
}

impl From<Lambda> for Expr {
    fn from(l: Lambda) -> (r: Self) {
        Expr::Lambda(l)
    }
}

impl FromSpecImpl<Lambda> for Expr {
    open spec fn obeys_from_spec() -> bool {
        true
    }

    open spec fn from_spec(l: Lambda) -> Self {
        Expr::Lambda(l)
    }
}

impl PartialEq for StrVar {
    fn eq(&self, other: &Self) -> (r: bool) {
        self.name == other.name
    }
}

impl PartialEqSpecImpl for StrVar {
    open spec fn obeys_eq_spec() -> bool {
        true
    }

    open spec fn eq_spec(&self, other: &Self) -> bool {
        self.name@ == other.name@
    }
}

impl PartialEq for GenSym {
    fn eq(&self, other: &Self) -> (r: bool) {
        self.name == other.name && self.id == other.id
    }
}

impl PartialEqSpecImpl for GenSym {
    open spec fn obeys_eq_spec() -> bool {
        true
    }

    open spec fn eq_spec(&self, other: &Self) -> bool {
        self.name@ == other.name@ && self.id == other.id
    }
}

impl Clone for StrVar {
    fn clone(&self) -> (r: Self)
        ensures
            r == *self,
    {
        StrVar { name: self.name.clone() }
    }
}

impl Clone for GenSym {
    fn clone(&self) -> (r: Self)
        ensures
            r == *self,
    {
        GenSym { name: self.name.clone(), id: self.id }
    }
}

impl Clone for Application {
    fn clone(&self) -> (r: Self)
        ensures
            r == *self,
    {
        Application { e1: Box::new(self.e1.duplicate()), e2: Box::new(self.e2.duplicate()) }
    }
}

impl<T> Clone for Abstraction<T> {
    fn clone(&self) -> (r: Self)
        ensures
            r.x == self.x,
            r.t == self.t,
            r.e == self.e,
    {
        Abstraction {
            x: self.x.clone(),
            t: Box::new(self.t.duplicate()),
            e: Box::new(self.e.duplicate()),
            _ty: PhantomData,
        }
    }
}

impl PartialEq for Variable {
    fn eq(&self, other: &Self) -> (r: bool) {
        match (self, other) {
            (Variable::Str(a), Variable::Str(b)) => *a == *b,
            (Variable::GenSym(a), Variable::GenSym(b)) => *a == *b,
            _ => false,
        }
    }
}

impl PartialEqSpecImpl for Variable {
    open spec fn obeys_eq_spec() -> bool {
        true
    }

    open spec fn eq_spec(&self, other: &Self) -> bool {
        self@ == other@
    }
}

impl Clone for Variable {
    fn clone(&self) -> (r: Self)
        ensures
            r == *self,
    {
        match self {
            Variable::Str(s) => Variable::Str(s.clone()),
            Variable::GenSym(g) => Variable::GenSym(g.clone()),
        }
    }
}

impl Clone for Expr {
    fn clone(&self) -> (r: Self)
        ensures
            r == *self,
    {
        self.duplicate()
    }
}

} // verus!
