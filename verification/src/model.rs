//! The mathematical model of names and terms that all contracts speak of.
use vstd::prelude::*;

verus! {

/// The largest universe level and the largest generated identifier that the
/// executable representation can hold.
pub open spec fn limit() -> nat {
    u128::MAX as nat
}

/// A variable name: written by the user, or generated with a numeric
/// identifier. A user name never equals a generated one.
pub enum Name {
    User(Seq<char>),
    Fresh(Seq<char>, nat),
}

impl Name {
    /// The textual part of the name.
    pub open spec fn hint(self) -> Seq<char> {
        match self {
            Name::User(s) => s,
            Name::Fresh(s, _) => s,
        }
    }

    /// The generated name that the supply hands out for `self` when its
    /// counter stands at `counter`.
    pub open spec fn refreshed(self, counter: nat) -> Name {
        Name::Fresh(self.hint(), counter + 1)
    }

    /// Whether the identifier of the name, if it has one, is at most `bound`.
    /// A user name has none.
    pub open spec fn below(self, bound: nat) -> bool {
        match self {
            Name::User(_) => true,
            Name::Fresh(_, id) => id <= bound,
        }
    }
}

/// The two kinds of binder.
pub enum Binder {
    Lambda,
    Pi,
}

/// A term of the calculus.
pub enum Term {
    Var(Name),
    Uni(nat),
    App(Box<Term>, Box<Term>),
    /// `Abs(kind, x, annotation, body)`: `x` is bound in `body` only.
    Abs(Binder, Name, Box<Term>, Box<Term>),
}

impl Term {
    /// The number of nodes of the term.
    pub open spec fn size(self) -> nat
        decreases self,
    {
        match self {
            Term::Var(_) => 1,
            Term::Uni(_) => 1,
            Term::App(f, a) => 1 + f.size() + a.size(),
            Term::Abs(_, _, t, b) => 1 + t.size() + b.size(),
        }
    }

    /// The number of names that one substitution into the term draws from
    /// the supply: each binder is renamed once, and its body is walked twice.
    pub open spec fn demand(self) -> nat
        decreases self,
    {
        match self {
            Term::Var(_) => 0,
            Term::Uni(_) => 0,
            Term::App(f, a) => f.demand() + a.demand(),
            Term::Abs(_, _, t, b) => 1 + t.demand() + 2 * b.demand(),
        }
    }

    /// Whether `v` occurs free in the term.
    pub open spec fn has_free(self, v: Name) -> bool
        decreases self,
    {
        match self {
            Term::Var(u) => u == v,
            Term::Uni(_) => false,
            Term::App(f, a) => f.has_free(v) || a.has_free(v),
            Term::Abs(_, x, t, b) => t.has_free(v) || (x != v && b.has_free(v)),
        }
    }

    /// Every name in the term, bound or free, was written by a user.
    pub open spec fn written(self) -> bool
        decreases self,
    {
        match self {
            Term::Var(u) => u is User,
            Term::Uni(_) => true,
            Term::App(f, a) => f.written() && a.written(),
            Term::Abs(_, x, t, b) => x is User && t.written() && b.written(),
        }
    }

    /// Every generated name in the term, bound or free, has an identifier of
    /// at most `bound`.
    pub open spec fn below(self, bound: nat) -> bool
        decreases self,
    {
        match self {
            Term::Var(u) => u.below(bound),
            Term::Uni(_) => true,
            Term::App(f, a) => f.below(bound) && a.below(bound),
            Term::Abs(_, x, t, b) => x.below(bound) && t.below(bound) && b.below(bound),
        }
    }
}

/// What a context records under a name.
pub enum Binding {
    Axiom { typ: Term },
    Unproved { typ: Term },
    Proved { typ: Term, val: Term },
}

impl Binding {
    /// The type recorded in the binding.
    pub open spec fn typ(self) -> Term {
        match self {
            Binding::Axiom { typ } => typ,
            Binding::Unproved { typ } => typ,
            Binding::Proved { typ, .. } => typ,
        }
    }
}

/// The model of a context: a finite map from names to bindings.
pub type Env = Map<Name, Binding>;

} // verus!
