//! Definitional equality: equality of normal forms up to the names of bound
//! variables.
use vstd::prelude::*;
use crate::ast::{Abstraction, Expr};
use crate::context::Context;
use crate::fresh::env_below;
use crate::model::{limit, Env, Name, Term};
use crate::nameless::{
    comparison_demand, lemma_alpha_eq_is_same_up_to_names, lemma_equal_is_same_up_to_names,
    same_up_to_names,
};
use crate::normalize::{normal_form, normalize_expr};
use crate::subst::{subst, try_subst, SubstTracker};

verus! {

/// Whether `a` and `b` are equal up to the names of their bound variables,
/// paired with the supply's counter after the comparison, which starts with
/// the counter at `c`.
///
/// Variables and universes are compared as they stand, applications part by
/// part, and binders of one kind by [`same_binding`]. A lambda abstraction
/// never equals a pi type. The comparison stops at the first difference.
///
/// For terms whose generated names the supply has handed out, and with a
/// supply that can hand out the names that the comparison draws, the result
/// is `true` exactly for the terms that are the same without the names of
/// their bound variables: see `lemma_alpha_eq_is_same_up_to_names` in
/// [`crate::nameless`].
pub open spec fn alpha_eq(a: Term, b: Term, c: nat) -> (bool, nat)
    decreases a.size(), 1nat,
{
    match (a, b) {
        (Term::Var(x), Term::Var(y)) => (x == y, c),
        (Term::Uni(i), Term::Uni(j)) => (i == j, c),
        (Term::App(f1, a1), Term::App(f2, a2)) => {
            let (same, c1) = alpha_eq(*f1, *f2, c);
            if same {
                alpha_eq(*a1, *a2, c1)
            } else {
                (false, c1)
            }
        },
        (Term::Abs(k1, x1, t1, b1), Term::Abs(k2, x2, t2, b2)) => {
            if k1 == k2 {
                same_binding(x1, *t1, *b1, x2, *t2, *b2, c)
            } else {
                (false, c)
            }
        },
        _ => (false, c),
    }
}

/// The comparison of two binders of one kind. The annotations are compared
/// first. Then the first bound variable is put in place of the second in the
/// second body, and the bodies are compared. Where the two bound variables
/// differ and the first is free in the second body, the renaming would take
/// that free variable for the bound one: the binders are different. Where
/// the supply cannot hand out the names that the renaming needs, the binders
/// count as different.
pub open spec fn same_binding(
    x1: Name,
    t1: Term,
    b1: Term,
    x2: Name,
    t2: Term,
    b2: Term,
    c: nat,
) -> (bool, nat)
    decreases 1 + t1.size() + b1.size(), 0nat,
{
    let (same, c1) = alpha_eq(t1, t2, c);
    if !same || (x1 != x2 && b2.has_free(x1)) || c1 + b2.demand() > limit() {
        (false, c1)
    } else {
        alpha_eq(b1, subst(b2, x2, Term::Var(x1), c1), c1 + b2.demand())
    }
}

/// Whether `a` and `b` are definitionally equal under `env`: both have a
/// normal form, and the two normal forms are equal up to the names of bound
/// variables. `a` is normalized first. Paired with the supply's counter after
/// the computation.
pub open spec fn equal(a: Term, b: Term, env: Env, c: nat, fuel: nat) -> (bool, nat) {
    let (na, c1) = normal_form(a, env, c, fuel);
    if na is None {
        (false, c1)
    } else {
        let (nb, c2) = normal_form(b, env, c1, fuel);
        if nb is None {
            (false, c2)
        } else {
            alpha_eq(na->0, nb->0, c2)
        }
    }
}

/// A comparison that starts with the counter within the limit leaves it
/// there, and never lowers it.
pub proof fn lemma_alpha_eq_counter(a: Term, b: Term, c: nat)
    requires
        c <= limit(),
    ensures
        c <= alpha_eq(a, b, c).1 <= limit(),
    decreases a.size(), 1nat,
{
    match (a, b) {
        (Term::App(f1, a1), Term::App(f2, a2)) => {
            lemma_alpha_eq_counter(*f1, *f2, c);
            lemma_alpha_eq_counter(*a1, *a2, alpha_eq(*f1, *f2, c).1);
        },
        (Term::Abs(k1, x1, t1, b1), Term::Abs(k2, x2, t2, b2)) => {
            if k1 == k2 {
                lemma_same_binding_counter(x1, *t1, *b1, x2, *t2, *b2, c);
            }
        },
        _ => {},
    }
}

/// As [`lemma_alpha_eq_counter`], for the comparison of two binders.
pub proof fn lemma_same_binding_counter(
    x1: Name,
    t1: Term,
    b1: Term,
    x2: Name,
    t2: Term,
    b2: Term,
    c: nat,
)
    requires
        c <= limit(),
    ensures
        c <= same_binding(x1, t1, b1, x2, t2, b2, c).1 <= limit(),
    decreases 1 + t1.size() + b1.size(), 0nat,
{
    lemma_alpha_eq_counter(t1, t2, c);
    let (same, c1) = alpha_eq(t1, t2, c);
    if same && !(x1 != x2 && b2.has_free(x1)) && c1 + b2.demand() <= limit() {
        lemma_alpha_eq_counter(b1, subst(b2, x2, Term::Var(x1), c1), c1 + b2.demand());
    }
}

/// Whether the terms that the comparison is made for are within its reach:
/// the supply's counter `c` bounds the identifiers in both, and the supply
/// can hand out the names that the comparison draws.
pub open spec fn comparable(a: Term, b: Term, c: nat) -> bool {
    a.below(c) && b.below(c) && c + comparison_demand(b) <= limit()
}

/// Compares two normal forms up to the names of their bound variables: the
/// result is `true` exactly when the two are the same without those names.
/// The steps of the comparison, and the names that it draws whatever the
/// terms, are those of [`alpha_eq`].
pub fn normalized_types_equal(e1: &Expr, e2: &Expr, trk: &mut SubstTracker) -> (r: bool)
    ensures
        comparable(e1@, e2@, old(trk).level()) ==> r == same_up_to_names(e1@, e2@),
        (r, final(trk).level()) == alpha_eq(e1@, e2@, old(trk).level()),
        final(trk).fuel() == old(trk).fuel(),
{
    proof {
        if comparable(e1@, e2@, trk.level()) {
            lemma_alpha_eq_is_same_up_to_names(e1@, e2@, trk.level());
        }
    }
    compare(e1, e2, trk)
}

/// The steps of [`normalized_types_equal`].
fn compare(e1: &Expr, e2: &Expr, trk: &mut SubstTracker) -> (r: bool)
    ensures
        (r, final(trk).level()) == alpha_eq(e1@, e2@, old(trk).level()),
        final(trk).fuel() == old(trk).fuel(),
    decreases e1@.size(), 1nat,
{
    match (e1, e2) {
        (Expr::Var(v1), Expr::Var(v2)) => *v1 == *v2,
        (Expr::App(a1), Expr::App(a2)) => {
            compare(&a1.e1, &a2.e1, trk) && compare(&a1.e2, &a2.e2, trk)
        },
        (Expr::Uni(u1), Expr::Uni(u2)) => u1.level == u2.level,
        (Expr::Lambda(l1), Expr::Lambda(l2)) => compare_binders(l1, l2, trk),
        (Expr::Pi(p1), Expr::Pi(p2)) => compare_binders(p1, p2, trk),
        (_, _) => false,
    }
}

/// Compares two binders of one kind, see [`same_binding`].
pub fn normalized_abs_equal<T>(a1: &Abstraction<T>, a2: &Abstraction<T>, trk: &mut SubstTracker) -> (r:
    bool)
    ensures
        (r, final(trk).level()) == same_binding(
            a1.x@,
            a1.t@,
            a1.e@,
            a2.x@,
            a2.t@,
            a2.e@,
            old(trk).level(),
        ),
        final(trk).fuel() == old(trk).fuel(),
{
    compare_binders(a1, a2, trk)
}

/// The steps of [`normalized_abs_equal`].
fn compare_binders<T>(a1: &Abstraction<T>, a2: &Abstraction<T>, trk: &mut SubstTracker) -> (r:
    bool)
    ensures
        (r, final(trk).level()) == same_binding(
            a1.x@,
            a1.t@,
            a1.e@,
            a2.x@,
            a2.t@,
            a2.e@,
            old(trk).level(),
        ),
        final(trk).fuel() == old(trk).fuel(),
    decreases 1 + a1.t@.size() + a1.e@.size(), 0nat,
{
    if !compare(&a1.t, &a2.t, trk) {
        return false;
    }
    if a1.x != a2.x && a2.e.has_free(&a1.x) {
        return false;
    }
    let mut e2 = a2.e.duplicate();
    let xvar = Expr::Var(a1.x.clone());
    if !try_subst(&mut e2, &a2.x, &xvar, trk) {
        return false;
    }
    compare(&a1.e, &e2, trk)
}

impl Context {
    /// Whether `e1` and `e2` are definitionally equal under the context:
    /// both have a normal form, and the two normal forms are the same without
    /// the names of their bound variables. The steps, and the names drawn
    /// whatever the result, are those of [`equal`].
    pub fn types_equal(&self, trk: &mut SubstTracker, e1: &Expr, e2: &Expr) -> (r: bool)
        ensures
            ({
                let c = old(trk).level();
                let (n1, c1) = normal_form(e1@, self@, c, old(trk).fuel());
                let (n2, c2) = normal_form(e2@, self@, c1, old(trk).fuel());
                let in_reach = e1@.below(c) && e2@.below(c) && env_below(self@, c) && (n1 is Some
                    && n2 is Some ==> c2 + comparison_demand(n2->0) <= limit());
                in_reach ==> r == (n1 is Some && n2 is Some && same_up_to_names(n1->0, n2->0))
            }),
            (r, final(trk).level()) == equal(
                e1@,
                e2@,
                self@,
                old(trk).level(),
                old(trk).fuel(),
            ),
            final(trk).fuel() == old(trk).fuel(),
    {
        proof {
            let c = trk.level();
            let (n1, c1) = normal_form(e1@, self@, c, trk.fuel());
            let (n2, c2) = normal_form(e2@, self@, c1, trk.fuel());
            if e1@.below(c) && e2@.below(c) && env_below(self@, c) && (n1 is Some && n2 is Some
                ==> c2 + comparison_demand(n2->0) <= limit()) {
                lemma_equal_is_same_up_to_names(e1@, e2@, self@, c, trk.fuel());
            }
        }
        let fuel = trk.fuel_limit();
        let e1 = match normalize_expr(e1, self, trk, fuel) {
            Some(e) => e,
            None => {
                return false;
            },
        };
        let e2 = match normalize_expr(e2, self, trk, fuel) {
            Some(e) => e,
            None => {
                return false;
            },
        };
        compare(&e1, &e2, trk)
    }
}

} // verus!
