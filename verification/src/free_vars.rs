//! What substitution does to the free variables of a term.
use vstd::prelude::*;
use crate::equality::{alpha_eq, lemma_alpha_eq_counter, same_binding};
use crate::model::{limit, Binder, Name, Term};
use crate::subst::{lemma_subst_abs, subst};

verus! {

/// A variable that is free after a substitution was free before and is not
/// the one replaced, or it is free in what was put in.
pub proof fn lemma_subst_free(t: Term, v: Name, r: Term, c: nat, w: Name)
    requires
        subst(t, v, r, c).has_free(w),
    ensures
        (t.has_free(w) && w != v) || r.has_free(w),
    decreases t.size(),
{
    match t {
        Term::Var(_) => {},
        Term::Uni(_) => {},
        Term::App(f, a) => {
            if subst(*f, v, r, c).has_free(w) {
                lemma_subst_free(*f, v, r, c, w);
            } else {
                lemma_subst_free(*a, v, r, c + f.demand(), w);
            }
        },
        Term::Abs(k, x, ty, b) => {
            lemma_subst_abs(t, v, r, c);
            let x2 = x.refreshed(c);
            let c1 = c + 1 + ty.demand();
            let renamed = subst(*b, x, Term::Var(x2), c1);
            if subst(*ty, v, r, c + 1).has_free(w) {
                lemma_subst_free(*ty, v, r, c + 1, w);
            } else {
                lemma_subst_free(renamed, v, r, c1 + b.demand(), w);
                if !r.has_free(w) {
                    lemma_subst_free(*b, x, Term::Var(x2), c1, w);
                }
            }
        },
    }
}

/// Substitution removes the variable: after `r` has been put in place of `v`,
/// where `v` is not free in `r`, `v` is not free in the result.
pub proof fn lemma_subst_removes_variable(t: Term, v: Name, r: Term, c: nat)
    requires
        !r.has_free(v),
    ensures
        !subst(t, v, r, c).has_free(v),
{
    if subst(t, v, r, c).has_free(v) {
        lemma_subst_free(t, v, r, c, v);
    }
}

/// Capture avoidance: putting `x` in place of another variable `y` in
/// `λ x : T, x` does not capture the `x` put in. Where `y` is not the very
/// name that the supply hands out next, the result is again an identity
/// function, and it compares equal to the original exactly when its
/// annotation does. Where `y` is that name, which no supply has handed out
/// yet, the renamed binder is replaced in the body, and the result is the
/// constant function onto `x`.
pub proof fn lemma_capture_avoided(x: Name, ty: Term, y: Name, c: nat, c2: nat)
    requires
        y != x,
        c2 <= limit(),
    ensures
        ({
            let original = Term::Abs(Binder::Lambda, x, Box::new(ty), Box::new(Term::Var(x)));
            let x2 = x.refreshed(c);
            let result = subst(original, y, Term::Var(x), c);
            let body = if x2 == y {
                x
            } else {
                x2
            };
            &&& result == Term::Abs(
                Binder::Lambda,
                x2,
                Box::new(subst(ty, y, Term::Var(x), c + 1)),
                Box::new(Term::Var(body)),
            )
            &&& alpha_eq(original, result, c2).0 == (y != x2 && alpha_eq(
                ty,
                subst(ty, y, Term::Var(x), c + 1),
                c2,
            ).0)
        }),
{
    let original = Term::Abs(Binder::Lambda, x, Box::new(ty), Box::new(Term::Var(x)));
    let x2 = x.refreshed(c);
    let c1 = c + 1 + ty.demand();
    let ty2 = subst(ty, y, Term::Var(x), c + 1);
    let body = if x2 == y {
        x
    } else {
        x2
    };
    lemma_subst_abs(original, y, Term::Var(x), c);
    assert(subst(Term::Var(x), x, Term::Var(x2), c1) == Term::Var(x2));
    assert(subst(Term::Var(x2), y, Term::Var(x), c1) == Term::Var(body));
    let result = Term::Abs(Binder::Lambda, x2, Box::new(ty2), Box::new(Term::Var(body)));
    assert(subst(original, y, Term::Var(x), c) == result);
    lemma_alpha_eq_counter(ty, ty2, c2);
    let (same, c3) = alpha_eq(ty, ty2, c2);
    assert(Term::Var(body).demand() == 0);
    assert(Term::Var(body).has_free(x) == (body == x));
    assert(subst(Term::Var(x2), x2, Term::Var(x), c3) == Term::Var(x));
    assert(alpha_eq(Term::Var(x), Term::Var(x), c3).0);
    assert(alpha_eq(original, result, c2) == same_binding(
        x,
        ty,
        Term::Var(x),
        x2,
        ty2,
        Term::Var(body),
        c2,
    ));
}

} // verus!
