//! Scoping: what has a normal form or a type has its free variables in the
//! context.
use vstd::prelude::*;
use crate::model::{Binder, Binding, Env, Name, Term};
use crate::normalize::normal_form;
use crate::typecheck::{infer, infer_pi_parts, infer_universe_level};

verus! {

/// A term with a free variable that the context does not hold has no normal
/// form.
pub proof fn lemma_unbound_variable_has_no_normal_form(
    t: Term,
    env: Env,
    c: nat,
    fuel: nat,
    v: Name,
)
    requires
        t.has_free(v),
        !env.contains_key(v),
    ensures
        normal_form(t, env, c, fuel).0 is None,
    decreases t,
{
    match t {
        Term::Var(_) => {},
        Term::Uni(_) => {},
        Term::App(f, a) => {
            let (arg, c1) = normal_form(*a, env, c, fuel);
            if a.has_free(v) {
                lemma_unbound_variable_has_no_normal_form(*a, env, c, fuel, v);
            } else {
                lemma_unbound_variable_has_no_normal_form(*f, env, c1, fuel, v);
            }
        },
        Term::Abs(_, x, ty, b) => {
            let (ty2, c1) = normal_form(*ty, env, c, fuel);
            if ty.has_free(v) {
                lemma_unbound_variable_has_no_normal_form(*ty, env, c, fuel, v);
            } else if ty2 is Some {
                let inner = env.insert(x, Binding::Unproved { typ: ty2->0 });
                lemma_unbound_variable_has_no_normal_form(*b, inner, c1, fuel, v);
            }
        },
    }
}

/// A term with a free variable that the context does not hold has no type.
pub proof fn lemma_unbound_variable_has_no_type(t: Term, env: Env, c: nat, fuel: nat, v: Name)
    requires
        t.has_free(v),
        !env.contains_key(v),
    ensures
        infer(t, env, c, fuel).0 is None,
    decreases t,
{
    match t {
        Term::Var(_) => {},
        Term::Uni(_) => {},
        Term::Abs(k, x, a, b) => {
            let (k1, c1) = infer_universe_level(*a, env, c, fuel);
            if a.has_free(v) {
                lemma_unbound_variable_has_no_type(*a, env, c, fuel, v);
                assert(k1 is None);
            } else {
                let inner = env.insert(x, Binding::Unproved { typ: *a });
                lemma_unbound_variable_has_no_type(*b, inner, c1, fuel, v);
                assert(infer_universe_level(*b, inner, c1, fuel).0 is None);
            }
            match k {
                Binder::Pi => {},
                Binder::Lambda => {},
            }
        },
        Term::App(f, a) => {
            let (pi, c1) = infer_pi_parts(*f, env, c, fuel);
            if f.has_free(v) {
                lemma_unbound_variable_has_no_type(*f, env, c, fuel, v);
                assert(pi is None);
            } else {
                lemma_unbound_variable_has_no_type(*a, env, c1, fuel, v);
            }
        },
    }
}

} // verus!
