//! A context that grows, and fuel that is added, keep what was computed.
use vstd::prelude::*;
use crate::equality::equal;
use crate::model::{Binder, Binding, Env, Name, Term};
use crate::normal::lemma_normal_form_with_more_fuel;
use crate::normalize::normal_form;
use crate::subst::subst;
use crate::typecheck::{infer, infer_pi_parts, infer_universe_level};

verus! {

/// Both contexts grow alike under a binder.
proof fn lemma_insert_keeps_submap(env: Env, larger: Env, x: Name, b: Binding)
    requires
        env.submap_of(larger),
    ensures
        env.insert(x, b).submap_of(larger.insert(x, b)),
{
}

/// A normal form computed under a context is the normal form under every
/// context that holds the same entries and more.
pub proof fn lemma_normal_form_weakening(t: Term, env: Env, larger: Env, c: nat, fuel: nat)
    requires
        env.submap_of(larger),
        normal_form(t, env, c, fuel).0 is Some,
    ensures
        normal_form(t, larger, c, fuel) == normal_form(t, env, c, fuel),
    decreases fuel, t.size(),
{
    match t {
        Term::Var(v) => {
            assert(env.dom().contains(v));
            match env[v] {
                Binding::Proved { val, .. } => {
                    lemma_normal_form_weakening(val, env, larger, c, (fuel - 1) as nat);
                },
                _ => {},
            }
        },
        Term::Uni(_) => {},
        Term::App(f, a) => {
            let (arg, c1) = normal_form(*a, env, c, fuel);
            let (fun, c2) = normal_form(*f, env, c1, fuel);
            lemma_normal_form_weakening(*a, env, larger, c, fuel);
            lemma_normal_form_weakening(*f, env, larger, c1, fuel);
            match fun {
                Some(Term::Abs(Binder::Lambda, x, _, body)) => {
                    lemma_normal_form_weakening(
                        subst(*body, x, arg->0, c2),
                        env,
                        larger,
                        c2 + body.demand(),
                        (fuel - 1) as nat,
                    );
                },
                _ => {},
            }
        },
        Term::Abs(k, x, ty, b) => {
            let (ty2, c1) = normal_form(*ty, env, c, fuel);
            lemma_normal_form_weakening(*ty, env, larger, c, fuel);
            let entry = Binding::Unproved { typ: ty2->0 };
            lemma_insert_keeps_submap(env, larger, x, entry);
            lemma_normal_form_weakening(
                *b,
                env.insert(x, entry),
                larger.insert(x, entry),
                c1,
                fuel,
            );
        },
    }
}

/// Two terms that are definitionally equal under a context are so under
/// every context that holds the same entries and more.
pub proof fn lemma_equal_weakening(a: Term, b: Term, env: Env, larger: Env, c: nat, fuel: nat)
    requires
        env.submap_of(larger),
        equal(a, b, env, c, fuel).0,
    ensures
        equal(a, b, larger, c, fuel) == equal(a, b, env, c, fuel),
{
    let (na, c1) = normal_form(a, env, c, fuel);
    lemma_normal_form_weakening(a, env, larger, c, fuel);
    lemma_normal_form_weakening(b, env, larger, c1, fuel);
}

/// A type inferred under a context is the type inferred under every context
/// that holds the same entries and more.
pub proof fn lemma_infer_weakening(t: Term, env: Env, larger: Env, c: nat, fuel: nat)
    requires
        env.submap_of(larger),
        infer(t, env, c, fuel).0 is Some,
    ensures
        infer(t, larger, c, fuel) == infer(t, env, c, fuel),
    decreases t.size(), 0nat,
{
    match t {
        Term::Var(v) => {
            assert(env.dom().contains(v));
        },
        Term::Uni(_) => {},
        Term::Abs(Binder::Pi, x, a, b) => {
            let (k1, c1) = infer_universe_level(*a, env, c, fuel);
            lemma_infer_universe_weakening(*a, env, larger, c, fuel);
            let entry = Binding::Unproved { typ: *a };
            lemma_insert_keeps_submap(env, larger, x, entry);
            lemma_infer_universe_weakening(
                *b,
                env.insert(x, entry),
                larger.insert(x, entry),
                c1,
                fuel,
            );
        },
        Term::Abs(Binder::Lambda, x, a, b) => {
            let (k1, c1) = infer_universe_level(*a, env, c, fuel);
            lemma_infer_universe_weakening(*a, env, larger, c, fuel);
            let entry = Binding::Unproved { typ: *a };
            lemma_insert_keeps_submap(env, larger, x, entry);
            lemma_infer_weakening(*b, env.insert(x, entry), larger.insert(x, entry), c1, fuel);
        },
        Term::App(f, a) => {
            let (pi, c1) = infer_pi_parts(*f, env, c, fuel);
            lemma_infer_pi_weakening(*f, env, larger, c, fuel);
            let (ta, c2) = infer(*a, env, c1, fuel);
            lemma_infer_weakening(*a, env, larger, c1, fuel);
            let (x, dom, cod) = pi->0;
            lemma_equal_weakening(dom, ta->0, env, larger, c2, fuel);
        },
    }
}

/// As [`lemma_infer_weakening`], for a type that is a universe.
pub proof fn lemma_infer_universe_weakening(t: Term, env: Env, larger: Env, c: nat, fuel: nat)
    requires
        env.submap_of(larger),
        infer_universe_level(t, env, c, fuel).0 is Some,
    ensures
        infer_universe_level(t, larger, c, fuel) == infer_universe_level(t, env, c, fuel),
    decreases t.size(), 1nat,
{
    let (ty, c1) = infer(t, env, c, fuel);
    lemma_infer_weakening(t, env, larger, c, fuel);
    lemma_normal_form_weakening(ty->0, env, larger, c1, fuel);
}

/// As [`lemma_infer_weakening`], for a type that is a pi type.
pub proof fn lemma_infer_pi_weakening(t: Term, env: Env, larger: Env, c: nat, fuel: nat)
    requires
        env.submap_of(larger),
        infer_pi_parts(t, env, c, fuel).0 is Some,
    ensures
        infer_pi_parts(t, larger, c, fuel) == infer_pi_parts(t, env, c, fuel),
    decreases t.size(), 1nat,
{
    let (ty, c1) = infer(t, env, c, fuel);
    lemma_infer_weakening(t, env, larger, c, fuel);
    lemma_normal_form_weakening(ty->0, env, larger, c1, fuel);
}

/// Monotonicity of the context: a new entry changes neither the type that
/// was inferred for a term nor the names that the inference drew.
pub proof fn lemma_new_entry_keeps_types(
    t: Term,
    env: Env,
    v: Name,
    entry: Binding,
    c: nat,
    fuel: nat,
)
    requires
        !env.contains_key(v),
        infer(t, env, c, fuel).0 is Some,
    ensures
        infer(t, env.insert(v, entry), c, fuel) == infer(t, env, c, fuel),
{
    assert(env.submap_of(env.insert(v, entry)));
    lemma_infer_weakening(t, env, env.insert(v, entry), c, fuel);
}

/// Fuel only bounds the work: two terms found definitionally equal are found
/// so, with the same names drawn, with any larger amount of fuel.
pub proof fn lemma_equal_with_more_fuel(a: Term, b: Term, env: Env, c: nat, fuel: nat, more: nat)
    requires
        fuel <= more,
        equal(a, b, env, c, fuel).0,
    ensures
        equal(a, b, env, c, more) == equal(a, b, env, c, fuel),
{
    let (na, c1) = normal_form(a, env, c, fuel);
    lemma_normal_form_with_more_fuel(a, env, c, fuel, more);
    lemma_normal_form_with_more_fuel(b, env, c1, fuel, more);
}

/// Fuel only bounds the work: a type that was inferred is inferred again,
/// with the same names drawn, with any larger amount of fuel.
pub proof fn lemma_infer_with_more_fuel(t: Term, env: Env, c: nat, fuel: nat, more: nat)
    requires
        fuel <= more,
        infer(t, env, c, fuel).0 is Some,
    ensures
        infer(t, env, c, more) == infer(t, env, c, fuel),
    decreases t.size(), 0nat,
{
    match t {
        Term::Var(_) => {},
        Term::Uni(_) => {},
        Term::Abs(Binder::Pi, x, a, b) => {
            let (k1, c1) = infer_universe_level(*a, env, c, fuel);
            lemma_infer_universe_with_more_fuel(*a, env, c, fuel, more);
            let inner = env.insert(x, Binding::Unproved { typ: *a });
            lemma_infer_universe_with_more_fuel(*b, inner, c1, fuel, more);
        },
        Term::Abs(Binder::Lambda, x, a, b) => {
            let (k1, c1) = infer_universe_level(*a, env, c, fuel);
            lemma_infer_universe_with_more_fuel(*a, env, c, fuel, more);
            let inner = env.insert(x, Binding::Unproved { typ: *a });
            lemma_infer_with_more_fuel(*b, inner, c1, fuel, more);
        },
        Term::App(f, a) => {
            let (pi, c1) = infer_pi_parts(*f, env, c, fuel);
            lemma_infer_pi_with_more_fuel(*f, env, c, fuel, more);
            let (ta, c2) = infer(*a, env, c1, fuel);
            lemma_infer_with_more_fuel(*a, env, c1, fuel, more);
            let (x, dom, cod) = pi->0;
            lemma_equal_with_more_fuel(dom, ta->0, env, c2, fuel, more);
        },
    }
}

/// As [`lemma_infer_with_more_fuel`], for a type that is a universe.
pub proof fn lemma_infer_universe_with_more_fuel(
    t: Term,
    env: Env,
    c: nat,
    fuel: nat,
    more: nat,
)
    requires
        fuel <= more,
        infer_universe_level(t, env, c, fuel).0 is Some,
    ensures
        infer_universe_level(t, env, c, more) == infer_universe_level(t, env, c, fuel),
    decreases t.size(), 1nat,
{
    let (ty, c1) = infer(t, env, c, fuel);
    lemma_infer_with_more_fuel(t, env, c, fuel, more);
    lemma_normal_form_with_more_fuel(ty->0, env, c1, fuel, more);
}

/// As [`lemma_infer_with_more_fuel`], for a type that is a pi type.
pub proof fn lemma_infer_pi_with_more_fuel(t: Term, env: Env, c: nat, fuel: nat, more: nat)
    requires
        fuel <= more,
        infer_pi_parts(t, env, c, fuel).0 is Some,
    ensures
        infer_pi_parts(t, env, c, more) == infer_pi_parts(t, env, c, fuel),
    decreases t.size(), 1nat,
{
    let (ty, c1) = infer(t, env, c, fuel);
    lemma_infer_with_more_fuel(t, env, c, fuel, more);
    lemma_normal_form_with_more_fuel(ty->0, env, c1, fuel, more);
}

} // verus!
