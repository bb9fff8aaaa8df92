//! Normal forms: what normalization returns, and what it leaves as it is.
use vstd::prelude::*;
use crate::model::{limit, Binder, Binding, Env, Name, Term};
use crate::normalize::normal_form;
use crate::subst::subst;

verus! {

/// Whether `t` is in normal form under `env`: its free variables are in
/// `env` and name no proved theorem, and no lambda abstraction in it is
/// applied. A bound variable counts as an unproved theorem of the type that
/// its binder gives.
pub open spec fn is_normal(t: Term, env: Env) -> bool
    decreases t,
{
    match t {
        Term::Var(v) => env.contains_key(v) && !(env[v] is Proved),
        Term::Uni(_) => true,
        Term::App(f, a) => is_normal(*f, env) && is_normal(*a, env) && !is_lambda(*f),
        Term::Abs(_, x, ty, b) => is_normal(*ty, env) && is_normal(
            *b,
            env.insert(x, Binding::Unproved { typ: *ty }),
        ),
    }
}

/// Whether `t` is a lambda abstraction.
pub open spec fn is_lambda(t: Term) -> bool {
    t matches Term::Abs(Binder::Lambda, _, _, _)
}

/// What normalization returns is in normal form.
pub proof fn lemma_normal_form_is_normal(t: Term, env: Env, c: nat, fuel: nat)
    requires
        normal_form(t, env, c, fuel).0 is Some,
    ensures
        is_normal(normal_form(t, env, c, fuel).0->0, env),
    decreases fuel, t.size(),
{
    match t {
        Term::Var(v) => {
            match env[v] {
                Binding::Proved { val, .. } => {
                    lemma_normal_form_is_normal(val, env, c, (fuel - 1) as nat);
                },
                _ => {},
            }
        },
        Term::Uni(_) => {},
        Term::App(f, a) => {
            let (arg, c1) = normal_form(*a, env, c, fuel);
            let (fun, c2) = normal_form(*f, env, c1, fuel);
            lemma_normal_form_is_normal(*a, env, c, fuel);
            lemma_normal_form_is_normal(*f, env, c1, fuel);
            match fun {
                Some(Term::Abs(Binder::Lambda, x, _, body)) => {
                    lemma_normal_form_is_normal(
                        subst(*body, x, arg->0, c2),
                        env,
                        c2 + body.demand(),
                        (fuel - 1) as nat,
                    );
                },
                _ => {},
            }
        },
        Term::Abs(k, x, ty, b) => {
            let (ty2, c1) = normal_form(*ty, env, c, fuel);
            lemma_normal_form_is_normal(*ty, env, c, fuel);
            lemma_normal_form_is_normal(
                *b,
                env.insert(x, Binding::Unproved { typ: ty2->0 }),
                c1,
                fuel,
            );
        },
    }
}

/// A normal form is its own normal form: normalization returns it as it is,
/// draws no name and needs no fuel.
pub proof fn lemma_normal_is_fixed(t: Term, env: Env, c: nat, fuel: nat)
    requires
        is_normal(t, env),
    ensures
        normal_form(t, env, c, fuel) == (Some(t), c),
    decreases t,
{
    match t {
        Term::Var(_) => {},
        Term::Uni(_) => {},
        Term::App(f, a) => {
            lemma_normal_is_fixed(*a, env, c, fuel);
            lemma_normal_is_fixed(*f, env, c, fuel);
        },
        Term::Abs(k, x, ty, b) => {
            lemma_normal_is_fixed(*ty, env, c, fuel);
            lemma_normal_is_fixed(*b, env.insert(x, Binding::Unproved { typ: *ty }), c, fuel);
        },
    }
}

/// Normalization is idempotent: where `t` has the normal form `n`,
/// normalizing `n` gives `n` again, whatever the counter and the fuel.
pub proof fn lemma_normalize_idempotent(
    t: Term,
    env: Env,
    c: nat,
    fuel: nat,
    c_again: nat,
    fuel_again: nat,
)
    requires
        normal_form(t, env, c, fuel).0 is Some,
    ensures
        normal_form(normal_form(t, env, c, fuel).0->0, env, c_again, fuel_again) == (
            normal_form(t, env, c, fuel).0,
            c_again,
        ),
{
    lemma_normal_form_is_normal(t, env, c, fuel);
    lemma_normal_is_fixed(normal_form(t, env, c, fuel).0->0, env, c_again, fuel_again);
}

/// Fuel only bounds the work: a normal form that was found is found again,
/// with the same names drawn, with any larger amount of fuel.
pub proof fn lemma_normal_form_with_more_fuel(t: Term, env: Env, c: nat, fuel: nat, more: nat)
    requires
        fuel <= more,
        normal_form(t, env, c, fuel).0 is Some,
    ensures
        normal_form(t, env, c, more) == normal_form(t, env, c, fuel),
    decreases fuel, t.size(),
{
    match t {
        Term::Var(v) => {
            match env[v] {
                Binding::Proved { val, .. } => {
                    lemma_normal_form_with_more_fuel(
                        val,
                        env,
                        c,
                        (fuel - 1) as nat,
                        (more - 1) as nat,
                    );
                },
                _ => {},
            }
        },
        Term::Uni(_) => {},
        Term::App(f, a) => {
            let (arg, c1) = normal_form(*a, env, c, fuel);
            let (fun, c2) = normal_form(*f, env, c1, fuel);
            lemma_normal_form_with_more_fuel(*a, env, c, fuel, more);
            lemma_normal_form_with_more_fuel(*f, env, c1, fuel, more);
            match fun {
                Some(Term::Abs(Binder::Lambda, x, _, body)) => {
                    lemma_normal_form_with_more_fuel(
                        subst(*body, x, arg->0, c2),
                        env,
                        c2 + body.demand(),
                        (fuel - 1) as nat,
                        (more - 1) as nat,
                    );
                },
                _ => {},
            }
        },
        Term::Abs(k, x, ty, b) => {
            let (ty2, c1) = normal_form(*ty, env, c, fuel);
            lemma_normal_form_with_more_fuel(*ty, env, c, fuel, more);
            lemma_normal_form_with_more_fuel(
                *b,
                env.insert(x, Binding::Unproved { typ: ty2->0 }),
                c1,
                fuel,
                more,
            );
        },
    }
}

/// The beta law. The normal form of `(λ x : ty, b) a` is the normal form of
/// the reduct made from the normal forms of its parts: the normal form of
/// `a` is put in place of `x` in the normal form of `b`, and the result is
/// normalized with one unit of fuel less. The argument is normalized first,
/// then the annotation, then the body.
pub proof fn lemma_beta(x: Name, ty: Term, b: Term, a: Term, env: Env, c: nat, fuel: nat)
    ensures
        ({
            let redex = Term::App(
                Box::new(Term::Abs(Binder::Lambda, x, Box::new(ty), Box::new(b))),
                Box::new(a),
            );
            let (arg, c1) = normal_form(a, env, c, fuel);
            let (ty2, c2) = normal_form(ty, env, c1, fuel);
            let inner = env.insert(x, Binding::Unproved { typ: ty2->0 });
            let (b2, c3) = normal_form(b, inner, c2, fuel);
            normal_form(redex, env, c, fuel) == if arg is None {
                (None::<Term>, c1)
            } else if ty2 is None {
                (None::<Term>, c2)
            } else if b2 is None || fuel == 0 || c3 + b2->0.demand() > limit() {
                (None::<Term>, c3)
            } else {
                normal_form(
                    subst(b2->0, x, arg->0, c3),
                    env,
                    c3 + b2->0.demand(),
                    (fuel - 1) as nat,
                )
            }
        }),
{
    let fun = Term::Abs(Binder::Lambda, x, Box::new(ty), Box::new(b));
    let (arg, c1) = normal_form(a, env, c, fuel);
    assert(normal_form(fun, env, c1, fuel) == {
        let (ty2, c2) = normal_form(ty, env, c1, fuel);
        if ty2 is None {
            (None::<Term>, c2)
        } else {
            let inner = env.insert(x, Binding::Unproved { typ: ty2->0 });
            let (b2, c3) = normal_form(b, inner, c2, fuel);
            if b2 is None {
                (None::<Term>, c3)
            } else {
                (Some(Term::Abs(Binder::Lambda, x, Box::new(ty2->0), Box::new(b2->0))), c3)
            }
        }
    });
}

/// The beta law for a redex whose parts are in normal form: the normal form
/// of `(λ x : ty, b) a` is the normal form of `b` with `a` in place of `x`.
pub proof fn lemma_beta_of_normal_parts(
    x: Name,
    ty: Term,
    b: Term,
    a: Term,
    env: Env,
    c: nat,
    fuel: nat,
)
    requires
        is_normal(a, env),
        is_normal(ty, env),
        is_normal(b, env.insert(x, Binding::Unproved { typ: ty })),
        fuel > 0,
        c + b.demand() <= limit(),
    ensures
        normal_form(
            Term::App(
                Box::new(Term::Abs(Binder::Lambda, x, Box::new(ty), Box::new(b))),
                Box::new(a),
            ),
            env,
            c,
            fuel,
        ) == normal_form(subst(b, x, a, c), env, c + b.demand(), (fuel - 1) as nat),
{
    lemma_normal_is_fixed(a, env, c, fuel);
    lemma_normal_is_fixed(ty, env, c, fuel);
    lemma_normal_is_fixed(b, env.insert(x, Binding::Unproved { typ: ty }), c, fuel);
    lemma_beta(x, ty, b, a, env, c, fuel);
}

} // verus!
