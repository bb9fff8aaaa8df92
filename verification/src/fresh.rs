//! Generated names come from the supply alone: the supply's counter bounds
//! the identifiers of every term that the kernel makes.
use vstd::prelude::*;
use crate::equality::{alpha_eq, equal, same_binding};
use crate::free_vars::lemma_subst_free;
use crate::model::{limit, Binder, Binding, Env, Name, Term};
use crate::normalize::normal_form;
use crate::session::{after_command, command_fault, Command};
use crate::subst::{lemma_subst_abs, subst};
use crate::typecheck::{infer, infer_pi_parts, infer_universe_level};

verus! {

/// A bound on the identifiers of a term can be raised.
pub proof fn lemma_below_is_monotone(t: Term, c: nat, k: nat)
    requires
        t.below(c),
        c <= k,
    ensures
        t.below(k),
    decreases t,
{
    match t {
        Term::Var(_) => {},
        Term::Uni(_) => {},
        Term::App(f, a) => {
            lemma_below_is_monotone(*f, c, k);
            lemma_below_is_monotone(*a, c, k);
        },
        Term::Abs(_, _, ty, b) => {
            lemma_below_is_monotone(*ty, c, k);
            lemma_below_is_monotone(*b, c, k);
        },
    }
}

/// A term that holds no generated name meets every bound.
pub proof fn lemma_written_is_below(t: Term, k: nat)
    requires
        t.written(),
    ensures
        t.below(k),
    decreases t,
{
    match t {
        Term::Var(_) => {},
        Term::Uni(_) => {},
        Term::App(f, a) => {
            lemma_written_is_below(*f, k);
            lemma_written_is_below(*a, k);
        },
        Term::Abs(_, _, ty, b) => {
            lemma_written_is_below(*ty, k);
            lemma_written_is_below(*b, k);
        },
    }
}

/// A generated name whose identifier is above the bound of a term does not
/// occur in it.
pub proof fn lemma_above_is_not_free(t: Term, k: nat, w: Name)
    requires
        t.below(k),
        !w.below(k),
    ensures
        !t.has_free(w),
    decreases t,
{
    match t {
        Term::Var(_) => {},
        Term::Uni(_) => {},
        Term::App(f, a) => {
            lemma_above_is_not_free(*f, k, w);
            lemma_above_is_not_free(*a, k, w);
        },
        Term::Abs(_, _, ty, b) => {
            lemma_above_is_not_free(*ty, k, w);
            lemma_above_is_not_free(*b, k, w);
        },
    }
}

/// The names that a substitution generates are the next ones of the supply:
/// the identifiers of the result are bounded by whatever bounds the term,
/// what is put in, and the counter after the substitution.
pub proof fn lemma_subst_below(t: Term, v: Name, r: Term, c: nat, k: nat)
    requires
        t.below(k),
        r.below(k),
        c + t.demand() <= k,
    ensures
        subst(t, v, r, c).below(k),
    decreases t.size(),
{
    match t {
        Term::Var(_) => {},
        Term::Uni(_) => {},
        Term::App(f, a) => {
            lemma_subst_below(*f, v, r, c, k);
            lemma_subst_below(*a, v, r, c + f.demand(), k);
        },
        Term::Abs(_, x, ty, b) => {
            lemma_subst_abs(t, v, r, c);
            let x2 = x.refreshed(c);
            let c1 = c + 1 + ty.demand();
            let renamed = subst(*b, x, Term::Var(x2), c1);
            lemma_subst_below(*ty, v, r, c + 1, k);
            lemma_subst_below(*b, x, Term::Var(x2), c1, k);
            lemma_subst_below(renamed, v, r, c1 + b.demand(), k);
        },
    }
}

/// As [`lemma_subst_below`], where the variable replaced is beyond the bound
/// and so does not occur: what is put in does not matter.
pub proof fn lemma_subst_below_without(t: Term, v: Name, r: Term, c: nat, k: nat)
    requires
        t.below(k),
        !v.below(k),
        c + t.demand() <= k,
    ensures
        subst(t, v, r, c).below(k),
    decreases t.size(),
{
    match t {
        Term::Var(_) => {},
        Term::Uni(_) => {},
        Term::App(f, a) => {
            lemma_subst_below_without(*f, v, r, c, k);
            lemma_subst_below_without(*a, v, r, c + f.demand(), k);
        },
        Term::Abs(_, x, ty, b) => {
            lemma_subst_abs(t, v, r, c);
            let x2 = x.refreshed(c);
            let c1 = c + 1 + ty.demand();
            let renamed = subst(*b, x, Term::Var(x2), c1);
            lemma_subst_below_without(*ty, v, r, c + 1, k);
            lemma_subst_below(*b, x, Term::Var(x2), c1, k);
            lemma_subst_below_without(renamed, v, r, c1 + b.demand(), k);
        },
    }
}

/// As [`lemma_subst_below`], where the variable replaced does not occur:
/// what would be put in does not matter.
pub proof fn lemma_subst_keeps_below_where_absent(t: Term, v: Name, r: Term, c: nat, k: nat)
    requires
        t.below(k),
        !t.has_free(v),
        v.below(c),
        c + t.demand() <= k,
    ensures
        subst(t, v, r, c).below(k),
    decreases t.size(),
{
    match t {
        Term::Var(_) => {},
        Term::Uni(_) => {},
        Term::App(f, a) => {
            lemma_subst_keeps_below_where_absent(*f, v, r, c, k);
            lemma_subst_keeps_below_where_absent(*a, v, r, c + f.demand(), k);
        },
        Term::Abs(_, x, ty, b) => {
            lemma_subst_abs(t, v, r, c);
            let x2 = x.refreshed(c);
            let c1 = c + 1 + ty.demand();
            let renamed = subst(*b, x, Term::Var(x2), c1);
            lemma_subst_keeps_below_where_absent(*ty, v, r, c + 1, k);
            lemma_subst_below(*b, x, Term::Var(x2), c1, k);
            if renamed.has_free(v) {
                lemma_subst_free(*b, x, Term::Var(x2), c1, v);
            }
            lemma_subst_keeps_below_where_absent(renamed, v, r, c1 + b.demand(), k);
        },
    }
}

/// Every term that `env` holds has its identifiers bounded by `k`.
pub open spec fn env_below(env: Env, k: nat) -> bool {
    forall|v: Name| #[trigger]
        env.contains_key(v) ==> env[v].typ().below(k) && (env[v] matches Binding::Proved {
            val,
            ..
        } ==> val.below(k))
}

/// A bound on the identifiers of a context can be raised.
pub proof fn lemma_env_below_is_monotone(env: Env, c: nat, k: nat)
    requires
        env_below(env, c),
        c <= k,
    ensures
        env_below(env, k),
{
    assert forall|v: Name| #[trigger] env.contains_key(v) implies env[v].typ().below(k) && (
    env[v] matches Binding::Proved { val, .. } ==> val.below(k)) by {
        lemma_below_is_monotone(env[v].typ(), c, k);
        match env[v] {
            Binding::Proved { val, .. } => {
                lemma_below_is_monotone(val, c, k);
            },
            _ => {},
        }
    }
}

/// Normalization only generates names by way of the supply: where the
/// counter bounds the identifiers of the term and of the context, the counter
/// after the computation, which is no smaller, bounds those of the normal
/// form.
pub proof fn lemma_normal_form_below(t: Term, env: Env, c: nat, fuel: nat)
    requires
        t.below(c),
        env_below(env, c),
    ensures
        c <= normal_form(t, env, c, fuel).1,
        normal_form(t, env, c, fuel).0 matches Some(n) ==> n.below(normal_form(t, env, c, fuel).1),
    decreases fuel, t.size(),
{
    match t {
        Term::Var(v) => {
            if env.contains_key(v) {
                match env[v] {
                    Binding::Proved { val, .. } => {
                        if fuel > 0 {
                            lemma_normal_form_below(val, env, c, (fuel - 1) as nat);
                        }
                    },
                    _ => {},
                }
            }
        },
        Term::Uni(_) => {},
        Term::App(f, a) => {
            let (arg, c1) = normal_form(*a, env, c, fuel);
            lemma_normal_form_below(*a, env, c, fuel);
            if arg is Some {
                lemma_below_is_monotone(*f, c, c1);
                lemma_env_below_is_monotone(env, c, c1);
                let (fun, c2) = normal_form(*f, env, c1, fuel);
                lemma_normal_form_below(*f, env, c1, fuel);
                lemma_env_below_is_monotone(env, c, c2);
                match fun {
                    Some(Term::Abs(Binder::Lambda, x, _, body)) => {
                        if fuel > 0 && c2 + body.demand() <= limit() {
                            let c3 = c2 + body.demand();
                            lemma_below_is_monotone(*body, c2, c3);
                            lemma_below_is_monotone(arg->0, c1, c3);
                            lemma_subst_below(*body, x, arg->0, c2, c3);
                            lemma_env_below_is_monotone(env, c, c3);
                            lemma_normal_form_below(
                                subst(*body, x, arg->0, c2),
                                env,
                                c3,
                                (fuel - 1) as nat,
                            );
                        }
                    },
                    Some(head) => {
                        lemma_below_is_monotone(arg->0, c1, c2);
                    },
                    None => {},
                }
            }
        },
        Term::Abs(k, x, ty, b) => {
            let (ty2, c1) = normal_form(*ty, env, c, fuel);
            lemma_normal_form_below(*ty, env, c, fuel);
            if ty2 is Some {
                let inner = env.insert(x, Binding::Unproved { typ: ty2->0 });
                lemma_env_below_is_monotone(env, c, c1);
                assert(env_below(inner, c1));
                lemma_below_is_monotone(*b, c, c1);
                let (b2, c2) = normal_form(*b, inner, c1, fuel);
                lemma_normal_form_below(*b, inner, c1, fuel);
                if b2 is Some {
                    lemma_below_is_monotone(ty2->0, c1, c2);
                    lemma_below_is_monotone(Term::Var(x), c, c2);
                }
            }
        },
    }
}

/// A comparison never lowers the counter.
pub proof fn lemma_alpha_eq_counter_grows(a: Term, b: Term, c: nat)
    ensures
        c <= alpha_eq(a, b, c).1,
    decreases a.size(), 1nat,
{
    match (a, b) {
        (Term::App(f1, a1), Term::App(f2, a2)) => {
            lemma_alpha_eq_counter_grows(*f1, *f2, c);
            lemma_alpha_eq_counter_grows(*a1, *a2, alpha_eq(*f1, *f2, c).1);
        },
        (Term::Abs(k1, x1, t1, b1), Term::Abs(k2, x2, t2, b2)) => {
            if k1 == k2 {
                lemma_alpha_eq_counter_grows(*t1, *t2, c);
                let (same, c1) = alpha_eq(*t1, *t2, c);
                if same && !(x1 != x2 && b2.has_free(x1)) && c1 + b2.demand() <= limit() {
                    lemma_alpha_eq_counter_grows(
                        *b1,
                        subst(*b2, x2, Term::Var(x1), c1),
                        c1 + b2.demand(),
                    );
                }
                assert(alpha_eq(a, b, c) == same_binding(x1, *t1, *b1, x2, *t2, *b2, c));
            }
        },
        _ => {},
    }
}

/// The test for definitional equality never lowers the counter.
pub proof fn lemma_equal_counter_grows(a: Term, b: Term, env: Env, c: nat, fuel: nat)
    requires
        a.below(c),
        b.below(c),
        env_below(env, c),
    ensures
        c <= equal(a, b, env, c, fuel).1,
{
    let (na, c1) = normal_form(a, env, c, fuel);
    lemma_normal_form_below(a, env, c, fuel);
    if na is Some {
        lemma_below_is_monotone(b, c, c1);
        lemma_env_below_is_monotone(env, c, c1);
        let (nb, c2) = normal_form(b, env, c1, fuel);
        lemma_normal_form_below(b, env, c1, fuel);
        if nb is Some {
            lemma_alpha_eq_counter_grows(na->0, nb->0, c2);
        }
    }
}

/// Inference only generates names by way of the supply: where the counter
/// bounds the identifiers of the term and of the context, the counter after
/// the computation, which is no smaller, bounds those of the type.
pub proof fn lemma_infer_below(t: Term, env: Env, c: nat, fuel: nat)
    requires
        t.below(c),
        env_below(env, c),
    ensures
        c <= infer(t, env, c, fuel).1,
        infer(t, env, c, fuel).0 matches Some(ty) ==> ty.below(infer(t, env, c, fuel).1),
    decreases t.size(), 0nat,
{
    match t {
        Term::Var(_) => {},
        Term::Uni(_) => {},
        Term::Abs(Binder::Pi, x, a, b) => {
            let (k1, c1) = infer_universe_level(*a, env, c, fuel);
            lemma_infer_universe_counter_grows(*a, env, c, fuel);
            if k1 is Some {
                let inner = env.insert(x, Binding::Unproved { typ: *a });
                lemma_env_below_is_monotone(env, c, c1);
                lemma_below_is_monotone(*a, c, c1);
                lemma_below_is_monotone(*b, c, c1);
                assert(env_below(inner, c1));
                lemma_infer_universe_counter_grows(*b, inner, c1, fuel);
            }
        },
        Term::Abs(Binder::Lambda, x, a, b) => {
            let (k1, c1) = infer_universe_level(*a, env, c, fuel);
            lemma_infer_universe_counter_grows(*a, env, c, fuel);
            if k1 is Some {
                let inner = env.insert(x, Binding::Unproved { typ: *a });
                lemma_env_below_is_monotone(env, c, c1);
                lemma_below_is_monotone(*a, c, c1);
                lemma_below_is_monotone(*b, c, c1);
                assert(env_below(inner, c1));
                lemma_infer_below(*b, inner, c1, fuel);
                let c2 = infer(*b, inner, c1, fuel).1;
                lemma_below_is_monotone(*a, c, c2);
                lemma_below_is_monotone(Term::Var(x), c, c2);
            }
        },
        Term::App(f, a) => {
            let (pi, c1) = infer_pi_parts(*f, env, c, fuel);
            lemma_infer_pi_below(*f, env, c, fuel);
            if pi is Some {
                let (x, dom, cod) = pi->0;
                lemma_below_is_monotone(*a, c, c1);
                lemma_env_below_is_monotone(env, c, c1);
                let (ta, c2) = infer(*a, env, c1, fuel);
                lemma_infer_below(*a, env, c1, fuel);
                if ta is Some {
                    lemma_below_is_monotone(dom, c1, c2);
                    lemma_env_below_is_monotone(env, c, c2);
                    let (same, c3) = equal(dom, ta->0, env, c2, fuel);
                    lemma_equal_counter_grows(dom, ta->0, env, c2, fuel);
                    if same && c3 + cod.demand() <= limit() {
                        let c4 = c3 + cod.demand();
                        lemma_below_is_monotone(cod, c1, c4);
                        lemma_below_is_monotone(*a, c, c4);
                        lemma_subst_below(cod, x, *a, c3, c4);
                    }
                }
            }
        },
    }
}

/// As [`lemma_infer_below`], for a type that is a universe: the counter is
/// not lowered.
pub proof fn lemma_infer_universe_counter_grows(t: Term, env: Env, c: nat, fuel: nat)
    requires
        t.below(c),
        env_below(env, c),
    ensures
        c <= infer_universe_level(t, env, c, fuel).1,
    decreases t.size(), 1nat,
{
    let (ty, c1) = infer(t, env, c, fuel);
    lemma_infer_below(t, env, c, fuel);
    if ty is Some {
        lemma_env_below_is_monotone(env, c, c1);
        lemma_normal_form_below(ty->0, env, c1, fuel);
    }
}

/// As [`lemma_infer_below`], for a type that is a pi type: the counter
/// bounds the identifiers of its bound variable, its domain and its
/// codomain.
pub proof fn lemma_infer_pi_below(t: Term, env: Env, c: nat, fuel: nat)
    requires
        t.below(c),
        env_below(env, c),
    ensures
        c <= infer_pi_parts(t, env, c, fuel).1,
        infer_pi_parts(t, env, c, fuel).0 matches Some(parts) ==> {
            let k = infer_pi_parts(t, env, c, fuel).1;
            parts.0.below(k) && parts.1.below(k) && parts.2.below(k)
        },
    decreases t.size(), 1nat,
{
    let (ty, c1) = infer(t, env, c, fuel);
    lemma_infer_below(t, env, c, fuel);
    if ty is Some {
        lemma_env_below_is_monotone(env, c, c1);
        lemma_normal_form_below(ty->0, env, c1, fuel);
    }
}

/// The terms of a command.
pub open spec fn command_below(command: Command, k: nat) -> bool {
    match command {
        Command::Axiom(_, typ) => typ.below(k),
        Command::Theorem(_, typ) => typ.below(k),
        Command::Proof(_, proof) => proof.below(k),
    }
}

/// Generated identifiers are unique within a session: where the supply's
/// counter bounds the identifiers in the context and in a command, the
/// counter after the command, which is no smaller, bounds those in the
/// context that the command leaves. So a name that the supply hands out
/// later is new to everything the context holds.
pub proof fn lemma_step_keeps_identifiers_below(env: Env, command: Command, c: nat, fuel: nat)
    requires
        env_below(env, c),
        command_below(command, c),
    ensures
        c <= command_fault(env, command, c, fuel).1,
        command_fault(env, command, c, fuel).0 is None ==> env_below(
            after_command(env, command),
            command_fault(env, command, c, fuel).1,
        ),
{
    let c1 = command_fault(env, command, c, fuel).1;
    match command {
        Command::Axiom(v, typ) => {
            lemma_infer_below(typ, env, c, fuel);
            lemma_env_below_is_monotone(env, c, c1);
            lemma_below_is_monotone(typ, c, c1);
        },
        Command::Theorem(v, typ) => {
            lemma_infer_below(typ, env, c, fuel);
            lemma_env_below_is_monotone(env, c, c1);
            lemma_below_is_monotone(typ, c, c1);
        },
        Command::Proof(v, proof) => {
            if env.contains_key(v) && !(env[v] is Axiom) {
                let scope = env.remove(v);
                assert(env_below(scope, c));
                let (ty, c2) = infer(proof, scope, c, fuel);
                lemma_infer_below(proof, scope, c, fuel);
                if ty is Some {
                    lemma_below_is_monotone(env[v].typ(), c, c2);
                    lemma_env_below_is_monotone(scope, c, c2);
                    lemma_equal_counter_grows(env[v].typ(), ty->0, scope, c2, fuel);
                }
                lemma_env_below_is_monotone(env, c, c1);
                lemma_below_is_monotone(proof, c, c1);
                lemma_below_is_monotone(env[v].typ(), c, c1);
            }
        },
    }
}

} // verus!
