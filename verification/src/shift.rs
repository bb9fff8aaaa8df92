//! A supply that stands further on gives the same results with later names.
//!
//! Every computation of the kernel that starts with the counter at `c + by`
//! instead of `c` runs alike and draws the names of the first with their
//! identifiers raised by `by`. The names that were there before, with
//! identifiers up to a base no larger than `c`, stay as they are.
use vstd::prelude::*;
use crate::equality::{alpha_eq, equal, same_binding};
use crate::free_vars::lemma_subst_free;
use crate::fresh::{env_below, lemma_above_is_not_free, lemma_alpha_eq_counter_grows};
use crate::nameless::{index_of, lemma_index_of_known, nameless, same_up_to_names};
use crate::normal::{
    is_normal, lemma_beta, lemma_normal_form_with_more_fuel, lemma_normal_is_fixed,
};
use crate::session::{after_command, command_fault, Command};
use crate::weakening::lemma_infer_weakening;
use crate::model::{limit, Binder, Binding, Env, Name, Term};
use crate::normalize::normal_form;
use crate::subst::{lemma_subst_abs, subst};
use crate::typecheck::{infer, infer_pi_parts, infer_universe_level};

verus! {

impl Name {
    /// The name with its identifier raised by `by`, where it has one above
    /// `base`.
    pub open spec fn shifted(self, base: nat, by: nat) -> Name {
        match self {
            Name::Fresh(h, id) => if id > base {
                Name::Fresh(h, id + by)
            } else {
                self
            },
            Name::User(_) => self,
        }
    }
}

impl Term {
    /// The term with every name shifted, see [`Name::shifted`].
    pub open spec fn shifted(self, base: nat, by: nat) -> Term
        decreases self,
    {
        match self {
            Term::Var(u) => Term::Var(u.shifted(base, by)),
            Term::Uni(_) => self,
            Term::App(f, a) => Term::App(
                Box::new(f.shifted(base, by)),
                Box::new(a.shifted(base, by)),
            ),
            Term::Abs(k, x, ty, b) => Term::Abs(
                k,
                x.shifted(base, by),
                Box::new(ty.shifted(base, by)),
                Box::new(b.shifted(base, by)),
            ),
        }
    }
}

impl Binding {
    /// The binding with every name shifted.
    pub open spec fn shifted(self, base: nat, by: nat) -> Binding {
        match self {
            Binding::Axiom { typ } => Binding::Axiom { typ: typ.shifted(base, by) },
            Binding::Unproved { typ } => Binding::Unproved { typ: typ.shifted(base, by) },
            Binding::Proved { typ, val } => Binding::Proved {
                typ: typ.shifted(base, by),
                val: val.shifted(base, by),
            },
        }
    }
}

/// The optional term with every name shifted.
pub open spec fn shifted_option(t: Option<Term>, base: nat, by: nat) -> Option<Term> {
    match t {
        Some(t) => Some(t.shifted(base, by)),
        None => None,
    }
}

/// Whether `later` holds the entries of `env` with every name shifted, under
/// the shifted names.
pub open spec fn shifted_env(env: Env, later: Env, base: nat, by: nat) -> bool {
    forall|v: Name|
        #![trigger env.contains_key(v)]
        #![trigger later.contains_key(v.shifted(base, by))]
        {
            &&& later.contains_key(v.shifted(base, by)) == env.contains_key(v)
            &&& env.contains_key(v) ==> later[v.shifted(base, by)] == env[v].shifted(base, by)
        }
}

/// Shifting tells names apart as they were.
pub proof fn lemma_shift_is_injective(u: Name, v: Name, base: nat, by: nat)
    ensures
        (u.shifted(base, by) == v.shifted(base, by)) == (u == v),
        u.shifted(base, by).hint() == u.hint(),
{
}

/// Shifting changes neither the size of a term nor the number of names that
/// a substitution into it draws.
pub proof fn lemma_shift_keeps_measures(t: Term, base: nat, by: nat)
    ensures
        t.shifted(base, by).size() == t.size(),
        t.shifted(base, by).demand() == t.demand(),
    decreases t,
{
    match t {
        Term::Var(_) => {},
        Term::Uni(_) => {},
        Term::App(f, a) => {
            lemma_shift_keeps_measures(*f, base, by);
            lemma_shift_keeps_measures(*a, base, by);
        },
        Term::Abs(_, _, ty, b) => {
            lemma_shift_keeps_measures(*ty, base, by);
            lemma_shift_keeps_measures(*b, base, by);
        },
    }
}

/// A variable is free in the shifted term exactly when it was free before.
pub proof fn lemma_shift_keeps_free(t: Term, v: Name, base: nat, by: nat)
    ensures
        t.shifted(base, by).has_free(v.shifted(base, by)) == t.has_free(v),
    decreases t,
{
    match t {
        Term::Var(u) => {
            lemma_shift_is_injective(u, v, base, by);
        },
        Term::Uni(_) => {},
        Term::App(f, a) => {
            lemma_shift_keeps_free(*f, v, base, by);
            lemma_shift_keeps_free(*a, v, base, by);
        },
        Term::Abs(_, x, ty, b) => {
            lemma_shift_is_injective(x, v, base, by);
            lemma_shift_keeps_free(*ty, v, base, by);
            lemma_shift_keeps_free(*b, v, base, by);
        },
    }
}

/// A term whose identifiers are all within the base is its own shift.
pub proof fn lemma_shift_below_base(t: Term, base: nat, by: nat)
    requires
        t.below(base),
    ensures
        t.shifted(base, by) == t,
    decreases t,
{
    match t {
        Term::Var(_) => {},
        Term::Uni(_) => {},
        Term::App(f, a) => {
            lemma_shift_below_base(*f, base, by);
            lemma_shift_below_base(*a, base, by);
        },
        Term::Abs(_, _, ty, b) => {
            lemma_shift_below_base(*ty, base, by);
            lemma_shift_below_base(*b, base, by);
        },
    }
}

/// Substitution with a supply that stands `by` further on gives the shifted
/// result.
pub proof fn lemma_subst_shifted(t: Term, v: Name, r: Term, c: nat, base: nat, by: nat)
    requires
        base <= c,
    ensures
        subst(t.shifted(base, by), v.shifted(base, by), r.shifted(base, by), c + by) == subst(
            t,
            v,
            r,
            c,
        ).shifted(base, by),
    decreases t.size(),
{
    let t2 = t.shifted(base, by);
    let v2 = v.shifted(base, by);
    let r2 = r.shifted(base, by);
    match t {
        Term::Var(u) => {
            lemma_shift_is_injective(u, v, base, by);
        },
        Term::Uni(_) => {},
        Term::App(f, a) => {
            lemma_subst_shifted(*f, v, r, c, base, by);
            lemma_shift_keeps_measures(*f, base, by);
            lemma_subst_shifted(*a, v, r, c + f.demand(), base, by);
        },
        Term::Abs(k, x, ty, b) => {
            lemma_subst_abs(t, v, r, c);
            lemma_subst_abs(t2, v2, r2, c + by);
            lemma_shift_keeps_measures(*ty, base, by);
            lemma_shift_keeps_measures(*b, base, by);
            let x2 = x.refreshed(c);
            let c1 = c + 1 + ty.demand();
            let renamed = subst(*b, x, Term::Var(x2), c1);
            assert(x.shifted(base, by).refreshed(c + by) == x2.shifted(base, by));
            lemma_subst_shifted(*ty, v, r, c + 1, base, by);
            lemma_subst_shifted(*b, x, Term::Var(x2), c1, base, by);
            lemma_subst_shifted(renamed, v, r, c1 + b.demand(), base, by);
        },
    }
}

/// Normalization never lowers the counter.
pub proof fn lemma_normal_form_counter_grows(t: Term, env: Env, c: nat, fuel: nat)
    ensures
        c <= normal_form(t, env, c, fuel).1,
    decreases fuel, t.size(),
{
    match t {
        Term::Var(v) => {
            if env.contains_key(v) {
                match env[v] {
                    Binding::Proved { val, .. } => {
                        if fuel > 0 {
                            lemma_normal_form_counter_grows(val, env, c, (fuel - 1) as nat);
                        }
                    },
                    _ => {},
                }
            }
        },
        Term::Uni(_) => {},
        Term::App(f, a) => {
            let (arg, c1) = normal_form(*a, env, c, fuel);
            lemma_normal_form_counter_grows(*a, env, c, fuel);
            if arg is Some {
                let (fun, c2) = normal_form(*f, env, c1, fuel);
                lemma_normal_form_counter_grows(*f, env, c1, fuel);
                match fun {
                    Some(Term::Abs(Binder::Lambda, x, _, body)) => {
                        if fuel > 0 && c2 + body.demand() <= limit() {
                            lemma_normal_form_counter_grows(
                                subst(*body, x, arg->0, c2),
                                env,
                                c2 + body.demand(),
                                (fuel - 1) as nat,
                            );
                        }
                    },
                    _ => {},
                }
            }
        },
        Term::Abs(k, x, ty, b) => {
            let (ty2, c1) = normal_form(*ty, env, c, fuel);
            lemma_normal_form_counter_grows(*ty, env, c, fuel);
            if ty2 is Some {
                let inner = env.insert(x, Binding::Unproved { typ: ty2->0 });
                lemma_normal_form_counter_grows(*b, inner, c1, fuel);
            }
        },
    }
}

/// The comparison of normal forms with a supply that stands `by` further on
/// gives the same answer and draws as many names.
pub proof fn lemma_alpha_eq_shifted(a: Term, b: Term, c: nat, base: nat, by: nat)
    requires
        base <= c,
        alpha_eq(a, b, c).1 + by <= limit(),
    ensures
        alpha_eq(a.shifted(base, by), b.shifted(base, by), c + by) == (
            alpha_eq(a, b, c).0,
            alpha_eq(a, b, c).1 + by,
        ),
    decreases a.size(), 1nat,
{
    match (a, b) {
        (Term::Var(u), Term::Var(w)) => {
            lemma_shift_is_injective(u, w, base, by);
        },
        (Term::Uni(_), Term::Uni(_)) => {},
        (Term::App(f1, a1), Term::App(f2, a2)) => {
            let (same, c1) = alpha_eq(*f1, *f2, c);
            lemma_alpha_eq_counter_grows(*f1, *f2, c);
            if same {
                lemma_alpha_eq_counter_grows(*a1, *a2, c1);
            }
            lemma_alpha_eq_shifted(*f1, *f2, c, base, by);
            if same {
                lemma_alpha_eq_shifted(*a1, *a2, c1, base, by);
            }
        },
        (Term::Abs(k1, x1, t1, b1), Term::Abs(k2, x2, t2, b2)) => {
            if k1 == k2 {
                lemma_same_binding_shifted(x1, *t1, *b1, x2, *t2, *b2, c, base, by);
            }
        },
        _ => {},
    }
}

/// As [`lemma_alpha_eq_shifted`], for the comparison of two binders.
pub proof fn lemma_same_binding_shifted(
    x1: Name,
    t1: Term,
    b1: Term,
    x2: Name,
    t2: Term,
    b2: Term,
    c: nat,
    base: nat,
    by: nat,
)
    requires
        base <= c,
        same_binding(x1, t1, b1, x2, t2, b2, c).1 + by <= limit(),
    ensures
        same_binding(
            x1.shifted(base, by),
            t1.shifted(base, by),
            b1.shifted(base, by),
            x2.shifted(base, by),
            t2.shifted(base, by),
            b2.shifted(base, by),
            c + by,
        ) == (
            same_binding(x1, t1, b1, x2, t2, b2, c).0,
            same_binding(x1, t1, b1, x2, t2, b2, c).1 + by,
        ),
    decreases 1 + t1.size() + b1.size(), 0nat,
{
    let (same, c1) = alpha_eq(t1, t2, c);
    lemma_alpha_eq_counter_grows(t1, t2, c);
    lemma_shift_is_injective(x1, x2, base, by);
    lemma_shift_keeps_free(b2, x1, base, by);
    lemma_shift_keeps_measures(b2, base, by);
    let goes_on = same && !(x1 != x2 && b2.has_free(x1)) && c1 + b2.demand() <= limit();
    if goes_on {
        let swapped = subst(b2, x2, Term::Var(x1), c1);
        lemma_alpha_eq_counter_grows(b1, swapped, c1 + b2.demand());
        lemma_subst_shifted(b2, x2, Term::Var(x1), c1, base, by);
        lemma_alpha_eq_shifted(b1, swapped, c1 + b2.demand(), base, by);
    }
    lemma_alpha_eq_shifted(t1, t2, c, base, by);
}

/// Both contexts grow alike under a binder.
proof fn lemma_insert_keeps_shifted_env(
    env: Env,
    later: Env,
    base: nat,
    by: nat,
    x: Name,
    entry: Binding,
)
    requires
        shifted_env(env, later, base, by),
    ensures
        shifted_env(
            env.insert(x, entry),
            later.insert(x.shifted(base, by), entry.shifted(base, by)),
            base,
            by,
        ),
{
    let env2 = env.insert(x, entry);
    let later2 = later.insert(x.shifted(base, by), entry.shifted(base, by));
    assert forall|v: Name|
        #![trigger env2.contains_key(v)]
        #![trigger later2.contains_key(v.shifted(base, by))]
        {
            &&& later2.contains_key(v.shifted(base, by)) == env2.contains_key(v)
            &&& env2.contains_key(v) ==> later2[v.shifted(base, by)] == env2[v].shifted(base, by)
        } by {
        lemma_shift_is_injective(v, x, base, by);
        assert(later.contains_key(v.shifted(base, by)) == env.contains_key(v));
    }
}

/// A normal form that was found is found with a supply that stands `by`
/// further on, under the shifted context, and is the shifted normal form.
pub proof fn lemma_normal_form_shifted(
    t: Term,
    env: Env,
    later: Env,
    c: nat,
    fuel: nat,
    base: nat,
    by: nat,
)
    requires
        base <= c,
        shifted_env(env, later, base, by),
        normal_form(t, env, c, fuel).0 is Some,
        normal_form(t, env, c, fuel).1 + by <= limit(),
    ensures
        normal_form(t.shifted(base, by), later, c + by, fuel) == (
            shifted_option(normal_form(t, env, c, fuel).0, base, by),
            normal_form(t, env, c, fuel).1 + by,
        ),
    decreases fuel, t.size(),
{
    lemma_shift_keeps_measures(t, base, by);
    match t {
        Term::Var(v) => {
            assert(env.contains_key(v));
            assert(later.contains_key(v.shifted(base, by)));
            match env[v] {
                Binding::Proved { val, .. } => {
                    lemma_normal_form_shifted(val, env, later, c, (fuel - 1) as nat, base, by);
                },
                _ => {},
            }
        },
        Term::Uni(_) => {},
        Term::App(f, a) => {
            let (arg, c1) = normal_form(*a, env, c, fuel);
            let (fun, c2) = normal_form(*f, env, c1, fuel);
            lemma_normal_form_counter_grows(*a, env, c, fuel);
            lemma_normal_form_counter_grows(*f, env, c1, fuel);
            lemma_shift_keeps_measures(*a, base, by);
            lemma_shift_keeps_measures(*f, base, by);
            match fun {
                Some(Term::Abs(Binder::Lambda, x, _, body)) => {
                    let reduct = subst(*body, x, arg->0, c2);
                    let c3 = c2 + body.demand();
                    lemma_normal_form_counter_grows(reduct, env, c3, (fuel - 1) as nat);
                    lemma_normal_form_shifted(*a, env, later, c, fuel, base, by);
                    lemma_normal_form_shifted(*f, env, later, c1, fuel, base, by);
                    lemma_shift_keeps_measures(*body, base, by);
                    lemma_subst_shifted(*body, x, arg->0, c2, base, by);
                    lemma_normal_form_shifted(
                        reduct,
                        env,
                        later,
                        c3,
                        (fuel - 1) as nat,
                        base,
                        by,
                    );
                },
                _ => {
                    lemma_normal_form_shifted(*a, env, later, c, fuel, base, by);
                    lemma_normal_form_shifted(*f, env, later, c1, fuel, base, by);
                },
            }
        },
        Term::Abs(k, x, ty, b) => {
            let (ty2, c1) = normal_form(*ty, env, c, fuel);
            let entry = Binding::Unproved { typ: ty2->0 };
            let inner = env.insert(x, entry);
            lemma_normal_form_counter_grows(*ty, env, c, fuel);
            lemma_normal_form_counter_grows(*b, inner, c1, fuel);
            lemma_normal_form_shifted(*ty, env, later, c, fuel, base, by);
            lemma_insert_keeps_shifted_env(env, later, base, by, x, entry);
            lemma_normal_form_shifted(
                *b,
                inner,
                later.insert(x.shifted(base, by), entry.shifted(base, by)),
                c1,
                fuel,
                base,
                by,
            );
        },
    }
}

/// The test for definitional equality never lowers the counter.
pub proof fn lemma_equal_counter_grows_always(a: Term, b: Term, env: Env, c: nat, fuel: nat)
    ensures
        c <= equal(a, b, env, c, fuel).1,
{
    let (na, c1) = normal_form(a, env, c, fuel);
    lemma_normal_form_counter_grows(a, env, c, fuel);
    if na is Some {
        let (nb, c2) = normal_form(b, env, c1, fuel);
        lemma_normal_form_counter_grows(b, env, c1, fuel);
        if nb is Some {
            lemma_alpha_eq_counter_grows(na->0, nb->0, c2);
        }
    }
}

/// Inference never lowers the counter.
pub proof fn lemma_infer_counter_grows(t: Term, env: Env, c: nat, fuel: nat)
    ensures
        c <= infer(t, env, c, fuel).1,
        c <= infer_universe_level(t, env, c, fuel).1,
        c <= infer_pi_parts(t, env, c, fuel).1,
    decreases t.size(),
{
    match t {
        Term::Var(_) => {},
        Term::Uni(_) => {},
        Term::Abs(k, x, a, b) => {
            let (k1, c1) = infer_universe_level(*a, env, c, fuel);
            lemma_infer_counter_grows(*a, env, c, fuel);
            let inner = env.insert(x, Binding::Unproved { typ: *a });
            lemma_infer_counter_grows(*b, inner, c1, fuel);
            match k {
                Binder::Pi => {},
                Binder::Lambda => {},
            }
        },
        Term::App(f, a) => {
            let (pi, c1) = infer_pi_parts(*f, env, c, fuel);
            lemma_infer_counter_grows(*f, env, c, fuel);
            if pi is Some {
                let (x, dom, cod) = pi->0;
                let (ta, c2) = infer(*a, env, c1, fuel);
                lemma_infer_counter_grows(*a, env, c1, fuel);
                if ta is Some {
                    lemma_equal_counter_grows_always(dom, ta->0, env, c2, fuel);
                }
            }
        },
    }
    let (ty, c1) = infer(t, env, c, fuel);
    if ty is Some {
        lemma_normal_form_counter_grows(ty->0, env, c1, fuel);
    }
}

/// Two terms found definitionally equal are found so with a supply that
/// stands `by` further on, under the shifted context.
pub proof fn lemma_equal_shifted(
    a: Term,
    b: Term,
    env: Env,
    later: Env,
    c: nat,
    fuel: nat,
    base: nat,
    by: nat,
)
    requires
        base <= c,
        shifted_env(env, later, base, by),
        equal(a, b, env, c, fuel).0,
        equal(a, b, env, c, fuel).1 + by <= limit(),
    ensures
        equal(a.shifted(base, by), b.shifted(base, by), later, c + by, fuel) == (
            true,
            equal(a, b, env, c, fuel).1 + by,
        ),
{
    let (na, c1) = normal_form(a, env, c, fuel);
    let (nb, c2) = normal_form(b, env, c1, fuel);
    lemma_normal_form_counter_grows(a, env, c, fuel);
    lemma_normal_form_counter_grows(b, env, c1, fuel);
    lemma_alpha_eq_counter_grows(na->0, nb->0, c2);
    lemma_normal_form_shifted(a, env, later, c, fuel, base, by);
    lemma_normal_form_shifted(b, env, later, c1, fuel, base, by);
    lemma_alpha_eq_shifted(na->0, nb->0, c2, base, by);
}

/// A type that was inferred is inferred with a supply that stands `by`
/// further on, under the shifted context, and is the shifted type.
#[verifier::rlimit(80)]
pub proof fn lemma_infer_shifted(
    t: Term,
    env: Env,
    later: Env,
    c: nat,
    fuel: nat,
    base: nat,
    by: nat,
)
    requires
        base <= c,
        shifted_env(env, later, base, by),
        infer(t, env, c, fuel).0 is Some,
        infer(t, env, c, fuel).1 + by <= limit(),
    ensures
        infer(t.shifted(base, by), later, c + by, fuel) == (
            shifted_option(infer(t, env, c, fuel).0, base, by),
            infer(t, env, c, fuel).1 + by,
        ),
    decreases t.size(), 0nat,
{
    match t {
        Term::Var(v) => {
            assert(env.contains_key(v));
            assert(later.contains_key(v.shifted(base, by)));
        },
        Term::Uni(_) => {},
        Term::Abs(Binder::Pi, x, a, b) => {
            let (k1, c1) = infer_universe_level(*a, env, c, fuel);
            let entry = Binding::Unproved { typ: *a };
            let inner = env.insert(x, entry);
            lemma_infer_counter_grows(*a, env, c, fuel);
            lemma_infer_counter_grows(*b, inner, c1, fuel);
            lemma_infer_universe_shifted(*a, env, later, c, fuel, base, by);
            lemma_insert_keeps_shifted_env(env, later, base, by, x, entry);
            lemma_infer_universe_shifted(
                *b,
                inner,
                later.insert(x.shifted(base, by), entry.shifted(base, by)),
                c1,
                fuel,
                base,
                by,
            );
        },
        Term::Abs(Binder::Lambda, x, a, b) => {
            let (k1, c1) = infer_universe_level(*a, env, c, fuel);
            let entry = Binding::Unproved { typ: *a };
            let inner = env.insert(x, entry);
            lemma_infer_counter_grows(*a, env, c, fuel);
            lemma_infer_counter_grows(*b, inner, c1, fuel);
            lemma_infer_universe_shifted(*a, env, later, c, fuel, base, by);
            lemma_insert_keeps_shifted_env(env, later, base, by, x, entry);
            lemma_infer_shifted(
                *b,
                inner,
                later.insert(x.shifted(base, by), entry.shifted(base, by)),
                c1,
                fuel,
                base,
                by,
            );
        },
        Term::App(f, a) => {
            let (pi, c1) = infer_pi_parts(*f, env, c, fuel);
            let (x, dom, cod) = pi->0;
            let (ta, c2) = infer(*a, env, c1, fuel);
            let (same, c3) = equal(dom, ta->0, env, c2, fuel);
            lemma_infer_counter_grows(*f, env, c, fuel);
            lemma_infer_counter_grows(*a, env, c1, fuel);
            lemma_equal_counter_grows_always(dom, ta->0, env, c2, fuel);
            lemma_infer_pi_shifted(*f, env, later, c, fuel, base, by);
            lemma_infer_shifted(*a, env, later, c1, fuel, base, by);
            lemma_equal_shifted(dom, ta->0, env, later, c2, fuel, base, by);
            lemma_shift_keeps_measures(cod, base, by);
            lemma_subst_shifted(cod, x, *a, c3, base, by);
        },
    }
}

/// As [`lemma_infer_shifted`], for a type that is a universe.
pub proof fn lemma_infer_universe_shifted(
    t: Term,
    env: Env,
    later: Env,
    c: nat,
    fuel: nat,
    base: nat,
    by: nat,
)
    requires
        base <= c,
        shifted_env(env, later, base, by),
        infer_universe_level(t, env, c, fuel).0 is Some,
        infer_universe_level(t, env, c, fuel).1 + by <= limit(),
    ensures
        infer_universe_level(t.shifted(base, by), later, c + by, fuel) == (
            infer_universe_level(t, env, c, fuel).0,
            infer_universe_level(t, env, c, fuel).1 + by,
        ),
    decreases t.size(), 1nat,
{
    let (ty, c1) = infer(t, env, c, fuel);
    lemma_infer_counter_grows(t, env, c, fuel);
    lemma_normal_form_counter_grows(ty->0, env, c1, fuel);
    lemma_infer_shifted(t, env, later, c, fuel, base, by);
    lemma_normal_form_shifted(ty->0, env, later, c1, fuel, base, by);
}

/// As [`lemma_infer_shifted`], for a type that is a pi type.
pub proof fn lemma_infer_pi_shifted(
    t: Term,
    env: Env,
    later: Env,
    c: nat,
    fuel: nat,
    base: nat,
    by: nat,
)
    requires
        base <= c,
        shifted_env(env, later, base, by),
        infer_pi_parts(t, env, c, fuel).0 is Some,
        infer_pi_parts(t, env, c, fuel).1 + by <= limit(),
    ensures
        infer_pi_parts(t.shifted(base, by), later, c + by, fuel).1 == infer_pi_parts(
            t,
            env,
            c,
            fuel,
        ).1 + by,
        infer_pi_parts(t.shifted(base, by), later, c + by, fuel).0 matches Some(parts) && ({
            let (x, dom, cod) = infer_pi_parts(t, env, c, fuel).0->0;
            parts == (x.shifted(base, by), dom.shifted(base, by), cod.shifted(base, by))
        }),
    decreases t.size(), 1nat,
{
    let (ty, c1) = infer(t, env, c, fuel);
    lemma_infer_counter_grows(t, env, c, fuel);
    lemma_normal_form_counter_grows(ty->0, env, c1, fuel);
    lemma_infer_shifted(t, env, later, c, fuel, base, by);
    lemma_normal_form_shifted(ty->0, env, later, c1, fuel, base, by);
}

/// Every proof that `env` holds has its identifiers bounded by `k`.
pub open spec fn proofs_below(env: Env, k: nat) -> bool {
    forall|v: Name| #[trigger]
        env.contains_key(v) ==> (env[v] matches Binding::Proved { val, .. } ==> val.below(k))
}

/// Every name under which `env` holds an entry has its identifier bounded by
/// `k`.
pub open spec fn keys_below(env: Env, k: nat) -> bool {
    forall|v: Name| #[trigger] env.contains_key(v) ==> v.below(k)
}

/// A variable that is free in a normal form was free in the term, or it
/// comes from a proof that was unfolded.
pub proof fn lemma_normal_form_free(t: Term, env: Env, c: nat, fuel: nat, k: nat, w: Name)
    requires
        proofs_below(env, k),
        normal_form(t, env, c, fuel).0 is Some,
        normal_form(t, env, c, fuel).0->0.has_free(w),
    ensures
        t.has_free(w) || w.below(k),
    decreases fuel, t.size(),
{
    match t {
        Term::Var(v) => {
            match env[v] {
                Binding::Proved { val, .. } => {
                    lemma_normal_form_free(val, env, c, (fuel - 1) as nat, k, w);
                    if !w.below(k) {
                        lemma_above_is_not_free(val, k, w);
                    }
                },
                _ => {},
            }
        },
        Term::Uni(_) => {},
        Term::App(f, a) => {
            let (arg, c1) = normal_form(*a, env, c, fuel);
            let (fun, c2) = normal_form(*f, env, c1, fuel);
            match fun {
                Some(Term::Abs(Binder::Lambda, x, _, body)) => {
                    let reduct = subst(*body, x, arg->0, c2);
                    lemma_normal_form_free(
                        reduct,
                        env,
                        c2 + body.demand(),
                        (fuel - 1) as nat,
                        k,
                        w,
                    );
                    if reduct.has_free(w) {
                        lemma_subst_free(*body, x, arg->0, c2, w);
                        if arg->0.has_free(w) {
                            lemma_normal_form_free(*a, env, c, fuel, k, w);
                        } else {
                            lemma_normal_form_free(*f, env, c1, fuel, k, w);
                        }
                    }
                },
                Some(head) => {
                    if head.has_free(w) {
                        lemma_normal_form_free(*f, env, c1, fuel, k, w);
                    } else {
                        lemma_normal_form_free(*a, env, c, fuel, k, w);
                    }
                },
                None => {},
            }
        },
        Term::Abs(_, x, ty, b) => {
            let (ty2, c1) = normal_form(*ty, env, c, fuel);
            let inner = env.insert(x, Binding::Unproved { typ: ty2->0 });
            if ty2->0.has_free(w) {
                lemma_normal_form_free(*ty, env, c, fuel, k, w);
            } else {
                assert(proofs_below(inner, k));
                lemma_normal_form_free(*b, inner, c1, fuel, k, w);
            }
        },
    }
}

/// A variable that is free in an inferred type is no name that the
/// inference drew: its identifier is within the bound of the term and of the
/// context.
pub proof fn lemma_infer_free(t: Term, env: Env, c: nat, fuel: nat, k: nat, w: Name)
    requires
        t.below(k),
        env_below(env, k),
        infer(t, env, c, fuel).0 is Some,
        infer(t, env, c, fuel).0->0.has_free(w),
    ensures
        w.below(k),
    decreases t.size(),
{
    if !w.below(k) {
        match t {
            Term::Var(v) => {
                lemma_above_is_not_free(env[v].typ(), k, w);
            },
            Term::Uni(_) => {},
            Term::Abs(Binder::Pi, _, _, _) => {},
            Term::Abs(Binder::Lambda, x, a, b) => {
                let (k1, c1) = infer_universe_level(*a, env, c, fuel);
                let inner = env.insert(x, Binding::Unproved { typ: *a });
                lemma_above_is_not_free(*a, k, w);
                assert(env_below(inner, k));
                lemma_infer_free(*b, inner, c1, fuel, k, w);
            },
            Term::App(f, a) => {
                let (pi, c1) = infer_pi_parts(*f, env, c, fuel);
                let (x, dom, cod) = pi->0;
                let (ta, c2) = infer(*a, env, c1, fuel);
                let (same, c3) = equal(dom, ta->0, env, c2, fuel);
                lemma_subst_free(cod, x, *a, c3, w);
                lemma_above_is_not_free(*a, k, w);
                let (tf, cf) = infer(*f, env, c, fuel);
                assert(proofs_below(env, k));
                lemma_normal_form_free(tf->0, env, cf, fuel, k, w);
                lemma_infer_free(*f, env, c, fuel, k, w);
            },
        }
    }
}

/// The names of a sequence, shifted.
pub open spec fn shifted_names(names: Seq<Name>, base: nat, by: nat) -> Seq<Name> {
    Seq::new(names.len(), |i: int| names[i].shifted(base, by))
}

proof fn lemma_index_of_shifted(names: Seq<Name>, u: Name, base: nat, by: nat)
    ensures
        index_of(shifted_names(names, base, by), u.shifted(base, by)) == index_of(names, u),
    decreases names.len(),
{
    if names.len() > 0 {
        lemma_shift_is_injective(names[0], u, base, by);
        assert(shifted_names(names, base, by).drop_first() =~= shifted_names(
            names.drop_first(),
            base,
            by,
        ));
        lemma_index_of_shifted(names.drop_first(), u, base, by);
    }
}

/// Shifting the names of a term whose free variables are within the base
/// changes the names of bound variables only.
pub proof fn lemma_shift_keeps_nameless(t: Term, names: Seq<Name>, base: nat, by: nat)
    requires
        forall|w: Name| t.has_free(w) && !names.contains(w) ==> w.below(base),
    ensures
        nameless(t.shifted(base, by), shifted_names(names, base, by)) == nameless(t, names),
    decreases t,
{
    match t {
        Term::Var(u) => {
            lemma_index_of_shifted(names, u, base, by);
            lemma_index_of_known(names, u);
            assert(t.has_free(u));
        },
        Term::Uni(_) => {},
        Term::App(f, a) => {
            assert forall|w: Name| f.has_free(w) && !names.contains(w) implies w.below(base) by {
                assert(t.has_free(w));
            }
            assert forall|w: Name| a.has_free(w) && !names.contains(w) implies w.below(base) by {
                assert(t.has_free(w));
            }
            lemma_shift_keeps_nameless(*f, names, base, by);
            lemma_shift_keeps_nameless(*a, names, base, by);
        },
        Term::Abs(_, x, ty, b) => {
            let inner = seq![x] + names;
            assert forall|w: Name| ty.has_free(w) && !names.contains(w) implies w.below(base) by {
                assert(t.has_free(w));
            }
            assert forall|w: Name| b.has_free(w) && !inner.contains(w) implies w.below(base) by {
                assert(inner[0] == x);
                if names.contains(w) {
                    let i = choose|i: int| 0 <= i < names.len() && names[i] == w;
                    assert(inner[i + 1] == w);
                }
                assert(t.has_free(w));
            }
            lemma_shift_keeps_nameless(*ty, names, base, by);
            lemma_shift_keeps_nameless(*b, inner, base, by);
            assert(seq![x.shifted(base, by)] + shifted_names(names, base, by) =~= shifted_names(
                inner,
                base,
                by,
            ));
        },
    }
}

/// Monotonicity of the context with one supply used in turn: a type that
/// was inferred is inferred again after the context has grown and the supply
/// has handed out more names, and the two types differ in the names of their
/// bound variables only. The second inference draws as many names as the
/// first.
///
/// `c` is the supply's counter at the first inference and `later` the
/// counter at the second. The supply has generated every generated name in
/// the term and in the first context, and it can hand out the names of the
/// second inference.
pub proof fn lemma_grown_context_keeps_types(
    t: Term,
    env: Env,
    larger: Env,
    c: nat,
    later: nat,
    fuel: nat,
)
    requires
        t.below(c),
        env_below(env, c),
        keys_below(env, c),
        env.submap_of(larger),
        c <= later,
        infer(t, env, c, fuel).0 is Some,
        infer(t, env, c, fuel).1 + (later - c) <= limit(),
    ensures
        infer(t, larger, later, fuel).0 is Some,
        same_up_to_names(infer(t, env, c, fuel).0->0, infer(t, larger, later, fuel).0->0),
        infer(t, larger, later, fuel).1 == infer(t, env, c, fuel).1 + (later - c),
{
    let by = (later - c) as nat;
    let ty = infer(t, env, c, fuel).0->0;
    assert(shifted_env(env, env, c, by)) by {
        assert forall|v: Name|
            #![trigger env.contains_key(v)]
            #![trigger env.contains_key(v.shifted(c, by))]
            {
                &&& env.contains_key(v.shifted(c, by)) == env.contains_key(v)
                &&& env.contains_key(v) ==> env[v.shifted(c, by)] == env[v].shifted(c, by)
            } by {
            if env.contains_key(v) {
                lemma_shift_below_base(env[v].typ(), c, by);
                match env[v] {
                    Binding::Proved { val, .. } => {
                        lemma_shift_below_base(val, c, by);
                    },
                    _ => {},
                }
            }
            if env.contains_key(v.shifted(c, by)) {
                assert(v.shifted(c, by).below(c));
            }
        }
    }
    lemma_shift_below_base(t, c, by);
    lemma_infer_shifted(t, env, env, c, fuel, c, by);
    lemma_infer_weakening(t, env, larger, later, fuel);
    assert forall|w: Name| ty.has_free(w) implies w.below(c) by {
        lemma_infer_free(t, env, c, fuel, c, w);
    }
    lemma_shift_keeps_nameless(ty, Seq::empty(), c, by);
    assert(shifted_names(Seq::empty(), c, by) =~= Seq::<Name>::empty());
}

/// Monotonicity of the context: after a new entry has been added to the
/// context, with the supply wherever it then stands, a term that had a type
/// has the same type up to the names of bound variables.
pub proof fn lemma_new_entry_keeps_types_later(
    t: Term,
    env: Env,
    v: Name,
    entry: Binding,
    c: nat,
    later: nat,
    fuel: nat,
)
    requires
        !env.contains_key(v),
        t.below(c),
        env_below(env, c),
        keys_below(env, c),
        c <= later,
        infer(t, env, c, fuel).0 is Some,
        infer(t, env, c, fuel).1 + (later - c) <= limit(),
    ensures
        infer(t, env.insert(v, entry), later, fuel).0 is Some,
        same_up_to_names(
            infer(t, env, c, fuel).0->0,
            infer(t, env.insert(v, entry), later, fuel).0->0,
        ),
{
    assert(env.submap_of(env.insert(v, entry)));
    lemma_grown_context_keeps_types(t, env, env.insert(v, entry), c, later, fuel);
}

/// The name that a command states or proves.
pub open spec fn command_name(command: Command) -> Name {
    match command {
        Command::Axiom(v, _) => v,
        Command::Theorem(v, _) => v,
        Command::Proof(v, _) => v,
    }
}

/// A step of the session keeps the names of the context within the bound
/// that holds of the name of the command.
pub proof fn lemma_step_keeps_keys_below(env: Env, command: Command, c: nat, fuel: nat, k: nat)
    requires
        keys_below(env, k),
        command_name(command).below(k),
        command_fault(env, command, c, fuel).0 is None,
    ensures
        keys_below(after_command(env, command), k),
{
}

/// The beta law with one supply used in turn, for a redex whose parts are in
/// normal form. Where `(λ x : ty, b) a` has a normal form, computed with the
/// counter at `c`, then `b` with `a` in place of `x`, made with the counter at
/// `later`, has a normal form as well, and the two normal forms differ in the
/// names of their bound variables only.
pub proof fn lemma_beta_of_normal_parts_later(
    x: Name,
    ty: Term,
    b: Term,
    a: Term,
    env: Env,
    c: nat,
    later: nat,
    fuel: nat,
)
    requires
        is_normal(a, env),
        is_normal(ty, env),
        is_normal(b, env.insert(x, Binding::Unproved { typ: ty })),
        a.below(c),
        b.below(c),
        x.below(c),
        env_below(env, c),
        keys_below(env, c),
        c <= later,
        ({
            let redex = Term::App(
                Box::new(Term::Abs(Binder::Lambda, x, Box::new(ty), Box::new(b))),
                Box::new(a),
            );
            &&& normal_form(redex, env, c, fuel).0 is Some
            &&& normal_form(redex, env, c, fuel).1 + (later - c) <= limit()
        }),
    ensures
        ({
            let redex = Term::App(
                Box::new(Term::Abs(Binder::Lambda, x, Box::new(ty), Box::new(b))),
                Box::new(a),
            );
            let reduct = subst(b, x, a, later);
            &&& normal_form(reduct, env, later + b.demand(), fuel).0 is Some
            &&& same_up_to_names(
                normal_form(redex, env, c, fuel).0->0,
                normal_form(reduct, env, later + b.demand(), fuel).0->0,
            )
        }),
{
    let by = (later - c) as nat;
    let redex = Term::App(
        Box::new(Term::Abs(Binder::Lambda, x, Box::new(ty), Box::new(b))),
        Box::new(a),
    );
    let first = subst(b, x, a, c);
    let c1 = c + b.demand();
    lemma_beta(x, ty, b, a, env, c, fuel);
    lemma_normal_is_fixed(a, env, c, fuel);
    lemma_normal_is_fixed(ty, env, c, fuel);
    lemma_normal_is_fixed(
        b,
        env.insert(x, Binding::Unproved { typ: ty }),
        c,
        fuel,
    );
    assert(fuel > 0 && c1 <= limit());
    let less = (fuel - 1) as nat;
    assert(normal_form(redex, env, c, fuel) == normal_form(first, env, c1, less));
    let n = normal_form(first, env, c1, less).0->0;
    // The reduct made later is the first reduct with later names.
    lemma_shift_below_base(b, c, by);
    lemma_shift_below_base(a, c, by);
    lemma_shift_below_base(Term::Var(x), c, by);
    lemma_subst_shifted(b, x, a, c, c, by);
    assert(shifted_env(env, env, c, by)) by {
        assert forall|v: Name|
            #![trigger env.contains_key(v)]
            #![trigger env.contains_key(v.shifted(c, by))]
            {
                &&& env.contains_key(v.shifted(c, by)) == env.contains_key(v)
                &&& env.contains_key(v) ==> env[v.shifted(c, by)] == env[v].shifted(c, by)
            } by {
            if env.contains_key(v) {
                lemma_shift_below_base(env[v].typ(), c, by);
                match env[v] {
                    Binding::Proved { val, .. } => {
                        lemma_shift_below_base(val, c, by);
                    },
                    _ => {},
                }
            }
            if env.contains_key(v.shifted(c, by)) {
                assert(v.shifted(c, by).below(c));
            }
        }
    }
    lemma_normal_form_shifted(first, env, env, c1, less, c, by);
    lemma_normal_form_with_more_fuel(first.shifted(c, by), env, c1 + by, less, fuel);
    // The names drawn are bound in the normal form.
    assert forall|w: Name| n.has_free(w) implies w.below(c) by {
        assert(proofs_below(env, c));
        lemma_normal_form_free(first, env, c1, less, c, w);
        if first.has_free(w) {
            lemma_subst_free(b, x, a, c, w);
            if !w.below(c) {
                lemma_above_is_not_free(b, c, w);
                lemma_above_is_not_free(a, c, w);
            }
        }
    }
    lemma_shift_keeps_nameless(n, Seq::empty(), c, by);
    assert(shifted_names(Seq::empty(), c, by) =~= Seq::<Name>::empty());
}

} // verus!
