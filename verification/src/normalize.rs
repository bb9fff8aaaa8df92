//! Normalization: beta reduction and the unfolding of proved theorems.
use vstd::prelude::*;
use std::marker::PhantomData;
use crate::ast::{Abstraction, Application, Expr, Lambda, Pi, Universe, Variable};
use crate::context::Context;
use crate::model::{limit, Binder, Binding, Env, Name, Term};
use crate::subst::{subst, try_subst, SubstTracker};

verus! {

/// The normal form of `t` under `env`, paired with the supply's counter after
/// the computation, which starts with the counter at `c`.
///
/// The first component is `None` where a free variable of `t` is not in
/// `env`, where a reduct or an unfolded proof would have to be reduced more
/// than `fuel` times in a row, or where the supply cannot hand out the names
/// that a substitution needs.
///
/// * A variable that names a proved theorem unfolds to the normal form of its
///   proof, taken under the `env` at hand: under a binder, the bound variable
///   stands for whatever bears its name in the proof. Any other variable of
///   `env` is its own normal form.
/// * An application normalizes its argument, then its function. Where the
///   function's normal form is a lambda abstraction, the argument's normal
///   form is substituted into its body and the result normalized; otherwise
///   the application of the two normal forms is the result.
/// * A binder normalizes its annotation, then its body under `env` extended
///   by the bound variable as an unproved theorem, and keeps its name.
pub open spec fn normal_form(t: Term, env: Env, c: nat, fuel: nat) -> (Option<Term>, nat)
    decreases fuel, t.size(),
{
    match t {
        Term::Var(v) => {
            if !env.contains_key(v) {
                (None, c)
            } else {
                match env[v] {
                    Binding::Proved { val, .. } => if fuel == 0 {
                        (None, c)
                    } else {
                        normal_form(val, env, c, (fuel - 1) as nat)
                    },
                    _ => (Some(t), c),
                }
            }
        },
        Term::Uni(_) => (Some(t), c),
        Term::App(f, a) => {
            let (arg, c1) = normal_form(*a, env, c, fuel);
            if arg is None {
                (None, c1)
            } else {
                let (fun, c2) = normal_form(*f, env, c1, fuel);
                match fun {
                    None => (None, c2),
                    Some(Term::Abs(Binder::Lambda, x, _, body)) => {
                        if fuel == 0 || c2 + body.demand() > limit() {
                            (None, c2)
                        } else {
                            normal_form(
                                subst(*body, x, arg->0, c2),
                                env,
                                c2 + body.demand(),
                                (fuel - 1) as nat,
                            )
                        }
                    },
                    Some(head) => (Some(Term::App(Box::new(head), Box::new(arg->0))), c2),
                }
            }
        },
        Term::Abs(k, x, ty, b) => {
            let (ty2, c1) = normal_form(*ty, env, c, fuel);
            if ty2 is None {
                (None, c1)
            } else {
                let inner = env.insert(x, Binding::Unproved { typ: ty2->0 });
                let (b2, c2) = normal_form(*b, inner, c1, fuel);
                if b2 is None {
                    (None, c2)
                } else {
                    (Some(Term::Abs(k, x, Box::new(ty2->0), Box::new(b2->0))), c2)
                }
            }
        },
    }
}

/// The term that an optional expression stands for.
pub open spec fn term_of(r: Option<Expr>) -> Option<Term> {
    match r {
        Some(e) => Some(e@),
        None => None,
    }
}

/// Types that have a normal form under a context.
pub trait Normalize {
    /// The term that `self` stands for.
    spec fn subject(&self) -> Term;

    /// The normal form of `self` under `ctx`, see [`normal_form`]; the bound
    /// on nested unfoldings is the one that `trk` carries.
    fn normalize(&self, ctx: &Context, trk: &mut SubstTracker) -> (r: Option<Expr>)
        ensures
            (term_of(r), final(trk).level()) == normal_form(
                self.subject(),
                ctx@,
                old(trk).level(),
                old(trk).fuel(),
            ),
            final(trk).fuel() == old(trk).fuel(),
    ;
}

/// The normal form of an expression, with an explicit bound on nested
/// unfoldings.
pub fn normalize_expr(e: &Expr, ctx: &Context, trk: &mut SubstTracker, fuel: u64) -> (r: Option<
    Expr,
>)
    ensures
        (term_of(r), final(trk).level()) == normal_form(e@, ctx@, old(trk).level(), fuel as nat),
        final(trk).fuel() == old(trk).fuel(),
    decreases fuel, e@.size(), 1nat,
{
    match e {
        Expr::Var(v) => normalize_variable(v, ctx, trk, fuel),
        Expr::Uni(u) => Some(Expr::Uni(Universe { level: u.level })),
        Expr::Pi(p) => {
            match normalize_binder(p, ctx, trk, fuel) {
                Some((t, b)) => Some(
                    Expr::Pi(
                        Abstraction {
                            x: p.x.clone(),
                            t: Box::new(t),
                            e: Box::new(b),
                            _ty: PhantomData,
                        },
                    ),
                ),
                None => None,
            }
        },
        Expr::Lambda(l) => {
            match normalize_binder(l, ctx, trk, fuel) {
                Some((t, b)) => Some(
                    Expr::Lambda(
                        Abstraction {
                            x: l.x.clone(),
                            t: Box::new(t),
                            e: Box::new(b),
                            _ty: PhantomData,
                        },
                    ),
                ),
                None => None,
            }
        },
        Expr::App(a) => normalize_application(a, ctx, trk, fuel),
    }
}

/// The normal form of a variable: its proof's normal form where it names a
/// proved theorem, itself where it names anything else.
pub fn normalize_variable(v: &Variable, ctx: &Context, trk: &mut SubstTracker, fuel: u64) -> (r:
    Option<Expr>)
    ensures
        (term_of(r), final(trk).level()) == normal_form(
            Term::Var(v@),
            ctx@,
            old(trk).level(),
            fuel as nat,
        ),
        final(trk).fuel() == old(trk).fuel(),
    decreases fuel, 1nat, 0nat,
{
    if ctx.contains(v) {
        match ctx.lookup_value(v) {
            Some(val) => {
                if fuel == 0 {
                    None
                } else {
                    normalize_expr(val, ctx, trk, fuel - 1)
                }
            },
            None => Some(Expr::Var(v.clone())),
        }
    } else {
        None
    }
}

/// The normal form of an application.
pub fn normalize_application(
    app: &Application,
    ctx: &Context,
    trk: &mut SubstTracker,
    fuel: u64,
) -> (r: Option<Expr>)
    ensures
        (term_of(r), final(trk).level()) == normal_form(
            Term::App(Box::new(app.e1@), Box::new(app.e2@)),
            ctx@,
            old(trk).level(),
            fuel as nat,
        ),
        final(trk).fuel() == old(trk).fuel(),
    decreases fuel, 1 + app.e1@.size() + app.e2@.size(), 0nat,
{
    let e2 = match normalize_expr(&app.e2, ctx, trk, fuel) {
        Some(e2) => e2,
        None => {
            return None;
        },
    };
    match normalize_expr(&app.e1, ctx, trk, fuel) {
        None => None,
        Some(Expr::Lambda(l)) => {
            if fuel == 0 {
                return None;
            }
            let mut body = *l.e;
            if !try_subst(&mut body, &l.x, &e2, trk) {
                return None;
            }
            normalize_expr(&body, ctx, trk, fuel - 1)
        },
        Some(e1) => Some(Expr::App(Application { e1: Box::new(e1), e2: Box::new(e2) })),
    }
}

/// The normal forms of a binder's annotation and of its body.
pub fn normalize_binder<T>(
    abs: &Abstraction<T>,
    ctx: &Context,
    trk: &mut SubstTracker,
    fuel: u64,
) -> (r: Option<(Expr, Expr)>)
    ensures
        ({
            let (ty, c1) = normal_form(abs.t@, ctx@, old(trk).level(), fuel as nat);
            if ty is None {
                r is None && final(trk).level() == c1
            } else {
                let inner = ctx@.insert(abs.x@, Binding::Unproved { typ: ty->0 });
                let (body, c2) = normal_form(abs.e@, inner, c1, fuel as nat);
                &&& final(trk).level() == c2
                &&& r is None <==> body is None
                &&& r matches Some(pair) ==> pair.0@ == ty->0 && pair.1@ == body->0
            }
        }),
        final(trk).fuel() == old(trk).fuel(),
    decreases fuel, 1 + abs.t@.size() + abs.e@.size(), 0nat,
{
    let t = match normalize_expr(&abs.t, ctx, trk, fuel) {
        Some(t) => t,
        None => {
            return None;
        },
    };
    let ctx2 = ctx.with_type(abs.x.clone(), t.clone());
    match normalize_expr(&abs.e, &ctx2, trk, fuel) {
        Some(e) => Some((t, e)),
        None => None,
    }
}

impl Normalize for Expr {
    open spec fn subject(&self) -> Term {
        self@
    }

    fn normalize(&self, ctx: &Context, trk: &mut SubstTracker) -> (r: Option<Expr>) {
        let fuel = trk.fuel_limit();
        normalize_expr(self, ctx, trk, fuel)
    }
}

impl Normalize for Variable {
    open spec fn subject(&self) -> Term {
        Term::Var(self@)
    }

    fn normalize(&self, ctx: &Context, trk: &mut SubstTracker) -> (r: Option<Expr>) {
        let fuel = trk.fuel_limit();
        normalize_variable(self, ctx, trk, fuel)
    }
}

impl Normalize for Universe {
    open spec fn subject(&self) -> Term {
        Term::Uni(self.level as nat)
    }

    fn normalize(&self, ctx: &Context, trk: &mut SubstTracker) -> (r: Option<Expr>) {
        Some(Expr::Uni(Universe { level: self.level }))
    }
}

impl Normalize for Application {
    open spec fn subject(&self) -> Term {
        Term::App(Box::new(self.e1@), Box::new(self.e2@))
    }

    fn normalize(&self, ctx: &Context, trk: &mut SubstTracker) -> (r: Option<Expr>) {
        let fuel = trk.fuel_limit();
        normalize_application(self, ctx, trk, fuel)
    }
}

impl Normalize for Pi {
    open spec fn subject(&self) -> Term {
        Term::Abs(Binder::Pi, self.x@, Box::new(self.t@), Box::new(self.e@))
    }

    fn normalize(&self, ctx: &Context, trk: &mut SubstTracker) -> (r: Option<Expr>) {
        let fuel = trk.fuel_limit();
        match normalize_binder(self, ctx, trk, fuel) {
            Some((t, b)) => Some(
                Expr::Pi(
                    Abstraction { x: self.x.clone(), t: Box::new(t), e: Box::new(b), _ty: PhantomData },
                ),
            ),
            None => None,
        }
    }
}

impl Normalize for Lambda {
    open spec fn subject(&self) -> Term {
        Term::Abs(Binder::Lambda, self.x@, Box::new(self.t@), Box::new(self.e@))
    }

    fn normalize(&self, ctx: &Context, trk: &mut SubstTracker) -> (r: Option<Expr>) {
        let fuel = trk.fuel_limit();
        match normalize_binder(self, ctx, trk, fuel) {
            Some((t, b)) => Some(
                Expr::Lambda(
                    Abstraction { x: self.x.clone(), t: Box::new(t), e: Box::new(b), _ty: PhantomData },
                ),
            ),
            None => None,
        }
    }
}

} // verus!
