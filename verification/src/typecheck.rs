//! Type inference.
use vstd::prelude::*;
use std::marker::PhantomData;
use crate::ast::{Abstraction, Application, Expr, Lambda, Pi, Universe, Variable};
use crate::context::Context;
use crate::equality::equal;
use crate::model::{limit, Binder, Binding, Env, Name, Term};
use crate::normalize::{normal_form, normalize_expr, term_of};
use crate::subst::{subst, try_subst, SubstTracker};

verus! {

/// The type of `t` under `env`, paired with the supply's counter after the
/// computation, which starts with the counter at `c`. The first component is
/// `None` where `t` has no type.
///
/// ```text
///   Γ(x) = A                                Γ |- A: Uᵢ     Γ, x: A |- B: Uⱼ
/// -------------      ----------------      ----------------------------------
///   Γ |- x: A          Γ |- Uᵢ: Uᵢ₊₁          Γ |- (Π x: A, B): U_max(i, j)
///
///   Γ |- A: Uᵢ      Γ, x: A |- y: B         Γ |- m : (Π x: A, B)     Γ |- n : A
/// -------------------------------------    -------------------------------------
///     Γ |- (λ x : A, y) : (Π x: A, B)                 Γ |- m n : B[n/x]
/// ```
///
/// A type "is" a universe or a pi type where its normal form is one, see
/// [`infer_universe_level`] and [`infer_pi_parts`]. In the rule for
/// application the type of `n` has to be definitionally equal to `A`, see
/// [`equal`]. The universe of the largest level has no type, and an
/// application has none where the supply cannot hand out the names that the
/// substitution into `B` needs.
pub open spec fn infer(t: Term, env: Env, c: nat, fuel: nat) -> (Option<Term>, nat)
    decreases t.size(), 0nat,
{
    match t {
        Term::Var(v) => if env.contains_key(v) {
            (Some(env[v].typ()), c)
        } else {
            (None, c)
        },
        Term::Uni(l) => if l < limit() {
            (Some(Term::Uni(l + 1)), c)
        } else {
            (None, c)
        },
        Term::Abs(Binder::Pi, x, a, b) => {
            let (k1, c1) = infer_universe_level(*a, env, c, fuel);
            if k1 is None {
                (None, c1)
            } else {
                let inner = env.insert(x, Binding::Unproved { typ: *a });
                let (k2, c2) = infer_universe_level(*b, inner, c1, fuel);
                if k2 is None {
                    (None, c2)
                } else if k1->0 >= k2->0 {
                    (Some(Term::Uni(k1->0)), c2)
                } else {
                    (Some(Term::Uni(k2->0)), c2)
                }
            }
        },
        Term::Abs(Binder::Lambda, x, a, b) => {
            let (k1, c1) = infer_universe_level(*a, env, c, fuel);
            if k1 is None {
                (None, c1)
            } else {
                let inner = env.insert(x, Binding::Unproved { typ: *a });
                let (tb, c2) = infer(*b, inner, c1, fuel);
                if tb is None {
                    (None, c2)
                } else {
                    (Some(Term::Abs(Binder::Pi, x, a, Box::new(tb->0))), c2)
                }
            }
        },
        Term::App(f, a) => {
            let (pi, c1) = infer_pi_parts(*f, env, c, fuel);
            if pi is None {
                (None, c1)
            } else {
                let (x, dom, cod) = pi->0;
                let (ta, c2) = infer(*a, env, c1, fuel);
                if ta is None {
                    (None, c2)
                } else {
                    let (same, c3) = equal(dom, ta->0, env, c2, fuel);
                    if !same || c3 + cod.demand() > limit() {
                        (None, c3)
                    } else {
                        (Some(subst(cod, x, *a, c3)), c3 + cod.demand())
                    }
                }
            }
        },
    }
}

/// The level of the universe that the type of `t` normalizes to, if it
/// normalizes to one.
pub open spec fn infer_universe_level(t: Term, env: Env, c: nat, fuel: nat) -> (Option<nat>, nat)
    decreases t.size(), 1nat,
{
    let (ty, c1) = infer(t, env, c, fuel);
    if ty is None {
        (None, c1)
    } else {
        let (n, c2) = normal_form(ty->0, env, c1, fuel);
        match n {
            Some(Term::Uni(l)) => (Some(l), c2),
            _ => (None, c2),
        }
    }
}

/// The bound variable, the domain and the codomain of the pi type that the
/// type of `t` normalizes to, if it normalizes to one.
pub open spec fn infer_pi_parts(t: Term, env: Env, c: nat, fuel: nat) -> (
    Option<(Name, Term, Term)>,
    nat,
)
    decreases t.size(), 1nat,
{
    let (ty, c1) = infer(t, env, c, fuel);
    if ty is None {
        (None, c1)
    } else {
        let (n, c2) = normal_form(ty->0, env, c1, fuel);
        match n {
            Some(Term::Abs(Binder::Pi, x, dom, cod)) => (Some((x, *dom, *cod)), c2),
            _ => (None, c2),
        }
    }
}

/// Types of which a type can be inferred.
pub trait TypeInfer {
    /// The term that `self` stands for.
    spec fn subject(&self) -> Term;

    /// The type of `self` under `ctx`, see [`infer`].
    fn type_infer(&self, ctx: Context, trk: &mut SubstTracker) -> (r: Option<Expr>)
        ensures
            (term_of(r), final(trk).level()) == infer(
                self.subject(),
                ctx@,
                old(trk).level(),
                old(trk).fuel(),
            ),
            final(trk).fuel() == old(trk).fuel(),
    ;
}

/// The type of an expression.
pub fn infer_expr(e: &Expr, ctx: Context, trk: &mut SubstTracker) -> (r: Option<Expr>)
    ensures
        (term_of(r), final(trk).level()) == infer(
            e@,
            ctx@,
            old(trk).level(),
            old(trk).fuel(),
        ),
        final(trk).fuel() == old(trk).fuel(),
    decreases e@.size(), 1nat,
{
    match e {
        Expr::Var(v) => infer_variable(v, ctx),
        Expr::Uni(u) => infer_universe_type(u),
        Expr::Pi(p) => infer_pi_type(p, ctx, trk),
        Expr::Lambda(l) => infer_lambda(l, ctx, trk),
        Expr::App(a) => infer_application(a, ctx, trk),
    }
}

/// The type that the context records for a variable.
pub fn infer_variable(v: &Variable, ctx: Context) -> (r: Option<Expr>)
    ensures
        r is Some <==> ctx@.contains_key(v@),
        r matches Some(t) ==> t@ == ctx@[v@].typ(),
{
    match ctx.lookup_type(v) {
        Some(t) => Some(t.clone()),
        None => None,
    }
}

/// The universe one level above, where there is one.
pub fn infer_universe_type(u: &Universe) -> (r: Option<Expr>)
    ensures
        r is Some <==> u.level < limit(),
        r matches Some(t) ==> t@ == Term::Uni(u.level as nat + 1),
{
    if u.level < u128::MAX {
        Some(Expr::Uni(Universe { level: u.level + 1 }))
    } else {
        None
    }
}

/// The type of a pi type: the larger of the universes of its domain and of
/// its codomain.
pub fn infer_pi_type(p: &Pi, ctx: Context, trk: &mut SubstTracker) -> (r: Option<Expr>)
    ensures
        (term_of(r), final(trk).level()) == infer(
            Term::Abs(Binder::Pi, p.x@, Box::new(p.t@), Box::new(p.e@)),
            ctx@,
            old(trk).level(),
            old(trk).fuel(),
        ),
        final(trk).fuel() == old(trk).fuel(),
    decreases 1 + p.t@.size() + p.e@.size(), 0nat,
{
    let k1 = match infer_universe(ctx.clone(), &p.t, trk) {
        Some(k) => k,
        None => {
            return None;
        },
    };
    let ctx2 = ctx.with_type(p.x.clone(), p.t.duplicate());
    let k2 = match infer_universe(ctx2, &p.e, trk) {
        Some(k) => k,
        None => {
            return None;
        },
    };
    if k1.level >= k2.level {
        Some(Expr::Uni(k1))
    } else {
        Some(Expr::Uni(k2))
    }
}

/// The type of a lambda abstraction: the pi type from its annotation to the
/// type of its body.
pub fn infer_lambda(l: &Lambda, ctx: Context, trk: &mut SubstTracker) -> (r: Option<Expr>)
    ensures
        (term_of(r), final(trk).level()) == infer(
            Term::Abs(Binder::Lambda, l.x@, Box::new(l.t@), Box::new(l.e@)),
            ctx@,
            old(trk).level(),
            old(trk).fuel(),
        ),
        final(trk).fuel() == old(trk).fuel(),
    decreases 1 + l.t@.size() + l.e@.size(), 0nat,
{
    if infer_universe(ctx.clone(), &l.t, trk).is_none() {
        return None;
    }
    let ctx2 = ctx.with_type(l.x.clone(), l.t.duplicate());
    match infer_expr(&l.e, ctx2, trk) {
        Some(te) => Some(
            Expr::Pi(
                Abstraction {
                    x: l.x.clone(),
                    t: Box::new(l.t.duplicate()),
                    e: Box::new(te),
                    _ty: PhantomData,
                },
            ),
        ),
        None => None,
    }
}

/// The type of an application: the codomain of the function's type, with the
/// argument in place of the bound variable.
pub fn infer_application(app: &Application, ctx: Context, trk: &mut SubstTracker) -> (r: Option<
    Expr,
>)
    ensures
        (term_of(r), final(trk).level()) == infer(
            Term::App(Box::new(app.e1@), Box::new(app.e2@)),
            ctx@,
            old(trk).level(),
            old(trk).fuel(),
        ),
        final(trk).fuel() == old(trk).fuel(),
    decreases 1 + app.e1@.size() + app.e2@.size(), 0nat,
{
    let abs = match infer_pi(ctx.clone(), &app.e1, trk) {
        Some(abs) => abs,
        None => {
            return None;
        },
    };
    let te = match infer_expr(&app.e2, ctx.clone(), trk) {
        Some(te) => te,
        None => {
            return None;
        },
    };
    if ctx.types_equal(trk, &abs.t, &te) {
        let mut ret = *abs.e;
        if try_subst(&mut ret, &abs.x, &app.e2, trk) {
            Some(ret)
        } else {
            None
        }
    } else {
        None
    }
}

/// The universe that the type of `e` normalizes to, if it normalizes to one.
pub fn infer_universe(ctx: Context, e: &Expr, trk: &mut SubstTracker) -> (r: Option<Universe>)
    ensures
        ({
            let (level, c) = infer_universe_level(e@, ctx@, old(trk).level(), old(trk).fuel());
            &&& final(trk).level() == c
            &&& r is Some <==> level is Some
            &&& r matches Some(u) ==> u.level == level->0
        }),
        final(trk).fuel() == old(trk).fuel(),
    decreases e@.size(), 2nat,
{
    let u = match infer_expr(e, ctx.clone(), trk) {
        Some(u) => u,
        None => {
            return None;
        },
    };
    let fuel = trk.fuel_limit();
    match normalize_expr(&u, &ctx, trk, fuel) {
        Some(Expr::Uni(normalized)) => Some(normalized),
        _ => None,
    }
}

/// The pi type that the type of `e` normalizes to, if it normalizes to one.
pub fn infer_pi(ctx: Context, e: &Expr, trk: &mut SubstTracker) -> (r: Option<Pi>)
    ensures
        ({
            let (parts, c) = infer_pi_parts(e@, ctx@, old(trk).level(), old(trk).fuel());
            &&& final(trk).level() == c
            &&& r is Some <==> parts is Some
            &&& r matches Some(p) ==> (p.x@, p.t@, p.e@) == parts->0
        }),
        final(trk).fuel() == old(trk).fuel(),
    decreases e@.size(), 2nat,
{
    let p = match infer_expr(e, ctx.clone(), trk) {
        Some(p) => p,
        None => {
            return None;
        },
    };
    let fuel = trk.fuel_limit();
    match normalize_expr(&p, &ctx, trk, fuel) {
        Some(Expr::Pi(normalized)) => Some(normalized),
        _ => None,
    }
}

impl TypeInfer for Expr {
    open spec fn subject(&self) -> Term {
        self@
    }

    fn type_infer(&self, ctx: Context, trk: &mut SubstTracker) -> (r: Option<Expr>) {
        infer_expr(self, ctx, trk)
    }
}

impl TypeInfer for Variable {
    open spec fn subject(&self) -> Term {
        Term::Var(self@)
    }

    fn type_infer(&self, ctx: Context, trk: &mut SubstTracker) -> (r: Option<Expr>) {
        infer_variable(self, ctx)
    }
}

impl TypeInfer for Universe {
    open spec fn subject(&self) -> Term {
        Term::Uni(self.level as nat)
    }

    fn type_infer(&self, ctx: Context, trk: &mut SubstTracker) -> (r: Option<Expr>) {
        infer_universe_type(self)
    }
}

impl TypeInfer for Pi {
    open spec fn subject(&self) -> Term {
        Term::Abs(Binder::Pi, self.x@, Box::new(self.t@), Box::new(self.e@))
    }

    fn type_infer(&self, ctx: Context, trk: &mut SubstTracker) -> (r: Option<Expr>) {
        infer_pi_type(self, ctx, trk)
    }
}

impl TypeInfer for Lambda {
    open spec fn subject(&self) -> Term {
        Term::Abs(Binder::Lambda, self.x@, Box::new(self.t@), Box::new(self.e@))
    }

    fn type_infer(&self, ctx: Context, trk: &mut SubstTracker) -> (r: Option<Expr>) {
        infer_lambda(self, ctx, trk)
    }
}

impl TypeInfer for Application {
    open spec fn subject(&self) -> Term {
        Term::App(Box::new(self.e1@), Box::new(self.e2@))
    }

    fn type_infer(&self, ctx: Context, trk: &mut SubstTracker) -> (r: Option<Expr>) {
        infer_application(self, ctx, trk)
    }
}

} // verus!
