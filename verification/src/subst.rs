//! Capture-avoiding substitution and the supply of fresh names.
use vstd::prelude::*;
use crate::ast::{Abstraction, Application, Expr, GenSym, Variable};
use crate::model::{limit, Name, Term};
use crate::Uinf;

verus! {

/// `t` with `r` in place of every free occurrence of `v`, when the supply's
/// counter stands at `c`.
///
/// Every binder on the way is renamed to a fresh name first: the binder `x`
/// becomes `x.refreshed(..)`, its body is rewritten to the new name, and only
/// then is `r` put in place of `v` in the rewritten body. The counter that each
/// part starts from is `c` plus the names drawn before it, see
/// [`Term::demand`].
///
/// The test on the size of the rewritten body is there for the definition to
/// be well founded; [`lemma_renaming_keeps_measures`] shows that it always
/// holds.
pub open spec fn subst(t: Term, v: Name, r: Term, c: nat) -> Term
    decreases t.size(),
{
    match t {
        Term::Var(u) => if u == v {
            r
        } else {
            t
        },
        Term::Uni(_) => t,
        Term::App(f, a) => Term::App(
            Box::new(subst(*f, v, r, c)),
            Box::new(subst(*a, v, r, c + f.demand())),
        ),
        Term::Abs(k, x, ty, b) => {
            let x2 = x.refreshed(c);
            let c1 = c + 1 + ty.demand();
            let renamed = subst(*b, x, Term::Var(x2), c1);
            let body = if renamed.size() == b.size() {
                subst(renamed, v, r, c1 + b.demand())
            } else {
                renamed
            };
            Term::Abs(k, x2, Box::new(subst(*ty, v, r, c + 1)), Box::new(body))
        },
    }
}

/// Putting a variable in place of a variable changes neither the size of a
/// term nor the number of names that a substitution into it draws.
pub proof fn lemma_renaming_keeps_measures(t: Term, v: Name, w: Name, c: nat)
    ensures
        subst(t, v, Term::Var(w), c).size() == t.size(),
        subst(t, v, Term::Var(w), c).demand() == t.demand(),
    decreases t.size(),
{
    match t {
        Term::Var(_) => {},
        Term::Uni(_) => {},
        Term::App(f, a) => {
            lemma_renaming_keeps_measures(*f, v, w, c);
            lemma_renaming_keeps_measures(*a, v, w, c + f.demand());
        },
        Term::Abs(k, x, ty, b) => {
            let c1 = c + 1 + ty.demand();
            let renamed = subst(*b, x, Term::Var(x.refreshed(c)), c1);
            lemma_renaming_keeps_measures(*ty, v, w, c + 1);
            lemma_renaming_keeps_measures(*b, x, x.refreshed(c), c1);
            lemma_renaming_keeps_measures(renamed, v, w, c1 + b.demand());
        },
    }
}

/// The equation of [`subst`] at a binder, without the size test.
pub proof fn lemma_subst_abs(t: Term, v: Name, r: Term, c: nat)
    ensures
        t matches Term::Abs(k, x, ty, b) ==> {
            let x2 = x.refreshed(c);
            let c1 = c + 1 + ty.demand();
            let renamed = subst(*b, x, Term::Var(x2), c1);
            &&& renamed.size() == b.size()
            &&& renamed.demand() == b.demand()
            &&& subst(t, v, r, c) == Term::Abs(
                k,
                x2,
                Box::new(subst(*ty, v, r, c + 1)),
                Box::new(subst(renamed, v, r, c1 + b.demand())),
            )
        },
{
    match t {
        Term::Abs(_, x, ty, b) => {
            lemma_renaming_keeps_measures(*b, x, x.refreshed(c), c + 1 + ty.demand());
        },
        _ => {},
    }
}

/// The supply of fresh names: a counter that only grows. Every generated name
/// carries the value that the counter had just after it was drawn.
///
/// The supply is handed to every operation that substitutes, so it also
/// carries the one setting that those operations share: the bound on nested
/// unfoldings, without which normalization need not come to an end.
pub struct SubstTracker {
    current_level: Uinf,
    fuel: u64,
}

/// The bound on nested unfoldings that a new supply carries.
pub const DEFAULT_FUEL: u64 = 256;

impl SubstTracker {
    /// The number of names drawn so far.
    pub closed spec fn level(&self) -> nat {
        self.current_level as nat
    }

    /// The bound on nested unfoldings during normalization: how many times
    /// in a row a reduct or an unfolded proof may itself be reduced or
    /// unfolded. It is fixed when the supply is made.
    pub closed spec fn fuel(&self) -> nat {
        self.fuel as nat
    }

    /// A supply that starts at zero and bounds nested unfoldings by
    /// [`DEFAULT_FUEL`].
    pub fn new() -> (r: Self)
        ensures
            r.level() == 0,
            r.fuel() == DEFAULT_FUEL,
    {
        SubstTracker { current_level: 0, fuel: DEFAULT_FUEL }
    }

    /// A supply that starts at zero and bounds nested unfoldings by `fuel`.
    pub fn with_fuel(fuel: u64) -> (r: Self)
        ensures
            r.level() == 0,
            r.fuel() == fuel,
    {
        SubstTracker { current_level: 0, fuel }
    }

    /// The bound on nested unfoldings.
    pub fn fuel_limit(&self) -> (r: u64)
        ensures
            r == self.fuel(),
    {
        self.fuel
    }

    /// The number of names drawn so far.
    pub fn drawn(&self) -> (r: Uinf)
        ensures
            r == self.level(),
    {
        self.current_level
    }

    /// How many more names the supply can hand out.
    pub fn remaining(&self) -> (r: Uinf)
        ensures
            r == limit() - self.level(),
    {
        u128::MAX - self.current_level
    }

    /// Draws a fresh name with the textual part of `var`.
    pub fn refresh_var(&mut self, var: &Variable) -> (r: Variable)
        requires
            old(self).level() < limit(),
        ensures
            final(self).level() == old(self).level() + 1,
            final(self).fuel() == old(self).fuel(),
            r@ == var@.refreshed(old(self).level()),
    {
        let name = match var {
            Variable::GenSym(s) => s.name.clone(),
            Variable::Str(s) => s.name.clone(),
        };
        self.current_level += 1;
        let id = self.current_level;
        Variable::GenSym(GenSym { name, id })
    }
}

impl Default for SubstTracker {
    fn default() -> (r: Self)
        ensures
            r.level() == 0,
            r.fuel() == DEFAULT_FUEL,
    {
        Self::new()
    }
}

/// Substitution in place of an expression for a variable.
pub trait Subst {
    /// The number of names that [`Subst::subst`] draws from the supply.
    spec fn names_drawn(&self) -> nat;

    /// Whether `after` is `self` with `r` in place of the free occurrences of
    /// `v`, computed with the supply's counter at `c`.
    spec fn is_subst(&self, after: &Self, v: Name, r: Term, c: nat) -> bool;

    /// Replaces the free occurrences of `v` in `self` by `e`.
    fn subst(&mut self, v: &Variable, e: &Expr, ctx: &mut SubstTracker)
        requires
            old(ctx).level() + old(self).names_drawn() <= limit(),
        ensures
            old(self).is_subst(final(self), v@, e@, old(ctx).level()),
            final(ctx).level() == old(ctx).level() + old(self).names_drawn(),
            final(ctx).fuel() == old(ctx).fuel(),
    ;
}

impl<T> Abstraction<T> {
    /// The number of names that a substitution into the binder draws.
    pub open spec fn demand(&self) -> nat {
        1 + self.t@.demand() + 2 * self.e@.demand()
    }
}

impl Application {
    /// The number of names that a substitution into the application draws.
    pub open spec fn demand(&self) -> nat {
        self.e1@.demand() + self.e2@.demand()
    }
}

/// Substitution into an expression.
pub fn subst_expr(this: &mut Expr, v: &Variable, e: &Expr, ctx: &mut SubstTracker)
    requires
        old(ctx).level() + old(this)@.demand() <= limit(),
    ensures
        final(this)@ == subst(old(this)@, v@, e@, old(ctx).level()),
        final(ctx).level() == old(ctx).level() + old(this)@.demand(),
        final(ctx).fuel() == old(ctx).fuel(),
    decreases old(this)@.size(), 1nat,
{
    proof {
        lemma_subst_abs(old(this)@, v@, e@, old(ctx).level());
    }
    match this {
        Expr::Var(v2) => {
            if *v == *v2 {
                *this = e.clone();
            }
        },
        Expr::Pi(abs) => subst_abstraction(abs, v, e, ctx),
        Expr::Lambda(abs) => subst_abstraction(abs, v, e, ctx),
        Expr::App(app) => subst_application(app, v, e, ctx),
        Expr::Uni(_) => (),
    }
}

/// Substitution into both parts of an application, the function first.
pub fn subst_application(this: &mut Application, v: &Variable, e: &Expr, ctx: &mut SubstTracker)
    requires
        old(ctx).level() + old(this).demand() <= limit(),
    ensures
        final(this).e1@ == subst(old(this).e1@, v@, e@, old(ctx).level()),
        final(this).e2@ == subst(
            old(this).e2@,
            v@,
            e@,
            old(ctx).level() + old(this).e1@.demand(),
        ),
        final(ctx).level() == old(ctx).level() + old(this).demand(),
        final(ctx).fuel() == old(ctx).fuel(),
    decreases 1 + old(this).e1@.size() + old(this).e2@.size(), 0nat,
{
    subst_expr(&mut this.e1, v, e, ctx);
    subst_expr(&mut this.e2, v, e, ctx);
}

/// Substitution under a binder: the binder is renamed to a fresh name, then
/// the substitution is made in the renamed body.
pub fn subst_abstraction<T>(
    this: &mut Abstraction<T>,
    v: &Variable,
    e: &Expr,
    ctx: &mut SubstTracker,
)
    requires
        old(ctx).level() + old(this).demand() <= limit(),
    ensures
        final(this).x@ == old(this).x@.refreshed(old(ctx).level()),
        final(this).t@ == subst(old(this).t@, v@, e@, old(ctx).level() + 1),
        final(this).e@ == subst(
            subst(
                old(this).e@,
                old(this).x@,
                Term::Var(final(this).x@),
                old(ctx).level() + 1 + old(this).t@.demand(),
            ),
            v@,
            e@,
            old(ctx).level() + 1 + old(this).t@.demand() + old(this).e@.demand(),
        ),
        final(ctx).level() == old(ctx).level() + old(this).demand(),
        final(ctx).fuel() == old(ctx).fuel(),
    decreases 1 + old(this).t@.size() + old(this).e@.size(), 0nat,
{
    let x = ctx.refresh_var(&this.x);
    subst_expr(&mut this.t, v, e, ctx);
    let renaming = Expr::Var(x.clone());
    proof {
        lemma_renaming_keeps_measures(this.e@, this.x@, x@, ctx.level());
    }
    subst_expr(&mut this.e, &this.x, &renaming, ctx);
    subst_expr(&mut this.e, v, e, ctx);
    this.x = x;
}

impl Subst for Expr {
    open spec fn names_drawn(&self) -> nat {
        self@.demand()
    }

    open spec fn is_subst(&self, after: &Self, v: Name, r: Term, c: nat) -> bool {
        after@ == subst(self@, v, r, c)
    }

    fn subst(&mut self, v: &Variable, e: &Expr, ctx: &mut SubstTracker) {
        subst_expr(self, v, e, ctx)
    }
}

impl Subst for Application {
    open spec fn names_drawn(&self) -> nat {
        self.demand()
    }

    open spec fn is_subst(&self, after: &Self, v: Name, r: Term, c: nat) -> bool {
        &&& after.e1@ == subst(self.e1@, v, r, c)
        &&& after.e2@ == subst(self.e2@, v, r, c + self.e1@.demand())
    }

    fn subst(&mut self, v: &Variable, e: &Expr, ctx: &mut SubstTracker) {
        subst_application(self, v, e, ctx)
    }
}

impl<T> Subst for Abstraction<T> {
    open spec fn names_drawn(&self) -> nat {
        self.demand()
    }

    open spec fn is_subst(&self, after: &Self, v: Name, r: Term, c: nat) -> bool {
        let c1 = c + 1 + self.t@.demand();
        &&& after.x@ == self.x@.refreshed(c)
        &&& after.t@ == subst(self.t@, v, r, c + 1)
        &&& after.e@ == subst(
            subst(self.e@, self.x@, Term::Var(after.x@), c1),
            v,
            r,
            c1 + self.e@.demand(),
        )
    }

    fn subst(&mut self, v: &Variable, e: &Expr, ctx: &mut SubstTracker) {
        subst_abstraction(self, v, e, ctx)
    }
}

impl Expr {
    /// The number of names that a substitution into the expression draws, or
    /// `None` when that number is beyond the largest identifier.
    pub fn demand(&self) -> (r: Option<Uinf>)
        ensures
            r matches Some(n) ==> n == self@.demand(),
            r is None <==> self@.demand() > limit(),
        decreases self,
    {
        match self {
            Expr::Var(_) => Some(0),
            Expr::Uni(_) => Some(0),
            Expr::App(a) => {
                match (a.e1.demand(), a.e2.demand()) {
                    (Some(m), Some(n)) => if n <= u128::MAX - m {
                        Some(m + n)
                    } else {
                        None
                    },
                    _ => None,
                }
            },
            Expr::Pi(p) => binder_demand(p.t.demand(), p.e.demand()),
            Expr::Lambda(l) => binder_demand(l.t.demand(), l.e.demand()),
        }
    }
}

/// The names that a binder draws, from those of its annotation and its body.
fn binder_demand(annotation: Option<Uinf>, body: Option<Uinf>) -> (r: Option<Uinf>)
    ensures
        r matches Some(n) ==> annotation is Some && body is Some && n == 1 + annotation->0 + 2
            * body->0,
        r is None <==> (annotation is None || body is None || 1 + annotation->0 + 2 * body->0
            > limit()),
{
    match (annotation, body) {
        (Some(m), Some(n)) => {
            if n > u128::MAX / 2 {
                None
            } else {
                let twice: Uinf = 2 * n;
                if m >= u128::MAX - twice {
                    None
                } else {
                    Some(1 + m + twice)
                }
            }
        },
        _ => None,
    }
}

/// Substitution that first asks whether the supply can hand out the names it
/// needs. Where it cannot, nothing is changed and the result is `false`.
pub fn try_subst(this: &mut Expr, v: &Variable, e: &Expr, ctx: &mut SubstTracker) -> (done: bool)
    ensures
        done == (old(ctx).level() + old(this)@.demand() <= limit()),
        done ==> final(this)@ == subst(old(this)@, v@, e@, old(ctx).level()),
        done ==> final(ctx).level() == old(ctx).level() + old(this)@.demand(),
        !done ==> *final(this) == *old(this) && final(ctx).level() == old(ctx).level(),
        final(ctx).fuel() == old(ctx).fuel(),
{
    match this.demand() {
        Some(n) => {
            if n <= ctx.remaining() {
                subst_expr(this, v, e, ctx);
                true
            } else {
                false
            }
        },
        None => false,
    }
}

} // verus!
