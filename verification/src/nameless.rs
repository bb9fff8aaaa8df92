//! Terms without the names of their bound variables, and what substitution
//! and the comparison of normal forms have to do with them.
use vstd::prelude::*;
use crate::equality::{alpha_eq, equal, same_binding};
use crate::free_vars::{lemma_capture_avoided, lemma_subst_free, lemma_subst_removes_variable};
use crate::fresh::{
    env_below, lemma_above_is_not_free, lemma_alpha_eq_counter_grows, lemma_below_is_monotone,
    lemma_env_below_is_monotone, lemma_normal_form_below, lemma_subst_below,
    lemma_subst_below_without, lemma_subst_keeps_below_where_absent,
};
use crate::model::{limit, Binder, Env, Name, Term};
use crate::normal::lemma_normalize_idempotent;
use crate::normalize::normal_form;
use crate::subst::{lemma_renaming_keeps_measures, lemma_subst_abs, subst};

verus! {

/// A term in which a bound variable is the number of binders between it and
/// its own binder.
pub enum Nameless {
    Bound(nat),
    Free(Name),
    Uni(nat),
    App(Box<Nameless>, Box<Nameless>),
    Abs(Binder, Box<Nameless>, Box<Nameless>),
}

/// The place of the first `v` in `names`, if there is one.
pub open spec fn index_of(names: Seq<Name>, v: Name) -> Option<nat>
    decreases names.len(),
{
    if names.len() == 0 {
        None
    } else if names[0] == v {
        Some(0)
    } else {
        match index_of(names.drop_first(), v) {
            Some(i) => Some(i + 1),
            None => None,
        }
    }
}

/// `t` without the names of its bound variables, where `names` are the
/// variables bound around `t`, the innermost first.
pub open spec fn nameless(t: Term, names: Seq<Name>) -> Nameless
    decreases t,
{
    match t {
        Term::Var(u) => match index_of(names, u) {
            Some(i) => Nameless::Bound(i),
            None => Nameless::Free(u),
        },
        Term::Uni(l) => Nameless::Uni(l),
        Term::App(f, a) => Nameless::App(
            Box::new(nameless(*f, names)),
            Box::new(nameless(*a, names)),
        ),
        Term::Abs(k, x, ty, b) => Nameless::Abs(
            k,
            Box::new(nameless(*ty, names)),
            Box::new(nameless(*b, seq![x] + names)),
        ),
    }
}

/// Whether two terms differ in the names of their bound variables only.
pub open spec fn same_up_to_names(a: Term, b: Term) -> bool {
    nameless(a, Seq::empty()) == nameless(b, Seq::empty())
}

/// `names` with `x` between `pre` and `post`.
pub open spec fn around(pre: Seq<Name>, x: Name, post: Seq<Name>) -> Seq<Name> {
    pre + seq![x] + post
}

/// A binder around `names` is a binder before `pre`.
proof fn lemma_around_under_binder(y: Name, pre: Seq<Name>, x: Name, post: Seq<Name>)
    ensures
        seq![y] + around(pre, x, post) == around(seq![y] + pre, x, post),
        around(Seq::empty(), y, around(pre, x, post)) == seq![y] + around(pre, x, post),
{
    assert(seq![y] + around(pre, x, post) =~= around(seq![y] + pre, x, post));
    assert(around(Seq::empty(), y, around(pre, x, post)) =~= seq![y] + around(pre, x, post));
}

/// A place that [`index_of`] gives is in the sequence, and it gives one
/// exactly for the names in the sequence.
pub proof fn lemma_index_of_known(names: Seq<Name>, v: Name)
    ensures
        index_of(names, v) matches Some(i) ==> i < names.len() && names[i as int] == v,
        index_of(names, v) is Some <==> names.contains(v),
    decreases names.len(),
{
    if names.len() > 0 {
        lemma_index_of_known(names.drop_first(), v);
        if names[0] != v {
            if names.contains(v) {
                let i = choose|i: int| 0 <= i < names.len() && names[i] == v;
                assert(names.drop_first()[i - 1] == v);
            }
            if names.drop_first().contains(v) {
                let i = choose|i: int|
                    0 <= i < names.drop_first().len() && names.drop_first()[i] == v;
                assert(names[i + 1] == v);
            }
        }
    }
}

/// A name other than the one exchanged is found at the same place.
proof fn lemma_index_of_exchange(pre: Seq<Name>, x: Name, x2: Name, post: Seq<Name>, u: Name)
    requires
        u != x,
        u != x2,
    ensures
        index_of(around(pre, x2, post), u) == index_of(around(pre, x, post), u),
    decreases pre.len(),
{
    if pre.len() == 0 {
        assert(around(pre, x2, post).drop_first() =~= post);
        assert(around(pre, x, post).drop_first() =~= post);
    } else {
        assert(around(pre, x2, post).drop_first() =~= around(pre.drop_first(), x2, post));
        assert(around(pre, x, post).drop_first() =~= around(pre.drop_first(), x, post));
        lemma_index_of_exchange(pre.drop_first(), x, x2, post, u);
    }
}

/// A name that does not occur before its place is found at its place.
proof fn lemma_index_of_hit(pre: Seq<Name>, x: Name, post: Seq<Name>)
    requires
        !pre.contains(x),
    ensures
        index_of(around(pre, x, post), x) == Some(pre.len()),
    decreases pre.len(),
{
    if pre.len() > 0 {
        assert(pre[0] != x);
        assert(around(pre, x, post).drop_first() =~= around(pre.drop_first(), x, post));
        assert forall|i: int| 0 <= i < pre.drop_first().len() implies pre.drop_first()[i] != x by {
            assert(pre[i + 1] != x);
        }
        lemma_index_of_hit(pre.drop_first(), x, post);
    }
}

/// The place of a name in a sequence with one more name at its end.
proof fn lemma_index_of_push(pre: Seq<Name>, z: Name, u: Name)
    ensures
        index_of(pre.push(z), u) == match index_of(pre, u) {
            Some(i) => Some(i),
            None => if u == z {
                Some(pre.len())
            } else {
                None
            },
        },
    decreases pre.len(),
{
    if pre.len() == 0 {
        assert(pre.push(z).drop_first() =~= pre);
    } else {
        assert(pre.push(z).drop_first() =~= pre.drop_first().push(z));
        lemma_index_of_push(pre.drop_first(), z, u);
    }
}

/// Renaming a bound variable: with the fresh name `x2` in place of `x` in
/// `t`, and in the names bound around `t`, the nameless term is the same.
pub proof fn lemma_renaming_keeps_nameless(
    t: Term,
    x: Name,
    x2: Name,
    pre: Seq<Name>,
    post: Seq<Name>,
    c: nat,
)
    requires
        t.below(c),
        x.below(c),
        x2.below(c),
        !t.has_free(x2),
        !pre.contains(x),
        !pre.contains(x2),
    ensures
        nameless(subst(t, x, Term::Var(x2), c), around(pre, x2, post)) == nameless(
            t,
            around(pre, x, post),
        ),
    decreases t.size(),
{
    match t {
        Term::Var(u) => {
            if u == x {
                lemma_index_of_hit(pre, x, post);
                lemma_index_of_hit(pre, x2, post);
            } else {
                lemma_index_of_exchange(pre, x, x2, post, u);
            }
        },
        Term::Uni(_) => {},
        Term::App(f, a) => {
            lemma_renaming_keeps_nameless(*f, x, x2, pre, post, c);
            lemma_below_is_monotone(*a, c, c + f.demand());
            lemma_renaming_keeps_nameless(*a, x, x2, pre, post, c + f.demand());
        },
        Term::Abs(k, y, ty, b) => {
            lemma_subst_abs(t, x, Term::Var(x2), c);
            let y2 = y.refreshed(c);
            let c1 = c + 1 + ty.demand();
            let c2 = c1 + b.demand();
            let renamed = subst(*b, y, Term::Var(y2), c1);
            let body = subst(renamed, x, Term::Var(x2), c2);
            // The annotation.
            lemma_below_is_monotone(*ty, c, c + 1);
            lemma_renaming_keeps_nameless(*ty, x, x2, pre, post, c + 1);
            // The body, after the binder's own renaming.
            lemma_below_is_monotone(*b, c, c2);
            lemma_subst_below(*b, y, Term::Var(y2), c1, c2);
            if renamed.has_free(x2) {
                lemma_subst_free(*b, y, Term::Var(y2), c1, x2);
            }
            let inner = seq![y2] + pre;
            assert(!inner.contains(x) && !inner.contains(x2)) by {
                assert forall|i: int| 0 <= i < inner.len() implies inner[i] != x && inner[i]
                    != x2 by {
                    if i > 0 {
                        assert(inner[i] == pre[i - 1]);
                    }
                }
            }
            lemma_renaming_keeps_nameless(renamed, x, x2, inner, post, c2);
            // The binder's own renaming.
            lemma_below_is_monotone(*b, c, c1);
            lemma_above_is_not_free(*b, c, y2);
            lemma_renaming_keeps_nameless(
                *b,
                y,
                y2,
                Seq::empty(),
                around(pre, x, post),
                c1,
            );
            lemma_around_under_binder(y2, pre, x2, post);
            lemma_around_under_binder(y2, pre, x, post);
            lemma_around_under_binder(y, pre, x, post);
            assert(nameless(body, seq![y2] + around(pre, x2, post)) == nameless(
                *b,
                seq![y] + around(pre, x, post),
            ));
        },
    }
}

/// A substitution that replaces nothing, or a variable by itself, changes
/// bound names only.
pub proof fn lemma_idle_subst_keeps_nameless(t: Term, v: Name, r: Term, c: nat, names: Seq<Name>)
    requires
        t.below(c),
        r == Term::Var(v) || (!t.has_free(v) && v.below(c)),
    ensures
        nameless(subst(t, v, r, c), names) == nameless(t, names),
    decreases t.size(),
{
    match t {
        Term::Var(_) => {},
        Term::Uni(_) => {},
        Term::App(f, a) => {
            lemma_idle_subst_keeps_nameless(*f, v, r, c, names);
            lemma_below_is_monotone(*a, c, c + f.demand());
            lemma_idle_subst_keeps_nameless(*a, v, r, c + f.demand(), names);
        },
        Term::Abs(k, y, ty, b) => {
            lemma_subst_abs(t, v, r, c);
            let y2 = y.refreshed(c);
            let c1 = c + 1 + ty.demand();
            let c2 = c1 + b.demand();
            let renamed = subst(*b, y, Term::Var(y2), c1);
            lemma_below_is_monotone(*ty, c, c + 1);
            lemma_idle_subst_keeps_nameless(*ty, v, r, c + 1, names);
            lemma_below_is_monotone(*b, c, c2);
            lemma_subst_below(*b, y, Term::Var(y2), c1, c2);
            if renamed.has_free(v) {
                lemma_subst_free(*b, y, Term::Var(y2), c1, v);
            }
            lemma_idle_subst_keeps_nameless(renamed, v, r, c2, seq![y2] + names);
            lemma_below_is_monotone(*b, c, c1);
            lemma_above_is_not_free(*b, c, y2);
            lemma_renaming_keeps_nameless(*b, y, y2, Seq::empty(), names, c1);
            assert(around(Seq::empty(), y2, names) =~= seq![y2] + names);
            assert(around(Seq::empty(), y, names) =~= seq![y] + names);
        },
    }
}

impl Nameless {
    /// Whether the free variable `w` occurs in the nameless term.
    pub open spec fn mentions(self, w: Name) -> bool
        decreases self,
    {
        match self {
            Nameless::Bound(_) => false,
            Nameless::Free(u) => u == w,
            Nameless::Uni(_) => false,
            Nameless::App(f, a) => f.mentions(w) || a.mentions(w),
            Nameless::Abs(_, ty, b) => ty.mentions(w) || b.mentions(w),
        }
    }
}

/// The free variables of a nameless term are those of the term that are not
/// bound around it.
pub proof fn lemma_nameless_mentions(t: Term, names: Seq<Name>, w: Name)
    ensures
        nameless(t, names).mentions(w) <==> t.has_free(w) && !names.contains(w),
    decreases t,
{
    match t {
        Term::Var(u) => {
            lemma_index_of_known(names, u);
        },
        Term::Uni(_) => {},
        Term::App(f, a) => {
            lemma_nameless_mentions(*f, names, w);
            lemma_nameless_mentions(*a, names, w);
        },
        Term::Abs(_, x, ty, b) => {
            lemma_nameless_mentions(*ty, names, w);
            lemma_nameless_mentions(*b, seq![x] + names, w);
            let inner = seq![x] + names;
            assert(inner.contains(w) <==> (x == w || names.contains(w))) by {
                if names.contains(w) {
                    let i = choose|i: int| 0 <= i < names.len() && names[i] == w;
                    assert(inner[i + 1] == w);
                }
                if x == w {
                    assert(inner[0] == w);
                }
                if inner.contains(w) {
                    let i = choose|i: int| 0 <= i < inner.len() && inner[i] == w;
                    if i > 0 {
                        assert(names[i - 1] == w);
                    }
                }
            }
        },
    }
}

/// Two terms that are the same without names under one more outermost
/// binder of one name are the same without it.
pub proof fn lemma_nameless_without_outermost(
    a: Term,
    b: Term,
    pre_a: Seq<Name>,
    pre_b: Seq<Name>,
    z: Name,
)
    requires
        pre_a.len() == pre_b.len(),
        nameless(a, pre_a.push(z)) == nameless(b, pre_b.push(z)),
    ensures
        nameless(a, pre_a) == nameless(b, pre_b),
    decreases a,
{
    match (a, b) {
        (Term::Var(u), Term::Var(w)) => {
            lemma_index_of_push(pre_a, z, u);
            lemma_index_of_push(pre_b, z, w);
            lemma_index_of_known(pre_a, u);
            lemma_index_of_known(pre_b, w);
        },
        (Term::App(f1, a1), Term::App(f2, a2)) => {
            lemma_nameless_without_outermost(*f1, *f2, pre_a, pre_b, z);
            lemma_nameless_without_outermost(*a1, *a2, pre_a, pre_b, z);
        },
        (Term::Abs(_, x1, t1, b1), Term::Abs(_, x2, t2, b2)) => {
            lemma_nameless_without_outermost(*t1, *t2, pre_a, pre_b, z);
            assert(seq![x1] + pre_a.push(z) =~= (seq![x1] + pre_a).push(z));
            assert(seq![x2] + pre_b.push(z) =~= (seq![x2] + pre_b).push(z));
            lemma_nameless_without_outermost(*b1, *b2, seq![x1] + pre_a, seq![x2] + pre_b, z);
        },
        _ => {},
    }
}

/// The number of names that the comparison of a term with `t` draws where
/// the two are found equal: at each binder, the names of a substitution into
/// its body.
pub open spec fn comparison_demand(t: Term) -> nat
    decreases t,
{
    match t {
        Term::Var(_) => 0,
        Term::Uni(_) => 0,
        Term::App(f, a) => comparison_demand(*f) + comparison_demand(*a),
        Term::Abs(_, _, ty, b) => comparison_demand(*ty) + b.demand() + comparison_demand(*b),
    }
}

/// Putting a variable in place of a variable does not change what a
/// comparison draws.
pub proof fn lemma_renaming_keeps_comparison_demand(t: Term, v: Name, w: Name, c: nat)
    ensures
        comparison_demand(subst(t, v, Term::Var(w), c)) == comparison_demand(t),
    decreases t.size(),
{
    match t {
        Term::Var(_) => {},
        Term::Uni(_) => {},
        Term::App(f, a) => {
            lemma_renaming_keeps_comparison_demand(*f, v, w, c);
            lemma_renaming_keeps_comparison_demand(*a, v, w, c + f.demand());
        },
        Term::Abs(_, x, ty, b) => {
            lemma_subst_abs(t, v, Term::Var(w), c);
            let c1 = c + 1 + ty.demand();
            let renamed = subst(*b, x, Term::Var(x.refreshed(c)), c1);
            lemma_renaming_keeps_comparison_demand(*ty, v, w, c + 1);
            lemma_renaming_keeps_comparison_demand(*b, x, x.refreshed(c), c1);
            lemma_renaming_keeps_comparison_demand(renamed, v, w, c1 + b.demand());
            lemma_renaming_keeps_measures(renamed, v, w, c1 + b.demand());
        },
    }
}

/// Terms that differ in the names of their bound variables only are found
/// equal by the comparison of normal forms, where the supply's counter bounds
/// the identifiers in both and the supply can hand out the names that the
/// comparison draws. The comparison then draws exactly those names.
pub proof fn lemma_same_up_to_names_is_alpha_eq(a: Term, b: Term, c: nat)
    requires
        same_up_to_names(a, b),
        a.below(c),
        b.below(c),
        c + comparison_demand(b) <= limit(),
    ensures
        alpha_eq(a, b, c) == (true, c + comparison_demand(b)),
    decreases a.size(),
{
    let empty = Seq::<Name>::empty();
    match (a, b) {
        (Term::Var(u), Term::Var(w)) => {},
        (Term::Uni(_), Term::Uni(_)) => {},
        (Term::App(f1, a1), Term::App(f2, a2)) => {
            lemma_same_up_to_names_is_alpha_eq(*f1, *f2, c);
            let c1 = c + comparison_demand(*f2);
            lemma_below_is_monotone(*a1, c, c1);
            lemma_below_is_monotone(*a2, c, c1);
            lemma_same_up_to_names_is_alpha_eq(*a1, *a2, c1);
        },
        (Term::Abs(k1, x1, t1, b1), Term::Abs(k2, x2, t2, b2)) => {
            lemma_same_up_to_names_is_alpha_eq(*t1, *t2, c);
            let c1 = c + comparison_demand(*t2);
            let c2 = c1 + b2.demand();
            let swapped = subst(*b2, x2, Term::Var(x1), c1);
            lemma_below_is_monotone(*b2, c, c1);
            lemma_below_is_monotone(*b2, c, c2);
            lemma_below_is_monotone(*b1, c, c2);
            lemma_subst_below(*b2, x2, Term::Var(x1), c1, c2);
            lemma_renaming_keeps_comparison_demand(*b2, x2, x1, c1);
            assert(seq![x1] + empty =~= empty.push(x1));
            assert(seq![x2] + empty =~= empty.push(x2));
            assert(around(empty, x1, empty) =~= empty.push(x1));
            assert(around(empty, x2, empty) =~= empty.push(x2));
            if x1 == x2 {
                lemma_idle_subst_keeps_nameless(*b2, x2, Term::Var(x1), c1, empty.push(x1));
            } else {
                lemma_nameless_mentions(*b2, empty.push(x2), x1);
                lemma_nameless_mentions(*b1, empty.push(x1), x1);
                assert(empty.push(x1)[0] == x1);
                assert(!empty.push(x2).contains(x1));
                lemma_renaming_keeps_nameless(*b2, x2, x1, empty, empty, c1);
            }
            assert(nameless(*b1, empty.push(x1)) == nameless(swapped, empty.push(x1)));
            lemma_nameless_without_outermost(*b1, swapped, empty, empty, x1);
            lemma_same_up_to_names_is_alpha_eq(*b1, swapped, c2);
            assert(alpha_eq(a, b, c) == same_binding(x1, *t1, *b1, x2, *t2, *b2, c));
        },
        _ => {},
    }
}

/// Two terms that are the same without names are the same under one more
/// outermost binder of one name.
pub proof fn lemma_nameless_with_outermost(
    a: Term,
    b: Term,
    pre_a: Seq<Name>,
    pre_b: Seq<Name>,
    z: Name,
)
    requires
        pre_a.len() == pre_b.len(),
        nameless(a, pre_a) == nameless(b, pre_b),
    ensures
        nameless(a, pre_a.push(z)) == nameless(b, pre_b.push(z)),
    decreases a,
{
    match (a, b) {
        (Term::Var(u), Term::Var(w)) => {
            lemma_index_of_push(pre_a, z, u);
            lemma_index_of_push(pre_b, z, w);
            lemma_index_of_known(pre_a, u);
            lemma_index_of_known(pre_b, w);
        },
        (Term::App(f1, a1), Term::App(f2, a2)) => {
            lemma_nameless_with_outermost(*f1, *f2, pre_a, pre_b, z);
            lemma_nameless_with_outermost(*a1, *a2, pre_a, pre_b, z);
        },
        (Term::Abs(_, x1, t1, b1), Term::Abs(_, x2, t2, b2)) => {
            lemma_nameless_with_outermost(*t1, *t2, pre_a, pre_b, z);
            assert(seq![x1] + pre_a.push(z) =~= (seq![x1] + pre_a).push(z));
            assert(seq![x2] + pre_b.push(z) =~= (seq![x2] + pre_b).push(z));
            lemma_nameless_with_outermost(*b1, *b2, seq![x1] + pre_a, seq![x2] + pre_b, z);
        },
        _ => {},
    }
}

/// Terms that the comparison finds equal differ in the names of their bound
/// variables only, where the supply's counter bounds the identifiers in
/// both.
pub proof fn lemma_alpha_eq_gives_same_up_to_names(a: Term, b: Term, c: nat)
    requires
        a.below(c),
        b.below(c),
        alpha_eq(a, b, c).0,
    ensures
        same_up_to_names(a, b),
    decreases a.size(),
{
    let empty = Seq::<Name>::empty();
    match (a, b) {
        (Term::Var(_), Term::Var(_)) => {},
        (Term::Uni(_), Term::Uni(_)) => {},
        (Term::App(f1, a1), Term::App(f2, a2)) => {
            lemma_alpha_eq_gives_same_up_to_names(*f1, *f2, c);
            let c1 = alpha_eq(*f1, *f2, c).1;
            lemma_alpha_eq_counter_grows(*f1, *f2, c);
            lemma_below_is_monotone(*a1, c, c1);
            lemma_below_is_monotone(*a2, c, c1);
            lemma_alpha_eq_gives_same_up_to_names(*a1, *a2, c1);
        },
        (Term::Abs(k1, x1, t1, b1), Term::Abs(k2, x2, t2, b2)) => {
            assert(alpha_eq(a, b, c) == same_binding(x1, *t1, *b1, x2, *t2, *b2, c));
            lemma_alpha_eq_gives_same_up_to_names(*t1, *t2, c);
            let c1 = alpha_eq(*t1, *t2, c).1;
            lemma_alpha_eq_counter_grows(*t1, *t2, c);
            let c2 = c1 + b2.demand();
            let swapped = subst(*b2, x2, Term::Var(x1), c1);
            lemma_below_is_monotone(*b2, c, c1);
            lemma_below_is_monotone(*b2, c, c2);
            lemma_below_is_monotone(*b1, c, c2);
            lemma_subst_below(*b2, x2, Term::Var(x1), c1, c2);
            lemma_alpha_eq_gives_same_up_to_names(*b1, swapped, c2);
            lemma_nameless_with_outermost(*b1, swapped, empty, empty, x1);
            assert(seq![x1] + empty =~= empty.push(x1));
            assert(seq![x2] + empty =~= empty.push(x2));
            assert(around(empty, x1, empty) =~= empty.push(x1));
            assert(around(empty, x2, empty) =~= empty.push(x2));
            if x1 == x2 {
                lemma_idle_subst_keeps_nameless(*b2, x2, Term::Var(x1), c1, empty.push(x1));
            } else {
                lemma_renaming_keeps_nameless(*b2, x2, x1, empty, empty, c1);
            }
            assert(nameless(*b1, empty.push(x1)) == nameless(*b2, empty.push(x2)));
        },
        _ => {},
    }
}

/// The comparison of normal forms is equality up to the names of bound
/// variables: it finds two terms equal exactly when they are the same
/// without those names. The supply's counter bounds the identifiers in both
/// terms, and the supply can hand out the names that the comparison draws.
pub proof fn lemma_alpha_eq_is_same_up_to_names(a: Term, b: Term, c: nat)
    requires
        a.below(c),
        b.below(c),
        c + comparison_demand(b) <= limit(),
    ensures
        alpha_eq(a, b, c).0 <==> same_up_to_names(a, b),
{
    if alpha_eq(a, b, c).0 {
        lemma_alpha_eq_gives_same_up_to_names(a, b, c);
    }
    if same_up_to_names(a, b) {
        lemma_same_up_to_names_is_alpha_eq(a, b, c);
    }
}

/// The comparison of normal forms is symmetric.
pub proof fn lemma_alpha_eq_is_symmetric(a: Term, b: Term, c: nat)
    requires
        a.below(c),
        b.below(c),
        c + comparison_demand(a) <= limit(),
        c + comparison_demand(b) <= limit(),
    ensures
        alpha_eq(a, b, c).0 == alpha_eq(b, a, c).0,
{
    lemma_alpha_eq_is_same_up_to_names(a, b, c);
    lemma_alpha_eq_is_same_up_to_names(b, a, c);
}

/// The comparison of normal forms is transitive.
pub proof fn lemma_alpha_eq_is_transitive(a: Term, b: Term, d: Term, c: nat)
    requires
        a.below(c),
        b.below(c),
        d.below(c),
        c + comparison_demand(d) <= limit(),
        alpha_eq(a, b, c).0,
        alpha_eq(b, d, c).0,
    ensures
        alpha_eq(a, d, c).0,
{
    lemma_alpha_eq_gives_same_up_to_names(a, b, c);
    lemma_alpha_eq_gives_same_up_to_names(b, d, c);
    lemma_same_up_to_names_is_alpha_eq(a, d, c);
}

/// Definitional equality is equality of normal forms up to the names of
/// bound variables: two terms are found equal exactly when both have a normal
/// form and the two normal forms are the same without those names. The
/// supply's counter bounds the identifiers in the terms and in the context,
/// and the supply can hand out the names that the comparison draws.
pub proof fn lemma_equal_is_same_up_to_names(a: Term, b: Term, env: Env, c: nat, fuel: nat)
    requires
        a.below(c),
        b.below(c),
        env_below(env, c),
        ({
            let (na, c1) = normal_form(a, env, c, fuel);
            let (nb, c2) = normal_form(b, env, c1, fuel);
            na is Some && nb is Some ==> c2 + comparison_demand(nb->0) <= limit()
        }),
    ensures
        ({
            let (na, c1) = normal_form(a, env, c, fuel);
            let (nb, c2) = normal_form(b, env, c1, fuel);
            equal(a, b, env, c, fuel).0 <==> na is Some && nb is Some && same_up_to_names(
                na->0,
                nb->0,
            )
        }),
{
    let (na, c1) = normal_form(a, env, c, fuel);
    lemma_normal_form_below(a, env, c, fuel);
    if na is Some {
        lemma_below_is_monotone(b, c, c1);
        lemma_env_below_is_monotone(env, c, c1);
        let (nb, c2) = normal_form(b, env, c1, fuel);
        lemma_normal_form_below(b, env, c1, fuel);
        if nb is Some {
            lemma_below_is_monotone(na->0, c1, c2);
            lemma_alpha_eq_is_same_up_to_names(na->0, nb->0, c2);
        }
    }
}

/// Every term equals itself in the comparison of normal forms.
pub proof fn lemma_alpha_eq_is_reflexive(t: Term, c: nat)
    requires
        t.below(c),
        c + comparison_demand(t) <= limit(),
    ensures
        alpha_eq(t, t, c).0,
{
    lemma_same_up_to_names_is_alpha_eq(t, t, c);
}

/// Substitution of a variable for itself is the identity up to the names of
/// bound variables: the result differs from `t` in those names only, and the
/// comparison of normal forms finds the two equal.
///
/// `c` is the supply's counter at the substitution and `later` the counter
/// at the comparison. One supply serves both: it has generated every
/// generated name in `t`, and it can hand out what the comparison draws.
pub proof fn lemma_subst_of_self(t: Term, v: Name, c: nat, later: nat)
    requires
        t.below(c),
        c + t.demand() <= later,
        later + comparison_demand(t) <= limit(),
    ensures
        same_up_to_names(t, subst(t, v, Term::Var(v), c)),
        alpha_eq(t, subst(t, v, Term::Var(v), c), later).0,
        alpha_eq(subst(t, v, Term::Var(v), c), t, later).0,
{
    let result = subst(t, v, Term::Var(v), c);
    lemma_idle_subst_keeps_nameless(t, v, Term::Var(v), c, Seq::empty());
    lemma_below_is_monotone(t, c, later);
    if v.below(later) {
        lemma_subst_below(t, v, Term::Var(v), c, later);
    } else {
        // `v` does not occur in `t`, so nothing is put in: any variable
        // within the bound may stand for it in the bound of the result.
        lemma_subst_below_without(t, v, Term::Var(v), c, later);
    }
    lemma_renaming_keeps_comparison_demand(t, v, v, c);
    lemma_same_up_to_names_is_alpha_eq(t, result, later);
    lemma_same_up_to_names_is_alpha_eq(result, t, later);
}

/// Substitution is idempotent: once `r`, in which `v` is not free, has been
/// put in place of `v`, a second substitution for `v` changes the names of
/// bound variables only.
pub proof fn lemma_subst_twice(t: Term, v: Name, r: Term, c: nat, again: Term, later: nat)
    requires
        !r.has_free(v),
        t.below(c),
        r.below(c),
        v.below(c),
        c + t.demand() <= later,
    ensures
        same_up_to_names(subst(subst(t, v, r, c), v, again, later), subst(t, v, r, c)),
{
    lemma_subst_removes_variable(t, v, r, c);
    lemma_below_is_monotone(t, c, later);
    lemma_below_is_monotone(r, c, later);
    lemma_subst_below(t, v, r, c, later);
    lemma_idle_subst_keeps_nameless(subst(t, v, r, c), v, again, later, Seq::empty());
}

/// Capture avoidance, where the variable replaced does not occur in the
/// annotation: putting `x` in place of another variable `y` in `λ x : T, x`
/// gives a term that the comparison of normal forms finds equal to the
/// original.
pub proof fn lemma_capture_avoided_keeps_term(x: Name, ty: Term, y: Name, c: nat, later: nat)
    requires
        y != x,
        !ty.has_free(y),
        ty.below(c),
        y.below(c),
        c + 1 + ty.demand() <= later,
        later + comparison_demand(ty) <= limit(),
    ensures
        alpha_eq(
            Term::Abs(Binder::Lambda, x, Box::new(ty), Box::new(Term::Var(x))),
            subst(
                Term::Abs(Binder::Lambda, x, Box::new(ty), Box::new(Term::Var(x))),
                y,
                Term::Var(x),
                c,
            ),
            later,
        ).0,
{
    let ty2 = subst(ty, y, Term::Var(x), c + 1);
    lemma_capture_avoided(x, ty, y, c, later);
    lemma_below_is_monotone(ty, c, c + 1);
    lemma_idle_subst_keeps_nameless(ty, y, Term::Var(x), c + 1, Seq::empty());
    lemma_below_is_monotone(ty, c, later);
    if x.below(later) {
        lemma_subst_below(ty, y, Term::Var(x), c + 1, later);
    } else {
        lemma_subst_keeps_below_where_absent(ty, y, Term::Var(x), c + 1, later);
    }
    lemma_renaming_keeps_comparison_demand(ty, y, x, c + 1);
    lemma_same_up_to_names_is_alpha_eq(ty, ty2, later);
}

/// Normalization is idempotent up to the names of bound variables: where
/// `t` has a normal form, the normal form of that normal form is found equal
/// to it by the comparison of normal forms. One supply serves throughout: it
/// has generated every generated name in `t` and in `env`, and it can hand
/// out the names that the comparison draws.
pub proof fn lemma_normalize_idempotent_up_to_names(
    t: Term,
    env: Env,
    c: nat,
    fuel: nat,
    fuel_again: nat,
)
    requires
        t.below(c),
        env_below(env, c),
        normal_form(t, env, c, fuel).0 is Some,
        normal_form(t, env, c, fuel).1 + comparison_demand(normal_form(t, env, c, fuel).0->0)
            <= limit(),
    ensures
        ({
            let (once, c1) = normal_form(t, env, c, fuel);
            let (twice, c2) = normal_form(once->0, env, c1, fuel_again);
            &&& twice == once
            &&& c2 == c1
            &&& alpha_eq(twice->0, once->0, c2).0
        }),
{
    let (once, c1) = normal_form(t, env, c, fuel);
    lemma_normalize_idempotent(t, env, c, fuel, c1, fuel_again);
    lemma_normal_form_below(t, env, c, fuel);
    lemma_alpha_eq_is_reflexive(once->0, c1);
}

} // verus!
