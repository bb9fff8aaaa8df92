//! Substitution avoids capture: what it computes, stated on nameless terms.
use vstd::prelude::*;
use crate::model::{Name, Term};
use crate::fresh::{lemma_above_is_not_free, lemma_below_is_monotone, lemma_subst_below};
use crate::nameless::{
    around, index_of, lemma_index_of_known, lemma_renaming_keeps_nameless, nameless, Nameless,
};
use crate::subst::{lemma_subst_abs, subst};

verus! {

impl Nameless {
    /// The term under `by` more binders: the bound variables that point
    /// beyond the `inside` innermost binders point `by` binders further.
    pub open spec fn lifted(self, by: nat, inside: nat) -> Nameless
        decreases self,
    {
        match self {
            Nameless::Bound(i) => if i >= inside {
                Nameless::Bound(i + by)
            } else {
                self
            },
            Nameless::Free(_) => self,
            Nameless::Uni(_) => self,
            Nameless::App(f, a) => Nameless::App(
                Box::new(f.lifted(by, inside)),
                Box::new(a.lifted(by, inside)),
            ),
            Nameless::Abs(k, ty, b) => Nameless::Abs(
                k,
                Box::new(ty.lifted(by, inside)),
                Box::new(b.lifted(by, inside + 1)),
            ),
        }
    }

    /// The term with `r` in place of the free variable `v`, where the term
    /// stands under `depth` binders that `r` does not stand under.
    pub open spec fn with(self, v: Name, r: Nameless, depth: nat) -> Nameless
        decreases self,
    {
        match self {
            Nameless::Bound(_) => self,
            Nameless::Free(u) => if u == v {
                r.lifted(depth, 0)
            } else {
                self
            },
            Nameless::Uni(_) => self,
            Nameless::App(f, a) => Nameless::App(
                Box::new(f.with(v, r, depth)),
                Box::new(a.with(v, r, depth)),
            ),
            Nameless::Abs(k, ty, b) => Nameless::Abs(
                k,
                Box::new(ty.with(v, r, depth)),
                Box::new(b.with(v, r, depth + 1)),
            ),
        }
    }
}

/// The place of a name in two sequences, one after the other.
proof fn lemma_index_of_concat(a: Seq<Name>, b: Seq<Name>, u: Name)
    ensures
        index_of(a + b, u) == match index_of(a, u) {
            Some(i) => Some(i),
            None => match index_of(b, u) {
                Some(i) => Some(a.len() + i),
                None => None,
            },
        },
    decreases a.len(),
{
    if a.len() == 0 {
        assert(a + b =~= b);
    } else {
        assert((a + b).drop_first() =~= a.drop_first() + b);
        lemma_index_of_concat(a.drop_first(), b, u);
    }
}

/// No name of `inner` is free in `r` once the names of `pre` are bound.
pub open spec fn untouched(r: Term, pre: Seq<Name>, inner: Seq<Name>) -> bool {
    forall|u: Name| r.has_free(u) && !pre.contains(u) ==> !inner.contains(u)
}

/// What a sequence with one more name in front contains.
proof fn lemma_cons_contains(y: Name, s: Seq<Name>, u: Name)
    ensures
        (seq![y] + s).contains(u) <==> (u == y || s.contains(u)),
{
    let t = seq![y] + s;
    if s.contains(u) {
        let i = choose|i: int| 0 <= i < s.len() && s[i] == u;
        assert(t[i + 1] == u);
    }
    if u == y {
        assert(t[0] == u);
    }
    if t.contains(u) {
        let i = choose|i: int| 0 <= i < t.len() && t[i] == u;
        if i > 0 {
            assert(s[i - 1] == u);
        }
    }
}

/// A term under more binders, none of which binds a variable of it, is the
/// term lifted over them.
pub proof fn lemma_nameless_under_more_binders(
    r: Term,
    pre: Seq<Name>,
    inner: Seq<Name>,
    names: Seq<Name>,
)
    requires
        untouched(r, pre, inner),
    ensures
        nameless(r, pre + inner + names) == nameless(r, pre + names).lifted(inner.len(), pre.len()),
    decreases r,
{
    match r {
        Term::Var(u) => {
            assert(r.has_free(u));
            lemma_index_of_concat(pre, inner + names, u);
            lemma_index_of_concat(pre, names, u);
            lemma_index_of_concat(inner, names, u);
            lemma_index_of_known(pre, u);
            lemma_index_of_known(inner, u);
            assert(pre + inner + names =~= pre + (inner + names));
        },
        Term::Uni(_) => {},
        Term::App(f, a) => {
            lemma_nameless_under_more_binders(*f, pre, inner, names);
            lemma_nameless_under_more_binders(*a, pre, inner, names);
        },
        Term::Abs(_, y, ty, b) => {
            lemma_nameless_under_more_binders(*ty, pre, inner, names);
            let deeper = seq![y] + pre;
            assert forall|u: Name| b.has_free(u) && !deeper.contains(u) implies !inner.contains(
                u,
            ) by {
                lemma_cons_contains(y, pre, u);
                assert(r.has_free(u));
            }
            lemma_nameless_under_more_binders(*b, deeper, inner, names);
            assert(seq![y] + (pre + inner + names) =~= deeper + inner + names);
            assert(seq![y] + (pre + names) =~= deeper + names);
        },
    }
}

/// What substitution computes, under binders. `inner` are the binders that
/// the substitution has already renamed on its way down, `names` those
/// around the whole term.
proof fn lemma_subst_under_binders(
    t: Term,
    v: Name,
    r: Term,
    c: nat,
    inner: Seq<Name>,
    names: Seq<Name>,
)
    requires
        t.below(c),
        r.below(c),
        v.below(c),
        !inner.contains(v),
        !names.contains(v),
        untouched(r, Seq::empty(), inner),
    ensures
        nameless(subst(t, v, r, c), inner + names) == nameless(t, inner + names).with(
            v,
            nameless(r, names),
            inner.len(),
        ),
    decreases t.size(),
{
    let empty = Seq::<Name>::empty();
    match t {
        Term::Var(u) => {
            if u == v {
                lemma_index_of_concat(inner, names, v);
                lemma_index_of_known(inner, v);
                lemma_index_of_known(names, v);
                lemma_nameless_under_more_binders(r, empty, inner, names);
                assert(empty + inner + names =~= inner + names);
                assert(empty + names =~= names);
            }
        },
        Term::Uni(_) => {},
        Term::App(f, a) => {
            lemma_subst_under_binders(*f, v, r, c, inner, names);
            let c1 = c + f.demand();
            lemma_below_is_monotone(*a, c, c1);
            lemma_below_is_monotone(r, c, c1);
            lemma_subst_under_binders(*a, v, r, c1, inner, names);
        },
        Term::Abs(k, y, ty, b) => {
            lemma_subst_abs(t, v, r, c);
            let y2 = y.refreshed(c);
            let c1 = c + 1 + ty.demand();
            let c2 = c1 + b.demand();
            let renamed = subst(*b, y, Term::Var(y2), c1);
            // The annotation.
            lemma_below_is_monotone(*ty, c, c + 1);
            lemma_below_is_monotone(r, c, c + 1);
            lemma_subst_under_binders(*ty, v, r, c + 1, inner, names);
            // The body under the renamed binder.
            let deeper = seq![y2] + inner;
            lemma_below_is_monotone(*b, c, c2);
            lemma_below_is_monotone(r, c, c2);
            lemma_subst_below(*b, y, Term::Var(y2), c1, c2);
            lemma_cons_contains(y2, inner, v);
            assert forall|u: Name| r.has_free(u) && !empty.contains(u) implies !deeper.contains(
                u,
            ) by {
                lemma_cons_contains(y2, inner, u);
                lemma_above_is_not_free(r, c, y2);
            }
            lemma_subst_under_binders(renamed, v, r, c2, deeper, names);
            // The renaming of the binder.
            lemma_below_is_monotone(*b, c, c1);
            lemma_above_is_not_free(*b, c, y2);
            lemma_renaming_keeps_nameless(*b, y, y2, empty, inner + names, c1);
            assert(around(empty, y2, inner + names) =~= deeper + names);
            assert(around(empty, y, inner + names) =~= seq![y] + (inner + names));
            assert(seq![y2] + (inner + names) =~= deeper + names);
        },
    }
}

/// Substitution avoids capture. Without the names of bound variables, the
/// result of putting `r` in place of `v` in `t` is `t` with `r` in place of
/// each free `v`, and the variables of `r` mean there what they mean outside:
/// no binder of `t` binds them.
///
/// `names` are the variables bound around `t`, `v` not among them. `c` is the
/// supply's counter, which has generated every generated name in sight.
pub proof fn lemma_subst_avoids_capture(t: Term, v: Name, r: Term, c: nat, names: Seq<Name>)
    requires
        t.below(c),
        r.below(c),
        v.below(c),
        !names.contains(v),
    ensures
        nameless(subst(t, v, r, c), names) == nameless(t, names).with(v, nameless(r, names), 0),
{
    let empty = Seq::<Name>::empty();
    lemma_subst_under_binders(t, v, r, c, empty, names);
    assert(empty + names =~= names);
}

} // verus!
