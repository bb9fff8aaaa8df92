//! The context of axioms and theorems.
use vstd::prelude::*;
use crate::ast::{Expr, Variable};
use crate::equality::equal;
use crate::error::{Error, Fault};
use crate::model::{Binding, Env, Name, Term};
use crate::normalize::term_of;
use crate::subst::SubstTracker;
use crate::typecheck::{infer, infer_expr};

verus! {

/// What the context holds under a name.
enum Entry {
    Axiom { typ: Expr },
    Proved { typ: Expr, val: Expr },
    Unproved { typ: Expr },
}

impl Entry {
    spec fn binding(&self) -> Binding {
        match self {
            Entry::Axiom { typ } => Binding::Axiom { typ: typ@ },
            Entry::Proved { typ, val } => Binding::Proved { typ: typ@, val: val@ },
            Entry::Unproved { typ } => Binding::Unproved { typ: typ@ },
        }
    }

    fn duplicate(&self) -> (r: Self)
        ensures
            r == *self,
    {
        match self {
            Entry::Axiom { typ } => Entry::Axiom { typ: typ.clone() },
            Entry::Proved { typ, val } => Entry::Proved { typ: typ.clone(), val: val.clone() },
            Entry::Unproved { typ } => Entry::Unproved { typ: typ.clone() },
        }
    }
}

/// A name with what is recorded under it.
struct Slot {
    name: Variable,
    entry: Entry,
}

/// The map that a sequence of slots stands for: a later slot overrides an
/// earlier one of the same name.
spec fn env_of(slots: Seq<Slot>) -> Env
    decreases slots.len(),
{
    if slots.len() == 0 {
        Map::empty()
    } else {
        env_of(slots.drop_last()).insert(slots.last().name@, slots.last().entry.binding())
    }
}

/// The last slot of a name decides what the map holds under it.
proof fn lemma_env_of_found(slots: Seq<Slot>, i: int, n: Name)
    requires
        0 <= i < slots.len(),
        slots[i].name@ == n,
        forall|j: int| i < j < slots.len() ==> slots[j].name@ != n,
    ensures
        env_of(slots).contains_key(n),
        env_of(slots)[n] == slots[i].entry.binding(),
    decreases slots.len(),
{
    if i < slots.len() - 1 {
        lemma_env_of_found(slots.drop_last(), i, n);
    }
}

/// A name that no slot carries is not in the map.
proof fn lemma_env_of_absent(slots: Seq<Slot>, n: Name)
    requires
        forall|j: int| 0 <= j < slots.len() ==> slots[j].name@ != n,
    ensures
        !env_of(slots).contains_key(n),
    decreases slots.len(),
{
    if slots.len() > 0 {
        lemma_env_of_absent(slots.drop_last(), n);
    }
}

/// Replacing the entry in the last slot of a name is an insertion under that
/// name.
proof fn lemma_env_of_update(slots: Seq<Slot>, i: int, slot: Slot)
    requires
        0 <= i < slots.len(),
        slot.name@ == slots[i].name@,
        forall|j: int| i < j < slots.len() ==> slots[j].name@ != slot.name@,
    ensures
        env_of(slots.update(i, slot)) == env_of(slots).insert(slot.name@, slot.entry.binding()),
    decreases slots.len(),
{
    let updated = slots.update(i, slot);
    if i < slots.len() - 1 {
        lemma_env_of_update(slots.drop_last(), i, slot);
        assert(updated.drop_last() == slots.drop_last().update(i, slot));
        assert(updated.last() == slots.last());
        assert(env_of(updated) =~= env_of(slots).insert(slot.name@, slot.entry.binding()));
    } else {
        assert(updated.drop_last() == slots.drop_last());
        assert(env_of(updated) =~= env_of(slots).insert(slot.name@, slot.entry.binding()));
    }
}

/// Why `env` refuses the statement of `v` with type `typ`, if it does, paired
/// with the supply's counter after the check, which starts with the counter
/// at `c`. A name can be stated once, and its type has to have a type.
pub open spec fn statement_fault(env: Env, v: Name, typ: Term, c: nat, fuel: nat) -> (
    Option<Fault>,
    nat,
) {
    if env.contains_key(v) {
        (Some(Fault::AlreadyExists), c)
    } else {
        let (ty, c1) = infer(typ, env, c, fuel);
        if ty is None {
            (Some(Fault::ExprDoesNotTypeCheck), c1)
        } else {
            (None, c1)
        }
    }
}

/// Why `env` refuses `proof` as a proof of `v`, if it does, paired with the
/// supply's counter after the check, which starts with the counter at `c`.
///
/// An axiom takes no proof, and neither does a name that `env` does not hold.
/// The proof is checked under `env` without `v`, so that it cannot rest on
/// the theorem that it proves: there it has to have a type, and that type has
/// to be definitionally equal to the one stated for `v`.
pub open spec fn proof_fault(env: Env, v: Name, proof: Term, c: nat, fuel: nat) -> (
    Option<Fault>,
    nat,
) {
    if !env.contains_key(v) {
        (Some(Fault::VariableNotFound), c)
    } else if env[v] is Axiom {
        (Some(Fault::CannotProveAxiom), c)
    } else {
        let scope = env.remove(v);
        let (ty, c1) = infer(proof, scope, c, fuel);
        if ty is None {
            (Some(Fault::ExprDoesNotTypeCheck), c1)
        } else {
            let (same, c2) = equal(env[v].typ(), ty->0, scope, c1, fuel);
            if same {
                (None, c2)
            } else {
                (Some(Fault::TypesDoNotMatch(env[v].typ(), ty->0)), c2)
            }
        }
    }
}

/// The proof that `env` holds for `v`, if it holds one.
pub open spec fn proof_of(env: Env, v: Name) -> Option<Term> {
    if env.contains_key(v) {
        match env[v] {
            Binding::Proved { val, .. } => Some(val),
            _ => None,
        }
    } else {
        None
    }
}

/// `env` after `proof` has been accepted as the proof of `v`.
pub open spec fn with_proof(env: Env, v: Name, proof: Term) -> Env {
    env.insert(v, Binding::Proved { typ: env[v].typ(), val: proof })
}

/// A statement is accepted exactly when its name is new and its type has a
/// type.
pub proof fn lemma_statement_accepted_iff_typed(env: Env, v: Name, typ: Term, c: nat, fuel: nat)
    ensures
        statement_fault(env, v, typ, c, fuel).0 is None <==> !env.contains_key(v) && infer(
            typ,
            env,
            c,
            fuel,
        ).0 is Some,
{
}

/// A proof is accepted exactly when it has a type and that type is
/// definitionally equal to the type stated for the theorem.
pub proof fn lemma_proof_accepted_iff_types_equal(env: Env, v: Name, proof: Term, c: nat, fuel: nat)
    requires
        env.contains_key(v),
        !(env[v] is Axiom),
    ensures
        proof_fault(env, v, proof, c, fuel).0 is None <==> ({
            let scope = env.remove(v);
            let (ty, c1) = infer(proof, scope, c, fuel);
            ty is Some && equal(env[v].typ(), ty->0, scope, c1, fuel).0
        }),
{
}

/// Axioms are immovable: once `v` has been accepted as an axiom, every proof
/// given for `v` is refused, because `v` is an axiom, and no name is drawn.
pub proof fn lemma_axiom_takes_no_proof(
    env: Env,
    v: Name,
    typ: Term,
    c: nat,
    fuel: nat,
    proof: Term,
    c_later: nat,
    fuel_later: nat,
)
    requires
        statement_fault(env, v, typ, c, fuel).0 is None,
    ensures
        proof_fault(env.insert(v, Binding::Axiom { typ }), v, proof, c_later, fuel_later) == (
            Some(Fault::CannotProveAxiom),
            c_later,
        ),
{
}

/// The `Γ` in `Γ |- x: A`: a map from names to axioms and theorems.
pub struct Context {
    slots: Vec<Slot>,
}

impl View for Context {
    type V = Env;

    closed spec fn view(&self) -> Env {
        env_of(self.slots@)
    }
}

impl Clone for Context {
    fn clone(&self) -> (r: Self)
        ensures
            r@ == self@,
    {
        let mut slots: Vec<Slot> = Vec::new();
        let mut i: usize = 0;
        while i < self.slots.len()
            invariant
                i <= self.slots.len(),
                slots@ == self.slots@.take(i as int),
            decreases self.slots.len() - i,
        {
            let slot = &self.slots[i];
            slots.push(Slot { name: slot.name.clone(), entry: slot.entry.duplicate() });
            assert(slots@ == self.slots@.take(i + 1));
            i += 1;
        }
        assert(slots@ == self.slots@);
        Context { slots }
    }
}

impl Default for Context {
    fn default() -> (r: Self)
        ensures
            r@ == Map::<Name, Binding>::empty(),
    {
        Self::new()
    }
}

impl Context {
    /// The empty context.
    pub fn new() -> (r: Self)
        ensures
            r@ == Map::<Name, Binding>::empty(),
    {
        Context { slots: Vec::new() }
    }

    /// The index of the slot that decides what the context holds under `v`.
    fn position(&self, v: &Variable) -> (r: Option<usize>)
        ensures
            r is Some <==> self@.contains_key(v@),
            r matches Some(i) ==> {
                &&& i < self.slots.len()
                &&& self.slots[i as int].name@ == v@
                &&& forall|j: int| i < j < self.slots.len() ==> self.slots[j].name@ != v@
                &&& self@[v@] == self.slots[i as int].entry.binding()
            },
    {
        let mut i: usize = self.slots.len();
        while i > 0
            invariant
                i <= self.slots.len(),
                forall|j: int| i <= j < self.slots.len() ==> self.slots[j].name@ != v@,
            decreases i,
        {
            i -= 1;
            if self.slots[i].name == *v {
                proof {
                    lemma_env_of_found(self.slots@, i as int, v@);
                }
                return Some(i);
            }
        }
        proof {
            lemma_env_of_absent(self.slots@, v@);
        }
        None
    }

    /// Whether there is an axiom or a theorem named `v`.
    pub fn contains(&self, v: &Variable) -> (r: bool)
        ensures
            r == self@.contains_key(v@),
    {
        self.position(v).is_some()
    }

    /// Whether `v` names an axiom.
    pub fn is_axiom(&self, v: &Variable) -> (r: bool)
        ensures
            r == (self@.contains_key(v@) && self@[v@] is Axiom),
    {
        match self.position(v) {
            Some(i) => match &self.slots[i].entry {
                Entry::Axiom { .. } => true,
                _ => false,
            },
            None => false,
        }
    }

    /// Whether `v` names a theorem that has a proof.
    pub fn is_proven_theory(&self, v: &Variable) -> (r: bool)
        ensures
            r == (self@.contains_key(v@) && self@[v@] is Proved),
    {
        match self.position(v) {
            Some(i) => match &self.slots[i].entry {
                Entry::Proved { .. } => true,
                _ => false,
            },
            None => false,
        }
    }

    /// Whether `v` names a theorem that has no proof yet.
    pub fn is_unproven_theory(&self, v: &Variable) -> (r: bool)
        ensures
            r == (self@.contains_key(v@) && self@[v@] is Unproved),
    {
        match self.position(v) {
            Some(i) => match &self.slots[i].entry {
                Entry::Unproved { .. } => true,
                _ => false,
            },
            None => false,
        }
    }

    /// The proof stored for `v`, where `v` names a proved theorem.
    pub fn lookup_value(&self, v: &Variable) -> (r: Option<&Expr>)
        ensures
            r is Some <==> (self@.contains_key(v@) && self@[v@] is Proved),
            r matches Some(e) ==> e@ == self@[v@]->Proved_val,
    {
        match self.position(v) {
            Some(i) => match &self.slots[i].entry {
                Entry::Proved { val, .. } => Some(val),
                _ => None,
            },
            None => None,
        }
    }

    /// The type recorded for `v`, whatever `v` names.
    pub fn lookup_type(&self, v: &Variable) -> (r: Option<&Expr>)
        ensures
            r is Some <==> self@.contains_key(v@),
            r matches Some(e) ==> e@ == self@[v@].typ(),
    {
        match self.position(v) {
            Some(i) => match &self.slots[i].entry {
                Entry::Axiom { typ } => Some(typ),
                Entry::Proved { typ, .. } => Some(typ),
                Entry::Unproved { typ } => Some(typ),
            },
            None => None,
        }
    }

    /// A copy of the context that does not hold `v`.
    fn without(&self, v: &Variable) -> (r: Self)
        ensures
            r@ == self@.remove(v@),
    {
        let mut slots: Vec<Slot> = Vec::new();
        let mut i: usize = 0;
        assert(self.slots@.take(0) == Seq::<Slot>::empty());
        assert(env_of(slots@) =~= env_of(self.slots@.take(0)).remove(v@));
        while i < self.slots.len()
            invariant
                i <= self.slots.len(),
                env_of(slots@) == env_of(self.slots@.take(i as int)).remove(v@),
            decreases self.slots.len() - i,
        {
            let slot = &self.slots[i];
            let ghost kept = slots@;
            assert(self.slots@.take(i + 1).drop_last() == self.slots@.take(i as int));
            if !(slot.name == *v) {
                slots.push(Slot { name: slot.name.clone(), entry: slot.entry.duplicate() });
                assert(slots@.drop_last() == kept);
            }
            assert(env_of(slots@) =~= env_of(self.slots@.take(i + 1)).remove(v@));
            i += 1;
        }
        assert(self.slots@.take(i as int) == self.slots@);
        Context { slots }
    }

    /// Records `expr` as the proof of `v`, without any check, and returns the
    /// proof that `v` had before, if it had one.
    fn extend_type_unchecked(&mut self, v: &Variable, expr: Expr) -> (r: Option<Expr>)
        requires
            old(self)@.contains_key(v@),
            !(old(self)@[v@] is Axiom),
        ensures
            term_of(r) == proof_of(old(self)@, v@),
            final(self)@ == with_proof(old(self)@, v@, expr@),
    {
        let i = match self.position(v) {
            Some(i) => i,
            None => {
                return None;
            },
        };
        let ghost before = self.slots@;
        let (typ, previous) = match &self.slots[i].entry {
            Entry::Proved { typ, val } => (typ.clone(), Some(val.clone())),
            Entry::Unproved { typ } | Entry::Axiom { typ } => (typ.clone(), None),
        };
        let slot = Slot { name: self.slots[i].name.clone(), entry: Entry::Proved { typ, val: expr } };
        proof {
            lemma_env_of_update(before, i as int, slot);
        }
        self.slots.set(i, slot);
        previous
    }

    /// Takes `expr` as the proof of the theorem `v` and returns the proof
    /// that `v` had before, if it had one. The context changes only where
    /// the proof is accepted; [`proof_fault`] says when it is refused.
    pub fn extend_type(&mut self, v: &Variable, expr: Expr, trk: &mut SubstTracker) -> (r: Result<
        Option<Expr>,
        Error,
    >)
        ensures
            ({
                let (fault, c) = proof_fault(
                    old(self)@,
                    v@,
                    expr@,
                    old(trk).level(),
                    old(trk).fuel(),
                );
                &&& final(trk).level() == c
                &&& match r {
                    Ok(previous) => {
                        &&& fault is None
                        &&& term_of(previous) == proof_of(old(self)@, v@)
                        &&& final(self)@ == with_proof(old(self)@, v@, expr@)
                    },
                    Err(e) => {
                        &&& fault == Some(e@)
                        &&& e matches Error::ExprDoesNotTypeCheck(cause) ==> cause is None
                        &&& final(self)@ == old(self)@
                    },
                }
            }),
            final(trk).fuel() == old(trk).fuel(),
    {
        if self.is_axiom(v) {
            return Err(Error::CannotProveAxiom);
        }
        let typ = match self.lookup_type(v) {
            Some(typ) => typ.clone(),
            None => {
                return Err(Error::VariableNotFound);
            },
        };
        let scope = self.without(v);
        let typ2 = match infer_expr(&expr, scope.clone(), trk) {
            Some(typ2) => typ2,
            None => {
                return Err(Error::ExprDoesNotTypeCheck(None));
            },
        };
        if scope.types_equal(trk, &typ, &typ2) {
            Ok(self.extend_type_unchecked(v, expr))
        } else {
            Err(Error::TypesDoNotMatch(typ, typ2))
        }
    }

    /// States the theorem `v` of type `typ`, without a proof. The context
    /// changes only where the statement is accepted; [`statement_fault`] says
    /// when it is refused.
    pub fn add_theorem(&mut self, v: Variable, typ: Expr, trk: &mut SubstTracker) -> (r: Result<
        (),
        Error,
    >)
        ensures
            ({
                let (fault, c) = statement_fault(
                    old(self)@,
                    v@,
                    typ@,
                    old(trk).level(),
                    old(trk).fuel(),
                );
                &&& final(trk).level() == c
                &&& match r {
                    Ok(_) => {
                        &&& fault is None
                        &&& final(self)@ == old(self)@.insert(v@, Binding::Unproved { typ: typ@ })
                    },
                    Err(e) => {
                        &&& fault == Some(e@)
                        &&& e matches Error::ExprDoesNotTypeCheck(cause) ==> cause is None
                        &&& final(self)@ == old(self)@
                    },
                }
            }),
            final(trk).fuel() == old(trk).fuel(),
    {
        if self.contains(&v) {
            return Err(Error::AlreadyExists);
        }
        if infer_expr(&typ, self.clone(), trk).is_none() {
            return Err(Error::ExprDoesNotTypeCheck(None));
        }
        let ghost before = self.slots@;
        self.slots.push(Slot { name: v, entry: Entry::Unproved { typ } });
        assert(self.slots@.drop_last() == before);
        Ok(())
    }

    /// States the axiom `v` of type `typ`. The context changes only where
    /// the statement is accepted; [`statement_fault`] says when it is
    /// refused.
    pub fn add_axiom(&mut self, v: Variable, typ: Expr, trk: &mut SubstTracker) -> (r: Result<
        (),
        Error,
    >)
        ensures
            ({
                let (fault, c) = statement_fault(
                    old(self)@,
                    v@,
                    typ@,
                    old(trk).level(),
                    old(trk).fuel(),
                );
                &&& final(trk).level() == c
                &&& match r {
                    Ok(_) => {
                        &&& fault is None
                        &&& final(self)@ == old(self)@.insert(v@, Binding::Axiom { typ: typ@ })
                    },
                    Err(e) => {
                        &&& fault == Some(e@)
                        &&& e matches Error::ExprDoesNotTypeCheck(cause) ==> cause is None
                        &&& final(self)@ == old(self)@
                    },
                }
            }),
            final(trk).fuel() == old(trk).fuel(),
    {
        if self.contains(&v) {
            return Err(Error::AlreadyExists);
        }
        if infer_expr(&typ, self.clone(), trk).is_none() {
            return Err(Error::ExprDoesNotTypeCheck(None));
        }
        let ghost before = self.slots@;
        self.slots.push(Slot { name: v, entry: Entry::Axiom { typ } });
        assert(self.slots@.drop_last() == before);
        Ok(())
    }

    /// A copy of the context in which `v` is an unproved theorem of type
    /// `typ`, whatever `v` was before. The type is not checked.
    pub(crate) fn with_type(&self, v: Variable, typ: Expr) -> (r: Self)
        ensures
            r@ == self@.insert(v@, Binding::Unproved { typ: typ@ }),
    {
        let mut ctx = self.clone();
        let ghost before = ctx.slots@;
        ctx.slots.push(Slot { name: v, entry: Entry::Unproved { typ } });
        assert(ctx.slots@.drop_last() == before);
        ctx
    }
}

} // verus!
