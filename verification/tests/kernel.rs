use sinepia_lambda::ast::{
    Abstraction, Application, Axiom, Expr, GenSym, Proof, Statement, StrVar, Theorem, Universe,
    Variable,
};
use sinepia_lambda::equality::{normalized_abs_equal, normalized_types_equal};
use sinepia_lambda::normalize::normalize_expr;
use sinepia_lambda::session::{process_axiom, process_proven, process_statement, process_unproven};
use sinepia_lambda::subst::{try_subst, DEFAULT_FUEL};
use sinepia_lambda::typecheck::{infer_pi, infer_universe};
use sinepia_lambda::{Context, Error, Normalize, Subst, SubstTracker, TypeInfer};
use std::marker::PhantomData;

fn name(s: &str) -> Variable {
    Variable::Str(StrVar { name: s.to_string() })
}

fn gen(s: &str, id: u128) -> Variable {
    Variable::GenSym(GenSym { name: s.to_string(), id })
}

fn var(s: &str) -> Expr {
    Expr::Var(name(s))
}

fn gvar(s: &str, id: u128) -> Expr {
    Expr::Var(gen(s, id))
}

fn uni(level: u128) -> Expr {
    Expr::Uni(Universe { level })
}

fn app(f: Expr, a: Expr) -> Expr {
    Expr::App(Application { e1: Box::new(f), e2: Box::new(a) })
}

fn lam_v(x: Variable, t: Expr, e: Expr) -> Expr {
    Expr::Lambda(Abstraction { x, t: Box::new(t), e: Box::new(e), _ty: PhantomData })
}

fn pi_v(x: Variable, t: Expr, e: Expr) -> Expr {
    Expr::Pi(Abstraction { x, t: Box::new(t), e: Box::new(e), _ty: PhantomData })
}

fn lam(x: &str, t: Expr, e: Expr) -> Expr {
    lam_v(name(x), t, e)
}

fn pi(x: &str, t: Expr, e: Expr) -> Expr {
    pi_v(name(x), t, e)
}

fn show(e: &Expr) -> String {
    format!("{:?}", e)
}

fn show_opt(e: &Option<Expr>) -> String {
    format!("{:?}", e)
}

fn level(trk: &SubstTracker) -> u128 {
    assert_eq!(trk.drawn(), u128::MAX - trk.remaining());
    trk.drawn()
}

/// `Π A : U0, Π x : A, A`
fn id_type() -> Expr {
    pi("A", uni(0), pi("x", var("A"), var("A")))
}

/// `λ A : U0, λ x : A, x`
fn id_proof() -> Expr {
    lam("A", uni(0), lam("x", var("A"), var("x")))
}

fn nat_context(trk: &mut SubstTracker) -> Context {
    let mut ctx = Context::new();
    assert!(ctx.add_axiom(name("Nat"), uni(0), trk).is_ok());
    assert!(ctx.add_axiom(name("z"), var("Nat"), trk).is_ok());
    ctx
}

#[test]
fn variables_compare_by_kind_text_and_identifier() {
    assert!(name("x") == name("x"));
    assert!(name("x") != name("y"));
    assert!(gen("x", 1) == gen("x", 1));
    assert!(gen("x", 1) != gen("x", 2));
    assert!(gen("x", 1) != gen("y", 1));
    assert!(name("x") != gen("x", 0));
    assert!(gen("x", 0) != name("x"));
}

#[test]
fn clone_copies_the_tree() {
    let e = app(id_proof(), pi_v(gen("q", 7), uni(3), var("q")));
    assert_eq!(show(&e.clone()), show(&e));
    assert_eq!(show(&e.duplicate()), show(&e));
    let v = gen("q", 7);
    assert!(v.clone() == v);
}

#[test]
fn new_supply_starts_at_zero() {
    let trk = SubstTracker::new();
    assert_eq!(level(&trk), 0);
    assert_eq!(trk.remaining(), u128::MAX);
    assert_eq!(trk.fuel_limit(), DEFAULT_FUEL);
    let trk = SubstTracker::default();
    assert_eq!(level(&trk), 0);
    assert_eq!(trk.fuel_limit(), 256);
    let trk = SubstTracker::with_fuel(3);
    assert_eq!(level(&trk), 0);
    assert_eq!(trk.fuel_limit(), 3);
}

#[test]
fn refresh_counts_up_and_keeps_the_text() {
    let mut trk = SubstTracker::new();
    let a = trk.refresh_var(&name("x"));
    assert!(a == gen("x", 1));
    let b = trk.refresh_var(&a);
    assert!(b == gen("x", 2));
    let c = trk.refresh_var(&name("y"));
    assert!(c == gen("y", 3));
    assert_eq!(level(&trk), 3);
}

#[test]
fn subst_replaces_a_free_variable() {
    let mut trk = SubstTracker::new();
    let mut e = var("x");
    e.subst(&name("x"), &uni(4), &mut trk);
    assert_eq!(show(&e), show(&uni(4)));
    let mut e = var("y");
    e.subst(&name("x"), &uni(4), &mut trk);
    assert_eq!(show(&e), show(&var("y")));
    let mut e = uni(1);
    e.subst(&name("x"), &uni(4), &mut trk);
    assert_eq!(show(&e), show(&uni(1)));
    let mut e = app(var("x"), app(var("y"), var("x")));
    e.subst(&name("x"), &var("z"), &mut trk);
    assert_eq!(show(&e), show(&app(var("z"), app(var("y"), var("z")))));
    assert_eq!(level(&trk), 0);
}

#[test]
fn subst_renames_every_binder() {
    let mut trk = SubstTracker::new();
    let mut e = lam("x", var("y"), app(var("x"), var("y")));
    e.subst(&name("y"), &var("z"), &mut trk);
    let expected = lam_v(gen("x", 1), var("z"), app(gvar("x", 1), var("z")));
    assert_eq!(show(&e), show(&expected));
    assert_eq!(level(&trk), 1);
}

#[test]
fn subst_numbers_nested_binders_in_order() {
    let mut trk = SubstTracker::new();
    // λ a : U0, Π b : a, b a
    let mut e = lam("a", uni(0), pi("b", var("a"), app(var("b"), var("a"))));
    assert_eq!(e.demand(), Some(3));
    e.subst(&name("q"), &uni(9), &mut trk);
    // The outer binder draws 1, the walk that renames its body draws 2 for
    // the inner binder, and the walk that substitutes draws 3.
    let expected = lam_v(
        gen("a", 1),
        uni(0),
        pi_v(gen("b", 3), gvar("a", 1), app(gvar("b", 3), gvar("a", 1))),
    );
    assert_eq!(show(&e), show(&expected));
    assert_eq!(level(&trk), 3);
}

#[test]
fn subst_does_not_capture() {
    let mut trk = SubstTracker::new();
    // (λ x : U0, y)[y := x] keeps the new `x` free.
    let mut e = lam("x", uni(0), var("y"));
    e.subst(&name("y"), &var("x"), &mut trk);
    let expected = lam_v(gen("x", 1), uni(0), var("x"));
    assert_eq!(show(&e), show(&expected));
}

#[test]
fn subst_leaves_a_shadowed_variable() {
    let mut trk = SubstTracker::new();
    let mut e = lam("x", var("x"), var("x"));
    e.subst(&name("x"), &uni(5), &mut trk);
    let expected = lam_v(gen("x", 1), uni(5), gvar("x", 1));
    assert_eq!(show(&e), show(&expected));
}

#[test]
fn subst_of_self_is_alpha_equivalent() {
    let mut trk = SubstTracker::new();
    let original = app(id_proof(), lam("y", var("v"), app(var("y"), var("v"))));
    let mut e = original.clone();
    e.subst(&name("v"), &var("v"), &mut trk);
    assert!(normalized_types_equal(&original, &e, &mut trk));
    assert!(normalized_types_equal(&e, &original, &mut trk));
}

#[test]
fn subst_removes_the_variable() {
    let mut trk = SubstTracker::new();
    let mut e = app(var("v"), lam("y", var("v"), pi("v", var("v"), app(var("y"), var("v")))));
    e.subst(&name("v"), &var("w"), &mut trk);
    let expected = app(
        var("w"),
        lam_v(
            gen("y", 1),
            var("w"),
            pi_v(gen("v", 3), var("w"), app(gvar("y", 1), gvar("v", 3))),
        ),
    );
    assert_eq!(show(&e), show(&expected));
}

#[test]
fn capture_avoidance_keeps_the_identity() {
    let mut trk = SubstTracker::new();
    let original = lam("x", uni(0), var("x"));
    let mut e = original.clone();
    e.subst(&name("y"), &var("x"), &mut trk);
    assert_eq!(show(&e), show(&lam_v(gen("x", 1), uni(0), gvar("x", 1))));
    assert!(normalized_types_equal(&original, &e, &mut trk));
}

#[test]
fn subst_on_parts() {
    let mut trk = SubstTracker::new();
    let mut a = Application { e1: Box::new(var("x")), e2: Box::new(var("y")) };
    a.subst(&name("y"), &uni(2), &mut trk);
    assert_eq!(show(&a.e1), show(&var("x")));
    assert_eq!(show(&a.e2), show(&uni(2)));
    let mut b: Abstraction<()> =
        Abstraction { x: name("x"), t: Box::new(var("y")), e: Box::new(var("x")), _ty: PhantomData };
    b.subst(&name("y"), &uni(2), &mut trk);
    assert!(b.x == gen("x", 1));
    assert_eq!(show(&b.t), show(&uni(2)));
    assert_eq!(show(&b.e), show(&gvar("x", 1)));
}

#[test]
fn demand_counts_the_names_drawn() {
    assert_eq!(var("x").demand(), Some(0));
    assert_eq!(uni(0).demand(), Some(0));
    assert_eq!(id_proof().demand(), Some(3));
    assert_eq!(app(id_proof(), id_type()).demand(), Some(6));
    assert_eq!(lam("x", id_proof(), id_proof()).demand(), Some(10));
}

#[test]
fn demand_beyond_the_largest_identifier() {
    // 128 nested binders draw 2^128 - 1 names, one more binder is too many.
    let mut e = var("x");
    for _ in 0..128 {
        e = lam("x", uni(0), e);
    }
    assert_eq!(e.demand(), Some(u128::MAX));
    let mut trk = SubstTracker::new();
    let x = trk.refresh_var(&name("x"));
    assert!(x == gen("x", 1));
    let before = show(&e);
    assert!(!try_subst(&mut e, &name("x"), &uni(0), &mut trk));
    assert_eq!(show(&e), before);
    assert_eq!(level(&trk), 1);
    let e = lam("x", uni(0), e);
    assert_eq!(e.demand(), None);
}

#[test]
fn try_subst_substitutes_where_names_are_left() {
    let mut trk = SubstTracker::new();
    let mut e = lam("x", uni(0), var("y"));
    assert!(try_subst(&mut e, &name("y"), &uni(1), &mut trk));
    assert_eq!(show(&e), show(&lam_v(gen("x", 1), uni(0), uni(1))));
    assert_eq!(level(&trk), 1);
}

#[test]
fn empty_context_holds_nothing() {
    let ctx = Context::new();
    assert!(!ctx.contains(&name("x")));
    assert!(!ctx.is_axiom(&name("x")));
    assert!(!ctx.is_proven_theory(&name("x")));
    assert!(!ctx.is_unproven_theory(&name("x")));
    assert!(ctx.lookup_type(&name("x")).is_none());
    assert!(ctx.lookup_value(&name("x")).is_none());
    let ctx = Context::default();
    assert!(!ctx.contains(&name("x")));
}

#[test]
fn two_axioms() {
    let mut trk = SubstTracker::new();
    let ctx = nat_context(&mut trk);
    assert!(ctx.contains(&name("Nat")));
    assert!(ctx.contains(&name("z")));
    assert!(ctx.is_axiom(&name("Nat")));
    assert!(ctx.is_axiom(&name("z")));
    assert!(!ctx.is_proven_theory(&name("z")));
    assert!(!ctx.is_unproven_theory(&name("z")));
    assert_eq!(show(ctx.lookup_type(&name("Nat")).unwrap()), show(&uni(0)));
    assert_eq!(show(ctx.lookup_type(&name("z")).unwrap()), show(&var("Nat")));
    assert!(ctx.lookup_value(&name("z")).is_none());
    assert!(!ctx.contains(&name("s")));
}

#[test]
fn identity_is_stated_and_proved() {
    let mut trk = SubstTracker::new();
    let mut ctx = Context::new();
    assert!(ctx.add_theorem(name("id"), id_type(), &mut trk).is_ok());
    assert!(ctx.is_unproven_theory(&name("id")));
    assert!(!ctx.is_proven_theory(&name("id")));
    assert!(ctx.lookup_value(&name("id")).is_none());
    let previous = ctx.extend_type(&name("id"), id_proof(), &mut trk);
    assert!(matches!(previous, Ok(None)));
    assert!(ctx.is_proven_theory(&name("id")));
    assert!(!ctx.is_unproven_theory(&name("id")));
    assert!(!ctx.is_axiom(&name("id")));
    assert_eq!(show(ctx.lookup_value(&name("id")).unwrap()), show(&id_proof()));
    assert_eq!(show(ctx.lookup_type(&name("id")).unwrap()), show(&id_type()));
}

#[test]
fn wrong_proof_of_identity_is_refused() {
    let mut trk = SubstTracker::new();
    let mut ctx = Context::new();
    assert!(ctx.add_theorem(name("id"), id_type(), &mut trk).is_ok());
    let wrong = lam("A", uni(0), lam("x", var("A"), var("A")));
    match ctx.extend_type(&name("id"), wrong, &mut trk) {
        Err(Error::TypesDoNotMatch(expected, actual)) => {
            assert_eq!(show(&expected), show(&id_type()));
            assert_eq!(show(&actual), show(&pi("A", uni(0), pi("x", var("A"), uni(0)))));
        },
        other => panic!("{:?}", other),
    }
    assert!(ctx.is_unproven_theory(&name("id")));
    assert!(ctx.lookup_value(&name("id")).is_none());
}

#[test]
fn second_statement_of_a_name_is_refused() {
    let mut trk = SubstTracker::new();
    let mut ctx = Context::new();
    assert!(ctx.add_axiom(name("Nat"), uni(0), &mut trk).is_ok());
    assert!(matches!(ctx.add_axiom(name("Nat"), uni(0), &mut trk), Err(Error::AlreadyExists)));
    assert!(matches!(ctx.add_theorem(name("Nat"), uni(1), &mut trk), Err(Error::AlreadyExists)));
    assert!(ctx.is_axiom(&name("Nat")));
    assert_eq!(show(ctx.lookup_type(&name("Nat")).unwrap()), show(&uni(0)));
    assert!(ctx.add_theorem(name("T"), uni(0), &mut trk).is_ok());
    assert!(matches!(ctx.add_axiom(name("T"), uni(0), &mut trk), Err(Error::AlreadyExists)));
    assert!(ctx.is_unproven_theory(&name("T")));
}

#[test]
fn proof_of_an_unknown_name_is_refused() {
    let mut trk = SubstTracker::new();
    let mut ctx = Context::new();
    let p = lam("A", uni(0), var("A"));
    assert!(matches!(ctx.extend_type(&name("nonexistent"), p, &mut trk), Err(Error::VariableNotFound)));
    assert!(!ctx.contains(&name("nonexistent")));
}

#[test]
fn theorem_proved_by_an_axiom() {
    let mut trk = SubstTracker::new();
    let mut ctx = Context::new();
    assert!(ctx.add_axiom(name("Nat"), uni(0), &mut trk).is_ok());
    assert!(ctx.add_theorem(name("T"), uni(0), &mut trk).is_ok());
    assert!(matches!(ctx.extend_type(&name("T"), var("Nat"), &mut trk), Ok(None)));
    assert!(matches!(
        ctx.lookup_value(&name("T")),
        Some(Expr::Var(Variable::Str(StrVar { name }))) if name == "Nat"
    ));
}

#[test]
fn axioms_take_no_proof() {
    let mut trk = SubstTracker::new();
    let mut ctx = nat_context(&mut trk);
    assert!(matches!(ctx.extend_type(&name("Nat"), uni(0), &mut trk), Err(Error::CannotProveAxiom)));
    assert!(matches!(ctx.extend_type(&name("z"), var("z"), &mut trk), Err(Error::CannotProveAxiom)));
    assert!(matches!(
        ctx.extend_type(&name("z"), var("unbound"), &mut trk),
        Err(Error::CannotProveAxiom)
    ));
    assert!(ctx.is_axiom(&name("z")));
}

#[test]
fn statement_without_a_type_is_refused() {
    let mut trk = SubstTracker::new();
    let mut ctx = Context::new();
    assert!(matches!(
        ctx.add_axiom(name("z"), var("Nat"), &mut trk),
        Err(Error::ExprDoesNotTypeCheck(None))
    ));
    assert!(matches!(
        ctx.add_theorem(name("z"), var("Nat"), &mut trk),
        Err(Error::ExprDoesNotTypeCheck(None))
    ));
    assert!(!ctx.contains(&name("z")));
    assert!(matches!(
        ctx.add_axiom(name("top"), uni(u128::MAX), &mut trk),
        Err(Error::ExprDoesNotTypeCheck(None))
    ));
    assert!(ctx.add_axiom(name("high"), uni(u128::MAX - 1), &mut trk).is_ok());
}

#[test]
fn proof_without_a_type_is_refused() {
    let mut trk = SubstTracker::new();
    let mut ctx = nat_context(&mut trk);
    assert!(ctx.add_theorem(name("T"), var("Nat"), &mut trk).is_ok());
    assert!(matches!(
        ctx.extend_type(&name("T"), var("unbound"), &mut trk),
        Err(Error::ExprDoesNotTypeCheck(None))
    ));
    assert!(matches!(
        ctx.extend_type(&name("T"), app(var("z"), var("z")), &mut trk),
        Err(Error::ExprDoesNotTypeCheck(None))
    ));
    assert!(ctx.is_unproven_theory(&name("T")));
}

#[test]
fn proof_cannot_rest_on_its_own_theorem() {
    let mut trk = SubstTracker::new();
    let mut ctx = nat_context(&mut trk);
    assert!(ctx.add_theorem(name("T"), var("Nat"), &mut trk).is_ok());
    assert!(matches!(
        ctx.extend_type(&name("T"), var("T"), &mut trk),
        Err(Error::ExprDoesNotTypeCheck(None))
    ));
    assert!(ctx.is_unproven_theory(&name("T")));
    assert!(matches!(ctx.extend_type(&name("T"), var("z"), &mut trk), Ok(None)));
    assert!(matches!(
        ctx.extend_type(&name("T"), var("T"), &mut trk),
        Err(Error::ExprDoesNotTypeCheck(None))
    ));
    assert_eq!(show(ctx.lookup_value(&name("T")).unwrap()), show(&var("z")));
}

#[test]
fn second_proof_replaces_the_first() {
    let mut trk = SubstTracker::new();
    let mut ctx = nat_context(&mut trk);
    assert!(ctx.add_axiom(name("w"), var("Nat"), &mut trk).is_ok());
    assert!(ctx.add_theorem(name("T"), var("Nat"), &mut trk).is_ok());
    assert!(matches!(ctx.extend_type(&name("T"), var("z"), &mut trk), Ok(None)));
    match ctx.extend_type(&name("T"), var("w"), &mut trk) {
        Ok(Some(previous)) => assert_eq!(show(&previous), show(&var("z"))),
        other => panic!("{:?}", other),
    }
    assert_eq!(show(ctx.lookup_value(&name("T")).unwrap()), show(&var("w")));
    assert_eq!(show(ctx.lookup_type(&name("T")).unwrap()), show(&var("Nat")));
    assert!(ctx.is_proven_theory(&name("T")));
}

#[test]
fn normalize_variables_and_universes() {
    let mut trk = SubstTracker::new();
    let mut ctx = nat_context(&mut trk);
    assert!(ctx.add_theorem(name("T"), var("Nat"), &mut trk).is_ok());
    assert_eq!(show_opt(&var("z").normalize(&ctx, &mut trk)), show_opt(&Some(var("z"))));
    assert_eq!(show_opt(&var("T").normalize(&ctx, &mut trk)), show_opt(&Some(var("T"))));
    assert_eq!(show_opt(&name("z").normalize(&ctx, &mut trk)), show_opt(&Some(var("z"))));
    assert!(var("unbound").normalize(&ctx, &mut trk).is_none());
    assert!(name("unbound").normalize(&ctx, &mut trk).is_none());
    assert_eq!(show_opt(&uni(3).normalize(&ctx, &mut trk)), show_opt(&Some(uni(3))));
    assert_eq!(
        show_opt(&Universe { level: 3 }.normalize(&ctx, &mut trk)),
        show_opt(&Some(uni(3)))
    );
    assert!(matches!(ctx.extend_type(&name("T"), var("z"), &mut trk), Ok(None)));
    assert_eq!(show_opt(&var("T").normalize(&ctx, &mut trk)), show_opt(&Some(var("z"))));
}

#[test]
fn normalize_reduces_a_redex() {
    let mut trk = SubstTracker::new();
    let ctx = nat_context(&mut trk);
    let e = app(lam("x", var("Nat"), var("x")), var("z"));
    assert_eq!(show_opt(&e.normalize(&ctx, &mut trk)), show_opt(&Some(var("z"))));
    assert_eq!(level(&trk), 0);
    // (λ A : U0, λ x : A, x) Nat z
    let e = app(app(id_proof(), var("Nat")), var("z"));
    assert_eq!(show_opt(&e.normalize(&ctx, &mut trk)), show_opt(&Some(var("z"))));
    // (λ A : U0, λ x : A, x) Nat
    let e = app(id_proof(), var("Nat"));
    let expected = lam_v(gen("x", 2), var("Nat"), gvar("x", 2));
    assert_eq!(show_opt(&e.normalize(&ctx, &mut trk)), show_opt(&Some(expected)));
}

#[test]
fn normalize_keeps_a_neutral_application() {
    let mut trk = SubstTracker::new();
    let mut ctx = nat_context(&mut trk);
    assert!(ctx.add_axiom(name("s"), pi("n", var("Nat"), var("Nat")), &mut trk).is_ok());
    let e = app(var("s"), app(lam("x", var("Nat"), var("x")), var("z")));
    assert_eq!(
        show_opt(&e.normalize(&ctx, &mut trk)),
        show_opt(&Some(app(var("s"), var("z"))))
    );
    let a = Application { e1: Box::new(var("s")), e2: Box::new(var("z")) };
    assert_eq!(show_opt(&a.normalize(&ctx, &mut trk)), show_opt(&Some(app(var("s"), var("z")))));
    assert!(app(var("s"), var("unbound")).normalize(&ctx, &mut trk).is_none());
    assert!(app(var("unbound"), var("z")).normalize(&ctx, &mut trk).is_none());
}

#[test]
fn normalize_goes_under_binders() {
    let mut trk = SubstTracker::new();
    let mut ctx = nat_context(&mut trk);
    assert!(ctx.add_theorem(name("T"), var("Nat"), &mut trk).is_ok());
    assert!(matches!(ctx.extend_type(&name("T"), var("z"), &mut trk), Ok(None)));
    // The bound `T` is not unfolded, the free one in the annotation is.
    let e = lam("T", var("T"), app(lam("y", var("Nat"), var("y")), var("T")));
    let expected = lam("T", var("z"), var("T"));
    assert_eq!(show_opt(&e.normalize(&ctx, &mut trk)), show_opt(&Some(expected)));
    let e = pi("n", var("T"), var("T"));
    assert_eq!(
        show_opt(&e.normalize(&ctx, &mut trk)),
        show_opt(&Some(pi("n", var("z"), var("z"))))
    );
    assert!(lam("x", var("unbound"), var("x")).normalize(&ctx, &mut trk).is_none());
    assert!(lam("x", var("Nat"), var("unbound")).normalize(&ctx, &mut trk).is_none());
    let p: Abstraction<sinepia_lambda::ast::PiPhantom> =
        Abstraction { x: name("n"), t: Box::new(var("T")), e: Box::new(var("n")), _ty: PhantomData };
    assert_eq!(
        show_opt(&p.normalize(&ctx, &mut trk)),
        show_opt(&Some(pi("n", var("z"), var("n"))))
    );
    let l: Abstraction<sinepia_lambda::ast::LambdaPhantom> =
        Abstraction { x: name("n"), t: Box::new(var("T")), e: Box::new(var("n")), _ty: PhantomData };
    assert_eq!(
        show_opt(&l.normalize(&ctx, &mut trk)),
        show_opt(&Some(lam("n", var("z"), var("n"))))
    );
}

#[test]
fn normalize_is_idempotent() {
    let mut trk = SubstTracker::new();
    let ctx = nat_context(&mut trk);
    let e = app(id_proof(), var("Nat"));
    let once = e.normalize(&ctx, &mut trk).unwrap();
    let before = level(&trk);
    let twice = once.normalize(&ctx, &mut trk).unwrap();
    assert_eq!(show(&twice), show(&once));
    assert_eq!(level(&trk), before);
    assert!(normalized_types_equal(&once, &twice, &mut trk));
}

#[test]
fn beta_law() {
    let mut trk = SubstTracker::new();
    let ctx = nat_context(&mut trk);
    let body = lam("y", var("Nat"), var("x"));
    let redex = app(lam("x", var("Nat"), body.clone()), var("z"));
    let left = redex.normalize(&ctx, &mut trk).unwrap();
    let mut reduct = body;
    reduct.subst(&name("x"), &var("z"), &mut trk);
    let right = reduct.normalize(&ctx, &mut trk).unwrap();
    assert!(normalized_types_equal(&left, &right, &mut trk));
    assert_eq!(show(&left), show(&lam_v(gen("y", 1), var("Nat"), var("z"))));
}

#[test]
fn normalize_stops_when_the_fuel_is_spent() {
    // ω ω with ω = λ x : U0, x x has no normal form.
    let omega = lam("x", uni(0), app(var("x"), var("x")));
    let e = app(omega.clone(), omega);
    let ctx = Context::new();
    let mut trk = SubstTracker::with_fuel(20);
    assert!(e.normalize(&ctx, &mut trk).is_none());
    assert_eq!(trk.fuel_limit(), 20);
    // One unfolding needs one unit of fuel.
    let mut trk = SubstTracker::with_fuel(0);
    let ctx = nat_context(&mut trk);
    let e = app(lam("x", var("Nat"), var("x")), var("z"));
    assert!(e.normalize(&ctx, &mut trk).is_none());
    assert_eq!(show_opt(&var("z").normalize(&ctx, &mut trk)), show_opt(&Some(var("z"))));
    let mut trk = SubstTracker::with_fuel(1);
    assert_eq!(show_opt(&e.normalize(&ctx, &mut trk)), show_opt(&Some(var("z"))));
}

#[test]
fn proofs_that_rest_on_each_other_do_not_hang() {
    let mut trk = SubstTracker::new();
    let mut ctx = nat_context(&mut trk);
    assert!(ctx.add_theorem(name("A"), var("Nat"), &mut trk).is_ok());
    assert!(ctx.add_theorem(name("B"), var("Nat"), &mut trk).is_ok());
    assert!(matches!(ctx.extend_type(&name("A"), var("B"), &mut trk), Ok(None)));
    assert!(matches!(ctx.extend_type(&name("B"), var("A"), &mut trk), Ok(None)));
    assert!(var("A").normalize(&ctx, &mut trk).is_none());
    assert!(!ctx.types_equal(&mut trk, &var("A"), &var("A")));
}

#[test]
fn alpha_equality_of_normal_forms() {
    let mut trk = SubstTracker::new();
    assert!(normalized_types_equal(&var("x"), &var("x"), &mut trk));
    assert!(!normalized_types_equal(&var("x"), &var("y"), &mut trk));
    assert!(!normalized_types_equal(&var("x"), &gvar("x", 0), &mut trk));
    assert!(normalized_types_equal(&uni(2), &uni(2), &mut trk));
    assert!(!normalized_types_equal(&uni(2), &uni(3), &mut trk));
    assert!(!normalized_types_equal(&uni(2), &var("x"), &mut trk));
    assert!(normalized_types_equal(
        &app(var("f"), uni(1)),
        &app(var("f"), uni(1)),
        &mut trk
    ));
    assert!(!normalized_types_equal(
        &app(var("f"), uni(1)),
        &app(var("f"), uni(2)),
        &mut trk
    ));
    assert!(!normalized_types_equal(
        &app(var("g"), uni(1)),
        &app(var("f"), uni(1)),
        &mut trk
    ));
    assert_eq!(level(&trk), 0);
    assert!(normalized_types_equal(
        &lam("x", uni(0), var("x")),
        &lam("y", uni(0), var("y")),
        &mut trk
    ));
    assert!(normalized_types_equal(
        &pi("x", uni(0), pi("y", var("x"), var("x"))),
        &pi("a", uni(0), pi("b", var("a"), var("a"))),
        &mut trk
    ));
    assert!(!normalized_types_equal(
        &pi("x", uni(0), pi("y", var("x"), var("x"))),
        &pi("a", uni(0), pi("b", var("a"), var("b"))),
        &mut trk
    ));
    assert!(!normalized_types_equal(
        &lam("x", uni(0), var("x")),
        &lam("y", uni(1), var("y")),
        &mut trk
    ));
}

#[test]
fn lambda_never_equals_pi() {
    let mut trk = SubstTracker::new();
    assert!(!normalized_types_equal(
        &lam("x", uni(0), var("x")),
        &pi("x", uni(0), var("x")),
        &mut trk
    ));
    assert!(!normalized_types_equal(
        &pi("x", uni(0), var("x")),
        &lam("x", uni(0), var("x")),
        &mut trk
    ));
    assert_eq!(level(&trk), 0);
}

#[test]
fn binders_are_compared_after_renaming() {
    let mut trk = SubstTracker::new();
    let a: Abstraction<()> =
        Abstraction { x: name("x"), t: Box::new(uni(0)), e: Box::new(var("x")), _ty: PhantomData };
    let b: Abstraction<()> =
        Abstraction { x: name("y"), t: Box::new(uni(0)), e: Box::new(var("y")), _ty: PhantomData };
    let c: Abstraction<()> =
        Abstraction { x: name("y"), t: Box::new(uni(0)), e: Box::new(var("z")), _ty: PhantomData };
    assert!(normalized_abs_equal(&a, &b, &mut trk));
    assert!(!normalized_abs_equal(&a, &c, &mut trk));
    // Putting the first bound variable into the second body renames the one
    // binder in it; the bodies of the inner binders hold no binder.
    let d: Abstraction<()> = Abstraction {
        x: name("y"),
        t: Box::new(uni(0)),
        e: Box::new(lam("w", uni(0), var("y"))),
        _ty: PhantomData,
    };
    let e: Abstraction<()> = Abstraction {
        x: name("x"),
        t: Box::new(uni(0)),
        e: Box::new(lam("v", uni(0), var("x"))),
        _ty: PhantomData,
    };
    let before = level(&trk);
    assert!(normalized_abs_equal(&e, &d, &mut trk));
    assert_eq!(level(&trk), before + 1);
}

#[test]
fn types_equal_normalizes_both_sides() {
    let mut trk = SubstTracker::new();
    let ctx = nat_context(&mut trk);
    let e = app(lam("x", uni(0), var("x")), var("Nat"));
    assert!(ctx.types_equal(&mut trk, &e, &var("Nat")));
    assert!(ctx.types_equal(&mut trk, &var("Nat"), &e));
    assert!(!ctx.types_equal(&mut trk, &var("Nat"), &var("z")));
    assert!(!ctx.types_equal(&mut trk, &var("unbound"), &var("unbound")));
    assert!(!ctx.types_equal(&mut trk, &var("Nat"), &var("unbound")));
    assert!(!ctx.types_equal(&mut trk, &uni(0), &uni(1)));
}

#[test]
fn infer_variables_and_universes() {
    let mut trk = SubstTracker::new();
    let ctx = nat_context(&mut trk);
    assert_eq!(show_opt(&var("z").type_infer(ctx.clone(), &mut trk)), show_opt(&Some(var("Nat"))));
    assert_eq!(show_opt(&name("z").type_infer(ctx.clone(), &mut trk)), show_opt(&Some(var("Nat"))));
    assert!(var("unbound").type_infer(ctx.clone(), &mut trk).is_none());
    assert_eq!(show_opt(&uni(0).type_infer(ctx.clone(), &mut trk)), show_opt(&Some(uni(1))));
    assert_eq!(
        show_opt(&Universe { level: 41 }.type_infer(ctx.clone(), &mut trk)),
        show_opt(&Some(uni(42)))
    );
    assert_eq!(
        show_opt(&uni(u128::MAX - 1).type_infer(ctx.clone(), &mut trk)),
        show_opt(&Some(uni(u128::MAX)))
    );
    assert!(uni(u128::MAX).type_infer(ctx.clone(), &mut trk).is_none());
}

#[test]
fn infer_pi_takes_the_larger_universe() {
    let mut trk = SubstTracker::new();
    let ctx = nat_context(&mut trk);
    assert_eq!(show_opt(&id_type().type_infer(ctx.clone(), &mut trk)), show_opt(&Some(uni(1))));
    let e = pi("n", var("Nat"), var("Nat"));
    assert_eq!(show_opt(&e.type_infer(ctx.clone(), &mut trk)), show_opt(&Some(uni(0))));
    let e = pi("n", var("Nat"), uni(4));
    assert_eq!(show_opt(&e.type_infer(ctx.clone(), &mut trk)), show_opt(&Some(uni(5))));
    let e = pi("n", uni(7), var("Nat"));
    assert_eq!(show_opt(&e.type_infer(ctx.clone(), &mut trk)), show_opt(&Some(uni(8))));
    // `z` is not a type.
    assert!(pi("n", var("z"), var("Nat")).type_infer(ctx.clone(), &mut trk).is_none());
    assert!(pi("n", var("Nat"), var("z")).type_infer(ctx.clone(), &mut trk).is_none());
    assert!(pi("n", var("Nat"), var("n")).type_infer(ctx.clone(), &mut trk).is_none());
    let p: Abstraction<sinepia_lambda::ast::PiPhantom> = Abstraction {
        x: name("n"),
        t: Box::new(var("Nat")),
        e: Box::new(uni(4)),
        _ty: PhantomData,
    };
    assert_eq!(show_opt(&p.type_infer(ctx.clone(), &mut trk)), show_opt(&Some(uni(5))));
}

#[test]
fn infer_lambda_gives_a_pi() {
    let mut trk = SubstTracker::new();
    let ctx = nat_context(&mut trk);
    assert_eq!(
        show_opt(&id_proof().type_infer(ctx.clone(), &mut trk)),
        show_opt(&Some(id_type()))
    );
    let e = lam("n", var("Nat"), var("z"));
    assert_eq!(
        show_opt(&e.type_infer(ctx.clone(), &mut trk)),
        show_opt(&Some(pi("n", var("Nat"), var("Nat"))))
    );
    assert!(lam("n", var("z"), var("n")).type_infer(ctx.clone(), &mut trk).is_none());
    assert!(lam("n", var("Nat"), var("unbound")).type_infer(ctx.clone(), &mut trk).is_none());
    let l: Abstraction<sinepia_lambda::ast::LambdaPhantom> = Abstraction {
        x: name("n"),
        t: Box::new(var("Nat")),
        e: Box::new(var("n")),
        _ty: PhantomData,
    };
    assert_eq!(
        show_opt(&l.type_infer(ctx.clone(), &mut trk)),
        show_opt(&Some(pi("n", var("Nat"), var("Nat"))))
    );
}

#[test]
fn infer_application_substitutes_the_argument() {
    let mut trk = SubstTracker::new();
    let mut ctx = nat_context(&mut trk);
    assert!(ctx.add_axiom(name("s"), pi("n", var("Nat"), var("Nat")), &mut trk).is_ok());
    let e = app(var("s"), var("z"));
    assert_eq!(show_opt(&e.type_infer(ctx.clone(), &mut trk)), show_opt(&Some(var("Nat"))));
    // (λ A : U0, λ x : A, x) Nat : Π x : Nat, Nat, with the binder renamed
    // by the substitution.
    let e = app(id_proof(), var("Nat"));
    let before = level(&trk);
    let t = e.type_infer(ctx.clone(), &mut trk).unwrap();
    assert_eq!(level(&trk), before + 1);
    assert_eq!(show(&t), show(&pi_v(gen("x", before + 1), var("Nat"), var("Nat"))));
    // The argument has the wrong type.
    assert!(app(var("s"), var("Nat")).type_infer(ctx.clone(), &mut trk).is_none());
    // The function is not one.
    assert!(app(var("z"), var("z")).type_infer(ctx.clone(), &mut trk).is_none());
    assert!(app(var("s"), var("unbound")).type_infer(ctx.clone(), &mut trk).is_none());
    let a = Application { e1: Box::new(var("s")), e2: Box::new(var("z")) };
    assert_eq!(show_opt(&a.type_infer(ctx.clone(), &mut trk)), show_opt(&Some(var("Nat"))));
}

#[test]
fn infer_universe_and_pi_look_at_the_normal_form() {
    let mut trk = SubstTracker::new();
    let mut ctx = nat_context(&mut trk);
    assert!(ctx.add_axiom(name("s"), pi("n", var("Nat"), var("Nat")), &mut trk).is_ok());
    assert_eq!(infer_universe(ctx.clone(), &var("Nat"), &mut trk).map(|u| u.level), Some(0));
    assert_eq!(infer_universe(ctx.clone(), &uni(5), &mut trk).map(|u| u.level), Some(6));
    assert!(infer_universe(ctx.clone(), &var("z"), &mut trk).is_none());
    assert!(infer_universe(ctx.clone(), &var("s"), &mut trk).is_none());
    assert!(infer_universe(ctx.clone(), &var("unbound"), &mut trk).is_none());
    let p = infer_pi(ctx.clone(), &var("s"), &mut trk).unwrap();
    assert!(p.x == name("n"));
    assert_eq!(show(&p.t), show(&var("Nat")));
    assert_eq!(show(&p.e), show(&var("Nat")));
    assert!(infer_pi(ctx.clone(), &var("z"), &mut trk).is_none());
    assert!(infer_pi(ctx.clone(), &var("Nat"), &mut trk).is_none());
    // A type that is a pi only after an unfolding.
    assert!(ctx.add_theorem(name("F"), uni(0), &mut trk).is_ok());
    assert!(matches!(
        ctx.extend_type(&name("F"), pi("n", var("Nat"), var("Nat")), &mut trk),
        Ok(None)
    ));
    assert!(ctx.add_axiom(name("f"), var("F"), &mut trk).is_ok());
    let p = infer_pi(ctx.clone(), &var("f"), &mut trk).unwrap();
    assert_eq!(show(&p.t), show(&var("Nat")));
    assert_eq!(
        show_opt(&app(var("f"), var("z")).type_infer(ctx.clone(), &mut trk)),
        show_opt(&Some(var("Nat")))
    );
}

#[test]
fn a_new_entry_keeps_inferred_types() {
    let mut trk = SubstTracker::new();
    let mut ctx = nat_context(&mut trk);
    let e = app(id_proof(), var("Nat"));
    let mut t1 = SubstTracker::new();
    let before = e.type_infer(ctx.clone(), &mut t1);
    assert!(ctx.add_axiom(name("A"), uni(0), &mut trk).is_ok());
    assert!(ctx.add_axiom(name("x"), var("A"), &mut trk).is_ok());
    let mut t2 = SubstTracker::new();
    let after = e.type_infer(ctx.clone(), &mut t2);
    assert!(before.is_some());
    assert_eq!(show_opt(&after), show_opt(&before));
    assert_eq!(level(&t1), level(&t2));
}

#[test]
fn type_is_preserved_by_a_beta_step() {
    let mut trk = SubstTracker::new();
    let ctx = nat_context(&mut trk);
    let redex = app(lam("x", var("Nat"), var("x")), var("z"));
    let reduct = var("z");
    let t1 = redex.type_infer(ctx.clone(), &mut trk).unwrap();
    let t2 = reduct.type_infer(ctx.clone(), &mut trk).unwrap();
    assert!(ctx.types_equal(&mut trk, &t1, &t2));
}

#[test]
fn messages() {
    assert_eq!(Error::CannotProveAxiom.message(), "Axioms cannot be proven");
    assert_eq!(Error::VariableNotFound.message(), "Bound variable is not found");
    assert_eq!(Error::ExprDoesNotTypeCheck(None).message(), "Expression does not type check");
    assert_eq!(Error::TypesDoNotMatch(uni(0), uni(1)).message(), "Types do not match");
    assert_eq!(
        Error::AlreadyExists.message(),
        "Axiom or theorem with the same name already exists"
    );
}

#[test]
fn statements_are_dispatched() {
    let mut trk = SubstTracker::new();
    let mut ctx = Context::new();
    assert_eq!(process_axiom(Axiom { name: name("Nat"), typ: uni(0) }, &mut ctx, &mut trk), None);
    assert!(ctx.is_axiom(&name("Nat")));
    assert_eq!(
        process_axiom(Axiom { name: name("Nat"), typ: uni(0) }, &mut ctx, &mut trk),
        Some("Axiom or theorem with the same name already exists".to_string())
    );
    assert_eq!(
        process_unproven(Theorem { name: name("id"), typ: id_type() }, &mut ctx, &mut trk),
        None
    );
    assert!(ctx.is_unproven_theory(&name("id")));
    assert_eq!(
        process_unproven(Theorem { name: name("bad"), typ: var("unbound") }, &mut ctx, &mut trk),
        Some("Expression does not type check".to_string())
    );
    assert_eq!(
        process_proven(
            Proof { name: name("id"), value: lam("A", uni(0), lam("x", var("A"), var("A"))) },
            &mut ctx,
            &mut trk
        ),
        Some("Types do not match".to_string())
    );
    assert_eq!(
        process_proven(Proof { name: name("id"), value: id_proof() }, &mut ctx, &mut trk),
        None
    );
    assert!(ctx.is_proven_theory(&name("id")));
    assert_eq!(
        process_proven(Proof { name: name("Nat"), value: uni(0) }, &mut ctx, &mut trk),
        Some("Axioms cannot be proven".to_string())
    );
    assert_eq!(
        process_proven(Proof { name: name("nonexistent"), value: uni(0) }, &mut ctx, &mut trk),
        Some("Bound variable is not found".to_string())
    );
    assert_eq!(
        process_statement(
            Statement::Axiom(Axiom { name: name("z"), typ: var("Nat") }),
            &mut ctx,
            &mut trk
        ),
        None
    );
    assert_eq!(
        process_statement(
            Statement::TH(Theorem { name: name("T"), typ: var("Nat") }),
            &mut ctx,
            &mut trk
        ),
        None
    );
    assert_eq!(
        process_statement(
            Statement::PF(Proof { name: name("T"), value: var("z") }),
            &mut ctx,
            &mut trk
        ),
        None
    );
    assert_eq!(show(ctx.lookup_value(&name("T")).unwrap()), show(&var("z")));
    assert_eq!(
        process_statement(
            Statement::PF(Proof { name: name("T"), value: var("Nat") }),
            &mut ctx,
            &mut trk
        ),
        Some("Types do not match".to_string())
    );
}

#[test]
fn a_free_name_is_not_taken_for_the_bound_one() {
    let mut trk = SubstTracker::new();
    let mut ctx = nat_context(&mut trk);
    assert!(ctx.add_axiom(name("x"), uni(0), &mut trk).is_ok());
    // The second body is the axiom `x`, not the bound variable.
    let all = pi("x", uni(0), var("x"));
    let constant = pi("w", uni(0), var("x"));
    assert!(!normalized_types_equal(&all, &constant, &mut trk));
    assert!(!normalized_types_equal(&constant, &all, &mut trk));
    assert!(!ctx.types_equal(&mut trk, &all, &constant));
    assert!(!ctx.types_equal(&mut trk, &constant, &all));
    let identity = lam("x", uni(0), var("x"));
    let onto_x = lam("y", uni(0), var("x"));
    assert!(!ctx.types_equal(&mut trk, &identity, &onto_x));
    assert!(!ctx.types_equal(&mut trk, &onto_x, &identity));
    assert!(ctx.types_equal(&mut trk, &identity, &lam("y", uni(0), var("y"))));
    assert!(ctx.types_equal(&mut trk, &onto_x, &lam("z", uni(0), var("x"))));
    // A refusal draws no name.
    let before = level(&trk);
    let a: Abstraction<()> = Abstraction {
        x: name("x"),
        t: Box::new(uni(0)),
        e: Box::new(lam("p", uni(0), var("x"))),
        _ty: PhantomData,
    };
    let b: Abstraction<()> = Abstraction {
        x: name("w"),
        t: Box::new(uni(0)),
        e: Box::new(lam("p", uni(0), var("x"))),
        _ty: PhantomData,
    };
    assert!(!normalized_abs_equal(&a, &b, &mut trk));
    assert_eq!(level(&trk), before);
    // With `f : Π w : U0, x` and `g = λ h : (Π x : U0, x), h Nat`, the
    // argument `f` has not the type that `g` asks for.
    assert!(ctx.add_axiom(name("f"), constant, &mut trk).is_ok());
    let g = lam("h", all, app(var("h"), var("Nat")));
    assert!(g.type_infer(ctx.clone(), &mut trk).is_some());
    assert!(app(g, var("f")).type_infer(ctx.clone(), &mut trk).is_none());
    assert_eq!(
        show_opt(&app(var("f"), var("Nat")).type_infer(ctx.clone(), &mut trk)),
        show_opt(&Some(var("x")))
    );
}

#[test]
fn comparison_is_symmetric() {
    let mut trk = SubstTracker::new();
    let pairs = vec![
        (pi("x", uni(0), var("x")), pi("w", uni(0), var("x"))),
        (pi("x", uni(0), var("x")), pi("w", uni(0), var("w"))),
        (lam("x", uni(0), var("y")), lam("y", uni(0), var("y"))),
        (lam("x", uni(0), var("y")), lam("z", uni(0), var("y"))),
        (
            lam("x", uni(0), lam("y", var("x"), app(var("x"), var("y")))),
            lam("y", uni(0), lam("x", var("y"), app(var("y"), var("x")))),
        ),
        (
            lam("x", uni(0), lam("y", var("x"), app(var("x"), var("y")))),
            lam("y", uni(0), lam("x", var("y"), app(var("x"), var("y")))),
        ),
    ];
    let expected = vec![false, true, false, true, true, false];
    for ((a, b), same) in pairs.iter().zip(expected) {
        assert_eq!(normalized_types_equal(a, b, &mut trk), same);
        assert_eq!(normalized_types_equal(b, a, &mut trk), same);
    }
}

#[test]
fn free_occurrences() {
    let e = app(var("v"), lam("y", var("w"), pi("v", var("q"), app(var("y"), var("v")))));
    assert!(e.has_free(&name("v")));
    assert!(e.has_free(&name("w")));
    assert!(e.has_free(&name("q")));
    assert!(!e.has_free(&name("y")));
    assert!(!e.has_free(&name("z")));
    assert!(!e.has_free(&gen("v", 0)));
    let bound = lam("v", var("v"), var("v"));
    assert!(bound.has_free(&name("v")));
    let bound = lam("v", uni(0), var("v"));
    assert!(!bound.has_free(&name("v")));
    assert!(!uni(3).has_free(&name("v")));
    assert!(gvar("v", 2).has_free(&gen("v", 2)));
    assert!(!gvar("v", 2).has_free(&gen("v", 3)));
}

#[test]
fn unfolding_under_a_binder_meets_the_binder() {
    // `c` is proved by the axiom `y`. Under a binder named `y` the unfolded
    // proof names the bound variable, so the redex below and its reduct,
    // whose binder the substitution has renamed, have different normal forms.
    let mut trk = SubstTracker::new();
    let mut ctx = nat_context(&mut trk);
    assert!(ctx.add_axiom(name("y"), var("Nat"), &mut trk).is_ok());
    assert!(ctx.add_theorem(name("c"), var("Nat"), &mut trk).is_ok());
    assert!(matches!(ctx.extend_type(&name("c"), var("y"), &mut trk), Ok(None)));
    let body = lam("y", var("Nat"), var("c"));
    let redex = app(lam("x", var("Nat"), body.clone()), var("z"));
    let left = redex.normalize(&ctx, &mut trk).unwrap();
    let mut reduct = body;
    reduct.subst(&name("x"), &var("z"), &mut trk);
    let right = reduct.normalize(&ctx, &mut trk).unwrap();
    assert_eq!(show(&left), show(&lam_v(gen("y", 1), var("Nat"), gvar("y", 1))));
    assert_eq!(show(&right), show(&lam_v(gen("y", 2), var("Nat"), var("y"))));
    assert!(!normalized_types_equal(&left, &right, &mut trk));
}

#[test]
fn more_fuel_gives_the_same_normal_form() {
    // The reduct of `(λ f : T, f U0) (λ y : U1, y)` is a redex again, so two
    // reductions happen in a row.
    let ctx = Context::new();
    let e = app(
        lam("f", pi("q", uni(1), uni(1)), app(var("f"), uni(0))),
        lam("y", uni(1), var("y")),
    );
    let mut few = SubstTracker::with_fuel(1);
    assert!(normalize_expr(&e, &ctx, &mut few, 1).is_none());
    let mut two = SubstTracker::with_fuel(2);
    let with_two = normalize_expr(&e, &ctx, &mut two, 2);
    let mut many = SubstTracker::with_fuel(2);
    let with_many = normalize_expr(&e, &ctx, &mut many, 50);
    assert_eq!(show_opt(&with_two), show_opt(&Some(uni(0))));
    assert_eq!(show_opt(&with_many), show_opt(&with_two));
    assert_eq!(level(&two), level(&many));
    assert_eq!(show_opt(&e.normalize(&ctx, &mut SubstTracker::with_fuel(1))), show_opt(&None));
    assert_eq!(
        show_opt(&e.normalize(&ctx, &mut SubstTracker::with_fuel(2))),
        show_opt(&Some(uni(0)))
    );
}

#[test]
fn second_substitution_changes_bound_names_only() {
    let mut trk = SubstTracker::new();
    let mut e = lam("y", var("v"), app(var("y"), var("v")));
    e.subst(&name("v"), &var("w"), &mut trk);
    let once = e.clone();
    e.subst(&name("v"), &uni(3), &mut trk);
    assert_eq!(show(&once), show(&lam_v(gen("y", 1), var("w"), app(gvar("y", 1), var("w")))));
    assert_eq!(show(&e), show(&lam_v(gen("y", 2), var("w"), app(gvar("y", 2), var("w")))));
    assert!(normalized_types_equal(&once, &e, &mut trk));
}

#[test]
fn a_forged_generated_name_can_be_captured() {
    // The supply has not handed out `x#1` yet, so the binder is renamed to
    // the very name that occurs free in its body.
    let mut trk = SubstTracker::new();
    let original = lam("x", uni(0), gvar("x", 1));
    let mut e = original.clone();
    e.subst(&name("v"), &var("v"), &mut trk);
    assert_eq!(show(&e), show(&lam_v(gen("x", 1), uni(0), gvar("x", 1))));
    assert!(!normalized_types_equal(&original, &e, &mut trk));
    // With a supply that has handed the name out, the name stays free.
    let mut trk = SubstTracker::new();
    let forged = trk.refresh_var(&name("x"));
    let original = lam("x", uni(0), Expr::Var(forged.clone()));
    let mut e = original.clone();
    e.subst(&name("v"), &var("v"), &mut trk);
    assert_eq!(show(&e), show(&lam_v(gen("x", 2), uni(0), gvar("x", 1))));
    assert!(normalized_types_equal(&original, &e, &mut trk));
}

#[test]
fn a_new_entry_keeps_inferred_types_with_one_supply() {
    // The supply goes on between the two inferences, so the types differ in
    // the names that the substitutions generated, and in nothing else.
    let mut trk = SubstTracker::new();
    let mut ctx = nat_context(&mut trk);
    let e = app(id_proof(), var("Nat"));
    let before = e.type_infer(ctx.clone(), &mut trk).unwrap();
    let drawn = level(&trk);
    assert!(ctx.add_axiom(name("s"), pi("n", var("Nat"), var("Nat")), &mut trk).is_ok());
    assert!(ctx.add_theorem(name("id"), id_type(), &mut trk).is_ok());
    assert!(matches!(ctx.extend_type(&name("id"), id_proof(), &mut trk), Ok(None)));
    let start = level(&trk);
    assert!(start > drawn);
    let after = e.type_infer(ctx.clone(), &mut trk).unwrap();
    assert_eq!(level(&trk) - start, drawn);
    assert_eq!(show(&before), show(&pi_v(gen("x", 1), var("Nat"), var("Nat"))));
    assert_eq!(show(&after), show(&pi_v(gen("x", start + 1), var("Nat"), var("Nat"))));
    assert!(normalized_types_equal(&before, &after, &mut trk));
    assert!(normalized_types_equal(&after, &before, &mut trk));
    assert!(ctx.types_equal(&mut trk, &before, &after));
}

#[test]
fn a_binder_that_shadows_a_name_of_its_annotation() {
    // In `λ x : x, x` the annotation is the axiom `x`. The type of the body
    // is that annotation, and under the binder of the pi type its `x` is the
    // bound variable. So the application to `a` gets the type `a`, while its
    // reduct `a` has the type `x`.
    let mut trk = SubstTracker::new();
    let mut ctx = Context::new();
    assert!(ctx.add_axiom(name("x"), uni(0), &mut trk).is_ok());
    assert!(ctx.add_axiom(name("a"), var("x"), &mut trk).is_ok());
    let f = lam("x", var("x"), var("x"));
    assert_eq!(
        show_opt(&f.type_infer(ctx.clone(), &mut trk)),
        show_opt(&Some(pi("x", var("x"), var("x"))))
    );
    let redex = app(f, var("a"));
    assert_eq!(show_opt(&redex.type_infer(ctx.clone(), &mut trk)), show_opt(&Some(var("a"))));
    assert_eq!(show_opt(&redex.normalize(&ctx, &mut trk)), show_opt(&Some(var("a"))));
    assert_eq!(show_opt(&var("a").type_infer(ctx.clone(), &mut trk)), show_opt(&Some(var("x"))));
}
