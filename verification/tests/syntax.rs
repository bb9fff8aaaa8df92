use sinepia_lambda::ast::{
    Abstraction, Application, Axiom, Expr, Lambda, Pi, Proof, Statement, StrVar, Theorem, Universe,
    Variable,
};
use sinepia_lambda::parser::{parse, parse_tokens, tokenize, Token};
use sinepia_lambda::session::{process, Reply};
use sinepia_lambda::{Context, SubstTracker};
use std::marker::PhantomData;

fn name(s: &str) -> Variable {
    Variable::Str(StrVar { name: s.to_string() })
}

fn var(s: &str) -> Expr {
    Expr::Var(name(s))
}

fn uni(level: u128) -> Expr {
    Expr::Uni(Universe { level })
}

fn app(f: Expr, a: Expr) -> Expr {
    Expr::App(Application { e1: Box::new(f), e2: Box::new(a) })
}

fn lam(x: &str, t: Expr, e: Expr) -> Expr {
    Expr::Lambda(Abstraction { x: name(x), t: Box::new(t), e: Box::new(e), _ty: PhantomData })
}

fn pi(x: &str, t: Expr, e: Expr) -> Expr {
    Expr::Pi(Abstraction { x: name(x), t: Box::new(t), e: Box::new(e), _ty: PhantomData })
}

fn stated(n: &str, typ: Expr) -> Option<Statement> {
    Some(Statement::Axiom(Axiom { name: name(n), typ }))
}

fn claimed(n: &str, typ: Expr) -> Option<Statement> {
    Some(Statement::TH(Theorem { name: name(n), typ }))
}

fn proved(n: &str, value: Expr) -> Option<Statement> {
    Some(Statement::PF(Proof { name: name(n), value }))
}

fn show(s: &Option<Statement>) -> String {
    format!("{:?}", s)
}

fn tokens(line: &str) -> String {
    format!("{:?}", tokenize(line))
}

fn accepted(line: &str, ctx: &mut Context, trk: &mut SubstTracker) -> bool {
    matches!(process(line, ctx, trk), Reply::Accepted)
}

fn refused(line: &str, ctx: &mut Context, trk: &mut SubstTracker) -> Option<String> {
    match process(line, ctx, trk) {
        Reply::Refused(message) => Some(message),
        _ => None,
    }
}

#[test]
fn words_and_signs() {
    assert_eq!(
        tokens("axiom Nat : U0."),
        format!(
            "{:?}",
            Some(vec![
                Token::Axiom,
                Token::Ident("Nat".to_string()),
                Token::Colon,
                Token::Universe(0),
                Token::Dot
            ])
        )
    );
    assert_eq!(
        tokens("proof t:=(λ x:U12,Π y_1:x,y_1)."),
        format!(
            "{:?}",
            Some(vec![
                Token::Proof,
                Token::Ident("t".to_string()),
                Token::Define,
                Token::Open,
                Token::Lambda,
                Token::Ident("x".to_string()),
                Token::Colon,
                Token::Universe(12),
                Token::Comma,
                Token::Pi,
                Token::Ident("y_1".to_string()),
                Token::Colon,
                Token::Ident("x".to_string()),
                Token::Comma,
                Token::Ident("y_1".to_string()),
                Token::Close,
                Token::Dot
            ])
        )
    );
    assert_eq!(tokens(""), format!("{:?}", Some(Vec::<Token>::new())));
    assert_eq!(tokens(" \t\r\n "), format!("{:?}", Some(Vec::<Token>::new())));
    assert_eq!(tokens("theorem"), format!("{:?}", Some(vec![Token::Theorem])));
}

#[test]
fn universes_and_names() {
    assert_eq!(tokens("U"), format!("{:?}", Some(vec![Token::Ident("U".to_string())])));
    assert_eq!(tokens("U0x"), format!("{:?}", Some(vec![Token::Ident("U0x".to_string())])));
    assert_eq!(tokens("Ux"), format!("{:?}", Some(vec![Token::Ident("Ux".to_string())])));
    assert_eq!(tokens("u0"), format!("{:?}", Some(vec![Token::Ident("u0".to_string())])));
    assert_eq!(tokens("U007"), format!("{:?}", Some(vec![Token::Universe(7)])));
    assert_eq!(tokens("_U1"), format!("{:?}", Some(vec![Token::Ident("_U1".to_string())])));
    assert_eq!(tokens("axioms"), format!("{:?}", Some(vec![Token::Ident("axioms".to_string())])));
    assert_eq!(tokens("Proof"), format!("{:?}", Some(vec![Token::Ident("Proof".to_string())])));
    assert_eq!(
        tokens("U340282366920938463463374607431768211455"),
        format!("{:?}", Some(vec![Token::Universe(u128::MAX)]))
    );
    assert!(tokenize("U340282366920938463463374607431768211456").is_none());
    assert!(tokenize("U3402823669209384634633746074317682114550").is_none());
    assert!(tokenize("U999999999999999999999999999999999999999999999").is_none());
}

#[test]
fn characters_outside_the_syntax() {
    assert!(tokenize("axiom Nat : U0;").is_none());
    assert!(tokenize("1x").is_none());
    assert!(tokenize("a = b").is_none());
    assert!(tokenize("α").is_none());
    assert!(tokenize("x'").is_none());
    assert!(parse("axiom Nat : U0;").is_none());
}

#[test]
fn statements() {
    assert_eq!(show(&parse("axiom Nat : U0.")), show(&stated("Nat", uni(0))));
    assert_eq!(show(&parse("axiom z : Nat.")), show(&stated("z", var("Nat"))));
    assert_eq!(show(&parse("  theorem T:U3 .  ")), show(&claimed("T", uni(3))));
    assert_eq!(show(&parse("proof T := Nat.")), show(&proved("T", var("Nat"))));
    assert_eq!(
        show(&parse("theorem id : Π A : U0, Π x : A, A.")),
        show(&claimed("id", pi("A", uni(0), pi("x", var("A"), var("A")))))
    );
    assert_eq!(
        show(&parse("proof id := λ A : U0, λ x : A, x.")),
        show(&proved("id", lam("A", uni(0), lam("x", var("A"), var("x")))))
    );
}

#[test]
fn application_associates_to_the_left() {
    assert_eq!(
        show(&parse("axiom a : f x y z.")),
        show(&stated("a", app(app(app(var("f"), var("x")), var("y")), var("z"))))
    );
    assert_eq!(
        show(&parse("axiom a : f (x y) U1 (z).")),
        show(&stated("a", app(app(app(var("f"), app(var("x"), var("y"))), uni(1)), var("z"))))
    );
    assert_eq!(show(&parse("axiom a : ((f)).")), show(&stated("a", var("f"))));
}

#[test]
fn binders_reach_as_far_as_they_can() {
    assert_eq!(
        show(&parse("axiom a : λ x : A, f x.")),
        show(&stated("a", lam("x", var("A"), app(var("f"), var("x")))))
    );
    assert_eq!(
        show(&parse("axiom a : (λ x : A, f) x.")),
        show(&stated("a", app(lam("x", var("A"), var("f")), var("x"))))
    );
    assert_eq!(
        show(&parse("axiom a : λ x : Π y : U0, y, x.")),
        show(&stated("a", lam("x", pi("y", uni(0), var("y")), var("x"))))
    );
    assert_eq!(
        show(&parse("axiom a : Π x : f a, g x (λ y : x, y).")),
        show(&stated(
            "a",
            pi(
                "x",
                app(var("f"), var("a")),
                app(app(var("g"), var("x")), lam("y", var("x"), var("y")))
            )
        ))
    );
}

#[test]
fn lines_that_are_no_statements() {
    assert!(parse("").is_none());
    assert!(parse("axiom").is_none());
    assert!(parse("axiom Nat").is_none());
    assert!(parse("axiom Nat : U0").is_none());
    assert!(parse("axiom Nat : .").is_none());
    assert!(parse("axiom Nat := U0.").is_none());
    assert!(parse("theorem T := U0.").is_none());
    assert!(parse("proof T : U0.").is_none());
    assert!(parse("axiom U0 : U1.").is_none());
    assert!(parse("axiom axiom : U1.").is_none());
    assert!(parse("axiom a : proof.").is_none());
    assert!(parse("axiom Nat : U0. U0").is_none());
    assert!(parse("axiom Nat : U0..").is_none());
    assert!(parse("axiom a : (f x.").is_none());
    assert!(parse("axiom a : f x).").is_none());
    assert!(parse("axiom a : ().").is_none());
    assert!(parse("axiom a : λ x, x.").is_none());
    assert!(parse("axiom a : λ x : A x.").is_none());
    assert!(parse("axiom a : λ x : A, .").is_none());
    assert!(parse("axiom a : λ U0 : A, x.").is_none());
    assert!(parse("axiom a : f λ x : A, x.").is_none());
    assert!(parse("Nat : U0.").is_none());
    assert!(parse_tokens(&vec![Token::Axiom, Token::Colon]).is_none());
    assert!(parse_tokens(&Vec::new()).is_none());
}

#[test]
fn tokens_make_up_a_statement() {
    let tokens = vec![
        Token::Proof,
        Token::Ident("p".to_string()),
        Token::Define,
        Token::Ident("f".to_string()),
        Token::Universe(2),
        Token::Dot,
    ];
    assert_eq!(show(&parse_tokens(&tokens)), show(&proved("p", app(var("f"), uni(2)))));
}

#[test]
fn conversions_wrap_binders() {
    let p: Pi = Abstraction { x: name("x"), t: Box::new(uni(0)), e: Box::new(var("x")), _ty: PhantomData };
    let l: Lambda =
        Abstraction { x: name("x"), t: Box::new(uni(0)), e: Box::new(var("x")), _ty: PhantomData };
    assert_eq!(format!("{:?}", Expr::from(p)), format!("{:?}", pi("x", uni(0), var("x"))));
    assert_eq!(format!("{:?}", Expr::from(l)), format!("{:?}", lam("x", uni(0), var("x"))));
}

#[test]
fn session_two_axioms() {
    let mut ctx = Context::new();
    let mut trk = SubstTracker::new();
    assert!(accepted("axiom Nat : U0.", &mut ctx, &mut trk));
    assert!(accepted("axiom z : Nat.", &mut ctx, &mut trk));
    assert!(ctx.is_axiom(&name("Nat")));
    assert!(ctx.is_axiom(&name("z")));
}

#[test]
fn session_identity() {
    let mut ctx = Context::new();
    let mut trk = SubstTracker::new();
    assert!(accepted("theorem id : Π A : U0, Π x : A, A.", &mut ctx, &mut trk));
    assert!(ctx.is_unproven_theory(&name("id")));
    assert_eq!(
        refused("proof id := λ A : U0, λ x : A, A.", &mut ctx, &mut trk),
        Some("Types do not match".to_string())
    );
    assert!(ctx.is_unproven_theory(&name("id")));
    assert!(accepted("proof id := λ A : U0, λ x : A, x.", &mut ctx, &mut trk));
    assert!(ctx.is_proven_theory(&name("id")));
    // Bound names do not matter.
    assert!(accepted("proof id := λ B : U0, λ y : B, y.", &mut ctx, &mut trk));
    assert_eq!(
        format!("{:?}", ctx.lookup_value(&name("id"))),
        format!("{:?}", Some(&lam("B", uni(0), lam("y", var("B"), var("y")))))
    );
}

#[test]
fn session_refusals() {
    let mut ctx = Context::new();
    let mut trk = SubstTracker::new();
    assert!(accepted("axiom Nat : U0.", &mut ctx, &mut trk));
    assert_eq!(
        refused("axiom Nat : U0.", &mut ctx, &mut trk),
        Some("Axiom or theorem with the same name already exists".to_string())
    );
    assert_eq!(
        refused("proof nonexistent := λ A : U0, A.", &mut ctx, &mut trk),
        Some("Bound variable is not found".to_string())
    );
    assert_eq!(
        refused("proof Nat := U0.", &mut ctx, &mut trk),
        Some("Axioms cannot be proven".to_string())
    );
    assert_eq!(
        refused("axiom bad : Unknown.", &mut ctx, &mut trk),
        Some("Expression does not type check".to_string())
    );
    assert!(matches!(process("axiom bad Unknown.", &mut ctx, &mut trk), Reply::NotAStatement));
    assert!(!ctx.contains(&name("bad")));
}

#[test]
fn session_theorem_proved_by_an_axiom() {
    let mut ctx = Context::new();
    let mut trk = SubstTracker::new();
    assert!(accepted("axiom Nat : U0.", &mut ctx, &mut trk));
    assert!(accepted("theorem T : U0.", &mut ctx, &mut trk));
    assert!(accepted("proof T := Nat.", &mut ctx, &mut trk));
    assert_eq!(format!("{:?}", ctx.lookup_value(&name("T"))), format!("{:?}", Some(&var("Nat"))));
}

#[test]
fn session_uses_what_was_proved() {
    let mut ctx = Context::new();
    let mut trk = SubstTracker::new();
    assert!(accepted("axiom Nat : U0.", &mut ctx, &mut trk));
    assert!(accepted("axiom z : Nat.", &mut ctx, &mut trk));
    assert!(accepted("theorem id : Π A : U0, Π x : A, A.", &mut ctx, &mut trk));
    assert!(accepted("proof id := λ A : U0, λ x : A, x.", &mut ctx, &mut trk));
    assert!(accepted("theorem again : Nat.", &mut ctx, &mut trk));
    assert!(accepted("proof again := id Nat z.", &mut ctx, &mut trk));
    assert!(accepted("theorem N : U0.", &mut ctx, &mut trk));
    // There is no cumulativity: `U0` is no inhabitant of `U0`.
    assert_eq!(
        refused("proof N := id U0 Nat.", &mut ctx, &mut trk),
        Some("Expression does not type check".to_string())
    );
    assert!(accepted("proof N := Nat.", &mut ctx, &mut trk));
    // `N` unfolds to `Nat`.
    assert!(accepted("theorem third : N.", &mut ctx, &mut trk));
    assert!(accepted("proof third := z.", &mut ctx, &mut trk));
}
