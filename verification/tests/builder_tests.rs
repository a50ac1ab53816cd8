use lsystem::arena::Arena;
use lsystem::builder::{build_rules_string, render_tokens, LSystemBuilder, ProductionRule};
use lsystem::errors::LSystemError;
use lsystem::token::Token;

#[test]
fn test_builder_invalid_token() {
    let mut builder = LSystemBuilder::new();

    let _daisy = builder.token("daisy").unwrap();

    // make sure we can't add a token with a space in it
    assert!(builder.token("space cadet").is_err());
}

#[test]
fn test_builder_axiom_and_transformation_rule_errors() {
    let mut builder = LSystemBuilder::new();

    let x = builder.token("x").unwrap();
    let y = builder.token("y").unwrap();

    let mut some_other_builder = LSystemBuilder::new();

    // `x` won't be valid for an empty builder
    assert!(some_other_builder.set_axiom(vec![x]).is_err());

    let q = some_other_builder.token("q").unwrap();

    // make sure `y` still isn't valid
    assert!(some_other_builder.set_axiom(vec![y]).is_err());

    // similarly trying to add a transformation rule should go badly.
    assert!(some_other_builder
        .production_rule(q, vec![x, y, q])
        .is_err());
    assert!(some_other_builder.production_rule(y, vec![q, q]).is_err());
}

#[test]
fn builder_reports_first_invalid_id() {
    let mut builder = LSystemBuilder::new();
    let a = builder.token("A").unwrap();
    let mut other = LSystemBuilder::new();
    let q = other.token("q").unwrap();

    // `a` is valid for `other` only by accident of sharing index 0; an
    // identifier from a longer arena is not.
    let mut third = LSystemBuilder::new();
    let _t0 = third.token("t0").unwrap();
    let t1 = third.token("t1").unwrap();

    assert_eq!(
        other.set_axiom(vec![q, t1]),
        Err(LSystemError::InvalidTokenId(t1))
    );
    assert_eq!(
        other.production_rule(t1, vec![q]),
        Err(LSystemError::InvalidTokenId(t1))
    );
    assert_eq!(
        other.production_rule(q, vec![a, t1, t1]),
        Err(LSystemError::InvalidTokenId(t1))
    );
}

#[test]
fn finish_without_axiom_is_missing_axiom() {
    let mut builder = LSystemBuilder::new();
    let _a = builder.token("A").unwrap();
    match builder.finish() {
        Err(LSystemError::MissingAxiom) => {}
        other => panic!("expected MissingAxiom, got {:?}", other.map(|_| ())),
    }
}

#[test]
fn first_registered_rule_wins() {
    let mut builder = LSystemBuilder::new();
    let a = builder.token("A").unwrap();
    let b = builder.token("B").unwrap();
    builder.set_axiom(vec![a]).unwrap();
    builder.production_rule(a, vec![a, b]).unwrap();
    // a later duplicate for the same predecessor is ignored
    builder.production_rule(a, vec![b]).unwrap();
    builder.production_rule(b, vec![a]).unwrap();

    let mut system = builder.finish().unwrap();
    system.step();
    assert_eq!(system.render(), "AB");
}

#[test]
fn rules_render_as_text() {
    let mut arena = Arena::new();
    let a = arena.push_token(Token::new("A").unwrap()).unwrap();
    let b = arena.push_token(Token::new("B").unwrap()).unwrap();

    let rules = vec![
        ProductionRule::new(a, vec![a, b]),
        ProductionRule::new(b, vec![a]),
    ];

    assert_eq!(render_tokens(&arena, &[a, b, a]), "ABA");
    assert_eq!(build_rules_string(&rules, &arena), "A => AB,B => A");
}
