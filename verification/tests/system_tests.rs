use lsystem::builder::LSystemBuilder;
use lsystem::system::LSystem;

/// The algae system: tokens `A`, `B`, start `[A]`, rules `A -> [A, B]`
/// and `B -> [A]`.
fn algae() -> LSystem {
    let mut builder = LSystemBuilder::new();
    let a = builder.token("A").unwrap();
    let b = builder.token("B").unwrap();
    builder.set_axiom(vec![a]).unwrap();
    builder.production_rule(a, vec![a, b]).unwrap();
    builder.production_rule(b, vec![a]).unwrap();
    builder.finish().unwrap()
}

#[test]
fn algae_scenario() {
    let mut system = algae();

    assert_eq!(system.steps(), 0);
    assert_eq!(system.render(), "A");

    let expected = ["A", "AB", "ABA", "ABAAB", "ABAABABA"];
    let fib = [1, 2, 3, 5, 8, 13, 21, 34];

    for (gen, text) in expected.iter().enumerate() {
        assert_eq!(system.steps(), gen);
        assert_eq!(system.render(), *text);
        system.step();
    }

    system.reset();
    for len in fib {
        assert_eq!(system.get_state().len(), len);
        system.step();
    }
}

#[test]
fn step_by_matches_single_steps() {
    let mut by_bulk = algae();
    let mut by_loop = algae();

    for n in 0..6usize {
        by_bulk.reset();
        by_bulk.step_by(n);

        by_loop.reset();
        for _ in 0..n {
            by_loop.step();
        }

        assert_eq!(by_bulk.get_state(), by_loop.get_state());
        assert_eq!(by_bulk.steps(), n);
        assert_eq!(by_bulk.render(), by_loop.render());
    }
}

#[test]
fn step_by_zero_is_a_no_op() {
    let mut system = algae();
    system.step();
    let before: Vec<_> = system.get_state().to_vec();
    system.step_by(0);
    assert_eq!(system.get_state(), before.as_slice());
    assert_eq!(system.steps(), 1);
}

#[test]
fn reset_restores_start() {
    let mut system = algae();
    let start: Vec<_> = system.get_state().to_vec();

    system.step_by(4);
    assert_eq!(system.steps(), 4);
    assert_ne!(system.get_state(), start.as_slice());

    system.reset();
    assert_eq!(system.get_state(), start.as_slice());
    assert_eq!(system.steps(), 0);
    assert_eq!(system.render(), "A");
}

#[test]
fn unruled_tokens_are_constants() {
    let mut builder = LSystemBuilder::new();
    let f = builder.token("F").unwrap();
    let plus = builder.token("+").unwrap();
    builder.set_axiom(vec![f, plus, f]).unwrap();
    builder.production_rule(f, vec![f, plus]).unwrap();
    // no rule for `+`: it maps to itself
    let mut system = builder.finish().unwrap();

    system.step();
    assert_eq!(system.render(), "F++F+");
    assert_eq!(system.get_state()[1], plus);

    // a system with no explicit rules at all never changes
    let mut constants = LSystemBuilder::new();
    let c = constants.token("c").unwrap();
    constants.set_axiom(vec![c, c]).unwrap();
    let mut still = constants.finish().unwrap();
    still.step_by(3);
    assert_eq!(still.render(), "cc");
    assert_eq!(still.steps(), 3);
}

#[test]
fn parameter_flags_flow_through() {
    let mut builder = LSystemBuilder::new();
    let f12 = builder.token("F12").unwrap();
    let g = builder.token("G").unwrap();

    assert!(f12.has_param());
    assert_eq!(f12.value(), 0);
    assert!(!g.has_param());
    assert_eq!(g.value(), 1);

    builder.set_axiom(vec![f12]).unwrap();
    builder.production_rule(f12, vec![f12, g]).unwrap();
    let mut system = builder.finish().unwrap();
    system.step();
    assert_eq!(system.render(), "F12G");
    assert_eq!(system.get_state(), [f12, g].as_slice());
}
