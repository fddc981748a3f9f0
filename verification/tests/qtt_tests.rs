use idris_native::arena::{arena_alloc, Arena};
use idris_native::multiplicity::Multiplicity;
use idris_native::qtt::QttChecker;
use idris_native::term::Term;

fn var(name: &str) -> Box<Term> {
    Box::new(Term::Var(name.to_string()))
}

#[test]
fn test_elaborate_maybe_adt() {
    let checker = QttChecker::new();
    let success = checker.elaborate_adt("Maybe");
    assert!(success);
}

#[test]
fn test_elaborate_show_interface() {
    let checker = QttChecker::new();
    let success = checker.elaborate_interface("Show");
    assert!(success);
}

#[test]
fn test_check_multiplicity_usage() {
    let checker = QttChecker::new();

    let success = checker.check_usage(Multiplicity::One, 1);
    assert!(success);

    let fail = checker.check_usage(Multiplicity::One, 2);
    assert!(!fail);
}

#[test]
fn test_buffer_valid_access() {
    let mut arena: Arena<Term> = Arena::new();
    let checker = QttChecker::new();

    let load = arena_alloc(
        &mut arena,
        Term::BufferLoad(Box::new(Term::Buffer(64)), Box::new(Term::Integer(10))),
    );

    assert!(checker.check_term(arena.get(load)));
}

#[test]
fn test_buffer_out_of_bounds_access() {
    let mut arena: Arena<Term> = Arena::new();
    let checker = QttChecker::new();

    let load = arena_alloc(
        &mut arena,
        Term::BufferLoad(Box::new(Term::Buffer(64)), Box::new(Term::Integer(100))),
    );

    assert!(!checker.check_term(arena.get(load)));
}

#[test]
fn test_hypothesis_qtt_if_branches() {
    let checker = QttChecker::new();

    let body = Term::If(var("cond"), var("x"), var("x"));

    assert!(
        checker.check_multiplicity("x", Multiplicity::One, &body),
        "Hypothesis Proof: QttChecker should allow linear variable in mutual exclusive branches."
    );
}

#[test]
fn test_linear_variable_used_once() {
    let checker = QttChecker::new();

    let body = Term::Var("x".to_string());

    assert!(checker.check_multiplicity("x", Multiplicity::One, &body));
}

#[test]
fn test_linear_variable_used_twice_fails() {
    let checker = QttChecker::new();

    let body = Term::Add(var("x"), var("x"));

    assert!(!checker.check_multiplicity("x", Multiplicity::One, &body));
}

#[test]
fn test_linear_variable_in_if_branches() {
    let mut arena: Arena<Term> = Arena::new();
    let checker = QttChecker::new();

    let body = arena_alloc(
        &mut arena,
        Term::If(Box::new(Term::Integer(1)), var("x"), var("x")),
    );

    assert!(checker.check_multiplicity("x", Multiplicity::One, arena.get(body)));
}

#[test]
fn test_erased_and_unrestricted_multiplicities() {
    let checker = QttChecker::new();
    let body = Term::Add(var("x"), var("x"));
    assert!(!checker.check_multiplicity("x", Multiplicity::Zero, &body));
    assert!(checker.check_multiplicity("x", Multiplicity::Many, &body));
    assert!(checker.check_multiplicity("y", Multiplicity::Zero, &body));
    assert!(checker.check_usage(Multiplicity::Zero, 0));
    assert!(!checker.check_usage(Multiplicity::Zero, 1));
    assert!(checker.check_usage(Multiplicity::Many, 7));
}

#[test]
fn test_shadowed_variable_is_not_counted() {
    let checker = QttChecker::new();
    let body = Term::Add(
        var("x"),
        Box::new(Term::Lambda("x".to_string(), Box::new(Term::IntegerType), var("x"))),
    );
    assert!(checker.check_multiplicity("x", Multiplicity::One, &body));
    let let_body = Term::Let("x".to_string(), var("x"), var("x"));
    assert!(checker.check_multiplicity("x", Multiplicity::Zero, &let_body));
}

#[test]
fn test_case_branches_take_the_largest_use() {
    let checker = QttChecker::new();
    let branches = vec![
        ("Just".to_string(), vec!["y".to_string()], Box::new(Term::Add(var("x"), var("y")))),
        ("Nothing".to_string(), vec![], var("x")),
        ("Other".to_string(), vec!["x".to_string()], Box::new(Term::Add(var("x"), var("x")))),
    ];
    let case_term = Term::Case(var("m"), branches);
    assert!(checker.check_multiplicity("x", Multiplicity::One, &case_term));
}

#[test]
fn test_buffer_store_bounds() {
    let checker = QttChecker::new();
    let ok = Term::BufferStore(
        Box::new(Term::Buffer(8)),
        Box::new(Term::Integer(7)),
        Box::new(Term::Integer(1)),
    );
    assert!(checker.check_term(&ok));
    let negative = Term::BufferStore(
        Box::new(Term::Buffer(8)),
        Box::new(Term::Integer(-1)),
        Box::new(Term::Integer(1)),
    );
    assert!(!checker.check_term(&negative));
    let nested = Term::Add(
        Box::new(Term::Integer(1)),
        Box::new(Term::BufferLoad(Box::new(Term::Buffer(8)), Box::new(Term::Integer(8)))),
    );
    assert!(!checker.check_term(&nested));
}
