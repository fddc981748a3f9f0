use idris_native::arena::{arena_alloc, Arena};
use idris_native::evaluator::Evaluator;
use idris_native::term::Term;

fn identity_applied_to_42() -> Term {
    let x_var = Term::Var("x".to_string());
    let int_type = Term::IntegerType;
    let lambda = Term::Lambda("x".to_string(), Box::new(int_type), Box::new(x_var));
    let forty_two = Term::Integer(42);
    Term::App(Box::new(lambda), Box::new(forty_two))
}

#[test]
fn test_eval_app_lambda() {
    let evaluator = Evaluator::new();
    let app = identity_applied_to_42();

    let result = evaluator.eval(&app);

    match result {
        Term::Integer(n) => assert_eq!(n, 42),
        _ => panic!("Expected Integer(42), got {:?}", result),
    }
}

#[test]
fn test_ackermann() {
    let _arena: Arena<Term> = Arena::new();
    let evaluator = Evaluator::new();

    let result = evaluator.eval_ackermann(1, 1);
    assert_eq!(result, 3);

    let result_2_2 = evaluator.eval_ackermann(2, 2);
    assert_eq!(result_2_2, 7);
}

#[test]
fn test_evaluator_uses_arena() {
    let mut arena = Arena::new();
    let evaluator = Evaluator::new();

    let app = arena_alloc(&mut arena, identity_applied_to_42());

    let result = evaluator.eval(arena.get(app));
    if let Term::Integer(val) = result {
        assert_eq!(val, 42);
    } else {
        panic!("Expected Integer(42), got {:?}", result);
    }
}

#[test]
fn test_ackermann_base_cases() {
    let evaluator = Evaluator::new();
    assert_eq!(evaluator.eval_ackermann(0, 5), 6);
    assert_eq!(evaluator.eval_ackermann(1, 0), 2);
    assert_eq!(evaluator.eval_ackermann(2, 3), 9);
    assert_eq!(evaluator.eval_ackermann(3, 3), 61);
}

#[test]
fn test_eval_arithmetic_and_conditionals() {
    let evaluator = Evaluator::new();
    let sum = Term::Add(Box::new(Term::Integer(40)), Box::new(Term::Integer(2)));
    match evaluator.eval(&sum) {
        Term::Integer(n) => assert_eq!(n, 42),
        other => panic!("Expected Integer(42), got {:?}", other),
    }
    let diff = Term::Sub(Box::new(Term::Integer(2)), Box::new(Term::Integer(5)));
    match evaluator.eval(&diff) {
        Term::Integer(n) => assert_eq!(n, -3),
        other => panic!("Expected Integer(-3), got {:?}", other),
    }
    let cond = Term::If(
        Box::new(Term::Integer(0)),
        Box::new(Term::Integer(1)),
        Box::new(Term::Integer(2)),
    );
    match evaluator.eval(&cond) {
        Term::Integer(n) => assert_eq!(n, 2),
        other => panic!("Expected Integer(2), got {:?}", other),
    }
    let stuck = Term::Add(Box::new(Term::Var("y".to_string())), Box::new(Term::Integer(1)));
    match evaluator.eval(&stuck) {
        Term::Add(l, r) => {
            assert!(matches!(*l, Term::Var(ref n) if n == "y"));
            assert!(matches!(*r, Term::Integer(1)));
        }
        other => panic!("Expected Add, got {:?}", other),
    }
}

#[test]
fn test_eval_let_substitutes_value() {
    let evaluator = Evaluator::new();
    let body = Term::Add(Box::new(Term::Var("x".to_string())), Box::new(Term::Var("x".to_string())));
    let let_term = Term::Let(
        "x".to_string(),
        Box::new(Term::Add(Box::new(Term::Integer(1)), Box::new(Term::Integer(2)))),
        Box::new(body),
    );
    match evaluator.eval(&let_term) {
        Term::Integer(n) => assert_eq!(n, 6),
        other => panic!("Expected Integer(6), got {:?}", other),
    }
}

#[test]
fn test_eval_bounded_overflow_and_fuel() {
    let evaluator = Evaluator::new();
    let overflow = Term::Add(Box::new(Term::Integer(i64::MAX)), Box::new(Term::Integer(1)));
    assert!(evaluator.eval_bounded(&overflow, 10).is_none());
    let sum = Term::Add(Box::new(Term::Integer(1)), Box::new(Term::Integer(1)));
    assert!(evaluator.eval_bounded(&sum, 1).is_none());
    match evaluator.eval_bounded(&sum, 2) {
        Some(Term::Integer(n)) => assert_eq!(n, 2),
        other => panic!("Expected Some(Integer(2)), got {:?}", other),
    }
}

#[test]
fn test_substitute_respects_shadowing() {
    let evaluator = Evaluator::new();
    let shadowing = Term::Lambda(
        "x".to_string(),
        Box::new(Term::IntegerType),
        Box::new(Term::Var("x".to_string())),
    );
    match evaluator.substitute(&shadowing, "x", &Term::Integer(7)) {
        Term::Lambda(n, _, body) => {
            assert_eq!(n, "x");
            assert!(matches!(*body, Term::Var(ref v) if v == "x"));
        }
        other => panic!("Expected Lambda, got {:?}", other),
    }
    let open = Term::Add(Box::new(Term::Var("x".to_string())), Box::new(Term::Var("z".to_string())));
    match evaluator.substitute(&open, "x", &Term::Integer(7)) {
        Term::Add(l, r) => {
            assert!(matches!(*l, Term::Integer(7)));
            assert!(matches!(*r, Term::Var(ref v) if v == "z"));
        }
        other => panic!("Expected Add, got {:?}", other),
    }
}

#[test]
fn test_substitute_renames_capturing_binder() {
    let evaluator = Evaluator::new();
    let body = Term::Lambda(
        "y".to_string(),
        Box::new(Term::IntegerType),
        Box::new(Term::Var("x".to_string())),
    );
    match evaluator.substitute(&body, "x", &Term::Var("y".to_string())) {
        Term::Lambda(n, _, b) => {
            assert_eq!(n, "y'");
            match *b {
                Term::Var(v) => assert_eq!(v, "y"),
                other => panic!("Expected Var(y), got {:?}", other),
            }
        },
        other => panic!("Expected a lambda, got {:?}", other),
    }
}

#[test]
fn test_substitute_keeps_binder_without_capture() {
    let evaluator = Evaluator::new();
    let body = Term::Lambda(
        "y".to_string(),
        Box::new(Term::IntegerType),
        Box::new(Term::Var("x".to_string())),
    );
    match evaluator.substitute(&body, "x", &Term::Var("z".to_string())) {
        Term::Lambda(n, _, b) => {
            assert_eq!(n, "y");
            match *b {
                Term::Var(v) => assert_eq!(v, "z"),
                other => panic!("Expected Var(z), got {:?}", other),
            }
        },
        other => panic!("Expected a lambda, got {:?}", other),
    }
}

#[test]
fn test_substitute_renames_case_argument() {
    let evaluator = Evaluator::new();
    let body = Term::Case(
        Box::new(Term::Var("t".to_string())),
        vec![(
            "Just".to_string(),
            vec!["y".to_string()],
            Box::new(Term::App(Box::new(Term::Var("x".to_string())), Box::new(Term::Var("y".to_string())))),
        )],
    );
    match evaluator.substitute(&body, "x", &Term::Var("y".to_string())) {
        Term::Case(_, branches) => {
            assert_eq!(branches[0].1, vec!["y'".to_string()]);
            match &*branches[0].2 {
                Term::App(f, a) => {
                    assert!(matches!(&**f, Term::Var(v) if v == "y"));
                    assert!(matches!(&**a, Term::Var(v) if v == "y'"));
                },
                other => panic!("Expected an application, got {:?}", other),
            }
        },
        other => panic!("Expected a case, got {:?}", other),
    }
}
