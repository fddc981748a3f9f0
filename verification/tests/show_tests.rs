use idris_native::multiplicity::Multiplicity;
use idris_native::scanner::{token_text_of, Token};
use idris_native::show::term_text_of;
use idris_native::term::{Constructor, Term};

fn var(n: &str) -> Box<Term> {
    Box::new(Term::Var(n.to_string()))
}

#[test]
fn test_term_text_matches_debug_layout() {
    let terms = vec![
        Term::Def("main".to_string(), vec![], Box::new(Term::Integer(42))),
        Term::Def("f".to_string(), vec!["x".to_string(), "y".to_string()], Box::new(Term::Add(var("x"), var("y")))),
        Term::Lambda("x".to_string(), Box::new(Term::IntegerType), Box::new(Term::Integer(-7))),
        Term::Pi("a".to_string(), Multiplicity::One, Box::new(Term::TypeType), var("a")),
        Term::Case(var("m"), vec![
            ("Just".to_string(), vec!["v".to_string()], var("v")),
            ("Nothing".to_string(), vec![], Box::new(Term::Integer(0))),
        ]),
        Term::Data("Maybe".to_string(), vec!["a".to_string()], vec![
            Constructor { name: "Nothing".to_string(), fields: vec![] },
            Constructor { name: "Just".to_string(), fields: vec![var("a")] },
        ]),
        Term::Record("P".to_string(), vec![("x".to_string(), Box::new(Term::IntegerType))]),
        Term::Do(vec![Term::Bind("l".to_string(), var("getLine")), Term::String("say \"hi\"\n".to_string())]),
        Term::Char('\''),
        Term::Universe(3),
        Term::Buffer(16),
        Term::Where(var("g"), vec![]),
    ];
    for t in &terms {
        assert_eq!(term_text_of(t), format!("{:?}", t));
    }
}

#[test]
fn test_float_shown_as_written() {
    assert_eq!(term_text_of(&Term::Float("1.50".to_string())), "Float(1.50)");
}

#[test]
fn test_token_text_names_the_variant() {
    assert_eq!(token_text_of(&Token::Plus), "Plus");
    assert_eq!(token_text_of(&Token::Colon), "Colon");
    assert_eq!(token_text_of(&Token::Identifier("x".to_string())), "Identifier(\"x\")");
    assert_eq!(token_text_of(&Token::Integer(-5)), "Integer(-5)");
    assert_eq!(token_text_of(&Token::Char('a')), "Char('a')");
    assert_eq!(token_text_of(&Token::EOF), format!("{:?}", Token::EOF));
}
