use idris_native::driver::definition_module;
use idris_native::errors::CompilerError;
use idris_native::parser::Parser;
use idris_native::repl::ReplSession;
use idris_native::scanner::{lex, Token};
use idris_native::term::{Constructor, Term};

fn expr(source: &str) -> Result<Term, CompilerError> {
    let tokens = lex(source).expect("Lexing failed");
    let mut parser = Parser::new(tokens);
    parser.parse_expr()
}

fn program(source: &str) -> Result<Vec<Term>, CompilerError> {
    let tokens = lex(source).expect("Lexing failed");
    let mut parser = Parser::new(tokens);
    parser.parse_program()
}

fn show<T: std::fmt::Debug>(t: &T) -> String {
    format!("{:?}", t)
}

fn lit(v: i64) -> Box<Term> {
    Box::new(Term::Integer(v))
}

fn var(n: &str) -> Box<Term> {
    Box::new(Term::Var(n.to_string()))
}

fn parse_message(r: Result<Term, CompilerError>) -> (String, Token) {
    match r {
        Err(CompilerError::Parse(e)) => (e.message, e.token),
        other => panic!("Expected a parse error, got {:?}", other),
    }
}

#[test]
fn multiplication_binds_tighter_than_addition() {
    let t = expr("1 + 2 * 3").unwrap();
    assert_eq!(show(&t), show(&Term::Add(lit(1), Box::new(Term::Mul(lit(2), lit(3))))));
}

#[test]
fn subtraction_associates_to_the_left() {
    let t = expr("1 - 2 - 3").unwrap();
    assert_eq!(show(&t), show(&Term::Sub(Box::new(Term::Sub(lit(1), lit(2))), lit(3))));
}

#[test]
fn application_associates_to_the_left() {
    let t = expr("f x y").unwrap();
    assert_eq!(show(&t), show(&Term::App(Box::new(Term::App(var("f"), var("x"))), var("y"))));
}

#[test]
fn xor_binds_looser_than_bitwise_and() {
    let t = expr("a `xor` b .&. c").unwrap();
    assert_eq!(show(&t), show(&Term::BitXor(var("a"), Box::new(Term::BitAnd(var("b"), var("c"))))));
}

#[test]
fn comparison_binds_loosest() {
    let t = expr("x + 1 == 2").unwrap();
    assert_eq!(show(&t), show(&Term::Eq(Box::new(Term::Add(var("x"), lit(1))), lit(2))));
}

#[test]
fn let_without_in_uses_its_value_as_body() {
    let t = expr("let y = 5").unwrap();
    assert_eq!(show(&t), show(&Term::Let("y".to_string(), lit(5), lit(5))));
}

#[test]
fn missing_then_is_reported() {
    let (message, token) = parse_message(expr("if 1 else 2"));
    assert_eq!(message, "Expected then");
    assert_eq!(token, Token::Else);
}

#[test]
fn let_without_name_is_reported() {
    let (message, token) = parse_message(expr("let 5 = 1"));
    assert_eq!(message, "Expected identifier in let");
    assert_eq!(token, Token::Integer(5));
}

#[test]
fn unclosed_parenthesis_is_reported() {
    let (message, _) = parse_message(expr("(1 2"));
    assert_eq!(message, "Expected )");
}

#[test]
fn lambda_without_arrow_is_reported() {
    let (message, _) = parse_message(expr("\\x 1"));
    assert_eq!(message, "Expected => in lambda");
}

#[test]
fn case_without_of_is_reported() {
    let (message, token) = parse_message(expr("case x = 1"));
    assert_eq!(message, "Expected of in case");
    assert_eq!(token, Token::Assign);
}

#[test]
fn case_branches_are_parsed() {
    let t = expr("case n of\n  0 => 1\n  | m => m").unwrap();
    assert_eq!(
        show(&t),
        show(&Term::Case(
            var("n"),
            vec![
                ("0".to_string(), vec![], lit(1)),
                ("m".to_string(), vec![], var("m")),
            ],
        ))
    );
}

#[test]
fn simple_data_type_lists_its_constructors() {
    let decls = program("data Color = Red | Green").unwrap();
    let expected = Term::Data(
        "Color".to_string(),
        vec![],
        vec![
            Constructor { name: "Red".to_string(), fields: vec![] },
            Constructor { name: "Green".to_string(), fields: vec![] },
        ],
    );
    assert_eq!(show(&decls), show(&vec![expected]));
}

#[test]
fn data_without_name_is_reported() {
    match program("data = X") {
        Err(CompilerError::Parse(e)) => assert_eq!(e.message, "Expected data type name"),
        other => panic!("Expected a parse error, got {:?}", other),
    }
}

#[test]
fn where_clause_collects_local_definitions() {
    let decls = program("f : Integer -> Integer\nf x = y\n  where\n    y = x").unwrap();
    assert_eq!(decls.len(), 2);
    match &decls[1] {
        Term::Def(name, args, body) => {
            assert_eq!(name, "f");
            assert_eq!(args, &vec!["x".to_string()]);
            match body.as_ref() {
                Term::Where(inner, locals) => {
                    assert_eq!(show(inner.as_ref()), show(&Term::Var("y".to_string())));
                    assert_eq!(locals.len(), 1);
                },
                other => panic!("Expected Where, got {:?}", other),
            }
        },
        other => panic!("Expected Def, got {:?}", other),
    }
}

#[test]
fn definition_module_lowers_the_function() {
    let defs = definition_module("f x = x + 1").unwrap();
    assert_eq!(defs.len(), 4);
    assert_eq!(defs[0], "define i64 @f(i64 %x) {\nentry:\n  %1 = add i64 %x, 1\n  ret i64 %1\n}");
    assert!(defs[3].contains("call i64 @f(i64 2, i64 2)"));
    assert!(defs[3].contains("@print_int"));
}

#[test]
fn definition_module_reports_an_unused_parameter() {
    let r = definition_module("f x y = x");
    assert_eq!(r, Err("QTT Multiplicity Error: Linear variable 'y' is not used exactly once.".to_string()));
}

#[test]
fn definition_module_reports_an_unlowerable_body() {
    let r = definition_module("f x = x + \"s\"");
    assert_eq!(r, Err("Unsupported term for lowering".to_string()));
}

#[test]
fn definition_module_needs_a_definition() {
    assert_eq!(definition_module("1 = 2"), Err("Expected identifier in definition".to_string()));
    assert_eq!(definition_module("f x"), Err("Parsing failed".to_string()));
    assert_eq!(definition_module("f = @"), Err("Lexing failed".to_string()));
}

#[test]
fn repl_answers_types_values_and_definitions() {
    let session = ReplSession::new();
    assert_eq!(session.eval(":t 42"), "Integer");
    assert_eq!(session.eval("2 + 3"), "5");
    assert!(session.eval("data T = A").starts_with("Defined: "));
}
