use idris_native::errors::CompilerError;
use idris_native::multiplicity::Multiplicity;
use idris_native::parser::Parser;
use idris_native::scanner::{lex, Scanner, Token};
use idris_native::term::Term;

fn parse(source: &str) -> Vec<Term> {
    let tokens = lex(source).expect("Lexing failed");
    let mut parser = Parser::new(tokens);
    parser.parse_program().expect("Parsing failed")
}

#[test]
fn test_scanner_unknown_character_returns_err() {
    let source = "main = @";
    let result = lex(source);

    assert!(result.is_err(), "Expected LexError for unknown character '@'");
    if let Err(CompilerError::Lex(e)) = result {
        assert_eq!(e.character, '@');
        assert_eq!(e.span.line, 1);
    } else {
        panic!("Expected Lex error variant");
    }
}

#[test]
fn test_parser_syntax_error_returns_err() {
    let source = "main = 42";
    let tokens = lex(source).expect("Lexing should succeed for valid characters");
    let mut parser = Parser::new(tokens);

    let result = parser.parse_program();
    assert!(result.is_err(), "Expected ParseError for invalid signature");
    if let Err(CompilerError::Parse(e)) = result {
        assert!(e.message.contains("Expected :"));
    } else {
        panic!("Expected Parse error variant");
    }
}

#[test]
fn test_parse_module_and_import() {
    let source = "module Main\nimport Data.Buffer\nmain : Integer\nmain = 42";
    let decls = parse(source);
    assert_eq!(decls.len(), 4);

    match &decls[0] {
        Term::Module(n) => assert_eq!(n, "Main"),
        _ => panic!("Expected Module, got {:?}", decls[0]),
    }

    match &decls[1] {
        Term::Import(n) => assert_eq!(n, "Data.Buffer"),
        _ => panic!("Expected Import, got {:?}", decls[1]),
    }
}

#[test]
fn test_parse_data_type() {
    let source = "data Bool = False | True";
    let decls = parse(source);
    assert_eq!(decls.len(), 1);

    match &decls[0] {
        Term::Data(name, _params, constructors) => {
            assert_eq!(name, "Bool");
            assert_eq!(constructors.len(), 2);
            assert_eq!(constructors[0].name, "False");
            assert_eq!(constructors[1].name, "True");
        }
        _ => panic!("Expected Data, got {:?}", decls[0]),
    }
}

#[test]
fn test_hypothesis_signature_boundary() {
    let source = "ack : Integer -> Integer\nack m = m";
    let mut scanner = Scanner::new(source);
    let tokens = scanner.scan_tokens().expect("Lexing failed");

    let mut parser = Parser::new(tokens);
    let (_name, _sig) = parser.parse_signature().expect("Parsing failed");

    let next_token = parser.peek();
    assert!(matches!(next_token, Token::Identifier(n) if n == "ack"),
            "Hypothesis Check: Parser should be at 'ack', but is at {:?}", next_token);
}

#[test]
fn test_parse_linear_pi_type() {
    let source = "linear_use : (1 x : Integer) -> Integer\nlinear_use x = x";
    let decls = parse(source);
    let sig = &decls[0];

    match sig {
        Term::Pi(name, mult, _ty, _body) => {
            assert_eq!(name, "x");
            assert_eq!(*mult, Multiplicity::One);
        }
        _ => panic!("Expected Pi type, got {:?}", sig),
    }
}

#[test]
fn test_parse_erased_pi_type() {
    let source = "erased_use : (0 ty : Integer) -> Integer\nerased_use x = 42";
    let decls = parse(source);
    let sig = &decls[0];

    match sig {
        Term::Pi(name, mult, _ty, _body) => {
            assert_eq!(name, "ty");
            assert_eq!(*mult, Multiplicity::Zero);
        }
        _ => panic!("Expected Pi type, got {:?}", sig),
    }
}

#[test]
fn test_lex_official_tokens() {
    let source = "xor .&. .|. shiftL shiftR complement buffer getBits64 setBits64";
    let tokens = lex(source).expect("Lexing failed");

    let nodes: Vec<Token> = tokens.iter().map(|t| t.node.clone()).collect();
    assert!(nodes.contains(&Token::Xor));
    assert!(nodes.contains(&Token::BitAnd));
    assert!(nodes.contains(&Token::BitOr));
    assert!(nodes.contains(&Token::ShiftL));
    assert!(nodes.contains(&Token::ShiftR));
    assert!(nodes.contains(&Token::Complement));
}

#[test]
fn test_parse_buffer_ops() {
    let source = "buf_test : Integer -> Integer
buf_test n = let b = buffer 64 in setBits64 b 0 n";
    let decls = parse(source);
    assert_eq!(decls.len(), 2);

    match &decls[1] {
        Term::Def(name, args, body) => {
            assert_eq!(name, "buf_test");
            assert_eq!(args.len(), 1);
            match &**body {
                Term::Let(_, _val, inner) => match &**inner {
                    Term::BufferStore(_, _, _) => (),
                    _ => panic!("Expected BufferStore, got {:?}", inner),
                },
                _ => panic!("Expected Let for buffer binding, got {:?}", body),
            }
        }
        _ => panic!("Expected Def, got {:?}", decls[1]),
    }
}

#[test]
fn test_parse_official_bitwise_operators() {
    let source = "bit_test : Bits64 -> Bits64 -> Bits64
bit_test a b = ( a `xor` b ) .&. ( a .|. b )";
    let decls = parse(source);
    match &decls[1] {
        Term::Def(name, args, body) => {
            assert_eq!(name, "bit_test");
            assert_eq!(args.len(), 2);
            match &**body {
                Term::BitAnd(_, _) => (),
                _ => panic!("Expected BitAnd at top level, got {:?}", body),
            }
        }
        _ => panic!("Expected Def, got {:?}", decls[1]),
    }
}

#[test]
fn test_parse_word_types() {
    let source = "type_test : Bits64 -> I32 -> I8 -> Integer
type_test a b c = 42";
    let decls = parse(source);
    assert_eq!(decls.len(), 2);
}

#[test]
fn test_parse_let_binding() {
    let source = "let_test : Integer -> Integer
let_test x = let y = x + 1 in y";
    let decls = parse(source);
    match &decls[1] {
        Term::Def(name, _args, body) => {
            assert_eq!(name, "let_test");
            match &**body {
                Term::Let(n, _, _) => assert_eq!(n, "y"),
                _ => panic!("Expected Let, got {:?}", body),
            }
        }
        _ => panic!("Expected Def, got {:?}", decls[1]),
    }
}

#[test]
fn test_modifier_keeps_declaration() {
    for modifier in ["public export", "export", "total", "partial", "covering"] {
        let with_modifier = format!("{}\nf : Integer -> Integer", modifier);
        let mut a = Parser::new(lex(&with_modifier).expect("Lexing failed"));
        let mut b = Parser::new(lex("f : Integer -> Integer").expect("Lexing failed"));
        let ta = a.parse_declaration().expect("Parsing failed");
        let tb = b.parse_declaration().expect("Parsing failed");
        assert_eq!(format!("{:?}", ta), format!("{:?}", tb));
    }
}
