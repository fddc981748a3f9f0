use idris_native::arena::{arena_alloc, Arena};
use idris_native::cursor::Cursor;
use idris_native::logging::LogSpan;
use idris_native::multiplicity::Multiplicity;
use idris_native::term::Term;

#[test]
fn test_cursor_basic_navigation() {
    let items = vec![1, 2, 3];
    let mut cursor = Cursor::new(items);

    assert_eq!(cursor.peek(), Some(&1));
    assert_eq!(cursor.advance(), Some(&1));
    assert_eq!(cursor.peek(), Some(&2));
    assert_eq!(cursor.advance(), Some(&2));
    assert_eq!(cursor.peek(), Some(&3));
    assert_eq!(cursor.advance(), Some(&3));
    assert_eq!(cursor.peek(), None);
    assert!(cursor.is_at_end());
}

#[test]
fn test_cursor_check_and_match() {
    let items = vec!['a', 'b', 'c'];
    let mut cursor = Cursor::new(items);

    assert!(cursor.check(&'a'));
    assert!(!cursor.check(&'b'));

    assert!(cursor.match_item(&'a'));
    assert_eq!(cursor.peek(), Some(&'b'));

    assert!(!cursor.match_item(&'z'));
    assert_eq!(cursor.peek(), Some(&'b'));
}

#[test]
fn test_cursor_peek_next() {
    let items = vec![10, 20, 30];
    let cursor = Cursor::new(items);

    assert_eq!(cursor.peek(), Some(&10));
    assert_eq!(cursor.peek_next(), Some(&20));
}

#[test]
fn test_cursor_at_end_stays() {
    let mut cursor = Cursor::new(vec![5]);
    assert_eq!(cursor.advance(), Some(&5));
    assert_eq!(cursor.advance(), None);
    assert_eq!(cursor.current_pos(), 1);
    assert_eq!(cursor.peek_at(0), None);
}

#[test]
fn test_arena_alloc_helper() {
    let mut arena = Arena::new();

    let x = arena_alloc(&mut arena, 42);
    let y = arena_alloc(&mut arena, 100);

    assert_eq!(*arena.get(x), 42);
    assert_eq!(*arena.get(y), 100);
}

#[test]
fn test_trace_span_logging() {
    {
        let span = LogSpan::new("TEST", "test_scope");
        assert_eq!(span.tag(), "TEST");
        assert_eq!(span.name(), "test_scope");
    }
}

#[test]
fn test_arena_allocation() {
    let mut arena = Arena::new();
    let value_ref = arena.allocate(42);
    assert_eq!(*arena.get(value_ref), 42);
}

#[test]
fn test_create_pi_type() {
    let mut arena = Arena::new();
    let pi_type = arena.allocate(Term::Pi(
        "x".to_string(),
        Multiplicity::Many,
        Box::new(Term::IntegerType),
        Box::new(Term::IntegerType),
    ));
    match arena.get(pi_type) {
        Term::Pi(name, _, _, _) => assert_eq!(name, "x"),
        _ => panic!("Expected Pi type"),
    }
}

#[test]
fn test_arena_high_volume_allocation() {
    let mut arena: Arena<i64> = Arena::new();
    for i in 0..100000 {
        let id = arena.allocate(i as i64);
        assert_eq!(*arena.get(id), i as i64);
    }
    assert_eq!(arena.len(), 100000);
}

#[test]
fn test_arena_reset_and_reuse() {
    let mut arena: Arena<String> = Arena::new();
    for i in 0..1000 {
        arena.allocate(format!("first_{}", i));
    }
    assert_eq!(arena.get(999), "first_999");
}

#[test]
fn test_arena_mixed_types_via_trait_objects() {
    trait Dummy {
        fn val(&self) -> i32;
    }
    struct A(i32);
    impl Dummy for A {
        fn val(&self) -> i32 {
            self.0
        }
    }

    let mut arena: Arena<Box<dyn Dummy>> = Arena::new();
    let id = arena.allocate(Box::new(A(42)));
    assert_eq!(arena.get(id).val(), 42);
}

#[test]
fn test_buffer_primitives_creation() {
    let mut arena: Arena<Term> = Arena::new();
    let size = 64;
    let buffer = arena.allocate(Term::Buffer(size));
    match arena.get(buffer) {
        Term::Buffer(s) => assert_eq!(*s, 64),
        _ => panic!("Expected Buffer(64)"),
    }

    let load = arena.allocate(Term::BufferLoad(
        Box::new(Term::Buffer(size)),
        Box::new(Term::Integer(0)),
    ));
    match arena.get(load) {
        Term::BufferLoad(_, _) => (),
        _ => panic!("Expected BufferLoad"),
    }

    let store = arena.allocate(Term::BufferStore(
        Box::new(Term::Buffer(size)),
        Box::new(Term::Integer(0)),
        Box::new(Term::Integer(42)),
    ));
    match arena.get(store) {
        Term::BufferStore(_, _, _) => (),
        _ => panic!("Expected BufferStore"),
    }
}

#[test]
fn test_word_types_creation() {
    let mut arena: Arena<Term> = Arena::new();
    let i32_type = arena.allocate(Term::I32Type);
    let i8_type = arena.allocate(Term::I8Type);
    match arena.get(i32_type) {
        Term::I32Type => (),
        _ => panic!("Expected I32Type"),
    }
    match arena.get(i8_type) {
        Term::I8Type => (),
        _ => panic!("Expected I8Type"),
    }
}

#[test]
fn test_bitwise_operators_creation() {
    let a = || Box::new(Term::Integer(1));
    let b = || Box::new(Term::Integer(2));
    assert!(matches!(Term::BitXor(a(), b()), Term::BitXor(_, _)));
    assert!(matches!(Term::BitAnd(a(), b()), Term::BitAnd(_, _)));
    assert!(matches!(Term::BitOr(a(), b()), Term::BitOr(_, _)));
    assert!(matches!(Term::BitNot(a()), Term::BitNot(_)));
    assert!(matches!(Term::Shl(a(), b()), Term::Shl(_, _)));
    assert!(matches!(Term::Shr(a(), b()), Term::Shr(_, _)));
}

#[test]
fn test_new_term_variants_existence() {
    let _module_decl = Term::Module("Main".to_string());
    let _import_decl = Term::Import("Data.Buffer".to_string());
    let _string_lit = Term::String("Hello".to_string());
    let _float_lit = Term::Float("3.14".to_string());
    let _char_lit = Term::Char('a');
}

#[test]
fn test_exhaustive_match_on_terms() {
    let term = Term::Integer(42);

    match &term {
        Term::Var(name) => assert_eq!(name, ""),
        Term::Lambda(name, _type, _body) => assert_eq!(name, ""),
        Term::App(_func, _arg) => (),
        Term::Pi(name, _mult, _type, _body) => assert_eq!(name, ""),
        Term::Universe(n) => assert_eq!(*n, 0),

        Term::Integer(val) => assert_eq!(*val, 42),
        Term::Float(val) => assert_eq!(val, ""),
        Term::String(val) => assert_eq!(val, ""),
        Term::Char(val) => assert_eq!(*val, ' '),

        Term::IntegerType => (),
        Term::FloatType => (),
        Term::StringType => (),
        Term::CharType => (),
        Term::I32Type => (),
        Term::I8Type => (),
        Term::Bits64Type => (),
        Term::IOType => (),
        Term::TypeType => (),

        Term::Add(_l, _r) | Term::Sub(_l, _r) | Term::Mul(_l, _r) | Term::Div(_l, _r) | Term::Append(_l, _r) => (),
        Term::BitXor(_l, _r) | Term::BitAnd(_l, _r) | Term::BitOr(_l, _r) => (),
        Term::BitNot(_t) => (),
        Term::Shl(_l, _r) | Term::Shr(_l, _r) => (),
        Term::Eq(_l, _r) | Term::Lt(_l, _r) | Term::Gt(_l, _r) => (),

        Term::If(_c, _t, _f) => (),
        Term::Let(name, _val, _body) => assert_eq!(name, ""),
        Term::LetRec(name, _val, _body) => assert_eq!(name, ""),
        Term::Case(_t, _branches) => (),

        Term::Do(_stmts) => (),
        Term::Bind(name, _action) => assert_eq!(name, ""),

        Term::Module(name) => assert_eq!(name, ""),
        Term::Import(name) => assert_eq!(name, ""),
        Term::Data(name, _params, _constrs) => assert_eq!(name, ""),
        Term::Interface(name, _params, _methods) => assert_eq!(name, ""),
        Term::Implementation(iface, name, _impls) => {
            assert_eq!(iface, "");
            assert_eq!(name, "");
        }
        Term::Record(name, _fields) => assert_eq!(name, ""),

        Term::Mutual(_terms) => (),
        Term::Where(_term, _defs) => (),
        Term::Def(name, _args, _body) => assert_eq!(name, ""),

        Term::Buffer(size) => assert_eq!(*size, 0),
        Term::BufferLoad(_b, _i) => (),
        Term::BufferStore(_b, _i, _v) => (),
    }
}
