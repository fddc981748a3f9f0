use idris_native::arena::Arena;
use idris_native::irbuilder::{Env, IRBuilder};
use idris_native::term::Term;

fn lit(v: i64) -> Box<Term> {
    Box::new(Term::Integer(v))
}

#[test]
fn test_lower_buffer_creation() {
    let mut arena: Arena<Term> = Arena::new();
    let mut builder = IRBuilder::new();
    let env = Env::new();

    let buffer_term = arena.allocate(Term::Buffer(64));
    let res = builder.lower_term(arena.get(buffer_term), &env);

    assert!(builder.instructions.iter().any(|instr| instr.contains("alloca [64 x i64]")));
    assert_eq!(res, "%1");
}

#[test]
fn test_lower_buffer_store_load() {
    let mut builder = IRBuilder::new();
    let mut env = Env::new();

    let buffer_term = Term::Buffer(64);
    let buf_reg = builder.lower_term(&buffer_term, &env);
    env.insert("buf".to_string(), buf_reg.clone());

    let store_term = Term::BufferStore(
        Box::new(Term::Var("buf".to_string())),
        lit(0),
        lit(42),
    );
    builder.lower_term(&store_term, &env);

    assert!(builder.instructions.iter().any(|instr| instr.contains("getelementptr [64 x i64]")));
    assert!(builder.instructions.iter().any(|instr| instr.contains("store i64 42")));

    let load_term = Term::BufferLoad(Box::new(Term::Var("buf".to_string())), lit(0));
    let load_res = builder.lower_term(&load_term, &env);

    assert!(builder.instructions.iter().any(|instr| instr.contains("load i64")));
    assert_eq!(load_res, "%4");
}

#[test]
fn test_lower_bitwise_xor() {
    let mut builder = IRBuilder::new();
    let env = Env::new();

    let xor_term = Term::BitXor(lit(1), lit(2));
    let res = builder.lower_term(&xor_term, &env);

    assert!(builder.instructions.iter().any(|instr| instr.contains("xor i64 1, 2")));
    assert_eq!(res, "%1");
}

#[test]
fn test_lower_bitwise_and() {
    let mut builder = IRBuilder::new();
    let env = Env::new();

    let and_term = Term::BitAnd(lit(1), lit(2));
    builder.lower_term(&and_term, &env);

    assert!(builder.instructions.iter().any(|instr| instr.contains("and i64 1, 2")));
}

#[test]
fn test_lower_bitwise_or() {
    let mut builder = IRBuilder::new();
    let env = Env::new();

    let or_term = Term::BitOr(lit(1), lit(2));
    builder.lower_term(&or_term, &env);

    assert!(builder.instructions.iter().any(|instr| instr.contains("or i64 1, 2")));
}

#[test]
fn test_lower_bitwise_not() {
    let mut builder = IRBuilder::new();
    let env = Env::new();

    let not_term = Term::BitNot(lit(1));
    builder.lower_term(&not_term, &env);

    assert!(builder.instructions.iter().any(|instr| instr.contains("xor i64 1, -1")));
}

#[test]
fn test_lower_shl() {
    let mut builder = IRBuilder::new();
    let env = Env::new();

    let shl_term = Term::Shl(lit(1), lit(2));
    builder.lower_term(&shl_term, &env);

    assert!(builder.instructions.iter().any(|instr| instr.contains("shl i64 1, 2")));
}

#[test]
fn test_lower_shr() {
    let mut builder = IRBuilder::new();
    let env = Env::new();

    let shr_term = Term::Shr(lit(1), lit(2));
    builder.lower_term(&shr_term, &env);

    assert!(builder.instructions.iter().any(|instr| instr.contains("lshr i64 1, 2")));
}

#[test]
fn test_lower_i32_addition() {
    let mut builder = IRBuilder::new();
    let env = Env::new();

    builder.set_bit_width(32);

    let add_term = Term::Add(lit(1), lit(2));
    builder.lower_term(&add_term, &env);

    assert!(builder.instructions.iter().any(|instr| instr.contains("add i32 1, 2")));
}

#[test]
fn test_lower_i8_subtraction() {
    let mut builder = IRBuilder::new();
    let env = Env::new();

    builder.set_bit_width(8);

    let sub_term = Term::Sub(lit(10), lit(3));
    builder.lower_term(&sub_term, &env);

    assert!(builder.instructions.iter().any(|instr| instr.contains("sub i8 10, 3")));
}

#[test]
fn test_lower_case_expression() {
    let mut builder = IRBuilder::new();
    let mut env = Env::new();
    env.insert("x".to_string(), "%x".to_string());

    // case x of 0 => 1 | _ => x
    let branches = vec![
        ("0".to_string(), vec![], lit(1)),
        ("_".to_string(), vec![], Box::new(Term::Var("x".to_string()))),
    ];
    let case_term = Term::Case(Box::new(Term::Var("x".to_string())), branches);

    builder.lower_term(&case_term, &env);

    // We expect comparison, branches, and a phi node
    assert!(builder.instructions.iter().any(|instr| instr.contains("icmp eq")));
    assert!(builder.instructions.iter().any(|instr| instr.contains("phi i64")));
}

#[test]
fn case_lowering_exact_instructions() {
    let mut builder = IRBuilder::new();
    let mut env = Env::new();
    env.insert("x".to_string(), "%x".to_string());
    let branches = vec![
        ("0".to_string(), vec![], lit(1)),
        ("7".to_string(), vec![], lit(2)),
    ];
    let case_term = Term::Case(Box::new(Term::Var("x".to_string())), branches);
    let res = builder.lower_term(&case_term, &env);
    assert_eq!(res, "%3");
    let expected: Vec<String> = vec![
        "  %1 = icmp eq i64 %x, 0",
        "  br i1 %1, label %case_arm_1, label %case_next_2",
        "\ncase_arm_1:",
        "  br label %case_end_0",
        "\ncase_next_2:",
        "  %2 = icmp eq i64 %x, 7",
        "  br i1 %2, label %case_arm_3, label %case_next_4",
        "\ncase_arm_3:",
        "  br label %case_end_0",
        "\ncase_next_4:",
        "  unreachable",
        "\ncase_end_0:",
        "  %3 = phi i64 [ 1, %case_arm_1 ], [ 2, %case_arm_3 ]",
    ]
    .into_iter()
    .map(|s| s.to_string())
    .collect();
    assert_eq!(builder.instructions, expected);
}

#[test]
fn case_with_named_pattern_is_not_lowerable() {
    let branches = vec![("Nil".to_string(), vec![], lit(1))];
    let case_term = Term::Case(Box::new(Term::Var("x".to_string())), branches);
    assert_eq!(idris_native::irbuilder::lowering_cost(&case_term), None);
    let ok = Term::Case(
        Box::new(Term::Var("x".to_string())),
        vec![("0".to_string(), vec![], lit(1)), ("_".to_string(), vec![], lit(2))],
    );
    assert_eq!(idris_native::irbuilder::lowering_cost(&ok), Some((2, 3)));
}

#[test]
fn test_lower_bits64_type() {
    let mut builder = IRBuilder::new();
    let env = Env::new();

    let bits_type = Term::Bits64Type;
    let res = builder.lower_term(&bits_type, &env);
    assert_eq!(res, "i64");
}

#[test]
fn test_lower_io_action() {
    let mut builder = IRBuilder::new();
    let env = Env::new();

    let put_str = Term::App(
        Box::new(Term::Var("putStrLn".to_string())),
        Box::new(Term::Var("hello".to_string())),
    );

    builder.lower_term(&put_str, &env);
}

#[test]
fn test_lower_exact_instructions() {
    let mut builder = IRBuilder::new();
    let mut env = Env::new();
    env.insert("x".to_string(), "%x".to_string());
    let term = Term::Add(Box::new(Term::Var("x".to_string())), Box::new(Term::Var("g".to_string())));
    let res = builder.lower_term(&term, &env);
    assert_eq!(res, "%1");
    assert_eq!(builder.instructions, vec!["  %1 = add i64 %x, @g".to_string()]);
}

#[test]
fn test_lower_call_and_conditional() {
    let mut builder = IRBuilder::new();
    let env = Env::new();
    let call = Term::App(
        Box::new(Term::App(Box::new(Term::Var("f".to_string())), lit(1))),
        Box::new(Term::Add(lit(2), lit(3))),
    );
    let res = builder.lower_term(&call, &env);
    assert_eq!(res, "%2");
    assert_eq!(
        builder.instructions,
        vec!["  %1 = add i64 2, 3".to_string(), "  %2 = call i64 @f( i64 1, i64 %1 )".to_string()]
    );

    let mut builder = IRBuilder::new();
    let cond = Term::If(
        Box::new(Term::Eq(lit(1), lit(1))),
        lit(10),
        lit(20),
    );
    let res = builder.lower_term(&cond, &env);
    assert_eq!(res, "%2");
    assert_eq!(
        builder.instructions,
        vec![
            "  %1 = icmp eq i64 1, 1".to_string(),
            "  br i1 %1, label %then_0, label %else_1".to_string(),
            "\nthen_0:".to_string(),
            "  br label %merge_2".to_string(),
            "\nelse_1:".to_string(),
            "  br label %merge_2".to_string(),
            "\nmerge_2:".to_string(),
            "  %2 = phi i64 [ 10, %then_0 ], [ 20, %else_1 ]".to_string(),
        ]
    );
}

#[test]
fn test_fresh_names() {
    let mut builder = IRBuilder::new();
    assert_eq!(builder.fresh_reg(), "%1");
    assert_eq!(builder.fresh_reg(), "%2");
    assert_eq!(builder.fresh_label("loop"), "loop_0");
    assert_eq!(builder.fresh_label("loop"), "loop_1");
}

#[test]
fn test_env_lookup_after_insert() {
    let mut env = Env::new();
    assert!(env.get("a").is_none());
    env.insert("a".to_string(), "%1".to_string());
    env.insert("b".to_string(), "%2".to_string());
    env.insert("a".to_string(), "%3".to_string());
    assert_eq!(env.get("a").unwrap(), "%3");
    assert_eq!(env.get("b").unwrap(), "%2");
}

#[test]
fn test_registers_count_up() {
    let mut builder = IRBuilder::new();
    for k in 0..25 {
        assert_eq!(builder.fresh_reg(), format!("%{}", k + 1));
    }
    assert!(builder.instructions.is_empty());
}
