use idris_native::repl::ReplSession;

#[test]
fn test_eval_integer() {
    let session = ReplSession::new();
    let result = session.eval("42");
    assert_eq!(result, "42");
}

#[test]
fn test_eval_string() {
    let session = ReplSession::new();
    let result = session.eval("\"Hello, Idris!\"");
    assert_eq!(result, "\"Hello, Idris!\"");
}

#[test]
fn test_type_inspection_integer() {
    let session = ReplSession::new();
    let result = session.eval(":t 42");
    assert_eq!(result, "Integer");
}

#[test]
fn test_type_inspection_string() {
    let session = ReplSession::new();
    let result = session.eval(":t \"Hello\"");
    assert_eq!(result, "String");
}

#[test]
fn test_file_loading() {
    let session = ReplSession::new();
    let result = session.eval(":l test.idr");
    assert_eq!(result, "Loaded file: test.idr");
}

#[test]
fn test_repl_real_eval_addition() {
    let session = ReplSession::new();
    let result = session.eval("1 + 1");
    assert_eq!(result, "2");
}

#[test]
fn test_repl_blank_and_char_and_conditional() {
    let session = ReplSession::new();
    assert_eq!(session.eval("   "), "");
    assert_eq!(session.eval("'a'"), "'a'");
    assert_eq!(session.eval("if 0 then 1 else 2 - 5"), "-3");
    assert_eq!(session.eval(":t Integer"), "Type");
    assert_eq!(session.eval(":t 'c'"), "Char");
    assert_eq!(session.eval("  :l   lib/Main.idr  "), "Loaded file: lib/Main.idr");
}

#[test]
fn test_repl_overflow_and_lambda() {
    let session = ReplSession::new();
    assert_eq!(session.eval("9223372036854775807 + 1"), "");
    assert_eq!(session.eval("(\\x => x + 1) 41"), "42");
}
