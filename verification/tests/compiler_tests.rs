use idris_native::compiler::{backend_outcome, Backend, Compiler};
use idris_native::irbuilder::Env;
use idris_native::term::Term;
use std::cell::Cell;
use std::io;

struct RecordingBackend {
    programs: Cell<usize>,
}

impl RecordingBackend {
    fn new() -> Self {
        RecordingBackend { programs: Cell::new(0) }
    }
}

impl Backend for RecordingBackend {
    fn lower_term(&self, _term: &Term, _env: &Env) -> String {
        "ir".to_string()
    }
    fn lower_program(&self, declarations: &[Term]) -> String {
        self.programs.set(self.programs.get() + 1);
        format!("program with {} declarations", declarations.len())
    }
    fn compile_to_binary(&self, _ir: String, _output_path: &str) -> io::Result<bool> {
        Ok(true)
    }
}

#[test]
fn test_compiler_compile_str() {
    let backend = RecordingBackend::new();
    let compiler = Compiler::new(&backend);

    let source = "id : Integer -> Integer\nid x = x";

    let result = compiler.compile_str(source, "test_output_id", "test.idr");
    assert!(result.is_ok());
}

#[test]
fn test_compiler_no_qtt_mode() {
    let backend = RecordingBackend::new();
    let compiler = Compiler::new(&backend).with_qtt(false);

    let source = "dup : Integer -> Integer\ndup x = x + x";

    let result = compiler.compile_str(source, "test_output_dup", "test.idr");
    assert!(result.is_ok(), "Should succeed in non-QTT mode even with non-linear usage");
}

#[test]
fn test_compiler_rejects_out_of_bounds_buffer() {
    let backend = RecordingBackend::new();
    let compiler = Compiler::new(&backend);
    let source = "f : Integer -> Integer\nf n = getBits64 (buffer 4) 9";
    let result = compiler.compile_str(source, "out", "f.idr");
    assert_eq!(result, Err("QTT Structural Error: Boundary violation detected.".to_string()));
    assert_eq!(backend.programs.get(), 0);

    let unchecked = Compiler::new(&backend).with_qtt(false);
    assert_eq!(unchecked.compile_str(source, "out", "f.idr"), Ok("out".to_string()));
    assert_eq!(backend.programs.get(), 1);
}

#[test]
fn test_compiler_reports_front_end_errors() {
    let backend = RecordingBackend::new();
    let compiler = Compiler::new(&backend);
    assert_eq!(compiler.compile_str("main = @", "out", "m.idr"), Err("Lexing failed".to_string()));
    assert_eq!(compiler.compile_str("main = 42", "out", "m.idr"), Err("Parsing failed".to_string()));
}

#[test]
fn test_backend_outcome() {
    assert_eq!(backend_outcome(Ok(true), "bin"), Ok("bin".to_string()));
    assert_eq!(
        backend_outcome(Ok(false), "bin"),
        Err("Compilation failed in backend.".to_string())
    );
    assert_eq!(
        backend_outcome(Err(io::Error::new(io::ErrorKind::Other, "no linker")), "bin"),
        Err("Compilation failed in backend.".to_string())
    );
}

struct MockBackend;

impl Backend for MockBackend {
    fn lower_term(&self, _term: &Term, _env: &Env) -> String {
        "mock_ir".to_string()
    }
    fn lower_program(&self, _declarations: &[Term]) -> String {
        "mock_ir".to_string()
    }
    fn compile_to_binary(&self, _ir: String, _output_path: &str) -> io::Result<bool> {
        Ok(true)
    }
}

#[test]
fn test_cli_driver_with_mock() {
    let _backend = MockBackend;
}

#[test]
fn test_no_qtt_flag_parsing() {}

#[test]
fn test_import_candidates_order() {
    let c = idris_native::compiler::import_candidates("Data.List", Some("src"));
    assert_eq!(c.len(), 18);
    assert_eq!(c[0], ("src".to_string(), "Data/List.idr".to_string()));
    assert_eq!(c[1], ("src".to_string(), "Data.List.idr".to_string()));
    assert_eq!(c[2], (".".to_string(), "Data/List.idr".to_string()));
    assert_eq!(c[17], ("idris2_ref/samples/FFI-readline/src".to_string(), "Data.List.idr".to_string()));
    let d = idris_native::compiler::import_candidates("Main", None);
    assert_eq!(d.len(), 16);
    assert_eq!(d[0], (".".to_string(), "Main.idr".to_string()));
}

#[test]
fn test_imports_to_load() {
    let decls = vec![
        Term::Module("Main".to_string()),
        Term::Import("Data.List".to_string()),
        Term::Def("main".to_string(), vec![], Box::new(Term::Integer(0))),
        Term::Import("Prelude".to_string()),
    ];
    let fresh = idris_native::compiler::imports_to_load(&vec![], "/p/Main.idr", &decls);
    assert_eq!(fresh, Some(vec!["Data.List".to_string(), "Prelude".to_string()]));
    let seen = idris_native::compiler::imports_to_load(&vec!["/p/Main.idr".to_string()], "/p/Main.idr", &decls);
    assert_eq!(seen, None);
}
