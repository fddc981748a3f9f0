//! The compilation pipeline: scanning and parsing of a source text, the
//! structural resource check of each declaration, and the hand-over of the
//! declarations to a code generation backend.
use vstd::prelude::*;
use crate::irbuilder::Env;
use crate::parser::Parser;
use crate::qtt::{QttChecker, term_ok};
use crate::decl_grammar::program_spec;
use crate::errors::Spanned;
use crate::scanner::{Token, lex, scan, spanned_models};
use crate::term::{Term, lemma_terms_view_index, lemma_terms_view_len, terms_view};
use crate::chars::{chars_of, push_char};
use crate::term::{SpecTerm, lemma_terms_view_step, names_view};
use crate::text::contains_name;

verus! {

/// The error of input and output that a backend reports.
#[verifier::external_type_specification]
#[verifier::external_body]
pub struct ExIoError(std::io::Error);

/// A code generation and toolchain backend, implemented by the users of
/// the library.
pub trait Backend {
    /// Lowers one term, with the registers of the names in `env`.
    fn lower_term(&self, term: &Term, env: &Env) -> String;

    /// Lowers a whole program to its intermediate representation.
    fn lower_program(&self, declarations: &[Term]) -> String;

    /// Builds an executable at `output_path` from the intermediate
    /// representation, and says whether it succeeded.
    fn compile_to_binary(&self, ir: String, output_path: &str) -> std::io::Result<bool>;
}

/// The message of a declaration that fails the structural resource check.
pub open spec fn qtt_error_text() -> Seq<char> {
    "QTT Structural Error: Boundary violation detected."@
}

/// The message of a backend that did not build the executable.
pub open spec fn backend_error_text() -> Seq<char> {
    "Compilation failed in backend."@
}

/// Whether every declaration passes the structural resource check.
pub open spec fn all_ok(decls: Seq<Term>) -> bool {
    forall|i: int| 0 <= i < decls.len() ==> term_ok(#[trigger] decls[i]@)
}

/// The result of a build from what the backend reported: the path of the
/// executable when it reported success, else the backend's error message.
pub fn backend_outcome(result: std::io::Result<bool>, output_path: &str) -> (r: Result<String, String>)
    ensures
        result matches Ok(true) ==> r is Ok && r->Ok_0@ == output_path@,
        !(result matches Ok(true)) ==> r is Err && r->Err_0@ == backend_error_text(),
{
    match result {
        Ok(true) => Ok(output_path.to_owned()),
        _ => Err("Compilation failed in backend.".to_owned()),
    }
}

/// Whether a parse result is what the program grammar gives on the tokens
/// `ts`: the declarations, or the message of a failed parse.
pub open spec fn parsed_program(ts: Seq<Spanned<Token>>, r: Result<Vec<Term>, String>) -> bool {
    if ts.len() >= usize::MAX {
        r is Err && r->Err_0@ == "Parsing failed"@
    } else {
        match program_spec(ts, 0, Seq::empty(), Seq::empty()) {
            Ok((ds, _)) => r is Ok && terms_view(r->Ok_0@) == ds,
            Err(_) => r is Err && r->Err_0@ == "Parsing failed"@,
        }
    }
}

/// Whether a compilation result agrees with the program grammar on the
/// tokens `ts`: a failed parse gives its message; the check's message comes
/// exactly when the resource check is on and a declaration fails it; any
/// other failure is the backend's.
pub open spec fn compiled_program(ts: Seq<Spanned<Token>>, qtt: bool, r: Result<String, String>) -> bool {
    if ts.len() >= usize::MAX {
        r is Err && r->Err_0@ == "Parsing failed"@
    } else {
        match program_spec(ts, 0, Seq::empty(), Seq::empty()) {
            Ok((ds, _)) => {
                &&& (r is Err && r->Err_0@ == qtt_error_text()) <==> (qtt && exists|i: int|
                    0 <= i < ds.len() && !term_ok(#[trigger] ds[i]))
                &&& r is Err ==> r->Err_0@ == qtt_error_text() || r->Err_0@ == backend_error_text()
            },
            Err(_) => r is Err && r->Err_0@ == "Parsing failed"@,
        }
    }
}

/// Drives compilation with a backend.
pub struct Compiler<'a, B: Backend> {
    backend: &'a B,
    qtt_enabled: bool,
}

impl<'a, B: Backend> Compiler<'a, B> {
    /// Whether the structural resource check runs.
    pub closed spec fn qtt(&self) -> bool {
        self.qtt_enabled
    }

    /// A compiler with the given backend and the resource check on.
    pub fn new(backend: &'a B) -> (r: Self)
        ensures
            r.qtt(),
    {
        Compiler { backend, qtt_enabled: true }
    }

    /// The same compiler with the resource check on or off.
    pub fn with_qtt(self, enabled: bool) -> (r: Self)
        ensures
            r.qtt() == enabled,
    {
        Compiler { backend: self.backend, qtt_enabled: enabled }
    }

    /// Compiles a source text to an executable at `output_path`. Imports
    /// are left as declarations: following them needs the file system.
    pub fn compile_str(&self, source: &str, output_path: &str, filename: &str) -> (r: Result<String, String>)
        requires
            4 * source@.len() + 8 <= usize::MAX,
        ensures
            r is Ok ==> r->Ok_0@ == output_path@,
            match scan(source@) {
                Err(_) => r is Err && r->Err_0@ == "Lexing failed"@,
                Ok(models) => exists|ts: Seq<Spanned<Token>>| #[trigger] spanned_models(ts) == models && compiled_program(
                    ts,
                    self.qtt(),
                    r,
                ),
            },
    {
        let parsed = self.parse_source(source);
        let declarations = match parsed {
            Ok(d) => d,
            Err(e) => {
                return Err(e);
            },
        };
        let r = self.compile_declarations(&declarations, output_path, filename);
        proof {
            let models = scan(source@)->Ok_0;
            let ts = choose|ts: Seq<Spanned<Token>>| #[trigger] spanned_models(ts) == models && parsed_program(ts, parsed);
            lemma_terms_view_len(declarations@);
            let ds = terms_view(declarations@);
            if self.qtt() && (exists|i: int| 0 <= i < ds.len() && !term_ok(#[trigger] ds[i])) {
                let i = choose|i: int| 0 <= i < ds.len() && !term_ok(#[trigger] ds[i]);
                lemma_terms_view_index(declarations@, i);
                assert(!term_ok(declarations@[i]@));
            }
            if !all_ok(declarations@) {
                let i = choose|i: int| 0 <= i < declarations@.len() && !term_ok(#[trigger] declarations@[i]@);
                lemma_terms_view_index(declarations@, i);
                assert(!term_ok(ds[i]));
            }
            assert(compiled_program(ts, self.qtt(), r));
        }
        r
    }

    /// Checks the declarations, when the check is on, and hands them to the
    /// backend: a declaration that fails the check stops compilation before
    /// the backend sees anything.
    pub fn compile_declarations(&self, declarations: &Vec<Term>, output_path: &str, _filename: &str) -> (r: Result<String, String>)
        ensures
            (r is Err && r->Err_0@ == qtt_error_text()) <==> (self.qtt() && !all_ok(declarations@)),
            r is Ok ==> r->Ok_0@ == output_path@,
            r is Err ==> r->Err_0@ == qtt_error_text() || r->Err_0@ == backend_error_text(),
    {
        if self.qtt_enabled {
            let checker = QttChecker::new();
            let mut i: usize = 0;
            while i < declarations.len()
                invariant
                    i <= declarations@.len(),
                    self.qtt(),
                    forall|j: int| 0 <= j < i ==> term_ok(#[trigger] declarations@[j]@),
                decreases declarations.len() - i,
            {
                if !checker.check_term(&declarations[i]) {
                    assert(!term_ok(declarations@[i as int]@));
                    return Err("QTT Structural Error: Boundary violation detected.".to_owned());
                }
                i += 1;
            }
        }
        let ir = self.backend.lower_program(declarations.as_slice());
        let result = self.backend.compile_to_binary(ir, output_path);
        proof {
            reveal_strlit("QTT Structural Error: Boundary violation detected.");
            reveal_strlit("Compilation failed in backend.");
            assert(qtt_error_text()[0] != backend_error_text()[0]);
        }
        backend_outcome(result, output_path)
    }

    /// Scans and parses a source text into its declarations.
    pub fn parse_source(&self, source: &str) -> (r: Result<Vec<Term>, String>)
        requires
            4 * source@.len() + 8 <= usize::MAX,
        ensures
            match scan(source@) {
                Err(_) => r is Err && r->Err_0@ == "Lexing failed"@,
                Ok(models) => exists|ts: Seq<Spanned<Token>>| #[trigger] spanned_models(ts) == models && parsed_program(ts, r),
            },
    {
        let tokens = match lex(source) {
            Ok(t) => t,
            Err(_) => {
                return Err("Lexing failed".to_owned());
            },
        };
        let ghost ts = tokens@;
        if tokens.len() == usize::MAX {
            return Err("Parsing failed".to_owned());
        }
        let mut parser = Parser::new(tokens);
        match parser.parse_program() {
            Ok(decls) => Ok(decls),
            Err(_) => Err("Parsing failed".to_owned()),
        }
    }
}

/// The file of a module relative to a root: the module's name with each
/// dot made a path separator, and the `.idr` extension.
pub open spec fn module_file(m: Seq<char>) -> Seq<char> {
    Seq::new(m.len(), |i: int| if m[i] == '.' { '/' } else { m[i] }) + ".idr"@
}

/// The library roots searched for imports, after the importing file's
/// directory.
pub open spec fn library_roots() -> Seq<Seq<char>> {
    seq![
        "."@,
        "idris2_ref/libs/base"@,
        "idris2_ref/libs/contrib"@,
        "idris2_ref/libs/linear"@,
        "idris2_ref/libs/network"@,
        "idris2_ref/libs/prelude"@,
        "idris2_ref/samples"@,
        "idris2_ref/samples/FFI-readline/src"@,
    ]
}

/// The roots searched for an import: the importing file's directory, when
/// there is one, then the library roots.
pub open spec fn import_roots(dir: Option<Seq<char>>) -> Seq<Seq<char>> {
    match dir {
        Some(d) => seq![d] + library_roots(),
        None => library_roots(),
    }
}

/// The places where an import of module `m` is looked for, in order: in
/// each root, first the module's path with dots as separators, then the
/// module's name with the `.idr` extension. Each is a root and a file
/// relative to it.
pub open spec fn import_candidates_spec(m: Seq<char>, dir: Option<Seq<char>>) -> Seq<(Seq<char>, Seq<char>)> {
    let roots = import_roots(dir);
    Seq::new(
        2 * roots.len(),
        |k: int| (roots[k / 2], if k % 2 == 0 { module_file(m) } else { m + ".idr"@ }),
    )
}

/// The model of an optional directory.
pub open spec fn dir_view(d: Option<&str>) -> Option<Seq<char>> {
    match d {
        Some(x) => Some(x@),
        None => None,
    }
}

/// The file of a module relative to a root.
fn module_file_of(m: &str) -> (r: String)
    ensures
        r@ == module_file(m@),
{
    let cs = chars_of(m);
    let mut r = String::new();
    let mut i: usize = 0;
    while i < cs.len()
        invariant
            i <= cs.len(),
            cs@ == m@,
            r@ == Seq::new(i as nat, |j: int| if m@[j] == '.' { '/' } else { m@[j] }),
        decreases cs.len() - i,
    {
        let c = cs[i];
        push_char(&mut r, if c == '.' { '/' } else { c });
        proof {
            assert(r@ =~= Seq::new((i + 1) as nat, |j: int| if m@[j] == '.' { '/' } else { m@[j] }));
        }
        i += 1;
    }
    r.append(".idr");
    r
}

/// The places where an import of module `module_name` is looked for, in
/// order, as pairs of a root and a file relative to it.
pub fn import_candidates(module_name: &str, current_dir: Option<&str>) -> (r: Vec<(String, String)>)
    ensures
        r@.len() == import_candidates_spec(module_name@, dir_view(current_dir)).len(),
        forall|k: int| 0 <= k < r@.len() ==> (#[trigger] r@[k]).0@ == import_candidates_spec(
            module_name@,
            dir_view(current_dir),
        )[k].0 && r@[k].1@ == import_candidates_spec(module_name@, dir_view(current_dir))[k].1,
{
    let ghost dir = dir_view(current_dir);
    let mut roots: Vec<String> = Vec::new();
    match current_dir {
        Some(d) => roots.push(d.to_owned()),
        None => {},
    }
    roots.push(".".to_owned());
    roots.push("idris2_ref/libs/base".to_owned());
    roots.push("idris2_ref/libs/contrib".to_owned());
    roots.push("idris2_ref/libs/linear".to_owned());
    roots.push("idris2_ref/libs/network".to_owned());
    roots.push("idris2_ref/libs/prelude".to_owned());
    roots.push("idris2_ref/samples".to_owned());
    roots.push("idris2_ref/samples/FFI-readline/src".to_owned());
    let ghost rs = import_roots(dir);
    proof {
        assert(roots@.len() == rs.len());
        assert forall|j: int| 0 <= j < rs.len() implies (#[trigger] roots@[j])@ == rs[j] by {
            match current_dir {
                Some(d) => {
                    if j > 0 {
                        assert(rs[j] == library_roots()[j - 1]);
                    }
                },
                None => {},
            }
        }
    }
    let dotted = module_file_of(module_name);
    let mut plain = module_name.to_owned();
    plain.append(".idr");
    let mut r: Vec<(String, String)> = Vec::new();
    let mut i: usize = 0;
    while i < roots.len()
        invariant
            i <= roots.len(),
            roots@.len() == rs.len(),
            rs == import_roots(dir),
            forall|j: int| 0 <= j < rs.len() ==> (#[trigger] roots@[j])@ == rs[j],
            dotted@ == module_file(module_name@),
            plain@ == module_name@ + ".idr"@,
            r@.len() == 2 * i,
            forall|k: int| 0 <= k < r@.len() ==> (#[trigger] r@[k]).0@ == import_candidates_spec(module_name@, dir)[k].0
                && r@[k].1@ == import_candidates_spec(module_name@, dir)[k].1,
        decreases roots.len() - i,
    {
        r.push((roots[i].clone(), dotted.clone()));
        r.push((roots[i].clone(), plain.clone()));
        proof {
            let c = import_candidates_spec(module_name@, dir);
            assert(c[2 * i as int] == (rs[i as int], module_file(module_name@)));
            assert(c[2 * i as int + 1] == (rs[i as int], module_name@ + ".idr"@));
        }
        i += 1;
    }
    r
}

/// The names of the modules that the declarations import, in order.
pub open spec fn import_names(ds: Seq<SpecTerm>) -> Seq<Seq<char>>
    decreases ds.len(),
{
    if ds.len() == 0 {
        Seq::empty()
    } else {
        let rest = import_names(ds.drop_last());
        match ds.last() {
            SpecTerm::Import(n) => rest.push(n),
            _ => rest,
        }
    }
}

/// What loading a parsed file decides: nothing, when the file (by its
/// canonical path) is among those loaded already; else the modules that
/// its declarations import, in order, to be loaded before its own
/// declarations.
pub fn imports_to_load(visited: &Vec<String>, canonical: &str, declarations: &Vec<Term>) -> (r: Option<Vec<String>>)
    ensures
        r is None <==> names_view(visited@).contains(canonical@),
        r is Some ==> names_view(r->Some_0@) == import_names(terms_view(declarations@)),
{
    if contains_name(visited, canonical) {
        return None;
    }
    let mut names: Vec<String> = Vec::new();
    let mut i: usize = 0;
    while i < declarations.len()
        invariant
            i <= declarations.len(),
            names_view(names@) == import_names(terms_view(declarations@.take(i as int))),
        decreases declarations.len() - i,
    {
        proof {
            lemma_terms_view_step(declarations@, i as int);
            let v = terms_view(declarations@.take(i + 1));
            assert(v.drop_last() =~= terms_view(declarations@.take(i as int)));
        }
        match &declarations[i] {
            Term::Import(n) => {
                let ghost before = names@;
                names.push(n.clone());
                proof {
                    assert(names_view(names@) =~= names_view(before).push(n@));
                }
            },
            _ => {},
        }
        i += 1;
    }
    proof {
        assert(declarations@.take(declarations@.len() as int) =~= declarations@);
    }
    Some(names)
}

} // verus!
