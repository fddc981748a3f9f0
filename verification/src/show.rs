//! The text of terms, as the derived `Debug` formatting lays them out: a
//! variant's name, then its fields in brackets separated by commas; names
//! and strings in quotes, lists in square brackets. A floating-point literal
//! is shown as it was written.
use vstd::prelude::*;
use crate::chars::{i64_to_text, int_text, nat_digits, usize_to_text};
use crate::multiplicity::Multiplicity;
use crate::term::{
    SpecBranch, SpecConstructor, SpecTerm, Term, Constructor, boxed_view, branches_view,
    constructors_view, fields_view, lemma_branches_view_step, lemma_terms_view_step, names_view,
    term_view, terms_view,
};

verus! {

/// The text that `Debug` writes for a string whose characters are not all
/// printable ASCII other than `"` and a backslash: the string in double
/// quotes, escaped as `str::escape_debug` does.
pub uninterp spec fn debug_quoted(s: Seq<char>) -> Seq<char>;

/// The text that `Debug` writes for a character other than printable ASCII
/// without `'` and a backslash: the character in single quotes, escaped as
/// `char::escape_debug` does.
pub uninterp spec fn debug_char(c: char) -> Seq<char>;

/// Whether `c` is printable ASCII (a space to a tilde).
pub open spec fn printable_ascii(c: char) -> bool {
    ' ' <= c && c <= '~'
}

/// Whether `Debug` writes every character of `s` as it is inside its
/// quotes: printable ASCII other than `"` and a backslash.
pub open spec fn plain_text(s: Seq<char>) -> bool {
    forall|i: int| 0 <= i < s.len() ==> printable_ascii(#[trigger] s[i]) && s[i] != '"' && s[i] != '\\'
}

/// A string as `Debug` writes it: in double quotes, its characters as they
/// are when they are plain, else escaped as std does.
pub open spec fn quoted(s: Seq<char>) -> Seq<char> {
    if plain_text(s) { seq!['"'] + s + seq!['"'] } else { debug_quoted(s) }
}

/// A character as `Debug` writes it: in single quotes, as it is when it is
/// printable ASCII other than `'` and a backslash, else escaped as std does.
pub open spec fn char_quoted(c: char) -> Seq<char> {
    if printable_ascii(c) && c != '\'' && c != '\\' { seq!['\'', c, '\''] } else { debug_char(c) }
}

/// Formats a string with `Debug` (`format!` with `{:?}`). std writes a
/// double quote, each character through `escape_debug` with double quotes
/// escaped and single quotes not, and a double quote; printable ASCII other
/// than `"` and a backslash comes out as it is. What the escapes are is
/// named here and not written out.
#[verifier::external_body]
pub(crate) fn quoted_text(s: &str) -> (r: String)
    ensures
        r@ == quoted(s@),
        !plain_text(s@) ==> r@ == debug_quoted(s@),
{
    format!("{:?}", s)
}

/// Formats a character with `Debug` (`format!` with `{:?}`). std writes a
/// single quote, the character through `escape_debug` with single quotes
/// escaped and double quotes not, and a single quote; printable ASCII other
/// than `'` and a backslash comes out as it is. What the escapes are is
/// named here and not written out.
#[verifier::external_body]
pub(crate) fn char_debug_text(c: char) -> (r: String)
    ensures
        r@ == char_quoted(c),
        !(printable_ascii(c) && c != '\'' && c != '\\') ==> r@ == debug_char(c),
{
    format!("{:?}", c)
}

/// A list's items in square brackets.
pub open spec fn bracketed(items: Seq<char>) -> Seq<char> {
    "["@ + items + "]"@
}

/// The name of a multiplicity.
pub open spec fn multiplicity_text(q: Multiplicity) -> Seq<char> {
    match q {
        Multiplicity::Zero => "Zero"@,
        Multiplicity::One => "One"@,
        Multiplicity::Many => "Many"@,
    }
}

/// The quoted names, separated by commas.
pub open spec fn names_items(ns: Seq<Seq<char>>) -> Seq<char>
    decreases ns.len(),
{
    if ns.len() == 0 {
        Seq::empty()
    } else if ns.len() == 1 {
        quoted(ns[0])
    } else {
        names_items(ns.drop_last()) + ", "@ + quoted(ns.last())
    }
}

/// A list of names: the quoted names in square brackets.
pub open spec fn names_text(ns: Seq<Seq<char>>) -> Seq<char> {
    bracketed(names_items(ns))
}

/// The text of a term: the name of its variant, then its fields.
pub open spec fn term_text(t: SpecTerm) -> Seq<char>
    decreases t,
{
    match t {
        SpecTerm::Var(x0) => "Var("@ + quoted(x0) + ")"@,
        SpecTerm::Lambda(x0, x1, x2) => "Lambda("@ + quoted(x0) + ", "@ + term_text(*x1) + ", "@ + term_text(*x2) + ")"@,
        SpecTerm::App(x0, x1) => "App("@ + term_text(*x0) + ", "@ + term_text(*x1) + ")"@,
        SpecTerm::Pi(x0, x1, x2, x3) => "Pi("@ + quoted(x0) + ", "@ + multiplicity_text(x1) + ", "@ + term_text(*x2) + ", "@ + term_text(*x3) + ")"@,
        SpecTerm::Universe(x0) => "Universe("@ + nat_digits(x0 as nat) + ")"@,
        SpecTerm::Integer(x0) => "Integer("@ + int_text(x0 as int) + ")"@,
        SpecTerm::Float(x0) => "Float("@ + x0 + ")"@,
        SpecTerm::String(x0) => "String("@ + quoted(x0) + ")"@,
        SpecTerm::Char(x0) => "Char("@ + char_quoted(x0) + ")"@,
        SpecTerm::IntegerType => "IntegerType"@,
        SpecTerm::FloatType => "FloatType"@,
        SpecTerm::StringType => "StringType"@,
        SpecTerm::CharType => "CharType"@,
        SpecTerm::I32Type => "I32Type"@,
        SpecTerm::I8Type => "I8Type"@,
        SpecTerm::Bits64Type => "Bits64Type"@,
        SpecTerm::IOType => "IOType"@,
        SpecTerm::TypeType => "TypeType"@,
        SpecTerm::Add(x0, x1) => "Add("@ + term_text(*x0) + ", "@ + term_text(*x1) + ")"@,
        SpecTerm::Sub(x0, x1) => "Sub("@ + term_text(*x0) + ", "@ + term_text(*x1) + ")"@,
        SpecTerm::Mul(x0, x1) => "Mul("@ + term_text(*x0) + ", "@ + term_text(*x1) + ")"@,
        SpecTerm::Div(x0, x1) => "Div("@ + term_text(*x0) + ", "@ + term_text(*x1) + ")"@,
        SpecTerm::Append(x0, x1) => "Append("@ + term_text(*x0) + ", "@ + term_text(*x1) + ")"@,
        SpecTerm::BitXor(x0, x1) => "BitXor("@ + term_text(*x0) + ", "@ + term_text(*x1) + ")"@,
        SpecTerm::BitAnd(x0, x1) => "BitAnd("@ + term_text(*x0) + ", "@ + term_text(*x1) + ")"@,
        SpecTerm::BitOr(x0, x1) => "BitOr("@ + term_text(*x0) + ", "@ + term_text(*x1) + ")"@,
        SpecTerm::BitNot(x0) => "BitNot("@ + term_text(*x0) + ")"@,
        SpecTerm::Shl(x0, x1) => "Shl("@ + term_text(*x0) + ", "@ + term_text(*x1) + ")"@,
        SpecTerm::Shr(x0, x1) => "Shr("@ + term_text(*x0) + ", "@ + term_text(*x1) + ")"@,
        SpecTerm::Eq(x0, x1) => "Eq("@ + term_text(*x0) + ", "@ + term_text(*x1) + ")"@,
        SpecTerm::Lt(x0, x1) => "Lt("@ + term_text(*x0) + ", "@ + term_text(*x1) + ")"@,
        SpecTerm::Gt(x0, x1) => "Gt("@ + term_text(*x0) + ", "@ + term_text(*x1) + ")"@,
        SpecTerm::If(x0, x1, x2) => "If("@ + term_text(*x0) + ", "@ + term_text(*x1) + ", "@ + term_text(*x2) + ")"@,
        SpecTerm::Let(x0, x1, x2) => "Let("@ + quoted(x0) + ", "@ + term_text(*x1) + ", "@ + term_text(*x2) + ")"@,
        SpecTerm::LetRec(x0, x1, x2) => "LetRec("@ + quoted(x0) + ", "@ + term_text(*x1) + ", "@ + term_text(*x2) + ")"@,
        SpecTerm::Case(x0, x1) => "Case("@ + term_text(*x0) + ", "@ + bracketed(branches_items(x1)) + ")"@,
        SpecTerm::Do(x0) => "Do("@ + bracketed(terms_items(x0)) + ")"@,
        SpecTerm::Bind(x0, x1) => "Bind("@ + quoted(x0) + ", "@ + term_text(*x1) + ")"@,
        SpecTerm::Module(x0) => "Module("@ + quoted(x0) + ")"@,
        SpecTerm::Import(x0) => "Import("@ + quoted(x0) + ")"@,
        SpecTerm::Data(x0, x1, x2) => "Data("@ + quoted(x0) + ", "@ + names_text(x1) + ", "@ + bracketed(constructors_items(x2)) + ")"@,
        SpecTerm::Interface(x0, x1, x2) => "Interface("@ + quoted(x0) + ", "@ + names_text(x1) + ", "@ + bracketed(terms_items(x2)) + ")"@,
        SpecTerm::Implementation(x0, x1, x2) => "Implementation("@ + quoted(x0) + ", "@ + quoted(x1) + ", "@ + bracketed(terms_items(x2)) + ")"@,
        SpecTerm::Record(x0, x1) => "Record("@ + quoted(x0) + ", "@ + bracketed(fields_items(x1)) + ")"@,
        SpecTerm::Mutual(x0) => "Mutual("@ + bracketed(terms_items(x0)) + ")"@,
        SpecTerm::Where(x0, x1) => "Where("@ + term_text(*x0) + ", "@ + bracketed(terms_items(x1)) + ")"@,
        SpecTerm::Def(x0, x1, x2) => "Def("@ + quoted(x0) + ", "@ + names_text(x1) + ", "@ + term_text(*x2) + ")"@,
        SpecTerm::Buffer(x0) => "Buffer("@ + nat_digits(x0 as nat) + ")"@,
        SpecTerm::BufferLoad(x0, x1) => "BufferLoad("@ + term_text(*x0) + ", "@ + term_text(*x1) + ")"@,
        SpecTerm::BufferStore(x0, x1, x2) => "BufferStore("@ + term_text(*x0) + ", "@ + term_text(*x1) + ", "@ + term_text(*x2) + ")"@,
    }
}

proof fn lemma_prefix_add(p: Seq<char>, x: Seq<char>, y: Seq<char>)
    requires
        p.len() <= x.len(),
        x.take(p.len() as int) == p,
    ensures
        p.len() <= (x + y).len(),
        (x + y).take(p.len() as int) == p,
{
    assert((x + y).take(p.len() as int) =~= x.take(p.len() as int));
}

/// The name of a term's variant.
pub open spec fn variant_name(t: SpecTerm) -> Seq<char> {
    match t {
        SpecTerm::Var(..) => "Var"@,
        SpecTerm::Lambda(..) => "Lambda"@,
        SpecTerm::App(..) => "App"@,
        SpecTerm::Pi(..) => "Pi"@,
        SpecTerm::Universe(..) => "Universe"@,
        SpecTerm::Integer(..) => "Integer"@,
        SpecTerm::Float(..) => "Float"@,
        SpecTerm::String(..) => "String"@,
        SpecTerm::Char(..) => "Char"@,
        SpecTerm::IntegerType => "IntegerType"@,
        SpecTerm::FloatType => "FloatType"@,
        SpecTerm::StringType => "StringType"@,
        SpecTerm::CharType => "CharType"@,
        SpecTerm::I32Type => "I32Type"@,
        SpecTerm::I8Type => "I8Type"@,
        SpecTerm::Bits64Type => "Bits64Type"@,
        SpecTerm::IOType => "IOType"@,
        SpecTerm::TypeType => "TypeType"@,
        SpecTerm::Add(..) => "Add"@,
        SpecTerm::Sub(..) => "Sub"@,
        SpecTerm::Mul(..) => "Mul"@,
        SpecTerm::Div(..) => "Div"@,
        SpecTerm::Append(..) => "Append"@,
        SpecTerm::BitXor(..) => "BitXor"@,
        SpecTerm::BitAnd(..) => "BitAnd"@,
        SpecTerm::BitOr(..) => "BitOr"@,
        SpecTerm::BitNot(..) => "BitNot"@,
        SpecTerm::Shl(..) => "Shl"@,
        SpecTerm::Shr(..) => "Shr"@,
        SpecTerm::Eq(..) => "Eq"@,
        SpecTerm::Lt(..) => "Lt"@,
        SpecTerm::Gt(..) => "Gt"@,
        SpecTerm::If(..) => "If"@,
        SpecTerm::Let(..) => "Let"@,
        SpecTerm::LetRec(..) => "LetRec"@,
        SpecTerm::Case(..) => "Case"@,
        SpecTerm::Do(..) => "Do"@,
        SpecTerm::Bind(..) => "Bind"@,
        SpecTerm::Module(..) => "Module"@,
        SpecTerm::Import(..) => "Import"@,
        SpecTerm::Data(..) => "Data"@,
        SpecTerm::Interface(..) => "Interface"@,
        SpecTerm::Implementation(..) => "Implementation"@,
        SpecTerm::Record(..) => "Record"@,
        SpecTerm::Mutual(..) => "Mutual"@,
        SpecTerm::Where(..) => "Where"@,
        SpecTerm::Def(..) => "Def"@,
        SpecTerm::Buffer(..) => "Buffer"@,
        SpecTerm::BufferLoad(..) => "BufferLoad"@,
        SpecTerm::BufferStore(..) => "BufferStore"@,
    }
}

/// The text of a term begins with the name of the term's own variant, so
/// terms of different variants are told apart by their text.
pub proof fn law_text_names_variant(t: SpecTerm)
    ensures
        variant_name(t).len() <= term_text(t).len(),
        term_text(t).take(variant_name(t).len() as int) == variant_name(t),
{
    match t {
        SpecTerm::Var(x0) => {
            reveal_strlit("Var");
            reveal_strlit("Var(");
            let n = "Var"@;
            let mut acc = "Var("@;
            assert(acc.take(n.len() as int) =~= n);
            lemma_prefix_add(n, acc, quoted(x0));
            acc = acc + quoted(x0);
            lemma_prefix_add(n, acc, ")"@);
            acc = acc + ")"@;
            assert(acc == term_text(t));
        },
        SpecTerm::Lambda(x0, x1, x2) => {
            reveal_strlit("Lambda");
            reveal_strlit("Lambda(");
            let n = "Lambda"@;
            let mut acc = "Lambda("@;
            assert(acc.take(n.len() as int) =~= n);
            lemma_prefix_add(n, acc, quoted(x0));
            acc = acc + quoted(x0);
            lemma_prefix_add(n, acc, ", "@);
            acc = acc + ", "@;
            lemma_prefix_add(n, acc, term_text(*x1));
            acc = acc + term_text(*x1);
            lemma_prefix_add(n, acc, ", "@);
            acc = acc + ", "@;
            lemma_prefix_add(n, acc, term_text(*x2));
            acc = acc + term_text(*x2);
            lemma_prefix_add(n, acc, ")"@);
            acc = acc + ")"@;
            assert(acc == term_text(t));
        },
        SpecTerm::App(x0, x1) => {
            reveal_strlit("App");
            reveal_strlit("App(");
            let n = "App"@;
            let mut acc = "App("@;
            assert(acc.take(n.len() as int) =~= n);
            lemma_prefix_add(n, acc, term_text(*x0));
            acc = acc + term_text(*x0);
            lemma_prefix_add(n, acc, ", "@);
            acc = acc + ", "@;
            lemma_prefix_add(n, acc, term_text(*x1));
            acc = acc + term_text(*x1);
            lemma_prefix_add(n, acc, ")"@);
            acc = acc + ")"@;
            assert(acc == term_text(t));
        },
        SpecTerm::Pi(x0, x1, x2, x3) => {
            reveal_strlit("Pi");
            reveal_strlit("Pi(");
            let n = "Pi"@;
            let mut acc = "Pi("@;
            assert(acc.take(n.len() as int) =~= n);
            lemma_prefix_add(n, acc, quoted(x0));
            acc = acc + quoted(x0);
            lemma_prefix_add(n, acc, ", "@);
            acc = acc + ", "@;
            lemma_prefix_add(n, acc, multiplicity_text(x1));
            acc = acc + multiplicity_text(x1);
            lemma_prefix_add(n, acc, ", "@);
            acc = acc + ", "@;
            lemma_prefix_add(n, acc, term_text(*x2));
            acc = acc + term_text(*x2);
            lemma_prefix_add(n, acc, ", "@);
            acc = acc + ", "@;
            lemma_prefix_add(n, acc, term_text(*x3));
            acc = acc + term_text(*x3);
            lemma_prefix_add(n, acc, ")"@);
            acc = acc + ")"@;
            assert(acc == term_text(t));
        },
        SpecTerm::Universe(x0) => {
            reveal_strlit("Universe");
            reveal_strlit("Universe(");
            let n = "Universe"@;
            let mut acc = "Universe("@;
            assert(acc.take(n.len() as int) =~= n);
            lemma_prefix_add(n, acc, nat_digits(x0 as nat));
            acc = acc + nat_digits(x0 as nat);
            lemma_prefix_add(n, acc, ")"@);
            acc = acc + ")"@;
            assert(acc == term_text(t));
        },
        SpecTerm::Integer(x0) => {
            reveal_strlit("Integer");
            reveal_strlit("Integer(");
            let n = "Integer"@;
            let mut acc = "Integer("@;
            assert(acc.take(n.len() as int) =~= n);
            lemma_prefix_add(n, acc, int_text(x0 as int));
            acc = acc + int_text(x0 as int);
            lemma_prefix_add(n, acc, ")"@);
            acc = acc + ")"@;
            assert(acc == term_text(t));
        },
        SpecTerm::Float(x0) => {
            reveal_strlit("Float");
            reveal_strlit("Float(");
            let n = "Float"@;
            let mut acc = "Float("@;
            assert(acc.take(n.len() as int) =~= n);
            lemma_prefix_add(n, acc, x0);
            acc = acc + x0;
            lemma_prefix_add(n, acc, ")"@);
            acc = acc + ")"@;
            assert(acc == term_text(t));
        },
        SpecTerm::String(x0) => {
            reveal_strlit("String");
            reveal_strlit("String(");
            let n = "String"@;
            let mut acc = "String("@;
            assert(acc.take(n.len() as int) =~= n);
            lemma_prefix_add(n, acc, quoted(x0));
            acc = acc + quoted(x0);
            lemma_prefix_add(n, acc, ")"@);
            acc = acc + ")"@;
            assert(acc == term_text(t));
        },
        SpecTerm::Char(x0) => {
            reveal_strlit("Char");
            reveal_strlit("Char(");
            let n = "Char"@;
            let mut acc = "Char("@;
            assert(acc.take(n.len() as int) =~= n);
            lemma_prefix_add(n, acc, char_quoted(x0));
            acc = acc + char_quoted(x0);
            lemma_prefix_add(n, acc, ")"@);
            acc = acc + ")"@;
            assert(acc == term_text(t));
        },
        SpecTerm::IntegerType => {
            assert(term_text(t).take(variant_name(t).len() as int) =~= variant_name(t));
        },
        SpecTerm::FloatType => {
            assert(term_text(t).take(variant_name(t).len() as int) =~= variant_name(t));
        },
        SpecTerm::StringType => {
            assert(term_text(t).take(variant_name(t).len() as int) =~= variant_name(t));
        },
        SpecTerm::CharType => {
            assert(term_text(t).take(variant_name(t).len() as int) =~= variant_name(t));
        },
        SpecTerm::I32Type => {
            assert(term_text(t).take(variant_name(t).len() as int) =~= variant_name(t));
        },
        SpecTerm::I8Type => {
            assert(term_text(t).take(variant_name(t).len() as int) =~= variant_name(t));
        },
        SpecTerm::Bits64Type => {
            assert(term_text(t).take(variant_name(t).len() as int) =~= variant_name(t));
        },
        SpecTerm::IOType => {
            assert(term_text(t).take(variant_name(t).len() as int) =~= variant_name(t));
        },
        SpecTerm::TypeType => {
            assert(term_text(t).take(variant_name(t).len() as int) =~= variant_name(t));
        },
        SpecTerm::Add(x0, x1) => {
            reveal_strlit("Add");
            reveal_strlit("Add(");
            let n = "Add"@;
            let mut acc = "Add("@;
            assert(acc.take(n.len() as int) =~= n);
            lemma_prefix_add(n, acc, term_text(*x0));
            acc = acc + term_text(*x0);
            lemma_prefix_add(n, acc, ", "@);
            acc = acc + ", "@;
            lemma_prefix_add(n, acc, term_text(*x1));
            acc = acc + term_text(*x1);
            lemma_prefix_add(n, acc, ")"@);
            acc = acc + ")"@;
            assert(acc == term_text(t));
        },
        SpecTerm::Sub(x0, x1) => {
            reveal_strlit("Sub");
            reveal_strlit("Sub(");
            let n = "Sub"@;
            let mut acc = "Sub("@;
            assert(acc.take(n.len() as int) =~= n);
            lemma_prefix_add(n, acc, term_text(*x0));
            acc = acc + term_text(*x0);
            lemma_prefix_add(n, acc, ", "@);
            acc = acc + ", "@;
            lemma_prefix_add(n, acc, term_text(*x1));
            acc = acc + term_text(*x1);
            lemma_prefix_add(n, acc, ")"@);
            acc = acc + ")"@;
            assert(acc == term_text(t));
        },
        SpecTerm::Mul(x0, x1) => {
            reveal_strlit("Mul");
            reveal_strlit("Mul(");
            let n = "Mul"@;
            let mut acc = "Mul("@;
            assert(acc.take(n.len() as int) =~= n);
            lemma_prefix_add(n, acc, term_text(*x0));
            acc = acc + term_text(*x0);
            lemma_prefix_add(n, acc, ", "@);
            acc = acc + ", "@;
            lemma_prefix_add(n, acc, term_text(*x1));
            acc = acc + term_text(*x1);
            lemma_prefix_add(n, acc, ")"@);
            acc = acc + ")"@;
            assert(acc == term_text(t));
        },
        SpecTerm::Div(x0, x1) => {
            reveal_strlit("Div");
            reveal_strlit("Div(");
            let n = "Div"@;
            let mut acc = "Div("@;
            assert(acc.take(n.len() as int) =~= n);
            lemma_prefix_add(n, acc, term_text(*x0));
            acc = acc + term_text(*x0);
            lemma_prefix_add(n, acc, ", "@);
            acc = acc + ", "@;
            lemma_prefix_add(n, acc, term_text(*x1));
            acc = acc + term_text(*x1);
            lemma_prefix_add(n, acc, ")"@);
            acc = acc + ")"@;
            assert(acc == term_text(t));
        },
        SpecTerm::Append(x0, x1) => {
            reveal_strlit("Append");
            reveal_strlit("Append(");
            let n = "Append"@;
            let mut acc = "Append("@;
            assert(acc.take(n.len() as int) =~= n);
            lemma_prefix_add(n, acc, term_text(*x0));
            acc = acc + term_text(*x0);
            lemma_prefix_add(n, acc, ", "@);
            acc = acc + ", "@;
            lemma_prefix_add(n, acc, term_text(*x1));
            acc = acc + term_text(*x1);
            lemma_prefix_add(n, acc, ")"@);
            acc = acc + ")"@;
            assert(acc == term_text(t));
        },
        SpecTerm::BitXor(x0, x1) => {
            reveal_strlit("BitXor");
            reveal_strlit("BitXor(");
            let n = "BitXor"@;
            let mut acc = "BitXor("@;
            assert(acc.take(n.len() as int) =~= n);
            lemma_prefix_add(n, acc, term_text(*x0));
            acc = acc + term_text(*x0);
            lemma_prefix_add(n, acc, ", "@);
            acc = acc + ", "@;
            lemma_prefix_add(n, acc, term_text(*x1));
            acc = acc + term_text(*x1);
            lemma_prefix_add(n, acc, ")"@);
            acc = acc + ")"@;
            assert(acc == term_text(t));
        },
        SpecTerm::BitAnd(x0, x1) => {
            reveal_strlit("BitAnd");
            reveal_strlit("BitAnd(");
            let n = "BitAnd"@;
            let mut acc = "BitAnd("@;
            assert(acc.take(n.len() as int) =~= n);
            lemma_prefix_add(n, acc, term_text(*x0));
            acc = acc + term_text(*x0);
            lemma_prefix_add(n, acc, ", "@);
            acc = acc + ", "@;
            lemma_prefix_add(n, acc, term_text(*x1));
            acc = acc + term_text(*x1);
            lemma_prefix_add(n, acc, ")"@);
            acc = acc + ")"@;
            assert(acc == term_text(t));
        },
        SpecTerm::BitOr(x0, x1) => {
            reveal_strlit("BitOr");
            reveal_strlit("BitOr(");
            let n = "BitOr"@;
            let mut acc = "BitOr("@;
            assert(acc.take(n.len() as int) =~= n);
            lemma_prefix_add(n, acc, term_text(*x0));
            acc = acc + term_text(*x0);
            lemma_prefix_add(n, acc, ", "@);
            acc = acc + ", "@;
            lemma_prefix_add(n, acc, term_text(*x1));
            acc = acc + term_text(*x1);
            lemma_prefix_add(n, acc, ")"@);
            acc = acc + ")"@;
            assert(acc == term_text(t));
        },
        SpecTerm::BitNot(x0) => {
            reveal_strlit("BitNot");
            reveal_strlit("BitNot(");
            let n = "BitNot"@;
            let mut acc = "BitNot("@;
            assert(acc.take(n.len() as int) =~= n);
            lemma_prefix_add(n, acc, term_text(*x0));
            acc = acc + term_text(*x0);
            lemma_prefix_add(n, acc, ")"@);
            acc = acc + ")"@;
            assert(acc == term_text(t));
        },
        SpecTerm::Shl(x0, x1) => {
            reveal_strlit("Shl");
            reveal_strlit("Shl(");
            let n = "Shl"@;
            let mut acc = "Shl("@;
            assert(acc.take(n.len() as int) =~= n);
            lemma_prefix_add(n, acc, term_text(*x0));
            acc = acc + term_text(*x0);
            lemma_prefix_add(n, acc, ", "@);
            acc = acc + ", "@;
            lemma_prefix_add(n, acc, term_text(*x1));
            acc = acc + term_text(*x1);
            lemma_prefix_add(n, acc, ")"@);
            acc = acc + ")"@;
            assert(acc == term_text(t));
        },
        SpecTerm::Shr(x0, x1) => {
            reveal_strlit("Shr");
            reveal_strlit("Shr(");
            let n = "Shr"@;
            let mut acc = "Shr("@;
            assert(acc.take(n.len() as int) =~= n);
            lemma_prefix_add(n, acc, term_text(*x0));
            acc = acc + term_text(*x0);
            lemma_prefix_add(n, acc, ", "@);
            acc = acc + ", "@;
            lemma_prefix_add(n, acc, term_text(*x1));
            acc = acc + term_text(*x1);
            lemma_prefix_add(n, acc, ")"@);
            acc = acc + ")"@;
            assert(acc == term_text(t));
        },
        SpecTerm::Eq(x0, x1) => {
            reveal_strlit("Eq");
            reveal_strlit("Eq(");
            let n = "Eq"@;
            let mut acc = "Eq("@;
            assert(acc.take(n.len() as int) =~= n);
            lemma_prefix_add(n, acc, term_text(*x0));
            acc = acc + term_text(*x0);
            lemma_prefix_add(n, acc, ", "@);
            acc = acc + ", "@;
            lemma_prefix_add(n, acc, term_text(*x1));
            acc = acc + term_text(*x1);
            lemma_prefix_add(n, acc, ")"@);
            acc = acc + ")"@;
            assert(acc == term_text(t));
        },
        SpecTerm::Lt(x0, x1) => {
            reveal_strlit("Lt");
            reveal_strlit("Lt(");
            let n = "Lt"@;
            let mut acc = "Lt("@;
            assert(acc.take(n.len() as int) =~= n);
            lemma_prefix_add(n, acc, term_text(*x0));
            acc = acc + term_text(*x0);
            lemma_prefix_add(n, acc, ", "@);
            acc = acc + ", "@;
            lemma_prefix_add(n, acc, term_text(*x1));
            acc = acc + term_text(*x1);
            lemma_prefix_add(n, acc, ")"@);
            acc = acc + ")"@;
            assert(acc == term_text(t));
        },
        SpecTerm::Gt(x0, x1) => {
            reveal_strlit("Gt");
            reveal_strlit("Gt(");
            let n = "Gt"@;
            let mut acc = "Gt("@;
            assert(acc.take(n.len() as int) =~= n);
            lemma_prefix_add(n, acc, term_text(*x0));
            acc = acc + term_text(*x0);
            lemma_prefix_add(n, acc, ", "@);
            acc = acc + ", "@;
            lemma_prefix_add(n, acc, term_text(*x1));
            acc = acc + term_text(*x1);
            lemma_prefix_add(n, acc, ")"@);
            acc = acc + ")"@;
            assert(acc == term_text(t));
        },
        SpecTerm::If(x0, x1, x2) => {
            reveal_strlit("If");
            reveal_strlit("If(");
            let n = "If"@;
            let mut acc = "If("@;
            assert(acc.take(n.len() as int) =~= n);
            lemma_prefix_add(n, acc, term_text(*x0));
            acc = acc + term_text(*x0);
            lemma_prefix_add(n, acc, ", "@);
            acc = acc + ", "@;
            lemma_prefix_add(n, acc, term_text(*x1));
            acc = acc + term_text(*x1);
            lemma_prefix_add(n, acc, ", "@);
            acc = acc + ", "@;
            lemma_prefix_add(n, acc, term_text(*x2));
            acc = acc + term_text(*x2);
            lemma_prefix_add(n, acc, ")"@);
            acc = acc + ")"@;
            assert(acc == term_text(t));
        },
        SpecTerm::Let(x0, x1, x2) => {
            reveal_strlit("Let");
            reveal_strlit("Let(");
            let n = "Let"@;
            let mut acc = "Let("@;
            assert(acc.take(n.len() as int) =~= n);
            lemma_prefix_add(n, acc, quoted(x0));
            acc = acc + quoted(x0);
            lemma_prefix_add(n, acc, ", "@);
            acc = acc + ", "@;
            lemma_prefix_add(n, acc, term_text(*x1));
            acc = acc + term_text(*x1);
            lemma_prefix_add(n, acc, ", "@);
            acc = acc + ", "@;
            lemma_prefix_add(n, acc, term_text(*x2));
            acc = acc + term_text(*x2);
            lemma_prefix_add(n, acc, ")"@);
            acc = acc + ")"@;
            assert(acc == term_text(t));
        },
        SpecTerm::LetRec(x0, x1, x2) => {
            reveal_strlit("LetRec");
            reveal_strlit("LetRec(");
            let n = "LetRec"@;
            let mut acc = "LetRec("@;
            assert(acc.take(n.len() as int) =~= n);
            lemma_prefix_add(n, acc, quoted(x0));
            acc = acc + quoted(x0);
            lemma_prefix_add(n, acc, ", "@);
            acc = acc + ", "@;
            lemma_prefix_add(n, acc, term_text(*x1));
            acc = acc + term_text(*x1);
            lemma_prefix_add(n, acc, ", "@);
            acc = acc + ", "@;
            lemma_prefix_add(n, acc, term_text(*x2));
            acc = acc + term_text(*x2);
            lemma_prefix_add(n, acc, ")"@);
            acc = acc + ")"@;
            assert(acc == term_text(t));
        },
        SpecTerm::Case(x0, x1) => {
            reveal_strlit("Case");
            reveal_strlit("Case(");
            let n = "Case"@;
            let mut acc = "Case("@;
            assert(acc.take(n.len() as int) =~= n);
            lemma_prefix_add(n, acc, term_text(*x0));
            acc = acc + term_text(*x0);
            lemma_prefix_add(n, acc, ", "@);
            acc = acc + ", "@;
            lemma_prefix_add(n, acc, bracketed(branches_items(x1)));
            acc = acc + bracketed(branches_items(x1));
            lemma_prefix_add(n, acc, ")"@);
            acc = acc + ")"@;
            assert(acc == term_text(t));
        },
        SpecTerm::Do(x0) => {
            reveal_strlit("Do");
            reveal_strlit("Do(");
            let n = "Do"@;
            let mut acc = "Do("@;
            assert(acc.take(n.len() as int) =~= n);
            lemma_prefix_add(n, acc, bracketed(terms_items(x0)));
            acc = acc + bracketed(terms_items(x0));
            lemma_prefix_add(n, acc, ")"@);
            acc = acc + ")"@;
            assert(acc == term_text(t));
        },
        SpecTerm::Bind(x0, x1) => {
            reveal_strlit("Bind");
            reveal_strlit("Bind(");
            let n = "Bind"@;
            let mut acc = "Bind("@;
            assert(acc.take(n.len() as int) =~= n);
            lemma_prefix_add(n, acc, quoted(x0));
            acc = acc + quoted(x0);
            lemma_prefix_add(n, acc, ", "@);
            acc = acc + ", "@;
            lemma_prefix_add(n, acc, term_text(*x1));
            acc = acc + term_text(*x1);
            lemma_prefix_add(n, acc, ")"@);
            acc = acc + ")"@;
            assert(acc == term_text(t));
        },
        SpecTerm::Module(x0) => {
            reveal_strlit("Module");
            reveal_strlit("Module(");
            let n = "Module"@;
            let mut acc = "Module("@;
            assert(acc.take(n.len() as int) =~= n);
            lemma_prefix_add(n, acc, quoted(x0));
            acc = acc + quoted(x0);
            lemma_prefix_add(n, acc, ")"@);
            acc = acc + ")"@;
            assert(acc == term_text(t));
        },
        SpecTerm::Import(x0) => {
            reveal_strlit("Import");
            reveal_strlit("Import(");
            let n = "Import"@;
            let mut acc = "Import("@;
            assert(acc.take(n.len() as int) =~= n);
            lemma_prefix_add(n, acc, quoted(x0));
            acc = acc + quoted(x0);
            lemma_prefix_add(n, acc, ")"@);
            acc = acc + ")"@;
            assert(acc == term_text(t));
        },
        SpecTerm::Data(x0, x1, x2) => {
            reveal_strlit("Data");
            reveal_strlit("Data(");
            let n = "Data"@;
            let mut acc = "Data("@;
            assert(acc.take(n.len() as int) =~= n);
            lemma_prefix_add(n, acc, quoted(x0));
            acc = acc + quoted(x0);
            lemma_prefix_add(n, acc, ", "@);
            acc = acc + ", "@;
            lemma_prefix_add(n, acc, names_text(x1));
            acc = acc + names_text(x1);
            lemma_prefix_add(n, acc, ", "@);
            acc = acc + ", "@;
            lemma_prefix_add(n, acc, bracketed(constructors_items(x2)));
            acc = acc + bracketed(constructors_items(x2));
            lemma_prefix_add(n, acc, ")"@);
            acc = acc + ")"@;
            assert(acc == term_text(t));
        },
        SpecTerm::Interface(x0, x1, x2) => {
            reveal_strlit("Interface");
            reveal_strlit("Interface(");
            let n = "Interface"@;
            let mut acc = "Interface("@;
            assert(acc.take(n.len() as int) =~= n);
            lemma_prefix_add(n, acc, quoted(x0));
            acc = acc + quoted(x0);
            lemma_prefix_add(n, acc, ", "@);
            acc = acc + ", "@;
            lemma_prefix_add(n, acc, names_text(x1));
            acc = acc + names_text(x1);
            lemma_prefix_add(n, acc, ", "@);
            acc = acc + ", "@;
            lemma_prefix_add(n, acc, bracketed(terms_items(x2)));
            acc = acc + bracketed(terms_items(x2));
            lemma_prefix_add(n, acc, ")"@);
            acc = acc + ")"@;
            assert(acc == term_text(t));
        },
        SpecTerm::Implementation(x0, x1, x2) => {
            reveal_strlit("Implementation");
            reveal_strlit("Implementation(");
            let n = "Implementation"@;
            let mut acc = "Implementation("@;
            assert(acc.take(n.len() as int) =~= n);
            lemma_prefix_add(n, acc, quoted(x0));
            acc = acc + quoted(x0);
            lemma_prefix_add(n, acc, ", "@);
            acc = acc + ", "@;
            lemma_prefix_add(n, acc, quoted(x1));
            acc = acc + quoted(x1);
            lemma_prefix_add(n, acc, ", "@);
            acc = acc + ", "@;
            lemma_prefix_add(n, acc, bracketed(terms_items(x2)));
            acc = acc + bracketed(terms_items(x2));
            lemma_prefix_add(n, acc, ")"@);
            acc = acc + ")"@;
            assert(acc == term_text(t));
        },
        SpecTerm::Record(x0, x1) => {
            reveal_strlit("Record");
            reveal_strlit("Record(");
            let n = "Record"@;
            let mut acc = "Record("@;
            assert(acc.take(n.len() as int) =~= n);
            lemma_prefix_add(n, acc, quoted(x0));
            acc = acc + quoted(x0);
            lemma_prefix_add(n, acc, ", "@);
            acc = acc + ", "@;
            lemma_prefix_add(n, acc, bracketed(fields_items(x1)));
            acc = acc + bracketed(fields_items(x1));
            lemma_prefix_add(n, acc, ")"@);
            acc = acc + ")"@;
            assert(acc == term_text(t));
        },
        SpecTerm::Mutual(x0) => {
            reveal_strlit("Mutual");
            reveal_strlit("Mutual(");
            let n = "Mutual"@;
            let mut acc = "Mutual("@;
            assert(acc.take(n.len() as int) =~= n);
            lemma_prefix_add(n, acc, bracketed(terms_items(x0)));
            acc = acc + bracketed(terms_items(x0));
            lemma_prefix_add(n, acc, ")"@);
            acc = acc + ")"@;
            assert(acc == term_text(t));
        },
        SpecTerm::Where(x0, x1) => {
            reveal_strlit("Where");
            reveal_strlit("Where(");
            let n = "Where"@;
            let mut acc = "Where("@;
            assert(acc.take(n.len() as int) =~= n);
            lemma_prefix_add(n, acc, term_text(*x0));
            acc = acc + term_text(*x0);
            lemma_prefix_add(n, acc, ", "@);
            acc = acc + ", "@;
            lemma_prefix_add(n, acc, bracketed(terms_items(x1)));
            acc = acc + bracketed(terms_items(x1));
            lemma_prefix_add(n, acc, ")"@);
            acc = acc + ")"@;
            assert(acc == term_text(t));
        },
        SpecTerm::Def(x0, x1, x2) => {
            reveal_strlit("Def");
            reveal_strlit("Def(");
            let n = "Def"@;
            let mut acc = "Def("@;
            assert(acc.take(n.len() as int) =~= n);
            lemma_prefix_add(n, acc, quoted(x0));
            acc = acc + quoted(x0);
            lemma_prefix_add(n, acc, ", "@);
            acc = acc + ", "@;
            lemma_prefix_add(n, acc, names_text(x1));
            acc = acc + names_text(x1);
            lemma_prefix_add(n, acc, ", "@);
            acc = acc + ", "@;
            lemma_prefix_add(n, acc, term_text(*x2));
            acc = acc + term_text(*x2);
            lemma_prefix_add(n, acc, ")"@);
            acc = acc + ")"@;
            assert(acc == term_text(t));
        },
        SpecTerm::Buffer(x0) => {
            reveal_strlit("Buffer");
            reveal_strlit("Buffer(");
            let n = "Buffer"@;
            let mut acc = "Buffer("@;
            assert(acc.take(n.len() as int) =~= n);
            lemma_prefix_add(n, acc, nat_digits(x0 as nat));
            acc = acc + nat_digits(x0 as nat);
            lemma_prefix_add(n, acc, ")"@);
            acc = acc + ")"@;
            assert(acc == term_text(t));
        },
        SpecTerm::BufferLoad(x0, x1) => {
            reveal_strlit("BufferLoad");
            reveal_strlit("BufferLoad(");
            let n = "BufferLoad"@;
            let mut acc = "BufferLoad("@;
            assert(acc.take(n.len() as int) =~= n);
            lemma_prefix_add(n, acc, term_text(*x0));
            acc = acc + term_text(*x0);
            lemma_prefix_add(n, acc, ", "@);
            acc = acc + ", "@;
            lemma_prefix_add(n, acc, term_text(*x1));
            acc = acc + term_text(*x1);
            lemma_prefix_add(n, acc, ")"@);
            acc = acc + ")"@;
            assert(acc == term_text(t));
        },
        SpecTerm::BufferStore(x0, x1, x2) => {
            reveal_strlit("BufferStore");
            reveal_strlit("BufferStore(");
            let n = "BufferStore"@;
            let mut acc = "BufferStore("@;
            assert(acc.take(n.len() as int) =~= n);
            lemma_prefix_add(n, acc, term_text(*x0));
            acc = acc + term_text(*x0);
            lemma_prefix_add(n, acc, ", "@);
            acc = acc + ", "@;
            lemma_prefix_add(n, acc, term_text(*x1));
            acc = acc + term_text(*x1);
            lemma_prefix_add(n, acc, ", "@);
            acc = acc + ", "@;
            lemma_prefix_add(n, acc, term_text(*x2));
            acc = acc + term_text(*x2);
            lemma_prefix_add(n, acc, ")"@);
            acc = acc + ")"@;
            assert(acc == term_text(t));
        },
    }
}

/// The text of an operation on two terms is the operation's name followed,
/// in brackets, by the texts of its left and right operands in that order.
pub proof fn law_operation_text(a: SpecTerm, b: SpecTerm)
    ensures
        term_text(SpecTerm::App(Box::new(a), Box::new(b))) == variant_name(SpecTerm::App(Box::new(a), Box::new(b))) + "("@ + term_text(a) + ", "@ + term_text(b) + ")"@,
        term_text(SpecTerm::Add(Box::new(a), Box::new(b))) == variant_name(SpecTerm::Add(Box::new(a), Box::new(b))) + "("@ + term_text(a) + ", "@ + term_text(b) + ")"@,
        term_text(SpecTerm::Sub(Box::new(a), Box::new(b))) == variant_name(SpecTerm::Sub(Box::new(a), Box::new(b))) + "("@ + term_text(a) + ", "@ + term_text(b) + ")"@,
        term_text(SpecTerm::Mul(Box::new(a), Box::new(b))) == variant_name(SpecTerm::Mul(Box::new(a), Box::new(b))) + "("@ + term_text(a) + ", "@ + term_text(b) + ")"@,
        term_text(SpecTerm::Div(Box::new(a), Box::new(b))) == variant_name(SpecTerm::Div(Box::new(a), Box::new(b))) + "("@ + term_text(a) + ", "@ + term_text(b) + ")"@,
        term_text(SpecTerm::Append(Box::new(a), Box::new(b))) == variant_name(SpecTerm::Append(Box::new(a), Box::new(b))) + "("@ + term_text(a) + ", "@ + term_text(b) + ")"@,
        term_text(SpecTerm::BitXor(Box::new(a), Box::new(b))) == variant_name(SpecTerm::BitXor(Box::new(a), Box::new(b))) + "("@ + term_text(a) + ", "@ + term_text(b) + ")"@,
        term_text(SpecTerm::BitAnd(Box::new(a), Box::new(b))) == variant_name(SpecTerm::BitAnd(Box::new(a), Box::new(b))) + "("@ + term_text(a) + ", "@ + term_text(b) + ")"@,
        term_text(SpecTerm::BitOr(Box::new(a), Box::new(b))) == variant_name(SpecTerm::BitOr(Box::new(a), Box::new(b))) + "("@ + term_text(a) + ", "@ + term_text(b) + ")"@,
        term_text(SpecTerm::Shl(Box::new(a), Box::new(b))) == variant_name(SpecTerm::Shl(Box::new(a), Box::new(b))) + "("@ + term_text(a) + ", "@ + term_text(b) + ")"@,
        term_text(SpecTerm::Shr(Box::new(a), Box::new(b))) == variant_name(SpecTerm::Shr(Box::new(a), Box::new(b))) + "("@ + term_text(a) + ", "@ + term_text(b) + ")"@,
        term_text(SpecTerm::Eq(Box::new(a), Box::new(b))) == variant_name(SpecTerm::Eq(Box::new(a), Box::new(b))) + "("@ + term_text(a) + ", "@ + term_text(b) + ")"@,
        term_text(SpecTerm::Lt(Box::new(a), Box::new(b))) == variant_name(SpecTerm::Lt(Box::new(a), Box::new(b))) + "("@ + term_text(a) + ", "@ + term_text(b) + ")"@,
        term_text(SpecTerm::Gt(Box::new(a), Box::new(b))) == variant_name(SpecTerm::Gt(Box::new(a), Box::new(b))) + "("@ + term_text(a) + ", "@ + term_text(b) + ")"@,
        term_text(SpecTerm::BufferLoad(Box::new(a), Box::new(b))) == variant_name(SpecTerm::BufferLoad(Box::new(a), Box::new(b))) + "("@ + term_text(a) + ", "@ + term_text(b) + ")"@,
{
    reveal_strlit("(");
    reveal_strlit("App");
    reveal_strlit("App(");
    assert("App("@ =~= "App"@ + "("@);
    reveal_strlit("Add");
    reveal_strlit("Add(");
    assert("Add("@ =~= "Add"@ + "("@);
    reveal_strlit("Sub");
    reveal_strlit("Sub(");
    assert("Sub("@ =~= "Sub"@ + "("@);
    reveal_strlit("Mul");
    reveal_strlit("Mul(");
    assert("Mul("@ =~= "Mul"@ + "("@);
    reveal_strlit("Div");
    reveal_strlit("Div(");
    assert("Div("@ =~= "Div"@ + "("@);
    reveal_strlit("Append");
    reveal_strlit("Append(");
    assert("Append("@ =~= "Append"@ + "("@);
    reveal_strlit("BitXor");
    reveal_strlit("BitXor(");
    assert("BitXor("@ =~= "BitXor"@ + "("@);
    reveal_strlit("BitAnd");
    reveal_strlit("BitAnd(");
    assert("BitAnd("@ =~= "BitAnd"@ + "("@);
    reveal_strlit("BitOr");
    reveal_strlit("BitOr(");
    assert("BitOr("@ =~= "BitOr"@ + "("@);
    reveal_strlit("Shl");
    reveal_strlit("Shl(");
    assert("Shl("@ =~= "Shl"@ + "("@);
    reveal_strlit("Shr");
    reveal_strlit("Shr(");
    assert("Shr("@ =~= "Shr"@ + "("@);
    reveal_strlit("Eq");
    reveal_strlit("Eq(");
    assert("Eq("@ =~= "Eq"@ + "("@);
    reveal_strlit("Lt");
    reveal_strlit("Lt(");
    assert("Lt("@ =~= "Lt"@ + "("@);
    reveal_strlit("Gt");
    reveal_strlit("Gt(");
    assert("Gt("@ =~= "Gt"@ + "("@);
    reveal_strlit("BufferLoad");
    reveal_strlit("BufferLoad(");
    assert("BufferLoad("@ =~= "BufferLoad"@ + "("@);
}

/// The texts of the terms, separated by commas.
pub open spec fn terms_items(ts: Seq<SpecTerm>) -> Seq<char>
    decreases ts,
{
    if ts.len() == 0 {
        Seq::empty()
    } else if ts.len() == 1 {
        term_text(ts[0])
    } else {
        terms_items(ts.drop_last()) + ", "@ + term_text(ts.last())
    }
}

/// The case branches as tuples of pattern, arguments and body, separated
/// by commas.
pub open spec fn branches_items(bs: Seq<SpecBranch>) -> Seq<char>
    decreases bs,
{
    if bs.len() == 0 {
        Seq::empty()
    } else if bs.len() == 1 {
        "("@ + quoted(bs[0].pattern) + ", "@ + names_text(bs[0].args) + ", "@ + term_text(bs[0].body) + ")"@
    } else {
        branches_items(bs.drop_last()) + ", "@ + ("("@ + quoted(bs.last().pattern) + ", "@ + names_text(
            bs.last().args,
        ) + ", "@ + term_text(bs.last().body) + ")"@)
    }
}

/// The constructors as structures with their name and fields, separated by
/// commas.
pub open spec fn constructors_items(cs: Seq<SpecConstructor>) -> Seq<char>
    decreases cs,
{
    if cs.len() == 0 {
        Seq::empty()
    } else if cs.len() == 1 {
        "Constructor { name: "@ + quoted(cs[0].name) + ", fields: "@ + bracketed(terms_items(cs[0].fields)) + " }"@
    } else {
        constructors_items(cs.drop_last()) + ", "@ + ("Constructor { name: "@ + quoted(cs.last().name)
            + ", fields: "@ + bracketed(terms_items(cs.last().fields)) + " }"@)
    }
}

/// The record fields as pairs of name and type, separated by commas.
pub open spec fn fields_items(fs: Seq<(Seq<char>, SpecTerm)>) -> Seq<char>
    decreases fs,
{
    if fs.len() == 0 {
        Seq::empty()
    } else if fs.len() == 1 {
        "("@ + quoted(fs[0].0) + ", "@ + term_text(fs[0].1) + ")"@
    } else {
        fields_items(fs.drop_last()) + ", "@ + ("("@ + quoted(fs.last().0) + ", "@ + term_text(fs.last().1)
            + ")"@)
    }
}

/// The name of a multiplicity.
fn multiplicity_text_of(q: Multiplicity) -> (r: String)
    ensures
        r@ == multiplicity_text(q),
{
    match q {
        Multiplicity::Zero => "Zero".to_owned(),
        Multiplicity::One => "One".to_owned(),
        Multiplicity::Many => "Many".to_owned(),
    }
}

/// A list of names in square brackets.
pub fn names_text_of(ns: &Vec<String>) -> (r: String)
    ensures
        r@ == names_text(names_view(ns@)),
{
    let mut items = String::new();
    let mut i: usize = 0;
    proof {
        assert(names_view(ns@.take(0)) =~= Seq::<Seq<char>>::empty());
    }
    while i < ns.len()
        invariant
            i <= ns.len(),
            items@ == names_items(names_view(ns@.take(i as int))),
        decreases ns.len() - i,
    {
        let piece = quoted_text(ns[i].as_str());
        proof {
            let v = names_view(ns@.take(i + 1));
            assert(v.drop_last() =~= names_view(ns@.take(i as int)));
            assert(v.last() == ns@[i as int]@);
            assert(v.len() == i + 1);
            if i == 0 {
                assert(v[0] == ns@[0]@);
            }
        }
        if i == 0 {
            items = piece;
        } else {
            items.append(", ");
            items.append(piece.as_str());
        }
        i += 1;
    }
    proof {
        assert(ns@.take(ns@.len() as int) =~= ns@);
    }
    let mut r = "[".to_owned();
    r.append(items.as_str());
    r.append("]");
    r
}

/// The text of a term.
#[verifier::rlimit(60)]
pub fn term_text_of(t: &Term) -> (r: String)
    ensures
        r@ == term_text(t@),
    decreases t, 2int,
{
    match t {
        Term::Var(x0) => {
            let mut r = "Var(".to_owned();
            let p0 = quoted_text(x0.as_str());
            r.append(p0.as_str());
            r.append(")");
            r
        },
        Term::Lambda(x0, x1, x2) => {
            let mut r = "Lambda(".to_owned();
            let p0 = quoted_text(x0.as_str());
            r.append(p0.as_str());
            r.append(", ");
            let p1 = term_text_of(x1);
            r.append(p1.as_str());
            r.append(", ");
            let p2 = term_text_of(x2);
            r.append(p2.as_str());
            r.append(")");
            r
        },
        Term::App(x0, x1) => {
            let mut r = "App(".to_owned();
            let p0 = term_text_of(x0);
            r.append(p0.as_str());
            r.append(", ");
            let p1 = term_text_of(x1);
            r.append(p1.as_str());
            r.append(")");
            r
        },
        Term::Pi(x0, x1, x2, x3) => {
            let mut r = "Pi(".to_owned();
            let p0 = quoted_text(x0.as_str());
            r.append(p0.as_str());
            r.append(", ");
            let p1 = multiplicity_text_of(*x1);
            r.append(p1.as_str());
            r.append(", ");
            let p2 = term_text_of(x2);
            r.append(p2.as_str());
            r.append(", ");
            let p3 = term_text_of(x3);
            r.append(p3.as_str());
            r.append(")");
            r
        },
        Term::Universe(x0) => {
            let mut r = "Universe(".to_owned();
            let p0 = usize_to_text(*x0);
            r.append(p0.as_str());
            r.append(")");
            r
        },
        Term::Integer(x0) => {
            let mut r = "Integer(".to_owned();
            let p0 = i64_to_text(*x0);
            r.append(p0.as_str());
            r.append(")");
            r
        },
        Term::Float(x0) => {
            let mut r = "Float(".to_owned();
            let p0 = x0.clone();
            r.append(p0.as_str());
            r.append(")");
            r
        },
        Term::String(x0) => {
            let mut r = "String(".to_owned();
            let p0 = quoted_text(x0.as_str());
            r.append(p0.as_str());
            r.append(")");
            r
        },
        Term::Char(x0) => {
            let mut r = "Char(".to_owned();
            let p0 = char_debug_text(*x0);
            r.append(p0.as_str());
            r.append(")");
            r
        },
        Term::IntegerType => "IntegerType".to_owned(),
        Term::FloatType => "FloatType".to_owned(),
        Term::StringType => "StringType".to_owned(),
        Term::CharType => "CharType".to_owned(),
        Term::I32Type => "I32Type".to_owned(),
        Term::I8Type => "I8Type".to_owned(),
        Term::Bits64Type => "Bits64Type".to_owned(),
        Term::IOType => "IOType".to_owned(),
        Term::TypeType => "TypeType".to_owned(),
        Term::Add(x0, x1) => {
            let mut r = "Add(".to_owned();
            let p0 = term_text_of(x0);
            r.append(p0.as_str());
            r.append(", ");
            let p1 = term_text_of(x1);
            r.append(p1.as_str());
            r.append(")");
            r
        },
        Term::Sub(x0, x1) => {
            let mut r = "Sub(".to_owned();
            let p0 = term_text_of(x0);
            r.append(p0.as_str());
            r.append(", ");
            let p1 = term_text_of(x1);
            r.append(p1.as_str());
            r.append(")");
            r
        },
        Term::Mul(x0, x1) => {
            let mut r = "Mul(".to_owned();
            let p0 = term_text_of(x0);
            r.append(p0.as_str());
            r.append(", ");
            let p1 = term_text_of(x1);
            r.append(p1.as_str());
            r.append(")");
            r
        },
        Term::Div(x0, x1) => {
            let mut r = "Div(".to_owned();
            let p0 = term_text_of(x0);
            r.append(p0.as_str());
            r.append(", ");
            let p1 = term_text_of(x1);
            r.append(p1.as_str());
            r.append(")");
            r
        },
        Term::Append(x0, x1) => {
            let mut r = "Append(".to_owned();
            let p0 = term_text_of(x0);
            r.append(p0.as_str());
            r.append(", ");
            let p1 = term_text_of(x1);
            r.append(p1.as_str());
            r.append(")");
            r
        },
        Term::BitXor(x0, x1) => {
            let mut r = "BitXor(".to_owned();
            let p0 = term_text_of(x0);
            r.append(p0.as_str());
            r.append(", ");
            let p1 = term_text_of(x1);
            r.append(p1.as_str());
            r.append(")");
            r
        },
        Term::BitAnd(x0, x1) => {
            let mut r = "BitAnd(".to_owned();
            let p0 = term_text_of(x0);
            r.append(p0.as_str());
            r.append(", ");
            let p1 = term_text_of(x1);
            r.append(p1.as_str());
            r.append(")");
            r
        },
        Term::BitOr(x0, x1) => {
            let mut r = "BitOr(".to_owned();
            let p0 = term_text_of(x0);
            r.append(p0.as_str());
            r.append(", ");
            let p1 = term_text_of(x1);
            r.append(p1.as_str());
            r.append(")");
            r
        },
        Term::BitNot(x0) => {
            let mut r = "BitNot(".to_owned();
            let p0 = term_text_of(x0);
            r.append(p0.as_str());
            r.append(")");
            r
        },
        Term::Shl(x0, x1) => {
            let mut r = "Shl(".to_owned();
            let p0 = term_text_of(x0);
            r.append(p0.as_str());
            r.append(", ");
            let p1 = term_text_of(x1);
            r.append(p1.as_str());
            r.append(")");
            r
        },
        Term::Shr(x0, x1) => {
            let mut r = "Shr(".to_owned();
            let p0 = term_text_of(x0);
            r.append(p0.as_str());
            r.append(", ");
            let p1 = term_text_of(x1);
            r.append(p1.as_str());
            r.append(")");
            r
        },
        Term::Eq(x0, x1) => {
            let mut r = "Eq(".to_owned();
            let p0 = term_text_of(x0);
            r.append(p0.as_str());
            r.append(", ");
            let p1 = term_text_of(x1);
            r.append(p1.as_str());
            r.append(")");
            r
        },
        Term::Lt(x0, x1) => {
            let mut r = "Lt(".to_owned();
            let p0 = term_text_of(x0);
            r.append(p0.as_str());
            r.append(", ");
            let p1 = term_text_of(x1);
            r.append(p1.as_str());
            r.append(")");
            r
        },
        Term::Gt(x0, x1) => {
            let mut r = "Gt(".to_owned();
            let p0 = term_text_of(x0);
            r.append(p0.as_str());
            r.append(", ");
            let p1 = term_text_of(x1);
            r.append(p1.as_str());
            r.append(")");
            r
        },
        Term::If(x0, x1, x2) => {
            let mut r = "If(".to_owned();
            let p0 = term_text_of(x0);
            r.append(p0.as_str());
            r.append(", ");
            let p1 = term_text_of(x1);
            r.append(p1.as_str());
            r.append(", ");
            let p2 = term_text_of(x2);
            r.append(p2.as_str());
            r.append(")");
            r
        },
        Term::Let(x0, x1, x2) => {
            let mut r = "Let(".to_owned();
            let p0 = quoted_text(x0.as_str());
            r.append(p0.as_str());
            r.append(", ");
            let p1 = term_text_of(x1);
            r.append(p1.as_str());
            r.append(", ");
            let p2 = term_text_of(x2);
            r.append(p2.as_str());
            r.append(")");
            r
        },
        Term::LetRec(x0, x1, x2) => {
            let mut r = "LetRec(".to_owned();
            let p0 = quoted_text(x0.as_str());
            r.append(p0.as_str());
            r.append(", ");
            let p1 = term_text_of(x1);
            r.append(p1.as_str());
            r.append(", ");
            let p2 = term_text_of(x2);
            r.append(p2.as_str());
            r.append(")");
            r
        },
        Term::Case(x0, x1) => {
            let mut r = "Case(".to_owned();
            let p0 = term_text_of(x0);
            r.append(p0.as_str());
            r.append(", ");
            let p1 = branches_text_of(x1, Ghost(t));
            r.append(p1.as_str());
            r.append(")");
            r
        },
        Term::Do(x0) => {
            let mut r = "Do(".to_owned();
            let p0 = terms_text_of(x0);
            r.append(p0.as_str());
            r.append(")");
            r
        },
        Term::Bind(x0, x1) => {
            let mut r = "Bind(".to_owned();
            let p0 = quoted_text(x0.as_str());
            r.append(p0.as_str());
            r.append(", ");
            let p1 = term_text_of(x1);
            r.append(p1.as_str());
            r.append(")");
            r
        },
        Term::Module(x0) => {
            let mut r = "Module(".to_owned();
            let p0 = quoted_text(x0.as_str());
            r.append(p0.as_str());
            r.append(")");
            r
        },
        Term::Import(x0) => {
            let mut r = "Import(".to_owned();
            let p0 = quoted_text(x0.as_str());
            r.append(p0.as_str());
            r.append(")");
            r
        },
        Term::Data(x0, x1, x2) => {
            let mut r = "Data(".to_owned();
            let p0 = quoted_text(x0.as_str());
            r.append(p0.as_str());
            r.append(", ");
            let p1 = names_text_of(x1);
            r.append(p1.as_str());
            r.append(", ");
            let p2 = constructors_text_of(x2, Ghost(t));
            r.append(p2.as_str());
            r.append(")");
            r
        },
        Term::Interface(x0, x1, x2) => {
            let mut r = "Interface(".to_owned();
            let p0 = quoted_text(x0.as_str());
            r.append(p0.as_str());
            r.append(", ");
            let p1 = names_text_of(x1);
            r.append(p1.as_str());
            r.append(", ");
            let p2 = terms_text_of(x2);
            r.append(p2.as_str());
            r.append(")");
            r
        },
        Term::Implementation(x0, x1, x2) => {
            let mut r = "Implementation(".to_owned();
            let p0 = quoted_text(x0.as_str());
            r.append(p0.as_str());
            r.append(", ");
            let p1 = quoted_text(x1.as_str());
            r.append(p1.as_str());
            r.append(", ");
            let p2 = terms_text_of(x2);
            r.append(p2.as_str());
            r.append(")");
            r
        },
        Term::Record(x0, x1) => {
            let mut r = "Record(".to_owned();
            let p0 = quoted_text(x0.as_str());
            r.append(p0.as_str());
            r.append(", ");
            let p1 = fields_text_of(x1, Ghost(t));
            r.append(p1.as_str());
            r.append(")");
            r
        },
        Term::Mutual(x0) => {
            let mut r = "Mutual(".to_owned();
            let p0 = terms_text_of(x0);
            r.append(p0.as_str());
            r.append(")");
            r
        },
        Term::Where(x0, x1) => {
            let mut r = "Where(".to_owned();
            let p0 = term_text_of(x0);
            r.append(p0.as_str());
            r.append(", ");
            let p1 = terms_text_of(x1);
            r.append(p1.as_str());
            r.append(")");
            r
        },
        Term::Def(x0, x1, x2) => {
            let mut r = "Def(".to_owned();
            let p0 = quoted_text(x0.as_str());
            r.append(p0.as_str());
            r.append(", ");
            let p1 = names_text_of(x1);
            r.append(p1.as_str());
            r.append(", ");
            let p2 = term_text_of(x2);
            r.append(p2.as_str());
            r.append(")");
            r
        },
        Term::Buffer(x0) => {
            let mut r = "Buffer(".to_owned();
            let p0 = usize_to_text(*x0);
            r.append(p0.as_str());
            r.append(")");
            r
        },
        Term::BufferLoad(x0, x1) => {
            let mut r = "BufferLoad(".to_owned();
            let p0 = term_text_of(x0);
            r.append(p0.as_str());
            r.append(", ");
            let p1 = term_text_of(x1);
            r.append(p1.as_str());
            r.append(")");
            r
        },
        Term::BufferStore(x0, x1, x2) => {
            let mut r = "BufferStore(".to_owned();
            let p0 = term_text_of(x0);
            r.append(p0.as_str());
            r.append(", ");
            let p1 = term_text_of(x1);
            r.append(p1.as_str());
            r.append(", ");
            let p2 = term_text_of(x2);
            r.append(p2.as_str());
            r.append(")");
            r
        },
    }
}

/// The texts of a list of terms, in square brackets.
fn terms_text_of(ts: &Vec<Term>) -> (r: String)
    ensures
        r@ == bracketed(terms_items(terms_view(ts@))),
    decreases ts, 2int,
{
    let mut items = String::new();
    let mut i: usize = 0;
    while i < ts.len()
        invariant
            i <= ts.len(),
            items@ == terms_items(terms_view(ts@.take(i as int))),
        decreases ts.len() - i,
    {
        proof {
            assert(decreases_to!(ts => ts@[i as int]));
            lemma_terms_view_step(ts@, i as int);
            let v = terms_view(ts@.take(i + 1));
            assert(v == terms_view(ts@.take(i as int)).push(term_view(ts@[i as int])));
            assert(v.drop_last() =~= terms_view(ts@.take(i as int)));
            if i == 0 {
                assert(terms_view(ts@.take(0)) =~= Seq::<SpecTerm>::empty());
                assert(v[0] == term_view(ts@[0]));
            }
        }
        let piece = term_text_of(&ts[i]);
        if i == 0 {
            items = piece;
        } else {
            items.append(", ");
            items.append(piece.as_str());
        }
        i += 1;
    }
    proof {
        assert(ts@.take(ts@.len() as int) =~= ts@);
    }
    let mut r = "[".to_owned();
    r.append(items.as_str());
    r.append("]");
    r
}

/// The texts of a list of boxed terms, in square brackets.
fn boxed_text_of(ts: &Vec<Box<Term>>, Ghost(parent): Ghost<&Term>) -> (r: String)
    requires
        decreases_to!(parent => *ts),
    ensures
        r@ == bracketed(terms_items(boxed_view(ts@))),
    decreases parent, 0int,
{
    let mut items = String::new();
    let mut i: usize = 0;
    while i < ts.len()
        invariant
            i <= ts.len(),
            decreases_to!(parent => *ts),
            items@ == terms_items(boxed_view(ts@.take(i as int))),
        decreases ts.len() - i,
    {
        proof {
            assert(decreases_to!(*ts => ts@));
            assert(decreases_to!(ts@ => ts@[i as int]));
            let v = boxed_view(ts@.take(i + 1));
            assert(ts@.take(i + 1).drop_last() =~= ts@.take(i as int));
            assert(v == boxed_view(ts@.take(i as int)).push(term_view(*ts@[i as int])));
            assert(v.drop_last() =~= boxed_view(ts@.take(i as int)));
            if i == 0 {
                assert(ts@.take(0) =~= Seq::<Box<Term>>::empty());
                assert(v[0] == term_view(*ts@[0]));
            }
        }
        let piece = term_text_of(&ts[i]);
        if i == 0 {
            items = piece;
        } else {
            items.append(", ");
            items.append(piece.as_str());
        }
        i += 1;
    }
    proof {
        assert(ts@.take(ts@.len() as int) =~= ts@);
    }
    let mut r = "[".to_owned();
    r.append(items.as_str());
    r.append("]");
    r
}

/// The case branches in square brackets.
fn branches_text_of(bs: &Vec<(String, Vec<String>, Box<Term>)>, Ghost(parent): Ghost<&Term>) -> (r: String)
    requires
        decreases_to!(parent => *bs),
    ensures
        r@ == bracketed(branches_items(branches_view(bs@))),
    decreases parent, 1int,
{
    let mut items = String::new();
    let mut i: usize = 0;
    while i < bs.len()
        invariant
            i <= bs.len(),
            decreases_to!(parent => *bs),
            items@ == branches_items(branches_view(bs@.take(i as int))),
        decreases bs.len() - i,
    {
        let ghost sb = SpecBranch { pattern: bs@[i as int].0@, args: names_view(bs@[i as int].1@), body: term_view(*bs@[i as int].2) };
        proof {
            assert(decreases_to!(*bs => bs@));
            assert(decreases_to!(bs@ => bs@[i as int]));
            assert(decreases_to!(bs@[i as int] => bs@[i as int].2));
            lemma_branches_view_step(bs@, i as int);
            let v = branches_view(bs@.take(i + 1));
            assert(v.drop_last() =~= branches_view(bs@.take(i as int)));
            assert(v.last() == sb);
            if i == 0 {
                assert(bs@.take(0) =~= Seq::<(String, Vec<String>, Box<Term>)>::empty());
                assert(v[0] == sb);
            }
        }
        let mut piece = "(".to_owned();
        let p0 = quoted_text(bs[i].0.as_str());
        piece.append(p0.as_str());
        piece.append(", ");
        let p1 = names_text_of(&bs[i].1);
        piece.append(p1.as_str());
        piece.append(", ");
        let p2 = term_text_of(&bs[i].2);
        piece.append(p2.as_str());
        piece.append(")");
        if i == 0 {
            items = piece;
        } else {
            items.append(", ");
            items.append(piece.as_str());
        }
        i += 1;
    }
    proof {
        assert(bs@.take(bs@.len() as int) =~= bs@);
    }
    let mut r = "[".to_owned();
    r.append(items.as_str());
    r.append("]");
    r
}

/// The constructors in square brackets.
fn constructors_text_of(cs: &Vec<Constructor>, Ghost(parent): Ghost<&Term>) -> (r: String)
    requires
        decreases_to!(parent => *cs),
    ensures
        r@ == bracketed(constructors_items(constructors_view(cs@))),
    decreases parent, 1int,
{
    let mut items = String::new();
    let mut i: usize = 0;
    while i < cs.len()
        invariant
            i <= cs.len(),
            decreases_to!(parent => *cs),
            items@ == constructors_items(constructors_view(cs@.take(i as int))),
        decreases cs.len() - i,
    {
        let ghost sc = SpecConstructor { name: cs@[i as int].name@, fields: boxed_view(cs@[i as int].fields@) };
        proof {
            assert(decreases_to!(*cs => cs@));
            assert(decreases_to!(cs@ => cs@[i as int]));
            assert(decreases_to!(cs@[i as int] => cs@[i as int].fields));
            let v = constructors_view(cs@.take(i + 1));
            assert(cs@.take(i + 1).drop_last() =~= cs@.take(i as int));
            assert(v == constructors_view(cs@.take(i as int)).push(sc));
            assert(v.drop_last() =~= constructors_view(cs@.take(i as int)));
            if i == 0 {
                assert(cs@.take(0) =~= Seq::<Constructor>::empty());
                assert(v[0] == sc);
            }
        }
        let mut piece = "Constructor { name: ".to_owned();
        let p0 = quoted_text(cs[i].name.as_str());
        piece.append(p0.as_str());
        piece.append(", fields: ");
        let p1 = boxed_text_of(&cs[i].fields, Ghost(parent));
        piece.append(p1.as_str());
        piece.append(" }");
        if i == 0 {
            items = piece;
        } else {
            items.append(", ");
            items.append(piece.as_str());
        }
        i += 1;
    }
    proof {
        assert(cs@.take(cs@.len() as int) =~= cs@);
    }
    let mut r = "[".to_owned();
    r.append(items.as_str());
    r.append("]");
    r
}

/// The record fields in square brackets.
fn fields_text_of(fs: &Vec<(String, Box<Term>)>, Ghost(parent): Ghost<&Term>) -> (r: String)
    requires
        decreases_to!(parent => *fs),
    ensures
        r@ == bracketed(fields_items(fields_view(fs@))),
    decreases parent, 1int,
{
    let mut items = String::new();
    let mut i: usize = 0;
    while i < fs.len()
        invariant
            i <= fs.len(),
            decreases_to!(parent => *fs),
            items@ == fields_items(fields_view(fs@.take(i as int))),
        decreases fs.len() - i,
    {
        proof {
            assert(decreases_to!(*fs => fs@));
            assert(decreases_to!(fs@ => fs@[i as int]));
            assert(decreases_to!(fs@[i as int] => fs@[i as int].1));
            let v = fields_view(fs@.take(i + 1));
            assert(fs@.take(i + 1).drop_last() =~= fs@.take(i as int));
            assert(v == fields_view(fs@.take(i as int)).push((fs@[i as int].0@, term_view(*fs@[i as int].1))));
            assert(v.drop_last() =~= fields_view(fs@.take(i as int)));
            if i == 0 {
                assert(fs@.take(0) =~= Seq::<(String, Box<Term>)>::empty());
                assert(v[0] == (fs@[0].0@, term_view(*fs@[0].1)));
            }
        }
        let mut piece = "(".to_owned();
        let p0 = quoted_text(fs[i].0.as_str());
        piece.append(p0.as_str());
        piece.append(", ");
        let p1 = term_text_of(&fs[i].1);
        piece.append(p1.as_str());
        piece.append(")");
        if i == 0 {
            items = piece;
        } else {
            items.append(", ");
            items.append(piece.as_str());
        }
        i += 1;
    }
    proof {
        assert(fs@.take(fs@.len() as int) =~= fs@);
    }
    let mut r = "[".to_owned();
    r.append(items.as_str());
    r.append("]");
    r
}

} // verus!
