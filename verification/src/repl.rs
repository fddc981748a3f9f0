//! The interactive session: evaluates expressions typed by the user,
//! answers `:t` with the ground type of an expression, and `:l` with the
//! file it loads.
use vstd::prelude::*;
use crate::chars::{chars_of, int_text, i64_to_text, push_char};
use crate::decl_grammar::program_spec;
use crate::errors::Spanned;
use crate::evaluator::{Evaluator, eval_fuel};
use crate::grammar::expr_spec;
use crate::parser::Parser;
use crate::scanner::{Token, lex, scan, spanned_models};
use crate::term::{SpecTerm, Term, lemma_terms_view_index};
use crate::show::{law_text_names_variant, term_text, term_text_of, variant_name};

verus! {

/// Whether `c` is white space in the sense of Unicode's `White_Space`
/// property.
pub uninterp spec fn unicode_whitespace(c: char) -> bool;

/// Whether `c` is white space: among ASCII characters exactly the space
/// and the characters from tab to carriage return, beyond ASCII Unicode's
/// `White_Space` property.
pub open spec fn whitespace(c: char) -> bool {
    if (c as u32) < 0x80 { c == ' ' || ('\t' <= c && c <= '\r') } else { unicode_whitespace(c) }
}

/// Calls `char::is_whitespace`. std tests the space and the characters
/// from tab to carriage return directly and otherwise asks for Unicode's
/// `White_Space` property, which no other ASCII character has; beyond ASCII
/// the property is named here and not written out.
#[verifier::external_body]
fn is_whitespace(c: char) -> (r: bool)
    ensures
        r == whitespace(c),
        (c as u32) >= 0x80 ==> r == unicode_whitespace(c),
{
    c.is_whitespace()
}

/// The index of the first character from `i` on that is not white space.
pub open spec fn trim_start(s: Seq<char>, i: int) -> int
    decreases s.len() - i,
{
    if i < 0 || i >= s.len() || !whitespace(s[i]) {
        i
    } else {
        trim_start(s, i + 1)
    }
}

/// The end of `s[..j]` without its trailing white space.
pub open spec fn trim_end(s: Seq<char>, j: int) -> int
    decreases j,
{
    if j <= 0 || j > s.len() || !whitespace(s[j - 1]) {
        j
    } else {
        trim_end(s, j - 1)
    }
}

/// `s` without leading and trailing white space.
pub open spec fn trim(s: Seq<char>) -> Seq<char> {
    let a = trim_start(s, 0);
    let b = trim_end(s, s.len() as int);
    if a < b { s.subrange(a, b) } else { Seq::empty() }
}

/// Whether `s` starts with `:`, `c` and a space.
pub open spec fn is_command(s: Seq<char>, c: char) -> bool {
    s.len() >= 3 && s[0] == ':' && s[1] == c && s[2] == ' '
}

/// The ground type of an expression, judged by its outermost form.
pub open spec fn ground_type(t: SpecTerm) -> Seq<char> {
    match t {
        SpecTerm::Integer(_) => "Integer"@,
        SpecTerm::Float(_) => "Float"@,
        SpecTerm::String(_) => "String"@,
        SpecTerm::Char(_) => "Char"@,
        SpecTerm::IntegerType => "Type"@,
        SpecTerm::FloatType => "Type"@,
        SpecTerm::StringType => "Type"@,
        SpecTerm::CharType => "Type"@,
        SpecTerm::TypeType => "Type"@,
        _ => "Integer"@,
    }
}

/// Whether a term is a literal: an integer, a floating-point number, a
/// string or a character.
pub open spec fn is_literal(t: SpecTerm) -> bool {
    t is Integer || t is Float || t is String || t is Char
}

/// The ground type of a literal is its kind, the variant name that its
/// text begins with (so a floating-point literal is a `Float`, never an
/// `Integer`), the ground type of a type constant is `Type`, and any other
/// expression is taken for an `Integer`.
pub proof fn law_literal_ground_types(t: SpecTerm)
    ensures
        is_literal(t) ==> ground_type(t) == variant_name(t),
        is_literal(t) ==> term_text(t).take(ground_type(t).len() as int) == ground_type(t),
        (t is IntegerType || t is FloatType || t is StringType || t is CharType || t is TypeType) ==> ground_type(t)
            == "Type"@,
        !is_literal(t) && !(t is IntegerType || t is FloatType || t is StringType || t is CharType || t is TypeType)
            ==> ground_type(t) == "Integer"@,
{
    law_text_names_variant(t);
}

/// How a value is shown: integers in decimal, floating-point literals as
/// written, strings and characters in quotes, anything else in the
/// layout of `Debug`.
pub open spec fn value_text(v: SpecTerm) -> Seq<char> {
    match v {
        SpecTerm::Integer(n) => int_text(n as int),
        SpecTerm::Float(t) => t,
        SpecTerm::String(s) => "\""@ + s + "\""@,
        SpecTerm::Char(c) => seq!['\'', c, '\''],
        _ => term_text(v),
    }
}

proof fn lemma_trim_start(s: Seq<char>, i: int)
    requires
        0 <= i <= s.len(),
    ensures
        i <= trim_start(s, i) <= s.len(),
    decreases s.len() - i,
{
    if i < s.len() && whitespace(s[i]) {
        lemma_trim_start(s, i + 1);
    }
}

proof fn lemma_trim_end(s: Seq<char>, j: int)
    requires
        0 <= j <= s.len(),
    ensures
        0 <= trim_end(s, j) <= j,
    decreases j,
{
    if j > 0 && whitespace(s[j - 1]) {
        lemma_trim_end(s, j - 1);
    }
}

/// `s[from..]` without leading and trailing white space.
fn trim_chars(s: &Vec<char>, from: usize) -> (r: Vec<char>)
    requires
        from <= s@.len(),
    ensures
        r@ == trim(s@.subrange(from as int, s@.len() as int)),
{
    let ghost t = s@.subrange(from as int, s@.len() as int);
    let mut a: usize = from;
    while a < s.len() && is_whitespace(s[a])
        invariant
            from <= a <= s@.len(),
            t == s@.subrange(from as int, s@.len() as int),
            trim_start(t, (a - from) as int) == trim_start(t, 0),
        decreases s.len() - a,
    {
        a = a + 1;
    }
    let mut b: usize = s.len();
    while b > a && is_whitespace(s[b - 1])
        invariant
            from <= a <= b <= s@.len(),
            t == s@.subrange(from as int, s@.len() as int),
            trim_end(t, (b - from) as int) == trim_end(t, t.len() as int),
        decreases b,
    {
        b = b - 1;
    }
    proof {
        lemma_trim_start(t, 0);
        lemma_trim_end(t, t.len() as int);
        if a < s@.len() {
            assert(!whitespace(t[(a - from) as int]));
        }
        assert(trim_start(t, (a - from) as int) == (a - from) as int);
        if b > a {
            assert(!whitespace(t[(b - from) as int - 1]));
            assert(trim_end(t, (b - from) as int) == (b - from) as int);
        } else {
            if b < s@.len() {
                lemma_trim_end(t, (b - from) as int);
            }
        }
    }
    let mut r: Vec<char> = Vec::new();
    let mut i: usize = a;
    while i < b
        invariant
            a <= i <= b,
            b <= s@.len(),
            r@ == s@.subrange(a as int, i as int),
        decreases b - i,
    {
        r.push(s[i]);
        proof {
            assert(s@.subrange(a as int, i + 1) =~= s@.subrange(a as int, i as int).push(s@[i as int]));
        }
        i += 1;
    }
    proof {
        if a < b {
            assert(r@ =~= t.subrange((a - from) as int, (b - from) as int));
        } else {
            assert(r@ =~= Seq::<char>::empty());
        }
    }
    r
}

/// The text of a sequence of characters.
fn text_of(s: &Vec<char>) -> (r: String)
    ensures
        r@ == s@,
{
    let mut out = String::new();
    let mut i: usize = 0;
    while i < s.len()
        invariant
            i <= s@.len(),
            out@ == s@.take(i as int),
        decreases s.len() - i,
    {
        push_char(&mut out, s[i]);
        proof {
            assert(s@.take(i + 1) =~= s@.take(i as int).push(s@[i as int]));
        }
        i += 1;
    }
    proof {
        assert(s@.take(s@.len() as int) =~= s@);
    }
    out
}

/// Whether `s` starts with `:`, `c` and a space.
fn command_is(s: &Vec<char>, c: char) -> (r: bool)
    ensures
        r == is_command(s@, c),
{
    s.len() >= 3 && s[0] == ':' && s[1] == c && s[2] == ' '
}

/// An interactive session.
/// Whether `out` is the answer to a line `t` that is read as an
/// expression, or as declarations when it forms no expression.
pub open spec fn line_answer(t: Seq<char>, out: Seq<char>) -> bool {
    if 4 * t.len() + 8 > usize::MAX {
        out.len() == 0
    } else {
        match scan(t) {
            Err(_) => out.len() == 0,
            Ok(models) => exists|ts: Seq<Spanned<Token>>| #[trigger] spanned_models(ts) == models && expression_answer(ts, out),
        }
    }
}

/// Whether `out` is the answer to a line `t` that starts with `:t `: the
/// ground type of the expression after it, or, when no expression follows,
/// the answer to the whole line.
pub open spec fn type_answer(t: Seq<char>, out: Seq<char>) -> bool {
    let rest = trim(t.subrange(3, t.len() as int));
    if 4 * rest.len() + 8 <= usize::MAX && scan(rest) is Ok {
        exists|ts: Seq<Spanned<Token>>|
            #[trigger] spanned_models(ts) == scan(rest)->Ok_0 && if ts.len() < usize::MAX && expr_spec(ts, 0) is Ok {
                out == ground_type((expr_spec(ts, 0)->Ok_0).0)
            } else {
                line_answer(t, out)
            }
    } else {
        line_answer(t, out)
    }
}

/// Whether `out` is the answer to a line whose tokens are `ts`, read as
/// declarations: the first declaration shown, or nothing.
pub open spec fn declaration_answer(ts: Seq<Spanned<Token>>, out: Seq<char>) -> bool {
    if ts.len() >= usize::MAX {
        out.len() == 0
    } else {
        match program_spec(ts, 0, Seq::empty(), Seq::empty()) {
            Ok((ds, _)) => if ds.len() > 0 {
                out == "Defined: "@ + term_text(ds[0])
            } else {
                out.len() == 0
            },
            Err(_) => out.len() == 0,
        }
    }
}

/// Whether `out` is the answer to a line whose tokens are `ts`: the value
/// of the expression they form, nothing when its evaluation overflows, or,
/// when they form no expression, the answer to them as declarations.
pub open spec fn expression_answer(ts: Seq<Spanned<Token>>, out: Seq<char>) -> bool {
    if ts.len() >= usize::MAX {
        out.len() == 0
    } else {
        match expr_spec(ts, 0) {
            Ok((e, _)) => out == match eval_fuel(e, u64::MAX as nat) {
                Some(v) => value_text(v),
                None => Seq::empty(),
            },
            Err(_) => exists|ts2: Seq<Spanned<Token>>|
                #[trigger] spanned_models(ts2) == spanned_models(ts) && declaration_answer(ts2, out),
        }
    }
}

pub struct ReplSession {}

impl ReplSession {
    /// Creates a session.
    pub fn new() -> (r: Self) {
        ReplSession {}
    }

    /// The ground type of an expression, judged by its outermost form.
    fn infer_ground_type(term: &Term) -> (r: &'static str)
        ensures
            r@ == ground_type(term@),
    {
        match term {
            Term::Integer(_) => "Integer",
            Term::Float(_) => "Float",
            Term::String(_) => "String",
            Term::Char(_) => "Char",
            Term::IntegerType => "Type",
            Term::FloatType => "Type",
            Term::StringType => "Type",
            Term::CharType => "Type",
            Term::TypeType => "Type",
            _ => "Integer",
        }
    }

    /// How a value is shown.
    fn show_value(v: &Term) -> (r: String)
        ensures
            r@ == value_text(v@),
    {
        match v {
            Term::Integer(n) => i64_to_text(*n),
            Term::Float(t) => t.clone(),
            Term::String(s) => {
                let mut out = "\"".to_owned();
                out.append(s.as_str());
                out.append("\"");
                out
            },
            Term::Char(c) => {
                let mut out = String::new();
                push_char(&mut out, '\'');
                push_char(&mut out, *c);
                push_char(&mut out, '\'');
                proof {
                    assert(out@ =~= seq!['\'', *c, '\'']);
                }
                out
            },
            _ => term_text_of(v),
        }
    }

    /// Answers one line of input. Blank input gets an empty answer; `:t e`
    /// the ground type of `e`; `:l f` the file it loads; an expression its
    /// value; a declaration its parsed form. An input that fails to scan or
    /// parse, or whose evaluation overflows, gets an empty answer.
    pub fn eval(&self, input: &str) -> (r: String)
        ensures
            trim(input@).len() == 0 ==> r@ == Seq::<char>::empty(),
            !is_command(trim(input@), 't') && is_command(trim(input@), 'l') ==> r@ == "Loaded file: "@ + trim(
                trim(input@).subrange(3, trim(input@).len() as int),
            ),
            ({
                let t = trim(input@);
                t.len() > 0 && !is_command(t, 'l') ==> if is_command(t, 't') {
                    type_answer(t, r@)
                } else {
                    line_answer(t, r@)
                }
            }),
    {
        let chars = chars_of(input);
        let trimmed = trim_chars(&chars, 0);
        proof {
            assert(chars@.subrange(0, chars@.len() as int) =~= chars@);
        }
        if trimmed.len() == 0 {
            return String::new();
        }
        let ghost mut type_tokens: Seq<Spanned<Token>> = Seq::empty();
        if command_is(&trimmed, 't') {
            let rest = trim_chars(&trimmed, 3);
            if rest.len() <= (usize::MAX - 8) / 4 {
                let text = text_of(&rest);
                match lex(text.as_str()) {
                    Ok(tokens) => {
                        proof {
                            type_tokens = tokens@;
                        }
                        if tokens.len() < usize::MAX {
                            let mut parser = Parser::new(tokens);
                            match parser.parse_expr() {
                                Ok(expr) => {
                                    return Self::infer_ground_type(&expr).to_owned();
                                },
                                Err(_) => {},
                            }
                        }
                    },
                    Err(_) => {},
                }
            }
        }
        if command_is(&trimmed, 'l') {
            let rest = trim_chars(&trimmed, 3);
            let name = text_of(&rest);
            let mut out = "Loaded file: ".to_owned();
            out.append(name.as_str());
            return out;
        }
        if trimmed.len() > (usize::MAX - 8) / 4 {
            return String::new();
        }
        let text = text_of(&trimmed);
        match lex(text.as_str()) {
            Ok(tokens) => {
                let ghost ts = tokens@;
                if tokens.len() == usize::MAX {
                    return String::new();
                }
                let mut parser = Parser::new(tokens);
                match parser.parse_expr() {
                    Ok(expr) => {
                        let evaluator = Evaluator::new();
                        return match evaluator.eval_bounded(&expr, u64::MAX) {
                            Some(value) => Self::show_value(&value),
                            None => String::new(),
                        };
                    },
                    Err(_) => {},
                }
                match lex(text.as_str()) {
                    Ok(tokens2) => {
                        let ghost ts2 = tokens2@;
                        if tokens2.len() < usize::MAX {
                            let mut parser2 = Parser::new(tokens2);
                            match parser2.parse_program() {
                                Ok(decls) => {
                                    if decls.len() > 0 {
                                        let mut out = "Defined: ".to_owned();
                                        let shown = term_text_of(&decls[0]);
                                        out.append(shown.as_str());
                                        proof {
                                            lemma_terms_view_index(decls@, 0);
                                            assert(declaration_answer(ts2, out@));
                                        }
                                        return out;
                                    }
                                },
                                Err(_) => {},
                            }
                        }
                        proof {
                            assert(declaration_answer(ts2, Seq::empty()));
                        }
                    },
                    Err(_) => {},
                }
            },
            Err(_) => {},
        }
        String::new()
    }
}

} // verus!
