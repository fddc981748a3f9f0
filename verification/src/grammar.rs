//! The grammar of expressions and types as functions on token sequences:
//! what parsing from a position gives, a term and the position after it, or the error
//! that stops it. The parser's methods are proved to compute these.
use vstd::prelude::*;
use crate::chars::int_text;
use crate::errors::{CompilerError, Span, Spanned};
use crate::parser::{decl_start, kind_at, newlines_end, node_at};
use crate::scanner::{Token, TokenKind, token_text};
use crate::multiplicity::Multiplicity;
use crate::term::{SpecBranch, SpecTerm, Term, branches_view, terms_view};
use crate::types::{ParenKind, paren_kind};
use crate::evaluator::{eval_fuel, eval_result, evaluates, lemma_eval_result};
use crate::show::variant_name;

verus! {

/// The model of a syntax error: where, at which token, what was expected
/// and the message.
pub struct SyntaxError {
    pub span: Span,
    pub token: Token,
    pub expected: Option<Seq<char>>,
    pub message: Seq<char>,
}

/// The model of an error, when it is a syntax error.
pub open spec fn error_model(e: CompilerError) -> Option<SyntaxError> {
    match e {
        CompilerError::Parse(pe) => Some(
            SyntaxError {
                span: pe.span,
                token: pe.token,
                expected: match pe.expected {
                    Some(s) => Some(s@),
                    None => None,
                },
                message: pe.message@,
            },
        ),
        _ => None,
    }
}

/// What parsing gives: a term and the position after it, or an error and
/// the position where parsing stopped.
pub type Parsed = Result<(SpecTerm, int), (SyntaxError, int)>;

/// Whether a parse result and the position the parser stopped at agree
/// with the grammar's result.
pub open spec fn agrees(r: Result<Term, CompilerError>, pos: int, s: Parsed) -> bool {
    match s {
        Ok((t, q)) => r is Ok && r->Ok_0@ == t && pos == q,
        Err((e, q)) => r is Err && error_model(r->Err_0) == Some(e) && pos == q,
    }
}

/// The span of the token at index `i`; an empty span past the end.
pub open spec fn span_at(ts: Seq<Spanned<Token>>, i: int) -> Span {
    if 0 <= i < ts.len() {
        ts[i].span
    } else {
        Span { line: 0, col: 0, len: 0 }
    }
}

/// The position after passing the token at `i`; past the end it stays.
pub open spec fn next_pos(ts: Seq<Spanned<Token>>, i: int) -> int {
    if i < ts.len() {
        i + 1
    } else {
        i
    }
}

/// An error at the token at `i`.
pub open spec fn error_here(ts: Seq<Spanned<Token>>, i: int, message: Seq<char>) -> SyntaxError {
    SyntaxError { span: span_at(ts, i), token: node_at(ts, i), expected: None, message }
}

/// An error at the token at `i` that names the token expected there.
pub open spec fn expecting(ts: Seq<Spanned<Token>>, i: int, t: Token, message: Seq<char>) -> SyntaxError {
    SyntaxError { span: span_at(ts, i), token: node_at(ts, i), expected: Some(token_text(t@)), message }
}

/// Whether `q` lies past `p` and within the tokens.
pub open spec fn moved(ts: Seq<Spanned<Token>>, p: int, q: int) -> bool {
    p < q <= ts.len()
}

/// `False` and `True` are the integers that a conditional reads as false
/// and true: for any branches, a conditional on the atom `False` has the
/// value of its else branch, and one on `True` the value of its then branch.
pub proof fn law_boolean_names_choose_branches(a: SpecTerm, b: SpecTerm)
    ensures
        name_atom("False"@) is Some,
        name_atom("True"@) is Some,
        evaluates(b) ==> evaluates(SpecTerm::If(Box::new(name_atom("False"@)->Some_0), Box::new(a), Box::new(b)))
            && eval_result(SpecTerm::If(Box::new(name_atom("False"@)->Some_0), Box::new(a), Box::new(b)))
            == eval_result(b),
        evaluates(a) ==> evaluates(SpecTerm::If(Box::new(name_atom("True"@)->Some_0), Box::new(a), Box::new(b)))
            && eval_result(SpecTerm::If(Box::new(name_atom("True"@)->Some_0), Box::new(a), Box::new(b)))
            == eval_result(a),
{
    reveal_strlit("i32");
    reveal_strlit("i8");
    reveal_strlit("Integer");
    reveal_strlit("Int");
    reveal_strlit("True");
    reveal_strlit("False");
    assert("False"@.len() != "i32"@.len() && "False"@.len() != "i8"@.len());
    assert("False"@.len() != "Integer"@.len() && "False"@.len() != "Int"@.len() && "False"@.len() != "True"@.len());
    assert("True"@.len() != "i32"@.len() && "True"@.len() != "i8"@.len());
    assert("True"@.len() != "Integer"@.len() && "True"@.len() != "Int"@.len());
    assert(name_atom("False"@) == Some(SpecTerm::Integer(0)));
    assert(name_atom("True"@) == Some(SpecTerm::Integer(1)));
    if evaluates(b) {
        let fb = choose|fuel: nat| #[trigger] eval_fuel(b, fuel) is Some;
        lemma_eval_result(b, fb);
        let t = SpecTerm::If(Box::new(SpecTerm::Integer(0)), Box::new(a), Box::new(b));
        assert(eval_fuel(SpecTerm::Integer(0), fb) == Some(SpecTerm::Integer(0)));
        assert(eval_fuel(t, fb + 1) == eval_fuel(b, fb));
        lemma_eval_result(t, fb + 1);
    }
    if evaluates(a) {
        let fa = choose|fuel: nat| #[trigger] eval_fuel(a, fuel) is Some;
        lemma_eval_result(a, fa);
        let t = SpecTerm::If(Box::new(SpecTerm::Integer(1)), Box::new(a), Box::new(b));
        assert(eval_fuel(SpecTerm::Integer(1), fa) == Some(SpecTerm::Integer(1)));
        assert(eval_fuel(t, fa + 1) == eval_fuel(a, fa));
        lemma_eval_result(t, fa + 1);
    }
}

/// A name atom is never a variable of another name, and the only names
/// that stand for integers are `True` (one) and `False` (zero).
pub proof fn law_name_atoms(n: Seq<char>)
    ensures
        name_atom(n) matches Some(SpecTerm::Var(m)) ==> m == n,
        name_atom(n) matches Some(SpecTerm::Integer(k)) ==> (n == "True"@ && k == 1) || (n == "False"@ && k
            == 0),
        name_atom(n) matches Some(SpecTerm::Integer(k)) ==> variant_name(SpecTerm::Integer(k)) == "Integer"@,
{
}

/// The words for built-in types denote the type of that name: `Integer`,
/// `String`, `Char`, `Float`, `Bits64`, `IO` and `Type` followed by `Type`
/// is the variant name of what each denotes.
pub proof fn law_type_words(n: Seq<char>)
    requires
        n == "Integer"@ || n == "String"@ || n == "Char"@ || n == "Float"@ || n == "Bits64"@ || n == "IO"@
            || n == "Type"@,
    ensures
        name_atom(n) is Some,
        variant_name(name_atom(n)->Some_0) == n + "Type"@,
{
    reveal_strlit("i32");
    reveal_strlit("i8");
    reveal_strlit("Int");
    reveal_strlit("True");
    reveal_strlit("False");
    reveal_strlit("Integer");
    reveal_strlit("Bits64");
    reveal_strlit("IO");
    reveal_strlit("String");
    reveal_strlit("Char");
    reveal_strlit("Float");
    reveal_strlit("Type");
    reveal_strlit("IntegerType");
    reveal_strlit("StringType");
    reveal_strlit("CharType");
    reveal_strlit("FloatType");
    reveal_strlit("Bits64Type");
    reveal_strlit("IOType");
    reveal_strlit("TypeType");
    assert("i32"@[0] != "Int"@[0]);
    assert("i8"@[0] != "IO"@[0]);
    assert("True"@[0] != "Char"@[0]);
    assert("True"@[1] != "Type"@[1]);
    assert("False"@[1] != "Float"@[1]);
    assert("Bits64"@[0] != "String"@[0]);
    assert("Char"@[0] != "Type"@[0]);
    if n == "Integer"@ {
        assert(n + "Type"@ =~= "IntegerType"@);
    } else if n == "String"@ {
        assert(n != "i32"@ && n != "i8"@ && n != "Int"@ && n != "True"@ && n != "False"@ && n != "Bits64"@ && n != "IO"@);
        assert(n != "Integer"@);
        assert(n + "Type"@ =~= "StringType"@);
    } else if n == "Char"@ {
        assert(n[0] != "True"@[0]);
        assert(n != "i32"@ && n != "i8"@ && n != "Int"@ && n != "True"@ && n != "False"@ && n != "Bits64"@ && n != "IO"@);
        assert(n != "Integer"@ && n != "String"@);
        assert(n + "Type"@ =~= "CharType"@);
    } else if n == "Float"@ {
        assert(n[1] != "False"@[1]);
        assert(n != "i32"@ && n != "i8"@ && n != "Int"@ && n != "True"@ && n != "False"@ && n != "Bits64"@ && n != "IO"@);
        assert(n != "Integer"@ && n != "String"@ && n != "Char"@);
        assert(n + "Type"@ =~= "FloatType"@);
    } else if n == "Bits64"@ {
        assert(n != "i32"@ && n != "i8"@ && n != "Int"@ && n != "True"@ && n != "False"@);
        assert(n != "Integer"@);
        assert(n + "Type"@ =~= "Bits64Type"@);
    } else if n == "IO"@ {
        assert(n != "i32"@ && n != "i8"@ && n != "Int"@ && n != "True"@ && n != "False"@ && n != "Bits64"@);
        assert(n != "Integer"@);
        assert(n + "Type"@ =~= "IOType"@);
    } else {
        assert(n != "i32"@ && n != "i8"@ && n != "Int"@ && n != "True"@ && n != "False"@ && n != "Bits64"@ && n != "IO"@);
        assert(n != "Integer"@ && n != "String"@ && n != "Char"@ && n != "Float"@);
        assert(n + "Type"@ =~= "TypeType"@);
    }
}

/// What a name stands for as a primary expression: a built-in type, a
/// boolean, or a variable; `None` for the buffer primitives, which take
/// operands.
pub open spec fn name_atom(n: Seq<char>) -> Option<SpecTerm> {
    if n == "i32"@ {
        Some(SpecTerm::I32Type)
    } else if n == "i8"@ {
        Some(SpecTerm::I8Type)
    } else if n == "Integer"@ || n == "Int"@ {
        Some(SpecTerm::IntegerType)
    } else if n == "True"@ {
        Some(SpecTerm::Integer(1))
    } else if n == "False"@ {
        Some(SpecTerm::Integer(0))
    } else if n == "Bits64"@ {
        Some(SpecTerm::Bits64Type)
    } else if n == "IO"@ {
        Some(SpecTerm::IOType)
    } else if n == "String"@ {
        Some(SpecTerm::StringType)
    } else if n == "Char"@ {
        Some(SpecTerm::CharType)
    } else if n == "Float"@ {
        Some(SpecTerm::FloatType)
    } else if n == "Type"@ {
        Some(SpecTerm::TypeType)
    } else if n == "buffer"@ || n == "getBits64"@ || n == "setBits64"@ {
        None
    } else {
        Some(SpecTerm::Var(n))
    }
}

/// The position after the group that an opening token already passed
/// began: passing tokens up to the closing token that balances it, which
/// stays unpassed, or up to the end.
pub open spec fn skip_close(ts: Seq<Spanned<Token>>, p: int, open: TokenKind, close: TokenKind, depth: int) -> int
    decreases ts.len() - p, depth,
{
    let k = kind_at(ts, p);
    if k == TokenKind::EOF || depth <= 0 || p < 0 {
        p
    } else if k == open {
        skip_close(ts, p + 1, open, close, depth + 1)
    } else if k == close {
        if depth - 1 > 0 {
            skip_close(ts, p + 1, open, close, depth - 1)
        } else {
            p
        }
    } else {
        skip_close(ts, p + 1, open, close, depth)
    }
}

/// The position after a parenthesized group whose `(` was already passed,
/// its `)` included, or the end.
pub open spec fn skip_parens(ts: Seq<Spanned<Token>>, p: int, depth: int) -> int
    decreases ts.len() - p,
{
    let k = kind_at(ts, p);
    if k == TokenKind::EOF || depth <= 0 || p < 0 {
        p
    } else if k == TokenKind::LParen {
        skip_parens(ts, p + 1, depth + 1)
    } else if k == TokenKind::RParen {
        skip_parens(ts, p + 1, depth - 1)
    } else {
        skip_parens(ts, p + 1, depth)
    }
}

/// The position of the first `=` from `p` on outside any brackets opened
/// from `p` on, or the end.
pub open spec fn skip_assign(ts: Seq<Spanned<Token>>, p: int, opens: int, closes: int) -> int
    decreases ts.len() - p,
{
    let k = kind_at(ts, p);
    if k == TokenKind::EOF || p < 0 {
        p
    } else if k == TokenKind::LParen || k == TokenKind::LBracket || k == TokenKind::LBrace {
        skip_assign(ts, p + 1, opens + 1, closes)
    } else if k == TokenKind::RParen || k == TokenKind::RBracket || k == TokenKind::RBrace {
        skip_assign(ts, p + 1, opens, closes + 1)
    } else if k == TokenKind::Assign && opens == closes {
        p
    } else {
        skip_assign(ts, p + 1, opens, closes)
    }
}

/// The argument names of a case pattern up to `=>`: identifiers and `**`,
/// other tokens passed over.
pub open spec fn pat_args(ts: Seq<Spanned<Token>>, p: int, acc: Seq<Seq<char>>) -> (Seq<Seq<char>>, int)
    decreases ts.len() - p,
{
    let k = kind_at(ts, p);
    if k == TokenKind::FatArrow || k == TokenKind::EOF || p < 0 {
        (acc, p)
    } else if k == TokenKind::Newline {
        pat_args(ts, p + 1, acc)
    } else {
        let next = match node_at(ts, p) {
            Token::Identifier(a) => acc.push(a@),
            Token::DoubleStar => acc.push("**"@),
            _ => acc,
        };
        pat_args(ts, p + 1, next)
    }
}

/// An expression: a conditional, a let, a case, a do block, a lambda, or
/// an operator expression.
#[verifier::opaque]
pub open spec fn expr_spec(ts: Seq<Spanned<Token>>, p: int) -> Parsed
    decreases ts.len() - p, 16int,
{
    let k = kind_at(ts, p);
    if k == TokenKind::If {
        if_spec(ts, p)
    } else if k == TokenKind::Let {
        let_spec(ts, p)
    } else if k == TokenKind::Case {
        case_spec(ts, p)
    } else if k == TokenKind::Do {
        do_spec(ts, p)
    } else if k == TokenKind::Backslash {
        lambda_spec(ts, p)
    } else {
        comparison_spec(ts, p)
    }
}

/// `if c then a else b`, the `if` at `p`; line breaks may come before
/// `then` and `else`.
#[verifier::opaque]
pub open spec fn if_spec(ts: Seq<Spanned<Token>>, p: int) -> Parsed
    decreases ts.len() - p, 15int,
{
    if kind_at(ts, p) != TokenKind::If || p < 0 {
        Err((error_here(ts, p, Seq::empty()), next_pos(ts, p)))
    } else {
        match expr_spec(ts, p + 1) {
            Err(e) => Err(e),
            Ok((c, q)) => if !moved(ts, p, q) {
                Err((error_here(ts, q, Seq::empty()), next_pos(ts, q)))
            } else {
                let q1 = newlines_end(ts, q);
                if kind_at(ts, q1) != TokenKind::Then || q1 < q {
                    Err((expecting(ts, q1, Token::Then, "Expected then"@), q1))
                } else {
                    match expr_spec(ts, q1 + 1) {
                        Err(e) => Err(e),
                        Ok((a, q2)) => if !moved(ts, q1, q2) {
                            Err((error_here(ts, q2, Seq::empty()), next_pos(ts, q2)))
                        } else {
                            let q3 = newlines_end(ts, q2);
                            if kind_at(ts, q3) != TokenKind::Else || q3 < q2 {
                                Err((expecting(ts, q3, Token::Else, "Expected else"@), q3))
                            } else {
                                match expr_spec(ts, q3 + 1) {
                                    Err(e) => Err(e),
                                    Ok((b, q4)) => Ok((SpecTerm::If(Box::new(c), Box::new(a), Box::new(b)), q4)),
                                }
                            }
                        },
                    }
                }
            },
        }
    }
}

/// `let x = v in b`, the `let` at `p`, with an optional type after the
/// name; without `in` the value is its own body.
#[verifier::opaque]
pub open spec fn let_spec(ts: Seq<Spanned<Token>>, p: int) -> Parsed
    decreases ts.len() - p, 15int,
{
    if kind_at(ts, p) != TokenKind::Let || p < 0 {
        Err((error_here(ts, p, Seq::empty()), next_pos(ts, p)))
    } else {
        let j = p + 1;
        match node_at(ts, j) {
            Token::Identifier(n) => {
                let j2 = j + 1;
                let j3 = if kind_at(ts, j2) == TokenKind::Colon {
                    skip_assign(ts, j2 + 1, 0, 0)
                } else {
                    j2
                };
                if kind_at(ts, j3) != TokenKind::Assign || j3 < j2 {
                    Err((expecting(ts, j3, Token::Assign, "Expected = in let"@), j3))
                } else {
                    match expr_spec(ts, j3 + 1) {
                        Err(e) => Err(e),
                        Ok((v, q)) => if kind_at(ts, q) == TokenKind::In && moved(ts, j3, q) {
                            match expr_spec(ts, q + 1) {
                                Err(e) => Err(e),
                                Ok((b, q2)) => Ok((SpecTerm::Let(n@, Box::new(v), Box::new(b)), q2)),
                            }
                        } else {
                            Ok((SpecTerm::Let(n@, Box::new(v), Box::new(v)), q))
                        },
                    }
                }
            },
            _ => Err((error_here(ts, j, "Expected identifier in let"@), next_pos(ts, j))),
        }
    }
}

/// `case t of` and its branches, the `case` at `p`.
#[verifier::opaque]
pub open spec fn case_spec(ts: Seq<Spanned<Token>>, p: int) -> Parsed
    decreases ts.len() - p, 15int,
{
    if kind_at(ts, p) != TokenKind::Case || p < 0 {
        Err((error_here(ts, p, Seq::empty()), next_pos(ts, p)))
    } else {
        match expr_spec(ts, p + 1) {
            Err(e) => Err(e),
            Ok((target, q)) => if kind_at(ts, q) != TokenKind::Of || !moved(ts, p, q) {
                Err((expecting(ts, q, Token::Of, "Expected of in case"@), q))
            } else {
                match arms_spec(ts, q + 1, Seq::empty()) {
                    Err(e) => Err(e),
                    Ok((bs, q2)) => Ok((SpecTerm::Case(Box::new(target), bs), q2)),
                }
            },
        }
    }
}

/// The branches of a case from `p` on, after those in `acc`: each a
/// pattern (a name, a literal or a parenthesized group), argument names,
/// `=>` and a body, separated by `|`. They end at the end of input, at a
/// declaration, or where a branch cannot go on.
#[verifier::opaque]
pub open spec fn arms_spec(ts: Seq<Spanned<Token>>, p: int, acc: Seq<SpecBranch>) -> Result<(Seq<SpecBranch>, int), (SyntaxError, int)>
    decreases ts.len() - p, 14int,
{
    if kind_at(ts, p) == TokenKind::EOF || p < 0 {
        Ok((acc, p))
    } else {
        let i = newlines_end(ts, p);
        if decl_start(ts, i) || kind_at(ts, i) == TokenKind::EOF {
            Ok((acc, i))
        } else {
            let j = i + 1;
            let pat: Option<(Seq<char>, int)> = match node_at(ts, i) {
                Token::Identifier(n) => Some((n@, j)),
                Token::Integer(v) => Some((int_text(v as int), j)),
                Token::LParen => Some(("_paren_pat"@, skip_parens(ts, j, 1))),
                _ => None,
            };
            match pat {
                None => Ok((acc, j)),
                Some((name, j1)) => {
                    let (args, j2) = pat_args(ts, j1, Seq::empty());
                    if kind_at(ts, j2) != TokenKind::FatArrow || j2 < p {
                        Ok((acc, j2))
                    } else {
                        match expr_spec(ts, j2 + 1) {
                            Err(e) => Err(e),
                            Ok((body, q)) => {
                                let next = acc.push(SpecBranch { pattern: name, args, body });
                                let q1 = newlines_end(ts, q);
                                if kind_at(ts, q1) != TokenKind::Pipe || q1 < p {
                                    Ok((next, q1))
                                } else {
                                    arms_spec(ts, q1 + 1, next)
                                }
                            },
                        }
                    }
                },
            }
        }
    }
}

/// `do` and its statements, the `do` at `p`.
#[verifier::opaque]
pub open spec fn do_spec(ts: Seq<Spanned<Token>>, p: int) -> Parsed
    decreases ts.len() - p, 15int,
{
    if kind_at(ts, p) != TokenKind::Do || p < 0 {
        Err((error_here(ts, p, Seq::empty()), next_pos(ts, p)))
    } else {
        let s = newlines_end(ts, p + 1);
        if !moved(ts, p, s) {
            Err((error_here(ts, s, Seq::empty()), next_pos(ts, s)))
        } else {
            match stmts_spec(ts, s, Seq::empty()) {
                Err(e) => Err(e),
                Ok((ss, q)) => Ok((SpecTerm::Do(ss), q)),
            }
        }
    }
}

/// The statements of a do block from `p` on, after those in `acc`: a bind
/// `x <- e`, a `let x = e`, or an expression, each followed by line
/// breaks. They end at the end of input or at a declaration; a `let`
/// without a name is passed over.
#[verifier::opaque]
pub open spec fn stmts_spec(ts: Seq<Spanned<Token>>, p: int, acc: Seq<SpecTerm>) -> Result<(Seq<SpecTerm>, int), (SyntaxError, int)>
    decreases ts.len() - p, 17int,
{
    if kind_at(ts, p) == TokenKind::EOF || decl_start(ts, p) || p < 0 {
        Ok((acc, p))
    } else if kind_at(ts, p) == TokenKind::Identifier && p + 1 < ts.len() && kind_at(ts, p + 1) == TokenKind::Bind {
        match expr_spec(ts, p + 2) {
            Err(e) => Err(e),
            Ok((a, q)) => {
                let q1 = newlines_end(ts, q);
                let next = acc.push(SpecTerm::Bind(node_at(ts, p)->Identifier_0@, Box::new(a)));
                if moved(ts, p, q1) {
                    stmts_spec(ts, q1, next)
                } else {
                    Ok((next, q1))
                }
            },
        }
    } else if kind_at(ts, p) == TokenKind::Let {
        match node_at(ts, p + 1) {
            Token::Identifier(n) => if kind_at(ts, p + 2) != TokenKind::Assign {
                Err((expecting(ts, p + 2, Token::Assign, "Expected = in do-let"@), p + 2))
            } else {
                match expr_spec(ts, p + 3) {
                    Err(e) => Err(e),
                    Ok((v, q)) => {
                        let q1 = newlines_end(ts, q);
                        let next = acc.push(SpecTerm::Let(n@, Box::new(v), Box::new(v)));
                        if moved(ts, p, q1) {
                            stmts_spec(ts, q1, next)
                        } else {
                            Ok((next, q1))
                        }
                    },
                }
            },
            _ => {
                let q1 = newlines_end(ts, next_pos(ts, p + 1));
                if moved(ts, p, q1) {
                    stmts_spec(ts, q1, acc)
                } else {
                    Ok((acc, q1))
                }
            },
        }
    } else {
        match expr_spec(ts, p) {
            Err(e) => Err(e),
            Ok((s, q)) => {
                let q1 = newlines_end(ts, q);
                if moved(ts, p, q1) {
                    stmts_spec(ts, q1, acc.push(s))
                } else {
                    Ok((acc.push(s), q1))
                }
            },
        }
    }
}

/// `\x => b`, the backslash at `p`; a missing name reads as `_`.
#[verifier::opaque]
pub open spec fn lambda_spec(ts: Seq<Spanned<Token>>, p: int) -> Parsed
    decreases ts.len() - p, 15int,
{
    if kind_at(ts, p) != TokenKind::Backslash || p < 0 {
        Err((error_here(ts, p, Seq::empty()), next_pos(ts, p)))
    } else {
        let name = match node_at(ts, p + 1) {
            Token::Identifier(n) => n@,
            _ => "_"@,
        };
        let j2 = next_pos(ts, p + 1);
        if kind_at(ts, j2) != TokenKind::FatArrow {
            Err((expecting(ts, j2, Token::FatArrow, "Expected => in lambda"@), j2))
        } else {
            match expr_spec(ts, j2 + 1) {
                Err(e) => Err(e),
                Ok((b, q)) => Ok((SpecTerm::Lambda(name, Box::new(SpecTerm::Var("_"@)), Box::new(b)), q)),
            }
        }
    }
}

/// Comparisons `==`, `<`, `>`, left-associative.
#[verifier::opaque]
pub open spec fn comparison_spec(ts: Seq<Spanned<Token>>, p: int) -> Parsed
    decreases ts.len() - p, 10int,
{
    match bitor_spec(ts, p) {
        Err(e) => Err(e),
        Ok((lhs, q)) => if moved(ts, p, q) {
            comparison_tail(ts, q, lhs)
        } else {
            Ok((lhs, q))
        },
    }
}

/// The rest of a comparison after its left operand `lhs`.
#[verifier::opaque]
pub open spec fn comparison_tail(ts: Seq<Spanned<Token>>, p: int, lhs: SpecTerm) -> Parsed
    decreases ts.len() - p, 10int,
{
    let k = kind_at(ts, p);
    if (k == TokenKind::Eq || k == TokenKind::Lt || k == TokenKind::Gt) && p >= 0 {
        match bitor_spec(ts, p + 1) {
            Err(e) => Err(e),
            Ok((rhs, q)) => {
                let t = if k == TokenKind::Eq {
                    SpecTerm::Eq(Box::new(lhs), Box::new(rhs))
                } else if k == TokenKind::Lt {
                    SpecTerm::Lt(Box::new(lhs), Box::new(rhs))
                } else {
                    SpecTerm::Gt(Box::new(lhs), Box::new(rhs))
                };
                if moved(ts, p, q) {
                    comparison_tail(ts, q, t)
                } else {
                    Ok((t, q))
                }
            },
        }
    } else {
        Ok((lhs, p))
    }
}

/// `.|.`, left-associative.
#[verifier::opaque]
pub open spec fn bitor_spec(ts: Seq<Spanned<Token>>, p: int) -> Parsed
    decreases ts.len() - p, 9int,
{
    match bitxor_spec(ts, p) {
        Err(e) => Err(e),
        Ok((lhs, q)) => if moved(ts, p, q) {
            bitor_tail(ts, q, lhs)
        } else {
            Ok((lhs, q))
        },
    }
}

/// The rest of a `.|.` chain after its left operand.
#[verifier::opaque]
pub open spec fn bitor_tail(ts: Seq<Spanned<Token>>, p: int, lhs: SpecTerm) -> Parsed
    decreases ts.len() - p, 9int,
{
    if kind_at(ts, p) == TokenKind::BitOr && p >= 0 {
        match bitxor_spec(ts, p + 1) {
            Err(e) => Err(e),
            Ok((rhs, q)) => {
                let t = SpecTerm::BitOr(Box::new(lhs), Box::new(rhs));
                if moved(ts, p, q) {
                    bitor_tail(ts, q, t)
                } else {
                    Ok((t, q))
                }
            },
        }
    } else {
        Ok((lhs, p))
    }
}

/// `` `xor` ``, left-associative.
#[verifier::opaque]
pub open spec fn bitxor_spec(ts: Seq<Spanned<Token>>, p: int) -> Parsed
    decreases ts.len() - p, 8int,
{
    match bitand_spec(ts, p) {
        Err(e) => Err(e),
        Ok((lhs, q)) => if moved(ts, p, q) {
            bitxor_tail(ts, q, lhs)
        } else {
            Ok((lhs, q))
        },
    }
}

/// The rest of an `` `xor` `` chain after its left operand.
#[verifier::opaque]
pub open spec fn bitxor_tail(ts: Seq<Spanned<Token>>, p: int, lhs: SpecTerm) -> Parsed
    decreases ts.len() - p, 8int,
{
    if kind_at(ts, p) == TokenKind::Backtick && p >= 0 && p + 1 < ts.len() && kind_at(ts, p + 1) == TokenKind::Xor {
        if kind_at(ts, p + 2) != TokenKind::Backtick {
            Err((expecting(ts, p + 2, Token::Backtick, "Expected ` after xor"@), p + 2))
        } else {
            match bitand_spec(ts, p + 3) {
                Err(e) => Err(e),
                Ok((rhs, q)) => {
                    let t = SpecTerm::BitXor(Box::new(lhs), Box::new(rhs));
                    if moved(ts, p, q) {
                        bitxor_tail(ts, q, t)
                    } else {
                        Ok((t, q))
                    }
                },
            }
        }
    } else {
        Ok((lhs, p))
    }
}

/// `.&.`, left-associative.
#[verifier::opaque]
pub open spec fn bitand_spec(ts: Seq<Spanned<Token>>, p: int) -> Parsed
    decreases ts.len() - p, 7int,
{
    match shift_spec(ts, p) {
        Err(e) => Err(e),
        Ok((lhs, q)) => if moved(ts, p, q) {
            bitand_tail(ts, q, lhs)
        } else {
            Ok((lhs, q))
        },
    }
}

/// The rest of a `.&.` chain after its left operand.
#[verifier::opaque]
pub open spec fn bitand_tail(ts: Seq<Spanned<Token>>, p: int, lhs: SpecTerm) -> Parsed
    decreases ts.len() - p, 7int,
{
    if kind_at(ts, p) == TokenKind::BitAnd && p >= 0 {
        match shift_spec(ts, p + 1) {
            Err(e) => Err(e),
            Ok((rhs, q)) => {
                let t = SpecTerm::BitAnd(Box::new(lhs), Box::new(rhs));
                if moved(ts, p, q) {
                    bitand_tail(ts, q, t)
                } else {
                    Ok((t, q))
                }
            },
        }
    } else {
        Ok((lhs, p))
    }
}

/// `` `shiftL` `` and `` `shiftR` ``, left-associative.
#[verifier::opaque]
pub open spec fn shift_spec(ts: Seq<Spanned<Token>>, p: int) -> Parsed
    decreases ts.len() - p, 6int,
{
    match arith_spec(ts, p) {
        Err(e) => Err(e),
        Ok((lhs, q)) => if moved(ts, p, q) {
            shift_tail(ts, q, lhs)
        } else {
            Ok((lhs, q))
        },
    }
}

/// The rest of a shift chain after its left operand.
#[verifier::opaque]
pub open spec fn shift_tail(ts: Seq<Spanned<Token>>, p: int, lhs: SpecTerm) -> Parsed
    decreases ts.len() - p, 6int,
{
    let op = kind_at(ts, p + 1);
    if kind_at(ts, p) == TokenKind::Backtick && p >= 0 && p + 1 < ts.len() && (op == TokenKind::ShiftL || op
        == TokenKind::ShiftR) {
        if kind_at(ts, p + 2) != TokenKind::Backtick {
            Err((expecting(ts, p + 2, Token::Backtick, "Expected `"@), p + 2))
        } else {
            match arith_spec(ts, p + 3) {
                Err(e) => Err(e),
                Ok((rhs, q)) => {
                    let t = if op == TokenKind::ShiftL {
                        SpecTerm::Shl(Box::new(lhs), Box::new(rhs))
                    } else {
                        SpecTerm::Shr(Box::new(lhs), Box::new(rhs))
                    };
                    if moved(ts, p, q) {
                        shift_tail(ts, q, t)
                    } else {
                        Ok((t, q))
                    }
                },
            }
        }
    } else {
        Ok((lhs, p))
    }
}

/// `+`, `-` and `++` (an addition), left-associative.
#[verifier::opaque]
pub open spec fn arith_spec(ts: Seq<Spanned<Token>>, p: int) -> Parsed
    decreases ts.len() - p, 5int,
{
    match mult_spec(ts, p) {
        Err(e) => Err(e),
        Ok((lhs, q)) => if moved(ts, p, q) {
            arith_tail(ts, q, lhs)
        } else {
            Ok((lhs, q))
        },
    }
}

/// The rest of a sum after its left operand.
#[verifier::opaque]
pub open spec fn arith_tail(ts: Seq<Spanned<Token>>, p: int, lhs: SpecTerm) -> Parsed
    decreases ts.len() - p, 5int,
{
    let k = kind_at(ts, p);
    if (k == TokenKind::Plus || k == TokenKind::Minus || k == TokenKind::Append) && p >= 0 {
        match mult_spec(ts, p + 1) {
            Err(e) => Err(e),
            Ok((rhs, q)) => {
                let t = if k == TokenKind::Minus {
                    SpecTerm::Sub(Box::new(lhs), Box::new(rhs))
                } else {
                    SpecTerm::Add(Box::new(lhs), Box::new(rhs))
                };
                if moved(ts, p, q) {
                    arith_tail(ts, q, t)
                } else {
                    Ok((t, q))
                }
            },
        }
    } else {
        Ok((lhs, p))
    }
}

/// `*` and `/`, left-associative.
#[verifier::opaque]
pub open spec fn mult_spec(ts: Seq<Spanned<Token>>, p: int) -> Parsed
    decreases ts.len() - p, 4int,
{
    match unary_spec(ts, p) {
        Err(e) => Err(e),
        Ok((lhs, q)) => if moved(ts, p, q) {
            mult_tail(ts, q, lhs)
        } else {
            Ok((lhs, q))
        },
    }
}

/// The rest of a product after its left operand.
#[verifier::opaque]
pub open spec fn mult_tail(ts: Seq<Spanned<Token>>, p: int, lhs: SpecTerm) -> Parsed
    decreases ts.len() - p, 4int,
{
    let k = kind_at(ts, p);
    if (k == TokenKind::Star || k == TokenKind::Slash) && p >= 0 {
        match unary_spec(ts, p + 1) {
            Err(e) => Err(e),
            Ok((rhs, q)) => {
                let t = if k == TokenKind::Star {
                    SpecTerm::Mul(Box::new(lhs), Box::new(rhs))
                } else {
                    SpecTerm::Div(Box::new(lhs), Box::new(rhs))
                };
                if moved(ts, p, q) {
                    mult_tail(ts, q, t)
                } else {
                    Ok((t, q))
                }
            },
        }
    } else {
        Ok((lhs, p))
    }
}

/// `complement` as a prefix, or an application.
#[verifier::opaque]
pub open spec fn unary_spec(ts: Seq<Spanned<Token>>, p: int) -> Parsed
    decreases ts.len() - p, 3int,
{
    if kind_at(ts, p) == TokenKind::Complement && p >= 0 {
        match unary_spec(ts, p + 1) {
            Err(e) => Err(e),
            Ok((b, q)) => Ok((SpecTerm::BitNot(Box::new(b)), q)),
        }
    } else {
        app_spec(ts, p)
    }
}

/// A function applied to arguments, left-associative.
#[verifier::opaque]
pub open spec fn app_spec(ts: Seq<Spanned<Token>>, p: int) -> Parsed
    decreases ts.len() - p, 2int,
{
    match primary_spec(ts, p) {
        Err(e) => Err(e),
        Ok((f, q)) => if moved(ts, p, q) {
            app_tail(ts, q, f)
        } else {
            Ok((f, q))
        },
    }
}

/// Whether a token can start an argument other than a name.
pub open spec fn starts_argument(k: TokenKind) -> bool {
    k == TokenKind::Integer || k == TokenKind::Float || k == TokenKind::String || k == TokenKind::Char || k
        == TokenKind::LParen || k == TokenKind::LBracket || k == TokenKind::LBrace || k == TokenKind::Complement
        || k == TokenKind::Question
}

/// The arguments of an application after the function part `f`: taken
/// while the next token can start one; a name that `:`, `=` or `<-`
/// follows starts something else.
#[verifier::opaque]
pub open spec fn app_tail(ts: Seq<Spanned<Token>>, p: int, f: SpecTerm) -> Parsed
    decreases ts.len() - p, 2int,
{
    let k = kind_at(ts, p);
    let next = kind_at(ts, p + 1);
    let takes = if k == TokenKind::Identifier {
        !(p + 1 < ts.len() && (next == TokenKind::Colon || next == TokenKind::Assign || next == TokenKind::Bind))
    } else {
        starts_argument(k)
    };
    if takes && p >= 0 {
        match primary_spec(ts, p) {
            Err(e) => Err(e),
            Ok((a, q)) => {
                let t = SpecTerm::App(Box::new(f), Box::new(a));
                if moved(ts, p, q) {
                    app_tail(ts, q, t)
                } else {
                    Ok((t, q))
                }
            },
        }
    } else {
        Ok((f, p))
    }
}

/// Whether a token stands for an operator in a parenthesized section.
pub open spec fn section_operator(k: TokenKind) -> bool {
    k == TokenKind::Plus || k == TokenKind::Star || k == TokenKind::Minus || k == TokenKind::Slash || k
        == TokenKind::Append || k == TokenKind::Eq || k == TokenKind::Lt || k == TokenKind::Gt || k
        == TokenKind::Colon
}

/// A primary expression, after any line breaks at `p`.
#[verifier::opaque]
pub open spec fn primary_spec(ts: Seq<Spanned<Token>>, p: int) -> Parsed
    decreases ts.len() - p, 1int,
{
    let i = newlines_end(ts, p);
    let j = next_pos(ts, i);
    if i < p || p < 0 {
        Err((error_here(ts, i, Seq::empty()), next_pos(ts, i)))
    } else {
        match node_at(ts, i) {
            Token::LParen => paren_spec(ts, p, j),
            Token::LBracket => if kind_at(ts, j) == TokenKind::RBracket {
                Ok((SpecTerm::Var("Nil"@), j + 1))
            } else {
                match expr_spec(ts, j) {
                    Err(e) => Err(e),
                    Ok((first, q)) => if kind_at(ts, q) == TokenKind::RBracket {
                        Ok((first, q + 1))
                    } else {
                        let c = skip_close(ts, q, TokenKind::LBracket, TokenKind::RBracket, 1);
                        Ok((first, if kind_at(ts, c) == TokenKind::RBracket { c + 1 } else { c }))
                    },
                }
            },
            Token::Question => {
                let name = match node_at(ts, j) {
                    Token::Identifier(n) => "?"@ + n@,
                    _ => "?"@ + "hole"@,
                };
                Ok((SpecTerm::Var(name), next_pos(ts, j)))
            },
            Token::LBrace => {
                let c = skip_close(ts, j, TokenKind::LBrace, TokenKind::RBrace, 1);
                Ok((SpecTerm::Var("_record_update"@), if kind_at(ts, c) == TokenKind::RBrace { c + 1 } else { c }))
            },
            Token::Backslash => {
                let name = match node_at(ts, j) {
                    Token::Identifier(n) => n@,
                    _ => "_"@,
                };
                let j2 = next_pos(ts, j);
                if kind_at(ts, j2) != TokenKind::FatArrow {
                    Err((expecting(ts, j2, Token::FatArrow, "Expected => in lambda"@), j2))
                } else {
                    match expr_spec(ts, j2 + 1) {
                        Err(e) => Err(e),
                        Ok((b, q)) => Ok((SpecTerm::Lambda(name, Box::new(SpecTerm::Var("_"@)), Box::new(b)), q)),
                    }
                }
            },
            Token::Dollar => expr_spec(ts, j),
            Token::Integer(v) => Ok((SpecTerm::Integer(v), j)),
            Token::Float(s) => Ok((SpecTerm::Float(s@), j)),
            Token::String(s) => Ok((SpecTerm::String(s@), j)),
            Token::Char(c) => Ok((SpecTerm::Char(c), j)),
            Token::Identifier(n) => match name_atom(n@) {
                Some(t) => Ok((t, j)),
                None => if n@ == "buffer"@ {
                    let size: usize = match node_at(ts, j) {
                        Token::Integer(s) => s as usize,
                        _ => 0,
                    };
                    Ok((SpecTerm::Buffer(size), next_pos(ts, j)))
                } else {
                    match primary_spec(ts, j) {
                        Err(e) => Err(e),
                        Ok((b, q)) => if !moved(ts, j - 1, q) {
                            Err((error_here(ts, q, Seq::empty()), next_pos(ts, q)))
                        } else {
                            match primary_spec(ts, q) {
                                Err(e) => Err(e),
                                Ok((ix, q2)) => if n@ == "getBits64"@ {
                                    Ok((SpecTerm::BufferLoad(Box::new(b), Box::new(ix)), q2))
                                } else if !moved(ts, q, q2) {
                                    Err((error_here(ts, q2, Seq::empty()), next_pos(ts, q2)))
                                } else {
                                    match primary_spec(ts, q2) {
                                        Err(e) => Err(e),
                                        Ok((v, q3)) => Ok(
                                            (SpecTerm::BufferStore(Box::new(b), Box::new(ix), Box::new(v)), q3),
                                        ),
                                    }
                                },
                            }
                        },
                    }
                },
            },
            Token::Pipe | Token::Colon | Token::At | Token::Hash | Token::Underscore | Token::Assign => Ok(
                (SpecTerm::Var("_"@), j),
            ),
            _ => Err((error_here(ts, i, "Unexpected token in parse_primary"@), next_pos(ts, i))),
        }
    }
}

/// A parenthesized primary expression whose `(` lies before `j`: unit, an
/// operator section, or an expression, perhaps with more tuple components
/// or a type after it.
#[verifier::opaque]
pub open spec fn paren_spec(ts: Seq<Spanned<Token>>, p: int, j: int) -> Parsed
    decreases ts.len() - p, 0int,
{
    if j <= p || p < 0 || j > ts.len() {
        Err((error_here(ts, j, Seq::empty()), next_pos(ts, j)))
    } else if kind_at(ts, j) == TokenKind::RParen {
        Ok((SpecTerm::Integer(0), j + 1))
    } else if section_operator(kind_at(ts, j)) && j + 1 < ts.len() && kind_at(ts, j + 1) == TokenKind::RParen {
        Ok((SpecTerm::Var(token_text(node_at(ts, j)@)), j + 2))
    } else if section_operator(kind_at(ts, j)) && j + 2 < ts.len() && kind_at(ts, j + 2) == TokenKind::RParen {
        Ok((SpecTerm::Var(token_text(node_at(ts, j)@) + token_text(node_at(ts, j + 1)@)), j + 3))
    } else {
        match expr_spec(ts, j) {
            Err(e) => Err(e),
            Ok((e, q)) => if !moved(ts, j, q) {
                Err((error_here(ts, q, Seq::empty()), next_pos(ts, q)))
            } else {
                match tuple_spec(ts, q) {
                    Err(err) => Err(err),
                    Ok(q2) => if q2 < q {
                        Err((error_here(ts, q2, Seq::empty()), next_pos(ts, q2)))
                    } else {
                        let r3: Result<int, (SyntaxError, int)> = if kind_at(ts, q2) == TokenKind::DoubleStar {
                            match expr_spec(ts, q2 + 1) {
                                Err(err) => Err(err),
                                Ok((_, q3)) => Ok(q3),
                            }
                        } else {
                            Ok(q2)
                        };
                        match r3 {
                            Err(err) => Err(err),
                            Ok(q3) => if kind_at(ts, q3) == TokenKind::Colon || kind_at(ts, q3) == TokenKind::Arrow {
                                let c = skip_close(ts, q3, TokenKind::LParen, TokenKind::RParen, 1);
                                Ok((e, if kind_at(ts, c) == TokenKind::RParen { c + 1 } else { c }))
                            } else if kind_at(ts, q3) == TokenKind::RParen {
                                Ok((e, q3 + 1))
                            } else {
                                Err((expecting(ts, q3, Token::RParen, "Expected )"@), q3))
                            },
                        }
                    },
                }
            },
        }
    }
}

/// The position after further tuple components `, e` from `p` on; their
/// values are not kept.
#[verifier::opaque]
pub open spec fn tuple_spec(ts: Seq<Spanned<Token>>, p: int) -> Result<int, (SyntaxError, int)>
    decreases ts.len() - p, 0int,
{
    if kind_at(ts, p) == TokenKind::Comma && p >= 0 {
        match expr_spec(ts, p + 1) {
            Err(e) => Err(e),
            Ok((_, q)) => if moved(ts, p, q) {
                tuple_spec(ts, q)
            } else {
                Ok(q)
            },
        }
    } else {
        Ok(p)
    }
}

} // verus!

verus! {

/// Whether a result that lists case branches agrees with the grammar's.
pub open spec fn arms_agree(
    r: Result<Vec<(String, Vec<String>, Box<Term>)>, CompilerError>,
    pos: int,
    s: Result<(Seq<SpecBranch>, int), (SyntaxError, int)>,
) -> bool {
    match s {
        Ok((bs, q)) => r is Ok && branches_view(r->Ok_0@) == bs && pos == q,
        Err((e, q)) => r is Err && error_model(r->Err_0) == Some(e) && pos == q,
    }
}

/// Whether a result that lists statements agrees with the grammar's.
pub open spec fn stmts_agree(r: Result<Vec<Term>, CompilerError>, pos: int, s: Result<(Seq<SpecTerm>, int), (SyntaxError, int)>) -> bool {
    match s {
        Ok((ss, q)) => r is Ok && terms_view(r->Ok_0@) == ss && pos == q,
        Err((e, q)) => r is Err && error_model(r->Err_0) == Some(e) && pos == q,
    }
}

/// Whether a result that only moves the parser agrees with the grammar's.
pub open spec fn moves_agree(r: Result<(), CompilerError>, pos: int, s: Result<int, (SyntaxError, int)>) -> bool {
    match s {
        Ok(q) => r is Ok && pos == q,
        Err((e, q)) => r is Err && error_model(r->Err_0) == Some(e) && pos == q,
    }
}

} // verus!

verus! {

/// One step of `comparison_spec`.
pub proof fn unfold_comparison_spec(ts: Seq<Spanned<Token>>, p: int)
    ensures
        comparison_spec(ts, p) == ({
            match bitor_spec(ts, p) {
                Err(e) => Err(e),
                Ok((lhs, q)) => if moved(ts, p, q) {
                    comparison_tail(ts, q, lhs)
                } else {
                    Ok((lhs, q))
                },
            }
        }),
{
    reveal(comparison_spec);
    reveal(bitor_spec);
    reveal(comparison_tail);
}

/// One step of `comparison_tail`.
pub proof fn unfold_comparison_tail(ts: Seq<Spanned<Token>>, p: int, lhs: SpecTerm)
    ensures
        comparison_tail(ts, p, lhs) == ({
            let k = kind_at(ts, p);
            if (k == TokenKind::Eq || k == TokenKind::Lt || k == TokenKind::Gt) && p >= 0 {
                match bitor_spec(ts, p + 1) {
                    Err(e) => Err(e),
                    Ok((rhs, q)) => {
                        let t = if k == TokenKind::Eq {
                            SpecTerm::Eq(Box::new(lhs), Box::new(rhs))
                        } else if k == TokenKind::Lt {
                            SpecTerm::Lt(Box::new(lhs), Box::new(rhs))
                        } else {
                            SpecTerm::Gt(Box::new(lhs), Box::new(rhs))
                        };
                        if moved(ts, p, q) {
                            comparison_tail(ts, q, t)
                        } else {
                            Ok((t, q))
                        }
                    },
                }
            } else {
                Ok((lhs, p))
            }
        }),
{
    reveal(comparison_tail);
    reveal(bitor_spec);
}

/// One step of `bitor_spec`.
pub proof fn unfold_bitor_spec(ts: Seq<Spanned<Token>>, p: int)
    ensures
        bitor_spec(ts, p) == ({
            match bitxor_spec(ts, p) {
                Err(e) => Err(e),
                Ok((lhs, q)) => if moved(ts, p, q) {
                    bitor_tail(ts, q, lhs)
                } else {
                    Ok((lhs, q))
                },
            }
        }),
{
    reveal(bitor_spec);
    reveal(bitxor_spec);
    reveal(bitor_tail);
}

/// One step of `bitor_tail`.
pub proof fn unfold_bitor_tail(ts: Seq<Spanned<Token>>, p: int, lhs: SpecTerm)
    ensures
        bitor_tail(ts, p, lhs) == ({
            if kind_at(ts, p) == TokenKind::BitOr && p >= 0 {
                match bitxor_spec(ts, p + 1) {
                    Err(e) => Err(e),
                    Ok((rhs, q)) => {
                        let t = SpecTerm::BitOr(Box::new(lhs), Box::new(rhs));
                        if moved(ts, p, q) {
                            bitor_tail(ts, q, t)
                        } else {
                            Ok((t, q))
                        }
                    },
                }
            } else {
                Ok((lhs, p))
            }
        }),
{
    reveal(bitor_tail);
    reveal(bitxor_spec);
}

/// One step of `bitxor_spec`.
pub proof fn unfold_bitxor_spec(ts: Seq<Spanned<Token>>, p: int)
    ensures
        bitxor_spec(ts, p) == ({
            match bitand_spec(ts, p) {
                Err(e) => Err(e),
                Ok((lhs, q)) => if moved(ts, p, q) {
                    bitxor_tail(ts, q, lhs)
                } else {
                    Ok((lhs, q))
                },
            }
        }),
{
    reveal(bitxor_spec);
    reveal(bitand_spec);
    reveal(bitxor_tail);
}

/// One step of `bitxor_tail`.
pub proof fn unfold_bitxor_tail(ts: Seq<Spanned<Token>>, p: int, lhs: SpecTerm)
    ensures
        bitxor_tail(ts, p, lhs) == ({
            if kind_at(ts, p) == TokenKind::Backtick && p >= 0 && p + 1 < ts.len() && kind_at(ts, p + 1) == TokenKind::Xor {
                if kind_at(ts, p + 2) != TokenKind::Backtick {
                    Err((expecting(ts, p + 2, Token::Backtick, "Expected ` after xor"@), p + 2))
                } else {
                    match bitand_spec(ts, p + 3) {
                        Err(e) => Err(e),
                        Ok((rhs, q)) => {
                            let t = SpecTerm::BitXor(Box::new(lhs), Box::new(rhs));
                            if moved(ts, p, q) {
                                bitxor_tail(ts, q, t)
                            } else {
                                Ok((t, q))
                            }
                        },
                    }
                }
            } else {
                Ok((lhs, p))
            }
        }),
{
    reveal(bitxor_tail);
    reveal(bitand_spec);
}

/// One step of `bitand_spec`.
pub proof fn unfold_bitand_spec(ts: Seq<Spanned<Token>>, p: int)
    ensures
        bitand_spec(ts, p) == ({
            match shift_spec(ts, p) {
                Err(e) => Err(e),
                Ok((lhs, q)) => if moved(ts, p, q) {
                    bitand_tail(ts, q, lhs)
                } else {
                    Ok((lhs, q))
                },
            }
        }),
{
    reveal(bitand_spec);
    reveal(shift_spec);
    reveal(bitand_tail);
}

/// One step of `bitand_tail`.
pub proof fn unfold_bitand_tail(ts: Seq<Spanned<Token>>, p: int, lhs: SpecTerm)
    ensures
        bitand_tail(ts, p, lhs) == ({
            if kind_at(ts, p) == TokenKind::BitAnd && p >= 0 {
                match shift_spec(ts, p + 1) {
                    Err(e) => Err(e),
                    Ok((rhs, q)) => {
                        let t = SpecTerm::BitAnd(Box::new(lhs), Box::new(rhs));
                        if moved(ts, p, q) {
                            bitand_tail(ts, q, t)
                        } else {
                            Ok((t, q))
                        }
                    },
                }
            } else {
                Ok((lhs, p))
            }
        }),
{
    reveal(bitand_tail);
    reveal(shift_spec);
}

/// One step of `shift_spec`.
pub proof fn unfold_shift_spec(ts: Seq<Spanned<Token>>, p: int)
    ensures
        shift_spec(ts, p) == ({
            match arith_spec(ts, p) {
                Err(e) => Err(e),
                Ok((lhs, q)) => if moved(ts, p, q) {
                    shift_tail(ts, q, lhs)
                } else {
                    Ok((lhs, q))
                },
            }
        }),
{
    reveal(shift_spec);
    reveal(arith_spec);
    reveal(shift_tail);
}

/// One step of `shift_tail`.
pub proof fn unfold_shift_tail(ts: Seq<Spanned<Token>>, p: int, lhs: SpecTerm)
    ensures
        shift_tail(ts, p, lhs) == ({
            let op = kind_at(ts, p + 1);
            if kind_at(ts, p) == TokenKind::Backtick && p >= 0 && p + 1 < ts.len() && (op == TokenKind::ShiftL || op
                == TokenKind::ShiftR) {
                if kind_at(ts, p + 2) != TokenKind::Backtick {
                    Err((expecting(ts, p + 2, Token::Backtick, "Expected `"@), p + 2))
                } else {
                    match arith_spec(ts, p + 3) {
                        Err(e) => Err(e),
                        Ok((rhs, q)) => {
                            let t = if op == TokenKind::ShiftL {
                                SpecTerm::Shl(Box::new(lhs), Box::new(rhs))
                            } else {
                                SpecTerm::Shr(Box::new(lhs), Box::new(rhs))
                            };
                            if moved(ts, p, q) {
                                shift_tail(ts, q, t)
                            } else {
                                Ok((t, q))
                            }
                        },
                    }
                }
            } else {
                Ok((lhs, p))
            }
        }),
{
    reveal(shift_tail);
    reveal(arith_spec);
}

/// One step of `arith_spec`.
pub proof fn unfold_arith_spec(ts: Seq<Spanned<Token>>, p: int)
    ensures
        arith_spec(ts, p) == ({
            match mult_spec(ts, p) {
                Err(e) => Err(e),
                Ok((lhs, q)) => if moved(ts, p, q) {
                    arith_tail(ts, q, lhs)
                } else {
                    Ok((lhs, q))
                },
            }
        }),
{
    reveal(arith_spec);
    reveal(mult_spec);
    reveal(arith_tail);
}

/// One step of `arith_tail`.
pub proof fn unfold_arith_tail(ts: Seq<Spanned<Token>>, p: int, lhs: SpecTerm)
    ensures
        arith_tail(ts, p, lhs) == ({
            let k = kind_at(ts, p);
            if (k == TokenKind::Plus || k == TokenKind::Minus || k == TokenKind::Append) && p >= 0 {
                match mult_spec(ts, p + 1) {
                    Err(e) => Err(e),
                    Ok((rhs, q)) => {
                        let t = if k == TokenKind::Minus {
                            SpecTerm::Sub(Box::new(lhs), Box::new(rhs))
                        } else {
                            SpecTerm::Add(Box::new(lhs), Box::new(rhs))
                        };
                        if moved(ts, p, q) {
                            arith_tail(ts, q, t)
                        } else {
                            Ok((t, q))
                        }
                    },
                }
            } else {
                Ok((lhs, p))
            }
        }),
{
    reveal(arith_tail);
    reveal(mult_spec);
}

/// One step of `mult_spec`.
pub proof fn unfold_mult_spec(ts: Seq<Spanned<Token>>, p: int)
    ensures
        mult_spec(ts, p) == ({
            match unary_spec(ts, p) {
                Err(e) => Err(e),
                Ok((lhs, q)) => if moved(ts, p, q) {
                    mult_tail(ts, q, lhs)
                } else {
                    Ok((lhs, q))
                },
            }
        }),
{
    reveal(mult_spec);
    reveal(unary_spec);
    reveal(mult_tail);
}

/// One step of `mult_tail`.
pub proof fn unfold_mult_tail(ts: Seq<Spanned<Token>>, p: int, lhs: SpecTerm)
    ensures
        mult_tail(ts, p, lhs) == ({
            let k = kind_at(ts, p);
            if (k == TokenKind::Star || k == TokenKind::Slash) && p >= 0 {
                match unary_spec(ts, p + 1) {
                    Err(e) => Err(e),
                    Ok((rhs, q)) => {
                        let t = if k == TokenKind::Star {
                            SpecTerm::Mul(Box::new(lhs), Box::new(rhs))
                        } else {
                            SpecTerm::Div(Box::new(lhs), Box::new(rhs))
                        };
                        if moved(ts, p, q) {
                            mult_tail(ts, q, t)
                        } else {
                            Ok((t, q))
                        }
                    },
                }
            } else {
                Ok((lhs, p))
            }
        }),
{
    reveal(mult_tail);
    reveal(unary_spec);
}

/// One step of `app_spec`.
pub proof fn unfold_app_spec(ts: Seq<Spanned<Token>>, p: int)
    ensures
        app_spec(ts, p) == ({
            match primary_spec(ts, p) {
                Err(e) => Err(e),
                Ok((f, q)) => if moved(ts, p, q) {
                    app_tail(ts, q, f)
                } else {
                    Ok((f, q))
                },
            }
        }),
{
    reveal(app_spec);
    reveal(primary_spec);
    reveal(app_tail);
}

/// One step of `app_tail`.
pub proof fn unfold_app_tail(ts: Seq<Spanned<Token>>, p: int, f: SpecTerm)
    ensures
        app_tail(ts, p, f) == ({
            let k = kind_at(ts, p);
            let next = kind_at(ts, p + 1);
            let takes = if k == TokenKind::Identifier {
                !(p + 1 < ts.len() && (next == TokenKind::Colon || next == TokenKind::Assign || next == TokenKind::Bind))
            } else {
                starts_argument(k)
            };
            if takes && p >= 0 {
                match primary_spec(ts, p) {
                    Err(e) => Err(e),
                    Ok((a, q)) => {
                        let t = SpecTerm::App(Box::new(f), Box::new(a));
                        if moved(ts, p, q) {
                            app_tail(ts, q, t)
                        } else {
                            Ok((t, q))
                        }
                    },
                }
            } else {
                Ok((f, p))
            }
        }),
{
    reveal(app_tail);
    reveal(primary_spec);
}

} // verus!

verus! {

/// A pi type from `p` on: a binder with a multiplicity, a named binder, a
/// parenthesized type or an application, then, after an `->`, the rest as
/// the body of an unnamed pi type of multiplicity many.
#[verifier::opaque]
pub open spec fn pi_spec(ts: Seq<Spanned<Token>>, p: int) -> Parsed
    decreases ts.len() - p, 3int,
{
    match pi_head(ts, p) {
        Err(e) => Err(e),
        Ok((t, q, whole)) => if whole || kind_at(ts, q) != TokenKind::Arrow || !moved(ts, p, q) {
            Ok((t, q))
        } else {
            match pi_spec(ts, q + 1) {
                Err(e) => Err(e),
                Ok((rhs, q2)) => Ok(
                    (SpecTerm::Pi("_"@, Multiplicity::Many, Box::new(t), Box::new(rhs)), q2),
                ),
            }
        },
    }
}

/// The first part of a pi type from `p` on, the position after it, and
/// whether it is a whole binder pi type already.
#[verifier::opaque]
pub open spec fn pi_head(ts: Seq<Spanned<Token>>, p: int) -> Result<(SpecTerm, int, bool), (SyntaxError, int)>
    decreases ts.len() - p, 2int,
{
    if kind_at(ts, p) != TokenKind::LParen || p < 0 {
        match app_spec(ts, p) {
            Err(e) => Err(e),
            Ok((t, q)) => Ok((t, q, false)),
        }
    } else {
        match paren_kind(ts, p) {
            ParenKind::QttPi(m) => {
                let name = match node_at(ts, p + 2) {
                    Token::Identifier(n) => n@,
                    _ => "_"@,
                };
                if kind_at(ts, p + 3) != TokenKind::Colon {
                    Err((expecting(ts, p + 3, Token::Colon, "Expected : in Pi binder"@), p + 3))
                } else {
                    match pi_spec(ts, p + 4) {
                        Err(e) => Err(e),
                        Ok((ty, q)) => if kind_at(ts, q) != TokenKind::RParen || !moved(ts, p, q) {
                            Err((expecting(ts, q, Token::RParen, "Expected ) in Pi binder"@), q))
                        } else if kind_at(ts, q + 1) == TokenKind::Arrow {
                            match pi_spec(ts, q + 2) {
                                Err(e) => Err(e),
                                Ok((body, q2)) => Ok((SpecTerm::Pi(name, m, Box::new(ty), Box::new(body)), q2, true)),
                            }
                        } else {
                            Ok((ty, q + 1, false))
                        },
                    }
                }
            },
            ParenKind::NamedPi => {
                let name = match node_at(ts, p + 1) {
                    Token::Identifier(n) => n@,
                    _ => "_"@,
                };
                if kind_at(ts, p + 2) != TokenKind::Colon {
                    Err((expecting(ts, p + 2, Token::Colon, "Expected : in named Pi binder"@), p + 2))
                } else {
                    match pi_inner_spec(ts, p + 3) {
                        Err(e) => Err(e),
                        Ok((ty, q)) => if kind_at(ts, q) != TokenKind::RParen || !moved(ts, p, q) {
                            Err((expecting(ts, q, Token::RParen, "Expected ) in named Pi binder"@), q))
                        } else if kind_at(ts, q + 1) == TokenKind::Arrow {
                            match pi_spec(ts, q + 2) {
                                Err(e) => Err(e),
                                Ok((body, q2)) => Ok(
                                    (SpecTerm::Pi(name, Multiplicity::Many, Box::new(ty), Box::new(body)), q2, true),
                                ),
                            }
                        } else {
                            Ok((ty, q + 1, false))
                        },
                    }
                }
            },
            ParenKind::GroupedExpr => match pi_inner_spec(ts, p + 1) {
                Err(e) => Err(e),
                Ok((t, q)) => if kind_at(ts, q) != TokenKind::RParen || !moved(ts, p, q) {
                    Err((expecting(ts, q, Token::RParen, "Expected )"@), q))
                } else {
                    Ok((t, q + 1, false))
                },
            },
        }
    }
}

/// A type inside parentheses from `p` on: an application, then an arrow
/// and the rest, a dependent pair `** t`, tuple components and an equation
/// `= t`, as they come; the pair and the components are not kept.
#[verifier::opaque]
pub open spec fn pi_inner_spec(ts: Seq<Spanned<Token>>, p: int) -> Parsed
    decreases ts.len() - p, 1int,
{
    match app_spec(ts, p) {
        Err(e) => Err(e),
        Ok((lhs, q)) => if !moved(ts, p, q) {
            Ok((lhs, q))
        } else {
            let arrow: Parsed = if kind_at(ts, q) == TokenKind::Arrow {
                match pi_inner_spec(ts, q + 1) {
                    Err(e) => Err(e),
                    Ok((rhs, q1)) => Ok((SpecTerm::Pi("_"@, Multiplicity::Many, Box::new(lhs), Box::new(rhs)), q1)),
                }
            } else {
                Ok((lhs, q))
            };
            match arrow {
                Err(e) => Err(e),
                Ok((t1, q1)) => if q1 < q {
                    Ok((t1, q1))
                } else {
                    let pair: Result<int, (SyntaxError, int)> = if kind_at(ts, q1) == TokenKind::DoubleStar {
                        match pi_inner_spec(ts, q1 + 1) {
                            Err(e) => Err(e),
                            Ok((_, q2)) => Ok(q2),
                        }
                    } else {
                        Ok(q1)
                    };
                    match pair {
                        Err(e) => Err(e),
                        Ok(q2) => if q2 < q1 || q2 > ts.len() {
                            Ok((t1, q2))
                        } else {
                            match inner_commas(ts, q2) {
                                Err(e) => Err(e),
                                Ok(q3) => if q3 < q2 {
                                    Ok((t1, q3))
                                } else if kind_at(ts, q3) == TokenKind::Assign {
                                    match pi_inner_spec(ts, q3 + 1) {
                                        Err(e) => Err(e),
                                        Ok((rhs, q4)) => Ok((SpecTerm::Eq(Box::new(t1), Box::new(rhs)), q4)),
                                    }
                                } else {
                                    Ok((t1, q3))
                                },
                            }
                        },
                    }
                },
            }
        },
    }
}

/// The position after tuple components `, t` inside parentheses from `p`
/// on; their values are not kept.
#[verifier::opaque]
pub open spec fn inner_commas(ts: Seq<Spanned<Token>>, p: int) -> Result<int, (SyntaxError, int)>
    decreases ts.len() - p, 0int,
{
    if kind_at(ts, p) == TokenKind::Comma && p >= 0 {
        match pi_inner_spec(ts, p + 1) {
            Err(e) => Err(e),
            Ok((_, q)) => if moved(ts, p, q) {
                inner_commas(ts, q)
            } else {
                Ok(q)
            },
        }
    } else {
        Ok(p)
    }
}

/// A signature `name : type` at `p`: the name, the type, and the position
/// after the line breaks that follow.
pub open spec fn signature_spec(ts: Seq<Spanned<Token>>, p: int) -> Result<(Seq<char>, SpecTerm, int), (SyntaxError, int)> {
    match node_at(ts, p) {
        Token::Identifier(n) => if kind_at(ts, p + 1) != TokenKind::Colon {
            Err((expecting(ts, p + 1, Token::Colon, "Expected : after name in signature"@), p + 1))
        } else {
            match pi_spec(ts, p + 2) {
                Err(e) => Err(e),
                Ok((t, q)) => Ok((n@, t, newlines_end(ts, q))),
            }
        },
        _ => Err(
            (
                SyntaxError {
                    span: span_at(ts, p),
                    token: node_at(ts, p),
                    expected: Some("Identifier"@),
                    message: "Expected identifier in signature"@,
                },
                next_pos(ts, p),
            ),
        ),
    }
}

} // verus!

verus! {

/// One step of `pi_spec`.
pub proof fn unfold_pi_spec(ts: Seq<Spanned<Token>>, p: int)
    ensures
        pi_spec(ts, p) == ({
            match pi_head(ts, p) {
                Err(e) => Err(e),
                Ok((t, q, whole)) => if whole || kind_at(ts, q) != TokenKind::Arrow || !moved(ts, p, q) {
                    Ok((t, q))
                } else {
                    match pi_spec(ts, q + 1) {
                        Err(e) => Err(e),
                        Ok((rhs, q2)) => Ok(
                            (SpecTerm::Pi("_"@, Multiplicity::Many, Box::new(t), Box::new(rhs)), q2),
                        ),
                    }
                },
            }
        }),
{
    reveal(pi_spec);
    reveal(pi_head);
}

/// One step of `pi_head`.
pub proof fn unfold_pi_head(ts: Seq<Spanned<Token>>, p: int)
    ensures
        pi_head(ts, p) == ({
            if kind_at(ts, p) != TokenKind::LParen || p < 0 {
                match app_spec(ts, p) {
                    Err(e) => Err(e),
                    Ok((t, q)) => Ok((t, q, false)),
                }
            } else {
                match paren_kind(ts, p) {
                    ParenKind::QttPi(m) => {
                        let name = match node_at(ts, p + 2) {
                            Token::Identifier(n) => n@,
                            _ => "_"@,
                        };
                        if kind_at(ts, p + 3) != TokenKind::Colon {
                            Err((expecting(ts, p + 3, Token::Colon, "Expected : in Pi binder"@), p + 3))
                        } else {
                            match pi_spec(ts, p + 4) {
                                Err(e) => Err(e),
                                Ok((ty, q)) => if kind_at(ts, q) != TokenKind::RParen || !moved(ts, p, q) {
                                    Err((expecting(ts, q, Token::RParen, "Expected ) in Pi binder"@), q))
                                } else if kind_at(ts, q + 1) == TokenKind::Arrow {
                                    match pi_spec(ts, q + 2) {
                                        Err(e) => Err(e),
                                        Ok((body, q2)) => Ok((SpecTerm::Pi(name, m, Box::new(ty), Box::new(body)), q2, true)),
                                    }
                                } else {
                                    Ok((ty, q + 1, false))
                                },
                            }
                        }
                    },
                    ParenKind::NamedPi => {
                        let name = match node_at(ts, p + 1) {
                            Token::Identifier(n) => n@,
                            _ => "_"@,
                        };
                        if kind_at(ts, p + 2) != TokenKind::Colon {
                            Err((expecting(ts, p + 2, Token::Colon, "Expected : in named Pi binder"@), p + 2))
                        } else {
                            match pi_inner_spec(ts, p + 3) {
                                Err(e) => Err(e),
                                Ok((ty, q)) => if kind_at(ts, q) != TokenKind::RParen || !moved(ts, p, q) {
                                    Err((expecting(ts, q, Token::RParen, "Expected ) in named Pi binder"@), q))
                                } else if kind_at(ts, q + 1) == TokenKind::Arrow {
                                    match pi_spec(ts, q + 2) {
                                        Err(e) => Err(e),
                                        Ok((body, q2)) => Ok(
                                            (SpecTerm::Pi(name, Multiplicity::Many, Box::new(ty), Box::new(body)), q2, true),
                                        ),
                                    }
                                } else {
                                    Ok((ty, q + 1, false))
                                },
                            }
                        }
                    },
                    ParenKind::GroupedExpr => match pi_inner_spec(ts, p + 1) {
                        Err(e) => Err(e),
                        Ok((t, q)) => if kind_at(ts, q) != TokenKind::RParen || !moved(ts, p, q) {
                            Err((expecting(ts, q, Token::RParen, "Expected )"@), q))
                        } else {
                            Ok((t, q + 1, false))
                        },
                    },
                }
            }
        }),
{
    reveal(pi_head);
    reveal(pi_spec);
    reveal(pi_inner_spec);
}

/// One step of `pi_inner_spec`.
pub proof fn unfold_pi_inner_spec(ts: Seq<Spanned<Token>>, p: int)
    ensures
        pi_inner_spec(ts, p) == ({
            match app_spec(ts, p) {
                Err(e) => Err(e),
                Ok((lhs, q)) => if !moved(ts, p, q) {
                    Ok((lhs, q))
                } else {
                    let arrow: Parsed = if kind_at(ts, q) == TokenKind::Arrow {
                        match pi_inner_spec(ts, q + 1) {
                            Err(e) => Err(e),
                            Ok((rhs, q1)) => Ok((SpecTerm::Pi("_"@, Multiplicity::Many, Box::new(lhs), Box::new(rhs)), q1)),
                        }
                    } else {
                        Ok((lhs, q))
                    };
                    match arrow {
                        Err(e) => Err(e),
                        Ok((t1, q1)) => if q1 < q {
                            Ok((t1, q1))
                        } else {
                            let pair: Result<int, (SyntaxError, int)> = if kind_at(ts, q1) == TokenKind::DoubleStar {
                                match pi_inner_spec(ts, q1 + 1) {
                                    Err(e) => Err(e),
                                    Ok((_, q2)) => Ok(q2),
                                }
                            } else {
                                Ok(q1)
                            };
                            match pair {
                                Err(e) => Err(e),
                                Ok(q2) => if q2 < q1 || q2 > ts.len() {
                                    Ok((t1, q2))
                                } else {
                                    match inner_commas(ts, q2) {
                                        Err(e) => Err(e),
                                        Ok(q3) => if q3 < q2 {
                                            Ok((t1, q3))
                                        } else if kind_at(ts, q3) == TokenKind::Assign {
                                            match pi_inner_spec(ts, q3 + 1) {
                                                Err(e) => Err(e),
                                                Ok((rhs, q4)) => Ok((SpecTerm::Eq(Box::new(t1), Box::new(rhs)), q4)),
                                            }
                                        } else {
                                            Ok((t1, q3))
                                        },
                                    }
                                },
                            }
                        },
                    }
                },
            }
        }),
{
    reveal(pi_inner_spec);
    reveal(inner_commas);
}

/// One step of `inner_commas`.
pub proof fn unfold_inner_commas(ts: Seq<Spanned<Token>>, p: int)
    ensures
        inner_commas(ts, p) == ({
            if kind_at(ts, p) == TokenKind::Comma && p >= 0 {
                match pi_inner_spec(ts, p + 1) {
                    Err(e) => Err(e),
                    Ok((_, q)) => if moved(ts, p, q) {
                        inner_commas(ts, q)
                    } else {
                        Ok(q)
                    },
                }
            } else {
                Ok(p)
            }
        }),
{
    reveal(inner_commas);
    reveal(pi_inner_spec);
}

} // verus!
