//! The grammar of declarations and programs as functions on token
//! sequences, in the terms of the expression grammar: what parsing from a
//! position gives, and where it stops.
use vstd::prelude::*;
use crate::chars::int_text;
use crate::errors::Spanned;
use crate::grammar::{Parsed, SyntaxError, error_here, expecting, expr_spec, moved, next_pos, pi_spec, signature_spec, span_at};
use crate::parser::{is_modifier_name, kind_at, lemma_newlines_end, newlines_end, node_at};
use crate::scanner::{Token, TokenKind, token_text};
use crate::term::{SpecConstructor, SpecTerm};
use crate::declarations::{is_visibility_name, non_constructor_decl, top_level_kind};

verus! {

/// The position of the first token of kind `stop` from `p` on, or of the
/// end.
pub open spec fn skip_until(ts: Seq<Spanned<Token>>, p: int, stop: TokenKind) -> int
    decreases ts.len() - p,
{
    let k = kind_at(ts, p);
    if k == stop || k == TokenKind::EOF || p < 0 {
        p
    } else {
        skip_until(ts, p + 1, stop)
    }
}

/// The position of the first `|` or line break from `p` on, or of the end.
pub open spec fn skip_to_bar_or_line(ts: Seq<Spanned<Token>>, p: int) -> int
    decreases ts.len() - p,
{
    let k = kind_at(ts, p);
    if k == TokenKind::Pipe || k == TokenKind::Newline || k == TokenKind::EOF || p < 0 {
        p
    } else {
        skip_to_bar_or_line(ts, p + 1)
    }
}

/// The position after a balanced group whose opening token came before
/// `p`, its closing token included, or the end.
pub open spec fn skip_group(ts: Seq<Spanned<Token>>, p: int, open: TokenKind, close: TokenKind, depth: int) -> int
    decreases ts.len() - p,
{
    let k = kind_at(ts, p);
    if k == TokenKind::EOF || depth <= 0 || p < 0 {
        p
    } else if k == open {
        skip_group(ts, p + 1, open, close, depth + 1)
    } else if k == close {
        skip_group(ts, p + 1, open, close, depth - 1)
    } else {
        skip_group(ts, p + 1, open, close, depth)
    }
}

/// The end of an indented block after its line breaks: the start of a line
/// that begins a top-level construct, a declaration keyword or modifier, or
/// the end.
pub open spec fn block_end(ts: Seq<Spanned<Token>>, p: int) -> int
    decreases ts.len() - p,
{
    let k = kind_at(ts, p);
    if k == TokenKind::EOF || p < 0 {
        p
    } else if k == TokenKind::Newline {
        let q = newlines_end(ts, p + 1);
        if top_level_kind(kind_at(ts, q)) || kind_at(ts, q) == TokenKind::EOF || q <= p {
            q
        } else {
            block_end(ts, q)
        }
    } else if non_constructor_decl(node_at(ts, p)) {
        p
    } else {
        block_end(ts, p + 1)
    }
}

/// The end of an indented block from `p` on.
pub open spec fn skip_indented(ts: Seq<Spanned<Token>>, p: int) -> int {
    block_end(ts, newlines_end(ts, p))
}

/// The names from `p` on up to `stop`, the end or the first token that is
/// not a name, which is passed.
pub open spec fn name_list(ts: Seq<Spanned<Token>>, p: int, stop: TokenKind, acc: Seq<Seq<char>>) -> (Seq<Seq<char>>, int)
    decreases ts.len() - p,
{
    let k = kind_at(ts, p);
    if k == stop || k == TokenKind::EOF || p < 0 {
        (acc, p)
    } else {
        match node_at(ts, p) {
            Token::Identifier(n) => name_list(ts, p + 1, stop, acc.push(n@)),
            _ => (acc, p + 1),
        }
    }
}

/// The texts of the tokens from `p` on up to `)` or the end, after `acc`.
pub open spec fn operator_text(ts: Seq<Spanned<Token>>, p: int, acc: Seq<char>) -> (Seq<char>, int)
    decreases ts.len() - p,
{
    let k = kind_at(ts, p);
    if k == TokenKind::RParen || k == TokenKind::EOF || p < 0 {
        (acc, p)
    } else {
        operator_text(ts, p + 1, acc + token_text(node_at(ts, p)@))
    }
}

/// The last name from `p` on before `where`, a line break or the end.
pub open spec fn target_name(ts: Seq<Spanned<Token>>, p: int, target: Seq<char>) -> (Seq<char>, int)
    decreases ts.len() - p,
{
    let k = kind_at(ts, p);
    if k == TokenKind::Where || k == TokenKind::Newline || k == TokenKind::EOF || p < 0 {
        (target, p)
    } else {
        let next = match node_at(ts, p) {
            Token::Identifier(n) => n@,
            _ => target,
        };
        target_name(ts, p + 1, next)
    }
}

/// The target of an implementation head from `p` on, and the position
/// after its body.
pub open spec fn impl_target(ts: Seq<Spanned<Token>>, p: int) -> (Seq<char>, int) {
    let (t, q) = target_name(ts, p, Seq::empty());
    (t, if kind_at(ts, q) == TokenKind::Where { skip_indented(ts, q + 1) } else { q })
}

/// The position after a constructor's type in the indexed form: up to a
/// line that starts a top-level construct, or the end.
pub open spec fn skip_signature(ts: Seq<Spanned<Token>>, p: int) -> int
    decreases ts.len() - p,
{
    let k = kind_at(ts, p);
    if k == TokenKind::EOF || p < 0 {
        p
    } else if k == TokenKind::Newline && top_level_kind(kind_at(ts, p + 1)) {
        p + 1
    } else {
        skip_signature(ts, p + 1)
    }
}

/// A constructor without fields.
pub open spec fn constructor(name: Seq<char>) -> SpecConstructor {
    SpecConstructor { name, fields: Seq::empty() }
}

/// The constructors of the indexed form from `p` on, after `acc`: each a
/// name or a parenthesized operator, with its type passed over.
pub open spec fn indexed_constructors(ts: Seq<Spanned<Token>>, p: int, acc: Seq<SpecConstructor>) -> (Seq<SpecConstructor>, int)
    decreases ts.len() - p,
{
    if kind_at(ts, p) == TokenKind::EOF || non_constructor_decl(node_at(ts, p)) || p < 0 {
        (acc, p)
    } else {
        let i = newlines_end(ts, p);
        if kind_at(ts, i) == TokenKind::EOF || non_constructor_decl(node_at(ts, i)) || i < p {
            (acc, i)
        } else {
            let named: Option<(Seq<char>, int)> = if kind_at(ts, i) == TokenKind::LParen {
                let (nm, j) = operator_text(ts, i + 1, Seq::empty());
                Some((nm, if kind_at(ts, j) == TokenKind::RParen { j + 1 } else { j }))
            } else {
                match node_at(ts, i) {
                    Token::Identifier(n) => Some((n@, i + 1)),
                    _ => None,
                }
            };
            match named {
                None => (acc, i + 1),
                Some((name, j)) => {
                    let j2 = if kind_at(ts, j) == TokenKind::Colon { skip_signature(ts, j + 1) } else { j };
                    let k = newlines_end(ts, j2);
                    if !moved(ts, p, k) {
                        (acc.push(constructor(name)), k)
                    } else {
                        indexed_constructors(ts, k, acc.push(constructor(name)))
                    }
                },
            }
        }
    }
}

/// The constructors of the simple form from `p` on, after `acc`: names
/// separated by `|`, their fields passed over.
pub open spec fn simple_constructors(ts: Seq<Spanned<Token>>, p: int, acc: Seq<SpecConstructor>) -> (Seq<SpecConstructor>, int)
    decreases ts.len() - p,
{
    if kind_at(ts, p) == TokenKind::EOF || p < 0 {
        (acc, p)
    } else {
        let i = newlines_end(ts, p);
        match node_at(ts, i) {
            Token::Identifier(n) => {
                let j = skip_to_bar_or_line(ts, i + 1);
                let k = newlines_end(ts, j);
                let next = acc.push(constructor(n@));
                if kind_at(ts, k) == TokenKind::Pipe && p <= k {
                    simple_constructors(ts, k + 1, next)
                } else {
                    (next, k)
                }
            },
            _ => (acc, next_pos(ts, i)),
        }
    }
}

/// `module Name` at `p`.
pub open spec fn module_spec(ts: Seq<Spanned<Token>>, p: int) -> Parsed {
    match node_at(ts, p + 1) {
        Token::Identifier(n) => Ok((SpecTerm::Module(n@), p + 2)),
        _ => Err(
            (
                SyntaxError {
                    span: span_at(ts, p + 1),
                    token: node_at(ts, p + 1),
                    expected: Some("Module Name"@),
                    message: "Expected module name"@,
                },
                next_pos(ts, p + 1),
            ),
        ),
    }
}

/// `import Name` at `p`.
pub open spec fn import_spec(ts: Seq<Spanned<Token>>, p: int) -> Parsed {
    match node_at(ts, p + 1) {
        Token::Identifier(n) => Ok((SpecTerm::Import(n@), p + 2)),
        _ => Err(
            (
                SyntaxError {
                    span: span_at(ts, p + 1),
                    token: node_at(ts, p + 1),
                    expected: Some("Import Name"@),
                    message: "Expected import name"@,
                },
                next_pos(ts, p + 1),
            ),
        ),
    }
}

/// A data type at `p`: the simple form `data Name params = C | C`, or the
/// indexed form `data Name : kind where` with a constructor per line.
pub open spec fn data_spec(ts: Seq<Spanned<Token>>, p: int) -> Parsed {
    match node_at(ts, p + 1) {
        Token::Identifier(n) => {
            let q = newlines_end(ts, p + 2);
            if kind_at(ts, q) == TokenKind::Colon {
                let r = skip_until(ts, q + 1, TokenKind::Where);
                let r1 = if kind_at(ts, r) == TokenKind::Where { r + 1 } else { r };
                let (cs, e) = indexed_constructors(ts, newlines_end(ts, r1), Seq::empty());
                Ok((SpecTerm::Data(n@, Seq::empty(), cs), e))
            } else {
                let (ps, r) = name_list(ts, q, TokenKind::Assign, Seq::empty());
                if kind_at(ts, r) != TokenKind::Assign {
                    Err((expecting(ts, r, Token::Assign, "Expected = in data definition"@), r))
                } else {
                    let (cs, e) = simple_constructors(ts, r + 1, Seq::empty());
                    Ok((SpecTerm::Data(n@, ps, cs), e))
                }
            }
        },
        _ => Err((error_here(ts, p + 1, "Expected data type name"@), next_pos(ts, p + 1))),
    }
}

/// `interface Name params where` at `p`, its body passed over.
pub open spec fn interface_spec(ts: Seq<Spanned<Token>>, p: int) -> Parsed {
    match node_at(ts, p + 1) {
        Token::Identifier(n) => {
            let (ps, r) = name_list(ts, p + 2, TokenKind::Where, Seq::empty());
            let r1 = if kind_at(ts, r) == TokenKind::Where { r + 1 } else { r };
            Ok((SpecTerm::Interface(n@, ps, Seq::empty()), skip_indented(ts, r1)))
        },
        _ => Err((error_here(ts, p + 1, "Expected interface name"@), next_pos(ts, p + 1))),
    }
}

/// `implementation Interface Target where` at `p`, its body passed over.
pub open spec fn implementation_spec(ts: Seq<Spanned<Token>>, p: int) -> Parsed {
    match node_at(ts, p + 1) {
        Token::Identifier(n) => {
            let (t, e) = impl_target(ts, p + 2);
            Ok((SpecTerm::Implementation(n@, t, Seq::empty()), e))
        },
        _ => Err((error_here(ts, p + 1, "Expected interface name"@), next_pos(ts, p + 1))),
    }
}

/// A named implementation `[name] Interface Target where` at `p`, its body
/// passed over.
pub open spec fn named_impl_spec(ts: Seq<Spanned<Token>>, p: int) -> Parsed {
    let a = next_pos(ts, p + 1);
    if kind_at(ts, a) != TokenKind::RBracket {
        Err((expecting(ts, a, Token::RBracket, "Expected ] after named implementation"@), a))
    } else {
        let b = newlines_end(ts, a + 1);
        let iface = match node_at(ts, b) {
            Token::Identifier(n) => n@,
            _ => "_iface"@,
        };
        let (t, e) = impl_target(ts, next_pos(ts, b));
        Ok((SpecTerm::Implementation(iface, t, Seq::empty()), e))
    }
}

/// `record Name ... where` at `p`, its fields passed over.
pub open spec fn record_spec(ts: Seq<Spanned<Token>>, p: int) -> Parsed {
    match node_at(ts, p + 1) {
        Token::Identifier(n) => {
            let r = skip_until(ts, p + 2, TokenKind::Where);
            let r1 = if kind_at(ts, r) == TokenKind::Where { r + 1 } else { r };
            Ok((SpecTerm::Record(n@, Seq::empty()), skip_indented(ts, r1)))
        },
        _ => Err((error_here(ts, p + 1, "Expected record name"@), next_pos(ts, p + 1))),
    }
}

/// A signature as a declaration at `p`: its type.
pub open spec fn signature_decl_spec(ts: Seq<Spanned<Token>>, p: int) -> Parsed {
    match signature_spec(ts, p) {
        Ok((_, t, q)) => Ok((t, q)),
        Err(e) => Err(e),
    }
}

/// The type of a signature whose name came before `p`.
pub open spec fn signature_after_name_spec(ts: Seq<Spanned<Token>>, p: int) -> Parsed {
    if kind_at(ts, p) != TokenKind::Colon {
        Err((expecting(ts, p, Token::Colon, "Expected : in signature"@), p))
    } else {
        pi_spec(ts, p + 1)
    }
}

/// The arguments of a definition from `p` on, after `acc`: names and
/// literals as themselves, groups in parentheses or brackets and `@{..}` as
/// placeholders; they end at `=`, `where`, a guard `|` (passed up to its
/// `=`) or the end.
pub open spec fn def_args(ts: Seq<Spanned<Token>>, p: int, acc: Seq<Seq<char>>) -> (Seq<Seq<char>>, int)
    decreases ts.len() - p,
{
    let k = kind_at(ts, p);
    if k == TokenKind::Assign || k == TokenKind::EOF || k == TokenKind::Where || p < 0 {
        (acc, p)
    } else if k == TokenKind::Newline {
        def_args(ts, p + 1, acc)
    } else if k == TokenKind::Identifier || k == TokenKind::Integer || k == TokenKind::LParen || k
        == TokenKind::LBracket || k == TokenKind::Underscore {
        let (arg, q) = match node_at(ts, p) {
            Token::Identifier(a) => (a@, p + 1),
            Token::Integer(v) => (int_text(v as int), p + 1),
            Token::LParen => ("_pat"@, skip_group(ts, p + 1, TokenKind::LParen, TokenKind::RParen, 1)),
            Token::LBracket => ("_list_pat"@, skip_group(ts, p + 1, TokenKind::LBracket, TokenKind::RBracket, 1)),
            _ => ("_"@, p + 1),
        };
        if !moved(ts, p, q) {
            (acc.push(arg), q)
        } else {
            def_args(ts, q, acc.push(arg))
        }
    } else if k == TokenKind::At {
        let c = if kind_at(ts, p + 1) == TokenKind::LBrace {
            let d = skip_until(ts, p + 2, TokenKind::RBrace);
            if kind_at(ts, d) == TokenKind::RBrace { d + 1 } else { d }
        } else {
            p + 1
        };
        if !moved(ts, p, c) {
            (acc.push("_at"@), c)
        } else {
            def_args(ts, c, acc.push("_at"@))
        }
    } else if k == TokenKind::Pipe {
        (acc, skip_until(ts, p, TokenKind::Assign))
    } else {
        def_args(ts, p + 1, acc)
    }
}

/// One declaration after any line breaks at `p`.
#[verifier::opaque]
pub open spec fn declaration_spec(ts: Seq<Spanned<Token>>, p: int) -> Parsed
    decreases ts.len() - p, 3int,
{
    let i = newlines_end(ts, p);
    let k = kind_at(ts, i);
    if i < p || p < 0 {
        Err((error_here(ts, i, Seq::empty()), i))
    } else if k == TokenKind::Module {
        module_spec(ts, i)
    } else if k == TokenKind::Import {
        import_spec(ts, i)
    } else if k == TokenKind::Data {
        data_spec(ts, i)
    } else if k == TokenKind::Interface {
        interface_spec(ts, i)
    } else if k == TokenKind::Implementation {
        implementation_spec(ts, i)
    } else if k == TokenKind::Record {
        record_spec(ts, i)
    } else if k == TokenKind::Mutual {
        Ok((SpecTerm::Mutual(Seq::empty()), i + 1))
    } else if k == TokenKind::LBracket {
        named_impl_spec(ts, i)
    } else if k == TokenKind::Identifier {
        let n = node_at(ts, i)->Identifier_0@;
        let j = newlines_end(ts, i + 1);
        if is_visibility_name(n) {
            modifier_spec(ts, i)
        } else if n == "parameters"@ {
            parameters_spec(ts, i)
        } else if j < ts.len() && kind_at(ts, j) == TokenKind::Colon {
            signature_decl_spec(ts, i)
        } else {
            definition_spec(ts, i)
        }
    } else if k == TokenKind::Integer {
        definition_spec(ts, i)
    } else {
        let a = next_pos(ts, i);
        if k == TokenKind::LParen {
            let c = newlines_end(ts, crate::grammar::skip_parens(ts, a, 1));
            if kind_at(ts, c) == TokenKind::Colon {
                signature_after_name_spec(ts, c)
            } else if kind_at(ts, c) != TokenKind::EOF && p < c {
                declaration_spec(ts, c)
            } else {
                Err(
                    (
                        SyntaxError {
                            span: span_at(ts, i),
                            token: node_at(ts, i),
                            expected: Some("Declaration"@),
                            message: "Expected top-level declaration"@,
                        },
                        c,
                    ),
                )
            }
        } else {
            let e = newlines_end(ts, skip_until(ts, a, TokenKind::Newline));
            if kind_at(ts, e) != TokenKind::EOF && p < e {
                declaration_spec(ts, e)
            } else {
                Ok((SpecTerm::Module("_skipped"@), e))
            }
        }
    }
}

/// A declaration after its modifier at `i`, and a second modifier after it.
#[verifier::opaque]
pub open spec fn modifier_spec(ts: Seq<Spanned<Token>>, i: int) -> Parsed
    decreases ts.len() - i, 2int,
{
    let a = newlines_end(ts, i + 1);
    let b = match node_at(ts, a) {
        Token::Identifier(n) => if n@ == "export"@ || n@ == "total"@ || n@ == "partial"@ || n@ == "covering"@ {
            newlines_end(ts, a + 1)
        } else {
            a
        },
        _ => a,
    };
    if kind_at(ts, b) != TokenKind::EOF && i < b && 0 <= i {
        declaration_spec(ts, b)
    } else {
        Ok((SpecTerm::Module("_modifier_eof"@), b))
    }
}

/// A `parameters` block at `i`: its parameter list passed over, and the
/// first declaration after it standing for the block.
#[verifier::opaque]
pub open spec fn parameters_spec(ts: Seq<Spanned<Token>>, i: int) -> Parsed
    decreases ts.len() - i, 2int,
{
    let b = if kind_at(ts, i + 1) == TokenKind::LParen {
        crate::grammar::skip_parens(ts, i + 2, 1)
    } else {
        i + 1
    };
    let c = newlines_end(ts, b);
    if !moved(ts, i, c) || i < 0 {
        Ok((SpecTerm::Module("_params_block"@), c))
    } else {
        let (ds, e) = block_declarations(ts, c, Seq::empty());
        if ds.len() > 0 {
            Ok((ds[0], e))
        } else {
            Ok((SpecTerm::Module("_params_block"@), e))
        }
    }
}

/// The declarations of a block from `p` on, after `acc`, up to the end or
/// the first one that fails, whose failure position it ends at.
#[verifier::opaque]
pub open spec fn block_declarations(ts: Seq<Spanned<Token>>, p: int, acc: Seq<SpecTerm>) -> (Seq<SpecTerm>, int)
    decreases ts.len() - p, 4int,
{
    if kind_at(ts, p) == TokenKind::EOF || p < 0 {
        (acc, p)
    } else {
        let q = newlines_end(ts, p);
        if kind_at(ts, q) == TokenKind::EOF || q < p {
            (acc, q)
        } else {
            match declaration_spec(ts, q) {
                Ok((d, r)) => if moved(ts, p, r) {
                    block_declarations(ts, r, acc.push(d))
                } else {
                    (acc.push(d), r)
                },
                Err((_, r)) => (acc, r),
            }
        }
    }
}

/// A definition at `i`: its name, its arguments, and `= body` with local
/// declarations after `where` indented past the name; `where` right after
/// the arguments, or no `=`, gives a placeholder body.
#[verifier::opaque]
pub open spec fn definition_spec(ts: Seq<Spanned<Token>>, i: int) -> Parsed
    decreases ts.len() - i, 2int,
{
    let a = next_pos(ts, i);
    let col = span_at(ts, i).col;
    let named: Option<(Seq<char>, int)> = match node_at(ts, i) {
        Token::Identifier(n) => Some((n@, a)),
        Token::Integer(v) => Some((int_text(v as int), a)),
        Token::LParen => {
            let (nm, b) = operator_text(ts, a, "("@);
            Some((nm + ")"@, if kind_at(ts, b) == TokenKind::RParen { b + 1 } else { b }))
        },
        _ => None,
    };
    match named {
        None => Ok((SpecTerm::Module("_skip_def"@), skip_until(ts, a, TokenKind::Newline))),
        Some((name, b)) => {
            let (args, q) = def_args(ts, b, Seq::empty());
            if kind_at(ts, q) == TokenKind::Where {
                Ok((SpecTerm::Def(name, args, Box::new(SpecTerm::Var("_where"@))), skip_indented(ts, q + 1)))
            } else if kind_at(ts, q) == TokenKind::Assign && i < q {
                match expr_spec(ts, q + 1) {
                    Err(e) => Err(e),
                    Ok((body, r)) => {
                        let r1 = newlines_end(ts, r);
                        let c = newlines_end(ts, r1 + 1);
                        if kind_at(ts, r1) == TokenKind::Where && moved(ts, i, c) {
                            let (ds, e) = where_declarations(ts, c, col, Seq::empty());
                            let full = if ds.len() > 0 {
                                SpecTerm::Where(Box::new(body), ds)
                            } else {
                                body
                            };
                            Ok((SpecTerm::Def(name, args, Box::new(full)), e))
                        } else {
                            Ok((SpecTerm::Def(name, args, Box::new(body)), r1))
                        }
                    },
                }
            } else {
                Ok((SpecTerm::Def(name, args, Box::new(SpecTerm::Var("_no_eq"@))), skip_until(ts, q, TokenKind::Newline)))
            }
        },
    }
}

/// The local declarations of a `where` clause from `p` on, after `acc`:
/// those whose first token lies in a column past `col`, up to the end, a
/// `)`, or the first one that fails, whose failure position it ends at.
#[verifier::opaque]
pub open spec fn where_declarations(ts: Seq<Spanned<Token>>, p: int, col: usize, acc: Seq<SpecTerm>) -> (Seq<SpecTerm>, int)
    decreases ts.len() - p, 4int,
{
    let k = kind_at(ts, p);
    if k == TokenKind::EOF || k == TokenKind::RParen || p < 0 {
        (acc, p)
    } else if k == TokenKind::Newline {
        let q = newlines_end(ts, p);
        if !moved(ts, p, q) {
            (acc, q)
        } else {
            where_declarations(ts, q, col, acc)
        }
    } else if span_at(ts, p).col <= col {
        (acc, p)
    } else {
        match declaration_spec(ts, p) {
            Ok((d, r)) => {
                let r1 = newlines_end(ts, r);
                if moved(ts, p, r1) {
                    where_declarations(ts, r1, col, acc.push(d))
                } else {
                    (acc.push(d), r1)
                }
            },
            Err((_, r)) => (acc, r),
        }
    }
}

/// The names that have a signature after checking the declaration that
/// starts at `p`: a signature adds its name; a definition whose name has
/// none yet is an error at the token after the name.
pub open spec fn check_signature(ts: Seq<Spanned<Token>>, p: int, sigs: Seq<Seq<char>>) -> Result<Seq<Seq<char>>, SyntaxError> {
    let i = newlines_end(ts, p);
    match node_at(ts, i) {
        Token::Identifier(n) => if is_modifier_name(n@) {
            Ok(sigs)
        } else {
            let j = newlines_end(ts, i + 1);
            if j < ts.len() && kind_at(ts, j) == TokenKind::Colon {
                Ok(sigs.push(n@))
            } else if !sigs.contains(n@) {
                Err(
                    SyntaxError {
                        span: span_at(ts, i + 1),
                        token: node_at(ts, i + 1),
                        expected: Some(token_text(Token::Colon@)),
                        message: "Expected : after name in signature"@,
                    },
                )
            } else {
                Ok(sigs)
            }
        },
        _ => Ok(sigs),
    }
}

/// The declarations of a program from `p` on, after `acc`, with `sigs` the
/// names that have a signature so far.
pub open spec fn program_spec(ts: Seq<Spanned<Token>>, p: int, sigs: Seq<Seq<char>>, acc: Seq<SpecTerm>) -> Result<(Seq<SpecTerm>, int), (SyntaxError, int)>
    decreases ts.len() - p,
{
    if kind_at(ts, p) == TokenKind::EOF || p < 0 {
        Ok((acc, p))
    } else {
        match check_signature(ts, p, sigs) {
            Err(e) => Err((e, p)),
            Ok(sigs2) => match declaration_spec(ts, p) {
                Err(e) => Err(e),
                Ok((d, q)) => if moved(ts, p, q) {
                    program_spec(ts, q, sigs2, acc.push(d))
                } else {
                    Ok((acc.push(d), q))
                },
            },
        }
    }
}

/// Where the declaration after a modifier at `i` starts: past the modifier,
/// a second modifier (`export`, `total`, `partial` or `covering`) and the
/// line breaks around them.
pub open spec fn after_modifiers(ts: Seq<Spanned<Token>>, i: int) -> int {
    let a = newlines_end(ts, i + 1);
    match node_at(ts, a) {
        Token::Identifier(n) => if n@ == "export"@ || n@ == "total"@ || n@ == "partial"@ || n@ == "covering"@ {
            newlines_end(ts, a + 1)
        } else {
            a
        },
        _ => a,
    }
}

/// A visibility or totality modifier does not change a declaration: a
/// declaration that starts with modifiers parses as the declaration after
/// them, with the same term, the same end and the same error.
pub proof fn law_modifier_keeps_declaration(ts: Seq<Spanned<Token>>, i: int)
    requires
        0 <= i < ts.len(),
        node_at(ts, i) is Identifier,
        is_visibility_name(node_at(ts, i)->Identifier_0@),
        kind_at(ts, after_modifiers(ts, i)) != TokenKind::EOF,
    ensures
        declaration_spec(ts, i) == declaration_spec(ts, after_modifiers(ts, i)),
{
    unfold_declaration_spec(ts, i);
    unfold_modifier_spec(ts, i);
    lemma_newlines_end(ts, i + 1);
    let a = newlines_end(ts, i + 1);
    lemma_newlines_end(ts, a + 1);
    assert(newlines_end(ts, i) == i);
}

} // verus!

verus! {

/// One step of `declaration_spec`.
pub proof fn unfold_declaration_spec(ts: Seq<Spanned<Token>>, p: int)
    ensures
        declaration_spec(ts, p) == ({
            let i = newlines_end(ts, p);
            let k = kind_at(ts, i);
            if i < p || p < 0 {
                Err((error_here(ts, i, Seq::empty()), i))
            } else if k == TokenKind::Module {
                module_spec(ts, i)
            } else if k == TokenKind::Import {
                import_spec(ts, i)
            } else if k == TokenKind::Data {
                data_spec(ts, i)
            } else if k == TokenKind::Interface {
                interface_spec(ts, i)
            } else if k == TokenKind::Implementation {
                implementation_spec(ts, i)
            } else if k == TokenKind::Record {
                record_spec(ts, i)
            } else if k == TokenKind::Mutual {
                Ok((SpecTerm::Mutual(Seq::empty()), i + 1))
            } else if k == TokenKind::LBracket {
                named_impl_spec(ts, i)
            } else if k == TokenKind::Identifier {
                let n = node_at(ts, i)->Identifier_0@;
                let j = newlines_end(ts, i + 1);
                if is_visibility_name(n) {
                    modifier_spec(ts, i)
                } else if n == "parameters"@ {
                    parameters_spec(ts, i)
                } else if j < ts.len() && kind_at(ts, j) == TokenKind::Colon {
                    signature_decl_spec(ts, i)
                } else {
                    definition_spec(ts, i)
                }
            } else if k == TokenKind::Integer {
                definition_spec(ts, i)
            } else {
                let a = next_pos(ts, i);
                if k == TokenKind::LParen {
                    let c = newlines_end(ts, crate::grammar::skip_parens(ts, a, 1));
                    if kind_at(ts, c) == TokenKind::Colon {
                        signature_after_name_spec(ts, c)
                    } else if kind_at(ts, c) != TokenKind::EOF && p < c {
                        declaration_spec(ts, c)
                    } else {
                        Err(
                            (
                                SyntaxError {
                                    span: span_at(ts, i),
                                    token: node_at(ts, i),
                                    expected: Some("Declaration"@),
                                    message: "Expected top-level declaration"@,
                                },
                                c,
                            ),
                        )
                    }
                } else {
                    let e = newlines_end(ts, skip_until(ts, a, TokenKind::Newline));
                    if kind_at(ts, e) != TokenKind::EOF && p < e {
                        declaration_spec(ts, e)
                    } else {
                        Ok((SpecTerm::Module("_skipped"@), e))
                    }
                }
            }
        }),
{
    reveal(declaration_spec);
    reveal(modifier_spec);
    reveal(parameters_spec);
    reveal(definition_spec);
}

/// One step of `modifier_spec`.
pub proof fn unfold_modifier_spec(ts: Seq<Spanned<Token>>, i: int)
    ensures
        modifier_spec(ts, i) == ({
            let a = newlines_end(ts, i + 1);
            let b = match node_at(ts, a) {
                Token::Identifier(n) => if n@ == "export"@ || n@ == "total"@ || n@ == "partial"@ || n@ == "covering"@ {
                    newlines_end(ts, a + 1)
                } else {
                    a
                },
                _ => a,
            };
            if kind_at(ts, b) != TokenKind::EOF && i < b && 0 <= i {
                declaration_spec(ts, b)
            } else {
                Ok((SpecTerm::Module("_modifier_eof"@), b))
            }
        }),
{
    reveal(modifier_spec);
    reveal(declaration_spec);
}

/// One step of `parameters_spec`.
pub proof fn unfold_parameters_spec(ts: Seq<Spanned<Token>>, i: int)
    ensures
        parameters_spec(ts, i) == ({
            let b = if kind_at(ts, i + 1) == TokenKind::LParen {
                crate::grammar::skip_parens(ts, i + 2, 1)
            } else {
                i + 1
            };
            let c = newlines_end(ts, b);
            if !moved(ts, i, c) || i < 0 {
                Ok::<(SpecTerm, int), (SyntaxError, int)>((SpecTerm::Module("_params_block"@), c))
            } else {
                let (ds, e) = block_declarations(ts, c, Seq::empty());
                if ds.len() > 0 {
                    Ok((ds[0], e))
                } else {
                    Ok((SpecTerm::Module("_params_block"@), e))
                }
            }
        }),
{
    reveal(parameters_spec);
    reveal(block_declarations);
}

/// One step of `block_declarations`.
pub proof fn unfold_block_declarations(ts: Seq<Spanned<Token>>, p: int, acc: Seq<SpecTerm>)
    ensures
        block_declarations(ts, p, acc) == ({
            if kind_at(ts, p) == TokenKind::EOF || p < 0 {
                (acc, p)
            } else {
                let q = newlines_end(ts, p);
                if kind_at(ts, q) == TokenKind::EOF || q < p {
                    (acc, q)
                } else {
                    match declaration_spec(ts, q) {
                        Ok((d, r)) => if moved(ts, p, r) {
                            block_declarations(ts, r, acc.push(d))
                        } else {
                            (acc.push(d), r)
                        },
                        Err((_, r)) => (acc, r),
                    }
                }
            }
        }),
{
    reveal(block_declarations);
    reveal(declaration_spec);
}

/// One step of `definition_spec`.
pub proof fn unfold_definition_spec(ts: Seq<Spanned<Token>>, i: int)
    ensures
        definition_spec(ts, i) == ({
            let a = next_pos(ts, i);
            let col = span_at(ts, i).col;
            let named: Option<(Seq<char>, int)> = match node_at(ts, i) {
                Token::Identifier(n) => Some((n@, a)),
                Token::Integer(v) => Some((int_text(v as int), a)),
                Token::LParen => {
                    let (nm, b) = operator_text(ts, a, "("@);
                    Some((nm + ")"@, if kind_at(ts, b) == TokenKind::RParen { b + 1 } else { b }))
                },
                _ => None,
            };
            match named {
                None => Ok((SpecTerm::Module("_skip_def"@), skip_until(ts, a, TokenKind::Newline))),
                Some((name, b)) => {
                    let (args, q) = def_args(ts, b, Seq::empty());
                    if kind_at(ts, q) == TokenKind::Where {
                        Ok((SpecTerm::Def(name, args, Box::new(SpecTerm::Var("_where"@))), skip_indented(ts, q + 1)))
                    } else if kind_at(ts, q) == TokenKind::Assign && i < q {
                        match expr_spec(ts, q + 1) {
                            Err(e) => Err(e),
                            Ok((body, r)) => {
                                let r1 = newlines_end(ts, r);
                                let c = newlines_end(ts, r1 + 1);
                                if kind_at(ts, r1) == TokenKind::Where && moved(ts, i, c) {
                                    let (ds, e) = where_declarations(ts, c, col, Seq::empty());
                                    let full = if ds.len() > 0 {
                                        SpecTerm::Where(Box::new(body), ds)
                                    } else {
                                        body
                                    };
                                    Ok((SpecTerm::Def(name, args, Box::new(full)), e))
                                } else {
                                    Ok((SpecTerm::Def(name, args, Box::new(body)), r1))
                                }
                            },
                        }
                    } else {
                        Ok((SpecTerm::Def(name, args, Box::new(SpecTerm::Var("_no_eq"@))), skip_until(ts, q, TokenKind::Newline)))
                    }
                },
            }
        }),
{
    reveal(definition_spec);
    reveal(where_declarations);
}

/// One step of `where_declarations`.
pub proof fn unfold_where_declarations(ts: Seq<Spanned<Token>>, p: int, col: usize, acc: Seq<SpecTerm>)
    ensures
        where_declarations(ts, p, col, acc) == ({
            let k = kind_at(ts, p);
            if k == TokenKind::EOF || k == TokenKind::RParen || p < 0 {
                (acc, p)
            } else if k == TokenKind::Newline {
                let q = newlines_end(ts, p);
                if !moved(ts, p, q) {
                    (acc, q)
                } else {
                    where_declarations(ts, q, col, acc)
                }
            } else if span_at(ts, p).col <= col {
                (acc, p)
            } else {
                match declaration_spec(ts, p) {
                    Ok((d, r)) => {
                        let r1 = newlines_end(ts, r);
                        if moved(ts, p, r1) {
                            where_declarations(ts, r1, col, acc.push(d))
                        } else {
                            (acc.push(d), r1)
                        }
                    },
                    Err((_, r)) => (acc, r),
                }
            }
        }),
{
    reveal(where_declarations);
    reveal(declaration_spec);
}

} // verus!

verus! {

/// The names from `p` on up to `=` or the end; other tokens are passed
/// over.
pub open spec fn plain_names(ts: Seq<Spanned<Token>>, p: int, acc: Seq<Seq<char>>) -> (Seq<Seq<char>>, int)
    decreases ts.len() - p,
{
    let k = kind_at(ts, p);
    if k == TokenKind::Assign || k == TokenKind::EOF || p < 0 {
        (acc, p)
    } else {
        let next = match node_at(ts, p) {
            Token::Identifier(a) => acc.push(a@),
            _ => acc,
        };
        plain_names(ts, p + 1, next)
    }
}

/// A definition `name args = body` at `p`: the body, the name, the
/// arguments and the position after the body.
pub open spec fn plain_def_spec(ts: Seq<Spanned<Token>>, p: int) -> Result<
    (SpecTerm, Seq<char>, Seq<Seq<char>>, int),
    (SyntaxError, int),
> {
    match node_at(ts, p) {
        Token::Identifier(n) => {
            let (args, q) = plain_names(ts, p + 1, Seq::empty());
            if kind_at(ts, q) != TokenKind::Assign {
                Err((expecting(ts, q, Token::Assign, "Expected = in definition"@), q))
            } else {
                match expr_spec(ts, q + 1) {
                    Err(e) => Err(e),
                    Ok((b, r)) => Ok((b, n@, args, r)),
                }
            }
        },
        _ => Err((error_here(ts, p, "Expected identifier in definition"@), next_pos(ts, p))),
    }
}

} // verus!
