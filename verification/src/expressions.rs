//! The expression grammar, from the lowest precedence to the highest:
//! conditionals, lets, cases, do blocks and lambdas; comparisons; `.|.`;
//! `xor`; `.&.`; shifts; `+ - ++`; `* /`; `complement`; application;
//! primary expressions.
use vstd::prelude::*;
use crate::chars::i64_to_text;
use crate::errors::{CompilerError, ParseError};
use crate::grammar::{
    agrees, app_spec, app_tail, arith_spec, arith_tail, arms_agree, arms_spec, bitand_spec, bitand_tail,
    bitor_spec, bitor_tail, bitxor_spec, bitxor_tail, case_spec, comparison_spec, comparison_tail, do_spec,
    expr_spec, if_spec, lambda_spec, let_spec, moves_agree, mult_spec, mult_tail, paren_spec, pat_args,
    primary_spec, shift_spec, shift_tail, skip_assign, skip_close, skip_parens, stmts_agree, stmts_spec,
    tuple_spec, unary_spec, unfold_app_spec, unfold_app_tail, unfold_arith_spec, unfold_arith_tail,
    unfold_bitand_spec, unfold_bitand_tail, unfold_bitor_spec, unfold_bitor_tail, unfold_bitxor_spec,
    unfold_bitxor_tail, unfold_comparison_spec, unfold_comparison_tail, unfold_mult_spec, unfold_mult_tail,
    unfold_shift_spec, unfold_shift_tail,
};
use crate::parser::{Parser, advanced, lemma_newlines_end, newlines_end, node_at};
use crate::scanner::{Token, TokenKind, token_text_of};
use crate::term::{
    SpecBranch, SpecTerm, Term, branches_view, lemma_branches_view_len, lemma_branches_view_step, names_view,
    terms_view,
};
use crate::text::str_eq;

verus! {

/// A parse error at a token, expecting nothing in particular.
pub(crate) fn error_at(token: crate::errors::Spanned<Token>, message: &str) -> (r: CompilerError)
    ensures
        r is Parse,
        r->Parse_0.token == token.node,
        r->Parse_0.span == token.span,
        r->Parse_0.message@ == message@,
        r->Parse_0.expected is None,
{
    CompilerError::Parse(ParseError {
        span: token.span,
        token: token.node,
        expected: None,
        message: message.to_owned(),
    })
}

/// A parse error at a token, naming what was expected.
pub(crate) fn error_at_expecting(token: crate::errors::Spanned<Token>, expected: &str, message: &str) -> (r: CompilerError)
    ensures
        r is Parse,
        r->Parse_0.message@ == message@,
        r->Parse_0.token == token.node,
        r->Parse_0.span == token.span,
        r->Parse_0.expected is Some,
        r->Parse_0.expected->Some_0@ == expected@,
{
    CompilerError::Parse(ParseError {
        span: token.span,
        token: token.node,
        expected: Some(expected.to_owned()),
        message: message.to_owned(),
    })
}

/// A variable term with the given name.
pub(crate) fn var(name: &str) -> (r: Term)
    ensures
        r@ == crate::term::SpecTerm::Var(name@),
{
    Term::Var(name.to_owned())
}

impl Parser {
    /// Parses an expression: a conditional, a let, a case, a do block, a
    /// lambda, or an operator expression.
    pub fn parse_expr(&mut self) -> (r: Result<Term, CompilerError>)
        requires
            old(self).wf(),
        ensures
            advanced(*old(self), *final(self)),
            r is Ok ==> old(self).pos() < final(self).pos(),
            agrees(r, final(self).pos(), expr_spec(old(self).tokens(), old(self).pos())),
        decreases old(self).remaining(), 16int,
    {
        reveal(expr_spec);
        reveal(if_spec);
        reveal(let_spec);
        reveal(case_spec);
        reveal(do_spec);
        reveal(lambda_spec);
        reveal(comparison_spec);
        let k = self.peek_kind();
        if k == TokenKind::If {
            self.parse_if()
        } else if k == TokenKind::Let {
            self.parse_let()
        } else if k == TokenKind::Case {
            self.parse_case()
        } else if k == TokenKind::Do {
            self.parse_do()
        } else if k == TokenKind::Backslash {
            self.parse_lambda()
        } else {
            self.parse_comparison()
        }
    }

    /// `if c then a else b`, at its `if`.
    fn parse_if(&mut self) -> (r: Result<Term, CompilerError>)
        requires
            old(self).wf(),
            old(self).current() == Token::If,
        ensures
            advanced(*old(self), *final(self)),
            r is Ok ==> old(self).pos() < final(self).pos(),
            agrees(r, final(self).pos(), if_spec(old(self).tokens(), old(self).pos())),
        decreases old(self).remaining(), 15int,
    {
        reveal(if_spec);
        reveal(expr_spec);
        let ghost ts = self.tokens();
        self.advance();
        let cond = self.parse_expr()?;
        let ghost q = self.pos();
        proof {
            lemma_newlines_end(ts, q);
        }
        self.skip_newlines();
        self.consume(Token::Then, "Expected then")?;
        let then_br = self.parse_expr()?;
        let ghost q2 = self.pos();
        proof {
            lemma_newlines_end(ts, q2);
        }
        self.skip_newlines();
        self.consume(Token::Else, "Expected else")?;
        let else_br = self.parse_expr()?;
        Ok(Term::If(Box::new(cond), Box::new(then_br), Box::new(else_br)))
    }

    /// `let x = v in b`, at its `let`.
    fn parse_let(&mut self) -> (r: Result<Term, CompilerError>)
        requires
            old(self).wf(),
            old(self).current() == Token::Let,
        ensures
            advanced(*old(self), *final(self)),
            r is Ok ==> old(self).pos() < final(self).pos(),
            agrees(r, final(self).pos(), let_spec(old(self).tokens(), old(self).pos())),
        decreases old(self).remaining(), 15int,
    {
        reveal(let_spec);
        reveal(expr_spec);
        let ghost ts = self.tokens();
        self.advance();
        let name_token = self.advance();
        let name = match name_token.node {
            Token::Identifier(n) => n,
            _ => {
                return Err(error_at(name_token, "Expected identifier in let"));
            },
        };
        let ghost j2 = self.pos();
        if self.at(TokenKind::Colon) {
            self.advance();
            self.skip_until_assign();
        }
        self.consume(Token::Assign, "Expected = in let")?;
        let val = self.parse_expr()?;
        if self.at(TokenKind::In) {
            self.advance();
            let body = self.parse_expr()?;
            Ok(Term::Let(name, Box::new(val), Box::new(body)))
        } else {
            let copy = val.copy();
            Ok(Term::Let(name, Box::new(copy), Box::new(val)))
        }
    }

    /// `case t of` and its branches, at its `case`.
    fn parse_case(&mut self) -> (r: Result<Term, CompilerError>)
        requires
            old(self).wf(),
            old(self).current() == Token::Case,
        ensures
            advanced(*old(self), *final(self)),
            r is Ok ==> old(self).pos() < final(self).pos(),
            agrees(r, final(self).pos(), case_spec(old(self).tokens(), old(self).pos())),
        decreases old(self).remaining(), 15int,
    {
        reveal(case_spec);
        reveal(expr_spec);
        reveal(arms_spec);
        self.advance();
        let target = self.parse_expr()?;
        self.consume(Token::Of, "Expected of in case")?;
        let none: Vec<(String, Vec<String>, Box<Term>)> = Vec::new();
        proof {
            lemma_branches_view_len(none@);
            assert(branches_view(none@) =~= Seq::<SpecBranch>::empty());
        }
        let branches = self.parse_arms(none)?;
        Ok(Term::Case(Box::new(target), branches))
    }

    /// The branches of a case from the current token on, after those in
    /// `branches`.
    fn parse_arms(&mut self, branches: Vec<(String, Vec<String>, Box<Term>)>) -> (r: Result<
        Vec<(String, Vec<String>, Box<Term>)>,
        CompilerError,
    >)
        requires
            old(self).wf(),
        ensures
            advanced(*old(self), *final(self)),
            arms_agree(r, final(self).pos(), arms_spec(old(self).tokens(), old(self).pos(), branches_view(branches@))),
        decreases old(self).remaining(), 14int,
    {
        reveal(arms_spec);
        reveal(expr_spec);
        let ghost ts = self.tokens();
        let ghost p = self.pos();
        let ghost acc = branches_view(branches@);
        if self.at(TokenKind::EOF) {
            return Ok(branches);
        }
        proof {
            lemma_newlines_end(ts, p);
        }
        self.skip_newlines();
        if self.is_decl_start() || self.at(TokenKind::EOF) {
            return Ok(branches);
        }
        let pat_token = self.advance();
        let pat_name = match pat_token.node {
            Token::Identifier(n) => n,
            Token::Integer(v) => i64_to_text(v),
            Token::LParen => {
                self.skip_balanced_parens();
                "_paren_pat".to_owned()
            },
            _ => {
                return Ok(branches);
            },
        };
        let pat_args = self.pattern_args();
        if !self.at(TokenKind::FatArrow) {
            return Ok(branches);
        }
        self.consume(Token::FatArrow, "Expected =>")?;
        let body = self.parse_expr()?;
        let ghost q = self.pos();
        let ghost nb = SpecBranch { pattern: pat_name@, args: names_view(pat_args@), body: body@ };
        let mut branches = branches;
        let ghost old_branches = branches@;
        branches.push((pat_name, pat_args, Box::new(body)));
        proof {
            lemma_branches_view_step(branches@, old_branches.len() as int);
            assert(branches@.take(old_branches.len() as int) =~= old_branches);
            assert(branches@.take(branches@.len() as int) =~= branches@);
            assert(branches_view(branches@) == acc.push(nb));
            lemma_newlines_end(ts, q);
        }
        self.skip_newlines();
        if !self.at(TokenKind::Pipe) {
            return Ok(branches);
        }
        self.advance();
        self.parse_arms(branches)
    }

    /// The argument names of a case pattern, up to `=>` or the end.
    fn pattern_args(&mut self) -> (r: Vec<String>)
        requires
            old(self).wf(),
        ensures
            advanced(*old(self), *final(self)),
            (names_view(r@), final(self).pos()) == pat_args(old(self).tokens(), old(self).pos(), Seq::empty()),
    {
        let mut args: Vec<String> = Vec::new();
        proof {
            assert(names_view(args@) =~= Seq::<Seq<char>>::empty());
        }
        while !self.at(TokenKind::FatArrow) && !self.at(TokenKind::EOF)
            invariant
                self.wf(),
                advanced(*old(self), *self),
                pat_args(old(self).tokens(), old(self).pos(), Seq::empty()) == pat_args(self.tokens(), self.pos(),
                    names_view(args@)),
            decreases self.remaining(),
        {
            if self.at(TokenKind::Newline) {
                self.advance();
            } else {
                let ghost before = args@;
                let arg_token = self.advance();
                match arg_token.node {
                    Token::Identifier(a) => {
                        args.push(a);
                        proof {
                            assert(names_view(args@) =~= names_view(before).push(args@.last()@));
                        }
                    },
                    Token::DoubleStar => {
                        args.push("**".to_owned());
                        proof {
                            assert(names_view(args@) =~= names_view(before).push(args@.last()@));
                        }
                    },
                    _ => {},
                }
            }
        }
        args
    }

    /// `do` and its statements, at its `do`.
    fn parse_do(&mut self) -> (r: Result<Term, CompilerError>)
        requires
            old(self).wf(),
            old(self).current() == Token::Do,
        ensures
            advanced(*old(self), *final(self)),
            r is Ok ==> old(self).pos() < final(self).pos(),
            agrees(r, final(self).pos(), do_spec(old(self).tokens(), old(self).pos())),
        decreases old(self).remaining(), 15int,
    {
        reveal(do_spec);
        reveal(stmts_spec);
        let ghost ts = self.tokens();
        self.advance();
        proof {
            lemma_newlines_end(ts, old(self).pos() + 1);
        }
        self.skip_newlines();
        let none: Vec<Term> = Vec::new();
        proof {
            assert(terms_view(none@) =~= Seq::<SpecTerm>::empty());
        }
        let stmts = self.parse_stmts(none)?;
        Ok(Term::Do(stmts))
    }

    /// The statements of a do block from the current token on, after those
    /// in `stmts`.
    fn parse_stmts(&mut self, stmts: Vec<Term>) -> (r: Result<Vec<Term>, CompilerError>)
        requires
            old(self).wf(),
        ensures
            advanced(*old(self), *final(self)),
            stmts_agree(r, final(self).pos(), stmts_spec(old(self).tokens(), old(self).pos(), terms_view(stmts@))),
        decreases old(self).remaining(), 17int,
    {
        reveal(stmts_spec);
        reveal(expr_spec);
        let ghost ts = self.tokens();
        let ghost p = self.pos();
        if self.at(TokenKind::EOF) || self.is_decl_start() {
            return Ok(stmts);
        }
        let mut stmts = stmts;
        let ghost old_stmts = stmts@;
        if self.at(TokenKind::Identifier) && self.peek_kind_at(1) == Some(TokenKind::Bind) {
            let name_token = self.advance();
            self.advance();
            let action = self.parse_expr()?;
            let ghost q = self.pos();
            let ghost a = action@;
            match name_token.node {
                Token::Identifier(n) => {
                    assert(name_token.node == node_at(ts, p));
                    let ghost nn = n@;
                    stmts.push(Term::Bind(n, Box::new(action)));
                    proof {
                        assert(stmts@.last()@ == SpecTerm::Bind(nn, Box::new(a)));
                        assert(stmts@.drop_last() =~= old_stmts);
                    }
                },
                _ => {},
            }
            proof {
                lemma_newlines_end(ts, q);
            }
            self.skip_newlines();
            return self.parse_stmts(stmts);
        }
        if self.at(TokenKind::Let) {
            self.advance();
            let name_token = self.advance();
            let name = match name_token.node {
                Token::Identifier(n) => n,
                _ => {
                    proof {
                        lemma_newlines_end(ts, self.pos());
                    }
                    self.skip_newlines();
                    return self.parse_stmts(stmts);
                },
            };
            self.consume(Token::Assign, "Expected = in do-let")?;
            let val = self.parse_expr()?;
            let ghost q = self.pos();
            let ghost v = val@;
            let ghost nn = name@;
            let copy = val.copy();
            stmts.push(Term::Let(name, Box::new(copy), Box::new(val)));
            proof {
                assert(stmts@.last()@ == SpecTerm::Let(nn, Box::new(v), Box::new(v)));
                assert(stmts@.drop_last() =~= old_stmts);
                lemma_newlines_end(ts, q);
            }
            self.skip_newlines();
            return self.parse_stmts(stmts);
        }
        let stmt = self.parse_expr()?;
        let ghost q = self.pos();
        stmts.push(stmt);
        proof {
            assert(stmts@.drop_last() =~= old_stmts);
            lemma_newlines_end(ts, q);
        }
        self.skip_newlines();
        self.parse_stmts(stmts)
    }

    /// `\x => b`, at its backslash.
    fn parse_lambda(&mut self) -> (r: Result<Term, CompilerError>)
        requires
            old(self).wf(),
            old(self).current() == Token::Backslash,
        ensures
            advanced(*old(self), *final(self)),
            r is Ok ==> old(self).pos() < final(self).pos(),
            agrees(r, final(self).pos(), lambda_spec(old(self).tokens(), old(self).pos())),
        decreases old(self).remaining(), 15int,
    {
        reveal(lambda_spec);
        reveal(expr_spec);
        self.advance();
        let name_token = self.advance();
        let name = match name_token.node {
            Token::Identifier(n) => n,
            _ => "_".to_owned(),
        };
        self.consume(Token::FatArrow, "Expected => in lambda")?;
        let body = self.parse_expr()?;
        Ok(Term::Lambda(name, Box::new(var("_")), Box::new(body)))
    }

    /// Passes tokens up to an `=` outside any brackets, or to the end.
    fn skip_until_assign(&mut self)
        requires
            old(self).wf(),
        ensures
            advanced(*old(self), *final(self)),
            final(self).pos() == skip_assign(old(self).tokens(), old(self).pos(), 0, 0),
    {
        let mut opens: usize = 0;
        let mut closes: usize = 0;
        while !self.at(TokenKind::EOF)
            invariant
                self.wf(),
                advanced(*old(self), *self),
                opens + closes <= self.pos() - old(self).pos(),
                skip_assign(old(self).tokens(), old(self).pos(), 0, 0) == skip_assign(self.tokens(), self.pos(),
                    opens as int, closes as int),
            ensures
                skip_assign(old(self).tokens(), old(self).pos(), 0, 0) == self.pos(),
            decreases self.remaining(),
        {
            let k = self.peek_kind();
            if k == TokenKind::LParen || k == TokenKind::LBracket || k == TokenKind::LBrace {
                opens = opens + 1;
                self.advance();
            } else if k == TokenKind::RParen || k == TokenKind::RBracket || k == TokenKind::RBrace {
                closes = closes + 1;
                self.advance();
            } else if k == TokenKind::Assign && opens == closes {
                break;
            } else {
                self.advance();
            }
        }
    }

    /// Passes the rest of a parenthesized group whose `(` was just passed.
    pub(crate) fn skip_balanced_parens(&mut self)
        requires
            old(self).wf(),
        ensures
            advanced(*old(self), *final(self)),
            final(self).pos() == skip_parens(old(self).tokens(), old(self).pos(), 1),
    {
        let mut depth: usize = 1;
        while !self.at(TokenKind::EOF) && depth > 0
            invariant
                self.wf(),
                advanced(*old(self), *self),
                depth <= 1 + (self.pos() - old(self).pos()),
                skip_parens(old(self).tokens(), old(self).pos(), 1) == skip_parens(self.tokens(), self.pos(), depth as int),
            decreases self.remaining(),
        {
            let k = self.peek_kind();
            if k == TokenKind::LParen {
                depth = depth + 1;
                self.advance();
            } else if k == TokenKind::RParen {
                depth = depth - 1;
                self.advance();
            } else {
                self.advance();
            }
        }
    }

    /// Passes tokens up to the closing token that balances an opening one
    /// already passed, and stops before it.
    fn skip_to_closing(&mut self, open: TokenKind, close: TokenKind)
        requires
            old(self).wf(),
            open != close,
        ensures
            advanced(*old(self), *final(self)),
            final(self).pos() == skip_close(old(self).tokens(), old(self).pos(), open, close, 1),
    {
        let mut depth: usize = 1;
        while !self.at(TokenKind::EOF) && depth > 0
            invariant
                self.wf(),
                advanced(*old(self), *self),
                depth <= 1 + (self.pos() - old(self).pos()),
                skip_close(old(self).tokens(), old(self).pos(), open, close, 1) == skip_close(self.tokens(), self.pos(),
                    open, close, depth as int),
            decreases self.remaining(), depth,
        {
            let k = self.peek_kind();
            if k == open {
                depth = depth + 1;
                self.advance();
            } else if k == close {
                depth = depth - 1;
                if depth > 0 {
                    self.advance();
                }
            } else {
                self.advance();
            }
        }
    }

    /// Comparisons: `==`, `<`, `>`, left-associative.
    pub fn parse_comparison(&mut self) -> (r: Result<Term, CompilerError>)
        requires
            old(self).wf(),
        ensures
            advanced(*old(self), *final(self)),
            r is Ok ==> old(self).pos() < final(self).pos(),
            agrees(r, final(self).pos(), comparison_spec(old(self).tokens(), old(self).pos())),
        decreases old(self).remaining(), 10int,
    {
        proof {
            unfold_comparison_spec(self.tokens(), self.pos());
        }
        let lhs = self.parse_bitwise_or()?;
        self.parse_comparison_rest(lhs)
    }

    /// The rest of the chain after its left operand `lhs`.
    fn parse_comparison_rest(&mut self, lhs: Term) -> (r: Result<Term, CompilerError>)
        requires
            old(self).wf(),
        ensures
            advanced(*old(self), *final(self)),
            agrees(r, final(self).pos(), comparison_tail(old(self).tokens(), old(self).pos(), lhs@)),
        decreases old(self).remaining(), 10int,
    {
        proof {
            unfold_comparison_tail(self.tokens(), self.pos(), lhs@);
        }
        let k = self.peek_kind();
        if k == TokenKind::Eq || k == TokenKind::Lt || k == TokenKind::Gt {
            self.advance();
            let rhs = self.parse_bitwise_or()?;
            let t = if k == TokenKind::Eq {
                Term::Eq(Box::new(lhs), Box::new(rhs))
            } else if k == TokenKind::Lt {
                Term::Lt(Box::new(lhs), Box::new(rhs))
            } else {
                Term::Gt(Box::new(lhs), Box::new(rhs))
            };
            self.parse_comparison_rest(t)
        } else {
            Ok(lhs)
        }
    }

    /// `.|.`, left-associative.
    fn parse_bitwise_or(&mut self) -> (r: Result<Term, CompilerError>)
        requires
            old(self).wf(),
        ensures
            advanced(*old(self), *final(self)),
            r is Ok ==> old(self).pos() < final(self).pos(),
            agrees(r, final(self).pos(), bitor_spec(old(self).tokens(), old(self).pos())),
        decreases old(self).remaining(), 9int,
    {
        proof {
            unfold_bitor_spec(self.tokens(), self.pos());
        }
        let lhs = self.parse_bitwise_xor()?;
        self.parse_bitwise_or_rest(lhs)
    }

    /// The rest of the chain after its left operand `lhs`.
    fn parse_bitwise_or_rest(&mut self, lhs: Term) -> (r: Result<Term, CompilerError>)
        requires
            old(self).wf(),
        ensures
            advanced(*old(self), *final(self)),
            agrees(r, final(self).pos(), bitor_tail(old(self).tokens(), old(self).pos(), lhs@)),
        decreases old(self).remaining(), 9int,
    {
        proof {
            unfold_bitor_tail(self.tokens(), self.pos(), lhs@);
        }
        if self.at(TokenKind::BitOr) {
            self.advance();
            let rhs = self.parse_bitwise_xor()?;
            self.parse_bitwise_or_rest(Term::BitOr(Box::new(lhs), Box::new(rhs)))
        } else {
            Ok(lhs)
        }
    }

    /// `` `xor` ``, left-associative.
    fn parse_bitwise_xor(&mut self) -> (r: Result<Term, CompilerError>)
        requires
            old(self).wf(),
        ensures
            advanced(*old(self), *final(self)),
            r is Ok ==> old(self).pos() < final(self).pos(),
            agrees(r, final(self).pos(), bitxor_spec(old(self).tokens(), old(self).pos())),
        decreases old(self).remaining(), 8int,
    {
        proof {
            unfold_bitxor_spec(self.tokens(), self.pos());
        }
        let lhs = self.parse_bitwise_and()?;
        self.parse_bitwise_xor_rest(lhs)
    }

    /// The rest of the chain after its left operand `lhs`.
    fn parse_bitwise_xor_rest(&mut self, lhs: Term) -> (r: Result<Term, CompilerError>)
        requires
            old(self).wf(),
        ensures
            advanced(*old(self), *final(self)),
            agrees(r, final(self).pos(), bitxor_tail(old(self).tokens(), old(self).pos(), lhs@)),
        decreases old(self).remaining(), 8int,
    {
        proof {
            unfold_bitxor_tail(self.tokens(), self.pos(), lhs@);
        }
        if self.at(TokenKind::Backtick) && self.peek_kind_at(1) == Some(TokenKind::Xor) {
            self.advance();
            self.advance();
            self.consume(Token::Backtick, "Expected ` after xor")?;
            let rhs = self.parse_bitwise_and()?;
            self.parse_bitwise_xor_rest(Term::BitXor(Box::new(lhs), Box::new(rhs)))
        } else {
            Ok(lhs)
        }
    }

    /// `.&.`, left-associative.
    fn parse_bitwise_and(&mut self) -> (r: Result<Term, CompilerError>)
        requires
            old(self).wf(),
        ensures
            advanced(*old(self), *final(self)),
            r is Ok ==> old(self).pos() < final(self).pos(),
            agrees(r, final(self).pos(), bitand_spec(old(self).tokens(), old(self).pos())),
        decreases old(self).remaining(), 7int,
    {
        proof {
            unfold_bitand_spec(self.tokens(), self.pos());
        }
        let lhs = self.parse_shift()?;
        self.parse_bitwise_and_rest(lhs)
    }

    /// The rest of the chain after its left operand `lhs`.
    fn parse_bitwise_and_rest(&mut self, lhs: Term) -> (r: Result<Term, CompilerError>)
        requires
            old(self).wf(),
        ensures
            advanced(*old(self), *final(self)),
            agrees(r, final(self).pos(), bitand_tail(old(self).tokens(), old(self).pos(), lhs@)),
        decreases old(self).remaining(), 7int,
    {
        proof {
            unfold_bitand_tail(self.tokens(), self.pos(), lhs@);
        }
        if self.at(TokenKind::BitAnd) {
            self.advance();
            let rhs = self.parse_shift()?;
            self.parse_bitwise_and_rest(Term::BitAnd(Box::new(lhs), Box::new(rhs)))
        } else {
            Ok(lhs)
        }
    }

    /// `` `shiftL` `` and `` `shiftR` ``, left-associative.
    fn parse_shift(&mut self) -> (r: Result<Term, CompilerError>)
        requires
            old(self).wf(),
        ensures
            advanced(*old(self), *final(self)),
            r is Ok ==> old(self).pos() < final(self).pos(),
            agrees(r, final(self).pos(), shift_spec(old(self).tokens(), old(self).pos())),
        decreases old(self).remaining(), 6int,
    {
        proof {
            unfold_shift_spec(self.tokens(), self.pos());
        }
        let lhs = self.parse_arithmetic()?;
        self.parse_shift_rest(lhs)
    }

    /// The rest of the chain after its left operand `lhs`.
    fn parse_shift_rest(&mut self, lhs: Term) -> (r: Result<Term, CompilerError>)
        requires
            old(self).wf(),
        ensures
            advanced(*old(self), *final(self)),
            agrees(r, final(self).pos(), shift_tail(old(self).tokens(), old(self).pos(), lhs@)),
        decreases old(self).remaining(), 6int,
    {
        proof {
            unfold_shift_tail(self.tokens(), self.pos(), lhs@);
        }
        if self.at(TokenKind::Backtick) {
            let next = self.peek_kind_at(1);
            if next == Some(TokenKind::ShiftL) || next == Some(TokenKind::ShiftR) {
                self.advance();
                let t = self.advance();
                self.consume(Token::Backtick, "Expected `")?;
                let rhs = self.parse_arithmetic()?;
                let shifted = if t.node.kind() == TokenKind::ShiftL {
                    Term::Shl(Box::new(lhs), Box::new(rhs))
                } else {
                    Term::Shr(Box::new(lhs), Box::new(rhs))
                };
                return self.parse_shift_rest(shifted);
            }
        }
        Ok(lhs)
    }

    /// `+`, `-` and `++` (an addition), left-associative.
    fn parse_arithmetic(&mut self) -> (r: Result<Term, CompilerError>)
        requires
            old(self).wf(),
        ensures
            advanced(*old(self), *final(self)),
            r is Ok ==> old(self).pos() < final(self).pos(),
            agrees(r, final(self).pos(), arith_spec(old(self).tokens(), old(self).pos())),
        decreases old(self).remaining(), 5int,
    {
        proof {
            unfold_arith_spec(self.tokens(), self.pos());
        }
        let lhs = self.parse_multiplicative()?;
        self.parse_arithmetic_rest(lhs)
    }

    /// The rest of the chain after its left operand `lhs`.
    fn parse_arithmetic_rest(&mut self, lhs: Term) -> (r: Result<Term, CompilerError>)
        requires
            old(self).wf(),
        ensures
            advanced(*old(self), *final(self)),
            agrees(r, final(self).pos(), arith_tail(old(self).tokens(), old(self).pos(), lhs@)),
        decreases old(self).remaining(), 5int,
    {
        proof {
            unfold_arith_tail(self.tokens(), self.pos(), lhs@);
        }
        let k = self.peek_kind();
        if k == TokenKind::Plus || k == TokenKind::Minus || k == TokenKind::Append {
            self.advance();
            let rhs = self.parse_multiplicative()?;
            let t = if k == TokenKind::Minus {
                Term::Sub(Box::new(lhs), Box::new(rhs))
            } else {
                Term::Add(Box::new(lhs), Box::new(rhs))
            };
            self.parse_arithmetic_rest(t)
        } else {
            Ok(lhs)
        }
    }

    /// `*` and `/`, left-associative.
    fn parse_multiplicative(&mut self) -> (r: Result<Term, CompilerError>)
        requires
            old(self).wf(),
        ensures
            advanced(*old(self), *final(self)),
            r is Ok ==> old(self).pos() < final(self).pos(),
            agrees(r, final(self).pos(), mult_spec(old(self).tokens(), old(self).pos())),
        decreases old(self).remaining(), 4int,
    {
        proof {
            unfold_mult_spec(self.tokens(), self.pos());
        }
        let lhs = self.parse_unary()?;
        self.parse_multiplicative_rest(lhs)
    }

    /// The rest of the chain after its left operand `lhs`.
    fn parse_multiplicative_rest(&mut self, lhs: Term) -> (r: Result<Term, CompilerError>)
        requires
            old(self).wf(),
        ensures
            advanced(*old(self), *final(self)),
            agrees(r, final(self).pos(), mult_tail(old(self).tokens(), old(self).pos(), lhs@)),
        decreases old(self).remaining(), 4int,
    {
        proof {
            unfold_mult_tail(self.tokens(), self.pos(), lhs@);
        }
        let k = self.peek_kind();
        if k == TokenKind::Star || k == TokenKind::Slash {
            self.advance();
            let rhs = self.parse_unary()?;
            let t = if k == TokenKind::Star {
                Term::Mul(Box::new(lhs), Box::new(rhs))
            } else {
                Term::Div(Box::new(lhs), Box::new(rhs))
            };
            self.parse_multiplicative_rest(t)
        } else {
            Ok(lhs)
        }
    }

    /// `complement` as a prefix.
    fn parse_unary(&mut self) -> (r: Result<Term, CompilerError>)
        requires
            old(self).wf(),
        ensures
            advanced(*old(self), *final(self)),
            r is Ok ==> old(self).pos() < final(self).pos(),
            agrees(r, final(self).pos(), unary_spec(old(self).tokens(), old(self).pos())),
        decreases old(self).remaining(), 3int,
    {
        reveal(unary_spec);
        reveal(app_spec);
        if self.at(TokenKind::Complement) {
            self.advance();
            let body = self.parse_unary()?;
            return Ok(Term::BitNot(Box::new(body)));
        }
        self.parse_app()
    }

    /// Application of a function to arguments, left-associative: arguments
    /// are taken while the next token can start one, and an identifier
    /// that a `:`, `=` or `<-` follows starts something else.
    pub fn parse_app(&mut self) -> (r: Result<Term, CompilerError>)
        requires
            old(self).wf(),
        ensures
            advanced(*old(self), *final(self)),
            r is Ok ==> old(self).pos() < final(self).pos(),
            agrees(r, final(self).pos(), app_spec(old(self).tokens(), old(self).pos())),
        decreases old(self).remaining(), 2int,
    {
        proof {
            unfold_app_spec(self.tokens(), self.pos());
        }
        let lhs = self.parse_primary()?;
        self.parse_app_rest(lhs)
    }

    /// The rest of the chain after its left operand `lhs`.
    fn parse_app_rest(&mut self, lhs: Term) -> (r: Result<Term, CompilerError>)
        requires
            old(self).wf(),
        ensures
            advanced(*old(self), *final(self)),
            agrees(r, final(self).pos(), app_tail(old(self).tokens(), old(self).pos(), lhs@)),
        decreases old(self).remaining(), 2int,
    {
        proof {
            unfold_app_tail(self.tokens(), self.pos(), lhs@);
        }
        let k = self.peek_kind();
        if k == TokenKind::Identifier {
            let next = self.peek_kind_at(1);
            if next == Some(TokenKind::Colon) || next == Some(TokenKind::Assign) || next == Some(TokenKind::Bind) {
                return Ok(lhs);
            }
        } else if !(k == TokenKind::Integer || k == TokenKind::Float || k == TokenKind::String || k
            == TokenKind::Char || k == TokenKind::LParen || k == TokenKind::LBracket || k == TokenKind::LBrace
            || k == TokenKind::Complement || k == TokenKind::Question) {
            return Ok(lhs);
        }
        let arg = self.parse_primary()?;
        self.parse_app_rest(Term::App(Box::new(lhs), Box::new(arg)))
    }

    /// A primary expression: a literal, a name or a built-in, a
    /// parenthesized expression or operator, a list, a hole, a record
    /// update, a lambda, or `$` and an expression.
    pub fn parse_primary(&mut self) -> (r: Result<Term, CompilerError>)
        requires
            old(self).wf(),
        ensures
            advanced(*old(self), *final(self)),
            r is Ok ==> old(self).pos() < final(self).pos(),
            agrees(r, final(self).pos(), primary_spec(old(self).tokens(), old(self).pos())),
        decreases old(self).remaining(), 1int,
    {
        reveal(primary_spec);
        reveal(paren_spec);
        reveal(expr_spec);
        let ghost ts = self.tokens();
        proof {
            lemma_newlines_end(ts, old(self).pos());
        }
        self.skip_newlines();
        let token = self.advance();
        match token.node {
            Token::LParen => self.parse_paren(Ghost(old(self).pos())),
            Token::LBracket => {
                if self.at(TokenKind::RBracket) {
                    self.advance();
                    return Ok(var("Nil"));
                }
                let first = self.parse_expr()?;
                if self.at(TokenKind::RBracket) {
                    self.advance();
                    return Ok(first);
                }
                self.skip_to_closing(TokenKind::LBracket, TokenKind::RBracket);
                if self.at(TokenKind::RBracket) {
                    self.advance();
                }
                Ok(first)
            },
            Token::Question => {
                let name_token = self.advance();
                let mut name = "?".to_owned();
                match name_token.node {
                    Token::Identifier(n) => name.append(n.as_str()),
                    _ => name.append("hole"),
                }
                Ok(Term::Var(name))
            },
            Token::LBrace => {
                self.skip_to_closing(TokenKind::LBrace, TokenKind::RBrace);
                if self.at(TokenKind::RBrace) {
                    self.advance();
                }
                Ok(var("_record_update"))
            },
            Token::Backslash => {
                let name_token = self.advance();
                let name = match name_token.node {
                    Token::Identifier(n) => n,
                    _ => "_".to_owned(),
                };
                self.consume(Token::FatArrow, "Expected => in lambda")?;
                let body = self.parse_expr()?;
                Ok(Term::Lambda(name, Box::new(var("_")), Box::new(body)))
            },
            Token::Dollar => self.parse_expr(),
            Token::Integer(v) => Ok(Term::Integer(v)),
            Token::Float(t) => Ok(Term::Float(t)),
            Token::String(v) => Ok(Term::String(v)),
            Token::Char(c) => Ok(Term::Char(c)),
            Token::Identifier(n) => self.parse_name(n, Ghost(old(self).pos())),
            Token::Pipe | Token::Colon | Token::At | Token::Hash | Token::Underscore | Token::Assign => {
                Ok(var("_"))
            },
            _ => Err(error_at(token, "Unexpected token in parse_primary")),
        }
    }

    /// A primary expression that is a name, the name just passed: a
    /// built-in, a variable, or a buffer primitive with its operands.
    fn parse_name(&mut self, n: String, Ghost(p): Ghost<int>) -> (r: Result<Term, CompilerError>)
        requires
            old(self).wf(),
            0 <= p,
            p <= newlines_end(old(self).tokens(), p),
            newlines_end(old(self).tokens(), p) + 1 == old(self).pos(),
            node_at(old(self).tokens(), old(self).pos() - 1) == Token::Identifier(n),
        ensures
            advanced(*old(self), *final(self)),
            r is Ok ==> old(self).pos() <= final(self).pos(),
            agrees(r, final(self).pos(), primary_spec(old(self).tokens(), p)),
        decreases old(self).remaining() + 1, 0int,
    {
        reveal(primary_spec);
        let w = n.as_str();
        let term = if str_eq(w, "i32") {
            Term::I32Type
        } else if str_eq(w, "i8") {
            Term::I8Type
        } else if str_eq(w, "Integer") || str_eq(w, "Int") {
            Term::IntegerType
        } else if str_eq(w, "True") {
            Term::Integer(1)
        } else if str_eq(w, "False") {
            Term::Integer(0)
        } else if str_eq(w, "Bits64") {
            Term::Bits64Type
        } else if str_eq(w, "IO") {
            Term::IOType
        } else if str_eq(w, "String") {
            Term::StringType
        } else if str_eq(w, "Char") {
            Term::CharType
        } else if str_eq(w, "Float") {
            Term::FloatType
        } else if str_eq(w, "Type") {
            Term::TypeType
        } else if str_eq(w, "buffer") {
            let size_token = self.advance();
            let size: usize = match size_token.node {
                Token::Integer(s) => s as usize,
                _ => 0,
            };
            Term::Buffer(size)
        } else if str_eq(w, "getBits64") {
            let buffer = self.parse_primary()?;
            let index = self.parse_primary()?;
            Term::BufferLoad(Box::new(buffer), Box::new(index))
        } else if str_eq(w, "setBits64") {
            let buffer = self.parse_primary()?;
            let index = self.parse_primary()?;
            let value = self.parse_primary()?;
            Term::BufferStore(Box::new(buffer), Box::new(index), Box::new(value))
        } else {
            Term::Var(n)
        };
        Ok(term)
    }

    /// A parenthesized primary expression, its `(` just passed: unit, an
    /// operator section, or an expression, perhaps with further tuple
    /// components or a type after it.
    fn parse_paren(&mut self, Ghost(p): Ghost<int>) -> (r: Result<Term, CompilerError>)
        requires
            old(self).wf(),
            0 <= p < old(self).pos(),
        ensures
            advanced(*old(self), *final(self)),
            r is Ok ==> old(self).pos() < final(self).pos(),
            agrees(r, final(self).pos(), paren_spec(old(self).tokens(), p, old(self).pos())),
        decreases old(self).remaining() + 1, 0int,
    {
        reveal(paren_spec);
        reveal(tuple_spec);
        reveal(expr_spec);
        let ghost ts = self.tokens();
        let ghost j = self.pos();
        if self.at(TokenKind::RParen) {
            self.advance();
            return Ok(Term::Integer(0));
        }
        let k = self.peek_kind();
        if k == TokenKind::Plus || k == TokenKind::Star || k == TokenKind::Minus || k == TokenKind::Slash || k
            == TokenKind::Append || k == TokenKind::Eq || k == TokenKind::Lt || k == TokenKind::Gt || k
            == TokenKind::Colon {
            if self.peek_kind_at(1) == Some(TokenKind::RParen) {
                let op = self.advance();
                self.advance();
                return Ok(Term::Var(token_text_of(&op.node)));
            }
            if self.peek_kind_at(2) == Some(TokenKind::RParen) {
                let op1 = self.advance();
                let op2 = self.advance();
                self.advance();
                let mut name = token_text_of(&op1.node);
                let second = token_text_of(&op2.node);
                name.append(second.as_str());
                return Ok(Term::Var(name));
            }
        }
        let expr = self.parse_expr()?;
        self.parse_tuple()?;
        if self.at(TokenKind::DoubleStar) {
            self.advance();
            let _ = self.parse_expr()?;
        }
        if self.at(TokenKind::Colon) || self.at(TokenKind::Arrow) {
            self.skip_to_closing(TokenKind::LParen, TokenKind::RParen);
            if self.at(TokenKind::RParen) {
                self.advance();
            }
            return Ok(expr);
        }
        self.consume(Token::RParen, "Expected )")?;
        Ok(expr)
    }
    /// Further tuple components `, e`; their values are not kept.
    fn parse_tuple(&mut self) -> (r: Result<(), CompilerError>)
        requires
            old(self).wf(),
        ensures
            advanced(*old(self), *final(self)),
            moves_agree(r, final(self).pos(), tuple_spec(old(self).tokens(), old(self).pos())),
        decreases old(self).remaining(), 0int,
    {
        reveal(tuple_spec);
        reveal(expr_spec);
        if self.at(TokenKind::Comma) {
            self.advance();
            let _ = self.parse_expr()?;
            return self.parse_tuple();
        }
        Ok(())
    }
}

} // verus!
