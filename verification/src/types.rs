//! The type grammar: signatures `name : type`, and pi types with an
//! optional multiplicity and binder name.
use vstd::prelude::*;
use crate::errors::CompilerError;
use crate::grammar::{
    agrees, error_model, inner_commas, moves_agree, pi_inner_spec, pi_spec, signature_spec, unfold_inner_commas,
    unfold_pi_head, unfold_pi_inner_spec, unfold_pi_spec,
};
use crate::multiplicity::Multiplicity;
use crate::parser::{Parser, advanced, kind_at, node_at};
use crate::scanner::{Token, TokenKind};
use crate::term::Term;

verus! {

/// What a parenthesis in type position opens.
#[derive(Debug, Clone, Copy, PartialEq, Eq, Structural)]
pub enum ParenKind {
    /// A binder with a multiplicity: `(1 x : T)`.
    QttPi(Multiplicity),
    /// A binder: `(x : T)`.
    NamedPi,
    /// A parenthesized type.
    GroupedExpr,
}

/// What the parenthesis at `i` opens, judged from the three tokens after it.
pub open spec fn paren_kind(ts: Seq<crate::errors::Spanned<Token>>, i: int) -> ParenKind {
    let t1 = node_at(ts, i + 1);
    if t1 is Integer && (t1->Integer_0 == 0 || t1->Integer_0 == 1) && kind_at(ts, i + 2) == TokenKind::Identifier
        && kind_at(ts, i + 3) == TokenKind::Colon {
        ParenKind::QttPi(if t1->Integer_0 == 0 { Multiplicity::Zero } else { Multiplicity::One })
    } else if kind_at(ts, i + 1) == TokenKind::Identifier && kind_at(ts, i + 2) == TokenKind::Colon {
        ParenKind::NamedPi
    } else {
        ParenKind::GroupedExpr
    }
}

impl Parser {
    /// Parses a signature `name : type` and returns the name and the type;
    /// the line breaks after the type are passed, so that the parser stands
    /// at the start of the next declaration.
    pub fn parse_signature(&mut self) -> (r: Result<(String, Term), CompilerError>)
        requires
            old(self).wf(),
        ensures
            advanced(*old(self), *final(self)),
            old(self).pos() < old(self).tokens().len() ==> old(self).pos() < final(self).pos(),
            r is Ok ==> old(self).pos() + 2 <= final(self).pos(),
            r is Ok ==> kind_at(old(self).tokens(), old(self).pos()) == TokenKind::Identifier,
            r is Ok ==> r->Ok_0.0@ == node_at(old(self).tokens(), old(self).pos())->Identifier_0@,
            r is Ok ==> kind_at(old(self).tokens(), old(self).pos() + 1) == TokenKind::Colon,
            match signature_spec(old(self).tokens(), old(self).pos()) {
                Ok((n, t, q)) => r is Ok && r->Ok_0.0@ == n && r->Ok_0.1@ == t && final(self).pos() == q,
                Err((e, q)) => r is Err && error_model(r->Err_0) == Some(e) && final(self).pos() == q,
            },
    {
        let ghost ts = self.tokens();
        let name_token = self.advance();
        let name = match name_token.node {
            Token::Identifier(n) => n,
            _ => {
                return Err(crate::expressions::error_at_expecting(name_token, "Identifier",
                    "Expected identifier in signature"));
            },
        };
        self.consume(Token::Colon, "Expected : after name in signature")?;
        let sig = self.parse_pi()?;
        self.skip_newlines();
        proof {
            reveal_strlit("Identifier");
        }
        Ok((name, sig))
    }

    /// What the current parenthesis opens.
    fn classify_paren_contents(&self) -> (r: ParenKind)
        requires
            self.wf(),
        ensures
            r == paren_kind(self.tokens(), self.pos()),
    {
        match self.peek_token_at(1) {
            Some(Token::Integer(q)) => {
                if q == 0 || q == 1 {
                    if self.peek_kind_at(2) == Some(TokenKind::Identifier) && self.peek_kind_at(3)
                        == Some(TokenKind::Colon) {
                        return ParenKind::QttPi(if q == 0 { Multiplicity::Zero } else { Multiplicity::One });
                    }
                }
            },
            _ => {},
        }
        if self.peek_kind_at(1) == Some(TokenKind::Identifier) && self.peek_kind_at(2) == Some(
            TokenKind::Colon,
        ) {
            return ParenKind::NamedPi;
        }
        ParenKind::GroupedExpr
    }

    /// Parses a pi type: a binder with a multiplicity, a named binder, a
    /// parenthesized type or an application, then `->` and the rest, which
    /// makes an unnamed pi type of multiplicity many.
    pub fn parse_pi(&mut self) -> (r: Result<Term, CompilerError>)
        requires
            old(self).wf(),
        ensures
            advanced(*old(self), *final(self)),
            r is Ok ==> old(self).pos() < final(self).pos(),
            agrees(r, final(self).pos(), pi_spec(old(self).tokens(), old(self).pos())),
        decreases old(self).remaining(), 2int,
    {
        proof {
            unfold_pi_spec(self.tokens(), self.pos());
            unfold_pi_head(self.tokens(), self.pos());
        }
        let mut lhs = if self.at(TokenKind::LParen) {
            match self.classify_paren_contents() {
                ParenKind::QttPi(quantity) => {
                    self.advance();
                    self.advance();
                    let name_token = self.advance();
                    let name = match name_token.node {
                        Token::Identifier(n) => n,
                        _ => "_".to_owned(),
                    };
                    self.consume(Token::Colon, "Expected : in Pi binder")?;
                    let ty = self.parse_pi()?;
                    self.consume(Token::RParen, "Expected ) in Pi binder")?;
                    if self.at(TokenKind::Arrow) {
                        self.advance();
                        let body = self.parse_pi()?;
                        return Ok(Term::Pi(name, quantity, Box::new(ty), Box::new(body)));
                    }
                    ty
                },
                ParenKind::NamedPi => {
                    self.advance();
                    let name_token = self.advance();
                    let name = match name_token.node {
                        Token::Identifier(n) => n,
                        _ => "_".to_owned(),
                    };
                    self.consume(Token::Colon, "Expected : in named Pi binder")?;
                    let ty = self.parse_pi_inner()?;
                    self.consume(Token::RParen, "Expected ) in named Pi binder")?;
                    if self.at(TokenKind::Arrow) {
                        self.advance();
                        let body = self.parse_pi()?;
                        return Ok(Term::Pi(name, Multiplicity::Many, Box::new(ty), Box::new(body)));
                    }
                    ty
                },
                ParenKind::GroupedExpr => {
                    self.advance();
                    let expr = self.parse_pi_inner()?;
                    self.consume(Token::RParen, "Expected )")?;
                    expr
                },
            }
        } else {
            self.parse_app()?
        };
        if self.at(TokenKind::Arrow) {
            self.advance();
            let rhs = self.parse_pi()?;
            lhs = Term::Pi("_".to_owned(), Multiplicity::Many, Box::new(lhs), Box::new(rhs));
        }
        Ok(lhs)
    }

    /// Parses a type inside parentheses: an application, then an arrow, a
    /// dependent pair, tuple components or an equation, as they come.
    fn parse_pi_inner(&mut self) -> (r: Result<Term, CompilerError>)
        requires
            old(self).wf(),
        ensures
            advanced(*old(self), *final(self)),
            r is Ok ==> old(self).pos() < final(self).pos(),
            agrees(r, final(self).pos(), pi_inner_spec(old(self).tokens(), old(self).pos())),
        decreases old(self).remaining(), 1int,
    {
        proof {
            unfold_pi_inner_spec(self.tokens(), self.pos());
        }
        let ghost ts = self.tokens();
        let ghost p = self.pos();
        let mut lhs = self.parse_app()?;
        let ghost q = self.pos();
        if self.at(TokenKind::Arrow) {
            self.advance();
            let rhs = self.parse_pi_inner()?;
            lhs = Term::Pi("_".to_owned(), Multiplicity::Many, Box::new(lhs), Box::new(rhs));
        }
        let ghost q1 = self.pos();
        let ghost t1 = lhs@;
        assert(q <= q1);
        if self.at(TokenKind::DoubleStar) {
            self.advance();
            let _ = self.parse_pi_inner()?;
        }
        let ghost q2 = self.pos();
        assert(q1 <= q2 <= ts.len());
        self.parse_pi_commas()?;
        let ghost q3 = self.pos();
        assert(q2 <= q3);
        if self.at(TokenKind::Assign) {
            self.advance();
            let rhs = self.parse_pi_inner()?;
            lhs = Term::Eq(Box::new(lhs), Box::new(rhs));
        }
        Ok(lhs)
    }

    /// Passes tuple components `, t` inside parentheses.
    fn parse_pi_commas(&mut self) -> (r: Result<(), CompilerError>)
        requires
            old(self).wf(),
        ensures
            advanced(*old(self), *final(self)),
            moves_agree(r, final(self).pos(), inner_commas(old(self).tokens(), old(self).pos())),
        decreases old(self).remaining(), 0int,
    {
        proof {
            unfold_inner_commas(self.tokens(), self.pos());
        }
        if self.at(TokenKind::Comma) {
            self.advance();
            let _ = self.parse_pi_inner()?;
            return self.parse_pi_commas();
        }
        Ok(())
    }
}

} // verus!
