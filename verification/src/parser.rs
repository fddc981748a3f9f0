//! The parser: a cursor over tokens and the operations that the expression,
//! type and declaration grammars share.
use vstd::prelude::*;
use crate::cursor::Cursor;
use crate::errors::{CompilerError, ParseError, Span, Spanned};
use crate::scanner::{Token, TokenKind, duplicate_spanned, token_text_of, token_kind};
use crate::text::str_eq;
use crate::grammar::{error_model, expecting};

verus! {

/// The token at index `i`, or the end-of-input token past the end.
pub open spec fn node_at(ts: Seq<Spanned<Token>>, i: int) -> Token {
    if 0 <= i < ts.len() {
        ts[i].node
    } else {
        Token::EOF
    }
}

/// The variant of the token at index `i`.
pub open spec fn kind_at(ts: Seq<Spanned<Token>>, i: int) -> TokenKind {
    token_kind(node_at(ts, i))
}

/// The first index from `i` on whose token is not a line break.
pub open spec fn newlines_end(ts: Seq<Spanned<Token>>, i: int) -> int
    decreases ts.len() - i,
{
    if i < 0 || i >= ts.len() {
        i
    } else if kind_at(ts, i) == TokenKind::Newline {
        newlines_end(ts, i + 1)
    } else {
        i
    }
}

/// The words that mark a declaration: visibility and totality modifiers,
/// and `parameters`.
pub open spec fn is_modifier_name(n: Seq<char>) -> bool {
    n == "public"@ || n == "export"@ || n == "total"@ || n == "partial"@ || n == "covering"@
        || n == "parameters"@
}

/// Whether the token at `i` starts a declaration: a declaration keyword, a
/// modifier, or a name that a `:` or `=` follows past any line breaks.
pub open spec fn decl_start(ts: Seq<Spanned<Token>>, i: int) -> bool {
    let k = kind_at(ts, i);
    if k == TokenKind::Module || k == TokenKind::Import || k == TokenKind::Data || k
        == TokenKind::Interface || k == TokenKind::Implementation || k == TokenKind::Record || k
        == TokenKind::Mutual {
        true
    } else if k == TokenKind::Identifier {
        if is_modifier_name(node_at(ts, i)->Identifier_0@) {
            true
        } else {
            let j = newlines_end(ts, i + 1);
            j < ts.len() && (kind_at(ts, j) == TokenKind::Colon || kind_at(ts, j) == TokenKind::Assign)
        }
    } else {
        false
    }
}

/// Whether `n` is a modifier or `parameters`.
pub(crate) fn is_modifier(n: &str) -> (r: bool)
    ensures
        r == is_modifier_name(n@),
{
    str_eq(n, "public") || str_eq(n, "export") || str_eq(n, "total") || str_eq(n, "partial")
        || str_eq(n, "covering") || str_eq(n, "parameters")
}

/// Passing line breaks never moves back.
pub proof fn lemma_newlines_end(ts: Seq<Spanned<Token>>, i: int)
    requires
        0 <= i,
    ensures
        i <= newlines_end(ts, i),
        newlines_end(ts, i) <= ts.len() || newlines_end(ts, i) == i,
        0 <= i < ts.len() && kind_at(ts, i) == TokenKind::Newline ==> i < newlines_end(ts, i),
    decreases ts.len() - i,
{
    if 0 <= i < ts.len() && kind_at(ts, i) == TokenKind::Newline {
        lemma_newlines_end(ts, i + 1);
    }
}

/// Whether a parser state `b` follows `a`: the same tokens, and a position
/// that has not moved back and lies within them.
pub open spec fn advanced(a: Parser, b: Parser) -> bool {
    &&& b.tokens() == a.tokens()
    &&& 0 <= a.pos() <= b.pos() <= b.tokens().len()
}

/// A recursive-descent parser over a sequence of tokens.
pub struct Parser {
    cursor: Cursor<Spanned<Token>>,
}

impl Parser {
    /// The tokens.
    pub closed spec fn tokens(&self) -> Seq<Spanned<Token>> {
        self.cursor.items()
    }

    /// The index of the current token.
    pub closed spec fn pos(&self) -> int {
        self.cursor.pos() as int
    }

    /// The number of tokens not yet passed.
    pub open spec fn remaining(&self) -> int {
        self.tokens().len() - self.pos()
    }

    /// The current token; the end-of-input token past the end.
    pub open spec fn current(&self) -> Token {
        node_at(self.tokens(), self.pos())
    }

    /// The position lies within the tokens, and their number is below the
    /// largest `usize`.
    pub open spec fn wf(&self) -> bool {
        &&& 0 <= self.pos() <= self.tokens().len()
        &&& self.tokens().len() < usize::MAX
    }

    /// Creates a parser at the first of the tokens.
    pub fn new(tokens: Vec<Spanned<Token>>) -> (r: Self)
        requires
            tokens@.len() < usize::MAX,
        ensures
            r.tokens() == tokens@,
            r.pos() == 0,
            r.wf(),
    {
        Parser { cursor: Cursor::new(tokens) }
    }

    /// The current token.
    pub fn peek(&self) -> (r: &Token)
        ensures
            *r == self.current(),
    {
        match self.cursor.peek() {
            Some(s) => &s.node,
            None => &Token::EOF,
        }
    }

    /// The variant of the current token.
    pub(crate) fn peek_kind(&self) -> (r: TokenKind)
        ensures
            r == token_kind(self.current()),
    {
        match self.cursor.peek() {
            Some(s) => s.node.kind(),
            None => TokenKind::EOF,
        }
    }

    /// The variant of the token `k` places after the current one, if there is one.
    pub(crate) fn peek_kind_at(&self, k: usize) -> (r: Option<TokenKind>)
        requires
            self.wf(),
        ensures
            self.pos() + k < self.tokens().len() ==> r == Some(kind_at(self.tokens(), self.pos() + k)),
            self.pos() + k >= self.tokens().len() ==> r is None,
    {
        match self.cursor.peek_at(k) {
            Some(s) => Some(s.node.kind()),
            None => None,
        }
    }

    /// Whether the current token is of variant `k`.
    pub(crate) fn at(&self, k: TokenKind) -> (r: bool)
        ensures
            r == (token_kind(self.current()) == k),
    {
        self.peek_kind() == k
    }

    /// The span of the current token; an empty span past the end.
    pub(crate) fn peek_span(&self) -> (r: Span)
        ensures
            0 <= self.pos() < self.tokens().len() ==> r == self.tokens()[self.pos()].span,
            !(0 <= self.pos() < self.tokens().len()) ==> r == (Span { line: 0, col: 0, len: 0 }),
    {
        match self.cursor.peek() {
            Some(s) => s.span,
            None => Span::new(0, 0, 0),
        }
    }

    /// Passes the current token and returns it; past the end, returns an
    /// end-of-input token with an empty span and stays.
    pub(crate) fn advance(&mut self) -> (r: Spanned<Token>)
        requires
            old(self).wf(),
        ensures
            advanced(*old(self), *final(self)),
            old(self).pos() < old(self).tokens().len() ==> {
                &&& r == old(self).tokens()[old(self).pos()]
                &&& final(self).pos() == old(self).pos() + 1
            },
            old(self).pos() >= old(self).tokens().len() ==> {
                &&& r.node == Token::EOF
                &&& r.span == (Span { line: 0, col: 0, len: 0 })
                &&& final(self).pos() == old(self).pos()
            },
    {
        match self.cursor.advance() {
            Some(s) => duplicate_spanned(s),
            None => Spanned::new(Token::EOF, Span::new(0, 0, 0)),
        }
    }

    /// Passes the current token when it has the variant of `token`;
    /// otherwise an error that names the token expected and carries
    /// `message`.
    pub(crate) fn consume(&mut self, token: Token, message: &str) -> (r: Result<Spanned<Token>, CompilerError>)
        requires
            old(self).wf(),
            token_kind(token) != TokenKind::EOF,
        ensures
            advanced(*old(self), *final(self)),
            r is Ok <==> token_kind(old(self).current()) == token_kind(token),
            r is Ok ==> final(self).pos() == old(self).pos() + 1,
            r is Ok ==> r->Ok_0.node == old(self).current(),
            r is Err ==> final(self).pos() == old(self).pos(),
            r is Err ==> error_model(r->Err_0) == Some(expecting(old(self).tokens(), old(self).pos(), token, message@)),
    {
        if self.peek_kind() == token.kind() {
            return Ok(self.advance());
        }
        Err(CompilerError::Parse(ParseError {
            span: self.peek_span(),
            token: self.peek().duplicate(),
            expected: Some(token_text_of(&token)),
            message: message.to_owned(),
        }))
    }

    /// Passes line breaks.
    pub(crate) fn skip_newlines(&mut self)
        requires
            old(self).wf(),
        ensures
            advanced(*old(self), *final(self)),
            final(self).pos() == newlines_end(old(self).tokens(), old(self).pos()),
            kind_at(old(self).tokens(), old(self).pos()) == TokenKind::Newline ==> old(self).pos()
                < final(self).pos(),
    {
        proof {
            lemma_newlines_end(self.tokens(), self.pos());
        }
        while self.at(TokenKind::Newline)
            invariant
                self.wf(),
                advanced(*old(self), *self),
                newlines_end(self.tokens(), self.pos()) == newlines_end(old(self).tokens(), old(self).pos()),
            decreases self.tokens().len() - self.pos(),
        {
            self.advance();
        }
    }
    /// The token with its span `k` places after the current one, if there is one.
    pub(crate) fn peek_spanned_at(&self, k: usize) -> (r: Option<Spanned<Token>>)
        requires
            self.wf(),
        ensures
            self.pos() + k < self.tokens().len() ==> r == Some(self.tokens()[self.pos() + k]),
            self.pos() + k >= self.tokens().len() ==> r is None,
    {
        match self.cursor.peek_at(k) {
            Some(s) => Some(duplicate_spanned(s)),
            None => None,
        }
    }

    /// The token `k` places after the current one, if there is one.
    pub(crate) fn peek_token_at(&self, k: usize) -> (r: Option<Token>)
        requires
            self.wf(),
        ensures
            self.pos() + k < self.tokens().len() ==> r == Some(node_at(self.tokens(), self.pos() + k)),
            self.pos() + k >= self.tokens().len() ==> r is None,
    {
        match self.cursor.peek_at(k) {
            Some(s) => Some(s.node.duplicate()),
            None => None,
        }
    }

    /// The index of the first token from `k` places after the current one
    /// on that is not a line break, counted from the current one.
    pub(crate) fn skip_newlines_ahead(&self, k: usize) -> (r: usize)
        requires
            self.wf(),
            self.pos() + k <= self.tokens().len(),
        ensures
            self.pos() + r == newlines_end(self.tokens(), self.pos() + k),
            k <= r,
            self.pos() + r <= self.tokens().len(),
    {
        let mut idx: usize = k;
        while self.peek_kind_at(idx) == Some(TokenKind::Newline)
            invariant
                self.wf(),
                k <= idx,
                self.pos() + idx <= self.tokens().len(),
                newlines_end(self.tokens(), self.pos() + idx) == newlines_end(self.tokens(), self.pos() + k),
            decreases self.tokens().len() - idx,
        {
            idx = idx + 1;
        }
        idx
    }

    /// Whether the current token starts a declaration.
    pub fn is_decl_start(&self) -> (r: bool)
        requires
            self.wf(),
        ensures
            r == decl_start(self.tokens(), self.pos()),
    {
        let k = self.peek_kind();
        if k == TokenKind::Module || k == TokenKind::Import || k == TokenKind::Data || k
            == TokenKind::Interface || k == TokenKind::Implementation || k == TokenKind::Record
            || k == TokenKind::Mutual {
            return true;
        }
        if k == TokenKind::Identifier {
            match self.peek() {
                Token::Identifier(n) => {
                    if is_modifier(n.as_str()) {
                        return true;
                    }
                },
                _ => {},
            }
            let j = self.skip_newlines_ahead(1);
            return match self.peek_kind_at(j) {
                Some(t) => t == TokenKind::Colon || t == TokenKind::Assign,
                None => false,
            };
        }
        false
    }
}

} // verus!
