//! The declaration grammar: modules, imports, data types in both the
//! simple and the indexed form, interfaces, implementations, records, mutual
//! blocks, parameter blocks, modifiers, signatures and definitions with
//! their `where` clauses; and whole programs.
use vstd::prelude::*;
use crate::chars::i64_to_text;
use crate::errors::{CompilerError, ParseError, Span};
use crate::expressions::{error_at, error_at_expecting, var};
use crate::parser::{Parser, advanced, is_modifier, kind_at, lemma_newlines_end, newlines_end, node_at};
use crate::scanner::{Token, TokenKind, token_text_of};
use crate::decl_grammar::{
    plain_def_spec, plain_names,
    block_declarations, block_end, check_signature, constructor, data_spec, def_args, definition_spec,
    implementation_spec, impl_target, import_spec, indexed_constructors, interface_spec, module_spec, modifier_spec,
    name_list, named_impl_spec, operator_text, parameters_spec, program_spec, record_spec, signature_after_name_spec,
    signature_decl_spec, simple_constructors, skip_group, skip_indented, skip_signature, skip_to_bar_or_line,
    skip_until, target_name, unfold_block_declarations, unfold_declaration_spec, unfold_definition_spec,
    unfold_modifier_spec, unfold_parameters_spec, unfold_where_declarations, where_declarations, declaration_spec,
};
use crate::grammar::{SyntaxError, agrees, error_model, stmts_agree};
use crate::term::{
    Constructor, SpecConstructor, SpecTerm, Term, boxed_view, constructors_view, fields_view, lemma_terms_view_index,
    names_view, terms_view,
};
use crate::text::{contains_name, str_eq};

verus! {

/// Whether a token can stand at the start of a top-level construct.
pub open spec fn top_level_kind(k: TokenKind) -> bool {
    k == TokenKind::Identifier || k == TokenKind::LParen || k == TokenKind::Data || k == TokenKind::Module
        || k == TokenKind::Import || k == TokenKind::Interface || k == TokenKind::Implementation || k
        == TokenKind::Record || k == TokenKind::Mutual || k == TokenKind::LBracket
}

/// Whether the word names a visibility or totality modifier.
pub open spec fn is_visibility_name(n: Seq<char>) -> bool {
    n == "public"@ || n == "export"@ || n == "total"@ || n == "partial"@ || n == "covering"@
}

/// Whether a token starts a declaration that is not a constructor of an
/// indexed data type: a declaration keyword, `[`, or a modifier.
pub open spec fn non_constructor_decl(t: Token) -> bool {
    let k = crate::scanner::token_kind(t);
    if k == TokenKind::Data || k == TokenKind::Module || k == TokenKind::Import || k == TokenKind::Interface
        || k == TokenKind::Implementation || k == TokenKind::Record || k == TokenKind::Mutual || k
        == TokenKind::LBracket {
        true
    } else if k == TokenKind::Identifier {
        crate::parser::is_modifier_name(t->Identifier_0@)
    } else {
        false
    }
}

/// Whether every token from `i` up to the first `=` or end of input is an
/// identifier.
pub open spec fn plain_arguments(ts: Seq<crate::errors::Spanned<Token>>, i: int) -> bool
    decreases ts.len() - i,
{
    if i < 0 || i >= ts.len() || kind_at(ts, i) == TokenKind::Assign || kind_at(ts, i) == TokenKind::EOF {
        true
    } else {
        kind_at(ts, i) == TokenKind::Identifier && plain_arguments(ts, i + 1)
    }
}

/// Whether the word names a visibility or totality modifier.
fn is_visibility(n: &str) -> (r: bool)
    ensures
        r == is_visibility_name(n@),
{
    str_eq(n, "public") || str_eq(n, "export") || str_eq(n, "total") || str_eq(n, "partial")
        || str_eq(n, "covering")
}

impl Parser {
    /// Parses a whole program: declarations up to the end of the input. A
    /// definition at the top level must follow a signature of its name.
    pub fn parse_program(&mut self) -> (r: Result<Vec<Term>, CompilerError>)
        requires
            old(self).wf(),
        ensures
            advanced(*old(self), *final(self)),
            r is Ok ==> kind_at(final(self).tokens(), final(self).pos()) == TokenKind::EOF,
            stmts_agree(r, final(self).pos(), program_spec(old(self).tokens(), old(self).pos(), Seq::empty(), Seq::empty())),
    {
        let ghost ts = self.tokens();
        let mut declarations: Vec<Term> = Vec::new();
        let mut signatures: Vec<String> = Vec::new();
        proof {
            assert(terms_view(declarations@) =~= Seq::<SpecTerm>::empty());
            assert(names_view(signatures@) =~= Seq::<Seq<char>>::empty());
        }
        while !self.at(TokenKind::EOF)
            invariant
                self.wf(),
                self.tokens() == ts,
                advanced(*old(self), *self),
                program_spec(ts, old(self).pos(), Seq::empty(), Seq::empty()) == program_spec(ts, self.pos(),
                    names_view(signatures@), terms_view(declarations@)),
            decreases self.remaining(),
        {
            let ghost before = declarations@;
            self.check_signature_first(&mut signatures)?;
            let decl = self.parse_declaration()?;
            declarations.push(decl);
            proof {
                assert(declarations@.drop_last() =~= before);
            }
        }
        Ok(declarations)
    }

    /// Looks at the declaration that starts here: a signature records its
    /// name; a definition whose name has no signature yet is an error at the
    /// token after the name.
    fn check_signature_first(&self, signatures: &mut Vec<String>) -> (r: Result<(), CompilerError>)
        requires
            self.wf(),
        ensures
            match check_signature(self.tokens(), self.pos(), names_view(old(signatures)@)) {
                Ok(s) => r is Ok && names_view(final(signatures)@) == s,
                Err(e) => r is Err && error_model(r->Err_0) == Some(e),
            },
    {
        proof {
            lemma_newlines_end(self.tokens(), self.pos());
        }
        let i = self.skip_newlines_ahead(0);
        match self.peek_token_at(i) {
            Some(Token::Identifier(n)) => {
                if !is_modifier(n.as_str()) {
                    let j = self.skip_newlines_ahead(i + 1);
                    if self.peek_kind_at(j) == Some(TokenKind::Colon) {
                        let ghost before = signatures@;
                        signatures.push(n);
                        proof {
                            assert(names_view(signatures@) =~= names_view(before).push(signatures@.last()@));
                        }
                    } else if !contains_name(signatures, n.as_str()) {
                        let (span, token) = match self.peek_spanned_at(i + 1) {
                            Some(s) => (s.span, s.node),
                            None => (Span::new(0, 0, 0), Token::EOF),
                        };
                        return Err(CompilerError::Parse(ParseError {
                            span,
                            token,
                            expected: Some(token_text_of(&Token::Colon)),
                            message: "Expected : after name in signature".to_owned(),
                        }));
                    }
                }
            },
            _ => {},
        }
        Ok(())
    }

    /// Parses one declaration, after any line breaks. Unknown tokens are
    /// passed over up to the next line; a parenthesized operator name may
    /// start a signature.
    pub fn parse_declaration(&mut self) -> (r: Result<Term, CompilerError>)
        requires
            old(self).wf(),
        ensures
            advanced(*old(self), *final(self)),
            old(self).pos() < old(self).tokens().len() ==> old(self).pos() < final(self).pos(),
            agrees(r, final(self).pos(), declaration_spec(old(self).tokens(), old(self).pos())),
        decreases old(self).remaining(), 3int,
    {
        let ghost ts = self.tokens();
        proof {
            unfold_declaration_spec(ts, self.pos());
            lemma_newlines_end(ts, self.pos());
        }
        self.skip_newlines();
        let k = self.peek_kind();
        if k == TokenKind::Module {
            self.parse_module()
        } else if k == TokenKind::Import {
            self.parse_import()
        } else if k == TokenKind::Data {
            self.parse_data()
        } else if k == TokenKind::Interface {
            self.parse_interface()
        } else if k == TokenKind::Implementation {
            self.parse_implementation()
        } else if k == TokenKind::Record {
            self.parse_record()
        } else if k == TokenKind::Mutual {
            self.parse_mutual()
        } else if k == TokenKind::LBracket {
            self.parse_named_impl_or_skip()
        } else if k == TokenKind::Identifier {
            match self.peek() {
                Token::Identifier(n) => {
                    if is_visibility(n.as_str()) {
                        return self.parse_with_modifier();
                    }
                    if str_eq(n.as_str(), "parameters") {
                        return self.parse_parameters_block();
                    }
                },
                _ => {},
            }
            let j = self.skip_newlines_ahead(1);
            if self.peek_kind_at(j) == Some(TokenKind::Colon) {
                return self.parse_signature_decl();
            }
            self.parse_definition_decl()
        } else if k == TokenKind::Integer {
            self.parse_definition_decl()
        } else {
            let ghost i = self.pos();
            let token = self.advance();
            match token.node {
                Token::LParen => {
                    self.skip_balanced_parens();
                    proof {
                        lemma_newlines_end(ts, self.pos());
                    }
                    self.skip_newlines();
                    if self.at(TokenKind::Colon) {
                        return self.parse_signature_after_name("_op_".to_owned());
                    }
                    if !self.at(TokenKind::EOF) {
                        return self.parse_declaration();
                    }
                    Err(error_at_expecting(token, "Declaration", "Expected top-level declaration"))
                },
                _ => {
                    self.skip_until_kind(TokenKind::Newline);
                    proof {
                        lemma_newlines_end(ts, self.pos());
                    }
                    self.skip_newlines();
                    if !self.at(TokenKind::EOF) {
                        self.parse_declaration()
                    } else {
                        Ok(Term::Module("_skipped".to_owned()))
                    }
                },
            }
        }
    }

    /// Passes tokens up to one of kind `stop`, or the end.
    fn skip_until_kind(&mut self, stop: TokenKind)
        requires
            old(self).wf(),
        ensures
            advanced(*old(self), *final(self)),
            final(self).pos() == skip_until(old(self).tokens(), old(self).pos(), stop),
    {
        while !self.at(stop) && !self.at(TokenKind::EOF)
            invariant
                self.wf(),
                advanced(*old(self), *self),
                skip_until(old(self).tokens(), old(self).pos(), stop) == skip_until(self.tokens(), self.pos(), stop),
            decreases self.remaining(),
        {
            self.advance();
        }
    }

    /// Parses the type of a signature whose name was already passed.
    fn parse_signature_after_name(&mut self, _name: String) -> (r: Result<Term, CompilerError>)
        requires
            old(self).wf(),
        ensures
            advanced(*old(self), *final(self)),
            r is Ok ==> old(self).pos() < final(self).pos(),
            agrees(r, final(self).pos(), signature_after_name_spec(old(self).tokens(), old(self).pos())),
    {
        self.consume(Token::Colon, "Expected : in signature")?;
        let sig = self.parse_pi()?;
        Ok(sig)
    }

    /// Parses `module Name`.
    fn parse_module(&mut self) -> (r: Result<Term, CompilerError>)
        requires
            old(self).wf(),
            old(self).pos() < old(self).tokens().len(),
        ensures
            advanced(*old(self), *final(self)),
            old(self).pos() < final(self).pos(),
            agrees(r, final(self).pos(), module_spec(old(self).tokens(), old(self).pos())),
    {
        self.advance();
        let name_token = self.advance();
        match name_token.node {
            Token::Identifier(n) => Ok(Term::Module(n)),
            _ => Err(error_at_expecting(name_token, "Module Name", "Expected module name")),
        }
    }

    /// Parses `import Name`.
    fn parse_import(&mut self) -> (r: Result<Term, CompilerError>)
        requires
            old(self).wf(),
            old(self).pos() < old(self).tokens().len(),
        ensures
            advanced(*old(self), *final(self)),
            old(self).pos() < final(self).pos(),
            agrees(r, final(self).pos(), import_spec(old(self).tokens(), old(self).pos())),
    {
        self.advance();
        let name_token = self.advance();
        match name_token.node {
            Token::Identifier(n) => Ok(Term::Import(n)),
            _ => Err(error_at_expecting(name_token, "Import Name", "Expected import name")),
        }
    }

    /// Parses a data type: `data Name params = Con | Con`, or the indexed
    /// form `data Name : kind where` with one constructor signature per line.
    /// The fields of constructors are passed over.
    fn parse_data(&mut self) -> (r: Result<Term, CompilerError>)
        requires
            old(self).wf(),
            old(self).pos() < old(self).tokens().len(),
        ensures
            advanced(*old(self), *final(self)),
            old(self).pos() < final(self).pos(),
            agrees(r, final(self).pos(), data_spec(old(self).tokens(), old(self).pos())),
    {
        let ghost ts = self.tokens();
        self.advance();
        let name_token = self.advance();
        let name = match name_token.node {
            Token::Identifier(n) => n,
            _ => {
                return Err(error_at(name_token, "Expected data type name"));
            },
        };
        let params: Vec<String> = Vec::new();
        self.skip_newlines();
        let none: Vec<Constructor> = Vec::new();
        proof {
            assert(constructors_view(none@) =~= Seq::<SpecConstructor>::empty());
            assert(names_view(params@) =~= Seq::<Seq<char>>::empty());
        }
        if self.at(TokenKind::Colon) {
            self.advance();
            self.skip_until_kind(TokenKind::Where);
            if self.at(TokenKind::Where) {
                self.advance();
            }
            self.skip_newlines();
            let constructors = self.parse_indexed_constructors(none);
            return Ok(Term::Data(name, params, constructors));
        }
        let params = self.parse_name_list(TokenKind::Assign);
        self.consume(Token::Assign, "Expected = in data definition")?;
        let constructors = self.parse_simple_constructors(none);
        Ok(Term::Data(name, params, constructors))
    }

    /// The names from here up to `stop`, the end or the first token that is
    /// not a name, which is passed.
    fn parse_name_list(&mut self, stop: TokenKind) -> (r: Vec<String>)
        requires
            old(self).wf(),
        ensures
            advanced(*old(self), *final(self)),
            (names_view(r@), final(self).pos()) == name_list(old(self).tokens(), old(self).pos(), stop, Seq::empty()),
    {
        let mut names: Vec<String> = Vec::new();
        proof {
            assert(names_view(names@) =~= Seq::<Seq<char>>::empty());
        }
        while !self.at(stop) && !self.at(TokenKind::EOF)
            invariant_except_break
                name_list(old(self).tokens(), old(self).pos(), stop, Seq::empty()) == name_list(self.tokens(),
                    self.pos(), stop, names_view(names@)),
            invariant
                self.wf(),
                advanced(*old(self), *self),
            ensures
                name_list(old(self).tokens(), old(self).pos(), stop, Seq::empty()) == (names_view(names@), self.pos()),
            decreases self.remaining(),
        {
            let ghost before = names@;
            let t = self.advance();
            match t.node {
                Token::Identifier(n) => {
                    names.push(n);
                    proof {
                        assert(names_view(names@) =~= names_view(before).push(names@.last()@));
                    }
                },
                _ => {
                    break;
                },
            }
        }
        names
    }

    /// The texts of the tokens from here up to `)` or the end, after `acc`.
    fn parse_operator_text(&mut self, acc: String) -> (r: String)
        requires
            old(self).wf(),
        ensures
            advanced(*old(self), *final(self)),
            (r@, final(self).pos()) == operator_text(old(self).tokens(), old(self).pos(), acc@),
    {
        let mut text = acc;
        while !self.at(TokenKind::RParen) && !self.at(TokenKind::EOF)
            invariant
                self.wf(),
                advanced(*old(self), *self),
                operator_text(old(self).tokens(), old(self).pos(), acc@) == operator_text(self.tokens(), self.pos(), text@),
            decreases self.remaining(),
        {
            let t = self.advance();
            let piece = token_text_of(&t.node);
            text.append(piece.as_str());
        }
        text
    }

    /// The constructors of the indexed form from here on, after those in
    /// `constructors`.
    fn parse_indexed_constructors(&mut self, constructors: Vec<Constructor>) -> (r: Vec<Constructor>)
        requires
            old(self).wf(),
        ensures
            advanced(*old(self), *final(self)),
            (constructors_view(r@), final(self).pos()) == indexed_constructors(old(self).tokens(), old(self).pos(),
                constructors_view(constructors@)),
        decreases old(self).remaining(),
    {
        let ghost ts = self.tokens();
        let ghost p = self.pos();
        if self.at(TokenKind::EOF) || self.is_non_constructor_decl() {
            return constructors;
        }
        proof {
            lemma_newlines_end(ts, p);
        }
        self.skip_newlines();
        if self.at(TokenKind::EOF) || self.is_non_constructor_decl() {
            return constructors;
        }
        let c_name = if self.at(TokenKind::LParen) {
            self.advance();
            let op_name = self.parse_operator_text(String::new());
            if self.at(TokenKind::RParen) {
                self.advance();
            }
            op_name
        } else {
            let t = self.advance();
            match t.node {
                Token::Identifier(n) => n,
                _ => {
                    return constructors;
                },
            }
        };
        if self.at(TokenKind::Colon) {
            self.advance();
            self.skip_constructor_type();
        }
        let mut constructors = constructors;
        push_constructor(&mut constructors, c_name);
        let ghost j2 = self.pos();
        proof {
            lemma_newlines_end(ts, j2);
        }
        self.skip_newlines();
        self.parse_indexed_constructors(constructors)
    }

    /// Passes a constructor's type in the indexed form: up to a line that
    /// starts a top-level construct, or the end.
    fn skip_constructor_type(&mut self)
        requires
            old(self).wf(),
        ensures
            advanced(*old(self), *final(self)),
            final(self).pos() == skip_signature(old(self).tokens(), old(self).pos()),
    {
        while !self.at(TokenKind::EOF)
            invariant_except_break
                skip_signature(old(self).tokens(), old(self).pos()) == skip_signature(self.tokens(), self.pos()),
            invariant
                self.wf(),
                advanced(*old(self), *self),
            ensures
                skip_signature(old(self).tokens(), old(self).pos()) == self.pos(),
            decreases self.remaining(),
        {
            if self.at(TokenKind::Newline) {
                self.advance();
                if self.is_top_level_token() {
                    break;
                }
                continue;
            }
            self.advance();
        }
    }

    /// The constructors of the simple form from here on, after those in
    /// `constructors`.
    fn parse_simple_constructors(&mut self, constructors: Vec<Constructor>) -> (r: Vec<Constructor>)
        requires
            old(self).wf(),
        ensures
            advanced(*old(self), *final(self)),
            (constructors_view(r@), final(self).pos()) == simple_constructors(old(self).tokens(), old(self).pos(),
                constructors_view(constructors@)),
        decreases old(self).remaining(),
    {
        let ghost ts = self.tokens();
        let ghost p = self.pos();
        if self.at(TokenKind::EOF) {
            return constructors;
        }
        proof {
            lemma_newlines_end(ts, p);
        }
        self.skip_newlines();
        let t = self.advance();
        let c_name = match t.node {
            Token::Identifier(n) => n,
            _ => {
                return constructors;
            },
        };
        self.skip_to_bar_or_newline();
        let mut constructors = constructors;
        push_constructor(&mut constructors, c_name);
        proof {
            lemma_newlines_end(ts, self.pos());
        }
        self.skip_newlines();
        if self.at(TokenKind::Pipe) {
            self.advance();
            return self.parse_simple_constructors(constructors);
        }
        constructors
    }

    /// Passes tokens up to a `|`, a line break or the end.
    fn skip_to_bar_or_newline(&mut self)
        requires
            old(self).wf(),
        ensures
            advanced(*old(self), *final(self)),
            final(self).pos() == skip_to_bar_or_line(old(self).tokens(), old(self).pos()),
    {
        while !self.at(TokenKind::Pipe) && !self.at(TokenKind::Newline) && !self.at(TokenKind::EOF)
            invariant
                self.wf(),
                advanced(*old(self), *self),
                skip_to_bar_or_line(old(self).tokens(), old(self).pos()) == skip_to_bar_or_line(self.tokens(), self.pos()),
            decreases self.remaining(),
        {
            self.advance();
        }
    }

    /// Whether the current token can start a top-level construct.
    fn is_top_level_token(&self) -> (r: bool)
        ensures
            r == top_level_kind(crate::scanner::token_kind(self.current())),
    {
        let k = self.peek_kind();
        k == TokenKind::Identifier || k == TokenKind::LParen || k == TokenKind::Data || k
            == TokenKind::Module || k == TokenKind::Import || k == TokenKind::Interface || k
            == TokenKind::Implementation || k == TokenKind::Record || k == TokenKind::Mutual || k
            == TokenKind::LBracket
    }

    /// Whether the current token starts a declaration that is not a
    /// constructor of an indexed data type.
    fn is_non_constructor_decl(&self) -> (r: bool)
        ensures
            r == non_constructor_decl(self.current()),
    {
        let k = self.peek_kind();
        if k == TokenKind::Data || k == TokenKind::Module || k == TokenKind::Import || k
            == TokenKind::Interface || k == TokenKind::Implementation || k == TokenKind::Record || k
            == TokenKind::Mutual || k == TokenKind::LBracket {
            return true;
        }
        match self.peek() {
            Token::Identifier(n) => is_modifier(n.as_str()),
            _ => false,
        }
    }

    /// Parses `interface Name params where` and passes over its body.
    fn parse_interface(&mut self) -> (r: Result<Term, CompilerError>)
        requires
            old(self).wf(),
            old(self).pos() < old(self).tokens().len(),
        ensures
            advanced(*old(self), *final(self)),
            old(self).pos() < final(self).pos(),
            agrees(r, final(self).pos(), interface_spec(old(self).tokens(), old(self).pos())),
    {
        self.advance();
        let name_token = self.advance();
        let name = match name_token.node {
            Token::Identifier(n) => n,
            _ => {
                return Err(error_at(name_token, "Expected interface name"));
            },
        };
        let params = self.parse_name_list(TokenKind::Where);
        if self.at(TokenKind::Where) {
            self.advance();
        }
        self.skip_indented_block();
        let r = Term::Interface(name, params, Vec::new());
        proof {
            assert(terms_view(Seq::<Term>::empty()) =~= Seq::<SpecTerm>::empty());
        }
        Ok(r)
    }

    /// The target of an implementation head: the last identifier before
    /// `where`, a line break or the end; a `where` body is passed over.
    fn implementation_target(&mut self) -> (r: String)
        requires
            old(self).wf(),
        ensures
            advanced(*old(self), *final(self)),
            (r@, final(self).pos()) == impl_target(old(self).tokens(), old(self).pos()),
    {
        let mut target = String::new();
        while !self.at(TokenKind::Where) && !self.at(TokenKind::Newline) && !self.at(TokenKind::EOF)
            invariant
                self.wf(),
                advanced(*old(self), *self),
                target_name(old(self).tokens(), old(self).pos(), Seq::empty()) == target_name(self.tokens(),
                    self.pos(), target@),
            decreases self.remaining(),
        {
            let t = self.advance();
            match t.node {
                Token::Identifier(n) => target = n,
                _ => {},
            }
        }
        if self.at(TokenKind::Where) {
            self.advance();
            self.skip_indented_block();
        }
        target
    }

    /// Parses `implementation Interface Target where` and passes over its body.
    fn parse_implementation(&mut self) -> (r: Result<Term, CompilerError>)
        requires
            old(self).wf(),
            old(self).pos() < old(self).tokens().len(),
        ensures
            advanced(*old(self), *final(self)),
            old(self).pos() < final(self).pos(),
            agrees(r, final(self).pos(), implementation_spec(old(self).tokens(), old(self).pos())),
    {
        self.advance();
        let iface_token = self.advance();
        let iface = match iface_token.node {
            Token::Identifier(n) => n,
            _ => {
                return Err(error_at(iface_token, "Expected interface name"));
            },
        };
        let target = self.implementation_target();
        let r = Term::Implementation(iface, target, Vec::new());
        proof {
            assert(terms_view(Seq::<Term>::empty()) =~= Seq::<SpecTerm>::empty());
        }
        Ok(r)
    }

    /// Parses a named implementation `[Name] Interface Target where` and
    /// passes over its body.
    fn parse_named_impl_or_skip(&mut self) -> (r: Result<Term, CompilerError>)
        requires
            old(self).wf(),
            old(self).pos() < old(self).tokens().len(),
        ensures
            advanced(*old(self), *final(self)),
            old(self).pos() < final(self).pos(),
            agrees(r, final(self).pos(), named_impl_spec(old(self).tokens(), old(self).pos())),
    {
        let ghost ts = self.tokens();
        self.advance();
        let _impl_name = match self.advance().node {
            Token::Identifier(n) => n,
            _ => "_named".to_owned(),
        };
        self.consume(Token::RBracket, "Expected ] after named implementation")?;
        proof {
            lemma_newlines_end(ts, self.pos());
        }
        self.skip_newlines();
        let iface = match self.advance().node {
            Token::Identifier(n) => n,
            _ => "_iface".to_owned(),
        };
        let target = self.implementation_target();
        let r = Term::Implementation(iface, target, Vec::new());
        proof {
            assert(terms_view(Seq::<Term>::empty()) =~= Seq::<SpecTerm>::empty());
        }
        Ok(r)
    }

    /// Parses `record Name ... where` and passes over its fields.
    fn parse_record(&mut self) -> (r: Result<Term, CompilerError>)
        requires
            old(self).wf(),
            old(self).pos() < old(self).tokens().len(),
        ensures
            advanced(*old(self), *final(self)),
            old(self).pos() < final(self).pos(),
            agrees(r, final(self).pos(), record_spec(old(self).tokens(), old(self).pos())),
    {
        self.advance();
        let name_token = self.advance();
        let name = match name_token.node {
            Token::Identifier(n) => n,
            _ => {
                return Err(error_at(name_token, "Expected record name"));
            },
        };
        self.skip_until_kind(TokenKind::Where);
        if self.at(TokenKind::Where) {
            self.advance();
        }
        self.skip_indented_block();
        let r = Term::Record(name, Vec::new());
        proof {
            assert(fields_view(Seq::<(String, Box<Term>)>::empty()) =~= Seq::<(Seq<char>, SpecTerm)>::empty());
        }
        Ok(r)
    }

    /// Parses `mutual`.
    fn parse_mutual(&mut self) -> (r: Result<Term, CompilerError>)
        requires
            old(self).wf(),
            old(self).pos() < old(self).tokens().len(),
        ensures
            advanced(*old(self), *final(self)),
            final(self).pos() == old(self).pos() + 1,
            r is Ok,
            r->Ok_0@ == SpecTerm::Mutual(Seq::empty()),
    {
        self.advance();
        let r = Term::Mutual(Vec::new());
        proof {
            assert(terms_view(Seq::<Term>::empty()) =~= Seq::empty());
        }
        Ok(r)
    }

    /// Parses a declaration after its modifiers (`public export`, `total`, ...).
    fn parse_with_modifier(&mut self) -> (r: Result<Term, CompilerError>)
        requires
            old(self).wf(),
            old(self).pos() < old(self).tokens().len(),
        ensures
            advanced(*old(self), *final(self)),
            old(self).pos() < final(self).pos(),
            agrees(r, final(self).pos(), modifier_spec(old(self).tokens(), old(self).pos())),
        decreases old(self).remaining(), 2int,
    {
        let ghost ts = self.tokens();
        proof {
            unfold_modifier_spec(ts, self.pos());
            lemma_newlines_end(ts, self.pos() + 1);
        }
        self.advance();
        self.skip_newlines();
        match self.peek() {
            Token::Identifier(n) => {
                if str_eq(n.as_str(), "export") || str_eq(n.as_str(), "total") || str_eq(
                    n.as_str(),
                    "partial",
                ) || str_eq(n.as_str(), "covering") {
                    proof {
                        lemma_newlines_end(ts, self.pos() + 1);
                    }
                    self.advance();
                    self.skip_newlines();
                }
            },
            _ => {},
        }
        if !self.at(TokenKind::EOF) {
            self.parse_declaration()
        } else {
            Ok(Term::Module("_modifier_eof".to_owned()))
        }
    }

    /// Parses a `parameters` block: its parameter list is passed over and
    /// the declarations after it are parsed; the first one stands for the
    /// block.
    fn parse_parameters_block(&mut self) -> (r: Result<Term, CompilerError>)
        requires
            old(self).wf(),
            old(self).pos() < old(self).tokens().len(),
        ensures
            advanced(*old(self), *final(self)),
            old(self).pos() < final(self).pos(),
            agrees(r, final(self).pos(), parameters_spec(old(self).tokens(), old(self).pos())),
        decreases old(self).remaining(), 2int,
    {
        let ghost ts = self.tokens();
        proof {
            unfold_parameters_spec(ts, self.pos());
        }
        self.advance();
        if self.at(TokenKind::LParen) {
            self.advance();
            self.skip_balanced_parens();
        }
        proof {
            lemma_newlines_end(ts, self.pos());
        }
        self.skip_newlines();
        let none: Vec<Term> = Vec::new();
        proof {
            assert(terms_view(none@) =~= Seq::<SpecTerm>::empty());
        }
        let mut decls = self.parse_block_declarations(none);
        if decls.len() > 0 {
            proof {
                lemma_terms_view_index(decls@, 0);
            }
            Ok(decls.remove(0))
        } else {
            Ok(Term::Module("_params_block".to_owned()))
        }
    }

    /// The declarations of a block from here on, after those in `decls`,
    /// up to the end or the first one that fails.
    fn parse_block_declarations(&mut self, decls: Vec<Term>) -> (r: Vec<Term>)
        requires
            old(self).wf(),
        ensures
            advanced(*old(self), *final(self)),
            (terms_view(r@), final(self).pos()) == block_declarations(old(self).tokens(), old(self).pos(),
                terms_view(decls@)),
        decreases old(self).remaining(), 4int,
    {
        let ghost ts = self.tokens();
        let ghost p = self.pos();
        proof {
            unfold_block_declarations(ts, p, terms_view(decls@));
            lemma_newlines_end(ts, p);
        }
        if self.at(TokenKind::EOF) {
            return decls;
        }
        self.skip_newlines();
        if self.at(TokenKind::EOF) {
            return decls;
        }
        match self.parse_declaration() {
            Ok(d) => {
                let mut decls = decls;
                let ghost before = decls@;
                decls.push(d);
                proof {
                    assert(decls@.drop_last() =~= before);
                }
                self.parse_block_declarations(decls)
            },
            Err(_) => decls,
        }
    }

    /// Parses a signature as a declaration; the declaration is its type.
    fn parse_signature_decl(&mut self) -> (r: Result<Term, CompilerError>)
        requires
            old(self).wf(),
            old(self).pos() < old(self).tokens().len(),
        ensures
            advanced(*old(self), *final(self)),
            old(self).pos() < final(self).pos(),
            agrees(r, final(self).pos(), signature_decl_spec(old(self).tokens(), old(self).pos())),
    {
        let (_name, sig) = self.parse_signature()?;
        Ok(sig)
    }

    /// Passes a balanced group whose opening token was just passed, up to
    /// and with its closing token.
    fn skip_group(&mut self, open: TokenKind, close: TokenKind)
        requires
            old(self).wf(),
        ensures
            advanced(*old(self), *final(self)),
            final(self).pos() == skip_group(old(self).tokens(), old(self).pos(), open, close, 1),
    {
        let mut depth: usize = 1;
        while !self.at(TokenKind::EOF) && depth > 0
            invariant
                self.wf(),
                advanced(*old(self), *self),
                depth <= 1 + (self.pos() - old(self).pos()),
                skip_group(old(self).tokens(), old(self).pos(), open, close, 1) == skip_group(self.tokens(), self.pos(),
                    open, close, depth as int),
            decreases self.remaining(),
        {
            let k = self.peek_kind();
            if k == open {
                depth = depth + 1;
            } else if k == close {
                depth = depth - 1;
            }
            self.advance();
        }
    }

    /// Parses a definition `name args = body`, with a `where` clause of
    /// local declarations indented past the name. Argument patterns in
    /// parentheses or brackets, and `@{..}`, are passed over and stand as
    /// placeholders.
    fn parse_definition_decl(&mut self) -> (r: Result<Term, CompilerError>)
        requires
            old(self).wf(),
            old(self).pos() < old(self).tokens().len(),
        ensures
            advanced(*old(self), *final(self)),
            old(self).pos() < final(self).pos(),
            agrees(r, final(self).pos(), definition_spec(old(self).tokens(), old(self).pos())),
        decreases old(self).remaining(), 2int,
    {
        let ghost ts = self.tokens();
        let ghost i = self.pos();
        proof {
            unfold_definition_spec(ts, i);
        }
        let name_token = self.advance();
        let def_col = name_token.span.col;
        let name = match name_token.node {
            Token::Identifier(n) => n,
            Token::Integer(v) => i64_to_text(v),
            Token::LParen => {
                let mut op_name = self.parse_operator_text("(".to_owned());
                if self.at(TokenKind::RParen) {
                    self.advance();
                }
                op_name.append(")");
                op_name
            },
            _ => {
                self.skip_until_kind(TokenKind::Newline);
                return Ok(Term::Module("_skip_def".to_owned()));
            },
        };
        let none: Vec<String> = Vec::new();
        proof {
            assert(names_view(none@) =~= Seq::<Seq<char>>::empty());
        }
        let args = self.parse_def_args(none);
        if self.at(TokenKind::Where) {
            self.advance();
            self.skip_indented_block();
            return Ok(Term::Def(name, args, Box::new(var("_where"))));
        }
        if self.at(TokenKind::Assign) {
            self.consume(Token::Assign, "Expected = in definition")?;
            let mut body = self.parse_expr()?;
            proof {
                lemma_newlines_end(ts, self.pos());
            }
            self.skip_newlines();
            if self.at(TokenKind::Where) {
                proof {
                    lemma_newlines_end(ts, self.pos() + 1);
                }
                self.advance();
                self.skip_newlines();
                let none_decls: Vec<Term> = Vec::new();
                proof {
                    assert(terms_view(none_decls@) =~= Seq::<SpecTerm>::empty());
                }
                let local_decls = self.parse_where_declarations(def_col, none_decls);
                if local_decls.len() > 0 {
                    body = Term::Where(Box::new(body), local_decls);
                }
            }
            assert(definition_spec(ts, i) == Ok::<(SpecTerm, int), (SyntaxError, int)>(
                (SpecTerm::Def(name@, names_view(args@), Box::new(body@)), self.pos()),
            ));
            Ok(Term::Def(name, args, Box::new(body)))
        } else {
            self.skip_until_kind(TokenKind::Newline);
            Ok(Term::Def(name, args, Box::new(var("_no_eq"))))
        }
    }

    /// The arguments of a definition from here on, after those in `args`.
    fn parse_def_args(&mut self, args: Vec<String>) -> (r: Vec<String>)
        requires
            old(self).wf(),
        ensures
            advanced(*old(self), *final(self)),
            (names_view(r@), final(self).pos()) == def_args(old(self).tokens(), old(self).pos(), names_view(args@)),
        decreases old(self).remaining(),
    {
        let ghost ts = self.tokens();
        let ghost p = self.pos();
        let ghost before = args@;
        let k = self.peek_kind();
        if k == TokenKind::Assign || k == TokenKind::EOF || k == TokenKind::Where {
            return args;
        }
        let mut args = args;
        if k == TokenKind::Newline {
            self.advance();
            return self.parse_def_args(args);
        }
        if k == TokenKind::Identifier || k == TokenKind::Integer || k == TokenKind::LParen || k == TokenKind::LBracket
            || k == TokenKind::Underscore {
            let arg_token = self.advance();
            match arg_token.node {
                Token::Identifier(arg) => args.push(arg),
                Token::Integer(v) => args.push(i64_to_text(v)),
                Token::LParen => {
                    self.skip_group(TokenKind::LParen, TokenKind::RParen);
                    args.push("_pat".to_owned());
                },
                Token::LBracket => {
                    self.skip_group(TokenKind::LBracket, TokenKind::RBracket);
                    args.push("_list_pat".to_owned());
                },
                _ => args.push("_".to_owned()),
            }
            proof {
                assert(names_view(args@) =~= names_view(before).push(args@.last()@));
            }
            return self.parse_def_args(args);
        }
        if k == TokenKind::At {
            self.advance();
            if self.at(TokenKind::LBrace) {
                self.advance();
                self.skip_until_kind(TokenKind::RBrace);
                if self.at(TokenKind::RBrace) {
                    self.advance();
                }
            }
            args.push("_at".to_owned());
            proof {
                assert(names_view(args@) =~= names_view(before).push(args@.last()@));
            }
            return self.parse_def_args(args);
        }
        if k == TokenKind::Pipe {
            self.skip_until_kind(TokenKind::Assign);
            return args;
        }
        self.advance();
        self.parse_def_args(args)
    }

    /// The local declarations of a `where` clause from here on, after those
    /// in `decls`: those whose first token lies in a column past `col`.
    fn parse_where_declarations(&mut self, col: usize, decls: Vec<Term>) -> (r: Vec<Term>)
        requires
            old(self).wf(),
        ensures
            advanced(*old(self), *final(self)),
            (terms_view(r@), final(self).pos()) == where_declarations(old(self).tokens(), old(self).pos(), col,
                terms_view(decls@)),
        decreases old(self).remaining(), 4int,
    {
        let ghost ts = self.tokens();
        let ghost p = self.pos();
        proof {
            unfold_where_declarations(ts, p, col, terms_view(decls@));
            lemma_newlines_end(ts, p);
        }
        if self.at(TokenKind::EOF) || self.at(TokenKind::RParen) {
            return decls;
        }
        if self.at(TokenKind::Newline) {
            self.skip_newlines();
            return self.parse_where_declarations(col, decls);
        }
        if self.peek_span().col <= col {
            return decls;
        }
        match self.parse_declaration() {
            Ok(d) => {
                let mut decls = decls;
                let ghost before = decls@;
                decls.push(d);
                proof {
                    assert(decls@.drop_last() =~= before);
                    lemma_newlines_end(ts, self.pos());
                }
                self.skip_newlines();
                self.parse_where_declarations(col, decls)
            },
            Err(_) => decls,
        }
    }

    /// Parses a definition `name args = body` whose arguments are all
    /// identifiers, and returns the body, the name and the arguments.
    pub fn parse_def(&mut self) -> (r: Result<(Term, String, Vec<String>), CompilerError>)
        requires
            old(self).wf(),
            kind_at(old(self).tokens(), old(self).pos()) == TokenKind::Identifier,
            plain_arguments(old(self).tokens(), old(self).pos() + 1),
        ensures
            advanced(*old(self), *final(self)),
            old(self).pos() < final(self).pos(),
            r is Ok ==> r->Ok_0.1@ == node_at(old(self).tokens(), old(self).pos())->Identifier_0@,
            match plain_def_spec(old(self).tokens(), old(self).pos()) {
                Ok((b, n, args, q)) => r is Ok && r->Ok_0.0@ == b && r->Ok_0.1@ == n && names_view(r->Ok_0.2@) == args
                    && final(self).pos() == q,
                Err((e, q)) => r is Err && error_model(r->Err_0) == Some(e) && final(self).pos() == q,
            },
    {
        let name_token = self.advance();
        let name = match name_token.node {
            Token::Identifier(n) => n,
            _ => {
                return Err(error_at(name_token, "Expected identifier in definition"));
            },
        };
        let mut args: Vec<String> = Vec::new();
        proof {
            assert(names_view(args@) =~= Seq::<Seq<char>>::empty());
        }
        while !self.at(TokenKind::Assign) && !self.at(TokenKind::EOF)
            invariant
                self.wf(),
                advanced(*old(self), *self),
                old(self).pos() < self.pos(),
                plain_arguments(self.tokens(), self.pos()),
                plain_names(old(self).tokens(), old(self).pos() + 1, Seq::empty()) == plain_names(self.tokens(),
                    self.pos(), names_view(args@)),
            decreases self.remaining(),
        {
            let ghost before = args@;
            let arg_token = self.advance();
            match arg_token.node {
                Token::Identifier(arg) => {
                    args.push(arg);
                    proof {
                        assert(names_view(args@) =~= names_view(before).push(args@.last()@));
                    }
                },
                _ => {},
            }
        }
        self.consume(Token::Assign, "Expected = in definition")?;
        let body = self.parse_expr()?;
        Ok((body, name, args))
    }

    /// Whether a definition whose arguments are all identifiers starts
    /// here, as `parse_def` expects.
    pub fn starts_plain_definition(&self) -> (r: bool)
        requires
            self.wf(),
        ensures
            r == (kind_at(self.tokens(), self.pos()) == TokenKind::Identifier && plain_arguments(
                self.tokens(),
                self.pos() + 1,
            )),
    {
        if !self.at(TokenKind::Identifier) {
            return false;
        }
        let mut idx: usize = 1;
        loop
            invariant
                self.wf(),
                1 <= idx,
                self.pos() + idx <= self.tokens().len(),
                kind_at(self.tokens(), self.pos()) == TokenKind::Identifier,
                plain_arguments(self.tokens(), self.pos() + 1) == plain_arguments(self.tokens(), self.pos() + idx),
            decreases self.tokens().len() - idx,
        {
            match self.peek_kind_at(idx) {
                Some(k) => {
                    if k == TokenKind::Assign || k == TokenKind::EOF {
                        return true;
                    }
                    if k != TokenKind::Identifier {
                        return false;
                    }
                },
                None => {
                    return true;
                },
            }
            idx = idx + 1;
        }
    }

    /// Passes an indented block: tokens up to a line that starts a
    /// top-level construct, or a declaration keyword or modifier, or the end.
    fn skip_indented_block(&mut self)
        requires
            old(self).wf(),
        ensures
            advanced(*old(self), *final(self)),
            final(self).pos() == skip_indented(old(self).tokens(), old(self).pos()),
    {
        let ghost ts = self.tokens();
        proof {
            lemma_newlines_end(ts, self.pos());
        }
        self.skip_newlines();
        let ghost start = self.pos();
        while !self.at(TokenKind::EOF)
            invariant_except_break
                block_end(ts, start) == block_end(ts, self.pos()),
            invariant
                self.wf(),
                self.tokens() == ts,
                advanced(*old(self), *self),
                start == newlines_end(ts, old(self).pos()),
            ensures
                block_end(ts, start) == self.pos(),
            decreases self.remaining(),
        {
            if self.at(TokenKind::Newline) {
                proof {
                    lemma_newlines_end(ts, self.pos() + 1);
                }
                self.advance();
                self.skip_newlines();
                if self.is_top_level_token() || self.at(TokenKind::EOF) {
                    break;
                }
                continue;
            }
            if self.is_non_constructor_decl() {
                break;
            }
            self.advance();
        }
    }
}

/// Adds a constructor without fields.
fn push_constructor(constructors: &mut Vec<Constructor>, name: String)
    ensures
        constructors_view(final(constructors)@) == constructors_view(old(constructors)@).push(constructor(name@)),
{
    let ghost before = constructors@;
    constructors.push(Constructor { name, fields: Vec::new() });
    proof {
        assert(constructors@.drop_last() =~= before);
        assert(boxed_view(Seq::<Box<Term>>::empty()) =~= Seq::<SpecTerm>::empty());
    }
}

} // verus!
