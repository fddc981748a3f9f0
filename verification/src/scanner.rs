//! The tokens of the language and the scanner that produces them from
//! source text, with the line and column of each token.
use vstd::prelude::*;
use crate::chars::{
    chars_of, i64_to_text, int_text,
    digit_value, is_alphabetic, is_alphanumeric, is_decimal_digit, is_digit,
    lemma_utf8_len_bounds, push_char, alphabetic, alphanumeric, utf8_len,
    utf8_width,
};
use crate::cursor::Cursor;
use crate::errors::{CompilerError, LexError, Span, Spanned};
use crate::text::str_eq;
use crate::show::{char_debug_text, char_quoted, quoted, quoted_text};

verus! {

/// A token of the language.
#[derive(Debug, Clone, PartialEq, Eq)]
pub enum Token {
    Identifier(String),
    Integer(i64),
    /// A floating-point literal, as written.
    Float(String),
    String(String),
    Char(char),
    If,
    Then,
    Else,
    Let,
    In,
    Case,
    Of,
    Data,
    Interface,
    Implementation,
    Record,
    Mutual,
    Where,
    Do,
    Module,
    Import,
    /// `=`
    Assign,
    /// `->`
    Arrow,
    /// `=>`
    FatArrow,
    /// `<-`
    Bind,
    /// `:`
    Colon,
    /// `|`
    Pipe,
    /// `(`
    LParen,
    /// `)`
    RParen,
    /// a backtick
    Backtick,
    /// `{`
    LBrace,
    /// `}`
    RBrace,
    /// `[`
    LBracket,
    /// `]`
    RBracket,
    /// `;`
    Semi,
    /// `,`
    Comma,
    /// `.`
    Dot,
    /// `++`
    Append,
    /// a line break
    Newline,
    /// `?`
    Question,
    /// a backslash
    Backslash,
    /// `$`
    Dollar,
    /// `**`
    DoubleStar,
    /// `#`
    Hash,
    /// a standalone underscore
    Underscore,
    /// `@`
    At,
    /// `==`
    Eq,
    /// `+`
    Plus,
    /// `-`
    Minus,
    /// `*`
    Star,
    /// `/`
    Slash,
    /// `<`
    Lt,
    /// `>`
    Gt,
    /// `.&.`
    BitAnd,
    /// `.|.`
    BitOr,
    /// `xor`
    Xor,
    /// `shiftL`
    ShiftL,
    /// `shiftR`
    ShiftR,
    /// `complement`
    Complement,
    /// the end of the input
    EOF,
}

/// The variant of a token, without its payload.
#[derive(Debug, Clone, Copy, PartialEq, Eq, Structural)]
pub enum TokenKind {
    Identifier,
    Integer,
    Float,
    String,
    Char,
    If,
    Then,
    Else,
    Let,
    In,
    Case,
    Of,
    Data,
    Interface,
    Implementation,
    Record,
    Mutual,
    Where,
    Do,
    Module,
    Import,
    Assign,
    Arrow,
    FatArrow,
    Bind,
    Colon,
    Pipe,
    LParen,
    RParen,
    Backtick,
    LBrace,
    RBrace,
    LBracket,
    RBracket,
    Semi,
    Comma,
    Dot,
    Append,
    Newline,
    Question,
    Backslash,
    Dollar,
    DoubleStar,
    Hash,
    Underscore,
    At,
    Eq,
    Plus,
    Minus,
    Star,
    Slash,
    Lt,
    Gt,
    BitAnd,
    BitOr,
    Xor,
    ShiftL,
    ShiftR,
    Complement,
    EOF,
}

/// The variant of a token.
pub open spec fn token_kind(t: Token) -> TokenKind {
    match t {
        Token::Identifier(_) => TokenKind::Identifier,
        Token::Integer(_) => TokenKind::Integer,
        Token::Float(_) => TokenKind::Float,
        Token::String(_) => TokenKind::String,
        Token::Char(_) => TokenKind::Char,
        Token::If => TokenKind::If,
        Token::Then => TokenKind::Then,
        Token::Else => TokenKind::Else,
        Token::Let => TokenKind::Let,
        Token::In => TokenKind::In,
        Token::Case => TokenKind::Case,
        Token::Of => TokenKind::Of,
        Token::Data => TokenKind::Data,
        Token::Interface => TokenKind::Interface,
        Token::Implementation => TokenKind::Implementation,
        Token::Record => TokenKind::Record,
        Token::Mutual => TokenKind::Mutual,
        Token::Where => TokenKind::Where,
        Token::Do => TokenKind::Do,
        Token::Module => TokenKind::Module,
        Token::Import => TokenKind::Import,
        Token::Assign => TokenKind::Assign,
        Token::Arrow => TokenKind::Arrow,
        Token::FatArrow => TokenKind::FatArrow,
        Token::Bind => TokenKind::Bind,
        Token::Colon => TokenKind::Colon,
        Token::Pipe => TokenKind::Pipe,
        Token::LParen => TokenKind::LParen,
        Token::RParen => TokenKind::RParen,
        Token::Backtick => TokenKind::Backtick,
        Token::LBrace => TokenKind::LBrace,
        Token::RBrace => TokenKind::RBrace,
        Token::LBracket => TokenKind::LBracket,
        Token::RBracket => TokenKind::RBracket,
        Token::Semi => TokenKind::Semi,
        Token::Comma => TokenKind::Comma,
        Token::Dot => TokenKind::Dot,
        Token::Append => TokenKind::Append,
        Token::Newline => TokenKind::Newline,
        Token::Question => TokenKind::Question,
        Token::Backslash => TokenKind::Backslash,
        Token::Dollar => TokenKind::Dollar,
        Token::DoubleStar => TokenKind::DoubleStar,
        Token::Hash => TokenKind::Hash,
        Token::Underscore => TokenKind::Underscore,
        Token::At => TokenKind::At,
        Token::Eq => TokenKind::Eq,
        Token::Plus => TokenKind::Plus,
        Token::Minus => TokenKind::Minus,
        Token::Star => TokenKind::Star,
        Token::Slash => TokenKind::Slash,
        Token::Lt => TokenKind::Lt,
        Token::Gt => TokenKind::Gt,
        Token::BitAnd => TokenKind::BitAnd,
        Token::BitOr => TokenKind::BitOr,
        Token::Xor => TokenKind::Xor,
        Token::ShiftL => TokenKind::ShiftL,
        Token::ShiftR => TokenKind::ShiftR,
        Token::Complement => TokenKind::Complement,
        Token::EOF => TokenKind::EOF,
    }
}

/// The model of a token: its variant, its text (identifiers, strings and
/// floating-point literals), its integer and its character.
pub struct TokenModel {
    pub kind: TokenKind,
    pub text: Seq<char>,
    pub int: i64,
    pub ch: char,
}

/// The model of a token without payload.
pub open spec fn unit_model(k: TokenKind) -> TokenModel {
    TokenModel { kind: k, text: Seq::empty(), int: 0, ch: ' ' }
}

/// The model of a token.
pub open spec fn token_model(t: Token) -> TokenModel {
    match t {
        Token::Identifier(s) => TokenModel { kind: TokenKind::Identifier, text: s@, int: 0, ch: ' ' },
        Token::Integer(n) => TokenModel { kind: TokenKind::Integer, text: Seq::empty(), int: n, ch: ' ' },
        Token::Float(s) => TokenModel { kind: TokenKind::Float, text: s@, int: 0, ch: ' ' },
        Token::String(s) => TokenModel { kind: TokenKind::String, text: s@, int: 0, ch: ' ' },
        Token::Char(c) => TokenModel { kind: TokenKind::Char, text: Seq::empty(), int: 0, ch: c },
        _ => unit_model(token_kind(t)),
    }
}

impl Token {
    /// The variant of this token.
    pub fn kind(&self) -> (k: TokenKind)
        ensures
            k == token_kind(*self),
    {
        match self {
            Token::Identifier(_) => TokenKind::Identifier,
            Token::Integer(_) => TokenKind::Integer,
            Token::Float(_) => TokenKind::Float,
            Token::String(_) => TokenKind::String,
            Token::Char(_) => TokenKind::Char,
            Token::If => TokenKind::If,
            Token::Then => TokenKind::Then,
            Token::Else => TokenKind::Else,
            Token::Let => TokenKind::Let,
            Token::In => TokenKind::In,
            Token::Case => TokenKind::Case,
            Token::Of => TokenKind::Of,
            Token::Data => TokenKind::Data,
            Token::Interface => TokenKind::Interface,
            Token::Implementation => TokenKind::Implementation,
            Token::Record => TokenKind::Record,
            Token::Mutual => TokenKind::Mutual,
            Token::Where => TokenKind::Where,
            Token::Do => TokenKind::Do,
            Token::Module => TokenKind::Module,
            Token::Import => TokenKind::Import,
            Token::Assign => TokenKind::Assign,
            Token::Arrow => TokenKind::Arrow,
            Token::FatArrow => TokenKind::FatArrow,
            Token::Bind => TokenKind::Bind,
            Token::Colon => TokenKind::Colon,
            Token::Pipe => TokenKind::Pipe,
            Token::LParen => TokenKind::LParen,
            Token::RParen => TokenKind::RParen,
            Token::Backtick => TokenKind::Backtick,
            Token::LBrace => TokenKind::LBrace,
            Token::RBrace => TokenKind::RBrace,
            Token::LBracket => TokenKind::LBracket,
            Token::RBracket => TokenKind::RBracket,
            Token::Semi => TokenKind::Semi,
            Token::Comma => TokenKind::Comma,
            Token::Dot => TokenKind::Dot,
            Token::Append => TokenKind::Append,
            Token::Newline => TokenKind::Newline,
            Token::Question => TokenKind::Question,
            Token::Backslash => TokenKind::Backslash,
            Token::Dollar => TokenKind::Dollar,
            Token::DoubleStar => TokenKind::DoubleStar,
            Token::Hash => TokenKind::Hash,
            Token::Underscore => TokenKind::Underscore,
            Token::At => TokenKind::At,
            Token::Eq => TokenKind::Eq,
            Token::Plus => TokenKind::Plus,
            Token::Minus => TokenKind::Minus,
            Token::Star => TokenKind::Star,
            Token::Slash => TokenKind::Slash,
            Token::Lt => TokenKind::Lt,
            Token::Gt => TokenKind::Gt,
            Token::BitAnd => TokenKind::BitAnd,
            Token::BitOr => TokenKind::BitOr,
            Token::Xor => TokenKind::Xor,
            Token::ShiftL => TokenKind::ShiftL,
            Token::ShiftR => TokenKind::ShiftR,
            Token::Complement => TokenKind::Complement,
            Token::EOF => TokenKind::EOF,
        }
    }

    /// A copy of this token.
    pub fn duplicate(&self) -> (r: Token)
        ensures
            r == *self,
    {
        match self {
            Token::Identifier(s) => Token::Identifier(s.clone()),
            Token::Integer(n) => Token::Integer(*n),
            Token::Float(s) => Token::Float(s.clone()),
            Token::String(s) => Token::String(s.clone()),
            Token::Char(c) => Token::Char(*c),
            Token::If => Token::If,
            Token::Then => Token::Then,
            Token::Else => Token::Else,
            Token::Let => Token::Let,
            Token::In => Token::In,
            Token::Case => Token::Case,
            Token::Of => Token::Of,
            Token::Data => Token::Data,
            Token::Interface => Token::Interface,
            Token::Implementation => Token::Implementation,
            Token::Record => Token::Record,
            Token::Mutual => Token::Mutual,
            Token::Where => Token::Where,
            Token::Do => Token::Do,
            Token::Module => Token::Module,
            Token::Import => Token::Import,
            Token::Assign => Token::Assign,
            Token::Arrow => Token::Arrow,
            Token::FatArrow => Token::FatArrow,
            Token::Bind => Token::Bind,
            Token::Colon => Token::Colon,
            Token::Pipe => Token::Pipe,
            Token::LParen => Token::LParen,
            Token::RParen => Token::RParen,
            Token::Backtick => Token::Backtick,
            Token::LBrace => Token::LBrace,
            Token::RBrace => Token::RBrace,
            Token::LBracket => Token::LBracket,
            Token::RBracket => Token::RBracket,
            Token::Semi => Token::Semi,
            Token::Comma => Token::Comma,
            Token::Dot => Token::Dot,
            Token::Append => Token::Append,
            Token::Newline => Token::Newline,
            Token::Question => Token::Question,
            Token::Backslash => Token::Backslash,
            Token::Dollar => Token::Dollar,
            Token::DoubleStar => Token::DoubleStar,
            Token::Hash => Token::Hash,
            Token::Underscore => Token::Underscore,
            Token::At => Token::At,
            Token::Eq => Token::Eq,
            Token::Plus => Token::Plus,
            Token::Minus => Token::Minus,
            Token::Star => Token::Star,
            Token::Slash => Token::Slash,
            Token::Lt => Token::Lt,
            Token::Gt => Token::Gt,
            Token::BitAnd => Token::BitAnd,
            Token::BitOr => Token::BitOr,
            Token::Xor => Token::Xor,
            Token::ShiftL => Token::ShiftL,
            Token::ShiftR => Token::ShiftR,
            Token::Complement => Token::Complement,
            Token::EOF => Token::EOF,
        }
    }
}

/// A copy of a token with its span.
pub fn duplicate_spanned(t: &Spanned<Token>) -> (r: Spanned<Token>)
    ensures
        r == *t,
{
    Spanned { node: t.node.duplicate(), span: t.span }
}

/// A span as the scanner makes it: the column is `col` less `len`, and 0
/// where that would be negative.
pub open spec fn span_at(line: int, col: int, len: int) -> Span {
    Span { line: line as usize, col: (if col >= len { col - len } else { 0 }) as usize, len: len as usize }
}

/// The model of an error of the scanner: span, character and message.
pub struct LexModel {
    pub span: Span,
    pub character: char,
    pub message: Seq<char>,
}

/// The state of the scanner: the position in the input, the line and
/// column there, and the tokens so far.
pub struct ScanState {
    pub pos: int,
    pub line: int,
    pub col: int,
    pub tokens: Seq<(TokenModel, Span)>,
}

/// The line and column after passing character `c`.
pub open spec fn next_line(c: char, line: int) -> int {
    if c == '\n' { line + 1 } else { line }
}

/// The column after passing character `c`.
pub open spec fn next_col(c: char, col: int) -> int {
    if c == '\n' { 1 } else { col + 1 }
}

/// The line after passing `s[from..to]`, starting on `line`.
pub open spec fn line_after(s: Seq<char>, from: int, to: int, line: int) -> int
    decreases to - from,
{
    if to <= from {
        line
    } else {
        next_line(s[to - 1], line_after(s, from, to - 1, line))
    }
}

/// The column after passing `s[from..to]`, starting on line `line` at `col`.
pub open spec fn col_after(s: Seq<char>, from: int, to: int, col: int) -> int
    decreases to - from,
{
    if to <= from {
        col
    } else {
        next_col(s[to - 1], col_after(s, from, to - 1, col))
    }
}

/// The first index from `i` on that holds `stop`, or the length.
pub open spec fn find_char(s: Seq<char>, i: int, stop: char) -> int
    decreases s.len() - i,
{
    if i >= s.len() || i < 0 {
        s.len() as int
    } else if s[i] == stop {
        i
    } else {
        find_char(s, i + 1, stop)
    }
}

/// Whether `c` may continue an identifier.
pub open spec fn ident_char(c: char) -> bool {
    alphanumeric(c) || c == '_' || c == '.' || c == '\''
}

/// The end of the identifier characters from `i` on.
pub open spec fn ident_end(s: Seq<char>, i: int) -> int
    decreases s.len() - i,
{
    if i >= s.len() || i < 0 {
        s.len() as int
    } else if ident_char(s[i]) {
        ident_end(s, i + 1)
    } else {
        i
    }
}

/// Whether a `.` at `i` continues a number: a digit follows it.
pub open spec fn number_dot(s: Seq<char>, i: int) -> bool {
    s[i] == '.' && i + 1 < s.len() && is_decimal_digit(s[i + 1])
}

/// The end of the rest of a number from `i` on: digits, and dots that a
/// digit follows.
pub open spec fn number_end(s: Seq<char>, i: int) -> int
    decreases s.len() - i,
{
    if i >= s.len() || i < 0 {
        s.len() as int
    } else if is_decimal_digit(s[i]) || number_dot(s, i) {
        number_end(s, i + 1)
    } else {
        i
    }
}

/// Whether the rest of a number from `i` on has a dot, which makes it a
/// floating-point literal.
pub open spec fn number_has_dot(s: Seq<char>, i: int) -> bool
    decreases s.len() - i,
{
    if i >= s.len() || i < 0 {
        false
    } else if number_dot(s, i) {
        true
    } else if is_decimal_digit(s[i]) {
        number_has_dot(s, i + 1)
    } else {
        false
    }
}

/// The value of a sequence of decimal digits.
pub open spec fn digits_value(t: Seq<char>) -> int
    decreases t.len(),
{
    if t.len() == 0 {
        0
    } else {
        digits_value(t.drop_last()) * 10 + digit_value(t.last())
    }
}

/// The integer that a run of digits denotes: its value, or 0 when that
/// does not fit in an `i64`.
pub open spec fn integer_literal(t: Seq<char>) -> i64 {
    if digits_value(t) <= i64::MAX { digits_value(t) as i64 } else { 0 }
}

/// The token of a word: a keyword, or an identifier.
pub open spec fn word_token(t: Seq<char>) -> TokenModel {
    if t == "if"@ { unit_model(TokenKind::If) }
    else if t == "then"@ { unit_model(TokenKind::Then) }
    else if t == "else"@ { unit_model(TokenKind::Else) }
    else if t == "let"@ { unit_model(TokenKind::Let) }
    else if t == "in"@ { unit_model(TokenKind::In) }
    else if t == "case"@ { unit_model(TokenKind::Case) }
    else if t == "of"@ { unit_model(TokenKind::Of) }
    else if t == "data"@ { unit_model(TokenKind::Data) }
    else if t == "interface"@ { unit_model(TokenKind::Interface) }
    else if t == "implementation"@ { unit_model(TokenKind::Implementation) }
    else if t == "record"@ { unit_model(TokenKind::Record) }
    else if t == "mutual"@ { unit_model(TokenKind::Mutual) }
    else if t == "where"@ { unit_model(TokenKind::Where) }
    else if t == "do"@ { unit_model(TokenKind::Do) }
    else if t == "module"@ { unit_model(TokenKind::Module) }
    else if t == "import"@ { unit_model(TokenKind::Import) }
    else if t == "xor"@ { unit_model(TokenKind::Xor) }
    else if t == "shiftL"@ { unit_model(TokenKind::ShiftL) }
    else if t == "shiftR"@ { unit_model(TokenKind::ShiftR) }
    else if t == "complement"@ { unit_model(TokenKind::Complement) }
    else { TokenModel { kind: TokenKind::Identifier, text: t, int: 0, ch: ' ' } }
}

/// The model of an identifier token with the given text.
pub open spec fn ident_model(t: Seq<char>) -> TokenModel {
    TokenModel { kind: TokenKind::Identifier, text: t, int: 0, ch: ' ' }
}

/// Adds a token that ends at (`line`, `col`) and is `len` long, and moves
/// to `pos`.
pub open spec fn emit(st: ScanState, pos: int, line: int, col: int, t: TokenModel, len: int) -> ScanState {
    ScanState { pos, line, col, tokens: st.tokens.push((t, span_at(line, col, len))) }
}

/// Moves to `pos` at (`line`, `col`) without a token.
pub open spec fn skip(st: ScanState, pos: int, line: int, col: int) -> ScanState {
    ScanState { pos, line, col, tokens: st.tokens }
}

/// Whether the character at `i` exists and is `c`.
pub open spec fn char_is(s: Seq<char>, i: int, c: char) -> bool {
    0 <= i < s.len() && s[i] == c
}

/// A token of one or two characters: when the character at `p` is
/// `second`, both are taken and the token `two` is added; else `one`.
pub open spec fn one_or_two(
    s: Seq<char>,
    st: ScanState,
    p: int,
    line: int,
    col: int,
    second: char,
    two: TokenKind,
    one: TokenKind,
) -> ScanState {
    if char_is(s, p, second) {
        emit(st, p + 1, line, col + 1, unit_model(two), 2)
    } else {
        emit(st, p, line, col, unit_model(one), 1)
    }
}

/// After a `.` at `p - 1`: `.&.` and `.|.` are bit operators; otherwise a
/// dot, and a `&` or `|` that no `.` follows is passed over with it.
pub open spec fn dot_step(s: Seq<char>, st: ScanState, p: int, line: int, col: int) -> ScanState {
    if char_is(s, p, '&') {
        if char_is(s, p + 1, '.') {
            emit(st, p + 2, line, col + 2, unit_model(TokenKind::BitAnd), 3)
        } else if char_is(s, p + 1, '|') {
            if char_is(s, p + 2, '.') {
                emit(st, p + 3, line, col + 2, unit_model(TokenKind::BitOr), 3)
            } else {
                emit(st, p + 2, line, col, unit_model(TokenKind::Dot), 1)
            }
        } else {
            emit(st, p + 1, line, col, unit_model(TokenKind::Dot), 1)
        }
    } else if char_is(s, p, '|') {
        if char_is(s, p + 1, '.') {
            emit(st, p + 2, line, col + 2, unit_model(TokenKind::BitOr), 3)
        } else {
            emit(st, p + 1, line, col, unit_model(TokenKind::Dot), 1)
        }
    } else {
        emit(st, p, line, col, unit_model(TokenKind::Dot), 1)
    }
}

/// A string literal whose opening quote is at `p - 1`: the characters up to
/// the closing quote. Without one, an error.
pub open spec fn string_step(s: Seq<char>, st: ScanState, p: int, line: int, col: int) -> Result<ScanState, LexModel> {
    let q = find_char(s, p, '"');
    let value = s.subrange(p, q);
    let l = line_after(s, p, q, line);
    let c = col_after(s, p, q, col);
    if q >= s.len() {
        Err(LexModel {
            span: Span { line: l as usize, col: (col - 1) as usize, len: (utf8_len(value) + 1) as usize },
            character: '"',
            message: "Unterminated string"@,
        })
    } else {
        Ok(emit(
            st,
            q + 1,
            l,
            c + 1,
            TokenModel { kind: TokenKind::String, text: value, int: 0, ch: ' ' },
            utf8_len(value) + 2,
        ))
    }
}

/// After a `'` at `p - 1`: a character literal when one character that is
/// not a quote and then a quote follow; else the quote alone, as an
/// identifier.
pub open spec fn quote_step(s: Seq<char>, st: ScanState, p: int, line: int, col: int) -> ScanState {
    if p + 1 < s.len() && s[p + 1] == '\'' && s[p] != '\'' {
        emit(
            st,
            p + 2,
            next_line(s[p], line),
            next_col(s[p], col) + 1,
            TokenModel { kind: TokenKind::Char, text: Seq::empty(), int: 0, ch: s[p] },
            3,
        )
    } else {
        emit(st, p, line, col, ident_model(seq!['\'']), 1)
    }
}

/// A number whose first digit is at `p - 1`.
pub open spec fn number_step(s: Seq<char>, st: ScanState, p: int, line: int, col: int) -> ScanState {
    let e = number_end(s, p);
    let text = s.subrange(p - 1, e);
    let t = if number_has_dot(s, p) {
        TokenModel { kind: TokenKind::Float, text, int: 0, ch: ' ' }
    } else {
        TokenModel { kind: TokenKind::Integer, text: Seq::empty(), int: integer_literal(text), ch: ' ' }
    };
    emit(st, e, line, col + (e - p), t, text.len() as int)
}

/// A word whose first character is at `p - 1`.
pub open spec fn word_step(s: Seq<char>, st: ScanState, p: int, line: int, col: int) -> ScanState {
    let e = ident_end(s, p);
    let text = s.subrange(p - 1, e);
    emit(st, e, line_after(s, p, e, line), col_after(s, p, e, col), word_token(text), utf8_len(text))
}

/// The scanner's step at `st.pos`, where there is a character: the token
/// it starts, if any, and where scanning goes on.
pub open spec fn scan_step(s: Seq<char>, st: ScanState) -> Result<ScanState, LexModel> {
    let c = s[st.pos];
    let p = st.pos + 1;
    let line = next_line(c, st.line);
    let col = next_col(c, st.col);
    if c == '(' { Ok(emit(st, p, line, col, unit_model(TokenKind::LParen), 1)) }
    else if c == ')' { Ok(emit(st, p, line, col, unit_model(TokenKind::RParen), 1)) }
    else if c == '{' { Ok(emit(st, p, line, col, unit_model(TokenKind::LBrace), 1)) }
    else if c == '}' { Ok(emit(st, p, line, col, unit_model(TokenKind::RBrace), 1)) }
    else if c == '[' { Ok(emit(st, p, line, col, unit_model(TokenKind::LBracket), 1)) }
    else if c == ']' { Ok(emit(st, p, line, col, unit_model(TokenKind::RBracket), 1)) }
    else if c == ';' { Ok(emit(st, p, line, col, unit_model(TokenKind::Semi), 1)) }
    else if c == ',' { Ok(emit(st, p, line, col, unit_model(TokenKind::Comma), 1)) }
    else if c == ':' { Ok(emit(st, p, line, col, unit_model(TokenKind::Colon), 1)) }
    else if c == '?' { Ok(emit(st, p, line, col, unit_model(TokenKind::Question), 1)) }
    else if c == '\\' { Ok(emit(st, p, line, col, unit_model(TokenKind::Backslash), 1)) }
    else if c == '$' { Ok(emit(st, p, line, col, unit_model(TokenKind::Dollar), 1)) }
    else if c == '#' { Ok(emit(st, p, line, col, unit_model(TokenKind::Hash), 1)) }
    else if c == '=' {
        if char_is(s, p, '>') {
            Ok(emit(st, p + 1, line, col + 1, unit_model(TokenKind::FatArrow), 2))
        } else {
            Ok(one_or_two(s, st, p, line, col, '=', TokenKind::Eq, TokenKind::Assign))
        }
    }
    else if c == '|' {
        if char_is(s, p, '|') { Ok(skip(st, p + 1, line, col + 1)) }
        else { Ok(emit(st, p, line, col, unit_model(TokenKind::Pipe), 1)) }
    }
    else if c == '`' { Ok(emit(st, p, line, col, unit_model(TokenKind::Backtick), 1)) }
    else if c == '+' { Ok(one_or_two(s, st, p, line, col, '+', TokenKind::Append, TokenKind::Plus)) }
    else if c == '-' {
        if char_is(s, p, '>') {
            Ok(emit(st, p + 1, line, col + 1, unit_model(TokenKind::Arrow), 2))
        } else if char_is(s, p, '-') {
            let e = find_char(s, p + 1, '\n');
            Ok(skip(st, e, line, col + (e - (p + 1))))
        } else {
            Ok(emit(st, p, line, col, unit_model(TokenKind::Minus), 1))
        }
    }
    else if c == '*' { Ok(one_or_two(s, st, p, line, col, '*', TokenKind::DoubleStar, TokenKind::Star)) }
    else if c == '/' { Ok(emit(st, p, line, col, unit_model(TokenKind::Slash), 1)) }
    else if c == '<' { Ok(one_or_two(s, st, p, line, col, '-', TokenKind::Bind, TokenKind::Lt)) }
    else if c == '>' { Ok(emit(st, p, line, col, unit_model(TokenKind::Gt), 1)) }
    else if c == '.' { Ok(dot_step(s, st, p, line, col)) }
    else if c == '"' { string_step(s, st, p, line, col) }
    else if c == '\'' { Ok(quote_step(s, st, p, line, col)) }
    else if c == ' ' || c == '\r' || c == '\t' { Ok(skip(st, p, line, col)) }
    else if c == '&' {
        if char_is(s, p, '&') {
            Ok(emit(st, p + 1, line, col + 1, ident_model(seq!['&', '&']), 2))
        } else {
            Ok(emit(st, p, line, col, ident_model(seq!['&']), 1))
        }
    }
    else if c == '!' { Ok(emit(st, p, line, col, ident_model(seq!['!']), 1)) }
    else if c == '~' { Ok(emit(st, p, line, col, ident_model(seq!['~']), 1)) }
    else if c == '%' { Ok(skip(st, find_char(s, p, '\n'), line, col)) }
    else if c == '\n' { Ok(emit(st, p, line, col, unit_model(TokenKind::Newline), 1)) }
    else if is_decimal_digit(c) { Ok(number_step(s, st, p, line, col)) }
    else if alphabetic(c) || c == '_' { Ok(word_step(s, st, p, line, col)) }
    else {
        Err(LexModel {
            span: Span { line: line as usize, col: st.col as usize, len: 1 },
            character: c,
            message: "Unexpected character"@,
        })
    }
}

/// The scan of the rest of the input from state `st`: the tokens, ending
/// with the end-of-input token, or the first error.
pub open spec fn scan_from(s: Seq<char>, st: ScanState) -> Result<Seq<(TokenModel, Span)>, LexModel>
    decreases s.len() - st.pos,
{
    if st.pos < 0 || st.pos >= s.len() {
        Ok(st.tokens.push((unit_model(TokenKind::EOF), span_at(st.line, st.col, 1))))
    } else {
        match scan_step(s, st) {
            Ok(next) => if st.pos < next.pos <= s.len() {
                scan_from(s, next)
            } else {
                Ok(next.tokens)
            },
            Err(e) => Err(e),
        }
    }
}

/// The state at the start of the input.
pub open spec fn scan_start() -> ScanState {
    ScanState { pos: 0, line: 1, col: 1, tokens: Seq::empty() }
}

/// The tokenization of a whole input.
pub open spec fn scan(s: Seq<char>) -> Result<Seq<(TokenModel, Span)>, LexModel> {
    scan_from(s, scan_start())
}

/// The models of a sequence of tokens with spans.
pub open spec fn spanned_models(ts: Seq<Spanned<Token>>) -> Seq<(TokenModel, Span)> {
    ts.map_values(|t: Spanned<Token>| (token_model(t.node), t.span))
}

/// Whether an error is the lexical error that a model describes.
pub open spec fn is_lex_error(e: CompilerError, m: LexModel) -> bool {
    match e {
        CompilerError::Lex(le) => le.span == m.span && le.character == m.character && le.message@ == m.message,
        _ => false,
    }
}

proof fn lemma_find_char(s: Seq<char>, i: int, c: char)
    requires
        0 <= i <= s.len(),
    ensures
        i <= find_char(s, i, c) <= s.len(),
        find_char(s, i, c) < s.len() ==> s[find_char(s, i, c)] == c,
        forall|k: int| i <= k < find_char(s, i, c) ==> s[k] != c,
    decreases s.len() - i,
{
    if i < s.len() && s[i] != c {
        lemma_find_char(s, i + 1, c);
    }
}

proof fn lemma_ident_end(s: Seq<char>, i: int)
    requires
        0 <= i <= s.len(),
    ensures
        i <= ident_end(s, i) <= s.len(),
        ident_end(s, i) < s.len() ==> !ident_char(s[ident_end(s, i)]),
        forall|k: int| i <= k < ident_end(s, i) ==> ident_char(s[k]),
    decreases s.len() - i,
{
    if i < s.len() && ident_char(s[i]) {
        lemma_ident_end(s, i + 1);
    }
}

proof fn lemma_number_end(s: Seq<char>, i: int)
    requires
        0 <= i <= s.len(),
    ensures
        i <= number_end(s, i) <= s.len(),
        forall|k: int| i <= k < number_end(s, i) ==> #[trigger] s[k] == '.' || is_decimal_digit(s[k]),
    decreases s.len() - i,
{
    if i < s.len() && (is_decimal_digit(s[i]) || number_dot(s, i)) {
        lemma_number_end(s, i + 1);
    }
}

/// Each step of the scanner passes at least one character.
proof fn lemma_scan_step_progress(s: Seq<char>, st: ScanState)
    requires
        0 <= st.pos < s.len(),
    ensures
        scan_step(s, st) is Ok ==> st.pos < scan_step(s, st)->Ok_0.pos <= s.len(),
{
    let p = st.pos + 1;
    lemma_find_char(s, p, '"');
    lemma_find_char(s, p, '\n');
    if p + 1 <= s.len() {
        lemma_find_char(s, p + 1, '\n');
    }
    lemma_ident_end(s, p);
    lemma_number_end(s, p);
}

/// The line after a stretch grows by at most its length; the column too.
proof fn lemma_after_bounds(s: Seq<char>, from: int, to: int, line: int, col: int)
    requires
        from <= to,
    ensures
        line <= line_after(s, from, to, line) <= line + (to - from),
        1 <= col ==> 1 <= col_after(s, from, to, col),
        col_after(s, from, to, col) <= col + (to - from) || col_after(s, from, to, col) <= (to - from),
    decreases to - from,
{
    if from < to {
        lemma_after_bounds(s, from, to - 1, line, col);
    }
}

/// A scan from a state that succeeds ends with the end-of-input token.
pub proof fn lemma_scan_from_ends(s: Seq<char>, st: ScanState)
    requires
        0 <= st.pos,
    ensures
        scan_from(s, st) is Ok ==> {
            let ts = scan_from(s, st)->Ok_0;
            &&& ts.len() > 0
            &&& ts.last().0 == unit_model(TokenKind::EOF)
        },
    decreases s.len() - st.pos,
{
    if st.pos < s.len() {
        lemma_scan_step_progress(s, st);
        match scan_step(s, st) {
            Ok(next) => {
                lemma_scan_from_ends(s, next);
            },
            Err(_) => {},
        }
    }
}

/// A successful scan ends with the end-of-input token.
pub proof fn law_scan_ends_with_eof(s: Seq<char>)
    ensures
        scan(s) is Ok ==> scan(s)->Ok_0.len() > 0 && scan(s)->Ok_0.last().0 == unit_model(TokenKind::EOF),
{
    lemma_scan_from_ends(s, scan_start());
}

/// Scans source text.
pub struct Scanner {
    cursor: Cursor<char>,
    tokens: Vec<Spanned<Token>>,
    line: usize,
    col: usize,
}

/// Tokenizes source text: the tokens, ending with the end-of-input token,
/// or the first lexical error.
pub fn lex(source: &str) -> (r: Result<Vec<Spanned<Token>>, CompilerError>)
    requires
        4 * source@.len() + 8 <= usize::MAX,
    ensures
        match scan(source@) {
            Ok(ts) => r is Ok && spanned_models(r->Ok_0@) == ts,
            Err(m) => r is Err && is_lex_error(r->Err_0, m),
        },
{
    let mut scanner = Scanner::new(source);
    scanner.scan_tokens()
}

impl Scanner {
    /// The characters the scanner reads.
    pub closed spec fn input(&self) -> Seq<char> {
        self.cursor.items()
    }

    /// The state of the scan.
    pub closed spec fn state(&self) -> ScanState {
        ScanState {
            pos: self.cursor.pos() as int,
            line: self.line as int,
            col: self.col as int,
            tokens: spanned_models(self.tokens@),
        }
    }

    /// The scanner's bounds: positions, lines and columns fit, and so do the
    /// lengths of the tokens.
    pub closed spec fn wf(&self) -> bool {
        &&& 4 * self.cursor.items().len() + 8 <= usize::MAX
        &&& self.cursor.pos() <= self.cursor.items().len()
        &&& 1 <= self.line <= self.cursor.pos() + 1
        &&& 1 <= self.col <= self.cursor.pos() + 1
    }

    /// Creates a scanner at the start of the source text.
    pub fn new(source: &str) -> (r: Self)
        requires
            4 * source@.len() + 8 <= usize::MAX,
        ensures
            r.wf(),
            r.input() == source@,
            r.state() == scan_start(),
    {
        let chars = chars_of(source);
        let r = Scanner { cursor: Cursor::new(chars), tokens: Vec::new(), line: 1, col: 1 };
        proof {
            assert(spanned_models(r.tokens@) =~= Seq::empty());
        }
        r
    }

    /// Tokenizes the rest of the input.
    pub fn scan_tokens(&mut self) -> (r: Result<Vec<Spanned<Token>>, CompilerError>)
        requires
            old(self).wf(),
        ensures
            match scan_from(old(self).input(), old(self).state()) {
                Ok(ts) => r is Ok && spanned_models(r->Ok_0@) == ts,
                Err(m) => r is Err && is_lex_error(r->Err_0, m),
            },
    {
        let ghost s = self.input();
        let ghost goal = scan_from(s, self.state());
        while !self.cursor.is_at_end()
            invariant
                self.wf(),
                self.input() == s,
                s == old(self).input(),
                goal == scan_from(old(self).input(), old(self).state()),
                scan_from(s, self.state()) == goal,
            decreases s.len() - self.cursor.pos(),
        {
            let ghost before = self.state();
            proof {
                lemma_scan_step_progress(s, before);
            }
            let step = self.scan_token();
            match step {
                Ok(()) => {},
                Err(e) => {
                    proof {
                        assert(scan_from(s, before) == Err::<Seq<(TokenModel, Span)>, LexModel>(
                            scan_step(s, before)->Err_0,
                        ));
                    }
                    return Err(e);
                },
            }
        }
        self.add_token(Token::EOF, 1);
        let mut out: Vec<Spanned<Token>> = Vec::new();
        let mut i: usize = 0;
        while i < self.tokens.len()
            invariant
                i <= self.tokens.len(),
                out@ == self.tokens@.take(i as int),
            decreases self.tokens.len() - i,
        {
            out.push(duplicate_spanned(&self.tokens[i]));
            proof {
                assert(self.tokens@.take(i + 1) =~= self.tokens@.take(i as int).push(self.tokens@[i as int]));
            }
            i += 1;
        }
        proof {
            assert(self.tokens@.take(self.tokens@.len() as int) =~= self.tokens@);
        }
        Ok(out)
    }
}

/// A one-character text.
fn text1(c: char) -> (r: String)
    ensures
        r@ == seq![c],
{
    let mut t = String::new();
    push_char(&mut t, c);
    proof {
        assert(t@ =~= seq![c]);
    }
    t
}

/// A two-character text.
fn text2(c: char, d: char) -> (r: String)
    ensures
        r@ == seq![c, d],
{
    let mut t = String::new();
    push_char(&mut t, c);
    push_char(&mut t, d);
    proof {
        assert(t@ =~= seq![c, d]);
    }
    t
}

/// The token of a word: a keyword, or an identifier.
fn word(text: String) -> (t: Token)
    ensures
        token_model(t) == word_token(text@),
{
    let w = text.as_str();
    if str_eq(w, "if") { Token::If }
    else if str_eq(w, "then") { Token::Then }
    else if str_eq(w, "else") { Token::Else }
    else if str_eq(w, "let") { Token::Let }
    else if str_eq(w, "in") { Token::In }
    else if str_eq(w, "case") { Token::Case }
    else if str_eq(w, "of") { Token::Of }
    else if str_eq(w, "data") { Token::Data }
    else if str_eq(w, "interface") { Token::Interface }
    else if str_eq(w, "implementation") { Token::Implementation }
    else if str_eq(w, "record") { Token::Record }
    else if str_eq(w, "mutual") { Token::Mutual }
    else if str_eq(w, "where") { Token::Where }
    else if str_eq(w, "do") { Token::Do }
    else if str_eq(w, "module") { Token::Module }
    else if str_eq(w, "import") { Token::Import }
    else if str_eq(w, "xor") { Token::Xor }
    else if str_eq(w, "shiftL") { Token::ShiftL }
    else if str_eq(w, "shiftR") { Token::ShiftR }
    else if str_eq(w, "complement") { Token::Complement }
    else { Token::Identifier(text) }
}

proof fn lemma_digits_value_nonneg(t: Seq<char>)
    requires
        forall|k: int| 0 <= k < t.len() ==> is_decimal_digit(#[trigger] t[k]),
    ensures
        digits_value(t) >= 0,
    decreases t.len(),
{
    if t.len() > 0 {
        lemma_digits_value_nonneg(t.drop_last());
    }
}

/// The integer a run of digits denotes, or 0 when it does not fit.
fn parse_integer(t: &Vec<char>) -> (r: i64)
    requires
        forall|k: int| 0 <= k < t@.len() ==> is_decimal_digit(#[trigger] t@[k]),
    ensures
        r == integer_literal(t@),
{
    let mut value: i64 = 0;
    let mut overflow = false;
    let mut i: usize = 0;
    while i < t.len()
        invariant
            i <= t@.len(),
            forall|k: int| 0 <= k < t@.len() ==> is_decimal_digit(#[trigger] t@[k]),
            overflow <==> digits_value(t@.take(i as int)) > i64::MAX,
            !overflow ==> value == digits_value(t@.take(i as int)),
        decreases t.len() - i,
    {
        let c = t[i];
        let d: i64 = (c as u32 - 48u32) as i64;
        proof {
            assert(t@.take(i + 1).drop_last() =~= t@.take(i as int));
            assert(t@.take(i + 1).last() == c);
            lemma_digits_value_nonneg(t@.take(i as int));
            assert(0 <= d <= 9);
            assert(d == digit_value(c));
        }
        if !overflow {
            if value > (i64::MAX - d) / 10 {
                overflow = true;
                proof {
                    assert(value * 10 + d > i64::MAX) by (nonlinear_arith)
                        requires value > (i64::MAX - d) / 10, 0 <= d <= 9;
                }
            } else {
                proof {
                    assert(value * 10 + d <= i64::MAX) by (nonlinear_arith)
                        requires value <= (i64::MAX - d) / 10, 0 <= d <= 9, value >= 0;
                }
                value = value * 10 + d;
            }
        } else {
            proof {
                let v = digits_value(t@.take(i as int));
                assert(v * 10 + d > i64::MAX) by (nonlinear_arith)
                    requires v > i64::MAX, 0 <= d <= 9;
            }
        }
        i += 1;
    }
    proof {
        assert(t@.take(t@.len() as int) =~= t@);
    }
    if overflow { 0 } else { value }
}

impl Scanner {
    /// Passes the current character, keeping line and column.
    fn adv(&mut self) -> (r: Option<char>)
        requires
            old(self).wf(),
        ensures
            final(self).wf(),
            final(self).input() == old(self).input(),
            final(self).tokens@ == old(self).tokens@,
            old(self).state().pos < old(self).input().len() ==> {
                &&& r == Some(old(self).input()[old(self).state().pos])
                &&& final(self).state().pos == old(self).state().pos + 1
                &&& final(self).state().line == next_line(r->Some_0, old(self).state().line)
                &&& final(self).state().col == next_col(r->Some_0, old(self).state().col)
            },
            old(self).state().pos >= old(self).input().len() ==> r is None && final(self).state()
                == old(self).state(),
    {
        let c = match self.cursor.advance() {
            Some(ch) => Some(*ch),
            None => None,
        };
        match c {
            Some(ch) => {
                if ch == '\n' {
                    self.line = self.line + 1;
                    self.col = 1;
                } else {
                    self.col = self.col + 1;
                }
            },
            None => {},
        }
        c
    }

    /// Whether the current character is `c`.
    fn peek_is(&self, c: char) -> (r: bool)
        requires
            self.wf(),
        ensures
            r == char_is(self.input(), self.state().pos, c),
    {
        match self.cursor.peek() {
            Some(x) => *x == c,
            None => false,
        }
    }

    /// The character `k` places after the current one.
    fn peek_char_at(&self, k: usize) -> (r: Option<char>)
        requires
            self.wf(),
        ensures
            self.state().pos + k < self.input().len() ==> r == Some(self.input()[self.state().pos + k]),
            self.state().pos + k >= self.input().len() ==> r is None,
    {
        match self.cursor.peek_at(k) {
            Some(x) => Some(*x),
            None => None,
        }
    }

    /// Passes the current character when it is `c`, without moving the
    /// column, and says whether it did.
    fn match_char(&mut self, c: char) -> (r: bool)
        requires
            old(self).wf(),
        ensures
            final(self).wf(),
            final(self).input() == old(self).input(),
            final(self).tokens@ == old(self).tokens@,
            final(self).line == old(self).line,
            final(self).col == old(self).col,
            r == char_is(old(self).input(), old(self).state().pos, c),
            r ==> final(self).state().pos == old(self).state().pos + 1,
            !r ==> final(self).state().pos == old(self).state().pos,
    {
        if self.peek_is(c) {
            self.cursor.advance();
            true
        } else {
            false
        }
    }

    /// Adds a token that ends at the current column and is `len` long.
    fn add_token(&mut self, node: Token, len: usize)
        requires
            old(self).wf(),
        ensures
            final(self).wf(),
            final(self).input() == old(self).input(),
            final(self).state() == emit(
                old(self).state(),
                old(self).state().pos,
                old(self).state().line,
                old(self).state().col,
                token_model(node),
                len as int,
            ),
    {
        let col = if self.col >= len { self.col - len } else { 0 };
        let ghost old_tokens = self.tokens@;
        let t = Spanned { node, span: Span::new(self.line, col, len) };
        self.tokens.push(t);
        proof {
            assert(spanned_models(self.tokens@) =~= spanned_models(old_tokens).push(
                (token_model(t.node), t.span),
            ));
        }
    }
}

impl Scanner {
    /// Scans one token, or passes over whitespace, a comment or a pragma.
    fn scan_token(&mut self) -> (r: Result<(), CompilerError>)
        requires
            old(self).wf(),
            old(self).state().pos < old(self).input().len(),
        ensures
            final(self).wf(),
            final(self).input() == old(self).input(),
            match scan_step(old(self).input(), old(self).state()) {
                Ok(st) => r is Ok && final(self).state() == st,
                Err(m) => r is Err && is_lex_error(r->Err_0, m),
            },
    {
        let ghost s = self.input();
        let ghost st = self.state();
        let start_col = self.col;
        let c = match self.adv() {
            Some(c) => c,
            None => return Ok(()),
        };
        let ghost p = st.pos + 1;
        let ghost line = next_line(c, st.line);
        let ghost col = next_col(c, st.col);
        if c == '(' { self.add_token(Token::LParen, 1); }
        else if c == ')' { self.add_token(Token::RParen, 1); }
        else if c == '{' { self.add_token(Token::LBrace, 1); }
        else if c == '}' { self.add_token(Token::RBrace, 1); }
        else if c == '[' { self.add_token(Token::LBracket, 1); }
        else if c == ']' { self.add_token(Token::RBracket, 1); }
        else if c == ';' { self.add_token(Token::Semi, 1); }
        else if c == ',' { self.add_token(Token::Comma, 1); }
        else if c == ':' { self.add_token(Token::Colon, 1); }
        else if c == '?' { self.add_token(Token::Question, 1); }
        else if c == '\\' { self.add_token(Token::Backslash, 1); }
        else if c == '$' { self.add_token(Token::Dollar, 1); }
        else if c == '#' { self.add_token(Token::Hash, 1); }
        else if c == '=' {
            if self.match_char('>') {
                self.col = self.col + 1;
                self.add_token(Token::FatArrow, 2);
            } else if self.match_char('=') {
                self.col = self.col + 1;
                self.add_token(Token::Eq, 2);
            } else {
                self.add_token(Token::Assign, 1);
            }
        }
        else if c == '|' {
            if self.match_char('|') {
                self.col = self.col + 1;
            } else {
                self.add_token(Token::Pipe, 1);
            }
        }
        else if c == '`' { self.add_token(Token::Backtick, 1); }
        else if c == '+' {
            if self.match_char('+') {
                self.col = self.col + 1;
                self.add_token(Token::Append, 2);
            } else {
                self.add_token(Token::Plus, 1);
            }
        }
        else if c == '-' {
            if self.match_char('>') {
                self.col = self.col + 1;
                self.add_token(Token::Arrow, 2);
            } else if self.match_char('-') {
                let ghost e = find_char(s, p + 1, '\n');
                let ghost col0 = self.col as int;
                proof {
                    lemma_find_char(s, p + 1, '\n');
                }
                while !self.peek_is('\n') && !self.cursor.is_at_end()
                    invariant
                        self.wf(),
                        self.input() == s,
                        p + 1 <= self.state().pos <= e,
                        e == find_char(s, p + 1, '\n'),
                        e <= s.len(),
                        forall|k: int| p + 1 <= k < e ==> s[k] != '\n',
                        e < s.len() ==> s[e] == '\n',
                        self.line == line,
                        self.col == col0 + (self.state().pos - (p + 1)),
                        self.tokens@ == old(self).tokens@,
                    decreases s.len() - self.state().pos,
                {
                    self.adv();
                }
            } else {
                self.add_token(Token::Minus, 1);
            }
        }
        else if c == '*' {
            if self.match_char('*') {
                self.col = self.col + 1;
                self.add_token(Token::DoubleStar, 2);
            } else {
                self.add_token(Token::Star, 1);
            }
        }
        else if c == '/' { self.add_token(Token::Slash, 1); }
        else if c == '<' {
            if self.match_char('-') {
                self.col = self.col + 1;
                self.add_token(Token::Bind, 2);
            } else {
                self.add_token(Token::Lt, 1);
            }
        }
        else if c == '>' { self.add_token(Token::Gt, 1); }
        else if c == '.' {
            if self.match_char('&') && self.match_char('.') {
                self.col = self.col + 2;
                self.add_token(Token::BitAnd, 3);
            } else if self.match_char('|') && self.match_char('.') {
                self.col = self.col + 2;
                self.add_token(Token::BitOr, 3);
            } else {
                self.add_token(Token::Dot, 1);
            }
        }
        else if c == '"' {
            return self.string();
        }
        else if c == '\'' {
            match self.peek_char_at(0) {
                Some(next_ch) => {
                    match self.peek_char_at(1) {
                        Some(after) => {
                            if after == '\'' && next_ch != '\'' {
                                return self.character();
                            } else {
                                self.add_token(Token::Identifier(text1('\'')), 1);
                            }
                        },
                        None => {
                            self.add_token(Token::Identifier(text1('\'')), 1);
                        },
                    }
                },
                None => {
                    self.add_token(Token::Identifier(text1('\'')), 1);
                },
            }
        }
        else if c == ' ' || c == '\r' || c == '\t' {
        }
        else if c == '&' {
            if self.match_char('&') {
                self.col = self.col + 1;
                self.add_token(Token::Identifier(text2('&', '&')), 2);
            } else {
                self.add_token(Token::Identifier(text1('&')), 1);
            }
        }
        else if c == '!' { self.add_token(Token::Identifier(text1('!')), 1); }
        else if c == '~' { self.add_token(Token::Identifier(text1('~')), 1); }
        else if c == '%' {
            let ghost e = find_char(s, p, '\n');
            proof {
                lemma_find_char(s, p, '\n');
            }
            while !self.peek_is('\n') && !self.cursor.is_at_end()
                invariant
                    self.wf(),
                    self.input() == s,
                    p <= self.state().pos <= e,
                    e == find_char(s, p, '\n'),
                    e <= s.len(),
                    forall|k: int| p <= k < e ==> s[k] != '\n',
                    e < s.len() ==> s[e] == '\n',
                    self.line == line,
                    self.col == col,
                    self.tokens@ == old(self).tokens@,
                decreases s.len() - self.state().pos,
            {
                self.cursor.advance();
            }
        }
        else if c == '\n' { self.add_token(Token::Newline, 1); }
        else if is_digit(c) { self.number(c); }
        else if is_alphabetic(c) || c == '_' { self.identifier(c); }
        else {
            return Err(CompilerError::Lex(LexError {
                span: Span::new(self.line, start_col, 1),
                character: c,
                message: String::from_str("Unexpected character"),
            }));
        }
        Ok(())
    }

    /// Scans a string literal whose opening quote was just passed.
    fn string(&mut self) -> (r: Result<(), CompilerError>)
        requires
            old(self).wf(),
            old(self).state().pos >= 1,
            old(self).col >= 2,
        ensures
            final(self).wf(),
            final(self).input() == old(self).input(),
            match string_step(old(self).input(), old(self).state(), old(self).state().pos,
                old(self).state().line, old(self).state().col) {
                Ok(st) => r is Ok && final(self).state() == st,
                Err(m) => r is Err && is_lex_error(r->Err_0, m),
            },
    {
        let ghost s = self.input();
        let ghost p = self.state().pos;
        let ghost line0 = self.state().line;
        let ghost col0 = self.state().col;
        let ghost q = find_char(s, p, '"');
        proof {
            lemma_find_char(s, p, '"');
        }
        let start_col = self.col - 1;
        let mut value = String::new();
        let mut vlen: usize = 0;
        while !self.peek_is('"') && !self.cursor.is_at_end()
            invariant
                self.wf(),
                self.input() == s,
                1 <= p <= self.state().pos <= q,
                q == find_char(s, p, '"'),
                q <= s.len(),
                forall|k: int| p <= k < q ==> s[k] != '"',
                q < s.len() ==> s[q] == '"',
                value@ == s.subrange(p, self.state().pos),
                vlen == utf8_len(value@),
                self.line == line_after(s, p, self.state().pos, line0),
                self.col == col_after(s, p, self.state().pos, col0),
                self.tokens@ == old(self).tokens@,
            decreases s.len() - self.state().pos,
        {
            let ghost i = self.state().pos;
            let next = self.adv();
            if let Some(c) = next {
                let ghost old_value = value@;
                push_char(&mut value, c);
                proof {
                    assert(value@ =~= s.subrange(p, i + 1));
                    assert(value@.drop_last() =~= old_value);
                    lemma_utf8_len_bounds(old_value);
                }
                vlen = vlen + utf8_width(c);
            }
        }
        proof {
            lemma_utf8_len_bounds(value@);
        }
        if self.cursor.is_at_end() {
            return Err(CompilerError::Lex(LexError {
                span: Span::new(self.line, start_col, vlen + 1),
                character: '"',
                message: String::from_str("Unterminated string"),
            }));
        }
        self.adv();
        self.add_token(Token::String(value), vlen + 2);
        Ok(())
    }

    /// Scans a character literal whose opening quote was just passed.
    fn character(&mut self) -> (r: Result<(), CompilerError>)
        requires
            old(self).wf(),
            old(self).state().pos + 1 < old(self).input().len(),
            old(self).input()[old(self).state().pos + 1] == '\'',
            old(self).col >= 2,
        ensures
            final(self).wf(),
            final(self).input() == old(self).input(),
            r is Ok,
            final(self).state() == emit(
                old(self).state(),
                old(self).state().pos + 2,
                next_line(old(self).input()[old(self).state().pos], old(self).state().line),
                next_col(old(self).input()[old(self).state().pos], old(self).state().col) + 1,
                TokenModel {
                    kind: TokenKind::Char,
                    text: Seq::empty(),
                    int: 0,
                    ch: old(self).input()[old(self).state().pos],
                },
                3,
            ),
    {
        let start_col = self.col - 1;
        let c = match self.adv() {
            Some(c) => c,
            None => {
                return Err(CompilerError::Lex(LexError {
                    span: Span::new(self.line, start_col, 1),
                    character: '\'',
                    message: String::from_str("Empty character literal"),
                }));
            },
        };
        if !self.peek_is('\'') {
            return Err(CompilerError::Lex(LexError {
                span: Span::new(self.line, start_col, 2),
                character: c,
                message: String::from_str("Unterminated character literal"),
            }));
        }
        self.adv();
        self.add_token(Token::Char(c), 3);
        Ok(())
    }

    /// Scans an identifier or keyword whose first character was just passed.
    fn identifier(&mut self, first: char)
        requires
            old(self).wf(),
            old(self).state().pos >= 1,
            old(self).input()[old(self).state().pos - 1] == first,
        ensures
            final(self).wf(),
            final(self).input() == old(self).input(),
            final(self).state() == word_step(old(self).input(), old(self).state(),
                old(self).state().pos, old(self).state().line, old(self).state().col),
    {
        let ghost s = self.input();
        let ghost p = self.state().pos;
        let ghost e = ident_end(s, p);
        proof {
            lemma_ident_end(s, p);
        }
        let mut text = String::new();
        push_char(&mut text, first);
        let mut tlen: usize = utf8_width(first);
        proof {
            assert(text@ =~= s.subrange(p - 1, p));
            assert(text@.drop_last() =~= Seq::<char>::empty());
            assert(utf8_len(Seq::<char>::empty()) == 0);
        }
        loop
            invariant
                self.wf(),
                self.input() == s,
                1 <= p <= self.state().pos <= e,
                e == ident_end(s, p),
                e <= s.len(),
                forall|k: int| p <= k < e ==> ident_char(#[trigger] s[k]),
                e < s.len() ==> !ident_char(s[e]),
                text@ == s.subrange(p - 1, self.state().pos),
                tlen == utf8_len(text@),
                self.line == line_after(s, p, self.state().pos, old(self).line as int),
                self.col == col_after(s, p, self.state().pos, old(self).col as int),
                self.tokens@ == old(self).tokens@,
            ensures
                self.state().pos == e,
                self.wf(),
                self.input() == s,
                text@ == s.subrange(p - 1, e),
                tlen == utf8_len(text@),
                self.line == line_after(s, p, e, old(self).line as int),
                self.col == col_after(s, p, e, old(self).col as int),
                self.tokens@ == old(self).tokens@,
            decreases s.len() - self.state().pos,
        {
            let c = match self.peek_char_at(0) {
                Some(c) => c,
                None => break,
            };
            if is_alphanumeric(c) || c == '_' || c == '.' || c == '\'' {
                let ghost i = self.state().pos;
                let ghost old_text = text@;
                push_char(&mut text, c);
                self.adv();
                proof {
                    assert(text@ =~= s.subrange(p - 1, i + 1));
                    assert(text@.drop_last() =~= old_text);
                    lemma_utf8_len_bounds(old_text);
                }
                tlen = tlen + utf8_width(c);
            } else {
                break;
            }
        }
        let token = word(text);
        self.add_token(token, tlen);
    }

    /// Scans a number whose first digit was just passed.
    fn number(&mut self, first: char)
        requires
            old(self).wf(),
            old(self).state().pos >= 1,
            old(self).input()[old(self).state().pos - 1] == first,
            is_decimal_digit(first),
        ensures
            final(self).wf(),
            final(self).input() == old(self).input(),
            final(self).state() == number_step(old(self).input(), old(self).state(),
                old(self).state().pos, old(self).state().line, old(self).state().col),
    {
        let ghost s = self.input();
        let ghost p = self.state().pos;
        let ghost e = number_end(s, p);
        proof {
            lemma_number_end(s, p);
        }
        let mut text = String::new();
        push_char(&mut text, first);
        let mut digits: Vec<char> = Vec::new();
        digits.push(first);
        let mut is_float = false;
        proof {
            assert(text@ =~= s.subrange(p - 1, p));
        }
        loop
            invariant
                self.wf(),
                self.input() == s,
                1 <= p <= self.state().pos <= e,
                e == number_end(s, p),
                e <= s.len(),
                text@ == s.subrange(p - 1, self.state().pos),
                digits@ == text@,
                is_float ==> number_has_dot(s, p),
                !is_float ==> number_has_dot(s, p) == number_has_dot(s, self.state().pos),
                !is_float ==> forall|k: int| 0 <= k < digits@.len() ==> is_decimal_digit(#[trigger] digits@[k]),
                number_end(s, self.state().pos) == e,
                self.line == old(self).line,
                self.col == old(self).col + (self.state().pos - p),
                self.tokens@ == old(self).tokens@,
            ensures
                self.state().pos == e,
                self.wf(),
                self.input() == s,
                text@ == s.subrange(p - 1, e),
                digits@ == text@,
                is_float == number_has_dot(s, p),
                !is_float ==> forall|k: int| 0 <= k < digits@.len() ==> is_decimal_digit(#[trigger] digits@[k]),
                self.line == old(self).line,
                self.col == old(self).col + (e - p),
                self.tokens@ == old(self).tokens@,
            decreases s.len() - self.state().pos,
        {
            let ghost i = self.state().pos;
            let c = match self.peek_char_at(0) {
                Some(c) => c,
                None => break,
            };
            if is_digit(c) {
                proof {
                    lemma_number_end(s, i + 1);
                }
                push_char(&mut text, c);
                digits.push(c);
                self.adv();
                proof {
                    assert(text@ =~= s.subrange(p - 1, i + 1));
                }
            } else if c == '.' {
                match self.peek_char_at(1) {
                    Some(next) => {
                        if is_digit(next) {
                            proof {
                                lemma_number_end(s, i + 1);
                            }
                            is_float = true;
                            push_char(&mut text, c);
                            digits.push(c);
                            self.adv();
                            proof {
                                assert(text@ =~= s.subrange(p - 1, i + 1));
                            }
                            continue;
                        }
                    },
                    None => {},
                }
                break;
            } else {
                break;
            }
        }
        let len = digits.len();
        if is_float {
            self.add_token(Token::Float(text), len);
        } else {
            let value = parse_integer(&digits);
            self.add_token(Token::Integer(value), len);
        }
    }
}

impl View for Token {
    type V = TokenModel;

    open spec fn view(&self) -> TokenModel {
        token_model(*self)
    }
}

/// The text of a token as the derived `Debug` formatting lays it out: the
/// name of its variant, then its payload in brackets, names and strings in
/// quotes. A floating-point literal is shown as it was written.
pub open spec fn token_text(t: TokenModel) -> Seq<char> {
    match t.kind {
        TokenKind::Identifier => "Identifier("@ + quoted(t.text) + ")"@,
        TokenKind::Integer => "Integer("@ + int_text(t.int as int) + ")"@,
        TokenKind::Float => "Float("@ + t.text + ")"@,
        TokenKind::String => "String("@ + quoted(t.text) + ")"@,
        TokenKind::Char => "Char("@ + char_quoted(t.ch) + ")"@,
        TokenKind::If => "If"@,
        TokenKind::Then => "Then"@,
        TokenKind::Else => "Else"@,
        TokenKind::Let => "Let"@,
        TokenKind::In => "In"@,
        TokenKind::Case => "Case"@,
        TokenKind::Of => "Of"@,
        TokenKind::Data => "Data"@,
        TokenKind::Interface => "Interface"@,
        TokenKind::Implementation => "Implementation"@,
        TokenKind::Record => "Record"@,
        TokenKind::Mutual => "Mutual"@,
        TokenKind::Where => "Where"@,
        TokenKind::Do => "Do"@,
        TokenKind::Module => "Module"@,
        TokenKind::Import => "Import"@,
        TokenKind::Assign => "Assign"@,
        TokenKind::Arrow => "Arrow"@,
        TokenKind::FatArrow => "FatArrow"@,
        TokenKind::Bind => "Bind"@,
        TokenKind::Colon => "Colon"@,
        TokenKind::Pipe => "Pipe"@,
        TokenKind::LParen => "LParen"@,
        TokenKind::RParen => "RParen"@,
        TokenKind::Backtick => "Backtick"@,
        TokenKind::LBrace => "LBrace"@,
        TokenKind::RBrace => "RBrace"@,
        TokenKind::LBracket => "LBracket"@,
        TokenKind::RBracket => "RBracket"@,
        TokenKind::Semi => "Semi"@,
        TokenKind::Comma => "Comma"@,
        TokenKind::Dot => "Dot"@,
        TokenKind::Append => "Append"@,
        TokenKind::Newline => "Newline"@,
        TokenKind::Question => "Question"@,
        TokenKind::Backslash => "Backslash"@,
        TokenKind::Dollar => "Dollar"@,
        TokenKind::DoubleStar => "DoubleStar"@,
        TokenKind::Hash => "Hash"@,
        TokenKind::Underscore => "Underscore"@,
        TokenKind::At => "At"@,
        TokenKind::Eq => "Eq"@,
        TokenKind::Plus => "Plus"@,
        TokenKind::Minus => "Minus"@,
        TokenKind::Star => "Star"@,
        TokenKind::Slash => "Slash"@,
        TokenKind::Lt => "Lt"@,
        TokenKind::Gt => "Gt"@,
        TokenKind::BitAnd => "BitAnd"@,
        TokenKind::BitOr => "BitOr"@,
        TokenKind::Xor => "Xor"@,
        TokenKind::ShiftL => "ShiftL"@,
        TokenKind::ShiftR => "ShiftR"@,
        TokenKind::Complement => "Complement"@,
        TokenKind::EOF => "EOF"@,
        TokenKind::If => "If"@,
        TokenKind::Then => "Then"@,
        TokenKind::Else => "Else"@,
        TokenKind::Let => "Let"@,
        TokenKind::In => "In"@,
        TokenKind::Case => "Case"@,
        TokenKind::Of => "Of"@,
        TokenKind::Data => "Data"@,
        TokenKind::Interface => "Interface"@,
        TokenKind::Implementation => "Implementation"@,
        TokenKind::Record => "Record"@,
        TokenKind::Mutual => "Mutual"@,
        TokenKind::Where => "Where"@,
        TokenKind::Do => "Do"@,
        TokenKind::Module => "Module"@,
        TokenKind::Import => "Import"@,
        TokenKind::Assign => "Assign"@,
        TokenKind::Arrow => "Arrow"@,
        TokenKind::FatArrow => "FatArrow"@,
        TokenKind::Bind => "Bind"@,
        TokenKind::Colon => "Colon"@,
        TokenKind::Pipe => "Pipe"@,
        TokenKind::LParen => "LParen"@,
        TokenKind::RParen => "RParen"@,
        TokenKind::Backtick => "Backtick"@,
        TokenKind::LBrace => "LBrace"@,
        TokenKind::RBrace => "RBrace"@,
        TokenKind::LBracket => "LBracket"@,
        TokenKind::RBracket => "RBracket"@,
        TokenKind::Semi => "Semi"@,
        TokenKind::Comma => "Comma"@,
        TokenKind::Dot => "Dot"@,
        TokenKind::Append => "Append"@,
        TokenKind::Newline => "Newline"@,
        TokenKind::Question => "Question"@,
        TokenKind::Backslash => "Backslash"@,
        TokenKind::Dollar => "Dollar"@,
        TokenKind::DoubleStar => "DoubleStar"@,
        TokenKind::Hash => "Hash"@,
        TokenKind::Underscore => "Underscore"@,
        TokenKind::At => "At"@,
        TokenKind::Eq => "Eq"@,
        TokenKind::Plus => "Plus"@,
        TokenKind::Minus => "Minus"@,
        TokenKind::Star => "Star"@,
        TokenKind::Slash => "Slash"@,
        TokenKind::Lt => "Lt"@,
        TokenKind::Gt => "Gt"@,
        TokenKind::BitAnd => "BitAnd"@,
        TokenKind::BitOr => "BitOr"@,
        TokenKind::Xor => "Xor"@,
        TokenKind::ShiftL => "ShiftL"@,
        TokenKind::ShiftR => "ShiftR"@,
        TokenKind::Complement => "Complement"@,
        TokenKind::EOF => "EOF"@,
    }
}

/// The text of a token.
pub fn token_text_of(t: &Token) -> (r: String)
    ensures
        r@ == token_text(t@),
{
    match t {
        Token::Identifier(s) => {
            let mut r = "Identifier(".to_owned();
            let p = quoted_text(s.as_str());
            r.append(p.as_str());
            r.append(")");
            r
        },
        Token::Integer(n) => {
            let mut r = "Integer(".to_owned();
            let p = i64_to_text(*n);
            r.append(p.as_str());
            r.append(")");
            r
        },
        Token::Float(s) => {
            let mut r = "Float(".to_owned();
            r.append(s.as_str());
            r.append(")");
            r
        },
        Token::String(s) => {
            let mut r = "String(".to_owned();
            let p = quoted_text(s.as_str());
            r.append(p.as_str());
            r.append(")");
            r
        },
        Token::Char(c) => {
            let mut r = "Char(".to_owned();
            let p = char_debug_text(*c);
            r.append(p.as_str());
            r.append(")");
            r
        },
        Token::If => "If".to_owned(),
        Token::Then => "Then".to_owned(),
        Token::Else => "Else".to_owned(),
        Token::Let => "Let".to_owned(),
        Token::In => "In".to_owned(),
        Token::Case => "Case".to_owned(),
        Token::Of => "Of".to_owned(),
        Token::Data => "Data".to_owned(),
        Token::Interface => "Interface".to_owned(),
        Token::Implementation => "Implementation".to_owned(),
        Token::Record => "Record".to_owned(),
        Token::Mutual => "Mutual".to_owned(),
        Token::Where => "Where".to_owned(),
        Token::Do => "Do".to_owned(),
        Token::Module => "Module".to_owned(),
        Token::Import => "Import".to_owned(),
        Token::Assign => "Assign".to_owned(),
        Token::Arrow => "Arrow".to_owned(),
        Token::FatArrow => "FatArrow".to_owned(),
        Token::Bind => "Bind".to_owned(),
        Token::Colon => "Colon".to_owned(),
        Token::Pipe => "Pipe".to_owned(),
        Token::LParen => "LParen".to_owned(),
        Token::RParen => "RParen".to_owned(),
        Token::Backtick => "Backtick".to_owned(),
        Token::LBrace => "LBrace".to_owned(),
        Token::RBrace => "RBrace".to_owned(),
        Token::LBracket => "LBracket".to_owned(),
        Token::RBracket => "RBracket".to_owned(),
        Token::Semi => "Semi".to_owned(),
        Token::Comma => "Comma".to_owned(),
        Token::Dot => "Dot".to_owned(),
        Token::Append => "Append".to_owned(),
        Token::Newline => "Newline".to_owned(),
        Token::Question => "Question".to_owned(),
        Token::Backslash => "Backslash".to_owned(),
        Token::Dollar => "Dollar".to_owned(),
        Token::DoubleStar => "DoubleStar".to_owned(),
        Token::Hash => "Hash".to_owned(),
        Token::Underscore => "Underscore".to_owned(),
        Token::At => "At".to_owned(),
        Token::Eq => "Eq".to_owned(),
        Token::Plus => "Plus".to_owned(),
        Token::Minus => "Minus".to_owned(),
        Token::Star => "Star".to_owned(),
        Token::Slash => "Slash".to_owned(),
        Token::Lt => "Lt".to_owned(),
        Token::Gt => "Gt".to_owned(),
        Token::BitAnd => "BitAnd".to_owned(),
        Token::BitOr => "BitOr".to_owned(),
        Token::Xor => "Xor".to_owned(),
        Token::ShiftL => "ShiftL".to_owned(),
        Token::ShiftR => "ShiftR".to_owned(),
        Token::Complement => "Complement".to_owned(),
        Token::EOF => "EOF".to_owned(),
        Token::If => "If".to_owned(),
        Token::Then => "Then".to_owned(),
        Token::Else => "Else".to_owned(),
        Token::Let => "Let".to_owned(),
        Token::In => "In".to_owned(),
        Token::Case => "Case".to_owned(),
        Token::Of => "Of".to_owned(),
        Token::Data => "Data".to_owned(),
        Token::Interface => "Interface".to_owned(),
        Token::Implementation => "Implementation".to_owned(),
        Token::Record => "Record".to_owned(),
        Token::Mutual => "Mutual".to_owned(),
        Token::Where => "Where".to_owned(),
        Token::Do => "Do".to_owned(),
        Token::Module => "Module".to_owned(),
        Token::Import => "Import".to_owned(),
        Token::Assign => "Assign".to_owned(),
        Token::Arrow => "Arrow".to_owned(),
        Token::FatArrow => "FatArrow".to_owned(),
        Token::Bind => "Bind".to_owned(),
        Token::Colon => "Colon".to_owned(),
        Token::Pipe => "Pipe".to_owned(),
        Token::LParen => "LParen".to_owned(),
        Token::RParen => "RParen".to_owned(),
        Token::Backtick => "Backtick".to_owned(),
        Token::LBrace => "LBrace".to_owned(),
        Token::RBrace => "RBrace".to_owned(),
        Token::LBracket => "LBracket".to_owned(),
        Token::RBracket => "RBracket".to_owned(),
        Token::Semi => "Semi".to_owned(),
        Token::Comma => "Comma".to_owned(),
        Token::Dot => "Dot".to_owned(),
        Token::Append => "Append".to_owned(),
        Token::Newline => "Newline".to_owned(),
        Token::Question => "Question".to_owned(),
        Token::Backslash => "Backslash".to_owned(),
        Token::Dollar => "Dollar".to_owned(),
        Token::DoubleStar => "DoubleStar".to_owned(),
        Token::Hash => "Hash".to_owned(),
        Token::Underscore => "Underscore".to_owned(),
        Token::At => "At".to_owned(),
        Token::Eq => "Eq".to_owned(),
        Token::Plus => "Plus".to_owned(),
        Token::Minus => "Minus".to_owned(),
        Token::Star => "Star".to_owned(),
        Token::Slash => "Slash".to_owned(),
        Token::Lt => "Lt".to_owned(),
        Token::Gt => "Gt".to_owned(),
        Token::BitAnd => "BitAnd".to_owned(),
        Token::BitOr => "BitOr".to_owned(),
        Token::Xor => "Xor".to_owned(),
        Token::ShiftL => "ShiftL".to_owned(),
        Token::ShiftR => "ShiftR".to_owned(),
        Token::Complement => "Complement".to_owned(),
        Token::EOF => "EOF".to_owned(),
    }
}

} // verus!
