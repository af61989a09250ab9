//! The lexical scanner: turns source text into a stream of tokens.
//!
//! Identifiers and keywords use ASCII letters, digits and underscores;
//! whitespace is the ASCII kind. A number token holds the decimal value of
//! its digit run; a run too large for 64 bits scans as an invalid token.

use crate::text::str_eq;
use vstd::prelude::*;
use vstd::std_specs::iter::IteratorSpec;

verus! {

broadcast use
    vstd::std_specs::vec::group_vec_axioms,
    vstd::string::next_postcondition,
    vstd::string::axiom_spec_iter,
;

/// The kind of one token.
#[derive(Debug, PartialEq)]
pub enum TokenKind {
    Number(u64),
    String(String),
    Identifier(String),
    Let,
    Const,
    Function,
    If,
    Return,
    Plus,
    Minus,
    Assign,
    LParen,
    RParen,
    LBrace,
    RBrace,
    Semicolon,
    Comma,
    Colon,
    Dot,
    EOF,
    Invalid,
}

/// The mathematical form of a token kind, used in contracts.
#[verifier::ext_equal]
pub enum TokenV {
    Number(u64),
    String(Seq<char>),
    Identifier(Seq<char>),
    Let,
    Const,
    Function,
    If,
    Return,
    Plus,
    Minus,
    Assign,
    LParen,
    RParen,
    LBrace,
    RBrace,
    Semicolon,
    Comma,
    Colon,
    Dot,
    EOF,
    Invalid,
}

/// The mathematical form of a token kind value.
pub open spec fn token_view(k: TokenKind) -> TokenV {
    match k {
        TokenKind::Number(v) => TokenV::Number(v),
        TokenKind::String(s) => TokenV::String(s@),
        TokenKind::Identifier(s) => TokenV::Identifier(s@),
        TokenKind::Let => TokenV::Let,
        TokenKind::Const => TokenV::Const,
        TokenKind::Function => TokenV::Function,
        TokenKind::If => TokenV::If,
        TokenKind::Return => TokenV::Return,
        TokenKind::Plus => TokenV::Plus,
        TokenKind::Minus => TokenV::Minus,
        TokenKind::Assign => TokenV::Assign,
        TokenKind::LParen => TokenV::LParen,
        TokenKind::RParen => TokenV::RParen,
        TokenKind::LBrace => TokenV::LBrace,
        TokenKind::RBrace => TokenV::RBrace,
        TokenKind::Semicolon => TokenV::Semicolon,
        TokenKind::Comma => TokenV::Comma,
        TokenKind::Colon => TokenV::Colon,
        TokenKind::Dot => TokenV::Dot,
        TokenKind::EOF => TokenV::EOF,
        TokenKind::Invalid => TokenV::Invalid,
    }
}

/// Where a token stood in the source: a half-open byte range plus the line
/// and column the scanner had reached.
#[derive(Debug)]
pub struct Span {
    pub start: usize,
    pub end: usize,
    pub line: usize,
    pub column: usize,
}

impl Default for Span {
    fn default() -> (r: Self)
        ensures
            r.start == 0 && r.end == 0 && r.line == 0 && r.column == 0,
    {
        Span { start: 0, end: 0, line: 0, column: 0 }
    }
}

/// One scanned token.
#[derive(Debug)]
pub struct Token {
    pub kind: TokenKind,
    pub span: Span,
}

/// ASCII whitespace.
pub open spec fn is_ws_char(c: char) -> bool {
    c == ' ' || c == '\t' || c == '\n' || c == '\r'
}

/// An ASCII decimal digit.
pub open spec fn is_digit_char(c: char) -> bool {
    48 <= (c as u32) <= 57
}

/// A character that may begin an identifier.
pub open spec fn is_ident_start(c: char) -> bool {
    (65 <= (c as u32) <= 90) || (97 <= (c as u32) <= 122) || (c as u32) == 95
}

/// A character that may continue an identifier.
pub open spec fn is_ident_char(c: char) -> bool {
    is_ident_start(c) || is_digit_char(c)
}

/// The position of the first non-whitespace character at or after `pos`.
pub open spec fn spec_skip_ws(input: Seq<char>, pos: int) -> int
    decreases input.len() - pos when 0 <= pos <= input.len()
{
    if pos < input.len() && is_ws_char(input[pos]) {
        spec_skip_ws(input, pos + 1)
    } else {
        pos
    }
}

/// The position just after the digit run starting at `pos`.
pub open spec fn scan_digits(input: Seq<char>, pos: int) -> int
    decreases input.len() - pos when 0 <= pos <= input.len()
{
    if pos < input.len() && is_digit_char(input[pos]) {
        scan_digits(input, pos + 1)
    } else {
        pos
    }
}

/// The position just after the identifier run starting at `pos`.
pub open spec fn scan_ident(input: Seq<char>, pos: int) -> int
    decreases input.len() - pos when 0 <= pos <= input.len()
{
    if pos < input.len() && is_ident_char(input[pos]) {
        scan_ident(input, pos + 1)
    } else {
        pos
    }
}

/// The position of the first `"` at or after `pos`, or the end of the input.
pub open spec fn scan_string_end(input: Seq<char>, pos: int) -> int
    decreases input.len() - pos when 0 <= pos <= input.len()
{
    if pos < input.len() && input[pos] != '"' {
        scan_string_end(input, pos + 1)
    } else {
        pos
    }
}

/// The decimal value of the digits in `input[pos..end]`.
pub open spec fn digits_val(input: Seq<char>, pos: int, end: int) -> nat
    decreases end - pos when pos <= end
{
    if pos >= end {
        0
    } else {
        (digits_val(input, pos, end - 1) * 10 + ((input[end - 1] as u32) - 48)) as nat
    }
}

/// The token kind of an identifier run: a keyword where it matches one.
pub open spec fn ident_kind(text: Seq<char>) -> TokenV {
    if text == "let"@ {
        TokenV::Let
    } else if text == "const"@ {
        TokenV::Const
    } else if text == "function"@ {
        TokenV::Function
    } else if text == "if"@ {
        TokenV::If
    } else if text == "return"@ {
        TokenV::Return
    } else {
        TokenV::Identifier(text)
    }
}

/// The token beginning at `pos` (no leading whitespace), and the position
/// just after it.
pub open spec fn spec_token_at(input: Seq<char>, pos: int) -> (TokenV, int) {
    if pos >= input.len() {
        (TokenV::EOF, pos)
    } else {
        let c = input[pos];
        if is_digit_char(c) {
            let end = scan_digits(input, pos);
            let v = digits_val(input, pos, end);
            (
                if v <= u64::MAX {
                    TokenV::Number(v as u64)
                } else {
                    TokenV::Invalid
                },
                end,
            )
        } else if is_ident_start(c) {
            let end = scan_ident(input, pos);
            (ident_kind(input.subrange(pos, end)), end)
        } else if c == '"' {
            let end = scan_string_end(input, pos + 1);
            (
                TokenV::String(input.subrange(pos + 1, end)),
                if end < input.len() {
                    end + 1
                } else {
                    end
                },
            )
        } else if c == '+' {
            (TokenV::Plus, pos + 1)
        } else if c == '-' {
            (TokenV::Minus, pos + 1)
        } else if c == '=' {
            (TokenV::Assign, pos + 1)
        } else if c == '(' {
            (TokenV::LParen, pos + 1)
        } else if c == ')' {
            (TokenV::RParen, pos + 1)
        } else if c == '{' {
            (TokenV::LBrace, pos + 1)
        } else if c == '}' {
            (TokenV::RBrace, pos + 1)
        } else if c == ';' {
            (TokenV::Semicolon, pos + 1)
        } else if c == ':' {
            (TokenV::Colon, pos + 1)
        } else if c == ',' {
            (TokenV::Comma, pos + 1)
        } else if c == '.' {
            (TokenV::Dot, pos + 1)
        } else {
            (TokenV::Invalid, pos + 1)
        }
    }
}

/// Relies on String's `FromIterator`: collecting characters yields exactly
/// those characters.
#[verifier::external_body]
fn chars_to_string(v: &[char]) -> (r: String)
    ensures
        r@ == v@,
{
    v.iter().collect()
}

/// The scanner state: the decoded input and the current position.
#[derive(Debug)]
pub struct Lexer {
    input: Vec<char>,
    position: usize,
    line: usize,
    column: usize,
}

impl Lexer {
    /// The characters being scanned.
    pub closed spec fn chars(&self) -> Seq<char> {
        self.input@
    }

    /// The current scan position.
    pub closed spec fn pos(&self) -> nat {
        self.position as nat
    }

    /// The scanner never moves past the end of its input.
    pub open spec fn wf(&self) -> bool {
        self.pos() <= self.chars().len()
    }

    /// Creates a scanner over the given source text.
    pub fn new(input: String) -> (r: Self)
        ensures
            r.chars() == input@,
            r.pos() == 0,
            r.wf(),
    {
        let mut cs: Vec<char> = Vec::new();
        let s: &str = input.as_str();
        let mut it = s.chars();
        loop
            invariant
                it.remaining() == s@.skip(cs@.len() as int),
                cs@ == s@.take(cs@.len() as int),
                cs@.len() <= s@.len(),
            ensures
                cs@ == s@,
            decreases s@.len() - cs@.len(),
        {
            match it.next() {
                Some(c) => {
                    proof {
                        assert(s@.skip(cs@.len() as int)[0] == s@[cs@.len() as int]);
                        assert(s@.skip(cs@.len() as int).drop_first() =~= s@.skip(
                            cs@.len() as int + 1,
                        ));
                        assert(cs@.push(c) =~= s@.take(cs@.len() as int + 1));
                    }
                    cs.push(c);
                },
                None => {
                    proof {
                        assert(cs@ =~= s@);
                    }
                    break ;
                },
            }
        }
        Lexer { input: cs, position: 0, line: 1, column: 1 }
    }

    /// The character at the current position.
    fn current_char(&self) -> (r: char)
        requires
            self.wf(),
            self.pos() < self.chars().len(),
        ensures
            r == self.chars()[self.pos() as int],
    {
        self.input[self.position]
    }

    /// Moves one character forward.
    fn advance(&mut self)
        requires
            old(self).wf(),
            old(self).pos() < old(self).chars().len(),
        ensures
            final(self).wf(),
            final(self).chars() == old(self).chars(),
            final(self).pos() == old(self).pos() + 1,
    {
        let n: usize = self.input.len();
        self.position += 1;
        if self.column < usize::MAX {
            self.column += 1;
        }
    }

    /// Skips whitespace, keeping the line and column counters current.
    fn skip_whitespace(&mut self)
        requires
            old(self).wf(),
        ensures
            final(self).wf(),
            final(self).chars() == old(self).chars(),
            final(self).pos() == spec_skip_ws(old(self).chars(), old(self).pos() as int),
    {
        loop
            invariant
                self.wf(),
                self.chars() == old(self).chars(),
                spec_skip_ws(self.chars(), self.pos() as int) == spec_skip_ws(
                    old(self).chars(),
                    old(self).pos() as int,
                ),
            ensures
                self.wf(),
                self.chars() == old(self).chars(),
                self.pos() == spec_skip_ws(old(self).chars(), old(self).pos() as int),
            decreases self.chars().len() - self.pos(),
        {
            if self.position >= self.input.len() {
                break ;
            }
            let c = self.current_char();
            if !(c == ' ' || c == '\t' || c == '\n' || c == '\r') {
                break ;
            }
            if c == '\n' {
                if self.line < usize::MAX {
                    self.line = self.line + 1;
                }
                self.column = 1;
            }
            self.position += 1;
            if self.column < usize::MAX {
                self.column += 1;
            }
        }
    }

    /// Builds a token whose text began at `start` and ends here.
    fn create_token(&self, kind: TokenKind, start: usize) -> (r: Token)
        ensures
            r.kind == kind,
            r.span.start == start,
            r.span.end == self.pos(),
    {
        Token {
            kind,
            span: Span { start, end: self.position, line: self.line, column: self.column },
        }
    }

    /// Scans a run of digits into a number token, or an invalid token when
    /// the value does not fit in 64 bits.
    fn read_number(&mut self) -> (r: Token)
        requires
            old(self).wf(),
            old(self).pos() < old(self).chars().len(),
            is_digit_char(old(self).chars()[old(self).pos() as int]),
        ensures
            final(self).wf(),
            final(self).chars() == old(self).chars(),
            final(self).pos() == scan_digits(old(self).chars(), old(self).pos() as int),
            token_view(r.kind) == spec_token_at(old(self).chars(), old(self).pos() as int).0,
            r.span.start == old(self).pos(),
            r.span.end == final(self).pos(),
    {
        let ghost input = self.chars();
        let ghost p0 = self.pos() as int;
        let start: usize = self.position;
        let mut acc: u128 = 0;
        loop
            invariant
                self.wf(),
                self.chars() == input,
                p0 <= self.pos() <= self.chars().len(),
                start == p0,
                scan_digits(input, self.pos() as int) == scan_digits(input, p0),
                acc <= u64::MAX as u128 + 1,
                digits_val(input, p0, self.pos() as int) <= u64::MAX ==> acc == digits_val(
                    input,
                    p0,
                    self.pos() as int,
                ),
                digits_val(input, p0, self.pos() as int) > u64::MAX ==> acc == u64::MAX as u128
                    + 1,
            ensures
                self.wf(),
                self.chars() == input,
                p0 <= self.pos() <= self.chars().len(),
                self.pos() == scan_digits(input, p0),
                acc <= u64::MAX as u128 + 1,
                digits_val(input, p0, self.pos() as int) <= u64::MAX ==> acc == digits_val(
                    input,
                    p0,
                    self.pos() as int,
                ),
                digits_val(input, p0, self.pos() as int) > u64::MAX ==> acc == u64::MAX as u128
                    + 1,
            decreases self.chars().len() - self.pos(),
        {
            if self.position >= self.input.len() {
                break ;
            }
            let cu: u32 = self.current_char() as u32;
            if !(48 <= cu && cu <= 57) {
                break ;
            }
            let d: u128 = (cu as u128) - 48;
            let ghost val_before = digits_val(input, p0, self.pos() as int);
            let next: u128 = acc * 10 + d;
            if next > u64::MAX as u128 {
                acc = u64::MAX as u128 + 1;
            } else {
                acc = next;
            }
            self.position += 1;
            if self.column < usize::MAX {
                self.column += 1;
            }
            proof {
                assert(digits_val(input, p0, self.pos() as int) == val_before * 10 + (
                (input[self.pos() as int - 1] as u32) - 48));
                if val_before > u64::MAX {
                    assert(val_before * 10 + ((input[self.pos() as int - 1] as u32) - 48)
                        > u64::MAX);
                }
            }
        }
        let kind = if acc <= u64::MAX as u128 {
            TokenKind::Number(acc as u64)
        } else {
            TokenKind::Invalid
        };
        self.create_token(kind, start)
    }

    /// Scans an identifier or keyword.
    fn read_identifier(&mut self) -> (r: Token)
        requires
            old(self).wf(),
            old(self).pos() < old(self).chars().len(),
            is_ident_start(old(self).chars()[old(self).pos() as int]),
        ensures
            final(self).wf(),
            final(self).chars() == old(self).chars(),
            final(self).pos() == scan_ident(old(self).chars(), old(self).pos() as int),
            token_view(r.kind) == spec_token_at(old(self).chars(), old(self).pos() as int).0,
            r.span.start == old(self).pos(),
            r.span.end == final(self).pos(),
    {
        let ghost input = self.chars();
        let ghost p0 = self.pos() as int;
        let start: usize = self.position;
        loop
            invariant
                self.wf(),
                self.chars() == input,
                p0 <= self.pos() <= self.chars().len(),
                start == p0,
                scan_ident(input, self.pos() as int) == scan_ident(input, p0),
            ensures
                self.wf(),
                self.chars() == input,
                p0 <= self.pos() <= self.chars().len(),
                self.pos() == scan_ident(input, p0),
            decreases self.chars().len() - self.pos(),
        {
            if self.position >= self.input.len() {
                break ;
            }
            let u: u32 = self.current_char() as u32;
            if !((65 <= u && u <= 90) || (97 <= u && u <= 122) || u == 95 || (48 <= u && u
                <= 57)) {
                break ;
            }
            self.position += 1;
            if self.column < usize::MAX {
                self.column += 1;
            }
        }
        let text: String = chars_to_string(&self.input.as_slice()[start..self.position]);
        proof {
            assert(text@ =~= input.subrange(p0, self.pos() as int));
        }
        let kind = if str_eq(text.as_str(), "let") {
            TokenKind::Let
        } else if str_eq(text.as_str(), "const") {
            TokenKind::Const
        } else if str_eq(text.as_str(), "function") {
            TokenKind::Function
        } else if str_eq(text.as_str(), "if") {
            TokenKind::If
        } else if str_eq(text.as_str(), "return") {
            TokenKind::Return
        } else {
            TokenKind::Identifier(text)
        };
        self.create_token(kind, start)
    }

    /// Scans a string literal; an unterminated literal runs to the end of
    /// the input.
    fn read_string(&mut self) -> (r: Token)
        requires
            old(self).wf(),
            old(self).pos() < old(self).chars().len(),
            old(self).chars()[old(self).pos() as int] == '"',
        ensures
            final(self).wf(),
            final(self).chars() == old(self).chars(),
            final(self).pos() == spec_token_at(old(self).chars(), old(self).pos() as int).1,
            token_view(r.kind) == spec_token_at(old(self).chars(), old(self).pos() as int).0,
            r.span.start == old(self).pos(),
            r.span.end == final(self).pos(),
    {
        let ghost input = self.chars();
        let ghost p0 = self.pos() as int;
        let start: usize = self.position;
        self.advance();
        let content_start: usize = self.position;
        loop
            invariant
                self.wf(),
                self.chars() == input,
                p0 + 1 <= self.pos() <= self.chars().len(),
                content_start == p0 + 1,
                scan_string_end(input, self.pos() as int) == scan_string_end(input, p0 + 1),
            ensures
                self.wf(),
                self.chars() == input,
                p0 + 1 <= self.pos() <= self.chars().len(),
                self.pos() == scan_string_end(input, p0 + 1),
            decreases self.chars().len() - self.pos(),
        {
            if self.position >= self.input.len() {
                break ;
            }
            if self.current_char() == '"' {
                break ;
            }
            self.position += 1;
            if self.column < usize::MAX {
                self.column += 1;
            }
        }
        let text: String = chars_to_string(&self.input.as_slice()[content_start..self.position]);
        proof {
            assert(text@ =~= input.subrange(p0 + 1, scan_string_end(input, p0 + 1)));
        }
        if self.position < self.input.len() {
            self.advance();
        }
        self.create_token(TokenKind::String(text), start)
    }

    /// Scans a one-character token.
    fn single_char_token(&mut self, kind: TokenKind) -> (r: Token)
        requires
            old(self).wf(),
            old(self).pos() < old(self).chars().len(),
        ensures
            final(self).wf(),
            final(self).chars() == old(self).chars(),
            final(self).pos() == old(self).pos() + 1,
            r.kind == kind,
            r.span.start == old(self).pos(),
            r.span.end == final(self).pos(),
    {
        let start: usize = self.position;
        self.advance();
        self.create_token(kind, start)
    }

    /// Scans and returns the next token.
    pub fn next_token(&mut self) -> (r: Token)
        requires
            old(self).wf(),
        ensures
            final(self).wf(),
            final(self).chars() == old(self).chars(),
            ({
                let p = spec_skip_ws(old(self).chars(), old(self).pos() as int);
                let tk = spec_token_at(old(self).chars(), p);
                &&& token_view(r.kind) == tk.0
                &&& final(self).pos() == tk.1
                &&& r.span.start == p
                &&& r.span.end == tk.1
            }),
    {
        self.skip_whitespace();
        if self.position >= self.input.len() {
            return self.create_token(TokenKind::EOF, self.position);
        }
        let c = self.current_char();
        let u = c as u32;
        if 48 <= u && u <= 57 {
            self.read_number()
        } else if (65 <= u && u <= 90) || (97 <= u && u <= 122) || u == 95 {
            self.read_identifier()
        } else if c == '"' {
            self.read_string()
        } else if c == '+' {
            self.single_char_token(TokenKind::Plus)
        } else if c == '-' {
            self.single_char_token(TokenKind::Minus)
        } else if c == '=' {
            self.single_char_token(TokenKind::Assign)
        } else if c == '(' {
            self.single_char_token(TokenKind::LParen)
        } else if c == ')' {
            self.single_char_token(TokenKind::RParen)
        } else if c == '{' {
            self.single_char_token(TokenKind::LBrace)
        } else if c == '}' {
            self.single_char_token(TokenKind::RBrace)
        } else if c == ';' {
            self.single_char_token(TokenKind::Semicolon)
        } else if c == ':' {
            self.single_char_token(TokenKind::Colon)
        } else if c == ',' {
            self.single_char_token(TokenKind::Comma)
        } else if c == '.' {
            self.single_char_token(TokenKind::Dot)
        } else {
            self.single_char_token(TokenKind::Invalid)
        }
    }
}

/// `spec_skip_ws` stays within the input.
pub proof fn lemma_skip_ws_bounds(input: Seq<char>, pos: int)
    requires
        0 <= pos <= input.len(),
    ensures
        pos <= spec_skip_ws(input, pos) <= input.len(),
    decreases input.len() - pos,
{
    if pos < input.len() && is_ws_char(input[pos]) {
        lemma_skip_ws_bounds(input, pos + 1);
    }
}

/// `scan_digits` stays within the input.
pub proof fn lemma_scan_digits_bounds(input: Seq<char>, pos: int)
    requires
        0 <= pos <= input.len(),
    ensures
        pos <= scan_digits(input, pos) <= input.len(),
    decreases input.len() - pos,
{
    if pos < input.len() && is_digit_char(input[pos]) {
        lemma_scan_digits_bounds(input, pos + 1);
    }
}

/// `scan_ident` stays within the input.
pub proof fn lemma_scan_ident_bounds(input: Seq<char>, pos: int)
    requires
        0 <= pos <= input.len(),
    ensures
        pos <= scan_ident(input, pos) <= input.len(),
    decreases input.len() - pos,
{
    if pos < input.len() && is_ident_char(input[pos]) {
        lemma_scan_ident_bounds(input, pos + 1);
    }
}

/// `scan_string_end` stays within the input.
pub proof fn lemma_scan_string_bounds(input: Seq<char>, pos: int)
    requires
        0 <= pos <= input.len(),
    ensures
        pos <= scan_string_end(input, pos) <= input.len(),
    decreases input.len() - pos,
{
    if pos < input.len() && input[pos] != '"' {
        lemma_scan_string_bounds(input, pos + 1);
    }
}

/// A token starting inside the input ends past where it began, and within
/// the input.
pub proof fn lemma_token_at_bounds(input: Seq<char>, p: int)
    requires
        0 <= p <= input.len(),
    ensures
        p <= spec_token_at(input, p).1 <= input.len(),
        p < input.len() ==> spec_token_at(input, p).1 > p,
        p >= input.len() ==> spec_token_at(input, p).1 == p,
{
    if p < input.len() {
        let c = input[p];
        if is_digit_char(c) {
            lemma_scan_digits_bounds(input, p + 1);
        } else if is_ident_start(c) {
            lemma_scan_ident_bounds(input, p + 1);
        } else if c == '"' {
            lemma_scan_string_bounds(input, p + 1);
        }
    }
}

/// The stream of tokens from `pos` to the end of the input; the end-of-file
/// marker is not part of it.
pub open spec fn spec_tokens(input: Seq<char>, pos: int) -> Seq<TokenV>
    decreases input.len() - pos when 0 <= pos <= input.len() via spec_tokens_dec
{
    let p = spec_skip_ws(input, pos);
    if p >= input.len() {
        Seq::empty()
    } else {
        let tk = spec_token_at(input, p);
        seq![tk.0] + spec_tokens(input, tk.1)
    }
}

#[via_fn]
proof fn spec_tokens_dec(input: Seq<char>, pos: int) {
    lemma_skip_ws_bounds(input, pos);
    lemma_token_at_bounds(input, spec_skip_ws(input, pos));
}

/// One unfolding of `spec_tokens`, with the bounds that make it usable.
pub proof fn lemma_spec_tokens_step(input: Seq<char>, pos: int)
    requires
        0 <= pos <= input.len(),
    ensures
        ({
            let p = spec_skip_ws(input, pos);
            let tk = spec_token_at(input, p);
            &&& pos <= p <= input.len()
            &&& p <= tk.1 <= input.len()
            &&& (p >= input.len() ==> spec_tokens(input, pos) == Seq::<TokenV>::empty())
            &&& (p < input.len() ==> tk.1 > p && spec_tokens(input, pos) == seq![tk.0]
                + spec_tokens(input, tk.1))
        }),
{
    lemma_skip_ws_bounds(input, pos);
    lemma_token_at_bounds(input, spec_skip_ws(input, pos));
}

} // verus!
