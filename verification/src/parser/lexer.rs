use vstd::prelude::*;
use crate::parser::reader::{ReadError, Reader, whitespace, is_blank};
use crate::parser::tagged::{Span, Tagged};

verus! {

/// Why a token could not be read.
#[derive(Debug, Clone, Copy, PartialEq, Eq, Structural)]
pub enum LexerError {
    Read(ReadError),
    UnexpectedByte { byte: u8, span: Span },
    InvalidNumerical { byte: u8, span: Span },
    InvalidIdentifier { byte: u8, span: Span },
}

/// The kinds of token of the assembly language.
#[derive(Debug, PartialEq)]
pub enum TokenKind {
    Identifier(String),
    Register(String),
    DecimalLiteral(String),
    Dot,
    Comma,
    Colon,
    Plus,
    Minus,
    Star,
    Slash,
    LParen,
    RParen,
    LBracket,
    RBracket,
    Newline,
    Eof,
}

/// A token kind with its text as a sequence of characters.
pub enum TokenView {
    Identifier(Seq<char>),
    Register(Seq<char>),
    DecimalLiteral(Seq<char>),
    Dot,
    Comma,
    Colon,
    Plus,
    Minus,
    Star,
    Slash,
    LParen,
    RParen,
    LBracket,
    RBracket,
    Newline,
    Eof,
}

impl View for TokenKind {
    type V = TokenView;

    open spec fn view(&self) -> TokenView {
        match self {
            TokenKind::Identifier(s) => TokenView::Identifier(s@),
            TokenKind::Register(s) => TokenView::Register(s@),
            TokenKind::DecimalLiteral(s) => TokenView::DecimalLiteral(s@),
            TokenKind::Dot => TokenView::Dot,
            TokenKind::Comma => TokenView::Comma,
            TokenKind::Colon => TokenView::Colon,
            TokenKind::Plus => TokenView::Plus,
            TokenKind::Minus => TokenView::Minus,
            TokenKind::Star => TokenView::Star,
            TokenKind::Slash => TokenView::Slash,
            TokenKind::LParen => TokenView::LParen,
            TokenKind::RParen => TokenView::RParen,
            TokenKind::LBracket => TokenView::LBracket,
            TokenKind::RBracket => TokenView::RBracket,
            TokenKind::Newline => TokenView::Newline,
            TokenKind::Eof => TokenView::Eof,
        }
    }
}

impl Clone for TokenKind {
    fn clone(&self) -> (r: Self)
        ensures
            r == *self,
    {
        match self {
            TokenKind::Identifier(s) => TokenKind::Identifier(s.clone()),
            TokenKind::Register(s) => TokenKind::Register(s.clone()),
            TokenKind::DecimalLiteral(s) => TokenKind::DecimalLiteral(s.clone()),
            TokenKind::Dot => TokenKind::Dot,
            TokenKind::Comma => TokenKind::Comma,
            TokenKind::Colon => TokenKind::Colon,
            TokenKind::Plus => TokenKind::Plus,
            TokenKind::Minus => TokenKind::Minus,
            TokenKind::Star => TokenKind::Star,
            TokenKind::Slash => TokenKind::Slash,
            TokenKind::LParen => TokenKind::LParen,
            TokenKind::RParen => TokenKind::RParen,
            TokenKind::LBracket => TokenKind::LBracket,
            TokenKind::RBracket => TokenKind::RBracket,
            TokenKind::Newline => TokenKind::Newline,
            TokenKind::Eof => TokenKind::Eof,
        }
    }
}

/// A token with the stretch of source it was read from.
pub type Token = Tagged<TokenKind>;

/// A token as the specifications see it.
pub type TokenSpec = Tagged<TokenView>;

/// The view of a token.
pub open spec fn token_view(t: Token) -> TokenSpec {
    Tagged { kind: t.kind@, span: t.span }
}

impl Clone for Tagged<TokenKind> {
    fn clone(&self) -> (r: Self)
        ensures
            r == *self,
    {
        Tagged { kind: self.kind.clone(), span: self.span }
    }
}

/// Appends a character to a string.
#[verifier::external_body]
fn push_char(s: &mut String, c: char)
    ensures
        final(s)@ == old(s)@.push(c),
{
    s.push(c);
}

/// The character whose code is the byte.
pub open spec fn byte_to_char(b: u8) -> char {
    b as char
}

// Byte classes, as the ASCII methods of `u8` in std define them.

/// ASCII whitespace: space, tab, line feed, form feed, carriage return.
pub open spec fn is_ascii_whitespace(b: u8) -> bool {
    b == 0x20 || b == 0x09 || b == 0x0A || b == 0x0C || b == 0x0D
}

/// ASCII punctuation: the graphic characters that are not letters or digits.
pub open spec fn is_ascii_punctuation(b: u8) -> bool {
    (0x21 <= b <= 0x2F) || (0x3A <= b <= 0x40) || (0x5B <= b <= 0x60) || (0x7B <= b <= 0x7E)
}

/// An ASCII digit `0-9`.
pub open spec fn is_ascii_digit(b: u8) -> bool {
    0x30 <= b <= 0x39
}

/// An ASCII letter `A-Z` or `a-z`.
pub open spec fn is_ascii_alphabetic(b: u8) -> bool {
    (0x41 <= b <= 0x5A) || (0x61 <= b <= 0x7A)
}

/// An ASCII letter or digit.
pub open spec fn is_ascii_alphanumeric(b: u8) -> bool {
    is_ascii_digit(b) || is_ascii_alphabetic(b)
}

/// A byte that ends a number or a name.
pub open spec fn is_delimiter(b: u8) -> bool {
    is_ascii_whitespace(b) || is_ascii_punctuation(b)
}

fn ascii_whitespace(b: u8) -> (r: bool)
    ensures
        r == is_ascii_whitespace(b),
{
    b == 0x20 || b == 0x09 || b == 0x0A || b == 0x0C || b == 0x0D
}

fn ascii_punctuation(b: u8) -> (r: bool)
    ensures
        r == is_ascii_punctuation(b),
{
    (0x21 <= b && b <= 0x2F) || (0x3A <= b && b <= 0x40) || (0x5B <= b && b <= 0x60) || (0x7B <= b && b <= 0x7E)
}

fn ascii_digit(b: u8) -> (r: bool)
    ensures
        r == is_ascii_digit(b),
{
    0x30 <= b && b <= 0x39
}

fn ascii_alphabetic(b: u8) -> (r: bool)
    ensures
        r == is_ascii_alphabetic(b),
{
    (0x41 <= b && b <= 0x5A) || (0x61 <= b && b <= 0x7A)
}

/// The value of a string of decimal digits.
pub open spec fn decimal_value(s: Seq<u8>) -> nat
    decreases s.len(),
{
    if s.len() == 0 {
        0
    } else {
        decimal_value(s.drop_last()) * 10 + (s.last() - 0x30) as nat
    }
}

/// Every byte is a decimal digit.
pub open spec fn all_digits(s: Seq<u8>) -> bool {
    forall|i: int| 0 <= i < s.len() ==> is_ascii_digit(#[trigger] s[i])
}

/// Whether `s` is a non-empty string of digits whose value is at most `limit`.
pub open spec fn decimal_fits(s: Seq<u8>, limit: nat) -> bool {
    s.len() > 0 && all_digits(s) && decimal_value(s) <= limit
}

/// The value of digits only grows as more digits follow.
pub proof fn lemma_decimal_value_prefix(s: Seq<u8>, i: int)
    requires
        0 <= i <= s.len(),
        all_digits(s),
    ensures
        decimal_value(s.take(i)) <= decimal_value(s),
    decreases s.len() - i,
{
    if i < s.len() {
        lemma_decimal_value_prefix(s, i + 1);
        assert(s.take(i + 1).drop_last() =~= s.take(i));
        assert(is_ascii_digit(s[i]));
    } else {
        assert(s.take(i) =~= s);
    }
}

/// Whether the bytes of `v` from `start` on are digits with a value of at
/// most `limit`.
pub fn fits_decimal(v: &Vec<u8>, start: usize, limit: u64) -> (r: bool)
    requires
        start <= v@.len(),
    ensures
        r == decimal_fits(v@.skip(start as int), limit as nat),
{
    let ghost s = v@.skip(start as int);
    if start >= v.len() {
        return false;
    }
    let mut acc: u64 = 0;
    let mut i: usize = start;
    while i < v.len()
        invariant
            start <= i <= v@.len(),
            s == v@.skip(start as int),
            all_digits(s.take(i - start)),
            acc == decimal_value(s.take(i - start)),
            acc <= limit,
        decreases v@.len() - i,
    {
        let b = v[i];
        if !ascii_digit(b) {
            proof {
                assert(s[i - start] == b);
            }
            return false;
        }
        let d = (b - 0x30) as u64;
        proof {
            assert(s.take(i - start + 1).drop_last() =~= s.take(i - start));
            assert(s.take(i - start + 1).last() == b);
        }
        let next = match acc.checked_mul(10) {
            Some(m) => m.checked_add(d),
            None => None,
        };
        match next {
            Some(n) if n <= limit => {
                acc = n;
            },
            _ => {
                proof {
                    assert(all_digits(s.take(i - start + 1)));
                    if all_digits(s) {
                        lemma_decimal_value_prefix(s, i - start + 1);
                        assert(s.take(i - start + 1) =~= s.take(i - start + 1));
                    }
                }
                return false;
            },
        }
        i = i + 1;
        proof {
            assert(all_digits(s.take(i - start)));
        }
    }
    proof {
        assert(s.take(i - start) =~= s);
    }
    true
}

/// The first position at or after `i` that is not a blank.
pub open spec fn skip_blanks(input: Seq<u8>, i: nat) -> nat
    decreases input.len() - i,
{
    if i < input.len() && is_blank(input[i as int]) {
        skip_blanks(input, i + 1)
    } else {
        i
    }
}

/// Scans a number (`alnum` false) or a name (`alnum` true) from `i`: `Ok`
/// with the first delimiter or the end of input, `Err` with the first byte
/// before it that does not belong.
pub open spec fn scan(input: Seq<u8>, i: nat, alnum: bool) -> Result<nat, nat>
    decreases input.len() - i,
{
    if i >= input.len() || is_delimiter(input[i as int]) {
        Ok(i)
    } else if !(if alnum { is_ascii_alphanumeric(input[i as int]) } else { is_ascii_digit(input[i as int]) }) {
        Err(i)
    } else {
        scan(input, i + 1, alnum)
    }
}

/// The characters of `input[a..b]`.
pub open spec fn text(input: Seq<u8>, a: int, b: int) -> Seq<char> {
    input.subrange(a, b).map_values(|x: u8| byte_to_char(x))
}

/// A name is a register when it is `r` followed by a decimal number that fits
/// in `usize`.
pub open spec fn is_register_name(name: Seq<u8>) -> bool {
    name.len() > 0 && name[0] == 0x72 && decimal_fits(name.skip(1), usize::MAX as nat)
}

/// The one-byte tokens.
pub open spec fn single_token(b: u8) -> Option<TokenView> {
    if b == 0x2C { Some(TokenView::Comma) }
    else if b == 0x2E { Some(TokenView::Dot) }
    else if b == 0x3A { Some(TokenView::Colon) }
    else if b == 0x2B { Some(TokenView::Plus) }
    else if b == 0x2D { Some(TokenView::Minus) }
    else if b == 0x2A { Some(TokenView::Star) }
    else if b == 0x2F { Some(TokenView::Slash) }
    else if b == 0x28 { Some(TokenView::LParen) }
    else if b == 0x29 { Some(TokenView::RParen) }
    else if b == 0x5B { Some(TokenView::LBracket) }
    else if b == 0x5D { Some(TokenView::RBracket) }
    else if b == 0x0A { Some(TokenView::Newline) }
    else { None }
}

/// A stretch of `len` bytes ending at `end`, cut at the start of input.
pub open spec fn span_before(end: nat, len: nat) -> Span {
    Span { offset: (if end >= len { end - len } else { 0 }) as usize, len: len as usize }
}

/// The outcome of reading one token: the token or error, and where reading
/// stopped.
pub struct Lexed {
    pub result: Result<TokenSpec, LexerError>,
    pub next: nat,
}

/// Reads one token at `pos` of `input`. Blanks are skipped first. The end of
/// input gives `Eof` and stays put. A number or a name runs to the first
/// whitespace or punctuation byte; a byte that does not belong before that
/// is consumed and reported. A byte that starts no token is reported without
/// being consumed.
#[verifier::opaque]
pub open spec fn lex(input: Seq<u8>, pos: nat) -> Lexed {
    let p = skip_blanks(input, pos);
    if p >= input.len() {
        Lexed { result: Ok(Tagged { kind: TokenView::Eof, span: Span { offset: p as usize, len: 0 } }), next: p }
    } else {
        let c = input[p as int];
        if single_token(c) is Some {
            Lexed { result: Ok(Tagged { kind: single_token(c)->Some_0, span: Span { offset: p as usize, len: 1 } }), next: p + 1 }
        } else if is_ascii_digit(c) {
            match scan(input, p + 1, false) {
                Ok(e) => Lexed {
                    result: Ok(Tagged { kind: TokenView::DecimalLiteral(text(input, p as int, e as int)), span: Span { offset: p as usize, len: (e - p) as usize } }),
                    next: e,
                },
                Err(b) => Lexed {
                    result: Err(LexerError::InvalidNumerical { byte: input[b as int], span: Span { offset: p as usize, len: (b + 1 - p) as usize } }),
                    next: b + 1,
                },
            }
        } else if is_ascii_alphabetic(c) {
            match scan(input, p + 1, true) {
                Ok(e) => Lexed {
                    result: Ok(Tagged {
                        kind: if is_register_name(input.subrange(p as int, e as int)) {
                            TokenView::Register(text(input, p as int, e as int))
                        } else {
                            TokenView::Identifier(text(input, p as int, e as int))
                        },
                        span: Span { offset: p as usize, len: (e - p) as usize },
                    }),
                    next: e,
                },
                Err(b) => Lexed {
                    result: Err(LexerError::InvalidIdentifier { byte: input[b as int], span: Span { offset: p as usize, len: (b + 1 - p) as usize } }),
                    next: b + 1,
                },
            }
        } else {
            Lexed { result: Err(LexerError::UnexpectedByte { byte: c, span: span_before(p, 1) }), next: p }
        }
    }
}

/// The view of a lexer result.
pub open spec fn lex_result_view(r: Result<Token, LexerError>) -> Result<TokenSpec, LexerError> {
    match r {
        Ok(t) => Ok(token_view(t)),
        Err(e) => Err(e),
    }
}

/// Skipping blanks never goes back, nor past the end of input.
pub proof fn lemma_skip_blanks_bound(input: Seq<u8>, i: nat)
    ensures
        i <= skip_blanks(input, i),
        i <= input.len() ==> skip_blanks(input, i) <= input.len(),
    decreases input.len() - i,
{
    if i < input.len() && is_blank(input[i as int]) {
        lemma_skip_blanks_bound(input, i + 1);
    }
}

/// A scan ends at or after where it started: within the input when it
/// succeeds, on an input byte when it fails.
pub proof fn lemma_scan_bound(input: Seq<u8>, i: nat, alnum: bool)
    ensures
        match scan(input, i, alnum) {
            Ok(e) => i <= e && (i <= input.len() ==> e <= input.len()),
            Err(b) => i <= b < input.len(),
        },
    decreases input.len() - i,
{
    if !(i >= input.len() || is_delimiter(input[i as int])) {
        lemma_scan_bound(input, i + 1, alnum);
    }
}

/// Reading a token never goes back; a token other than `Eof` consumes at
/// least one byte and stays within the input.
pub proof fn lemma_lex_progress(input: Seq<u8>, pos: nat)
    ensures
        pos <= lex(input, pos).next,
        pos <= input.len() ==> lex(input, pos).next <= input.len(),
        lex(input, pos).result matches Ok(t) && !(t.kind is Eof) ==> pos < lex(input, pos).next <= input.len(),
        lex(input, pos).result matches Ok(t) && t.kind is Eof ==> lex(input, pos).next == skip_blanks(input, pos),
{
    reveal(lex);
    lemma_skip_blanks_bound(input, pos);
    let p = skip_blanks(input, pos);
    if p < input.len() {
        lemma_scan_bound(input, p + 1, false);
        lemma_scan_bound(input, p + 1, true);
    }
}

/// A register name has at least one character after the `r`.
pub proof fn lemma_register_text(input: Seq<u8>, pos: nat)
    ensures
        lex(input, pos).result matches Ok(t) ==> (t.kind is Register ==> t.kind->Register_0.len() >= 2),
{
    reveal(lex);
    lemma_skip_blanks_bound(input, pos);
    let p = skip_blanks(input, pos);
    if p < input.len() {
        lemma_scan_bound(input, p + 1, true);
    }
}

/// Reading a token never goes back, nor past the end of input.
pub proof fn lemma_lex_bounds(input: Seq<u8>, pos: nat)
    requires
        pos <= input.len(),
        input.len() < usize::MAX,
    ensures
        pos <= lex(input, pos).next <= input.len(),
        ({
            let l = lex(input, pos);
            &&& l.result matches Ok(t) ==> pos <= t.span.offset && t.span.offset + t.span.len == l.next
            &&& l.result matches Ok(t) ==> (t.kind is Eof <==> l.next == skip_blanks(input, pos))
            &&& l.result matches Ok(t) ==> (t.kind is Eof ==> skip_blanks(input, pos) == input.len())
        }),
{
    reveal(lex);
    lemma_skip_blanks_bound(input, pos);
    let p = skip_blanks(input, pos);
    if p < input.len() {
        lemma_scan_bound(input, p + 1, false);
        lemma_scan_bound(input, p + 1, true);
    }
}

/// A lexer over an input held in memory.
pub struct Lexer {
    reader: Reader<256>,
}

impl Lexer {
    /// The reader is well formed and has not read past the end of input.
    pub closed spec fn wf(self) -> bool {
        self.reader.wf() && !self.reader.at_eof()
    }

    /// The input.
    pub closed spec fn input(self) -> Seq<u8> {
        self.reader.input()
    }

    /// Where the next token starts (before blanks are skipped).
    pub closed spec fn pos(self) -> nat {
        self.reader.pos()
    }

    /// A well-formed lexer stands within its input.
    pub proof fn lemma_wf(self)
        requires
            self.wf(),
        ensures
            self.pos() <= self.input().len(),
            self.input().len() < usize::MAX,
    {
        self.reader.lemma_wf();
    }

    /// A lexer at the start of `input`.
    pub fn new(input: &[u8]) -> (r: Self)
        requires
            input@.len() < usize::MAX,
        ensures
            r.wf(),
            r.input() == input@,
            r.pos() == 0,
    {
        Self { reader: Reader::new(input) }
    }

    /// The stretch of the last `len` bytes read.
    fn span(&self, len: usize) -> (r: Span)
        ensures
            r == span_before(self.pos(), len as nat),
    {
        Span::new(self.reader.offset().saturating_sub(len), len)
    }

    /// Reads a one-byte token.
    fn parse_punct(&mut self, kind: TokenKind) -> (r: Result<Token, LexerError>)
        requires
            old(self).wf(),
            old(self).pos() < old(self).input().len(),
        ensures
            final(self).wf(),
            final(self).input() == old(self).input(),
            final(self).pos() == old(self).pos() + 1,
            r == Ok::<Token, LexerError>(Tagged { kind, span: Span { offset: old(self).pos() as usize, len: 1 } }),
    {
        let _ = self.reader.read_exact();
        Ok(Token::new(kind, self.span(1)))
    }

    /// Reads a number: digits up to the next delimiter.
    fn parse_number(&mut self) -> (r: Result<Token, LexerError>)
        requires
            old(self).wf(),
            old(self).pos() < old(self).input().len(),
            is_ascii_digit(old(self).input()[old(self).pos() as int]),
        ensures
            final(self).wf(),
            final(self).input() == old(self).input(),
            ({
                let (input, p) = (old(self).input(), old(self).pos());
                match scan(input, p + 1, false) {
                    Ok(e) => final(self).pos() == e && lex_result_view(r) == Ok::<TokenSpec, LexerError>(Tagged {
                        kind: TokenView::DecimalLiteral(text(input, p as int, e as int)),
                        span: Span { offset: p as usize, len: (e - p) as usize },
                    }),
                    Err(b) => final(self).pos() == b + 1 && r == Err::<Token, LexerError>(LexerError::InvalidNumerical { byte: input[b as int], span: Span { offset: p as usize, len: (b + 1 - p) as usize } }),
                }
            }),
    {
        let ghost input = self.input();
        let ghost p = self.pos();
        proof {
            self.reader.lemma_wf();
        }
        let mut digit = String::new();
        let first = match self.reader.read_exact() {
            Ok(b) => b,
            Err(e) => return Err(LexerError::Read(e)),
        };
        let mut count: usize = 1;
        push_char(&mut digit, first as char);
        proof {
            assert(digit@ =~= text(input, p as int, (p + 1) as int));
        }

        loop
            invariant
                self.wf(),
                self.input() == input,
                input == old(self).input(),
                p == old(self).pos(),
                input.len() < usize::MAX,
                p < self.pos() <= input.len(),
                count == self.pos() - p,
                digit@ == text(input, p as int, self.pos() as int),
                scan(input, p + 1, false) == scan(input, self.pos(), false),
            ensures
                self.wf(),
                self.input() == input,
                p < self.pos() <= input.len(),
                count == self.pos() - p,
                digit@ == text(input, p as int, self.pos() as int),
                scan(input, p + 1, false) == Ok::<nat, nat>(self.pos()),
            decreases input.len() - self.pos(),
        {
            let next = match self.reader.peek() {
                Ok(Some(next)) => next,
                _ => break,
            };
            if ascii_whitespace(next) || ascii_punctuation(next) {
                break;
            }

            let next = match self.reader.read_exact() {
                Ok(b) => b,
                Err(e) => return Err(LexerError::Read(e)),
            };
            if !ascii_digit(next) {
                return Err(LexerError::InvalidNumerical { byte: next, span: self.span(count + 1) });
            }
            push_char(&mut digit, next as char);
            count = count + 1;
            proof {
                assert(digit@ =~= text(input, p as int, self.pos() as int));
            }
        }
        let length = count;
        Ok(Token::new(TokenKind::DecimalLiteral(digit), self.span(length)))
    }

    /// Reads a name: letters and digits up to the next delimiter. A name
    /// that is `r` and a number is a register.
    fn parse_identifier_register(&mut self) -> (r: Result<Token, LexerError>)
        requires
            old(self).wf(),
            old(self).pos() < old(self).input().len(),
            is_ascii_alphabetic(old(self).input()[old(self).pos() as int]),
        ensures
            final(self).wf(),
            final(self).input() == old(self).input(),
            ({
                let (input, p) = (old(self).input(), old(self).pos());
                match scan(input, p + 1, true) {
                    Ok(e) => final(self).pos() == e && lex_result_view(r) == Ok::<TokenSpec, LexerError>(Tagged {
                        kind: if is_register_name(input.subrange(p as int, e as int)) {
                            TokenView::Register(text(input, p as int, e as int))
                        } else {
                            TokenView::Identifier(text(input, p as int, e as int))
                        },
                        span: Span { offset: p as usize, len: (e - p) as usize },
                    }),
                    Err(b) => final(self).pos() == b + 1 && r == Err::<Token, LexerError>(LexerError::InvalidIdentifier { byte: input[b as int], span: Span { offset: p as usize, len: (b + 1 - p) as usize } }),
                }
            }),
    {
        let ghost input = self.input();
        let ghost p = self.pos();
        proof {
            self.reader.lemma_wf();
        }
        let mut value = String::new();
        let mut bytes: Vec<u8> = Vec::new();
        let first = match self.reader.read_exact() {
            Ok(b) => b,
            Err(e) => return Err(LexerError::Read(e)),
        };
        push_char(&mut value, first as char);
        bytes.push(first);
        proof {
            assert(value@ =~= text(input, p as int, (p + 1) as int));
            assert(bytes@ =~= input.subrange(p as int, (p + 1) as int));
        }

        loop
            invariant
                self.wf(),
                self.input() == input,
                input == old(self).input(),
                p == old(self).pos(),
                input.len() < usize::MAX,
                p < self.pos() <= input.len(),
                bytes@ == input.subrange(p as int, self.pos() as int),
                value@ == text(input, p as int, self.pos() as int),
                scan(input, p + 1, true) == scan(input, self.pos(), true),
            ensures
                self.wf(),
                self.input() == input,
                p < self.pos() <= input.len(),
                bytes@ == input.subrange(p as int, self.pos() as int),
                value@ == text(input, p as int, self.pos() as int),
                scan(input, p + 1, true) == Ok::<nat, nat>(self.pos()),
            decreases input.len() - self.pos(),
        {
            let next = match self.reader.peek() {
                Ok(Some(next)) => next,
                _ => break,
            };
            if ascii_whitespace(next) || ascii_punctuation(next) {
                break;
            }

            let next = match self.reader.read_exact() {
                Ok(b) => b,
                Err(e) => return Err(LexerError::Read(e)),
            };
            if !(ascii_digit(next) || ascii_alphabetic(next)) {
                return Err(LexerError::InvalidIdentifier { byte: next, span: self.span(bytes.len() + 1) });
            }
            push_char(&mut value, next as char);
            bytes.push(next);
            proof {
                assert(value@ =~= text(input, p as int, self.pos() as int));
                assert(bytes@ =~= input.subrange(p as int, self.pos() as int));
            }
        }

        // check if register-format, or if identifier
        let length = bytes.len();
        let is_register = bytes[0] == 0x72 && fits_decimal(&bytes, 1, usize::MAX as u64);
        let token = if is_register {
            Token::new(TokenKind::Register(value), self.span(length))
        } else {
            Token::new(TokenKind::Identifier(value), self.span(length))
        };

        Ok(token)
    }

    /// Reads the next token: see `lex`.
    pub fn parse_token(&mut self) -> (r: Result<Token, LexerError>)
        requires
            old(self).wf(),
        ensures
            final(self).wf(),
            final(self).input() == old(self).input(),
            final(self).pos() == lex(old(self).input(), old(self).pos()).next,
            lex_result_view(r) == lex(old(self).input(), old(self).pos()).result,
    {
        reveal(lex);
        let ghost input = self.input();
        proof {
            self.reader.lemma_wf();
        }
        let not_blank = |b: u8| -> (r: bool)
            ensures
                r == !is_blank(b),
        {
            !whitespace(b)
        };
        let _ = self.reader.skip_until(not_blank);
        proof {
            self.reader.lemma_wf();
            let k = self.pos() - old(self).pos();
            assert forall|j: int| old(self).pos() <= j < self.pos() implies is_blank(input[j]) by {
                assert(old(self).reader.rest()[j - old(self).pos()] == input[j]);
                assert(call_ensures(not_blank, (old(self).reader.rest()[j - old(self).pos()],), false));
            }
            if self.pos() < input.len() {
                assert(self.reader.rest()[0] == input[self.pos() as int]);
            }
            lemma_blanks(input, old(self).pos(), self.pos());
        }
        let char = match self.reader.peek() {
            Ok(Some(char)) => char,
            _ => return Ok(Token::new(TokenKind::Eof, self.span(0))),
        };

        let token = if char == 0x2C {
            self.parse_punct(TokenKind::Comma)?
        } else if char == 0x2E {
            self.parse_punct(TokenKind::Dot)?
        } else if char == 0x3A {
            self.parse_punct(TokenKind::Colon)?
        } else if char == 0x2B {
            self.parse_punct(TokenKind::Plus)?
        } else if char == 0x2D {
            self.parse_punct(TokenKind::Minus)?
        } else if char == 0x2A {
            self.parse_punct(TokenKind::Star)?
        } else if char == 0x2F {
            self.parse_punct(TokenKind::Slash)?
        } else if char == 0x28 {
            self.parse_punct(TokenKind::LParen)?
        } else if char == 0x29 {
            self.parse_punct(TokenKind::RParen)?
        } else if char == 0x5B {
            self.parse_punct(TokenKind::LBracket)?
        } else if char == 0x5D {
            self.parse_punct(TokenKind::RBracket)?
        } else if char == 0x0A {
            self.parse_punct(TokenKind::Newline)?
        } else if ascii_digit(char) {
            self.parse_number()?
        } else if ascii_alphabetic(char) {
            self.parse_identifier_register()?
        } else {
            return Err(LexerError::UnexpectedByte { byte: char, span: self.span(1) });
        };
        Ok(token)
    }
}

/// Bytes that are all blanks, followed by a non-blank or the end, are what
/// `skip_blanks` skips.
proof fn lemma_blanks(input: Seq<u8>, from: nat, to: nat)
    requires
        from <= to <= input.len(),
        forall|j: int| from <= j < to ==> is_blank(input[j]),
        to < input.len() ==> !is_blank(input[to as int]),
    ensures
        skip_blanks(input, from) == to,
    decreases to - from,
{
    if from < to {
        lemma_blanks(input, from + 1, to);
    }
}

} // verus!
