//! Grammar
//! program     ::= { line } EOF
//! line        ::= [ statement ] NEWLINE
//! statement   ::= instruction
//!                | directive
//!                | label
//!
//! label       ::= IDENT COLON
//! instruction ::= mnemonic [ operand_list ]
//! mnemonic    ::= IDENT
//! operand_list ::= operand { COMMA operand }
//!
//! directive   ::= DOT IDENT [ directive_args ]
//! directive_args ::= operand_list
//! operand     ::= register
//!               | memory
//!               | expression
//!
//! memory     ::= LBRACKET register [ expression ] RBRACKET
//!
//! expression ::= additive
//!
//! additive   ::= multiplicative { (PLUS | MINUS) multiplicative }
//! multiplicative ::= unary { (STAR | SLASH) unary }
//! unary      ::= (PLUS | MINUS) unary
//!              | primary
//! primary    ::= NUMBER
//!              | IDENT
//!              | LPAREN expression RPAREN
pub mod tagged;
pub mod reader;
pub mod lexer;
pub mod buflexer;
pub mod text;

use vstd::prelude::*;
use crate::parser::buflexer::{BufferedLexer, peek_step, advance_step};
use crate::parser::lexer::{LexerError, Token, TokenKind, TokenSpec, TokenView, lex, lex_result_view, token_view, lemma_lex_bounds};
use crate::parser::tagged::{Span, Tagged};

verus! {

/// Why a number could not be read.
#[derive(Debug, Clone, Copy, PartialEq, Eq, Structural)]
pub enum NumberError {
    /// There were no digits.
    Empty,
    /// A character is not a decimal digit.
    InvalidDigit,
    /// The number is too large for its type.
    PosOverflow,
}

/// A decimal digit character.
pub open spec fn is_digit_char(c: char) -> bool {
    48 <= (c as u32) <= 57
}

/// The value of a string of decimal digit characters.
pub open spec fn digits_value(s: Seq<char>) -> nat
    decreases s.len(),
{
    if s.len() == 0 {
        0
    } else {
        digits_value(s.drop_last()) * 10 + ((s.last() as u32) - 48) as nat
    }
}

/// Reading `s` as a decimal number of at most `limit`.
pub open spec fn decimal(s: Seq<char>, limit: nat) -> Result<nat, NumberError> {
    if s.len() == 0 {
        Err(NumberError::Empty)
    } else if !(forall|i: int| 0 <= i < s.len() ==> is_digit_char(#[trigger] s[i])) {
        Err(NumberError::InvalidDigit)
    } else if digits_value(s) > limit {
        Err(NumberError::PosOverflow)
    } else {
        Ok(digits_value(s))
    }
}

proof fn lemma_digits_value_prefix(s: Seq<char>, i: int)
    requires
        0 <= i <= s.len(),
        forall|j: int| 0 <= j < s.len() ==> is_digit_char(#[trigger] s[j]),
    ensures
        digits_value(s.take(i)) <= digits_value(s),
    decreases s.len() - i,
{
    if i < s.len() {
        lemma_digits_value_prefix(s, i + 1);
        assert(s.take(i + 1).drop_last() =~= s.take(i));
        assert(is_digit_char(s[i]));
    } else {
        assert(s.take(i) =~= s);
    }
}

/// Reads the characters of `s` from `start` on as a decimal number of at
/// most `limit`.
pub fn parse_decimal(s: &str, start: usize, limit: u64) -> (r: Result<u64, NumberError>)
    requires
        start <= s@.len(),
    ensures
        match r {
            Ok(v) => decimal(s@.skip(start as int), limit as nat) == Ok::<nat, NumberError>(v as nat),
            Err(e) => decimal(s@.skip(start as int), limit as nat) == Err::<nat, NumberError>(e),
        },
{
    let ghost t = s@.skip(start as int);
    let len = s.unicode_len();
    if start >= len {
        return Err(NumberError::Empty);
    }
    let mut i: usize = start;
    while i < len
        invariant
            start <= i <= len,
            len == s@.len(),
            t == s@.skip(start as int),
            forall|j: int| 0 <= j < i - start ==> is_digit_char(#[trigger] t[j]),
        decreases len - i,
    {
        let c = s.get_char(i);
        if !(48 <= (c as u32) && (c as u32) <= 57) {
            proof {
                assert(t[i - start] == c);
            }
            return Err(NumberError::InvalidDigit);
        }
        i = i + 1;
    }
    let mut acc: u64 = 0;
    let mut i: usize = start;
    while i < len
        invariant
            start <= i <= len,
            len == s@.len(),
            t == s@.skip(start as int),
            forall|j: int| 0 <= j < t.len() ==> is_digit_char(#[trigger] t[j]),
            acc == digits_value(t.take(i - start)),
            acc <= limit,
        decreases len - i,
    {
        let c = s.get_char(i);
        proof {
            assert(t[i - start] == c);
            assert(is_digit_char(t[i - start]));
            assert(t.take(i - start + 1).drop_last() =~= t.take(i - start));
        }
        let d = ((c as u32) - 48) as u64;
        let next = match acc.checked_mul(10) {
            Some(m) => m.checked_add(d),
            None => None,
        };
        match next {
            Some(n) if n <= limit => {
                acc = n;
            },
            _ => {
                proof {
                    lemma_digits_value_prefix(t, i - start + 1);
                }
                return Err(NumberError::PosOverflow);
            },
        }
        i = i + 1;
    }
    proof {
        assert(t.take(i - start) =~= t);
    }
    Ok(acc)
}

/// Why a line could not be parsed.
#[derive(Debug)]
pub enum ParserError {
    UnexpectedToken { topic: String, received: TokenKind, expected: Vec<TokenKind>, span: Span },
    InvalidNumber { error: NumberError, span: Span },
    Lexer(LexerError),
}

/// A parser error with its texts as sequences.
pub enum ParserErrorView {
    UnexpectedToken { topic: Seq<char>, received: TokenView, expected: Seq<TokenView>, span: Span },
    InvalidNumber { error: NumberError, span: Span },
    Lexer(LexerError),
}

impl View for ParserError {
    type V = ParserErrorView;

    open spec fn view(&self) -> ParserErrorView {
        match self {
            ParserError::UnexpectedToken { topic, received, expected, span } => ParserErrorView::UnexpectedToken {
                topic: topic@,
                received: received@,
                expected: expected@.map_values(|t: TokenKind| t@),
                span: *span,
            },
            ParserError::InvalidNumber { error, span } => ParserErrorView::InvalidNumber { error: *error, span: *span },
            ParserError::Lexer(e) => ParserErrorView::Lexer(*e),
        }
    }
}

/// The view of a result whose error is a parser error.
pub open spec fn result_view<T>(r: Result<T, ParserError>) -> Result<T, ParserErrorView> {
    match r {
        Ok(v) => Ok(v),
        Err(e) => Err(e@),
    }
}

/// An unexpected token while parsing `topic`.
pub open spec fn unexpected(topic: Seq<char>, received: TokenView, expected: Seq<TokenView>, span: Span) -> ParserErrorView {
    ParserErrorView::UnexpectedToken { topic, received, expected, span }
}

/// A line of assembly: an optional label and an optional statement.
#[derive(Debug)]
pub struct Line {
    pub label: Option<String>,
    pub statement: Option<Statement>,
    pub span: Span,
}

/// An instruction, or a directive (written with a leading dot).
#[derive(Debug)]
pub enum Statement {
    Instruction(ParsedStatement),
    Directive(ParsedStatement),
}

/// A statement's name and operands.
#[derive(Debug)]
pub struct ParsedStatement {
    pub name: String,
    pub operands: Vec<Operand>,
    pub span: Span,
}

pub type Operand = Tagged<OperandKind>;

/// An operand: a register, a memory reference through a register with an
/// optional offset, or an expression.
#[derive(Debug)]
pub enum OperandKind {
    Register(u8),
    Memory { register: u8, offset: Option<Expression> },
    Expression(Expression),
}

pub type Expression = Tagged<ExpressionKind>;

/// An arithmetic expression.
#[derive(Debug)]
pub enum ExpressionKind {
    Number(i64),
    Identifier(String),
    Unary { op: UnaryOp, expression: Box<Expression> },
    Binary { left: Box<Expression>, op: BinaryOp, right: Box<Expression> },
}

/// An expression with its names as sequences of characters.
pub enum ExpressionKindView {
    Number(i64),
    Identifier(Seq<char>),
    Unary { op: UnaryOp, expression: Box<ExpressionView> },
    Binary { left: Box<ExpressionView>, op: BinaryOp, right: Box<ExpressionView> },
}

pub type ExpressionView = Tagged<ExpressionKindView>;

/// An operand with its names as sequences of characters.
pub enum OperandKindView {
    Register(u8),
    Memory { register: u8, offset: Option<ExpressionView> },
    Expression(ExpressionView),
}

pub type OperandView = Tagged<OperandKindView>;

/// The view of an expression, part by part.
pub open spec fn expression_view(e: Expression) -> ExpressionView
    decreases e,
{
    Tagged {
        kind: match e.kind {
            ExpressionKind::Number(v) => ExpressionKindView::Number(v),
            ExpressionKind::Identifier(name) => ExpressionKindView::Identifier(name@),
            ExpressionKind::Unary { op, expression } => ExpressionKindView::Unary {
                op,
                expression: Box::new(expression_view(*expression)),
            },
            ExpressionKind::Binary { left, op, right } => ExpressionKindView::Binary {
                left: Box::new(expression_view(*left)),
                op,
                right: Box::new(expression_view(*right)),
            },
        },
        span: e.span,
    }
}

impl View for Tagged<ExpressionKind> {
    type V = ExpressionView;

    open spec fn view(&self) -> ExpressionView {
        expression_view(*self)
    }
}

impl View for OperandKind {
    type V = OperandKindView;

    open spec fn view(&self) -> OperandKindView {
        match self {
            OperandKind::Register(index) => OperandKindView::Register(*index),
            OperandKind::Memory { register, offset } => OperandKindView::Memory {
                register: *register,
                offset: match offset {
                    Some(e) => Some(expression_view(*e)),
                    None => None,
                },
            },
            OperandKind::Expression(e) => OperandKindView::Expression(expression_view(*e)),
        }
    }
}

impl View for Tagged<OperandKind> {
    type V = OperandView;

    open spec fn view(&self) -> OperandView {
        Tagged { kind: self.kind@, span: self.span }
    }
}

#[derive(Debug, Clone, Copy, PartialEq, Eq, Structural)]
pub enum UnaryOp {
    Plus,
    Minus,
}

#[derive(Debug, Clone, Copy, PartialEq, Eq, Structural)]
pub enum BinaryOp {
    Add,
    Sub,
    Mul,
    Div,
}

pub struct ParsedStatementView {
    pub name: Seq<char>,
    pub operands: Seq<OperandView>,
    pub span: Span,
}

pub enum StatementView {
    Instruction(ParsedStatementView),
    Directive(ParsedStatementView),
}

pub struct LineView {
    pub label: Option<Seq<char>>,
    pub statement: Option<StatementView>,
    pub span: Span,
}

impl View for ParsedStatement {
    type V = ParsedStatementView;

    open spec fn view(&self) -> ParsedStatementView {
        ParsedStatementView {
            name: self.name@,
            operands: self.operands@.map_values(|o: Operand| o@),
            span: self.span,
        }
    }
}

impl View for Statement {
    type V = StatementView;

    open spec fn view(&self) -> StatementView {
        match self {
            Statement::Instruction(p) => StatementView::Instruction(p@),
            Statement::Directive(p) => StatementView::Directive(p@),
        }
    }
}

impl View for Line {
    type V = LineView;

    open spec fn view(&self) -> LineView {
        LineView {
            label: match self.label {
                Some(l) => Some(l@),
                None => None,
            },
            statement: match self.statement {
                Some(s) => Some(s@),
                None => None,
            },
            span: self.span,
        }
    }
}

/// The stretch from the start of `first` to the end of `second`.
pub open spec fn combined(first: Span, second: Span) -> Span {
    Span { offset: first.offset, len: ((second.offset - (first.offset + first.len)) + second.len) as usize }
}

/// `second` starts where or after `first` ends, and ends within `usize`.
pub open spec fn spans_ordered(first: Span, second: Span) -> bool {
    first.offset + first.len <= second.offset && second.offset + second.len <= usize::MAX
}

/// The stretch from the start of `first` to the end of `second`, both
/// included.
pub open spec fn covering(first: Span, second: Span) -> Span {
    Span { offset: first.offset, len: ((second.offset + second.len) - first.offset) as usize }
}

fn covering_span(first: Span, second: Span) -> (r: Span)
    requires
        spans_ordered(first, second),
    ensures
        r == covering(first, second),
{
    Span::new(first.offset(), second.offset() + second.len() - first.offset())
}

fn combined_span(first: Span, second: Span) -> (r: Span)
    requires
        spans_ordered(first, second),
    ensures
        r == combined(first, second),
{
    let end = first.offset() + first.len();
    let extra = second.offset() - end;
    Span::new(first.offset(), extra + second.len())
}

} // verus!

verus! {

/// The result of parsing from a position, and where parsing stopped.
pub type Parsed<T> = (Result<T, ParserErrorView>, nat);

/// `primary ::= NUMBER | IDENT | LPAREN expression RPAREN`.
pub open spec fn spec_primary(input: Seq<u8>, pos: nat) -> Parsed<ExpressionView>
    decreases input.len() - pos, 0nat,
{
    let (t, p1) = advance_step(input, pos);
    match t {
        Err(e) => (Err(ParserErrorView::Lexer(e)), p1),
        Ok(tok) => match tok.kind {
            TokenView::LParen => {
                proof {
                    crate::parser::lexer::lemma_lex_progress(input, pos);
                }
                let (e, p2) = spec_expression(input, p1);
                match e {
                    Err(err) => (Err(err), p2),
                    Ok(expr) => {
                        let (t2, p3) = advance_step(input, p2);
                        match t2 {
                            Err(le) => (Err(ParserErrorView::Lexer(le)), p3),
                            Ok(tok2) => if tok2.kind is RParen {
                                (Ok(expr), p3)
                            } else {
                                (Err(unexpected("expression"@, tok2.kind, seq![TokenView::RParen], tok2.span)), p3)
                            },
                        }
                    },
                }
            },
            TokenView::DecimalLiteral(text) => match decimal(text, i64::MAX as nat) {
                Ok(v) => (Ok(Tagged { kind: ExpressionKindView::Number(v as i64), span: tok.span }), p1),
                Err(ne) => (Err(ParserErrorView::InvalidNumber { error: ne, span: tok.span }), p1),
            },
            TokenView::Identifier(name) => (Ok(Tagged { kind: ExpressionKindView::Identifier(name), span: tok.span }), p1),
            _ => (Err(unexpected("expression"@, tok.kind, primary_starts(), tok.span)), p1),
        },
    }
}

/// The tokens that can start a primary expression.
pub open spec fn primary_starts() -> Seq<TokenView> {
    seq![TokenView::DecimalLiteral(Seq::empty()), TokenView::Identifier(Seq::empty()), TokenView::LParen]
}

/// `unary ::= (PLUS | MINUS) unary | primary`.
pub open spec fn spec_unary(input: Seq<u8>, pos: nat) -> Parsed<ExpressionView>
    decreases input.len() - pos, 1nat,
{
    let (t, p1) = peek_step(input, pos);
    match t {
        Err(e) => (Err(ParserErrorView::Lexer(e)), p1),
        Ok(tok) => if tok.kind is Plus || tok.kind is Minus {
            let op = if tok.kind is Plus { UnaryOp::Plus } else { UnaryOp::Minus };
            let (_, p2) = advance_step(input, p1);
            proof {
                crate::parser::lexer::lemma_lex_progress(input, pos);
            }
            let (s, p3) = spec_unary(input, p2);
            match s {
                Err(e) => (Err(e), p3),
                Ok(sub) => (Ok(Tagged {
                    kind: ExpressionKindView::Unary { op, expression: Box::new(sub) },
                    span: combined(tok.span, sub.span),
                }), p3),
            }
        } else {
            spec_primary(input, p1)
        },
    }
}

/// `left op right`, spanning both.
pub open spec fn binary(left: ExpressionView, op: BinaryOp, right: ExpressionView) -> ExpressionView {
    Tagged {
        kind: ExpressionKindView::Binary { left: Box::new(left), op, right: Box::new(right) },
        span: combined(left.span, right.span),
    }
}

/// `multiplicative ::= unary { (STAR | SLASH) unary }`, folded to the left:
/// `a * b / c` is `(a * b) / c`.
pub open spec fn spec_multiplicative(input: Seq<u8>, pos: nat) -> Parsed<ExpressionView>
    decreases input.len() - pos, 2nat,
{
    let (l, p1) = spec_unary(input, pos);
    match l {
        Err(e) => (Err(e), p1),
        Ok(left) => if p1 <= pos || p1 > input.len() {
            (Ok(left), p1)
        } else {
            spec_multiplicative_rest(input, p1, left)
        },
    }
}

/// The `{ (STAR | SLASH) unary }` that follows `left`, from `pos` on.
pub open spec fn spec_multiplicative_rest(input: Seq<u8>, pos: nat, left: ExpressionView) -> Parsed<ExpressionView>
    decreases input.len() - pos, 2nat,
{
    let (t, p1) = peek_step(input, pos);
    match t {
        Err(e) => (Err(ParserErrorView::Lexer(e)), p1),
        Ok(tok) => if tok.kind is Star || tok.kind is Slash {
            let op = if tok.kind is Star { BinaryOp::Mul } else { BinaryOp::Div };
            let (_, p2) = advance_step(input, p1);
            if p2 <= pos || p2 > input.len() {
                (Ok(left), p2)
            } else {
                let (r, p3) = spec_unary(input, p2);
                match r {
                    Err(e) => (Err(e), p3),
                    Ok(right) => if p3 <= pos || p3 > input.len() {
                        (Ok(binary(left, op, right)), p3)
                    } else {
                        spec_multiplicative_rest(input, p3, binary(left, op, right))
                    },
                }
            }
        } else {
            (Ok(left), p1)
        },
    }
}

/// `additive ::= multiplicative { (PLUS | MINUS) multiplicative }`, folded
/// to the left: `a - b + c` is `(a - b) + c`.
pub open spec fn spec_additive(input: Seq<u8>, pos: nat) -> Parsed<ExpressionView>
    decreases input.len() - pos, 3nat,
{
    let (l, p1) = spec_multiplicative(input, pos);
    match l {
        Err(e) => (Err(e), p1),
        Ok(left) => if p1 <= pos || p1 > input.len() {
            (Ok(left), p1)
        } else {
            spec_additive_rest(input, p1, left)
        },
    }
}

/// The `{ (PLUS | MINUS) multiplicative }` that follows `left`, from `pos` on.
pub open spec fn spec_additive_rest(input: Seq<u8>, pos: nat, left: ExpressionView) -> Parsed<ExpressionView>
    decreases input.len() - pos, 3nat,
{
    let (t, p1) = peek_step(input, pos);
    match t {
        Err(e) => (Err(ParserErrorView::Lexer(e)), p1),
        Ok(tok) => if tok.kind is Plus || tok.kind is Minus {
            let op = if tok.kind is Plus { BinaryOp::Add } else { BinaryOp::Sub };
            let (_, p2) = advance_step(input, p1);
            if p2 <= pos || p2 > input.len() {
                (Ok(left), p2)
            } else {
                let (r, p3) = spec_multiplicative(input, p2);
                match r {
                    Err(e) => (Err(e), p3),
                    Ok(right) => if p3 <= pos || p3 > input.len() {
                        (Ok(binary(left, op, right)), p3)
                    } else {
                        spec_additive_rest(input, p3, binary(left, op, right))
                    },
                }
            }
        } else {
            (Ok(left), p1)
        },
    }
}

/// `expression ::= additive`.
pub open spec fn spec_expression(input: Seq<u8>, pos: nat) -> Parsed<ExpressionView>
    decreases input.len() - pos, 4nat,
{
    spec_additive(input, pos)
}

/// Whether the next token starts an expression.
pub open spec fn starts_expression(k: TokenView) -> bool {
    k is DecimalLiteral || k is Identifier || k is Plus || k is Minus || k is LParen
}

pub open spec fn spec_peek_is_expression(input: Seq<u8>, pos: nat) -> Parsed<bool> {
    let (t, p1) = peek_step(input, pos);
    match t {
        Err(e) => (Err(ParserErrorView::Lexer(e)), p1),
        Ok(tok) => (Ok(starts_expression(tok.kind)), p1),
    }
}

pub open spec fn spec_peek_is_operand(input: Seq<u8>, pos: nat) -> Parsed<bool> {
    let (t, p1) = peek_step(input, pos);
    match t {
        Err(e) => (Err(ParserErrorView::Lexer(e)), p1),
        Ok(tok) => if tok.kind is Register || tok.kind is LBracket {
            (Ok(true), p1)
        } else {
            spec_peek_is_expression(input, p1)
        },
    }
}

/// A register operand: the number after `r`, which must fit in a byte.
pub open spec fn spec_register(input: Seq<u8>, pos: nat) -> Parsed<OperandView> {
    let (t, p1) = advance_step(input, pos);
    match t {
        Err(e) => (Err(ParserErrorView::Lexer(e)), p1),
        Ok(tok) => match tok.kind {
            TokenView::Register(text) => match decimal(text.skip(1), 255) {
                Ok(v) => (Ok(Tagged { kind: OperandKindView::Register(v as u8), span: tok.span }), p1),
                Err(ne) => (Err(ParserErrorView::InvalidNumber { error: ne, span: tok.span }), p1),
            },
            _ => (Err(unexpected("register"@, tok.kind, seq![TokenView::Register(Seq::empty())], tok.span)), p1),
        },
    }
}

/// The optional offset of a memory operand: an expression when the next
/// token starts one.
pub open spec fn spec_offset(input: Seq<u8>, pos: nat) -> Parsed<Option<ExpressionView>> {
    let (b, p1) = spec_peek_is_expression(input, pos);
    match b {
        Err(e) => (Err(e), p1),
        Ok(has_offset) => if has_offset {
            let (e, p2) = spec_expression(input, p1);
            match e {
                Err(err) => (Err(err), p2),
                Ok(x) => (Ok(Some(x)), p2),
            }
        } else {
            (Ok(None), p1)
        },
    }
}

/// `memory ::= LBRACKET register [ expression ] RBRACKET`. The operand's
/// span runs from the opening bracket to the closing one, both included.
pub open spec fn spec_memory(input: Seq<u8>, pos: nat) -> Parsed<OperandView> {
    let (t, p1) = advance_step(input, pos);
    match t {
        Err(e) => (Err(ParserErrorView::Lexer(e)), p1),
        Ok(open) => {
            let (r, p2) = spec_register(input, p1);
            match r {
                Err(e) => (Err(e), p2),
                Ok(reg) => {
                    let (o, p3) = spec_offset(input, p2);
                    match o {
                        Err(e) => (Err(e), p3),
                        Ok(offset) => {
                            let (t4, p4) = advance_step(input, p3);
                            match t4 {
                                Err(e) => (Err(ParserErrorView::Lexer(e)), p4),
                                Ok(close) => if close.kind is RBracket {
                                    (Ok(Tagged {
                                        kind: OperandKindView::Memory { register: reg.kind->Register_0, offset },
                                        span: covering(open.span, close.span),
                                    }), p4)
                                } else {
                                    (Err(unexpected("memory"@, close.kind, seq![TokenView::RBracket], close.span)), p4)
                                },
                            }
                        },
                    }
                },
            }
        },
    }
}

/// The tokens that can start an operand.
pub open spec fn operand_starts() -> Seq<TokenView> {
    seq![
        TokenView::LParen,
        TokenView::DecimalLiteral(Seq::empty()),
        TokenView::Identifier(Seq::empty()),
        TokenView::Plus,
        TokenView::Minus,
        TokenView::LBracket,
    ]
}

/// `operand ::= register | memory | expression`.
pub open spec fn spec_operand(input: Seq<u8>, pos: nat) -> Parsed<OperandView> {
    let (t, p1) = peek_step(input, pos);
    match t {
        Err(e) => (Err(ParserErrorView::Lexer(e)), p1),
        Ok(tok) => if tok.kind is Register {
            spec_register(input, p1)
        } else if tok.kind is LBracket {
            spec_memory(input, p1)
        } else if starts_expression(tok.kind) {
            let (e, p2) = spec_expression(input, p1);
            match e {
                Err(err) => (Err(err), p2),
                Ok(expr) => (Ok(Tagged { kind: OperandKindView::Expression(expr), span: expr.span }), p2),
            }
        } else {
            (Err(unexpected("operand"@, tok.kind, operand_starts(), tok.span)), p1)
        },
    }
}

/// `operand_list ::= operand { COMMA operand }`, appended to `acc`; the
/// list may be empty.
pub open spec fn spec_operands(input: Seq<u8>, pos: nat, acc: Seq<OperandView>) -> Parsed<Seq<OperandView>>
    decreases input.len() - pos,
{
    let (b, p1) = spec_peek_is_operand(input, pos);
    match b {
        Err(e) => (Err(e), p1),
        Ok(more) => if !more {
            (Ok(acc), p1)
        } else {
            let (o, p2) = spec_operand(input, p1);
            match o {
                Err(e) => (Err(e), p2),
                Ok(op) => {
                    let acc2 = acc.push(op);
                    let (t, p3) = peek_step(input, p2);
                    match t {
                        Err(e) => (Err(ParserErrorView::Lexer(e)), p3),
                        Ok(tok) => if tok.kind is Comma {
                            let (_, p4) = advance_step(input, p3);
                            if p4 <= pos || p4 > input.len() {
                                (Ok(acc2), p4)
                            } else {
                                spec_operands(input, p4, acc2)
                            }
                        } else {
                            (Ok(acc2), p3)
                        },
                    }
                },
            }
        },
    }
}

/// `statement ::= [ DOT ] IDENT [ operand_list ]`, starting with `given` if
/// a token was already read.
pub open spec fn spec_statement(input: Seq<u8>, pos: nat, given: Option<TokenSpec>) -> Parsed<StatementView> {
    let (t, p1) = match given {
        Some(tk) => (Ok::<TokenSpec, LexerError>(tk), pos),
        None => advance_step(input, pos),
    };
    match t {
        Err(e) => (Err(ParserErrorView::Lexer(e)), p1),
        Ok(tok0) => {
            let initial = tok0.span;
            let (t1, p2) = if tok0.kind is Dot { advance_step(input, p1) } else { (Ok::<TokenSpec, LexerError>(tok0), p1) };
            match t1 {
                Err(e) => (Err(ParserErrorView::Lexer(e)), p2),
                Ok(tok) => match tok.kind {
                    TokenView::Identifier(name) => statement_from_operands(spec_operands(input, p2, Seq::empty()), tok0, name),
                    _ => (Err(unexpected("statement"@, tok.kind, seq![TokenView::Identifier(Seq::empty())], tok.span)), p2),
                },
            }
        },
    }
}

/// A statement from its first token (a dot for a directive), its name and
/// the outcome of parsing its operands. Its span runs from the first token
/// to the end of the last operand.
pub open spec fn statement_from_operands(ops: Parsed<Seq<OperandView>>, tok0: TokenSpec, name: Seq<char>) -> Parsed<StatementView> {
    let (r, p) = ops;
    match r {
        Err(e) => (Err(e), p),
        Ok(ops) => {
            let span = if ops.len() > 0 { combined(tok0.span, ops.last().span) } else { tok0.span };
            let ps = ParsedStatementView { name, operands: ops, span };
            (Ok(if tok0.kind is Dot { StatementView::Directive(ps) } else { StatementView::Instruction(ps) }), p)
        },
    }
}

/// The rest of a line after its label: nothing, or a statement followed by
/// the newline or the end of input that ends the line.
pub open spec fn spec_line_rest(input: Seq<u8>, pos: nat, label: Option<Seq<char>>, tok: TokenSpec, span: Span) -> Parsed<LineView> {
    if tok.kind is Newline || tok.kind is Eof {
        (Ok(LineView { label, statement: None, span }), pos)
    } else {
        let (s, p) = spec_statement(input, pos, Some(tok));
        match s {
            Err(e) => (Err(e), p),
            Ok(st) => {
                let (t, p2) = advance_step(input, p);
                match t {
                    Err(e) => (Err(ParserErrorView::Lexer(e)), p2),
                    Ok(end) => if end.kind is Newline || end.kind is Eof {
                        (Ok(LineView { label, statement: Some(st), span }), p2)
                    } else {
                        (Err(unexpected("line"@, end.kind, seq![TokenView::Newline, TokenView::Eof], end.span)), p2)
                    },
                }
            },
        }
    }
}

/// `line ::= [ IDENT COLON ] [ statement ] (NEWLINE | EOF)`: a line takes
/// the newline or end of input that ends it, and anything else after its
/// statement is an error. The line's span covers its first token, and the
/// colon of a label.
pub open spec fn spec_line(input: Seq<u8>, pos: nat) -> Parsed<LineView> {
    let (t, p1) = advance_step(input, pos);
    match t {
        Err(e) => (Err(ParserErrorView::Lexer(e)), p1),
        Ok(tok) => if tok.kind is Identifier {
            let (n, p2) = peek_step(input, p1);
            match n {
                Err(e) => (Err(ParserErrorView::Lexer(e)), p2),
                Ok(nt) => if nt.kind is Colon {
                    let label = tok.kind->Identifier_0;
                    let (_, p3) = advance_step(input, p2);
                    let span = combined(tok.span, nt.span);
                    let (t4, p4) = advance_step(input, p3);
                    match t4 {
                        Err(e) => (Err(ParserErrorView::Lexer(e)), p4),
                        Ok(tok4) => spec_line_rest(input, p4, Some(label), tok4, span),
                    }
                } else {
                    spec_line_rest(input, p2, None, tok, tok.span)
                },
            }
        } else {
            spec_line_rest(input, p1, None, tok, tok.span)
        },
    }
}

/// Whether a line starts with a label: a name and then a colon.
pub open spec fn has_label(input: Seq<u8>, pos: nat) -> bool {
    let t0 = lex(input, pos);
    let t1 = lex(input, t0.next);
    &&& t0.result is Ok
    &&& t0.result->Ok_0.kind is Identifier
    &&& t1.result is Ok
    &&& t1.result->Ok_0.kind is Colon
}

/// Where the part of a line after its label starts.
pub open spec fn after_label(input: Seq<u8>, pos: nat) -> nat {
    if has_label(input, pos) { lex(input, lex(input, pos).next).next } else { pos }
}

/// The name of a statement.
pub open spec fn statement_name(st: StatementView) -> Seq<char> {
    match st {
        StatementView::Instruction(p) => p.name,
        StatementView::Directive(p) => p.name,
    }
}

/// A line is read from its tokens: it has a label exactly when it starts
/// with a name and a colon; after that, it has no statement exactly when the
/// next token is a newline or the end of input; otherwise its statement is
/// what the statement parser reads from that token on. The statement is a
/// directive exactly when that token is a dot, with or without a label
/// before it, and its name is the name after the dot, or the token itself.
pub proof fn lemma_line_statement(input: Seq<u8>, pos: nat)
    requires
        spec_line(input, pos).0 is Ok,
    ensures
        ({
            let l = spec_line(input, pos).0->Ok_0;
            let q = after_label(input, pos);
            let first = lex(input, q).result->Ok_0;
            &&& lex(input, q).result is Ok
            &&& (l.label is Some) == has_label(input, pos)
            &&& has_label(input, pos) ==> l.label == Some(lex(input, pos).result->Ok_0.kind->Identifier_0)
            &&& (l.statement is None) == (first.kind is Newline || first.kind is Eof)
            &&& l.statement is Some ==> spec_statement(input, lex(input, q).next, Some(first)).0 == Ok::<StatementView, ParserErrorView>(l.statement->Some_0)
            &&& l.statement is Some ==> ((l.statement->Some_0 is Directive) == (first.kind is Dot))
            &&& l.statement is Some ==> statement_name(l.statement->Some_0) == (if first.kind is Dot {
                lex(input, lex(input, q).next).result->Ok_0.kind->Identifier_0
            } else {
                first.kind->Identifier_0
            })
        }),
{
    let q = after_label(input, pos);
    let first = lex(input, q).result->Ok_0;
    if !(first.kind is Newline || first.kind is Eof) {
        let p = lex(input, q).next;
        let given = Some(first);
        let (t1, p2) = if first.kind is Dot { advance_step(input, p) } else { (Ok::<TokenSpec, LexerError>(first), p) };
        if t1 is Ok && t1->Ok_0.kind is Identifier {
            let name = t1->Ok_0.kind->Identifier_0;
            assert(spec_statement(input, p, given) == statement_from_operands(spec_operands(input, p2, Seq::empty()), first, name));
        }
    }
}

/// The last token a line ends with is a newline or the end of input.
pub open spec fn ends_line_at(input: Seq<u8>, q: nat, p: nat) -> bool {
    &&& lex(input, q).next == p
    &&& lex(input, q).result matches Ok(t)
    &&& (t.kind is Newline || t.kind is Eof)
}

/// A line that parses takes the token that ends it: the last token read is a
/// newline or the end of input, with or without a statement before it.
pub proof fn lemma_line_takes_its_end(input: Seq<u8>, pos: nat)
    requires
        spec_line(input, pos).0 is Ok,
    ensures
        exists|q: nat| ends_line_at(input, q, spec_line(input, pos).1),
{
    let (t, p1) = advance_step(input, pos);
    let tok = t->Ok_0;
    if tok.kind is Identifier && (peek_step(input, p1).0 is Ok && peek_step(input, p1).0->Ok_0.kind is Colon) {
        let (n, p2) = peek_step(input, p1);
        let (_, p3) = advance_step(input, p2);
        let (t4, p4) = advance_step(input, p3);
        let tok4 = t4->Ok_0;
        if tok4.kind is Newline || tok4.kind is Eof {
            assert(spec_line(input, pos).1 == p4);
            assert(ends_line_at(input, p3, spec_line(input, pos).1));
        } else {
            let q = spec_statement(input, p4, Some(tok4)).1;
            assert(ends_line_at(input, q, spec_line(input, pos).1));
        }
    } else {
        let p = if tok.kind is Identifier { peek_step(input, p1).1 } else { p1 };
        if tok.kind is Newline || tok.kind is Eof {
            assert(spec_line(input, pos).1 == p1);
            assert(ends_line_at(input, pos, spec_line(input, pos).1));
        } else {
            let q = spec_statement(input, p, Some(tok)).1;
            assert(ends_line_at(input, q, spec_line(input, pos).1));
        }
    }
}

/// Skips tokens up to the next newline or the end of input, which is not
/// consumed.
pub open spec fn spec_skip_to_end(input: Seq<u8>, pos: nat) -> (Result<(), LexerError>, nat)
    decreases input.len() - pos,
{
    let (t, p1) = peek_step(input, pos);
    match t {
        Err(e) => (Err(e), p1),
        Ok(tok) => if tok.kind is Newline || tok.kind is Eof {
            (Ok(()), p1)
        } else {
            let (_, p2) = advance_step(input, p1);
            if p2 <= pos || p2 > input.len() {
                (Ok(()), p2)
            } else {
                spec_skip_to_end(input, p2)
            }
        },
    }
}

} // verus!

verus! {

/// Parsing moves forward within the input, and a parsed expression covers
/// part of the consumed input and consumes at least one byte.
pub open spec fn expr_bounds(input: Seq<u8>, pos: nat, r: Parsed<ExpressionView>) -> bool {
    &&& pos <= r.1 <= input.len()
    &&& r.0 matches Ok(e) ==> pos < r.1 && pos <= e.span.offset && e.span.offset + e.span.len <= r.1
}

/// What follows `left` moves forward within the input, and the result starts
/// where `left` does and ends within the consumed input.
pub open spec fn rest_bounds(input: Seq<u8>, pos: nat, left: ExpressionView, r: Parsed<ExpressionView>) -> bool {
    &&& pos <= r.1 <= input.len()
    &&& r.0 matches Ok(e) ==> e.span.offset == left.span.offset && e.span.offset + e.span.len <= r.1
}

proof fn lemma_step_bounds(input: Seq<u8>, pos: nat)
    requires
        pos <= input.len(),
        input.len() < usize::MAX,
    ensures
        pos <= lex(input, pos).next <= input.len(),
        lex(input, pos).result matches Ok(t) ==> pos <= t.span.offset && t.span.offset + t.span.len == lex(input, pos).next,
        lex(input, pos).result matches Ok(t) && !(t.kind is Eof) ==> pos < lex(input, pos).next,
{
    lemma_lex_bounds(input, pos);
    crate::parser::lexer::lemma_lex_progress(input, pos);
}

/// Parsing a primary expression stays within the input (see `expr_bounds`).
pub proof fn lemma_primary_bounds(input: Seq<u8>, pos: nat)
    requires
        pos <= input.len(),
        input.len() < usize::MAX,
    ensures
        expr_bounds(input, pos, spec_primary(input, pos)),
    decreases input.len() - pos, 0nat,
{
    lemma_step_bounds(input, pos);
    let (t, p1) = advance_step(input, pos);
    if let Ok(tok) = t {
        if tok.kind is LParen {
            lemma_expression_bounds(input, p1);
            let (e, p2) = spec_expression(input, p1);
            lemma_step_bounds(input, p2);
        }
    }
}

/// Parsing a unary expression stays within the input (see `expr_bounds`).
pub proof fn lemma_unary_bounds(input: Seq<u8>, pos: nat)
    requires
        pos <= input.len(),
        input.len() < usize::MAX,
    ensures
        expr_bounds(input, pos, spec_unary(input, pos)),
    decreases input.len() - pos, 1nat,
{
    lemma_step_bounds(input, pos);
    let (t, p1) = peek_step(input, pos);
    if let Ok(tok) = t {
        if tok.kind is Plus || tok.kind is Minus {
            let (_, p2) = advance_step(input, p1);
            lemma_unary_bounds(input, p2);
        } else {
            lemma_primary_bounds(input, p1);
        }
    }
}

/// Parsing a product stays within the input (see `expr_bounds`).
pub proof fn lemma_multiplicative_bounds(input: Seq<u8>, pos: nat)
    requires
        pos <= input.len(),
        input.len() < usize::MAX,
    ensures
        expr_bounds(input, pos, spec_multiplicative(input, pos)),
    decreases input.len() - pos, 2nat,
{
    lemma_unary_bounds(input, pos);
    let (l, p1) = spec_unary(input, pos);
    if let Ok(left) = l {
        lemma_multiplicative_rest_bounds(input, p1, left);
    }
}

/// The factors after `left` stay within the input (see `rest_bounds`).
pub proof fn lemma_multiplicative_rest_bounds(input: Seq<u8>, pos: nat, left: ExpressionView)
    requires
        pos <= input.len(),
        input.len() < usize::MAX,
        left.span.offset + left.span.len <= pos,
    ensures
        rest_bounds(input, pos, left, spec_multiplicative_rest(input, pos, left)),
    decreases input.len() - pos, 2nat,
{
    lemma_step_bounds(input, pos);
    let (t, p1) = peek_step(input, pos);
    if let Ok(tok) = t {
        if tok.kind is Star || tok.kind is Slash {
            let op = if tok.kind is Star { BinaryOp::Mul } else { BinaryOp::Div };
            let (_, p2) = advance_step(input, p1);
            if !(p2 <= pos || p2 > input.len()) {
                lemma_unary_bounds(input, p2);
                let (r, p3) = spec_unary(input, p2);
                if let Ok(right) = r {
                    let b = binary(left, op, right);
                    assert(b.span.offset == left.span.offset);
                    assert(b.span.offset + b.span.len == right.span.offset + right.span.len - left.span.len);
                    if !(p3 <= pos || p3 > input.len()) {
                        lemma_multiplicative_rest_bounds(input, p3, binary(left, op, right));
                    }
                }
            }
        }
    }
}

/// Parsing a sum stays within the input (see `expr_bounds`).
pub proof fn lemma_additive_bounds(input: Seq<u8>, pos: nat)
    requires
        pos <= input.len(),
        input.len() < usize::MAX,
    ensures
        expr_bounds(input, pos, spec_additive(input, pos)),
    decreases input.len() - pos, 3nat,
{
    lemma_multiplicative_bounds(input, pos);
    let (l, p1) = spec_multiplicative(input, pos);
    if let Ok(left) = l {
        lemma_additive_rest_bounds(input, p1, left);
    }
}

/// The terms after `left` stay within the input (see `rest_bounds`).
pub proof fn lemma_additive_rest_bounds(input: Seq<u8>, pos: nat, left: ExpressionView)
    requires
        pos <= input.len(),
        input.len() < usize::MAX,
        left.span.offset + left.span.len <= pos,
    ensures
        rest_bounds(input, pos, left, spec_additive_rest(input, pos, left)),
    decreases input.len() - pos, 3nat,
{
    lemma_step_bounds(input, pos);
    let (t, p1) = peek_step(input, pos);
    if let Ok(tok) = t {
        if tok.kind is Plus || tok.kind is Minus {
            let op = if tok.kind is Plus { BinaryOp::Add } else { BinaryOp::Sub };
            let (_, p2) = advance_step(input, p1);
            if !(p2 <= pos || p2 > input.len()) {
                lemma_multiplicative_bounds(input, p2);
                let (r, p3) = spec_multiplicative(input, p2);
                if let Ok(right) = r {
                    let b = binary(left, op, right);
                    assert(b.span.offset == left.span.offset);
                    assert(b.span.offset + b.span.len == right.span.offset + right.span.len - left.span.len);
                    if !(p3 <= pos || p3 > input.len()) {
                        lemma_additive_rest_bounds(input, p3, binary(left, op, right));
                    }
                }
            }
        }
    }
}

/// Parsing an expression stays within the input (see `expr_bounds`).
pub proof fn lemma_expression_bounds(input: Seq<u8>, pos: nat)
    requires
        pos <= input.len(),
        input.len() < usize::MAX,
    ensures
        expr_bounds(input, pos, spec_expression(input, pos)),
    decreases input.len() - pos, 4nat,
{
    lemma_additive_bounds(input, pos);
}

/// An operand covers consumed input, as an expression does.
pub open spec fn operand_bounds(input: Seq<u8>, pos: nat, r: Parsed<OperandView>) -> bool {
    &&& pos <= r.1 <= input.len()
    &&& r.0 matches Ok(e) ==> pos < r.1 && pos <= e.span.offset && e.span.offset + e.span.len <= r.1
}

/// Parsing a memory operand stays within the input, and its register and
/// offset lie between its brackets.
pub proof fn lemma_memory_bounds(input: Seq<u8>, pos: nat)
    requires
        pos <= input.len(),
        input.len() < usize::MAX,
    ensures
        operand_bounds(input, pos, spec_memory(input, pos)),
        operand_bounds(input, pos, spec_register(input, pos)),
        pos <= spec_offset(input, pos).1 <= input.len(),
{
    lemma_step_bounds(input, pos);
    lemma_expression_bounds(input, pos);
    let (t, p1) = advance_step(input, pos);
    if let Ok(open) = t {
        lemma_step_bounds(input, p1);
        lemma_expression_bounds(input, p1);
        let (r, p2) = spec_register(input, p1);
        if let Ok(reg) = r {
            lemma_step_bounds(input, p2);
            lemma_expression_bounds(input, p2);
            let (o, p3) = spec_offset(input, p2);
            if let Ok(offset) = o {
                lemma_step_bounds(input, p3);
            }
        }
    }
}

/// Parsing an operand moves forward within the input, and the operand lies
/// in the consumed input.
pub proof fn lemma_operand_bounds(input: Seq<u8>, pos: nat)
    requires
        pos <= input.len(),
        input.len() < usize::MAX,
    ensures
        operand_bounds(input, pos, spec_operand(input, pos)),
        operand_bounds(input, pos, spec_register(input, pos)),
        pos <= spec_peek_is_operand(input, pos).1 <= input.len(),
{
    lemma_step_bounds(input, pos);
    lemma_expression_bounds(input, pos);
    lemma_memory_bounds(input, pos);
}

/// The operand list keeps what was already collected and adds operands that
/// lie in the consumed input.
pub proof fn lemma_operands_bounds(input: Seq<u8>, pos: nat, acc: Seq<OperandView>)
    requires
        pos <= input.len(),
        input.len() < usize::MAX,
    ensures
        ({
            let (r, p) = spec_operands(input, pos, acc);
            &&& pos <= p <= input.len()
            &&& r matches Ok(ops) ==> {
                &&& ops.len() >= acc.len()
                &&& ops.len() == acc.len() ==> ops == acc
                &&& ops.len() > acc.len() ==> pos <= ops.last().span.offset && ops.last().span.offset + ops.last().span.len <= p
            }
        }),
    decreases input.len() - pos,
{
    lemma_operand_bounds(input, pos);
    let (b, p1) = spec_peek_is_operand(input, pos);
    if let Ok(more) = b {
        if more {
            lemma_operand_bounds(input, p1);
            let (o, p2) = spec_operand(input, p1);
            if let Ok(op) = o {
                lemma_step_bounds(input, p2);
                let (t, p3) = peek_step(input, p2);
                if let Ok(tok) = t {
                    if tok.kind is Comma {
                        let (_, p4) = advance_step(input, p3);
                        if !(p4 <= pos || p4 > input.len()) {
                            lemma_operands_bounds(input, p4, acc.push(op));
                        }
                    }
                }
            }
        }
    }
}

} // verus!

verus! {

/// The view of a statement result.
pub open spec fn statement_result_view(r: Result<Statement, ParserError>) -> Result<StatementView, ParserErrorView> {
    match r {
        Ok(s) => Ok(s@),
        Err(e) => Err(e@),
    }
}

/// The view of a line result.
pub open spec fn line_result_view(r: Result<Line, ParserError>) -> Result<LineView, ParserErrorView> {
    match r {
        Ok(l) => Ok(l@),
        Err(e) => Err(e@),
    }
}

/// The view of an expression result.
pub open spec fn expr_result_view(r: Result<Expression, ParserError>) -> Result<ExpressionView, ParserErrorView> {
    match r {
        Ok(e) => Ok(e@),
        Err(e) => Err(e@),
    }
}

/// The view of an operand result.
pub open spec fn operand_result_view(r: Result<Operand, ParserError>) -> Result<OperandView, ParserErrorView> {
    match r {
        Ok(o) => Ok(o@),
        Err(e) => Err(e@),
    }
}

/// The view of an optional token.
pub open spec fn given_view(t: Option<Token>) -> Option<TokenSpec> {
    match t {
        Some(t) => Some(token_view(t)),
        None => None,
    }
}

/// A recursive-descent parser for assembly source held in memory.
pub struct Parser {
    lexer: BufferedLexer,
}

impl Parser {
    pub closed spec fn wf(self) -> bool {
        self.lexer.wf()
    }

    /// The source text.
    pub closed spec fn input(self) -> Seq<u8> {
        self.lexer.input()
    }

    /// Where the next token starts.
    pub closed spec fn pos(self) -> nat {
        self.lexer.pos()
    }

    /// A well-formed parser stands within its input.
    pub proof fn lemma_wf(self)
        requires
            self.wf(),
        ensures
            self.pos() <= self.input().len(),
            self.input().len() < usize::MAX,
    {
        self.lexer.lemma_wf();
    }

    /// A parser at the start of `input`.
    pub fn new(input: &[u8]) -> (r: Self)
        requires
            input@.len() < usize::MAX,
        ensures
            r.wf(),
            r.input() == input@,
            r.pos() == 0,
    {
        Self { lexer: BufferedLexer::new(input) }
    }

    /// Parses the next line.
    pub fn next(&mut self) -> (r: Result<Line, ParserError>)
        requires
            old(self).wf(),
        ensures
            final(self).wf(),
            final(self).input() == old(self).input(),
            (line_result_view(r), final(self).pos()) == spec_line(old(self).input(), old(self).pos()),
    {
        self.parse_line()
    }

    /// Skips tokens up to the next newline or the end of input.
    pub fn skip_until_end(&mut self) -> (r: Result<(), LexerError>)
        requires
            old(self).wf(),
        ensures
            final(self).wf(),
            final(self).input() == old(self).input(),
            (r, final(self).pos()) == spec_skip_to_end(old(self).input(), old(self).pos()),
    {
        let ghost input = self.input();
        loop
            invariant
                self.wf(),
                self.input() == input,
                input == old(self).input(),
                spec_skip_to_end(input, old(self).pos()) == spec_skip_to_end(input, self.pos()),
            decreases input.len() - self.pos(),
        {
            proof {
                self.lemma_wf();
                lemma_step_bounds(input, self.pos());
            }
            let token = match self.lexer.peek() {
                Ok(t) => t,
                Err(e) => return Err(e),
            };
            if matches!(token.kind, TokenKind::Newline | TokenKind::Eof) {
                return Ok(());
            }
            match self.lexer.advance() {
                Ok(_) => {},
                Err(e) => return Err(e),
            }
        }
    }

    /// Parses a line: see `spec_line`.
    #[verifier::rlimit(40)]
    #[verifier::spinoff_prover]
    pub fn parse_line(&mut self) -> (r: Result<Line, ParserError>)
        requires
            old(self).wf(),
        ensures
            final(self).wf(),
            final(self).input() == old(self).input(),
            (line_result_view(r), final(self).pos()) == spec_line(old(self).input(), old(self).pos()),
    {
        let ghost input = self.input();
        proof {
            self.lemma_wf();
            lemma_step_bounds(input, self.pos());
        }
        let mut token = match self.lexer.advance() {
            Ok(t) => t,
            Err(e) => return Err(ParserError::Lexer(e)),
        };
        let mut span = token.span;
        let mut label: Option<String> = None;

        // Check if there's a label
        let first_identifier = match &token.kind {
            TokenKind::Identifier(value) => Some(value.clone()),
            _ => None,
        };
        if let Some(value) = first_identifier {
            let next = match self.lexer.peek() {
                Ok(t) => t,
                Err(e) => return Err(ParserError::Lexer(e)),
            };
            if let TokenKind::Colon = next.kind {
                // Label
                label = Some(value);
                proof {
                    lemma_step_bounds(input, self.pos());
                }
                token = match self.lexer.advance() {
                    Ok(t) => t,
                    Err(e) => return Err(ParserError::Lexer(e)),
                };
                // include colon in span
                span = combined_span(span, token.span);
                // move cursor forward again
                proof {
                    lemma_step_bounds(input, self.pos());
                }
                token = match self.lexer.advance() {
                    Ok(t) => t,
                    Err(e) => return Err(ParserError::Lexer(e)),
                };
            }
        }

        // Line has ended
        if matches!(token.kind, TokenKind::Newline | TokenKind::Eof) {
            return Ok(Line { label, statement: None, span });
        }

        // if line hasn't ended, and we still have a token, there must be a statement
        let statement = match self.parse_statement(Some(token)) {
            Ok(s) => s,
            Err(e) => return Err(e),
        };

        // the line ends with a newline or the end of input
        proof {
            self.lemma_wf();
            lemma_step_bounds(input, self.pos());
        }
        let end = match self.lexer.advance() {
            Ok(t) => t,
            Err(e) => return Err(ParserError::Lexer(e)),
        };
        if !matches!(end.kind, TokenKind::Newline | TokenKind::Eof) {
            let expected = vec![TokenKind::Newline, TokenKind::Eof];
            proof {
                assert(expected@.map_values(|t: TokenKind| t@) =~= seq![TokenView::Newline, TokenView::Eof]);
            }
            return Err(ParserError::UnexpectedToken {
                topic: String::from_str("line"),
                received: end.kind.clone(),
                expected,
                span: end.span,
            });
        }

        Ok(Line { label, statement: Some(statement), span })
    }

    /// Parses a statement, starting with `token` if one was already read:
    /// see `spec_statement`.
    #[verifier::loop_isolation(false)]
    pub fn parse_statement(&mut self, token: Option<Token>) -> (r: Result<Statement, ParserError>)
        requires
            old(self).wf(),
            token matches Some(t) ==> t.span.offset + t.span.len <= old(self).pos(),
        ensures
            final(self).wf(),
            final(self).input() == old(self).input(),
            (statement_result_view(r), final(self).pos()) == spec_statement(old(self).input(), old(self).pos(), given_view(token)),
    {
        let ghost input = self.input();
        proof {
            self.lemma_wf();
            lemma_step_bounds(input, self.pos());
        }
        let ghost old_token = token;
        let mut token = if let Some(token) = token {
            token
        } else {
            match self.lexer.advance() {
                Ok(t) => t,
                Err(e) => return Err(ParserError::Lexer(e)),
            }
        };
        let initial = token.span;
        let ghost tok0 = token_view(token);

        let is_directive = if let TokenKind::Dot = token.kind {
            proof {
                lemma_step_bounds(input, self.pos());
            }
            token = match self.lexer.advance() {
                Ok(t) => t,
                Err(e) => return Err(ParserError::Lexer(e)),
            };
            true
        } else {
            false
        };

        let name = if let TokenKind::Identifier(name) = &token.kind {
            name.clone()
        } else {
            let expected = vec![TokenKind::Identifier(String::new())];
            proof {
                assert(expected@.map_values(|t: TokenKind| t@) =~= seq![TokenView::Identifier(Seq::empty())]);
            }
            return Err(ParserError::UnexpectedToken {
                topic: String::from_str("statement"),
                received: token.kind.clone(),
                expected,
                span: token.span,
            });
        };

        let ghost p2 = self.pos();
        let ghost name_view = name@;
        proof {
            lemma_operands_bounds(input, p2, Seq::empty());
            assert(spec_statement(input, old(self).pos(), given_view(old_token)) == statement_from_operands(spec_operands(input, p2, Seq::empty()), tok0, name_view));
        }
        let mut operands: Vec<Operand> = Vec::new();
        proof {
            assert(operands@.map_values(|o: Operand| o@) =~= Seq::<OperandView>::empty());
        }
        loop
            invariant
                self.wf(),
                self.input() == input,
                input == old(self).input(),
                input.len() < usize::MAX,
                p2 <= self.pos() <= input.len(),
                spec_statement(input, old(self).pos(), given_view(old_token)) == statement_from_operands(spec_operands(input, p2, Seq::empty()), tok0, name_view),
                spec_operands(input, p2, Seq::empty()) == spec_operands(input, self.pos(), operands@.map_values(|o: Operand| o@)),
            decreases input.len() - self.pos(),
        {
            let ghost p = self.pos();
            let ghost acc = operands@.map_values(|o: Operand| o@);
            proof {
                lemma_operand_bounds(input, p);
            }
            let more = match self.peek_is_operand() {
                Ok(b) => b,
                Err(e) => {
                    proof {
                        assert(spec_operands(input, p, acc) == (Err::<Seq<OperandView>, ParserErrorView>(e@), self.pos()));
                        assert(spec_operands(input, p2, Seq::empty()) == (Err::<Seq<OperandView>, ParserErrorView>(e@), self.pos()));
                        assert(statement_from_operands(spec_operands(input, p2, Seq::empty()), tok0, name_view) == (Err::<StatementView, ParserErrorView>(e@), self.pos()));
                    }
                    return Err(e);
                },
            };
            if !more {
                break;
            }
            proof {
                lemma_operand_bounds(input, self.pos());
            }
            let ghost p1 = self.pos();
            let op = match self.parse_operand() {
                Ok(op) => op,
                Err(e) => {
                    proof {
                        assert(spec_peek_is_operand(input, p) == (Ok::<bool, ParserErrorView>(true), p1));
                        assert(spec_operand(input, p1) == (Err::<OperandView, ParserErrorView>(e@), self.pos()));
                        assert(spec_operands(input, p, acc) == (Err::<Seq<OperandView>, ParserErrorView>(e@), self.pos()));
                    }
                    return Err(e);
                },
            };
            let ghost opv = op@;
            operands.push(op);

            proof {
                assert(operands@.map_values(|o: Operand| o@) =~= acc.push(opv));
                lemma_step_bounds(input, self.pos());
            }
            let ghost p2b = self.pos();
            let next = match self.lexer.peek() {
                Ok(t) => t,
                Err(e) => {
                    proof {
                        assert(spec_operands(input, p, acc) == (Err::<Seq<OperandView>, ParserErrorView>(ParserErrorView::Lexer(e)), self.pos()));
                        assert(spec_operands(input, p2, Seq::empty()) == (Err::<Seq<OperandView>, ParserErrorView>(ParserErrorView::Lexer(e)), self.pos()));
                        assert(statement_from_operands(spec_operands(input, p2, Seq::empty()), tok0, name_view) == (Err::<StatementView, ParserErrorView>(ParserErrorView::Lexer(e)), self.pos()));
                        assert(ParserError::Lexer(e)@ == ParserErrorView::Lexer(e));
                    }
                    return Err(ParserError::Lexer(e));
                },
            };
            if !matches!(next.kind, TokenKind::Comma) {
                break;
            }

            let ghost p3 = self.pos();
            match self.lexer.advance() {
                Ok(_) => {},
                Err(e) => {
                    proof {
                        assert(lex(input, p3).result is Ok);
                    }
                    return Err(ParserError::Lexer(e));
                },
            }
        }

        let span = if operands.len() > 0 {
            proof {
                let ops = operands@.map_values(|o: Operand| o@);
                assert(ops.last() == operands@.last()@);
            }
            combined_span(initial, operands[operands.len() - 1].span)
        } else {
            initial
        };

        let parsed = ParsedStatement { name, operands, span };
        let stmt = if is_directive {
            Statement::Directive(parsed)
        } else {
            Statement::Instruction(parsed)
        };

        Ok(stmt)
    }

    fn peek_is_operand(&mut self) -> (r: Result<bool, ParserError>)
        requires
            old(self).wf(),
        ensures
            final(self).wf(),
            final(self).input() == old(self).input(),
            (result_view(r), final(self).pos()) == spec_peek_is_operand(old(self).input(), old(self).pos()),
    {
        let token = match self.lexer.peek() {
            Ok(t) => t,
            Err(e) => return Err(ParserError::Lexer(e)),
        };
        let matches = match token.kind {
            TokenKind::Register(_) | TokenKind::LBracket => true,
            _ => {
                match self.peek_is_expression() {
                    Ok(b) => b,
                    Err(e) => return Err(e),
                }
            },
        };
        Ok(matches)
    }

    fn peek_is_expression(&mut self) -> (r: Result<bool, ParserError>)
        requires
            old(self).wf(),
        ensures
            final(self).wf(),
            final(self).input() == old(self).input(),
            (result_view(r), final(self).pos()) == spec_peek_is_expression(old(self).input(), old(self).pos()),
    {
        let token = match self.lexer.peek() {
            Ok(t) => t,
            Err(e) => return Err(ParserError::Lexer(e)),
        };
        let matches = matches!(token.kind, TokenKind::DecimalLiteral(_) | TokenKind::Identifier(_) | TokenKind::Plus | TokenKind::Minus | TokenKind::LParen);
        Ok(matches)
    }

    /// Parses an operand: see `spec_operand`.
    pub fn parse_operand(&mut self) -> (r: Result<Operand, ParserError>)
        requires
            old(self).wf(),
        ensures
            final(self).wf(),
            final(self).input() == old(self).input(),
            (operand_result_view(r), final(self).pos()) == spec_operand(old(self).input(), old(self).pos()),
    {
        let token = match self.lexer.peek() {
            Ok(t) => t,
            Err(e) => return Err(ParserError::Lexer(e)),
        };

        if let TokenKind::Register(_) = token.kind {
            return self.parse_register();
        }
        if let TokenKind::LBracket = token.kind {
            return self.parse_memory();
        }
        let is_expression = match self.peek_is_expression() {
            Ok(b) => b,
            Err(e) => return Err(e),
        };
        if is_expression {
            let expr = match self.parse_expression() {
                Ok(e) => e,
                Err(e) => return Err(e),
            };
            let span = expr.span;
            Ok(Operand::new(OperandKind::Expression(expr), span))
        } else {
            let expected = vec![
                TokenKind::LParen,
                TokenKind::DecimalLiteral(String::new()),
                TokenKind::Identifier(String::new()),
                TokenKind::Plus,
                TokenKind::Minus,
                TokenKind::LBracket,
            ];
            proof {
                assert(expected@.map_values(|t: TokenKind| t@) =~= operand_starts());
            }
            Err(ParserError::UnexpectedToken {
                topic: String::from_str("operand"),
                received: token.kind.clone(),
                expected,
                span: token.span,
            })
        }
    }

    fn parse_register(&mut self) -> (r: Result<Operand, ParserError>)
        requires
            old(self).wf(),
        ensures
            final(self).wf(),
            final(self).input() == old(self).input(),
            (operand_result_view(r), final(self).pos()) == spec_register(old(self).input(), old(self).pos()),
    {
        proof {
            crate::parser::lexer::lemma_register_text(self.input(), self.pos());
        }
        let token = match self.lexer.advance() {
            Ok(t) => t,
            Err(e) => return Err(ParserError::Lexer(e)),
        };
        if let TokenKind::Register(value) = &token.kind {
            match parse_decimal(value.as_str(), 1, 255) {
                Ok(index) => Ok(Operand::new(OperandKind::Register(index as u8), token.span)),
                Err(e) => Err(ParserError::InvalidNumber { error: e, span: token.span }),
            }
        } else {
            let expected = vec![TokenKind::Register(String::new())];
            proof {
                assert(expected@.map_values(|t: TokenKind| t@) =~= seq![TokenView::Register(Seq::empty())]);
            }
            Err(ParserError::UnexpectedToken {
                topic: String::from_str("register"),
                received: token.kind.clone(),
                expected,
                span: token.span,
            })
        }
    }

    /// Parses a memory operand: see `spec_memory`.
    fn parse_memory(&mut self) -> (r: Result<Operand, ParserError>)
        requires
            old(self).wf(),
        ensures
            final(self).wf(),
            final(self).input() == old(self).input(),
            (operand_result_view(r), final(self).pos()) == spec_memory(old(self).input(), old(self).pos()),
    {
        let ghost input = self.input();
        proof {
            self.lemma_wf();
            lemma_step_bounds(input, self.pos());
        }
        let open = match self.lexer.advance() {
            Ok(t) => t,
            Err(e) => return Err(ParserError::Lexer(e)),
        };
        let ghost p1 = self.pos();
        proof {
            self.lemma_wf();
            lemma_memory_bounds(input, p1);
        }
        let reg = match self.parse_register() {
            Ok(o) => o,
            Err(e) => return Err(e),
        };
        let register = match &reg.kind {
            OperandKind::Register(index) => *index,
            _ => return Ok(reg),
        };
        let ghost p2 = self.pos();
        proof {
            self.lemma_wf();
            lemma_memory_bounds(input, p2);
            lemma_expression_bounds(input, p2);
        }
        let has_offset = match self.peek_is_expression() {
            Ok(b) => b,
            Err(e) => return Err(e),
        };
        let offset = if has_offset {
            match self.parse_expression() {
                Ok(e) => Some(e),
                Err(e) => return Err(e),
            }
        } else {
            None
        };
        proof {
            self.lemma_wf();
            lemma_step_bounds(input, self.pos());
        }
        let close = match self.lexer.advance() {
            Ok(t) => t,
            Err(e) => return Err(ParserError::Lexer(e)),
        };
        if !matches!(close.kind, TokenKind::RBracket) {
            let expected = vec![TokenKind::RBracket];
            proof {
                assert(expected@.map_values(|t: TokenKind| t@) =~= seq![TokenView::RBracket]);
            }
            return Err(ParserError::UnexpectedToken {
                topic: String::from_str("memory"),
                received: close.kind.clone(),
                expected,
                span: close.span,
            });
        }
        let span = covering_span(open.span, close.span);
        Ok(Operand::new(OperandKind::Memory { register, offset }, span))
    }

    /// Parses an expression: see `spec_expression`.
    pub fn parse_expression(&mut self) -> (r: Result<Expression, ParserError>)
        requires
            old(self).wf(),
        ensures
            final(self).wf(),
            final(self).input() == old(self).input(),
            (expr_result_view(r), final(self).pos()) == spec_expression(old(self).input(), old(self).pos()),
        decreases old(self).input().len() - old(self).pos(), 4nat,
    {
        self.parse_additive()
    }

    fn parse_additive(&mut self) -> (r: Result<Expression, ParserError>)
        requires
            old(self).wf(),
        ensures
            final(self).wf(),
            final(self).input() == old(self).input(),
            (expr_result_view(r), final(self).pos()) == spec_additive(old(self).input(), old(self).pos()),
        decreases old(self).input().len() - old(self).pos(), 3nat,
    {
        let ghost input = self.input();
        let ghost pos = self.pos();
        proof {
            self.lemma_wf();
            lemma_multiplicative_bounds(input, pos);
        }
        let mut left = match self.parse_multiplicative() {
            Ok(e) => e,
            Err(e) => return Err(e),
        };

        loop
            invariant
                self.wf(),
                self.input() == input,
                input == old(self).input(),
                pos == old(self).pos(),
                input.len() < usize::MAX,
                pos < self.pos() <= input.len(),
                left.span.offset + left.span.len <= self.pos(),
                spec_additive(input, pos) == spec_additive_rest(input, self.pos(), left@),
            decreases input.len() - self.pos(),
        {
            let ghost p = self.pos();
            proof {
                lemma_step_bounds(input, p);
                lemma_additive_rest_bounds(input, p, left@);
            }
            let token = match self.lexer.peek() {
                Ok(t) => t,
                Err(e) => return Err(ParserError::Lexer(e)),
            };
            let op = match token.kind {
                TokenKind::Plus => BinaryOp::Add,
                TokenKind::Minus => BinaryOp::Sub,
                _ => {
                    return Ok(left);
                },
            };
            match self.lexer.advance() {
                Ok(_) => {},
                Err(e) => {
                    proof {
                        assert(lex(input, p).result is Ok);
                    }
                    return Err(ParserError::Lexer(e));
                },
            }
            proof {
                lemma_multiplicative_bounds(input, self.pos());
            }
            let right = match self.parse_multiplicative() {
                Ok(e) => e,
                Err(e) => return Err(e),
            };
            let ghost next = binary(left@, op, right@);
            let span = combined_span(left.span, right.span);
            left = Expression::new(ExpressionKind::Binary { left: Box::new(left), op, right: Box::new(right) }, span);
            proof {
                assert(left@ == next);
            }
        }
    }

    fn parse_multiplicative(&mut self) -> (r: Result<Expression, ParserError>)
        requires
            old(self).wf(),
        ensures
            final(self).wf(),
            final(self).input() == old(self).input(),
            (expr_result_view(r), final(self).pos()) == spec_multiplicative(old(self).input(), old(self).pos()),
        decreases old(self).input().len() - old(self).pos(), 2nat,
    {
        let ghost input = self.input();
        let ghost pos = self.pos();
        proof {
            self.lemma_wf();
            lemma_unary_bounds(input, pos);
        }
        let mut left = match self.parse_unary() {
            Ok(e) => e,
            Err(e) => return Err(e),
        };

        loop
            invariant
                self.wf(),
                self.input() == input,
                input == old(self).input(),
                pos == old(self).pos(),
                input.len() < usize::MAX,
                pos < self.pos() <= input.len(),
                left.span.offset + left.span.len <= self.pos(),
                spec_multiplicative(input, pos) == spec_multiplicative_rest(input, self.pos(), left@),
            decreases input.len() - self.pos(),
        {
            let ghost p = self.pos();
            proof {
                lemma_step_bounds(input, p);
                lemma_multiplicative_rest_bounds(input, p, left@);
            }
            let token = match self.lexer.peek() {
                Ok(t) => t,
                Err(e) => return Err(ParserError::Lexer(e)),
            };
            let op = match token.kind {
                TokenKind::Star => BinaryOp::Mul,
                TokenKind::Slash => BinaryOp::Div,
                _ => {
                    return Ok(left);
                },
            };
            match self.lexer.advance() {
                Ok(_) => {},
                Err(e) => {
                    proof {
                        assert(lex(input, p).result is Ok);
                    }
                    return Err(ParserError::Lexer(e));
                },
            }
            proof {
                lemma_unary_bounds(input, self.pos());
            }
            let right = match self.parse_unary() {
                Ok(e) => e,
                Err(e) => return Err(e),
            };
            let ghost next = binary(left@, op, right@);
            let span = combined_span(left.span, right.span);
            left = Expression::new(ExpressionKind::Binary { left: Box::new(left), op, right: Box::new(right) }, span);
            proof {
                assert(left@ == next);
            }
        }
    }

    fn parse_unary(&mut self) -> (r: Result<Expression, ParserError>)
        requires
            old(self).wf(),
        ensures
            final(self).wf(),
            final(self).input() == old(self).input(),
            (expr_result_view(r), final(self).pos()) == spec_unary(old(self).input(), old(self).pos()),
        decreases old(self).input().len() - old(self).pos(), 1nat,
    {
        let ghost input = self.input();
        proof {
            self.lemma_wf();
            lemma_step_bounds(input, self.pos());
        }
        let token = match self.lexer.peek() {
            Ok(t) => t,
            Err(e) => return Err(ParserError::Lexer(e)),
        };
        let op = match token.kind {
            TokenKind::Plus => UnaryOp::Plus,
            TokenKind::Minus => UnaryOp::Minus,
            _ => {
                return self.parse_primary();
            },
        };
        match self.lexer.advance() {
            Ok(_) => {},
            Err(e) => return Err(ParserError::Lexer(e)),
        }

        proof {
            lemma_unary_bounds(input, self.pos());
        }
        let subexpr = match self.parse_unary() {
            Ok(e) => e,
            Err(e) => return Err(e),
        };
        let span = combined_span(token.span, subexpr.span);
        let expression = Expression::new(
            ExpressionKind::Unary { op, expression: Box::new(subexpr) },
            span,
        );
        Ok(expression)
    }

    fn parse_primary(&mut self) -> (r: Result<Expression, ParserError>)
        requires
            old(self).wf(),
        ensures
            final(self).wf(),
            final(self).input() == old(self).input(),
            (expr_result_view(r), final(self).pos()) == spec_primary(old(self).input(), old(self).pos()),
        decreases old(self).input().len() - old(self).pos(), 0nat,
    {
        let ghost input = self.input();
        proof {
            self.lemma_wf();
            lemma_step_bounds(input, self.pos());
        }
        let token = match self.lexer.advance() {
            Ok(t) => t,
            Err(e) => return Err(ParserError::Lexer(e)),
        };

        match &token.kind {
            TokenKind::LParen => {},
            TokenKind::DecimalLiteral(value) => {
                proof {
                    assert(value@.skip(0) =~= value@);
                }
                return match parse_decimal(value.as_str(), 0, 0x7fff_ffff_ffff_ffff) {
                    Ok(v) => Ok(Expression::new(ExpressionKind::Number(v as i64), token.span)),
                    Err(e) => Err(ParserError::InvalidNumber { error: e, span: token.span }),
                };
            },
            TokenKind::Identifier(name) => {
                return Ok(Expression::new(ExpressionKind::Identifier(name.clone()), token.span));
            },
            _ => {
                let expected = vec![
                    TokenKind::DecimalLiteral(String::new()),
                    TokenKind::Identifier(String::new()),
                    TokenKind::LParen,
                ];
                proof {
                    assert(expected@.map_values(|t: TokenKind| t@) =~= primary_starts());
                }
                return Err(ParserError::UnexpectedToken {
                    topic: String::from_str("expression"),
                    received: token.kind.clone(),
                    expected,
                    span: token.span,
                });
            },
        };

        let expression = match self.parse_expression() {
            Ok(e) => e,
            Err(e) => return Err(e),
        };
        proof {
            self.lemma_wf();
        }
        let token = match self.lexer.advance() {
            Ok(t) => t,
            Err(e) => return Err(ParserError::Lexer(e)),
        };
        if !matches!(token.kind, TokenKind::RParen) {
            let expected = vec![TokenKind::RParen];
            proof {
                assert(expected@.map_values(|t: TokenKind| t@) =~= seq![TokenView::RParen]);
            }
            return Err(ParserError::UnexpectedToken {
                topic: String::from_str("expression"),
                received: token.kind.clone(),
                expected,
                span: token.span,
            });
        }
        Ok(expression)
    }
}

} // verus!

verus! {

/// Division rounding towards zero, as Rust's integer `/` does.
pub open spec fn trunc_div(x: int, d: int) -> int {
    if x >= 0 {
        x / d
    } else {
        -((-x) / d)
    }
}

/// Whether a value fits in `i64`.
pub open spec fn fits_i64(v: int) -> bool {
    i64::MIN <= v <= i64::MAX
}

/// The value of a binary operation, `None` where `i64` arithmetic would
/// overflow or divide by zero.
pub open spec fn apply_binary(op: BinaryOp, a: int, b: int) -> Option<int> {
    let v = match op {
        BinaryOp::Add => a + b,
        BinaryOp::Sub => a - b,
        BinaryOp::Mul => a * b,
        BinaryOp::Div => if b == 0 { 0 } else { trunc_div(a, b) },
    };
    if (op is Div && b == 0) || !fits_i64(v) { None } else { Some(v) }
}

/// The value of an expression, `None` where evaluating it in `i64` would
/// overflow or divide by zero. A name has no value here: nothing binds
/// names to numbers.
pub open spec fn eval(e: ExpressionView) -> Option<int>
    decreases e,
{
    match e.kind {
        ExpressionKindView::Number(v) => Some(v as int),
        ExpressionKindView::Identifier(_) => None,
        ExpressionKindView::Unary { op, expression } => match eval(*expression) {
            None => None,
            Some(v) => match op {
                UnaryOp::Plus => Some(v),
                UnaryOp::Minus => if fits_i64(-v) { Some(-v) } else { None },
            },
        },
        ExpressionKindView::Binary { left, op, right } => match (eval(*left), eval(*right)) {
            (Some(a), Some(b)) => apply_binary(op, a, b),
            _ => None,
        },
    }
}

/// Every value an expression has fits in `i64`.
pub proof fn lemma_eval_fits(e: ExpressionView)
    ensures
        eval(e) matches Some(v) ==> fits_i64(v),
    decreases e,
{
    match e.kind {
        ExpressionKindView::Unary { op, expression } => lemma_eval_fits(*expression),
        ExpressionKindView::Binary { left, op, right } => {
            lemma_eval_fits(*left);
            lemma_eval_fits(*right);
        },
        _ => {},
    }
}

/// A number is its own value, and a name has none.
pub proof fn lemma_eval_leaf(n: i64, name: Seq<char>, span: Span)
    ensures
        eval(Tagged { kind: ExpressionKindView::Number(n), span }) == Some(n as int),
        eval(Tagged { kind: ExpressionKindView::Identifier(name), span }) is None,
{
}

/// Unary plus keeps a value and unary minus negates it, where the negation
/// fits in `i64`.
pub proof fn lemma_eval_unary(op: UnaryOp, sub: ExpressionView, span: Span)
    ensures
        ({
            let v = eval(Tagged { kind: ExpressionKindView::Unary { op, expression: Box::new(sub) }, span });
            &&& eval(sub) is None ==> v is None
            &&& eval(sub) matches Some(a) ==> {
                &&& op is Plus ==> v == Some(a)
                &&& op is Minus ==> v == (if i64::MIN <= -a <= i64::MAX { Some(-a) } else { None })
            }
        }),
{
}

/// A binary expression has the value of its operator applied to the values
/// of its two sides, for every pair of values, negative results included:
/// the sum, the difference or the product where it fits in `i64`, and for a
/// division the quotient rounded towards zero, whose remainder is smaller
/// than the divisor and has the sign of the dividend. Division by zero, and
/// the one quotient that does not fit, `i64::MIN / -1`, give no value; so
/// does a side without a value.
pub proof fn lemma_eval_binary(left: ExpressionView, op: BinaryOp, right: ExpressionView, span: Span)
    ensures
        ({
            let v = eval(Tagged { kind: ExpressionKindView::Binary { left: Box::new(left), op, right: Box::new(right) }, span });
            &&& (eval(left) is None || eval(right) is None) ==> v is None
            &&& (eval(left) is Some && eval(right) is Some) ==> {
                let a = eval(left)->Some_0;
                let b = eval(right)->Some_0;
                &&& op is Add ==> v == (if i64::MIN <= a + b <= i64::MAX { Some(a + b) } else { None })
                &&& op is Sub ==> v == (if i64::MIN <= a - b <= i64::MAX { Some(a - b) } else { None })
                &&& op is Mul ==> v == (if i64::MIN <= a * b <= i64::MAX { Some(a * b) } else { None })
                &&& op is Div ==> (v is None <==> (b == 0 || (a == i64::MIN && b == -1)))
                &&& op is Div && v is Some ==> {
                    let q = v->Some_0;
                    let rem = a - q * b;
                    &&& (if rem >= 0 { rem } else { -rem }) < (if b >= 0 { b } else { -b })
                    &&& (rem == 0 || (rem < 0) == (a < 0))
                }
            }
        }),
{
    lemma_eval_fits(left);
    lemma_eval_fits(right);
    if op is Div && eval(left) is Some && eval(right) is Some {
        let a = eval(left)->Some_0;
        let b = eval(right)->Some_0;
        if b != 0 {
            lemma_trunc_div(a, b);
        }
    }
}

/// Division rounding towards zero leaves a remainder smaller than the
/// divisor with the sign of the dividend, and stays within `i64` for values
/// of `i64` except `i64::MIN / -1`.
proof fn lemma_trunc_div(a: int, b: int)
    requires
        b != 0,
        fits_i64(a),
        fits_i64(b),
    ensures
        ({
            let q = trunc_div(a, b);
            let rem = a - q * b;
            &&& (if rem >= 0 { rem } else { -rem }) < (if b >= 0 { b } else { -b })
            &&& (rem == 0 || (rem < 0) == (a < 0))
            &&& fits_i64(q) <==> !(a == i64::MIN && b == -1)
        }),
{
    let ab = if b >= 0 { b } else { -b };
    if a >= 0 {
        let q = a / b;
        let r = a % b;
        assert(a == b * q + r && 0 <= r < ab) by (nonlinear_arith)
            requires b != 0, q == a / b, r == a % b, ab == (if b >= 0 { b } else { -b });
        assert(q * b == b * q) by (nonlinear_arith);
        assert(-a <= q <= a) by (nonlinear_arith)
            requires b != 0, a >= 0, a == b * q + r, 0 <= r < ab, ab == (if b >= 0 { b } else { -b });
        assert(trunc_div(a, b) == q);
    } else {
        let x = -a;
        let q = x / b;
        let r = x % b;
        assert(x == b * q + r && 0 <= r < ab) by (nonlinear_arith)
            requires b != 0, q == x / b, r == x % b, ab == (if b >= 0 { b } else { -b });
        assert(q * b == b * q) by (nonlinear_arith);
        assert(-x <= q <= x) by (nonlinear_arith)
            requires b != 0, x > 0, x == b * q + r, 0 <= r < ab, ab == (if b >= 0 { b } else { -b });
        assert(q == -x ==> b == -1) by (nonlinear_arith)
            requires b != 0, x > 0, x == b * q + r, 0 <= r < ab, ab == (if b >= 0 { b } else { -b });
        assert(b == -1 ==> q == -x) by (nonlinear_arith)
            requires x == b * q + r, 0 <= r < ab, ab == (if b >= 0 { b } else { -b });
        assert(trunc_div(a, b) == -q);
        assert(a - (-q) * b == -r) by (nonlinear_arith)
            requires a == -x, x == b * q + r;
    }
}


impl Tagged<ExpressionKind> {
    /// The value of the expression; an expression that names something has
    /// none (see `eval`).
    pub fn evaluate(&self) -> (r: i64)
        requires
            eval(self@) is Some,
        ensures
            r == eval(self@)->Some_0,
        decreases self,
    {
        match &self.kind {
            ExpressionKind::Number(value) => *value,
            ExpressionKind::Identifier(_) => 0,
            ExpressionKind::Unary { op, expression } => {
                let value = expression.evaluate();
                match op {
                    UnaryOp::Minus => -value,
                    UnaryOp::Plus => value,
                }
            },
            ExpressionKind::Binary { left, op, right } => {
                let left = left.evaluate();
                let right = right.evaluate();
                match op {
                    BinaryOp::Add => left + right,
                    BinaryOp::Sub => left - right,
                    BinaryOp::Mul => left * right,
                    BinaryOp::Div => {
                        proof {
                            if left == i64::MIN && right == -1 {
                                assert(0x8000_0000_0000_0000int / -1int == -0x8000_0000_0000_0000int) by (nonlinear_arith);
                                assert(trunc_div(left as int, right as int) == 0x8000_0000_0000_0000);
                            }
                        }
                        left / right
                    },
                }
            },
        }
    }
}

} // verus!
