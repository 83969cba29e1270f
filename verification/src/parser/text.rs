//! Operands written out as text, in the form `{:?}` gives them.
use vstd::prelude::*;
use crate::parser::{BinaryOp, Expression, ExpressionKind, ExpressionKindView, ExpressionView, OperandKind, OperandKindView, UnaryOp};
use crate::parser::tagged::Span;

verus! {

/// The decimal digit `d`.
pub open spec fn digit_text(d: nat) -> Seq<char> {
    if d == 0 { "0"@ }
    else if d == 1 { "1"@ }
    else if d == 2 { "2"@ }
    else if d == 3 { "3"@ }
    else if d == 4 { "4"@ }
    else if d == 5 { "5"@ }
    else if d == 6 { "6"@ }
    else if d == 7 { "7"@ }
    else if d == 8 { "8"@ }
    else { "9"@ }
}

/// `n` in decimal, without leading zeros.
pub open spec fn nat_text(n: nat) -> Seq<char>
    decreases n,
{
    if n < 10 { digit_text(n) } else { nat_text(n / 10) + digit_text(n % 10) }
}

/// `v` in decimal, with a minus sign when it is negative.
pub open spec fn int_text(v: int) -> Seq<char> {
    if v < 0 { "-"@ + nat_text((-v) as nat) } else { nat_text(v as nat) }
}

pub open spec fn span_text(s: Span) -> Seq<char> {
    "Span { offset: "@ + nat_text(s.offset as nat) + ", len: "@ + nat_text(s.len as nat) + " }"@
}

pub open spec fn unary_op_text(op: UnaryOp) -> Seq<char> {
    match op {
        UnaryOp::Plus => "Plus"@,
        UnaryOp::Minus => "Minus"@,
    }
}

pub open spec fn binary_op_text(op: BinaryOp) -> Seq<char> {
    match op {
        BinaryOp::Add => "Add"@,
        BinaryOp::Sub => "Sub"@,
        BinaryOp::Mul => "Mul"@,
        BinaryOp::Div => "Div"@,
    }
}

/// An expression as text: `Tagged { kind: .., span: .. }`, its parts
/// written the same way and a name between double quotes.
pub open spec fn expression_text(e: ExpressionView) -> Seq<char>
    decreases e, 1nat,
{
    "Tagged { kind: "@ + expression_kind_text(e) + ", span: "@ + span_text(e.span) + " }"@
}

/// The kind of an expression as text.
pub open spec fn expression_kind_text(e: ExpressionView) -> Seq<char>
    decreases e, 0nat,
{
    match e.kind {
        ExpressionKindView::Number(v) => "Number("@ + int_text(v as int) + ")"@,
        ExpressionKindView::Identifier(name) => "Identifier(\""@ + name + "\")"@,
        ExpressionKindView::Unary { op, expression } =>
            "Unary { op: "@ + unary_op_text(op) + ", expression: "@ + expression_text(*expression) + " }"@,
        ExpressionKindView::Binary { left, op, right } =>
            "Binary { left: "@ + expression_text(*left) + ", op: "@ + binary_op_text(op) + ", right: "@
                + expression_text(*right) + " }"@,
    }
}

/// An operand kind as text, in the form of `expression_text`.
pub open spec fn operand_kind_text(k: OperandKindView) -> Seq<char> {
    match k {
        OperandKindView::Register(index) => "Register("@ + nat_text(index as nat) + ")"@,
        OperandKindView::Memory { register, offset } => "Memory { register: "@ + nat_text(register as nat) + ", offset: "@
            + match offset {
                None => "None"@,
                Some(e) => "Some("@ + expression_text(e) + ")"@,
            } + " }"@,
        OperandKindView::Expression(e) => "Expression("@ + expression_text(e) + ")"@,
    }
}

fn digit_str(d: u64) -> (r: &'static str)
    requires
        d < 10,
    ensures
        r@ == digit_text(d as nat),
{
    if d == 0 { "0" }
    else if d == 1 { "1" }
    else if d == 2 { "2" }
    else if d == 3 { "3" }
    else if d == 4 { "4" }
    else if d == 5 { "5" }
    else if d == 6 { "6" }
    else if d == 7 { "7" }
    else if d == 8 { "8" }
    else { "9" }
}

/// Appends `n` in decimal.
pub fn write_nat(s: &mut String, n: u64)
    ensures
        final(s)@ == old(s)@ + nat_text(n as nat),
    decreases n,
{
    let ghost before = s@;
    if n >= 10 {
        write_nat(s, n / 10);
    }
    let d = digit_str(n % 10);
    s.append(d);
    proof {
        if n >= 10 {
            assert(s@ =~= before + nat_text(n as nat));
        } else {
            assert(s@ =~= before + nat_text(n as nat));
        }
    }
}

/// Appends `v` in decimal.
pub fn write_int(s: &mut String, v: i64)
    ensures
        final(s)@ == old(s)@ + int_text(v as int),
{
    let ghost before = s@;
    if v < 0 {
        s.append("-");
        let m: u64 = (-(v as i128)) as u64;
        write_nat(s, m);
        proof {
            assert(s@ =~= before + int_text(v as int));
        }
    } else {
        write_nat(s, v as u64);
    }
}

/// Appends the text of `sp`.
pub fn write_span(s: &mut String, sp: Span)
    ensures
        final(s)@ == old(s)@ + span_text(sp),
{
    let ghost before = s@;
    s.append("Span { offset: ");
    write_nat(s, sp.offset as u64);
    s.append(", len: ");
    write_nat(s, sp.len as u64);
    s.append(" }");
    proof {
        assert(s@ =~= before + span_text(sp));
    }
}

/// Appends the text of `e`.
pub fn write_expression(s: &mut String, e: &Expression)
    ensures
        final(s)@ == old(s)@ + expression_text(e@),
    decreases e, 1nat,
{
    let ghost before = s@;
    s.append("Tagged { kind: ");
    write_expression_kind(s, e);
    s.append(", span: ");
    write_span(s, e.span);
    s.append(" }");
    proof {
        assert(s@ =~= before + expression_text(e@));
    }
}

/// Appends the text of the kind of `e`.
#[verifier::rlimit(80)]
#[verifier::spinoff_prover]
fn write_expression_kind(s: &mut String, e: &Expression)
    ensures
        final(s)@ == old(s)@ + expression_kind_text(e@),
    decreases e, 0nat,
{
    let ghost before = s@;
    match &e.kind {
        ExpressionKind::Number(v) => {
            s.append("Number(");
            write_int(s, *v);
            s.append(")");
            proof {
                assert(s@ =~= before + expression_kind_text(e@));
            }
        },
        ExpressionKind::Identifier(name) => {
            s.append("Identifier(\"");
            s.append(name.as_str());
            s.append("\")");
            proof {
                assert(s@ =~= before + expression_kind_text(e@));
            }
        },
        ExpressionKind::Unary { op, expression } => {
            s.append("Unary { op: ");
            match op {
                UnaryOp::Plus => s.append("Plus"),
                UnaryOp::Minus => s.append("Minus"),
            }
            s.append(", expression: ");
            write_expression(s, expression);
            s.append(" }");
            proof {
                assert(s@ =~= before + expression_kind_text(e@));
            }
        },
        ExpressionKind::Binary { left, op, right } => {
            s.append("Binary { left: ");
            write_expression(s, left);
            s.append(", op: ");
            match op {
                BinaryOp::Add => s.append("Add"),
                BinaryOp::Sub => s.append("Sub"),
                BinaryOp::Mul => s.append("Mul"),
                BinaryOp::Div => s.append("Div"),
            }
            s.append(", right: ");
            write_expression(s, right);
            s.append(" }");
            proof {
                assert(s@ =~= before + expression_kind_text(e@));
            }
        },
    }
}

impl OperandKind {
    /// The operand written out as text, in the form `{:?}` gives it (see
    /// `operand_kind_text`).
    pub fn debug_text(&self) -> (r: String)
        ensures
            r@ == operand_kind_text(self@),
    {
        let mut s = String::new();
        match self {
            OperandKind::Register(index) => {
                s.append("Register(");
                write_nat(&mut s, *index as u64);
                s.append(")");
            },
            OperandKind::Memory { register, offset } => {
                s.append("Memory { register: ");
                write_nat(&mut s, *register as u64);
                s.append(", offset: ");
                match offset {
                    None => s.append("None"),
                    Some(e) => {
                        s.append("Some(");
                        write_expression(&mut s, e);
                        s.append(")");
                    },
                }
                s.append(" }");
            },
            OperandKind::Expression(e) => {
                s.append("Expression(");
                write_expression(&mut s, e);
                s.append(")");
            },
        }
        proof {
            assert(s@ =~= operand_kind_text(self@));
        }
        s
    }
}

} // verus!
