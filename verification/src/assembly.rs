use vstd::prelude::*;
use crate::instruction::{Add, Register};
use crate::parser::{Operand, OperandKind, OperandKindView, OperandView, ParsedStatement, ParsedStatementView, Statement, StatementView};
use crate::parser::tagged::Span;
use crate::parser::text::operand_kind_text;
use crate::types::{IntegerError, integer_error_text, unsigned_transform, Unsigned};

verus! {

/// What the assembler knows while it reads a program.
pub struct AssemblyState {}

/// Why a statement could not become an instruction.
#[derive(Debug)]
pub enum InstructionError {
    InvalidOperand { instruction: &'static str, message: String, span: Span },
    InvalidOperandCount { instruction: &'static str, received: usize, expected: usize, span: Span },
    UnexpectedDirective { span: Span },
}

/// An instruction error with its texts as sequences.
pub enum InstructionErrorView {
    InvalidOperand { instruction: Seq<char>, message: Seq<char>, span: Span },
    InvalidOperandCount { instruction: Seq<char>, received: usize, expected: usize, span: Span },
    UnexpectedDirective { span: Span },
}

impl View for InstructionError {
    type V = InstructionErrorView;

    open spec fn view(&self) -> InstructionErrorView {
        match self {
            InstructionError::InvalidOperand { instruction, message, span } => InstructionErrorView::InvalidOperand {
                instruction: instruction@,
                message: message@,
                span: *span,
            },
            InstructionError::InvalidOperandCount { instruction, received, expected, span } => InstructionErrorView::InvalidOperandCount {
                instruction: instruction@,
                received: *received,
                expected: *expected,
                span: *span,
            },
            InstructionError::UnexpectedDirective { span } => InstructionErrorView::UnexpectedDirective { span: *span },
        }
    }
}

/// The view of a result whose error is an instruction error.
pub open spec fn instruction_result_view<T>(r: Result<T, InstructionError>) -> Result<T, InstructionErrorView> {
    match r {
        Ok(v) => Ok(v),
        Err(e) => Err(e@),
    }
}

/// The body of an instruction statement; a directive is refused.
pub fn get_instruction(statement: &Statement) -> (r: Result<&ParsedStatement, InstructionError>)
    ensures
        match statement {
            Statement::Instruction(b) => r == Ok::<&ParsedStatement, InstructionError>(b),
            Statement::Directive(b) => instruction_result_view(r) == Err::<&ParsedStatement, InstructionErrorView>(InstructionErrorView::UnexpectedDirective { span: b.span }),
        },
{
    match statement {
        Statement::Instruction(b) => Ok(b),
        Statement::Directive(b) => {
            Err(InstructionError::UnexpectedDirective { span: b.span })
        },
    }
}

/// An instruction that can be read from a parsed statement.
pub trait AssemblyParse: Sized {
    /// The mnemonic of the instruction.
    fn name() -> (r: &'static str);

    /// What parsing `statement` may give.
    spec fn parse_outcome(statement: ParsedStatementView, r: Result<Self, InstructionErrorView>) -> bool;

    /// Reads the instruction from a statement.
    fn parse(statement: &ParsedStatement, state: &AssemblyState) -> (r: Result<Self, InstructionError>)
        ensures
            Self::parse_outcome(statement@, instruction_result_view(r)),
    ;
}

/// How an operand reads as a register: its number, or why not (`None`:
/// it is not a register at all).
pub open spec fn register_operand(op: OperandView) -> Result<u16, Option<IntegerError>> {
    match op.kind {
        OperandKindView::Register(index) => match unsigned_transform(index as u16, 0, 31, 0) {
            Ok(v) => Ok(v),
            Err(e) => Err(Some(e)),
        },
        _ => Err(None),
    }
}

/// The message given for an operand that is not a register.
pub open spec fn not_register_prefix() -> Seq<char> {
    "expected register, received: "@
}

/// The error reported for operand `op` of `add` when it is not a usable
/// register.
pub open spec fn bad_register(e: InstructionErrorView, op: OperandView, why: Option<IntegerError>) -> bool {
    &&& e matches InstructionErrorView::InvalidOperand { instruction, message, span: s }
    &&& e->InvalidOperand_instruction == "add"@
    &&& e->InvalidOperand_span == op.span
    &&& e->InvalidOperand_message == match why {
        Some(ie) => integer_error_text(ie),
        None => not_register_prefix() + operand_kind_text(op.kind),
    }
}

/// Reads a register operand of `add`.
fn register_of_operand(op: &Operand) -> (r: Result<Register, InstructionError>)
    ensures
        match register_operand(op@) {
            Ok(v) => r matches Ok(reg) && reg.value() == v,
            Err(why) => r matches Err(e) && bad_register(e@, op@, why),
        },
{
    match &op.kind {
        OperandKind::Register(index) => match Register::transform(*index as u16) {
            Ok(reg) => Ok(reg),
            Err(e) => Err(InstructionError::InvalidOperand { instruction: "add", message: e.message(), span: op.span }),
        },
        x => {
            let mut message = String::from_str("expected register, received: ");
            let text = x.debug_text();
            message.append(text.as_str());
            proof {
                reveal_strlit("expected register, received: ");
            }
            Err(InstructionError::InvalidOperand { instruction: "add", message, span: op.span })
        },
    }
}

impl AssemblyParse for Add {
    fn name() -> (r: &'static str)
        ensures
            r@ == "add"@,
    {
        "add"
    }

    /// Two operands, both registers `r0` to `r31`: `add Rd, Rr`.
    open spec fn parse_outcome(statement: ParsedStatementView, r: Result<Add, InstructionErrorView>) -> bool {
        if statement.operands.len() != 2 {
            r == Err::<Add, InstructionErrorView>(InstructionErrorView::InvalidOperandCount {
                instruction: "add"@,
                received: statement.operands.len() as usize,
                expected: 2,
                span: statement.span,
            })
        } else {
            let (op0, op1) = (statement.operands[0], statement.operands[1]);
            match (register_operand(op0), register_operand(op1)) {
                (Ok(d), Ok(rr)) => r matches Ok(add) && add.d.value() == d && add.r.value() == rr,
                (Err(why), _) => r matches Err(e) && bad_register(e, op0, why),
                (Ok(_), Err(why)) => r matches Err(e) && bad_register(e, op1, why),
            }
        }
    }

    fn parse(statement: &ParsedStatement, state: &AssemblyState) -> (r: Result<Self, InstructionError>) {
        if statement.operands.len() != 2 {
            return Err(InstructionError::InvalidOperandCount {
                instruction: "add",
                received: statement.operands.len(),
                expected: 2,
                span: statement.span,
            });
        }

        let rd = match register_of_operand(&statement.operands[0]) {
            Ok(reg) => reg,
            Err(e) => return Err(e),
        };
        let rr = match register_of_operand(&statement.operands[1]) {
            Ok(reg) => reg,
            Err(e) => return Err(e),
        };

        let add = Add::new(rd, rr);
        Ok(add)
    }
}

} // verus!
