use avrs::assembly::{get_instruction, AssemblyParse, AssemblyState, InstructionError};
use avrs::instruction::Add;
use avrs::parser::{ExpressionKind, OperandKind, Parser};
use avrs::parser::tagged::{Span, Tagged};

#[test]
fn assembly_test_add() {
    let mut parser = Parser::new("add r1, r2\n".as_bytes());
    let line = parser.next().unwrap();
    let stmt = line.statement.unwrap();
    let body = get_instruction(&stmt).unwrap();
    let add = Add::parse(body, &AssemblyState {  }).unwrap();
    assert_eq!(add.d.inner(), 1);
    assert_eq!(add.r.inner(), 2);
}

fn parse_add(source: &str) -> Result<Add, InstructionError> {
    let mut parser = Parser::new(source.as_bytes());
    let line = parser.next().unwrap();
    let stmt = line.statement.unwrap();
    let body = get_instruction(&stmt)?;
    Add::parse(body, &AssemblyState {})
}

#[test]
fn add_operand_count() {
    match parse_add("add r1\n") {
        Err(InstructionError::InvalidOperandCount { instruction, received, expected, .. }) => {
            assert_eq!("add", instruction);
            assert_eq!(1, received);
            assert_eq!(2, expected);
        }
        other => panic!("unexpected result: {:?}", other),
    }
}

#[test]
fn add_register_out_of_range() {
    match parse_add("add r1, r40\n") {
        Err(InstructionError::InvalidOperand { message, .. }) => assert_eq!("out-of-range", message),
        other => panic!("unexpected result: {:?}", other),
    }
}

#[test]
fn add_expression_operand() {
    match parse_add("add 4, r2\n") {
        Err(InstructionError::InvalidOperand { message, .. }) => assert_eq!(
            "expected register, received: Expression(Tagged { kind: Number(4), span: Span { offset: 4, len: 1 } })",
            message
        ),
        other => panic!("unexpected result: {:?}", other),
    }
}

#[test]
fn directive_is_not_an_instruction() {
    assert!(matches!(parse_add(".add r1, r2\n"), Err(InstructionError::UnexpectedDirective { .. })));
}

#[test]
fn add_name() {
    assert_eq!("add", <Add as AssemblyParse>::name());
}

#[test]
fn operand_text_matches_debug_form() {
    let mut parser = Parser::new("add [r30 + -2], (x * 3) / 4\n".as_bytes());
    let line = parser.next().unwrap();
    let stmt = line.statement.unwrap();
    let body = get_instruction(&stmt).unwrap();
    for op in &body.operands {
        assert_eq!(format!("{:?}", op.kind), op.kind.debug_text());
    }
    let register = OperandKind::Register(17);
    assert_eq!("Register(17)", register.debug_text());
    let negative = OperandKind::Expression(Tagged::new(ExpressionKind::Number(i64::MIN), Span::new(0, 1)));
    assert_eq!(format!("{:?}", negative), negative.debug_text());
}
