use avrs::parser::lexer::TokenKind;
use avrs::parser::tagged::Span;
use avrs::parser::{ExpressionKind, NumberError, OperandKind, Parser, ParserError, Statement};

fn create(value: &str) -> Parser {
   Parser::new(value.as_bytes())
}

#[test]
fn test_expression() {
    let mut parser = create("24");
    let expr = parser.parse_expression()
        .unwrap();

    assert_eq!(24, expr.evaluate());

    let mut parser = create("-24");
    let expr = parser.parse_expression()
        .unwrap();
    assert_eq!(-24, expr.evaluate());

    let mut parser = create("-+-24");
    let expr = parser.parse_expression()
        .unwrap();
    assert_eq!(24, expr.evaluate());

    let mut parser = create("10 * 2");
    let expr = parser.parse_expression()
        .unwrap();
    assert_eq!(20, expr.evaluate());

    let mut parser = create("10 / 2");
    let expr = parser.parse_expression()
        .unwrap();
    assert_eq!(5, expr.evaluate());

    let mut parser = create("5 + 2");
    let expr = parser.parse_expression()
        .unwrap();
    assert_eq!(7, expr.evaluate());

    let mut parser = create("24 - 8");
    let expr = parser.parse_expression()
        .unwrap();
    assert_eq!(16, expr.evaluate());

    let mut parser = create("5 + (10 * 2)");
    let expr = parser.parse_expression()
        .unwrap();
    assert_eq!(25, expr.evaluate());
}

#[test]
pub fn test_operand() {
    let mut parser = create("r21");
    let op = parser.parse_operand()
        .unwrap();
    match op.kind {
        OperandKind::Register(value) => assert_eq!(21, value),
        _ => panic!("expected register operand, received {:?}", op.kind),
    }

    let mut parser = create("2+2");
    let op = parser.parse_operand()
        .unwrap();
    match op.kind {
        OperandKind::Expression(expr) => assert_eq!(4, expr.evaluate()),
        _ => panic!("expected expression operand, received {:?}", op.kind),
    }
}

#[test]
fn test_statement() {
    let mut parser = create(".BYTE 4");
    let stmt = parser.parse_statement(None)
        .unwrap();
    match &stmt {
        Statement::Directive(body) => {
            assert_eq!(body.name, "BYTE");
            let op = &body.operands[0];
            match &op.kind {
                OperandKind::Expression(expr) => assert_eq!(expr.evaluate(), 4),
                _ => panic!("expected expression, received: {:?}", op.kind),
            }

        }
        _ => panic!("expected directive, received: {:?}", stmt),
    };

    let mut parser = create("ldi r2, (4 + 8)");
    let stmt = parser.parse_statement(None)
        .unwrap();
    match &stmt{
        Statement::Instruction(body) => {
            assert_eq!(body.name, "ldi");
            let op = &body.operands[0];
            match &op.kind {
                OperandKind::Register(index) => assert_eq!(*index, 2),
                _ => panic!("expected expression, received: {:?}", op.kind),
            }
            let op = &body.operands[1];
            match &op.kind {
                OperandKind::Expression(expr) => assert_eq!(expr.evaluate(), 12),
                _ => panic!("expected expression, received: {:?}", op.kind),
            }

        }
        _ => panic!("expected directive, received: {:?}", stmt),
    };
}

#[test]
fn parser_test_line() {
    let mut parser = create("\n");
    let line = parser.parse_line()
        .unwrap();
    assert!(line.label.is_none());
    assert!(line.statement.is_none());

    let mut parser = create("label:\n");
    let line = parser.parse_line()
        .unwrap();
    assert_eq!("label", line.label.unwrap());
    assert!(line.statement.is_none());

    let mut parser = create("mov r2, r3\n");
    let line = parser.parse_line()
        .unwrap();
    assert!(line.label.is_none());
    assert!(line.statement.is_some());

    let mut parser = create("label: .BYTE 4\n");
    let line = parser.parse_line()
        .unwrap();
    assert_eq!("label", line.label.unwrap());
    assert!(line.statement.is_some());
}

#[test]
fn operators_repeat_and_fold_left() {
    let mut parser = create("2 * 3 * 4");
    let expr = parser.parse_expression().unwrap();
    assert_eq!(24, expr.evaluate());
    let mut parser = create("1 + 2 + 3");
    assert_eq!(6, parser.parse_expression().unwrap().evaluate());
    let mut parser = create("10 - 2 - 3");
    assert_eq!(5, parser.parse_expression().unwrap().evaluate());
    let mut parser = create("24 / 4 / 2");
    assert_eq!(3, parser.parse_expression().unwrap().evaluate());
    let mut parser = create("1 + 2 * 3 - 4");
    assert_eq!(3, parser.parse_expression().unwrap().evaluate());
}

#[test]
fn repeated_operators_consume_the_expression() {
    let mut parser = create("1 + 2 + 3\nnop\n");
    let expr = parser.parse_expression().unwrap();
    assert_eq!(6, expr.evaluate());
    // what follows the expression is the end of its line
    let line = parser.next().unwrap();
    assert!(line.statement.is_none());
    let line = parser.next().unwrap();
    assert!(line.statement.is_some());
}

#[test]
fn identifier_is_a_primary() {
    let mut parser = create("label");
    let expr = parser.parse_expression().unwrap();
    match expr.kind {
        ExpressionKind::Identifier(name) => assert_eq!("label", name),
        other => panic!("unexpected expression: {:?}", other),
    }
    assert_eq!(Span { offset: 0, len: 5 }, expr.span);
    let mut parser = create("ldi r16, label\n");
    let line = parser.next().unwrap();
    match line.statement.unwrap() {
        Statement::Instruction(body) => {
            assert_eq!(2, body.operands.len());
            assert!(matches!(&body.operands[1].kind, OperandKind::Expression(e) if matches!(&e.kind, ExpressionKind::Identifier(n) if n == "label")));
        }
        other => panic!("unexpected statement: {:?}", other),
    }
}

#[test]
fn memory_operands() {
    let mut parser = create("[r30]");
    let op = parser.parse_operand().unwrap();
    assert!(matches!(op.kind, OperandKind::Memory { register: 30, offset: None }));
    assert_eq!(Span { offset: 0, len: 5 }, op.span);

    let mut parser = create("[r28 + 4]");
    match parser.parse_operand().unwrap().kind {
        OperandKind::Memory { register, offset: Some(offset) } => {
            assert_eq!(28, register);
            assert_eq!(4, offset.evaluate());
        }
        other => panic!("unexpected operand: {:?}", other),
    }

    let mut parser = create("[r28 - 2]");
    match parser.parse_operand().unwrap().kind {
        OperandKind::Memory { register, offset: Some(offset) } => {
            assert_eq!(28, register);
            assert_eq!(-2, offset.evaluate());
        }
        other => panic!("unexpected operand: {:?}", other),
    }

    let mut parser = create("ld r1, [r30]\n");
    let line = parser.next().unwrap();
    match line.statement.unwrap() {
        Statement::Instruction(body) => {
            assert_eq!(2, body.operands.len());
            // a statement's span runs over the gap and the length of its last operand
            assert_eq!(Span { offset: 0, len: 10 }, body.span);
        }
        other => panic!("unexpected statement: {:?}", other),
    }
}

#[test]
fn memory_operand_errors() {
    let mut parser = create("[r30 4");
    match parser.parse_operand() {
        Err(ParserError::UnexpectedToken { topic, received, expected, .. }) => {
            assert_eq!("memory", topic);
            assert_eq!(TokenKind::Eof, received);
            assert_eq!(vec![TokenKind::RBracket], expected);
        }
        other => panic!("unexpected result: {:?}", other),
    }
    let mut parser = create("[4]");
    match parser.parse_operand() {
        Err(ParserError::UnexpectedToken { topic, .. }) => assert_eq!("register", topic),
        other => panic!("unexpected result: {:?}", other),
    }
}

#[test]
fn lines_follow_each_other() {
    let mut parser = create("mov r2, r3\nadd r1, r2\n");
    let line = parser.next().unwrap();
    match line.statement.unwrap() {
        Statement::Instruction(body) => assert_eq!("mov", body.name),
        other => panic!("unexpected statement: {:?}", other),
    }
    let line = parser.next().unwrap();
    match line.statement.unwrap() {
        Statement::Instruction(body) => assert_eq!("add", body.name),
        other => panic!("unexpected statement: {:?}", other),
    }
    // the end of input ends the last line, which has no statement
    let line = parser.next().unwrap();
    assert!(line.statement.is_none());
    assert!(line.label.is_none());
}

#[test]
fn last_line_may_end_at_end_of_input() {
    let mut parser = create("nop");
    let line = parser.next().unwrap();
    assert!(line.statement.is_some());
}

#[test]
fn junk_after_statement() {
    let mut parser = create("add r1 r2\n");
    match parser.next() {
        Err(ParserError::UnexpectedToken { topic, received, expected, span }) => {
            assert_eq!("line", topic);
            assert_eq!(TokenKind::Register("r2".to_string()), received);
            assert_eq!(vec![TokenKind::Newline, TokenKind::Eof], expected);
            assert_eq!(Span { offset: 7, len: 2 }, span);
        }
        other => panic!("unexpected result: {:?}", other),
    }
}

#[test]
fn division_rounds_towards_zero() {
    let mut parser = create("-7 / 2");
    assert_eq!(-3, parser.parse_expression().unwrap().evaluate());
    let mut parser = create("7 / -2");
    assert_eq!(-3, parser.parse_expression().unwrap().evaluate());
}

#[test]
fn expression_spans() {
    let mut parser = create(" 5 + (10 * 2)");
    let expr = parser.parse_expression().unwrap();
    // a combined span runs from the start of the first part over the gap
    // and the length of the last part
    assert_eq!(Span { offset: 1, len: 8 }, expr.span);
    let mut parser = create("- 3");
    let expr = parser.parse_expression().unwrap();
    assert_eq!(Span { offset: 0, len: 2 }, expr.span);
}

#[test]
fn missing_closing_paren() {
    let mut parser = create("(1 + 2");
    match parser.parse_expression() {
        Err(ParserError::UnexpectedToken { topic, received, expected, span }) => {
            assert_eq!("expression", topic);
            assert_eq!(TokenKind::Eof, received);
            assert_eq!(vec![TokenKind::RParen], expected);
            assert_eq!(Span { offset: 6, len: 0 }, span);
        }
        other => panic!("unexpected result: {:?}", other),
    }
}

#[test]
fn number_too_large() {
    let mut parser = create("9223372036854775808");
    assert!(matches!(parser.parse_expression(), Err(ParserError::InvalidNumber { error: NumberError::PosOverflow, .. })));
    let mut parser = create("9223372036854775807");
    assert_eq!(i64::MAX, parser.parse_expression().unwrap().evaluate());
}

#[test]
fn register_too_large() {
    let mut parser = create("r321");
    assert!(matches!(parser.parse_operand(), Err(ParserError::InvalidNumber { error: NumberError::PosOverflow, span: Span { offset: 0, len: 4 } })));
}

#[test]
fn operand_unexpected() {
    let mut parser = create(",");
    match parser.parse_operand() {
        Err(ParserError::UnexpectedToken { topic, received, expected, .. }) => {
            assert_eq!("operand", topic);
            assert_eq!(TokenKind::Comma, received);
            assert_eq!(6, expected.len());
        }
        other => panic!("unexpected result: {:?}", other),
    }
}

#[test]
fn statement_needs_name() {
    let mut parser = create("4");
    assert!(matches!(parser.parse_statement(None), Err(ParserError::UnexpectedToken { .. })));
}

#[test]
fn statement_span_and_operands() {
    let mut parser = create("add r1, r2, 3\n");
    let line = parser.next().unwrap();
    assert_eq!(Span { offset: 0, len: 3 }, line.span);
    match line.statement.unwrap() {
        Statement::Instruction(body) => {
            assert_eq!(3, body.operands.len());
            assert_eq!(Span { offset: 0, len: 10 }, body.span);
        }
        other => panic!("unexpected statement: {:?}", other),
    }
}

#[test]
fn label_span_covers_colon() {
    let mut parser = create("start :\n");
    let line = parser.parse_line().unwrap();
    assert_eq!(Span { offset: 0, len: 2 }, line.span);
}

#[test]
fn lexer_error_in_line() {
    let mut parser = create("add $\n");
    assert!(matches!(parser.parse_line(), Err(ParserError::Lexer(_))));
}

#[test]
fn skip_to_line_end() {
    let mut parser = create("a b c\nmov r1, r2");
    parser.skip_until_end().unwrap();
    let line = parser.next().unwrap();
    assert!(line.statement.is_none());
    let line = parser.next().unwrap();
    match line.statement.unwrap() {
        Statement::Instruction(body) => assert_eq!("mov", body.name),
        other => panic!("unexpected statement: {:?}", other),
    }
}
