use uk2::mes::MES_MAGIC;
use uk2::value::{
    parse_condition, parse_expression, parse_operand, parse_required_expression, CompareOp, ExpressionOp,
    ExpressionTerm, InlineStringPart, Operand, ValueError,
};
use uk2::MesProgram;

fn program(payload: &[u8]) -> MesProgram {
    let mut bytes = MES_MAGIC.to_vec();
    bytes.extend_from_slice(payload);
    MesProgram::from_bytes(bytes).unwrap()
}

#[test]
fn parses_reference_immediate_expression() {
    let mes = program(&[0x87, 0x1f, 0x34, 0x12]);
    let mut reader = mes.reader_at(MES_MAGIC.len()).unwrap();
    let expression = parse_required_expression(&mut reader).unwrap();
    assert_eq!(
        expression.terms[0],
        ExpressionTerm {
            op: ExpressionOp::Assign,
            operand: Operand::Immediate(0x1234),
        }
    );
}

#[test]
fn parses_inline_string_slots() {
    let mes = program(&[0x60, b'A', 5, 2, 6, 3, b'B', 0]);
    let mut reader = mes.reader_at(MES_MAGIC.len()).unwrap();
    assert_eq!(
        parse_operand(&mut reader).unwrap(),
        Operand::InlineString(vec![
            InlineStringPart::Literal(vec![b'A']),
            InlineStringPart::Table5Slot(2),
            InlineStringPart::Table6Slot(3),
            InlineStringPart::Literal(vec![b'B']),
        ])
    );
}

#[test]
fn null_expression_marker_and_errors() {
    let mes = program(&[0x80]);
    let mut reader = mes.reader_at(MES_MAGIC.len()).unwrap();
    assert_eq!(parse_expression(&mut reader), Ok(None));
    let mes = program(&[0x80]);
    let mut reader = mes.reader_at(MES_MAGIC.len()).unwrap();
    assert_eq!(parse_required_expression(&mut reader).err(), Some(ValueError::MissingExpression));
    let mes = program(&[0xe0]);
    let mut reader = mes.reader_at(MES_MAGIC.len()).unwrap();
    assert_eq!(parse_operand(&mut reader).err(), Some(ValueError::InvalidOperandClass));
    let mes = program(&[0x1f, 0x34]);
    let mut reader = mes.reader_at(MES_MAGIC.len()).unwrap();
    assert_eq!(parse_operand(&mut reader).err(), Some(ValueError::Truncated));
    let mes = program(&[0x86, 0x1f, 0, 0]);
    let mut reader = mes.reader_at(MES_MAGIC.len()).unwrap();
    assert_eq!(parse_expression(&mut reader).err(), Some(ValueError::InvalidExpressionOp(6)));
}

#[test]
fn parses_a_single_clause_condition() {
    // 1 < 2, no connector
    let mes = program(&[0x87, 0x1f, 1, 0, 1, 0x87, 0x1f, 2, 0, 0]);
    let mut reader = mes.reader_at(MES_MAGIC.len()).unwrap();
    let condition = parse_condition(&mut reader).unwrap();
    assert_eq!(condition.clauses.len(), 1);
    assert_eq!(condition.clauses[0].compare, CompareOp::Less);
    assert_eq!(condition.clauses[0].join_after, None);
}
