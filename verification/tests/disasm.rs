use uk2::disasm::{decode_instruction, disassemble_reachable, DisasmError, InstructionArg, InstructionKind};
use uk2::mes::MES_MAGIC;
use uk2::opcode::TwoOpcode;
use uk2::value::{ExpressionOp, ExpressionTerm, Operand};
use uk2::{MesProgram, MES_CODE_OFFSET};

fn program(code: &[u8]) -> MesProgram {
    let mut bytes = MES_MAGIC.to_vec();
    bytes.extend_from_slice(code);
    MesProgram::from_bytes(bytes).unwrap()
}

#[test]
fn decodes_j2_filename_operand() {
    let mes = program(&[b'J', b'2', 0x60, b'a', b'.', b'm', b'e', b's', b'1', 0, 0]);
    let instruction = decode_instruction(&mes, MES_CODE_OFFSET).unwrap();
    assert_eq!(instruction.end_offset, MES_CODE_OFFSET + 10);
    assert!(matches!(
        instruction.kind,
        InstructionKind::Command {
            opcode: TwoOpcode::J2,
            ..
        }
    ));
}

#[test]
fn decodes_w5_filename_and_mode() {
    let mes = program(&[
        b'W', b'5', 0x60, b'x', b'.', b'p', b'd', b't', b'1', 0, 0x87, 0x1f, 3, 0, 0,
    ]);
    let instruction = decode_instruction(&mes, MES_CODE_OFFSET).unwrap();
    let InstructionKind::Command { opcode, arguments } = instruction.kind else {
        panic!("not a command")
    };
    assert_eq!(opcode, TwoOpcode::W5);
    assert_eq!(arguments.len(), 2);
    let InstructionArg::Expression(expression) = &arguments[1] else {
        panic!("mode is not an expression")
    };
    assert_eq!(
        expression.terms[0],
        ExpressionTerm {
            op: ExpressionOp::Assign,
            operand: Operand::Immediate(3),
        }
    );
}

#[test]
fn w8_consumes_helper_parsed_payload() {
    let mes = program(&[
        b'W', b'8', 0x40, 0x87, 0x1f, 11, 0, 0x87, 0x1f, 5, 0, 0x87, 0x1f, 1, 0, 0x80, 0,
    ]);
    let instruction = decode_instruction(&mes, MES_CODE_OFFSET).unwrap();
    assert_eq!(instruction.end_offset, mes.len() - 1);
}

#[test]
fn decodes_single_byte_forms_and_refuses_bad_offsets() {
    let mes = program(&[0x00]);
    let end = decode_instruction(&mes, MES_CODE_OFFSET).unwrap();
    assert_eq!(end.kind, InstructionKind::End);
    assert_eq!(end.end_offset, MES_CODE_OFFSET + 1);
    assert_eq!(decode_instruction(&mes, 3).err(), Some(DisasmError::InsideHeader));
    assert_eq!(decode_instruction(&mes, MES_CODE_OFFSET + 2).err(), Some(DisasmError::OffsetBeyondEnd));
    let unknown = program(&[b'Q', b'Q']);
    assert_eq!(decode_instruction(&unknown, MES_CODE_OFFSET).err(), Some(DisasmError::UnknownOpcode(b'Q', b'Q')));
    let cut = program(&[b'J']);
    assert_eq!(decode_instruction(&cut, MES_CODE_OFFSET).err(), Some(DisasmError::Truncated));
}

#[test]
fn traversal_visits_each_reachable_instruction_once() {
    let mes = program(&[0x04, 0x01, 0x00]);
    let listing = disassemble_reachable(&mes).unwrap();
    assert_eq!(listing.len(), 2);
    assert!(matches!(listing[&MES_CODE_OFFSET].kind, InstructionKind::Increment(Operand::SystemWord(1))));
    assert_eq!(listing[&(MES_CODE_OFFSET + 2)].kind, InstructionKind::End);
}

#[test]
fn traversal_stops_at_end_and_skips_trailing_bytes() {
    let mes = program(&[0x00, b'Q', b'Q']);
    let listing = disassemble_reachable(&mes).unwrap();
    assert_eq!(listing.len(), 1);
    assert_eq!(listing[&MES_CODE_OFFSET].kind, InstructionKind::End);
}

#[test]
fn traversal_follows_block_call_targets() {
    let target = (MES_CODE_OFFSET + 4) as u16;
    let [lo, hi] = target.to_le_bytes();
    let mes = program(&[0x02, lo, hi, 0x00, 0x00]);
    let listing = disassemble_reachable(&mes).unwrap();
    assert_eq!(listing.len(), 3);
    assert_eq!(listing[&MES_CODE_OFFSET].kind, InstructionKind::BlockCall { target });
    assert_eq!(listing[&(MES_CODE_OFFSET + 3)].kind, InstructionKind::End);
    assert_eq!(listing[&(MES_CODE_OFFSET + 4)].kind, InstructionKind::End);
}

#[test]
fn traversal_refuses_an_edge_outside_the_code() {
    let mes = program(&[0x02, 0xff, 0x7f, 0x00]);
    assert_eq!(disassemble_reachable(&mes).err(), Some(DisasmError::EdgeOutside(0x7fff)));
}
