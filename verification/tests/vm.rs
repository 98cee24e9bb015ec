use uk2::mes::MES_MAGIC;
use uk2::value::{CompareOp, Condition, ConditionClause, Expression, ExpressionOp, ExpressionTerm, Operand};
use uk2::vm::{status_outcome, CoreOutcome, NumericWidth, RuntimeValue, ServiceCommand, Step, Uk2Host, Uk2Memory, Uk2Vm, VmError};
use uk2::MesProgram;

struct TestHost;

impl Uk2Host for TestHost {
    fn load_mes(&mut self, _name: &[u8]) -> Result<MesProgram, VmError> {
        Err(VmError::Host)
    }

    fn command(&mut self, _command: &ServiceCommand, _memory: &mut Uk2Memory) -> Result<u16, VmError> {
        Err(VmError::Host)
    }
}

fn program(code: &[u8]) -> MesProgram {
    let mut bytes = MES_MAGIC.to_vec();
    bytes.extend_from_slice(code);
    MesProgram::from_bytes(bytes).unwrap()
}

fn immediate(value: u16) -> Expression {
    Expression {
        terms: vec![ExpressionTerm {
            op: ExpressionOp::Assign,
            operand: Operand::Immediate(value),
        }],
    }
}

#[test]
fn assignment_and_saturating_increment_match_core_vm() {
    // system[1] = 0xfffe; increment twice; R3
    let mut vm = Uk2Vm::new(program(&[
        0x01, 0x01, 0x87, 0x1f, 0xfe, 0xff, 0x04, 0x01, 0x04, 0x01, b'R', b'3',
    ]));
    assert_eq!(vm.run(&mut TestHost).unwrap(), 3);
    assert_eq!(vm.memory().system_word(1), Some(0xffff));
}

#[test]
fn condition_uses_reference_comparison_codes() {
    let condition = Condition {
        clauses: vec![ConditionClause {
            left: immediate(1),
            compare: CompareOp::Less,
            right: immediate(2),
            join_after: None,
        }],
    };
    assert!(Uk2Memory::default().eval_condition(&condition).unwrap());
}

#[test]
fn expressions_fold_left_to_right() {
    let mut memory = Uk2Memory::default();
    let expression = Expression {
        terms: vec![
            ExpressionTerm { op: ExpressionOp::Assign, operand: Operand::Immediate(7) },
            ExpressionTerm { op: ExpressionOp::Multiply, operand: Operand::Immediate(3) },
            ExpressionTerm { op: ExpressionOp::Modulo, operand: Operand::Immediate(4) },
        ],
    };
    assert_eq!(memory.eval_expression(&expression).unwrap().number(), Ok(1));
    let divide = Expression {
        terms: vec![
            ExpressionTerm { op: ExpressionOp::Assign, operand: Operand::Immediate(7) },
            ExpressionTerm { op: ExpressionOp::Divide, operand: Operand::Immediate(0) },
        ],
    };
    assert_eq!(memory.eval_expression(&divide), Err(VmError::DivisionByZero));
}

#[test]
fn words_are_written_and_read_back() {
    let mut memory = Uk2Memory::default();
    memory.set_system_word(4, 99).unwrap();
    assert_eq!(memory.system_word(4), Some(99));
    assert_eq!(memory.system_word(31), None);
    assert_eq!(memory.set_system_word(31, 1), Err(VmError::IndexOutOfRange));
    memory.write_operand(&Operand::LocalWord(2), RuntimeValue::Number { value: 5, width: NumericWidth::Word }).unwrap();
    assert_eq!(memory.local_word(2), Some(5));
    assert_eq!(memory.read_operand(&Operand::LocalWord(2)).unwrap().number(), Ok(5));
    assert_eq!(memory.write_operand(&Operand::Immediate(1), RuntimeValue::Number { value: 5, width: NumericWidth::Word }), Err(VmError::NotWritable));
    memory.write_operand(&Operand::FixedString(0), RuntimeValue::String(b"abc".to_vec())).unwrap();
    assert_eq!(memory.read_operand(&Operand::FixedString(0)), Ok(RuntimeValue::String(b"abc".to_vec())));
    assert_eq!(memory.register_mouse_press(2), Err(VmError::BadMouseSlot(2)));
}

#[test]
fn instruction_limit_stops_a_loop() {
    // block 0: jump back to itself forever through an increment
    let mut vm = Uk2Vm::new(program(&[0x04, 0x01, b'R', b'0']));
    vm.set_instruction_limit(1);
    assert!(vm.run(&mut TestHost).is_err());
}

#[test]
fn steps_run_straight_line_code_without_a_host() {
    let mut vm = Uk2Vm::new(program(&[
        0x01, 0x01, 0x87, 0x1f, 0xfe, 0xff, 0x04, 0x01, 0x04, 0x01, b'R', b'3',
    ]));
    assert!(matches!(vm.step(Ok(())), Ok(Step::Next)));
    assert_eq!(vm.memory().system_word(1), Some(0xfffe));
    assert!(matches!(vm.step(Ok(())), Ok(Step::Next)));
    assert!(matches!(vm.step(Ok(())), Ok(Step::Next)));
    assert_eq!(vm.memory().system_word(1), Some(0xffff));
    assert!(matches!(vm.step(Ok(())), Ok(Step::Done(3))));
}

#[test]
fn step_passes_on_a_failed_poll_and_stops_at_the_limit() {
    let mut vm = Uk2Vm::new(program(&[0x04, 0x01, 0x00]));
    let pc = vm.pc();
    assert_eq!(vm.step(Err(VmError::Host)).err(), Some(VmError::Host));
    assert_eq!(vm.pc(), pc);
    vm.set_instruction_limit(1);
    assert!(matches!(vm.step(Ok(())), Ok(Step::Next)));
    assert_eq!(vm.step(Ok(())).err(), Some(VmError::InstructionLimit(1)));
}

#[test]
fn step_hands_commands_and_block_calls_back() {
    let mut vm = Uk2Vm::new(program(&[b'M', b'3', 0x00]));
    match vm.step(Ok(())) {
        Ok(Step::Command { opcode, .. }) => assert_eq!(format!("{opcode:?}"), "M3"),
        other => panic!("unexpected {other:?}"),
    }
    assert_eq!(status_outcome(0), CoreOutcome::Continue);
    assert_eq!(status_outcome(4), CoreOutcome::Return(4));
}

#[test]
fn after_block_jumps_and_ends_on_a_nonzero_status() {
    let mut vm = Uk2Vm::new(program(&[0x00, 0x00, 0x00, 0x00]));
    let target = (uk2::MES_CODE_OFFSET + 2) as u16;
    assert_eq!(vm.after_block(false, target, Ok(0)), Ok(CoreOutcome::Continue));
    assert_eq!(vm.pc(), uk2::MES_CODE_OFFSET + 2);
    assert_eq!(vm.after_block(false, target + 1, Ok(4)), Ok(CoreOutcome::Return(4)));
    assert_eq!(vm.pc(), uk2::MES_CODE_OFFSET + 3);
    assert_eq!(vm.after_block(false, target, Err(VmError::Host)), Err(VmError::Host));
    assert_eq!(vm.pc(), uk2::MES_CODE_OFFSET + 3);
    assert_eq!(vm.after_block(false, 0x7fff, Ok(0)), Err(VmError::JumpOutside(0x7fff)));
    assert_eq!(vm.pc(), uk2::MES_CODE_OFFSET + 3);
}
