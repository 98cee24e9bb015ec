use uk2::opcode::TwoOpcode;
use uk2::probe::{BootProbe, MapEdit, ProbeError, ProbeHalt, ProbeRequest};
use uk2::value::Operand;
use uk2::vm::{NumericWidth, ResolvedArg, ResolvedResource, RuntimeValue, ServiceCommand, Uk2Memory};

fn number(value: u16) -> RuntimeValue {
    RuntimeValue::Number { value, width: NumericWidth::Word }
}

fn text(bytes: &[u8]) -> RuntimeValue {
    RuntimeValue::String(bytes.to_vec())
}

fn command(opcode: TwoOpcode, arguments: Vec<ResolvedArg>) -> ServiceCommand {
    ServiceCommand { offset: 0x40, opcode, arguments }
}

#[test]
fn window_and_image_commands_are_counted() {
    let mut probe = BootProbe::new(vec![], 0);
    let mut memory = Uk2Memory::default();
    let w1 = command(TwoOpcode::W1, vec![ResolvedArg::Values((0..7).map(number).collect())]);
    assert_eq!(probe.decide(&w1, &mut memory), Ok(ProbeRequest::Continue));
    assert_eq!(probe.window_count, 1);
    let w5 = command(
        TwoOpcode::W5,
        vec![ResolvedArg::Direct { operand: Operand::Immediate(0), value: text(b"a.pdt1") }],
    );
    assert_eq!(probe.decide(&w5, &mut memory), Ok(ProbeRequest::LoadImages(vec!["a.pdt1".to_owned()], None)));
    assert_eq!(probe.image_count, 1);
    assert_eq!(probe.command_count, 2);
    assert_eq!(probe.last_command, Some((TwoOpcode::W5, 0x40)));
    let short = command(TwoOpcode::W1, vec![ResolvedArg::Values(vec![number(1)])]);
    assert_eq!(
        probe.decide(&short, &mut memory),
        Err(ProbeHalt::Failed(ProbeError::ValueCount(TwoOpcode::W1, 1)))
    );
}

#[test]
fn map_edits_follow_the_attached_object() {
    let mut probe = BootProbe::new(vec![], 0);
    let mut memory = Uk2Memory::default();
    let f5 = command(TwoOpcode::F5, vec![ResolvedArg::Value(number(7))]);
    assert_eq!(probe.decide(&f5, &mut memory), Err(ProbeHalt::Failed(ProbeError::MapNotLoaded)));
    let f0 = command(
        TwoOpcode::F0,
        vec![ResolvedArg::Direct { operand: Operand::Immediate(0), value: text(b"m.map1") }],
    );
    assert_eq!(probe.decide(&f0, &mut memory), Ok(ProbeRequest::LoadMap("m.map1".to_owned())));
    probe.map_attached();
    assert_eq!(probe.decide(&f5, &mut memory), Ok(ProbeRequest::Continue));
    let fb = command(TwoOpcode::FB, vec![ResolvedArg::Values(vec![number(1), number(2), number(7), number(9), number(1)])]);
    assert_eq!(
        probe.decide(&fb, &mut memory),
        Ok(ProbeRequest::EditMap(MapEdit::Cell { x: 1, y: 2, chip: 9, layer: 1 }))
    );
    let other = command(TwoOpcode::FD, vec![ResolvedArg::Values(vec![number(8), number(3)])]);
    assert_eq!(probe.decide(&other, &mut memory), Ok(ProbeRequest::Continue));
    let fd = command(TwoOpcode::FD, vec![ResolvedArg::Values(vec![number(7), number(3)])]);
    assert_eq!(
        probe.decide(&fd, &mut memory),
        Ok(ProbeRequest::EditMap(MapEdit::Trigger { id: 3, enabled: true }))
    );
}

#[test]
fn menus_take_scripted_choices_then_stop() {
    let mut probe = BootProbe::new(vec![2], 1);
    let mut memory = Uk2Memory::default();
    let w8 = command(
        TwoOpcode::W8,
        vec![
            ResolvedArg::Direct { operand: Operand::SystemWord(3), value: number(0) },
            ResolvedArg::Value(number(0)),
            ResolvedArg::Value(number(0)),
            ResolvedArg::Value(number(0)),
            ResolvedArg::Values(vec![text(b"Start"), number(1), text(b"Load")]),
        ],
    );
    assert_eq!(probe.decide(&w8, &mut memory), Ok(ProbeRequest::Continue));
    assert_eq!(memory.system_word(3), Some(2));
    assert_eq!(
        probe.decide(&w8, &mut memory),
        Err(ProbeHalt::MenuReached(vec![b"Start".to_vec(), b"Load".to_vec()]))
    );
    let w2 = command(TwoOpcode::W2, vec![]);
    assert_eq!(probe.decide(&w2, &mut memory), Ok(ProbeRequest::Continue));
    assert_eq!(probe.decide(&w2, &mut memory), Err(ProbeHalt::InputReached));
    let zz = command(TwoOpcode::A0, vec![]);
    assert_eq!(
        probe.decide(&zz, &mut memory),
        Err(ProbeHalt::Failed(ProbeError::Unhandled(TwoOpcode::A0, 0x40)))
    );
}

#[test]
fn resource_lists_stop_at_the_first_bad_entry_and_inputs_are_scheduled() {
    let mut probe = BootProbe::new(vec![], 1);
    let mut memory = Uk2Memory::default();
    let ue = command(
        TwoOpcode::UE,
        vec![
            ResolvedArg::Value(number(0)),
            ResolvedArg::Resources(vec![
                ResolvedResource { resource: text(b"a.pdt1"), arguments: vec![number(1)] },
                ResolvedResource { resource: text(b"b.pdt1"), arguments: vec![text(b"x")] },
                ResolvedResource { resource: text(b"c.pdt1"), arguments: vec![] },
            ]),
        ],
    );
    assert_eq!(
        probe.decide(&ue, &mut memory),
        Ok(ProbeRequest::LoadImages(
            vec!["a.pdt1".to_owned(), "b.pdt1".to_owned()],
            Some(ProbeError::Value(uk2::vm::VmError::ExpectedNumber))
        ))
    );
    probe.record_mes(b"S01_002.MES1").unwrap();
    let u2 = command(TwoOpcode::U2, vec![ResolvedArg::Value(number(1))]);
    assert_eq!(probe.decide(&u2, &mut memory), Ok(ProbeRequest::InputScheduled));
    assert_eq!(probe.pending_input_delay, Some(500));
    probe.pending_input_delay = Some(1);
    assert!(!probe.poll(&mut memory));
    assert!(probe.poll(&mut memory));
    assert_eq!(probe.pending_input_delay, None);
}
