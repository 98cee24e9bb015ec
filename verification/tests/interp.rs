use uk2::engine::ds::{FIXED_STRINGS, INDEXED_5, MES_LEN, MES_PC, SYSTEM_WORDS};
use uk2::engine::interp::MesError;
use uk2::engine::mem::{ds_ptr, Mem};
use uk2::engine::Engine;

fn running(program: &[u8]) -> Engine {
    let mut e = Engine::new(Mem::blank(), 1, 0);
    e.push_program(program.to_vec());
    e.set_w(MES_PC, 0);
    e.set_w(MES_LEN, program.len() as u16);
    e
}

fn put_string(e: &mut Engine, off: u16, text: &[u8]) {
    for (i, b) in text.iter().chain([0u8].iter()).enumerate() {
        e.set_b(off + i as u16, *b);
    }
}

#[test]
fn fetch_reads_the_program_and_stops_past_its_length() {
    let mut e = running(&[0x34, 0x12]);
    assert_eq!(e.fetch_u16().unwrap(), 0x1234);
    assert_eq!(e.w(MES_PC), 2);
    e.set_w(MES_LEN, 1);
    match e.fetch() {
        Err(MesError::Fatal { code, count, .. }) => assert_eq!((code, count), (0x0d, 2)),
        other => panic!("unexpected {other:?}"),
    }
}

#[test]
fn immediate_arithmetic() {
    let mut e = running(&[0x07, 0x1f, 5, 0, 0x81, 0x1f, 7, 0]);
    assert_eq!(e.expr_word().unwrap(), 12);
    let mut e = running(&[0x07, 0x1f, 7, 0, 0x03, 0x1f, 3, 0, 0x84, 0x1f, 2, 0]);
    assert_eq!(e.expr_word().unwrap(), 10);
    let mut e = running(&[0x07, 0x1f, 7, 0, 0x85, 0x1f, 3, 0]);
    assert_eq!(e.expr_word().unwrap(), 1);
}

#[test]
fn results_are_clamped_to_the_operand_width() {
    let mut e = running(&[0x07, 0x1f, 20, 0, 0x82, 0x1f, 30, 0]);
    assert_eq!(e.expr_word().unwrap(), 0);
    let mut e = running(&[0x07, 0x1f, 0xff, 0xff, 0x81, 0x1f, 2, 0]);
    assert_eq!(e.expr_word().unwrap(), 0xffff);
}

#[test]
fn system_words_and_indexed_bytes() {
    let mut e = running(&[0x87, 0x03]);
    e.set_w(SYSTEM_WORDS + 6, 42);
    assert_eq!(e.expr_word().unwrap(), 42);
    let mut e = running(&[0x87, 0x85, 0x87, 0x1f, 3, 0]);
    e.set_b(INDEXED_5 + 3, 9);
    assert_eq!(e.expr_word().unwrap(), 9);
    let mut e = running(&[0x85, 0x87, 0x1f, 3, 0]);
    assert_eq!(e.operand().unwrap(), ds_ptr(INDEXED_5 + 3));
}

#[test]
fn errors_of_expressions() {
    let mut e = running(&[0x84, 0x1f, 0, 0]);
    assert!(matches!(e.expression(), Err(MesError::DivideError)));
    let mut e = running(&[0x86, 0x1f, 1, 0]);
    assert!(matches!(e.expression(), Err(MesError::Fatal { code: 5, .. })));
    let mut e = running(&[0x87, 0x85, 0x87, 0x1f, 0x01, 0x02]);
    assert!(matches!(e.expression(), Err(MesError::Fatal { code: 0x17, .. })));
}

#[test]
fn an_empty_expression_is_null_and_ends_a_list() {
    let mut e = running(&[0x00]);
    assert_eq!(e.expression().unwrap(), 0);
    let mut e = running(&[0x87, 0x1f, 4, 0, 0x87, 0x1f, 5, 0, 0x00, 0x87, 0x1f, 6, 0]);
    assert_eq!(e.expr_list(8).unwrap(), vec![4, 5]);
    let mut e = running(&[0x87, 0x1f, 4, 0, 0x87, 0x1f, 5, 0, 0x00]);
    assert_eq!(e.expr_list(1).unwrap(), vec![4]);
}

#[test]
fn strings_load_and_concatenate() {
    let mut e = running(&[0x07, 0x20, 0x81, 0x21]);
    put_string(&mut e, FIXED_STRINGS, b"abc");
    put_string(&mut e, FIXED_STRINGS + 0x3e, b"de");
    let p = e.expression().unwrap();
    assert_eq!(e.mem.cstr(p), b"abcde".to_vec());
    let mut e = running(&[0x87, 0x60, b'h', b'i', 0]);
    let p = e.expression().unwrap();
    assert_eq!(e.mem.cstr(p), b"hi".to_vec());
}

#[test]
fn names_are_padded_to_thirteen_bytes() {
    let mut e = running(&[0x20]);
    put_string(&mut e, FIXED_STRINGS, b"START");
    assert_eq!(e.read_name(false).unwrap(), b"START        ".to_vec());
    let mut e = running(&[0x87, 0x60, b'A', b'B', 0]);
    assert_eq!(e.read_name(true).unwrap(), b"AB           ".to_vec());
}

#[test]
fn conditions_compare_and_join() {
    let mut e = running(&[0x87, 0x1f, 5, 0, 1, 0x87, 0x1f, 7, 0, 0]);
    assert!(e.condition().unwrap());
    let mut e = running(&[0x87, 0x1f, 5, 0, 1, 0x87, 0x1f, 7, 0, 1, 0x87, 0x1f, 5, 0, 2, 0x87, 0x1f, 7, 0, 0]);
    assert!(!e.condition().unwrap());
    let mut e = running(&[0x87, 0x1f, 5, 0, 2, 0x87, 0x1f, 7, 0, 2, 0x87, 0x1f, 7, 0, 3, 0x87, 0x1f, 7, 0, 0]);
    assert!(e.condition().unwrap());
    let mut e = running(&[0x87, 0x20, 3, 0x87, 0x21, 0]);
    put_string(&mut e, FIXED_STRINGS, b"abc");
    put_string(&mut e, FIXED_STRINGS + 0x3e, b"abc");
    assert!(e.condition().unwrap());
}
