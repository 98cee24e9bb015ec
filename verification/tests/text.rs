use uk2::engine::mem::Mem;
use uk2::engine::text::PrintfArg;
use uk2::engine::Engine;

fn engine() -> Engine {
    Engine::new(Mem::blank(), 1, 0)
}

fn fmt(e: &Engine, format: &[u8], args: &[PrintfArg]) -> String {
    String::from_utf8(e.sprintf(format, args)).unwrap()
}

#[test]
fn plain_text_stops_at_nul() {
    let e = engine();
    assert_eq!(fmt(&e, b"abc\0def", &[]), "abc");
    assert_eq!(fmt(&e, b"abc", &[]), "abc");
}

#[test]
fn signed_decimals_with_width_and_flags() {
    let e = engine();
    let args = [
        PrintfArg::Word(42),
        PrintfArg::Word(42),
        PrintfArg::Word((-42i16) as u16),
    ];
    assert_eq!(fmt(&e, b"%5d|%-5d|%05d", &args), "   42|42   |-0042");
    assert_eq!(fmt(&e, b"%d", &[PrintfArg::Word(0xffff)]), "-1");
    assert_eq!(
        fmt(&e, b"%+d,% d,%+05d", &[PrintfArg::Word(5), PrintfArg::Word(5), PrintfArg::Word(5)]),
        "+5, 5,+0005"
    );
}

#[test]
fn precision_pads_digits_and_disables_zero_fill() {
    let e = engine();
    assert_eq!(fmt(&e, b"%.3d", &[PrintfArg::Word(7)]), "007");
    assert_eq!(fmt(&e, b"%06.3d", &[PrintfArg::Word(7)]), "   007");
    assert_eq!(fmt(&e, b"%.3d", &[PrintfArg::Word((-7i16) as u16)]), "-007");
}

#[test]
fn unsigned_hex_and_octal() {
    let e = engine();
    let args = [
        PrintfArg::Word(255),
        PrintfArg::Word(255),
        PrintfArg::Word(8),
        PrintfArg::Word(65535),
    ];
    assert_eq!(fmt(&e, b"%x %X %o %u", &args), "ff FF 10 65535");
}

#[test]
fn long_conversions_take_two_words() {
    let e = engine();
    assert_eq!(fmt(&e, b"%ld", &[PrintfArg::Far(0x0001_0000)]), "65536");
    assert_eq!(fmt(&e, b"%ld", &[PrintfArg::Far(0xffff_ffff)]), "-1");
    assert_eq!(fmt(&e, b"%lu", &[PrintfArg::Far(0xffff_ffff)]), "4294967295");
    assert_eq!(fmt(&e, b"%lx", &[PrintfArg::Word(0x5678), PrintfArg::Word(0x1234)]), "12345678");
}

#[test]
fn characters_strings_and_percent() {
    let mut e = engine();
    let p = e.mem.alloc_cstr(b"hello");
    assert_eq!(fmt(&e, b"%c", &[PrintfArg::Word(0x141)]), "A");
    assert_eq!(fmt(&e, b"[%s]", &[PrintfArg::Far(p)]), "[hello]");
    assert_eq!(fmt(&e, b"[%.2s]", &[PrintfArg::Far(p)]), "[he]");
    assert_eq!(fmt(&e, b"[%7s]", &[PrintfArg::Far(p)]), "[  hello]");
    assert_eq!(fmt(&e, b"[%-7s]", &[PrintfArg::Far(p)]), "[hello  ]");
    assert_eq!(fmt(&e, b"%s", &[PrintfArg::Far(0)]), "(null)");
    assert_eq!(fmt(&e, b"100%%", &[]), "100%");
    assert_eq!(fmt(&e, b"%q", &[]), "q");
}

#[test]
fn star_fields_read_the_stack() {
    let e = engine();
    let args = [PrintfArg::Word(4), PrintfArg::Word(7)];
    assert_eq!(fmt(&e, b"%*d", &args), "   7");
    let args = [PrintfArg::Word(3), PrintfArg::Word(7)];
    assert_eq!(fmt(&e, b"%.*d", &args), "007");
}

#[test]
fn missing_arguments_read_as_zero_and_a_trailing_percent_ends() {
    let e = engine();
    assert_eq!(fmt(&e, b"%d/%d", &[PrintfArg::Word(1)]), "1/0");
    assert_eq!(fmt(&e, b"ab%", &[]), "ab");
    assert_eq!(fmt(&e, b"ab%-5", &[]), "ab");
}
