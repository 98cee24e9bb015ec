use uk2::engine::ds::KEYS_ENABLED;
use uk2::engine::font::KanjiRom;
use uk2::engine::interp::{strcmp, trim_name};
use uk2::engine::mem::{far, off_of, ptr_add, seg_of, Mem};
use uk2::engine::vram::Vram;
use uk2::engine::{Engine, EngineError, HostEvent, TickStep, SCAN_RETURN, SCAN_SHIFT};

#[test]
fn converts_shift_jis_to_jis() {
    assert_eq!(KanjiRom::sjis_to_jis(0x88, 0x9f), 0x3021); // 亜
    assert_eq!(KanjiRom::sjis_to_jis(0x82, 0xa0), 0x2422); // あ
    assert_eq!(KanjiRom::sjis_to_jis(0x81, 0x40), 0x2121);
}

#[test]
fn glyphs_are_read_from_the_rom_rows() {
    let mut data = vec![0u8; 94 * 94 * 32];
    let at = ((0x30 - 0x21) * 94 + (0x21 - 0x21)) * 32;
    data[at] = 0xaa;
    data[at + 31] = 0x55;
    assert!(KanjiRom::from_rom(vec![0; 10]).is_none());
    let rom = KanjiRom::from_rom(data).unwrap();
    let glyph = rom.sjis_glyph(0x88, 0x9f);
    assert_eq!(glyph[0], 0xaa);
    assert_eq!(glyph[31], 0x55);
    assert_eq!(rom.jis_glyph(0x3021), glyph);
    assert_eq!(rom.jis_glyph(0x0101), [0; 32]);
}

#[test]
fn far_pointer_round_trip_and_heap() {
    let mut mem = Mem::blank();
    let p = mem.alloc_block(8);
    mem.ww(p, 0x1234);
    mem.set_d(0x100, p);
    assert_eq!(mem.d(0x100), p);
    assert_eq!(mem.rw(mem.d(0x100)), 0x1234);
    let p = mem.realloc(p, 32);
    assert_eq!(mem.rw(p), 0x1234);
    mem.free(p);
    assert_eq!(mem.rw(p), 0);
}

#[test]
fn far_pointers_split_and_offsets_wrap() {
    let p = far(0x2000, 0xfffe);
    assert_eq!(seg_of(p), 0x2000);
    assert_eq!(off_of(p), 0xfffe);
    assert_eq!(off_of(ptr_add(p, 4)), 2);
    assert_eq!(seg_of(ptr_add(p, 4)), 0x2000);
}

#[test]
fn heap_strings_and_copies() {
    let mut mem = Mem::blank();
    let a = mem.alloc_cstr(b"hello");
    assert_eq!(mem.strlen(a), 5);
    assert_eq!(mem.cstr(a), b"hello".to_vec());
    let b = mem.alloc_block(16);
    mem.strcpy(b, a);
    assert_eq!(mem.cstr(b), b"hello".to_vec());
    mem.memset(b, b'x', 2);
    assert_eq!(mem.read_bytes(b, 5), b"xxllo".to_vec());
    mem.memswap(a, b, 2);
    assert_eq!(mem.read_bytes(a, 2), b"xx".to_vec());
    assert_eq!(mem.read_bytes(b, 2), b"he".to_vec());
    assert_eq!(mem.block_len(b), 16);
    mem.wd(b, 0x1234_5678);
    assert_eq!(mem.rd(b), 0x1234_5678);
    mem.set_w(0x40, 0xfffe);
    assert_eq!(mem.sw(0x40), -2);
}

#[test]
fn vram_pixels_and_inversion_round_trip() {
    let mut vram = Vram::new();
    vram.set_pixel(0, 3, 2, 9);
    assert_eq!(vram.pixel(0, 3, 2), 9);
    assert_eq!(vram.pixel(0, 4, 2), 0);
    vram.invert(0, 0, 15, 7, 0x0f);
    assert_eq!(vram.pixel(vram.access, 3, 2), 9 ^ 0x0f);
    vram.invert(0, 0, 15, 7, 0x0f);
    assert_eq!(vram.pixel(vram.access, 3, 2), 9);
    let before = vram.pages.clone();
    vram.xor_outline(2, 2, 40, 30);
    assert_ne!(vram.pages, before);
    vram.xor_outline(2, 2, 40, 30);
    assert_eq!(vram.pages, before);
    assert_eq!(Vram::palette_rgb(0x0f0), [255, 0, 0]);
}

#[test]
fn strcmp_orders_c_strings() {
    assert_eq!(strcmp(b"abc\0", b"abc\0"), 0);
    assert!(strcmp(b"abd\0", b"abc\0") > 0);
    assert!(strcmp(b"ab\0", b"abc\0") < 0);
    assert_eq!(trim_name(b"name  \0xx"), b"name".to_vec());
}

#[test]
fn engine_random_numbers_follow_borland_rand() {
    let mut engine = Engine::new(Mem::blank(), 1, 0);
    assert_eq!(engine.rand(), 0x015a);
    let mut other = Engine::new(Mem::blank(), 1, 0);
    assert_eq!(other.rand_n(0x8000), 0x015a);
}

#[test]
fn engine_keys_and_instruction_clock() {
    let mut engine = Engine::new(Mem::blank(), 0, 0);
    assert!(!engine.key(SCAN_RETURN));
    engine.keyboard_irq(SCAN_RETURN, true);
    // keys stay cleared while the game has them disabled
    assert!(!engine.key(SCAN_RETURN));
    engine.set_w(KEYS_ENABLED, 1);
    engine.keyboard_irq(SCAN_RETURN, true);
    assert!(engine.key(SCAN_RETURN));
    engine.keyboard_irq(SCAN_SHIFT, true);
    assert_eq!(engine.shift_state() & 1, 1);
    assert_eq!(engine.handle_event(HostEvent::Quit), None);
    assert!(engine.quit_requested());
    engine.max_instructions = Some(1);
    assert_eq!(engine.instruction_tick(), Ok(TickStep::Poll));
    assert_eq!(engine.instruction_tick(), Err(EngineError::InstructionLimit(1)));
    engine.advance_ticks(3);
    assert_eq!(engine.last_tick(), 3);
}
