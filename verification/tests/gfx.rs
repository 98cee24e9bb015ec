use uk2::engine::ds::{ACCESS_PAGE, DISPLAY_PAGE, PALETTE, PALETTE_BANKS, PALETTE_BANK_COUNT};
use uk2::engine::mem::{ptr_add, Mem};
use uk2::engine::palette::{FADE_TARGET, FADE_WORK};
use uk2::engine::Engine;

fn engine() -> Engine {
    Engine::new(Mem::blank(), 1, 0)
}

#[test]
fn pages_follow_the_low_bits_and_are_recorded() {
    let mut e = engine();
    e.set_pages(3, 2);
    assert_eq!((e.vram.display, e.vram.access), (1, 0));
    assert_eq!(e.w(DISPLAY_PAGE), 3);
    assert_eq!(e.w(ACCESS_PAGE), 2);
    e.access_back();
    assert_eq!((e.vram.display, e.vram.access), (1, 0));
    assert_eq!(e.w(ACCESS_PAGE), 2);
    e.access_front();
    assert_eq!(e.vram.access, 1);
}

#[test]
fn copy_page_moves_only_the_named_planes() {
    let mut e = engine();
    e.vram.set_page(0, 0, 5, 0x11);
    e.vram.set_page(0, 2, 5, 0x22);
    e.copy_page(0, 1, 0b0001);
    assert_eq!(e.vram.get_page(1, 0, 5), 0x11);
    assert_eq!(e.vram.get_page(1, 2, 5), 0);
    e.copy_page(2, 3, 0b0100);
    assert_eq!(e.vram.get_page(1, 2, 5), 0x22);
}

#[test]
fn cells_round_trip_between_screen_and_memory() {
    let mut e = engine();
    let buf = e.mem.alloc_block(256);
    // one 16x16 cell at byte column 2, line 16 of the access page
    for row in 0..16usize {
        e.vram.set(0, (16 + row) * 80 + 2, row as u8);
        e.vram.set(3, (16 + row) * 80 + 3, 0xf0);
    }
    e.cells_grab(2, 16, 2, 16, buf, 1);
    // slot 0 is the intensity plane, slot 1 plane 0
    assert_eq!(e.mem.rb(ptr_add(buf, 128 + 5 * 8 + 2)), 5);
    assert_eq!(e.mem.rb(ptr_add(buf, 128 + 5 * 8 + 1)), 0xf0);
    e.cell_put(10, 0, buf, 1, 2);
    assert_eq!(e.vram.get(0, 7 * 80 + 10), 7);
    assert_eq!(e.vram.get(3, 7 * 80 + 11), 0xf0);
    e.cell_put(20, 0, buf, 1, 3);
    assert_eq!(e.vram.get(3, 7 * 80 + 21), 0);
    assert_eq!(e.vram.get(0, 7 * 80 + 20), 7);
    e.cell_copy(buf, buf, 1);
    assert_eq!(e.mem.rb(ptr_add(buf, 5 * 8 + 2)), 5);
}

#[test]
fn cell_overlays_combine_plane_words() {
    let mut e = engine();
    let dst = e.mem.alloc_block(128);
    let src = e.mem.alloc_block(128);
    e.mem.ww(dst, 0x00ff);
    e.mem.ww(ptr_add(dst, 2), 0x0f0f);
    e.mem.ww(src, 0x0ff0);
    e.mem.ww(ptr_add(src, 2), 0x1000);
    e.cell_overlay_mask(dst, src, 0);
    assert_eq!(e.mem.rw(dst), 0x00f0);
    assert_eq!(e.mem.rw(ptr_add(dst, 2)), (0x0f0f & 0x0ff0) | 0x1000);
    e.cell_overlay_and(dst, src, 0);
    assert_eq!(e.mem.rw(dst), 0x0ff0 & 0x00f0);
    e.mem.ww(dst, 0);
    e.mem.ww(src, 0xff00);
    e.mem.ww(ptr_add(dst, 4), 0x1234);
    e.mem.ww(ptr_add(src, 4), 0xabcd);
    e.cell_overlay_either(dst, src, 0);
    assert_eq!(e.mem.rw(ptr_add(dst, 4)), 0xab34);
}

#[test]
fn palette_fades_one_nibble_unit_per_step() {
    let mut e = engine();
    for c in 0..16u16 {
        e.set_w(FADE_WORK + 2 * c, 0);
        e.set_w(FADE_TARGET + 2 * c, 0);
    }
    e.set_w(FADE_TARGET, 0x0321);
    let steps = e.palette_steps();
    assert_eq!(steps.len(), 3);
    assert_eq!(steps[0][0], 0x0111);
    assert_eq!(steps[1][0], 0x0221);
    assert_eq!(steps[2][0], 0x0321);
    assert_eq!(e.w(FADE_WORK), 0x0321);
    // a target word with bits above twelve is never met: fifteen steps
    e.set_w(FADE_TARGET + 2, 0xf00f);
    assert_eq!(e.palette_steps().len(), 15);
    assert_eq!(e.w(FADE_WORK + 2), 0x000f);
}

#[test]
fn cursor_show_reports_and_sets_the_state() {
    let mut e = engine();
    e.set_w(uk2::engine::ds::CURSOR_ENABLED, 1);
    assert_eq!(e.cursor_show(1), 0);
    assert_eq!(e.w(uk2::engine::ds::CURSOR_SHOWN), 1);
    assert_eq!(e.w(uk2::engine::ds::CURSOR_SHOWN2), 1);
    assert!(e.vram.dirty);
    assert_eq!(e.cursor_show(0), 1);
    assert_eq!(e.w(uk2::engine::ds::CURSOR_SHOWN), 0);
    e.set_w(uk2::engine::ds::CURSOR_ENABLED, 0);
    assert_eq!(e.cursor_show(1), 0);
    assert_eq!(e.w(uk2::engine::ds::CURSOR_SHOWN), 0);
}

#[test]
fn frame_rect_lines_draws_dark_then_light_edges() {
    let mut v = uk2::engine::vram::Vram::new();
    v.frame_rect(2, 10, 5, 10, 4);
    let before = v.pixel(v.access, 3 * 8, 10);
    assert_ne!(before, 0);
    v.frame_rect_lines(2, 10, 5, 20);
    let page = v.access;
    assert_ne!(v.pixel(page, 3 * 8, 10), before);
    assert_ne!(v.pixel(page, 3 * 8, 20), 0);
    let mut w = uk2::engine::vram::Vram::new();
    w.frame_rect(2, 10, 5, 10, 4);
    w.frame_rect(2, 10, 5, 10, 0);
    w.frame_rect(2, 10, 2, 20, 0);
    w.frame_rect(5, 10, 5, 20, 7);
    w.frame_rect(2, 20, 5, 20, 7);
    assert!(v.pages == w.pages);
}

#[test]
fn pdt_decode_paints_columns_of_line_pairs() {
    let mut e = engine();
    let mut pdt = vec![0x34u8];
    pdt.extend_from_slice(&[0u8; 32]);
    pdt.extend_from_slice(&[0xfe, 0xfd]);
    for w in [2u16, 10, 3, 13] {
        pdt.extend_from_slice(&w.to_le_bytes());
    }
    pdt.extend_from_slice(&[0x11, 0x22, 0x33, 0x44]);
    pdt.extend_from_slice(&[0xfd, 2, 0x55]);
    for plane in 1..4u8 {
        pdt.extend_from_slice(&[0xfe, 2, plane, plane + 0x10]);
        pdt.extend_from_slice(&[0x66, 0x77, 0x88, 0x99]);
    }
    let p = e.mem.alloc_bytes(&pdt);
    e.pdt_decode(p);
    let row = |y: usize, x: usize| y * 80 + x;
    assert_eq!(e.vram.get(0, row(10, 2)), 0x11);
    assert_eq!(e.vram.get(0, row(11, 2)), 0x22);
    assert_eq!(e.vram.get(0, row(12, 2)), 0x33);
    assert_eq!(e.vram.get(0, row(13, 2)), 0x44);
    for y in 10..14 {
        assert_eq!(e.vram.get(0, row(y, 3)), 0x55);
    }
    assert_eq!(e.vram.get(2, row(12, 2)), 2);
    assert_eq!(e.vram.get(2, row(13, 2)), 0x12);
    assert_eq!(e.vram.get(3, row(11, 3)), 0x77);
    assert_eq!(e.vram.get(0, row(14, 2)), 0);
    assert_eq!(e.w(uk2::engine::ds::PDT_LEFT), 2);
    assert_eq!(e.w(uk2::engine::ds::PDT_RIGHT), 3);
    assert_eq!(e.w(uk2::engine::ds::PDT_TOP), 10);
    assert_eq!(e.w(uk2::engine::ds::PDT_BOTTOM), 13);
}

#[test]
fn fade_to_bank_steps_towards_the_bank_then_selects_it() {
    let mut e = engine();
    e.set_w(PALETTE_BANK_COUNT, 2);
    for c in 0..16u16 {
        e.set_w(PALETTE + 2 * c, 0);
        e.set_w(PALETTE_BANKS + 32 + 2 * c, 0);
    }
    // bank 2 brightens colour 0 by two units of red: the steps run from the
    // bank down to the palette and are shown last first
    e.set_w(PALETTE_BANKS + 32, 0x0020);
    let steps = e.fade_to_bank(2);
    assert_eq!(steps.len(), 2);
    assert_eq!(steps[0][0], 0x0000);
    assert_eq!(steps[1][0], 0x0010);
    for step in &steps {
        e.show_palette_step(step);
    }
    assert_eq!(e.w(PALETTE), 0x0010);
    e.select_palette_bank(2);
    assert_eq!(e.w(PALETTE), 0x0020);
    // darkening steps from the palette towards the bank
    e.set_w(PALETTE, 0x0030);
    let back = e.fade_to_bank(2);
    assert_eq!(back.len(), 1);
    assert_eq!(back[0][0], 0x0020);
    // no change and an invalid bank show nothing
    e.set_w(PALETTE, 0x0020);
    assert!(e.fade_to_bank(2).is_empty());
    assert!(e.fade_to_bank(3).is_empty());
}
