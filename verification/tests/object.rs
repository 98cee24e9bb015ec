use uk2::engine::ds::{CELL_MAPS, CELL_MAP_SEL, OBJ_COUNT, OBJ_TABLE};
use uk2::engine::mem::{ptr_add, Mem};
use uk2::engine::object::{FLAG_FRAMELESS, FLAG_VISIBLE};
use uk2::engine::Engine;

fn one_window() -> (Engine, u32, u32) {
    let mut e = Engine::new(Mem::blank(), 1, 0);
    let map0 = e.mem.alloc_block(1000);
    let map1 = e.mem.alloc_block(1000);
    e.mem.set_d(CELL_MAPS, map0);
    e.mem.set_d(CELL_MAPS + 4, map1);
    e.set_w(CELL_MAP_SEL, 0);
    let table = e.mem.alloc_block(8);
    let obj = e.mem.alloc_block(0x62);
    e.mem.wd(table, obj);
    e.mem.set_d(OBJ_TABLE, table);
    e.set_w(OBJ_COUNT, 1);
    e.set_ow(obj, 0x28, FLAG_VISIBLE | FLAG_FRAMELESS);
    e.set_ow(obj, 0x0a, 4);
    e.set_ow(obj, 0x0e, 8);
    e.set_ow(obj, 0x0c, 16);
    e.set_ow(obj, 0x10, 48);
    e.set_ob(obj, 0x2b, 7);
    (e, map0, obj)
}

#[test]
fn visible_windows_claim_their_cells() {
    let (mut e, map0, _) = one_window();
    e.compute_owners();
    assert_eq!(e.w(CELL_MAP_SEL), 1);
    assert_eq!(e.mem.rb(ptr_add(map0, 40 + 2)), 7);
    assert_eq!(e.mem.rb(ptr_add(map0, 2 * 40 + 3)), 7);
    assert_eq!(e.mem.rb(ptr_add(map0, 0)), 0xf0);
    assert_eq!(e.mem.rb(ptr_add(map0, 3 * 40 + 2)), 0xf0);
    assert_eq!(e.mem.rb(ptr_add(map0, 40 + 4)), 0xf0);
}

#[test]
fn framed_windows_claim_one_more_cell_around() {
    let (mut e, map0, obj) = one_window();
    e.set_ow(obj, 0x28, FLAG_VISIBLE);
    e.compute_owners();
    assert_eq!(e.mem.rb(ptr_add(map0, 0 * 40 + 1)), 7);
    assert_eq!(e.mem.rb(ptr_add(map0, 3 * 40 + 4)), 7);
    assert_eq!(e.mem.rb(ptr_add(map0, 4 * 40 + 4)), 0xf0);
}

#[test]
fn cell_states_and_dirty_background() {
    let (mut e, map0, _) = one_window();
    e.compute_owners();
    assert_eq!(e.cell_state(4, 16, 7), 1);
    assert_eq!(e.cell_state(0, 0, 7), 2);
    assert_eq!(e.cell_state(4, 16, 5), 0);
    assert_eq!(e.cell_state(200, 0, 7), 4);
    e.mark_background_dirty(0, 0, 1, 0);
    assert_eq!(e.mem.rb(ptr_add(map0, 0)), 0xf1);
    assert_eq!(e.mem.rb(ptr_add(map0, 1)), 0xf1);
    assert_eq!(e.mem.rb(ptr_add(map0, 2)), 0xf0);
    let buf = e.mem.alloc_block(128);
    e.mem.wb(ptr_add(buf, 2), 0x5a);
    assert!(!e.draw_chip(0, 0, buf, 0, 2, 7));
    assert!(e.draw_chip(4, 16, buf, 0, 2, 7));
    assert_eq!(e.vram.get(0, 16 * 80 + 4), 0x5a);
}
