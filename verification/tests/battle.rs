use uk2::engine::battle::{FIGHT_COUNT, FIGHT_TAB};
use uk2::engine::mem::{ptr_add, Mem};
use uk2::engine::Engine;

#[test]
fn heal_restores_every_kind_to_full_hp() {
    let mut e = Engine::new(Mem::blank(), 1, 0);
    let tab = e.mem.alloc_bytes(&[0u8; 12 * 0x29]);
    e.mem.set_d(FIGHT_TAB, tab);
    for kind in 0..12 {
        let rec = ptr_add(tab, kind * 0x29);
        e.mem.ww(ptr_add(rec, 0x21), 3);
        e.mem.ww(ptr_add(rec, 0x23), 50 + kind as u16);
    }
    e.mem.set_w(FIGHT_COUNT, 12);
    e.battle_heal();
    for kind in 1..12 {
        assert_eq!(e.mem.rw(ptr_add(ptr_add(tab, kind * 0x29), 0x21)), 50 + kind as u16);
    }
    assert_eq!(e.mem.rw(ptr_add(tab, 0x21)), 3);
}

#[test]
fn heal_stops_at_the_loaded_record_count() {
    let mut e = Engine::new(Mem::blank(), 1, 0);
    let tab = e.mem.alloc_bytes(&[0u8; 6 * 0x29]);
    e.mem.set_d(FIGHT_TAB, tab);
    for kind in 0..6 {
        let rec = ptr_add(tab, kind * 0x29);
        e.mem.ww(ptr_add(rec, 0x21), 1);
        e.mem.ww(ptr_add(rec, 0x23), 20 + kind as u16);
    }
    e.mem.set_w(FIGHT_COUNT, 4);
    e.battle_heal();
    for kind in 1..4 {
        assert_eq!(e.mem.rw(ptr_add(ptr_add(tab, kind * 0x29), 0x21)), 20 + kind as u16);
    }
    assert_eq!(e.mem.rw(ptr_add(ptr_add(tab, 4 * 0x29), 0x21)), 1);
    assert_eq!(e.mem.rw(ptr_add(ptr_add(tab, 5 * 0x29), 0x21)), 1);
    e.battle_heal();
    assert_eq!(e.mem.rw(ptr_add(ptr_add(tab, 3 * 0x29), 0x21)), 23);
}
