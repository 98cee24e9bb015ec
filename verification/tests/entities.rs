use uk2::engine::ds::{ENTITIES, ENTITY_COUNT, INTERACT_ID, KEY_TABLE, MAP_ACTIVE, MAP_EVENT, OBJ_COUNT, OBJ_TABLE, PLAYER};
use uk2::engine::map::{PlayerMove, HIT_TYPE, TILE_LAYER};
use uk2::engine::mem::{ptr_add, FarPtr, Mem};
use uk2::engine::object::{FLAG_VISIBLE, OBJ_SIZE};
use uk2::engine::{Engine, SCAN_RIGHT};

/// A world: a 30x30 map (id 7), a view of it on top, and a global list of
/// the player at (5, 5) and an NPC (id 0xC8) at (7, 5).
struct World {
    e: Engine,
    map: FarPtr,
    tiles: FarPtr,
    view: FarPtr,
    player: FarPtr,
    npc: FarPtr,
}

fn world() -> World {
    let mut e = Engine::new(Mem::blank(), 1, 0);
    let map = e.mem.alloc_bytes(&[0u8; 0x3a]);
    let tiles = e.mem.alloc_bytes(&[0u8; 30 * 30 * 2]);
    e.mem.ww(map, 30);
    e.mem.ww(ptr_add(map, 2), 30);
    e.mem.wb(ptr_add(map, 0x27), 7);
    e.mem.wd(ptr_add(map, 0x2e), tiles);
    let list = e.mem.alloc_bytes(&[0u8; 2 * 17]);
    let player = list;
    let npc = ptr_add(list, 17);
    for (ent, x, id, flags) in [(player, 5u16, 1000u16, 4u8), (npc, 7, 0xc8, 1)] {
        e.mem.ww(ent, x);
        e.mem.ww(ptr_add(ent, 2), 5);
        e.mem.ww(ptr_add(ent, 4), 0x100);
        e.mem.ww(ptr_add(ent, 6), id);
        e.mem.wb(ptr_add(ent, 0x0c), 7);
        e.mem.wb(ptr_add(ent, 0x0e), 0x10);
        e.mem.wb(ptr_add(ent, 0x10), flags);
    }
    e.mem.set_d(ENTITIES, list);
    e.set_w(ENTITY_COUNT, 2);
    e.mem.set_d(PLAYER, player);
    let view = e.mem.alloc_bytes(&[0u8; OBJ_SIZE]);
    e.mem.ww(ptr_add(view, 0x0e), 0x50);
    e.mem.ww(ptr_add(view, 0x10), 0x190);
    e.mem.ww(ptr_add(view, 0x12), 0x50);
    e.mem.ww(ptr_add(view, 0x14), 0x190);
    e.mem.ww(ptr_add(view, 0x28), FLAG_VISIBLE);
    e.mem.wb(ptr_add(view, 0x2b), 3);
    e.mem.wd(ptr_add(view, 0x4e), map);
    let table = e.mem.alloc_bytes(&[0u8; 8]);
    e.mem.wd(table, view);
    e.mem.set_d(OBJ_TABLE, table);
    e.set_w(OBJ_COUNT, 1);
    World { e, map, tiles, view, player, npc }
}

fn tile(w: &World, x: u16, y: u16) -> FarPtr {
    ptr_add(w.tiles, i32::from(y * 30 + x) * 2)
}

#[test]
fn set_tile_replaces_chip_and_layer_and_keeps_flags() {
    let mut w = world();
    let at = tile(&w, 1, 2);
    w.e.mem.ww(at, 0xf800 | 0x0200 | 0x0012);
    w.e.map_set_tile(1, 2, w.map, 0x1ab, 2);
    assert_eq!(w.e.mem.rw(at), 0xf800 | (2 << 9) | 0x1ab);
    w.e.map_set_tile(1, 2, w.map, 0x200, 3);
    assert_eq!(w.e.mem.rw(at), 0xf800 | (3 << 9) | 0x1ab);
    w.e.map_set_tile(1, 2, w.map, 0x005, 4);
    assert_eq!(w.e.mem.rw(at), 0xf800 | (3 << 9) | 0x005);
    w.e.map_set_tile(30, 2, w.map, 0x7, 0);
    assert_eq!(w.e.mem.rw(at), 0xf800 | (3 << 9) | 0x005);
}

#[test]
fn center_view_keeps_the_view_inside_the_map() {
    let mut w = world();
    w.e.mem.ww(ptr_add(w.view, 0x12), 20);
    w.e.mem.ww(ptr_add(w.view, 0x14), 160);
    w.e.map_center_view(w.view, 15, 15);
    assert_eq!((w.e.ow(w.view, 0x22), w.e.ow(w.view, 0x24)), (10, 10));
    w.e.map_center_view(w.view, 29, 0);
    assert_eq!((w.e.ow(w.view, 0x22), w.e.ow(w.view, 0x24)), (20, 0));
}

#[test]
fn entities_are_found_by_id() {
    let w = world();
    assert_eq!(w.e.find_entity(0xc8, 0), w.npc);
    assert_eq!(w.e.find_entity(0xc9, 0), 0);
    assert_eq!(w.e.entity_query(0xc8), (7, 5, 7, 0, 0));
    assert_eq!(w.e.entity_query(1000), (5, 5, 7, 0, 0));
    assert_eq!(w.e.entity_query(0xc9), (0, 0, 0, 0, 2));
}

#[test]
fn map_entities_are_found_through_visible_views() {
    let mut w = world();
    let own = w.e.mem.alloc_bytes(&[0u8; 17]);
    w.e.mem.ww(own, 3);
    w.e.mem.ww(ptr_add(own, 2), 4);
    w.e.mem.ww(ptr_add(own, 6), 0xca);
    w.e.mem.wb(ptr_add(own, 0x0c), 7);
    w.e.mem.wb(ptr_add(own, 0x0e), 0x12);
    w.e.mem.wd(ptr_add(w.map, 0x32), own);
    w.e.mem.wb(ptr_add(w.map, 0x26), 1);
    assert_eq!(w.e.entity_query(0xca), (3, 4, 7, 2, 1));
    w.e.mem.ww(ptr_add(w.view, 0x28), 0);
    assert_eq!(w.e.entity_query(0xca), (0, 0, 0, 0, 2));
}

#[test]
fn update_moves_and_turns_an_entity() {
    let mut w = world();
    w.e.entity_update([9, 1000, 1000, 0xc8, 0x12]);
    assert_eq!(w.e.ow(w.npc, 0), 9);
    assert_eq!(w.e.ow(w.npc, 2), 5);
    assert_eq!(w.e.ob(w.npc, 0x0e), 0x12);
    assert_eq!(w.e.ow(w.npc, 4), 0x102);
}

#[test]
fn nearby_npc_sees_the_neighbour() {
    let mut w = world();
    assert_eq!(w.e.nearby_npc(), 0);
    let own = w.e.mem.alloc_bytes(&[0u8; 17]);
    w.e.mem.ww(own, 6);
    w.e.mem.ww(ptr_add(own, 2), 4);
    w.e.mem.ww(ptr_add(own, 6), 0xcb);
    w.e.mem.wb(ptr_add(own, 0x0c), 7);
    w.e.mem.wd(ptr_add(w.map, 0x32), own);
    w.e.mem.wb(ptr_add(w.map, 0x26), 1);
    assert_eq!(w.e.nearby_npc(), 1);
    assert_eq!(w.e.w(INTERACT_ID), 0xcb);
    assert_eq!(w.e.w(MAP_EVENT), 5);
}

#[test]
fn triggers_are_set_by_id() {
    let mut w = world();
    let triggers = w.e.mem.alloc_bytes(&[0u8; 20]);
    w.e.mem.ww(ptr_add(triggers, 4), 9);
    w.e.mem.ww(ptr_add(triggers, 14), 8);
    w.e.mem.wd(ptr_add(w.map, 0x36), triggers);
    w.e.mem.wb(ptr_add(w.map, 0x28), 2);
    w.e.map_set_trigger(3, 9, 1);
    assert_eq!(w.e.mem.rb(ptr_add(triggers, 8)), 1);
    assert_eq!(w.e.mem.rb(ptr_add(triggers, 18)), 0);
}

#[test]
fn probe_reports_the_cell_under_the_mouse() {
    let mut w = world();
    w.e.mem.ww(tile(&w, 7, 5), 0x1000);
    assert_eq!(w.e.map_probe(14 * 8, 5 * 16), (3, 7, 5, 0xc8, 0));
    assert_eq!(w.e.map_probe(0x50 * 8, 0), (0, 0, 0, 0, 0));
}

#[test]
fn player_steps_right() {
    let mut w = world();
    w.e.set_w(MAP_ACTIVE, 1);
    w.e.set_b(KEY_TABLE + u16::from(SCAN_RIGHT), 1);
    w.e.mem.ww(ptr_add(w.npc, 2), 20);
    assert!(matches!(w.e.player_move(w.player), PlayerMove::Done(0)));
    assert_eq!((w.e.ow(w.player, 0), w.e.ow(w.player, 2)), (6, 5));
    assert_eq!(w.e.ob(w.player, 0x0e), 0x13);
}

#[test]
fn player_is_blocked_by_a_higher_layer_and_bumps_into_npcs() {
    let mut w = world();
    w.e.set_b(KEY_TABLE + u16::from(SCAN_RIGHT), 1);
    w.e.mem.ww(tile(&w, 6, 5), 3 << 9);
    assert_eq!(w.e.player_step(w.player, w.view, w.map), 4);
    assert_eq!(w.e.w(TILE_LAYER), 3);
    assert_eq!(w.e.ow(w.player, 0), 5);

    let mut w = world();
    w.e.set_b(KEY_TABLE + u16::from(SCAN_RIGHT), 1);
    w.e.mem.ww(tile(&w, 7, 5), 0x1000);
    assert_eq!(w.e.player_step(w.player, w.view, w.map), 5);
    assert_eq!(w.e.w(INTERACT_ID), 0xc8);
    assert_eq!(w.e.w(HIT_TYPE), 3);
    assert_eq!(w.e.ob(w.player, 0x0e), 0x13);
    assert_eq!(w.e.ob(w.npc, 0x0e), 0x12);
    assert_eq!(w.e.ow(w.player, 0), 5);
}

#[test]
fn player_move_without_an_active_map_or_below_the_top_view() {
    let mut w = world();
    assert!(matches!(w.e.player_move(w.player), PlayerMove::Done(0)));
    w.e.set_w(MAP_ACTIVE, 1);
    let top = w.e.mem.alloc_bytes(&[0u8; OBJ_SIZE]);
    let table = w.e.mem.alloc_bytes(&[0u8; 8]);
    w.e.mem.wd(table, w.view);
    w.e.mem.wd(ptr_add(table, 4), top);
    w.e.mem.set_d(OBJ_TABLE, table);
    w.e.set_w(OBJ_COUNT, 2);
    match w.e.player_move(w.player) {
        PlayerMove::Raise { id, obj, map } => {
            assert_eq!((id, obj, map), (3, w.view, w.map));
        }
        PlayerMove::Done(_) => panic!("expected a raise"),
    }
}
