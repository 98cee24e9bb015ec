//! Maps and actors (seg015).
//!
//! A map is a 0x3A-byte header followed by its tile words, 17-byte entities
//! and 10-byte triggers.  Header: `+0` width, `+2` height, `+24` tile
//! bytes, `+26` entity count, `+27` map id, `+28` trigger count, `+2E`
//! tiles, `+32` entities, `+36` triggers.
//!
//! Entity record: `+0` x, `+2` y, `+4` sprite base, `+6` id, `+0C` map id,
//! `+0D` AI, `+0E` height class (high nibble) / direction (low nibble),
//! `+0F` blocked directions (high) / speed divider (low), `+10` flags
//! (1/2 static, 4 player, 8 AI target).
//!
//! Trigger record: `+0` x, `+2` y, `+4` id, `+8` disabled.
#![allow(unused_imports)]

use vstd::prelude::*;

use super::ds::{
    ENTITIES, ENTITY_COUNT, INTERACT_ID, LEFT_HELD, LEFT_PRESSES, LEFT_PRESS_X, LEFT_PRESS_Y, MAP_ACTIVE, MAP_CELLS,
    FRAME_COUNTER, MAP_CELL_SEL, MAP_EVENT, MOUSE_X, MOUSE_Y, PLAYER, SHARED_TILES, W_27144,
};
use super::mem::{
    add_spec, ds_word, far_spec, free_spec, ptr_add, read_dword, read_spec, read_word, set_ds_word, write_dword,
    write_spec, write_word, writes_spec, FarPtr, MemView, DS_SEG,
};
use super::object::{obj_at_spec, obj_count_spec, obj_index_from, FLAG_NO_FREE, FLAG_VISIBLE};
use super::{direction_bits, trunc_div};
use super::Engine;

verus! {

pub const ENTITY_SIZE: i32 = 0x11;

/// Scratch words of the collision helpers.
pub const TILE_INDEX: u16 = 0x3B36;
pub const TILE_CHIP: u16 = 0x3AF8;
pub const TILE_LAYER: u16 = 0x3AF6;
pub const TILE_OCCUPIED: u16 = 0x3AEE;
pub const TILE_TRIGGER: u16 = 0x3AF0;
pub const HIT_TYPE: u16 = 0x3AF2;
pub const HIT_SPRITE: u16 = 0x3AF4;
pub const HIT_ENTITY: u16 = 0x3B4A;
pub const HIT_TRIGGER: u16 = 0x3B46;
pub const MOVE_PREF: u16 = 0x3B3A;
pub const BATTLE_MODE: u16 = 0x3B40;
pub const MOVE_TARGET_X: u16 = 0x5A6A;
pub const MOVE_TARGET_Y: u16 = 0x5A6C;

// ---- views of memory ---------------------------------------------------

/// Word `off` of the data segment.
pub open spec fn ds_w(m: MemView, off: u16) -> u16 {
    ds_word(m.ds, off)
}

/// Memory with word `off` of the data segment set to `v`.
pub open spec fn put_w(m: MemView, off: u16, v: u16) -> MemView {
    MemView { ds: set_ds_word(m.ds, off, v), ..m }
}

/// The far pointer stored at `off` of the data segment.
pub open spec fn ds_d(m: MemView, off: u16) -> u32 {
    read_dword(m, far_spec(DS_SEG, off))
}

pub open spec fn put_d(m: MemView, off: u16, v: u32) -> MemView {
    write_dword(m, far_spec(DS_SEG, off), v)
}

/// Field words, bytes and pointers of a record at `p`.
pub open spec fn fw(m: MemView, p: u32, off: int) -> u16 {
    read_word(m, add_spec(p, off))
}

pub open spec fn fsw(m: MemView, p: u32, off: int) -> int {
    fw(m, p, off) as i16 as int
}

pub open spec fn fb(m: MemView, p: u32, off: int) -> u8 {
    read_spec(m, add_spec(p, off))
}

pub open spec fn fd(m: MemView, p: u32, off: int) -> u32 {
    read_dword(m, add_spec(p, off))
}

/// Entity `i` of a list.
pub open spec fn entity_ptr(list: u32, i: int) -> u32 {
    add_spec(list, i * 17)
}

// ---- tiles ---------------------------------------------------------------

/// A tile word with its chip (bits 0-8) and layer (bits 9-10) replaced;
/// a chip above 0x1FF or a layer above 3 keeps the old one, and the flag
/// bits 11-15 stay.
pub open spec fn retiled(old: u16, chip: u16, layer: u16) -> u16 {
    let c: int = if chip > 0x1ff { (old & 0x1ff) as int } else { chip as int };
    let l: int = if layer > 3 { ((old >> 9u16) & 3) as int } else { layer as int };
    ((old & 0xf800) as int + l * 512 + c) as u16
}

/// The address of tile `index` of a map.
pub open spec fn tile_addr(m: MemView, map: u32, index: int) -> u32 {
    add_spec(fd(m, map, 0x2e), index * 2)
}

/// What `map_set_tile` leaves.
pub open spec fn set_tile_spec(m: MemView, x: u16, y: u16, map: u32, chip: u16, layer: u16) -> MemView {
    if map == 0 || fw(m, map, 0) <= x || fw(m, map, 2) <= y {
        m
    } else {
        let index = (y as int * fw(m, map, 0) as int + x as int) % 65536;
        let at = tile_addr(m, map, index);
        write_word(m, at, retiled(read_word(m, at), chip, layer))
    }
}

// ---- view scrolling -----------------------------------------------------

/// The scroll origin `map_center_view` picks on one axis: `pos` minus half
/// the view, kept inside the map and not below 0.
pub open spec fn centered(pos: int, view: int, size: int) -> int {
    let c = pos - super::trunc_div(view, 2);
    let c2 = if c + view > size { size - view } else { c };
    if c2 > 0 { c2 } else { 0 }
}

pub open spec fn center_view_spec(m: MemView, obj: u32, x: u16, y: u16) -> MemView {
    if obj == 0 || fd(m, obj, 0x4e) == 0 {
        m
    } else {
        let map = fd(m, obj, 0x4e);
        let cols = super::trunc_div(fsw(m, obj, 0x12), 2);
        let rows = super::trunc_div(fsw(m, obj, 0x14), 16);
        let cx = centered(x as i16 as int, cols, fsw(m, map, 0));
        let cy = centered(y as i16 as int, rows, fsw(m, map, 2));
        write_word(write_word(m, add_spec(obj, 0x22), cx as u16), add_spec(obj, 0x24), cy as u16)
    }
}

// ---- cell buffers and freeing ------------------------------------------

/// The map cell buffer `which` (its low bit).
pub open spec fn cell_buffer_spec(m: MemView, which: u16) -> u32 {
    ds_d(m, (MAP_CELLS + (which & 1) * 4) as u16)
}

pub open spec fn buffers_swap_spec(m: MemView) -> MemView {
    let sel = ds_w(m, MAP_CELL_SEL) ^ 1;
    let m1 = put_w(m, MAP_CELL_SEL, sel);
    writes_spec(m1, cell_buffer_spec(m1, sel), Seq::new(10000, |i: int| 0u8))
}

/// What `free_obj_map` leaves: the map's entities, triggers, own tiles and
/// header freed and the view's map pointer cleared.
pub open spec fn free_obj_map_spec(m: MemView, obj: u32) -> MemView {
    if obj == 0 || fd(m, obj, 0x4e) == 0 {
        m
    } else {
        let map = fd(m, obj, 0x4e);
        let m1 = free_spec(m, fd(m, map, 0x32));
        let m2 = free_spec(m1, fd(m1, map, 0x36));
        let tiles = fd(m2, map, 0x2e);
        let m3 = if tiles != ds_d(m2, SHARED_TILES) { free_spec(m2, tiles) } else { m2 };
        let m4 = free_spec(m3, map);
        write_dword(m4, add_spec(obj, 0x4e), 0)
    }
}

// ---- triggers -------------------------------------------------------------

/// Memory after disabling-byte writes to the first `n` triggers with id
/// `trigger`.
pub open spec fn set_triggers(m: MemView, triggers: u32, trigger: u16, value: u8, n: int) -> MemView
    decreases n,
{
    if n <= 0 {
        m
    } else {
        let b = set_triggers(m, triggers, trigger, value, n - 1);
        let t = add_spec(triggers, (n - 1) * 10);
        if fw(b, t, 4) == trigger {
            write_spec(b, add_spec(t, 8), value)
        } else {
            b
        }
    }
}

/// The record of an object id, or null.
pub open spec fn obj_ptr_spec(m: MemView, id: u16) -> u32 {
    if obj_index_from(m, id, 0) == -1 {
        0
    } else {
        obj_at_spec(m, obj_index_from(m, id, 0))
    }
}

pub open spec fn set_trigger_spec(m: MemView, id: u16, trigger: u16, value: u8) -> MemView {
    let obj = obj_ptr_spec(m, id);
    if obj == 0 || fd(m, obj, 0x4e) == 0 {
        m
    } else {
        let map = fd(m, obj, 0x4e);
        set_triggers(m, fd(m, map, 0x36), trigger, value, fb(m, map, 0x28) as int)
    }
}

// ---- entities -------------------------------------------------------------

/// The first entity from `i` on among `count` with id `id`, or null.
pub open spec fn find_from(m: MemView, list: u32, count: int, id: u16, i: int) -> u32
    decreases count - i,
{
    if i < 0 || i >= count {
        0
    } else if fw(m, entity_ptr(list, i), 6) == id {
        entity_ptr(list, i)
    } else {
        find_from(m, list, count, id, i + 1)
    }
}

/// `find_entity`: the global list first, then the map's own.
#[verifier::opaque]
pub open spec fn find_entity_spec(m: MemView, id: u16, map: u32) -> u32 {
    let g = find_from(m, ds_d(m, ENTITIES), ds_w(m, ENTITY_COUNT) as int, id, 0);
    if g != 0 {
        g
    } else if map != 0 {
        find_from(m, fd(m, map, 0x32), fb(m, map, 0x26) as int, id, 0)
    } else {
        0
    }
}

/// Position, map id and direction of an entity.
pub open spec fn entity_fields(m: MemView, e: u32) -> (u16, u16, u16, u16) {
    (fw(m, e, 0), fw(m, e, 2), fb(m, e, 0x0c) as u16, (fb(m, e, 0x0e) & 0xf) as u16)
}

/// The first visible view from table index `i` on whose map holds the
/// entity, as that entity; null if none.
pub open spec fn view_entity_from(m: MemView, id: u16, i: int) -> u32
    decreases obj_count_spec(m.ds) - i,
{
    if i < 0 || i >= obj_count_spec(m.ds) {
        0
    } else {
        let obj = obj_at_spec(m, i);
        let map = fd(m, obj, 0x4e);
        if fw(m, obj, 0x28) & FLAG_VISIBLE != 0 && map != 0 && find_entity_spec(m, id, map) != 0 {
            find_entity_spec(m, id, map)
        } else {
            view_entity_from(m, id, i + 1)
        }
    }
}

/// `entity_query`: (x, y, map id, direction, where) with where 0 for the
/// global list or the player, 1 for a visible view's map, 2 not found.
#[verifier::opaque]
pub open spec fn entity_query_spec(m: MemView, id: u16) -> (u16, u16, u16, u16, u16) {
    let e = if id == 1000 { ds_d(m, PLAYER) } else { find_entity_spec(m, id, 0) };
    if e != 0 {
        let f = entity_fields(m, e);
        (f.0, f.1, f.2, f.3, 0)
    } else {
        let v = view_entity_from(m, id, 0);
        if v != 0 {
            let f = entity_fields(m, v);
            (f.0, f.1, f.2, f.3, 1)
        } else {
            (0, 0, 0, 0, 2)
        }
    }
}

// ---- collision ------------------------------------------------------------

/// The tile index of cell (x, y): `y * width + x`, both as signed words.
pub open spec fn cell_index(m: MemView, map: u32, x: int, y: int) -> int {
    (y as i16 as int) * (fw(m, map, 0) as i16 as int) + x
}

/// What `tile_info` leaves: the index, chip, layer, occupied and trigger
/// scratch words set from the tile word, which it returns.
pub open spec fn tile_info_spec(m: MemView, map: u32, x: int, y: int) -> (MemView, u16) {
    let index = cell_index(m, map, x, y);
    let m1 = put_w(m, TILE_INDEX, (index % 65536) as u16);
    let tile = read_word(m1, add_spec(fd(m1, map, 0x2e), 2 * index));
    let m2 = put_w(m1, TILE_CHIP, tile & 0x21ff);
    let m3 = put_w(m2, TILE_LAYER, (tile >> 9u16) & 3);
    let m4 = put_w(m3, TILE_OCCUPIED, tile & 0x1000);
    (put_w(m4, TILE_TRIGGER, tile & 0x800), tile)
}

/// How an entity at (ex, ey) with its 2x2 footprint covers cell (x, y):
/// 3 its own cell, 1 the one above, 4 the one right, 2 above-right, 0 none.
pub open spec fn hit_kind(ex: int, ey: int, x: int, y: int) -> u16 {
    if ex == x && ey == y {
        3
    } else if ex == x && ey - 1 == y {
        1
    } else if ex + 1 == x && ey == y {
        4
    } else if ex + 1 == x && ey - 1 == y {
        2
    } else {
        0
    }
}

/// The sprite of the covered quarter, from the entity's sprite base.
pub open spec fn hit_sprite(sprite: u16, kind: u16) -> int {
    if kind == 1 {
        sprite - 0x20
    } else if kind == 4 {
        sprite + 1
    } else if kind == 2 {
        sprite - 0x1f
    } else {
        sprite as int
    }
}

pub open spec fn wrap16(v: int) -> u16 {
    (v % 65536) as u16
}

/// Looking at entity `e` for cell (x, y): on the map and covering the
/// cell, the kind and sprite words are set; returns the memory and the
/// kind (0 for none).
pub open spec fn probe_spec(m: MemView, e: u32, map_id: u8, x: int, y: int) -> (MemView, u16) {
    let kind = if fb(m, e, 0x0c) == map_id { hit_kind(fsw(m, e, 0), fsw(m, e, 2), x, y) } else { 0 };
    if kind != 0 {
        let m2 = put_w(m, HIT_TYPE, kind);
        let dir = ((fb(m2, e, 0x0e) & 0xf) as int) * 4;
        (put_w(m2, HIT_SPRITE, wrap16(hit_sprite(fw(m, e, 4), kind) + dir)), kind)
    } else {
        (m, 0)
    }
}

/// The scan of `entity_at` from index `dx`: the hit-entity pointer is set
/// to every entity looked at, until one covers the cell.  Returns the
/// memory and the index hit, or -1.
#[verifier::opaque]
pub open spec fn scan_from(m: MemView, list: u32, count: int, map_id: u8, x: int, y: int, dx: int) -> (MemView, int)
    decreases count - dx,
{
    if dx < 0 || dx >= count {
        (m, -1)
    } else {
        let e = entity_ptr(list, dx);
        let p = probe_spec(put_d(m, HIT_ENTITY, e), e, map_id, x, y);
        if p.1 != 0 {
            (p.0, dx)
        } else {
            scan_from(p.0, list, count, map_id, x, y, dx + 1)
        }
    }
}

/// `entity_at`: the first entity from `start` (of the global list, or of
/// the map's) on the map whose footprint covers (x, y).
pub open spec fn entity_at_spec(m: MemView, x: int, y: int, map: u32, start: int, global: bool) -> (MemView, int) {
    let m0 = put_w(put_d(m, HIT_ENTITY, 0), HIT_TYPE, 0);
    if global && ds_d(m0, ENTITIES) == 0 {
        (m0, -1)
    } else {
        let list = if global { ds_d(m0, ENTITIES) } else { fd(m0, map, 0x32) };
        let count: int = if global { ds_w(m0, ENTITY_COUNT) as int } else { fb(m0, map, 0x26) as int };
        let r = scan_from(m0, list, count, fb(m0, map, 0x27), x, y, start);
        if r.1 == -1 {
            (put_d(r.0, HIT_ENTITY, 0), -1)
        } else {
            r
        }
    }
}

/// The first of `count` triggers from `i` on at (x, y).
pub open spec fn trigger_from(m: MemView, triggers: u32, count: int, x: int, y: int, i: int) -> int
    decreases count - i,
{
    if i < 0 || i >= count {
        -1
    } else if fsw(m, add_spec(triggers, i * 10), 0) == x && fsw(m, add_spec(triggers, i * 10), 2) == y {
        i
    } else {
        trigger_from(m, triggers, count, x, y, i + 1)
    }
}

/// `trigger_at`: the id of the first trigger at (x, y), 0 if none; the
/// hit-trigger pointer is set to it when the id is not 0.
pub open spec fn trigger_at_spec(m: MemView, x: int, y: int, map: u32) -> (MemView, u16) {
    let triggers = fd(m, map, 0x36);
    let i = trigger_from(m, triggers, fb(m, map, 0x28) as int, x, y, 0);
    let t = add_spec(triggers, i * 10);
    let id: u16 = if i == -1 { 0 } else { fw(m, t, 4) };
    (put_d(m, HIT_TRIGGER, if id == 0 { 0 } else { t }), id)
}

/// Bumping into `other`: the interaction id is set, the entity turns
/// toward it and, outside battle, it turns back.
pub open spec fn bump(m: MemView, entity: u32, other: u32) -> MemView {
    let m1 = put_w(m, INTERACT_ID, fw(m, other, 6));
    let ox = fsw(m1, other, 0);
    let oy = fsw(m1, other, 2);
    let other_dir = fb(m1, other, 0x0e);
    let d = ox - fsw(m1, entity, 0);
    let dist = if d < 0 { -d } else { d };
    let battle = ds_w(m1, BATTLE_MODE) == 2;
    let (mine, theirs): (u8, u8) = if fsw(m1, entity, 2) <= oy && dist < 2 {
        (1, 0)
    } else if fsw(m1, entity, 2) > oy && dist < 2 {
        (0, 1)
    } else if fsw(m1, entity, 0) <= ox {
        (3, 2)
    } else {
        (2, 3)
    };
    let m2 = write_spec(m1, add_spec(entity, 0x0e), ((fb(m1, entity, 0x0e) & 0xf0) + mine) as u8);
    if battle {
        m2
    } else {
        write_spec(m2, add_spec(other, 0x0e), ((other_dir & 0xf0) + theirs) as u8)
    }
}

/// The occupant scan of one list from `start`: the entities covering
/// (x, y) in turn, until one of another id stands on its own cell (bumped,
/// `true`) or none is left.
pub open spec fn occupant_scan(m: MemView, x: int, y: int, entity: u32, map: u32, global: bool, start: int) -> (MemView, bool)
    decreases 0x10000 - start,
{
    let r = entity_at_spec(m, x, y, map, start, global);
    proof {
        lemma_entity_at_range(m, x, y, map, start, global);
    }
    if r.1 + 1 <= 0 || start < 0 {
        (r.0, false)
    } else {
        let other = ds_d(r.0, HIT_ENTITY);
        if ds_w(r.0, HIT_TYPE) > 2 && fw(r.0, other, 6) != fw(r.0, entity, 6) {
            (bump(r.0, entity, other), true)
        } else {
            occupant_scan(r.0, x, y, entity, map, global, r.1 + 1)
        }
    }
}

/// One cell of `map_collide`: 4 blocked by its layer, 5 bumped into an
/// entity, 6 an active trigger, 0 free.
pub open spec fn collide_cell(m: MemView, x: int, y: int, entity: u32, map: u32) -> (MemView, u16) {
    let m1 = tile_info_spec(m, map, x, y).0;
    if ((fb(m1, entity, 0x0e) >> 4u8) as u16) < ds_w(m1, TILE_LAYER) {
        (m1, 4)
    } else {
        let o = if ds_w(m1, TILE_OCCUPIED) != 0 {
            let a = occupant_scan(m1, x, y, entity, map, false, 0);
            if a.1 { a } else { occupant_scan(a.0, x, y, entity, map, true, 0) }
        } else {
            (m1, false)
        };
        if o.1 {
            (o.0, 5)
        } else if ds_w(o.0, TILE_TRIGGER) != 0 {
            let t = trigger_at_spec(o.0, x, y, map);
            let m4 = put_w(t.0, INTERACT_ID, t.1);
            let hit = ds_d(m4, HIT_TRIGGER);
            (m4, if hit != 0 && fb(m4, hit, 8) == 0 { 6u16 } else { 0u16 })
        } else {
            (o.0, 0)
        }
    }
}

/// `map_collide`: the entity's two cells (x, y) and (x + 1, y) in turn.
pub open spec fn collide_spec(m: MemView, x: int, y: int, entity: u32, map: u32) -> (MemView, u16) {
    let a = collide_cell(m, x, y, entity, map);
    if a.1 != 0 {
        a
    } else {
        collide_cell(a.0, x + 1, y, entity, map)
    }
}

/// One step of the scan.
// ---- player movement ------------------------------------------------------

/// The first view from table index `i` on that the player can move in: it
/// shows the entity's map, is visible and may be freed.
pub open spec fn player_view_from(m: MemView, entity: u32, i: int) -> int
    decreases obj_count_spec(m.ds) - i,
{
    if i < 0 || i >= obj_count_spec(m.ds) {
        -1
    } else {
        let obj = obj_at_spec(m, i);
        let map = fd(m, obj, 0x4e);
        let f = fw(m, obj, 0x28);
        if f & FLAG_NO_FREE == 0 && map != 0 && fb(m, map, 0x27) == fb(m, entity, 0x0c) && f & FLAG_VISIBLE != 0 {
            i
        } else {
            player_view_from(m, entity, i + 1)
        }
    }
}

/// The entity turned to direction `dir`, keeping its height class.
pub open spec fn face(m: MemView, entity: u32, dir: u8) -> MemView {
    write_spec(m, add_spec(entity, 0x0e), ((fb(m, entity, 0x0e) & 0xf0) + dir) as u8)
}

/// The step the direction keys ask for: up, down, left, right in turn,
/// the last one pressed giving the direction.
pub open spec fn key_step(keys: u16, si: int, di: int) -> (int, int, u8) {
    let (d1, r1) = if keys & 1 != 0 { (di - 1, 0u8) } else { (di, 0u8) };
    let (d2, r2) = if keys & 2 != 0 { (d1 + 1, 1u8) } else { (d1, r1) };
    let (s3, r3) = if keys & 4 != 0 { (si - 1, 2u8) } else { (si, r2) };
    let (s4, r4) = if keys & 8 != 0 { (s3 + 1, 3u8) } else { (s3, r3) };
    (s4, d2, r4)
}

/// A new mouse target: a double press, or the held button, sets it (in
/// byte columns and lines) and arms the walk.
pub open spec fn mouse_target(m: MemView) -> MemView {
    if ds_w(m, LEFT_PRESSES) == 2 {
        let m1 = put_w(m, MOVE_TARGET_X, trunc_div(ds_w(m, LEFT_PRESS_X) as i16 as int, 8) as u16);
        let m2 = put_w(m1, MOVE_TARGET_Y, ds_w(m1, LEFT_PRESS_Y));
        put_w(m2, W_27144, 1)
    } else if ds_w(m, LEFT_HELD) != 0 {
        let m1 = put_w(m, MOVE_TARGET_X, trunc_div(ds_w(m, MOUSE_X) as i16 as int, 8) as u16);
        let m2 = put_w(m1, MOVE_TARGET_Y, ds_w(m1, MOUSE_Y));
        put_w(m2, W_27144, 1)
    } else {
        m
    }
}

/// One step toward cell (cx, cy); the preference flag reverses the order
/// and sense of the tests.  The direction is -1 for no step.
pub open spec fn toward(pref: bool, si: int, di: int, cx: int, cy: int) -> (int, int, int) {
    if pref {
        let (d1, r1) = if di - 1 > cy { (di + 1, 1int) } else { (di, -1int) };
        let (d2, r2) = if d1 < cy { (d1 - 1, 0int) } else { (d1, r1) };
        let (s3, r3) = if si > cx { (si + 1, 3int) } else { (si, r2) };
        let (s4, r4) = if s3 + 1 < cx { (s3 - 1, 2int) } else { (s3, r3) };
        (s4, d2, r4)
    } else {
        let (d1, r1) = if di < cy { (di + 1, 1int) } else { (di, -1int) };
        let (d2, r2) = if d1 - 1 > cy { (d1 - 1, 0int) } else { (d1, r1) };
        let (s3, r3) = if si + 1 < cx { (si + 1, 3int) } else { (si, r2) };
        let (s4, r4) = if s3 > cx { (s3 - 1, 2int) } else { (s3, r3) };
        (s4, d2, r4)
    }
}

/// The mouse walk: the target is refreshed; without an armed walk and a
/// held button nothing moves; a target outside the view disarms it;
/// otherwise the entity steps toward the target cell (or the walk ends).
#[verifier::opaque]
pub open spec fn mouse_step(m: MemView, entity: u32, obj: u32, si: int, di: int) -> (MemView, Option<(int, int)>) {
    let m1 = mouse_target(m);
    if ds_w(m1, W_27144) == 0 || ds_w(m1, LEFT_HELD) == 0 {
        (m1, None)
    } else {
        let tx = ds_w(m1, MOVE_TARGET_X) as i16 as int;
        let ty = ds_w(m1, MOVE_TARGET_Y) as i16 as int;
        if !(fsw(m1, obj, 0x0a) <= tx && fsw(m1, obj, 0x0e) > tx && fsw(m1, obj, 0x0c) <= ty && fsw(m1, obj, 0x10) > ty) {
            (put_w(m1, W_27144, 0), None)
        } else {
            let cx = fsw(m1, obj, 0x22) + trunc_div(tx - fsw(m1, obj, 0x0a), 2);
            let cy = fsw(m1, obj, 0x24) + trunc_div(ty - fsw(m1, obj, 0x0c), 16);
            let t = toward(ds_w(m1, MOVE_PREF) != 0, si, di, cx, cy);
            let m2 = if t.2 != -1 { face(m1, entity, t.2 as u8) } else { put_w(m1, W_27144, 0) };
            (m2, Some((t.0, t.1)))
        }
    }
}

/// A target off the map keeps the entity's coordinate.
pub open spec fn clamp_pos(m: MemView, entity: u32, map: u32, si: int, di: int) -> (int, int) {
    (
        if si < 0 || fsw(m, map, 0) <= si { fsw(m, entity, 0) } else { si },
        if di < 0 || fsw(m, map, 2) <= di { fsw(m, entity, 2) } else { di },
    )
}

/// The direction from the entity's cell to (si, di): vertical first,
/// horizontal overriding; -1 where it stays.
pub open spec fn facing(ex: int, ey: int, si: int, di: int) -> int {
    if ex > si {
        2
    } else if ex < si {
        3
    } else if ey > di {
        0
    } else if ey < di {
        1
    } else {
        -1
    }
}

/// The collision with sliding: a blocked diagonal step tries the
/// horizontal part, then the vertical part, and the entity faces where it
/// goes.  Returns the memory, the collision code and the target.
#[verifier::opaque]
pub open spec fn slide(m: MemView, entity: u32, map: u32, si: int, di: int) -> (MemView, u16, int, int) {
    let c = collide_spec(m, si, di, entity, map);
    if c.1 != 4 {
        (c.0, c.1, si, di)
    } else {
        let ey = fsw(c.0, entity, 2);
        let c2 = collide_spec(c.0, si, ey, entity, map);
        let d2 = if c2.1 == 0 || c2.1 == 6 { ey } else { di };
        let r: (MemView, u16, int, int) = if c2.1 == 4 {
            let ex = fsw(c2.0, entity, 0);
            let c3 = collide_spec(c2.0, ex, d2, entity, map);
            if c3.1 == 4 {
                (c3.0, c3.1, ex, fsw(c3.0, entity, 2))
            } else if c3.1 == 0 || c3.1 == 6 {
                (c3.0, c3.1, ex, d2)
            } else {
                (c3.0, c3.1, si, d2)
            }
        } else {
            (c2.0, c2.1, si, d2)
        };
        let dir = facing(fsw(r.0, entity, 0), fsw(r.0, entity, 2), r.2, r.3);
        (if dir != -1 { face(r.0, entity, dir as u8) } else { r.0 }, r.1, r.2, r.3)
    }
}

/// The view scroll on one axis: near the low edge (within `lo`) it
/// scrolls back if it can; near the high edge forward while the map goes on.
pub open spec fn scrolled(pos: int, scroll: int, view: int, size: int, lo: int) -> Option<int> {
    if scroll + lo > pos {
        if scroll > 0 { Some(scroll - 1) } else { None }
    } else if scroll + view - lo < pos && scroll + view < size {
        Some(scroll + 1)
    } else {
        None
    }
}

/// The entity moved to (si, di) and the view scrolled to follow.
#[verifier::opaque]
pub open spec fn commit(m: MemView, entity: u32, obj: u32, map: u32, si: int, di: int) -> MemView {
    let m1 = write_word(m, add_spec(entity, 0), si as u16);
    let m2 = write_word(m1, add_spec(entity, 2), di as u16);
    let m3 = match scrolled(si, fsw(m2, obj, 0x22), trunc_div(fsw(m2, obj, 0x12), 2), fsw(m2, map, 0), 0x11) {
        Some(v) => write_word(m2, add_spec(obj, 0x22), v as u16),
        None => m2,
    };
    match scrolled(di, fsw(m3, obj, 0x24), trunc_div(fsw(m3, obj, 0x14), 16), fsw(m3, map, 2), 8) {
        Some(v) => write_word(m3, add_spec(obj, 0x24), v as u16),
        None => m3,
    }
}

/// `player_step`: the move of the player entity in view `obj` of `map`,
/// from the keys or the mouse.  Codes: 0 moved (or nothing to do), 3 the
/// cell did not change, 4 blocked, 5 bumped into an entity, 6 stepped on a
/// trigger.
pub open spec fn player_step_spec(m: MemView, entity: u32, obj: u32, map: u32) -> (MemView, u16) {
    let si0 = fsw(m, entity, 0);
    let di0 = fsw(m, entity, 2);
    let keys = direction_bits(m.ds);
    let a: (MemView, Option<(int, int)>) = if keys != 0 {
        let k = key_step(keys, si0, di0);
        (face(m, entity, k.2), Some((k.0, k.1)))
    } else {
        mouse_step(m, entity, obj, si0, di0)
    };
    match a.1 {
        None => (a.0, 0),
        Some(target) => {
            let p = clamp_pos(a.0, entity, map, target.0, target.1);
            if fsw(a.0, entity, 0) == p.0 && fsw(a.0, entity, 2) == p.1 {
                (put_w(a.0, W_27144, 0), 3)
            } else {
                let sl = slide(a.0, entity, map, p.0, p.1);
                if sl.1 == 5 || sl.1 == 4 {
                    (sl.0, sl.1)
                } else {
                    (commit(sl.0, entity, obj, map, sl.2, sl.3), sl.1)
                }
            }
        },
    }
}

// ---- entity queries and updates ----------------------------------------

/// Whether a query result places an NPC of the player's map within reach
/// of the player at (px, py) (unsigned word comparisons, as in `sub_17E5F`).
pub open spec fn npc_in_reach(q: (u16, u16, u16, u16, u16), map_id: u16, px: u16, py: u16) -> bool {
    &&& q.4 == 1
    &&& q.2 == map_id
    &&& wrap16(py - 2) <= q.1 && wrap16(py + 1) >= q.1
    &&& wrap16(px - 1) <= q.0 && wrap16(px + 2) >= q.0
}

/// The first NPC id from `id` up to 0xD6 within reach, if any.
pub open spec fn npc_from(m: MemView, map_id: u16, px: u16, py: u16, id: int) -> Option<u16>
    decreases 0xd7 - id,
{
    if id < 0xc8 || id >= 0xd7 {
        None
    } else if npc_in_reach(entity_query_spec(m, id as u16), map_id, px, py) {
        Some(id as u16)
    } else {
        npc_from(m, map_id, px, py, id + 1)
    }
}

/// What `nearby_npc` leaves and returns.
pub open spec fn nearby_npc_spec(m: MemView) -> (MemView, u16) {
    let player = ds_d(m, PLAYER);
    if player == 0 {
        (m, 0)
    } else {
        let m1 = put_w(m, INTERACT_ID, 0);
        match npc_from(m1, fb(m, player, 0x0c) as u16, fw(m, player, 0), fw(m, player, 2), 0xc8) {
            Some(id) => (put_w(put_w(m1, MAP_EVENT, 5), INTERACT_ID, id), 1),
            None => (m1, 0),
        }
    }
}

/// The entity `entity_update` changes: the first of the global list with
/// the id, else the first in the map of a view (any view), else none.
pub open spec fn update_target_from(m: MemView, id: u16, i: int) -> u32
    decreases obj_count_spec(m.ds) - i,
{
    if i < 0 || i >= obj_count_spec(m.ds) {
        0
    } else {
        let map = fd(m, obj_at_spec(m, i), 0x4e);
        let e = if map != 0 { find_from(m, fd(m, map, 0x32), fb(m, map, 0x26) as int, id, 0) } else { 0 };
        if e != 0 {
            e
        } else {
            update_target_from(m, id, i + 1)
        }
    }
}

pub open spec fn update_target(m: MemView, id: u16) -> u32 {
    let g = find_from(m, ds_d(m, ENTITIES), ds_w(m, ENTITY_COUNT) as int, id, 0);
    if g != 0 {
        g
    } else {
        update_target_from(m, id, 0)
    }
}

/// The update of entity `e`: x, y and map id unless 1000, the direction
/// nibble from `values[4]`, the walk frame toggled and the map animation
/// restarted.
pub open spec fn apply_update(m: MemView, e: u32, values: Seq<u16>) -> MemView {
    let m1 = if values[0] != 1000 { write_word(m, add_spec(e, 0), values[0]) } else { m };
    let m2 = if values[1] != 1000 { write_word(m1, add_spec(e, 2), values[1]) } else { m1 };
    let m3 = if values[2] != 1000 { write_spec(m2, add_spec(e, 0x0c), (values[2] % 256) as u8) } else { m2 };
    let m4 = write_spec(m3, add_spec(e, 0x0e), ((fb(m3, e, 0x0e) & 0xf0) + (values[4] % 16)) as u8);
    let m5 = write_word(m4, add_spec(e, 4), fw(m4, e, 4) ^ 2);
    put_w(put_w(m5, FRAME_COUNTER, 0), W_27144, 0)
}

pub open spec fn entity_update_spec(m: MemView, values: Seq<u16>) -> MemView {
    let e = update_target(m, values[3]);
    if e == 0 { m } else { apply_update(m, e, values) }
}

/// `map_probe`: what lies under screen position (x, y) of the top view.
pub open spec fn probe_cell(m: MemView, x: u16, y: u16) -> Option<(u32, int, int)> {
    let count = obj_count_spec(m.ds);
    if count == 0 {
        None
    } else {
        let obj = obj_at_spec(m, count - 1);
        let col = trunc_div(x as i16 as int, 8);
        let yy = y as i16 as int;
        if !(fsw(m, obj, 0x0a) <= col && fsw(m, obj, 0x0e) > col && fsw(m, obj, 0x0c) <= yy && fsw(m, obj, 0x10) > yy) {
            None
        } else {
            Some((
                obj,
                fsw(m, obj, 0x22) + trunc_div(col - fsw(m, obj, 0x0a), 2),
                fsw(m, obj, 0x24) + trunc_div(yy - fsw(m, obj, 0x0c), 16),
            ))
        }
    }
}

/// The entity id found at a cell by one list's scan (`prev` when none).
pub open spec fn probe_entity(m: MemView, cx: int, cy: int, map: u32, global: bool, prev: u16) -> (MemView, u16) {
    let r = entity_at_spec(m, cx, cy, map, 0, global);
    (r.0, if r.1 != -1 { fw(r.0, ds_d(r.0, HIT_ENTITY), 6) } else { prev })
}

pub open spec fn map_probe_spec(m: MemView, x: u16, y: u16) -> (MemView, (u16, u16, u16, u16, u16)) {
    match probe_cell(m, x, y) {
        None => (m, (0, 0, 0, 0, 0)),
        Some(c) => {
            let (obj, cx, cy) = c;
            let map = fd(m, obj, 0x4e);
            let (m3, entity, trigger) = if map != 0 {
                let a = probe_entity(m, cx, cy, map, false, 0);
                let b = probe_entity(a.0, cx, cy, map, true, a.1);
                let t = trigger_at_spec(b.0, cx, cy, map);
                (t.0, b.1, t.1)
            } else {
                (m, 0u16, 0u16)
            };
            (m3, (fb(m3, obj, 0x2b) as u16, cx as u16, cy as u16, entity, trigger))
        },
    }
}

/// A retiled word carries the new chip and layer (where given in range)
/// and keeps the tile's flag bits.
pub proof fn lemma_retiled_fields(old: u16, chip: u16, layer: u16)
    requires
        chip <= 0x1ff,
        layer <= 3,
    ensures
        retiled(old, chip, layer) & 0x1ff == chip,
        (retiled(old, chip, layer) >> 9u16) & 3 == layer,
        retiled(old, chip, layer) & 0xf800 == old & 0xf800,
{
    let f = old & 0xf800;
    assert(f <= 0xf800 && f & 0x7ff == 0) by (bit_vector)
        requires
            f == old & 0xf800,
    ;
    let v: u16 = (f as int + layer * 512 + chip) as u16;
    assert(v & 0x1ff == chip && (v >> 9u16) & 3 == layer && v & 0xf800 == f) by (bit_vector)
        requires
            f <= 0xf800,
            f & 0x7ff == 0,
            chip <= 0x1ff,
            layer <= 3,
            v == f + layer * 512 + chip,
    ;
}

/// An entity that the search finds has the id searched for, and lies in
/// the list searched.
pub proof fn lemma_found_entity(m: MemView, list: u32, count: int, id: u16, i: int)
    ensures
        find_from(m, list, count, id, i) != 0 ==> exists|k: int|
            i <= k < count && #[trigger] entity_ptr(list, k) == find_from(m, list, count, id, i) && fw(m, entity_ptr(list, k), 6) == id,
    decreases count - i,
{
    if 0 <= i < count && fw(m, entity_ptr(list, i), 6) != id {
        lemma_found_entity(m, list, count, id, i + 1);
    }
}

/// Bit fields of a tile or parameter word.
pub proof fn lemma_word_fields()
    by (bit_vector)
    ensures
        forall|w: u16| #[trigger] (w & 0x1ff) <= 0x1ff,
        forall|w: u16| #[trigger] ((w >> 9u16) & 3) <= 3,
        forall|w: u16| #[trigger] (w & 0xf800) <= 0xf800,
        forall|w: u16| #[trigger] (w & 1) <= 1,
        forall|w: u16| #[trigger] (w as u8) == (w % 256) as u8,
        forall|w: u16| #[trigger] ((w as u8) & 0x0f) == (w % 16) as u8,
{
}

/// The height-class nibble of a direction byte.
pub proof fn lemma_byte_fields()
    by (bit_vector)
    ensures
        forall|b: u8| #[trigger] (b & 0xf0) <= 0xf0,
{
}

pub proof fn lemma_scan_step(m: MemView, list: u32, count: int, map_id: u8, x: int, y: int, dx: int)
    ensures
        (dx < 0 || dx >= count) ==> scan_from(m, list, count, map_id, x, y, dx) == (m, -1int),
        0 <= dx < count ==> scan_from(m, list, count, map_id, x, y, dx) == {
            let e = entity_ptr(list, dx);
            let p = probe_spec(put_d(m, HIT_ENTITY, e), e, map_id, x, y);
            if p.1 != 0 {
                (p.0, dx)
            } else {
                scan_from(p.0, list, count, map_id, x, y, dx + 1)
            }
        },
{
    reveal(scan_from);
}

pub proof fn lemma_scan_range(m: MemView, list: u32, count: int, map_id: u8, x: int, y: int, dx: int)
    ensures
        scan_from(m, list, count, map_id, x, y, dx).1 == -1 || (dx <= scan_from(m, list, count, map_id, x, y, dx).1 < count),
    decreases count - dx,
{
    reveal(scan_from);
    if 0 <= dx < count {
        let e = entity_ptr(list, dx);
        let p = probe_spec(put_d(m, HIT_ENTITY, e), e, map_id, x, y);
        lemma_scan_range(p.0, list, count, map_id, x, y, dx + 1);
    }
}

pub proof fn lemma_entity_at_range(m: MemView, x: int, y: int, map: u32, start: int, global: bool)
    ensures
        entity_at_spec(m, x, y, map, start, global).1 == -1 || (start <= entity_at_spec(m, x, y, map, start, global).1 < 0xffff),
{
    let m0 = put_w(put_d(m, HIT_ENTITY, 0), HIT_TYPE, 0);
    let list = if global { ds_d(m0, ENTITIES) } else { fd(m0, map, 0x32) };
    let count: int = if global { ds_w(m0, ENTITY_COUNT) as int } else { fb(m0, map, 0x26) as int };
    lemma_scan_range(m0, list, count, fb(m0, map, 0x27), x, y, start);
}

impl Engine {
    /// `sub_1C2E3`: FB tile update.
    pub fn map_set_tile(&mut self, x: u16, y: u16, map: FarPtr, chip: u16, layer: u16)
        requires
            old(self).mem_ok(),
        ensures
            final(self).mem_ok(),
            final(self).memory() == set_tile_spec(old(self).memory(), x, y, map, chip, layer),
            final(self).screen() == old(self).screen(),
    {
        if map == 0 || self.ow(map, 0) <= x || self.ow(map, 2) <= y {
            return;
        }
        let w = self.ow(map, 0);
        let index = y.wrapping_mul(w).wrapping_add(x);
        assert(index == (y as int * w as int + x as int) % 65536) by (nonlinear_arith)
            requires
                index == ((y as int * w as int) % 65536 + x as int) % 65536,
                y <= 0xffff,
        ;
        let tiles = self.od(map, 0x2e);
        let at = ptr_add(tiles, (index as i32) * 2);
        let old = self.mem.rw(at);
        let chip = if chip > 0x1ff {
            old & 0x1ff
        } else {
            chip
        };
        let layer = if layer > 3 {
            (old >> 9) & 3
        } else {
            layer
        };
        proof {
            lemma_word_fields();
        }
        let value = (old & 0xf800) + layer * 512 + chip;
        self.mem.ww(at, value);
    }

    /// `sub_1CEC9(obj, x, y)`: centre a map view on a cell.
    pub fn map_center_view(&mut self, obj: FarPtr, x: u16, y: u16)
        requires
            old(self).mem_ok(),
        ensures
            final(self).mem_ok(),
            final(self).memory() == center_view_spec(old(self).memory(), obj, x, y),
            final(self).screen() == old(self).screen(),
    {
        if obj == 0 {
            return;
        }
        let map = self.od(obj, 0x4e);
        if map == 0 {
            return;
        }
        let cols = self.osw(obj, 0x12) / 2;
        let rows = self.osw(obj, 0x14) / 16;
        let mut cx = (x as i16) as i32 - cols / 2;
        let mut cy = (y as i16) as i32 - rows / 2;
        let mw = self.osw(map, 0);
        let mh = self.osw(map, 2);
        if cx + cols > mw {
            cx = mw - cols;
        }
        if mh < cy + rows {
            cy = mh - rows;
        }
        if cx < 0 {
            cx = 0;
        }
        if cy < 0 {
            cy = 0;
        }
        self.set_osw(obj, 0x22, cx);
        self.set_osw(obj, 0x24, cy);
    }

    /// The map cell buffer `which`.
    fn cell_buffer(&self, which: u16) -> (res: FarPtr)
        requires
            self.mem_ok(),
        ensures
            res == cell_buffer_spec(self.memory(), which),
    {
        proof {
            lemma_word_fields();
        }
        self.mem.d(MAP_CELLS + (which & 1) * 4)
    }

    /// `sub_1D2D9`: switch cell buffers and clear the new one.
    pub fn cell_buffers_swap(&mut self)
        requires
            old(self).mem_ok(),
        ensures
            final(self).mem_ok(),
            final(self).memory() == buffers_swap_spec(old(self).memory()),
            final(self).screen() == old(self).screen(),
    {
        let sel = self.w(MAP_CELL_SEL) ^ 1;
        self.set_w(MAP_CELL_SEL, sel);
        let buf = self.cell_buffer(sel);
        self.mem.memset(buf, 0, 10000);
    }

    /// `sub_1CBFD`: free an object's map.
    pub fn free_obj_map(&mut self, obj: FarPtr)
        requires
            old(self).mem_ok(),
        ensures
            final(self).mem_ok(),
            final(self).memory() == free_obj_map_spec(old(self).memory(), obj),
            final(self).screen() == old(self).screen(),
    {
        if obj == 0 {
            return;
        }
        let map = self.od(obj, 0x4e);
        if map == 0 {
            return;
        }
        let entities = self.od(map, 0x32);
        self.mem.free(entities);
        let triggers = self.od(map, 0x36);
        self.mem.free(triggers);
        let tiles = self.od(map, 0x2e);
        if tiles != self.mem.d(SHARED_TILES) {
            self.mem.free(tiles);
        }
        self.mem.free(map);
        self.set_od(obj, 0x4e, 0);
    }

    /// FC / FD: set trigger byte +8 for every matching trigger id.
    pub fn map_set_trigger(&mut self, id: u16, trigger: u16, value: u8)
        requires
            old(self).mem_ok(),
        ensures
            final(self).mem_ok(),
            final(self).memory() == set_trigger_spec(old(self).memory(), id, trigger, value),
            final(self).screen() == old(self).screen(),
    {
        let obj = self.obj_ptr(id);
        if obj == 0 {
            return;
        }
        let map = self.od(obj, 0x4e);
        if map == 0 {
            return;
        }
        let triggers = self.od(map, 0x36);
        let count = self.ob(map, 0x28) as i32;
        let mut i: i32 = 0;
        while i < count
            invariant
                self.mem_ok(),
                0 <= i <= count <= 255,
                self.memory() == set_triggers(old(self).memory(), triggers, trigger, value, i as int),
                self.screen() == old(self).screen(),
            decreases count - i,
        {
            let t = ptr_add(triggers, i * 10);
            if self.ow(t, 4) == trigger {
                self.set_ob(t, 8, value);
            }
            i = i + 1;
        }
    }

    /// The first entity from `start` among `count` at `list` with id `id`.
    fn find_in(&self, list: FarPtr, count: i32, id: u16) -> (res: FarPtr)
        requires
            self.mem_ok(),
            count <= 0x10000,
        ensures
            res == find_from(self.memory(), list, count as int, id, 0),
    {
        let mut i: i32 = 0;
        while i < count
            invariant
                self.mem_ok(),
                0 <= i,
                count <= 0x10000,
                find_from(self.memory(), list, count as int, id, 0) == find_from(self.memory(), list, count as int, id, i as int),
            decreases count - i,
        {
            let e = ptr_add(list, i * ENTITY_SIZE);
            if self.ow(e, 6) == id {
                return e;
            }
            i = i + 1;
        }
        0
    }

    /// `sub_1D0D0(id, map)`: find an entity by id.
    pub fn find_entity(&self, id: u16, map: FarPtr) -> (res: FarPtr)
        requires
            self.mem_ok(),
        ensures
            res == find_entity_spec(self.memory(), id, map),
    {
        reveal(find_entity_spec);
        let g = self.find_in(self.mem.d(ENTITIES), self.w(ENTITY_COUNT) as i32, id);
        if g != 0 {
            return g;
        }
        if map != 0 {
            return self.find_in(self.od(map, 0x32), self.ob(map, 0x26) as i32, id);
        }
        0
    }

    /// `sub_1BC6E`: F4 entity query. Returns (x, y, map id, direction,
    /// where) with where = 0 global list, 1 map, 2 not found.
    pub fn entity_query(&self, id: u16) -> (res: (u16, u16, u16, u16, u16))
        requires
            self.mem_ok(),
        ensures
            res == entity_query_spec(self.memory(), id),
    {
        reveal(entity_query_spec);
        let ghost m = self.memory();
        let e = if id == 1000 {
            self.mem.d(PLAYER)
        } else {
            self.find_entity(id, 0)
        };
        if e != 0 {
            return (self.ow(e, 0), self.ow(e, 2), self.ob(e, 0x0c) as u16, (self.ob(e, 0x0e) & 0xf) as u16, 0);
        }
        let count = self.obj_count();
        let mut index: i32 = 0;
        while index < count
            invariant
                self.mem_ok(),
                m == self.memory(),
                0 <= index,
                count == obj_count_spec(m.ds),
                (if id == 1000 { ds_d(m, PLAYER) } else { find_entity_spec(m, id, 0) }) == 0,
                view_entity_from(m, id, 0) == view_entity_from(m, id, index as int),
            decreases count - index,
        {
            let obj = self.obj_at(index);
            if self.ow(obj, 0x28) & FLAG_VISIBLE != 0 {
                let map = self.od(obj, 0x4e);
                if map != 0 {
                    let e = self.find_entity(id, map);
                    if e != 0 {
                        proof {
                            reveal(entity_query_spec);
                        }
                        return (self.ow(e, 0), self.ow(e, 2), self.ob(e, 0x0c) as u16, (self.ob(e, 0x0e) & 0xf) as u16, 1);
                    }
                }
            }
            index = index + 1;
        }
        (0, 0, 0, 0, 2)
    }
}


impl Engine {
    /// `sub_1D671`: tile word and decoded attributes.  The index is taken
    /// modulo 2^16, as the tile offset wraps inside its segment.
    #[verifier::spinoff_prover]
    fn tile_info(&mut self, map: FarPtr, x: i32, y: i32) -> (res: u16)
        requires
            old(self).mem_ok(),
        ensures
            final(self).mem_ok(),
            (final(self).memory(), res) == tile_info_spec(old(self).memory(), map, x as int, y as int),
            final(self).screen() == old(self).screen(),
    {
        let ghost m = self.memory();
        let w = (self.ow(map, 0) as i16) as i64;
        let yy = (y as i16) as i64;
        assert(-0x8000 * 0x8000 <= yy * w <= 0x8000 * 0x8000) by (nonlinear_arith)
            requires
                -0x8000 <= yy <= 0x7fff,
                -0x8000 <= w <= 0x7fff,
        ;
        let index: i64 = yy * w + x as i64;
        let r: i64 = if index >= 0 {
            index % 65536
        } else {
            (65536 - (0 - index) % 65536) % 65536
        };
        assert(r as int == (index as int) % 65536 && 0 <= r < 65536) by (nonlinear_arith)
            requires
                index >= 0 ==> r as int == (index as int) % 65536,
                index < 0 ==> r as int == (65536 - (-(index as int)) % 65536) % 65536,
        ;
        self.set_w(TILE_INDEX, r as u16);
        let ghost m1 = self.memory();
        let tiles = self.od(map, 0x2e);
        proof {
            assert(((2 * r) - 2 * index) % 65536 == 0) by (nonlinear_arith)
                requires
                    r as int == (index as int) % 65536,
            ;
            let off = super::mem::off_spec(tiles) as int;
            assert((off + 2 * r) % 65536 == (off + 2 * index) % 65536) by (nonlinear_arith)
                requires
                    ((2 * r) - 2 * index) % 65536 == 0,
            ;
        }
        let tile = self.mem.rw(ptr_add(tiles, (2 * r) as i32));
        self.set_w(TILE_CHIP, tile & 0x21ff);
        self.set_w(TILE_LAYER, (tile >> 9) & 3);
        self.set_w(TILE_OCCUPIED, tile & 0x1000);
        self.set_w(TILE_TRIGGER, tile & 0x800);
        tile
    }
}

impl Engine {
    /// `sub_1D146(x, y, map, start, global)`: find an entity whose 2x2
    /// footprint covers a cell.
    #[verifier::rlimit(60)]
    #[verifier::spinoff_prover]
    fn entity_at(&mut self, x: i32, y: i32, map: FarPtr, start: i32, global: bool) -> (res: i32)
        requires
            old(self).mem_ok(),
            0 <= start,
            -0x7fff_0000 <= x <= 0x7fff_0000,
            -0x7fff_0000 <= y <= 0x7fff_0000,
        ensures
            final(self).mem_ok(),
            (final(self).memory(), res as int) == entity_at_spec(old(self).memory(), x as int, y as int, map, start as int, global),
            final(self).screen() == old(self).screen(),
    {
        self.mem.set_d(HIT_ENTITY, 0);
        self.set_w(HIT_TYPE, 0);
        let list: FarPtr;
        let count: i32;
        if global {
            list = self.mem.d(ENTITIES);
            count = self.w(ENTITY_COUNT) as i32;
            if list == 0 {
                return -1;
            }
        } else {
            list = self.od(map, 0x32);
            count = self.ob(map, 0x26) as i32;
        }
        let map_id = self.ob(map, 0x27);
        let ghost m0 = self.memory();
        let mut dx = start;
        while dx < count
            invariant
                self.mem_ok(),
                0 <= start <= dx,
                0 <= count <= 0xffff,
                -0x7fff_0000 <= x <= 0x7fff_0000,
                -0x7fff_0000 <= y <= 0x7fff_0000,
                m0 == put_w(put_d(old(self).memory(), HIT_ENTITY, 0), HIT_TYPE, 0),
                !(global && ds_d(m0, ENTITIES) == 0),
                list == (if global { ds_d(m0, ENTITIES) } else { fd(m0, map, 0x32) }),
                count as int == (if global { ds_w(m0, ENTITY_COUNT) as int } else { fb(m0, map, 0x26) as int }),
                map_id == fb(m0, map, 0x27),
                scan_from(m0, list, count as int, map_id, x as int, y as int, start as int)
                    == scan_from(self.memory(), list, count as int, map_id, x as int, y as int, dx as int),
                self.screen() == old(self).screen(),
            decreases count - dx,
        {
            let ghost before = self.memory();
            let e = ptr_add(list, dx * ENTITY_SIZE);
            self.mem.set_d(HIT_ENTITY, e);
            assert(self.memory() == put_d(before, HIT_ENTITY, e));
            assert(e == entity_ptr(list, dx as int));
            let kind = self.entity_probe(e, map_id, x, y);
            proof {
                lemma_scan_step(before, list, count as int, map_id, x as int, y as int, dx as int);
            }
            if kind != 0 {
                return dx;
            }
            dx = dx + 1;
        }
        proof {
            lemma_scan_step(self.memory(), list, count as int, map_id, x as int, y as int, dx as int);
        }
        self.mem.set_d(HIT_ENTITY, 0);
        -1
    }

    /// Whether entity `e` covers (x, y) on the map, recording the hit.
    #[verifier::rlimit(60)]
    #[verifier::spinoff_prover]
    fn entity_probe(&mut self, e: FarPtr, map_id: u8, x: i32, y: i32) -> (res: u16)
        requires
            old(self).mem_ok(),
            -0x7fff_0000 <= x <= 0x7fff_0000,
            -0x7fff_0000 <= y <= 0x7fff_0000,
        ensures
            final(self).mem_ok(),
            (final(self).memory(), res) == probe_spec(old(self).memory(), e, map_id, x as int, y as int),
            final(self).screen() == old(self).screen(),
    {
        if self.ob(e, 0x0c) != map_id {
            return 0;
        }
        let ex = self.osw(e, 0);
        let ey = self.osw(e, 2);
        let sprite = self.ow(e, 4);
        let kind: u16 = if ex == x && ey == y {
            3
        } else if ex == x && ey - 1 == y {
            1
        } else if ex + 1 == x && ey == y {
            4
        } else if ex + 1 == x && ey - 1 == y {
            2
        } else {
            0
        };
        if kind == 0 {
            return 0;
        }
        let s = if kind == 1 {
            sprite.wrapping_sub(0x20)
        } else if kind == 4 {
            sprite.wrapping_add(1)
        } else if kind == 2 {
            sprite.wrapping_sub(0x1f)
        } else {
            sprite
        };
        self.set_w(HIT_TYPE, kind);
        let dir = ((self.ob(e, 0x0e) & 0xf) as u16) * 4;
        let v = s.wrapping_add(dir);
        assert(v == wrap16(hit_sprite(sprite, kind) + dir as int));
        self.set_w(HIT_SPRITE, v);
        kind
    }

    /// The first of `count` triggers at (x, y), or -1.
    fn trigger_index(&self, triggers: FarPtr, count: i32, x: i32, y: i32) -> (res: i32)
        requires
            self.mem_ok(),
            0 <= count <= 255,
        ensures
            res as int == trigger_from(self.memory(), triggers, count as int, x as int, y as int, 0),
            -1 <= res < count,
    {
        let mut i: i32 = 0;
        while i < count
            invariant
                self.mem_ok(),
                0 <= i <= count <= 255,
                trigger_from(self.memory(), triggers, count as int, x as int, y as int, 0)
                    == trigger_from(self.memory(), triggers, count as int, x as int, y as int, i as int),
            decreases count - i,
        {
            let t = ptr_add(triggers, i * 10);
            if (self.ow(t, 0) as i16) as i32 == x && (self.ow(t, 2) as i16) as i32 == y {
                return i;
            }
            i = i + 1;
        }
        -1
    }

    /// `sub_1D279`: trigger id at a cell (0 = none).
    fn trigger_at(&mut self, x: i32, y: i32, map: FarPtr) -> (res: u16)
        requires
            old(self).mem_ok(),
        ensures
            final(self).mem_ok(),
            (final(self).memory(), res) == trigger_at_spec(old(self).memory(), x as int, y as int, map),
            final(self).screen() == old(self).screen(),
    {
        let triggers = self.od(map, 0x36);
        let count = self.ob(map, 0x28) as i32;
        let i = self.trigger_index(triggers, count, x, y);
        let (id, hit) = if i == -1 {
            (0u16, 0u32)
        } else {
            let t = ptr_add(triggers, i * 10);
            (self.ow(t, 4), t)
        };
        self.mem.set_d(HIT_TRIGGER, if id == 0 { 0 } else { hit });
        id
    }
}


impl Engine {
    /// The bump of `entity` into `other` (see `bump`).
    fn bump_into(&mut self, entity: FarPtr, other: FarPtr)
        requires
            old(self).mem_ok(),
        ensures
            final(self).mem_ok(),
            final(self).memory() == bump(old(self).memory(), entity, other),
            final(self).screen() == old(self).screen(),
    {
        let id = self.ow(other, 6);
        self.set_w(INTERACT_ID, id);
        let ox = self.osw(other, 0);
        let oy = self.osw(other, 2);
        let other_dir = self.ob(other, 0x0e);
        let mut dist = ox - self.osw(entity, 0);
        if dist < 0 {
            dist = -dist;
        }
        let battle = self.w(BATTLE_MODE) == 2;
        let (mine, theirs): (u8, u8) = if self.osw(entity, 2) <= oy && dist < 2 {
            (1, 0)
        } else if self.osw(entity, 2) > oy && dist < 2 {
            (0, 1)
        } else if self.osw(entity, 0) <= ox {
            (3, 2)
        } else {
            (2, 3)
        };
        let cur = self.ob(entity, 0x0e);
        proof {
            lemma_byte_fields();
        }
        self.set_ob(entity, 0x0e, (cur & 0xf0) + mine);
        if !battle {
            self.set_ob(other, 0x0e, (other_dir & 0xf0) + theirs);
        }
    }

    /// The occupant scan of one list (see `occupant_scan`).
    fn occupants(&mut self, x: i32, y: i32, entity: FarPtr, map: FarPtr, global: bool) -> (res: bool)
        requires
            old(self).mem_ok(),
            -0x7fff_0000 <= x <= 0x7fff_0000,
            -0x7fff_0000 <= y <= 0x7fff_0000,
        ensures
            final(self).mem_ok(),
            (final(self).memory(), res) == occupant_scan(old(self).memory(), x as int, y as int, entity, map, global, 0),
            final(self).screen() == old(self).screen(),
    {
        let mut start: i32 = 0;
        loop
            invariant
                self.mem_ok(),
                0 <= start <= 0x10000,
                -0x7fff_0000 <= x <= 0x7fff_0000,
                -0x7fff_0000 <= y <= 0x7fff_0000,
                occupant_scan(old(self).memory(), x as int, y as int, entity, map, global, 0)
                    == occupant_scan(self.memory(), x as int, y as int, entity, map, global, start as int),
                self.screen() == old(self).screen(),
            decreases 0x10000 - start,
        {
            let ghost before = self.memory();
            let found = self.entity_at(x, y, map, start, global);
            proof {
                lemma_entity_at_range(before, x as int, y as int, map, start as int, global);
            }
            let hit = found + 1;
            if hit <= 0 {
                return false;
            }
            let other = self.mem.d(HIT_ENTITY);
            if self.w(HIT_TYPE) > 2 && self.ow(other, 6) != self.ow(entity, 6) {
                self.bump_into(entity, other);
                return true;
            }
            start = hit;
        }
    }

    /// One cell of `map_collide` (see `collide_cell`).
    fn collide_cell_exec(&mut self, x: i32, y: i32, entity: FarPtr, map: FarPtr) -> (res: u16)
        requires
            old(self).mem_ok(),
            -0x7fff_0000 <= x <= 0x7fff_0000,
            -0x7fff_0000 <= y <= 0x7fff_0000,
        ensures
            final(self).mem_ok(),
            (final(self).memory(), res) == collide_cell(old(self).memory(), x as int, y as int, entity, map),
            final(self).screen() == old(self).screen(),
    {
        self.tile_info(map, x, y);
        let height = (self.ob(entity, 0x0e) >> 4) as u16;
        if height < self.w(TILE_LAYER) {
            return 4;
        }
        if self.w(TILE_OCCUPIED) != 0 {
            if self.occupants(x, y, entity, map, false) {
                return 5;
            }
            if self.occupants(x, y, entity, map, true) {
                return 5;
            }
        }
        if self.w(TILE_TRIGGER) != 0 {
            let id = self.trigger_at(x, y, map);
            self.set_w(INTERACT_ID, id);
            let t = self.mem.d(HIT_TRIGGER);
            if t != 0 && self.ob(t, 8) == 0 {
                return 6;
            }
        }
        0
    }

    /// `sub_1C356(x, y, entity, map)`: 0 free, 4 blocked, 5 bumped into an
    /// entity, 6 stepped on an active trigger.
    fn map_collide(&mut self, x: i32, y: i32, entity: FarPtr, map: FarPtr) -> (res: u16)
        requires
            old(self).mem_ok(),
            -0x7fff_0000 <= x < 0x7fff_0000,
            -0x7fff_0000 <= y <= 0x7fff_0000,
        ensures
            final(self).mem_ok(),
            (final(self).memory(), res) == collide_spec(old(self).memory(), x as int, y as int, entity, map),
            final(self).screen() == old(self).screen(),
    {
        let r = self.collide_cell_exec(x, y, entity, map);
        if r != 0 {
            return r;
        }
        self.collide_cell_exec(x + 1, y, entity, map)
    }
}

/// What `player_move` does first.
pub enum PlayerMove {
    /// Nothing to move in, or the move was made with this code (see
    /// `player_step_spec`).
    Done(u16),
    /// The view is not the top window: it is to be raised, then the step
    /// taken with `player_step`.
    Raise { id: u16, obj: FarPtr, map: FarPtr },
}

impl Engine {
    fn face_exec(&mut self, entity: FarPtr, dir: u8)
        requires
            old(self).mem_ok(),
            dir <= 3,
        ensures
            final(self).mem_ok(),
            final(self).memory() == face(old(self).memory(), entity, dir),
            final(self).screen() == old(self).screen(),
    {
        let cur = self.ob(entity, 0x0e);
        proof {
            lemma_byte_fields();
        }
        self.set_ob(entity, 0x0e, (cur & 0xf0) + dir);
    }

    fn mouse_target_exec(&mut self)
        requires
            old(self).mem_ok(),
        ensures
            final(self).mem_ok(),
            final(self).memory() == mouse_target(old(self).memory()),
            final(self).screen() == old(self).screen(),
    {
        if self.w(LEFT_PRESSES) == 2 {
            let x = (self.sw(LEFT_PRESS_X) as i32) / 8;
            self.set_w(MOVE_TARGET_X, x as u16);
            let y = self.w(LEFT_PRESS_Y);
            self.set_w(MOVE_TARGET_Y, y);
            self.set_w(W_27144, 1);
        } else if self.w(LEFT_HELD) != 0 {
            let x = (self.sw(MOUSE_X) as i32) / 8;
            self.set_w(MOVE_TARGET_X, x as u16);
            let y = self.w(MOUSE_Y);
            self.set_w(MOVE_TARGET_Y, y);
            self.set_w(W_27144, 1);
        }
    }

    #[verifier::spinoff_prover]
    fn mouse_step_exec(&mut self, entity: FarPtr, obj: FarPtr, si: i32, di: i32) -> (res: Option<(i32, i32)>)
        requires
            old(self).mem_ok(),
            -0x8000 <= si <= 0x7fff,
            -0x8000 <= di <= 0x7fff,
        ensures
            final(self).mem_ok(),
            final(self).memory() == mouse_step(old(self).memory(), entity, obj, si as int, di as int).0,
            match res {
                Some(p) => mouse_step(old(self).memory(), entity, obj, si as int, di as int).1 == Some((p.0 as int, p.1 as int)),
                None => mouse_step(old(self).memory(), entity, obj, si as int, di as int).1 is None,
            },
            res matches Some(p) ==> -0x8001 <= p.0 <= 0x8000 && -0x8001 <= p.1 <= 0x8000,
            final(self).screen() == old(self).screen(),
    {
        reveal(mouse_step);
        self.mouse_target_exec();
        if self.w(W_27144) == 0 || self.w(LEFT_HELD) == 0 {
            return None;
        }
        let tx = self.sw(MOVE_TARGET_X) as i32;
        let ty = self.sw(MOVE_TARGET_Y) as i32;
        if !(self.osw(obj, 0x0a) <= tx && self.osw(obj, 0x0e) > tx && self.osw(obj, 0x0c) <= ty && self.osw(obj, 0x10) > ty) {
            self.set_w(W_27144, 0);
            return None;
        }
        let cx = self.osw(obj, 0x22) + (tx - self.osw(obj, 0x0a)) / 2;
        let cy = self.osw(obj, 0x24) + (ty - self.osw(obj, 0x0c)) / 16;
        let mut si = si;
        let mut di = di;
        let mut dir: i32 = -1;
        if self.w(MOVE_PREF) != 0 {
            if di - 1 > cy {
                di = di + 1;
                dir = 1;
            }
            if di < cy {
                di = di - 1;
                dir = 0;
            }
            if si > cx {
                si = si + 1;
                dir = 3;
            }
            if si + 1 < cx {
                si = si - 1;
                dir = 2;
            }
        } else {
            if di < cy {
                di = di + 1;
                dir = 1;
            }
            if di - 1 > cy {
                di = di - 1;
                dir = 0;
            }
            if si + 1 < cx {
                si = si + 1;
                dir = 3;
            }
            if si > cx {
                si = si - 1;
                dir = 2;
            }
        }
        if dir != -1 {
            self.face_exec(entity, dir as u8);
        } else {
            self.set_w(W_27144, 0);
        }
        Some((si, di))
    }
}

impl Engine {
    #[verifier::spinoff_prover]
    fn slide_exec(&mut self, entity: FarPtr, map: FarPtr, si: i32, di: i32) -> (res: (u16, i32, i32))
        requires
            old(self).mem_ok(),
            -0x8001 <= si <= 0x8000,
            -0x8001 <= di <= 0x8000,
        ensures
            final(self).mem_ok(),
            (final(self).memory(), res.0, res.1 as int, res.2 as int) == slide(old(self).memory(), entity, map, si as int, di as int),
            -0x8001 <= res.1 <= 0x8000,
            -0x8001 <= res.2 <= 0x8000,
            final(self).screen() == old(self).screen(),
    {
        reveal(slide);
        let mut result = self.map_collide(si, di, entity, map);
        if result != 4 {
            return (result, si, di);
        }
        let mut si = si;
        let mut di = di;
        let ey = self.osw(entity, 2);
        result = self.map_collide(si, ey, entity, map);
        if result == 0 || result == 6 {
            di = ey;
        }
        if result == 4 {
            let ex = self.osw(entity, 0);
            result = self.map_collide(ex, di, entity, map);
            if result == 0 || result == 6 {
                si = ex;
            }
            if result == 4 {
                si = ex;
                di = self.osw(entity, 2);
            }
        }
        let mut dir: i32 = -1;
        if self.osw(entity, 2) < di {
            dir = 1;
        }
        if self.osw(entity, 2) > di {
            dir = 0;
        }
        if self.osw(entity, 0) < si {
            dir = 3;
        }
        if self.osw(entity, 0) > si {
            dir = 2;
        }
        if dir != -1 {
            self.face_exec(entity, dir as u8);
        }
        (result, si, di)
    }

    #[verifier::spinoff_prover]
    fn commit_exec(&mut self, entity: FarPtr, obj: FarPtr, map: FarPtr, si: i32, di: i32)
        requires
            old(self).mem_ok(),
            -0x8001 <= si <= 0x8000,
            -0x8001 <= di <= 0x8000,
        ensures
            final(self).mem_ok(),
            final(self).memory() == commit(old(self).memory(), entity, obj, map, si as int, di as int),
            final(self).screen() == old(self).screen(),
    {
        reveal(commit);
        self.set_osw(entity, 0, si);
        self.set_osw(entity, 2, di);
        let cols = self.osw(obj, 0x12) / 2;
        let scroll_x = self.osw(obj, 0x22);
        if scroll_x + 0x11 > si {
            if scroll_x > 0 {
                self.set_osw(obj, 0x22, scroll_x - 1);
            }
        } else if scroll_x + cols - 0x11 < si && scroll_x + cols < self.osw(map, 0) {
            self.set_osw(obj, 0x22, scroll_x + 1);
        }
        let rows = self.osw(obj, 0x14) / 16;
        let scroll_y = self.osw(obj, 0x24);
        if scroll_y + 8 > di {
            if scroll_y > 0 {
                self.set_osw(obj, 0x24, scroll_y - 1);
            }
        } else if scroll_y + rows - 8 < di && self.osw(map, 2) > scroll_y + rows {
            self.set_osw(obj, 0x24, scroll_y + 1);
        }
    }

    /// The player's move in view `obj` of `map` once the view is on top:
    /// the step the keys (or the mouse target) ask for, clamped to the map,
    /// checked for collisions with sliding, then made, the view scrolling
    /// to follow.  See `player_step_spec` for the codes.
    #[verifier::rlimit(30)]
    #[verifier::spinoff_prover]
    pub fn player_step(&mut self, entity: FarPtr, obj: FarPtr, map: FarPtr) -> (res: u16)
        requires
            old(self).mem_ok(),
        ensures
            final(self).mem_ok(),
            (final(self).memory(), res) == player_step_spec(old(self).memory(), entity, obj, map),
            final(self).screen() == old(self).screen(),
    {
        let keys = self.direction_keys();
        let si0 = self.osw(entity, 0);
        let di0 = self.osw(entity, 2);
        let target = if keys != 0 {
            let mut si = si0;
            let mut di = di0;
            let mut dir: u8 = 0;
            if keys & 1 != 0 {
                di = di - 1;
                dir = 0;
            }
            if keys & 2 != 0 {
                di = di + 1;
                dir = 1;
            }
            if keys & 4 != 0 {
                si = si - 1;
                dir = 2;
            }
            if keys & 8 != 0 {
                si = si + 1;
                dir = 3;
            }
            self.face_exec(entity, dir);
            Some((si, di))
        } else {
            self.mouse_step_exec(entity, obj, si0, di0)
        };
        let (mut si, mut di) = match target {
            None => {
                return 0;
            },
            Some(t) => t,
        };
        if si < 0 || self.osw(map, 0) <= si {
            si = self.osw(entity, 0);
        }
        if di < 0 || self.osw(map, 2) <= di {
            di = self.osw(entity, 2);
        }
        if self.osw(entity, 0) == si && self.osw(entity, 2) == di {
            self.set_w(W_27144, 0);
            return 3;
        }
        let (result, si, di) = self.slide_exec(entity, map, si, di);
        if result == 5 || result == 4 {
            return result;
        }
        self.commit_exec(entity, obj, map, si, di);
        result
    }

    /// The first view from table index `i` on that the player can move in.
    fn player_view(&self, entity: FarPtr) -> (res: i32)
        requires
            self.mem_ok(),
        ensures
            res as int == player_view_from(self.memory(), entity, 0),
            res == -1 || 0 <= res < obj_count_spec(self.memory().ds),
    {
        let count = self.obj_count();
        let mut index: i32 = 0;
        while index < count
            invariant
                self.mem_ok(),
                0 <= index,
                count == obj_count_spec(self.memory().ds),
                player_view_from(self.memory(), entity, 0) == player_view_from(self.memory(), entity, index as int),
            decreases count - index,
        {
            let obj = self.obj_at(index);
            let map = self.od(obj, 0x4e);
            let f = self.ow(obj, 0x28);
            if f & FLAG_NO_FREE == 0 && map != 0 && self.ob(map, 0x27) == self.ob(entity, 0x0c) && f & FLAG_VISIBLE != 0 {
                return index;
            }
            index = index + 1;
        }
        -1
    }

    /// `sub_1C535(entity)`: player movement from keys or mouse, in the
    /// first visible view of the entity's map.  Without an active map or
    /// such a view nothing happens; a view below the top asks to be raised
    /// first; otherwise the step is taken (`player_step`).
    pub fn player_move(&mut self, entity: FarPtr) -> (res: PlayerMove)
        requires
            old(self).mem_ok(),
        ensures
            final(self).mem_ok(),
            final(self).screen() == old(self).screen(),
            ({
                let m = old(self).memory();
                let i = player_view_from(m, entity, 0);
                let obj = obj_at_spec(m, i);
                if ds_w(m, MAP_ACTIVE) != 1 || i == -1 {
                    res == PlayerMove::Done(0) && final(self).memory() == m
                } else if obj_count_spec(m.ds) - 1 != i {
                    res == (PlayerMove::Raise { id: fb(m, obj, 0x2b) as u16, obj, map: fd(m, obj, 0x4e) })
                        && final(self).memory() == m
                } else {
                    let r = player_step_spec(m, entity, obj, fd(m, obj, 0x4e));
                    res == PlayerMove::Done(r.1) && final(self).memory() == r.0
                }
            }),
    {
        if self.w(MAP_ACTIVE) != 1 {
            return PlayerMove::Done(0);
        }
        let index = self.player_view(entity);
        if index == -1 {
            return PlayerMove::Done(0);
        }
        let obj = self.obj_at(index);
        let map = self.od(obj, 0x4e);
        if self.obj_count() - 1 != index {
            return PlayerMove::Raise { id: self.ob(obj, 0x2b) as u16, obj, map };
        }
        PlayerMove::Done(self.player_step(entity, obj, map))
    }
}

impl Engine {
    /// `sub_17E5F`: I5 — interactive NPC (0xC8..0xD6) next to the player.
    #[verifier::spinoff_prover]
    pub fn nearby_npc(&mut self) -> (res: u16)
        requires
            old(self).mem_ok(),
        ensures
            final(self).mem_ok(),
            (final(self).memory(), res) == nearby_npc_spec(old(self).memory()),
            final(self).screen() == old(self).screen(),
    {
        let player = self.mem.d(PLAYER);
        if player == 0 {
            return 0;
        }
        let map_id = self.ob(player, 0x0c) as u16;
        let px = self.ow(player, 0);
        let py = self.ow(player, 2);
        self.set_w(INTERACT_ID, 0);
        let ghost m1 = self.memory();
        let mut id: u16 = 0xc8;
        while id < 0xd7
            invariant
                self.mem_ok(),
                m1 == self.memory(),
                m1 == put_w(old(self).memory(), INTERACT_ID, 0),
                player == ds_d(old(self).memory(), PLAYER),
                player != 0,
                map_id == fb(old(self).memory(), player, 0x0c) as u16,
                px == fw(old(self).memory(), player, 0),
                py == fw(old(self).memory(), player, 2),
                0xc8 <= id <= 0xd7,
                npc_from(m1, map_id, px, py, 0xc8) == npc_from(m1, map_id, px, py, id as int),
                self.screen() == old(self).screen(),
            decreases 0xd7 - id,
        {
            let q = self.entity_query(id);
            if in_reach(q, map_id, px, py) {
                self.set_w(MAP_EVENT, 5);
                self.set_w(INTERACT_ID, id);
                return 1;
            }
            id = id + 1;
        }
        0
    }

    /// The entity `entity_update` changes (see `update_target`).
    fn update_target_exec(&self, id: u16) -> (res: FarPtr)
        requires
            self.mem_ok(),
        ensures
            res == update_target(self.memory(), id),
    {
        let g = self.find_in(self.mem.d(ENTITIES), self.w(ENTITY_COUNT) as i32, id);
        if g != 0 {
            return g;
        }
        let count = self.obj_count();
        let mut index: i32 = 0;
        while index < count
            invariant
                self.mem_ok(),
                0 <= index,
                count == obj_count_spec(self.memory().ds),
                update_target_from(self.memory(), id, 0) == update_target_from(self.memory(), id, index as int),
                g == 0,
                g == find_from(self.memory(), ds_d(self.memory(), ENTITIES), ds_w(self.memory(), ENTITY_COUNT) as int, id, 0),
            decreases count - index,
        {
            let obj = self.obj_at(index);
            let map = self.od(obj, 0x4e);
            if map != 0 {
                let e = self.find_in(self.od(map, 0x32), self.ob(map, 0x26) as i32, id);
                if e != 0 {
                    return e;
                }
            }
            index = index + 1;
        }
        0
    }

    /// `sub_1BD89(values)`: FA entity update.
    #[verifier::rlimit(60)]
    #[verifier::spinoff_prover]
    pub fn entity_update(&mut self, values: [u16; 5])
        requires
            old(self).mem_ok(),
        ensures
            final(self).mem_ok(),
            final(self).memory() == entity_update_spec(old(self).memory(), values@),
            final(self).screen() == old(self).screen(),
    {
        let e = self.update_target_exec(values[3]);
        if e == 0 {
            return;
        }
        if values[0] != 1000 {
            self.set_ow(e, 0, values[0]);
        }
        if values[1] != 1000 {
            self.set_ow(e, 2, values[1]);
        }
        let v2 = values[2];
        if v2 != 1000 {
            proof {
                lemma_word_fields();
            }
            self.set_ob(e, 0x0c, v2 as u8);
        }
        let cur = self.ob(e, 0x0e);
        let v4 = values[4];
        let low = v4 as u8 & 0x0f;
        proof {
            lemma_byte_fields();
            lemma_word_fields();
        }
        self.set_ob(e, 0x0e, (cur & 0xf0) + low);
        let frame = self.ow(e, 4) ^ 2;
        self.set_ow(e, 4, frame);
        self.set_w(FRAME_COUNTER, 0);
        self.set_w(W_27144, 0);
    }

    /// `sub_1C1ED`: FH — map cell under a screen position of the top view:
    /// (view id, cell x, cell y, entity id, trigger id), all 0 off a view.
    #[verifier::spinoff_prover]
    pub fn map_probe(&mut self, x: u16, y: u16) -> (res: (u16, u16, u16, u16, u16))
        requires
            old(self).mem_ok(),
        ensures
            final(self).mem_ok(),
            (final(self).memory(), res) == map_probe_spec(old(self).memory(), x, y),
            final(self).screen() == old(self).screen(),
    {
        let count = self.obj_count();
        if count == 0 {
            return (0, 0, 0, 0, 0);
        }
        let obj = self.obj_at(count - 1);
        let col = ((x as i16) as i32) / 8;
        let yy = (y as i16) as i32;
        if !(self.osw(obj, 0x0a) <= col && self.osw(obj, 0x0e) > col && self.osw(obj, 0x0c) <= yy && self.osw(obj, 0x10) > yy) {
            return (0, 0, 0, 0, 0);
        }
        let cx = self.osw(obj, 0x22) + (col - self.osw(obj, 0x0a)) / 2;
        let cy = self.osw(obj, 0x24) + (yy - self.osw(obj, 0x0c)) / 16;
        let mut entity: u16 = 0;
        let mut trigger: u16 = 0;
        let map = self.od(obj, 0x4e);
        if map != 0 {
            if self.entity_at(cx, cy, map, 0, false) != -1 {
                entity = self.ow(self.mem.d(HIT_ENTITY), 6);
            }
            if self.entity_at(cx, cy, map, 0, true) != -1 {
                entity = self.ow(self.mem.d(HIT_ENTITY), 6);
            }
            trigger = self.trigger_at(cx, cy, map);
        }
        (self.ob(obj, 0x2b) as u16, cx as u16, cy as u16, entity, trigger)
    }
}

fn in_reach(q: (u16, u16, u16, u16, u16), map_id: u16, px: u16, py: u16) -> (res: bool)
    ensures
        res == npc_in_reach(q, map_id, px, py),
{
    let (x, y, m, _dir, place) = q;
    place == 1 && m == map_id && py.wrapping_sub(2) <= y && py.wrapping_add(1) >= y && px.wrapping_sub(1) <= x
        && px.wrapping_add(2) >= x
}
} // verus!
