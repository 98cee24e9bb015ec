//! Window objects (seg005, seg006, seg016).
//!
//! Objects are 0x62-byte records in a fixed pool; `dword_23B72` is an array
//! of 70 far pointers ordered back-to-front and `word_2901C` counts the live
//! entries.  Two 40x25 "cell owner" maps record which object owns each
//! 16x16 cell.
//!
//! Record layout (offsets):
//! `+00` content draw routine, `+04` second draw routine, `+08` kind word,
//! `+0A/+0C/+0E/+10` content rectangle (byte columns / lines),
//! `+12/+14` content size, `+16..+1C` size limits, `+1E/+20` text origin,
//! `+22/+24` text cursor or map scroll, `+26` menu state, `+28` flags,
//! `+2A` frame chip base, `+2B` id, `+2C` title style, `+2D` frame gadgets,
//! `+2E/+32/+36` text buffer / page start / page end, `+3A` name,
//! `+4E` map, `+52` menu items, `+56` image buffer, `+5A` chip buffer.
use vstd::prelude::*;

use super::ds::{CELL_MAPS, CELL_MAP_SEL, FORCE_REDRAW, OBJ_COUNT, OBJ_TABLE};
use super::gfx::cell_put_pages;
use super::vram::Vram;
use super::mem::{
    add_spec, ds_word, far_spec, ptr_add, read_dword, read_spec, read_word, set_ds_word, write_dword, write_spec,
    write_word, FarPtr, DS_SEG,
};
use super::Engine;

verus! {

pub const OBJ_SIZE: usize = 0x62;
pub const MAX_OBJECTS: i32 = 70;

/// Object flag bits (`+28`).
pub const FLAG_VISIBLE: u16 = 0x01;
pub const FLAG_HIDDEN_DRAW: u16 = 0x02;
pub const FLAG_OWN_IMAGE: u16 = 0x04;
pub const FLAG_NO_FREE: u16 = 0x08;
pub const FLAG_OWN_TEXT: u16 = 0x10;
pub const FLAG_FRAMELESS: u16 = 0x20;
pub const FLAG_RESIZABLE: u16 = 0x40;
pub const FLAG_FREE_POSITION: u16 = 0x80;
pub const FLAG_MENU_ACTIVE: u16 = 0x100;
pub const FLAG_INSET_HIT: u16 = 0x200;

/// Content routines stored in `+00` (UK2.EXE stores far code pointers).
pub const CONTENT_CHIP_VIEW: u32 = 0xF000_0001;
pub const CONTENT_MAP_VIEW: u32 = 0xF000_0002;
pub const CONTENT_IMAGE: u32 = 0xF000_0003;
pub const CONTENT_MENU: u32 = 0xF000_0004;

/// The live object count.
pub open spec fn obj_count_spec(ds: Seq<u8>) -> int {
    ds_word(ds, OBJ_COUNT) as i16 as int
}

impl Engine {
    // ---- record access --------------------------------------------------

    pub fn ow(&self, obj: FarPtr, off: i32) -> (res: u16)
        requires
            self.mem_ok(),
        ensures
            res == read_word(self.memory(), add_spec(obj, off as int)),
    {
        self.mem.rw(ptr_add(obj, off))
    }

    pub fn osw(&self, obj: FarPtr, off: i32) -> (res: i32)
        requires
            self.mem_ok(),
        ensures
            res == read_word(self.memory(), add_spec(obj, off as int)) as i16 as i32,
    {
        (self.mem.rw(ptr_add(obj, off)) as i16) as i32
    }

    pub fn set_ow(&mut self, obj: FarPtr, off: i32, value: u16)
        requires
            old(self).mem_ok(),
        ensures
            final(self).mem_ok(),
            final(self).memory() == write_word(old(self).memory(), add_spec(obj, off as int), value),
            final(self).screen() == old(self).screen(),
    {
        self.mem.ww(ptr_add(obj, off), value);
    }

    pub fn set_osw(&mut self, obj: FarPtr, off: i32, value: i32)
        requires
            old(self).mem_ok(),
        ensures
            final(self).mem_ok(),
            final(self).memory() == write_word(old(self).memory(), add_spec(obj, off as int), value as u16),
            final(self).screen() == old(self).screen(),
    {
        self.mem.ww(ptr_add(obj, off), value as u16);
    }

    pub fn ob(&self, obj: FarPtr, off: i32) -> (res: u8)
        requires
            self.mem_ok(),
        ensures
            res == read_spec(self.memory(), add_spec(obj, off as int)),
    {
        self.mem.rb(ptr_add(obj, off))
    }

    pub fn set_ob(&mut self, obj: FarPtr, off: i32, value: u8)
        requires
            old(self).mem_ok(),
        ensures
            final(self).mem_ok(),
            final(self).memory() == write_spec(old(self).memory(), add_spec(obj, off as int), value),
            final(self).screen() == old(self).screen(),
    {
        self.mem.wb(ptr_add(obj, off), value);
    }

    pub fn od(&self, obj: FarPtr, off: i32) -> (res: FarPtr)
        requires
            self.mem_ok(),
        ensures
            res == read_dword(self.memory(), add_spec(obj, off as int)),
    {
        self.mem.rd(ptr_add(obj, off))
    }

    pub fn set_od(&mut self, obj: FarPtr, off: i32, value: FarPtr)
        requires
            old(self).mem_ok(),
        ensures
            final(self).mem_ok(),
            final(self).memory() == write_dword(old(self).memory(), add_spec(obj, off as int), value),
            final(self).screen() == old(self).screen(),
    {
        self.mem.wd(ptr_add(obj, off), value);
    }

    pub fn obj_count(&self) -> (res: i32)
        requires
            self.mem_ok(),
        ensures
            res == obj_count_spec(self.memory().ds),
    {
        self.mem.sw(OBJ_COUNT) as i32
    }

    /// Entry `index` of the object table.
    pub fn obj_at(&self, index: i32) -> (res: FarPtr)
        requires
            self.mem_ok(),
            -0x2000_0000 <= index < 0x2000_0000,
        ensures
            res == obj_at_spec(self.memory(), index as int),
    {
        let table = self.mem.d(OBJ_TABLE);
        self.mem.rd(ptr_add(table, index * 4))
    }

    /// `sub_1E70B`: table index of an object id, or -1.
    pub fn obj_index(&self, id: u16) -> (res: i32)
        requires
            self.mem_ok(),
        ensures
            res == obj_index_from(self.memory(), id, 0),
    {
        let count = self.obj_count();
        let mut index: i32 = 0;
        while index < count
            invariant
                self.mem_ok(),
                count == obj_count_spec(self.memory().ds),
                0 <= index,
                index <= count || index == 0,
                obj_index_from(self.memory(), id, 0) == obj_index_from(self.memory(), id, index as int),
            decreases count - index,
        {
            if self.ob(self.obj_at(index), 0x2b) as u16 == id {
                return index;
            }
            index = index + 1;
        }
        -1
    }

    /// `sub_1E73F`: the record of an object id, or null.
    pub fn obj_ptr(&self, id: u16) -> (res: FarPtr)
        requires
            self.mem_ok(),
        ensures
            res == if obj_index_from(self.memory(), id, 0) == -1 {
                0
            } else {
                obj_at_spec(self.memory(), obj_index_from(self.memory(), id, 0))
            },
    {
        let index = self.obj_index(id);
        if index == -1 {
            0
        } else {
            proof {
                lemma_obj_index_range(self.memory(), id, 0);
            }
            self.obj_at(index)
        }
    }

    /// `sub_1F505`: visible object at `index` (negative = topmost).
    pub fn obj_active(&self, index: &mut i32) -> (res: FarPtr)
        requires
            self.mem_ok(),
            *old(index) < 0x2000_0000,
        ensures
            ({
                let count = obj_count_spec(self.memory().ds);
                let i = if *old(index) < 0 {
                    count - 1
                } else {
                    *old(index) as int
                };
                &&& count == 0 ==> res == 0 && *final(index) == *old(index)
                &&& count != 0 ==> *final(index) == i
                &&& count != 0 && i >= count ==> res == 0
                &&& count != 0 && i < count ==> res == if read_word(
                    self.memory(),
                    add_spec(obj_at_spec(self.memory(), i), 0x28),
                ) & 1 == 0 {
                    0
                } else {
                    obj_at_spec(self.memory(), i)
                }
            }),
    {
        let count = self.obj_count();
        if count == 0 {
            return 0;
        }
        if *index < 0 {
            *index = count - 1;
        }
        if *index >= count {
            return 0;
        }
        let obj = self.obj_at(*index);
        if self.ow(obj, 0x28) & FLAG_VISIBLE == 0 {
            return 0;
        }
        obj
    }
}

/// Entry `index` of the object table (a far pointer array at `dword_23B72`).
pub open spec fn obj_at_spec(m: super::mem::MemView, index: int) -> u32 {
    read_dword(m, add_spec(read_dword(m, far_spec(DS_SEG, OBJ_TABLE)), index * 4))
}

/// The first table index from `i` on whose object has id `id`, or -1.
pub open spec fn obj_index_from(m: super::mem::MemView, id: u16, i: int) -> int
    decreases obj_count_spec(m.ds) - i,
{
    if i < 0 || i >= obj_count_spec(m.ds) {
        -1
    } else if read_spec(m, add_spec(obj_at_spec(m, i), 0x2b)) as u16 == id {
        i
    } else {
        obj_index_from(m, id, i + 1)
    }
}

proof fn lemma_obj_index_range(m: super::mem::MemView, id: u16, i: int)
    requires
        0 <= i,
    ensures
        obj_index_from(m, id, i) == -1 || (i <= obj_index_from(m, id, i) < obj_count_spec(m.ds)),
    decreases obj_count_spec(m.ds) - i,
{
    if i < obj_count_spec(m.ds) && !(read_spec(m, add_spec(obj_at_spec(m, i), 0x2b)) as u16 == id) {
        lemma_obj_index_range(m, id, i + 1);
    }
}

// ---------------------------------------------------------------- cell ownership

/// The cell owner map `which` (by its low bit): far pointers at DS:59D0.
pub open spec fn cell_map_spec(m: super::mem::MemView, which: u16) -> u32 {
    read_dword(m, far_spec(DS_SEG, (CELL_MAPS + (which & 1) * 4) as u16))
}

/// `sub_16A40(x, y, owner)` of cell `(x / 2, y / 16)`: 4 off-screen, 2 a
/// background cell, 0 another owner's, 3 owned as before, 1 newly owned.
pub open spec fn cell_state_spec(m: super::mem::MemView, x: i32, y: i32, owner: u16) -> u16 {
    let cx = (x as u16) / 2;
    let cy = (y as u16) / 16;
    if cx > 0x27 || cy > 0x18 {
        4
    } else {
        let cell = cy * 40 + cx;
        let sel = ds_word(m.ds, CELL_MAP_SEL);
        let now = read_spec(m, add_spec(cell_map_spec(m, sel ^ 1), cell)) as u16;
        let before = read_spec(m, add_spec(cell_map_spec(m, sel), cell)) as u16;
        if now == 0xf0 {
            2
        } else if now != owner {
            0
        } else if now == before {
            3
        } else {
            1
        }
    }
}

/// Whether cell `k` (row-major over 40x25) lies in the inclusive cell
/// rectangle.
pub open spec fn in_cells(k: int, x1: i32, y1: i32, x2: i32, y2: i32) -> bool {
    y1 <= k / 40 <= y2 && x1 <= k % 40 <= x2
}

/// The memory after the first `n` cells of `mark_background_dirty`: a
/// background cell (0xF0) in the rectangle becomes dirty (0xF1).
pub open spec fn dirty_cells(m: super::mem::MemView, map: u32, x1: i32, y1: i32, x2: i32, y2: i32, n: int) -> super::mem::MemView
    decreases n,
{
    if n <= 0 {
        m
    } else {
        let b = dirty_cells(m, map, x1, y1, x2, y2, n - 1);
        let p = add_spec(map, n - 1);
        if in_cells(n - 1, x1, y1, x2, y2) && read_spec(b, p) == 0xf0 {
            write_spec(b, p, 0xf1)
        } else {
            b
        }
    }
}

impl Engine {
    fn cell_map(&self, which: u16) -> (res: FarPtr)
        requires
            self.mem_ok(),
        ensures
            res == cell_map_spec(self.memory(), which),
    {
        assert((which & 1) * 4 <= 4) by (bit_vector);
        self.mem.d(CELL_MAPS + (which & 1) * 4)
    }

    /// `sub_16A40(x, y, owner)`: who owns the cell under byte column `x`,
    /// line `y`.
    pub fn cell_state(&self, x: i32, y: i32, owner: u16) -> (res: u16)
        requires
            self.mem_ok(),
        ensures
            res == cell_state_spec(self.memory(), x, y, owner),
    {
        let cx = (x as u16) / 2;
        let cy = (y as u16) / 16;
        if cx > 0x27 || cy > 0x18 {
            return 4;
        }
        let cell = cy as i32 * 40 + cx as i32;
        let sel = self.mem.w(CELL_MAP_SEL);
        let now = self.mem.rb(ptr_add(self.cell_map(sel ^ 1), cell)) as u16;
        let before = self.mem.rb(ptr_add(self.cell_map(sel), cell)) as u16;
        if now == 0xf0 {
            2
        } else if now != owner {
            0
        } else if now == before {
            3
        } else {
            1
        }
    }

    /// `sub_16AC9(x, y, buf, index, mode, owner)`: draws chip `index` of
    /// `buf` (with `cell_put` mode 1 to 3) where the cell belongs to
    /// `owner`; says whether the cell was the owner's to draw.
    pub fn draw_chip(&mut self, x: i32, y: i32, buf: FarPtr, index: u16, mode: u16, owner: u16) -> (res: bool)
        requires
            old(self).wf(),
        ensures
            final(self).wf(),
            final(self).memory() == old(self).memory(),
            final(self).seed() == old(self).seed(),
            ({
                let state = cell_state_spec(old(self).memory(), x, y, owner);
                let refused = state == 4 || (state == 3 && ds_word(old(self).memory().ds, FORCE_REDRAW) != 0) || state == 0;
                &&& res == !refused
                &&& if !refused && 1 <= mode <= 3 {
                    &&& final(self).screen().pages@ == cell_put_pages(
                        old(self).screen().pages@,
                        old(self).memory(),
                        old(self).screen().access as int,
                        (y as u16) * 80 + (x as u16),
                        add_spec(buf, index * 128),
                        mode,
                        128,
                    )
                    &&& final(self).screen() == (Vram {
                        pages: final(self).screen().pages,
                        dirty: old(self).screen().dirty || old(self).screen().access == old(self).screen().display,
                        ..old(self).screen()
                    })
                } else {
                    final(self).screen() == old(self).screen()
                }
            }),
    {
        let state = self.cell_state(x, y, owner);
        if state == 4 || (state == 3 && self.mem.w(FORCE_REDRAW) != 0) || state == 0 {
            return false;
        }
        if 1 <= mode && mode <= 3 {
            self.cell_put(x as u16, y as u16, buf, index, mode);
        }
        true
    }

    /// `sub_1EB40(x1, y1, x2, y2)`: marks the background cells (0xF0) of
    /// the current owner map inside an inclusive cell rectangle as dirty
    /// (0xF1).
    pub fn mark_background_dirty(&mut self, x1: i32, y1: i32, x2: i32, y2: i32)
        requires
            old(self).wf(),
        ensures
            final(self).wf(),
            final(self).memory() == dirty_cells(
                old(self).memory(),
                cell_map_spec(old(self).memory(), ds_word(old(self).memory().ds, CELL_MAP_SEL) ^ 1),
                x1,
                y1,
                x2,
                y2,
                1000,
            ),
            final(self).screen() == old(self).screen(),
            final(self).seed() == old(self).seed(),
    {
        let sel = self.mem.w(CELL_MAP_SEL);
        let map = self.cell_map(sel ^ 1);
        let mut k: i32 = 0;
        while k < 1000
            invariant
                0 <= k <= 1000,
                self.wf(),
                map == cell_map_spec(old(self).memory(), ds_word(old(self).memory().ds, CELL_MAP_SEL) ^ 1),
                self.memory() == dirty_cells(old(self).memory(), map, x1, y1, x2, y2, k as int),
                self.vram == old(self).vram,
                self.rng == old(self).rng,
            decreases 1000 - k,
        {
            let cy = k / 40;
            let cx = k % 40;
            if y1 <= cy && cy <= y2 && x1 <= cx && cx <= x2 {
                let p = ptr_add(map, k);
                if self.mem.rb(p) == 0xf0 {
                    self.mem.wb(p, 0xf1);
                }
            }
            k = k + 1;
        }
    }
}

/// A signed word of an object record.
pub open spec fn obj_sword(m: super::mem::MemView, obj: u32, off: int) -> int {
    read_word(m, add_spec(obj, off)) as i16 as int
}

/// The cells an object covers in the owner map, half-open: its content
/// rectangle in cells, widened by one on each side unless it is frameless,
/// clipped to the 40x25 grid.
pub open spec fn owner_rect(m: super::mem::MemView, obj: u32, flags: u16) -> (int, int, int, int) {
    let grow: int = if flags & FLAG_FRAMELESS == 0 {
        1
    } else {
        0
    };
    let x1 = super::trunc_div(obj_sword(m, obj, 0x0a), 2) - grow;
    let x2 = super::trunc_div(obj_sword(m, obj, 0x0e), 2) + grow;
    let y1 = super::trunc_div(obj_sword(m, obj, 0x0c), 16) - grow;
    let y2 = super::trunc_div(obj_sword(m, obj, 0x10), 16) + grow;
    (
        if x1 > 0 { x1 } else { 0 },
        if y1 > 0 { y1 } else { 0 },
        if x2 < 40 { x2 } else { 40 },
        if y2 < 25 { y2 } else { 25 },
    )
}

/// The memory after the first `n` cells (row-major) of filling the
/// half-open cell rectangle with owner `id`.
pub open spec fn fill_cells(m: super::mem::MemView, map: u32, r: (int, int, int, int), id: u8, n: int) -> super::mem::MemView
    decreases n,
{
    if n <= 0 {
        m
    } else {
        let b = fill_cells(m, map, r, id, n - 1);
        let k = n - 1;
        if r.1 <= k / 40 < r.3 && r.0 <= k % 40 < r.2 {
            write_spec(b, add_spec(map, k), id)
        } else {
            b
        }
    }
}

/// Object `index` claims its cells, if it is visible.
#[verifier::opaque]
pub open spec fn owners_step(m: super::mem::MemView, map: u32, index: int) -> super::mem::MemView {
    let obj = obj_at_spec(m, index);
    let flags = read_word(m, add_spec(obj, 0x28));
    if flags & FLAG_VISIBLE == 0 {
        m
    } else {
        fill_cells(m, map, owner_rect(m, obj, flags), read_spec(m, add_spec(obj, 0x2b)), 1000)
    }
}

/// Objects `0..n` claim their cells in table order (later ones win).
pub open spec fn owners_upto(m: super::mem::MemView, map: u32, n: int) -> super::mem::MemView
    decreases n,
{
    if n <= 0 {
        m
    } else {
        owners_step(owners_upto(m, map, n - 1), map, n - 1)
    }
}

/// What `compute_owners` leaves: the owner maps swapped, the new one
/// cleared to background (0xF0) and claimed by the visible objects.
pub open spec fn owners_spec(m: super::mem::MemView) -> super::mem::MemView {
    let sel = ds_word(m.ds, CELL_MAP_SEL);
    let map = cell_map_spec(m, sel);
    let m1 = super::mem::MemView { ds: set_ds_word(m.ds, CELL_MAP_SEL, sel ^ 1), ..m };
    let m2 = super::mem::writes_spec(m1, map, Seq::new(1000, |i: int| 0xf0u8));
    owners_upto(m2, map, obj_count_spec(m2.ds))
}

impl Engine {
    fn fill_owner(&mut self, map: FarPtr, r: (i32, i32, i32, i32), id: u8)
        requires
            old(self).wf(),
        ensures
            final(self).wf(),
            final(self).memory() == fill_cells(old(self).memory(), map, (r.0 as int, r.1 as int, r.2 as int, r.3 as int), id, 1000),
            final(self).vram == old(self).vram,
            final(self).rng == old(self).rng,
    {
        let mut k: i32 = 0;
        while k < 1000
            invariant
                0 <= k <= 1000,
                self.wf(),
                self.memory() == fill_cells(old(self).memory(), map, (r.0 as int, r.1 as int, r.2 as int, r.3 as int), id, k as int),
                self.vram == old(self).vram,
                self.rng == old(self).rng,
            decreases 1000 - k,
        {
            let cy = k / 40;
            let cx = k % 40;
            if r.1 <= cy && cy < r.3 && r.0 <= cx && cx < r.2 {
                self.mem.wb(ptr_add(map, k), id);
            }
            k = k + 1;
        }
    }

    fn owners_step_exec(&mut self, map: FarPtr, index: i32)
        requires
            old(self).wf(),
            0 <= index < 0x8000,
        ensures
            final(self).wf(),
            final(self).memory() == owners_step(old(self).memory(), map, index as int),
            final(self).vram == old(self).vram,
            final(self).rng == old(self).rng,
    {
        proof {
            reveal(owners_step);
        }
        let obj = self.obj_at(index);
        let flags = self.ow(obj, 0x28);
        if flags & FLAG_VISIBLE == 0 {
            return;
        }
        let grow: i32 = if flags & FLAG_FRAMELESS == 0 { 1 } else { 0 };
        let mut x1 = self.osw(obj, 0x0a) / 2 - grow;
        let mut x2 = self.osw(obj, 0x0e) / 2 + grow;
        let mut y1 = self.osw(obj, 0x0c) / 16 - grow;
        let mut y2 = self.osw(obj, 0x10) / 16 + grow;
        if x1 < 0 {
            x1 = 0;
        }
        if x2 > 40 {
            x2 = 40;
        }
        if y1 < 0 {
            y1 = 0;
        }
        if y2 > 25 {
            y2 = 25;
        }
        let id = self.ob(obj, 0x2b);
        assert(owner_rect(self.memory(), obj, flags) == (x1 as int, y1 as int, x2 as int, y2 as int));
        self.fill_owner(map, (x1, y1, x2, y2), id);
    }

    /// `sub_1DF70`: recomputes cell ownership into the other owner map:
    /// swaps the maps, clears the new one to background and lets every
    /// visible object, back to front, claim the cells under its window.
    pub fn compute_owners(&mut self)
        requires
            old(self).wf(),
        ensures
            final(self).wf(),
            final(self).memory() == owners_spec(old(self).memory()),
            final(self).screen() == old(self).screen(),
            final(self).seed() == old(self).seed(),
    {
        let ghost m0 = self.memory();
        let sel = self.mem.w(CELL_MAP_SEL);
        let map = self.cell_map(sel);
        self.mem.set_w(CELL_MAP_SEL, sel ^ 1);
        let ghost m1 = self.memory();
        assert(m1 == (super::mem::MemView { ds: set_ds_word(m0.ds, CELL_MAP_SEL, sel ^ 1), ..m0 }));
        self.mem.memset(map, 0xf0, 1000);
        let ghost m2 = self.memory();
        assert(Seq::new(1000nat, |i: int| 0xf0u8) =~= Seq::new(1000usize as nat, |i: int| 0xf0u8));
        assert(owners_spec(m0) == owners_upto(m2, map, obj_count_spec(m2.ds)));
        let count = self.obj_count();
        self.claim_cells(map, count);
    }

    /// Objects `0..count` claim their cells in table order.
    fn claim_cells(&mut self, map: FarPtr, count: i32)
        requires
            old(self).wf(),
            count == obj_count_spec(old(self).memory().ds),
        ensures
            final(self).wf(),
            final(self).memory() == owners_upto(old(self).memory(), map, count as int),
            final(self).vram == old(self).vram,
            final(self).rng == old(self).rng,
    {
        let ghost m2 = self.memory();
        let mut index: i32 = 0;
        while index < count
            invariant
                0 <= index,
                index <= count || index == 0,
                count == obj_count_spec(m2.ds),
                count < 0x8000,
                self.wf(),
                m2 == old(self).memory(),
                self.memory() == owners_upto(m2, map, index as int),
                self.vram == old(self).vram,
                self.rng == old(self).rng,
            decreases count - index,
        {
            self.owners_step_exec(map, index);
            index = index + 1;
        }
        proof {
            if count < 0 {
                assert(owners_upto(m2, map, count as int) == m2);
                assert(owners_upto(m2, map, 0) == m2);
            }
        }
    }
}

} // verus!
