//! Graphics primitives of `UK2.EXE`: page control, whole-plane copies,
//! palette fading steps and the 16x16 cell ("chip") operations.
#![allow(unused_imports)]

use vstd::prelude::*;

use super::ds::{ACCESS_PAGE, DISPLAY_PAGE};
use super::mem::{reads_spec, writes_spec, write_spec, add_spec, ds_word, lemma_ds_word, mem_wf, ptr_add, read_spec, read_word, set_ds_word, write_word, FarPtr, MemView};
use super::vram::{vbyte, vidx, vram_wf, Vram, PLANE_BYTES, ROW_BYTES};
use super::{apart, lemma_set_word_keeps, Engine};

verus! {

/// The access and display page words apart from each other.
proof fn lemma_page_words(ds: Seq<u8>, a: u16, d: u16)
    requires
        ds.len() == 0x10000,
    ensures
        ds_word(set_ds_word(set_ds_word(ds, DISPLAY_PAGE, d), ACCESS_PAGE, a), DISPLAY_PAGE) == d,
        ds_word(set_ds_word(set_ds_word(ds, DISPLAY_PAGE, d), ACCESS_PAGE, a), ACCESS_PAGE) == a,
{
    let d1 = set_ds_word(ds, DISPLAY_PAGE, d);
    let d2 = set_ds_word(d1, ACCESS_PAGE, a);
    assert(d2[0x5A73] == (a % 256) as u8 && d2[0x5A74] == (a / 256) as u8);
    assert(d2[0x5A75] == (d % 256) as u8 && d2[0x5A76] == (d / 256) as u8);
}

/// Plane `plane` of page `dst` replaced by that of page `src`.
pub open spec fn plane_copied(pages: Seq<u8>, src: int, dst: int, plane: int) -> Seq<u8> {
    Seq::new(
        pages.len(),
        |i: int|
            if vidx(dst, plane, 0) <= i < vidx(dst, plane, 32000) {
                pages[vidx(src, plane, i - vidx(dst, plane, 0))]
            } else {
                pages[i]
            },
    )
}

/// Every plane named in `planes` (bit `p` for plane `p`) copied from page
/// `src` to page `dst`, planes 0 to 3 in turn.
pub open spec fn planes_copied(pages: Seq<u8>, src: int, dst: int, planes: u16, upto: int) -> Seq<u8>
    decreases upto,
{
    if upto <= 0 {
        pages
    } else {
        let before = planes_copied(pages, src, dst, planes, upto - 1);
        if planes & (1u16 << ((upto - 1) as u16)) != 0 {
            plane_copied(before, src, dst, upto - 1)
        } else {
            before
        }
    }
}

impl Engine {
    /// `sub_1F7DA(display, access)`: selects the displayed and the accessed
    /// page (their low bits) and records both words.
    pub fn set_pages(&mut self, display: u16, access: u16)
        requires
            old(self).wf(),
        ensures
            final(self).wf(),
            final(self).screen() == (Vram {
                display: (display % 2) as usize,
                access: (access % 2) as usize,
                dirty: true,
                ..old(self).screen()
            }),
            final(self).memory() == (MemView {
                ds: set_ds_word(set_ds_word(old(self).memory().ds, DISPLAY_PAGE, display), ACCESS_PAGE, access),
                ..old(self).memory()
            }),
            final(self).seed() == old(self).seed(),
    {
        assert(display & 1 == display % 2 && access & 1 == access % 2) by (bit_vector);
        self.vram.display = (display & 1) as usize;
        self.vram.access = (access & 1) as usize;
        self.mem.set_w(DISPLAY_PAGE, display);
        self.mem.set_w(ACCESS_PAGE, access);
        self.vram.dirty = true;
    }

    /// Draw into the hidden page while keeping the displayed one.
    pub fn access_back(&mut self)
        requires
            old(self).wf(),
        ensures
            final(self).wf(),
            ({
                let display = ds_word(old(self).memory().ds, DISPLAY_PAGE);
                &&& final(self).screen() == (Vram {
                    display: (display % 2) as usize,
                    access: ((display ^ 1) % 2) as usize,
                    dirty: true,
                    ..old(self).screen()
                })
                &&& final(self).memory() == (MemView {
                    ds: set_ds_word(set_ds_word(old(self).memory().ds, DISPLAY_PAGE, display), ACCESS_PAGE, display ^ 1),
                    ..old(self).memory()
                })
            }),
            final(self).seed() == old(self).seed(),
    {
        let display = self.mem.w(DISPLAY_PAGE);
        self.set_pages(display, display ^ 1);
    }

    /// Draw into the displayed page.
    pub fn access_front(&mut self)
        requires
            old(self).wf(),
        ensures
            final(self).wf(),
            ({
                let display = ds_word(old(self).memory().ds, DISPLAY_PAGE);
                &&& final(self).screen() == (Vram {
                    display: (display % 2) as usize,
                    access: (display % 2) as usize,
                    dirty: true,
                    ..old(self).screen()
                })
                &&& final(self).memory() == (MemView {
                    ds: set_ds_word(set_ds_word(old(self).memory().ds, DISPLAY_PAGE, display), ACCESS_PAGE, display),
                    ..old(self).memory()
                })
            }),
            final(self).seed() == old(self).seed(),
    {
        let display = self.mem.w(DISPLAY_PAGE);
        self.set_pages(display, display);
    }

    /// `sub_20CA7`: copies the planes named by the low four bits of
    /// `planes` from page `src` to page `dst` (each page by its low bit).
    pub fn copy_page(&mut self, src: u16, dst: u16, planes: u16)
        requires
            old(self).wf(),
        ensures
            final(self).wf(),
            final(self).memory() == old(self).memory(),
            final(self).screen().pages@ == planes_copied(
                old(self).screen().pages@,
                (src % 2) as int,
                (dst % 2) as int,
                planes,
                4,
            ),
            final(self).screen().dirty == (old(self).screen().dirty || (planes & 0xf != 0 && (dst % 2)
                == old(self).screen().display)),
            final(self).screen() == (Vram {
                pages: final(self).screen().pages,
                dirty: final(self).screen().dirty,
                ..old(self).screen()
            }),
    {
        assert(src & 1 == src % 2 && dst & 1 == dst % 2) by (bit_vector);
        let s = (src & 1) as usize;
        let d = (dst & 1) as usize;
        let ghost p0 = self.vram.pages@;
        let mut plane: usize = 0;
        while plane < 4
            invariant
                plane <= 4,
                vram_wf(self.vram),
                self.vram.pages@ == planes_copied(p0, s as int, d as int, planes, plane as int),
                s < 2 && d < 2 && s == src % 2 && d == dst % 2,
                self.vram.dirty == (old(self).vram.dirty || (any_plane(planes, plane as int) && d == old(
                    self).vram.display)),
                self.vram.access == old(self).vram.access,
                self.vram.display == old(self).vram.display,
                self.vram.palette == old(self).vram.palette,
                self.vram.graphics_on == old(self).vram.graphics_on,
                p0 == old(self).vram.pages@,
                self.mem == old(self).mem,
                self.rng == old(self).rng,
            decreases 4 - plane,
        {
            let bit: u16 = 1u16 << (plane as u16);
            let ghost v0 = self.vram;
            if planes & bit != 0 {
                if d == self.vram.display {
                    self.vram.dirty = true;
                }
                let ghost before = self.vram.pages@;
                let mut k: usize = 0;
                while k < PLANE_BYTES
                    invariant
                        k <= 32000,
                        plane < 4,
                        s < 2 && d < 2,
                        self.vram.pages@.len() == 256000,
                        forall|i: int| 0 <= i < 256000 ==> #[trigger] self.vram.pages@[i] == if vidx(d as int, plane as int, 0)
                            <= i < vidx(d as int, plane as int, k as int) {
                            before[vidx(s as int, plane as int, i - vidx(d as int, plane as int, 0))]
                        } else {
                            before[i]
                        },
                        before.len() == 256000,
                        self.vram.access == v0.access,
                        self.vram.display == v0.display,
                        self.vram.palette == v0.palette,
                        self.vram.graphics_on == v0.graphics_on,
                        self.vram.dirty == (v0.dirty || d == v0.display),
                        v0.access < 2 && v0.display < 2,
                        self.mem == old(self).mem,
                        self.rng == old(self).rng,
                    decreases 32000 - k,
                {
                    let v = self.vram.pages[(s * 4 + plane) * PLANE_BYTES + k];
                    proof {
                        if s != d {
                        } else {
                        }
                    }
                    self.vram.pages.set((d * 4 + plane) * PLANE_BYTES + k, v);
                    k = k + 1;
                }
                assert(self.vram.pages@ =~= plane_copied(before, s as int, d as int, plane as int));
            }
            plane = plane + 1;
        }
        assert((planes & (1u16 << 0u16) != 0 || planes & (1u16 << 1u16) != 0 || planes & (1u16 << 2u16) != 0 || planes & (
        1u16 << 3u16) != 0) == (planes & 0xf != 0)) by (bit_vector);
        proof {
            reveal_with_fuel(any_plane, 5);
        }
    }
}

/// Some plane below `n` is named in `planes`.
pub open spec fn any_plane(planes: u16, n: int) -> bool
    decreases n,
{
    n > 0 && (any_plane(planes, n - 1) || planes & (1u16 << ((n - 1) as u16)) != 0)
}

// ---------------------------------------------------------------- 16x16 cells
//
// A cell is 128 bytes: 16 rows of four little-endian plane words, the
// intensity plane first.

/// `cell_overlay_mask` on one row: the destination intensity word keeps the
/// bits of the source's, and each colour word keeps those bits and takes the
/// source's colour word.
pub open spec fn mask_row(m: MemView, d: u32, s: u32) -> MemView {
    let mask = read_word(m, s);
    let m0 = write_word(m, d, read_word(m, d) & mask);
    let m1 = write_word(m0, add_spec(d, 2), (read_word(m0, add_spec(d, 2)) & mask) | read_word(m0, add_spec(s, 2)));
    let m2 = write_word(m1, add_spec(d, 4), (read_word(m1, add_spec(d, 4)) & mask) | read_word(m1, add_spec(s, 4)));
    write_word(m2, add_spec(d, 6), (read_word(m2, add_spec(d, 6)) & mask) | read_word(m2, add_spec(s, 6)))
}

/// `cell_overlay_either` on one row: where either intensity word is set the
/// source colour words win, elsewhere the destination's stay.
pub open spec fn either_row(m: MemView, d: u32, s: u32) -> MemView {
    let mask = read_word(m, s) | read_word(m, d);
    let m1 = write_word(m, add_spec(d, 2), (read_word(m, add_spec(s, 2)) & mask) | (read_word(m, add_spec(d, 2)) & !mask));
    let m2 = write_word(m1, add_spec(d, 4), (read_word(m1, add_spec(s, 4)) & mask) | (read_word(m1, add_spec(d, 4)) & !mask));
    write_word(m2, add_spec(d, 6), (read_word(m2, add_spec(s, 6)) & mask) | (read_word(m2, add_spec(d, 6)) & !mask))
}

/// `cell_overlay_and` on one row: the intensity words are ANDed and the
/// source colour words ORed in where the destination intensity was set.
pub open spec fn and_row(m: MemView, d: u32, s: u32) -> MemView {
    let keep = read_word(m, d);
    let m0 = write_word(m, d, read_word(m, s) & keep);
    let m1 = write_word(m0, add_spec(d, 2), read_word(m0, add_spec(d, 2)) | (read_word(m0, add_spec(s, 2)) & keep));
    let m2 = write_word(m1, add_spec(d, 4), read_word(m1, add_spec(d, 4)) | (read_word(m1, add_spec(s, 4)) & keep));
    write_word(m2, add_spec(d, 6), read_word(m2, add_spec(d, 6)) | (read_word(m2, add_spec(s, 6)) & keep))
}

/// One of the three overlays on one row.
pub open spec fn overlay_row(kind: int, m: MemView, d: u32, s: u32) -> MemView {
    if kind == 0 {
        mask_row(m, d, s)
    } else if kind == 1 {
        either_row(m, d, s)
    } else {
        and_row(m, d, s)
    }
}

/// The first `n` rows of an overlay of cell `src` onto cell `dst`.
pub open spec fn overlay_rows(kind: int, m: MemView, dst: u32, src: u32, n: int) -> MemView
    decreases n,
{
    if n <= 0 {
        m
    } else {
        let before = overlay_rows(kind, m, dst, src, n - 1);
        overlay_row(kind, before, add_spec(dst, (n - 1) * 8), add_spec(src, (n - 1) * 8))
    }
}

impl Engine {
    #[verifier::spinoff_prover]
    fn mask_row_exec(&mut self, d: FarPtr, s: FarPtr)
        requires
            old(self).wf(),
        ensures
            final(self).wf(),
            final(self).memory() == mask_row(old(self).memory(), d, s),
            final(self).screen() == old(self).screen(),
            final(self).seed() == old(self).seed(),
    {
        let mask = self.mem.rw(s);
        let e = self.mem.rw(d) & mask;
        self.mem.ww(d, e);
        let mut k: i32 = 1;
        while k < 4
            invariant
                1 <= k <= 4,
                self.wf(),
                mask == read_word(old(self).memory(), s),
                self.memory() == mask_prefix(old(self).memory(), d, s, mask, k as int),
                self.vram == old(self).vram,
                self.rng == old(self).rng,
            decreases 4 - k,
        {
            let v = (self.mem.rw(ptr_add(d, k * 2)) & mask) | self.mem.rw(ptr_add(s, k * 2));
            self.mem.ww(ptr_add(d, k * 2), v);
            k = k + 1;
        }
        proof {
            reveal_with_fuel(mask_prefix, 4);
        }
    }

    #[verifier::spinoff_prover]
    fn either_row_exec(&mut self, d: FarPtr, s: FarPtr)
        requires
            old(self).wf(),
        ensures
            final(self).wf(),
            final(self).memory() == either_row(old(self).memory(), d, s),
            final(self).screen() == old(self).screen(),
            final(self).seed() == old(self).seed(),
    {
        let mask = self.mem.rw(s) | self.mem.rw(d);
        let mut k: i32 = 1;
        while k < 4
            invariant
                1 <= k <= 4,
                self.wf(),
                mask == read_word(old(self).memory(), s) | read_word(old(self).memory(), d),
                self.memory() == either_prefix(old(self).memory(), d, s, mask, k as int),
                self.vram == old(self).vram,
                self.rng == old(self).rng,
            decreases 4 - k,
        {
            let v = (self.mem.rw(ptr_add(s, k * 2)) & mask) | (self.mem.rw(ptr_add(d, k * 2)) & !mask);
            self.mem.ww(ptr_add(d, k * 2), v);
            k = k + 1;
        }
        proof {
            reveal_with_fuel(either_prefix, 4);
        }
    }

    #[verifier::spinoff_prover]
    fn and_row_exec(&mut self, d: FarPtr, s: FarPtr)
        requires
            old(self).wf(),
        ensures
            final(self).wf(),
            final(self).memory() == and_row(old(self).memory(), d, s),
            final(self).screen() == old(self).screen(),
            final(self).seed() == old(self).seed(),
    {
        let keep = self.mem.rw(d);
        let e = self.mem.rw(s) & keep;
        self.mem.ww(d, e);
        let mut k: i32 = 1;
        while k < 4
            invariant
                1 <= k <= 4,
                self.wf(),
                keep == read_word(old(self).memory(), d),
                self.memory() == and_prefix(old(self).memory(), d, s, keep, k as int),
                self.vram == old(self).vram,
                self.rng == old(self).rng,
            decreases 4 - k,
        {
            let v = self.mem.rw(ptr_add(d, k * 2)) | (self.mem.rw(ptr_add(s, k * 2)) & keep);
            self.mem.ww(ptr_add(d, k * 2), v);
            k = k + 1;
        }
        proof {
            reveal_with_fuel(and_prefix, 4);
        }
    }

    /// One row of an overlay, `kind` 0 (mask), 1 (either) or 2 (and).
    fn overlay_row_exec(&mut self, kind: u8, d: FarPtr, s: FarPtr)
        requires
            old(self).wf(),
            kind < 3,
        ensures
            final(self).wf(),
            final(self).memory() == overlay_row(kind as int, old(self).memory(), d, s),
            final(self).screen() == old(self).screen(),
            final(self).seed() == old(self).seed(),
    {
        if kind == 0 {
            self.mask_row_exec(d, s);
        } else if kind == 1 {
            self.either_row_exec(d, s);
        } else {
            self.and_row_exec(d, s);
        }
    }

    fn overlay_cell(&mut self, kind: u8, dst: FarPtr, src: FarPtr, index: u16)
        requires
            old(self).wf(),
            kind < 3,
        ensures
            final(self).wf(),
            final(self).memory() == overlay_rows(kind as int, old(self).memory(), dst, add_spec(src, index * 128), 16),
            final(self).screen() == old(self).screen(),
            final(self).seed() == old(self).seed(),
    {
        let cell = ptr_add(src, index as i32 * 128);
        let mut row: i32 = 0;
        while row < 16
            invariant
                0 <= row <= 16,
                kind < 3,
                self.wf(),
                cell == add_spec(src, index * 128),
                self.memory() == overlay_rows(kind as int, old(self).memory(), dst, cell, row as int),
                self.vram == old(self).vram,
                self.rng == old(self).rng,
            decreases 16 - row,
        {
            self.overlay_row_exec(kind, ptr_add(dst, row * 8), ptr_add(cell, row * 8));
            row = row + 1;
        }
    }

    /// `sub_23272`: overlays cell `index` of `src` onto the cell at `dst`,
    /// the source intensity plane acting as the keep-mask.
    pub fn cell_overlay_mask(&mut self, dst: FarPtr, src: FarPtr, index: u16)
        requires
            old(self).wf(),
        ensures
            final(self).wf(),
            final(self).memory() == overlay_rows(0, old(self).memory(), dst, add_spec(src, index * 128), 16),
            final(self).screen() == old(self).screen(),
            final(self).seed() == old(self).seed(),
    {
        self.overlay_cell(0, dst, src, index);
    }

    /// `sub_232E7`: takes the source colour where either intensity plane is set.
    pub fn cell_overlay_either(&mut self, dst: FarPtr, src: FarPtr, index: u16)
        requires
            old(self).wf(),
        ensures
            final(self).wf(),
            final(self).memory() == overlay_rows(1, old(self).memory(), dst, add_spec(src, index * 128), 16),
            final(self).screen() == old(self).screen(),
            final(self).seed() == old(self).seed(),
    {
        self.overlay_cell(1, dst, src, index);
    }

    /// `sub_2336E`: ANDs the intensity planes and ORs in the source colour
    /// planes where the destination intensity was set.
    pub fn cell_overlay_and(&mut self, dst: FarPtr, src: FarPtr, index: u16)
        requires
            old(self).wf(),
        ensures
            final(self).wf(),
            final(self).memory() == overlay_rows(2, old(self).memory(), dst, add_spec(src, index * 128), 16),
            final(self).screen() == old(self).screen(),
            final(self).seed() == old(self).seed(),
    {
        self.overlay_cell(2, dst, src, index);
    }
}

/// The colour words `1..k` of a `mask_row` done.
pub open spec fn mask_prefix(m: MemView, d: u32, s: u32, mask: u16, k: int) -> MemView
    decreases k,
{
    if k <= 1 {
        write_word(m, d, read_word(m, d) & mask)
    } else {
        let b = mask_prefix(m, d, s, mask, k - 1);
        write_word(b, add_spec(d, 2 * (k - 1)), (read_word(b, add_spec(d, 2 * (k - 1))) & mask) | read_word(b, add_spec(s, 2 * (k - 1))))
    }
}

pub open spec fn either_prefix(m: MemView, d: u32, s: u32, mask: u16, k: int) -> MemView
    decreases k,
{
    if k <= 1 {
        m
    } else {
        let b = either_prefix(m, d, s, mask, k - 1);
        write_word(b, add_spec(d, 2 * (k - 1)), (read_word(b, add_spec(s, 2 * (k - 1))) & mask) | (read_word(b, add_spec(d, 2 * (k - 1))) & !mask))
    }
}

pub open spec fn and_prefix(m: MemView, d: u32, s: u32, keep: u16, k: int) -> MemView
    decreases k,
{
    if k <= 1 {
        write_word(m, d, read_word(m, s) & keep)
    } else {
        let b = and_prefix(m, d, s, keep, k - 1);
        write_word(b, add_spec(d, 2 * (k - 1)), read_word(b, add_spec(d, 2 * (k - 1))) | (read_word(b, add_spec(s, 2 * (k - 1))) & keep))
    }
}

// ---------------------------------------------------------------- cells on screen

/// The plane stored in slot `slot` of a cell (intensity first).
pub open spec fn slot_plane(slot: int) -> int {
    if slot == 0 {
        3
    } else {
        slot - 1
    }
}

/// Step `j` (0..128) of a cell transfer: slot, row and byte of the row.
pub open spec fn cell_step(j: int) -> (int, int, int) {
    (j / 32, (j % 32) / 2, j % 2)
}

/// The step of a cell transfer at `base` that touches byte `offset` of
/// `plane`, if any.
pub open spec fn cell_step_at(base: int, plane: int, offset: int) -> Option<int> {
    let d = offset - base;
    if 0 <= plane < 4 && 0 <= d && d % 80 < 2 && d / 80 < 16 {
        Some(((plane + 1) % 4) * 32 + (d / 80) * 2 + d % 80)
    } else {
        None
    }
}

/// What step `j` of `cell_put` writes, if it writes: mode 1 keeps the
/// intensity plane, mode 3 clears it, other modes copy every plane.
pub open spec fn cell_put_value(m: MemView, src: u32, mode: u16, j: int) -> Option<u8> {
    let (slot, row, k) = cell_step(j);
    if slot == 0 && mode == 1 {
        None
    } else if slot == 0 && mode == 3 {
        Some(0u8)
    } else {
        let p = add_spec(src, row * 8 + slot * 2);
        Some(if k == 0 { read_spec(m, p) } else { read_spec(m, add_spec(p, 1)) })
    }
}

/// The page store after the first `upto` steps of `cell_put` at `base` on
/// page `access`.
pub open spec fn cell_put_pages(old: Seq<u8>, m: MemView, access: int, base: int, src: u32, mode: u16, upto: int) -> Seq<u8> {
    Seq::new(
        old.len(),
        |i: int|
            {
                let plane = (i / 32000) % 4;
                let offset = i % 32000;
                if i / 128000 == access {
                    match cell_step_at(base, plane, offset) {
                        Some(j) => if j < upto {
                            match cell_put_value(m, src, mode, j) {
                                Some(v) => v,
                                None => old[i],
                            }
                        } else {
                            old[i]
                        },
                        None => old[i],
                    }
                } else {
                    old[i]
                }
            },
    )
}

/// Step `j` of a cell transfer and the byte it names decode into each other.
proof fn lemma_cell_step_unique(base: int, pl: int, off: int, j: int)
    requires
        cell_step_at(base, pl, off) == Some(j),
    ensures
        0 <= j < 128,
        pl == slot_plane(cell_step(j).0),
        off == base + cell_step(j).1 * 80 + cell_step(j).2,
{
    let d = off - base;
    assert(d == (d / 80) * 80 + d % 80);
}

proof fn lemma_vidx_decode(access: int, plane: int, at: int)
    requires
        0 <= access < 2,
        0 <= plane < 4,
        0 <= at < 32000,
    ensures
        vidx(access, plane, at) / 128000 == access,
        (vidx(access, plane, at) / 32000) % 4 == plane,
        vidx(access, plane, at) % 32000 == at,
        0 <= vidx(access, plane, at) < 256000,
{
    let i = vidx(access, plane, at);
    assert(i == (access * 4 + plane) * 32000 + at);
    assert(i / 32000 == access * 4 + plane) by (nonlinear_arith)
        requires
            i == (access * 4 + plane) * 32000 + at,
            0 <= at < 32000,
            0 <= access * 4 + plane,
    ;
    assert(i % 32000 == at) by (nonlinear_arith)
        requires
            i == (access * 4 + plane) * 32000 + at,
            0 <= at < 32000,
            0 <= access * 4 + plane,
    ;
    assert(i / 128000 == access) by (nonlinear_arith)
        requires
            i == (access * 4 + plane) * 32000 + at,
            0 <= at < 32000,
            0 <= plane < 4,
            0 <= access,
    ;
}

/// One step of `cell_put` extends the written prefix.
#[verifier::spinoff_prover]
#[verifier::rlimit(50)]
proof fn lemma_cell_put_step(
    p0: Seq<u8>,
    m0: MemView,
    access: int,
    base: int,
    src: u32,
    mode: u16,
    j: int,
    plane: int,
    at: int,
    value: u8,
    before: Seq<u8>,
    after: Seq<u8>,
)
    requires
        0 <= j < 128,
        0 <= access < 2,
        p0.len() == 256000,
        base >= 0,
        before == cell_put_pages(p0, m0, access, base, src, mode, j),
        plane == slot_plane(cell_step(j).0),
        at == base + cell_step(j).1 * 80 + cell_step(j).2,
        cell_put_value(m0, src, mode, j) == Some(value),
        after == if at < 32000 {
            before.update(vidx(access, plane, at), value)
        } else {
            before
        },
    ensures
        after == cell_put_pages(p0, m0, access, base, src, mode, j + 1),
{
    let next = cell_put_pages(p0, m0, access, base, src, mode, j + 1);
    assert(cell_step_at(base, plane, at) == Some(j)) by {
        let d = at - base;
        assert(d == cell_step(j).1 * 80 + cell_step(j).2);
        assert(d % 80 == cell_step(j).2 && d / 80 == cell_step(j).1);
        assert((plane + 1) % 4 == cell_step(j).0);
    }
    if at < 32000 {
        lemma_vidx_decode(access, plane, at);
    }
    assert forall|i: int| 0 <= i < 256000 implies #[trigger] after[i] == next[i] by {
        let pl = (i / 32000) % 4;
        let off = i % 32000;
        if i / 128000 == access {
            match cell_step_at(base, pl, off) {
                Some(jj) => {
                    lemma_cell_step_unique(base, pl, off, jj);
                    if jj == j {
                        assert(pl == plane && off == at);
                        assert(i == vidx(access, plane, at)) by {
                            assert(i == (i / 32000) * 32000 + off);
                            assert(i / 32000 == (i / 128000) * 4 + pl);
                        }
                    } else if at < 32000 && i == vidx(access, plane, at) {
                        assert(pl == plane && off == at);
                    }
                },
                None => {
                    if at < 32000 && i == vidx(access, plane, at) {
                        assert(pl == plane && off == at);
                    }
                },
            }
        } else {
            if at < 32000 {
                assert(i != vidx(access, plane, at));
            }
        }
    }
    assert(after =~= next);
}

impl Engine {
    /// Puts cell `index` of `buf` on the access page at byte column `x`,
    /// line `y`. `mode`: 1 keeps the intensity plane (`sub_23158`), 2 copies
    /// all planes (`sub_230C4`), 3 clears the intensity plane (`sub_231DE`).
    pub fn cell_put(&mut self, x: u16, y: u16, buf: FarPtr, index: u16, mode: u16)
        requires
            old(self).wf(),
        ensures
            final(self).wf(),
            final(self).memory() == old(self).memory(),
            final(self).screen().pages@ == cell_put_pages(
                old(self).screen().pages@,
                old(self).memory(),
                old(self).screen().access as int,
                y * 80 + x,
                add_spec(buf, index * 128),
                mode,
                128,
            ),
            final(self).screen() == (Vram {
                pages: final(self).screen().pages,
                dirty: old(self).screen().dirty || old(self).screen().access == old(self).screen().display,
                ..old(self).screen()
            }),
            final(self).seed() == old(self).seed(),
    {
        let base: usize = y as usize * ROW_BYTES + x as usize;
        let src = ptr_add(buf, index as i32 * 128);
        let ghost p0 = self.vram.pages@;
        let ghost access = self.vram.access as int;
        let ghost m0 = self.mem@;
        let mut j: usize = 0;
        assert(self.vram.pages@ =~= cell_put_pages(p0, m0, access, base as int, src, mode, 0));
        while j < 128
            invariant
                j <= 128,
                self.wf(),
                self.mem == old(self).mem,
                m0 == self.mem@,
                self.rng == old(self).rng,
                access == old(self).vram.access,
                p0 == old(self).vram.pages@,
                src == add_spec(buf, index * 128),
                base == y * 80 + x,
                self.vram.access == old(self).vram.access,
                self.vram.display == old(self).vram.display,
                self.vram.palette == old(self).vram.palette,
                self.vram.graphics_on == old(self).vram.graphics_on,
                self.vram.dirty == (old(self).vram.dirty || (j > 0 && access == old(self).vram.display)),
                self.vram.pages@ == cell_put_pages(p0, m0, access, base as int, src, mode, j as int),
            decreases 128 - j,
        {
            let slot = j / 32;
            let row = (j % 32) / 2;
            let k = j % 2;
            let plane: usize = if slot == 0 { 3 } else { slot - 1 };
            if !(slot == 0 && mode == 1) {
                let value: u8 = if slot == 0 && mode == 3 {
                    0
                } else {
                    let p = ptr_add(src, (row * 8 + slot * 2) as i32);
                    if k == 0 {
                        self.mem.rb(p)
                    } else {
                        self.mem.rb(ptr_add(p, 1))
                    }
                };
                let at = base + row * ROW_BYTES + k;
                let ghost before = self.vram.pages@;
                self.vram.set(plane, at, value);
                proof {
                    lemma_cell_put_step(p0, m0, access, base as int, src, mode, j as int, plane as int, at as int, value, before, self.vram.pages@);
                }
            } else {
                proof {
                    assert(cell_put_value(m0, src, mode, j as int) is None);
                    assert(self.vram.pages@ =~= cell_put_pages(p0, m0, access, base as int, src, mode, j + 1));
                }
                if j == 0 && self.vram.access == self.vram.display {
                    self.vram.dirty = true;
                }
            }
            j = j + 1;
        }
    }
}

// ---------------------------------------------------------------- cells from screen

/// The VRAM byte that step `t` of `cells_grab` copies: byte `k` of row
/// `row` of plane slot `slot` of the `t / 128`-th cell of a `cols`-wide
/// block at byte column `x`, line `y` of the access page (zero beyond it).
pub open spec fn grab_value(v: Vram, x: int, y: int, cols: int, t: int) -> u8 {
    let c = t / 128;
    let (slot, row, k) = cell_step(t % 128);
    let at = (y + (c / cols) * 16 + row) * 80 + x + (c % cols) * 2 + k;
    if at < 32000 {
        vbyte(v, v.access as int, slot_plane(slot), at)
    } else {
        0
    }
}

/// Where step `t` of `cells_grab` writes: cells count from `index`.
pub open spec fn grab_addr(buf: u32, index: int, t: int) -> u32 {
    let (slot, row, k) = cell_step(t % 128);
    add_spec(buf, (index + t / 128) * 128 + row * 8 + slot * 2 + k)
}

/// The memory after the first `n` steps of `cells_grab`.
pub open spec fn grab_mem(m: MemView, v: Vram, x: int, y: int, cols: int, buf: u32, index: int, n: int) -> MemView
    decreases n,
{
    if n <= 0 {
        m
    } else {
        write_spec(grab_mem(m, v, x, y, cols, buf, index, n - 1), grab_addr(buf, index, n - 1), grab_value(v, x, y, cols, n - 1))
    }
}

proof fn lemma_far_split(s: u16, o: u16)
    ensures
        super::mem::seg_spec(super::mem::far_spec(s, o)) == s,
        super::mem::off_spec(super::mem::far_spec(s, o)) == o,
{
    let f = s as int * 65536 + o as int;
    assert(0 <= f < 0x1_0000_0000) by (nonlinear_arith)
        requires
            f == s as int * 65536 + o as int,
            s <= 0xffff,
            o <= 0xffff,
    ;
    assert(f / 65536 == s && f % 65536 == o) by (nonlinear_arith)
        requires
            f == s as int * 65536 + o as int,
            0 <= o < 65536,
            s >= 0,
    ;
}

proof fn lemma_add_mod(p: u32, a: int)
    requires
        a >= 0,
    ensures
        add_spec(p, a) == add_spec(p, a % 65536),
        add_spec(add_spec(p, a), 1) == add_spec(p, a + 1),
{
    let o = super::mem::off_spec(p) as int;
    assert((o + a) % 65536 == (o + a % 65536) % 65536) by (nonlinear_arith)
        requires
            a >= 0,
            o >= 0,
    ;
    lemma_far_split(super::mem::seg_spec(p), ((o + a) % 65536) as u16);
    assert(((o + a) % 65536 + 1) % 65536 == (o + a + 1) % 65536) by (nonlinear_arith)
        requires
            a >= 0,
            o >= 0,
    ;
}

impl Engine {
    /// `sub_234AC`: grabs the `w / 2` x `h / 16` cells of the access page
    /// at byte column `x`, line `y` into consecutive 128-byte cells of `buf`
    /// from cell `index` on, row by row.
    pub fn cells_grab(&mut self, x: u16, y: u16, w: u16, h: u16, buf: FarPtr, index: u16)
        requires
            old(self).wf(),
            index + (w / 2) * (h / 16) <= 0x200_0000,
        ensures
            final(self).wf(),
            final(self).screen() == old(self).screen(),
            final(self).memory() == grab_mem(
                old(self).memory(),
                old(self).screen(),
                x as int,
                y as int,
                (w / 2) as int,
                buf,
                index as int,
                (w / 2) * (h / 16) * 128,
            ),
            final(self).seed() == old(self).seed(),
    {
        let cols = (w / 2) as u64;
        let cell_rows = (h / 16) as u64;
        assert(cols * cell_rows <= 0xffff * 0xffff) by (nonlinear_arith)
            requires
                cols <= 0xffff,
                cell_rows <= 0xffff,
        ;
        let total = cols * cell_rows * 128;
        let ghost v0 = self.vram;
        let mut t: u64 = 0;
        while t < total
            invariant
                t <= total,
                total == cols * cell_rows * 128,
                cols == w / 2,
                cell_rows == h / 16,
                index + cols * cell_rows <= 0x200_0000,
                self.wf(),
                self.vram == old(self).vram,
                v0 == old(self).vram,
                self.rng == old(self).rng,
                self.memory() == grab_mem(old(self).memory(), v0, x as int, y as int, cols as int, buf, index as int, t as int),
            decreases total - t,
        {
            let c = t / 128;
            let within = t % 128;
            let slot = within / 32;
            let row = (within % 32) / 2;
            let k = within % 2;
            assert(c < cols * cell_rows) by (nonlinear_arith)
                requires
                    t < cols * cell_rows * 128,
                    c == t / 128,
            ;
            assert(cols > 0);
            let cy = c / cols;
            let cx = c % cols;
            assert(cy < cell_rows) by (nonlinear_arith)
                requires
                    c < cols * cell_rows,
                    cy == c / cols,
                    cols > 0,
            ;
            let plane: usize = if slot == 0 { 3 } else { (slot - 1) as usize };
            let at: usize = ((y as u64 + cy * 16 + row) * 80 + x as u64 + cx * 2 + k) as usize;
            let value = self.vram.get(plane, at);
            let delta = (((index as u64 + c) * 128 + row * 8 + slot * 2 + k) % 65536) as i32;
            proof {
                lemma_add_mod(buf, (index + c) * 128 + row * 8 + slot * 2 + k);
            }
            let dst = ptr_add(buf, delta);
            self.mem.wb(dst, value);
            t = t + 1;
        }
    }

    /// `sub_233DD`: copies cell `index` of `src` to `dst`.
    pub fn cell_copy(&mut self, dst: FarPtr, src: FarPtr, index: u16)
        requires
            old(self).wf(),
        ensures
            final(self).wf(),
            final(self).screen() == old(self).screen(),
            final(self).memory() == writes_spec(old(self).memory(), dst, reads_spec(old(self).memory(), add_spec(src, index * 128), 128)),
            final(self).seed() == old(self).seed(),
    {
        self.mem.memcpy(dst, ptr_add(src, index as i32 * 128), 128);
    }
}



/// What `cursor_show(state)` leaves: with the cursor enabled and the state
/// changing, both shown flags set to it.
pub open spec fn cursor_show_ds(ds: Seq<u8>, state: u16) -> Seq<u8> {
    if ds_word(ds, super::ds::CURSOR_ENABLED) != 0 && state != ds_word(ds, super::ds::CURSOR_SHOWN) {
        set_ds_word(set_ds_word(ds, super::ds::CURSOR_SHOWN, state), super::ds::CURSOR_SHOWN2, state)
    } else {
        ds
    }
}

impl Engine {
    /// `sub_21A38`: show (1) / hide (0) the software cursor; returns the
    /// previous state.  A change marks the screen for presenting.
    pub fn cursor_show(&mut self, state: u16) -> (res: u16)
        requires
            old(self).mem_ok(),
        ensures
            final(self).mem_ok(),
            res == ds_word(old(self).memory().ds, super::ds::CURSOR_SHOWN),
            final(self).memory() == (MemView { ds: cursor_show_ds(old(self).memory().ds, state), ..old(self).memory() }),
            final(self).screen().pages == old(self).screen().pages,
            final(self).screen().access == old(self).screen().access,
            final(self).screen().display == old(self).screen().display,
            final(self).screen().palette == old(self).screen().palette,
            final(self).screen().dirty == (old(self).screen().dirty || (ds_word(old(self).memory().ds, super::ds::CURSOR_ENABLED)
                != 0 && state != ds_word(old(self).memory().ds, super::ds::CURSOR_SHOWN))),
    {
        let previous = self.mem.w(super::ds::CURSOR_SHOWN);
        if self.mem.w(super::ds::CURSOR_ENABLED) != 0 && state != previous {
            self.mem.set_w(super::ds::CURSOR_SHOWN, state);
            self.mem.set_w(super::ds::CURSOR_SHOWN2, state);
            self.vram.dirty = true;
        }
        previous
    }
}

// ---------------------------------------------------------------- PDT decoding

/// DS pointer to the rectangle of the PDT last decoded.
pub const PDT_RECT_PTR: u16 = 0x692A;

/// Byte `k` of a stream (0 past its end).
pub open spec fn sbyte(bytes: Seq<u8>, k: int) -> u8 {
    if 0 <= k < bytes.len() {
        bytes[k]
    } else {
        0
    }
}

/// A token of the PDT column stream at `c`: `m4 run top bottom`, `m3 run
/// byte` (both rows the same), or a plain `top bottom` pair.  Returns the
/// run, the two bytes and the position after the token.
pub open spec fn pdt_token(bytes: Seq<u8>, c: int, m4: u8, m3: u8) -> (int, u8, u8, int) {
    let first = sbyte(bytes, c);
    if first == m4 {
        (sbyte(bytes, c + 1) as int, sbyte(bytes, c + 2), sbyte(bytes, c + 3), c + 4)
    } else if first == m3 {
        (sbyte(bytes, c + 1) as int, sbyte(bytes, c + 2), sbyte(bytes, c + 2), c + 3)
    } else {
        (1, first, sbyte(bytes, c + 1), c + 2)
    }
}

/// A byte of the access page's `plane` set (ignored past the plane).
pub open spec fn vset(pages: Seq<u8>, access: int, plane: int, off: int, v: u8) -> Seq<u8> {
    if 0 <= off < PLANE_BYTES {
        pages.update(vidx(access, plane, off), v)
    } else {
        pages
    }
}

/// `run` line pairs painted down from `at`: `a` on the first line, `b`
/// on the second.
pub open spec fn paint_run(pages: Seq<u8>, access: int, plane: int, at: int, a: u8, b: u8, run: nat) -> Seq<u8>
    decreases run,
{
    if run == 0 {
        pages
    } else {
        let p1 = vset(vset(pages, access, plane, at, a), access, plane, at + ROW_BYTES, b);
        paint_run(p1, access, plane, at + 2 * ROW_BYTES, a, b, (run - 1) as nat)
    }
}

/// One column from line pair `done` on, until `pairs` are painted; the
/// tokens read from `c`.  Returns the pages, the stream position and
/// whether a byte was written; `None` past the budget.
pub open spec fn pdt_column(
    pages: Seq<u8>,
    access: int,
    bytes: Seq<u8>,
    m4: u8,
    m3: u8,
    plane: int,
    at: int,
    done: int,
    pairs: int,
    c: int,
    fuel: nat,
) -> Option<(Seq<u8>, int, bool)>
    decreases fuel,
{
    if done >= pairs {
        Some((pages, c, false))
    } else if fuel == 0 {
        None
    } else {
        let t = pdt_token(bytes, c, m4, m3);
        let p1 = paint_run(pages, access, plane, at, t.1, t.2, t.0 as nat);
        match pdt_column(p1, access, bytes, m4, m3, plane, at + 2 * ROW_BYTES * t.0, done + t.0, pairs, t.3, (fuel - 1) as nat) {
            None => None,
            Some(r) => Some((r.0, r.1, r.2 || t.0 > 0)),
        }
    }
}

/// The columns from (`plane`, `column`) on, plane by plane, each column
/// from `start + column` down.
pub open spec fn pdt_columns(
    pages: Seq<u8>,
    access: int,
    bytes: Seq<u8>,
    m4: u8,
    m3: u8,
    start: int,
    width: int,
    pairs: int,
    plane: int,
    column: int,
    c: int,
    fuel: nat,
) -> Option<(Seq<u8>, bool)>
    decreases 4 - plane, width - column,
{
    if plane >= 4 || plane < 0 {
        Some((pages, false))
    } else if column >= width || column < 0 {
        pdt_columns(pages, access, bytes, m4, m3, start, width, pairs, plane + 1, 0, c, fuel)
    } else {
        match pdt_column(pages, access, bytes, m4, m3, plane, start + column, 0, pairs, c, fuel) {
            None => None,
            Some(r) => match pdt_columns(r.0, access, bytes, m4, m3, start, width, pairs, plane, column + 1, r.1, fuel) {
                None => None,
                Some(q) => Some((q.0, q.1 || r.2)),
            },
        }
    }
}

/// What the PDT body at `data` sets up before its columns: the palette
/// copied when asked, the rectangle pointer recorded.
pub open spec fn pdt_setup(m: MemView, data: u32) -> MemView {
    let m1 = if ds_word(m.ds, super::ds::PDT_PALETTE) == 1 {
        writes_spec(m, super::mem::far_spec(super::mem::DS_SEG, super::ds::PALETTE_BANKS), reads_spec(m, data, 32))
    } else {
        m
    };
    super::mem::write_dword(m1, super::mem::far_spec(super::mem::DS_SEG, PDT_RECT_PTR), add_spec(data, 0x22))
}

/// The stream of column tokens of the body at `data`: its block (or DS)
/// from offset 0x2A on.
pub open spec fn pdt_stream(m: MemView, data: u32) -> Seq<u8> {
    let p = add_spec(data, 0x2a);
    if super::mem::seg_spec(p) == super::mem::DS_SEG {
        m.ds.skip(super::mem::off_spec(p) as int)
    } else {
        match super::mem::block_of(m.heap, super::mem::seg_spec(p)) {
            Some(b) => if super::mem::off_spec(p) <= b.len() {
                b.skip(super::mem::off_spec(p) as int)
            } else {
                Seq::empty()
            },
            None => Seq::empty(),
        }
    }
}

/// The decoded columns of the body at `data` (after `pdt_setup`): the
/// rectangle gives the columns (`right - left + 1`, low byte) and line
/// pairs (`(bottom - top) / 2 + 1`, low byte) from (left, top).
pub open spec fn pdt_body(pages: Seq<u8>, access: int, m: MemView, data: u32, fuel: nat) -> Option<(Seq<u8>, bool)> {
    let rect = add_spec(data, 0x22);
    let left = read_word(m, rect);
    let top = read_word(m, add_spec(rect, 2));
    let right = read_word(m, add_spec(rect, 4));
    let bottom = read_word(m, add_spec(rect, 6));
    let width = (right as int - left as int + 1) % 256;
    let pairs = ((super::trunc_div(bottom as i16 as int - top as i16 as int, 2) + 1) as u8) as int;
    pdt_columns(
        pages,
        access,
        pdt_stream(m, data),
        read_spec(m, add_spec(data, 0x20)),
        read_spec(m, add_spec(data, 0x21)),
        top as int * ROW_BYTES + left as int,
        width,
        pairs,
        0,
        0,
        0,
        fuel,
    )
}

/// The rectangle published from the recorded pointer: left, right, top,
/// bottom words.
pub open spec fn publish_spec(m: MemView) -> MemView {
    let rect = super::mem::read_dword(m, super::mem::far_spec(super::mem::DS_SEG, PDT_RECT_PTR));
    let d1 = set_ds_word(m.ds, super::ds::PDT_LEFT, read_word(m, rect));
    let d2 = set_ds_word(d1, super::ds::PDT_RIGHT, read_word(m, add_spec(rect, 4)));
    let d3 = set_ds_word(d2, super::ds::PDT_TOP, read_word(m, add_spec(rect, 2)));
    MemView { ds: set_ds_word(d3, super::ds::PDT_BOTTOM, read_word(m, add_spec(rect, 6))), ..m }
}

/// Whether the columns of a PDT in memory decode within some budget.
pub open spec fn pdt_decodes(pages: Seq<u8>, access: int, m: MemView, pdt: u32) -> bool {
    read_spec(m, pdt) == 0x34 ==> exists|f: nat| #[trigger] pdt_body(pages, access, pdt_setup(m, add_spec(pdt, 1)), add_spec(pdt, 1), f) is Some
}

/// The decode of a PDT in memory, at a budget that suffices.
pub open spec fn pdt_decoded(pages: Seq<u8>, access: int, m: MemView, pdt: u32) -> (Seq<u8>, bool) {
    let m1 = pdt_setup(m, add_spec(pdt, 1));
    pdt_body(pages, access, m1, add_spec(pdt, 1), choose|f: nat| pdt_body(pages, access, m1, add_spec(pdt, 1), f) is Some).unwrap()
}

/// The position `min(c, n)`: reading past the end gives zeros either way.
pub proof fn lemma_token_capped(bytes: Seq<u8>, c: int, m4: u8, m3: u8)
    requires
        0 <= c,
    ensures
        ({
            let n = bytes.len() as int;
            let e = if c < n { c } else { n };
            let t = pdt_token(bytes, c, m4, m3);
            let u = pdt_token(bytes, e, m4, m3);
            &&& t.0 == u.0 && t.1 == u.1 && t.2 == u.2
            &&& (if t.3 < n { t.3 } else { n }) == (if u.3 < n { u.3 } else { n })
        }),
{
}

impl Engine {
    /// `run` line pairs of a column (see `paint_run`).
    fn paint_run_exec(&mut self, plane: usize, from: usize, a: u8, b: u8, run: u8)
        requires
            old(self).wf(),
            plane < 4,
            from < 0x4000_0000,
        ensures
            final(self).wf(),
            final(self).memory() == old(self).memory(),
            final(self).screen().pages@ == paint_run(old(self).screen().pages@, old(self).screen().access as int, plane as int, from as int, a, b, run as nat),
            final(self).screen().access == old(self).screen().access,
            final(self).screen().display == old(self).screen().display,
            final(self).screen().palette == old(self).screen().palette,
            final(self).screen().dirty == (old(self).screen().dirty || (run > 0 && old(self).screen().access == old(self).screen().display)),
    {
        let mut k: u8 = run;
        let mut at = from;
        while k > 0
            invariant
                self.wf(),
                plane < 4,
                k <= run,
                at as int == from as int + 160 * (run as int - k as int),
                from < 0x4000_0000,
                self.memory() == old(self).memory(),
                self.vram.access == old(self).vram.access,
                self.vram.display == old(self).vram.display,
                self.vram.palette == old(self).vram.palette,
                paint_run(old(self).vram.pages@, old(self).vram.access as int, plane as int, from as int, a, b, run as nat)
                    == paint_run(self.vram.pages@, self.vram.access as int, plane as int, at as int, a, b, k as nat),
                self.vram.dirty == (old(self).vram.dirty || (k < run && old(self).vram.access == old(self).vram.display)),
            decreases k,
        {
            assert(ROW_BYTES == 80);
            self.vram.set(plane, at, a);
            self.vram.set(plane, at + 80, b);
            at = at + 160;
            k = k - 1;
        }
    }
}

/// The byte `k` after position `cur` of a stream (0 past its end).
fn stream_byte(bytes: &[u8], cur: usize, k: usize) -> (res: u8)
    ensures
        res == sbyte(bytes@, cur + k),
{
    if cur < bytes.len() && k < bytes.len() - cur {
        bytes[cur + k]
    } else {
        0
    }
}

/// `cur + k`, kept at the end of the stream.
fn stream_skip(bytes: &[u8], cur: usize, k: usize) -> (res: usize)
    requires
        cur <= bytes@.len(),
    ensures
        res == (if cur + k < bytes@.len() { cur + k } else { bytes@.len() as int }),
{
    if bytes.len() - cur > k {
        cur + k
    } else {
        bytes.len()
    }
}

pub open spec fn capped(c: int, n: int) -> int {
    if c < n {
        c
    } else {
        n
    }
}

impl Engine {
    /// One column from line pair `done` on (see `pdt_column`); `cur` is
    /// the stream position `c`, kept at the stream's end.
    #[verifier::spinoff_prover]
    #[verifier::rlimit(40)]
    fn pdt_column_in(
        &mut self,
        bytes: &[u8],
        m4: u8,
        m3: u8,
        plane: usize,
        base: usize,
        done: u32,
        pairs: u32,
        cur: usize,
        Ghost(c): Ghost<int>,
        Ghost(fuel): Ghost<nat>,
    ) -> (res: (usize, bool))
        requires
            old(self).wf(),
            plane < 4,
            base < 0x1000_0000,
            pairs <= 255,
            done <= 510,
            0 <= c,
            cur == capped(c, bytes@.len() as int),
            pdt_column(old(self).screen().pages@, old(self).screen().access as int, bytes@, m4, m3, plane as int,
                base + 160 * done, done as int, pairs as int, c, fuel) is Some,
        ensures
            final(self).wf(),
            final(self).memory() == old(self).memory(),
            final(self).screen().access == old(self).screen().access,
            final(self).screen().display == old(self).screen().display,
            final(self).screen().palette == old(self).screen().palette,
            ({
                let r = pdt_column(old(self).screen().pages@, old(self).screen().access as int, bytes@, m4, m3, plane as int,
                    base + 160 * done, done as int, pairs as int, c, fuel).unwrap();
                &&& final(self).screen().pages@ == r.0
                &&& res.0 == capped(r.1, bytes@.len() as int)
                &&& res.1 == r.2
                &&& final(self).screen().dirty == (old(self).screen().dirty || (r.2 && old(self).screen().access
                    == old(self).screen().display))
                &&& 0 <= r.1
            }),
        decreases fuel,
    {
        if done >= pairs {
            return (cur, false);
        }
        proof {
            lemma_token_capped(bytes@, c, m4, m3);
        }
        let first = stream_byte(bytes, cur, 0);
        let (run, a, b, len) = if first == m4 {
            (stream_byte(bytes, cur, 1), stream_byte(bytes, cur, 2), stream_byte(bytes, cur, 3), 4)
        } else if first == m3 {
            let v = stream_byte(bytes, cur, 2);
            (stream_byte(bytes, cur, 1), v, v, 3)
        } else {
            (1u8, first, stream_byte(bytes, cur, 1), 2)
        };
        let next = stream_skip(bytes, cur, len);
        let ghost t = pdt_token(bytes@, c, m4, m3);
        let at = base + 160 * done as usize;
        self.paint_run_exec(plane, at, a, b, run);
        let done2 = done + run as u32;
        let (end, touched) = self.pdt_column_in(bytes, m4, m3, plane, base, done2, pairs, next, Ghost(t.3), Ghost((fuel - 1) as nat));
        (end, touched || run > 0)
    }

    /// The columns from (`plane`, `column`) on (see `pdt_columns`).
    #[verifier::spinoff_prover]
    fn pdt_columns_in(
        &mut self,
        bytes: &[u8],
        m4: u8,
        m3: u8,
        start: usize,
        width: u32,
        pairs: u32,
        plane: usize,
        column: u32,
        cur: usize,
        Ghost(c): Ghost<int>,
        Ghost(fuel): Ghost<nat>,
    ) -> (res: bool)
        requires
            old(self).wf(),
            plane <= 4,
            column <= width <= 255,
            start < 0x0800_0000,
            pairs <= 255,
            0 <= c,
            cur == capped(c, bytes@.len() as int),
            pdt_columns(old(self).screen().pages@, old(self).screen().access as int, bytes@, m4, m3, start as int,
                width as int, pairs as int, plane as int, column as int, c, fuel) is Some,
        ensures
            final(self).wf(),
            final(self).memory() == old(self).memory(),
            final(self).screen().access == old(self).screen().access,
            final(self).screen().display == old(self).screen().display,
            final(self).screen().palette == old(self).screen().palette,
            ({
                let r = pdt_columns(old(self).screen().pages@, old(self).screen().access as int, bytes@, m4, m3,
                    start as int, width as int, pairs as int, plane as int, column as int, c, fuel).unwrap();
                &&& final(self).screen().pages@ == r.0
                &&& res == r.1
                &&& final(self).screen().dirty == (old(self).screen().dirty || (r.1 && old(self).screen().access
                    == old(self).screen().display))
            }),
        decreases 4 - plane, width - column,
    {
        if plane >= 4 {
            return false;
        }
        if column >= width {
            return self.pdt_columns_in(bytes, m4, m3, start, width, pairs, plane + 1, 0, cur, Ghost(c), Ghost(fuel));
        }
        let ghost r = pdt_column(self.screen().pages@, self.screen().access as int, bytes@, m4, m3, plane as int,
            start + column, 0, pairs as int, c, fuel).unwrap();
        let (next, touched) = self.pdt_column_in(bytes, m4, m3, plane, start + column as usize, 0, pairs, cur, Ghost(c), Ghost(fuel));
        let rest = self.pdt_columns_in(bytes, m4, m3, start, width, pairs, plane, column + 1, next, Ghost(r.1), Ghost(fuel));
        rest || touched
    }
}

impl Engine {
    /// The body of a PDT at `data` (see `pdt_setup` and `pdt_body`).
    #[verifier::spinoff_prover]
    #[verifier::rlimit(40)]
    fn pdt_decode_body(&mut self, data: FarPtr, Ghost(fuel): Ghost<nat>)
        requires
            old(self).wf(),
            pdt_body(old(self).screen().pages@, old(self).screen().access as int, pdt_setup(old(self).memory(), data), data, fuel) is Some,
        ensures
            final(self).wf(),
            final(self).memory() == pdt_setup(old(self).memory(), data),
            final(self).screen().access == old(self).screen().access,
            final(self).screen().display == old(self).screen().display,
            final(self).screen().palette == old(self).screen().palette,
            ({
                let r = pdt_body(old(self).screen().pages@, old(self).screen().access as int, pdt_setup(old(self).memory(), data), data, fuel).unwrap();
                &&& final(self).screen().pages@ == r.0
                &&& final(self).screen().dirty == (old(self).screen().dirty || (r.1 && old(self).screen().access
                    == old(self).screen().display))
            }),
    {
        if self.mem.w(super::ds::PDT_PALETTE) == 1 {
            self.mem.memcpy(super::mem::ds_ptr(super::ds::PALETTE_BANKS), data, 32);
        }
        let rect = ptr_add(data, 0x22);
        self.mem.set_d(PDT_RECT_PTR, rect);
        let m4 = self.mem.rb(ptr_add(data, 0x20));
        let m3 = self.mem.rb(ptr_add(data, 0x21));
        let left = self.mem.rw(rect);
        let top = self.mem.rw(ptr_add(rect, 2));
        let right = self.mem.rw(ptr_add(rect, 4));
        let bottom = self.mem.rw(ptr_add(rect, 6));
        let span = right.wrapping_sub(left).wrapping_add(1);
        let width = (span % 256) as u32;
        assert(width == (right as int - left as int + 1) % 256) by (nonlinear_arith)
            requires
                span == vstd::wrapping::u16_specs::wrapping_add(vstd::wrapping::u16_specs::wrapping_sub(right, left), 1u16),
                width == span % 256,
        ;
        let pairs = (((bottom as i16) as i32 - (top as i16) as i32) / 2 + 1) as u8;
        let start = top as usize * 80 + left as usize;
        let bytes = vstd::slice::slice_to_vec(self.mem.slice(ptr_add(data, 0x2a)));
        self.pdt_columns_in(bytes.as_slice(), m4, m3, start, width, pairs as u32, 0, 0, 0, Ghost(0int), Ghost(fuel));
    }

    /// Publishes the recorded PDT rectangle (see `publish_spec`).
    fn publish_pdt_rect(&mut self)
        requires
            old(self).wf(),
        ensures
            final(self).wf(),
            final(self).memory() == publish_spec(old(self).memory()),
            final(self).screen() == old(self).screen(),
    {
        let rect = self.mem.d(PDT_RECT_PTR);
        let left = self.mem.rw(rect);
        let top = self.mem.rw(ptr_add(rect, 2));
        let right = self.mem.rw(ptr_add(rect, 4));
        let bottom = self.mem.rw(ptr_add(rect, 6));
        self.mem.set_w(super::ds::PDT_LEFT, left);
        self.mem.set_w(super::ds::PDT_RIGHT, right);
        self.mem.set_w(super::ds::PDT_TOP, top);
        self.mem.set_w(super::ds::PDT_BOTTOM, bottom);
    }

    /// `sub_22893`: decode a PDT held in memory (marker byte 0x34) into the
    /// access page, then publish its rectangle.  The decoder reads the
    /// column stream until every column is full; `pdt_decodes` says that it
    /// gets there.
    pub fn pdt_decode(&mut self, pdt: FarPtr)
        requires
            old(self).wf(),
            pdt_decodes(old(self).screen().pages@, old(self).screen().access as int, old(self).memory(), pdt),
        ensures
            final(self).wf(),
            final(self).screen().access == old(self).screen().access,
            final(self).screen().display == old(self).screen().display,
            final(self).screen().palette == old(self).screen().palette,
            ({
                let m = old(self).memory();
                if read_spec(m, pdt) == 0x34 {
                    let r = pdt_decoded(old(self).screen().pages@, old(self).screen().access as int, m, pdt);
                    &&& final(self).memory() == publish_spec(pdt_setup(m, add_spec(pdt, 1)))
                    &&& final(self).screen().pages@ == r.0
                    &&& final(self).screen().dirty == (old(self).screen().dirty || (r.1 && old(self).screen().access
                        == old(self).screen().display))
                } else {
                    &&& final(self).memory() == publish_spec(m)
                    &&& final(self).screen() == old(self).screen()
                }
            }),
    {
        if self.mem.rb(pdt) == 0x34 {
            let data = ptr_add(pdt, 1);
            let ghost f = choose|f: nat| pdt_body(self.screen().pages@, self.screen().access as int, pdt_setup(self.memory(), data), data, f) is Some;
            self.pdt_decode_body(data, Ghost(f));
        }
        self.publish_pdt_rect();
    }
}
} // verus!
