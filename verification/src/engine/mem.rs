//! Segmented memory model used by the UK2 engine.
//!
//! `UK2.EXE` keeps nearly all engine state in its data segment and passes
//! far pointers around freely (the MES operand decoder even returns raw far
//! pointers into DS).  The data segment is therefore a real 64 KiB byte
//! array initialised from the game's own `UK2.EXE`, and every heap
//! allocation (`farmalloc`/`farrealloc`) is its own segment.  A far pointer
//! is `seg << 16 | off`, stored in memory exactly as UK2.EXE does (offset
//! word first, then segment word).
use vstd::prelude::*;

use crate::mes::le16;

verus! {

pub type FarPtr = u32;

/// Segment value of UK2.EXE's data segment (`seg dseg`).
pub const DS_SEG: u16 = 0x1361;
/// Linear address of DS:0 inside the loaded executable image.
pub const DS_IMAGE_OFFSET: usize = 0x13610;
/// Segment of the first heap block.
pub const HEAP_SEG_BASE: u16 = 0x4000;
/// Heap blocks that fit between the first heap segment and the top of the address space.
pub const HEAP_SLOTS: usize = 0xB000;

pub open spec fn far_spec(seg: u16, off: u16) -> u32 {
    (seg as int * 65536 + off as int) as u32
}

pub open spec fn seg_spec(p: u32) -> u16 {
    (p / 65536) as u16
}

pub open spec fn off_spec(p: u32) -> u16 {
    (p % 65536) as u16
}

/// `p` moved by `delta` bytes inside its segment (the offset wraps).
pub open spec fn add_spec(p: u32, delta: int) -> u32 {
    far_spec(seg_spec(p), ((off_spec(p) + delta) % 65536) as u16)
}

pub fn far(seg: u16, off: u16) -> (res: FarPtr)
    ensures
        res == far_spec(seg, off),
        seg_spec(res) == seg,
        off_spec(res) == off,
{
    let r = ((seg as u32) << 16) | (off as u32);
    assert(r == (seg as u32) * 65536 + (off as u32)) by (bit_vector)
        requires
            r == ((seg as u32) << 16) | (off as u32),
    ;
    assert(seg as int * 65536 + off as int <= 0xffff_ffff) by (nonlinear_arith)
        requires
            seg <= 0xffff,
            off <= 0xffff,
    ;
    r
}

pub fn seg_of(ptr: FarPtr) -> (res: u16)
    ensures
        res == seg_spec(ptr),
{
    let r = (ptr >> 16) as u16;
    assert(r == (ptr / 65536) as u16) by (bit_vector)
        requires
            r == (ptr >> 16) as u16,
    ;
    r
}

pub fn off_of(ptr: FarPtr) -> (res: u16)
    ensures
        res == off_spec(ptr),
{
    let r = ptr as u16;
    assert(r == (ptr % 65536) as u16) by (bit_vector)
        requires
            r == ptr as u16,
    ;
    r
}

pub fn ds_ptr(off: u16) -> (res: FarPtr)
    ensures
        res == far_spec(DS_SEG, off),
        seg_spec(res) == DS_SEG,
        off_spec(res) == off,
{
    far(DS_SEG, off)
}

pub fn ptr_add(ptr: FarPtr, delta: i32) -> (res: FarPtr)
    ensures
        res == add_spec(ptr, delta as int),
        seg_spec(res) == seg_spec(ptr),
        off_spec(res) == (off_spec(ptr) + delta) % 65536,
{
    let off = off_of(ptr);
    let moved = (off as i32).wrapping_add(delta) as u16;
    assert(moved == ((off as int + delta as int) % 65536) as u16) by (bit_vector)
        requires
            moved == ((off as i32).wrapping_add(delta)) as u16,
    ;
    far(seg_of(ptr), moved)
}

/// What memory holds: the data segment, the heap blocks (freed ones are
/// `None`), and the freed slots waiting for reuse.
pub struct MemView {
    pub ds: Seq<u8>,
    pub heap: Seq<Option<Seq<u8>>>,
    pub free: Seq<usize>,
}

/// The heap block of segment `seg`, if it is live.
pub open spec fn block_of(heap: Seq<Option<Seq<u8>>>, seg: u16) -> Option<Seq<u8>> {
    if seg >= HEAP_SEG_BASE && seg - HEAP_SEG_BASE < heap.len() {
        heap[seg - HEAP_SEG_BASE]
    } else {
        None
    }
}

/// The byte at `p`: DS, or a live heap block, else 0.
pub open spec fn read_spec(m: MemView, p: u32) -> u8 {
    if seg_spec(p) == DS_SEG {
        m.ds[off_spec(p) as int]
    } else {
        match block_of(m.heap, seg_spec(p)) {
            Some(b) => if off_spec(p) < b.len() {
                b[off_spec(p) as int]
            } else {
                0
            },
            None => 0,
        }
    }
}

/// Memory after writing `v` at `p`; writes outside DS and live blocks are dropped.
pub open spec fn write_spec(m: MemView, p: u32, v: u8) -> MemView {
    if seg_spec(p) == DS_SEG {
        MemView { ds: m.ds.update(off_spec(p) as int, v), ..m }
    } else {
        match block_of(m.heap, seg_spec(p)) {
            Some(b) => if off_spec(p) < b.len() {
                MemView { heap: m.heap.update(seg_spec(p) - HEAP_SEG_BASE, Some(b.update(off_spec(p) as int, v))), ..m }
            } else {
                m
            },
            None => m,
        }
    }
}

/// A write at `p` lands somewhere.
pub open spec fn writable(m: MemView, p: u32) -> bool {
    seg_spec(p) == DS_SEG || (block_of(m.heap, seg_spec(p)) matches Some(b) && off_spec(p) < b.len())
}

/// Little-endian word at `p` (the second byte wraps inside the segment).
pub open spec fn read_word(m: MemView, p: u32) -> u16 {
    le16(read_spec(m, p), read_spec(m, add_spec(p, 1)))
}

pub open spec fn write_word(m: MemView, p: u32, v: u16) -> MemView {
    write_spec(write_spec(m, p, (v % 256) as u8), add_spec(p, 1), (v / 256) as u8)
}

/// A far pointer stored at `p`: offset word, then segment word.
pub open spec fn read_dword(m: MemView, p: u32) -> u32 {
    far_spec(read_word(m, add_spec(p, 2)), read_word(m, p))
}

pub open spec fn write_dword(m: MemView, p: u32, v: u32) -> MemView {
    write_word(write_word(m, p, off_spec(v)), add_spec(p, 2), seg_spec(v))
}

/// Little-endian word of the data segment at `off` (the high byte wraps).
pub open spec fn ds_word(ds: Seq<u8>, off: u16) -> u16 {
    le16(ds[off as int], ds[(off as int + 1) % 65536])
}

/// The data segment with word `v` stored at `off`.
pub open spec fn set_ds_word(ds: Seq<u8>, off: u16, v: u16) -> Seq<u8> {
    ds.update(off as int, (v % 256) as u8).update((off as int + 1) % 65536, (v / 256) as u8)
}

/// A data-segment pointer and the one after it.
pub proof fn lemma_ds_ptr(off: u16)
    ensures
        seg_spec(far_spec(DS_SEG, off)) == DS_SEG,
        off_spec(far_spec(DS_SEG, off)) == off,
        seg_spec(add_spec(far_spec(DS_SEG, off), 1)) == DS_SEG,
        off_spec(add_spec(far_spec(DS_SEG, off), 1)) == (off as int + 1) % 65536,
{
    let p = far_spec(DS_SEG, off);
    assert(DS_SEG as int * 65536 + off as int <= 0xffff_ffff);
    vstd::arithmetic::div_mod::lemma_fundamental_div_mod_converse(DS_SEG as int * 65536 + off as int, 65536, DS_SEG as int, off as int);
    let n = (off as int + 1) % 65536;
    vstd::arithmetic::div_mod::lemma_mod_bound(off as int + 1, 65536);
    vstd::arithmetic::div_mod::lemma_fundamental_div_mod_converse(DS_SEG as int * 65536 + n, 65536, DS_SEG as int, n);
}

/// Word access through a data-segment pointer is word access to DS.
pub proof fn lemma_ds_word(m: MemView, off: u16, v: u16)
    requires
        mem_wf(m),
    ensures
        read_word(m, far_spec(DS_SEG, off)) == ds_word(m.ds, off),
        write_word(m, far_spec(DS_SEG, off), v) == (MemView { ds: set_ds_word(m.ds, off, v), ..m }),
{
    lemma_ds_ptr(off);
}

pub struct Mem {
    pub ds: Vec<u8>,
    heap: Vec<Option<Vec<u8>>>,
    free_slots: Vec<usize>,
}

pub open spec fn heap_view(h: Seq<Option<Vec<u8>>>) -> Seq<Option<Seq<u8>>> {
    h.map_values(|b: Option<Vec<u8>>| match b {
        Some(v) => Some(v@),
        None => None,
    })
}

/// The memory invariant: a 64 KiB data segment, at most [`HEAP_SLOTS`] heap
/// slots, and free slots that are distinct and name freed blocks.
pub open spec fn mem_wf(m: MemView) -> bool {
    &&& m.ds.len() == 0x10000
    &&& m.heap.len() <= HEAP_SLOTS
    &&& forall|i: int| 0 <= i < m.free.len() ==> (#[trigger] m.free[i]) < m.heap.len() && m.heap[m.free[i] as int] is None
    &&& forall|i: int, j: int| 0 <= i < j < m.free.len() ==> #[trigger] m.free[i] != #[trigger] m.free[j]
}

impl View for Mem {
    type V = MemView;

    closed spec fn view(&self) -> MemView {
        MemView { ds: self.ds@, heap: heap_view(self.heap@), free: self.free_slots@ }
    }
}

/// A new allocation is possible: a freed slot, or room for one more.
pub open spec fn can_alloc(m: MemView) -> bool {
    m.free.len() > 0 || m.heap.len() < HEAP_SLOTS
}

/// The segment that the next allocation gets.
pub open spec fn next_slot(m: MemView) -> int {
    if m.free.len() > 0 {
        m.free.last() as int
    } else {
        m.heap.len() as int
    }
}

/// Memory after allocating a zeroed block of `size` bytes (at least one).
pub open spec fn alloc_spec(m: MemView, size: int) -> MemView {
    let block = Seq::new(if size > 1 { size as nat } else { 1 }, |i: int| 0u8);
    if m.free.len() > 0 {
        MemView { heap: m.heap.update(m.free.last() as int, Some(block)), free: m.free.drop_last(), ..m }
    } else {
        MemView { heap: m.heap.push(Some(block)), ..m }
    }
}

/// The length of the NUL-terminated string at `p`, counting from byte `n`
/// and stopping after 64 KiB.
pub open spec fn str_len_from(m: MemView, p: u32, n: int) -> int
    decreases 0x10000 - n,
{
    if n >= 0x10000 || n < 0 || read_spec(m, add_spec(p, n)) == 0 {
        n
    } else {
        str_len_from(m, p, n + 1)
    }
}

/// `strlen` of the string at `p`; a null pointer has length 0.
pub open spec fn strlen_spec(m: MemView, p: u32) -> int {
    if p == 0 {
        0
    } else {
        str_len_from(m, p, 0)
    }
}

/// Memory after writing `b` byte by byte from `p` on.
pub open spec fn writes_spec(m: MemView, p: u32, b: Seq<u8>) -> MemView
    decreases b.len(),
{
    if b.len() == 0 {
        m
    } else {
        write_spec(writes_spec(m, p, b.drop_last()), add_spec(p, b.len() - 1), b.last())
    }
}

/// The bytes at `p .. p + len`.
pub open spec fn reads_spec(m: MemView, p: u32, len: int) -> Seq<u8> {
    Seq::new(len as nat, |i: int| read_spec(m, add_spec(p, i)))
}

/// Reasons `UK2.EXE` is refused.
#[derive(Debug, Clone, Copy, PartialEq, Eq)]
pub enum MemError {
    NotMz,
    HeaderBeyondFile,
    NoDataSegment,
    UnsupportedBuild,
}

/// `uk2.exe SOSAR SYSTEM`, found at DS:057E of the supported build.
pub const SIGNATURE: [u8; 20] = [
    0x75, 0x6b, 0x32, 0x2e, 0x65, 0x78, 0x65, 0x20, 0x53, 0x4f, 0x53, 0x41, 0x52, 0x20, 0x53, 0x59, 0x53, 0x54, 0x45,
    0x4d,
];

/// The data segment image inside an MZ file.
pub open spec fn exe_data(exe: Seq<u8>) -> Seq<u8> {
    exe.skip(le16(exe[8], exe[9]) as int * 16 + DS_IMAGE_OFFSET)
}

/// The first check `UK2.EXE` fails.
pub open spec fn exe_error(exe: Seq<u8>) -> Option<MemError> {
    if exe.len() < 0x1c || exe[0] != 0x4d || exe[1] != 0x5a {
        Some(MemError::NotMz)
    } else if le16(exe[8], exe[9]) as int * 16 > exe.len() {
        Some(MemError::HeaderBeyondFile)
    } else if le16(exe[8], exe[9]) as int * 16 + DS_IMAGE_OFFSET > exe.len() {
        Some(MemError::NoDataSegment)
    } else if exe_data(exe).len() < 0x57e + 20 || exe_data(exe).subrange(0x57eint, 0x592int) != SIGNATURE@ {
        Some(MemError::UnsupportedBuild)
    } else {
        None
    }
}

/// Index `i` in `0 .. len` moved onto pointer `p`.
fn ptr_at(p: FarPtr, i: usize) -> (res: FarPtr)
    ensures
        res == add_spec(p, i as int),
{
    let r = ptr_add(p, (i % 65536) as i32);
    proof {
        vstd::arithmetic::div_mod::lemma_add_mod_noop(off_spec(p) as int, i as int, 65536);
        vstd::arithmetic::div_mod::lemma_add_mod_noop(off_spec(p) as int, (i % 65536) as int, 65536);
        vstd::arithmetic::div_mod::lemma_mod_twice(i as int, 65536);
    }
    r
}

impl Mem {
    pub closed spec fn wf(&self) -> bool {
        mem_wf(self@)
    }

    /// A well-formed memory meets the memory invariant.
    pub proof fn lemma_wf(&self)
        requires
            self.wf(),
        ensures
            mem_wf(self@),
            self@.ds.len() == 0x10000,
    {
    }

    /// An empty data segment and no heap.
    pub fn blank() -> (res: Self)
        ensures
            res.wf(),
            res@.ds == Seq::new(0x10000, |i: int| 0u8),
            res@.heap.len() == 0,
            res@.free.len() == 0,
    {
        let m = Mem { ds: vec![0u8; 0x10000], heap: Vec::new(), free_slots: Vec::new() };
        assert(m@.ds =~= Seq::new(0x10000, |i: int| 0u8));
        m
    }

    /// Builds DS from the `UK2.EXE` MZ image. The initialised part of the
    /// segment is copied; the remainder is the zeroed BSS.
    pub fn from_exe(exe: &[u8]) -> (res: Result<Self, MemError>)
        ensures
            match res {
                Ok(m) => {
                    &&& exe_error(exe@) is None
                    &&& m.wf()
                    &&& m@.heap.len() == 0
                    &&& m@.free.len() == 0
                    &&& forall|i: int| 0 <= i < 0x10000 ==> #[trigger] m@.ds[i] == if i < exe_data(exe@).len() {
                        exe_data(exe@)[i]
                    } else {
                        0u8
                    }
                },
                Err(e) => exe_error(exe@) == Some(e),
            },
    {
        let n = exe.len();
        if n < 0x1c || exe[0] != 0x4d || exe[1] != 0x5a {
            return Err(MemError::NotMz);
        }
        let header = (exe[8] as usize + (exe[9] as usize) * 256) * 16;
        if header > n {
            return Err(MemError::HeaderBeyondFile);
        }
        if n - header < DS_IMAGE_OFFSET {
            return Err(MemError::NoDataSegment);
        }
        let start = header + DS_IMAGE_OFFSET;
        let data = vstd::slice::slice_subrange(exe, start, n);
        assert(data@ =~= exe_data(exe@));
        if data.len() < 0x57e + 20 {
            return Err(MemError::UnsupportedBuild);
        }
        let mut k: usize = 0;
        while k < 20
            invariant
                data@.len() >= 0x57e + 20,
                data@ == exe_data(exe@),
                exe@.len() >= 0x1c && exe@[0] == 0x4d && exe@[1] == 0x5a,
                le16(exe@[8], exe@[9]) as int * 16 + DS_IMAGE_OFFSET <= exe@.len(),
                k <= 20,
                forall|j: int| 0 <= j < k ==> data@[0x57e + j] == SIGNATURE@[j],
            decreases 20 - k,
        {
            if data[0x57e + k] != SIGNATURE[k] {
                assert(data@.subrange(0x57eint, 0x592int)[k as int] != SIGNATURE@[k as int]);
                return Err(MemError::UnsupportedBuild);
            }
            k = k + 1;
        }
        assert(data@.subrange(0x57eint, 0x592int) =~= SIGNATURE@);
        let mut ds: Vec<u8> = vec![0u8; 0x10000];
        let copy = if data.len() < 0x10000 {
            data.len()
        } else {
            0x10000
        };
        let mut i: usize = 0;
        while i < copy
            invariant
                ds@.len() == 0x10000,
                copy <= data@.len(),
                copy <= 0x10000,
                copy == if data@.len() < 0x10000 { data@.len() } else { 0x10000 },
                i <= copy,
                forall|j: int| 0 <= j < 0x10000 ==> #[trigger] ds@[j] == if j < i { data@[j] } else { 0u8 },
            decreases copy - i,
        {
            ds.set(i, data[i]);
            i = i + 1;
        }
        Ok(Mem { ds, heap: Vec::new(), free_slots: Vec::new() })
    }

    pub fn rb(&self, ptr: FarPtr) -> (res: u8)
        requires
            self.wf(),
        ensures
            res == read_spec(self@, ptr),
    {
        let seg = seg_of(ptr);
        let off = off_of(ptr) as usize;
        if seg == DS_SEG {
            return self.ds[off];
        }
        if seg < HEAP_SEG_BASE {
            return 0;
        }
        let index = (seg - HEAP_SEG_BASE) as usize;
        if index >= self.heap.len() {
            return 0;
        }
        match &self.heap[index] {
            Some(block) => if off < block.len() {
                block[off]
            } else {
                0
            },
            None => 0,
        }
    }

    pub fn wb(&mut self, ptr: FarPtr, value: u8)
        requires
            old(self).wf(),
        ensures
            final(self).wf(),
            final(self)@ == write_spec(old(self)@, ptr, value),
    {
        let seg = seg_of(ptr);
        let off = off_of(ptr) as usize;
        if seg == DS_SEG {
            self.ds.set(off, value);
            return;
        }
        if seg < HEAP_SEG_BASE {
            return;
        }
        let index = (seg - HEAP_SEG_BASE) as usize;
        if index >= self.heap.len() {
            return;
        }
        let ghost h0 = self.heap@;
        let mut slot: Option<Vec<u8>> = None;
        self.heap.set_and_swap(index, &mut slot);
        match slot {
            Some(mut block) => {
                if off < block.len() {
                    block.set(off, value);
                }
                self.heap.set(index, Some(block));
            },
            None => {
                self.heap.set(index, None);
            },
        }
        proof {
            if h0[index as int] is None {
                assert(self.heap@ =~= h0);
            }
            assert(heap_view(self.heap@) =~= write_spec(old(self)@, ptr, value).heap);
        }
    }

    pub fn rw(&self, ptr: FarPtr) -> (res: u16)
        requires
            self.wf(),
        ensures
            res == read_word(self@, ptr),
    {
        let lo = self.rb(ptr);
        let hi = self.rb(ptr_add(ptr, 1));
        lo as u16 + (hi as u16) * 256
    }

    pub fn ww(&mut self, ptr: FarPtr, value: u16)
        requires
            old(self).wf(),
        ensures
            final(self).wf(),
            final(self)@ == write_word(old(self)@, ptr, value),
    {
        self.wb(ptr, (value % 256) as u8);
        self.wb(ptr_add(ptr, 1), (value / 256) as u8);
    }

    pub fn rsw(&self, ptr: FarPtr) -> (res: i16)
        requires
            self.wf(),
        ensures
            res == read_word(self@, ptr) as i16,
    {
        self.rw(ptr) as i16
    }

    /// Reads a far pointer stored as offset word then segment word.
    pub fn rd(&self, ptr: FarPtr) -> (res: FarPtr)
        requires
            self.wf(),
        ensures
            res == read_dword(self@, ptr),
    {
        let off = self.rw(ptr);
        let seg = self.rw(ptr_add(ptr, 2));
        far(seg, off)
    }

    pub fn wd(&mut self, ptr: FarPtr, value: FarPtr)
        requires
            old(self).wf(),
        ensures
            final(self).wf(),
            final(self)@ == write_dword(old(self)@, ptr, value),
    {
        self.ww(ptr, off_of(value));
        self.ww(ptr_add(ptr, 2), seg_of(value));
    }

    /// Data-segment byte.
    pub fn b(&self, off: u16) -> (res: u8)
        requires
            self.wf(),
        ensures
            res == self@.ds[off as int],
            res == read_spec(self@, far_spec(DS_SEG, off)),
    {
        let _p = ds_ptr(off);
        self.ds[off as usize]
    }

    pub fn set_b(&mut self, off: u16, value: u8)
        requires
            old(self).wf(),
        ensures
            final(self).wf(),
            final(self)@ == write_spec(old(self)@, far_spec(DS_SEG, off), value),
            final(self)@.ds == old(self)@.ds.update(off as int, value),
            final(self)@.heap == old(self)@.heap,
            final(self)@.free == old(self)@.free,
    {
        let _p = ds_ptr(off);
        self.ds.set(off as usize, value);
    }

    /// Data-segment word (the high byte wraps to DS:0 at the top).
    pub fn w(&self, off: u16) -> (res: u16)
        requires
            self.wf(),
        ensures
            res == read_word(self@, far_spec(DS_SEG, off)),
            res == ds_word(self@.ds, off),
    {
        let p = ds_ptr(off);
        proof {
            lemma_ds_word(self@, off, 0);
        }
        self.rw(p)
    }

    pub fn sw(&self, off: u16) -> (res: i16)
        requires
            self.wf(),
        ensures
            res == read_word(self@, far_spec(DS_SEG, off)) as i16,
            res == ds_word(self@.ds, off) as i16,
    {
        self.w(off) as i16
    }

    pub fn set_w(&mut self, off: u16, value: u16)
        requires
            old(self).wf(),
        ensures
            final(self).wf(),
            final(self)@ == write_word(old(self)@, far_spec(DS_SEG, off), value),
            final(self)@.ds == set_ds_word(old(self)@.ds, off, value),
            final(self)@.heap == old(self)@.heap,
            final(self)@.free == old(self)@.free,
    {
        let p = ds_ptr(off);
        proof {
            lemma_ds_word(self@, off, value);
        }
        self.ww(p, value);
    }

    pub fn d(&self, off: u16) -> (res: FarPtr)
        requires
            self.wf(),
        ensures
            res == read_dword(self@, far_spec(DS_SEG, off)),
    {
        self.rd(ds_ptr(off))
    }

    pub fn set_d(&mut self, off: u16, value: FarPtr)
        requires
            old(self).wf(),
        ensures
            final(self).wf(),
            final(self)@ == write_dword(old(self)@, far_spec(DS_SEG, off), value),
    {
        self.wd(ds_ptr(off), value);
    }
}

/// Memory after `realloc` of a live block: resized, new bytes zero.
pub open spec fn resize_spec(m: MemView, seg: u16, size: int) -> MemView {
    let b = block_of(m.heap, seg).unwrap();
    let n: int = if size > 1 { size } else { 1 };
    let nb = Seq::new(n as nat, |i: int| if i < b.len() { b[i] } else { 0u8 });
    MemView { heap: m.heap.update(seg - HEAP_SEG_BASE, Some(nb)), ..m }
}

/// Memory after `free(p)`: a live heap block at offset 0 is released.
pub open spec fn free_spec(m: MemView, p: u32) -> MemView {
    let seg = seg_spec(p);
    if p == 0 || seg == DS_SEG || off_spec(p) != 0 || block_of(m.heap, seg) is None {
        m
    } else {
        MemView {
            heap: m.heap.update(seg - HEAP_SEG_BASE, None),
            free: m.free.push((seg - HEAP_SEG_BASE) as usize),
            ..m
        }
    }
}

/// `realloc` of `p` allocates afresh: `p` is null, not at a block's start, or not live.
pub open spec fn realloc_allocates(m: MemView, p: u32) -> bool {
    p == 0 || off_spec(p) != 0 || seg_spec(p) == DS_SEG || block_of(m.heap, seg_spec(p)) is None
}

impl Mem {
    /// `farmalloc`: a zeroed block of `size` bytes (at least one), reusing
    /// the most recently freed slot first.
    pub fn alloc_block(&mut self, size: usize) -> (res: FarPtr)
        requires
            old(self).wf(),
            can_alloc(old(self)@),
        ensures
            final(self).wf(),
            final(self)@ == alloc_spec(old(self)@, size as int),
            res == far_spec((HEAP_SEG_BASE + next_slot(old(self)@)) as u16, 0),
    {
        let n = if size > 1 {
            size
        } else {
            1
        };
        let block: Vec<u8> = vec![0u8; n];
        let ghost h0 = self.heap@;
        let ghost f0 = self.free_slots@;
        let index = match self.free_slots.pop() {
            Some(index) => {
                self.heap.set(index, Some(block));
                index
            },
            None => {
                self.heap.push(Some(block));
                self.heap.len() - 1
            },
        };
        proof {
            let bs = Seq::new(if size > 1 { size as nat } else { 1 }, |i: int| 0u8);
            assert(block@ =~= bs);
            let want = alloc_spec(old(self)@, size as int);
            assert(heap_view(self.heap@) =~= want.heap);
            assert(self.free_slots@ =~= want.free);
            assert forall|i: int, j: int| 0 <= i < j < self.free_slots@.len() implies #[trigger] self.free_slots@[i]
                != #[trigger] self.free_slots@[j] by {
                assert(self.free_slots@[i] == f0[i] && self.free_slots@[j] == f0[j]);
            }
            assert forall|i: int| 0 <= i < self.free_slots@.len() implies (#[trigger] self.free_slots@[i]) < self@.heap.len()
                && self@.heap[self.free_slots@[i] as int] is None by {
                assert(self.free_slots@[i] == f0[i]);
                assert(f0[i] != f0[f0.len() - 1]);
            }
        }
        far(HEAP_SEG_BASE + index as u16, 0)
    }

    /// `farrealloc` semantics: a null pointer allocates; content is kept.
    pub fn realloc(&mut self, ptr: FarPtr, size: usize) -> (res: FarPtr)
        requires
            old(self).wf(),
            realloc_allocates(old(self)@, ptr) ==> can_alloc(old(self)@),
        ensures
            final(self).wf(),
            realloc_allocates(old(self)@, ptr) ==> final(self)@ == alloc_spec(old(self)@, size as int) && res
                == far_spec((HEAP_SEG_BASE + next_slot(old(self)@)) as u16, 0),
            !realloc_allocates(old(self)@, ptr) ==> final(self)@ == resize_spec(old(self)@, seg_spec(ptr), size as int)
                && res == ptr,
    {
        let seg = seg_of(ptr);
        if ptr == 0 || off_of(ptr) != 0 || seg == DS_SEG || seg < HEAP_SEG_BASE || (seg - HEAP_SEG_BASE) as usize
            >= self.heap.len() || self.heap[(seg - HEAP_SEG_BASE) as usize].is_none() {
            return self.alloc_block(size);
        }
        let index = (seg - HEAP_SEG_BASE) as usize;
        let n = if size > 1 {
            size
        } else {
            1
        };
        let mut slot: Option<Vec<u8>> = None;
        self.heap.set_and_swap(index, &mut slot);
        let mut block = slot.unwrap();
        let ghost b0 = block@;
        block.resize(n, 0);
        proof {
            assert(block@ =~= Seq::new(n as nat, |i: int| if i < b0.len() { b0[i] } else { 0u8 }));
        }
        self.heap.set(index, Some(block));
        proof {
            assert(heap_view(self.heap@) =~= resize_spec(old(self)@, seg, size as int).heap);
        }
        ptr
    }

    pub fn free(&mut self, ptr: FarPtr)
        requires
            old(self).wf(),
        ensures
            final(self).wf(),
            final(self)@ == free_spec(old(self)@, ptr),
    {
        let seg = seg_of(ptr);
        if ptr == 0 || seg == DS_SEG || off_of(ptr) != 0 || seg < HEAP_SEG_BASE {
            return;
        }
        let index = (seg - HEAP_SEG_BASE) as usize;
        if index < self.heap.len() && self.heap[index].is_some() {
            let ghost f0 = self.free_slots@;
            self.heap.set(index, None);
            self.free_slots.push(index);
            proof {
                assert(heap_view(self.heap@) =~= free_spec(old(self)@, ptr).heap);
                assert forall|i: int| 0 <= i < f0.len() implies f0[i] != index by {}
            }
        }
    }

    /// Bytes from `ptr` to the end of its block (or of DS).
    pub fn block_len(&self, ptr: FarPtr) -> (res: usize)
        requires
            self.wf(),
        ensures
            res == if seg_spec(ptr) == DS_SEG {
                0x10000 - off_spec(ptr)
            } else {
                match block_of(self@.heap, seg_spec(ptr)) {
                    Some(b) => if off_spec(ptr) < b.len() {
                        b.len() - off_spec(ptr)
                    } else {
                        0
                    },
                    None => 0,
                }
            },
    {
        let seg = seg_of(ptr);
        let off = off_of(ptr) as usize;
        if seg == DS_SEG {
            return 0x10000 - off;
        }
        if seg < HEAP_SEG_BASE {
            return 0;
        }
        let index = (seg - HEAP_SEG_BASE) as usize;
        if index >= self.heap.len() {
            return 0;
        }
        match &self.heap[index] {
            Some(block) => if off < block.len() {
                block.len() - off
            } else {
                0
            },
            None => 0,
        }
    }

    /// Whole heap block (or DS tail) starting at `ptr`'s offset; used for
    /// "huge" buffers larger than one segment (VRAM snapshots).
    pub fn slice(&self, ptr: FarPtr) -> (res: &[u8])
        requires
            self.wf(),
        ensures
            res@ == if seg_spec(ptr) == DS_SEG {
                self@.ds.skip(off_spec(ptr) as int)
            } else {
                match block_of(self@.heap, seg_spec(ptr)) {
                    Some(b) => if off_spec(ptr) <= b.len() {
                        b.skip(off_spec(ptr) as int)
                    } else {
                        Seq::empty()
                    },
                    None => Seq::empty(),
                }
            },
    {
        let seg = seg_of(ptr);
        let off = off_of(ptr) as usize;
        if seg == DS_SEG {
            let r = vstd::slice::slice_subrange(self.ds.as_slice(), off, self.ds.len());
            assert(r@ =~= self@.ds.skip(off as int));
            return r;
        }
        let empty: &[u8] = &[];
        assert(empty@ =~= Seq::<u8>::empty());
        if seg < HEAP_SEG_BASE {
            return empty;
        }
        let index = (seg - HEAP_SEG_BASE) as usize;
        if index >= self.heap.len() {
            return empty;
        }
        match &self.heap[index] {
            Some(block) => if off <= block.len() {
                let r = vstd::slice::slice_subrange(block.as_slice(), off, block.len());
                assert(r@ =~= block@.skip(off as int));
                r
            } else {
                empty
            },
            None => empty,
        }
    }

    pub fn strlen(&self, ptr: FarPtr) -> (res: usize)
        requires
            self.wf(),
        ensures
            res == strlen_spec(self@, ptr),
    {
        if ptr == 0 {
            return 0;
        }
        let mut n: usize = 0;
        while n < 0x10000 && self.rb(ptr_at(ptr, n)) != 0
            invariant
                self.wf(),
                n <= 0x10000,
                str_len_from(self@, ptr, 0) == str_len_from(self@, ptr, n as int),
            decreases 0x10000 - n,
        {
            n = n + 1;
        }
        n
    }

    pub fn read_bytes(&self, ptr: FarPtr, len: usize) -> (res: Vec<u8>)
        requires
            self.wf(),
        ensures
            res@ == reads_spec(self@, ptr, len as int),
    {
        let mut out: Vec<u8> = Vec::new();
        let mut i: usize = 0;
        while i < len
            invariant
                self.wf(),
                i <= len,
                out@ == reads_spec(self@, ptr, i as int),
            decreases len - i,
        {
            out.push(self.rb(ptr_at(ptr, i)));
            i = i + 1;
            assert(out@ =~= reads_spec(self@, ptr, i as int));
        }
        out
    }

    pub fn cstr(&self, ptr: FarPtr) -> (res: Vec<u8>)
        requires
            self.wf(),
        ensures
            res@ == reads_spec(self@, ptr, strlen_spec(self@, ptr)),
    {
        let n = self.strlen(ptr);
        self.read_bytes(ptr, n)
    }

    pub fn write_bytes(&mut self, ptr: FarPtr, bytes: &[u8])
        requires
            old(self).wf(),
        ensures
            final(self).wf(),
            final(self)@ == writes_spec(old(self)@, ptr, bytes@),
    {
        let mut i: usize = 0;
        while i < bytes.len()
            invariant
                self.wf(),
                i <= bytes@.len(),
                self@ == writes_spec(old(self)@, ptr, bytes@.take(i as int)),
            decreases bytes@.len() - i,
        {
            self.wb(ptr_at(ptr, i), bytes[i]);
            proof {
                assert(bytes@.take(i + 1).drop_last() =~= bytes@.take(i as int));
            }
            i = i + 1;
        }
        assert(bytes@.take(bytes@.len() as int) =~= bytes@);
    }

    /// `strcpy(dst, bytes)` including the terminator.
    pub fn strcpy_bytes(&mut self, dst: FarPtr, bytes: &[u8])
        requires
            old(self).wf(),
        ensures
            final(self).wf(),
            final(self)@ == write_spec(writes_spec(old(self)@, dst, bytes@), add_spec(dst, bytes@.len() as int), 0),
    {
        self.write_bytes(dst, bytes);
        self.wb(ptr_at(dst, bytes.len()), 0);
    }

    pub fn strcpy(&mut self, dst: FarPtr, src: FarPtr)
        requires
            old(self).wf(),
        ensures
            final(self).wf(),
            final(self)@ == {
                let s = reads_spec(old(self)@, src, strlen_spec(old(self)@, src));
                write_spec(writes_spec(old(self)@, dst, s), add_spec(dst, s.len() as int), 0)
            },
    {
        let bytes = self.cstr(src);
        self.strcpy_bytes(dst, bytes.as_slice());
    }

    pub fn memcpy(&mut self, dst: FarPtr, src: FarPtr, len: usize)
        requires
            old(self).wf(),
        ensures
            final(self).wf(),
            final(self)@ == writes_spec(old(self)@, dst, reads_spec(old(self)@, src, len as int)),
    {
        let bytes = self.read_bytes(src, len);
        self.write_bytes(dst, bytes.as_slice());
    }

    pub fn memset(&mut self, dst: FarPtr, value: u8, len: usize)
        requires
            old(self).wf(),
        ensures
            final(self).wf(),
            final(self)@ == writes_spec(old(self)@, dst, Seq::new(len as nat, |i: int| value)),
    {
        let mut i: usize = 0;
        while i < len
            invariant
                self.wf(),
                i <= len,
                self@ == writes_spec(old(self)@, dst, Seq::new(i as nat, |j: int| value)),
            decreases len - i,
        {
            self.wb(ptr_at(dst, i), value);
            proof {
                assert(Seq::new((i + 1) as nat, |j: int| value).drop_last() =~= Seq::new(i as nat, |j: int| value));
            }
            i = i + 1;
        }
    }

    /// `sub_20D33`: byte-wise swap of two memory ranges.
    pub fn memswap(&mut self, a: FarPtr, b: FarPtr, len: usize)
        requires
            old(self).wf(),
        ensures
            final(self).wf(),
            final(self)@ == swaps_spec(old(self)@, a, b, len as int),
    {
        let mut i: usize = 0;
        while i < len
            invariant
                self.wf(),
                i <= len,
                self@ == swaps_spec(old(self)@, a, b, i as int),
            decreases len - i,
        {
            let pa = ptr_at(a, i);
            let pb = ptr_at(b, i);
            let va = self.rb(pa);
            let vb = self.rb(pb);
            self.wb(pa, vb);
            self.wb(pb, va);
            i = i + 1;
        }
    }

    /// Allocates a heap block initialised with `bytes`.
    pub fn alloc_bytes(&mut self, bytes: &[u8]) -> (res: FarPtr)
        requires
            old(self).wf(),
            can_alloc(old(self)@),
        ensures
            final(self).wf(),
            res == far_spec((HEAP_SEG_BASE + next_slot(old(self)@)) as u16, 0),
            final(self)@ == writes_spec(alloc_spec(old(self)@, bytes@.len() as int), res, bytes@),
    {
        let ptr = self.alloc_block(bytes.len());
        self.write_bytes(ptr, bytes);
        ptr
    }

    pub fn alloc_cstr(&mut self, bytes: &[u8]) -> (res: FarPtr)
        requires
            old(self).wf(),
            can_alloc(old(self)@),
            bytes@.len() < usize::MAX,
        ensures
            final(self).wf(),
            res == far_spec((HEAP_SEG_BASE + next_slot(old(self)@)) as u16, 0),
            final(self)@ == write_spec(
                writes_spec(alloc_spec(old(self)@, bytes@.len() + 1int), res, bytes@),
                add_spec(res, bytes@.len() as int),
                0,
            ),
    {
        let ptr = self.alloc_block(bytes.len() + 1);
        self.strcpy_bytes(ptr, bytes);
        ptr
    }
}

/// Memory after swapping the first `n` bytes of `a` and `b`, one byte at a time.
pub open spec fn swaps_spec(m: MemView, a: u32, b: u32, n: int) -> MemView
    decreases n,
{
    if n <= 0 {
        m
    } else {
        let prev = swaps_spec(m, a, b, n - 1);
        let pa = add_spec(a, n - 1);
        let pb = add_spec(b, n - 1);
        let va = read_spec(prev, pa);
        let vb = read_spec(prev, pb);
        write_spec(write_spec(prev, pa, vb), pb, va)
    }
}

// ---------------------------------------------------------------- laws

/// A pointer is its segment and offset.
pub proof fn lemma_far_parts(p: u32)
    ensures
        p == far_spec(seg_spec(p), off_spec(p)),
        seg_spec(far_spec(seg_spec(p), off_spec(p))) == seg_spec(p),
{
    vstd::arithmetic::div_mod::lemma_fundamental_div_mod(p as int, 65536);
}

/// Two pointers with the same segment and offset are the same pointer.
pub proof fn lemma_far_injective(p: u32, q: u32)
    requires
        seg_spec(p) == seg_spec(q),
        off_spec(p) == off_spec(q),
    ensures
        p == q,
{
    lemma_far_parts(p);
    lemma_far_parts(q);
}

/// A read gives back the last write to the same pointer where that write
/// landed; writes elsewhere leave it alone.
pub proof fn lemma_read_after_write(m: MemView, p: u32, q: u32, v: u8)
    requires
        mem_wf(m),
    ensures
        read_spec(write_spec(m, p, v), q) == if q == p && writable(m, p) {
            v
        } else {
            read_spec(m, q)
        },
{
    if q != p && seg_spec(q) == seg_spec(p) && off_spec(q) == off_spec(p) {
        lemma_far_injective(p, q);
    }
}

/// Moving a pointer by one byte never gives the same pointer.
pub proof fn lemma_next_differs(p: u32)
    ensures
        add_spec(p, 1) != p,
        seg_spec(add_spec(p, 1)) == seg_spec(p),
{
    let o = off_spec(p) as int;
    assert((o + 1) % 65536 != o) by {
        if o < 65535 {
            vstd::arithmetic::div_mod::lemma_small_mod((o + 1) as nat, 65536);
        } else {
            vstd::arithmetic::div_mod::lemma_mod_self_0(65536);
        }
    }
    let q = add_spec(p, 1);
    assert(seg_spec(q) == seg_spec(p) && off_spec(q) == (o + 1) % 65536) by {
        let s = seg_spec(p) as int;
        let n = (o + 1) % 65536;
        assert(0 <= n < 65536) by {
            vstd::arithmetic::div_mod::lemma_mod_bound(o + 1, 65536);
        }
        assert(s * 65536 + n <= 0xffff_ffff) by (nonlinear_arith)
            requires
                0 <= s <= 0xffff,
                0 <= n < 65536,
        ;
        vstd::arithmetic::div_mod::lemma_fundamental_div_mod_converse(s * 65536 + n, 65536, s, n);
    }
}

/// A word reads back as written where both of its bytes land.
pub proof fn lemma_word_round_trip(m: MemView, p: u32, v: u16)
    requires
        mem_wf(m),
        writable(m, p),
        writable(m, add_spec(p, 1)),
    ensures
        read_word(write_word(m, p, v), p) == v,
{
    let lo = (v % 256) as u8;
    let hi = (v / 256) as u8;
    let q = add_spec(p, 1);
    lemma_next_differs(p);
    let m1 = write_spec(m, p, lo);
    lemma_read_after_write(m, p, q, lo);
    assert(writable(m1, q));
    lemma_read_after_write(m1, q, q, hi);
    lemma_read_after_write(m1, q, p, hi);
    lemma_read_after_write(m, p, p, lo);
}

/// Writing DS never changes the heap, and a write is kept well formed.
pub proof fn lemma_write_wf(m: MemView, p: u32, v: u8)
    requires
        mem_wf(m),
    ensures
        mem_wf(write_spec(m, p, v)),
        write_spec(m, p, v).heap.len() == m.heap.len(),
        forall|s: u16| (#[trigger] block_of(write_spec(m, p, v).heap, s) is Some) == (block_of(m.heap, s) is Some),
        forall|s: u16| #[trigger] block_of(m.heap, s) is Some ==> block_of(write_spec(m, p, v).heap, s).unwrap().len()
            == block_of(m.heap, s).unwrap().len(),
{
}

/// A far pointer reads back as written where its four bytes land.
pub proof fn lemma_dword_round_trip(m: MemView, p: u32, v: u32)
    requires
        mem_wf(m),
        writable(m, p),
        writable(m, add_spec(p, 1)),
        writable(m, add_spec(p, 2)),
        writable(m, add_spec(add_spec(p, 2), 1)),
    ensures
        read_dword(write_dword(m, p, v), p) == v,
{
    let p2 = add_spec(p, 2);
    let m1 = write_word(m, p, off_spec(v));
    lemma_write_wf(m, p, (off_spec(v) % 256) as u8);
    lemma_write_wf(write_spec(m, p, (off_spec(v) % 256) as u8), add_spec(p, 1), (off_spec(v) / 256) as u8);
    lemma_word_round_trip(m, p, off_spec(v));
    lemma_word_round_trip(m1, p2, seg_spec(v));
    lemma_next_differs(p);
    lemma_next_differs(p2);
    let o = off_spec(p) as int;
    // the two words do not overlap
    assert(off_spec(p2) == (o + 2) % 65536) by {
        let s = seg_spec(p) as int;
        let n = (o + 2) % 65536;
        vstd::arithmetic::div_mod::lemma_mod_bound(o + 2, 65536);
        assert(s * 65536 + n <= 0xffff_ffff) by (nonlinear_arith)
            requires
                0 <= s <= 0xffff,
                0 <= n < 65536,
        ;
        vstd::arithmetic::div_mod::lemma_fundamental_div_mod_converse(s * 65536 + n, 65536, s, n);
    }
    assert(off_spec(add_spec(p2, 1)) == (o + 3) % 65536) by {
        let s = seg_spec(p) as int;
        let n = (o + 3) % 65536;
        vstd::arithmetic::div_mod::lemma_mod_bound(o + 3, 65536);
        vstd::arithmetic::div_mod::lemma_add_mod_noop(o + 2, 1, 65536);
        vstd::arithmetic::div_mod::lemma_mod_bound(o + 2, 65536);
        vstd::arithmetic::div_mod::lemma_small_mod(1, 65536);
        assert(s * 65536 + n <= 0xffff_ffff) by (nonlinear_arith)
            requires
                0 <= s <= 0xffff,
                0 <= n < 65536,
        ;
        vstd::arithmetic::div_mod::lemma_fundamental_div_mod_converse(s * 65536 + n, 65536, s, n);
    }
    assert(off_spec(add_spec(p, 1)) == (o + 1) % 65536);
    assert((o + 2) % 65536 != o && (o + 2) % 65536 != (o + 1) % 65536 && (o + 3) % 65536 != o && (o + 3) % 65536
        != (o + 1) % 65536) by {
        if o < 65533 {
            vstd::arithmetic::div_mod::lemma_small_mod((o + 1) as nat, 65536);
            vstd::arithmetic::div_mod::lemma_small_mod((o + 2) as nat, 65536);
            vstd::arithmetic::div_mod::lemma_small_mod((o + 3) as nat, 65536);
        } else {
            vstd::arithmetic::div_mod::lemma_mod_sub_multiples_vanish(o + 1 - 65536, 65536);
            vstd::arithmetic::div_mod::lemma_mod_sub_multiples_vanish(o + 2 - 65536, 65536);
            vstd::arithmetic::div_mod::lemma_mod_sub_multiples_vanish(o + 3 - 65536, 65536);
            if o + 1 < 65536 {
                vstd::arithmetic::div_mod::lemma_small_mod((o + 1) as nat, 65536);
            }
            if o + 2 < 65536 {
                vstd::arithmetic::div_mod::lemma_small_mod((o + 2) as nat, 65536);
            } else {
                vstd::arithmetic::div_mod::lemma_small_mod((o + 2 - 65536) as nat, 65536);
            }
            if o + 3 >= 65536 {
                vstd::arithmetic::div_mod::lemma_small_mod((o + 3 - 65536) as nat, 65536);
            }
            if o + 1 >= 65536 {
                vstd::arithmetic::div_mod::lemma_small_mod((o + 1 - 65536) as nat, 65536);
            }
        }
    }
    let m2 = write_dword(m, p, v);
    // the second word leaves the first alone
    let q = add_spec(p2, 1);
    assert(p != p2 && p != q && add_spec(p, 1) != p2 && add_spec(p, 1) != q) by {
        if p == p2 {
            lemma_far_injective(p, p2);
        }
    }
    let w1 = write_spec(m1, p2, (seg_spec(v) % 256) as u8);
    lemma_read_after_write(m1, p2, p, (seg_spec(v) % 256) as u8);
    lemma_read_after_write(m1, p2, add_spec(p, 1), (seg_spec(v) % 256) as u8);
    lemma_write_wf(m1, p2, (seg_spec(v) % 256) as u8);
    lemma_read_after_write(w1, q, p, (seg_spec(v) / 256) as u8);
    lemma_read_after_write(w1, q, add_spec(p, 1), (seg_spec(v) / 256) as u8);
    assert(read_word(m2, p) == read_word(m1, p));
    lemma_far_parts(v);
}

/// A fresh block reads as zero at every offset and nothing else changes.
pub proof fn lemma_alloc_reads(m: MemView, size: int, q: u32)
    requires
        mem_wf(m),
        can_alloc(m),
    ensures
        mem_wf(alloc_spec(m, size)),
        read_spec(alloc_spec(m, size), q) == if seg_spec(q) == (HEAP_SEG_BASE + next_slot(m)) as u16 {
            0u8
        } else {
            read_spec(m, q)
        },
{
    let m2 = alloc_spec(m, size);
    assert forall|i: int, j: int| 0 <= i < j < m2.free.len() implies #[trigger] m2.free[i] != #[trigger] m2.free[j] by {
        assert(m2.free[i] == m.free[i] && m2.free[j] == m.free[j]);
    }
    assert forall|i: int| 0 <= i < m2.free.len() implies (#[trigger] m2.free[i]) < m2.heap.len() && m2.heap[m2.free[i] as int] is None by {
        assert(m2.free[i] == m.free[i]);
        if m.free.len() > 0 {
            assert(m.free[i] != m.free[m.free.len() - 1]);
        }
    }
}

/// After `free` every byte of the released block reads as zero; other
/// memory is unchanged.
pub proof fn lemma_free_reads(m: MemView, p: u32, q: u32)
    requires
        mem_wf(m),
    ensures
        mem_wf(free_spec(m, p)),
        read_spec(free_spec(m, p), q) == if free_spec(m, p) != m && seg_spec(q) == seg_spec(p) {
            0u8
        } else {
            read_spec(m, q)
        },
        free_spec(m, p).ds == m.ds,
        !(p == 0 || seg_spec(p) == DS_SEG || off_spec(p) != 0 || block_of(m.heap, seg_spec(p)) is None) ==> block_of(
            free_spec(m, p).heap,
            seg_spec(p),
        ) is None,
        forall|t: u16| t != seg_spec(p) ==> #[trigger] block_of(free_spec(m, p).heap, t) == block_of(m.heap, t),
{
}

/// `realloc` keeps the bytes that fit in the new size; the rest of the
/// block reads as zero.
pub proof fn lemma_resize_reads(m: MemView, seg: u16, size: int, q: u32)
    requires
        mem_wf(m),
        block_of(m.heap, seg) is Some,
        seg != DS_SEG,
    ensures
        mem_wf(resize_spec(m, seg, size)),
        seg_spec(q) == seg && off_spec(q) < size ==> read_spec(resize_spec(m, seg, size), q) == read_spec(m, q),
        seg_spec(q) == seg && off_spec(q) >= block_of(m.heap, seg).unwrap().len() ==> read_spec(resize_spec(m, seg, size), q) == 0,
        seg_spec(q) != seg ==> read_spec(resize_spec(m, seg, size), q) == read_spec(m, q),
        block_of(resize_spec(m, seg, size).heap, seg) is Some,
        block_of(resize_spec(m, seg, size).heap, seg).unwrap().len() == if size > 1 {
            size
        } else {
            1
        },
        resize_spec(m, seg, size).ds == m.ds,
        forall|t: u16| t != seg ==> #[trigger] block_of(resize_spec(m, seg, size).heap, t) == block_of(m.heap, t),
{
}

/// Swapping two disjoint single bytes twice restores memory.
pub proof fn lemma_swap_twice(m: MemView, a: u32, b: u32, q: u32)
    requires
        mem_wf(m),
        a != b,
        writable(m, a),
        writable(m, b),
    ensures
        read_spec(swaps_spec(swaps_spec(m, a, b, 1), a, b, 1), q) == read_spec(m, q),
{
    let pa = add_spec(a, 0);
    let pb = add_spec(b, 0);
    lemma_far_parts(a);
    lemma_far_parts(b);
    assert(pa == a && pb == b) by {
        vstd::arithmetic::div_mod::lemma_small_mod(off_spec(a) as nat, 65536);
        vstd::arithmetic::div_mod::lemma_small_mod(off_spec(b) as nat, 65536);
    }
    let va = read_spec(m, a);
    let vb = read_spec(m, b);
    let m1 = write_spec(write_spec(m, a, vb), b, va);
    reveal_with_fuel(swaps_spec, 2);
    lemma_read_after_write(m, a, b, vb);
    lemma_read_after_write(m, a, a, vb);
    lemma_write_wf(m, a, vb);
    lemma_read_after_write(write_spec(m, a, vb), b, a, va);
    lemma_read_after_write(write_spec(m, a, vb), b, b, va);
    lemma_write_wf(write_spec(m, a, vb), b, va);
    assert(swaps_spec(m, a, b, 1) == m1);
    let m2 = write_spec(write_spec(m1, a, va), b, vb);
    assert(swaps_spec(m1, a, b, 1) == m2);
    lemma_write_wf(m1, a, va);
    lemma_read_after_write(m1, a, q, va);
    lemma_read_after_write(write_spec(m1, a, va), b, q, vb);
    lemma_read_after_write(write_spec(m, a, vb), b, q, va);
    lemma_read_after_write(m, a, q, vb);
}


/// The byte that `swaps_spec(_, a, b, n)` moves to `q`: `q` itself unless it
/// is byte `k < n` of one range, then byte `k` of the other.
pub open spec fn swapped_at(a: u32, b: u32, n: int, q: u32) -> u32
    decreases n,
{
    if n <= 0 {
        q
    } else if q == add_spec(a, n - 1) {
        add_spec(b, n - 1)
    } else if q == add_spec(b, n - 1) {
        add_spec(a, n - 1)
    } else {
        swapped_at(a, b, n - 1, q)
    }
}

/// The first `n` bytes from `a` and from `b` are `2n` distinct pointers
/// (the ranges do not overlap and neither wraps onto itself).
pub open spec fn disjoint_ranges(a: u32, b: u32, n: int) -> bool {
    forall|i: int, j: int|
        0 <= i < n && 0 <= j < n ==> #[trigger] add_spec(a, i) != #[trigger] add_spec(b, j) && (i != j ==> add_spec(a, i)
            != add_spec(a, j) && add_spec(b, i) != add_spec(b, j))
}

/// Every byte of both ranges can be written.
pub open spec fn ranges_writable(m: MemView, a: u32, b: u32, n: int) -> bool {
    forall|k: int| 0 <= k < n ==> writable(m, #[trigger] add_spec(a, k)) && writable(m, add_spec(b, k))
}

proof fn lemma_write_keeps_writable(m: MemView, p: u32, v: u8, q: u32)
    requires
        mem_wf(m),
    ensures
        writable(write_spec(m, p, v), q) == writable(m, q),
{
    lemma_write_wf(m, p, v);
    let s = seg_spec(q);
    if block_of(m.heap, s) is Some {
        assert(block_of(write_spec(m, p, v).heap, s) is Some);
    } else {
        assert(block_of(write_spec(m, p, v).heap, s) is None);
    }
}

proof fn lemma_swapped_avoids(a: u32, b: u32, n: int, m: int, q: u32, j: int)
    requires
        disjoint_ranges(a, b, n),
        0 <= m <= j < n,
        q != add_spec(a, j),
        q != add_spec(b, j),
    ensures
        swapped_at(a, b, m, q) != add_spec(a, j),
        swapped_at(a, b, m, q) != add_spec(b, j),
    decreases m,
{
    if m > 0 {
        let x = add_spec(a, m - 1);
        let y = add_spec(b, m - 1);
        let aj = add_spec(a, j);
        let bj = add_spec(b, j);
        assert(x != bj && y != aj && x != aj && y != bj);
        if q != x && q != y {
            lemma_swapped_avoids(a, b, n, m - 1, q, j);
        }
    }
}

/// Swapping is its own undoing, pointer by pointer.
proof fn lemma_swapped_twice(a: u32, b: u32, n: int, q: u32)
    requires
        disjoint_ranges(a, b, n),
        n >= 0,
    ensures
        swapped_at(a, b, n, swapped_at(a, b, n, q)) == q,
    decreases n,
{
    if n > 0 {
        let x = add_spec(a, n - 1);
        let y = add_spec(b, n - 1);
        assert(x != y);
        if q != x && q != y {
            assert(disjoint_ranges(a, b, n - 1));
            lemma_swapped_twice(a, b, n - 1, q);
            lemma_swapped_avoids(a, b, n, n - 1, q, n - 1);
        }
    }
}

/// After `memswap(a, b, n)` on disjoint writable ranges, each byte reads as
/// the byte it was swapped with; memory stays well formed and writable
/// where it was.
pub proof fn lemma_swaps_read(m: MemView, a: u32, b: u32, n: int, q: u32)
    requires
        mem_wf(m),
        n >= 0,
        disjoint_ranges(a, b, n),
        ranges_writable(m, a, b, n),
    ensures
        mem_wf(swaps_spec(m, a, b, n)),
        forall|p: u32| #[trigger] writable(swaps_spec(m, a, b, n), p) == writable(m, p),
        read_spec(swaps_spec(m, a, b, n), q) == read_spec(m, swapped_at(a, b, n, q)),
    decreases n,
{
    if n > 0 {
        let x = add_spec(a, n - 1);
        let y = add_spec(b, n - 1);
        assert(disjoint_ranges(a, b, n - 1));
        assert(ranges_writable(m, a, b, n - 1));
        let prev = swaps_spec(m, a, b, n - 1);
        lemma_swaps_read(m, a, b, n - 1, q);
        lemma_swaps_read(m, a, b, n - 1, x);
        lemma_swaps_read(m, a, b, n - 1, y);
        assert(x != y);
        assert(swapped_at(a, b, n - 1, x) == x) by {
            lemma_swapped_fixed(a, b, n, n - 1, x);
        }
        assert(swapped_at(a, b, n - 1, y) == y) by {
            lemma_swapped_fixed(a, b, n, n - 1, y);
        }
        let va = read_spec(prev, x);
        let vb = read_spec(prev, y);
        let m1 = write_spec(prev, x, vb);
        assert(writable(prev, x) && writable(prev, y));
        lemma_write_wf(prev, x, vb);
        lemma_write_keeps_writable(prev, x, vb, y);
        lemma_write_wf(m1, y, va);
        lemma_read_after_write(prev, x, q, vb);
        lemma_read_after_write(m1, y, q, va);
        assert forall|p: u32| #[trigger] writable(swaps_spec(m, a, b, n), p) == writable(m, p) by {
            lemma_write_keeps_writable(prev, x, vb, p);
            lemma_write_keeps_writable(m1, y, va, p);
        }
    }
}

/// A pointer outside the first `m` bytes of both ranges stays put.
proof fn lemma_swapped_fixed(a: u32, b: u32, n: int, m: int, q: u32)
    requires
        disjoint_ranges(a, b, n),
        0 <= m <= n,
        forall|k: int| 0 <= k < m ==> q != #[trigger] add_spec(a, k) && q != add_spec(b, k),
    ensures
        swapped_at(a, b, m, q) == q,
    decreases m,
{
    if m > 0 {
        assert(q != add_spec(a, m - 1) && q != add_spec(b, m - 1));
        lemma_swapped_fixed(a, b, n, m - 1, q);
    }
}

/// `memswap` twice over the same disjoint, writable ranges leaves every
/// byte as it was.
pub proof fn lemma_memswap_twice(m: MemView, a: u32, b: u32, n: int, q: u32)
    requires
        mem_wf(m),
        n >= 0,
        disjoint_ranges(a, b, n),
        ranges_writable(m, a, b, n),
    ensures
        read_spec(swaps_spec(swaps_spec(m, a, b, n), a, b, n), q) == read_spec(m, q),
{
    let m1 = swaps_spec(m, a, b, n);
    lemma_swaps_read(m, a, b, n, q);
    assert(ranges_writable(m1, a, b, n)) by {
        assert forall|k: int| 0 <= k < n implies writable(m1, #[trigger] add_spec(a, k)) && writable(m1, add_spec(b, k)) by {
            assert(writable(m1, add_spec(a, k)) == writable(m, add_spec(a, k)));
            assert(writable(m1, add_spec(b, k)) == writable(m, add_spec(b, k)));
        }
    }
    lemma_swaps_read(m1, a, b, n, q);
    lemma_swaps_read(m, a, b, n, swapped_at(a, b, n, q));
    lemma_swapped_twice(a, b, n, q);
}

} // verus!
