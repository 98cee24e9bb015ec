//! The MES interpreter's decoders (seg003): the byte stream, operands,
//! expressions and conditions, evaluated exactly like the executable over
//! the engine's memory, plus Borland string comparison and resource-name
//! trimming.
//!
//! The decoders may recurse through nested expressions without bound on a
//! malformed program, so their meaning is given with a step budget (`fuel`):
//! `None` where the budget runs out or a string result cannot be allocated.
#![allow(unused_imports)]

use vstd::prelude::*;

use super::ds::{
    ACC_HI, ACC_LO, COND_FLAG, CUR_MES_NAME, FIXED_STRINGS, GLOBAL_SLOTS, IMM_SCRATCH, INDEXED_5, INDEXED_8,
    INDIRECT_TABLE, INLINE_BUF, LARGE_STRINGS, LOCAL_TABLE, MES_LEN, MES_PC, MES_RECORD, NEXT_MES_NAME,
    OPERAND_KIND, OPERAND_WORD, SYSTEM_WORDS,
};
use super::map::{ds_d, ds_w, put_w, wrap16};
use super::mem::{
    ds_ptr, add_spec, alloc_spec, can_alloc, far_spec, free_spec, next_slot, read_spec, read_word, reads_spec,
    realloc_allocates, resize_spec, seg_spec, strlen_spec, write_spec, writes_spec, FarPtr, MemView, DS_SEG,
    HEAP_SEG_BASE,
};
use super::trunc_div;
use super::Engine;

verus! {

/// Byte `i` of a NUL-terminated string held in `s` (0 past its end).
pub open spec fn cbyte(s: Seq<u8>, i: int) -> u8 {
    if 0 <= i < s.len() {
        s[i]
    } else {
        0
    }
}

/// The sign-carrying difference that Borland `strcmp` returns, from index `i` on.
pub open spec fn cstr_order_from(a: Seq<u8>, b: Seq<u8>, i: int) -> int
    decreases a.len() - i,
{
    if i < 0 {
        0
    } else if cbyte(a, i) != cbyte(b, i) {
        cbyte(a, i) - cbyte(b, i)
    } else if cbyte(a, i) == 0 {
        0
    } else {
        cstr_order_from(a, b, i + 1)
    }
}

/// `strcmp` is antisymmetric: swapping the strings negates the order.
pub proof fn lemma_strcmp_antisymmetric(a: Seq<u8>, b: Seq<u8>, i: int)
    requires
        i >= 0,
    ensures
        cstr_order_from(a, b, i) == -cstr_order_from(b, a, i),
    decreases a.len() - i,
{
    if cbyte(a, i) == cbyte(b, i) && cbyte(a, i) != 0 {
        lemma_strcmp_antisymmetric(a, b, i + 1);
    }
}

/// A string compares equal to itself.
pub proof fn lemma_strcmp_reflexive(a: Seq<u8>, i: int)
    requires
        i >= 0,
    ensures
        cstr_order_from(a, a, i) == 0,
    decreases a.len() - i,
{
    if cbyte(a, i) != 0 {
        lemma_strcmp_reflexive(a, i + 1);
    }
}

/// The bytes of a NUL-terminated string from index `i` up to its first 0
/// (or its end).
pub open spec fn cstr_from(a: Seq<u8>, i: int) -> Seq<u8>
    decreases a.len() - i,
{
    if i < 0 || cbyte(a, i) == 0 {
        Seq::empty()
    } else {
        seq![cbyte(a, i)] + cstr_from(a, i + 1)
    }
}

/// `x` comes before `y` by unsigned bytes, a proper prefix first.
pub open spec fn lex_less(x: Seq<u8>, y: Seq<u8>) -> bool
    decreases x.len(),
{
    if y.len() == 0 {
        false
    } else if x.len() == 0 {
        true
    } else if x[0] != y[0] {
        x[0] < y[0]
    } else {
        lex_less(x.drop_first(), y.drop_first())
    }
}

/// `strcmp` orders strings: zero exactly when they are equal up to their
/// NULs, negative exactly when the first comes first.
pub proof fn lemma_strcmp_orders(a: Seq<u8>, b: Seq<u8>, i: int)
    requires
        i >= 0,
    ensures
        (cstr_order_from(a, b, i) == 0) == (cstr_from(a, i) == cstr_from(b, i)),
        (cstr_order_from(a, b, i) < 0) == lex_less(cstr_from(a, i), cstr_from(b, i)),
    decreases a.len() - i,
{
    let x = cstr_from(a, i);
    let y = cstr_from(b, i);
    if cbyte(a, i) != cbyte(b, i) {
        if cbyte(a, i) != 0 {
            assert(x[0] == cbyte(a, i));
        }
        if cbyte(b, i) != 0 {
            assert(y[0] == cbyte(b, i));
        }
        assert(x != y) by {
            if cbyte(a, i) == 0 {
                assert(x.len() == 0 && y.len() > 0);
            } else if cbyte(b, i) == 0 {
                assert(y.len() == 0 && x.len() > 0);
            } else {
                assert(x[0] != y[0]);
            }
        }
    } else if cbyte(a, i) != 0 {
        lemma_strcmp_orders(a, b, i + 1);
        let xr = cstr_from(a, i + 1);
        let yr = cstr_from(b, i + 1);
        assert(x.drop_first() =~= xr);
        assert(y.drop_first() =~= yr);
        assert(x[0] == y[0]);
        assert((x == y) == (xr == yr)) by {
            if xr == yr {
                assert(x =~= y);
            }
            if x == y {
                assert(xr =~= yr);
            }
        }
    }
}

/// Borland `strcmp` sign.
pub fn strcmp(a: &[u8], b: &[u8]) -> (res: i32)
    ensures
        res == cstr_order_from(a@, b@, 0),
{
    cstr_difference(a, b)
}

/// The difference of the first differing bytes of two NUL-terminated
/// strings, or 0 when they are equal.
fn cstr_difference(a: &[u8], b: &[u8]) -> (res: i32)
    ensures
        res == cstr_order_from(a@, b@, 0),
{
    let mut i: usize = 0;
    let n = a.len();
    let m = b.len();
    loop
        invariant
            n == a@.len(),
            m == b@.len(),
            i <= n,
            cstr_order_from(a@, b@, 0) == cstr_order_from(a@, b@, i as int),
        decreases n - i,
    {
        let x: u8 = if i < n {
            a[i]
        } else {
            0
        };
        let y: u8 = if i < m {
            b[i]
        } else {
            0
        };
        if x != y {
            return x as i32 - y as i32;
        }
        if x == 0 {
            return 0;
        }
        i = i + 1;
    }
}

/// Strips the `%-13.13s` padding of an engine resource name: up to the
/// first NUL, trailing spaces dropped.
pub fn trim_name(name: &[u8]) -> (res: Vec<u8>)
    ensures
        res@ == crate::map::name_field(name@),
{
    let nul = crate::sjis::nul_position(name);
    let mut end = nul;
    while end > 0 && name[end - 1] == 0x20
        invariant
            end <= nul,
            nul == crate::sjis::nul_len(name@),
            nul <= name@.len(),
            crate::map::trimmed_len(name@, nul as int) == crate::map::trimmed_len(name@, end as int),
        decreases end,
    {
        end = end - 1;
    }
    assert(crate::map::trimmed_len(name@, end as int) == end);
    let out = vstd::slice::slice_to_vec(vstd::slice::slice_subrange(name, 0, end));
    assert(out@ =~= crate::map::name_field(name@));
    out
}


// ---- evaluator semantics ---------------------------------------------------

/// Why a decoder stops: an engine error number, or a division by zero.
pub enum Fault {
    Fatal(u16),
    Divide,
}

/// The byte at `pc` of the running program (0 past its end).
pub open spec fn prog_byte(prog: Seq<u8>, pc: int) -> u8 {
    if 0 <= pc < prog.len() {
        prog[pc]
    } else {
        0
    }
}

/// `fetch`: the byte at the program counter, which advances; error 0x0D
/// past the program's length.
pub open spec fn fetch_spec(m: MemView, prog: Seq<u8>) -> (MemView, Result<u8, Fault>) {
    let pc = ds_w(m, MES_PC);
    if pc > ds_w(m, MES_LEN) {
        (m, Err(Fault::Fatal(0x0d)))
    } else {
        (put_w(m, MES_PC, wrap16(pc + 1)), Ok(prog_byte(prog, pc as int)))
    }
}

/// Two fetched bytes, low first.
pub open spec fn fetch_u16_spec(m: MemView, prog: Seq<u8>) -> (MemView, Result<u16, Fault>) {
    let a = fetch_spec(m, prog);
    match a.1 {
        Err(e) => (a.0, Err(e)),
        Ok(lo) => {
            let b = fetch_spec(a.0, prog);
            match b.1 {
                Err(e) => (b.0, Err(e)),
                Ok(hi) => (b.0, Ok((lo as int + hi as int * 256) as u16)),
            }
        },
    }
}

pub open spec fn ds_ptr_spec(off: int) -> u32 {
    far_spec(DS_SEG, off as u16)
}

/// The 32-bit accumulator (low word, high word).
pub open spec fn acc_spec(m: MemView) -> i32 {
    ((ds_w(m, ACC_LO) as int + ds_w(m, ACC_HI) as int * 65536) as u32) as i32
}

pub open spec fn set_acc_spec(m: MemView, v: i32) -> MemView {
    put_w(put_w(m, ACC_LO, v as u16), ACC_HI, ((v as u32) >> 16u32) as u16)
}

/// The operand kind (0 number, 1 short string, 2 long string) and width
/// (0 byte, 1 word) words.
pub open spec fn kind_word(m: MemView, kind: u16, word: u16) -> MemView {
    put_w(put_w(m, OPERAND_KIND, kind), OPERAND_WORD, word)
}

/// The string at `p`.
pub open spec fn cstr_spec(m: MemView, p: u32) -> Seq<u8> {
    reads_spec(m, p, strlen_spec(m, p))
}

/// `strcpy` of `b` and its terminator to `dst`.
#[verifier::opaque]
pub open spec fn strcpy_bytes_spec(m: MemView, dst: u32, b: Seq<u8>) -> MemView {
    write_spec(writes_spec(m, dst, b), add_spec(dst, b.len() as int), 0)
}

#[verifier::opaque]
pub open spec fn strcpy_spec(m: MemView, dst: u32, src: u32) -> MemView {
    strcpy_bytes_spec(m, dst, cstr_spec(m, src))
}

/// `farrealloc(p, size)`: `None` where a new block is needed and the heap
/// is full.
pub open spec fn realloc_step(m: MemView, p: u32, size: int) -> Option<(MemView, u32)> {
    if realloc_allocates(m, p) {
        if can_alloc(m) {
            Some((alloc_spec(m, size), far_spec((HEAP_SEG_BASE + next_slot(m)) as u16, 0)))
        } else {
            None
        }
    } else {
        Some((resize_spec(m, seg_spec(p), size), p))
    }
}

/// A data-segment word reads back as written.
pub proof fn lemma_put_w_read(m: MemView, off: u16, v: u16)
    requires
        m.ds.len() == 0x10000,
    ensures
        ds_w(put_w(m, off, v), off) == v,
        put_w(m, off, v).ds.len() == 0x10000,
{
}

/// Within the program's length, two fetches read the little-endian word at
/// the program counter and advance it by two.
pub proof fn lemma_fetch_u16_advances(m: MemView, prog: Seq<u8>)
    requires
        m.ds.len() == 0x10000,
        ds_w(m, MES_PC) < ds_w(m, MES_LEN),
    ensures
        ds_w(fetch_u16_spec(m, prog).0, MES_PC) == wrap16(ds_w(m, MES_PC) + 2),
        fetch_u16_spec(m, prog).1 == Ok::<u16, Fault>(
            (prog_byte(prog, ds_w(m, MES_PC) as int) as int + prog_byte(prog, ds_w(m, MES_PC) + 1) as int * 256) as u16,
        ),
{
    let pc = ds_w(m, MES_PC);
    let len = ds_w(m, MES_LEN);
    let m1 = put_w(m, MES_PC, wrap16(pc + 1));
    assert(fetch_spec(m, prog) == (m1, Ok::<u8, Fault>(prog_byte(prog, pc as int))));
    assert(wrap16(pc + 1) == pc + 1);
    lemma_put_w_read(m, MES_PC, wrap16(pc + 1));
    assert(ds_w(m1, MES_LEN) == len);
    let m2 = put_w(m1, MES_PC, wrap16(pc + 2));
    assert(wrap16(ds_w(m1, MES_PC) + 1) == wrap16(pc + 2));
    assert(fetch_spec(m1, prog) == (m2, Ok::<u8, Fault>(prog_byte(prog, pc + 1))));
    lemma_put_w_read(m1, MES_PC, wrap16(pc + 2));
}

/// String lengths are at most 64 KiB.
pub proof fn lemma_strlen_bound(m: MemView, p: u32)
    ensures
        0 <= strlen_spec(m, p) <= 0x10000,
{
    if p != 0 {
        lemma_str_len_from(m, p, 0);
    }
}

proof fn lemma_str_len_from(m: MemView, p: u32, n: int)
    requires
        0 <= n <= 0x10000,
    ensures
        n <= super::mem::str_len_from(m, p, n) <= 0x10000,
    decreases 0x10000 - n,
{
    if n < 0x10000 && read_spec(m, add_spec(p, n)) != 0 {
        lemma_str_len_from(m, p, n + 1);
    }
}

/// A string result lives on the heap; the accumulator's pointer is none.
pub open spec fn result_heap(p: u32) -> u32 {
    if seg_spec(p) == DS_SEG {
        0
    } else {
        p
    }
}

/// Frees an expression result unless it is the accumulator.
pub open spec fn free_expr_spec(m: MemView, p: u32) -> MemView {
    if p != ds_ptr_spec(ACC_LO as int) {
        free_spec(m, p)
    } else {
        m
    }
}

/// The truncated remainder (the sign of the dividend).
pub open spec fn trunc_rem(a: int, b: int) -> int {
    a - trunc_div(a, b) * b
}

/// One operator applied to the value (and pointer) of an operand: 7 load,
/// 1 add (or concatenate strings), 2 subtract, 3 multiply, 4 divide, 5
/// remainder; others are error 5.
pub open spec fn apply_op(m: MemView, op: u8, is_string: bool, value: u16, operand: u32, result: u32) -> Option<(MemView, Result<u32, Fault>)> {
    let acc = acc_spec(m);
    if op == 7 {
        if !is_string {
            Some((set_acc_spec(m, value as i32), Ok(ds_ptr_spec(ACC_LO as int))))
        } else {
            match realloc_step(m, result_heap(result), strlen_spec(m, operand) + 1) {
                None => None,
                Some((m1, p)) => Some((strcpy_spec(m1, p, operand), Ok(p))),
            }
        }
    } else if op == 1 {
        if !is_string {
            Some((set_acc_spec(m, vstd::wrapping::i32_specs::wrapping_add(acc, value as i32)), Ok(result)))
        } else {
            let joined = cstr_spec(m, result) + cstr_spec(m, operand);
            match realloc_step(m, result_heap(result), strlen_spec(m, result) + strlen_spec(m, operand) + 1) {
                None => None,
                Some((m1, p)) => Some((strcpy_bytes_spec(m1, p, joined), Ok(p))),
            }
        }
    } else if op == 2 {
        Some((set_acc_spec(m, vstd::wrapping::i32_specs::wrapping_sub(acc, value as i32)), Ok(result)))
    } else if op == 3 {
        Some((set_acc_spec(m, vstd::wrapping::i32_specs::wrapping_mul(acc, value as i32)), Ok(result)))
    } else if op == 4 || op == 5 {
        if value == 0 {
            Some((m, Err(Fault::Divide)))
        } else if op == 4 {
            Some((set_acc_spec(m, trunc_div(acc as int, value as int) as i32), Ok(result)))
        } else {
            Some((set_acc_spec(m, trunc_rem(acc as int, value as int) as i32), Ok(result)))
        }
    } else {
        Some((m, Err(Fault::Fatal(5))))
    }
}

/// One byte of an inline string at position `si` of the buffer: a plain
/// byte is stored; 5 / 6 and a slot number copy a record or global string
/// there.  Returns the position of the last byte written.
#[verifier::opaque]
pub open spec fn inline_step(m: MemView, prog: Seq<u8>, si: u16, byte: u8) -> (MemView, Result<u16, Fault>) {
    let dst = ds_ptr_spec(wrap16(INLINE_BUF + si) as int);
    if byte == 5 || byte == 6 {
        let s = fetch_spec(m, prog);
        match s.1 {
            Err(e) => (s.0, Err(e)),
            Ok(sb) => {
                let slot = wrap16(sb - 1);
                let src = if byte == 5 {
                    add_spec(ds_d(s.0, MES_RECORD), slot * 0x15)
                } else {
                    ds_ptr_spec(wrap16(GLOBAL_SLOTS + wrap16(slot * 0x15)) as int)
                };
                let m3 = strcpy_spec(s.0, dst, src);
                (m3, Ok(wrap16(si + strlen_spec(m3, src) - 1)))
            },
        }
    } else {
        (write_spec(m, dst, byte), Ok(si))
    }
}

/// The inline string of an operand (class 3), copied to the inline buffer
/// from position `si` up to a NUL; error 0x1B when it reaches 0x7D1 bytes.
pub open spec fn inline_spec(m: MemView, prog: Seq<u8>, si: u16, fuel: nat) -> Option<(MemView, Result<(), Fault>)>
    decreases fuel,
{
    if fuel == 0 {
        None
    } else {
        let f = fetch_spec(m, prog);
        match f.1 {
            Err(e) => Some((f.0, Err(e))),
            Ok(byte) => {
                let r = inline_step(f.0, prog, si, byte);
                match r.1 {
                    Err(e) => Some((r.0, Err(e))),
                    Ok(si2) => if si2 as i16 >= 0x7d1 {
                        Some((r.0, Err(Fault::Fatal(0x1b))))
                    } else if byte == 0 {
                        Some((r.0, Ok(())))
                    } else {
                        inline_spec(r.0, prog, wrap16(si2 + 1), (fuel - 1) as nat)
                    },
                }
            },
        }
    }
}

/// `operand`: one operand decoded to a pointer, the kind and width words
/// set for it.  Classes (top three bits): 0 system word or immediate, 1
/// short string, 2 local word, 3 inline string, 4 indexed byte array with
/// the index an expression (error 0x17 above 0x100), 5 indirect pointer,
/// 6 long string; 7 is null.
pub open spec fn operand_spec(m: MemView, prog: Seq<u8>, fuel: nat) -> Option<(MemView, Result<u32, Fault>)>
    decreases fuel, 1nat,
{
    let f = fetch_spec(m, prog);
    match f.1 {
        Err(e) => Some((f.0, Err(e))),
        Ok(encoded) => {
            let m1 = f.0;
            let class = encoded >> 5u8;
            let index = (encoded & 0x1f) as u16;
            if class == 4 {
                if fuel == 0 {
                    None
                } else {
                    match expression_spec(m1, prog, (fuel - 1) as nat) {
                        None => None,
                        Some(r) => match r.1 {
                            Err(e) => Some((r.0, Err(e))),
                            Ok(result) => Some(indexed(r.0, read_word(r.0, result) as i16, index)),
                        },
                    }
                }
            } else if class == 3 {
                match inline_spec(m1, prog, 0, fuel) {
                    None => None,
                    Some(r) => match r.1 {
                        Err(e) => Some((r.0, Err(e))),
                        Ok(_) => Some((put_w(r.0, OPERAND_KIND, 1), Ok(ds_ptr_spec(INLINE_BUF as int)))),
                    },
                }
            } else {
                Some(operand_direct(m1, prog, class, index))
            }
        },
    }
}

/// An indexed byte array (class 4) at index `value`: 5 and 8 name the two
/// arrays, others are null; error 0x17 above 0x100.
pub open spec fn indexed(m: MemView, value: i16, index: u16) -> (MemView, Result<u32, Fault>) {
    let m3 = kind_word(m, 0, 0);
    if value > 0x100 {
        (m3, Err(Fault::Fatal(0x17)))
    } else if index == 5 {
        (m3, Ok(ds_ptr_spec(wrap16(INDEXED_5 + value as u16) as int)))
    } else if index == 8 {
        (m3, Ok(ds_ptr_spec(wrap16(INDEXED_8 + value as u16) as int)))
    } else {
        (m3, Ok(0u32))
    }
}

/// The operand classes that need no nested decoding.
#[verifier::opaque]
pub open spec fn operand_direct(m1: MemView, prog: Seq<u8>, class: u8, index: u16) -> (MemView, Result<u32, Fault>) {
    if class == 0 {
        if index < 0x1f {
            (kind_word(m1, 0, 1), Ok(ds_ptr_spec(SYSTEM_WORDS + index * 2)))
        } else {
            let v = fetch_u16_spec(m1, prog);
            match v.1 {
                Err(e) => (v.0, Err(e)),
                Ok(value) => (kind_word(put_w(v.0, IMM_SCRATCH, value), 0, 1), Ok(ds_ptr_spec(IMM_SCRATCH as int))),
            }
        }
    } else if class == 2 {
        (kind_word(m1, 0, 1), Ok(add_spec(ds_d(m1, LOCAL_TABLE), index * 2)))
    } else if class == 1 {
        (put_w(m1, OPERAND_KIND, 1), Ok(ds_ptr_spec(FIXED_STRINGS + index * 0x3e)))
    } else if class == 6 {
        (put_w(m1, OPERAND_KIND, 2), Ok(ds_ptr_spec(wrap16(LARGE_STRINGS + index * 0x7d2) as int)))
    } else if class == 5 {
        let m2 = if index == 0 {
            kind_word(m1, 0, 0)
        } else if index == 1 {
            kind_word(m1, 0, 1)
        } else if index == 2 {
            put_w(m1, OPERAND_KIND, 1)
        } else {
            m1
        };
        let s = fetch_spec(m2, prog);
        match s.1 {
            Err(e) => (s.0, Err(e)),
            Ok(slot) => (s.0, Ok(ds_d(s.0, (INDIRECT_TABLE + slot * 4) as u16))),
        }
    } else {
        (m1, Ok(0u32))
    }
}

/// The terms of an expression: a control byte (operator, bit 7 for the
/// last term; 0 ends the list), then an operand, evaluated with the
/// accumulator saved around it.  Returns the result pointer and whether a
/// term was seen.
pub open spec fn expr_loop(m: MemView, prog: Seq<u8>, result: u32, any: bool, fuel: nat) -> Option<(MemView, Result<(u32, bool), Fault>)>
    decreases fuel, 1nat,
{
    if fuel == 0 {
        None
    } else {
        let f = fetch_spec(m, prog);
        match f.1 {
            Err(e) => Some((f.0, Err(e))),
            Ok(control) => {
                let op = control & 0x7f;
                if op == 0 {
                    Some((f.0, Ok((result, any))))
                } else {
                    let saved = acc_spec(f.0);
                    match operand_spec(set_acc_spec(f.0, 0), prog, (fuel - 1) as nat) {
                        None => None,
                        Some(o) => match o.1 {
                            Err(e) => Some((o.0, Err(e))),
                            Ok(operand) => {
                                let m3 = set_acc_spec(o.0, saved);
                                let value: u16 = if ds_w(m3, OPERAND_WORD) == 0 {
                                    read_spec(m3, operand) as u16
                                } else {
                                    read_word(m3, operand)
                                };
                                match apply_op(m3, op, ds_w(m3, OPERAND_KIND) != 0, value, operand, result) {
                                    None => None,
                                    Some(a) => match a.1 {
                                        Err(e) => Some((a.0, Err(e))),
                                        Ok(r2) => if control & 0x80 != 0 {
                                            Some((a.0, Ok((r2, true))))
                                        } else {
                                            expr_loop(a.0, prog, r2, true, (fuel - 1) as nat)
                                        },
                                    },
                                }
                            },
                        },
                    }
                }
            },
        }
    }
}

/// A numeric result is clamped to 0..0xFFFF (or 0..0xFF for a byte
/// operand) and, when a term was seen, pointed to in the accumulator.
pub open spec fn expr_finish(m: MemView, result: u32, any: bool) -> (MemView, u32) {
    if ds_w(m, OPERAND_KIND) == 0 {
        let a = acc_spec(m) as int;
        let a1 = if a < 0 { 0 } else { a };
        let a2 = if ds_w(m, OPERAND_WORD) != 0 {
            if a1 > 0xffff { 0xffff } else { a1 }
        } else if a1 > 0xff {
            0xff
        } else {
            a1
        };
        (set_acc_spec(m, a2 as i32), if result == 0 && any { ds_ptr_spec(ACC_LO as int) } else { result })
    } else {
        (m, result)
    }
}

/// `expression`: a pointer to the numeric accumulator, a heap string, or
/// null for an empty list.
pub open spec fn expression_spec(m: MemView, prog: Seq<u8>, fuel: nat) -> Option<(MemView, Result<u32, Fault>)>
    decreases fuel, 2nat,
{
    match expr_loop(m, prog, 0, false, fuel) {
        None => None,
        Some(r) => match r.1 {
            Err(e) => Some((r.0, Err(e))),
            Ok(ra) => {
                let fin = expr_finish(r.0, ra.0, ra.1);
                Some((fin.0, Ok(fin.1)))
            },
        },
    }
}

/// The value an operand or expression result denotes: its byte or word,
/// by the width word.
pub open spec fn value_of(m: MemView, p: u32) -> u16 {
    if ds_w(m, OPERAND_WORD) == 0 {
        read_spec(m, p) as u16
    } else {
        read_word(m, p)
    }
}

/// A comparison code applied to two outcomes of an ordering: 1 less, 2
/// greater, 3 equal, 4 different; others are false.
pub open spec fn compares(code: u8, lt: bool, gt: bool) -> bool {
    if code == 1 {
        lt
    } else if code == 2 {
        gt
    } else if code == 3 {
        !lt && !gt
    } else if code == 4 {
        lt || gt
    } else {
        false
    }
}

/// The comparisons of a condition, joined into the condition flag: each is
/// expression, comparison byte, expression, then a join byte (1 and, 2 or,
/// 0 the end).  Strings compare by `strcmp` and are freed.
pub open spec fn cond_loop(m: MemView, prog: Seq<u8>, join: u8, fuel: nat) -> Option<(MemView, Result<bool, Fault>)>
    decreases fuel,
{
    if fuel == 0 {
        None
    } else {
        match expression_spec(m, prog, (fuel - 1) as nat) {
            None => None,
            Some(l) => match l.1 {
                Err(e) => Some((l.0, Err(e))),
                Ok(left) => {
                    let lv: u16 = if ds_w(l.0, OPERAND_KIND) == 0 { value_of(l.0, left) } else { 0 };
                    let c = fetch_spec(l.0, prog);
                    match c.1 {
                        Err(e) => Some((c.0, Err(e))),
                        Ok(code) => match expression_spec(c.0, prog, (fuel - 1) as nat) {
                            None => None,
                            Some(r) => match r.1 {
                                Err(e) => Some((r.0, Err(e))),
                                Ok(right) => {
                                    let m2 = r.0;
                                    let string = ds_w(m2, OPERAND_KIND) != 0;
                                    let rv: u16 = if !string { value_of(m2, right) } else { 0 };
                                    let order = cstr_order_from(cstr_spec(m2, left), cstr_spec(m2, right), 0);
                                    let outcome = if string {
                                        compares(code, order < 0, order > 0)
                                    } else {
                                        compares(code, lv < rv, lv > rv)
                                    };
                                    let bit: u16 = if outcome { 1 } else { 0 };
                                    let flag = ds_w(m2, COND_FLAG);
                                    let m3 = if join == 1 {
                                        put_w(m2, COND_FLAG, flag & bit)
                                    } else if join == 2 {
                                        put_w(m2, COND_FLAG, flag | bit)
                                    } else {
                                        m2
                                    };
                                    let m4 = if string { free_expr_spec(free_expr_spec(m3, left), right) } else { m3 };
                                    let j = fetch_spec(m4, prog);
                                    match j.1 {
                                        Err(e) => Some((j.0, Err(e))),
                                        Ok(next) => if next == 0 {
                                            Some((j.0, Ok(ds_w(j.0, COND_FLAG) != 0)))
                                        } else {
                                            cond_loop(j.0, prog, next, (fuel - 1) as nat)
                                        },
                                    }
                                },
                            },
                        },
                    }
                },
            },
        }
    }
}

/// `condition`: the flag cleared, then the comparisons or-ed in from the
/// first.
pub open spec fn condition_spec(m: MemView, prog: Seq<u8>, fuel: nat) -> Option<(MemView, Result<bool, Fault>)> {
    cond_loop(put_w(m, COND_FLAG, 0), prog, 2, fuel)
}

/// `expr_list`: up to `max` expression values (words) after `values`, up
/// to a null result.
pub open spec fn list_spec(m: MemView, prog: Seq<u8>, max: int, values: Seq<u16>, fuel: nat) -> Option<(MemView, Result<Seq<u16>, Fault>)>
    decreases fuel,
{
    if values.len() >= max {
        Some((m, Ok(values)))
    } else if fuel == 0 {
        None
    } else {
        match expression_spec(m, prog, (fuel - 1) as nat) {
            None => None,
            Some(r) => match r.1 {
                Err(e) => Some((r.0, Err(e))),
                Ok(p) => if p == 0 {
                    Some((r.0, Ok(values)))
                } else {
                    list_spec(r.0, prog, max, values.push(read_word(r.0, p)), (fuel - 1) as nat)
                },
            },
        }
    }
}

/// A name field: the string cut to 13 bytes and padded with spaces to 13.
pub open spec fn name_13(s: Seq<u8>) -> Seq<u8> {
    Seq::new(13, |i: int| if i < s.len() { s[i] } else { 0x20u8 })
}

/// `read_name`: an operand (or an expression, then freed) as a 13-byte name.
pub open spec fn read_name_spec(m: MemView, prog: Seq<u8>, expression: bool, fuel: nat) -> Option<(MemView, Result<Seq<u8>, Fault>)> {
    let r = if expression { expression_spec(m, prog, fuel) } else { operand_spec(m, prog, fuel) };
    match r {
        None => None,
        Some(x) => match x.1 {
            Err(e) => Some((x.0, Err(e))),
            Ok(p) => Some((if expression { free_expr_spec(x.0, p) } else { x.0 }, Ok(name_13(cstr_spec(x.0, p))))),
        },
    }
}

/// Whether the decoders finish within some budget from memory `m`.
pub open spec fn operand_runs(m: MemView, prog: Seq<u8>) -> bool {
    exists|f: nat| operand_spec(m, prog, f) is Some
}

pub open spec fn expression_runs(m: MemView, prog: Seq<u8>) -> bool {
    exists|f: nat| expression_spec(m, prog, f) is Some
}

pub open spec fn condition_runs(m: MemView, prog: Seq<u8>) -> bool {
    exists|f: nat| condition_spec(m, prog, f) is Some
}

pub open spec fn list_runs(m: MemView, prog: Seq<u8>, max: int) -> bool {
    exists|f: nat| list_spec(m, prog, max, Seq::empty(), f) is Some
}

pub open spec fn name_runs(m: MemView, prog: Seq<u8>, expression: bool) -> bool {
    exists|f: nat| read_name_spec(m, prog, expression, f) is Some
}

/// The outcome of a decoder that finishes, at a budget that suffices.
pub open spec fn operand_outcome(m: MemView, prog: Seq<u8>) -> (MemView, Result<u32, Fault>) {
    operand_spec(m, prog, choose|f: nat| operand_spec(m, prog, f) is Some).unwrap()
}

pub open spec fn expression_outcome(m: MemView, prog: Seq<u8>) -> (MemView, Result<u32, Fault>) {
    expression_spec(m, prog, choose|f: nat| expression_spec(m, prog, f) is Some).unwrap()
}

pub open spec fn condition_outcome(m: MemView, prog: Seq<u8>) -> (MemView, Result<bool, Fault>) {
    condition_spec(m, prog, choose|f: nat| condition_spec(m, prog, f) is Some).unwrap()
}

pub open spec fn list_outcome(m: MemView, prog: Seq<u8>, max: int) -> (MemView, Result<Seq<u16>, Fault>) {
    list_spec(m, prog, max, Seq::empty(), choose|f: nat| list_spec(m, prog, max, Seq::empty(), f) is Some).unwrap()
}

pub open spec fn name_outcome(m: MemView, prog: Seq<u8>, expression: bool) -> (MemView, Result<Seq<u8>, Fault>) {
    read_name_spec(m, prog, expression, choose|f: nat| read_name_spec(m, prog, expression, f) is Some).unwrap()
}

// ---- evaluator -------------------------------------------------------------

/// An interpreter error: `fatal` (the engine's numbered error, with the
/// program counter and the names of the running and next MES files), or a
/// division by zero.
#[derive(Debug, Clone)]
pub enum MesError {
    Fatal { code: u16, count: u16, file: Vec<u8>, next: Vec<u8> },
    DivideError,
}

/// `e` reports fault `f` in memory `m`.
pub open spec fn fault_is(e: MesError, f: Fault, m: MemView) -> bool {
    match f {
        Fault::Divide => e is DivideError,
        Fault::Fatal(code) => match e {
            MesError::Fatal { code: c, count, file, next } => {
                &&& c == code
                &&& count == ds_w(m, MES_PC)
                &&& file@ == cstr_spec(m, ds_ptr_spec(CUR_MES_NAME as int))
                &&& next@ == cstr_spec(m, ds_ptr_spec(NEXT_MES_NAME as int))
            },
            MesError::DivideError => false,
        },
    }
}

/// A decoder left memory `m` and returned `res` as outcome `o` says.
pub open spec fn outcome_is<T>(m: MemView, res: Result<T, MesError>, o: (MemView, Result<T, Fault>)) -> bool {
    &&& m == o.0
    &&& match res {
        Ok(v) => o.1 == Ok::<T, Fault>(v),
        Err(e) => o.1 matches Err(f) && fault_is(e, f, o.0),
    }
}

impl Engine {
    /// Starts running a MES program (the program stack of `call_mes`).
    pub fn push_program(&mut self, bytes: Vec<u8>)
        ensures
            final(self).program() == bytes@,
            final(self).depth() == old(self).depth() + 1,
            final(self).memory() == old(self).memory(),
            final(self).mem_ok() == old(self).mem_ok(),
            final(self).screen() == old(self).screen(),
    {
        self.programs.push(bytes);
    }

    /// Stops running the innermost MES program.
    pub fn pop_program(&mut self)
        ensures
            final(self).depth() == (if old(self).depth() > 0 { old(self).depth() - 1 } else { 0 }),
            final(self).memory() == old(self).memory(),
            final(self).mem_ok() == old(self).mem_ok(),
            final(self).screen() == old(self).screen(),
    {
        self.programs.pop();
    }

    /// The interpreter's numbered error, as `sub_1E80E` reports it.
    pub fn fatal(&self, code: u16) -> (res: MesError)
        requires
            self.mem_ok(),
        ensures
            fault_is(res, Fault::Fatal(code), self.memory()),
    {
        MesError::Fatal {
            code,
            count: self.mem.w(MES_PC),
            file: self.mem.cstr(ds_ptr(CUR_MES_NAME)),
            next: self.mem.cstr(ds_ptr(NEXT_MES_NAME)),
        }
    }

    /// `sub_1ED9A`: the next program byte.
    pub fn fetch(&mut self) -> (res: Result<u8, MesError>)
        requires
            old(self).mem_ok(),
        ensures
            final(self).mem_ok(),
            final(self).program() == old(self).program(),
            final(self).depth() == old(self).depth(),
            final(self).screen() == old(self).screen(),
            outcome_is(final(self).memory(), res, fetch_spec(old(self).memory(), old(self).program())),
    {
        let pc = self.mem.w(MES_PC);
        if pc > self.mem.w(MES_LEN) {
            return Err(self.fatal(0x0d));
        }
        let n = self.programs.len();
        let value: u8 = if n == 0 {
            0
        } else if (pc as usize) < self.programs[n - 1].len() {
            self.programs[n - 1][pc as usize]
        } else {
            0
        };
        self.mem.set_w(MES_PC, pc.wrapping_add(1));
        Ok(value)
    }

    /// Two program bytes, low first.
    pub fn fetch_u16(&mut self) -> (res: Result<u16, MesError>)
        requires
            old(self).mem_ok(),
        ensures
            final(self).mem_ok(),
            final(self).program() == old(self).program(),
            final(self).depth() == old(self).depth(),
            final(self).screen() == old(self).screen(),
            outcome_is(final(self).memory(), res, fetch_u16_spec(old(self).memory(), old(self).program())),
    {
        let lo = match self.fetch() {
            Ok(b) => b as u16,
            Err(e) => return Err(e),
        };
        let hi = match self.fetch() {
            Ok(b) => b as u16,
            Err(e) => return Err(e),
        };
        Ok(lo + hi * 256)
    }

    fn acc(&self) -> (res: i32)
        requires
            self.mem_ok(),
        ensures
            res == acc_spec(self.memory()),
    {
        (self.mem.w(ACC_LO) as u32 + (self.mem.w(ACC_HI) as u32) * 65536) as i32
    }

    fn set_acc(&mut self, value: i32)
        requires
            old(self).mem_ok(),
        ensures
            final(self).mem_ok(),
            final(self).memory() == set_acc_spec(old(self).memory(), value),
            final(self).program() == old(self).program(),
            final(self).depth() == old(self).depth(),
            final(self).screen() == old(self).screen(),
    {
        self.mem.set_w(ACC_LO, value as u16);
        self.mem.set_w(ACC_HI, ((value as u32) >> 16) as u16);
    }
}

impl Engine {
    /// `strcpy` of a string in memory, with the spec's name for it.
    fn copy_string(&mut self, dst: FarPtr, src: FarPtr)
        requires
            old(self).mem_ok(),
        ensures
            final(self).mem_ok(),
            final(self).memory() == strcpy_spec(old(self).memory(), dst, src),
            final(self).program() == old(self).program(),
            final(self).depth() == old(self).depth(),
            final(self).screen() == old(self).screen(),
    {
        reveal(strcpy_spec);
        reveal(strcpy_bytes_spec);
        self.mem.strcpy(dst, src);
    }

    /// One byte of an inline string (see `inline_step`).
    #[verifier::spinoff_prover]
    #[verifier::rlimit(40)]
    fn inline_byte(&mut self, si: u16, byte: u8) -> (res: Result<u16, MesError>)
        requires
            old(self).mem_ok(),
        ensures
            final(self).mem_ok(),
            final(self).program() == old(self).program(),
            final(self).depth() == old(self).depth(),
            final(self).screen() == old(self).screen(),
            outcome_is(final(self).memory(), res, inline_step(old(self).memory(), old(self).program(), si, byte)),
    {
        reveal(inline_step);
        let dst = ds_ptr(INLINE_BUF.wrapping_add(si));
        if byte == 5 || byte == 6 {
            let sb = match self.fetch() {
                Ok(b) => b,
                Err(e) => return Err(e),
            };
            let slot = (sb as u16).wrapping_sub(1);
            let src = if byte == 5 {
                super::mem::ptr_add(self.mem.d(MES_RECORD), slot as i32 * 0x15)
            } else {
                ds_ptr(GLOBAL_SLOTS.wrapping_add(slot.wrapping_mul(0x15)))
            };
            self.copy_string(dst, src);
            let len = self.mem.strlen(src);
            let low = (len % 65536) as u16;
            let si2 = si.wrapping_add(low).wrapping_sub(1);
            assert(si2 == wrap16(si + len - 1)) by (nonlinear_arith)
                requires
                    si2 == vstd::wrapping::u16_specs::wrapping_sub(vstd::wrapping::u16_specs::wrapping_add(si, low), 1u16),
                    low == len % 65536,
            ;
            Ok(si2)
        } else {
            self.mem.set_b(INLINE_BUF.wrapping_add(si), byte);
            Ok(si)
        }
    }

    /// The inline string of an operand (see `inline_spec`).
    #[verifier::spinoff_prover]
    #[verifier::rlimit(40)]
    fn inline_in(&mut self, si: u16, Ghost(fuel): Ghost<nat>) -> (res: Result<(), MesError>)
        requires
            old(self).mem_ok(),
            inline_spec(old(self).memory(), old(self).program(), si, fuel) is Some,
        ensures
            final(self).mem_ok(),
            final(self).program() == old(self).program(),
            final(self).depth() == old(self).depth(),
            final(self).screen() == old(self).screen(),
            outcome_is(final(self).memory(), res, inline_spec(old(self).memory(), old(self).program(), si, fuel).unwrap()),
        decreases fuel,
    {
        let byte = match self.fetch() {
            Ok(b) => b,
            Err(e) => return Err(e),
        };
        let si2 = match self.inline_byte(si, byte) {
            Ok(v) => v,
            Err(e) => return Err(e),
        };
        if (si2 as i16) >= 0x7d1 {
            return Err(self.fatal(0x1b));
        }
        if byte == 0 {
            return Ok(());
        }
        self.inline_in(si2.wrapping_add(1), Ghost((fuel - 1) as nat))
    }
}

impl Engine {
    /// `strcpy` of bytes with their terminator, with the spec's name for it.
    fn copy_bytes(&mut self, dst: FarPtr, bytes: &[u8])
        requires
            old(self).mem_ok(),
        ensures
            final(self).mem_ok(),
            final(self).memory() == strcpy_bytes_spec(old(self).memory(), dst, bytes@),
            final(self).program() == old(self).program(),
            final(self).depth() == old(self).depth(),
            final(self).screen() == old(self).screen(),
    {
        reveal(strcpy_bytes_spec);
        self.mem.strcpy_bytes(dst, bytes);
    }

    /// `farrealloc` of a result string (see `realloc_step`).
    fn realloc_result(&mut self, result: FarPtr, size: usize) -> (res: FarPtr)
        requires
            old(self).mem_ok(),
            realloc_step(old(self).memory(), result_heap(result), size as int) is Some,
        ensures
            final(self).mem_ok(),
            (final(self).memory(), res) == realloc_step(old(self).memory(), result_heap(result), size as int).unwrap(),
            final(self).program() == old(self).program(),
            final(self).depth() == old(self).depth(),
            final(self).screen() == old(self).screen(),
    {
        let heap = if super::mem::seg_of(result) == DS_SEG {
            0
        } else {
            result
        };
        self.mem.realloc(heap, size)
    }

    /// One operator of an expression (see `apply_op`).
    #[verifier::spinoff_prover]
    #[verifier::rlimit(40)]
    fn apply_op_exec(&mut self, op: u8, is_string: bool, value: u16, operand: FarPtr, result: FarPtr) -> (res: Result<FarPtr, MesError>)
        requires
            old(self).mem_ok(),
            apply_op(old(self).memory(), op, is_string, value, operand, result) is Some,
        ensures
            final(self).mem_ok(),
            final(self).program() == old(self).program(),
            final(self).depth() == old(self).depth(),
            final(self).screen() == old(self).screen(),
            outcome_is(final(self).memory(), res, apply_op(old(self).memory(), op, is_string, value, operand, result).unwrap()),
    {
        let acc = self.acc();
        if op == 7 {
            if !is_string {
                self.set_acc(value as i32);
                return Ok(ds_ptr(ACC_LO));
            }
            let len = self.mem.strlen(operand);
            proof {
                lemma_strlen_bound(self.memory(), operand);
            }
            let p = self.realloc_result(result, len + 1);
            self.copy_string(p, operand);
            Ok(p)
        } else if op == 1 {
            if !is_string {
                self.set_acc(acc.wrapping_add(value as i32));
                return Ok(result);
            }
            proof {
                lemma_strlen_bound(self.memory(), operand);
                lemma_strlen_bound(self.memory(), result);
            }
            let len = self.mem.strlen(result) + self.mem.strlen(operand);
            let mut joined = self.mem.cstr(result);
            let mut tail = self.mem.cstr(operand);
            joined.append(&mut tail);
            let p = self.realloc_result(result, len + 1);
            self.copy_bytes(p, joined.as_slice());
            Ok(p)
        } else if op == 2 {
            self.set_acc(acc.wrapping_sub(value as i32));
            Ok(result)
        } else if op == 3 {
            self.set_acc(acc.wrapping_mul(value as i32));
            Ok(result)
        } else if op == 4 || op == 5 {
            if value == 0 {
                return Err(MesError::DivideError);
            }
            let d = value as i32;
            let q = acc / d;
            if op == 4 {
                self.set_acc(q);
            } else {
                assert(-0x8000_0000 <= q * d <= 0x7fff_ffff && -0x8000_0000 <= acc - q * d <= 0x7fff_ffff) by (nonlinear_arith)
                    requires
                        q == trunc_div(acc as int, d as int),
                        1 <= d <= 0xffff,
                ;
                self.set_acc(acc - q * d);
            }
            Ok(result)
        } else {
            Err(self.fatal(5))
        }
    }
}

impl Engine {
    /// The operand classes without nested decoding (see `operand_direct`).
    #[verifier::spinoff_prover]
    #[verifier::rlimit(40)]
    fn operand_direct_exec(&mut self, class: u8, index: u16) -> (res: Result<FarPtr, MesError>)
        requires
            old(self).mem_ok(),
            index < 0x20,
        ensures
            final(self).mem_ok(),
            final(self).program() == old(self).program(),
            final(self).depth() == old(self).depth(),
            final(self).screen() == old(self).screen(),
            outcome_is(final(self).memory(), res, operand_direct(old(self).memory(), old(self).program(), class, index)),
    {
        reveal(operand_direct);
        if class == 0 {
            let ptr = if index < 0x1f {
                ds_ptr(SYSTEM_WORDS + index * 2)
            } else {
                let value = match self.fetch_u16() {
                    Ok(v) => v,
                    Err(e) => return Err(e),
                };
                self.mem.set_w(IMM_SCRATCH, value);
                ds_ptr(IMM_SCRATCH)
            };
            self.mem.set_w(OPERAND_KIND, 0);
            self.mem.set_w(OPERAND_WORD, 1);
            Ok(ptr)
        } else if class == 2 {
            let table = self.mem.d(LOCAL_TABLE);
            self.mem.set_w(OPERAND_KIND, 0);
            self.mem.set_w(OPERAND_WORD, 1);
            Ok(super::mem::ptr_add(table, index as i32 * 2))
        } else if class == 1 {
            self.mem.set_w(OPERAND_KIND, 1);
            Ok(ds_ptr(FIXED_STRINGS + index * 0x3e))
        } else if class == 6 {
            self.mem.set_w(OPERAND_KIND, 2);
            Ok(ds_ptr(LARGE_STRINGS.wrapping_add(index * 0x7d2)))
        } else if class == 5 {
            if index == 0 {
                self.mem.set_w(OPERAND_KIND, 0);
                self.mem.set_w(OPERAND_WORD, 0);
            } else if index == 1 {
                self.mem.set_w(OPERAND_KIND, 0);
                self.mem.set_w(OPERAND_WORD, 1);
            } else if index == 2 {
                self.mem.set_w(OPERAND_KIND, 1);
            }
            let slot = match self.fetch() {
                Ok(b) => b as u16,
                Err(e) => return Err(e),
            };
            Ok(self.mem.d(INDIRECT_TABLE + slot * 4))
        } else {
            Ok(0)
        }
    }

    /// An indexed byte array operand (see `indexed`).
    fn indexed_exec(&mut self, value: i16, index: u16) -> (res: Result<FarPtr, MesError>)
        requires
            old(self).mem_ok(),
        ensures
            final(self).mem_ok(),
            final(self).program() == old(self).program(),
            final(self).depth() == old(self).depth(),
            final(self).screen() == old(self).screen(),
            outcome_is(final(self).memory(), res, indexed(old(self).memory(), value, index)),
    {
        self.mem.set_w(OPERAND_KIND, 0);
        self.mem.set_w(OPERAND_WORD, 0);
        if value > 0x100 {
            return Err(self.fatal(0x17));
        }
        if index == 5 {
            Ok(ds_ptr(INDEXED_5.wrapping_add(value as u16)))
        } else if index == 8 {
            Ok(ds_ptr(INDEXED_8.wrapping_add(value as u16)))
        } else {
            Ok(0)
        }
    }

    /// `operand` within a budget (see `operand_spec`).
    #[verifier::spinoff_prover]
    #[verifier::rlimit(40)]
    fn operand_in(&mut self, Ghost(fuel): Ghost<nat>) -> (res: Result<FarPtr, MesError>)
        requires
            old(self).mem_ok(),
            operand_spec(old(self).memory(), old(self).program(), fuel) is Some,
        ensures
            final(self).mem_ok(),
            final(self).program() == old(self).program(),
            final(self).depth() == old(self).depth(),
            final(self).screen() == old(self).screen(),
            outcome_is(final(self).memory(), res, operand_spec(old(self).memory(), old(self).program(), fuel).unwrap()),
        decreases fuel, 1nat,
    {
        let encoded = match self.fetch() {
            Ok(b) => b,
            Err(e) => return Err(e),
        };
        let class = encoded >> 5;
        let index = (encoded & 0x1f) as u16;
        assert(encoded & 0x1f < 0x20) by (bit_vector);
        if class == 4 {
            let result = match self.expr_in(Ghost((fuel - 1) as nat)) {
                Ok(p) => p,
                Err(e) => return Err(e),
            };
            let value = self.mem.rw(result) as i16;
            self.indexed_exec(value, index)
        } else if class == 3 {
            match self.inline_in(0, Ghost(fuel)) {
                Ok(()) => {},
                Err(e) => return Err(e),
            }
            self.mem.set_w(OPERAND_KIND, 1);
            Ok(ds_ptr(INLINE_BUF))
        } else {
            self.operand_direct_exec(class, index)
        }
    }

    /// The terms of an expression within a budget (see `expr_loop`).
    #[verifier::spinoff_prover]
    #[verifier::rlimit(40)]
    fn expr_terms(&mut self, result: FarPtr, any: bool, Ghost(fuel): Ghost<nat>) -> (res: Result<(FarPtr, bool), MesError>)
        requires
            old(self).mem_ok(),
            expr_loop(old(self).memory(), old(self).program(), result, any, fuel) is Some,
        ensures
            final(self).mem_ok(),
            final(self).program() == old(self).program(),
            final(self).depth() == old(self).depth(),
            final(self).screen() == old(self).screen(),
            outcome_is(final(self).memory(), res, expr_loop(old(self).memory(), old(self).program(), result, any, fuel).unwrap()),
        decreases fuel, 1nat,
    {
        let control = match self.fetch() {
            Ok(b) => b,
            Err(e) => return Err(e),
        };
        let op = control & 0x7f;
        if op == 0 {
            return Ok((result, any));
        }
        let saved = self.acc();
        self.set_acc(0);
        let operand = match self.operand_in(Ghost((fuel - 1) as nat)) {
            Ok(p) => p,
            Err(e) => return Err(e),
        };
        self.set_acc(saved);
        let value = if self.mem.w(OPERAND_WORD) == 0 {
            self.mem.rb(operand) as u16
        } else {
            self.mem.rw(operand)
        };
        let is_string = self.mem.w(OPERAND_KIND) != 0;
        let r2 = match self.apply_op_exec(op, is_string, value, operand, result) {
            Ok(p) => p,
            Err(e) => return Err(e),
        };
        if control & 0x80 != 0 {
            return Ok((r2, true));
        }
        self.expr_terms(r2, true, Ghost((fuel - 1) as nat))
    }

    /// `expression` within a budget (see `expression_spec`).
    fn expr_in(&mut self, Ghost(fuel): Ghost<nat>) -> (res: Result<FarPtr, MesError>)
        requires
            old(self).mem_ok(),
            expression_spec(old(self).memory(), old(self).program(), fuel) is Some,
        ensures
            final(self).mem_ok(),
            final(self).program() == old(self).program(),
            final(self).depth() == old(self).depth(),
            final(self).screen() == old(self).screen(),
            outcome_is(final(self).memory(), res, expression_spec(old(self).memory(), old(self).program(), fuel).unwrap()),
        decreases fuel, 2nat,
    {
        let (mut result, any) = match self.expr_terms(0, false, Ghost(fuel)) {
            Ok(r) => r,
            Err(e) => return Err(e),
        };
        if self.mem.w(OPERAND_KIND) == 0 {
            let mut acc = self.acc();
            if acc < 0 {
                acc = 0;
            }
            if self.mem.w(OPERAND_WORD) != 0 {
                if acc > 0xffff {
                    acc = 0xffff;
                }
            } else if acc > 0xff {
                acc = 0xff;
            }
            self.set_acc(acc);
            if result == 0 && any {
                result = ds_ptr(ACC_LO);
            }
        }
        Ok(result)
    }
}

impl Engine {
    /// The value an operand or result denotes, by the width word.
    fn value_at(&self, p: FarPtr) -> (res: u16)
        requires
            self.mem_ok(),
        ensures
            res == value_of(self.memory(), p),
    {
        if self.mem.w(OPERAND_WORD) == 0 {
            self.mem.rb(p) as u16
        } else {
            self.mem.rw(p)
        }
    }

    /// Frees a string expression result (`sub_2302B`).
    pub fn free_expr(&mut self, ptr: FarPtr)
        requires
            old(self).mem_ok(),
        ensures
            final(self).mem_ok(),
            final(self).memory() == free_expr_spec(old(self).memory(), ptr),
            final(self).program() == old(self).program(),
            final(self).depth() == old(self).depth(),
            final(self).screen() == old(self).screen(),
    {
        if ptr != ds_ptr(ACC_LO) {
            self.mem.free(ptr);
        }
    }

    /// The comparisons of a condition within a budget (see `cond_loop`).
    #[verifier::spinoff_prover]
    #[verifier::rlimit(40)]
    fn cond_in(&mut self, join: u8, Ghost(fuel): Ghost<nat>) -> (res: Result<bool, MesError>)
        requires
            old(self).mem_ok(),
            cond_loop(old(self).memory(), old(self).program(), join, fuel) is Some,
        ensures
            final(self).mem_ok(),
            final(self).program() == old(self).program(),
            final(self).depth() == old(self).depth(),
            final(self).screen() == old(self).screen(),
            outcome_is(final(self).memory(), res, cond_loop(old(self).memory(), old(self).program(), join, fuel).unwrap()),
        decreases fuel,
    {
        let left = match self.expr_in(Ghost((fuel - 1) as nat)) {
            Ok(p) => p,
            Err(e) => return Err(e),
        };
        let left_value = if self.mem.w(OPERAND_KIND) == 0 {
            self.value_at(left)
        } else {
            0
        };
        let code = match self.fetch() {
            Ok(b) => b,
            Err(e) => return Err(e),
        };
        let right = match self.expr_in(Ghost((fuel - 1) as nat)) {
            Ok(p) => p,
            Err(e) => return Err(e),
        };
        let string = self.mem.w(OPERAND_KIND) != 0;
        let right_value = if !string {
            self.value_at(right)
        } else {
            0
        };
        let a = self.mem.cstr(left);
        let b = self.mem.cstr(right);
        let order = string_order(a.as_slice(), b.as_slice());
        let (lt, gt) = if string {
            (order < 0, order > 0)
        } else {
            (left_value < right_value, left_value > right_value)
        };
        let outcome = if code == 1 {
            lt
        } else if code == 2 {
            gt
        } else if code == 3 {
            !lt && !gt
        } else if code == 4 {
            lt || gt
        } else {
            false
        };
        let bit: u16 = if outcome {
            1
        } else {
            0
        };
        let flag = self.mem.w(COND_FLAG);
        if join == 1 {
            self.mem.set_w(COND_FLAG, flag & bit);
        } else if join == 2 {
            self.mem.set_w(COND_FLAG, flag | bit);
        }
        if string {
            self.free_expr(left);
            self.free_expr(right);
        }
        let next = match self.fetch() {
            Ok(b) => b,
            Err(e) => return Err(e),
        };
        if next == 0 {
            return Ok(self.mem.w(COND_FLAG) != 0);
        }
        self.cond_in(next, Ghost((fuel - 1) as nat))
    }

    /// Expression values within a budget (see `list_spec`).
    fn list_in(&mut self, max: usize, values: Vec<u16>, Ghost(fuel): Ghost<nat>) -> (res: Result<Vec<u16>, MesError>)
        requires
            old(self).mem_ok(),
            list_spec(old(self).memory(), old(self).program(), max as int, values@, fuel) is Some,
        ensures
            final(self).mem_ok(),
            final(self).program() == old(self).program(),
            final(self).depth() == old(self).depth(),
            final(self).screen() == old(self).screen(),
            ({
                let o = list_spec(old(self).memory(), old(self).program(), max as int, values@, fuel).unwrap();
                &&& final(self).memory() == o.0
                &&& match res {
                    Ok(v) => o.1 == Ok::<Seq<u16>, Fault>(v@),
                    Err(e) => o.1 matches Err(f) && fault_is(e, f, o.0),
                }
            }),
        decreases fuel,
    {
        if values.len() >= max {
            return Ok(values);
        }
        let ptr = match self.expr_in(Ghost((fuel - 1) as nat)) {
            Ok(p) => p,
            Err(e) => return Err(e),
        };
        if ptr == 0 {
            return Ok(values);
        }
        let mut values = values;
        values.push(self.mem.rw(ptr));
        self.list_in(max, values, Ghost((fuel - 1) as nat))
    }
}

impl Engine {
    /// `sub_14FFA`: decode one operand to a far pointer (see
    /// `operand_spec`).
    pub fn operand(&mut self) -> (res: Result<FarPtr, MesError>)
        requires
            old(self).mem_ok(),
            operand_runs(old(self).memory(), old(self).program()),
        ensures
            final(self).mem_ok(),
            final(self).program() == old(self).program(),
            final(self).depth() == old(self).depth(),
            final(self).screen() == old(self).screen(),
            outcome_is(final(self).memory(), res, operand_outcome(old(self).memory(), old(self).program())),
    {
        let ghost f = choose|f: nat| operand_spec(self.memory(), self.program(), f) is Some;
        self.operand_in(Ghost(f))
    }

    /// `sub_15222`: evaluate one expression (see `expression_spec`): a
    /// pointer to the numeric accumulator, a heap string, or null for the
    /// list terminator.
    pub fn expression(&mut self) -> (res: Result<FarPtr, MesError>)
        requires
            old(self).mem_ok(),
            expression_runs(old(self).memory(), old(self).program()),
        ensures
            final(self).mem_ok(),
            final(self).program() == old(self).program(),
            final(self).depth() == old(self).depth(),
            final(self).screen() == old(self).screen(),
            outcome_is(final(self).memory(), res, expression_outcome(old(self).memory(), old(self).program())),
    {
        let ghost f = choose|f: nat| expression_spec(self.memory(), self.program(), f) is Some;
        self.expr_in(Ghost(f))
    }

    /// An expression read as a word.
    pub fn expr_word(&mut self) -> (res: Result<u16, MesError>)
        requires
            old(self).mem_ok(),
            expression_runs(old(self).memory(), old(self).program()),
        ensures
            final(self).mem_ok(),
            final(self).program() == old(self).program(),
            final(self).depth() == old(self).depth(),
            final(self).screen() == old(self).screen(),
            ({
                let o = expression_outcome(old(self).memory(), old(self).program());
                &&& final(self).memory() == o.0
                &&& match res {
                    Ok(v) => o.1 matches Ok(p) && v == read_word(o.0, p),
                    Err(e) => o.1 matches Err(f) && fault_is(e, f, o.0),
                }
            }),
    {
        let ptr = self.expression()?;
        Ok(self.mem.rw(ptr))
    }

    /// An expression read as a byte.
    pub fn expr_byte(&mut self) -> (res: Result<u8, MesError>)
        requires
            old(self).mem_ok(),
            expression_runs(old(self).memory(), old(self).program()),
        ensures
            final(self).mem_ok(),
            final(self).program() == old(self).program(),
            final(self).depth() == old(self).depth(),
            final(self).screen() == old(self).screen(),
            ({
                let o = expression_outcome(old(self).memory(), old(self).program());
                &&& final(self).memory() == o.0
                &&& match res {
                    Ok(v) => o.1 matches Ok(p) && v == read_spec(o.0, p),
                    Err(e) => o.1 matches Err(f) && fault_is(e, f, o.0),
                }
            }),
    {
        let ptr = self.expression()?;
        Ok(self.mem.rb(ptr))
    }

    /// `sub_19598(n, buf)`: up to `max` list values (see `list_spec`).
    pub fn expr_list(&mut self, max: usize) -> (res: Result<Vec<u16>, MesError>)
        requires
            old(self).mem_ok(),
            list_runs(old(self).memory(), old(self).program(), max as int),
        ensures
            final(self).mem_ok(),
            final(self).program() == old(self).program(),
            final(self).depth() == old(self).depth(),
            final(self).screen() == old(self).screen(),
            ({
                let o = list_outcome(old(self).memory(), old(self).program(), max as int);
                &&& final(self).memory() == o.0
                &&& match res {
                    Ok(v) => o.1 == Ok::<Seq<u16>, Fault>(v@),
                    Err(e) => o.1 matches Err(f) && fault_is(e, f, o.0),
                }
            }),
    {
        let ghost f = choose|f: nat| list_spec(self.memory(), self.program(), max as int, Seq::empty(), f) is Some;
        let values: Vec<u16> = Vec::new();
        assert(values@ =~= Seq::<u16>::empty());
        self.list_in(max, values, Ghost(f))
    }

    /// `sub_1542C`: evaluate a condition (see `condition_spec`).
    pub fn condition(&mut self) -> (res: Result<bool, MesError>)
        requires
            old(self).mem_ok(),
            condition_runs(old(self).memory(), old(self).program()),
        ensures
            final(self).mem_ok(),
            final(self).program() == old(self).program(),
            final(self).depth() == old(self).depth(),
            final(self).screen() == old(self).screen(),
            outcome_is(final(self).memory(), res, condition_outcome(old(self).memory(), old(self).program())),
    {
        let ghost f = choose|f: nat| condition_spec(self.memory(), self.program(), f) is Some;
        self.mem.set_w(COND_FLAG, 0);
        self.cond_in(2, Ghost(f))
    }

    /// `sub_195D1`: an operand (or expression, then freed) formatted with
    /// `%-13.13s` into a 13-byte name (see `read_name_spec`).
    pub fn read_name(&mut self, expression: bool) -> (res: Result<Vec<u8>, MesError>)
        requires
            old(self).mem_ok(),
            name_runs(old(self).memory(), old(self).program(), expression),
        ensures
            final(self).mem_ok(),
            final(self).program() == old(self).program(),
            final(self).depth() == old(self).depth(),
            final(self).screen() == old(self).screen(),
            ({
                let o = name_outcome(old(self).memory(), old(self).program(), expression);
                &&& final(self).memory() == o.0
                &&& match res {
                    Ok(v) => o.1 == Ok::<Seq<u8>, Fault>(v@),
                    Err(e) => o.1 matches Err(f) && fault_is(e, f, o.0),
                }
            }),
    {
        let ghost f = choose|f: nat| read_name_spec(self.memory(), self.program(), expression, f) is Some;
        let r = if expression {
            self.expr_in(Ghost(f))
        } else {
            self.operand_in(Ghost(f))
        };
        let ptr = match r {
            Ok(p) => p,
            Err(e) => return Err(e),
        };
        let text = self.mem.cstr(ptr);
        let mut name: Vec<u8> = Vec::new();
        let mut i: usize = 0;
        while i < 13
            invariant
                i <= 13,
                name@ == Seq::new(i as nat, |k: int| if k < text@.len() { text@[k] } else { 0x20u8 }),
            decreases 13 - i,
        {
            name.push(if i < text.len() { text[i] } else { 0x20 });
            i = i + 1;
            assert(name@ =~= Seq::new(i as nat, |k: int| if k < text@.len() { text@[k] } else { 0x20u8 }));
        }
        if expression {
            self.free_expr(ptr);
        }
        Ok(name)
    }
}

/// The Borland `strcmp` sign of two strings.
fn string_order(a: &[u8], b: &[u8]) -> (res: i32)
    ensures
        res == cstr_order_from(a@, b@, 0),
{
    strcmp(a, b)
}

} // verus!
