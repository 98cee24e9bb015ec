//! Pieces of the PMD sound driver that the engine's music player relies on.
#![allow(unused_imports)]

use vstd::prelude::*;

verus! {

/// The F-number leaves the base octave upwards (`fm_block_calc` raises the
/// block): `0x26a * 2 <= fnum < 0x8000`.
pub open spec fn octave_up(ax: int) -> bool {
    0x4d4 <= ax < 0x8000
}

/// The F-number lies in the base octave: `0x26a <= fnum < 0x26a * 2`.
pub open spec fn octave_in(ax: int) -> bool {
    0x26a <= ax < 0x4d4
}

pub open spec fn octave_measure(cx: int, ax: int) -> int {
    if octave_up(ax) {
        0x20000 + ax
    } else {
        cx
    }
}

/// What `fm_block_calc` leaves in (block, F-number), or `None` where the
/// block word would overflow on the way up.
pub open spec fn block_calc(cx: int, ax: int) -> Option<(u16, u16)>
    decreases octave_measure(cx, ax),
    when 0 <= cx <= 0xffff && 0 <= ax <= 0xffff
{
    if octave_in(ax) {
        Some((cx as u16, ax as u16))
    } else if octave_up(ax) {
        if cx + 0x800 > 0xffff {
            None
        } else if cx + 0x800 == 0x4000 {
            Some((0x3800u16, if ax >= 0x800 { 0x7ffu16 } else { ax as u16 }))
        } else {
            block_calc(cx + 0x800, ax - 0x26a)
        }
    } else if cx < 0x800 {
        Some((0u16, if ax >= 0x8000 || ax < 8 { 8u16 } else { ax as u16 }))
    } else {
        block_calc(cx - 0x800, (ax + 0x26a) % 0x10000)
    }
}

/// `fm_block_calc`: normalises an F-number that left the base octave by
/// moving the block word `cx` (in steps of 0x800) up or down.  The block is
/// clamped at 0x3800 and 0; the F-number then saturates at 0x7ff or 8.
pub fn fm_block_calc(cx: &mut u16, ax: &mut u16)
    requires
        block_calc(*old(cx) as int, *old(ax) as int) is Some,
    ensures
        block_calc(*old(cx) as int, *old(ax) as int) == Some((*final(cx), *final(ax))),
{
    loop
        invariant
            block_calc(*old(cx) as int, *old(ax) as int) == block_calc(*cx as int, *ax as int),
            block_calc(*cx as int, *ax as int) is Some,
        decreases octave_measure(*cx as int, *ax as int),
    {
        if *ax & 0x8000 == 0 && *ax >= 0x26a {
            assert(*ax & 0x8000 == 0 <==> *ax < 0x8000) by (bit_vector);
            if *ax < 0x26a * 2 {
                return;
            }
            *cx = *cx + 0x800;
            if *cx == 0x4000 {
                *cx = 0x3800;
                if *ax >= 0x800 {
                    *ax = 0x7ff;
                }
                return;
            }
            *ax = ax.wrapping_sub(0x26a);
        } else {
            assert(*ax & 0x8000 == 0 <==> *ax < 0x8000) by (bit_vector);
            if *cx < 0x800 {
                *cx = 0;
                if *ax & 0x8000 != 0 || *ax < 8 {
                    *ax = 8;
                }
                return;
            }
            *cx = *cx - 0x800;
            *ax = ax.wrapping_add(0x26a);
        }
    }
}

} // verus!
