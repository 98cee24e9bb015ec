//! Real-time map battles (seg013): the FIGHT.TAB records the battle reads
//! and heals.
//!
//! FIGHT.TAB records are 0x29 bytes: name at `+0`, `+1B` player-controlled
//! flag, `+1D` AI kind, `+1F` level, `+21` current HP, `+23` maximum HP.
use vstd::prelude::*;

use super::map::{ds_d, ds_w, fw};
use super::mem::{add_spec, ptr_add, write_word, FarPtr, MemView};
use super::Engine;

verus! {

/// DS pointer to the loaded FIGHT.TAB.
pub const FIGHT_TAB: u16 = 0x3AD7;
pub const FIGHT_REC: i32 = 0x29;
/// DS word holding the number of FIGHT.TAB records loaded.
pub const FIGHT_COUNT: u16 = 0x3AD5;

/// The FIGHT.TAB record of a kind.
pub open spec fn fight_rec_spec(m: MemView, kind: int) -> u32 {
    add_spec(ds_d(m, FIGHT_TAB), kind * 0x29)
}

/// Kinds 1 to `n` restored to full HP, in turn.
pub open spec fn healed(m: MemView, n: int) -> MemView
    decreases n,
{
    if n <= 0 {
        m
    } else {
        let b = healed(m, n - 1);
        let rec = fight_rec_spec(b, n);
        write_word(b, add_spec(rec, 0x21), fw(b, rec, 0x23))
    }
}

/// The kinds that FIGHT.TAB holds past record 0: one fewer than the loaded
/// record count.
pub open spec fn fight_kinds(m: MemView) -> int {
    if ds_w(m, FIGHT_COUNT) == 0 {
        0
    } else {
        ds_w(m, FIGHT_COUNT) - 1
    }
}

impl Engine {
    /// The FIGHT.TAB record of a kind.
    fn fight_rec(&self, kind: u16) -> (res: FarPtr)
        requires
            self.mem_ok(),
        ensures
            res == fight_rec_spec(self.memory(), kind as int),
    {
        ptr_add(self.mem.d(FIGHT_TAB), kind as i32 * FIGHT_REC)
    }

    /// `sub_18F76`: I4 — restore every FIGHT.TAB record (kinds 1 up to the
    /// loaded record count) to full HP.
    pub fn battle_heal(&mut self)
        requires
            old(self).mem_ok(),
        ensures
            final(self).mem_ok(),
            final(self).memory() == healed(old(self).memory(), fight_kinds(old(self).memory())),
            final(self).screen() == old(self).screen(),
    {
        let count = self.w(FIGHT_COUNT);
        let mut kind: u16 = 1;
        while kind < count
            invariant
                self.mem_ok(),
                1 <= kind,
                kind <= count || kind == 1,
                count == ds_w(old(self).memory(), FIGHT_COUNT),
                self.memory() == healed(old(self).memory(), kind - 1),
                self.screen() == old(self).screen(),
            decreases count - kind,
        {
            let rec = self.fight_rec(kind);
            let max = self.ow(rec, 0x23);
            self.set_ow(rec, 0x21, max);
            kind = kind + 1;
        }
        let ghost k: int = kind - 1;
        assert(k == fight_kinds(old(self).memory()));
        assert(self.memory() == healed(old(self).memory(), k));
    }
}

} // verus!
