//! Palette fading of `UK2.EXE`: the steps from one 16-colour palette to
//! another.
#![allow(unused_imports)]

use vstd::prelude::*;

use super::mem::{ds_word, lemma_ds_word, set_ds_word, MemView};
use super::Engine;

verus! {

// ---------------------------------------------------------------- palette fading

/// The palette being faded (DS:5AC0) and the palette it fades to (DS:5AA0).
pub const FADE_WORK: u16 = 0x5AC0;
pub const FADE_TARGET: u16 = 0x5AA0;

/// The sixteen words at `base`.
pub open spec fn ds_palette(ds: Seq<u8>, base: u16) -> Seq<u16> {
    Seq::new(16, |c: int| ds_word(ds, (base + 2 * c) as u16))
}

/// Nibble `shift / 4` of a colour word.
pub open spec fn nib(v: u16, shift: u16) -> int {
    ((v >> shift) & 0xf) as int
}

/// One unit from `cur` towards `want`.
pub open spec fn toward(cur: int, want: int) -> int {
    if cur == want {
        cur
    } else if cur < want {
        cur + 1
    } else {
        cur - 1
    }
}

/// A colour word with each of its G, R and B nibbles one unit closer to
/// those of `t`.
pub open spec fn stepped(v: u16, t: u16) -> u16 {
    (toward(nib(v, 8), nib(t, 8)) * 256 + toward(nib(v, 4), nib(t, 4)) * 16 + toward(nib(v, 0), nib(t, 0))) as u16
}

/// The palette `w` after `n` fading steps towards `t`.
pub open spec fn fade_n(w: Seq<u16>, t: Seq<u16>, n: nat) -> Seq<u16>
    decreases n,
{
    if n == 0 {
        w
    } else {
        let b = fade_n(w, t, (n - 1) as nat);
        Seq::new(16, |c: int| stepped(b[c], t[c]))
    }
}

/// The number of steps a fade takes from step `n` on: it stops when the
/// palette matches the target, or after fifteen steps.
pub open spec fn fade_steps(w: Seq<u16>, t: Seq<u16>, n: nat) -> nat
    decreases 15 - n,
{
    if n >= 15 || fade_n(w, t, n) == t {
        n
    } else {
        fade_steps(w, t, n + 1)
    }
}

/// The data segment with the sixteen words at `base` replaced by `p`.
pub open spec fn with_palette(ds: Seq<u8>, base: u16, p: Seq<u16>) -> Seq<u8> {
    Seq::new(
        ds.len(),
        |i: int|
            if base <= i < base + 32 {
                let w = p[(i - base) / 2];
                if (i - base) % 2 == 0 {
                    (w % 256) as u8
                } else {
                    (w / 256) as u8
                }
            } else {
                ds[i]
            },
    )
}

proof fn lemma_with_palette_update(ds: Seq<u8>, base: u16, p: Seq<u16>, c: int, v: u16)
    requires
        ds.len() == 0x10000,
        base + 32 <= 0xffff,
        p.len() == 16,
        0 <= c < 16,
    ensures
        set_ds_word(with_palette(ds, base, p), (base + 2 * c) as u16, v) =~= with_palette(ds, base, p.update(c, v)),
{
    assert(((base + 2 * c) as u16) as int + 1 < 65536);
}

proof fn lemma_palette_read(ds: Seq<u8>, base: u16, p: Seq<u16>)
    requires
        ds.len() == 0x10000,
        base + 32 <= 0xffff,
        p.len() == 16,
    ensures
        ds_palette(with_palette(ds, base, p), base) =~= p,
{
    assert forall|c: int| 0 <= c < 16 implies #[trigger] ds_palette(with_palette(ds, base, p), base)[c] == p[c] by {
        let o = (base + 2 * c) as u16;
        assert(o as int + 1 < 65536);
        assert((o as int - base) / 2 == c && (o as int + 1 - base) / 2 == c);
    }
}

proof fn lemma_palette_other(ds: Seq<u8>, base: u16, p: Seq<u16>, other: u16)
    requires
        ds.len() == 0x10000,
        base + 32 <= 0xffff,
        other + 32 <= base,
        p.len() == 16,
    ensures
        ds_palette(with_palette(ds, base, p), other) =~= ds_palette(ds, other),
{
}

proof fn lemma_palette_same(ds: Seq<u8>, base: u16)
    requires
        ds.len() == 0x10000,
        base + 32 <= 0xffff,
    ensures
        with_palette(ds, base, ds_palette(ds, base)) =~= ds,
{
    assert forall|i: int| 0 <= i < 0x10000 implies #[trigger] with_palette(ds, base, ds_palette(ds, base))[i] == ds[i] by {
        if base <= i < base + 32 {
            let c = (i - base) / 2;
            let o = (base + 2 * c) as u16;
            assert(o as int + 1 < 65536);
        }
    }
}

proof fn lemma_nib_bounds(v: u16, shift: u16)
    ensures
        0 <= nib(v, shift) < 16,
{
    assert((v >> shift) & 0xf < 16) by (bit_vector);
}

proof fn lemma_stepped_word(v: u16, t: u16)
    ensures
        stepped(v, t) == ((toward(nib(v, 8), nib(t, 8)) as u16) << 8u16) | ((toward(nib(v, 4), nib(t, 4)) as u16)
            << 4u16) | (toward(nib(v, 0), nib(t, 0)) as u16),
        stepped(v, t) <= 0x0fff,
{
    lemma_nib_bounds(v, 8);
    lemma_nib_bounds(v, 4);
    lemma_nib_bounds(v, 0);
    lemma_nib_bounds(t, 8);
    lemma_nib_bounds(t, 4);
    lemma_nib_bounds(t, 0);
    let g = toward(nib(v, 8), nib(t, 8)) as u16;
    let r = toward(nib(v, 4), nib(t, 4)) as u16;
    let b = toward(nib(v, 0), nib(t, 0)) as u16;
    assert(g < 16 && r < 16 && b < 16);
    assert((g << 8u16) | (r << 4u16) | b == g * 256 + r * 16 + b) by (bit_vector)
        requires
            g < 16,
            r < 16,
            b < 16,
    ;
}

fn toward_exec(cur: u16, want: u16) -> (res: u16)
    requires
        cur < 16,
        want < 16,
    ensures
        res == toward(cur as int, want as int),
        res < 16,
{
    if cur == want {
        cur
    } else if cur < want {
        cur + 1
    } else {
        cur - 1
    }
}

proof fn lemma_fade_len(w: Seq<u16>, t: Seq<u16>, n: nat)
    requires
        w.len() == 16,
    ensures
        fade_n(w, t, n).len() == 16,
    decreases n,
{
    if n > 0 {
        lemma_fade_len(w, t, (n - 1) as nat);
    }
}

fn same_palette(a: &[u16; 16], b: &[u16; 16]) -> (res: bool)
    ensures
        res == (a@ == b@),
{
    let mut c: usize = 0;
    while c < 16
        invariant
            c <= 16,
            a@.len() == 16 && b@.len() == 16,
            forall|j: int| 0 <= j < c ==> a@[j] == b@[j],
        decreases 16 - c,
    {
        if a[c] != b[c] {
            return false;
        }
        c = c + 1;
    }
    assert(a@ =~= b@);
    true
}

impl Engine {
    /// One fading step over the whole palette, written back from the last
    /// colour to the first.
    fn fade_once(&mut self, work: &[u16; 16], target: &[u16; 16], Ghost(ds0): Ghost<Seq<u8>>) -> (res: [u16; 16])
        requires
            old(self).wf(),
            ds0.len() == 0x10000,
            old(self).memory() == (MemView { ds: with_palette(ds0, FADE_WORK, work@), ..old(self).memory() }),
        ensures
            final(self).wf(),
            final(self).vram == old(self).vram,
            final(self).rng == old(self).rng,
            res@ == Seq::new(16, |j: int| stepped(work@[j], target@[j])),
            final(self).memory() == (MemView { ds: with_palette(ds0, FADE_WORK, res@), ..old(self).memory() }),
    {
        let mut row: [u16; 16] = [0u16; 16];
        let mut c: usize = 16;
        let ghost prev = work@;
        let ghost t = target@;
        assert(Seq::new(16, |j: int| if j >= 16 { stepped(prev[j], t[j]) } else { prev[j] }) =~= prev);
        while c > 0
            invariant
                c <= 16,
                self.wf(),
                self.vram == old(self).vram,
                self.rng == old(self).rng,
                ds0.len() == 0x10000,
                prev == work@,
                t == target@,
                prev.len() == 16 && t.len() == 16,
                self.memory() == (MemView {
                    ds: with_palette(ds0, FADE_WORK, Seq::new(16, |j: int| if j >= c { stepped(prev[j], t[j]) } else { prev[j] })),
                    ..old(self).memory()
                }),
                forall|j: int| c <= j < 16 ==> row@[j] == stepped(prev[j], t[j]),
            decreases c,
        {
            c = c - 1;
            let v = work[c];
            let goal = target[c];
            proof {
                lemma_nib_bounds(v, 8);
                lemma_nib_bounds(v, 4);
                lemma_nib_bounds(v, 0);
                lemma_nib_bounds(goal, 8);
                lemma_nib_bounds(goal, 4);
                lemma_nib_bounds(goal, 0);
                assert(v & 0xf == (v >> 0u16) & 0xf) by (bit_vector);
                assert(goal & 0xf == (goal >> 0u16) & 0xf) by (bit_vector);
            }
            let g = toward_exec((v >> 8) & 0xf, (goal >> 8) & 0xf);
            let r = toward_exec((v >> 4) & 0xf, (goal >> 4) & 0xf);
            let b = toward_exec(v & 0xf, goal & 0xf);
            let word: u16 = (g << 8) | (r << 4) | b;
            proof {
                lemma_stepped_word(v, goal);
                let mixed = Seq::new(16, |j: int| if j >= c + 1 { stepped(prev[j], t[j]) } else { prev[j] });
                lemma_with_palette_update(ds0, FADE_WORK, mixed, c as int, word);
                assert(mixed.update(c as int, word) =~= Seq::new(16, |j: int| if j >= c { stepped(prev[j], t[j]) } else { prev[j] }));
            }
            self.mem.set_w(FADE_WORK + 2 * c as u16, word);
            row[c] = word;
        }
        assert(Seq::new(16, |j: int| if j >= 0 { stepped(prev[j], t[j]) } else { prev[j] }) =~= row@);
        row
    }
}

impl Engine {
    /// The sixteen colour words at `base` in exec form.
    fn read_palette(&self, base: u16) -> (res: [u16; 16])
        requires
            self.mem_ok(),
            base <= 0xffdf,
        ensures
            res@ == ds_palette(self.memory().ds, base),
    {
        let mut out: [u16; 16] = [0u16; 16];
        let mut c: usize = 0;
        while c < 16
            invariant
                c <= 16,
                base <= 0xffdf,
                self.mem_ok(),
                forall|j: int| 0 <= j < c ==> out@[j] == ds_palette(self.memory().ds, base)[j],
            decreases 16 - c,
        {
            out[c] = self.mem.w(base + 2 * c as u16);
            c = c + 1;
        }
        assert(out@ =~= ds_palette(self.memory().ds, base));
        out
    }

    /// `sub_1FCFD`: steps every colour of the fading palette (DS:5AC0) one
    /// unit per nibble towards the target palette (DS:5AA0) until they match
    /// or fifteen steps were taken, and returns each intermediate palette.
    pub fn palette_steps(&mut self) -> (res: Vec<[u16; 16]>)
        requires
            old(self).wf(),
        ensures
            final(self).wf(),
            ({
                let w = ds_palette(old(self).memory().ds, FADE_WORK);
                let t = ds_palette(old(self).memory().ds, FADE_TARGET);
                let n = fade_steps(w, t, 0);
                &&& res@.len() == n
                &&& forall|k: int| 0 <= k < n ==> (#[trigger] res@[k])@ == fade_n(w, t, (k + 1) as nat)
                &&& final(self).memory() == (MemView {
                    ds: with_palette(old(self).memory().ds, FADE_WORK, fade_n(w, t, n)),
                    ..old(self).memory()
                })
            }),
            final(self).screen() == old(self).screen(),
            final(self).seed() == old(self).seed(),
    {
        let ghost ds0 = self.mem@.ds;
        let ghost w0 = ds_palette(ds0, FADE_WORK);
        let ghost t = ds_palette(ds0, FADE_TARGET);
        proof {
            self.mem.lemma_wf();
            lemma_palette_same(ds0, FADE_WORK);
        }
        let target = self.read_palette(FADE_TARGET);
        let mut steps: Vec<[u16; 16]> = Vec::new();
        let mut count: usize = 0;
        loop
            invariant
                count <= 15,
                self.wf(),
                self.vram == old(self).vram,
                self.rng == old(self).rng,
                ds0 == old(self).memory().ds,
                ds0.len() == 0x10000,
                w0 == ds_palette(ds0, FADE_WORK),
                t == ds_palette(ds0, FADE_TARGET),
                target@ == t,
                self.memory() == (MemView { ds: with_palette(ds0, FADE_WORK, fade_n(w0, t, count as nat)), ..old(self).memory() }),
                fade_steps(w0, t, 0) == fade_steps(w0, t, count as nat),
                steps@.len() == count,
                forall|k: int| 0 <= k < count ==> (#[trigger] steps@[k])@ == fade_n(w0, t, (k + 1) as nat),
            decreases 15 - count,
        {
            proof {
                self.mem.lemma_wf();
                lemma_fade_len(w0, t, count as nat);
                lemma_palette_read(ds0, FADE_WORK, fade_n(w0, t, count as nat));
            }
            let work = self.read_palette(FADE_WORK);
            let same = same_palette(&work, &target);
            if same || count >= 15 {
                return steps;
            }
            count = count + 1;
            let row = self.fade_once(&work, &target, Ghost(ds0));
            proof {
                assert(row@ =~= fade_n(w0, t, count as nat));
                assert(fade_n(w0, t, (count - 1) as nat) != t);
            }
            steps.push(row);
        }
    }
}

proof fn lemma_stepped_nibs(v: u16, t: u16)
    ensures
        nib(stepped(v, t), 8) == toward(nib(v, 8), nib(t, 8)),
        nib(stepped(v, t), 4) == toward(nib(v, 4), nib(t, 4)),
        nib(stepped(v, t), 0) == toward(nib(v, 0), nib(t, 0)),
{
    lemma_nib_bounds(v, 8);
    lemma_nib_bounds(v, 4);
    lemma_nib_bounds(v, 0);
    lemma_nib_bounds(t, 8);
    lemma_nib_bounds(t, 4);
    lemma_nib_bounds(t, 0);
    let g = toward(nib(v, 8), nib(t, 8)) as u16;
    let r = toward(nib(v, 4), nib(t, 4)) as u16;
    let b = toward(nib(v, 0), nib(t, 0)) as u16;
    let w = stepped(v, t);
    assert(w == g * 256 + r * 16 + b);
    assert(((w >> 8u16) & 0xf) == g && ((w >> 4u16) & 0xf) == r && ((w >> 0u16) & 0xf) == b) by (bit_vector)
        requires
            g < 16,
            r < 16,
            b < 16,
            w == g * 256 + r * 16 + b,
    ;
}

pub open spec fn nib_gap(a: u16, b: u16, shift: u16) -> int {
    let d = nib(a, shift) - nib(b, shift);
    if d < 0 {
        -d
    } else {
        d
    }
}

proof fn lemma_fade_gap(w: Seq<u16>, t: Seq<u16>, n: nat, c: int)
    requires
        w.len() == 16,
        t.len() == 16,
        0 <= c < 16,
        n <= 15,
    ensures
        nib_gap(fade_n(w, t, n)[c], t[c], 8) <= 15 - n,
        nib_gap(fade_n(w, t, n)[c], t[c], 4) <= 15 - n,
        nib_gap(fade_n(w, t, n)[c], t[c], 0) <= 15 - n,
    decreases n,
{
    lemma_fade_len(w, t, n);
    if n == 0 {
        lemma_nib_bounds(w[c], 8);
        lemma_nib_bounds(w[c], 4);
        lemma_nib_bounds(w[c], 0);
        lemma_nib_bounds(t[c], 8);
        lemma_nib_bounds(t[c], 4);
        lemma_nib_bounds(t[c], 0);
    } else {
        lemma_fade_gap(w, t, (n - 1) as nat, c);
        lemma_fade_len(w, t, (n - 1) as nat);
        let prev = fade_n(w, t, (n - 1) as nat)[c];
        assert(fade_n(w, t, n)[c] == stepped(prev, t[c]));
        lemma_stepped_nibs(prev, t[c]);
    }
}

/// A fade towards a palette of 12-bit colours reaches it in at most fifteen
/// steps, whatever palette it starts from.
pub proof fn lemma_fade_reaches(w: Seq<u16>, t: Seq<u16>)
    requires
        w.len() == 16,
        t.len() == 16,
        forall|c: int| 0 <= c < 16 ==> #[trigger] t[c] <= 0x0fff,
    ensures
        fade_n(w, t, 15) == t,
{
    lemma_fade_len(w, t, 15);
    lemma_fade_len(w, t, 14);
    assert forall|c: int| 0 <= c < 16 implies #[trigger] fade_n(w, t, 15)[c] == t[c] by {
        lemma_fade_gap(w, t, 15, c);
        let prev = fade_n(w, t, 14)[c];
        let x = fade_n(w, t, 15)[c];
        assert(x == stepped(prev, t[c]));
        lemma_stepped_word(prev, t[c]);
        let tc = t[c];
        assert(nib(x, 8) == nib(tc, 8) && nib(x, 4) == nib(tc, 4) && nib(x, 0) == nib(tc, 0));
        assert(x == tc) by (bit_vector)
            requires
                x <= 0x0fff,
                tc <= 0x0fff,
                ((x >> 8u16) & 0xf) == ((tc >> 8u16) & 0xf),
                ((x >> 4u16) & 0xf) == ((tc >> 4u16) & 0xf),
                ((x >> 0u16) & 0xf) == ((tc >> 0u16) & 0xf),
        ;
    }
    assert(fade_n(w, t, 15) =~= t);
}


// ---------------------------------------------------------------- palette banks

/// The hardware palette DS:67C gives: each word's G, R and B nibbles.
pub open spec fn hardware_palette(ds: Seq<u8>) -> Seq<u16> {
    Seq::new(16, |c: int| ds_word(ds, (super::ds::PALETTE + 2 * c) as u16) & 0xfff)
}

/// The words of bank `bank` laid over the current palette, where not
/// 0x1000 (kept), after the first `n` colours.
pub open spec fn bank_over(ds: Seq<u8>, bank: u16, n: int) -> Seq<u8>
    decreases n,
{
    if n <= 0 {
        ds
    } else {
        let d = bank_over(ds, bank, n - 1);
        let v = ds_word(d, (super::ds::PALETTE + bank * 32 + (n - 1) * 2) as u16);
        if v != 0x1000 {
            set_ds_word(d, (super::ds::PALETTE + (n - 1) * 2) as u16, v)
        } else {
            d
        }
    }
}

/// The number of colours `c < n` whose word in `a` is below that in `b`
/// (compared as signed words).
pub open spec fn below_count(a: Seq<u16>, b: Seq<u16>, n: int) -> int
    decreases n,
{
    if n <= 0 {
        0
    } else {
        below_count(a, b, n - 1) + if (a[n - 1] as i16) < (b[n - 1] as i16) {
            1int
        } else {
            0int
        }
    }
}

/// The DS offset of COLOR.TBL bank `bank` (counted from 1).
pub open spec fn bank_base(bank: u16) -> u16 {
    (super::ds::PALETTE_BANKS + (bank - 1) * 32) as u16
}

/// How a fade to `bank` is run from data segment `ds`: `None` when no
/// palette is shown on the way; else whether the steps are shown backwards
/// (the current palette is darker) and the data segment the steps are
/// computed from (the fading palette at DS:5AC0, its target at DS:5AA0).
pub open spec fn fade_setup(ds: Seq<u8>, bank: u16) -> Option<(bool, Seq<u8>)> {
    let cur = ds_palette(ds, super::ds::PALETTE);
    let want = ds_palette(ds, bank_base(bank));
    let lower = below_count(cur, want, 16);
    let higher = below_count(want, cur, 16);
    if !bank_valid(ds, bank) || lower == higher {
        None
    } else if lower > higher {
        let ds1 = with_palette(ds, FADE_TARGET, cur);
        Some((true, with_palette(ds1, FADE_WORK, ds_palette(ds1, bank_base(bank)))))
    } else {
        let ds1 = with_palette(ds, FADE_WORK, cur);
        Some((false, with_palette(ds1, FADE_TARGET, ds_palette(ds1, bank_base(bank)))))
    }
}

/// A bank `select_palette_bank` takes: 1 up to the bank count.
pub open spec fn bank_valid(ds: Seq<u8>, bank: u16) -> bool {
    1 <= bank && bank as int <= ds_word(ds, super::ds::PALETTE_BANK_COUNT) as i16 as int
}

impl Engine {
    /// `sub_1F676`: load DS:67C into the analog palette, unless the palette
    /// is locked.  (UK2.EXE first waits for the vertical retrace; that wait
    /// is the host's.)
    pub fn apply_palette(&mut self)
        requires
            old(self).wf(),
        ensures
            final(self).wf(),
            final(self).memory() == old(self).memory(),
            final(self).screen().pages == old(self).screen().pages,
            final(self).screen().access == old(self).screen().access,
            final(self).screen().display == old(self).screen().display,
            ds_word(old(self).memory().ds, super::ds::PALETTE_LOCK) == 1 ==> final(self).screen() == old(self).screen(),
            ds_word(old(self).memory().ds, super::ds::PALETTE_LOCK) != 1 ==> {
                &&& final(self).screen().palette@ == hardware_palette(old(self).memory().ds)
                &&& final(self).screen().dirty
            },
    {
        if self.mem.w(super::ds::PALETTE_LOCK) == 1 {
            return;
        }
        let mut i: usize = 0;
        while i < 16
            invariant
                self.wf(),
                i <= 16,
                self.memory() == old(self).memory(),
                self.vram.pages == old(self).vram.pages,
                self.vram.access == old(self).vram.access,
                self.vram.display == old(self).vram.display,
                forall|c: int| 0 <= c < i ==> self.vram.palette@[c] == hardware_palette(old(self).memory().ds)[c],
            decreases 16 - i,
        {
            let word = self.mem.w(super::ds::PALETTE + 2 * i as u16);
            self.vram.palette[i] = word & 0xfff;
            i = i + 1;
        }
        self.vram.dirty = true;
        assert(self.vram.palette@ =~= hardware_palette(old(self).memory().ds));
    }

    /// `sub_1F6E8`: select a COLOR.TBL bank (entries 0x1000 keep the
    /// current colour), then apply the palette; an invalid bank does
    /// nothing.
    pub fn select_palette_bank(&mut self, bank: u16)
        requires
            old(self).wf(),
            bank_valid(old(self).memory().ds, bank) ==> super::ds::PALETTE + bank * 32 + 30 < 0x10000,
        ensures
            final(self).wf(),
            !bank_valid(old(self).memory().ds, bank) ==> final(self).memory() == old(self).memory() && final(self).screen()
                == old(self).screen(),
            bank_valid(old(self).memory().ds, bank) ==> {
                let ds = bank_over(old(self).memory().ds, bank, 16);
                &&& final(self).memory() == (MemView { ds, ..old(self).memory() })
                &&& final(self).screen().pages == old(self).screen().pages
                &&& ds_word(ds, super::ds::PALETTE_LOCK) != 1 ==> final(self).screen().palette@ == hardware_palette(ds)
                &&& ds_word(ds, super::ds::PALETTE_LOCK) == 1 ==> final(self).screen() == old(self).screen()
            },
    {
        if bank < 1 || (bank as i32) > (self.mem.sw(super::ds::PALETTE_BANK_COUNT) as i32) {
            return;
        }
        let mut index: u16 = 0;
        while index < 16
            invariant
                self.wf(),
                index <= 16,
                super::ds::PALETTE + bank * 32 + 30 < 0x10000,
                self.memory() == (MemView { ds: bank_over(old(self).memory().ds, bank, index as int), ..old(self).memory() }),
                self.vram == old(self).vram,
            decreases 16 - index,
        {
            let value = self.mem.w(super::ds::PALETTE + bank * 32 + index * 2);
            if value != 0x1000 {
                self.mem.set_w(super::ds::PALETTE + index * 2, value);
            }
            index = index + 1;
        }
        self.apply_palette();
    }

    /// Writes sixteen words at `base`.
    fn write_palette(&mut self, base: u16, p: &[u16; 16])
        requires
            old(self).wf(),
            base <= 0xffdf,
        ensures
            final(self).wf(),
            final(self).memory() == (MemView { ds: with_palette(old(self).memory().ds, base, p@), ..old(self).memory() }),
            final(self).screen() == old(self).screen(),
            final(self).seed() == old(self).seed(),
    {
        let ghost ds0 = self.memory().ds;
        proof {
            self.mem.lemma_wf();
            lemma_palette_same(ds0, base);
        }
        let ghost mut q = ds_palette(ds0, base);
        let mut c: usize = 0;
        while c < 16
            invariant
                c <= 16,
                base <= 0xffdf,
                self.wf(),
                ds0 == old(self).memory().ds,
                ds0.len() == 0x10000,
                q.len() == 16,
                forall|j: int| 0 <= j < c ==> q[j] == p@[j],
                forall|j: int| c <= j < 16 ==> q[j] == ds_palette(ds0, base)[j],
                self.memory() == (MemView { ds: with_palette(ds0, base, q), ..old(self).memory() }),
                self.vram == old(self).vram,
                self.rng == old(self).rng,
            decreases 16 - c,
        {
            proof {
                lemma_with_palette_update(ds0, base, q, c as int, p@[c as int]);
            }
            self.set_w(base + 2 * c as u16, p[c]);
            proof {
                q = q.update(c as int, p@[c as int]);
                self.mem.lemma_wf();
            }
            c = c + 1;
        }
        assert(q =~= p@);
    }

    /// `sub_1FEFB(wait, bank)` without its waits: the palettes a fade to
    /// COLOR.TBL bank `bank` shows, in order, one after each wait of the
    /// host.  After the last, the host selects the bank.  An invalid bank,
    /// or a palette as often below as above the bank, shows none.
    pub fn fade_to_bank(&mut self, bank: u16) -> (res: Vec<[u16; 16]>)
        requires
            old(self).wf(),
            bank_valid(old(self).memory().ds, bank) ==> super::ds::PALETTE + bank * 32 + 30 < 0x10000,
        ensures
            final(self).wf(),
            final(self).screen() == old(self).screen(),
            final(self).seed() == old(self).seed(),
            match fade_setup(old(self).memory().ds, bank) {
                None => res@.len() == 0 && final(self).memory() == old(self).memory(),
                Some((backwards, ds)) => {
                    let w = ds_palette(ds, FADE_WORK);
                    let t = ds_palette(ds, FADE_TARGET);
                    let n = fade_steps(w, t, 0);
                    &&& res@.len() == n
                    &&& forall|k: int| 0 <= k < n ==> (#[trigger] res@[k])@ == fade_n(
                        w,
                        t,
                        (if backwards { n - k } else { k + 1 }) as nat,
                    )
                    &&& final(self).memory() == (MemView { ds: with_palette(ds, FADE_WORK, fade_n(w, t, n)), ..old(self).memory() })
                },
            },
    {
        let ghost ds0 = self.memory().ds;
        let none: Vec<[u16; 16]> = Vec::new();
        if bank < 1 || (bank as i32) > (self.sw(super::ds::PALETTE_BANK_COUNT) as i32) {
            return none;
        }
        let target: u16 = super::ds::PALETTE_BANKS + (bank - 1) * 32;
        let cur = self.read_palette(super::ds::PALETTE);
        let want = self.read_palette(target);
        let mut lower: u16 = 0;
        let mut higher: u16 = 0;
        let mut c: usize = 0;
        while c < 16
            invariant
                c <= 16,
                lower <= c,
                higher <= c,
                cur@ == ds_palette(ds0, super::ds::PALETTE),
                want@ == ds_palette(ds0, bank_base(bank)),
                lower == below_count(cur@, want@, c as int),
                higher == below_count(want@, cur@, c as int),
            decreases 16 - c,
        {
            if (cur[c] as i16) < (want[c] as i16) {
                lower = lower + 1;
            }
            if (cur[c] as i16) > (want[c] as i16) {
                higher = higher + 1;
            }
            c = c + 1;
        }
        if lower == higher {
            return none;
        }
        let backwards = lower > higher;
        if backwards {
            self.write_palette(FADE_TARGET, &cur);
            let again = self.read_palette(target);
            self.write_palette(FADE_WORK, &again);
        } else {
            self.write_palette(FADE_WORK, &cur);
            let again = self.read_palette(target);
            self.write_palette(FADE_TARGET, &again);
        }
        let steps = self.palette_steps();
        if !backwards {
            return steps;
        }
        let n = steps.len();
        let mut out: Vec<[u16; 16]> = Vec::new();
        let mut k: usize = 0;
        while k < n
            invariant
                k <= n,
                n == steps@.len(),
                out@.len() == k,
                forall|j: int| 0 <= j < k ==> out@[j] == steps@[n - 1 - j],
            decreases n - k,
        {
            out.push(steps[n - 1 - k]);
            k = k + 1;
        }
        out
    }

    /// One palette of a fade shown: it becomes the current palette and is
    /// applied.
    pub fn show_palette_step(&mut self, step: &[u16; 16])
        requires
            old(self).wf(),
        ensures
            final(self).wf(),
            final(self).memory() == (MemView { ds: with_palette(old(self).memory().ds, super::ds::PALETTE, step@), ..old(self).memory() }),
            final(self).screen().pages == old(self).screen().pages,
            ds_word(final(self).memory().ds, super::ds::PALETTE_LOCK) != 1 ==> final(self).screen().palette@ == hardware_palette(
                final(self).memory().ds,
            ),
            ds_word(final(self).memory().ds, super::ds::PALETTE_LOCK) == 1 ==> final(self).screen() == old(self).screen(),
    {
        self.write_palette(super::ds::PALETTE, step);
        self.apply_palette();
    }
}
} // verus!
