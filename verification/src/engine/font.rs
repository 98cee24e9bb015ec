//! Full-width glyph source replacing the PC-98 kanji ROM.
//!
//! `UK2.EXE` reads 16x16 JIS X 0208 glyphs from the kanji ROM (`int 18h`
//! AH=14h / ports A1h-A5h).  A ROM image holds 94x94 JIS cells of 32 bytes
//! each, row-major.  Half-width glyphs come from the game's own
//! `kana.pdt1`, exactly as UK2.EXE does.
use vstd::prelude::*;

verus! {

/// JIS cells in a ROM image.
pub const CELL_COUNT: usize = 8836;
/// Bytes of a whole ROM image.
pub const ROM_BYTES: usize = 282752;

pub struct KanjiRom {
    data: Vec<u8>,
}

/// A Shift-JIS double-byte code the conversion accepts without wrapping:
/// a lead byte from 0x81 on and a trail byte from 0x1f on (0x20 from 0x80).
pub open spec fn sjis_convertible(lead: u8, trail: u8) -> bool {
    lead >= 0x81 && trail >= 0x1f && (trail >= 0x80 ==> trail >= 0x20)
}

/// The JIS code of a Shift-JIS double-byte code.
pub open spec fn sjis_jis(lead: u8, trail: u8) -> u16 {
    let l = if lead >= 0xe0 {
        lead - 0x40
    } else {
        lead as int
    };
    let row = (l - 0x81) * 2 + 0x21;
    if trail >= 0x9f {
        ((row + 1) * 256 + (trail - 0x7e)) as u16
    } else {
        (row * 256 + (trail - 0x1f - if trail >= 0x80 {
            1int
        } else {
            0int
        })) as u16
    }
}

/// The glyph of JIS code `jis` in ROM image `data`: its 32 bytes, or
/// blank outside the 94x94 table.
pub open spec fn glyph_of(data: Seq<u8>, jis: u16) -> Seq<u8> {
    let row = jis / 256;
    let col = jis % 256;
    if 0x21 <= row <= 0x7e && 0x21 <= col <= 0x7e {
        data.subrange(((row - 0x21) * 94 + (col - 0x21)) * 32, ((row - 0x21) * 94 + (col - 0x21)) * 32 + 32)
    } else {
        Seq::new(32, |i: int| 0u8)
    }
}

impl KanjiRom {
    pub closed spec fn view(&self) -> Seq<u8> {
        self.data@
    }

    /// A ROM image: `None` unless it holds all 94x94 cells.
    pub fn from_rom(data: Vec<u8>) -> (res: Option<Self>)
        ensures
            data@.len() >= ROM_BYTES <==> res is Some,
            res matches Some(rom) ==> rom.view() == data@,
    {
        if data.len() >= ROM_BYTES {
            Some(KanjiRom { data })
        } else {
            None
        }
    }

    /// 16x16 glyph (two bytes per row) for a JIS code `0xHHLL`.
    pub fn jis_glyph(&self, jis: u16) -> (res: [u8; 32])
        requires
            self.view().len() >= ROM_BYTES,
        ensures
            res@ == glyph_of(self.view(), jis),
    {
        let row = (jis >> 8) as usize;
        let col = (jis & 0xff) as usize;
        assert(row == jis / 256 && col == jis % 256) by (bit_vector)
            requires
                row == (jis >> 8u16) as usize,
                col == (jis & 0xff) as usize,
        ;
        let mut out: [u8; 32] = [0u8; 32];
        if 0x21 <= row && row <= 0x7e && 0x21 <= col && col <= 0x7e {
            let at = ((row - 0x21) * 94 + (col - 0x21)) * 32;
            let mut k: usize = 0;
            while k < 32
                invariant
                    at + 32 <= self.data@.len(),
                    at + 32 <= ROM_BYTES,
                    k <= 32,
                    forall|j: int| 0 <= j < k ==> out@[j] == self.data@[at + j],
                decreases 32 - k,
            {
                out[k] = self.data[at + k];
                k = k + 1;
            }
            assert(out@ =~= glyph_of(self.view(), jis));
        } else {
            assert(out@ =~= glyph_of(self.view(), jis));
        }
        out
    }

    /// Converts a Shift-JIS double-byte code (lead, trail) to JIS.
    pub fn sjis_to_jis(lead: u8, trail: u8) -> (res: u16)
        requires
            sjis_convertible(lead, trail),
        ensures
            res == sjis_jis(lead, trail),
    {
        let mut lead = lead as u16;
        let trail = trail as u16;
        if lead >= 0xe0 {
            lead = lead - 0x40;
        }
        let mut row = (lead - 0x81) * 2 + 0x21;
        let col = if trail >= 0x9f {
            row = row + 1;
            trail - 0x7e
        } else {
            trail - 0x1f - if trail >= 0x80 {
                1
            } else {
                0
            }
        };
        assert(row <= 0xff && col <= 0xff);
        assert((row << 8u16) | col == row * 256 + col) by (bit_vector)
            requires
                row <= 0xff,
                col <= 0xff,
        ;
        (row << 8) | col
    }

    /// The glyph of a Shift-JIS double-byte code.
    pub fn sjis_glyph(&self, lead: u8, trail: u8) -> (res: [u8; 32])
        requires
            self.view().len() >= ROM_BYTES,
            sjis_convertible(lead, trail),
        ensures
            res@ == glyph_of(self.view(), sjis_jis(lead, trail)),
    {
        self.jis_glyph(Self::sjis_to_jis(lead, trail))
    }
}

} // verus!
