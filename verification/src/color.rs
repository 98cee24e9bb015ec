//! Parser and helpers for UK2's `COLOR.TBL` hardware-palette banks.
use vstd::prelude::*;

use crate::mes::le16;

verus! {

pub const COLOR_BANK_COLORS: usize = 16;
pub const COLOR_BANK_BYTES: usize = 32;
pub const MAX_COLOR_BANKS: usize = 10;

#[derive(Debug, Clone, Copy, PartialEq, Eq)]
pub enum ColorError {
    /// The length is zero or not a multiple of 32 bytes.
    BadLength,
    /// More than ten banks.
    TooManyBanks(usize),
    /// A colour word above 0x0fff.
    Not12Bit { bank: usize, color: usize },
    /// Bank index zero (indices are one-based).
    ZeroIndex,
    /// No bank with that index.
    MissingBank(u16),
    /// Invalid transition parameters.
    BadTransition,
}

/// Colour `c` of bank `b` as stored in the file.
pub open spec fn file_color(bytes: Seq<u8>, b: int, c: int) -> u16 {
    le16(bytes[b * 32 + 2 * c], bytes[b * 32 + 2 * c + 1])
}

/// Whether every colour of the file fits in 12 bits.
pub open spec fn all_12bit(bytes: Seq<u8>) -> bool {
    forall|b: int, c: int| 0 <= b < bytes.len() / 32 && 0 <= c < 16 ==> #[trigger] file_color(bytes, b, c) <= 0x0fff
}

#[derive(Debug, Clone, PartialEq, Eq)]
pub struct ColorTable {
    banks: Vec<Vec<u16>>,
}

impl ColorTable {
    /// The banks.
    pub closed spec fn view(&self) -> Seq<Seq<u16>> {
        Seq::new(self.banks@.len(), |i: int| self.banks@[i]@)
    }

    /// Parses banks of sixteen little-endian RGB12 words.
    pub fn parse(bytes: &[u8]) -> (res: Result<Self, ColorError>)
        ensures
            (bytes@.len() == 0 || bytes@.len() % 32 != 0) ==> res == Err::<Self, ColorError>(ColorError::BadLength),
            bytes@.len() > 0 && bytes@.len() % 32 == 0 && bytes@.len() / 32 > 10 ==> res == Err::<Self, ColorError>(
                ColorError::TooManyBanks((bytes@.len() / 32) as usize),
            ),
            bytes@.len() > 0 && bytes@.len() % 32 == 0 && bytes@.len() / 32 <= 10 && !all_12bit(bytes@)
                ==> res matches Err(ColorError::Not12Bit { .. }),
            bytes@.len() > 0 && bytes@.len() % 32 == 0 && bytes@.len() / 32 <= 10 && all_12bit(bytes@) ==> res is Ok
                && res.unwrap()@.len() == bytes@.len() / 32 && forall|b: int, c: int|
                0 <= b < bytes@.len() / 32 && 0 <= c < 16 ==> #[trigger] res.unwrap()@[b][c] == file_color(bytes@, b, c),
            res is Ok ==> forall|b: int| 0 <= b < res.unwrap()@.len() ==> #[trigger] res.unwrap()@[b].len() == 16,
    {
        if bytes.len() == 0 || bytes.len() % COLOR_BANK_BYTES != 0 {
            return Err(ColorError::BadLength);
        }
        let count = bytes.len() / COLOR_BANK_BYTES;
        if count > MAX_COLOR_BANKS {
            return Err(ColorError::TooManyBanks(count));
        }
        let mut banks: Vec<Vec<u16>> = Vec::new();
        let mut b: usize = 0;
        while b < count
            invariant
                count == bytes@.len() / 32,
                count <= 10,
                bytes@.len() == count * 32,
                b <= count,
                banks@.len() == b,
                forall|i: int, c: int| 0 <= i < b && 0 <= c < 16 ==> #[trigger] banks@[i]@[c] == file_color(bytes@, i, c),
                forall|i: int| 0 <= i < b ==> #[trigger] banks@[i]@.len() == 16,
                forall|i: int, c: int| 0 <= i < b && 0 <= c < 16 ==> #[trigger] file_color(bytes@, i, c) <= 0x0fff,
            decreases count - b,
        {
            let mut bank: Vec<u16> = Vec::new();
            let mut c: usize = 0;
            while c < COLOR_BANK_COLORS
                invariant
                    count == bytes@.len() / 32,
                    count <= 10,
                    bytes@.len() == count * 32,
                    b < count,
                    c <= 16,
                    bank@.len() == c,
                    forall|k: int| 0 <= k < c ==> #[trigger] bank@[k] == file_color(bytes@, b as int, k),
                    forall|k: int| 0 <= k < c ==> #[trigger] file_color(bytes@, b as int, k) <= 0x0fff,
                decreases 16 - c,
            {
                let at = b * COLOR_BANK_BYTES + c * 2;
                let color = bytes[at] as u16 + (bytes[at + 1] as u16) * 256;
                if color > 0x0fff {
                    assert(file_color(bytes@, b as int, c as int) > 0x0fff);
                    return Err(ColorError::Not12Bit { bank: b, color: c });
                }
                bank.push(color);
                c = c + 1;
            }
            banks.push(bank);
            b = b + 1;
        }
        let res = ColorTable { banks };
        assert(res@.len() == count);
        Ok(res)
    }

    /// Bank `one_based_index` (scripts count banks from one).
    pub fn bank(&self, one_based_index: u16) -> (res: Result<&[u16], ColorError>)
        ensures
            one_based_index == 0 ==> res == Err::<&[u16], ColorError>(ColorError::ZeroIndex),
            one_based_index > self@.len() ==> res == Err::<&[u16], ColorError>(ColorError::MissingBank(one_based_index)),
            1 <= one_based_index <= self@.len() ==> res is Ok && res.unwrap()@ == self@[one_based_index - 1],
    {
        if one_based_index == 0 {
            return Err(ColorError::ZeroIndex);
        }
        let index = (one_based_index - 1) as usize;
        if index >= self.banks.len() {
            return Err(ColorError::MissingBank(one_based_index));
        }
        Ok(self.banks[index].as_slice())
    }

    pub fn len(&self) -> (res: usize)
        ensures
            res == self@.len(),
    {
        self.banks.len()
    }

    pub fn is_empty(&self) -> (res: bool)
        ensures
            res == (self@.len() == 0),
    {
        self.banks.len() == 0
    }
}

/// Channel `shift` of an RGB12 word expanded to eight bits.
pub open spec fn nibble8(color: u16, div: int) -> u8 {
    ((color as int / div) % 16 * 17) as u8
}

/// RGB12 (`0x0RGB`) to eight-bit channels.
pub fn color_word_to_rgb(color: u16) -> (res: [u8; 3])
    ensures
        res@ == seq![nibble8(color, 256), nibble8(color, 16), nibble8(color, 1)],
{
    let r = ((color / 256) % 16) as u8 * 17;
    let g = ((color / 16) % 16) as u8 * 17;
    let b = (color % 16) as u8 * 17;
    let res = [r, g, b];
    assert(res@ =~= seq![nibble8(color, 256), nibble8(color, 16), nibble8(color, 1)]);
    res
}

/// Palette index of pixel `p` in 4bpp packed data (high nibble first).
pub open spec fn packed_index(indexed: Seq<u8>, p: int) -> int {
    if p % 2 == 0 {
        indexed[p / 2] as int / 16
    } else {
        indexed[p / 2] as int % 16
    }
}

/// Channel `ch` of target colour `index`.
pub open spec fn target_channel(target: Seq<u16>, index: int, ch: int) -> int {
    if ch == 0 {
        nibble8(target[index], 256) as int
    } else if ch == 1 {
        nibble8(target[index], 16) as int
    } else {
        nibble8(target[index], 1) as int
    }
}

/// Each RGB channel moves `numerator / denominator` of the way from the
/// source pixel to its bank colour; alpha is kept.
pub open spec fn transition_byte(rgba: Seq<u8>, indexed: Seq<u8>, target: Seq<u16>, n: int, d: int, k: int) -> u8 {
    let pixel = k / 4;
    let ch = k % 4;
    if ch == 3 {
        rgba[k]
    } else {
        ((rgba[k] as int * (d - n) + target_channel(target, packed_index(indexed, pixel), ch) * n) / d) as u8
    }
}

/// Moves an RGBA frame towards a palette bank.
pub fn transition_rgba(rgba: &[u8], indexed: &[u8], target: &[u16], numerator: u8, denominator: u8) -> (res: Result<Vec<u8>, ColorError>)
    requires
        target@.len() == 16,
    ensures
        (denominator == 0 || numerator > denominator || rgba@.len() % 4 != 0 || rgba@.len() != indexed@.len() * 8)
            ==> res == Err::<Vec<u8>, ColorError>(ColorError::BadTransition),
        !(denominator == 0 || numerator > denominator || rgba@.len() % 4 != 0 || rgba@.len() != indexed@.len() * 8)
            ==> res is Ok && res.unwrap()@.len() == rgba@.len() && forall|k: int| 0 <= k < rgba@.len()
            ==> #[trigger] res.unwrap()@[k] == transition_byte(rgba@, indexed@, target@, numerator as int, denominator as int, k),
{
    if denominator == 0 || numerator > denominator || rgba.len() % 4 != 0 || indexed.len() > usize::MAX / 8
        || rgba.len() != indexed.len() * 8 {
        return Err(ColorError::BadTransition);
    }
    let scale = denominator as u32;
    let step = numerator as u32;
    let mut output: Vec<u8> = Vec::new();
    let mut k: usize = 0;
    while k < rgba.len()
        invariant
            target@.len() == 16,
            rgba@.len() == indexed@.len() * 8,
            scale == denominator,
            step == numerator,
            scale > 0,
            step <= scale,
            k <= rgba@.len(),
            output@.len() == k,
            forall|j: int| 0 <= j < k ==> #[trigger] output@[j] == transition_byte(rgba@, indexed@, target@, numerator as int, denominator as int, j),
        decreases rgba@.len() - k,
    {
        let pixel = k / 4;
        let channel = k % 4;
        if channel == 3 {
            output.push(rgba[k]);
        } else {
            let packed = indexed[pixel / 2];
            let index = if pixel % 2 == 0 { packed / 16 } else { packed % 16 };
            let rgb = color_word_to_rgb(target[index as usize]);
            let from = rgba[k] as u32;
            let to = rgb[channel] as u32;
            assert(from * (scale - step) <= 255 * (scale - step)) by (nonlinear_arith)
                requires from <= 255, scale - step >= 0;
            assert(to * step <= 255 * step) by (nonlinear_arith)
                requires to <= 255, step >= 0;
            let num = from * (scale - step) + to * step;
            let value = num / scale;
            assert(num as int / scale as int <= 255) by (nonlinear_arith)
                requires num <= 255 * scale, scale > 0;
            output.push(value as u8);
        }
        k = k + 1;
    }
    Ok(output)
}

} // verus!
