//! Decoder for the PC-98 `PDT34` planar image format.
//!
//! The format is read from UK2's `sub_226B7` / `sub_225BE`: a 32-byte palette
//! block follows the tag, then two RLE marker bytes, an 8-byte rectangle, and
//! four separately encoded bitplanes. The rectangle is stored in 8-pixel
//! columns and pairs of scanlines, matching the PC-98 640x400 graphics planes.
use vstd::prelude::*;

use crate::mes::le16;

verus! {

pub const PDT34_WIDTH: u32 = 640;
pub const PDT34_HEIGHT: u32 = 400;
pub const PDT34_PALETTE_OFFSET: usize = 1;
pub const PDT34_MARKERS_OFFSET: usize = 0x21;
pub const PDT34_RECT_OFFSET: usize = 0x23;
pub const PDT34_DATA_OFFSET: usize = 0x2b;
/// Bytes in one plane row (640 pixels, eight per byte).
pub const PLANE_ROW_BYTES: usize = 80;
/// Rows in one plane.
pub const PLANE_ROWS: usize = 400;
/// Bytes in one whole plane.
pub const PLANE_BYTES: usize = 32000;
/// Bytes of packed 4bpp indices in a whole screen.
pub const INDEXED_BYTES: usize = 128000;
/// Bytes of RGBA in a whole screen.
pub const RGBA_BYTES: usize = 1024000;

#[derive(Debug, Clone, Copy, PartialEq, Eq)]
pub struct Pdt34Rect {
    /// Left edge in 8-pixel byte columns.
    pub left: u16,
    /// Top edge in scanlines.
    pub top: u16,
    /// Right edge in 8-pixel byte columns, inclusive.
    pub right: u16,
    /// Bottom edge in scanlines, inclusive.
    pub bottom: u16,
}

#[derive(Debug, Clone, PartialEq, Eq)]
pub struct Pdt34Header {
    pub palette: [u16; 16],
    pub marker_alternating: u8,
    pub marker_solid: u8,
    pub rect: Pdt34Rect,
}

#[derive(Debug, Clone, PartialEq, Eq)]
pub struct Pdt34Image {
    pub width: u32,
    pub height: u32,
    /// Packed 4bpp palette indices, two pixels per byte, row-major.
    pub indexed: Vec<u8>,
    /// Row-major RGBA image. MAP compositing applies transparency, since
    /// standalone PDT loads may use palette index zero as an opaque color.
    pub rgba: Vec<u8>,
}

/// How a plane stream went wrong.
#[derive(Debug, Clone, Copy, PartialEq, Eq)]
pub enum PlaneFault {
    /// The stream ended inside a run.
    Truncated,
    /// A run of zero rows, or one past the rectangle's last row pair.
    BadRun,
}

/// Reasons a PDT34 image or a sprite composition is refused.
#[derive(Debug, Clone, Copy, PartialEq, Eq)]
pub enum PdtError {
    /// Shorter than the 0x2b-byte header.
    TooShort,
    /// The first byte is not the `0x34` tag.
    BadTag(u8),
    /// This palette entry has bits above the low twelve.
    WidePaletteEntry(usize),
    RightBeforeLeft,
    BottomBeforeTop,
    TooWide,
    TooTall,
    /// The rectangle does not start on an even line and end on an odd one.
    LineParity,
    /// The data after the header is missing.
    TruncatedPayload,
    /// Plane `0..4` failed to decode.
    Plane(usize, PlaneFault),
    /// Sprite composition needs two 640x400 images.
    NotFullScreen,
}

/// The first rule a rectangle breaks.
pub open spec fn rect_error(r: Pdt34Rect) -> Option<PdtError> {
    if r.right < r.left {
        Some(PdtError::RightBeforeLeft)
    } else if r.bottom < r.top {
        Some(PdtError::BottomBeforeTop)
    } else if r.right >= 80 {
        Some(PdtError::TooWide)
    } else if r.bottom >= 400 {
        Some(PdtError::TooTall)
    } else if r.top % 2 != 0 || r.bottom % 2 != 1 {
        Some(PdtError::LineParity)
    } else {
        None
    }
}

pub open spec fn palette_word(b: Seq<u8>, i: int) -> u16 {
    le16(b[1 + 2 * i], b[2 + 2 * i])
}

/// The first palette entry from `i` on that is wider than twelve bits, or 16.
pub open spec fn first_wide(b: Seq<u8>, i: int) -> int
    decreases 16 - i,
{
    if i >= 16 || i < 0 {
        16
    } else if palette_word(b, i) > 0x0fff {
        i
    } else {
        first_wide(b, i + 1)
    }
}

pub open spec fn rect_of(b: Seq<u8>) -> Pdt34Rect {
    Pdt34Rect {
        left: le16(b[0x23], b[0x24]),
        top: le16(b[0x25], b[0x26]),
        right: le16(b[0x27], b[0x28]),
        bottom: le16(b[0x29], b[0x2a]),
    }
}

/// The first check a PDT34 header fails.
pub open spec fn header_error(b: Seq<u8>) -> Option<PdtError> {
    if b.len() < 0x2b {
        Some(PdtError::TooShort)
    } else if b[0] != 0x34 {
        Some(PdtError::BadTag(b[0]))
    } else if first_wide(b, 0) < 16 {
        Some(PdtError::WidePaletteEntry(first_wide(b, 0) as usize))
    } else {
        rect_error(rect_of(b))
    }
}

/// `h` is the header stored at the start of `b`.
pub open spec fn header_is(h: Pdt34Header, b: Seq<u8>) -> bool {
    &&& h.palette@ == Seq::new(16, |i: int| palette_word(b, i))
    &&& h.marker_alternating == b[0x21]
    &&& h.marker_solid == b[0x22]
    &&& h.rect == rect_of(b)
}

// ---------------------------------------------------------------- plane streams

/// Columns of the rectangle.
pub open spec fn rect_columns(r: Pdt34Rect) -> int {
    r.right - r.left + 1
}

/// Pairs of scanlines of the rectangle.
pub open spec fn rect_row_pairs(r: Pdt34Rect) -> int {
    (r.bottom - r.top) / 2 + 1
}

/// The run at cursor `c`: its length in row pairs, the bytes for the top and
/// bottom line of each pair, and the cursor after it; `None` when the stream
/// ends inside it.
pub open spec fn run_at(h: Pdt34Header, s: Seq<u8>, c: int) -> Option<(int, u8, u8, int)> {
    if c >= s.len() {
        None
    } else if s[c] == h.marker_alternating {
        if c + 3 >= s.len() {
            None
        } else {
            Some((s[c + 1] as int, s[c + 2], s[c + 3], c + 4))
        }
    } else if s[c] == h.marker_solid {
        if c + 2 >= s.len() {
            None
        } else {
            Some((s[c + 1] as int, s[c + 2], s[c + 2], c + 3))
        }
    } else if c + 1 >= s.len() {
        None
    } else {
        Some((1, s[c], s[c + 1], c + 2))
    }
}

/// An alternating run `[alt, n, t, b]` is `n` row pairs of the literal pair
/// `[t, b]`: it reads the same top and bottom bytes, in the same order, as
/// the two bytes `t, b` written out (where `t` is no marker), and the top
/// byte is the one that comes first.
pub proof fn lemma_alternating_run_is_literal_pair(h: Pdt34Header, n: u8, t: u8, b: u8)
    requires
        t != h.marker_alternating,
        t != h.marker_solid,
    ensures
        run_at(h, seq![h.marker_alternating, n, t, b], 0) == Some((n as int, t, b, 4int)),
        run_at(h, seq![t, b], 0) == Some((1int, t, b, 2int)),
        ({
            let alt = run_at(h, seq![h.marker_alternating, 1u8, t, b], 0).unwrap();
            let lit = run_at(h, seq![t, b], 0).unwrap();
            alt.0 == lit.0 && alt.1 == lit.1 && alt.2 == lit.2
        }),
        h.marker_solid != h.marker_alternating ==> run_at(h, seq![h.marker_solid, n, t], 0) == Some((n as int, t, t, 3int)),
{
    let v = seq![h.marker_solid, n, t];
    assert(v[0] == h.marker_solid && v[1] == n && v[2] == t);
    let s = seq![h.marker_alternating, n, t, b];
    assert(s[0] == h.marker_alternating && s[1] == n && s[2] == t && s[3] == b);
    let s1 = seq![h.marker_alternating, 1u8, t, b];
    assert(s1[0] == h.marker_alternating && s1[1] == 1u8 && s1[2] == t && s1[3] == b);
    let l = seq![t, b];
    assert(l[0] == t && l[1] == b);
}

/// A painted run puts its top byte on the first line of each row pair and
/// its bottom byte on the second.
pub proof fn lemma_paint_top_first(p: Seq<u8>, x: int, first: int, lines: int, t: u8, b: u8, k: int)
    requires
        0 <= x < 80,
        first >= 0,
        0 <= 2 * k + 1 < lines,
        (first + 2 * k + 1) * 80 + x < p.len(),
    ensures
        paint(p, x, first, lines, t, b)[(first + 2 * k) * 80 + x] == t,
        paint(p, x, first, lines, t, b)[(first + 2 * k + 1) * 80 + x] == b,
{
    let i = (first + 2 * k) * 80 + x;
    let j = (first + 2 * k + 1) * 80 + x;
    assert(i % 80 == x && i / 80 == first + 2 * k) by (nonlinear_arith)
        requires
            i == (first + 2 * k) * 80 + x,
            0 <= x < 80,
            first + 2 * k >= 0,
    ;
    assert(j % 80 == x && j / 80 == first + 2 * k + 1) by (nonlinear_arith)
        requires
            j == (first + 2 * k + 1) * 80 + x,
            0 <= x < 80,
            first + 2 * k + 1 >= 0,
    ;
    assert((2 * k) % 2 == 0 && (2 * k + 1) % 2 == 1);
}

/// Plane `p` with byte column `x` of lines `first .. first + lines` set,
/// `t` on even-numbered and `b` on odd-numbered lines of the run.
pub open spec fn paint(p: Seq<u8>, x: int, first: int, lines: int, t: u8, b: u8) -> Seq<u8> {
    Seq::new(
        p.len(),
        |i: int|
            if i % 80 == x && first <= i / 80 < first + lines {
                if (i / 80 - first) % 2 == 0 {
                    t
                } else {
                    b
                }
            } else {
                p[i]
            },
    )
}

/// Decodes the rest of one plane from cursor `c`, column `col` and row pair
/// `rp` on, into `p`: the plane and the cursor after its stream.
pub open spec fn plane_from(h: Pdt34Header, s: Seq<u8>, c: int, col: int, rp: int, p: Seq<u8>) -> Result<
    (Seq<u8>, int),
    PlaneFault,
>
    decreases rect_columns(h.rect) - col, rect_row_pairs(h.rect) - rp,
{
    if col >= rect_columns(h.rect) || col < 0 {
        Ok((p, c))
    } else if rp >= rect_row_pairs(h.rect) || rp < 0 {
        plane_from(h, s, c, col + 1, 0, p)
    } else {
        match run_at(h, s, c) {
            None => Err(PlaneFault::Truncated),
            Some((rep, t, b, c2)) => if rep == 0 || rp + rep > rect_row_pairs(h.rect) {
                Err(PlaneFault::BadRun)
            } else {
                plane_from(
                    h,
                    s,
                    c2,
                    col,
                    rp + rep,
                    paint(p, h.rect.left + col, h.rect.top + 2 * rp, 2 * rep, t, b),
                )
            },
        }
    }
}

/// One plane decoded from cursor `c` onto a blank plane.
pub open spec fn plane_at(h: Pdt34Header, s: Seq<u8>, c: int) -> Result<(Seq<u8>, int), PlaneFault> {
    plane_from(h, s, c, 0, 0, Seq::new(32000, |i: int| 0u8))
}

/// The four planes of the payload, each stream following the previous one.
pub open spec fn planes_of(h: Pdt34Header, s: Seq<u8>) -> Result<Seq<Seq<u8>>, PdtError> {
    match plane_at(h, s, 0) {
        Err(f) => Err(PdtError::Plane(0, f)),
        Ok((p0, c1)) => match plane_at(h, s, c1) {
            Err(f) => Err(PdtError::Plane(1, f)),
            Ok((p1, c2)) => match plane_at(h, s, c2) {
                Err(f) => Err(PdtError::Plane(2, f)),
                Ok((p2, c3)) => match plane_at(h, s, c3) {
                    Err(f) => Err(PdtError::Plane(3, f)),
                    Ok((p3, _)) => Ok(seq![p0, p1, p2, p3]),
                },
            },
        },
    }
}

// ---------------------------------------------------------------- pixels

/// Bit `7 - bit` of `byte`, moved to bit `plane`.
pub open spec fn plane_bit(byte: u8, bit: u8, plane: u8) -> u8 {
    ((byte >> (7 - bit) as u8) & 1) << plane
}

/// The palette index of pixel `p` of a 640x400 screen held in four planes.
pub open spec fn pixel_colour(planes: Seq<Seq<u8>>, p: int) -> u8 {
    let at = (p / 640) * 80 + (p % 640) / 8;
    let bit = (p % 8) as u8;
    (((plane_bit(planes[0][at], bit, 0) | plane_bit(planes[1][at], bit, 1)) | plane_bit(planes[2][at], bit, 2))
        | plane_bit(planes[3][at], bit, 3))
}

/// Byte `k` of the packed screen: pixel `2k` in the high nibble, `2k + 1` in the low one.
pub open spec fn packed_byte(planes: Seq<Seq<u8>>, k: int) -> u8 {
    (pixel_colour(planes, 2 * k) << 4u8) | pixel_colour(planes, 2 * k + 1)
}

/// One 4-bit channel of a `0xGRB` palette word, scaled to eight bits.
pub open spec fn channel(colour: u16, shift: u16) -> u8 {
    (((colour >> shift) & 0x000f) * 0x11) as u8
}

/// RGBA byte `j` of the packed indices `ix` under `palette`.
pub open spec fn rgba_byte(ix: Seq<u8>, palette: Seq<u16>, j: int) -> u8 {
    let k = j / 8;
    let r = j % 8;
    let nibble = if r < 4 {
        ix[k] >> 4u8
    } else {
        ix[k] & 0x0f
    };
    let colour = palette[nibble as int];
    let ch = r % 4;
    if ch == 0 {
        channel(colour, 4)
    } else if ch == 1 {
        channel(colour, 8)
    } else if ch == 2 {
        channel(colour, 0)
    } else {
        255
    }
}

/// The RGBA image of packed indices.
pub open spec fn rgba_of(ix: Seq<u8>, palette: Seq<u16>) -> Seq<u8> {
    Seq::new(8 * ix.len(), |j: int| rgba_byte(ix, palette, j))
}

/// The image that a header decodes from its payload.
pub open spec fn image_of(h: Pdt34Header, planes: Seq<Seq<u8>>) -> (Seq<u8>, Seq<u8>) {
    let ix = Seq::new(128000, |k: int| packed_byte(planes, k));
    (ix, rgba_of(ix, h.palette@))
}

// ---------------------------------------------------------------- exec

fn validate_rect(rect: Pdt34Rect) -> (res: Result<(), PdtError>)
    ensures
        match res {
            Ok(()) => rect_error(rect) is None,
            Err(e) => rect_error(rect) == Some(e),
        },
{
    if rect.right < rect.left {
        return Err(PdtError::RightBeforeLeft);
    }
    if rect.bottom < rect.top {
        return Err(PdtError::BottomBeforeTop);
    }
    if rect.right >= 80 {
        return Err(PdtError::TooWide);
    }
    if rect.bottom >= 400 {
        return Err(PdtError::TooTall);
    }
    if rect.top % 2 != 0 || rect.bottom % 2 != 1 {
        return Err(PdtError::LineParity);
    }
    Ok(())
}

impl Pdt34Header {
    pub fn parse(bytes: &[u8]) -> (res: Result<Self, PdtError>)
        ensures
            match res {
                Ok(h) => header_error(bytes@) is None && header_is(h, bytes@),
                Err(e) => header_error(bytes@) == Some(e),
            },
    {
        if bytes.len() < PDT34_DATA_OFFSET {
            return Err(PdtError::TooShort);
        }
        if bytes[0] != 0x34 {
            return Err(PdtError::BadTag(bytes[0]));
        }
        let mut palette: [u16; 16] = [0u16; 16];
        let mut index: usize = 0;
        while index < 16
            invariant
                bytes@.len() >= 0x2b,
                bytes@[0] == 0x34,
                index <= 16,
                first_wide(bytes@, 0) == first_wide(bytes@, index as int),
                forall|j: int| 0 <= j < index ==> palette@[j] == palette_word(bytes@, j),
            decreases 16 - index,
        {
            let at = 1 + index * 2;
            let colour = bytes[at] as u16 + (bytes[at + 1] as u16) * 256;
            assert(colour == palette_word(bytes@, index as int));
            if colour > 0x0fff {
                assert(first_wide(bytes@, index as int) == index as int);
                assert(header_error(bytes@) == Some(PdtError::WidePaletteEntry(index)));
                return Err(PdtError::WidePaletteEntry(index));
            }
            palette[index] = colour;
            index = index + 1;
        }
        let rect = Pdt34Rect {
            left: bytes[0x23] as u16 + (bytes[0x24] as u16) * 256,
            top: bytes[0x25] as u16 + (bytes[0x26] as u16) * 256,
            right: bytes[0x27] as u16 + (bytes[0x28] as u16) * 256,
            bottom: bytes[0x29] as u16 + (bytes[0x2a] as u16) * 256,
        };
        validate_rect(rect)?;
        assert(palette@ =~= Seq::new(16, |i: int| palette_word(bytes@, i)));
        Ok(Pdt34Header { palette, marker_alternating: bytes[0x21], marker_solid: bytes[0x22], rect })
    }

    pub fn payload<'a>(&self, bytes: &'a [u8]) -> (res: Result<&'a [u8], PdtError>)
        ensures
            bytes@.len() < 0x2b ==> res == Err::<&[u8], PdtError>(PdtError::TruncatedPayload),
            bytes@.len() >= 0x2b ==> res is Ok && res.unwrap()@ == bytes@.subrange(0x2b, bytes@.len() as int),
    {
        if bytes.len() < PDT34_DATA_OFFSET {
            return Err(PdtError::TruncatedPayload);
        }
        Ok(vstd::slice::slice_subrange(bytes, PDT34_DATA_OFFSET, bytes.len()))
    }

    /// Returns the RGB 4-bit channels of a palette word.  PDT34 stores the
    /// PC-98 analog palette order `0xGRB`, which `UK2.EXE` writes to the
    /// hardware unchanged.
    pub fn palette_nibbles(&self, index: usize) -> (res: Option<[u8; 3]>)
        ensures
            index >= 16 ==> res is None,
            index < 16 ==> res is Some && res.unwrap()@ == seq![
                ((self.palette@[index as int] >> 4u16) & 0x000f) as u8,
                ((self.palette@[index as int] >> 8u16) & 0x000f) as u8,
                (self.palette@[index as int] & 0x000f) as u8,
            ],
    {
        if index >= 16 {
            return None;
        }
        let value = self.palette[index];
        let out: [u8; 3] = [((value >> 4) & 0x000f) as u8, ((value >> 8) & 0x000f) as u8, (value & 0x000f) as u8];
        assert(out@ =~= seq![
            ((self.palette@[index as int] >> 4u16) & 0x000f) as u8,
            ((self.palette@[index as int] >> 8u16) & 0x000f) as u8,
            (self.palette@[index as int] & 0x000f) as u8,
        ]);
        Some(out)
    }

    /// Decodes the four planes after the header and packs them into 4bpp
    /// indices and RGBA.
    pub fn decode_image(&self, bytes: &[u8]) -> (res: Result<Pdt34Image, PdtError>)
        requires
            rect_error(self.rect) is None,
        ensures
            bytes@.len() < 0x2b ==> res == Err::<Pdt34Image, PdtError>(PdtError::TruncatedPayload),
            bytes@.len() >= 0x2b ==> match planes_of(*self, bytes@.subrange(0x2b, bytes@.len() as int)) {
                Err(e) => res == Err::<Pdt34Image, PdtError>(e),
                Ok(planes) => res is Ok && {
                    let img = res.unwrap();
                    &&& img.width == 640
                    &&& img.height == 400
                    &&& (img.indexed@, img.rgba@) == image_of(*self, planes)
                },
            },
    {
        let payload = self.payload(bytes)?;
        let (p0, c1) = match decode_plane(self, payload, 0) {
            Ok(r) => r,
            Err(f) => return Err(PdtError::Plane(0, f)),
        };
        let (p1, c2) = match decode_plane(self, payload, c1) {
            Ok(r) => r,
            Err(f) => return Err(PdtError::Plane(1, f)),
        };
        let (p2, c3) = match decode_plane(self, payload, c2) {
            Ok(r) => r,
            Err(f) => return Err(PdtError::Plane(2, f)),
        };
        let (p3, _c4) = match decode_plane(self, payload, c3) {
            Ok(r) => r,
            Err(f) => return Err(PdtError::Plane(3, f)),
        };
        let ghost planes = seq![p0@, p1@, p2@, p3@];
        let mut indexed: Vec<u8> = Vec::new();
        let mut k: usize = 0;
        while k < INDEXED_BYTES
            invariant
                p0@.len() == 32000,
                p1@.len() == 32000,
                p2@.len() == 32000,
                p3@.len() == 32000,
                planes == seq![p0@, p1@, p2@, p3@],
                k <= 128000,
                indexed@.len() == k,
                forall|j: int| 0 <= j < k ==> #[trigger] indexed@[j] == packed_byte(planes, j),
            decreases 128000 - k,
        {
            let even = pixel_colour_at(&p0, &p1, &p2, &p3, 2 * k);
            let odd = pixel_colour_at(&p0, &p1, &p2, &p3, 2 * k + 1);
            indexed.push((even << 4) | odd);
            k = k + 1;
        }
        assert(indexed@ =~= Seq::new(128000, |k: int| packed_byte(planes, k)));
        let rgba = unpack_indexed_to_rgba(indexed.as_slice(), &self.palette);
        Ok(Pdt34Image { width: PDT34_WIDTH, height: PDT34_HEIGHT, indexed, rgba })
    }
}

/// The palette index of pixel `p` from the four planes.
fn pixel_colour_at(p0: &Vec<u8>, p1: &Vec<u8>, p2: &Vec<u8>, p3: &Vec<u8>, p: usize) -> (res: u8)
    requires
        p < 256000,
        p0@.len() == 32000,
        p1@.len() == 32000,
        p2@.len() == 32000,
        p3@.len() == 32000,
    ensures
        res == pixel_colour(seq![p0@, p1@, p2@, p3@], p as int),
{
    let y = p / 640;
    let xb = (p % 640) / 8;
    let at = y * 80 + xb;
    let bit = (p % 8) as u8;
    let c = (((((p0[at] >> (7 - bit)) & 1) << 0u8) | (((p1[at] >> (7 - bit)) & 1) << 1u8)) | (((p2[at] >> (7
        - bit)) & 1) << 2u8)) | (((p3[at] >> (7 - bit)) & 1) << 3u8);
    c
}

/// `sub_225BE`: decodes one plane's run stream from `cursor` onto a blank
/// plane; returns the plane and the cursor after its stream.
fn decode_plane(header: &Pdt34Header, input: &[u8], cursor: usize) -> (res: Result<(Vec<u8>, usize), PlaneFault>)
    requires
        rect_error(header.rect) is None,
    ensures
        match res {
            Ok((p, c)) => plane_at(*header, input@, cursor as int) == Ok::<(Seq<u8>, int), PlaneFault>((p@, c as int))
                && p@.len() == 32000,
            Err(f) => plane_at(*header, input@, cursor as int) == Err::<(Seq<u8>, int), PlaneFault>(f),
        },
{
    let width = (header.rect.right - header.rect.left) as usize + 1;
    let row_pairs = ((header.rect.bottom - header.rect.top) / 2) as usize + 1;
    let mut plane: Vec<u8> = vec![0u8; PLANE_BYTES];
    assert(plane@ =~= Seq::new(32000, |i: int| 0u8));
    let mut c = cursor;
    let mut column: usize = 0;
    while column < width
        invariant
            rect_error(header.rect) is None,
            width == rect_columns(header.rect),
            row_pairs == rect_row_pairs(header.rect),
            column <= width,
            plane@.len() == 32000,
            plane_at(*header, input@, cursor as int) == plane_from(*header, input@, c as int, column as int, 0, plane@),
        decreases width - column,
    {
        let x = header.rect.left as usize + column;
        let mut row_pair: usize = 0;
        while row_pair < row_pairs
            invariant
                rect_error(header.rect) is None,
                width == rect_columns(header.rect),
                row_pairs == rect_row_pairs(header.rect),
                column < width,
                x == header.rect.left + column,
                row_pair <= row_pairs,
                plane@.len() == 32000,
                plane_at(*header, input@, cursor as int) == plane_from(*header, input@, c as int, column as int, row_pair as int, plane@),
            decreases row_pairs - row_pair,
        {
            let (repeat, top, bottom, c2) = match read_run(header, input, c) {
                Some(r) => r,
                None => return Err(PlaneFault::Truncated),
            };
            if repeat == 0 || row_pair + repeat > row_pairs {
                return Err(PlaneFault::BadRun);
            }
            let first = header.rect.top as usize + row_pair * 2;
            paint_run(&mut plane, x, first, repeat, top, bottom);
            row_pair = row_pair + repeat;
            c = c2;
        }
        column = column + 1;
    }
    Ok((plane, c))
}

/// The run at `c`, as [`run_at`] reads it.
fn read_run(header: &Pdt34Header, input: &[u8], c: usize) -> (res: Option<(usize, u8, u8, usize)>)
    ensures
        match res {
            Some((rep, t, b, c2)) => run_at(*header, input@, c as int) == Some((rep as int, t, b, c2 as int)),
            None => run_at(*header, input@, c as int) is None,
        },
{
    let n = input.len();
    if c >= n {
        return None;
    }
    let marker = input[c];
    if marker == header.marker_alternating {
        if n - c <= 3 {
            return None;
        }
        Some((input[c + 1] as usize, input[c + 2], input[c + 3], c + 4))
    } else if marker == header.marker_solid {
        if n - c <= 2 {
            return None;
        }
        Some((input[c + 1] as usize, input[c + 2], input[c + 2], c + 3))
    } else {
        if n - c <= 1 {
            return None;
        }
        Some((1, marker, input[c + 1], c + 2))
    }
}

/// Writes a run of `rep` row pairs into byte column `x` from line `first` on.
fn paint_run(p: &mut Vec<u8>, x: usize, first: usize, rep: usize, t: u8, b: u8)
    requires
        old(p)@.len() == 32000,
        x < 80,
        first + 2 * rep <= 400,
    ensures
        final(p)@ == paint(old(p)@, x as int, first as int, 2 * rep, t, b),
{
    let mut k: usize = 0;
    assert(old(p)@ =~= paint(old(p)@, x as int, first as int, 0, t, b));
    while k < rep
        invariant
            p@.len() == 32000,
            x < 80,
            first + 2 * rep <= 400,
            k <= rep,
            p@ == paint(old(p)@, x as int, first as int, 2 * k, t, b),
        decreases rep - k,
    {
        let line = first + 2 * k;
        let ghost before = p@;
        p.set(line * 80 + x, t);
        p.set((line + 1) * 80 + x, b);
        proof {
            assert forall|i: int| 0 <= i < 32000 implies #[trigger] p@[i] == paint(old(p)@, x as int, first as int, 2 * (k + 1), t, b)[i] by {
                lemma_row_col(i, line as int, x as int);
                lemma_row_col(i, line + 1, x as int);
            }
            assert(p@ =~= paint(old(p)@, x as int, first as int, 2 * (k + 1), t, b));
        }
        k = k + 1;
    }
}

/// Index `i` is row `r`, column `c` of an 80-byte-wide plane exactly when
/// `i == r * 80 + c`.
proof fn lemma_row_col(i: int, r: int, c: int)
    requires
        0 <= i,
        0 <= c < 80,
        0 <= r,
    ensures
        (i == r * 80 + c) <==> (i / 80 == r && i % 80 == c),
{
    vstd::arithmetic::div_mod::lemma_fundamental_div_mod(i, 80);
    if i == r * 80 + c {
        vstd::arithmetic::div_mod::lemma_fundamental_div_mod_converse(i, 80, r, c);
    }
}

/// Expands packed 4bpp indices to RGBA through a `0xGRB` palette.
pub fn unpack_indexed_to_rgba(indexed: &[u8], palette: &[u16; 16]) -> (res: Vec<u8>)
    requires
        indexed@.len() <= 0x1000_0000,
    ensures
        res@ == rgba_of(indexed@, palette@),
{
    let mut rgba: Vec<u8> = Vec::new();
    let mut k: usize = 0;
    while k < indexed.len()
        invariant
            indexed@.len() <= 0x1000_0000,
            k <= indexed@.len(),
            rgba@.len() == 8 * k,
            forall|j: int| 0 <= j < 8 * k ==> #[trigger] rgba@[j] == rgba_byte(indexed@, palette@, j),
        decreases indexed@.len() - k,
    {
        let byte = indexed[k];
        let hi = byte >> 4;
        let lo = byte & 0x0f;
        assert(hi < 16 && lo < 16) by (bit_vector)
            requires
                hi == byte >> 4u8,
                lo == byte & 0x0f,
        ;
        let ghost before = rgba@;
        push_colour(&mut rgba, palette[hi as usize]);
        push_colour(&mut rgba, palette[lo as usize]);
        proof {
            assert forall|j: int| 0 <= j < 8 * (k + 1) implies #[trigger] rgba@[j] == rgba_byte(indexed@, palette@, j) by {
                if j >= 8 * k {
                    assert(j / 8 == k);
                    assert(j % 8 == j - 8 * k);
                } else {
                    assert(rgba@[j] == before[j]);
                }
            }
        }
        k = k + 1;
    }
    assert(rgba@ =~= rgba_of(indexed@, palette@));
    rgba
}

/// Appends the RGBA bytes of one palette word.
fn push_colour(rgba: &mut Vec<u8>, colour: u16)
    ensures
        final(rgba)@ == old(rgba)@ + seq![channel(colour, 4), channel(colour, 8), channel(colour, 0), 255u8],
{
    let r4 = (colour >> 4) & 0x000f;
    let g4 = (colour >> 8) & 0x000f;
    let b4 = colour & 0x000f;
    assert(r4 < 16 && g4 < 16 && b4 < 16) by (bit_vector)
        requires
            r4 == (colour >> 4u16) & 0x000f,
            g4 == (colour >> 8u16) & 0x000f,
            b4 == colour & 0x000f,
    ;
    let r = (r4 * 0x11) as u8;
    let g = (g4 * 0x11) as u8;
    let b = (b4 * 0x11) as u8;
    assert(r4 * 0x11 <= 255);
    assert(r == channel(colour, 4));
    assert(g == channel(colour, 8));
    assert((colour >> 0u16) & 0x000f == colour & 0x000f) by (bit_vector);
    assert(b == channel(colour, 0));
    rgba.push(r);
    rgba.push(g);
    rgba.push(b);
    rgba.push(255);
    assert(rgba@ =~= old(rgba)@ + seq![channel(colour, 4), channel(colour, 8), channel(colour, 0), 255u8]);
}

/// Parses a PDT34 file and decodes its image.
pub fn decode_pdt34(bytes: &[u8]) -> (res: Result<Pdt34Image, PdtError>)
    ensures
        header_error(bytes@) matches Some(e) ==> res == Err::<Pdt34Image, PdtError>(e),
        header_error(bytes@) is None ==> exists|h: Pdt34Header| {
            &&& header_is(h, bytes@)
            &&& match planes_of(h, bytes@.subrange(0x2b, bytes@.len() as int)) {
                Err(e) => res == Err::<Pdt34Image, PdtError>(e),
                Ok(planes) => res is Ok && {
                    let img = res.unwrap();
                    &&& img.width == 640
                    &&& img.height == 400
                    &&& (img.indexed@, img.rgba@) == image_of(h, planes)
                },
            }
        },
{
    let header = Pdt34Header::parse(bytes)?;
    header.decode_image(bytes)
}

// ---------------------------------------------------------------- sprites

/// The palette index of pixel `p` in packed indices.
pub open spec fn nibble(ix: Seq<u8>, p: int) -> u8 {
    if p % 2 == 0 {
        ix[p / 2] >> 4u8
    } else {
        ix[p / 2] & 0x0f
    }
}

/// Byte `ch` of the RGBA of pixel `p`.
pub open spec fn rgba_at(rgba: Seq<u8>, p: int, ch: int) -> u8 {
    rgba[4 * p + ch]
}

/// A 640x400 image whose buffers have the matching sizes.
pub open spec fn full_screen(img: Pdt34Image) -> bool {
    img.width == 640 && img.height == 400 && img.indexed@.len() == 128000 && img.rgba@.len() == 1024000
}

/// An image that is 640x400 has buffers of that size.
pub open spec fn sized(img: Pdt34Image) -> bool {
    img.width == 640 && img.height == 400 ==> img.indexed@.len() == 128000 && img.rgba@.len() == 1024000
}

/// Where a sprite lands: source left and top, target left and top, and the
/// target's right and bottom limits (exclusive), in pixels.
pub open spec fn sprite_box(r: Pdt34Rect, x: u16, y: u16) -> (int, int, int, int, int, int) {
    let width = (r.right - r.left + 1) * 8;
    let height = r.bottom - r.top + 1;
    let sx = r.left * 8;
    let sy = r.top as int;
    let tx = if x == 1000 {
        sx
    } else {
        x * 8
    };
    let ty = if y == 1000 {
        sy
    } else {
        y as int
    };
    let mx = if tx + width < 640 {
        tx + width
    } else {
        640
    };
    let my = if ty + height < 400 {
        ty + height
    } else {
        400
    };
    (sx, sy, tx, ty, mx, my)
}

/// Pixel `d` of the target lies in the sprite's box.
pub open spec fn covered(r: Pdt34Rect, x: u16, y: u16, d: int) -> bool {
    let (sx, sy, tx, ty, mx, my) = sprite_box(r, x, y);
    ty <= d / 640 < my && tx <= d % 640 < mx
}

/// The source pixel shown at target pixel `d`.
pub open spec fn source_of(r: Pdt34Rect, x: u16, y: u16, d: int) -> int {
    let (sx, sy, tx, ty, mx, my) = sprite_box(r, x, y);
    (sy + d / 640 - ty) * 640 + (sx + d % 640 - tx)
}

/// Target pixel `d` takes the sprite's pixel: it is covered and not transparent.
pub open spec fn drawn(src: Seq<u8>, r: Pdt34Rect, x: u16, y: u16, d: int) -> bool {
    covered(r, x, y, d) && nibble(src, source_of(r, x, y, d)) != 0
}

/// Pixel `d` comes before column `dx` of row `dy`.
pub open spec fn before(d: int, dy: int, dx: int) -> bool {
    d / 640 < dy || (d / 640 == dy && d % 640 < dx)
}

/// The target after the sprite pixels before row `dy`, column `dx` were drawn.
pub open spec fn composited(
    old_ix: Seq<u8>,
    old_rgba: Seq<u8>,
    ix: Seq<u8>,
    rgba: Seq<u8>,
    src: Pdt34Image,
    r: Pdt34Rect,
    x: u16,
    y: u16,
    dy: int,
    dx: int,
) -> bool {
    &&& ix.len() == 128000
    &&& rgba.len() == 1024000
    &&& forall|d: int|
        0 <= d < 256000 ==> #[trigger] nibble(ix, d) == if drawn(src.indexed@, r, x, y, d) && before(d, dy, dx) {
            nibble(src.indexed@, source_of(r, x, y, d))
        } else {
            nibble(old_ix, d)
        }
    &&& forall|d: int, ch: int|
        0 <= d < 256000 && 0 <= ch < 4 ==> #[trigger] rgba_at(rgba, d, ch) == if drawn(src.indexed@, r, x, y, d)
            && before(d, dy, dx) {
            rgba_at(src.rgba@, source_of(r, x, y, d), ch)
        } else {
            rgba_at(old_rgba, d, ch)
        }
}

pub(crate) proof fn lemma_set_high(b: u8, v: u8)
    requires
        v < 16,
    ensures
        ((b & 0x0f) | (v << 4u8)) >> 4u8 == v,
        ((b & 0x0f) | (v << 4u8)) & 0x0f == b & 0x0f,
{
    assert(((b & 0x0f) | (v << 4u8)) >> 4u8 == v) by (bit_vector)
        requires
            v < 16,
    ;
    assert(((b & 0x0f) | (v << 4u8)) & 0x0f == b & 0x0f) by (bit_vector)
        requires
            v < 16,
    ;
}

pub(crate) proof fn lemma_set_low(b: u8, v: u8)
    requires
        v < 16,
    ensures
        ((b & 0xf0) | v) >> 4u8 == b >> 4u8,
        ((b & 0xf0) | v) & 0x0f == v,
{
    assert(((b & 0xf0) | v) >> 4u8 == b >> 4u8) by (bit_vector)
        requires
            v < 16,
    ;
    assert(((b & 0xf0) | v) & 0x0f == v) by (bit_vector)
        requires
            v < 16,
    ;
}

/// Draws source pixel `s` at target pixel `d` unless it is transparent.
fn draw_pixel(dest: &mut Pdt34Image, source: &Pdt34Image, d: usize, s: usize)
    requires
        full_screen(*old(dest)),
        full_screen(*source),
        d < 256000,
        s < 256000,
    ensures
        final(dest).width == old(dest).width,
        final(dest).height == old(dest).height,
        final(dest).indexed@.len() == 128000,
        final(dest).rgba@.len() == 1024000,
        forall|e: int|
            0 <= e < 256000 ==> #[trigger] nibble(final(dest).indexed@, e) == if e == d && nibble(source.indexed@, s as int)
                != 0 {
                nibble(source.indexed@, s as int)
            } else {
                nibble(old(dest).indexed@, e)
            },
        forall|e: int, ch: int|
            0 <= e < 256000 && 0 <= ch < 4 ==> #[trigger] rgba_at(final(dest).rgba@, e, ch) == if e == d && nibble(
                source.indexed@,
                s as int,
            ) != 0 {
                rgba_at(source.rgba@, s as int, ch)
            } else {
                rgba_at(old(dest).rgba@, e, ch)
            },
{
    let packed = source.indexed[s / 2];
    let index = if s % 2 == 0 {
        packed >> 4
    } else {
        packed & 0x0f
    };
    if index == 0 {
        return;
    }
    assert(index < 16) by (bit_vector)
        requires
            index == packed >> 4u8 || index == packed & 0x0f,
    ;
    let ghost old_rgba = dest.rgba@;
    let mut ch: usize = 0;
    while ch < 4
        invariant
            dest.rgba@.len() == 1024000,
            dest.indexed@ == old(dest).indexed@,
            dest.width == old(dest).width,
            dest.height == old(dest).height,
            full_screen(*old(dest)),
            full_screen(*source),
            d < 256000,
            s < 256000,
            source.rgba@.len() == 1024000,
            ch <= 4,
            forall|j: int|
                0 <= j < 1024000 ==> #[trigger] dest.rgba@[j] == if 4 * d <= j < 4 * d + ch {
                    source.rgba@[4 * s + (j - 4 * d)]
                } else {
                    old_rgba[j]
                },
        decreases 4 - ch,
    {
        let v = source.rgba[4 * s + ch];
        dest.rgba.set(4 * d + ch, v);
        ch = ch + 1;
    }
    let old_byte = dest.indexed[d / 2];
    let new_byte = if d % 2 == 0 {
        proof {
            lemma_set_high(old_byte, index);
        }
        (old_byte & 0x0f) | (index << 4)
    } else {
        proof {
            lemma_set_low(old_byte, index);
        }
        (old_byte & 0xf0) | index
    };
    let ghost old_ix = dest.indexed@;
    dest.indexed.set(d / 2, new_byte);
    proof {
        assert forall|e: int| 0 <= e < 256000 implies #[trigger] nibble(dest.indexed@, e) == if e == d && nibble(
            source.indexed@,
            s as int,
        ) != 0 {
            nibble(source.indexed@, s as int)
        } else {
            nibble(old_ix, e)
        } by {
            if e / 2 != d / 2 {
                assert(dest.indexed@[e / 2] == old_ix[e / 2]);
            }
        }
        assert forall|e: int, c: int| 0 <= e < 256000 && 0 <= c < 4 implies #[trigger] rgba_at(dest.rgba@, e, c) == if e
            == d && nibble(source.indexed@, s as int) != 0 {
            rgba_at(source.rgba@, s as int, c)
        } else {
            rgba_at(old_rgba, e, c)
        } by {
            assert(dest.rgba@[4 * e + c] == dest.rgba@[4 * e + c]);
        }
    }
}

/// Composites a PDT34 source rectangle as a transparent sprite. UK2's
/// renderer stores the rectangle's horizontal coordinates in 8-pixel byte
/// columns; `1000` preserves the source rectangle coordinate on that axis.
pub fn composite_pdt34_sprite(destination: &mut Pdt34Image, source: &Pdt34Image, rect: Pdt34Rect, x: u16, y: u16) -> (res:
    Result<(), PdtError>)
    requires
        sized(*old(destination)),
        sized(*source),
    ensures
        rect_error(rect) matches Some(e) ==> res == Err::<(), PdtError>(e) && *final(destination) == *old(destination),
        rect_error(rect) is None && !(full_screen(*old(destination)) && full_screen(*source)) ==> res == Err::<
            (),
            PdtError,
        >(PdtError::NotFullScreen) && *final(destination) == *old(destination),
        rect_error(rect) is None && full_screen(*old(destination)) && full_screen(*source) ==> {
            &&& res is Ok
            &&& final(destination).width == 640
            &&& final(destination).height == 400
            &&& composited(
                old(destination).indexed@,
                old(destination).rgba@,
                final(destination).indexed@,
                final(destination).rgba@,
                *source,
                rect,
                x,
                y,
                400,
                0,
            )
        },
{
    validate_rect(rect)?;
    if destination.width != PDT34_WIDTH || destination.height != PDT34_HEIGHT || source.width != PDT34_WIDTH
        || source.height != PDT34_HEIGHT {
        return Err(PdtError::NotFullScreen);
    }
    let width = ((rect.right - rect.left) as usize + 1) * 8;
    let height = (rect.bottom - rect.top) as usize + 1;
    let source_x = rect.left as usize * 8;
    let source_y = rect.top as usize;
    let target_x = if x == 1000 {
        source_x
    } else {
        x as usize * 8
    };
    let target_y = if y == 1000 {
        source_y
    } else {
        y as usize
    };
    let max_x = if target_x + width < 640 {
        target_x + width
    } else {
        640
    };
    let max_y = if target_y + height < 400 {
        target_y + height
    } else {
        400
    };
    let ghost old_ix = destination.indexed@;
    let ghost old_rgba = destination.rgba@;
    let ghost bx = sprite_box(rect, x, y);
    assert(bx == (source_x as int, source_y as int, target_x as int, target_y as int, max_x as int, max_y as int));
    let mut dst_y = if target_y < max_y {
        target_y
    } else {
        max_y
    };
    proof {
        assert forall|d: int| 0 <= d < 256000 implies #[trigger] nibble(destination.indexed@, d) == if drawn(source.indexed@, rect, x, y, d)
            && before(d, dst_y as int, target_x as int) {
            nibble(source.indexed@, source_of(rect, x, y, d))
        } else {
            nibble(old_ix, d)
        } by {}
        assert forall|d: int, ch: int| 0 <= d < 256000 && 0 <= ch < 4 implies #[trigger] rgba_at(destination.rgba@, d, ch)
            == if drawn(source.indexed@, rect, x, y, d) && before(d, dst_y as int, target_x as int) {
            rgba_at(source.rgba@, source_of(rect, x, y, d), ch)
        } else {
            rgba_at(old_rgba, d, ch)
        } by {}
    }
    while dst_y < max_y
        invariant
            full_screen(*destination),
            full_screen(*source),
            rect_error(rect) is None,
            bx == sprite_box(rect, x, y),
            bx == (source_x as int, source_y as int, target_x as int, target_y as int, max_x as int, max_y as int),
            target_y <= dst_y <= max_y || dst_y == max_y,
            max_y <= 400,
            max_x <= 640,
            source_x + width == (rect.right + 1) * 8,
            source_y + height == rect.bottom + 1,
            max_x <= target_x + width,
            max_y <= target_y + height,
            composited(old_ix, old_rgba, destination.indexed@, destination.rgba@, *source, rect, x, y, dst_y as int, target_x as int),
        decreases max_y - dst_y,
    {
        let src_y = source_y + dst_y - target_y;
        let mut dst_x = if target_x < max_x {
            target_x
        } else {
            max_x
        };
        while dst_x < max_x
            invariant
                full_screen(*destination),
                full_screen(*source),
                rect_error(rect) is None,
                bx == sprite_box(rect, x, y),
                bx == (source_x as int, source_y as int, target_x as int, target_y as int, max_x as int, max_y as int),
                target_y <= dst_y < max_y,
                target_x <= dst_x <= max_x || dst_x == max_x,
                src_y == source_y + dst_y - target_y,
                max_y <= 400,
                max_x <= 640,
                source_x + width == (rect.right + 1) * 8,
                source_y + height == rect.bottom + 1,
                max_x <= target_x + width,
                max_y <= target_y + height,
                composited(old_ix, old_rgba, destination.indexed@, destination.rgba@, *source, rect, x, y, dst_y as int, dst_x as int),
            decreases max_x - dst_x,
        {
            let src_x = source_x + dst_x - target_x;
            let d = dst_y * 640 + dst_x;
            let s = src_y * 640 + src_x;
            let ghost ix0 = destination.indexed@;
            let ghost rgba0 = destination.rgba@;
            draw_pixel(destination, source, d, s);
            proof {
                lemma_row_col_640(d as int, dst_y as int, dst_x as int);
                assert forall|e: int| 0 <= e < 256000 implies #[trigger] nibble(destination.indexed@, e) == if drawn(source.indexed@, rect, x, y, e)
                    && before(e, dst_y as int, dst_x + 1) {
                    nibble(source.indexed@, source_of(rect, x, y, e))
                } else {
                    nibble(old_ix, e)
                } by {
                    lemma_row_col_640(e, dst_y as int, dst_x as int);
                    assert(nibble(ix0, e) == nibble(ix0, e));
                }
                assert forall|e: int, ch: int| 0 <= e < 256000 && 0 <= ch < 4 implies #[trigger] rgba_at(destination.rgba@, e, ch)
                    == if drawn(source.indexed@, rect, x, y, e) && before(e, dst_y as int, dst_x + 1) {
                    rgba_at(source.rgba@, source_of(rect, x, y, e), ch)
                } else {
                    rgba_at(old_rgba, e, ch)
                } by {
                    lemma_row_col_640(e, dst_y as int, dst_x as int);
                    assert(rgba_at(rgba0, e, ch) == rgba_at(rgba0, e, ch));
                }
            }
            dst_x = dst_x + 1;
        }
        proof {
            assert forall|e: int| 0 <= e < 256000 implies #[trigger] nibble(destination.indexed@, e) == if drawn(source.indexed@, rect, x, y, e)
                && before(e, dst_y + 1, target_x as int) {
                nibble(source.indexed@, source_of(rect, x, y, e))
            } else {
                nibble(old_ix, e)
            } by {}
            assert forall|e: int, ch: int| 0 <= e < 256000 && 0 <= ch < 4 implies #[trigger] rgba_at(destination.rgba@, e, ch)
                == if drawn(source.indexed@, rect, x, y, e) && before(e, dst_y + 1, target_x as int) {
                rgba_at(source.rgba@, source_of(rect, x, y, e), ch)
            } else {
                rgba_at(old_rgba, e, ch)
            } by {}
        }
        dst_y = dst_y + 1;
    }
    proof {
        assert forall|e: int| 0 <= e < 256000 implies #[trigger] nibble(destination.indexed@, e) == if drawn(source.indexed@, rect, x, y, e)
            && before(e, 400, 0) {
            nibble(source.indexed@, source_of(rect, x, y, e))
        } else {
            nibble(old_ix, e)
        } by {}
        assert forall|e: int, ch: int| 0 <= e < 256000 && 0 <= ch < 4 implies #[trigger] rgba_at(destination.rgba@, e, ch)
            == if drawn(source.indexed@, rect, x, y, e) && before(e, 400, 0) {
            rgba_at(source.rgba@, source_of(rect, x, y, e), ch)
        } else {
            rgba_at(old_rgba, e, ch)
        } by {}
    }
    Ok(())
}

/// Pixel `i` is row `r`, column `c` of a 640-pixel-wide screen exactly when
/// `i == r * 640 + c`.
proof fn lemma_row_col_640(i: int, r: int, c: int)
    requires
        0 <= i,
        0 <= c < 640,
        0 <= r,
    ensures
        (i == r * 640 + c) <==> (i / 640 == r && i % 640 == c),
{
    vstd::arithmetic::div_mod::lemma_fundamental_div_mod(i, 640);
    if i == r * 640 + c {
        vstd::arithmetic::div_mod::lemma_fundamental_div_mod_converse(i, 640, r, c);
    }
}

} // verus!
