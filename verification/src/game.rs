//! UK2 game-directory logic: resource names, music candidates, the file and
//! archive index of a game directory, and MAP previews.
use vstd::prelude::*;

use crate::config::Uk2Config;
use crate::dlb::{DlbArchive, DlbError};
use crate::music::Uk2MusicKind;
use crate::map::Uk2MapLayout;
use crate::pdt::{full_screen, header_error, header_is, image_of, nibble, planes_of, rect_error, Pdt34Header, Pdt34Image, Pdt34Rect, PdtError};
use crate::sjis::{chars_of, decode_shift_jis, eq_ignore_ascii_case, eq_ignore_case, shift_jis_text, string_from_chars};

verus! {

/// The extension that `std::path::Path::extension` finds in a path.
pub uninterp spec fn path_extension(path: Seq<char>) -> Option<Seq<char>>;

/// The path that `std::path::PathBuf::set_extension` makes of `path` with `ext`.
pub uninterp spec fn path_with_extension(path: Seq<char>, ext: Seq<char>) -> Seq<char>;

/// Whether `std::path::is_separator` takes a character for a path separator
/// of the target.
pub uninterp spec fn path_separator(c: char) -> bool;

/// No character of `s` is a path separator.
pub open spec fn no_separator(s: Seq<char>) -> bool {
    forall|i: int| 0 <= i < s.len() ==> !path_separator(#[trigger] s[i])
}

/// `std::path::is_separator`; the answer is named by [`path_separator`].
#[verifier::external_body]
fn is_path_separator(c: char) -> (res: bool)
    ensures
        res == path_separator(c),
{
    std::path::is_separator(c)
}

/// Whether some character of `s` is a path separator.
pub fn has_separator(s: &str) -> (res: bool)
    ensures
        res == !no_separator(s@),
{
    let n = s.unicode_len();
    let mut i: usize = 0;
    while i < n
        invariant
            n == s@.len(),
            i <= n,
            forall|j: int| 0 <= j < i ==> !path_separator(#[trigger] s@[j]),
        decreases n - i,
    {
        if is_path_separator(s.get_char(i)) {
            return true;
        }
        i = i + 1;
    }
    false
}

/// A name that is one file name: not empty, not `.` or `..`, with no path
/// separator and no `:` (which could start a drive prefix).
pub open spec fn plain_name(name: Seq<char>) -> bool {
    &&& no_separator(name)
    &&& !name.contains(':')
    &&& name.len() > 0
    &&& name != seq!['.']
    &&& name != seq!['.', '.']
}

/// The index of the last `.` before index `i`, or -1.
pub open spec fn last_dot(name: Seq<char>, i: int) -> int
    decreases i,
{
    if i <= 0 {
        -1
    } else if name[i - 1] == '.' {
        i - 1
    } else {
        last_dot(name, i - 1)
    }
}

/// The extension of a plain file name: the text after its last `.`, where
/// that `.` is not its first character.
pub open spec fn plain_extension(name: Seq<char>) -> Option<Seq<char>> {
    let k = last_dot(name, name.len() as int);
    if k <= 0 {
        None
    } else {
        Some(name.skip(k + 1))
    }
}

/// A plain file name without its extension and the dot before it.
pub open spec fn plain_stem(name: Seq<char>) -> Seq<char> {
    match plain_extension(name) {
        Some(e) => name.take(name.len() - e.len() - 1),
        None => name,
    }
}

/// `Path::extension` of a UTF-8 path, as text.  The result is named by
/// [`path_extension`]; the standard library defines it as the part of the
/// file name (the final component, which separators delimit) after its last
/// `.`, so it holds no separator.  For a plain file name the documentation
/// gives it exactly: none where the name has no `.` but a leading one, else
/// the text after the last `.`.
#[verifier::external_body]
fn file_extension(name: &str) -> (res: Option<String>)
    ensures
        match res {
            Some(e) => path_extension(name@) == Some(e@) && no_separator(e@),
            None => path_extension(name@) is None,
        },
        plain_name(name@) ==> match res {
            Some(e) => plain_extension(name@) == Some(e@),
            None => plain_extension(name@) is None,
        },
{
    match std::path::Path::new(name).extension() {
        Some(ext) => match ext.to_str() {
            Some(text) => Some(text.to_owned()),
            None => None,
        },
        None => None,
    }
}

/// `PathBuf::set_extension` on a UTF-8 path, read back as text.  The result
/// is named by [`path_with_extension`]; nothing more is stated of it.  The
/// call panics on an extension that holds a path separator, so none may.
/// For a plain file name the documentation gives the result: the name
/// without its extension, then `.` and `ext` unless `ext` is empty.
#[verifier::external_body]
fn with_extension(name: &str, ext: &str) -> (res: String)
    requires
        no_separator(ext@),
    ensures
        res@ == path_with_extension(name@, ext@),
        plain_name(name@) ==> res@ == plain_stem(name@) + (if ext@.len() == 0 {
            Seq::<char>::empty()
        } else {
            seq!['.'] + ext@
        }),
{
    let mut path = std::path::PathBuf::from(name);
    path.set_extension(ext);
    path.to_string_lossy().into_owned()
}

/// The file name behind an engine name: a virtual extension ending in `1`
/// (`start.mes1`) loses that `1`.
pub open spec fn real_name(name: Seq<char>) -> Seq<char> {
    match path_extension(name) {
        Some(e) => if e.len() > 1 && e.last() == '1' {
            path_with_extension(name, e.drop_last())
        } else {
            name
        },
        None => name,
    }
}

/// The real extension behind a virtual one: an extension of more than one
/// character ending in `1` loses that `1`; any other has none.
pub fn virtual_extension_stem(ext: &str) -> (res: Option<String>)
    ensures
        match res {
            Some(stem) => ext@.len() > 1 && ext@.last() == '1' && stem@ == ext@.drop_last(),
            None => !(ext@.len() > 1 && ext@.last() == '1'),
        },
{
    let n = ext.unicode_len();
    if n > 1 && ext.get_char(n - 1) == '1' {
        let stem = ext.substring_char(0, n - 1);
        assert(stem@ =~= ext@.drop_last());
        Some(stem.to_owned())
    } else {
        None
    }
}

pub fn map_virtual_extension(name: &str) -> (res: String)
    ensures
        res@ == real_name(name@),
{
    match file_extension(name) {
        Some(ext) => match virtual_extension_stem(ext.as_str()) {
            Some(stem) => {
                assert(no_separator(stem@)) by {
                    assert forall|i: int| 0 <= i < stem@.len() implies !path_separator(#[trigger] stem@[i]) by {
                        assert(stem@[i] == ext@[i]);
                    }
                }
                with_extension(name, stem.as_str())
            },
            None => name.to_owned(),
        },
        None => name.to_owned(),
    }
}

/// Two engine names that name the same file, up to ASCII case.
pub fn same_resource(a: &str, b: &str) -> (res: bool)
    ensures
        res == eq_ignore_case(real_name(a@), real_name(b@)),
{
    let x = map_virtual_extension(a);
    let y = map_virtual_extension(b);
    eq_ignore_ascii_case(x.as_str(), y.as_str())
}

/// The music files to try for an `M0` name, in order, each with its driver.
pub open spec fn music_candidates(midi_ext: Seq<char>, fm_ext: Seq<char>, name: Seq<char>) -> Seq<(Seq<char>, Uk2MusicKind)> {
    let normalized = real_name(name);
    let ext = match path_extension(normalized) {
        Some(e) => e,
        None => Seq::empty(),
    };
    if eq_ignore_case(ext, seq!['m', 'm', 'd']) || eq_ignore_case(ext, midi_ext) {
        seq![(normalized, Uk2MusicKind::Mmd)]
    } else if eq_ignore_case(ext, seq!['m', 'm', 'm']) || eq_ignore_case(ext, fm_ext) {
        seq![(normalized, Uk2MusicKind::Mmm)]
    } else {
        seq![
            (path_with_extension(normalized, fm_ext), Uk2MusicKind::Mmm),
            (path_with_extension(normalized, midi_ext), Uk2MusicKind::Mmd),
        ]
    }
}

/// Whether an `M0` name has no explicit music extension, so that both
/// configured extensions are put on it.
pub open spec fn music_fallback(midi_ext: Seq<char>, fm_ext: Seq<char>, name: Seq<char>) -> bool {
    let ext = match path_extension(real_name(name)) {
        Some(e) => e,
        None => Seq::empty(),
    };
    !(eq_ignore_case(ext, seq!['m', 'm', 'd']) || eq_ignore_case(ext, midi_ext)) && !(eq_ignore_case(ext, seq!['m', 'm', 'm'])
        || eq_ignore_case(ext, fm_ext))
}

/// The music candidates of [`configured_music_candidates`], or `None` where
/// that call would put an extension holding a path separator on the name.
pub fn checked_music_candidates(config: &Uk2Config, engine_name: &str) -> (res: Option<Vec<(String, Uk2MusicKind)>>)
    ensures
        match res {
            Some(v) => v@.map_values(|c: (String, Uk2MusicKind)| (c.0@, c.1)) == music_candidates(
                config.midi_ext@,
                config.fm_ext@,
                engine_name@,
            ),
            None => music_fallback(config.midi_ext@, config.fm_ext@, engine_name@) && !(no_separator(config.fm_ext@)
                && no_separator(config.midi_ext@)),
        },
{
    let normalized = map_virtual_extension(engine_name);
    let extension = match file_extension(normalized.as_str()) {
        Some(e) => e,
        None => String::new(),
    };
    let mmd = "mmd";
    let mmm = "mmm";
    proof {
        reveal_strlit("mmd");
        reveal_strlit("mmm");
        assert(mmd@ =~= seq!['m', 'm', 'd']);
        assert(mmm@ =~= seq!['m', 'm', 'm']);
    }
    let explicit = eq_ignore_ascii_case(extension.as_str(), mmd) || eq_ignore_ascii_case(
        extension.as_str(),
        config.midi_ext.as_str(),
    ) || eq_ignore_ascii_case(extension.as_str(), mmm) || eq_ignore_ascii_case(extension.as_str(), config.fm_ext.as_str());
    if !explicit && (has_separator(config.fm_ext.as_str()) || has_separator(config.midi_ext.as_str())) {
        return None;
    }
    Some(configured_music_candidates(config, engine_name))
}

/// Loads an M0 resource using the media extensions selected by UK2.CFG.
/// An explicit MMD/MMM extension wins; extensionless names try configured
/// FM first, then MIDI, matching the reference configuration's priority.
pub fn configured_music_candidates(config: &Uk2Config, engine_name: &str) -> (res: Vec<(String, Uk2MusicKind)>)
    requires
        music_fallback(config.midi_ext@, config.fm_ext@, engine_name@) ==> no_separator(config.fm_ext@) && no_separator(
            config.midi_ext@,
        ),
    ensures
        res@.map_values(|c: (String, Uk2MusicKind)| (c.0@, c.1)) == music_candidates(
            config.midi_ext@,
            config.fm_ext@,
            engine_name@,
        ),
{
    let normalized = map_virtual_extension(engine_name);
    let extension = match file_extension(normalized.as_str()) {
        Some(e) => e,
        None => String::new(),
    };
    let mmd = "mmd";
    let mmm = "mmm";
    proof {
        reveal_strlit("mmd");
        reveal_strlit("mmm");
    }
    let explicit_mmd = eq_ignore_ascii_case(extension.as_str(), mmd) || eq_ignore_ascii_case(
        extension.as_str(),
        config.midi_ext.as_str(),
    );
    let explicit_mmm = eq_ignore_ascii_case(extension.as_str(), mmm) || eq_ignore_ascii_case(
        extension.as_str(),
        config.fm_ext.as_str(),
    );
    let mut out: Vec<(String, Uk2MusicKind)> = Vec::new();
    if explicit_mmd {
        out.push((normalized, Uk2MusicKind::Mmd));
    } else if explicit_mmm {
        out.push((normalized, Uk2MusicKind::Mmm));
    } else {
        let fm = with_extension(normalized.as_str(), config.fm_ext.as_str());
        let midi = with_extension(normalized.as_str(), config.midi_ext.as_str());
        out.push((fm, Uk2MusicKind::Mmm));
        out.push((midi, Uk2MusicKind::Mmd));
    }
    proof {
        assert(mmd@ =~= seq!['m', 'm', 'd']);
        assert(mmm@ =~= seq!['m', 'm', 'm']);
        assert(out@.map_values(|c: (String, Uk2MusicKind)| (c.0@, c.1)) =~= music_candidates(
            config.midi_ext@,
            config.fm_ext@,
            engine_name@,
        ));
    }
    out
}

/// A black 640x400 image.
pub fn blank_pdt34() -> (res: Pdt34Image)
    ensures
        full_screen(res),
        forall|i: int| 0 <= i < 128000 ==> #[trigger] res.indexed@[i] == 0,
        forall|i: int| 0 <= i < 1024000 ==> #[trigger] res.rgba@[i] == 0,
{
    Pdt34Image { width: 640, height: 400, indexed: vec![0u8; 128000], rgba: vec![0u8; 1024000] }
}

/// Colour byte `c` of `dst` blended under `src` with `src`'s alpha.
pub open spec fn blend(d: u8, s: u8, alpha: u8) -> u8 {
    ((d * (255 - alpha) + s * alpha) / 255) as u8
}

/// What `alpha_blend_rgba` leaves in byte `i` of `dst`.
pub open spec fn blended(dst: Seq<u8>, src: Seq<u8>, i: int) -> u8 {
    let px = i / 4;
    if px < dst.len() / 4 && px < src.len() / 4 {
        if i % 4 == 3 {
            255
        } else {
            blend(dst[i], src[i], src[4 * px + 3])
        }
    } else {
        dst[i]
    }
}

/// Blends RGBA `src` over `dst` pixel by pixel (as far as both reach);
/// the result is opaque.
pub fn alpha_blend_rgba(dst: &mut Vec<u8>, src: &[u8])
    ensures
        final(dst)@.len() == old(dst)@.len(),
        forall|i: int| 0 <= i < old(dst)@.len() ==> #[trigger] final(dst)@[i] == blended(old(dst)@, src@, i),
{
    let n = if dst.len() / 4 < src.len() / 4 {
        dst.len() / 4
    } else {
        src.len() / 4
    };
    let ghost d0 = dst@;
    let _slen = src.len();
    let mut px: usize = 0;
    while px < n
        invariant
            src@.len() <= usize::MAX,
            n <= d0.len() / 4,
            n <= src@.len() / 4,
            n == if d0.len() / 4 < src@.len() / 4 { d0.len() / 4 } else { src@.len() / 4 },
            px <= n,
            dst@.len() == d0.len(),
            forall|i: int| 0 <= i < d0.len() ==> #[trigger] dst@[i] == if i / 4 < px {
                blended(d0, src@, i)
            } else {
                d0[i]
            },
        decreases n - px,
    {
        let alpha = src[4 * px + 3] as u16;
        let inv = 255 - alpha;
        let mut c: usize = 0;
        while c < 3
            invariant
                src@.len() <= usize::MAX,
                px < n,
                n <= d0.len() / 4,
                n <= src@.len() / 4,
                alpha == src@[4 * px + 3],
                inv == 255 - alpha,
                c <= 3,
                dst@.len() == d0.len(),
                forall|i: int| 0 <= i < d0.len() ==> #[trigger] dst@[i] == if i / 4 < px || (i / 4 == px && i % 4 < c) {
                    blended(d0, src@, i)
                } else {
                    d0[i]
                },
            decreases 3 - c,
        {
            let at = 4 * px + c;
            let d = dst[at] as u16;
            let s = src[at] as u16;
            assert(d * inv + s * alpha <= 255 * 255) by (nonlinear_arith)
                requires
                    d <= 255,
                    s <= 255,
                    alpha <= 255,
                    inv == 255 - alpha,
            ;
            let v = ((d * inv + s * alpha) / 255) as u8;
            dst.set(at, v);
            c = c + 1;
        }
        dst.set(4 * px + 3, 255);
        px = px + 1;
    }
}

/// Lays a decoded MAP overlay over its base: the overlay's non-zero indices
/// replace the base's, its index-0 pixels become transparent, and its RGBA
/// is blended over the base's.
pub fn compose_preview(base: &mut Pdt34Image, overlay: &mut Pdt34Image)
    requires
        full_screen(*old(base)),
        full_screen(*old(overlay)),
    ensures
        full_screen(*final(base)),
        full_screen(*final(overlay)),
        final(overlay).indexed@ == old(overlay).indexed@,
        forall|p: int| 0 <= p < 256000 ==> #[trigger] nibble(final(base).indexed@, p) == if nibble(old(overlay).indexed@, p) == 0 {
            nibble(old(base).indexed@, p)
        } else {
            nibble(old(overlay).indexed@, p)
        },
        forall|i: int| 0 <= i < 1024000 ==> #[trigger] final(overlay).rgba@[i] == if i % 4 == 3 && nibble(old(overlay).indexed@, i / 4) == 0 {
            0
        } else {
            old(overlay).rgba@[i]
        },
        forall|i: int| 0 <= i < 1024000 ==> #[trigger] final(base).rgba@[i] == blended(old(base).rgba@, final(overlay).rgba@, i),
{
    let ghost ix0 = base.indexed@;
    let ghost ov0 = overlay.rgba@;
    let mut p: usize = 0;
    while p < 256000
        invariant
            full_screen(*base),
            full_screen(*overlay),
            overlay.indexed@ == old(overlay).indexed@,
            base.rgba@ == old(base).rgba@,
            ix0 == old(base).indexed@,
            ov0 == old(overlay).rgba@,
            p <= 256000,
            forall|q: int| 0 <= q < 256000 ==> #[trigger] nibble(base.indexed@, q) == if q < p && nibble(overlay.indexed@, q) != 0 {
                nibble(overlay.indexed@, q)
            } else {
                nibble(ix0, q)
            },
            forall|i: int| 0 <= i < 1024000 ==> #[trigger] overlay.rgba@[i] == if i / 4 < p && i % 4 == 3 && nibble(overlay.indexed@, i / 4) == 0 {
                0
            } else {
                ov0[i]
            },
        decreases 256000 - p,
    {
        let packed = overlay.indexed[p / 2];
        let colour = if p % 2 == 0 {
            packed >> 4
        } else {
            packed & 0x0f
        };
        if colour == 0 {
            overlay.rgba.set(4 * p + 3, 0);
        } else {
            assert(colour < 16) by (bit_vector)
                requires
                    colour == packed >> 4u8 || colour == packed & 0x0f,
            ;
            let ghost before = base.indexed@;
            let old_byte = base.indexed[p / 2];
            let new_byte = if p % 2 == 0 {
                proof {
                    crate::pdt::lemma_set_high(old_byte, colour);
                }
                (old_byte & 0x0f) | (colour << 4)
            } else {
                proof {
                    crate::pdt::lemma_set_low(old_byte, colour);
                }
                (old_byte & 0xf0) | colour
            };
            base.indexed.set(p / 2, new_byte);
            proof {
                assert forall|q: int| 0 <= q < 256000 implies #[trigger] nibble(base.indexed@, q) == if q == p {
                    colour
                } else {
                    nibble(before, q)
                } by {
                    if q / 2 != p / 2 {
                        assert(base.indexed@[q / 2] == before[q / 2]);
                    } else {
                        assert(base.indexed@[q / 2] == new_byte);
                        assert(before[q / 2] == old_byte);
                    }
                }
            }
        }
        p = p + 1;
    }
    let ghost ov1 = overlay.rgba@;
    alpha_blend_rgba(&mut base.rgba, overlay.rgba.as_slice());
}

// ---------------------------------------------------------------- map rendering

/// Left and top (pixels), width and height (pixels) of a chip atlas.
pub open spec fn atlas_geometry(r: Pdt34Rect) -> (int, int, int, int) {
    (r.left * 8, r.top as int, (r.right - r.left + 1) * 8, r.bottom - r.top + 1)
}

/// The atlas is a whole number of 16x16 chips.
pub open spec fn atlas_aligned(r: Pdt34Rect) -> bool {
    atlas_geometry(r).2 % 16 == 0 && atlas_geometry(r).3 % 16 == 0
}

pub open spec fn atlas_columns(r: Pdt34Rect) -> int {
    atlas_geometry(r).2 / 16
}

pub open spec fn atlas_cells(r: Pdt34Rect) -> int {
    atlas_columns(r) * (atlas_geometry(r).3 / 16)
}

/// Screen cell `(sx, sy)` of a 40x25 grid shows a map cell.
pub open spec fn cell_visible(dims: (u16, u16), scroll_x: u16, scroll_y: u16, sx: int, sy: int) -> bool {
    0 <= sx < 40 && 0 <= sy < 25 && scroll_x + sx < dims.0 && scroll_y + sy < dims.1
}

/// The chip shown in screen cell `(sx, sy)`.
pub open spec fn cell_chip(tiles: Seq<u16>, dims: (u16, u16), scroll_x: u16, scroll_y: u16, sx: int, sy: int) -> u16 {
    tiles[(scroll_y + sy) * dims.0 + scroll_x + sx] & 0x01ff
}

/// Screen cell `k` (row-major) shows a chip beyond the atlas.
pub open spec fn bad_cell(tiles: Seq<u16>, dims: (u16, u16), r: Pdt34Rect, scroll_x: u16, scroll_y: u16, k: int) -> bool {
    cell_visible(dims, scroll_x, scroll_y, k % 40, k / 40) && cell_chip(tiles, dims, scroll_x, scroll_y, k % 40, k / 40)
        >= atlas_cells(r)
}

/// The first screen cell from `k` on, in row-major order, that shows a chip
/// beyond the atlas.
pub open spec fn first_bad_cell(tiles: Seq<u16>, dims: (u16, u16), r: Pdt34Rect, scroll_x: u16, scroll_y: u16, k: int) -> Option<int>
    decreases 1000 - k,
{
    if k < 0 || k >= 1000 {
        None
    } else if bad_cell(tiles, dims, r, scroll_x, scroll_y, k) {
        Some(k)
    } else {
        first_bad_cell(tiles, dims, r, scroll_x, scroll_y, k + 1)
    }
}

/// The atlas pixel that row `row`, column `col` of chip `chip` comes from.
pub open spec fn source_pixel(r: Pdt34Rect, chip: int, row: int, col: int) -> int {
    (atlas_geometry(r).1 + (chip / atlas_columns(r)) * 16 + row) * 640 + atlas_geometry(r).0 + (chip % atlas_columns(r)) * 16
        + col
}

/// The atlas pixel that screen pixel `p` shows, if its cell shows a map cell.
pub open spec fn frame_source(tiles: Seq<u16>, dims: (u16, u16), r: Pdt34Rect, scroll_x: u16, scroll_y: u16, p: int) -> Option<int> {
    let x = p % 640;
    let y = p / 640;
    if cell_visible(dims, scroll_x, scroll_y, x / 16, y / 16) {
        Some(source_pixel(r, cell_chip(tiles, dims, scroll_x, scroll_y, x / 16, y / 16) as int, y % 16, x % 16))
    } else {
        None
    }
}

proof fn lemma_no_bad_cell(tiles: Seq<u16>, dims: (u16, u16), r: Pdt34Rect, scroll_x: u16, scroll_y: u16, k: int)
    requires
        0 <= k,
        first_bad_cell(tiles, dims, r, scroll_x, scroll_y, k) is None,
    ensures
        forall|j: int| k <= j < 1000 ==> !#[trigger] bad_cell(tiles, dims, r, scroll_x, scroll_y, j),
    decreases 1000 - k,
{
    if k < 1000 {
        lemma_no_bad_cell(tiles, dims, r, scroll_x, scroll_y, k + 1);
    }
}

proof fn lemma_source_in_screen(r: Pdt34Rect, chip: int, row: int, col: int)
    requires
        rect_error(r) is None,
        atlas_aligned(r),
        0 <= chip < atlas_cells(r),
        0 <= row < 16,
        0 <= col < 16,
    ensures
        0 <= source_pixel(r, chip, row, col) < 256000,
        atlas_geometry(r).0 % 2 == 0,
{
    let (left, top, w, h) = atlas_geometry(r);
    let cols = atlas_columns(r);
    let rows = h / 16;
    assert(cols >= 1);
    assert(chip / cols < rows) by (nonlinear_arith)
        requires
            cols >= 1,
            0 <= chip < cols * rows,
    ;
    assert(chip / cols >= 0 && chip % cols < cols && chip % cols >= 0) by (nonlinear_arith)
        requires
            cols >= 1,
            chip >= 0,
    ;
    assert((chip / cols) * 16 + row < h) by (nonlinear_arith)
        requires
            chip / cols < rows,
            rows == h / 16,
            h % 16 == 0,
            row < 16,
    ;
    assert((chip % cols) * 16 + col < w) by (nonlinear_arith)
        requires
            chip % cols < cols,
            cols == w / 16,
            w % 16 == 0,
            col < 16,
    ;
    let y = top + (chip / cols) * 16 + row;
    let x = left + (chip % cols) * 16 + col;
    assert(0 <= y < 400 && 0 <= x < 640);
    assert(0 <= y * 640 + x < 256000) by (nonlinear_arith)
        requires
            0 <= y < 400,
            0 <= x < 640,
    ;
}

/// `res` is what rendering the cells `tiles` (of a `dims` grid) scrolled to
/// `(scroll_x, scroll_y)` from an atlas with rectangle `rect`, indices `ix`
/// and RGBA `rgba` gives: an unaligned atlas or the first visible chip
/// beyond it is refused; otherwise every screen byte comes from the atlas
/// pixel its cell shows, or is zero.
pub open spec fn rendered(
    res: Result<Pdt34Image, GameError>,
    tiles: Seq<u16>,
    dims: (u16, u16),
    rect: Pdt34Rect,
    ix: Seq<u8>,
    rgba: Seq<u8>,
    scroll_x: u16,
    scroll_y: u16,
) -> bool {
    if !atlas_aligned(rect) {
        res == Err::<Pdt34Image, GameError>(GameError::UnalignedAtlas)
    } else {
        match first_bad_cell(tiles, dims, rect, scroll_x, scroll_y, 0) {
            Some(k) => res == Err::<Pdt34Image, GameError>(
                GameError::ChipOutOfAtlas(cell_chip(tiles, dims, scroll_x, scroll_y, k % 40, k / 40)),
            ),
            None => res is Ok && {
                let f = res.unwrap();
                &&& full_screen(f)
                &&& forall|i: int| 0 <= i < 128000 ==> #[trigger] f.indexed@[i] == match frame_source(
                    tiles,
                    dims,
                    rect,
                    scroll_x,
                    scroll_y,
                    2 * i,
                ) {
                    Some(s) => ix[s / 2],
                    None => 0u8,
                }
                &&& forall|j: int| 0 <= j < 1024000 ==> #[trigger] f.rgba@[j] == match frame_source(
                    tiles,
                    dims,
                    rect,
                    scroll_x,
                    scroll_y,
                    j / 4,
                ) {
                    Some(s) => rgba[s * 4 + j % 4],
                    None => 0u8,
                }
            },
        }
    }
}

/// Screen pixel `p`'s source in exec form.
fn frame_source_exec(
    tiles: &[u16],
    w: u16,
    h: u16,
    rect: Pdt34Rect,
    scroll_x: u16,
    scroll_y: u16,
    p: usize,
) -> (res: Option<usize>)
    requires
        p < 256000,
        tiles@.len() == w * h,
        rect_error(rect) is None,
        atlas_aligned(rect),
        forall|j: int| 0 <= j < 1000 ==> !#[trigger] bad_cell(tiles@, (w, h), rect, scroll_x, scroll_y, j),
    ensures
        match frame_source(tiles@, (w, h), rect, scroll_x, scroll_y, p as int) {
            Some(s) => res == Some(s as usize) && 0 <= s < 256000 && s % 2 == p % 2,
            None => res is None,
        },
{
    let x = p % 640;
    let y = p / 640;
    let sx = x / 16;
    let sy = y / 16;
    let mx = scroll_x as usize + sx;
    let my = scroll_y as usize + sy;
    if !(sx < 40 && sy < 25 && mx < w as usize && my < h as usize) {
        return None;
    }
    assert(my * w + mx < w * h <= 0xfffe0001) by (nonlinear_arith)
        requires
            my < h,
            mx < w,
            w <= 0xffff,
            h <= 0xffff,
    ;
    let chip = tiles[my * w as usize + mx] & 0x01ff;
    let k: usize = sy * 40 + sx;
    assert(k % 40 == sx && k / 40 == sy);
    assert(!bad_cell(tiles@, (w, h), rect, scroll_x, scroll_y, k as int));
    let ghost g = atlas_geometry(rect);
    proof {
        lemma_source_in_screen(rect, chip as int, (y % 16) as int, (x % 16) as int);
    }
    let cols: usize = ((rect.right - rect.left + 1) as usize * 8) / 16;
    let left: usize = rect.left as usize * 8;
    let top: usize = rect.top as usize;
    let cy: usize = top + (chip as usize / cols) * 16 + y % 16;
    let cx: usize = left + (chip as usize % cols) * 16 + x % 16;
    let s = cy * 640 + cx;
    assert(s % 2 == p % 2) by (nonlinear_arith)
        requires
            s == cy * 640 + cx,
            cx == left + (chip as usize % cols) * 16 + x % 16,
            left % 2 == 0,
            x == p % 640,
    ;
    Some(s)
}

/// Lays the visible cells of a MAP, scrolled to `(scroll_x, scroll_y)`
/// cells, onto a blank 640x400 frame: each 16x16 cell shows the chip its
/// tile word names (low nine bits) from a decoded chip atlas, counted
/// row-major over the atlas's rectangle.
pub fn render_cells(map: &Uk2MapLayout, rect: Pdt34Rect, atlas: &Pdt34Image, scroll_x: u16, scroll_y: u16) -> (res: Result<Pdt34Image, GameError>)
    requires
        map.wf(),
        rect_error(rect) is None,
        full_screen(*atlas),
    ensures
        rendered(res, map.tiles_view(), map.dims(), rect, atlas.indexed@, atlas.rgba@, scroll_x, scroll_y),
{
    let width_px: usize = (rect.right - rect.left + 1) as usize * 8;
    let height_px: usize = (rect.bottom - rect.top + 1) as usize;
    if width_px % 16 != 0 || height_px % 16 != 0 {
        return Err(GameError::UnalignedAtlas);
    }
    let cols = width_px / 16;
    assert(cols <= 40 && height_px / 16 <= 25);
    assert(cols * (height_px / 16) <= 1000) by (nonlinear_arith)
        requires
            cols <= 40,
            height_px / 16 <= 25,
    ;
    let count = cols * (height_px / 16);
    let tiles = map.tiles();
    let (w, h) = map.size();
    proof {
        map.lemma_tile_count();
    }
    proof {
        reveal_with_fuel(first_bad_cell, 2);
    }
    let mut k: usize = 0;
    while k < 1000
        invariant
            k <= 1000,
            tiles@ == map.tiles_view(),
            map.dims() == (w, h),
            tiles@.len() == w * h,
            count == atlas_cells(rect),
            atlas_aligned(rect),
            first_bad_cell(tiles@, (w, h), rect, scroll_x, scroll_y, 0) == first_bad_cell(
                tiles@,
                (w, h),
                rect,
                scroll_x,
                scroll_y,
                k as int,
            ),
        decreases 1000 - k,
    {
        let sx = k % 40;
        let sy = k / 40;
        let mx = scroll_x as usize + sx;
        let my = scroll_y as usize + sy;
        if mx < w as usize && my < h as usize {
            assert(my * w + mx < w * h <= 0xfffe0001) by (nonlinear_arith)
                requires
                    my < h,
                    mx < w,
                    w <= 0xffff,
                    h <= 0xffff,
            ;
            let chip = tiles[my * w as usize + mx] & 0x01ff;
            if chip as usize >= count {
                return Err(GameError::ChipOutOfAtlas(chip));
            }
        }
        k = k + 1;
    }
    proof {
        lemma_no_bad_cell(tiles@, (w, h), rect, scroll_x, scroll_y, 0);
    }
    let mut indexed: Vec<u8> = Vec::new();
    let mut i: usize = 0;
    while i < 128000
        invariant
            i <= 128000,
            indexed@.len() == i,
            tiles@ == map.tiles_view(),
            map.dims() == (w, h),
            tiles@.len() == w * h,
            rect_error(rect) is None,
            atlas_aligned(rect),
            full_screen(*atlas),
            forall|j: int| 0 <= j < 1000 ==> !#[trigger] bad_cell(tiles@, (w, h), rect, scroll_x, scroll_y, j),
            forall|q: int| 0 <= q < i ==> #[trigger] indexed@[q] == match frame_source(
                tiles@,
                (w, h),
                rect,
                scroll_x,
                scroll_y,
                2 * q,
            ) {
                Some(s) => atlas.indexed@[s / 2],
                None => 0u8,
            },
        decreases 128000 - i,
    {
        let b = match frame_source_exec(tiles, w, h, rect, scroll_x, scroll_y, 2 * i) {
            Some(s) => atlas.indexed[s / 2],
            None => 0u8,
        };
        indexed.push(b);
        i = i + 1;
    }
    let mut rgba: Vec<u8> = Vec::new();
    let mut j: usize = 0;
    while j < 1024000
        invariant
            j <= 1024000,
            rgba@.len() == j,
            tiles@ == map.tiles_view(),
            map.dims() == (w, h),
            tiles@.len() == w * h,
            rect_error(rect) is None,
            atlas_aligned(rect),
            full_screen(*atlas),
            forall|c: int| 0 <= c < 1000 ==> !#[trigger] bad_cell(tiles@, (w, h), rect, scroll_x, scroll_y, c),
            forall|q: int| 0 <= q < j ==> #[trigger] rgba@[q] == match frame_source(
                tiles@,
                (w, h),
                rect,
                scroll_x,
                scroll_y,
                q / 4,
            ) {
                Some(s) => atlas.rgba@[s * 4 + q % 4],
                None => 0u8,
            },
        decreases 1024000 - j,
    {
        let b = match frame_source_exec(tiles, w, h, rect, scroll_x, scroll_y, j / 4) {
            Some(s) => atlas.rgba[s * 4 + j % 4],
            None => 0u8,
        };
        rgba.push(b);
        j = j + 1;
    }
    Ok(Pdt34Image { width: 640, height: 400, indexed, rgba })
}

/// Reasons a game-directory request is refused.
#[derive(Debug, Clone, Copy, PartialEq, Eq)]
pub enum GameError {
    /// A resource name is not valid Shift-JIS.
    BadName,
    /// No file or archive entry has this name.
    NotFound,
    /// A DLB archive refused the request.
    Archive(DlbError),
    /// A MAP's chip atlas failed to decode.
    Pdt(PdtError),
    /// A MAP's chip atlas is not a whole number of 16x16 cells.
    UnalignedAtlas,
    /// A visible MAP cell names this chip, beyond the atlas.
    ChipOutOfAtlas(u16),
}

/// Decodes a raw Shift-JIS resource name from UK2 bytecode.
pub fn decode_engine_name(bytes: &[u8]) -> (res: Result<String, GameError>)
    requires
        bytes@.len() <= usize::MAX / 8,
    ensures
        match shift_jis_text(bytes@) {
            Some(t) => res is Ok && res.unwrap()@ == t,
            None => res == Err::<String, GameError>(GameError::BadName),
        },
{
    match decode_shift_jis(bytes) {
        Some(name) => Ok(name),
        None => Err(GameError::BadName),
    }
}

/// The index of a game directory: its root, its configuration, its files by
/// upper-case name (ordered by name, each once), and its DLB archives.
#[derive(Debug, Clone)]
pub struct Uk2Game {
    root: String,
    pub config: Uk2Config,
    files: Vec<(String, String)>,
    archives: Vec<DlbArchive>,
}

/// Some archive has an entry named `name` up to ASCII case.
pub open spec fn archives_have(archives: Seq<DlbArchive>, name: Seq<char>) -> bool {
    exists|a: int, i: int|
        0 <= a < archives.len() && 0 <= i < archives[a].spec_entries().len() && eq_ignore_case(
            #[trigger] archives[a].spec_entries()[i].name@,
            name,
        )
}

pub open spec fn files_view(files: Seq<(String, String)>) -> Seq<(Seq<char>, Seq<char>)> {
    files.map_values(|e: (String, String)| (e.0@, e.1@))
}

impl Uk2Game {
    pub closed spec fn root_view(&self) -> Seq<char> {
        self.root@
    }

    /// File name (upper case) to path.
    pub closed spec fn files_view(&self) -> Seq<(Seq<char>, Seq<char>)> {
        files_view(self.files@)
    }

    pub closed spec fn config_view(&self) -> Uk2Config {
        self.config
    }

    pub closed spec fn archives_view(&self) -> Seq<DlbArchive> {
        self.archives@
    }

    /// Files ordered by name, each once; archives well formed.
    pub closed spec fn wf(&self) -> bool {
        &&& crate::config::ordered(self.files_view())
        &&& forall|a: int| 0 <= a < self.archives@.len() ==> (#[trigger] self.archives@[a]).wf()
    }

    /// Indexes a game directory from its listing (file name, path), its
    /// parsed `UK2.CFG` and its parsed archives.  Names are keyed in upper
    /// case; a later listing entry with the same key wins.
    pub fn new(root: String, config: Uk2Config, listing: Vec<(String, String)>, archives: Vec<DlbArchive>) -> (res: Self)
        requires
            forall|a: int| 0 <= a < archives@.len() ==> (#[trigger] archives@[a]).wf(),
        ensures
            res.wf(),
            res.root_view() == root@,
            res.config_view() == config,
            res.archives_view() == archives@,
            forall|k: Seq<char>| #[trigger] crate::config::find_value(res.files_view(), k) == listed(files_view(listing@), k),
    {
        let mut files: Vec<(Vec<char>, Vec<char>)> = Vec::new();
        let mut i: usize = 0;
        while i < listing.len()
            invariant
                i <= listing@.len(),
                crate::config::ordered(crate::config::pair_views(files@)),
                forall|k: Seq<char>| #[trigger] crate::config::find_value(crate::config::pair_views(files@), k) == listed(
                    files_view(listing@.take(i as int)),
                    k,
                ),
            decreases listing@.len() - i,
        {
            let name = chars_of(listing[i].0.as_str());
            let key = crate::config::upper_chars(&name, 0, name.len());
            let path = chars_of(listing[i].1.as_str());
            proof {
                assert(name@.subrange(0, name@.len() as int) =~= name@);
                assert(files_view(listing@.take(i + 1)).drop_last() =~= files_view(listing@.take(i as int)));
            }
            crate::config::insert_sorted(&mut files, key, path);
            i = i + 1;
        }
        assert(listing@.take(listing@.len() as int) =~= listing@);
        let files = crate::config::to_strings(&files);
        Uk2Game { root, config, files, archives }
    }

    pub fn root(&self) -> (res: &str)
        ensures
            res@ == self.root_view(),
    {
        self.root.as_str()
    }

    /// Path of the loose file behind an engine name.
    pub fn resolve(&self, engine_name: &str) -> (res: Option<&str>)
        ensures
            match crate::config::find_value(self.files_view(), crate::config::upper(real_name(engine_name@))) {
                Some(p) => res is Some && res.unwrap()@ == p,
                None => res is None,
            },
    {
        let mapped = map_virtual_extension(engine_name);
        let chars = chars_of(mapped.as_str());
        let key = crate::config::upper_chars(&chars, 0, chars.len());
        assert(chars@.subrange(0, chars@.len() as int) =~= chars@);
        assert(files_view(self.files@).skip(0) =~= files_view(self.files@));
        let mut i: usize = 0;
        while i < self.files.len()
            invariant
                i <= self.files@.len(),
                key@ == crate::config::upper(real_name(engine_name@)),
                crate::config::find_value(self.files_view(), key@) == crate::config::find_value(
                    files_view(self.files@).skip(i as int),
                    key@,
                ),
            decreases self.files@.len() - i,
        {
            let name = chars_of(self.files[i].0.as_str());
            assert(files_view(self.files@).skip(i as int)[0] == (self.files@[i as int].0@, self.files@[i as int].1@));
            if crate::config::chars_eq(&name, &key) {
                return Some(self.files[i].1.as_str());
            }
            assert(files_view(self.files@).skip(i as int).drop_first() =~= files_view(self.files@).skip(i + 1));
            i = i + 1;
        }
        None
    }

    /// Renders the visible cells of `map`, scrolled to `(scroll_x,
    /// scroll_y)` cells, from its chip atlas: `atlas_bytes` are the PDT34
    /// file named by the MAP's base, as the caller read it.
    pub fn render_map(&self, map: &Uk2MapLayout, atlas_bytes: &[u8], scroll_x: u16, scroll_y: u16) -> (res: Result<Pdt34Image, GameError>)
        requires
            map.wf(),
        ensures
            header_error(atlas_bytes@) matches Some(e) ==> res == Err::<Pdt34Image, GameError>(GameError::Pdt(e)),
            header_error(atlas_bytes@) is None ==> exists|h: Pdt34Header| {
                &&& header_is(h, atlas_bytes@)
                &&& match planes_of(h, atlas_bytes@.subrange(0x2b, atlas_bytes@.len() as int)) {
                    Err(e) => res == Err::<Pdt34Image, GameError>(GameError::Pdt(e)),
                    Ok(planes) => rendered(
                        res,
                        map.tiles_view(),
                        map.dims(),
                        h.rect,
                        image_of(h, planes).0,
                        image_of(h, planes).1,
                        scroll_x,
                        scroll_y,
                    ),
                }
            },
    {
        let header = match Pdt34Header::parse(atlas_bytes) {
            Ok(h) => h,
            Err(e) => return Err(GameError::Pdt(e)),
        };
        let atlas = match header.decode_image(atlas_bytes) {
            Ok(a) => a,
            Err(e) => return Err(GameError::Pdt(e)),
        };
        let res = render_cells(map, header.rect, &atlas, scroll_x, scroll_y);
        assert(header_is(header, atlas_bytes@));
        res
    }

    /// A loose file or an archive entry answers to the engine name.
    pub fn contains_resource(&self, engine_name: &str) -> (res: bool)
        ensures
            res == (crate::config::find_value(self.files_view(), crate::config::upper(real_name(engine_name@))) is Some
                || archives_have(self.archives_view(), real_name(engine_name@))),
    {
        if self.resolve(engine_name).is_some() {
            return true;
        }
        let mapped = map_virtual_extension(engine_name);
        let mut a: usize = 0;
        while a < self.archives.len()
            invariant
                a <= self.archives@.len(),
                mapped@ == real_name(engine_name@),
                forall|b: int, i: int|
                    0 <= b < a && 0 <= i < self.archives@[b].spec_entries().len() ==> !eq_ignore_case(
                        #[trigger] self.archives@[b].spec_entries()[i].name@,
                        mapped@,
                    ),
            decreases self.archives@.len() - a,
        {
            if self.archives[a].entry(mapped.as_str()).is_some() {
                return true;
            }
            a = a + 1;
        }
        false
    }

    /// The data of an engine name from the first archive that has it (loose
    /// files are read by the caller, which holds the file system).
    pub fn read_archived(&self, engine_name: &str) -> (res: Option<&[u8]>)
        requires
            self.wf(),
        ensures
            res is Some <==> archives_have(self.archives_view(), real_name(engine_name@)),
            res is Some ==> exists|a: int, i: int| {
                &&& 0 <= a < self.archives_view().len()
                &&& 0 <= i < self.archives_view()[a].spec_entries().len()
                &&& eq_ignore_case(self.archives_view()[a].spec_entries()[i].name@, real_name(engine_name@))
                &&& forall|b: int, j: int| 0 <= b < a && 0 <= j < self.archives_view()[b].spec_entries().len() ==> !eq_ignore_case(
                    #[trigger] self.archives_view()[b].spec_entries()[j].name@,
                    real_name(engine_name@),
                )
                &&& forall|j: int| 0 <= j < i ==> !eq_ignore_case(
                    #[trigger] self.archives_view()[a].spec_entries()[j].name@,
                    real_name(engine_name@),
                )
                &&& res.unwrap()@ == self.archives_view()[a].spec_bytes().subrange(
                    self.archives_view()[a].spec_entries()[i].offset as int,
                    self.archives_view()[a].spec_entries()[i].offset + self.archives_view()[a].spec_entries()[i].size,
                )
            },
    {
        let mapped = map_virtual_extension(engine_name);
        let mut a: usize = 0;
        while a < self.archives.len()
            invariant
                self.wf(),
                a <= self.archives@.len(),
                mapped@ == real_name(engine_name@),
                forall|b: int, i: int|
                    0 <= b < a && 0 <= i < self.archives@[b].spec_entries().len() ==> !eq_ignore_case(
                        #[trigger] self.archives@[b].spec_entries()[i].name@,
                        mapped@,
                    ),
            decreases self.archives@.len() - a,
        {
            assert(self.archives@[a as int].wf());
            match self.archives[a].read(mapped.as_str()) {
                Ok(data) => {
                    proof {
                        let ar = self.archives@[a as int];
                        let i = choose|i: int| 0 <= i < ar.spec_entries().len() && eq_ignore_case(
                            ar.spec_entries()[i].name@,
                            mapped@,
                        ) && (forall|j: int| 0 <= j < i ==> !eq_ignore_case(#[trigger] ar.spec_entries()[j].name@, mapped@))
                            && data@ == ar.spec_bytes().subrange(
                            ar.spec_entries()[i].offset as int,
                            ar.spec_entries()[i].offset + ar.spec_entries()[i].size,
                        );
                        assert(archives_have(self.archives_view(), real_name(engine_name@))) by {
                            assert(eq_ignore_case(self.archives@[a as int].spec_entries()[i].name@, mapped@));
                        }
                    }
                    return Some(data);
                },
                Err(_) => {},
            }
            a = a + 1;
        }
        None
    }
}

/// The path listed last under upper-case name `k`.
pub open spec fn listed(listing: Seq<(Seq<char>, Seq<char>)>, k: Seq<char>) -> Option<Seq<char>>
    decreases listing.len(),
{
    if listing.len() == 0 {
        None
    } else if crate::config::upper(listing.last().0) == k {
        Some(listing.last().1)
    } else {
        listed(listing.drop_last(), k)
    }
}

} // verus!
