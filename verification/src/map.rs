//! UK2 `MAP` resource reader.
//!
//! Sorcer Kingdom `MAP` files act as scene/resource layout tables.  The first
//! four bytes are the map dimensions, followed by two 16-byte NUL-terminated
//! Shift-JIS resource names. Map records begin at offset 0x24.
use vstd::prelude::*;

use crate::mes::le16;
use crate::sjis::{decode_shift_jis, nul_len, nul_position, shift_jis_text};

verus! {

pub const UK2_MAP_HEADER_SIZE: usize = 0x24;
pub const RESOURCE_NAME_SIZE: usize = 16;
pub const MAP_DATA_HEADER_SIZE: usize = 22;
pub const ENTITY_SIZE: usize = 0x11;
pub const TRIGGER_SIZE: usize = 0x0a;

/// Offset of the tile grid in a MAP file.
const TILE_START: usize = 58;

/// Low byte of a word.
pub open spec fn lo8(v: u16) -> u8 {
    (v % 256) as u8
}

/// High byte of a word.
pub open spec fn hi8(v: u16) -> u8 {
    (v / 256) as u8
}

/// Reasons a MAP file is refused.
#[derive(Debug, Clone, Copy, PartialEq, Eq)]
pub enum MapError {
    /// Shorter than the two headers.
    TooShort,
    /// A resource name is not valid Shift-JIS.
    BadName,
    /// The tile byte count is not twice the cell count.
    TileCountMismatch,
    /// The tile grid runs past the end of the file.
    TilesBeyondEnd,
    /// The bytes after the grid are not the declared entities and triggers.
    TailMismatch,
}

/// Length of a name field once trailing spaces are dropped from its first `n` bytes.
pub open spec fn trimmed_len(s: Seq<u8>, n: int) -> int
    decreases n,
{
    if n <= 0 {
        0
    } else if s[n - 1] != 0x20 {
        n
    } else {
        trimmed_len(s, n - 1)
    }
}

/// The bytes of a resource name: up to the first NUL, trailing spaces dropped.
pub open spec fn name_field(raw: Seq<u8>) -> Seq<u8> {
    raw.take(trimmed_len(raw, nul_len(raw)))
}

pub open spec fn map_width(b: Seq<u8>) -> u16 {
    le16(b[0], b[1])
}

pub open spec fn map_height(b: Seq<u8>) -> u16 {
    le16(b[2], b[3])
}

pub open spec fn map_base_raw(b: Seq<u8>) -> Seq<u8> {
    name_field(b.subrange(4, 20))
}

pub open spec fn map_overlay_raw(b: Seq<u8>) -> Seq<u8> {
    name_field(b.subrange(20, 36))
}

/// The tile byte count declared by the data header.
pub open spec fn map_tile_bytes(b: Seq<u8>) -> int {
    le16(b[36], b[37]) as int
}

pub open spec fn map_entity_count(b: Seq<u8>) -> int {
    b[38] as int
}

pub open spec fn map_trigger_count(b: Seq<u8>) -> int {
    b[40] as int
}

pub open spec fn map_tile_end(b: Seq<u8>) -> int {
    58 + map_tile_bytes(b)
}

/// The first check a MAP file fails, in the order the reader makes them.
pub open spec fn map_error(b: Seq<u8>) -> Option<MapError> {
    if b.len() < 58 {
        Some(MapError::TooShort)
    } else if shift_jis_text(map_base_raw(b)) is None || shift_jis_text(map_overlay_raw(b)) is None {
        Some(MapError::BadName)
    } else if map_tile_bytes(b) != 2 * (map_width(b) * map_height(b)) {
        Some(MapError::TileCountMismatch)
    } else if map_tile_end(b) > b.len() {
        Some(MapError::TilesBeyondEnd)
    } else if b.len() - map_tile_end(b) != map_entity_count(b) * 17 + map_trigger_count(b) * 10 {
        Some(MapError::TailMismatch)
    } else {
        None
    }
}

/// One 17-byte MAP object record.
#[derive(Debug, Clone, Copy, PartialEq, Eq)]
pub struct Uk2MapEntity {
    raw: [u8; 17],
}

impl View for Uk2MapEntity {
    type V = Seq<u8>;

    closed spec fn view(&self) -> Seq<u8> {
        self.raw@
    }
}

/// What `apply_fa` makes of an entity record: fields given as 1000 stay,
/// the final value replaces the low attribute nibble, and flag 1 toggles.
pub open spec fn entity_after_fa(raw: Seq<u8>, values: Seq<u16>) -> Seq<u8> {
    let r1 = if values[0] != 1000 {
        raw.update(0, lo8(values[0])).update(1, hi8(values[0]))
    } else {
        raw
    };
    let r2 = if values[1] != 1000 {
        r1.update(2, lo8(values[1])).update(3, hi8(values[1]))
    } else {
        r1
    };
    let r3 = if values[2] != 1000 {
        r2.update(12, lo8(values[2]))
    } else {
        r2
    };
    let r4 = r3.update(14, (r3[14] & 0xf0u8) | (lo8(values[4]) & 0x0fu8));
    r4.update(4, r4[4] ^ 2u8)
}

/// What an `FA` edit does to an entity record, field by field: the X and Y
/// words and the byte at 12 take the given values unless those are 1000,
/// when they stay; the ID and every byte the edit does not name stay.
pub proof fn lemma_fa_fields(raw: Seq<u8>, values: Seq<u16>)
    requires
        raw.len() == 17,
        values.len() == 5,
    ensures
        ({
            let r = entity_after_fa(raw, values);
            &&& r.len() == 17
            &&& le16(r[0], r[1]) == if values[0] != 1000 { values[0] } else { le16(raw[0], raw[1]) }
            &&& le16(r[2], r[3]) == if values[1] != 1000 { values[1] } else { le16(raw[2], raw[3]) }
            &&& r[12] == if values[2] != 1000 { lo8(values[2]) } else { raw[12] }
            &&& entity_id(r) == entity_id(raw)
            &&& forall|k: int| 5 <= k < 17 && k != 12 && k != 14 ==> r[k] == raw[k]
        }),
{
}

impl Uk2MapEntity {
    pub proof fn lemma_len(&self)
        ensures
            self@.len() == 17,
    {
    }

    pub fn id(&self) -> (res: u16)
        ensures
            res == le16(self@[6], self@[7]),
    {
        self.raw[6] as u16 + (self.raw[7] as u16) * 256
    }

    pub fn position(&self) -> (res: (u16, u16))
        ensures
            res == (le16(self@[0], self@[1]), le16(self@[2], self@[3])),
    {
        (self.raw[0] as u16 + (self.raw[1] as u16) * 256, self.raw[2] as u16 + (self.raw[3] as u16) * 256)
    }

    /// `sub_1BD89`: 1000 leaves an existing field unchanged. The final value
    /// replaces the low attribute nibble; every matching update toggles flag 1.
    pub fn apply_fa(&mut self, values: [u16; 5])
        ensures
            final(self)@ == entity_after_fa(old(self)@, values@),
    {
        if values[0] != 1000 {
            self.raw[0] = (values[0] % 256) as u8;
            self.raw[1] = (values[0] / 256) as u8;
        }
        if values[1] != 1000 {
            self.raw[2] = (values[1] % 256) as u8;
            self.raw[3] = (values[1] / 256) as u8;
        }
        if values[2] != 1000 {
            self.raw[12] = (values[2] % 256) as u8;
        }
        self.raw[14] = (self.raw[14] & 0xf0) | (((values[4] % 256) as u8) & 0x0f);
        self.raw[4] = self.raw[4] ^ 2;
        assert(self.raw@ =~= entity_after_fa(old(self)@, values@));
    }
}

/// A parsed MAP: the dimensions, the two resource names, the 22-byte data
/// header, the tile grid, the object and trigger records, and the payload
/// (the file after the shared header) kept in step with the records.
#[derive(Debug, Clone, PartialEq, Eq)]
pub struct Uk2MapLayout {
    pub width: u16,
    pub height: u16,
    pub base: String,
    pub overlay: String,
    map_data_header: [u8; 22],
    tiles: Vec<u16>,
    entities: Vec<Uk2MapEntity>,
    triggers: Vec<[u8; 10]>,
    payload: Vec<u8>,
}

/// The object records of a layout, each as its bytes.
pub open spec fn entity_views(es: Seq<Uk2MapEntity>) -> Seq<Seq<u8>> {
    es.map_values(|e: Uk2MapEntity| e@)
}

/// The trigger records of a layout, each as its bytes.
pub open spec fn trigger_views(ts: Seq<[u8; 10]>) -> Seq<Seq<u8>> {
    ts.map_values(|t: [u8; 10]| t@)
}

/// Offset in the payload of object record `e`.
pub open spec fn entity_at(tiles: int, e: int) -> int {
    22 + 2 * tiles + 17 * e
}

/// Offset in the payload of trigger record `t`.
pub open spec fn trigger_at(tiles: int, entities: int, t: int) -> int {
    22 + 2 * tiles + 17 * entities + 10 * t
}

/// The payload laid out from its parts: data header, tile words, objects, triggers.
pub open spec fn payload_matches(
    p: Seq<u8>,
    header: Seq<u8>,
    tiles: Seq<u16>,
    es: Seq<Seq<u8>>,
    ts: Seq<Seq<u8>>,
) -> bool {
    &&& header.len() == 22
    &&& forall|e: int| 0 <= e < es.len() ==> (#[trigger] es[e]).len() == 17
    &&& forall|t: int| 0 <= t < ts.len() ==> (#[trigger] ts[t]).len() == 10
    &&& p.len() == trigger_at(tiles.len() as int, es.len() as int, ts.len() as int)
    &&& forall|i: int| 0 <= i < 22 ==> p[i] == #[trigger] header[i]
    &&& forall|i: int|
        0 <= i < tiles.len() ==> p[22 + 2 * i] == lo8(#[trigger] tiles[i]) && p[23 + 2 * i] == hi8(tiles[i])
    &&& forall|e: int, k: int|
        0 <= e < es.len() && 0 <= k < 17 ==> p[entity_at(tiles.len() as int, e) + k] == #[trigger] es[e][k]
    &&& forall|t: int, k: int|
        0 <= t < ts.len() && 0 <= k < 10 ==> p[trigger_at(tiles.len() as int, es.len() as int, t) + k]
            == #[trigger] ts[t][k]
}

/// A well-formed layout whose payload is the file from byte 36 on holds, as
/// tile `i`, the little-endian word at byte `0x3a + 2i` of the file.
pub proof fn lemma_tiles_of_file(m: Uk2MapLayout, bytes: Seq<u8>)
    requires
        m.wf(),
        bytes.len() >= 36,
        m.payload_view() == bytes.subrange(36, bytes.len() as int),
    ensures
        forall|i: int| 0 <= i < m.tiles_view().len() ==> #[trigger] m.tiles_view()[i] == bytes[0x3a + 2 * i] + 256 * bytes[0x3b + 2 * i],
{
    assert forall|i: int| 0 <= i < m.tiles_view().len() implies #[trigger] m.tiles_view()[i] == bytes[0x3a + 2 * i] + 256
        * bytes[0x3b + 2 * i] by {
        let t = m.tiles_view()[i];
        assert(m.payload_view()[22 + 2 * i] == lo8(t));
        assert(m.payload_view()[23 + 2 * i] == hi8(t));
        assert(bytes[0x3a + 2 * i] == m.payload_view()[22 + 2 * i]);
        assert(bytes[0x3b + 2 * i] == m.payload_view()[23 + 2 * i]);
    }
}

impl Uk2MapLayout {
    /// Width and height in cells.
    pub closed spec fn dims(&self) -> (u16, u16) {
        (self.width, self.height)
    }

    /// The base and overlay resource names.
    pub closed spec fn names(&self) -> (Seq<char>, Seq<char>) {
        (self.base@, self.overlay@)
    }

    pub closed spec fn header_view(&self) -> Seq<u8> {
        self.map_data_header@
    }

    pub closed spec fn tiles_view(&self) -> Seq<u16> {
        self.tiles@
    }

    pub closed spec fn entities_view(&self) -> Seq<Seq<u8>> {
        entity_views(self.entities@)
    }

    pub closed spec fn triggers_view(&self) -> Seq<Seq<u8>> {
        trigger_views(self.triggers@)
    }

    pub closed spec fn payload_view(&self) -> Seq<u8> {
        self.payload@
    }

    /// The grid has one tile per cell and the payload mirrors the records.
    pub open spec fn wf(&self) -> bool {
        &&& self.tiles_view().len() == self.dims().0 * self.dims().1
        &&& payload_matches(
            self.payload_view(),
            self.header_view(),
            self.tiles_view(),
            self.entities_view(),
            self.triggers_view(),
        )
    }

    /// Parses a whole MAP file.
    #[verifier::rlimit(60)]
    pub fn from_bytes(bytes: Vec<u8>) -> (res: Result<Self, MapError>)
        ensures
            match res {
                Ok(m) => {
                    &&& map_error(bytes@) is None
                    &&& m.wf()
                    &&& m.dims() == (map_width(bytes@), map_height(bytes@))
                    &&& shift_jis_text(map_base_raw(bytes@)) == Some(m.names().0)
                    &&& shift_jis_text(map_overlay_raw(bytes@)) == Some(m.names().1)
                    &&& m.payload_view() == bytes@.subrange(36, bytes@.len() as int)
                    &&& m.tiles_view().len() * 2 == map_tile_bytes(bytes@)
                    &&& m.entities_view().len() == map_entity_count(bytes@)
                    &&& m.triggers_view().len() == map_trigger_count(bytes@)
                },
                Err(e) => map_error(bytes@) == Some(e),
            },
    {
        if bytes.len() < TILE_START {
            return Err(MapError::TooShort);
        }
        let width = bytes[0] as u16 + (bytes[1] as u16) * 256;
        let height = bytes[2] as u16 + (bytes[3] as u16) * 256;
        let base_raw = vstd::slice::slice_subrange(bytes.as_slice(), 4, 20);
        let overlay_raw = vstd::slice::slice_subrange(bytes.as_slice(), 20, 36);
        let base = decode_name(base_raw);
        let overlay = decode_name(overlay_raw);
        proof {
            assert(base_raw@ =~= bytes@.subrange(4, 20));
            assert(overlay_raw@ =~= bytes@.subrange(20, 36));
        }
        let (base, overlay) = match (base, overlay) {
            (Some(b), Some(o)) => (b, o),
            _ => return Err(MapError::BadName),
        };
        let mut header: [u8; 22] = [0u8; 22];
        let mut k: usize = 0;
        while k < 22
            invariant
                bytes@.len() >= 58,
                k <= 22,
                forall|i: int| 0 <= i < k ==> header@[i] == bytes@[36 + i],
            decreases 22 - k,
        {
            header[k] = bytes[36 + k];
            k = k + 1;
        }
        let tile_bytes = header[0] as u64 + (header[1] as u64) * 256;
        assert((width as u64) * (height as u64) <= 0xffff * 0xffff) by (nonlinear_arith)
            requires
                width <= 0xffff,
                height <= 0xffff,
        ;
        let expected = (width as u64) * (height as u64) * 2;
        if tile_bytes != expected {
            return Err(MapError::TileCountMismatch);
        }
        let tile_bytes = tile_bytes as usize;
        if tile_bytes > bytes.len() - TILE_START {
            return Err(MapError::TilesBeyondEnd);
        }
        let tile_end = TILE_START + tile_bytes;
        let entity_count = header[2] as usize;
        let trigger_count = header[4] as usize;
        if bytes.len() - tile_end != entity_count * 17 + trigger_count * 10 {
            return Err(MapError::TailMismatch);
        }
        let cells = tile_bytes / 2;
        let mut tiles: Vec<u16> = Vec::new();
        let mut i: usize = 0;
        while i < cells
            invariant
                cells * 2 == tile_bytes,
                tile_end == 58 + tile_bytes,
                tile_end <= bytes@.len(),
                i <= cells,
                tiles@.len() == i,
                forall|j: int| 0 <= j < i ==> #[trigger] tiles@[j] == le16(bytes@[58 + 2 * j], bytes@[59 + 2 * j]),
            decreases cells - i,
        {
            let at = TILE_START + 2 * i;
            tiles.push(bytes[at] as u16 + (bytes[at + 1] as u16) * 256);
            i = i + 1;
        }
        let mut entities: Vec<Uk2MapEntity> = Vec::new();
        let mut e: usize = 0;
        while e < entity_count
            invariant
                tile_end + entity_count * 17 + trigger_count * 10 == bytes@.len(),
                bytes@.len() <= usize::MAX,
                e <= entity_count,
                entities@.len() == e,
                forall|j: int, q: int| 0 <= j < e && 0 <= q < 17 ==> #[trigger] entities@[j]@[q] == bytes@[tile_end + 17 * j + q],
            decreases entity_count - e,
        {
            let mut raw: [u8; 17] = [0u8; 17];
            let at = tile_end + 17 * e;
            let mut q: usize = 0;
            while q < 17
                invariant
                    at + 17 <= bytes@.len(),
                    bytes@.len() <= usize::MAX,
                    q <= 17,
                    forall|r: int| 0 <= r < q ==> raw@[r] == bytes@[at + r],
                decreases 17 - q,
            {
                raw[q] = bytes[at + q];
                q = q + 1;
            }
            let ghost before = entities@;
            entities.push(Uk2MapEntity { raw });
            proof {
                assert forall|j: int, q: int| 0 <= j < e + 1 && 0 <= q < 17 implies #[trigger] entities@[j]@[q]
                    == bytes@[tile_end + 17 * j + q] by {
                    if j < e {
                        assert(entities@[j] == before[j]);
                    }
                }
            }
            e = e + 1;
        }
        let entity_end = tile_end + 17 * entity_count;
        let mut triggers: Vec<[u8; 10]> = Vec::new();
        let mut t: usize = 0;
        while t < trigger_count
            invariant
                entity_end + trigger_count * 10 == bytes@.len(),
                bytes@.len() <= usize::MAX,
                t <= trigger_count,
                triggers@.len() == t,
                forall|j: int, q: int| 0 <= j < t && 0 <= q < 10 ==> #[trigger] triggers@[j]@[q] == bytes@[entity_end + 10 * j + q],
            decreases trigger_count - t,
        {
            let mut raw: [u8; 10] = [0u8; 10];
            let at = entity_end + 10 * t;
            let mut q: usize = 0;
            while q < 10
                invariant
                    at + 10 <= bytes@.len(),
                    bytes@.len() <= usize::MAX,
                    q <= 10,
                    forall|r: int| 0 <= r < q ==> raw@[r] == bytes@[at + r],
                decreases 10 - q,
            {
                raw[q] = bytes[at + q];
                q = q + 1;
            }
            let ghost before = triggers@;
            triggers.push(raw);
            proof {
                assert forall|j: int, q: int| 0 <= j < t + 1 && 0 <= q < 10 implies #[trigger] triggers@[j]@[q]
                    == bytes@[entity_end + 10 * j + q] by {
                    if j < t {
                        assert(triggers@[j] == before[j]);
                    }
                }
            }
            t = t + 1;
        }
        let payload = vstd::slice::slice_to_vec(vstd::slice::slice_subrange(bytes.as_slice(), 36, bytes.len()));
        let ghost b = bytes@;
        let m = Uk2MapLayout {
            width,
            height,
            base,
            overlay,
            map_data_header: header,
            tiles,
            entities,
            triggers,
            payload,
        };
        proof {
            lemma_split_word_all(m.tiles@, b);
            assert(m.tiles_view().len() == m.width * m.height) by (nonlinear_arith)
                requires
                    m.tiles_view().len() * 2 == 2 * (m.width * m.height),
            ;
            assert(payload_matches(
                m.payload_view(),
                m.header_view(),
                m.tiles_view(),
                m.entities_view(),
                m.triggers_view(),
            ));
        }
        Ok(m)
    }

    pub fn payload(&self) -> (res: &[u8])
        ensures
            res@ == self.payload_view(),
    {
        self.payload.as_slice()
    }

    /// The 22-byte per-map header immediately following the shared MAP header.
    /// Its first little-endian word is the tile-grid byte count.
    pub fn map_data_header(&self) -> (res: &[u8; 22])
        ensures
            res@ == self.header_view(),
    {
        &self.map_data_header
    }

    /// Row-major little-endian tile values, one `u16` per map cell.
    /// A well-formed layout has one tile per cell.
    pub proof fn lemma_tile_count(&self)
        requires
            self.wf(),
        ensures
            self.tiles_view().len() == self.dims().0 * self.dims().1,
    {
    }

    /// Width and height in cells.
    pub(crate) fn size(&self) -> (res: (u16, u16))
        ensures
            res == self.dims(),
    {
        (self.width, self.height)
    }

    pub fn tiles(&self) -> (res: &[u16])
        ensures
            res@ == self.tiles_view(),
    {
        self.tiles.as_slice()
    }

    pub fn entities(&self) -> (res: &[Uk2MapEntity])
        ensures
            entity_views(res@) == self.entities_view(),
    {
        self.entities.as_slice()
    }

    pub fn triggers(&self) -> (res: &[[u8; 10]])
        ensures
            trigger_views(res@) == self.triggers_view(),
    {
        self.triggers.as_slice()
    }

    /// Returns whether an entity in this MAP matched. UK2.EXE first
    /// searches a separate global entity list, then the loaded MAP objects.
    pub fn apply_fa(&mut self, values: [u16; 5]) -> (res: bool)
        requires
            old(self).wf(),
        ensures
            final(self).wf(),
            final(self).dims() == old(self).dims(),
            final(self).names() == old(self).names(),
            final(self).header_view() == old(self).header_view(),
            final(self).tiles_view() == old(self).tiles_view(),
            final(self).triggers_view() == old(self).triggers_view(),
            res == exists|i: int| 0 <= i < old(self).entities_view().len() && #[trigger] entity_id(old(self).entities_view()[i]) == values@[3],
            res ==> exists|i: int| {
                &&& 0 <= i < old(self).entities_view().len()
                &&& entity_id(old(self).entities_view()[i]) == values@[3]
                &&& forall|j: int| 0 <= j < i ==> #[trigger] entity_id(old(self).entities_view()[j]) != values@[3]
                &&& final(self).entities_view() == old(self).entities_view().update(i, entity_after_fa(old(self).entities_view()[i], values@))
            },
            !res ==> final(self).entities_view() == old(self).entities_view(),
    {
        let _plen = self.payload.len();
        let mut i: usize = 0;
        while i < self.entities.len()
            invariant
                *self == *old(self),
                old(self).wf(),
                self.payload@.len() <= usize::MAX,
                i <= self.entities@.len(),
                forall|j: int| 0 <= j < i ==> #[trigger] entity_id(self.entities@[j]@) != values@[3],
            decreases self.entities@.len() - i,
        {
            if self.entities[i].id() == values[3] {
                let ghost old_self = *self;
                let mut ent = self.entities[i];
                ent.apply_fa(values);
                self.entities.set(i, ent);
                let start = 22 + self.tiles.len() * 2 + i * 17;
                proof {
                    assert(entity_views(self.entities@) =~= entity_views(old_self.entities@).update(i as int, ent@));
                    assert(start == entity_at(self.tiles@.len() as int, i as int));
                }
                write_run(&mut self.payload, start, ent.raw.as_slice());
                proof {
                    lemma_payload_entity(
                        old_self.payload@,
                        self.payload@,
                        old_self.header_view(),
                        old_self.tiles_view(),
                        old_self.entities_view(),
                        old_self.triggers_view(),
                        i as int,
                        ent@,
                    );
                    assert(entity_id(old_self.entities_view()[i as int]) == values@[3]);
                    assert forall|j: int| 0 <= j < i implies #[trigger] entity_id(old_self.entities_view()[j]) != values@[3] by {
                        assert(old_self.entities_view()[j] == old_self.entities@[j]@);
                    }
                }
                return true;
            }
            i = i + 1;
        }
        proof {
            assert forall|j: int| 0 <= j < self.entities_view().len() implies #[trigger] entity_id(self.entities_view()[j]) != values@[3] by {
                assert(self.entities_view()[j] == self.entities@[j]@);
            }
        }
        false
    }

    /// `sub_1C2E3` changes one map cell. Out-of-range chip or layer values
    /// preserve that component of the existing word, as in the executable.
    pub fn apply_fb(&mut self, x: u16, y: u16, chip: u16, layer: u16) -> (res: bool)
        requires
            old(self).wf(),
        ensures
            final(self).wf(),
            final(self).dims() == old(self).dims(),
            final(self).names() == old(self).names(),
            final(self).header_view() == old(self).header_view(),
            final(self).entities_view() == old(self).entities_view(),
            final(self).triggers_view() == old(self).triggers_view(),
            res == (x < old(self).dims().0 && y < old(self).dims().1),
            res ==> {
                let idx = y * old(self).dims().0 + x;
                final(self).tiles_view() == old(self).tiles_view().update(idx, tile_after_fb(old(self).tiles_view()[idx], chip, layer))
            },
            !res ==> final(self).tiles_view() == old(self).tiles_view(),
    {
        if x >= self.width || y >= self.height {
            return false;
        }
        let ghost old_self = *self;
        let _tlen = self.tiles.len();
        let _plen = self.payload.len();
        assert((y as int) * (self.width as int) + (x as int) < (self.width as int) * (self.height as int)) by (nonlinear_arith)
            requires
                x < self.width,
                y < self.height,
        ;
        let index = (y as usize) * (self.width as usize) + (x as usize);
        let previous = self.tiles[index];
        let chip = if chip <= 0x01ff {
            chip
        } else {
            previous & 0x01ff
        };
        let layer = if layer <= 3 {
            layer
        } else {
            (previous >> 9) & 3
        };
        let updated = (previous & 0xf800) | (layer << 9) | chip;
        self.tiles.set(index, updated);
        let start = 22 + index * 2;
        let pair: [u8; 2] = [(updated % 256) as u8, (updated / 256) as u8];
        write_run(&mut self.payload, start, pair.as_slice());
        proof {
            lemma_payload_tile(
                old_self.payload@,
                self.payload@,
                old_self.header_view(),
                old_self.tiles_view(),
                old_self.entities_view(),
                old_self.triggers_view(),
                index as int,
                updated,
            );
        }
        true
    }

    /// `FC` and `FD` find the first 10-byte trigger whose word at +4 matches
    /// the supplied ID, then set byte +8 to zero or one respectively.
    pub fn set_trigger_enabled(&mut self, id: u16, enabled: bool) -> (res: bool)
        requires
            old(self).wf(),
        ensures
            final(self).wf(),
            final(self).dims() == old(self).dims(),
            final(self).names() == old(self).names(),
            final(self).header_view() == old(self).header_view(),
            final(self).tiles_view() == old(self).tiles_view(),
            final(self).entities_view() == old(self).entities_view(),
            res == exists|i: int| 0 <= i < old(self).triggers_view().len() && #[trigger] trigger_id(old(self).triggers_view()[i]) == id,
            res ==> exists|i: int| {
                &&& 0 <= i < old(self).triggers_view().len()
                &&& trigger_id(old(self).triggers_view()[i]) == id
                &&& forall|j: int| 0 <= j < i ==> #[trigger] trigger_id(old(self).triggers_view()[j]) != id
                &&& final(self).triggers_view() == old(self).triggers_view().update(i, old(self).triggers_view()[i].update(8, if enabled { 1u8 } else { 0u8 }))
            },
            !res ==> final(self).triggers_view() == old(self).triggers_view(),
    {
        let _plen = self.payload.len();
        let mut i: usize = 0;
        while i < self.triggers.len()
            invariant
                *self == *old(self),
                old(self).wf(),
                self.payload@.len() <= usize::MAX,
                i <= self.triggers@.len(),
                forall|j: int| 0 <= j < i ==> #[trigger] trigger_id(self.triggers@[j]@) != id,
            decreases self.triggers@.len() - i,
        {
            let t = self.triggers[i];
            if t[4] as u16 + (t[5] as u16) * 256 == id {
                let ghost old_self = *self;
                let mut t = t;
                let flag: u8 = if enabled { 1 } else { 0 };
                t[8] = flag;
                self.triggers.set(i, t);
                let start = 22 + self.tiles.len() * 2 + self.entities.len() * 17 + i * 10 + 8;
                let one: [u8; 1] = [flag];
                write_run(&mut self.payload, start, one.as_slice());
                proof {
                    assert(t@ =~= old_self.triggers@[i as int]@.update(8, flag));
                    assert(trigger_views(self.triggers@) =~= trigger_views(old_self.triggers@).update(i as int, t@));
                    lemma_payload_trigger(
                        old_self.payload@,
                        self.payload@,
                        old_self.header_view(),
                        old_self.tiles_view(),
                        old_self.entities_view(),
                        old_self.triggers_view(),
                        i as int,
                        flag,
                    );
                    assert(trigger_id(old_self.triggers_view()[i as int]) == id);
                    assert forall|j: int| 0 <= j < i implies #[trigger] trigger_id(old_self.triggers_view()[j]) != id by {
                        assert(old_self.triggers_view()[j] == old_self.triggers@[j]@);
                    }
                }
                return true;
            }
            i = i + 1;
        }
        proof {
            assert forall|j: int| 0 <= j < self.triggers_view().len() implies #[trigger] trigger_id(self.triggers_view()[j]) != id by {
                assert(self.triggers_view()[j] == self.triggers@[j]@);
            }
        }
        false
    }

    pub fn cell_count(&self) -> (res: usize)
        ensures
            res == self.dims().0 * self.dims().1,
    {
        assert(self.width * self.height <= 0xffff * 0xffff) by (nonlinear_arith)
            requires
                self.width <= 0xffff,
                self.height <= 0xffff,
        ;
        (self.width as usize) * (self.height as usize)
    }
}

/// The ID word of an object record.
pub open spec fn entity_id(raw: Seq<u8>) -> u16 {
    le16(raw[6], raw[7])
}

/// The ID word of a trigger record.
pub open spec fn trigger_id(raw: Seq<u8>) -> u16 {
    le16(raw[4], raw[5])
}

/// The cell word that `apply_fb` writes over `previous`.
pub open spec fn tile_after_fb(previous: u16, chip: u16, layer: u16) -> u16 {
    let chip = if chip <= 0x01ff {
        chip
    } else {
        previous & 0x01ff
    };
    let layer = if layer <= 3 {
        layer
    } else {
        (previous >> 9) & 3
    };
    (previous & 0xf800) | (layer << 9) | chip
}

/// The fields of a cell word after `apply_fb`: the chip (low nine bits) is
/// `chip` when it fits, else kept; the layer (bits 9 and 10) is `layer`
/// when it is at most 3, else kept; the top five bits are always kept.
pub proof fn lemma_fb_fields(previous: u16, chip: u16, layer: u16)
    by (bit_vector)
    ensures
        chip <= 0x1ff ==> tile_after_fb(previous, chip, layer) & 0x1ff == chip,
        chip > 0x1ff ==> tile_after_fb(previous, chip, layer) & 0x1ff == previous & 0x1ff,
        layer <= 3 ==> (tile_after_fb(previous, chip, layer) >> 9) & 3 == layer,
        layer > 3 ==> (tile_after_fb(previous, chip, layer) >> 9) & 3 == (previous >> 9) & 3,
        tile_after_fb(previous, chip, layer) & 0xf800 == previous & 0xf800,
{
}

/// Copies `src` over `p` from `start` on.
fn write_run(p: &mut Vec<u8>, start: usize, src: &[u8])
    requires
        start + src@.len() <= old(p)@.len(),
    ensures
        final(p)@.len() == old(p)@.len(),
        forall|j: int|
            0 <= j < old(p)@.len() ==> #[trigger] final(p)@[j] == if start <= j < start + src@.len() {
                src@[j - start]
            } else {
                old(p)@[j]
            },
{
    let _plen = p.len();
    let mut k: usize = 0;
    while k < src.len()
        invariant
            start + src@.len() <= old(p)@.len(),
            old(p)@.len() <= usize::MAX,
            p@.len() == old(p)@.len(),
            k <= src@.len(),
            forall|j: int|
                0 <= j < old(p)@.len() ==> #[trigger] p@[j] == if start <= j < start + k {
                    src@[j - start]
                } else {
                    old(p)@[j]
                },
        decreases src@.len() - k,
    {
        p.set(start + k, src[k]);
        k = k + 1;
    }
}

/// Replacing object record `i` in the parts and the same 17 bytes in the payload keeps them in step.
proof fn lemma_payload_entity(
    p: Seq<u8>,
    p2: Seq<u8>,
    header: Seq<u8>,
    tiles: Seq<u16>,
    es: Seq<Seq<u8>>,
    ts: Seq<Seq<u8>>,
    i: int,
    raw: Seq<u8>,
)
    requires
        payload_matches(p, header, tiles, es, ts),
        0 <= i < es.len(),
        raw.len() == 17,
        p2.len() == p.len(),
        forall|j: int|
            0 <= j < p.len() ==> #[trigger] p2[j] == if entity_at(tiles.len() as int, i) <= j < entity_at(tiles.len() as int, i) + 17 {
                raw[j - entity_at(tiles.len() as int, i)]
            } else {
                p[j]
            },
    ensures
        payload_matches(p2, header, tiles, es.update(i, raw), ts),
{
    let es2 = es.update(i, raw);
    let n = tiles.len() as int;
    assert forall|e: int, k: int| 0 <= e < es2.len() && 0 <= k < 17 implies p2[entity_at(n, e) + k] == #[trigger] es2[e][k] by {
        assert(p2[entity_at(n, e) + k] == p2[entity_at(n, e) + k]);
        if e != i {
            assert(es2[e] == es[e]);
        }
    }
    assert forall|t: int, k: int| 0 <= t < ts.len() && 0 <= k < 10 implies p2[trigger_at(n, es2.len() as int, t) + k]
        == #[trigger] ts[t][k] by {
        assert(p2[trigger_at(n, es.len() as int, t) + k] == p2[trigger_at(n, es.len() as int, t) + k]);
    }
    assert forall|j: int| 0 <= j < tiles.len() implies p2[22 + 2 * j] == lo8(#[trigger] tiles[j]) && p2[23 + 2 * j] == hi8(tiles[j]) by {
        assert(p2[22 + 2 * j] == p2[22 + 2 * j]);
        assert(p2[23 + 2 * j] == p2[23 + 2 * j]);
    }
    assert forall|j: int| 0 <= j < 22 implies p2[j] == #[trigger] header[j] by {
        assert(p2[j] == p2[j]);
    }
    assert forall|e: int| 0 <= e < es2.len() implies (#[trigger] es2[e]).len() == 17 by {
        if e != i {
            assert(es2[e] == es[e]);
        }
    }
}

/// Replacing tile `i` and its two payload bytes keeps the parts and payload in step.
proof fn lemma_payload_tile(
    p: Seq<u8>,
    p2: Seq<u8>,
    header: Seq<u8>,
    tiles: Seq<u16>,
    es: Seq<Seq<u8>>,
    ts: Seq<Seq<u8>>,
    i: int,
    word: u16,
)
    requires
        payload_matches(p, header, tiles, es, ts),
        0 <= i < tiles.len(),
        p2.len() == p.len(),
        forall|j: int|
            0 <= j < p.len() ==> #[trigger] p2[j] == if 22 + 2 * i <= j < 22 + 2 * i + 2 {
                seq![lo8(word), hi8(word)][j - (22 + 2 * i)]
            } else {
                p[j]
            },
    ensures
        payload_matches(p2, header, tiles.update(i, word), es, ts),
{
    let t2 = tiles.update(i, word);
    let n = tiles.len() as int;
    assert forall|e: int, k: int| 0 <= e < es.len() && 0 <= k < 17 implies p2[entity_at(n, e) + k] == #[trigger] es[e][k] by {
        assert(p2[entity_at(n, e) + k] == p2[entity_at(n, e) + k]);
    }
    assert forall|t: int, k: int| 0 <= t < ts.len() && 0 <= k < 10 implies p2[trigger_at(n, es.len() as int, t) + k]
        == #[trigger] ts[t][k] by {
        assert(p2[trigger_at(n, es.len() as int, t) + k] == p2[trigger_at(n, es.len() as int, t) + k]);
    }
    assert forall|j: int| 0 <= j < t2.len() implies p2[22 + 2 * j] == lo8(#[trigger] t2[j]) && p2[23 + 2 * j] == hi8(t2[j]) by {
        assert(p2[22 + 2 * j] == p2[22 + 2 * j]);
        assert(p2[23 + 2 * j] == p2[23 + 2 * j]);
        if j != i {
            assert(t2[j] == tiles[j]);
        }
    }
    assert forall|j: int| 0 <= j < 22 implies p2[j] == #[trigger] header[j] by {
        assert(p2[j] == p2[j]);
    }
}

/// Setting byte 8 of trigger `i` and the same payload byte keeps the parts and payload in step.
proof fn lemma_payload_trigger(
    p: Seq<u8>,
    p2: Seq<u8>,
    header: Seq<u8>,
    tiles: Seq<u16>,
    es: Seq<Seq<u8>>,
    ts: Seq<Seq<u8>>,
    i: int,
    flag: u8,
)
    requires
        payload_matches(p, header, tiles, es, ts),
        0 <= i < ts.len(),
        p2.len() == p.len(),
        forall|j: int|
            0 <= j < p.len() ==> #[trigger] p2[j] == if trigger_at(tiles.len() as int, es.len() as int, i) + 8 <= j < trigger_at(tiles.len() as int, es.len() as int, i) + 9 {
                seq![flag][j - (trigger_at(tiles.len() as int, es.len() as int, i) + 8)]
            } else {
                p[j]
            },
    ensures
        payload_matches(p2, header, tiles, es, ts.update(i, ts[i].update(8, flag))),
{
    let ts2 = ts.update(i, ts[i].update(8, flag));
    let n = tiles.len() as int;
    assert forall|e: int, k: int| 0 <= e < es.len() && 0 <= k < 17 implies p2[entity_at(n, e) + k] == #[trigger] es[e][k] by {
        assert(p2[entity_at(n, e) + k] == p2[entity_at(n, e) + k]);
    }
    assert forall|t: int, k: int| 0 <= t < ts2.len() && 0 <= k < 10 implies p2[trigger_at(n, es.len() as int, t) + k]
        == #[trigger] ts2[t][k] by {
        assert(p2[trigger_at(n, es.len() as int, t) + k] == p2[trigger_at(n, es.len() as int, t) + k]);
        if t != i {
            assert(ts2[t] == ts[t]);
        }
    }
    assert forall|j: int| 0 <= j < tiles.len() implies p2[22 + 2 * j] == lo8(#[trigger] tiles[j]) && p2[23 + 2 * j] == hi8(tiles[j]) by {
        assert(p2[22 + 2 * j] == p2[22 + 2 * j]);
        assert(p2[23 + 2 * j] == p2[23 + 2 * j]);
    }
    assert forall|j: int| 0 <= j < 22 implies p2[j] == #[trigger] header[j] by {
        assert(p2[j] == p2[j]);
    }
    assert forall|t: int| 0 <= t < ts2.len() implies (#[trigger] ts2[t]).len() == 10 by {
        if t != i {
            assert(ts2[t] == ts[t]);
        }
    }
}

/// A decoded resource name, or `None` when it is not valid Shift-JIS.
fn decode_name(raw: &[u8]) -> (res: Option<String>)
    requires
        raw@.len() == 16,
    ensures
        shift_jis_text(name_field(raw@)) == (match res {
            Some(s) => Some(s@),
            None => None::<Seq<char>>,
        }),
{
    let nul = nul_position(raw);
    let mut end = nul;
    while end > 0 && raw[end - 1] == 0x20
        invariant
            end <= nul,
            nul == nul_len(raw@),
            nul <= raw@.len(),
            trimmed_len(raw@, nul as int) == trimmed_len(raw@, end as int),
        decreases end,
    {
        end = end - 1;
    }
    assert(trimmed_len(raw@, end as int) == end);
    let name = vstd::slice::slice_subrange(raw, 0, end);
    assert(name@ =~= name_field(raw@));
    decode_shift_jis(name)
}

/// The tile words read back into bytes are the bytes they were read from.
proof fn lemma_split_word_all(tiles: Seq<u16>, b: Seq<u8>)
    requires
        forall|j: int| 0 <= j < tiles.len() ==> #[trigger] tiles[j] == le16(b[58 + 2 * j], b[59 + 2 * j]),
    ensures
        forall|j: int| 0 <= j < tiles.len() ==> lo8(#[trigger] tiles[j]) == b[58 + 2 * j] && hi8(tiles[j]) == b[59 + 2 * j],
{
    assert forall|j: int| 0 <= j < tiles.len() implies lo8(#[trigger] tiles[j]) == b[58 + 2 * j] && hi8(tiles[j]) == b[59 + 2 * j] by {
        lemma_split_word(b[58 + 2 * j], b[59 + 2 * j]);
    }
}

pub proof fn lemma_split_word(l: u8, h: u8)
    ensures
        lo8(le16(l, h)) == l,
        hi8(le16(l, h)) == h,
{
    assert(l as int + 256 * h as int <= 0xffff) by (nonlinear_arith)
        requires
            l <= 255,
            h <= 255,
    ;
    assert((l as int + 256 * h as int) % 256 == l as int) by (nonlinear_arith)
        requires
            0 <= l <= 255,
            0 <= h <= 255,
    ;
    assert((l as int + 256 * h as int) / 256 == h as int) by (nonlinear_arith)
        requires
            0 <= l <= 255,
            0 <= h <= 255,
    ;
}

} // verus!
