//! UK2 `MMD` / `MMM` music resource wrappers.
//!
//! The score bytes are preserved while the outer file layouts are parsed for
//! resource verification and further driver-format reverse engineering.
use vstd::prelude::*;

use crate::mes::le16;
use crate::sjis::{nul_len, nul_position};
use core::ops::Range;

verus! {

pub const MMM_TRACK_COUNT: usize = 13;
pub const MMM_TRACK_TABLE_BYTES: usize = 26;
pub const MMD_TRACK_COUNT: usize = 18;
pub const MMD_TRACK_TABLE_START: usize = 2;
pub const MMD_TRACK_TABLE_BYTES: usize = 72;
pub const MMD_DIRECTORY_END: usize = 74;
pub const MMD_TITLE_OFFSET: usize = 0x50;

/// One channel stream in a UK2 `.MMM` music resource.
///
/// The table stores big-endian absolute offsets. Values before the end of the
/// table are empty-channel markers found in the shipped files; equal offsets
/// are valid and mean that two channels share a stream.
#[derive(Debug, PartialEq, Eq)]
pub struct MmmTrack {
    pub index: usize,
    pub offset: Option<usize>,
    pub data: Range<usize>,
}

/// One of the 18 channel/control streams in a KAJA `.MMD` score.
///
/// The directory stores a little-endian absolute offset, a key transpose byte,
/// and a MIDI channel byte. Channel `0xff` denotes one of the driver control
/// streams.
#[derive(Debug, PartialEq, Eq)]
pub struct MmdTrack {
    pub slot: usize,
    pub channel: Option<u8>,
    pub key: u8,
    pub offset: usize,
    pub data: Range<usize>,
}

impl Clone for MmmTrack {
    fn clone(&self) -> (res: Self)
        ensures
            res == *self,
    {
        MmmTrack { index: self.index, offset: self.offset, data: self.data.start..self.data.end }
    }
}

impl Clone for MmdTrack {
    fn clone(&self) -> (res: Self)
        ensures
            res == *self,
    {
        MmdTrack {
            slot: self.slot,
            channel: self.channel,
            key: self.key,
            offset: self.offset,
            data: self.data.start..self.data.end,
        }
    }
}

/// One expanded four-byte KAJA MMD command record.
#[derive(Debug, Clone, Copy, PartialEq, Eq)]
pub struct MmdRecord {
    pub bytes: [u8; 4],
}

#[derive(Debug, Clone, Copy, PartialEq, Eq, Structural)]
pub enum Uk2MusicKind {
    Mmd,
    Mmm,
}

/// Reasons a music resource or an MMD track is refused.
#[derive(Debug, Clone, Copy, PartialEq, Eq)]
pub enum MusicError {
    /// The resource has no bytes.
    Empty,
    /// An MMD shorter than its directory or its title field.
    MmdTooShort,
    /// An MMD whose tempo byte is zero.
    ZeroTempo,
    /// The MMD title has no NUL terminator.
    UnterminatedTitle,
    /// The offset of this MMD track lies outside the score data.
    TrackOutside(usize),
    /// This MMD track starts before the previous one.
    NotMonotonic(usize),
    /// This MMD track names a MIDI channel above 15 other than `0xff`.
    BadChannel(usize),
    /// The first MMD track does not start right after the title.
    FirstTrackMisplaced,
    /// An MMM shorter than its offset table.
    MmmTooShort,
    /// An MMD track was asked of an MMM resource.
    NotMmd,
    /// No MMD track has this slot.
    NoSuchTrack(usize),
    /// The track has no `0xfe` end marker.
    NoEndMarker,
    /// A SysEx escape is cut short.
    TruncatedSysex,
    /// A delta record is cut short.
    TruncatedDelta,
}

/// Big-endian word of two bytes.
pub open spec fn be16(hi: u8, lo: u8) -> u16 {
    le16(lo, hi)
}

/// The least value of `s` above `o`, or `dflt` where no value of `s` lies
/// strictly between `o` and `dflt`.
pub open spec fn min_above(s: Seq<int>, o: int, dflt: int) -> int
    decreases s.len(),
{
    if s.len() == 0 {
        dflt
    } else {
        let m = min_above(s.drop_last(), o, dflt);
        let c = s.last();
        if o < c && c < m {
            c
        } else {
            m
        }
    }
}

// ---------------------------------------------------------------- MMM

pub open spec fn mmm_offset(b: Seq<u8>, i: int) -> int {
    be16(b[2 * i], b[2 * i + 1]) as int
}

pub open spec fn mmm_offsets(b: Seq<u8>) -> Seq<int> {
    Seq::new(13, |i: int| mmm_offset(b, i))
}

/// Track `i` of an MMM resource.
pub open spec fn mmm_track(b: Seq<u8>, i: int) -> MmmTrack {
    let off = mmm_offset(b, i);
    if off < 26 || off >= b.len() {
        MmmTrack { index: i as usize, offset: None, data: Range { start: 0, end: 0 } }
    } else {
        MmmTrack {
            index: i as usize,
            offset: Some(off as usize),
            data: Range { start: off as usize, end: min_above(mmm_offsets(b), off, b.len() as int) as usize },
        }
    }
}

// ---------------------------------------------------------------- MMD

pub open spec fn mmd_offset(b: Seq<u8>, s: int) -> int {
    le16(b[2 + 4 * s], b[3 + 4 * s]) as int
}

pub open spec fn mmd_offsets(b: Seq<u8>) -> Seq<int> {
    Seq::new(18, |s: int| mmd_offset(b, s))
}

/// Index of the NUL that ends the title at `0x50`, or the length where there is none.
pub open spec fn mmd_title_end(b: Seq<u8>) -> int {
    0x50 + nul_len(b.subrange(0x50, b.len() as int))
}

pub open spec fn mmd_channel(b: Seq<u8>, s: int) -> Option<u8> {
    if b[5 + 4 * s] == 0xff {
        None
    } else {
        Some(b[5 + 4 * s])
    }
}

/// The check that directory slot `s` fails, if any.
pub open spec fn mmd_slot_error(b: Seq<u8>, s: int) -> Option<MusicError> {
    let off = mmd_offset(b, s);
    if off < mmd_title_end(b) + 1 || off >= b.len() {
        Some(MusicError::TrackOutside(s as usize))
    } else if s > 0 && off < mmd_offset(b, s - 1) {
        Some(MusicError::NotMonotonic(s as usize))
    } else if b[5 + 4 * s] != 0xff && b[5 + 4 * s] >= 16 {
        Some(MusicError::BadChannel(s as usize))
    } else {
        None
    }
}

/// The first failing directory slot from `s` on.
pub open spec fn mmd_directory_error(b: Seq<u8>, s: int) -> Option<MusicError>
    decreases 18 - s,
{
    if s >= 18 || s < 0 {
        None
    } else {
        match mmd_slot_error(b, s) {
            Some(e) => Some(e),
            None => mmd_directory_error(b, s + 1),
        }
    }
}

/// The first check an MMD score fails, in the reader's order.
pub open spec fn mmd_error(b: Seq<u8>) -> Option<MusicError> {
    if b.len() < 81 {
        Some(MusicError::MmdTooShort)
    } else if b[0] == 0 {
        Some(MusicError::ZeroTempo)
    } else if mmd_title_end(b) >= b.len() {
        Some(MusicError::UnterminatedTitle)
    } else {
        match mmd_directory_error(b, 0) {
            Some(e) => Some(e),
            None => if mmd_offset(b, 0) != mmd_title_end(b) + 1 {
                Some(MusicError::FirstTrackMisplaced)
            } else {
                None
            },
        }
    }
}

/// Track `s` of an MMD score.
pub open spec fn mmd_track(b: Seq<u8>, s: int) -> MmdTrack {
    let off = mmd_offset(b, s);
    MmdTrack {
        slot: s as usize,
        channel: mmd_channel(b, s),
        key: b[4 + 4 * s],
        offset: off as usize,
        data: Range { start: off as usize, end: min_above(mmd_offsets(b), off, b.len() as int) as usize },
    }
}

/// The first check a music resource of `kind` fails.
pub open spec fn music_error(kind: Uk2MusicKind, b: Seq<u8>) -> Option<MusicError> {
    if b.len() == 0 {
        Some(MusicError::Empty)
    } else {
        match kind {
            Uk2MusicKind::Mmd => mmd_error(b),
            Uk2MusicKind::Mmm => if b.len() < 26 {
                Some(MusicError::MmmTooShort)
            } else {
                None
            },
        }
    }
}

/// What a parsed music resource holds.
pub struct MusicView {
    pub kind: Uk2MusicKind,
    pub bytes: Seq<u8>,
    pub mmd_tempo: Option<u8>,
    pub mmd_key: Option<u8>,
    pub mmd_title_end: Option<int>,
    pub mmd_tracks: Seq<MmdTrack>,
    pub mmm_tracks: Seq<MmmTrack>,
}

/// The parse of a resource that passes its checks.
pub open spec fn music_model(kind: Uk2MusicKind, b: Seq<u8>) -> MusicView {
    match kind {
        Uk2MusicKind::Mmd => MusicView {
            kind,
            bytes: b,
            mmd_tempo: Some(b[0]),
            mmd_key: Some(b[1]),
            mmd_title_end: Some(mmd_title_end(b)),
            mmd_tracks: Seq::new(18, |s: int| mmd_track(b, s)),
            mmm_tracks: Seq::empty(),
        },
        Uk2MusicKind::Mmm => MusicView {
            kind,
            bytes: b,
            mmd_tempo: None,
            mmd_key: None,
            mmd_title_end: None,
            mmd_tracks: Seq::empty(),
            mmm_tracks: Seq::new(13, |i: int| mmm_track(b, i)),
        },
    }
}

#[derive(Debug, Clone, PartialEq, Eq)]
pub struct Uk2MusicFile {
    kind: Uk2MusicKind,
    bytes: Vec<u8>,
    mmd_tempo: Option<u8>,
    mmd_key: Option<u8>,
    mmd_title_end: Option<usize>,
    mmd_tracks: Vec<MmdTrack>,
    mmm_tracks: Vec<MmmTrack>,
}

impl View for Uk2MusicFile {
    type V = MusicView;

    closed spec fn view(&self) -> MusicView {
        MusicView {
            kind: self.kind,
            bytes: self.bytes@,
            mmd_tempo: self.mmd_tempo,
            mmd_key: self.mmd_key,
            mmd_title_end: match self.mmd_title_end {
                Some(e) => Some(e as int),
                None => None,
            },
            mmd_tracks: self.mmd_tracks@,
            mmm_tracks: self.mmm_tracks@,
        }
    }
}

// ---------------------------------------------------------------- MMD records

/// Which bit of a delta lead byte selects record byte `i`.
pub open spec fn delta_mask(i: int) -> u8 {
    if i == 0 {
        8
    } else if i == 1 {
        4
    } else if i == 2 {
        2
    } else {
        1
    }
}

/// Applies the delta bytes from `c` on to `prev`, starting at record byte `i`:
/// the new record and the cursor after it.
pub open spec fn mmd_delta(b: Seq<u8>, c: int, prev: Seq<u8>, lead: u8, i: int) -> Result<(Seq<u8>, int), MusicError>
    decreases 4 - i,
{
    if i >= 4 || i < 0 {
        Ok((prev, c))
    } else if lead & delta_mask(i) != 0 {
        if c >= b.len() {
            Err(MusicError::TruncatedDelta)
        } else {
            mmd_delta(b, c + 1, prev.update(i, b[c]), lead, i + 1)
        }
    } else {
        mmd_delta(b, c, prev, lead, i + 1)
    }
}

/// The record that starts at `c`, the cursor after it, and whether a SysEx
/// escape continues.
pub open spec fn mmd_step(b: Seq<u8>, c: int, prev: Seq<u8>, sysex: bool) -> Result<(Seq<u8>, int, bool), MusicError> {
    if sysex {
        if b.len() - c < 2 {
            Err(MusicError::TruncatedSysex)
        } else {
            let p = prev.update(2, b[c]).update(3, b[c + 1]);
            Ok((p, c + 2, p[3] != 0xf7))
        }
    } else if b[c] == 0x98 {
        Ok((prev.update(0, 0x98), c + 1, true))
    } else if b[c] & 0xf0 == 0x80 {
        match mmd_delta(b, c + 1, prev, b[c], 0) {
            Ok((p, c2)) => Ok((p, c2, false)),
            Err(e) => Err(e),
        }
    } else {
        let n = if b.len() - c < 4 {
            b.len() - c
        } else {
            4
        };
        Ok((Seq::new(4, |k: int| if k < n { b[c + k] } else { 0u8 }), c + n, false))
    }
}

/// The records from cursor `c` to the end of `b`.
pub open spec fn mmd_decode(b: Seq<u8>, c: int, prev: Seq<u8>, sysex: bool) -> Result<Seq<Seq<u8>>, MusicError>
    decreases b.len() - c,
{
    if c >= b.len() || c < 0 {
        Ok(Seq::empty())
    } else {
        match mmd_step(b, c, prev, sysex) {
            Err(e) => Err(e),
            Ok((p, c2, s2)) => if c2 <= c || c2 > b.len() {
                Ok(Seq::empty())
            } else {
                match mmd_decode(b, c2, p, s2) {
                    Ok(rest) => Ok(seq![p] + rest),
                    Err(e) => Err(e),
                }
            },
        }
    }
}

/// Index of the first `0xfe`, or `None`.
pub open spec fn end_marker(b: Seq<u8>) -> Option<int> {
    if exists|i: int| 0 <= i < b.len() && b[i] == 0xfe {
        Some(choose|i: int| 0 <= i < b.len() && b[i] == 0xfe && forall|j: int| 0 <= j < i ==> b[j] != 0xfe)
    } else {
        None
    }
}

/// The records of an MMD track, each as its four bytes.
pub open spec fn mmd_records(b: Seq<u8>) -> Result<Seq<Seq<u8>>, MusicError> {
    match end_marker(b) {
        None => Err(MusicError::NoEndMarker),
        Some(end) => mmd_decode(b.take(end), 0, seq![0u8, 0u8, 0u8, 0u8], false),
    }
}

pub open spec fn record_views(rs: Seq<MmdRecord>) -> Seq<Seq<u8>> {
    rs.map_values(|r: MmdRecord| r.bytes@)
}

/// Prefixes records to a decoding result.
pub open spec fn after(pre: Seq<Seq<u8>>, r: Result<Seq<Seq<u8>>, MusicError>) -> Result<Seq<Seq<u8>>, MusicError> {
    match r {
        Ok(rest) => Ok(pre + rest),
        Err(e) => Err(e),
    }
}

proof fn lemma_delta_advances(b: Seq<u8>, c: int, prev: Seq<u8>, lead: u8, i: int)
    requires
        prev.len() == 4,
    ensures
        mmd_delta(b, c, prev, lead, i) matches Ok((p, c2)) ==> c2 >= c && p.len() == 4,
    decreases 4 - i,
{
    if i >= 4 || i < 0 {
    } else if lead & delta_mask(i) != 0 {
        if c < b.len() {
            lemma_delta_advances(b, c + 1, prev.update(i, b[c]), lead, i + 1);
        }
    } else {
        lemma_delta_advances(b, c, prev, lead, i + 1);
    }
}

proof fn lemma_nibble_bits(lead: u8)
    by (bit_vector)
    ensures
        lead & 0x0f == 8 ==> lead & 8 != 0 && lead & 4 == 0 && lead & 2 == 0 && lead & 1 == 0,
        lead & 0x0f == 4 ==> lead & 8 == 0 && lead & 4 != 0 && lead & 2 == 0 && lead & 1 == 0,
        lead & 0x0f == 2 ==> lead & 8 == 0 && lead & 4 == 0 && lead & 2 != 0 && lead & 1 == 0,
        lead & 0x0f == 1 ==> lead & 8 == 0 && lead & 4 == 0 && lead & 2 == 0 && lead & 1 != 0,
        lead & 0x0f == 0 ==> lead & 8 == 0 && lead & 4 == 0 && lead & 2 == 0 && lead & 1 == 0,
        lead & 0x0f == 0x0f ==> lead & 8 != 0 && lead & 4 != 0 && lead & 2 != 0 && lead & 1 != 0,
        lead & 0x0f == 0x09 ==> lead & 8 != 0 && lead & 4 == 0 && lead & 2 == 0 && lead & 1 != 0,
{
}

/// A delta record whose lead has one low bit set replaces one byte of the
/// previous record with the next byte of the stream: bit 3 (`0x08`) byte 0,
/// bit 2 byte 1, bit 1 byte 2 and bit 0 (`0x01`) byte 3.  A lead with no
/// low bit set repeats the previous record and reads nothing.
pub proof fn lemma_delta_bit_selects_byte(b: Seq<u8>, c: int, prev: Seq<u8>, lead: u8)
    requires
        prev.len() == 4,
        0 <= c < b.len(),
    ensures
        lead & 0x0f == 8 ==> mmd_delta(b, c, prev, lead, 0) == Ok::<(Seq<u8>, int), MusicError>((prev.update(0, b[c]), c + 1)),
        lead & 0x0f == 4 ==> mmd_delta(b, c, prev, lead, 0) == Ok::<(Seq<u8>, int), MusicError>((prev.update(1, b[c]), c + 1)),
        lead & 0x0f == 2 ==> mmd_delta(b, c, prev, lead, 0) == Ok::<(Seq<u8>, int), MusicError>((prev.update(2, b[c]), c + 1)),
        lead & 0x0f == 1 ==> mmd_delta(b, c, prev, lead, 0) == Ok::<(Seq<u8>, int), MusicError>((prev.update(3, b[c]), c + 1)),
        lead & 0x0f == 0 ==> mmd_delta(b, c, prev, lead, 0) == Ok::<(Seq<u8>, int), MusicError>((prev, c)),
        lead & 0x0f == 0x0f && c + 4 <= b.len() ==> mmd_delta(b, c, prev, lead, 0) == Ok::<(Seq<u8>, int), MusicError>(
            (seq![b[c], b[c + 1], b[c + 2], b[c + 3]], c + 4),
        ),
        lead & 0x0f == 0x09 && c + 2 <= b.len() ==> mmd_delta(b, c, prev, lead, 0) == Ok::<(Seq<u8>, int), MusicError>(
            (seq![b[c], prev[1], prev[2], b[c + 1]], c + 2),
        ),
{
    lemma_nibble_bits(lead);
    reveal_with_fuel(mmd_delta, 5);
    if lead & 0x0f == 0x0f && c + 4 <= b.len() {
        assert(prev.update(0, b[c]).update(1, b[c + 1]).update(2, b[c + 2]).update(3, b[c + 3]) =~= seq![
            b[c],
            b[c + 1],
            b[c + 2],
            b[c + 3],
        ]);
    }
    if lead & 0x0f == 0x09 && c + 2 <= b.len() {
        assert(prev.update(0, b[c]).update(3, b[c + 1]) =~= seq![b[c], prev[1], prev[2], b[c + 1]]);
    }
}

/// Reads the delta bytes of a record whose lead byte is at `cursor - 1`.
fn delta_record(bytes: &[u8], cursor: usize, prev: [u8; 4], lead: u8) -> (res: Result<([u8; 4], usize), MusicError>)
    ensures
        match res {
            Ok((p, c2)) => mmd_delta(bytes@, cursor as int, prev@, lead, 0) == Ok::<(Seq<u8>, int), MusicError>((p@, c2 as int)),
            Err(e) => mmd_delta(bytes@, cursor as int, prev@, lead, 0) == Err::<(Seq<u8>, int), MusicError>(e),
        },
{
    let masks: [u8; 4] = [8, 4, 2, 1];
    let mut p = prev;
    let mut c = cursor;
    let mut i: usize = 0;
    while i < 4
        invariant
            i <= 4,
            c <= bytes@.len() || c == cursor,
            masks@ == seq![8u8, 4u8, 2u8, 1u8],
            mmd_delta(bytes@, cursor as int, prev@, lead, 0) == mmd_delta(bytes@, c as int, p@, lead, i as int),
        decreases 4 - i,
    {
        assert(masks@[i as int] == delta_mask(i as int));
        if lead & masks[i] != 0 {
            if c >= bytes.len() {
                return Err(MusicError::TruncatedDelta);
            }
            p[i] = bytes[c];
            c = c + 1;
        }
        i = i + 1;
    }
    Ok((p, c))
}

/// One record from `cursor`.
fn mmd_step_exec(bytes: &[u8], cursor: usize, prev: [u8; 4], sysex: bool) -> (res: Result<([u8; 4], usize, bool), MusicError>)
    requires
        cursor < bytes@.len(),
    ensures
        match res {
            Ok((p, c2, s2)) => mmd_step(bytes@, cursor as int, prev@, sysex) == Ok::<(Seq<u8>, int, bool), MusicError>((p@, c2 as int, s2))
                && cursor < c2 <= bytes@.len(),
            Err(e) => mmd_step(bytes@, cursor as int, prev@, sysex) == Err::<(Seq<u8>, int, bool), MusicError>(e),
        },
{
    let mut p = prev;
    if sysex {
        if bytes.len() - cursor < 2 {
            return Err(MusicError::TruncatedSysex);
        }
        p[2] = bytes[cursor];
        p[3] = bytes[cursor + 1];
        let more = p[3] != 0xf7;
        assert(p@ =~= prev@.update(2, bytes@[cursor as int]).update(3, bytes@[cursor + 1]));
        return Ok((p, cursor + 2, more));
    }
    let lead = bytes[cursor];
    if lead == 0x98 {
        p[0] = lead;
        assert(p@ =~= prev@.update(0, 0x98));
        return Ok((p, cursor + 1, true));
    } else if lead & 0xf0 == 0x80 {
        let (q, c2) = delta_record(bytes, cursor + 1, prev, lead)?;
        proof {
            lemma_delta_advances(bytes@, cursor + 1, prev@, lead, 0);
            lemma_delta_within(bytes@, cursor + 1, prev@, lead, 0);
        }
        return Ok((q, c2, false));
    }
    let available = if bytes.len() - cursor < 4 {
        bytes.len() - cursor
    } else {
        4
    };
    let mut q: [u8; 4] = [0u8; 4];
    let n = bytes.len();
    let mut k: usize = 0;
    while k < available
        invariant
            n == bytes@.len(),
            available <= 4,
            cursor + available <= bytes@.len(),
            k <= available,
            forall|j: int| 0 <= j < 4 ==> q@[j] == if j < k { bytes@[cursor + j] } else { 0u8 },
        decreases available - k,
    {
        q[k] = bytes[cursor + k];
        k = k + 1;
    }
    assert(q@ =~= Seq::new(4, |j: int| if j < available { bytes@[cursor + j] } else { 0u8 }));
    Ok((q, cursor + available, false))
}

proof fn lemma_delta_within(b: Seq<u8>, c: int, prev: Seq<u8>, lead: u8, i: int)
    requires
        c <= b.len(),
    ensures
        mmd_delta(b, c, prev, lead, i) matches Ok((p, c2)) ==> c2 <= b.len(),
    decreases 4 - i,
{
    if i >= 4 || i < 0 {
    } else if lead & delta_mask(i) != 0 {
        if c < b.len() {
            lemma_delta_within(b, c + 1, prev.update(i, b[c]), lead, i + 1);
        }
    } else {
        lemma_delta_within(b, c, prev, lead, i + 1);
    }
}

/// Expand the delta-compressed records of an MMD track through its `0xfe`
/// end marker. The record bytes retain the driver's command encoding.
pub fn decode_mmd_records(bytes: &[u8]) -> (res: Result<Vec<MmdRecord>, MusicError>)
    ensures
        match res {
            Ok(rs) => mmd_records(bytes@) == Ok::<Seq<Seq<u8>>, MusicError>(record_views(rs@)),
            Err(e) => mmd_records(bytes@) == Err::<Seq<Seq<u8>>, MusicError>(e),
        },
{
    let mut end: usize = 0;
    while end < bytes.len() && bytes[end] != 0xfe
        invariant
            end <= bytes@.len(),
            forall|j: int| 0 <= j < end ==> bytes@[j] != 0xfe,
        decreases bytes@.len() - end,
    {
        end = end + 1;
    }
    if end == bytes.len() {
        return Err(MusicError::NoEndMarker);
    }
    proof {
        let e = end as int;
        assert(bytes@[e] == 0xfe);
        let k = choose|i: int| 0 <= i < bytes@.len() && bytes@[i] == 0xfe && forall|j: int| 0 <= j < i ==> bytes@[j] != 0xfe;
        if k < e {
        } else if k > e {
        }
        assert(end_marker(bytes@) == Some(e));
    }
    let body = vstd::slice::slice_subrange(bytes, 0, end);
    assert(body@ =~= bytes@.take(end as int));
    let mut records: Vec<MmdRecord> = Vec::new();
    let mut cursor: usize = 0;
    let mut previous: [u8; 4] = [0u8; 4];
    let mut sysex = false;
    assert(previous@ =~= seq![0u8, 0u8, 0u8, 0u8]);
    while cursor < body.len()
        invariant
            cursor <= body@.len(),
            previous@.len() == 4,
            mmd_records(bytes@) == after(record_views(records@), mmd_decode(body@, cursor as int, previous@, sysex)),
            end_marker(bytes@) == Some(end as int),
            body@ == bytes@.take(end as int),
        decreases body@.len() - cursor,
    {
        let ghost before = records@;
        match mmd_step_exec(body, cursor, previous, sysex) {
            Err(e) => {
                return Err(e);
            },
            Ok((p, c2, s2)) => {
                records.push(MmdRecord { bytes: p });
                proof {
                    assert(record_views(records@) =~= record_views(before) + seq![p@]);
                    let r = mmd_decode(body@, c2 as int, p@, s2);
                    assert(mmd_decode(body@, cursor as int, previous@, sysex) == after(seq![p@], r));
                    match r {
                        Ok(rest) => {
                            assert(record_views(before) + (seq![p@] + rest) =~= record_views(records@) + rest);
                        },
                        Err(_) => {},
                    }
                }
                previous = p;
                cursor = c2;
                sysex = s2;
            },
        }
    }
    proof {
        assert(record_views(records@) + Seq::<Seq<u8>>::empty() =~= record_views(records@));
    }
    Ok(records)
}

// ---------------------------------------------------------------- directory parsing

pub open spec fn ints(v: Seq<usize>) -> Seq<int> {
    v.map_values(|x: usize| x as int)
}

/// The least entry of `offs` above `o`, or `dflt` where none lies below it.
fn min_above_exec(offs: &Vec<usize>, o: usize, dflt: usize) -> (r: usize)
    ensures
        r as int == min_above(ints(offs@), o as int, dflt as int),
        r <= dflt,
{
    let mut best = dflt;
    let mut j: usize = 0;
    while j < offs.len()
        invariant
            j <= offs@.len(),
            best as int == min_above(ints(offs@).take(j as int), o as int, dflt as int),
            best <= dflt,
        decreases offs@.len() - j,
    {
        proof {
            assert(ints(offs@).take(j + 1).drop_last() =~= ints(offs@).take(j as int));
        }
        if o < offs[j] && offs[j] < best {
            best = offs[j];
        }
        j = j + 1;
    }
    assert(ints(offs@).take(offs@.len() as int) =~= ints(offs@));
    best
}

fn parse_mmm_tracks(bytes: &[u8]) -> (res: Vec<MmmTrack>)
    requires
        bytes@.len() >= 26,
    ensures
        res@ == Seq::new(13, |i: int| mmm_track(bytes@, i)),
{
    let mut offsets: Vec<usize> = Vec::new();
    let mut i: usize = 0;
    while i < 13
        invariant
            bytes@.len() >= 26,
            i <= 13,
            offsets@.len() == i,
            forall|j: int| 0 <= j < i ==> #[trigger] offsets@[j] as int == mmm_offset(bytes@, j),
        decreases 13 - i,
    {
        offsets.push(bytes[2 * i + 1] as usize + (bytes[2 * i] as usize) * 256);
        i = i + 1;
    }
    assert(ints(offsets@) =~= mmm_offsets(bytes@));
    let len = bytes.len();
    let mut tracks: Vec<MmmTrack> = Vec::new();
    let mut index: usize = 0;
    while index < 13
        invariant
            len == bytes@.len(),
            offsets@.len() == 13,
            ints(offsets@) == mmm_offsets(bytes@),
            index <= 13,
            tracks@.len() == index,
            forall|j: int| 0 <= j < index ==> #[trigger] tracks@[j] == mmm_track(bytes@, j),
        decreases 13 - index,
    {
        let offset = offsets[index];
        assert(offset as int == mmm_offsets(bytes@)[index as int]);
        if offset < 26 || offset >= len {
            tracks.push(MmmTrack { index, offset: None, data: 0..0 });
        } else {
            let end = min_above_exec(&offsets, offset, len);
            tracks.push(MmmTrack { index, offset: Some(offset), data: offset..end });
        }
        index = index + 1;
    }
    assert(tracks@ =~= Seq::new(13, |i: int| mmm_track(bytes@, i)));
    tracks
}

fn parse_mmd_tracks(bytes: &[u8]) -> (res: Result<(u8, u8, usize, Vec<MmdTrack>), MusicError>)
    ensures
        match res {
            Ok((tempo, key, title_end, tracks)) => {
                &&& mmd_error(bytes@) is None
                &&& tempo == bytes@[0]
                &&& key == bytes@[1]
                &&& title_end == mmd_title_end(bytes@)
                &&& tracks@ == Seq::new(18, |s: int| mmd_track(bytes@, s))
            },
            Err(e) => mmd_error(bytes@) == Some(e),
        },
{
    let len = bytes.len();
    if len < 81 {
        return Err(MusicError::MmdTooShort);
    }
    let tempo = bytes[0];
    let key = bytes[1];
    if tempo == 0 {
        return Err(MusicError::ZeroTempo);
    }
    let title = vstd::slice::slice_subrange(bytes, 0x50, len);
    let title_end = 0x50 + nul_position(title);
    if title_end == len {
        return Err(MusicError::UnterminatedTitle);
    }
    let title_data_end = title_end + 1;
    let mut offsets: Vec<usize> = Vec::new();
    let mut previous_offset: usize = 0;
    let mut slot: usize = 0;
    while slot < 18
        invariant
            len == bytes@.len(),
            len >= 81,
            bytes@[0] != 0,
            title_end == mmd_title_end(bytes@),
            title_end < len,
            title_data_end == title_end + 1,
            slot <= 18,
            offsets@.len() == slot,
            forall|j: int| 0 <= j < slot ==> #[trigger] offsets@[j] as int == mmd_offset(bytes@, j),
            previous_offset == if slot == 0 { 0 } else { mmd_offset(bytes@, slot - 1) },
            mmd_directory_error(bytes@, 0) == mmd_directory_error(bytes@, slot as int),
        decreases 18 - slot,
    {
        let start = 2 + slot * 4;
        let offset = bytes[start] as usize + (bytes[start + 1] as usize) * 256;
        let channel_id = bytes[start + 3];
        if offset < title_data_end || offset >= len {
            return Err(MusicError::TrackOutside(slot));
        }
        if offset < previous_offset {
            return Err(MusicError::NotMonotonic(slot));
        }
        if channel_id != 0xff && channel_id >= 16 {
            return Err(MusicError::BadChannel(slot));
        }
        previous_offset = offset;
        offsets.push(offset);
        slot = slot + 1;
    }
    assert(ints(offsets@) =~= mmd_offsets(bytes@));
    let mut tracks: Vec<MmdTrack> = Vec::new();
    let mut s: usize = 0;
    while s < 18
        invariant
            len == bytes@.len(),
            len >= 81,
            offsets@.len() == 18,
            ints(offsets@) == mmd_offsets(bytes@),
            s <= 18,
            tracks@.len() == s,
            forall|j: int| 0 <= j < s ==> #[trigger] tracks@[j] == mmd_track(bytes@, j),
        decreases 18 - s,
    {
        let offset = offsets[s];
        assert(offset as int == mmd_offsets(bytes@)[s as int]);
        let end = min_above_exec(&offsets, offset, len);
        let channel_id = bytes[5 + 4 * s];
        let channel = if channel_id == 0xff {
            None
        } else {
            Some(channel_id)
        };
        tracks.push(MmdTrack { slot: s, channel, key: bytes[4 + 4 * s], offset, data: offset..end });
        s = s + 1;
    }
    if offsets[0] != title_data_end {
        return Err(MusicError::FirstTrackMisplaced);
    }
    assert(tracks@ =~= Seq::new(18, |s: int| mmd_track(bytes@, s)));
    Ok((tempo, key, title_end, tracks))
}

impl Uk2MusicFile {
    pub fn from_bytes(kind: Uk2MusicKind, bytes: Vec<u8>) -> (res: Result<Self, MusicError>)
        ensures
            match res {
                Ok(f) => music_error(kind, bytes@) is None && f@ == music_model(kind, bytes@),
                Err(e) => music_error(kind, bytes@) == Some(e),
            },
    {
        if bytes.len() == 0 {
            return Err(MusicError::Empty);
        }
        match kind {
            Uk2MusicKind::Mmd => {
                let (tempo, key, title_end, tracks) = parse_mmd_tracks(bytes.as_slice())?;
                let f = Uk2MusicFile {
                    kind,
                    bytes,
                    mmd_tempo: Some(tempo),
                    mmd_key: Some(key),
                    mmd_title_end: Some(title_end),
                    mmd_tracks: tracks,
                    mmm_tracks: Vec::new(),
                };
                assert(f@ == music_model(kind, f.bytes@));
                Ok(f)
            },
            Uk2MusicKind::Mmm => {
                if bytes.len() < 26 {
                    return Err(MusicError::MmmTooShort);
                }
                let tracks = parse_mmm_tracks(bytes.as_slice());
                let f = Uk2MusicFile {
                    kind,
                    bytes,
                    mmd_tempo: None,
                    mmd_key: None,
                    mmd_title_end: None,
                    mmd_tracks: Vec::new(),
                    mmm_tracks: tracks,
                };
                assert(f@ == music_model(kind, f.bytes@));
                Ok(f)
            },
        }
    }

    pub fn kind(&self) -> (res: Uk2MusicKind)
        ensures
            res == self@.kind,
    {
        self.kind
    }

    pub fn bytes(&self) -> (res: &[u8])
        ensures
            res@ == self@.bytes,
    {
        self.bytes.as_slice()
    }

    /// The 13 channel entries in an `.MMM` score. MMD resources use a separate
    /// driver format and return an empty slice here.
    pub fn mmm_tracks(&self) -> (res: &[MmmTrack])
        ensures
            res@ == self@.mmm_tracks,
    {
        self.mmm_tracks.as_slice()
    }

    /// MMD score tempo from byte 0.
    pub fn mmd_tempo(&self) -> (res: Option<u8>)
        ensures
            res == self@.mmd_tempo,
    {
        self.mmd_tempo
    }

    /// Global key/transpose value from byte 1.
    pub fn mmd_key(&self) -> (res: Option<u8>)
        ensures
            res == self@.mmd_key,
    {
        self.mmd_key
    }

    /// Raw title bytes from offset `0x50` through the NUL terminator.
    pub fn mmd_title(&self) -> (res: Option<&[u8]>)
        ensures
            match self@.mmd_title_end {
                Some(end) => if 0x50 <= end <= self@.bytes.len() {
                    res is Some && res.unwrap()@ == self@.bytes.subrange(0x50, end)
                } else {
                    res is None
                },
                None => res is None,
            },
    {
        match self.mmd_title_end {
            Some(end) => {
                if 0x50 <= end && end <= self.bytes.len() {
                    Some(vstd::slice::slice_subrange(self.bytes.as_slice(), 0x50, end))
                } else {
                    None
                }
            },
            None => None,
        }
    }

    /// The 18 MMD channel/control streams. MMM resources return an empty slice.
    pub fn mmd_tracks(&self) -> (res: &[MmdTrack])
        ensures
            res@ == self@.mmd_tracks,
    {
        self.mmd_tracks.as_slice()
    }

    /// Bytes for an MMD channel/control stream. MMD events are still encoded
    /// in KAJA's driver format; this only returns its bounded directory slice.
    pub fn mmd_track_bytes(&self, slot: usize) -> (res: Option<&[u8]>)
        ensures
            match range_of(self@.mmd_tracks, slot as int, self@.bytes.len() as int) {
                Some((a, b)) => res is Some && res.unwrap()@ == self@.bytes.subrange(a, b),
                None => res is None,
            },
    {
        if slot >= self.mmd_tracks.len() {
            return None;
        }
        let data = &self.mmd_tracks[slot].data;
        if data.start <= data.end && data.end <= self.bytes.len() {
            Some(vstd::slice::slice_subrange(self.bytes.as_slice(), data.start, data.end))
        } else {
            None
        }
    }

    /// Expand the delta-compressed records in an MMD track through its `0xfe`
    /// end marker. The record bytes retain the driver's command encoding.
    pub fn decode_mmd_track(&self, slot: usize) -> (res: Result<Vec<MmdRecord>, MusicError>)
        ensures
            self@.kind != Uk2MusicKind::Mmd ==> res == Err::<Vec<MmdRecord>, MusicError>(MusicError::NotMmd),
            self@.kind == Uk2MusicKind::Mmd ==> match range_of(self@.mmd_tracks, slot as int, self@.bytes.len() as int) {
                None => res == Err::<Vec<MmdRecord>, MusicError>(MusicError::NoSuchTrack(slot)),
                Some((a, b)) => match res {
                    Ok(rs) => mmd_records(self@.bytes.subrange(a, b)) == Ok::<Seq<Seq<u8>>, MusicError>(record_views(rs@)),
                    Err(e) => mmd_records(self@.bytes.subrange(a, b)) == Err::<Seq<Seq<u8>>, MusicError>(e),
                },
            },
    {
        if self.kind != Uk2MusicKind::Mmd {
            return Err(MusicError::NotMmd);
        }
        match self.mmd_track_bytes(slot) {
            None => Err(MusicError::NoSuchTrack(slot)),
            Some(bytes) => decode_mmd_records(bytes),
        }
    }

    /// Bytes for a parsed MMM channel. Returns `None` for an empty marker or
    /// for MMD resources.
    pub fn mmm_track_bytes(&self, track: usize) -> (res: Option<&[u8]>)
        ensures
            match mmm_range_of(self@.mmm_tracks, track as int, self@.bytes.len() as int) {
                Some((a, b)) => res is Some && res.unwrap()@ == self@.bytes.subrange(a, b),
                None => res is None,
            },
    {
        if track >= self.mmm_tracks.len() {
            return None;
        }
        let t = &self.mmm_tracks[track];
        if t.offset.is_none() {
            return None;
        }
        if t.data.start <= t.data.end && t.data.end <= self.bytes.len() {
            Some(vstd::slice::slice_subrange(self.bytes.as_slice(), t.data.start, t.data.end))
        } else {
            None
        }
    }

    /// The resource read as little-endian words (a trailing odd byte is dropped).
    pub fn words_le(&self) -> (res: Vec<u16>)
        ensures
            res@.len() == self@.bytes.len() / 2,
            forall|i: int| 0 <= i < res@.len() ==> #[trigger] res@[i] == le16(self@.bytes[2 * i], self@.bytes[2 * i + 1]),
    {
        let mut out: Vec<u16> = Vec::new();
        let len = self.bytes.len();
        let n = len / 2;
        let mut i: usize = 0;
        while i < n
            invariant
                len == self.bytes@.len(),
                n == len / 2,
                i <= n,
                out@.len() == i,
                forall|j: int| 0 <= j < i ==> #[trigger] out@[j] == le16(self.bytes@[2 * j], self.bytes@[2 * j + 1]),
            decreases n - i,
        {
            out.push(self.bytes[2 * i] as u16 + (self.bytes[2 * i + 1] as u16) * 256);
            i = i + 1;
        }
        out
    }

    /// The resource read as big-endian words (a trailing odd byte is dropped).
    pub fn words_be(&self) -> (res: Vec<u16>)
        ensures
            res@.len() == self@.bytes.len() / 2,
            forall|i: int| 0 <= i < res@.len() ==> #[trigger] res@[i] == be16(self@.bytes[2 * i], self@.bytes[2 * i + 1]),
    {
        let mut out: Vec<u16> = Vec::new();
        let len = self.bytes.len();
        let n = len / 2;
        let mut i: usize = 0;
        while i < n
            invariant
                len == self.bytes@.len(),
                n == len / 2,
                i <= n,
                out@.len() == i,
                forall|j: int| 0 <= j < i ==> #[trigger] out@[j] == be16(self.bytes@[2 * j], self.bytes@[2 * j + 1]),
            decreases n - i,
        {
            out.push(self.bytes[2 * i + 1] as u16 + (self.bytes[2 * i] as u16) * 256);
            i = i + 1;
        }
        out
    }
}

/// The byte range of MMD track `slot`, where there is such a track and its
/// range lies in the resource.
pub open spec fn range_of(tracks: Seq<MmdTrack>, slot: int, len: int) -> Option<(int, int)> {
    if 0 <= slot < tracks.len() && tracks[slot].data.start <= tracks[slot].data.end <= len {
        Some((tracks[slot].data.start as int, tracks[slot].data.end as int))
    } else {
        None
    }
}

/// The byte range of MMM track `track`, where it is not an empty marker and
/// its range lies in the resource.
pub open spec fn mmm_range_of(tracks: Seq<MmmTrack>, track: int, len: int) -> Option<(int, int)> {
    if 0 <= track < tracks.len() && tracks[track].offset is Some && tracks[track].data.start
        <= tracks[track].data.end <= len {
        Some((tracks[track].data.start as int, tracks[track].data.end as int))
    } else {
        None
    }
}

} // verus!
