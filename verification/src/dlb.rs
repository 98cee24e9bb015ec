//! UK2 `DLB` archive reader.
use vstd::prelude::*;

use crate::mes::le16;
use crate::sjis::{decode_shift_jis, eq_ignore_ascii_case, eq_ignore_case, nul_len, nul_position, shift_jis_text};

verus! {

/// `<< dlb file Ver1.00>>\0`.
pub const DLB_MAGIC: [u8; 22] = [
    0x3c, 0x3c, 0x20, 0x64, 0x6c, 0x62, 0x20, 0x66, 0x69, 0x6c, 0x65, 0x20, 0x56, 0x65, 0x72, 0x31,
    0x2e, 0x30, 0x30, 0x3e, 0x3e, 0x00,
];
pub const DLB_ENTRY_SIZE: usize = 0x15;
const TABLE_AT: usize = 24;

#[derive(Debug, Clone, Copy, PartialEq, Eq)]
pub enum DlbError {
    TooShort,
    BadMagic,
    TableBeyondEnd,
    BadName(usize),
    EntryOutside(usize),
    NotFound,
}

/// Little-endian 32-bit word at `at`.
pub open spec fn le32(b: Seq<u8>, at: int) -> u32 {
    (b[at] as int + 256 * b[at + 1] as int + 65536 * b[at + 2] as int + 16777216 * b[at + 3] as int) as u32
}

pub open spec fn dlb_magic_ok(b: Seq<u8>) -> bool {
    b.len() >= 24 && forall|i: int| 0 <= i < 22 ==> b[i] == #[trigger] DLB_MAGIC@[i]
}

pub open spec fn dlb_count(b: Seq<u8>) -> int {
    le16(b[22], b[23]) as int
}

pub open spec fn dlb_table_end(b: Seq<u8>) -> int {
    24 + dlb_count(b) * 0x15
}

/// The name bytes of entry `i`.
pub open spec fn dlb_raw_name(b: Seq<u8>, i: int) -> Seq<u8> {
    let at = 24 + i * 0x15;
    let raw = b.subrange(at, at + 13);
    raw.take(nul_len(raw))
}

pub open spec fn dlb_offset(b: Seq<u8>, i: int) -> u32 {
    le32(b, 24 + i * 0x15 + 0x0d)
}

pub open spec fn dlb_size(b: Seq<u8>, i: int) -> u32 {
    le32(b, 24 + i * 0x15 + 0x11)
}

/// Entry `i` has a decodable name and lies in the data after the table.
pub open spec fn dlb_entry_ok(b: Seq<u8>, i: int) -> bool {
    &&& shift_jis_text(dlb_raw_name(b, i)) is Some
    &&& dlb_offset(b, i) >= dlb_table_end(b)
    &&& dlb_offset(b, i) + dlb_size(b, i) <= b.len()
}

/// A well-formed archive.
pub open spec fn dlb_ok(b: Seq<u8>) -> bool {
    &&& dlb_magic_ok(b)
    &&& dlb_table_end(b) <= b.len()
    &&& forall|i: int| 0 <= i < dlb_count(b) ==> #[trigger] dlb_entry_ok(b, i)
}

/// `e` is what entry `i` of the table says.
pub open spec fn dlb_entry_is(b: Seq<u8>, i: int, e: DlbEntry) -> bool {
    &&& shift_jis_text(dlb_raw_name(b, i)) == Some(e.name@)
    &&& e.offset == dlb_offset(b, i)
    &&& e.size == dlb_size(b, i)
}

/// `es` is the whole entry table of `b`, in order.
pub open spec fn dlb_entries_are(b: Seq<u8>, es: Seq<DlbEntry>) -> bool {
    &&& es.len() == dlb_count(b)
    &&& forall|i: int| 0 <= i < es.len() ==> dlb_entry_is(b, i, #[trigger] es[i])
}

#[derive(Debug, Clone, PartialEq, Eq)]
pub struct DlbEntry {
    pub name: String,
    pub offset: u32,
    pub size: u32,
}

#[derive(Debug, Clone)]
pub struct DlbArchive {
    bytes: Vec<u8>,
    entries: Vec<DlbEntry>,
}

impl DlbArchive {
    pub closed spec fn spec_bytes(&self) -> Seq<u8> {
        self.bytes@
    }

    pub closed spec fn spec_entries(&self) -> Seq<DlbEntry> {
        self.entries@
    }

    /// Entries lie inside the archive bytes.
    pub closed spec fn wf(&self) -> bool {
        forall|i: int| 0 <= i < self.entries@.len() ==> #[trigger] self.entries@[i].offset + self.entries@[i].size
            <= self.bytes@.len()
    }

    /// Parses the header and the entry table.
    pub fn from_bytes(bytes: Vec<u8>) -> (res: Result<Self, DlbError>)
        ensures
            dlb_ok(bytes@) <==> res is Ok,
            res is Ok ==> {
                let a = res.unwrap();
                &&& a.wf()
                &&& a.spec_bytes() == bytes@
                &&& dlb_entries_are(bytes@, a.spec_entries())
            },
    {
        if bytes.len() < 24 {
            return Err(DlbError::TooShort);
        }
        let mut k: usize = 0;
        while k < 22
            invariant
                bytes@.len() >= 24,
                k <= 22,
                forall|i: int| 0 <= i < k ==> bytes@[i] == #[trigger] DLB_MAGIC@[i],
            decreases 22 - k,
        {
            if bytes[k] != DLB_MAGIC[k] {
                assert(bytes@[k as int] != DLB_MAGIC@[k as int]);
                return Err(DlbError::BadMagic);
            }
            k = k + 1;
        }
        let count = bytes[22] as usize + (bytes[23] as usize) * 256;
        let table_end = TABLE_AT + count * DLB_ENTRY_SIZE;
        if table_end > bytes.len() {
            return Err(DlbError::TableBeyondEnd);
        }
        let mut entries: Vec<DlbEntry> = Vec::new();
        let mut index: usize = 0;
        while index < count
            invariant
                dlb_magic_ok(bytes@),
                count == dlb_count(bytes@),
                table_end == dlb_table_end(bytes@),
                table_end <= bytes@.len(),
                index <= count,
                entries@.len() == index,
                forall|i: int| 0 <= i < index ==> #[trigger] dlb_entry_ok(bytes@, i),
                forall|i: int| 0 <= i < index ==> dlb_entry_is(bytes@, i, #[trigger] entries@[i]),
                forall|i: int| 0 <= i < index ==> #[trigger] entries@[i].offset + entries@[i].size <= bytes@.len(),
            decreases count - index,
        {
            let at = TABLE_AT + index * DLB_ENTRY_SIZE;
            let raw = vstd::slice::slice_subrange(bytes.as_slice(), at, at + 13);
            let end = nul_position(raw);
            assert(raw@ =~= bytes@.subrange(at as int, at + 13));
            let name_bytes = vstd::slice::slice_subrange(raw, 0, end);
            assert(name_bytes@ =~= dlb_raw_name(bytes@, index as int)) by {
                assert(raw@.take(end as int) =~= name_bytes@);
            }
            let name = match decode_shift_jis(name_bytes) {
                Some(n) => n,
                None => {
                    assert(!dlb_entry_ok(bytes@, index as int));
                    return Err(DlbError::BadName(index));
                },
            };
            let offset = read_u32(&bytes, at + 0x0d);
            let size = read_u32(&bytes, at + 0x11);
            if (offset as u64) < (table_end as u64) || (offset as u64) + (size as u64) > (bytes.len() as u64) {
                assert(!dlb_entry_ok(bytes@, index as int));
                return Err(DlbError::EntryOutside(index));
            }
            let ghost old_entries = entries@;
            entries.push(DlbEntry { name, offset, size });
            proof {
                assert(entries@[index as int].name@ == name@);
                assert(shift_jis_text(dlb_raw_name(bytes@, index as int)) == Some(name@));
                assert(dlb_entry_ok(bytes@, index as int));
                assert forall|i: int| 0 <= i < index + 1 implies dlb_entry_is(bytes@, i, #[trigger] entries@[i]) by {
                    if i < index {
                        assert(entries@[i] == old_entries[i]);
                    }
                }
            }
            index = index + 1;
        }
        let ghost es = entries@;
        let ghost bs = bytes@;
        let a = DlbArchive { bytes, entries };
        assert(a.spec_entries() == es && a.spec_bytes() == bs);
        assert(a.wf());
        assert(dlb_entries_are(bs, a.spec_entries()));
        Ok(a)
    }

    pub fn entries(&self) -> (res: &[DlbEntry])
        ensures
            res@ == self.spec_entries(),
    {
        self.entries.as_slice()
    }

    /// The first entry whose name equals `name` up to ASCII case.
    pub fn entry(&self, name: &str) -> (res: Option<&DlbEntry>)
        ensures
            match res {
                Some(e) => exists|i: int| 0 <= i < self.spec_entries().len() && *e == self.spec_entries()[i]
                    && eq_ignore_case(self.spec_entries()[i].name@, name@) && forall|j: int| 0 <= j < i
                    ==> !eq_ignore_case(#[trigger] self.spec_entries()[j].name@, name@),
                None => forall|j: int| 0 <= j < self.spec_entries().len() ==> !eq_ignore_case(
                    #[trigger] self.spec_entries()[j].name@,
                    name@,
                ),
            },
    {
        match self.entry_index(name) {
            Some(i) => Some(&self.entries[i]),
            None => None,
        }
    }

    fn entry_index(&self, name: &str) -> (res: Option<usize>)
        ensures
            match res {
                Some(i) => i < self.spec_entries().len() && eq_ignore_case(self.spec_entries()[i as int].name@, name@)
                    && forall|j: int| 0 <= j < i ==> !eq_ignore_case(#[trigger] self.spec_entries()[j].name@, name@),
                None => forall|j: int| 0 <= j < self.spec_entries().len() ==> !eq_ignore_case(
                    #[trigger] self.spec_entries()[j].name@,
                    name@,
                ),
            },
    {
        let mut i: usize = 0;
        while i < self.entries.len()
            invariant
                i <= self.entries@.len(),
                forall|j: int| 0 <= j < i ==> !eq_ignore_case(#[trigger] self.entries@[j].name@, name@),
            decreases self.entries@.len() - i,
        {
            if eq_ignore_ascii_case(self.entries[i].name.as_str(), name) {
                return Some(i);
            }
            i = i + 1;
        }
        None
    }

    /// The data of the first entry named `name` (ASCII case ignored).
    pub fn read(&self, name: &str) -> (res: Result<&[u8], DlbError>)
        requires
            self.wf(),
        ensures
            match res {
                Ok(data) => exists|i: int| 0 <= i < self.spec_entries().len() && eq_ignore_case(
                    self.spec_entries()[i].name@,
                    name@,
                ) && (forall|j: int| 0 <= j < i ==> !eq_ignore_case(#[trigger] self.spec_entries()[j].name@, name@))
                    && data@ == self.spec_bytes().subrange(
                    self.spec_entries()[i].offset as int,
                    self.spec_entries()[i].offset + self.spec_entries()[i].size,
                ),
                Err(e) => e == DlbError::NotFound && forall|j: int| 0 <= j < self.spec_entries().len()
                    ==> !eq_ignore_case(#[trigger] self.spec_entries()[j].name@, name@),
            },
    {
        match self.entry_index(name) {
            Some(i) => {
                let e = &self.entries[i];
                assert(e.offset + e.size <= self.bytes@.len());
                let len = self.bytes.len();
                assert(e.offset + e.size <= len);
                let start = e.offset as usize;
                let end = start + e.size as usize;
                Ok(vstd::slice::slice_subrange(self.bytes.as_slice(), start, end))
            },
            None => Err(DlbError::NotFound),
        }
    }
}

/// Entry `i` is the first whose name equals `name` up to ASCII case.
pub open spec fn first_match_at(es: Seq<DlbEntry>, name: Seq<char>, i: int) -> bool {
    &&& 0 <= i < es.len()
    &&& eq_ignore_case(es[i].name@, name)
    &&& forall|j: int| 0 <= j < i ==> !eq_ignore_case(#[trigger] es[j].name@, name)
}

/// A name lookup and a read of the same archive agree: the read finds data
/// exactly when the lookup finds an entry, and then the data is the span of
/// the archive that entry names.
pub proof fn lemma_lookup_read_agree(a: DlbArchive, name: Seq<char>, e: Option<DlbEntry>, r: Result<Seq<u8>, DlbError>)
    requires
        match e {
            Some(x) => exists|i: int| first_match_at(a.spec_entries(), name, i) && x == a.spec_entries()[i],
            None => forall|j: int| 0 <= j < a.spec_entries().len() ==> !eq_ignore_case(#[trigger] a.spec_entries()[j].name@, name),
        },
        match r {
            Ok(d) => exists|i: int| first_match_at(a.spec_entries(), name, i) && d == a.spec_bytes().subrange(
                a.spec_entries()[i].offset as int,
                a.spec_entries()[i].offset + a.spec_entries()[i].size,
            ),
            Err(err) => err == DlbError::NotFound && forall|j: int| 0 <= j < a.spec_entries().len() ==> !eq_ignore_case(
                #[trigger] a.spec_entries()[j].name@,
                name,
            ),
        },
    ensures
        r is Ok <==> e is Some,
        e is Some ==> r == Ok::<Seq<u8>, DlbError>(
            a.spec_bytes().subrange(e.unwrap().offset as int, e.unwrap().offset + e.unwrap().size),
        ),
{
    let es = a.spec_entries();
    if e is Some {
        let i = choose|i: int| first_match_at(es, name, i) && e.unwrap() == es[i];
        if r is Ok {
            let k = choose|k: int| first_match_at(es, name, k) && r.unwrap() == a.spec_bytes().subrange(
                es[k].offset as int,
                es[k].offset + es[k].size,
            );
            if i < k {
                assert(!eq_ignore_case(es[i].name@, name));
            } else if k < i {
                assert(!eq_ignore_case(es[k].name@, name));
            }
        } else {
            assert(!eq_ignore_case(es[i].name@, name));
        }
    } else if r is Ok {
        let k = choose|k: int| first_match_at(es, name, k) && r.unwrap() == a.spec_bytes().subrange(
            es[k].offset as int,
            es[k].offset + es[k].size,
        );
        assert(!eq_ignore_case(es[k].name@, name));
    }
}

fn read_u32(bytes: &Vec<u8>, at: usize) -> (res: u32)
    requires
        at + 4 <= bytes@.len(),
    ensures
        res == le32(bytes@, at as int),
{
    let _len = bytes.len();
    let b0 = bytes[at] as u32;
    let b1 = bytes[at + 1] as u32;
    let b2 = bytes[at + 2] as u32;
    let b3 = bytes[at + 3] as u32;
    assert(b0 + b1 * 256 + b2 * 65536 + b3 * 16777216 <= 0xffff_ffff) by (nonlinear_arith)
        requires
            b0 < 256,
            b1 < 256,
            b2 < 256,
            b3 < 256,
    ;
    b0 + b1 * 256 + b2 * 65536 + b3 * 16777216
}

} // verus!
