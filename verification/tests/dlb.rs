use uk2::dlb::{DlbArchive, DlbError, DLB_ENTRY_SIZE, DLB_MAGIC};

fn archive(names: &[&[u8]], payloads: &[&[u8]]) -> Vec<u8> {
    let table_end = DLB_MAGIC.len() + 2 + DLB_ENTRY_SIZE * names.len();
    let mut bytes = Vec::new();
    bytes.extend_from_slice(&DLB_MAGIC);
    bytes.extend_from_slice(&(names.len() as u16).to_le_bytes());
    let mut offset = table_end;
    for (name, payload) in names.iter().zip(payloads) {
        let mut field = [0u8; 0x0d];
        field[..name.len()].copy_from_slice(name);
        bytes.extend_from_slice(&field);
        bytes.extend_from_slice(&(offset as u32).to_le_bytes());
        bytes.extend_from_slice(&(payload.len() as u32).to_le_bytes());
        offset += payload.len();
    }
    for payload in payloads {
        bytes.extend_from_slice(payload);
    }
    bytes
}

#[test]
fn parses_reference_dlb_layout() {
    let table_end = DLB_MAGIC.len() + 2 + DLB_ENTRY_SIZE;
    let mut bytes = Vec::new();
    bytes.extend_from_slice(&DLB_MAGIC);
    bytes.extend_from_slice(&1u16.to_le_bytes());
    let mut name = [0u8; 0x0d];
    name[..5].copy_from_slice(b"A.MES");
    bytes.extend_from_slice(&name);
    bytes.extend_from_slice(&(table_end as u32).to_le_bytes());
    bytes.extend_from_slice(&3u32.to_le_bytes());
    bytes.extend_from_slice(b"abc");
    let dlb = DlbArchive::from_bytes(bytes).unwrap();
    assert_eq!(dlb.read("a.mes").unwrap(), b"abc");
}

#[test]
fn reads_each_entry_by_name_regardless_of_case() {
    let dlb = DlbArchive::from_bytes(archive(&[b"ONE.PDT", b"TWO.MES"], &[b"xy", b"hello"])).unwrap();
    assert_eq!(dlb.entries().len(), 2);
    assert_eq!(dlb.read("two.mes").unwrap(), b"hello");
    assert_eq!(dlb.read("One.Pdt").unwrap(), b"xy");
    assert!(dlb.entry("three.mes").is_none());
    assert!(matches!(dlb.read("three.mes"), Err(DlbError::NotFound)));
}

#[test]
fn refuses_bad_magic_and_entries_beyond_the_file() {
    let mut bad = archive(&[b"A"], &[b"1"]);
    bad[0] ^= 0xff;
    assert_eq!(DlbArchive::from_bytes(bad).err(), Some(DlbError::BadMagic));
    let mut short = archive(&[b"A"], &[b"123"]);
    short.pop();
    assert_eq!(DlbArchive::from_bytes(short).err(), Some(DlbError::EntryOutside(0)));
    assert_eq!(DlbArchive::from_bytes(DLB_MAGIC.to_vec()).err(), Some(DlbError::TooShort));
}
