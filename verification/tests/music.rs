use uk2::music::{
    decode_mmd_records, MusicError, Uk2MusicFile, Uk2MusicKind, MMD_TITLE_OFFSET, MMD_TRACK_COUNT,
    MMD_TRACK_TABLE_START, MMM_TRACK_COUNT,
};

#[test]
fn parses_mmd_header_directory_and_title() {
    let mut bytes = vec![0; 96];
    bytes[0] = 120;
    bytes[1] = 0;
    bytes[MMD_TITLE_OFFSET..MMD_TITLE_OFFSET + 5].copy_from_slice(b"Test\0");
    for slot in 0..MMD_TRACK_COUNT {
        let start = MMD_TRACK_TABLE_START + slot * 4;
        bytes[start..start + 2].copy_from_slice(&85_u16.to_le_bytes());
        bytes[start + 2] = slot as u8;
        bytes[start + 3] = if slot < 16 { slot as u8 } else { 0xff };
    }
    bytes[85..].copy_from_slice(&[1, 2, 3, 4, 0xfe, 0, 0, 0, 0, 0, 0]);
    let music = Uk2MusicFile::from_bytes(Uk2MusicKind::Mmd, bytes).unwrap();
    assert_eq!(music.kind(), Uk2MusicKind::Mmd);
    assert_eq!(music.mmd_tempo(), Some(120));
    assert_eq!(music.mmd_key(), Some(0));
    assert_eq!(music.mmd_title(), Some(&b"Test"[..]));
    assert_eq!(music.mmd_tracks().len(), MMD_TRACK_COUNT);
    assert_eq!(music.mmd_tracks()[9].channel, Some(9));
    assert_eq!(music.mmd_tracks()[9].key, 9);
    assert_eq!(music.mmd_tracks()[16].channel, None);
    assert_eq!(
        music.mmd_track_bytes(0),
        Some(&[1, 2, 3, 4, 0xfe, 0, 0, 0, 0, 0, 0][..])
    );
    assert_eq!(music.words_le().into_iter().next(), Some(120));
}

#[test]
fn rejects_mmd_directory_offsets_outside_the_resource() {
    let mut bytes = vec![0; 90];
    bytes[0] = 120;
    bytes[MMD_TITLE_OFFSET..MMD_TITLE_OFFSET + 2].copy_from_slice(b"T\0");
    for slot in 0..MMD_TRACK_COUNT {
        let start = MMD_TRACK_TABLE_START + slot * 4;
        let offset = if slot == 3 { 100_u16 } else { 82_u16 };
        bytes[start..start + 2].copy_from_slice(&offset.to_le_bytes());
        bytes[start + 3] = if slot < 16 { slot as u8 } else { 0xff };
    }
    assert!(Uk2MusicFile::from_bytes(Uk2MusicKind::Mmd, bytes).is_err());
}

#[test]
fn parses_big_endian_mmm_channel_offsets_without_requiring_sorted_table() {
    let mut bytes = vec![0; 40];
    let offsets = [26u16, 34, 30, 4, 34, 39, 2, 40, 26, 31, 35, 33, 28];
    for (index, offset) in offsets.into_iter().enumerate() {
        bytes[index * 2..index * 2 + 2].copy_from_slice(&offset.to_be_bytes());
    }
    let music = Uk2MusicFile::from_bytes(Uk2MusicKind::Mmm, bytes.clone()).unwrap();
    assert_eq!(music.mmm_tracks().len(), MMM_TRACK_COUNT);
    assert_eq!(music.mmm_track_bytes(0), Some(&bytes[26..28]));
    assert_eq!(music.mmm_track_bytes(1), Some(&bytes[34..35]));
    assert_eq!(music.mmm_track_bytes(3), None);
    assert_eq!(music.mmm_track_bytes(7), None);
}

#[test]
fn rejects_truncated_mmm_offset_table() {
    assert!(Uk2MusicFile::from_bytes(Uk2MusicKind::Mmm, vec![0; 25]).is_err());
}

#[test]
fn expands_mmd_delta_records_and_sysex_until_end_marker() {
    let records = decode_mmd_records(&[0x98, 0x00, 0x12, 0x34, 0xf7, 0xfe]).unwrap();
    assert_eq!(records.len(), 3);
    assert_eq!(records[0].bytes, [0x98, 0, 0, 0]);
    assert_eq!(records[1].bytes, [0x98, 0, 0x00, 0x12]);
    assert_eq!(records[2].bytes, [0x98, 0, 0x34, 0xf7]);
}

#[test]
fn rejects_truncated_mmd_records_and_missing_end_marker() {
    assert!(decode_mmd_records(&[1, 2, 3]).is_err());
    assert!(decode_mmd_records(&[0x81]).is_err());
    assert!(decode_mmd_records(&[1, 2, 3, 4]).is_err());
}

#[test]
fn plain_four_byte_records_and_word_views() {
    let records = decode_mmd_records(&[1, 2, 3, 4, 0xfe]).unwrap();
    assert_eq!(records.len(), 1);
    assert_eq!(records[0].bytes, [1, 2, 3, 4]);
    let mut bytes = vec![0u8; 26];
    bytes[0] = 0x12;
    bytes[1] = 0x34;
    let music = Uk2MusicFile::from_bytes(Uk2MusicKind::Mmm, bytes).unwrap();
    assert_eq!(music.words_be()[0], 0x1234);
    assert_eq!(music.words_le()[0], 0x3412);
    assert_eq!(music.kind(), Uk2MusicKind::Mmm);
    assert_eq!(music.mmd_tempo(), None);
    assert_eq!(music.bytes().len(), 26);
}

#[test]
fn decodes_one_mmd_track() {
    let mut bytes = vec![0; 96];
    bytes[0] = 100;
    for slot in 0..MMD_TRACK_COUNT {
        let start = MMD_TRACK_TABLE_START + slot * 4;
        bytes[start..start + 2].copy_from_slice(&81_u16.to_le_bytes());
        bytes[start + 3] = 0xff;
    }
    bytes[81..86].copy_from_slice(&[5, 6, 7, 8, 0xfe]);
    let music = Uk2MusicFile::from_bytes(Uk2MusicKind::Mmd, bytes).unwrap();
    let records = music.decode_mmd_track(2).unwrap();
    assert_eq!(records.len(), 1);
    assert_eq!(records[0].bytes, [5, 6, 7, 8]);
    let _: Result<_, MusicError> = music.decode_mmd_track(MMD_TRACK_COUNT);
    assert!(music.decode_mmd_track(MMD_TRACK_COUNT).is_err());
}
