use uk2::mes::{MesError, MES_MAGIC};
use uk2::{MesProgram, MesReader, MES_CODE_OFFSET};

#[test]
fn validates_reference_header() {
    let mut bytes = MES_MAGIC.to_vec();
    bytes.extend_from_slice(&[0, 1, 2]);
    let mes = MesProgram::from_bytes(bytes).unwrap();
    assert_eq!(MES_CODE_OFFSET, 0x17);
    assert_eq!(mes.code(), [0, 1, 2]);
}

#[test]
fn refuses_short_or_foreign_headers() {
    assert_eq!(MesProgram::from_bytes(MES_MAGIC[..10].to_vec()).err(), Some(MesError::TooShort));
    let mut bytes = MES_MAGIC.to_vec();
    bytes[3] = b'X';
    assert_eq!(MesProgram::from_bytes(bytes).err(), Some(MesError::BadMagic));
}

#[test]
fn reader_walks_bytes_and_little_endian_words() {
    let mut bytes = MES_MAGIC.to_vec();
    bytes.extend_from_slice(&[7, 0x34, 0x12]);
    let mes = MesProgram::from_bytes(bytes).unwrap();
    assert_eq!(mes.len(), MES_CODE_OFFSET + 3);
    assert!(!mes.is_empty());
    let mut reader = mes.reader_at(MES_CODE_OFFSET).unwrap();
    assert_eq!(reader.byte(), Ok(7));
    assert_eq!(reader.u16(), Ok(0x1234));
    assert_eq!(reader.position(), MES_CODE_OFFSET + 3);
    assert_eq!(reader.byte(), Err(MesError::UnexpectedEnd));
    assert!(mes.reader_at(MES_CODE_OFFSET + 4).is_err());
    let raw = [1u8, 2];
    let mut direct = MesReader::new(&raw, 1).unwrap();
    assert_eq!(direct.byte(), Ok(2));
    assert_eq!(MesReader::new(&raw, 3).err(), Some(MesError::OffsetBeyondEnd));
}
