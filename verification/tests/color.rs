use uk2::color::{color_word_to_rgb, transition_rgba, ColorError, ColorTable, COLOR_BANK_BYTES, COLOR_BANK_COLORS};

#[test]
fn parses_little_endian_banks_and_uses_one_based_indices() {
    let table = ColorTable::parse(&[0x23, 0x01].repeat(COLOR_BANK_BYTES / 2)).unwrap();
    assert_eq!(table.len(), 1);
    assert_eq!(table.bank(1).unwrap()[0], 0x0123);
    assert!(table.bank(0).is_err());
    assert!(table.bank(2).is_err());
}

#[test]
fn rejects_incomplete_or_non_rgb12_data() {
    assert!(ColorTable::parse(&[0; COLOR_BANK_BYTES - 1]).is_err());
    let mut bytes = vec![0; COLOR_BANK_BYTES];
    bytes[1] = 0x10;
    assert!(ColorTable::parse(&bytes).is_err());
}

#[test]
fn expands_rgb_nibbles_to_eight_bit_channels() {
    assert_eq!(color_word_to_rgb(0x0f8), [0, 255, 136]);
}

#[test]
fn palette_transition_reaches_selected_bank_colors() {
    let mut target = [0u16; COLOR_BANK_COLORS];
    target[0] = 0x0f0;
    let pixels = [0u8, 0, 0, 255, 10, 10, 10, 255];
    let transitioned = transition_rgba(&pixels, &[0], &target, 16, 16).unwrap();
    assert_eq!(&transitioned[..4], &[0, 255, 0, 255]);
    assert_eq!(&transitioned[4..], &[0, 255, 0, 255]);
    assert!(transition_rgba(&pixels, &[], &target, 16, 16).is_err());
}

#[test]
fn colour_banks_keep_their_order_and_count() {
    let mut bytes = vec![0u8; COLOR_BANK_BYTES * 2];
    bytes[0] = 0x21;
    bytes[COLOR_BANK_BYTES] = 0x43;
    let table = ColorTable::parse(&bytes).unwrap();
    assert_eq!(table.len(), 2);
    assert!(!table.is_empty());
    assert_eq!(table.bank(1).unwrap()[0], 0x21);
    assert_eq!(table.bank(2).unwrap()[0], 0x43);
    assert_eq!(table.bank(2).unwrap().len(), COLOR_BANK_COLORS);
}

#[test]
fn transition_halfway_mixes_channels() {
    let mut target = [0u16; COLOR_BANK_COLORS];
    target[1] = 0xf00;
    let pixels = [0u8, 0, 0, 255, 0, 0, 0, 255];
    let out = transition_rgba(&pixels, &[0x10], &target, 8, 16).unwrap();
    assert_eq!(out, vec![127, 0, 0, 255, 0, 0, 0, 255]);
    let out = transition_rgba(&pixels, &[0x10], &target, 0, 16).unwrap();
    assert_eq!(out, pixels.to_vec());
}

#[test]
fn colour_errors_name_their_cause() {
    assert_eq!(ColorTable::parse(&[]).err(), Some(ColorError::BadLength));
    assert_eq!(ColorTable::parse(&vec![0; COLOR_BANK_BYTES * 11]).err(), Some(ColorError::TooManyBanks(11)));
    let mut bytes = vec![0; COLOR_BANK_BYTES];
    bytes[3] = 0x10;
    assert_eq!(ColorTable::parse(&bytes).err(), Some(ColorError::Not12Bit { bank: 0, color: 1 }));
    let table = ColorTable::parse(&vec![0; COLOR_BANK_BYTES]).unwrap();
    assert_eq!(table.bank(0).err(), Some(ColorError::ZeroIndex));
    assert_eq!(table.bank(2).err(), Some(ColorError::MissingBank(2)));
    let target = [0u16; COLOR_BANK_COLORS];
    assert_eq!(transition_rgba(&[0; 8], &[0], &target, 17, 16).err(), Some(ColorError::BadTransition));
    assert_eq!(transition_rgba(&[0; 8], &[0], &target, 0, 0).err(), Some(ColorError::BadTransition));
}
