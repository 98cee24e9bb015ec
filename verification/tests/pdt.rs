use uk2::pdt::{
    composite_pdt34_sprite, decode_pdt34, unpack_indexed_to_rgba, Pdt34Header, Pdt34Image, Pdt34Rect, PdtError,
    PDT34_DATA_OFFSET, PDT34_HEIGHT, PDT34_MARKERS_OFFSET, PDT34_RECT_OFFSET, PDT34_WIDTH,
};

fn make_header(rect: Pdt34Rect, marker_alternating: u8, marker_solid: u8) -> Vec<u8> {
    let mut bytes = vec![0; PDT34_DATA_OFFSET];
    bytes[0] = 0x34;
    for index in 0..16u16 {
        bytes[1 + usize::from(index) * 2..3 + usize::from(index) * 2].copy_from_slice(&(index * 0x111).to_le_bytes());
    }
    bytes[PDT34_MARKERS_OFFSET] = marker_alternating;
    bytes[PDT34_MARKERS_OFFSET + 1] = marker_solid;
    bytes[PDT34_RECT_OFFSET..PDT34_RECT_OFFSET + 2].copy_from_slice(&rect.left.to_le_bytes());
    bytes[PDT34_RECT_OFFSET + 2..PDT34_RECT_OFFSET + 4].copy_from_slice(&rect.top.to_le_bytes());
    bytes[PDT34_RECT_OFFSET + 4..PDT34_RECT_OFFSET + 6].copy_from_slice(&rect.right.to_le_bytes());
    bytes[PDT34_RECT_OFFSET + 6..PDT34_RECT_OFFSET + 8].copy_from_slice(&rect.bottom.to_le_bytes());
    bytes
}

#[test]
fn parses_palette_markers_and_rect() {
    let rect = Pdt34Rect {
        left: 2,
        top: 4,
        right: 7,
        bottom: 11,
    };
    let bytes = make_header(rect, 0xf0, 0xf1);
    let header = Pdt34Header::parse(&bytes).unwrap();
    assert_eq!(header.palette[15], 0x0fff);
    assert_eq!(header.palette_nibbles(1), Some([1, 1, 1]));
    assert_eq!(header.marker_alternating, 0xf0);
    assert_eq!(header.marker_solid, 0xf1);
    assert_eq!(header.rect, rect);
}

#[test]
fn expands_palette_words_in_grb_channel_order() {
    let indexed = [0x12, 0x30];
    let palette = [0, 0x00f0, 0x0f00, 0x000f, 0, 0, 0, 0, 0, 0, 0, 0, 0, 0, 0, 0];
    let rgba = unpack_indexed_to_rgba(&indexed, &palette);
    assert_eq!(&rgba[..16], &[255, 0, 0, 255, 0, 255, 0, 255, 0, 0, 255, 255, 0, 0, 0, 255,]);
}

#[test]
fn decodes_literal_column_pairs_in_four_planes() {
    let rect = Pdt34Rect {
        left: 0,
        top: 0,
        right: 0,
        bottom: 1,
    };
    let mut bytes = make_header(rect, 0xf0, 0xf1);
    // Four one-column planes, each holding one literal pair of scanlines.
    bytes.extend_from_slice(&[0x80, 0x00, 0x80, 0x00, 0x80, 0x00, 0x80, 0x00]);
    let image = decode_pdt34(&bytes).unwrap();
    assert_eq!((image.width, image.height), (640, 400));
    // Pixel zero has the high bit set in every plane, yielding colour 15.
    assert_eq!(image.indexed[0] >> 4, 15);
    assert_eq!(image.rgba[3], 255);
}

#[test]
fn composites_nonzero_sprite_pixels_at_pc98_coordinates() {
    let mut destination = Pdt34Image {
        width: PDT34_WIDTH,
        height: PDT34_HEIGHT,
        indexed: vec![0; (PDT34_WIDTH * PDT34_HEIGHT / 2) as usize],
        rgba: vec![7; (PDT34_WIDTH * PDT34_HEIGHT * 4) as usize],
    };
    let mut source = Pdt34Image {
        width: PDT34_WIDTH,
        height: PDT34_HEIGHT,
        indexed: vec![0; (PDT34_WIDTH * PDT34_HEIGHT / 2) as usize],
        rgba: vec![0; (PDT34_WIDTH * PDT34_HEIGHT * 4) as usize],
    };
    source.indexed[0] = 0x01;
    source.rgba[4..8].copy_from_slice(&[21, 31, 41, 255]);
    composite_pdt34_sprite(
        &mut destination,
        &source,
        Pdt34Rect {
            left: 0,
            top: 0,
            right: 0,
            bottom: 1,
        },
        1,
        0,
    )
    .unwrap();
    let transparent = 8 * 4;
    let drawn = 9 * 4;
    assert_eq!(&destination.rgba[transparent..transparent + 4], &[7; 4]);
    assert_eq!(&destination.rgba[drawn..drawn + 4], &[21, 31, 41, 255]);
    assert_eq!(destination.indexed[4] & 0x0f, 1);
}

#[test]
fn header_errors_and_payload_slice() {
    assert!(Pdt34Header::parse(&[0x34; 10]).is_err());
    let rect = Pdt34Rect { left: 0, top: 0, right: 0, bottom: 1 };
    let mut bytes = make_header(rect, 0xf0, 0xf1);
    bytes[0] = 0x33;
    assert!(Pdt34Header::parse(&bytes).is_err());
    bytes[0] = 0x34;
    bytes.extend_from_slice(&[1, 2, 3]);
    let header = Pdt34Header::parse(&bytes).unwrap();
    assert_eq!(header.payload(&bytes).unwrap(), &[1, 2, 3]);
    assert_eq!(header.palette_nibbles(16), None);
    let bad = Pdt34Rect { left: 5, top: 0, right: 1, bottom: 1 };
    let err: Result<_, PdtError> = decode_pdt34(&make_header(bad, 0xf0, 0xf1));
    assert!(err.is_err());
}
