use uk2::map::{MapError, Uk2MapLayout, ENTITY_SIZE, MAP_DATA_HEADER_SIZE, RESOURCE_NAME_SIZE, TRIGGER_SIZE};

fn layout(width: u16, height: u16, tiles: &[u16], entities: &[[u8; ENTITY_SIZE]], triggers: &[[u8; TRIGGER_SIZE]]) -> Vec<u8> {
    let mut bytes = Vec::new();
    bytes.extend_from_slice(&width.to_le_bytes());
    bytes.extend_from_slice(&height.to_le_bytes());
    let mut base = [0u8; RESOURCE_NAME_SIZE];
    base[..6].copy_from_slice(b"b.pdt1");
    bytes.extend_from_slice(&base);
    let mut overlay = [0u8; RESOURCE_NAME_SIZE];
    overlay[..6].copy_from_slice(b"o.pdt1");
    bytes.extend_from_slice(&overlay);
    let mut header = [0u8; MAP_DATA_HEADER_SIZE];
    header[0..2].copy_from_slice(&((tiles.len() * 2) as u16).to_le_bytes());
    header[2] = entities.len() as u8;
    header[4] = triggers.len() as u8;
    bytes.extend_from_slice(&header);
    for tile in tiles {
        bytes.extend_from_slice(&tile.to_le_bytes());
    }
    for entity in entities {
        bytes.extend_from_slice(entity);
    }
    for trigger in triggers {
        bytes.extend_from_slice(trigger);
    }
    bytes
}

#[test]
fn parses_layout_header() {
    let mut bytes = Vec::new();
    bytes.extend_from_slice(&2u16.to_le_bytes());
    bytes.extend_from_slice(&1u16.to_le_bytes());
    let mut base = [0u8; RESOURCE_NAME_SIZE];
    base[..11].copy_from_slice(b"chip06.pdt1");
    bytes.extend_from_slice(&base);
    let mut overlay = [0u8; RESOURCE_NAME_SIZE];
    overlay[..13].copy_from_slice(b"chara03a.pdt1");
    bytes.extend_from_slice(&overlay);
    bytes.extend_from_slice(&4u16.to_le_bytes());
    bytes.extend_from_slice(&[0; MAP_DATA_HEADER_SIZE - 2]);
    bytes.extend_from_slice(&0x1234u16.to_le_bytes());
    bytes.extend_from_slice(&0x5678u16.to_le_bytes());
    let map = Uk2MapLayout::from_bytes(bytes).unwrap();
    assert_eq!(map.width, 2);
    assert_eq!(map.height, 1);
    assert_eq!(map.base, "chip06.pdt1");
    assert_eq!(map.overlay, "chara03a.pdt1");
    assert_eq!(map.tiles(), [0x1234, 0x5678]);
    assert_eq!(map.payload().len(), MAP_DATA_HEADER_SIZE + 4);
}

#[test]
fn rewrites_a_tile_in_place() {
    let bytes = layout(2, 2, &[1, 2, 3, 4], &[], &[]);
    let mut map = Uk2MapLayout::from_bytes(bytes).unwrap();
    assert_eq!(map.cell_count(), 4);
    assert!(map.entities().is_empty());
    assert!(map.triggers().is_empty());
    assert_eq!(map.map_data_header()[0], 8);
    let changed = map.apply_fb(1, 1, 0x77, 0);
    assert!(changed);
    assert_eq!(map.tiles()[3], 0x77);
    assert_eq!(&map.payload()[MAP_DATA_HEADER_SIZE + 6..MAP_DATA_HEADER_SIZE + 8], &[0x77, 0]);
    assert!(!map.apply_fb(5, 5, 1, 0));
}

#[test]
fn refuses_truncated_layouts() {
    assert!(matches!(Uk2MapLayout::from_bytes(vec![0; 10]), Err(_)));
    let mut bytes = layout(2, 2, &[1, 2, 3, 4], &[], &[]);
    bytes.truncate(bytes.len() - 1);
    let err: Result<Uk2MapLayout, MapError> = Uk2MapLayout::from_bytes(bytes);
    assert!(err.is_err());
}

#[test]
fn entity_and_trigger_edits_reach_the_payload() {
    let mut entity = [0u8; ENTITY_SIZE];
    entity[0..2].copy_from_slice(&10u16.to_le_bytes());
    entity[2..4].copy_from_slice(&20u16.to_le_bytes());
    entity[0x0a..0x0c].copy_from_slice(&7u16.to_le_bytes());
    let mut trigger = [0u8; TRIGGER_SIZE];
    trigger[4..6].copy_from_slice(&9u16.to_le_bytes());
    let bytes = layout(1, 1, &[0], &[entity], &[trigger]);
    let mut map = Uk2MapLayout::from_bytes(bytes).unwrap();
    assert_eq!(map.entities().len(), 1);
    assert_eq!(map.entities()[0].position(), (10, 20));
    let id = map.entities()[0].id();
    assert!(map.apply_fa([1000, 33, 1000, id, 5]));
    assert_eq!(map.entities()[0].position(), (10, 33));
    assert!(!map.apply_fa([1, 1, 1, id.wrapping_add(1), 1]));
    assert!(map.set_trigger_enabled(9, true));
    assert_eq!(map.triggers()[0][8], 1);
    let trigger_at = MAP_DATA_HEADER_SIZE + 2 + ENTITY_SIZE;
    assert_eq!(map.payload()[trigger_at + 8], 1);
    assert!(!map.set_trigger_enabled(8, true));
}
