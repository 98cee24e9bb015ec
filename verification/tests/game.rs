use uk2::config::Uk2Config;
use uk2::dlb::{DlbArchive, DLB_ENTRY_SIZE, DLB_MAGIC};
use uk2::game::{
    alpha_blend_rgba, blank_pdt34, checked_music_candidates, compose_preview, configured_music_candidates,
    decode_engine_name, has_separator, map_virtual_extension, same_resource, virtual_extension_stem, GameError, Uk2Game,
};
use uk2::music::Uk2MusicKind;

#[test]
fn maps_uk2_virtual_extensions() {
    assert_eq!(map_virtual_extension("start.mes1"), "start.mes");
    assert_eq!(map_virtual_extension("game.pdt1"), "game.pdt");
    assert_eq!(map_virtual_extension("map01.map1"), "map01.map");
    assert_eq!(map_virtual_extension("fight.mmd"), "fight.mmd");
}

#[test]
fn resolves_music_candidates_from_config_and_virtual_extensions() {
    let config = Uk2Config::parse_text("MIDI_EXT=MMD\nFM_EXT=MMM\nLIB=OFF\nSTART=start.mes1\n").unwrap();
    assert_eq!(
        configured_music_candidates(&config, "title.mmm1"),
        vec![("title.mmm".to_owned(), Uk2MusicKind::Mmm)]
    );
    assert_eq!(
        configured_music_candidates(&config, "battle.mmd1"),
        vec![("battle.mmd".to_owned(), Uk2MusicKind::Mmd)]
    );
    assert_eq!(
        configured_music_candidates(&config, "battle"),
        vec![
            ("battle.MMM".to_owned(), Uk2MusicKind::Mmm),
            ("battle.MMD".to_owned(), Uk2MusicKind::Mmd),
        ]
    );
}

#[test]
fn virtual_extension_keeps_a_lone_one_and_plain_names() {
    assert_eq!(map_virtual_extension("x.1"), "x.1");
    assert_eq!(map_virtual_extension("noext"), "noext");
    assert!(same_resource("START.MES1", "start.mes"));
    assert!(!same_resource("start.mes1", "start.pdt"));
}

#[test]
fn decodes_shift_jis_engine_names() {
    assert_eq!(decode_engine_name(b"a.mes1"), Ok("a.mes1".to_owned()));
    assert_eq!(decode_engine_name(&[0x88, 0x9f]), Ok("\u{4e9c}".to_owned()));
    assert_eq!(decode_engine_name(&[0x82]), Err(GameError::BadName));
}

fn one_entry_archive(name: &[u8], payload: &[u8]) -> DlbArchive {
    let table_end = DLB_MAGIC.len() + 2 + DLB_ENTRY_SIZE;
    let mut bytes = DLB_MAGIC.to_vec();
    bytes.extend_from_slice(&1u16.to_le_bytes());
    let mut field = [0u8; 0x0d];
    field[..name.len()].copy_from_slice(name);
    bytes.extend_from_slice(&field);
    bytes.extend_from_slice(&(table_end as u32).to_le_bytes());
    bytes.extend_from_slice(&(payload.len() as u32).to_le_bytes());
    bytes.extend_from_slice(payload);
    DlbArchive::from_bytes(bytes).unwrap()
}

#[test]
fn game_index_resolves_loose_files_and_archive_entries() {
    let config = Uk2Config::parse_text("MIDI_EXT=MMD\nFM_EXT=MMM\nLIB=OFF\nSTART=start.mes1\n").unwrap();
    let game = Uk2Game::new(
        "/game".to_owned(),
        config,
        vec![
            ("start.mes".to_owned(), "/game/start.mes".to_owned()),
            ("START.MES".to_owned(), "/game/START.MES".to_owned()),
        ],
        vec![one_entry_archive(b"CHIP.PDT", b"pdt")],
    );
    assert_eq!(game.root(), "/game");
    assert_eq!(game.resolve("start.mes1"), Some("/game/START.MES"));
    assert_eq!(game.resolve("other.mes1"), None);
    assert!(game.contains_resource("chip.pdt1"));
    assert!(!game.contains_resource("none.pdt1"));
    assert_eq!(game.read_archived("chip.pdt1"), Some(&b"pdt"[..]));
    assert_eq!(game.read_archived("start.mes1"), None);
}

#[test]
fn blending_is_weighted_by_source_alpha_and_opaque() {
    let mut dst = vec![100, 100, 100, 10, 50, 50, 50, 0];
    alpha_blend_rgba(&mut dst, &[200, 0, 255, 255, 0, 0, 0, 0]);
    assert_eq!(dst, vec![200, 0, 255, 255, 50, 50, 50, 255]);
}

#[test]
fn preview_overlays_nonzero_indices() {
    let mut base = blank_pdt34();
    let mut overlay = blank_pdt34();
    base.indexed[0] = 0x12;
    overlay.indexed[0] = 0x30;
    overlay.rgba[0..4].copy_from_slice(&[9, 9, 9, 255]);
    overlay.rgba[4..8].copy_from_slice(&[8, 8, 8, 255]);
    compose_preview(&mut base, &mut overlay);
    assert_eq!(base.indexed[0], 0x32);
    assert_eq!(&overlay.rgba[4..8], &[8, 8, 8, 0]);
    assert_eq!(&base.rgba[0..4], &[9, 9, 9, 255]);
    assert_eq!(&base.rgba[4..8], &[0, 0, 0, 255]);
}

fn two_cell_map(tiles: [u16; 2]) -> uk2::map::Uk2MapLayout {
    let mut bytes = Vec::new();
    bytes.extend_from_slice(&2u16.to_le_bytes());
    bytes.extend_from_slice(&1u16.to_le_bytes());
    let mut base = [0u8; 16];
    base[..6].copy_from_slice(b"c.pdt1");
    bytes.extend_from_slice(&base);
    bytes.extend_from_slice(&[0u8; 16]);
    let mut header = [0u8; 22];
    header[0] = 4;
    bytes.extend_from_slice(&header);
    for tile in tiles {
        bytes.extend_from_slice(&tile.to_le_bytes());
    }
    uk2::map::Uk2MapLayout::from_bytes(bytes).unwrap()
}

#[test]
fn renders_visible_cells_from_the_chip_atlas() {
    let map = two_cell_map([0x0000, 0x0201]);
    let mut atlas = blank_pdt34();
    atlas.indexed[0] = 0x50; // pixel (0, 0) of chip 0
    atlas.indexed[8] = 0x0a; // pixel (17, 0) of chip 1
    atlas.rgba[17 * 4] = 99;
    let rect = uk2::pdt::Pdt34Rect { left: 0, top: 0, right: 3, bottom: 15 };
    let frame = uk2::game::render_cells(&map, rect, &atlas, 0, 0).unwrap();
    assert_eq!(frame.indexed[0], 0x50);
    assert_eq!(frame.indexed[8], 0x0a);
    assert_eq!(frame.rgba[17 * 4], 99);
    assert_eq!(frame.indexed[16], 0);
    let scrolled = uk2::game::render_cells(&map, rect, &atlas, 1, 0).unwrap();
    assert_eq!(scrolled.indexed[0], 0x0a);
    assert_eq!(scrolled.indexed[8], 0x00);
    assert_eq!(scrolled.rgba[4], 99);
}

#[test]
fn refuses_unaligned_atlases_and_chips_beyond_them() {
    let map = two_cell_map([0x0000, 0x0002]);
    let atlas = blank_pdt34();
    let rect = uk2::pdt::Pdt34Rect { left: 0, top: 0, right: 3, bottom: 15 };
    assert_eq!(uk2::game::render_cells(&map, rect, &atlas, 0, 0).err(), Some(GameError::ChipOutOfAtlas(2)));
    let narrow = uk2::pdt::Pdt34Rect { left: 0, top: 0, right: 0, bottom: 15 };
    assert_eq!(uk2::game::render_cells(&map, narrow, &atlas, 0, 0).err(), Some(GameError::UnalignedAtlas));
    let config = Uk2Config::parse_text("MIDI_EXT=MMD\nFM_EXT=MMM\nLIB=OFF\nSTART=start.mes1\n").unwrap();
    let game = Uk2Game::new("/g".to_owned(), config, Vec::new(), Vec::new());
    assert_eq!(
        game.render_map(&map, &[0x34; 4], 0, 0).err(),
        Some(GameError::Pdt(uk2::pdt::PdtError::TooShort))
    );
}

#[test]
fn virtual_extension_stems() {
    assert_eq!(virtual_extension_stem("mes1").as_deref(), Some("mes"));
    assert_eq!(virtual_extension_stem("1"), None);
    assert_eq!(virtual_extension_stem("pdt"), None);
}

#[test]
fn music_extensions_with_a_separator_are_refused() {
    assert!(has_separator("a/b"));
    assert!(!has_separator("mmd"));
    let config = Uk2Config::parse_text("MIDI_EXT=MMD\nFM_EXT=a/b\nLIB=OFF\nSTART=start.mes1\n").unwrap();
    assert!(checked_music_candidates(&config, "title").is_none());
    let explicit = checked_music_candidates(&config, "title.mmd").unwrap();
    assert_eq!(explicit, vec![("title.mmd".to_string(), Uk2MusicKind::Mmd)]);
    let good = Uk2Config::parse_text("MIDI_EXT=MMD\nFM_EXT=MMM\nLIB=OFF\nSTART=start.mes1\n").unwrap();
    assert_eq!(
        checked_music_candidates(&good, "title").unwrap(),
        vec![("title.MMM".to_string(), Uk2MusicKind::Mmm), ("title.MMD".to_string(), Uk2MusicKind::Mmd)]
    );
}
