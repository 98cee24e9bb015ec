use uk2::config::{ConfigError, ConfigKey, Uk2Config};

#[test]
fn parses_reference_style_config() {
    let cfg = Uk2Config::parse_text(
        "MIDI_EXT=MMD\nFM_EXT=MMM\nLIB=OFF\nSTART=start.mes1\nFONT=font.tab1\nEMS=ON\nMOUSE=OFF\n",
    )
    .unwrap();
    assert_eq!(cfg.start, "start.mes1");
    assert!(cfg.ems);
    assert!(!cfg.use_lib);
}

#[test]
fn later_lines_win_and_keys_ignore_case() {
    let cfg = Uk2Config::parse_text(
        "midi_ext = MMD # comment\nFM_EXT=MMM\nLIB=on\nSTART=a.mes1\nstart=b.mes1\n\n",
    )
    .unwrap();
    assert_eq!(cfg.midi_ext, "MMD");
    assert_eq!(cfg.start, "b.mes1");
    assert!(cfg.use_lib);
    assert_eq!(cfg.font, "font.tab");
    assert!(!cfg.ems);
    assert!(!cfg.mouse);
}

#[test]
fn unknown_keys_are_kept_sorted_by_key() {
    let cfg = Uk2Config::parse_text("MIDI_EXT=MMD\nFM_EXT=MMM\nLIB=OFF\nSTART=s\nZED=1\nALPHA=2\nzed=3\n").unwrap();
    assert_eq!(
        cfg.extra,
        vec![("ALPHA".to_owned(), "2".to_owned()), ("ZED".to_owned(), "3".to_owned())]
    );
}

#[test]
fn config_errors_name_the_key() {
    assert_eq!(
        Uk2Config::parse_text("FM_EXT=MMM\nLIB=OFF\nSTART=s\n").err(),
        Some(ConfigError::Missing(ConfigKey::MidiExt))
    );
    assert_eq!(
        Uk2Config::parse_text("MIDI_EXT=MMD\nFM_EXT=MMM\nLIB=maybe\nSTART=s\n").err(),
        Some(ConfigError::NotOnOff(ConfigKey::Lib))
    );
    assert_eq!(
        Uk2Config::parse_text("MIDI_EXT=MMD\nFM_EXT=MMM\nLIB=OFF\nSTART=s\nMOUSE=yes\n").err(),
        Some(ConfigError::NotOnOff(ConfigKey::Mouse))
    );
}

#[test]
fn parses_shift_jis_bytes_and_drops_end_of_file_marker() {
    let cfg = Uk2Config::parse_bytes(b"MIDI_EXT=MMD\r\nFM_EXT=MMM\r\nLIB=OFF\r\nSTART=x.mes1\r\n\x1a").unwrap();
    assert_eq!(cfg.start, "x.mes1");
    assert_eq!(Uk2Config::parse_bytes(&[0x82]).err(), Some(ConfigError::BadEncoding));
}
