use uk2::engine::{HostEvent, SCAN_CTRL, SCAN_RETURN};
use uk2::script::{key_code, parse_script, try_parse_script, Action, ScriptError};

fn chars(s: &str) -> Vec<char> {
    s.chars().collect()
}

#[test]
fn expands_clicks_and_key_taps_across_ticks() {
    let schedule = parse_script("10 click 100 -20 # press\n\n12 key return\n").unwrap();
    assert_eq!(schedule.len(), 5);
    assert_eq!(schedule[&10], vec![Action::Event(HostEvent::MouseMove { x: 100, y: -20 })]);
    assert_eq!(
        schedule[&11],
        vec![Action::Event(HostEvent::MouseButton { left: true, pressed: true })]
    );
    assert_eq!(schedule[&12], vec![Action::Event(HostEvent::Key { code: SCAN_RETURN, pressed: true })]);
    assert_eq!(
        schedule[&14],
        vec![Action::Event(HostEvent::MouseButton { left: true, pressed: false })]
    );
    assert_eq!(schedule[&15], vec![Action::Event(HostEvent::Key { code: SCAN_RETURN, pressed: false })]);
}

#[test]
fn keeps_line_order_within_a_tick_and_reads_shots() {
    let schedule = parse_script("3 rdown\r\n3 shot title.png\n   # only a comment\n3 rup\n2 key 0x34\n").unwrap();
    assert_eq!(
        schedule[&3],
        vec![
            Action::Event(HostEvent::MouseButton { left: false, pressed: true }),
            Action::Shot("title.png".to_owned()),
            Action::Event(HostEvent::MouseButton { left: false, pressed: false }),
        ]
    );
    assert_eq!(schedule[&5], vec![Action::Event(HostEvent::Key { code: 0x34, pressed: false })]);
    assert!(parse_script("").unwrap().is_empty());
}

#[test]
fn script_errors_carry_line_numbers() {
    assert_eq!(parse_script("x down").err(), Some(ScriptError::BadTick(1)));
    assert_eq!(parse_script("1 down\n2 move 5").err(), Some(ScriptError::MissingArgument(2)));
    assert_eq!(parse_script("1 move a 5").err(), Some(ScriptError::BadNumber(1)));
    assert_eq!(parse_script("\n\n1 key NOPE").err(), Some(ScriptError::UnknownKey(3)));
    assert_eq!(parse_script("1 jump").err(), Some(ScriptError::UnknownCommand(1)));
    assert_eq!(parse_script("1").err(), Some(ScriptError::UnknownCommand(1)));
    assert_eq!(parse_script("1 shot").err(), Some(ScriptError::MissingArgument(1)));
}

#[test]
fn key_names_and_hex_codes() {
    assert_eq!(key_code(&chars("Ctrl")), Some(SCAN_CTRL));
    assert_eq!(key_code(&chars("enter")), Some(SCAN_RETURN));
    assert_eq!(key_code(&chars("0x3a")), Some(0x3a));
    assert_eq!(key_code(&chars("1F")), Some(0x1f));
    assert_eq!(key_code(&chars("+7")), Some(7));
    assert_eq!(key_code(&chars("100")), None);
    assert_eq!(key_code(&chars("0x")), None);
}

#[test]
fn ticks_and_coordinates_follow_integer_parsing() {
    let schedule = parse_script("+7 move +3 -2147483648\n").unwrap();
    assert_eq!(schedule[&7], vec![Action::Event(HostEvent::MouseMove { x: 3, y: i32::MIN })]);
    assert_eq!(parse_script("1 move 2147483648 0").err(), Some(ScriptError::BadNumber(1)));
    assert_eq!(parse_script("18446744073709551616 down").err(), Some(ScriptError::BadTick(1)));
    assert!(parse_script("18446744073709551615 down").is_ok());
}

#[test]
fn tick_overflow_is_reported_before_parsing() {
    assert!(try_parse_script("18446744073709551614 click 1 2").is_none());
    assert!(try_parse_script("18446744073709551614 down").unwrap().is_ok());
    assert_eq!(try_parse_script("x down\n18446744073709551614 key return").unwrap().err(), Some(ScriptError::BadTick(1)));
}
