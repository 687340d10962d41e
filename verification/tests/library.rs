use wiimote_receiver::bindings::{default_button_bindings, ButtonBindings};
use wiimote_receiver::buttons::{get_pressed_buttons, ButtonState};
use wiimote_receiver::key_binding::{normalized_key_name, parse_key_binding, KeyBinding};
use wiimote_receiver::keyboard_sync::{sync_keyboard_bindings, KeyDirection, KeyEvent};
use wiimote_receiver::reader::{next_action, reporting_mode, ReadOutcome, ReaderAction};

fn no_buttons() -> ButtonState {
    ButtonState {
        a: false,
        b: false,
        one: false,
        two: false,
        plus: false,
        minus: false,
        home: false,
        up: false,
        down: false,
        left: false,
        right: false,
    }
}

fn strings(v: &[&str]) -> Vec<String> {
    v.iter().map(|s| s.to_string()).collect()
}

fn summary(events: &[KeyEvent]) -> Vec<(String, KeyBinding, KeyDirection)> {
    events.iter().map(|e| (e.button.clone(), e.key, e.direction)).collect()
}

#[test]
fn parse_known_key_names() {
    assert_eq!(parse_key_binding("space"), Some(KeyBinding::Space));
    assert_eq!(parse_key_binding("Return"), Some(KeyBinding::Return));
    assert_eq!(parse_key_binding("enter"), Some(KeyBinding::Return));
    assert_eq!(parse_key_binding("ESCAPE"), Some(KeyBinding::Escape));
    assert_eq!(parse_key_binding("esc"), Some(KeyBinding::Escape));
    assert_eq!(parse_key_binding("Backspace"), Some(KeyBinding::Backspace));
    assert_eq!(parse_key_binding("Control"), Some(KeyBinding::Control));
    assert_eq!(parse_key_binding("ctrl"), Some(KeyBinding::Control));
    assert_eq!(parse_key_binding("LeftArrow"), Some(KeyBinding::LeftArrow));
    assert_eq!(parse_key_binding("left"), Some(KeyBinding::LeftArrow));
    assert_eq!(parse_key_binding("RightArrow"), Some(KeyBinding::RightArrow));
    assert_eq!(parse_key_binding("right"), Some(KeyBinding::RightArrow));
    assert_eq!(parse_key_binding("UpArrow"), Some(KeyBinding::UpArrow));
    assert_eq!(parse_key_binding("Up"), Some(KeyBinding::UpArrow));
    assert_eq!(parse_key_binding("DownArrow"), Some(KeyBinding::DownArrow));
    assert_eq!(parse_key_binding("down"), Some(KeyBinding::DownArrow));
}

#[test]
fn parse_single_characters() {
    assert_eq!(parse_key_binding("S"), Some(KeyBinding::Unicode('s')));
    assert_eq!(parse_key_binding("w"), Some(KeyBinding::Unicode('w')));
    assert_eq!(parse_key_binding("7"), Some(KeyBinding::Unicode('7')));
    assert_eq!(parse_key_binding("-"), None);
    assert_eq!(parse_key_binding("é"), None);
    assert_eq!(parse_key_binding("ab"), None);
}

#[test]
fn parse_rejects_unknown_and_empty_names() {
    assert_eq!(parse_key_binding(""), None);
    assert_eq!(parse_key_binding("   "), None);
    assert_eq!(parse_key_binding("spacebar"), None);
    assert_eq!(parse_key_binding("sp ace"), None);
    assert_eq!(parse_key_binding("F1"), None);
}

#[test]
fn parse_ignores_surrounding_white_space_and_case() {
    assert_eq!(parse_key_binding("  SpAcE\t\n"), Some(KeyBinding::Space));
    assert_eq!(parse_key_binding("\u{a0}ctrl\u{3000}"), Some(KeyBinding::Control));
    assert_eq!(parse_key_binding(" x "), Some(KeyBinding::Unicode('x')));
}

#[test]
fn normalized_name_matches_trim_and_lowercase() {
    for name in ["  Hello World ", "\u{2003}MiXeD\u{85}", "ÄBC", "", " \t "] {
        let expected: Vec<char> = name.trim().to_ascii_lowercase().chars().collect();
        assert_eq!(normalized_key_name(name), expected);
    }
}

#[test]
fn white_space_agrees_with_char_is_whitespace() {
    for u in 0u32..0x3100 {
        if let Some(c) = char::from_u32(u) {
            let s = format!("{c}a{c}");
            let expected: Vec<char> = s.trim().to_ascii_lowercase().chars().collect();
            assert_eq!(normalized_key_name(&s), expected, "char {u:#x}");
        }
    }
}

#[test]
fn pressed_buttons_in_reporting_order() {
    let mut state = no_buttons();
    assert!(get_pressed_buttons(&state).is_empty());
    state.right = true;
    state.a = true;
    state.home = true;
    state.two = true;
    assert_eq!(get_pressed_buttons(&state), strings(&["A", "2", "HOME", "RIGHT"]));
    let all = ButtonState {
        a: true,
        b: true,
        one: true,
        two: true,
        plus: true,
        minus: true,
        home: true,
        up: true,
        down: true,
        left: true,
        right: true,
    };
    assert_eq!(
        get_pressed_buttons(&all),
        strings(&["A", "B", "1", "2", "+", "-", "HOME", "UP", "DOWN", "LEFT", "RIGHT"])
    );
}

#[test]
fn default_bindings_are_the_shipped_table() {
    let b = default_button_bindings();
    let expected = [
        ("A", "Control"),
        ("B", "Space"),
        ("1", "S"),
        ("2", "W"),
        ("+", "Return"),
        ("-", "Backspace"),
        ("HOME", "Escape"),
        ("UP", "LeftArrow"),
        ("DOWN", "RightArrow"),
        ("LEFT", "DownArrow"),
        ("RIGHT", "UpArrow"),
    ];
    for (button, key) in expected {
        assert_eq!(b.get(button).map(|s| s.as_str()), Some(key));
    }
    assert_eq!(b.get("C"), None);
    assert_eq!(parse_key_binding(b.get("1").unwrap()), Some(KeyBinding::Unicode('s')));
}

#[test]
fn bindings_insert_replaces() {
    let mut b = ButtonBindings::new();
    assert_eq!(b.get("A"), None);
    b.insert("A".to_string(), "Space".to_string());
    b.insert("B".to_string(), "x".to_string());
    b.insert("A".to_string(), "Return".to_string());
    assert_eq!(b.get("A").map(|s| s.as_str()), Some("Return"));
    assert_eq!(b.get("B").map(|s| s.as_str()), Some("x"));
    assert_eq!(b.pairs().len(), 3);
}

#[test]
fn sync_presses_new_and_releases_old_buttons() {
    let bindings = default_button_bindings();
    let mut prev = strings(&["B", "HOME"]);
    let events = sync_keyboard_bindings(&strings(&["A", "B", "A", "1"]), &mut prev, &bindings, true);
    assert_eq!(
        summary(&events),
        vec![
            ("A".to_string(), KeyBinding::Control, KeyDirection::Press),
            ("1".to_string(), KeyBinding::Unicode('s'), KeyDirection::Press),
            ("HOME".to_string(), KeyBinding::Escape, KeyDirection::Release),
        ]
    );
    assert_eq!(prev, strings(&["A", "B", "1"]));
}

#[test]
fn sync_again_sends_nothing() {
    let bindings = default_button_bindings();
    let mut prev = Vec::new();
    let held = strings(&["UP", "2"]);
    let first = sync_keyboard_bindings(&held, &mut prev, &bindings, true);
    assert_eq!(first.len(), 2);
    let second = sync_keyboard_bindings(&held, &mut prev, &bindings, true);
    assert!(second.is_empty());
}

#[test]
fn sync_press_then_release() {
    let bindings = default_button_bindings();
    let mut prev = Vec::new();
    let first = sync_keyboard_bindings(&strings(&["DOWN"]), &mut prev, &bindings, true);
    assert_eq!(
        summary(&first),
        vec![("DOWN".to_string(), KeyBinding::RightArrow, KeyDirection::Press)]
    );
    let second = sync_keyboard_bindings(&Vec::new(), &mut prev, &bindings, true);
    assert_eq!(
        summary(&second),
        vec![("DOWN".to_string(), KeyBinding::RightArrow, KeyDirection::Release)]
    );
    assert!(prev.is_empty());
}

#[test]
fn sync_skips_unbound_and_unparsable_buttons() {
    let mut bindings = ButtonBindings::new();
    bindings.insert("A".to_string(), "not a key".to_string());
    let mut prev = Vec::new();
    let events = sync_keyboard_bindings(&strings(&["A", "B"]), &mut prev, &bindings, true);
    assert!(events.is_empty());
    assert_eq!(prev, strings(&["A", "B"]));
}

#[test]
fn sync_without_keyboard_changes_nothing() {
    let bindings = default_button_bindings();
    let mut prev = strings(&["B"]);
    let events = sync_keyboard_bindings(&strings(&["A"]), &mut prev, &bindings, false);
    assert!(events.is_empty());
    assert_eq!(prev, strings(&["B"]));
}

#[test]
fn reporting_mode_follows_motion_plus() {
    assert_eq!(reporting_mode(true), 0x35);
    assert_eq!(reporting_mode(false), 0x31);
}

#[test]
fn reader_actions() {
    assert_eq!(next_action(0x35, ReadOutcome::Status), ReaderAction::SetReportingMode(0x35));
    assert_eq!(next_action(0x31, ReadOutcome::Status), ReaderAction::SetReportingMode(0x31));
    assert_eq!(next_action(0x31, ReadOutcome::Data(0x31)), ReaderAction::ProcessSample);
    assert_eq!(next_action(0x31, ReadOutcome::Data(0x35)), ReaderAction::ProcessSample);
    assert_eq!(next_action(0x35, ReadOutcome::Data(0x30)), ReaderAction::Ignore);
    assert_eq!(next_action(0x35, ReadOutcome::OtherReport), ReaderAction::Ignore);
    assert_eq!(next_action(0x35, ReadOutcome::Failed), ReaderAction::Ignore);
}
