use kk_keymap::keymap::input::KeyCode;
use kk_keymap::keymap::input::KeyInput;
use kk_keymap::keymap::input::Modifiers;
use kk_keymap::keymap::input::ParseError;

fn round_trip(token: &str) {
    let key = KeyInput::parse(token).unwrap();
    assert_eq!(key.serialize(), token);
}

#[test]
fn named_tokens_round_trip() {
    for token in [
        "space", "esc", "enter", "tab", "backspace", "del", "up", "down", "left", "right",
    ] {
        round_trip(token);
    }
}

#[test]
fn function_key_tokens_round_trip() {
    for token in [
        "f1", "f2", "f3", "f4", "f5", "f6", "f7", "f8", "f9", "f10", "f11", "f12",
    ] {
        round_trip(token);
    }
}

#[test]
fn character_tokens_round_trip() {
    for token in ["a", "z", "A", "Z", "0", "9", "-", "~", "!", "C", "S"] {
        round_trip(token);
    }
}

#[test]
fn modified_tokens_round_trip() {
    for token in [
        "C-a", "A-b", "S-c", "C-A-d", "C-S-e", "A-S-f", "C-A-S-g", "C-space", "A-esc",
        "C-A-S-f12", "S--",
    ] {
        round_trip(token);
    }
}

#[test]
fn serialize_then_parse_is_identity() {
    let keys = [
        KeyInput { code: KeyCode::Char('x'), mods: Modifiers { ctrl: true, alt: false, shift: true } },
        KeyInput { code: KeyCode::Space, mods: Modifiers { ctrl: false, alt: true, shift: false } },
        KeyInput { code: KeyCode::F(7), mods: Modifiers { ctrl: true, alt: true, shift: true } },
        KeyInput { code: KeyCode::Enter, mods: Modifiers { ctrl: false, alt: false, shift: false } },
    ];
    for key in keys {
        assert_eq!(KeyInput::parse(&key.serialize()).unwrap(), key);
    }
}

#[test]
fn modifier_order_does_not_matter() {
    let normalized = KeyInput::parse("C-A-x").unwrap();
    let swapped = KeyInput::parse("A-C-x").unwrap();
    assert_eq!(normalized, swapped);
    assert_eq!(KeyInput::parse("S-C-A-k").unwrap(), KeyInput::parse("A-S-C-k").unwrap());
}

#[test]
fn parsed_values_are_structural() {
    assert_eq!(
        KeyInput::parse("space").unwrap(),
        KeyInput { code: KeyCode::Space, mods: Modifiers { ctrl: false, alt: false, shift: false } },
    );
    assert_eq!(
        KeyInput::parse("C-f3").unwrap(),
        KeyInput { code: KeyCode::F(3), mods: Modifiers { ctrl: true, alt: false, shift: false } },
    );
}

#[test]
fn empty_input_is_rejected() {
    assert_eq!(KeyInput::parse(""), Err(ParseError::Empty));
    assert_eq!(KeyInput::parse("C-"), Err(ParseError::Empty));
}

#[test]
fn duplicate_modifier_is_rejected() {
    assert_eq!(KeyInput::parse("C-C-x"), Err(ParseError::DuplicateModifier));
    assert_eq!(KeyInput::parse("A-S-A-x"), Err(ParseError::DuplicateModifier));
}

#[test]
fn unknown_tokens_are_rejected() {
    assert_eq!(KeyInput::parse("spacebar"), Err(ParseError::UnknownToken));
    assert_eq!(KeyInput::parse("f13"), Err(ParseError::UnknownToken));
    assert_eq!(KeyInput::parse("X-a"), Err(ParseError::UnknownToken));
    assert_eq!(KeyInput::parse(" "), Err(ParseError::UnknownToken));
}
