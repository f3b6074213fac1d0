use hop::keymap::{lookup, parse_combo};
use hop::keys::Usage;

#[test]
fn recognizes_all_eight_modifiers() {
    assert_eq!(lookup("LeftCtrl"), Some(Usage(Usage::LEFT_CTRL)));
    assert_eq!(lookup("LeftShift"), Some(Usage(Usage::LEFT_SHIFT)));
    assert_eq!(lookup("LeftAlt"), Some(Usage(Usage::LEFT_ALT)));
    assert_eq!(lookup("LeftGui"), Some(Usage(Usage::LEFT_GUI)));
    assert_eq!(lookup("RightCtrl"), Some(Usage(Usage::RIGHT_CTRL)));
    assert_eq!(lookup("RightShift"), Some(Usage(Usage::RIGHT_SHIFT)));
    assert_eq!(lookup("RightAlt"), Some(Usage(Usage::RIGHT_ALT)));
    assert_eq!(lookup("RightGui"), Some(Usage(Usage::RIGHT_GUI)));
}

#[test]
fn recognizes_letters() {
    assert_eq!(lookup("A"), Some(Usage(Usage::A)));
    assert_eq!(lookup("C"), Some(Usage(Usage::C)));
    assert_eq!(lookup("V"), Some(Usage(Usage::V)));
    assert_eq!(lookup("Z"), Some(Usage(0x1D)));
    assert_eq!(lookup("a"), None, "names are case sensitive");
}

#[test]
fn recognizes_digits() {
    assert_eq!(lookup("1"), Some(Usage(0x1E)));
    assert_eq!(lookup("9"), Some(Usage(0x26)));
    assert_eq!(lookup("0"), Some(Usage(0x27)));
}

#[test]
fn recognizes_arrow_keys() {
    assert_eq!(lookup("Up"), Some(Usage(0x52)));
    assert_eq!(lookup("Down"), Some(Usage(0x51)));
    assert_eq!(lookup("Left"), Some(Usage(0x50)));
    assert_eq!(lookup("Right"), Some(Usage(0x4F)));
}

#[test]
fn recognizes_function_keys() {
    assert_eq!(lookup("F1"), Some(Usage(0x3A)));
    assert_eq!(lookup("F12"), Some(Usage(0x45)));
    assert_eq!(lookup("F13"), None, "only F1..=F12 are defined");
}

#[test]
fn recognizes_escape() {
    assert_eq!(lookup("Escape"), Some(Usage(Usage::ESCAPE)));
}

#[test]
fn unknown_names_return_none() {
    assert_eq!(lookup("NotAKey"), None);
    assert_eq!(lookup(""), None);
}

#[test]
fn a_combination_is_its_keys_in_order() {
    assert_eq!(
        parse_combo("LeftCtrl+LeftAlt+Escape"),
        Ok(vec![Usage(Usage::LEFT_CTRL), Usage(Usage::LEFT_ALT), Usage(Usage::ESCAPE)])
    );
    assert_eq!(parse_combo("A"), Ok(vec![Usage(Usage::A)]));
}

#[test]
fn the_first_unknown_name_is_the_one_complained_about() {
    assert_eq!(parse_combo("LeftCtrl+Nope+Nada"), Err("Nope".to_string()));
    assert_eq!(parse_combo("A+"), Err(String::new()));
    assert_eq!(parse_combo(""), Err(String::new()));
}

#[test]
fn function_keys_have_one_spelling() {
    for n in 1..=12u16 {
        assert_eq!(lookup(&format!("F{n}")), Some(Usage(0x39 + n)));
    }
    for name in ["F+1", "F01", "F0", "F13", "f1", "F 1", "F1 ", "F-1"] {
        assert_eq!(lookup(name), None, "{name}");
    }
}

#[test]
fn no_two_names_share_a_key() {
    let mut names: Vec<String> = Vec::new();
    for side in ["Left", "Right"] {
        for kind in ["Ctrl", "Shift", "Alt", "Gui"] {
            names.push(format!("{side}{kind}"));
        }
    }
    names.extend(('A'..='Z').map(String::from));
    names.extend(('0'..='9').map(String::from));
    names.extend((1..=12).map(|n| format!("F{n}")));
    names.extend(["Up", "Down", "Left", "Right", "Escape"].map(String::from));
    let mut codes: Vec<u16> = names.iter().map(|name| lookup(name).expect("a key").0).collect();
    codes.sort_unstable();
    codes.dedup();
    assert_eq!(codes.len(), names.len());
}
