use infinityper::Key;

#[test]
fn space_has_a_name() {
    assert_eq!(Key::Char(' ').to_string(), "<Space>");
}

#[test]
fn control_space_has_a_name() {
    assert_eq!(Key::Ctrl(' ').to_string(), "<Ctrl+Space>");
}

#[test]
fn plain_character_stands_for_itself() {
    assert_eq!(Key::Char('a').to_string(), "a");
    assert_eq!(Key::Char('é').to_string(), "é");
    assert_eq!(Key::Char('<').to_string(), "<");
}

#[test]
fn control_chord_names_its_character() {
    assert_eq!(Key::Ctrl('c').to_string(), "<Ctrl+c>");
    assert_eq!(Key::Ctrl('Z').to_string(), "<Ctrl+Z>");
}

#[test]
fn named_keys_are_bracketed() {
    assert_eq!(Key::Enter.to_string(), "<Enter>");
    assert_eq!(Key::Tab.to_string(), "<Tab>");
    assert_eq!(Key::Backspace.to_string(), "<Backspace>");
    assert_eq!(Key::Esc.to_string(), "<Esc>");
}

#[test]
fn unknown_key_is_not_bracketed() {
    assert_eq!(Key::Unknown.to_string(), "Unknown");
}

#[test]
fn keys_compare_by_kind_and_character() {
    assert_eq!(Key::Char('a'), Key::Char('a'));
    assert_ne!(Key::Char('a'), Key::Ctrl('a'));
    assert_ne!(Key::Char('a'), Key::Char('b'));
    let copy = Key::Enter;
    assert_eq!(copy, Key::Enter);
    assert_eq!(format!("{:?}", Key::Ctrl('x')), "Ctrl('x')");
}
