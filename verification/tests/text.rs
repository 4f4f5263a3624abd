use argus::text::{parse_menu_choice, parse_position, repeat_char, MenuChoice};

#[test]
fn repeat_char_builds_rules() {
    assert_eq!(repeat_char('-', 5), "-----");
    assert_eq!(repeat_char('=', 0), "");
    assert_eq!(repeat_char('*', 1), "*");
}

#[test]
fn positions_are_plain_decimal_numbers() {
    assert_eq!(parse_position("1"), Some(1));
    assert_eq!(parse_position("42"), Some(42));
    assert_eq!(parse_position("007"), Some(7));
    assert_eq!(parse_position("0"), Some(0));
}

#[test]
fn bad_position_input_is_rejected() {
    assert_eq!(parse_position(""), None);
    assert_eq!(parse_position("abc"), None);
    assert_eq!(parse_position("1a"), None);
    assert_eq!(parse_position("-1"), None);
    assert_eq!(parse_position("2 "), None);
    assert_eq!(parse_position("99999999999999999999999999999999"), None);
}

#[test]
fn menu_answers_map_to_commands() {
    assert_eq!(parse_menu_choice("1"), MenuChoice::List);
    assert_eq!(parse_menu_choice("2"), MenuChoice::Add);
    assert_eq!(parse_menu_choice("3"), MenuChoice::Finish);
    assert_eq!(parse_menu_choice("4"), MenuChoice::Remove);
    assert_eq!(parse_menu_choice("X"), MenuChoice::Exit);
    assert_eq!(parse_menu_choice("x"), MenuChoice::Exit);
    assert_eq!(parse_menu_choice("5"), MenuChoice::Invalid);
    assert_eq!(parse_menu_choice(""), MenuChoice::Invalid);
    assert_eq!(parse_menu_choice("12"), MenuChoice::Invalid);
}
