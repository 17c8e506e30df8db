use source_demo_tool::naming::to_snake;

#[test]
fn camel_case_to_screaming_snake() {
    assert_eq!(to_snake(String::from("ServerInfo"), true), "SERVER_INFO");
    assert_eq!(to_snake(String::from("GameEventList"), true), "GAME_EVENT_LIST");
}

#[test]
fn camel_case_to_snake() {
    assert_eq!(to_snake(String::from("GameEventList"), false), "game_event_list");
    assert_eq!(to_snake(String::from("ABC"), false), "a_b_c");
}

#[test]
fn no_underscore_after_an_underscore() {
    assert_eq!(to_snake(String::from("already_Snake"), true), "ALREADY_SNAKE");
    assert_eq!(to_snake(String::from("_X"), false), "_x");
}

#[test]
fn empty_and_plain() {
    assert_eq!(to_snake(String::new(), true), "");
    assert_eq!(to_snake(String::from("tick"), true), "TICK");
    assert_eq!(to_snake(String::from("v3"), false), "v3");
}

#[test]
fn bytes_above_ascii_become_latin1_characters() {
    assert_eq!(to_snake(String::from("é"), false), "\u{c3}\u{a9}");
}

