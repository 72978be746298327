use chat_relay::commands::{first_word_of, unknown_command_reply};

#[test]
fn unknown_command_echoes_first_word() {
    assert_eq!(
        unknown_command_reply("/foo bar baz"),
        "Unknown command: /foo. Use /help to see available commands."
    );
    assert_eq!(
        unknown_command_reply("  \t/x\u{3000}y"),
        "Unknown command: /x. Use /help to see available commands."
    );
}

#[test]
fn unknown_command_truncates_long_names() {
    let long = format!("/{}", "c".repeat(59));
    let expected = format!(
        "Unknown command: /{}…. Use /help to see available commands.",
        "c".repeat(48)
    );
    assert_eq!(unknown_command_reply(&long), expected);
}

#[test]
fn unknown_command_of_blank_text() {
    assert_eq!(
        unknown_command_reply("   "),
        "Unknown command: . Use /help to see available commands."
    );
}

#[test]
fn first_word_skips_unicode_space() {
    assert_eq!(first_word_of("\u{a0}abc def"), "abc");
    assert_eq!(first_word_of(""), "");
    assert_eq!(first_word_of("one"), "one");
}
