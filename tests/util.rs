use chat_relay::util::truncate_str;

#[test]
fn test_truncate_str() {
    assert_eq!(truncate_str("おはよう。", 6), "おはよう。");
    assert_eq!(truncate_str("おはよう。", 5), "おはよう。");
    assert_eq!(truncate_str("おはよう。", 4), "おはよ…");
    assert_eq!(truncate_str("おはよう。", 2), "お…");
    assert_eq!(truncate_str("おはよう。", 1), "…");
    assert_eq!(truncate_str("おはよう。", 0), "");
}

#[test]
fn truncate_str_empty_input() {
    assert_eq!(truncate_str("", 3), "");
    assert_eq!(truncate_str("", 0), "");
}

#[test]
fn truncate_str_ascii_cut() {
    assert_eq!(truncate_str("abcdef", 4), "abc…");
    assert_eq!(truncate_str("abcd", 4), "abcd");
}
