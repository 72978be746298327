use chat_relay::render::{sanitize_text, strip_tags};

#[test]
fn strip_tags_removes_listed_tags() {
    assert_eq!(strip_tags("<p>a</p><br />b"), "ab");
    assert_eq!(strip_tags("<h1>T</h1><ul><li>x</li></ul>"), "Tx");
    assert_eq!(strip_tags("<em>keep</em>"), "<em>keep</em>");
    assert_eq!(strip_tags(""), "");
}

#[test]
fn strip_tags_is_one_pass_per_tag() {
    assert_eq!(strip_tags("<<p>p>"), "<p>");
}

#[test]
fn sanitize_renders_markdown() {
    assert_eq!(sanitize_text("# Title"), "Title");
    assert_eq!(sanitize_text("hello *world*"), "hello <em>world</em>");
    assert_eq!(sanitize_text("`x`"), "<code>x</code>");
}
