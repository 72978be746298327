use chat_relay::relay::{handle_complete_state, handle_incomplete_state, record_sent, Outgoing};

#[test]
fn first_soft_flush_sends_then_edits() {
    let mut id: Option<i32> = None;
    let out = handle_incomplete_state(&id, "partial");
    assert_eq!(
        out,
        Outgoing { edit_id: None, text: "partial".to_string(), html: false }
    );
    record_sent(&mut id, &out, 42);
    assert_eq!(id, Some(42));
    let out = handle_incomplete_state(&id, "partial more");
    assert_eq!(out.edit_id, Some(42));
    record_sent(&mut id, &out, 43);
    assert_eq!(id, Some(42));
}

#[test]
fn seal_edits_held_message_and_drops_it() {
    let mut id: Option<i32> = Some(5);
    let out = handle_complete_state(&mut id, "done");
    assert_eq!(out.edit_id, Some(5));
    assert!(out.html);
    assert_eq!(out.text, "done");
    assert_eq!(id, None);
    record_sent(&mut id, &out, 6);
    assert_eq!(id, None);
}

#[test]
fn seal_without_held_message_sends_new_one() {
    let mut id: Option<i32> = None;
    let out = handle_complete_state(&mut id, "# Head");
    assert_eq!(out.edit_id, None);
    assert_eq!(out.text, "Head");
    record_sent(&mut id, &out, 9);
    assert_eq!(id, None);
}
