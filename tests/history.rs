use chat_relay::history::{History, Role, Turn};

fn turn(role: Role, content: &str) -> Turn {
    Turn { role, content: content.to_string() }
}

#[test]
fn new_conversation_starts_empty() {
    let mut h = History::new();
    assert!(h.get(7).is_empty());
}

#[test]
fn turns_keep_their_order() {
    let mut h = History::new();
    h.append_turn(1, turn(Role::User, "hi"));
    h.append_turn(1, turn(Role::Assistant, "hello"));
    h.append_turn(2, turn(Role::User, "other"));
    assert_eq!(
        h.get(1).clone(),
        vec![turn(Role::User, "hi"), turn(Role::Assistant, "hello")]
    );
    assert_eq!(h.get(2).clone(), vec![turn(Role::User, "other")]);
}

#[test]
fn clear_empties_a_conversation() {
    let mut h = History::new();
    for i in 0..5 {
        h.append_turn(3, turn(Role::User, &format!("m{i}")));
    }
    h.append_turn(4, turn(Role::User, "kept"));
    assert_eq!(h.get(3).len(), 5);
    h.clear(3);
    assert!(h.get(3).is_empty());
    assert_eq!(h.get(4).len(), 1);
}

#[test]
fn clear_of_unknown_conversation_is_harmless() {
    let mut h = History::new();
    h.clear(99);
    assert!(h.get(99).is_empty());
    h.append_turn(99, turn(Role::System, "s"));
    assert_eq!(h.get(99).len(), 1);
}
