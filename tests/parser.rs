use chat_relay::parser::{MessageParser, ParserEvent, MSG_CHUNK_LEN, MSG_MAX_LEN};

fn run(lines: &[&str], max_len: usize, chunk_len: usize) -> Vec<ParserEvent> {
    let mut parser = MessageParser::with_limits(max_len, chunk_len);
    let mut out = Vec::new();
    for line in lines {
        let e = parser.next_state(Some(line));
        if e != ParserEvent::Continuing {
            out.push(e);
        }
    }
    let e = parser.next_state(None);
    if e != ParserEvent::Continuing {
        out.push(e);
    }
    out
}

fn sealed(events: &[ParserEvent]) -> Vec<String> {
    events
        .iter()
        .filter_map(|e| match e {
            ParserEvent::Sealed(t) => Some(t.clone()),
            _ => None,
        })
        .collect()
}

#[test]
fn two_short_lines_seal_once_at_end() {
    let events = run(&["hello", "world"], 4000, 500);
    assert_eq!(events, vec![ParserEvent::Sealed("hello\nworld".to_string())]);
}

#[test]
fn default_limits_match_the_constants() {
    assert_eq!(MSG_MAX_LEN, 4000);
    assert_eq!(MSG_CHUNK_LEN, 500);
    let mut parser = MessageParser::new();
    assert_eq!(parser.next_state(Some("hello")), ParserEvent::Continuing);
    assert_eq!(parser.next_state(Some("world")), ParserEvent::Continuing);
    assert_eq!(parser.next_state(None), ParserEvent::Sealed("hello\nworld".to_string()));
}

#[test]
fn forced_seal_after_eighth_long_line() {
    let line = "a".repeat(450);
    let lines: Vec<&str> = (0..10).map(|_| line.as_str()).collect();
    // a unit larger than the ceiling keeps soft flushes out of the way
    let events = run(&lines, 4000, 100_000);
    let seals = sealed(&events);
    assert_eq!(seals.len(), 2);
    let first: String = (0..8).map(|_| format!("{line}\n")).collect();
    assert_eq!(seals[0], first);
    assert_eq!(seals[1], format!("{line}\n{line}"));
    assert_eq!(events.len(), 2);
}

#[test]
fn forced_seal_with_default_unit_keeps_order() {
    let line = "b".repeat(450);
    let lines: Vec<&str> = (0..10).map(|_| line.as_str()).collect();
    let events = run(&lines, 4000, 500);
    let seals = sealed(&events);
    assert_eq!(seals.len(), 2);
    assert_eq!(seals[0].chars().count(), 8 * 451);
    assert_eq!(seals[1].chars().count(), 2 * 450 + 1);
    for e in &events {
        if let ParserEvent::SoftFlush(t) = e {
            assert!(t.chars().count() <= 4000);
        }
    }
}

#[test]
fn code_block_within_ceiling_is_unmodified() {
    let events = run(&["```python", "code line", "```"], 4000, 500);
    assert_eq!(
        events,
        vec![ParserEvent::Sealed("```python\ncode line\n```".to_string())]
    );
    let mut parser = MessageParser::new();
    parser.next_state(Some("```python"));
    assert!(parser.state().is_in_code_block());
    parser.next_state(Some("code line"));
    parser.next_state(Some("```"));
    assert!(!parser.state().is_complete);
    assert!(!parser.state().is_in_code_block());
    assert_eq!(parser.next_state(None), ParserEvent::Sealed("```python\ncode line\n```".to_string()));
}

#[test]
fn long_code_block_is_split_with_fences() {
    let body = "x".repeat(30);
    let mut lines = vec!["```rust".to_string()];
    for _ in 0..10 {
        lines.push(body.clone());
    }
    lines.push("```".to_string());
    let refs: Vec<&str> = lines.iter().map(|s| s.as_str()).collect();
    let events = run(&refs, 100, 1000);
    let seals = sealed(&events);
    assert!(seals.len() >= 2);
    assert!(seals[0].starts_with("```rust\n"));
    assert!(seals[0].ends_with("\n```\n"));
    assert!(seals[1].starts_with("```rust\n"));
    for s in &seals {
        assert!(s.chars().count() <= 100);
    }
    assert!(seals.last().unwrap().ends_with("```"));
}

#[test]
fn seals_restore_the_input() {
    let lines = ["intro", "```py", "0123456789", "abcdefghij", "```", "outro"];
    let seals = sealed(&run(&lines, 30, 1000));
    assert_eq!(
        seals,
        vec![
            "intro\n```py\n0123456789\n```\n".to_string(),
            "```py\nabcdefghij\n```\noutro".to_string(),
        ]
    );
    let first = seals[0].strip_suffix("```\n").unwrap();
    let second = seals[1].strip_prefix("```py\n").unwrap();
    assert_eq!(format!("{first}{second}"), lines.join("\n"));
}

#[test]
fn soft_flushes_grow_and_reset_after_seal() {
    let line = "z".repeat(99);
    let lines: Vec<&str> = (0..30).map(|_| line.as_str()).collect();
    let events = run(&lines, 1000, 200);
    let mut last_len = 0;
    let mut flushes_since_seal = 0;
    let mut seals = 0;
    for e in &events {
        match e {
            ParserEvent::SoftFlush(t) => {
                let n = t.chars().count();
                assert!(n >= last_len);
                flushes_since_seal += 1;
                assert!(n / 200 >= flushes_since_seal);
                last_len = n;
            }
            ParserEvent::Sealed(_) => {
                seals += 1;
                last_len = 0;
                flushes_since_seal = 0;
            }
            ParserEvent::Continuing => unreachable!(),
        }
    }
    assert!(seals >= 3);
}

#[test]
fn first_soft_flush_at_one_unit() {
    let mut parser = MessageParser::with_limits(4000, 10);
    assert_eq!(parser.next_state(Some("abcd")), ParserEvent::Continuing);
    assert_eq!(
        parser.next_state(Some("efghi")),
        ParserEvent::SoftFlush("abcd\nefghi\n".to_string())
    );
    assert_eq!(parser.next_state(Some("j")), ParserEvent::Continuing);
    assert_eq!(
        parser.next_state(Some("klmnopq")),
        ParserEvent::SoftFlush("abcd\nefghi\nj\nklmnopq\n".to_string())
    );
}

#[test]
fn empty_input_emits_nothing() {
    let mut parser = MessageParser::new();
    assert_eq!(parser.next_state(None), ParserEvent::Continuing);
}

#[test]
fn oversized_line_is_kept_whole() {
    let big = "w".repeat(50);
    let events = run(&["a", big.as_str(), "b"], 20, 1000);
    let seals = sealed(&events);
    assert_eq!(seals[0], "a\n");
    assert_eq!(seals[1], format!("{big}\n"));
    assert_eq!(seals[2], "b");
}

#[test]
fn closing_fence_reserve_counts() {
    // inside a code block the seal keeps room for the closing fence
    let events = run(&["```", "12345", "6789"], 16, 1000);
    let seals = sealed(&events);
    assert_eq!(seals[0], "```\n12345\n```\n");
    assert_eq!(seals[1], "```\n6789\n```");
}

#[test]
fn multibyte_text_counts_characters() {
    let events = run(&["おはよう", "こんにちは"], 10, 1000);
    assert_eq!(
        sealed(&events),
        vec!["おはよう\n".to_string(), "こんにちは".to_string()]
    );
}
