//! Replies to chat commands.
use vstd::prelude::*;

use crate::util::{truncate_str, truncated};

verus! {

/// Longest command name echoed back in a reply.
pub const COMMAND_ECHO_LEN: usize = 50;

/// The Unicode White_Space characters, which separate words.
pub open spec fn is_space(c: char) -> bool {
    c == '\t' || c == '\n' || c == '\u{0B}' || c == '\u{0C}' || c == '\r' || c == ' ' || c
        == '\u{85}' || c == '\u{A0}' || c == '\u{1680}' || ('\u{2000}' <= c && c <= '\u{200A}')
        || c == '\u{2028}' || c == '\u{2029}' || c == '\u{202F}' || c == '\u{205F}' || c
        == '\u{3000}'
}

fn is_space_char(c: char) -> (r: bool)
    ensures
        r == is_space(c),
{
    c == '\t' || c == '\n' || c == '\u{0B}' || c == '\u{0C}' || c == '\r' || c == ' ' || c
        == '\u{85}' || c == '\u{A0}' || c == '\u{1680}' || ('\u{2000}' <= c && c <= '\u{200A}')
        || c == '\u{2028}' || c == '\u{2029}' || c == '\u{202F}' || c == '\u{205F}' || c
        == '\u{3000}'
}

/// The characters of `s` up to its first white space.
pub open spec fn leading_word(s: Seq<char>) -> Seq<char>
    decreases s.len(),
{
    if s.len() == 0 || is_space(s[0]) {
        Seq::empty()
    } else {
        seq![s[0]] + leading_word(s.skip(1))
    }
}

/// The first word of `s`, white space around it left out (empty if there is none).
pub open spec fn first_word(s: Seq<char>) -> Seq<char>
    decreases s.len(),
{
    if s.len() == 0 {
        Seq::empty()
    } else if is_space(s[0]) {
        first_word(s.skip(1))
    } else {
        leading_word(s)
    }
}

/// The reply to a command that is not known.
pub open spec fn unknown_command_text(s: Seq<char>) -> Seq<char> {
    "Unknown command: "@ + truncated(first_word(s), COMMAND_ECHO_LEN as nat)
        + ". Use /help to see available commands."@
}

/// The first word of `s`.
pub fn first_word_of(s: &str) -> (r: String)
    ensures
        r@ == first_word(s@),
{
    let n = s.unicode_len();
    let mut i: usize = 0;
    assert(s@.skip(0) =~= s@);
    while i < n && is_space_char(s.get_char(i))
        invariant
            i <= n,
            n == s@.len(),
            first_word(s@.skip(i as int)) == first_word(s@),
        decreases n - i,
    {
        assert(s@.skip(i as int).skip(1) =~= s@.skip(i + 1));
        i += 1;
    }
    let mut j: usize = i;
    assert(s@.subrange(i as int, j as int) =~= Seq::<char>::empty());
    while j < n && !is_space_char(s.get_char(j))
        invariant
            i <= j <= n,
            n == s@.len(),
            leading_word(s@.skip(i as int)) == s@.subrange(i as int, j as int) + leading_word(
                s@.skip(j as int),
            ),
        decreases n - j,
    {
        assert(s@.skip(j as int).skip(1) =~= s@.skip(j + 1));
        assert(s@.subrange(i as int, j + 1) =~= s@.subrange(i as int, j as int) + seq![s@[j as int]]);
        j += 1;
    }
    proof {
        if i < n {
            assert(!is_space(s@.skip(i as int)[0]));
        } else {
            assert(s@.skip(i as int) =~= Seq::<char>::empty());
        }
        if j < n {
            assert(is_space(s@.skip(j as int)[0]));
        } else {
            assert(s@.skip(j as int) =~= Seq::<char>::empty());
        }
        assert(s@.subrange(i as int, j as int) + Seq::<char>::empty() =~= s@.subrange(i as int, j as int));
    }
    String::from_str(s.substring_char(i, j))
}

/// The reply to a command that is not known: its first word, cut to a readable
/// length, and a pointer to the help.
pub fn unknown_command_reply(text: &str) -> (r: String)
    ensures
        r@ == unknown_command_text(text@),
{
    let word = first_word_of(text);
    let cmd = truncate_str(word.as_str(), COMMAND_ECHO_LEN);
    let mut r = String::from_str("Unknown command: ");
    r.append(cmd.as_str());
    r.append(". Use /help to see available commands.");
    r
}

} // verus!
