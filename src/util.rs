//! Small text helpers.
use vstd::prelude::*;

verus! {

/// `s` cut to at most `max_n` characters: a longer text keeps its first
/// `max_n - 1` characters followed by an ellipsis.
pub open spec fn truncated(s: Seq<char>, max_n: nat) -> Seq<char> {
    if max_n == 0 {
        Seq::empty()
    } else if s.len() > max_n {
        s.take(max_n - 1).push('…')
    } else {
        s
    }
}

/// Shortens `s` to at most `max_n` characters, marking a cut with an ellipsis.
pub fn truncate_str(s: &str, max_n: usize) -> (r: String)
    ensures
        r@ == truncated(s@, max_n as nat),
        r@.len() <= max_n,
{
    if max_n == 0 {
        return String::new();
    }
    let n = s.unicode_len();
    if n > max_n {
        let mut r = String::from_str(s.substring_char(0, max_n - 1));
        proof {
            reveal_strlit("…");
        }
        r.append("…");
        assert(r@ =~= s@.take(max_n - 1).push('…'));
        r
    } else {
        String::from_str(s)
    }
}

} // verus!
