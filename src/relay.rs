//! Decisions of the drive loop: which chat call each emission of the chunker becomes.
use vstd::prelude::*;

use crate::render::{html_of, sanitize_text, stripped};

verus! {

/// One call to the chat surface.
#[derive(Debug, PartialEq, Eq)]
pub struct Outgoing {
    /// The message to edit, or `None` to send a new one.
    pub edit_id: Option<i32>,
    /// The text to show.
    pub text: String,
    /// Whether `text` is HTML (a sealed message) rather than plain text.
    pub html: bool,
}

/// A sealed message: edit the held message if there is one, else send a new one;
/// either way the next emission starts a new message.
pub fn handle_complete_state(msg_id: &mut Option<i32>, text: &str) -> (r: Outgoing)
    ensures
        r.edit_id == *old(msg_id),
        r.text@ == stripped(html_of(text@)),
        r.html,
        *final(msg_id) == None::<i32>,
{
    let id = msg_id.take();
    Outgoing { edit_id: id, text: sanitize_text(text), html: true }
}

/// A message in progress: edit the held message if there is one, else send a new
/// one (whose id `record_sent` then holds).
pub fn handle_incomplete_state(msg_id: &Option<i32>, text: &str) -> (r: Outgoing)
    ensures
        r.edit_id == *msg_id,
        r.text@ == text@,
        !r.html,
{
    Outgoing { edit_id: *msg_id, text: String::from_str(text), html: false }
}

/// After a call was made: a new message in progress becomes the held message.
pub fn record_sent(msg_id: &mut Option<i32>, sent: &Outgoing, new_id: i32)
    ensures
        *final(msg_id) == if !sent.html && sent.edit_id is None {
            Some(new_id)
        } else {
            *old(msg_id)
        },
{
    if !sent.html && sent.edit_id.is_none() {
        *msg_id = Some(new_id);
    }
}

} // verus!
