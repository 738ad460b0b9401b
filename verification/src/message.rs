//! The message handler: scans the parts of a message request for the
//! `message` field and turns its trimmed, non-blank text into
//! notification lines. Absence of a message is not an error, and the
//! parts are whatever the multipart reader yielded before it stopped:
//! malformed framing ends the sequence early, the same as a request
//! with no further parts.

use vstd::prelude::*;
use crate::text::trim_of;
use crate::text::trimmed;
use crate::Status;
use crate::admits;
use crate::admits_body;

verus! {

/// One part of a message request, as the multipart reader hands it
/// over: its field name, and its text when the payload decoded as
/// text. `text` is `None` when decoding failed; such a part is
/// ignored, as is any part not named `message`.
pub struct MessagePart {
    pub name: Option<String>,
    pub text: Option<String>,
}

/// A part that yields a notification: named `message`, with decodable
/// text whose trim is non-empty.
pub open spec fn is_note_part(p: MessagePart) -> bool {
    match (p.name, p.text) {
        (Some(n), Some(t)) => n@ == "message"@ && trim_of(t@).len() > 0,
        _ => false,
    }
}

/// The notification text a part yields: its trimmed text.
pub open spec fn note_of(p: MessagePart) -> Seq<char> {
    match p.text {
        Some(t) => trim_of(t@),
        None => Seq::empty(),
    }
}

/// The notifications of the parts from index `i` on, in order.
pub open spec fn notes_from(parts: Seq<MessagePart>, i: int) -> Seq<Seq<char>>
    decreases parts.len() - i,
{
    if i < 0 || i >= parts.len() {
        Seq::empty()
    } else if is_note_part(parts[i]) {
        seq![note_of(parts[i])] + notes_from(parts, i + 1)
    } else {
        notes_from(parts, i + 1)
    }
}

/// The notifications of a whole message request, in part order.
pub open spec fn notes_of(parts: Seq<MessagePart>) -> Seq<Seq<char>> {
    notes_from(parts, 0)
}

/// The texts of a vector of owned notes.
pub open spec fn note_views(v: Seq<String>) -> Seq<Seq<char>> {
    v.map_values(|t: String| t@)
}

/// Outcome of a message request: a status for the response, and the
/// notification lines to print.
pub struct MessageOutcome {
    pub status: Status,
    pub notes: Vec<String>,
}

/// The notification a single part yields, if any: `Some` of the
/// trimmed text exactly when the part is named `message` and its text
/// decoded and is not blank.
pub fn part_note(p: &MessagePart) -> (r: Option<String>)
    ensures
        match r {
            Some(t) => is_note_part(*p) && t@ == note_of(*p),
            None => !is_note_part(*p),
        },
{
    match (&p.name, &p.text) {
        (Some(n), Some(t)) => {
            let key = String::from_str("message");
            if *n == key {
                let tr = trimmed(t.as_str());
                if tr.as_str().is_empty() {
                    None
                } else {
                    Some(tr)
                }
            } else {
                None
            }
        },
        _ => None,
    }
}

/// Collects the notifications of a message request, one for each part
/// named `message` whose text decoded and is not blank after trimming,
/// in part order.
pub fn collect_notes(parts: &Vec<MessagePart>) -> (r: Vec<String>)
    ensures
        note_views(r@) == notes_of(parts@),
{
    let mut notes: Vec<String> = Vec::new();
    let mut i: usize = 0;
    while i < parts.len()
        invariant
            i <= parts.len(),
            note_views(notes@) + notes_from(parts@, i as int) == notes_of(parts@),
        decreases parts.len() - i,
    {
        match part_note(&parts[i]) {
            Some(t) => {
                let ghost prev = notes@;
                notes.push(t);
                proof {
                    assert(note_views(notes@) =~= note_views(prev).push(t@));
                    assert(note_views(prev).push(t@) + notes_from(parts@, i + 1) =~= note_views(
                        prev,
                    ) + notes_from(parts@, i as int));
                }
            },
            None => {},
        }
        i = i + 1;
    }
    assert(note_views(notes@) =~= note_views(notes@) + notes_from(parts@, i as int));
    notes
}

/// Handles a message request under the body size guard: an oversized
/// body is turned away before any part is looked at; otherwise the
/// notifications are collected and the request always succeeds, a
/// missing or blank message included.
pub fn handle_message(limit: Option<u64>, body_len: u64, parts: &Vec<MessagePart>) -> (r:
    MessageOutcome)
    ensures
        !admits(body_len, limit) ==> r.status == Status::PayloadTooLarge && r.notes@.len() == 0,
        admits(body_len, limit) ==> r.status == Status::Success && note_views(r.notes@)
            == notes_of(parts@),
{
    if !admits_body(body_len, limit) {
        MessageOutcome { status: Status::PayloadTooLarge, notes: Vec::new() }
    } else {
        MessageOutcome { status: Status::Success, notes: collect_notes(parts) }
    }
}

} // verus!
