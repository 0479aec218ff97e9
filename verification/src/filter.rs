//! The event filter: decides whether a message belongs to the mining
//! subsystem and, if it reports a share, which worker submitted it.

use crate::text::{
    chars_of, contains, find_last, has_substring, is_last_occurrence, occurs_at, string_of,
    trim_from, trimmed,
};
use vstd::prelude::*;

verus! {

/// What a message is to the share count.
#[derive(Debug)]
pub enum Verdict {
    /// The message does not carry the subsystem tag.
    Unrelated,
    /// The message carries the tag but reports no share.
    NoShare,
    /// The message reports a share of the named worker.
    Share(String),
}

/// The tag that every message of the mining subsystem carries.
pub open spec fn subsystem_tag() -> Seq<char> {
    "mining"@
}

/// The words that stand before the worker's name in a share report.
pub open spec fn share_marker() -> Seq<char> {
    "submitted by "@
}

/// The last position at which `needle` stands in `hay`, where it stands
/// there at all.
pub open spec fn last_occurrence(hay: Seq<char>, needle: Seq<char>) -> int {
    choose|i: int| is_last_occurrence(hay, needle, i)
}

/// The worker that a message names: what follows the last share marker,
/// without surrounding whitespace. A message without the subsystem tag or
/// without the marker names none.
pub open spec fn worker_key(message: Seq<char>) -> Option<Seq<char>> {
    if has_substring(message, subsystem_tag()) && has_substring(message, share_marker()) {
        Some(
            trimmed(
                message.skip(last_occurrence(message, share_marker()) + share_marker().len()),
            ),
        )
    } else {
        None
    }
}

/// The verdict on a message, with the worker's name as characters.
pub open spec fn verdict_of(message: Seq<char>) -> Option<Option<Seq<char>>> {
    if !has_substring(message, subsystem_tag()) {
        None
    } else {
        Some(worker_key(message))
    }
}

impl Verdict {
    /// The verdict as plain values: `None` for an unrelated message, else
    /// the worker named, if any.
    pub open spec fn parts(self) -> Option<Option<Seq<char>>> {
        match self {
            Verdict::Unrelated => None,
            Verdict::NoShare => Some(None),
            Verdict::Share(w) => Some(Some(w@)),
        }
    }
}

/// A last occurrence is the only one.
pub proof fn lemma_last_occurrence_unique(hay: Seq<char>, needle: Seq<char>, i: int)
    requires
        is_last_occurrence(hay, needle, i),
    ensures
        last_occurrence(hay, needle) == i,
        has_substring(hay, needle),
{
    let j = last_occurrence(hay, needle);
    assert(is_last_occurrence(hay, needle, j));
    if i < j {
        assert(!occurs_at(hay, needle, j));
    }
    if j < i {
        assert(!occurs_at(hay, needle, i));
    }
}

/// Classifies a message.
pub fn classify(message: &str) -> (v: Verdict)
    ensures
        v.parts() == verdict_of(message@),
{
    let text = chars_of(message);
    let tag = chars_of("mining");
    if !contains(&text, &tag) {
        return Verdict::Unrelated;
    }
    let marker = chars_of("submitted by ");
    match find_last(&text, &marker) {
        Some(at) => {
            proof {
                lemma_last_occurrence_unique(text@, marker@, at as int);
            }
            let name = trim_from(&text, at + marker.len());
            Verdict::Share(string_of(&name))
        },
        None => Verdict::NoShare,
    }
}

/// The worker whose share a message reports, if it reports one.
pub fn worker_of(message: &str) -> (w: Option<String>)
    ensures
        match w {
            Some(name) => worker_key(message@) == Some(name@),
            None => worker_key(message@) is None,
        },
{
    match classify(message) {
        Verdict::Share(name) => Some(name),
        _ => None,
    }
}

} // verus!
