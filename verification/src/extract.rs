//! The timestamp extractor: splits a raw log line into the moment it was
//! written and the message that follows.

use crate::clock::{parse_stamp, stamp_of, Timestamp};
use crate::text::{
    chars_of, is_ascii_space, is_word, join_words, joined, lemma_words_of_word_then, single_spaced,
    split_words, string_of, word_views, words,
};
use vstd::prelude::*;

verus! {

/// A log line that began with a date and a time.
#[derive(Debug)]
pub struct ParsedEntry {
    /// When the line was written.
    pub timestamp: Timestamp,
    /// The line's words after the date and the time, single-spaced.
    pub message: String,
}

/// The layout of a line's prefix: the date as `YYYYMMDD`, one space, then
/// the time as `HH:MM:SS` with an optional fraction of a second.
pub open spec fn stamp_format() -> Seq<char> {
    "%Y%m%d %H:%M:%S%.f"@
}

/// The text in which the timestamp is looked for: the first two words with
/// one space between them, or what there is of them.
pub open spec fn head_of_words(ws: Seq<Seq<char>>) -> Seq<char> {
    if ws.len() >= 2 {
        joined(ws.take(2))
    } else {
        joined(ws)
    }
}

/// The message: the words from the third on, joined by single spaces.
pub open spec fn message_of_words(ws: Seq<Seq<char>>) -> Seq<char> {
    if ws.len() >= 2 {
        joined(ws.skip(2))
    } else {
        Seq::empty()
    }
}

/// The text of a line in which the timestamp is looked for.
pub open spec fn head_text(line: Seq<char>) -> Seq<char> {
    head_of_words(words(line))
}

/// The message of a line.
pub open spec fn message_text(line: Seq<char>) -> Seq<char> {
    message_of_words(words(line))
}

/// What a line yields: the timestamp that its head spells and its message,
/// or nothing where the head spells none.
pub open spec fn entry_of(line: Seq<char>) -> Option<((int, int), Seq<char>)> {
    match stamp_of(head_text(line), stamp_format()) {
        Some(stamp) => Some((stamp, message_text(line))),
        None => None,
    }
}

impl ParsedEntry {
    /// The entry as plain values: seconds and nanoseconds, and the message.
    pub open spec fn parts(self) -> ((int, int), Seq<char>) {
        ((self.timestamp.secs as int, self.timestamp.nanos as int), self.message@)
    }
}

/// The text handed to the date and time parser for a line of these words.
pub fn head_of(ws: &Vec<Vec<char>>) -> (head: String)
    ensures
        head@ == head_of_words(word_views(ws@)),
{
    let n: usize = ws.len();
    let cut: usize = if n >= 2 {
        2
    } else {
        n
    };
    proof {
        let all = word_views(ws@);
        assert(all.subrange(0, cut as int) =~= if n >= 2 {
            all.take(2)
        } else {
            all
        });
    }
    string_of(&join_words(ws, 0, cut))
}

/// Pairs the outcome of parsing a line's head with the line's message: an
/// entry where a timestamp was found, nothing where none was.
pub fn entry_with(stamp: Option<Timestamp>, ws: &Vec<Vec<char>>) -> (r: Option<ParsedEntry>)
    ensures
        stamp is None <==> r is None,
        r matches Some(e) ==> Some(e.timestamp) == stamp && e.message@ == message_of_words(
            word_views(ws@),
        ),
{
    match stamp {
        Some(timestamp) => {
            let n: usize = ws.len();
            let rest = if n >= 2 {
                assert(word_views(ws@).subrange(2, n as int) =~= word_views(ws@).skip(2));
                join_words(ws, 2, n)
            } else {
                Vec::new()
            };
            Some(ParsedEntry { timestamp, message: string_of(&rest) })
        },
        None => None,
    }
}

/// Splits `line` into timestamp and message. A line whose first two words do
/// not spell a date and a time yields `None`.
pub fn parse_log_timestamp(line: &str) -> (r: Option<ParsedEntry>)
    ensures
        r is None <==> stamp_of(head_text(line@), stamp_format()) is None,
        match r {
            Some(e) => entry_of(line@) == Some(e.parts()),
            None => entry_of(line@) is None,
        },
{
    let chars = chars_of(line);
    let ws = split_words(&chars);
    let head = head_of(&ws);
    let stamp = parse_stamp(head.as_str(), "%Y%m%d %H:%M:%S%.f");
    entry_with(stamp, &ws)
}

/// A line made of a date, a time and a single-spaced message, with one
/// ASCII whitespace character after each of the first two, yields that
/// message: the line without the two leading words and the one separator
/// that follows them. Without the message and its separator it yields the
/// empty message. The timestamp is looked for in the date and the time with
/// one space between them.
pub proof fn lemma_message_is_remainder(
    date: Seq<char>,
    time: Seq<char>,
    sep1: char,
    sep2: char,
    message: Seq<char>,
)
    requires
        is_word(date),
        is_word(time),
        is_ascii_space(sep1),
        is_ascii_space(sep2),
        single_spaced(message),
    ensures
        head_text(date + seq![sep1] + time + seq![sep2] + message) == date + seq![' '] + time,
        message_text(date + seq![sep1] + time + seq![sep2] + message) == message,
        head_text(date + seq![sep1] + time) == date + seq![' '] + time,
        message_text(date + seq![sep1] + time) == Seq::<char>::empty(),
{
    let pair = seq![date, time];
    assert(pair.drop_last() =~= seq![date]);
    assert(joined(pair.drop_last()) == date);
    assert(joined(pair) == date + seq![' '] + time);

    let long = date + seq![sep1] + time + seq![sep2] + message;
    let rest = time + seq![sep2] + message;
    assert(long =~= date + seq![sep1] + rest);
    lemma_words_of_word_then(date, sep1, rest);
    lemma_words_of_word_then(time, sep2, message);
    let ws = words(long);
    assert(ws =~= pair + words(message));
    assert(ws.take(2) =~= pair);
    assert(ws.skip(2) =~= words(message));

    let short = date + seq![sep1] + time;
    lemma_words_of_word_then(date, sep1, time);
    let vs = words(short);
    assert(vs =~= pair);
    assert(vs.take(2) =~= pair);
    assert(vs.skip(2) =~= Seq::<Seq<char>>::empty());
}

} // verus!
