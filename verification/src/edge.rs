//! The trusted boundary of the library: the few places where it leans on
//! code that Verus does not check. Each item names what it relies on.

use vstd::prelude::*;

verus! {

/// What serde_json makes of a text when read as a JSON array of strings:
/// `Some` of the strings on success, `None` on any parse failure. The
/// outcome depends on the text alone.
pub uninterp spec fn json_string_list(s: Seq<char>) -> Option<Seq<Seq<char>>>;

/// Relies on alloc's `String::push`: appends the given character to the end
/// of the string.
pub assume_specification[ String::push ](s: &mut String, ch: char)
    ensures
        final(s)@ == old(s)@.push(ch),
;

/// Relies on `serde_json::from_str::<Vec<String>>`: deterministically parses
/// the text as a JSON array of strings, or fails.
#[verifier::external_body]
pub(crate) fn parse_string_list(text: &str) -> (r: Option<Vec<String>>)
    ensures
        match r {
            Some(v) => json_string_list(text@) == Some(v.deep_view()),
            None => json_string_list(text@) is None,
        },
{
    serde_json::from_str::<Vec<String>>(text).ok()
}

/// Relies on std's `SystemTime`: the seconds since the Unix epoch by the
/// system clock, or zero if the clock reads earlier than the epoch. Nothing
/// is assumed of the returned value.
#[verifier::external_body]
fn system_clock_secs() -> u64 {
    std::time::SystemTime::now()
        .duration_since(std::time::UNIX_EPOCH)
        .unwrap_or_default()
        .as_secs()
}

/// The current time in seconds since the Unix epoch. Timestamps enter the
/// core only through the caller, so nothing downstream depends on what the
/// clock returns.
pub fn now_ts() -> u64 {
    system_clock_secs()
}

} // verus!
