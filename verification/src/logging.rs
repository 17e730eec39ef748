//! Structured log entries, one JSON object per line.
use vstd::prelude::*;

use crate::text::to_owned_string;

verus! {

broadcast use vstd::string::group_string_axioms;

/// One log entry. The optional fields are left out of the JSON where absent.
pub struct Entry<'a> {
    pub timestamp: String,
    /// `info`, `warn` or `fatal`.
    pub level: &'a str,
    pub component: &'a str,
    pub message: &'a str,
    pub pid: Option<u32>,
    pub event_type: Option<&'a str>,
    pub target: Option<&'a str>,
    pub action: Option<&'a str>,
}

/// An entry of the given level with no optional field.
pub open spec fn plain_entry(
    e: Entry,
    level: Seq<char>,
    timestamp: Seq<char>,
    component: Seq<char>,
    message: Seq<char>,
) -> bool {
    &&& e.timestamp@ == timestamp
    &&& e.level@ == level
    &&& e.component@ == component
    &&& e.message@ == message
    &&& e.pid is None
    &&& e.event_type is None
    &&& e.target is None
    &&& e.action is None
}

/// An `info` entry, stamped with `timestamp`.
pub fn info<'a>(timestamp: String, component: &'a str, message: &'a str) -> (e: Entry<'a>)
    ensures
        plain_entry(e, "info"@, timestamp@, component@, message@),
{
    Entry {
        timestamp,
        level: "info",
        component,
        message,
        pid: None,
        event_type: None,
        target: None,
        action: None,
    }
}

/// A `fatal` entry, stamped with `timestamp`.
pub fn fatal<'a>(timestamp: String, component: &'a str, message: &'a str) -> (e: Entry<'a>)
    ensures
        plain_entry(e, "fatal"@, timestamp@, component@, message@),
{
    Entry {
        timestamp,
        level: "fatal",
        component,
        message,
        pid: None,
        event_type: None,
        target: None,
        action: None,
    }
}

/// The line written for an entry that cannot be serialized: its four mandatory
/// fields, as they are, in a JSON object.
pub open spec fn fallback_text(e: Entry) -> Seq<char> {
    "{\"timestamp\":\""@ + e.timestamp@ + "\",\"level\":\""@ + e.level@ + "\",\"component\":\""@
        + e.component@ + "\",\"message\":\""@ + e.message@ + "\"}"@
}

/// Writes the fallback line of an entry.
pub fn fallback_line(e: &Entry) -> (r: String)
    ensures
        r@ == fallback_text(*e),
{
    let mut s = to_owned_string("{\"timestamp\":\"");
    s.append(e.timestamp.as_str());
    s.append("\",\"level\":\"");
    s.append(e.level);
    s.append("\",\"component\":\"");
    s.append(e.component);
    s.append("\",\"message\":\"");
    s.append(e.message);
    s.append("\"}");
    s
}

} // verus!
