//! From a decoded record to the tenant it is charged to.
//!
//! The tenant identifier is the run of decimal digits that follows
//! `tenant_id`, optional whitespace, `=` and optional whitespace in the
//! query text. It is kept as text: `007` stays `007`.

use vstd::prelude::*;
use vstd::utf8::{decode_utf8, valid_utf8};
use regex::Regex;
use crate::schema::{text_len, QueryEvent};

verus! {

/// The pattern that finds the tenant identifier: its first group holds
/// the digits.
pub const TENANT_PATTERN: &'static str = "tenant_id\\s*=\\s*(\\d+)";

/// A record that has been charged to a tenant.
#[derive(Clone, Debug, PartialEq, Eq)]
pub struct ProcessedQueryEvent {
    pub tenant_id: String,
    pub duration_micro: u64,
}

impl View for ProcessedQueryEvent {
    type V = (Seq<char>, u64);

    open spec fn view(&self) -> (Seq<char>, u64) {
        (self.tenant_id@, self.duration_micro)
    }
}

/// The text that `bytes` decode to when every invalid UTF-8 sequence is
/// replaced by U+FFFD.
pub uninterp spec fn utf8_lossy(bytes: Seq<u8>) -> Seq<char>;

/// What the first group of the leftmost match of the regular expression
/// `pattern` in `haystack` holds; `None` where `pattern` is no regular
/// expression, where nothing matches, or where the group took no part in
/// the match.
pub uninterp spec fn regex_first_group(pattern: Seq<char>, haystack: Seq<char>) -> Option<Seq<char>>;

/// The characters of an optional string.
pub open spec fn text_of(s: Option<String>) -> Option<Seq<char>> {
    match s {
        Some(s) => Some(s@),
        None => None,
    }
}

/// The tenant identifier found in `query`, if any.
pub open spec fn tenant_of(query: Seq<char>) -> Option<Seq<char>> {
    regex_first_group(TENANT_PATTERN@, query)
}

/// The text that a query buffer holds: its bytes up to the first zero
/// byte, decoded leniently. What stands behind that byte is no query text.
pub open spec fn buffer_text(buf: Seq<u8>) -> Seq<char> {
    utf8_lossy(buf.take(text_len(buf) as int))
}

/// The query text of a record as the drain reads it.
pub open spec fn query_text(event: QueryEvent) -> Seq<char> {
    buffer_text(event.query@)
}

/// What a record becomes, given the tenant found in its text: charged to
/// that tenant with its duration, or nothing where no tenant was found.
pub open spec fn charged(tenant: Option<Seq<char>>, duration_micro: u64) -> Option<(Seq<char>, u64)> {
    match tenant {
        Some(t) => Some((t, duration_micro)),
        None => None,
    }
}

/// The view of an optional processed record.
pub open spec fn processed_view(e: Option<ProcessedQueryEvent>) -> Option<(Seq<char>, u64)> {
    match e {
        Some(e) => Some(e@),
        None => None,
    }
}

/// The views of a sequence of processed records.
pub open spec fn charge_views(events: Seq<ProcessedQueryEvent>) -> Seq<(Seq<char>, u64)> {
    events.map_values(|e: ProcessedQueryEvent| e@)
}

/// `String::from_utf8_lossy` of std, made into an owned string. The result
/// is a function of the bytes alone, named `utf8_lossy`; bytes that are
/// valid UTF-8 decode to the text they encode.
#[verifier::external_body]
fn lossy_text(bytes: &[u8]) -> (text: String)
    ensures
        text@ == utf8_lossy(bytes@),
        valid_utf8(bytes@) ==> text@ == decode_utf8(bytes@),
{
    String::from_utf8_lossy(bytes).into_owned()
}

/// `regex::Regex::new` on `pattern`, then `Regex::captures` on `haystack`
/// and `Captures::get(1)` on what it found, copied out as a string. The
/// result is a function of the two texts alone, named `regex_first_group`;
/// nothing else is claimed of it. A pattern that does not compile gives
/// `None`.
#[verifier::external_body]
fn first_group(pattern: &str, haystack: &str) -> (group: Option<String>)
    ensures
        text_of(group) == regex_first_group(pattern@, haystack@),
{
    match Regex::new(pattern) {
        Ok(re) => re.captures(haystack).and_then(|caps| caps.get(1)).map(|m| m.as_str().to_string()),
        Err(_) => None,
    }
}

/// The tenant identifier in `query`: the digits of the first occurrence of
/// the tenant pattern, as text.
pub fn extract_tenant_id(query: &str) -> (tenant: Option<String>)
    ensures
        text_of(tenant) == tenant_of(query@),
{
    first_group(TENANT_PATTERN, query)
}

/// Charges a duration to the tenant found, if one was found.
pub fn charge(tenant: Option<String>, duration_micro: u64) -> (e: Option<ProcessedQueryEvent>)
    ensures
        e == match tenant {
            Some(t) => Some(ProcessedQueryEvent { tenant_id: t, duration_micro }),
            None => None,
        },
        processed_view(e) == charged(text_of(tenant), duration_micro),
{
    match tenant {
        Some(tenant_id) => Some(ProcessedQueryEvent { tenant_id, duration_micro }),
        None => None,
    }
}

/// Turns a decoded record into a charge: reads its buffer as text up to
/// the first zero byte, finds the tenant, and keeps the duration. A record
/// without a tenant gives nothing.
pub fn process_event(event: QueryEvent) -> (e: Option<ProcessedQueryEvent>)
    ensures
        processed_view(e) == charged(tenant_of(query_text(event)), event.duration_micro),
{
    let text = event.text();
    let query = lossy_text(text.as_slice());
    let tenant_id = extract_tenant_id(query.as_str());
    charge(tenant_id, event.duration_micro)
}

} // verus!
