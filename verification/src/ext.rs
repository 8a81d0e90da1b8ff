//! Trusted declarations for the outside crates the library calls: each
//! wrapper's contract is believed, not proved, and states only what the
//! called crate's source or documentation shows.

use vstd::prelude::*;
use vstd::multiset::Multiset;
use crate::config::Dur;

verus! {

/// What `parse_duration::parse` yields on a given string: `None` where it
/// errs, otherwise the parsed duration as whole seconds and a sub-second
/// nanosecond remainder. The parser is a pure function of its input.
pub uninterp spec fn parsed_duration(s: Seq<char>) -> Option<(u64, u32)>;

/// Relies on `parse_duration::parse`: recognizes a value with a time unit
/// (such as "60s" or "500ms"), deterministically from the characters alone.
/// The nanosecond remainder is below one second, as the standard library
/// documents of `Duration::subsec_nanos`.
#[verifier::external_body]
pub fn parse_duration_str(s: &str) -> (r: Option<Dur>)
    ensures
        (match r {
            Some(d) => parsed_duration(s@) == Some((d.secs, d.nanos)) && d.nanos
                < 1_000_000_000,
            None => parsed_duration(s@) is None,
        }),
{
    match parse_duration::parse(s) {
        Ok(d) => Some(Dur { secs: d.as_secs(), nanos: d.subsec_nanos() }),
        Err(_) => None,
    }
}

/// Relies on `String::push`: appends one character at the end.
pub assume_specification[ String::push ](s: &mut String, c: char)
    ensures
        final(s)@ == old(s)@.push(c),
;

/// An HDR-style log-linear latency histogram of the `hdrhistogram` crate,
/// held in a field the verifier does not see: the histogram type itself
/// cannot be declared to Verus (its generic counter bound is a trait of the
/// outside crate). Contracts speak of `hist_values` instead; unverified
/// readers — the report writer, tests — may query the inner histogram for
/// percentiles directly.
#[verifier::external_body]
pub struct LatencyHistogram {
    pub inner: hdrhistogram::Histogram<u64>,
}

/// The multiset of samples a histogram has recorded since it was created
/// or last replaced. The histogram quantizes samples to its configured
/// precision, so contracts speak only of this abstract record.
pub uninterp spec fn hist_values(h: LatencyHistogram) -> Multiset<u64>;

/// Relies on `hdrhistogram::Histogram::new`: an auto-resizing histogram
/// with three significant decimal digits of precision, starting empty.
/// Creation with a precision of three cannot fail (the only creation
/// errors are for more than five significant digits or bad bounds).
#[verifier::external_body]
pub fn new_latency_histogram() -> (h: LatencyHistogram)
    ensures
        hist_values(h) == Multiset::<u64>::empty(),
{
    LatencyHistogram { inner: hdrhistogram::Histogram::new(3).unwrap() }
}

/// Relies on `hdrhistogram::Histogram::record`: adds one sample. An
/// auto-resizing histogram of 64-bit counters accepts any positive value;
/// it resizes itself rather than reject a large one.
#[verifier::external_body]
pub fn record_latency(h: &mut LatencyHistogram, value: u64)
    requires
        value >= 1,
    ensures
        hist_values(*final(h)) == hist_values(*old(h)).insert(value),
{
    h.inner.record(value).unwrap();
}

/// Relies on the derived `Clone` of `hdrhistogram::Histogram`: a
/// structural copy holding the same recorded samples.
#[verifier::external_body]
pub fn clone_histogram(h: &LatencyHistogram) -> (r: LatencyHistogram)
    ensures
        hist_values(r) == hist_values(*h),
{
    LatencyHistogram { inner: h.inner.clone() }
}

#[verifier::external_type_specification]
#[verifier::external_body]
pub struct ExRpcClient(alloy_rpc_client::RpcClient);

/// Relies on `alloy_rpc_client::RpcClient::clone`: the client is a shared
/// handle (a reference-counted pointer to the transport session), so a
/// clone is a second handle to the same session and cannot fail.
#[verifier::external_body]
pub fn clone_session(c: &alloy_rpc_client::RpcClient) -> (r: alloy_rpc_client::RpcClient)
    ensures
        r == *c,
{
    c.clone()
}

/// Whether `serde_json` accepts the string as a complete JSON value: a
/// pure function of the characters alone.
pub uninterp spec fn is_json_text(s: Seq<char>) -> bool;

/// Relies on `serde_json::from_str`: deciding whether a string is a
/// well-formed JSON value depends only on the string.
#[verifier::external_body]
pub fn is_json(s: &str) -> (r: bool)
    ensures
        r == is_json_text(s@),
{
    serde_json::from_str::<serde_json::Value>(s).is_ok()
}

/// Relies on `chrono::Utc::now`: the current number of non-leap seconds
/// since the Unix epoch. Nothing can be promised of a clock reading.
#[verifier::external_body]
pub fn unix_timestamp_now() -> i64 {
    chrono::Utc::now().timestamp()
}

/// Relies on `chrono::Local::now`: the current local wall-clock time,
/// rendered as "%Y%m%d.%H%M%S". Nothing can be promised of a clock
/// reading.
#[verifier::external_body]
pub fn local_time_label() -> String {
    chrono::Local::now().format("%Y%m%d.%H%M%S").to_string()
}

} // verus!
