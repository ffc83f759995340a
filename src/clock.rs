use vstd::prelude::*;

verus! {

/// Largest distance from the epoch, in seconds, that a timestamp may lie:
/// about 253,000 years, inside the calendar range that chrono handles.
pub const MAX_EPOCH_SECS: i64 = 8_000_000_000_000;

/// A modification time as plain values: seconds since the Unix epoch (UTC),
/// the sub-second part, and the local offset from UTC in seconds.
#[derive(Clone, Copy, Debug, PartialEq, Eq)]
pub struct Timestamp {
    pub secs: i64,
    pub nanos: u32,
    pub offset_secs: i32,
}

impl Timestamp {
    pub open spec fn wf(self) -> bool {
        &&& -MAX_EPOCH_SECS <= self.secs <= MAX_EPOCH_SECS
        &&& self.nanos < 1_000_000_000
        &&& -86_400 < self.offset_secs < 86_400
    }

    /// Builds a timestamp, or `None` where a part is out of range.
    pub fn new(secs: i64, nanos: u32, offset_secs: i32) -> (r: Option<Timestamp>)
        ensures
            r is Some <==> (Timestamp { secs, nanos, offset_secs }).wf(),
            r is Some ==> r->0 == (Timestamp { secs, nanos, offset_secs }),
    {
        let t = Timestamp { secs, nanos, offset_secs };
        if -MAX_EPOCH_SECS <= secs && secs <= MAX_EPOCH_SECS && nanos < 1_000_000_000
            && -86_400 < offset_secs && offset_secs < 86_400 {
            Some(t)
        } else {
            None
        }
    }
}

/// The text `YYYY-MM-DD HH:MM:SS` of a timestamp in its own offset.
pub uninterp spec fn clock_text(t: Timestamp) -> Seq<char>;

/// The RFC 3339 text of a timestamp, seconds with automatic sub-second digits.
pub uninterp spec fn rfc3339_text(t: Timestamp) -> Seq<char>;

/// The characters that a `%Y-%m-%d %H:%M:%S` rendering can hold: digits, the
/// separators of the pattern, and the sign of a year outside 0..=9999.
pub open spec fn is_clock_char(c: char) -> bool {
    ('0' <= c && c <= '9') || c == '-' || c == ':' || c == ' ' || c == '+'
}

/// Relies on chrono's `DateTime::from_timestamp`, `FixedOffset::east_opt`,
/// `with_timezone` and `format("%Y-%m-%d %H:%M:%S")`: the local wall-clock
/// text, made only of digits, the pattern's separators and a year's sign.
#[verifier::external_body]
pub(crate) fn format_clock(t: &Timestamp) -> (r: String)
    requires
        t.wf(),
    ensures
        r@ == clock_text(*t),
        forall|i: int| 0 <= i < r@.len() ==> is_clock_char(#[trigger] r@[i]),
{
    let utc = chrono::DateTime::from_timestamp(t.secs, t.nanos).unwrap_or_default();
    match chrono::FixedOffset::east_opt(t.offset_secs) {
        Some(off) => utc.with_timezone(&off).format("%Y-%m-%d %H:%M:%S").to_string(),
        None => utc.format("%Y-%m-%d %H:%M:%S").to_string(),
    }
}

/// Relies on chrono's `DateTime::to_rfc3339_opts(SecondsFormat::AutoSi, true)`,
/// the text that chrono's serde support writes for a `DateTime`.
#[verifier::external_body]
pub(crate) fn format_rfc3339(t: &Timestamp) -> (r: String)
    requires
        t.wf(),
    ensures
        r@ == rfc3339_text(*t),
{
    let utc = chrono::DateTime::from_timestamp(t.secs, t.nanos).unwrap_or_default();
    match chrono::FixedOffset::east_opt(t.offset_secs) {
        Some(off) => utc.with_timezone(&off).to_rfc3339_opts(chrono::SecondsFormat::AutoSi, true),
        None => utc.to_rfc3339_opts(chrono::SecondsFormat::AutoSi, true),
    }
}

} // verus!
