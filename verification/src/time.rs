//! Instants and durations: RFC 3339 timestamps (through chrono), the
//! relative durations `30s`, `5m`, `2h`, `1d`, and the `--since` value.
use vstd::prelude::*;
use crate::text::{
    ascii_lowercase, append_str, chars_of, has_suffix, parse_i64, parse_i64_exec, string_of, sub_chars,
};

verus! {

/// An instant in UTC: whole seconds since the Unix epoch and the nanoseconds
/// within that second, as chrono's `timestamp()` and
/// `timestamp_subsec_nanos()` report them.
#[derive(Clone, Copy)]
pub struct Timestamp {
    pub secs: i64,
    pub nanos: u32,
}

/// `a` is strictly earlier than `b`.
pub open spec fn is_before(a: Timestamp, b: Timestamp) -> bool {
    a.secs < b.secs || (a.secs == b.secs && a.nanos < b.nanos)
}

/// The instant that chrono's `DateTime::parse_from_rfc3339` reads from the
/// text, as (seconds, nanoseconds) in UTC; `None` when chrono refuses it.
pub uninterp spec fn rfc3339_instant(text: Seq<char>) -> Option<(i64, u32)>;

/// The text that chrono's `DateTime<Utc>::to_rfc3339` gives for the instant.
pub uninterp spec fn rfc3339_text(secs: i64, nanos: u32) -> Seq<char>;

/// Unicode lower-casing (`str::to_lowercase`).
pub uninterp spec fn unicode_lowercase(s: Seq<char>) -> Seq<char>;

/// `chrono::DateTime::parse_from_rfc3339`, with the parsed instant read as
/// seconds and nanoseconds since the epoch (`timestamp`,
/// `timestamp_subsec_nanos`); its result is `rfc3339_instant(text)`.
#[verifier::external_body]
pub(crate) fn parse_rfc3339(text: &str) -> (r: Option<Timestamp>)
    ensures
        match r {
            Some(t) => rfc3339_instant(text@) == Some((t.secs, t.nanos)),
            None => rfc3339_instant(text@) is None,
        },
{
    match chrono::DateTime::parse_from_rfc3339(text) {
        Ok(d) => Some(Timestamp { secs: d.timestamp(), nanos: d.timestamp_subsec_nanos() }),
        Err(_) => None,
    }
}

/// `chrono::DateTime<Utc>::to_rfc3339` of the instant, which is rebuilt with
/// `DateTime::from_timestamp`; its result is `rfc3339_text(secs, nanos)`.
/// (For a pair that chrono cannot represent, chrono's default instant, the
/// epoch, is rendered; no timestamp of this library is such a pair when it
/// comes from chrono.)
#[verifier::external_body]
pub(crate) fn format_rfc3339(t: &Timestamp) -> (s: String)
    ensures
        s@ == rfc3339_text(t.secs, t.nanos),
{
    chrono::DateTime::<chrono::Utc>::from_timestamp(t.secs, t.nanos).unwrap_or_default().to_rfc3339()
}

/// `str::to_lowercase`; its result is `unicode_lowercase(s)`. On ASCII text
/// it maps `A`..`Z` to `a`..`z` and leaves every other character, as
/// `str::to_ascii_lowercase` does (whose documentation points to
/// `to_lowercase` for lower-casing non-ASCII letters as well).
#[verifier::external_body]
fn to_lowercase(s: &str) -> (r: String)
    ensures
        r@ == unicode_lowercase(s@),
        all_ascii(s@) ==> r@ == ascii_lowercase(s@),
{
    s.to_lowercase()
}

impl Timestamp {
    /// Whether this instant is strictly earlier than `other`.
    pub fn is_before(&self, other: &Timestamp) -> (b: bool)
        ensures
            b == is_before(*self, *other),
    {
        self.secs < other.secs || (self.secs == other.secs && self.nanos < other.nanos)
    }

    /// The instant as RFC 3339 text.
    pub fn to_rfc3339(&self) -> (s: String)
        ensures
            s@ == rfc3339_text(self.secs, self.nanos),
    {
        format_rfc3339(self)
    }

    /// Reads an RFC 3339 timestamp.
    pub fn parse_rfc3339(text: &str) -> (r: Option<Timestamp>)
        ensures
            match r {
                Some(t) => rfc3339_instant(text@) == Some((t.secs, t.nanos)),
                None => rfc3339_instant(text@) is None,
            },
    {
        parse_rfc3339(text)
    }
}

/// `v` followed by `unit`, read as a number of `unit`.
pub open spec fn number_with_unit(s: Seq<char>, unit: char) -> Option<i64> {
    if has_suffix(s, seq![unit]) {
        parse_i64(s.drop_last())
    } else {
        None
    }
}

/// The duration, in seconds, that a lower-cased text such as `30s`, `5m`,
/// `2h` or `1d` denotes; the suffixes are tried in that order.
pub open spec fn lowered_duration_seconds(s: Seq<char>) -> Option<int> {
    if number_with_unit(s, 's') is Some {
        Some(number_with_unit(s, 's')->0 as int)
    } else if number_with_unit(s, 'm') is Some {
        Some(number_with_unit(s, 'm')->0 * 60)
    } else if number_with_unit(s, 'h') is Some {
        Some(number_with_unit(s, 'h')->0 * 3600)
    } else if number_with_unit(s, 'd') is Some {
        Some(number_with_unit(s, 'd')->0 * 86400)
    } else {
        None
    }
}

/// The duration, in seconds, that a text such as `30s`, `5m`, `2h` or `1d`
/// (in any letter case) denotes.
pub open spec fn duration_seconds(text: Seq<char>) -> Option<int> {
    lowered_duration_seconds(unicode_lowercase(text))
}

/// All characters of the text are ASCII.
pub open spec fn all_ascii(s: Seq<char>) -> bool {
    forall|i: int| 0 <= i < s.len() ==> (s[i] as u32) < 128
}

/// The number before `unit` at the end of `s`.
fn number_with_unit_exec(s: &Vec<char>, unit: char) -> (r: Option<i64>)
    ensures
        r == number_with_unit(s@, unit),
{
    if s.len() > 0 && s[s.len() - 1] == unit {
        assert(s@.skip(s@.len() - 1) =~= seq![unit]);
        let n = sub_chars(s, 0, s.len() - 1);
        assert(n@ =~= s@.drop_last());
        parse_i64_exec(&n)
    } else {
        proof {
            if s@.len() > 0 {
                assert(s@.skip(s@.len() - 1)[0] == s@[s@.len() - 1]);
            }
        }
        None
    }
}

/// The duration in seconds that `text` denotes (`30s`, `5m`, `2h`, `1d`).
/// The value is exact; chrono's `Duration` constructors accept it when it is
/// within their range.
pub fn parse_duration(text: &str) -> (r: Option<i128>)
    ensures
        match duration_seconds(text@) {
            Some(d) => r == Some(d as i128),
            None => r is None,
        },
        all_ascii(text@) ==> match lowered_duration_seconds(ascii_lowercase(text@)) {
            Some(d) => r == Some(d as i128),
            None => r is None,
        },
{
    let lower = to_lowercase(text);
    let s = chars_of(lower.as_str());
    if let Some(v) = number_with_unit_exec(&s, 's') {
        return Some(v as i128);
    }
    if let Some(v) = number_with_unit_exec(&s, 'm') {
        return Some((v as i128) * 60);
    }
    if let Some(v) = number_with_unit_exec(&s, 'h') {
        return Some((v as i128) * 3600);
    }
    if let Some(v) = number_with_unit_exec(&s, 'd') {
        return Some((v as i128) * 86400);
    }
    None
}

/// The value of the `--since` option.
pub enum SinceValue {
    /// So many seconds before now.
    Ago(i128),
    /// A fixed instant.
    At(Timestamp),
}

/// A `--since` value that is neither a duration nor a date.
pub struct SinceError {
    pub value: String,
}

impl SinceError {
    /// The message that reports the error.
    pub fn message(&self) -> (m: String)
        ensures
            m@ == "Cannot parse since value: "@ + self.value@
                + ". Use format like '1h' or '2023-03-30'"@,
    {
        let mut v: Vec<char> = Vec::new();
        append_str(&mut v, "Cannot parse since value: ");
        append_str(&mut v, self.value.as_str());
        append_str(&mut v, ". Use format like '1h' or '2023-03-30'");
        string_of(&v)
    }
}

/// Reads the `--since` option: first as a duration before now, then as a
/// date (midnight UTC of that day).
pub fn parse_since(text: &str) -> (r: Result<SinceValue, SinceError>)
    ensures
        match duration_seconds(text@) {
            Some(d) => r matches Ok(SinceValue::Ago(x)) && x == d,
            None => match rfc3339_instant(text@ + "T00:00:00Z"@) {
                Some(p) => r matches Ok(SinceValue::At(t)) && (t.secs, t.nanos) == p,
                None => r matches Err(e) && e.value@ == text@,
            },
        },
{
    if let Some(d) = parse_duration(text) {
        return Ok(SinceValue::Ago(d));
    }
    let mut v = chars_of(text);
    append_str(&mut v, "T00:00:00Z");
    let date = string_of(&v);
    match parse_rfc3339(date.as_str()) {
        Some(t) => Ok(SinceValue::At(t)),
        None => Err(SinceError { value: text.to_string() }),
    }
}

/// Whether a text ends with the unit, read through `has_suffix`.
proof fn lemma_unit_suffix(t: Seq<char>, u: char, v: char)
    ensures
        has_suffix(t + seq![u], seq![v]) == (u == v),
        (t + seq![u]).drop_last() == t,
{
    let x = t + seq![u];
    assert(x.skip(x.len() - 1) =~= seq![u]);
    assert(x.drop_last() =~= t);
    if u != v {
        assert(seq![u][0] != seq![v][0]);
    }
}

/// A number followed by `s`, `m`, `h` or `d` is that many seconds, minutes,
/// hours or days, in seconds; a text ending in any other character is no
/// duration.
pub proof fn lemma_duration_units(t: Seq<char>, n: i64, other: char)
    requires
        parse_i64(t) == Some(n),
        other != 's' && other != 'm' && other != 'h' && other != 'd',
    ensures
        lowered_duration_seconds(t + seq!['s']) == Some(n as int),
        lowered_duration_seconds(t + seq!['m']) == Some(n * 60),
        lowered_duration_seconds(t + seq!['h']) == Some(n * 3600),
        lowered_duration_seconds(t + seq!['d']) == Some(n * 86400),
        lowered_duration_seconds(t + seq![other]) is None,
{
    lemma_unit_suffix(t, 's', 's');
    lemma_unit_suffix(t, 'm', 's');
    lemma_unit_suffix(t, 'm', 'm');
    lemma_unit_suffix(t, 'h', 's');
    lemma_unit_suffix(t, 'h', 'm');
    lemma_unit_suffix(t, 'h', 'h');
    lemma_unit_suffix(t, 'd', 's');
    lemma_unit_suffix(t, 'd', 'm');
    lemma_unit_suffix(t, 'd', 'h');
    lemma_unit_suffix(t, 'd', 'd');
    lemma_unit_suffix(t, other, 's');
    lemma_unit_suffix(t, other, 'm');
    lemma_unit_suffix(t, other, 'h');
    lemma_unit_suffix(t, other, 'd');
}

/// "Strictly earlier" orders instants: never an instant before itself,
/// never both ways, and through a third one.
pub proof fn lemma_is_before_orders(a: Timestamp, b: Timestamp, c: Timestamp)
    ensures
        !is_before(a, a),
        is_before(a, b) ==> !is_before(b, a),
        is_before(a, b) && is_before(b, c) ==> is_before(a, c),
        !is_before(a, b) && !is_before(b, a) ==> a == b,
{
}

} // verus!
