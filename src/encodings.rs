use vstd::prelude::*;
use crate::text::is_ws;
use crate::value::{Date, DateTime, Time};
use base64::Engine;

verus! {

/// What `iso8601::datetime` makes of a text.
pub uninterp spec fn iso_datetime_of(s: Seq<char>) -> Option<DateTime>;

/// What `iso8601::DateTime`'s `Display` writes for a date and time.
pub uninterp spec fn iso_text_of(d: DateTime) -> Seq<char>;

/// What the standard base64 engine writes for bytes.
pub uninterp spec fn base64_text_of(b: Seq<u8>) -> Seq<char>;

/// What the standard base64 engine reads from a text, `None` where it rejects it.
pub uninterp spec fn base64_bytes_of(s: Seq<char>) -> Option<Seq<u8>>;

/// Relies on `iso8601::datetime`: parses an ISO-8601 date and time, and the outcome depends
/// on the text alone.
#[verifier::external_body]
pub(crate) fn parse_iso_datetime(s: &str) -> (r: Option<DateTime>)
    ensures
        r == iso_datetime_of(s@),
{
    let p = iso8601::datetime(s).ok()?;
    let t = p.time;
    let date = match p.date {
        iso8601::Date::YMD { year, month, day } => Date::YMD { year, month, day },
        iso8601::Date::Week { year, ww, d } => Date::Week { year, ww, d },
        iso8601::Date::Ordinal { year, ddd } => Date::Ordinal { year, ddd },
    };
    let (hour, minute, second, millisecond) = (t.hour, t.minute, t.second, t.millisecond);
    let (tz_offset_hours, tz_offset_minutes) = (t.tz_offset_hours, t.tz_offset_minutes);
    Some(DateTime { date, time: Time { hour, minute, second, millisecond, tz_offset_hours, tz_offset_minutes } })
}

/// Whether `Display` of `iso8601::DateTime` writes `d` without overflowing: it negates a
/// negative year and negative offsets, which fails on `i32::MIN`.
pub open spec fn iso_writable(d: DateTime) -> bool {
    let year = match d.date {
        Date::YMD { year, .. } => year,
        Date::Week { year, .. } => year,
        Date::Ordinal { year, .. } => year,
    };
    year != i32::MIN && d.time.tz_offset_hours != i32::MIN && d.time.tz_offset_minutes
        != i32::MIN
}

/// Relies on `Display` of `iso8601::DateTime`: writes the date and time as ISO-8601 text,
/// which depends on the value alone.
#[verifier::external_body]
pub(crate) fn format_iso_datetime(d: DateTime) -> (r: String)
    requires
        iso_writable(d),
    ensures
        r@ == iso_text_of(d),
{
    let t = d.time;
    let date = match d.date {
        Date::YMD { year, month, day } => iso8601::Date::YMD { year, month, day },
        Date::Week { year, ww, d } => iso8601::Date::Week { year, ww, d },
        Date::Ordinal { year, ddd } => iso8601::Date::Ordinal { year, ddd },
    };
    let (hour, minute, second, millisecond) = (t.hour, t.minute, t.second, t.millisecond);
    let (tz_offset_hours, tz_offset_minutes) = (t.tz_offset_hours, t.tz_offset_minutes);
    let time = iso8601::Time { hour, minute, second, millisecond, tz_offset_hours, tz_offset_minutes };
    iso8601::DateTime { date, time }.to_string()
}

/// Relies on `Engine::encode` of `base64::engine::general_purpose::STANDARD`: the padded
/// text uses the characters `A-Z a-z 0-9 + / =` only, and the same engine decodes it back to
/// the bytes. (The length of a `Vec` keeps the encoded length from overflowing.)
#[verifier::external_body]
pub(crate) fn encode_base64(b: &[u8]) -> (r: String)
    ensures
        r@ == base64_text_of(b@),
        forall|i: int| 0 <= i < r@.len() ==> !is_ws(#[trigger] r@[i]),
        base64_bytes_of(r@) == Some(b@),
{
    base64::engine::general_purpose::STANDARD.encode(b)
}

/// Relies on `Engine::decode` of `base64::engine::general_purpose::STANDARD`: decodes padded
/// base64 text, and the outcome depends on the text alone.
#[verifier::external_body]
pub(crate) fn decode_base64(s: &Vec<char>) -> (r: Option<Vec<u8>>)
    ensures
        r is Some <==> base64_bytes_of(s@) is Some,
        r matches Some(v) ==> base64_bytes_of(s@) == Some(v@),
{
    let text: String = s.iter().collect();
    base64::engine::general_purpose::STANDARD.decode(text).ok()
}

} // verus!
