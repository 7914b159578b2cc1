//! Instants on the ground-segment API: ISO 8601 text in, Unix time out, and back.

use vstd::prelude::*;

verus! {

/// The instant, in milliseconds since the Unix epoch, that chrono reads from
/// `text` as a UTC date-time (a relaxed RFC 3339 form); none when chrono
/// rejects the text.
pub uninterp spec fn utc_millis_of(text: Seq<char>) -> Option<i64>;

/// The RFC 3339 text (`+00:00` offset) that chrono writes for the instant
/// `secs` seconds after the Unix epoch; none when chrono cannot represent
/// that instant.
pub uninterp spec fn rfc3339_of(secs: i64) -> Option<Seq<char>>;

/// Parses `text` with chrono's `FromStr` for `DateTime<Utc>` and reads the
/// result back with `DateTime::timestamp_millis`. Trusted: the result is the
/// named function of the text; nothing else is claimed of chrono's grammar.
#[verifier::external_body]
fn parse_utc_millis(text: &str) -> (r: Option<i64>)
    ensures
        r == utc_millis_of(text@),
{
    match text.parse::<chrono::DateTime<chrono::Utc>>() {
        Ok(dt) => Some(dt.timestamp_millis()),
        Err(_) => None,
    }
}

/// Builds the instant with chrono's `DateTime::<Utc>::from_timestamp(secs, 0)`
/// and writes it with `DateTime::to_rfc3339`. Trusted: the result is the
/// named function of `secs`; chrono's range of representable instants is
/// not stated.
#[verifier::external_body]
fn format_rfc3339(secs: i64) -> (r: Option<String>)
    ensures
        r matches Some(s) ==> rfc3339_of(secs) == Some(s@),
        r is None ==> rfc3339_of(secs) is None,
{
    match chrono::DateTime::<chrono::Utc>::from_timestamp(secs, 0) {
        Some(dt) => Some(dt.to_rfc3339()),
        None => None,
    }
}

/// The message that names a timestamp the API could not read.
pub open spec fn invalid_timestamp_message(text: Seq<char>) -> Seq<char> {
    seq![
        'I', 'n', 'v', 'a', 'l', 'i', 'd', ' ', 't', 'i', 'm', 'e', 's', 't', 'a', 'm', 'p', ':', ' ',
    ] + text
}

/// The RFC 3339 text of the Unix epoch, which stands in for instants that
/// cannot be represented.
pub open spec fn epoch_text() -> Seq<char> {
    seq![
        '1', '9', '7', '0', '-', '0', '1', '-', '0', '1', 'T', '0', '0', ':', '0', '0', ':', '0', '0',
        '+', '0', '0', ':', '0', '0',
    ]
}

/// The text of instant `secs`: its RFC 3339 form, or the epoch's when the
/// instant cannot be represented.
pub open spec fn unix_seconds_text(secs: i64) -> Seq<char> {
    match rfc3339_of(secs) {
        Some(t) => t,
        None => epoch_text(),
    }
}

/// What the API makes of chrono's reading of a timestamp text: the
/// milliseconds when chrono read an instant, else the message
/// "Invalid timestamp: <text>".
pub fn timestamp_from_reading(iso: &str, reading: Option<i64>) -> (r: Result<i64, String>)
    ensures
        match reading {
            Some(ms) => r == Ok::<i64, String>(ms),
            None => r matches Err(m) && m@ == invalid_timestamp_message(iso@),
        },
{
    match reading {
        Some(ms) => Ok(ms),
        None => {
            let mut message = "Invalid timestamp: ".to_owned();
            proof {
                reveal_strlit("Invalid timestamp: ");
            }
            message.append(iso);
            assert(message@ =~= invalid_timestamp_message(iso@));
            Err(message)
        },
    }
}

/// Reads an ISO 8601 timestamp as milliseconds since the Unix epoch, or
/// returns the message "Invalid timestamp: <text>".
pub fn parse_timestamp(iso: &str) -> (r: Result<i64, String>)
    ensures
        match utc_millis_of(iso@) {
            Some(ms) => r == Ok::<i64, String>(ms),
            None => r matches Err(m) && m@ == invalid_timestamp_message(iso@),
        },
{
    let reading = parse_utc_millis(iso);
    timestamp_from_reading(iso, reading)
}

/// What the API makes of chrono's text for an instant: that text, or the
/// epoch's text when chrono could not represent the instant.
pub fn text_from_formatting(formatted: Option<String>) -> (r: String)
    ensures
        match formatted {
            Some(t) => r@ == t@,
            None => r@ == epoch_text(),
        },
{
    match formatted {
        Some(text) => text,
        None => {
            let text = "1970-01-01T00:00:00+00:00".to_owned();
            proof {
                reveal_strlit("1970-01-01T00:00:00+00:00");
            }
            assert(text@ =~= epoch_text());
            text
        },
    }
}

/// The RFC 3339 text of the instant `secs` seconds after the Unix epoch; the
/// epoch's text when the instant is out of range.
pub fn format_unix_seconds(secs: i64) -> (r: String)
    ensures
        r@ == unix_seconds_text(secs),
{
    let formatted = format_rfc3339(secs);
    text_from_formatting(formatted)
}

} // verus!
