//! Instants and their RFC 3339 texts.

use vstd::prelude::*;

verus! {

/// A UTC instant, in nanoseconds since the start of 1970.
pub type Timestamp = i128;

/// The first instant of year 0.
pub const FIRST_CALENDAR_INSTANT: i128 = -62_167_219_200_000_000_000;

/// The last instant of year 9999.
pub const LAST_CALENDAR_INSTANT: i128 = 253_402_300_799_999_999_999;

/// The instants that RFC 3339 has a text for: those of the years 0 to 9999.
pub open spec fn in_calendar(at: Timestamp) -> bool {
    FIRST_CALENDAR_INSTANT <= at <= LAST_CALENDAR_INSTANT
}

/// The instants that RFC 3339 texts may stand for: an offset leads less than a day beyond the
/// years 0 to 9999.
pub open spec fn near_calendar(at: int) -> bool {
    FIRST_CALENDAR_INSTANT - 86_400_000_000_000 < at < LAST_CALENDAR_INSTANT + 86_400_000_000_000
}

/// What the `time` crate writes for an instant in UTC as RFC 3339, or the words for why it cannot.
pub uninterp spec fn rfc3339_writing(at: i128) -> Result<Seq<char>, Seq<char>>;

/// The RFC 3339 text of an instant.
pub open spec fn rfc3339_text(at: Timestamp) -> Seq<char> {
    rfc3339_writing(at)->Ok_0
}

/// What the `time` crate reads from an RFC 3339 text: the instant, or the words for why it is none.
pub uninterp spec fn rfc3339_reading(text: Seq<char>) -> Result<i128, Seq<char>>;

/// Writes an instant with `time::OffsetDateTime::format` and the well-known description
/// `Rfc3339`. There is a text for the years 0 to 9999 only, and reading it again gives back the
/// instant to the nanosecond. Any other instant is refused with the words of the `time` crate,
/// with their causes as `anyhow` lists them.
#[verifier::external_body]
pub(crate) fn format_rfc3339(at: Timestamp) -> (text: Result<String, String>)
    ensures
        text is Ok <==> in_calendar(at),
        text is Ok <==> rfc3339_writing(at) is Ok,
        text matches Ok(written) ==> written@ == rfc3339_writing(at)->Ok_0,
        text matches Ok(written) ==> rfc3339_reading(written@) is Ok && rfc3339_reading(written@)->Ok_0 == at,
        text matches Err(words) ==> words@ == rfc3339_writing(at)->Err_0,
{
    let instant = time::OffsetDateTime::from_unix_timestamp_nanos(at);
    let written = instant.map_err(anyhow::Error::from).and_then(
        |instant| {
            let format = &time::format_description::well_known::Rfc3339;
            instant.format(format).map_err(anyhow::Error::from)
        },
    );
    written.map_err(|error| format!("{error:#}"))
}

/// Reads an instant with `time::OffsetDateTime::parse` and the well-known description
/// `Rfc3339`. Such a text has a year of four digits and an offset of less than a day. A text that
/// is none is refused with the words of the `time` crate, with their causes as `anyhow` lists
/// them.
#[verifier::external_body]
pub(crate) fn parse_rfc3339(text: &str) -> (reading: Result<Timestamp, String>)
    ensures
        reading is Ok <==> rfc3339_reading(text@) is Ok,
        reading matches Ok(at) ==> at == rfc3339_reading(text@)->Ok_0,
        reading matches Ok(at) ==> near_calendar(at as int),
        reading matches Err(words) ==> words@ == rfc3339_reading(text@)->Err_0,
{
    time::OffsetDateTime::parse(text, &time::format_description::well_known::Rfc3339).map(
        |instant| instant.unix_timestamp_nanos(),
    ).map_err(|error| format!("{:#}", anyhow::Error::from(error)))
}

/// Tests whether an instant lies in the years that RFC 3339 has texts for.
pub fn is_in_calendar(at: Timestamp) -> (inside: bool)
    ensures
        inside == in_calendar(at),
{
    FIRST_CALENDAR_INSTANT <= at && at <= LAST_CALENDAR_INSTANT
}

} // verus!
