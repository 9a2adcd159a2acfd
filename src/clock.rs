use vstd::prelude::*;

verus! {

/// How a timestamp is written in the table (the `time` crate's format
/// description language): year, month and day, a space, then hour, minute
/// and second, each zero-padded.
pub const TIMESTAMP_LAYOUT: &'static str = "[year]-[month]-[day] [hour]:[minute]:[second]";

/// The text that the `time` crate renders, in `layout`, for the instant
/// `timestamp` (seconds since the Unix epoch) seen at `offset` seconds east
/// of UTC; `None` where it renders none.
pub uninterp spec fn local_text(timestamp: i64, offset: i32, layout: Seq<char>) -> Option<
    Seq<char>,
>;

/// The instant (seconds since the Unix epoch) that the `time` crate reads
/// from `text`, in `layout`, as a local time `offset` seconds east of UTC;
/// `None` where it reads none.
pub uninterp spec fn local_instant(text: Seq<char>, offset: i32, layout: Seq<char>) -> Option<
    i64,
>;

/// Relies on time's `format_description::parse_borrowed`,
/// `UtcOffset::from_whole_seconds`, `OffsetDateTime::from_unix_timestamp`,
/// `checked_to_offset` and `format`: renders an instant as local time.
#[verifier::external_body]
pub(crate) fn format_local(timestamp: i64, offset: i32, layout: &str) -> (r: Option<String>)
    ensures
        match r {
            Some(s) => local_text(timestamp, offset, layout@) == Some(s@),
            None => local_text(timestamp, offset, layout@) is None,
        },
{
    let items = time::format_description::parse_borrowed::<1>(layout).ok()?;
    let offset = time::UtcOffset::from_whole_seconds(offset).ok()?;
    let at = time::OffsetDateTime::from_unix_timestamp(timestamp).ok()?;
    at.checked_to_offset(offset)?.format(&items).ok()
}

/// Relies on time's `format_description::parse_borrowed`,
/// `UtcOffset::from_whole_seconds`, `PrimitiveDateTime::parse`,
/// `assume_offset` and `unix_timestamp`: reads a local time as an instant.
#[verifier::external_body]
pub(crate) fn parse_local(text: &str, offset: i32, layout: &str) -> (r: Option<i64>)
    ensures
        r == local_instant(text@, offset, layout@),
{
    let items = time::format_description::parse_borrowed::<1>(layout).ok()?;
    let offset = time::UtcOffset::from_whole_seconds(offset).ok()?;
    let local = time::PrimitiveDateTime::parse(text, &items).ok()?;
    Some(local.assume_offset(offset).unix_timestamp())
}

/// Relies on time's `UtcOffset::current_local_offset`: the machine's offset
/// from UTC now, in seconds east, where it can be determined.
#[verifier::external_body]
pub(crate) fn current_offset() -> (r: Option<i32>) {
    time::UtcOffset::current_local_offset().ok().map(|o| o.whole_seconds())
}

/// Relies on time's `OffsetDateTime::now_utc`: the time now, in seconds since
/// the Unix epoch.
#[verifier::external_body]
pub(crate) fn now_seconds() -> (r: i64) {
    time::OffsetDateTime::now_utc().unix_timestamp()
}

} // verus!
