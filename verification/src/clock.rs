//! Wall-clock time: the timestamps that the assistant stores, and their age.
use vstd::prelude::*;
use vstd::string::*;

verus! {

/// How the assistant writes a local time.
pub const TIMESTAMP_FORMAT: &'static str = "%Y-%m-%d %H:%M:%S";

/// How the assistant shows the day on which credits expire.
pub const DAY_FORMAT: &'static str = "%m-%d";

/// The number of seconds since 1970 that `chrono::NaiveDateTime::parse_from_str` reads out of a
/// text in the given format, without regard to any time zone.
pub uninterp spec fn timestamp_seconds(s: Seq<char>, format: Seq<char>) -> Option<int>;

/// The text is a time as the assistant writes it.
pub open spec fn is_timestamp(s: Seq<char>) -> bool {
    timestamp_seconds(s, TIMESTAMP_FORMAT@) is Some
}

/// The beginning of the first day that `chrono` has, 1 January of the year -262143, in milliseconds
/// since 1970.
pub const FIRST_DATE_MS: i64 = -8_334_601_228_800_000;

/// The end of the last day that `chrono` has, 31 December of the year 262142, in milliseconds since
/// 1970.
pub const LAST_DATE_MS: i64 = 8_210_266_876_799_999;

/// There is a date for this number of milliseconds since 1970.
pub open spec fn millis_have_date(ms: int) -> bool {
    FIRST_DATE_MS <= ms <= LAST_DATE_MS
}

/// `chrono::NaiveDateTime::parse_from_str`: a function of the text and the format alone.
#[verifier::external_body]
pub(crate) fn parse_timestamp(s: &str, format: &str) -> (r: Option<i64>)
    ensures
        match r {
            Some(n) => timestamp_seconds(s@, format@) == Some(n as int),
            None => timestamp_seconds(s@, format@) is None,
        },
{
    chrono::NaiveDateTime::parse_from_str(s, format).ok().map(|t| t.and_utc().timestamp())
}

/// `chrono::Local::now` in the given format, which is one of the two above. Which text it is depends
/// on the time and on the machine's time zone; it is not empty, and in the format of a time
/// `chrono::NaiveDateTime::parse_from_str` reads it as one.
#[verifier::external_body]
pub(crate) fn local_now(format: &str) -> (r: String)
    requires
        format@ == TIMESTAMP_FORMAT@ || format@ == DAY_FORMAT@,
    ensures
        r@.len() > 0,
        format@ == TIMESTAMP_FORMAT@ ==> is_timestamp(r@),
{
    chrono::Local::now().format(format).to_string()
}

/// `chrono::Local::now` as seconds since 1970 on the local clock. Nothing is stated of it.
#[verifier::external_body]
pub(crate) fn local_now_seconds() -> (r: i64)
{
    chrono::Local::now().naive_local().and_utc().timestamp()
}

/// `chrono::Local::now` as milliseconds since 1970. Nothing is stated of it.
#[verifier::external_body]
pub(crate) fn now_millis() -> (r: i64)
{
    chrono::Local::now().timestamp_millis()
}

/// `chrono::Local::now` as the number of its day, counted from the beginning of the calendar, and
/// its hour and minute. Nothing is stated of them.
#[verifier::external_body]
pub(crate) fn local_moment() -> (r: (i32, String))
{
    let now = chrono::Local::now();
    (chrono::Datelike::num_days_from_ce(&now.date_naive()), now.format("%H:%M").to_string())
}

/// `chrono::DateTime::from_timestamp_millis`, shown in the given format on the local clock. There
/// is a date for every number between the bounds above; the text depends on the machine's time
/// zone, so that nothing is stated of it. The format is one of the two above.
#[verifier::external_body]
pub(crate) fn local_date(ms: i64, format: &str) -> (r: Option<String>)
    requires
        format@ == TIMESTAMP_FORMAT@ || format@ == DAY_FORMAT@,
    ensures
        r is Some <==> millis_have_date(ms as int),
{
    chrono::DateTime::from_timestamp_millis(ms)
        .map(|t| t.with_timezone(&chrono::Local).format(format).to_string())
}

} // verus!
