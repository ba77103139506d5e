//! ISO 8601 datetime parsing for API inputs, metadata and search filters.
//!
//! Accepts the formats that clients commonly emit: RFC 3339, `+0000` and
//! `+00:00` offsets, and a space before the time or before the offset.

use vstd::prelude::*;
use crate::text;
use crate::text::{text3, trimmed};

verus! {

/// An instant in UTC: whole seconds since 1970-01-01T00:00:00Z and the
/// nanoseconds within the second.
#[derive(Debug, Clone, Copy, PartialEq, Eq, Hash, Structural)]
pub struct Timestamp {
    pub secs: i64,
    pub nanos: u32,
}

impl Timestamp {
    /// Whether the instant comes before `other`.
    pub open spec fn precedes(self, other: Timestamp) -> bool {
        self.secs < other.secs || (self.secs == other.secs && self.nanos < other.nanos)
    }

    /// Whether the instant comes before `other`.
    pub fn before(&self, other: &Timestamp) -> (r: bool)
        ensures
            r == self.precedes(*other),
    {
        self.secs < other.secs || (self.secs == other.secs && self.nanos < other.nanos)
    }
}

/// An instant with the offset from UTC, in seconds, that it was written with.
#[derive(Debug, Clone, Copy, PartialEq, Eq, Structural)]
pub struct ZonedTimestamp {
    pub instant: Timestamp,
    pub offset: i32,
}

/// What `DateTime::parse_from_rfc3339` reads from a text.
pub uninterp spec fn rfc3339_value(s: Seq<char>) -> Option<ZonedTimestamp>;

/// What `DateTime::parse_from_str` reads from a text in a format.
pub uninterp spec fn zoned_value(s: Seq<char>, fmt: Seq<char>) -> Option<ZonedTimestamp>;

/// What `NaiveDateTime::parse_from_str` reads from a text in a format, taken
/// as UTC.
pub uninterp spec fn naive_value(s: Seq<char>, fmt: Seq<char>) -> Option<Timestamp>;

/// The midnight, taken as UTC, of what `NaiveDate::parse_from_str` reads from
/// a text in a format.
pub uninterp spec fn date_value(s: Seq<char>, fmt: Seq<char>) -> Option<Timestamp>;

/// Calls `chrono::DateTime::parse_from_rfc3339`; `None` stands for its error.
#[verifier::external_body]
fn read_rfc3339(s: &str) -> (r: Option<ZonedTimestamp>)
    ensures
        r == rfc3339_value(s@),
{
    match chrono::DateTime::parse_from_rfc3339(s) {
        Ok(d) => Some(ZonedTimestamp {
            instant: Timestamp { secs: d.timestamp(), nanos: d.timestamp_subsec_nanos() },
            offset: d.offset().local_minus_utc(),
        }),
        Err(_) => None,
    }
}

/// Calls `chrono::DateTime::parse_from_str`; `None` stands for its error.
#[verifier::external_body]
fn read_zoned(s: &str, fmt: &str) -> (r: Option<ZonedTimestamp>)
    ensures
        r == zoned_value(s@, fmt@),
{
    match chrono::DateTime::parse_from_str(s, fmt) {
        Ok(d) => Some(ZonedTimestamp {
            instant: Timestamp { secs: d.timestamp(), nanos: d.timestamp_subsec_nanos() },
            offset: d.offset().local_minus_utc(),
        }),
        Err(_) => None,
    }
}

/// Calls `chrono::NaiveDateTime::parse_from_str` and takes what it reads as
/// UTC; `None` stands for its error.
#[verifier::external_body]
fn read_naive(s: &str, fmt: &str) -> (r: Option<Timestamp>)
    ensures
        r == naive_value(s@, fmt@),
{
    match chrono::NaiveDateTime::parse_from_str(s, fmt) {
        Ok(d) => {
            let d = d.and_utc();
            Some(Timestamp { secs: d.timestamp(), nanos: d.timestamp_subsec_nanos() })
        },
        Err(_) => None,
    }
}

/// Calls `chrono::NaiveDate::parse_from_str` and takes midnight of the day it
/// reads as UTC; `None` stands for its error.
#[verifier::external_body]
fn read_date(s: &str, fmt: &str) -> (r: Option<Timestamp>)
    ensures
        r == date_value(s@, fmt@),
{
    match chrono::NaiveDate::parse_from_str(s, fmt) {
        Ok(d) => {
            let d = d.and_time(chrono::NaiveTime::MIN).and_utc();
            Some(Timestamp { secs: d.timestamp(), nanos: d.timestamp_subsec_nanos() })
        },
        Err(_) => None,
    }
}

/// The formats of a datetime with an offset, in the order they are tried.
pub open spec fn zoned_formats() -> Seq<Seq<char>> {
    seq![
        "%Y-%m-%dT%H:%M:%S%.f%z"@,
        "%Y-%m-%dT%H:%M:%S%z"@,
        "%Y-%m-%dT%H:%M:%S%.f%:z"@,
        "%Y-%m-%dT%H:%M:%S%:z"@,
        "%Y-%m-%d %H:%M:%S%.f%z"@,
        "%Y-%m-%d %H:%M:%S%z"@,
        "%Y-%m-%d %H:%M:%S%.f%:z"@,
        "%Y-%m-%d %H:%M:%S%:z"@,
        "%Y-%m-%d %H:%M:%S%.f %z"@,
        "%Y-%m-%d %H:%M:%S %z"@,
        "%Y-%m-%d %H:%M:%S%.f %:z"@,
        "%Y-%m-%d %H:%M:%S %:z"@,
        "%Y-%m-%dT%H:%M:%S%.f %z"@,
        "%Y-%m-%dT%H:%M:%S %z"@,
        "%Y-%m-%dT%H:%M:%S%.f %:z"@,
        "%Y-%m-%dT%H:%M:%S %:z"@,
    ]
}

/// The formats of a datetime without an offset, in the order they are tried.
pub open spec fn naive_formats() -> Seq<Seq<char>> {
    seq![
        "%Y-%m-%dT%H:%M:%S%.f"@,
        "%Y-%m-%dT%H:%M:%S"@,
        "%Y-%m-%d %H:%M:%S%.f"@,
        "%Y-%m-%d %H:%M:%S"@,
    ]
}

/// The views of a list of formats.
pub open spec fn format_views(v: Seq<&'static str>) -> Seq<Seq<char>> {
    Seq::new(v.len(), |i: int| v[i]@)
}

fn zoned_format_list() -> (r: Vec<&'static str>)
    ensures
        format_views(r@) == zoned_formats(),
{
    let r = vec![
        "%Y-%m-%dT%H:%M:%S%.f%z",
        "%Y-%m-%dT%H:%M:%S%z",
        "%Y-%m-%dT%H:%M:%S%.f%:z",
        "%Y-%m-%dT%H:%M:%S%:z",
        "%Y-%m-%d %H:%M:%S%.f%z",
        "%Y-%m-%d %H:%M:%S%z",
        "%Y-%m-%d %H:%M:%S%.f%:z",
        "%Y-%m-%d %H:%M:%S%:z",
        "%Y-%m-%d %H:%M:%S%.f %z",
        "%Y-%m-%d %H:%M:%S %z",
        "%Y-%m-%d %H:%M:%S%.f %:z",
        "%Y-%m-%d %H:%M:%S %:z",
        "%Y-%m-%dT%H:%M:%S%.f %z",
        "%Y-%m-%dT%H:%M:%S %z",
        "%Y-%m-%dT%H:%M:%S%.f %:z",
        "%Y-%m-%dT%H:%M:%S %:z",
    ];
    assert(format_views(r@) =~= zoned_formats());
    r
}

fn naive_format_list() -> (r: Vec<&'static str>)
    ensures
        format_views(r@) == naive_formats(),
{
    let r = vec![
        "%Y-%m-%dT%H:%M:%S%.f",
        "%Y-%m-%dT%H:%M:%S",
        "%Y-%m-%d %H:%M:%S%.f",
        "%Y-%m-%d %H:%M:%S",
    ];
    assert(format_views(r@) =~= naive_formats());
    r
}

/// What the first of the formats that fits reads from the text.
pub open spec fn first_zoned(s: Seq<char>, formats: Seq<Seq<char>>) -> Option<ZonedTimestamp>
    decreases formats.len(),
{
    if formats.len() == 0 {
        None
    } else if zoned_value(s, formats[0]) is Some {
        zoned_value(s, formats[0])
    } else {
        first_zoned(s, formats.drop_first())
    }
}

/// What the first of the formats that fits reads from the text.
pub open spec fn first_naive(s: Seq<char>, formats: Seq<Seq<char>>) -> Option<Timestamp>
    decreases formats.len(),
{
    if formats.len() == 0 {
        None
    } else if naive_value(s, formats[0]) is Some {
        naive_value(s, formats[0])
    } else {
        first_naive(s, formats.drop_first())
    }
}

/// A datetime with an offset: RFC 3339 first, then the other formats.
pub open spec fn zoned_datetime(s: Seq<char>) -> Option<ZonedTimestamp> {
    let t = text::trim(s);
    if rfc3339_value(t) is Some {
        rfc3339_value(t)
    } else {
        first_zoned(t, zoned_formats())
    }
}

/// A datetime without an offset, taken as UTC.
pub open spec fn naive_datetime(s: Seq<char>) -> Option<Timestamp> {
    first_naive(text::trim(s), naive_formats())
}

/// The midnight of a date, taken as UTC.
pub open spec fn date_midnight(s: Seq<char>) -> Option<Timestamp> {
    date_value(text::trim(s), "%Y-%m-%d"@)
}

fn parse_zoned_datetime(s: &str) -> (r: Option<ZonedTimestamp>)
    ensures
        r == zoned_datetime(s@),
{
    let t = trimmed(s);
    let direct = read_rfc3339(t.as_str());
    if direct.is_some() {
        return direct;
    }
    let formats = zoned_format_list();
    let mut i: usize = 0;
    let ghost all = zoned_formats();
    assert(all.skip(0) =~= all);
    while i < formats.len()
        invariant
            i <= formats.len(),
            format_views(formats@) == all,
            all == zoned_formats(),
            t@ == text::trim(s@),
            rfc3339_value(t@) is None,
            first_zoned(t@, all) == first_zoned(t@, all.skip(i as int)),
        decreases formats.len() - i,
    {
        assert(all.skip(i as int).drop_first() =~= all.skip(i as int + 1));
        assert(all[i as int] == formats@[i as int]@);
        let got = read_zoned(t.as_str(), formats[i]);
        if got.is_some() {
            return got;
        }
        i += 1;
    }
    None
}

fn parse_naive_datetime(s: &str) -> (r: Option<Timestamp>)
    ensures
        r == naive_datetime(s@),
{
    let t = trimmed(s);
    let formats = naive_format_list();
    let mut i: usize = 0;
    let ghost all = naive_formats();
    assert(all.skip(0) =~= all);
    while i < formats.len()
        invariant
            i <= formats.len(),
            format_views(formats@) == all,
            all == naive_formats(),
            t@ == text::trim(s@),
            first_naive(t@, all) == first_naive(t@, all.skip(i as int)),
        decreases formats.len() - i,
    {
        assert(all.skip(i as int).drop_first() =~= all.skip(i as int + 1));
        assert(all[i as int] == formats@[i as int]@);
        let got = read_naive(t.as_str(), formats[i]);
        if got.is_some() {
            return got;
        }
        i += 1;
    }
    None
}

fn parse_date(s: &str) -> (r: Option<Timestamp>)
    ensures
        r == date_midnight(s@),
{
    let t = trimmed(s);
    read_date(t.as_str(), "%Y-%m-%d")
}

/// What a document's timestamp is taken for, given what was read from its
/// text with an offset and without one.
pub open spec fn utc_reading(
    zoned: Option<ZonedTimestamp>,
    naive: Option<Timestamp>,
) -> Result<Timestamp, Seq<char>> {
    match zoned {
        Some(z) => if z.offset != 0 {
            Err("Timestamp must be in UTC timezone"@)
        } else {
            Ok(z.instant)
        },
        None => if naive is Some {
            Err("Timestamp must include timezone information"@)
        } else {
            Err("Timestamp must be a valid ISO 8601 datetime string"@)
        },
    }
}

/// The view of a result with a text as its error.
pub open spec fn result_view<T>(r: Result<T, String>) -> Result<T, Seq<char>> {
    match r {
        Ok(t) => Ok(t),
        Err(e) => Err(e@),
    }
}

/// Decides what a document's timestamp is taken for.
pub fn require_utc(zoned: Option<ZonedTimestamp>, naive: Option<Timestamp>) -> (r: Result<
    Timestamp,
    String,
>)
    ensures
        result_view(r) == utc_reading(zoned, naive),
{
    match zoned {
        Some(z) => if z.offset != 0 {
            Err("Timestamp must be in UTC timezone".to_owned())
        } else {
            Ok(z.instant)
        },
        None => if naive.is_some() {
            Err("Timestamp must include timezone information".to_owned())
        } else {
            Err("Timestamp must be a valid ISO 8601 datetime string".to_owned())
        },
    }
}

/// Parses a zoned datetime and requires UTC. Used for document timestamps and
/// delete request timestamps.
pub fn parse_utc_datetime(s: &str) -> (r: Result<Timestamp, String>)
    ensures
        result_view(r) == utc_reading(
            zoned_datetime(text::trim(s@)),
            naive_datetime(text::trim(s@)),
        ),
{
    let t = trimmed(s);
    let zoned = parse_zoned_datetime(t.as_str());
    let naive = parse_naive_datetime(t.as_str());
    require_utc(zoned, naive)
}

/// Whether the text is a datetime with an offset, one without, or a date.
pub open spec fn is_datetime_text(s: Seq<char>) -> bool {
    zoned_datetime(s) is Some || naive_datetime(s) is Some || date_midnight(s) is Some
}

/// Whether `s` is a valid ISO 8601 datetime string (zoned, naive, or date-only).
pub fn is_valid_datetime_string(s: &str) -> (r: bool)
    ensures
        r == is_datetime_text(s@),
{
    parse_zoned_datetime(s).is_some() || parse_naive_datetime(s).is_some() || parse_date(
        s,
    ).is_some()
}

/// What a search filter's datetime is taken for, given what was read from its
/// text `s` with an offset, without one, and as a date.
pub open spec fn filter_reading(
    s: Seq<char>,
    zoned: Option<ZonedTimestamp>,
    naive: Option<Timestamp>,
    date: Option<Timestamp>,
) -> Result<Timestamp, Seq<char>> {
    if zoned is Some {
        Ok(zoned->0.instant)
    } else if naive is Some {
        Ok(naive->0)
    } else if date is Some {
        Ok(date->0)
    } else {
        Err(
            "Invalid datetime value '"@ + s
                + "': expected ISO 8601 (e.g. '2021-05-01', '2021-05-01T00:00:00Z')"@,
        )
    }
}

/// Decides what a search filter's datetime is taken for.
pub fn choose_reading(
    s: &str,
    zoned: Option<ZonedTimestamp>,
    naive: Option<Timestamp>,
    date: Option<Timestamp>,
) -> (r: Result<Timestamp, String>)
    ensures
        result_view(r) == filter_reading(s@, zoned, naive, date),
{
    match (zoned, naive, date) {
        (Some(z), _, _) => Ok(z.instant),
        (None, Some(n), _) => Ok(n),
        (None, None, Some(d)) => Ok(d),
        (None, None, None) => Err(
            text3(
                "Invalid datetime value '",
                s,
                "': expected ISO 8601 (e.g. '2021-05-01', '2021-05-01T00:00:00Z')",
            ),
        ),
    }
}

/// What a search filter's datetime stands for.
pub open spec fn filter_datetime(s: Seq<char>) -> Result<Timestamp, Seq<char>> {
    let t = text::trim(s);
    filter_reading(t, zoned_datetime(t), naive_datetime(t), date_midnight(t))
}

/// Parses a datetime for search filters. Zoned values convert to UTC; naive
/// and date-only values are taken as UTC.
pub fn parse_datetime_as_utc(s: &str) -> (r: Result<Timestamp, String>)
    ensures
        result_view(r) == filter_datetime(s@),
{
    let t = trimmed(s);
    let zoned = parse_zoned_datetime(t.as_str());
    let naive = parse_naive_datetime(t.as_str());
    let date = parse_date(t.as_str());
    choose_reading(t.as_str(), zoned, naive, date)
}

/// A text that a filter can read as a datetime is one that metadata accepts,
/// and the other way round.
pub proof fn filters_read_what_metadata_accepts(s: Seq<char>)
    ensures
        is_datetime_text(s) <==> filter_datetime(s) is Ok,
{
    text::trim_is_idempotent(s);
}

/// Every document timestamp that is accepted reads the same in a filter.
pub proof fn document_timestamps_read_alike(s: Seq<char>)
    ensures
        utc_reading(zoned_datetime(text::trim(s)), naive_datetime(text::trim(s))) matches Ok(t)
            ==> filter_datetime(s) == Ok::<Timestamp, Seq<char>>(t),
{
}

/// Instants are in the order of their seconds and, within a second, of their
/// nanoseconds: of two instants one comes first, or they are the same.
pub proof fn instants_are_ordered(a: Timestamp, b: Timestamp)
    ensures
        a.secs < b.secs ==> a.precedes(b) && !b.precedes(a),
        a.secs == b.secs ==> (a.precedes(b) <==> a.nanos < b.nanos),
        a.precedes(b) || b.precedes(a) || (a.secs == b.secs && a.nanos == b.nanos),
        !a.precedes(a),
{
}

proof fn lemma_first_naive(s: Seq<char>, formats: Seq<Seq<char>>, i: int)
    requires
        0 <= i < formats.len(),
        naive_value(s, formats[i]) is Some,
    ensures
        first_naive(s, formats) is Some,
    decreases formats.len(),
{
    if naive_value(s, formats[0]) is None {
        assert(formats.drop_first()[i - 1] == formats[i]);
        lemma_first_naive(s, formats.drop_first(), i - 1);
    }
}

proof fn lemma_first_zoned(s: Seq<char>, formats: Seq<Seq<char>>, i: int)
    requires
        0 <= i < formats.len(),
        zoned_value(s, formats[i]) is Some,
    ensures
        first_zoned(s, formats) is Some,
    decreases formats.len(),
{
    if zoned_value(s, formats[0]) is None {
        assert(formats.drop_first()[i - 1] == formats[i]);
        lemma_first_zoned(s, formats.drop_first(), i - 1);
    }
}

/// A date with a time and without a zone is read with a fraction or without, with
/// a letter between the two or a space, and white space around it is left out.
pub proof fn times_without_zone_are_read(s: Seq<char>)
    ensures
        ({
            let t = text::trim(s);
            &&& naive_value(t, "%Y-%m-%dT%H:%M:%S%.f"@) is Some ==> naive_datetime(s) is Some
            &&& naive_value(t, "%Y-%m-%dT%H:%M:%S"@) is Some ==> naive_datetime(s) is Some
            &&& naive_value(t, "%Y-%m-%d %H:%M:%S%.f"@) is Some ==> naive_datetime(s) is Some
            &&& naive_value(t, "%Y-%m-%d %H:%M:%S"@) is Some ==> naive_datetime(s) is Some
            &&& naive_value(t, "%Y-%m-%dT%H:%M:%S%.f"@) is Some ==> naive_datetime(s)
                == naive_value(t, "%Y-%m-%dT%H:%M:%S%.f"@)
            &&& date_midnight(s) == date_value(t, "%Y-%m-%d"@)
        }),
{
    let t = text::trim(s);
    let f = naive_formats();
    assert(f[0] == "%Y-%m-%dT%H:%M:%S%.f"@ && f[1] == "%Y-%m-%dT%H:%M:%S"@ && f[2]
        == "%Y-%m-%d %H:%M:%S%.f"@ && f[3] == "%Y-%m-%d %H:%M:%S"@);
    if naive_value(t, f[0]) is Some {
        lemma_first_naive(t, f, 0);
    }
    if naive_value(t, f[1]) is Some {
        lemma_first_naive(t, f, 1);
    }
    if naive_value(t, f[2]) is Some {
        lemma_first_naive(t, f, 2);
    }
    if naive_value(t, f[3]) is Some {
        lemma_first_naive(t, f, 3);
    }
}

/// A time with a zone is read as the standard writes it, or else with a fraction
/// or without, with a letter or a space before the time, with a space before the
/// zone or without, and with a colon in the zone or without.
pub proof fn times_with_zone_are_read(s: Seq<char>)
    ensures
        ({
            let t = text::trim(s);
            let read = |f: Seq<char>| zoned_value(t, f) is Some;
            &&& rfc3339_value(t) is Some ==> zoned_datetime(s) == rfc3339_value(t)
            &&& read("%Y-%m-%dT%H:%M:%S%.f%z"@) || read("%Y-%m-%dT%H:%M:%S%z"@) || read(
                "%Y-%m-%dT%H:%M:%S%.f%:z"@,
            ) || read("%Y-%m-%dT%H:%M:%S%:z"@) ==> zoned_datetime(s) is Some
            &&& read("%Y-%m-%d %H:%M:%S%.f%z"@) || read("%Y-%m-%d %H:%M:%S%z"@) || read(
                "%Y-%m-%d %H:%M:%S%.f%:z"@,
            ) || read("%Y-%m-%d %H:%M:%S%:z"@) ==> zoned_datetime(s) is Some
            &&& read("%Y-%m-%d %H:%M:%S%.f %z"@) || read("%Y-%m-%d %H:%M:%S %z"@) || read(
                "%Y-%m-%d %H:%M:%S%.f %:z"@,
            ) || read("%Y-%m-%d %H:%M:%S %:z"@) ==> zoned_datetime(s) is Some
            &&& read("%Y-%m-%dT%H:%M:%S%.f %z"@) || read("%Y-%m-%dT%H:%M:%S %z"@) || read(
                "%Y-%m-%dT%H:%M:%S%.f %:z"@,
            ) || read("%Y-%m-%dT%H:%M:%S %:z"@) ==> zoned_datetime(s) is Some
        }),
{
    let t = text::trim(s);
    let f = zoned_formats();
    assert(f.len() == 16);
    assert forall|i: int| 0 <= i < 16 && zoned_value(t, #[trigger] f[i]) is Some implies first_zoned(
        t,
        f,
    ) is Some by {
        lemma_first_zoned(t, f, i);
    }
    assert(f[0] == "%Y-%m-%dT%H:%M:%S%.f%z"@ && f[1] == "%Y-%m-%dT%H:%M:%S%z"@ && f[2]
        == "%Y-%m-%dT%H:%M:%S%.f%:z"@ && f[3] == "%Y-%m-%dT%H:%M:%S%:z"@);
    assert(f[4] == "%Y-%m-%d %H:%M:%S%.f%z"@ && f[5] == "%Y-%m-%d %H:%M:%S%z"@ && f[6]
        == "%Y-%m-%d %H:%M:%S%.f%:z"@ && f[7] == "%Y-%m-%d %H:%M:%S%:z"@);
    assert(f[8] == "%Y-%m-%d %H:%M:%S%.f %z"@ && f[9] == "%Y-%m-%d %H:%M:%S %z"@ && f[10]
        == "%Y-%m-%d %H:%M:%S%.f %:z"@ && f[11] == "%Y-%m-%d %H:%M:%S %:z"@);
    assert(f[12] == "%Y-%m-%dT%H:%M:%S%.f %z"@ && f[13] == "%Y-%m-%dT%H:%M:%S %z"@ && f[14]
        == "%Y-%m-%dT%H:%M:%S%.f %:z"@ && f[15] == "%Y-%m-%dT%H:%M:%S %:z"@);
}

/// The time of a document is accepted exactly if it has a zone and that is the
/// universal one; it is then the instant that was read.
pub proof fn document_times_are_universal(zoned: Option<ZonedTimestamp>, naive: Option<Timestamp>)
    ensures
        utc_reading(zoned, naive) is Ok <==> (zoned matches Some(z) && z.offset == 0),
        utc_reading(zoned, naive) matches Ok(t) ==> t == zoned->0.instant,
{
}

/// The time of a filter is that with a zone, else that without one, else the
/// midnight of a date; a text that is none of them is refused.
pub proof fn filter_times_are_read_in_order(
    s: Seq<char>,
    zoned: Option<ZonedTimestamp>,
    naive: Option<Timestamp>,
    date: Option<Timestamp>,
)
    ensures
        zoned matches Some(z) ==> filter_reading(s, zoned, naive, date) == Ok::<
            Timestamp,
            Seq<char>,
        >(z.instant),
        zoned is None && naive is Some ==> filter_reading(s, zoned, naive, date) == Ok::<
            Timestamp,
            Seq<char>,
        >(naive->0),
        zoned is None && naive is None && date is Some ==> filter_reading(s, zoned, naive, date)
            == Ok::<Timestamp, Seq<char>>(date->0),
        zoned is None && naive is None && date is None ==> filter_reading(s, zoned, naive, date)
            is Err,
{
}

} // verus!
