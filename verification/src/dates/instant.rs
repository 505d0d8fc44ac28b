//! Instants on the UTC time line and wall-clock times of day.

use vstd::prelude::*;
use vstd::string::{StrSliceExecFns, StringExecFns};

use crate::dates::civil::{day_number, valid_ymd};
use crate::dates::{iso_date, Date};
use crate::error::Error;
use crate::text::{digit_char, digit_str};

verus! {

/// Earliest second `jiff::Timestamp` supports (-9999-01-02T01:59:59Z).
pub open spec fn min_second() -> int {
    -377705023201
}

/// Latest second `jiff::Timestamp` supports (9999-12-30T22:00:00Z).
pub open spec fn max_second() -> int {
    253402207200
}

/// Nanoseconds in a second.
pub open spec fn nanos_per_second() -> int {
    1_000_000_000
}

/// Nanoseconds in a day.
pub open spec fn nanos_per_day() -> int {
    86_400_000_000_000
}

/// `(second, nanosecond)` is an instant as `jiff` stores it: the
/// sub-second part has the sign of the second part, and the instant lies
/// in the supported range.
pub open spec fn valid_instant(second: int, nanosecond: int) -> bool {
    &&& -999_999_999 <= nanosecond <= 999_999_999
    &&& second > 0 ==> nanosecond >= 0
    &&& second < 0 ==> nanosecond <= 0
    &&& min_second() * nanos_per_second() <= second * nanos_per_second() + nanosecond
    &&& second * nanos_per_second() + nanosecond <= max_second() * nanos_per_second()
        + 999_999_999
}

/// The instant `jiff` parses from `s`, as (second, nanosecond); `None`
/// when it does not parse.
pub uninterp spec fn jiff_parsed_timestamp(s: Seq<char>) -> Option<(i64, i32)>;

/// The text `jiff` renders for an instant (RFC 3339 in UTC).
pub uninterp spec fn jiff_rendered_timestamp(second: i64, nanosecond: i32) -> Seq<char>;

/// `jiff::Timestamp::from_second`: the contract claims, as its
/// documentation does, that it fails only outside the supported range.
#[verifier::external_body]
fn jiff_from_second(second: i64) -> (r: core::result::Result<(i64, i32), String>)
    ensures
        r is Ok <==> min_second() <= second <= max_second(),
        r matches Ok(t) ==> t == (second, 0i32),
{
    match jiff::Timestamp::from_second(second) {
        Ok(ts) => Ok((ts.as_second(), ts.subsec_nanosecond())),
        Err(e) => Err(e.to_string()),
    }
}

/// `FromStr` of `jiff::Timestamp`; the contract names the result and
/// claims that what parses is an instant of the supported range.
#[verifier::external_body]
fn jiff_parse_timestamp(s: &str) -> (r: core::result::Result<(i64, i32), String>)
    ensures
        r is Ok <==> jiff_parsed_timestamp(s@) is Some,
        r matches Ok(t) ==> jiff_parsed_timestamp(s@) == Some(t) && valid_instant(
            t.0 as int,
            t.1 as int,
        ),
{
    match s.parse::<jiff::Timestamp>() {
        Ok(ts) => Ok((ts.as_second(), ts.subsec_nanosecond())),
        Err(e) => Err(e.to_string()),
    }
}

/// `Display` of `jiff::Timestamp`; the contract names the text.
#[verifier::external_body]
fn jiff_render_timestamp(second: i64, nanosecond: i32) -> (r: String)
    requires
        valid_instant(second as int, nanosecond as int),
    ensures
        r@ == jiff_rendered_timestamp(second, nanosecond),
{
    match jiff::Timestamp::new(second, nanosecond) {
        Ok(ts) => ts.to_string(),
        Err(e) => e.to_string(),
    }
}

/// The civil date of an instant in UTC, with
/// `jiff::Timestamp::to_zoned(TimeZone::UTC).date()`: the contract claims
/// it is the day whose number is the floor of the instant over a day.
#[verifier::external_body]
fn jiff_utc_date(second: i64, nanosecond: i32) -> (r: (i16, i8, i8))
    requires
        valid_instant(second as int, nanosecond as int),
    ensures
        valid_ymd(r.0 as int, r.1 as int, r.2 as int),
        day_number(r.0 as int, r.1 as int, r.2 as int) == (second * nanos_per_second()
            + nanosecond) / nanos_per_day(),
{
    match jiff::Timestamp::new(second, nanosecond) {
        Ok(ts) => {
            let d = ts.to_zoned(jiff::tz::TimeZone::UTC).date();
            (d.year(), d.month(), d.day())
        },
        Err(_) => (1970, 1, 1),
    }
}

/// Midnight UTC at the start of a date, with
/// `jiff::civil::Date::at(0, 0, 0, 0).to_zoned(TimeZone::UTC)`: the
/// contract claims it is the day number times the seconds of a day.
#[verifier::external_body]
fn jiff_midnight_utc(year: i16, month: i8, day: i8) -> (r: (i64, i32))
    requires
        valid_ymd(year as int, month as int, day as int),
        min_second() <= day_number(year as int, month as int, day as int) * 86400 <= max_second(),
    ensures
        r == ((day_number(year as int, month as int, day as int) * 86400) as i64, 0i32),
{
    match jiff::civil::Date::new(year, month, day) {
        Ok(d) => match d.at(0, 0, 0, 0).to_zoned(jiff::tz::TimeZone::UTC) {
            Ok(z) => (z.timestamp().as_second(), z.timestamp().subsec_nanosecond()),
            Err(_) => (0, 0),
        },
        Err(_) => (0, 0),
    }
}

/// An instant on the UTC time line, with nanosecond precision.
#[derive(Clone, Copy, PartialEq, Eq, Hash, Debug)]
pub struct Timestamp {
    second: i64,
    nanosecond: i32,
}

impl Timestamp {
    /// Whole seconds since the Unix epoch (rounded toward zero).
    pub closed spec fn spec_second(self) -> int {
        self.second as int
    }

    /// Nanoseconds beyond the whole seconds (with their sign).
    pub closed spec fn spec_nanosecond(self) -> int {
        self.nanosecond as int
    }

    /// Every timestamp is an instant `jiff` supports.
    #[verifier::type_invariant]
    pub open spec fn wf(self) -> bool {
        valid_instant(self.spec_second(), self.spec_nanosecond())
    }

    /// The instant `second` seconds after the Unix epoch; an error outside
    /// the supported range.
    pub fn from_second(second: i64) -> (r: crate::error::Result<Timestamp>)
        ensures
            r is Ok <==> min_second() <= second <= max_second(),
            r matches Ok(t) ==> t@ == second * nanos_per_second(),
            r matches Err(e) ==> e is Date,
    {
        match jiff_from_second(second) {
            Ok((s, n)) => Ok(Timestamp { second: s, nanosecond: n }),
            Err(msg) => Err(Error::Date(msg)),
        }
    }

    /// Parse an RFC 3339 instant such as `2026-03-02T10:00:00Z`.
    pub fn parse(s: &str) -> (r: crate::error::Result<Timestamp>)
        ensures
            r is Ok <==> jiff_parsed_timestamp(s@) is Some,
            r matches Ok(t) ==> jiff_parsed_timestamp(s@) == Some(
                (t.spec_second() as i64, t.spec_nanosecond() as i32),
            ),
            r matches Err(e) ==> e is Date,
    {
        match jiff_parse_timestamp(s) {
            Ok((sec, n)) => Ok(Timestamp { second: sec, nanosecond: n }),
            Err(msg) => Err(Error::Date(msg)),
        }
    }

    /// Whole seconds since the Unix epoch.
    pub fn as_second(&self) -> (r: i64)
        ensures
            r == self.spec_second(),
    {
        self.second
    }

    /// The date of this instant in UTC.
    pub fn date(&self) -> (r: Date)
        ensures
            r@ == self@ / nanos_per_day(),
    {
        proof {
            use_type_invariant(self);
        }
        let (y, m, d) = jiff_utc_date(self.second, self.nanosecond);
        Date::new(y, m, d)
    }

    /// True if this instant is strictly before `other`.
    pub fn is_before(&self, other: &Timestamp) -> (r: bool)
        ensures
            r == (self@ < other@),
    {
        proof {
            use_type_invariant(self);
            use_type_invariant(other);
        }
        self.second < other.second || (self.second == other.second && self.nanosecond
            < other.nanosecond)
    }

    /// The instant as RFC 3339 text in UTC.
    pub fn to_string(&self) -> (r: String)
        ensures
            r@ == jiff_rendered_timestamp(self.spec_second() as i64, self.spec_nanosecond() as i32),
    {
        proof {
            use_type_invariant(self);
        }
        jiff_render_timestamp(self.second, self.nanosecond)
    }
}

impl View for Timestamp {
    type V = int;

    /// A timestamp is viewed as nanoseconds since the Unix epoch.
    open spec fn view(&self) -> int {
        self.spec_second() * nanos_per_second() + self.spec_nanosecond()
    }
}

impl Date {
    /// Midnight UTC at the start of this date. The date must not be one of
    /// the first two or the last day of the supported range, whose
    /// midnights UTC lie outside the supported instants.
    pub fn as_of_midnight(&self) -> (r: Timestamp)
        requires
            min_second() <= self@ * 86400 <= max_second(),
        ensures
            r@ == self@ * nanos_per_day(),
            r@ / nanos_per_day() == self@,
    {
        proof {
            use_type_invariant(self);
        }
        let (s, n) = jiff_midnight_utc(self.year(), self.month(), self.day());

        Timestamp { second: s, nanosecond: n }
    }
}

/// A wall-clock time of day to the minute, such as a settlement time.
#[derive(Clone, Copy, PartialEq, Eq, Hash, Debug)]
pub struct Time {
    hour: u8,
    minute: u8,
}

/// Value of an ASCII digit character, if it is one.
pub open spec fn digit_value(c: char) -> Option<int> {
    if '0' <= c && c <= '9' {
        Some(c as int - '0' as int)
    } else {
        None
    }
}

/// The time of day that `HH:MM` text denotes: exactly two digits of hour
/// (below 24), a colon and two digits of minute (below 60).
pub open spec fn parsed_time(s: Seq<char>) -> Option<(int, int)> {
    if s.len() == 5 && s[2] == ':' && digit_value(s[0]) is Some && digit_value(s[1]) is Some
        && digit_value(s[3]) is Some && digit_value(s[4]) is Some {
        let h = digit_value(s[0]).unwrap() * 10 + digit_value(s[1]).unwrap();
        let m = digit_value(s[3]).unwrap() * 10 + digit_value(s[4]).unwrap();
        if h < 24 && m < 60 {
            Some((h, m))
        } else {
            None
        }
    } else {
        None
    }
}

/// `hour:minute` as `HH:MM` text.
pub open spec fn time_text(hour: int, minute: int) -> Seq<char> {
    seq![digit_char(hour / 10), digit_char(hour % 10), ':', digit_char(minute / 10), digit_char(minute % 10)]
}

/// Writing a time as `HH:MM` and parsing the text back gives the same time.
pub proof fn lemma_time_text_roundtrip(hour: int, minute: int)
    requires
        0 <= hour < 24,
        0 <= minute < 60,
    ensures
        parsed_time(time_text(hour, minute)) == Some((hour, minute)),
{
    let s = time_text(hour, minute);
    assert(digit_value(s[0]) == Some(hour / 10));
    assert(digit_value(s[1]) == Some(hour % 10));
    assert(digit_value(s[3]) == Some(minute / 10));
    assert(digit_value(s[4]) == Some(minute % 10));
}

fn digit_of(c: char) -> (r: Option<u8>)
    ensures
        r matches Some(d) ==> digit_value(c) == Some(d as int),
        r is None ==> digit_value(c) is None,
{
    if '0' <= c && c <= '9' {
        Some((c as u32 - '0' as u32) as u8)
    } else {
        None
    }
}

impl Time {
    /// Hour (0..=23).
    pub closed spec fn spec_hour(self) -> int {
        self.hour as int
    }

    /// Minute (0..=59).
    pub closed spec fn spec_minute(self) -> int {
        self.minute as int
    }

    /// Every time names an existing minute of the day.
    #[verifier::type_invariant]
    pub open spec fn wf(self) -> bool {
        self.spec_hour() < 24 && self.spec_minute() < 60
    }

    /// The time `hour:minute`.
    pub fn new(hour: u8, minute: u8) -> (r: Time)
        requires
            hour < 24,
            minute < 60,
        ensures
            r.spec_hour() == hour,
            r.spec_minute() == minute,
    {
        Time { hour, minute }
    }

    /// Hour (0..=23).
    pub fn hour(&self) -> (r: u8)
        ensures
            r == self.spec_hour(),
            r < 24,
    {
        proof {
            use_type_invariant(self);
        }
        self.hour
    }

    /// Minute (0..=59).
    pub fn minute(&self) -> (r: u8)
        ensures
            r == self.spec_minute(),
            r < 60,
    {
        proof {
            use_type_invariant(self);
        }
        self.minute
    }

    /// Parse `HH:MM` text; an error for anything else or an hour or minute
    /// out of range.
    pub fn parse(s: &str) -> (r: crate::error::Result<Time>)
        ensures
            r is Ok <==> parsed_time(s@) is Some,
            r matches Ok(t) ==> parsed_time(s@) == Some((t.spec_hour(), t.spec_minute())),
            r matches Err(e) ==> e is Date,
    {
        let n = s.unicode_len();
        if n != 5 {
            return Err(Error::Date(String::from_str("time must be HH:MM")));
        }
        let d0 = digit_of(s.get_char(0));
        let d1 = digit_of(s.get_char(1));
        let colon = s.get_char(2);
        let d3 = digit_of(s.get_char(3));
        let d4 = digit_of(s.get_char(4));
        match (d0, d1, d3, d4) {
            (Some(a), Some(b), Some(c), Some(d)) => {
                if colon != ':' {
                    return Err(Error::Date(String::from_str("time must be HH:MM")));
                }
                let h: u8 = a * 10 + b;
                let m: u8 = c * 10 + d;
                if h < 24 && m < 60 {
                    Ok(Time { hour: h, minute: m })
                } else {
                    Err(Error::Date(String::from_str("time of day out of range")))
                }
            },
            _ => Err(Error::Date(String::from_str("time must be HH:MM"))),
        }
    }

    /// The time as `HH:MM` text.
    pub fn to_string(&self) -> (r: String)
        ensures
            r@ == time_text(self.spec_hour(), self.spec_minute()),
    {
        proof {
            use_type_invariant(self);
        }
        proof {
            reveal_strlit(":");
        }
        let r = String::from_str(digit_str(self.hour / 10)).concat(digit_str(self.hour % 10)).concat(
            ":",
        ).concat(digit_str(self.minute / 10)).concat(digit_str(self.minute % 10));
        assert(r@ =~= seq![
            digit_char(self.spec_hour() / 10),
            digit_char(self.spec_hour() % 10),
            ':',
            digit_char(self.spec_minute() / 10),
            digit_char(self.spec_minute() % 10),
        ]);
        r
    }
}

/// Declares `jiff::Zoned`, a datetime attached to a time zone.
#[verifier::external_type_specification]
#[verifier::external_body]
pub struct ExJiffZoned(jiff::Zoned);

/// Declares `jiff::tz::TimeZone`.
#[verifier::external_type_specification]
#[verifier::external_body]
pub struct ExJiffTimeZone(jiff::tz::TimeZone);

/// Looks up an IANA time zone with `jiff::tz::TimeZone::get`. What it
/// finds depends on the time zone database of the machine, so the
/// contract claims nothing of the outcome.
#[verifier::external_body]
fn jiff_time_zone(name: &str) -> (r: core::result::Result<jiff::tz::TimeZone, String>) {
    jiff::tz::TimeZone::get(name).map_err(|e| e.to_string())
}

/// The wall-clock time `hour:minute` of a civil date in a time zone, with
/// `jiff::civil::Date::at(..).to_zoned(tz)`; the outcome depends on the
/// zone's rules, so the contract claims nothing of it.
#[verifier::external_body]
fn jiff_zoned_at(year: i16, month: i8, day: i8, hour: i8, minute: i8, tz: jiff::tz::TimeZone) -> (r:
    core::result::Result<jiff::Zoned, String>)
    requires
        valid_ymd(year as int, month as int, day as int),
        0 <= hour < 24,
        0 <= minute < 60,
{
    match jiff::civil::Date::new(year, month, day) {
        Ok(d) => d.at(hour, minute, 0, 0).to_zoned(tz).map_err(|e| e.to_string()),
        Err(e) => Err(e.to_string()),
    }
}

/// `FromStr` of `jiff::Zoned` (text such as
/// `2025-06-14T19:30:00[Europe/London]`); the outcome depends on the
/// machine's time zone database, so the contract claims nothing of it.
#[verifier::external_body]
fn jiff_parse_zoned(s: &str) -> (r: core::result::Result<jiff::Zoned, String>) {
    s.parse::<jiff::Zoned>().map_err(|e| e.to_string())
}

/// `jiff::Zoned::timestamp`: the contract claims the instant is one that
/// `jiff::Timestamp` supports.
#[verifier::external_body]
fn jiff_zoned_instant(z: &jiff::Zoned) -> (r: (i64, i32))
    ensures
        valid_instant(r.0 as int, r.1 as int),
{
    let t = z.timestamp();
    (t.as_second(), t.subsec_nanosecond())
}

/// `jiff::Zoned::date`: the contract claims it is a valid civil date.
#[verifier::external_body]
fn jiff_zoned_date(z: &jiff::Zoned) -> (r: (i16, i8, i8))
    ensures
        valid_ymd(r.0 as int, r.1 as int, r.2 as int),
{
    let d = z.date();
    (d.year(), d.month(), d.day())
}

/// `Display` of `jiff::Zoned`; the contract claims nothing of the text.
#[verifier::external_body]
fn jiff_render_zoned(z: &jiff::Zoned) -> (r: String) {
    z.to_string()
}

/// `jiff::Zoned::time_zone`, cloned.
#[verifier::external_body]
fn jiff_zoned_time_zone(z: &jiff::Zoned) -> (r: jiff::tz::TimeZone) {
    z.time_zone().clone()
}

/// `Clone` of `jiff::tz::TimeZone` (derived): the contract claims the
/// clone is the same time zone.
#[verifier::external_body]
fn jiff_clone_time_zone(tz: &jiff::tz::TimeZone) -> (r: jiff::tz::TimeZone)
    ensures
        r == *tz,
{
    tz.clone()
}

/// A datetime tied to a time zone: settlement times, observation times.
/// Besides the `jiff::Zoned` it holds what the library reads of it: the
/// civil date in the zone, the instant, the zone and the text, each taken
/// from the `jiff::Zoned` when the datetime is made.
#[derive(Debug)]
pub struct ZonedDateTime {
    inner: jiff::Zoned,
    date: Date,
    instant: Timestamp,
    zone: jiff::tz::TimeZone,
    text: String,
}

impl ZonedDateTime {
    /// The `jiff::Zoned` this datetime holds.
    pub closed spec fn spec_inner(self) -> jiff::Zoned {
        self.inner
    }

    /// The calendar date in the zone.
    pub closed spec fn spec_date(self) -> Date {
        self.date
    }

    /// The instant on the UTC time line.
    pub closed spec fn spec_timestamp(self) -> Timestamp {
        self.instant
    }

    /// The time zone.
    pub closed spec fn spec_zone(self) -> jiff::tz::TimeZone {
        self.zone
    }

    /// The text of the datetime, with offset and zone name.
    pub closed spec fn spec_text(self) -> Seq<char> {
        self.text@
    }

    /// Wrap a `jiff::Zoned`.
    pub fn from_jiff(z: jiff::Zoned) -> (r: ZonedDateTime)
        ensures
            r.spec_inner() == z,
    {
        let (y, m, d) = jiff_zoned_date(&z);
        let (s, n) = jiff_zoned_instant(&z);
        let zone = jiff_zoned_time_zone(&z);
        let text = jiff_render_zoned(&z);
        ZonedDateTime {
            inner: z,
            date: Date::new(y, m, d),
            instant: Timestamp { second: s, nanosecond: n },
            zone,
            text,
        }
    }

    /// What a parse of `jiff::Zoned` text gave, as a datetime: the parsed
    /// value, or a date error carrying jiff's message.
    pub fn from_parsed(p: core::result::Result<jiff::Zoned, String>) -> (r: crate::error::Result<ZonedDateTime>)
        ensures
            p matches Ok(z) ==> (r matches Ok(v) && v.spec_inner() == z),
            p matches Err(m) ==> (r matches Err(e) && e == Error::Date(m)),
    {
        match p {
            Ok(z) => Ok(ZonedDateTime::from_jiff(z)),
            Err(msg) => Err(Error::Date(msg)),
        }
    }

    /// Parse text such as `2025-06-14T19:30:00[Europe/London]`; a date
    /// error when it does not parse.
    pub fn parse(s: &str) -> (r: crate::error::Result<ZonedDateTime>)
        ensures
            r matches Err(e) ==> e is Date,
    {
        ZonedDateTime::from_parsed(jiff_parse_zoned(s))
    }

    /// The underlying `jiff::Zoned`.
    pub fn inner(&self) -> (r: &jiff::Zoned)
        ensures
            *r == self.spec_inner(),
    {
        &self.inner
    }

    /// The calendar date in the zone.
    pub fn date(&self) -> (r: Date)
        ensures
            r == self.spec_date(),
    {
        self.date
    }

    /// The instant on the UTC time line.
    pub fn timestamp(&self) -> (r: Timestamp)
        ensures
            r == self.spec_timestamp(),
    {
        self.instant
    }

    /// The time zone.
    pub fn timezone(&self) -> (r: jiff::tz::TimeZone)
        ensures
            r == self.spec_zone(),
    {
        jiff_clone_time_zone(&self.zone)
    }

    /// The datetime as text, with offset and zone name.
    pub fn to_string(&self) -> (r: String)
        ensures
            r@ == self.spec_text(),
    {
        self.text.clone()
    }
}

/// An error of placing a wall-clock time in a time zone: an instrument
/// error that names an unknown zone or a time the zone cannot place.
pub open spec fn zone_error(e: Error) -> bool {
    e matches Error::Instrument(m) && ((m@.len() >= 18 && m@.subrange(0, 18) == "invalid timezone '"@)
        || (m@.len() >= 15 && m@.subrange(0, 15) == "cannot resolve "@))
}

/// The message of an unknown zone `zone`, with jiff's `detail`.
pub open spec fn unknown_zone_text(zone: Seq<char>, detail: Seq<char>) -> Seq<char> {
    "invalid timezone '"@ + zone + "': "@ + detail
}

/// The message of a wall-clock time that the zone cannot place, naming the
/// date, the time and the zone, with jiff's `detail`.
pub open spec fn unplaced_time_text(date: Date, time: Time, zone: Seq<char>, detail: Seq<char>) -> Seq<char> {
    "cannot resolve "@ + iso_date(
        date.spec_year() as i16,
        date.spec_month() as i8,
        date.spec_day() as i8,
    ) + " "@ + time_text(time.spec_hour(), time.spec_minute()) + " in "@ + zone + ": "@ + detail
}

/// The instant at which `time` strikes on `date` in the time zone named
/// `zone`: an error naming the zone when the zone is unknown, or naming
/// the date, time and zone when the zone's rules cannot place that
/// wall-clock time.
pub(crate) fn zoned_at(date: Date, time: Time, zone: &str) -> (r: crate::error::Result<ZonedDateTime>)
    ensures
        r matches Err(e) ==> zone_error(e),
        r matches Err(e) ==> (e matches Error::Instrument(m) && exists|detail: Seq<char>|
            #![trigger unknown_zone_text(zone@, detail)]
            #![trigger unplaced_time_text(date, time, zone@, detail)]
            m@ == unknown_zone_text(zone@, detail) || m@ == unplaced_time_text(date, time, zone@, detail)),
{
    proof {
        reveal_strlit("invalid timezone '");
        reveal_strlit("cannot resolve ");
    }
    let tz = match jiff_time_zone(zone) {
        Ok(tz) => tz,
        Err(e) => {
            let m = String::from_str("invalid timezone '").concat(zone).concat("': ").concat(e.as_str());
            proof {
                assert(m@.subrange(0, 18) =~= "invalid timezone '"@);
                assert(m@ == unknown_zone_text(zone@, e@));
            }
            return Err(Error::Instrument(m));
        },
    };
    proof {
        use_type_invariant(&date);
        use_type_invariant(&time);
    }
    match jiff_zoned_at(date.year(), date.month(), date.day(), time.hour() as i8, time.minute() as i8, tz) {
        Ok(z) => Ok(ZonedDateTime::from_jiff(z)),
        Err(e) => {
            let m = String::from_str("cannot resolve ").concat(date.to_string().as_str()).concat(" ").concat(
                time.to_string().as_str(),
            ).concat(" in ").concat(zone).concat(": ").concat(e.as_str());
            proof {
                assert(m@.subrange(0, 15) =~= "cannot resolve "@);
                assert(m@ == unplaced_time_text(date, time, zone@, e@));
            }
            Err(Error::Instrument(m))
        },
    }
}

} // verus!

