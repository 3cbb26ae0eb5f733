//! Instants in UTC and how they read.

use crate::number::digit_char;
use vstd::prelude::*;

verus! {

pub const SECONDS_PER_DAY: i64 = 86400;

/// An instant: seconds since the Unix epoch and nanoseconds into the second,
/// counted on through a leap second.
pub struct Instant {
    pub seconds: int,
    pub nanos: int,
}

/// Whether an instant is one that a timestamp can have.
pub open spec fn valid_instant(seconds: int, nanos: int) -> bool {
    &&& -8334601228800 <= seconds <= 8210266876799
    &&& 0 <= nanos < 2000000000
    &&& nanos >= 1000000000 ==> seconds % 60 == 59
}

/// Whether an instant is one that the clock can give.
pub open spec fn clock_instant(at: Instant) -> bool {
    valid_instant(at.seconds, at.nanos) && at.seconds >= 0
}

/// Whether a time in whole seconds is one that the clock can give.
pub open spec fn clock_seconds(seconds: int) -> bool {
    0 <= seconds <= 8_210_266_876_799
}

/// Whether all of these instants are ones that the clock can give.
pub open spec fn clock_readings(nows: Seq<Timestamp>) -> bool {
    forall|i: int| 0 <= i < nows.len() ==> clock_instant(#[trigger] nows[i]@)
}

/// An instant between the first day of the year -262143 and the last day of the
/// year 262142.
#[derive(Debug, Clone, Copy, PartialEq, Eq, Structural)]
pub struct Timestamp {
    seconds: i64,
    nanos: u32,
}

impl View for Timestamp {
    type V = Instant;

    closed spec fn view(&self) -> Instant {
        Instant { seconds: self.seconds as int, nanos: self.nanos as int }
    }
}

/// The current time of `chrono::Utc::now`, as seconds since the Unix epoch and
/// nanoseconds into the second. The contract claims that it is not before the
/// epoch and can be a timestamp; which instant it is rests on the system clock
/// and is left unsaid. A system clock that is before the epoch ends the
/// program.
#[verifier::external_body]
fn utc_now() -> (now: (i64, u32))
    ensures
        valid_instant(now.0 as int, now.1 as int),
        now.0 >= 0,
{
    let now = chrono::Utc::now();
    (now.timestamp(), now.timestamp_subsec_nanos())
}

/// `chrono`'s `DateTime<Utc>` in the format `%H:%M`: hours and minutes of the
/// day, two digits each.
#[verifier::external_body]
fn format_hour_minute(seconds: i64, nanos: u32) -> (text: Option<String>)
    ensures
        match text {
            Some(t) => valid_instant(seconds as int, nanos as int) && t@ == hour_minute(
                seconds as int,
            ),
            None => !valid_instant(seconds as int, nanos as int),
        },
{
    match chrono::DateTime::from_timestamp(seconds, nanos) {
        Some(at) => Some(at.format("%H:%M").to_string()),
        None => None,
    }
}

/// A day in the format `%A, %b %d`, such as `Monday, Jan 05`. Days are counted
/// from the first of January 1970.
pub uninterp spec fn day_text(day: int) -> Seq<char>;

/// `chrono`'s `DateTime<Utc>` in the format `%A, %b %d`: the full name of the
/// weekday, a comma, the short name of the month, and the day of the month. The
/// contract claims that the text depends on the day alone and that it has a
/// comma. The calendar itself is left unsaid.
#[verifier::external_body]
fn format_day(seconds: i64, nanos: u32) -> (text: Option<String>)
    ensures
        match text {
            Some(t) => {
                &&& valid_instant(seconds as int, nanos as int)
                &&& t@ == day_text(day_of(seconds as int))
                &&& t@.contains(',')
            },
            None => !valid_instant(seconds as int, nanos as int),
        },
{
    match chrono::DateTime::from_timestamp(seconds, nanos) {
        Some(at) => Some(at.format("%A, %b %d").to_string()),
        None => None,
    }
}

/// The day of an instant, counted from the first of January 1970.
pub open spec fn day_of(seconds: int) -> int {
    seconds / 86400
}

/// Two decimal digits.
pub open spec fn two_digits(n: int) -> Seq<char> {
    seq![digit_char((n / 10 % 10) as nat), digit_char((n % 10) as nat)]
}

/// Hours and minutes of the day of an instant.
pub open spec fn hour_minute(seconds: int) -> Seq<char> {
    two_digits(seconds % 86400 / 3600) + seq![':'] + two_digits(seconds % 3600 / 60)
}

/// Whether an instant is before another.
pub open spec fn earlier(a: Instant, b: Instant) -> bool {
    a.seconds < b.seconds || a.seconds == b.seconds && a.nanos < b.nanos
}

/// Whether an instant is before another, where no instant is before every one.
pub open spec fn earlier_option(a: Option<Instant>, b: Option<Instant>) -> bool {
    match (a, b) {
        (Some(x), Some(y)) => earlier(x, y),
        (None, Some(_)) => true,
        (_, None) => false,
    }
}

pub open spec fn instant_of(at: Option<Timestamp>) -> Option<Instant> {
    match at {
        Some(t) => Some(t@),
        None => None,
    }
}

impl Timestamp {
    #[verifier::type_invariant]
    spec fn valid(self) -> bool {
        valid_instant(self.seconds as int, self.nanos as int)
    }

    /// The timestamp of an instant, if it can have one.
    pub fn new(seconds: i64, nanos: u32) -> (at: Option<Timestamp>)
        ensures
            match at {
                Some(t) => valid_instant(seconds as int, nanos as int) && t@ == (Instant {
                    seconds: seconds as int,
                    nanos: nanos as int,
                }),
                None => !valid_instant(seconds as int, nanos as int),
            },
    {
        if seconds < -8334601228800 || seconds > 8210266876799 || nanos >= 2000000000 {
            return None;
        }
        // The remainder of a negative number is negative or zero.
        let rest: i64 = seconds % 60;
        let second: i64 = if rest < 0 {
            rest + 60
        } else {
            rest
        };
        proof {
            lemma_remainder(seconds, rest as int, 60);
        }
        if nanos >= 1000000000 && second != 59 {
            return None;
        }
        Some(Timestamp { seconds, nanos })
    }

    /// The current time, as the system clock has it. What depends on it takes
    /// it as an argument.
    pub fn now() -> (now: Timestamp)
        ensures
            clock_instant(now@),
    {
        let (seconds, nanos) = utc_now();
        Timestamp { seconds, nanos }
    }

    /// Seconds since the Unix epoch.
    pub fn seconds(&self) -> (seconds: i64)
        ensures
            seconds == self@.seconds,
            valid_instant(self@.seconds, self@.nanos),
    {
        proof {
            use_type_invariant(self);
        }
        self.seconds
    }

    /// Nanoseconds into the second.
    pub fn nanos(&self) -> (nanos: u32)
        ensures
            nanos == self@.nanos,
    {
        self.nanos
    }

    /// Whether this is before another instant.
    pub fn is_earlier(&self, other: &Timestamp) -> (before: bool)
        ensures
            before == earlier(self@, other@),
    {
        self.seconds < other.seconds || self.seconds == other.seconds && self.nanos < other.nanos
    }

    /// The day, counted from the first of January 1970.
    pub fn day(&self) -> (day: i64)
        ensures
            day == day_of(self@.seconds),
            -96465292 <= day <= 95026236,
    {
        proof {
            use_type_invariant(self);
        }
        let seconds: i64 = self.seconds;
        let quotient: i64 = seconds / SECONDS_PER_DAY;
        let rest: i64 = seconds % SECONDS_PER_DAY;
        proof {
            lemma_remainder(seconds, rest as int, 86400);
        }
        if rest < 0 {
            quotient - 1
        } else {
            quotient
        }
    }
}

/// Truncating division of a number against the rounding-down one.
proof fn lemma_remainder(n: i64, rest: int, by: int)
    requires
        by == 60 || by == 86400,
        n >= 0 ==> rest == n as int % by,
        n < 0 ==> rest == -((-(n as int)) % by),
    ensures
        rest < 0 ==> n as int % by == rest + by && n as int / by == -((-(n as int)) / by) - 1,
        rest >= 0 ==> n as int % by == rest,
        rest == 0 ==> n < 0 ==> n as int / by == -((-(n as int)) / by),
{
}

/// Whether an instant is before another, where no instant is before every one.
pub fn is_earlier_option(a: &Option<Timestamp>, b: &Option<Timestamp>) -> (before: bool)
    ensures
        before == earlier_option(instant_of(*a), instant_of(*b)),
{
    match (a, b) {
        (Some(x), Some(y)) => x.is_earlier(y),
        (None, Some(_)) => true,
        (_, None) => false,
    }
}

/// The hours and minutes that a session card shows.
pub fn format_session_time(at: Timestamp) -> (text: String)
    ensures
        text@ == hour_minute(at@.seconds),
{
    proof {
        use_type_invariant(&at);
    }
    match format_hour_minute(at.seconds, at.nanos) {
        Some(text) => text,
        None => String::new(),
    }
}

/// The label of the day of an instant, seen from another.
pub open spec fn day_label_text(at: Option<Instant>, now: Instant) -> Seq<char> {
    match at {
        None => "Unknown date"@,
        Some(instant) => {
            let day = day_of(instant.seconds);
            let today = day_of(now.seconds);
            if day == today {
                "Today"@
            } else if day == today - 1 {
                "Yesterday"@
            } else {
                day_text(day)
            }
        },
    }
}

/// The label of the day of an instant, seen from `now`. Only the same day is
/// labelled as today, and only the day before as yesterday.
pub fn day_label(at: Option<Timestamp>, now: Timestamp) -> (label: String)
    ensures
        label@ == day_label_text(instant_of(at), now@),
        label@ == "Today"@ <==> (at is Some && day_of(at->0@.seconds) == day_of(now@.seconds)),
        label@ == "Yesterday"@ <==> (at is Some && day_of(at->0@.seconds) == day_of(now@.seconds)
            - 1),
        label@ == "Unknown date"@ <==> at is None,
{
    proof {
        reveal_strlit("Today");
        reveal_strlit("Yesterday");
        reveal_strlit("Unknown date");
        assert("Today"@[0] == 'T' && "Yesterday"@[0] == 'Y' && "Unknown date"@[0] == 'U');
        assert(!"Today"@.contains(',') && !"Yesterday"@.contains(',') && !"Unknown date"@.contains(
            ',',
        ));
    }
    let at = match at {
        Some(at) => at,
        None => {
            return "Unknown date".to_string();
        },
    };
    let today: i64 = now.day();
    let day: i64 = at.day();
    if day == today {
        "Today".to_string()
    } else if day == today - 1 {
        "Yesterday".to_string()
    } else {
        proof {
            use_type_invariant(&at);
        }
        match format_day(at.seconds, at.nanos) {
            Some(text) => text,
            None => String::new(),
        }
    }
}

// ---------------------------------------------------------------------------
// Laws
// ---------------------------------------------------------------------------

/// Whether the first of two optional times is at the same instant as the second
/// or after it. No time comes before every time.
pub open spec fn not_before(a: Option<Timestamp>, b: Option<Timestamp>) -> bool {
    b matches Some(y) ==> {
        &&& a is Some
        &&& a->0@.seconds >= y@.seconds
        &&& a->0@.seconds == y@.seconds ==> a->0@.nanos >= y@.nanos
    }
}

/// One time is earlier than another exactly where it is not at the same instant
/// or after it.
pub proof fn lemma_earlier_or_not_before(a: Option<Timestamp>, b: Option<Timestamp>)
    ensures
        earlier_option(instant_of(a), instant_of(b)) <==> !not_before(a, b),
        instant_of(a) == instant_of(b) <==> not_before(a, b) && not_before(b, a),
{
    if not_before(a, b) && not_before(b, a) && a is Some {
        assert(a->0@.seconds == b->0@.seconds);
        assert(a->0@.nanos == b->0@.nanos);
    }
}

/// A day has 86400 seconds, and a time in its last second is as much part of it
/// as one in its first.
pub proof fn lemma_seconds_of_a_day(day: int, second: int)
    requires
        0 <= second < 86400,
    ensures
        day_of(86400 * day + second) == day,
{
    assert((86400 * day + second) / 86400 == day) by (nonlinear_arith)
        requires
            0 <= second < 86400,
    ;
}

/// Every whole second of the calendar, with any part of it, is a timestamp; a
/// second may last longer only at the end of a minute.
pub proof fn lemma_timestamps(seconds: int, nanos: int)
    ensures
        -8334601228800 <= seconds <= 8210266876799 && 0 <= nanos < 1000000000 ==> valid_instant(
            seconds,
            nanos,
        ),
        valid_instant(seconds, nanos) ==> 0 <= nanos < 2000000000 && (nanos >= 1000000000 ==> (
        seconds + 1) % 60 == 0),
{
}

/// What a time is labelled, seen from some moment, depends on the two days
/// alone: the moment's own day is today, the day before it is yesterday, and
/// every other day goes by its own name, a later one too.
pub proof fn lemma_days_have_labels(at: Timestamp, now: Instant, day: int, ago: int)
    requires
        86400 * day <= at@.seconds < 86400 * (day + 1),
        86400 * (day + ago) <= now.seconds < 86400 * (day + ago + 1),
    ensures
        ago == 0 ==> day_label_text(instant_of(Some(at)), now) == "Today"@,
        ago == 1 ==> day_label_text(instant_of(Some(at)), now) == "Yesterday"@,
        ago < 0 || ago > 1 ==> day_label_text(instant_of(Some(at)), now) == day_text(day),
        day_label_text(instant_of(None), now) == "Unknown date"@,
{
    lemma_seconds_of_a_day(day, at@.seconds - 86400 * day);
    lemma_seconds_of_a_day(day + ago, now.seconds - 86400 * (day + ago));
}

/// A session's time shows the hour and the minute of its day, two digits each.
pub proof fn lemma_hours_and_minutes(day: int, hour: int, minute: int, second: int)
    requires
        0 <= hour < 24,
        0 <= minute < 60,
        0 <= second < 60,
    ensures
        ({
            let text = hour_minute(86400 * day + 3600 * hour + 60 * minute + second);
            &&& text.len() == 5
            &&& text[0] as int == '0' as int + hour / 10
            &&& text[1] as int == '0' as int + hour % 10
            &&& text[2] == ':'
            &&& text[3] as int == '0' as int + minute / 10
            &&& text[4] as int == '0' as int + minute % 10
        }),
{
    let seconds = 86400 * day + 3600 * hour + 60 * minute + second;
    assert(seconds % 86400 == 3600 * hour + 60 * minute + second);
    assert(seconds % 86400 / 3600 == hour);
    assert(seconds % 3600 == 60 * minute + second);
    assert(seconds % 3600 / 60 == minute);
}

/// What the clock can give is a timestamp that is not before the epoch.
pub proof fn lemma_clock_readings_are_timestamps(nows: Seq<Timestamp>, i: int)
    requires
        clock_readings(nows),
        0 <= i < nows.len(),
    ensures
        valid_instant(nows[i]@.seconds, nows[i]@.nanos),
        nows[i]@.seconds >= 0,
        clock_seconds(nows[i]@.seconds),
{
}

} // verus!
