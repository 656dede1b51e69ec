//! Instants of `lastTransitionTime` and their human-readable age.
use vstd::prelude::*;

use crate::text::{decimal, push_decimal};

verus! {

/// What `chrono::DateTime::parse_from_rfc3339` makes of a text, read as the
/// UTC instant `(timestamp(), timestamp_subsec_nanos())`; `None` when it
/// refuses the text.
pub uninterp spec fn rfc3339_instant(text: Seq<char>) -> Option<(i64, u32)>;

/// Whether `chrono::DateTime::<Utc>::from_timestamp` accepts these seconds
/// and nanoseconds since the Unix epoch.
pub uninterp spec fn utc_instant_exists(secs: i64, nanos: u32) -> bool;

/// `later.signed_duration_since(earlier).num_seconds()` for the two UTC
/// instants that chrono builds from these epoch seconds and nanoseconds.
pub uninterp spec fn elapsed_whole_seconds(
    later_secs: i64,
    later_nanos: u32,
    earlier_secs: i64,
    earlier_nanos: u32,
) -> i64;

/// Calls `chrono::DateTime::parse_from_rfc3339` and reads the UTC instant of
/// the result.  Claimed: the result is the named `rfc3339_instant` of the
/// text, and a parsed instant is one that `DateTime::<Utc>::from_timestamp`
/// accepts (the parser builds a valid date and time of a four-digit year, and
/// a leap second only at second 59 of a minute, with a whole-minute offset).
#[verifier::external_body]
fn chrono_parse_rfc3339(text: &str) -> (r: Option<(i64, u32)>)
    ensures
        r == rfc3339_instant(text@),
        r matches Some(t) ==> utc_instant_exists(t.0, t.1),
{
    match chrono::DateTime::parse_from_rfc3339(text) {
        Ok(dt) => Some((dt.timestamp(), dt.timestamp_subsec_nanos())),
        Err(_) => None,
    }
}

/// Calls `chrono::DateTime::<Utc>::from_timestamp` and says whether it gave an
/// instant.  Claimed: the answer is the named `utc_instant_exists`.
#[verifier::external_body]
fn chrono_instant_exists(secs: i64, nanos: u32) -> (r: bool)
    ensures
        r == utc_instant_exists(secs, nanos),
{
    chrono::DateTime::<chrono::Utc>::from_timestamp(secs, nanos).is_some()
}

/// Calls `chrono::DateTime::signed_duration_since` on the two instants and
/// `TimeDelta::num_seconds` on the difference.  Claimed: the result is the
/// named `elapsed_whole_seconds`; the `requires` rules out instants that
/// `from_timestamp` refuses, on which the conversion would panic.
#[verifier::external_body]
fn chrono_elapsed_seconds(later_secs: i64, later_nanos: u32, earlier_secs: i64, earlier_nanos: u32) -> (r: i64)
    requires
        utc_instant_exists(later_secs, later_nanos),
        utc_instant_exists(earlier_secs, earlier_nanos),
    ensures
        r == elapsed_whole_seconds(later_secs, later_nanos, earlier_secs, earlier_nanos),
{
    let later = chrono::DateTime::<chrono::Utc>::from_timestamp(later_secs, later_nanos).unwrap();
    let earlier = chrono::DateTime::<chrono::Utc>::from_timestamp(earlier_secs, earlier_nanos).unwrap();
    later.signed_duration_since(earlier).num_seconds()
}

/// A UTC instant: whole seconds since the Unix epoch and the nanoseconds
/// within the second (at or above one billion during a leap second).
/// Ordering `(secs, nanos)` lexicographically is chrono's order of instants.
#[derive(Clone, Copy, Debug, PartialEq, Eq)]
pub struct Timestamp {
    secs: i64,
    nanos: u32,
}

impl View for Timestamp {
    type V = (i64, u32);

    closed spec fn view(&self) -> (i64, u32) {
        (self.secs, self.nanos)
    }
}

impl Timestamp {
    #[verifier::type_invariant]
    spec fn representable(self) -> bool {
        utc_instant_exists(self.secs, self.nanos)
    }

    /// The instant at `secs` seconds and `nanos` nanoseconds after the Unix
    /// epoch, when chrono can represent it.
    pub fn from_unix(secs: i64, nanos: u32) -> (r: Option<Timestamp>)
        ensures
            r is Some <==> utc_instant_exists(secs, nanos),
            r matches Some(t) ==> t@ == (secs, nanos),
    {
        if chrono_instant_exists(secs, nanos) {
            Some(Timestamp { secs, nanos })
        } else {
            None
        }
    }

    /// Seconds since the Unix epoch.
    pub fn unix_seconds(&self) -> (r: i64)
        ensures
            r == self@.0,
    {
        self.secs
    }

    /// Nanoseconds within the second.
    pub fn subsec_nanos(&self) -> (r: u32)
        ensures
            r == self@.1,
    {
        self.nanos
    }
}

/// `a` is a later instant than `b`.
pub open spec fn later_than(a: Timestamp, b: Timestamp) -> bool {
    a@.0 > b@.0 || (a@.0 == b@.0 && a@.1 > b@.1)
}

/// Whole seconds from `earlier` to `later`, truncated toward zero, as chrono
/// computes them.
pub fn elapsed_seconds(later: &Timestamp, earlier: &Timestamp) -> (r: i64)
    ensures
        r == elapsed_whole_seconds(later@.0, later@.1, earlier@.0, earlier@.1),
{
    proof {
        use_type_invariant(later);
        use_type_invariant(earlier);
    }
    chrono_elapsed_seconds(later.secs, later.nanos, earlier.secs, earlier.nanos)
}

/// The instant of an RFC 3339 timestamp such as `2026-04-02T14:47:00Z`, or
/// `None` when chrono does not parse it.
pub fn parse_last_transition_time(s: &str) -> (r: Option<Timestamp>)
    ensures
        r is Some <==> rfc3339_instant(s@) is Some,
        r matches Some(t) ==> t@ == rfc3339_instant(s@).unwrap(),
{
    match chrono_parse_rfc3339(s) {
        Some((secs, nanos)) => Some(Timestamp { secs, nanos }),
        None => None,
    }
}

/// The magnitude of a signed number of seconds.
pub open spec fn magnitude(secs: int) -> nat {
    if secs < 0 {
        (-secs) as nat
    } else {
        secs as nat
    }
}

/// A duration in its largest fitting unit: seconds below a minute, minutes
/// below an hour, hours below two days, days beyond; the sign is dropped.
pub open spec fn duration_text(secs: int) -> Seq<char> {
    let s = magnitude(secs);
    if s < 60 {
        decimal(s) + seq!['s']
    } else if s / 60 < 60 {
        decimal(s / 60) + seq!['m']
    } else if s / 3600 < 48 {
        decimal(s / 3600) + seq!['h']
    } else {
        decimal(s / 86400) + seq!['d']
    }
}

/// `13m ago` for a past instant, `in 13m` for a future one.
pub open spec fn age_text(secs: int) -> Seq<char> {
    if secs < 0 {
        seq!['i', 'n', ' '] + duration_text(secs)
    } else {
        duration_text(secs) + seq![' ', 'a', 'g', 'o']
    }
}

/// A duration reads as a decimal count and a unit: the seconds below a
/// minute, whole minutes below an hour, whole hours below two days, and
/// whole days from then on; the sign does not matter.
pub proof fn lemma_duration_units(secs: int)
    ensures
        ({
            let s: int = if secs < 0 {
                -secs
            } else {
                secs
            };
            &&& s < 60 ==> duration_text(secs) == decimal(s as nat) + seq!['s']
            &&& 60 <= s < 3600 ==> duration_text(secs) == decimal((s / 60) as nat) + seq!['m']
            &&& 3600 <= s < 172800 ==> duration_text(secs) == decimal((s / 3600) as nat) + seq!['h']
            &&& 172800 <= s ==> duration_text(secs) == decimal((s / 86400) as nat) + seq!['d']
        }),
        duration_text(secs) == duration_text(-secs),
{
}

/// A past or present instant reads `<duration> ago`; the instant as far in
/// the future reads `in <duration>`.
pub proof fn lemma_age_text_past_and_future(secs: int)
    requires
        secs > 0,
    ensures
        age_text(secs) == duration_text(secs) + seq![' ', 'a', 'g', 'o'],
        age_text(0) == duration_text(0) + seq![' ', 'a', 'g', 'o'],
        age_text(-secs) == seq!['i', 'n', ' '] + age_text(secs).take(age_text(secs).len() - 4),
{
    assert(age_text(secs).take(age_text(secs).len() - 4) =~= duration_text(secs));
    lemma_duration_units(secs);
}

/// Formats a signed number of seconds in its largest fitting unit, without
/// the sign: `30s`, `2m`, `2h`, `2d`.
pub fn format_duration(secs: i64) -> (r: String)
    ensures
        r@ == duration_text(secs as int),
{
    let s: u64 = if secs < 0 {
        ((-(secs + 1)) as u64) + 1
    } else {
        secs as u64
    };
    let mut out = String::new();
    proof {
        reveal_strlit("s");
        reveal_strlit("m");
        reveal_strlit("h");
        reveal_strlit("d");
        assert(s as nat == magnitude(secs as int));
        assert(s / 60 / 60 == s / 3600);
        assert(s / 60 / 60 / 24 == s / 86400);
    }
    if s < 60 {
        push_decimal(&mut out, s);
        out.append("s");
        return out;
    }
    let mins = s / 60;
    if mins < 60 {
        push_decimal(&mut out, mins);
        out.append("m");
        return out;
    }
    let hours = mins / 60;
    if hours < 48 {
        push_decimal(&mut out, hours);
        out.append("h");
        return out;
    }
    let days = hours / 24;
    push_decimal(&mut out, days);
    out.append("d");
    out
}

/// The age of an instant that lies `secs` whole seconds in the past (a
/// negative count: in the future).  Since the count is truncated toward zero,
/// its negation has the same magnitude, which is what is shown.
pub fn describe_age(secs: i64) -> (r: String)
    ensures
        r@ == age_text(secs as int),
{
    proof {
        reveal_strlit("in ");
        reveal_strlit(" ago");
    }
    if secs < 0 {
        let mut out = String::from_str("in ");
        let d = format_duration(secs);
        out.append(d.as_str());
        out
    } else {
        let mut out = format_duration(secs);
        out.append(" ago");
        out
    }
}

/// What `relative_time_at` shows for `raw` at `now`.
pub open spec fn relative_text(raw: Seq<char>, now: Timestamp) -> Seq<char> {
    match rfc3339_instant(raw) {
        None => raw,
        Some(t) => age_text(elapsed_whole_seconds(now@.0, now@.1, t.0, t.1) as int),
    }
}

/// The age of an RFC 3339 `raw` instant relative to `now`, such as `13m ago`;
/// a text that does not parse is returned as it is.
pub fn relative_time_at(raw: &str, now: Timestamp) -> (r: String)
    ensures
        r@ == relative_text(raw@, now),
{
    match parse_last_transition_time(raw) {
        None => String::from_str(raw),
        Some(t) => describe_age(elapsed_seconds(&now, &t)),
    }
}

} // verus!
