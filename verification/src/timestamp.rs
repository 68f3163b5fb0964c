//! Wall-clock and monotonic time, and the `"<secs>.<millis>"` timestamp text
//! that jobs carry in `created_at` / `updated_at`.

use vstd::prelude::*;

use crate::text::chars_of;
use crate::decimal::{decimal, digit_char, format_u64, parse_u64_chars, parse_u64_spec, push_decimal, lemma_parse_decimal};

verus! {

/// `std::time::Instant`, carried through opaquely.
#[verifier::external_type_specification]
#[verifier::external_body]
pub struct ExInstant(std::time::Instant);

/// Reads the monotonic clock (`Instant::now`). Nothing is promised of the
/// value: it depends on the time of the call.
#[verifier::external_body]
pub(crate) fn instant_now() -> std::time::Instant {
    std::time::Instant::now()
}

/// `std::time::SystemTime`, carried through opaquely.
#[verifier::external_type_specification]
#[verifier::external_body]
pub struct ExSystemTime(std::time::SystemTime);

/// The time elapsed on the monotonic clock since `origin`
/// (`Instant::elapsed`). It depends on the time of the call, so nothing is
/// promised of it.
#[verifier::external_body]
fn elapsed_since(origin: &std::time::Instant) -> std::time::Duration {
    origin.elapsed()
}

/// The whole nanoseconds of a duration (`Duration::as_nanos`). A duration is
/// opaque here, so no clause ties the count to it.
#[verifier::external_body]
fn duration_nanos(d: &std::time::Duration) -> u128 {
    d.as_nanos()
}

/// Nanoseconds elapsed on the monotonic clock since `origin`, saturating at
/// `u64::MAX` (reached after some 584 years).
pub(crate) fn nanos_since(origin: &std::time::Instant) -> u64 {
    let nanos = duration_nanos(&elapsed_since(origin));
    if nanos > u64::MAX as u128 {
        u64::MAX
    } else {
        nanos as u64
    }
}

/// Reads the system clock (`SystemTime::now`). Nothing is promised of the
/// value: it depends on the time of the call.
#[verifier::external_body]
fn system_time_now() -> std::time::SystemTime {
    std::time::SystemTime::now()
}

/// How long after the Unix epoch `t` lies (`SystemTime::duration_since`),
/// `None` where `t` lies before it (the call's error).
#[verifier::external_body]
fn since_unix_epoch(t: &std::time::SystemTime) -> Option<std::time::Duration> {
    match t.duration_since(std::time::UNIX_EPOCH) {
        Ok(d) => Some(d),
        Err(_) => None,
    }
}

/// The whole seconds of a duration (`Duration::as_secs`). A duration is
/// opaque here, so no clause ties the count to it.
#[verifier::external_body]
fn duration_secs(d: &std::time::Duration) -> u64 {
    d.as_secs()
}

/// The millisecond part of a duration (`Duration::subsec_millis`), which its
/// documentation puts below one thousand.
#[verifier::external_body]
fn duration_subsec_millis(d: &std::time::Duration) -> (r: u32)
    ensures
        r < 1000,
{
    d.subsec_millis()
}

/// Reads the system clock as whole seconds and the millisecond part since
/// the Unix epoch, a clock before the epoch reading as zero.
pub(crate) fn unix_time_now() -> (r: (u64, u32))
    ensures
        r.1 < 1000,
{
    let now = system_time_now();
    match since_unix_epoch(&now) {
        Some(d) => (duration_secs(&d), duration_subsec_millis(&d)),
        None => (0, 0),
    }
}

/// Three-digit, zero-padded text of a millisecond count (`{:03}`).
pub open spec fn millis_text(millis: nat) -> Seq<char>
    recommends
        millis < 1000,
{
    seq![digit_char(millis / 100), digit_char((millis / 10) % 10), digit_char(millis % 10)]
}

/// The timestamp text `"<secs>.<millis:03>"`.
pub open spec fn timestamp_text(secs: nat, millis: nat) -> Seq<char> {
    decimal(secs) + seq!['.'] + millis_text(millis)
}

/// Whether `s` is the text of some timestamp.
pub open spec fn is_timestamp_text(s: Seq<char>) -> bool {
    exists|secs: u64, millis: u32| millis < 1000 && s == #[trigger] timestamp_text(secs as nat, millis as nat)
}

/// The part of `s` before its first `.` (all of `s` when it has none), which
/// is what `s.split('.').next()` yields.
pub open spec fn before_dot(s: Seq<char>) -> Seq<char>
    decreases s.len(),
{
    if s.len() == 0 {
        s
    } else if s[0] == '.' {
        Seq::<char>::empty()
    } else {
        seq![s[0]] + before_dot(s.drop_first())
    }
}

/// The whole-seconds field of a timestamp text, 0 where it does not parse.
pub open spec fn timestamp_seconds_spec(s: Seq<char>) -> u64 {
    match parse_u64_spec(before_dot(s)) {
        Some(v) => v,
        None => 0,
    }
}

/// Renders a timestamp as `format!("{}.{:03}", secs, millis)` does.
pub fn format_timestamp(secs: u64, millis: u32) -> (s: String)
    requires
        millis < 1000,
    ensures
        s@ == timestamp_text(secs as nat, millis as nat),
{
    let mut s = format_u64(secs);
    s.append(".");
    let ghost dot = s@;
    push_decimal(&mut s, (millis / 100) as u64);
    push_decimal(&mut s, ((millis / 10) % 10) as u64);
    push_decimal(&mut s, (millis % 10) as u64);
    proof {
        reveal_strlit(".");
        let m = millis as nat;
        assert(decimal(m / 100) == seq![digit_char(m / 100)]);
        assert(decimal((m / 10) % 10) == seq![digit_char((m / 10) % 10)]);
        assert(decimal(m % 10) == seq![digit_char(m % 10)]);
        assert(s@ =~= timestamp_text(secs as nat, millis as nat));
    }
    s
}

/// The current wall-clock time as timestamp text (`"<secs>.<millis>"`).
pub fn chrono_now() -> (s: String)
    ensures
        is_timestamp_text(s@),
{
    let (secs, millis) = unix_time_now();
    let s = format_timestamp(secs, millis);
    proof {
        assert(s@ == timestamp_text(secs as nat, millis as nat));
    }
    s
}

/// The whole-seconds field of a timestamp text: the part before the first
/// `.` parsed as a `u64`, or 0 when it does not parse.
pub fn timestamp_seconds(s: &str) -> (secs: u64)
    ensures
        secs == timestamp_seconds_spec(s@),
{
    let v = chars_of(s);
    let mut end: usize = 0;
    while end < v.len() && v[end] != '.'
        invariant
            end <= v@.len(),
            forall|j: int| 0 <= j < end ==> v@[j] != '.',
        decreases v@.len() - end,
    {
        end = end + 1;
    }
    proof {
        lemma_before_dot(v@, end as int);
    }
    match parse_u64_chars(&v, 0, end) {
        Some(x) => x,
        None => 0,
    }
}

/// `before_dot` is the prefix up to the first `.`.
proof fn lemma_before_dot(s: Seq<char>, end: int)
    requires
        0 <= end <= s.len(),
        forall|j: int| 0 <= j < end ==> s[j] != '.',
        end == s.len() || s[end] == '.',
    ensures
        before_dot(s) == s.subrange(0, end),
    decreases s.len(),
{
    if s.len() == 0 {
        assert(s.subrange(0, end) =~= s);
    } else if s[0] == '.' {
        assert(s.subrange(0, end) =~= Seq::<char>::empty());
    } else {
        let t = s.drop_first();
        assert forall|j: int| 0 <= j < end - 1 implies t[j] != '.' by {
            assert(t[j] == s[j + 1]);
        }
        if end < s.len() {
            assert(t[end - 1] == s[end]);
        }
        lemma_before_dot(t, end - 1);
        assert(s.subrange(0, end) =~= seq![s[0]] + t.subrange(0, end - 1));
    }
}

/// Reading the seconds back from a rendered timestamp gives the seconds that
/// were rendered.
pub proof fn lemma_timestamp_seconds_roundtrip(secs: u64, millis: u32)
    requires
        millis < 1000,
    ensures
        timestamp_seconds_spec(timestamp_text(secs as nat, millis as nat)) == secs,
{
    let t = timestamp_text(secs as nat, millis as nat);
    let d = decimal(secs as nat);
    crate::decimal::lemma_decimal_digits(secs as nat);
    assert forall|j: int| 0 <= j < d.len() implies t[j] != '.' by {
        assert(t[j] == d[j]);
        assert(crate::decimal::is_digit(d[j]));
    }
    assert(t[d.len() as int] == '.');
    lemma_before_dot(t, d.len() as int);
    assert(t.subrange(0, d.len() as int) =~= d);
    lemma_parse_decimal(secs);
}

} // verus!
