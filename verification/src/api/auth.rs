//! Request admission: the global sliding-window rate limiter and the API-key
//! check that the HTTP middleware applies to every protected request.

use vstd::prelude::*;

use crate::api::errors::ApiError;
use crate::text::{chars_of, same_chars};
use crate::timestamp::{instant_now, nanos_since};

verus! {

/// Length of the rate-limit window: one minute, in nanoseconds.
pub const WINDOW_NANOS: u64 = 60_000_000_000;

/// Nanoseconds in a second.
pub const NANOS_PER_SECOND: u64 = 1_000_000_000;

/// Whether an admission at time `t` still counts against the limit at `now`
/// (it is less than one minute old).
pub open spec fn in_window(t: u64, now: u64) -> bool {
    t + WINDOW_NANOS > now
}

/// The admissions of `window` that still count at `now`, in their order.
pub open spec fn recent(window: Seq<u64>, now: u64) -> Seq<u64>
    decreases window.len(),
{
    if window.len() == 0 {
        window
    } else {
        let rest = recent(window.drop_last(), now);
        if in_window(window.last(), now) {
            rest.push(window.last())
        } else {
            rest
        }
    }
}

/// Seconds a refused client is told to wait: one minute less the whole
/// seconds since the oldest counted admission (`now` itself when none is
/// counted), and at least one.
pub open spec fn retry_after(kept: Seq<u64>, now: u64) -> u64 {
    let oldest = if kept.len() > 0 {
        kept[0]
    } else {
        now
    };
    let elapsed: int = if now >= oldest {
        (now - oldest) / (NANOS_PER_SECOND as int)
    } else {
        0
    };
    let remaining: int = if elapsed >= 60 {
        0
    } else {
        60 - elapsed
    };
    if remaining < 1 {
        1
    } else {
        remaining as u64
    }
}

/// A check at `now` against the admissions `window` with limit `max`: the
/// admissions kept afterwards, and the answer (`Ok` admits the request,
/// `Err(s)` refuses it and asks for a retry after `s` seconds).
pub open spec fn check_outcome(window: Seq<u64>, max: nat, now: u64) -> (Seq<u64>, Result<(), u64>) {
    let kept = recent(window, now);
    if kept.len() >= max {
        (kept, Err(retry_after(kept, now)))
    } else {
        (kept.push(now), Ok(()))
    }
}

/// Whether the times in `s` never decrease.
pub open spec fn nondecreasing(s: Seq<u64>) -> bool {
    forall|i: int, j: int| 0 <= i <= j < s.len() ==> s[i] <= s[j]
}

/// Whether no time in `s` is later than `now`.
pub open spec fn none_after(s: Seq<u64>, now: u64) -> bool {
    forall|i: int| 0 <= i < s.len() ==> s[i] <= now
}

/// The abstract state of a rate limiter: the admission times it remembers
/// (nanoseconds on its monotonic clock) and its per-minute limit.
pub struct RateLimiterView {
    /// The admissions still remembered, oldest first.
    pub window: Seq<u64>,
    /// The limit.
    pub max_per_minute: nat,
    /// The latest clock reading a check was decided at (0 before any).
    pub latest: u64,
    /// Every admission so far, oldest first.
    pub admitted: Seq<u64>,
}

/// The part of a limiter that checks change.
struct Admissions {
    window: Vec<u64>,
    latest: u64,
    admitted: Ghost<Seq<u64>>,
}

/// Global rate limit state (not per client).
pub struct RateLimiter {
    origin: std::time::Instant,
    max_per_minute: usize,
    state: Admissions,
}

impl View for RateLimiter {
    type V = RateLimiterView;

    closed spec fn view(&self) -> RateLimiterView {
        RateLimiterView {
            window: self.state.window@,
            max_per_minute: self.max_per_minute as nat,
            latest: self.state.latest,
            admitted: self.state.admitted@,
        }
    }
}

/// Whether `admitted` never had more than `max` admissions in any one-minute
/// span.
pub open spec fn never_over(admitted: Seq<u64>, max: nat) -> bool {
    forall|t: u64| #[trigger] count_in_minute(admitted, t) <= max
}

/// The facts that every limiter keeps: its admissions are in order and not
/// after its latest reading, it remembers exactly those of them that still
/// count at that reading, never more than the limit, and no minute ever saw
/// more admissions than the limit.
pub open spec fn limiter_facts(v: RateLimiterView) -> bool {
    &&& v.window.len() <= v.max_per_minute
    &&& nondecreasing(v.admitted)
    &&& none_after(v.admitted, v.latest)
    &&& v.window == recent(v.admitted, v.latest)
    &&& never_over(v.admitted, v.max_per_minute)
}

proof fn lemma_recent(window: Seq<u64>, now: u64)
    ensures
        recent(window, now).len() <= window.len(),
        forall|j: int|
            0 <= j < recent(window, now).len() ==> in_window(#[trigger] recent(window, now)[j], now),
        forall|j: int|
            0 <= j < recent(window, now).len() ==> window.contains(#[trigger] recent(window, now)[j]),
    decreases window.len(),
{
    if window.len() > 0 {
        let w = window.drop_last();
        lemma_recent(w, now);
        let r = recent(window, now);
        assert forall|j: int| 0 <= j < r.len() implies window.contains(#[trigger] r[j]) by {
            if j < recent(w, now).len() {
                assert(r[j] == recent(w, now)[j]);
                let k = choose|k: int| 0 <= k < w.len() && w[k] == r[j];
                assert(window[k] == w[k]);
            } else {
                assert(window[window.len() - 1] == r[j]);
            }
        }
    }
}

proof fn lemma_recent_sorted(window: Seq<u64>, now: u64)
    requires
        nondecreasing(window),
    ensures
        nondecreasing(recent(window, now)),
    decreases window.len(),
{
    if window.len() > 0 {
        let w = window.drop_last();
        assert(nondecreasing(w));
        lemma_recent_sorted(w, now);
        lemma_recent(w, now);
        let rw = recent(w, now);
        assert forall|j: int| 0 <= j < rw.len() implies #[trigger] rw[j] <= window.last() by {
            let k = choose|k: int| 0 <= k < w.len() && w[k] == rw[j];
            assert(window[k] == w[k]);
        }
    }
}

proof fn lemma_recent_drops(window: Seq<u64>, now: u64, i: int)
    requires
        0 <= i < window.len(),
        !in_window(window[i], now),
    ensures
        recent(window, now).len() < window.len(),
    decreases window.len(),
{
    let w = window.drop_last();
    lemma_recent(w, now);
    if i < window.len() - 1 {
        assert(w[i] == window[i]);
        lemma_recent_drops(w, now, i);
    }
}

proof fn lemma_retry_after_bounds(kept: Seq<u64>, now: u64)
    ensures
        1 <= retry_after(kept, now) <= 60,
{
}

/// A refusal's retry hint is between one and sixty seconds.
pub proof fn lemma_check_retry_bounds(window: Seq<u64>, max: nat, now: u64)
    ensures
        check_outcome(window, max, now).1 matches Err(s) ==> 1 <= s <= 60,
{
    lemma_retry_after_bounds(recent(window, now), now);
}

/// Under a clock that never runs backwards the remembered admissions stay in
/// order and none of them lies in the future.
pub proof fn lemma_check_keeps_order(window: Seq<u64>, max: nat, now: u64)
    requires
        nondecreasing(window),
        none_after(window, now),
    ensures
        nondecreasing(check_outcome(window, max, now).0),
        none_after(check_outcome(window, max, now).0, now),
{
    lemma_recent_sorted(window, now);
    lemma_recent(window, now);
    let kept = recent(window, now);
    assert forall|j: int| 0 <= j < kept.len() implies #[trigger] kept[j] <= now by {
        let k = choose|k: int| 0 <= k < window.len() && window[k] == kept[j];
    }
    if kept.len() < max {
        let pushed = kept.push(now);
        assert forall|i: int, j: int| 0 <= i <= j < pushed.len() implies pushed[i] <= pushed[j] by {
            if j < kept.len() {
                assert(pushed[i] == kept[i] && pushed[j] == kept[j]);
            } else if i < kept.len() {
                assert(pushed[i] == kept[i]);
            }
        }
    }
}

/// Waiting the advertised retry time is enough: when a limiter with a
/// positive limit refuses a request at `now`, a request at any time at least
/// `retry_after` seconds later is admitted (the clock being monotonic, so the
/// remembered admissions are in order and not in the future).
pub proof fn lemma_retry_after_admits(window: Seq<u64>, max: nat, now: u64, later: u64)
    requires
        window.len() <= max,
        max > 0,
        nondecreasing(window),
        none_after(window, now),
        check_outcome(window, max, now).1 is Err,
        later >= now + check_outcome(window, max, now).1->Err_0 * NANOS_PER_SECOND,
    ensures
        check_outcome(check_outcome(window, max, now).0, max, later).1 is Ok,
{
    let kept = recent(window, now);
    lemma_recent(window, now);
    lemma_recent_sorted(window, now);
    assert(kept.len() == max);
    let oldest = kept[0];
    assert(in_window(kept[0], now));
    let k = choose|k: int| 0 <= k < window.len() && window[k] == kept[0];
    assert(oldest <= now);
    let gap: int = now - oldest;
    let elapsed: int = gap / (NANOS_PER_SECOND as int);
    assert(gap < WINDOW_NANOS);
    assert(elapsed * NANOS_PER_SECOND <= gap) by (nonlinear_arith)
        requires
            elapsed == gap / (NANOS_PER_SECOND as int),
            gap >= 0,
    ;
    assert(elapsed < 60) by (nonlinear_arith)
        requires
            elapsed == gap / (NANOS_PER_SECOND as int),
            0 <= gap < WINDOW_NANOS,
    ;
    assert(retry_after(kept, now) == 60 - elapsed);
    assert(later >= now + (60 - elapsed) * NANOS_PER_SECOND);
    assert(!in_window(kept[0], later));
    lemma_recent_drops(kept, later, 0);
}

/// The limiter state and the admitted request times after checking requests
/// at `times`, in order, starting from a limiter that has admitted nothing.
pub open spec fn replay(max: nat, times: Seq<u64>) -> (Seq<u64>, Seq<u64>)
    decreases times.len(),
{
    if times.len() == 0 {
        (Seq::<u64>::empty(), Seq::<u64>::empty())
    } else {
        let (window, admitted) = replay(max, times.drop_last());
        let (next, answer) = check_outcome(window, max, times.last());
        (next, if answer is Ok {
            admitted.push(times.last())
        } else {
            admitted
        })
    }
}

/// How many of the times in `s` fall in the minute that ends at `t`
/// (no later than `t`, less than a minute before it).
pub open spec fn count_in_minute(s: Seq<u64>, t: u64) -> nat
    decreases s.len(),
{
    if s.len() == 0 {
        0
    } else {
        count_in_minute(s.drop_last(), t) + if s.last() <= t && in_window(s.last(), t) {
            1nat
        } else {
            0nat
        }
    }
}

proof fn lemma_recent_push(s: Seq<u64>, x: u64, now: u64)
    ensures
        recent(s.push(x), now) == (if in_window(x, now) {
            recent(s, now).push(x)
        } else {
            recent(s, now)
        }),
{
    assert(s.push(x).drop_last() =~= s);
}

/// Forgetting at an earlier time, then at a later one, is forgetting at the
/// later one.
proof fn lemma_recent_twice(s: Seq<u64>, t1: u64, t2: u64)
    requires
        t1 <= t2,
    ensures
        recent(recent(s, t1), t2) == recent(s, t2),
    decreases s.len(),
{
    if s.len() > 0 {
        let rest = s.drop_last();
        lemma_recent_twice(rest, t1, t2);
        if in_window(s.last(), t1) {
            lemma_recent_push(recent(rest, t1), s.last(), t2);
        }
    }
}

/// The times counted in the minute ending at `t` still count at any earlier
/// check time `t2`.
proof fn lemma_count_below_recent(s: Seq<u64>, t: u64, t2: u64)
    requires
        t2 <= t,
    ensures
        count_in_minute(s, t) <= recent(s, t2).len(),
    decreases s.len(),
{
    if s.len() > 0 {
        lemma_count_below_recent(s.drop_last(), t, t2);
    }
}

/// Replaying checks at nondecreasing times leaves exactly the admissions of
/// the last minute (as of the last check) in the limiter, never more than
/// the limit.
proof fn lemma_replay_window(max: nat, times: Seq<u64>)
    requires
        nondecreasing(times),
    ensures
        replay(max, times).0.len() <= max,
        times.len() == 0 ==> replay(max, times).0 == Seq::<u64>::empty() && replay(max, times).1 == Seq::<u64>::empty(),
        times.len() > 0 ==> replay(max, times).0 == recent(replay(max, times).1, times.last()),
    decreases times.len(),
{
    if times.len() > 0 {
        let prev = times.drop_last();
        assert(nondecreasing(prev));
        lemma_replay_window(max, prev);
        let (w, a) = replay(max, prev);
        let x = times.last();
        lemma_recent(w, x);
        if prev.len() > 0 {
            assert(prev.last() == times[times.len() - 2]);
            lemma_recent_twice(a, prev.last(), x);
        }
        lemma_recent_push(a, x, x);
    }
}

/// The rate limit holds over any run of checks at nondecreasing times: in
/// every one-minute span, at most `max` requests are admitted.
pub proof fn lemma_at_most_max_per_minute(max: nat, times: Seq<u64>, t: u64)
    requires
        nondecreasing(times),
    ensures
        count_in_minute(replay(max, times).1, t) <= max,
    decreases times.len(),
{
    if times.len() > 0 {
        let prev = times.drop_last();
        let x = times.last();
        assert(nondecreasing(prev));
        lemma_replay_window(max, times);
        let a = replay(max, times).1;
        if x <= t {
            lemma_count_below_recent(a, t, x);
        } else {
            lemma_at_most_max_per_minute(max, prev, t);
            let a0 = replay(max, prev).1;
            if a != a0 {
                assert(a.drop_last() =~= a0);
            }
        }
    }
}

/// The admissions remembered after checks at `times`, in order, starting
/// from `window`.
pub open spec fn window_after(window: Seq<u64>, max: nat, times: Seq<u64>) -> Seq<u64>
    decreases times.len(),
{
    if times.len() == 0 {
        window
    } else {
        check_outcome(window_after(window, max, times.drop_last()), max, times.last()).0
    }
}

/// Whether every check at `times`, in order, starting from `window`, is
/// refused.
pub open spec fn all_refused(window: Seq<u64>, max: nat, times: Seq<u64>) -> bool
    decreases times.len(),
{
    times.len() == 0 || (all_refused(window, max, times.drop_last()) && check_outcome(
        window_after(window, max, times.drop_last()),
        max,
        times.last(),
    ).1 is Err)
}

/// Two remembered windows that keep the same admissions at `now` answer a
/// check at `now` alike.
proof fn lemma_same_recent_same_outcome(w1: Seq<u64>, w2: Seq<u64>, max: nat, now: u64)
    requires
        recent(w1, now) == recent(w2, now),
    ensures
        check_outcome(w1, max, now) == check_outcome(w2, max, now),
{
}

/// A refused request consumes no quota: after a refusal at `t1`, a check at
/// any later `t2` is answered (and leaves the limiter) exactly as if the
/// refused request had never been made.
pub proof fn lemma_refusal_consumes_nothing(window: Seq<u64>, max: nat, t1: u64, t2: u64)
    requires
        t1 <= t2,
        check_outcome(window, max, t1).1 is Err,
    ensures
        check_outcome(check_outcome(window, max, t1).0, max, t2) == check_outcome(window, max, t2),
{
    lemma_recent_twice(window, t1, t2);
    lemma_same_recent_same_outcome(check_outcome(window, max, t1).0, window, max, t2);
}

/// After a run of refusals at nondecreasing times, the limiter remembers
/// what it remembered before, less what has aged out.
proof fn lemma_refusals_only_forget(window: Seq<u64>, max: nat, times: Seq<u64>)
    requires
        nondecreasing(times),
        all_refused(window, max, times),
        times.len() > 0,
    ensures
        window_after(window, max, times) == recent(window, times.last()),
    decreases times.len(),
{
    let prev = times.drop_last();
    if prev.len() > 0 {
        assert(nondecreasing(prev));
        lemma_refusals_only_forget(window, max, prev);
        assert(prev.last() == times[times.len() - 2]);
        lemma_recent_twice(window, prev.last(), times.last());
    }
}

/// Waiting the advised time is enough, whatever was refused meanwhile: when
/// a limiter with a positive limit refuses a request at `now` and asks for a
/// retry after `s` seconds, and every request checked after it (at
/// nondecreasing times `refused`, from `now` on) is refused too, then a
/// request at any time at least `s` seconds after `now` is admitted.
pub proof fn lemma_retry_after_admits_despite_refusals(
    window: Seq<u64>,
    max: nat,
    now: u64,
    refused: Seq<u64>,
    later: u64,
)
    requires
        window.len() <= max,
        max > 0,
        nondecreasing(window),
        none_after(window, now),
        check_outcome(window, max, now).1 is Err,
        nondecreasing(refused),
        refused.len() > 0 ==> now <= refused[0] && refused.last() <= later,
        all_refused(check_outcome(window, max, now).0, max, refused),
        later >= now + check_outcome(window, max, now).1->Err_0 * NANOS_PER_SECOND,
    ensures
        check_outcome(window_after(check_outcome(window, max, now).0, max, refused), max, later).1 is Ok,
{
    let w = check_outcome(window, max, now).0;
    lemma_retry_after_admits(window, max, now, later);
    if refused.len() > 0 {
        lemma_refusals_only_forget(w, max, refused);
        lemma_recent_twice(w, refused.last(), later);
        lemma_same_recent_same_outcome(recent(w, refused.last()), w, max, later);
    }
}

/// A window all of whose admissions still count is kept whole.
proof fn lemma_recent_all(s: Seq<u64>, now: u64)
    requires
        forall|i: int| 0 <= i < s.len() ==> in_window(#[trigger] s[i], now),
    ensures
        recent(s, now) == s,
    decreases s.len(),
{
    if s.len() > 0 {
        let rest = s.drop_last();
        assert forall|i: int| 0 <= i < rest.len() implies in_window(#[trigger] rest[i], now) by {
            assert(rest[i] == s[i]);
        }
        lemma_recent_all(rest, now);
        assert(in_window(s[s.len() - 1], now));
        assert(rest.push(s.last()) =~= s);
    }
}

/// A fresh limiter with limit `max` admits every one of up to `max`
/// requests made (at nondecreasing times) within one minute of the first.
pub proof fn lemma_fresh_limiter_admits_up_to_max(max: nat, times: Seq<u64>)
    requires
        nondecreasing(times),
        times.len() <= max,
        times.len() > 0 ==> times.last() < times[0] + WINDOW_NANOS,
    ensures
        replay(max, times).1 == times,
    decreases times.len(),
{
    if times.len() > 0 {
        let prev = times.drop_last();
        let x = times.last();
        assert(nondecreasing(prev));
        if prev.len() > 0 {
            assert(prev[0] == times[0]);
            assert(prev.last() == times[times.len() - 2]);
        }
        lemma_fresh_limiter_admits_up_to_max(max, prev);
        lemma_replay_window(max, prev);
        let w = replay(max, prev).0;
        if prev.len() > 0 {
            lemma_recent_twice(prev, prev.last(), x);
        }
        assert forall|i: int| 0 <= i < prev.len() implies in_window(#[trigger] prev[i], x) by {
            assert(prev[i] == times[i]);
            assert(times[0] <= times[i]);
        }
        lemma_recent_all(prev, x);
        assert(recent(w, x) == prev);
        assert(prev.push(x) =~= times);
    }
}

/// A fresh limiter with limit `max` that admitted `max` requests refuses
/// any further request made within one minute of the first.
pub proof fn lemma_fresh_limiter_refuses_beyond_max(max: nat, times: Seq<u64>, t: u64)
    requires
        nondecreasing(times),
        times.len() == max,
        times.len() > 0 ==> times.last() <= t && t < times[0] + WINDOW_NANOS,
    ensures
        check_outcome(replay(max, times).0, max, t).1 is Err,
{
    lemma_replay_window(max, times);
    if times.len() > 0 {
        lemma_fresh_limiter_admits_up_to_max(max, times);
        lemma_recent_twice(times, times.last(), t);
        assert forall|i: int| 0 <= i < times.len() implies in_window(#[trigger] times[i], t) by {
            assert(times[0] <= times[i]);
        }
        lemma_recent_all(times, t);
    }
}

/// The admissions of `window` still counted at `now`.
fn recent_times(window: &Vec<u64>, now: u64) -> (kept: Vec<u64>)
    ensures
        kept@ == recent(window@, now),
{
    let mut kept: Vec<u64> = Vec::new();
    let n = window.len();
    for i in 0..n
        invariant
            n == window@.len(),
            kept@ == recent(window@.take(i as int), now),
    {
        let t = window[i];
        proof {
            assert(window@.take(i + 1).drop_last() =~= window@.take(i as int));
            assert(window@.take(i + 1).last() == t);
        }
        if now < WINDOW_NANOS || t > now - WINDOW_NANOS {
            kept.push(t);
        }
    }
    proof {
        assert(window@.take(n as int) =~= window@);
    }
    kept
}

impl RateLimiter {
    #[verifier::type_invariant]
    spec fn keeps_facts(self) -> bool {
        limiter_facts(self@)
    }

    /// A limiter admitting at most `max_per_minute` requests in any minute,
    /// with no admission yet.
    pub fn new(max_per_minute: usize) -> (r: Self)
        ensures
            r@.window == Seq::<u64>::empty(),
            r@.admitted == Seq::<u64>::empty(),
            r@.latest == 0,
            r@.max_per_minute == max_per_minute,
            limiter_facts(r@),
    {
        let r = RateLimiter {
            origin: instant_now(),
            max_per_minute,
            state: Admissions { window: Vec::new(), latest: 0, admitted: Ghost(Seq::empty()) },
        };
        proof {
            assert forall|t: u64| #[trigger] count_in_minute(Seq::<u64>::empty(), t) <= max_per_minute by {}
        }
        r
    }

    /// Decides a request arriving at `now` (nanoseconds on this limiter's
    /// clock, never earlier than the latest reading): forgets admissions a
    /// minute old or older, then admits and records the request if fewer
    /// than the limit remain, or refuses it with the seconds to wait before
    /// retrying. A refusal records nothing.
    pub fn check_at(&mut self, now: u64) -> (r: Result<(), u64>)
        requires
            now >= old(self)@.latest,
        ensures
            (final(self)@.window, r) == check_outcome(old(self)@.window, old(self)@.max_per_minute, now),
            final(self)@.max_per_minute == old(self)@.max_per_minute,
            final(self)@.latest == now,
            final(self)@.admitted == (if r is Ok {
                old(self)@.admitted.push(now)
            } else {
                old(self)@.admitted
            }),
            limiter_facts(final(self)@),
            r matches Err(s) ==> 1 <= s <= 60,
    {
        proof {
            use_type_invariant(&*self);
        }
        let ghost old_view = self@;
        let ghost a = self.state.admitted@;
        proof {
            lemma_recent(self.state.window@, now);
            lemma_retry_after_bounds(recent(self.state.window@, now), now);
            lemma_recent_twice(a, self.state.latest, now);
            lemma_recent_sorted(a, now);
            lemma_recent(a, now);
        }
        let mut kept = recent_times(&self.state.window, now);
        if kept.len() >= self.max_per_minute {
            let oldest = if kept.len() > 0 {
                kept[0]
            } else {
                now
            };
            let elapsed = if now >= oldest {
                (now - oldest) / NANOS_PER_SECOND
            } else {
                0
            };
            let remaining = if elapsed >= 60 {
                0
            } else {
                60 - elapsed
            };
            let retry = if remaining < 1 {
                1
            } else {
                remaining
            };
            self.state = Admissions { window: kept, latest: now, admitted: Ghost(a) };
            return Err(retry);
        }
        kept.push(now);
        let ghost grown = a.push(now);
        proof {
            lemma_recent_push(a, now, now);
            assert forall|i: int, j: int| 0 <= i <= j < grown.len() implies grown[i] <= grown[j] by {
                if j < a.len() {
                    assert(grown[i] == a[i] && grown[j] == a[j]);
                } else if i < a.len() {
                    assert(grown[i] == a[i]);
                }
            }
            assert forall|t: u64| #[trigger] count_in_minute(grown, t) <= old_view.max_per_minute by {
                assert(grown.drop_last() =~= a);
                if now <= t {
                    lemma_count_below_recent(grown, t, now);
                } else {
                    assert(count_in_minute(a, t) <= old_view.max_per_minute);
                }
            }
        }
        self.state = Admissions { window: kept, latest: now, admitted: Ghost(grown) };
        Ok(())
    }

    /// Checks if a request should be allowed now. Returns `Ok(())` or the
    /// number of seconds to wait before retrying. The request is decided at
    /// the monotonic clock's reading, which is not known in advance; the
    /// clock never runs backwards, and the later of the reading and the
    /// latest reading seen (the reading itself) is used, so the answer is the
    /// one `check_at` gives at a time no earlier than any before.
    pub fn check(&mut self) -> (r: Result<(), u64>)
        ensures
            final(self)@.latest >= old(self)@.latest,
            (final(self)@.window, r) == check_outcome(
                old(self)@.window,
                old(self)@.max_per_minute,
                final(self)@.latest,
            ),
            final(self)@.max_per_minute == old(self)@.max_per_minute,
            final(self)@.admitted == (if r is Ok {
                old(self)@.admitted.push(final(self)@.latest)
            } else {
                old(self)@.admitted
            }),
            limiter_facts(final(self)@),
            r matches Err(s) ==> 1 <= s <= 60,
    {
        let reading = nanos_since(&self.origin);
        let now = if reading < self.state.latest {
            self.state.latest
        } else {
            reading
        };
        self.check_at(now)
    }
}

/// The error message for a missing or wrong API key.
pub open spec fn unauthorized_message() -> Seq<char> {
    "Missing or invalid API key. Provide via Authorization: Bearer <key> or X-API-Key: <key> header."@
}

/// The token of an `Authorization` header value: what follows a leading
/// `"Bearer "`, if the value starts with it.
pub open spec fn bearer_token(value: Seq<char>) -> Option<Seq<char>> {
    if value.len() >= 7 && value.take(7) == seq!['B', 'e', 'a', 'r', 'e', 'r', ' '] {
        Some(value.skip(7))
    } else {
        None
    }
}

/// Whether a request presents `key`: as the bearer token of its
/// `Authorization` header, or in its `X-API-Key` header.
pub open spec fn presents_key(authorization: Option<Seq<char>>, x_api_key: Option<Seq<char>>, key: Seq<char>) -> bool {
    (authorization matches Some(v) && bearer_token(v) == Some(key)) || x_api_key == Some(key)
}

/// The view of an optional string.
pub open spec fn opt_text(o: Option<&str>) -> Option<Seq<char>> {
    match o {
        Some(s) => Some(s@),
        None => None,
    }
}

/// The characters of the bearer token of an `Authorization` header value,
/// if it has one.
fn bearer_token_chars(value: &str) -> (r: Option<Vec<char>>)
    ensures
        match r {
            Some(t) => bearer_token(value@) == Some(t@),
            None => bearer_token(value@) is None,
        },
{
    let v = chars_of(value);
    if v.len() >= 7 && v[0] == 'B' && v[1] == 'e' && v[2] == 'a' && v[3] == 'r' && v[4] == 'e' && v[5] == 'r'
        && v[6] == ' ' {
        let mut token: Vec<char> = Vec::new();
        let n = v.len();
        for i in 7..n
            invariant
                n == v@.len(),
                7 <= n,
                token@ == v@.subrange(7, i as int),
        {
            token.push(v[i]);
            proof {
                assert(v@.subrange(7, i + 1) =~= v@.subrange(7, i as int).push(v@[i as int]));
            }
        }
        proof {
            assert(v@.take(7) =~= seq!['B', 'e', 'a', 'r', 'e', 'r', ' ']);
            assert(token@ =~= v@.skip(7));
        }
        return Some(token);
    }
    proof {
        if v@.len() >= 7 && v@.take(7) == seq!['B', 'e', 'a', 'r', 'e', 'r', ' '] {
            assert(v@[0] == v@.take(7)[0]);
            assert(v@[1] == v@.take(7)[1]);
            assert(v@[2] == v@.take(7)[2]);
            assert(v@[3] == v@.take(7)[3]);
            assert(v@[4] == v@.take(7)[4]);
            assert(v@[5] == v@.take(7)[5]);
            assert(v@[6] == v@.take(7)[6]);
        }
    }
    None
}

/// Whether a request presents `expected` (see `presents_key`).
fn presents_key_exec(authorization: Option<&str>, x_api_key: Option<&str>, expected: &str) -> (r: bool)
    ensures
        r == presents_key(opt_text(authorization), opt_text(x_api_key), expected@),
{
    let wanted = chars_of(expected);
    if let Some(value) = authorization {
        if let Some(token) = bearer_token_chars(value) {
            if same_chars(&token, &wanted) {
                return true;
            }
        }
    }
    match x_api_key {
        Some(k) => {
            let given = chars_of(k);
            same_chars(&given, &wanted)
        },
        None => false,
    }
}

/// The admission decision for a request, as the API middleware takes it:
/// a refusal from the rate limiter (when one answered) comes first; then,
/// when an API key is configured, the request is refused unless it presents
/// that key, as a bearer token in `Authorization` or in `X-API-Key`.
/// Header values are passed as text where they are valid visible ASCII.
pub fn admission(
    rate: Option<Result<(), u64>>,
    expected_key: Option<&str>,
    authorization: Option<&str>,
    x_api_key: Option<&str>,
) -> (r: Result<(), ApiError>)
    ensures
        rate matches Some(Err(s)) ==> r == Err::<(), ApiError>(
            ApiError::RateLimited { retry_after_seconds: s },
        ),
        !(rate matches Some(Err(_))) ==> match expected_key {
            None => r is Ok,
            Some(k) => if presents_key(opt_text(authorization), opt_text(x_api_key), k@) {
                r is Ok
            } else {
                r matches Err(ApiError::Unauthorized(m)) && m@ == unauthorized_message()
            },
        },
{
    if let Some(Err(s)) = rate {
        return Err(ApiError::RateLimited { retry_after_seconds: s });
    }
    if let Some(expected) = expected_key {
        if presents_key_exec(authorization, x_api_key, expected) {
            return Ok(());
        }
        return Err(ApiError::Unauthorized(
            String::from_str(
                "Missing or invalid API key. Provide via Authorization: Bearer <key> or X-API-Key: <key> header.",
            ),
        ));
    }
    Ok(())
}

} // verus!
