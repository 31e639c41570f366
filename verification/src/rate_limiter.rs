//! A per-client limit on requests within a sliding time window.

use vstd::prelude::*;
use dashmap::DashMap;
use std::time::{Duration, Instant};
use vstd::string::StringExecFns;
use crate::text::{decimal, push_decimal};

verus! {

#[verifier::external_type_specification]
#[verifier::external_body]
#[verifier::reject_recursive_types(K)]
#[verifier::reject_recursive_types(V)]
#[verifier::reject_recursive_types(S)]
pub struct ExDashMap<K, V, S>(DashMap<K, V, S>);

#[verifier::external_type_specification]
#[verifier::external_body]
pub struct ExInstant(Instant);

/// What a request log holds: for each client, the times of its recent
/// requests, in nanoseconds since the limiter was made.
pub uninterp spec fn log_contents(log: DashMap<String, Vec<u128>>) -> Map<Seq<char>, Seq<u128>>;

/// `DashMap::new`: a map that holds nothing.
#[verifier::external_body]
fn new_log() -> (log: DashMap<String, Vec<u128>>)
    ensures
        log_contents(log).dom().len() == 0,
        log_contents(log).dom().finite(),
{
    DashMap::new()
}

/// `DashMap::get`, its entry copied out: the times stored for `key`, if any.
#[verifier::external_body]
fn log_get(log: &DashMap<String, Vec<u128>>, key: &str) -> (r: Option<Vec<u128>>)
    ensures
        r is Some <==> log_contents(*log).contains_key(key@),
        r matches Some(times) ==> times@ == log_contents(*log)[key@],
{
    match log.get(key) {
        Some(entry) => Some(entry.value().clone()),
        None => None,
    }
}

/// `DashMap::insert`: afterwards `key` maps to `times` and every other key
/// to what it mapped to before.
#[verifier::external_body]
fn log_insert(log: &mut DashMap<String, Vec<u128>>, key: String, times: Vec<u128>)
    ensures
        log_contents(*final(log)) == log_contents(*old(log)).insert(key@, times@),
{
    log.insert(key, times);
}

/// `Instant::now`. Nothing is claimed of the instant.
#[verifier::external_body]
fn instant_now() -> Instant {
    Instant::now()
}

/// `Instant::elapsed`: the time since `origin`. Nothing is claimed of it: it
/// depends on the clock.
#[verifier::external_body]
fn elapsed_since(origin: &Instant) -> Duration {
    origin.elapsed()
}

/// `Duration::as_nanos`: the whole nanoseconds of `d`. Nothing is claimed of
/// the value, since nothing is known of `d`.
#[verifier::external_body]
fn duration_nanos(d: &Duration) -> u128 {
    d.as_nanos()
}

/// Nanoseconds in a second.
pub const NANOS_PER_SECOND: u128 = 1_000_000_000;

/// Whether a request made at `t` still counts at `now`: the time from `t` to
/// `now`, zero where `t` is later, is shorter than the window.
pub open spec fn counts_at(t: u128, now: u128, window: u128) -> bool {
    (if now >= t { now - t } else { 0 }) < window
}

/// The times of `times` that still count at `now`, in their order.
pub open spec fn still_counting(times: Seq<u128>, now: u128, window: u128) -> Seq<u128>
    decreases times.len(),
{
    if times.len() == 0 {
        Seq::empty()
    } else if counts_at(times.last(), now, window) {
        still_counting(times.drop_last(), now, window).push(times.last())
    } else {
        still_counting(times.drop_last(), now, window)
    }
}

/// The times stored for `ip` in `log`; none where it has no entry.
pub open spec fn times_of(log: Map<Seq<char>, Seq<u128>>, ip: Seq<char>) -> Seq<u128> {
    if log.contains_key(ip) {
        log[ip]
    } else {
        Seq::empty()
    }
}

/// How many more requests `ip` may make at `now`: the limit less the requests
/// that still count, and never below zero.
pub open spec fn remaining_for(
    log: Map<Seq<char>, Seq<u128>>,
    ip: Seq<char>,
    now: u128,
    max: nat,
    window: u128,
) -> nat {
    let active = still_counting(times_of(log, ip), now, window).len();
    if active <= max {
        (max - active) as nat
    } else {
        0
    }
}

/// Whether a request of `ip` at `now` is let through: fewer than `max` of its
/// requests still count.
pub open spec fn admits(
    log: Map<Seq<char>, Seq<u128>>,
    ip: Seq<char>,
    now: u128,
    max: nat,
    window: u128,
) -> bool {
    still_counting(times_of(log, ip), now, window).len() < max
}

/// The log after a request of `ip` at `now`: the entry of `ip` keeps the
/// times that still count, and gets `now` where the request is let through.
pub open spec fn log_after(
    log: Map<Seq<char>, Seq<u128>>,
    ip: Seq<char>,
    now: u128,
    max: nat,
    window: u128,
) -> Map<Seq<char>, Seq<u128>> {
    let kept = still_counting(times_of(log, ip), now, window);
    if kept.len() < max {
        log.insert(ip, kept.push(now))
    } else {
        log.insert(ip, kept)
    }
}

/// Whether no client in `log` has more than `max` times stored.
pub open spec fn within_limit(log: Map<Seq<char>, Seq<u128>>, max: nat) -> bool {
    forall|ip: Seq<char>| #[trigger] log.contains_key(ip) ==> log[ip].len() <= max
}

proof fn lemma_still_counting_idempotent(times: Seq<u128>, now: u128, window: u128)
    ensures
        still_counting(still_counting(times, now, window), now, window) == still_counting(
            times,
            now,
            window,
        ),
    decreases times.len(),
{
    if times.len() > 0 {
        lemma_still_counting_idempotent(times.drop_last(), now, window);
        let inner = still_counting(times.drop_last(), now, window);
        if counts_at(times.last(), now, window) {
            assert(inner.push(times.last()).drop_last() == inner);
        }
    }
}

proof fn lemma_still_counting_len(times: Seq<u128>, now: u128, window: u128)
    ensures
        still_counting(times, now, window).len() <= times.len(),
    decreases times.len(),
{
    if times.len() > 0 {
        lemma_still_counting_len(times.drop_last(), now, window);
    }
}

/// A request is let through exactly when the client has requests left.
pub proof fn lemma_admits_iff_remaining(
    log: Map<Seq<char>, Seq<u128>>,
    ip: Seq<char>,
    now: u128,
    max: nat,
    window: u128,
)
    ensures
        admits(log, ip, now, max, window) <==> remaining_for(log, ip, now, max, window) > 0,
{
}

/// With a window longer than zero, a request that is let through uses up
/// exactly one of the client's remaining requests at that moment.
pub proof fn lemma_admitted_request_uses_one(
    log: Map<Seq<char>, Seq<u128>>,
    ip: Seq<char>,
    now: u128,
    max: nat,
    window: u128,
)
    requires
        window > 0,
        admits(log, ip, now, max, window),
    ensures
        remaining_for(log_after(log, ip, now, max, window), ip, now, max, window) + 1
            == remaining_for(log, ip, now, max, window),
{
    let kept = still_counting(times_of(log, ip), now, window);
    let after = log_after(log, ip, now, max, window);
    assert(times_of(after, ip) == kept.push(now));
    assert(kept.push(now).drop_last() == kept);
    lemma_still_counting_idempotent(times_of(log, ip), now, window);
}

/// A refused request leaves the client with no remaining requests, and with
/// the same requests that count.
pub proof fn lemma_refused_request_changes_nothing(
    log: Map<Seq<char>, Seq<u128>>,
    ip: Seq<char>,
    now: u128,
    max: nat,
    window: u128,
)
    requires
        !admits(log, ip, now, max, window),
    ensures
        still_counting(times_of(log_after(log, ip, now, max, window), ip), now, window)
            == still_counting(times_of(log, ip), now, window),
        remaining_for(log_after(log, ip, now, max, window), ip, now, max, window) == 0,
{
    lemma_still_counting_idempotent(times_of(log, ip), now, window);
}

/// A request of one client leaves what every other client has stored, and
/// so what it has remaining at any time, as it was.
pub proof fn lemma_clients_are_independent(
    log: Map<Seq<char>, Seq<u128>>,
    ip: Seq<char>,
    other: Seq<char>,
    now: u128,
    later: u128,
    max: nat,
    window: u128,
)
    requires
        ip != other,
    ensures
        times_of(log_after(log, ip, now, max, window), other) == times_of(log, other),
        remaining_for(log_after(log, ip, now, max, window), other, later, max, window)
            == remaining_for(log, other, later, max, window),
{
}

/// Every request that is let through leaves the client with at most the
/// limit of requests that count at that moment.
pub proof fn lemma_admitted_within_limit(
    log: Map<Seq<char>, Seq<u128>>,
    ip: Seq<char>,
    now: u128,
    max: nat,
    window: u128,
)
    requires
        admits(log, ip, now, max, window),
    ensures
        still_counting(times_of(log_after(log, ip, now, max, window), ip), now, window).len()
            <= max,
        times_of(log_after(log, ip, now, max, window), ip).len() <= max,
{
    let kept = still_counting(times_of(log, ip), now, window);
    lemma_still_counting_len(kept.push(now), now, window);
}

/// The answer to a refused request, naming how many requests remain.
pub open spec fn refusal_text(remaining: nat) -> Seq<char> {
    "Demasiadas solicitudes. Has alcanzado el límite. Solicitudes restantes: "@ + decimal(remaining)
        + ". Intenta de nuevo en unos minutos."@
}

/// The answer to a refused request, naming how many requests remain.
pub fn refusal_message(remaining: usize) -> (msg: String)
    ensures
        msg@ == refusal_text(remaining as nat),
{
    let mut msg = "Demasiadas solicitudes. Has alcanzado el límite. Solicitudes restantes: ".to_owned();
    push_decimal(&mut msg, remaining as u64);
    msg.append(". Intenta de nuevo en unos minutos.");
    msg
}

/// `n` copies of `t`.
pub open spec fn repeat(t: u128, n: nat) -> Seq<u128>
    decreases n,
{
    if n == 0 {
        Seq::empty()
    } else {
        repeat(t, (n - 1) as nat).push(t)
    }
}

/// Whether a request of `ip` at `now` that counts as `cost` requests is let
/// through: the requests that still count, and `cost` more, stay within `max`.
pub open spec fn admits_cost(
    log: Map<Seq<char>, Seq<u128>>,
    ip: Seq<char>,
    now: u128,
    cost: nat,
    max: nat,
    window: u128,
) -> bool {
    still_counting(times_of(log, ip), now, window).len() + cost <= max
}

/// The log after a request of `ip` at `now` that counts as `cost` requests:
/// the entry of `ip` keeps the times that still count, and gets `cost`
/// copies of `now` where the request is let through.
pub open spec fn log_after_cost(
    log: Map<Seq<char>, Seq<u128>>,
    ip: Seq<char>,
    now: u128,
    cost: nat,
    max: nat,
    window: u128,
) -> Map<Seq<char>, Seq<u128>> {
    let kept = still_counting(times_of(log, ip), now, window);
    if kept.len() + cost <= max {
        log.insert(ip, kept + repeat(now, cost))
    } else {
        log.insert(ip, kept)
    }
}

/// The log after requests of `ip` at each of the instants `times`, one
/// after another.
pub open spec fn log_after_each(
    log: Map<Seq<char>, Seq<u128>>,
    ip: Seq<char>,
    times: Seq<u128>,
    max: nat,
    window: u128,
) -> Map<Seq<char>, Seq<u128>>
    decreases times.len(),
{
    if times.len() == 0 {
        log
    } else {
        log_after(log_after_each(log, ip, times.drop_last(), max, window), ip, times.last(), max, window)
    }
}

proof fn lemma_still_counting_append_now(s: Seq<u128>, now: u128, n: nat, window: u128)
    requires
        window > 0,
    ensures
        still_counting(s + repeat(now, n), now, window) == still_counting(s, now, window) + repeat(
            now,
            n,
        ),
    decreases n,
{
    if n == 0 {
        assert(s + repeat(now, 0) =~= s);
        assert(still_counting(s, now, window) + repeat(now, 0) =~= still_counting(s, now, window));
    } else {
        lemma_still_counting_append_now(s, now, (n - 1) as nat, window);
        let prev = s + repeat(now, (n - 1) as nat);
        assert(s + repeat(now, n) =~= prev.push(now));
        assert(prev.push(now).drop_last() == prev);
        assert(still_counting(s, now, window) + repeat(now, n) =~= (still_counting(s, now, window)
            + repeat(now, (n - 1) as nat)).push(now));
    }
}

proof fn lemma_repeat_len(t: u128, n: nat)
    ensures
        repeat(t, n).len() == n,
    decreases n,
{
    if n > 0 {
        lemma_repeat_len(t, (n - 1) as nat);
    }
}

proof fn lemma_all_counting(s: Seq<u128>, now: u128, window: u128)
    requires
        forall|i: int| 0 <= i < s.len() ==> counts_at(#[trigger] s[i], now, window),
    ensures
        still_counting(s, now, window) == s,
    decreases s.len(),
{
    if s.len() > 0 {
        assert(counts_at(s[s.len() - 1], now, window));
        lemma_all_counting(s.drop_last(), now, window);
        assert(s.drop_last().push(s.last()) == s);
    }
}

/// A request that counts as one request is an ordinary request.
pub proof fn lemma_cost_one_is_one_request(
    log: Map<Seq<char>, Seq<u128>>,
    ip: Seq<char>,
    now: u128,
    max: nat,
    window: u128,
)
    ensures
        admits_cost(log, ip, now, 1, max, window) == admits(log, ip, now, max, window),
        log_after_cost(log, ip, now, 1, max, window) == log_after(log, ip, now, max, window),
{
    let kept = still_counting(times_of(log, ip), now, window);
    assert(repeat(now, 0) =~= Seq::<u128>::empty());
    assert(repeat(now, 1) =~= seq![now]);
    assert(kept + repeat(now, 1) =~= kept.push(now));
}

/// With a window longer than zero, a request let through that counts as
/// `cost` requests uses up exactly `cost` of the client's remaining requests
/// at that moment.
pub proof fn lemma_admitted_cost_uses_cost(
    log: Map<Seq<char>, Seq<u128>>,
    ip: Seq<char>,
    now: u128,
    cost: nat,
    max: nat,
    window: u128,
)
    requires
        window > 0,
        admits_cost(log, ip, now, cost, max, window),
    ensures
        remaining_for(log_after_cost(log, ip, now, cost, max, window), ip, now, max, window) + cost
            == remaining_for(log, ip, now, max, window),
{
    let kept = still_counting(times_of(log, ip), now, window);
    let after = log_after_cost(log, ip, now, cost, max, window);
    assert(times_of(after, ip) == kept + repeat(now, cost));
    lemma_still_counting_append_now(kept, now, cost, window);
    lemma_still_counting_idempotent(times_of(log, ip), now, window);
    lemma_repeat_len(now, cost);
}

/// Starting from a client with nothing stored, requests at the instants
/// `times`, in order, no more of them than the limit and all within one
/// window, are all let through, and each uses up one request: afterwards the
/// client has the limit less their number left.
pub proof fn lemma_requests_within_one_window(
    log: Map<Seq<char>, Seq<u128>>,
    ip: Seq<char>,
    times: Seq<u128>,
    max: nat,
    window: u128,
)
    requires
        times_of(log, ip).len() == 0,
        times.len() <= max,
        forall|i: int, j: int| 0 <= i <= j < times.len() ==> times[i] <= times[j],
        times.len() > 0 ==> times.last() - times[0] < window,
    ensures
        times_of(log_after_each(log, ip, times, max, window), ip) == times,
        times.len() > 0 ==> remaining_for(
            log_after_each(log, ip, times, max, window),
            ip,
            times.last(),
            max,
            window,
        ) == max - times.len(),
    decreases times.len(),
{
    if times.len() == 0 {
        assert(times_of(log, ip) =~= times);
    } else {
        let rest = times.drop_last();
        let t = times.last();
        lemma_requests_within_one_window(log, ip, rest, max, window);
        let before = log_after_each(log, ip, rest, max, window);
        assert(times_of(before, ip) == rest);
        assert forall|i: int| 0 <= i < rest.len() implies counts_at(#[trigger] rest[i], t, window) by {
            assert(times[0] <= rest[i] <= t);
        }
        lemma_all_counting(rest, t, window);
        assert(rest.push(t) == times);
        assert forall|i: int| 0 <= i < times.len() implies counts_at(#[trigger] times[i], t, window) by {
            assert(times[0] <= times[i] <= t);
        }
        lemma_all_counting(times, t, window);
    }
}

/// Requests made a whole window or more before `now` no longer count: a
/// client all of whose stored requests are that old is let through wherever
/// the limit is above zero, with the whole limit remaining.
pub proof fn lemma_expired_requests_free_the_client(
    log: Map<Seq<char>, Seq<u128>>,
    ip: Seq<char>,
    now: u128,
    max: nat,
    window: u128,
)
    requires
        forall|i: int|
            0 <= i < times_of(log, ip).len() ==> #[trigger] times_of(log, ip)[i] <= now && now
                - times_of(log, ip)[i] >= window,
    ensures
        still_counting(times_of(log, ip), now, window).len() == 0,
        remaining_for(log, ip, now, max, window) == max,
        admits(log, ip, now, max, window) <==> max > 0,
{
    lemma_none_counting(times_of(log, ip), now, window);
}

proof fn lemma_none_counting(s: Seq<u128>, now: u128, window: u128)
    requires
        forall|i: int| 0 <= i < s.len() ==> #[trigger] s[i] <= now && now - s[i] >= window,
    ensures
        still_counting(s, now, window).len() == 0,
    decreases s.len(),
{
    if s.len() > 0 {
        assert(s[s.len() - 1] <= now);
        lemma_none_counting(s.drop_last(), now, window);
    }
}

/// Limits each client, named by a string such as its address, to a number
/// of requests within a time window.
pub struct RateLimiter {
    requests: DashMap<String, Vec<u128>>,
    max_requests: usize,
    window: u128,
    origin: Instant,
    latest: u128,
}

impl RateLimiter {
    /// The requests stored per client.
    pub closed spec fn log(&self) -> Map<Seq<char>, Seq<u128>> {
        log_contents(self.requests)
    }

    /// How many requests a client may make within the window.
    pub closed spec fn max_requests(&self) -> nat {
        self.max_requests as nat
    }

    /// The length of the window, in nanoseconds.
    pub closed spec fn window(&self) -> u128 {
        self.window
    }

    /// The latest reading of the limiter's clock, in nanoseconds since it was
    /// made; readings never go back.
    pub closed spec fn latest_reading(&self) -> u128 {
        self.latest
    }

    /// A limiter that lets each client make `max_requests` requests within
    /// `window_secs` seconds; no request is stored yet.
    pub fn new(max_requests: usize, window_secs: u64) -> (r: RateLimiter)
        ensures
            r.log() == Map::<Seq<char>, Seq<u128>>::empty(),
            r.max_requests() == max_requests,
            r.window() == window_secs * NANOS_PER_SECOND,
            within_limit(r.log(), r.max_requests()),
            r.latest_reading() == 0,
    {
        let window = (window_secs as u128) * NANOS_PER_SECOND;
        RateLimiter { requests: new_log(), max_requests, window, origin: instant_now(), latest: 0 }
    }

    fn kept_times(&self, ip: &str, now: u128) -> (kept: Vec<u128>)
        ensures
            kept@ == still_counting(times_of(self.log(), ip@), now, self.window),
            kept@.len() <= times_of(self.log(), ip@).len(),
    {
        let stored = match log_get(&self.requests, ip) {
            Some(times) => times,
            None => Vec::new(),
        };
        assert(stored@ == times_of(self.log(), ip@));
        let mut kept: Vec<u128> = Vec::new();
        let n = stored.len();
        assert(stored@.take(0) =~= Seq::<u128>::empty());
        for i in 0..n
            invariant
                n == stored@.len(),
                kept@ == still_counting(stored@.take(i as int), now, self.window),
                kept@.len() <= i,
        {
            assert(stored@.take(i + 1).drop_last() == stored@.take(i as int));
            let t = stored[i];
            let elapsed = if now >= t { now - t } else { 0 };
            if elapsed < self.window {
                kept.push(t);
            }
        }
        assert(stored@.take(n as int) == stored@);
        kept
    }

    /// Records a request of `ip` at time `now` (nanoseconds since the limiter
    /// was made) where fewer than the limit of its requests still count, and
    /// says whether it was let through. The times of `ip` that no longer
    /// count are dropped either way.
    pub fn check_at(&mut self, ip: &str, now: u128) -> (allowed: bool)
        ensures
            allowed == admits(old(self).log(), ip@, now, old(self).max_requests(), old(self).window()),
            final(self).log() == log_after(
                old(self).log(),
                ip@,
                now,
                old(self).max_requests(),
                old(self).window(),
            ),
            final(self).max_requests() == old(self).max_requests(),
            final(self).window() == old(self).window(),
            final(self).latest_reading() == old(self).latest_reading(),
            within_limit(old(self).log(), old(self).max_requests()) ==> within_limit(
                final(self).log(),
                final(self).max_requests(),
            ),
    {
        let mut kept = self.kept_times(ip, now);
        if kept.len() >= self.max_requests {
            log_insert(&mut self.requests, ip.to_owned(), kept);
            return false;
        }
        kept.push(now);
        log_insert(&mut self.requests, ip.to_owned(), kept);
        true
    }

    /// How many more requests `ip` may make at time `now` (nanoseconds since
    /// the limiter was made). Nothing is recorded.
    pub fn remaining_at(&self, ip: &str, now: u128) -> (n: usize)
        ensures
            n == remaining_for(self.log(), ip@, now, self.max_requests(), self.window()),
    {
        let kept = self.kept_times(ip, now);
        self.max_requests.saturating_sub(kept.len())
    }

    /// Records a request of `ip` at a fresh reading of the limiter's clock
    /// where fewer than the limit of its requests still count, and says
    /// whether it was let through.
    pub fn check(&mut self, ip: &str) -> (allowed: bool)
        ensures
            final(self).latest_reading() >= old(self).latest_reading(),
            allowed == admits(
                old(self).log(),
                ip@,
                final(self).latest_reading(),
                old(self).max_requests(),
                old(self).window(),
            ),
            final(self).log() == log_after(
                old(self).log(),
                ip@,
                final(self).latest_reading(),
                old(self).max_requests(),
                old(self).window(),
            ),
            exists|now: u128|
                {
                    &&& allowed == admits(
                        old(self).log(),
                        ip@,
                        now,
                        old(self).max_requests(),
                        old(self).window(),
                    )
                    &&& final(self).log() == log_after(
                        old(self).log(),
                        ip@,
                        now,
                        old(self).max_requests(),
                        old(self).window(),
                    )
                },
            final(self).max_requests() == old(self).max_requests(),
            final(self).window() == old(self).window(),
            within_limit(old(self).log(), old(self).max_requests()) ==> within_limit(
                final(self).log(),
                final(self).max_requests(),
            ),
    {
        let now = self.now();
        self.check_at(ip, now)
    }

    /// Reads the limiter's clock, in nanoseconds since it was made, and keeps
    /// the reading as the latest one. A reading is never below the one kept
    /// before (the clock is monotonic; should it ever seem to go back, the
    /// kept reading is returned again). What the clock shows is not claimed.
    pub fn now(&mut self) -> (t: u128)
        ensures
            t >= old(self).latest_reading(),
            final(self).latest_reading() == t,
            final(self).log() == old(self).log(),
            final(self).max_requests() == old(self).max_requests(),
            final(self).window() == old(self).window(),
    {
        let reading = duration_nanos(&elapsed_since(&self.origin));
        if reading > self.latest {
            self.latest = reading;
        }
        self.latest
    }

    /// Records a request of `ip` at time `now` that counts as `cost`
    /// requests, where the requests of `ip` that still count and `cost` more
    /// stay within the limit, and says whether it was let through. Nothing is
    /// recorded for a request that is refused, but the times of `ip` that no
    /// longer count are dropped either way.
    pub fn check_cost_at(&mut self, ip: &str, cost: usize, now: u128) -> (allowed: bool)
        ensures
            allowed == admits_cost(
                old(self).log(),
                ip@,
                now,
                cost as nat,
                old(self).max_requests(),
                old(self).window(),
            ),
            final(self).log() == log_after_cost(
                old(self).log(),
                ip@,
                now,
                cost as nat,
                old(self).max_requests(),
                old(self).window(),
            ),
            final(self).max_requests() == old(self).max_requests(),
            final(self).window() == old(self).window(),
            final(self).latest_reading() == old(self).latest_reading(),
            within_limit(old(self).log(), old(self).max_requests()) ==> within_limit(
                final(self).log(),
                final(self).max_requests(),
            ),
    {
        let mut kept = self.kept_times(ip, now);
        if cost > self.max_requests || kept.len() > self.max_requests - cost {
            log_insert(&mut self.requests, ip.to_owned(), kept);
            return false;
        }
        let ghost base = kept@;
        let mut j: usize = 0;
        while j < cost
            invariant
                j <= cost,
                kept@ == base + repeat(now, j as nat),
            decreases cost - j,
        {
            kept.push(now);
            j = j + 1;
            assert(kept@ =~= base + repeat(now, j as nat));
        }
        proof {
            lemma_repeat_len(now, cost as nat);
        }
        log_insert(&mut self.requests, ip.to_owned(), kept);
        true
    }

    /// Records a request of `ip` at a fresh reading of the limiter's clock
    /// that counts as `cost` requests where they fit within the limit, and
    /// says whether it was let through.
    pub fn check_cost(&mut self, ip: &str, cost: usize) -> (allowed: bool)
        ensures
            final(self).latest_reading() >= old(self).latest_reading(),
            allowed == admits_cost(
                old(self).log(),
                ip@,
                final(self).latest_reading(),
                cost as nat,
                old(self).max_requests(),
                old(self).window(),
            ),
            final(self).log() == log_after_cost(
                old(self).log(),
                ip@,
                final(self).latest_reading(),
                cost as nat,
                old(self).max_requests(),
                old(self).window(),
            ),
            exists|now: u128|
                {
                    &&& allowed == admits_cost(
                        old(self).log(),
                        ip@,
                        now,
                        cost as nat,
                        old(self).max_requests(),
                        old(self).window(),
                    )
                    &&& final(self).log() == log_after_cost(
                        old(self).log(),
                        ip@,
                        now,
                        cost as nat,
                        old(self).max_requests(),
                        old(self).window(),
                    )
                },
            final(self).max_requests() == old(self).max_requests(),
            final(self).window() == old(self).window(),
            within_limit(old(self).log(), old(self).max_requests()) ==> within_limit(
                final(self).log(),
                final(self).max_requests(),
            ),
    {
        let now = self.now();
        self.check_cost_at(ip, cost, now)
    }

    /// How many more requests `ip` may make now: at a reading of the clock
    /// no earlier than the latest one kept.
    pub fn remaining(&self, ip: &str) -> (n: usize)
        ensures
            exists|now: u128|
                now >= self.latest_reading() && n == remaining_for(
                    self.log(),
                    ip@,
                    now,
                    self.max_requests(),
                    self.window(),
                ),
    {
        let reading = duration_nanos(&elapsed_since(&self.origin));
        let now = if reading > self.latest {
            reading
        } else {
            self.latest
        };
        self.remaining_at(ip, now)
    }
}

} // verus!
