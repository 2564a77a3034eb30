//! Per-client fixed-window admission control.

use vstd::prelude::*;
use dashmap::DashMap;
use crate::clock::{instant_now, monotonic_millis};
use std::time::Instant;

verus! {

/// The sharded concurrent map that holds the windows.
#[verifier::external_type_specification]
#[verifier::external_body]
#[verifier::reject_recursive_types(K)]
#[verifier::reject_recursive_types(V)]
#[verifier::reject_recursive_types(S)]
pub struct ExDashMap<K, V, S>(DashMap<K, V, S>);

/// Number of stored keys above which a check first sweeps out the windows that ran out.
pub const CLEANUP_THRESHOLD: usize = 10000;

/// Window length used by `ArtemisRateLimiter::new`.
pub const DEFAULT_WINDOW_SECONDS: u64 = 60;

/// Largest window length whose length in milliseconds fits in a `u64`.
pub const MAX_WINDOW_SECONDS: u64 = 18446744073709551;

/// The counting window of one client key; times are milliseconds on the limiter's clock.
#[derive(Clone, Copy, Debug)]
pub struct RateLimitEntry {
    pub count: u32,
    pub reset_at: u64,
}

/// A rejected check: how many whole seconds remain until the client's window resets.
#[derive(Clone, Copy, Debug, PartialEq, Eq, Structural)]
pub struct RateLimitExceeded {
    pub retry_after: u64,
}

/// What the table of windows holds, by client key.
pub uninterp spec fn windows_of(m: DashMap<String, RateLimitEntry>) -> Map<Seq<char>, RateLimitEntry>;

/// A window that starts at `now`.
pub open spec fn fresh_window(now: u64, window_ms: u64) -> RateLimitEntry {
    RateLimitEntry {
        count: 0,
        reset_at: if now + window_ms <= u64::MAX { (now + window_ms) as u64 } else { u64::MAX },
    }
}

/// The window a check at `now` counts against: the stored one, unless it is absent or its
/// reset time has passed.
pub open spec fn current_window(prev: Option<RateLimitEntry>, now: u64, window_ms: u64) -> RateLimitEntry {
    match prev {
        Some(e) => if e.reset_at < now { fresh_window(now, window_ms) } else { e },
        None => fresh_window(now, window_ms),
    }
}

/// One check: the window stored afterwards, and the verdict.
pub open spec fn check_step(prev: Option<RateLimitEntry>, now: u64, limit: u32, window_ms: u64) -> (
    RateLimitEntry,
    Result<(), RateLimitExceeded>,
) {
    let w = current_window(prev, now, window_ms);
    if w.count >= limit {
        (w, Err(RateLimitExceeded { retry_after: ((w.reset_at - now) / 1000) as u64 }))
    } else {
        (RateLimitEntry { count: (w.count + 1) as u32, reset_at: w.reset_at }, Ok(()))
    }
}

/// A table that holds no window.
pub open spec fn no_windows() -> Map<Seq<char>, RateLimitEntry> {
    Map::empty()
}

/// Whether a window still counts at `now`: a check resets it only once its reset time has
/// passed.
pub open spec fn is_live(e: RateLimitEntry, now: u64) -> bool {
    e.reset_at >= now
}

/// The table without the windows whose reset time has passed.
pub open spec fn live_only(m: Map<Seq<char>, RateLimitEntry>, now: u64) -> Map<Seq<char>, RateLimitEntry> {
    Map::new(|k: Seq<char>| m.contains_key(k) && is_live(m[k], now), |k: Seq<char>| m[k])
}

/// The table a check at `now` reads: swept first when it holds more than the threshold.
pub open spec fn swept(m: Map<Seq<char>, RateLimitEntry>, now: u64) -> Map<Seq<char>, RateLimitEntry> {
    if m.len() > CLEANUP_THRESHOLD { live_only(m, now) } else { m }
}

/// Relies on DashMap::new: the table starts empty.
#[verifier::external_body]
fn table_new() -> (r: DashMap<String, RateLimitEntry>)
    ensures
        windows_of(r) == no_windows(),
{
    DashMap::new()
}

/// Relies on DashMap::len: the number of keys in the table.
#[verifier::external_body]
fn table_len(m: &DashMap<String, RateLimitEntry>) -> (r: usize)
    ensures
        r == windows_of(*m).len(),
{
    m.len()
}

/// Relies on DashMap::get: the window stored under `key`, copied out.
#[verifier::external_body]
fn table_get(m: &DashMap<String, RateLimitEntry>, key: &str) -> (r: Option<RateLimitEntry>)
    ensures
        windows_of(*m).contains_key(key@) ==> r == Some(windows_of(*m)[key@]),
        !windows_of(*m).contains_key(key@) ==> r.is_none(),
{
    m.get(key).map(|e| *e)
}

/// Relies on DashMap::insert: `key` maps to `value` afterwards, every other key is kept.
#[verifier::external_body]
fn table_insert(m: &mut DashMap<String, RateLimitEntry>, key: String, value: RateLimitEntry)
    ensures
        windows_of(*final(m)) == windows_of(*old(m)).insert(key@, value),
{
    m.insert(key, value);
}

/// Relies on DashMap::retain: keeps exactly the windows that still count at `now`.
#[verifier::external_body]
fn table_retain_live(m: &mut DashMap<String, RateLimitEntry>, now: u64)
    ensures
        windows_of(*final(m)) == live_only(windows_of(*old(m)), now),
{
    m.retain(|_, e| window_is_live(e, now));
}

/// Whether `e` still counts at `now`.
pub fn window_is_live(e: &RateLimitEntry, now: u64) -> (r: bool)
    ensures
        r == is_live(*e, now),
{
    e.reset_at >= now
}

/// Applies one check to the window stored for a key.
pub fn step_window(prev: Option<RateLimitEntry>, now: u64, limit: u32, window_ms: u64) -> (r: (
    RateLimitEntry,
    Result<(), RateLimitExceeded>,
))
    ensures
        r == check_step(prev, now, limit, window_ms),
{
    let mut w = match prev {
        Some(e) => if e.reset_at < now {
            RateLimitEntry { count: 0, reset_at: now.saturating_add(window_ms) }
        } else {
            e
        },
        None => RateLimitEntry { count: 0, reset_at: now.saturating_add(window_ms) },
    };
    if w.count >= limit {
        let remaining = (w.reset_at - now) / 1000;
        (w, Err(RateLimitExceeded { retry_after: remaining }))
    } else {
        w.count = w.count + 1;
        (w, Ok(()))
    }
}

/// The window left after a run of checks at the given times, starting from `prev`.
pub open spec fn replay(prev: Option<RateLimitEntry>, times: Seq<u64>, limit: u32, window_ms: u64) -> Option<
    RateLimitEntry,
>
    decreases times.len(),
{
    if times.len() == 0 {
        prev
    } else {
        Some(check_step(replay(prev, times.drop_last(), limit, window_ms), times.last(), limit, window_ms).0)
    }
}

/// The verdict on the `i`-th check of a run.
pub open spec fn replay_verdict(
    prev: Option<RateLimitEntry>,
    times: Seq<u64>,
    i: int,
    limit: u32,
    window_ms: u64,
) -> Result<(), RateLimitExceeded> {
    check_step(replay(prev, times.take(i), limit, window_ms), times[i], limit, window_ms).1
}

/// Whether every time of a run falls inside the window that opens at `start`.
pub open spec fn within_window(times: Seq<u64>, start: u64, window_ms: u64) -> bool {
    forall|i: int| 0 <= i < times.len() ==> start <= #[trigger] times[i] <= start + window_ms
}

/// Checks that open a new window at `times[0]` and stay inside it count up one by one.
proof fn lemma_counts_up(prev: Option<RateLimitEntry>, times: Seq<u64>, limit: u32, window_ms: u64)
    requires
        1 <= times.len() <= limit,
        times[0] + window_ms <= u64::MAX,
        current_window(prev, times[0], window_ms) == fresh_window(times[0], window_ms),
        within_window(times, times[0], window_ms),
    ensures
        replay(prev, times, limit, window_ms) == Some(
            RateLimitEntry { count: times.len() as u32, reset_at: (times[0] + window_ms) as u64 },
        ),
    decreases times.len(),
{
    let shorter = times.drop_last();
    if times.len() == 1 {
        assert(shorter.len() == 0);
        assert(replay(prev, shorter, limit, window_ms) == prev);
    } else {
        assert(shorter[0] == times[0]);
        assert(within_window(shorter, times[0], window_ms)) by {
            assert forall|i: int| 0 <= i < shorter.len() implies times[0] <= #[trigger] shorter[i] <= times[0]
                + window_ms by {
                assert(shorter[i] == times[i]);
            }
        }
        lemma_counts_up(prev, shorter, limit, window_ms);
        assert(times[0] <= times[times.len() - 1]);
    }
}

/// A key's window admits exactly `limit` checks: after `limit` checks inside one window,
/// starting from a window that had run out (or none), each of them was admitted, and any
/// further check inside that window is refused with a wait of at most the window length.
pub proof fn lemma_window_fills(
    prev: Option<RateLimitEntry>,
    times: Seq<u64>,
    limit: u32,
    window_ms: u64,
    now: u64,
)
    requires
        limit >= 1,
        times.len() == limit,
        times[0] + window_ms <= u64::MAX,
        current_window(prev, times[0], window_ms) == fresh_window(times[0], window_ms),
        within_window(times, times[0], window_ms),
        times[0] <= now <= times[0] + window_ms,
    ensures
        forall|i: int| 0 <= i < limit ==> #[trigger] replay_verdict(prev, times, i, limit, window_ms) is Ok,
        check_step(replay(prev, times, limit, window_ms), now, limit, window_ms).1 is Err,
        check_step(replay(prev, times, limit, window_ms), now, limit, window_ms).1->Err_0.retry_after
            <= window_ms / 1000,
        check_step(replay(prev, times, limit, window_ms), now, limit, window_ms).0 == replay(
            prev,
            times,
            limit,
            window_ms,
        )->Some_0,
{
    lemma_counts_up(prev, times, limit, window_ms);
    assert forall|i: int| 0 <= i < limit implies #[trigger] replay_verdict(prev, times, i, limit, window_ms) is Ok by {
        if i > 0 {
            let head = times.take(i);
            assert(head[0] == times[0]);
            assert(within_window(head, times[0], window_ms)) by {
                assert forall|j: int| 0 <= j < head.len() implies times[0] <= #[trigger] head[j] <= times[0]
                    + window_ms by {
                    assert(head[j] == times[j]);
                }
            }
            lemma_counts_up(prev, head, limit, window_ms);
            assert(times[0] <= times[i]);
        } else {
            assert(times.take(0).len() == 0);
        }
    }
    let e = replay(prev, times, limit, window_ms)->Some_0;
    assert((e.reset_at - now) / 1000 <= window_ms / 1000) by (nonlinear_arith)
        requires
            e.reset_at - now <= window_ms,
            e.reset_at >= now,
    ;
}

/// Once a key's reset time has passed, its next check opens a new window and is admitted
/// as the first of it.
pub proof fn lemma_window_rolls_over(e: RateLimitEntry, now: u64, limit: u32, window_ms: u64)
    requires
        limit >= 1,
        e.reset_at < now,
    ensures
        check_step(Some(e), now, limit, window_ms).1 is Ok,
        check_step(Some(e), now, limit, window_ms).0.count == 1,
        check_step(Some(e), now, limit, window_ms).0.reset_at == fresh_window(now, window_ms).reset_at,
{
}

/// A refused check leaves the key's window as it found it, so refusals never use up any of
/// the next window: after any number of refusals, the window that follows admits exactly
/// `limit` checks.
pub proof fn lemma_refusals_do_not_count(
    e: RateLimitEntry,
    refused: Seq<u64>,
    times: Seq<u64>,
    limit: u32,
    window_ms: u64,
    now: u64,
)
    requires
        limit >= 1,
        e.count >= limit,
        forall|i: int| 0 <= i < refused.len() ==> #[trigger] refused[i] <= e.reset_at,
        times.len() == limit,
        e.reset_at < times[0],
        times[0] + window_ms <= u64::MAX,
        within_window(times, times[0], window_ms),
        times[0] <= now <= times[0] + window_ms,
    ensures
        replay(Some(e), refused, limit, window_ms) == Some(e),
        forall|i: int| 0 <= i < refused.len() ==> #[trigger] replay_verdict(Some(e), refused, i, limit, window_ms) is Err,
        forall|i: int| 0 <= i < limit ==> #[trigger] replay_verdict(Some(e), times, i, limit, window_ms) is Ok,
        check_step(replay(Some(e), times, limit, window_ms), now, limit, window_ms).1 is Err,
{
    lemma_refusals_keep(e, refused, limit, window_ms);
    assert forall|i: int| 0 <= i < refused.len() implies #[trigger] replay_verdict(Some(e), refused, i, limit, window_ms) is Err by {
        let head = refused.take(i);
        assert forall|j: int| 0 <= j < head.len() implies #[trigger] head[j] <= e.reset_at by {
            assert(head[j] == refused[j]);
        }
        lemma_refusals_keep(e, head, limit, window_ms);
    }
    lemma_window_fills(Some(e), times, limit, window_ms, now);
}

proof fn lemma_refusals_keep(e: RateLimitEntry, refused: Seq<u64>, limit: u32, window_ms: u64)
    requires
        e.count >= limit,
        forall|i: int| 0 <= i < refused.len() ==> #[trigger] refused[i] <= e.reset_at,
    ensures
        replay(Some(e), refused, limit, window_ms) == Some(e),
    decreases refused.len(),
{
    if refused.len() > 0 {
        let shorter = refused.drop_last();
        assert forall|i: int| 0 <= i < shorter.len() implies #[trigger] shorter[i] <= e.reset_at by {
            assert(shorter[i] == refused[i]);
        }
        lemma_refusals_keep(e, shorter, limit, window_ms);
        assert(refused.last() <= e.reset_at);
    }
}

/// Sweeping out windows that ran out never changes a decision: a check reads the same
/// window, and gives the same verdict, whether or not the table was swept first.
pub proof fn lemma_sweep_is_invisible(
    m: Map<Seq<char>, RateLimitEntry>,
    key: Seq<char>,
    now: u64,
    limit: u32,
    window_ms: u64,
)
    ensures
        current_window(swept(m, now).get(key), now, window_ms) == current_window(m.get(key), now, window_ms),
        check_step(swept(m, now).get(key), now, limit, window_ms) == check_step(m.get(key), now, limit, window_ms),
{
}

/// The key a client's requests are counted under: its wallet, else its address, else one
/// shared bucket.
pub open spec fn client_key(ip: Option<Seq<char>>, wallet: Option<Seq<char>>) -> Seq<char> {
    match wallet {
        Some(w) => "wallet:"@ + w,
        None => match ip {
            Some(a) => "ip:"@ + a,
            None => "unknown"@,
        },
    }
}

pub open spec fn opt_view(s: Option<&str>) -> Option<Seq<char>> {
    match s {
        Some(x) => Some(x@),
        None => None,
    }
}

/// Fixed-window request counter keyed by client identity.
pub struct ArtemisRateLimiter {
    requests_per_minute: u32,
    window_seconds: u64,
    store: DashMap<String, RateLimitEntry>,
    origin: Instant,
    latest: u64,
}

impl ArtemisRateLimiter {
    /// The most checks admitted per window.
    pub closed spec fn limit(&self) -> u32 {
        self.requests_per_minute
    }

    /// The window length in milliseconds.
    pub closed spec fn window_ms(&self) -> u64 {
        (self.window_seconds * 1000) as u64
    }

    /// The window length in seconds.
    pub closed spec fn window_secs(&self) -> u64 {
        self.window_seconds
    }

    /// The stored windows, by client key.
    pub closed spec fn windows(&self) -> Map<Seq<char>, RateLimitEntry> {
        windows_of(self.store)
    }

    /// The latest time a check ran at, in milliseconds; checks never run earlier than it.
    pub closed spec fn latest(&self) -> u64 {
        self.latest
    }

    /// The time a check asked for at `now` runs at: never before the latest check.
    pub open spec fn check_time(&self, now: u64) -> u64 {
        if now > self.latest() { now } else { self.latest() }
    }

    /// `next` is this limiter after a check of `key` asked for at `now` that returned `r`.
    pub open spec fn checked_at(
        &self,
        next: Self,
        key: Seq<char>,
        now: u64,
        r: Result<(), RateLimitExceeded>,
    ) -> bool {
        let t = self.check_time(now);
        let table = swept(self.windows(), t);
        let step = check_step(table.get(key), t, self.limit(), self.window_ms());
        &&& r == step.1
        &&& next.windows() == table.insert(key, step.0)
        &&& next.latest() == t
    }

    /// The window length fits in milliseconds, no window has counted past the limit, and no
    /// window resets later than one window length after the latest check.
    pub closed spec fn wf(&self) -> bool {
        &&& self.window_seconds <= MAX_WINDOW_SECONDS
        &&& forall|k: Seq<char>| #[trigger] self.windows().contains_key(k) ==> self.windows()[k].count <= self.limit()
        &&& forall|k: Seq<char>|
            #[trigger] self.windows().contains_key(k) ==> self.windows()[k].reset_at <= self.latest + self.window_ms()
    }

    /// What a valid limiter guarantees: the window length in milliseconds is the length in
    /// seconds times 1000, no stored window has counted more checks than the limit, and none
    /// resets later than one window length after the latest check.
    pub proof fn lemma_invariant(&self)
        requires
            self.wf(),
        ensures
            self.window_ms() == self.window_secs() * 1000,
            forall|k: Seq<char>| #[trigger] self.windows().contains_key(k) ==> self.windows()[k].count <= self.limit(),
            forall|k: Seq<char>|
                #[trigger] self.windows().contains_key(k) ==> self.windows()[k].reset_at <= self.latest()
                    + self.window_ms(),
    {
        assert(self.window_seconds * 1000 <= u64::MAX) by (nonlinear_arith)
            requires
                self.window_seconds <= MAX_WINDOW_SECONDS,
        ;
    }

    /// A limiter with a one-minute window.
    pub fn new(requests_per_minute: u32) -> (r: Self)
        ensures
            r.wf(),
            r.limit() == requests_per_minute,
            r.window_secs() == DEFAULT_WINDOW_SECONDS,
            r.window_ms() == DEFAULT_WINDOW_SECONDS * 1000,
            r.windows() == no_windows(),
            r.latest() == 0,
    {
        Self::with_window(requests_per_minute, DEFAULT_WINDOW_SECONDS)
    }

    /// A limiter with the given limit and window length.
    pub fn with_window(requests_per_window: u32, window_seconds: u64) -> (r: Self)
        requires
            window_seconds <= MAX_WINDOW_SECONDS,
        ensures
            r.wf(),
            r.limit() == requests_per_window,
            r.window_secs() == window_seconds,
            r.window_ms() == window_seconds * 1000,
            r.windows() == no_windows(),
            r.latest() == 0,
    {
        ArtemisRateLimiter {
            requests_per_minute: requests_per_window,
            window_seconds,
            store: table_new(),
            origin: instant_now(),
            latest: 0,
        }
    }

    /// Checks a request from `key` at time `now` (milliseconds on the limiter's clock),
    /// counting it if admitted. A time earlier than the latest check counts as the latest.
    pub fn check_rate_limit_at(&mut self, key: &str, now: u64) -> (r: Result<(), RateLimitExceeded>)
        requires
            old(self).wf(),
        ensures
            final(self).wf(),
            final(self).limit() == old(self).limit(),
            final(self).window_ms() == old(self).window_ms(),
            final(self).window_secs() == old(self).window_secs(),
            old(self).checked_at(*final(self), key@, now, r),
            r matches Err(e) ==> e.retry_after <= old(self).window_secs(),
    {
        proof {
            self.lemma_invariant();
        }
        let now = if now > self.latest { now } else { self.latest };
        self.latest = now;
        if table_len(&self.store) > CLEANUP_THRESHOLD {
            let ghost before = self.windows();
            table_retain_live(&mut self.store, now);
            assert forall|k: Seq<char>| #[trigger] self.windows().contains_key(k) implies self.windows()[k].count
                <= self.requests_per_minute && self.windows()[k].reset_at <= now + self.window_ms() by {
                assert(before == old(self).windows());
                assert(old(self).windows().contains_key(k));
                assert(self.windows()[k] == before[k]);
            }
        }
        let prev = table_get(&self.store, key);
        assert(prev matches Some(e) ==> e.count <= self.requests_per_minute && e.reset_at <= now
            + self.window_ms()) by {
            if prev is Some {
                assert(self.windows().contains_key(key@));
            }
        }
        let window_ms = self.window_seconds * 1000;
        let (entry, verdict) = step_window(prev, now, self.requests_per_minute, window_ms);
        assert(entry.count <= self.requests_per_minute);
        assert(entry.reset_at <= now + window_ms);
        proof {
            if verdict is Err {
                let x = (entry.reset_at - now) as int;
                assert(x <= window_ms);
                assert(x / 1000 <= self.window_seconds) by (nonlinear_arith)
                    requires
                        x <= self.window_seconds * 1000,
                        x >= 0,
                ;
            }
        }
        let ghost before = self.windows();
        table_insert(&mut self.store, key.to_string(), entry);
        assert forall|k: Seq<char>| #[trigger] self.windows().contains_key(k) implies self.windows()[k].count
            <= self.requests_per_minute && self.windows()[k].reset_at <= self.latest + self.window_ms() by {
            if k != key@ {
                assert(before.contains_key(k));
                assert(self.windows()[k] == before[k]);
            }
        }
        verdict
    }

    /// Checks a request from `key` now, counting it if admitted.
    pub fn check_rate_limit(&mut self, key: &str) -> (r: Result<(), RateLimitExceeded>)
        requires
            old(self).wf(),
        ensures
            final(self).wf(),
            final(self).limit() == old(self).limit(),
            final(self).window_ms() == old(self).window_ms(),
            final(self).window_secs() == old(self).window_secs(),
            exists|now: u64| #[trigger] old(self).checked_at(*final(self), key@, now, r),
            r matches Err(e) ==> e.retry_after <= old(self).window_secs(),
    {
        let now = monotonic_millis(&self.origin);
        self.check_rate_limit_at(key, now)
    }

    /// The key that requests from this wallet or address are counted under.
    pub fn get_client_key(ip: Option<&str>, wallet: Option<&str>) -> (r: String)
        ensures
            r@ == client_key(opt_view(ip), opt_view(wallet)),
    {
        match wallet {
            Some(w) => {
                let mut k = String::from_str("wallet:");
                k.append(w);
                k
            },
            None => match ip {
                Some(a) => {
                    let mut k = String::from_str("ip:");
                    k.append(a);
                    k
                },
                None => String::from_str("unknown"),
            },
        }
    }
}

} // verus!
