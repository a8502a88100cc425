//! Per-principal sliding-window rate limiting.
use std::collections::HashMap;
use vstd::prelude::*;
use vstd::std_specs::iter::IteratorSpec;
use crate::clock::now_millis;

verus! {

broadcast use vstd::std_specs::hash::group_hash_axioms;

/// Width of the window used by [`RateLimiter::check_rate_limit`], in milliseconds.
pub const DEFAULT_WINDOW_MS: i64 = 60_000;

/// A check was refused: the principal already used its whole allowance in the window.
#[derive(Debug, Clone, PartialEq, Eq)]
pub struct RateLimitExceeded;

/// A timestamp still counts at `now` when it is not older than `now - window`.
pub open spec fn in_window(t: i64, now: i64, window: i64) -> bool {
    t as int >= now as int - window as int
}

pub open spec fn in_window_pred(now: i64, window: i64) -> spec_fn(i64) -> bool {
    |t: i64| in_window(t, now, window)
}

/// The timestamps of `ts` that still count at `now`, in their order.
pub open spec fn trimmed(ts: Seq<i64>, now: i64, window: i64) -> Seq<i64> {
    ts.filter(in_window_pred(now, window))
}

/// The stored timestamps of a principal; a principal never seen has none.
pub open spec fn window_of(m: Map<u128, Seq<i64>>, id: u128) -> Seq<i64> {
    if m.contains_key(id) {
        m[id]
    } else {
        Seq::empty()
    }
}

/// Whether a check at `now` is admitted, given the principal's stored timestamps.
pub open spec fn admits(ts: Seq<i64>, limit: i32, now: i64, window: i64) -> bool {
    trimmed(ts, now, window).len() < limit as int
}

/// The principal's timestamps after a check at `now`: trimmed, and with `now`
/// appended when the check was admitted.
pub open spec fn window_after(ts: Seq<i64>, limit: i32, now: i64, window: i64) -> Seq<i64> {
    if admits(ts, limit, now, window) {
        trimmed(ts, now, window).push(now)
    } else {
        trimmed(ts, now, window)
    }
}

/// The whole state after a check: only the checked principal changes, and it is
/// dropped when no timestamp of it is left.
pub open spec fn state_after(
    m: Map<u128, Seq<i64>>,
    id: u128,
    limit: i32,
    now: i64,
    window: i64,
) -> Map<u128, Seq<i64>> {
    let next = window_after(window_of(m, id), limit, now, window);
    if next.len() == 0 {
        m.remove(id)
    } else {
        m.insert(id, next)
    }
}

/// Every principal's timestamps trimmed at `now`, without the principals left with none.
pub open spec fn swept(m: Map<u128, Seq<i64>>, now: i64, window: i64) -> Map<u128, Seq<i64>> {
    Map::new(
        |k: u128| m.contains_key(k) && trimmed(m[k], now, window).len() > 0,
        |k: u128| trimmed(m[k], now, window),
    )
}

/// The state midway through a sweep: the principals in `done` are trimmed, and
/// dropped when left with no timestamp; the others are as they were.
pub open spec fn partly_swept(
    m: Map<u128, Seq<i64>>,
    done: Seq<u128>,
    now: i64,
    window: i64,
) -> Map<u128, Seq<i64>> {
    Map::new(
        |k: u128| m.contains_key(k) && (!done.contains(k) || trimmed(m[k], now, window).len() > 0),
        |k: u128| if done.contains(k) { trimmed(m[k], now, window) } else { m[k] },
    )
}

/// No principal is kept with an empty window, so memory grows only with the
/// principals that have timestamps stored.
pub open spec fn no_empty_windows(m: Map<u128, Seq<i64>>) -> bool {
    forall|k: u128| m.contains_key(k) ==> #[trigger] m[k].len() > 0
}

/// In-memory sliding-window limiter keyed by principal id.
pub struct RateLimiter {
    requests: HashMap<u128, Vec<i64>>,
}

impl View for RateLimiter {
    type V = Map<u128, Seq<i64>>;

    closed spec fn view(&self) -> Map<u128, Seq<i64>> {
        self.requests@.map_values(|v: Vec<i64>| v@)
    }
}

/// The timestamps of `ts` that still count at `now`.
fn trim(ts: &Vec<i64>, now: i64, window: i64) -> (r: Vec<i64>)
    ensures
        r@ == trimmed(ts@, now, window),
{
    let mut kept: Vec<i64> = Vec::new();
    let start: i128 = now as i128 - window as i128;
    for i in 0..ts.len()
        invariant
            start == now as int - window as int,
            kept@ == trimmed(ts@.subrange(0, i as int), now, window),
    {
        proof {
            reveal(Seq::filter);
            assert(ts@.subrange(0, i + 1).drop_last() =~= ts@.subrange(0, i as int));
        }
        if ts[i] as i128 >= start {
            kept.push(ts[i]);
        }
    }
    assert(ts@.subrange(0, ts.len() as int) =~= ts@);
    kept
}

impl RateLimiter {
    pub fn new() -> (r: RateLimiter)
        ensures
            r@ == Map::<u128, Seq<i64>>::empty(),
            no_empty_windows(r@),
    {
        let r = RateLimiter { requests: HashMap::new() };
        assert(r@ =~= Map::<u128, Seq<i64>>::empty());
        r
    }

    /// Trims the principal's timestamps to the window ending at `now_ms`; refuses
    /// when `limit` of them remain, and otherwise records `now_ms` and admits.
    pub fn check_rate_limit_at(&mut self, api_key_id: u128, limit: i32, window_ms: i64, now_ms: i64) -> (r: Result<(), RateLimitExceeded>)
        ensures
            r is Ok <==> admits(window_of(old(self)@, api_key_id), limit, now_ms, window_ms),
            final(self)@ == state_after(old(self)@, api_key_id, limit, now_ms, window_ms),
            no_empty_windows(old(self)@) ==> no_empty_windows(final(self)@),
    {
        let ghost before = self@;
        let stamps: Vec<i64> = match self.requests.remove(&api_key_id) {
            Some(v) => v,
            None => Vec::new(),
        };
        assert(stamps@ == window_of(before, api_key_id));
        let mut kept = trim(&stamps, now_ms, window_ms);
        let admitted = (kept.len() as i128) < limit as i128;
        if admitted {
            kept.push(now_ms);
        }
        if kept.len() > 0 {
            self.requests.insert(api_key_id, kept);
        }
        assert(self@ =~= state_after(before, api_key_id, limit, now_ms, window_ms));
        if admitted {
            Ok(())
        } else {
            Err(RateLimitExceeded)
        }
    }

    /// Trims every principal's timestamps to the window ending at `now_ms` and
    /// forgets the principals left with none, so that memory stays bounded by the
    /// principals seen within the window.
    pub fn evict_idle(&mut self, now_ms: i64, window_ms: i64)
        ensures
            final(self)@ == swept(old(self)@, now_ms, window_ms),
            no_empty_windows(final(self)@),
    {
        let ghost before = self@;
        let mut ids: Vec<u128> = Vec::new();
        let ghost all = vstd::std_specs::hash::spec_keys_iter(&self.requests).remaining().unref();
        for k in it: self.requests.keys()
            invariant
                ids@ == it.seq().take(it.index() as int).unref(),
                it.seq().unref().to_set() == before.dom(),
                it.seq().unref().no_duplicates(),
                all == it.seq().unref(),
        {
            ids.push(*k);
            proof {
                assert(ids@ =~= it.seq().take(it.index() + 1).unref());
            }
        }
        assert(ids@ =~= all);
        assert(ids@.to_set() =~= before.dom());
        assert(ids@.no_duplicates());
        for j in 0..ids.len()
            invariant
                ids@.to_set() == before.dom(),
                ids@.no_duplicates(),
                self@ == partly_swept(before, ids@.take(j as int), now_ms, window_ms),
        {
            let id = ids[j];
            let ghost done = ids@.take(j as int);
            proof {
                assert(!done.contains(id)) by {
                    if done.contains(id) {
                        let w = choose|w: int| 0 <= w < done.len() && done[w] == id;
                        assert(ids@[w] == ids@[j as int]);
                    }
                }
                assert(ids@.to_set().contains(id));
                assert(before.contains_key(id));
                assert(self@.contains_key(id));
                assert(self@[id] == before[id]);
            }
            let ghost mid = self@;
            let stamps: Vec<i64> = match self.requests.remove(&id) {
                Some(v) => v,
                None => Vec::new(),
            };
            assert(stamps@ == before[id]);
            assert(self@ =~= mid.remove(id));
            let kept = trim(&stamps, now_ms, window_ms);
            let ghost kept_view = kept@;
            if kept.len() > 0 {
                self.requests.insert(id, kept);
                assert(self@ =~= mid.remove(id).insert(id, kept_view));
            }
            proof {
                assert(ids@.take(j + 1) =~= done.push(id));
                let target = partly_swept(before, done.push(id), now_ms, window_ms);
                assert forall|k: u128| #[trigger] done.push(id).contains(k) == (done.contains(k) || k == id) by {
                    if done.push(id).contains(k) && k != id {
                        let w = choose|w: int| 0 <= w < done.len() + 1 && done.push(id)[w] == k;
                        assert(done[w] == k);
                    }
                    if done.contains(k) {
                        let w = choose|w: int| 0 <= w < done.len() && done[w] == k;
                        assert(done.push(id)[w] == k);
                    }
                    if k == id {
                        assert(done.push(id)[done.len() as int] == k);
                    }
                }
                assert(self@.dom() =~= target.dom());
                assert(self@ =~= target);
            }
        }
        assert(ids@.take(ids.len() as int) =~= ids@);
        assert(self@ =~= swept(before, now_ms, window_ms)) by {
            assert forall|k: u128| ids@.contains(k) == before.contains_key(k) by {
                assert(ids@.to_set().contains(k) == ids@.contains(k));
            }
        }
    }

    /// Number of principals that have timestamps stored.
    pub fn principal_count(&self) -> (r: usize)
        ensures
            r == self@.dom().len(),
    {
        assert(self@.dom() =~= self.requests@.dom());
        self.requests.len()
    }

    /// The check at the current time over a window of `window_ms`. Whatever the
    /// clock reads, the state moves as one check at that reading would move it.
    pub fn check_rate_limit_within(&mut self, api_key_id: u128, limit: i32, window_ms: i64) -> (r: Result<(), RateLimitExceeded>)
        ensures
            exists|now: i64|
                {
                    &&& (r is Ok <==> admits(window_of(old(self)@, api_key_id), limit, now, window_ms))
                    &&& final(self)@ == #[trigger] state_after(
                        old(self)@,
                        api_key_id,
                        limit,
                        now,
                        window_ms,
                    )
                },
            no_empty_windows(old(self)@) ==> no_empty_windows(final(self)@),
    {
        let now = now_millis();
        self.check_rate_limit_at(api_key_id, limit, window_ms, now)
    }

    /// The check at the current time over a one-minute window.
    pub fn check_rate_limit(&mut self, api_key_id: u128, limit: i32) -> (r: Result<(), RateLimitExceeded>)
        ensures
            exists|now: i64|
                {
                    &&& (r is Ok <==> admits(
                        window_of(old(self)@, api_key_id),
                        limit,
                        now,
                        DEFAULT_WINDOW_MS,
                    ))
                    &&& final(self)@ == #[trigger] state_after(
                        old(self)@,
                        api_key_id,
                        limit,
                        now,
                        DEFAULT_WINDOW_MS,
                    )
                },
            no_empty_windows(old(self)@) ==> no_empty_windows(final(self)@),
    {
        self.check_rate_limit_within(api_key_id, limit, DEFAULT_WINDOW_MS)
    }
}

/// The state after checks of one principal at each of `times`, in order.
pub open spec fn state_after_all(
    m: Map<u128, Seq<i64>>,
    id: u128,
    limit: i32,
    window: i64,
    times: Seq<i64>,
) -> Map<u128, Seq<i64>>
    decreases times.len(),
{
    if times.len() == 0 {
        m
    } else {
        state_after(
            state_after_all(m, id, limit, window, times.drop_last()),
            id,
            limit,
            times.last(),
            window,
        )
    }
}

/// Whether the `k`-th of the checks at `times` is admitted.
pub open spec fn admitted_at(
    m: Map<u128, Seq<i64>>,
    id: u128,
    limit: i32,
    window: i64,
    times: Seq<i64>,
    k: int,
) -> bool {
    admits(
        window_of(state_after_all(m, id, limit, window, times.take(k)), id),
        limit,
        times[k],
        window,
    )
}

proof fn lemma_filter_keeps_all(s: Seq<i64>, pred: spec_fn(i64) -> bool)
    requires
        forall|i: int| 0 <= i < s.len() ==> pred(#[trigger] s[i]),
    ensures
        s.filter(pred) == s,
    decreases s.len(),
{
    reveal(Seq::filter);
    if s.len() > 0 {
        lemma_filter_keeps_all(s.drop_last(), pred);
        assert(s.drop_last().push(s.last()) =~= s);
    }
}

proof fn lemma_filter_keeps_none(s: Seq<i64>, pred: spec_fn(i64) -> bool)
    requires
        forall|i: int| 0 <= i < s.len() ==> !pred(#[trigger] s[i]),
    ensures
        s.filter(pred) == Seq::<i64>::empty(),
    decreases s.len(),
{
    reveal(Seq::filter);
    if s.len() > 0 {
        lemma_filter_keeps_none(s.drop_last(), pred);
    }
}

/// What a run of checks at nondecreasing times, all within one window of the
/// first, leaves stored for the principal: the first `limit` of the times.
proof fn lemma_window_during_burst(
    m: Map<u128, Seq<i64>>,
    id: u128,
    limit: i32,
    window: i64,
    times: Seq<i64>,
)
    requires
        window_of(m, id).len() == 0,
        limit >= 1,
        forall|i: int, j: int| 0 <= i <= j < times.len() ==> times[i] <= times[j],
        times.len() > 0 ==> times.last() as int - times[0] as int <= window as int,
    ensures
        window_of(state_after_all(m, id, limit, window, times), id) == times.take(
            if times.len() < limit as int { times.len() as int } else { limit as int },
        ),
        forall|k: int|
            0 <= k < times.len() ==> (admitted_at(m, id, limit, window, times, k) <==> k
                < limit as int),
    decreases times.len(),
{
    if times.len() > 0 {
        let n = times.len() as int;
        let prefix = times.drop_last();
        assert forall|i: int, j: int| 0 <= i <= j < prefix.len() implies prefix[i] <= prefix[j] by {
            assert(prefix[i] == times[i] && prefix[j] == times[j]);
        }
        if prefix.len() > 0 {
            assert(prefix.last() == times[n - 2]);
            assert(prefix[0] == times[0]);
        }
        lemma_window_during_burst(m, id, limit, window, prefix);
        let before = state_after_all(m, id, limit, window, prefix);
        let ts = window_of(before, id);
        let kept_len = if prefix.len() < limit as int { prefix.len() as int } else { limit as int };
        assert(ts == prefix.take(kept_len));
        let now = times.last();
        assert forall|i: int| 0 <= i < ts.len() implies in_window_pred(now, window)(
            #[trigger] ts[i],
        ) by {
            assert(ts[i] == times[i]);
            assert(times[0] <= times[i]);
        }
        lemma_filter_keeps_all(ts, in_window_pred(now, window));
        assert(trimmed(ts, now, window) == ts);
        if prefix.len() < limit as int {
            assert(ts.push(now) =~= times.take(n));
        } else {
            assert(ts =~= times.take(limit as int));
        }
        assert forall|k: int| 0 <= k < n implies (admitted_at(m, id, limit, window, times, k)
            <==> k < limit as int) by {
            if k < n - 1 {
                assert(times.take(k) =~= prefix.take(k));
                assert(admitted_at(m, id, limit, window, prefix, k) <==> k < limit as int);
            } else {
                assert(times.take(k) =~= prefix);
            }
        }
    }
}

/// With `limit` at least one, checks of a fresh principal at nondecreasing
/// times that all fall within one window of the first are admitted exactly for
/// the first `limit` of them and refused afterwards; and a check made once a full
/// window has passed since the last of them is admitted again.
pub proof fn lemma_fills_then_refuses_then_recovers(
    m: Map<u128, Seq<i64>>,
    id: u128,
    limit: i32,
    window: i64,
    times: Seq<i64>,
    later: i64,
)
    requires
        window_of(m, id).len() == 0,
        limit >= 1,
        forall|i: int, j: int| 0 <= i <= j < times.len() ==> times[i] <= times[j],
        times.len() > 0 ==> times.last() as int - times[0] as int <= window as int,
        times.len() > 0 ==> (times.last() as int) < later as int - window as int,
    ensures
        forall|k: int|
            0 <= k < times.len() ==> (admitted_at(m, id, limit, window, times, k) <==> k
                < limit as int),
        admits(window_of(state_after_all(m, id, limit, window, times), id), limit, later, window),
{
    lemma_window_during_burst(m, id, limit, window, times);
    let ts = window_of(state_after_all(m, id, limit, window, times), id);
    assert forall|i: int| 0 <= i < ts.len() implies !in_window_pred(later, window)(
        #[trigger] ts[i],
    ) by {
        assert(ts[i] == times[i]);
        assert(times[i] <= times.last());
    }
    lemma_filter_keeps_none(ts, in_window_pred(later, window));
}

/// Timestamps older than `now - window` never count toward the limit: adding one
/// anywhere among a principal's timestamps changes neither the verdict of a check
/// at `now` nor what the check keeps.
pub proof fn lemma_stale_timestamps_never_count(
    ts: Seq<i64>,
    pos: int,
    stale: i64,
    limit: i32,
    now: i64,
    window: i64,
)
    requires
        0 <= pos <= ts.len(),
        (stale as int) < now as int - window as int,
    ensures
        admits(ts.insert(pos, stale), limit, now, window) == admits(ts, limit, now, window),
        window_after(ts.insert(pos, stale), limit, now, window) == window_after(
            ts,
            limit,
            now,
            window,
        ),
{
    let pred = in_window_pred(now, window);
    assert(ts.insert(pos, stale) =~= ts.take(pos) + seq![stale] + ts.skip(pos));
    assert(ts =~= ts.take(pos) + ts.skip(pos));
    Seq::filter_distributes_over_add(ts.take(pos) + seq![stale], ts.skip(pos), pred);
    Seq::filter_distributes_over_add(ts.take(pos), seq![stale], pred);
    Seq::filter_distributes_over_add(ts.take(pos), ts.skip(pos), pred);
    lemma_filter_keeps_none(seq![stale], pred);
    assert(ts.take(pos).filter(pred) + Seq::<i64>::empty() =~= ts.take(pos).filter(pred));
}

/// Checks of principal `a`, however many and whatever their verdicts, leave the
/// timestamps of any other principal `b`, and so every verdict for `b`, as they were.
pub proof fn lemma_principals_isolated(
    m: Map<u128, Seq<i64>>,
    a: u128,
    b: u128,
    limit: i32,
    window: i64,
    times: Seq<i64>,
)
    requires
        a != b,
    ensures
        window_of(state_after_all(m, a, limit, window, times), b) == window_of(m, b),
    decreases times.len(),
{
    if times.len() > 0 {
        lemma_principals_isolated(m, a, b, limit, window, times.drop_last());
    }
}

} // verus!
