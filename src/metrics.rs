//! System metrics over the telemetry log.
use vstd::prelude::*;
use crate::models::{
    ApiKey, EndpointUsage, LatencyTotals, PoolStats, Request, StatusDistribution, SystemMetrics,
};

verus! {

broadcast use vstd::seq_lib::group_seq_properties;

/// How many records to list among the busiest endpoints.
pub const TOP_ENDPOINTS: usize = 5;

pub const HOUR_MS: i64 = 3_600_000;

pub const DAY_MS: i64 = 86_400_000;

pub open spec fn is_success(code: i32) -> bool {
    200 <= code < 300
}

pub open spec fn is_client_error(code: i32) -> bool {
    400 <= code < 500
}

pub open spec fn is_server_error(code: i32) -> bool {
    500 <= code < 600
}

/// Number of elements of `s` that satisfy `p`.
pub open spec fn count_of<A>(s: Seq<A>, p: spec_fn(A) -> bool) -> nat {
    s.filter(p).len()
}

pub open spec fn success_pred() -> spec_fn(Request) -> bool {
    |r: Request| is_success(r.status_code)
}

pub open spec fn client_error_pred() -> spec_fn(Request) -> bool {
    |r: Request| is_client_error(r.status_code)
}

pub open spec fn server_error_pred() -> spec_fn(Request) -> bool {
    |r: Request| is_server_error(r.status_code)
}

pub open spec fn since_pred(since: int) -> spec_fn(Request) -> bool {
    |r: Request| r.created_at as int >= since
}

pub open spec fn measured_pred() -> spec_fn(Request) -> bool {
    |r: Request| r.response_time_ms is Some
}

/// Sum of the measured latencies of `s`.
pub open spec fn latency_sum(s: Seq<Request>) -> int
    decreases s.len(),
{
    if s.len() == 0 {
        0
    } else {
        latency_sum(s.drop_last()) + match s.last().response_time_ms {
            Some(ms) => ms as int,
            None => 0,
        }
    }
}

/// Taking one more element into a prefix adds it to the filtered prefix when it
/// satisfies the predicate.
pub proof fn lemma_count_step<A>(s: Seq<A>, i: int, p: spec_fn(A) -> bool)
    requires
        0 <= i < s.len(),
    ensures
        s.take(i + 1).filter(p) == if p(s[i]) {
            s.take(i).filter(p).push(s[i])
        } else {
            s.take(i).filter(p)
        },
{
    assert(s.take(i + 1) =~= s.take(i).push(s[i]));
    s.take(i).lemma_filter_push(s[i], p);
}

/// Number of records whose status code lies in `[lo, hi)`.
fn count_status(records: &Vec<Request>, p: Ghost<spec_fn(Request) -> bool>, lo: i32, hi: i32) -> (r: i64)
    requires
        records.len() <= i64::MAX,
        forall|x: Request|
            #[trigger] p@(x) == (lo <= x.status_code && x.status_code < hi),
    ensures
        r == count_of(records@, p@),
{
    let mut n: i64 = 0;
    for i in 0..records.len()
        invariant
            records.len() <= i64::MAX,
            n == count_of(records@.take(i as int), p@),
            forall|x: Request|
                #[trigger] p@(x) == (lo <= x.status_code && x.status_code < hi),
    {
        proof {
            lemma_count_step(records@, i as int, p@);
            records@.take(i as int).lemma_filter_len(p@);
        }
        let code = records[i].status_code;
        if lo <= code && code < hi {
            n = n + 1;
        }
    }
    assert(records@.take(records.len() as int) =~= records@);
    n
}

/// Counts of the records in each of the three status classes.
pub fn status_distribution(records: &Vec<Request>) -> (r: StatusDistribution)
    requires
        records.len() <= i64::MAX,
    ensures
        r.success_2xx == count_of(records@, success_pred()),
        r.client_error_4xx == count_of(records@, client_error_pred()),
        r.server_error_5xx == count_of(records@, server_error_pred()),
{
    StatusDistribution {
        success_2xx: count_status(records, Ghost(success_pred()), 200, 300),
        client_error_4xx: count_status(records, Ghost(client_error_pred()), 400, 500),
        server_error_5xx: count_status(records, Ghost(server_error_pred()), 500, 600),
    }
}

/// Number of records created at or after `since`.
pub fn count_since(records: &Vec<Request>, since: i128) -> (r: i64)
    requires
        records.len() <= i64::MAX,
    ensures
        r == count_of(records@, since_pred(since as int)),
{
    let mut n: i64 = 0;
    for i in 0..records.len()
        invariant
            records.len() <= i64::MAX,
            n == count_of(records@.take(i as int), since_pred(since as int)),
    {
        proof {
            lemma_count_step(records@, i as int, since_pred(since as int));
            records@.take(i as int).lemma_filter_len(since_pred(since as int));
        }
        if records[i].created_at as i128 >= since {
            n = n + 1;
        }
    }
    assert(records@.take(records.len() as int) =~= records@);
    n
}

/// Sum and number of the measured latencies; `None` when no record was measured.
pub fn latency_totals(records: &Vec<Request>) -> (r: Option<LatencyTotals>)
    requires
        records.len() <= i64::MAX,
    ensures
        count_of(records@, measured_pred()) == 0 ==> r is None,
        count_of(records@, measured_pred()) > 0 ==> r is Some && r->Some_0.samples == count_of(
            records@,
            measured_pred(),
        ) && r->Some_0.total_ms == latency_sum(records@),
{
    let mut total: i128 = 0;
    let mut samples: i64 = 0;
    for i in 0..records.len()
        invariant
            records.len() <= i64::MAX,
            samples == count_of(records@.take(i as int), measured_pred()),
            total == latency_sum(records@.take(i as int)),
            -(i as int) * 0x8000_0000 <= total <= (i as int) * 0x8000_0000,
    {
        proof {
            lemma_count_step(records@, i as int, measured_pred());
            records@.take(i as int).lemma_filter_len(measured_pred());
            assert(records@.take(i + 1).drop_last() =~= records@.take(i as int));
        }
        match records[i].response_time_ms {
            Some(ms) => {
                total = total + ms as i128;
                samples = samples + 1;
            },
            None => {},
        }
    }
    assert(records@.take(records.len() as int) =~= records@);
    if samples == 0 {
        None
    } else {
        Some(LatencyTotals { total_ms: total, samples })
    }
}

pub open spec fn endpoint_pred(e: Seq<char>) -> spec_fn(Request) -> bool {
    |r: Request| r.endpoint@ == e
}

/// Number of records made to endpoint `e`.
pub open spec fn requests_to(records: Seq<Request>, e: Seq<char>) -> nat {
    count_of(records, endpoint_pred(e))
}

/// Some record was made to endpoint `e`.
pub open spec fn has_endpoint(records: Seq<Request>, e: Seq<char>) -> bool {
    exists|i: int| 0 <= i < records.len() && records[i].endpoint@ == e
}

/// Endpoint `e` has an entry in `s`.
pub open spec fn lists(s: Seq<EndpointUsage>, e: Seq<char>) -> bool {
    exists|i: int| 0 <= i < s.len() && s[i].endpoint@ == e
}

pub open spec fn distinct_endpoints(s: Seq<EndpointUsage>) -> bool {
    forall|i: int, j: int|
        0 <= i < s.len() && 0 <= j < s.len() && i != j ==> s[i].endpoint@ != s[j].endpoint@
}

/// Each entry of `s` names an endpoint of `records` with its exact number of requests.
pub open spec fn counts_match(s: Seq<EndpointUsage>, records: Seq<Request>) -> bool {
    forall|i: int|
        0 <= i < s.len() ==> #[trigger] s[i].count == requests_to(records, s[i].endpoint@)
            && has_endpoint(records, s[i].endpoint@)
}

proof fn lemma_no_requests_to(s: Seq<Request>, e: Seq<char>)
    requires
        !has_endpoint(s, e),
    ensures
        requests_to(s, e) == 0,
{
    let f = s.filter(endpoint_pred(e));
    if f.len() > 0 {
        s.lemma_filter_contains_rev(endpoint_pred(e), f[0]);
        assert(f.contains(f[0]));
    }
}

/// Position of endpoint `e` among the entries of `groups`, if it has one.
fn find_endpoint(groups: &Vec<EndpointUsage>, e: &String) -> (r: Option<usize>)
    ensures
        match r {
            Some(j) => j < groups.len() && groups@[j as int].endpoint@ == e@,
            None => !lists(groups@, e@),
        },
{
    for j in 0..groups.len()
        invariant
            forall|k: int| 0 <= k < j ==> groups@[k].endpoint@ != e@,
    {
        if groups[j].endpoint == *e {
            return Some(j);
        }
    }
    None
}

/// One entry per endpoint of `records`, with its number of requests, in order of
/// first appearance.
fn endpoint_counts(records: &Vec<Request>) -> (r: Vec<EndpointUsage>)
    requires
        records.len() <= i64::MAX,
    ensures
        distinct_endpoints(r@),
        counts_match(r@, records@),
        forall|e: Seq<char>| has_endpoint(records@, e) ==> lists(r@, e),
{
    let mut groups: Vec<EndpointUsage> = Vec::new();
    for i in 0..records.len()
        invariant
            records.len() <= i64::MAX,
            distinct_endpoints(groups@),
            counts_match(groups@, records@.take(i as int)),
            forall|e: Seq<char>| has_endpoint(records@.take(i as int), e) ==> lists(groups@, e),
            forall|k: int| 0 <= k < groups.len() ==> groups@[k].count <= i,
    {
        let ghost pre = records@.take(i as int);
        let ghost post = records@.take(i + 1);
        let ghost cur = records@[i as int];
        proof {
            assert(post =~= pre.push(cur));
            assert forall|e: Seq<char>| #[trigger] requests_to(post, e) == requests_to(pre, e) + if cur.endpoint@ == e { 1int } else { 0 } by {
                pre.lemma_filter_push(cur, endpoint_pred(e));
            }
            assert forall|e: Seq<char>| has_endpoint(pre, e) implies #[trigger] has_endpoint(post, e) by {
                let w = choose|w: int| 0 <= w < pre.len() && pre[w].endpoint@ == e;
                assert(post[w] == pre[w]);
            }
            assert(post[i as int] == cur);
            assert(has_endpoint(post, cur.endpoint@));
        }
        let ghost before = groups@;
        match find_endpoint(&groups, &records[i].endpoint) {
            Some(j) => {
                let c = groups[j].count;
                groups[j].count = c + 1;
                proof {
                    assert forall|k: int| 0 <= k < groups.len() implies #[trigger] groups@[k].count
                        == requests_to(post, groups@[k].endpoint@) && has_endpoint(
                        post,
                        groups@[k].endpoint@,
                    ) by {
                        assert(groups@[k].endpoint@ == before[k].endpoint@);
                        if k != j {
                            assert(before[k].endpoint@ != before[j as int].endpoint@);
                        }
                    }
                    assert forall|e: Seq<char>| has_endpoint(post, e) implies lists(groups@, e) by {
                        let w = choose|w: int| 0 <= w < post.len() && post[w].endpoint@ == e;
                        if w < i {
                            assert(pre[w] == post[w]);
                            assert(has_endpoint(pre, e));
                            assert(lists(before, e));
                            let k = choose|k: int| 0 <= k < before.len() && before[k].endpoint@ == e;
                            assert(groups@[k].endpoint@ == before[k].endpoint@);
                        } else {
                            assert(groups@[j as int].endpoint@ == e);
                        }
                    }
                }
            },
            None => {
                groups.push(EndpointUsage { endpoint: records[i].endpoint.clone(), count: 1 });
                proof {
                    assert(!has_endpoint(pre, cur.endpoint@));
                    lemma_no_requests_to(pre, cur.endpoint@);
                    assert forall|k: int| 0 <= k < groups.len() implies #[trigger] groups@[k].count
                        == requests_to(post, groups@[k].endpoint@) && has_endpoint(
                        post,
                        groups@[k].endpoint@,
                    ) by {
                        if k < before.len() {
                            assert(groups@[k] == before[k]);
                            assert(before[k].endpoint@ != cur.endpoint@);
                        }
                    }
                    assert forall|a: int, b: int|
                        0 <= a < groups.len() && 0 <= b < groups.len() && a != b implies groups@[a].endpoint@
                        != groups@[b].endpoint@ by {
                        if a < before.len() && b < before.len() {
                            assert(groups@[a] == before[a] && groups@[b] == before[b]);
                        } else if a < before.len() {
                            assert(groups@[a] == before[a]);
                        } else if b < before.len() {
                            assert(groups@[b] == before[b]);
                        }
                    }
                    assert forall|e: Seq<char>| has_endpoint(post, e) implies lists(groups@, e) by {
                        let w = choose|w: int| 0 <= w < post.len() && post[w].endpoint@ == e;
                        if w < i {
                            assert(pre[w] == post[w]);
                            assert(has_endpoint(pre, e));
                            assert(lists(before, e));
                            let k = choose|k: int| 0 <= k < before.len() && before[k].endpoint@ == e;
                            assert(groups@[k] == before[k]);
                        } else {
                            assert(groups@[before.len() as int].endpoint@ == e);
                        }
                    }
                }
            },
        }
    }
    assert(records@.take(records.len() as int) =~= records@);
    groups
}

/// At most `limit` of the busiest endpoints, busiest first, each with its number
/// of requests; an endpoint is left out only when `limit` entries are listed and it
/// has no more requests than any of them.
pub fn top_endpoints(records: &Vec<Request>, limit: usize) -> (r: Vec<EndpointUsage>)
    requires
        records.len() <= i64::MAX,
    ensures
        r.len() <= limit,
        distinct_endpoints(r@),
        counts_match(r@, records@),
        forall|i: int, j: int| 0 <= i < j < r.len() ==> r@[i].count >= r@[j].count,
        forall|e: Seq<char>|
            has_endpoint(records@, e) && !lists(r@, e) ==> r.len() == limit && forall|i: int|
                0 <= i < r.len() ==> requests_to(records@, e) <= #[trigger] r@[i].count,
{
    let mut rest = endpoint_counts(records);
    let mut top: Vec<EndpointUsage> = Vec::new();
    while top.len() < limit && rest.len() > 0
        invariant
            top.len() <= limit,
            distinct_endpoints(top@),
            distinct_endpoints(rest@),
            counts_match(top@, records@),
            counts_match(rest@, records@),
            forall|a: int, b: int|
                0 <= a < top.len() && 0 <= b < rest.len() ==> top@[a].endpoint@ != rest@[b].endpoint@,
            forall|e: Seq<char>| has_endpoint(records@, e) ==> lists(top@, e) || lists(rest@, e),
            forall|i: int, j: int| 0 <= i < j < top.len() ==> top@[i].count >= top@[j].count,
            forall|a: int, b: int|
                0 <= a < top.len() && 0 <= b < rest.len() ==> top@[a].count >= rest@[b].count,
        decreases rest.len(),
    {
        let mut best: usize = 0;
        for k in 1..rest.len()
            invariant
                best < rest.len(),
                forall|b: int| 0 <= b < k ==> rest@[b].count <= rest@[best as int].count,
        {
            if rest[k].count > rest[best].count {
                best = k;
            }
        }
        let ghost before_top = top@;
        let ghost before_rest = rest@;
        let picked = rest.remove(best);
        proof {
            assert(picked == before_rest[best as int]);
            assert forall|b: int| 0 <= b < rest.len() implies #[trigger] rest@[b] == before_rest[if b < best { b } else { b + 1 }] by {}
        }
        top.push(picked);
        proof {
            assert(top@ == before_top.push(picked));
            assert forall|e: Seq<char>| has_endpoint(records@, e) implies lists(top@, e) || lists(rest@, e) by {
                if lists(before_top, e) {
                    let a = choose|a: int| 0 <= a < before_top.len() && before_top[a].endpoint@ == e;
                    assert(top@[a] == before_top[a]);
                } else {
                    let b = choose|b: int| 0 <= b < before_rest.len() && before_rest[b].endpoint@ == e;
                    if b == best {
                        assert(top@[top.len() - 1] == picked);
                    } else if b < best {
                        assert(rest@[b] == before_rest[b]);
                    } else {
                        assert(rest@[b - 1] == before_rest[b]);
                    }
                }
            }
        }
    }
    top
}

pub open spec fn active_pred() -> spec_fn(ApiKey) -> bool {
    |k: ApiKey| k.is_active
}

/// Number of keys, and number of active keys.
pub fn key_counts(keys: &Vec<ApiKey>) -> (r: (i64, i64))
    requires
        keys.len() <= i64::MAX,
    ensures
        r.0 == keys.len(),
        r.1 == count_of(keys@, active_pred()),
{
    let mut active: i64 = 0;
    for i in 0..keys.len()
        invariant
            keys.len() <= i64::MAX,
            active == count_of(keys@.take(i as int), active_pred()),
    {
        proof {
            lemma_count_step(keys@, i as int, active_pred());
            keys@.take(i as int).lemma_filter_len(active_pred());
        }
        if keys[i].is_active {
            active = active + 1;
        }
    }
    assert(keys@.take(keys.len() as int) =~= keys@);
    (keys.len() as i64, active)
}

/// The three status classes are disjoint, so together they never hold more
/// records than there are.
pub proof fn lemma_status_classes_within_total(records: Seq<Request>)
    ensures
        count_of(records, success_pred()) + count_of(records, client_error_pred()) + count_of(
            records,
            server_error_pred(),
        ) <= records.len(),
    decreases records.len(),
{
    if records.len() > 0 {
        let init = records.drop_last();
        lemma_status_classes_within_total(init);
        assert(init.push(records.last()) =~= records);
        init.lemma_filter_push(records.last(), success_pred());
        init.lemma_filter_push(records.last(), client_error_pred());
        init.lemma_filter_push(records.last(), server_error_pred());
    }
}

/// A point-in-time view of the telemetry log and the key table at time `now`.
pub fn snapshot(records: &Vec<Request>, keys: &Vec<ApiKey>, now: i64, pool: PoolStats) -> (r: SystemMetrics)
    requires
        records.len() <= i64::MAX,
        keys.len() <= i64::MAX,
    ensures
        r.total_requests == records.len(),
        r.total_api_keys == keys.len(),
        r.active_api_keys == count_of(keys@, active_pred()),
        count_of(records@, measured_pred()) == 0 ==> r.latency is None,
        count_of(records@, measured_pred()) > 0 ==> r.latency is Some
            && r.latency->Some_0.samples == count_of(records@, measured_pred())
            && r.latency->Some_0.total_ms == latency_sum(records@),
        r.requests_last_hour == count_of(records@, since_pred(now - HOUR_MS)),
        r.requests_last_24h == count_of(records@, since_pred(now - DAY_MS)),
        r.top_endpoints.len() <= TOP_ENDPOINTS,
        distinct_endpoints(r.top_endpoints@),
        counts_match(r.top_endpoints@, records@),
        forall|i: int, j: int|
            0 <= i < j < r.top_endpoints.len() ==> r.top_endpoints@[i].count
                >= r.top_endpoints@[j].count,
        forall|e: Seq<char>|
            has_endpoint(records@, e) && !lists(r.top_endpoints@, e) ==> r.top_endpoints.len()
                == TOP_ENDPOINTS && forall|i: int|
                0 <= i < r.top_endpoints.len() ==> requests_to(records@, e)
                    <= #[trigger] r.top_endpoints@[i].count,
        r.status_distribution.success_2xx == count_of(records@, success_pred()),
        r.status_distribution.client_error_4xx == count_of(records@, client_error_pred()),
        r.status_distribution.server_error_5xx == count_of(records@, server_error_pred()),
        r.status_distribution.success_2xx + r.status_distribution.client_error_4xx
            + r.status_distribution.server_error_5xx <= r.total_requests,
        r.database_pool_stats == pool,
{
    proof {
        lemma_status_classes_within_total(records@);
    }
    let (total_keys, active_keys) = key_counts(keys);
    SystemMetrics {
        total_requests: records.len() as i64,
        total_api_keys: total_keys,
        active_api_keys: active_keys,
        latency: latency_totals(records),
        requests_last_hour: count_since(records, now as i128 - HOUR_MS as i128),
        requests_last_24h: count_since(records, now as i128 - DAY_MS as i128),
        top_endpoints: top_endpoints(records, TOP_ENDPOINTS),
        status_distribution: status_distribution(records),
        database_pool_stats: pool,
    }
}

/// A sub-query of the metrics snapshot failed or returned no row.
#[derive(Debug, Clone, PartialEq, Eq)]
pub struct AggregationError;

/// The value of a counting sub-query, or zero when it failed or found nothing.
pub fn count_or_zero(q: Result<Option<i64>, AggregationError>) -> (r: i64)
    ensures
        r == count_or_zero_spec(q),
{
    match q {
        Ok(Some(n)) => n,
        _ => 0,
    }
}

/// A snapshot put together from the results of separate sub-queries: each one
/// that failed counts as zero or empty, and the snapshot itself never fails.
pub fn assemble_metrics(
    total_requests: Result<Option<i64>, AggregationError>,
    total_api_keys: Result<Option<i64>, AggregationError>,
    active_api_keys: Result<Option<i64>, AggregationError>,
    latency: Result<Option<LatencyTotals>, AggregationError>,
    requests_last_hour: Result<Option<i64>, AggregationError>,
    requests_last_24h: Result<Option<i64>, AggregationError>,
    top_endpoints: Result<Vec<EndpointUsage>, AggregationError>,
    status_distribution: Result<StatusDistribution, AggregationError>,
    pool: PoolStats,
) -> (r: SystemMetrics)
    ensures
        r.total_requests == count_or_zero_spec(total_requests),
        r.total_api_keys == count_or_zero_spec(total_api_keys),
        r.active_api_keys == count_or_zero_spec(active_api_keys),
        r.latency == match latency {
            Ok(Some(t)) => if t.samples > 0 { Some(t) } else { None },
            _ => None,
        },
        r.requests_last_hour == count_or_zero_spec(requests_last_hour),
        r.requests_last_24h == count_or_zero_spec(requests_last_24h),
        r.top_endpoints@ == match top_endpoints {
            Ok(v) => v@,
            Err(_) => Seq::<EndpointUsage>::empty(),
        },
        r.status_distribution == match status_distribution {
            Ok(d) => d,
            Err(_) => StatusDistribution { success_2xx: 0, client_error_4xx: 0, server_error_5xx: 0 },
        },
        r.database_pool_stats == pool,
{
    let latency = match latency {
        Ok(Some(t)) => if t.samples > 0 { Some(t) } else { None },
        _ => None,
    };
    let top_endpoints = match top_endpoints {
        Ok(v) => v,
        Err(_) => Vec::new(),
    };
    let status_distribution = match status_distribution {
        Ok(d) => d,
        Err(_) => StatusDistribution { success_2xx: 0, client_error_4xx: 0, server_error_5xx: 0 },
    };
    SystemMetrics {
        total_requests: count_or_zero(total_requests),
        total_api_keys: count_or_zero(total_api_keys),
        active_api_keys: count_or_zero(active_api_keys),
        latency,
        requests_last_hour: count_or_zero(requests_last_hour),
        requests_last_24h: count_or_zero(requests_last_24h),
        top_endpoints,
        status_distribution,
        database_pool_stats: pool,
    }
}

pub open spec fn count_or_zero_spec(q: Result<Option<i64>, AggregationError>) -> i64 {
    match q {
        Ok(Some(n)) => n,
        _ => 0,
    }
}

} // verus!
