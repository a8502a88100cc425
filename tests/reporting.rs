use ingest_gateway::keys::{KeyStore, StorageFault};
use ingest_gateway::models::{ApiKey, DailyUsage, Request, UsageStats};
use ingest_gateway::usage::{
    monthly_report, report_csv, report_outcome, stats_for, stats_outcome, UsageError,
};

fn rec(key: u128, at: i64) -> Request {
    Request {
        id: at as u128,
        api_key_id: key,
        endpoint: "/readings".to_string(),
        method: "POST".to_string(),
        status_code: 201,
        response_time_ms: Some(3),
        created_at: at,
    }
}

fn store() -> KeyStore {
    let mut s = KeyStore::new();
    assert!(s.provision(ApiKey {
        id: 1,
        key: "sk_one".to_string(),
        name: "one".to_string(),
        usage_count: 0,
        is_active: true,
        created_at: 0,
        updated_at: 0,
    }));
    assert!(s.provision(ApiKey {
        id: 2,
        key: "sk_two".to_string(),
        name: "two".to_string(),
        usage_count: 0,
        is_active: false,
        created_at: 0,
        updated_at: 0,
    }));
    s
}

fn day(date: &str, n: i64) -> DailyUsage {
    DailyUsage { date: date.to_string(), requests: n }
}

#[test]
fn stats_for_key_without_requests() {
    let records = vec![rec(1, 10)];
    let s = stats_for(&store(), &records, "sk_two", 0, 0, 1_000).unwrap();
    assert_eq!(s.api_key_name, "two");
    assert_eq!(s.total_requests, 0);
    assert_eq!(s.requests_today, 0);
    assert_eq!(s.requests_this_month, 0);
    assert_eq!(s.last_used, None);
}

#[test]
fn stats_for_unknown_key_is_not_found() {
    assert_eq!(stats_for(&store(), &Vec::new(), "sk_never", 0, 0, 1_000), Err(UsageError::NotFound));
}

#[test]
fn stats_split_by_day_and_month() {
    let records = vec![rec(1, 100), rec(2, 150), rec(1, 500), rec(1, 900), rec(1, 300)];
    let s = stats_for(&store(), &records, "sk_one", 600, 400, 1_000).unwrap();
    assert_eq!(s.total_requests, 4);
    assert_eq!(s.requests_today, 1);
    assert_eq!(s.requests_this_month, 2);
    assert_eq!(s.last_used, Some(900));
}

#[test]
fn stats_windows_have_an_end() {
    let day: i64 = 86_400_000;
    let records = vec![rec(1, 10), rec(1, day + 5), rec(1, 40 * day)];
    let s = stats_for(&store(), &records, "sk_one", 0, 0, 31 * day).unwrap();
    assert_eq!(s.total_requests, 3);
    assert_eq!(s.requests_today, 1);
    assert_eq!(s.requests_this_month, 2);
    assert_eq!(s.last_used, Some(40 * day));
}

#[test]
fn stats_outcomes() {
    let s = UsageStats {
        api_key_name: "a".to_string(),
        total_requests: 1,
        requests_today: 1,
        requests_this_month: 1,
        last_used: Some(5),
    };
    assert_eq!(stats_outcome(Ok(Some(s.clone()))), Ok(s));
    assert_eq!(stats_outcome(Ok(None)), Err(UsageError::NotFound));
    assert_eq!(stats_outcome(Err(StorageFault)), Err(UsageError::Storage));
}

#[test]
fn monthly_total_is_sum_of_days() {
    let days = vec![day("2024-03-01", 4), day("2024-03-02", 0), day("2024-03-05", 11)];
    let r = monthly_report("one".to_string(), 2024, 3, days.clone()).unwrap();
    assert_eq!(r.total_requests, 15);
    assert_eq!(r.daily_breakdown.iter().map(|d| d.requests).sum::<i64>(), r.total_requests);
    assert_eq!(r.month, "03");
    assert_eq!(r.year, 2024);
    assert_eq!(r.daily_breakdown, days);
    assert_eq!(monthly_report("x".to_string(), 2024, 12, Vec::new()).unwrap().month, "12");
    assert_eq!(monthly_report("x".to_string(), 2024, 12, Vec::new()).unwrap().total_requests, 0);
}

#[test]
fn monthly_total_that_overflows_is_refused() {
    let days = vec![day("2024-01-01", i64::MAX), day("2024-01-02", 1)];
    assert!(monthly_report("x".to_string(), 2024, 1, days).is_none());
    let back = vec![day("2024-01-01", i64::MAX), day("2024-01-02", 1), day("2024-01-03", -1)];
    assert_eq!(monthly_report("x".to_string(), 2024, 1, back).unwrap().total_requests, i64::MAX);
}

#[test]
fn report_outcomes() {
    assert_eq!(report_outcome(Ok(None), Ok(Vec::new()), 2024, 5), Err(UsageError::NotFound));
    assert_eq!(report_outcome(Err(StorageFault), Ok(Vec::new()), 2024, 5), Err(UsageError::Storage));
    assert_eq!(report_outcome(Ok(Some("a".to_string())), Err(StorageFault), 2024, 5), Err(UsageError::Storage));
    let r = report_outcome(Ok(Some("a".to_string())), Ok(vec![day("2024-05-02", 2)]), 2024, 5).unwrap();
    assert_eq!(r.api_key_name, "a");
    assert_eq!(r.month, "05");
    assert_eq!(r.total_requests, 2);
}

#[test]
fn report_as_text() {
    let r = monthly_report("a".to_string(), 2024, 7, vec![day("2024-07-01", 12), day("2024-07-09", -305)]).unwrap();
    assert_eq!(report_csv(&r), "Date, Requests\n2024-07-01,12\n2024-07-09,-305\n");
    let empty = monthly_report("a".to_string(), 2024, 7, Vec::new()).unwrap();
    assert_eq!(report_csv(&empty), "Date, Requests\n");
    let big = monthly_report("a".to_string(), 2024, 7, vec![day("d", i64::MIN)]).unwrap();
    assert_eq!(report_csv(&big), format!("Date, Requests\nd,{}\n", i64::MIN));
}
