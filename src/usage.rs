//! Per-key usage statistics and the monthly report.
use vstd::prelude::*;
use crate::keys::{has_key, key_position, KeyStore, StorageFault};
use crate::metrics::{count_of, lemma_count_step, DAY_MS};
use crate::models::{DailyUsage, MonthlyReport, Request, UsageStats};
use crate::text::{digit_char, push_char, push_signed_decimal, push_str, push_two_digits, signed_decimal};

verus! {

/// Why a usage query produced no answer.
#[derive(Debug, Clone, PartialEq, Eq)]
pub enum UsageError {
    /// No key with that secret exists.
    NotFound,
    /// The store failed, or handed back counts that cannot be added up.
    Storage,
}

/// The optional output format of the monthly report.
#[derive(Debug, Clone, PartialEq, Eq)]
pub struct ReportParams {
    pub format: Option<String>,
}

pub open spec fn owned_pred(id: u128) -> spec_fn(Request) -> bool {
    |r: Request| r.api_key_id == id
}

/// Records of key `id` created within `[start, end)`.
pub open spec fn owned_within_pred(id: u128, start: int, end: int) -> spec_fn(Request) -> bool {
    |r: Request| r.api_key_id == id && start <= r.created_at && r.created_at < end
}

/// Creation time of the most recent record of key `id`, if it has any.
pub open spec fn last_use(records: Seq<Request>, id: u128) -> Option<i64>
    decreases records.len(),
{
    if records.len() == 0 {
        None
    } else {
        let earlier = last_use(records.drop_last(), id);
        let r = records.last();
        if r.api_key_id != id {
            earlier
        } else {
            match earlier {
                Some(t) => if t >= r.created_at { Some(t) } else { Some(r.created_at) },
                None => Some(r.created_at),
            }
        }
    }
}

proof fn lemma_last_use_none(records: Seq<Request>, id: u128)
    ensures
        (last_use(records, id) is None) == (count_of(records, owned_pred(id)) == 0),
    decreases records.len(),
{
    if records.len() > 0 {
        let init = records.drop_last();
        lemma_last_use_none(init, id);
        assert(init.push(records.last()) =~= records);
        init.lemma_filter_push(records.last(), owned_pred(id));
    }
}

/// Usage of the key whose secret is `key`: its name, its requests in all, on the
/// day that begins at `day_start`, in the month that spans `[month_start,
/// month_end)`, and the time of its latest request.
pub fn stats_for(
    store: &KeyStore,
    records: &Vec<Request>,
    key: &str,
    day_start: i64,
    month_start: i64,
    month_end: i64,
) -> (r: Result<UsageStats, UsageError>)
    requires
        store.wf(),
        records.len() <= i64::MAX,
    ensures
        !has_key(store@, key@) ==> r == Err::<UsageStats, UsageError>(UsageError::NotFound),
        has_key(store@, key@) ==> {
            let row = store@[key_position(store@, key@)];
            &&& r is Ok
            &&& r->Ok_0.api_key_name@ == row.name@
            &&& r->Ok_0.total_requests == count_of(records@, owned_pred(row.id))
            &&& r->Ok_0.requests_today == count_of(records@, owned_within_pred(
                row.id,
                day_start as int,
                day_start + DAY_MS,
            ))
            &&& r->Ok_0.requests_this_month == count_of(
                records@,
                owned_within_pred(row.id, month_start as int, month_end as int),
            )
            &&& r->Ok_0.last_used == last_use(records@, row.id)
            &&& count_of(records@, owned_pred(row.id)) == 0 ==> r->Ok_0.total_requests == 0
                && r->Ok_0.last_used is None
        },
{
    let row = match store.find(key) {
        Some(row) => row,
        None => return Err(UsageError::NotFound),
    };
    let id = row.id;
    let day_end: i128 = day_start as i128 + DAY_MS as i128;
    let mut total: i64 = 0;
    let mut today: i64 = 0;
    let mut month: i64 = 0;
    let mut last: Option<i64> = None;
    for i in 0..records.len()
        invariant
            records.len() <= i64::MAX,
            day_end == day_start + DAY_MS,
            total == count_of(records@.take(i as int), owned_pred(id)),
            today == count_of(records@.take(i as int), owned_within_pred(id, day_start as int, day_start + DAY_MS)),
            month == count_of(records@.take(i as int), owned_within_pred(id, month_start as int, month_end as int)),
            last == last_use(records@.take(i as int), id),
    {
        proof {
            let pre = records@.take(i as int);
            lemma_count_step(records@, i as int, owned_pred(id));
            lemma_count_step(records@, i as int, owned_within_pred(id, day_start as int, day_start + DAY_MS));
            lemma_count_step(records@, i as int, owned_within_pred(id, month_start as int, month_end as int));
            pre.lemma_filter_len(owned_pred(id));
            pre.lemma_filter_len(owned_within_pred(id, day_start as int, day_start + DAY_MS));
            pre.lemma_filter_len(owned_within_pred(id, month_start as int, month_end as int));
            assert(records@.take(i + 1).drop_last() =~= pre);
        }
        let rec = &records[i];
        if rec.api_key_id == id {
            total = total + 1;
            if rec.created_at >= day_start && (rec.created_at as i128) < day_end {
                today = today + 1;
            }
            if rec.created_at >= month_start && rec.created_at < month_end {
                month = month + 1;
            }
            last = match last {
                Some(t) => if t >= rec.created_at { Some(t) } else { Some(rec.created_at) },
                None => Some(rec.created_at),
            };
        }
    }
    proof {
        assert(records@.take(records.len() as int) =~= records@);
        lemma_last_use_none(records@, id);
    }
    Ok(UsageStats {
        api_key_name: row.name,
        total_requests: total,
        requests_today: today,
        requests_this_month: month,
        last_used: last,
    })
}

/// The answer of the statistics query, as a result: no row means the key does not exist.
pub fn stats_outcome(q: Result<Option<UsageStats>, StorageFault>) -> (r: Result<UsageStats, UsageError>)
    ensures
        r == match q {
            Ok(Some(s)) => Ok(s),
            Ok(None) => Err(UsageError::NotFound),
            Err(_) => Err(UsageError::Storage),
        },
{
    match q {
        Ok(Some(s)) => Ok(s),
        Ok(None) => Err(UsageError::NotFound),
        Err(_) => Err(UsageError::Storage),
    }
}

/// Sum of the daily counts.
pub open spec fn daily_sum(days: Seq<DailyUsage>) -> int
    decreases days.len(),
{
    if days.len() == 0 {
        0
    } else {
        daily_sum(days.drop_last()) + days.last().requests
    }
}

/// However the requests are spread over the days, the total of a breakdown is
/// the total of its first part plus the total of the rest.
pub proof fn lemma_total_splits(first: Seq<DailyUsage>, rest: Seq<DailyUsage>)
    ensures
        daily_sum(first + rest) == daily_sum(first) + daily_sum(rest),
    decreases rest.len(),
{
    if rest.len() > 0 {
        lemma_total_splits(first, rest.drop_last());
        assert((first + rest).drop_last() =~= first + rest.drop_last());
    } else {
        assert(first + rest =~= first);
    }
}

/// The two-digit label of a month, `01` to `12`.
pub open spec fn month_label(month: u32) -> Seq<char> {
    seq![digit_char((month / 10) as int), digit_char((month % 10) as int)]
}

/// Sum of the daily counts, or `None` when it does not fit in an `i64`.
fn checked_total(days: &Vec<DailyUsage>) -> (r: Option<i64>)
    ensures
        match r {
            Some(t) => t == daily_sum(days@),
            None => !(i64::MIN <= daily_sum(days@) <= i64::MAX),
        },
{
    let mut total: i128 = 0;
    for i in 0..days.len()
        invariant
            total == daily_sum(days@.take(i as int)),
            -(i as int) * 0x8000_0000_0000_0000 <= total <= (i as int) * 0x8000_0000_0000_0000,
    {
        assert(days@.take(i + 1).drop_last() =~= days@.take(i as int));
        total = total + days[i].requests as i128;
    }
    assert(days@.take(days.len() as int) =~= days@);
    if i64::MIN as i128 <= total && total <= i64::MAX as i128 {
        Some(total as i64)
    } else {
        None
    }
}

/// The report for one calendar month: the key's name, the month as two digits,
/// the year, the per-day counts in the order given, and their sum; `None` when
/// that sum does not fit in an `i64`.
pub fn monthly_report(api_key_name: String, year: i32, month: u32, daily_breakdown: Vec<DailyUsage>) -> (r: Option<MonthlyReport>)
    requires
        1 <= month <= 12,
    ensures
        match r {
            Some(rep) => {
                &&& i64::MIN <= daily_sum(daily_breakdown@) <= i64::MAX
                &&& rep.api_key_name == api_key_name
                &&& rep.month@ == month_label(month)
                &&& rep.year == year
                &&& rep.daily_breakdown@ == daily_breakdown@
                &&& rep.total_requests == daily_sum(rep.daily_breakdown@)
            },
            None => !(i64::MIN <= daily_sum(daily_breakdown@) <= i64::MAX),
        },
{
    let total = match checked_total(&daily_breakdown) {
        Some(t) => t,
        None => return None,
    };
    let mut label = String::new();
    push_two_digits(&mut label, month);
    assert(label@ =~= month_label(month));
    Some(MonthlyReport { api_key_name, month: label, year, total_requests: total, daily_breakdown })
}

/// The outcome of a report request, from the key lookup (the key's name, if it
/// exists) and the per-day counts that the store returned.
pub fn report_outcome(
    key_lookup: Result<Option<String>, StorageFault>,
    daily: Result<Vec<DailyUsage>, StorageFault>,
    year: i32,
    month: u32,
) -> (r: Result<MonthlyReport, UsageError>)
    requires
        1 <= month <= 12,
    ensures
        r is Ok ==> r->Ok_0.total_requests == daily_sum(r->Ok_0.daily_breakdown@),
        match key_lookup {
            Err(_) => r == Err::<MonthlyReport, UsageError>(UsageError::Storage),
            Ok(None) => r == Err::<MonthlyReport, UsageError>(UsageError::NotFound),
            Ok(Some(name)) => match daily {
                Err(_) => r == Err::<MonthlyReport, UsageError>(UsageError::Storage),
                Ok(days) => if i64::MIN <= daily_sum(days@) <= i64::MAX {
                    &&& r is Ok
                    &&& r->Ok_0.api_key_name == name
                    &&& r->Ok_0.month@ == month_label(month)
                    &&& r->Ok_0.year == year
                    &&& r->Ok_0.daily_breakdown@ == days@
                    &&& r->Ok_0.total_requests == daily_sum(days@)
                } else {
                    r == Err::<MonthlyReport, UsageError>(UsageError::Storage)
                },
            },
        },
{
    let name = match key_lookup {
        Err(_) => return Err(UsageError::Storage),
        Ok(None) => return Err(UsageError::NotFound),
        Ok(Some(name)) => name,
    };
    let days = match daily {
        Err(_) => return Err(UsageError::Storage),
        Ok(days) => days,
    };
    match monthly_report(name, year, month, days) {
        Some(rep) => Ok(rep),
        None => Err(UsageError::Storage),
    }
}

/// The lines of the textual report below its header: one `date,count` line per day.
pub open spec fn csv_lines(days: Seq<DailyUsage>) -> Seq<char>
    decreases days.len(),
{
    if days.len() == 0 {
        Seq::empty()
    } else {
        csv_lines(days.drop_last()) + days.last().date@ + seq![','] + signed_decimal(
            days.last().requests as int,
        ) + seq!['\n']
    }
}

pub const CSV_HEADER: &'static str = "Date, Requests\n";

/// The textual table form of a report.
pub fn report_csv(report: &MonthlyReport) -> (r: String)
    ensures
        r@ == CSV_HEADER@ + csv_lines(report.daily_breakdown@),
{
    let days = &report.daily_breakdown;
    let mut out = String::new();
    push_str(&mut out, CSV_HEADER);
    for i in 0..days.len()
        invariant
            out@ == CSV_HEADER@ + csv_lines(days@.take(i as int)),
    {
        assert(days@.take(i + 1).drop_last() =~= days@.take(i as int));
        push_str(&mut out, days[i].date.as_str());
        push_char(&mut out, ',');
        push_signed_decimal(&mut out, days[i].requests);
        push_char(&mut out, '\n');
        assert(out@ =~= CSV_HEADER@ + csv_lines(days@.take(i + 1)));
    }
    assert(days@.take(days.len() as int) =~= days@);
    out
}

} // verus!
