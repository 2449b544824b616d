use crate::analytics::{by_count_desc, counts_groups, lists_recent, visit_count};
use crate::daily::{by_day_desc, counts_days, date_label, date_label_of, DAY_SECONDS};
use crate::models::{AnalyticsResponse, CountStat, DailyStat, LinkView, Visit};
use crate::service::{authorize, bearer_ok, opt_view};
use crate::service::ServiceError;
use crate::store::LinkStore;
use vstd::prelude::*;

verus! {

/// How far back, in seconds, the daily counts of a report reach: 30 days.
pub const DAILY_WINDOW_SECONDS: i64 = 2592000;

/// Count statistics as plain pairs.
pub open spec fn stat_pairs(s: Seq<CountStat>) -> Seq<(Option<String>, i64)> {
    s.map_values(|c: CountStat| (c.value, c.count))
}

/// `daily` labels and counts the per-day rows `days`, in their order.
pub open spec fn labels_days(daily: Seq<DailyStat>, days: Seq<(i64, i64)>) -> bool {
    &&& daily.len() == days.len()
    &&& forall|i: int|
        0 <= i < daily.len() ==> (#[trigger] daily[i]).count == days[i].1 && daily[i].date@
            == date_label_of(days[i].0 * 86400)
}

fn to_stats(rows: Vec<(Option<String>, i64)>) -> (r: Vec<CountStat>)
    ensures
        stat_pairs(r@) == rows@,
{
    let mut out: Vec<CountStat> = Vec::new();
    let mut rest = rows;
    let ghost all = rest@;
    let mut taken: Vec<CountStat> = Vec::new();
    // Rows are moved out from the back, then put back in order.
    while rest.len() > 0
        invariant
            taken@.len() + rest@.len() == all.len(),
            rest@ == all.take(rest@.len() as int),
            forall|i: int|
                0 <= i < taken@.len() ==> (#[trigger] taken@[i]).value == all[all.len() - 1 - i].0
                    && taken@[i].count == all[all.len() - 1 - i].1,
        decreases rest@.len(),
    {
        let (value, count) = rest.pop().unwrap();
        assert(rest@ =~= all.take(rest@.len() as int));
        taken.push(CountStat { value, count });
    }
    while taken.len() > 0
        invariant
            taken@.len() + out@.len() == all.len(),
            forall|i: int|
                0 <= i < taken@.len() ==> (#[trigger] taken@[i]).value == all[all.len() - 1 - i].0
                    && taken@[i].count == all[all.len() - 1 - i].1,
            forall|i: int|
                0 <= i < out@.len() ==> (#[trigger] out@[i]).value == all[i].0 && out@[i].count
                    == all[i].1,
        decreases taken@.len(),
    {
        let c = taken.pop().unwrap();
        out.push(c);
    }
    assert(stat_pairs(out@) =~= all);
    out
}

fn to_daily(days: &Vec<(i64, i64)>) -> (r: Vec<DailyStat>)
    requires
        forall|i: int| 0 <= i < days@.len() ==> i64::MIN <= (#[trigger] days@[i]).0 * 86400 <= i64::MAX,
    ensures
        labels_days(r@, days@),
{
    let mut out: Vec<DailyStat> = Vec::new();
    let mut i: usize = 0;
    while i < days.len()
        invariant
            i <= days@.len(),
            forall|x: int| 0 <= x < days@.len() ==> i64::MIN <= (#[trigger] days@[x]).0 * 86400 <= i64::MAX,
            out@.len() == i,
            forall|x: int|
                0 <= x < i ==> (#[trigger] out@[x]).count == days@[x].1 && out@[x].date@
                    == date_label_of(days@[x].0 * 86400),
        decreases days@.len() - i,
    {
        let (day, count) = days[i];
        assert(i64::MIN <= days@[i as int].0 * 86400 <= i64::MAX);
        out.push(DailyStat { date: date_label(day * DAY_SECONDS), count });
        i = i + 1;
    }
    out
}

/// `r` is the report on `code` at `now` of a store with links `links` and
/// visits `vs`: `NotFound` where no link is stored under the code or it has
/// expired. Otherwise the link's fields, its number of visits, its visits by
/// country and by referer (largest group first), by day over the 30 days
/// before `now` (newest day first), and its 20 most recent visits (newest
/// first).
pub open spec fn is_report(
    links: Map<Seq<char>, LinkView>,
    vs: Seq<Visit>,
    code: Seq<char>,
    now: int,
    r: Result<AnalyticsResponse, ServiceError>,
) -> bool {
    &&& r is Err <==> !(links.contains_key(code) && links[code].is_live(now))
    &&& r is Err ==> r == Err::<AnalyticsResponse, ServiceError>(ServiceError::NotFound)
    &&& r matches Ok(a) ==> {
        let l = links[code];
        &&& a.code@ == code
        &&& a.original_url@ == l.original_url
        &&& a.created_at == l.created_at
        &&& a.expires_at == l.expires_at
        &&& a.total_visits == visit_count(vs, code)
        &&& counts_groups(stat_pairs(a.countries@), vs, code, false)
        &&& by_count_desc(stat_pairs(a.countries@))
        &&& counts_groups(stat_pairs(a.referers@), vs, code, true)
        &&& by_count_desc(stat_pairs(a.referers@))
        &&& exists|days: Seq<(i64, i64)>|
            {
                &&& counts_days(days, vs, code, now - 2592000)
                &&& by_day_desc(days)
                &&& #[trigger] labels_days(a.daily@, days)
            }
        &&& exists|idx: Seq<int>| lists_recent(a.recent_visits@, idx, vs, code, 20)
    }
}

/// The visit statistics of the link under `code` at `now`.
pub fn summarize(store: &LinkStore, code: &str, now: i64) -> (r: Result<AnalyticsResponse, ServiceError>)
    requires
        store.wf(),
        store.visit_log().len() <= i64::MAX,
        now >= i64::MIN + 2 * DAILY_WINDOW_SECONDS,
    ensures
        is_report(store.view(), store.visit_log(), code@, now as int, r),
{
    let link = match store.get_link(code) {
        Some(l) => l,
        None => {
            return Err(ServiceError::NotFound);
        },
    };
    if now > link.expires_at {
        return Err(ServiceError::NotFound);
    }
    let total_visits = store.count_visits(code);
    let countries = to_stats(store.visits_by_country(code));
    let referers = to_stats(store.visits_by_referer(code));
    let from = now - DAILY_WINDOW_SECONDS;
    let days = store.visits_daily(code, from);
    proof {
        assert forall|i: int| 0 <= i < days@.len() implies i64::MIN <= (#[trigger] days@[i]).0 * 86400
            <= i64::MAX by {
            assert(days@[i].1 >= 1);
            crate::daily::lemma_day_in_range(store.visit_log(), code@, from as int, days@[i].0 as int);
        }
    }
    let daily = to_daily(&days);
    let recent_visits = store.recent_visits(code);
    let a = AnalyticsResponse {
        code: link.code,
        original_url: link.original_url,
        created_at: link.created_at,
        expires_at: link.expires_at,
        total_visits,
        countries,
        referers,
        daily,
        recent_visits,
    };
    proof {
        // Witnesses for the two existential parts of the report.
        let idx = choose|idx: Seq<int>| lists_recent(recent_visits@, idx, store.visit_log(), code@, 20);
        assert(lists_recent(a.recent_visits@, idx, store.visit_log(), code@, 20));
        assert(labels_days(a.daily@, days@));
    }
    Ok(a)
}

/// The visit statistics of the link under `code` at `now`, for a caller
/// whose `Authorization` header is `auth_header`: refused with
/// `Unauthorized` unless it carries `auth_token`.
pub fn analytics(
    store: &LinkStore,
    auth_token: Option<&str>,
    auth_header: Option<&str>,
    code: &str,
    now: i64,
) -> (r: Result<AnalyticsResponse, ServiceError>)
    requires
        store.wf(),
        store.visit_log().len() <= i64::MAX,
        now >= i64::MIN + 2 * DAILY_WINDOW_SECONDS,
    ensures
        !bearer_ok(opt_view(auth_token), opt_view(auth_header)) ==> r == Err::<
            AnalyticsResponse,
            ServiceError,
        >(ServiceError::Unauthorized),
        bearer_ok(opt_view(auth_token), opt_view(auth_header)) ==> is_report(
            store.view(),
            store.visit_log(),
            code@,
            now as int,
            r,
        ),
{
    match authorize(auth_token, auth_header) {
        Ok(()) => summarize(store, code, now),
        Err(e) => Err(e),
    }
}

} // verus!
