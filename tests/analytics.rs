use cutl::models::VisitInfo;
use cutl::report::{analytics, summarize};
use cutl::service::ServiceError;
use cutl::store::LinkStore;

fn info(ip: Option<&str>, country: Option<&str>, city: Option<&str>, ua: Option<&str>, referer: Option<&str>) -> VisitInfo {
    VisitInfo {
        ip: ip.map(|s| s.to_string()),
        country: country.map(|s| s.to_string()),
        city: city.map(|s| s.to_string()),
        user_agent: ua.map(|s| s.to_string()),
        referer: referer.map(|s| s.to_string()),
    }
}

#[test]
fn test_insert_and_count_visits() {
    let mut store = LinkStore::new();
    store.insert_link("abc", "https://example.com", 9999999999, 1000000000).unwrap();
    store.insert_visit(
        "abc",
        1000000001,
        info(Some("1.2.3.4"), Some("US"), Some("New York"), Some("Mozilla/5.0"), None),
    );
    store.insert_visit(
        "abc",
        1000000002,
        info(Some("5.6.7.8"), Some("ID"), Some("Jakarta"), None, Some("https://twitter.com/")),
    );
    store.insert_visit("abc", 1000000003, info(None, None, None, None, None));
    assert_eq!(store.count_visits("abc"), 3);
}

#[test]
fn test_visits_by_country() {
    let mut store = LinkStore::new();
    store.insert_link("xyz", "https://example.com", 9999999999, 1000000000).unwrap();
    store.insert_visit("xyz", 1000000001, info(None, Some("ID"), None, None, None));
    store.insert_visit("xyz", 1000000002, info(None, Some("ID"), None, None, None));
    store.insert_visit("xyz", 1000000003, info(None, Some("US"), None, None, None));
    let rows = store.visits_by_country("xyz");
    assert_eq!(rows.len(), 2);
    assert_eq!(rows[0].0, Some("ID".to_string()));
    assert_eq!(rows[0].1, 2);
    assert_eq!(rows[1].0, Some("US".to_string()));
    assert_eq!(rows[1].1, 1);
}

#[test]
fn country_counts_after_us_then_id_twice() {
    let mut store = LinkStore::new();
    store.insert_link("abc", "https://example.com", 9999999999, 1000000000).unwrap();
    store.insert_visit("abc", 1000000001, info(None, Some("US"), None, None, None));
    store.insert_visit("abc", 1000000002, info(None, Some("ID"), None, None, None));
    store.insert_visit("abc", 1000000003, info(None, Some("ID"), None, None, None));
    store.insert_visit("other", 1000000004, info(None, Some("US"), None, None, None));
    let rows = store.visits_by_country("abc");
    assert_eq!(rows, vec![(Some("ID".to_string()), 2), (Some("US".to_string()), 1)]);
}

#[test]
fn referer_counts_keep_absent_as_a_group() {
    let mut store = LinkStore::new();
    store.insert_visit("r", 1, info(None, None, None, None, None));
    store.insert_visit("r", 2, info(None, None, None, None, Some("https://t.co/")));
    store.insert_visit("r", 3, info(None, None, None, None, None));
    let rows = store.visits_by_referer("r");
    assert_eq!(rows, vec![(None, 2), (Some("https://t.co/".to_string()), 1)]);
}

#[test]
fn daily_counts_newest_day_first_within_window() {
    let mut store = LinkStore::new();
    let day = 86400;
    store.insert_visit("d", 100 * day + 5, info(None, None, None, None, None));
    store.insert_visit("d", 101 * day + 7, info(None, None, None, None, None));
    store.insert_visit("d", 101 * day + 9, info(None, None, None, None, None));
    store.insert_visit("d", 50 * day, info(None, None, None, None, None));
    let rows = store.visits_daily("d", 90 * day);
    assert_eq!(rows, vec![(101, 2), (100, 1)]);
}

#[test]
fn recent_visits_newest_first_at_most_twenty() {
    let mut store = LinkStore::new();
    for t in 0..25 {
        store.insert_visit("q", 1000 + (t * 7) % 25, info(None, None, None, None, None));
    }
    store.insert_visit("other", 5000, info(None, None, None, None, None));
    let rows = store.recent_visits("q");
    assert_eq!(rows.len(), 20);
    assert_eq!(rows[0].visited_at, 1024);
    assert_eq!(rows[19].visited_at, 1005);
    for w in rows.windows(2) {
        assert!(w[0].visited_at >= w[1].visited_at);
    }
}

#[test]
fn summarize_reports_a_live_link() {
    let mut store = LinkStore::new();
    store.insert_link("testcode", "https://example.com", 9999999999, 1000000000).unwrap();
    store.insert_visit("testcode", 1700000000, info(None, Some("US"), None, None, Some("https://a.example/")));
    store.insert_visit("testcode", 1700086400, info(None, Some("US"), None, None, None));
    let report = summarize(&store, "testcode", 1700100000).unwrap();
    assert_eq!(report.code, "testcode");
    assert_eq!(report.original_url, "https://example.com");
    assert_eq!(report.total_visits, 2);
    assert_eq!(report.countries.len(), 1);
    assert_eq!(report.countries[0].count, 2);
    assert_eq!(report.referers.len(), 2);
    assert_eq!(report.daily.len(), 2);
    assert_eq!(report.daily[0].date, "2023-11-15");
    assert_eq!(report.daily[1].date, "2023-11-14");
    assert_eq!(report.recent_visits.len(), 2);
    assert_eq!(report.recent_visits[0].visited_at, 1700086400);
}

#[test]
fn summarize_refuses_absent_and_expired() {
    let mut store = LinkStore::new();
    assert_eq!(summarize(&store, "noexist", 0).unwrap_err(), ServiceError::NotFound);
    store.insert_link("gone", "https://example.com", 100, 0).unwrap();
    assert!(summarize(&store, "gone", 100).is_ok());
    assert_eq!(summarize(&store, "gone", 101).unwrap_err(), ServiceError::NotFound);
}

#[test]
fn test_analytics_not_found() {
    let store = LinkStore::new();
    assert_eq!(summarize(&store, "noexist", 1700000000).unwrap_err(), ServiceError::NotFound);
}

#[test]
fn test_analytics_returns_counts() {
    let mut store = LinkStore::new();
    store.insert_link("testcode", "https://example.com", 9999999999, 1000000000).unwrap();
    for now in [1700000000, 1700000001] {
        let url = cutl::service::redirect(&mut store, "testcode", now, info(None, None, None, None, None));
        assert_eq!(url, Ok("https://example.com".to_string()));
    }
    let report = analytics(&store, None, None, "testcode", 1700000002).unwrap();
    assert_eq!(report.total_visits, 2);
}

#[test]
fn analytics_asks_for_the_token() {
    let mut store = LinkStore::new();
    store.insert_link("k", "https://example.com", 9999999999, 0).unwrap();
    assert_eq!(analytics(&store, Some("t"), None, "k", 1000).unwrap_err(), ServiceError::Unauthorized);
    assert_eq!(analytics(&store, Some("t"), Some("Bearer t"), "k", 1000).unwrap().total_visits, 0);
    assert!(analytics(&store, None, None, "k", 1000).is_ok());
}
