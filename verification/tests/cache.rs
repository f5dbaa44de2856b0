//! The record of calls: what is served from it, and for how long.

use std::cell::Cell;

use chrono::{Datelike, Local};

use receipter::cache::{cached, Cache, Row};
use receipter::date::{Date, Stamp};

fn mem(ttl_minutes: i64, refresh: bool) -> Cache {
    Cache::from_rows(vec![], ttl_minutes, refresh)
}

fn yesterday() -> Date {
    let d = Local::now().date_naive() - chrono::Days::new(1);
    Date { year: d.year(), month: d.month(), day: d.day() }
}

/// A reading of the clock at the given minute of 1 August 2026, 10:00 UTC.
fn at(minute: u32) -> Stamp {
    let text = format!("2026-08-01T10:{minute:02}:00+00:00");
    let t = chrono::DateTime::parse_from_rfc3339(&text).unwrap();
    Stamp {
        secs: t.timestamp(),
        nanos: 0,
        date: Date { year: 2026, month: 8, day: 1 },
        offset: 0,
        text,
    }
}

#[test]
fn serves_a_fresh_hit_without_refetching() {
    let mut cache = mem(60, false);
    let calls = Cell::new(0);

    let a = cache
        .get_or_fetch("weather", "k", None, false, || {
            calls.set(calls.get() + 1);
            Ok::<String, String>("body".to_string())
        })
        .unwrap();
    let b = cache
        .get_or_fetch("weather", "k", None, false, || {
            calls.set(calls.get() + 1);
            Ok::<String, String>("body2".to_string())
        })
        .unwrap();

    assert_eq!(a, "body");
    assert_eq!(b, "body"); // second call served from cache
    assert_eq!(calls.get(), 1);
}

#[test]
fn expired_entries_refetch() {
    let mut cache = mem(0, false); // nothing is ever "fresh"
    let calls = Cell::new(0);
    for _ in 0..2 {
        cache
            .get_or_fetch("weather", "k", None, false, || {
                calls.set(calls.get() + 1);
                Ok::<String, String>("body".to_string())
            })
            .unwrap();
    }
    assert_eq!(calls.get(), 2);
}

#[test]
fn past_dates_are_served_from_history() {
    let mut cache = mem(0, false); // expired for live, but past dates persist
    let yesterday = yesterday();
    cache.store("weather", "k", Some(yesterday), "old");

    let hit = cache.get_fresh("weather", "k", Some(yesterday), false);
    assert_eq!(hit.as_deref(), Some("old"));
}

#[test]
fn falls_back_to_cache_on_fetch_error() {
    let mut cache = mem(0, false);
    cache.store("train", "k", None, "cached");
    let got = cache
        .get_or_fetch("train", "k", None, false, || Err("network down".to_string()))
        .unwrap();
    assert_eq!(got, "cached");
    assert_eq!(cache.fallbacks.len(), 1);
    assert_eq!(cache.fallbacks[0].kind, "train");
    assert_eq!(cache.fallbacks[0].reason, "network down");
    assert_eq!(
        cache.fallbacks[0].message(),
        "train fetch failed (network down); using cached copy"
    );
}

#[test]
fn a_failure_with_nothing_recorded_is_a_failure() {
    let mut cache = mem(60, false);
    let got = cache.get_or_fetch("train", "k", None, false, || Err("network down".to_string()));
    assert_eq!(got, Err("network down".to_string()));
    assert!(cache.rows.is_empty());
    assert!(cache.fallbacks.is_empty());
}

#[test]
fn reads_back_the_newest_of_each_kind_and_key() {
    let mut cache = mem(60, false);
    cache.store("weather", "k", None, "one");
    cache.store("weather", "k", None, "two");
    cache.store("forecast", "k", None, "three");
    assert_eq!(cache.lookup("weather", "k").as_deref(), Some("two"));
    assert_eq!(cache.lookup("forecast", "k").as_deref(), Some("three"));
    assert_eq!(cache.lookup("weather", "other"), None);
}

#[test]
fn an_entry_is_fresh_for_less_than_its_time_to_live() {
    let mut cache = mem(30, false);
    cache.store_at("weather", "k", None, "body", &at(0));
    assert_eq!(cache.get_fresh_at("weather", "k", None, false, &at(29)).as_deref(), Some("body"));
    assert_eq!(cache.get_fresh_at("weather", "k", None, false, &at(30)), None);
    // What never changes is fresh for good.
    assert_eq!(cache.get_fresh_at("weather", "k", None, true, &at(59)).as_deref(), Some("body"));
}

#[test]
fn a_refresh_ignores_all_but_the_past() {
    let mut cache = mem(30, true);
    cache.store_at("weather", "k", None, "body", &at(0));
    assert_eq!(cache.get_fresh_at("weather", "k", None, false, &at(1)), None);
    assert_eq!(cache.get_fresh_at("weather", "k", None, true, &at(1)), None);
    let past = Some(Date { year: 2026, month: 7, day: 31 });
    cache.store_at("weather", "p", past, "old", &at(0));
    assert_eq!(cache.get_fresh_at("weather", "p", past, false, &at(1)).as_deref(), Some("old"));
}

#[test]
fn an_unreadable_time_counts_as_now() {
    let rows = vec![Row {
        kind: "weather".into(),
        key: "k".into(),
        for_date: None,
        requested_at: "some time ago".into(),
        response: "body".into(),
    }];
    let mut cache = Cache::from_rows(rows, 30, false);
    assert_eq!(cache.get_fresh_at("weather", "k", None, false, &at(0)).as_deref(), Some("body"));
    cache.ttl_minutes = 0;
    assert_eq!(cache.get_fresh_at("weather", "k", None, false, &at(0)), None);
}

#[test]
fn without_a_cache_every_call_is_made() {
    let mut none = None;
    let got = cached(&mut none, "weather", "k", None, false, || Ok::<String, String>("x".into()));
    assert_eq!(got.unwrap(), "x");
    let mut some = Some(mem(60, false));
    for _ in 0..2 {
        let got =
            cached(&mut some, "weather", "k", None, false, || Ok::<String, String>("y".into()));
        assert_eq!(got.unwrap(), "y");
    }
    assert_eq!(some.unwrap().rows.len(), 1);
}

#[test]
fn outcomes_are_settled_by_the_record() {
    let mut cache = mem(60, false);
    let good = cache.settle("train", "k", None, Ok::<String, String>("new".into()), &at(0));
    assert_eq!(good.unwrap(), "new");
    assert_eq!(cache.rows[0].requested_at, "2026-08-01T10:00:00+00:00");
    let bad = cache.settle("train", "k", None, Err::<String, String>("down".into()), &at(1));
    assert_eq!(bad.unwrap(), "new");
    assert_eq!(cache.rows.len(), 1);
}
