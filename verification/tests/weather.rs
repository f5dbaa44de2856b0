//! The weather of today, of the next days and of past ones.

use std::cell::RefCell;

use chrono::{Datelike, Local};

use receipter::cache::{Cache, Row};
use receipter::date::Date;
use receipter::weather::{
    fetch_forecast, forecast_report, format_forecast, pick_forecast, weather_key_current,
    weather_key_forecast, weather_report, ForecastDay, ForecastDesc, ForecastHour, WttrForecast,
};

fn hour(time: &str, temp: &str, desc: &str, wind: &str, rain: &str) -> ForecastHour {
    ForecastHour {
        time: time.into(),
        temp_c: temp.into(),
        weather_desc: vec![ForecastDesc { value: desc.into() }],
        windspeed_kmph: wind.into(),
        chanceofrain: rain.into(),
    }
}

fn day(date: &str) -> ForecastDay {
    ForecastDay {
        date: date.into(),
        max_temp_c: "24".into(),
        min_temp_c: "13".into(),
        hourly: vec![
            hour("0", "99", "Hail", "99", "99"),
            hour("900", "17", "Sunny ", "12", "5"),
            hour("1200", "23", "Cloudy", "18", "20"),
            hour("2100", "-4", "Clear", "x", ""),
        ],
    }
}

const TEXT: &str = "Weather forecast: London\n\nHigh 24 C  /  Low 13 C\n\n\
    Morning   17 C  Sunny\nMidday    23 C  Cloudy\nNight     -4 C  Clear\n\
    \nWind up to 18 km/h.  Rain 20%.\n";

fn later() -> Date {
    Date { year: 2026, month: 7, day: 16 }
}

fn read(body: &str) -> Result<WttrForecast, String> {
    if body == "json" {
        Ok(WttrForecast { weather: vec![day("2026-07-15"), day("2026-07-16")] })
    } else {
        Err("no forecast".to_string())
    }
}

#[test]
fn a_forecast_shows_four_slots_and_the_worst_of_them() {
    assert_eq!(format_forecast("London", &day("2026-07-16")), TEXT);
}

#[test]
fn a_forecast_is_picked_by_its_date() {
    let data = WttrForecast { weather: vec![day("2026-07-16")] };
    assert_eq!(pick_forecast(&data, "London", later()).as_deref(), Some(TEXT));
    let other = Date { year: 2026, month: 7, day: 20 };
    assert_eq!(pick_forecast(&data, "London", other), None);
}

#[test]
fn the_keys_hold_all_that_was_asked() {
    assert_eq!(weather_key_current("London", 2, later()), "current|London|2|2026-07-16");
    assert_eq!(weather_key_forecast("London", later()), "forecast|London|2026-07-16");
}

#[test]
fn a_forecast_is_asked_for_as_json() {
    let asked = RefCell::new(Vec::new());
    let get = |url: &str| -> Result<String, String> {
        asked.borrow_mut().push(url.to_string());
        Ok("json".to_string())
    };
    assert_eq!(fetch_forecast("London", later(), &get, &read).unwrap().as_deref(), Some(TEXT));
    assert_eq!(*asked.borrow(), vec!["https://wttr.in/London?format=j1".to_string()]);
    let bad = |_: &str| -> Result<String, String> { Ok("html".to_string()) };
    assert_eq!(fetch_forecast("London", later(), &bad, &read), Err("no forecast".to_string()));
}

fn today() -> Date {
    let d = Local::now().date_naive();
    Date { year: d.year(), month: d.month(), day: d.day() }
}

/// A day ahead of the clock, and the answer of the service about it.
fn ahead() -> (Date, Date) {
    let today = today();
    (today, Date { year: today.year + 1, month: 6, day: 1 })
}

#[test]
fn a_kept_forecast_stands_in_for_a_failed_request() {
    let target = Date { year: 2999, month: 1, day: 1 };
    let row = |text: &str| Row {
        kind: "forecast".into(),
        key: weather_key_forecast("London", target),
        for_date: Some(target),
        requested_at: "2020-01-01T00:00:00+00:00".into(),
        response: text.into(),
    };
    let rows = vec![row("older"), row("newer")];
    let mut cache = Some(Cache::from_rows(rows, 30, false));
    let down = |_: &str| -> Result<String, String> { Err("offline".to_string()) };
    let got = forecast_report(&mut cache, "London", target, &down, &read).unwrap();
    assert_eq!(got.as_deref(), Some("newer"));
    let c = cache.as_ref().unwrap();
    assert_eq!(c.rows.len(), 2);
    assert_eq!(c.fallbacks.len(), 1);
    assert_eq!(c.fallbacks[0].message(), "forecast fetch failed (offline); using cached copy");
    let shown = weather_report(
        &mut cache, "London", 0, target, Date { year: 2026, month: 7, day: 15 }, &down, &read,
    );
    assert_eq!(shown, Ok("newer".to_string()));

    let mut empty = Some(Cache::from_rows(vec![], 30, false));
    let got = forecast_report(&mut empty, "London", target, &down, &read);
    assert_eq!(got, Err("offline".to_string()));
}

#[test]
fn a_forecast_is_kept_and_served_again() {
    let (_, target) = ahead();
    let name = format!("{}-06-01", target.year);
    let read = |_: &str| -> Result<WttrForecast, String> {
        Ok(WttrForecast { weather: vec![day(&name)] })
    };
    let get = |_: &str| -> Result<String, String> { Ok("json".to_string()) };
    let none = |_: &str| -> Result<String, String> { Err("asked again".to_string()) };
    let mut cache = Some(Cache::from_rows(vec![], 60, false));
    let a = forecast_report(&mut cache, "London", target, &get, &read).unwrap();
    let b = forecast_report(&mut cache, "London", target, &none, &read).unwrap();
    assert_eq!(a.as_deref(), Some(TEXT));
    assert_eq!(b.as_deref(), Some(TEXT));
    // Once the day has passed, the forecast is what there is.
    let after = Date { year: target.year, month: 6, day: 2 };
    let past = weather_report(&mut cache, "London", 0, target, after, &none, &read).unwrap();
    assert_eq!(past, TEXT);
}

#[test]
fn today_is_shown_as_it_comes() {
    let today = today();
    let asked = RefCell::new(Vec::new());
    let get = |url: &str| -> Result<String, String> {
        asked.borrow_mut().push(url.to_string());
        Ok("sunny".to_string())
    };
    let mut cache = Some(Cache::from_rows(vec![], 60, false));
    for _ in 0..2 {
        let got = weather_report(&mut cache, "London", 1, today, today, &get, &read).unwrap();
        assert_eq!(got, "sunny");
    }
    assert_eq!(*asked.borrow(), vec!["https://wttr.in/London?1T".to_string()]);
    // The same day, seen from a later one.
    let after = Date { year: today.year + 1, month: 1, day: 1 };
    let none = |_: &str| -> Result<String, String> { Err("asked again".to_string()) };
    let past = weather_report(&mut cache, "London", 1, today, after, &none, &read).unwrap();
    assert_eq!(past, "sunny");
}

#[test]
fn a_day_too_far_ahead_or_long_gone_has_no_weather() {
    let (today, target) = ahead();
    let get = |_: &str| -> Result<String, String> { Ok("json".to_string()) };
    let mut cache = None;
    let far = weather_report(&mut cache, "London", 0, target, today, &get, &read).unwrap();
    assert_eq!(
        far,
        "No weather available for this date.\n(wttr.in only forecasts the next few days.)"
    );
    let past = weather_report(&mut cache, "London", 0, today, target, &get, &read).unwrap();
    assert_eq!(past, "No weather stored for this past date.");
    let down = |_: &str| -> Result<String, String> { Err("down".to_string()) };
    let err = weather_report(&mut cache, "London", 0, target, today, &down, &read);
    assert_eq!(err, Err("down".to_string()));
}
