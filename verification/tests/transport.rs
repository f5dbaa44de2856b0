//! Stations, stops and their departures.

use std::cell::RefCell;

use receipter::cache::Cache;
use receipter::date::{Date, Time};
use receipter::transport::boards::{
    apply_time_window, bus_departures, push_departures, route_matches, train_departures,
    train_status, BusDeparture, BusDeps, BusLive, Departure, TrainDeparture, TrainDeps, TrainGroup,
    TrainLive, When,
};
use receipter::transport::departures::{
    departures_report, fetch_bus_departures, fetch_train_departures, nearby_departures,
};
use receipter::transport::names::{cached_name, remember_name, remember_names};
use receipter::transport::places::{append_listing, nearest, stops_text, Code, Distance, Place};
use receipter::transport::service::{cached_get, redact};
use receipter::transport::stops::{
    choose_stops, fetch_places_of_type, geocode_postcode, list_stops, resolve_location,
    select_stops, stops_from,
};
use receipter::transport::{
    default_count, postcode_for, postcode_from_address, stop_header, Board, LocateError, Point,
    TransportSettings, BUS_ICON, TRAIN_ICON,
};

/// Great-circle distance in metres.
fn haversine(lat1: f64, lon1: f64, lat2: f64, lon2: f64) -> f64 {
    let (p1, p2) = (lat1.to_radians(), lat2.to_radians());
    let dlat = (lat2 - lat1).to_radians();
    let dlon = (lon2 - lon1).to_radians();
    let a = (dlat / 2.0).sin().powi(2) + p1.cos() * p2.cos() * (dlon / 2.0).sin().powi(2);
    2.0 * 6_371_000.0 * a.sqrt().asin()
}

/// A place, seen from 51.41 north and 0.02 west.
fn place(kind: &str, name: &str, lat: f64, lon: f64) -> Place {
    let metres = haversine(51.41, -0.02, lat, lon);
    Place {
        kind: kind.to_string(),
        name: Some(name.to_string()),
        description: None,
        distance: Some(Distance {
            rank: metres.to_bits() as i64,
            label: format!("{:.1} km", metres / 1000.0),
        }),
        station_code: None,
        atcocode: None,
    }
}

fn dep(time: &str) -> Departure {
    Departure {
        time: time.to_string(),
        to: "Somewhere".to_string(),
        note: String::new(),
    }
}

fn nine() -> When {
    When {
        date: Date { year: 2026, month: 7, day: 16 },
        time: Time { hour: 9, minute: 0 },
    }
}

#[test]
fn parses_postcode_from_address() {
    assert_eq!(
        postcode_from_address("11 Example Street, Townsville, AB1 2CD").as_deref(),
        Some("AB1 2CD")
    );
    assert_eq!(postcode_from_address("").as_deref(), None);
}

#[test]
fn keeps_the_closest_places_of_a_kind() {
    let places = vec![
        place("train_station", "Far", 51.60, -0.10),
        place("train_station", "Near", 51.41, -0.02),
        place("bus_stop", "Stop", 51.41, -0.02),
    ];
    let got = nearest(&places, "train_station", 1);
    assert_eq!(got.len(), 1);
    assert_eq!(got[0].name.as_deref(), Some("Near"));
}

#[test]
fn time_window_drops_earlier_departures() {
    let mut deps = vec![dep("08:50"), dep("09:05"), dep("09:20")];
    apply_time_window(&mut deps, Some(nine()));
    let times: Vec<&str> = deps.iter().map(|d| d.time.as_str()).collect();
    assert_eq!(times, vec!["09:05", "09:20"]);
}

#[test]
fn route_filter_matches_line_or_line_name() {
    let bus = BusDeparture {
        line: Some("162".into()),
        line_name: Some("162".into()),
        direction: None,
        aimed_departure_time: None,
        expected_departure_time: None,
        best_departure_estimate: None,
    };
    assert!(route_matches(&[], &bus));
    assert!(route_matches(&["162".into()], &bus));
    assert!(!route_matches(&["54".into()], &bus));
}

#[test]
fn without_a_time_departures_are_only_put_in_order() {
    let mut deps = vec![dep("09:20"), dep("08:50"), dep("09:05")];
    apply_time_window(&mut deps, None);
    let times: Vec<&str> = deps.iter().map(|d| d.time.as_str()).collect();
    assert_eq!(times, vec!["08:50", "09:05", "09:20"]);
}

#[test]
fn places_without_a_distance_are_never_near() {
    let mut lost = place("bus_stop", "Lost", 51.41, -0.02);
    lost.distance = None;
    let all = vec![lost, place("bus_stop", "Far", 51.50, -0.02)];
    let got = nearest(&all, "bus_stop", 5);
    assert_eq!(got.len(), 1);
    assert_eq!(got[0].name.as_deref(), Some("Far"));
}

#[test]
fn the_name_of_a_place() {
    let mut p = place("bus_stop", "High Street", 51.41, -0.02);
    assert_eq!(p.display_name(), "High Street");
    p.description = Some("Townsville".into());
    assert_eq!(p.display_name(), "High Street, Townsville");
    p.description = Some("High Street".into());
    assert_eq!(p.display_name(), "High Street");
    p.name = None;
    p.description = Some("By the church".into());
    assert_eq!(p.display_name(), "By the church");
    p.description = None;
    assert_eq!(p.display_name(), "(unnamed)");
}

fn labelled(kind: &str, name: &str, rank: i64, label: &str, code: &str) -> Place {
    Place {
        kind: kind.to_string(),
        name: Some(name.to_string()),
        description: None,
        distance: Some(Distance { rank, label: label.to_string() }),
        station_code: if kind == "train_station" { Some(code.to_string()) } else { None },
        atcocode: if kind == "bus_stop" { Some(code.to_string()) } else { None },
    }
}

fn stations() -> Vec<Place> {
    vec![
        labelled("train_station", "Riverside", 900, "0.9 km", "XYZ"),
        labelled("train_station", "Central Station", 300, "0.3 km", "ABC"),
    ]
}

fn bus_stops() -> Vec<Place> {
    vec![labelled("bus_stop", "High Street", 100, "0.1 km", "490000000A")]
}

#[test]
fn a_listing_shows_codes_and_distances() {
    assert_eq!(
        stops_text(&stations(), &bus_stops()),
        "Nearest train stations  (station_codes = CRS)\n\
         \x20 ABC   0.3 km  Central Station\n\
         \x20 XYZ   0.9 km  Riverside\n\
         \nNearest bus stops  (bus_stop_codes = ATCO)\n\
         \x20 490000000A   0.1 km  High Street\n"
    );
    let mut out = String::new();
    append_listing(&mut out, &stations(), "bus_stop", Code::Stop);
    assert_eq!(out, "  (none found nearby)\n");
}

#[test]
fn headings_fit_the_columns() {
    assert_eq!(stop_header(false, TRAIN_ICON, "train", "Central", 40), "Central (train)");
    assert_eq!(stop_header(true, BUS_ICON, "bus", "High Street", 40), "\u{f207}  High Street");
    assert_eq!(stop_header(false, TRAIN_ICON, "train", "Central Station", 15), "Centra\u{2026} (train)");
    assert_eq!(stop_header(true, TRAIN_ICON, "train", "Central Station", 10), "\u{f238}  Centr\u{2026}");
}

#[test]
fn the_line_of_a_departure() {
    let mut d = dep("09:05");
    assert_eq!(d.line(40), "  09:05  Somewhere");
    d.note = "exp 09:10".into();
    assert_eq!(d.line(40), "  09:05  Somewhere  exp 09:10");
    assert_eq!(d.line(25), "  09:05  Some\u{2026}  exp 09:10");
}

#[test]
fn departures_are_listed_up_to_the_limit() {
    let mut out = String::new();
    push_departures(&mut out, &[], 3, 40);
    assert_eq!(out, "  (no departures)\n");
    out.clear();
    push_departures(&mut out, &[dep("09:05"), dep("09:20")], 1, 40);
    assert_eq!(out, "  09:05  Somewhere\n");
}

fn train(aimed: &str, expected: Option<&str>, status: Option<&str>) -> TrainDeparture {
    TrainDeparture {
        aimed_departure_time: Some(aimed.into()),
        expected_departure_time: expected.map(str::to_string),
        status: status.map(str::to_string),
        platform: Some("2".into()),
        destination_name: Some("London".into()),
    }
}

#[test]
fn what_is_said_of_a_train() {
    assert_eq!(train_status(&train("09:00", None, None)), "on time");
    assert_eq!(train_status(&train("09:00", Some("09:00"), None)), "on time");
    assert_eq!(train_status(&train("09:00", Some("09:08"), None)), "exp 09:08");
    assert_eq!(train_status(&train("09:00", Some("09:08"), Some("Cancelled"))), "Cancelled");
}

#[test]
fn boards_are_read_whether_grouped_or_not() {
    let grouped = TrainDeps::Grouped(TrainGroup { all: vec![train("09:10", None, None)] });
    assert_eq!(grouped.into_vec().len(), 1);
    let flat = TrainDeps::Flat(vec![train("09:10", None, None), train("08:10", None, None)]);
    let got = train_departures(flat, Some(nine()));
    assert_eq!(got.len(), 1);
    assert_eq!(got[0].note, "Plat 2  on time");
    assert_eq!(TrainDeps::default().into_vec().len(), 0);
    assert_eq!(BusDeps::default().into_vec().len(), 0);
}

fn bus(line: &str, aimed: &str, best: Option<&str>, expected: Option<&str>) -> BusDeparture {
    BusDeparture {
        line: Some(line.into()),
        line_name: None,
        direction: Some("Town".into()),
        aimed_departure_time: Some(aimed.into()),
        expected_departure_time: expected.map(str::to_string),
        best_departure_estimate: best.map(str::to_string),
    }
}

#[test]
fn buses_are_filtered_and_timed_by_the_best_estimate() {
    let board = BusDeps::Grouped(vec![
        ("54".into(), vec![bus("54", "09:30", None, None)]),
        ("162".into(), vec![bus("162", "09:10", Some("09:12"), Some("09:12"))]),
    ]);
    let got = bus_departures(board, &["162".to_string()], None);
    assert_eq!(got.len(), 1);
    assert_eq!(got[0].time, "09:12");
    assert_eq!(got[0].to, "162 Town");
    assert_eq!(got[0].note, "exp 09:12");
}

fn settings() -> TransportSettings {
    TransportSettings {
        app_id: "id".into(),
        app_key: "k3y".into(),
        postcode: None,
        point: None,
        stations: 1,
        bus_stops: 1,
        departures: 3,
        station_codes: vec![],
        bus_stop_codes: vec![],
        routes: vec![],
    }
}

fn point() -> Point {
    Point {
        lat: "51.41".into(),
        lon: "-0.02".into(),
        lat4: "51.4100".into(),
        lon4: "-0.0200".into(),
    }
}

#[test]
fn keys_are_redacted_before_they_are_kept() {
    assert_eq!(redact("a k3y b k3y", "k3y"), "a APP_KEY b APP_KEY");
    assert_eq!(redact("abc", ""), "abc");
    let mut cache = Some(Cache::from_rows(vec![], 60, false));
    let get = |_: &str| -> Result<String, String> { Ok("url?app_key=k3y".to_string()) };
    let got = cached_get(&mut cache, "train", "k", None, false, "url", "k3y", &get).unwrap();
    assert_eq!(got, "url?app_key=APP_KEY");
    assert_eq!(cache.unwrap().rows[0].response, "url?app_key=APP_KEY");
}

#[test]
fn names_are_remembered_once() {
    let mut cache = Some(Cache::from_rows(vec![], 60, false));
    remember_name(&mut cache, "ABC", "Central");
    remember_name(&mut cache, "ABC", "Central");
    assert_eq!(cached_name(&cache, "ABC").as_deref(), Some("Central"));
    assert_eq!(cached_name(&cache, "XYZ"), None);
    assert_eq!(cache.as_ref().unwrap().rows.len(), 1);
    remember_names(&mut cache, &bus_stops());
    assert_eq!(cached_name(&cache, "490000000A").as_deref(), Some("High Street"));
    assert_eq!(cached_name(&None, "ABC"), None);
}

#[test]
fn a_postcode_is_found_on_the_map_once() {
    let asked = RefCell::new(Vec::new());
    let get = |url: &str| -> Result<String, String> {
        asked.borrow_mut().push(url.to_string());
        Ok("there".to_string())
    };
    let read = |body: &str| -> Result<Option<Point>, String> {
        assert_eq!(body, "there");
        Ok(Some(point()))
    };
    let mut cache = Some(Cache::from_rows(vec![], 0, false));
    for _ in 0..2 {
        let got = geocode_postcode("AB1 2CD", &mut cache, &get, &read).unwrap();
        assert_eq!(got.lat, "51.41");
    }
    assert_eq!(*asked.borrow(), vec!["https://api.postcodes.io/postcodes/AB12CD".to_string()]);
    let nowhere = |_: &str| -> Result<Option<Point>, String> { Ok(None) };
    let err = geocode_postcode("ZZ9 9ZZ", &mut None, &get, &nowhere).unwrap_err();
    assert!(err.message().unwrap().contains("ZZ9 9ZZ"));
    assert!(matches!(err, LocateError::UnknownPostcode(_)));
}

#[test]
fn a_place_in_the_settings_needs_no_lookup() {
    let get = |_: &str| -> Result<String, String> { Err("asked".to_string()) };
    let read = |_: &str| -> Result<Option<Point>, String> { Ok(None) };
    let mut cfg = settings();
    cfg.point = Some(point());
    let got = resolve_location(&cfg, "", &mut None, &get, &read).unwrap();
    assert_eq!(got.lon, "-0.02");
    cfg.point = None;
    let err = resolve_location(&cfg, "", &mut None, &get, &read).unwrap_err();
    assert!(matches!(err, LocateError::NoPostcode));
    assert!(err.message().unwrap().contains("postcode"));
    cfg.postcode = Some("AB1 2CD".into());
    let err = resolve_location(&cfg, "", &mut None, &get, &read).unwrap_err();
    assert!(matches!(&err, LocateError::Outside(e) if e == "asked"));
    assert_eq!(err.message(), None);
    assert_eq!(postcode_for(&None, "1 Road, AB1 2CD").as_deref(), Some("AB1 2CD"));
    assert_eq!(postcode_for(&Some("X".into()), "1 Road, AB1 2CD").as_deref(), Some("X"));
}

#[test]
fn places_are_asked_for_by_kind() {
    let asked = RefCell::new(Vec::new());
    let get = |url: &str| -> Result<String, String> {
        asked.borrow_mut().push(url.to_string());
        Ok("places".to_string())
    };
    let read = |_: &str, _: &Point| -> Result<Vec<Place>, String> { Ok(stations()) };
    let mut cache = Some(Cache::from_rows(vec![], 0, false));
    let got =
        fetch_places_of_type(&settings(), &point(), "train_station", 4, &mut cache, &get, &read)
            .unwrap();
    assert_eq!(got.len(), 2);
    assert_eq!(
        *asked.borrow(),
        vec![
            "https://transportapi.com/v3/uk/places.json?lat=51.41&lon=-0.02\
             &type=train_station&limit=4&app_id=id&app_key=k3y"
                .to_string()
        ]
    );
    // The names are remembered, and the key of the entry does not hold the secret.
    assert_eq!(cached_name(&cache, "XYZ").as_deref(), Some("Riverside"));
    assert!(cache.unwrap().rows.iter().all(|r| !r.key.contains("k3y")));
}

#[test]
fn stops_that_are_named_replace_the_search() {
    let codes = vec!["ABC".to_string()];
    let pinned = stops_from(&codes, &stations(), "train_station", Code::Station, 3);
    assert_eq!(pinned.len(), 1);
    assert_eq!((pinned[0].id.as_str(), pinned[0].name.as_deref()), ("ABC", None));
    let found = stops_from(&vec![], &stations(), "train_station", Code::Station, 1);
    assert_eq!(found[0].id, "ABC");
    assert_eq!(found[0].name.as_deref(), Some("Central Station"));
    let (trains, buses) = choose_stops::<String>(&settings(), &stations(), &bus_stops()).unwrap();
    assert_eq!((trains.len(), buses.len()), (1, 1));
}

#[test]
fn nothing_is_looked_up_where_all_stops_are_named() {
    let get = |_: &str| -> Result<String, String> { Err("asked".to_string()) };
    let read = |_: &str| -> Result<Option<Point>, String> { Ok(None) };
    let places = |_: &str, _: &Point| -> Result<Vec<Place>, String> { Ok(vec![]) };
    let mut cfg = settings();
    cfg.station_codes = vec!["ABC".into()];
    cfg.bus_stop_codes = vec!["490000000A".into()];
    let (trains, buses) = select_stops(&cfg, "", &mut None, &get, &read, &places).unwrap();
    assert_eq!((trains.len(), buses.len()), (1, 1));
    cfg.bus_stop_codes = vec![];
    assert!(select_stops(&cfg, "", &mut None, &get, &read, &places).is_err());
}

/// An answer of the service to an address.
fn answer(url: &str) -> Result<String, String> {
    if url.contains("/train/station/ABC/") {
        Ok("train".to_string())
    } else if url.contains("places.json") {
        Ok(if url.contains("train_station") { "stations" } else { "stops" }.to_string())
    } else if url.contains("postcodes.io") {
        Ok("point".to_string())
    } else {
        Err("over quota".to_string())
    }
}

fn read_point(_: &str) -> Result<Option<Point>, String> {
    Ok(Some(point()))
}

fn read_places(body: &str, _: &Point) -> Result<Vec<Place>, String> {
    Ok(if body == "stations" { stations() } else { bus_stops() })
}

fn read_train(_: &str) -> Result<TrainLive, String> {
    Ok(TrainLive {
        station_name: Some("Central".into()),
        departures: TrainDeps::Flat(vec![train("09:10", None, None)]),
    })
}

fn read_bus(_: &str) -> Result<BusLive, String> {
    Ok(BusLive { stop_name: None, departures: BusDeps::Flat(vec![]) })
}

#[test]
fn a_board_that_fails_does_not_stop_the_others() {
    let mut cache = Some(Cache::from_rows(vec![], 60, false));
    let (text, failed) = nearby_departures(
        &settings(), "1 Road, AB1 2CD", Some(nine()), &mut cache, 40, false, &answer, &read_point,
        &read_places, &read_train, &read_bus,
    )
    .unwrap();
    assert_eq!(
        text,
        "Central Station (train)\n  09:10  London  Plat 2  on time\n\n\
         High Street (bus)\n  (departures unavailable)\n"
    );
    assert_eq!(failed.len(), 1);
    assert_eq!(failed[0], ("490000000A".to_string(), "over quota".to_string()));
}

#[test]
fn stops_are_listed_with_their_codes() {
    let got =
        list_stops(&settings(), "1 Road, AB1 2CD", &mut None, &answer, &read_point, &read_places)
            .unwrap();
    assert!(got.contains("  ABC   0.3 km  Central Station\n"));
}

#[test]
fn boards_are_asked_for_live_or_by_the_timetable() {
    let asked = RefCell::new(Vec::new());
    let get = |url: &str| -> Result<String, String> {
        asked.borrow_mut().push(url.to_string());
        Ok(String::new())
    };
    let cfg = settings();
    let (name, deps) =
        fetch_train_departures(&cfg, "ABC", Some(nine()), &mut None, &get, &read_train).unwrap();
    assert_eq!(name.as_deref(), Some("Central"));
    assert_eq!(deps.len(), 1);
    assert!(fetch_train_departures(&cfg, "ABC", None, &mut None, &get, &read_train).is_ok());
    assert!(fetch_bus_departures(&cfg, "490", Some(nine()), &mut None, &get, &read_bus).is_ok());
    assert!(fetch_bus_departures(&cfg, "490", None, &mut None, &get, &read_bus).is_ok());
    assert_eq!(
        *asked.borrow(),
        vec![
            "https://transportapi.com/v3/uk/train/station/ABC/2026-07-16/09:00/timetable.json\
             ?app_id=id&app_key=k3y&train_status=passenger",
            "https://transportapi.com/v3/uk/train/station/ABC/live.json\
             ?app_id=id&app_key=k3y&train_status=passenger",
            "https://transportapi.com/v3/uk/bus/stop/490/timetable.json\
             ?date=2026-07-16&app_id=id&app_key=k3y&group=route&nextbuses=no",
            "https://transportapi.com/v3/uk/bus/stop/490/live.json\
             ?app_id=id&app_key=k3y&group=route&nextbuses=no",
        ]
    );
}

#[test]
fn a_report_without_stops_says_so() {
    let text = departures_report(&vec![], &vec![], 3, 40, true);
    assert_eq!(text, "No stations or bus stops configured or found nearby.\n");
    let boards = vec![Board { name: "Central".into(), departures: Some(vec![]) }];
    let text = departures_report(&boards, &vec![], 3, 40, true);
    assert_eq!(text, "\u{f238}  Central\n  (no departures)\n");
    assert_eq!(default_count(), 3);
}
