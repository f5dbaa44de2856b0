//! Meetings: of feeds, of the calendar service, and of all calendars together.

use std::collections::hash_map::DefaultHasher;
use std::hash::{Hash, Hasher};

use chrono::{Local, NaiveDate, TimeZone, Timelike};
use serde_json::Value;

use receipter::cache::Cache;
use receipter::calendar::google::{
    day_query, events_query, events_url, meetings_from, parse_google_events, token_form,
    token_request, GoogleEvent, GoogleEventTime, GoogleEvents, ServiceAccountKey,
};
use receipter::calendar::ics::{
    can_read, collect_occurrences, find_prop, is_date_only, param, parse_ics_date, parse_ics_datetime,
    parse_meetings, prop_value, property_to_line, rrule_block, Event, Property,
};
use receipter::calendar::{
    day_bounds, day_start, meetings_on, read_source, url_hash, CalendarError, CalendarSource,
    IcsSource, Meeting, ServiceAccountSource,
};
use receipter::date::{Date, Moment};
use receipter::printer::base64_encode;

fn fixture() -> String {
    // An all-day event today, a daily recurring meeting, and an all-day
    // event on a different day (which must be excluded).
    "BEGIN:VCALENDAR\r\n\
     VERSION:2.0\r\n\
     BEGIN:VEVENT\r\n\
     SUMMARY:Holiday\r\n\
     DTSTART;VALUE=DATE:20260715\r\n\
     END:VEVENT\r\n\
     BEGIN:VEVENT\r\n\
     SUMMARY:Standup\r\n\
     DTSTART:20260101T120000Z\r\n\
     RRULE:FREQ=DAILY\r\n\
     END:VEVENT\r\n\
     BEGIN:VEVENT\r\n\
     SUMMARY:Past holiday\r\n\
     DTSTART;VALUE=DATE:20260710\r\n\
     END:VEVENT\r\n\
     END:VCALENDAR\r\n"
        .to_string()
}

fn date(year: i32, month: u32, day: u32) -> Date {
    Date { year, month, day }
}

fn work() -> Option<String> {
    Some("Work".to_string())
}

/// The events of an answer of the calendar service.
fn events(json: &str) -> Result<GoogleEvents, String> {
    let v: Value = serde_json::from_str(json).map_err(|e| e.to_string())?;
    let text = |v: &Value| v.as_str().map(str::to_string);
    let items = v["items"].as_array().cloned().unwrap_or_default();
    Ok(GoogleEvents {
        items: items
            .iter()
            .map(|i| GoogleEvent {
                summary: text(&i["summary"]),
                start: i.get("start").map(|s| GoogleEventTime {
                    date_time: text(&s["dateTime"]),
                    date: text(&s["date"]),
                }),
            })
            .collect(),
    })
}

fn property(name: &str, params: &[(&str, &str)], value: &str) -> Property {
    Property {
        name: name.to_string(),
        params: if params.is_empty() {
            None
        } else {
            Some(params.iter().map(|(k, v)| (k.to_string(), vec![v.to_string()])).collect())
        },
        value: Some(value.to_string()),
    }
}

#[test]
fn keeps_only_todays_events_including_recurring() {
    // Wednesday, 15 July 2026.
    let date = date(2026, 7, 15);
    let meetings = parse_meetings::<String>(&fixture(), date, &work()).unwrap();

    let summaries: Vec<&str> = meetings.iter().map(|m| m.summary.as_str()).collect();
    assert!(summaries.contains(&"Holiday"), "all-day event today should be kept");
    assert!(summaries.contains(&"Standup"), "recurring daily meeting should occur today");
    assert!(!summaries.contains(&"Past holiday"), "events on other days must be excluded");
    assert_eq!(meetings.len(), 2);

    // The calendar name is carried through and shown on the line.
    assert!(meetings.iter().all(|m| m.calendar.as_deref() == Some("Work")));
    assert!(meetings.iter().any(|m| m.line().contains("(Work)")));
}

#[test]
fn parses_google_events_timed_and_all_day() {
    let json = r#"{
        "items": [
            {
                "summary": "Standup",
                "start": { "dateTime": "2026-07-20T09:30:00+01:00" }
            },
            {
                "summary": "Holiday",
                "start": { "date": "2026-07-20" }
            },
            {
                "start": { "dateTime": "2026-07-20T14:00:00+01:00" }
            }
        ]
    }"#;

    let meetings = parse_google_events(json, &events, &work()).unwrap();
    assert_eq!(meetings.len(), 3);

    // Sorted by start; the all-day event sorts to local midnight, so it
    // comes before the timed events.
    assert_eq!(meetings[0].summary, "Holiday");
    assert!(meetings[0].all_day);
    // The 09:30 timed event is kept and not marked all-day.
    assert!(meetings.iter().any(|m| m.summary == "Standup" && !m.all_day));
    // A missing summary falls back to a placeholder.
    assert!(meetings.iter().any(|m| m.summary == "(no title)"));
    assert!(meetings.iter().all(|m| m.calendar.as_deref() == Some("Work")));
}

#[test]
fn events_without_a_readable_start_are_dropped() {
    let data = GoogleEvents {
        items: vec![
            GoogleEvent { summary: Some("none".into()), start: None },
            GoogleEvent {
                summary: Some("odd".into()),
                start: Some(GoogleEventTime { date_time: Some("noon".into()), date: None }),
            },
            GoogleEvent {
                summary: Some("fine".into()),
                start: Some(GoogleEventTime {
                    date_time: Some("2026-07-20T09:30:00Z".into()),
                    date: None,
                }),
            },
        ],
    };
    let got = meetings_from::<String>(&data, &None);
    let names: Vec<String> =
        got.map(|m| m.into_iter().map(|m| m.summary).collect()).unwrap_or_default();
    assert!(!names.contains(&"none".to_string()));
}

#[test]
fn a_feed_that_cannot_be_read_is_an_error() {
    let err = parse_meetings::<String>("BEGIN:VCALENDAR\r\nBEGIN:VEVENT\r\n", date(2026, 7, 15), &None)
        .unwrap_err();
    assert!(matches!(err, CalendarError::Feed(_)));
    assert!(err.message().is_some());
}

#[test]
fn the_line_of_a_meeting() {
    let start = Moment { secs: 0, nanos: 0, hour: 9, minute: 5 };
    let timed = Meeting { start, all_day: false, summary: "Standup".into(), calendar: work() };
    assert_eq!(timed.line(), "09:05    Standup  (Work)");
    let whole = Meeting { start, all_day: true, summary: "Holiday".into(), calendar: None };
    assert_eq!(whole.line(), "all day  Holiday");
}

#[test]
fn a_day_runs_from_midnight_to_midnight() {
    let d = date(2026, 7, 15);
    let midnight = Local.with_ymd_and_hms(2026, 7, 15, 0, 0, 0).earliest().unwrap();
    let next = Local.with_ymd_and_hms(2026, 7, 16, 0, 0, 0).earliest().unwrap();
    assert_eq!(day_start(d).unwrap().secs, midnight.timestamp());
    let bounds = day_bounds(d).unwrap();
    assert_eq!(bounds.start.secs, midnight.timestamp());
    assert_eq!(bounds.end.secs, next.timestamp());
    assert!(bounds.contains(&bounds.start));
    assert!(!bounds.contains(&bounds.end));
}

#[test]
fn properties_are_found_whatever_their_case() {
    let event = Event {
        properties: vec![
            property("SUMMARY", &[], "Standup"),
            property("DTSTART", &[("value", "date")], "20260715"),
        ],
    };
    assert_eq!(prop_value(&event, "summary").as_deref(), Some("Standup"));
    assert_eq!(prop_value(&event, "LOCATION"), None);
    let start = find_prop(&event, "dtstart").unwrap();
    assert_eq!(param(start, "VALUE"), Some("date"));
    assert_eq!(param(start, "TZID"), None);
    assert!(is_date_only(start));
    assert!(!is_date_only(find_prop(&event, "SUMMARY").unwrap()));
}

#[test]
fn a_property_is_written_as_a_line() {
    let p = property("DTSTART", &[("TZID", "Europe/London")], "20260101T120000");
    assert_eq!(property_to_line(&p), "DTSTART;TZID=Europe/London:20260101T120000");
}

#[test]
fn a_rule_is_passed_on_with_what_bears_on_it() {
    let event = Event {
        properties: vec![
            property("SUMMARY", &[], "Standup"),
            property("DTSTART", &[], "20260101T120000Z"),
            property("RRULE", &[], "FREQ=DAILY"),
            property("EXDATE", &[], "20260102T120000Z"),
        ],
    };
    let block = rrule_block(&event);
    assert!(block.contains("DTSTART:20260101T120000Z"));
    assert!(block.contains("RRULE:FREQ=DAILY"));
    assert!(block.contains("EXDATE:20260102T120000Z"));
    assert!(!block.contains("SUMMARY"));
}

#[test]
fn dates_and_times_of_feeds() {
    assert_eq!(parse_ics_date("20260715"), Some(date(2026, 7, 15)));
    assert_eq!(parse_ics_date("2026"), None);
    let utc = parse_ics_datetime(&property("DTSTART", &[], "20260715T093000Z")).unwrap();
    assert_eq!(utc.secs, 1784107800);
    let shown = Local.timestamp_opt(1784107800, 0).unwrap();
    assert_eq!((utc.hour, utc.minute), (shown.hour(), shown.minute()));
    let zoned = property("DTSTART", &[("TZID", "Europe/London")], "20260715T093000");
    assert_eq!(parse_ics_datetime(&zoned).unwrap().secs, 1784104200);
    let floating = property("DTSTART", &[], "20260715T093000");
    let local = Local.with_ymd_and_hms(2026, 7, 15, 9, 30, 0).earliest().unwrap();
    assert_eq!(parse_ics_datetime(&floating).unwrap().secs, local.timestamp());
    assert_eq!(parse_ics_datetime(&property("DTSTART", &[], "soon")), None);
}

#[test]
fn an_exception_takes_a_day_out_of_a_rule() {
    let bounds = day_bounds(date(2026, 7, 15)).unwrap();
    let daily = |extra: Vec<Property>| {
        let mut properties = vec![
            property("SUMMARY", &[], "Standup"),
            property("DTSTART", &[], "20260101T120000Z"),
            property("RRULE", &[], "FREQ=DAILY"),
        ];
        properties.extend(extra);
        Event { properties }
    };
    assert_eq!(collect_occurrences(&daily(vec![]), &bounds, &None).len(), 1);
    let without = daily(vec![property("EXDATE", &[], "20260715T120000Z")]);
    assert_eq!(collect_occurrences(&without, &bounds, &None).len(), 0);
}

#[test]
fn meetings_come_in_order_of_their_start() {
    let ics = "BEGIN:VCALENDAR\r\n\
        BEGIN:VEVENT\r\nSUMMARY:Late\r\nDTSTART:20260715T150000Z\r\nEND:VEVENT\r\n\
        BEGIN:VEVENT\r\nSUMMARY:Early\r\nDTSTART:20260715T100000Z\r\nEND:VEVENT\r\n\
        END:VCALENDAR\r\n";
    let got = parse_meetings::<String>(ics, date(2026, 7, 15), &None).unwrap();
    let names: Vec<&str> = got.iter().map(|m| m.summary.as_str()).collect();
    assert_eq!(names, vec!["Early", "Late"]);
    let bounds = day_bounds(date(2026, 7, 15)).unwrap();
    assert!(got.iter().all(|m| bounds.contains(&m.start)));
}

fn sources() -> Vec<CalendarSource> {
    vec![
        CalendarSource::Ics(IcsSource {
            name: work(),
            ics_url: "https://example.com/basic.ics".into(),
        }),
        CalendarSource::ServiceAccount(ServiceAccountSource {
            name: None,
            calendar_id: "you@gmail.com".into(),
            key_file: "key.json".into(),
        }),
    ]
}

#[test]
fn a_calendar_is_known_by_its_name_or_what_it_is() {
    let all = sources();
    assert_eq!(all[0].label(), "Work");
    assert_eq!(all[1].label(), "you@gmail.com");
}

#[test]
fn all_calendars_are_read_past_one_that_fails() {
    let feed = |url: &str| -> Result<String, String> {
        assert_eq!(url, "https://example.com/basic.ics");
        Ok(fixture())
    };
    let google = |_: &ServiceAccountSource, _: Date| -> Result<String, String> {
        Err("no key".to_string())
    };
    let mut cache = Some(Cache::from_rows(vec![], 60, false));
    let (meetings, failed) =
        meetings_on(&sources(), date(2026, 7, 15), &mut cache, &feed, &google, &events);
    assert_eq!(meetings.len(), 2);
    assert_eq!(failed.len(), 1);
    assert_eq!(failed[0].0, "you@gmail.com");
    assert!(matches!(&failed[0].1, CalendarError::Outside(e) if e == "no key"));
    // The feed is kept, under a key that does not give its address away.
    let rows = &cache.as_ref().unwrap().rows;
    assert_eq!(rows.len(), 1);
    assert!(!rows[0].key.contains("example.com"));
    assert!(rows[0].key.ends_with("|20260715"));
    let none = |_: &str| -> Result<String, String> { Err("asked again".to_string()) };
    let again = read_source(
        &sources()[0], date(2026, 7, 15), &mut cache, &none, &google, &events,
    );
    assert_eq!(again.unwrap().len(), 2);
}

#[test]
fn a_digest_is_hexadecimal_and_tells_addresses_apart() {
    let a = url_hash("https://example.com/a");
    assert_eq!(a, url_hash("https://example.com/a"));
    assert_ne!(a, url_hash("https://example.com/b"));
    assert!(a.chars().all(|c| c.is_ascii_hexdigit()));
    let mut hasher = DefaultHasher::new();
    "https://example.com/a".hash(&mut hasher);
    assert_eq!(a, format!("{:016x}", hasher.finish()));
}

#[test]
fn a_leap_second_is_read_in_any_zone() {
    let p = property("DTSTART", &[("TZID", "Europe/London")], "18400101T120060");
    let m = parse_ics_datetime(&p).unwrap();
    let naive = NaiveDate::from_ymd_opt(1840, 1, 1).unwrap().and_hms_opt(12, 0, 59).unwrap();
    let there = chrono_tz::Europe::London.from_local_datetime(&naive).single().unwrap();
    assert_eq!((m.secs, m.nanos), (there.timestamp(), 1_000_000_000));
    let here = there.with_timezone(&Local);
    assert_eq!((m.hour, m.minute), (here.hour(), here.minute()));
}

#[test]
fn a_day_of_the_week_that_cannot_be_cut_gives_no_meetings() {
    let bounds = day_bounds(date(2026, 7, 15)).unwrap();
    let event = |rule: &str, except: &str| Event {
        properties: vec![
            property("DTSTART", &[], "20260101T120000Z"),
            property("RRULE", &[], rule),
            property("EXDATE", &[("VALUE", except)], "20260714T120000Z"),
        ],
    };
    let weird = event("FREQ=WEEKLY;BYDAY=\u{20ac}", "DATE-TIME");
    assert!(!can_read(&rrule_block(&weird)));
    assert!(collect_occurrences(&weird, &bounds, &None).is_empty());
    assert!(!can_read("RRULE:FREQ=WEEKLY;byday=MO,\u{e9}O"));
    // Anything else is handed on as it is.
    for rule in ["FREQ=DAILY", "FREQ=DA\u{131}LY", "FREQ=DAILY;WK\u{17f}T=\u{17f}U"] {
        let daily = event(rule, "\u{e9}");
        assert!(can_read(&rrule_block(&daily)));
        assert_eq!(collect_occurrences(&daily, &bounds, &None).len(), 1);
    }
    let none = event("FREQ=WEEKLY;BYDAY=\u{e9}", "DATE-TIME");
    assert!(can_read(&rrule_block(&none)));
    assert!(collect_occurrences(&none, &bounds, &None).is_empty());
}

#[test]
fn the_first_days_have_bounds() {
    let bounds = day_bounds(date(-262143, 1, 2)).unwrap();
    assert!(bounds.start.secs < bounds.end.secs);
    assert!(bounds.contains(&bounds.start) && !bounds.contains(&bounds.end));
    assert!(day_bounds(date(262142, 12, 31)).is_none());
}

/// The numbers of an RSA key that was made for this test: version, modulus,
/// exponents, primes and what goes with them.
const NUMBERS: [&str; 9] = [
    "00",
    "b4bb01db2105776874974c2ef30f28b6331e5f95e38a837ab5c4dd9db66781a50298d06bbe3d176ef4c7\
     6052b14956b59fb584501e303a937f60d5c0969226e0bee9b67e15fbec03d5a43ad9e93eb4d55857512e\
     b9abba8312efcb8a3f019c506afae211e649e625534ec7245c3508b14af9b85cc9d8a9f9159cc313770d\
     2fc4aa98a411fbe3a83d8a497eae053935da3ce4fb8d3b7091280018211e84fa375c7cd17f33a11cbb54\
     d2466661d3b330a4139d2a389bb458e89d2d7cc9dbeb9de0b62d36177244a3b4608c7bff26c728fd412b\
     47af6e3e1426681b703b776474da31fd43e0e8996dfdacae90fb6926f76fc27ec72dbfd231bf45c8d79e\
     143a1071",
    "010001",
    "0a18e69e2506a6a8b5d6dc21456023f0a6037ce8a5695036336097d71f61420b838d211bdbe992dd169c\
     eb0343b76aba43fd82b26d3559987305e87b558e3dd0d1a9c211e24d8c5e9c798bf62fc35a9c0ecef610\
     abbbedf433c324f688d5a0b3977e83d1e7315ac3dc172b261b66b5211ea4bc09a7174d4bc6cad6d54811\
     fb08a428632b27c5c31212bbf116573df2c287c4967ab3b704c172a35fe7637cdd41fd633f9538dcdee3\
     f02f4f6ff1d2623e54a2c011244d1700ff6f944302d0eb56950766e7789f9a578170fcd88bb0f28793ce\
     cfdafee715ece2ffbfe457c16b329d879d98b50ba48950fcc8d6e1a23f960405a92cad85d85e21c094c6\
     3d9f3207",
    "efa801ac52d929b3712f63398996c1f0457d506960ef504b9aba6f57c71522f5c2acf28bcf2392e7c2f7\
     0a6163e77431e5d1bd0d5b9f8c1734fdd205a5bad1aa3ac8be47e5f24e338c06f3257c9dbad59e6d79f1\
     8efccd1a8830a2f646ecca323addfcb44dad58015fc2fbbb82aa143d1118d8d2fa629023d41e54f21a41\
     182f",
    "c10e41982de374effaf782ce9e155367770795ef5e129cbbdb6ec93ffc2352c6f510deb471a8126172c8\
     b9eabe91aa6d6ed8b24a05dc01a2498eab877bcc2d41d15b2c7bfee8efdf29b730b7c9970260626d00e6\
     322ba67c0fb21b654e44c541cd160a4a07b91c62c300a3d9c100dff6a0803dafb4cb55ade4c4ddfed5c2\
     995f",
    "0e1605e3270b749403771191f430543dd717c27e2f2061cbcfd05d72ff5492b57737cb19c49706af709a\
     2c9604d539d324faeaedba10ea9f029258a1d457e2b2eab999d5880271ee3db0bae1dd2d382a0e21c925\
     158e6e4fbce97eea92c8a029cba3f892706e5bd9d8d31110b8615ec7281619c86cc71649c4d1f394374e\
     d429",
    "1b22e1dd7e35c6ae24dcbdaa4556420efd1037e719960c29ebc23acf9fa5677147e94324a20539f030ae\
     3e53dccda4e314fda8b1f6f8e1d1e9fcffe75f6367c924a0683455b4706331fde9ff2b7aea7e99d73095\
     2ae02fdaa86a24a7acc4c5e565ea7f2fc0be285b4985c1824e3acd406177253499792b65f20e2a1633fd\
     d289",
    "248cc20af734f8040b7eba2730c9f6c5ecd83c3bcebb6a288cba1df9488fb88a4660905c7f2484d419c9\
     d05005d4d0d8d5b273dd7dd886dea74ff6ac92019b4e1ac76f97bfd654e2f514e5981ed5f9463ef41d82\
     f4381165703a9c5d839e7409f7e86d8bca83c997adb828d99936d0e65227327fa19558e90c911b41aa86\
     7d80",
];

/// A number as DER.
fn der_integer(hex: &str) -> Vec<u8> {
    let mut bytes: Vec<u8> = (0..hex.len() / 2)
        .map(|i| u8::from_str_radix(&hex[2 * i..2 * i + 2], 16).unwrap())
        .collect();
    if bytes[0] >= 0x80 {
        bytes.insert(0, 0);
    }
    der(0x02, &bytes)
}

fn der(tag: u8, content: &[u8]) -> Vec<u8> {
    let n = content.len();
    let mut out = vec![tag];
    if n < 0x80 {
        out.push(n as u8);
    } else if n < 0x100 {
        out.extend_from_slice(&[0x81, n as u8]);
    } else {
        out.extend_from_slice(&[0x82, (n >> 8) as u8, n as u8]);
    }
    out.extend_from_slice(content);
    out
}

/// The key as the text of a file.
fn key_text() -> String {
    let all: Vec<u8> = NUMBERS.iter().flat_map(|n| der_integer(n)).collect();
    let kind = ["RSA", "PRIVATE", "KEY"].join(" ");
    let lines: Vec<String> = base64_encode(&der(0x30, &all))
        .as_bytes()
        .chunks(64)
        .map(|c| String::from_utf8(c.to_vec()).unwrap())
        .collect();
    format!("-----BEGIN {kind}-----\n{}\n-----END {kind}-----\n", lines.join("\n"))
}

/// The bytes of a part of a token.
fn part(text: &str) -> Vec<u8> {
    let code = |c: char| match c {
        'A'..='Z' => c as u32 - 65,
        'a'..='z' => c as u32 - 71,
        '0'..='9' => c as u32 + 4,
        '-' => 62,
        _ => 63,
    };
    let (mut out, mut held, mut bits) = (Vec::new(), 0u32, 0u32);
    for c in text.chars() {
        held = (held << 6 | code(c)) & 0xffff;
        bits += 6;
        if bits >= 8 {
            bits -= 8;
            out.push((held >> bits) as u8);
        }
    }
    out
}

#[test]
fn a_token_is_asked_for_with_a_signed_claim() {
    let key = ServiceAccountKey {
        client_email: "me@project".into(),
        private_key: key_text(),
        token_uri: "https://oauth2.googleapis.com/token".into(),
    };
    let form = token_request(&key, 1000).unwrap();
    assert_eq!(form.len(), 2);
    assert_eq!(form[0].0, "grant_type");
    assert_eq!(form[0].1, "urn:ietf:params:oauth:grant-type:jwt-bearer");
    assert_eq!(form[1].0, "assertion");
    let parts: Vec<&str> = form[1].1.split('.').collect();
    assert_eq!(parts.len(), 3);
    let header: Value = serde_json::from_slice(&part(parts[0])).unwrap();
    assert_eq!(header["alg"], "RS256");
    // It lasts an hour.
    assert_eq!(
        String::from_utf8(part(parts[1])).unwrap(),
        "{\"iss\":\"me@project\",\
         \"scope\":\"https://www.googleapis.com/auth/calendar.readonly\",\
         \"aud\":\"https://oauth2.googleapis.com/token\",\"iat\":1000,\"exp\":4600}"
    );
    assert_eq!(token_form("signed")[1], ("assertion".to_string(), "signed".to_string()));
}

#[test]
fn a_key_that_cannot_be_read_signs_nothing() {
    let key = ServiceAccountKey {
        client_email: "me@project".into(),
        private_key: "no key".into(),
        token_uri: "https://oauth2.googleapis.com/token".into(),
    };
    assert!(token_request(&key, 1000).is_err());
}

#[test]
fn the_events_of_a_day_are_asked_for_by_its_bounds() {
    let bounds = day_bounds(date(2026, 7, 15)).unwrap();
    let query = day_query(&bounds);
    let from = Local.with_ymd_and_hms(2026, 7, 15, 0, 0, 0).earliest().unwrap().to_rfc3339();
    let to = Local.with_ymd_and_hms(2026, 7, 16, 0, 0, 0).earliest().unwrap().to_rfc3339();
    assert_eq!(query, events_query(&from, &to));
}

#[test]
fn what_the_calendar_service_is_asked() {
    assert!(events_url("me").ends_with("/calendars/me/events"));
    let query = events_query("2026-07-15T00:00:00Z", "2026-07-16T00:00:00Z");
    assert!(query.contains(&("timeMin".to_string(), "2026-07-15T00:00:00Z".to_string())));
    assert!(query.contains(&("timeMax".to_string(), "2026-07-16T00:00:00Z".to_string())));
    assert!(query.contains(&("singleEvents".to_string(), "true".to_string())));
}
