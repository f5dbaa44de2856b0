//! The bins section: which date it shows, what it says, and the text it reads.

use chrono::{Datelike, Days, NaiveDate};

use receipter::bins::address::{match_address, normalise_address, AddressError};
use receipter::bins::markup::{
    between, collapse_ws, decode_entities, parse_collection_date, strip_ordinals, strip_tags,
};
use receipter::bins::councils::{collections, CouncilError};
use receipter::bins::hackney::{
    BinResponse, CollectionResponse, PropertyResponse, SearchResponse, WorkflowResponse,
};
use receipter::bins::lookup::LookupError;
use receipter::bins::{
    bin_day, council, council_key, default_lead_days, list_bins, next_per_service, render,
    section_date, BinSettings, Collection, Council, Layout, Property, BIN_ICON,
};
use receipter::date::Date;

fn date(s: &str) -> Date {
    let d: NaiveDate = s.parse().unwrap();
    Date { year: d.year(), month: d.month(), day: d.day() }
}

fn iso(d: Date) -> String {
    NaiveDate::from_ymd_opt(d.year, d.month, d.day).unwrap().to_string()
}

fn plus(d: Date, days: u64) -> Date {
    let n = NaiveDate::from_ymd_opt(d.year, d.month, d.day).unwrap() + Days::new(days);
    Date { year: n.year(), month: n.month(), day: n.day() }
}

fn collection(service: &str, on: &str) -> Collection {
    Collection { service: service.into(), date: date(on) }
}

/// Two services on the 13th, one on the 18th.
fn sample() -> Vec<Collection> {
    vec![
        collection("Mixed Recycling", "2026-08-13"),
        collection("Food Waste", "2026-08-13"),
        collection("Garden Waste", "2026-08-18"),
    ]
}

/// Text-mode layout at a typical 80mm width.
fn text(columns: usize) -> Layout {
    Layout { columns, icons: false }
}

#[test]
fn collapses_a_full_schedule_to_the_next_of_each_service() {
    // A council that publishes a rolling schedule returns many dates per
    // service; `--list-bins` should show only what's next for each.
    let all = vec![
        collection("Recycling", "2026-08-21"),
        collection("Food", "2026-08-13"),
        collection("Recycling", "2026-08-07"),
        collection("Food", "2026-08-20"),
        collection("Recycling", "2026-08-14"),
    ];
    let next = next_per_service(&all);
    let got: Vec<(&str, String)> = next
        .iter()
        .map(|c| (c.service.as_str(), iso(c.date)))
        .collect();
    assert_eq!(
        got,
        vec![
            ("Recycling", "2026-08-07".to_string()),
            ("Food", "2026-08-13".to_string())
        ]
    );
}

#[test]
fn identical_containers_are_named_once() {
    let twins = vec![
        collection("Wheeled Bin (180ltr)", "2026-08-13"),
        collection("Wheeled Bin (180ltr)", "2026-08-13"),
    ];
    let out = render(&twins, date("2026-08-13"), text(40)).unwrap();
    assert_eq!(out.matches("Wheeled Bin").count(), 1, "{out:?}");
}

#[test]
fn renders_only_the_bins_going_out_that_day() {
    let out = render(&sample(), date("2026-08-13"), text(40)).unwrap();
    assert_eq!(
        out,
        "Thursday, 13 August\n\n  Food Waste\n  Mixed Recycling\n"
    );
}

#[test]
fn stays_silent_when_nothing_is_collected() {
    // The day before the 13th is when the section shows; every other target
    // date must produce nothing at all, heading included.
    for day in ["2026-08-12", "2026-08-14", "2026-08-17"] {
        assert!(
            render(&sample(), date(day), text(40)).is_none(),
            "expected no section for {day}"
        );
    }
    assert!(render(&[], date("2026-08-13"), text(40)).is_none());
}

#[test]
fn the_day_before_gate_follows_lead_days() {
    // lead_days = 1 on the 12th targets the 13th, which has collections.
    let due = plus(date("2026-08-12"), 1);
    assert!(render(&sample(), due, text(40)).is_some());
    // The same date with no notice would look at the 12th, which has none.
    let due = plus(date("2026-08-12"), 0);
    assert!(render(&sample(), due, text(40)).is_none());
}

#[test]
fn without_force_only_the_due_date_is_shown() {
    let target = date("2026-08-12");
    let due = plus(target, 1);
    assert_eq!(
        section_date(&sample(), target, due, false),
        Some(date("2026-08-13"))
    );
    // Two days out: nothing is due tomorrow, so nothing is shown.
    let target = date("2026-08-11");
    assert_eq!(
        section_date(&sample(), target, plus(target, 1), false),
        None
    );
}

#[test]
fn force_falls_back_to_the_next_collection() {
    // Nothing is due tomorrow, but --bins should still show what's next.
    let target = date("2026-08-11");
    assert_eq!(
        section_date(&sample(), target, plus(target, 1), true),
        Some(date("2026-08-13"))
    );
    // Once the 13th has passed, the next one is the 18th.
    let target = date("2026-08-14");
    assert_eq!(
        section_date(&sample(), target, plus(target, 1), true),
        Some(date("2026-08-18"))
    );
}

#[test]
fn force_never_shows_a_collection_that_has_been_and_gone() {
    let target = date("2026-08-19"); // past both sample collections
    assert_eq!(
        section_date(&sample(), target, plus(target, 1), true),
        None
    );
    assert_eq!(section_date(&[], target, target, true), None);
}

#[test]
fn force_still_prefers_the_due_date_when_there_is_one() {
    // On the eve of the 13th, --bins must not skip ahead to the 18th.
    let target = date("2026-08-12");
    assert_eq!(
        section_date(&sample(), target, plus(target, 1), true),
        Some(date("2026-08-13"))
    );
}

#[test]
fn image_output_gets_an_icon_and_text_output_does_not() {
    let with = render(
        &sample(),
        date("2026-08-13"),
        Layout {
            columns: 40,
            icons: true,
        },
    )
    .unwrap();
    let without = render(&sample(), date("2026-08-13"), text(40)).unwrap();
    assert!(with.starts_with(BIN_ICON));
    assert!(!without.contains(BIN_ICON));
}

#[test]
fn long_service_names_are_shortened_to_the_print_width() {
    let long = vec![collection(
        "Mixed Recycling (Cans, Plastics & Glass) and everything else",
        "2026-08-13",
    )];
    let out = render(&long, date("2026-08-13"), text(20)).unwrap();
    assert!(
        out.lines().all(|l| l.chars().count() <= 20),
        "lines overflowed: {out:?}"
    );
    assert!(out.contains('\u{2026}'));
}

#[test]
fn council_names_normalise_to_a_key() {
    assert_eq!(council_key("Bromley"), "bromley");
    assert_eq!(council_key("bromley"), "bromley");
    assert_eq!(council_key("Bromley Council"), "bromley");
    assert_eq!(council_key("London Borough of Bromley"), "bromley");
    assert_eq!(council_key("Hackney"), "hackney");
    assert_eq!(council_key("London Borough of Hackney"), "hackney");
}

#[test]
fn parses_year_less_ordinal_dates() {
    let today = date("2026-08-07"); // a Friday
    assert_eq!(
        parse_collection_date("Thursday, 13th August", today),
        Some(date("2026-08-13"))
    );
    assert_eq!(
        parse_collection_date("Tuesday, 18th August", today),
        Some(date("2026-08-18"))
    );
}

#[test]
fn rolls_the_year_over_at_christmas() {
    let today = date("2026-12-30");
    // 4 January is a Monday in 2027, but a Sunday in 2026: only the
    // next-year reading has a weekday that agrees.
    assert_eq!(
        parse_collection_date("Monday, 4th January", today),
        Some(date("2027-01-04"))
    );
}

#[test]
fn rejects_dates_whose_weekday_disagrees() {
    // 13 August 2026 is a Thursday, so "Monday" cannot be right.
    assert_eq!(
        parse_collection_date("Monday, 13th August", date("2026-08-07")),
        None
    );
    assert_eq!(
        parse_collection_date("Loading your bin days...", date("2026-08-07")),
        None
    );
}

#[test]
fn ignores_a_trailing_collection_time() {
    assert_eq!(
        parse_collection_date("Thursday, 6th August, at  8:50am", date("2026-08-07")),
        Some(date("2026-08-06"))
    );
}

#[test]
fn ordinals_go_at_once() {
    for text in ["1st th", "1stth", "1STst", "2nd 3rdx 4TH.", "13th\u{e9}", "1\u{17f}t", "9"] {
        let once = strip_ordinals(text);
        assert_eq!(strip_ordinals(&once), once);
    }
    assert_eq!(strip_ordinals("1st th"), "1 th");
    assert_eq!(strip_ordinals("1stth"), "1stth");
    assert_eq!(strip_ordinals("2nd 3rdx 4TH."), "2 3rdx 4.");
    assert_eq!(strip_ordinals("13th\u{e9}"), "13th\u{e9}");
    assert_eq!(strip_ordinals("1\u{17f}t"), "1\u{17f}t");
}

#[test]
fn a_normalised_address_stays_as_it_is() {
    for text in [" 11,  EXAMPLE Close ", "Caf\u{c9} 3\u{a0}b", "", "--"] {
        let once = normalise_address(text);
        assert_eq!(normalise_address(&once), once);
    }
    assert_eq!(normalise_address(" 11,  EXAMPLE Close "), "11 example close");
    assert_eq!(normalise_address("Caf\u{c9} 3\u{a0}b"), "caf\u{e9} 3 b");
}

#[test]
fn a_collection_date_is_of_a_year_that_was_tried() {
    let today = date("2026-08-07");
    assert_eq!(parse_collection_date("Thursday, 6 August 2020", today), None);
    assert_eq!(parse_collection_date("Thursday, 6 August 20", today), None);
    assert_eq!(parse_collection_date("Friday, 6 August", today), Some(date("2027-08-06")));
}

#[test]
fn strips_ordinals_without_eating_other_digits() {
    assert_eq!(strip_ordinals("13th August"), "13 August");
    assert_eq!(strip_ordinals("1st, 2nd, 3rd"), "1, 2, 3");
    // "21st Street" is a road name, but the suffix is still its own word.
    assert_eq!(strip_ordinals("at 8:50am"), "at 8:50am");
}

#[test]
fn decodes_entities_in_service_names() {
    assert_eq!(
        strip_tags("<h3>Mixed Recycling (Cans, Plastics &amp; Glass)</h3>"),
        "Mixed Recycling (Cans, Plastics & Glass)"
    );
    assert_eq!(decode_entities("caf&#233; &amp; bar"), "café & bar");
    // A bare ampersand is left alone rather than swallowing the rest.
    assert_eq!(decode_entities("Tom & Jerry"), "Tom & Jerry");
}

#[test]
fn normalises_addresses_for_comparison() {
    assert_eq!(normalise_address("11  Lankton Close."), "11 lankton close");
    assert_ne!(
        normalise_address("1 Lankton Close"),
        normalise_address("11 Lankton Close")
    );
}

#[test]
fn unsupported_councils_are_a_clear_error() {
    let cfg = BinSettings {
        council: "Atlantis".into(),
        postcode: None,
        property: None,
        property_id: None,
        lead_days: 1,
    };
    let err = council(&cfg).unwrap_err().message();
    assert!(err.contains("Atlantis"), "{err}");
    assert!(err.contains("Bromley") && err.contains("Hackney"), "{err}");
}

#[test]
fn supported_councils_are_found_by_any_of_their_names() {
    for name in ["Hackney", "hackney", "Hackney Council", "London Borough of Hackney"] {
        let cfg = BinSettings {
            council: name.into(),
            postcode: None,
            property: None,
            property_id: None,
            lead_days: default_lead_days(),
        };
        assert_eq!(council(&cfg).unwrap(), Council::Hackney);
    }
    let cfg = BinSettings {
        council: " BROMLEY council ".into(),
        postcode: None,
        property: None,
        property_id: None,
        lead_days: 1,
    };
    assert_eq!(council(&cfg).unwrap(), Council::Bromley);
    assert_eq!(default_lead_days(), 1);
}

#[test]
fn the_section_appears_on_the_eve_only() {
    let eve = bin_day(1, &sample(), date("2026-08-12"), text(40), false);
    assert_eq!(
        eve,
        Some((
            date("2026-08-13"),
            "Thursday, 13 August\n\n  Food Waste\n  Mixed Recycling\n".to_string()
        ))
    );
    assert_eq!(bin_day(1, &sample(), date("2026-08-11"), text(40), false), None);
    let forced = bin_day(1, &sample(), date("2026-08-11"), text(40), true).unwrap();
    assert_eq!(forced.0, date("2026-08-13"));
    assert_eq!(bin_day(1, &sample(), date("2026-08-19"), text(40), true), None);
}

#[test]
fn the_listing_names_the_property_and_the_next_of_each() {
    let property = Property {
        id: "3657977".into(),
        address: "11 Example Close, Townsville, AB1 2CD".into(),
        collections: vec![
            collection("Garden Waste", "2026-08-18"),
            collection("Food Waste", "2026-08-20"),
            collection("Food Waste", "2026-08-13"),
        ],
    };
    assert_eq!(
        list_bins(&property),
        "11 Example Close, Townsville, AB1 2CD (property_id = 3657977)\n\n\
         2026-08-13  Thu  Food Waste\n\
         2026-08-18  Tue  Garden Waste\n"
    );
}

#[test]
fn an_address_that_fits_two_properties_is_ambiguous() {
    let options = vec![
        ("1".to_string(), "Flat 1 High Street North".to_string()),
        ("2".to_string(), "Flat 1 High Street South".to_string()),
    ];
    let err = match_address(&options, "Flat 1 High Street").unwrap_err();
    assert!(matches!(err, AddressError::Ambiguous { .. }));
    assert!(err.message().contains("property_id"));
}

#[test]
fn capitals_and_odd_letters_are_normalised() {
    assert_eq!(normalise_address("FLAT É,  The-Mews"), "flat é the mews");
}

#[test]
fn text_between_two_marks() {
    assert_eq!(between("a<b>c</b>", "<b>", "</b>"), Some("c"));
    assert_eq!(between("a<b>c", "<b>", "</b>"), None);
    assert_eq!(between("abc", "<b>", "</b>"), None);
}

#[test]
fn entities_that_cannot_be_decoded_stay() {
    assert_eq!(decode_entities("&lt;&gt;&quot;&#x41;&apos;"), "<>\"A'");
    assert_eq!(decode_entities("&nosuch; &#xD800;"), "&nosuch; &#xD800;");
    assert_eq!(collapse_ws(" a \n\t b "), "a b");
}

#[test]
fn a_date_more_than_a_week_past_is_none() {
    // 30 July 2026 is a Thursday; the next one is in 2032.
    assert_eq!(parse_collection_date("Thursday, 30th July", date("2026-08-07")), None);
    assert_eq!(
        parse_collection_date("Friday, 31st July", date("2026-08-07")),
        Some(date("2026-07-31"))
    );
}

#[test]
fn a_year_is_found_for_a_leap_day() {
    // 29 February 2028 is a Tuesday.
    assert_eq!(
        parse_collection_date("Tuesday, 29th February", date("2027-12-30")),
        Some(date("2028-02-29"))
    );
    assert_eq!(parse_collection_date("Tuesday, 30th February", date("2027-12-30")), None);
}

#[test]
fn the_council_of_the_settings_is_asked() {
    let look = |council: &str| {
        let cfg = BinSettings {
            council: council.into(),
            postcode: None,
            property: None,
            property_id: Some("7".into()),
            lead_days: 1,
        };
        let search = |_: &str| -> Result<SearchResponse, String> { Err("search".into()) };
        let property = |_: &str| -> Result<PropertyResponse, String> { Err("property".into()) };
        let bin = |_: &str| -> Result<BinResponse, String> { Err("bin".into()) };
        let rounds = |_: &str| -> Result<CollectionResponse, String> { Err("rounds".into()) };
        let workflow = |_: &str| -> Result<WorkflowResponse, String> { Err("workflow".into()) };
        collections(
            &cfg,
            "1 Road, AB1 2CD",
            date("2026-08-07"),
            &mut None,
            &|_: &str, _: &str| Err("form".to_string()),
            &|_: &str, _: usize| Err("bromley".to_string()),
            &|_, _| {},
            &|_: &str, _: &str| Err("json".to_string()),
            &|_: &str| Err("hackney".to_string()),
            &search,
            &property,
            &bin,
            &rounds,
            &workflow,
        )
        .unwrap_err()
    };
    let outside = |e: &CouncilError<String>| match e {
        CouncilError::Lookup(LookupError::Outside(e)) => Some(e.clone()),
        _ => None,
    };
    assert_eq!(outside(&look("London Borough of Bromley")).as_deref(), Some("bromley"));
    assert_eq!(outside(&look("hackney council")).as_deref(), Some("hackney"));
    let refused = look("Camden");
    assert!(matches!(&refused, CouncilError::Unsupported(_)));
    assert!(refused.message().unwrap().contains("unsupported council `Camden`"));
}
