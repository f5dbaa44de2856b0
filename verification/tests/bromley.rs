//! Bins of Bromley: the addresses of a postcode and the page of a property.

use std::cell::Cell;

use chrono::Datelike;

use receipter::bins::address::match_address;
use receipter::bins::bromley::{
    collections, fetch_collections, parse_address_options, parse_collections, step, summary_value,
    Step,
};
use receipter::bins::lookup::{postcode_key, LookupError};
use receipter::bins::{BinSettings, Collection};
use receipter::cache::Cache;
use receipter::date::Date;

fn date(s: &str) -> Date {
    let d: chrono::NaiveDate = s.parse().unwrap();
    Date { year: d.year(), month: d.month(), day: d.day() }
}

/// The form that lists the properties of a postcode.
const ADDRESSES: &str = r#"
    <select class="govuk-select js-autocomplete" id="address" name="address" required>
      <option value=""></option>
      <option value="3678997">1 Example Close, Townsville, AB1 2CD</option>
      <option value="3678998">11 Example Close, Townsville, AB1 2CD</option>
      <option value="3678999">12 Example Close, Townsville, AB1 2CD</option>
    </select>"#;

/// The page of a property.
const COLLECTIONS: &str = r#"
  <div class="waste__collections">
    <div class="waste-service-grid">
      <div class="waste-service-grid--service-name">
        <h3 class="govuk-heading-m waste-service-name">
          Food Waste
        </h3>
      </div>
      <div class="waste-service-grid--service-description">
        <dl class="govuk-summary-list">
          <div class="govuk-summary-list__row">
            <dt class="govuk-summary-list__key">Frequency</dt>
            <dd class="govuk-summary-list__value">Every Thursday</dd>
          </div>
          <div class="govuk-summary-list__row">
            <dt class="govuk-summary-list__key">Next collection</dt>
            <dd class="govuk-summary-list__value">
              Thursday, 13th August
            </dd>
          </div>
          <div class="govuk-summary-list__row">
            <dt class="govuk-summary-list__key">Last collection</dt>
            <dd class="govuk-summary-list__value">Thursday, 6th August, at  8:50am</dd>
          </div>
        </dl>
      </div>
    </div>
    <div class="waste-service-grid">
      <div class="waste-service-grid--service-name">
        <h3 class="govuk-heading-m waste-service-name">
          Mixed Recycling (Cans, Plastics &amp; Glass)
        </h3>
      </div>
      <dl class="govuk-summary-list">
        <div class="govuk-summary-list__row">
          <dt class="govuk-summary-list__key">Next collection</dt>
          <dd class="govuk-summary-list__value">
            Tuesday, 18th August
            (this collection has been adjusted from its usual time)
          </dd>
        </div>
      </dl>
    </div>
    <div class="waste-service-grid">
      <div class="waste-service-grid--service-name">
        <h3 class="govuk-heading-m waste-service-name">Bulky waste</h3>
      </div>
    </div>
  </div>"#;


#[test]
fn reads_every_address_option() {
    let options = parse_address_options(ADDRESSES);
    assert_eq!(options.len(), 3, "the blank option should be skipped");
    assert_eq!(options[1].0, "3678998");
    assert_eq!(options[1].1, "11 Example Close, Townsville, AB1 2CD");
}

#[test]
fn matches_the_full_address() {
    let options = parse_address_options(ADDRESSES);
    let (id, _) = match_address(&options, "11 Example Close, Townsville, AB1 2CD").unwrap();
    assert_eq!(id, "3678998");
}

#[test]
fn matches_on_house_and_street_alone() {
    let options = parse_address_options(ADDRESSES);
    let (id, addr) = match_address(&options, "11 Example Close").unwrap();
    assert_eq!(id, "3678998");
    assert_eq!(addr, "11 Example Close, Townsville, AB1 2CD");
}

#[test]
fn does_not_confuse_house_1_with_house_11() {
    let options = parse_address_options(ADDRESSES);
    assert_eq!(match_address(&options, "1 Example Close").unwrap().0, "3678997");
}

#[test]
fn unmatched_addresses_suggest_a_fix() {
    let options = parse_address_options(ADDRESSES);
    let err = match_address(&options, "99 Nowhere Road").unwrap_err().message();
    assert!(err.contains("property_id"), "{err}");
}

#[test]
fn reads_scheduled_services_only() {
    let got = parse_collections(COLLECTIONS, date("2026-08-07"));
    assert_eq!(
        got,
        vec![
            Collection { service: "Food Waste".into(), date: date("2026-08-13") },
            Collection {
                service: "Mixed Recycling (Cans, Plastics & Glass)".into(),
                date: date("2026-08-18"),
            },
        ],
        "on-demand services without a next collection should be dropped"
    );
}

#[test]
fn ignores_the_last_collection_row() {
    // "Last collection" is 6 August; nothing should report that date.
    let got = parse_collections(COLLECTIONS, date("2026-08-07"));
    assert!(got.iter().all(|c| c.date > date("2026-08-07")));
}

#[test]
fn the_loading_interstitial_yields_nothing() {
    let html = "<div class=\"waste\"><p>Loading your bin days...</p></div>";
    assert!(parse_collections(html, date("2026-08-07")).is_empty());
}

#[test]
fn a_summary_row_is_read_by_its_key() {
    let row = "<dt>Next collection</dt><dd class=\"v\"> Thursday,  13th &amp; on </dd>";
    assert_eq!(summary_value(row, "Next collection").as_deref(), Some("Thursday, 13th & on"));
    assert_eq!(summary_value(row, "Last collection"), None);
}

#[test]
fn a_page_that_is_still_loading_is_asked_for_again() {
    assert_eq!(step(1, "all here"), Step::Done);
    assert_eq!(step(1, "Loading your bin days..."), Step::Again);
    assert_eq!(step(15, "Loading your bin days..."), Step::GiveUp);
}

fn settings() -> BinSettings {
    BinSettings {
        council: "Bromley".into(),
        postcode: None,
        property: None,
        property_id: None,
        lead_days: 1,
    }
}

#[test]
fn polls_until_the_page_is_there_and_keeps_only_that() {
    let mut cache = Some(Cache::from_rows(vec![], 60, false));
    let asked = Cell::new(0usize);
    let waited = Cell::new(0usize);
    let get = |url: &str, attempt: usize| -> Result<String, String> {
        assert_eq!(url, "https://recyclingservices.bromley.gov.uk/waste/3678998");
        asked.set(asked.get() + 1);
        assert_eq!(attempt, asked.get());
        if asked.get() < 3 {
            Ok("<p>Loading your bin days...</p>".to_string())
        } else {
            Ok(COLLECTIONS.to_string())
        }
    };
    let wait = |attempt: usize, seconds: u64| {
        assert_eq!(seconds, 2);
        waited.set(waited.get() + 1);
        assert_eq!(attempt, waited.get());
    };
    let body = fetch_collections("3678998", date("2026-08-07"), &mut cache, &get, &wait).unwrap();
    assert_eq!(body, COLLECTIONS);
    assert_eq!(asked.get(), 3);
    assert_eq!(waited.get(), 2);
    let rows = cache.unwrap().rows;
    assert_eq!(rows.len(), 1);
    assert_eq!(rows[0].response, COLLECTIONS);
}

#[test]
fn gives_up_on_a_page_that_never_loads() {
    let mut cache = None;
    let asked = Cell::new(0usize);
    let get = |_: &str, _: usize| -> Result<String, String> {
        asked.set(asked.get() + 1);
        Ok("Loading your bin days...".to_string())
    };
    let err = fetch_collections("1", date("2026-08-07"), &mut cache, &get, &|_, _| {}).unwrap_err();
    assert_eq!(asked.get(), 15);
    assert!(matches!(err, LookupError::StillLoading { attempts: 15 }));
}

#[test]
fn a_failed_request_ends_the_polling() {
    let mut cache = None;
    let get = |_: &str, attempt: usize| -> Result<String, String> {
        if attempt < 4 {
            Ok("Loading your bin days...".to_string())
        } else {
            Err(format!("down at {attempt}"))
        }
    };
    let err = fetch_collections("1", date("2026-08-07"), &mut cache, &get, &|_, _| {}).unwrap_err();
    assert!(matches!(&err, LookupError::Outside(e) if e == "down at 4"));
}

#[test]
fn goes_from_an_address_to_its_collections() {
    let mut cache = None;
    let search = |url: &str, postcode: &str| -> Result<String, String> {
        assert_eq!(url, "https://recyclingservices.bromley.gov.uk/waste");
        assert_eq!(postcode, "AB1 2CD");
        Ok(ADDRESSES.to_string())
    };
    let get = |url: &str, _: usize| -> Result<String, String> {
        assert!(url.ends_with("/3678998"));
        Ok(COLLECTIONS.to_string())
    };
    let found = collections(
        &settings(),
        "11 Example Close, Townsville, AB1 2CD",
        date("2026-08-07"),
        &mut cache,
        &search,
        &get,
        &|_, _| {},
    )
    .unwrap();
    assert_eq!(found.id, "3678998");
    assert_eq!(found.address, "11 Example Close, Townsville, AB1 2CD");
    assert_eq!(found.collections.len(), 2);
}

#[test]
fn a_lookup_says_what_is_missing() {
    let search =
        |_: &str, _: &str| -> Result<String, String> { Ok("<select></select>".to_string()) };
    let get = |_: &str, _: usize| -> Result<String, String> { Err("down".to_string()) };
    let mut cache = None;
    let err = collections(
        &settings(), "", date("2026-08-07"), &mut cache, &search, &get, &|_, _| {},
    )
    .unwrap_err();
    assert!(matches!(err, LookupError::NoPostcode));

    let err = collections(
        &settings(), "1 Road, AB1 2CD", date("2026-08-07"), &mut cache, &search, &get, &|_, _| {},
    )
    .unwrap_err();
    assert!(matches!(err, LookupError::NoAddresses { .. }));
    assert!(err.message().unwrap().contains("AB1 2CD"));

    let known = BinSettings { property_id: Some("7".into()), ..settings() };
    let err = collections(
        &known, "1 Road, AB1 2CD", date("2026-08-07"), &mut cache, &search, &get, &|_, _| {},
    )
    .unwrap_err();
    assert!(matches!(&err, LookupError::Outside(e) if e == "down"));
    assert_eq!(err.message(), None);
}

#[test]
fn postcodes_are_kept_without_their_spacing() {
    assert_eq!(postcode_key("ab1 2cd"), "AB12CD");
}
