//! Bins of Hackney: what the service says, and the schedule that comes of it.

use std::cell::RefCell;

use chrono::Datelike;
use serde_json::Value;

use receipter::bins::address::match_address;
use receipter::bins::hackney::{
    cached_get, collections, parse_addresses, parse_bin_ids, parse_dates, parse_service,
    parse_workflow_ids, payload_for, schedule, service_name, upcoming_collections, url_for,
    AddressSummary, BinResponse, CollectionResponse, PropertyResponse, ProviderFields,
    SearchResponse, Trigger, WorkflowResponse,
};
use receipter::bins::lookup::LookupError;
use receipter::bins::{BinSettings, Collection};
use receipter::cache::Cache;
use receipter::date::Date;

fn date(s: &str) -> Date {
    let d: chrono::NaiveDate = s.parse().unwrap();
    Date { year: d.year(), month: d.month(), day: d.day() }
}

fn json(body: &str) -> Result<Value, String> {
    serde_json::from_str(body).map_err(|e| e.to_string())
}

fn text(v: &Value) -> Option<String> {
    v.as_str().map(str::to_string)
}

fn list(v: &Value) -> Vec<String> {
    v.as_array().map(|a| a.iter().filter_map(text).collect()).unwrap_or_default()
}

fn search(body: &str) -> Result<SearchResponse, String> {
    let v = json(body)?;
    let found = v["addressSummaries"].as_array().cloned().unwrap_or_default();
    Ok(SearchResponse {
        address_summaries: found
            .iter()
            .map(|a| AddressSummary {
                summary: text(&a["summary"]).unwrap(),
                system_id: text(&a["systemId"]).unwrap(),
            })
            .collect(),
    })
}

fn property(body: &str) -> Result<PropertyResponse, String> {
    let v = json(body)?;
    Ok(PropertyResponse {
        provider_specific_fields: v.get("providerSpecificFields").map(|f| ProviderFields {
            containers: text(&f["attributes_wasteContainersAssignableWasteContainers"]),
        }),
    })
}

fn container(body: &str) -> Result<BinResponse, String> {
    let v = json(body)?;
    Ok(BinResponse {
        sub_title: text(&v["subTitle"]),
        collection: text(&v["collection"]),
        disabled: v["disabled"].as_bool().unwrap_or(false),
    })
}

fn rounds(body: &str) -> Result<CollectionResponse, String> {
    let v = json(body)?;
    Ok(CollectionResponse { workflow_ids: list(&v["scheduleCodeWorkflowIDs"]) })
}

fn workflow(body: &str) -> Result<WorkflowResponse, String> {
    let v = json(body)?;
    Ok(WorkflowResponse {
        trigger: v.get("trigger").map(|t| Trigger { dates: list(&t["dates"]) }),
    })
}

const ADDRESSES: &str = r#"{"addressSummaries":[
    {"summary":"Flat 1     Appleton Court      Marcon Place  E8 1ND",
     "postcode":"E8 1ND","systemId":"5f898d4790478c0067fa8b13","uprn":"100023014489"},
    {"summary":"Flat 2     Appleton Court      Marcon Place  E8 1ND",
     "postcode":"E8 1ND","systemId":"5f898d4790478c0067fa8b1e","uprn":"100023014500"},
    {"summary":"Flat 11    Appleton Court      Marcon Place  E8 1ND",
     "postcode":"E8 1ND","systemId":"5f898d4790478c0067fa8b29","uprn":"100023014511"}]}"#;

const PROPERTY: &str = r#"{"uprn":"100023014489","providerSpecificFields":{
    "attributes_wasteContainersAssignableWasteContainers":
    "62f23930b687430167550135,62f23930b687430167550743,62f23931b687430167550bb9"}}"#;

#[test]
fn reads_and_tidies_padded_address_summaries() {
    let got = parse_addresses(ADDRESSES, &search).unwrap();
    assert_eq!(got.len(), 3);
    assert_eq!(got[0].0, "5f898d4790478c0067fa8b13");
    assert_eq!(got[0].1, "Flat 1 Appleton Court Marcon Place E8 1ND");
}

#[test]
fn matches_a_flat_without_relying_on_commas() {
    // Hackney summaries have no commas at all, so the shared matcher has to
    // work off a prefix rather than a comma-delimited segment.
    let options = parse_addresses(ADDRESSES, &search).unwrap();
    let (id, _) = match_address(&options, "Flat 2 Appleton Court, London, E8 1ND").unwrap();
    assert_eq!(id, "5f898d4790478c0067fa8b1e");
}

#[test]
fn does_not_confuse_flat_1_with_flat_11() {
    let options = parse_addresses(ADDRESSES, &search).unwrap();
    assert_eq!(
        match_address(&options, "Flat 1 Appleton Court").unwrap().0,
        "5f898d4790478c0067fa8b13"
    );
    assert_eq!(
        match_address(&options, "Flat 11 Appleton Court").unwrap().0,
        "5f898d4790478c0067fa8b29"
    );
}

#[test]
fn splits_the_container_list() {
    let got = parse_bin_ids(PROPERTY, &property).unwrap();
    assert_eq!(got.len(), 3);
    assert_eq!(got[0], "62f23930b687430167550135");
}

#[test]
fn a_property_with_no_containers_is_not_an_error() {
    assert!(parse_bin_ids(r#"{"providerSpecificFields":{}}"#, &property).unwrap().is_empty());
    assert!(parse_bin_ids("", &property).unwrap().is_empty());
}

#[test]
fn names_live_containers_and_skips_the_rest() {
    let live = r#"{"subTitle":"1 x ES_Food 240 litres ","collection":"Live","disabled":false}"#;
    assert_eq!(
        parse_service(live, &container).unwrap().as_deref(),
        Some("1 x Food 240 litres")
    );

    let kerbside = r#"{"subTitle":"Recycling Sack ","collection":"Live","disabled":false}"#;
    assert_eq!(parse_service(kerbside, &container).unwrap().as_deref(), Some("Recycling Sack"));

    let disabled =
        r#"{"subTitle":"2 x ES_Refuse Chamberlain ","collection":"Live","disabled":true}"#;
    assert_eq!(parse_service(disabled, &container).unwrap(), None);

    let dormant = r#"{"subTitle":"Wheeled Bin (180ltr) ","collection":"Ceased","disabled":false}"#;
    assert_eq!(parse_service(dormant, &container).unwrap(), None);
}

#[test]
fn a_204_is_read_as_no_schedule_rather_than_a_failure() {
    assert!(parse_workflow_ids("", &rounds).unwrap().is_empty());
    assert!(parse_dates("", &workflow).unwrap().is_empty());
    assert_eq!(parse_service("", &container).unwrap(), None);
}

#[test]
fn reads_workflow_ids() {
    let body = r#"{"scheduleCodeWorkflowIDs":["workflows_testWorkflowRoundFri_5f91baf1e27d9800678b30d6"]}"#;
    assert_eq!(parse_workflow_ids(body, &rounds).unwrap().len(), 1);
}

#[test]
fn takes_the_day_from_each_timestamp() {
    let body = r#"{"name":"Workflow_Round Fri","trigger":{"discriminator":"schedule",
        "dates":["2024-12-06T02:20:00Z","2026-08-07T01:20:00Z","2026-08-14T01:20:00Z"]}}"#;
    let got = parse_dates(body, &workflow).unwrap();
    assert_eq!(got, vec![date("2024-12-06"), date("2026-08-07"), date("2026-08-14")]);
    // The schedule reaches back years, so only future dates are of interest.
    let next = got.into_iter().filter(|d| *d >= date("2026-08-08")).min();
    assert_eq!(next, Some(date("2026-08-14")));
}

#[test]
fn a_workflow_without_a_trigger_yields_no_dates() {
    assert!(parse_dates(r#"{"name":"Workflow_Round Fri"}"#, &workflow).unwrap().is_empty());
}

#[test]
fn bad_answers_are_errors() {
    assert!(parse_addresses("nonsense", &search).is_err());
    assert!(parse_bin_ids("nonsense", &property).is_err());
    assert!(parse_service("nonsense", &container).is_err());
    assert!(parse_workflow_ids("nonsense", &rounds).is_err());
    assert!(parse_dates("nonsense", &workflow).is_err());
}

#[test]
fn the_estate_marker_is_dropped_from_a_label() {
    assert_eq!(service_name("  2 x ES_Refuse   Chamberlain "), "2 x Refuse Chamberlain");
}

#[test]
fn a_schedule_keeps_the_next_dates_in_order() {
    let mut dates: Vec<Date> = vec![date("2026-08-06"), date("2026-08-21"), date("2026-08-14")];
    for day in 1..10 {
        dates.push(Date { year: 2027, month: 1, day });
    }
    dates.push(date("2026-08-14"));
    let got = schedule("Food", dates, date("2026-08-07"));
    assert_eq!(got.len(), 8);
    assert!(got.iter().all(|c| c.service == "Food" && c.date >= date("2026-08-07")));
    assert!(got.windows(2).all(|w| w[0].date < w[1].date));
    assert_eq!(got[0].date, date("2026-08-14"));
    assert_eq!(got[1].date, date("2026-08-21"));
}

/// An answer of the service to the end of an address.
fn answer(url: &str) -> Result<String, String> {
    if url.ends_with("/getproperty/prop1") {
        Ok(r#"{"providerSpecificFields":{
            "attributes_wasteContainersAssignableWasteContainers":"bin1,bin2"}}"#
            .to_string())
    } else if url.ends_with("/getbin/bin1") {
        Ok(r#"{"subTitle":"Recycling Sack ","collection":"Live","disabled":false}"#.to_string())
    } else if url.ends_with("/getcollection/bin1") {
        Ok(r#"{"scheduleCodeWorkflowIDs":["round"]}"#.to_string())
    } else if url.ends_with("/getworkflow/round") {
        Ok(r#"{"trigger":{"dates":["2026-08-14T01:20:00Z","2026-08-07T01:20:00Z"]}}"#.to_string())
    } else {
        Err("no such thing".to_string())
    }
}

#[test]
fn a_container_gives_its_upcoming_collections() {
    let mut cache = None;
    let got = upcoming_collections(
        "bin1", date("2026-08-08"), &mut cache, &answer, &container, &rounds, &workflow,
    )
    .unwrap();
    assert_eq!(
        got,
        vec![Collection { service: "Recycling Sack".into(), date: date("2026-08-14") }]
    );
}

#[test]
fn goes_from_a_postcode_to_a_schedule_past_a_broken_container() {
    let mut cache = Some(Cache::from_rows(vec![], 60, false));
    let cfg = BinSettings {
        council: "Hackney".into(),
        postcode: None,
        property: None,
        property_id: Some("prop1".into()),
        lead_days: 1,
    };
    let asked = RefCell::new(Vec::new());
    let get = |url: &str| -> Result<String, String> {
        asked.borrow_mut().push(url.to_string());
        answer(url)
    };
    let post = |_: &str, _: &str| -> Result<String, String> { Err("not asked".to_string()) };
    let (found, failed) = collections(
        &cfg, "Flat 1", date("2026-08-07"), &mut cache, &post, &get, &search, &property,
        &container, &rounds, &workflow,
    )
    .unwrap();
    assert_eq!(found.id, "prop1");
    assert_eq!(found.collections.len(), 2);
    assert_eq!(failed.len(), 1);
    assert_eq!(failed[0].0, "bin2");
    assert_eq!(failed[0].1, "no such thing");
    let first = asked.borrow().len();
    let again = collections(
        &cfg, "Flat 1", date("2026-08-07"), &mut cache, &post, &get, &search, &property,
        &container, &rounds, &workflow,
    );
    assert!(again.is_ok());
    // Only what had failed is asked for a second time.
    assert_eq!(asked.borrow().len(), first + 1);
}

#[test]
fn a_search_is_made_for_the_postcode_of_the_address() {
    let cfg = BinSettings {
        council: "Hackney".into(),
        postcode: None,
        property: None,
        property_id: None,
        lead_days: 1,
    };
    let mut cache = None;
    let post = |url: &str, payload: &str| -> Result<String, String> {
        assert!(url.ends_with("/property/opensearch"));
        assert_eq!(payload, payload_for("E8 1ND"));
        Ok(ADDRESSES.to_string())
    };
    let get = |url: &str| -> Result<String, String> { Err(url.to_string()) };
    let err = collections(
        &cfg, "Flat 2 Appleton Court, London, E8 1ND", date("2026-08-07"), &mut cache, &post,
        &get, &search, &property, &container, &rounds, &workflow,
    )
    .unwrap_err();
    // The property that was matched is the one that is asked for next.
    assert!(matches!(&err, LookupError::Outside(url) if url.ends_with("5f898d4790478c0067fa8b1e")));
}

#[test]
fn answers_of_the_service_are_kept() {
    let mut cache = Some(Cache::from_rows(vec![], 60, false));
    let get = |_: &str| -> Result<String, String> { Ok("body".to_string()) };
    let a = cached_get(&mut cache, "kind", "key", date("2026-08-07"), "url", &get).unwrap();
    assert_eq!(a, "body");
    let none = |_: &str| -> Result<String, String> { Err("asked again".to_string()) };
    let b = cached_get(&mut cache, "kind", "key", date("2026-08-07"), "url", &none).unwrap();
    assert_eq!(b, "body");
}

#[test]
fn addresses_and_payloads_of_the_service() {
    let url = url_for("/alloywastepages/getbin/", "b1");
    assert!(url.starts_with("https://") && url.ends_with("/alloywastepages/getbin/b1"));
    let v: Value = serde_json::from_str(&payload_for("E8 1ND")).unwrap();
    assert_eq!(v["Postcode"], "E8 1ND");
}
