//! Hackney household waste collections.
//!
//! The council's pages are fed by a service that answers in JSON. From a postcode
//! to dates it takes four steps: the properties of the postcode, the containers
//! of a property, the label of a container, and the schedules of its rounds with
//! their dates. Every answer is kept on its own, so a second run asks for nothing,
//! and containers on the same round share its schedule.
//!
//! A collection goes by the label of its container, which is what a resident sees
//! on the council's own page.

use vstd::prelude::*;

use crate::bins::lookup::{
    lemma_property_found, property_found, property_id, readings, LookupError,
};
use crate::bins::markup::collapse_ws;
use crate::bins::{dates_ok, BinSettings, Collection, Property};
use crate::cache::{cached, called_through, kept, law_given_is_asked_for_or_kept, Cache, Reason};
use crate::date::{
    date_read, earlier, format_date, is_earlier, iso_text, law_date_texts_tell_dates_apart,
    parse_date_by, Date,
};
use crate::order::{ascending, lemma_sorted, lemma_sorted_contains, sort, sorted, Ordered};
use crate::sequences::{
    lemma_filter_map_holds, lemma_filter_map_len, lemma_flattened, lemma_flattened_push, ok_lists,
    total_len,
};
use crate::text::{
    all_ascii, ascii, chars_of, collapsed, contains_text, joined, law_blank_texts,
    law_pieces_of_both, lemma_occurs_between, white,
    lemma_collapsed, lemma_one_piece, lemma_pieces_free, occurs_at, pair_texts, pieces, push_str,
    replace, replaced, rows, same_str, split, string_of, text_of, texts, trim, trimmed, utf8_len,
    words,
};
use crate::transport::places::first;
use crate::transport::{gives, gives_for, plain_replies, takes_any, takes_any_two};

verus! {

/// Where the service is.
pub const API_URI: &'static str = "https://waste-api-hackney-live.ieg4.net";

/// The council's id at the service.
pub const TENANT_ID: &'static str = "f806d91c-e133-43a6-ba9a-c0ae4f4cccf6";

/// The search is for residential properties.
pub const RESIDENTIAL_FILTER: &'static str =
    "{\"Filter\":\"attributes_premisesBlpuClass\",\"Include\":true,\"StringMatch\":\"Prefix\",\"Value\":\"R\"}";

/// How many dates are kept for a container. The service gives a year of them;
/// eight are some two months of a weekly round.
pub const MAX_DATES_PER_BIN: usize = 8;

/// What the service says of the properties of a postcode.
#[derive(Debug)]
pub struct SearchResponse {
    /// The properties.
    pub address_summaries: Vec<AddressSummary>,
}

/// A property of a postcode.
#[derive(Debug)]
pub struct AddressSummary {
    /// Its address, padded with spaces.
    pub summary: String,
    /// Its id.
    pub system_id: String,
}

/// What the service says of a property.
#[derive(Debug)]
pub struct PropertyResponse {
    /// The fields of the service behind it.
    pub provider_specific_fields: Option<ProviderFields>,
}

/// The fields of the service behind it.
#[derive(Debug)]
pub struct ProviderFields {
    /// The ids of the containers, with commas between them.
    pub containers: Option<String>,
}

/// What the service says of a container.
#[derive(Debug)]
pub struct BinResponse {
    /// Its label.
    pub sub_title: Option<String>,
    /// The state of its collection.
    pub collection: Option<String>,
    /// Whether it is out of use.
    pub disabled: bool,
}

/// What the service says of the schedules of a container.
#[derive(Debug)]
pub struct CollectionResponse {
    /// The ids of the schedules.
    pub workflow_ids: Vec<String>,
}

/// What the service says of a schedule.
#[derive(Debug)]
pub struct WorkflowResponse {
    /// When it comes round.
    pub trigger: Option<Trigger>,
}

/// When a schedule comes round.
#[derive(Debug)]
pub struct Trigger {
    /// The dates, as timestamps at some small hour.
    pub dates: Vec<String>,
}

// --- Models ------------------------------------------------------------------

/// The answer holds nothing. That is a normal answer, for a property without a
/// schedule of its own.
pub open spec fn blank(body: Seq<char>) -> bool {
    trimmed(body).len() == 0
}

/// The id and the address of a property, when there are both.
pub open spec fn address_of(a: AddressSummary) -> Option<(Seq<char>, Seq<char>)> {
    if a.system_id@.len() > 0 && collapsed(a.summary@).len() > 0 {
        Some((a.system_id@, collapsed(a.summary@)))
    } else {
        None
    }
}

/// The ids and addresses of the properties of a postcode.
pub open spec fn addresses(data: SearchResponse) -> Seq<(Seq<char>, Seq<char>)> {
    data.address_summaries@.filter_map(|a: AddressSummary| address_of(a))
}

/// A part of a list, when there is anything in it.
pub open spec fn listed(part: Seq<char>) -> Option<Seq<char>> {
    if trimmed(part).len() > 0 {
        Some(trimmed(part))
    } else {
        None
    }
}

/// The ids of the containers of a property.
pub open spec fn container_ids(data: PropertyResponse) -> Seq<Seq<char>> {
    match data.provider_specific_fields {
        Some(f) => match f.containers {
            Some(c) => pieces(c@, ","@).filter_map(|part: Seq<char>| listed(part)),
            None => Seq::empty(),
        },
        None => Seq::empty(),
    }
}

/// A label for people: without the mark of estate containers, and with single
/// spaces.
pub open spec fn label(sub_title: Seq<char>) -> Seq<char> {
    collapsed(replaced(sub_title, "ES_"@, Seq::empty()))
}

/// The label of a container that is in use and on a live round.
pub open spec fn live_label(data: BinResponse) -> Option<Seq<char>> {
    let title = match data.sub_title {
        Some(t) => t@,
        None => Seq::empty(),
    };
    if data.disabled || text_of(data.collection) != Some("Live"@) || label(title).len() == 0 {
        None
    } else {
        Some(label(title))
    }
}

/// The first characters of `s`, as many as take up `n` bytes, if there are such.
pub open spec fn leading_bytes(s: Seq<char>, n: int) -> Option<Seq<char>>
    decreases s.len(),
{
    if n == 0 {
        Some(Seq::empty())
    } else if s.len() == 0 || utf8_len(s[0]) > n {
        None
    } else {
        match leading_bytes(s.skip(1), n - utf8_len(s[0])) {
            Some(t) => Some(seq![s[0]] + t),
            None => None,
        }
    }
}

/// The day of a timestamp.
pub open spec fn day_of(timestamp: Seq<char>) -> Option<Date> {
    match leading_bytes(timestamp, 10) {
        Some(day) => date_read(day, "%Y-%m-%d"@),
        None => None,
    }
}

/// The dates of a schedule.
pub open spec fn workflow_dates(data: WorkflowResponse) -> Seq<Date> {
    match data.trigger {
        Some(t) => t.dates@.filter_map(|d: String| day_of(d@)),
        None => Seq::empty(),
    }
}

/// The dates without those that equal the one before them.
pub open spec fn distinct_dates(s: Seq<Date>) -> Seq<Date>
    decreases s.len(),
{
    if s.len() == 0 {
        s
    } else {
        let kept = distinct_dates(s.drop_last());
        if kept.len() > 0 && kept.last() == s.last() {
            kept
        } else {
            kept.push(s.last())
        }
    }
}

/// The next dates from `today` on, each once, in order, and at most as many as
/// are kept.
pub open spec fn next_dates(dates: Seq<Date>, today: Date) -> Seq<Date> {
    first(
        distinct_dates(sorted(dates.filter(|d: Date| !earlier(d, today)))),
        MAX_DATES_PER_BIN as int,
    )
}

/// The key under which an answer is kept, for one day.
pub open spec fn day_key(key: Seq<char>, today: Date) -> Seq<char> {
    key + ":"@ + iso_text(today)
}

/// The address of something at the service.
pub open spec fn api_url(path: Seq<char>) -> Seq<char> {
    API_URI@ + "/"@ + TENANT_ID@ + path
}

/// What is sent to search for the properties of a postcode.
pub open spec fn search_payload(postcode: Seq<char>) -> Seq<char> {
    "{\"Postcode\":\""@ + postcode + "\",\"Filters\":["@ + RESIDENTIAL_FILTER@ + "]}"@
}

/// An answer that may be blank is read: a blank one stands for `none`, and any
/// other one for what reading it gives.
pub open spec fn read_unless_blank<T, E, R: Fn(&str) -> Result<T, E>, U>(
    body: Seq<char>,
    read: R,
    none: spec_fn(U) -> bool,
    made: spec_fn(T, U) -> bool,
    r: Result<U, E>,
) -> bool {
    if blank(body) {
        r matches Ok(u) && none(u)
    } else {
        exists|reply: Result<T, E>| #[trigger]
            gives(read, body, reply) && match reply {
                Ok(data) => r matches Ok(u) && made(data, u),
                Err(e) => r == Err::<U, E>(e),
            }
    }
}

// --- Laws ---------------------------------------------------------------------

/// Every date of `s` comes before the next one.
pub open spec fn strictly_ascending(s: Seq<Date>) -> bool {
    forall|i: int, j: int| 0 <= i < j < s.len() ==> earlier(#[trigger] s[i], #[trigger] s[j])
}

proof fn lemma_distinct_dates(s: Seq<Date>)
    requires
        ascending(s),
    ensures
        strictly_ascending(distinct_dates(s)),
        forall|i: int|
            0 <= i < distinct_dates(s).len() ==> s.contains(#[trigger] distinct_dates(s)[i]),
        forall|i: int| 0 <= i < s.len() ==> distinct_dates(s).contains(#[trigger] s[i]),
        s.len() > 0 ==> distinct_dates(s).len() > 0 && distinct_dates(s).last() == s.last(),
    decreases s.len(),
{
    if s.len() > 0 {
        let t = s.drop_last();
        assert(ascending(t)) by {
            assert forall|i: int, j: int| 0 <= i <= j < t.len() implies (#[trigger] t[i]).at_most(
                #[trigger] t[j],
            ) by {
                assert(s[i].at_most(s[j]));
            }
        }
        lemma_distinct_dates(t);
        let kept = distinct_dates(t);
        let all = distinct_dates(s);
        assert(s[s.len() - 1] == s.last());
        assert forall|i: int| 0 <= i < all.len() implies s.contains(#[trigger] all[i]) by {
            if i < kept.len() {
                assert(all[i] == kept[i]);
                assert(t.contains(kept[i]));
                let k = choose|k: int| 0 <= k < t.len() && t[k] == kept[i];
                assert(s[k] == kept[i]);
            }
        }
        assert forall|i: int| 0 <= i < s.len() implies all.contains(#[trigger] s[i]) by {
            if i < t.len() {
                assert(t[i] == s[i]);
                assert(kept.contains(t[i]));
                let k = choose|k: int| 0 <= k < kept.len() && kept[k] == t[i];
                assert(all[k] == kept[k]);
            } else {
                assert(all[all.len() - 1] == s[i]);
            }
        }
        if kept.len() > 0 && kept.last() != s.last() {
            assert forall|i: int| 0 <= i < kept.len() implies earlier(
                #[trigger] kept[i],
                s.last(),
            ) by {
                assert(kept[kept.len() - 1] == kept.last());
                assert(t.last() == kept.last());
                assert(s[t.len() - 1].at_most(s[s.len() - 1]));
            }
        }
    }
}

/// The dates that are kept are in order without repeats, none is before today,
/// there are no more of them than is allowed, each is one of those given, and
/// none that is left out comes before one that is kept.
pub proof fn law_next_dates(dates: Seq<Date>, today: Date)
    ensures
        strictly_ascending(next_dates(dates, today)),
        next_dates(dates, today).len() <= MAX_DATES_PER_BIN,
        forall|i: int|
            0 <= i < next_dates(dates, today).len() ==> !earlier(
                #[trigger] next_dates(dates, today)[i],
                today,
            ) && dates.contains(next_dates(dates, today)[i]),
        forall|i: int, k: int|
            0 <= i < next_dates(dates, today).len() && 0 <= k < dates.len() && !earlier(
                #[trigger] dates[k],
                today,
            ) && !next_dates(dates, today).contains(dates[k]) ==> earlier(
                #[trigger] next_dates(dates, today)[i],
                dates[k],
            ),
{
    let p = |d: Date| !earlier(d, today);
    let picked = dates.filter(p);
    let s = sorted(picked);
    lemma_sorted(picked);
    lemma_distinct_dates(s);
    let all = distinct_dates(s);
    let kept = next_dates(dates, today);
    assert forall|i: int| 0 <= i < kept.len() implies #[trigger] kept[i] == all[i] by {}
    assert forall|i: int| 0 <= i < kept.len() implies !earlier(#[trigger] kept[i], today)
        && dates.contains(kept[i]) by {
        assert(s.contains(all[i]));
        lemma_sorted_contains(picked, all[i]);
        dates.lemma_filter_contains_rev(p, all[i]);
        let k = choose|k: int| 0 <= k < picked.len() && picked[k] == all[i];
        dates.lemma_filter_pred(p, k);
    }
    assert forall|i: int, k: int|
        0 <= i < kept.len() && 0 <= k < dates.len() && !earlier(#[trigger] dates[k], today)
            && !kept.contains(dates[k]) implies earlier(#[trigger] kept[i], dates[k]) by {
        dates.lemma_filter_contains(p, k);
        lemma_sorted_contains(picked, dates[k]);
        let m = choose|m: int| 0 <= m < s.len() && s[m] == dates[k];
        assert(all.contains(s[m]));
        let j = choose|j: int| 0 <= j < all.len() && all[j] == dates[k];
        if j < kept.len() {
            assert(kept[j] == dates[k]);
        }
        assert(earlier(all[i], all[j]));
    }
}

/// No next date is missed: unless as many dates are kept as is allowed, every date
/// from today on is kept.
pub proof fn law_no_next_date_is_missed(dates: Seq<Date>, today: Date, k: int)
    requires
        0 <= k < dates.len(),
        !earlier(dates[k], today),
    ensures
        next_dates(dates, today).len() > 0,
        next_dates(dates, today).len() < 8 ==> next_dates(dates, today).contains(dates[k]),
{
    let p = |d: Date| !earlier(d, today);
    let picked = dates.filter(p);
    let s = sorted(picked);
    lemma_sorted(picked);
    lemma_distinct_dates(s);
    dates.lemma_filter_contains(p, k);
    lemma_sorted_contains(picked, dates[k]);
    let m = choose|m: int| 0 <= m < s.len() && s[m] == dates[k];
    assert(distinct_dates(s).contains(s[m]));
}

/// Every property that has an id and a summary is among the addresses, under its id
/// and with the words of its summary; and there is none without both.
pub proof fn law_every_property_is_listed(
    data: &SearchResponse,
    r: Vec<(String, String)>,
    i: int,
)
    requires
        call_ensures(addresses_of, (data,), r),
        0 <= i < data.address_summaries@.len(),
    ensures
        data.address_summaries@[i].system_id@.len() > 0 && words(
            data.address_summaries@[i].summary@,
        ).len() > 0 ==> exists|j: int|
            0 <= j < r@.len() && (#[trigger] r@[j]).0@ == data.address_summaries@[i].system_id@
                && words(r@[j].1@) == words(data.address_summaries@[i].summary@),
        forall|j: int|
            0 <= j < r@.len() ==> (#[trigger] r@[j]).0@.len() > 0 && r@[j].1@.len() > 0,
        r@.len() <= data.address_summaries@.len(),
{
    let list = data.address_summaries@;
    let f = |a: AddressSummary| address_of(a);
    let a = list[i];
    assert(pair_texts(r@) == list.filter_map(f));
    lemma_filter_map_len(list, f);
    assert(pair_texts(r@).len() == r@.len());
    if a.system_id@.len() > 0 && words(a.summary@).len() > 0 {
        lemma_collapsed(a.summary@);
        assert(collapsed(a.summary@).len() > 0) by {
            if collapsed(a.summary@).len() == 0 {
                assert(words(collapsed(a.summary@)).len() == 0);
            }
        }
        lemma_filter_map_holds(list, f, i);
        let j = choose|j: int|
            0 <= j < pair_texts(r@).len() && pair_texts(r@)[j] == (
                a.system_id@,
                collapsed(a.summary@),
            );
        assert(pair_texts(r@)[j] == (r@[j].0@, r@[j].1@));
        assert(r@[j].0@ == a.system_id@);
    }
    assert forall|j: int| 0 <= j < r@.len() implies (#[trigger] r@[j]).0@.len() > 0 && r@[j].1@.len()
        > 0 by {
        let e = pair_texts(r@)[j];
        assert(list.filter_map(f).contains(e));
        list.lemma_filter_map_contains(f, e);
    }
}

/// Every container of a property is listed: whatever stands between two commas, or
/// before the first or behind the last, without the white space around it.
pub proof fn law_every_container_is_listed(
    data: &PropertyResponse,
    containers: String,
    a: Seq<char>,
    part: Seq<char>,
    b: Seq<char>,
    r: Vec<String>,
)
    requires
        call_ensures(bin_ids_of, (data,), r),
        data.provider_specific_fields is Some,
        (data.provider_specific_fields->0).containers == Some(containers),
        containers@ == a + part + b,
        a.len() == 0 || a.last() == ',',
        b.len() == 0 || b[0] == ',',
        !part.contains(','),
        trimmed(part).len() > 0,
    ensures
        exists|j: int| 0 <= j < r@.len() && (#[trigger] r@[j])@ == trimmed(part),
{
    reveal_strlit(",");
    let comma = ","@;
    let c = containers@;
    let f = |p: Seq<char>| listed(p);
    assert(!contains_text(part, comma)) by {
        if contains_text(part, comma) {
            let i = choose|i: int| #[trigger] occurs_at(part, comma, i);
            assert(part.subrange(i, i + 1)[0] == part[i]);
            assert(part[i] == ',');
        }
    }
    lemma_one_piece(part, comma);
    let tail = part + b;
    if b.len() > 0 {
        let rest = b.skip(1);
        assert(tail =~= part + comma + rest);
        law_pieces_of_both(part, comma, rest);
    } else {
        assert(tail =~= part);
    }
    assert(pieces(tail, comma)[0] == part);
    lemma_pieces_free(tail, comma);
    let all = pieces(c, comma);
    let n = if a.len() > 0 {
        let front = a.drop_last();
        assert(c =~= front + comma + tail);
        law_pieces_of_both(front, comma, tail);
        pieces(front, comma).len() as int
    } else {
        assert(c =~= tail);
        0
    };
    assert(all[n] == part);
    assert(f(all[n]) == Some(trimmed(part)));
    lemma_filter_map_holds(all, f, n);
    let ids = texts(r@);
    assert(ids == all.filter_map(f));
    let j = choose|j: int| 0 <= j < ids.len() && ids[j] == trimmed(part);
    assert(r@[j]@ == trimmed(part));
}

/// A container counts only when it is in use and on a live round, and then goes by
/// its title, without the mark of estate containers.
pub proof fn law_only_live_containers_count(
    data: &BinResponse,
    r: Option<String>,
    title: String,
    rest: Seq<char>,
)
    requires
        call_ensures(service_of, (data,), r),
        data.sub_title == Some(title),
        !contains_text(rest, "ES_"@),
        words(rest).len() > 0,
        title@ == rest || title@ == "ES_"@ + rest,
    ensures
        r is Some <==> !data.disabled && data.collection is Some && data.collection->0@ == "Live"@,
        r matches Some(name) ==> words(name@) == words(rest) && name@ == collapsed(rest),
{
    reveal_strlit("ES_");
    let mark = "ES_"@;
    let none = Seq::<char>::empty();
    lemma_one_piece(rest, mark);
    if title@ == "ES_"@ + rest {
        law_pieces_of_both(none, mark, rest);
        assert(none + mark + rest =~= title@);
        crate::text::lemma_first_index(none, mark);
        assert(pieces(none, mark) == seq![none]);
        assert(pieces(title@, mark) =~= seq![none, rest]);
        assert(seq![none, rest].drop_last() =~= seq![none]);
        reveal_with_fuel(joined, 3);
        assert(joined(seq![none, rest], none) =~= rest);
    }
    if title@ == rest {
        assert(joined(seq![rest], none) =~= rest);
    }
    assert(replaced(title@, mark, none) == rest);
    lemma_collapsed(rest);
    assert(collapsed(rest).len() > 0) by {
        if collapsed(rest).len() == 0 {
            assert(words(collapsed(rest)).len() == 0);
        }
    }
    assert(text_of(r) == live_label(*data));
}

proof fn lemma_leading(day: Seq<char>, rest: Seq<char>)
    requires
        all_ascii(day),
    ensures
        leading_bytes(day + rest, day.len() as int) == Some(day),
    decreases day.len(),
{
    let s = day + rest;
    if day.len() > 0 {
        let t = day.skip(1);
        assert(s.skip(1) =~= t + rest);
        assert(ascii(day[0]));
        assert forall|i: int| 0 <= i < t.len() implies ascii(#[trigger] t[i]) by {
            assert(t[i] == day[i + 1]);
        }
        lemma_leading(t, rest);
        assert(day =~= seq![day[0]] + t);
    } else {
        assert(day =~= Seq::empty());
    }
}

/// Every timestamp of a schedule counts by its day, whatever time it has: a day of
/// ten characters that reads as a date is among the dates.
pub proof fn law_every_timestamp_counts(
    data: &WorkflowResponse,
    r: Vec<Date>,
    i: int,
    day: Seq<char>,
    time: Seq<char>,
    date: Date,
)
    requires
        call_ensures(dates_of, (data,), r),
        data.trigger is Some,
        0 <= i < (data.trigger->0).dates@.len(),
        (data.trigger->0).dates@[i]@ == day + time,
        all_ascii(day) && day.len() == 10,
        date_read(day, "%Y-%m-%d"@) == Some(date),
    ensures
        r@.contains(date),
        r@.len() <= (data.trigger->0).dates@.len(),
{
    let list = (data.trigger->0).dates@;
    let f = |d: String| day_of(d@);
    lemma_leading(day, time);
    assert(f(list[i]) == Some(date));
    lemma_filter_map_holds(list, f, i);
    lemma_filter_map_len(list, f);
}

/// The collections of a container are those of its label on the next dates, the
/// soonest first and each once: none is over, and unless there are as many as are
/// kept, no date from today on is missing.
pub proof fn law_collections_of_a_container(
    service: &str,
    dates: Vec<Date>,
    today: Date,
    r: Vec<Collection>,
    k: int,
)
    requires
        call_ensures(schedule, (service, dates, today), r),
    ensures
        r@.len() <= 8,
        forall|i: int|
            0 <= i < r@.len() ==> (#[trigger] r@[i]).service@ == service@ && !earlier(
                r@[i].date,
                today,
            ) && dates@.contains(r@[i].date),
        forall|i: int, j: int|
            0 <= i < j < r@.len() ==> earlier((#[trigger] r@[i]).date, (#[trigger] r@[j]).date),
        0 <= k < dates@.len() && !earlier(dates@[k], today) ==> r@.len() > 0 && (exists|i: int|
            0 <= i < r@.len() && (#[trigger] r@[i]).date == dates@[k]) || r@.len() == 8 && earlier(
            r@[7].date,
            dates@[k],
        ),
{
    let next = next_dates(dates@, today);
    law_next_dates(dates@, today);
    assert forall|i: int| 0 <= i < r@.len() implies (#[trigger] r@[i]).service@ == service@ && !earlier(
        r@[i].date,
        today,
    ) && dates@.contains(r@[i].date) by {
        assert(r@[i].date == next[i]);
    }
    assert forall|i: int, j: int| 0 <= i < j < r@.len() implies earlier(
        (#[trigger] r@[i]).date,
        (#[trigger] r@[j]).date,
    ) by {
        assert(earlier(next[i], next[j]));
    }
    if 0 <= k < dates@.len() && !earlier(dates@[k], today) {
        law_no_next_date_is_missed(dates@, today, k);
        if next.contains(dates@[k]) {
            let i = choose|i: int| 0 <= i < next.len() && next[i] == dates@[k];
            assert(r@[i].date == dates@[k]);
        } else {
            assert(next.len() == 8);
            assert(earlier(next[7], dates@[k]));
            assert(r@[7].date == next[7]);
        }
    }
}

/// What is kept of the service is kept for one day.
pub proof fn law_answers_are_kept_for_a_day(key: Seq<char>, a: Date, b: Date)
    requires
        a.wf(),
        b.wf(),
    ensures
        day_key(key, a) == day_key(key, b) ==> a == b,
{
    let head = key + ":"@;
    assert(day_key(key, a).skip(head.len() as int) =~= iso_text(a));
    assert(day_key(key, b).skip(head.len() as int) =~= iso_text(b));
    law_date_texts_tell_dates_apart(a, b);
}

// --- Functions ----------------------------------------------------------------

/// Whether an answer holds nothing.
fn is_blank(body: &str) -> (r: bool)
    ensures
        r == blank(body@),
{
    let b: Vec<char> = chars_of(body);
    trim(b.as_slice()).len() == 0
}

/// The ids and addresses of the properties of a postcode.
pub fn addresses_of(data: &SearchResponse) -> (r: Vec<(String, String)>)
    ensures
        pair_texts(r@) == addresses(*data),
{
    let list: &Vec<AddressSummary> = &data.address_summaries;
    let ghost f = |a: AddressSummary| address_of(a);
    let mut out: Vec<(String, String)> = Vec::new();
    let mut i: usize = 0;
    assert(list@.take(0) =~= Seq::<AddressSummary>::empty());
    assert(pair_texts(out@) =~= list@.take(0).filter_map(f));
    while i < list.len()
        invariant
            i <= list@.len(),
            f == (|a: AddressSummary| address_of(a)),
            pair_texts(out@) == list@.take(i as int).filter_map(f),
        decreases list@.len() - i,
    {
        let ghost sofar = pair_texts(out@);
        proof {
            list@.lemma_filter_map_take_succ(f, i as int);
        }
        let id: String = list[i].system_id.clone();
        let address: String = collapse_ws(list[i].summary.as_str());
        if !id.as_str().is_empty() && !address.as_str().is_empty() {
            out.push((id, address));
            assert(pair_texts(out@) =~= sofar + seq![(id@, address@)]);
        } else {
            assert(sofar + Seq::<(Seq<char>, Seq<char>)>::empty() =~= sofar);
        }
        i = i + 1;
    }
    assert(list@.take(i as int) =~= list@);
    out
}

/// What reading the answer to a search comes to.
pub open spec fn search_read<E>(
    reply: Result<SearchResponse, E>,
    r: Result<Vec<(String, String)>, E>,
) -> bool {
    match reply {
        Ok(data) => r matches Ok(v) && pair_texts(v@) == addresses(data),
        Err(e) => r == Err::<Vec<(String, String)>, E>(e),
    }
}

/// The ids and addresses in the answer to a search. The service pads addresses
/// with runs of spaces, which are tidied.
pub fn parse_addresses<E, R: Fn(&str) -> Result<SearchResponse, E>>(body: &str, read: &R) -> (r:
    Result<Vec<(String, String)>, E>)
    requires
        read.requires((body,)),
    ensures
        exists|reply: Result<SearchResponse, E>|
            read.ensures((body,), reply) && #[trigger] search_read(reply, r),
{
    let reply: Result<SearchResponse, E> = read(body);
    let ghost came = reply;
    let r: Result<Vec<(String, String)>, E> = match reply {
        Ok(data) => Ok(addresses_of(&data)),
        Err(e) => Err(e),
    };
    assert(search_read(came, r));
    r
}

/// The ids of the containers of a property.
pub fn bin_ids_of(data: &PropertyResponse) -> (r: Vec<String>)
    ensures
        texts(r@) == container_ids(*data),
{
    let mut out: Vec<String> = Vec::new();
    assert(texts(out@) =~= Seq::<Seq<char>>::empty());
    match &data.provider_specific_fields {
        None => out,
        Some(f) => match &f.containers {
            None => out,
            Some(c) => {
                let v: Vec<char> = chars_of(c.as_str());
                let comma: Vec<char> = chars_of(",");
                proof {
                    reveal_strlit(",");
                }
                let parts: Vec<Vec<char>> = split(v.as_slice(), comma.as_slice());
                let ghost all = rows(parts@);
                let ghost g = |part: Seq<char>| listed(part);
                let mut i: usize = 0;
                assert(all.take(0) =~= Seq::<Seq<char>>::empty());
                assert(texts(out@) =~= all.take(0).filter_map(g));
                while i < parts.len()
                    invariant
                        i <= parts@.len(),
                        all == rows(parts@),
                        g == (|part: Seq<char>| listed(part)),
                        texts(out@) == all.take(i as int).filter_map(g),
                    decreases parts@.len() - i,
                {
                    let ghost sofar = texts(out@);
                    proof {
                        assert(all[i as int] == parts@[i as int]@);
                        all.lemma_filter_map_take_succ(g, i as int);
                    }
                    let part: &[char] = trim(parts[i].as_slice());
                    if part.len() > 0 {
                        out.push(string_of(part));
                        assert(texts(out@) =~= sofar + seq![part@]);
                    } else {
                        assert(sofar + Seq::<Seq<char>>::empty() =~= sofar);
                    }
                    i = i + 1;
                }
                assert(all.take(i as int) =~= all);
                out
            },
        },
    }
}

/// The ids of the containers in the answer on a property.
pub fn parse_bin_ids<E, R: Fn(&str) -> Result<PropertyResponse, E>>(body: &str, read: &R) -> (r:
    Result<Vec<String>, E>)
    requires
        takes_any(*read),
    ensures
        read_unless_blank(
            body@,
            *read,
            |v: Vec<String>| v@.len() == 0,
            |data: PropertyResponse, v: Vec<String>| texts(v@) == container_ids(data),
            r,
        ),
{
    if is_blank(body) {
        return Ok(Vec::new());
    }
    let reply: Result<PropertyResponse, E> = read(body);
    assert(gives(*read, body@, reply));
    match reply {
        Ok(data) => Ok(bin_ids_of(&data)),
        Err(e) => Err(e),
    }
}

/// Tidies the label of a container for print. The mark of estate containers
/// means nothing to a resident; the rest is the council's own wording.
pub fn service_name(sub_title: &str) -> (r: String)
    ensures
        r@ == label(sub_title@),
{
    let v: Vec<char> = chars_of(sub_title);
    let mark: Vec<char> = chars_of("ES_");
    proof {
        reveal_strlit("ES_");
    }
    let none: Vec<char> = Vec::new();
    assert(none@ =~= Seq::<char>::empty());
    let plain: Vec<char> = replace(v.as_slice(), mark.as_slice(), none.as_slice());
    collapse_ws(string_of(plain.as_slice()).as_str())
}

/// The label of a container that is in use and on a live round.
pub fn service_of(data: &BinResponse) -> (r: Option<String>)
    ensures
        text_of(r) == live_label(*data),
{
    let live: bool = match &data.collection {
        Some(c) => same_str(c.as_str(), "Live"),
        None => false,
    };
    if data.disabled || !live {
        return None;
    }
    let title: String = match &data.sub_title {
        Some(t) => t.clone(),
        None => String::new(),
    };
    let name: String = service_name(title.as_str());
    if name.as_str().is_empty() {
        None
    } else {
        Some(name)
    }
}

/// The label in the answer on a container, or nothing when it is out of use or
/// not on a live round.
pub fn parse_service<E, R: Fn(&str) -> Result<BinResponse, E>>(body: &str, read: &R) -> (r: Result<
    Option<String>,
    E,
>)
    requires
        takes_any(*read),
    ensures
        read_unless_blank(
            body@,
            *read,
            |s: Option<String>| s is None,
            |data: BinResponse, s: Option<String>| text_of(s) == live_label(data),
            r,
        ),
{
    if is_blank(body) {
        return Ok(None);
    }
    let reply: Result<BinResponse, E> = read(body);
    assert(gives(*read, body@, reply));
    match reply {
        Ok(data) => Ok(service_of(&data)),
        Err(e) => Err(e),
    }
}

/// The ids of the schedules in the answer on a container.
pub fn parse_workflow_ids<E, R: Fn(&str) -> Result<CollectionResponse, E>>(body: &str, read: &R) -> (
r: Result<Vec<String>, E>)
    requires
        takes_any(*read),
    ensures
        read_unless_blank(
            body@,
            *read,
            |v: Vec<String>| v@.len() == 0,
            |data: CollectionResponse, v: Vec<String>| v == data.workflow_ids,
            r,
        ),
{
    if is_blank(body) {
        return Ok(Vec::new());
    }
    let reply: Result<CollectionResponse, E> = read(body);
    assert(gives(*read, body@, reply));
    match reply {
        Ok(data) => Ok(data.workflow_ids),
        Err(e) => Err(e),
    }
}

/// The first characters, as many as take up `n` bytes, if there are such.
fn take_bytes(s: &[char], n: usize) -> (r: Option<Vec<char>>)
    ensures
        match r {
            Some(v) => leading_bytes(s@, n as int) == Some(v@),
            None => leading_bytes(s@, n as int) is None,
        },
    decreases s@.len(),
{
    if n == 0 {
        let out: Vec<char> = Vec::new();
        assert(out@ =~= Seq::<char>::empty());
        return Some(out);
    }
    if s.len() == 0 {
        return None;
    }
    let c: char = s[0];
    let width: usize = if c <= '\u{7f}' {
        1
    } else if c <= '\u{7ff}' {
        2
    } else if c <= '\u{ffff}' {
        3
    } else {
        4
    };
    if width > n {
        return None;
    }
    assert(s@.subrange(1, s@.len() as int) =~= s@.skip(1));
    match take_bytes(&s[1..s.len()], n - width) {
        Some(rest) => {
            let mut out: Vec<char> = Vec::new();
            out.push(c);
            crate::text::push_all(&mut out, rest.as_slice());
            assert(out@ =~= seq![c] + rest@);
            Some(out)
        },
        None => None,
    }
}

/// The dates of a schedule. They stand as timestamps at some small hour for the
/// whole day, so only their dates count.
pub fn dates_of(data: &WorkflowResponse) -> (r: Vec<Date>)
    ensures
        r@ == workflow_dates(*data),
        forall|i: int| 0 <= i < r@.len() ==> (#[trigger] r@[i]).wf(),
{
    let mut out: Vec<Date> = Vec::new();
    match &data.trigger {
        None => out,
        Some(t) => {
            let list: &Vec<String> = &t.dates;
            let ghost f = |d: String| day_of(d@);
            let mut i: usize = 0;
            assert(list@.take(0) =~= Seq::<String>::empty());
            assert(out@ =~= list@.take(0).filter_map(f));
            while i < list.len()
                invariant
                    i <= list@.len(),
                    f == (|d: String| day_of(d@)),
                    out@ == list@.take(i as int).filter_map(f),
                    forall|j: int| 0 <= j < out@.len() ==> (#[trigger] out@[j]).wf(),
                decreases list@.len() - i,
            {
                let ghost sofar = out@;
                proof {
                    list@.lemma_filter_map_take_succ(f, i as int);
                }
                let v: Vec<char> = chars_of(list[i].as_str());
                let day: Option<Date> = match take_bytes(v.as_slice(), 10) {
                    Some(text) => parse_date_by(string_of(text.as_slice()).as_str(), "%Y-%m-%d"),
                    None => None,
                };
                match day {
                    Some(d) => {
                        out.push(d);
                        assert(out@ =~= sofar + seq![d]);
                    },
                    None => {
                        assert(sofar + Seq::<Date>::empty() =~= sofar);
                    },
                }
                i = i + 1;
            }
            assert(list@.take(i as int) =~= list@);
            out
        },
    }
}

/// The dates in the answer on a schedule.
pub fn parse_dates<E, R: Fn(&str) -> Result<WorkflowResponse, E>>(body: &str, read: &R) -> (r: Result<
    Vec<Date>,
    E,
>)
    requires
        takes_any(*read),
    ensures
        read_unless_blank(
            body@,
            *read,
            |v: Vec<Date>| v@.len() == 0,
            |data: WorkflowResponse, v: Vec<Date>| v@ == workflow_dates(data),
            r,
        ),
        r matches Ok(v) ==> forall|i: int| 0 <= i < v@.len() ==> (#[trigger] v@[i]).wf(),
{
    if is_blank(body) {
        return Ok(Vec::new());
    }
    let reply: Result<WorkflowResponse, E> = read(body);
    assert(gives(*read, body@, reply));
    match reply {
        Ok(data) => Ok(dates_of(&data)),
        Err(e) => Err(e),
    }
}

/// The next collections of a container, from the dates of its schedules.
pub fn schedule(service: &str, dates: Vec<Date>, today: Date) -> (r: Vec<Collection>)
    ensures
        r@.len() == next_dates(dates@, today).len(),
        forall|i: int|
            0 <= i < r@.len() ==> (#[trigger] r@[i]).service@ == service@ && r@[i].date
                == next_dates(dates@, today)[i],
{
    let ghost p = |d: Date| !earlier(d, today);
    let mut picked: Vec<Date> = Vec::new();
    let mut i: usize = 0;
    assert(dates@.take(0) =~= Seq::<Date>::empty());
    assert(dates@.take(0).filter(p) =~= Seq::<Date>::empty());
    while i < dates.len()
        invariant
            i <= dates@.len(),
            p == (|d: Date| !earlier(d, today)),
            picked@ == dates@.take(i as int).filter(p),
        decreases dates@.len() - i,
    {
        proof {
            assert(dates@.take(i + 1) =~= dates@.take(i as int).push(dates@[i as int]));
            dates@.take(i as int).lemma_filter_push(dates@[i as int], p);
        }
        if !is_earlier(dates[i], today) {
            picked.push(dates[i]);
        }
        i = i + 1;
    }
    assert(dates@.take(i as int) =~= dates@);
    let all: Vec<Date> = sort(picked);
    let mut kept: Vec<Date> = Vec::new();
    let mut k: usize = 0;
    assert(all@.take(0) =~= Seq::<Date>::empty());
    while k < all.len()
        invariant
            k <= all@.len(),
            kept@ == distinct_dates(all@.take(k as int)),
        decreases all@.len() - k,
    {
        assert(all@.take(k + 1).drop_last() =~= all@.take(k as int));
        assert(all@.take(k + 1).last() == all@[k as int]);
        if !(kept.len() > 0 && kept[kept.len() - 1] == all[k]) {
            kept.push(all[k]);
        }
        k = k + 1;
    }
    assert(all@.take(k as int) =~= all@);
    if kept.len() > MAX_DATES_PER_BIN {
        kept.truncate(MAX_DATES_PER_BIN);
    }
    assert(kept@ =~= next_dates(dates@, today));
    let mut out: Vec<Collection> = Vec::new();
    let mut m: usize = 0;
    while m < kept.len()
        invariant
            m <= kept@.len(),
            out@.len() == m,
            forall|j: int|
                0 <= j < m ==> (#[trigger] out@[j]).service@ == service@ && out@[j].date == kept@[j],
        decreases kept@.len() - m,
    {
        out.push(Collection { service: service.to_string(), date: kept[m] });
        m = m + 1;
    }
    out
}

/// Asks for `url` through the cache. Schedules are snapshots of what is next, so
/// an answer is kept for one day.
pub fn cached_get<E: Reason, G: Fn(&str) -> Result<String, E>>(
    cache: &mut Option<Cache>,
    kind: &str,
    key: &str,
    today: Date,
    url: &str,
    get: &G,
) -> (r: Result<String, E>)
    requires
        today.wf(),
        takes_any(*get),
    ensures
        called_through(
            *old(cache),
            *final(cache),
            kind@,
            day_key(key@, today),
            Some(today),
            false,
            plain_replies(*get, url@),
            r,
        ),
{
    let mut text: Vec<char> = chars_of(key);
    push_str(&mut text, ":");
    push_str(&mut text, format_date(today, "%Y-%m-%d").as_str());
    let full: String = string_of(text.as_slice());
    let call = || -> (outcome: Result<String, E>)
        requires
            takes_any(*get),
        ensures
            gives(*get, url@, outcome),
    { get(url) };
    cached(cache, kind, full.as_str(), Some(today), false, call)
}

/// The address of something at the service: `path` and then `id`.
pub fn url_for(path: &str, id: &str) -> (r: String)
    ensures
        r@ == api_url(path@ + id@),
{
    let mut text: Vec<char> = chars_of(API_URI);
    push_str(&mut text, "/");
    push_str(&mut text, TENANT_ID);
    push_str(&mut text, path);
    push_str(&mut text, id);
    assert(text@ =~= api_url(path@ + id@));
    string_of(text.as_slice())
}

/// What is sent to search for the properties of a postcode.
pub fn payload_for(postcode: &str) -> (r: String)
    ensures
        r@ == search_payload(postcode@),
{
    let mut text: Vec<char> = chars_of("{\"Postcode\":\"");
    push_str(&mut text, postcode);
    push_str(&mut text, "\",\"Filters\":[");
    push_str(&mut text, RESIDENTIAL_FILTER);
    push_str(&mut text, "]}");
    string_of(text.as_slice())
}

/// The containers of a property.
fn bin_ids<E: Reason, G: Fn(&str) -> Result<String, E>, R: Fn(&str) -> Result<PropertyResponse, E>>(
    property: &str,
    today: Date,
    cache: &mut Option<Cache>,
    get: &G,
    read: &R,
) -> (r: Result<Vec<String>, E>)
    requires
        today.wf(),
        takes_any(*get),
        takes_any(*read),
    ensures
        containers_found(*old(cache), *final(cache), property@, today, *get, *read, r),
{
    let url: String = url_for("/alloywastepages/getproperty/", property);
    let given: Result<String, E> = cached_get(
        cache,
        "bins-hackney-property",
        property,
        today,
        url.as_str(),
        get,
    );
    let ghost came = given;
    let r: Result<Vec<String>, E> = match given {
        Err(e) => Err(e),
        Ok(body) => parse_bin_ids(body.as_str(), read),
    };
    assert(containers_read(*read, came, r));
    r
}

/// What was had of the containers of a property is read.
pub open spec fn containers_read<E, R: Fn(&str) -> Result<PropertyResponse, E>>(
    read: R,
    given: Result<String, E>,
    r: Result<Vec<String>, E>,
) -> bool {
    match given {
        Err(e) => r == Err::<Vec<String>, E>(e),
        Ok(body) => read_unless_blank(
            body@,
            read,
            |v: Vec<String>| v@.len() == 0,
            |data: PropertyResponse, v: Vec<String>| texts(v@) == container_ids(data),
            r,
        ),
    }
}

/// The containers of a property were asked for, and `r` is what came of it.
pub open spec fn containers_found<
    E: Reason,
    G: Fn(&str) -> Result<String, E>,
    R: Fn(&str) -> Result<PropertyResponse, E>,
>(
    before: Option<Cache>,
    cache: Option<Cache>,
    property: Seq<char>,
    today: Date,
    get: G,
    read: R,
    r: Result<Vec<String>, E>,
) -> bool {
    exists|given: Result<String, E>|
        called_through(
            before,
            cache,
            "bins-hackney-property"@,
            day_key(property, today),
            Some(today),
            false,
            plain_replies(get, api_url("/alloywastepages/getproperty/"@ + property)),
            given,
        ) && #[trigger] containers_read(read, given, r)
}

/// The collections are the next ones of one service, from some dates.
pub open spec fn scheduled(found: Seq<Collection>, today: Date) -> bool {
    found.len() == 0 || exists|service: Seq<char>, dates: Seq<Date>| #[trigger]
        scheduled_from(found, service, dates, today)
}

/// The collections are the next ones of the service, from the dates given.
pub open spec fn scheduled_from(
    found: Seq<Collection>,
    service: Seq<char>,
    dates: Seq<Date>,
    today: Date,
) -> bool {
    &&& found.len() == next_dates(dates, today).len()
    &&& forall|i: int|
        0 <= i < found.len() ==> (#[trigger] found[i]).service@ == service && found[i].date
            == next_dates(dates, today)[i]
}

/// What was had of a schedule is read.
pub open spec fn dates_read<E, W: Fn(&str) -> Result<WorkflowResponse, E>>(
    read: W,
    given: Result<String, E>,
    r: Result<Vec<Date>, E>,
) -> bool {
    match given {
        Err(e) => r == Err::<Vec<Date>, E>(e),
        Ok(body) => read_unless_blank(
            body@,
            read,
            |v: Vec<Date>| v@.len() == 0,
            |data: WorkflowResponse, v: Vec<Date>| v@ == workflow_dates(data),
            r,
        ),
    }
}

/// A schedule was asked for, and `r` is what came of it.
pub open spec fn dates_found<
    E: Reason,
    G: Fn(&str) -> Result<String, E>,
    W: Fn(&str) -> Result<WorkflowResponse, E>,
>(
    before: Option<Cache>,
    cache: Option<Cache>,
    workflow: Seq<char>,
    today: Date,
    get: G,
    read: W,
    r: Result<Vec<Date>, E>,
) -> bool {
    exists|given: Result<String, E>|
        called_through(
            before,
            cache,
            "bins-hackney-workflow"@,
            day_key(workflow, today),
            Some(today),
            false,
            plain_replies(get, api_url("/alloywastepages/getworkflow/"@ + workflow)),
            given,
        ) && #[trigger] dates_read(read, given, r)
}

/// One more schedule was asked for after `sofar`, unless that was a failure, and
/// `r` is what came of it.
pub open spec fn dates_added<
    E: Reason,
    G: Fn(&str) -> Result<String, E>,
    W: Fn(&str) -> Result<WorkflowResponse, E>,
>(
    before: Option<Cache>,
    cache: Option<Cache>,
    workflow: Seq<char>,
    today: Date,
    get: G,
    read: W,
    sofar: Result<Seq<Date>, E>,
    r: Result<Seq<Date>, E>,
) -> bool {
    match sofar {
        Err(e) => r == Err::<Seq<Date>, E>(e) && cache == before,
        Ok(dates) => exists|more: Result<Vec<Date>, E>| #[trigger]
            dates_found(before, cache, workflow, today, get, read, more) && (match more {
                Err(e) => r == Err::<Seq<Date>, E>(e),
                Ok(v) => r == Ok::<Seq<Date>, E>(dates + v@),
            }),
    }
}

/// The schedules were asked for one after the other, and `r` is what came of it:
/// all their dates, or the first failure.
pub open spec fn dates_gathered<
    E: Reason,
    G: Fn(&str) -> Result<String, E>,
    W: Fn(&str) -> Result<WorkflowResponse, E>,
>(
    before: Option<Cache>,
    cache: Option<Cache>,
    workflows: Seq<String>,
    today: Date,
    get: G,
    read: W,
    r: Result<Seq<Date>, E>,
) -> bool
    decreases workflows.len(),
{
    if workflows.len() == 0 {
        r == Ok::<Seq<Date>, E>(Seq::empty()) && cache == before
    } else {
        exists|middle: Option<Cache>, sofar: Result<Seq<Date>, E>|
            dates_gathered(before, middle, workflows.drop_last(), today, get, read, sofar)
                && #[trigger] dates_added(
                middle,
                cache,
                workflows.last()@,
                today,
                get,
                read,
                sofar,
                r,
            )
    }
}

proof fn lemma_gathered_failure<
    E: Reason,
    G: Fn(&str) -> Result<String, E>,
    W: Fn(&str) -> Result<WorkflowResponse, E>,
>(
    before: Option<Cache>,
    cache: Option<Cache>,
    workflows: Seq<String>,
    n: int,
    today: Date,
    get: G,
    read: W,
    e: E,
)
    requires
        0 <= n <= workflows.len(),
        dates_gathered(
            before,
            cache,
            workflows.take(n),
            today,
            get,
            read,
            Err::<Seq<Date>, E>(e),
        ),
    ensures
        dates_gathered(before, cache, workflows, today, get, read, Err::<Seq<Date>, E>(e)),
    decreases workflows.len(),
{
    if n == workflows.len() {
        assert(workflows.take(n) =~= workflows);
    } else {
        let init = workflows.drop_last();
        assert(init.take(n) =~= workflows.take(n));
        lemma_gathered_failure(before, cache, init, n, today, get, read, e);
        let failed = Err::<Seq<Date>, E>(e);
        assert(dates_added(
            cache,
            cache,
            workflows.last()@,
            today,
            get,
            read,
            failed,
            failed,
        ));
    }
}

/// Asks for the schedules one after the other and takes their dates together.
fn gather_dates<
    E: Reason,
    G: Fn(&str) -> Result<String, E>,
    W: Fn(&str) -> Result<WorkflowResponse, E>,
>(
    workflows: &Vec<String>,
    today: Date,
    cache: &mut Option<Cache>,
    get: &G,
    read: &W,
) -> (r: Result<Vec<Date>, E>)
    requires
        today.wf(),
        takes_any(*get),
        takes_any(*read),
    ensures
        dates_gathered(
            *old(cache),
            *final(cache),
            workflows@,
            today,
            *get,
            *read,
            match r {
                Ok(v) => Ok(v@),
                Err(e) => Err(e),
            },
        ),
        r matches Ok(v) ==> forall|i: int| 0 <= i < v@.len() ==> (#[trigger] v@[i]).wf(),
{
    let mut dates: Vec<Date> = Vec::new();
    let mut i: usize = 0;
    proof {
        assert(workflows@.take(0) =~= Seq::<String>::empty());
        assert(dates@ =~= Seq::<Date>::empty());
    }
    while i < workflows.len()
        invariant
            i <= workflows@.len(),
            today.wf(),
            takes_any(*get),
            takes_any(*read),
            forall|j: int| 0 <= j < dates@.len() ==> (#[trigger] dates@[j]).wf(),
            dates_gathered(
                *old(cache),
                *cache,
                workflows@.take(i as int),
                today,
                *get,
                *read,
                Ok::<Seq<Date>, E>(dates@),
            ),
        decreases workflows@.len() - i,
    {
        let ghost middle = *cache;
        let ghost sofar = dates@;
        let more: Result<Vec<Date>, E> = workflow_dates_of(
            workflows[i].as_str(),
            today,
            cache,
            get,
            read,
        );
        proof {
            assert(workflows@.take(i + 1).drop_last() =~= workflows@.take(i as int));
            assert(workflows@.take(i + 1).last() == workflows@[i as int]);
            assert(dates_gathered(
                *old(cache),
                middle,
                workflows@.take(i + 1).drop_last(),
                today,
                *get,
                *read,
                Ok::<Seq<Date>, E>(sofar),
            ));
        }
        match more {
            Err(e) => {
                proof {
                    assert(dates_added(
                        middle,
                        *cache,
                        workflows@[i as int]@,
                        today,
                        *get,
                        *read,
                        Ok::<Seq<Date>, E>(sofar),
                        Err::<Seq<Date>, E>(e),
                    ));
                    lemma_gathered_failure(
                        *old(cache),
                        *cache,
                        workflows@,
                        i + 1,
                        today,
                        *get,
                        *read,
                        e,
                    );
                }
                return Err(e);
            },
            Ok(v) => {
                let ghost came = v;
                let mut v: Vec<Date> = v;
                dates.append(&mut v);
                proof {
                    assert(dates@ =~= sofar + came@);
                    assert(dates_found(
                        middle,
                        *cache,
                        workflows@[i as int]@,
                        today,
                        *get,
                        *read,
                        Ok::<Vec<Date>, E>(came),
                    ));
                    assert(dates_added(
                        middle,
                        *cache,
                        workflows@[i as int]@,
                        today,
                        *get,
                        *read,
                        Ok::<Seq<Date>, E>(sofar),
                        Ok::<Seq<Date>, E>(dates@),
                    ));
                }
            },
        }
        i = i + 1;
    }
    assert(workflows@.take(i as int) =~= workflows@);
    Ok(dates)
}

/// Asks for a schedule and reads its dates.
fn workflow_dates_of<
    E: Reason,
    G: Fn(&str) -> Result<String, E>,
    W: Fn(&str) -> Result<WorkflowResponse, E>,
>(workflow: &str, today: Date, cache: &mut Option<Cache>, get: &G, read: &W) -> (r: Result<
    Vec<Date>,
    E,
>)
    requires
        today.wf(),
        takes_any(*get),
        takes_any(*read),
    ensures
        dates_found(*old(cache), *final(cache), workflow@, today, *get, *read, r),
        r matches Ok(v) ==> forall|i: int| 0 <= i < v@.len() ==> (#[trigger] v@[i]).wf(),
{
    let url: String = url_for("/alloywastepages/getworkflow/", workflow);
    let given: Result<String, E> = cached_get(
        cache,
        "bins-hackney-workflow",
        workflow,
        today,
        url.as_str(),
        get,
    );
    let ghost came = given;
    let r: Result<Vec<Date>, E> = match given {
        Err(e) => Err(e),
        Ok(body) => parse_dates(body.as_str(), read),
    };
    assert(dates_read(*read, came, r));
    r
}

/// What was had of a container is read.
pub open spec fn service_read<E, B: Fn(&str) -> Result<BinResponse, E>>(
    read: B,
    given: Result<String, E>,
    r: Result<Option<String>, E>,
) -> bool {
    match given {
        Err(e) => r == Err::<Option<String>, E>(e),
        Ok(body) => read_unless_blank(
            body@,
            read,
            |s: Option<String>| s is None,
            |data: BinResponse, s: Option<String>| text_of(s) == live_label(data),
            r,
        ),
    }
}

/// A container was asked for, and `r` is the label that came of it.
pub open spec fn service_found<
    E: Reason,
    G: Fn(&str) -> Result<String, E>,
    B: Fn(&str) -> Result<BinResponse, E>,
>(
    before: Option<Cache>,
    cache: Option<Cache>,
    bin_id: Seq<char>,
    today: Date,
    get: G,
    read: B,
    r: Result<Option<String>, E>,
) -> bool {
    exists|given: Result<String, E>|
        called_through(
            before,
            cache,
            "bins-hackney-bin"@,
            day_key(bin_id, today),
            Some(today),
            false,
            plain_replies(get, api_url("/alloywastepages/getbin/"@ + bin_id)),
            given,
        ) && #[trigger] service_read(read, given, r)
}

/// Asks for a container and reads its label.
fn fetch_service<
    E: Reason,
    G: Fn(&str) -> Result<String, E>,
    B: Fn(&str) -> Result<BinResponse, E>,
>(bin_id: &str, today: Date, cache: &mut Option<Cache>, get: &G, read: &B) -> (r: Result<
    Option<String>,
    E,
>)
    requires
        today.wf(),
        takes_any(*get),
        takes_any(*read),
    ensures
        service_found(*old(cache), *final(cache), bin_id@, today, *get, *read, r),
{
    let url: String = url_for("/alloywastepages/getbin/", bin_id);
    let given: Result<String, E> = cached_get(
        cache,
        "bins-hackney-bin",
        bin_id,
        today,
        url.as_str(),
        get,
    );
    let ghost came = given;
    let r: Result<Option<String>, E> = match given {
        Err(e) => Err(e),
        Ok(body) => parse_service(body.as_str(), read),
    };
    assert(service_read(*read, came, r));
    r
}

/// What was had of the schedules of a container is read.
pub open spec fn workflows_read<E, C: Fn(&str) -> Result<CollectionResponse, E>>(
    read: C,
    given: Result<String, E>,
    r: Result<Vec<String>, E>,
) -> bool {
    match given {
        Err(e) => r == Err::<Vec<String>, E>(e),
        Ok(body) => read_unless_blank(
            body@,
            read,
            |v: Vec<String>| v@.len() == 0,
            |data: CollectionResponse, v: Vec<String>| v == data.workflow_ids,
            r,
        ),
    }
}

/// The schedules of a container were asked for, and `r` is what came of it.
pub open spec fn workflows_found<
    E: Reason,
    G: Fn(&str) -> Result<String, E>,
    C: Fn(&str) -> Result<CollectionResponse, E>,
>(
    before: Option<Cache>,
    cache: Option<Cache>,
    bin_id: Seq<char>,
    today: Date,
    get: G,
    read: C,
    r: Result<Vec<String>, E>,
) -> bool {
    exists|given: Result<String, E>|
        called_through(
            before,
            cache,
            "bins-hackney-collection"@,
            day_key(bin_id, today),
            Some(today),
            false,
            plain_replies(get, api_url("/alloywastepages/getcollection/"@ + bin_id)),
            given,
        ) && #[trigger] workflows_read(read, given, r)
}

/// Asks for the schedules of a container and reads their ids.
fn fetch_workflows<
    E: Reason,
    G: Fn(&str) -> Result<String, E>,
    C: Fn(&str) -> Result<CollectionResponse, E>,
>(bin_id: &str, today: Date, cache: &mut Option<Cache>, get: &G, read: &C) -> (r: Result<
    Vec<String>,
    E,
>)
    requires
        today.wf(),
        takes_any(*get),
        takes_any(*read),
    ensures
        workflows_found(*old(cache), *final(cache), bin_id@, today, *get, *read, r),
{
    let url: String = url_for("/alloywastepages/getcollection/", bin_id);
    let given: Result<String, E> = cached_get(
        cache,
        "bins-hackney-collection",
        bin_id,
        today,
        url.as_str(),
        get,
    );
    let ghost came = given;
    let r: Result<Vec<String>, E> = match given {
        Err(e) => Err(e),
        Ok(body) => parse_workflow_ids(body.as_str(), read),
    };
    assert(workflows_read(*read, came, r));
    r
}

/// The next collections of a container with the given label, from what its
/// schedules come to.
pub open spec fn dates_scheduled<E>(
    service: Seq<char>,
    today: Date,
    dates: Result<Seq<Date>, E>,
    r: Result<Vec<Collection>, E>,
) -> bool {
    match dates {
        Err(e) => r == Err::<Vec<Collection>, E>(e),
        Ok(all) => r matches Ok(found) && scheduled_from(found@, service, all, today),
    }
}

/// What a container comes to, step by step: its label, its schedules, and their
/// dates. The first step that fails is what it comes to, and a container without
/// a label has no collections.
pub open spec fn upcoming_found<
    E: Reason,
    G: Fn(&str) -> Result<String, E>,
    B: Fn(&str) -> Result<BinResponse, E>,
    C: Fn(&str) -> Result<CollectionResponse, E>,
    W: Fn(&str) -> Result<WorkflowResponse, E>,
>(
    before: Option<Cache>,
    cache: Option<Cache>,
    bin_id: Seq<char>,
    today: Date,
    get: G,
    read_bin: B,
    read_collection: C,
    read_workflow: W,
    r: Result<Vec<Collection>, E>,
) -> bool {
    exists|c1: Option<Cache>, label: Result<Option<String>, E>| #[trigger]
        service_found(before, c1, bin_id, today, get, read_bin, label) && (match label {
            Err(e) => r == Err::<Vec<Collection>, E>(e) && cache == c1,
            Ok(None) => r matches Ok(found) && found@.len() == 0 && cache == c1,
            Ok(Some(service)) => exists|c2: Option<Cache>, ids: Result<Vec<String>, E>| #[trigger]
                workflows_found(c1, c2, bin_id, today, get, read_collection, ids) && (match ids {
                    Err(e) => r == Err::<Vec<Collection>, E>(e) && cache == c2,
                    Ok(workflows) => exists|dates: Result<Seq<Date>, E>| #[trigger]
                        dates_gathered(
                            c2,
                            cache,
                            workflows@,
                            today,
                            get,
                            read_workflow,
                            dates,
                        ) && dates_scheduled(service@, today, dates, r),
                }),
        })
}

/// The next collections of a container: none when it is out of use or not on a
/// live round. A container can be on several rounds, whose dates are taken
/// together.
pub fn upcoming_collections<
    E: Reason,
    G: Fn(&str) -> Result<String, E>,
    B: Fn(&str) -> Result<BinResponse, E>,
    C: Fn(&str) -> Result<CollectionResponse, E>,
    W: Fn(&str) -> Result<WorkflowResponse, E>,
>(
    bin_id: &str,
    today: Date,
    cache: &mut Option<Cache>,
    get: &G,
    read_bin: &B,
    read_collection: &C,
    read_workflow: &W,
) -> (r: Result<Vec<Collection>, E>)
    requires
        today.wf(),
        takes_any(*get),
        takes_any(*read_bin),
        takes_any(*read_collection),
        takes_any(*read_workflow),
    ensures
        upcoming_found(
            *old(cache),
            *final(cache),
            bin_id@,
            today,
            *get,
            *read_bin,
            *read_collection,
            *read_workflow,
            r,
        ),
        r matches Ok(found) ==> scheduled(found@, today) && dates_ok(found@),
{
    let label: Result<Option<String>, E> = fetch_service(bin_id, today, cache, get, read_bin);
    let service: String = match label {
        Err(e) => {
            return Err(e);
        },
        Ok(None) => {
            return Ok(Vec::new());
        },
        Ok(Some(name)) => name,
    };
    let workflows: Vec<String> = match fetch_workflows(
        bin_id,
        today,
        cache,
        get,
        read_collection,
    ) {
        Err(e) => {
            return Err(e);
        },
        Ok(ids) => ids,
    };
    let dates: Vec<Date> = match gather_dates(&workflows, today, cache, get, read_workflow) {
        Err(e) => {
            let r: Result<Vec<Collection>, E> = Err(e);
            assert(dates_scheduled(service@, today, Err::<Seq<Date>, E>(e), r));
            return r;
        },
        Ok(v) => v,
    };
    let ghost gathered = dates@;
    let found: Vec<Collection> = schedule(service.as_str(), dates, today);
    proof {
        assert(scheduled_from(found@, service@, gathered, today));
        assert(dates_scheduled(
            service@,
            today,
            Ok::<Seq<Date>, E>(gathered),
            Ok::<Vec<Collection>, E>(found),
        ));
        law_next_dates(gathered, today);
        assert forall|k: int| 0 <= k < found@.len() implies (#[trigger] found@[k]).date.wf() by {
            let d = next_dates(gathered, today)[k];
            assert(gathered.contains(d));
            let m = choose|m: int| 0 <= m < gathered.len() && gathered[m] == d;
            assert(gathered[m].wf());
        }
    }
    Ok(found)
}

/// Every collection is today or later.
pub open spec fn none_past(collections: Seq<Collection>, today: Date) -> bool {
    forall|i: int|
        0 <= i < collections.len() ==> !earlier((#[trigger] collections[i]).date, today)
}

proof fn lemma_scheduled_none_past(found: Seq<Collection>, today: Date)
    requires
        scheduled(found, today),
    ensures
        none_past(found, today),
{
    if found.len() > 0 {
        let (service, dates) = choose|service: Seq<char>, dates: Seq<Date>| #[trigger]
            scheduled_from(found, service, dates, today);
        law_next_dates(dates, today);
        assert forall|i: int| 0 <= i < found.len() implies !earlier(
            (#[trigger] found[i]).date,
            today,
        ) by {
            assert(found[i].date == next_dates(dates, today)[i]);
        }
    }
}

/// The addresses of an answer are those that reading it gives.
pub open spec fn search_options<E, S: Fn(&str) -> Result<SearchResponse, E>>(
    read: S,
) -> spec_fn(Seq<char>, Result<Vec<(String, String)>, E>) -> bool {
    |body: Seq<char>, options: Result<Vec<(String, String)>, E>|
        exists|reply: Result<SearchResponse, E>|
            gives(read, body, reply) && #[trigger] search_read(reply, options)
}

/// One more container was asked for, and what came of it is added to the
/// collections or to the failures.
pub open spec fn bin_added<
    E: Reason,
    G: Fn(&str) -> Result<String, E>,
    B: Fn(&str) -> Result<BinResponse, E>,
    C: Fn(&str) -> Result<CollectionResponse, E>,
    W: Fn(&str) -> Result<WorkflowResponse, E>,
>(
    before: Option<Cache>,
    cache: Option<Cache>,
    bin: String,
    today: Date,
    get: G,
    read_bin: B,
    read_collection: C,
    read_workflow: W,
    sofar: (Seq<Collection>, Seq<(String, E)>),
    now: (Seq<Collection>, Seq<(String, E)>),
) -> bool {
    exists|found: Result<Vec<Collection>, E>| #[trigger]
        upcoming_found(
            before,
            cache,
            bin@,
            today,
            get,
            read_bin,
            read_collection,
            read_workflow,
            found,
        ) && (match found {
            Ok(more) => now.0 == sofar.0 + more@ && now.1 == sofar.1,
            Err(e) => now.0 == sofar.0 && now.1 == sofar.1.push((bin, e)),
        })
}

/// The containers were asked for one after the other: their collections, and
/// the failures of those that could not be looked up.
pub open spec fn bins_gathered<
    E: Reason,
    G: Fn(&str) -> Result<String, E>,
    B: Fn(&str) -> Result<BinResponse, E>,
    C: Fn(&str) -> Result<CollectionResponse, E>,
    W: Fn(&str) -> Result<WorkflowResponse, E>,
>(
    before: Option<Cache>,
    cache: Option<Cache>,
    bins: Seq<String>,
    today: Date,
    get: G,
    read_bin: B,
    read_collection: C,
    read_workflow: W,
    all: (Seq<Collection>, Seq<(String, E)>),
) -> bool
    decreases bins.len(),
{
    if bins.len() == 0 {
        all.0.len() == 0 && all.1.len() == 0 && cache == before
    } else {
        exists|middle: Option<Cache>, sofar: (Seq<Collection>, Seq<(String, E)>)|
            bins_gathered(
                before,
                middle,
                bins.drop_last(),
                today,
                get,
                read_bin,
                read_collection,
                read_workflow,
                sofar,
            ) && #[trigger] bin_added(
                middle,
                cache,
                bins.last(),
                today,
                get,
                read_bin,
                read_collection,
                read_workflow,
                sofar,
                all,
            )
    }
}

/// Containers were asked for one after the other, each with the cache that the one
/// before it left, and `found` is what came of each.
pub open spec fn bins_asked<
    E: Reason,
    G: Fn(&str) -> Result<String, E>,
    B: Fn(&str) -> Result<BinResponse, E>,
    C: Fn(&str) -> Result<CollectionResponse, E>,
    W: Fn(&str) -> Result<WorkflowResponse, E>,
>(
    caches: Seq<Option<Cache>>,
    bins: Seq<String>,
    today: Date,
    get: G,
    read_bin: B,
    read_collection: C,
    read_workflow: W,
    found: Seq<Result<Vec<Collection>, E>>,
) -> bool {
    &&& caches.len() == bins.len() + 1
    &&& found.len() == bins.len()
    &&& forall|k: int|
        0 <= k < bins.len() ==> upcoming_found(
            caches[k],
            caches[k + 1],
            bins[k]@,
            today,
            get,
            read_bin,
            read_collection,
            read_workflow,
            #[trigger] found[k],
        )
}

/// No container's collections are lost. Each container is asked for, in order; the
/// collections of the property are those of the lists that came, one after the
/// other, so that they hold each collection of each list, and are as many as the
/// lists have together. Each container that could not be looked up is among the
/// failures with its reason, and nothing else is.
pub proof fn law_no_container_is_lost<
    E: Reason,
    G: Fn(&str) -> Result<String, E>,
    B: Fn(&str) -> Result<BinResponse, E>,
    C: Fn(&str) -> Result<CollectionResponse, E>,
    W: Fn(&str) -> Result<WorkflowResponse, E>,
>(
    before: Option<Cache>,
    cache: Option<Cache>,
    bins: Seq<String>,
    today: Date,
    get: G,
    read_bin: B,
    read_collection: C,
    read_workflow: W,
    all: (Seq<Collection>, Seq<(String, E)>),
)
    requires
        bins_gathered(
            before,
            cache,
            bins,
            today,
            get,
            read_bin,
            read_collection,
            read_workflow,
            all,
        ),
    ensures
        exists|caches: Seq<Option<Cache>>, found: Seq<Result<Vec<Collection>, E>>|
            {
                &&& #[trigger] bins_asked(
                    caches,
                    bins,
                    today,
                    get,
                    read_bin,
                    read_collection,
                    read_workflow,
                    found,
                )
                &&& caches[0] == before && caches.last() == cache
                &&& all.0 == ok_lists(found).flatten_alt()
                &&& all.0.len() == total_len(ok_lists(found))
                &&& forall|k: int, j: int|
                    0 <= k < bins.len() && found[k] is Ok && 0 <= j < found[k]->Ok_0@.len()
                        ==> all.0.contains(#[trigger] found[k]->Ok_0@[j])
                &&& all.1.len() == found.filter(|r: Result<Vec<Collection>, E>| r is Err).len()
                &&& forall|k: int|
                    0 <= k < bins.len() && (#[trigger] found[k]) is Err ==> all.1.contains(
                        (bins[k], found[k]->Err_0),
                    )
            },
    decreases bins.len(),
{
    let failed = |r: Result<Vec<Collection>, E>| r is Err;
    if bins.len() == 0 {
        let caches = seq![before];
        let found = Seq::<Result<Vec<Collection>, E>>::empty();
        assert(bins_asked(
            caches,
            bins,
            today,
            get,
            read_bin,
            read_collection,
            read_workflow,
            found,
        ));
        assert(ok_lists(found) =~= Seq::empty());
        assert(all.0 =~= ok_lists(found).flatten_alt());
    } else {
        let (middle, sofar) = choose|middle: Option<Cache>, sofar: (Seq<Collection>, Seq<(String, E)>)|
            bins_gathered(
                before,
                middle,
                bins.drop_last(),
                today,
                get,
                read_bin,
                read_collection,
                read_workflow,
                sofar,
            ) && #[trigger] bin_added(
                middle,
                cache,
                bins.last(),
                today,
                get,
                read_bin,
                read_collection,
                read_workflow,
                sofar,
                all,
            );
        let last = choose|found: Result<Vec<Collection>, E>| #[trigger]
            upcoming_found(
                middle,
                cache,
                bins.last()@,
                today,
                get,
                read_bin,
                read_collection,
                read_workflow,
                found,
            ) && (match found {
                Ok(more) => all.0 == sofar.0 + more@ && all.1 == sofar.1,
                Err(e) => all.0 == sofar.0 && all.1 == sofar.1.push((bins.last(), e)),
            });
        let init = bins.drop_last();
        law_no_container_is_lost(
            before,
            middle,
            init,
            today,
            get,
            read_bin,
            read_collection,
            read_workflow,
            sofar,
        );
        let (cs, fs) = choose|caches: Seq<Option<Cache>>, found: Seq<Result<Vec<Collection>, E>>|
            {
                &&& #[trigger] bins_asked(
                    caches,
                    init,
                    today,
                    get,
                    read_bin,
                    read_collection,
                    read_workflow,
                    found,
                )
                &&& caches[0] == before && caches.last() == middle
                &&& sofar.0 == ok_lists(found).flatten_alt()
                &&& sofar.0.len() == total_len(ok_lists(found))
                &&& forall|k: int, j: int|
                    0 <= k < init.len() && found[k] is Ok && 0 <= j < found[k]->Ok_0@.len()
                        ==> sofar.0.contains(#[trigger] found[k]->Ok_0@[j])
                &&& sofar.1.len() == found.filter(|r: Result<Vec<Collection>, E>| r is Err).len()
                &&& forall|k: int|
                    0 <= k < init.len() && (#[trigger] found[k]) is Err ==> sofar.1.contains(
                        (init[k], found[k]->Err_0),
                    )
            };
        let caches = cs.push(cache);
        let found = fs.push(last);
        assert forall|k: int| 0 <= k < bins.len() implies upcoming_found(
            caches[k],
            caches[k + 1],
            bins[k]@,
            today,
            get,
            read_bin,
            read_collection,
            read_workflow,
            #[trigger] found[k],
        ) by {
            if k < init.len() {
                assert(found[k] == fs[k]);
                assert(init[k] == bins[k]);
                assert(caches[k] == cs[k] && caches[k + 1] == cs[k + 1]);
            } else {
                assert(caches[k] == cs.last());
            }
        }
        assert(bins_asked(
            caches,
            bins,
            today,
            get,
            read_bin,
            read_collection,
            read_workflow,
            found,
        ));
        lemma_flattened_push(fs, last);
        assert(all.0 =~= ok_lists(found).flatten_alt());
        lemma_flattened(ok_lists(found));
        assert forall|k: int, j: int|
            0 <= k < bins.len() && found[k] is Ok && 0 <= j < found[k]->Ok_0@.len() implies all.0.contains(
            #[trigger] found[k]->Ok_0@[j],
        ) by {
            assert(ok_lists(found)[k][j] == found[k]->Ok_0@[j]);
        }
        fs.lemma_filter_push(last, failed);
        assert forall|k: int| 0 <= k < bins.len() && (#[trigger] found[k]) is Err implies all.1.contains(
            (bins[k], found[k]->Err_0),
        ) by {
            if k < init.len() {
                assert(found[k] == fs[k]);
                let n = choose|n: int|
                    0 <= n < sofar.1.len() && sofar.1[n] == (init[k], fs[k]->Err_0);
                assert(all.1[n] == (bins[k], found[k]->Err_0));
            } else {
                assert(all.1[all.1.len() - 1] == (bins[k], found[k]->Err_0));
            }
        }
    }
}

/// The collections of the first containers are the first collections of all of
/// them, and so are the failures.
pub proof fn law_earlier_containers_come_first<
    E: Reason,
    G: Fn(&str) -> Result<String, E>,
    B: Fn(&str) -> Result<BinResponse, E>,
    C: Fn(&str) -> Result<CollectionResponse, E>,
    W: Fn(&str) -> Result<WorkflowResponse, E>,
>(
    before: Option<Cache>,
    cache: Option<Cache>,
    bins: Seq<String>,
    n: int,
    today: Date,
    get: G,
    read_bin: B,
    read_collection: C,
    read_workflow: W,
    all: (Seq<Collection>, Seq<(String, E)>),
)
    requires
        0 <= n <= bins.len(),
        bins_gathered(
            before,
            cache,
            bins,
            today,
            get,
            read_bin,
            read_collection,
            read_workflow,
            all,
        ),
    ensures
        exists|middle: Option<Cache>, part: (Seq<Collection>, Seq<(String, E)>)|
            #[trigger] bins_gathered(
                before,
                middle,
                bins.take(n),
                today,
                get,
                read_bin,
                read_collection,
                read_workflow,
                part,
            ) && part.0.len() <= all.0.len() && part.0 == all.0.take(part.0.len() as int)
                && part.1.len() <= all.1.len() && part.1 == all.1.take(part.1.len() as int),
    decreases bins.len(),
{
    if n == bins.len() {
        assert(bins.take(n) =~= bins);
        assert(all.0 =~= all.0.take(all.0.len() as int));
        assert(all.1 =~= all.1.take(all.1.len() as int));
    } else {
        let (middle, sofar) = choose|middle: Option<Cache>, sofar: (Seq<Collection>, Seq<(String, E)>)|
            bins_gathered(
                before,
                middle,
                bins.drop_last(),
                today,
                get,
                read_bin,
                read_collection,
                read_workflow,
                sofar,
            ) && #[trigger] bin_added(
                middle,
                cache,
                bins.last(),
                today,
                get,
                read_bin,
                read_collection,
                read_workflow,
                sofar,
                all,
            );
        law_earlier_containers_come_first(
            before,
            middle,
            bins.drop_last(),
            n,
            today,
            get,
            read_bin,
            read_collection,
            read_workflow,
            sofar,
        );
        assert(bins.drop_last().take(n) =~= bins.take(n));
        let (c, part) = choose|c: Option<Cache>, part: (Seq<Collection>, Seq<(String, E)>)|
            #[trigger] bins_gathered(
                before,
                c,
                bins.take(n),
                today,
                get,
                read_bin,
                read_collection,
                read_workflow,
                part,
            ) && part.0.len() <= sofar.0.len() && part.0 == sofar.0.take(part.0.len() as int)
                && part.1.len() <= sofar.1.len() && part.1 == sofar.1.take(part.1.len() as int);
        assert(part.0 =~= all.0.take(part.0.len() as int));
        assert(part.1 =~= all.1.take(part.1.len() as int));
    }
}

/// Schedules were asked for one after the other, and `found` holds the dates of
/// each.
pub open spec fn schedules_asked<
    E: Reason,
    G: Fn(&str) -> Result<String, E>,
    W: Fn(&str) -> Result<WorkflowResponse, E>,
>(
    caches: Seq<Option<Cache>>,
    workflows: Seq<String>,
    today: Date,
    get: G,
    read: W,
    found: Seq<Vec<Date>>,
) -> bool {
    &&& caches.len() == workflows.len() + 1
    &&& found.len() == workflows.len()
    &&& forall|k: int|
        0 <= k < workflows.len() ==> dates_found(
            caches[k],
            caches[k + 1],
            workflows[k]@,
            today,
            get,
            read,
            Ok::<Vec<Date>, E>(#[trigger] found[k]),
        )
}

/// The dates of a container on several rounds are taken together: where all its
/// schedules can be had, every date of each of them is there, in the order of the
/// schedules.
pub proof fn law_every_round_counts<
    E: Reason,
    G: Fn(&str) -> Result<String, E>,
    W: Fn(&str) -> Result<WorkflowResponse, E>,
>(
    before: Option<Cache>,
    cache: Option<Cache>,
    workflows: Seq<String>,
    today: Date,
    get: G,
    read: W,
    all: Seq<Date>,
)
    requires
        dates_gathered(before, cache, workflows, today, get, read, Ok::<Seq<Date>, E>(all)),
    ensures
        exists|caches: Seq<Option<Cache>>, found: Seq<Vec<Date>>|
            {
                &&& #[trigger] schedules_asked(caches, workflows, today, get, read, found)
                &&& caches[0] == before && caches.last() == cache
                &&& all == found.map_values(|v: Vec<Date>| v@).flatten_alt()
                &&& forall|k: int, j: int|
                    0 <= k < workflows.len() && 0 <= j < found[k]@.len() ==> all.contains(
                        #[trigger] found[k]@[j],
                    )
            },
    decreases workflows.len(),
{
    let view = |v: Vec<Date>| v@;
    if workflows.len() == 0 {
        let caches = seq![before];
        let found = Seq::<Vec<Date>>::empty();
        assert(schedules_asked(caches, workflows, today, get, read, found));
        assert(found.map_values(view) =~= Seq::empty());
        assert(all =~= found.map_values(view).flatten_alt());
    } else {
        let init = workflows.drop_last();
        let (middle, sofar) = choose|middle: Option<Cache>, sofar: Result<Seq<Date>, E>|
            dates_gathered(before, middle, workflows.drop_last(), today, get, read, sofar)
                && #[trigger] dates_added(
                middle,
                cache,
                workflows.last()@,
                today,
                get,
                read,
                sofar,
                Ok::<Seq<Date>, E>(all),
            );
        let dates = sofar->Ok_0;
        assert(sofar == Ok::<Seq<Date>, E>(dates));
        let more = choose|more: Result<Vec<Date>, E>| #[trigger]
            dates_found(middle, cache, workflows.last()@, today, get, read, more) && (match more {
                Err(e) => false,
                Ok(v) => all == dates + v@,
            });
        let last = more->Ok_0;
        assert(more == Ok::<Vec<Date>, E>(last));
        law_every_round_counts(before, middle, init, today, get, read, dates);
        let (cs, fs) = choose|caches: Seq<Option<Cache>>, found: Seq<Vec<Date>>|
            {
                &&& #[trigger] schedules_asked(caches, init, today, get, read, found)
                &&& caches[0] == before && caches.last() == middle
                &&& dates == found.map_values(|v: Vec<Date>| v@).flatten_alt()
                &&& forall|k: int, j: int|
                    0 <= k < init.len() && 0 <= j < found[k]@.len() ==> dates.contains(
                        #[trigger] found[k]@[j],
                    )
            };
        let caches = cs.push(cache);
        let found = fs.push(last);
        assert forall|k: int| 0 <= k < workflows.len() implies dates_found(
            caches[k],
            caches[k + 1],
            workflows[k]@,
            today,
            get,
            read,
            Ok::<Vec<Date>, E>(#[trigger] found[k]),
        ) by {
            if k < init.len() {
                assert(found[k] == fs[k]);
                assert(init[k] == workflows[k]);
                assert(caches[k] == cs[k] && caches[k + 1] == cs[k + 1]);
            } else {
                assert(caches[k] == cs.last());
            }
        }
        assert(schedules_asked(caches, workflows, today, get, read, found));
        assert(found.map_values(view).drop_last() =~= fs.map_values(view));
        assert(all =~= found.map_values(view).flatten_alt());
        lemma_flattened(found.map_values(view));
        assert forall|k: int, j: int|
            0 <= k < workflows.len() && 0 <= j < found[k]@.len() implies all.contains(
            #[trigger] found[k]@[j],
        ) by {
            assert(found.map_values(view)[k][j] == found[k]@[j]);
        }
    }
}

/// Asks for the containers one after the other. One that cannot be looked up
/// does not cost the others.
fn gather_bins<
    E: Reason,
    G: Fn(&str) -> Result<String, E>,
    B: Fn(&str) -> Result<BinResponse, E>,
    C: Fn(&str) -> Result<CollectionResponse, E>,
    W: Fn(&str) -> Result<WorkflowResponse, E>,
>(
    bins: &Vec<String>,
    today: Date,
    cache: &mut Option<Cache>,
    get: &G,
    read_bin: &B,
    read_collection: &C,
    read_workflow: &W,
) -> (r: (Vec<Collection>, Vec<(String, E)>))
    requires
        today.wf(),
        takes_any(*get),
        takes_any(*read_bin),
        takes_any(*read_collection),
        takes_any(*read_workflow),
    ensures
        bins_gathered(
            *old(cache),
            *final(cache),
            bins@,
            today,
            *get,
            *read_bin,
            *read_collection,
            *read_workflow,
            (r.0@, r.1@),
        ),
        dates_ok(r.0@),
        none_past(r.0@, today),
{
    let mut all: Vec<Collection> = Vec::new();
    let mut failures: Vec<(String, E)> = Vec::new();
    let mut i: usize = 0;
    assert(bins@.take(0) =~= Seq::<String>::empty());
    while i < bins.len()
        invariant
            i <= bins@.len(),
            today.wf(),
            takes_any(*get),
            takes_any(*read_bin),
            takes_any(*read_collection),
            takes_any(*read_workflow),
            dates_ok(all@),
            none_past(all@, today),
            bins_gathered(
                *old(cache),
                *cache,
                bins@.take(i as int),
                today,
                *get,
                *read_bin,
                *read_collection,
                *read_workflow,
                (all@, failures@),
            ),
        decreases bins@.len() - i,
    {
        let ghost middle = *cache;
        let ghost sofar = (all@, failures@);
        let found: Result<Vec<Collection>, E> = upcoming_collections(
            bins[i].as_str(),
            today,
            cache,
            get,
            read_bin,
            read_collection,
            read_workflow,
        );
        let ghost came = found;
        match found {
            Ok(more) => {
                let mut more: Vec<Collection> = more;
                proof {
                    lemma_scheduled_none_past(more@, today);
                }
                all.append(&mut more);
            },
            Err(e) => {
                failures.push((bins[i].clone(), e));
            },
        }
        proof {
            assert(bins@.take(i + 1).drop_last() =~= bins@.take(i as int));
            assert(bins@.take(i + 1).last() == bins@[i as int]);
            match came {
                Ok(more) => {
                    assert(all@ =~= sofar.0 + more@);
                },
                Err(e) => {
                    assert(failures@ =~= sofar.1.push((bins@[i as int], e)));
                },
            }
            assert(bin_added(
                middle,
                *cache,
                bins@[i as int],
                today,
                *get,
                *read_bin,
                *read_collection,
                *read_workflow,
                sofar,
                (all@, failures@),
            ));
        }
        i = i + 1;
    }
    assert(bins@.take(i as int) =~= bins@);
    (all, failures)
}

/// What a property that was looked for comes to: the reason why there is none,
/// or the collections of its containers.
pub open spec fn bins_found<
    E: Reason,
    G: Fn(&str) -> Result<String, E>,
    Q: Fn(&str) -> Result<PropertyResponse, E>,
    B: Fn(&str) -> Result<BinResponse, E>,
    C: Fn(&str) -> Result<CollectionResponse, E>,
    W: Fn(&str) -> Result<WorkflowResponse, E>,
>(
    before: Option<Cache>,
    cache: Option<Cache>,
    today: Date,
    get: G,
    read_property: Q,
    read_bin: B,
    read_collection: C,
    read_workflow: W,
    found: Result<(String, String), LookupError<E>>,
    r: Result<(Property, Vec<(String, E)>), LookupError<E>>,
) -> bool {
    match found {
        Err(e) => r == Err::<(Property, Vec<(String, E)>), LookupError<E>>(e) && cache == before,
        Ok((id, address)) => exists|middle: Option<Cache>, bins: Result<Vec<String>, E>| #[trigger]
            containers_found(before, middle, id@, today, get, read_property, bins) && (match bins {
                Err(e) => r == Err::<(Property, Vec<(String, E)>), LookupError<E>>(
                    LookupError::Outside(e),
                ) && cache == middle,
                Ok(list) => r matches Ok((p, failures)) && p.id == id && p.address == address
                    && bins_gathered(
                    middle,
                    cache,
                    list@,
                    today,
                    get,
                    read_bin,
                    read_collection,
                    read_workflow,
                    (p.collections@, failures@),
                ),
            }),
    }
}

/// What can be answered about the addresses of a postcode, for which a search is
/// posted to the service.
pub open spec fn addresses_posted<E, P: Fn(&str, &str) -> Result<String, E>>(post: P) -> spec_fn(
    Seq<char>,
    Result<String, E>,
) -> bool {
    |postcode: Seq<char>, outcome: Result<String, E>|
        gives_for(post, api_url("/property/opensearch"@), search_payload(postcode), outcome)
}

/// The property of the settings was looked for, and then its containers.
pub open spec fn collections_found<
    E: Reason,
    P: Fn(&str, &str) -> Result<String, E>,
    G: Fn(&str) -> Result<String, E>,
    S: Fn(&str) -> Result<SearchResponse, E>,
    Q: Fn(&str) -> Result<PropertyResponse, E>,
    B: Fn(&str) -> Result<BinResponse, E>,
    C: Fn(&str) -> Result<CollectionResponse, E>,
    W: Fn(&str) -> Result<WorkflowResponse, E>,
>(
    before: Option<Cache>,
    cache: Option<Cache>,
    cfg: BinSettings,
    address: Seq<char>,
    today: Date,
    post: P,
    get: G,
    read_search: S,
    read_property: Q,
    read_bin: B,
    read_collection: C,
    read_workflow: W,
    r: Result<(Property, Vec<(String, E)>), LookupError<E>>,
) -> bool {
    exists|middle: Option<Cache>, found: Result<(String, String), LookupError<E>>| #[trigger]
        property_found(
            before,
            middle,
            cfg,
            address,
            "bins-hackney-addresses"@,
            "Hackney"@,
            addresses_posted(post),
            search_options(read_search),
            found,
        ) && bins_found(
            middle,
            cache,
            today,
            get,
            read_property,
            read_bin,
            read_collection,
            read_workflow,
            found,
            r,
        )
}

/// The property of the settings with its next collections. A container that
/// cannot be looked up does not cost the others: it comes back with the reason.
pub fn collections<
    E: Reason,
    P: Fn(&str, &str) -> Result<String, E>,
    G: Fn(&str) -> Result<String, E>,
    S: Fn(&str) -> Result<SearchResponse, E>,
    Q: Fn(&str) -> Result<PropertyResponse, E>,
    B: Fn(&str) -> Result<BinResponse, E>,
    C: Fn(&str) -> Result<CollectionResponse, E>,
    W: Fn(&str) -> Result<WorkflowResponse, E>,
>(
    cfg: &BinSettings,
    address: &str,
    today: Date,
    cache: &mut Option<Cache>,
    post: &P,
    get: &G,
    read_search: &S,
    read_property: &Q,
    read_bin: &B,
    read_collection: &C,
    read_workflow: &W,
) -> (r: Result<(Property, Vec<(String, E)>), LookupError<E>>)
    requires
        today.wf(),
        takes_any_two(*post),
        takes_any(*get),
        takes_any(*read_search),
        takes_any(*read_property),
        takes_any(*read_bin),
        takes_any(*read_collection),
        takes_any(*read_workflow),
    ensures
        r matches Ok((p, failures)) ==> dates_ok(p.collections@) && none_past(
            p.collections@,
            today,
        ),
        collections_found(
            *old(cache),
            *final(cache),
            *cfg,
            address@,
            today,
            *post,
            *get,
            *read_search,
            *read_property,
            *read_bin,
            *read_collection,
            *read_workflow,
            r,
        ),
{
    let url: String = url_for("/property/opensearch", "");
    let search = |postcode: &str| -> (outcome: Result<String, E>)
        requires
            forall|u: &str, p: &str| #[trigger] post.requires((u, p)),
        ensures
            exists|u: &str, p: &str|
                u@ == url@ && p@ == search_payload(postcode@) && #[trigger] post.ensures(
                    (u, p),
                    outcome,
                ),
    {
        let payload: String = payload_for(postcode);
        post(url.as_str(), payload.as_str())
    };
    assert(takes_any(search));
    let reader = |body: &str| -> (options: Result<Vec<(String, String)>, E>)
        requires
            read_search.requires((body,)),
        ensures
            exists|reply: Result<SearchResponse, E>|
                read_search.ensures((body,), reply) && #[trigger] search_read(reply, options),
    { parse_addresses(body, read_search) };
    assert(takes_any(reader)) by {
        assert forall|text: &str| #[trigger] reader.requires((text,)) by {
            assert(read_search.requires((text,)));
        }
    }
    let found: Result<(String, String), LookupError<E>> = property_id(
        cfg,
        address,
        cache,
        "bins-hackney-addresses",
        "Hackney",
        &search,
        &reader,
    );
    let ghost middle = *cache;
    let ghost came = found;
    proof {
        let asks = readings(search);
        assert("/property/opensearch"@ + ""@ =~= "/property/opensearch"@) by {
            reveal_strlit("");
        }
        assert forall|text: Seq<char>, result: Result<String, E>| #[trigger]
            asks(text, result) implies addresses_posted(*post)(text, result) by {
            let t = choose|t: &str| t@ == text && #[trigger] search.ensures((t,), result);
            assert(gives_for(*post, url@, search_payload(t@), result));
        }
        let reads = readings(reader);
        let others = search_options(*read_search);
        assert forall|text: Seq<char>, result: Result<Vec<(String, String)>, E>| #[trigger]
            reads(text, result) implies others(text, result) by {
            let t = choose|t: &str| t@ == text && #[trigger] reader.ensures((t,), result);
            let reply = choose|reply: Result<SearchResponse, E>|
                read_search.ensures((t,), reply) && #[trigger] search_read(reply, result);
            assert(gives(*read_search, text, reply));
        }
        lemma_property_found(
            *old(cache),
            *cache,
            *cfg,
            address@,
            "bins-hackney-addresses"@,
            "Hackney"@,
            asks,
            addresses_posted(*post),
            reads,
            others,
            found,
        );
    }
    let r: Result<(Property, Vec<(String, E)>), LookupError<E>> = match found {
        Err(e) => Err(e),
        Ok((id, matched)) => match bin_ids(id.as_str(), today, cache, get, read_property) {
            Err(e) => Err(LookupError::Outside(e)),
            Ok(bins) => {
                let (all, failures) = gather_bins(
                    &bins,
                    today,
                    cache,
                    get,
                    read_bin,
                    read_collection,
                    read_workflow,
                );
                Ok((Property { id, address: matched, collections: all }, failures))
            },
        },
    };
    assert(bins_found(
        middle,
        *cache,
        today,
        *get,
        *read_property,
        *read_bin,
        *read_collection,
        *read_workflow,
        came,
        r,
    ));
    r
}

/// What is given is what asking at the address gives, or an answer of this kind and
/// key that was kept.
pub open spec fn asked_or_kept<E, G: Fn(&str) -> Result<String, E>>(
    get: G,
    url: Seq<char>,
    before: Option<Cache>,
    kind: Seq<char>,
    key: Seq<char>,
    given: Result<String, E>,
) -> bool {
    gives(get, url, given) || kept(before, kind, key, given)
}

/// What came of an answer: its failure; nothing, where there is nothing but white
/// space in it; and otherwise what reading it gives.
pub open spec fn answer_read<T, E, R: Fn(&str) -> Result<T, E>, U>(
    read: R,
    given: Result<String, E>,
    none: spec_fn(U) -> bool,
    made: spec_fn(T, U) -> bool,
    r: Result<U, E>,
) -> bool {
    match given {
        Err(e) => r == Err::<U, E>(e),
        Ok(body) => {
            let nothing = forall|i: int| 0 <= i < body@.len() ==> white(#[trigger] body@[i]);
            &&& nothing ==> r is Ok && none(r->Ok_0)
            &&& !nothing ==> exists|reply: Result<T, E>| #[trigger]
                gives(read, body@, reply) && (match reply {
                    Ok(data) => r is Ok && made(data, r->Ok_0),
                    Err(e) => r == Err::<U, E>(e),
                })
        },
    }
}

proof fn lemma_hackney_address(path: Seq<char>, id: Seq<char>)
    ensures
        api_url(path + id)
            == "https://waste-api-hackney-live.ieg4.net/f806d91c-e133-43a6-ba9a-c0ae4f4cccf6"@
            + path + id,
{
    reveal_strlit("https://waste-api-hackney-live.ieg4.net");
    reveal_strlit("/");
    reveal_strlit("f806d91c-e133-43a6-ba9a-c0ae4f4cccf6");
    reveal_strlit("https://waste-api-hackney-live.ieg4.net/f806d91c-e133-43a6-ba9a-c0ae4f4cccf6");
    assert(API_URI@ + "/"@ + TENANT_ID@
        =~= "https://waste-api-hackney-live.ieg4.net/f806d91c-e133-43a6-ba9a-c0ae4f4cccf6"@);
    assert(api_url(path + id)
        =~= "https://waste-api-hackney-live.ieg4.net/f806d91c-e133-43a6-ba9a-c0ae4f4cccf6"@ + path
        + id);
}

/// A container is asked for by its own id, or an answer about it of the same day is
/// taken; a blank answer is no label, and only one in use on a live round has one.
pub proof fn law_a_container_is_asked_for_by_its_id<
    E: Reason,
    G: Fn(&str) -> Result<String, E>,
    R: Fn(&str) -> Result<BinResponse, E>,
>(
    before: Option<Cache>,
    cache: Option<Cache>,
    bin_id: Seq<char>,
    today: Date,
    get: G,
    read: R,
    r: Result<Option<String>, E>,
)
    requires
        service_found(before, cache, bin_id, today, get, read, r),
    ensures
        exists|given: Result<String, E>|
            {
                &&& #[trigger] asked_or_kept(
                    get,
                    "https://waste-api-hackney-live.ieg4.net/f806d91c-e133-43a6-ba9a-c0ae4f4cccf6/alloywastepages/getbin/"@
                        + bin_id,
                    before,
                    "bins-hackney-bin"@,
                    bin_id + ":"@ + iso_text(today),
                    given,
                )
                &&& answer_read(
                    read,
                    given,
                    |u: Option<String>| u is None,
                    |data: BinResponse, u: Option<String>| u is Some ==> !data.disabled && text_of(data.collection) == Some("Live"@),
                    r,
                )
            },
        before is None ==> cache is None,
{
    let url = "https://waste-api-hackney-live.ieg4.net/f806d91c-e133-43a6-ba9a-c0ae4f4cccf6/alloywastepages/getbin/"@
        + bin_id;
    lemma_hackney_address("/alloywastepages/getbin/"@, bin_id);
    reveal_strlit("https://waste-api-hackney-live.ieg4.net/f806d91c-e133-43a6-ba9a-c0ae4f4cccf6");
    reveal_strlit("/alloywastepages/getbin/");
    reveal_strlit("https://waste-api-hackney-live.ieg4.net/f806d91c-e133-43a6-ba9a-c0ae4f4cccf6/alloywastepages/getbin/");
    assert("https://waste-api-hackney-live.ieg4.net/f806d91c-e133-43a6-ba9a-c0ae4f4cccf6"@ + "/alloywastepages/getbin/"@
        =~= "https://waste-api-hackney-live.ieg4.net/f806d91c-e133-43a6-ba9a-c0ae4f4cccf6/alloywastepages/getbin/"@);
    let given = choose|given: Result<String, E>|
        called_through(
            before,
            cache,
            "bins-hackney-bin"@,
            day_key(bin_id, today),
            Some(today),
            false,
            plain_replies(get, api_url("/alloywastepages/getbin/"@ + bin_id)),
            given,
        ) && #[trigger] service_read(read, given, r);
    law_given_is_asked_for_or_kept(
        before,
        cache,
        "bins-hackney-bin"@,
        day_key(bin_id, today),
        Some(today),
        false,
        plain_replies(get, api_url("/alloywastepages/getbin/"@ + bin_id)),
        given,
    );
    if let Ok(body) = given {
        law_blank_texts(body@);
    }
    assert(asked_or_kept(
        get,
        url,
        before,
        "bins-hackney-bin"@,
        day_key(bin_id, today),
        given,
    ));
    assert(answer_read(
        read,
        given,
        |u: Option<String>| u is None,
        |data: BinResponse, u: Option<String>| u is Some ==> !data.disabled && text_of(data.collection) == Some("Live"@),
        r,
    ));
}

/// The rounds of a container are asked for by its own id, or an answer about it of the
/// same day is taken; a blank answer has none, and any other those it names.
pub proof fn law_rounds_are_asked_for_by_the_container<
    E: Reason,
    G: Fn(&str) -> Result<String, E>,
    R: Fn(&str) -> Result<CollectionResponse, E>,
>(
    before: Option<Cache>,
    cache: Option<Cache>,
    bin_id: Seq<char>,
    today: Date,
    get: G,
    read: R,
    r: Result<Vec<String>, E>,
)
    requires
        workflows_found(before, cache, bin_id, today, get, read, r),
    ensures
        exists|given: Result<String, E>|
            {
                &&& #[trigger] asked_or_kept(
                    get,
                    "https://waste-api-hackney-live.ieg4.net/f806d91c-e133-43a6-ba9a-c0ae4f4cccf6/alloywastepages/getcollection/"@
                        + bin_id,
                    before,
                    "bins-hackney-collection"@,
                    bin_id + ":"@ + iso_text(today),
                    given,
                )
                &&& answer_read(
                    read,
                    given,
                    |u: Vec<String>| u@.len() == 0,
                    |data: CollectionResponse, u: Vec<String>| u == data.workflow_ids,
                    r,
                )
            },
        before is None ==> cache is None,
{
    let url = "https://waste-api-hackney-live.ieg4.net/f806d91c-e133-43a6-ba9a-c0ae4f4cccf6/alloywastepages/getcollection/"@
        + bin_id;
    lemma_hackney_address("/alloywastepages/getcollection/"@, bin_id);
    reveal_strlit("https://waste-api-hackney-live.ieg4.net/f806d91c-e133-43a6-ba9a-c0ae4f4cccf6");
    reveal_strlit("/alloywastepages/getcollection/");
    reveal_strlit("https://waste-api-hackney-live.ieg4.net/f806d91c-e133-43a6-ba9a-c0ae4f4cccf6/alloywastepages/getcollection/");
    assert("https://waste-api-hackney-live.ieg4.net/f806d91c-e133-43a6-ba9a-c0ae4f4cccf6"@ + "/alloywastepages/getcollection/"@
        =~= "https://waste-api-hackney-live.ieg4.net/f806d91c-e133-43a6-ba9a-c0ae4f4cccf6/alloywastepages/getcollection/"@);
    let given = choose|given: Result<String, E>|
        called_through(
            before,
            cache,
            "bins-hackney-collection"@,
            day_key(bin_id, today),
            Some(today),
            false,
            plain_replies(get, api_url("/alloywastepages/getcollection/"@ + bin_id)),
            given,
        ) && #[trigger] workflows_read(read, given, r);
    law_given_is_asked_for_or_kept(
        before,
        cache,
        "bins-hackney-collection"@,
        day_key(bin_id, today),
        Some(today),
        false,
        plain_replies(get, api_url("/alloywastepages/getcollection/"@ + bin_id)),
        given,
    );
    if let Ok(body) = given {
        law_blank_texts(body@);
    }
    assert(asked_or_kept(
        get,
        url,
        before,
        "bins-hackney-collection"@,
        day_key(bin_id, today),
        given,
    ));
    assert(answer_read(
        read,
        given,
        |u: Vec<String>| u@.len() == 0,
        |data: CollectionResponse, u: Vec<String>| u == data.workflow_ids,
        r,
    ));
}

/// A schedule is asked for by its own id, or an answer about it of the same day is
/// taken; a blank answer has no dates, and any other only as many as it names.
pub proof fn law_a_schedule_is_asked_for_by_its_id<
    E: Reason,
    G: Fn(&str) -> Result<String, E>,
    R: Fn(&str) -> Result<WorkflowResponse, E>,
>(
    before: Option<Cache>,
    cache: Option<Cache>,
    workflow: Seq<char>,
    today: Date,
    get: G,
    read: R,
    r: Result<Vec<Date>, E>,
)
    requires
        dates_found(before, cache, workflow, today, get, read, r),
    ensures
        exists|given: Result<String, E>|
            {
                &&& #[trigger] asked_or_kept(
                    get,
                    "https://waste-api-hackney-live.ieg4.net/f806d91c-e133-43a6-ba9a-c0ae4f4cccf6/alloywastepages/getworkflow/"@
                        + workflow,
                    before,
                    "bins-hackney-workflow"@,
                    workflow + ":"@ + iso_text(today),
                    given,
                )
                &&& answer_read(
                    read,
                    given,
                    |u: Vec<Date>| u@.len() == 0,
                    |data: WorkflowResponse, u: Vec<Date>| u@ == workflow_dates(data),
                    r,
                )
            },
        before is None ==> cache is None,
{
    let url = "https://waste-api-hackney-live.ieg4.net/f806d91c-e133-43a6-ba9a-c0ae4f4cccf6/alloywastepages/getworkflow/"@
        + workflow;
    lemma_hackney_address("/alloywastepages/getworkflow/"@, workflow);
    reveal_strlit("https://waste-api-hackney-live.ieg4.net/f806d91c-e133-43a6-ba9a-c0ae4f4cccf6");
    reveal_strlit("/alloywastepages/getworkflow/");
    reveal_strlit("https://waste-api-hackney-live.ieg4.net/f806d91c-e133-43a6-ba9a-c0ae4f4cccf6/alloywastepages/getworkflow/");
    assert("https://waste-api-hackney-live.ieg4.net/f806d91c-e133-43a6-ba9a-c0ae4f4cccf6"@ + "/alloywastepages/getworkflow/"@
        =~= "https://waste-api-hackney-live.ieg4.net/f806d91c-e133-43a6-ba9a-c0ae4f4cccf6/alloywastepages/getworkflow/"@);
    let given = choose|given: Result<String, E>|
        called_through(
            before,
            cache,
            "bins-hackney-workflow"@,
            day_key(workflow, today),
            Some(today),
            false,
            plain_replies(get, api_url("/alloywastepages/getworkflow/"@ + workflow)),
            given,
        ) && #[trigger] dates_read(read, given, r);
    law_given_is_asked_for_or_kept(
        before,
        cache,
        "bins-hackney-workflow"@,
        day_key(workflow, today),
        Some(today),
        false,
        plain_replies(get, api_url("/alloywastepages/getworkflow/"@ + workflow)),
        given,
    );
    if let Ok(body) = given {
        law_blank_texts(body@);
    }
    assert(asked_or_kept(
        get,
        url,
        before,
        "bins-hackney-workflow"@,
        day_key(workflow, today),
        given,
    ));
    assert(answer_read(
        read,
        given,
        |u: Vec<Date>| u@.len() == 0,
        |data: WorkflowResponse, u: Vec<Date>| u@ == workflow_dates(data),
        r,
    ));
}

/// The containers of a property are asked for by its own id, or an answer about it of
/// the same day is taken; a blank answer has none.
pub proof fn law_containers_are_asked_for_by_the_property<
    E: Reason,
    G: Fn(&str) -> Result<String, E>,
    R: Fn(&str) -> Result<PropertyResponse, E>,
>(
    before: Option<Cache>,
    cache: Option<Cache>,
    property: Seq<char>,
    today: Date,
    get: G,
    read: R,
    r: Result<Vec<String>, E>,
)
    requires
        containers_found(before, cache, property, today, get, read, r),
    ensures
        exists|given: Result<String, E>|
            {
                &&& #[trigger] asked_or_kept(
                    get,
                    "https://waste-api-hackney-live.ieg4.net/f806d91c-e133-43a6-ba9a-c0ae4f4cccf6/alloywastepages/getproperty/"@
                        + property,
                    before,
                    "bins-hackney-property"@,
                    property + ":"@ + iso_text(today),
                    given,
                )
                &&& answer_read(
                    read,
                    given,
                    |u: Vec<String>| u@.len() == 0,
                    |data: PropertyResponse, u: Vec<String>| texts(u@) == container_ids(data),
                    r,
                )
            },
        before is None ==> cache is None,
{
    let url = "https://waste-api-hackney-live.ieg4.net/f806d91c-e133-43a6-ba9a-c0ae4f4cccf6/alloywastepages/getproperty/"@
        + property;
    lemma_hackney_address("/alloywastepages/getproperty/"@, property);
    reveal_strlit("https://waste-api-hackney-live.ieg4.net/f806d91c-e133-43a6-ba9a-c0ae4f4cccf6");
    reveal_strlit("/alloywastepages/getproperty/");
    reveal_strlit("https://waste-api-hackney-live.ieg4.net/f806d91c-e133-43a6-ba9a-c0ae4f4cccf6/alloywastepages/getproperty/");
    assert("https://waste-api-hackney-live.ieg4.net/f806d91c-e133-43a6-ba9a-c0ae4f4cccf6"@ + "/alloywastepages/getproperty/"@
        =~= "https://waste-api-hackney-live.ieg4.net/f806d91c-e133-43a6-ba9a-c0ae4f4cccf6/alloywastepages/getproperty/"@);
    let given = choose|given: Result<String, E>|
        called_through(
            before,
            cache,
            "bins-hackney-property"@,
            day_key(property, today),
            Some(today),
            false,
            plain_replies(get, api_url("/alloywastepages/getproperty/"@ + property)),
            given,
        ) && #[trigger] containers_read(read, given, r);
    law_given_is_asked_for_or_kept(
        before,
        cache,
        "bins-hackney-property"@,
        day_key(property, today),
        Some(today),
        false,
        plain_replies(get, api_url("/alloywastepages/getproperty/"@ + property)),
        given,
    );
    if let Ok(body) = given {
        law_blank_texts(body@);
    }
    assert(asked_or_kept(
        get,
        url,
        before,
        "bins-hackney-property"@,
        day_key(property, today),
        given,
    ));
    assert(answer_read(
        read,
        given,
        |u: Vec<String>| u@.len() == 0,
        |data: PropertyResponse, u: Vec<String>| texts(u@) == container_ids(data),
        r,
    ));
}

/// The collections of a container go by its label: there are none without one, and
/// all of them have it. The dates are those of the rounds that were asked for by the
/// id of the container.
pub proof fn law_collections_go_by_the_label<
    E: Reason,
    G: Fn(&str) -> Result<String, E>,
    B: Fn(&str) -> Result<BinResponse, E>,
    C: Fn(&str) -> Result<CollectionResponse, E>,
    W: Fn(&str) -> Result<WorkflowResponse, E>,
>(
    before: Option<Cache>,
    cache: Option<Cache>,
    bin_id: Seq<char>,
    today: Date,
    get: G,
    read_bin: B,
    read_collection: C,
    read_workflow: W,
    r: Result<Vec<Collection>, E>,
)
    requires
        upcoming_found(
            before,
            cache,
            bin_id,
            today,
            get,
            read_bin,
            read_collection,
            read_workflow,
            r,
        ),
        r is Ok,
        r->Ok_0@.len() > 0,
    ensures
        exists|
            c1: Option<Cache>,
            service: String,
            c2: Option<Cache>,
            workflows: Vec<String>,
            dates: Seq<Date>,
        |
            {
                &&& #[trigger] service_found(
                    before,
                    c1,
                    bin_id,
                    today,
                    get,
                    read_bin,
                    Ok::<Option<String>, E>(Some(service)),
                )
                &&& #[trigger] workflows_found(
                    c1,
                    c2,
                    bin_id,
                    today,
                    get,
                    read_collection,
                    Ok::<Vec<String>, E>(workflows),
                )
                &&& #[trigger] dates_gathered(
                    c2,
                    cache,
                    workflows@,
                    today,
                    get,
                    read_workflow,
                    Ok::<Seq<Date>, E>(dates),
                )
                &&& forall|i: int|
                    0 <= i < r->Ok_0@.len() ==> (#[trigger] r->Ok_0@[i]).service@ == service@
                        && dates.contains(r->Ok_0@[i].date) && !earlier(r->Ok_0@[i].date, today)
            },
{
    let found = r->Ok_0;
    let (c1, label) = choose|c1: Option<Cache>, label: Result<Option<String>, E>| #[trigger]
        service_found(before, c1, bin_id, today, get, read_bin, label) && (match label {
            Err(e) => false,
            Ok(None) => found@.len() == 0,
            Ok(Some(service)) => exists|c2: Option<Cache>, ids: Result<Vec<String>, E>| #[trigger]
                workflows_found(c1, c2, bin_id, today, get, read_collection, ids) && (match ids {
                    Err(e) => r == Err::<Vec<Collection>, E>(e) && cache == c2,
                    Ok(workflows) => exists|dates: Result<Seq<Date>, E>| #[trigger]
                        dates_gathered(
                            c2,
                            cache,
                            workflows@,
                            today,
                            get,
                            read_workflow,
                            dates,
                        ) && dates_scheduled(service@, today, dates, r),
                }),
        });
    let service = (label->Ok_0)->0;
    assert(label == Ok::<Option<String>, E>(Some(service)));
    let (c2, ids) = choose|c2: Option<Cache>, ids: Result<Vec<String>, E>| #[trigger]
        workflows_found(c1, c2, bin_id, today, get, read_collection, ids) && (match ids {
            Err(e) => r == Err::<Vec<Collection>, E>(e) && cache == c2,
            Ok(workflows) => exists|dates: Result<Seq<Date>, E>| #[trigger]
                dates_gathered(
                    c2,
                    cache,
                    workflows@,
                    today,
                    get,
                    read_workflow,
                    dates,
                ) && dates_scheduled(service@, today, dates, r),
        });
    let workflows = ids->Ok_0;
    assert(ids == Ok::<Vec<String>, E>(workflows));
    let came = choose|dates: Result<Seq<Date>, E>| #[trigger]
        dates_gathered(
            c2,
            cache,
            workflows@,
            today,
            get,
            read_workflow,
            dates,
        ) && dates_scheduled(service@, today, dates, r);
    let dates = came->Ok_0;
    assert(came == Ok::<Seq<Date>, E>(dates));
    law_next_dates(dates, today);
    assert forall|i: int| 0 <= i < found@.len() implies (#[trigger] found@[i]).service@ == service@
        && dates.contains(found@[i].date) && !earlier(found@[i].date, today) by {
        assert(found@[i].date == next_dates(dates, today)[i]);
    }
}

/// The property that was looked for is the one that comes back, under its id and
/// address; and a search that fails is what comes back in its place.
pub proof fn law_the_property_found_is_given<
    E: Reason,
    G: Fn(&str) -> Result<String, E>,
    Q: Fn(&str) -> Result<PropertyResponse, E>,
    B: Fn(&str) -> Result<BinResponse, E>,
    C: Fn(&str) -> Result<CollectionResponse, E>,
    W: Fn(&str) -> Result<WorkflowResponse, E>,
>(
    before: Option<Cache>,
    cache: Option<Cache>,
    today: Date,
    get: G,
    read_property: Q,
    read_bin: B,
    read_collection: C,
    read_workflow: W,
    found: Result<(String, String), LookupError<E>>,
    r: Result<(Property, Vec<(String, E)>), LookupError<E>>,
)
    requires
        bins_found(
            before,
            cache,
            today,
            get,
            read_property,
            read_bin,
            read_collection,
            read_workflow,
            found,
            r,
        ),
    ensures
        found is Err ==> r is Err && r->Err_0 == found->Err_0 && cache == before,
        found is Ok && r is Ok ==> (r->Ok_0).0.id == (found->Ok_0).0 && (r->Ok_0).0.address
            == (found->Ok_0).1,
{
}

/// The properties of a postcode are searched for by the postcode, among homes only.
pub proof fn law_the_search_names_the_postcode(postcode: Seq<char>)
    ensures
        contains_text(search_payload(postcode), "\"Postcode\":\""@ + postcode + "\","@),
        contains_text(search_payload(postcode), "\"Value\":\"R\"}"@),
{
    reveal_strlit("{\"Postcode\":\"");
    reveal_strlit("{");
    reveal_strlit("\"Postcode\":\"");
    reveal_strlit("\",\"Filters\":[");
    reveal_strlit("\",");
    reveal_strlit("\"Filters\":[");
    reveal_strlit("{\"Filter\":\"attributes_premisesBlpuClass\",\"Include\":true,\"StringMatch\":\"Prefix\",\"Value\":\"R\"}");
    reveal_strlit("{\"Filter\":\"attributes_premisesBlpuClass\",\"Include\":true,\"StringMatch\":\"Prefix\",");
    reveal_strlit("\"Value\":\"R\"}");
    let part = "\"Postcode\":\""@ + postcode + "\","@;
    let rest = "\"Filters\":["@ + RESIDENTIAL_FILTER@ + "]}"@;
    assert("{\"Postcode\":\""@ =~= "{"@ + "\"Postcode\":\""@);
    assert("\",\"Filters\":["@ =~= "\","@ + "\"Filters\":["@);
    assert(search_payload(postcode) =~= "{"@ + part + rest);
    lemma_occurs_between("{"@, part, rest);
    let filter = "{\"Filter\":\"attributes_premisesBlpuClass\",\"Include\":true,\"StringMatch\":\"Prefix\","@;
    assert(RESIDENTIAL_FILTER@ =~= filter + "\"Value\":\"R\"}"@);
    let head = "{\"Postcode\":\""@ + postcode + "\",\"Filters\":["@ + filter;
    assert(search_payload(postcode) =~= head + "\"Value\":\"R\"}"@ + "]}"@);
    lemma_occurs_between(head, "\"Value\":\"R\"}"@, "]}"@);
}

} // verus!
