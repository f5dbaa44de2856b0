//! Departure boards: reading the departures of trains and buses, choosing which
//! to show, and laying them out.

use vstd::prelude::*;

use crate::date::{format_time, Date, Time};
use crate::order::{
    ascending, lemma_sorted, lemma_text_total, lemma_text_transitive, sort, sorted, str_at_most,
    text_at_most, Ordered,
};
use crate::sequences::{lemma_filter_map_all, lemma_filter_map_holds, lemma_filter_map_push};
use crate::text::{
    chars_of, contains_text, eq_ignoring_case, lemma_occurs_between, pad_right, padded_right, push_all, push_str, same_ignoring_case,
    same_str, shorten, string_of, text_of, trim, trimmed, truncated,
};
use crate::transport::places::{copy_text, first};

verus! {

/// A day and a time of day.
#[derive(Debug, Clone, Copy, PartialEq, Eq, Structural)]
pub struct When {
    /// The day.
    pub date: Date,
    /// The time.
    pub time: Time,
}

/// An upcoming departure of a train or a bus.
#[derive(Debug)]
pub struct Departure {
    /// The departure time as `HH:MM`, for sorting and for show.
    pub time: String,
    /// Where it goes.
    pub to: String,
    /// A short remark, such as `on time`, `exp 09:38` or `Cancelled`.
    pub note: String,
}

/// A train on a board.
#[derive(Debug)]
pub struct TrainDeparture {
    /// The scheduled time.
    pub aimed_departure_time: Option<String>,
    /// The expected time.
    pub expected_departure_time: Option<String>,
    /// What the board says of it.
    pub status: Option<String>,
    /// The platform.
    pub platform: Option<String>,
    /// Where it goes.
    pub destination_name: Option<String>,
}

/// Trains under a common heading.
#[derive(Debug)]
pub struct TrainGroup {
    /// All of them.
    pub all: Vec<TrainDeparture>,
}

/// The trains of a board. The live board holds them under a heading, the
/// timetable as a plain list.
#[derive(Debug)]
pub enum TrainDeps {
    /// Under a heading.
    Grouped(TrainGroup),
    /// As a plain list.
    Flat(Vec<TrainDeparture>),
}

/// The board of a station.
#[derive(Debug)]
pub struct TrainLive {
    /// The name of the station.
    pub station_name: Option<String>,
    /// Its trains.
    pub departures: TrainDeps,
}

/// A bus on a board.
#[derive(Debug)]
pub struct BusDeparture {
    /// The line.
    pub line: Option<String>,
    /// The name of the line.
    pub line_name: Option<String>,
    /// Where it goes.
    pub direction: Option<String>,
    /// The scheduled time.
    pub aimed_departure_time: Option<String>,
    /// The expected time.
    pub expected_departure_time: Option<String>,
    /// The best guess at the time.
    pub best_departure_estimate: Option<String>,
}

/// The buses of a board. The live board holds them by route, the timetable as a
/// plain list.
#[derive(Debug)]
pub enum BusDeps {
    /// By route.
    Grouped(Vec<(String, Vec<BusDeparture>)>),
    /// As a plain list.
    Flat(Vec<BusDeparture>),
}

/// The board of a bus stop.
#[derive(Debug)]
pub struct BusLive {
    /// The name of the stop.
    pub stop_name: Option<String>,
    /// Its buses.
    pub departures: BusDeps,
}

// --- Models ------------------------------------------------------------------

/// The text, or nothing where there is none.
pub open spec fn or_empty(s: Option<String>) -> Seq<char> {
    match s {
        Some(t) => t@,
        None => Seq::empty(),
    }
}

/// A departure as texts: its time, where it goes, and the remark.
#[verifier::ext_equal]
pub struct Entry {
    /// The time.
    pub time: Seq<char>,
    /// Where it goes.
    pub to: Seq<char>,
    /// The remark.
    pub note: Seq<char>,
}

impl Departure {
    /// The departure as texts.
    pub open spec fn entry(self) -> Entry {
        Entry { time: self.time@, to: self.to@, note: self.note@ }
    }

    /// The line that shows the departure: two spaces, the time in five columns,
    /// two spaces, where it goes, and the remark. Where it goes is shortened to
    /// what the line leaves for it, though not below four columns.
    pub open spec fn shown(self, columns: int) -> Seq<char> {
        let note_width = if self.note@.len() == 0 {
            0
        } else {
            self.note@.len() + 2
        };
        let left = columns - (9 + note_width);
        let to = truncated(
            self.to@,
            if left > 4 {
                left
            } else {
                4
            },
        );
        if self.note@.len() == 0 {
            "  "@ + padded_right(self.time@, 5) + "  "@ + to
        } else {
            "  "@ + padded_right(self.time@, 5) + "  "@ + to + "  "@ + self.note@
        }
    }
}

/// The departures as texts.
pub open spec fn entries(deps: Seq<Departure>) -> Seq<Entry> {
    deps.map_values(|d: Departure| d.entry())
}

impl Ordered for Departure {
    open spec fn at_most(self, other: Departure) -> bool {
        text_at_most(self.time@, other.time@)
    }

    proof fn total(a: Departure, b: Departure) {
        lemma_text_total(a.time@, b.time@);
    }

    proof fn transitive(a: Departure, b: Departure, c: Departure) {
        lemma_text_transitive(a.time@, b.time@, c.time@);
    }

    fn ranks_at_most(&self, other: &Departure) -> (r: bool) {
        str_at_most(self.time.as_str(), other.time.as_str())
    }
}

impl TrainDeps {
    /// The trains, whatever they are held under.
    pub open spec fn list(self) -> Seq<TrainDeparture> {
        match self {
            TrainDeps::Grouped(g) => g.all@,
            TrainDeps::Flat(v) => v@,
        }
    }
}

/// The buses of all routes, route after route.
pub open spec fn of_routes(groups: Seq<(String, Vec<BusDeparture>)>) -> Seq<BusDeparture>
    decreases groups.len(),
{
    if groups.len() == 0 {
        Seq::empty()
    } else {
        of_routes(groups.drop_last()) + groups.last().1@
    }
}

impl BusDeps {
    /// The buses, whatever they are held under.
    pub open spec fn list(self) -> Seq<BusDeparture> {
        match self {
            BusDeps::Grouped(m) => of_routes(m@),
            BusDeps::Flat(v) => v@,
        }
    }
}

/// A remark on an expected time that differs from the scheduled one.
pub open spec fn expectation(aimed: Option<String>, expected: Option<String>) -> Option<Seq<char>> {
    match (aimed, expected) {
        (Some(a), Some(e)) => if e@.len() > 0 && e@ != a@ {
            Some("exp "@ + e@)
        } else {
            None
        },
        _ => None,
    }
}

impl TrainDeparture {
    /// `Cancelled`, the expected time when it differs, or `on time`.
    pub open spec fn remark(self) -> Seq<char> {
        if same_ignoring_case(or_empty(self.status), "CANCELLED"@) {
            "Cancelled"@
        } else {
            match expectation(self.aimed_departure_time, self.expected_departure_time) {
                Some(e) => e,
                None => "on time"@,
            }
        }
    }

    /// The platform, where it is known, and the remark.
    pub open spec fn note(self) -> Seq<char> {
        if or_empty(self.platform).len() > 0 {
            "Plat "@ + or_empty(self.platform) + "  "@ + self.remark()
        } else {
            self.remark()
        }
    }

    /// The departure, for a train with a scheduled time.
    pub open spec fn entry(self) -> Option<Entry> {
        match self.aimed_departure_time {
            None => None,
            Some(time) => Some(
                Entry {
                    time: time@,
                    to: match self.destination_name {
                        Some(d) => d@,
                        None => "?"@,
                    },
                    note: self.note(),
                },
            ),
        }
    }
}

impl BusDeparture {
    /// The routes are not restricted, or the bus is on one of them.
    pub open spec fn on_route(self, routes: Seq<String>) -> bool {
        routes.len() == 0 || exists|i: int|
            0 <= i < routes.len() && (same_ignoring_case(
                (#[trigger] routes[i])@,
                or_empty(self.line),
            ) || same_ignoring_case(routes[i]@, or_empty(self.line_name)))
    }

    /// The best guess at the time, or the scheduled time.
    pub open spec fn time(self) -> Option<String> {
        match self.best_departure_estimate {
            Some(t) => Some(t),
            None => self.aimed_departure_time,
        }
    }

    /// The name of the line, or the line.
    pub open spec fn route(self) -> Seq<char> {
        match self.line_name {
            Some(n) => n@,
            None => or_empty(self.line),
        }
    }

    /// The departure, for a bus on one of the routes with a known time.
    pub open spec fn entry(self, routes: Seq<String>) -> Option<Entry> {
        if !self.on_route(routes) {
            None
        } else {
            match self.time() {
                None => None,
                Some(time) => Some(
                    Entry {
                        time: time@,
                        to: trimmed(self.route() + " "@ + or_empty(self.direction)),
                        note: match expectation(
                            self.aimed_departure_time,
                            self.expected_departure_time,
                        ) {
                            Some(e) => e,
                            None => Seq::empty(),
                        },
                    },
                ),
            }
        }
    }
}

/// The departure is not before the time of a timetable lookup.
pub open spec fn in_window(d: Departure, at: Option<When>) -> bool {
    match at {
        Some(w) => text_at_most(w.time.text(), d.time@),
        None => true,
    }
}

/// The departures by time, without those before the time of a timetable lookup.
pub open spec fn windowed(deps: Seq<Departure>, at: Option<When>) -> Seq<Departure> {
    sorted(deps).filter(|d: Departure| in_window(d, at))
}

/// The lines that show departures.
pub open spec fn departure_lines(deps: Seq<Departure>, columns: int) -> Seq<char>
    decreases deps.len(),
{
    if deps.len() == 0 {
        Seq::empty()
    } else {
        departure_lines(deps.drop_last(), columns) + deps.last().shown(columns) + "\n"@
    }
}

/// What is shown of a board: at most `limit` departures, or that there are none.
pub open spec fn shown_departures(deps: Seq<Departure>, limit: int, columns: int) -> Seq<char> {
    if deps.len() == 0 {
        "  (no departures)\n"@
    } else {
        departure_lines(first(deps, limit), columns)
    }
}

// --- Laws ---------------------------------------------------------------------

/// What a board shows is in order of time, holds nothing before the time asked
/// for, and holds every departure from then on.
pub proof fn law_windowed(deps: Seq<Departure>, at: Option<When>)
    ensures
        ascending(windowed(deps, at)),
        forall|i: int|
            0 <= i < windowed(deps, at).len() ==> in_window(
                #[trigger] windowed(deps, at)[i],
                at,
            ) && deps.contains(windowed(deps, at)[i]),
        forall|d: Departure|
            deps.contains(d) && in_window(d, at) ==> #[trigger] windowed(deps, at).contains(d),
{
    let p = |d: Departure| in_window(d, at);
    let all = sorted(deps);
    lemma_sorted(deps);
    lemma_filter_ascending(all, p);
    assert forall|i: int| 0 <= i < windowed(deps, at).len() implies in_window(
        #[trigger] windowed(deps, at)[i],
        at,
    ) && deps.contains(windowed(deps, at)[i]) by {
        all.lemma_filter_pred(p, i);
        let d = windowed(deps, at)[i];
        assert(all.filter(p).contains(d));
        all.lemma_filter_contains_rev(p, d);
        crate::order::lemma_sorted_contains(deps, d);
    }
    assert forall|d: Departure| deps.contains(d) && in_window(d, at) implies #[trigger] windowed(
        deps,
        at,
    ).contains(d) by {
        crate::order::lemma_sorted_contains(deps, d);
        let k = choose|k: int| 0 <= k < all.len() && all[k] == d;
        all.lemma_filter_contains(p, k);
    }
}

proof fn lemma_filter_ascending(s: Seq<Departure>, p: spec_fn(Departure) -> bool)
    requires
        ascending(s),
    ensures
        ascending(s.filter(p)),
    decreases s.len(),
{
    if s.len() > 0 {
        let t = s.drop_last();
        lemma_filter_ascending(t, p);
        assert(s =~= t.push(s.last()));
        t.lemma_filter_push(s.last(), p);
        let f = t.filter(p);
        assert forall|i: int| 0 <= i < f.len() implies (#[trigger] f[i]).at_most(s.last()) by {
            assert(f.contains(f[i]));
            t.lemma_filter_contains_rev(p, f[i]);
            let k = choose|k: int| 0 <= k < t.len() && t[k] == f[i];
            assert(s[k].at_most(s[s.len() - 1]));
        }
        Departure::total(s.last(), s.last());
    }
}

/// A line fits the columns wherever they leave room for four columns of where
/// the departure goes, and for times written in five characters.
pub proof fn law_lines_fit(d: Departure, columns: int)
    requires
        d.time@.len() <= 5,
        columns >= 13 + (if d.note@.len() == 0 {
            0
        } else {
            d.note@.len() + 2
        }),
    ensures
        d.shown(columns).len() <= columns,
{
    reveal_strlit("  ");
}

/// The list of a board holds a bus.
pub open spec fn lists_bus(departures: BusDeps, d: BusDeparture) -> bool {
    match departures {
        BusDeps::Flat(v) => v@.contains(d),
        BusDeps::Grouped(m) => exists|g: int|
            0 <= g < m@.len() && (#[trigger] m@[g]).1@.contains(d),
    }
}

/// A bus is wanted: no routes are named, or one of those named is its line or the
/// name of its line, in any case.
pub open spec fn bus_wanted(d: BusDeparture, routes: Seq<String>) -> bool {
    ||| routes.len() == 0
    ||| exists|k: int|
        0 <= k < routes.len() && ((d.line matches Some(line) && same_ignoring_case(
            (#[trigger] routes[k])@,
            line@,
        )) || (d.line_name matches Some(name) && same_ignoring_case(routes[k]@, name@)))
}

proof fn lemma_of_routes(groups: Seq<(String, Vec<BusDeparture>)>, g: int, d: BusDeparture)
    requires
        0 <= g < groups.len(),
        groups[g].1@.contains(d),
    ensures
        of_routes(groups).contains(d),
    decreases groups.len(),
{
    let before = of_routes(groups.drop_last());
    let last = groups.last().1@;
    if g == groups.len() - 1 {
        let k = choose|k: int| 0 <= k < last.len() && last[k] == d;
        assert(of_routes(groups)[before.len() + k] == d);
    } else {
        assert(groups.drop_last()[g] == groups[g]);
        lemma_of_routes(groups.drop_last(), g, d);
        let k = choose|k: int| 0 <= k < before.len() && before[k] == d;
        assert(of_routes(groups)[k] == d);
    }
}

proof fn lemma_listed(departures: BusDeps, d: BusDeparture)
    requires
        lists_bus(departures, d),
    ensures
        departures.list().contains(d),
{
    if let BusDeps::Grouped(m) = departures {
        let g = choose|g: int| 0 <= g < m@.len() && (#[trigger] m@[g]).1@.contains(d);
        lemma_of_routes(m@, g, d);
    }
}

/// Every bus on a wanted route that has an estimate or a scheduled time is on the
/// board, unless its time is before the time asked for. It is there under the
/// estimate where there is one, and under the scheduled time otherwise.
pub proof fn law_every_wanted_bus_is_on_the_board(
    departures: BusDeps,
    routes: &[String],
    at: Option<When>,
    r: Vec<Departure>,
    d: BusDeparture,
    time: Seq<char>,
)
    requires
        call_ensures(bus_departures, (departures, routes, at), r),
        lists_bus(departures, d),
        bus_wanted(d, routes@),
        match d.best_departure_estimate {
            Some(t) => time == t@,
            None => d.aimed_departure_time matches Some(t) && time == t@,
        },
        at matches Some(w) ==> text_at_most(w.time.text(), time),
    ensures
        exists|k: int| 0 <= k < r@.len() && (#[trigger] r@[k]).time@ == time,
{
    let f = |b: BusDeparture| b.entry(routes@);
    let all = choose|all: Seq<Departure>|
        entries(all) == departures.list().filter_map(|b: BusDeparture| b.entry(routes@)) && r@
            == #[trigger] windowed(all, at);
    let list = departures.list();
    lemma_listed(departures, d);
    let i = choose|i: int| 0 <= i < list.len() && list[i] == d;
    if routes@.len() > 0 {
        let k = choose|k: int|
            0 <= k < routes@.len() && ((d.line matches Some(line) && same_ignoring_case(
                (#[trigger] routes@[k])@,
                line@,
            )) || (d.line_name matches Some(name) && same_ignoring_case(routes@[k]@, name@)));
        assert(same_ignoring_case(routes@[k]@, or_empty(d.line)) || same_ignoring_case(
            routes@[k]@,
            or_empty(d.line_name),
        ));
    }
    assert(d.on_route(routes@));
    assert(f(list[i]) is Some);
    lemma_filter_map_holds(list, f, i);
    let e = f(d)->0;
    assert(e.time == time);
    let n = choose|n: int| 0 <= n < entries(all).len() && entries(all)[n] == e;
    assert(all[n].entry() == e);
    assert(all.contains(all[n]));
    law_windowed(all, at);
    assert(in_window(all[n], at));
    assert(windowed(all, at).contains(all[n]));
    let k = choose|k: int| 0 <= k < r@.len() && r@[k] == all[n];
    assert(r@[k].time@ == time);
}

/// Nothing else is on the board: each departure is a bus of the list that is on a
/// wanted route, at its estimate or else its scheduled time, and not before the
/// time asked for.
pub proof fn law_only_wanted_buses_are_on_the_board(
    departures: BusDeps,
    routes: &[String],
    at: Option<When>,
    r: Vec<Departure>,
    k: int,
)
    requires
        call_ensures(bus_departures, (departures, routes, at), r),
        0 <= k < r@.len(),
        forall|j: int| 0 <= j < routes@.len() ==> (#[trigger] routes@[j])@.len() > 0,
    ensures
        at matches Some(w) ==> text_at_most(w.time.text(), r@[k].time@),
        exists|d: BusDeparture| #[trigger]
            departures.list().contains(d) && bus_wanted(d, routes@) && (match d.best_departure_estimate {
                Some(t) => r@[k].time@ == t@,
                None => d.aimed_departure_time matches Some(t) && r@[k].time@ == t@,
            }),
{
    let f = |b: BusDeparture| b.entry(routes@);
    let all = choose|all: Seq<Departure>|
        entries(all) == departures.list().filter_map(|b: BusDeparture| b.entry(routes@)) && r@
            == #[trigger] windowed(all, at);
    let list = departures.list();
    law_windowed(all, at);
    let n = choose|n: int| 0 <= n < all.len() && all[n] == r@[k];
    let e = entries(all)[n];
    assert(list.filter_map(f).contains(e));
    list.lemma_filter_map_contains(f, e);
    let d = choose|d: BusDeparture| list.contains(d) && f(d) == Some(e);
    assert(list.contains(d));
    if routes@.len() > 0 {
        let j = choose|j: int|
            0 <= j < routes@.len() && (same_ignoring_case(
                (#[trigger] routes@[j])@,
                or_empty(d.line),
            ) || same_ignoring_case(routes@[j]@, or_empty(d.line_name)));
        assert(routes@[j]@.len() > 0);
    }
    assert(bus_wanted(d, routes@));
}

/// A train with a scheduled time has an entry on a board made from its list.
pub proof fn lemma_train_on_board(
    list: Seq<TrainDeparture>,
    all: Seq<Departure>,
    at: Option<When>,
    d: TrainDeparture,
    time: String,
)
    requires
        entries(all) == list.filter_map(|t: TrainDeparture| t.entry()),
        list.contains(d),
        d.aimed_departure_time == Some(time),
        at matches Some(w) ==> text_at_most(w.time.text(), time@),
    ensures
        exists|k: int|
            0 <= k < windowed(all, at).len() && (#[trigger] windowed(all, at)[k]).entry()
                == d.entry()->0,
{
    let f = |t: TrainDeparture| t.entry();
    let i = choose|i: int| 0 <= i < list.len() && list[i] == d;
    lemma_filter_map_holds(list, f, i);
    let e = f(d)->0;
    let n = choose|n: int| 0 <= n < entries(all).len() && entries(all)[n] == e;
    assert(all[n].entry() == e);
    assert(all.contains(all[n]));
    law_windowed(all, at);
    assert(in_window(all[n], at));
    assert(windowed(all, at).contains(all[n]));
    let k = choose|k: int| 0 <= k < windowed(all, at).len() && windowed(all, at)[k] == all[n];
    assert(windowed(all, at)[k].entry() == e);
}

/// A wanted bus with a time has an entry on a board made from its list.
pub proof fn lemma_bus_on_board(
    list: Seq<BusDeparture>,
    routes: Seq<String>,
    all: Seq<Departure>,
    at: Option<When>,
    d: BusDeparture,
)
    requires
        entries(all) == list.filter_map(|b: BusDeparture| b.entry(routes)),
        list.contains(d),
        d.entry(routes) is Some,
        at matches Some(w) ==> text_at_most(w.time.text(), (d.entry(routes)->0).time),
    ensures
        exists|k: int|
            0 <= k < windowed(all, at).len() && (#[trigger] windowed(all, at)[k]).entry()
                == d.entry(routes)->0,
{
    let f = |b: BusDeparture| b.entry(routes);
    let i = choose|i: int| 0 <= i < list.len() && list[i] == d;
    lemma_filter_map_holds(list, f, i);
    let e = f(d)->0;
    let n = choose|n: int| 0 <= n < entries(all).len() && entries(all)[n] == e;
    assert(all[n].entry() == e);
    assert(all.contains(all[n]));
    law_windowed(all, at);
    assert(in_window(all[n], at));
    assert(windowed(all, at).contains(all[n]));
    let k = choose|k: int| 0 <= k < windowed(all, at).len() && windowed(all, at)[k] == all[n];
    assert(windowed(all, at)[k].entry() == e);
}

/// Every train with a scheduled time is on the board at that time, unless it is
/// before the time asked for.
pub proof fn law_every_timed_train_is_on_the_board(
    departures: TrainDeps,
    at: Option<When>,
    r: Vec<Departure>,
    d: TrainDeparture,
    time: String,
)
    requires
        call_ensures(train_departures, (departures, at), r),
        match departures {
            TrainDeps::Flat(v) => v@.contains(d),
            TrainDeps::Grouped(g) => g.all@.contains(d),
        },
        d.aimed_departure_time == Some(time),
        at matches Some(w) ==> text_at_most(w.time.text(), time@),
    ensures
        exists|k: int|
            0 <= k < r@.len() && (#[trigger] r@[k]).time@ == time@ && (match d.destination_name {
                Some(name) => r@[k].to@ == name@,
                None => r@[k].to@ == "?"@,
            }) && (d.status is None && d.expected_departure_time is None && d.platform is None
                ==> r@[k].note@ == "on time"@),
{
    let f = |t: TrainDeparture| t.entry();
    let all = choose|all: Seq<Departure>|
        entries(all) == departures.list().filter_map(|t: TrainDeparture| t.entry()) && r@
            == #[trigger] windowed(all, at);
    let list = departures.list();
    let i = choose|i: int| 0 <= i < list.len() && list[i] == d;
    lemma_filter_map_holds(list, f, i);
    let e = f(d)->0;
    let n = choose|n: int| 0 <= n < entries(all).len() && entries(all)[n] == e;
    assert(all[n].entry() == e);
    assert(all.contains(all[n]));
    law_windowed(all, at);
    assert(in_window(all[n], at));
    assert(windowed(all, at).contains(all[n]));
    let k = choose|k: int| 0 <= k < r@.len() && r@[k] == all[n];
    assert(r@[k].time@ == time@);
    reveal_strlit("CANCELLED");
}

/// A board without a time holds every departure that has one: as many as there
/// are trains with a scheduled time.
pub proof fn law_no_train_is_lost(departures: TrainDeps, r: Vec<Departure>)
    requires
        call_ensures(train_departures, (departures, None), r),
        forall|i: int|
            0 <= i < departures.list().len() ==> (
            #[trigger] departures.list()[i]).aimed_departure_time is Some,
    ensures
        r@.len() == departures.list().len(),
{
    let f = |t: TrainDeparture| t.entry();
    let all = choose|all: Seq<Departure>|
        entries(all) == departures.list().filter_map(|t: TrainDeparture| t.entry()) && r@
            == #[trigger] windowed(all, None);
    lemma_filter_map_all(departures.list(), f);
    lemma_untimed(all);
}

proof fn lemma_untimed(all: Seq<Departure>)
    ensures
        windowed(all, None).len() == all.len(),
{
    let p = |d: Departure| in_window(d, None);
    lemma_sorted(all);
    lemma_filter_everything(sorted(all), p);
}

proof fn lemma_filter_everything(s: Seq<Departure>, p: spec_fn(Departure) -> bool)
    requires
        forall|d: Departure| #[trigger] p(d),
    ensures
        s.filter(p) == s,
    decreases s.len(),
{
    reveal(Seq::filter);
    if s.len() > 0 {
        lemma_filter_everything(s.drop_last(), p);
        assert(s =~= s.drop_last().push(s.last()));
    }
}

/// With no time asked for, a bus more in the list is one more on the board when it
/// is wanted and has a time, and none more otherwise.
pub proof fn law_one_more_bus(
    list: Vec<BusDeparture>,
    longer: Vec<BusDeparture>,
    d: BusDeparture,
    routes: &[String],
    fewer: Vec<Departure>,
    more: Vec<Departure>,
)
    requires
        longer@ == list@.push(d),
        call_ensures(bus_departures, (BusDeps::Flat(list), routes, None), fewer),
        call_ensures(bus_departures, (BusDeps::Flat(longer), routes, None), more),
        forall|j: int| 0 <= j < routes@.len() ==> (#[trigger] routes@[j])@.len() > 0,
    ensures
        more@.len() == fewer@.len() + (if bus_wanted(d, routes@) && (
        d.best_departure_estimate is Some || d.aimed_departure_time is Some) {
            1int
        } else {
            0
        }),
{
    let f = |b: BusDeparture| b.entry(routes@);
    let before = choose|all: Seq<Departure>|
        entries(all) == list@.filter_map(|b: BusDeparture| b.entry(routes@)) && fewer@
            == #[trigger] windowed(all, None);
    let all = choose|all: Seq<Departure>|
        entries(all) == longer@.filter_map(|b: BusDeparture| b.entry(routes@)) && more@
            == #[trigger] windowed(all, None);
    assert(BusDeps::Flat(list).list() == list@);
    assert(BusDeps::Flat(longer).list() == longer@);
    lemma_filter_map_push(list@, d, f);
    lemma_untimed(all);
    lemma_untimed(before);
    assert(entries(all).len() == all.len() && entries(before).len() == before.len());
    if bus_wanted(d, routes@) && routes@.len() > 0 {
        let k = choose|k: int|
            0 <= k < routes@.len() && ((d.line matches Some(line) && same_ignoring_case(
                (#[trigger] routes@[k])@,
                line@,
            )) || (d.line_name matches Some(name) && same_ignoring_case(routes@[k]@, name@)));
        assert(same_ignoring_case(routes@[k]@, or_empty(d.line)) || same_ignoring_case(
            routes@[k]@,
            or_empty(d.line_name),
        ));
        assert(d.on_route(routes@));
    }
    if d.on_route(routes@) && routes@.len() > 0 {
        let j = choose|j: int|
            0 <= j < routes@.len() && (same_ignoring_case(
                (#[trigger] routes@[j])@,
                or_empty(d.line),
            ) || same_ignoring_case(routes@[j]@, or_empty(d.line_name)));
        assert(routes@[j]@.len() > 0);
        assert(bus_wanted(d, routes@));
    }
}

/// A board is in order of time.
pub proof fn law_boards_are_in_order(
    trains: TrainDeps,
    buses: BusDeps,
    routes: &[String],
    at: Option<When>,
    r: Vec<Departure>,
)
    requires
        call_ensures(train_departures, (trains, at), r) || call_ensures(
            bus_departures,
            (buses, routes, at),
            r,
        ),
    ensures
        forall|i: int, j: int|
            0 <= i <= j < r@.len() ==> text_at_most(
                (#[trigger] r@[i]).time@,
                (#[trigger] r@[j]).time@,
            ),
{
    let all = choose|all: Seq<Departure>| r@ == #[trigger] windowed(all, at);
    law_windowed(all, at);
    assert forall|i: int, j: int| 0 <= i <= j < r@.len() implies text_at_most(
        (#[trigger] r@[i]).time@,
        (#[trigger] r@[j]).time@,
    ) by {
        assert(r@[i].at_most(r@[j]));
    }
}

/// Departure times are compared as times of day: the texts of two times are in
/// the order of their hours and minutes.
pub proof fn law_times_are_in_order(a: Time, b: Time)
    requires
        a.wf(),
        b.wf(),
    ensures
        text_at_most(a.text(), b.text()) <==> (a.hour < b.hour || a.hour == b.hour && a.minute
            <= b.minute),
{
    reveal_strlit(":");
    let x = a.text();
    let y = b.text();
    assert(x.len() == 5 && y.len() == 5);
    reveal_with_fuel(text_at_most, 6);
    assert(x.skip(1).skip(1) =~= x.skip(2));
    assert(y.skip(1).skip(1) =~= y.skip(2));
    assert(x.skip(2).skip(1) =~= x.skip(3));
    assert(y.skip(2).skip(1) =~= y.skip(3));
    assert(x.skip(3).skip(1) =~= x.skip(4));
    assert(y.skip(3).skip(1) =~= y.skip(4));
    assert(x.skip(4).skip(1) =~= Seq::empty());
}

/// A cancelled train is shown as cancelled, whatever times are given for it; one
/// that is late is shown with the time that is expected; and the platform is
/// shown where it is known.
pub proof fn law_train_remarks(d: TrainDeparture, aimed: String, expected: String)
    requires
        d.aimed_departure_time == Some(aimed),
        d.expected_departure_time == Some(expected),
    ensures
        d.entry() matches Some(e) && {
            let cancelled = d.status matches Some(s) && same_ignoring_case(s@, "cancelled"@);
            let late = expected@.len() > 0 && expected@ != aimed@;
            let head = if d.platform matches Some(p) && p@.len() > 0 {
                "Plat "@ + d.platform->0@ + "  "@
            } else {
                Seq::empty()
            };
            &&& cancelled ==> e.note == head + "Cancelled"@
            &&& !cancelled && late ==> e.note == head + ("exp "@ + expected@)
            &&& !cancelled && !late ==> e.note == head + "on time"@
        },
{
    reveal_strlit("CANCELLED");
    reveal_strlit("cancelled");
    let u = "CANCELLED"@;
    let l = "cancelled"@;
    assert forall|s: Seq<char>| #[trigger] same_ignoring_case(s, u) <==> same_ignoring_case(
        s,
        l,
    ) by {
        assert forall|i: int| 0 <= i < u.len() implies crate::text::ascii_lower(#[trigger] u[i])
            == crate::text::ascii_lower(l[i]) by {}
        if same_ignoring_case(s, u) {
            assert forall|i: int| 0 <= i < s.len() implies crate::text::ascii_lower(#[trigger] s[i])
                == crate::text::ascii_lower(l[i]) by {
                assert(crate::text::ascii_lower(u[i]) == crate::text::ascii_lower(l[i]));
            }
        }
        if same_ignoring_case(s, l) {
            assert forall|i: int| 0 <= i < s.len() implies crate::text::ascii_lower(#[trigger] s[i])
                == crate::text::ascii_lower(u[i]) by {
                assert(crate::text::ascii_lower(u[i]) == crate::text::ascii_lower(l[i]));
            }
        }
    }
    assert(same_ignoring_case(or_empty(d.status), u) == same_ignoring_case(or_empty(d.status), l));
    assert(Seq::<char>::empty() + d.remark() =~= d.remark());
}

/// A bus is shown under the name of its line, or else its line, and then where it
/// goes; and with the time that is expected where that is not the scheduled one.
pub proof fn law_bus_entries(d: BusDeparture, routes: Seq<String>, direction: String)
    requires
        bus_wanted(d, routes),
        d.best_departure_estimate is Some || d.aimed_departure_time is Some,
        d.direction == Some(direction),
        direction@.len() > 0,
        !crate::text::white(direction@.last()),
        d.line_name is Some || d.line is Some,
        d.line_name matches Some(n) ==> n@.len() > 0 && !crate::text::white(n@[0]),
        d.line_name is None ==> d.line->0@.len() > 0 && !crate::text::white(d.line->0@[0]),
    ensures
        d.entry(routes) matches Some(e) && {
            let late = d.aimed_departure_time is Some && d.expected_departure_time is Some
                && d.expected_departure_time->0@.len() > 0 && d.expected_departure_time->0@
                != d.aimed_departure_time->0@;
            &&& d.line_name is Some ==> e.to == d.line_name->0@ + " "@ + direction@
            &&& d.line_name is None ==> e.to == d.line->0@ + " "@ + direction@
            &&& late ==> e.note == "exp "@ + d.expected_departure_time->0@
            &&& !late ==> e.note.len() == 0
        },
{
    if routes.len() > 0 {
        let k = choose|k: int|
            0 <= k < routes.len() && ((d.line matches Some(line) && same_ignoring_case(
                (#[trigger] routes[k])@,
                line@,
            )) || (d.line_name matches Some(name) && same_ignoring_case(routes[k]@, name@)));
        assert(same_ignoring_case(routes[k]@, or_empty(d.line)) || same_ignoring_case(
            routes[k]@,
            or_empty(d.line_name),
        ));
    }
    assert(d.on_route(routes));
    let t = d.route() + " "@ + direction@;
    assert(t[0] == d.route()[0]);
    assert(t.last() == direction@.last());
}

/// A line shows the time, the remark whole, and where it goes in full wherever
/// the columns leave room for it.
pub proof fn law_a_line_shows_the_departure(d: Departure, columns: int)
    requires
        d.time@.len() == 5,
        columns >= 9 + d.to@.len() + d.note@.len() + 2,
    ensures
        d.shown(columns) == (if d.note@.len() == 0 {
            "  "@ + d.time@ + "  "@ + d.to@
        } else {
            "  "@ + d.time@ + "  "@ + d.to@ + "  "@ + d.note@
        }),
{
}

/// At most so many lines are shown as were asked for, and no fewer than there are:
/// what is shown of a board with one departure more than the limit is what is
/// shown without it.
pub proof fn law_the_limit_is_kept(deps: Seq<Departure>, d: Departure, limit: int, columns: int)
    requires
        0 <= limit,
        deps.len() > 0,
    ensures
        deps.len() < limit ==> shown_departures(deps.push(d), limit, columns) == shown_departures(
            deps,
            limit,
            columns,
        ) + d.shown(columns) + "\n"@,
        deps.len() >= limit ==> shown_departures(deps.push(d), limit, columns) == shown_departures(
            deps,
            limit,
            columns,
        ),
{
    if deps.len() < limit {
        assert(first(deps.push(d), limit) =~= deps.push(d));
        assert(first(deps, limit) =~= deps);
        assert(deps.push(d).drop_last() =~= deps);
    } else {
        assert(first(deps.push(d), limit) =~= first(deps, limit));
    }
}

/// A board without departures says so.
pub proof fn law_an_empty_board_says_so(limit: int, columns: int)
    ensures
        contains_text(shown_departures(Seq::empty(), limit, columns), "(no departures)"@),
{
    reveal_strlit("  (no departures)\n");
    reveal_strlit("(no departures)");
    reveal_strlit("  ");
    reveal_strlit("\n");
    assert("  (no departures)\n"@ =~= "  "@ + "(no departures)"@ + "\n"@);
    lemma_occurs_between("  "@, "(no departures)"@, "\n"@);
}

// --- Functions ----------------------------------------------------------------

/// The text, or nothing where there is none.
fn text_or_empty(s: &Option<String>) -> (r: String)
    ensures
        r@ == or_empty(*s),
{
    match s {
        Some(t) => t.clone(),
        None => String::new(),
    }
}

impl Departure {
    /// The line that shows the departure.
    pub fn line(&self, columns: usize) -> (r: String)
        ensures
            r@ == self.shown(columns as int),
    {
        let note: Vec<char> = chars_of(self.note.as_str());
        let to: Vec<char> = chars_of(self.to.as_str());
        let time: Vec<char> = chars_of(self.time.as_str());
        let mut left: usize = if columns > 9 {
            columns - 9
        } else {
            0
        };
        if note.len() > 0 {
            left = if left > 2 && left - 2 > note.len() {
                left - 2 - note.len()
            } else {
                0
            };
        }
        let budget: usize = if left > 4 {
            left
        } else {
            4
        };
        let mut out: Vec<char> = chars_of("  ");
        push_all(&mut out, pad_right(time.as_slice(), 5).as_slice());
        push_str(&mut out, "  ");
        push_all(&mut out, shorten(to.as_slice(), budget).as_slice());
        if note.len() > 0 {
            push_str(&mut out, "  ");
            push_all(&mut out, note.as_slice());
        }
        string_of(out.as_slice())
    }
}

/// Appends the first `limit` departures, a line each, or that there are none.
pub fn push_departures(out: &mut String, deps: &[Departure], limit: usize, columns: usize)
    ensures
        final(out)@ == old(out)@ + shown_departures(deps@, limit as int, columns as int),
{
    if deps.len() == 0 {
        out.append("  (no departures)\n");
        return;
    }
    let count: usize = if deps.len() <= limit {
        deps.len()
    } else {
        limit
    };
    let mut i: usize = 0;
    assert(deps@.take(0) =~= Seq::<Departure>::empty());
    assert(old(out)@ + Seq::<char>::empty() =~= old(out)@);
    while i < count
        invariant
            i <= count <= deps@.len(),
            out@ == old(out)@ + departure_lines(deps@.take(i as int), columns as int),
        decreases count - i,
    {
        assert(deps@.take(i + 1).drop_last() =~= deps@.take(i as int));
        assert(deps@.take(i + 1).last() == deps@[i as int]);
        let line: String = deps[i].line(columns);
        out.append(line.as_str());
        out.append("\n");
        assert(out@ =~= old(out)@ + departure_lines(deps@.take(i + 1), columns as int));
        i = i + 1;
    }
    assert(deps@.take(count as int) =~= first(deps@, limit as int));
}

impl Default for TrainDeps {
    fn default() -> (r: TrainDeps)
        ensures
            r matches TrainDeps::Flat(v) && v@.len() == 0,
    {
        TrainDeps::Flat(Vec::new())
    }
}

impl TrainDeps {
    /// The trains as a plain list.
    pub fn into_vec(self) -> (r: Vec<TrainDeparture>)
        ensures
            r@ == self.list(),
    {
        match self {
            TrainDeps::Grouped(g) => g.all,
            TrainDeps::Flat(v) => v,
        }
    }
}

impl Default for BusDeps {
    fn default() -> (r: BusDeps)
        ensures
            r matches BusDeps::Flat(v) && v@.len() == 0,
    {
        BusDeps::Flat(Vec::new())
    }
}

impl BusDeps {
    /// The buses as a plain list.
    pub fn into_vec(self) -> (r: Vec<BusDeparture>)
        ensures
            r@ == self.list(),
    {
        match self {
            BusDeps::Grouped(m) => {
                let mut groups: Vec<(String, Vec<BusDeparture>)> = m;
                let mut out: Vec<BusDeparture> = Vec::new();
                let ghost mut done: int = 0;
                assert(groups@ =~= m@.skip(0));
                assert(m@.take(0) =~= Seq::<(String, Vec<BusDeparture>)>::empty());
                while groups.len() > 0
                    invariant
                        0 <= done <= m@.len(),
                        groups@ == m@.skip(done),
                        out@ == of_routes(m@.take(done)),
                    decreases groups@.len(),
                {
                    let (_, list) = groups.remove(0);
                    let mut list: Vec<BusDeparture> = list;
                    out.append(&mut list);
                    proof {
                        assert(m@.take(done + 1).drop_last() =~= m@.take(done));
                        assert(m@.take(done + 1).last() == m@[done]);
                        assert(groups@ =~= m@.skip(done + 1));
                        done = done + 1;
                    }
                }
                assert(m@.take(done) =~= m@);
                out
            },
            BusDeps::Flat(v) => v,
        }
    }
}

/// A remark on an expected time that differs from the scheduled one.
fn expectation_text(aimed: &Option<String>, estimate: &Option<String>) -> (r: Option<String>)
    ensures
        text_of(r) == expectation(*aimed, *estimate),
{
    match (aimed, estimate) {
        (Some(a), Some(e)) => if !e.as_str().is_empty() && !same_str(e.as_str(), a.as_str()) {
            let mut out: Vec<char> = chars_of("exp ");
            push_str(&mut out, e.as_str());
            Some(string_of(out.as_slice()))
        } else {
            None
        },
        _ => None,
    }
}

/// `on time`, the expected time such as `exp 09:38`, or `Cancelled`.
pub fn train_status(d: &TrainDeparture) -> (r: String)
    ensures
        r@ == d.remark(),
{
    let status: String = text_or_empty(&d.status);
    if eq_ignoring_case(status.as_str(), "CANCELLED") {
        return "Cancelled".to_string();
    }
    match expectation_text(&d.aimed_departure_time, &d.expected_departure_time) {
        Some(e) => e,
        None => "on time".to_string(),
    }
}

/// The departure, for a train with a scheduled time.
fn train_departure(d: &TrainDeparture) -> (r: Option<Departure>)
    ensures
        match r {
            Some(e) => d.entry() == Some(e.entry()),
            None => d.entry() is None,
        },
{
    match &d.aimed_departure_time {
        None => None,
        Some(time) => {
            let platform: String = text_or_empty(&d.platform);
            let status: String = train_status(d);
            let note: String = if !platform.as_str().is_empty() {
                let mut out: Vec<char> = chars_of("Plat ");
                push_str(&mut out, platform.as_str());
                push_str(&mut out, "  ");
                push_str(&mut out, status.as_str());
                string_of(out.as_slice())
            } else {
                status
            };
            let to: String = match &d.destination_name {
                Some(t) => t.clone(),
                None => "?".to_string(),
            };
            Some(Departure { time: time.clone(), to, note })
        },
    }
}

/// Whether the routes are not restricted or the bus is on one of them.
pub fn route_matches(routes: &[String], d: &BusDeparture) -> (r: bool)
    ensures
        r == d.on_route(routes@),
{
    if routes.len() == 0 {
        return true;
    }
    let line: String = text_or_empty(&d.line);
    let line_name: String = text_or_empty(&d.line_name);
    let mut i: usize = 0;
    while i < routes.len()
        invariant
            i <= routes@.len(),
            line@ == or_empty(d.line),
            line_name@ == or_empty(d.line_name),
            forall|j: int|
                0 <= j < i ==> !same_ignoring_case((#[trigger] routes@[j])@, line@)
                    && !same_ignoring_case(routes@[j]@, line_name@),
        decreases routes@.len() - i,
    {
        if eq_ignoring_case(routes[i].as_str(), line.as_str()) || eq_ignoring_case(
            routes[i].as_str(),
            line_name.as_str(),
        ) {
            return true;
        }
        i = i + 1;
    }
    false
}

/// The departure, for a bus on one of the routes with a known time.
fn bus_departure(d: &BusDeparture, routes: &[String]) -> (r: Option<Departure>)
    ensures
        match r {
            Some(e) => d.entry(routes@) == Some(e.entry()),
            None => d.entry(routes@) is None,
        },
{
    if !route_matches(routes, d) {
        return None;
    }
    let time: Option<String> = match &d.best_departure_estimate {
        Some(t) => Some(t.clone()),
        None => copy_text(&d.aimed_departure_time),
    };
    match time {
        None => None,
        Some(time) => {
            let route: String = match &d.line_name {
                Some(n) => n.clone(),
                None => text_or_empty(&d.line),
            };
            let mut to: Vec<char> = chars_of(route.as_str());
            push_str(&mut to, " ");
            push_str(&mut to, text_or_empty(&d.direction).as_str());
            let note: String = match expectation_text(
                &d.aimed_departure_time,
                &d.expected_departure_time,
            ) {
                Some(e) => e,
                None => String::new(),
            };
            Some(Departure { time, to: string_of(trim(to.as_slice())), note })
        },
    }
}

/// Sorts by time and, for a timetable lookup, drops what is before its time: the
/// bus timetable covers the whole day. Times as `HH:MM` compare as texts.
pub fn apply_time_window(deps: &mut Vec<Departure>, at: Option<When>)
    requires
        at matches Some(w) ==> w.time.wf(),
    ensures
        final(deps)@ == windowed(old(deps)@, at),
{
    let mut taken: Vec<Departure> = Vec::new();
    std::mem::swap(&mut taken, deps);
    let all: Vec<Departure> = sort(taken);
    let ghost p = |d: Departure| in_window(d, at);
    match at {
        None => {
            proof {
                lemma_filter_all(all@, p);
            }
            *deps = all;
        },
        Some(w) => {
            let cutoff: String = format_time(w.time);
            let mut rest: Vec<Departure> = all;
            let mut kept: Vec<Departure> = Vec::new();
            let ghost mut done: int = 0;
            assert(rest@ =~= all@.skip(0));
            assert(all@.take(0) =~= Seq::<Departure>::empty());
            while rest.len() > 0
                invariant
                    0 <= done <= all@.len(),
                    at == Some(w),
                    cutoff@ == w.time.text(),
                    p == (|d: Departure| in_window(d, at)),
                    rest@ == all@.skip(done),
                    kept@ == all@.take(done).filter(p),
                decreases rest@.len(),
            {
                let d: Departure = rest.remove(0);
                proof {
                    assert(d == all@[done]);
                    assert(all@.take(done + 1) =~= all@.take(done).push(all@[done]));
                    all@.take(done).lemma_filter_push(all@[done], p);
                }
                if str_at_most(cutoff.as_str(), d.time.as_str()) {
                    kept.push(d);
                }
                proof {
                    assert(rest@ =~= all@.skip(done + 1));
                    done = done + 1;
                }
            }
            assert(all@.take(done) =~= all@);
            *deps = kept;
        },
    }
}

proof fn lemma_filter_all(s: Seq<Departure>, p: spec_fn(Departure) -> bool)
    requires
        forall|d: Departure| #[trigger] p(d),
    ensures
        s.filter(p) == s,
    decreases s.len(),
{
    if s.len() > 0 {
        lemma_filter_all(s.drop_last(), p);
        assert(s =~= s.drop_last().push(s.last()));
        s.drop_last().lemma_filter_push(s.last(), p);
    }
}

/// The departures of trains, by time, from the time of a timetable lookup on.
pub fn train_departures(departures: TrainDeps, at: Option<When>) -> (r: Vec<Departure>)
    requires
        at matches Some(w) ==> w.time.wf(),
    ensures
        exists|all: Seq<Departure>|
            entries(all) == departures.list().filter_map(|d: TrainDeparture| d.entry()) && r@
                == #[trigger] windowed(all, at),
{
    let list: Vec<TrainDeparture> = departures.into_vec();
    let mut deps: Vec<Departure> = Vec::new();
    let ghost f = |d: TrainDeparture| d.entry();
    let mut i: usize = 0;
    assert(list@.take(0) =~= Seq::<TrainDeparture>::empty());
    assert(entries(deps@) =~= list@.take(0).filter_map(f));
    while i < list.len()
        invariant
            i <= list@.len(),
            f == (|d: TrainDeparture| d.entry()),
            entries(deps@) == list@.take(i as int).filter_map(f),
        decreases list@.len() - i,
    {
        let ghost sofar = entries(deps@);
        proof {
            list@.lemma_filter_map_take_succ(f, i as int);
        }
        if let Some(d) = train_departure(&list[i]) {
            deps.push(d);
            assert(entries(deps@) =~= sofar.push(d.entry()));
            assert(sofar.push(d.entry()) =~= sofar + seq![d.entry()]);
        } else {
            assert(sofar + Seq::<Entry>::empty() =~= sofar);
        }
        i = i + 1;
    }
    assert(list@.take(i as int) =~= list@);
    let ghost all = deps@;
    apply_time_window(&mut deps, at);
    assert(deps@ == windowed(all, at));
    deps
}

/// The departures of buses on the given routes, by time, from the time of a
/// timetable lookup on.
pub fn bus_departures(departures: BusDeps, routes: &[String], at: Option<When>) -> (r: Vec<
    Departure,
>)
    requires
        at matches Some(w) ==> w.time.wf(),
    ensures
        exists|all: Seq<Departure>|
            entries(all) == departures.list().filter_map(|d: BusDeparture| d.entry(routes@)) && r@
                == #[trigger] windowed(all, at),
{
    let list: Vec<BusDeparture> = departures.into_vec();
    let mut deps: Vec<Departure> = Vec::new();
    let ghost f = |d: BusDeparture| d.entry(routes@);
    let mut i: usize = 0;
    assert(list@.take(0) =~= Seq::<BusDeparture>::empty());
    assert(entries(deps@) =~= list@.take(0).filter_map(f));
    while i < list.len()
        invariant
            i <= list@.len(),
            f == (|d: BusDeparture| d.entry(routes@)),
            entries(deps@) == list@.take(i as int).filter_map(f),
        decreases list@.len() - i,
    {
        let ghost sofar = entries(deps@);
        proof {
            list@.lemma_filter_map_take_succ(f, i as int);
        }
        if let Some(d) = bus_departure(&list[i], routes) {
            deps.push(d);
            assert(entries(deps@) =~= sofar.push(d.entry()));
            assert(sofar.push(d.entry()) =~= sofar + seq![d.entry()]);
        } else {
            assert(sofar + Seq::<Entry>::empty() =~= sofar);
        }
        i = i + 1;
    }
    assert(list@.take(i as int) =~= list@);
    let ghost all = deps@;
    apply_time_window(&mut deps, at);
    assert(deps@ == windowed(all, at));
    deps
}

} // verus!
