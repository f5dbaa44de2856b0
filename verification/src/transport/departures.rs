//! Asking for departure boards, and the body of the transport section.

use vstd::prelude::*;

use crate::cache::{called_through, kept, law_given_is_asked_for_or_kept, Cache, Reason};
use crate::date::{format_date, format_time, read_clock, Date, Stamp};
use crate::order::text_at_most;
use crate::text::{chars_of, contains_text, push_all, push_str, string_of, trim_end, white};
use crate::transport::boards::{
    bus_departures, entries, lemma_bus_on_board, lemma_train_on_board, push_departures,
    train_departures, windowed, BusDeparture, BusLive,
    Departure, TrainDeparture, TrainLive, When,
};
use crate::transport::names::{
    cached_name, lemma_only_names_same, name_of, only_names, remember_name,
};
use crate::transport::places::Place;
use crate::transport::service::cached_get;
use crate::transport::stops::{select_stops, stops_selected};
use crate::transport::{
    board_day, bus_key, gives, law_every_stop_is_in_the_report, replies, report, section, sections, stop_header, takes_any,
    takes_any_near, train_key, when_ok, Board, LocateError, Point, Stop, TransportSettings,
    BUS_ICON, BUS_URL, TRAIN_ICON, TRAIN_URL,
};

verus! {

/// What was had of a station's board is read: its name, and its departures in
/// order.
pub open spec fn trains_read<E, R: Fn(&str) -> Result<TrainLive, E>>(
    read: R,
    at: Option<When>,
    given: Result<String, E>,
    r: Result<(Option<String>, Vec<Departure>), E>,
) -> bool {
    match given {
        Err(e) => r == Err::<(Option<String>, Vec<Departure>), E>(e),
        Ok(body) => exists|reply: Result<TrainLive, E>| #[trigger]
            gives(read, body@, reply) && match reply {
                Err(e) => r == Err::<(Option<String>, Vec<Departure>), E>(e),
                Ok(live) => r matches Ok((name, deps)) && name == live.station_name && exists|
                    all: Seq<Departure>,
                |
                    entries(all) == live.departures.list().filter_map(
                        |d: TrainDeparture| d.entry(),
                    ) && deps@ == #[trigger] windowed(all, at),
            },
    }
}

/// The board of a station was asked for, and `r` is what came of it.
pub open spec fn train_found<
    E: Reason,
    G: Fn(&str) -> Result<String, E>,
    R: Fn(&str) -> Result<TrainLive, E>,
>(
    before: Option<Cache>,
    cache: Option<Cache>,
    cfg: TransportSettings,
    code: Seq<char>,
    at: Option<When>,
    get: G,
    read: R,
    r: Result<(Option<String>, Vec<Departure>), E>,
) -> bool {
    exists|day: Date, given: Result<String, E>|
        #[trigger] board_day(at, day) && called_through(
            before,
            cache,
            "train"@,
            train_key(code, at),
            Some(day),
            false,
            replies(get, cfg.train_url(code, at), cfg.app_key@),
            given,
        ) && #[trigger] trains_read(read, at, given, r)
}

/// Asks for the board of a station: the live one, or the timetable of a day and
/// time.
pub fn fetch_train_departures<
    E: Reason,
    G: Fn(&str) -> Result<String, E>,
    R: Fn(&str) -> Result<TrainLive, E>,
>(
    cfg: &TransportSettings,
    code: &str,
    at: Option<When>,
    cache: &mut Option<Cache>,
    get: &G,
    read: &R,
) -> (r: Result<(Option<String>, Vec<Departure>), E>)
    requires
        when_ok(at),
        takes_any(*get),
        takes_any(*read),
    ensures
        train_found(*old(cache), *final(cache), *cfg, code@, at, *get, *read, r),
{
    let mut url: Vec<char> = chars_of(TRAIN_URL);
    push_str(&mut url, "/");
    push_str(&mut url, code);
    let mut key: Vec<char> = chars_of(code);
    push_str(&mut key, "|");
    let day: Date = match at {
        Some(w) => {
            let date: String = format_date(w.date, "%Y-%m-%d");
            let time: String = format_time(w.time);
            let mut tail: Vec<char> = chars_of("/");
            push_str(&mut tail, date.as_str());
            push_str(&mut tail, "/");
            push_str(&mut tail, time.as_str());
            push_str(&mut tail, "/timetable.json");
            push_all(&mut url, tail.as_slice());
            let mut stamp: Vec<char> = chars_of(date.as_str());
            push_str(&mut stamp, "T");
            push_str(&mut stamp, time.as_str());
            push_all(&mut key, stamp.as_slice());
            w.date
        },
        None => {
            push_str(&mut url, "/live.json");
            push_str(&mut key, "live");
            let stamp: Stamp = read_clock();
            assert(board_day(at, stamp.date));
            stamp.date
        },
    };
    push_str(&mut url, "?app_id=");
    push_str(&mut url, cfg.app_id.as_str());
    push_str(&mut url, "&app_key=");
    push_str(&mut url, cfg.app_key.as_str());
    push_str(&mut url, "&train_status=passenger");
    let url_text: String = string_of(url.as_slice());
    let key_text: String = string_of(key.as_slice());
    let given: Result<String, E> = cached_get(
        cache,
        "train",
        key_text.as_str(),
        Some(day),
        false,
        url_text.as_str(),
        cfg.app_key.as_str(),
        get,
    );
    let ghost came = given;
    let r: Result<(Option<String>, Vec<Departure>), E> = match given {
        Err(e) => Err(e),
        Ok(body) => {
            let reply: Result<TrainLive, E> = read(body.as_str());
            assert(gives(*read, body@, reply));
            match reply {
                Err(e) => Err(e),
                Ok(live) => {
                    let deps: Vec<Departure> = train_departures(live.departures, at);
                    Ok((live.station_name, deps))
                },
            }
        },
    };
    assert(board_day(at, day));
    assert(trains_read(*read, at, came, r));
    r
}

/// What was had of a bus stop's board is read: its name, and its departures in
/// order.
pub open spec fn buses_read<E, R: Fn(&str) -> Result<BusLive, E>>(
    read: R,
    routes: Seq<String>,
    at: Option<When>,
    given: Result<String, E>,
    r: Result<(Option<String>, Vec<Departure>), E>,
) -> bool {
    match given {
        Err(e) => r == Err::<(Option<String>, Vec<Departure>), E>(e),
        Ok(body) => exists|reply: Result<BusLive, E>| #[trigger]
            gives(read, body@, reply) && match reply {
                Err(e) => r == Err::<(Option<String>, Vec<Departure>), E>(e),
                Ok(live) => r matches Ok((name, deps)) && name == live.stop_name && exists|
                    all: Seq<Departure>,
                |
                    entries(all) == live.departures.list().filter_map(
                        |d: BusDeparture| d.entry(routes),
                    ) && deps@ == #[trigger] windowed(all, at),
            },
    }
}

/// The board of a bus stop was asked for, and `r` is what came of it.
pub open spec fn bus_found<
    E: Reason,
    G: Fn(&str) -> Result<String, E>,
    R: Fn(&str) -> Result<BusLive, E>,
>(
    before: Option<Cache>,
    cache: Option<Cache>,
    cfg: TransportSettings,
    code: Seq<char>,
    at: Option<When>,
    get: G,
    read: R,
    r: Result<(Option<String>, Vec<Departure>), E>,
) -> bool {
    exists|day: Date, given: Result<String, E>|
        #[trigger] board_day(at, day) && called_through(
            before,
            cache,
            "bus"@,
            bus_key(code, at),
            Some(day),
            false,
            replies(get, cfg.bus_url(code, at), cfg.app_key@),
            given,
        ) && #[trigger] buses_read(read, cfg.routes@, at, given, r)
}

/// Asks for the board of a bus stop: the live one, or the timetable of a day.
pub fn fetch_bus_departures<
    E: Reason,
    G: Fn(&str) -> Result<String, E>,
    R: Fn(&str) -> Result<BusLive, E>,
>(
    cfg: &TransportSettings,
    atco: &str,
    at: Option<When>,
    cache: &mut Option<Cache>,
    get: &G,
    read: &R,
) -> (r: Result<(Option<String>, Vec<Departure>), E>)
    requires
        when_ok(at),
        takes_any(*get),
        takes_any(*read),
    ensures
        bus_found(*old(cache), *final(cache), *cfg, atco@, at, *get, *read, r),
{
    let mut url: Vec<char> = chars_of(BUS_URL);
    push_str(&mut url, "/");
    push_str(&mut url, atco);
    let mut key: Vec<char> = chars_of(atco);
    push_str(&mut key, "|");
    let day: Date = match at {
        Some(w) => {
            let date: String = format_date(w.date, "%Y-%m-%d");
            let mut tail: Vec<char> = chars_of("/timetable.json?date=");
            push_str(&mut tail, date.as_str());
            push_str(&mut tail, "&app_id=");
            push_all(&mut url, tail.as_slice());
            push_str(&mut key, date.as_str());
            w.date
        },
        None => {
            push_str(&mut url, "/live.json?app_id=");
            push_str(&mut key, "live");
            let stamp: Stamp = read_clock();
            assert(board_day(at, stamp.date));
            stamp.date
        },
    };
    push_str(&mut url, cfg.app_id.as_str());
    push_str(&mut url, "&app_key=");
    push_str(&mut url, cfg.app_key.as_str());
    push_str(&mut url, "&group=route&nextbuses=no");
    let url_text: String = string_of(url.as_slice());
    let key_text: String = string_of(key.as_slice());
    let given: Result<String, E> = cached_get(
        cache,
        "bus",
        key_text.as_str(),
        Some(day),
        false,
        url_text.as_str(),
        cfg.app_key.as_str(),
        get,
    );
    let ghost came = given;
    let r: Result<(Option<String>, Vec<Departure>), E> = match given {
        Err(e) => Err(e),
        Ok(body) => {
            let reply: Result<BusLive, E> = read(body.as_str());
            assert(gives(*read, body@, reply));
            match reply {
                Err(e) => Err(e),
                Ok(live) => {
                    let deps: Vec<Departure> = bus_departures(
                        live.departures,
                        cfg.routes.as_slice(),
                        at,
                    );
                    Ok((live.stop_name, deps))
                },
            }
        },
    };
    assert(board_day(at, day));
    assert(buses_read(*read, cfg.routes@, at, came, r));
    r
}

/// The name that is shown for a stop: its own, that of its board, one that is
/// remembered, or its code.
pub open spec fn name_shown(
    own: Option<String>,
    resolved: Option<String>,
    remembered: Option<Seq<char>>,
    id: Seq<char>,
) -> Seq<char> {
    match own {
        Some(n) => n@,
        None => match resolved {
            Some(n) => n@,
            None => match remembered {
                Some(n) => n,
                None => id,
            },
        },
    }
}

fn shown_as(stop: &Stop, resolved: &Option<String>, cache: &Option<Cache>) -> (r: String)
    ensures
        r@ == name_shown(stop.name, *resolved, name_of(*cache, stop.id@), stop.id@),
{
    match &stop.name {
        Some(n) => n.clone(),
        None => match resolved {
            Some(n) => n.clone(),
            None => match cached_name(cache, stop.id.as_str()) {
                Some(n) => n,
                None => stop.id.clone(),
            },
        },
    }
}

/// What asking for a stop's board comes to: the board with the name to show. A
/// name that the board gives is remembered; a failure is noted under the stop's
/// code.
pub open spec fn board_made<E>(
    before: Option<Cache>,
    cache: Option<Cache>,
    stop: Stop,
    outcome: Result<(Option<String>, Vec<Departure>), E>,
    board: Board,
    failed: Seq<(String, E)>,
    failures: Seq<(String, E)>,
) -> bool {
    match outcome {
        Ok((resolved, deps)) => {
            &&& board.departures == Some(deps)
            &&& board.name@ == name_shown(
                stop.name,
                resolved,
                name_of(cache, stop.id@),
                stop.id@,
            )
            &&& failures == failed
            &&& only_names(cache, before)
            &&& resolved matches Some(n) ==> cache is Some ==> name_of(cache, stop.id@) == Some(n@)
            &&& resolved is None ==> cache == before
        },
        Err(e) => {
            &&& board.departures is None
            &&& board.name@ == name_shown(stop.name, None, name_of(before, stop.id@), stop.id@)
            &&& failures == failed.push((stop.id, e))
            &&& cache == before
        },
    }
}

fn board_from<E>(
    stop: &Stop,
    outcome: Result<(Option<String>, Vec<Departure>), E>,
    cache: &mut Option<Cache>,
    failures: &mut Vec<(String, E)>,
) -> (r: Board)
    ensures
        board_made(
            *old(cache),
            *final(cache),
            *stop,
            outcome,
            r,
            old(failures)@,
            final(failures)@,
        ),
{
    match outcome {
        Ok((resolved, deps)) => {
            proof {
                lemma_only_names_same(*cache);
            }
            if let Some(n) = &resolved {
                remember_name(cache, stop.id.as_str(), n.as_str());
            }
            let name: String = shown_as(stop, &resolved, cache);
            Board { name, departures: Some(deps) }
        },
        Err(e) => {
            let name: String = shown_as(stop, &None, cache);
            failures.push((stop.id.clone(), e));
            Board { name, departures: None }
        },
    }
}

/// One more board was asked for, and added to the boards so far.
pub open spec fn board_added<E>(
    before: Option<Cache>,
    cache: Option<Cache>,
    stop: Stop,
    lookup: spec_fn(
        Option<Cache>,
        Option<Cache>,
        Seq<char>,
        Result<(Option<String>, Vec<Departure>), E>,
    ) -> bool,
    sofar: (Seq<Board>, Seq<(String, E)>),
    now: (Seq<Board>, Seq<(String, E)>),
) -> bool {
    exists|middle: Option<Cache>, outcome: Result<(Option<String>, Vec<Departure>), E>| #[trigger]
        lookup(before, middle, stop.id@, outcome) && now.0.len() == sofar.0.len() + 1
            && now.0.drop_last() == sofar.0 && board_made(
            middle,
            cache,
            stop,
            outcome,
            now.0.last(),
            sofar.1,
            now.1,
        )
}

/// The boards of the stops were asked for one after the other.
pub open spec fn boards_gathered<E>(
    before: Option<Cache>,
    cache: Option<Cache>,
    stops: Seq<Stop>,
    lookup: spec_fn(
        Option<Cache>,
        Option<Cache>,
        Seq<char>,
        Result<(Option<String>, Vec<Departure>), E>,
    ) -> bool,
    all: (Seq<Board>, Seq<(String, E)>),
) -> bool
    decreases stops.len(),
{
    if stops.len() == 0 {
        all.0.len() == 0 && all.1.len() == 0 && cache == before
    } else {
        exists|middle: Option<Cache>, sofar: (Seq<Board>, Seq<(String, E)>)|
            boards_gathered(before, middle, stops.drop_last(), lookup, sofar)
                && #[trigger] board_added(middle, cache, stops.last(), lookup, sofar, all)
    }
}

/// How the board of a station is looked up.
pub open spec fn train_lookup<
    E: Reason,
    G: Fn(&str) -> Result<String, E>,
    R: Fn(&str) -> Result<TrainLive, E>,
>(cfg: TransportSettings, at: Option<When>, get: G, read: R) -> spec_fn(
    Option<Cache>,
    Option<Cache>,
    Seq<char>,
    Result<(Option<String>, Vec<Departure>), E>,
) -> bool {
    |
        before: Option<Cache>,
        cache: Option<Cache>,
        code: Seq<char>,
        r: Result<(Option<String>, Vec<Departure>), E>,
    |
        train_found(before, cache, cfg, code, at, get, read, r)
}

/// How the board of a bus stop is looked up.
pub open spec fn bus_lookup<
    E: Reason,
    G: Fn(&str) -> Result<String, E>,
    R: Fn(&str) -> Result<BusLive, E>,
>(cfg: TransportSettings, at: Option<When>, get: G, read: R) -> spec_fn(
    Option<Cache>,
    Option<Cache>,
    Seq<char>,
    Result<(Option<String>, Vec<Departure>), E>,
) -> bool {
    |
        before: Option<Cache>,
        cache: Option<Cache>,
        code: Seq<char>,
        r: Result<(Option<String>, Vec<Departure>), E>,
    |
        bus_found(before, cache, cfg, code, at, get, read, r)
}

/// There is a board for every stop, in order: a name that was known is kept.
pub proof fn law_a_board_for_every_stop<E>(
    before: Option<Cache>,
    cache: Option<Cache>,
    stops: Seq<Stop>,
    lookup: spec_fn(
        Option<Cache>,
        Option<Cache>,
        Seq<char>,
        Result<(Option<String>, Vec<Departure>), E>,
    ) -> bool,
    all: (Seq<Board>, Seq<(String, E)>),
)
    requires
        boards_gathered(before, cache, stops, lookup, all),
    ensures
        all.0.len() == stops.len(),
        forall|i: int|
            0 <= i < stops.len() ==> ((#[trigger] stops[i]).name matches Some(n)
                ==> all.0[i].name@ == n@),
        all.1.len() <= stops.len(),
    decreases stops.len(),
{
    if stops.len() > 0 {
        let (middle, sofar) = choose|middle: Option<Cache>, sofar: (Seq<Board>, Seq<(String, E)>)|
            boards_gathered(before, middle, stops.drop_last(), lookup, sofar)
                && #[trigger] board_added(middle, cache, stops.last(), lookup, sofar, all);
        law_a_board_for_every_stop(before, middle, stops.drop_last(), lookup, sofar);
        let init = stops.drop_last();
        assert forall|i: int| 0 <= i < stops.len() implies ((#[trigger] stops[i]).name matches Some(n)
            ==> all.0[i].name@ == n@) by {
            if i < init.len() {
                assert(init[i] == stops[i]);
                assert(all.0[i] == all.0.drop_last()[i]);
            } else {
                assert(all.0[i] == all.0.last());
            }
        }
    }
}

/// Stops were looked up one after the other: each from the cache that the one
/// before it left, and `found` is what came of each.
pub open spec fn stops_asked<E>(
    starts: Seq<Option<Cache>>,
    ends: Seq<Option<Cache>>,
    stops: Seq<Stop>,
    lookup: spec_fn(
        Option<Cache>,
        Option<Cache>,
        Seq<char>,
        Result<(Option<String>, Vec<Departure>), E>,
    ) -> bool,
    found: Seq<Result<(Option<String>, Vec<Departure>), E>>,
) -> bool {
    &&& starts.len() == stops.len() && ends.len() == stops.len() && found.len() == stops.len()
    &&& forall|k: int|
        0 <= k < stops.len() ==> lookup(starts[k], ends[k], stops[k].id@, #[trigger] found[k])
}

/// The board shows what came of looking its stop up: its departures, or that there
/// are none to be had; and its name is the one it was found under, or else what the
/// board says, or else one that is remembered or its code.
pub open spec fn shows<E>(
    board: Board,
    stop: Stop,
    outcome: Result<(Option<String>, Vec<Departure>), E>,
) -> bool {
    &&& match outcome {
        Ok((resolved, deps)) => board.departures == Some(deps) && (stop.name is None && resolved is Some
            ==> board.name@ == resolved->0@),
        Err(_) => board.departures is None,
    }
    &&& stop.name matches Some(n) ==> board.name@ == n@
}

/// Every stop is looked up, by its own code, and its board shows what came of it;
/// every failure is handed on with the code of its stop, and nothing else is.
pub proof fn law_every_stop_is_looked_up<E>(
    before: Option<Cache>,
    cache: Option<Cache>,
    stops: Seq<Stop>,
    lookup: spec_fn(
        Option<Cache>,
        Option<Cache>,
        Seq<char>,
        Result<(Option<String>, Vec<Departure>), E>,
    ) -> bool,
    all: (Seq<Board>, Seq<(String, E)>),
)
    requires
        boards_gathered(before, cache, stops, lookup, all),
    ensures
        all.0.len() == stops.len(),
        exists|
            starts: Seq<Option<Cache>>,
            ends: Seq<Option<Cache>>,
            found: Seq<Result<(Option<String>, Vec<Departure>), E>>,
        |
            {
                &&& #[trigger] stops_asked(starts, ends, stops, lookup, found)
                &&& forall|k: int|
                    0 <= k < stops.len() ==> shows(all.0[k], stops[k], #[trigger] found[k])
                &&& forall|k: int|
                    0 <= k < stops.len() && (#[trigger] found[k]) is Err ==> all.1.contains(
                        (stops[k].id, found[k]->Err_0),
                    )
                &&& all.1.len() == found.filter(
                    |r: Result<(Option<String>, Vec<Departure>), E>| r is Err,
                ).len()
            },
    decreases stops.len(),
{
    let failed = |r: Result<(Option<String>, Vec<Departure>), E>| r is Err;
    if stops.len() == 0 {
        let none = Seq::<Option<Cache>>::empty();
        let found = Seq::<Result<(Option<String>, Vec<Departure>), E>>::empty();
        assert(stops_asked(none, none, stops, lookup, found));
        reveal(Seq::filter);
        assert(found.filter(failed).len() == 0);
    } else {
        let init = stops.drop_last();
        let (middle, sofar) = choose|middle: Option<Cache>, sofar: (Seq<Board>, Seq<(String, E)>)|
            boards_gathered(before, middle, stops.drop_last(), lookup, sofar)
                && #[trigger] board_added(middle, cache, stops.last(), lookup, sofar, all);
        let (end, outcome) = choose|
            end: Option<Cache>,
            outcome: Result<(Option<String>, Vec<Departure>), E>,
        | #[trigger]
            lookup(middle, end, stops.last().id@, outcome) && all.0.len() == sofar.0.len() + 1
                && all.0.drop_last() == sofar.0 && board_made(
                end,
                cache,
                stops.last(),
                outcome,
                all.0.last(),
                sofar.1,
                all.1,
            );
        law_every_stop_is_looked_up(before, middle, init, lookup, sofar);
        let (ss, es, fs) = choose|
            starts: Seq<Option<Cache>>,
            ends: Seq<Option<Cache>>,
            found: Seq<Result<(Option<String>, Vec<Departure>), E>>,
        |
            {
                &&& #[trigger] stops_asked(starts, ends, init, lookup, found)
                &&& forall|k: int|
                    0 <= k < init.len() ==> shows(sofar.0[k], init[k], #[trigger] found[k])
                &&& forall|k: int|
                    0 <= k < init.len() && (#[trigger] found[k]) is Err ==> sofar.1.contains(
                        (init[k].id, found[k]->Err_0),
                    )
                &&& sofar.1.len() == found.filter(
                    |r: Result<(Option<String>, Vec<Departure>), E>| r is Err,
                ).len()
            };
        let starts = ss.push(middle);
        let ends = es.push(end);
        let found = fs.push(outcome);
        assert forall|k: int| 0 <= k < stops.len() implies lookup(
            starts[k],
            ends[k],
            stops[k].id@,
            #[trigger] found[k],
        ) by {
            if k < init.len() {
                assert(found[k] == fs[k] && init[k] == stops[k]);
            }
        }
        assert(stops_asked(starts, ends, stops, lookup, found));
        assert forall|k: int| 0 <= k < stops.len() implies shows(
            all.0[k],
            stops[k],
            #[trigger] found[k],
        ) by {
            if k < init.len() {
                assert(found[k] == fs[k] && init[k] == stops[k]);
                assert(all.0[k] == all.0.drop_last()[k]);
            } else {
                assert(all.0[k] == all.0.last());
            }
        }
        fs.lemma_filter_push(outcome, failed);
        assert forall|k: int| 0 <= k < stops.len() && (#[trigger] found[k]) is Err implies all.1.contains(
            (stops[k].id, found[k]->Err_0),
        ) by {
            if k < init.len() {
                assert(found[k] == fs[k] && init[k] == stops[k]);
                let n = choose|n: int|
                    0 <= n < sofar.1.len() && sofar.1[n] == (init[k].id, fs[k]->Err_0);
                assert(all.1[n] == sofar.1[n]);
            } else {
                assert(all.1[all.1.len() - 1] == (stops[k].id, found[k]->Err_0));
            }
        }
    }
}

/// The boards of stations, one for each, and what failed.
pub fn train_boards<E: Reason, G: Fn(&str) -> Result<String, E>, R: Fn(&str) -> Result<TrainLive, E>>(
    cfg: &TransportSettings,
    stations: &Vec<Stop>,
    at: Option<When>,
    cache: &mut Option<Cache>,
    get: &G,
    read: &R,
) -> (r: (Vec<Board>, Vec<(String, E)>))
    requires
        when_ok(at),
        takes_any(*get),
        takes_any(*read),
    ensures
        boards_gathered(
            *old(cache),
            *final(cache),
            stations@,
            train_lookup(*cfg, at, *get, *read),
            (r.0@, r.1@),
        ),
{
    let mut out: Vec<Board> = Vec::new();
    let mut failures: Vec<(String, E)> = Vec::new();
    let ghost lookup = train_lookup(*cfg, at, *get, *read);
    let mut i: usize = 0;
    assert(stations@.take(0) =~= Seq::<Stop>::empty());
    while i < stations.len()
        invariant
            i <= stations@.len(),
            when_ok(at),
            takes_any(*get),
            takes_any(*read),
            lookup == train_lookup(*cfg, at, *get, *read),
            boards_gathered(
                *old(cache),
                *cache,
                stations@.take(i as int),
                lookup,
                (out@, failures@),
            ),
        decreases stations@.len() - i,
    {
        let ghost before = *cache;
        let ghost sofar = (out@, failures@);
        let stop: &Stop = &stations[i];
        let outcome: Result<(Option<String>, Vec<Departure>), E> = fetch_train_departures(
            cfg,
            stop.id.as_str(),
            at,
            cache,
            get,
            read,
        );
        let ghost middle = *cache;
        let ghost came = outcome;
        let board: Board = board_from(stop, outcome, cache, &mut failures);
        out.push(board);
        proof {
            assert(stations@.take(i + 1).drop_last() =~= stations@.take(i as int));
            assert(stations@.take(i + 1).last() == *stop);
            assert(out@.drop_last() =~= sofar.0);
            assert(lookup(before, middle, stop.id@, came));
            assert(board_added(before, *cache, *stop, lookup, sofar, (out@, failures@)));
        }
        i = i + 1;
    }
    assert(stations@.take(i as int) =~= stations@);
    (out, failures)
}

/// The boards of bus stops, one for each, and what failed.
pub fn bus_boards<E: Reason, G: Fn(&str) -> Result<String, E>, R: Fn(&str) -> Result<BusLive, E>>(
    cfg: &TransportSettings,
    stops: &Vec<Stop>,
    at: Option<When>,
    cache: &mut Option<Cache>,
    get: &G,
    read: &R,
) -> (r: (Vec<Board>, Vec<(String, E)>))
    requires
        when_ok(at),
        takes_any(*get),
        takes_any(*read),
    ensures
        boards_gathered(
            *old(cache),
            *final(cache),
            stops@,
            bus_lookup(*cfg, at, *get, *read),
            (r.0@, r.1@),
        ),
{
    let mut out: Vec<Board> = Vec::new();
    let mut failures: Vec<(String, E)> = Vec::new();
    let ghost lookup = bus_lookup(*cfg, at, *get, *read);
    let mut i: usize = 0;
    assert(stops@.take(0) =~= Seq::<Stop>::empty());
    while i < stops.len()
        invariant
            i <= stops@.len(),
            when_ok(at),
            takes_any(*get),
            takes_any(*read),
            lookup == bus_lookup(*cfg, at, *get, *read),
            boards_gathered(
                *old(cache),
                *cache,
                stops@.take(i as int),
                lookup,
                (out@, failures@),
            ),
        decreases stops@.len() - i,
    {
        let ghost before = *cache;
        let ghost sofar = (out@, failures@);
        let stop: &Stop = &stops[i];
        let outcome: Result<(Option<String>, Vec<Departure>), E> = fetch_bus_departures(
            cfg,
            stop.id.as_str(),
            at,
            cache,
            get,
            read,
        );
        let ghost middle = *cache;
        let ghost came = outcome;
        let board: Board = board_from(stop, outcome, cache, &mut failures);
        out.push(board);
        proof {
            assert(stops@.take(i + 1).drop_last() =~= stops@.take(i as int));
            assert(stops@.take(i + 1).last() == *stop);
            assert(out@.drop_last() =~= sofar.0);
            assert(lookup(before, middle, stop.id@, came));
            assert(board_added(before, *cache, *stop, lookup, sofar, (out@, failures@)));
        }
        i = i + 1;
    }
    assert(stops@.take(i as int) =~= stops@);
    (out, failures)
}

/// Appends the stops with their boards.
fn push_sections(
    out: &mut String,
    icons: bool,
    icon: char,
    label: &str,
    boards: &Vec<Board>,
    limit: usize,
    columns: usize,
)
    ensures
        final(out)@ == old(out)@ + sections(
            icons,
            icon,
            label@,
            boards@,
            limit as int,
            columns as int,
        ),
{
    let mut i: usize = 0;
    assert(boards@.take(0) =~= Seq::<Board>::empty());
    assert(old(out)@ + Seq::<char>::empty() =~= old(out)@);
    while i < boards.len()
        invariant
            i <= boards@.len(),
            out@ == old(out)@ + sections(
                icons,
                icon,
                label@,
                boards@.take(i as int),
                limit as int,
                columns as int,
            ),
        decreases boards@.len() - i,
    {
        let board: &Board = &boards[i];
        let ghost sofar = out@;
        let head: String = stop_header(icons, icon, label, board.name.as_str(), columns);
        out.append(head.as_str());
        out.append("\n");
        match &board.departures {
            Some(d) => push_departures(out, d.as_slice(), limit, columns),
            None => {
                out.append("  (departures unavailable)\n");
            },
        }
        out.append("\n");
        proof {
            assert(boards@.take(i + 1).drop_last() =~= boards@.take(i as int));
            assert(boards@.take(i + 1).last() == *board);
            let one = section(icons, icon, label@, *board, limit as int, columns as int);
            assert(out@ =~= sofar + one);
            assert(out@ =~= old(out)@ + sections(
                icons,
                icon,
                label@,
                boards@.take(i + 1),
                limit as int,
                columns as int,
            ));
        }
        i = i + 1;
    }
    assert(boards@.take(i as int) =~= boards@);
}

/// The body of the transport section, from the boards.
pub fn departures_report(
    trains: &Vec<Board>,
    buses: &Vec<Board>,
    limit: usize,
    columns: usize,
    icons: bool,
) -> (r: String)
    ensures
        r@ == report(trains@, buses@, limit as int, columns as int, icons),
{
    if trains.len() == 0 && buses.len() == 0 {
        return "No stations or bus stops configured or found nearby.\n".to_string();
    }
    let mut out: String = String::new();
    push_sections(&mut out, icons, TRAIN_ICON, "train", trains, limit, columns);
    let ghost first_part = out@;
    assert(first_part =~= sections(
        icons,
        TRAIN_ICON,
        "train"@,
        trains@,
        limit as int,
        columns as int,
    ));
    push_sections(&mut out, icons, BUS_ICON, "bus", buses, limit, columns);
    let v: Vec<char> = chars_of(out.as_str());
    let mut text: String = string_of(trim_end(v.as_slice()));
    text.append("\n");
    text
}

/// The boards of the stops that were settled on are asked for and laid out; where
/// the stops could not be settled, there is nothing to ask for.
pub open spec fn boards_reported<
    E: Reason,
    G: Fn(&str) -> Result<String, E>,
    T: Fn(&str) -> Result<TrainLive, E>,
    B: Fn(&str) -> Result<BusLive, E>,
>(
    before: Option<Cache>,
    cache: Option<Cache>,
    cfg: TransportSettings,
    at: Option<When>,
    columns: int,
    icons: bool,
    get: G,
    read_train: T,
    read_bus: B,
    selected: Result<(Vec<Stop>, Vec<Stop>), LocateError<E>>,
    r: Result<(String, Vec<(String, E)>), LocateError<E>>,
) -> bool {
    match selected {
        Err(e) => r == Err::<(String, Vec<(String, E)>), LocateError<E>>(e) && cache == before,
        Ok((stations, stops)) => exists|
            middle: Option<Cache>,
            trains: (Seq<Board>, Seq<(String, E)>),
            buses: (Seq<Board>, Seq<(String, E)>),
        |
            #[trigger] boards_gathered(
                before,
                middle,
                stations@,
                train_lookup(cfg, at, get, read_train),
                trains,
            ) && #[trigger] boards_gathered(
                middle,
                cache,
                stops@,
                bus_lookup(cfg, at, get, read_bus),
                buses,
            ) && (r matches Ok((text, failures)) && text@ == report(
                trains.0,
                buses.0,
                cfg.departures as int,
                columns,
                icons,
            ) && failures@ == trains.1 + buses.1),
    }
}

/// The body of the transport section: the stops of the settings or the nearest
/// ones, with their next departures. `at` asks for the timetable of a day and
/// time; without it the live boards are asked for. What could not be had comes
/// back under the code of its stop.
pub fn nearby_departures<
    E: Reason,
    G: Fn(&str) -> Result<String, E>,
    R: Fn(&str) -> Result<Option<Point>, E>,
    P: Fn(&str, &Point) -> Result<Vec<Place>, E>,
    T: Fn(&str) -> Result<TrainLive, E>,
    B: Fn(&str) -> Result<BusLive, E>,
>(
    cfg: &TransportSettings,
    address: &str,
    at: Option<When>,
    cache: &mut Option<Cache>,
    columns: usize,
    icons: bool,
    get: &G,
    read_point: &R,
    read_places: &P,
    read_train: &T,
    read_bus: &B,
) -> (r: Result<(String, Vec<(String, E)>), LocateError<E>>)
    requires
        cfg.in_range(),
        when_ok(at),
        takes_any(*get),
        takes_any(*read_point),
        takes_any_near(*read_places),
        takes_any(*read_train),
        takes_any(*read_bus),
    ensures
        exists|middle: Option<Cache>, selected: Result<(Vec<Stop>, Vec<Stop>), LocateError<E>>|
            #[trigger] stops_selected(
                *old(cache),
                middle,
                *cfg,
                address@,
                *get,
                *read_point,
                *read_places,
                selected,
            ) && boards_reported(
                middle,
                *final(cache),
                *cfg,
                at,
                columns as int,
                icons,
                *get,
                *read_train,
                *read_bus,
                selected,
                r,
            ),
{
    let selected: Result<(Vec<Stop>, Vec<Stop>), LocateError<E>> = select_stops(
        cfg,
        address,
        cache,
        get,
        read_point,
        read_places,
    );
    let ghost settled = *cache;
    let ghost came = selected;
    let r: Result<(String, Vec<(String, E)>), LocateError<E>> = match selected {
        Err(e) => Err(e),
        Ok((stations, stops)) => {
            let (trains, failures) = train_boards(cfg, &stations, at, cache, get, read_train);
            let ghost middle = *cache;
            let ghost first_failures = failures@;
            let (buses, more) = bus_boards(cfg, &stops, at, cache, get, read_bus);
            let ghost more_failures = more@;
            let mut failures: Vec<(String, E)> = failures;
            let mut more: Vec<(String, E)> = more;
            failures.append(&mut more);
            let text: String = departures_report(&trains, &buses, cfg.departures, columns, icons);
            proof {
                assert(boards_gathered(
                    settled,
                    middle,
                    stations@,
                    train_lookup(*cfg, at, *get, *read_train),
                    (trains@, first_failures),
                ));
                assert(boards_gathered(
                    middle,
                    *cache,
                    stops@,
                    bus_lookup(*cfg, at, *get, *read_bus),
                    (buses@, more_failures),
                ));
                assert(failures@ =~= first_failures + more_failures);
            }
            Ok((text, failures))
        },
    };
    assert(boards_reported(
        settled,
        *cache,
        *cfg,
        at,
        columns as int,
        icons,
        *get,
        *read_train,
        *read_bus,
        came,
        r,
    ));
    r
}

/// A stop goes by the name it was found under; else by the one that its board gives;
/// else by the one that is remembered for its code; and else by its code.
pub proof fn law_names_of_stops(
    own: Option<String>,
    resolved: Option<String>,
    remembered: Option<Seq<char>>,
    id: Seq<char>,
)
    ensures
        own is Some ==> name_shown(own, resolved, remembered, id) == own->0@,
        own is None && resolved is Some ==> name_shown(own, resolved, remembered, id)
            == resolved->0@,
        own is None && resolved is None && remembered is Some ==> name_shown(
            own,
            resolved,
            remembered,
            id,
        ) == remembered->0,
        own is None && resolved is None && remembered is None ==> name_shown(
            own,
            resolved,
            remembered,
            id,
        ) == id,
{
}

/// The report on departures has a section for every stop, and every failure is
/// handed on, that of a station as well as that of a bus stop.
pub proof fn law_no_stop_is_left_out_of_the_report<
    E: Reason,
    G: Fn(&str) -> Result<String, E>,
    T: Fn(&str) -> Result<TrainLive, E>,
    B: Fn(&str) -> Result<BusLive, E>,
>(
    before: Option<Cache>,
    cache: Option<Cache>,
    cfg: TransportSettings,
    at: Option<When>,
    columns: int,
    icons: bool,
    get: G,
    read_train: T,
    read_bus: B,
    stations: Vec<Stop>,
    stops: Vec<Stop>,
    r: Result<(String, Vec<(String, E)>), LocateError<E>>,
)
    requires
        boards_reported(
            before,
            cache,
            cfg,
            at,
            columns,
            icons,
            get,
            read_train,
            read_bus,
            Ok::<(Vec<Stop>, Vec<Stop>), LocateError<E>>((stations, stops)),
            r,
        ),
    ensures
        r is Ok,
        exists|
            middle: Option<Cache>,
            trains: (Seq<Board>, Seq<(String, E)>),
            buses: (Seq<Board>, Seq<(String, E)>),
        |
            {
                &&& #[trigger] boards_gathered(
                    before,
                    middle,
                    stations@,
                    train_lookup(cfg, at, get, read_train),
                    trains,
                )
                &&& #[trigger] boards_gathered(
                    middle,
                    cache,
                    stops@,
                    bus_lookup(cfg, at, get, read_bus),
                    buses,
                )
                &&& trains.0.len() == stations@.len() && buses.0.len() == stops@.len()
                &&& (r->Ok_0).1@.len() == trains.1.len() + buses.1.len()
                &&& forall|i: int|
                    0 <= i < trains.1.len() ==> (r->Ok_0).1@.contains(#[trigger] trains.1[i])
                &&& forall|i: int|
                    0 <= i < buses.1.len() ==> (r->Ok_0).1@.contains(#[trigger] buses.1[i])
                &&& forall|i: int, part: Seq<char>|
                    0 <= i < trains.0.len() && part.len() > 0 && !white(part.last())
                        && #[trigger] contains_text(
                        section(
                            icons,
                            TRAIN_ICON,
                            "train"@,
                            trains.0[i],
                            cfg.departures as int,
                            columns,
                        ),
                        part,
                    ) ==> contains_text((r->Ok_0).0@, part)
                &&& forall|i: int, part: Seq<char>|
                    0 <= i < buses.0.len() && part.len() > 0 && !white(part.last())
                        && #[trigger] contains_text(
                        section(
                            icons,
                            BUS_ICON,
                            "bus"@,
                            buses.0[i],
                            cfg.departures as int,
                            columns,
                        ),
                        part,
                    ) ==> contains_text((r->Ok_0).0@, part)
            },
{
    let limit = cfg.departures as int;
    let (middle, trains, buses) = choose|
        middle: Option<Cache>,
        trains: (Seq<Board>, Seq<(String, E)>),
        buses: (Seq<Board>, Seq<(String, E)>),
    |
        #[trigger] boards_gathered(
            before,
            middle,
            stations@,
            train_lookup(cfg, at, get, read_train),
            trains,
        ) && #[trigger] boards_gathered(
            middle,
            cache,
            stops@,
            bus_lookup(cfg, at, get, read_bus),
            buses,
        ) && (r matches Ok((text, failures)) && text@ == report(
            trains.0,
            buses.0,
            cfg.departures as int,
            columns,
            icons,
        ) && failures@ == trains.1 + buses.1);
    law_a_board_for_every_stop(
        before,
        middle,
        stations@,
        train_lookup(cfg, at, get, read_train),
        trains,
    );
    law_a_board_for_every_stop(middle, cache, stops@, bus_lookup(cfg, at, get, read_bus), buses);
    let failures = (r->Ok_0).1@;
    let text = (r->Ok_0).0@;
    assert forall|i: int| 0 <= i < trains.1.len() implies failures.contains(#[trigger] trains.1[i]) by {
        assert(failures[i] == trains.1[i]);
    }
    assert forall|i: int| 0 <= i < buses.1.len() implies failures.contains(#[trigger] buses.1[i]) by {
        assert(failures[trains.1.len() + i] == buses.1[i]);
    }
    assert forall|i: int, part: Seq<char>|
        0 <= i < trains.0.len() && part.len() > 0 && !white(part.last()) && #[trigger] contains_text(
            section(icons, TRAIN_ICON, "train"@, trains.0[i], limit, columns),
            part,
        ) implies contains_text(text, part) by {
        law_every_stop_is_in_the_report(trains.0, buses.0, limit, columns, icons, i, part);
    }
    assert forall|i: int, part: Seq<char>|
        0 <= i < buses.0.len() && part.len() > 0 && !white(part.last()) && #[trigger] contains_text(
            section(icons, BUS_ICON, "bus"@, buses.0[i], limit, columns),
            part,
        ) implies contains_text(text, part) by {
        law_every_stop_is_in_the_report(trains.0, buses.0, limit, columns, icons, i, part);
    }
}

/// The board of a station is what asking for it gives, or one that was kept for the
/// same station, day and time, and is read as the timetable from that time on.
pub proof fn law_a_station_board_is_asked_for_or_kept<
    E: Reason,
    G: Fn(&str) -> Result<String, E>,
    R: Fn(&str) -> Result<TrainLive, E>,
>(
    before: Option<Cache>,
    cache: Option<Cache>,
    cfg: TransportSettings,
    code: Seq<char>,
    at: Option<When>,
    get: G,
    read: R,
    r: Result<(Option<String>, Vec<Departure>), E>,
)
    requires
        train_found(before, cache, cfg, code, at, get, read, r),
    ensures
        exists|given: Result<String, E>|
            (replies(get, cfg.train_url(code, at), cfg.app_key@)(given) || kept(
                before,
                "train"@,
                train_key(code, at),
                given,
            )) && #[trigger] trains_read(read, at, given, r),
        before is None ==> cache is None,
{
    let (day, given) = choose|day: Date, given: Result<String, E>|
        #[trigger] board_day(at, day) && called_through(
            before,
            cache,
            "train"@,
            train_key(code, at),
            Some(day),
            false,
            replies(get, cfg.train_url(code, at), cfg.app_key@),
            given,
        ) && #[trigger] trains_read(read, at, given, r);
    law_given_is_asked_for_or_kept(
        before,
        cache,
        "train"@,
        train_key(code, at),
        Some(day),
        false,
        replies(get, cfg.train_url(code, at), cfg.app_key@),
        given,
    );
}

/// The board of a bus stop is what asking for it gives, or one that was kept for the
/// same stop and day, and is read for the routes of the settings.
pub proof fn law_a_stop_board_is_asked_for_or_kept<
    E: Reason,
    G: Fn(&str) -> Result<String, E>,
    R: Fn(&str) -> Result<BusLive, E>,
>(
    before: Option<Cache>,
    cache: Option<Cache>,
    cfg: TransportSettings,
    code: Seq<char>,
    at: Option<When>,
    get: G,
    read: R,
    r: Result<(Option<String>, Vec<Departure>), E>,
)
    requires
        bus_found(before, cache, cfg, code, at, get, read, r),
    ensures
        exists|given: Result<String, E>|
            (replies(get, cfg.bus_url(code, at), cfg.app_key@)(given) || kept(
                before,
                "bus"@,
                bus_key(code, at),
                given,
            )) && #[trigger] buses_read(read, cfg.routes@, at, given, r),
        before is None ==> cache is None,
{
    let (day, given) = choose|day: Date, given: Result<String, E>|
        #[trigger] board_day(at, day) && called_through(
            before,
            cache,
            "bus"@,
            bus_key(code, at),
            Some(day),
            false,
            replies(get, cfg.bus_url(code, at), cfg.app_key@),
            given,
        ) && #[trigger] buses_read(read, cfg.routes@, at, given, r);
    law_given_is_asked_for_or_kept(
        before,
        cache,
        "bus"@,
        bus_key(code, at),
        Some(day),
        false,
        replies(get, cfg.bus_url(code, at), cfg.app_key@),
        given,
    );
}

/// The answer about a station is read whole: its name is the one that the answer
/// gives, and every train of it with a scheduled time is among the departures, from
/// the time asked for on.
pub proof fn law_station_answers_are_read_whole<E, R: Fn(&str) -> Result<TrainLive, E>>(
    read: R,
    at: Option<When>,
    given: Result<String, E>,
    r: Result<(Option<String>, Vec<Departure>), E>,
)
    requires
        trains_read(read, at, given, r),
    ensures
        given is Err ==> r is Err && r->Err_0 == given->Err_0,
        r is Ok ==> given is Ok && exists|live: TrainLive|
            {
                &&& #[trigger] gives(read, given->Ok_0@, Ok::<TrainLive, E>(live))
                &&& (r->Ok_0).0 == live.station_name
                &&& forall|d: TrainDeparture|
                    #[trigger] live.departures.list().contains(d) && d.aimed_departure_time is Some
                        && (at matches Some(w) ==> text_at_most(
                        w.time.text(),
                        d.aimed_departure_time->0@,
                    )) ==> exists|k: int|
                        0 <= k < (r->Ok_0).1@.len() && (#[trigger] (r->Ok_0).1@[k]).time@
                            == d.aimed_departure_time->0@
            },
{
    if r is Ok {
        let body = given->Ok_0;
        let reply = choose|reply: Result<TrainLive, E>| #[trigger]
            gives(read, body@, reply) && match reply {
                Err(e) => false,
                Ok(live) => r matches Ok((name, deps)) && name == live.station_name && exists|
                    all: Seq<Departure>,
                |
                    entries(all) == live.departures.list().filter_map(
                        |d: TrainDeparture| d.entry(),
                    ) && deps@ == #[trigger] windowed(all, at),
            };
        let live = reply->Ok_0;
        assert(reply == Ok::<TrainLive, E>(live));
        let deps = (r->Ok_0).1@;
        let all = choose|all: Seq<Departure>|
            entries(all) == live.departures.list().filter_map(|d: TrainDeparture| d.entry()) && deps
                == #[trigger] windowed(all, at);
        assert forall|d: TrainDeparture|
            #[trigger] live.departures.list().contains(d) && d.aimed_departure_time is Some && (
            at matches Some(w) ==> text_at_most(
                w.time.text(),
                d.aimed_departure_time->0@,
            )) implies exists|k: int|
            0 <= k < deps.len() && (#[trigger] deps[k]).time@ == d.aimed_departure_time->0@ by {
            lemma_train_on_board(
                live.departures.list(),
                all,
                at,
                d,
                d.aimed_departure_time->0,
            );
            let k = choose|k: int|
                0 <= k < windowed(all, at).len() && (#[trigger] windowed(all, at)[k]).entry()
                    == d.entry()->0;
            assert(deps[k].time@ == d.aimed_departure_time->0@);
        }
    }
}

/// The answer about a bus stop is read whole: its name is the one that the answer
/// gives, and every bus of it that has an entry for the routes is among the
/// departures, from the time asked for on.
pub proof fn law_stop_answers_are_read_whole<E, R: Fn(&str) -> Result<BusLive, E>>(
    read: R,
    routes: Seq<String>,
    at: Option<When>,
    given: Result<String, E>,
    r: Result<(Option<String>, Vec<Departure>), E>,
)
    requires
        buses_read(read, routes, at, given, r),
    ensures
        given is Err ==> r is Err && r->Err_0 == given->Err_0,
        r is Ok ==> given is Ok && exists|live: BusLive|
            {
                &&& #[trigger] gives(read, given->Ok_0@, Ok::<BusLive, E>(live))
                &&& (r->Ok_0).0 == live.stop_name
                &&& forall|d: BusDeparture|
                    #[trigger] live.departures.list().contains(d) && d.entry(routes) is Some && (
                    at matches Some(w) ==> text_at_most(w.time.text(), (d.entry(routes)->0).time))
                        ==> exists|k: int|
                        0 <= k < (r->Ok_0).1@.len() && (#[trigger] (r->Ok_0).1@[k]).entry()
                            == d.entry(routes)->0
            },
{
    if r is Ok {
        let body = given->Ok_0;
        let reply = choose|reply: Result<BusLive, E>| #[trigger]
            gives(read, body@, reply) && match reply {
                Err(e) => false,
                Ok(live) => r matches Ok((name, deps)) && name == live.stop_name && exists|
                    all: Seq<Departure>,
                |
                    entries(all) == live.departures.list().filter_map(
                        |d: BusDeparture| d.entry(routes),
                    ) && deps@ == #[trigger] windowed(all, at),
            };
        let live = reply->Ok_0;
        assert(reply == Ok::<BusLive, E>(live));
        let deps = (r->Ok_0).1@;
        let all = choose|all: Seq<Departure>|
            entries(all) == live.departures.list().filter_map(
                |d: BusDeparture| d.entry(routes),
            ) && deps == #[trigger] windowed(all, at);
        assert forall|d: BusDeparture|
            #[trigger] live.departures.list().contains(d) && d.entry(routes) is Some && (
            at matches Some(w) ==> text_at_most(w.time.text(), (d.entry(routes)->0).time)) implies exists|
            k: int,
        |
            0 <= k < deps.len() && (#[trigger] deps[k]).entry() == d.entry(routes)->0 by {
            lemma_bus_on_board(live.departures.list(), routes, all, at, d);
            let k = choose|k: int|
                0 <= k < windowed(all, at).len() && (#[trigger] windowed(all, at)[k]).entry()
                    == d.entry(routes)->0;
            assert(deps[k].entry() == d.entry(routes)->0);
        }
    }
}

} // verus!
