//! Nearest or pinned stations and bus stops with their next departures.
//!
//! Which stops are reported is settled first: the pinned ones, or the closest
//! few around a location. Then the board of each is asked for, the live one or
//! the timetable of a given day and time, and all of it is laid out as text.
//!
//! Asking for a web address and reading what comes back are given as functions.

use vstd::prelude::*;

use crate::date::{iso_text, law_date_texts_tell_dates_apart, reads, Date, Stamp, Time};
use crate::sequences::{lemma_filter_map_all, lemma_filter_map_holds, lemma_filter_map_len};
use crate::text::{
    begins_with, chars_of, contains_text, decimal, ends_with, law_pieces_of_both,
    lemma_contains_more, lemma_contains_through, lemma_kept_part, lemma_occurs_between,
    lemma_one_piece, occurs_at, pieces, push_all, push_str, rows, shorten, split, string_of, text_of, trim,
    trimmed, trimmed_end, truncated, white,
};
use crate::transport::boards::{shown_departures, Departure, When};
use crate::transport::places::{by_distance, first, Code, Place};
use crate::transport::service::redacted_reply;

pub mod boards;
pub mod departures;
pub mod names;
pub mod places;
pub mod service;
pub mod stops;

verus! {

/// The glyph before the name of a station in image output. It lies in a private
/// use area, by which the renderer knows it.
pub const TRAIN_ICON: char = '\u{f238}';

/// The glyph before the name of a bus stop in image output.
pub const BUS_ICON: char = '\u{f207}';

/// Where nearby places are asked for.
pub const PLACES_URL: &'static str = "https://transportapi.com/v3/uk/places.json";

/// Where the boards of stations are asked for.
pub const TRAIN_URL: &'static str = "https://transportapi.com/v3/uk/train/station";

/// Where the boards of bus stops are asked for.
pub const BUS_URL: &'static str = "https://transportapi.com/v3/uk/bus/stop";

/// Where the location of a postcode is asked for.
pub const POSTCODES_URL: &'static str = "https://api.postcodes.io/postcodes";

/// A location, by the texts of its coordinates.
#[derive(Debug, Clone)]
pub struct Point {
    /// The latitude in full.
    pub lat: String,
    /// The longitude in full.
    pub lon: String,
    /// The latitude to four decimal places.
    pub lat4: String,
    /// The longitude to four decimal places.
    pub lon4: String,
}

/// The settings of the transport section.
#[derive(Debug, Clone)]
pub struct TransportSettings {
    /// The application id.
    pub app_id: String,
    /// The application key.
    pub app_key: String,
    /// The postcode to search around. Without one, that of the address is taken.
    pub postcode: Option<String>,
    /// The location to search around, in place of a postcode.
    pub point: Option<Point>,
    /// How many of the nearest stations are shown.
    pub stations: usize,
    /// How many of the nearest bus stops are shown.
    pub bus_stops: usize,
    /// How many departures are shown for each stop.
    pub departures: usize,
    /// The stations to show in place of the nearest ones.
    pub station_codes: Vec<String>,
    /// The bus stops to show in place of the nearest ones.
    pub bus_stop_codes: Vec<String>,
    /// The routes to which buses are restricted; none means all.
    pub routes: Vec<String>,
}

/// A stop to report on.
#[derive(Debug)]
pub struct Stop {
    /// Its CRS or ATCO code.
    pub id: String,
    /// Its name, where it is known.
    pub name: Option<String>,
}

/// What is known of a stop once its board was asked for.
#[derive(Debug)]
pub struct Board {
    /// The name that is shown.
    pub name: String,
    /// The departures; nothing where the board could not be had.
    pub departures: Option<Vec<Departure>>,
}

/// Why the location could not be settled, or a search failed.
#[derive(Debug)]
pub enum LocateError<E> {
    /// There is no postcode in the settings and none in the address.
    NoPostcode,
    /// The postcode is not known.
    UnknownPostcode(String),
    /// What was asked for could not be had or read.
    Outside(E),
}

// --- Models ------------------------------------------------------------------

/// The function may be called with any text.
pub open spec fn takes_any<T, F: Fn(&str) -> T>(f: F) -> bool {
    forall|text: &str| #[trigger] f.requires((text,))
}

/// The function may be called with any text and location.
pub open spec fn takes_any_near<T, F: Fn(&str, &Point) -> T>(f: F) -> bool {
    forall|text: &str, point: &Point| #[trigger] f.requires((text, point))
}

/// The function may be called with any two texts.
pub open spec fn takes_any_two<T, F: Fn(&str, &str) -> T>(f: F) -> bool {
    forall|text: &str, other: &str| #[trigger] f.requires((text, other))
}

/// The function can give `result` for two texts.
pub open spec fn gives_for<T, F: Fn(&str, &str) -> T>(
    f: F,
    text: Seq<char>,
    other: Seq<char>,
    result: T,
) -> bool {
    exists|t: &str, o: &str| t@ == text && o@ == other && #[trigger] f.ensures((t, o), result)
}

/// The function can give `result` for a text.
pub open spec fn gives<T, F: Fn(&str) -> T>(f: F, text: Seq<char>, result: T) -> bool {
    exists|t: &str| t@ == text && #[trigger] f.ensures((t,), result)
}

/// The replies to `url` that can be had, with the key kept out of them.
pub open spec fn replies<E, G: Fn(&str) -> Result<String, E>>(
    get: G,
    url: Seq<char>,
    app_key: Seq<char>,
) -> spec_fn(Result<String, E>) -> bool {
    |outcome: Result<String, E>|
        exists|reply: Result<String, E>|
            gives(get, url, reply) && #[trigger] redacted_reply(reply, app_key, outcome)
}

/// The replies to `url` that can be had.
pub open spec fn plain_replies<E, G: Fn(&str) -> Result<String, E>>(
    get: G,
    url: Seq<char>,
) -> spec_fn(Result<String, E>) -> bool {
    |outcome: Result<String, E>| gives(get, url, outcome)
}

/// The last part of an address, after its last comma, when there is anything in
/// it.
pub open spec fn address_postcode(address: Seq<char>) -> Option<Seq<char>> {
    let last = trimmed(pieces(address, ","@).last());
    if last.len() == 0 {
        None
    } else {
        Some(last)
    }
}

/// The postcode of the settings, or else that of the address.
pub open spec fn chosen_postcode(configured: Option<String>, address: Seq<char>) -> Option<Seq<char>> {
    match configured {
        Some(p) => Some(p@),
        None => address_postcode(address),
    }
}

/// A postcode without white space.
pub open spec fn unspaced(postcode: Seq<char>) -> Seq<char> {
    postcode.filter(|c: char| !white(c))
}

/// A name under its icon, or with its label, shortened to fit.
pub open spec fn header(
    icons: bool,
    icon: char,
    label: Seq<char>,
    name: Seq<char>,
    columns: int,
) -> Seq<char> {
    if icons {
        seq![icon] + "  "@ + truncated(
            name,
            if columns >= 4 {
                columns - 4
            } else {
                0
            },
        )
    } else {
        let suffix = " ("@ + label + ")"@;
        truncated(
            name,
            if columns >= suffix.len() {
                columns - suffix.len()
            } else {
                0
            },
        ) + suffix
    }
}

/// A stop by its code and its name.
pub open spec fn stop_texts(stops: Seq<Stop>) -> Seq<(Seq<char>, Option<Seq<char>>)> {
    stops.map_values(|s: Stop| (s.id@, text_of(s.name)))
}

/// The stops that are pinned by their codes.
pub open spec fn pinned(codes: Seq<String>) -> Seq<(Seq<char>, Option<Seq<char>>)> {
    codes.map_values(|c: String| (c@, None::<Seq<char>>))
}

/// The stops among the nearest places, with their names.
pub open spec fn found(places: Seq<Place>, which: Code) -> Seq<(Seq<char>, Option<Seq<char>>)> {
    places.filter_map(
        |p: Place|
            match p.code(which) {
                Some(c) => Some((c, Some(p.shown()))),
                None => None,
            },
    )
}

/// The stops to report: the pinned ones, or else the nearest of those that a
/// search came up with.
pub open spec fn chosen(
    codes: Seq<String>,
    places: Seq<Place>,
    kind: Seq<char>,
    which: Code,
    count: int,
) -> Seq<(Seq<char>, Option<Seq<char>>)> {
    if codes.len() > 0 {
        pinned(codes)
    } else {
        found(first(by_distance(places, kind), count), which)
    }
}

impl TransportSettings {
    /// A search around a location is needed for stations or for bus stops.
    pub open spec fn searches(self) -> bool {
        (self.station_codes@.len() == 0 && self.stations > 0) || (self.bus_stop_codes@.len() == 0
            && self.bus_stops > 0)
    }

    /// Where a search is needed, three more than are shown can be asked for.
    pub open spec fn in_range(self) -> bool {
        self.searches() ==> {
            &&& self.station_codes@.len() == 0 ==> self.stations + 3 <= usize::MAX
            &&& self.bus_stop_codes@.len() == 0 ==> self.bus_stops + 3 <= usize::MAX
        }
    }

    /// The address at which places near a location are asked for.
    pub open spec fn places_url(self, point: Point, place_type: Seq<char>, limit: nat) -> Seq<char> {
        PLACES_URL@ + "?lat="@ + point.lat@ + "&lon="@ + point.lon@ + "&type="@ + place_type
            + "&limit="@ + decimal(limit) + "&app_id="@ + self.app_id@ + "&app_key="@
            + self.app_key@
    }

    /// The address at which the board of a station is asked for.
    pub open spec fn train_url(self, code: Seq<char>, at: Option<When>) -> Seq<char> {
        let head = TRAIN_URL@ + "/"@ + code + (match at {
            Some(w) => "/"@ + iso_text(w.date) + "/"@ + w.time.text() + "/timetable.json"@,
            None => "/live.json"@,
        });
        head + "?app_id="@ + self.app_id@ + "&app_key="@ + self.app_key@
            + "&train_status=passenger"@
    }

    /// The address at which the board of a bus stop is asked for.
    pub open spec fn bus_url(self, code: Seq<char>, at: Option<When>) -> Seq<char> {
        let head = BUS_URL@ + "/"@ + code + (match at {
            Some(w) => "/timetable.json?date="@ + iso_text(w.date) + "&app_id="@,
            None => "/live.json?app_id="@,
        });
        head + self.app_id@ + "&app_key="@ + self.app_key@ + "&group=route&nextbuses=no"@
    }
}

/// The key under which places near a location are kept.
pub open spec fn places_key(point: Point, place_type: Seq<char>, limit: nat) -> Seq<char> {
    place_type + "|"@ + point.lat4@ + "|"@ + point.lon4@ + "|"@ + decimal(limit)
}

/// The key under which the board of a station is kept.
pub open spec fn train_key(code: Seq<char>, at: Option<When>) -> Seq<char> {
    code + "|"@ + (match at {
        Some(w) => iso_text(w.date) + "T"@ + w.time.text(),
        None => "live"@,
    })
}

/// The key under which the board of a bus stop is kept.
pub open spec fn bus_key(code: Seq<char>, at: Option<When>) -> Seq<char> {
    code + "|"@ + (match at {
        Some(w) => iso_text(w.date),
        None => "live"@,
    })
}

/// The time of a lookup exists.
pub open spec fn when_ok(at: Option<When>) -> bool {
    at matches Some(w) ==> w.date.wf() && w.time.wf()
}

/// The day that a board is for: that of the lookup, or the day by the clock for a
/// live one.
pub open spec fn board_day(at: Option<When>, day: Date) -> bool {
    &&& day.wf()
    &&& match at {
        Some(w) => day == w.date,
        None => exists|stamp: Stamp| #[trigger] reads(stamp) && day == stamp.date,
    }
}

/// One stop with its board.
pub open spec fn section(
    icons: bool,
    icon: char,
    label: Seq<char>,
    board: Board,
    limit: int,
    columns: int,
) -> Seq<char> {
    header(icons, icon, label, board.name@, columns) + "\n"@ + (match board.departures {
        Some(d) => shown_departures(d@, limit, columns),
        None => "  (departures unavailable)\n"@,
    }) + "\n"@
}

/// Stop after stop.
pub open spec fn sections(
    icons: bool,
    icon: char,
    label: Seq<char>,
    boards: Seq<Board>,
    limit: int,
    columns: int,
) -> Seq<char>
    decreases boards.len(),
{
    if boards.len() == 0 {
        Seq::empty()
    } else {
        sections(icons, icon, label, boards.drop_last(), limit, columns) + section(
            icons,
            icon,
            label,
            boards.last(),
            limit,
            columns,
        )
    }
}

/// The body of the transport section.
pub open spec fn report(
    trains: Seq<Board>,
    buses: Seq<Board>,
    limit: int,
    columns: int,
    icons: bool,
) -> Seq<char> {
    if trains.len() == 0 && buses.len() == 0 {
        "No stations or bus stops configured or found nearby.\n"@
    } else {
        trimmed_end(
            sections(icons, TRAIN_ICON, "train"@, trains, limit, columns) + sections(
                icons,
                BUS_ICON,
                "bus"@,
                buses,
                limit,
                columns,
            ),
        ) + "\n"@
    }
}

// --- Laws ---------------------------------------------------------------------

/// A heading fits the columns: under an icon from four columns on, and with a
/// label wherever the label and one character of the name do.
pub proof fn law_header_fits(icons: bool, icon: char, label: Seq<char>, name: Seq<char>, columns: int)
    requires
        columns >= (if icons {
            4
        } else {
            label.len() + 4
        }),
    ensures
        header(icons, icon, label, name, columns).len() <= columns,
{
    reveal_strlit("  ");
    reveal_strlit(" (");
    reveal_strlit(")");
    if icons {
        crate::text::lemma_truncated(name, columns - 4);
    } else {
        crate::text::lemma_truncated(name, columns - (label.len() + 3));
    }
}

/// The postcode of an address is what stands behind its last comma, without the
/// white space around it; a configured one comes first.
pub proof fn law_the_postcode_is_behind_the_last_comma(
    configured: Option<String>,
    before: Seq<char>,
    last: Seq<char>,
)
    requires
        !last.contains(','),
        trimmed(last).len() > 0,
    ensures
        chosen_postcode(None, before + ","@ + last) == Some(trimmed(last)),
        chosen_postcode(None, last) == Some(trimmed(last)),
        configured matches Some(p) ==> chosen_postcode(configured, before + ","@ + last) == Some(p@),
{
    reveal_strlit(",");
    let comma = ","@;
    assert(!contains_text(last, comma)) by {
        if contains_text(last, comma) {
            let i = choose|i: int| #[trigger] occurs_at(last, comma, i);
            assert(last.subrange(i, i + 1)[0] == last[i]);
            assert(last[i] == ',');
        }
    }
    law_pieces_of_both(before, comma, last);
    lemma_one_piece(last, comma);
    let all = pieces(before + comma + last, comma);
    assert(all.last() == last);
}

/// A postcode is asked for without its white space, and with everything else: two
/// parts of it come to what each comes to.
pub proof fn law_unspaced(a: Seq<char>, b: Seq<char>)
    ensures
        unspaced(a + b) == unspaced(a) + unspaced(b),
        forall|i: int| 0 <= i < unspaced(a).len() ==> !white(#[trigger] unspaced(a)[i]),
        forall|c: char| white(c) ==> #[trigger] unspaced(seq![c]) == Seq::<char>::empty(),
        forall|c: char| !white(c) ==> #[trigger] unspaced(seq![c]) == seq![c],
{
    let p = |c: char| !white(c);
    Seq::filter_distributes_over_add(a, b, p);
    assert forall|i: int| 0 <= i < unspaced(a).len() implies !white(#[trigger] unspaced(a)[i]) by {
        a.lemma_filter_pred(p, i);
    }
    assert forall|c: char| true implies #[trigger] unspaced(seq![c]) == (if white(c) {
        Seq::<char>::empty()
    } else {
        seq![c]
    }) by {
        let none = Seq::<char>::empty();
        assert(seq![c] =~= none.push(c));
        none.lemma_filter_push(c, p);
        reveal(Seq::filter);
        assert(none.filter(p) =~= none);
        assert(none.push(c) =~= seq![c]);
    }
}

/// Pinned stops are taken as they are, one for each code, in order. Without any,
/// each of the nearest places that has a code is taken, under that code and its
/// name, and nothing else.
pub proof fn law_stops_chosen(
    codes: Seq<String>,
    places: Seq<Place>,
    kind: Seq<char>,
    which: Code,
    count: int,
)
    ensures
        ({
            let stops = chosen(codes, places, kind, which, count);
            let near = first(by_distance(places, kind), count);
            &&& codes.len() > 0 ==> stops.len() == codes.len() && forall|i: int|
                0 <= i < codes.len() ==> #[trigger] stops[i] == (codes[i]@, None::<Seq<char>>)
            &&& codes.len() == 0 ==> forall|i: int, code: String|
                0 <= i < near.len() && (match which {
                    Code::Station => near[i].station_code,
                    Code::Stop => near[i].atcocode,
                }) == Some(code) ==> #[trigger] stops.contains(
                    (code@, Some((#[trigger] near[i]).shown())),
                )
            &&& codes.len() == 0 ==> stops.len() <= near.len()
            &&& codes.len() == 0 && (forall|i: int|
                0 <= i < near.len() ==> (#[trigger] near[i]).code(which) is Some) ==> stops.len()
                == near.len() && forall|i: int|
                0 <= i < near.len() ==> (#[trigger] stops[i]).1 == Some(near[i].shown())
        }),
{
    let stops = chosen(codes, places, kind, which, count);
    let near = first(by_distance(places, kind), count);
    let f = |p: Place|
        match p.code(which) {
            Some(c) => Some((c, Some(p.shown()))),
            None => None,
        };
    if codes.len() == 0 {
        assert(stops == near.filter_map(f));
        assert forall|i: int, code: String|
            0 <= i < near.len() && (match which {
                Code::Station => near[i].station_code,
                Code::Stop => near[i].atcocode,
            }) == Some(code) implies #[trigger] stops.contains(
            (code@, Some((#[trigger] near[i]).shown())),
        ) by {
            lemma_filter_map_holds(near, f, i);
        }
        lemma_filter_map_len(near, f);
        if forall|i: int| 0 <= i < near.len() ==> (#[trigger] near[i]).code(which) is Some {
            assert forall|i: int| 0 <= i < near.len() implies f(#[trigger] near[i]) is Some by {}
            lemma_filter_map_all(near, f);
            assert forall|i: int| 0 <= i < near.len() implies (#[trigger] stops[i]).1 == Some(
                near[i].shown(),
            ) by {
                assert(f(near[i]) == Some(near.filter_map(f)[i]));
            }
        }
    }
}

proof fn lemma_address_parts()
    ensures
        TRAIN_URL@ + "/"@ == "https://transportapi.com/v3/uk"@ + "/train/station/"@,
        BUS_URL@ + "/"@ == "https://transportapi.com/v3/uk"@ + "/bus/stop/"@,
        "?app_id="@ == "?"@ + "app_id="@,
        "&app_id="@ == "&"@ + "app_id="@,
        "/live.json?"@ == "/live.json"@ + "?"@,
        "/live.json?app_id="@ == "/live.json?"@ + "app_id="@,
        "/timetable.json?"@ == "/timetable.json"@ + "?"@,
{
    reveal_strlit("https://transportapi.com/v3/uk/train/station");
    reveal_strlit("https://transportapi.com/v3/uk/bus/stop");
    reveal_strlit("https://transportapi.com/v3/uk");
    reveal_strlit("/train/station/");
    reveal_strlit("/bus/stop/");
    reveal_strlit("/");
    reveal_strlit("?");
    reveal_strlit("&");
    reveal_strlit("app_id=");
    reveal_strlit("?app_id=");
    reveal_strlit("&app_id=");
    reveal_strlit("/live.json");
    reveal_strlit("/live.json?");
    reveal_strlit("/live.json?app_id=");
    reveal_strlit("/timetable.json");
    reveal_strlit("/timetable.json?");
    assert(TRAIN_URL@ + "/"@ =~= "https://transportapi.com/v3/uk"@ + "/train/station/"@);
    assert(BUS_URL@ + "/"@ =~= "https://transportapi.com/v3/uk"@ + "/bus/stop/"@);
    assert("?app_id="@ =~= "?"@ + "app_id="@);
    assert("&app_id="@ =~= "&"@ + "app_id="@);
    assert("/live.json?"@ =~= "/live.json"@ + "?"@);
    assert("/live.json?app_id="@ =~= "/live.json?"@ + "app_id="@);
    assert("/timetable.json?"@ =~= "/timetable.json"@ + "?"@);
}

/// The board of a station is asked for at the station itself, with the credentials.
/// The one of a given day and time asks for that day and time, and the live one for
/// neither.
pub proof fn law_trains_are_asked_for_at_the_station(
    cfg: TransportSettings,
    code: Seq<char>,
    at: Option<When>,
)
    ensures
        contains_text(cfg.train_url(code, at), "app_id="@ + cfg.app_id@ + "&app_key="@ + cfg.app_key@),
        at matches Some(w) ==> contains_text(
            cfg.train_url(code, at),
            "/train/station/"@ + code + "/"@ + iso_text(w.date) + "/"@ + w.time.text()
                + "/timetable.json?"@,
        ),
        at is None ==> contains_text(
            cfg.train_url(code, at),
            "/train/station/"@ + code + "/live.json?"@,
        ),
{
    lemma_address_parts();
    let base = "https://transportapi.com/v3/uk"@;
    let stop = "/train/station/"@ + code;
    let creds = "app_id="@ + cfg.app_id@ + "&app_key="@ + cfg.app_key@;
    let tail = "&train_status=passenger"@;
    let t = cfg.train_url(code, at);
    match at {
        Some(w) => {
            let day = "/"@ + iso_text(w.date) + "/"@ + w.time.text() + "/timetable.json"@;
            assert(t == TRAIN_URL@ + "/"@ + code + day + "?app_id="@ + cfg.app_id@ + "&app_key="@
                + cfg.app_key@ + tail);
            assert(t =~= base + (stop + day + "?"@) + (creds + tail));
            lemma_occurs_between(base, stop + day + "?"@, creds + tail);
            assert(stop + day + "?"@ =~= "/train/station/"@ + code + "/"@ + iso_text(w.date) + "/"@
                + w.time.text() + "/timetable.json?"@);
            assert(t =~= (base + (stop + day + "?"@)) + creds + tail);
            lemma_occurs_between(base + (stop + day + "?"@), creds, tail);
        },
        None => {
            let live = "/live.json?"@;
            assert(t == TRAIN_URL@ + "/"@ + code + "/live.json"@ + "?app_id="@ + cfg.app_id@
                + "&app_key="@ + cfg.app_key@ + tail);
            assert(t =~= base + (stop + live) + (creds + tail));
            lemma_occurs_between(base, stop + live, creds + tail);
            assert(t =~= (base + (stop + live)) + creds + tail);
            lemma_occurs_between(base + (stop + live), creds, tail);
        },
    }
}

/// The board of a bus stop is asked for at the stop itself, with the credentials.
/// The one of a given day asks for that day, and the live one for none.
pub proof fn law_buses_are_asked_for_at_the_stop(
    cfg: TransportSettings,
    code: Seq<char>,
    at: Option<When>,
)
    ensures
        contains_text(cfg.bus_url(code, at), "app_id="@ + cfg.app_id@ + "&app_key="@ + cfg.app_key@),
        at matches Some(w) ==> contains_text(
            cfg.bus_url(code, at),
            "/bus/stop/"@ + code + "/timetable.json?date="@ + iso_text(w.date) + "&"@,
        ),
        at is None ==> contains_text(
            cfg.bus_url(code, at),
            "/bus/stop/"@ + code + "/live.json?"@,
        ),
{
    lemma_address_parts();
    let base = "https://transportapi.com/v3/uk"@;
    let stop = "/bus/stop/"@ + code;
    let creds = "app_id="@ + cfg.app_id@ + "&app_key="@ + cfg.app_key@;
    let tail = "&group=route&nextbuses=no"@;
    let t = cfg.bus_url(code, at);
    match at {
        Some(w) => {
            let day = "/timetable.json?date="@ + iso_text(w.date);
            assert(t == BUS_URL@ + "/"@ + code + (day + "&app_id="@) + cfg.app_id@ + "&app_key="@
                + cfg.app_key@ + tail);
            assert(t =~= base + (stop + day + "&"@) + (creds + tail));
            lemma_occurs_between(base, stop + day + "&"@, creds + tail);
            assert(stop + day + "&"@ =~= "/bus/stop/"@ + code + "/timetable.json?date="@ + iso_text(
                w.date,
            ) + "&"@);
            assert(t =~= (base + (stop + day + "&"@)) + creds + tail);
            lemma_occurs_between(base + (stop + day + "&"@), creds, tail);
        },
        None => {
            let live = "/live.json?"@;
            assert(t == BUS_URL@ + "/"@ + code + "/live.json?app_id="@ + cfg.app_id@ + "&app_key="@
                + cfg.app_key@ + tail);
            assert(t =~= base + (stop + live) + (creds + tail));
            lemma_occurs_between(base, stop + live, creds + tail);
            assert(t =~= (base + (stop + live)) + creds + tail);
            lemma_occurs_between(base + (stop + live), creds, tail);
        },
    }
}

/// Every stop has its section, under its heading and with its departures.
pub proof fn law_every_board_is_shown(
    icons: bool,
    icon: char,
    label: Seq<char>,
    boards: Seq<Board>,
    limit: int,
    columns: int,
    i: int,
)
    requires
        0 <= i < boards.len(),
    ensures
        contains_text(
            sections(icons, icon, label, boards, limit, columns),
            header(icons, icon, label, boards[i].name@, columns) + "\n"@ + (
            match boards[i].departures {
                Some(d) => shown_departures(d@, limit, columns),
                None => "  (departures unavailable)\n"@,
            }) + "\n"@,
        ),
    decreases boards.len(),
{
    let init = boards.drop_last();
    let before = sections(icons, icon, label, init, limit, columns);
    let last = section(icons, icon, label, boards.last(), limit, columns);
    if i < init.len() {
        assert(init[i] == boards[i]);
        law_every_board_is_shown(icons, icon, label, init, limit, columns, i);
        lemma_contains_more(
            before,
            last,
            section(icons, icon, label, boards[i], limit, columns),
        );
    } else {
        lemma_occurs_between(before, last, Seq::empty());
        assert(before + last + Seq::empty() =~= before + last);
    }
}

/// The name of a stop is shown in full where the columns leave room for it, behind
/// its icon or before its label.
pub proof fn law_headings_show_names(
    icon: char,
    label: Seq<char>,
    name: Seq<char>,
    columns: int,
)
    ensures
        columns >= name.len() + 4 ==> header(true, icon, label, name, columns) == seq![icon] + "  "@
            + name,
        columns >= name.len() + label.len() + 3 ==> header(false, icon, label, name, columns) == name
            + (" ("@ + label + ")"@),
{
    reveal_strlit(" (");
    reveal_strlit(")");
}

/// What is kept for a stop is told apart by its day: the keys of two boards of one
/// stop are the same only when both are live, or both are of the same day and, for
/// trains, the same time.
pub proof fn law_boards_are_kept_apart(code: Seq<char>, a: Option<When>, b: Option<When>)
    requires
        when_ok(a),
        when_ok(b),
    ensures
        bus_key(code, a) == bus_key(code, b) ==> (a is None <==> b is None) && (a is Some
            ==> a->0.date == b->0.date),
        train_key(code, a) == train_key(code, b) ==> (a is None <==> b is None) && (a is Some
            ==> a->0.date == b->0.date),
{
    reveal_strlit("|");
    reveal_strlit("T");
    reveal_strlit("live");
    let head = code + "|"@;
    let n = head.len() as int;
    if let Some(w) = a {
        assert(bus_key(code, a).skip(n) =~= iso_text(w.date));
        assert(train_key(code, a).skip(n) =~= iso_text(w.date) + "T"@ + w.time.text());
        lemma_iso_len(w.date);
        lemma_time_len(w.time);
    } else {
        assert(bus_key(code, a).skip(n) =~= "live"@);
        assert(train_key(code, a).skip(n) =~= "live"@);
    }
    if let Some(w) = b {
        assert(bus_key(code, b).skip(n) =~= iso_text(w.date));
        assert(train_key(code, b).skip(n) =~= iso_text(w.date) + "T"@ + w.time.text());
        lemma_iso_len(w.date);
        lemma_time_len(w.time);
    } else {
        assert(bus_key(code, b).skip(n) =~= "live"@);
        assert(train_key(code, b).skip(n) =~= "live"@);
    }
    if a is Some && b is Some {
        let (v, w) = (a->0, b->0);
        law_date_texts_tell_dates_apart(v.date, w.date);
        if train_key(code, a) == train_key(code, b) {
            let x = train_key(code, a).skip(n);
            let y = train_key(code, b).skip(n);
            assert(x.len() == iso_text(v.date).len() + 6 && y.len() == iso_text(w.date).len() + 6);
            assert(x.take(x.len() - 6) =~= iso_text(v.date));
            assert(y.take(y.len() - 6) =~= iso_text(w.date));
        }
    }
}

proof fn lemma_iso_len(d: Date)
    ensures
        iso_text(d).len() >= 6,
{
    reveal_strlit("-");
}

proof fn lemma_time_len(t: Time)
    ensures
        t.text().len() == 5,
{
    reveal_strlit(":");
}

/// Every stop is in the report, the stations and then the bus stops: whatever its
/// heading and its departures show, but for white space at the end.
pub proof fn law_every_stop_is_in_the_report(
    trains: Seq<Board>,
    buses: Seq<Board>,
    limit: int,
    columns: int,
    icons: bool,
    i: int,
    part: Seq<char>,
)
    requires
        part.len() > 0,
        !white(part.last()),
    ensures
        0 <= i < trains.len() && contains_text(
            section(icons, TRAIN_ICON, "train"@, trains[i], limit, columns),
            part,
        ) ==> contains_text(report(trains, buses, limit, columns, icons), part),
        0 <= i < buses.len() && contains_text(
            section(icons, BUS_ICON, "bus"@, buses[i], limit, columns),
            part,
        ) ==> contains_text(report(trains, buses, limit, columns, icons), part),
{
    let a = sections(icons, TRAIN_ICON, "train"@, trains, limit, columns);
    let b = sections(icons, BUS_ICON, "bus"@, buses, limit, columns);
    if 0 <= i < trains.len() && contains_text(
        section(icons, TRAIN_ICON, "train"@, trains[i], limit, columns),
        part,
    ) {
        law_every_board_is_shown(icons, TRAIN_ICON, "train"@, trains, limit, columns, i);
        lemma_contains_through(
            a,
            section(icons, TRAIN_ICON, "train"@, trains[i], limit, columns),
            part,
        );
        lemma_contains_more(a, b, part);
        lemma_kept_part(a + b, part);
        lemma_contains_more(trimmed_end(a + b), "\n"@, part);
    }
    if 0 <= i < buses.len() && contains_text(
        section(icons, BUS_ICON, "bus"@, buses[i], limit, columns),
        part,
    ) {
        law_every_board_is_shown(icons, BUS_ICON, "bus"@, buses, limit, columns, i);
        lemma_contains_through(
            b,
            section(icons, BUS_ICON, "bus"@, buses[i], limit, columns),
            part,
        );
        lemma_contains_more(b, a, part);
        lemma_kept_part(a + b, part);
        lemma_contains_more(trimmed_end(a + b), "\n"@, part);
    }
}

/// Places are asked for around the point, of the kind and as many as are wanted, and
/// are kept apart by all of these.
pub proof fn law_places_are_asked_for_around_the_point(
    cfg: TransportSettings,
    point: Point,
    place_type: Seq<char>,
    limit: nat,
)
    ensures
        contains_text(
            cfg.places_url(point, place_type, limit),
            "?lat="@ + point.lat@ + "&lon="@ + point.lon@ + "&type="@ + place_type + "&limit="@
                + decimal(limit) + "&app_id="@ + cfg.app_id@ + "&app_key="@ + cfg.app_key@,
        ),
        begins_with(places_key(point, place_type, limit), place_type + "|"@ + point.lat4@),
        ends_with(places_key(point, place_type, limit), "|"@ + point.lon4@ + "|"@ + decimal(limit)),
        begins_with(
            places_key(point, place_type, limit),
            place_type + "|"@ + point.lat4@ + "|"@ + point.lon4@,
        ),
{
    let u = cfg.places_url(point, place_type, limit);
    let q = "?lat="@ + point.lat@ + "&lon="@ + point.lon@ + "&type="@ + place_type + "&limit="@
        + decimal(limit) + "&app_id="@ + cfg.app_id@ + "&app_key="@ + cfg.app_key@;
    let none = Seq::<char>::empty();
    assert(u =~= PLACES_URL@ + q + none);
    lemma_occurs_between(PLACES_URL@, q, none);
    let k = places_key(point, place_type, limit);
    let a = place_type + "|"@ + point.lat4@;
    let b = "|"@ + point.lon4@ + "|"@ + decimal(limit);
    assert(k =~= a + b);
    assert(k.subrange(0, a.len() as int) =~= a);
    assert(k.subrange(k.len() - b.len(), k.len() as int) =~= b);
    let c = place_type + "|"@ + point.lat4@ + "|"@ + point.lon4@;
    assert(k.subrange(0, c.len() as int) =~= c);
}

/// A search around the location is made exactly when stations or bus stops are
/// wanted of which none is pinned.
pub proof fn law_when_a_search_is_made(cfg: TransportSettings)
    ensures
        cfg.station_codes@.len() > 0 && cfg.bus_stop_codes@.len() > 0 ==> !cfg.searches(),
        cfg.stations == 0 && cfg.bus_stops == 0 ==> !cfg.searches(),
        cfg.station_codes@.len() == 0 && cfg.stations > 0 ==> cfg.searches(),
        cfg.bus_stop_codes@.len() == 0 && cfg.bus_stops > 0 ==> cfg.searches(),
        cfg.station_codes@.len() > 0 && cfg.bus_stops == 0 ==> !cfg.searches(),
        cfg.stations == 0 && cfg.bus_stop_codes@.len() > 0 ==> !cfg.searches(),
{
}

// --- Functions ----------------------------------------------------------------

/// How many stations, bus stops and departures are shown where nothing is said.
pub fn default_count() -> (r: usize)
    ensures
        r == 3,
{
    3
}

/// The heading of a stop: an icon before its name in image output, a label after
/// it in text output. The name is shortened to fit the columns.
pub fn stop_header(icons: bool, icon: char, label: &str, name: &str, columns: usize) -> (r: String)
    ensures
        r@ == header(icons, icon, label@, name@, columns as int),
{
    let n: Vec<char> = chars_of(name);
    if icons {
        let mut out: Vec<char> = Vec::new();
        out.push(icon);
        push_str(&mut out, "  ");
        let budget: usize = if columns >= 4 {
            columns - 4
        } else {
            0
        };
        push_all(&mut out, shorten(n.as_slice(), budget).as_slice());
        assert(out@ =~= header(icons, icon, label@, name@, columns as int));
        string_of(out.as_slice())
    } else {
        let mut suffix: Vec<char> = chars_of(" (");
        push_str(&mut suffix, label);
        push_str(&mut suffix, ")");
        let budget: usize = if columns >= suffix.len() {
            columns - suffix.len()
        } else {
            0
        };
        let mut out: Vec<char> = shorten(n.as_slice(), budget);
        push_all(&mut out, suffix.as_slice());
        string_of(out.as_slice())
    }
}

/// The last part of an address, after its last comma, taken as the postcode.
pub fn postcode_from_address(address: &str) -> (r: Option<String>)
    ensures
        text_of(r) == address_postcode(address@),
{
    let v: Vec<char> = chars_of(address);
    let comma: Vec<char> = chars_of(",");
    proof {
        reveal_strlit(",");
    }
    let parts: Vec<Vec<char>> = split(v.as_slice(), comma.as_slice());
    let ghost all = rows(parts@);
    assert(all.last() == parts@[parts@.len() - 1]@);
    let last: &[char] = trim(parts[parts.len() - 1].as_slice());
    if last.len() == 0 {
        None
    } else {
        Some(string_of(last))
    }
}

/// The postcode of the settings, or else that of the address.
pub fn postcode_for(configured: &Option<String>, address: &str) -> (r: Option<String>)
    ensures
        text_of(r) == chosen_postcode(*configured, address@),
{
    match configured {
        Some(p) => Some(p.clone()),
        None => postcode_from_address(address),
    }
}

} // verus!
