//! Where to look for stops, and which of them to report.

use vstd::prelude::*;

use crate::cache::{
    cached, called_through, kept, law_given_is_asked_for_or_kept,
    law_stable_answers_are_asked_for_once, Cache, Reason,
};
use crate::order::lemma_sorted;
use crate::text::{
    chars_of, contains_text, is_white, law_blank_texts, lemma_one_piece, occurs_at, push_decimal,
    push_str, string_of, text_of, white,
};
use crate::transport::names::{name_after, name_of, only_names, remember_names};
use crate::transport::places::{
    by_distance, copy_text, first, law_both_kinds_are_listed, law_nearest, nearest, stop_listing, stops_text, Code, Place,
};
use crate::transport::service::cached_get;
use crate::transport::{
    chosen, chosen_postcode, gives, law_stops_chosen, pinned, places_key, plain_replies, postcode_for, replies,
    stop_texts, takes_any, takes_any_near, unspaced, LocateError, Point, Stop, TransportSettings,
    PLACES_URL, POSTCODES_URL,
};

verus! {

/// A postcode without white space.
fn without_spaces(postcode: &str) -> (r: String)
    ensures
        r@ == unspaced(postcode@),
{
    let v: Vec<char> = chars_of(postcode);
    let mut out: Vec<char> = Vec::new();
    let ghost p = |c: char| !white(c);
    let mut i: usize = 0;
    assert(v@.take(0) =~= Seq::<char>::empty());
    assert(v@.take(0).filter(p) =~= Seq::<char>::empty());
    while i < v.len()
        invariant
            i <= v@.len(),
            p == (|c: char| !white(c)),
            out@ == v@.take(i as int).filter(p),
        decreases v@.len() - i,
    {
        proof {
            assert(v@.take(i + 1) =~= v@.take(i as int).push(v@[i as int]));
            v@.take(i as int).lemma_filter_push(v@[i as int], p);
        }
        if !is_white(v[i]) {
            out.push(v[i]);
        }
        i = i + 1;
    }
    assert(v@.take(i as int) =~= v@);
    string_of(out.as_slice())
}

/// A postcode was looked up: what came back was `given`, and `r` is what it
/// comes to.
pub open spec fn located<E, R: Fn(&str) -> Result<Option<Point>, E>>(
    postcode: Seq<char>,
    given: Result<String, E>,
    read: R,
    r: Result<Point, LocateError<E>>,
) -> bool {
    match given {
        Err(e) => r == Err::<Point, LocateError<E>>(LocateError::Outside(e)),
        Ok(body) => exists|reply: Result<Option<Point>, E>| #[trigger]
            gives(read, body@, reply) && match reply {
                Err(e) => r == Err::<Point, LocateError<E>>(LocateError::Outside(e)),
                Ok(None) => r matches Err(LocateError::UnknownPostcode(p)) && p@ == postcode,
                Ok(Some(point)) => r == Ok::<Point, LocateError<E>>(point),
            },
    }
}

/// A postcode was looked up through the cache, and `r` is what came of it.
pub open spec fn looked_up<
    E: Reason,
    G: Fn(&str) -> Result<String, E>,
    R: Fn(&str) -> Result<Option<Point>, E>,
>(
    before: Option<Cache>,
    cache: Option<Cache>,
    postcode: Seq<char>,
    get: G,
    read: R,
    r: Result<Point, LocateError<E>>,
) -> bool {
    exists|given: Result<String, E>|
        called_through(
            before,
            cache,
            "geocode"@,
            unspaced(postcode),
            None,
            true,
            plain_replies(get, POSTCODES_URL@ + "/"@ + unspaced(postcode)),
            given,
        ) && #[trigger] located(postcode, given, read, r)
}

/// Looks a postcode up. The location of a postcode never changes, so what was
/// found once is kept for good.
pub fn geocode_postcode<
    E: Reason,
    G: Fn(&str) -> Result<String, E>,
    R: Fn(&str) -> Result<Option<Point>, E>,
>(postcode: &str, cache: &mut Option<Cache>, get: &G, read: &R) -> (r: Result<
    Point,
    LocateError<E>,
>)
    requires
        takes_any(*get),
        takes_any(*read),
    ensures
        looked_up(*old(cache), *final(cache), postcode@, *get, *read, r),
{
    let cleaned: String = without_spaces(postcode);
    let mut text: Vec<char> = chars_of(POSTCODES_URL);
    push_str(&mut text, "/");
    push_str(&mut text, cleaned.as_str());
    let address: String = string_of(text.as_slice());
    let url: &str = address.as_str();
    let fetch = || -> (outcome: Result<String, E>)
        requires
            takes_any(*get),
        ensures
            gives(*get, url@, outcome),
    { get(url) };
    let given: Result<String, E> = cached(
        cache,
        "geocode",
        cleaned.as_str(),
        None,
        true,
        fetch,
    );
    let ghost came = given;
    let r: Result<Point, LocateError<E>> = match given {
        Err(e) => Err(LocateError::Outside(e)),
        Ok(body) => {
            let reply: Result<Option<Point>, E> = read(body.as_str());
            assert(gives(*read, body@, reply));
            match reply {
                Err(e) => Err(LocateError::Outside(e)),
                Ok(None) => Err(LocateError::UnknownPostcode(postcode.to_string())),
                Ok(Some(point)) => Ok(point),
            }
        },
    };
    assert(located(postcode@, came, *read, r));
    r
}

impl<E> LocateError<E> {
    /// The message for the errors that arise here; nothing for those from
    /// outside, which have their own.
    pub open spec fn text(self) -> Option<Seq<char>> {
        match self {
            LocateError::NoPostcode => Some(
                "no `postcode` set in [transport] and none found in the address"@,
            ),
            LocateError::UnknownPostcode(p) => Some("postcode `"@ + p@ + "` not found"@),
            LocateError::Outside(e) => None,
        }
    }

    /// The message for the person who runs the program, for errors that arise
    /// here.
    pub fn message(&self) -> (r: Option<String>)
        ensures
            text_of(r) == self.text(),
    {
        match self {
            LocateError::NoPostcode => Some(
                "no `postcode` set in [transport] and none found in the address".to_string(),
            ),
            LocateError::UnknownPostcode(p) => {
                let mut out: Vec<char> = chars_of("postcode `");
                push_str(&mut out, p.as_str());
                push_str(&mut out, "` not found");
                Some(string_of(out.as_slice()))
            },
            LocateError::Outside(_) => None,
        }
    }
}

impl Point {
    /// A copy of the location.
    pub fn copy(&self) -> (r: Point)
        ensures
            r == *self,
    {
        Point {
            lat: self.lat.clone(),
            lon: self.lon.clone(),
            lat4: self.lat4.clone(),
            lon4: self.lon4.clone(),
        }
    }
}

/// The location was settled: that of the settings, or that of a postcode.
pub open spec fn location_found<
    E: Reason,
    G: Fn(&str) -> Result<String, E>,
    R: Fn(&str) -> Result<Option<Point>, E>,
>(
    before: Option<Cache>,
    cache: Option<Cache>,
    cfg: TransportSettings,
    address: Seq<char>,
    get: G,
    read: R,
    r: Result<Point, LocateError<E>>,
) -> bool {
    match cfg.point {
        Some(p) => r == Ok::<Point, LocateError<E>>(p) && cache == before,
        None => match chosen_postcode(cfg.postcode, address) {
            None => r == Err::<Point, LocateError<E>>(LocateError::NoPostcode) && cache == before,
            Some(postcode) => looked_up(before, cache, postcode, get, read, r),
        },
    }
}

/// The location to search around: that of the settings, or that of a postcode.
pub fn resolve_location<
    E: Reason,
    G: Fn(&str) -> Result<String, E>,
    R: Fn(&str) -> Result<Option<Point>, E>,
>(
    cfg: &TransportSettings,
    address: &str,
    cache: &mut Option<Cache>,
    get: &G,
    read: &R,
) -> (r: Result<Point, LocateError<E>>)
    requires
        takes_any(*get),
        takes_any(*read),
    ensures
        location_found(*old(cache), *final(cache), *cfg, address@, *get, *read, r),
{
    match &cfg.point {
        Some(p) => {
            let c: Point = p.copy();
            assert(cfg.point == Some(c));
            Ok(c)
        },
        None => match postcode_for(&cfg.postcode, address) {
            None => Err(LocateError::NoPostcode),
            Some(postcode) => geocode_postcode(postcode.as_str(), cache, get, read),
        },
    }
}

/// The function can give `result` for a text and a location.
pub open spec fn gives_near<T, F: Fn(&str, &Point) -> T>(
    f: F,
    text: Seq<char>,
    point: Point,
    result: T,
) -> bool {
    exists|t: &str| t@ == text && #[trigger] f.ensures((t, &point), result)
}

/// The places of one kind near a location were asked for, and `r` is what came of
/// it.
pub open spec fn places_found<
    E: Reason,
    G: Fn(&str) -> Result<String, E>,
    R: Fn(&str, &Point) -> Result<Vec<Place>, E>,
>(
    before: Option<Cache>,
    cache: Option<Cache>,
    cfg: TransportSettings,
    point: Point,
    place_type: Seq<char>,
    limit: nat,
    get: G,
    read: R,
    r: Result<Vec<Place>, E>,
) -> bool {
    exists|middle: Option<Cache>, given: Result<String, E>|
        called_through(
            before,
            middle,
            "places"@,
            places_key(point, place_type, limit),
            None,
            true,
            replies(get, cfg.places_url(point, place_type, limit), cfg.app_key@),
            given,
        ) && #[trigger] places_read(read, point, middle, cache, given, r)
}

/// Asks for the places of one kind near a location, and remembers their names.
/// Places do not move, so what was found once is kept for good. One kind is
/// asked for at a time: in a search for both, bus stops would crowd out the
/// stations.
pub fn fetch_places_of_type<
    E: Reason,
    G: Fn(&str) -> Result<String, E>,
    R: Fn(&str, &Point) -> Result<Vec<Place>, E>,
>(
    cfg: &TransportSettings,
    point: &Point,
    place_type: &str,
    limit: usize,
    cache: &mut Option<Cache>,
    get: &G,
    read: &R,
) -> (r: Result<Vec<Place>, E>)
    requires
        takes_any(*get),
        takes_any_near(*read),
    ensures
        places_found(
            *old(cache),
            *final(cache),
            *cfg,
            *point,
            place_type@,
            limit as nat,
            *get,
            *read,
            r,
        ),
{
    let mut url: Vec<char> = chars_of(PLACES_URL);
    push_str(&mut url, "?lat=");
    push_str(&mut url, point.lat.as_str());
    push_str(&mut url, "&lon=");
    push_str(&mut url, point.lon.as_str());
    push_str(&mut url, "&type=");
    push_str(&mut url, place_type);
    push_str(&mut url, "&limit=");
    push_decimal(&mut url, limit as u64);
    push_str(&mut url, "&app_id=");
    push_str(&mut url, cfg.app_id.as_str());
    push_str(&mut url, "&app_key=");
    push_str(&mut url, cfg.app_key.as_str());
    let mut key: Vec<char> = chars_of(place_type);
    push_str(&mut key, "|");
    push_str(&mut key, point.lat4.as_str());
    push_str(&mut key, "|");
    push_str(&mut key, point.lon4.as_str());
    push_str(&mut key, "|");
    push_decimal(&mut key, limit as u64);
    let url_text: String = string_of(url.as_slice());
    let key_text: String = string_of(key.as_slice());
    let given: Result<String, E> = cached_get(
        cache,
        "places",
        key_text.as_str(),
        None,
        true,
        url_text.as_str(),
        cfg.app_key.as_str(),
        get,
    );
    let ghost middle = *cache;
    let ghost came = given;
    let r: Result<Vec<Place>, E> = match given {
        Err(e) => Err(e),
        Ok(body) => {
            let reply: Result<Vec<Place>, E> = read(body.as_str(), point);
            assert(gives_near(*read, body@, *point, reply));
            match reply {
                Err(e) => Err(e),
                Ok(places) => {
                    remember_names(cache, places.as_slice());
                    Ok(places)
                },
            }
        },
    };
    assert(places_read(*read, *point, middle, *cache, came, r));
    r
}

/// What was had of places is read, and their names are remembered.
pub open spec fn places_read<E, R: Fn(&str, &Point) -> Result<Vec<Place>, E>>(
    read: R,
    point: Point,
    before: Option<Cache>,
    cache: Option<Cache>,
    given: Result<String, E>,
    r: Result<Vec<Place>, E>,
) -> bool {
    match given {
        Err(e) => r == Err::<Vec<Place>, E>(e) && cache == before,
        Ok(body) => exists|reply: Result<Vec<Place>, E>| #[trigger]
            gives_near(read, body@, point, reply) && r == reply && match reply {
                Err(e) => cache == before,
                Ok(places) => {
                    &&& only_names(cache, before)
                    &&& before is Some ==> forall|code: Seq<char>| #[trigger]
                        name_of(cache, code) == name_after(
                            places@,
                            code,
                            name_of(before, code),
                        )
                },
            },
    }
}

/// The stops that are pinned by their codes.
fn pinned_stops(codes: &Vec<String>) -> (r: Vec<Stop>)
    ensures
        stop_texts(r@) == pinned(codes@),
{
    let mut out: Vec<Stop> = Vec::new();
    let mut i: usize = 0;
    while i < codes.len()
        invariant
            i <= codes@.len(),
            out@.len() == i,
            forall|j: int|
                0 <= j < i ==> (#[trigger] out@[j]).id@ == codes@[j]@ && out@[j].name is None,
        decreases codes@.len() - i,
    {
        out.push(Stop { id: codes[i].clone(), name: None });
        i = i + 1;
    }
    assert(stop_texts(out@) =~= pinned(codes@));
    out
}

/// The stops to report: the pinned ones, or else the nearest of those that a
/// search came up with.
pub fn stops_from(
    codes: &Vec<String>,
    places: &[Place],
    kind: &str,
    which: Code,
    count: usize,
) -> (r: Vec<Stop>)
    ensures
        stop_texts(r@) == chosen(codes@, places@, kind@, which, count as int),
{
    if codes.len() > 0 {
        return pinned_stops(codes);
    }
    let near: Vec<Place> = nearest(places, kind, count);
    let ghost f = |p: Place|
        match p.code(which) {
            Some(c) => Some((c, Some(p.shown()))),
            None => None,
        };
    let mut out: Vec<Stop> = Vec::new();
    let mut i: usize = 0;
    assert(near@.take(0) =~= Seq::<Place>::empty());
    assert(stop_texts(out@) =~= near@.take(0).filter_map(f));
    while i < near.len()
        invariant
            i <= near@.len(),
            f == (|p: Place|
                match p.code(which) {
                    Some(c) => Some((c, Some(p.shown()))),
                    None => None,
                }),
            stop_texts(out@) == near@.take(i as int).filter_map(f),
        decreases near@.len() - i,
    {
        let ghost sofar = stop_texts(out@);
        proof {
            near@.lemma_filter_map_take_succ(f, i as int);
        }
        let code: Option<String> = match which {
            Code::Station => copy_text(&near[i].station_code),
            Code::Stop => copy_text(&near[i].atcocode),
        };
        match code {
            Some(id) => {
                let ghost pair = (id@, Some(near@[i as int].shown()));
                out.push(Stop { id, name: Some(near[i].display_name()) });
                assert(stop_texts(out@) =~= sofar + seq![pair]);
            },
            None => {
                assert(sofar + Seq::<(Seq<char>, Option<Seq<char>>)>::empty() =~= sofar);
            },
        }
        i = i + 1;
    }
    assert(near@.take(i as int) =~= near@);
    out
}

/// The places of one kind for the stops to report: those that a search comes up
/// with, or none where the stops are pinned.
pub open spec fn candidates<
    E: Reason,
    G: Fn(&str) -> Result<String, E>,
    P: Fn(&str, &Point) -> Result<Vec<Place>, E>,
>(
    before: Option<Cache>,
    cache: Option<Cache>,
    cfg: TransportSettings,
    point: Point,
    place_type: Seq<char>,
    codes: Seq<String>,
    count: nat,
    get: G,
    read: P,
    r: Result<Seq<Place>, E>,
) -> bool {
    if codes.len() > 0 {
        r == Ok::<Seq<Place>, E>(Seq::empty()) && cache == before
    } else {
        exists|places: Result<Vec<Place>, E>| #[trigger]
            places_found(before, cache, cfg, point, place_type, count + 3, get, read, places) && (
            match places {
                Ok(v) => r == Ok::<Seq<Place>, E>(v@),
                Err(e) => r == Err::<Seq<Place>, E>(e),
            })
    }
}

/// The stops are those chosen from what the searches came up with.
pub open spec fn stops_chosen<E>(
    cfg: TransportSettings,
    near: Seq<Place>,
    around: Seq<Place>,
    r: Result<(Vec<Stop>, Vec<Stop>), LocateError<E>>,
) -> bool {
    &&& r matches Ok((stations, stops))
    &&& stop_texts(stations@) == chosen(
        cfg.station_codes@,
        near,
        "train_station"@,
        Code::Station,
        cfg.stations as int,
    )
    &&& stop_texts(stops@) == chosen(
        cfg.bus_stop_codes@,
        around,
        "bus_stop"@,
        Code::Stop,
        cfg.bus_stops as int,
    )
}

/// What a location comes to in the choice of stops.
pub open spec fn stops_found<
    E: Reason,
    G: Fn(&str) -> Result<String, E>,
    P: Fn(&str, &Point) -> Result<Vec<Place>, E>,
>(
    before: Option<Cache>,
    cache: Option<Cache>,
    cfg: TransportSettings,
    point: Result<Point, LocateError<E>>,
    get: G,
    read: P,
    r: Result<(Vec<Stop>, Vec<Stop>), LocateError<E>>,
) -> bool {
    match point {
        Err(e) => r == Err::<(Vec<Stop>, Vec<Stop>), LocateError<E>>(e) && cache == before,
        Ok(p) => exists|middle: Option<Cache>, near: Result<Seq<Place>, E>| #[trigger]
            candidates(
                before,
                middle,
                cfg,
                p,
                "train_station"@,
                cfg.station_codes@,
                cfg.stations as nat,
                get,
                read,
                near,
            ) && (match near {
                Err(e) => r == Err::<(Vec<Stop>, Vec<Stop>), LocateError<E>>(
                    LocateError::Outside(e),
                ) && cache == middle,
                Ok(stations) => exists|around: Result<Seq<Place>, E>| #[trigger]
                    candidates(
                        middle,
                        cache,
                        cfg,
                        p,
                        "bus_stop"@,
                        cfg.bus_stop_codes@,
                        cfg.bus_stops as nat,
                        get,
                        read,
                        around,
                    ) && (match around {
                        Err(e) => r == Err::<(Vec<Stop>, Vec<Stop>), LocateError<E>>(
                            LocateError::Outside(e),
                        ),
                        Ok(stops) => stops_chosen(cfg, stations, stops, r),
                    }),
            }),
    }
}

/// The stops to report were settled. A location is only asked for when a search
/// is needed; it then serves for stations and for bus stops that are not pinned.
pub open spec fn stops_selected<
    E: Reason,
    G: Fn(&str) -> Result<String, E>,
    R: Fn(&str) -> Result<Option<Point>, E>,
    P: Fn(&str, &Point) -> Result<Vec<Place>, E>,
>(
    before: Option<Cache>,
    cache: Option<Cache>,
    cfg: TransportSettings,
    address: Seq<char>,
    get: G,
    read_point: R,
    read_places: P,
    r: Result<(Vec<Stop>, Vec<Stop>), LocateError<E>>,
) -> bool {
    if !cfg.searches() {
        stops_chosen(cfg, Seq::empty(), Seq::empty(), r) && cache == before
    } else {
        exists|middle: Option<Cache>, point: Result<Point, LocateError<E>>| #[trigger]
            location_found(before, middle, cfg, address, get, read_point, point) && stops_found(
                middle,
                cache,
                cfg,
                point,
                get,
                read_places,
                r,
            )
    }
}

/// The places of one kind for the stops to report.
fn find_candidates<
    E: Reason,
    G: Fn(&str) -> Result<String, E>,
    P: Fn(&str, &Point) -> Result<Vec<Place>, E>,
>(
    cfg: &TransportSettings,
    point: &Point,
    place_type: &str,
    codes: &Vec<String>,
    count: usize,
    cache: &mut Option<Cache>,
    get: &G,
    read: &P,
) -> (r: Result<Vec<Place>, E>)
    requires
        codes@.len() == 0 ==> count + 3 <= usize::MAX,
        takes_any(*get),
        takes_any_near(*read),
    ensures
        candidates(
            *old(cache),
            *final(cache),
            *cfg,
            *point,
            place_type@,
            codes@,
            count as nat,
            *get,
            *read,
            match r {
                Ok(v) => Ok(v@),
                Err(e) => Err(e),
            },
        ),
{
    if codes.len() > 0 {
        let none: Vec<Place> = Vec::new();
        assert(none@ =~= Seq::<Place>::empty());
        return Ok(none);
    }
    let r: Result<Vec<Place>, E> = fetch_places_of_type(
        cfg,
        point,
        place_type,
        count + 3,
        cache,
        get,
        read,
    );
    assert(places_found(
        *old(cache),
        *cache,
        *cfg,
        *point,
        place_type@,
        count as nat + 3,
        *get,
        *read,
        r,
    ));
    r
}

/// The stops to report, from what the searches came up with.
pub fn choose_stops<E>(cfg: &TransportSettings, near: &Vec<Place>, around: &Vec<Place>) -> (r: Result<
    (Vec<Stop>, Vec<Stop>),
    LocateError<E>,
>)
    ensures
        stops_chosen(*cfg, near@, around@, r),
{
    let stations: Vec<Stop> = stops_from(
        &cfg.station_codes,
        near.as_slice(),
        "train_station",
        Code::Station,
        cfg.stations,
    );
    let stops: Vec<Stop> = stops_from(
        &cfg.bus_stop_codes,
        around.as_slice(),
        "bus_stop",
        Code::Stop,
        cfg.bus_stops,
    );
    Ok((stations, stops))
}

/// Settles which stations and bus stops are reported: the pinned ones, or else
/// the nearest few. The location is only asked for when a search is needed.
pub fn select_stops<
    E: Reason,
    G: Fn(&str) -> Result<String, E>,
    R: Fn(&str) -> Result<Option<Point>, E>,
    P: Fn(&str, &Point) -> Result<Vec<Place>, E>,
>(
    cfg: &TransportSettings,
    address: &str,
    cache: &mut Option<Cache>,
    get: &G,
    read_point: &R,
    read_places: &P,
) -> (r: Result<(Vec<Stop>, Vec<Stop>), LocateError<E>>)
    requires
        cfg.in_range(),
        takes_any(*get),
        takes_any(*read_point),
        takes_any_near(*read_places),
    ensures
        stops_selected(
            *old(cache),
            *final(cache),
            *cfg,
            address@,
            *get,
            *read_point,
            *read_places,
            r,
        ),
{
    let train_nearest: bool = cfg.station_codes.len() == 0 && cfg.stations > 0;
    let bus_nearest: bool = cfg.bus_stop_codes.len() == 0 && cfg.bus_stops > 0;
    if !train_nearest && !bus_nearest {
        let none: Vec<Place> = Vec::new();
        assert(none@ =~= Seq::<Place>::empty());
        return choose_stops(cfg, &none, &none);
    }
    let point: Result<Point, LocateError<E>> = resolve_location(
        cfg,
        address,
        cache,
        get,
        read_point,
    );
    let ghost middle = *cache;
    let ghost came = point;
    let r: Result<(Vec<Stop>, Vec<Stop>), LocateError<E>> = match point {
        Err(e) => Err(e),
        Ok(point) => {
            let near: Result<Vec<Place>, E> = find_candidates(
                cfg,
                &point,
                "train_station",
                &cfg.station_codes,
                cfg.stations,
                cache,
                get,
                read_places,
            );
            match near {
                Err(e) => Err(LocateError::Outside(e)),
                Ok(stations) => {
                    let around: Result<Vec<Place>, E> = find_candidates(
                        cfg,
                        &point,
                        "bus_stop",
                        &cfg.bus_stop_codes,
                        cfg.bus_stops,
                        cache,
                        get,
                        read_places,
                    );
                    match around {
                        Err(e) => Err(LocateError::Outside(e)),
                        Ok(stops) => choose_stops(cfg, &stations, &stops),
                    }
                },
            }
        },
    };
    assert(stops_found(middle, *cache, *cfg, came, *get, *read_places, r));
    r
}

/// What a location comes to in a listing: the stations and the bus stops near it
/// are asked for, and the first failure is what it comes to.
pub open spec fn listing_found<
    E: Reason,
    G: Fn(&str) -> Result<String, E>,
    P: Fn(&str, &Point) -> Result<Vec<Place>, E>,
>(
    before: Option<Cache>,
    cache: Option<Cache>,
    cfg: TransportSettings,
    point: Result<Point, LocateError<E>>,
    get: G,
    read: P,
    r: Result<String, LocateError<E>>,
) -> bool {
    match point {
        Err(e) => r == Err::<String, LocateError<E>>(e) && cache == before,
        Ok(p) => exists|middle: Option<Cache>, near: Result<Vec<Place>, E>| #[trigger]
            places_found(before, middle, cfg, p, "train_station"@, 10, get, read, near) && (
            match near {
                Err(e) => r == Err::<String, LocateError<E>>(LocateError::Outside(e)) && cache
                    == middle,
                Ok(stations) => exists|around: Result<Vec<Place>, E>| #[trigger]
                    places_found(middle, cache, cfg, p, "bus_stop"@, 10, get, read, around) && (
                    match around {
                        Err(e) => r == Err::<String, LocateError<E>>(LocateError::Outside(e)),
                        Ok(stops) => r matches Ok(text) && text@ == stop_listing(
                            stations@,
                            stops@,
                        ),
                    }),
            }),
    }
}

/// The listing of the nearest stations and bus stops, with the codes that pin
/// them.
pub fn list_stops<
    E: Reason,
    G: Fn(&str) -> Result<String, E>,
    R: Fn(&str) -> Result<Option<Point>, E>,
    P: Fn(&str, &Point) -> Result<Vec<Place>, E>,
>(
    cfg: &TransportSettings,
    address: &str,
    cache: &mut Option<Cache>,
    get: &G,
    read_point: &R,
    read_places: &P,
) -> (r: Result<String, LocateError<E>>)
    requires
        takes_any(*get),
        takes_any(*read_point),
        takes_any_near(*read_places),
    ensures
        exists|middle: Option<Cache>, point: Result<Point, LocateError<E>>| #[trigger]
            location_found(*old(cache), middle, *cfg, address@, *get, *read_point, point)
                && listing_found(middle, *final(cache), *cfg, point, *get, *read_places, r),
{
    let point: Result<Point, LocateError<E>> = resolve_location(
        cfg,
        address,
        cache,
        get,
        read_point,
    );
    let ghost middle = *cache;
    let ghost came = point;
    let r: Result<String, LocateError<E>> = match point {
        Err(e) => Err(e),
        Ok(point) => {
            let near: Result<Vec<Place>, E> = fetch_places_of_type(
                cfg,
                &point,
                "train_station",
                10,
                cache,
                get,
                read_places,
            );
            match near {
                Err(e) => Err(LocateError::Outside(e)),
                Ok(stations) => {
                    let around: Result<Vec<Place>, E> = fetch_places_of_type(
                        cfg,
                        &point,
                        "bus_stop",
                        10,
                        cache,
                        get,
                        read_places,
                    );
                    match around {
                        Err(e) => Err(LocateError::Outside(e)),
                        Ok(stops) => Ok(stops_text(stations.as_slice(), stops.as_slice())),
                    }
                },
            }
        },
    };
    assert(listing_found(middle, *cache, *cfg, came, *get, *read_places, r));
    r
}

/// A postcode is looked up without its white space, and what is kept of it is taken
/// for good. One that is not known is named in the failure, as it was written.
pub proof fn law_postcodes_are_looked_up_once<
    E: Reason,
    G: Fn(&str) -> Result<String, E>,
    R: Fn(&str) -> Result<Option<Point>, E>,
>(
    before: Option<Cache>,
    cache: Option<Cache>,
    postcode: Seq<char>,
    get: G,
    read: R,
    r: Result<Point, LocateError<E>>,
)
    requires
        looked_up(before, cache, postcode, get, read, r),
    ensures
        exists|given: Result<String, E>|
            {
                &&& gives(get, "https://api.postcodes.io/postcodes/"@ + unspaced(postcode), given)
                    || kept(before, "geocode"@, unspaced(postcode), given)
                &&& #[trigger] located(postcode, given, read, r)
                &&& forall|k: int|
                    before is Some && !(before->0).refresh && 0 <= k < (before->0).rows@.len() && (
                    #[trigger] (before->0).rows@[k]).kind@ == "geocode"@ && (before->0).rows@[k].key@
                        == unspaced(postcode) ==> cache is Some && (cache->0).rows@ == (
                    before->0).rows@
            },
        r is Err && r->Err_0 is UnknownPostcode ==> (r->Err_0)->UnknownPostcode_0@ == postcode,
        !(r is Err && r->Err_0 is NoPostcode),
{
    reveal_strlit("https://api.postcodes.io/postcodes/");
    reveal_strlit("https://api.postcodes.io/postcodes");
    reveal_strlit("/");
    let url = POSTCODES_URL@ + "/"@ + unspaced(postcode);
    assert(url =~= "https://api.postcodes.io/postcodes/"@ + unspaced(postcode));
    let given = choose|given: Result<String, E>|
        called_through(
            before,
            cache,
            "geocode"@,
            unspaced(postcode),
            None,
            true,
            plain_replies(get, POSTCODES_URL@ + "/"@ + unspaced(postcode)),
            given,
        ) && #[trigger] located(postcode, given, read, r);
    law_given_is_asked_for_or_kept(
        before,
        cache,
        "geocode"@,
        unspaced(postcode),
        None,
        true,
        plain_replies(get, url),
        given,
    );
    assert forall|k: int|
        before is Some && !(before->0).refresh && 0 <= k < (before->0).rows@.len() && (
        #[trigger] (before->0).rows@[k]).kind@ == "geocode"@ && (before->0).rows@[k].key@
            == unspaced(postcode) implies cache is Some && (cache->0).rows@ == (before->0).rows@ by {
        law_stable_answers_are_asked_for_once(
            before->0,
            cache,
            "geocode"@,
            unspaced(postcode),
            None,
            plain_replies(get, url),
            given,
            k,
        );
    }
}

/// A point of the settings is taken as it is, without asking anything; and without
/// a postcode, in the settings or behind the last comma of the address, there is no
/// location.
pub proof fn law_a_set_point_is_taken<
    E: Reason,
    G: Fn(&str) -> Result<String, E>,
    R: Fn(&str) -> Result<Option<Point>, E>,
>(
    before: Option<Cache>,
    cache: Option<Cache>,
    cfg: TransportSettings,
    address: Seq<char>,
    get: G,
    read: R,
    r: Result<Point, LocateError<E>>,
)
    requires
        location_found(before, cache, cfg, address, get, read, r),
    ensures
        cfg.point is Some ==> r is Ok && r->Ok_0 == cfg.point->0 && cache == before,
        cfg.point is None && cfg.postcode is None && (forall|i: int|
            0 <= i < address.len() ==> white(#[trigger] address[i])) ==> r is Err && cache == before,
{
    reveal_strlit(",");
    let comma = ","@;
    if forall|i: int| 0 <= i < address.len() ==> white(#[trigger] address[i]) {
        law_blank_texts(address);
        assert(!contains_text(address, comma)) by {
            if contains_text(address, comma) {
                let i = choose|i: int| #[trigger] occurs_at(address, comma, i);
                assert(address.subrange(i, i + 1)[0] == address[i]);
                assert(white(address[i]));
            }
        }
        lemma_one_piece(address, comma);
    }
}

/// As many stops are chosen as are wanted, stations and bus stops each by their own
/// number, wherever there are so many with a code; and pinned ones are all taken.
pub proof fn law_as_many_stops_as_wanted<E>(
    cfg: TransportSettings,
    near: Seq<Place>,
    around: Seq<Place>,
    r: Result<(Vec<Stop>, Vec<Stop>), LocateError<E>>,
)
    requires
        stops_chosen(cfg, near, around, r),
    ensures
        r is Ok,
        cfg.station_codes@.len() > 0 ==> (r->Ok_0).0@.len() == cfg.station_codes@.len(),
        cfg.bus_stop_codes@.len() > 0 ==> (r->Ok_0).1@.len() == cfg.bus_stop_codes@.len(),
        cfg.station_codes@.len() == 0 && (forall|i: int|
            0 <= i < near.len() ==> (#[trigger] near[i]).station_code is Some) ==> (
        r->Ok_0).0@.len() == fewer(
            cfg.stations as int,
            near.filter(|p: Place| p.kind@ == "train_station"@ && p.distance is Some).len() as int,
        ),
        cfg.bus_stop_codes@.len() == 0 && (forall|i: int|
            0 <= i < around.len() ==> (#[trigger] around[i]).atcocode is Some) ==> (
        r->Ok_0).1@.len() == fewer(
            cfg.bus_stops as int,
            around.filter(|p: Place| p.kind@ == "bus_stop"@ && p.distance is Some).len() as int,
        ),
{
    let (stations, stops) = r->Ok_0;
    assert(stop_texts(stations@).len() == stations@.len());
    assert(stop_texts(stops@).len() == stops@.len());
    if cfg.station_codes@.len() == 0 && (forall|i: int|
        0 <= i < near.len() ==> (#[trigger] near[i]).station_code is Some) {
        assert forall|i: int| 0 <= i < near.len() implies (#[trigger] near[i]).code(
            Code::Station,
        ) is Some by {}
        lemma_chosen_len(
            cfg.station_codes@,
            near,
            "train_station"@,
            Code::Station,
            cfg.stations as int,
        );
        assert(near.filter(|p: Place| p.kind@ == "train_station"@ && p.distance is Some)
            == near.filter(|p: Place| p.located("train_station"@))) by {
            let f = |p: Place| p.kind@ == "train_station"@ && p.distance is Some;
            let g = |p: Place| p.located("train_station"@);
            assert(f =~= g);
        }
    }
    if cfg.bus_stop_codes@.len() == 0 && (forall|i: int|
        0 <= i < around.len() ==> (#[trigger] around[i]).atcocode is Some) {
        assert forall|i: int| 0 <= i < around.len() implies (#[trigger] around[i]).code(
            Code::Stop,
        ) is Some by {}
        lemma_chosen_len(
            cfg.bus_stop_codes@,
            around,
            "bus_stop"@,
            Code::Stop,
            cfg.bus_stops as int,
        );
        assert(around.filter(|p: Place| p.kind@ == "bus_stop"@ && p.distance is Some)
            == around.filter(|p: Place| p.located("bus_stop"@))) by {
            let f = |p: Place| p.kind@ == "bus_stop"@ && p.distance is Some;
            let g = |p: Place| p.located("bus_stop"@);
            assert(f =~= g);
        }
    }
}

/// The smaller of two numbers.
pub open spec fn fewer(a: int, b: int) -> int {
    if a <= b {
        a
    } else {
        b
    }
}

proof fn lemma_chosen_len(
    codes: Seq<String>,
    places: Seq<Place>,
    kind: Seq<char>,
    which: Code,
    count: int,
)
    requires
        codes.len() == 0,
        count >= 0,
        forall|i: int| 0 <= i < places.len() ==> (#[trigger] places[i]).code(which) is Some,
    ensures
        chosen(codes, places, kind, which, count).len() == fewer(
            count,
            places.filter(|p: Place| p.located(kind)).len() as int,
        ),
{
    let near = first(by_distance(places, kind), count);
    law_nearest(places, kind, count);
    assert forall|i: int| 0 <= i < near.len() implies (#[trigger] near[i]).code(which) is Some by {
        assert(places.contains(near[i]));
        let k = choose|k: int| 0 <= k < places.len() && places[k] == near[i];
        assert(places[k].code(which) is Some);
    }
    law_stops_chosen(codes, places, kind, which, count);
    lemma_sorted(places.filter(|p: Place| p.located(kind)));
}

/// Three places more are asked for than are wanted, because some lack a code; and
/// none where stops are pinned.
pub proof fn law_some_more_places_are_asked_for<
    E: Reason,
    G: Fn(&str) -> Result<String, E>,
    P: Fn(&str, &Point) -> Result<Vec<Place>, E>,
>(
    before: Option<Cache>,
    cache: Option<Cache>,
    cfg: TransportSettings,
    point: Point,
    place_type: Seq<char>,
    codes: Seq<String>,
    count: nat,
    get: G,
    read: P,
    r: Result<Seq<Place>, E>,
)
    requires
        candidates(before, cache, cfg, point, place_type, codes, count, get, read, r),
    ensures
        codes.len() > 0 ==> cache == before && r is Ok && r->Ok_0.len() == 0,
        codes.len() == 0 ==> exists|
            middle: Option<Cache>,
            given: Result<String, E>,
            places: Result<Vec<Place>, E>,
        |
            (replies(
                get,
                cfg.places_url(point, place_type, count + 3),
                cfg.app_key@,
            )(given) || kept(
                before,
                "places"@,
                places_key(point, place_type, count + 3),
                given,
            )) && #[trigger] places_read(read, point, middle, cache, given, places) && (
            places is Ok ==> r is Ok && r->Ok_0 == places->Ok_0@) && (places is Err ==> r is Err
                && r->Err_0 == places->Err_0),
        codes.len() == 0 && r is Ok && before is None ==> cache is None,
{
    if codes.len() == 0 {
        let places = choose|places: Result<Vec<Place>, E>| #[trigger]
            places_found(before, cache, cfg, point, place_type, count + 3, get, read, places) && (
            match places {
                Ok(v) => r == Ok::<Seq<Place>, E>(v@),
                Err(e) => r == Err::<Seq<Place>, E>(e),
            });
        let (middle, given) = choose|middle: Option<Cache>, given: Result<String, E>|
            called_through(
                before,
                middle,
                "places"@,
                places_key(point, place_type, count + 3),
                None,
                true,
                replies(get, cfg.places_url(point, place_type, count + 3), cfg.app_key@),
                given,
            ) && #[trigger] places_read(read, point, middle, cache, given, places);
        law_given_is_asked_for_or_kept(
            before,
            middle,
            "places"@,
            places_key(point, place_type, count + 3),
            None,
            true,
            replies(get, cfg.places_url(point, place_type, count + 3), cfg.app_key@),
            given,
        );
    }
}

/// Stations are chosen among stations and bus stops among bus stops, those that
/// were found around the point.
pub proof fn law_stops_are_chosen_among_their_kind<
    E: Reason,
    G: Fn(&str) -> Result<String, E>,
    P: Fn(&str, &Point) -> Result<Vec<Place>, E>,
>(
    before: Option<Cache>,
    cache: Option<Cache>,
    cfg: TransportSettings,
    point: Point,
    get: G,
    read: P,
    r: Result<(Vec<Stop>, Vec<Stop>), LocateError<E>>,
)
    requires
        stops_found(
            before,
            cache,
            cfg,
            Ok::<Point, LocateError<E>>(point),
            get,
            read,
            r,
        ),
        r is Ok,
    ensures
        exists|middle: Option<Cache>, near: Seq<Place>, around: Seq<Place>|
            {
                &&& #[trigger] candidates(
                    before,
                    middle,
                    cfg,
                    point,
                    "train_station"@,
                    cfg.station_codes@,
                    cfg.stations as nat,
                    get,
                    read,
                    Ok::<Seq<Place>, E>(near),
                )
                &&& #[trigger] candidates(
                    middle,
                    cache,
                    cfg,
                    point,
                    "bus_stop"@,
                    cfg.bus_stop_codes@,
                    cfg.bus_stops as nat,
                    get,
                    read,
                    Ok::<Seq<Place>, E>(around),
                )
                &&& stops_chosen(cfg, near, around, r)
            },
{
}

/// The listing is of the stations and of the bus stops that were found around the
/// point, ten of each being asked for.
pub proof fn law_the_listing_is_of_what_was_found<
    E: Reason,
    G: Fn(&str) -> Result<String, E>,
    P: Fn(&str, &Point) -> Result<Vec<Place>, E>,
>(
    before: Option<Cache>,
    cache: Option<Cache>,
    cfg: TransportSettings,
    point: Point,
    get: G,
    read: P,
    r: Result<String, LocateError<E>>,
)
    requires
        listing_found(
            before,
            cache,
            cfg,
            Ok::<Point, LocateError<E>>(point),
            get,
            read,
            r,
        ),
        r is Ok,
    ensures
        exists|middle: Option<Cache>, near: Vec<Place>, around: Vec<Place>|
            {
                &&& #[trigger] places_found(
                    before,
                    middle,
                    cfg,
                    point,
                    "train_station"@,
                    10,
                    get,
                    read,
                    Ok::<Vec<Place>, E>(near),
                )
                &&& #[trigger] places_found(
                    middle,
                    cache,
                    cfg,
                    point,
                    "bus_stop"@,
                    10,
                    get,
                    read,
                    Ok::<Vec<Place>, E>(around),
                )
                &&& contains_text(
                    r->Ok_0@,
                    crate::transport::places::listing(
                        near@,
                        "train_station"@,
                        Code::Station,
                    ),
                )
                &&& contains_text(
                    r->Ok_0@,
                    crate::transport::places::listing(around@, "bus_stop"@, Code::Stop),
                )
            },
{
    let (middle, near) = choose|middle: Option<Cache>, near: Result<Vec<Place>, E>| #[trigger]
        places_found(before, middle, cfg, point, "train_station"@, 10, get, read, near) && (
        match near {
            Err(e) => r == Err::<String, LocateError<E>>(LocateError::Outside(e)) && cache == middle,
            Ok(stations) => exists|around: Result<Vec<Place>, E>| #[trigger]
                places_found(middle, cache, cfg, point, "bus_stop"@, 10, get, read, around) && (
                match around {
                    Err(e) => r == Err::<String, LocateError<E>>(LocateError::Outside(e)),
                    Ok(stops) => r matches Ok(text) && text@ == stop_listing(stations@, stops@),
                }),
        });
    let stations = near->Ok_0;
    let around = choose|around: Result<Vec<Place>, E>| #[trigger]
        places_found(middle, cache, cfg, point, "bus_stop"@, 10, get, read, around) && (
        match around {
            Err(e) => r == Err::<String, LocateError<E>>(LocateError::Outside(e)),
            Ok(stops) => r matches Ok(text) && text@ == stop_listing(stations@, stops@),
        });
    let stops = around->Ok_0;
    assert(near == Ok::<Vec<Place>, E>(stations));
    assert(around == Ok::<Vec<Place>, E>(stops));
    law_both_kinds_are_listed(stations@, stops@);
}

} // verus!
