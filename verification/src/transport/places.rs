//! Stations and bus stops near a location: their names, their order by distance,
//! and the listing of their codes.

use vstd::prelude::*;
use vstd::utf8::encode_utf8;

use crate::order::{ascending, lemma_sorted, sort, sorted, Ordered};
use crate::text::{
    begins_with, chars_of, contains_text, ends_with, lemma_contains_more, lemma_occurs_between,
    pad_left, pad_right, padded_left, padded_right, push_all, push_str, same_str, string_of,
    text_of,
};

verus! {

/// How far a place is from where the search was made.
#[derive(Debug, Clone)]
pub struct Distance {
    /// A number by which distances compare as the distances themselves do.
    pub rank: i64,
    /// The distance for people, such as `320 m` or `1.5 km`.
    pub label: String,
}

/// A station or a bus stop.
#[derive(Debug, Clone)]
pub struct Place {
    /// What it is: `train_station` or `bus_stop`.
    pub kind: String,
    /// Its name.
    pub name: Option<String>,
    /// What else is said of it.
    pub description: Option<String>,
    /// Its distance, where its coordinates are known.
    pub distance: Option<Distance>,
    /// The CRS code of a station.
    pub station_code: Option<String>,
    /// The ATCO code of a bus stop.
    pub atcocode: Option<String>,
}

/// Which of a place's codes is meant.
#[derive(Debug, Clone, Copy, PartialEq, Eq, Structural)]
pub enum Code {
    /// The CRS code of stations.
    Station,
    /// The ATCO code of bus stops.
    Stop,
}

// --- Models ------------------------------------------------------------------

/// The name that is shown: name and description when they differ, one of them
/// when there is only one.
pub open spec fn shown_name(name: Option<Seq<char>>, description: Option<Seq<char>>) -> Seq<char> {
    match (name, description) {
        (Some(n), Some(d)) => if d.len() > 0 && d != n {
            n + ", "@ + d
        } else {
            n
        },
        (Some(n), None) => n,
        (None, Some(d)) => d,
        (None, None) => "(unnamed)"@,
    }
}

impl Place {
    /// The name that is shown for the place.
    pub open spec fn shown(self) -> Seq<char> {
        shown_name(text_of(self.name), text_of(self.description))
    }

    /// The code of the given sort.
    pub open spec fn code(self, which: Code) -> Option<Seq<char>> {
        match which {
            Code::Station => text_of(self.station_code),
            Code::Stop => text_of(self.atcocode),
        }
    }

    /// The code under which the name is remembered.
    pub open spec fn any_code(self) -> Option<Seq<char>> {
        match self.station_code {
            Some(c) => Some(c@),
            None => text_of(self.atcocode),
        }
    }

    /// The rank of the place's distance.
    pub open spec fn rank(self) -> int {
        match self.distance {
            Some(d) => d.rank as int,
            None => 0,
        }
    }

    /// The place is of this kind and its distance is known.
    pub open spec fn located(self, kind: Seq<char>) -> bool {
        self.kind@ == kind && self.distance is Some
    }
}

impl Ordered for Place {
    open spec fn at_most(self, other: Place) -> bool {
        self.rank() <= other.rank()
    }

    proof fn total(a: Place, b: Place) {
    }

    proof fn transitive(a: Place, b: Place, c: Place) {
    }

    fn ranks_at_most(&self, other: &Place) -> (r: bool) {
        let a: i64 = match &self.distance {
            Some(d) => d.rank,
            None => 0,
        };
        let b: i64 = match &other.distance {
            Some(d) => d.rank,
            None => 0,
        };
        a <= b
    }
}

/// The places of this kind, closest first; those equally far keep their order.
pub open spec fn by_distance(places: Seq<Place>, kind: Seq<char>) -> Seq<Place> {
    sorted(places.filter(|p: Place| p.located(kind)))
}

/// The first `n` items, or all of them when there are fewer.
pub open spec fn first<T>(s: Seq<T>, n: int) -> Seq<T> {
    if s.len() <= n {
        s
    } else {
        s.take(n)
    }
}

/// The places of this kind that have a code of this sort.
pub open spec fn coded(places: Seq<Place>, kind: Seq<char>, which: Code) -> Seq<Place> {
    sorted(places.filter(|p: Place| p.located(kind) && p.code(which) is Some))
}

/// The widest code, in bytes.
pub open spec fn code_width(places: Seq<Place>, which: Code) -> int
    decreases places.len(),
{
    if places.len() == 0 {
        0
    } else {
        let rest = code_width(places.drop_last(), which);
        let here = encode_utf8(places.last().code(which)->0).len() as int;
        if here > rest {
            here
        } else {
            rest
        }
    }
}

/// One line of the listing.
pub open spec fn listing_line(p: Place, which: Code, width: int) -> Seq<char> {
    "  "@ + padded_right(p.code(which)->0, width) + "  "@ + padded_left((p.distance->0).label@, 7)
        + "  "@ + p.shown() + "\n"@
}

/// The lines of the listing.
pub open spec fn listing_lines(places: Seq<Place>, which: Code, width: int) -> Seq<char>
    decreases places.len(),
{
    if places.len() == 0 {
        Seq::empty()
    } else {
        listing_lines(places.drop_last(), which, width) + listing_line(places.last(), which, width)
    }
}

/// The ten closest places of a kind that have a code.
pub open spec fn listing(places: Seq<Place>, kind: Seq<char>, which: Code) -> Seq<char> {
    let found = coded(places, kind, which);
    if found.len() == 0 {
        "  (none found nearby)\n"@
    } else {
        listing_lines(first(found, 10), which, code_width(found, which))
    }
}

/// The listing of stations and bus stops.
pub open spec fn stop_listing(stations: Seq<Place>, stops: Seq<Place>) -> Seq<char> {
    "Nearest train stations  (station_codes = CRS)\n"@ + listing(
        stations,
        "train_station"@,
        Code::Station,
    ) + "\nNearest bus stops  (bus_stop_codes = ATCO)\n"@ + listing(
        stops,
        "bus_stop"@,
        Code::Stop,
    )
}

// --- Laws ---------------------------------------------------------------------

/// The closest places are of the kind asked for, come from the places given, at
/// most as many as asked for, nearest first, and no place that was left out is
/// nearer than one that was kept.
pub proof fn law_nearest(places: Seq<Place>, kind: Seq<char>, limit: int)
    requires
        limit >= 0,
    ensures
        ({
            let near = first(by_distance(places, kind), limit);
            &&& near.len() <= limit
            &&& ascending(near)
            &&& forall|i: int|
                0 <= i < near.len() ==> places.contains(#[trigger] near[i]) && near[i].located(kind)
            &&& forall|i: int, p: Place|
                0 <= i < near.len() && places.contains(p) && p.located(kind) && !near.contains(p)
                    ==> (#[trigger] near[i]).rank() <= #[trigger] p.rank()
        }),
{
    let pred = |p: Place| p.located(kind);
    let kept = places.filter(pred);
    let all = sorted(kept);
    let near = first(all, limit);
    lemma_sorted(kept);
    assert forall|i: int| 0 <= i < near.len() implies places.contains(#[trigger] near[i])
        && near[i].located(kind) by {
        assert(near[i] == all[i]);
        assert(all.contains(near[i]));
        crate::order::lemma_sorted_contains(kept, near[i]);
        let k = choose|k: int| 0 <= k < kept.len() && kept[k] == near[i];
        places.lemma_filter_pred(pred, k);
        places.lemma_filter_contains_rev(pred, near[i]);
    }
    assert forall|i: int, p: Place|
        0 <= i < near.len() && places.contains(p) && p.located(kind) && !near.contains(
            p,
        ) implies (#[trigger] near[i]).rank() <= #[trigger] p.rank() by {
        let k = choose|k: int| 0 <= k < places.len() && places[k] == p;
        places.lemma_filter_contains(pred, k);
        crate::order::lemma_sorted_contains(kept, p);
        let j = choose|j: int| 0 <= j < all.len() && all[j] == p;
        if j < near.len() {
            assert(near[j] == p);
        } else {
            assert(all[i].at_most(all[j]));
        }
    }
}

/// A place is near enough to be listed: it is of the kind asked for and its
/// distance is known.
pub open spec fn of_kind(p: Place, kind: Seq<char>) -> bool {
    p.kind@ == kind && p.distance is Some
}

/// No near place is missed: unless as many were chosen as were asked for, every
/// place of the kind is among them. They stand by distance.
pub proof fn law_no_near_place_is_missed(places: Seq<Place>, kind: Seq<char>, limit: int, p: Place)
    requires
        limit >= 0,
        places.contains(p),
        of_kind(p, kind),
    ensures
        ({
            let near = first(by_distance(places, kind), limit);
            &&& near.len() < limit ==> near.contains(p)
            &&& limit > 0 ==> near.len() > 0
            &&& forall|i: int, j: int|
                0 <= i <= j < near.len() ==> of_kind(#[trigger] near[i], kind)
                    && near[i].distance->0.rank <= (#[trigger] near[j]).distance->0.rank
        }),
{
    let pred = |q: Place| q.located(kind);
    let kept = places.filter(pred);
    let all = sorted(kept);
    let near = first(all, limit);
    lemma_sorted(kept);
    let k = choose|k: int| 0 <= k < places.len() && places[k] == p;
    places.lemma_filter_contains(pred, k);
    crate::order::lemma_sorted_contains(kept, p);
    law_nearest(places, kind, limit);
    assert forall|i: int, j: int| 0 <= i <= j < near.len() implies of_kind(#[trigger] near[i], kind)
        && near[i].distance->0.rank <= (#[trigger] near[j]).distance->0.rank by {
        assert(near[i].located(kind) && near[j].located(kind));
        assert(near[i].at_most(near[j]));
    }
}

/// A place goes by its name, with its description behind it where that says
/// something else; without a name it goes by its description.
pub proof fn law_names_shown(p: Place)
    ensures
        p.name matches Some(n) ==> begins_with(p.shown(), n@) && ((p.description is None
            || p.description->0@.len() == 0 || p.description->0@ == n@) ==> p.shown() == n@) && (
        p.description matches Some(d) ==> d@.len() > 0 ==> ends_with(p.shown(), d@) && (d@ != n@
            ==> p.shown().len() == n@.len() + 2 + d@.len())),
        p.name is None && p.description is Some ==> p.shown() == p.description->0@,
        p.name is None && p.description is None ==> p.shown().len() > 0,
{
    reveal_strlit(", ");
    reveal_strlit("(unnamed)");
    let s = p.shown();
    if let Some(n) = p.name {
        assert(s.subrange(0, n@.len() as int) =~= n@);
        if let Some(d) = p.description {
            if d@.len() > 0 {
                assert(s.subrange(s.len() - d@.len(), s.len() as int) =~= d@);
            }
        }
    }
}

proof fn lemma_code_width(places: Seq<Place>, which: Code, i: int)
    requires
        0 <= i < places.len(),
    ensures
        encode_utf8(places[i].code(which)->0).len() <= code_width(places, which),
    decreases places.len(),
{
    if i < places.len() - 1 {
        assert(places.drop_last()[i] == places[i]);
        lemma_code_width(places.drop_last(), which, i);
    }
}

proof fn lemma_listing_lines(places: Seq<Place>, which: Code, width: int, i: int)
    requires
        0 <= i < places.len(),
    ensures
        contains_text(listing_lines(places, which, width), listing_line(places[i], which, width)),
    decreases places.len(),
{
    let init = places.drop_last();
    let before = listing_lines(init, which, width);
    let last = listing_line(places.last(), which, width);
    if i < init.len() {
        assert(init[i] == places[i]);
        lemma_listing_lines(init, which, width, i);
        lemma_contains_more(before, last, listing_line(places[i], which, width));
    } else {
        lemma_occurs_between(before, last, Seq::empty());
        assert(before + last + Seq::empty() =~= before + last);
    }
}

/// The places of the kind that carry a code are listed by distance, up to ten of
/// them, each on a line with its code, how far it is, and its name. The codes of
/// all of them fit their column.
pub proof fn law_the_nearest_places_are_listed(
    places: Seq<Place>,
    kind: Seq<char>,
    which: Code,
    p: Place,
    code: String,
)
    requires
        places.contains(p),
        of_kind(p, kind),
        match which {
            Code::Station => p.station_code == Some(code),
            Code::Stop => p.atcocode == Some(code),
        },
    ensures
        ({
            let found = coded(places, kind, which);
            &&& found.contains(p)
            &&& encode_utf8(code@).len() <= code_width(found, which)
            &&& forall|i: int|
                0 <= i < found.len() && i < 10 && #[trigger] found[i] == p ==> contains_text(
                    listing(places, kind, which),
                    "  "@ + padded_right(code@, code_width(found, which)) + "  "@ + padded_left(
                        p.distance->0.label@,
                        7,
                    ) + "  "@ + p.shown() + "\n"@,
                )
            &&& forall|i: int, j: int|
                0 <= i <= j < found.len() ==> (#[trigger] found[i]).distance->0.rank <= (
                #[trigger] found[j]).distance->0.rank
        }),
{
    let pred = |q: Place| q.located(kind) && q.code(which) is Some;
    let kept = places.filter(pred);
    let found = coded(places, kind, which);
    lemma_sorted(kept);
    let k = choose|k: int| 0 <= k < places.len() && places[k] == p;
    places.lemma_filter_contains(pred, k);
    crate::order::lemma_sorted_contains(kept, p);
    let n = choose|n: int| 0 <= n < found.len() && found[n] == p;
    lemma_code_width(found, which, n);
    let width = code_width(found, which);
    assert forall|i: int| 0 <= i < found.len() && i < 10 && #[trigger] found[i] == p implies contains_text(
        listing(places, kind, which),
        "  "@ + padded_right(code@, width) + "  "@ + padded_left(p.distance->0.label@, 7) + "  "@
            + p.shown() + "\n"@,
    ) by {
        assert(first(found, 10)[i] == p);
        lemma_listing_lines(first(found, 10), which, width, i);
    }
    assert forall|i: int, j: int| 0 <= i <= j < found.len() implies (
    #[trigger] found[i]).distance->0.rank <= (#[trigger] found[j]).distance->0.rank by {
        assert(found[i].at_most(found[j]));
        assert(found.contains(found[i]) && found.contains(found[j]));
        crate::order::lemma_sorted_contains(kept, found[i]);
        crate::order::lemma_sorted_contains(kept, found[j]);
        let a = choose|a: int| 0 <= a < kept.len() && kept[a] == found[i];
        let b = choose|b: int| 0 <= b < kept.len() && kept[b] == found[j];
        places.lemma_filter_pred(pred, a);
        places.lemma_filter_pred(pred, b);
    }
}

/// The listing has the stations by their station codes and the bus stops by those of
/// the stops.
pub proof fn law_both_kinds_are_listed(stations: Seq<Place>, stops: Seq<Place>)
    ensures
        contains_text(
            stop_listing(stations, stops),
            listing(stations, "train_station"@, Code::Station),
        ),
        contains_text(stop_listing(stations, stops), listing(stops, "bus_stop"@, Code::Stop)),
{
    let a = "Nearest train stations  (station_codes = CRS)\n"@;
    let x = listing(stations, "train_station"@, Code::Station);
    let b = "\nNearest bus stops  (bus_stop_codes = ATCO)\n"@;
    let y = listing(stops, "bus_stop"@, Code::Stop);
    let none = Seq::<char>::empty();
    assert(stop_listing(stations, stops) =~= a + x + (b + y));
    lemma_occurs_between(a, x, b + y);
    assert(stop_listing(stations, stops) =~= (a + x + b) + y + none);
    lemma_occurs_between(a + x + b, y, none);
}

// --- Functions ----------------------------------------------------------------

/// A copy of an optional string.
pub fn copy_text(s: &Option<String>) -> (r: Option<String>)
    ensures
        r == *s,
{
    match s {
        Some(t) => Some(t.clone()),
        None => None,
    }
}

impl Place {
    /// A copy of the place.
    pub fn copy(&self) -> (r: Place)
        ensures
            r == *self,
    {
        Place {
            kind: self.kind.clone(),
            name: copy_text(&self.name),
            description: copy_text(&self.description),
            distance: match &self.distance {
                Some(d) => Some(Distance { rank: d.rank, label: d.label.clone() }),
                None => None,
            },
            station_code: copy_text(&self.station_code),
            atcocode: copy_text(&self.atcocode),
        }
    }

    /// The name that is shown for the place.
    pub fn display_name(&self) -> (r: String)
        ensures
            r@ == self.shown(),
    {
        match (&self.name, &self.description) {
            (Some(n), Some(d)) => if !d.as_str().is_empty() && !same_str(d.as_str(), n.as_str()) {
                let mut out: Vec<char> = chars_of(n.as_str());
                push_str(&mut out, ", ");
                push_str(&mut out, d.as_str());
                string_of(out.as_slice())
            } else {
                n.clone()
            },
            (Some(n), None) => n.clone(),
            (None, Some(d)) => d.clone(),
            (None, None) => "(unnamed)".to_string(),
        }
    }

    /// Whether the place is of this kind and its distance is known.
    fn is_located(&self, kind: &str) -> (r: bool)
        ensures
            r == self.located(kind@),
    {
        same_str(self.kind.as_str(), kind) && self.distance.is_some()
    }

    /// The code of the given sort.
    fn code_text(&self, which: Code) -> (r: Option<String>)
        ensures
            text_of(r) == self.code(which),
    {
        match which {
            Code::Station => copy_text(&self.station_code),
            Code::Stop => copy_text(&self.atcocode),
        }
    }
}

/// The closest places of the given kind, at most `limit` of them, nearest first.
pub fn nearest(places: &[Place], kind: &str, limit: usize) -> (r: Vec<Place>)
    ensures
        r@ == first(by_distance(places@, kind@), limit as int),
{
    let mut found: Vec<Place> = Vec::new();
    let ghost pred = |p: Place| p.located(kind@);
    let mut i: usize = 0;
    assert(places@.take(0) =~= Seq::<Place>::empty());
    assert(places@.take(0).filter(pred) =~= Seq::<Place>::empty());
    while i < places.len()
        invariant
            i <= places@.len(),
            pred == (|p: Place| p.located(kind@)),
            found@ == places@.take(i as int).filter(pred),
        decreases places@.len() - i,
    {
        proof {
            assert(places@.take(i + 1) =~= places@.take(i as int).push(places@[i as int]));
            places@.take(i as int).lemma_filter_push(places@[i as int], pred);
        }
        if places[i].is_located(kind) {
            found.push(places[i].copy());
        }
        i = i + 1;
    }
    assert(places@.take(i as int) =~= places@);
    let mut near: Vec<Place> = sort(found);
    if near.len() > limit {
        near.truncate(limit);
    }
    near
}

/// Appends the ten closest places of a kind that have a code, each with its code
/// and its distance.
pub fn append_listing(out: &mut String, places: &[Place], kind: &str, which: Code)
    ensures
        final(out)@ == old(out)@ + listing(places@, kind@, which),
{
    let mut found: Vec<Place> = Vec::new();
    let ghost pred = |p: Place| p.located(kind@) && p.code(which) is Some;
    let mut i: usize = 0;
    assert(places@.take(0) =~= Seq::<Place>::empty());
    assert(places@.take(0).filter(pred) =~= Seq::<Place>::empty());
    while i < places.len()
        invariant
            i <= places@.len(),
            pred == (|p: Place| p.located(kind@) && p.code(which) is Some),
            found@ == places@.take(i as int).filter(pred),
        decreases places@.len() - i,
    {
        proof {
            assert(places@.take(i + 1) =~= places@.take(i as int).push(places@[i as int]));
            places@.take(i as int).lemma_filter_push(places@[i as int], pred);
        }
        if places[i].is_located(kind) && places[i].code_text(which).is_some() {
            found.push(places[i].copy());
        }
        i = i + 1;
    }
    assert(places@.take(i as int) =~= places@);
    let rows: Vec<Place> = sort(found);
    if rows.len() == 0 {
        out.append("  (none found nearby)\n");
        return;
    }
    proof {
        lemma_sorted(places@.filter(pred));
        assert forall|j: int| 0 <= j < rows@.len() implies (#[trigger] rows@[j]).located(kind@)
            && rows@[j].code(which) is Some by {
            assert(rows@.contains(rows@[j]));
            crate::order::lemma_sorted_contains(places@.filter(pred), rows@[j]);
            let k = choose|k: int|
                0 <= k < places@.filter(pred).len() && places@.filter(pred)[k] == rows@[j];
            places@.lemma_filter_pred(pred, k);
        }
    }
    let mut width: usize = 0;
    let mut k: usize = 0;
    assert(rows@.take(0) =~= Seq::<Place>::empty());
    while k < rows.len()
        invariant
            k <= rows@.len(),
            forall|j: int|
                0 <= j < rows@.len() ==> (#[trigger] rows@[j]).located(kind@) && rows@[j].code(
                    which,
                ) is Some,
            width == code_width(rows@.take(k as int), which),
        decreases rows@.len() - k,
    {
        assert(rows@.take(k + 1).drop_last() =~= rows@.take(k as int));
        assert(rows@.take(k + 1).last() == rows@[k as int]);
        if let Some(code) = rows[k].code_text(which) {
            let n: usize = code.as_str().as_bytes().len();
            if n > width {
                width = n;
            }
        }
        k = k + 1;
    }
    assert(rows@.take(k as int) =~= rows@);
    let count: usize = if rows.len() <= 10 {
        rows.len()
    } else {
        10
    };
    let mut lines: Vec<char> = Vec::new();
    let mut m: usize = 0;
    while m < count
        invariant
            m <= count <= rows@.len(),
            forall|j: int|
                0 <= j < rows@.len() ==> (#[trigger] rows@[j]).located(kind@) && rows@[j].code(
                    which,
                ) is Some,
            lines@ == listing_lines(rows@.take(m as int), which, width as int),
        decreases count - m,
    {
        assert(rows@.take(m + 1).drop_last() =~= rows@.take(m as int));
        assert(rows@.take(m + 1).last() == rows@[m as int]);
        let row: &Place = &rows[m];
        match (row.code_text(which), &row.distance) {
            (Some(code), Some(d)) => {
                let mut line: Vec<char> = chars_of("  ");
                let c: Vec<char> = chars_of(code.as_str());
                push_all(&mut line, pad_right(c.as_slice(), width).as_slice());
                push_str(&mut line, "  ");
                let l: Vec<char> = chars_of(d.label.as_str());
                push_all(&mut line, pad_left(l.as_slice(), 7).as_slice());
                push_str(&mut line, "  ");
                push_str(&mut line, row.display_name().as_str());
                push_str(&mut line, "\n");
                push_all(&mut lines, line.as_slice());
            },
            _ => {},
        }
        m = m + 1;
    }
    assert(rows@.take(count as int) =~= first(rows@, 10));
    let text: String = string_of(lines.as_slice());
    out.append(text.as_str());
}

/// The listing of the nearest stations and bus stops, with the codes that pin
/// them.
pub fn stops_text(stations: &[Place], stops: &[Place]) -> (r: String)
    ensures
        r@ == stop_listing(stations@, stops@),
{
    let mut out: String = "Nearest train stations  (station_codes = CRS)\n".to_string();
    append_listing(&mut out, stations, "train_station", Code::Station);
    out.append("\nNearest bus stops  (bus_stop_codes = ATCO)\n");
    append_listing(&mut out, stops, "bus_stop", Code::Stop);
    out
}

} // verus!
