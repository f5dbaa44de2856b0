//! Reading the meetings of a day from an iCalendar feed.

use chrono::Timelike;
use vstd::prelude::*;

use crate::calendar::{
    bounds_of, day_bounds, lemma_sorted_ok, meeting_texts, meetings_ok, read_ok, unbounded, Bounds,
    CalendarError, Meeting, MeetingText,
};
use crate::date::{
    at_local, date_read, floating_time, naive_read, parse_date_by, parse_naive, timestamp_ok,
    utc_time, zone_time, zoned_time, Date, Moment, Naive, FIRST_SECOND,
};
use crate::order::{ascending, lemma_sorted, lemma_sorted_contains, sort, sorted};
use crate::sequences::{lemma_filter_map_holds, lemma_flattened, total_len};
use crate::text::{
    begins_with, chars_of, contains_text, ends_with, eq_ignoring_case, lemma_contains_more,
    lemma_occurs_between, find_char, first_index, join, joined,
    lemma_first_index, lines, lines_of, pieces, push_all, push_str, raised, rows,
    same_ignoring_case, same_str, split, stands_at, string_of, text_of, texts, utf8_len,
};

verus! {

/// A property of an event: `NAME;PARAM=v:value`.
#[derive(Debug)]
pub struct Property {
    /// Its name.
    pub name: String,
    /// Its parameters, each with its values.
    pub params: Option<Vec<(String, Vec<String>)>>,
    /// Its value.
    pub value: Option<String>,
}

/// An event of a calendar.
#[derive(Debug)]
pub struct Event {
    /// Its properties, in order.
    pub properties: Vec<Property>,
}

// --- Models ------------------------------------------------------------------

/// A property as texts.
#[verifier::ext_equal]
pub struct PropertyText {
    /// Its name.
    pub name: Seq<char>,
    /// Its parameters, each with its values.
    pub params: Option<Seq<(Seq<char>, Seq<Seq<char>>)>>,
    /// Its value.
    pub value: Option<Seq<char>>,
}

/// The parameters of a property as texts.
pub open spec fn param_texts(params: Option<Vec<(String, Vec<String>)>>) -> Option<
    Seq<(Seq<char>, Seq<Seq<char>>)>,
> {
    match params {
        Some(v) => Some(v@.map_values(|p: (String, Vec<String>)| (p.0@, texts(p.1@)))),
        None => None,
    }
}

impl Property {
    /// The property as texts.
    pub open spec fn text(self) -> PropertyText {
        PropertyText {
            name: self.name@,
            params: param_texts(self.params),
            value: text_of(self.value),
        }
    }

    /// The first value of a parameter.
    pub open spec fn first_param(self, key: Seq<char>) -> Option<Seq<char>> {
        match self.params {
            Some(v) => match param_index(v@, key, 0) {
                Some(i) => if v@[i].1@.len() > 0 {
                    Some(v@[i].1@[0]@)
                } else {
                    None
                },
                None => None,
            },
            None => None,
        }
    }

    /// The property stands for a date without a time.
    pub open spec fn date_only(self) -> bool {
        self.first_param("VALUE"@) matches Some(v) && same_ignoring_case(v, "DATE"@)
    }

    /// The property as a line.
    pub open spec fn line(self) -> Seq<char> {
        self.name@ + (match self.params {
            Some(v) => param_line(v@),
            None => Seq::empty(),
        }) + ":"@ + (match self.value {
            Some(v) => v@,
            None => Seq::empty(),
        })
    }
}

/// The index, from `from` on, of the first parameter with this name.
pub open spec fn param_index(params: Seq<(String, Vec<String>)>, key: Seq<char>, from: int) -> Option<
    int,
>
    decreases params.len() - from,
{
    if from < 0 || from >= params.len() {
        None
    } else if same_ignoring_case(params[from].0@, key) {
        Some(from)
    } else {
        param_index(params, key, from + 1)
    }
}

/// Parameters as they stand in a line.
pub open spec fn param_line(params: Seq<(String, Vec<String>)>) -> Seq<char>
    decreases params.len(),
{
    if params.len() == 0 {
        Seq::empty()
    } else {
        param_line(params.drop_last()) + ";"@ + params.last().0@ + "="@ + joined(
            texts(params.last().1@),
            ","@,
        )
    }
}

/// The index, from `from` on, of the first property with this name.
pub open spec fn property_index(properties: Seq<Property>, name: Seq<char>, from: int) -> Option<int>
    decreases properties.len() - from,
{
    if from < 0 || from >= properties.len() {
        None
    } else if same_ignoring_case(properties[from].name@, name) {
        Some(from)
    } else {
        property_index(properties, name, from + 1)
    }
}

impl Event {
    /// The first property with this name.
    pub open spec fn property(self, name: Seq<char>) -> Option<Property> {
        match property_index(self.properties@, name, 0) {
            Some(i) => Some(self.properties@[i]),
            None => None,
        }
    }

    /// The lines of the properties with this name.
    pub open spec fn lines(self, name: Seq<char>) -> Seq<Seq<char>> {
        self.properties@.filter_map(
            |p: Property|
                if same_ignoring_case(p.name@, name) {
                    Some(p.line())
                } else {
                    None
                },
        )
    }

    /// What the event is called.
    pub open spec fn summary(self) -> Seq<char> {
        match self.property("SUMMARY"@) {
            Some(p) => match p.value {
                Some(v) => v@,
                None => "(no title)"@,
            },
            None => "(no title)"@,
        }
    }

    /// The lines that say when the event recurs, the start first.
    pub open spec fn rule(self) -> Seq<char> {
        let start = match self.property("DTSTART"@) {
            Some(p) => seq![p.line()],
            None => Seq::empty(),
        };
        joined(
            start + self.lines("RRULE"@) + self.lines("RDATE"@) + self.lines("EXRULE"@)
                + self.lines("EXDATE"@),
            "\n"@,
        )
    }
}

/// The events of all calendars, one after the other.
pub open spec fn all_events(feed: Seq<Vec<Event>>) -> Seq<Event>
    decreases feed.len(),
{
    if feed.len() == 0 {
        Seq::empty()
    } else {
        all_events(feed.drop_last()) + feed.last()@
    }
}

/// A feed as texts, calendar by calendar and event by event.
pub open spec fn feed_texts(feed: Seq<Vec<Event>>) -> Seq<Seq<Seq<PropertyText>>> {
    feed.map_values(
        |calendar: Vec<Event>|
            calendar@.map_values(
                |e: Event| e.properties@.map_values(|p: Property| p.text()),
            ),
    )
}

/// The calendars that `ical::IcalParser` reads from a text, each with its events;
/// nothing when one of them cannot be read.
pub uninterp spec fn feed_read(text: Seq<char>) -> Option<Seq<Seq<Seq<PropertyText>>>>;

/// `ical::IcalParser`: the calendars of a feed with the properties of their
/// events, or what the first failure says.
#[verifier::external_body]
pub(crate) fn read_feed(text: &str) -> (r: Result<Vec<Vec<Event>>, String>)
    ensures
        match r {
            Ok(feed) => feed_read(text@) == Some(feed_texts(feed@)),
            Err(_) => feed_read(text@) is None,
        },
{
    let of_property = |p: ical::property::Property| Property {
        name: p.name,
        params: p.params,
        value: p.value,
    };
    ical::IcalParser::new(std::io::BufReader::new(text.as_bytes()))
        .map(|c| c.map(|c| c.events.into_iter().map(
            |e| Event { properties: e.properties.into_iter().map(of_property).collect() },
        ).collect()))
        .collect::<Result<Vec<Vec<Event>>, _>>()
        .map_err(|e| e.to_string())
}

/// The line gives dates, and no rule.
pub open spec fn is_date_line(line: Seq<char>) -> bool {
    ||| begins_with(line, "DTSTART;"@)
    ||| begins_with(line, "DTSTART:"@)
    ||| begins_with(line, "RDATE;"@)
    ||| begins_with(line, "RDATE:"@)
    ||| begins_with(line, "EXDATE;"@)
    ||| begins_with(line, "EXDATE:"@)
}

/// What a line says of a rule: what stands after its first colon, or all of it.
pub open spec fn rule_text(line: Seq<char>) -> Seq<char> {
    match first_index(line, seq![':']) {
        Some(i) => line.skip(i + 1),
        None => line,
    }
}

/// The last two bytes of a text can be cut off it: they are no part of a longer
/// character. A text of fewer bytes is not cut.
pub open spec fn can_cut(item: Seq<char>) -> bool {
    ||| item.len() == 0
    ||| utf8_len(item.last()) == 2
    ||| utf8_len(item.last()) == 1 && (item.len() == 1 || utf8_len(item[item.len() - 2]) == 1)
}

/// The name of the part of a rule that lists days of the week.
pub open spec fn lists_weekdays(name: Seq<char>) -> bool {
    raised(name) == "BYDAY"@ || raised(name) == "BYWEEKDAY"@
}

/// The part of a rule can be read: it lists no days of the week, or the last two
/// bytes of each can be cut off.
pub open spec fn part_ok(part: Seq<char>) -> bool {
    match first_index(part, seq!['=']) {
        None => true,
        Some(i) => lists_weekdays(part.take(i)) ==> forall|k: int|
            0 <= k < pieces(part.skip(i + 1), ","@).len() ==> can_cut(
                #[trigger] pieces(part.skip(i + 1), ","@)[k],
            ),
    }
}

/// The line can be read: it gives dates, or a rule whose parts can be read.
pub open spec fn line_ok(line: Seq<char>) -> bool {
    is_date_line(line) || forall|k: int|
        0 <= k < pieces(rule_text(line), ";"@).len() ==> part_ok(
            #[trigger] pieces(rule_text(line), ";"@)[k],
        )
}

/// Lines that can be read for when an event recurs.
pub open spec fn is_readable(block: Seq<char>) -> bool {
    forall|i: int| 0 <= i < lines(block).len() ==> line_ok(#[trigger] lines(block)[i])
}

/// `rrule::RRuleSet::from_str`, `after`, `before` and `all`: the first `limit`
/// times from `after` to `before` at which an event recurs by the given lines, or
/// nothing where the lines cannot be read. Lines without a time zone are read in
/// that of the machine, so which times these are is not said, only that they lie
/// between the bounds. Each day of the week that a rule lists is cut at its last
/// two bytes, which fails within a character.
#[verifier::external_body]
pub(crate) fn occurrences(block: &str, after: i64, before: i64, limit: u16) -> (r: Option<
    Vec<Moment>,
>)
    requires
        is_readable(block@),
        timestamp_ok(after as int, 0),
        timestamp_ok(before as int, 0),
    ensures
        r matches Some(v) ==> v@.len() <= limit && forall|i: int|
            0 <= i < v@.len() ==> (#[trigger] v@[i]).wf() && after <= v@[i].secs <= before,
{
    let from = chrono::DateTime::from_timestamp(after, 0).unwrap().with_timezone(&rrule::Tz::LOCAL);
    let to = chrono::DateTime::from_timestamp(before, 0).unwrap().with_timezone(&rrule::Tz::LOCAL);
    let set = block.parse::<rrule::RRuleSet>().ok()?;
    let of_time = |t: chrono::DateTime<chrono::Local>| Moment {
        secs: t.timestamp(),
        nanos: t.timestamp_subsec_nanos(),
        hour: t.hour(),
        minute: t.minute(),
    };
    let dates = set.after(from).before(to).all(limit).dates;
    Some(dates.iter().map(|d| of_time(d.with_timezone(&chrono::Local))).collect())
}

/// How many times of an event are looked at on a day.
pub const MAX_TIMES: u16 = 64;

/// The event recurs at these times, as far as the machine's time zone goes.
pub closed spec fn recurs(block: Seq<char>, after: i64, before: i64, found: Option<Vec<Moment>>) -> bool {
    exists|t: &str|
        t@ == block && #[trigger] call_ensures(occurrences, (t, after, before, MAX_TIMES), found)
}

/// The local clock shows this date and time at this moment, as far as the
/// machine's time zone goes.
pub closed spec fn floats(n: Naive, r: Option<Moment>) -> bool {
    call_ensures(floating_time, (n,), r)
}

/// When the event recurs can be asked for on this day: its lines can be read, and
/// there is a second before the day.
pub open spec fn can_recur(e: Event, bounds: Bounds) -> bool {
    is_readable(e.rule()) && bounds.start.secs > FIRST_SECOND
}

/// The moment is the point in time with these seconds and nanoseconds.
pub open spec fn is_at(r: Option<Moment>, t: (i64, u32)) -> bool {
    r matches Some(m) && m.secs == t.0 && m.nanos == t.1 && m.wf()
}

/// The moment that a property stands for: in UTC with a `Z` at the end, in the
/// time zone that it names where that is known, and by the local clock otherwise.
pub open spec fn starts_at(p: Property, r: Option<Moment>) -> bool {
    match p.value {
        None => r is None,
        Some(v) => if v@.len() > 0 && v@.last() == 'Z' {
            match naive_read(v@.drop_last()) {
                None => r is None,
                Some(n) => r matches Some(m) && m.secs == n.utc_secs() && m.nanos == n.nanos
                    && m.wf(),
            }
        } else {
            match naive_read(v@) {
                None => r is None,
                Some(n) => match p.first_param("TZID"@) {
                    None => floats(n, r),
                    Some(tzid) => match zone_time(tzid, n) {
                        None => floats(n, r),
                        Some(None) => r is None,
                        Some(Some(t)) => is_at(r, t),
                    },
                },
            }
        },
    }
}

/// The meeting of an event at a moment.
pub open spec fn meeting_at(e: Event, all_day: bool, calendar: Option<Seq<char>>, start: Moment) -> MeetingText {
    MeetingText { start, all_day, summary: e.summary(), calendar }
}

/// The meetings of an event at the given moments, as far as they fall on the day.
pub open spec fn kept(
    e: Event,
    all_day: bool,
    calendar: Option<Seq<char>>,
    bounds: Bounds,
    found: Seq<Moment>,
) -> Seq<MeetingText> {
    found.filter(|m: Moment| bounds.holds(m)).map_values(
        |m: Moment| meeting_at(e, all_day, calendar, m),
    )
}

/// The meetings of an event on a day: of one that recurs, those of its times that
/// fall on the day, and none where its times cannot be asked for; of one without a time, one at the start of the day when it is
/// on that date; of any other, one at its start when that falls on the day.
pub open spec fn event_gives(
    e: Event,
    bounds: Bounds,
    calendar: Option<Seq<char>>,
    out: Seq<MeetingText>,
) -> bool {
    match e.property("DTSTART"@) {
        None => out.len() == 0,
        Some(p) => if e.property("RRULE"@) is Some {
            if can_recur(e, bounds) {
                exists|found: Option<Vec<Moment>>|
                    #[trigger] recurs(
                        e.rule(),
                        (bounds.start.secs - 1) as i64,
                        bounds.end.secs,
                        found,
                    ) && (match found {
                        None => out.len() == 0,
                        Some(v) => out == kept(e, p.date_only(), calendar, bounds, v@),
                    })
            } else {
                out.len() == 0
            }
        } else if p.date_only() {
            if p.value matches Some(v) && date_read(v@, "%Y%m%d"@) == Some(bounds.date) {
                out == seq![meeting_at(e, true, calendar, bounds.start)]
            } else {
                out.len() == 0
            }
        } else {
            exists|start: Option<Moment>|
                #[trigger] starts_at(p, start) && (match start {
                    None => out.len() == 0,
                    Some(m) => out == kept(e, false, calendar, bounds, seq![m]),
                })
        },
    }
}

/// One more event was read, and its meetings follow those so far.
pub open spec fn event_added(
    e: Event,
    bounds: Bounds,
    calendar: Option<Seq<char>>,
    sofar: Seq<MeetingText>,
    out: Seq<MeetingText>,
) -> bool {
    exists|more: Seq<MeetingText>| #[trigger]
        event_gives(e, bounds, calendar, more) && out == sofar + more
}

/// The meetings of the events on a day, event after event.
pub open spec fn events_give(
    events: Seq<Event>,
    bounds: Bounds,
    calendar: Option<Seq<char>>,
    out: Seq<MeetingText>,
) -> bool
    decreases events.len(),
{
    if events.len() == 0 {
        out.len() == 0
    } else {
        exists|sofar: Seq<MeetingText>|
            events_give(events.drop_last(), bounds, calendar, sofar) && #[trigger] event_added(
                events.last(),
                bounds,
                calendar,
                sofar,
                out,
            )
    }
}

// --- Laws ---------------------------------------------------------------------

/// The meeting falls on the day and carries the name of its calendar.
pub open spec fn on_day(m: MeetingText, bounds: Bounds, calendar: Option<Seq<char>>) -> bool {
    &&& bounds.holds(m.start)
    &&& m.calendar == calendar
}

/// Every meeting is one of the day.
pub open spec fn all_on_day(s: Seq<MeetingText>, bounds: Bounds, calendar: Option<Seq<char>>) -> bool {
    forall|i: int| 0 <= i < s.len() ==> on_day(#[trigger] s[i], bounds, calendar)
}

proof fn lemma_kept_on_day(
    e: Event,
    all_day: bool,
    calendar: Option<Seq<char>>,
    bounds: Bounds,
    found: Seq<Moment>,
)
    ensures
        all_on_day(kept(e, all_day, calendar, bounds, found), bounds, calendar),
{
    let p = |m: Moment| bounds.holds(m);
    let s = kept(e, all_day, calendar, bounds, found);
    assert forall|i: int| 0 <= i < s.len() implies on_day(#[trigger] s[i], bounds, calendar) by {
        found.lemma_filter_pred(p, i);
    }
}

proof fn lemma_events_on_day(
    events: Seq<Event>,
    bounds: Bounds,
    calendar: Option<Seq<char>>,
    out: Seq<MeetingText>,
)
    requires
        bounds.wf(),
        events_give(events, bounds, calendar, out),
    ensures
        all_on_day(out, bounds, calendar),
    decreases events.len(),
{
    if events.len() > 0 {
        let sofar = choose|sofar: Seq<MeetingText>|
            events_give(events.drop_last(), bounds, calendar, sofar) && #[trigger] event_added(
                events.last(),
                bounds,
                calendar,
                sofar,
                out,
            );
        lemma_events_on_day(events.drop_last(), bounds, calendar, sofar);
        let e = events.last();
        let more = choose|more: Seq<MeetingText>| #[trigger]
            event_gives(e, bounds, calendar, more) && out == sofar + more;
        assert(all_on_day(more, bounds, calendar)) by {
            if let Some(p) = e.property("DTSTART"@) {
                if e.property("RRULE"@) is Some && can_recur(e, bounds) {
                    let found = choose|found: Option<Vec<Moment>>|
                        #[trigger] recurs(
                            e.rule(),
                            (bounds.start.secs - 1) as i64,
                            bounds.end.secs,
                            found,
                        ) && (match found {
                            None => more.len() == 0,
                            Some(v) => more == kept(e, p.date_only(), calendar, bounds, v@),
                        });
                    if let Some(v) = found {
                        lemma_kept_on_day(e, p.date_only(), calendar, bounds, v@);
                    }
                } else if e.property("RRULE"@) is None && !p.date_only() {
                    let start = choose|start: Option<Moment>|
                        #[trigger] starts_at(p, start) && (match start {
                            None => more.len() == 0,
                            Some(m) => more == kept(e, false, calendar, bounds, seq![m]),
                        });
                    if let Some(m) = start {
                        lemma_kept_on_day(e, false, calendar, bounds, seq![m]);
                    }
                }
            }
        }
        assert forall|i: int| 0 <= i < out.len() implies on_day(#[trigger] out[i], bounds, calendar) by {
            if i < sofar.len() {
                assert(out[i] == sofar[i]);
            } else {
                assert(out[i] == more[i - sofar.len()]);
            }
        }
    }
}

/// The meetings of a feed on a day are in order of their start, all of them fall
/// on the day, and all carry the name of the calendar.
pub proof fn law_meetings_of_the_day(
    feed: Seq<Vec<Event>>,
    bounds: Bounds,
    calendar: Option<Seq<char>>,
    meetings: Seq<Meeting>,
)
    requires
        bounds.wf(),
        day_meetings(feed, bounds, calendar, meetings),
    ensures
        ascending(meetings),
        all_on_day(meeting_texts(meetings), bounds, calendar),
{
    let all = choose|all: Seq<Meeting>|
        meetings == #[trigger] sorted(all) && events_give(
            all_events(feed),
            bounds,
            calendar,
            meeting_texts(all),
        );
    lemma_sorted(all);
    lemma_events_on_day(all_events(feed), bounds, calendar, meeting_texts(all));
    let out = meeting_texts(meetings);
    assert forall|i: int| 0 <= i < out.len() implies on_day(#[trigger] out[i], bounds, calendar) by {
        assert(meetings.contains(meetings[i]));
        lemma_sorted_contains(all, meetings[i]);
        let k = choose|k: int| 0 <= k < all.len() && all[k] == meetings[i];
        assert(meeting_texts(all)[k] == out[i]);
    }
}

/// The property `k` is the first of the event with this name, in any case.
pub open spec fn first_called(e: Event, name: Seq<char>, k: int) -> bool {
    &&& 0 <= k < e.properties@.len()
    &&& same_ignoring_case(e.properties@[k].name@, name)
    &&& forall|j: int|
        0 <= j < k ==> !same_ignoring_case((#[trigger] e.properties@[j]).name@, name)
}

/// No property of the event has this name.
pub open spec fn none_called(e: Event, name: Seq<char>) -> bool {
    forall|j: int|
        0 <= j < e.properties@.len() ==> !same_ignoring_case(
            (#[trigger] e.properties@[j]).name@,
            name,
        )
}

/// The parameters say that a property is a date without a time: the first that is
/// called `VALUE`, in any case, has `DATE`, in any case, for its first value.
pub open spec fn says_date(params: Option<Vec<(String, Vec<String>)>>) -> bool {
    params matches Some(v) && exists|k: int|
        {
            &&& 0 <= k < v@.len()
            &&& same_ignoring_case((#[trigger] v@[k]).0@, "VALUE"@)
            &&& forall|j: int| 0 <= j < k ==> !same_ignoring_case((#[trigger] v@[j]).0@, "VALUE"@)
            &&& v@[k].1@.len() > 0
            &&& same_ignoring_case(v@[k].1@[0]@, "DATE"@)
        }
}

proof fn lemma_param_index(params: Seq<(String, Vec<String>)>, key: Seq<char>, from: int)
    requires
        0 <= from,
    ensures
        match param_index(params, key, from) {
            Some(i) => from <= i < params.len() && same_ignoring_case(params[i].0@, key)
                && forall|j: int| from <= j < i ==> !same_ignoring_case((#[trigger] params[j]).0@, key),
            None => forall|j: int|
                from <= j < params.len() ==> !same_ignoring_case((#[trigger] params[j]).0@, key),
        },
    decreases params.len() - from,
{
    if from < params.len() && !same_ignoring_case(params[from].0@, key) {
        lemma_param_index(params, key, from + 1);
    }
}

proof fn lemma_property_index(properties: Seq<Property>, name: Seq<char>, from: int)
    requires
        0 <= from,
    ensures
        match property_index(properties, name, from) {
            Some(i) => from <= i < properties.len() && same_ignoring_case(properties[i].name@, name)
                && forall|j: int|
                from <= j < i ==> !same_ignoring_case((#[trigger] properties[j]).name@, name),
            None => forall|j: int|
                from <= j < properties.len() ==> !same_ignoring_case(
                    (#[trigger] properties[j]).name@,
                    name,
                ),
        },
    decreases properties.len() - from,
{
    if from < properties.len() && !same_ignoring_case(properties[from].name@, name) {
        lemma_property_index(properties, name, from + 1);
    }
}

/// A property is found by its name in any case, and it is the first one that has
/// it; none is found exactly when none has it.
pub proof fn law_properties_are_found(e: Event, name: Seq<char>)
    ensures
        forall|k: int| #[trigger]
            first_called(e, name, k) ==> e.property(name) == Some(e.properties@[k]),
        e.property(name) is None <==> none_called(e, name),
{
    lemma_property_index(e.properties@, name, 0);
}

proof fn lemma_date_only(p: Property)
    ensures
        p.date_only() == says_date(p.params),
{
    if let Some(v) = p.params {
        lemma_param_index(v@, "VALUE"@, 0);
        if let Some(i) = param_index(v@, "VALUE"@, 0) {
            assert(same_ignoring_case(v@[i].0@, "VALUE"@));
        }
    }
}

/// The meetings of an event, recurring or not, are all-day exactly when its start
/// is a date without a time, by the parameters of its first `DTSTART`; and each
/// carries the name of the calendar, what the event is called, and a start that
/// falls on the day. So an event that recurs at a time is shown with its hour and
/// minute.
pub proof fn law_all_day_exactly_for_dates(
    e: Event,
    bounds: Bounds,
    calendar: Option<Seq<char>>,
    out: Seq<MeetingText>,
    k: int,
)
    requires
        bounds.wf(),
        event_gives(e, bounds, calendar, out),
        first_called(e, "DTSTART"@, k),
    ensures
        forall|i: int|
            0 <= i < out.len() ==> ((#[trigger] out[i]).all_day <==> says_date(
                e.properties@[k].params,
            )),
        forall|i: int| 0 <= i < out.len() ==> (#[trigger] out[i]).calendar == calendar,
        forall|i: int|
            0 <= i < out.len() ==> bounds.start.no_later_than((#[trigger] out[i]).start)
                && !bounds.end.no_later_than(out[i].start),
        forall|n: int, i: int|
            0 <= i < out.len() && #[trigger] first_called(e, "SUMMARY"@, n) && (
            e.properties@[n].value is Some) ==> (#[trigger] out[i]).summary
                == e.properties@[n].value->0@,
        none_called(e, "SUMMARY"@) ==> forall|i: int|
            0 <= i < out.len() ==> (#[trigger] out[i]).summary == "(no title)"@,
{
    law_properties_are_found(e, "DTSTART"@);
    law_properties_are_found(e, "SUMMARY"@);
    let p = e.properties@[k];
    lemma_date_only(p);
    let holds = |m: Moment| bounds.holds(m);
    if e.property("RRULE"@) is Some {
        if can_recur(e, bounds) {
            let found = choose|found: Option<Vec<Moment>>|
                #[trigger] recurs(
                    e.rule(),
                    (bounds.start.secs - 1) as i64,
                    bounds.end.secs,
                    found,
                ) && (match found {
                    None => out.len() == 0,
                    Some(v) => out == kept(e, p.date_only(), calendar, bounds, v@),
                });
            if let Some(v) = found {
                assert forall|i: int| 0 <= i < out.len() implies bounds.holds(
                    (#[trigger] out[i]).start,
                ) by {
                    v@.lemma_filter_pred(holds, i);
                }
            }
        }
    } else if !p.date_only() {
        let start = choose|start: Option<Moment>|
            #[trigger] starts_at(p, start) && (match start {
                None => out.len() == 0,
                Some(m) => out == kept(e, false, calendar, bounds, seq![m]),
            });
        if let Some(m) = start {
            assert forall|i: int| 0 <= i < out.len() implies bounds.holds(
                (#[trigger] out[i]).start,
            ) by {
                seq![m].lemma_filter_pred(holds, i);
            }
        }
    }
}

/// What is collected of an event for the day: every meeting is all-day exactly when
/// the first start of the event is a date without a time, whether or not the event
/// recurs, and starts within the day.
pub proof fn law_collected_meetings_are_all_day_exactly_for_dates(
    event: &Event,
    bounds: &Bounds,
    calendar: &Option<String>,
    r: Vec<Meeting>,
    k: int,
)
    requires
        bounds.wf(),
        call_ensures(collect_occurrences, (event, bounds, calendar), r),
        first_called(*event, "DTSTART"@, k),
    ensures
        forall|i: int|
            0 <= i < r@.len() ==> ((#[trigger] r@[i]).all_day <==> says_date(
                event.properties@[k].params,
            )),
        forall|i: int|
            0 <= i < r@.len() ==> bounds.start.secs <= (#[trigger] r@[i]).start.secs
                < bounds.end.secs,
        forall|i: int|
            0 <= i < r@.len() ==> text_of((#[trigger] r@[i]).calendar) == text_of(*calendar),
{
    let out = meeting_texts(r@);
    law_all_day_exactly_for_dates(*event, *bounds, text_of(*calendar), out, k);
    assert forall|i: int| 0 <= i < r@.len() implies ((#[trigger] r@[i]).all_day <==> says_date(
        event.properties@[k].params,
    )) && bounds.start.secs <= r@[i].start.secs < bounds.end.secs && text_of(r@[i].calendar)
        == text_of(*calendar) by {
        assert(out[i] == r@[i].text());
    }
}

/// A recurring event gives a meeting for each of its times that fall on the day,
/// and no others: asked for from the second before the day to its end, by the
/// lines of the event.
pub proof fn law_every_time_of_a_recurring_event_counts(
    e: Event,
    bounds: Bounds,
    calendar: Option<Seq<char>>,
    out: Seq<MeetingText>,
)
    requires
        bounds.wf(),
        event_gives(e, bounds, calendar, out),
        !none_called(e, "DTSTART"@),
        !none_called(e, "RRULE"@),
        can_recur(e, bounds),
    ensures
        exists|found: Option<Vec<Moment>>|
            {
                &&& #[trigger] recurs(
                    e.rule(),
                    (bounds.start.secs - 1) as i64,
                    bounds.end.secs,
                    found,
                )
                &&& found is None ==> out.len() == 0
                &&& forall|i: int|
                    found is Some && 0 <= i < found->0@.len() && bounds.start.no_later_than(
                        #[trigger] found->0@[i],
                    ) && !bounds.end.no_later_than(found->0@[i]) ==> exists|j: int|
                        0 <= j < out.len() && (#[trigger] out[j]).start == found->0@[i]
                &&& forall|j: int|
                    0 <= j < out.len() ==> found is Some && found->0@.contains(
                        (#[trigger] out[j]).start,
                    )
                &&& found is Some ==> out.len() <= found->0@.len()
            },
{
    law_properties_are_found(e, "DTSTART"@);
    law_properties_are_found(e, "RRULE"@);
    let p = e.property("DTSTART"@)->0;
    let holds = |m: Moment| bounds.holds(m);
    let found = choose|found: Option<Vec<Moment>>|
        #[trigger] recurs(
            e.rule(),
            (bounds.start.secs - 1) as i64,
            bounds.end.secs,
            found,
        ) && (match found {
            None => out.len() == 0,
            Some(v) => out == kept(e, p.date_only(), calendar, bounds, v@),
        });
    if let Some(v) = found {
        let s = v@.filter(holds);
        v@.lemma_filter_len(holds);
        assert forall|i: int|
            0 <= i < v@.len() && bounds.start.no_later_than(#[trigger] v@[i])
                && !bounds.end.no_later_than(v@[i]) implies exists|j: int|
            0 <= j < out.len() && (#[trigger] out[j]).start == v@[i] by {
            v@.lemma_filter_contains(holds, i);
            let j = choose|j: int| 0 <= j < s.len() && s[j] == v@[i];
            assert(out[j].start == v@[i]);
        }
        assert forall|j: int| 0 <= j < out.len() implies v@.contains((#[trigger] out[j]).start) by {
            assert(s.contains(s[j]));
            v@.lemma_filter_contains_rev(holds, s[j]);
        }
    }
}

/// An event that does not recur gives at most one meeting. One on a date is on the
/// day exactly when the date is that of the day, and then starts with the day; one
/// at a time in UTC is on the day exactly when that time falls on it.
pub proof fn law_single_events(
    e: Event,
    bounds: Bounds,
    calendar: Option<Seq<char>>,
    out: Seq<MeetingText>,
    k: int,
    value: String,
)
    requires
        bounds.wf(),
        event_gives(e, bounds, calendar, out),
        first_called(e, "DTSTART"@, k),
        none_called(e, "RRULE"@),
        e.properties@[k].value == Some(value),
    ensures
        out.len() <= 1,
        says_date(e.properties@[k].params) ==> (out.len() == 1 <==> date_read(value@, "%Y%m%d"@)
            == Some(bounds.date)) && (out.len() == 1 ==> out[0].start == bounds.start),
        !says_date(e.properties@[k].params) && value@.len() > 0 && value@.last() == 'Z' ==> (
        match naive_read(value@.drop_last()) {
            None => out.len() == 0,
            Some(n) => {
                &&& out.len() == 1 <==> bounds.start.secs <= n.utc_secs() < bounds.end.secs
                &&& out.len() == 1 ==> out[0].start.secs == n.utc_secs() && out[0].start.nanos
                    == n.nanos
            },
        }),
{
    law_properties_are_found(e, "DTSTART"@);
    law_properties_are_found(e, "RRULE"@);
    let p = e.properties@[k];
    lemma_date_only(p);
    let holds = |m: Moment| bounds.holds(m);
    if !p.date_only() {
        let start = choose|start: Option<Moment>|
            #[trigger] starts_at(p, start) && (match start {
                None => out.len() == 0,
                Some(m) => out == kept(e, false, calendar, bounds, seq![m]),
            });
        if let Some(m) = start {
            let s = seq![m];
            s.lemma_filter_len(holds);
            if holds(m) {
                s.lemma_filter_contains(holds, 0);
                assert(out.len() == s.filter(holds).len());
            } else if out.len() > 0 {
                s.lemma_filter_pred(holds, 0);
                assert(s.filter(holds).contains(s.filter(holds)[0]));
                s.lemma_filter_contains_rev(holds, s.filter(holds)[0]);
            }
            if out.len() > 0 {
                assert(s.filter(holds).contains(s.filter(holds)[0]));
                s.lemma_filter_contains_rev(holds, s.filter(holds)[0]);
            }
        }
    }
}

/// An event without a start has no meetings.
pub proof fn law_no_start_no_meetings(
    e: Event,
    bounds: Bounds,
    calendar: Option<Seq<char>>,
    out: Seq<MeetingText>,
)
    requires
        event_gives(e, bounds, calendar, out),
        none_called(e, "DTSTART"@),
    ensures
        out.len() == 0,
{
    law_properties_are_found(e, "DTSTART"@);
}

/// Each event gave its part of the meetings.
pub open spec fn parts_of(
    events: Seq<Event>,
    bounds: Bounds,
    calendar: Option<Seq<char>>,
    parts: Seq<Seq<MeetingText>>,
) -> bool {
    &&& parts.len() == events.len()
    &&& forall|k: int|
        0 <= k < events.len() ==> event_gives(events[k], bounds, calendar, #[trigger] parts[k])
}

proof fn lemma_parts(
    events: Seq<Event>,
    bounds: Bounds,
    calendar: Option<Seq<char>>,
    out: Seq<MeetingText>,
)
    requires
        events_give(events, bounds, calendar, out),
    ensures
        exists|parts: Seq<Seq<MeetingText>>| #[trigger]
            parts_of(events, bounds, calendar, parts) && out == parts.flatten_alt(),
    decreases events.len(),
{
    if events.len() == 0 {
        let parts = Seq::<Seq<MeetingText>>::empty();
        assert(parts_of(events, bounds, calendar, parts));
        assert(out =~= parts.flatten_alt());
    } else {
        let init = events.drop_last();
        let sofar = choose|sofar: Seq<MeetingText>|
            events_give(events.drop_last(), bounds, calendar, sofar) && #[trigger] event_added(
                events.last(),
                bounds,
                calendar,
                sofar,
                out,
            );
        let more = choose|more: Seq<MeetingText>| #[trigger]
            event_gives(events.last(), bounds, calendar, more) && out == sofar + more;
        lemma_parts(init, bounds, calendar, sofar);
        let ps = choose|parts: Seq<Seq<MeetingText>>| #[trigger]
            parts_of(init, bounds, calendar, parts) && sofar == parts.flatten_alt();
        let parts = ps.push(more);
        assert forall|k: int| 0 <= k < events.len() implies event_gives(
            events[k],
            bounds,
            calendar,
            #[trigger] parts[k],
        ) by {
            if k < init.len() {
                assert(parts[k] == ps[k] && init[k] == events[k]);
            }
        }
        assert(parts.drop_last() =~= ps);
        assert(parts_of(events, bounds, calendar, parts));
        assert(out =~= parts.flatten_alt());
    }
}

proof fn lemma_all_events(feed: Seq<Vec<Event>>, c: int, k: int)
    requires
        0 <= c < feed.len(),
        0 <= k < feed[c]@.len(),
    ensures
        all_events(feed).contains(feed[c]@[k]),
    decreases feed.len(),
{
    let init = feed.drop_last();
    if c < init.len() {
        assert(init[c] == feed[c]);
        lemma_all_events(init, c, k);
        let n = choose|n: int| 0 <= n < all_events(init).len() && all_events(init)[n] == feed[c]@[k];
        assert(all_events(feed)[n] == feed[c]@[k]);
    } else {
        assert(all_events(feed)[all_events(init).len() + k] == feed[c]@[k]);
    }
}

/// No event is lost: for each event of each calendar of a feed, what that event
/// gives on the day is among the meetings, all of it.
pub proof fn law_no_event_is_lost(
    feed: Seq<Vec<Event>>,
    bounds: Bounds,
    calendar: Option<Seq<char>>,
    meetings: Seq<Meeting>,
    c: int,
    k: int,
)
    requires
        day_meetings(feed, bounds, calendar, meetings),
        0 <= c < feed.len(),
        0 <= k < feed[c]@.len(),
    ensures
        exists|part: Seq<MeetingText>| #[trigger]
            event_gives(feed[c]@[k], bounds, calendar, part) && forall|i: int|
                0 <= i < part.len() ==> meeting_texts(meetings).contains(#[trigger] part[i]),
{
    let all = choose|all: Seq<Meeting>|
        meetings == #[trigger] sorted(all) && events_give(
            all_events(feed),
            bounds,
            calendar,
            meeting_texts(all),
        );
    let events = all_events(feed);
    lemma_all_events(feed, c, k);
    let n = choose|n: int| 0 <= n < events.len() && events[n] == feed[c]@[k];
    let out = meeting_texts(all);
    lemma_parts(events, bounds, calendar, out);
    let parts = choose|parts: Seq<Seq<MeetingText>>| #[trigger]
        parts_of(events, bounds, calendar, parts) && out == parts.flatten_alt();
    lemma_flattened(parts);
    let part = parts[n];
    assert(event_gives(events[n], bounds, calendar, parts[n]));
    assert forall|i: int| 0 <= i < part.len() implies meeting_texts(meetings).contains(
        #[trigger] part[i],
    ) by {
        assert(out.contains(parts[n][i]));
        let m = choose|m: int| 0 <= m < out.len() && out[m] == part[i];
        assert(all.contains(all[m]));
        lemma_sorted_contains(all, all[m]);
        let j = choose|j: int| 0 <= j < meetings.len() && meetings[j] == all[m];
        assert(meeting_texts(meetings)[j] == part[i]);
    }
}

/// The meetings of a feed are as many as its events give together, and none comes
/// from anything else.
pub proof fn law_meetings_come_from_events(
    feed: Seq<Vec<Event>>,
    bounds: Bounds,
    calendar: Option<Seq<char>>,
    meetings: Seq<Meeting>,
)
    requires
        day_meetings(feed, bounds, calendar, meetings),
    ensures
        exists|parts: Seq<Seq<MeetingText>>| #[trigger]
            parts_of(all_events(feed), bounds, calendar, parts) && meetings.len() == total_len(
                parts,
            ),
{
    let all = choose|all: Seq<Meeting>|
        meetings == #[trigger] sorted(all) && events_give(
            all_events(feed),
            bounds,
            calendar,
            meeting_texts(all),
        );
    lemma_sorted(all);
    lemma_parts(all_events(feed), bounds, calendar, meeting_texts(all));
    let parts = choose|parts: Seq<Seq<MeetingText>>| #[trigger]
        parts_of(all_events(feed), bounds, calendar, parts) && meeting_texts(all)
            == parts.flatten_alt();
    lemma_flattened(parts);
    assert(meeting_texts(all).len() == all.len());
}

/// Every line that says when an event recurs is handed on: that of its first start,
/// and that of every property that gives or takes away rules or dates.
pub proof fn law_every_rule_is_handed_on(e: Event, name: Seq<char>, k: int)
    requires
        name == "RRULE"@ || name == "RDATE"@ || name == "EXRULE"@ || name == "EXDATE"@,
        0 <= k < e.properties@.len(),
        same_ignoring_case(e.properties@[k].name@, name) || first_called(e, "DTSTART"@, k),
    ensures
        exists|parts: Seq<Seq<char>>| #[trigger]
            joined(parts, "\n"@) == e.rule() && parts.contains(e.properties@[k].line()),
{
    let start = match e.property("DTSTART"@) {
        Some(p) => seq![p.line()],
        None => Seq::empty(),
    };
    let l1 = e.lines("RRULE"@);
    let l2 = e.lines("RDATE"@);
    let l3 = e.lines("EXRULE"@);
    let l4 = e.lines("EXDATE"@);
    let parts = start + l1 + l2 + l3 + l4;
    assert(joined(parts, "\n"@) == e.rule());
    law_properties_are_found(e, "DTSTART"@);
    let line = e.properties@[k].line();
    if first_called(e, "DTSTART"@, k) {
        assert(parts[0] == line);
    } else {
        let f = |p: Property|
            if same_ignoring_case(p.name@, name) {
                Some(p.line())
            } else {
                None
            };
        lemma_filter_map_holds(e.properties@, f, k);
        let mine = e.lines(name);
        assert(mine == e.properties@.filter_map(f));
        let i = choose|i: int| 0 <= i < mine.len() && mine[i] == line;
        if name == "RRULE"@ {
            assert(parts[start.len() + i] == line);
        } else if name == "RDATE"@ {
            assert(parts[start.len() + l1.len() + i] == line);
        } else if name == "EXRULE"@ {
            assert(parts[start.len() + l1.len() + l2.len() + i] == line);
        } else {
            assert(parts[start.len() + l1.len() + l2.len() + l3.len() + i] == line);
        }
    }
}

proof fn lemma_param_line(params: Seq<(String, Vec<String>)>, i: int)
    requires
        0 <= i < params.len(),
    ensures
        contains_text(
            param_line(params),
            ";"@ + params[i].0@ + "="@ + joined(texts(params[i].1@), ","@),
        ),
    decreases params.len(),
{
    let init = params.drop_last();
    let before = param_line(init);
    let q = params.last();
    let last = ";"@ + q.0@ + "="@ + joined(texts(q.1@), ","@);
    assert(param_line(params) =~= before + last);
    if i < init.len() {
        assert(init[i] == params[i]);
        lemma_param_line(init, i);
        lemma_contains_more(
            before,
            last,
            ";"@ + params[i].0@ + "="@ + joined(texts(params[i].1@), ","@),
        );
    } else {
        let none = Seq::<char>::empty();
        lemma_occurs_between(before, last, none);
        assert(before + last + none =~= before + last);
    }
}

/// The line of a property holds all of it: its name at the beginning, each parameter
/// behind a semicolon with its values, and its value behind a colon at the end.
pub proof fn law_property_lines(p: &Property, r: String, i: int)
    requires
        call_ensures(property_to_line, (p,), r),
    ensures
        begins_with(r@, p.name@),
        p.value matches Some(v) ==> ends_with(r@, ":"@ + v@),
        p.params is None && p.value is Some ==> r@ == p.name@ + ":"@ + p.value->0@,
        p.params is Some && 0 <= i < p.params->0@.len() ==> contains_text(
            r@,
            ";"@ + p.params->0@[i].0@ + "="@ + joined(texts(p.params->0@[i].1@), ","@),
        ),
{
    let middle = match p.params {
        Some(v) => param_line(v@),
        None => Seq::empty(),
    };
    let value = match p.value {
        Some(v) => v@,
        None => Seq::empty(),
    };
    let tail = ":"@ + value;
    assert(r@ =~= p.name@ + middle + tail);
    assert(r@.subrange(0, p.name@.len() as int) =~= p.name@);
    assert(r@.subrange(r@.len() - tail.len(), r@.len() as int) =~= tail);
    if p.params is Some && 0 <= i < p.params->0@.len() {
        let part = ";"@ + p.params->0@[i].0@ + "="@ + joined(texts(p.params->0@[i].1@), ","@);
        lemma_param_line(p.params->0@, i);
        lemma_contains_more(middle, p.name@, part);
        lemma_contains_more(p.name@ + middle, tail, part);
    } else if p.params is None {
        assert(p.name@ + middle + tail =~= p.name@ + ":"@ + value);
    }
}

/// When a property starts: a time with a `Z` at its end is in UTC. Any other is in
/// the zone that the property names, where that is known and has such a time; a
/// property that names no zone, or one that is not known, goes by the local clock.
/// What does not read as a time has no start.
pub proof fn law_start_times(p: &Property, r: Option<Moment>, value: String, k: int)
    requires
        call_ensures(parse_ics_datetime, (p,), r),
        p.value == Some(value),
        value@.len() > 0,
    ensures
        value@.last() == 'Z' ==> match naive_read(value@.drop_last()) {
            None => r is None,
            Some(n) => r is Some && (r->0).secs == n.utc_secs() && (r->0).nanos == n.nanos,
        },
        value@.last() != 'Z' && naive_read(value@) is None ==> r is None,
        value@.last() != 'Z' && naive_read(value@) is Some && p.params is None ==> floats(
            naive_read(value@)->0,
            r,
        ),
        value@.last() != 'Z' && naive_read(value@) is Some && p.params is Some && 0 <= k
            < p.params->0@.len() && same_ignoring_case(p.params->0@[k].0@, "TZID"@) && (forall|j: int|
            0 <= j < k ==> !same_ignoring_case((#[trigger] p.params->0@[j]).0@, "TZID"@))
            && p.params->0@[k].1@.len() > 0 ==> (match zone_time(
            p.params->0@[k].1@[0]@,
            naive_read(value@)->0,
        ) {
            None => floats(naive_read(value@)->0, r),
            Some(None) => r is None,
            Some(Some(t)) => r is Some && (r->0).secs == t.0 && (r->0).nanos == t.1,
        }),
{
    if let Some(v) = p.params {
        lemma_param_index(v@, "TZID"@, 0);
    }
}

/// A line gives dates when its name is one of the three that do, up to the semicolon
/// or colon behind it.
pub proof fn law_lines_that_give_dates(name: Seq<char>, rest: Seq<char>)
    requires
        name == "DTSTART"@ || name == "RDATE"@ || name == "EXDATE"@,
    ensures
        is_date_line(name + ":"@ + rest),
        is_date_line(name + ";"@ + rest),
        rest.len() > 0 && rest[0] != ':' && rest[0] != ';' ==> !is_date_line(name + rest),
        !is_date_line("RRULE:"@ + rest),
        !is_date_line("EXRULE:"@ + rest),
{
    reveal_strlit("DTSTART");
    reveal_strlit("RDATE");
    reveal_strlit("EXDATE");
    reveal_strlit("DTSTART;");
    reveal_strlit("DTSTART:");
    reveal_strlit("RDATE;");
    reveal_strlit("RDATE:");
    reveal_strlit("EXDATE;");
    reveal_strlit("EXDATE:");
    reveal_strlit("RRULE:");
    reveal_strlit("EXRULE:");
    reveal_strlit(":");
    reveal_strlit(";");
    let a = name + ":"@ + rest;
    let b = name + ";"@ + rest;
    let n = name.len() as int + 1;
    assert(a.subrange(0, n) =~= name + ":"@);
    assert(b.subrange(0, n) =~= name + ";"@);
    assert("DTSTART"@ + ":"@ =~= "DTSTART:"@ && "DTSTART"@ + ";"@ =~= "DTSTART;"@);
    assert("RDATE"@ + ":"@ =~= "RDATE:"@ && "RDATE"@ + ";"@ =~= "RDATE;"@);
    assert("EXDATE"@ + ":"@ =~= "EXDATE:"@ && "EXDATE"@ + ";"@ =~= "EXDATE;"@);
    let s = name + rest;
    let c = "RRULE:"@ + rest;
    let d = "EXRULE:"@ + rest;
    assert(s[0] == name[0]);
    assert(rest.len() > 0 ==> s[name.len() as int] == rest[0]);
    assert(c[0] == 'R' && c[1] == 'R');
    assert(d[0] == 'E' && d[2] == 'R');
    lemma_other_line(s, "DTSTART;"@, "DTSTART:"@, 0, 7);
    lemma_other_line(s, "RDATE;"@, "RDATE:"@, 0, 5);
    lemma_other_line(s, "EXDATE;"@, "EXDATE:"@, 0, 6);
    lemma_other_line(c, "DTSTART;"@, "DTSTART:"@, 0, 0);
    lemma_other_line(c, "RDATE;"@, "RDATE:"@, 1, 1);
    lemma_other_line(c, "EXDATE;"@, "EXDATE:"@, 0, 0);
    lemma_other_line(d, "DTSTART;"@, "DTSTART:"@, 0, 0);
    lemma_other_line(d, "RDATE;"@, "RDATE:"@, 0, 0);
    lemma_other_line(d, "EXDATE;"@, "EXDATE:"@, 2, 2);
}

proof fn lemma_other_line(s: Seq<char>, p: Seq<char>, q: Seq<char>, i: int, j: int)
    requires
        0 <= i < p.len() && 0 <= j < p.len(),
        p.len() == q.len(),
    ensures
        s.len() > i && (s[i] != p[i] && s[i] != q[i]) ==> !begins_with(s, p) && !begins_with(s, q),
        s.len() > j && (s[j] != p[j] && s[j] != q[j]) ==> !begins_with(s, p) && !begins_with(s, q),
{
    lemma_begins(s, p);
    lemma_begins(s, q);
}

proof fn lemma_begins(s: Seq<char>, pat: Seq<char>)
    ensures
        begins_with(s, pat) ==> s.len() >= pat.len() && forall|i: int|
            0 <= i < pat.len() ==> #[trigger] s[i] == pat[i],
{
    if begins_with(s, pat) {
        assert forall|i: int| 0 <= i < pat.len() implies #[trigger] s[i] == pat[i] by {
            assert(s.subrange(0, pat.len() as int)[i] == s[i]);
        }
    }
}

/// A day without a midnight is named in the failure of a feed.
pub proof fn law_the_day_without_a_midnight_is_named<E>(
    ics: Seq<char>,
    date: Date,
    calendar: Option<Seq<char>>,
    r: Result<Vec<Meeting>, CalendarError<E>>,
)
    requires
        feed_meetings(ics, date, calendar, r),
    ensures
        r is Err && r->Err_0 is NoMidnight ==> (r->Err_0)->NoMidnight_0 == date,
{
}

// --- Functions ----------------------------------------------------------------

/// The first property with this name, in any case.
pub fn find_prop<'a>(event: &'a Event, name: &str) -> (r: Option<&'a Property>)
    ensures
        match r {
            Some(p) => event.property(name@) == Some(*p),
            None => event.property(name@) is None,
        },
{
    let mut i: usize = 0;
    while i < event.properties.len()
        invariant
            i <= event.properties@.len(),
            property_index(event.properties@, name@, i as int) == property_index(
                event.properties@,
                name@,
                0,
            ),
        decreases event.properties@.len() - i,
    {
        if eq_ignoring_case(event.properties[i].name.as_str(), name) {
            return Some(&event.properties[i]);
        }
        i = i + 1;
    }
    None
}

/// The value of the first property with this name.
pub fn prop_value(event: &Event, name: &str) -> (r: Option<String>)
    ensures
        text_of(r) == (match event.property(name@) {
            Some(p) => text_of(p.value),
            None => None,
        }),
{
    match find_prop(event, name) {
        Some(p) => match &p.value {
            Some(v) => Some(v.clone()),
            None => None,
        },
        None => None,
    }
}

/// The first value of a parameter, whose name may be in any case.
pub fn param<'a>(p: &'a Property, key: &str) -> (r: Option<&'a str>)
    ensures
        match r {
            Some(v) => p.first_param(key@) == Some(v@),
            None => p.first_param(key@) is None,
        },
{
    match &p.params {
        None => None,
        Some(params) => {
            let mut i: usize = 0;
            while i < params.len()
                invariant
                    i <= params@.len(),
                    param_index(params@, key@, i as int) == param_index(params@, key@, 0),
                    p.params == Some(*params),
                decreases params@.len() - i,
            {
                if eq_ignoring_case(params[i].0.as_str(), key) {
                    if params[i].1.len() > 0 {
                        return Some(params[i].1[0].as_str());
                    }
                    return None;
                }
                i = i + 1;
            }
            None
        },
    }
}

/// Whether a property stands for a date without a time.
pub fn is_date_only(p: &Property) -> (r: bool)
    ensures
        r == p.date_only(),
{
    match param(p, "VALUE") {
        Some(v) => eq_ignoring_case(v, "DATE"),
        None => false,
    }
}

/// The property as a line.
pub fn property_to_line(p: &Property) -> (r: String)
    ensures
        r@ == p.line(),
{
    let mut out: Vec<char> = chars_of(p.name.as_str());
    let comma: Vec<char> = chars_of(",");
    let ghost name = out@;
    if let Some(params) = &p.params {
        let mut i: usize = 0;
        assert(params@.take(0) =~= Seq::<(String, Vec<String>)>::empty());
        assert(name + Seq::<char>::empty() =~= name);
        while i < params.len()
            invariant
                i <= params@.len(),
                comma@ == ","@,
                out@ == name + param_line(params@.take(i as int)),
            decreases params@.len() - i,
        {
            push_str(&mut out, ";");
            push_str(&mut out, params[i].0.as_str());
            push_str(&mut out, "=");
            let mut values: Vec<Vec<char>> = Vec::new();
            let list: &Vec<String> = &params[i].1;
            let mut k: usize = 0;
            while k < list.len()
                invariant
                    k <= list@.len(),
                    values@.len() == k,
                    forall|j: int| 0 <= j < k ==> (#[trigger] values@[j])@ == list@[j]@,
                decreases list@.len() - k,
            {
                values.push(chars_of(list[k].as_str()));
                k = k + 1;
            }
            assert(rows(values@) =~= texts(list@));
            push_all(&mut out, join(&values, comma.as_slice()).as_slice());
            proof {
                assert(params@.take(i + 1).drop_last() =~= params@.take(i as int));
                assert(params@.take(i + 1).last() == params@[i as int]);
                assert(out@ =~= name + param_line(params@.take(i + 1)));
            }
            i = i + 1;
        }
        assert(params@.take(i as int) =~= params@);
    } else {
        assert(name + Seq::<char>::empty() =~= name);
    }
    push_str(&mut out, ":");
    if let Some(v) = &p.value {
        push_str(&mut out, v.as_str());
    } else {
        assert(out@ + Seq::<char>::empty() =~= out@);
    }
    string_of(out.as_slice())
}

/// Appends the lines of the properties with this name.
fn push_lines(out: &mut Vec<Vec<char>>, event: &Event, name: &str)
    ensures
        rows(final(out)@) == rows(old(out)@) + event.lines(name@),
{
    let list: &Vec<Property> = &event.properties;
    let ghost f = |p: Property|
        if same_ignoring_case(p.name@, name@) {
            Some(p.line())
        } else {
            None
        };
    let ghost before = rows(out@);
    let mut i: usize = 0;
    assert(list@.take(0) =~= Seq::<Property>::empty());
    assert(before + list@.take(0).filter_map(f) =~= before);
    while i < list.len()
        invariant
            i <= list@.len(),
            f == (|p: Property|
                if same_ignoring_case(p.name@, name@) {
                    Some(p.line())
                } else {
                    None
                }),
            rows(out@) == before + list@.take(i as int).filter_map(f),
        decreases list@.len() - i,
    {
        let ghost sofar = rows(out@);
        proof {
            list@.lemma_filter_map_take_succ(f, i as int);
        }
        if eq_ignoring_case(list[i].name.as_str(), name) {
            let line: String = property_to_line(&list[i]);
            out.push(chars_of(line.as_str()));
            assert(rows(out@) =~= sofar + seq![line@]);
            assert(rows(out@) =~= before + list@.take(i + 1).filter_map(f));
        } else {
            assert(list@.take(i as int).filter_map(f) + Seq::<Seq<char>>::empty()
                =~= list@.take(i as int).filter_map(f));
        }
        i = i + 1;
    }
    assert(list@.take(i as int) =~= list@);
}

/// The lines that say when an event recurs, the start first.
pub fn rrule_block(event: &Event) -> (r: String)
    ensures
        r@ == event.rule(),
{
    let mut lines: Vec<Vec<char>> = Vec::new();
    assert(rows(lines@) =~= Seq::<Seq<char>>::empty());
    if let Some(p) = find_prop(event, "DTSTART") {
        let line: String = property_to_line(p);
        lines.push(chars_of(line.as_str()));
        assert(rows(lines@) =~= seq![p.line()]);
    }
    push_lines(&mut lines, event, "RRULE");
    push_lines(&mut lines, event, "RDATE");
    push_lines(&mut lines, event, "EXRULE");
    push_lines(&mut lines, event, "EXDATE");
    let newline: Vec<char> = chars_of("\n");
    string_of(join(&lines, newline.as_slice()).as_slice())
}

/// Whether a line gives dates, and no rule.
fn gives_dates(line: &[char]) -> (r: bool)
    ensures
        r == is_date_line(line@),
{
    stands_at(line, chars_of("DTSTART;").as_slice(), 0) || stands_at(
        line,
        chars_of("DTSTART:").as_slice(),
        0,
    ) || stands_at(line, chars_of("RDATE;").as_slice(), 0) || stands_at(
        line,
        chars_of("RDATE:").as_slice(),
        0,
    ) || stands_at(line, chars_of("EXDATE;").as_slice(), 0) || stands_at(
        line,
        chars_of("EXDATE:").as_slice(),
        0,
    )
}

/// Whether the last two bytes of a text can be cut off it.
fn is_cut(item: &[char]) -> (r: bool)
    ensures
        r == can_cut(item@),
{
    let n: usize = item.len();
    if n == 0 {
        return true;
    }
    let c: char = item[n - 1];
    if c <= '\u{7f}' {
        n == 1 || item[n - 2] <= '\u{7f}'
    } else {
        c <= '\u{7ff}'
    }
}

/// Whether a part of a rule can be read.
fn can_read_part(part: &[char]) -> (r: bool)
    ensures
        r == part_ok(part@),
{
    proof {
        reveal_strlit(",");
        lemma_first_index(part@, seq!['=']);
    }
    match find_char(part, '=') {
        None => true,
        Some(i) => {
            assert(part@.subrange(0, i as int) =~= part@.take(i as int));
            assert(part@.subrange(i + 1, part@.len() as int) =~= part@.skip(i + 1));
            let name: String = string_of(&part[0..i]).to_uppercase();
            assert(name@ == raised(part@.take(i as int)));
            if !same_str(name.as_str(), "BYDAY") && !same_str(name.as_str(), "BYWEEKDAY") {
                return true;
            }
            let comma: Vec<char> = chars_of(",");
            let items: Vec<Vec<char>> = split(&part[i + 1..part.len()], comma.as_slice());
            let ghost all = pieces(part@.skip(i + 1), ","@);
            let mut k: usize = 0;
            while k < items.len()
                invariant
                    k <= items@.len(),
                    first_index(part@, seq!['=']) == Some(i as int),
                    lists_weekdays(part@.take(i as int)),
                    all == pieces(part@.skip(i + 1), ","@),
                    rows(items@) == all,
                    forall|j: int| 0 <= j < k ==> can_cut(#[trigger] all[j]),
                decreases items@.len() - k,
            {
                assert(all[k as int] == items@[k as int]@);
                if !is_cut(items[k].as_slice()) {
                    assert(k < all.len() && !can_cut(pieces(part@.skip(i + 1), ","@)[k as int]));
                    assert(!part_ok(part@));
                    return false;
                }
                k = k + 1;
            }
            assert(all.len() == items@.len());
            true
        },
    }
}

/// Whether a line can be read.
fn can_read_line(line: &[char]) -> (r: bool)
    ensures
        r == line_ok(line@),
{
    if gives_dates(line) {
        return true;
    }
    proof {
        reveal_strlit(";");
        lemma_first_index(line@, seq![':']);
    }
    let from: usize = match find_char(line, ':') {
        Some(i) => i + 1,
        None => 0,
    };
    let rule: &[char] = &line[from..line.len()];
    assert(rule@ =~= rule_text(line@));
    let mark: Vec<char> = chars_of(";");
    let parts: Vec<Vec<char>> = split(rule, mark.as_slice());
    let ghost all = pieces(rule_text(line@), ";"@);
    let mut k: usize = 0;
    while k < parts.len()
        invariant
            k <= parts@.len(),
            !is_date_line(line@),
            all == pieces(rule_text(line@), ";"@),
            rows(parts@) == all,
            forall|j: int| 0 <= j < k ==> part_ok(#[trigger] all[j]),
        decreases parts@.len() - k,
    {
        assert(all[k as int] == parts@[k as int]@);
        if !can_read_part(parts[k].as_slice()) {
            return false;
        }
        k = k + 1;
    }
    assert(all.len() == parts@.len());
    true
}

/// Whether lines can be read for when an event recurs.
pub fn can_read(block: &str) -> (r: bool)
    ensures
        r == is_readable(block@),
{
    let b: Vec<char> = chars_of(block);
    let parts: Vec<Vec<char>> = lines_of(b.as_slice());
    let mut i: usize = 0;
    while i < parts.len()
        invariant
            i <= parts@.len(),
            rows(parts@) == lines(block@),
            forall|k: int| 0 <= k < i ==> line_ok(#[trigger] lines(block@)[k]),
        decreases parts@.len() - i,
    {
        assert(lines(block@)[i as int] == parts@[i as int]@);
        if !can_read_line(parts[i].as_slice()) {
            return false;
        }
        i = i + 1;
    }
    assert(lines(block@).len() == parts@.len());
    true
}

/// The date that a value such as `20260715` stands for.
pub fn parse_ics_date(value: &str) -> (r: Option<Date>)
    ensures
        r == date_read(value@, "%Y%m%d"@),
        r matches Some(d) ==> d.wf(),
        forall|d: Date|
            d.wf() && 0 <= d.year <= 9999 && value@ == crate::date::compact_text(d) ==> r == Some(d),
{
    parse_date_by(value, "%Y%m%d")
}

/// The moment that a property such as `DTSTART` stands for.
pub fn parse_ics_datetime(p: &Property) -> (r: Option<Moment>)
    ensures
        starts_at(*p, r),
        r matches Some(m) ==> m.wf(),
{
    match &p.value {
        None => None,
        Some(value) => {
            let v: Vec<char> = chars_of(value.as_str());
            if v.len() > 0 && v[v.len() - 1] == 'Z' {
                assert(v@.subrange(0, v@.len() - 1) =~= v@.drop_last());
                let stripped: String = string_of(&v.as_slice()[0..v.len() - 1]);
                match parse_naive(stripped.as_str()) {
                    None => None,
                    Some(n) => {
                        let t: (i64, u32) = utc_time(n);
                        Some(at_local(t.0, t.1))
                    },
                }
            } else {
                match parse_naive(value.as_str()) {
                    None => None,
                    Some(n) => match param(p, "TZID") {
                        None => floating_time(n),
                        Some(tzid) => match zoned_time(tzid, n) {
                            None => floating_time(n),
                            Some(None) => None,
                            Some(Some(m)) => Some(m),
                        },
                    },
                }
            }
        },
    }
}

/// The meetings of an event at the given moments, as far as they fall on the day.
pub fn keep_on_day(
    event: &Event,
    all_day: bool,
    calendar: &Option<String>,
    bounds: &Bounds,
    found: &Vec<Moment>,
) -> (r: Vec<Meeting>)
    ensures
        meeting_texts(r@) == kept(*event, all_day, text_of(*calendar), *bounds, found@),
        (forall|i: int| 0 <= i < found@.len() ==> (#[trigger] found@[i]).wf()) ==> meetings_ok(r@),
{
    let summary: String = match prop_value(event, "SUMMARY") {
        Some(s) => s,
        None => "(no title)".to_string(),
    };
    let ghost p = |m: Moment| bounds.holds(m);
    let ghost f = |m: Moment| meeting_at(*event, all_day, text_of(*calendar), m);
    let mut out: Vec<Meeting> = Vec::new();
    let mut i: usize = 0;
    assert(found@.take(0) =~= Seq::<Moment>::empty());
    assert(meeting_texts(out@) =~= found@.take(0).filter(p).map_values(f));
    while i < found.len()
        invariant
            i <= found@.len(),
            summary@ == event.summary(),
            p == (|m: Moment| bounds.holds(m)),
            f == (|m: Moment| meeting_at(*event, all_day, text_of(*calendar), m)),
            meeting_texts(out@) == found@.take(i as int).filter(p).map_values(f),
            (forall|k: int| 0 <= k < found@.len() ==> (#[trigger] found@[k]).wf()) ==> meetings_ok(
                out@,
            ),
        decreases found@.len() - i,
    {
        let ghost sofar = meeting_texts(out@);
        proof {
            assert(found@.take(i + 1) =~= found@.take(i as int).push(found@[i as int]));
            found@.take(i as int).lemma_filter_push(found@[i as int], p);
        }
        let m: Moment = found[i];
        if bounds.contains(&m) {
            out.push(
                Meeting {
                    start: m,
                    all_day,
                    summary: summary.clone(),
                    calendar: crate::transport::places::copy_text(calendar),
                },
            );
            proof {
                let before = found@.take(i as int).filter(p);
                assert(before.push(m).map_values(f) =~= before.map_values(f).push(f(m)));
                assert(meeting_texts(out@) =~= sofar.push(f(m)));
            }
        }
        i = i + 1;
    }
    assert(found@.take(i as int) =~= found@);
    out
}

/// The meetings of an event that fall on the day.
pub fn collect_occurrences(event: &Event, bounds: &Bounds, calendar: &Option<String>) -> (r: Vec<
    Meeting,
>)
    requires
        bounds.wf(),
    ensures
        event_gives(*event, *bounds, text_of(*calendar), meeting_texts(r@)),
        meetings_ok(r@),
{
    let none: Vec<Meeting> = Vec::new();
    assert(meeting_texts(none@).len() == 0);
    let dtstart: &Property = match find_prop(event, "DTSTART") {
        Some(p) => p,
        None => {
            return none;
        },
    };
    let all_day: bool = is_date_only(dtstart);
    if find_prop(event, "RRULE").is_some() {
        let block: String = rrule_block(event);
        if bounds.start.secs <= FIRST_SECOND || !can_read(block.as_str()) {
            return none;
        }
        let after: i64 = bounds.start.secs - 1;
        let found: Option<Vec<Moment>> = occurrences(
            block.as_str(),
            after,
            bounds.end.secs,
            MAX_TIMES,
        );
        assert(recurs(event.rule(), after, bounds.end.secs, found));
        match found {
            None => none,
            Some(v) => keep_on_day(event, all_day, calendar, bounds, &v),
        }
    } else if all_day {
        let date: Option<Date> = match &dtstart.value {
            Some(v) => parse_ics_date(v.as_str()),
            None => None,
        };
        let on_day: bool = match date {
            Some(d) => d == bounds.date,
            None => false,
        };
        if !on_day {
            return none;
        }
        let summary: String = match prop_value(event, "SUMMARY") {
            Some(s) => s,
            None => "(no title)".to_string(),
        };
        let mut out: Vec<Meeting> = Vec::new();
        out.push(
            Meeting {
                start: bounds.start,
                all_day: true,
                summary,
                calendar: crate::transport::places::copy_text(calendar),
            },
        );
        assert(meeting_texts(out@) =~= seq![
            meeting_at(*event, true, text_of(*calendar), bounds.start),
        ]);
        out
    } else {
        let start: Option<Moment> = parse_ics_datetime(dtstart);
        assert(starts_at(*dtstart, start));
        match start {
            None => none,
            Some(m) => {
                let mut one: Vec<Moment> = Vec::new();
                one.push(m);
                assert(one@ =~= seq![m]);
                keep_on_day(event, false, calendar, bounds, &one)
            },
        }
    }
}

/// The meetings of the events that fall on the day, event after event.
pub fn collect_all(feed: &Vec<Vec<Event>>, bounds: &Bounds, calendar: &Option<String>) -> (r: Vec<
    Meeting,
>)
    requires
        bounds.wf(),
    ensures
        events_give(all_events(feed@), *bounds, text_of(*calendar), meeting_texts(r@)),
        meetings_ok(r@),
{
    let mut out: Vec<Meeting> = Vec::new();
    let mut i: usize = 0;
    assert(feed@.take(0) =~= Seq::<Vec<Event>>::empty());
    assert(meeting_texts(out@).len() == 0);
    while i < feed.len()
        invariant
            i <= feed@.len(),
            bounds.wf(),
            events_give(
                all_events(feed@.take(i as int)),
                *bounds,
                text_of(*calendar),
                meeting_texts(out@),
            ),
            meetings_ok(out@),
        decreases feed@.len() - i,
    {
        let events: &Vec<Event> = &feed[i];
        let ghost before = all_events(feed@.take(i as int));
        let mut k: usize = 0;
        assert(before + events@.take(0) =~= before);
        while k < events.len()
            invariant
                k <= events@.len(),
                bounds.wf(),
                events_give(
                    before + events@.take(k as int),
                    *bounds,
                    text_of(*calendar),
                    meeting_texts(out@),
                ),
                meetings_ok(out@),
            decreases events@.len() - k,
        {
            let ghost sofar = meeting_texts(out@);
            let mut more: Vec<Meeting> = collect_occurrences(&events[k], bounds, calendar);
            let ghost added = meeting_texts(more@);
            out.append(&mut more);
            proof {
                let next = before + events@.take(k + 1);
                assert(next.drop_last() =~= before + events@.take(k as int));
                assert(next.last() == events@[k as int]);
                assert(meeting_texts(out@) =~= sofar + added);
                assert(event_added(
                    events@[k as int],
                    *bounds,
                    text_of(*calendar),
                    sofar,
                    meeting_texts(out@),
                ));
            }
            k = k + 1;
        }
        proof {
            assert(events@.take(k as int) =~= events@);
            assert(feed@.take(i + 1).drop_last() =~= feed@.take(i as int));
            assert(feed@.take(i + 1).last() == *events);
        }
        i = i + 1;
    }
    assert(feed@.take(i as int) =~= feed@);
    out
}

/// The meetings are those of the events on the day, by start.
pub open spec fn day_meetings(
    feed: Seq<Vec<Event>>,
    bounds: Bounds,
    calendar: Option<Seq<char>>,
    meetings: Seq<Meeting>,
) -> bool {
    exists|all: Seq<Meeting>|
        meetings == #[trigger] sorted(all) && events_give(
            all_events(feed),
            bounds,
            calendar,
            meeting_texts(all),
        )
}

/// The meetings of the events on the day, by start.
pub fn meetings_of(feed: &Vec<Vec<Event>>, bounds: &Bounds, calendar: &Option<String>) -> (r: Vec<
    Meeting,
>)
    requires
        bounds.wf(),
    ensures
        day_meetings(feed@, *bounds, text_of(*calendar), r@),
        meetings_ok(r@),
{
    let all: Vec<Meeting> = collect_all(feed, bounds, calendar);
    let ghost gathered = all@;
    let r: Vec<Meeting> = sort(all);
    proof {
        lemma_sorted_ok(gathered);
    }
    assert(r@ == sorted(gathered));
    r
}

/// The text is that of a feed with these meetings on the day.
pub open spec fn feed_holds(
    ics: Seq<char>,
    date: Date,
    feed: Seq<Vec<Event>>,
    bounds: Bounds,
    calendar: Option<Seq<char>>,
    meetings: Seq<Meeting>,
) -> bool {
    &&& feed_read(ics) == Some(feed_texts(feed))
    &&& bounds_of(bounds, date)
    &&& day_meetings(feed, bounds, calendar, meetings)
}

/// The text is that of some feed with these meetings on the day.
pub open spec fn is_feed(
    ics: Seq<char>,
    date: Date,
    calendar: Option<Seq<char>>,
    meetings: Seq<Meeting>,
) -> bool {
    exists|feed: Seq<Vec<Event>>, bounds: Bounds| #[trigger]
        feed_holds(ics, date, feed, bounds, calendar, meetings)
}

/// What a feed comes to on a day: its meetings by start, or why there are none.
pub open spec fn feed_meetings<E>(
    ics: Seq<char>,
    date: Date,
    calendar: Option<Seq<char>>,
    r: Result<Vec<Meeting>, CalendarError<E>>,
) -> bool {
    match r {
        Ok(meetings) => is_feed(ics, date, calendar, meetings@),
        Err(CalendarError::NoMidnight(d)) => d == date && unbounded(date),
        Err(CalendarError::Feed(_)) => feed_read(ics) is None,
        Err(CalendarError::Outside(_)) => false,
    }
}

/// The meetings of a feed that fall on `date` by the local clock.
pub fn parse_meetings<E>(ics: &str, date: Date, calendar: &Option<String>) -> (r: Result<
    Vec<Meeting>,
    CalendarError<E>,
>)
    requires
        date.wf(),
    ensures
        feed_meetings(ics@, date, text_of(*calendar), r),
        read_ok(r),
{
    let bounds: Bounds = match day_bounds(date) {
        Some(b) => b,
        None => {
            return Err(CalendarError::NoMidnight(date));
        },
    };
    match read_feed(ics) {
        Err(e) => Err(CalendarError::Feed(e)),
        Ok(feed) => {
            let meetings: Vec<Meeting> = meetings_of(&feed, &bounds, calendar);
            assert(feed_holds(ics@, date, feed@, bounds, text_of(*calendar), meetings@));
            assert(is_feed(ics@, date, text_of(*calendar), meetings@));
            Ok(meetings)
        },
    }
}

} // verus!
