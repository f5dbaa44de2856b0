//! Reading calendars for the meetings of a day.
//!
//! There are two sorts of source: an iCalendar feed, which is read here, and the
//! Google Calendar service, which gives the events of the day as they are.

use std::collections::hash_map::DefaultHasher;
use std::hash::{Hash, Hasher};
use vstd::arithmetic::power::pow;
use vstd::prelude::*;
use vstd::std_specs::hash::DefaultHasherAdditionalSpecFns;

use crate::cache::{cached, called_through, kept, law_given_is_asked_for_or_kept, Cache, Reason};
use crate::calendar::google::{events_meetings, parse_google_events, GoogleEvents};
use crate::calendar::ics::{feed_meetings, parse_meetings};
use crate::date::{
    compact_text, format_date, format_time, iso_text, last_day, law_date_texts_tell_dates_apart, lemma_date_range, local_midnight,
    plus_days, timestamp_ok, Date, Moment, Time,
};
use crate::order::{ascending, lemma_sorted, sort, sorted, Ordered};
use crate::sequences::{lemma_flattened, lemma_flattened_push, ok_lists, total_len};
use crate::text::{
    begins_with, chars_of, digit_char, digit_value, ends_with, number, pad_right, padded_right, push_str, string_of,
    text_of, two_digits,
};
use crate::transport::{gives, plain_replies, takes_any};

pub mod google;
pub mod ics;

verus! {

/// A calendar to read from.
#[derive(Debug, Clone)]
pub enum CalendarSource {
    /// An iCalendar feed.
    Ics(IcsSource),
    /// The Google Calendar service, by way of a service account.
    ServiceAccount(ServiceAccountSource),
}

/// An iCalendar feed.
#[derive(Debug, Clone)]
pub struct IcsSource {
    /// The name shown next to its meetings.
    pub name: Option<String>,
    /// The secret address of the feed.
    pub ics_url: String,
}

/// A calendar of the Google Calendar service.
#[derive(Debug, Clone)]
pub struct ServiceAccountSource {
    /// The name shown next to its meetings.
    pub name: Option<String>,
    /// The calendar to read.
    pub calendar_id: String,
    /// The path of the service account's key file.
    pub key_file: String,
}

/// A meeting on the day.
#[derive(Debug)]
pub struct Meeting {
    /// When it starts.
    pub start: Moment,
    /// Whether it takes the whole day.
    pub all_day: bool,
    /// What it is called.
    pub summary: String,
    /// The name of its calendar, where the calendar has one.
    pub calendar: Option<String>,
}

/// A day: its date, when it begins, and when the next one does.
#[derive(Debug, Clone, Copy)]
pub struct Bounds {
    /// The date.
    pub date: Date,
    /// The beginning.
    pub start: Moment,
    /// The beginning of the next day.
    pub end: Moment,
}

/// Why a calendar could not be read.
#[derive(Debug)]
pub enum CalendarError<E> {
    /// The local clock shows no midnight on this date or the next, or none on the
    /// next that comes later, or there is no next date.
    NoMidnight(Date),
    /// The feed cannot be read; what was wrong with it.
    Feed(String),
    /// What was asked for could not be had or read.
    Outside(E),
}

// --- Models ------------------------------------------------------------------

/// A meeting as texts.
#[verifier::ext_equal]
pub struct MeetingText {
    /// When it starts.
    pub start: Moment,
    /// Whether it takes the whole day.
    pub all_day: bool,
    /// What it is called.
    pub summary: Seq<char>,
    /// The name of its calendar.
    pub calendar: Option<Seq<char>>,
}

impl Meeting {
    /// The meeting as texts.
    pub open spec fn text(self) -> MeetingText {
        MeetingText {
            start: self.start,
            all_day: self.all_day,
            summary: self.summary@,
            calendar: text_of(self.calendar),
        }
    }

    /// The line that shows the meeting: the time in seven columns, the summary,
    /// and the name of the calendar in brackets.
    pub open spec fn shown(self) -> Seq<char> {
        let time = if self.all_day {
            "all day"@
        } else {
            two_digits(self.start.hour as int) + ":"@ + two_digits(self.start.minute as int)
        };
        padded_right(time, 7) + "  "@ + self.summary@ + (match self.calendar {
            Some(name) => "  ("@ + name@ + ")"@,
            None => Seq::empty(),
        })
    }
}

/// Meetings as texts.
pub open spec fn meeting_texts(meetings: Seq<Meeting>) -> Seq<MeetingText> {
    meetings.map_values(|m: Meeting| m.text())
}

/// A clock can show the start of every meeting.
pub open spec fn meetings_ok(meetings: Seq<Meeting>) -> bool {
    forall|i: int| 0 <= i < meetings.len() ==> (#[trigger] meetings[i]).start.wf()
}

/// What was read are meetings that a clock can show.
pub open spec fn read_ok<E>(r: Result<Vec<Meeting>, CalendarError<E>>) -> bool {
    r matches Ok(meetings) ==> meetings_ok(meetings@)
}

/// Sorting keeps the meetings, and so that a clock can show them.
pub(crate) proof fn lemma_sorted_ok(meetings: Seq<Meeting>)
    requires
        meetings_ok(meetings),
    ensures
        meetings_ok(sorted(meetings)),
{
    let s = sorted(meetings);
    assert forall|i: int| 0 <= i < s.len() implies (#[trigger] s[i]).start.wf() by {
        assert(s.contains(s[i]));
        crate::order::lemma_sorted_contains(meetings, s[i]);
        let k = choose|k: int| 0 <= k < meetings.len() && meetings[k] == s[i];
        assert(meetings[k].start.wf());
    }
}

impl Ordered for Meeting {
    open spec fn at_most(self, other: Meeting) -> bool {
        self.start.no_later_than(other.start)
    }

    proof fn total(a: Meeting, b: Meeting) {
    }

    proof fn transitive(a: Meeting, b: Meeting, c: Meeting) {
    }

    fn ranks_at_most(&self, other: &Meeting) -> (r: bool) {
        self.start.secs < other.start.secs || (self.start.secs == other.start.secs
            && self.start.nanos <= other.start.nanos)
    }
}

impl Bounds {
    /// The moment falls on the day.
    pub open spec fn holds(self, m: Moment) -> bool {
        self.start.no_later_than(m) && !self.end.no_later_than(m)
    }

    /// The day and the one after it begin at moments that a clock can show, one
    /// after the other.
    pub open spec fn wf(self) -> bool {
        &&& self.date.wf()
        &&& self.start.wf() && self.start.nanos == 0
        &&& self.end.wf() && self.end.nanos == 0
        &&& timestamp_ok(self.start.secs as int, 0)
        &&& timestamp_ok(self.end.secs as int, 0)
        &&& self.start.secs < self.end.secs
    }
}

impl CalendarSource {
    /// What the calendar goes by: its name, or else its address or its id.
    pub open spec fn shown(self) -> Seq<char> {
        match self {
            CalendarSource::Ics(s) => match s.name {
                Some(n) => n@,
                None => s.ics_url@,
            },
            CalendarSource::ServiceAccount(s) => match s.name {
                Some(n) => n@,
                None => s.calendar_id@,
            },
        }
    }
}

// --- Functions ----------------------------------------------------------------

impl Bounds {
    /// Whether the moment falls on the day.
    pub fn contains(&self, m: &Moment) -> (r: bool)
        ensures
            r == self.holds(*m),
    {
        (self.start.secs < m.secs || (self.start.secs == m.secs && self.start.nanos <= m.nanos))
            && !(self.end.secs < m.secs || (self.end.secs == m.secs && self.end.nanos <= m.nanos))
    }
}

impl CalendarSource {
    /// What the calendar goes by: its name, or else its address or its id.
    pub fn label(&self) -> (r: &str)
        ensures
            r@ == self.shown(),
    {
        match self {
            CalendarSource::Ics(s) => match &s.name {
                Some(n) => n.as_str(),
                None => s.ics_url.as_str(),
            },
            CalendarSource::ServiceAccount(s) => match &s.name {
                Some(n) => n.as_str(),
                None => s.calendar_id.as_str(),
            },
        }
    }
}

impl Meeting {
    /// The line that shows the meeting, such as `09:30    Standup  (Work)`.
    pub fn line(&self) -> (r: String)
        requires
            self.start.wf(),
        ensures
            r@ == self.shown(),
    {
        let time: String = if self.all_day {
            "all day".to_string()
        } else {
            format_time(Time { hour: self.start.hour, minute: self.start.minute })
        };
        let t: Vec<char> = chars_of(time.as_str());
        let mut out: Vec<char> = pad_right(t.as_slice(), 7);
        push_str(&mut out, "  ");
        push_str(&mut out, self.summary.as_str());
        match &self.calendar {
            Some(name) => {
                let mut tail: Vec<char> = chars_of("  (");
                push_str(&mut tail, name.as_str());
                push_str(&mut tail, ")");
                crate::text::push_all(&mut out, tail.as_slice());
            },
            None => {
                assert(out@ + Seq::<char>::empty() =~= out@);
            },
        }
        string_of(out.as_slice())
    }
}

/// The local clock shows midnight of this date at this moment, as far as the
/// machine's time zone goes.
pub closed spec fn begins(date: Date, r: Option<Moment>) -> bool {
    call_ensures(local_midnight, (date,), r)
}

/// The beginning of a date by the local clock, if there is one.
pub fn day_start(date: Date) -> (r: Option<Moment>)
    requires
        date.wf(),
    ensures
        begins(date, r),
        r matches Some(m) ==> m.wf() && m.nanos == 0 && m.hour == 0 && m.minute == 0
            && timestamp_ok(m.secs as int, 0) && -86400 < m.secs - (date.number() - 719163) * 86400
            < 86400,
{
    local_midnight(date)
}

/// The local clock shows midnight of the two dates in the wrong order.
pub open spec fn out_of_order(date: Date, next: Date) -> bool {
    exists|start: Moment, end: Moment| #[trigger]
        begins(date, Some(start)) && #[trigger] begins(next, Some(end)) && end.secs <= start.secs
}

/// The day has no bounds: the clocks show no midnight on it or on the next day, or
/// show the two in the wrong order, or it is the last day that there is.
pub open spec fn unbounded(date: Date) -> bool {
    ||| date.number() == last_day()
    ||| begins(date, None)
    ||| exists|next: Date|
        next.wf() && next.number() == date.number() + 1 && (#[trigger] begins(next, None)
            || out_of_order(date, next))
}

/// These are bounds of a day: its own midnight and that of the next day.
pub open spec fn bounds_of(b: Bounds, date: Date) -> bool {
    &&& b.wf()
    &&& b.date == date
    &&& begins(date, Some(b.start))
    &&& exists|next: Date|
        next.wf() && next.number() == date.number() + 1 && #[trigger] begins(next, Some(b.end))
}

/// The bounds of a day: its own midnight and that of the next day. There are none
/// where the clocks show no midnight on one of the two, or show the two in the
/// wrong order, or where the date is the last one.
pub fn day_bounds(date: Date) -> (r: Option<Bounds>)
    requires
        date.wf(),
    ensures
        r matches Some(b) ==> bounds_of(b, date),
        r is None ==> unbounded(date),
{
    match plus_days(date, 1) {
        None => {
            proof {
                lemma_date_range(date);
            }
            None
        },
        Some(next) => match day_start(date) {
            None => None,
            Some(start) => match day_start(next) {
                None => None,
                Some(end) => if start.secs < end.secs {
                    Some(Bounds { date, start, end })
                } else {
                    assert(out_of_order(date, next));
                    assert(next.wf() && next.number() == date.number() + 1 && (begins(next, None)
                        || out_of_order(date, next)));
                    None
                },
            },
        },
    }
}

/// What `str::hash` writes to a hasher for a text, write by write.
pub uninterp spec fn hash_writes(text: Seq<char>) -> Seq<Seq<u8>>;

/// `str::hash`: writes a text to a hasher. What it writes depends on the text alone.
#[verifier::external_body]
fn write_text(text: &str, hasher: &mut DefaultHasher)
    ensures
        final(hasher)@ == old(hasher)@ + hash_writes(text@),
{
    text.hash(hasher)
}

/// The secret address of a feed stands in keys by this number: what a new
/// `DefaultHasher` makes of it.
pub open spec fn url_digest(url: Seq<char>) -> u64 {
    DefaultHasher::spec_finish(hash_writes(url))
}

/// The digest of a text.
fn digest(url: &str) -> (r: u64)
    ensures
        r == url_digest(url@),
{
    let mut hasher: DefaultHasher = DefaultHasher::new();
    write_text(url, &mut hasher);
    assert(hasher@ =~= hash_writes(url@));
    hasher.finish()
}

/// The character of a hexadecimal digit.
pub open spec fn hex_char(d: int) -> char {
    if d < 10 {
        (d + 48) as char
    } else {
        (d + 87) as char
    }
}

/// The last `n` hexadecimal digits of a number, with leading zeros.
pub open spec fn hex_digits(v: nat, n: nat) -> Seq<char>
    decreases n,
{
    if n == 0 {
        Seq::empty()
    } else {
        hex_digits(v / 16, (n - 1) as nat).push(hex_char((v % 16) as int))
    }
}

/// Every hexadecimal digit is one.
pub open spec fn is_hex(c: char) -> bool {
    '0' <= c <= '9' || 'a' <= c <= 'f'
}

/// The key of a feed is sixteen hexadecimal digits, whatever its address.
pub proof fn law_hex_digits(v: nat, n: nat)
    ensures
        hex_digits(v, n).len() == n,
        forall|i: int| 0 <= i < n ==> is_hex(#[trigger] hex_digits(v, n)[i]),
    decreases n,
{
    if n > 0 {
        law_hex_digits(v / 16, (n - 1) as nat);
    }
}

fn hex_at(d: u64) -> (c: char)
    requires
        d < 16,
    ensures
        c == hex_char(d as int),
{
    if d < 10 {
        ((d as u8) + 48u8) as char
    } else {
        ((d as u8) + 87u8) as char
    }
}

fn push_hex(out: &mut Vec<char>, v: u64, n: usize)
    ensures
        final(out)@ == old(out)@ + hex_digits(v as nat, n as nat),
    decreases n,
{
    if n > 0 {
        push_hex(out, v / 16, n - 1);
        out.push(hex_at(v % 16));
        assert(out@ =~= old(out)@ + hex_digits(v as nat, n as nat));
    } else {
        assert(old(out)@ + Seq::<char>::empty() =~= old(out)@);
    }
}

/// An identifier for the secret address of a feed, for keys: the address itself
/// is never written down.
pub fn url_hash(url: &str) -> (r: String)
    ensures
        r@ == hex_digits(url_digest(url@) as nat, 16),
        r@.len() == 16,
{
    let mut out: Vec<char> = Vec::new();
    push_hex(&mut out, digest(url), 16);
    proof {
        law_hex_digits(url_digest(url@) as nat, 16);
        assert(out@ =~= hex_digits(url_digest(url@) as nat, 16));
    }
    string_of(out.as_slice())
}

/// The key under which the feed of a day is kept.
pub open spec fn ics_key(url: Seq<char>, date: Date) -> Seq<char> {
    hex_digits(url_digest(url) as nat, 16) + "|"@ + compact_text(date)
}

/// The key under which the events of a day are kept.
pub open spec fn google_key(calendar_id: Seq<char>, date: Date) -> Seq<char> {
    "gcal|"@ + calendar_id + "|"@ + compact_text(date)
}

/// The function may be called for this calendar and day.
pub open spec fn takes_day<T, F: Fn(&ServiceAccountSource, Date) -> T>(
    f: F,
    s: ServiceAccountSource,
    date: Date,
) -> bool {
    f.requires((&s, date))
}

/// The replies on a day of a calendar that can be had.
pub open spec fn day_replies<E, F: Fn(&ServiceAccountSource, Date) -> Result<String, E>>(
    f: F,
    s: ServiceAccountSource,
    date: Date,
) -> spec_fn(Result<String, E>) -> bool {
    |outcome: Result<String, E>| f.ensures((&s, date), outcome)
}

/// What was had of a feed is read.
pub open spec fn feed_taken<E>(
    given: Result<String, E>,
    date: Date,
    calendar: Option<Seq<char>>,
    r: Result<Vec<Meeting>, CalendarError<E>>,
) -> bool {
    match given {
        Err(e) => r == Err::<Vec<Meeting>, CalendarError<E>>(CalendarError::Outside(e)),
        Ok(body) => feed_meetings(body@, date, calendar, r),
    }
}

/// What was had of the events of a day is read.
pub open spec fn events_taken<E, R: Fn(&str) -> Result<GoogleEvents, E>>(
    read: R,
    given: Result<String, E>,
    calendar: Option<Seq<char>>,
    r: Result<Vec<Meeting>, CalendarError<E>>,
) -> bool {
    match given {
        Err(e) => r == Err::<Vec<Meeting>, CalendarError<E>>(CalendarError::Outside(e)),
        Ok(body) => exists|reply: Result<GoogleEvents, E>| #[trigger]
            gives(read, body@, reply) && events_meetings(reply, calendar, r),
    }
}

/// A calendar was read, and `r` is what came of it.
pub open spec fn source_read<
    E: Reason,
    F: Fn(&str) -> Result<String, E>,
    G: Fn(&ServiceAccountSource, Date) -> Result<String, E>,
    R: Fn(&str) -> Result<GoogleEvents, E>,
>(
    before: Option<Cache>,
    cache: Option<Cache>,
    source: CalendarSource,
    date: Date,
    fetch_ics: F,
    fetch_google: G,
    read_events: R,
    r: Result<Vec<Meeting>, CalendarError<E>>,
) -> bool {
    match source {
        CalendarSource::Ics(s) => exists|given: Result<String, E>|
            called_through(
                before,
                cache,
                "calendar"@,
                ics_key(s.ics_url@, date),
                Some(date),
                false,
                plain_replies(fetch_ics, s.ics_url@),
                given,
            ) && #[trigger] feed_taken(given, date, text_of(s.name), r),
        CalendarSource::ServiceAccount(s) => exists|given: Result<String, E>|
            called_through(
                before,
                cache,
                "calendar"@,
                google_key(s.calendar_id@, date),
                Some(date),
                false,
                day_replies(fetch_google, s, date),
                given,
            ) && #[trigger] events_taken(read_events, given, text_of(s.name), r),
    }
}

/// The calendars can be asked for on this day.
pub open spec fn takes_sources<E, G: Fn(&ServiceAccountSource, Date) -> Result<String, E>>(
    fetch_google: G,
    sources: Seq<CalendarSource>,
    date: Date,
) -> bool {
    forall|i: int|
        0 <= i < sources.len() ==> ((#[trigger] sources[i]) matches CalendarSource::ServiceAccount(s)
            ==> takes_day(fetch_google, s, date))
}

/// Reads a calendar. The feed or the events of a day are kept by calendar and
/// date, so that past days and days without a connection are served.
pub fn read_source<
    E: Reason,
    F: Fn(&str) -> Result<String, E>,
    G: Fn(&ServiceAccountSource, Date) -> Result<String, E>,
    R: Fn(&str) -> Result<GoogleEvents, E>,
>(
    source: &CalendarSource,
    date: Date,
    cache: &mut Option<Cache>,
    fetch_ics: &F,
    fetch_google: &G,
    read_events: &R,
) -> (r: Result<Vec<Meeting>, CalendarError<E>>)
    requires
        date.wf(),
        takes_any(*fetch_ics),
        takes_any(*read_events),
        *source matches CalendarSource::ServiceAccount(s) ==> takes_day(*fetch_google, s, date),
    ensures
        source_read(
            *old(cache),
            *final(cache),
            *source,
            date,
            *fetch_ics,
            *fetch_google,
            *read_events,
            r,
        ),
        read_ok(r),
{
    let day: String = format_date(date, "%Y%m%d");
    match source {
        CalendarSource::Ics(s) => {
            let mut key: Vec<char> = chars_of(url_hash(s.ics_url.as_str()).as_str());
            push_str(&mut key, "|");
            push_str(&mut key, day.as_str());
            let key_text: String = string_of(key.as_slice());
            let url: &str = s.ics_url.as_str();
            let call = || -> (outcome: Result<String, E>)
                requires
                    takes_any(*fetch_ics),
                ensures
                    gives(*fetch_ics, url@, outcome),
            { fetch_ics(url) };
            let given: Result<String, E> = cached(
                cache,
                "calendar",
                key_text.as_str(),
                Some(date),
                false,
                call,
            );
            let ghost came = given;
            let r: Result<Vec<Meeting>, CalendarError<E>> = match given {
                Err(e) => Err(CalendarError::Outside(e)),
                Ok(body) => parse_meetings(body.as_str(), date, &s.name),
            };
            assert(feed_taken(came, date, text_of(s.name), r));
            r
        },
        CalendarSource::ServiceAccount(s) => {
            let mut key: Vec<char> = chars_of("gcal|");
            push_str(&mut key, s.calendar_id.as_str());
            push_str(&mut key, "|");
            push_str(&mut key, day.as_str());
            let key_text: String = string_of(key.as_slice());
            let call = || -> (outcome: Result<String, E>)
                requires
                    fetch_google.requires((s, date)),
                ensures
                    fetch_google.ensures((s, date), outcome),
            { fetch_google(s, date) };
            let given: Result<String, E> = cached(
                cache,
                "calendar",
                key_text.as_str(),
                Some(date),
                false,
                call,
            );
            let ghost came = given;
            let r: Result<Vec<Meeting>, CalendarError<E>> = match given {
                Err(e) => Err(CalendarError::Outside(e)),
                Ok(body) => parse_google_events(body.as_str(), read_events, &s.name),
            };
            assert(events_taken(*read_events, came, text_of(s.name), r));
            r
        },
    }
}

/// One more calendar was read: its meetings, or its failure, are added.
pub open spec fn source_added<
    E: Reason,
    F: Fn(&str) -> Result<String, E>,
    G: Fn(&ServiceAccountSource, Date) -> Result<String, E>,
    R: Fn(&str) -> Result<GoogleEvents, E>,
>(
    before: Option<Cache>,
    cache: Option<Cache>,
    source: CalendarSource,
    date: Date,
    fetch_ics: F,
    fetch_google: G,
    read_events: R,
    sofar: (Seq<Meeting>, Seq<(String, CalendarError<E>)>),
    now: (Seq<Meeting>, Seq<(String, CalendarError<E>)>),
) -> bool {
    exists|found: Result<Vec<Meeting>, CalendarError<E>>| #[trigger]
        source_read(
            before,
            cache,
            source,
            date,
            fetch_ics,
            fetch_google,
            read_events,
            found,
        ) && (match found {
            Ok(more) => now.0 == sofar.0 + more@ && now.1 == sofar.1,
            Err(e) => now.0 == sofar.0 && now.1.len() == sofar.1.len() + 1 && now.1.drop_last()
                == sofar.1 && now.1.last().0@ == source.shown() && now.1.last().1 == e,
        })
}

/// The calendars were read one after the other.
pub open spec fn sources_read<
    E: Reason,
    F: Fn(&str) -> Result<String, E>,
    G: Fn(&ServiceAccountSource, Date) -> Result<String, E>,
    R: Fn(&str) -> Result<GoogleEvents, E>,
>(
    before: Option<Cache>,
    cache: Option<Cache>,
    sources: Seq<CalendarSource>,
    date: Date,
    fetch_ics: F,
    fetch_google: G,
    read_events: R,
    all: (Seq<Meeting>, Seq<(String, CalendarError<E>)>),
) -> bool
    decreases sources.len(),
{
    if sources.len() == 0 {
        all.0.len() == 0 && all.1.len() == 0 && cache == before
    } else {
        exists|middle: Option<Cache>, sofar: (Seq<Meeting>, Seq<(String, CalendarError<E>)>)|
            sources_read(
                before,
                middle,
                sources.drop_last(),
                date,
                fetch_ics,
                fetch_google,
                read_events,
                sofar,
            ) && #[trigger] source_added(
                middle,
                cache,
                sources.last(),
                date,
                fetch_ics,
                fetch_google,
                read_events,
                sofar,
                all,
            )
    }
}

/// Calendars were read one after the other, each with the cache that the one before
/// it left, and `found` is what came of each.
pub open spec fn calendars_read<
    E: Reason,
    F: Fn(&str) -> Result<String, E>,
    G: Fn(&ServiceAccountSource, Date) -> Result<String, E>,
    R: Fn(&str) -> Result<GoogleEvents, E>,
>(
    caches: Seq<Option<Cache>>,
    sources: Seq<CalendarSource>,
    date: Date,
    fetch_ics: F,
    fetch_google: G,
    read_events: R,
    found: Seq<Result<Vec<Meeting>, CalendarError<E>>>,
) -> bool {
    &&& caches.len() == sources.len() + 1
    &&& found.len() == sources.len()
    &&& forall|k: int|
        0 <= k < sources.len() ==> source_read(
            caches[k],
            caches[k + 1],
            sources[k],
            date,
            fetch_ics,
            fetch_google,
            read_events,
            #[trigger] found[k],
        )
}

/// No calendar is lost: each is read for the day, in order, and the meetings are
/// those of the calendars that could be read, one after the other. Each that could
/// not is among the failures, under its name, or its address or id where it has
/// none, with the reason.
pub proof fn law_no_calendar_is_lost<
    E: Reason,
    F: Fn(&str) -> Result<String, E>,
    G: Fn(&ServiceAccountSource, Date) -> Result<String, E>,
    R: Fn(&str) -> Result<GoogleEvents, E>,
>(
    before: Option<Cache>,
    cache: Option<Cache>,
    sources: Seq<CalendarSource>,
    date: Date,
    fetch_ics: F,
    fetch_google: G,
    read_events: R,
    all: (Seq<Meeting>, Seq<(String, CalendarError<E>)>),
)
    requires
        sources_read(before, cache, sources, date, fetch_ics, fetch_google, read_events, all),
    ensures
        exists|caches: Seq<Option<Cache>>, found: Seq<Result<Vec<Meeting>, CalendarError<E>>>|
            {
                &&& #[trigger] calendars_read(
                    caches,
                    sources,
                    date,
                    fetch_ics,
                    fetch_google,
                    read_events,
                    found,
                )
                &&& caches[0] == before && caches.last() == cache
                &&& all.0 == ok_lists(found).flatten_alt()
                &&& all.0.len() == total_len(ok_lists(found))
                &&& forall|k: int, j: int|
                    0 <= k < sources.len() && found[k] is Ok && 0 <= j < found[k]->Ok_0@.len()
                        ==> all.0.contains(#[trigger] found[k]->Ok_0@[j])
                &&& all.1.len() == found.filter(
                    |r: Result<Vec<Meeting>, CalendarError<E>>| r is Err,
                ).len()
                &&& forall|k: int|
                    0 <= k < sources.len() && (#[trigger] found[k]) is Err ==> exists|n: int|
                        0 <= n < all.1.len() && (#[trigger] all.1[n]).1 == found[k]->Err_0 && (
                        match sources[k] {
                            CalendarSource::Ics(s) => all.1[n].0@ == (if s.name is Some {
                                s.name->0@
                            } else {
                                s.ics_url@
                            }),
                            CalendarSource::ServiceAccount(s) => all.1[n].0@ == (if s.name is Some {
                                s.name->0@
                            } else {
                                s.calendar_id@
                            }),
                        })
            },
    decreases sources.len(),
{
    let failed = |r: Result<Vec<Meeting>, CalendarError<E>>| r is Err;
    if sources.len() == 0 {
        let caches = seq![before];
        let found = Seq::<Result<Vec<Meeting>, CalendarError<E>>>::empty();
        assert(calendars_read(
            caches,
            sources,
            date,
            fetch_ics,
            fetch_google,
            read_events,
            found,
        ));
        assert(ok_lists(found) =~= Seq::empty());
        assert(all.0 =~= ok_lists(found).flatten_alt());
        reveal(Seq::filter);
    } else {
        let init = sources.drop_last();
        let (middle, sofar) = choose|
            middle: Option<Cache>,
            sofar: (Seq<Meeting>, Seq<(String, CalendarError<E>)>),
        |
            sources_read(
                before,
                middle,
                sources.drop_last(),
                date,
                fetch_ics,
                fetch_google,
                read_events,
                sofar,
            ) && #[trigger] source_added(
                middle,
                cache,
                sources.last(),
                date,
                fetch_ics,
                fetch_google,
                read_events,
                sofar,
                all,
            );
        let last = choose|found: Result<Vec<Meeting>, CalendarError<E>>| #[trigger]
            source_read(
                middle,
                cache,
                sources.last(),
                date,
                fetch_ics,
                fetch_google,
                read_events,
                found,
            ) && (match found {
                Ok(more) => all.0 == sofar.0 + more@ && all.1 == sofar.1,
                Err(e) => all.0 == sofar.0 && all.1.len() == sofar.1.len() + 1 && all.1.drop_last()
                    == sofar.1 && all.1.last().0@ == sources.last().shown() && all.1.last().1 == e,
            });
        law_no_calendar_is_lost(
            before,
            middle,
            init,
            date,
            fetch_ics,
            fetch_google,
            read_events,
            sofar,
        );
        let (cs, fs) = choose|
            caches: Seq<Option<Cache>>,
            found: Seq<Result<Vec<Meeting>, CalendarError<E>>>,
        |
            {
                &&& #[trigger] calendars_read(
                    caches,
                    init,
                    date,
                    fetch_ics,
                    fetch_google,
                    read_events,
                    found,
                )
                &&& caches[0] == before && caches.last() == middle
                &&& sofar.0 == ok_lists(found).flatten_alt()
                &&& sofar.1.len() == found.filter(
                    |r: Result<Vec<Meeting>, CalendarError<E>>| r is Err,
                ).len()
                &&& forall|k: int|
                    0 <= k < init.len() && (#[trigger] found[k]) is Err ==> exists|n: int|
                        0 <= n < sofar.1.len() && (#[trigger] sofar.1[n]).1 == found[k]->Err_0 && (
                        match init[k] {
                            CalendarSource::Ics(s) => sofar.1[n].0@ == (if s.name is Some {
                                s.name->0@
                            } else {
                                s.ics_url@
                            }),
                            CalendarSource::ServiceAccount(s) => sofar.1[n].0@ == (if s.name is Some {
                                s.name->0@
                            } else {
                                s.calendar_id@
                            }),
                        })
            };
        let caches = cs.push(cache);
        let found = fs.push(last);
        assert forall|k: int| 0 <= k < sources.len() implies source_read(
            caches[k],
            caches[k + 1],
            sources[k],
            date,
            fetch_ics,
            fetch_google,
            read_events,
            #[trigger] found[k],
        ) by {
            if k < init.len() {
                assert(found[k] == fs[k] && init[k] == sources[k]);
                assert(caches[k] == cs[k] && caches[k + 1] == cs[k + 1]);
            } else {
                assert(caches[k] == cs.last());
            }
        }
        assert(calendars_read(
            caches,
            sources,
            date,
            fetch_ics,
            fetch_google,
            read_events,
            found,
        ));
        lemma_flattened_push(fs, last);
        assert(all.0 =~= ok_lists(found).flatten_alt());
        lemma_flattened(ok_lists(found));
        assert forall|k: int, j: int|
            0 <= k < sources.len() && found[k] is Ok && 0 <= j < found[k]->Ok_0@.len() implies all.0.contains(
            #[trigger] found[k]->Ok_0@[j],
        ) by {
            assert(ok_lists(found)[k][j] == found[k]->Ok_0@[j]);
        }
        fs.lemma_filter_push(last, failed);
        assert forall|k: int| 0 <= k < sources.len() && (#[trigger] found[k]) is Err implies exists|
            n: int,
        |
            0 <= n < all.1.len() && (#[trigger] all.1[n]).1 == found[k]->Err_0 && (match sources[k] {
                CalendarSource::Ics(s) => all.1[n].0@ == (if s.name is Some {
                    s.name->0@
                } else {
                    s.ics_url@
                }),
                CalendarSource::ServiceAccount(s) => all.1[n].0@ == (if s.name is Some {
                    s.name->0@
                } else {
                    s.calendar_id@
                }),
            }) by {
            if k < init.len() {
                assert(found[k] == fs[k] && init[k] == sources[k]);
                let n = choose|n: int|
                    0 <= n < sofar.1.len() && (#[trigger] sofar.1[n]).1 == fs[k]->Err_0 && (
                    match init[k] {
                        CalendarSource::Ics(s) => sofar.1[n].0@ == (if s.name is Some {
                            s.name->0@
                        } else {
                            s.ics_url@
                        }),
                        CalendarSource::ServiceAccount(s) => sofar.1[n].0@ == (if s.name is Some {
                            s.name->0@
                        } else {
                            s.calendar_id@
                        }),
                    });
                assert(last is Err ==> all.1[n] == all.1.drop_last()[n]);
                assert(all.1[n] == sofar.1[n]);
            } else {
                assert(all.1[all.1.len() - 1] == all.1.last());
            }
        }
    }
}

/// A meeting that takes the whole day is shown as one, and any other with its hour
/// and minute; both with what it is called, and with the name of its calendar where
/// it has one.
pub proof fn law_meetings_shown(m: &Meeting, r: String)
    requires
        m.start.wf(),
        call_ensures(Meeting::line, (m,), r),
    ensures
        m.all_day ==> begins_with(r@, "all day  "@ + m.summary@),
        !m.all_day ==> begins_with(
            r@,
            seq![
                digit_char(m.start.hour as int / 10),
                digit_char(m.start.hour as int % 10),
                ':',
                digit_char(m.start.minute as int / 10),
                digit_char(m.start.minute as int % 10),
                ' ',
                ' ',
                ' ',
                ' ',
            ] + m.summary@,
        ),
        m.calendar is None ==> r@.len() == 9 + m.summary@.len(),
        m.calendar matches Some(name) ==> ends_with(r@, "  ("@ + name@ + ")"@) && r@.len() == 9
            + m.summary@.len() + 4 + name@.len(),
{
    reveal_strlit("all day");
    reveal_strlit("all day  ");
    reveal_strlit("  ");
    reveal_strlit("  (");
    reveal_strlit(")");
    reveal_strlit(":");
    let s = r@;
    let head = if m.all_day {
        "all day  "@ + m.summary@
    } else {
        seq![
            digit_char(m.start.hour as int / 10),
            digit_char(m.start.hour as int % 10),
            ':',
            digit_char(m.start.minute as int / 10),
            digit_char(m.start.minute as int % 10),
            ' ',
            ' ',
            ' ',
            ' ',
        ] + m.summary@
    };
    let time = if m.all_day {
        "all day"@
    } else {
        two_digits(m.start.hour as int) + ":"@ + two_digits(m.start.minute as int)
    };
    let tail = match m.calendar {
        Some(name) => "  ("@ + name@ + ")"@,
        None => Seq::empty(),
    };
    assert(s == padded_right(time, 7) + "  "@ + m.summary@ + tail);
    assert(padded_right(time, 7) + "  "@ + m.summary@ =~= head);
    assert(s.subrange(0, head.len() as int) =~= head);
    if m.calendar is Some {
        assert(s.subrange(s.len() - tail.len(), s.len() as int) =~= tail);
    }
}

/// The day holds the moments from its beginning on, up to the beginning of the next.
pub proof fn law_a_day_ends_where_the_next_begins(b: &Bounds, m: &Moment, r: bool)
    requires
        b.wf(),
        call_ensures(Bounds::contains, (b, m), r),
    ensures
        r <==> b.start.secs <= m.secs < b.end.secs,
{
}

/// Meetings are in order of their start.
pub proof fn law_meetings_are_in_order(meetings: Seq<Meeting>, i: int, j: int)
    requires
        ascending(meetings),
        0 <= i <= j < meetings.len(),
    ensures
        meetings[i].start.secs < meetings[j].start.secs || meetings[i].start.secs
            == meetings[j].start.secs && meetings[i].start.nanos <= meetings[j].start.nanos,
{
    assert(meetings[i].at_most(meetings[j]));
}

/// What is kept of a calendar is kept for one day: the keys of two days are
/// different.
pub proof fn law_days_are_kept_apart(url: Seq<char>, id: Seq<char>, a: Date, b: Date)
    requires
        a.wf(),
        b.wf(),
    ensures
        ics_key(url, a) == ics_key(url, b) ==> a == b,
        google_key(id, a) == google_key(id, b) ==> a == b,
{
    let head = hex_digits(url_digest(url) as nat, 16) + "|"@;
    assert(ics_key(url, a).skip(head.len() as int) =~= compact_text(a));
    assert(ics_key(url, b).skip(head.len() as int) =~= compact_text(b));
    let start = "gcal|"@ + id + "|"@;
    assert(google_key(id, a).skip(start.len() as int) =~= compact_text(a));
    assert(google_key(id, b).skip(start.len() as int) =~= compact_text(b));
    law_date_texts_tell_dates_apart(a, b);
}

/// The meetings of all calendars on a day, by start. A calendar that cannot be
/// read does not cost the others: it comes back with the reason.
pub fn meetings_on<
    E: Reason,
    F: Fn(&str) -> Result<String, E>,
    G: Fn(&ServiceAccountSource, Date) -> Result<String, E>,
    R: Fn(&str) -> Result<GoogleEvents, E>,
>(
    sources: &[CalendarSource],
    date: Date,
    cache: &mut Option<Cache>,
    fetch_ics: &F,
    fetch_google: &G,
    read_events: &R,
) -> (r: (Vec<Meeting>, Vec<(String, CalendarError<E>)>))
    requires
        date.wf(),
        takes_any(*fetch_ics),
        takes_any(*read_events),
        takes_sources(*fetch_google, sources@, date),
    ensures
        exists|all: Seq<Meeting>|
            r.0@ == #[trigger] sorted(all) && sources_read(
                *old(cache),
                *final(cache),
                sources@,
                date,
                *fetch_ics,
                *fetch_google,
                *read_events,
                (all, r.1@),
            ),
        ascending(r.0@),
        meetings_ok(r.0@),
{
    let mut all: Vec<Meeting> = Vec::new();
    let mut failures: Vec<(String, CalendarError<E>)> = Vec::new();
    let mut i: usize = 0;
    assert(sources@.take(0) =~= Seq::<CalendarSource>::empty());
    while i < sources.len()
        invariant
            i <= sources@.len(),
            date.wf(),
            takes_any(*fetch_ics),
            takes_any(*read_events),
            takes_sources(*fetch_google, sources@, date),
            sources_read(
                *old(cache),
                *cache,
                sources@.take(i as int),
                date,
                *fetch_ics,
                *fetch_google,
                *read_events,
                (all@, failures@),
            ),
            meetings_ok(all@),
        decreases sources@.len() - i,
    {
        let ghost middle = *cache;
        let ghost sofar = (all@, failures@);
        let source: &CalendarSource = &sources[i];
        let found: Result<Vec<Meeting>, CalendarError<E>> = read_source(
            source,
            date,
            cache,
            fetch_ics,
            fetch_google,
            read_events,
        );
        let ghost came = found;
        match found {
            Ok(more) => {
                let mut more: Vec<Meeting> = more;
                all.append(&mut more);
            },
            Err(e) => {
                failures.push((source.label().to_string(), e));
            },
        }
        proof {
            assert(sources@.take(i + 1).drop_last() =~= sources@.take(i as int));
            assert(sources@.take(i + 1).last() == *source);
            match came {
                Ok(more) => {
                    assert(all@ =~= sofar.0 + more@);
                    assert(meetings_ok(all@));
                },
                Err(e) => {
                    assert(failures@.drop_last() =~= sofar.1);
                },
            }
            assert(source_added(
                middle,
                *cache,
                *source,
                date,
                *fetch_ics,
                *fetch_google,
                *read_events,
                sofar,
                (all@, failures@),
            ));
        }
        i = i + 1;
    }
    assert(sources@.take(i as int) =~= sources@);
    let ghost gathered = all@;
    let sorted_meetings: Vec<Meeting> = sort(all);
    proof {
        lemma_sorted(gathered);
        lemma_sorted_ok(gathered);
    }
    assert(sorted_meetings@ == sorted(gathered));
    (sorted_meetings, failures)
}

impl<E> CalendarError<E> {
    /// The message for the errors that arise here; nothing for those from
    /// outside, which have their own.
    pub open spec fn text(self) -> Option<Seq<char>> {
        match self {
            CalendarError::NoMidnight(d) => Some("no local midnight on "@ + iso_text(d)),
            CalendarError::Feed(e) => Some("parsing the ICS feed: "@ + e@),
            CalendarError::Outside(e) => None,
        }
    }

    /// The message for the person who runs the program, for errors that arise
    /// here.
    pub fn message(&self) -> (r: Option<String>)
        requires
            *self matches CalendarError::NoMidnight(d) ==> d.wf(),
        ensures
            text_of(r) == self.text(),
    {
        match self {
            CalendarError::NoMidnight(d) => {
                let mut out: Vec<char> = chars_of("no local midnight on ");
                push_str(&mut out, format_date(*d, "%Y-%m-%d").as_str());
                Some(string_of(out.as_slice()))
            },
            CalendarError::Feed(e) => {
                let mut out: Vec<char> = chars_of("parsing the ICS feed: ");
                push_str(&mut out, e.as_str());
                Some(string_of(out.as_slice()))
            },
            CalendarError::Outside(_) => None,
        }
    }
}

/// A calendar is read from what asking for it gives, or from an answer that was kept
/// for the same calendar and day. A feed is asked for at its address, and its
/// meetings are those of the day; a failure is what comes of the calendar.
pub proof fn law_a_calendar_is_asked_for_or_kept<
    E: Reason,
    F: Fn(&str) -> Result<String, E>,
    G: Fn(&ServiceAccountSource, Date) -> Result<String, E>,
    R: Fn(&str) -> Result<GoogleEvents, E>,
>(
    before: Option<Cache>,
    cache: Option<Cache>,
    source: CalendarSource,
    date: Date,
    fetch_ics: F,
    fetch_google: G,
    read_events: R,
    r: Result<Vec<Meeting>, CalendarError<E>>,
)
    requires
        source_read(before, cache, source, date, fetch_ics, fetch_google, read_events, r),
    ensures
        exists|given: Result<String, E>|
            {
                &&& #[trigger] calendar_given(before, source, date, fetch_ics, fetch_google, given)
                &&& given is Err ==> r is Err && r->Err_0 == CalendarError::Outside(given->Err_0)
                &&& given is Ok && source is Ics ==> feed_meetings(
                    given->Ok_0@,
                    date,
                    text_of(source->Ics_0.name),
                    r,
                )
                &&& given is Ok && source is ServiceAccount ==> exists|
                    reply: Result<GoogleEvents, E>,
                | #[trigger]
                    gives(read_events, given->Ok_0@, reply) && events_meetings(
                        reply,
                        text_of(source->ServiceAccount_0.name),
                        r,
                    )
            },
        before is None ==> cache is None,
{
    match source {
        CalendarSource::Ics(s) => {
            let given = choose|given: Result<String, E>|
                called_through(
                    before,
                    cache,
                    "calendar"@,
                    ics_key(s.ics_url@, date),
                    Some(date),
                    false,
                    plain_replies(fetch_ics, s.ics_url@),
                    given,
                ) && #[trigger] feed_taken(given, date, text_of(s.name), r);
            law_given_is_asked_for_or_kept(
                before,
                cache,
                "calendar"@,
                ics_key(s.ics_url@, date),
                Some(date),
                false,
                plain_replies(fetch_ics, s.ics_url@),
                given,
            );
            assert(calendar_given(before, source, date, fetch_ics, fetch_google, given));
        },
        CalendarSource::ServiceAccount(s) => {
            let given = choose|given: Result<String, E>|
                called_through(
                    before,
                    cache,
                    "calendar"@,
                    google_key(s.calendar_id@, date),
                    Some(date),
                    false,
                    day_replies(fetch_google, s, date),
                    given,
                ) && #[trigger] events_taken(read_events, given, text_of(s.name), r);
            law_given_is_asked_for_or_kept(
                before,
                cache,
                "calendar"@,
                google_key(s.calendar_id@, date),
                Some(date),
                false,
                day_replies(fetch_google, s, date),
                given,
            );
            assert(calendar_given(before, source, date, fetch_ics, fetch_google, given));
        },
    }
}

/// What is given of a calendar on a day is what asking for it gives, or what was kept
/// of it for the day.
pub open spec fn calendar_given<
    E,
    F: Fn(&str) -> Result<String, E>,
    G: Fn(&ServiceAccountSource, Date) -> Result<String, E>,
>(
    before: Option<Cache>,
    source: CalendarSource,
    date: Date,
    fetch_ics: F,
    fetch_google: G,
    given: Result<String, E>,
) -> bool {
    match source {
        CalendarSource::Ics(s) => gives(fetch_ics, s.ics_url@, given) || kept(
            before,
            "calendar"@,
            ics_key(s.ics_url@, date),
            given,
        ),
        CalendarSource::ServiceAccount(s) => fetch_google.ensures((&s, date), given) || kept(
            before,
            "calendar"@,
            google_key(s.calendar_id@, date),
            given,
        ),
    }
}

/// The bounds of a day are its midnight and that of the day after it.
pub proof fn law_bounds_are_two_midnights(date: Date, r: Option<Bounds>)
    requires
        date.wf(),
        call_ensures(day_bounds, (date,), r),
    ensures
        r matches Some(b) ==> b.date == date && begins(date, Some(b.start)) && (exists|next: Date|
            next.wf() && next.number() - date.number() == 1 && #[trigger] begins(next, Some(b.end)))
            && b.start.secs < b.end.secs,
{
}

/// The digits of a key stand for the number they are made from.
pub proof fn law_hex_digits_stand_for_the_number(v: nat, n: nat)
    requires
        v < pow(16, n),
    ensures
        number(hex_digits(v, n), 16) == v,
    decreases n,
{
    reveal(pow);
    if n > 0 {
        let k = (n - 1) as nat;
        assert(pow(16, n) == 16 * pow(16, k));
        law_hex_digits_stand_for_the_number(v / 16, k);
        let s = hex_digits(v, n);
        assert(s.drop_last() =~= hex_digits(v / 16, k));
        assert(digit_value(hex_char((v % 16) as int)) == v % 16);
    }
}

} // verus!
