//! Reading the meetings of a day from the Google Calendar service.

use vstd::prelude::*;

use crate::calendar::{
    begins, day_start, lemma_sorted_ok, meeting_texts, meetings_ok, read_ok, Bounds, CalendarError,
    Meeting, MeetingText,
};
use crate::date::{
    at_local, date_read, local_text, parse_date_by, parse_rfc3339, rfc3339_read, Date,
};
use crate::order::{lemma_sorted, lemma_sorted_contains, sort, sorted, Ordered};
use crate::sequences::{lemma_filter_map_holds, lemma_filter_map_push};
use crate::text::{
    chars_of, contains_text, joined, law_pieces_of_both, lemma_one_piece, occurs_at, pair_texts,
    pieces, push_all, push_str, replace, replaced, string_of, text_of,
};
use crate::transport::places::copy_text;
use crate::transport::{gives, takes_any};

verus! {

/// The events of a day.
#[derive(Debug)]
pub struct GoogleEvents {
    /// The events.
    pub items: Vec<GoogleEvent>,
}

/// An event.
#[derive(Debug)]
pub struct GoogleEvent {
    /// What it is called.
    pub summary: Option<String>,
    /// When it starts.
    pub start: Option<GoogleEventTime>,
}

/// When an event starts.
#[derive(Debug)]
pub struct GoogleEventTime {
    /// The time of an event with a time.
    pub date_time: Option<String>,
    /// The date of an event that takes the whole day.
    pub date: Option<String>,
}

/// The parts of a service account's key that are needed.
#[derive(Debug)]
pub struct ServiceAccountKey {
    /// The account.
    pub client_email: String,
    /// Its private key.
    pub private_key: String,
    /// Where tokens are given out.
    pub token_uri: String,
}

/// What is claimed when asking for a token.
#[derive(Debug)]
pub struct JwtClaims {
    /// Who asks.
    pub iss: String,
    /// What for.
    pub scope: String,
    /// Who is asked.
    pub aud: String,
    /// When.
    pub iat: i64,
    /// Until when the claim holds.
    pub exp: i64,
}

/// The token that `jsonwebtoken::encode` makes of five claims, in this order, with
/// RS256 and the RSA key that a PEM text holds; nothing where the key cannot be used.
pub uninterp spec fn signed(
    iss: Seq<char>,
    scope: Seq<char>,
    aud: Seq<char>,
    iat: i64,
    exp: i64,
    private_key: Seq<char>,
) -> Option<Seq<char>>;

/// `jsonwebtoken::EncodingKey::from_rsa_pem` and `jsonwebtoken::encode` with RS256:
/// the claims as a signed token, or why there is none. Nothing is said of the
/// reason.
#[verifier::external_body]
fn sign(claims: &JwtClaims, private_key: &str) -> (r: Result<String, String>)
    ensures
        signed(
            claims.iss@,
            claims.scope@,
            claims.aud@,
            claims.iat,
            claims.exp,
            private_key@,
        ) == (match r {
            Ok(jwt) => Some(jwt@),
            Err(_) => None,
        }),
{
    let key = jsonwebtoken::EncodingKey::from_rsa_pem(private_key.as_bytes());
    let key = key.map_err(|e| e.to_string())?;
    let mut map: serde_json::Map<String, serde_json::Value> = serde_json::Map::new();
    map.insert("iss".to_string(), claims.iss.as_str().into());
    map.insert("scope".to_string(), claims.scope.as_str().into());
    map.insert("aud".to_string(), claims.aud.as_str().into());
    map.insert("iat".to_string(), claims.iat.into());
    map.insert("exp".to_string(), claims.exp.into());
    let header = jsonwebtoken::Header::new(jsonwebtoken::Algorithm::RS256);
    jsonwebtoken::encode(&header, &map, &key).map_err(|e| e.to_string())
}

// --- Models ------------------------------------------------------------------

/// What an event comes to: its meeting, nothing, or the date of a day that does
/// not begin by the local clock.
pub open spec fn google_gives(
    e: GoogleEvent,
    calendar: Option<Seq<char>>,
    out: Result<Option<MeetingText>, Date>,
) -> bool {
    let summary = match e.summary {
        Some(s) => s@,
        None => "(no title)"@,
    };
    match e.start {
        None => out == Ok::<Option<MeetingText>, Date>(None),
        Some(t) => match t.date_time {
            Some(dt) => match rfc3339_read(dt@) {
                None => out == Ok::<Option<MeetingText>, Date>(None),
                Some((secs, nanos)) => out matches Ok(Some(m)) && m.start.secs == secs
                    && m.start.nanos == nanos && m.start.wf() && !m.all_day && m.summary == summary
                    && m.calendar == calendar,
            },
            None => match t.date {
                None => out == Ok::<Option<MeetingText>, Date>(None),
                Some(d) => match date_read(d@, "%Y-%m-%d"@) {
                    None => out == Ok::<Option<MeetingText>, Date>(None),
                    Some(date) => match out {
                        Ok(Some(m)) => begins(date, Some(m.start)) && m.all_day && m.summary
                            == summary && m.calendar == calendar,
                        Ok(None) => false,
                        Err(day) => day == date && begins(date, None),
                    },
                },
            },
        },
    }
}

/// One more event was read after `sofar`, unless that was a failure.
pub open spec fn google_added(
    e: GoogleEvent,
    calendar: Option<Seq<char>>,
    sofar: Result<Seq<MeetingText>, Date>,
    out: Result<Seq<MeetingText>, Date>,
) -> bool {
    match sofar {
        Err(d) => out == Err::<Seq<MeetingText>, Date>(d),
        Ok(before) => exists|one: Result<Option<MeetingText>, Date>| #[trigger]
            google_gives(e, calendar, one) && (match one {
                Err(d) => out == Err::<Seq<MeetingText>, Date>(d),
                Ok(None) => out == Ok::<Seq<MeetingText>, Date>(before),
                Ok(Some(m)) => out == Ok::<Seq<MeetingText>, Date>(before.push(m)),
            }),
    }
}

/// The meetings of the events, in the order of the events.
pub open spec fn google_meetings(
    events: Seq<GoogleEvent>,
    calendar: Option<Seq<char>>,
    out: Result<Seq<MeetingText>, Date>,
) -> bool
    decreases events.len(),
{
    if events.len() == 0 {
        out == Ok::<Seq<MeetingText>, Date>(Seq::empty())
    } else {
        exists|sofar: Result<Seq<MeetingText>, Date>|
            google_meetings(events.drop_last(), calendar, sofar) && #[trigger] google_added(
                events.last(),
                calendar,
                sofar,
                out,
            )
    }
}

/// What the events of a day come to: their meetings by start, or why there are
/// none.
pub open spec fn events_meetings<E>(
    reply: Result<GoogleEvents, E>,
    calendar: Option<Seq<char>>,
    r: Result<Vec<Meeting>, CalendarError<E>>,
) -> bool {
    match reply {
        Err(e) => r == Err::<Vec<Meeting>, CalendarError<E>>(CalendarError::Outside(e)),
        Ok(data) => match r {
            Ok(meetings) => exists|all: Seq<Meeting>|
                meetings@ == #[trigger] sorted(all) && google_meetings(
                    data.items@,
                    calendar,
                    Ok::<Seq<MeetingText>, Date>(meeting_texts(all)),
                ),
            Err(CalendarError::NoMidnight(d)) => google_meetings(
                data.items@,
                calendar,
                Err::<Seq<MeetingText>, Date>(d),
            ),
            Err(_) => false,
        },
    }
}

proof fn lemma_google_failure(
    events: Seq<GoogleEvent>,
    n: int,
    calendar: Option<Seq<char>>,
    d: Date,
)
    requires
        0 <= n <= events.len(),
        google_meetings(events.take(n), calendar, Err::<Seq<MeetingText>, Date>(d)),
    ensures
        google_meetings(events, calendar, Err::<Seq<MeetingText>, Date>(d)),
    decreases events.len(),
{
    if n == events.len() {
        assert(events.take(n) =~= events);
    } else {
        let init = events.drop_last();
        assert(init.take(n) =~= events.take(n));
        lemma_google_failure(init, n, calendar, d);
        let failed = Err::<Seq<MeetingText>, Date>(d);
        assert(google_added(events.last(), calendar, failed, failed));
    }
}

/// The address at which the events of a calendar are asked for. The `@` of an id
/// has to be written otherwise in a path.
pub open spec fn events_address(calendar_id: Seq<char>) -> Seq<char> {
    "https://www.googleapis.com/calendar/v3/calendars/"@ + replaced(calendar_id, "@"@, "%40"@)
        + "/events"@
}

/// What is claimed: that the account reads calendars for an hour from `now` on.
pub open spec fn claim_token(key: ServiceAccountKey, now: int) -> Option<Seq<char>> {
    signed(
        key.client_email@,
        "https://www.googleapis.com/auth/calendar.readonly"@,
        key.token_uri@,
        now as i64,
        (now + 3600) as i64,
        key.private_key@,
    )
}

/// What is sent for an access token.
pub open spec fn token_fields(assertion: Seq<char>) -> Seq<(Seq<char>, Seq<char>)> {
    seq![
        ("grant_type"@, "urn:ietf:params:oauth:grant-type:jwt-bearer"@),
        ("assertion"@, assertion),
    ]
}

/// What is asked of the service: the single events between two times, by start,
/// fifty at most.
pub open spec fn query_fields(time_min: Seq<char>, time_max: Seq<char>) -> Seq<
    (Seq<char>, Seq<char>),
> {
    seq![
        ("timeMin"@, time_min),
        ("timeMax"@, time_max),
        ("singleEvents"@, "true"@),
        ("orderBy"@, "startTime"@),
        ("maxResults"@, "50"@),
    ]
}

/// The text stands for this point in time, as far as the machine's time zone goes.
pub closed spec fn written(secs: i64, text: Seq<char>) -> bool {
    exists|r: (String, i32)| r.0@ == text && #[trigger] call_ensures(local_text, (secs,), r)
}

// --- Functions ----------------------------------------------------------------

/// The meeting of an event, if it has a start that can be read.
fn google_meeting(e: &GoogleEvent, calendar: &Option<String>) -> (r: Result<Option<Meeting>, Date>)
    ensures
        google_gives(
            *e,
            text_of(*calendar),
            match r {
                Ok(Some(m)) => Ok(Some(m.text())),
                Ok(None) => Ok(None),
                Err(d) => Err(d),
            },
        ),
        r matches Ok(Some(m)) ==> m.start.wf(),
{
    let summary: String = match &e.summary {
        Some(s) => s.clone(),
        None => "(no title)".to_string(),
    };
    match &e.start {
        None => Ok(None),
        Some(t) => match &t.date_time {
            Some(dt) => match parse_rfc3339(dt.as_str()) {
                None => Ok(None),
                Some((secs, nanos)) => Ok(
                    Some(
                        Meeting {
                            start: at_local(secs, nanos),
                            all_day: false,
                            summary,
                            calendar: copy_text(calendar),
                        },
                    ),
                ),
            },
            None => match &t.date {
                None => Ok(None),
                Some(d) => match parse_date_by(d.as_str(), "%Y-%m-%d") {
                    None => Ok(None),
                    Some(date) => match day_start(date) {
                        None => Err(date),
                        Some(start) => Ok(
                            Some(
                                Meeting {
                                    start,
                                    all_day: true,
                                    summary,
                                    calendar: copy_text(calendar),
                                },
                            ),
                        ),
                    },
                },
            },
        },
    }
}

/// An event at a time is a meeting at that time that does not take the whole day;
/// one on a date is a meeting that takes the whole day, from its midnight on. One
/// with neither is none. The meeting has the name of the event and that of the
/// calendar.
pub proof fn law_google_events(
    e: GoogleEvent,
    start: GoogleEventTime,
    calendar: Option<Seq<char>>,
    out: Result<Option<MeetingText>, Date>,
)
    requires
        google_gives(e, calendar, out),
    ensures
        e.start is None ==> out == Ok::<Option<MeetingText>, Date>(None),
        e.start == Some(start) && start.date_time is None && start.date is None ==> out == Ok::<
            Option<MeetingText>,
            Date,
        >(None),
        out matches Ok(Some(m)) ==> m.calendar == calendar && (e.summary is Some ==> m.summary
            == e.summary->0@) && (e.summary is None ==> m.summary == "(no title)"@) && e.start is Some
            && (m.all_day <==> (e.start->0).date_time is None),
        forall|dt: String|
            e.start == Some(start) && start.date_time == Some(dt) && #[trigger] rfc3339_read(
                dt@,
            ) is Some ==> (out is Ok && out->Ok_0 is Some && !((out->Ok_0)->0).all_day && (((
            out->Ok_0)->0).start.secs, ((out->Ok_0)->0).start.nanos) == rfc3339_read(dt@)->0),
        forall|d: String|
            e.start == Some(start) && start.date_time is None && start.date == Some(d)
                && #[trigger] date_read(d@, "%Y-%m-%d"@) is Some && out is Ok ==> (
            out->Ok_0 is Some && ((out->Ok_0)->0).all_day && begins(
                date_read(d@, "%Y-%m-%d"@)->0,
                Some(((out->Ok_0)->0).start),
            )),
{
}

/// What comes of each event, one after the other.
pub open spec fn events_read(
    events: Seq<GoogleEvent>,
    calendar: Option<Seq<char>>,
    each: Seq<Option<MeetingText>>,
) -> bool {
    &&& each.len() == events.len()
    &&& forall|k: int|
        0 <= k < events.len() ==> google_gives(
            events[k],
            calendar,
            Ok::<Option<MeetingText>, Date>(#[trigger] each[k]),
        )
}

proof fn lemma_events_read(
    events: Seq<GoogleEvent>,
    calendar: Option<Seq<char>>,
    out: Seq<MeetingText>,
)
    requires
        google_meetings(events, calendar, Ok::<Seq<MeetingText>, Date>(out)),
    ensures
        exists|each: Seq<Option<MeetingText>>| #[trigger]
            events_read(events, calendar, each) && out == each.filter_map(
                |m: Option<MeetingText>| m,
            ),
    decreases events.len(),
{
    let f = |m: Option<MeetingText>| m;
    if events.len() == 0 {
        let each = Seq::<Option<MeetingText>>::empty();
        assert(events_read(events, calendar, each));
        assert(out =~= each.filter_map(f));
    } else {
        let init = events.drop_last();
        let sofar = choose|sofar: Result<Seq<MeetingText>, Date>|
            google_meetings(events.drop_last(), calendar, sofar) && #[trigger] google_added(
                events.last(),
                calendar,
                sofar,
                Ok::<Seq<MeetingText>, Date>(out),
            );
        let before = sofar->Ok_0;
        assert(sofar == Ok::<Seq<MeetingText>, Date>(before));
        let one = choose|one: Result<Option<MeetingText>, Date>| #[trigger]
            google_gives(events.last(), calendar, one) && (match one {
                Err(d) => false,
                Ok(None) => out == before,
                Ok(Some(m)) => out == before.push(m),
            });
        let last = one->Ok_0;
        assert(one == Ok::<Option<MeetingText>, Date>(last));
        lemma_events_read(init, calendar, before);
        let es = choose|each: Seq<Option<MeetingText>>| #[trigger]
            events_read(init, calendar, each) && before == each.filter_map(
                |m: Option<MeetingText>| m,
            );
        let each = es.push(last);
        assert forall|k: int| 0 <= k < events.len() implies google_gives(
            events[k],
            calendar,
            Ok::<Option<MeetingText>, Date>(#[trigger] each[k]),
        ) by {
            if k < init.len() {
                assert(each[k] == es[k] && init[k] == events[k]);
            }
        }
        assert(events_read(events, calendar, each));
        lemma_filter_map_push(es, last, f);
        assert(out =~= each.filter_map(f));
    }
}

/// No event is lost and none is made up: each event of the answer is read, and the
/// meetings are those that came of them, all of them, by start.
pub proof fn law_every_google_event_counts<E>(
    data: &GoogleEvents,
    calendar: &Option<String>,
    r: Result<Vec<Meeting>, CalendarError<E>>,
)
    requires
        call_ensures(meetings_from::<E>, (data, calendar), r),
        r is Ok,
    ensures
        exists|each: Seq<Option<MeetingText>>|
            {
                &&& #[trigger] events_read(data.items@, text_of(*calendar), each)
                &&& r->Ok_0@.len() == each.filter_map(|m: Option<MeetingText>| m).len()
                &&& forall|k: int|
                    0 <= k < each.len() && (#[trigger] each[k]) is Some ==> meeting_texts(
                        r->Ok_0@,
                    ).contains(each[k]->0)
                &&& forall|i: int|
                    0 <= i < r->Ok_0@.len() ==> each.contains(Some((#[trigger] r->Ok_0@[i]).text()))
            },
        forall|i: int, j: int|
            0 <= i <= j < r->Ok_0@.len() ==> (#[trigger] r->Ok_0@[i]).start.secs <= (
            #[trigger] r->Ok_0@[j]).start.secs,
{
    let f = |m: Option<MeetingText>| m;
    let meetings = r->Ok_0@;
    let cal = text_of(*calendar);
    let all = choose|all: Seq<Meeting>|
        meetings == #[trigger] sorted(all) && google_meetings(
            data.items@,
            cal,
            Ok::<Seq<MeetingText>, Date>(meeting_texts(all)),
        );
    lemma_sorted(all);
    lemma_events_read(data.items@, cal, meeting_texts(all));
    let each = choose|each: Seq<Option<MeetingText>>| #[trigger]
        events_read(data.items@, cal, each) && meeting_texts(all) == each.filter_map(
            |m: Option<MeetingText>| m,
        );
    assert(meeting_texts(all).len() == all.len());
    assert forall|k: int| 0 <= k < each.len() && (#[trigger] each[k]) is Some implies meeting_texts(
        meetings,
    ).contains(each[k]->0) by {
        lemma_filter_map_holds(each, f, k);
        let n = choose|n: int| 0 <= n < all.len() && meeting_texts(all)[n] == each[k]->0;
        assert(all.contains(all[n]));
        lemma_sorted_contains(all, all[n]);
        let j = choose|j: int| 0 <= j < meetings.len() && meetings[j] == all[n];
        assert(meeting_texts(meetings)[j] == each[k]->0);
    }
    assert forall|i: int| 0 <= i < meetings.len() implies each.contains(
        Some((#[trigger] meetings[i]).text()),
    ) by {
        assert(meetings.contains(meetings[i]));
        lemma_sorted_contains(all, meetings[i]);
        let n = choose|n: int| 0 <= n < all.len() && all[n] == meetings[i];
        assert(meeting_texts(all)[n] == meetings[i].text());
        assert(each.filter_map(f).contains(meetings[i].text()));
        each.lemma_filter_map_contains(f, meetings[i].text());
    }
    assert forall|i: int, j: int| 0 <= i <= j < meetings.len() implies (
    #[trigger] meetings[i]).start.secs <= (#[trigger] meetings[j]).start.secs by {
        assert(meetings[i].at_most(meetings[j]));
    }
}

/// The claims of a token run for an hour from now, ask to read calendars and
/// nothing else, and are made to the service that gives tokens.
pub proof fn law_tokens_run_for_an_hour(
    key: &ServiceAccountKey,
    now: i64,
    r: Result<Vec<(String, String)>, String>,
)
    requires
        now + 3600 <= i64::MAX,
        call_ensures(token_request, (key, now), r),
    ensures
        match signed(
            key.client_email@,
            "https://www.googleapis.com/auth/calendar.readonly"@,
            key.token_uri@,
            now,
            (now + 60 * 60) as i64,
            key.private_key@,
        ) {
            None => r is Err,
            Some(jwt) => r is Ok && pair_texts(r->Ok_0@).contains(("assertion"@, jwt)),
        },
{
    if let Some(jwt) = claim_token(*key, now as int) {
        let fields = token_fields(jwt);
        assert(fields[1] == ("assertion"@, jwt));
    }
}

/// The events of a day are asked for from its beginning to its end, each occurrence
/// on its own and in order.
pub proof fn law_the_query_is_for_the_day(
    time_min: &str,
    time_max: &str,
    r: Vec<(String, String)>,
)
    requires
        call_ensures(events_query, (time_min, time_max), r),
    ensures
        ({
            let q = pair_texts(r@);
            &&& q.len() == 5
            &&& q.contains(("timeMin"@, time_min@)) && q.contains(("timeMax"@, time_max@))
            &&& q.contains(("singleEvents"@, "true"@)) && q.contains(("orderBy"@, "startTime"@))
            &&& q.contains(("maxResults"@, "50"@))
        }),
{
    let q = query_fields(time_min@, time_max@);
    assert(q[0] == ("timeMin"@, time_min@));
    assert(q[1] == ("timeMax"@, time_max@));
    assert(q[2] == ("singleEvents"@, "true"@));
    assert(q[3] == ("orderBy"@, "startTime"@));
    assert(q[4] == ("maxResults"@, "50"@));
}

/// In the address of a calendar the sign in its id is escaped, and all else is kept.
pub proof fn law_calendar_ids_are_escaped(a: Seq<char>, b: Seq<char>)
    requires
        !a.contains('@'),
        !b.contains('@'),
    ensures
        events_address(a + "@"@ + b) == "https://www.googleapis.com/calendar/v3/calendars/"@ + (a
            + "%40"@ + b) + "/events"@,
        events_address(a) == "https://www.googleapis.com/calendar/v3/calendars/"@ + a + "/events"@,
{
    reveal_strlit("@");
    let at = "@"@;
    lemma_no_sign(a);
    lemma_no_sign(b);
    law_pieces_of_both(a, at, b);
    lemma_one_piece(a, at);
    lemma_one_piece(b, at);
    assert(pieces(a + at + b, at) =~= seq![a, b]);
    assert(seq![a, b].drop_last() =~= seq![a]);
    reveal_with_fuel(joined, 3);
    assert(joined(seq![a, b], "%40"@) =~= a + "%40"@ + b);
    assert(joined(seq![a], "%40"@) =~= a);
}

proof fn lemma_no_sign(a: Seq<char>)
    requires
        !a.contains('@'),
    ensures
        !contains_text(a, "@"@),
{
    reveal_strlit("@");
    if contains_text(a, "@"@) {
        let i = choose|i: int| #[trigger] occurs_at(a, "@"@, i);
        assert(a.subrange(i, i + 1)[0] == a[i]);
        assert(a[i] == '@');
    }
}

/// The meetings of the events of a day, by start. The service has picked the
/// events of the day and expanded those that recur.
pub fn meetings_from<E>(data: &GoogleEvents, calendar: &Option<String>) -> (r: Result<
    Vec<Meeting>,
    CalendarError<E>,
>)
    ensures
        match r {
            Ok(meetings) => exists|all: Seq<Meeting>|
                meetings@ == #[trigger] sorted(all) && google_meetings(
                    data.items@,
                    text_of(*calendar),
                    Ok::<Seq<MeetingText>, Date>(meeting_texts(all)),
                ),
            Err(CalendarError::NoMidnight(d)) => google_meetings(
                data.items@,
                text_of(*calendar),
                Err::<Seq<MeetingText>, Date>(d),
            ),
            Err(_) => false,
        },
        read_ok(r),
{
    let items: &Vec<GoogleEvent> = &data.items;
    let mut out: Vec<Meeting> = Vec::new();
    let mut i: usize = 0;
    proof {
        assert(items@.take(0) =~= Seq::<GoogleEvent>::empty());
        assert(meeting_texts(out@) =~= Seq::<MeetingText>::empty());
    }
    while i < items.len()
        invariant
            i <= items@.len(),
            items@ == data.items@,
            google_meetings(
                items@.take(i as int),
                text_of(*calendar),
                Ok::<Seq<MeetingText>, Date>(meeting_texts(out@)),
            ),
            meetings_ok(out@),
        decreases items@.len() - i,
    {
        let ghost sofar = meeting_texts(out@);
        proof {
            assert(items@.take(i + 1).drop_last() =~= items@.take(i as int));
            assert(items@.take(i + 1).last() == items@[i as int]);
        }
        match google_meeting(&items[i], calendar) {
            Ok(Some(m)) => {
                let ghost text = m.text();
                out.push(m);
                proof {
                    assert(meeting_texts(out@) =~= sofar.push(text));
                    assert(google_gives(
                        items@[i as int],
                        text_of(*calendar),
                        Ok::<Option<MeetingText>, Date>(Some(text)),
                    ));
                    assert(google_added(
                        items@[i as int],
                        text_of(*calendar),
                        Ok::<Seq<MeetingText>, Date>(sofar),
                        Ok::<Seq<MeetingText>, Date>(meeting_texts(out@)),
                    ));
                }
            },
            Ok(None) => {
                proof {
                    assert(google_gives(
                        items@[i as int],
                        text_of(*calendar),
                        Ok::<Option<MeetingText>, Date>(None),
                    ));
                    assert(google_added(
                        items@[i as int],
                        text_of(*calendar),
                        Ok::<Seq<MeetingText>, Date>(sofar),
                        Ok::<Seq<MeetingText>, Date>(meeting_texts(out@)),
                    ));
                }
            },
            Err(d) => {
                proof {
                    assert(google_gives(
                        items@[i as int],
                        text_of(*calendar),
                        Err::<Option<MeetingText>, Date>(d),
                    ));
                    assert(google_added(
                        items@[i as int],
                        text_of(*calendar),
                        Ok::<Seq<MeetingText>, Date>(sofar),
                        Err::<Seq<MeetingText>, Date>(d),
                    ));
                    lemma_google_failure(items@, i + 1, text_of(*calendar), d);
                }
                return Err(CalendarError::NoMidnight(d));
            },
        }
        i = i + 1;
    }
    assert(items@.take(i as int) =~= items@);
    let ghost gathered = out@;
    let r: Vec<Meeting> = sort(out);
    proof {
        lemma_sorted_ok(gathered);
    }
    assert(r@ == sorted(gathered));
    Ok(r)
}

/// The meetings in the service's answer for a day, by start.
pub fn parse_google_events<E, R: Fn(&str) -> Result<GoogleEvents, E>>(
    json: &str,
    read: &R,
    calendar: &Option<String>,
) -> (r: Result<Vec<Meeting>, CalendarError<E>>)
    requires
        takes_any(*read),
    ensures
        exists|reply: Result<GoogleEvents, E>| #[trigger]
            gives(*read, json@, reply) && events_meetings(reply, text_of(*calendar), r),
        read_ok(r),
{
    let reply: Result<GoogleEvents, E> = read(json);
    assert(gives(*read, json@, reply));
    match reply {
        Err(e) => Err(CalendarError::Outside(e)),
        Ok(data) => meetings_from(&data, calendar),
    }
}

/// The claims for a token that lasts an hour and reads calendars.
fn token_claims(key: &ServiceAccountKey, now: i64) -> (r: JwtClaims)
    requires
        now <= i64::MAX - 3600,
    ensures
        r.iss@ == key.client_email@,
        r.scope@ == "https://www.googleapis.com/auth/calendar.readonly"@,
        r.aud@ == key.token_uri@,
        r.iat == now,
        r.exp == now + 3600,
{
    JwtClaims {
        iss: key.client_email.clone(),
        scope: "https://www.googleapis.com/auth/calendar.readonly".to_string(),
        aud: key.token_uri.clone(),
        iat: now,
        exp: now + 3600,
    }
}

/// The fields that are sent to exchange a signed claim for a token.
pub fn token_form(assertion: &str) -> (r: Vec<(String, String)>)
    ensures
        pair_texts(r@) == token_fields(assertion@),
{
    let mut out: Vec<(String, String)> = Vec::new();
    out.push(
        (
            "grant_type".to_string(),
            "urn:ietf:params:oauth:grant-type:jwt-bearer".to_string(),
        ),
    );
    out.push(("assertion".to_string(), assertion.to_string()));
    assert(pair_texts(out@) =~= token_fields(assertion@));
    out
}

/// What is sent for an access token: a claim that lasts an hour from `now` on,
/// signed with the key of the account. There is a reason where it cannot be
/// signed.
pub fn token_request(key: &ServiceAccountKey, now: i64) -> (r: Result<
    Vec<(String, String)>,
    String,
>)
    requires
        now <= i64::MAX - 3600,
    ensures
        match claim_token(*key, now as int) {
            Some(jwt) => r matches Ok(form) && pair_texts(form@) == token_fields(jwt),
            None => r is Err,
        },
{
    let claims: JwtClaims = token_claims(key, now);
    match sign(&claims, key.private_key.as_str()) {
        Ok(jwt) => Ok(token_form(jwt.as_str())),
        Err(e) => Err(e),
    }
}

/// The address at which the events of a calendar are asked for.
pub fn events_url(calendar_id: &str) -> (r: String)
    ensures
        r@ == events_address(calendar_id@),
{
    let id: Vec<char> = chars_of(calendar_id);
    let at: Vec<char> = chars_of("@");
    let code: Vec<char> = chars_of("%40");
    proof {
        reveal_strlit("@");
    }
    let mut out: Vec<char> = chars_of("https://www.googleapis.com/calendar/v3/calendars/");
    push_all(&mut out, replace(id.as_slice(), at.as_slice(), code.as_slice()).as_slice());
    push_str(&mut out, "/events");
    string_of(out.as_slice())
}

/// What is asked for: the single events between two times, by start, fifty at
/// most.
pub fn events_query(time_min: &str, time_max: &str) -> (r: Vec<(String, String)>)
    ensures
        pair_texts(r@) == query_fields(time_min@, time_max@),
{
    let mut out: Vec<(String, String)> = Vec::new();
    out.push(("timeMin".to_string(), time_min.to_string()));
    out.push(("timeMax".to_string(), time_max.to_string()));
    out.push(("singleEvents".to_string(), "true".to_string()));
    out.push(("orderBy".to_string(), "startTime".to_string()));
    out.push(("maxResults".to_string(), "50".to_string()));
    assert(pair_texts(out@) =~= query_fields(time_min@, time_max@));
    out
}

/// The events of a day are asked for.
pub open spec fn is_day_query(bounds: Bounds, query: Seq<(String, String)>) -> bool {
    exists|time_min: Seq<char>, time_max: Seq<char>|
        pair_texts(query) == #[trigger] query_fields(time_min, time_max) && written(
            bounds.start.secs,
            time_min,
        ) && written(bounds.end.secs, time_max)
}

/// What is asked for to have the events of a day.
pub fn day_query(bounds: &Bounds) -> (r: Vec<(String, String)>)
    requires
        bounds.wf(),
    ensures
        is_day_query(*bounds, r@),
{
    let from: (String, i32) = local_text(bounds.start.secs);
    let to: (String, i32) = local_text(bounds.end.secs);
    assert(written(bounds.start.secs, from.0@));
    assert(written(bounds.end.secs, to.0@));
    events_query(from.0.as_str(), to.0.as_str())
}

} // verus!
