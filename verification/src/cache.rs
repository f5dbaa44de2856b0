//! A record of every external call: kind, key, date, time and response.
//!
//! It serves three purposes. Identical calls within a time to live are answered
//! from the record. A call for a date that has passed is answered from the
//! record for good. When a live call fails, the newest recorded response stands
//! in for it.
//!
//! The record only grows: a newer entry hides an older one of the same kind and
//! key. Reading it from and writing it to disk is left to the program.

use vstd::prelude::*;

use crate::date::{
    earlier, is_earlier, minutes_between, minutes_from, read_clock, reads, parse_rfc3339, rfc3339_read, Date,
    Stamp,
};
use crate::text::{chars_of, push_str, same_str, string_of};

verus! {

/// One recorded call.
#[derive(Debug)]
pub struct Row {
    /// What kind of call it was.
    pub kind: String,
    /// All parameters of the call, any date among them.
    pub key: String,
    /// The date that the response is about, if it is about one.
    pub for_date: Option<Date>,
    /// When the call was made, as RFC 3339 text.
    pub requested_at: String,
    /// The raw response.
    pub response: String,
}

/// What went wrong with a call, in words.
pub trait Reason: Sized {
    /// Why the call failed.
    fn reason(&self) -> String;
}

impl Reason for String {
    /// A text is its own reason.
    fn reason(&self) -> (r: String)
        ensures
            r@ == self@,
    {
        self.clone()
    }
}

/// A failed call that was answered from the record.
#[derive(Debug)]
pub struct Fallback {
    /// What kind of call it was.
    pub kind: String,
    /// Why it failed.
    pub reason: String,
}

/// The recorded calls, oldest first, and the rules for using them again.
#[derive(Debug)]
pub struct Cache {
    /// The recorded calls.
    pub rows: Vec<Row>,
    /// How many minutes a response is fresh for.
    pub ttl_minutes: i64,
    /// Whether live data is always fetched anew. Past dates and failed calls are
    /// still answered from the record.
    pub refresh: bool,
    /// The calls that failed and were answered from the record.
    pub fallbacks: Vec<Fallback>,
}

// --- Models ------------------------------------------------------------------

/// The error gives this reason.
pub open spec fn gives_reason<E: Reason>(error: E, reason: String) -> bool {
    call_ensures(E::reason, (&error,), reason)
}

impl Fallback {
    /// What is said of the call.
    pub open spec fn text(self) -> Seq<char> {
        self.kind@ + " fetch failed ("@ + self.reason@ + "); using cached copy"@
    }

    /// What is said of the call.
    pub fn message(&self) -> (r: String)
        ensures
            r@ == self.text(),
    {
        let mut out: Vec<char> = chars_of(self.kind.as_str());
        push_str(&mut out, " fetch failed (");
        push_str(&mut out, self.reason.as_str());
        push_str(&mut out, "); using cached copy");
        string_of(out.as_slice())
    }
}

impl Row {
    /// The row records a call of this kind with this key.
    pub open spec fn is_for(self, kind: Seq<char>, key: Seq<char>) -> bool {
        self.kind@ == kind && self.key@ == key
    }

    /// When the call was made, in seconds and nanoseconds. A time that cannot be
    /// read counts as the present one.
    pub open spec fn made_at(self, now: Stamp) -> (i64, u32) {
        match rfc3339_read(self.requested_at@) {
            Some(t) => t,
            None => (now.secs, now.nanos),
        }
    }

    /// How many minutes ago the call was made.
    pub open spec fn age(self, now: Stamp) -> int {
        minutes_between(self.made_at(now), (now.secs, now.nanos))
    }
}

/// The newest row of this kind with this key.
pub open spec fn latest_row(rows: Seq<Row>, kind: Seq<char>, key: Seq<char>) -> Option<Row>
    decreases rows.len(),
{
    if rows.len() == 0 {
        None
    } else if rows.last().is_for(kind, key) {
        Some(rows.last())
    } else {
        latest_row(rows.drop_last(), kind, key)
    }
}

/// The newest response of this kind with this key, whatever its age.
pub open spec fn latest_response(rows: Seq<Row>, kind: Seq<char>, key: Seq<char>) -> Option<
    Seq<char>,
> {
    match latest_row(rows, kind, key) {
        Some(row) => Some(row.response@),
        None => None,
    }
}

/// Whether a recorded response may be used again at the time `now`.
pub open spec fn usable(
    row: Row,
    ttl_minutes: int,
    refresh: bool,
    for_date: Option<Date>,
    stable: bool,
    now: Stamp,
) -> bool {
    if for_date is Some && earlier(for_date->0, now.date) {
        true
    } else if refresh {
        false
    } else if stable {
        true
    } else {
        row.age(now) < ttl_minutes
    }
}

impl Cache {
    /// The response that may be used again at the time `now`, if there is one.
    pub open spec fn fresh(
        self,
        kind: Seq<char>,
        key: Seq<char>,
        for_date: Option<Date>,
        stable: bool,
        now: Stamp,
    ) -> Option<Seq<char>> {
        match latest_row(self.rows@, kind, key) {
            None => None,
            Some(row) => if usable(
                row,
                self.ttl_minutes as int,
                self.refresh,
                for_date,
                stable,
                now,
            ) {
                Some(row.response@)
            } else {
                None
            },
        }
    }

    /// The rules are those of `other`.
    pub open spec fn same_rules(self, other: Cache) -> bool {
        self.ttl_minutes == other.ttl_minutes && self.refresh == other.refresh
    }

    /// Nothing has changed since `before`.
    pub open spec fn unchanged(self, before: Cache) -> bool {
        &&& self.same_rules(before)
        &&& self.rows@ == before.rows@
        &&& self.fallbacks@ == before.fallbacks@
    }

    /// One call has been recorded since `before`, at the time with the given
    /// text.
    pub open spec fn recorded(
        self,
        before: Cache,
        kind: Seq<char>,
        key: Seq<char>,
        for_date: Option<Date>,
        at: Seq<char>,
        response: Seq<char>,
    ) -> bool {
        &&& self.same_rules(before)
        &&& self.fallbacks@ == before.fallbacks@
        &&& self.rows@.len() == before.rows@.len() + 1
        &&& self.rows@.drop_last() == before.rows@
        &&& self.rows@.last().is_for(kind, key)
        &&& self.rows@.last().for_date == for_date
        &&& self.rows@.last().requested_at@ == at
        &&& self.rows@.last().response@ == response
    }

    /// A call of this kind that failed with this error has been answered from the
    /// record.
    pub open spec fn fell_back<E: Reason>(self, before: Cache, kind: Seq<char>, error: E) -> bool {
        &&& self.same_rules(before)
        &&& self.rows@ == before.rows@
        &&& self.fallbacks@.len() == before.fallbacks@.len() + 1
        &&& self.fallbacks@.drop_last() == before.fallbacks@
        &&& self.fallbacks@.last().kind@ == kind
        &&& gives_reason(error, self.fallbacks@.last().reason)
    }

    /// What a call that came to `outcome` gives and leaves behind: a success is
    /// recorded and given; a failure is answered with the newest response there
    /// is, and is given itself when there is none.
    pub open spec fn settled<E: Reason>(
        self,
        before: Cache,
        kind: Seq<char>,
        key: Seq<char>,
        for_date: Option<Date>,
        outcome: Result<String, E>,
        at: Seq<char>,
        given: Result<String, E>,
    ) -> bool {
        match outcome {
            Ok(body) => {
                &&& given == Ok::<String, E>(body)
                &&& self.recorded(before, kind, key, for_date, at, body@)
            },
            Err(e) => match latest_response(before.rows@, kind, key) {
                Some(old) => {
                    &&& given matches Ok(body)
                    &&& body@ == old
                    &&& self.fell_back(before, kind, e)
                },
                None => given == Err::<String, E>(e) && self.unchanged(before),
            },
        }
    }
}

// --- Laws ---------------------------------------------------------------------

/// What is stored is what is read back, whatever was there before.
pub proof fn law_reads_back_what_was_stored(
    before: Cache,
    cache: Cache,
    kind: Seq<char>,
    key: Seq<char>,
    for_date: Option<Date>,
    at: Seq<char>,
    response: Seq<char>,
)
    requires
        cache.recorded(before, kind, key, for_date, at, response),
    ensures
        latest_response(cache.rows@, kind, key) == Some(response),
{
}

/// Storing under one kind and key leaves what is read under any other as it was.
pub proof fn law_other_entries_are_untouched(
    before: Cache,
    cache: Cache,
    kind: Seq<char>,
    key: Seq<char>,
    for_date: Option<Date>,
    at: Seq<char>,
    response: Seq<char>,
    other_kind: Seq<char>,
    other_key: Seq<char>,
)
    requires
        cache.recorded(before, kind, key, for_date, at, response),
        other_kind != kind || other_key != key,
    ensures
        latest_row(cache.rows@, other_kind, other_key) == latest_row(
            before.rows@,
            other_kind,
            other_key,
        ),
{
}

/// The row that is read is the last that has both the kind and the key.
pub proof fn lemma_latest_row(rows: Seq<Row>, kind: Seq<char>, key: Seq<char>)
    ensures
        match latest_row(rows, kind, key) {
            Some(row) => exists|k: int|
                0 <= k < rows.len() && #[trigger] rows[k] == row && row.kind@ == kind && row.key@ == key
                    && forall|j: int|
                    k < j < rows.len() ==> !((#[trigger] rows[j]).kind@ == kind && rows[j].key@ == key),
            None => forall|j: int|
                0 <= j < rows.len() ==> !((#[trigger] rows[j]).kind@ == kind && rows[j].key@ == key),
        },
    decreases rows.len(),
{
    if rows.len() > 0 {
        let init = rows.drop_last();
        lemma_latest_row(init, kind, key);
        if rows.last().is_for(kind, key) {
            assert(rows[rows.len() - 1] == rows.last());
        } else {
            assert(forall|j: int| 0 <= j < init.len() ==> #[trigger] rows[j] == init[j]);
            if let Some(row) = latest_row(init, kind, key) {
                let k = choose|k: int|
                    0 <= k < init.len() && #[trigger] init[k] == row && row.kind@ == kind && row.key@
                        == key && forall|j: int|
                        k < j < init.len() ==> !((#[trigger] init[j]).kind@ == kind && init[j].key@
                            == key);
                assert(rows[k] == row);
            }
        }
    }
}

/// What is read is the last entry that has both the kind and the key, and nothing
/// is read exactly when no entry has both.
pub proof fn law_the_last_entry_is_read(
    cache: &Cache,
    kind: &str,
    key: &str,
    r: Option<String>,
    k: int,
)
    requires
        call_ensures(Cache::lookup, (cache, kind, key), r),
        0 <= k < cache.rows@.len(),
        cache.rows@[k].kind@ == kind@ && cache.rows@[k].key@ == key@,
        forall|j: int|
            k < j < cache.rows@.len() ==> !((#[trigger] cache.rows@[j]).kind@ == kind@
                && cache.rows@[j].key@ == key@),
    ensures
        r is Some,
        r->0@ == cache.rows@[k].response@,
        forall|c: &Cache, s: Option<String>|
            (forall|j: int|
                0 <= j < c.rows@.len() ==> !((#[trigger] c.rows@[j]).kind@ == kind@
                    && c.rows@[j].key@ == key@)) && #[trigger] call_ensures(
                Cache::lookup,
                (c, kind, key),
                s,
            ) ==> s is None,
{
    lemma_latest_row(cache.rows@, kind@, key@);
    assert(crate::text::text_of(r) == latest_response(cache.rows@, kind@, key@));
    assert forall|c: &Cache, s: Option<String>|
        (forall|j: int|
            0 <= j < c.rows@.len() ==> !((#[trigger] c.rows@[j]).kind@ == kind@ && c.rows@[j].key@
                == key@)) && #[trigger] call_ensures(Cache::lookup, (c, kind, key), s) implies s is None by {
        lemma_latest_row(c.rows@, kind@, key@);
        assert(crate::text::text_of(s) == latest_response(c.rows@, kind@, key@));
    }
}

/// A call through the cache takes nothing out of it. It adds at most one entry, of
/// the kind, key and date of the call, with what is given; and the rules by which
/// entries are served stay.
pub proof fn law_a_call_only_adds<E: Reason>(
    before: Cache,
    cache: Cache,
    kind: Seq<char>,
    key: Seq<char>,
    for_date: Option<Date>,
    stable: bool,
    possible: spec_fn(Result<String, E>) -> bool,
    given: Result<String, E>,
)
    requires
        given_through(before, cache, kind, key, for_date, stable, possible, given),
    ensures
        before.rows@.is_prefix_of(cache.rows@),
        cache.rows@.len() <= before.rows@.len() + 1,
        cache.rows@.len() == before.rows@.len() + 1 ==> cache.rows@.last().kind@ == kind
            && cache.rows@.last().key@ == key && cache.rows@.last().for_date == for_date && given is Ok
            && cache.rows@.last().response@ == given->Ok_0@,
        cache.ttl_minutes == before.ttl_minutes,
        cache.refresh == before.refresh,
        given is Err ==> possible(given) && forall|j: int|
            0 <= j < before.rows@.len() ==> !((#[trigger] before.rows@[j]).kind@ == kind
                && before.rows@[j].key@ == key),
        given is Ok && cache.rows@.len() == before.rows@.len() ==> exists|j: int|
            0 <= j < before.rows@.len() && (#[trigger] before.rows@[j]).kind@ == kind
                && before.rows@[j].key@ == key && before.rows@[j].response@ == given->Ok_0@,
{
    lemma_latest_row(before.rows@, kind, key);
    if !(exists|read: Stamp|
        #[trigger] served_at(before, cache, kind, key, for_date, stable, read, given)) {
        let (read, stored, outcome) = choose|read: Stamp, stored: Stamp, outcome: Result<String, E>|
            possible(outcome) && #[trigger] fetched_at(
                before,
                cache,
                kind,
                key,
                for_date,
                stable,
                read,
                stored,
                outcome,
                given,
            );
        if outcome is Ok {
            assert(before.rows@ =~= cache.rows@.take(before.rows@.len() as int));
        }
    }
}

/// Something is asked for only where nothing may be served: an entry that is of a
/// day that is over, or that is stable, or young enough is served as it is, unless
/// live data is asked for.
pub proof fn law_young_entries_are_served(
    cache: Cache,
    kind: Seq<char>,
    key: Seq<char>,
    for_date: Option<Date>,
    stable: bool,
    now: Stamp,
    k: int,
)
    requires
        0 <= k < cache.rows@.len(),
        cache.rows@[k].kind@ == kind && cache.rows@[k].key@ == key,
        forall|j: int|
            k < j < cache.rows@.len() ==> !((#[trigger] cache.rows@[j]).kind@ == kind
                && cache.rows@[j].key@ == key),
        for_date matches Some(d) ==> !earlier(d, now.date),
    ensures
        cache.refresh ==> cache.fresh(kind, key, for_date, stable, now) is None,
        !cache.refresh && stable ==> cache.fresh(kind, key, for_date, stable, now) == Some(
            cache.rows@[k].response@,
        ),
        !cache.refresh && !stable && rfc3339_read(cache.rows@[k].requested_at@) is Some ==> {
            let made = rfc3339_read(cache.rows@[k].requested_at@)->0;
            &&& minutes_between(made, (now.secs, now.nanos)) < cache.ttl_minutes ==> cache.fresh(
                kind,
                key,
                for_date,
                stable,
                now,
            ) == Some(cache.rows@[k].response@)
            &&& minutes_between(made, (now.secs, now.nanos)) >= cache.ttl_minutes ==> cache.fresh(
                kind,
                key,
                for_date,
                stable,
                now,
            ) is None
        },
{
    lemma_latest_row(cache.rows@, kind, key);
}

/// A recorded response about a date that has passed is served for good, whatever
/// its age and even when live data is asked for.
pub proof fn law_past_dates_are_served(
    cache: Cache,
    kind: Seq<char>,
    key: Seq<char>,
    date: Date,
    stable: bool,
    now: Stamp,
)
    requires
        earlier(date, now.date),
    ensures
        cache.fresh(kind, key, Some(date), stable, now) == latest_response(cache.rows@, kind, key),
{
}

/// When live data is asked for, nothing but past dates is served.
pub proof fn law_refresh_serves_only_the_past(
    cache: Cache,
    kind: Seq<char>,
    key: Seq<char>,
    for_date: Option<Date>,
    stable: bool,
    now: Stamp,
)
    requires
        cache.refresh,
        for_date matches Some(d) ==> !earlier(d, now.date),
    ensures
        cache.fresh(kind, key, for_date, stable, now) is None,
{
}

/// A stable response never goes stale.
pub proof fn law_stable_entries_never_expire(
    cache: Cache,
    kind: Seq<char>,
    key: Seq<char>,
    for_date: Option<Date>,
    now: Stamp,
)
    requires
        !cache.refresh,
    ensures
        cache.fresh(kind, key, for_date, true, now) == latest_response(cache.rows@, kind, key),
{
}

/// A response is served again until it has reached the time to live, and not
/// afterwards.
pub proof fn law_served_within_the_time_to_live(
    before: Cache,
    cache: Cache,
    kind: Seq<char>,
    key: Seq<char>,
    for_date: Option<Date>,
    stored: Stamp,
    response: Seq<char>,
    now: Stamp,
)
    requires
        cache.recorded(before, kind, key, for_date, stored.text@, response),
        stored.wf(),
        stored.writable(),
        !cache.refresh,
        for_date matches Some(d) ==> !earlier(d, now.date),
    ensures
        cache.fresh(kind, key, for_date, false, now) == (if minutes_between(
            (stored.secs, stored.nanos),
            (now.secs, now.nanos),
        ) < cache.ttl_minutes {
            Some(response)
        } else {
            None
        }),
{
}

/// With no time to live, nothing but past dates and stable responses is served,
/// as long as the clock does not run backwards.
pub proof fn law_no_time_to_live_serves_nothing(
    cache: Cache,
    kind: Seq<char>,
    key: Seq<char>,
    for_date: Option<Date>,
    now: Stamp,
)
    requires
        cache.ttl_minutes <= 0,
        for_date matches Some(d) ==> !earlier(d, now.date),
        latest_row(cache.rows@, kind, key) matches Some(row) ==> row.age(now) >= 0,
    ensures
        cache.fresh(kind, key, for_date, false, now) is None,
{
}

/// A failed call is answered with whatever was stored last under its kind and
/// key, and a call fails only when nothing was.
pub proof fn law_failures_fall_back<E: Reason>(
    before: Cache,
    cache: Cache,
    kind: Seq<char>,
    key: Seq<char>,
    for_date: Option<Date>,
    error: E,
    at: Seq<char>,
    given: Result<String, E>,
)
    requires
        cache.settled(before, kind, key, for_date, Err(error), at, given),
    ensures
        given is Ok <==> latest_response(before.rows@, kind, key) is Some,
        given matches Ok(body) ==> latest_response(before.rows@, kind, key) == Some(body@),
        given is Err ==> given == Err::<String, E>(error),
        given is Ok ==> cache.fell_back(before, kind, error),
        cache.rows@ == before.rows@,
{
}

/// A call that succeeded is served to the next one like it, until it is stale.
pub proof fn law_a_success_is_served_next<E: Reason>(
    before: Cache,
    cache: Cache,
    kind: Seq<char>,
    key: Seq<char>,
    for_date: Option<Date>,
    body: String,
    stored: Stamp,
    given: Result<String, E>,
    now: Stamp,
)
    requires
        cache.settled(before, kind, key, for_date, Ok(body), stored.text@, given),
        stored.wf(),
        stored.writable(),
        !cache.refresh,
        minutes_between((stored.secs, stored.nanos), (now.secs, now.nanos)) < cache.ttl_minutes,
    ensures
        cache.fresh(kind, key, for_date, false, now) == Some(body@),
{
}

// --- Functions ----------------------------------------------------------------

impl Row {
    fn matches(&self, kind: &str, key: &str) -> (r: bool)
        ensures
            r == self.is_for(kind@, key@),
    {
        same_str(self.kind.as_str(), kind) && same_str(self.key.as_str(), key)
    }
}

impl Cache {
    /// A cache over rows recorded earlier, oldest first.
    pub fn from_rows(rows: Vec<Row>, ttl_minutes: i64, refresh: bool) -> (r: Cache)
        ensures
            r.rows == rows,
            r.ttl_minutes == ttl_minutes,
            r.refresh == refresh,
            r.fallbacks@.len() == 0,
    {
        Cache { rows, ttl_minutes, refresh, fallbacks: Vec::new() }
    }

    /// Records a response, with the time of the call as `at`. `key` should hold
    /// every parameter, any date among them; `for_date` is the date that the
    /// response is about.
    pub fn store_at(
        &mut self,
        kind: &str,
        key: &str,
        for_date: Option<Date>,
        response: &str,
        at: &Stamp,
    )
        ensures
            final(self).recorded(*old(self), kind@, key@, for_date, at.text@, response@),
    {
        self.rows.push(
            Row {
                kind: kind.to_string(),
                key: key.to_string(),
                for_date,
                requested_at: at.text.clone(),
                response: response.to_string(),
            },
        );
        assert(self.rows@.drop_last() =~= old(self).rows@);
    }

    /// Records a response as made now.
    pub fn store(&mut self, kind: &str, key: &str, for_date: Option<Date>, response: &str)
        ensures
            exists|at: Stamp|
                reads(at) && at.wf() && #[trigger] final(self).recorded(
                    *old(self),
                    kind@,
                    key@,
                    for_date,
                    at.text@,
                    response@,
                ),
    {
        let at: Stamp = read_clock();
        self.store_at(kind, key, for_date, response, &at);
    }

    /// The index of the newest row of this kind with this key.
    fn latest(&self, kind: &str, key: &str) -> (r: Option<usize>)
        ensures
            match r {
                Some(i) => i < self.rows@.len() && latest_row(self.rows@, kind@, key@) == Some(
                    self.rows@[i as int],
                ),
                None => latest_row(self.rows@, kind@, key@) is None,
            },
    {
        let mut n: usize = self.rows.len();
        assert(self.rows@.take(n as int) =~= self.rows@);
        while n > 0
            invariant
                n <= self.rows@.len(),
                latest_row(self.rows@.take(n as int), kind@, key@) == latest_row(
                    self.rows@,
                    kind@,
                    key@,
                ),
            decreases n,
        {
            assert(self.rows@.take(n as int).last() == self.rows@[n - 1]);
            assert(self.rows@.take(n as int).drop_last() =~= self.rows@.take(n - 1));
            if self.rows[n - 1].matches(kind, key) {
                return Some(n - 1);
            }
            n = n - 1;
        }
        None
    }

    /// The newest response of this kind with this key, whatever its age.
    pub fn lookup(&self, kind: &str, key: &str) -> (r: Option<String>)
        ensures
            crate::text::text_of(r) == latest_response(self.rows@, kind@, key@),
    {
        match self.latest(kind, key) {
            Some(i) => Some(self.rows[i].response.clone()),
            None => None,
        }
    }

    /// The response that may be used again at the time `now`, if there is one:
    /// one about a past date always, a stable one unless live data is asked for,
    /// and any other one while it is younger than the time to live.
    pub fn get_fresh_at(
        &self,
        kind: &str,
        key: &str,
        for_date: Option<Date>,
        stable: bool,
        now: &Stamp,
    ) -> (r: Option<String>)
        requires
            now.wf(),
        ensures
            crate::text::text_of(r) == self.fresh(kind@, key@, for_date, stable, *now),
    {
        match self.latest(kind, key) {
            None => None,
            Some(i) => {
                let row: &Row = &self.rows[i];
                let past: bool = match for_date {
                    Some(d) => is_earlier(d, now.date),
                    None => false,
                };
                if past {
                    return Some(row.response.clone());
                }
                if self.refresh {
                    return None;
                }
                if stable {
                    return Some(row.response.clone());
                }
                let made: (i64, u32) = match parse_rfc3339(row.requested_at.as_str()) {
                    Some(t) => t,
                    None => (now.secs, now.nanos),
                };
                let age: i64 = minutes_from(made, (now.secs, now.nanos));
                if age < self.ttl_minutes {
                    Some(row.response.clone())
                } else {
                    None
                }
            },
        }
    }

    /// The response that may be used again now, if there is one.
    pub fn get_fresh(&self, kind: &str, key: &str, for_date: Option<Date>, stable: bool) -> (r: Option<
        String,
    >)
        ensures
            exists|at: Stamp|
                reads(at) && at.wf() && crate::text::text_of(r) == #[trigger] self.fresh(
                    kind@,
                    key@,
                    for_date,
                    stable,
                    at,
                ),
    {
        let at: Stamp = read_clock();
        self.get_fresh_at(kind, key, for_date, stable, &at)
    }

    /// Takes what a live call came to. A success is recorded and given; a
    /// failure is answered with the newest response of this kind with this key,
    /// and is given itself when there is none.
    pub fn settle<E: Reason>(
        &mut self,
        kind: &str,
        key: &str,
        for_date: Option<Date>,
        outcome: Result<String, E>,
        at: &Stamp,
    ) -> (r: Result<String, E>)
        ensures
            final(self).settled(*old(self), kind@, key@, for_date, outcome, at.text@, r),
    {
        match outcome {
            Ok(body) => {
                self.store_at(kind, key, for_date, body.as_str(), at);
                Ok(body)
            },
            Err(e) => match self.lookup(kind, key) {
                Some(old_body) => {
                    let reason: String = e.reason();
                    assert(gives_reason(e, reason));
                    self.fallbacks.push(Fallback { kind: kind.to_string(), reason });
                    assert(self.fallbacks@.drop_last() =~= old(self).fallbacks@);
                    Ok(old_body)
                },
                None => Err(e),
            },
        }
    }

    /// Gives a fresh recorded response, or makes the call with `fetch` and takes
    /// what it comes to.
    pub fn get_or_fetch<E: Reason, F: FnOnce() -> Result<String, E>>(
        &mut self,
        kind: &str,
        key: &str,
        for_date: Option<Date>,
        stable: bool,
        fetch: F,
    ) -> (r: Result<String, E>)
        requires
            fetch.requires(()),
        ensures
            given_through(
                *old(self),
                *final(self),
                kind@,
                key@,
                for_date,
                stable,
                |outcome: Result<String, E>| fetch.ensures((), outcome),
                r,
            ),
    {
        let read: Stamp = read_clock();
        match self.get_fresh_at(kind, key, for_date, stable, &read) {
            Some(hit) => {
                assert(served_at(*old(self), *self, kind@, key@, for_date, stable, read, Ok::<String, E>(hit)));
                Ok(hit)
            },
            None => {
                let outcome: Result<String, E> = fetch();
                let ghost came = outcome;
                let stored: Stamp = read_clock();
                let r: Result<String, E> = self.settle(kind, key, for_date, outcome, &stored);
                assert(fetched_at(*old(self), *self, kind@, key@, for_date, stable, read, stored, came, r));
                r
            },
        }
    }
}

/// The answer is a recorded response that was fresh at the time `read`.
pub open spec fn served_at<E: Reason>(
    before: Cache,
    cache: Cache,
    kind: Seq<char>,
    key: Seq<char>,
    for_date: Option<Date>,
    stable: bool,
    read: Stamp,
    given: Result<String, E>,
) -> bool {
    &&& reads(read) && read.wf()
    &&& given matches Ok(body)
    &&& before.fresh(kind, key, for_date, stable, read) == Some(body@)
    &&& cache.unchanged(before)
}

/// Nothing was fresh at the time `read`; the call came to `outcome`, which was
/// taken at the time `stored`.
pub open spec fn fetched_at<E: Reason>(
    before: Cache,
    cache: Cache,
    kind: Seq<char>,
    key: Seq<char>,
    for_date: Option<Date>,
    stable: bool,
    read: Stamp,
    stored: Stamp,
    outcome: Result<String, E>,
    given: Result<String, E>,
) -> bool {
    &&& reads(read) && read.wf()
    &&& reads(stored) && stored.wf()
    &&& before.fresh(kind, key, for_date, stable, read) is None
    &&& cache.settled(before, kind, key, for_date, outcome, stored.text@, given)
}

/// What a cached call gives and leaves behind, whenever it was made: a recorded
/// response that is fresh, or what the call itself came to, which is one of its
/// `possible` outcomes.
pub open spec fn given_through<E: Reason>(
    before: Cache,
    cache: Cache,
    kind: Seq<char>,
    key: Seq<char>,
    for_date: Option<Date>,
    stable: bool,
    possible: spec_fn(Result<String, E>) -> bool,
    given: Result<String, E>,
) -> bool {
    ||| exists|read: Stamp|
        #[trigger] served_at(before, cache, kind, key, for_date, stable, read, given)
    ||| exists|read: Stamp, stored: Stamp, outcome: Result<String, E>|
        possible(outcome) && #[trigger] fetched_at(
            before,
            cache,
            kind,
            key,
            for_date,
            stable,
            read,
            stored,
            outcome,
            given,
        )
}

/// What a call gives and leaves behind when it is made through the cache, if
/// there is one, and plainly otherwise.
pub open spec fn called_through<E: Reason>(
    before: Option<Cache>,
    cache: Option<Cache>,
    kind: Seq<char>,
    key: Seq<char>,
    for_date: Option<Date>,
    stable: bool,
    possible: spec_fn(Result<String, E>) -> bool,
    given: Result<String, E>,
) -> bool {
    match (before, cache) {
        (Some(b), Some(c)) => given_through(b, c, kind, key, for_date, stable, possible, given),
        (None, None) => possible(given),
        _ => false,
    }
}

/// A call that was made through the cache with some possible outcomes is also one
/// with any more.
pub proof fn lemma_called_through<E: Reason>(
    before: Option<Cache>,
    cache: Option<Cache>,
    kind: Seq<char>,
    key: Seq<char>,
    for_date: Option<Date>,
    stable: bool,
    possible: spec_fn(Result<String, E>) -> bool,
    more: spec_fn(Result<String, E>) -> bool,
    given: Result<String, E>,
)
    requires
        called_through(before, cache, kind, key, for_date, stable, possible, given),
        forall|outcome: Result<String, E>| #[trigger] possible(outcome) ==> more(outcome),
    ensures
        called_through(before, cache, kind, key, for_date, stable, more, given),
{
    if let Some(b) = before {
        let c = cache->0;
        if !exists|read: Stamp| #[trigger]
            served_at(b, c, kind, key, for_date, stable, read, given) {
            let (read, stored, outcome) = choose|
                read: Stamp,
                stored: Stamp,
                outcome: Result<String, E>,
            |
                possible(outcome) && #[trigger] fetched_at(
                    b,
                    c,
                    kind,
                    key,
                    for_date,
                    stable,
                    read,
                    stored,
                    outcome,
                    given,
                );
            assert(more(outcome) && fetched_at(
                b,
                c,
                kind,
                key,
                for_date,
                stable,
                read,
                stored,
                outcome,
                given,
            ));
        }
    }
}

/// Makes a call through the cache when there is one, and plainly otherwise.
pub fn cached<E: Reason, F: FnOnce() -> Result<String, E>>(
    cache: &mut Option<Cache>,
    kind: &str,
    key: &str,
    for_date: Option<Date>,
    stable: bool,
    fetch: F,
) -> (r: Result<String, E>)
    requires
        fetch.requires(()),
    ensures
        called_through(
            *old(cache),
            *final(cache),
            kind@,
            key@,
            for_date,
            stable,
            |outcome: Result<String, E>| fetch.ensures((), outcome),
            r,
        ),
{
    match cache {
        Some(c) => c.get_or_fetch(kind, key, for_date, stable, fetch),
        None => fetch(),
    }
}

/// What is given is an answer of this kind and key that was kept.
pub open spec fn kept<E>(
    before: Option<Cache>,
    kind: Seq<char>,
    key: Seq<char>,
    given: Result<String, E>,
) -> bool {
    before is Some && given is Ok && exists|j: int|
        0 <= j < (before->0).rows@.len() && (#[trigger] (before->0).rows@[j]).kind@ == kind
            && (before->0).rows@[j].key@ == key && (before->0).rows@[j].response@ == given->Ok_0@
}

/// What a call through the cache gives is what asking gives, or an answer of the
/// same kind and key that was kept. Without a cache it is what asking gives.
pub proof fn law_given_is_asked_for_or_kept<E: Reason>(
    before: Option<Cache>,
    cache: Option<Cache>,
    kind: Seq<char>,
    key: Seq<char>,
    for_date: Option<Date>,
    stable: bool,
    possible: spec_fn(Result<String, E>) -> bool,
    given: Result<String, E>,
)
    requires
        called_through(before, cache, kind, key, for_date, stable, possible, given),
    ensures
        possible(given) || kept(before, kind, key, given),
        before is None <==> cache is None,
        before is None ==> possible(given),
{
    if let Some(b) = before {
        let c = cache->0;
        lemma_latest_row(b.rows@, kind, key);
        if !(exists|read: Stamp|
            #[trigger] served_at(b, c, kind, key, for_date, stable, read, given)) {
            let (read, stored, outcome) = choose|
                read: Stamp,
                stored: Stamp,
                outcome: Result<String, E>,
            |
                possible(outcome) && #[trigger] fetched_at(
                    b,
                    c,
                    kind,
                    key,
                    for_date,
                    stable,
                    read,
                    stored,
                    outcome,
                    given,
                );
            if outcome is Ok {
                assert(given == outcome);
            } else if latest_response(b.rows@, kind, key) is None {
                assert(given == outcome);
            }
        }
    }
}

/// An answer that stays true is asked for once: where it was kept, and live data is
/// not asked for, nothing is added.
pub proof fn law_stable_answers_are_asked_for_once<E: Reason>(
    before: Cache,
    cache: Option<Cache>,
    kind: Seq<char>,
    key: Seq<char>,
    for_date: Option<Date>,
    possible: spec_fn(Result<String, E>) -> bool,
    given: Result<String, E>,
    k: int,
)
    requires
        called_through(Some(before), cache, kind, key, for_date, true, possible, given),
        !before.refresh,
        0 <= k < before.rows@.len(),
        before.rows@[k].kind@ == kind && before.rows@[k].key@ == key,
    ensures
        cache is Some && (cache->0).rows@ == before.rows@,
        kept(Some(before), kind, key, given),
{
    lemma_latest_row(before.rows@, kind, key);
    let c = cache->0;
    let row = latest_row(before.rows@, kind, key);
    assert(row is Some);
    assert(forall|read: Stamp| #[trigger]
        before.fresh(kind, key, for_date, true, read) == Some((row->0).response@));
}

/// A failure that an earlier answer stands in for is told by its kind and its
/// reason.
pub proof fn law_fallbacks_are_told(f: &Fallback, r: String)
    requires
        call_ensures(Fallback::message, (f,), r),
    ensures
        crate::text::begins_with(r@, f.kind@),
        crate::text::contains_text(r@, "("@ + f.reason@ + ")"@),
{
    reveal_strlit(" fetch failed (");
    reveal_strlit(" fetch failed ");
    reveal_strlit("(");
    reveal_strlit(")");
    reveal_strlit("); using cached copy");
    reveal_strlit("; using cached copy");
    let part = "("@ + f.reason@ + ")"@;
    assert(" fetch failed ("@ =~= " fetch failed "@ + "("@);
    assert("); using cached copy"@ =~= ")"@ + "; using cached copy"@);
    assert(r@ =~= (f.kind@ + " fetch failed "@) + part + "; using cached copy"@);
    crate::text::lemma_occurs_between(
        f.kind@ + " fetch failed "@,
        part,
        "; using cached copy"@,
    );
    assert(r@.subrange(0, f.kind@.len() as int) =~= f.kind@);
}

/// An entry whose time cannot be read counts as just made: it is served wherever
/// anything is.
pub proof fn law_unreadable_times_count_as_now(
    cache: Cache,
    kind: Seq<char>,
    key: Seq<char>,
    for_date: Option<Date>,
    stable: bool,
    now: Stamp,
)
    requires
        latest_row(cache.rows@, kind, key) is Some,
        rfc3339_read((latest_row(cache.rows@, kind, key)->0).requested_at@) is None,
        !cache.refresh,
        cache.ttl_minutes > 0,
    ensures
        cache.fresh(kind, key, for_date, stable, now) == latest_response(cache.rows@, kind, key),
{
    let row = latest_row(cache.rows@, kind, key)->0;
    let t = (now.secs, now.nanos);
    assert(row.made_at(now) == t);
    assert(minutes_between(t, t) == 0);
}

} // verus!
