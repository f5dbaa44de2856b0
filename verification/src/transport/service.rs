//! Talking to TransportAPI: addresses of requests, and keeping the application
//! key out of what is stored.

use vstd::prelude::*;

use crate::cache::{cached, called_through, fetched_at, given_through, Cache, Reason};
use crate::date::{Date, Stamp};
use crate::text::{
    chars_of, contains_text, joined, lemma_pieces_free, occurs_at, pieces, replace, replaced,
    string_of,
};
use crate::transport::{gives, replies, takes_any};

verus! {

/// What stands for the application key in stored responses.
pub const PLACEHOLDER: &'static str = "APP_KEY";

// --- Models ------------------------------------------------------------------

/// `body` with every occurrence of the key replaced by the placeholder.
pub open spec fn redacted(body: Seq<char>, app_key: Seq<char>) -> Seq<char> {
    if app_key.len() == 0 {
        body
    } else {
        replaced(body, app_key, PLACEHOLDER@)
    }
}

/// A reply with the key kept out of it.
pub open spec fn redacted_reply<E>(
    reply: Result<String, E>,
    app_key: Seq<char>,
    outcome: Result<String, E>,
) -> bool {
    match reply {
        Ok(body) => outcome matches Ok(o) && o@ == redacted(body@, app_key),
        Err(e) => outcome == Err::<String, E>(e),
    }
}

/// The two texts can overlap: one stands within the other, or the end of one is
/// the beginning of the other.
pub open spec fn can_overlap(a: Seq<char>, b: Seq<char>) -> bool {
    ||| contains_text(a, b)
    ||| contains_text(b, a)
    ||| exists|n: int| #[trigger] ends_as_begins(a, b, n)
    ||| exists|n: int| #[trigger] ends_as_begins(b, a, n)
}

/// The last `n` characters of `a` are the first `n` of `b`.
pub open spec fn ends_as_begins(a: Seq<char>, b: Seq<char>, n: int) -> bool {
    0 < n <= a.len() && n <= b.len() && a.skip(a.len() - n) == b.take(n)
}

// --- Laws ---------------------------------------------------------------------

proof fn lemma_joined_free(parts: Seq<Seq<char>>, key: Seq<char>, mark: Seq<char>)
    requires
        key.len() > 0,
        mark.len() > 0,
        !can_overlap(key, mark),
        forall|i: int| 0 <= i < parts.len() ==> !contains_text(#[trigger] parts[i], key),
    ensures
        !contains_text(joined(parts, mark), key),
    decreases parts.len(),
{
    let all = joined(parts, mark);
    if contains_text(all, key) {
        let i = choose|i: int| #[trigger] occurs_at(all, key, i);
        let k = key.len() as int;
        if parts.len() == 0 {
        } else if parts.len() == 1 {
            assert(!contains_text(parts[0], key));
        } else {
            let init = parts.drop_last();
            assert forall|j: int| 0 <= j < init.len() implies !contains_text(
                #[trigger] init[j],
                key,
            ) by {
                assert(init[j] == parts[j]);
            }
            lemma_joined_free(init, key, mark);
            let left = joined(init, mark);
            let last = parts.last();
            assert(!contains_text(parts[parts.len() - 1], key));
            let m = left.len() as int;
            let w = mark.len() as int;
            assert(all == left + mark + last);
            assert(all.subrange(i, i + k) == key);
            assert forall|j: int| 0 <= j < k implies #[trigger] key[j] == all[i + j] by {
                assert(all.subrange(i, i + k)[j] == all[i + j]);
            }
            if i + k <= m {
                assert(left.subrange(i, i + k) =~= key);
                assert(occurs_at(left, key, i));
            } else if i >= m + w {
                assert(last.subrange(i - m - w, i - m - w + k) =~= key);
                assert(occurs_at(last, key, i - m - w));
            } else if i >= m && i + k <= m + w {
                assert(mark.subrange(i - m, i - m + k) =~= key);
                assert(occurs_at(mark, key, i - m));
            } else if i <= m && i + k >= m + w {
                assert(key.subrange(m - i, m - i + w) =~= mark);
                assert(occurs_at(key, mark, m - i));
            } else if i > m {
                let n = m + w - i;
                assert(mark.skip(w - n) =~= key.take(n));
                assert(ends_as_begins(mark, key, n));
            } else {
                let n = i + k - m;
                assert(key.skip(k - n) =~= mark.take(n));
                assert(ends_as_begins(key, mark, n));
            }
        }
    }
}

/// The application key is not in a redacted response. A key that can overlap
/// with the placeholder is left out: the placeholder, with what stands around
/// it, could spell such a key anew.
pub proof fn law_redacted_holds_no_key(body: Seq<char>, app_key: Seq<char>)
    requires
        app_key.len() > 0,
        !can_overlap(app_key, PLACEHOLDER@),
    ensures
        !contains_text(redacted(body, app_key), app_key),
{
    reveal_strlit("APP_KEY");
    lemma_pieces_free(body, app_key);
    lemma_joined_free(pieces(body, app_key), app_key, PLACEHOLDER@);
}

/// A response that does not hold the key is stored as it is.
pub proof fn law_redacted_plain(body: Seq<char>, app_key: Seq<char>)
    requires
        !contains_text(body, app_key),
    ensures
        redacted(body, app_key) == body,
{
    crate::text::lemma_first_index(body, app_key);
}

/// The application key is never stored: whatever the service replies, a call
/// that goes through redaction adds no entry that holds it.
pub proof fn law_key_is_never_stored<E: Reason>(
    before: Cache,
    cache: Cache,
    kind: Seq<char>,
    key: Seq<char>,
    for_date: Option<Date>,
    stable: bool,
    possible: spec_fn(Result<String, E>) -> bool,
    app_key: Seq<char>,
    given: Result<String, E>,
    i: int,
)
    requires
        app_key.len() > 0,
        !can_overlap(app_key, PLACEHOLDER@),
        forall|outcome: Result<String, E>| #[trigger] possible(outcome) ==> outcome is Err || exists|
            reply: Result<String, E>,
        | #[trigger] redacted_reply(reply, app_key, outcome),
        given_through(before, cache, kind, key, for_date, stable, possible, given),
        before.rows@.len() <= i < cache.rows@.len(),
    ensures
        !contains_text(cache.rows@[i].response@, app_key),
{
    let (read, stored, outcome) = choose|read: Stamp, stored: Stamp, outcome: Result<String, E>|
        possible(outcome) && #[trigger] fetched_at(
            before,
            cache,
            kind,
            key,
            for_date,
            stable,
            read,
            stored,
            outcome,
            given,
        );
    assert(outcome is Ok);
    let reply = choose|reply: Result<String, E>| #[trigger]
        redacted_reply(reply, app_key, outcome);
    law_redacted_holds_no_key(reply->Ok_0@, app_key);
    assert(cache.rows@[i] == cache.rows@.last());
}

// --- Functions ----------------------------------------------------------------

/// Replaces every occurrence of the application key by a placeholder.
pub fn redact(body: &str, app_key: &str) -> (r: String)
    ensures
        r@ == redacted(body@, app_key@),
{
    let b: Vec<char> = chars_of(body);
    let k: Vec<char> = chars_of(app_key);
    if k.len() == 0 {
        return body.to_string();
    }
    let p: Vec<char> = chars_of(PLACEHOLDER);
    string_of(replace(b.as_slice(), k.as_slice(), p.as_slice()).as_slice())
}

/// Asks for `url` through the cache. The service writes the application key into
/// its responses, so it is taken out before anything is stored or given.
pub fn cached_get<E: Reason, G: Fn(&str) -> Result<String, E>>(
    cache: &mut Option<Cache>,
    kind: &str,
    key: &str,
    for_date: Option<Date>,
    stable: bool,
    url: &str,
    app_key: &str,
    get: &G,
) -> (r: Result<String, E>)
    requires
        takes_any(*get),
    ensures
        called_through(
            *old(cache),
            *final(cache),
            kind@,
            key@,
            for_date,
            stable,
            replies(*get, url@, app_key@),
            r,
        ),
{
    let fetch = || -> (outcome: Result<String, E>)
        requires
            takes_any(*get),
        ensures
            replies(*get, url@, app_key@)(outcome),
    {
        let reply: Result<String, E> = get(url);
        let ghost came = reply;
        let outcome: Result<String, E> = match reply {
            Ok(body) => Ok(redact(body.as_str(), app_key)),
            Err(e) => Err(e),
        };
        assert(gives(*get, url@, came));
        assert(redacted_reply(came, app_key@, outcome));
        outcome
    };
    cached(cache, kind, key, for_date, stable, fetch)
}

} // verus!
