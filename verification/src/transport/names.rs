//! Names of stops, remembered by code, so that a stop pinned by its code still
//! has a name when the departure board cannot be had.

use vstd::prelude::*;

use crate::cache::{
    latest_response, latest_row, law_other_entries_are_untouched, lemma_latest_row, law_reads_back_what_was_stored,
    Cache,
};
use crate::date::{read_clock, reads, Stamp};
use crate::text::{same_str, text_of};
use crate::transport::places::Place;

verus! {

// --- Models ------------------------------------------------------------------

/// The name remembered for a code.
pub open spec fn name_of(cache: Option<Cache>, code: Seq<char>) -> Option<Seq<char>> {
    match cache {
        Some(c) => latest_response(c.rows@, "name"@, code),
        None => None,
    }
}

/// Nothing but names has been recorded since `before`.
pub open spec fn only_names(cache: Option<Cache>, before: Option<Cache>) -> bool {
    match (before, cache) {
        (Some(b), Some(c)) => {
            &&& c.same_rules(b)
            &&& c.fallbacks@ == b.fallbacks@
            &&& b.rows@.is_prefix_of(c.rows@)
            &&& forall|kind: Seq<char>, key: Seq<char>|
                kind != "name"@ ==> #[trigger] latest_row(c.rows@, kind, key) == latest_row(
                    b.rows@,
                    kind,
                    key,
                )
        },
        (None, None) => true,
        _ => false,
    }
}

/// The name of a code has been recorded since `before`, as of a reading of the
/// clock, if there is a cache.
pub open spec fn name_recorded(
    before: Option<Cache>,
    cache: Option<Cache>,
    code: Seq<char>,
    name: Seq<char>,
) -> bool {
    match (before, cache) {
        (Some(b), Some(c)) => exists|at: Stamp| #[trigger]
            reads(at) && c.recorded(b, "name"@, code, None, at.text@, name),
        (None, None) => true,
        _ => false,
    }
}

/// The name of a code once the names of the places have been remembered: that
/// of the last place with the code, or else the one that was known before.
pub open spec fn name_after(places: Seq<Place>, code: Seq<char>, known: Option<Seq<char>>) -> Option<
    Seq<char>,
>
    decreases places.len(),
{
    if places.len() == 0 {
        known
    } else if places.last().any_code() == Some(code) {
        Some(places.last().shown())
    } else {
        name_after(places.drop_last(), code, known)
    }
}

// --- Laws ---------------------------------------------------------------------

/// The place goes by this code: its station code, or, where it has none, the code
/// of the stop.
pub open spec fn goes_by(p: Place, code: Seq<char>) -> bool {
    match p.station_code {
        Some(c) => c@ == code,
        None => p.atcocode matches Some(c) && c@ == code,
    }
}

/// The name remembered for a code is that of the last place that goes by it, and
/// otherwise the one that was known.
pub proof fn law_the_last_name_counts(
    places: Seq<Place>,
    code: Seq<char>,
    known: Option<Seq<char>>,
)
    ensures
        forall|k: int|
            0 <= k < places.len() && goes_by(#[trigger] places[k], code) && (forall|j: int|
                k < j < places.len() ==> !goes_by(#[trigger] places[j], code)) ==> name_after(
                places,
                code,
                known,
            ) == Some(places[k].shown()),
        (forall|j: int| 0 <= j < places.len() ==> !goes_by(#[trigger] places[j], code))
            ==> name_after(places, code, known) == known,
    decreases places.len(),
{
    if places.len() > 0 {
        let init = places.drop_last();
        law_the_last_name_counts(init, code, known);
        assert forall|k: int|
            0 <= k < places.len() && goes_by(#[trigger] places[k], code) && (forall|j: int|
                k < j < places.len() ==> !goes_by(#[trigger] places[j], code)) implies name_after(
            places,
            code,
            known,
        ) == Some(places[k].shown()) by {
            if k < init.len() {
                assert(!goes_by(places[places.len() - 1], code));
                assert(init[k] == places[k]);
                assert forall|j: int| k < j < init.len() implies !goes_by(#[trigger] init[j], code) by {
                    assert(init[j] == places[j]);
                }
            }
        }
        if forall|j: int| 0 <= j < places.len() ==> !goes_by(#[trigger] places[j], code) {
            assert(!goes_by(places[places.len() - 1], code));
            assert forall|j: int| 0 <= j < init.len() implies !goes_by(#[trigger] init[j], code) by {
                assert(init[j] == places[j]);
            }
        }
    }
}

/// The name of a code is the last that was remembered for it.
pub proof fn law_the_last_name_is_remembered(cache: Cache, code: Seq<char>, k: int)
    requires
        0 <= k < cache.rows@.len(),
        cache.rows@[k].kind@ == "name"@ && cache.rows@[k].key@ == code,
        forall|j: int|
            k < j < cache.rows@.len() ==> !((#[trigger] cache.rows@[j]).kind@ == "name"@
                && cache.rows@[j].key@ == code),
    ensures
        name_of(Some(cache), code) == Some(cache.rows@[k].response@),
{
    lemma_latest_row(cache.rows@, "name"@, code);
}

// --- Functions ----------------------------------------------------------------

/// Remembers the name of a code. A name that is already known is not recorded
/// again.
pub fn remember_name(cache: &mut Option<Cache>, code: &str, name: &str)
    ensures
        only_names(*final(cache), *old(cache)),
        *final(cache) is Some ==> name_of(*final(cache), code@) == Some(name@),
        forall|other: Seq<char>|
            other != code@ ==> #[trigger] name_of(*final(cache), other) == name_of(
                *old(cache),
                other,
            ),
        name_of(*old(cache), code@) == Some(name@) ==> *final(cache) == *old(cache),
        name_of(*old(cache), code@) != Some(name@) ==> name_recorded(
            *old(cache),
            *final(cache),
            code@,
            name@,
        ),
{
    match cache {
        Some(c) => {
            let known: bool = match c.lookup("name", code) {
                Some(n) => same_str(n.as_str(), name),
                None => false,
            };
            if !known {
                let ghost before = *c;
                let at: Stamp = read_clock();
                c.store_at("name", code, None, name, &at);
                proof {
                    law_reads_back_what_was_stored(
                        before,
                        *c,
                        "name"@,
                        code@,
                        None,
                        at.text@,
                        name@,
                    );
                    assert forall|kind: Seq<char>, key: Seq<char>|
                        kind != "name"@ || key != code@ implies #[trigger] latest_row(
                        c.rows@,
                        kind,
                        key,
                    ) == latest_row(before.rows@, kind, key) by {
                        law_other_entries_are_untouched(
                            before,
                            *c,
                            "name"@,
                            code@,
                            None,
                            at.text@,
                            name@,
                            kind,
                            key,
                        );
                    }
                    assert(c.rows@.subrange(0, before.rows@.len() as int) =~= c.rows@.drop_last());
                }
            }
        },
        None => {},
    }
}

/// The name remembered for a code.
pub fn cached_name(cache: &Option<Cache>, code: &str) -> (r: Option<String>)
    ensures
        text_of(r) == name_of(*cache, code@),
{
    match cache {
        Some(c) => c.lookup("name", code),
        None => None,
    }
}

/// Remembers the names of the places that have a code.
pub fn remember_names(cache: &mut Option<Cache>, places: &[Place])
    ensures
        only_names(*final(cache), *old(cache)),
        *old(cache) is Some ==> forall|code: Seq<char>| #[trigger]
            name_of(*final(cache), code) == name_after(places@, code, name_of(*old(cache), code)),
{
    let mut i: usize = 0;
    assert(places@.take(0) =~= Seq::<Place>::empty());
    proof {
        lemma_only_names_same(*cache);
    }
    while i < places.len()
        invariant
            i <= places@.len(),
            only_names(*cache, *old(cache)),
            *old(cache) is Some ==> forall|code: Seq<char>| #[trigger]
                name_of(*cache, code) == name_after(
                    places@.take(i as int),
                    code,
                    name_of(*old(cache), code),
                ),
        decreases places@.len() - i,
    {
        let ghost middle = *cache;
        let p: &Place = &places[i];
        proof {
            assert(places@.take(i + 1).drop_last() =~= places@.take(i as int));
            assert(places@.take(i + 1).last() == places@[i as int]);
        }
        let code: Option<String> = match &p.station_code {
            Some(c) => Some(c.clone()),
            None => crate::transport::places::copy_text(&p.atcocode),
        };
        if let Some(c) = code {
            let name: String = p.display_name();
            remember_name(cache, c.as_str(), name.as_str());
            proof {
                lemma_only_names(*old(cache), middle, *cache);
            }
        }
        i = i + 1;
    }
    assert(places@.take(i as int) =~= places@);
}

/// Nothing has been recorded since now.
pub proof fn lemma_only_names_same(a: Option<Cache>)
    ensures
        only_names(a, a),
{
    if let Some(c) = a {
        assert(c.rows@.subrange(0, c.rows@.len() as int) =~= c.rows@);
    }
}

proof fn lemma_only_names(a: Option<Cache>, b: Option<Cache>, c: Option<Cache>)
    requires
        only_names(b, a),
        only_names(c, b),
    ensures
        only_names(c, a),
{
    if let (Some(x), Some(y), Some(z)) = (a, b, c) {
        assert(z.rows@.subrange(0, x.rows@.len() as int) =~= y.rows@.subrange(
            0,
            x.rows@.len() as int,
        )) by {
            assert(z.rows@.subrange(0, y.rows@.len() as int) == y.rows@);
        }
    }
}

} // verus!
