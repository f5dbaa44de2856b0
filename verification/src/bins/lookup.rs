//! From the settings to one property of a council.

use vstd::prelude::*;

use crate::bins::address::{
    at_most, full_matches, head_matches, house_and_street, match_address, normalised, AddressError,
};
use crate::bins::BinSettings;
use crate::cache::{cached, called_through, gives_reason, lemma_called_through, Cache, Reason};
use crate::text::{
    all_ascii, ascii, ascii_upper, capital, chars_of, digit, law_case_does_not_matter, push_str,
    raised, same_ignoring_case, string_of, text_of, texts, word_char,
};
use crate::transport::{chosen_postcode, gives, postcode_for, takes_any};

verus! {

/// Why a property or its collections could not be looked up.
#[derive(Debug)]
pub enum LookupError<E> {
    /// There is no postcode in the settings and none in the address.
    NoPostcode,
    /// The council has no addresses for the postcode.
    NoAddresses {
        /// The postcode.
        postcode: String,
        /// The name of the council.
        council: String,
    },
    /// The address could not be matched.
    Address(AddressError),
    /// The page was still loading after all attempts.
    StillLoading {
        /// How many attempts were made.
        attempts: usize,
    },
    /// What was asked for could not be had or read.
    Outside(E),
}

// --- Models ------------------------------------------------------------------

/// A postcode as it is kept in keys: capital letters and digits only.
pub open spec fn postcode_key_text(postcode: Seq<char>) -> Seq<char> {
    raised(postcode).filter(|c: char| word_char(c))
}

/// The property that is looked for: that of the settings, or the address.
pub open spec fn wanted_property(cfg: BinSettings, address: Seq<char>) -> Seq<char> {
    match cfg.property {
        Some(p) => p@,
        None => address,
    }
}

/// The property that the settings name, or nothing.
pub open spec fn named_property(cfg: BinSettings) -> Seq<char> {
    match cfg.property {
        Some(p) => p@,
        None => Seq::empty(),
    }
}

/// One of the options was picked, or there is a reason why none was.
pub open spec fn picked<E>(
    options: Seq<(String, String)>,
    wanted: Seq<char>,
    postcode: Seq<char>,
    council: Seq<char>,
    r: Result<(String, String), LookupError<E>>,
) -> bool {
    let full = full_matches(options, wanted);
    let heads = head_matches(options, wanted);
    if options.len() == 0 {
        r matches Err(LookupError::NoAddresses { postcode: p, council: c }) && p@ == postcode && c@
            == council
    } else if full.len() > 0 {
        r == Ok::<(String, String), LookupError<E>>(full[0])
    } else if heads.len() == 1 {
        r == Ok::<(String, String), LookupError<E>>(heads[0])
    } else if heads.len() == 0 {
        r matches Err(LookupError::Address(AddressError::NoMatch { wanted: w, tried, candidates }))
            && w@ == wanted && tried@ == normalised(house_and_street(wanted)) && texts(candidates@)
            == at_most(options.map_values(|o: (String, String)| o.1@), 3)
    } else {
        r matches Err(LookupError::Address(AddressError::Ambiguous { wanted: w, count, choices }))
            && w@ == wanted && count == heads.len() && choices@ == at_most(heads, 5)
    }
}

/// What a function can read from a text.
pub open spec fn readings<T, R: Fn(&str) -> T>(read: R) -> spec_fn(Seq<char>, T) -> bool {
    |text: Seq<char>, result: T| gives(read, text, result)
}

/// What can be answered about a postcode.
pub open spec fn answers<E>(
    asks: spec_fn(Seq<char>, Result<String, E>) -> bool,
    postcode: Seq<char>,
) -> spec_fn(Result<String, E>) -> bool {
    |outcome: Result<String, E>| asks(postcode, outcome)
}

/// A search that is made and read in one way is also one that is made and read in
/// any ways that admit the same.
pub proof fn lemma_property_found<E: Reason>(
    before: Option<Cache>,
    cache: Option<Cache>,
    cfg: BinSettings,
    address: Seq<char>,
    kind: Seq<char>,
    council: Seq<char>,
    asks: spec_fn(Seq<char>, Result<String, E>) -> bool,
    others_asked: spec_fn(Seq<char>, Result<String, E>) -> bool,
    reads: spec_fn(Seq<char>, Result<Vec<(String, String)>, E>) -> bool,
    others: spec_fn(Seq<char>, Result<Vec<(String, String)>, E>) -> bool,
    r: Result<(String, String), LookupError<E>>,
)
    requires
        property_found(before, cache, cfg, address, kind, council, asks, reads, r),
        forall|text: Seq<char>, result: Result<String, E>| #[trigger]
            asks(text, result) ==> others_asked(text, result),
        forall|text: Seq<char>, result: Result<Vec<(String, String)>, E>| #[trigger]
            reads(text, result) ==> others(text, result),
    ensures
        property_found(before, cache, cfg, address, kind, council, others_asked, others, r),
{
    if cfg.property_id is None {
        if let Some(postcode) = chosen_postcode(cfg.postcode, address) {
            let wanted = wanted_property(cfg, address);
            let given = choose|given: Result<String, E>|
                called_through(
                    before,
                    cache,
                    kind,
                    postcode_key_text(postcode),
                    None,
                    true,
                    answers(asks, postcode),
                    given,
                ) && #[trigger] options_read(reads, wanted, postcode, council, given, r);
            lemma_called_through(
                before,
                cache,
                kind,
                postcode_key_text(postcode),
                None,
                true,
                answers(asks, postcode),
                answers(others_asked, postcode),
                given,
            );
            if let Ok(body) = given {
                let reply = choose|reply: Result<Vec<(String, String)>, E>| #[trigger]
                    reads(body@, reply) && match reply {
                        Err(e) => r == Err::<(String, String), LookupError<E>>(
                            LookupError::Outside(e),
                        ),
                        Ok(options) => picked(options@, wanted, postcode, council, r),
                    };
                assert(others(body@, reply));
            }
            assert(options_read(others, wanted, postcode, council, given, r));
        }
    }
}

/// What was had of the addresses is read, and one of them is picked.
pub open spec fn options_read<E>(
    reads: spec_fn(Seq<char>, Result<Vec<(String, String)>, E>) -> bool,
    wanted: Seq<char>,
    postcode: Seq<char>,
    council: Seq<char>,
    given: Result<String, E>,
    r: Result<(String, String), LookupError<E>>,
) -> bool {
    match given {
        Err(e) => r == Err::<(String, String), LookupError<E>>(LookupError::Outside(e)),
        Ok(body) => exists|reply: Result<Vec<(String, String)>, E>| #[trigger]
            reads(body@, reply) && match reply {
                Err(e) => r == Err::<(String, String), LookupError<E>>(LookupError::Outside(e)),
                Ok(options) => picked(options@, wanted, postcode, council, r),
            },
    }
}

/// The addresses of a postcode were asked for through the cache, and `r` is what
/// came of it.
pub open spec fn searched<E: Reason>(
    before: Option<Cache>,
    cache: Option<Cache>,
    kind: Seq<char>,
    postcode: Seq<char>,
    wanted: Seq<char>,
    council: Seq<char>,
    asks: spec_fn(Seq<char>, Result<String, E>) -> bool,
    reads: spec_fn(Seq<char>, Result<Vec<(String, String)>, E>) -> bool,
    r: Result<(String, String), LookupError<E>>,
) -> bool {
    exists|given: Result<String, E>|
        called_through(
            before,
            cache,
            kind,
            postcode_key_text(postcode),
            None,
            true,
            answers(asks, postcode),
            given,
        ) && #[trigger] options_read(reads, wanted, postcode, council, given, r)
}

/// The id of the property and the address that it was matched with, from the
/// settings or by a search.
pub open spec fn property_found<E: Reason>(
    before: Option<Cache>,
    cache: Option<Cache>,
    cfg: BinSettings,
    address: Seq<char>,
    kind: Seq<char>,
    council: Seq<char>,
    asks: spec_fn(Seq<char>, Result<String, E>) -> bool,
    reads: spec_fn(Seq<char>, Result<Vec<(String, String)>, E>) -> bool,
    r: Result<(String, String), LookupError<E>>,
) -> bool {
    match cfg.property_id {
        Some(id) => r matches Ok((i, a)) && i@ == id@ && a@ == named_property(cfg) && cache
            == before,
        None => match chosen_postcode(cfg.postcode, address) {
            None => r == Err::<(String, String), LookupError<E>>(LookupError::NoPostcode) && cache
                == before,
            Some(postcode) => searched(
                before,
                cache,
                kind,
                postcode,
                wanted_property(cfg, address),
                council,
                asks,
                reads,
                r,
            ),
        },
    }
}

// --- Laws ---------------------------------------------------------------------

/// Postcodes in ASCII that differ only in case and white space are kept under one
/// key, which holds every letter and digit.
pub proof fn law_postcodes_are_kept_under_one_key(a: Seq<char>, b: Seq<char>, space: char)
    requires
        all_ascii(a),
        all_ascii(b),
        ascii(space) && !word_char(space),
    ensures
        same_ignoring_case(a, b) ==> postcode_key_text(a) == postcode_key_text(b),
        postcode_key_text(a.push(space) + b) == postcode_key_text(a) + postcode_key_text(b),
        postcode_key_text(a + b) == postcode_key_text(a) + postcode_key_text(b),
        (forall|i: int| 0 <= i < a.len() ==> digit(#[trigger] a[i]) || capital(a[i]))
            ==> postcode_key_text(a) == a,
{
    if same_ignoring_case(a, b) {
        law_case_does_not_matter(a, b);
    }
    let p = |c: char| word_char(c);
    let f = |c: char| ascii_upper(c);
    let s = a.push(space) + b;
    assert forall|i: int| 0 <= i < s.len() implies ascii(#[trigger] s[i]) by {
        if i < a.len() {
            assert(ascii(a[i]));
        } else if i > a.len() {
            assert(ascii(b[i - a.len() - 1]));
        }
    }
    assert forall|i: int| 0 <= i < (a + b).len() implies ascii(#[trigger] (a + b)[i]) by {
        if i < a.len() {
            assert(ascii(a[i]));
        } else {
            assert(ascii(b[i - a.len()]));
        }
    }
    let gap = ascii_upper(space);
    assert(!p(gap));
    assert(raised(s) =~= raised(a).push(gap) + raised(b));
    assert(raised(a + b) =~= raised(a) + raised(b));
    Seq::filter_distributes_over_add(raised(a).push(gap), raised(b), p);
    Seq::filter_distributes_over_add(raised(a), raised(b), p);
    raised(a).lemma_filter_push(gap, p);
    if forall|i: int| 0 <= i < a.len() ==> digit(#[trigger] a[i]) || capital(a[i]) {
        assert(raised(a) =~= a);
        lemma_all_kept(a, p);
    }
}

proof fn lemma_all_kept(s: Seq<char>, p: spec_fn(char) -> bool)
    requires
        forall|i: int| 0 <= i < s.len() ==> p(#[trigger] s[i]),
    ensures
        s.filter(p) == s,
    decreases s.len(),
{
    reveal(Seq::filter);
    if s.len() > 0 {
        let t = s.drop_last();
        assert forall|i: int| 0 <= i < t.len() implies p(#[trigger] t[i]) by {
            assert(t[i] == s[i]);
        }
        lemma_all_kept(t, p);
        assert(p(s[s.len() - 1]));
        assert(s =~= t.push(s.last()));
    }
}

/// A property that is set by its id is taken as it is, without asking anything.
pub proof fn law_a_set_property_is_taken<E: Reason>(
    before: Option<Cache>,
    cache: Option<Cache>,
    cfg: BinSettings,
    address: Seq<char>,
    kind: Seq<char>,
    council: Seq<char>,
    asks: spec_fn(Seq<char>, Result<String, E>) -> bool,
    reads: spec_fn(Seq<char>, Result<Vec<(String, String)>, E>) -> bool,
    r: Result<(String, String), LookupError<E>>,
)
    requires
        property_found(before, cache, cfg, address, kind, council, asks, reads, r),
        cfg.property_id is Some,
    ensures
        r is Ok,
        r->Ok_0.0@ == cfg.property_id->0@,
        cache == before,
{
}

/// What is picked is one of the addresses of the council, and the one whose whole
/// address is the wanted one where there is such.
pub proof fn law_a_picked_property_is_listed<E>(
    options: &Vec<(String, String)>,
    wanted: &str,
    postcode: &str,
    council: &str,
    r: Result<(String, String), LookupError<E>>,
)
    requires
        call_ensures(pick::<E>, (options, wanted, postcode, council), r),
    ensures
        r matches Ok(hit) ==> options@.contains(hit),
        options@.len() == 0 <==> r matches Err(LookupError::NoAddresses { .. }),
        (exists|k: int|
            0 <= k < options@.len() && normalised((#[trigger] options@[k]).1@) == normalised(wanted@))
            ==> r is Ok && normalised(r->Ok_0.1@) == normalised(wanted@),
{
    let p = |o: (String, String)| normalised(o.1@) == normalised(wanted@);
    let q = |o: (String, String)|
        crate::bins::address::extends(
            normalised(o.1@),
            normalised(house_and_street(wanted@)),
        );
    let full = full_matches(options@, wanted@);
    let heads = head_matches(options@, wanted@);
    assert(full == options@.filter(p));
    assert(heads == options@.filter(q));
    if full.len() > 0 {
        assert(full.contains(full[0]));
        options@.lemma_filter_contains_rev(p, full[0]);
        options@.lemma_filter_pred(p, 0);
    }
    if heads.len() > 0 {
        assert(heads.contains(heads[0]));
        options@.lemma_filter_contains_rev(q, heads[0]);
    }
    if exists|k: int|
        0 <= k < options@.len() && normalised((#[trigger] options@[k]).1@) == normalised(wanted@) {
        let k = choose|k: int|
            0 <= k < options@.len() && normalised((#[trigger] options@[k]).1@) == normalised(
                wanted@,
            );
        options@.lemma_filter_contains(p, k);
    }
}

/// The property of the settings is looked for where there is one, and the address
/// otherwise.
pub proof fn law_what_is_looked_for(cfg: BinSettings, address: Seq<char>)
    ensures
        cfg.property is Some ==> wanted_property(cfg, address) == cfg.property->0@,
        cfg.property is None ==> wanted_property(cfg, address) == address,
{
}

// --- Functions ----------------------------------------------------------------

/// A postcode as it is kept in keys: capital letters and digits only.
pub fn postcode_key(postcode: &str) -> (r: String)
    ensures
        r@ == postcode_key_text(postcode@),
{
    let up: String = postcode.to_uppercase();
    let v: Vec<char> = chars_of(up.as_str());
    let mut out: Vec<char> = Vec::new();
    let ghost p = |c: char| word_char(c);
    let mut i: usize = 0;
    assert(v@.take(0) =~= Seq::<char>::empty());
    assert(v@.take(0).filter(p) =~= Seq::<char>::empty());
    while i < v.len()
        invariant
            i <= v@.len(),
            p == (|c: char| word_char(c)),
            out@ == v@.take(i as int).filter(p),
        decreases v@.len() - i,
    {
        proof {
            assert(v@.take(i + 1) =~= v@.take(i as int).push(v@[i as int]));
            v@.take(i as int).lemma_filter_push(v@[i as int], p);
        }
        if v[i].is_alphanumeric() {
            out.push(v[i]);
        }
        i = i + 1;
    }
    assert(v@.take(i as int) =~= v@);
    string_of(out.as_slice())
}

/// Picks the wanted property out of the addresses that a council has for a
/// postcode.
pub fn pick<E>(options: &Vec<(String, String)>, wanted: &str, postcode: &str, council: &str) -> (r:
    Result<(String, String), LookupError<E>>)
    ensures
        picked(options@, wanted@, postcode@, council@, r),
{
    if options.len() == 0 {
        return Err(
            LookupError::NoAddresses {
                postcode: postcode.to_string(),
                council: council.to_string(),
            },
        );
    }
    match match_address(options.as_slice(), wanted) {
        Ok(hit) => Ok(hit),
        Err(e) => Err(LookupError::Address(e)),
    }
}

/// The council's id for the property, and the address that it was matched with.
///
/// An id in the settings settles it. Otherwise the addresses of the postcode are
/// asked for; they do not change, so what was had once is kept for good.
pub fn property_id<
    E: Reason,
    F: Fn(&str) -> Result<String, E>,
    R: Fn(&str) -> Result<Vec<(String, String)>, E>,
>(
    cfg: &BinSettings,
    address: &str,
    cache: &mut Option<Cache>,
    kind: &str,
    council: &str,
    fetch: &F,
    read: &R,
) -> (r: Result<(String, String), LookupError<E>>)
    requires
        takes_any(*fetch),
        takes_any(*read),
    ensures
        property_found(
            *old(cache),
            *final(cache),
            *cfg,
            address@,
            kind@,
            council@,
            readings(*fetch),
            readings(*read),
            r,
        ),
{
    match &cfg.property_id {
        Some(id) => {
            let matched: String = match &cfg.property {
                Some(p) => p.clone(),
                None => String::new(),
            };
            Ok((id.clone(), matched))
        },
        None => match postcode_for(&cfg.postcode, address) {
            None => Err(LookupError::NoPostcode),
            Some(postcode) => {
                let wanted: &str = match &cfg.property {
                    Some(p) => p.as_str(),
                    None => address,
                };
                search(cache, kind, postcode.as_str(), wanted, council, fetch, read)
            },
        },
    }
}

/// Asks for the addresses of a postcode and picks the wanted one.
fn search<
    E: Reason,
    F: Fn(&str) -> Result<String, E>,
    R: Fn(&str) -> Result<Vec<(String, String)>, E>,
>(
    cache: &mut Option<Cache>,
    kind: &str,
    postcode: &str,
    wanted: &str,
    council: &str,
    fetch: &F,
    read: &R,
) -> (r: Result<(String, String), LookupError<E>>)
    requires
        takes_any(*fetch),
        takes_any(*read),
    ensures
        searched(
            *old(cache),
            *final(cache),
            kind@,
            postcode@,
            wanted@,
            council@,
            readings(*fetch),
            readings(*read),
            r,
        ),
{
    let key: String = postcode_key(postcode);
    let call = || -> (outcome: Result<String, E>)
        requires
            takes_any(*fetch),
        ensures
            gives(*fetch, postcode@, outcome),
    { fetch(postcode) };
    let given: Result<String, E> = cached(cache, kind, key.as_str(), None, true, call);
    proof {
        lemma_called_through(
            *old(cache),
            *cache,
            kind@,
            key@,
            None,
            true,
            |outcome: Result<String, E>| call.ensures((), outcome),
            answers(readings(*fetch), postcode@),
            given,
        );
    }
    let ghost came = given;
    let r: Result<(String, String), LookupError<E>> = match given {
        Err(e) => Err(LookupError::Outside(e)),
        Ok(body) => {
            let reply: Result<Vec<(String, String)>, E> = read(body.as_str());
            assert(readings(*read)(body@, reply));
            match reply {
                Err(e) => Err(LookupError::Outside(e)),
                Ok(options) => pick(&options, wanted, postcode, council),
            }
        },
    };
    assert(options_read(readings(*read), wanted@, postcode@, council@, came, r));
    r
}

impl<E> LookupError<E> {
    /// The message for the errors that arise here; nothing for those from
    /// outside, which have their own.
    pub open spec fn text(self) -> Option<Seq<char>> {
        match self {
            LookupError::NoPostcode => Some(
                "no `postcode` set in [bins] and none found in the address"@,
            ),
            LookupError::NoAddresses { postcode, council } => Some(
                "no addresses returned for postcode `"@ + postcode@ + "` \u{2014} is it a "@
                    + council@ + " postcode?"@,
            ),
            LookupError::Address(e) => Some(e.text()),
            LookupError::StillLoading { attempts } => Some(
                "bin days were still loading after "@ + crate::text::decimal(attempts as nat)
                    + " attempts"@,
            ),
            LookupError::Outside(e) => None,
        }
    }

    /// The message for the person who runs the program, for errors that arise
    /// here.
    pub fn message(&self) -> (r: Option<String>)
        ensures
            text_of(r) == self.text(),
    {
        match self {
            LookupError::NoPostcode => Some(
                "no `postcode` set in [bins] and none found in the address".to_string(),
            ),
            LookupError::NoAddresses { postcode, council } => {
                let mut out: Vec<char> = chars_of("no addresses returned for postcode `");
                push_str(&mut out, postcode.as_str());
                push_str(&mut out, "` \u{2014} is it a ");
                push_str(&mut out, council.as_str());
                push_str(&mut out, " postcode?");
                Some(string_of(out.as_slice()))
            },
            LookupError::Address(e) => Some(e.message()),
            LookupError::StillLoading { attempts } => {
                let mut out: Vec<char> = chars_of("bin days were still loading after ");
                crate::text::push_decimal(&mut out, *attempts as u64);
                push_str(&mut out, " attempts");
                Some(string_of(out.as_slice()))
            },
            LookupError::Outside(_) => None,
        }
    }
}

impl<E: Reason> Reason for LookupError<E> {
    /// The message of an error that arises here, and the reason that one from
    /// outside gives.
    fn reason(&self) -> (r: String)
        ensures
            match *self {
                LookupError::Outside(e) => gives_reason(e, r),
                _ => self.text() == Some(r@),
            },
    {
        match self {
            LookupError::Outside(e) => {
                let r: String = e.reason();
                assert(gives_reason(*e, r));
                r
            },
            _ => match self.message() {
                Some(m) => m,
                None => String::new(),
            },
        }
    }
}

} // verus!
