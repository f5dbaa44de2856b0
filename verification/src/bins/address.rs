//! Picking one property out of the addresses that a council lists.

use vstd::prelude::*;

use crate::sequences::{lemma_filter_first, lemma_filter_none, lemma_filter_one, lemma_filter_two};
use crate::text::{
    all_ascii, ascii, ascii_lower, before, before_first, begins_with, capital, chars_of, collapse,
    collapsed, contains_text, decimal, join, joined, law_case_does_not_matter, lemma_collapsed,
    lemma_collapsed_spaced, lemma_first_between, lemma_joined_apart, occurs_at, same_ignoring_case,
    lemma_words_apart, lemma_words_are_words, lowered, push_all, push_decimal, push_str, rows, same,
    spaced, stands_at, string_of, texts, trim_bounds, trimmed, word_char, words,
};

verus! {

// --- Models ------------------------------------------------------------------

/// The character when it is alphanumeric, and a space otherwise.
pub open spec fn plain_char(c: char) -> char {
    if word_char(c) {
        c
    } else {
        ' '
    }
}

/// An address in comparable form: lowercase, alphanumerics and single spaces
/// only.
pub open spec fn normalised(s: Seq<char>) -> Seq<char> {
    collapsed(lowered(s).map_values(|c: char| plain_char(c)))
}

/// The part of an address before its first comma.
pub open spec fn house_and_street(s: Seq<char>) -> Seq<char> {
    trimmed(before(s, ","@))
}

/// The normalised address `a` is `h`, or begins with `h` and a space.
pub open spec fn extends(a: Seq<char>, h: Seq<char>) -> bool {
    a == h || begins_with(a, h + " "@)
}

/// The options, in order, whose address agrees with `wanted` in full.
pub open spec fn full_matches(options: Seq<(String, String)>, wanted: Seq<char>) -> Seq<
    (String, String),
> {
    options.filter(|o: (String, String)| normalised(o.1@) == normalised(wanted))
}

/// The options, in order, whose address begins with the house and street of
/// `wanted`.
pub open spec fn head_matches(options: Seq<(String, String)>, wanted: Seq<char>) -> Seq<
    (String, String),
> {
    options.filter(
        |o: (String, String)| extends(normalised(o.1@), normalised(house_and_street(wanted))),
    )
}

/// The first `n` items, or all of them when there are fewer.
pub open spec fn at_most<T>(s: Seq<T>, n: int) -> Seq<T> {
    if s.len() <= n {
        s
    } else {
        s.take(n)
    }
}

/// Why no property could be picked.
#[derive(Debug)]
pub enum AddressError {
    /// No address agrees with the wanted one.
    NoMatch {
        /// The address that was asked for.
        wanted: String,
        /// The house and street that were looked for.
        tried: String,
        /// Some of the addresses there are.
        candidates: Vec<String>,
    },
    /// Several addresses agree with the wanted one.
    Ambiguous {
        /// The address that was asked for.
        wanted: String,
        /// How many agree with it.
        count: usize,
        /// Some of those that do, each with its id before its address.
        choices: Vec<(String, String)>,
    },
}

/// An address with its id.
pub open spec fn choice_text(c: (String, String)) -> Seq<char> {
    c.1@ + " (id "@ + c.0@ + ")"@
}

impl AddressError {
    /// What the message says.
    pub open spec fn text(self) -> Seq<char> {
        match self {
            AddressError::NoMatch { wanted, tried, candidates } =>
                "no address at this postcode matches `"@ + wanted@ + "` (tried `"@ + tried@
                + "`); run `--list-bins` after setting `property`, or set `property_id` directly. Candidates include: "@
                + joined(texts(candidates@), "; "@),
            AddressError::Ambiguous { wanted, count, choices } => "`"@ + wanted@ + "` matches "@
                + decimal(count as nat)
                + " addresses at this postcode; set `property` more precisely or `property_id` to one of: "@
                + joined(choices@.map_values(|c: (String, String)| choice_text(c)), "; "@),
        }
    }
}

// --- Laws ---------------------------------------------------------------------

/// A match on house and street ends on a word boundary: an address extends the
/// wanted one exactly when the words of the wanted one are its first words. An
/// address without words is extended by no other.
pub proof fn law_matches_whole_words(address: Seq<char>, wanted: Seq<char>)
    ensures
        extends(normalised(address), normalised(wanted)) <==> ({
            &&& words(normalised(wanted)).is_prefix_of(words(normalised(address)))
            &&& words(normalised(wanted)).len() == 0 ==> words(normalised(address)).len() == 0
        }),
{
    reveal_strlit(" ");
    let x = lowered(address).map_values(|c: char| plain_char(c));
    let y = lowered(wanted).map_values(|c: char| plain_char(c));
    let a = collapsed(x);
    let h = collapsed(y);
    lemma_collapsed(x);
    lemma_collapsed(y);
    let wa = words(x);
    let wh = words(y);
    lemma_words_are_words(x);
    lemma_words_are_words(y);
    if extends(a, h) {
        if a != h {
            let tail = a.skip(h.len() as int + 1);
            assert(a =~= h + " "@ + tail) by {
                assert(a.subrange(0, h.len() as int + 1) =~= h + " "@);
                assert(a =~= a.subrange(0, h.len() as int + 1) + tail);
            }
            lemma_words_apart(h, tail);
            assert(wa.subrange(0, wh.len() as int) =~= wh);
            if wh.len() == 0 {
                assert(h =~= Seq::<char>::empty());
                assert(a[0] == ' ');
                if wa.len() > 0 {
                    lemma_joined_starts(wa);
                }
            }
        }
    }
    if wh.is_prefix_of(wa) && (wh.len() == 0 ==> wa.len() == 0) {
        if wh.len() == wa.len() {
            assert(wh =~= wa);
        } else {
            let rest = wa.skip(wh.len() as int);
            assert(wa =~= wh + rest);
            lemma_joined_apart(wh, rest, " "@);
            assert(a.subrange(0, h.len() as int + 1) =~= h + " "@);
        }
    }
}

proof fn lemma_joined_starts(parts: Seq<Seq<char>>)
    requires
        parts.len() > 0,
        crate::text::all_words(parts),
    ensures
        joined(parts, " "@).len() > 0,
        joined(parts, " "@)[0] == parts[0][0],
    decreases parts.len(),
{
    assert(crate::text::is_word(parts[0]));
    if parts.len() > 1 {
        let init = parts.drop_last();
        assert forall|i: int| 0 <= i < init.len() implies crate::text::is_word(#[trigger] init[i]) by {
            assert(init[i] == parts[i]);
        }
        lemma_joined_starts(init);
    }
}

/// Houses whose numbers differ are never confused: an address that extends the
/// wanted one begins with the same word.
pub proof fn law_houses_are_not_confused(address: Seq<char>, wanted: Seq<char>)
    requires
        extends(normalised(address), normalised(wanted)),
        words(normalised(wanted)).len() > 0,
    ensures
        words(normalised(address)).len() > 0,
        words(normalised(address))[0] == words(normalised(wanted))[0],
{
    law_matches_whole_words(address, wanted);
}

/// A normalised address has only letters and digits, with single spaces between
/// words and none at the ends.
pub proof fn law_normalised_form(s: Seq<char>)
    ensures
        spaced(normalised(s), |c: char| word_char(c)),
        collapsed(normalised(s)) == normalised(s),
{
    let x = lowered(s).map_values(|c: char| plain_char(c));
    lemma_collapsed_spaced(x, |c: char| word_char(c));
    lemma_collapsed(x);
}

/// Normalising again changes nothing, for an address in ASCII and for any other
/// whose normalised form is its own lowercase form.
pub proof fn law_normalising_again_changes_nothing(s: Seq<char>)
    requires
        all_ascii(s) || lowered(normalised(s)) == normalised(s),
    ensures
        normalised(normalised(s)) == normalised(s),
{
    law_normalised_form(s);
    let n = normalised(s);
    if all_ascii(s) {
        let p = |c: char| ascii(c) && !capital(c);
        let x = lowered(s).map_values(|c: char| plain_char(c));
        assert forall|i: int| 0 <= i < x.len() && x[i] != ' ' implies p(#[trigger] x[i]) by {
            assert(ascii(s[i]));
            assert(x[i] == plain_char(ascii_lower(s[i])));
        }
        lemma_collapsed_spaced(x, p);
        assert forall|i: int| 0 <= i < n.len() implies ascii(#[trigger] n[i]) && !capital(n[i]) by {
            assert(n[i] == ' ' || p(n[i]));
        }
        assert(n.map_values(|c: char| ascii_lower(c)) =~= n);
    }
    let w = |c: char| word_char(c);
    assert forall|i: int| 0 <= i < n.len() implies plain_char(#[trigger] n[i]) == n[i] by {
        assert(n[i] == ' ' || w(n[i]));
    }
    assert(n.map_values(|c: char| plain_char(c)) =~= n);
}

/// No address of the list is the wanted one as a whole.
pub open spec fn none_matches(options: Seq<(String, String)>, wanted: Seq<char>) -> bool {
    forall|i: int|
        0 <= i < options.len() ==> normalised((#[trigger] options[i]).1@) != normalised(wanted)
}

/// The address begins with the wanted house and street.
pub open spec fn begun(option: (String, String), wanted: Seq<char>) -> bool {
    extends(normalised(option.1@), normalised(house_and_street(wanted)))
}

/// The first property whose whole address is the wanted one is picked.
pub proof fn law_the_first_whole_match_is_picked(
    options: &[(String, String)],
    wanted: &str,
    r: Result<(String, String), AddressError>,
    k: int,
)
    requires
        call_ensures(match_address, (options, wanted), r),
        0 <= k < options@.len(),
        normalised(options@[k].1@) == normalised(wanted@),
        forall|i: int|
            0 <= i < k ==> normalised((#[trigger] options@[i]).1@) != normalised(wanted@),
    ensures
        r is Ok,
        r->Ok_0 == options@[k],
{
    let p = |o: (String, String)| normalised(o.1@) == normalised(wanted@);
    assert(full_matches(options@, wanted@) == options@.filter(p));
    lemma_filter_first(options@, p, k);
}

/// Where no whole address is the wanted one, the only one that begins with the house
/// and street is picked.
pub proof fn law_the_only_beginning_is_picked(
    options: &[(String, String)],
    wanted: &str,
    r: Result<(String, String), AddressError>,
    k: int,
)
    requires
        call_ensures(match_address, (options, wanted), r),
        none_matches(options@, wanted@),
        0 <= k < options@.len(),
        begun(options@[k], wanted@),
        forall|i: int| 0 <= i < options@.len() && i != k ==> !begun(#[trigger] options@[i], wanted@),
    ensures
        r is Ok,
        r->Ok_0 == options@[k],
{
    let p = |o: (String, String)| normalised(o.1@) == normalised(wanted@);
    let q = |o: (String, String)|
        extends(normalised(o.1@), normalised(house_and_street(wanted@)));
    assert(full_matches(options@, wanted@) == options@.filter(p));
    assert(head_matches(options@, wanted@) == options@.filter(q));
    lemma_filter_none(options@, p);
    assert forall|i: int| 0 <= i < options@.len() && i != k implies !q(#[trigger] options@[i]) by {
        assert(!begun(options@[i], wanted@));
    }
    lemma_filter_one(options@, q, k);
}

/// Where no whole address is the wanted one and none begins with the house and
/// street, none is picked; the first three addresses are named.
pub proof fn law_no_beginning_no_property(
    options: &[(String, String)],
    wanted: &str,
    r: Result<(String, String), AddressError>,
)
    requires
        call_ensures(match_address, (options, wanted), r),
        none_matches(options@, wanted@),
        forall|i: int| 0 <= i < options@.len() ==> !begun(#[trigger] options@[i], wanted@),
    ensures
        r is Err,
        r->Err_0 is NoMatch,
        (r->Err_0)->candidates@.len() == (if options@.len() < 3 {
            options@.len() as int
        } else {
            3
        }),
        forall|i: int|
            0 <= i < (r->Err_0)->candidates@.len() ==> (#[trigger] (r->Err_0)->candidates@[i])@
                == options@[i].1@,
{
    let p = |o: (String, String)| normalised(o.1@) == normalised(wanted@);
    let q = |o: (String, String)|
        extends(normalised(o.1@), normalised(house_and_street(wanted@)));
    assert(full_matches(options@, wanted@) == options@.filter(p));
    assert(head_matches(options@, wanted@) == options@.filter(q));
    lemma_filter_none(options@, p);
    assert forall|i: int| 0 <= i < options@.len() implies !q(#[trigger] options@[i]) by {
        assert(!begun(options@[i], wanted@));
    }
    lemma_filter_none(options@, q);
    let all = options@.map_values(|o: (String, String)| o.1@);
    let named = (r->Err_0)->candidates@;
    assert(texts(named) == at_most(all, 3));
    assert(texts(named).len() == named.len());
    assert forall|i: int| 0 <= i < named.len() implies (#[trigger] named[i])@ == options@[i].1@ by {
        assert(texts(named)[i] == all[i]);
    }
}

/// Where no whole address is the wanted one and several begin with the house and
/// street, none is picked; up to five of them are named, and how many there are.
pub proof fn law_several_beginnings_are_not_told_apart(
    options: &[(String, String)],
    wanted: &str,
    r: Result<(String, String), AddressError>,
    i: int,
    j: int,
)
    requires
        call_ensures(match_address, (options, wanted), r),
        none_matches(options@, wanted@),
        0 <= i < j < options@.len(),
        begun(options@[i], wanted@),
        begun(options@[j], wanted@),
    ensures
        r is Err,
        r->Err_0 is Ambiguous,
        (r->Err_0)->count >= 2,
        (r->Err_0)->choices@.len() == (if (r->Err_0)->count < 5 {
            (r->Err_0)->count as int
        } else {
            5
        }),
        forall|k: int|
            0 <= k < (r->Err_0)->choices@.len() ==> options@.contains(
                #[trigger] (r->Err_0)->choices@[k],
            ),
{
    let p = |o: (String, String)| normalised(o.1@) == normalised(wanted@);
    let q = |o: (String, String)|
        extends(normalised(o.1@), normalised(house_and_street(wanted@)));
    let heads = head_matches(options@, wanted@);
    assert(full_matches(options@, wanted@) == options@.filter(p));
    assert(heads == options@.filter(q));
    lemma_filter_none(options@, p);
    lemma_filter_two(options@, q, i, j);
    let named = (r->Err_0)->choices@;
    assert forall|k: int| 0 <= k < named.len() implies options@.contains(#[trigger] named[k]) by {
        assert(named[k] == heads[k]);
        assert(heads.contains(heads[k]));
        options@.lemma_filter_contains_rev(q, heads[k]);
    }
}

/// Addresses in ASCII that differ only in case, or in which punctuation and white
/// space stand in the same places, are the same address.
pub proof fn law_case_and_punctuation_do_not_matter(
    a: Seq<char>,
    b: Seq<char>,
    x: char,
    y: char,
    c: Seq<char>,
)
    requires
        all_ascii(a),
        all_ascii(b),
        all_ascii(c),
        ascii(x) && !word_char(x),
        ascii(y) && !word_char(y),
    ensures
        same_ignoring_case(a, b) ==> normalised(a) == normalised(b),
        normalised(a.push(x) + c) == normalised(a.push(y) + c),
{
    if same_ignoring_case(a, b) {
        law_case_does_not_matter(a, b);
    }
    let s = a.push(x) + c;
    let t = a.push(y) + c;
    assert forall|i: int| 0 <= i < s.len() implies ascii(#[trigger] s[i]) by {
        if i < a.len() {
            assert(ascii(a[i]));
        } else if i > a.len() {
            assert(ascii(c[i - a.len() - 1]));
        }
    }
    assert forall|i: int| 0 <= i < t.len() implies ascii(#[trigger] t[i]) by {
        if i < a.len() {
            assert(ascii(a[i]));
        } else if i > a.len() {
            assert(ascii(c[i - a.len() - 1]));
        }
    }
    let f = |e: char| plain_char(e);
    assert(lowered(s).map_values(f) =~= lowered(t).map_values(f));
}

/// The house and street are what stands before the first comma of an address, and
/// all of it where it has none.
pub proof fn law_the_head_ends_at_the_first_comma(a: Seq<char>, b: Seq<char>)
    requires
        !a.contains(','),
    ensures
        house_and_street(a + ","@ + b) == trimmed(a),
        house_and_street(a) == trimmed(a),
{
    reveal_strlit(",");
    let comma = ","@;
    assert(!contains_text(a, comma)) by {
        if contains_text(a, comma) {
            let i = choose|i: int| #[trigger] occurs_at(a, comma, i);
            assert(a.subrange(i, i + 1)[0] == a[i]);
            assert(a[i] == ',');
        }
    }
    lemma_first_between(a, comma, b);
    crate::text::lemma_first_index(a, comma);
}

// --- Functions ----------------------------------------------------------------

/// Reduces an address to comparable form: lowercase, alphanumerics and single
/// spaces only.
pub fn normalise_address(s: &str) -> (r: String)
    ensures
        r@ == normalised(s@),
        spaced(r@, |c: char| word_char(c) && !capital(c)),
{
    let low: String = s.to_lowercase();
    let v: Vec<char> = chars_of(low.as_str());
    let mut out: Vec<char> = Vec::new();
    let mut i: usize = 0;
    while i < v.len()
        invariant
            i <= v@.len(),
            out@.len() == i,
            forall|j: int| 0 <= j < i ==> out@[j] == plain_char(v@[j]),
        decreases v@.len() - i,
    {
        out.push(
            if v[i].is_alphanumeric() {
                v[i]
            } else {
                ' '
            },
        );
        i = i + 1;
    }
    proof {
        assert(out@ =~= v@.map_values(|c: char| plain_char(c)));
        assert forall|k: int| 0 <= k < out@.len() && out@[k] != ' ' implies word_char(
            #[trigger] out@[k],
        ) && !capital(out@[k]) by {
            assert(out@[k] == v@[k]);
        }
        lemma_collapsed_spaced(out@, |c: char| word_char(c) && !capital(c));
    }
    string_of(collapse(out.as_slice()).as_slice())
}

/// The part of an address before the first comma: the house and the street.
pub fn head(address: &str) -> (r: &str)
    ensures
        r@ == house_and_street(address@),
{
    let v: Vec<char> = chars_of(address);
    let comma: Vec<char> = chars_of(",");
    let first: &[char] = before_first(v.as_slice(), comma.as_slice());
    proof {
        crate::text::lemma_first_index(v@, ","@);
    }
    let (a, b) = trim_bounds(first);
    assert(address@.subrange(a as int, b as int) =~= first@.subrange(a as int, b as int));
    address.substring_char(a, b)
}

fn same_address(a: &str, want: &str) -> (r: bool)
    ensures
        r == (normalised(a@) == want@),
{
    let n: String = normalise_address(a);
    let x: Vec<char> = chars_of(n.as_str());
    let y: Vec<char> = chars_of(want);
    same(x.as_slice(), y.as_slice())
}

fn extends_address(a: &str, want: &str) -> (r: bool)
    ensures
        r == extends(normalised(a@), want@),
{
    if same_address(a, want) {
        return true;
    }
    let n: String = normalise_address(a);
    let x: Vec<char> = chars_of(n.as_str());
    let mut y: Vec<char> = chars_of(want);
    push_str(&mut y, " ");
    stands_at(x.as_slice(), y.as_slice(), 0)
}

/// Picks the wanted property out of a council's list of ids and addresses.
///
/// The full address is tried first. Failing that, the house and street alone
/// are looked for at the start of each address, because councils vary in what
/// they append; then exactly one address has to begin with them.
#[verifier::spinoff_prover]
#[verifier::rlimit(40)]
pub fn match_address(options: &[(String, String)], wanted: &str) -> (r: Result<
    (String, String),
    AddressError,
>)
    ensures
        match r {
            Ok(hit) => if full_matches(options@, wanted@).len() > 0 {
                hit == full_matches(options@, wanted@)[0]
            } else {
                &&& head_matches(options@, wanted@).len() == 1
                &&& hit == head_matches(options@, wanted@)[0]
            },
            Err(AddressError::NoMatch { wanted: w, tried, candidates }) => {
                &&& full_matches(options@, wanted@).len() == 0
                &&& head_matches(options@, wanted@).len() == 0
                &&& w@ == wanted@
                &&& tried@ == normalised(house_and_street(wanted@))
                &&& texts(candidates@) == at_most(
                    options@.map_values(|o: (String, String)| o.1@),
                    3,
                )
            },
            Err(AddressError::Ambiguous { wanted: w, count, choices }) => {
                &&& full_matches(options@, wanted@).len() == 0
                &&& head_matches(options@, wanted@).len() >= 2
                &&& w@ == wanted@
                &&& count == head_matches(options@, wanted@).len()
                &&& choices@ == at_most(head_matches(options@, wanted@), 5)
            },
        },
{
    let want_full: String = normalise_address(wanted);
    let want_head: String = normalise_address(head(wanted));
    let ghost full = |o: (String, String)| normalised(o.1@) == normalised(wanted@);
    let ghost heads = |o: (String, String)|
        extends(normalised(o.1@), normalised(house_and_street(wanted@)));
    let mut i: usize = 0;
    assert(options@.take(0) =~= Seq::<(String, String)>::empty());
    assert(options@.take(0).filter(full) =~= Seq::<(String, String)>::empty());
    while i < options.len()
        invariant
            i <= options@.len(),
            want_full@ == normalised(wanted@),
            full == (|o: (String, String)| normalised(o.1@) == normalised(wanted@)),
            options@.take(i as int).filter(full).len() == 0,
        decreases options@.len() - i,
    {
        proof {
            assert(options@.take(i + 1) =~= options@.take(i as int).push(options@[i as int]));
            options@.take(i as int).lemma_filter_push(options@[i as int], full);
        }
        if same_address(options[i].1.as_str(), want_full.as_str()) {
            proof {
                options@.take(i + 1).lemma_filter_monotone(options@, full);
                lemma_filter_prefix(options@, i + 1, full);
            }
            return Ok((options[i].0.clone(), options[i].1.clone()));
        }
        i = i + 1;
    }
    assert(options@.take(i as int) =~= options@);

    let mut count: usize = 0;
    let mut choices: Vec<(String, String)> = Vec::new();
    let mut k: usize = 0;
    assert(options@.take(0).filter(heads) =~= Seq::<(String, String)>::empty());
    while k < options.len()
        invariant
            k <= options@.len(),
            want_head@ == normalised(house_and_street(wanted@)),
            heads == (|o: (String, String)|
                extends(normalised(o.1@), normalised(house_and_street(wanted@)))),
            count <= k,
            count == options@.take(k as int).filter(heads).len(),
            choices@ == at_most(options@.take(k as int).filter(heads), 5),
        decreases options@.len() - k,
    {
        proof {
            assert(options@.take(k + 1) =~= options@.take(k as int).push(options@[k as int]));
            options@.take(k as int).lemma_filter_push(options@[k as int], heads);
        }
        if extends_address(options[k].1.as_str(), want_head.as_str()) {
            if count < 5 {
                choices.push((options[k].0.clone(), options[k].1.clone()));
            }
            count = count + 1;
        }
        k = k + 1;
    }
    assert(options@.take(k as int) =~= options@);
    if count == 1 {
        return Ok((choices[0].0.clone(), choices[0].1.clone()));
    }
    if count > 1 {
        return Err(AddressError::Ambiguous { wanted: wanted.to_string(), count, choices });
    }
    let mut candidates: Vec<String> = Vec::new();
    let mut j: usize = 0;
    while j < options.len() && j < 3
        invariant
            j <= options@.len(),
            j <= 3,
            candidates@.len() == j,
            forall|m: int| 0 <= m < j ==> (#[trigger] candidates@[m])@ == options@[m].1@,
        decreases options@.len() - j,
    {
        candidates.push(options[j].1.clone());
        j = j + 1;
    }
    assert(texts(candidates@) =~= at_most(options@.map_values(|o: (String, String)| o.1@), 3));
    Err(AddressError::NoMatch { wanted: wanted.to_string(), tried: want_head, candidates })
}

proof fn lemma_filter_prefix(s: Seq<(String, String)>, n: int, p: spec_fn((String, String)) -> bool)
    requires
        0 <= n <= s.len(),
    ensures
        s.filter(p).len() >= s.take(n).filter(p).len(),
        s.filter(p).take(s.take(n).filter(p).len() as int) == s.take(n).filter(p),
    decreases s.len(),
{
    if n == s.len() {
        assert(s.take(n) =~= s);
        assert(s.filter(p).take(s.filter(p).len() as int) =~= s.filter(p));
    } else {
        let t = s.drop_last();
        lemma_filter_prefix(t, n, p);
        assert(t.take(n) =~= s.take(n));
        assert(s =~= t.push(s.last()));
        t.lemma_filter_push(s.last(), p);
        let m = s.take(n).filter(p).len() as int;
        assert(s.filter(p).take(m) =~= t.filter(p).take(m));
    }
}

impl AddressError {
    /// The message for the person who runs the program.
    pub fn message(&self) -> (r: String)
        ensures
            r@ == self.text(),
    {
        let semi: Vec<char> = chars_of("; ");
        match self {
            AddressError::NoMatch { wanted, tried, candidates } => {
                let mut out: Vec<char> = chars_of("no address at this postcode matches `");
                push_str(&mut out, wanted.as_str());
                push_str(&mut out, "` (tried `");
                push_str(&mut out, tried.as_str());
                push_str(
                    &mut out,
                    "`); run `--list-bins` after setting `property`, or set `property_id` directly. Candidates include: ",
                );
                let mut parts: Vec<Vec<char>> = Vec::new();
                let mut i: usize = 0;
                while i < candidates.len()
                    invariant
                        i <= candidates@.len(),
                        parts@.len() == i,
                        forall|m: int| 0 <= m < i ==> (#[trigger] parts@[m])@ == candidates@[m]@,
                    decreases candidates@.len() - i,
                {
                    parts.push(chars_of(candidates[i].as_str()));
                    i = i + 1;
                }
                assert(rows(parts@) =~= texts(candidates@));
                push_all(&mut out, join(&parts, semi.as_slice()).as_slice());
                string_of(out.as_slice())
            },
            AddressError::Ambiguous { wanted, count, choices } => {
                let mut out: Vec<char> = chars_of("`");
                push_str(&mut out, wanted.as_str());
                push_str(&mut out, "` matches ");
                push_decimal(&mut out, *count as u64);
                push_str(
                    &mut out,
                    " addresses at this postcode; set `property` more precisely or `property_id` to one of: ",
                );
                let mut parts: Vec<Vec<char>> = Vec::new();
                let mut i: usize = 0;
                while i < choices.len()
                    invariant
                        i <= choices@.len(),
                        parts@.len() == i,
                        forall|m: int|
                            0 <= m < i ==> (#[trigger] parts@[m])@ == choice_text(choices@[m]),
                    decreases choices@.len() - i,
                {
                    let mut line: Vec<char> = chars_of(choices[i].1.as_str());
                    push_str(&mut line, " (id ");
                    push_str(&mut line, choices[i].0.as_str());
                    push_str(&mut line, ")");
                    parts.push(line);
                    i = i + 1;
                }
                assert(rows(parts@) =~= choices@.map_values(|c: (String, String)| choice_text(c)));
                push_all(&mut out, join(&parts, semi.as_slice()).as_slice());
                string_of(out.as_slice())
            },
        }
    }
}

} // verus!
