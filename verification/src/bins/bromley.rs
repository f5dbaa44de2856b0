//! Bromley household waste collections.
//!
//! The service at <https://recyclingservices.bromley.gov.uk> takes two requests.
//! A postcode gives a page that lists every property there with its id. The page
//! of an id gives the collections, though not at once: until they are there, it
//! only says that they are loading, and it has to be asked for again.

use vstd::prelude::*;

use crate::bins::lookup::{
    lemma_property_found, property_found, property_id, readings, LookupError,
};
use crate::bins::markup::{
    between, collection_date, enclosed, law_enclosed, parse_collection_date, strip_tags, tagless,
};
use crate::bins::{dates_ok, BinSettings, Collection, Property};
use crate::cache::{cached, called_through, kept, law_given_is_asked_for_or_kept, Cache, Reason};
use crate::date::{format_date, iso_text, law_date_texts_tell_dates_apart, Date};
use crate::sequences::lemma_filter_map_apart;
use crate::text::{
    apart, begins_with, chars_of, contains_text, find, find_char, first_index, law_pieces_of_both,
    lemma_first_between, lemma_first_index, lemma_one_piece, lemma_pieces_free, pair_texts, pieces,
    push_str, replace, replaced, rows, split, string_of, text_of, trim, trimmed,
};
use crate::transport::{gives_for, takes_any, takes_any_two};

verus! {

/// Where the service is.
pub const BASE_URL: &'static str = "https://recyclingservices.bromley.gov.uk/waste";

/// What the page says while the collections are loading.
pub const LOADING_MARKER: &'static str = "Loading your bin days";

/// How often the page is asked for before giving up.
pub const MAX_ATTEMPTS: usize = 15;

/// How many seconds pass between two attempts.
pub const RETRY_SECONDS: u64 = 2;

// --- Models ------------------------------------------------------------------

/// What stands before and after the first quotation mark.
pub open spec fn at_quote(s: Seq<char>) -> Option<(Seq<char>, Seq<char>)> {
    match first_index(s, seq!['"']) {
        Some(i) => Some((s.take(i), s.skip(i + 1))),
        None => None,
    }
}

/// The id and the address of an option, from what follows the opening of its
/// value. The empty option that asks for a choice is none.
pub open spec fn option_of(chunk: Seq<char>) -> Option<(Seq<char>, Seq<char>)> {
    match at_quote(chunk) {
        None => None,
        Some((id, rest)) => match enclosed(rest, ">"@, "</option>"@) {
            None => None,
            Some(text) => if id.len() > 0 && tagless(text).len() > 0 {
                Some((id, tagless(text)))
            } else {
                None
            },
        },
    }
}

/// The ids and addresses on the page of a postcode.
pub open spec fn address_options(html: Seq<char>) -> Seq<(Seq<char>, Seq<char>)> {
    pieces(html, "<option value=\""@).skip(1).filter_map(|chunk: Seq<char>| option_of(chunk))
}

/// The aside that collections at an unusual time carry.
pub open spec fn aside() -> Seq<char> {
    "(this collection has been adjusted from its usual time)"@
}

/// The value that stands next to a key in a summary list.
pub open spec fn summary(chunk: Seq<char>, key: Seq<char>) -> Option<Seq<char>> {
    let parts = pieces(chunk, key + "</dt>"@);
    if parts.len() < 2 {
        None
    } else {
        match enclosed(parts[1], "<dd"@, "</dd>"@) {
            None => None,
            Some(dd) => match first_index(dd, seq!['>']) {
                None => None,
                Some(i) => Some(
                    trimmed(replaced(tagless(dd.skip(i + 1)), aside(), Seq::empty())),
                ),
            },
        }
    }
}

/// The service and its next collection, from its part of the page. Services that
/// come on demand have no next collection.
pub open spec fn service_of(chunk: Seq<char>, today: Date) -> Option<(Seq<char>, Date)> {
    match enclosed(chunk, "waste-service-name\">"@, "</h3>"@) {
        None => None,
        Some(name) => match summary(chunk, "Next collection"@) {
            None => None,
            Some(next) => match collection_date(next, today) {
                None => None,
                Some(date) => if tagless(name).len() > 0 {
                    Some((tagless(name), date))
                } else {
                    None
                },
            },
        },
    }
}

/// The services and their next collections on the page of a property.
pub open spec fn page_collections(html: Seq<char>, today: Date) -> Seq<(Seq<char>, Date)> {
    pieces(html, "class=\"waste-service-grid\">"@).skip(1).filter_map(
        |chunk: Seq<char>| service_of(chunk, today),
    )
}

/// Collections as services and dates.
pub open spec fn service_dates(v: Seq<Collection>) -> Seq<(Seq<char>, Date)> {
    v.map_values(|c: Collection| (c.service@, c.date))
}

/// The page is still loading.
pub open spec fn loading(body: Seq<char>) -> bool {
    contains_text(body, LOADING_MARKER@)
}

/// The key under which the page of a property is kept, for one day.
pub open spec fn page_key(id: Seq<char>, today: Date) -> Seq<char> {
    id + ":"@ + iso_text(today)
}

/// The address of the page of a property.
pub open spec fn page_url(id: Seq<char>) -> Seq<char> {
    BASE_URL@ + "/"@ + id
}

/// What to do with the page that an attempt gave.
#[derive(Debug, Clone, Copy, PartialEq, Eq, Structural)]
pub enum Step {
    /// It is there.
    Done,
    /// Wait and ask again.
    Again,
    /// There have been enough attempts.
    GiveUp,
}

// --- Laws ---------------------------------------------------------------------

/// Every service block counts, wherever it stands: a page cut at the beginning of
/// a block comes to what the part before it gives and then what the rest gives.
pub proof fn law_every_block_counts(a: Seq<char>, b: Seq<char>, today: Date)
    ensures
        page_collections(a + "class=\"waste-service-grid\">"@ + b, today) == page_collections(a, today)
            + page_collections("class=\"waste-service-grid\">"@ + b, today),
{
    let mark = "class=\"waste-service-grid\">"@;
    let f = |chunk: Seq<char>| service_of(chunk, today);
    reveal_strlit("class=\"waste-service-grid\">");
    lemma_blocks(a, mark, b, f);
}

/// Every address counts, wherever it stands: a page cut at the beginning of an
/// option comes to what the part before it gives and then what the rest gives.
pub proof fn law_every_option_counts(a: Seq<char>, b: Seq<char>)
    ensures
        address_options(a + "<option value=\""@ + b) == address_options(a) + address_options(
            "<option value=\""@ + b,
        ),
{
    let mark = "<option value=\""@;
    let f = |chunk: Seq<char>| option_of(chunk);
    reveal_strlit("<option value=\"");
    lemma_blocks(a, mark, b, f);
}

proof fn lemma_blocks<T>(
    a: Seq<char>,
    mark: Seq<char>,
    b: Seq<char>,
    f: spec_fn(Seq<char>) -> Option<T>,
)
    requires
        apart(mark),
    ensures
        pieces(a + mark + b, mark).skip(1).filter_map(f) == pieces(a, mark).skip(1).filter_map(f)
            + pieces(mark + b, mark).skip(1).filter_map(f),
        pieces(mark + b, mark).skip(1) == pieces(b, mark),
{
    let none = Seq::<char>::empty();
    law_pieces_of_both(a, mark, b);
    law_pieces_of_both(none, mark, b);
    assert(none + mark + b =~= mark + b);
    lemma_first_index(none, mark);
    assert(pieces(none, mark) == seq![none]);
    assert(pieces(mark + b, mark).skip(1) =~= pieces(b, mark));
    lemma_pieces_free(a, mark);
    assert(pieces(a + mark + b, mark).skip(1) =~= pieces(a, mark).skip(1) + pieces(b, mark));
    lemma_filter_map_apart(pieces(a, mark).skip(1), pieces(b, mark), f);
}

/// A named service whose next collection reads as a date is among the collections
/// of the page, whatever stands before its block: it comes right after those of
/// that part of the page, and before those of the blocks behind it. Its block
/// holds the name, and behind the mark of the next collection a field with the
/// date.
pub proof fn law_a_named_service_is_found(
    a: Seq<char>,
    p: Seq<char>,
    name: Seq<char>,
    q: Seq<char>,
    r: Seq<char>,
    attributes: Seq<char>,
    value: Seq<char>,
    tail: Seq<char>,
    today: Date,
    date: Date,
)
    requires
        ({
            let mark = "class=\"waste-service-grid\">"@;
            let title = p + "waste-service-name\">"@ + name + "</h3>"@ + q;
            let field = r + "<dd"@ + (attributes + ">"@ + value) + "</dd>"@ + tail;
            &&& !contains_text(p, "waste-service-name\">"@)
            &&& !contains_text(name, "</h3>"@)
            &&& !contains_text(title, "Next collection</dt>"@)
            &&& !contains_text(field, "Next collection</dt>"@)
            &&& !contains_text(r, "<dd"@)
            &&& !contains_text(attributes, ">"@)
            &&& !contains_text(attributes + ">"@ + value, "</dd>"@)
            &&& !contains_text(title + "Next collection</dt>"@ + field, mark)
        }),
        tagless(name).len() > 0,
        collection_date(
            trimmed(
                replaced(
                    tagless(value),
                    "(this collection has been adjusted from its usual time)"@,
                    Seq::empty(),
                ),
            ),
            today,
        ) == Some(date),
    ensures
        page_collections(
            a + "class=\"waste-service-grid\">"@ + (p + "waste-service-name\">"@ + name + "</h3>"@ + q
                + "Next collection</dt>"@ + (r + "<dd"@ + (attributes + ">"@ + value) + "</dd>"@
                + tail)),
            today,
        ) == page_collections(a, today).push((tagless(name), date)),
{
    let mark = "class=\"waste-service-grid\">"@;
    let key = "Next collection"@ + "</dt>"@;
    let title = p + "waste-service-name\">"@ + name + "</h3>"@ + q;
    let dd = attributes + ">"@ + value;
    let field = r + "<dd"@ + dd + "</dd>"@ + tail;
    let block = title + "Next collection</dt>"@ + field;
    reveal_strlit("class=\"waste-service-grid\">");
    reveal_strlit("waste-service-name\">");
    reveal_strlit("</h3>");
    reveal_strlit("Next collection");
    reveal_strlit("</dt>");
    reveal_strlit("Next collection</dt>");
    reveal_strlit("<dd");
    reveal_strlit("</dd>");
    reveal_strlit(">");
    assert(key =~= "Next collection</dt>"@);
    let close = seq!['>'];
    assert(">"@ =~= close);
    let f = |chunk: Seq<char>| service_of(chunk, today);
    assert(block =~= p + "waste-service-name\">"@ + name + "</h3>"@ + (q + "Next collection</dt>"@
        + field));
    law_enclosed(p, "waste-service-name\">"@, name, "</h3>"@, q + "Next collection</dt>"@ + field);
    law_pieces_of_both(title, key, field);
    lemma_one_piece(title, key);
    lemma_one_piece(field, key);
    let parts = pieces(block, key);
    assert(parts =~= seq![title, field]);
    law_enclosed(r, "<dd"@, dd, "</dd>"@, tail);
    lemma_first_between(attributes, close, value);
    assert(dd.skip(attributes.len() as int + 1) =~= value);
    assert(service_of(block, today) == Some((tagless(name), date)));
    lemma_blocks(a, mark, block, f);
    lemma_one_piece(block, mark);
    Seq::<Seq<char>>::lemma_filter_map_singleton(block, f);
    assert(page_collections(a + mark + block, today) =~= page_collections(a, today).push(
        (tagless(name), date),
    ));
}

/// A page with more behind it, from the beginning of a block on, gives what the page
/// gives and then what the rest gives alone.
pub proof fn law_pages_are_read_block_by_block(
    page: &str,
    more: &str,
    whole: &str,
    today: Date,
    a: Vec<Collection>,
    b: Vec<Collection>,
    all: Vec<Collection>,
)
    requires
        today.wf(),
        begins_with(more@, "class=\"waste-service-grid\">"@),
        whole@ == page@ + more@,
        call_ensures(parse_collections, (page, today), a),
        call_ensures(parse_collections, (more, today), b),
        call_ensures(parse_collections, (whole, today), all),
    ensures
        all@.len() == a@.len() + b@.len(),
        forall|i: int|
            0 <= i < a@.len() ==> (#[trigger] all@[i]).service@ == a@[i].service@ && all@[i].date
                == a@[i].date,
        forall|i: int|
            0 <= i < b@.len() ==> (#[trigger] b@[i]).service@ == all@[a@.len() + i].service@
                && b@[i].date == all@[a@.len() + i].date,
{
    let mark = "class=\"waste-service-grid\">"@;
    let rest = more@.skip(mark.len() as int);
    assert(more@ =~= mark + rest);
    assert(whole@ =~= page@ + mark + rest);
    law_every_block_counts(page@, rest, today);
    let (x, y, z) = (service_dates(a@), service_dates(b@), service_dates(all@));
    assert(z == x + y);
    assert(x.len() == a@.len() && y.len() == b@.len() && z.len() == all@.len());
    assert forall|i: int| 0 <= i < a@.len() implies (#[trigger] all@[i]).service@ == a@[i].service@
        && all@[i].date == a@[i].date by {
        assert(z[i] == x[i]);
    }
    assert forall|i: int| 0 <= i < b@.len() implies (#[trigger] b@[i]).service@
        == all@[a@.len() + i].service@ && b@[i].date == all@[a@.len() + i].date by {
        assert(z[a@.len() + i] == y[i]);
    }
}

/// The addresses of a page with more behind it, from the beginning of an option on,
/// are those of the page and then those of the rest alone.
pub proof fn law_addresses_are_read_one_by_one(
    page: &str,
    more: &str,
    whole: &str,
    a: Vec<(String, String)>,
    b: Vec<(String, String)>,
    all: Vec<(String, String)>,
)
    requires
        begins_with(more@, "<option value=\""@),
        whole@ == page@ + more@,
        call_ensures(parse_address_options, (page,), a),
        call_ensures(parse_address_options, (more,), b),
        call_ensures(parse_address_options, (whole,), all),
    ensures
        pair_texts(all@) == pair_texts(a@) + pair_texts(b@),
{
    let mark = "<option value=\""@;
    let rest = more@.skip(mark.len() as int);
    assert(more@ =~= mark + rest);
    assert(whole@ =~= page@ + mark + rest);
    law_every_option_counts(page@, rest);
}

/// A block that names no service, or no next collection, adds nothing.
pub proof fn law_other_blocks_add_nothing(a: Seq<char>, block: Seq<char>, today: Date)
    requires
        !contains_text(block, "class=\"waste-service-grid\">"@),
        !contains_text(block, "waste-service-name\">"@) || !contains_text(
            block,
            "Next collection</dt>"@,
        ),
    ensures
        page_collections(a + "class=\"waste-service-grid\">"@ + block, today) == page_collections(
            a,
            today,
        ),
{
    let mark = "class=\"waste-service-grid\">"@;
    let f = |chunk: Seq<char>| service_of(chunk, today);
    reveal_strlit("class=\"waste-service-grid\">");
    reveal_strlit("Next collection");
    reveal_strlit("</dt>");
    reveal_strlit("Next collection</dt>");
    assert("Next collection"@ + "</dt>"@ =~= "Next collection</dt>"@);
    lemma_first_index(block, "waste-service-name\">"@);
    lemma_first_index(block, "Next collection</dt>"@);
    lemma_blocks(a, mark, block, f);
    lemma_one_piece(block, mark);
    Seq::<Seq<char>>::lemma_filter_map_singleton(block, f);
    assert(page_collections(a + mark + block, today) =~= page_collections(a, today));
}

/// An option with an id and an address is among the addresses of the page, right
/// after those before it; one without an id adds nothing.
pub proof fn law_an_option_is_found(
    a: Seq<char>,
    id: Seq<char>,
    attributes: Seq<char>,
    text: Seq<char>,
    tail: Seq<char>,
)
    requires
        !contains_text(id, "\""@),
        !contains_text(attributes, ">"@),
        !contains_text(text, "</option>"@),
        !contains_text(
            id + "\""@ + (attributes + ">"@ + text + "</option>"@ + tail),
            "<option value=\""@,
        ),
        tagless(text).len() > 0,
    ensures
        address_options(
            a + "<option value=\""@ + (id + "\""@ + (attributes + ">"@ + text + "</option>"@ + tail)),
        ) == (if id.len() > 0 {
            address_options(a).push((id, tagless(text)))
        } else {
            address_options(a)
        }),
{
    let mark = "<option value=\""@;
    let quote = seq!['"'];
    let rest = attributes + ">"@ + text + "</option>"@ + tail;
    let block = id + "\""@ + rest;
    let f = |chunk: Seq<char>| option_of(chunk);
    reveal_strlit("<option value=\"");
    reveal_strlit("</option>");
    reveal_strlit(">");
    reveal_strlit("\"");
    assert("\""@ =~= quote);
    lemma_first_between(id, quote, rest);
    assert(block.skip(id.len() as int + 1) =~= rest);
    law_enclosed(attributes, ">"@, text, "</option>"@, tail);
    lemma_blocks(a, mark, block, f);
    lemma_one_piece(block, mark);
    Seq::<Seq<char>>::lemma_filter_map_singleton(block, f);
    if id.len() > 0 {
        assert(address_options(a + mark + block) =~= address_options(a).push((id, tagless(text))));
    } else {
        assert(address_options(a + mark + block) =~= address_options(a));
    }
}

// --- Functions ----------------------------------------------------------------

/// The id and the address of an option.
fn read_option(chunk: &[char]) -> (r: Option<(String, String)>)
    ensures
        match r {
            Some(p) => option_of(chunk@) == Some((p.0@, p.1@)),
            None => option_of(chunk@) is None,
        },
{
    match find_char(chunk, '"') {
        None => None,
        Some(i) => {
            let id: String = string_of(&chunk[0..i]);
            let rest: String = string_of(&chunk[i + 1..chunk.len()]);
            assert(id@ =~= chunk@.take(i as int));
            assert(rest@ =~= chunk@.skip(i + 1));
            match between(rest.as_str(), ">", "</option>") {
                None => None,
                Some(text) => {
                    let address: String = strip_tags(text);
                    if !id.as_str().is_empty() && !address.as_str().is_empty() {
                        Some((id, address))
                    } else {
                        None
                    }
                },
            }
        },
    }
}

/// The ids and addresses of the options on the page of a postcode.
pub fn parse_address_options(html: &str) -> (r: Vec<(String, String)>)
    ensures
        pair_texts(r@) == address_options(html@),
{
    let h: Vec<char> = chars_of(html);
    let mark: Vec<char> = chars_of("<option value=\"");
    proof {
        reveal_strlit("<option value=\"");
    }
    let chunks: Vec<Vec<char>> = split(h.as_slice(), mark.as_slice());
    let ghost all = rows(chunks@).skip(1);
    let ghost f = |chunk: Seq<char>| option_of(chunk);
    let mut out: Vec<(String, String)> = Vec::new();
    let mut i: usize = 1;
    assert(all.take(0) =~= Seq::<Seq<char>>::empty());
    assert(pair_texts(out@) =~= all.take(0).filter_map(f));
    while i < chunks.len()
        invariant
            1 <= i <= chunks@.len(),
            all == rows(chunks@).skip(1),
            f == (|chunk: Seq<char>| option_of(chunk)),
            pair_texts(out@) == all.take(i - 1).filter_map(f),
        decreases chunks@.len() - i,
    {
        let ghost sofar = pair_texts(out@);
        proof {
            assert(all[i - 1] == chunks@[i as int]@);
            all.lemma_filter_map_take_succ(f, i - 1);
        }
        match read_option(chunks[i].as_slice()) {
            Some(p) => {
                out.push(p);
                assert(pair_texts(out@) =~= sofar + seq![(p.0@, p.1@)]);
            },
            None => {
                assert(sofar + Seq::<(Seq<char>, Seq<char>)>::empty() =~= sofar);
            },
        }
        i = i + 1;
    }
    assert(all.take(i - 1) =~= all);
    out
}

/// The value that stands next to a key in a summary list, without the aside on
/// unusual times.
pub fn summary_value(chunk: &str, key: &str) -> (r: Option<String>)
    ensures
        text_of(r) == summary(chunk@, key@),
{
    let c: Vec<char> = chars_of(chunk);
    let mut mark: Vec<char> = chars_of(key);
    push_str(&mut mark, "</dt>");
    proof {
        reveal_strlit("</dt>");
        reveal_strlit("");
        reveal_strlit("(this collection has been adjusted from its usual time)");
    }
    let parts: Vec<Vec<char>> = split(c.as_slice(), mark.as_slice());
    assert(rows(parts@).len() == parts@.len());
    if parts.len() < 2 {
        return None;
    }
    assert(rows(parts@)[1] == parts@[1]@);
    let after: String = string_of(parts[1].as_slice());
    match between(after.as_str(), "<dd", "</dd>") {
        None => None,
        Some(dd) => {
            let d: Vec<char> = chars_of(dd);
            match find_char(d.as_slice(), '>') {
                None => None,
                Some(i) => {
                    let inner: String = string_of(&d.as_slice()[i + 1..d.len()]);
                    assert(inner@ =~= dd@.skip(i + 1));
                    let value: String = strip_tags(inner.as_str());
                    let v: Vec<char> = chars_of(value.as_str());
                    let note: Vec<char> = chars_of(
                        "(this collection has been adjusted from its usual time)",
                    );
                    let none: Vec<char> = Vec::new();
                    let plain: Vec<char> = replace(
                        v.as_slice(),
                        note.as_slice(),
                        none.as_slice(),
                    );
                    assert(none@ =~= Seq::<char>::empty());
                    Some(string_of(trim(plain.as_slice())))
                },
            }
        },
    }
}

/// The service and its next collection, from its part of the page.
fn read_service(chunk: &str, today: Date) -> (r: Option<Collection>)
    requires
        today.wf(),
    ensures
        match r {
            Some(c) => service_of(chunk@, today) == Some((c.service@, c.date)) && c.date.wf(),
            None => service_of(chunk@, today) is None,
        },
{
    match between(chunk, "waste-service-name\">", "</h3>") {
        None => None,
        Some(name) => match summary_value(chunk, "Next collection") {
            None => None,
            Some(next) => match parse_collection_date(next.as_str(), today) {
                None => None,
                Some(date) => {
                    let service: String = strip_tags(name);
                    if !service.as_str().is_empty() {
                        Some(Collection { service, date })
                    } else {
                        None
                    }
                },
            },
        },
    }
}

/// The services and their next collections on the page of a property. Services
/// that come on demand drop out.
pub fn parse_collections(html: &str, today: Date) -> (r: Vec<Collection>)
    requires
        today.wf(),
    ensures
        service_dates(r@) == page_collections(html@, today),
        dates_ok(r@),
{
    let h: Vec<char> = chars_of(html);
    let mark: Vec<char> = chars_of("class=\"waste-service-grid\">");
    proof {
        reveal_strlit("class=\"waste-service-grid\">");
    }
    let chunks: Vec<Vec<char>> = split(h.as_slice(), mark.as_slice());
    let ghost all = rows(chunks@).skip(1);
    let ghost f = |chunk: Seq<char>| service_of(chunk, today);
    let mut out: Vec<Collection> = Vec::new();
    let mut i: usize = 1;
    assert(all.take(0) =~= Seq::<Seq<char>>::empty());
    assert(service_dates(out@) =~= all.take(0).filter_map(f));
    while i < chunks.len()
        invariant
            1 <= i <= chunks@.len(),
            today.wf(),
            all == rows(chunks@).skip(1),
            f == (|chunk: Seq<char>| service_of(chunk, today)),
            service_dates(out@) == all.take(i - 1).filter_map(f),
            dates_ok(out@),
        decreases chunks@.len() - i,
    {
        let ghost sofar = service_dates(out@);
        proof {
            assert(all[i - 1] == chunks@[i as int]@);
            all.lemma_filter_map_take_succ(f, i - 1);
        }
        let chunk: String = string_of(chunks[i].as_slice());
        match read_service(chunk.as_str(), today) {
            Some(c) => {
                out.push(c);
                assert(service_dates(out@) =~= sofar + seq![(c.service@, c.date)]);
            },
            None => {
                assert(sofar + Seq::<(Seq<char>, Date)>::empty() =~= sofar);
            },
        }
        i = i + 1;
    }
    assert(all.take(i - 1) =~= all);
    out
}

/// What to do with the page that an attempt gave, counting attempts from one.
pub fn step(attempt: usize, body: &str) -> (r: Step)
    ensures
        r == (if !loading(body@) {
            Step::Done
        } else if attempt < MAX_ATTEMPTS {
            Step::Again
        } else {
            Step::GiveUp
        }),
{
    let b: Vec<char> = chars_of(body);
    let mark: Vec<char> = chars_of(LOADING_MARKER);
    proof {
        lemma_first_index(body@, LOADING_MARKER@);
    }
    match find(b.as_slice(), mark.as_slice()) {
        None => Step::Done,
        Some(_) => if attempt < MAX_ATTEMPTS {
            Step::Again
        } else {
            Step::GiveUp
        },
    }
}

/// The function may be called with any text and number of an attempt.
pub open spec fn takes_attempts<T, F: Fn(&str, usize) -> T>(f: F) -> bool {
    forall|text: &str, attempt: usize| #[trigger] f.requires((text, attempt))
}

/// The function can give `result` for a text at an attempt, counting from one.
pub open spec fn gives_at<T, F: Fn(&str, usize) -> T>(
    f: F,
    text: Seq<char>,
    attempt: int,
    result: T,
) -> bool {
    exists|t: &str, n: usize| t@ == text && n == attempt && #[trigger] f.ensures((t, n), result)
}

/// There can be a pause after any attempt.
pub open spec fn takes_pauses<W: Fn(usize, u64)>(wait: W) -> bool {
    forall|attempt: usize, seconds: u64| #[trigger] wait.requires((attempt, seconds))
}

/// There was a pause of the seconds between two attempts after this one.
pub open spec fn paused<W: Fn(usize, u64)>(wait: W, attempt: int) -> bool {
    exists|n: usize| n == attempt && #[trigger] wait.ensures((n, RETRY_SECONDS), ())
}

/// The first attempts each gave a page that was still loading, and there was a
/// pause after each.
pub open spec fn kept_loading<E, G: Fn(&str, usize) -> Result<String, E>, W: Fn(usize, u64)>(
    get: G,
    wait: W,
    url: Seq<char>,
    pages: Seq<String>,
) -> bool {
    forall|i: int|
        0 <= i < pages.len() ==> loading((#[trigger] pages[i])@) && gives_at(
            get,
            url,
            i + 1,
            Ok::<String, E>(pages[i]),
        ) && paused(wait, i + 1)
}

/// What comes after the first attempts, all of which gave pages that were still
/// loading: the page of the next attempt if it is there, the failure of the next
/// attempt, or giving up once there have been enough.
pub open spec fn settled_after<E, G: Fn(&str, usize) -> Result<String, E>, W: Fn(usize, u64)>(
    get: G,
    wait: W,
    url: Seq<char>,
    pages: Seq<String>,
    r: Result<String, LookupError<E>>,
) -> bool {
    &&& kept_loading(get, wait, url, pages)
    &&& match r {
        Ok(body) => pages.len() < MAX_ATTEMPTS && !loading(body@) && gives_at(
            get,
            url,
            (pages.len() + 1) as int,
            Ok::<String, E>(body),
        ),
        Err(LookupError::Outside(e)) => pages.len() < MAX_ATTEMPTS && gives_at(
            get,
            url,
            (pages.len() + 1) as int,
            Err::<String, E>(e),
        ),
        Err(LookupError::StillLoading { attempts }) => attempts == MAX_ATTEMPTS && pages.len()
            == MAX_ATTEMPTS,
        Err(_) => false,
    }
}

/// What asking for a page until it is there comes to: the first page that is not
/// still loading, a failed request before that, or no page because as many as
/// there are attempts were still loading.
pub open spec fn polled<E, G: Fn(&str, usize) -> Result<String, E>, W: Fn(usize, u64)>(
    get: G,
    wait: W,
    url: Seq<char>,
    r: Result<String, LookupError<E>>,
) -> bool {
    exists|pages: Seq<String>| #[trigger] settled_after(get, wait, url, pages, r)
}

/// Asks for a page until it is there.
fn poll<E, G: Fn(&str, usize) -> Result<String, E>, W: Fn(usize, u64)>(
    url: &str,
    get: &G,
    wait: &W,
) -> (r: Result<String, LookupError<E>>)
    requires
        takes_attempts(*get),
        takes_pauses(*wait),
    ensures
        polled(*get, *wait, url@, r),
{
    let ghost mut pages: Seq<String> = Seq::empty();
    let mut attempt: usize = 1;
    loop
        invariant
            1 <= attempt <= MAX_ATTEMPTS,
            takes_attempts(*get),
            takes_pauses(*wait),
            pages.len() == attempt - 1,
            kept_loading(*get, *wait, url@, pages),
        decreases MAX_ATTEMPTS - attempt,
    {
        let reply: Result<String, E> = get(url, attempt);
        assert(gives_at(*get, url@, attempt as int, reply));
        match reply {
            Err(e) => {
                let r: Result<String, LookupError<E>> = Err(LookupError::Outside(e));
                assert(settled_after(*get, *wait, url@, pages, r));
                return r;
            },
            Ok(body) => {
                match step(attempt, body.as_str()) {
                    Step::Done => {
                        let r: Result<String, LookupError<E>> = Ok(body);
                        assert(settled_after(*get, *wait, url@, pages, r));
                        return r;
                    },
                    Step::Again => {
                        wait(attempt, RETRY_SECONDS);
                        assert(paused(*wait, attempt as int));
                        proof {
                            pages = pages.push(body);
                        }
                    },
                    Step::GiveUp => {
                        wait(attempt, RETRY_SECONDS);
                        assert(paused(*wait, attempt as int));
                        let r: Result<String, LookupError<E>> = Err(
                            LookupError::StillLoading { attempts: MAX_ATTEMPTS },
                        );
                        assert(settled_after(*get, *wait, url@, pages.push(body), r));
                        return r;
                    },
                }
            },
        }
        attempt = attempt + 1;
    }
}

/// What asking for `url` until it is there can come to.
pub open spec fn polled_replies<E, G: Fn(&str, usize) -> Result<String, E>, W: Fn(usize, u64)>(
    get: G,
    wait: W,
    url: Seq<char>,
) -> spec_fn(Result<String, LookupError<E>>) -> bool {
    |outcome: Result<String, LookupError<E>>| polled(get, wait, url, outcome)
}

/// The page of a property, once it is there. It is a snapshot of what is next, so
/// it is kept for one day: that of yesterday does not answer for today. `get` takes
/// the number of the attempt too, counting from one.
pub fn fetch_collections<E: Reason, G: Fn(&str, usize) -> Result<String, E>, W: Fn(usize, u64)>(
    id: &str,
    today: Date,
    cache: &mut Option<Cache>,
    get: &G,
    wait: &W,
) -> (r: Result<String, LookupError<E>>)
    requires
        today.wf(),
        takes_attempts(*get),
        takes_pauses(*wait),
    ensures
        called_through(
            *old(cache),
            *final(cache),
            "bins-bromley"@,
            page_key(id@, today),
            Some(today),
            false,
            polled_replies(*get, *wait, page_url(id@)),
            r,
        ),
{
    let mut key: Vec<char> = chars_of(id);
    push_str(&mut key, ":");
    push_str(&mut key, format_date(today, "%Y-%m-%d").as_str());
    let key_text: String = string_of(key.as_slice());
    let mut text: Vec<char> = chars_of(BASE_URL);
    push_str(&mut text, "/");
    push_str(&mut text, id);
    let address: String = string_of(text.as_slice());
    let url: &str = address.as_str();
    let call = || -> (outcome: Result<String, LookupError<E>>)
        requires
            takes_attempts(*get),
            takes_pauses(*wait),
        ensures
            polled(*get, *wait, url@, outcome),
    { poll(url, get, wait) };
    cached(cache, "bins-bromley", key_text.as_str(), Some(today), false, call)
}

/// Of the pages that are asked for, only one that is there is kept: whatever has
/// been added to the record is not still loading.
pub proof fn law_only_loaded_pages_are_kept<E: Reason, G: Fn(&str, usize) -> Result<String, E>, W: Fn(usize, u64)>(
    before: Cache,
    cache: Cache,
    id: Seq<char>,
    today: Date,
    get: G,
    wait: W,
    r: Result<String, LookupError<E>>,
)
    requires
        called_through(
            Some(before),
            Some(cache),
            "bins-bromley"@,
            page_key(id, today),
            Some(today),
            false,
            polled_replies(get, wait, page_url(id)),
            r,
        ),
    ensures
        cache.rows@ == before.rows@ || (cache.rows@.drop_last() == before.rows@ && !loading(
            cache.rows@.last().response@,
        )),
{
}

/// However often a page is asked for, it is the first one that is not still
/// loading that is given, and that none is given for want of a loaded one means
/// that every attempt there is was made.
pub proof fn law_the_first_loaded_page_is_given<E, G: Fn(&str, usize) -> Result<String, E>, W: Fn(usize, u64)>(
    get: G,
    wait: W,
    url: Seq<char>,
    pages: Seq<String>,
    r: Result<String, LookupError<E>>,
)
    requires
        forall|attempt: int, reply: Result<String, E>|
            1 <= attempt <= pages.len() && #[trigger] gives_at(get, url, attempt, reply) ==> reply
                == Ok::<String, E>(pages[attempt - 1]),
        pages.len() == MAX_ATTEMPTS,
        polled(get, wait, url, r),
    ensures
        match r {
            Ok(body) => exists|i: int|
                0 <= i < pages.len() && body == #[trigger] pages[i] && !loading(body@) && forall|
                    k: int,
                |
                    0 <= k < i ==> loading((#[trigger] pages[k])@),
            Err(e) => e is StillLoading && forall|k: int|
                0 <= k < pages.len() ==> loading((#[trigger] pages[k])@),
        },
{
    let seen = choose|seen: Seq<String>| #[trigger] settled_after(get, wait, url, seen, r);
    assert forall|k: int| 0 <= k < seen.len() implies loading((#[trigger] pages[k])@) by {
        assert(loading(seen[k]@));
        assert(gives_at(get, url, k + 1, Ok::<String, E>(seen[k])));
    }
    if let Ok(body) = r {
        assert(gives_at(get, url, (seen.len() + 1) as int, Ok::<String, E>(body)));
        assert(body == pages[seen.len() as int]);
    }
}

/// What the page of a property comes to.
pub open spec fn page_read<E>(
    id: Seq<char>,
    address: Seq<char>,
    today: Date,
    page: Result<String, LookupError<E>>,
    r: Result<Property, LookupError<E>>,
) -> bool {
    match page {
        Err(e) => r == Err::<Property, LookupError<E>>(e),
        Ok(html) => r matches Ok(p) && p.id@ == id && p.address@ == address && service_dates(
            p.collections@,
        ) == page_collections(html@, today),
    }
}

/// The addresses of a page are read as its options.
pub open spec fn page_options<E>() -> spec_fn(Seq<char>, Result<Vec<(String, String)>, E>) -> bool {
    |html: Seq<char>, options: Result<Vec<(String, String)>, E>|
        options matches Ok(v) && pair_texts(v@) == address_options(html)
}

/// The addresses on the page of a postcode.
fn read_options<E>(html: &str) -> (r: Result<Vec<(String, String)>, E>)
    ensures
        r matches Ok(v) && pair_texts(v@) == address_options(html@),
{
    Ok(parse_address_options(html))
}

/// What a property that was looked for comes to: the reason why there is none,
/// or its collections as far as its page can be had.
pub open spec fn page_found<E: Reason, G: Fn(&str, usize) -> Result<String, E>, W: Fn(usize, u64)>(
    before: Option<Cache>,
    cache: Option<Cache>,
    today: Date,
    get: G,
    wait: W,
    found: Result<(String, String), LookupError<E>>,
    r: Result<Property, LookupError<E>>,
) -> bool {
    match found {
        Err(e) => r == Err::<Property, LookupError<E>>(e) && cache == before,
        Ok((id, address)) => exists|page: Result<String, LookupError<E>>|
            called_through(
                before,
                cache,
                "bins-bromley"@,
                page_key(id@, today),
                Some(today),
                false,
                polled_replies(get, wait, page_url(id@)),
                page,
            ) && #[trigger] page_read(id@, address@, today, page, r),
    }
}

/// What can be answered about the addresses of a postcode, which is posted to the
/// service.
pub open spec fn addresses_posted<E, F: Fn(&str, &str) -> Result<String, E>>(post: F) -> spec_fn(
    Seq<char>,
    Result<String, E>,
) -> bool {
    |postcode: Seq<char>, outcome: Result<String, E>|
        gives_for(post, BASE_URL@, postcode, outcome)
}

/// The property of the settings was looked for, and then its page.
pub open spec fn collections_found<
    E: Reason,
    F: Fn(&str, &str) -> Result<String, E>,
    G: Fn(&str, usize) -> Result<String, E>,
    W: Fn(usize, u64),
>(
    before: Option<Cache>,
    cache: Option<Cache>,
    cfg: BinSettings,
    address: Seq<char>,
    today: Date,
    post: F,
    get: G,
    wait: W,
    r: Result<Property, LookupError<E>>,
) -> bool {
    exists|middle: Option<Cache>, found: Result<(String, String), LookupError<E>>| #[trigger]
        property_found(
            before,
            middle,
            cfg,
            address,
            "bins-bromley-addresses"@,
            "Bromley"@,
            addresses_posted(post),
            page_options::<E>(),
            found,
        ) && page_found(middle, cache, today, get, wait, found, r)
}

/// The property of the settings with its next collections. The postcode is posted
/// to find it.
pub fn collections<
    E: Reason,
    F: Fn(&str, &str) -> Result<String, E>,
    G: Fn(&str, usize) -> Result<String, E>,
    W: Fn(usize, u64),
>(
    cfg: &BinSettings,
    address: &str,
    today: Date,
    cache: &mut Option<Cache>,
    post: &F,
    get: &G,
    wait: &W,
) -> (r: Result<Property, LookupError<E>>)
    requires
        today.wf(),
        takes_any_two(*post),
        takes_attempts(*get),
        takes_pauses(*wait),
    ensures
        r matches Ok(p) ==> dates_ok(p.collections@),
        collections_found(
            *old(cache),
            *final(cache),
            *cfg,
            address@,
            today,
            *post,
            *get,
            *wait,
            r,
        ),
{
    let search = |postcode: &str| -> (outcome: Result<String, E>)
        requires
            post.requires((BASE_URL, postcode)),
        ensures
            post.ensures((BASE_URL, postcode), outcome),
    { post(BASE_URL, postcode) };
    assert(takes_any(search)) by {
        assert forall|text: &str| #[trigger] search.requires((text,)) by {
            assert(post.requires((BASE_URL, text)));
        }
    }
    let found: Result<(String, String), LookupError<E>> = property_id(
        cfg,
        address,
        cache,
        "bins-bromley-addresses",
        "Bromley",
        &search,
        &read_options::<E>,
    );
    proof {
        let asks = readings(search);
        assert forall|text: Seq<char>, result: Result<String, E>| #[trigger]
            asks(text, result) implies addresses_posted(*post)(text, result) by {
            let t = choose|t: &str| t@ == text && #[trigger] search.ensures((t,), result);
            assert(post.ensures((BASE_URL, t), result));
        }
        lemma_property_found(
            *old(cache),
            *cache,
            *cfg,
            address@,
            "bins-bromley-addresses"@,
            "Bromley"@,
            readings(search),
            addresses_posted(*post),
            readings(read_options::<E>),
            page_options::<E>(),
            found,
        );
    }
    let ghost middle = *cache;
    let ghost came_first = found;
    let r: Result<Property, LookupError<E>> = match found {
        Err(e) => Err(e),
        Ok((id, matched)) => {
            let page: Result<String, LookupError<E>> = fetch_collections(
                id.as_str(),
                today,
                cache,
                get,
                wait,
            );
            let ghost came = page;
            let r: Result<Property, LookupError<E>> = match page {
                Err(e) => Err(e),
                Ok(html) => {
                    let next: Vec<Collection> = parse_collections(html.as_str(), today);
                    Ok(Property { id, address: matched, collections: next })
                },
            };
            assert(page_read(id@, matched@, today, came, r));
            r
        },
    };
    assert(page_found(middle, *cache, today, *get, *wait, came_first, r));
    r
}

/// A page that says anywhere that it is loading is asked for again, up to fifteen
/// times; any other is taken.
pub proof fn law_loading_pages_are_asked_for_again(attempt: usize, body: &str, r: Step)
    requires
        call_ensures(step, (attempt, body), r),
    ensures
        r == Step::Done <==> !contains_text(body@, "Loading your bin days"@),
        contains_text(body@, "Loading your bin days"@) ==> (r == Step::Again <==> attempt < 15),
{
}

/// The page is what polling its address gives, or one that was kept under the key.
pub open spec fn polled_or_kept<E, G: Fn(&str, usize) -> Result<String, E>, W: Fn(usize, u64)>(
    get: G,
    wait: W,
    url: Seq<char>,
    before: Option<Cache>,
    key: Seq<char>,
    page: Result<String, LookupError<E>>,
) -> bool {
    polled(get, wait, url, page) || kept(before, "bins-bromley"@, key, page)
}

/// The property that was looked for is the one that comes back, under its id and
/// address, with the collections of its page; and a search that fails is what comes
/// back in its place. The page is asked for by the id, or one of the same day is
/// taken.
pub proof fn law_the_page_of_the_property_is_read<
    E: Reason,
    G: Fn(&str, usize) -> Result<String, E>,
    W: Fn(usize, u64),
>(
    before: Option<Cache>,
    cache: Option<Cache>,
    today: Date,
    get: G,
    wait: W,
    found: Result<(String, String), LookupError<E>>,
    r: Result<Property, LookupError<E>>,
)
    requires
        page_found(before, cache, today, get, wait, found, r),
    ensures
        found is Err ==> r is Err && r->Err_0 == found->Err_0 && cache == before,
        found is Ok ==> exists|page: Result<String, LookupError<E>>|
            {
                &&& #[trigger] polled_or_kept(
                    get,
                    wait,
                    "https://recyclingservices.bromley.gov.uk/waste/"@ + (found->Ok_0).0@,
                    before,
                    page_key((found->Ok_0).0@, today),
                    page,
                )
                &&& page is Err ==> r is Err && r->Err_0 == page->Err_0
                &&& page is Ok ==> r is Ok && r->Ok_0.id@ == (found->Ok_0).0@ && r->Ok_0.address@ == (
                found->Ok_0).1@ && service_dates(r->Ok_0.collections@) == page_collections(
                    page->Ok_0@,
                    today,
                )
            },
{
    if let Ok((id, address)) = found {
        reveal_strlit("https://recyclingservices.bromley.gov.uk/waste/");
        reveal_strlit("https://recyclingservices.bromley.gov.uk/waste");
        reveal_strlit("/");
        assert(page_url(id@) =~= "https://recyclingservices.bromley.gov.uk/waste/"@ + id@);
        let page = choose|page: Result<String, LookupError<E>>|
            called_through(
                before,
                cache,
                "bins-bromley"@,
                page_key(id@, today),
                Some(today),
                false,
                polled_replies(get, wait, page_url(id@)),
                page,
            ) && #[trigger] page_read(id@, address@, today, page, r);
        law_given_is_asked_for_or_kept(
            before,
            cache,
            "bins-bromley"@,
            page_key(id@, today),
            Some(today),
            false,
            polled_replies(get, wait, page_url(id@)),
            page,
        );
        assert(polled_or_kept(
            get,
            wait,
            "https://recyclingservices.bromley.gov.uk/waste/"@ + id@,
            before,
            page_key(id@, today),
            page,
        ));
    }
}

/// The page of a property is kept for one day.
pub proof fn law_pages_are_kept_for_a_day(id: Seq<char>, a: Date, b: Date)
    requires
        a.wf(),
        b.wf(),
    ensures
        page_key(id, a) == page_key(id, b) ==> a == b,
        begins_with(page_key(id, a), id),
{
    let head = id + ":"@;
    assert(page_key(id, a).skip(head.len() as int) =~= iso_text(a));
    assert(page_key(id, b).skip(head.len() as int) =~= iso_text(b));
    law_date_texts_tell_dates_apart(a, b);
    assert(page_key(id, a).subrange(0, id.len() as int) =~= id);
}

} // verus!
