//! Household bin collections: which bins go out, and when.
//!
//! The section is quiet. It appears on the eve of a collection, so that the
//! receipt that is read the day before says what to put out. On every other day
//! there is nothing.
//!
//! Councils publish their data in different ways; each has a module of its own,
//! whose only job is to turn an address into services and collection dates. What
//! follows from those is shared here.

use vstd::prelude::*;

use crate::date::{
    day_text, earlier, format_date, is_earlier, iso_text, last_day, plus_days, weekday_name, Date,
};
use crate::order::{
    ascending, lemma_sorted, lemma_sorted_contains, lemma_text_total, lemma_text_transitive, sort,
    sorted, str_at_most, text_at_most, Ordered,
};
use crate::text::{
    all_ascii, begins_with, chars_of, collapse, collapsed, contains_text, is_white,
    law_case_does_not_matter, lemma_contains_more, lemma_lines_fit_apart, lemma_lines_fit_short,
    lemma_occurs_between, same_ignoring_case, spaced, lemma_truncated, lines_fit, lowered, push_all, push_str, same_str,
    shorten, string_of, strip_end, strip_start, stripped_end, stripped_start, text_of, trim,
    trimmed, truncated, white, word_char,
};

pub mod address;
pub mod bromley;
pub mod councils;
pub mod hackney;
pub mod lookup;
pub mod markup;

verus! {

/// The glyph before the collection date in image output. It lies in a private
/// use area, by which the renderer knows it; text output goes without it.
pub const BIN_ICON: char = '\u{f48e}';

/// The settings of the bins section.
#[derive(Debug, Clone)]
pub struct BinSettings {
    /// The council whose collections are asked for, such as `Bromley`.
    pub council: String,
    /// The postcode of the property. Without one, that of the address is taken.
    pub postcode: Option<String>,
    /// The property within the postcode. Without one, the address is taken.
    pub property: Option<String>,
    /// The council's own id for the property, in place of a search.
    pub property_id: Option<String>,
    /// How many days ahead of a collection the section appears.
    pub lead_days: u64,
}

/// One collection of one service.
#[derive(Debug, Clone, PartialEq, Eq)]
pub struct Collection {
    /// The council's name for the service, such as `Food Waste`.
    pub service: String,
    /// The date of the collection.
    pub date: Date,
}

/// A property and what the council collects from it.
#[derive(Debug, Clone)]
pub struct Property {
    /// The council's own id for the property.
    pub id: String,
    /// The address as the council spells it.
    pub address: String,
    /// Upcoming collections; there may be several for one service.
    pub collections: Vec<Collection>,
}

/// How the section is laid out.
#[derive(Debug, Clone, Copy)]
pub struct Layout {
    /// Printable columns.
    pub columns: usize,
    /// Whether icon glyphs can be shown.
    pub icons: bool,
}

/// The councils whose collections can be looked up.
#[derive(Debug, Clone, Copy, PartialEq, Eq, Structural)]
pub enum Council {
    /// The London Borough of Bromley.
    Bromley,
    /// The London Borough of Hackney.
    Hackney,
}

/// A council whose collections cannot be looked up.
#[derive(Debug)]
pub struct UnsupportedCouncil {
    /// The council's name in the settings.
    pub council: String,
}

// --- Models ------------------------------------------------------------------

impl Ordered for Collection {
    open spec fn at_most(self, other: Collection) -> bool {
        earlier(self.date, other.date) || (self.date == other.date && text_at_most(
            self.service@,
            other.service@,
        ))
    }

    proof fn total(a: Collection, b: Collection) {
        lemma_text_total(a.service@, b.service@);
    }

    proof fn transitive(a: Collection, b: Collection, c: Collection) {
        if a.date == b.date && b.date == c.date {
            lemma_text_transitive(a.service@, b.service@, c.service@);
        }
    }

    fn ranks_at_most(&self, other: &Collection) -> (r: bool) {
        is_earlier(self.date, other.date) || (self.date == other.date && str_at_most(
            self.service.as_str(),
            other.service.as_str(),
        ))
    }
}

/// Something is collected on `day`.
pub open spec fn collected_on(collections: Seq<Collection>, day: Date) -> bool {
    exists|i: int| 0 <= i < collections.len() && (#[trigger] collections[i]).date == day
}

/// The first collection date that is not before `target`.
pub open spec fn soonest(collections: Seq<Collection>, target: Date) -> Option<Date>
    decreases collections.len(),
{
    if collections.len() == 0 {
        None
    } else {
        let d = collections.last().date;
        match soonest(collections.drop_last(), target) {
            None => if earlier(d, target) {
                None
            } else {
                Some(d)
            },
            Some(best) => if earlier(d, best) && !earlier(d, target) {
                Some(d)
            } else {
                Some(best)
            },
        }
    }
}

/// The date that the section is about: `due` when something is collected then;
/// otherwise nothing, or the next collection from `target` on when the section is
/// asked for.
pub open spec fn shown_date(
    collections: Seq<Collection>,
    target: Date,
    due: Date,
    force: bool,
) -> Option<Date> {
    if collected_on(collections, due) {
        Some(due)
    } else if force {
        soonest(collections, target)
    } else {
        None
    }
}

/// The collections without those whose service the one before them has.
pub open spec fn deduplicated(s: Seq<Collection>) -> Seq<Collection>
    decreases s.len(),
{
    if s.len() == 0 {
        s
    } else {
        let kept = deduplicated(s.drop_last());
        if kept.len() > 0 && kept.last().service@ == s.last().service@ {
            kept
        } else {
            kept.push(s.last())
        }
    }
}

/// The collections of one day, by service, each service once.
pub open spec fn going_out(collections: Seq<Collection>, due: Date) -> Seq<Collection> {
    deduplicated(sorted(collections.filter(|c: Collection| c.date == due)))
}

/// The services, a line each.
pub open spec fn service_lines(s: Seq<Collection>, columns: int) -> Seq<char>
    decreases s.len(),
{
    if s.len() == 0 {
        Seq::empty()
    } else {
        service_lines(s.drop_last(), columns) + "  "@ + truncated(
            s.last().service@,
            if columns >= 2 {
                columns - 2
            } else {
                0
            },
        ) + "\n"@
    }
}

/// The line with the collection date, after its icon in image output.
pub open spec fn date_line(due: Date, layout: Layout) -> Seq<char> {
    let columns = layout.columns as int;
    if layout.icons {
        seq![BIN_ICON] + "  "@ + truncated(
            day_text(due),
            if columns >= 4 {
                columns - 4
            } else {
                0
            },
        )
    } else {
        truncated(day_text(due), columns)
    }
}

/// The body of the section.
pub open spec fn rendered(collections: Seq<Collection>, due: Date, layout: Layout) -> Option<
    Seq<char>,
> {
    if collected_on(collections, due) {
        Some(
            date_line(due, layout) + "\n\n"@ + service_lines(
                going_out(collections, due),
                layout.columns as int,
            ),
        )
    } else {
        None
    }
}

/// The index of the first collection of a service.
pub open spec fn service_index(next: Seq<Collection>, service: Seq<char>) -> Option<int>
    decreases next.len(),
{
    if next.len() == 0 {
        None
    } else {
        match service_index(next.drop_last(), service) {
            Some(i) => Some(i),
            None => if next.last().service@ == service {
                Some(next.len() - 1)
            } else {
                None
            },
        }
    }
}

/// The next collections, with `c` taken in: in place of a later one of its
/// service, or at the end when there is none of its service.
pub open spec fn with_collection(next: Seq<Collection>, c: Collection) -> Seq<Collection> {
    match service_index(next, c.service@) {
        Some(i) => if earlier(c.date, next[i].date) {
            next.update(i, c)
        } else {
            next
        },
        None => next.push(c),
    }
}

/// The next collection of each service, in the order in which the services come.
pub open spec fn next_of_each(collections: Seq<Collection>) -> Seq<Collection>
    decreases collections.len(),
{
    if collections.len() == 0 {
        collections
    } else {
        with_collection(next_of_each(collections.drop_last()), collections.last())
    }
}

/// Collections, a line each: date, weekday and service.
pub open spec fn collection_lines(s: Seq<Collection>) -> Seq<char>
    decreases s.len(),
{
    if s.len() == 0 {
        Seq::empty()
    } else {
        collection_lines(s.drop_last()) + iso_text(s.last().date) + "  "@ + weekday_name(
            s.last().date.weekday(),
        ).take(3) + "  "@ + s.last().service@ + "\n"@
    }
}

/// The listing of a property.
pub open spec fn property_text(p: Property) -> Seq<char> {
    let next = sorted(next_of_each(p.collections@));
    p.address@ + " (property_id = "@ + p.id@ + ")\n\n"@ + (if next.len() == 0 {
        "No scheduled collections found for this property.\n"@
    } else {
        collection_lines(next)
    })
}

/// Every date exists.
pub open spec fn dates_ok(collections: Seq<Collection>) -> bool {
    forall|i: int| 0 <= i < collections.len() ==> (#[trigger] collections[i]).date.wf()
}

/// A council's name as it is looked up: lowercase, without what commonly stands
/// around it, and with letters, digits and single spaces only.
pub open spec fn key_of(council: Seq<char>) -> Seq<char> {
    let bare = trimmed(
        stripped_end(
            stripped_end(
                stripped_start(trimmed(lowered(council)), "london borough of"@),
                "council"@,
            ),
            "borough of"@,
        ),
    );
    collapsed(bare.filter(|c: char| word_char(c) || white(c)))
}

/// The council with the given key.
pub open spec fn council_by_key(key: Seq<char>) -> Option<Council> {
    if key == "bromley"@ {
        Some(Council::Bromley)
    } else if key == "hackney"@ {
        Some(Council::Hackney)
    } else {
        None
    }
}

/// A collection of this service is among `s`.
pub open spec fn names(s: Seq<Collection>, service: Seq<char>) -> bool {
    exists|j: int| 0 <= j < s.len() && (#[trigger] s[j]).service@ == service
}

/// No two collections of `s` have the same service.
pub open spec fn distinct(s: Seq<Collection>) -> bool {
    forall|i: int, j: int|
        0 <= i < j < s.len() ==> (#[trigger] s[i]).service@ != (#[trigger] s[j]).service@
}

/// Every collection of `s` is one of `all`.
pub open spec fn drawn_from(s: Seq<Collection>, all: Seq<Collection>) -> bool {
    forall|i: int| 0 <= i < s.len() ==> all.contains(#[trigger] s[i])
}

// --- Laws ---------------------------------------------------------------------

/// The next collection is one of the collections, is not before the target, and
/// none in between is passed over; there is none exactly when every collection
/// is before the target.
pub proof fn law_soonest(collections: Seq<Collection>, target: Date)
    ensures
        match soonest(collections, target) {
            Some(d) => {
                &&& collected_on(collections, d)
                &&& !earlier(d, target)
                &&& forall|i: int|
                    0 <= i < collections.len() && !earlier(
                        (#[trigger] collections[i]).date,
                        target,
                    ) ==> !earlier(collections[i].date, d)
            },
            None => forall|i: int|
                0 <= i < collections.len() ==> earlier((#[trigger] collections[i]).date, target),
        },
    decreases collections.len(),
{
    if collections.len() > 0 {
        let init = collections.drop_last();
        law_soonest(init, target);
        assert forall|i: int| 0 <= i < init.len() implies #[trigger] collections[i] == init[i] by {}
        match soonest(init, target) {
            Some(b) => {
                let k = choose|k: int| 0 <= k < init.len() && (#[trigger] init[k]).date == b;
                assert(collections[k].date == b);
            },
            None => {},
        }
        assert(collections[collections.len() - 1] == collections.last());
    }
}

/// Without being asked for, the section is about the due date and no other.
pub proof fn law_only_the_due_date(collections: Seq<Collection>, target: Date, due: Date)
    ensures
        shown_date(collections, target, due, false) == (if collected_on(collections, due) {
            Some(due)
        } else {
            None
        }),
{
}

/// A section that is asked for still prefers the due date, and never shows a
/// collection that is over when the due date is not before the target.
pub proof fn law_force(collections: Seq<Collection>, target: Date, due: Date)
    ensures
        collected_on(collections, due) ==> shown_date(collections, target, due, true) == Some(due),
        !earlier(due, target) ==> (shown_date(collections, target, due, true) matches Some(d)
            ==> !earlier(d, target) && collected_on(collections, d)),
{
    law_soonest(collections, target);
}

/// Whatever date the section is about, there is something to show for it.
pub proof fn law_a_shown_date_has_a_body(
    collections: Seq<Collection>,
    target: Date,
    due: Date,
    force: bool,
    layout: Layout,
)
    ensures
        shown_date(collections, target, due, force) matches Some(d) ==> rendered(
            collections,
            d,
            layout,
        ) is Some,
{
    law_soonest(collections, target);
}

proof fn lemma_dedup_from(s: Seq<Collection>)
    ensures
        drawn_from(deduplicated(s), s),
    decreases s.len(),
{
    if s.len() > 0 {
        let t = s.drop_last();
        lemma_dedup_from(t);
        let kept = deduplicated(t);
        let all = deduplicated(s);
        assert forall|i: int| 0 <= i < all.len() implies s.contains(#[trigger] all[i]) by {
            if i < kept.len() {
                assert(all[i] == kept[i]);
                assert(t.contains(kept[i]));
                let k = choose|k: int| 0 <= k < t.len() && t[k] == kept[i];
                assert(s[k] == kept[i]);
            } else {
                assert(all[i] == s[s.len() - 1]);
            }
        }
    }
}

proof fn lemma_dedup_names(s: Seq<Collection>)
    ensures
        forall|i: int|
            0 <= i < s.len() ==> names(deduplicated(s), (#[trigger] s[i]).service@),
        s.len() > 0 ==> deduplicated(s).len() > 0 && deduplicated(s).last().service@
            == s.last().service@,
    decreases s.len(),
{
    if s.len() > 0 {
        let t = s.drop_last();
        lemma_dedup_names(t);
        let kept = deduplicated(t);
        let all = deduplicated(s);
        assert(all.last().service@ == s.last().service@);
        assert forall|i: int| 0 <= i < s.len() implies names(all, (#[trigger] s[i]).service@) by {
            if i < t.len() {
                assert(t[i] == s[i]);
                assert(names(kept, t[i].service@));
                let j = choose|j: int|
                    0 <= j < kept.len() && (#[trigger] kept[j]).service@ == t[i].service@;
                assert(all[j] == kept[j]);
            } else {
                assert(all[all.len() - 1].service@ == s[i].service@);
            }
        }
    }
}

proof fn lemma_dedup_distinct(s: Seq<Collection>, due: Date)
    requires
        ascending(s),
        forall|i: int| 0 <= i < s.len() ==> (#[trigger] s[i]).date == due,
    ensures
        distinct(deduplicated(s)),
    decreases s.len(),
{
    if s.len() > 0 {
        let t = s.drop_last();
        let last = s.last();
        assert(ascending(t)) by {
            assert forall|i: int, j: int| 0 <= i <= j < t.len() implies (#[trigger] t[i]).at_most(
                #[trigger] t[j],
            ) by {
                assert(s[i].at_most(s[j]));
            }
        }
        assert forall|i: int| 0 <= i < t.len() implies (#[trigger] t[i]).date == due by {
            assert(t[i] == s[i]);
        }
        lemma_dedup_distinct(t, due);
        lemma_dedup_from(t);
        lemma_dedup_names(t);
        let kept = deduplicated(t);
        if kept.len() > 0 && kept.last().service@ != last.service@ {
            assert forall|i: int| 0 <= i < kept.len() implies (#[trigger] kept[i]).service@
                != last.service@ by {
                if kept[i].service@ == last.service@ {
                    assert(t.contains(kept[i]));
                    let k = choose|k: int| 0 <= k < t.len() && t[k] == kept[i];
                    let m = t.len() - 1;
                    assert(s[k].at_most(s[m]));
                    assert(s[m].at_most(s[s.len() - 1]));
                    lemma_antisymmetric(last.service@, t.last().service@);
                }
            }
        }
    }
}

proof fn lemma_antisymmetric(a: Seq<char>, b: Seq<char>)
    requires
        text_at_most(a, b),
        text_at_most(b, a),
    ensures
        a == b,
    decreases a.len(),
{
    if a.len() == 0 || b.len() == 0 {
        assert(a =~= b);
    } else {
        lemma_antisymmetric(a.skip(1), b.skip(1));
        assert(a =~= seq![a[0]] + a.skip(1));
        assert(b =~= seq![b[0]] + b.skip(1));
    }
}

/// The section names each service that is collected on the day once, and no
/// other.
pub proof fn law_going_out(collections: Seq<Collection>, due: Date)
    ensures
        drawn_from(going_out(collections, due), collections),
        forall|i: int|
            0 <= i < going_out(collections, due).len() ==> (#[trigger] going_out(
                collections,
                due,
            )[i]).date == due,
        forall|i: int|
            0 <= i < collections.len() && (#[trigger] collections[i]).date == due ==> names(
                going_out(collections, due),
                collections[i].service@,
            ),
        distinct(going_out(collections, due)),
        collected_on(collections, due) <==> going_out(collections, due).len() > 0,
{
    let p = |c: Collection| c.date == due;
    let picked = collections.filter(p);
    let s = sorted(picked);
    lemma_sorted(picked);
    assert forall|i: int| 0 <= i < s.len() implies (#[trigger] s[i]).date == due
        && collections.contains(s[i]) by {
        assert(s.contains(s[i]));
        lemma_sorted_contains(picked, s[i]);
        collections.lemma_filter_contains_rev(p, s[i]);
        let k = choose|k: int| 0 <= k < picked.len() && picked[k] == s[i];
        collections.lemma_filter_pred(p, k);
    }
    lemma_dedup_from(s);
    lemma_dedup_names(s);
    lemma_dedup_distinct(s, due);
    let out = going_out(collections, due);
    assert forall|i: int| 0 <= i < out.len() implies collections.contains(#[trigger] out[i])
        && out[i].date == due by {
        assert(s.contains(out[i]));
        let k = choose|k: int| 0 <= k < s.len() && s[k] == out[i];
        assert(s[k].date == due);
    }
    assert forall|i: int|
        0 <= i < collections.len() && (#[trigger] collections[i]).date == due implies names(
        out,
        collections[i].service@,
    ) by {
        let c = collections[i];
        collections.lemma_filter_contains(p, i);
        lemma_sorted_contains(picked, c);
        let m = choose|m: int| 0 <= m < s.len() && s[m] == c;
        assert(names(out, s[m].service@));
    }
    if collected_on(collections, due) {
        let k = choose|k: int| 0 <= k < collections.len() && (#[trigger] collections[k]).date == due;
        assert(names(out, collections[k].service@));
    }
    if out.len() > 0 {
        assert(collections.contains(out[0]));
        let k = choose|k: int| 0 <= k < collections.len() && collections[k] == out[0];
        assert(collections[k].date == due);
    }
}

proof fn lemma_service_lines_fit(s: Seq<Collection>, columns: int)
    requires
        columns >= 3,
    ensures
        lines_fit(service_lines(s, columns), columns),
        s.len() > 0 ==> service_lines(s, columns).len() > 0,
    decreases s.len(),
{
    reveal_strlit("\n");
    reveal_strlit("  ");
    let whole = service_lines(s, columns);
    if s.len() == 0 {
        lemma_lines_fit_short(whole, columns);
    } else {
        let before = service_lines(s.drop_last(), columns);
        lemma_service_lines_fit(s.drop_last(), columns);
        let name = truncated(s.last().service@, columns - 2);
        lemma_truncated(s.last().service@, columns - 2);
        let line = "  "@ + name;
        let empty = Seq::<char>::empty();
        lemma_lines_fit_short(line, columns);
        lemma_lines_fit_short(empty, columns);
        lemma_lines_fit_apart(line, empty, columns);
        if s.len() == 1 {
            assert(whole =~= line + "\n"@ + empty);
        } else {
            let init = s.drop_last();
            let head = service_lines(init.drop_last(), columns) + "  "@ + truncated(
                init.last().service@,
                columns - 2,
            );
            assert(before =~= head + "\n"@);
            assert(before.take(head.len() as int) =~= head);
            lemma_lines_fit_prefix(before, head, columns);
            lemma_lines_fit_apart(head, line + "\n"@ + empty, columns);
            assert(whole =~= head + "\n"@ + (line + "\n"@ + empty));
        }
    }
}

proof fn lemma_lines_fit_prefix(s: Seq<char>, head: Seq<char>, n: int)
    requires
        lines_fit(s, n),
        head.len() <= s.len(),
        head == s.take(head.len() as int),
    ensures
        lines_fit(head, n),
{
    assert forall|i: int, j: int|
        0 <= i <= j <= head.len() && !(#[trigger] head.subrange(i, j)).contains(
            '\n',
        ) implies j - i <= n by {
        assert(head.subrange(i, j) =~= s.subrange(i, j));
    }
}

/// No line of the section is wider than the columns, from three columns on in
/// text output and from four on in image output.
pub proof fn law_lines_fit(collections: Seq<Collection>, due: Date, layout: Layout)
    requires
        layout.columns >= (if layout.icons {
            4int
        } else {
            3
        }),
    ensures
        rendered(collections, due, layout) matches Some(body) ==> lines_fit(
            body,
            layout.columns as int,
        ),
{
    reveal_strlit("\n");
    reveal_strlit("\n\n");
    reveal_strlit("  ");
    let columns = layout.columns as int;
    if collected_on(collections, due) {
        let first = date_line(due, layout);
        let services = service_lines(going_out(collections, due), columns);
        lemma_truncated(day_text(due), columns);
        if layout.icons {
            lemma_truncated(day_text(due), columns - 4);
        }
        lemma_lines_fit_short(first, columns);
        lemma_service_lines_fit(going_out(collections, due), columns);
        let empty = Seq::<char>::empty();
        lemma_lines_fit_short(empty, columns);
        lemma_lines_fit_apart(empty, services, columns);
        lemma_lines_fit_apart(first, empty + "\n"@ + services, columns);
        assert(first + "\n\n"@ + services =~= first + "\n"@ + (empty + "\n"@ + services));
    }
}

proof fn lemma_service_index(next: Seq<Collection>, service: Seq<char>)
    ensures
        match service_index(next, service) {
            Some(i) => 0 <= i < next.len() && next[i].service@ == service,
            None => forall|i: int|
                0 <= i < next.len() ==> (#[trigger] next[i]).service@ != service,
        },
    decreases next.len(),
{
    if next.len() > 0 {
        let init = next.drop_last();
        lemma_service_index(init, service);
        match service_index(init, service) {
            Some(i) => {
                assert(next[i] == init[i]);
            },
            None => {
                assert forall|i: int| 0 <= i < next.len() && next.last().service@ != service implies (
                #[trigger] next[i]).service@ != service by {
                    if i < init.len() {
                        assert(next[i] == init[i]);
                    }
                }
            },
        }
    }
}

/// The listing has an entry for the service of `c` that is no later than `c`.
pub open spec fn has_next(next: Seq<Collection>, c: Collection) -> bool {
    exists|i: int|
        0 <= i < next.len() && (#[trigger] next[i]).service@ == c.service@ && !earlier(
            c.date,
            next[i].date,
        )
}

/// The services of the listing are all different, each has one of the
/// collections of its service, and no collection of the service is sooner.
pub proof fn law_next_of_each(collections: Seq<Collection>)
    ensures
        distinct(next_of_each(collections)),
        drawn_from(next_of_each(collections), collections),
        forall|k: int|
            0 <= k < collections.len() ==> has_next(
                next_of_each(collections),
                #[trigger] collections[k],
            ),
    decreases collections.len(),
{
    if collections.len() > 0 {
        let init = collections.drop_last();
        let c = collections.last();
        law_next_of_each(init);
        let before = next_of_each(init);
        let next = next_of_each(collections);
        lemma_service_index(before, c.service@);
        assert(collections[collections.len() - 1] == c);
        assert forall|i: int| 0 <= i < next.len() implies collections.contains(
            #[trigger] next[i],
        ) by {
            if i < before.len() && next[i] == before[i] {
                assert(init.contains(before[i]));
                let k = choose|k: int| 0 <= k < init.len() && init[k] == before[i];
                assert(collections[k] == init[k]);
            } else {
                assert(next[i] == c);
            }
        }
        assert(distinct(next)) by {
            assert forall|i: int, j: int| 0 <= i < j < next.len() implies (
            #[trigger] next[i]).service@ != (#[trigger] next[j]).service@ by {
                if j < before.len() {
                    assert(before[i].service@ != before[j].service@);
                    assert(next[i].service@ == before[i].service@);
                    assert(next[j].service@ == before[j].service@);
                } else {
                    assert(next[i] == before[i]);
                    assert(before[i].service@ != c.service@);
                }
            }
        }
        assert forall|k: int| 0 <= k < collections.len() implies has_next(
            next,
            #[trigger] collections[k],
        ) by {
            if k < init.len() {
                assert(init[k] == collections[k]);
                assert(has_next(before, init[k]));
                let i = choose|i: int|
                    0 <= i < before.len() && (#[trigger] before[i]).service@ == init[k].service@
                        && !earlier(init[k].date, before[i].date);
                assert(next[i].service@ == collections[k].service@);
            } else {
                match service_index(before, c.service@) {
                    Some(i) => {
                        assert(next[i].service@ == c.service@);
                    },
                    None => {
                        assert(next[before.len() as int].service@ == c.service@);
                    },
                }
            }
        }
    }
}

/// The section comes when it should: where something is collected so many days
/// after the date of the report it is about that day; otherwise it is there only
/// when asked for, about the next day on which something is collected. It is never
/// about a day without a collection.
pub proof fn law_the_section_comes_when_it_is_due(
    lead_days: u64,
    collections: &[Collection],
    target: Date,
    layout: Layout,
    force: bool,
    r: Option<(Date, String)>,
)
    requires
        target.wf(),
        target.number() + lead_days <= last_day(),
        dates_ok(collections@),
        call_ensures(bin_day, (lead_days, collections, target, layout, force), r),
    ensures
        r matches Some((day, _)) ==> exists|i: int|
            0 <= i < collections@.len() && (#[trigger] collections@[i]).date == day,
        !force && r is Some ==> (r->0).0.number() == target.number() + lead_days,
        forall|i: int|
            0 <= i < collections@.len() && (#[trigger] collections@[i]).date.number()
                == target.number() + lead_days ==> r is Some && (r->0).0 == collections@[i].date,
        forall|i: int|
            force && 0 <= i < collections@.len() && (#[trigger] collections@[i]).date.number()
                >= target.number() ==> r is Some && (r->0).0.number() >= target.number(),
        forall|i: int|
            r is Some && (r->0).0.number() != target.number() + lead_days && 0 <= i
                < collections@.len() && target.number() <= (
            #[trigger] collections@[i]).date.number() ==> (r->0).0.number()
                <= collections@[i].date.number(),
{
    let due = choose|due: Date|
        due.wf() && due.number() == target.number() + lead_days && match #[trigger] shown_date(
            collections@,
            target,
            due,
            force,
        ) {
            None => r is None,
            Some(d) => r matches Some((day, body)) && day == d && Some(body@) == rendered(
                collections@,
                d,
                layout,
            ),
        };
    law_soonest(collections@, target);
    assert forall|i: int| 0 <= i < collections@.len() implies (
    (#[trigger] collections@[i]).date.number() == due.number() ==> collections@[i].date == due)
        && (earlier(collections@[i].date, target) <==> collections@[i].date.number()
        < target.number()) by {
        assert(collections@[i].date.wf());
        crate::date::lemma_date_order(collections@[i].date, due);
        crate::date::lemma_date_order(collections@[i].date, target);
    }
    if let Some(d) = soonest(collections@, target) {
        let k = choose|k: int| 0 <= k < collections@.len() && (#[trigger] collections@[k]).date == d;
        assert(d.wf());
        assert forall|i: int| 0 <= i < collections@.len() implies (earlier(
            (#[trigger] collections@[i]).date,
            d,
        ) <==> collections@[i].date.number() < d.number()) by {
            assert(collections@[i].date.wf());
            crate::date::lemma_date_order(collections@[i].date, d);
        }
    }
}

proof fn lemma_service_lines(s: Seq<Collection>, columns: int, i: int)
    requires
        0 <= i < s.len(),
        s[i].service@.len() + 2 <= columns,
    ensures
        contains_text(service_lines(s, columns), "  "@ + s[i].service@ + "\n"@),
    decreases s.len(),
{
    let init = s.drop_last();
    let before = service_lines(init, columns);
    let room = if columns >= 2 {
        columns - 2
    } else {
        0
    };
    let last = truncated(s.last().service@, room);
    let part = "  "@ + s[i].service@ + "\n"@;
    assert(service_lines(s, columns) == before + "  "@ + last + "\n"@);
    assert(service_lines(s, columns) =~= before + ("  "@ + last + "\n"@));
    if i < init.len() {
        assert(init[i] == s[i]);
        lemma_service_lines(init, columns, i);
        lemma_contains_more(before, "  "@ + last + "\n"@, part);
    } else {
        let none = Seq::<char>::empty();
        lemma_occurs_between(before, part, none);
        assert(before + part + none =~= before + part);
    }
}

/// Everything that is collected on the day of the section is named in it, each
/// service on a line of its own, in full where the columns leave room for it; and so
/// is the day.
pub proof fn law_every_service_is_shown(
    collections: &[Collection],
    due: Date,
    layout: Layout,
    r: Option<String>,
    i: int,
)
    requires
        due.wf(),
        call_ensures(render, (collections, due, layout), r),
        0 <= i < collections@.len(),
        collections@[i].date == due,
    ensures
        r is Some,
        collections@[i].service@.len() + 2 <= layout.columns ==> contains_text(
            r->0@,
            "  "@ + collections@[i].service@ + "\n"@,
        ),
        day_text(due).len() + 4 <= layout.columns ==> contains_text(r->0@, day_text(due) + "\n"@),
{
    let out = going_out(collections@, due);
    law_going_out(collections@, due);
    assert(collected_on(collections@, due));
    assert(text_of(r) == rendered(collections@, due, layout));
    let columns = layout.columns as int;
    let head = date_line(due, layout);
    let lines = service_lines(out, columns);
    let body = r->0@;
    assert(body == head + "\n\n"@ + lines);
    let j = choose|j: int| 0 <= j < out.len() && (#[trigger] out[j]).service@
        == collections@[i].service@;
    if collections@[i].service@.len() + 2 <= columns {
        lemma_service_lines(out, columns, j);
        lemma_contains_more(lines, head + "\n\n"@, "  "@ + collections@[i].service@ + "\n"@);
    }
    if day_text(due).len() + 4 <= columns {
        reveal_strlit("\n");
        reveal_strlit("\n\n");
        let part = day_text(due) + "\n"@;
        assert("\n\n"@ =~= "\n"@ + "\n"@);
        if layout.icons {
            let icon = seq![BIN_ICON] + "  "@;
            assert(head == icon + day_text(due));
            assert(body =~= icon + part + ("\n"@ + lines));
            lemma_occurs_between(icon, part, "\n"@ + lines);
        } else {
            let none = Seq::<char>::empty();
            assert(head == day_text(due));
            assert(body =~= none + part + ("\n"@ + lines));
            lemma_occurs_between(none, part, "\n"@ + lines);
        }
    }
}

proof fn lemma_collection_lines(s: Seq<Collection>, i: int)
    requires
        0 <= i < s.len(),
    ensures
        contains_text(
            collection_lines(s),
            iso_text(s[i].date) + "  "@ + weekday_name(s[i].date.weekday()).take(3) + "  "@
                + s[i].service@ + "\n"@,
        ),
    decreases s.len(),
{
    let init = s.drop_last();
    let before = collection_lines(init);
    let c = s.last();
    let day = weekday_name(c.date.weekday()).take(3);
    let line = iso_text(c.date) + "  "@ + day + "  "@ + c.service@ + "\n"@;
    assert(collection_lines(s) == before + iso_text(c.date) + "  "@ + day + "  "@ + c.service@
        + "\n"@);
    assert(collection_lines(s) =~= before + line);
    if i < init.len() {
        assert(init[i] == s[i]);
        lemma_collection_lines(init, i);
        lemma_contains_more(
            before,
            line,
            iso_text(s[i].date) + "  "@ + weekday_name(s[i].date.weekday()).take(3) + "  "@
                + s[i].service@ + "\n"@,
        );
    } else {
        let none = Seq::<char>::empty();
        lemma_occurs_between(before, line, none);
        assert(before + line + none =~= before + line);
    }
}

/// The listing of a property has a line for each service, with the soonest of its
/// collections; and it names the address and the id.
pub proof fn law_every_service_is_listed(property: &Property, r: String, k: int)
    requires
        dates_ok(property.collections@),
        call_ensures(list_bins, (property,), r),
    ensures
        begins_with(r@, property.address@),
        contains_text(r@, " (property_id = "@ + property.id@ + ")"@),
        0 <= k < property.collections@.len() ==> exists|j: int|
            {
                &&& 0 <= j < property.collections@.len()
                &&& (#[trigger] property.collections@[j]).service@
                    == property.collections@[k].service@
                &&& property.collections@[j].date.number() <= property.collections@[k].date.number()
                &&& contains_text(
                    r@,
                    iso_text(property.collections@[j].date) + "  "@ + weekday_name(
                        property.collections@[j].date.weekday(),
                    ).take(3) + "  "@ + property.collections@[j].service@ + "\n"@,
                )
            },
{
    let all = property.collections@;
    let each = next_of_each(all);
    let next = sorted(each);
    law_next_of_each(all);
    lemma_sorted(each);
    let lines = if next.len() == 0 {
        "No scheduled collections found for this property.\n"@
    } else {
        collection_lines(next)
    };
    let id = property.id@;
    reveal_strlit(")");
    reveal_strlit(")\n\n");
    reveal_strlit("\n\n");
    let tag = " (property_id = "@ + id + ")"@;
    let head = property.address@ + " (property_id = "@ + id + ")\n\n"@;
    assert(")\n\n"@ =~= ")"@ + "\n\n"@);
    assert(r@ == head + lines);
    assert(r@ =~= property.address@ + tag + ("\n\n"@ + lines));
    lemma_occurs_between(property.address@, tag, "\n\n"@ + lines);
    assert(r@.subrange(0, property.address@.len() as int) =~= property.address@);
    if 0 <= k < all.len() {
        assert(has_next(each, all[k]));
        let i = choose|i: int|
            0 <= i < each.len() && (#[trigger] each[i]).service@ == all[k].service@ && !earlier(
                all[k].date,
                each[i].date,
            );
        assert(each.contains(each[i]));
        lemma_sorted_contains(each, each[i]);
        let n = choose|n: int| 0 <= n < next.len() && next[n] == each[i];
        lemma_collection_lines(next, n);
        assert(all.contains(each[i]));
        let j = choose|j: int| 0 <= j < all.len() && all[j] == each[i];
        assert(all[j].date.wf() && all[k].date.wf());
        crate::date::lemma_date_order(all[k].date, all[j].date);
        let line = iso_text(all[j].date) + "  "@ + weekday_name(all[j].date.weekday()).take(3)
            + "  "@ + all[j].service@ + "\n"@;
        lemma_contains_more(collection_lines(next), head, line);
        assert(contains_text(r@, line));
    }
}

/// The soonest collections are in order of their dates, with one for each service
/// and no other.
pub proof fn law_the_soonest_are_in_order(collections: &[Collection], r: Vec<Collection>)
    requires
        dates_ok(collections@),
        call_ensures(next_per_service, (collections,), r),
    ensures
        forall|i: int, j: int|
            0 <= i <= j < r@.len() ==> (#[trigger] r@[i]).date.number() <= (
            #[trigger] r@[j]).date.number(),
        forall|i: int| 0 <= i < r@.len() ==> collections@.contains(#[trigger] r@[i]),
        forall|i: int, j: int|
            0 <= i < r@.len() && 0 <= j < r@.len() && (#[trigger] r@[i]).service@ == (
            #[trigger] r@[j]).service@ ==> r@[i].date == r@[j].date,
        forall|k: int|
            0 <= k < collections@.len() ==> names(r@, (#[trigger] collections@[k]).service@),
{
    let each = next_of_each(collections@);
    law_next_of_each(collections@);
    lemma_sorted(each);
    assert forall|i: int| 0 <= i < r@.len() implies collections@.contains(#[trigger] r@[i])
        && each.contains(r@[i]) by {
        assert(r@.contains(r@[i]));
        lemma_sorted_contains(each, r@[i]);
        let n = choose|n: int| 0 <= n < each.len() && each[n] == r@[i];
        assert(collections@.contains(each[n]));
    }
    assert forall|i: int, j: int| 0 <= i <= j < r@.len() implies (
    #[trigger] r@[i]).date.number() <= (#[trigger] r@[j]).date.number() by {
        assert(r@[i].at_most(r@[j]));
        assert(collections@.contains(r@[i]) && collections@.contains(r@[j]));
        let a = choose|a: int| 0 <= a < collections@.len() && collections@[a] == r@[i];
        let b = choose|b: int| 0 <= b < collections@.len() && collections@[b] == r@[j];
        assert(collections@[a].date.wf() && collections@[b].date.wf());
        crate::date::lemma_date_order(r@[i].date, r@[j].date);
    }
    assert forall|i: int, j: int|
        0 <= i < r@.len() && 0 <= j < r@.len() && (#[trigger] r@[i]).service@ == (
        #[trigger] r@[j]).service@ implies r@[i].date == r@[j].date by {
        let a = choose|a: int| 0 <= a < each.len() && each[a] == r@[i];
        let b = choose|b: int| 0 <= b < each.len() && each[b] == r@[j];
        if a < b {
            assert(each[a].service@ != each[b].service@);
        } else if b < a {
            assert(each[b].service@ != each[a].service@);
        }
    }
    assert forall|k: int| 0 <= k < collections@.len() implies names(
        r@,
        (#[trigger] collections@[k]).service@,
    ) by {
        assert(has_next(each, collections@[k]));
        let i = choose|i: int|
            0 <= i < each.len() && (#[trigger] each[i]).service@ == collections@[k].service@
                && !earlier(collections@[k].date, each[i].date);
        assert(each.contains(each[i]));
        lemma_sorted_contains(each, each[i]);
        let n = choose|n: int| 0 <= n < r@.len() && r@[n] == each[i];
        assert(r@[n].service@ == collections@[k].service@);
    }
}

/// A council is recognised whatever the case of its name.
pub proof fn law_councils_in_any_case(a: Seq<char>, b: Seq<char>)
    requires
        all_ascii(a),
        all_ascii(b),
        same_ignoring_case(a, b),
    ensures
        key_of(a) == key_of(b),
{
    law_case_does_not_matter(a, b);
}

/// The key of a council is letters and digits with single spaces between them.
pub proof fn law_council_keys(council: Seq<char>)
    ensures
        spaced(key_of(council), |c: char| word_char(c) || white(c)),
        forall|i: int|
            0 <= i < key_of(council).len() ==> #[trigger] key_of(council)[i] == ' ' || word_char(
                key_of(council)[i],
            ) || white(key_of(council)[i]),
{
    let bare = trimmed(
        stripped_end(
            stripped_end(
                stripped_start(trimmed(lowered(council)), "london borough of"@),
                "council"@,
            ),
            "borough of"@,
        ),
    );
    let p = |c: char| word_char(c) || white(c);
    let s = bare.filter(p);
    assert forall|i: int| 0 <= i < s.len() && s[i] != ' ' implies p(#[trigger] s[i]) by {
        bare.lemma_filter_pred(p, i);
    }
    crate::text::lemma_collapsed_spaced(s, p);
}

/// A council that is known is asked; any other is refused, by the name it was given.
pub proof fn law_known_councils(cfg: &BinSettings, r: Result<Council, UnsupportedCouncil>)
    requires
        call_ensures(council, (cfg,), r),
    ensures
        key_of(cfg.council@) == "bromley"@ <==> r == Ok::<Council, UnsupportedCouncil>(
            Council::Bromley,
        ),
        key_of(cfg.council@) == "hackney"@ <==> r == Ok::<Council, UnsupportedCouncil>(
            Council::Hackney,
        ),
        r is Err ==> r->Err_0.council@ == cfg.council@,
{
    reveal_strlit("bromley");
    reveal_strlit("hackney");
    assert("bromley"@[0] == 'b' && "hackney"@[0] == 'h');
}

// --- Functions ----------------------------------------------------------------

/// How many days ahead the section appears where nothing is said: the day
/// before.
pub fn default_lead_days() -> (r: u64)
    ensures
        r == 1,
{
    1
}

impl Collection {
    /// A copy of the collection.
    pub fn copy(&self) -> (r: Collection)
        ensures
            r == *self,
    {
        Collection { service: self.service.clone(), date: self.date }
    }
}

/// The date, if any, that the section is about: the due date when something is
/// collected then, or, when the section is asked for, the next collection from
/// `target` on.
pub fn section_date(collections: &[Collection], target: Date, due: Date, force: bool) -> (r: Option<
    Date,
>)
    ensures
        r == shown_date(collections@, target, due, force),
{
    let mut i: usize = 0;
    while i < collections.len()
        invariant
            i <= collections@.len(),
            forall|j: int| 0 <= j < i ==> (#[trigger] collections@[j]).date != due,
        decreases collections@.len() - i,
    {
        if collections[i].date == due {
            return Some(due);
        }
        i = i + 1;
    }
    if !force {
        return None;
    }
    let mut best: Option<Date> = None;
    let mut k: usize = 0;
    assert(collections@.take(0) =~= Seq::<Collection>::empty());
    while k < collections.len()
        invariant
            k <= collections@.len(),
            best == soonest(collections@.take(k as int), target),
        decreases collections@.len() - k,
    {
        assert(collections@.take(k + 1).drop_last() =~= collections@.take(k as int));
        assert(collections@.take(k + 1).last() == collections@[k as int]);
        let d: Date = collections[k].date;
        if !is_earlier(d, target) {
            let sooner: bool = match best {
                None => true,
                Some(b) => is_earlier(d, b),
            };
            if sooner {
                best = Some(d);
            }
        }
        k = k + 1;
    }
    assert(collections@.take(k as int) =~= collections@);
    best
}

/// The collections of one day.
fn on_day(collections: &[Collection], due: Date) -> (r: Vec<Collection>)
    ensures
        r@ == collections@.filter(|c: Collection| c.date == due),
{
    let mut out: Vec<Collection> = Vec::new();
    let ghost p = |c: Collection| c.date == due;
    let mut i: usize = 0;
    assert(collections@.take(0) =~= Seq::<Collection>::empty());
    assert(collections@.take(0).filter(p) =~= Seq::<Collection>::empty());
    while i < collections.len()
        invariant
            i <= collections@.len(),
            p == (|c: Collection| c.date == due),
            out@ == collections@.take(i as int).filter(p),
        decreases collections@.len() - i,
    {
        proof {
            assert(collections@.take(i + 1) =~= collections@.take(i as int).push(
                collections@[i as int],
            ));
            collections@.take(i as int).lemma_filter_push(collections@[i as int], p);
        }
        if collections[i].date == due {
            out.push(collections[i].copy());
        }
        i = i + 1;
    }
    assert(collections@.take(i as int) =~= collections@);
    out
}

/// The collections without those whose service the one before them has.
fn dedup_services(s: &Vec<Collection>) -> (r: Vec<Collection>)
    ensures
        r@ == deduplicated(s@),
{
    let mut out: Vec<Collection> = Vec::new();
    let mut i: usize = 0;
    assert(s@.take(0) =~= Seq::<Collection>::empty());
    while i < s.len()
        invariant
            i <= s@.len(),
            out@ == deduplicated(s@.take(i as int)),
        decreases s@.len() - i,
    {
        assert(s@.take(i + 1).drop_last() =~= s@.take(i as int));
        assert(s@.take(i + 1).last() == s@[i as int]);
        let repeated: bool = out.len() > 0 && same_str(
            out[out.len() - 1].service.as_str(),
            s[i].service.as_str(),
        );
        if !repeated {
            out.push(s[i].copy());
        }
        i = i + 1;
    }
    assert(s@.take(i as int) =~= s@);
    out
}

/// The body of the section for what is collected on `due`, if anything is.
pub fn render(collections: &[Collection], due: Date, layout: Layout) -> (r: Option<String>)
    requires
        due.wf(),
    ensures
        text_of(r) == rendered(collections@, due, layout),
{
    let columns: usize = layout.columns;
    let picked: Vec<Collection> = on_day(collections, due);
    let none: bool = picked.len() == 0;
    proof {
        let p = |c: Collection| c.date == due;
        law_going_out(collections@, due);
        lemma_sorted(collections@.filter(p));
        if picked@.len() > 0 {
            assert(picked@.contains(picked@[0]));
            collections@.lemma_filter_pred(p, 0);
            collections@.lemma_filter_contains_rev(p, picked@[0]);
            let k = choose|k: int| 0 <= k < collections@.len() && collections@[k] == picked@[0];
            assert(collections@[k].date == due);
        } else if collected_on(collections@, due) {
            let k = choose|k: int|
                0 <= k < collections@.len() && (#[trigger] collections@[k]).date == due;
            collections@.lemma_filter_contains(p, k);
        }
    }
    if none {
        return None;
    }
    let services: Vec<Collection> = dedup_services(&sort(picked));
    let date: String = format_date(due, "%A, %-d %B");
    let d: Vec<char> = chars_of(date.as_str());
    let mut out: Vec<char> = Vec::new();
    if layout.icons {
        out.push(BIN_ICON);
        push_str(&mut out, "  ");
        let budget: usize = if columns >= 4 {
            columns - 4
        } else {
            0
        };
        push_all(&mut out, shorten(d.as_slice(), budget).as_slice());
    } else {
        push_all(&mut out, shorten(d.as_slice(), columns).as_slice());
    }
    assert(out@ =~= date_line(due, layout));
    push_str(&mut out, "\n\n");
    let ghost head = out@;
    let budget: usize = if columns >= 2 {
        columns - 2
    } else {
        0
    };
    let mut i: usize = 0;
    assert(services@.take(0) =~= Seq::<Collection>::empty());
    assert(head + Seq::<char>::empty() =~= head);
    while i < services.len()
        invariant
            i <= services@.len(),
            budget == (if columns >= 2 {
                columns - 2
            } else {
                0
            }),
            out@ == head + service_lines(services@.take(i as int), columns as int),
        decreases services@.len() - i,
    {
        let ghost sofar = out@;
        let name: Vec<char> = chars_of(services[i].service.as_str());
        push_str(&mut out, "  ");
        push_all(&mut out, shorten(name.as_slice(), budget).as_slice());
        push_str(&mut out, "\n");
        proof {
            assert(services@.take(i + 1).drop_last() =~= services@.take(i as int));
            assert(services@.take(i + 1).last() == services@[i as int]);
            assert(out@ =~= head + service_lines(services@.take(i + 1), columns as int));
        }
        i = i + 1;
    }
    assert(services@.take(i as int) =~= services@);
    Some(string_of(out.as_slice()))
}

/// The section for a property: the date of the collection that it is about, and
/// its body. Without `force` it is there only when something is collected
/// `lead_days` after `target`; with it, the next collection from `target` on is
/// shown on other days.
pub fn bin_day(
    lead_days: u64,
    collections: &[Collection],
    target: Date,
    layout: Layout,
    force: bool,
) -> (r: Option<(Date, String)>)
    requires
        target.wf(),
        target.number() + lead_days <= last_day(),
        dates_ok(collections@),
    ensures
        exists|due: Date|
            due.wf() && due.number() == target.number() + lead_days && match #[trigger] shown_date(
                collections@,
                target,
                due,
                force,
            ) {
                None => r is None,
                Some(d) => r matches Some((day, body)) && day == d && Some(body@) == rendered(
                    collections@,
                    d,
                    layout,
                ),
            },
{
    match plus_days(target, lead_days) {
        None => None,
        Some(due) => {
            let shown: Option<Date> = section_date(collections, target, due, force);
            proof {
                law_soonest(collections@, target);
                law_a_shown_date_has_a_body(collections@, target, due, force, layout);
            }
            match shown {
                None => None,
                Some(d) => {
                    proof {
                        let k = choose|k: int|
                            0 <= k < collections@.len() && (#[trigger] collections@[k]).date == d;
                        assert(collections@[k].date.wf());
                    }
                    match render(collections, d, layout) {
                        Some(body) => Some((d, body)),
                        None => None,
                    }
                },
            }
        },
    }
}

/// The soonest collection of each service, earliest first.
pub fn next_per_service(collections: &[Collection]) -> (r: Vec<Collection>)
    ensures
        r@ == sorted(next_of_each(collections@)),
{
    let mut next: Vec<Collection> = Vec::new();
    let mut i: usize = 0;
    assert(collections@.take(0) =~= Seq::<Collection>::empty());
    while i < collections.len()
        invariant
            i <= collections@.len(),
            next@ == next_of_each(collections@.take(i as int)),
        decreases collections@.len() - i,
    {
        let c: &Collection = &collections[i];
        assert(collections@.take(i + 1).drop_last() =~= collections@.take(i as int));
        assert(collections@.take(i + 1).last() == *c);
        match find_service(&next, c.service.as_str()) {
            Some(k) => {
                if is_earlier(c.date, next[k].date) {
                    next.set(k, c.copy());
                }
            },
            None => {
                next.push(c.copy());
            },
        }
        i = i + 1;
    }
    assert(collections@.take(i as int) =~= collections@);
    sort(next)
}

/// The index of the first collection of a service.
fn find_service(next: &Vec<Collection>, service: &str) -> (r: Option<usize>)
    ensures
        match r {
            Some(i) => i < next@.len() && service_index(next@, service@) == Some(i as int),
            None => service_index(next@, service@) is None,
        },
{
    let mut i: usize = 0;
    assert(next@.take(0) =~= Seq::<Collection>::empty());
    while i < next.len()
        invariant
            i <= next@.len(),
            service_index(next@.take(i as int), service@) is None,
        decreases next@.len() - i,
    {
        assert(next@.take(i + 1).drop_last() =~= next@.take(i as int));
        assert(next@.take(i + 1).last() == next@[i as int]);
        if same_str(next[i].service.as_str(), service) {
            proof {
                lemma_service_index_stays(next@, service@, i + 1);
            }
            return Some(i);
        }
        i = i + 1;
    }
    assert(next@.take(i as int) =~= next@);
    None
}

proof fn lemma_service_index_stays(next: Seq<Collection>, service: Seq<char>, n: int)
    requires
        0 <= n <= next.len(),
        service_index(next.take(n), service) is Some,
    ensures
        service_index(next, service) == service_index(next.take(n), service),
    decreases next.len(),
{
    if n == next.len() {
        assert(next.take(n) =~= next);
    } else {
        assert(next.drop_last().take(n) =~= next.take(n));
        lemma_service_index_stays(next.drop_last(), service, n);
    }
}

/// The listing of a property: its address, its id, and the next collection of
/// each service.
pub fn list_bins(property: &Property) -> (r: String)
    requires
        dates_ok(property.collections@),
    ensures
        r@ == property_text(*property),
{
    let next: Vec<Collection> = next_per_service(property.collections.as_slice());
    proof {
        lemma_sorted(next_of_each(property.collections@));
        law_next_of_each(property.collections@);
        assert forall|i: int| 0 <= i < next@.len() implies (#[trigger] next@[i]).date.wf() by {
            assert(next@.contains(next@[i]));
            lemma_sorted_contains(next_of_each(property.collections@), next@[i]);
            let all = next_of_each(property.collections@);
            let k = choose|k: int| 0 <= k < all.len() && all[k] == next@[i];
            assert(property.collections@.contains(all[k]));
            let m = choose|m: int|
                0 <= m < property.collections@.len() && property.collections@[m] == all[k];
            assert(property.collections@[m].date.wf());
        }
    }
    let mut out: Vec<char> = chars_of(property.address.as_str());
    push_str(&mut out, " (property_id = ");
    push_str(&mut out, property.id.as_str());
    push_str(&mut out, ")\n\n");
    if next.len() == 0 {
        push_str(&mut out, "No scheduled collections found for this property.\n");
        return string_of(out.as_slice());
    }
    let ghost head = out@;
    let mut i: usize = 0;
    assert(next@.take(0) =~= Seq::<Collection>::empty());
    assert(head + Seq::<char>::empty() =~= head);
    while i < next.len()
        invariant
            i <= next@.len(),
            forall|j: int| 0 <= j < next@.len() ==> (#[trigger] next@[j]).date.wf(),
            out@ == head + collection_lines(next@.take(i as int)),
        decreases next@.len() - i,
    {
        let c: &Collection = &next[i];
        let date: String = format_date(c.date, "%Y-%m-%d");
        let weekday: String = format_date(c.date, "%a");
        push_str(&mut out, date.as_str());
        push_str(&mut out, "  ");
        push_str(&mut out, weekday.as_str());
        push_str(&mut out, "  ");
        push_str(&mut out, c.service.as_str());
        push_str(&mut out, "\n");
        proof {
            assert(next@.take(i + 1).drop_last() =~= next@.take(i as int));
            assert(next@.take(i + 1).last() == *c);
            assert(out@ =~= head + collection_lines(next@.take(i + 1)));
        }
        i = i + 1;
    }
    assert(next@.take(i as int) =~= next@);
    string_of(out.as_slice())
}

/// A council's name as it is looked up, so that `Bromley`, `bromley` and
/// `Bromley Council` are the same.
pub fn council_key(council: &str) -> (r: String)
    ensures
        r@ == key_of(council@),
{
    let low: String = council.to_lowercase();
    let v: Vec<char> = chars_of(low.as_str());
    let a: Vec<char> = chars_of("london borough of");
    let b: Vec<char> = chars_of("council");
    let c: Vec<char> = chars_of("borough of");
    proof {
        reveal_strlit("london borough of");
        reveal_strlit("council");
        reveal_strlit("borough of");
    }
    let bare: &[char] = trim(
        strip_end(
            strip_end(strip_start(trim(v.as_slice()), a.as_slice()), b.as_slice()),
            c.as_slice(),
        ),
    );
    let mut kept: Vec<char> = Vec::new();
    let ghost p = |c: char| word_char(c) || white(c);
    let mut i: usize = 0;
    assert(bare@.take(0) =~= Seq::<char>::empty());
    assert(bare@.take(0).filter(p) =~= Seq::<char>::empty());
    while i < bare.len()
        invariant
            i <= bare@.len(),
            p == (|c: char| word_char(c) || white(c)),
            kept@ == bare@.take(i as int).filter(p),
        decreases bare@.len() - i,
    {
        proof {
            assert(bare@.take(i + 1) =~= bare@.take(i as int).push(bare@[i as int]));
            bare@.take(i as int).lemma_filter_push(bare@[i as int], p);
        }
        if bare[i].is_alphanumeric() || is_white(bare[i]) {
            kept.push(bare[i]);
        }
        i = i + 1;
    }
    assert(bare@.take(i as int) =~= bare@);
    string_of(collapse(kept.as_slice()).as_slice())
}

/// The council of the settings.
pub fn council(cfg: &BinSettings) -> (r: Result<Council, UnsupportedCouncil>)
    ensures
        match r {
            Ok(c) => council_by_key(key_of(cfg.council@)) == Some(c),
            Err(e) => council_by_key(key_of(cfg.council@)) is None && e.council@ == cfg.council@,
        },
{
    let key: String = council_key(cfg.council.as_str());
    if same_str(key.as_str(), "bromley") {
        return Ok(Council::Bromley);
    }
    if same_str(key.as_str(), "hackney") {
        return Ok(Council::Hackney);
    }
    Err(UnsupportedCouncil { council: cfg.council.clone() })
}

impl UnsupportedCouncil {
    /// What the message says.
    pub open spec fn text(self) -> Seq<char> {
        "unsupported council `"@ + self.council@
            + "` in [bins]; only `Bromley` and `Hackney` are implemented so far"@
    }

    /// The message for the person who runs the program.
    pub fn message(&self) -> (r: String)
        ensures
            r@ == self.text(),
    {
        let mut out: Vec<char> = chars_of("unsupported council `");
        push_str(&mut out, self.council.as_str());
        push_str(&mut out, "` in [bins]; only `Bromley` and `Hackney` are implemented so far");
        string_of(out.as_slice())
    }
}

} // verus!
