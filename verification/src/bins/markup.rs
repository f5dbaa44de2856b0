//! Reading the pages that councils publish: entities, tags, ordinals and dates
//! without a year.

use vstd::prelude::*;

use crate::date::{
    date_read, dated_text, is_earlier, lemma_weekday_shifts, minus_days, month_name, parse_date_by,
    weekday_name, Date, MAX_YEAR, MIN_YEAR,
};
use crate::text::{
    after, all_ascii, all_digits, apart, ascii, ascii_lower, before, before_first, byte_len, chars_of, collapse,
    collapsed, contains_text, decimal, decimal_int, digit, digit_value, ends_with, eq_ignoring_case, find, find_char,
    first_index, law_decimal_reads_back, law_stripped_end, lemma_decimal, lemma_first_between,
    lemma_first_index, number, occurs_at, parse_unsigned,
    parsed_unsigned, push_all, push_decimal_int, same_ignoring_case, same_str, scalar, string_of,
    strip_end, stripped_end, trim, trimmed, word_char,
};

verus! {

// --- Models ------------------------------------------------------------------

/// The character that an entity name stands for.
pub open spec fn named_entity(name: Seq<char>) -> Option<char> {
    if name == "amp"@ {
        Some('&')
    } else if name == "lt"@ {
        Some('<')
    } else if name == "gt"@ {
        Some('>')
    } else if name == "quot"@ {
        Some('"')
    } else if name == "apos"@ {
        Some('\'')
    } else if name == "nbsp"@ {
        Some(' ')
    } else {
        None
    }
}

/// The number in a character reference: decimal after `#`, hexadecimal after
/// `#x` or `#X`.
pub open spec fn reference_number(name: Seq<char>) -> Option<int> {
    if name.len() == 0 || name[0] != '#' {
        None
    } else if name.len() > 1 && (name[1] == 'x' || name[1] == 'X') {
        parsed_unsigned(name.skip(2), 16, 0xffff_ffff)
    } else {
        parsed_unsigned(name.skip(1), 10, 0xffff_ffff)
    }
}

/// The character that stands between `&` and `;`.
pub open spec fn entity(name: Seq<char>) -> Option<char> {
    match named_entity(name) {
        Some(c) => Some(c),
        None => match reference_number(name) {
            Some(n) => scalar(n),
            None => None,
        },
    }
}

/// The entity at the start of a text that begins with `&`: its character, and
/// how many characters of the text it takes up. Its semicolon stands at most ten
/// bytes in.
pub open spec fn entity_at(s: Seq<char>) -> Option<(char, int)> {
    match first_index(s, seq![';']) {
        None => None,
        Some(e) => if byte_len(s.take(e)) > 10 {
            None
        } else {
            match entity(s.subrange(1, e)) {
                Some(c) => Some((c, e + 1)),
                None => None,
            }
        },
    }
}

/// `s` with each entity replaced by its character. An ampersand that begins no
/// entity stands for itself.
pub open spec fn decoded(s: Seq<char>) -> Seq<char>
    decreases s.len(),
    via decoded_decreases
{
    if s.len() == 0 {
        s
    } else if s[0] != '&' {
        seq![s[0]] + decoded(s.skip(1))
    } else {
        match entity_at(s) {
            Some((c, n)) => seq![c] + decoded(s.skip(n)),
            None => seq!['&'] + decoded(s.skip(1)),
        }
    }
}

#[via_fn]
proof fn decoded_decreases(s: Seq<char>) {
    lemma_first_index(s, seq![';']);
}

/// The characters of `s` that stand outside of angle brackets, where `depth`
/// brackets are open at its start. A closing bracket too many is left out.
pub open spec fn outside_tags(s: Seq<char>, depth: nat) -> Seq<char>
    decreases s.len(),
{
    if s.len() == 0 {
        s
    } else if s[0] == '<' {
        outside_tags(s.skip(1), depth + 1)
    } else if s[0] == '>' {
        outside_tags(
            s.skip(1),
            if depth > 0 {
                (depth - 1) as nat
            } else {
                0
            },
        )
    } else if depth == 0 {
        seq![s[0]] + outside_tags(s.skip(1), depth)
    } else {
        outside_tags(s.skip(1), depth)
    }
}

/// The text of a piece of HTML: what stands outside of tags, with entities
/// decoded and white space collapsed.
pub open spec fn tagless(s: Seq<char>) -> Seq<char> {
    collapsed(decoded(outside_tags(s, 0)))
}

/// How many digits `s` begins with.
pub open spec fn digit_run(s: Seq<char>) -> nat
    decreases s.len(),
{
    if s.len() > 0 && digit(s[0]) {
        1 + digit_run(s.skip(1))
    } else {
        0
    }
}

/// An ordinal suffix in either case.
pub open spec fn is_suffix(s: Seq<char>) -> bool {
    ||| same_ignoring_case(s, "st"@)
    ||| same_ignoring_case(s, "nd"@)
    ||| same_ignoring_case(s, "rd"@)
    ||| same_ignoring_case(s, "th"@)
}

/// `s` begins with an ordinal suffix that is not the beginning of a longer word.
pub open spec fn suffix_ahead(s: Seq<char>) -> bool {
    s.len() >= 2 && is_suffix(s.take(2)) && (s.len() == 2 || !word_char(s[2]))
}

/// `s` without the ordinal suffixes that follow its numbers.
pub open spec fn without_ordinals(s: Seq<char>) -> Seq<char>
    decreases s.len(),
    via without_ordinals_decreases
{
    if s.len() == 0 {
        s
    } else if digit(s[0]) {
        let n = digit_run(s) as int;
        let rest = s.skip(n);
        if suffix_ahead(rest) {
            s.take(n) + without_ordinals(rest.skip(2))
        } else {
            s.take(n) + without_ordinals(rest)
        }
    } else {
        seq![s[0]] + without_ordinals(s.skip(1))
    }
}

/// `cut` is `s` with ordinal suffixes taken out, each of them right behind a
/// digit. `behind` says whether `s` itself stands behind one.
pub open spec fn ordinals_cut(s: Seq<char>, cut: Seq<char>, behind: bool) -> bool
    decreases s.len(),
{
    ||| s.len() == 0 && cut.len() == 0
    ||| s.len() > 0 && cut.len() > 0 && cut[0] == s[0] && ordinals_cut(
        s.skip(1),
        cut.skip(1),
        digit(s[0]),
    )
    ||| s.len() >= 2 && behind && is_suffix(s.take(2)) && ordinals_cut(s.skip(2), cut, false)
}

#[via_fn]
proof fn without_ordinals_decreases(s: Seq<char>) {
    lemma_digit_run(s);
}

proof fn lemma_digit_run(s: Seq<char>)
    ensures
        digit_run(s) <= s.len(),
        forall|i: int| 0 <= i < digit_run(s) ==> digit(#[trigger] s[i]),
        digit_run(s) < s.len() ==> !digit(s[digit_run(s) as int]),
    decreases s.len(),
{
    if s.len() > 0 && digit(s[0]) {
        let t = s.skip(1);
        lemma_digit_run(t);
        assert forall|i: int| 0 <= i < digit_run(s) implies digit(#[trigger] s[i]) by {
            if i > 0 {
                assert(s[i] == t[i - 1]);
            }
        }
        if digit_run(s) < s.len() {
            assert(s[digit_run(s) as int] == t[digit_run(t) as int]);
        }
    }
}

/// What stands in `hay` after the first `start` and before the `end` that
/// follows it.
pub open spec fn enclosed(hay: Seq<char>, start: Seq<char>, end: Seq<char>) -> Option<Seq<char>> {
    match first_index(hay, start) {
        None => None,
        Some(i) => {
            let rest = after(hay, i, start);
            match first_index(rest, end) {
                None => None,
                Some(j) => Some(rest.take(j)),
            }
        },
    }
}

/// The weekday, day and month of a council's date: without ordinals, without a
/// time after `, at `, and without commas at the end.
pub open spec fn day_words(text: Seq<char>) -> Seq<char> {
    stripped_end(trimmed(before(without_ordinals(text), ", at "@)), ","@)
}

/// The date that a council's words stand for in a given year, unless that is
/// more than a week before `today`.
pub open spec fn in_year(words: Seq<char>, year: int, today: Date) -> Option<Date> {
    match date_read(words + " "@ + decimal_int(year), "%A, %d %B %Y"@) {
        Some(d) => if d.number() >= today.number() - 7 {
            Some(d)
        } else {
            None
        },
        None => None,
    }
}

/// The date that a council's text stands for, with the year of `today`, the next
/// year or the last one, whichever comes first in that order.
pub open spec fn collection_date(text: Seq<char>, today: Date) -> Option<Date> {
    let words = day_words(text);
    match in_year(words, today.year as int, today) {
        Some(d) => Some(d),
        None => match in_year(words, today.year + 1, today) {
            Some(d) => Some(d),
            None => in_year(words, today.year - 1, today),
        },
    }
}

/// A weekday, a day and a month as councils write them.
pub open spec fn council_words(weekday: int, month: int, day: nat) -> Seq<char> {
    weekday_name(weekday) + ", "@ + decimal(day) + " "@ + month_name(month)
}

/// A text without an ampersand holds no entity.
pub proof fn law_no_entities_without_ampersands(s: Seq<char>)
    requires
        !s.contains('&'),
    ensures
        decoded(s) == s,
    decreases s.len(),
{
    if s.len() > 0 {
        assert(s.contains(s[0]));
        let t = s.skip(1);
        assert forall|i: int| 0 <= i < t.len() implies t[i] != '&' by {
            assert(s.contains(s[i + 1]));
        }
        law_no_entities_without_ampersands(t);
        assert(seq![s[0]] + t =~= s);
    }
}

/// Decoding entities never makes a text longer.
pub proof fn law_decoding_never_lengthens(s: Seq<char>)
    ensures
        decoded(s).len() <= s.len(),
    decreases s.len(),
{
    if s.len() > 0 {
        lemma_first_index(s, seq![';']);
        if s[0] == '&' {
            match entity_at(s) {
                Some((c, n)) => law_decoding_never_lengthens(s.skip(n)),
                None => law_decoding_never_lengthens(s.skip(1)),
            }
        } else {
            law_decoding_never_lengthens(s.skip(1));
        }
    }
}

/// A text without angle brackets lies outside of tags.
pub proof fn law_no_tags_without_brackets(s: Seq<char>)
    requires
        !s.contains('<'),
        !s.contains('>'),
    ensures
        outside_tags(s, 0) == s,
    decreases s.len(),
{
    if s.len() > 0 {
        assert(s.contains(s[0]));
        let t = s.skip(1);
        assert forall|i: int| 0 <= i < t.len() implies t[i] != '<' && t[i] != '>' by {
            assert(s.contains(s[i + 1]));
        }
        law_no_tags_without_brackets(t);
        assert(seq![s[0]] + t =~= s);
    }
}

/// No angle bracket is left outside of tags.
pub proof fn law_no_brackets_are_left(s: Seq<char>, depth: nat)
    ensures
        !outside_tags(s, depth).contains('<'),
        !outside_tags(s, depth).contains('>'),
    decreases s.len(),
{
    if s.len() > 0 {
        let less = if depth > 0 {
            (depth - 1) as nat
        } else {
            0
        };
        law_no_brackets_are_left(s.skip(1), depth + 1);
        law_no_brackets_are_left(s.skip(1), less);
        law_no_brackets_are_left(s.skip(1), depth);
        if s[0] != '<' && s[0] != '>' && depth == 0 {
            let t = outside_tags(s.skip(1), depth);
            let r = seq![s[0]] + t;
            assert forall|i: int| 0 <= i < r.len() implies r[i] != '<' && r[i] != '>' by {
                if i > 0 {
                    assert(t.contains(t[i - 1]));
                }
            }
        }
    }
}

/// A piece of HTML without brackets and ampersands is only collapsed.
pub proof fn law_plain_html_is_only_collapsed(s: Seq<char>)
    requires
        !s.contains('<'),
        !s.contains('>'),
        !s.contains('&'),
    ensures
        tagless(s) == collapsed(s),
{
    law_no_tags_without_brackets(s);
    law_no_entities_without_ampersands(s);
}

/// A text without digits has no ordinals.
pub proof fn law_no_ordinals_without_digits(s: Seq<char>)
    requires
        forall|i: int| 0 <= i < s.len() ==> !digit(#[trigger] s[i]),
    ensures
        without_ordinals(s) == s,
    decreases s.len(),
{
    if s.len() > 0 {
        let t = s.skip(1);
        assert forall|i: int| 0 <= i < t.len() implies !digit(#[trigger] t[i]) by {
            assert(t[i] == s[i + 1]);
        }
        law_no_ordinals_without_digits(t);
        assert(seq![s[0]] + t =~= s);
    }
}

proof fn lemma_suffix_starts(s: Seq<char>)
    requires
        is_suffix(s),
    ensures
        s.len() == 2,
        word_char(s[0]) && !digit(s[0]),
        word_char(s[1]) && !digit(s[1]),
{
    reveal_strlit("st");
    reveal_strlit("nd");
    reveal_strlit("rd");
    reveal_strlit("th");
    assert(ascii_lower(s[0]) == 's' || ascii_lower(s[0]) == 'n' || ascii_lower(s[0]) == 'r'
        || ascii_lower(s[0]) == 't');
    assert(ascii_lower(s[1]) == 't' || ascii_lower(s[1]) == 'd' || ascii_lower(s[1]) == 'h');
}

/// A text keeps its first character, and nothing comes of nothing.
proof fn lemma_first_is_kept(s: Seq<char>)
    ensures
        without_ordinals(s).len() > 0 <==> s.len() > 0,
        s.len() > 0 ==> without_ordinals(s)[0] == s[0],
{
    if s.len() > 0 && digit(s[0]) {
        lemma_digit_run(s);
    }
}

/// A run of digits ends where something else begins.
proof fn lemma_digits_before(d: Seq<char>, rest: Seq<char>)
    requires
        forall|i: int| 0 <= i < d.len() ==> digit(#[trigger] d[i]),
        rest.len() > 0 ==> !digit(rest[0]),
    ensures
        digit_run(d + rest) == d.len(),
    decreases d.len(),
{
    let s = d + rest;
    if d.len() > 0 {
        assert(s[0] == d[0]);
        assert(s.skip(1) =~= d.skip(1) + rest);
        assert forall|i: int| 0 <= i < d.skip(1).len() implies digit(#[trigger] d.skip(1)[i]) by {
            assert(d.skip(1)[i] == d[i + 1]);
        }
        lemma_digits_before(d.skip(1), rest);
    } else {
        assert(s =~= rest);
    }
}

/// Taking out ordinals a second time changes nothing.
pub proof fn law_ordinals_go_at_once(s: Seq<char>)
    ensures
        without_ordinals(without_ordinals(s)) == without_ordinals(s),
    decreases s.len(),
{
    let w = without_ordinals(s);
    if s.len() == 0 {
    } else if !digit(s[0]) {
        law_ordinals_go_at_once(s.skip(1));
        assert(w.skip(1) =~= without_ordinals(s.skip(1)));
    } else {
        lemma_digit_run(s);
        let n = digit_run(s) as int;
        let d = s.take(n);
        let rest = s.skip(n);
        let tail = if suffix_ahead(rest) {
            rest.skip(2)
        } else {
            rest
        };
        let o = without_ordinals(tail);
        law_ordinals_go_at_once(tail);
        lemma_first_is_kept(tail);
        assert(w == d + o);
        lemma_digits_before(d, o);
        assert(w.take(n) =~= d);
        assert(w.skip(n) =~= o);
        assert(w[0] == s[0]);
        if suffix_ahead(o) {
            lemma_suffix_starts(o.take(2));
            assert(o.take(2)[0] == o[0] && o.take(2)[1] == o[1]);
            if !suffix_ahead(rest) {
                assert(o == seq![rest[0]] + without_ordinals(rest.skip(1)));
                lemma_first_is_kept(rest.skip(1));
                assert(o[1] == rest[1]);
                assert(without_ordinals(rest.skip(1)) == seq![rest[1]] + without_ordinals(
                    rest.skip(1).skip(1),
                ));
                assert(rest.skip(1).skip(1) =~= rest.skip(2));
                lemma_first_is_kept(rest.skip(2));
                assert(o.take(2) =~= rest.take(2));
                assert(rest.len() > 2);
                assert(o[2] == rest[2]);
            }
            assert(false);
        }
    }
}

proof fn lemma_digits_stay(d: Seq<char>, s: Seq<char>, cut: Seq<char>, behind: bool)
    requires
        d.len() > 0,
        forall|i: int| 0 <= i < d.len() ==> digit(#[trigger] d[i]),
        ordinals_cut(s, cut, true),
    ensures
        ordinals_cut(d + s, d + cut, behind),
    decreases d.len(),
{
    let e = d.skip(1);
    assert((d + s).skip(1) =~= e + s);
    assert((d + cut).skip(1) =~= e + cut);
    assert((d + s)[0] == d[0] && (d + cut)[0] == d[0]);
    if e.len() > 0 {
        assert forall|i: int| 0 <= i < e.len() implies digit(#[trigger] e[i]) by {
            assert(e[i] == d[i + 1]);
        }
        lemma_digits_stay(e, s, cut, true);
    } else {
        assert(e + s =~= s);
        assert(e + cut =~= cut);
    }
}

/// Nothing is taken out but `st`, `nd`, `rd` and `th`, in either case and right
/// behind a digit.
pub proof fn law_only_ordinals_go(s: Seq<char>, behind: bool)
    ensures
        ordinals_cut(s, without_ordinals(s), behind),
    decreases s.len(),
{
    let w = without_ordinals(s);
    if s.len() == 0 {
    } else if !digit(s[0]) {
        law_only_ordinals_go(s.skip(1), false);
        assert(w.skip(1) =~= without_ordinals(s.skip(1)));
    } else {
        lemma_digit_run(s);
        let n = digit_run(s) as int;
        let d = s.take(n);
        let rest = s.skip(n);
        assert(s =~= d + rest);
        if suffix_ahead(rest) {
            law_only_ordinals_go(rest.skip(2), false);
            lemma_digits_stay(d, rest, without_ordinals(rest.skip(2)), behind);
        } else {
            law_only_ordinals_go(rest, true);
            lemma_digits_stay(d, rest, without_ordinals(rest), behind);
        }
    }
}

/// What stands between two marks is the text between the first of the one and the
/// next of the other.
pub proof fn law_enclosed(
    a: Seq<char>,
    start: Seq<char>,
    text: Seq<char>,
    end: Seq<char>,
    b: Seq<char>,
)
    requires
        apart(start),
        apart(end),
        !contains_text(a, start),
        !contains_text(text, end),
    ensures
        enclosed(a + start + text + end + b, start, end) == Some(text),
{
    assert(a + start + text + end + b =~= a + start + (text + end + b));
    lemma_first_between(a, start, text + end + b);
    lemma_first_between(text, end, b);
}

/// A collection date is at most a week past. It is the date that the words stand
/// for in this year where that is recent enough; otherwise in the next year, and
/// otherwise in the last.
pub proof fn law_collection_dates(text: Seq<char>, today: Date)
    ensures
        collection_date(text, today) matches Some(d) ==> d.number() + 7 >= today.number(),
        forall|d: Date|
            date_read(
                day_words(text) + " "@ + decimal_int(today.year as int),
                "%A, %d %B %Y"@,
            ) == Some(d) && #[trigger] d.number() + 7 >= today.number() ==> collection_date(
                text,
                today,
            ) == Some(d),
        forall|d: Date|
            date_read(
                day_words(text) + " "@ + decimal_int(today.year as int),
                "%A, %d %B %Y"@,
            ) is None && date_read(
                day_words(text) + " "@ + decimal_int(today.year + 1),
                "%A, %d %B %Y"@,
            ) == Some(d) && #[trigger] d.number() + 7 >= today.number() ==> collection_date(
                text,
                today,
            ) == Some(d),
        forall|d: Date|
            date_read(
                day_words(text) + " "@ + decimal_int(today.year as int),
                "%A, %d %B %Y"@,
            ) is None && date_read(
                day_words(text) + " "@ + decimal_int(today.year + 1),
                "%A, %d %B %Y"@,
            ) is None && date_read(
                day_words(text) + " "@ + decimal_int(today.year - 1),
                "%A, %d %B %Y"@,
            ) == Some(d) && #[trigger] d.number() + 7 >= today.number() ==> collection_date(
                text,
                today,
            ) == Some(d),
{
}

/// What is said after the day, from `, at ` on, does not matter.
pub proof fn law_the_time_of_day_is_left_out(text: Seq<char>, time: Seq<char>)
    requires
        !contains_text(without_ordinals(text), ", at "@),
    ensures
        day_words(text + ", at "@ + time) == day_words(text),
{
    reveal_strlit(", at ");
    let t = ", at "@ + time;
    let rest = without_ordinals(t.skip(5));
    assert(text + ", at "@ + time =~= text + t);
    lemma_ordinals_apart(text, t);
    assert(without_ordinals(t) =~= ", at "@ + rest) by {
        assert(t.skip(1).skip(1) =~= t.skip(2));
        assert(t.skip(2).skip(1) =~= t.skip(3));
        assert(t.skip(3).skip(1) =~= t.skip(4));
        assert(t.skip(4).skip(1) =~= t.skip(5));
        assert(t[0] == ',' && t[1] == ' ' && t[2] == 'a' && t[3] == 't' && t[4] == ' ');
        assert(without_ordinals(t.skip(4)) == seq![' '] + rest);
        assert(without_ordinals(t.skip(3)) == seq!['t'] + without_ordinals(t.skip(4)));
        assert(without_ordinals(t.skip(2)) == seq!['a'] + without_ordinals(t.skip(3)));
        assert(without_ordinals(t.skip(1)) == seq![' '] + without_ordinals(t.skip(2)));
        assert(without_ordinals(t) == seq![','] + without_ordinals(t.skip(1)));
    }
    let days = without_ordinals(text);
    assert(days + without_ordinals(t) =~= days + ", at "@ + rest);
    lemma_first_index(days, ", at "@);
    lemma_first_between(days, ", at "@, rest);
}

/// Before a comma a text loses the same ordinals as alone.
proof fn lemma_ordinals_apart(s: Seq<char>, t: Seq<char>)
    requires
        t.len() > 0,
        t[0] == ',',
    ensures
        without_ordinals(s + t) == without_ordinals(s) + without_ordinals(t),
    decreases s.len(),
{
    let all = s + t;
    if s.len() == 0 {
        assert(all =~= t);
        assert(without_ordinals(s) + without_ordinals(t) =~= without_ordinals(t));
    } else if !digit(s[0]) {
        assert(all.skip(1) =~= s.skip(1) + t);
        assert(all[0] == s[0]);
        lemma_ordinals_apart(s.skip(1), t);
        assert(without_ordinals(all) =~= without_ordinals(s) + without_ordinals(t));
    } else {
        lemma_digit_run_apart(s, t);
        let n = digit_run(s) as int;
        let rest = s.skip(n);
        assert(all.skip(n) =~= rest + t);
        assert(all.take(n) =~= s.take(n));
        assert(suffix_ahead(rest + t) == suffix_ahead(rest)) by {
            reveal_strlit("st");
            reveal_strlit("nd");
            reveal_strlit("rd");
            reveal_strlit("th");
            let two = (rest + t).take(2);
            if rest.len() >= 2 {
                assert(two =~= rest.take(2));
            } else if rest.len() + t.len() >= 2 {
                assert(two[rest.len() as int] == ',');
                assert(ascii_lower(two[rest.len() as int]) == ',');
                assert(!is_suffix(two));
            }
        }
        if suffix_ahead(rest) {
            assert((rest + t).skip(2) =~= rest.skip(2) + t);
            lemma_ordinals_apart(rest.skip(2), t);
        } else {
            lemma_ordinals_apart(rest, t);
        }
        assert(without_ordinals(all) =~= without_ordinals(s) + without_ordinals(t));
    }
}

proof fn lemma_digit_run_apart(s: Seq<char>, t: Seq<char>)
    requires
        t.len() > 0,
        t[0] == ',',
    ensures
        digit_run(s + t) == digit_run(s),
        digit_run(s) <= s.len(),
        s.len() > 0 && digit(s[0]) ==> digit_run(s) > 0,
    decreases s.len(),
{
    if s.len() > 0 && digit(s[0]) {
        assert((s + t).skip(1) =~= s.skip(1) + t);
        lemma_digit_run_apart(s.skip(1), t);
    }
}

/// A character reference is decoded: the text around it is decoded as it would be
/// alone.
pub proof fn law_references_are_decoded(name: Seq<char>, c: char, rest: Seq<char>)
    requires
        name == "amp"@ && c == '&' || name == "lt"@ && c == '<' || name == "gt"@ && c == '>'
            || name == "quot"@ && c == '"' || name == "apos"@ && c == '\'' || name == "nbsp"@ && c
            == ' ',
    ensures
        decoded("&"@ + name + ";"@ + rest) == seq![c] + decoded(rest),
{
    reveal_strlit("&");
    reveal_strlit(";");
    reveal_strlit("amp");
    reveal_strlit("lt");
    reveal_strlit("gt");
    reveal_strlit("quot");
    reveal_strlit("apos");
    reveal_strlit("nbsp");
    let head = "&"@ + name;
    let s = "&"@ + name + ";"@ + rest;
    let semi = seq![';'];
    assert(";"@ =~= semi);
    assert(!contains_text(head, semi)) by {
        if contains_text(head, semi) {
            let i = choose|i: int| #[trigger] occurs_at(head, semi, i);
            assert(head.subrange(i, i + 1)[0] == head[i]);
            assert(head[i] == ';');
        }
    }
    lemma_first_between(head, semi, rest);
    let e = head.len() as int;
    assert(s.take(e) =~= head);
    assert(s.subrange(1, e) =~= name);
    lemma_short_bytes(head);
    assert(s.skip(e + 1) =~= rest);
    assert("amp"@.len() == 3 && "lt"@.len() == 2 && "gt"@.len() == 2 && "quot"@.len() == 4
        && "apos"@.len() == 4 && "nbsp"@.len() == 4);
    assert("amp"@[0] == 'a' && "lt"@[0] == 'l' && "gt"@[0] == 'g' && "quot"@[0] == 'q' && "apos"@[0]
        == 'a' && "nbsp"@[0] == 'n');
    assert(entity(name) == Some(c));
    assert(entity_at(s) == Some((c, e + 1)));
}

proof fn lemma_short_bytes(s: Seq<char>)
    requires
        all_ascii(s),
    ensures
        byte_len(s) == s.len(),
    decreases s.len(),
{
    if s.len() > 0 {
        assert forall|i: int| 0 <= i < s.drop_last().len() implies ascii(
            #[trigger] s.drop_last()[i],
        ) by {
            assert(s.drop_last()[i] == s[i]);
        }
        lemma_short_bytes(s.drop_last());
        assert(ascii(s[s.len() - 1]));
    }
}

/// A tag leaves nothing behind: text outside of tags, a tag that holds no bracket,
/// and more text come to the two texts put together.
pub proof fn law_a_tag_leaves_nothing(text: Seq<char>, tag: Seq<char>, rest: Seq<char>)
    requires
        forall|i: int| 0 <= i < text.len() ==> #[trigger] text[i] != '<' && text[i] != '>',
        forall|i: int| 0 <= i < tag.len() ==> #[trigger] tag[i] != '<' && tag[i] != '>',
    ensures
        outside_tags(text + "<"@ + tag + ">"@ + rest, 0) == text + outside_tags(rest, 0),
    decreases text.len() + tag.len(),
{
    reveal_strlit("<");
    reveal_strlit(">");
    let s = text + "<"@ + tag + ">"@ + rest;
    if text.len() > 0 {
        let t = text.skip(1);
        assert(s.skip(1) =~= t + "<"@ + tag + ">"@ + rest);
        assert forall|i: int| 0 <= i < t.len() implies #[trigger] t[i] != '<' && t[i] != '>' by {
            assert(t[i] == text[i + 1]);
        }
        law_a_tag_leaves_nothing(t, tag, rest);
        assert(text =~= seq![text[0]] + t);
        assert(s[0] == text[0]);
        assert(outside_tags(s, 0) =~= text + outside_tags(rest, 0));
    } else {
        assert(s[0] == '<');
        assert(s.skip(1) =~= tag + ">"@ + rest);
        lemma_inside_tag(tag, rest);
        assert(text + outside_tags(rest, 0) =~= outside_tags(rest, 0));
    }
}

proof fn lemma_inside_tag(tag: Seq<char>, rest: Seq<char>)
    requires
        forall|i: int| 0 <= i < tag.len() ==> #[trigger] tag[i] != '<' && tag[i] != '>',
    ensures
        outside_tags(tag + ">"@ + rest, 1) == outside_tags(rest, 0),
    decreases tag.len(),
{
    reveal_strlit(">");
    let s = tag + ">"@ + rest;
    if tag.len() > 0 {
        let t = tag.skip(1);
        assert(s.skip(1) =~= t + ">"@ + rest);
        assert(s[0] == tag[0]);
        assert forall|i: int| 0 <= i < t.len() implies #[trigger] t[i] != '<' && t[i] != '>' by {
            assert(t[i] == tag[i + 1]);
        }
        lemma_inside_tag(t, rest);
    } else {
        assert(s[0] == '>');
        assert(s.skip(1) =~= rest);
    }
}

/// A character can be given by its number, in decimal or, after an `x`, in
/// hexadecimal digits.
pub proof fn law_numbered_references_are_decoded(n: nat, a: char, b: char, rest: Seq<char>)
    requires
        0 < n < 0xd800,
        digit_value(a) < 16,
        digit_value(b) < 16,
        16 * digit_value(a) + digit_value(b) == n % 256,
    ensures
        decoded("&#"@ + decimal(n) + ";"@ + rest) == seq![(n as int) as char] + decoded(rest),
        decoded("&#x"@ + seq![a, b] + ";"@ + rest) == seq![((n % 256) as int) as char] + decoded(rest),
{
    reveal_strlit("&#");
    reveal_strlit("&#x");
    reveal_strlit(";");
    reveal_strlit("amp");
    reveal_strlit("lt");
    reveal_strlit("gt");
    reveal_strlit("quot");
    reveal_strlit("apos");
    reveal_strlit("nbsp");
    law_decimal_reads_back(n, 0xffff_ffff);
    lemma_decimal(n);
    let d = decimal(n);
    assert(d.len() <= 5) by {
        reveal_with_fuel(decimal, 6);
    }
    let name = seq!['#'] + d;
    assert(name.skip(1) =~= d);
    assert(name[0] == '#');
    assert(digit(d[0]));
    assert("&#"@ + d =~= seq!['&'] + name);
    assert(reference_number(name) == Some(n as int));
    assert forall|i: int| 0 <= i < name.len() implies ascii(#[trigger] name[i]) && name[i] != ';' by {
        if i > 0 {
            assert(digit(d[i - 1]));
        }
    }
    lemma_reference(name, (n as int) as char, rest);
    assert("&#"@ + d + ";"@ + rest =~= seq!['&'] + name + seq![';'] + rest);
    let h = seq![a, b];
    let hex = seq!['#', 'x'] + h;
    assert(hex.skip(2) =~= h);
    assert("&#x"@ + h =~= seq!['&'] + hex);
    assert(h.drop_last() =~= seq![a]);
    assert(seq![a].drop_last() =~= Seq::<char>::empty());
    reveal_with_fuel(number, 3);
    assert(number(h, 16) == 16 * digit_value(a) + digit_value(b));
    assert(all_digits(h, 16)) by {
        assert forall|i: int| 0 <= i < h.len() implies digit_value(#[trigger] h[i]) < 16 by {
            assert(i == 0 || i == 1);
        }
    }
    assert(h[0] == a);
    assert(reference_number(hex) == Some((n % 256) as int));
    assert forall|i: int| 0 <= i < hex.len() implies ascii(#[trigger] hex[i]) && hex[i] != ';' by {
        assert(i == 0 || i == 1 || i == 2 || i == 3);
    }
    lemma_reference(hex, ((n % 256) as int) as char, rest);
    assert("&#x"@ + h + ";"@ + rest =~= seq!['&'] + hex + seq![';'] + rest);
}

proof fn lemma_reference(name: Seq<char>, c: char, rest: Seq<char>)
    requires
        0 < name.len() <= 9,
        forall|i: int| 0 <= i < name.len() ==> ascii(#[trigger] name[i]) && name[i] != ';',
        entity(name) == Some(c),
    ensures
        decoded(seq!['&'] + name + seq![';'] + rest) == seq![c] + decoded(rest),
{
    let head = seq!['&'] + name;
    let semi = seq![';'];
    let s = head + semi + rest;
    assert forall|i: int| 0 <= i < head.len() implies ascii(#[trigger] head[i]) && head[i] != ';' by {
        if i > 0 {
            assert(head[i] == name[i - 1]);
        }
    }
    assert(!contains_text(head, semi)) by {
        if contains_text(head, semi) {
            let i = choose|i: int| #[trigger] occurs_at(head, semi, i);
            assert(head.subrange(i, i + 1)[0] == head[i]);
            assert(head[i] == ';');
        }
    }
    lemma_first_between(head, semi, rest);
    let e = head.len() as int;
    assert(s.take(e) =~= head);
    assert(s.subrange(1, e) =~= name);
    lemma_short_bytes(head);
    assert(s.skip(e + 1) =~= rest);
    assert(s[0] == '&');
    assert(entity_at(s) == Some((c, e + 1)));
}

/// The words of a day do not end in a comma.
pub proof fn law_commas_behind_the_day(text: Seq<char>)
    ensures
        !ends_with(day_words(text), ","@),
{
    reveal_strlit(",");
    law_stripped_end(trimmed(before(without_ordinals(text), ", at "@)), ","@);
}

// --- Functions ----------------------------------------------------------------

/// The character that an entity name stands for.
fn entity_char(name: &[char]) -> (r: Option<char>)
    ensures
        r == entity(name@),
{
    let text: String = string_of(name);
    if same_str(text.as_str(), "amp") {
        return Some('&');
    }
    if same_str(text.as_str(), "lt") {
        return Some('<');
    }
    if same_str(text.as_str(), "gt") {
        return Some('>');
    }
    if same_str(text.as_str(), "quot") {
        return Some('"');
    }
    if same_str(text.as_str(), "apos") {
        return Some('\'');
    }
    if same_str(text.as_str(), "nbsp") {
        return Some(' ');
    }
    if name.len() == 0 || name[0] != '#' {
        return None;
    }
    let n: Option<u64> = if name.len() > 1 && (name[1] == 'x' || name[1] == 'X') {
        assert(name@.subrange(2, name@.len() as int) =~= name@.skip(2));
        parse_unsigned(&name[2..name.len()], 16, 0xffff_ffff)
    } else {
        assert(name@.subrange(1, name@.len() as int) =~= name@.skip(1));
        parse_unsigned(&name[1..name.len()], 10, 0xffff_ffff)
    };
    match n {
        Some(v) => char::from_u32(v as u32),
        None => None,
    }
}

/// Whether a text takes at most `max` bytes in UTF-8.
fn fits_bytes(s: &[char], max: usize) -> (r: bool)
    requires
        max < 1000,
    ensures
        r == (byte_len(s@) <= max),
{
    let mut used: usize = 0;
    let mut i: usize = 0;
    assert(s@.take(0) =~= Seq::<char>::empty());
    while i < s.len()
        invariant
            i <= s@.len(),
            used <= max < 1000,
            used == byte_len(s@.take(i as int)),
        decreases s@.len() - i,
    {
        let c: char = s[i];
        let width: usize = if c <= '\u{7f}' {
            1
        } else if c <= '\u{7ff}' {
            2
        } else if c <= '\u{ffff}' {
            3
        } else {
            4
        };
        proof {
            assert(s@.take(i + 1).drop_last() =~= s@.take(i as int));
            assert(s@.take(i + 1).last() == c);
            lemma_byte_len_grows(s@, i + 1);
        }
        used = used + width;
        if used > max {
            return false;
        }
        i = i + 1;
    }
    assert(s@.take(i as int) =~= s@);
    true
}

proof fn lemma_byte_len_grows(s: Seq<char>, n: int)
    requires
        0 <= n <= s.len(),
    ensures
        byte_len(s.take(n)) <= byte_len(s),
    decreases s.len(),
{
    if n == s.len() {
        assert(s.take(n) =~= s);
    } else {
        lemma_byte_len_grows(s.drop_last(), n);
        assert(s.drop_last().take(n) =~= s.take(n));
    }
}

/// The entity at the start of a text that begins with `&`.
fn find_entity(s: &[char]) -> (r: Option<(char, usize)>)
    requires
        s@.len() > 0,
        s@[0] == '&',
    ensures
        match r {
            Some((c, n)) => entity_at(s@) == Some((c, n as int)) && 1 <= n <= s@.len(),
            None => entity_at(s@) is None,
        },
{
    match find_char(s, ';') {
        None => None,
        Some(e) => {
            assert(s@.subrange(0, e as int) =~= s@.take(e as int));
            if !fits_bytes(&s[0..e], 10) {
                return None;
            }
            match entity_char(&s[1..e]) {
                Some(c) => Some((c, e + 1)),
                None => None,
            }
        },
    }
}

fn decode(s: &[char]) -> (r: Vec<char>)
    ensures
        r@ == decoded(s@),
{
    let mut out: Vec<char> = Vec::new();
    let mut i: usize = 0;
    assert(s@.skip(0) =~= s@);
    assert(out@ + decoded(s@) =~= decoded(s@));
    while i < s.len()
        invariant
            i <= s@.len(),
            out@ + decoded(s@.skip(i as int)) == decoded(s@),
        decreases s@.len() - i,
    {
        let ghost rest = s@.skip(i as int);
        let ghost sofar = out@;
        assert(rest[0] == s@[i as int]);
        if s[i] != '&' {
            out.push(s[i]);
            proof {
                assert(rest.skip(1) =~= s@.skip(i + 1));
                assert(sofar + (seq![rest[0]] + decoded(rest.skip(1))) =~= out@ + decoded(
                    rest.skip(1),
                ));
            }
            i = i + 1;
        } else {
            let tail: &[char] = &s[i..s.len()];
            assert(tail@ =~= rest);
            match find_entity(tail) {
                Some((c, n)) => {
                    out.push(c);
                    proof {
                        assert(rest.skip(n as int) =~= s@.skip(i + n));
                        assert(sofar + (seq![c] + decoded(rest.skip(n as int))) =~= out@ + decoded(
                            rest.skip(n as int),
                        ));
                    }
                    i = i + n;
                },
                None => {
                    out.push('&');
                    proof {
                        assert(rest.skip(1) =~= s@.skip(i + 1));
                        assert(sofar + (seq!['&'] + decoded(rest.skip(1))) =~= out@ + decoded(
                            rest.skip(1),
                        ));
                    }
                    i = i + 1;
                },
            }
        }
    }
    assert(s@.skip(i as int) =~= Seq::<char>::empty());
    assert(out@ + Seq::<char>::empty() =~= out@);
    out
}

/// Decodes the handful of HTML entities that turn up in service names
/// (`Cans, Plastics &amp; Glass`), and numeric character references.
pub fn decode_entities(s: &str) -> (r: String)
    ensures
        r@ == decoded(s@),
{
    let v: Vec<char> = chars_of(s);
    string_of(decode(v.as_slice()).as_slice())
}

/// Collapses runs of white space to single spaces, with none at either end.
pub fn collapse_ws(s: &str) -> (r: String)
    ensures
        r@ == collapsed(s@),
{
    let v: Vec<char> = chars_of(s);
    string_of(collapse(v.as_slice()).as_slice())
}

fn drop_tags(s: &[char]) -> (r: Vec<char>)
    ensures
        r@ == outside_tags(s@, 0),
{
    let mut out: Vec<char> = Vec::new();
    let mut depth: usize = 0;
    let mut i: usize = 0;
    assert(s@.skip(0) =~= s@);
    assert(out@ + outside_tags(s@, 0) =~= outside_tags(s@, 0));
    while i < s.len()
        invariant
            i <= s@.len(),
            depth <= i,
            out@ + outside_tags(s@.skip(i as int), depth as nat) == outside_tags(s@, 0),
        decreases s@.len() - i,
    {
        let ghost rest = s@.skip(i as int);
        let ghost sofar = out@;
        let c: char = s[i];
        assert(rest[0] == c);
        assert(rest.skip(1) =~= s@.skip(i + 1));
        if c == '<' {
            depth = depth + 1;
        } else if c == '>' {
            depth = if depth > 0 {
                depth - 1
            } else {
                0
            };
        } else if depth == 0 {
            out.push(c);
            proof {
                let t = outside_tags(rest.skip(1), 0);
                assert(sofar + (seq![c] + t) =~= out@ + t);
            }
        }
        i = i + 1;
    }
    assert(s@.skip(i as int) =~= Seq::<char>::empty());
    assert(out@ + Seq::<char>::empty() =~= out@);
    out
}

/// Drops HTML tags, decodes entities and collapses the remaining white space.
pub fn strip_tags(html: &str) -> (r: String)
    ensures
        r@ == tagless(html@),
{
    let v: Vec<char> = chars_of(html);
    string_of(collapse(decode(drop_tags(v.as_slice()).as_slice()).as_slice()).as_slice())
}

fn has_suffix_ahead(s: &[char]) -> (r: bool)
    ensures
        r == suffix_ahead(s@),
{
    if s.len() < 2 || (s.len() > 2 && s[2].is_alphanumeric()) {
        return false;
    }
    let suffix: String = string_of(&s[0..2]);
    assert(suffix@ =~= s@.take(2));
    eq_ignoring_case(suffix.as_str(), "st") || eq_ignoring_case(suffix.as_str(), "nd")
        || eq_ignoring_case(suffix.as_str(), "rd") || eq_ignoring_case(suffix.as_str(), "th")
}

/// Removes the ordinal suffix from every number: `13th August` becomes
/// `13 August`.
pub fn strip_ordinals(text: &str) -> (r: String)
    ensures
        r@ == without_ordinals(text@),
{
    let s: Vec<char> = chars_of(text);
    let mut out: Vec<char> = Vec::new();
    let mut i: usize = 0;
    assert(s@.skip(0) =~= s@);
    assert(out@ + without_ordinals(s@) =~= without_ordinals(s@));
    while i < s.len()
        invariant
            i <= s@.len(),
            out@ + without_ordinals(s@.skip(i as int)) == without_ordinals(s@),
        decreases s@.len() - i,
    {
        let ghost rest = s@.skip(i as int);
        let ghost sofar = out@;
        assert(rest[0] == s@[i as int]);
        if s[i] >= '0' && s[i] <= '9' {
            let mut to: usize = i;
            while to < s.len() && s[to] >= '0' && s[to] <= '9'
                invariant
                    i <= to <= s@.len(),
                    rest == s@.skip(i as int),
                    digit_run(rest) == (to - i) + digit_run(s@.skip(to as int)),
                decreases s@.len() - to,
            {
                assert(s@.skip(to as int)[0] == s@[to as int]);
                assert(s@.skip(to as int).skip(1) =~= s@.skip(to + 1));
                to = to + 1;
            }
            proof {
                if to < s@.len() {
                    assert(s@.skip(to as int)[0] == s@[to as int]);
                }
                assert(digit_run(rest) == to - i);
                lemma_digit_run(rest);
            }
            push_all(&mut out, &s.as_slice()[i..to]);
            let tail: &[char] = &s.as_slice()[to..s.len()];
            proof {
                assert(s@.subrange(i as int, to as int) =~= rest.take(to - i));
                assert(tail@ =~= rest.skip(to - i));
                assert(tail@ =~= s@.skip(to as int));
                let t1 = without_ordinals(tail@.skip(2));
                let t2 = without_ordinals(tail@);
                assert(sofar + (rest.take(to - i) + t1) =~= out@ + t1);
                assert(sofar + (rest.take(to - i) + t2) =~= out@ + t2);
            }
            if has_suffix_ahead(tail) {
                assert(tail@.skip(2) =~= s@.skip(to + 2));
                i = to + 2;
            } else {
                i = to;
            }
        } else {
            out.push(s[i]);
            proof {
                assert(rest.skip(1) =~= s@.skip(i + 1));
                let t = without_ordinals(rest.skip(1));
                assert(sofar + (seq![rest[0]] + t) =~= out@ + t);
            }
            i = i + 1;
        }
    }
    assert(s@.skip(i as int) =~= Seq::<char>::empty());
    assert(out@ + Seq::<char>::empty() =~= out@);
    string_of(out.as_slice())
}

/// What stands in `hay` after the first `start` and before the next `end`.
pub fn between<'a>(hay: &'a str, start: &str, end: &str) -> (r: Option<&'a str>)
    ensures
        match r {
            Some(s) => enclosed(hay@, start@, end@) == Some(s@),
            None => enclosed(hay@, start@, end@) is None,
        },
{
    let h: Vec<char> = chars_of(hay);
    let a: Vec<char> = chars_of(start);
    let b: Vec<char> = chars_of(end);
    match find(h.as_slice(), a.as_slice()) {
        None => None,
        Some(i) => {
            let from: usize = i + a.len();
            let rest: &[char] = &h.as_slice()[from..h.len()];
            assert(rest@ =~= after(hay@, i as int, start@));
            match find(rest, b.as_slice()) {
                None => None,
                Some(j) => {
                    assert(hay@.subrange(from as int, from + j) =~= rest@.take(j as int));
                    Some(hay.substring_char(from, from + j))
                },
            }
        },
    }
}

/// The date that `words` stand for in the given year, unless that is more than
/// a week before `today`.
fn date_in_year(words: &[char], year: i64, today: Date) -> (r: Option<Date>)
    requires
        today.wf(),
        MIN_YEAR - 1 <= year <= MAX_YEAR + 1,
    ensures
        r == in_year(words@, year as int, today),
        r matches Some(d) ==> d.wf() && d.number() >= today.number() - 7 && d.year == year,
        forall|w: int, d: Date|
            0 <= w < 7 && 0 <= d.year <= 9999 && d.year == year && 1 <= d.month <= 12 && 1 <= d.day
                <= 31 && words@ + " "@ + decimal_int(year as int) == #[trigger] dated_text(w, d)
                ==> r == (if d.wf() && w == d.weekday() && d.number() >= today.number() - 7 {
                Some(d)
            } else {
                None
            }),
{
    let mut text: Vec<char> = Vec::new();
    push_all(&mut text, words);
    text.push(' ');
    push_decimal_int(&mut text, year);
    proof {
        reveal_strlit(" ");
        assert(text@ =~= words@ + " "@ + decimal_int(year as int));
    }
    let s: String = string_of(text.as_slice());
    match parse_date_by(s.as_str(), "%A, %d %B %Y") {
        Some(d) => {
            let recent: bool = match minus_days(today, 7) {
                Some(limit) => {
                    proof {
                        crate::date::lemma_date_order(d, limit);
                    }
                    !is_earlier(d, limit)
                },
                None => {
                    proof {
                        crate::date::lemma_date_range(d);
                    }
                    true
                },
            };
            if recent {
                Some(d)
            } else {
                None
            }
        },
        None => None,
    }
}

/// Reads a council's date such as `Thursday, 13th August`.
///
/// The year is missing, so the years around `today` are tried and the first one
/// is kept in which the words are a date that is not more than a week past.
/// Words whose weekday disagrees with the date are no date, so a wrong year is
/// caught: words in the usual form give the one date among those three years
/// that has their weekday, and nothing when there is none.
pub fn parse_collection_date(text: &str, today: Date) -> (r: Option<Date>)
    requires
        today.wf(),
    ensures
        r == collection_date(text@, today),
        r matches Some(d) ==> d.wf() && d.number() >= today.number() - 7 && today.year - 1 <= d.year
            <= today.year + 1,
        forall|w: int, d: Date|
            0 <= w < 7 && 1 <= today.year <= 9998 && today.year - 1 <= d.year <= today.year + 1
                && d.wf() && day_words(text@) == #[trigger] council_words(
                w,
                d.month as int,
                d.day as nat,
            ) ==> (r == Some(d) <==> w == d.weekday() && d.number() >= today.number() - 7),
        forall|w: int, month: int, day: nat|
            0 <= w < 7 && 1 <= today.year <= 9998 && 1 <= month <= 12 && 1 <= day <= 31
                && day_words(text@) == #[trigger] council_words(w, month, day) ==> (r matches Some(
                d,
            ) ==> d.month == month && d.day == day && d.weekday() == w),
{
    let stripped: String = strip_ordinals(text);
    let s: Vec<char> = chars_of(stripped.as_str());
    let at: Vec<char> = chars_of(", at ");
    let comma: Vec<char> = chars_of(",");
    proof {
        reveal_strlit(",");
    }
    let words: &[char] = strip_end(trim(before_first(s.as_slice(), at.as_slice())), comma.as_slice());
    let year: i64 = today.year as i64;
    let first: Option<Date> = date_in_year(words, year, today);
    let second: Option<Date> = date_in_year(words, year + 1, today);
    let third: Option<Date> = date_in_year(words, year - 1, today);
    let r: Option<Date> = if first.is_some() {
        first
    } else if second.is_some() {
        second
    } else {
        third
    };
    proof {
        assert forall|w: int, d: Date|
            0 <= w < 7 && 1 <= today.year <= 9998 && today.year - 1 <= d.year <= today.year + 1
                && d.wf() && words@ == #[trigger] council_words(
                w,
                d.month as int,
                d.day as nat,
            ) implies (r == Some(d) <==> w == d.weekday() && d.number() >= today.number() - 7) by {
            let a = Date { year: today.year, month: d.month, day: d.day };
            let b = Date { year: (today.year + 1) as i32, month: d.month, day: d.day };
            let c = Date { year: (today.year - 1) as i32, month: d.month, day: d.day };
            assert(words@ + " "@ + decimal_int(today.year as int) =~= dated_text(w, a));
            assert(words@ + " "@ + decimal_int(today.year + 1) =~= dated_text(w, b));
            assert(words@ + " "@ + decimal_int(today.year - 1) =~= dated_text(w, c));
            assert(d == a || d == b || d == c);
            if a.wf() && b.wf() {
                lemma_weekday_shifts(a, b);
            }
            if c.wf() && a.wf() {
                lemma_weekday_shifts(c, a);
            }
            if c.wf() && b.wf() {
                lemma_weekday_shifts(c, b);
            }
        }
        assert forall|w: int, month: int, day: nat|
            0 <= w < 7 && 1 <= today.year <= 9998 && 1 <= month <= 12 && 1 <= day <= 31 && words@
                == #[trigger] council_words(w, month, day) implies (r matches Some(d) ==> d.month
            == month && d.day == day && d.weekday() == w) by {
            let a = Date { year: today.year, month: month as u32, day: day as u32 };
            let b = Date { year: (today.year + 1) as i32, month: month as u32, day: day as u32 };
            let c = Date { year: (today.year - 1) as i32, month: month as u32, day: day as u32 };
            assert(words@ + " "@ + decimal_int(today.year as int) =~= dated_text(w, a));
            assert(words@ + " "@ + decimal_int(today.year + 1) =~= dated_text(w, b));
            assert(words@ + " "@ + decimal_int(today.year - 1) =~= dated_text(w, c));
        }
    }
    r
}

} // verus!
