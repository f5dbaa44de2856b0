//! Text as sequences of characters: what it means to trim, search, split,
//! replace, pad and number text, and functions that do it.
//!
//! The executable functions work on slices of characters; [`chars_of`] and
//! [`string_of`] go between those and strings.

use vstd::prelude::*;

verus! {

/// `String::push` appends the character to the end of the string.
pub assume_specification[ String::push ](s: &mut String, c: char)
    ensures
        final(s)@ == old(s)@.push(c),
;

/// Whether `char::is_alphanumeric` holds of a character: whether Unicode counts
/// it as alphabetic or numeric.
pub uninterp spec fn alphanumeric(c: char) -> bool;

/// `char::is_alphanumeric`. Of the ASCII characters it holds of the letters and
/// the digits.
pub assume_specification[ char::is_alphanumeric ](c: char) -> (b: bool)
    ensures
        b == alphanumeric(c),
        ascii(c) ==> b == (digit(c) || 'a' <= c <= 'z' || 'A' <= c <= 'Z'),
;

/// The lowercase form of a text, as `str::to_lowercase` gives it.
pub uninterp spec fn lowercase(s: Seq<char>) -> Seq<char>;

/// `str::to_lowercase`. No capital letter of ASCII is left. A text of ASCII
/// characters keeps its length, and each letter becomes the small one.
pub assume_specification[ str::to_lowercase ](s: &str) -> (r: String)
    ensures
        r@ == lowercase(s@),
        forall|i: int| 0 <= i < r@.len() ==> !capital(#[trigger] r@[i]),
        all_ascii(s@) ==> r@ == s@.map_values(|c: char| ascii_lower(c)),
;

/// The uppercase form of a text, as `str::to_uppercase` gives it.
pub uninterp spec fn uppercase(s: Seq<char>) -> Seq<char>;

/// `str::to_uppercase`. A text of ASCII characters keeps its length, and each
/// letter becomes the capital one.
pub assume_specification[ str::to_uppercase ](s: &str) -> (r: String)
    ensures
        r@ == uppercase(s@),
        all_ascii(s@) ==> r@ == s@.map_values(|c: char| ascii_upper(c)),
;

/// `char::from_u32`: the character with the given number, for the numbers of
/// Unicode scalar values.
pub assume_specification[ char::from_u32 ](n: u32) -> (r: Option<char>)
    ensures
        r == scalar(n as int),
;

// --- Models ------------------------------------------------------------------

/// Characters with Unicode's `White_Space` property.
pub open spec fn white(c: char) -> bool {
    ||| '\u{9}' <= c <= '\u{d}'
    ||| c == ' '
    ||| c == '\u{85}'
    ||| c == '\u{a0}'
    ||| c == '\u{1680}'
    ||| '\u{2000}' <= c <= '\u{200a}'
    ||| c == '\u{2028}'
    ||| c == '\u{2029}'
    ||| c == '\u{202f}'
    ||| c == '\u{205f}'
    ||| c == '\u{3000}'
}

/// The decimal digits `0` to `9`.
pub open spec fn digit(c: char) -> bool {
    '0' <= c <= '9'
}

/// The 128 ASCII characters.
pub open spec fn ascii(c: char) -> bool {
    c <= '\u{7f}'
}

/// Every character of a text is an ASCII character.
pub open spec fn all_ascii(s: Seq<char>) -> bool {
    forall|i: int| 0 <= i < s.len() ==> ascii(#[trigger] s[i])
}

/// The capital letters of ASCII.
pub open spec fn capital(c: char) -> bool {
    'A' <= c <= 'Z'
}

/// The letters and digits of ASCII, and what Unicode counts as alphabetic or
/// numeric beyond it.
pub open spec fn word_char(c: char) -> bool {
    if ascii(c) {
        digit(c) || 'a' <= c <= 'z' || capital(c)
    } else {
        alphanumeric(c)
    }
}

/// The lowercase form of a text: letter by letter in ASCII, and as Unicode has it
/// beyond.
pub open spec fn lowered(s: Seq<char>) -> Seq<char> {
    if all_ascii(s) {
        s.map_values(|c: char| ascii_lower(c))
    } else {
        lowercase(s)
    }
}

/// The uppercase form of a text: letter by letter in ASCII, and as Unicode has it
/// beyond.
pub open spec fn raised(s: Seq<char>) -> Seq<char> {
    if all_ascii(s) {
        s.map_values(|c: char| ascii_upper(c))
    } else {
        uppercase(s)
    }
}

/// The character with the given number, if there is one.
pub open spec fn scalar(n: int) -> Option<char> {
    if 0 <= n < 0xd800 || 0xe000 <= n < 0x110000 {
        Some(n as char)
    } else {
        None
    }
}

/// The ASCII lowercase form of an ASCII letter; any other character itself.
pub open spec fn ascii_lower(c: char) -> char {
    if 'A' <= c <= 'Z' {
        ((c as u32) + 32) as char
    } else {
        c
    }
}

/// The ASCII uppercase form of an ASCII letter; any other character itself.
pub open spec fn ascii_upper(c: char) -> char {
    if 'a' <= c <= 'z' {
        ((c as u32) - 32) as char
    } else {
        c
    }
}

/// Two texts are equal up to the case of ASCII letters.
pub open spec fn same_ignoring_case(a: Seq<char>, b: Seq<char>) -> bool {
    &&& a.len() == b.len()
    &&& forall|i: int| 0 <= i < a.len() ==> ascii_lower(#[trigger] a[i]) == ascii_lower(b[i])
}

/// Bytes that a character takes in UTF-8.
pub open spec fn utf8_len(c: char) -> nat {
    if c <= '\u{7f}' {
        1
    } else if c <= '\u{7ff}' {
        2
    } else if c <= '\u{ffff}' {
        3
    } else {
        4
    }
}

/// Bytes that a text takes in UTF-8.
pub open spec fn byte_len(s: Seq<char>) -> nat
    decreases s.len(),
{
    if s.len() == 0 {
        0
    } else {
        byte_len(s.drop_last()) + utf8_len(s.last())
    }
}

/// `s` without its leading white space.
pub open spec fn trimmed_start(s: Seq<char>) -> Seq<char>
    decreases s.len(),
{
    if s.len() > 0 && white(s[0]) {
        trimmed_start(s.skip(1))
    } else {
        s
    }
}

/// `s` without its trailing white space.
pub open spec fn trimmed_end(s: Seq<char>) -> Seq<char>
    decreases s.len(),
{
    if s.len() > 0 && white(s.last()) {
        trimmed_end(s.drop_last())
    } else {
        s
    }
}

/// `s` without white space at either end.
pub open spec fn trimmed(s: Seq<char>) -> Seq<char> {
    trimmed_end(trimmed_start(s))
}

/// `pat` stands in `hay` at index `i`.
pub open spec fn occurs_at(hay: Seq<char>, pat: Seq<char>, i: int) -> bool {
    &&& 0 <= i
    &&& i + pat.len() <= hay.len()
    &&& hay.subrange(i, i + pat.len()) == pat
}

/// `pat` stands somewhere in `hay`.
pub open spec fn contains_text(hay: Seq<char>, pat: Seq<char>) -> bool {
    exists|i: int| #[trigger] occurs_at(hay, pat, i)
}

/// `hay` begins with `pat`.
pub open spec fn begins_with(hay: Seq<char>, pat: Seq<char>) -> bool {
    occurs_at(hay, pat, 0)
}

/// `hay` ends with `pat`.
pub open spec fn ends_with(hay: Seq<char>, pat: Seq<char>) -> bool {
    occurs_at(hay, pat, hay.len() - pat.len())
}

/// The first index from `from` on at which `pat` stands in `hay`.
pub open spec fn index_from(hay: Seq<char>, pat: Seq<char>, from: int) -> Option<int>
    decreases hay.len() + 1 - from,
{
    if from + pat.len() > hay.len() {
        None
    } else if occurs_at(hay, pat, from) {
        Some(from)
    } else {
        index_from(hay, pat, from + 1)
    }
}

/// The first index at which `pat` stands in `hay`.
pub open spec fn first_index(hay: Seq<char>, pat: Seq<char>) -> Option<int> {
    index_from(hay, pat, 0)
}

/// What follows the first `n` characters and the pattern after them.
pub open spec fn after(hay: Seq<char>, n: int, pat: Seq<char>) -> Seq<char> {
    hay.skip(n + pat.len())
}

/// `hay` cut at every occurrence of `pat`, searched left to right without
/// overlaps; the occurrences themselves are left out.
pub open spec fn pieces(hay: Seq<char>, pat: Seq<char>) -> Seq<Seq<char>>
    decreases hay.len(),
    when pat.len() > 0
    via pieces_decreases
{
    match first_index(hay, pat) {
        None => seq![hay],
        Some(i) => seq![hay.take(i)] + pieces(after(hay, i, pat), pat),
    }
}

#[via_fn]
proof fn pieces_decreases(hay: Seq<char>, pat: Seq<char>) {
    lemma_first_index(hay, pat);
}

/// A line without the carriage return before its line feed.
pub open spec fn without_return(line: Seq<char>) -> Seq<char> {
    if line.len() > 0 && line.last() == '\r' {
        line.drop_last()
    } else {
        line
    }
}

/// The lines of a text. Each ends at a line feed, with or without a carriage
/// return before it, or at the end of the text; there is no empty line after the
/// last line feed.
pub open spec fn lines(s: Seq<char>) -> Seq<Seq<char>>
    decreases s.len(),
    via lines_decreases
{
    if s.len() == 0 {
        Seq::empty()
    } else {
        match first_index(s, seq!['\n']) {
            None => seq![s],
            Some(i) => seq![without_return(s.take(i))] + lines(s.skip(i + 1)),
        }
    }
}

#[via_fn]
proof fn lines_decreases(s: Seq<char>) {
    lemma_first_index(s, seq!['\n']);
}

/// What stands before the first occurrence of `pat`; all of `hay` when there is
/// none.
pub open spec fn before(hay: Seq<char>, pat: Seq<char>) -> Seq<char> {
    match first_index(hay, pat) {
        None => hay,
        Some(i) => hay.take(i),
    }
}

/// `s` without the copies of `pat` that it begins with.
pub open spec fn stripped_start(s: Seq<char>, pat: Seq<char>) -> Seq<char>
    decreases s.len(),
{
    if pat.len() > 0 && begins_with(s, pat) {
        stripped_start(s.skip(pat.len() as int), pat)
    } else {
        s
    }
}

/// `s` without the copies of `pat` that it ends with.
pub open spec fn stripped_end(s: Seq<char>, pat: Seq<char>) -> Seq<char>
    decreases s.len(),
{
    if pat.len() > 0 && ends_with(s, pat) {
        stripped_end(s.take(s.len() - pat.len()), pat)
    } else {
        s
    }
}

/// The texts of `parts` one after the other with `sep` between neighbours.
pub open spec fn joined(parts: Seq<Seq<char>>, sep: Seq<char>) -> Seq<char>
    decreases parts.len(),
{
    if parts.len() == 0 {
        Seq::empty()
    } else if parts.len() == 1 {
        parts[0]
    } else {
        joined(parts.drop_last(), sep) + sep + parts.last()
    }
}

/// `hay` with every occurrence of `pat` replaced by `with`.
pub open spec fn replaced(hay: Seq<char>, pat: Seq<char>, with: Seq<char>) -> Seq<char> {
    joined(pieces(hay, pat), with)
}

/// How many characters stand before the first white space.
pub open spec fn word_len(s: Seq<char>) -> nat
    decreases s.len(),
{
    if s.len() > 0 && !white(s[0]) {
        1 + word_len(s.skip(1))
    } else {
        0
    }
}

/// The words of `s`: its longest stretches without white space.
pub open spec fn words(s: Seq<char>) -> Seq<Seq<char>>
    decreases s.len(),
    via words_decreases
{
    if s.len() == 0 {
        Seq::empty()
    } else if white(s[0]) {
        words(s.skip(1))
    } else {
        seq![s.take(word_len(s) as int)] + words(s.skip(word_len(s) as int))
    }
}

#[via_fn]
proof fn words_decreases(s: Seq<char>) {
    lemma_word_len(s);
}

/// The words of `s` with one space between neighbours.
pub open spec fn collapsed(s: Seq<char>) -> Seq<char> {
    joined(words(s), " "@)
}

/// `n` spaces.
pub open spec fn spaces(n: nat) -> Seq<char> {
    Seq::new(n, |i: int| ' ')
}

/// `s` followed by the spaces that bring it to `width` characters.
pub open spec fn padded_right(s: Seq<char>, width: int) -> Seq<char> {
    if s.len() >= width {
        s
    } else {
        s + spaces((width - s.len()) as nat)
    }
}

/// `s` after the spaces that bring it to `width` characters.
pub open spec fn padded_left(s: Seq<char>, width: int) -> Seq<char> {
    if s.len() >= width {
        s
    } else {
        spaces((width - s.len()) as nat) + s
    }
}

/// `s` when it has at most `max` characters; otherwise its first `max - 1`
/// characters (none when `max` is zero) and an ellipsis.
pub open spec fn truncated(s: Seq<char>, max: int) -> Seq<char> {
    if s.len() <= max {
        s
    } else {
        s.take(if max >= 1 {
            max - 1
        } else {
            0
        }).push('\u{2026}')
    }
}

/// The character of a decimal digit.
pub open spec fn digit_char(d: int) -> char {
    (d + 48) as char
}

/// The decimal digits of `n`, without leading zeros.
pub open spec fn decimal(n: nat) -> Seq<char>
    decreases n,
{
    if n < 10 {
        seq![digit_char(n as int)]
    } else {
        decimal(n / 10).push(digit_char((n % 10) as int))
    }
}

/// The decimal form of an integer, with a minus sign when it is negative.
pub open spec fn decimal_int(n: int) -> Seq<char> {
    if n < 0 {
        seq!['-'] + decimal((-n) as nat)
    } else {
        decimal(n as nat)
    }
}

/// A number below one hundred as two digits.
pub open spec fn two_digits(n: int) -> Seq<char> {
    seq![digit_char(n / 10), digit_char(n % 10)]
}

/// The value of a digit in bases up to sixteen.
pub open spec fn digit_value(c: char) -> int {
    if '0' <= c <= '9' {
        c as int - 48
    } else if 'a' <= c <= 'f' {
        c as int - 87
    } else if 'A' <= c <= 'F' {
        c as int - 55
    } else {
        99
    }
}

/// Every character of `s` is a digit in the given base.
pub open spec fn all_digits(s: Seq<char>, base: int) -> bool {
    forall|i: int| 0 <= i < s.len() ==> digit_value(#[trigger] s[i]) < base
}

/// The number that a text of digits stands for.
pub open spec fn number(s: Seq<char>, base: int) -> int
    decreases s.len(),
{
    if s.len() == 0 {
        0
    } else {
        number(s.drop_last(), base) * base + digit_value(s.last())
    }
}

/// The unsigned number that `s` stands for: digits, at least one, after an
/// optional plus sign, with a value of at most `max`.
pub open spec fn parsed_unsigned(s: Seq<char>, base: int, max: int) -> Option<int> {
    let digits = if s.len() > 0 && s[0] == '+' {
        s.skip(1)
    } else {
        s
    };
    if digits.len() > 0 && all_digits(digits, base) && number(digits, base) <= max {
        Some(number(digits, base))
    } else {
        None
    }
}

/// The texts of a sequence of character vectors.
pub open spec fn rows(v: Seq<Vec<char>>) -> Seq<Seq<char>> {
    Seq::new(v.len(), |i: int| v[i]@)
}

/// The texts of a sequence of pairs of strings.
pub open spec fn pair_texts(v: Seq<(String, String)>) -> Seq<(Seq<char>, Seq<char>)> {
    v.map_values(|p: (String, String)| (p.0@, p.1@))
}

/// The texts of a sequence of strings.
pub open spec fn texts(v: Seq<String>) -> Seq<Seq<char>> {
    Seq::new(v.len(), |i: int| v[i]@)
}

/// The text of an optional string.
pub open spec fn text_of(s: Option<String>) -> Option<Seq<char>> {
    match s {
        Some(t) => Some(t@),
        None => None,
    }
}

// --- Facts about the models ---------------------------------------------------

/// The first index at which a pattern stands is an occurrence and there is none
/// before it; where there is no such index the pattern does not occur.
pub proof fn lemma_first_index(hay: Seq<char>, pat: Seq<char>)
    ensures
        match first_index(hay, pat) {
            Some(i) => occurs_at(hay, pat, i) && forall|j: int|
                0 <= j < i ==> !#[trigger] occurs_at(hay, pat, j),
            None => forall|j: int| !#[trigger] occurs_at(hay, pat, j),
        },
{
    lemma_index_from(hay, pat, 0);
}

proof fn lemma_index_from(hay: Seq<char>, pat: Seq<char>, from: int)
    requires
        from >= 0,
    ensures
        match index_from(hay, pat, from) {
            Some(i) => from <= i && occurs_at(hay, pat, i) && forall|j: int|
                from <= j < i ==> !#[trigger] occurs_at(hay, pat, j),
            None => forall|j: int| from <= j ==> !#[trigger] occurs_at(hay, pat, j),
        },
    decreases hay.len() + 1 - from,
{
    if from + pat.len() > hay.len() {
    } else if occurs_at(hay, pat, from) {
    } else {
        lemma_index_from(hay, pat, from + 1);
    }
}

/// What is left of a text without its leading white space is its end.
pub proof fn lemma_trimmed_start(s: Seq<char>)
    ensures
        trimmed_start(s).len() <= s.len(),
        trimmed_start(s) == s.skip(s.len() - trimmed_start(s).len()),
        trimmed_start(s).len() > 0 ==> !white(trimmed_start(s)[0]),
    decreases s.len(),
{
    if s.len() > 0 && white(s[0]) {
        lemma_trimmed_start(s.skip(1));
        let t = trimmed_start(s.skip(1));
        assert(s.skip(1).skip(s.len() - 1 - t.len()) =~= s.skip(s.len() - t.len()));
    } else {
        assert(s.skip(0) =~= s);
    }
}

/// What is left of a text without its trailing white space is its beginning.
pub proof fn lemma_trimmed_end(s: Seq<char>)
    ensures
        trimmed_end(s).len() <= s.len(),
        trimmed_end(s) == s.take(trimmed_end(s).len() as int),
        trimmed_end(s).len() > 0 ==> !white(trimmed_end(s).last()),
    decreases s.len(),
{
    if s.len() > 0 && white(s.last()) {
        lemma_trimmed_end(s.drop_last());
        let t = trimmed_end(s.drop_last());
        assert(s.drop_last().take(t.len() as int) =~= s.take(t.len() as int));
    } else {
        assert(s.take(s.len() as int) =~= s);
    }
}

/// A shortened text has at most `max` characters, or one where `max` is zero,
/// and a text that is short enough is kept.
pub proof fn lemma_truncated(s: Seq<char>, max: int)
    requires
        max >= 0,
    ensures
        truncated(s, max).len() <= (if max >= 1 {
            max
        } else {
            1
        }),
        s.len() <= max ==> truncated(s, max) == s,
        s.len() > max >= 1 ==> truncated(s, max).len() == max && truncated(s, max).take(max - 1)
            == s.take(max - 1),
{
    if s.len() > max && max >= 1 {
        assert(truncated(s, max).take(max - 1) =~= s.take(max - 1));
    }
}

/// No line of `s` is longer than `n` characters.
pub open spec fn lines_fit(s: Seq<char>, n: int) -> bool {
    forall|i: int, j: int|
        0 <= i <= j <= s.len() && !(#[trigger] s.subrange(i, j)).contains('\n') ==> j - i <= n
}

/// A short text has no long lines.
pub proof fn lemma_lines_fit_short(s: Seq<char>, n: int)
    requires
        s.len() <= n,
    ensures
        lines_fit(s, n),
{
}

/// Texts on lines of their own have no longer lines together than apart.
pub proof fn lemma_lines_fit_apart(a: Seq<char>, b: Seq<char>, n: int)
    requires
        lines_fit(a, n),
        lines_fit(b, n),
    ensures
        lines_fit(a + "\n"@ + b, n),
{
    reveal_strlit("\n");
    let s = a + "\n"@ + b;
    let m = a.len() as int;
    assert forall|i: int, j: int|
        0 <= i <= j <= s.len() && !(#[trigger] s.subrange(i, j)).contains('\n') implies j - i <= n by {
        if i <= m < j {
            assert(s.subrange(i, j)[m - i] == '\n');
        } else if j <= m {
            assert(a.subrange(i, j) =~= s.subrange(i, j));
        } else {
            assert(b.subrange(i - m - 1, j - m - 1) =~= s.subrange(i, j));
        }
    }
}

/// A word: at least one character, and no white space.
pub open spec fn is_word(w: Seq<char>) -> bool {
    w.len() > 0 && forall|i: int| 0 <= i < w.len() ==> !white(#[trigger] w[i])
}

/// Every text is a word.
pub open spec fn all_words(parts: Seq<Seq<char>>) -> bool {
    forall|i: int| 0 <= i < parts.len() ==> is_word(#[trigger] parts[i])
}

/// The words of a text are words.
pub proof fn lemma_words_are_words(s: Seq<char>)
    ensures
        all_words(words(s)),
    decreases s.len(),
{
    if s.len() == 0 {
    } else if white(s[0]) {
        lemma_words_are_words(s.skip(1));
    } else {
        lemma_word_len(s);
        let n = word_len(s) as int;
        lemma_words_are_words(s.skip(n));
        assert(is_word(s.take(n)));
        let rest = words(s.skip(n));
        assert forall|i: int| 0 <= i < words(s).len() implies is_word(#[trigger] words(s)[i]) by {
            if i > 0 {
                assert(words(s)[i] == rest[i - 1]);
            }
        }
    }
}

/// The words of two texts with a space between them are those of the first and
/// then those of the second.
pub proof fn lemma_words_apart(x: Seq<char>, y: Seq<char>)
    ensures
        words(x + " "@ + y) == words(x) + words(y),
    decreases x.len(),
{
    reveal_strlit(" ");
    let s = x + " "@ + y;
    if x.len() == 0 {
        assert(s[0] == ' ');
        assert(s.skip(1) =~= y);
        assert(words(x) + words(y) =~= words(y));
    } else if white(x[0]) {
        assert(s[0] == x[0]);
        assert(s.skip(1) =~= x.skip(1) + " "@ + y);
        lemma_words_apart(x.skip(1), y);
    } else {
        lemma_word_len(x);
        lemma_word_len(s);
        let n = word_len(x) as int;
        assert(s[0] == x[0]);
        assert(word_len(s) == n) by {
            let m = word_len(s) as int;
            if m < n {
                assert(s[m] == x[m]);
            } else if m > n {
                if n < x.len() {
                    assert(s[n] == x[n]);
                } else {
                    assert(s[n] == ' ');
                }
            }
        }
        assert(s.take(n) =~= x.take(n));
        assert(s.skip(n) =~= x.skip(n) + " "@ + y);
        lemma_words_apart(x.skip(n), y);
        assert(seq![x.take(n)] + (words(x.skip(n)) + words(y)) =~= seq![x.take(n)] + words(x.skip(n))
            + words(y));
    }
}

/// A word has itself as its only word.
pub proof fn lemma_words_of_word(w: Seq<char>)
    requires
        is_word(w),
    ensures
        words(w) == seq![w],
{
    lemma_word_len(w);
    assert(word_len(w) == w.len());
    assert(w.take(w.len() as int) =~= w);
    assert(!white(w[0]));
    assert(w.skip(w.len() as int) =~= Seq::<char>::empty());
    assert(words(Seq::<char>::empty()) =~= Seq::<Seq<char>>::empty());
    assert(seq![w] + Seq::<Seq<char>>::empty() =~= seq![w]);
}

/// Words joined by single spaces are read back one by one.
pub proof fn lemma_words_joined(parts: Seq<Seq<char>>)
    requires
        all_words(parts),
    ensures
        words(joined(parts, " "@)) == parts,
    decreases parts.len(),
{
    if parts.len() == 0 {
        assert(words(joined(parts, " "@)) =~= parts);
    } else if parts.len() == 1 {
        lemma_words_of_word(parts[0]);
        assert(parts =~= seq![parts[0]]);
    } else {
        let init = parts.drop_last();
        assert(all_words(init)) by {
            assert forall|i: int| 0 <= i < init.len() implies is_word(#[trigger] init[i]) by {
                assert(init[i] == parts[i]);
            }
        }
        lemma_words_joined(init);
        lemma_words_apart(joined(init, " "@), parts.last());
        assert(is_word(parts[parts.len() - 1]));
        lemma_words_of_word(parts.last());
        assert(init + seq![parts.last()] =~= parts);
    }
}

/// Two runs of texts, neither empty, joined one after the other.
pub proof fn lemma_joined_apart(a: Seq<Seq<char>>, b: Seq<Seq<char>>, sep: Seq<char>)
    requires
        a.len() > 0,
        b.len() > 0,
    ensures
        joined(a + b, sep) == joined(a, sep) + sep + joined(b, sep),
    decreases b.len(),
{
    let s = a + b;
    assert(s.last() == b.last());
    if b.len() == 1 {
        assert(s.drop_last() =~= a);
    } else {
        lemma_joined_apart(a, b.drop_last(), sep);
        assert(s.drop_last() =~= a + b.drop_last());
        assert(joined(s, sep) =~= joined(a, sep) + sep + joined(b, sep));
    }
}

/// Collapsing keeps the words of a text, and once is enough.
pub proof fn lemma_collapsed(s: Seq<char>)
    ensures
        words(collapsed(s)) == words(s),
        collapsed(collapsed(s)) == collapsed(s),
{
    lemma_words_are_words(s);
    lemma_words_joined(words(s));
}

proof fn lemma_words_hold(s: Seq<char>, p: spec_fn(char) -> bool)
    requires
        forall|i: int| 0 <= i < s.len() ==> p(#[trigger] s[i]),
    ensures
        forall|i: int, k: int|
            0 <= i < words(s).len() && 0 <= k < words(s)[i].len() ==> p(#[trigger] words(s)[i][k]),
    decreases s.len(),
{
    if s.len() == 0 {
        assert(words(s).len() == 0);
    } else if white(s[0]) {
        let t = s.skip(1);
        assert forall|i: int| 0 <= i < t.len() implies p(#[trigger] t[i]) by {
            assert(t[i] == s[i + 1]);
        }
        lemma_words_hold(t, p);
        assert(words(s) == words(t));
    } else {
        lemma_word_len(s);
        let n = word_len(s) as int;
        let t = s.skip(n);
        assert forall|i: int| 0 <= i < t.len() implies p(#[trigger] t[i]) by {
            assert(t[i] == s[i + n]);
        }
        lemma_words_hold(t, p);
        assert(words(s) == seq![s.take(n)] + words(t));
        assert forall|i: int, k: int|
            0 <= i < words(s).len() && 0 <= k < words(s)[i].len() implies p(
            #[trigger] words(s)[i][k],
        ) by {
            if i == 0 {
                assert(words(s)[0][k] == s[k]);
            } else {
                assert(words(s)[i] == words(t)[i - 1]);
                assert(p(words(t)[i - 1][k]));
            }
        }
    }
}

/// A text in which single spaces stand between words of such characters.
pub open spec fn spaced(s: Seq<char>, p: spec_fn(char) -> bool) -> bool {
    &&& s.len() > 0 ==> s[0] != ' ' && s.last() != ' '
    &&& forall|i: int| 0 <= i < s.len() ==> #[trigger] s[i] == ' ' || p(s[i])
    &&& forall|i: int| 0 <= i && i + 1 < s.len() && #[trigger] s[i] == ' ' ==> s[i + 1] != ' '
}

proof fn lemma_joined_spaced(parts: Seq<Seq<char>>, p: spec_fn(char) -> bool)
    requires
        all_words(parts),
        forall|i: int, k: int|
            0 <= i < parts.len() && 0 <= k < parts[i].len() ==> p(#[trigger] parts[i][k]),
    ensures
        spaced(joined(parts, " "@), p),
        parts.len() > 0 ==> joined(parts, " "@).len() > 0,
    decreases parts.len(),
{
    reveal_strlit(" ");
    let s = joined(parts, " "@);
    if parts.len() > 0 {
        let w = parts.last();
        assert(is_word(parts[parts.len() - 1]));
        assert forall|k: int| 0 <= k < w.len() implies p(#[trigger] w[k]) && w[k] != ' ' by {
            assert(p(parts[parts.len() - 1][k]));
            assert(!white(w[k]));
        }
        if parts.len() > 1 {
            let init = parts.drop_last();
            assert forall|i: int| 0 <= i < init.len() implies is_word(#[trigger] init[i]) by {
                assert(init[i] == parts[i]);
            }
            assert forall|i: int, k: int| 0 <= i < init.len() && 0 <= k < init[i].len() implies p(
                #[trigger] init[i][k],
            ) by {
                assert(p(parts[i][k]));
            }
            lemma_joined_spaced(init, p);
            let m = joined(init, " "@);
            assert(s == m + " "@ + w);
            assert forall|i: int| 0 <= i < s.len() implies #[trigger] s[i] == ' ' || p(s[i]) by {
                if i < m.len() {
                    assert(s[i] == m[i]);
                } else if i > m.len() {
                    assert(s[i] == w[i - m.len() - 1]);
                }
            }
            assert forall|i: int| 0 <= i && i + 1 < s.len() && #[trigger] s[i] == ' ' implies s[i
                + 1] != ' ' by {
                if i < m.len() {
                    assert(s[i] == m[i]);
                    assert(i + 1 < m.len());
                    assert(s[i + 1] == m[i + 1]);
                } else if i == m.len() {
                    assert(s[i + 1] == w[0]);
                } else {
                    assert(s[i] == w[i - m.len() - 1]);
                }
            }
            assert(s[0] == m[0]);
            assert(s.last() == w.last());
        } else {
            assert(s == parts[0]);
        }
    }
}

/// A collapsed text has single spaces between words, none at its ends, and
/// otherwise only characters of the text that was collapsed.
pub proof fn lemma_collapsed_spaced(s: Seq<char>, p: spec_fn(char) -> bool)
    requires
        forall|i: int| 0 <= i < s.len() && s[i] != ' ' ==> p(#[trigger] s[i]),
    ensures
        spaced(collapsed(s), p),
{
    let q = |c: char| c == ' ' || p(c);
    lemma_words_hold(s, q);
    lemma_words_are_words(s);
    let parts = words(s);
    assert forall|i: int, k: int| 0 <= i < parts.len() && 0 <= k < parts[i].len() implies p(
        #[trigger] parts[i][k],
    ) by {
        assert(q(parts[i][k]));
        assert(is_word(parts[i]));
        assert(!white(parts[i][k]));
    }
    lemma_joined_spaced(parts, p);
}

/// The pieces of a text do not hold what it was cut at.
pub proof fn lemma_pieces_free(hay: Seq<char>, pat: Seq<char>)
    requires
        pat.len() > 0,
    ensures
        pieces(hay, pat).len() > 0,
        forall|i: int|
            0 <= i < pieces(hay, pat).len() ==> !contains_text(#[trigger] pieces(hay, pat)[i], pat),
    decreases hay.len(),
{
    lemma_first_index(hay, pat);
    match first_index(hay, pat) {
        None => {},
        Some(n) => {
            let head = hay.take(n);
            let rest = after(hay, n, pat);
            lemma_pieces_free(rest, pat);
            assert(!contains_text(head, pat)) by {
                if contains_text(head, pat) {
                    let j = choose|j: int| #[trigger] occurs_at(head, pat, j);
                    assert(head.subrange(j, j + pat.len()) =~= hay.subrange(j, j + pat.len()));
                    assert(occurs_at(hay, pat, j));
                }
            }
            let all = pieces(hay, pat);
            assert forall|i: int| 0 <= i < all.len() implies !contains_text(#[trigger] all[i], pat) by {
                if i > 0 {
                    assert(all[i] == pieces(rest, pat)[i - 1]);
                }
            }
        },
    }
}

/// A pattern whose first or last character stands nowhere else in it: no two of
/// its occurrences overlap.
pub open spec fn apart(pat: Seq<char>) -> bool {
    &&& pat.len() > 0
    &&& (forall|i: int| 0 <= i < pat.len() - 1 ==> #[trigger] pat[i] != pat.last()) || (forall|i: int|
        0 < i < pat.len() ==> #[trigger] pat[i] != pat[0])
}

/// A pattern that stands between two texts occurs there.
pub proof fn lemma_occurs_between(a: Seq<char>, pat: Seq<char>, b: Seq<char>)
    ensures
        occurs_at(a + pat + b, pat, a.len() as int),
        contains_text(a + pat + b, pat),
{
    assert((a + pat + b).subrange(a.len() as int, (a.len() + pat.len()) as int) =~= pat);
    assert(occurs_at(a + pat + b, pat, a.len() as int));
}

/// What occurs in a text occurs in every text that holds it.
pub proof fn lemma_contains_more(a: Seq<char>, b: Seq<char>, pat: Seq<char>)
    requires
        contains_text(a, pat),
    ensures
        contains_text(a + b, pat),
        contains_text(b + a, pat),
{
    let i = choose|i: int| #[trigger] occurs_at(a, pat, i);
    assert((a + b).subrange(i, i + pat.len()) =~= a.subrange(i, i + pat.len()));
    assert(occurs_at(a + b, pat, i));
    let j = b.len() + i;
    assert((b + a).subrange(j, j + pat.len()) =~= a.subrange(i, i + pat.len()));
    assert(occurs_at(b + a, pat, j));
}

/// The first occurrence of a pattern behind a text that does not hold it is right
/// behind that text.
pub proof fn lemma_first_between(a: Seq<char>, pat: Seq<char>, b: Seq<char>)
    requires
        apart(pat),
        !contains_text(a, pat),
    ensures
        first_index(a + pat + b, pat) == Some(a.len() as int),
        (a + pat + b).take(a.len() as int) == a,
        after(a + pat + b, a.len() as int, pat) == b,
{
    let h = a + pat + b;
    lemma_occurs_between(a, pat, b);
    lemma_first_index(h, pat);
    let i = first_index(h, pat)->0;
    assert(i <= a.len());
    if i < a.len() {
        lemma_occurrences_apart(h, pat, i, a.len() as int);
        assert(a.subrange(i, i + pat.len()) =~= h.subrange(i, i + pat.len()));
        assert(occurs_at(a, pat, i));
    }
    assert(h.take(a.len() as int) =~= a);
    assert(after(h, a.len() as int, pat) =~= b);
}

proof fn lemma_occurrences_apart(h: Seq<char>, pat: Seq<char>, i: int, j: int)
    requires
        apart(pat),
        occurs_at(h, pat, i),
        occurs_at(h, pat, j),
        i < j,
    ensures
        i + pat.len() <= j,
{
    if i + pat.len() > j {
        let n = i + pat.len() - 1;
        assert(h.subrange(i, i + pat.len())[pat.len() - 1] == h[n]);
        assert(h.subrange(j, j + pat.len())[n - j] == h[n]);
        assert(pat[n - j] == pat.last());
        assert(h.subrange(i, i + pat.len())[j - i] == h[j]);
        assert(h.subrange(j, j + pat.len())[0] == h[j]);
        assert(pat[j - i] == pat[0]);
    }
}

/// Two texts with a pattern between them have the pieces of the one and then those
/// of the other.
pub proof fn law_pieces_of_both(a: Seq<char>, pat: Seq<char>, b: Seq<char>)
    requires
        apart(pat),
    ensures
        pieces(a + pat + b, pat) == pieces(a, pat) + pieces(b, pat),
    decreases a.len(),
{
    let h = a + pat + b;
    lemma_first_index(h, pat);
    lemma_first_index(a, pat);
    lemma_occurs_between(a, pat, b);
    let i = first_index(h, pat)->0;
    assert(i <= a.len());
    if i < a.len() {
        lemma_occurrences_apart(h, pat, i, a.len() as int);
        assert(a.subrange(i, i + pat.len()) =~= h.subrange(i, i + pat.len()));
        assert(occurs_at(a, pat, i));
        let k = first_index(a, pat)->0;
        assert(h.subrange(k, k + pat.len()) =~= a.subrange(k, k + pat.len()));
        assert(occurs_at(h, pat, k));
        assert(i == k);
        let rest = after(a, i, pat);
        assert(after(h, i, pat) =~= rest + pat + b);
        law_pieces_of_both(rest, pat, b);
        assert(h.take(i) =~= a.take(i));
        assert(pieces(h, pat) =~= pieces(a, pat) + pieces(b, pat));
    } else {
        if first_index(a, pat) is Some {
            let k = first_index(a, pat)->0;
            assert(h.subrange(k, k + pat.len()) =~= a.subrange(k, k + pat.len()));
            assert(occurs_at(h, pat, k));
        }
        assert(h.take(i) =~= a);
        assert(after(h, i, pat) =~= b);
        assert(pieces(h, pat) =~= pieces(a, pat) + pieces(b, pat));
    }
}

/// A text that does not hold the pattern is its only piece.
pub proof fn lemma_one_piece(a: Seq<char>, pat: Seq<char>)
    requires
        pat.len() > 0,
        !contains_text(a, pat),
    ensures
        pieces(a, pat) == seq![a],
{
    lemma_first_index(a, pat);
}

/// A text is its pieces with the pattern between them.
pub proof fn law_pieces_make_up_the_text(hay: Seq<char>, pat: Seq<char>)
    requires
        pat.len() > 0,
    ensures
        joined(pieces(hay, pat), pat) == hay,
    decreases hay.len(),
{
    lemma_first_index(hay, pat);
    if let Some(i) = first_index(hay, pat) {
        let rest = after(hay, i, pat);
        law_pieces_make_up_the_text(rest, pat);
        lemma_pieces_free(rest, pat);
        lemma_joined_apart(seq![hay.take(i)], pieces(rest, pat), pat);
        assert(hay =~= hay.take(i) + pat + rest);
    }
}

/// A number that was read is not negative and no larger than is allowed.
pub proof fn lemma_parsed_unsigned(s: Seq<char>, base: int, max: int)
    requires
        base >= 1,
    ensures
        parsed_unsigned(s, base, max) matches Some(n) ==> 0 <= n <= max,
{
    if parsed_unsigned(s, base, max) is Some {
        let digits = if s.len() > 0 && s[0] == '+' {
            s.skip(1)
        } else {
            s
        };
        lemma_number_grows(digits, base, digits.len() as int);
    }
}

/// The decimal digits of a number are digits, start with no zero unless it is zero,
/// and stand for it.
pub proof fn lemma_decimal(n: nat)
    ensures
        decimal(n).len() > 0,
        forall|i: int| 0 <= i < decimal(n).len() ==> digit(#[trigger] decimal(n)[i]),
        n > 0 ==> decimal(n)[0] != '0',
        number(decimal(n), 10) == n,
    decreases n,
{
    let d = decimal(n);
    assert(forall|k: int| 0 <= k < 10 ==> digit_value(#[trigger] digit_char(k)) == k && digit(
        digit_char(k),
    ));
    if n < 10 {
        assert(d.drop_last() =~= Seq::empty());
        assert(d[0] == digit_char(n as int));
        reveal_with_fuel(number, 2);
    } else {
        lemma_decimal(n / 10);
        assert(d.drop_last() =~= decimal(n / 10));
        assert(d.last() == digit_char((n % 10) as int));
        assert forall|i: int| 0 <= i < d.len() implies digit(#[trigger] d[i]) by {
            if i < d.len() - 1 {
                assert(d[i] == decimal(n / 10)[i]);
            }
        }
        assert(d[0] == decimal(n / 10)[0]);
    }
}

/// A number is read back from its decimal digits, with or without a plus sign,
/// wherever it is no larger than is allowed; its digits start with no zero unless
/// it is zero.
pub proof fn law_decimal_reads_back(n: nat, max: int)
    requires
        n <= max,
    ensures
        parsed_unsigned(decimal(n), 10, max) == Some(n as int),
        parsed_unsigned("+"@ + decimal(n), 10, max) == Some(n as int),
        forall|i: int| 0 <= i < decimal(n).len() ==> digit(#[trigger] decimal(n)[i]),
        n > 0 ==> decimal(n)[0] != '0',
{
    lemma_decimal(n);
    reveal_strlit("+");
    let d = decimal(n);
    assert(digit(d[0]));
    assert(("+"@ + d).skip(1) =~= d);
    assert(all_digits(d, 10)) by {
        assert forall|i: int| 0 <= i < d.len() implies digit_value(#[trigger] d[i]) < 10 by {
            assert(digit(d[i]));
        }
    }
}

/// Texts that are joined are all in what they are joined to.
pub proof fn lemma_joined_holds(parts: Seq<Seq<char>>, sep: Seq<char>, i: int)
    requires
        0 <= i < parts.len(),
    ensures
        contains_text(joined(parts, sep), parts[i]),
    decreases parts.len(),
{
    let none = Seq::<char>::empty();
    if parts.len() == 1 {
        lemma_occurs_between(none, parts[0], none);
        assert(none + parts[0] + none =~= parts[0]);
    } else if i == parts.len() - 1 {
        let head = joined(parts.drop_last(), sep) + sep;
        lemma_occurs_between(head, parts[i], none);
        assert(head + parts[i] + none =~= joined(parts, sep));
    } else {
        assert(parts.drop_last()[i] == parts[i]);
        lemma_joined_holds(parts.drop_last(), sep, i);
        lemma_contains_more(joined(parts.drop_last(), sep), sep, parts[i]);
        lemma_contains_more(joined(parts.drop_last(), sep) + sep, parts.last(), parts[i]);
    }
}

/// White space at the end of a text is all that is cut off there.
pub proof fn lemma_trimmed_end_keeps(s: Seq<char>, w: Seq<char>)
    requires
        s.len() > 0,
        !white(s.last()),
        forall|i: int| 0 <= i < w.len() ==> white(#[trigger] w[i]),
    ensures
        trimmed_end(s + w) == s,
    decreases w.len(),
{
    if w.len() == 0 {
        assert(s + w =~= s);
    } else {
        let v = w.drop_last();
        assert((s + w).drop_last() =~= s + v);
        assert(white(w[w.len() - 1]));
        assert forall|i: int| 0 <= i < v.len() implies white(#[trigger] v[i]) by {
            assert(v[i] == w[i]);
        }
        lemma_trimmed_end_keeps(s, v);
    }
}

/// Texts in ASCII that differ only in case have the same lowercase form, and the
/// same uppercase form.
pub proof fn law_case_does_not_matter(a: Seq<char>, b: Seq<char>)
    requires
        all_ascii(a),
        all_ascii(b),
        same_ignoring_case(a, b),
    ensures
        lowered(a) == lowered(b),
        raised(a) == raised(b),
{
    assert forall|i: int| 0 <= i < a.len() implies ascii_lower(#[trigger] a[i]) == ascii_lower(b[i])
        && ascii_upper(a[i]) == ascii_upper(b[i]) by {
        assert(ascii_lower(a[i]) == ascii_lower(b[i]));
        assert(ascii(a[i]) && ascii(b[i]));
    }
    assert(lowered(a) =~= lowered(b));
    assert(raised(a) =~= raised(b));
}

/// A text that is too long is cut to the room there is, with a mark in the last
/// place; a shorter one is kept.
pub proof fn law_truncated(s: Seq<char>, max: int)
    requires
        max >= 1,
    ensures
        s.len() <= max ==> truncated(s, max) == s,
        s.len() > max ==> truncated(s, max).len() == max && truncated(s, max).drop_last() == s.take(
            max - 1,
        ) && truncated(s, max).last() == '\u{2026}',
{
    if s.len() > max {
        assert(truncated(s, max).drop_last() =~= s.take(max - 1));
    }
}

/// Padding adds spaces up to the width, on the one side or on the other, and takes
/// nothing away.
pub proof fn law_padded(s: Seq<char>, width: int)
    ensures
        begins_with(padded_right(s, width), s),
        ends_with(padded_left(s, width), s),
        padded_right(s, width).len() == padded_left(s, width).len(),
        padded_right(s, width).len() == (if s.len() >= width {
            s.len() as int
        } else {
            width
        }),
        forall|i: int|
            s.len() <= i < padded_right(s, width).len() ==> #[trigger] padded_right(s, width)[i] == ' ',
        forall|i: int|
            0 <= i < padded_left(s, width).len() - s.len() ==> #[trigger] padded_left(s, width)[i]
                == ' ',
{
    let r = padded_right(s, width);
    let l = padded_left(s, width);
    assert(r.subrange(0, s.len() as int) =~= s);
    assert(l.subrange(l.len() - s.len(), l.len() as int) =~= s);
}

/// A line feed ends a line: what stands before it is a line of its own, without the
/// carriage return that may stand before the line feed, and what stands behind it
/// has the other lines.
pub proof fn law_lines_end_at_line_feeds(a: Seq<char>, b: Seq<char>)
    requires
        !a.contains('\n'),
    ensures
        lines(a + "\n"@ + b) == seq![without_return(a)] + lines(b),
        a.len() > 0 ==> lines(a) == seq![a],
        lines(Seq::<char>::empty()).len() == 0,
{
    reveal_strlit("\n");
    let feed = seq!['\n'];
    assert("\n"@ =~= feed);
    assert(!contains_text(a, feed)) by {
        if contains_text(a, feed) {
            let i = choose|i: int| #[trigger] occurs_at(a, feed, i);
            assert(a.subrange(i, i + 1)[0] == a[i]);
            assert(a[i] == '\n');
        }
    }
    lemma_first_between(a, feed, b);
    lemma_first_index(a, feed);
    let s = a + feed + b;
    assert(s.skip(a.len() as int + 1) =~= b);
    assert(s.len() > 0);
}

/// Every occurrence of a pattern is replaced, and the rest is kept: two texts with
/// the pattern between them come to what each comes to, with the new text between.
pub proof fn law_every_occurrence_is_replaced(
    a: Seq<char>,
    pat: Seq<char>,
    b: Seq<char>,
    with: Seq<char>,
)
    requires
        apart(pat),
    ensures
        replaced(a + pat + b, pat, with) == replaced(a, pat, with) + with + replaced(b, pat, with),
        !contains_text(a, pat) ==> replaced(a, pat, with) == a,
{
    law_pieces_of_both(a, pat, b);
    lemma_pieces_free(a, pat);
    lemma_pieces_free(b, pat);
    lemma_joined_apart(pieces(a, pat), pieces(b, pat), with);
    if !contains_text(a, pat) {
        lemma_one_piece(a, pat);
    }
}

/// Trimming takes the white space off both ends of a text and nothing else.
pub proof fn law_trimmed(w: Seq<char>, s: Seq<char>, v: Seq<char>)
    requires
        forall|i: int| 0 <= i < w.len() ==> white(#[trigger] w[i]),
        forall|i: int| 0 <= i < v.len() ==> white(#[trigger] v[i]),
        s.len() > 0 ==> !white(s[0]) && !white(s.last()),
    ensures
        trimmed(w + s + v) == s,
    decreases w.len(),
{
    let all = w + s + v;
    if w.len() > 0 {
        let u = w.skip(1);
        assert(all.skip(1) =~= u + s + v);
        assert(white(w[0]));
        assert(all[0] == w[0]);
        assert forall|i: int| 0 <= i < u.len() implies white(#[trigger] u[i]) by {
            assert(u[i] == w[i + 1]);
        }
        law_trimmed(u, s, v);
    } else if s.len() > 0 {
        assert(all =~= s + v);
        assert(all[0] == s[0]);
        lemma_trimmed_end_keeps(s, v);
    } else {
        assert(all =~= v);
        lemma_all_white(v);
        assert(s =~= Seq::empty());
    }
}

proof fn lemma_all_white(v: Seq<char>)
    requires
        forall|i: int| 0 <= i < v.len() ==> white(#[trigger] v[i]),
    ensures
        trimmed(v) == Seq::<char>::empty(),
    decreases v.len(),
{
    if v.len() > 0 {
        assert(white(v[0]));
        let u = v.skip(1);
        assert forall|i: int| 0 <= i < u.len() implies white(#[trigger] u[i]) by {
            assert(u[i] == v[i + 1]);
        }
        lemma_all_white(u);
    } else {
        assert(trimmed(v) =~= Seq::<char>::empty());
    }
}

/// A text is blank, with nothing left when it is trimmed, exactly when there is
/// nothing but white space in it.
pub proof fn law_blank_texts(s: Seq<char>)
    ensures
        trimmed(s).len() == 0 <==> forall|i: int| 0 <= i < s.len() ==> white(#[trigger] s[i]),
    decreases s.len(),
{
    if forall|i: int| 0 <= i < s.len() ==> white(#[trigger] s[i]) {
        lemma_all_white(s);
    } else if white(s[0]) {
        let t = s.skip(1);
        law_blank_texts(t);
        if forall|i: int| 0 <= i < t.len() ==> white(#[trigger] t[i]) {
            assert forall|i: int| 0 <= i < s.len() implies white(#[trigger] s[i]) by {
                if i > 0 {
                    assert(t[i - 1] == s[i]);
                }
            }
        }
    } else {
        lemma_first_stays(s);
    }
}

proof fn lemma_first_stays(s: Seq<char>)
    requires
        s.len() > 0,
        !white(s[0]),
    ensures
        trimmed_end(s).len() > 0,
    decreases s.len(),
{
    if white(s.last()) {
        assert(s.drop_last()[0] == s[0]);
        lemma_first_stays(s.drop_last());
    }
}

/// A part that does not end in white space is in the text without the white space
/// at its end.
pub proof fn lemma_kept_part(s: Seq<char>, part: Seq<char>)
    requires
        contains_text(s, part),
        part.len() > 0,
        !white(part.last()),
    ensures
        contains_text(trimmed_end(s), part),
    decreases s.len(),
{
    if s.len() > 0 && white(s.last()) {
        let i = choose|i: int| #[trigger] occurs_at(s, part, i);
        let d = s.drop_last();
        if i + part.len() == s.len() {
            assert(s.subrange(i, i + part.len())[part.len() - 1] == s.last());
        }
        assert(d.subrange(i, i + part.len()) =~= s.subrange(i, i + part.len()));
        assert(occurs_at(d, part, i));
        lemma_kept_part(d, part);
    }
}

/// What is cut off the end of a text as often as it stands there stands there no
/// more; and it is all that is cut off.
pub proof fn law_stripped_end(s: Seq<char>, pat: Seq<char>)
    requires
        pat.len() > 0,
    ensures
        !ends_with(stripped_end(s, pat), pat),
        begins_with(s, stripped_end(s, pat)),
        stripped_end(s + pat, pat) == stripped_end(s, pat),
    decreases s.len(),
{
    let all = s + pat;
    assert(all.subrange(all.len() - pat.len(), all.len() as int) =~= pat);
    assert(all.take(all.len() - pat.len()) =~= s);
    if ends_with(s, pat) {
        let t = s.take(s.len() - pat.len());
        law_stripped_end(t, pat);
        let r = stripped_end(t, pat);
        assert(s.subrange(0, r.len() as int) =~= t.subrange(0, r.len() as int));
    } else {
        assert(s.subrange(0, s.len() as int) =~= s);
    }
}

/// What occurs in a part of a text occurs in the text.
pub proof fn lemma_contains_through(s: Seq<char>, part: Seq<char>, pat: Seq<char>)
    requires
        contains_text(s, part),
        contains_text(part, pat),
    ensures
        contains_text(s, pat),
{
    let i = choose|i: int| #[trigger] occurs_at(s, part, i);
    let a = s.take(i);
    let b = s.skip(i + part.len());
    assert(s =~= a + part + b);
    lemma_contains_more(part, a, pat);
    lemma_contains_more(a + part, b, pat);
}

/// The letters of ASCII have one partner each of the other case, and nothing else
/// has a case there.
pub proof fn law_ascii_case(c: char)
    ensures
        'A' <= c <= 'Z' ==> 'a' <= ascii_lower(c) <= 'z' && ascii_upper(ascii_lower(c)) == c,
        'a' <= c <= 'z' ==> 'A' <= ascii_upper(c) <= 'Z' && ascii_lower(ascii_upper(c)) == c,
        !('A' <= c <= 'Z') ==> ascii_lower(c) == c,
        !('a' <= c <= 'z') ==> ascii_upper(c) == c,
        ascii_lower(ascii_lower(c)) == ascii_lower(c),
{
}

/// The white space: the tab and the line and form feeds beside it, the space, the
/// next line, and the spaces and separators of the rest of Unicode.
pub proof fn law_white_space(c: char)
    ensures
        white(c) <==> {
            let n = c as int;
            ||| 9 <= n <= 13
            ||| n == 0x20 || n == 0x85 || n == 0xa0 || n == 0x1680
            ||| 0x2000 <= n <= 0x200a
            ||| n == 0x2028 || n == 0x2029 || n == 0x202f || n == 0x205f || n == 0x3000
        },
        word_char(c) && ascii(c) ==> !white(c),
{
}

/// A number stands for a character exactly when a character has it.
pub proof fn law_numbers_of_characters(c: char)
    ensures
        scalar(c as int) == Some(c),
        forall|n: int| 0xd800 <= n < 0xe000 || n < 0 || n >= 0x110000 ==> #[trigger] scalar(n) is None,
{
}

proof fn lemma_word_len(s: Seq<char>)
    ensures
        word_len(s) <= s.len(),
        forall|i: int| 0 <= i < word_len(s) ==> !white(#[trigger] s[i]),
        word_len(s) < s.len() ==> white(s[word_len(s) as int]),
        s.len() > 0 && !white(s[0]) ==> word_len(s) > 0,
    decreases s.len(),
{
    if s.len() > 0 && !white(s[0]) {
        let t = s.skip(1);
        lemma_word_len(t);
        assert forall|i: int| 0 <= i < word_len(s) implies !white(#[trigger] s[i]) by {
            if i > 0 {
                assert(s[i] == t[i - 1]);
            }
        }
        if word_len(s) < s.len() {
            assert(s[word_len(s) as int] == t[word_len(t) as int]);
        }
    }
}

// --- Functions ----------------------------------------------------------------

/// The characters of `s`.
pub fn chars_of(s: &str) -> (v: Vec<char>)
    ensures
        v@ == s@,
{
    let mut v: Vec<char> = Vec::new();
    for c in it: s.chars()
        invariant
            v@ =~= it.seq().take(it.index() as int),
            it.seq() == s@,
    {
        v.push(c);
    }
    v
}

/// The string made of the given characters.
pub fn string_of(s: &[char]) -> (r: String)
    ensures
        r@ == s@,
{
    let mut out: String = String::new();
    let mut i: usize = 0;
    while i < s.len()
        invariant
            i <= s@.len(),
            out@ == s@.take(i as int),
        decreases s@.len() - i,
    {
        out.push(s[i]);
        proof {
            assert(s@.take(i + 1) =~= s@.take(i as int).push(s@[i as int]));
        }
        i = i + 1;
    }
    assert(s@.take(i as int) =~= s@);
    out
}

/// A copy of the characters.
pub fn copied(s: &[char]) -> (r: Vec<char>)
    ensures
        r@ == s@,
{
    let mut out: Vec<char> = Vec::new();
    push_all(&mut out, s);
    assert(out@ =~= s@);
    out
}

/// Appends `s` to `out`.
pub fn push_all(out: &mut Vec<char>, s: &[char])
    ensures
        final(out)@ == old(out)@ + s@,
{
    let mut i: usize = 0;
    while i < s.len()
        invariant
            i <= s@.len(),
            out@ == old(out)@ + s@.take(i as int),
        decreases s@.len() - i,
    {
        out.push(s[i]);
        proof {
            assert(old(out)@ + s@.take(i + 1) =~= (old(out)@ + s@.take(i as int)).push(s@[i as int]));
        }
        i = i + 1;
    }
    assert(s@.take(i as int) =~= s@);
}

/// Appends the characters of `s` to `out`.
pub fn push_str(out: &mut Vec<char>, s: &str)
    ensures
        final(out)@ == old(out)@ + s@,
{
    let v: Vec<char> = chars_of(s);
    push_all(out, v.as_slice());
}

/// Whether a character is white space.
pub fn is_white(c: char) -> (b: bool)
    ensures
        b == white(c),
{
    (c >= '\u{9}' && c <= '\u{d}') || c == ' ' || c == '\u{85}' || c == '\u{a0}' || c == '\u{1680}'
        || (c >= '\u{2000}' && c <= '\u{200a}') || c == '\u{2028}' || c == '\u{2029}'
        || c == '\u{202f}' || c == '\u{205f}' || c == '\u{3000}'
}

/// Whether two texts are the same.
pub fn same(a: &[char], b: &[char]) -> (r: bool)
    ensures
        r == (a@ == b@),
{
    if a.len() != b.len() {
        return false;
    }
    let mut i: usize = 0;
    while i < a.len()
        invariant
            i <= a@.len(),
            a@.len() == b@.len(),
            forall|j: int| 0 <= j < i ==> a@[j] == b@[j],
        decreases a@.len() - i,
    {
        if a[i] != b[i] {
            return false;
        }
        i = i + 1;
    }
    assert(a@ =~= b@);
    true
}

/// Whether two strings are the same.
pub fn same_str(a: &str, b: &str) -> (r: bool)
    ensures
        r == (a@ == b@),
{
    let x: Vec<char> = chars_of(a);
    let y: Vec<char> = chars_of(b);
    same(x.as_slice(), y.as_slice())
}

/// The ASCII lowercase form of a character.
pub fn to_ascii_lower(c: char) -> (r: char)
    ensures
        r == ascii_lower(c),
{
    if c >= 'A' && c <= 'Z' {
        ((c as u8) + 32u8) as char
    } else {
        c
    }
}

/// Whether two strings are equal up to the case of ASCII letters.
pub fn eq_ignoring_case(a: &str, b: &str) -> (r: bool)
    ensures
        r == same_ignoring_case(a@, b@),
{
    let x: Vec<char> = chars_of(a);
    let y: Vec<char> = chars_of(b);
    if x.len() != y.len() {
        return false;
    }
    let mut i: usize = 0;
    while i < x.len()
        invariant
            i <= x@.len(),
            x@ == a@,
            y@ == b@,
            x@.len() == y@.len(),
            forall|j: int| 0 <= j < i ==> ascii_lower(#[trigger] x@[j]) == ascii_lower(y@[j]),
        decreases x@.len() - i,
    {
        if to_ascii_lower(x[i]) != to_ascii_lower(y[i]) {
            assert(ascii_lower(a@[i as int]) != ascii_lower(b@[i as int]));
            return false;
        }
        i = i + 1;
    }
    true
}

/// The text without white space at its end.
pub fn trim_end(s: &[char]) -> (r: &[char])
    ensures
        r@ == trimmed_end(s@),
{
    let mut n: usize = s.len();
    assert(s@.take(n as int) =~= s@);
    while n > 0 && is_white(s[n - 1])
        invariant
            n <= s@.len(),
            trimmed_end(s@.take(n as int)) == trimmed_end(s@),
        decreases n,
    {
        proof {
            assert(s@.take(n as int).drop_last() =~= s@.take(n - 1));
            assert(s@.take(n as int).last() == s@[n - 1]);
        }
        n = n - 1;
    }
    proof {
        if n > 0 {
            assert(s@.take(n as int).last() == s@[n - 1]);
        }
    }
    &s[0..n]
}

/// The text without white space at its start.
pub fn trim_start(s: &[char]) -> (r: &[char])
    ensures
        r@ == trimmed_start(s@),
{
    let mut n: usize = 0;
    assert(s@.skip(0) =~= s@);
    while n < s.len() && is_white(s[n])
        invariant
            n <= s@.len(),
            trimmed_start(s@.skip(n as int)) == trimmed_start(s@),
        decreases s@.len() - n,
    {
        proof {
            assert(s@.skip(n as int).skip(1) =~= s@.skip(n + 1));
            assert(s@.skip(n as int)[0] == s@[n as int]);
        }
        n = n + 1;
    }
    proof {
        if n < s@.len() {
            assert(s@.skip(n as int)[0] == s@[n as int]);
        }
    }
    &s[n..s.len()]
}

/// The text without white space at either end.
pub fn trim(s: &[char]) -> (r: &[char])
    ensures
        r@ == trimmed(s@),
{
    trim_end(trim_start(s))
}

/// The bounds within `s` of the text without white space at either end.
pub fn trim_bounds(s: &[char]) -> (r: (usize, usize))
    ensures
        r.0 <= r.1 <= s@.len(),
        s@.subrange(r.0 as int, r.1 as int) == trimmed(s@),
{
    let tail: &[char] = trim_start(s);
    let body: &[char] = trim_end(tail);
    proof {
        lemma_trimmed_start(s@);
        lemma_trimmed_end(tail@);
        let n = (s@.len() - tail@.len()) as int;
        assert(s@.subrange(n, n + body@.len()) =~= body@);
    }
    (s.len() - tail.len(), s.len() - tail.len() + body.len())
}

/// Whether `pat` stands in `hay` at index `i`.
pub fn stands_at(hay: &[char], pat: &[char], i: usize) -> (r: bool)
    ensures
        r == occurs_at(hay@, pat@, i as int),
{
    if i > hay.len() || hay.len() - i < pat.len() {
        return false;
    }
    same(&hay[i..i + pat.len()], pat)
}

/// The first index at which `pat` stands in `hay`.
pub fn find(hay: &[char], pat: &[char]) -> (r: Option<usize>)
    ensures
        match r {
            Some(i) => first_index(hay@, pat@) == Some(i as int),
            None => first_index(hay@, pat@) is None,
        },
        r matches Some(i) ==> i + pat@.len() <= hay@.len() <= usize::MAX,
{
    let len: usize = hay.len();
    let mut i: usize = 0;
    while hay.len() - i >= pat.len()
        invariant
            i <= hay@.len() == len,
            index_from(hay@, pat@, i as int) == first_index(hay@, pat@),
        decreases hay@.len() - i,
    {
        if stands_at(hay, pat, i) {
            return Some(i);
        }
        if i == hay.len() {
            assert(index_from(hay@, pat@, i + 1) is None);
            return None;
        }
        i = i + 1;
    }
    None
}

/// The first index of a character.
pub fn find_char(hay: &[char], c: char) -> (r: Option<usize>)
    ensures
        match r {
            Some(i) => first_index(hay@, seq![c]) == Some(i as int) && i < hay@.len() <= usize::MAX
                && hay@[i as int] == c,
            None => first_index(hay@, seq![c]) is None && !hay@.contains(c),
        },
{
    let mut pat: Vec<char> = Vec::new();
    pat.push(c);
    assert(pat@ =~= seq![c]);
    let r: Option<usize> = find(hay, pat.as_slice());
    proof {
        lemma_first_index(hay@, seq![c]);
        match r {
            Some(i) => {
                assert(hay@.subrange(i as int, i + 1)[0] == hay@[i as int]);
            },
            None => {
                assert forall|k: int| 0 <= k < hay@.len() implies hay@[k] != c by {
                    if hay@[k] == c {
                        assert(hay@.subrange(k, k + 1) =~= seq![c]);
                        assert(occurs_at(hay@, seq![c], k));
                    }
                }
            },
        }
    }
    r
}

/// What stands before the first occurrence of `pat`.
pub fn before_first<'a>(hay: &'a [char], pat: &[char]) -> (r: &'a [char])
    ensures
        r@ == before(hay@, pat@),
{
    match find(hay, pat) {
        None => hay,
        Some(i) => {
            assert(hay@.subrange(0, i as int) =~= hay@.take(i as int));
            &hay[0..i]
        },
    }
}

/// The text without the copies of `pat` that it begins with.
pub fn strip_start<'a>(s: &'a [char], pat: &[char]) -> (r: &'a [char])
    requires
        pat@.len() > 0,
    ensures
        r@ == stripped_start(s@, pat@),
{
    let mut n: usize = 0;
    assert(s@.skip(0) =~= s@);
    loop
        invariant
            n <= s@.len(),
            pat@.len() > 0,
            stripped_start(s@.skip(n as int), pat@) == stripped_start(s@, pat@),
        decreases s@.len() - n,
    {
        let rest: &[char] = &s[n..s.len()];
        assert(rest@ =~= s@.skip(n as int));
        if !stands_at(rest, pat, 0) {
            return rest;
        }
        assert(rest@.skip(pat@.len() as int) =~= s@.skip(n + pat@.len()));
        n = n + pat.len();
    }
}

/// The text without the copies of `pat` that it ends with.
pub fn strip_end<'a>(s: &'a [char], pat: &[char]) -> (r: &'a [char])
    requires
        pat@.len() > 0,
    ensures
        r@ == stripped_end(s@, pat@),
{
    let mut n: usize = s.len();
    assert(s@.take(n as int) =~= s@);
    loop
        invariant
            n <= s@.len(),
            pat@.len() > 0,
            stripped_end(s@.take(n as int), pat@) == stripped_end(s@, pat@),
        decreases n,
    {
        let rest: &[char] = &s[0..n];
        assert(rest@ =~= s@.take(n as int));
        if n < pat.len() || !stands_at(rest, pat, n - pat.len()) {
            return rest;
        }
        assert(rest@.take(n - pat@.len()) =~= s@.take(n - pat@.len()));
        n = n - pat.len();
    }
}

/// Cuts `hay` at every occurrence of `pat`.
pub fn split(hay: &[char], pat: &[char]) -> (r: Vec<Vec<char>>)
    requires
        pat@.len() > 0,
    ensures
        rows(r@) == pieces(hay@, pat@),
        r@.len() > 0,
{
    let mut out: Vec<Vec<char>> = Vec::new();
    let mut from: usize = 0;
    assert(hay@.skip(0) =~= hay@);
    assert(rows(out@) =~= Seq::<Seq<char>>::empty());
    assert(rows(out@) + pieces(hay@, pat@) =~= pieces(hay@, pat@));
    loop
        invariant
            from <= hay@.len(),
            pat@.len() > 0,
            rows(out@) + pieces(hay@.skip(from as int), pat@) == pieces(hay@, pat@),
        decreases hay@.len() - from,
    {
        let rest: &[char] = &hay[from..hay.len()];
        assert(rest@ =~= hay@.skip(from as int));
        match find(rest, pat) {
            None => {
                let ghost before = rows(out@);
                out.push(copied(rest));
                proof {
                    assert(rows(out@) =~= before + seq![rest@]);
                }
                return out;
            },
            Some(i) => {
                let ghost before = rows(out@);
                out.push(copied(&rest[0..i]));
                proof {
                    assert(rest@.subrange(0, i as int) =~= rest@.take(i as int));
                    assert(rows(out@) =~= before + seq![rest@.take(i as int)]);
                    assert(after(rest@, i as int, pat@) =~= hay@.skip(from + i + pat@.len()));
                    let tail = pieces(hay@.skip(from + i + pat@.len()), pat@);
                    assert(before + (seq![rest@.take(i as int)] + tail) =~= rows(out@) + tail);
                }
                from = from + i + pat.len();
            },
        }
    }
}

/// The lines of a text.
pub fn lines_of(s: &[char]) -> (r: Vec<Vec<char>>)
    ensures
        rows(r@) == lines(s@),
{
    let mut out: Vec<Vec<char>> = Vec::new();
    let mut from: usize = 0;
    assert(s@.skip(0) =~= s@);
    assert(rows(out@) + lines(s@) =~= lines(s@));
    while from < s.len()
        invariant
            from <= s@.len(),
            rows(out@) + lines(s@.skip(from as int)) == lines(s@),
        decreases s@.len() - from,
    {
        let rest: &[char] = &s[from..s.len()];
        assert(rest@ =~= s@.skip(from as int));
        let ghost before = rows(out@);
        match find_char(rest, '\n') {
            None => {
                out.push(copied(rest));
                assert(rows(out@) =~= before + seq![rest@]);
                return out;
            },
            Some(i) => {
                let end: usize = if i > 0 && rest[i - 1] == '\r' {
                    i - 1
                } else {
                    i
                };
                out.push(copied(&rest[0..end]));
                proof {
                    assert(rest@.subrange(0, end as int) =~= without_return(rest@.take(i as int)));
                    assert(rows(out@) =~= before + seq![without_return(rest@.take(i as int))]);
                    assert(rest@.skip(i + 1) =~= s@.skip(from + i + 1));
                    let tail = lines(s@.skip(from + i + 1));
                    assert(before + (seq![without_return(rest@.take(i as int))] + tail)
                        =~= rows(out@) + tail);
                }
                from = from + i + 1;
            },
        }
    }
    assert(s@.skip(from as int) =~= Seq::<char>::empty());
    assert(rows(out@) + lines(s@.skip(from as int)) =~= rows(out@));
    out
}

/// The texts one after the other with `sep` between neighbours.
pub fn join(parts: &Vec<Vec<char>>, sep: &[char]) -> (r: Vec<char>)
    ensures
        r@ == joined(rows(parts@), sep@),
{
    let mut out: Vec<char> = Vec::new();
    let mut i: usize = 0;
    assert(rows(parts@).take(0) =~= Seq::<Seq<char>>::empty());
    assert(out@ =~= joined(rows(parts@).take(0), sep@));
    while i < parts.len()
        invariant
            i <= parts@.len(),
            out@ == joined(rows(parts@).take(i as int), sep@),
        decreases parts@.len() - i,
    {
        let ghost before = out@;
        if i > 0 {
            push_all(&mut out, sep);
        }
        push_all(&mut out, parts[i].as_slice());
        proof {
            let head = rows(parts@).take(i + 1);
            assert(head.drop_last() =~= rows(parts@).take(i as int));
            assert(head.last() == parts@[i as int]@);
            if i == 0 {
                assert(out@ =~= parts@[0]@);
                assert(head[0] == parts@[0]@);
            } else {
                assert(out@ =~= before + sep@ + parts@[i as int]@);
            }
        }
        i = i + 1;
    }
    assert(rows(parts@).take(i as int) =~= rows(parts@));
    out
}

/// `hay` with every occurrence of `pat` replaced by `with`.
pub fn replace(hay: &[char], pat: &[char], with: &[char]) -> (r: Vec<char>)
    requires
        pat@.len() > 0,
    ensures
        r@ == replaced(hay@, pat@, with@),
{
    join(&split(hay, pat), with)
}

/// The words of `s`.
pub fn words_of(s: &[char]) -> (r: Vec<Vec<char>>)
    ensures
        rows(r@) == words(s@),
{
    let mut out: Vec<Vec<char>> = Vec::new();
    let mut from: usize = 0;
    assert(s@.skip(0) =~= s@);
    assert(rows(out@) + words(s@) =~= words(s@));
    while from < s.len()
        invariant
            from <= s@.len(),
            rows(out@) + words(s@.skip(from as int)) == words(s@),
        decreases s@.len() - from,
    {
        let ghost rest = s@.skip(from as int);
        assert(rest[0] == s@[from as int]);
        if is_white(s[from]) {
            assert(rest.skip(1) =~= s@.skip(from + 1));
            from = from + 1;
        } else {
            let mut to: usize = from;
            assert(rest.skip(0) =~= rest);
            while to < s.len() && !is_white(s[to])
                invariant
                    from <= to <= s@.len(),
                    rest == s@.skip(from as int),
                    word_len(rest) == (to - from) + word_len(s@.skip(to as int)),
                decreases s@.len() - to,
            {
                assert(s@.skip(to as int)[0] == s@[to as int]);
                assert(s@.skip(to as int).skip(1) =~= s@.skip(to + 1));
                to = to + 1;
            }
            proof {
                if to < s@.len() {
                    assert(s@.skip(to as int)[0] == s@[to as int]);
                }
                assert(word_len(rest) == to - from);
                lemma_word_len(rest);
            }
            let ghost before = rows(out@);
            out.push(copied(&s[from..to]));
            proof {
                assert(s@.subrange(from as int, to as int) =~= rest.take(to - from));
                assert(rows(out@) =~= before + seq![rest.take(to - from)]);
                assert(rest.skip(to - from) =~= s@.skip(to as int));
                let tail = words(s@.skip(to as int));
                assert(before + (seq![rest.take(to - from)] + tail) =~= rows(out@) + tail);
            }
            from = to;
        }
    }
    proof {
        assert(s@.skip(from as int) =~= Seq::<char>::empty());
        assert(rows(out@) + Seq::<Seq<char>>::empty() =~= rows(out@));
    }
    out
}

/// Collapses white space: the words of `s` with single spaces between them.
pub fn collapse(s: &[char]) -> (r: Vec<char>)
    ensures
        r@ == collapsed(s@),
{
    let space: Vec<char> = chars_of(" ");
    join(&words_of(s), space.as_slice())
}

/// Appends `n` spaces to `out`.
fn push_spaces(out: &mut Vec<char>, n: usize)
    ensures
        final(out)@ == old(out)@ + spaces(n as nat),
{
    let mut i: usize = 0;
    assert(old(out)@ + spaces(0) =~= old(out)@);
    while i < n
        invariant
            i <= n,
            out@ == old(out)@ + spaces(i as nat),
        decreases n - i,
    {
        out.push(' ');
        assert(old(out)@ + spaces((i + 1) as nat) =~= (old(out)@ + spaces(i as nat)).push(' '));
        i = i + 1;
    }
}

/// The text followed by the spaces that bring it to `width` characters.
pub fn pad_right(s: &[char], width: usize) -> (r: Vec<char>)
    ensures
        r@ == padded_right(s@, width as int),
{
    let mut out: Vec<char> = copied(s);
    if s.len() < width {
        push_spaces(&mut out, width - s.len());
    }
    out
}

/// The text after the spaces that bring it to `width` characters.
pub fn pad_left(s: &[char], width: usize) -> (r: Vec<char>)
    ensures
        r@ == padded_left(s@, width as int),
{
    let mut out: Vec<char> = Vec::new();
    if s.len() < width {
        push_spaces(&mut out, width - s.len());
        assert(out@ =~= spaces((width - s@.len()) as nat));
    }
    push_all(&mut out, s);
    assert(s@.len() >= width ==> out@ =~= s@);
    out
}

/// The text shortened to `max` characters, with an ellipsis where it was cut.
pub fn shorten(s: &[char], max: usize) -> (r: Vec<char>)
    ensures
        r@ == truncated(s@, max as int),
{
    if s.len() <= max {
        copied(s)
    } else {
        let keep: usize = if max >= 1 {
            max - 1
        } else {
            0
        };
        let mut out: Vec<char> = copied(&s[0..keep]);
        assert(s@.subrange(0, keep as int) =~= s@.take(keep as int));
        out.push('\u{2026}');
        out
    }
}

/// `s` when it has at most `max` characters; otherwise its beginning and an
/// ellipsis in the last place.
pub fn truncate(s: &str, max: usize) -> (r: String)
    ensures
        r@ == truncated(s@, max as int),
{
    let v: Vec<char> = chars_of(s);
    string_of(shorten(v.as_slice(), max).as_slice())
}

/// The character of a decimal digit.
fn digit_at(d: u64) -> (c: char)
    requires
        d < 10,
    ensures
        c == digit_char(d as int),
{
    ((d as u8) + 48u8) as char
}

/// Appends the decimal digits of `n` to `out`.
pub fn push_decimal(out: &mut Vec<char>, n: u64)
    ensures
        final(out)@ == old(out)@ + decimal(n as nat),
    decreases n,
{
    if n >= 10 {
        push_decimal(out, n / 10);
    }
    let ghost before = out@;
    out.push(digit_at(n % 10));
    proof {
        if n >= 10 {
            assert(out@ =~= old(out)@ + decimal(n as nat));
        } else {
            assert(out@ =~= old(out)@ + decimal(n as nat));
        }
    }
}

/// Appends the decimal form of `n` to `out`.
pub fn push_decimal_int(out: &mut Vec<char>, n: i64)
    requires
        n > i64::MIN,
    ensures
        final(out)@ == old(out)@ + decimal_int(n as int),
{
    if n < 0 {
        out.push('-');
        push_decimal(out, (-n) as u64);
        assert(out@ =~= old(out)@ + decimal_int(n as int));
    } else {
        push_decimal(out, n as u64);
    }
}

/// The value of a digit in bases up to sixteen; a large number when it is none.
fn digit_of(c: char) -> (d: u64)
    ensures
        d == digit_value(c),
{
    if c >= '0' && c <= '9' {
        c as u64 - 48
    } else if c >= 'a' && c <= 'f' {
        c as u64 - 87
    } else if c >= 'A' && c <= 'F' {
        c as u64 - 55
    } else {
        99
    }
}

/// The first digits of a number never stand for more than the number.
pub proof fn lemma_number_grows(s: Seq<char>, base: int, n: int)
    requires
        all_digits(s, base),
        base >= 1,
        0 <= n <= s.len(),
    ensures
        0 <= number(s.take(n), base) <= number(s, base),
    decreases s.len(),
{
    if s.len() == 0 {
        assert(s.take(n) =~= s);
    } else if n == s.len() {
        assert(s.take(n) =~= s);
        lemma_number_grows(s.drop_last(), base, 0);
        assert(s.drop_last().take(0) =~= Seq::<char>::empty());
        assert(number(s.drop_last(), base) * base >= 0) by (nonlinear_arith)
            requires
                number(s.drop_last(), base) >= 0,
                base >= 1,
        ;
        assert(digit_value(s.last()) >= 0);
    } else {
        lemma_number_grows(s.drop_last(), base, n);
        assert(s.drop_last().take(n) =~= s.take(n));
        assert(number(s.drop_last(), base) * base >= number(s.drop_last(), base)) by (nonlinear_arith)
            requires
                number(s.drop_last(), base) >= 0,
                base >= 1,
        ;
        assert(digit_value(s.last()) >= 0);
    }
}

/// The unsigned number that the text stands for, when it is at most `max`.
pub fn parse_unsigned(s: &[char], base: u64, max: u64) -> (r: Option<u64>)
    requires
        2 <= base <= 16,
        max <= 0xffff_ffff,
    ensures
        match r {
            Some(n) => parsed_unsigned(s@, base as int, max as int) == Some(n as int),
            None => parsed_unsigned(s@, base as int, max as int) is None,
        },
        r matches Some(n) ==> n <= max,
{
    let start: usize = if s.len() > 0 && s[0] == '+' {
        1
    } else {
        0
    };
    let digits: &[char] = &s[start..s.len()];
    assert(digits@ =~= s@.skip(start as int));
    assert(start == 0 ==> digits@ =~= s@);
    if digits.len() == 0 {
        return None;
    }
    let mut n: u64 = 0;
    let mut i: usize = 0;
    assert(digits@.take(0) =~= Seq::<char>::empty());
    while i < digits.len()
        invariant
            i <= digits@.len(),
            2 <= base <= 16,
            n <= max <= 0xffff_ffff,
            digits@.len() > 0,
            digits@ == (if s@.len() > 0 && s@[0] == '+' {
                s@.skip(1)
            } else {
                s@
            }),
            forall|j: int| 0 <= j < i ==> digit_value(#[trigger] digits@[j]) < base,
            n == number(digits@.take(i as int), base as int),
        decreases digits@.len() - i,
    {
        let d: u64 = digit_of(digits[i]);
        if d >= base {
            assert(!all_digits(digits@, base as int));
            return None;
        }
        assert(n * base <= 0xffff_ffff * 16) by (nonlinear_arith)
            requires
                n <= 0xffff_ffff,
                base <= 16,
        ;
        let next: u64 = n * base + d;
        proof {
            assert(digits@.take(i + 1).drop_last() =~= digits@.take(i as int));
            assert(digits@.take(i + 1).last() == digits@[i as int]);
            if next > max && all_digits(digits@, base as int) {
                lemma_number_grows(digits@, base as int, i + 1);
            }
        }
        if next > max {
            return None;
        }
        n = next;
        i = i + 1;
    }
    assert(digits@.take(i as int) =~= digits@);
    Some(n)
}

} // verus!
