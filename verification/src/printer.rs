//! What is sent to the printer or to a terminal in its place.

use vstd::prelude::*;

use crate::text::{
    all_ascii, ascii, chars_of, contains_text, copied, decimal, digit, law_decimal_reads_back,
    lemma_contains_more, lemma_number_grows, lemma_occurs_between, lines, lines_of, parse_unsigned, parsed_unsigned,
    push_all, push_str, rows, string_of, texts,
};

verus! {

/// The distance between printed lines, in dots.
pub const LINE_SPACING: u8 = 24;

/// How many characters of an image go to a terminal at a time.
pub const KITTY_CHUNK: usize = 4096;

/// Why an endpoint cannot be used.
#[derive(Debug)]
pub enum EndpointError {
    /// There is no colon in it.
    NoPort {
        /// The endpoint.
        endpoint: String,
    },
    /// Nothing stands before the colon.
    NoHost {
        /// The endpoint.
        endpoint: String,
    },
    /// What stands after the colon is no port.
    BadPort {
        /// The endpoint.
        endpoint: String,
        /// What stands after the colon.
        port: String,
    },
}

// --- Models ------------------------------------------------------------------

/// What is printed for a character: itself where it is plain, a bearing for an
/// arrow, a plain dash or quote for a fancy one, nothing for a degree sign, and
/// a space for anything else.
pub open spec fn printable(c: char) -> Seq<char> {
    if c == '\u{2191}' {
        seq!['N']
    } else if c == '\u{2193}' {
        seq!['S']
    } else if c == '\u{2190}' {
        seq!['W']
    } else if c == '\u{2192}' {
        seq!['E']
    } else if c == '\u{2196}' {
        seq!['N', 'W']
    } else if c == '\u{2197}' {
        seq!['N', 'E']
    } else if c == '\u{2198}' {
        seq!['S', 'E']
    } else if c == '\u{2199}' {
        seq!['S', 'W']
    } else if c == '\u{2013}' || c == '\u{2014}' || c == '\u{2015}' {
        seq!['-']
    } else if c == '\u{2018}' || c == '\u{2019}' {
        seq!['\'']
    } else if c == '\u{201C}' || c == '\u{201D}' {
        seq!['"']
    } else if c == '\u{00B0}' {
        Seq::empty()
    } else if ascii(c) {
        seq![c]
    } else {
        seq![' ']
    }
}

/// What is printed for a text.
pub open spec fn sanitized(s: Seq<char>) -> Seq<char>
    decreases s.len(),
{
    if s.len() == 0 {
        Seq::empty()
    } else {
        sanitized(s.drop_last()) + printable(s.last())
    }
}

/// The last index of a character.
pub open spec fn last_index(s: Seq<char>, c: char) -> Option<int>
    decreases s.len(),
{
    if s.len() == 0 {
        None
    } else if s.last() == c {
        Some(s.len() - 1)
    } else {
        last_index(s.drop_last(), c)
    }
}

/// The two parts of an endpoint were read, or it was refused.
pub open spec fn endpoint_read(
    endpoint: Seq<char>,
    r: Result<(Seq<char>, int), EndpointError>,
) -> bool {
    match last_index(endpoint, ':') {
        None => r matches Err(EndpointError::NoPort { endpoint: e }) && e@ == endpoint,
        Some(i) => if i == 0 {
            r matches Err(EndpointError::NoHost { endpoint: e }) && e@ == endpoint
        } else {
            match parsed_unsigned(endpoint.skip(i + 1), 10, 65535) {
                Some(port) => r == Ok::<(Seq<char>, int), EndpointError>((endpoint.take(i), port)),
                None => r matches Err(EndpointError::BadPort { endpoint: e, port: p }) && e@
                    == endpoint && p@ == endpoint.skip(i + 1),
            }
        },
    }
}

/// What was read of an endpoint, with its host as a sequence.
pub open spec fn endpoint_parts(r: Result<(String, u16), EndpointError>) -> Result<
    (Seq<char>, int),
    EndpointError,
> {
    match r {
        Ok((host, port)) => Ok((host@, port as int)),
        Err(e) => Err(e),
    }
}

/// The character for six bits.
pub open spec fn sextet(n: int) -> char {
    if n < 26 {
        (n + 65) as char
    } else if n < 52 {
        (n + 71) as char
    } else if n < 62 {
        (n - 4) as char
    } else if n == 62 {
        '+'
    } else {
        '/'
    }
}

/// Four characters for up to three bytes; missing bytes count as zero, and a
/// character that would stand for missing bytes alone is an equals sign.
pub open spec fn quartet(bytes: Seq<u8>) -> Seq<char> {
    let b0 = bytes[0] as int;
    let b1 = if bytes.len() > 1 {
        bytes[1] as int
    } else {
        0
    };
    let b2 = if bytes.len() > 2 {
        bytes[2] as int
    } else {
        0
    };
    seq![
        sextet(b0 / 4),
        sextet(b0 % 4 * 16 + b1 / 16),
        if bytes.len() > 1 {
            sextet(b1 % 16 * 4 + b2 / 64)
        } else {
            '='
        },
        if bytes.len() > 2 {
            sextet(b2 % 64)
        } else {
            '='
        },
    ]
}

/// Bytes in base 64, with padding.
pub open spec fn base64(data: Seq<u8>) -> Seq<char>
    decreases data.len(),
{
    if data.len() == 0 {
        Seq::empty()
    } else if data.len() <= 3 {
        quartet(data)
    } else {
        quartet(data.take(3)) + base64(data.skip(3))
    }
}

/// The six bits that a character stands for.
pub open spec fn sextet_value(c: char) -> int {
    if 'A' <= c <= 'Z' {
        c as int - 65
    } else if 'a' <= c <= 'z' {
        c as int - 71
    } else if '0' <= c <= '9' {
        c as int + 4
    } else if c == '+' {
        62
    } else {
        63
    }
}

/// The bytes that four characters stand for.
pub open spec fn triplet(q: Seq<char>) -> Seq<u8> {
    let v0 = sextet_value(q[0]);
    let v1 = sextet_value(q[1]);
    let v2 = sextet_value(q[2]);
    let v3 = sextet_value(q[3]);
    if q[2] == '=' {
        seq![(v0 * 4 + v1 / 16) as u8]
    } else if q[3] == '=' {
        seq![(v0 * 4 + v1 / 16) as u8, (v1 % 16 * 16 + v2 / 4) as u8]
    } else {
        seq![
            (v0 * 4 + v1 / 16) as u8,
            (v1 % 16 * 16 + v2 / 4) as u8,
            (v2 % 4 * 64 + v3) as u8,
        ]
    }
}

/// The bytes that a text in base 64 stands for.
pub open spec fn unbase64(s: Seq<char>) -> Seq<u8>
    decreases s.len(),
{
    if s.len() < 4 {
        Seq::empty()
    } else {
        triplet(s.take(4)) + unbase64(s.skip(4))
    }
}

/// A text cut into parts of `n` characters; the last may be shorter.
pub open spec fn chunks(s: Seq<char>, n: int) -> Seq<Seq<char>>
    decreases s.len(),
{
    if s.len() == 0 || n <= 0 {
        Seq::empty()
    } else if s.len() <= n {
        seq![s]
    } else {
        seq![s.take(n)] + chunks(s.skip(n), n)
    }
}

/// The texts one after the other.
pub open spec fn run_together(parts: Seq<Seq<char>>) -> Seq<char>
    decreases parts.len(),
{
    if parts.len() == 0 {
        Seq::empty()
    } else {
        parts.first() + run_together(parts.skip(1))
    }
}

/// The command that carries one part of an image to a terminal. The first also
/// says that a PNG follows and is to be shown; each says whether more follow.
pub open spec fn kitty_command(part: Seq<char>, first: bool, more: bool) -> Seq<char> {
    (if first {
        "\x1b_Gf=100,a=T,m="@
    } else {
        "\x1b_Gm="@
    }) + (if more {
        "1;"@
    } else {
        "0;"@
    }) + part + "\x1b\\"@
}

/// The commands for the parts from `from` on.
pub open spec fn kitty_commands(parts: Seq<Seq<char>>, from: int) -> Seq<char>
    decreases parts.len() - from,
{
    if from < 0 || from >= parts.len() {
        Seq::empty()
    } else {
        kitty_command(parts[from], from == 0, from + 1 < parts.len()) + kitty_commands(
            parts,
            from + 1,
        )
    }
}

/// What shows a PNG in a terminal: the commands, and a line feed that leaves the
/// cursor below the image. Nothing for no bytes.
pub open spec fn kitty_text(png: Seq<u8>) -> Seq<char> {
    let parts = chunks(base64(png), KITTY_CHUNK as int);
    if png.len() == 0 {
        Seq::empty()
    } else {
        kitty_commands(parts, 0) + "\n"@
    }
}

impl EndpointError {
    /// The error in words.
    pub open spec fn text(self) -> Seq<char> {
        match self {
            EndpointError::NoPort { endpoint } => "endpoint `"@ + endpoint@
                + "` must be in the form `host:port`"@,
            EndpointError::NoHost { endpoint } => "endpoint `"@ + endpoint@
                + "` is missing a host"@,
            EndpointError::BadPort { endpoint, port } => "endpoint `"@ + endpoint@
                + "` has an invalid port `"@ + port@ + "`"@,
        }
    }
}

// --- Laws ---------------------------------------------------------------------

/// Whatever the text, only plain characters are printed.
pub proof fn law_printed_text_is_ascii(s: Seq<char>)
    ensures
        all_ascii(sanitized(s)),
    decreases s.len(),
{
    if s.len() > 0 {
        law_printed_text_is_ascii(s.drop_last());
        let head = sanitized(s.drop_last());
        let tail = printable(s.last());
        assert forall|i: int| 0 <= i < sanitized(s).len() implies ascii(
            #[trigger] sanitized(s)[i],
        ) by {
            if i < head.len() {
                assert(sanitized(s)[i] == head[i]);
            } else {
                assert(sanitized(s)[i] == tail[i - head.len()]);
            }
        }
    }
}

/// Plain text is printed as it is.
pub proof fn law_plain_text_is_printed_as_it_is(s: Seq<char>)
    requires
        all_ascii(s),
    ensures
        sanitized(s) == s,
    decreases s.len(),
{
    if s.len() > 0 {
        assert(all_ascii(s.drop_last()));
        law_plain_text_is_printed_as_it_is(s.drop_last());
        assert(ascii(s[s.len() - 1]));
        assert(s.drop_last() + seq![s.last()] =~= s);
    } else {
        assert(sanitized(s) =~= s);
    }
}

proof fn lemma_last_index(s: Seq<char>, c: char)
    ensures
        match last_index(s, c) {
            None => !s.contains(c),
            Some(i) => 0 <= i < s.len() && s[i] == c && !s.skip(i + 1).contains(c),
        },
    decreases s.len(),
{
    if s.len() > 0 && s.last() != c {
        lemma_last_index(s.drop_last(), c);
        let t = s.drop_last();
        assert(s =~= t.push(s.last()));
        match last_index(t, c) {
            None => {
                if s.contains(c) {
                    let k = s.index_of(c);
                    assert(t[k] == c);
                }
            },
            Some(i) => {
                if s.skip(i + 1).contains(c) {
                    let k = s.skip(i + 1).index_of(c);
                    assert(s.skip(i + 1)[k] == s[i + 1 + k]);
                    assert(t.skip(i + 1)[k] == t[i + 1 + k]);
                    assert(t.skip(i + 1).contains(c));
                }
            },
        }
    } else if s.len() > 0 {
        assert(s.skip(s.len() as int) =~= Seq::<char>::empty());
    }
}

/// An endpoint that is accepted is its host, a colon and the digits of its port,
/// and no colon stands in what follows the host.
pub proof fn law_accepted_endpoint(endpoint: Seq<char>, host: Seq<char>, port: int)
    requires
        endpoint_read(endpoint, Ok((host, port))),
    ensures
        host.len() > 0,
        0 <= port <= 65535,
        exists|digits: Seq<char>|
            endpoint == host + seq![':'] + digits && !digits.contains(':') && #[trigger]
            parsed_unsigned(digits, 10, 65535) == Some(port),
{
    lemma_last_index(endpoint, ':');
    let i = last_index(endpoint, ':')->0;
    let digits = endpoint.skip(i + 1);
    assert(endpoint =~= host + seq![':'] + digits);
    assert(parsed_unsigned(digits, 10, 65535) == Some(port));
    let body = if digits[0] == '+' {
        digits.skip(1)
    } else {
        digits
    };
    lemma_number_grows(body, 10, 0);
}

proof fn lemma_sextet(n: int)
    requires
        0 <= n < 64,
    ensures
        sextet_value(sextet(n)) == n,
        sextet(n) != '=',
{
}

proof fn lemma_quartet(bytes: Seq<u8>)
    requires
        0 < bytes.len() <= 3,
    ensures
        quartet(bytes).len() == 4,
        triplet(quartet(bytes)) == bytes,
{
    let b0 = bytes[0] as int;
    let b1 = if bytes.len() > 1 {
        bytes[1] as int
    } else {
        0
    };
    let b2 = if bytes.len() > 2 {
        bytes[2] as int
    } else {
        0
    };
    lemma_sextet(b0 / 4);
    lemma_sextet(b0 % 4 * 16 + b1 / 16);
    lemma_sextet(b1 % 16 * 4 + b2 / 64);
    lemma_sextet(b2 % 64);
    assert(triplet(quartet(bytes)) =~= bytes);
}

/// What was encoded can be decoded again.
pub proof fn law_base64_can_be_undone(data: Seq<u8>)
    ensures
        unbase64(base64(data)) == data,
    decreases data.len(),
{
    if data.len() == 0 {
        assert(unbase64(base64(data)) =~= data);
    } else if data.len() <= 3 {
        lemma_quartet(data);
        let q = quartet(data);
        assert(q.take(4) =~= q);
        assert(q.skip(4) =~= Seq::<char>::empty());
        assert(triplet(q) + unbase64(q.skip(4)) =~= data);
    } else {
        lemma_quartet(data.take(3));
        law_base64_can_be_undone(data.skip(3));
        let q = quartet(data.take(3));
        let rest = base64(data.skip(3));
        assert((q + rest).take(4) =~= q);
        assert((q + rest).skip(4) =~= rest);
        assert(data.take(3) + data.skip(3) =~= data);
    }
}

/// Three bytes take four characters, and so do one or two left over.
pub proof fn law_base64_length(data: Seq<u8>)
    ensures
        base64(data).len() == (data.len() + 2) / 3 * 4,
    decreases data.len(),
{
    if data.len() > 3 {
        law_base64_length(data.skip(3));
        assert((data.len() + 2) / 3 == (data.skip(3).len() + 2) / 3 + 1);
    }
}

/// The parts of a text, one after the other, are the text, and none is empty or
/// longer than asked for.
pub proof fn law_chunks(s: Seq<char>, n: int)
    requires
        n > 0,
    ensures
        run_together(chunks(s, n)) == s,
        forall|i: int|
            0 <= i < chunks(s, n).len() ==> 0 < (#[trigger] chunks(s, n)[i]).len() <= n,
    decreases s.len(),
{
    let c = chunks(s, n);
    if s.len() == 0 {
        assert(run_together(c) =~= s);
    } else if s.len() <= n {
        assert(c.skip(1) =~= Seq::<Seq<char>>::empty());
        assert(run_together(c.skip(1)) =~= Seq::<char>::empty());
        assert(run_together(c) =~= s);
    } else {
        let rest = chunks(s.skip(n), n);
        law_chunks(s.skip(n), n);
        assert(c.skip(1) =~= rest);
        assert(s.take(n) + s.skip(n) =~= s);
        assert forall|i: int| 0 <= i < c.len() implies 0 < (#[trigger] c[i]).len() <= n by {
            if i > 0 {
                assert(c[i] == rest[i - 1]);
            }
        }
    }
}

/// What is printed of two texts is what is printed of the one and then of the other.
pub proof fn law_texts_are_printed_part_by_part(a: Seq<char>, b: Seq<char>)
    ensures
        sanitized(a + b) == sanitized(a) + sanitized(b),
    decreases b.len(),
{
    if b.len() == 0 {
        assert(a + b =~= a);
        assert(sanitized(a) + sanitized(b) =~= sanitized(a));
    } else {
        law_texts_are_printed_part_by_part(a, b.drop_last());
        assert((a + b).drop_last() =~= a + b.drop_last());
        assert((a + b).last() == b.last());
        assert(sanitized(a + b) =~= sanitized(a) + sanitized(b));
    }
}

/// A diagonal arrow is printed as the letters of the two it lies between; the dashes
/// are printed alike, and so are the quotation marks; the degree sign is left out,
/// and anything else that the printer lacks leaves a space.
pub proof fn law_stand_ins(c: char)
    ensures
        printable('\u{2196}') == printable('\u{2191}') + printable('\u{2190}'),
        printable('\u{2197}') == printable('\u{2191}') + printable('\u{2192}'),
        printable('\u{2198}') == printable('\u{2193}') + printable('\u{2192}'),
        printable('\u{2199}') == printable('\u{2193}') + printable('\u{2190}'),
        printable('\u{2191}') == "N"@ && printable('\u{2192}') == "E"@ && printable('\u{2193}')
            == "S"@ && printable('\u{2190}') == "W"@,
        '\u{2013}' <= c <= '\u{2015}' ==> printable(c) == "-"@,
        '\u{2018}' <= c <= '\u{2019}' ==> printable(c) == "'"@,
        '\u{201c}' <= c <= '\u{201d}' ==> printable(c) == "\""@,
        printable('\u{b0}').len() == 0,
        c > '\u{7f}' && c != '\u{b0}' && !('\u{2013}' <= c <= '\u{201d}') && !('\u{2190}' <= c
            <= '\u{2199}') ==> printable(c) == " "@,
{
    reveal_strlit("N");
    reveal_strlit("E");
    reveal_strlit("S");
    reveal_strlit("W");
    reveal_strlit("-");
    reveal_strlit("'");
    reveal_strlit("\"");
    reveal_strlit(" ");
    assert(printable('\u{2196}') =~= printable('\u{2191}') + printable('\u{2190}'));
    assert(printable('\u{2197}') =~= printable('\u{2191}') + printable('\u{2192}'));
    assert(printable('\u{2198}') =~= printable('\u{2193}') + printable('\u{2192}'));
    assert(printable('\u{2199}') =~= printable('\u{2193}') + printable('\u{2190}'));
    assert(printable('\u{2191}') =~= "N"@ && printable('\u{2192}') =~= "E"@ && printable('\u{2193}')
        =~= "S"@ && printable('\u{2190}') =~= "W"@);
    assert("-"@ =~= seq!['-'] && "'"@ =~= seq!['\''] && "\""@ =~= seq!['"'] && " "@ =~= seq![' ']);
}

/// Every line of a report is printed, in order.
pub proof fn law_every_line_is_printed(report: &str, r: Vec<String>)
    requires
        call_ensures(printed_lines, (report,), r),
    ensures
        r@.len() == lines(report@).len(),
        forall|i: int| 0 <= i < r@.len() ==> (#[trigger] r@[i])@ == sanitized(lines(report@)[i]),
{
    let all = lines(report@).map_values(|l: Seq<char>| sanitized(l));
    assert(texts(r@) == all);
    assert(texts(r@).len() == r@.len());
    assert forall|i: int| 0 <= i < r@.len() implies (#[trigger] r@[i])@ == sanitized(
        lines(report@)[i],
    ) by {
        assert(texts(r@)[i] == all[i]);
    }
}

/// A host and a port make an endpoint; one without a colon lacks the port, and one
/// that begins with its only colon lacks the host.
pub proof fn law_endpoints_are_read(
    endpoint: &str,
    r: Result<(String, u16), EndpointError>,
    host: Seq<char>,
    port: nat,
)
    requires
        call_ensures(parse_endpoint, (endpoint,), r),
        port <= 65535,
    ensures
        host.len() > 0 && endpoint@ == host + ":"@ + decimal(port) ==> r is Ok && (r->Ok_0).0@ == host
            && (r->Ok_0).1 == port,
        !endpoint@.contains(':') ==> r is Err && r->Err_0 is NoPort,
        endpoint@ == ":"@ + decimal(port) ==> r is Err && r->Err_0 is NoHost,
{
    reveal_strlit(":");
    let e = endpoint@;
    lemma_last_index(e, ':');
    law_decimal_reads_back(port, 65535);
    let d = decimal(port);
    if last_index(e, ':') is Some && (e == host + ":"@ + d || e == ":"@ + d) {
        let i = last_index(e, ':')->0;
        let n = if e == host + ":"@ + d {
            host.len() as int
        } else {
            0
        };
        assert(e[n] == ':');
        if i < n {
            assert(e.skip(i + 1)[n - i - 1] == ':');
        } else if i > n {
            assert(e[i] == d[i - n - 1]);
            assert(digit(d[i - n - 1]));
        }
        assert(i == n);
        assert(e.skip(i + 1) =~= d);
        if e == host + ":"@ + d {
            assert(e.take(i) =~= host);
        }
    }
    if e == host + ":"@ + d {
        assert(e[host.len() as int] == ':');
        assert(e.contains(':'));
    }
    if e == ":"@ + d {
        assert(e[0] == ':');
        assert(e.contains(':'));
    }
    match r {
        Ok((h, q)) => {
            assert(endpoint_parts(r) == Ok::<(Seq<char>, int), EndpointError>((h@, q as int)));
        },
        Err(x) => {
            assert(endpoint_parts(r) == Err::<(Seq<char>, int), EndpointError>(x));
        },
    }
}

/// The digits of the encoding are those of the usual alphabet, in its order.
pub proof fn law_base64_alphabet(n: int)
    requires
        0 <= n < 64,
    ensures
        sextet(n) == "ABCDEFGHIJKLMNOPQRSTUVWXYZabcdefghijklmnopqrstuvwxyz0123456789+/"@[n],
{
    reveal_strlit("ABCDEFGHIJKLMNOPQRSTUVWXYZabcdefghijklmnopqrstuvwxyz0123456789+/");
}

/// Three bytes at a time are encoded: those of a whole number of threes and then
/// the rest.
pub proof fn law_base64_goes_by_threes(a: Seq<u8>, b: Seq<u8>)
    requires
        a.len() % 3 == 0,
    ensures
        base64(a + b) == base64(a) + base64(b),
        a.len() >= 3 ==> base64(a)[0] == sextet(a[0] as int / 4) && base64(a)[3] == sextet(
            a[2] as int % 64,
        ),
        a.len() % 3 == 0 && b.len() == 1 ==> base64(a + b).len() >= 4 && base64(a + b).last() == '=',
    decreases a.len(),
{
    if a.len() == 0 {
        assert(a + b =~= b);
        assert(base64(a) + base64(b) =~= base64(b));
    } else {
        let rest = a.skip(3);
        law_base64_goes_by_threes(rest, b);
        assert(a.take(3) + rest =~= a);
        assert((a + b).skip(3) =~= rest + b);
        assert((a + b).take(3) =~= a.take(3));
        if a.len() == 3 {
            assert(a.take(3) =~= a);
            assert(rest =~= Seq::empty());
            assert(rest + b =~= b);
            if b.len() == 0 {
                assert(a + b =~= a);
                assert(base64(a) + base64(b) =~= base64(a));
            } else {
                assert(base64(a + b) =~= base64(a) + base64(b));
            }
        } else {
            assert(base64(a + b) =~= base64(a) + base64(b));
        }
    }
}

proof fn lemma_kitty_commands(parts: Seq<Seq<char>>, from: int, i: int)
    requires
        0 <= from <= i < parts.len(),
    ensures
        contains_text(
            kitty_commands(parts, from),
            kitty_command(parts[i], i == 0, i + 1 < parts.len()),
        ),
    decreases parts.len() - from,
{
    let here = kitty_command(parts[from], from == 0, from + 1 < parts.len());
    let rest = kitty_commands(parts, from + 1);
    let none = Seq::<char>::empty();
    if i == from {
        lemma_occurs_between(none, here, rest);
        assert(none + here + rest =~= here + rest);
    } else {
        lemma_kitty_commands(parts, from + 1, i);
        lemma_contains_more(
            rest,
            here,
            kitty_command(parts[i], i == 0, i + 1 < parts.len()),
        );
    }
}

/// An image goes to the terminal whole: every part of its encoding is there, each
/// in a command that says whether more follow, and the first also says what it is.
pub proof fn law_every_part_of_an_image_is_sent(png: &[u8], r: String, i: int)
    requires
        call_ensures(kitty_image, (png,), r),
        0 <= i < chunks(base64(png@), 4096).len(),
        png@.len() > 0,
    ensures
        ({
            let parts = chunks(base64(png@), 4096);
            contains_text(
                r@,
                (if i == 0 {
                    "\x1b_Gf=100,a=T,m="@
                } else {
                    "\x1b_Gm="@
                }) + (if i == parts.len() - 1 {
                    "0;"@
                } else {
                    "1;"@
                }) + parts[i] + "\x1b\\"@,
            )
        }),
{
    let parts = chunks(base64(png@), 4096);
    lemma_kitty_commands(parts, 0, i);
    lemma_contains_more(
        kitty_commands(parts, 0),
        "\n"@,
        kitty_command(parts[i], i == 0, i + 1 < parts.len()),
    );
}

// --- Functions ----------------------------------------------------------------

/// Appends what is printed for a character.
fn push_printable(out: &mut Vec<char>, c: char)
    ensures
        final(out)@ == old(out)@ + printable(c),
{
    let two: (char, char) = match c {
        '\u{2191}' => ('N', ' '),
        '\u{2193}' => ('S', ' '),
        '\u{2190}' => ('W', ' '),
        '\u{2192}' => ('E', ' '),
        '\u{2196}' => ('N', 'W'),
        '\u{2197}' => ('N', 'E'),
        '\u{2198}' => ('S', 'E'),
        '\u{2199}' => ('S', 'W'),
        '\u{2013}' | '\u{2014}' | '\u{2015}' => ('-', ' '),
        '\u{2018}' | '\u{2019}' => ('\'', ' '),
        '\u{201C}' | '\u{201D}' => ('"', ' '),
        '\u{00B0}' => (' ', ' '),
        _ => {
            if (c as u32) < 128 {
                (c, ' ')
            } else {
                (' ', ' ')
            }
        },
    };
    if c == '\u{00B0}' {
        assert(out@ + Seq::<char>::empty() =~= out@);
        return;
    }
    out.push(two.0);
    if c == '\u{2196}' || c == '\u{2197}' || c == '\u{2198}' || c == '\u{2199}' {
        out.push(two.1);
    }
    assert(out@ =~= old(out)@ + printable(c));
}

/// What is printed for a text. The printer reads one byte per character, so all
/// but plain characters are spelt out or left blank.
pub fn sanitize_for_printer(text: &str) -> (r: String)
    ensures
        r@ == sanitized(text@),
        all_ascii(r@),
{
    let v: Vec<char> = chars_of(text);
    let out: Vec<char> = sanitize(v.as_slice());
    proof {
        law_printed_text_is_ascii(text@);
    }
    string_of(out.as_slice())
}

fn sanitize(v: &[char]) -> (r: Vec<char>)
    ensures
        r@ == sanitized(v@),
{
    let mut out: Vec<char> = Vec::new();
    let mut i: usize = 0;
    while i < v.len()
        invariant
            i <= v@.len(),
            out@ == sanitized(v@.take(i as int)),
        decreases v@.len() - i,
    {
        push_printable(&mut out, v[i]);
        assert(v@.take(i + 1).drop_last() =~= v@.take(i as int));
        i = i + 1;
    }
    assert(v@.take(i as int) =~= v@);
    out
}

/// The lines of a report as they are printed.
pub fn printed_lines(report: &str) -> (r: Vec<String>)
    ensures
        texts(r@) == lines(report@).map_values(|l: Seq<char>| sanitized(l)),
{
    let v: Vec<char> = chars_of(report);
    let all: Vec<Vec<char>> = lines_of(v.as_slice());
    let ghost f = |l: Seq<char>| sanitized(l);
    let mut out: Vec<String> = Vec::new();
    let mut i: usize = 0;
    while i < all.len()
        invariant
            i <= all@.len(),
            out@.len() == i,
            f == (|l: Seq<char>| sanitized(l)),
            forall|k: int| 0 <= k < i ==> (#[trigger] out@[k])@ == sanitized(all@[k]@),
        decreases all@.len() - i,
    {
        let line: Vec<char> = sanitize(all[i].as_slice());
        out.push(string_of(line.as_slice()));
        i = i + 1;
    }
    proof {
        assert(rows(all@) == lines(report@));
        assert forall|k: int| 0 <= k < out@.len() implies texts(out@)[k] == lines(
            report@,
        ).map_values(f)[k] by {
            assert(rows(all@)[k] == all@[k]@);
        }
        assert(texts(out@) =~= lines(report@).map_values(f));
    }
    out
}

/// Splits an endpoint into its host and its port.
pub fn parse_endpoint(endpoint: &str) -> (r: Result<(String, u16), EndpointError>)
    ensures
        endpoint_read(endpoint@, endpoint_parts(r)),
{
    let v: Vec<char> = chars_of(endpoint);
    let mut n: usize = v.len();
    assert(v@.take(n as int) =~= v@);
    while n > 0
        invariant
            n <= v@.len(),
            v@ == endpoint@,
            last_index(v@.take(n as int), ':') == last_index(v@, ':'),
        decreases n,
    {
        assert(v@.take(n as int).drop_last() =~= v@.take(n - 1));
        let i: usize = n - 1;
        if v[i] == ':' {
            assert(last_index(v@, ':') == Some(i as int));
            if i == 0 {
                return Err(EndpointError::NoHost { endpoint: endpoint.to_string() });
            }
            let host: &[char] = &v.as_slice()[0..i];
            let port: &[char] = &v.as_slice()[n..v.len()];
            assert(host@ =~= endpoint@.take(i as int));
            assert(port@ =~= endpoint@.skip(i + 1));
            return match parse_unsigned(port, 10, 65535) {
                Some(p) => Ok((string_of(host), p as u16)),
                None => Err(
                    EndpointError::BadPort {
                        endpoint: endpoint.to_string(),
                        port: string_of(port),
                    },
                ),
            };
        }
        n = i;
    }
    Err(EndpointError::NoPort { endpoint: endpoint.to_string() })
}

/// The character for six bits.
fn sextet_char(n: u8) -> (c: char)
    requires
        n < 64,
    ensures
        c == sextet(n as int),
{
    let code: u8 = if n < 26 {
        n + 65
    } else if n < 52 {
        n + 71
    } else if n < 62 {
        n - 4
    } else if n == 62 {
        43
    } else {
        47
    };
    code as char
}

/// Appends the four characters for up to three bytes.
fn push_quartet(out: &mut Vec<char>, bytes: &[u8])
    requires
        0 < bytes@.len() <= 3,
    ensures
        final(out)@ == old(out)@ + quartet(bytes@),
{
    let b0: u8 = bytes[0];
    let b1: u8 = if bytes.len() > 1 {
        bytes[1]
    } else {
        0
    };
    let b2: u8 = if bytes.len() > 2 {
        bytes[2]
    } else {
        0
    };
    out.push(sextet_char(b0 / 4));
    out.push(sextet_char(b0 % 4 * 16 + b1 / 16));
    if bytes.len() > 1 {
        out.push(sextet_char(b1 % 16 * 4 + b2 / 64));
    } else {
        out.push('=');
    }
    if bytes.len() > 2 {
        out.push(sextet_char(b2 % 64));
    } else {
        out.push('=');
    }
    assert(out@ =~= old(out)@ + quartet(bytes@));
}

fn encode(data: &[u8]) -> (r: Vec<char>)
    ensures
        r@ == base64(data@),
{
    let mut out: Vec<char> = Vec::new();
    let mut from: usize = 0;
    assert(data@.skip(0) =~= data@);
    assert(out@ + base64(data@) =~= base64(data@));
    while from < data.len()
        invariant
            from <= data@.len(),
            out@ + base64(data@.skip(from as int)) == base64(data@),
        decreases data@.len() - from,
    {
        let left: usize = data.len() - from;
        let n: usize = if left < 3 {
            left
        } else {
            3
        };
        let part: &[u8] = &data[from..from + n];
        let ghost before = out@;
        push_quartet(&mut out, part);
        proof {
            let rest = data@.skip(from as int);
            if rest.len() <= 3 {
                assert(part@ =~= rest);
                assert(data@.skip(from + n) =~= Seq::<u8>::empty());
                assert(out@ + base64(data@.skip(from + n)) =~= out@);
            } else {
                assert(part@ =~= rest.take(3));
                assert(rest.skip(3) =~= data@.skip(from + n));
                let tail = base64(data@.skip(from + n));
                assert(before + (quartet(part@) + tail) =~= out@ + tail);
            }
        }
        from = from + n;
    }
    assert(data@.skip(from as int) =~= Seq::<u8>::empty());
    assert(out@ + base64(data@.skip(from as int)) =~= out@);
    out
}

/// Bytes in base 64, with padding.
pub fn base64_encode(data: &[u8]) -> (r: String)
    ensures
        r@ == base64(data@),
{
    let out: Vec<char> = encode(data);
    string_of(out.as_slice())
}

/// A text cut into parts of `n` characters.
fn cut(s: &[char], n: usize) -> (r: Vec<Vec<char>>)
    requires
        n > 0,
    ensures
        rows(r@) == chunks(s@, n as int),
{
    let mut out: Vec<Vec<char>> = Vec::new();
    let mut from: usize = 0;
    assert(s@.skip(0) =~= s@);
    assert(rows(out@) + chunks(s@, n as int) =~= chunks(s@, n as int));
    while from < s.len()
        invariant
            n > 0,
            from <= s@.len(),
            rows(out@) + chunks(s@.skip(from as int), n as int) == chunks(s@, n as int),
        decreases s@.len() - from,
    {
        let left: usize = s.len() - from;
        let m: usize = if left < n {
            left
        } else {
            n
        };
        let part: &[char] = &s[from..from + m];
        let ghost before = rows(out@);
        out.push(copied(part));
        proof {
            assert(rows(out@) =~= before + seq![part@]);
            let rest = s@.skip(from as int);
            let tail = chunks(s@.skip(from + m), n as int);
            if rest.len() <= n {
                assert(part@ =~= rest);
                assert(s@.skip(from + m) =~= Seq::<char>::empty());
                assert(rows(out@) + tail =~= rows(out@));
            } else {
                assert(part@ =~= rest.take(n as int));
                assert(rest.skip(n as int) =~= s@.skip(from + m));
                assert(before + (seq![part@] + tail) =~= rows(out@) + tail);
            }
        }
        from = from + m;
    }
    assert(s@.skip(from as int) =~= Seq::<char>::empty());
    assert(rows(out@) + chunks(s@.skip(from as int), n as int) =~= rows(out@));
    out
}

/// What shows a PNG in a terminal by the kitty graphics protocol.
pub fn kitty_image(png: &[u8]) -> (r: String)
    ensures
        r@ == kitty_text(png@),
{
    let encoded: Vec<char> = encode(png);
    if png.len() == 0 {
        let none: Vec<char> = Vec::new();
        return string_of(none.as_slice());
    }
    let parts: Vec<Vec<char>> = cut(encoded.as_slice(), KITTY_CHUNK);
    let ghost all = rows(parts@);
    let mut out: Vec<char> = Vec::new();
    let mut i: usize = 0;
    assert(out@ + kitty_commands(all, 0) =~= kitty_commands(all, 0));
    while i < parts.len()
        invariant
            i <= parts@.len(),
            all == rows(parts@),
            out@ + kitty_commands(all, i as int) == kitty_commands(all, 0),
        decreases parts@.len() - i,
    {
        let ghost before = out@;
        let mut line: Vec<char> = if i == 0 {
            chars_of("\x1b_Gf=100,a=T,m=")
        } else {
            chars_of("\x1b_Gm=")
        };
        if i + 1 < parts.len() {
            push_str(&mut line, "1;");
        } else {
            push_str(&mut line, "0;");
        }
        push_all(&mut line, parts[i].as_slice());
        push_str(&mut line, "\x1b\\");
        push_all(&mut out, line.as_slice());
        proof {
            assert(all[i as int] == parts@[i as int]@);
            let tail = kitty_commands(all, i + 1);
            assert(before + (line@ + tail) =~= out@ + tail);
        }
        i = i + 1;
    }
    assert(out@ + kitty_commands(all, i as int) =~= out@);
    push_str(&mut out, "\n");
    string_of(out.as_slice())
}

impl EndpointError {
    /// The error in words.
    pub fn message(&self) -> (r: String)
        ensures
            r@ == self.text(),
    {
        let mut out: Vec<char> = chars_of("endpoint `");
        match self {
            EndpointError::NoPort { endpoint } => {
                push_str(&mut out, endpoint.as_str());
                push_str(&mut out, "` must be in the form `host:port`");
            },
            EndpointError::NoHost { endpoint } => {
                push_str(&mut out, endpoint.as_str());
                push_str(&mut out, "` is missing a host");
            },
            EndpointError::BadPort { endpoint, port } => {
                push_str(&mut out, endpoint.as_str());
                push_str(&mut out, "` has an invalid port `");
                push_str(&mut out, port.as_str());
                push_str(&mut out, "`");
            },
        }
        string_of(out.as_slice())
    }
}

} // verus!
