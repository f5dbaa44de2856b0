//! The report: which sections it has, what they are called, and where it goes.

use vstd::prelude::*;

use crate::calendar::{meetings_ok, Meeting};
use crate::date::{
    compact_text, date_read, days_from, format_date, format_time, last_day, long_text,
    parse_date_by, parse_time_by, plus_days, time_read, Date, Time,
};
use crate::text::{
    begins_with, chars_of, contains_text, decimal, ends_with, lemma_contains_more, lemma_joined_holds, lemma_kept_part,
    lemma_occurs_between, white, decimal_int, join, joined, push_all, push_decimal_int, push_str, rows,
    same_str, string_of, text_of, trim_end, trimmed_end, two_digits,
};

verus! {

/// Where the report goes.
#[derive(Debug, Clone, Copy, PartialEq, Eq, Structural)]
pub enum Output {
    /// An image in a file.
    File,
    /// An image shown by the terminal.
    Inline,
    /// An image, as it is, to whatever reads the standard output.
    Bytes,
    /// Text on the standard output.
    Text,
    /// The bytes for the printer on the standard output.
    Raw,
    /// Text on the printer.
    PrintedText,
    /// An image on the printer.
    Printed,
}

/// How the report was asked for.
#[derive(Debug, Clone, Copy)]
pub struct Wanted {
    /// A file was named.
    pub file: bool,
    /// The standard output was asked for.
    pub stdout: bool,
    /// The bytes for the printer were asked for.
    pub raw: bool,
    /// Text was asked for.
    pub text: bool,
    /// An image was asked for.
    pub image: bool,
    /// The standard output is a terminal.
    pub terminal: bool,
}

/// Where a picture to print in place of the report comes from.
#[derive(Debug, Clone, Copy, PartialEq, Eq, Structural)]
pub enum PictureSource {
    /// There is none: the report is printed.
    Nowhere,
    /// A file.
    File,
    /// The standard input, which has to hold one.
    Input,
    /// The standard input, if it holds anything.
    Pipe,
}

/// The sections that follow the weather, as far as there are any.
#[derive(Debug)]
pub struct Sections {
    /// The meetings, where there are calendars.
    pub meetings: Option<Vec<Meeting>>,
    /// The departures.
    pub transport: Option<String>,
    /// The date of a bin collection, and what is collected.
    pub bins: Option<(Date, String)>,
}

// --- Models ------------------------------------------------------------------

/// The line between two sections.
pub open spec fn separator() -> Seq<char> {
    "\n\n----------------------------------------\n"@
}

/// A report with a section below it.
pub open spec fn with_section(report: Seq<char>, heading: Seq<char>, body: Seq<char>) -> Seq<char> {
    trimmed_end(report) + separator() + heading + "\n\n"@ + trimmed_end(body) + "\n"@
}

/// The lines of meetings.
pub open spec fn meeting_lines(meetings: Seq<Meeting>) -> Seq<Seq<char>> {
    meetings.map_values(|m: Meeting| m.shown())
}

/// What the section of meetings says.
pub open spec fn meetings_body(meetings: Seq<Meeting>) -> Seq<char> {
    if meetings.len() == 0 {
        "No meetings."@
    } else {
        joined(meeting_lines(meetings), "\n"@)
    }
}

/// What the section of meetings is called, `days` days from today.
pub open spec fn meetings_title(days: int) -> Seq<char> {
    if days == 0 {
        "Today's meetings"@
    } else if days == 1 {
        "Tomorrow's meetings"@
    } else {
        "Meetings"@
    }
}

/// What the section of departures is called.
pub open spec fn transport_title(at: Option<Time>) -> Seq<char> {
    match at {
        Some(t) => "Transport from "@ + t.text(),
        None => "Transport"@,
    }
}

/// What the section of bins is called, `days` days before the collection.
pub open spec fn bins_title(days: int) -> Seq<char> {
    if days == 0 {
        "Bin day today"@
    } else if days == 1 {
        "Bin day tomorrow"@
    } else {
        "Bin day in "@ + decimal_int(days) + " days"@
    }
}

/// Departures are looked up where any are wanted: the live ones of today, or
/// those of a given time on any day.
pub open spec fn transport_due(departures: int, is_today: bool, timed: bool) -> bool {
    departures > 0 && (is_today || timed)
}

/// The council says what comes next, so bins are shown for today and later days.
pub open spec fn bins_due(target: Date, today: Date) -> bool {
    !crate::date::earlier(target, today)
}

/// The date of the report: tomorrow where that was asked for, or else the date
/// that was given, or else today.
pub open spec fn date_wanted(today: Date, date: Option<Date>, tomorrow: bool, r: Date) -> bool {
    if tomorrow {
        r.wf() && r.number() == today.number() + 1
    } else {
        r == (match date {
            Some(d) => d,
            None => today,
        })
    }
}

/// Where the report goes.
pub open spec fn output_for(w: Wanted) -> Output {
    if w.file {
        Output::File
    } else if w.stdout {
        if !w.image {
            Output::Text
        } else if w.terminal {
            Output::Inline
        } else {
            Output::Bytes
        }
    } else if w.raw {
        Output::Raw
    } else if w.text {
        Output::PrintedText
    } else {
        Output::Printed
    }
}

/// Where a picture goes: into a file, to the standard output, or to the printer.
pub open spec fn picture_output_for(w: Wanted) -> Output {
    if w.file {
        Output::File
    } else if w.stdout {
        if w.terminal {
            Output::Inline
        } else {
            Output::Bytes
        }
    } else if w.raw {
        Output::Raw
    } else {
        Output::Printed
    }
}

/// Where a picture comes from: the file that is named, or the standard input
/// where that is named by a dash or where it does not come from a terminal.
pub open spec fn source_of(named: Option<Seq<char>>, piped: bool) -> PictureSource {
    match named {
        Some(name) => if name == "-"@ {
            PictureSource::Input
        } else {
            PictureSource::File
        },
        None => if piped {
            PictureSource::Pipe
        } else {
            PictureSource::Nowhere
        },
    }
}

/// Icons are shown in images, where the font has them.
pub open spec fn icons_for(w: Wanted, font_has_icons: bool) -> bool {
    !w.stdout && !w.raw && !w.text && font_has_icons
}

/// The report with the section of meetings.
pub open spec fn with_meetings(
    report: Seq<char>,
    meetings: Option<Seq<Meeting>>,
    target: Date,
    today: Date,
) -> Seq<char> {
    match meetings {
        Some(m) => with_section(
            report,
            meetings_title(target.number() - today.number()),
            meetings_body(m),
        ),
        None => report,
    }
}

/// The report with the section of departures.
pub open spec fn with_transport(
    report: Seq<char>,
    transport: Option<Seq<char>>,
    at: Option<Time>,
) -> Seq<char> {
    match transport {
        Some(body) => with_section(report, transport_title(at), body),
        None => report,
    }
}

/// The report with the section of bins.
pub open spec fn with_bins(
    report: Seq<char>,
    bins: Option<(Date, Seq<char>)>,
    target: Date,
) -> Seq<char> {
    match bins {
        Some((date, body)) => with_section(
            report,
            bins_title(date.number() - target.number()),
            body,
        ),
        None => report,
    }
}

impl Sections {
    /// The meetings.
    pub open spec fn meetings_shown(self) -> Option<Seq<Meeting>> {
        match self.meetings {
            Some(m) => Some(m@),
            None => None,
        }
    }

    /// The date of a collection, and what is collected.
    pub open spec fn bins_shown(self) -> Option<(Date, Seq<char>)> {
        match self.bins {
            Some((date, body)) => Some((date, body@)),
            None => None,
        }
    }

    /// A clock can show the meetings, and the date of the collection exists.
    pub open spec fn wf(self) -> bool {
        &&& self.meetings matches Some(m) ==> meetings_ok(m@)
        &&& self.bins matches Some((date, _)) ==> date.wf()
    }
}

/// The whole report: the weather, and below it the sections that there are.
pub open spec fn composed(
    weather: Seq<char>,
    s: Sections,
    target: Date,
    today: Date,
    at: Option<Time>,
) -> Seq<char> {
    with_bins(
        with_transport(
            with_meetings(weather, s.meetings_shown(), target, today),
            text_of(s.transport),
            at,
        ),
        s.bins_shown(),
        target,
    )
}

// --- Laws ---------------------------------------------------------------------

/// A section leaves what stands above it, up to the white space at its end.
pub proof fn law_a_section_keeps_the_report(
    report: Seq<char>,
    heading: Seq<char>,
    body: Seq<char>,
)
    ensures
        begins_with(with_section(report, heading, body), trimmed_end(report)),
{
    let all = with_section(report, heading, body);
    let head = trimmed_end(report);
    assert(all.subrange(0, head.len() as int) =~= head);
}

/// Without any section the report is the weather.
pub proof fn law_no_sections(
    weather: Seq<char>,
    s: Sections,
    target: Date,
    today: Date,
    at: Option<Time>,
)
    requires
        s.meetings is None,
        s.transport is None,
        s.bins is None,
    ensures
        composed(weather, s, target, today, at) == weather,
{
}

/// No departures are looked up where none are wanted, whatever the date or time.
pub proof fn law_no_departures_no_transport(is_today: bool, timed: bool)
    ensures
        !transport_due(0, is_today, timed),
{
}

/// Reports for the printer and for files go there as images, unless text was
/// asked for; icons are shown in no others.
pub proof fn law_icons_only_in_images(w: Wanted, font_has_icons: bool)
    requires
        icons_for(w, font_has_icons),
    ensures
        output_for(w) == Output::File || output_for(w) == Output::Printed,
{
}

/// What a text shows, but for white space at the end, stays in the report when a
/// section is put below it.
proof fn lemma_part_stays(report: Seq<char>, heading: Seq<char>, body: Seq<char>, part: Seq<char>)
    requires
        contains_text(report, part),
        part.len() > 0,
        !white(part.last()),
    ensures
        contains_text(with_section(report, heading, body), part),
{
    lemma_kept_part(report, part);
    let t = trimmed_end(report);
    let rest = separator() + heading + "\n\n"@ + trimmed_end(body) + "\n"@;
    assert(with_section(report, heading, body) =~= t + rest);
    lemma_contains_more(t, rest, part);
}

/// Everything is in the report: the weather, every meeting, the departures and the
/// bins, each under its heading. The heading of the meetings goes by how many days
/// the date of the report is ahead of today, that of the bins by how many days the
/// collection is ahead of the date of the report.
pub proof fn law_everything_is_in_the_report(
    weather: &str,
    s: &Sections,
    target: Date,
    today: Date,
    at: Option<Time>,
    r: String,
)
    requires
        call_ensures(compose, (weather, s, target, today, at), r),
    ensures
        forall|part: Seq<char>| #[trigger]
            contains_text(weather@, part) && part.len() > 0 && !white(part.last()) ==> contains_text(
                r@,
                part,
            ),
        s.meetings matches Some(m) ==> {
            &&& forall|i: int|
                0 <= i < m@.len() && (#[trigger] m@[i]).shown().len() > 0 && !white(
                    m@[i].shown().last(),
                ) ==> contains_text(r@, m@[i].shown())
            &&& m@.len() == 0 ==> contains_text(r@, "No meetings."@)
            &&& target.number() == today.number() ==> contains_text(r@, "Today's meetings"@)
            &&& target.number() == today.number() + 1 ==> contains_text(r@, "Tomorrow's meetings"@)
        },
        s.transport matches Some(body) ==> forall|part: Seq<char>| #[trigger]
            contains_text(body@, part) && part.len() > 0 && !white(part.last()) ==> contains_text(
                r@,
                part,
            ),
        s.bins matches Some((day, body)) ==> {
            &&& forall|part: Seq<char>| #[trigger]
                contains_text(body@, part) && part.len() > 0 && !white(part.last())
                    ==> contains_text(r@, part)
            &&& day.number() == target.number() ==> contains_text(r@, "Bin day today"@)
            &&& day.number() == target.number() + 1 ==> contains_text(r@, "Bin day tomorrow"@)
        },
{
    let w = weather@;
    let a = with_meetings(w, s.meetings_shown(), target, today);
    let b = with_transport(a, text_of(s.transport), at);
    let c = with_bins(b, s.bins_shown(), target);
    assert(r@ == c);
    reveal_strlit("No meetings.");
    reveal_strlit("Today's meetings");
    reveal_strlit("Tomorrow's meetings");
    reveal_strlit("Bin day today");
    reveal_strlit("Bin day tomorrow");
    assert forall|part: Seq<char>| #[trigger]
        contains_text(a, part) && part.len() > 0 && !white(part.last()) implies contains_text(
        b,
        part,
    ) && contains_text(c, part) by {
        lemma_transport_keeps(a, s, at, part);
        lemma_bins_keep(b, s, target, part);
    }
    assert forall|part: Seq<char>| #[trigger]
        contains_text(b, part) && part.len() > 0 && !white(part.last()) implies contains_text(
        c,
        part,
    ) by {
        lemma_bins_keep(b, s, target, part);
    }
    assert forall|part: Seq<char>| #[trigger]
        contains_text(w, part) && part.len() > 0 && !white(part.last()) implies contains_text(
        c,
        part,
    ) by {
        if let Some(m) = s.meetings {
            lemma_part_stays(
                w,
                meetings_title(target.number() - today.number()),
                meetings_body(m@),
                part,
            );
        }
        assert(contains_text(a, part));
    }
    if let Some(m) = s.meetings {
        let title = meetings_title(target.number() - today.number());
        let body = meetings_body(m@);
        assert forall|i: int|
            0 <= i < m@.len() && (#[trigger] m@[i]).shown().len() > 0 && !white(
                m@[i].shown().last(),
            ) implies contains_text(c, m@[i].shown()) by {
            let lines = meeting_lines(m@);
            assert(lines[i] == m@[i].shown());
            lemma_joined_holds(lines, "\n"@, i);
            lemma_body_shown(w, title, body, m@[i].shown());
            assert(contains_text(a, m@[i].shown()));
        }
        if m@.len() == 0 {
            let none = Seq::<char>::empty();
            lemma_occurs_between(none, body, none);
            assert(none + body + none =~= body);
            lemma_body_shown(w, title, body, "No meetings."@);
            assert(contains_text(a, "No meetings."@));
        }
        lemma_heading_shown(w, title, body);
        assert(contains_text(a, title));
    }
    if let Some(t) = s.transport {
        assert forall|part: Seq<char>| #[trigger]
            contains_text(t@, part) && part.len() > 0 && !white(part.last()) implies contains_text(
            c,
            part,
        ) by {
            lemma_body_shown(a, transport_title(at), t@, part);
            assert(contains_text(b, part));
        }
    }
    if let Some((day, t)) = s.bins {
        let title = bins_title(day.number() - target.number());
        assert forall|part: Seq<char>| #[trigger]
            contains_text(t@, part) && part.len() > 0 && !white(part.last()) implies contains_text(
            c,
            part,
        ) by {
            lemma_body_shown(b, title, t@, part);
        }
        lemma_heading_shown(b, title, t@);
    }
}

proof fn lemma_transport_keeps(a: Seq<char>, s: &Sections, at: Option<Time>, part: Seq<char>)
    requires
        contains_text(a, part),
        part.len() > 0,
        !white(part.last()),
    ensures
        contains_text(with_transport(a, text_of(s.transport), at), part),
{
    if let Some(t) = s.transport {
        lemma_part_stays(a, transport_title(at), t@, part);
    }
}

proof fn lemma_bins_keep(b: Seq<char>, s: &Sections, target: Date, part: Seq<char>)
    requires
        contains_text(b, part),
        part.len() > 0,
        !white(part.last()),
    ensures
        contains_text(with_bins(b, s.bins_shown(), target), part),
{
    if let Some((day, t)) = s.bins {
        lemma_part_stays(b, bins_title(day.number() - target.number()), t@, part);
    }
}

proof fn lemma_body_shown(report: Seq<char>, heading: Seq<char>, body: Seq<char>, part: Seq<char>)
    requires
        contains_text(body, part),
        part.len() > 0,
        !white(part.last()),
    ensures
        contains_text(with_section(report, heading, body), part),
{
    lemma_kept_part(body, part);
    let t = trimmed_end(body);
    let head = trimmed_end(report) + separator() + heading + "\n\n"@;
    assert(with_section(report, heading, body) =~= head + t + "\n"@);
    lemma_contains_more(t, head, part);
    lemma_contains_more(head + t, "\n"@, part);
}

proof fn lemma_heading_shown(report: Seq<char>, heading: Seq<char>, body: Seq<char>)
    ensures
        contains_text(with_section(report, heading, body), heading),
{
    let head = trimmed_end(report) + separator();
    let rest = "\n\n"@ + trimmed_end(body) + "\n"@;
    assert(with_section(report, heading, body) =~= head + heading + rest);
    lemma_occurs_between(head, heading, rest);
}

/// Departures are looked up for today, and for another day only at a given time;
/// bins are looked up for no day that is over.
pub proof fn law_what_is_looked_up(
    departures: usize,
    is_today: bool,
    timed: bool,
    target: Date,
    today: Date,
    transport: bool,
    bins: bool,
)
    requires
        target.wf(),
        today.wf(),
        call_ensures(wants_transport, (departures, is_today, timed), transport),
        call_ensures(wants_bins, (target, today), bins),
    ensures
        transport ==> departures > 0,
        transport && !is_today ==> timed,
        departures > 0 && is_today ==> transport,
        departures > 0 && timed ==> transport,
        bins <==> target.number() >= today.number(),
{
    crate::date::lemma_date_order(target, today);
}

/// The heading of the departures names the time they are looked up for; that of the
/// bins says how many days ahead the collection is.
pub proof fn law_headings(
    at: Option<Time>,
    transport: String,
    target: Date,
    date: Date,
    bins: String,
)
    requires
        at matches Some(t) ==> t.wf(),
        target.wf(),
        date.wf(),
        call_ensures(transport_heading, (at,), transport),
        call_ensures(bins_heading, (target, date), bins),
    ensures
        at matches Some(t) ==> ends_with(transport@, t.text()),
        begins_with(transport@, "Transport"@),
        date.number() - target.number() > 1 ==> contains_text(
            bins@,
            " "@ + decimal((date.number() - target.number()) as nat) + " days"@,
        ),
{
    reveal_strlit("Transport from ");
    reveal_strlit("Transport");
    let t = transport@;
    assert(t.subrange(0, 9) =~= "Transport"@);
    if let Some(w) = at {
        assert(t.subrange(t.len() - w.text().len(), t.len() as int) =~= w.text());
    }
    let days = date.number() - target.number();
    if days > 1 {
        reveal_strlit("Bin day in ");
        reveal_strlit("Bin day in");
        reveal_strlit(" ");
        assert("Bin day in "@ =~= "Bin day in"@ + " "@);
        let part = " "@ + decimal(days as nat) + " days"@;
        let none = Seq::<char>::empty();
        assert(bins@ =~= "Bin day in"@ + part + none);
        lemma_occurs_between("Bin day in"@, part, none);
    }
}

/// The report is for the day after today where that is asked for, and otherwise for
/// the date that is asked for, or today.
pub proof fn law_the_date_of_the_report(
    today: Date,
    date: Option<Date>,
    tomorrow: bool,
    r: Date,
)
    requires
        today.wf(),
        date matches Some(d) ==> d.wf(),
        tomorrow ==> today.number() < last_day(),
        call_ensures(report_date, (today, date, tomorrow), r),
    ensures
        tomorrow ==> r.number() - today.number() == 1,
        !tomorrow && date is Some ==> r == date->0,
        !tomorrow && date is None ==> r == today,
{
}

// --- Functions ----------------------------------------------------------------

/// A report with a section below it.
pub fn append_section(report: &str, heading: &str, body: &str) -> (r: String)
    ensures
        r@ == with_section(report@, heading@, body@),
{
    let above: Vec<char> = chars_of(report);
    let below: Vec<char> = chars_of(body);
    let mut out: Vec<char> = Vec::new();
    push_all(&mut out, trim_end(above.as_slice()));
    push_str(&mut out, "\n\n----------------------------------------\n");
    push_str(&mut out, heading);
    push_str(&mut out, "\n\n");
    push_all(&mut out, trim_end(below.as_slice()));
    push_str(&mut out, "\n");
    assert(Seq::<char>::empty() + trimmed_end(report@) =~= trimmed_end(report@));
    string_of(out.as_slice())
}

/// A report with the section of meetings below it.
pub fn append_meetings(report: &str, heading: &str, meetings: &[Meeting]) -> (r: String)
    requires
        meetings_ok(meetings@),
    ensures
        r@ == with_section(report@, heading@, meetings_body(meetings@)),
{
    if meetings.len() == 0 {
        return append_section(report, heading, "No meetings.");
    }
    let mut all: Vec<Vec<char>> = Vec::new();
    let mut i: usize = 0;
    while i < meetings.len()
        invariant
            i <= meetings@.len(),
            meetings_ok(meetings@),
            all@.len() == i,
            forall|k: int| 0 <= k < i ==> (#[trigger] all@[k])@ == meetings@[k].shown(),
        decreases meetings@.len() - i,
    {
        let line: String = meetings[i].line();
        all.push(chars_of(line.as_str()));
        i = i + 1;
    }
    let sep: Vec<char> = chars_of("\n");
    assert(rows(all@) =~= meeting_lines(meetings@));
    let body: Vec<char> = join(&all, sep.as_slice());
    let text: String = string_of(body.as_slice());
    append_section(report, heading, text.as_str())
}

/// What the section of meetings is called.
pub fn meetings_heading(target: Date, today: Date) -> (r: String)
    requires
        target.wf(),
        today.wf(),
    ensures
        r@ == meetings_title(target.number() - today.number()),
{
    let days: i64 = days_from(today, target);
    if days == 0 {
        "Today's meetings".to_string()
    } else if days == 1 {
        "Tomorrow's meetings".to_string()
    } else {
        "Meetings".to_string()
    }
}

/// What the section of departures is called.
pub fn transport_heading(at: Option<Time>) -> (r: String)
    requires
        at matches Some(t) ==> t.wf(),
    ensures
        r@ == transport_title(at),
{
    match at {
        Some(t) => {
            let mut out: Vec<char> = chars_of("Transport from ");
            push_str(&mut out, format_time(t).as_str());
            string_of(out.as_slice())
        },
        None => "Transport".to_string(),
    }
}

/// What the section of bins is called.
pub fn bins_heading(target: Date, date: Date) -> (r: String)
    requires
        target.wf(),
        date.wf(),
    ensures
        r@ == bins_title(date.number() - target.number()),
{
    let days: i64 = days_from(target, date);
    proof {
        crate::date::lemma_date_range(target);
        crate::date::lemma_date_range(date);
    }
    if days == 0 {
        "Bin day today".to_string()
    } else if days == 1 {
        "Bin day tomorrow".to_string()
    } else {
        let mut out: Vec<char> = chars_of("Bin day in ");
        push_decimal_int(&mut out, days);
        push_str(&mut out, " days");
        string_of(out.as_slice())
    }
}

/// Whether departures are looked up.
pub fn wants_transport(departures: usize, is_today: bool, timed: bool) -> (r: bool)
    ensures
        r == transport_due(departures as int, is_today, timed),
{
    departures > 0 && (is_today || timed)
}

/// Whether bins are looked up.
pub fn wants_bins(target: Date, today: Date) -> (r: bool)
    ensures
        r == bins_due(target, today),
{
    !crate::date::is_earlier(target, today)
}

/// The date of the report.
pub fn report_date(today: Date, date: Option<Date>, tomorrow: bool) -> (r: Date)
    requires
        today.wf(),
        date matches Some(d) ==> d.wf(),
        tomorrow ==> today.number() < last_day(),
    ensures
        r.wf(),
        date_wanted(today, date, tomorrow, r),
{
    if tomorrow {
        if let Some(d) = plus_days(today, 1) {
            return d;
        }
    }
    match date {
        Some(d) => d,
        None => today,
    }
}

/// The date as it stands at the top of the report, such as
/// `Wednesday, 15 July 2026`.
pub fn date_line(target: Date) -> (r: String)
    requires
        target.wf(),
    ensures
        r@ == long_text(target),
{
    format_date(target, "%A, %d %B %Y")
}

/// Where the report goes.
pub fn output(wanted: Wanted) -> (r: Output)
    ensures
        r == output_for(wanted),
{
    if wanted.file {
        Output::File
    } else if wanted.stdout {
        if !wanted.image {
            Output::Text
        } else if wanted.terminal {
            Output::Inline
        } else {
            Output::Bytes
        }
    } else if wanted.raw {
        Output::Raw
    } else if wanted.text {
        Output::PrintedText
    } else {
        Output::Printed
    }
}

/// Where a picture goes.
pub fn picture_output(wanted: Wanted) -> (r: Output)
    ensures
        r == picture_output_for(wanted),
{
    if wanted.file {
        Output::File
    } else if wanted.stdout {
        if wanted.terminal {
            Output::Inline
        } else {
            Output::Bytes
        }
    } else if wanted.raw {
        Output::Raw
    } else {
        Output::Printed
    }
}

/// Where a picture to print in place of the report comes from. An interactive run
/// never waits for the standard input.
pub fn picture_source(named: &Option<String>, piped: bool) -> (r: PictureSource)
    ensures
        r == source_of(text_of(*named), piped),
{
    match named {
        Some(name) => if same_str(name.as_str(), "-") {
            PictureSource::Input
        } else {
            PictureSource::File
        },
        None => if piped {
            PictureSource::Pipe
        } else {
            PictureSource::Nowhere
        },
    }
}

/// Whether icons are shown.
pub fn shows_icons(wanted: Wanted, font_has_icons: bool) -> (r: bool)
    ensures
        r == icons_for(wanted, font_has_icons),
{
    !wanted.stdout && !wanted.raw && !wanted.text && font_has_icons
}

/// A date given as `YYYYMMDD`.
pub fn parse_date(s: &str) -> (r: Result<Date, String>)
    ensures
        match date_read(s@, "%Y%m%d"@) {
            Some(d) => r == Ok::<Date, String>(d) && d.wf(),
            None => r matches Err(e) && e@ == "`"@ + s@
                + "` is not a valid date, expected YYYYMMDD"@,
        },
        forall|d: Date|
            d.wf() && 0 <= d.year <= 9999 && s@ == #[trigger] compact_text(d) ==> r == Ok::<
                Date,
                String,
            >(d),
{
    match parse_date_by(s, "%Y%m%d") {
        Some(d) => Ok(d),
        None => {
            let mut out: Vec<char> = chars_of("`");
            push_str(&mut out, s);
            push_str(&mut out, "` is not a valid date, expected YYYYMMDD");
            Err(string_of(out.as_slice()))
        },
    }
}

/// A time given as `HHMM` or `HH:MM`.
pub fn parse_time(s: &str) -> (r: Result<Time, String>)
    ensures
        match time_read(s@, "%H%M"@) {
            Some(t) => r == Ok::<Time, String>(t) && t.wf(),
            None => match time_read(s@, "%H:%M"@) {
                Some(t) => r == Ok::<Time, String>(t) && t.wf(),
                None => r matches Err(e) && e@ == "`"@ + s@
                    + "` is not a valid time, expected HHMM"@,
            },
        },
        forall|t: Time|
            t.wf() && s@ == two_digits(t.hour as int) + #[trigger] two_digits(t.minute as int)
                ==> r == Ok::<Time, String>(t),
{
    match parse_time_by(s, "%H%M") {
        Some(t) => Ok(t),
        None => match parse_time_by(s, "%H:%M") {
            Some(t) => Ok(t),
            None => {
                let mut out: Vec<char> = chars_of("`");
                push_str(&mut out, s);
                push_str(&mut out, "` is not a valid time, expected HHMM");
                Err(string_of(out.as_slice()))
            },
        },
    }
}

/// The whole report: the weather, and below it the sections that there are.
pub fn compose(
    weather: &str,
    sections: &Sections,
    target: Date,
    today: Date,
    at: Option<Time>,
) -> (r: String)
    requires
        sections.wf(),
        target.wf(),
        today.wf(),
        at matches Some(t) ==> t.wf(),
    ensures
        r@ == composed(weather@, *sections, target, today, at),
{
    let first: String = match &sections.meetings {
        Some(m) => {
            let heading: String = meetings_heading(target, today);
            append_meetings(weather, heading.as_str(), m.as_slice())
        },
        None => weather.to_string(),
    };
    let second: String = match &sections.transport {
        Some(body) => {
            let heading: String = transport_heading(at);
            append_section(first.as_str(), heading.as_str(), body.as_str())
        },
        None => first,
    };
    match &sections.bins {
        Some((date, body)) => {
            let heading: String = bins_heading(target, *date);
            append_section(second.as_str(), heading.as_str(), body.as_str())
        },
        None => second,
    }
}

} // verus!
