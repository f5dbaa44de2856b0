//! Where the lines of a report stand in its image.
//!
//! The program measures the lines with the font; the rows, their places and the
//! size of the image follow from the measures.

use vstd::prelude::*;

use crate::font::{fallen_back, with_font_fallback};
use crate::text::{
    chars_of, decimal, lines, lines_of, push_decimal, push_str, rows, string_of,
};

verus! {

/// The blank border, in dots.
pub const MARGIN: i32 = 8;

/// Where a line stands across the image.
#[derive(Debug, Clone, Copy, PartialEq, Eq, Structural)]
pub enum Align {
    /// At the left margin.
    Left,
    /// In the middle.
    Center,
}

/// How large a line is drawn.
#[derive(Debug, Clone, Copy, PartialEq, Eq, Structural)]
pub enum Size {
    /// The address at the top, shrunk where it would not fit.
    Title,
    /// The date below it, shrunk where it would not fit.
    Date,
    /// The report.
    Body,
}

/// One line of the image.
#[derive(Debug)]
pub struct Line {
    /// What it says.
    pub text: String,
    /// How large it is drawn.
    pub size: Size,
    /// Where it stands across the image.
    pub align: Align,
}

/// What the font says of a line.
#[derive(Debug, Clone, Copy)]
pub struct Measure {
    /// How many dots high it is, with the gap below it.
    pub height: i32,
    /// How many dots wide it is.
    pub width: u32,
    /// How many dots wide its first character is when drawn as an icon.
    pub icon_width: u32,
    /// How many dots down an icon is moved so that it stands on the same baseline.
    pub icon_shift: i32,
}

/// A piece of text and where it is drawn.
#[derive(Debug)]
pub struct Mark {
    /// The line that it belongs to.
    pub line: usize,
    /// What is drawn.
    pub text: String,
    /// Its left edge.
    pub x: i32,
    /// Its top edge.
    pub y: i32,
    /// Whether it is an icon, which is drawn larger than its line.
    pub icon: bool,
}

/// How an image is drawn.
#[derive(Debug)]
pub struct Drawing {
    /// Its height, in dots.
    pub height: u32,
    /// What is drawn, in order.
    pub marks: Vec<Mark>,
}

/// A width that no image can have.
#[derive(Debug, Clone, Copy)]
pub struct WidthError {
    /// The width.
    pub width: u32,
}

// --- Models ------------------------------------------------------------------

/// A line as sequences.
pub ghost struct LineText {
    pub text: Seq<char>,
    pub size: Size,
    pub align: Align,
}

impl Line {
    /// The line as sequences.
    pub open spec fn texts(self) -> LineText {
        LineText { text: self.text@, size: self.size, align: self.align }
    }
}

/// The lines as sequences.
pub open spec fn line_texts(s: Seq<Line>) -> Seq<LineText> {
    s.map_values(|l: Line| l.texts())
}

/// A mark as sequences.
pub ghost struct MarkText {
    pub line: int,
    pub text: Seq<char>,
    pub x: int,
    pub y: int,
    pub icon: bool,
}

impl Mark {
    /// The mark as sequences.
    pub open spec fn texts(self) -> MarkText {
        MarkText {
            line: self.line as int,
            text: self.text@,
            x: self.x as int,
            y: self.y as int,
            icon: self.icon,
        }
    }
}

/// The marks as sequences.
pub open spec fn mark_texts(s: Seq<Mark>) -> Seq<MarkText> {
    s.map_values(|m: Mark| m.texts())
}

/// The character lies in a private use area, where fonts keep their icons.
pub open spec fn icon(c: char) -> bool {
    ||| '\u{E000}' <= c <= '\u{F8FF}'
    ||| '\u{F0000}' <= c <= '\u{FFFFD}'
    ||| '\u{100000}' <= c <= '\u{10FFFD}'
}

/// The width is one that the printer takes: whole bytes, and at least one.
pub open spec fn width_ok(width: int) -> bool {
    width > 0 && width % 8 == 0
}

/// The line of a text as the font can show it.
pub open spec fn shown_line(font: Seq<u8>, text: Seq<char>, size: Size, align: Align) -> LineText {
    LineText { text: fallen_back(font, text), size, align }
}

/// The lines of an image: the address and the date in the middle, a blank line,
/// and the report.
pub open spec fn image_lines(
    font: Seq<u8>,
    address: Seq<char>,
    date: Seq<char>,
    report: Seq<char>,
) -> Seq<LineText> {
    seq![
        shown_line(font, address, Size::Title, Align::Center),
        shown_line(font, date, Size::Date, Align::Center),
        LineText { text: Seq::empty(), size: Size::Body, align: Align::Left },
    ] + lines(report).map_values(
        |l: Seq<char>| shown_line(font, l, Size::Body, Align::Left),
    )
}

/// The top edge of a line, or the bottom edge of the last one.
pub open spec fn top(measures: Seq<Measure>, i: int) -> int
    decreases i,
{
    if i <= 0 {
        MARGIN as int
    } else {
        top(measures, i - 1) + measures[i - 1].height
    }
}

/// The height of an image.
pub open spec fn image_height(measures: Seq<Measure>) -> int {
    let h = top(measures, measures.len() as int) + MARGIN;
    if h >= 1 {
        h
    } else {
        1
    }
}

/// The left edge of a line in the middle.
pub open spec fn centred(width: int, line: int) -> int {
    if line >= width {
        0
    } else {
        (width - line) / 2
    }
}

/// What is drawn for a line: nothing when it is empty; in the middle, the line;
/// at the left, the line, or an icon at its start and then the rest.
pub open spec fn line_marks(l: LineText, m: Measure, i: int, y: int, width: int) -> Seq<MarkText> {
    if l.text.len() == 0 {
        Seq::empty()
    } else if l.align == Align::Center {
        seq![MarkText { line: i, text: l.text, x: centred(width, m.width as int), y, icon: false }]
    } else if icon(l.text[0]) {
        seq![
            MarkText {
                line: i,
                text: l.text.take(1),
                x: MARGIN as int,
                y: y + m.icon_shift,
                icon: true,
            },
            MarkText {
                line: i,
                text: l.text.skip(1),
                x: MARGIN + m.icon_width,
                y,
                icon: false,
            },
        ]
    } else {
        seq![MarkText { line: i, text: l.text, x: MARGIN as int, y, icon: false }]
    }
}

/// What is drawn for the first `n` lines.
pub open spec fn image_marks(
    all: Seq<LineText>,
    measures: Seq<Measure>,
    width: int,
    n: int,
) -> Seq<MarkText>
    decreases n,
{
    if n <= 0 {
        Seq::empty()
    } else {
        image_marks(all, measures, width, n - 1) + line_marks(
            all[n - 1],
            measures[n - 1],
            n - 1,
            top(measures, n - 1),
            width,
        )
    }
}

/// The number fits in a coordinate.
pub open spec fn coordinate(n: int) -> bool {
    i32::MIN <= n <= i32::MAX
}

/// One line can be placed.
pub open spec fn line_fits(measures: Seq<Measure>, i: int) -> bool {
    &&& coordinate(top(measures, i + 1))
    &&& measures[i].width <= i32::MAX
    &&& coordinate(MARGIN + measures[i].icon_width)
    &&& coordinate(top(measures, i) + measures[i].icon_shift)
}

/// The lines can be placed without leaving the range of coordinates.
pub open spec fn fit(measures: Seq<Measure>, width: int) -> bool {
    &&& width <= i32::MAX
    &&& forall|i: int| 0 <= i < measures.len() ==> #[trigger] line_fits(measures, i)
    &&& coordinate(top(measures, measures.len() as int) + MARGIN)
}

impl WidthError {
    /// The error in words.
    pub open spec fn text(self) -> Seq<char> {
        "image width must be a positive multiple of 8 (got "@ + decimal(self.width as nat) + ")"@
    }
}

// --- Laws ---------------------------------------------------------------------

/// Lines that are not of negative height stand one below the other: none begins
/// before an earlier one has ended, and all lie between the upper and the lower
/// margin.
pub proof fn law_lines_do_not_overlap(measures: Seq<Measure>, i: int, j: int)
    requires
        0 <= i < j <= measures.len(),
        forall|k: int| 0 <= k < measures.len() ==> (#[trigger] measures[k]).height >= 0,
    ensures
        MARGIN <= top(measures, i),
        top(measures, i) + measures[i].height <= top(measures, j),
        top(measures, j) <= image_height(measures) - MARGIN,
{
    lemma_top_grows(measures, 0, i);
    lemma_top_grows(measures, i + 1, j);
    lemma_top_grows(measures, j, measures.len() as int);
}

proof fn lemma_top_grows(measures: Seq<Measure>, i: int, j: int)
    requires
        0 <= i <= j <= measures.len(),
        forall|k: int| 0 <= k < measures.len() ==> (#[trigger] measures[k]).height >= 0,
    ensures
        top(measures, i) <= top(measures, j),
    decreases j - i,
{
    if i < j {
        lemma_top_grows(measures, i, j - 1);
        assert(measures[j - 1].height >= 0);
    }
}

/// A line in the middle that fits lies within the image, and the space to its
/// right is that to its left or one dot more.
pub proof fn law_centred(width: int, line: int)
    requires
        0 <= line <= width,
    ensures
        0 <= centred(width, line),
        centred(width, line) + line <= width,
        0 <= width - line - 2 * centred(width, line) <= 1,
{
}

/// An image begins with the address in the largest letters and the date below it,
/// both in the middle; then, after an empty line, comes every line of the report, in
/// order, at the left.
pub proof fn law_every_line_is_in_the_image(
    font: &[u8],
    address: &str,
    date: &str,
    report: &str,
    r: Vec<Line>,
    i: int,
)
    requires
        call_ensures(lines_for, (font, address, date, report), r),
    ensures
        r@.len() == 3 + lines(report@).len(),
        r@[0].text@ == fallen_back(font@, address@) && r@[0].size == Size::Title && r@[0].align
            == Align::Center,
        r@[1].text@ == fallen_back(font@, date@) && r@[1].size == Size::Date && r@[1].align
            == Align::Center,
        r@[2].text@.len() == 0,
        0 <= i < lines(report@).len() ==> r@[3 + i].text@ == fallen_back(font@, lines(report@)[i])
            && r@[3 + i].size == Size::Body && r@[3 + i].align == Align::Left,
{
    let all = image_lines(font@, address@, date@, report@);
    let out = line_texts(r@);
    assert(out == all);
    assert(out.len() == r@.len());
    assert(out[0] == r@[0].texts() && out[1] == r@[1].texts() && out[2] == r@[2].texts());
    if 0 <= i < lines(report@).len() {
        assert(out[3 + i] == r@[3 + i].texts());
        assert(all[3 + i] == shown_line(font@, lines(report@)[i], Size::Body, Align::Left));
    }
}

proof fn lemma_line_drawn(
    all: Seq<LineText>,
    measures: Seq<Measure>,
    width: int,
    n: int,
    i: int,
)
    requires
        0 <= i < n <= all.len(),
        all[i].text.len() > 0,
    ensures
        ({
            let marks = image_marks(all, measures, width, n);
            exists|k: int| 0 <= k < marks.len() && (#[trigger] marks[k]).line == i && !marks[k].icon
                && marks[k].y == top(measures, i) && (marks[k].text == all[i].text || marks[k].text
                == all[i].text.skip(1) && exists|j: int|
                0 <= j < marks.len() && (#[trigger] marks[j]).line == i && marks[j].icon
                    && marks[j].text == all[i].text.take(1))
        }),
    decreases n,
{
    let marks = image_marks(all, measures, width, n);
    let before = image_marks(all, measures, width, n - 1);
    let last = line_marks(
        all[n - 1],
        measures[n - 1],
        n - 1,
        top(measures, n - 1),
        width,
    );
    assert(marks == before + last);
    if i < n - 1 {
        lemma_line_drawn(all, measures, width, n - 1, i);
        let k = choose|k: int|
            0 <= k < before.len() && (#[trigger] before[k]).line == i && !before[k].icon
                && before[k].y == top(measures, i) && (before[k].text == all[i].text
                || before[k].text == all[i].text.skip(1) && exists|j: int|
                0 <= j < before.len() && (#[trigger] before[j]).line == i && before[j].icon
                    && before[j].text == all[i].text.take(1));
        assert(marks[k] == before[k]);
        if before[k].text != all[i].text {
            let j = choose|j: int|
                0 <= j < before.len() && (#[trigger] before[j]).line == i && before[j].icon
                    && before[j].text == all[i].text.take(1);
            assert(marks[j] == before[j]);
        }
    } else {
        let b = before.len() as int;
        assert(marks[b] == last[0]);
        if last.len() > 1 {
            assert(marks[b + 1] == last[1]);
        }
    }
}

proof fn lemma_marks_of_lines(
    all: Seq<LineText>,
    measures: Seq<Measure>,
    width: int,
    n: int,
)
    requires
        0 <= n <= all.len(),
    ensures
        forall|k: int|
            0 <= k < image_marks(all, measures, width, n).len() ==> {
                let m = #[trigger] image_marks(all, measures, width, n)[k];
                &&& 0 <= m.line < n
                &&& all[m.line].text.len() > 0
                &&& all[m.line].align == Align::Left && !m.icon ==> m.x == (if icon(
                    all[m.line].text[0],
                ) {
                    MARGIN + measures[m.line].icon_width
                } else {
                    MARGIN as int
                })
                &&& m.icon ==> m.x == MARGIN && m.text == all[m.line].text.take(1) && icon(m.text[0])
                    && m.y == top(measures, m.line) + measures[m.line].icon_shift
                &&& all[m.line].align == Align::Center ==> m.x == centred(
                    width,
                    measures[m.line].width as int,
                ) && m.text == all[m.line].text
            },
    decreases n,
{
    if n > 0 {
        lemma_marks_of_lines(all, measures, width, n - 1);
        let before = image_marks(all, measures, width, n - 1);
        let marks = image_marks(all, measures, width, n);
        assert forall|k: int| 0 <= k < marks.len() implies {
            let m = #[trigger] marks[k];
            &&& 0 <= m.line < n
            &&& all[m.line].text.len() > 0
            &&& all[m.line].align == Align::Left && !m.icon ==> m.x == (if icon(
                all[m.line].text[0],
            ) {
                MARGIN + measures[m.line].icon_width
            } else {
                MARGIN as int
            })
            &&& m.icon ==> m.x == MARGIN && m.text == all[m.line].text.take(1) && icon(m.text[0])
                && m.y == top(measures, m.line) + measures[m.line].icon_shift
            &&& all[m.line].align == Align::Center ==> m.x == centred(
                width,
                measures[m.line].width as int,
            ) && m.text == all[m.line].text
        } by {
            if k < before.len() {
                assert(marks[k] == before[k]);
            }
        }
    }
}

/// Every line with text is drawn, all of it, at its place from the top: a line that
/// begins with an icon as the icon and what follows, and any other as one. A line in
/// the middle has as much room on its left as on its right.
pub proof fn law_every_line_is_drawn(
    all: &Vec<Line>,
    measures: &Vec<Measure>,
    width: u32,
    r: Drawing,
    i: int,
)
    requires
        all@.len() == measures@.len(),
        fit(measures@, width as int),
        call_ensures(arrange, (all, measures, width), r),
        0 <= i < all@.len(),
        all@[i].text@.len() > 0,
    ensures
        exists|k: int|
            0 <= k < r.marks@.len() && (#[trigger] r.marks@[k]).line == i && !r.marks@[k].icon
                && r.marks@[k].y == top(measures@, i) && (r.marks@[k].text@ == all@[i].text@
                || r.marks@[k].text@ == all@[i].text@.skip(1) && exists|j: int|
                0 <= j < r.marks@.len() && (#[trigger] r.marks@[j]).line == i && r.marks@[j].icon
                    && r.marks@[j].text@ == all@[i].text@.take(1)),
        forall|k: int|
            0 <= k < r.marks@.len() ==> (#[trigger] r.marks@[k]).line < all@.len()
                && all@[r.marks@[k].line as int].text@.len() > 0,
        forall|k: int|
            0 <= k < r.marks@.len() && all@[(#[trigger] r.marks@[k]).line as int].align
                == Align::Center && measures@[r.marks@[k].line as int].width <= width ==> 0 <= width
                - measures@[r.marks@[k].line as int].width - 2 * r.marks@[k].x <= 1,
        forall|k: int|
            0 <= k < r.marks@.len() && all@[(#[trigger] r.marks@[k]).line as int].align
                == Align::Left ==> r.marks@[k].x >= 8,
        forall|k: int|
            0 <= k < r.marks@.len() && (#[trigger] r.marks@[k]).icon ==> r.marks@[k].x == 8
                && r.marks@[k].y == top(measures@, r.marks@[k].line as int)
                + measures@[r.marks@[k].line as int].icon_shift,
        forall|k: int|
            0 <= k < r.marks@.len() && !(#[trigger] r.marks@[k]).icon
                && all@[r.marks@[k].line as int].align == Align::Left && icon(
                all@[r.marks@[k].line as int].text@[0],
            ) ==> r.marks@[k].x == 8 + measures@[r.marks@[k].line as int].icon_width,
{
    let texts = line_texts(all@);
    let n = all@.len() as int;
    let marks = image_marks(texts, measures@, width as int, n);
    assert(mark_texts(r.marks@) == marks);
    assert(marks.len() == r.marks@.len());
    assert(texts[i] == all@[i].texts());
    lemma_line_drawn(texts, measures@, width as int, n, i);
    lemma_marks_of_lines(texts, measures@, width as int, n);
    assert(forall|k: int|
        0 <= k < r.marks@.len() ==> marks[k] == (#[trigger] r.marks@[k]).texts());
    assert(forall|k: int| 0 <= k < n ==> #[trigger] texts[k] == all@[k].texts());
    let k = choose|k: int|
        0 <= k < marks.len() && (#[trigger] marks[k]).line == i && !marks[k].icon && marks[k].y
            == top(measures@, i) && (marks[k].text == texts[i].text || marks[k].text
            == texts[i].text.skip(1) && exists|j: int|
            0 <= j < marks.len() && (#[trigger] marks[j]).line == i && marks[j].icon
                && marks[j].text == texts[i].text.take(1));
    assert(r.marks@[k].line == i);
    if marks[k].text != texts[i].text {
        let j = choose|j: int|
            0 <= j < marks.len() && (#[trigger] marks[j]).line == i && marks[j].icon
                && marks[j].text == texts[i].text.take(1);
        assert(r.marks@[j].line == i);
    }
    assert forall|k: int| 0 <= k < r.marks@.len() implies (#[trigger] r.marks@[k]).line < all@.len()
        && all@[r.marks@[k].line as int].text@.len() > 0 by {
        let m = marks[k];
        assert(texts[m.line] == all@[m.line].texts());
    }
    assert forall|k: int|
        0 <= k < r.marks@.len() && all@[(#[trigger] r.marks@[k]).line as int].align == Align::Center
            && measures@[r.marks@[k].line as int].width <= width implies 0 <= width
        - measures@[r.marks@[k].line as int].width - 2 * r.marks@[k].x <= 1 by {
        let m = marks[k];
        assert(texts[m.line] == all@[m.line].texts());
        law_centred(width as int, measures@[m.line].width as int);
    }
    assert forall|k: int|
        0 <= k < r.marks@.len() && all@[(#[trigger] r.marks@[k]).line as int].align == Align::Left implies r.marks@[k].x
        >= 8 by {
        let m = marks[k];
        assert(texts[m.line] == all@[m.line].texts());
    }
    assert forall|k: int| 0 <= k < r.marks@.len() && (#[trigger] r.marks@[k]).icon implies r.marks@[k].x
        == 8 && r.marks@[k].y == top(measures@, r.marks@[k].line as int)
        + measures@[r.marks@[k].line as int].icon_shift by {
        let m = marks[k];
        assert(texts[m.line] == all@[m.line].texts());
    }
    assert forall|k: int|
        0 <= k < r.marks@.len() && !(#[trigger] r.marks@[k]).icon
            && all@[r.marks@[k].line as int].align == Align::Left && icon(
            all@[r.marks@[k].line as int].text@[0],
        ) implies r.marks@[k].x == 8 + measures@[r.marks@[k].line as int].icon_width by {
        let m = marks[k];
        assert(texts[m.line] == all@[m.line].texts());
    }
}

/// The icons of fonts lie in the three private use areas of Unicode.
pub proof fn law_icons_are_private(c: char, r: bool)
    requires
        call_ensures(is_icon, (c,), r),
    ensures
        r <==> {
            let n = c as int;
            0xe000 <= n <= 0xf8ff || 0xf0000 <= n <= 0xffffd || 0x100000 <= n <= 0x10fffd
        },
{
}

/// An image is as high as its lines together and the margins above and below.
pub proof fn law_one_more_line_of_image(measures: Seq<Measure>, m: Measure)
    requires
        forall|k: int| 0 <= k < measures.len() ==> (#[trigger] measures[k]).height >= 0,
        m.height >= 0,
    ensures
        image_height(Seq::empty()) == 16,
        image_height(measures.push(m)) == image_height(measures) + m.height,
        top(measures.push(m), measures.len() as int) == image_height(measures) - 8,
        top(measures, 0) == 8,
{
    let all = measures.push(m);
    lemma_same_tops(measures, all, measures.len() as int);
    lemma_top_grows(measures, 0, measures.len() as int);
}

proof fn lemma_same_tops(a: Seq<Measure>, b: Seq<Measure>, i: int)
    requires
        0 <= i <= a.len() <= b.len(),
        forall|k: int| 0 <= k < a.len() ==> #[trigger] a[k] == b[k],
    ensures
        top(a, i) == top(b, i),
    decreases i,
{
    if i > 0 {
        lemma_same_tops(a, b, i - 1);
        assert(a[i - 1] == b[i - 1]);
    }
}

/// An image is as wide as the printer takes: a positive number of whole bytes.
pub proof fn law_widths_are_whole_bytes(width: u32, r: Result<(), WidthError>)
    requires
        call_ensures(check_width, (width,), r),
    ensures
        r is Ok <==> exists|n: int| n > 0 && #[trigger] (8 * n) == width,
{
    if r is Ok {
        let n = width as int / 8;
        assert(8 * n == width);
    }
}

// --- Functions ----------------------------------------------------------------

/// Whether the character lies in a private use area, where fonts keep their
/// icons.
pub fn is_icon(c: char) -> (r: bool)
    ensures
        r == icon(c),
{
    ('\u{E000}' <= c && c <= '\u{F8FF}') || ('\u{F0000}' <= c && c <= '\u{FFFFD}') || (
    '\u{100000}' <= c && c <= '\u{10FFFD}')
}

/// Refuses a width that the printer does not take.
pub fn check_width(width: u32) -> (r: Result<(), WidthError>)
    ensures
        match r {
            Ok(()) => width_ok(width as int),
            Err(e) => !width_ok(width as int) && e.width == width,
        },
{
    if width == 0 || width % 8 != 0 {
        Err(WidthError { width })
    } else {
        Ok(())
    }
}

/// The lines of an image, as the font can show them.
pub fn lines_for(font: &[u8], address: &str, date: &str, report: &str) -> (r: Vec<Line>)
    ensures
        line_texts(r@) == image_lines(font@, address@, date@, report@),
{
    let mut out: Vec<Line> = Vec::new();
    out.push(
        Line {
            text: with_font_fallback(font, address),
            size: Size::Title,
            align: Align::Center,
        },
    );
    out.push(
        Line { text: with_font_fallback(font, date), size: Size::Date, align: Align::Center },
    );
    let none: Vec<char> = Vec::new();
    out.push(Line { text: string_of(none.as_slice()), size: Size::Body, align: Align::Left });
    let ghost f = |l: Seq<char>| shown_line(font@, l, Size::Body, Align::Left);
    let v: Vec<char> = chars_of(report);
    let all: Vec<Vec<char>> = lines_of(v.as_slice());
    let ghost start = line_texts(out@);
    let mut i: usize = 0;
    assert(line_texts(out@) =~= start + rows(all@).take(0).map_values(f));
    while i < all.len()
        invariant
            i <= all@.len(),
            f == (|l: Seq<char>| shown_line(font@, l, Size::Body, Align::Left)),
            line_texts(out@) == start + rows(all@).take(i as int).map_values(f),
        decreases all@.len() - i,
    {
        let ghost before = line_texts(out@);
        let line: String = string_of(all[i].as_slice());
        out.push(
            Line {
                text: with_font_fallback(font, line.as_str()),
                size: Size::Body,
                align: Align::Left,
            },
        );
        proof {
            let l = rows(all@)[i as int];
            assert(l == all@[i as int]@);
            assert(line_texts(out@) =~= before.push(f(l)));
            assert(rows(all@).take(i + 1).map_values(f) =~= rows(all@).take(
                i as int,
            ).map_values(f).push(f(l)));
            assert(line_texts(out@) =~= start + rows(all@).take(i + 1).map_values(f));
        }
        i = i + 1;
    }
    proof {
        assert(rows(all@).take(i as int) =~= lines(report@));
        assert(start =~= seq![
            shown_line(font@, address@, Size::Title, Align::Center),
            shown_line(font@, date@, Size::Date, Align::Center),
            LineText { text: Seq::empty(), size: Size::Body, align: Align::Left },
        ]);
    }
    out
}

/// Whether the lines can be placed without leaving the range of coordinates.
pub fn can_arrange(measures: &Vec<Measure>, width: u32) -> (r: bool)
    ensures
        r == fit(measures@, width as int),
{
    if width > 0x7fff_ffff {
        return false;
    }
    let mut y: i64 = MARGIN as i64;
    let mut i: usize = 0;
    while i < measures.len()
        invariant
            i <= measures@.len(),
            width <= i32::MAX,
            y == top(measures@, i as int),
            coordinate(y as int),
            forall|k: int| 0 <= k < i ==> #[trigger] line_fits(measures@, k),
        decreases measures@.len() - i,
    {
        let m: Measure = measures[i];
        let next: i64 = y + m.height as i64;
        assert(next == top(measures@, i + 1));
        let right: i64 = MARGIN as i64 + m.icon_width as i64;
        let shifted: i64 = y + m.icon_shift as i64;
        if next < -0x8000_0000 || next > 0x7fff_ffff || m.width > 0x7fff_ffff || right
            > 0x7fff_ffff || shifted < -0x8000_0000 || shifted > 0x7fff_ffff {
            assert(!line_fits(measures@, i as int));
            return false;
        }
        assert(line_fits(measures@, i as int));
        y = next;
        i = i + 1;
    }
    y + (MARGIN as i64) <= 0x7fff_ffff
}

fn push_mark(
    marks: &mut Vec<Mark>,
    line: usize,
    text: String,
    x: i32,
    y: i32,
    icon: bool,
)
    ensures
        mark_texts(final(marks)@) == mark_texts(old(marks)@).push(
            (MarkText { line: line as int, text: text@, x: x as int, y: y as int, icon }),
        ),
{
    marks.push(Mark { line, text, x, y, icon });
    assert(mark_texts(marks@) =~= mark_texts(old(marks)@).push(marks@.last().texts()));
}

/// Appends what is drawn for a line.
fn mark_line(marks: &mut Vec<Mark>, l: &Line, m: Measure, i: usize, y: i32, width: u32)
    requires
        width <= i32::MAX,
        m.width <= i32::MAX,
        coordinate(MARGIN + m.icon_width),
        coordinate(y + m.icon_shift),
    ensures
        mark_texts(final(marks)@) == mark_texts(old(marks)@) + line_marks(
            l.texts(),
            m,
            i as int,
            y as int,
            width as int,
        ),
{
    let v: Vec<char> = chars_of(l.text.as_str());
    let ghost before = mark_texts(marks@);
    if v.len() == 0 {
        assert(before + Seq::<MarkText>::empty() =~= before);
        return;
    }
    if l.align == Align::Center {
        let x: i32 = if m.width >= width {
            0
        } else {
            ((width - m.width) / 2) as i32
        };
        push_mark(marks, i, l.text.clone(), x, y, false);
    } else if is_icon(v[0]) {
        let first: &[char] = &v.as_slice()[0..1];
        let rest: &[char] = &v.as_slice()[1..v.len()];
        assert(first@ =~= l.text@.take(1));
        assert(rest@ =~= l.text@.skip(1));
        push_mark(marks, i, string_of(first), MARGIN, y + m.icon_shift, true);
        push_mark(marks, i, string_of(rest), MARGIN + m.icon_width as i32, y, false);
    } else {
        push_mark(marks, i, l.text.clone(), MARGIN, y, false);
    }
    assert(mark_texts(marks@) =~= before + line_marks(
        l.texts(),
        m,
        i as int,
        y as int,
        width as int,
    ));
}

/// Places the lines one below the other within the margins.
pub fn arrange(all: &Vec<Line>, measures: &Vec<Measure>, width: u32) -> (r: Drawing)
    requires
        all@.len() == measures@.len(),
        fit(measures@, width as int),
    ensures
        r.height == image_height(measures@),
        mark_texts(r.marks@) == image_marks(
            line_texts(all@),
            measures@,
            width as int,
            all@.len() as int,
        ),
{
    let mut marks: Vec<Mark> = Vec::new();
    let mut y: i32 = MARGIN;
    let mut i: usize = 0;
    assert(mark_texts(marks@) =~= Seq::<MarkText>::empty());
    while i < all.len()
        invariant
            i <= all@.len(),
            all@.len() == measures@.len(),
            fit(measures@, width as int),
            y == top(measures@, i as int),
            mark_texts(marks@) == image_marks(
                line_texts(all@),
                measures@,
                width as int,
                i as int,
            ),
        decreases all@.len() - i,
    {
        assert(line_fits(measures@, i as int));
        let m: Measure = measures[i];
        mark_line(&mut marks, &all[i], m, i, y, width);
        assert(line_texts(all@)[i as int] == all@[i as int].texts());
        assert(top(measures@, i + 1) == y + m.height);
        y = y + m.height;
        i = i + 1;
    }
    let total: i32 = y + MARGIN;
    let height: u32 = if total >= 1 {
        total as u32
    } else {
        1
    };
    Drawing { height, marks }
}

impl WidthError {
    /// The error in words.
    pub fn message(&self) -> (r: String)
        ensures
            r@ == self.text(),
    {
        let mut out: Vec<char> = chars_of("image width must be a positive multiple of 8 (got ");
        push_decimal(&mut out, self.width as u64);
        push_str(&mut out, ")");
        string_of(out.as_slice())
    }
}

} // verus!
