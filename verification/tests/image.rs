//! The lines of the image: what the font shows of them, and where they stand.

use receipter::font::{font_has_icons, has_glyph, pick, with_font_fallback};
use receipter::layout::{
    arrange, can_arrange, check_width, is_icon, lines_for, Align, Line, Measure, Size,
};

/// A table directory entry.
fn entry(out: &mut Vec<u8>, tag: &str, offset: usize, length: usize) {
    out.extend_from_slice(tag.as_bytes());
    out.extend_from_slice(&0u32.to_be_bytes());
    out.extend_from_slice(&(offset as u32).to_be_bytes());
    out.extend_from_slice(&(length as u32).to_be_bytes());
}

/// A font without outlines that has one glyph for each of the characters.
fn font(chars: &[char]) -> Vec<u8> {
    let mut known: Vec<char> = chars.to_vec();
    known.sort();
    let mut cmap: Vec<u8> = Vec::new();
    cmap.extend_from_slice(&[0, 0, 0, 1, 0, 0, 0, 4, 0, 0, 0, 12]);
    cmap.extend_from_slice(&[0, 12, 0, 0]);
    cmap.extend_from_slice(&((16 + 12 * known.len()) as u32).to_be_bytes());
    cmap.extend_from_slice(&0u32.to_be_bytes());
    cmap.extend_from_slice(&(known.len() as u32).to_be_bytes());
    for (i, c) in known.iter().enumerate() {
        cmap.extend_from_slice(&(*c as u32).to_be_bytes());
        cmap.extend_from_slice(&(*c as u32).to_be_bytes());
        cmap.extend_from_slice(&(i as u32 + 1).to_be_bytes());
    }
    let mut head: Vec<u8> = vec![0; 54];
    head[1] = 1;
    head[12..16].copy_from_slice(&0x5F0F3CF5u32.to_be_bytes());
    head[18..20].copy_from_slice(&1000u16.to_be_bytes());
    let mut hhea: Vec<u8> = vec![0; 36];
    hhea[1] = 1;
    hhea[4..6].copy_from_slice(&800u16.to_be_bytes());
    hhea[35] = 1;
    let mut maxp: Vec<u8> = vec![0, 0, 0x50, 0];
    maxp.extend_from_slice(&(known.len() as u16 + 1).to_be_bytes());
    let mut out: Vec<u8> = vec![0, 1, 0, 0, 0, 4, 0, 0, 0, 0, 0, 0];
    let mut at = 12 + 4 * 16;
    for (tag, table) in [("cmap", &cmap), ("head", &head), ("hhea", &hhea), ("maxp", &maxp)] {
        entry(&mut out, tag, at, table.len());
        at += (table.len() + 3) / 4 * 4;
    }
    for table in [&cmap, &head, &hhea, &maxp] {
        out.extend_from_slice(table);
        while out.len() % 4 != 0 {
            out.push(0);
        }
    }
    out
}

#[test]
fn a_font_shows_what_it_has_glyphs_for() {
    let f = font(&['A', '?', '\u{2500}']);
    assert!(has_glyph(&f, 'A'));
    assert!(!has_glyph(&f, 'B'));
    assert!(!has_glyph(b"no font", 'A'));
    assert_eq!(with_font_fallback(&f, "A B\u{2015}"), "A ?\u{2500}");
    assert_eq!(with_font_fallback(&font(&['A', '?']), "A B\u{2015}"), "A ??");
}

#[test]
fn what_stands_for_a_character() {
    assert_eq!(pick(' ', false, false), ' ');
    assert_eq!(pick('x', true, false), 'x');
    assert_eq!(pick('\u{2015}', false, true), '\u{2500}');
    assert_eq!(pick('\u{2015}', false, false), '?');
    assert_eq!(pick('x', false, true), '?');
}

#[test]
fn icons_need_both_glyphs() {
    assert!(font_has_icons(&font(&['\u{f207}', '\u{f238}'])));
    assert!(!font_has_icons(&font(&['\u{f238}'])));
    assert!(!font_has_icons(b""));
}

#[test]
fn icons_lie_in_private_use_areas() {
    assert!(is_icon('\u{f238}') && is_icon('\u{F0001}') && is_icon('\u{10FFFD}'));
    assert!(!is_icon('A') && !is_icon('\u{FFFFE}') && !is_icon('\u{FFFF}'));
}

#[test]
fn widths_are_whole_bytes() {
    assert!(check_width(576).is_ok());
    assert_eq!(
        check_width(0).unwrap_err().message(),
        "image width must be a positive multiple of 8 (got 0)"
    );
    assert_eq!(
        check_width(577).unwrap_err().message(),
        "image width must be a positive multiple of 8 (got 577)"
    );
}

#[test]
fn the_report_stands_below_its_header() {
    let f = font(&['A', 'B', 'C', '?']);
    let lines = lines_for(&f, "AB", "C", "A\nxB\n");
    let got: Vec<(&str, Size, Align)> =
        lines.iter().map(|l| (l.text.as_str(), l.size, l.align)).collect();
    assert_eq!(
        got,
        vec![
            ("AB", Size::Title, Align::Center),
            ("C", Size::Date, Align::Center),
            ("", Size::Body, Align::Left),
            ("A", Size::Body, Align::Left),
            ("?B", Size::Body, Align::Left),
        ]
    );
}

fn line(text: &str, align: Align) -> Line {
    Line { text: text.into(), size: Size::Body, align }
}

fn measure(height: i32, width: u32) -> Measure {
    Measure { height, width, icon_width: 20, icon_shift: -5 }
}

#[test]
fn lines_are_placed_one_below_the_other() {
    let lines = vec![
        line("title", Align::Center),
        line("", Align::Left),
        line("\u{f238}  Central", Align::Left),
        line("text", Align::Left),
        line("too wide", Align::Center),
    ];
    let measures =
        vec![measure(40, 101), measure(30, 0), measure(30, 80), measure(30, 60), measure(30, 700)];
    assert!(can_arrange(&measures, 576));
    let picture = arrange(&lines, &measures, 576);
    assert_eq!(picture.height, 8 + 160 + 8);
    let got: Vec<(usize, &str, i32, i32, bool)> =
        picture.marks.iter().map(|m| (m.line, m.text.as_str(), m.x, m.y, m.icon)).collect();
    assert_eq!(
        got,
        vec![
            (0, "title", 237, 8, false),
            (2, "\u{f238}", 8, 73, true),
            (2, "  Central", 28, 78, false),
            (3, "text", 8, 108, false),
            (4, "too wide", 0, 138, false),
        ]
    );
}

#[test]
fn lines_that_leave_the_range_of_coordinates_cannot_be_placed() {
    assert!(!can_arrange(&vec![measure(i32::MAX, 1)], 576));
    assert!(!can_arrange(&vec![measure(1, u32::MAX)], 576));
    assert!(!can_arrange(&vec![], u32::MAX));
    assert_eq!(arrange(&vec![line("x", Align::Left)], &vec![measure(-100, 5)], 8).height, 1);
}
