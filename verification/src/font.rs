//! Which characters a font can show.

use vstd::prelude::*;

use crate::text::{chars_of, string_of};
use crate::transport::{BUS_ICON, TRAIN_ICON};

verus! {

/// The glyph that a font has for a character, by its number; nothing where the
/// bytes are no font.
pub uninterp spec fn glyph_in(font: Seq<u8>, c: char) -> Option<u16>;

/// `ab_glyph::FontRef::try_from_slice` and `ab_glyph::Font::glyph_id`: the number
/// of the glyph that a font has for a character, zero where it has none, and
/// nothing where the bytes are no font. Which glyph that is lies with the font.
#[verifier::external_body]
fn glyph_id(font: &[u8], c: char) -> (r: Option<u16>)
    ensures
        r == glyph_in(font@, c),
{
    match ab_glyph::FontRef::try_from_slice(font) {
        Ok(f) => Some(ab_glyph::Font::glyph_id(&f, c).0),
        Err(_) => None,
    }
}

// --- Models ------------------------------------------------------------------

/// The font has a glyph of its own for the character.
pub open spec fn shows(font: Seq<u8>, c: char) -> bool {
    glyph_in(font, c) matches Some(n) && n != 0
}

/// What stands for a character: itself where it is a space or the font shows it,
/// a drawn line for a horizontal bar where the font has that, and otherwise a
/// question mark.
pub open spec fn stand_in(c: char, shown: bool, line_shown: bool) -> char {
    if c == ' ' || shown {
        c
    } else if c == '\u{2015}' && line_shown {
        '\u{2500}'
    } else {
        '?'
    }
}

/// The text as a font can show it.
pub open spec fn fallen_back(font: Seq<u8>, text: Seq<char>) -> Seq<char> {
    text.map_values(|c: char| stand_in(c, shows(font, c), shows(font, '\u{2500}')))
}

// --- Laws ---------------------------------------------------------------------

/// Falling back keeps the length, so columns stay where they are, and every
/// character that comes out is one the font shows, a space or a question mark.
pub proof fn law_fallback(font: Seq<u8>, text: Seq<char>)
    ensures
        fallen_back(font, text).len() == text.len(),
        forall|i: int|
            0 <= i < text.len() ==> {
                let c = #[trigger] fallen_back(font, text)[i];
                shows(font, c) || c == ' ' || c == '?'
            },
{
}

/// A text keeps every character that the font can show, and every space; of the
/// others a horizontal bar becomes a line where the font has one, and the rest
/// question marks.
pub proof fn law_only_missing_characters_change(font: &[u8], text: &str, r: String, i: int)
    requires
        call_ensures(with_font_fallback, (font, text), r),
        0 <= i < text@.len(),
    ensures
        r@.len() == text@.len(),
        text@[i] == ' ' || (glyph_in(font@, text@[i]) is Some && glyph_in(font@, text@[i])->0 != 0)
            ==> r@[i] == text@[i],
        text@[i] != ' ' && (glyph_in(font@, text@[i]) is None || glyph_in(font@, text@[i])->0 == 0)
            ==> r@[i] == (if text@[i] == '\u{2015}' && glyph_in(font@, '\u{2500}') is Some
            && glyph_in(font@, '\u{2500}')->0 != 0 {
            '\u{2500}'
        } else {
            '?'
        }),
{
}

// --- Functions ----------------------------------------------------------------

/// Whether the font has a glyph of its own for the character.
pub fn has_glyph(font: &[u8], c: char) -> (r: bool)
    ensures
        r == shows(font@, c),
{
    match glyph_id(font, c) {
        Some(n) => n != 0,
        None => false,
    }
}

/// What stands for a character, from whether the font shows it and whether it
/// shows the drawn line.
pub fn pick(c: char, shown: bool, line_shown: bool) -> (r: char)
    ensures
        r == stand_in(c, shown, line_shown),
{
    if c == ' ' || shown {
        c
    } else if c == '\u{2015}' && line_shown {
        '\u{2500}'
    } else {
        '?'
    }
}

/// The text as a font can show it: what it has no glyph for would otherwise come
/// out as empty boxes.
pub fn with_font_fallback(font: &[u8], text: &str) -> (r: String)
    ensures
        r@ == fallen_back(font@, text@),
{
    let v: Vec<char> = chars_of(text);
    let line_shown: bool = has_glyph(font, '\u{2500}');
    let mut out: Vec<char> = Vec::new();
    let mut i: usize = 0;
    while i < v.len()
        invariant
            i <= v@.len(),
            v@ == text@,
            line_shown == shows(font@, '\u{2500}'),
            out@ == fallen_back(font@, text@.take(i as int)),
        decreases v@.len() - i,
    {
        out.push(pick(v[i], has_glyph(font, v[i]), line_shown));
        assert(out@ =~= fallen_back(font@, text@.take(i + 1)));
        i = i + 1;
    }
    assert(text@.take(i as int) =~= text@);
    string_of(out.as_slice())
}

/// Whether the font has the icons of trains and buses. Without them, labels
/// stand in their place.
pub fn font_has_icons(font: &[u8]) -> (r: bool)
    ensures
        r == (shows(font@, TRAIN_ICON) && shows(font@, BUS_ICON)),
{
    has_glyph(font, TRAIN_ICON) && has_glyph(font, BUS_ICON)
}

} // verus!
