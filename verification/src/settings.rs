//! Settings that are taken where none are given.

use vstd::prelude::*;

use crate::text::{chars_of, push_str, string_of};

verus! {

/// The settings of the cache.
#[derive(Debug, Clone)]
pub struct CacheSettings {
    /// The path of its file.
    pub path: String,
    /// How many minutes a response is fresh for.
    pub ttl_minutes: i64,
}

/// The settings of the image. The size of the font is left to the program.
#[derive(Debug, Clone)]
pub struct ImageSettings {
    /// Its width in dots, a multiple of 8: 576 on paper 80 mm wide, 384 on paper
    /// 58 mm wide.
    pub width: u32,
    /// The path of its font.
    pub font: String,
}

/// What is logged: warnings; from `verbose` on 1, also what the program named
/// says of its work, and from 2 on, all that it says. One library warns of valid
/// calendars on every run, so only its errors are.
pub open spec fn filter_text(verbose: int, name: Seq<char>) -> Seq<char> {
    if verbose <= 0 {
        "warn,rrule=error"@
    } else if verbose == 1 {
        "warn,rrule=error,"@ + name + "=debug"@
    } else {
        "warn,rrule=error,"@ + name + "=trace"@
    }
}

impl Default for CacheSettings {
    fn default() -> (r: CacheSettings)
        ensures
            r.path@ == "cache.sqlite"@,
            r.ttl_minutes == 30,
    {
        CacheSettings { path: "cache.sqlite".to_string(), ttl_minutes: 30 }
    }
}

impl Default for ImageSettings {
    fn default() -> (r: ImageSettings)
        ensures
            r.width == 576,
            r.font@ == "fonts/JetBrainsMonoNerdFontMono-Regular.ttf"@,
    {
        ImageSettings {
            width: 576,
            font: "fonts/JetBrainsMonoNerdFontMono-Regular.ttf".to_string(),
        }
    }
}

/// What the program named logs, by how often it was told to say more.
pub fn log_filter(verbose: u8, name: &str) -> (r: String)
    ensures
        r@ == filter_text(verbose as int, name@),
{
    if verbose == 0 {
        return "warn,rrule=error".to_string();
    }
    let mut out: Vec<char> = chars_of("warn,rrule=error,");
    push_str(&mut out, name);
    if verbose == 1 {
        push_str(&mut out, "=debug");
    } else {
        push_str(&mut out, "=trace");
    }
    string_of(out.as_slice())
}

/// The more is asked for, the more is logged: warnings only, then what the program
/// does, then every step of it.
pub proof fn law_log_levels(verbose: int, name: Seq<char>)
    ensures
        crate::text::begins_with(filter_text(verbose, name), "warn,rrule=error"@),
        verbose <= 0 ==> filter_text(verbose, name) == filter_text(0, name)
            && filter_text(verbose, name) == filter_text(0, Seq::empty()),
        verbose == 1 ==> crate::text::ends_with(filter_text(verbose, name), name + "=debug"@),
        verbose >= 2 ==> crate::text::ends_with(filter_text(verbose, name), name + "=trace"@),
{
    reveal_strlit("warn,rrule=error");
    reveal_strlit("warn,rrule=error,");
    let s = filter_text(verbose, name);
    assert(s.subrange(0, 16) =~= "warn,rrule=error"@);
    if verbose == 1 {
        let t = name + "=debug"@;
        assert(s.subrange(s.len() - t.len(), s.len() as int) =~= t);
    } else if verbose >= 2 {
        let t = name + "=trace"@;
        assert(s.subrange(s.len() - t.len(), s.len() as int) =~= t);
    }
}

} // verus!
