//! Tag-based way highlighting: a list of `(pattern, color)` pairs gives each
//! way the color of the first pattern matching any of its `"key/value"` tag
//! strings. Pattern matching is done by the regex crate behind trusted
//! wrappers; an uncompilable pattern is a recoverable error and matches
//! nothing.

use vstd::prelude::*;
use crate::data::{Data, Way};

verus! {

/// An RGB color with eight bits per channel.
#[derive(Clone, Copy, PartialEq, Eq, Structural, Debug)]
pub struct Color {
    pub r: u8,
    pub g: u8,
    pub b: u8,
}

impl Color {
    /// Builds a color from its channels.
    pub fn from_rgb(r: u8, g: u8, b: u8) -> (c: Color)
        ensures
            c == (Color { r, g, b }),
    {
        Color { r, g, b }
    }
}

/// The neutral color of a way no highlight pattern matches.
pub open spec fn default_way_color() -> Color {
    Color { r: 255u8, g: 255u8, b: 255u8 }
}

/// Whether the regex crate accepts `pat` as a pattern, under its default
/// build settings.
pub uninterp spec fn regex_valid(pat: Seq<char>) -> bool;

/// Whether `pat` matches anywhere in `text`: the result of compiling `pat`
/// with the regex crate and testing `text`, with an uncompilable pattern
/// matching nothing.
pub uninterp spec fn regex_matches(pat: Seq<char>, text: Seq<char>) -> bool;

/// Relies on regex::Regex::new and regex::Regex::is_match: whether a pattern
/// matches a text is a function of the two strings alone, and a pattern that
/// does not compile matches nothing.
#[verifier::external_body]
fn regex_is_match(pattern: &String, text: &String) -> (b: bool)
    ensures
        b == regex_matches(pattern@, text@),
{
    match regex::Regex::new(pattern.as_str()) {
        Ok(re) => re.is_match(text.as_str()),
        Err(_) => false,
    }
}

/// Relies on regex::Regex::new: whether a pattern compiles is a function of
/// the pattern alone; the rendering of the compile error is returned for an
/// invalid pattern.
#[verifier::external_body]
fn regex_compile_error(pattern: &String) -> (r: Option<String>)
    ensures
        r is None <==> regex_valid(pattern@),
{
    match regex::Regex::new(pattern.as_str()) {
        Ok(_) => None,
        Err(e) => Some(e.to_string()),
    }
}

/// A rejected highlight pattern: its position in the submitted list and the
/// rendering of the compile error.
pub struct HighlightError {
    pub index: usize,
    pub message: String,
}

/// Some tag of the way matches the pattern.
pub open spec fn way_matches_entry(w: Way, pat: Seq<char>) -> bool {
    exists|t: int| 0 <= t < w.tags@.len() && regex_matches(pat, #[trigger] w.tags@[t]@)
}

/// `c` is the display color of `w` under `highlights`: the color of the
/// first entry whose pattern matches any tag, or the neutral default.
pub open spec fn is_way_color(w: Way, highlights: Seq<(String, Color)>, c: Color) -> bool {
    if exists|i: int| 0 <= i < highlights.len() && way_matches_entry(w, (#[trigger] highlights[i]).0@) {
        exists|i: int|
            {
                &&& 0 <= i < highlights.len()
                &&& way_matches_entry(w, (#[trigger] highlights[i]).0@)
                &&& c == highlights[i].1
                &&& forall|j: int|
                    0 <= j < i ==> !way_matches_entry(w, (#[trigger] highlights[j]).0@)
            }
    } else {
        c == default_way_color()
    }
}

/// The display color of a way: the color of the first highlight entry whose
/// pattern matches any of the way's tags, or the neutral default.
pub fn way_color(way: &Way, highlights: &Vec<(String, Color)>) -> (c: Color)
    ensures
        is_way_color(*way, highlights@, c),
{
    let mut i: usize = 0;
    while i < highlights.len()
        invariant
            i <= highlights@.len(),
            forall|j: int|
                0 <= j < i ==> !way_matches_entry(*way, (#[trigger] highlights@[j]).0@),
        decreases highlights@.len() - i,
    {
        let tag_count: usize = way.tags.len();
        let mut t: usize = 0;
        while t < tag_count
            invariant
                i < highlights@.len(),
                tag_count == way.tags@.len(),
                t <= tag_count,
                forall|j: int|
                    0 <= j < i ==> !way_matches_entry(*way, (#[trigger] highlights@[j]).0@),
                forall|t2: int|
                    0 <= t2 < t ==> !regex_matches(highlights@[i as int].0@, (
                    #[trigger] way.tags@[t2])@),
            decreases tag_count - t,
        {
            if regex_is_match(&highlights[i].0, &way.tags[t]) {
                proof {
                    assert(way_matches_entry(*way, highlights@[i as int].0@));
                }
                return highlights[i].1;
            }
            t = t + 1;
        }
        proof {
            assert(!way_matches_entry(*way, highlights@[i as int].0@));
        }
        i = i + 1;
    }
    Color { r: 255, g: 255, b: 255 }
}

/// The display colors of every way under `highlights`, in way order. This is
/// the computed part of rebuilding the rendering collaborator's buffers.
pub fn way_colors(data: &Data, highlights: &Vec<(String, Color)>) -> (r: Vec<Color>)
    ensures
        r@.len() == data.ways@.len(),
        forall|w: int|
            0 <= w < data.ways@.len() ==> is_way_color(data.ways@[w], highlights@, #[trigger] r@[w]),
{
    let mut out: Vec<Color> = Vec::new();
    let mut w: usize = 0;
    while w < data.ways.len()
        invariant
            w <= data.ways@.len(),
            out@.len() == w,
            forall|w2: int|
                0 <= w2 < w ==> is_way_color(data.ways@[w2], highlights@, #[trigger] out@[w2]),
        decreases data.ways@.len() - w,
    {
        let c: Color = way_color(&data.ways[w], highlights);
        out.push(c);
        w = w + 1;
    }
    out
}

/// Checks every pattern of a highlight list in order and reports the first
/// one the regex crate rejects, if any.
pub fn check_highlight_patterns(highlights: &Vec<(String, Color)>) -> (r: Result<
    (),
    HighlightError,
>)
    ensures
        r is Ok <==> (forall|i: int|
            0 <= i < highlights@.len() ==> regex_valid((#[trigger] highlights@[i]).0@)),
        r is Err ==> {
            let e = r->Err_0;
            &&& e.index < highlights@.len()
            &&& !regex_valid(highlights@[e.index as int].0@)
            &&& forall|j: int| 0 <= j < e.index ==> regex_valid((#[trigger] highlights@[j]).0@)
        },
{
    let mut i: usize = 0;
    while i < highlights.len()
        invariant
            i <= highlights@.len(),
            forall|j: int| 0 <= j < i ==> regex_valid((#[trigger] highlights@[j]).0@),
        decreases highlights@.len() - i,
    {
        match regex_compile_error(&highlights[i].0) {
            Some(message) => {
                return Err(HighlightError { index: i, message });
            },
            None => {},
        }
        i = i + 1;
    }
    Ok(())
}

} // verus!
