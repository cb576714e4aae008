use vstd::prelude::*;

use crate::bubble::{
    bottom_border, bubble_text, frame_lines, framed_body, lemma_borders, lemma_max_of, max_of,
    top_border,
};
use crate::raster::Raster;
use crate::render::{convert_image_to_text, fitted_text, PixelMode};
use crate::strings::push_str;
use crate::text::{
    line_widths, lines_of, merge_white_spaces, merged, pattern_compiles, widths_of, wrap_lines,
    filled, SayError, BLANK_RUN,
};

verus! {

/// What follows the bubble when no image is given.
pub const MASCOT: &'static str = "
        \\
         \\
            _~^~^~_
        \\) /  o o  \\ (/
          '_   -   _'
          / '-----' \\
";

/// What leads from the bubble to the image drawn below it.
pub const CONNECTOR: &'static str = "\n        \\\n         \\\n";

/// The lines of `message` once blank runs are merged and it is wrapped at `max_width`.
pub open spec fn message_lines(message: Seq<char>, max_width: usize) -> Seq<Seq<char>> {
    lines_of(filled(merged(message), max_width))
}

/// The bubble around `message` wrapped at `max_width`.
pub open spec fn message_bubble(message: Seq<char>, max_width: usize) -> Seq<char> {
    let ls = message_lines(message, max_width);
    bubble_text(ls, widths_of(ls))
}

/// What laying out `message` at `max_width` and appending `tail` returns.
pub open spec fn framed_outcome(
    message: Seq<char>,
    max_width: usize,
    tail: Seq<char>,
    r: Result<String, SayError>,
) -> bool {
    &&& r is Ok <==> pattern_compiles(BLANK_RUN@)
    &&& r matches Ok(s) ==> s@ == message_bubble(message, max_width) + tail
    &&& r matches Err(e) ==> e == SayError::BlankPattern
}

/// Merges blank runs of `message`, wraps it at `max_width` columns and frames
/// it in a speech bubble (without a line break after the bottom border).
pub fn frame_message(message: &str, max_width: usize) -> (r: Result<String, SayError>)
    ensures
        framed_outcome(message@, max_width, Seq::empty(), r),
{
    match merge_white_spaces(message) {
        Ok(text) => {
            let lines = wrap_lines(text.as_str(), max_width);
            let widths = line_widths(&lines);
            let framed = frame_lines(&lines, &widths);
            assert(framed@ + Seq::<char>::empty() =~= framed@);
            Ok(framed)
        },
        Err(e) => Err(e),
    }
}

/// `message` in a bubble, followed by the mascot.
pub fn say(input: &str, max_width: usize) -> (r: Result<String, SayError>)
    ensures
        framed_outcome(input@, max_width, MASCOT@, r),
{
    match frame_message(input, max_width) {
        Ok(mut text) => {
            assert(text@ + Seq::<char>::empty() =~= text@);
            push_str(&mut text, MASCOT);
            Ok(text)
        },
        Err(e) => Err(e),
    }
}

/// `message` in a bubble, followed by `img` drawn in `mode` below it.
pub fn say_from_dynamic_image(img: &Raster, message: &str, max_width: usize, mode: PixelMode) -> (r:
    Result<String, SayError>)
    ensures
        framed_outcome(message@, max_width, CONNECTOR@ + fitted_text(*img, mode), r),
{
    match frame_message(message, max_width) {
        Ok(mut text) => {
            assert(text@ + Seq::<char>::empty() =~= text@);
            push_str(&mut text, CONNECTOR);
            let art = convert_image_to_text(img, mode);
            push_str(&mut text, art.as_str());
            assert(text@ =~= message_bubble(message@, max_width) + (CONNECTOR@ + fitted_text(*img, mode)));
            Ok(text)
        },
        Err(e) => Err(e),
    }
}

/// A successful layout is, in order: the top border (one space, then
/// underscores two more than the widest wrapped line, then a line break); each
/// wrapped line framed by its delimiters (see `lemma_delimiters`), in the
/// order of the lines; the bottom border (one space and as many dashes as
/// there are underscores above); then `tail`. No wrapped line is wider than
/// the bubble.
pub proof fn lemma_outcome_shape(
    message: Seq<char>,
    max_width: usize,
    tail: Seq<char>,
    r: Result<String, SayError>,
)
    requires
        framed_outcome(message, max_width, tail, r),
    ensures
        r matches Ok(s) ==> {
            let ls = message_lines(message, max_width);
            let ws = widths_of(ls);
            let aw = max_of(ws);
            let n = s@.len() - tail.len();
            &&& s@ == top_border(aw) + framed_body(ls, ws, aw, ls.len()) + bottom_border(aw) + tail
            &&& s@.subrange(0, aw + 4) == top_border(aw)
            &&& s@.subrange(n - (aw + 3), n) == bottom_border(aw)
            &&& s@.subrange(n, s@.len() as int) == tail
            &&& forall|i: int| 0 <= i < ws.len() ==> ws[i] <= aw
        },
{
    if r is Ok {
        let s = r->Ok_0;
        let ls = message_lines(message, max_width);
        let ws = widths_of(ls);
        let aw = max_of(ws);
        let b = bubble_text(ls, ws);
        lemma_borders(ls, ws);
        lemma_max_of(ws);
        assert(s@ == b + tail);
        assert(s@.subrange(0, aw + 4) =~= b.subrange(0, aw + 4));
        let n = s@.len() - tail.len();
        assert(s@.subrange(n - (aw + 3), n) =~= b.subrange(b.len() - (aw + 3), b.len() as int));
        assert(s@.subrange(n, s@.len() as int) =~= tail);
    }
}

/// Laying out the same message at the same width twice gives the same
/// outcome, text for text, whatever follows the bubble.
pub proof fn lemma_framing_repeatable(
    message: Seq<char>,
    max_width: usize,
    tail: Seq<char>,
    r1: Result<String, SayError>,
    r2: Result<String, SayError>,
)
    requires
        framed_outcome(message, max_width, tail, r1),
        framed_outcome(message, max_width, tail, r2),
    ensures
        r1 is Ok <==> r2 is Ok,
        r1 matches Ok(a) ==> (r2 matches Ok(b) && a@ == b@),
        r1 is Err ==> r1 == r2,
{
}

} // verus!
