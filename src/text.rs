use vstd::prelude::*;
use vstd::string::*;

use crate::strings::{push_char, push_str};

verus! {

/// regex's error for a pattern it cannot compile, carried through unopened.
#[verifier::external_type_specification]
#[verifier::external_body]
pub struct ExRegexError(regex::Error);

/// Whether regex accepts `pattern`.
pub uninterp spec fn pattern_compiles(pattern: Seq<char>) -> bool;

/// What regex makes of `text` when every match of `pattern` in it is replaced by `rep`.
pub uninterp spec fn regex_replaced(pattern: Seq<char>, text: Seq<char>, rep: Seq<char>) -> Seq<
    char,
>;

/// What textwrap's `fill` makes of `text` at `width` columns, wrapping first-fit,
/// with words never broken and never split at hyphens.
pub uninterp spec fn filled(text: Seq<char>, width: usize) -> Seq<char>;

/// The number of terminal columns that unicode-width gives `s`.
pub uninterp spec fn display_width(s: Seq<char>) -> usize;

/// Relies on regex's Regex::new, which compiles `pattern` or says why it
/// cannot, and Regex::replace_all, which replaces each leftmost-first,
/// non-overlapping match in `text` by `rep`.
#[verifier::external_body]
fn replace_all_matches(pattern: &str, text: &str, rep: &str) -> (r: Result<String, regex::Error>)
    ensures
        r is Ok <==> pattern_compiles(pattern@),
        r matches Ok(s) ==> s@ == regex_replaced(pattern@, text@, rep@),
{
    match regex::Regex::new(pattern) {
        Ok(re) => Ok(re.replace_all(text, rep).into_owned()),
        Err(e) => Err(e),
    }
}

/// Relies on textwrap's fill with Options::new(width), WrapAlgorithm::FirstFit,
/// break_words(false) and WordSplitter::NoHyphenation: greedy wrapping at
/// `width` columns, a word wider than that left whole on a line of its own,
/// lines joined by newlines.
#[verifier::external_body]
fn fill_text(text: &str, width: usize) -> (r: String)
    ensures
        r@ == filled(text@, width),
{
    let options = textwrap::Options::new(width)
        .wrap_algorithm(textwrap::WrapAlgorithm::FirstFit)
        .break_words(false)
        .word_splitter(textwrap::WordSplitter::NoHyphenation);
    textwrap::fill(text, options)
}

/// Relies on unicode-width's UnicodeWidthStr::width: the display width of `s`.
#[verifier::external_body]
fn str_width(s: &str) -> (r: usize)
    ensures
        r == display_width(s@),
{
    unicode_width::UnicodeWidthStr::width(s)
}

/// A run of whitespace other than a line break.
pub const BLANK_RUN: &'static str = "([^\\S\\r\\n])+";

/// Why a message could not be laid out.
#[derive(Clone, Copy, Debug, PartialEq, Eq, Structural)]
pub enum SayError {
    /// regex refused the pattern that finds runs of blanks.
    BlankPattern,
}

/// The message with each run of blanks (whitespace but line breaks) made one space.
pub open spec fn merged(input: Seq<char>) -> Seq<char> {
    regex_replaced(BLANK_RUN@, input, seq![' '])
}

/// Replaces every run of whitespace other than `\r` and `\n` by a single space.
pub fn merge_white_spaces(input: &str) -> (r: Result<String, SayError>)
    ensures
        r is Ok <==> pattern_compiles(BLANK_RUN@),
        r matches Ok(s) ==> s@ == merged(input@),
{
    let space = " ";
    proof {
        reveal_strlit(" ");
        assert(space@ =~= seq![' ']);
    }
    match replace_all_matches(BLANK_RUN, input, space) {
        Ok(s) => Ok(s),
        Err(_) => Err(SayError::BlankPattern),
    }
}

/// `c` with a final carriage return taken off.
pub open spec fn strip_cr(c: Seq<char>) -> Seq<char> {
    if c.len() > 0 && c.last() == '\r' {
        c.drop_last()
    } else {
        c
    }
}

/// The finished lines and the line under way after the first `i` characters of `s`.
pub open spec fn scan_lines(s: Seq<char>, i: nat) -> (Seq<Seq<char>>, Seq<char>)
    decreases i,
{
    if i == 0 {
        (Seq::empty(), Seq::empty())
    } else {
        let (done, cur) = scan_lines(s, (i - 1) as nat);
        if s[i - 1] == '\n' {
            (done.push(strip_cr(cur)), Seq::empty())
        } else {
            (done, cur.push(s[i - 1]))
        }
    }
}

/// The lines of `s`: split at `\n` or `\r\n`, which are dropped; a final line
/// break ends the last line and starts no new one.
pub open spec fn lines_of(s: Seq<char>) -> Seq<Seq<char>> {
    let (done, cur) = scan_lines(s, s.len());
    if cur.len() > 0 {
        done.push(cur)
    } else {
        done
    }
}

/// The text of each line.
pub open spec fn views(lines: Seq<String>) -> Seq<Seq<char>> {
    lines.map_values(|l: String| l@)
}

/// Splits `s` into its lines, as `lines_of` says.
pub fn split_lines(s: &str) -> (r: Vec<String>)
    ensures
        views(r@) == lines_of(s@),
{
    let n = s.unicode_len();
    let mut done: Vec<String> = Vec::new();
    let mut cur = String::new();
    let mut pending_cr = false;
    let mut i: usize = 0;
    while i < n
        invariant
            i <= n,
            n == s@.len(),
            views(done@) == scan_lines(s@, i as nat).0,
            scan_lines(s@, i as nat).1 == if pending_cr {
                cur@.push('\r')
            } else {
                cur@
            },
            !pending_cr ==> cur@.len() == 0 || cur@.last() != '\r',
        decreases n - i,
    {
        let c = s.get_char(i);
        if c == '\n' {
            proof {
                if pending_cr {
                    assert(cur@.push('\r').drop_last() =~= cur@);
                }
            }
            let line = cur;
            done.push(line);
            cur = String::new();
            pending_cr = false;
            assert(views(done@) =~= scan_lines(s@, (i + 1) as nat).0);
        } else if c == '\r' {
            if pending_cr {
                push_char(&mut cur, '\r');
            }
            pending_cr = true;
        } else {
            if pending_cr {
                push_char(&mut cur, '\r');
            }
            push_char(&mut cur, c);
            pending_cr = false;
        }
        i = i + 1;
    }
    if pending_cr {
        push_char(&mut cur, '\r');
    }
    if cur.unicode_len() > 0 {
        done.push(cur);
    }
    assert(views(done@) =~= lines_of(s@));
    done
}

/// The text wrapped by textwrap at `width` columns (see `filled`), as lines.
pub fn wrap_lines(text: &str, width: usize) -> (r: Vec<String>)
    ensures
        views(r@) == lines_of(filled(text@, width)),
{
    let wrapped = fill_text(text, width);
    split_lines(wrapped.as_str())
}

/// The display width of each line.
pub open spec fn widths_of(lines: Seq<Seq<char>>) -> Seq<usize> {
    lines.map_values(|l: Seq<char>| display_width(l))
}

/// The display width of each line, as unicode-width measures it.
pub fn line_widths(lines: &Vec<String>) -> (r: Vec<usize>)
    ensures
        r@ == widths_of(views(lines@)),
{
    let mut r: Vec<usize> = Vec::new();
    let mut i: usize = 0;
    while i < lines.len()
        invariant
            i <= lines.len(),
            r@ == widths_of(views(lines@)).subrange(0, i as int),
        decreases lines.len() - i,
    {
        let w = str_width(lines[i].as_str());
        r.push(w);
        i = i + 1;
        assert(r@ =~= widths_of(views(lines@)).subrange(0, i as int));
    }
    assert(r@ =~= widths_of(views(lines@)));
    r
}

} // verus!
