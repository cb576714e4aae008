use vstd::prelude::*;

use crate::strings::{push_char, push_str};
use crate::text::{line_widths, views, widths_of};

verus! {

/// The largest of `ws`, or 0 when there is none.
pub open spec fn max_of(ws: Seq<usize>) -> usize
    decreases ws.len(),
{
    if ws.len() == 0 {
        0
    } else {
        let m = max_of(ws.drop_last());
        if ws.last() > m {
            ws.last()
        } else {
            m
        }
    }
}

/// `n` copies of `c`.
pub open spec fn repeat(c: char, n: nat) -> Seq<char> {
    Seq::new(n, |_i: int| c)
}

/// What opens line `i` of a bubble of `n` lines.
pub open spec fn line_prefix(i: int, n: int) -> Seq<char> {
    if n == 1 {
        seq!['<', ' ']
    } else if i == 0 {
        seq!['/', ' ']
    } else if i == n - 1 {
        seq!['\\', ' ']
    } else {
        seq!['|', ' ']
    }
}

/// What closes line `i` of a bubble of `n` lines, with its line break.
pub open spec fn line_suffix(i: int, n: int) -> Seq<char> {
    if n == 1 {
        seq![' ', '>', '\n']
    } else if i == 0 {
        seq![' ', '\\', '\n']
    } else if i == n - 1 {
        seq![' ', '/', '\n']
    } else {
        seq![' ', '|', '\n']
    }
}

/// The spaces that bring a line of width `w` to `width` columns.
pub open spec fn padding(w: usize, width: usize) -> Seq<char> {
    if w < width {
        repeat(' ', (width - w) as nat)
    } else {
        Seq::empty()
    }
}

/// Line `i` of `n` framed in a bubble `width` columns wide.
pub open spec fn framed_line(line: Seq<char>, w: usize, width: usize, i: int, n: int) -> Seq<
    char,
> {
    line_prefix(i, n) + line + padding(w, width) + line_suffix(i, n)
}

/// The first `k` lines framed.
pub open spec fn framed_body(lines: Seq<Seq<char>>, ws: Seq<usize>, width: usize, k: nat) -> Seq<
    char,
>
    decreases k,
{
    if k == 0 {
        Seq::empty()
    } else {
        framed_body(lines, ws, width, (k - 1) as nat) + framed_line(
            lines[k - 1],
            ws[k - 1],
            width,
            k - 1,
            lines.len() as int,
        )
    }
}

/// The border above a bubble `width` columns wide.
pub open spec fn top_border(width: usize) -> Seq<char> {
    seq![' '] + repeat('_', (width + 2) as nat) + seq!['\n']
}

/// The border below a bubble `width` columns wide, without a line break.
pub open spec fn bottom_border(width: usize) -> Seq<char> {
    seq![' '] + repeat('-', (width + 2) as nat)
}

/// The bubble around `lines`, whose display widths are `ws`: as wide as the
/// widest line, each line padded to that width.
pub open spec fn bubble_text(lines: Seq<Seq<char>>, ws: Seq<usize>) -> Seq<char> {
    let width = max_of(ws);
    top_border(width) + framed_body(lines, ws, width, lines.len()) + bottom_border(width)
}

/// The bubble is as wide as its widest line: no line is wider than `max_of`,
/// and, when there are lines, one of them is exactly that wide.
pub proof fn lemma_max_of(ws: Seq<usize>)
    ensures
        forall|i: int| 0 <= i < ws.len() ==> ws[i] <= max_of(ws),
        ws.len() > 0 ==> exists|i: int| 0 <= i < ws.len() && ws[i] == max_of(ws),
        ws.len() == 0 ==> max_of(ws) == 0,
    decreases ws.len(),
{
    if ws.len() > 0 {
        lemma_max_of(ws.drop_last());
        assert forall|i: int| 0 <= i < ws.len() implies ws[i] <= max_of(ws) by {
            if i < ws.len() - 1 {
                assert(ws[i] == ws.drop_last()[i]);
            }
        }
        if ws.last() <= max_of(ws.drop_last()) && ws.len() > 1 {
            let j = choose|j: int| 0 <= j < ws.drop_last().len() && ws.drop_last()[j] == max_of(ws.drop_last());
            assert(ws[j] == max_of(ws));
        }
    }
}

/// The borders of a bubble: above, one space and `width + 2` underscores, then
/// a line break; below, one space and `width + 2` dashes; `width` is the widest
/// line's display width, so both borders have the same length.
pub proof fn lemma_borders(lines: Seq<Seq<char>>, ws: Seq<usize>)
    ensures
        ({
            let width = max_of(ws);
            let t = bubble_text(lines, ws);
            let body = framed_body(lines, ws, width, lines.len());
            &&& t == top_border(width) + body + bottom_border(width)
            &&& top_border(width).len() == width + 4
            &&& bottom_border(width).len() == width + 3
            &&& top_border(width)[0] == ' ' && top_border(width)[width + 3] == '\n'
            &&& bottom_border(width)[0] == ' '
            &&& forall|k: int| 1 <= k <= width + 2 ==> top_border(width)[k] == '_'
            &&& forall|k: int| 1 <= k <= width + 2 ==> bottom_border(width)[k] == '-'
            &&& t.subrange(0, width + 4) == top_border(width)
            &&& t.subrange(t.len() - (width + 3), t.len() as int) == bottom_border(width)
        }),
{
    let width = max_of(ws);
    let t = bubble_text(lines, ws);
    let body = framed_body(lines, ws, width, lines.len());
    assert(t.subrange(0, width + 4) =~= top_border(width));
    assert(t.subrange(t.len() - (width + 3), t.len() as int) =~= bottom_border(width));
}

/// The delimiters of line `i` of `n`: `< >` for a lone line; else `/ \` for
/// the first, `\ /` for the last and `| |` for those between.
pub proof fn lemma_delimiters(i: int, n: int)
    requires
        0 <= i < n,
    ensures
        n == 1 ==> line_prefix(i, n) == seq!['<', ' '] && line_suffix(i, n) == seq![' ', '>', '\n'],
        n > 1 && i == 0 ==> line_prefix(i, n) == seq!['/', ' '] && line_suffix(i, n) == seq![
            ' ',
            '\\',
            '\n',
        ],
        n > 1 && i == n - 1 ==> line_prefix(i, n) == seq!['\\', ' '] && line_suffix(i, n) == seq![
            ' ',
            '/',
            '\n',
        ],
        n > 1 && 0 < i < n - 1 ==> line_prefix(i, n) == seq!['|', ' '] && line_suffix(i, n)
            == seq![' ', '|', '\n'],
{
}

/// Each line of a bubble is its delimiters around the line, padded with
/// spaces to the bubble's width; the framed lines follow each other in order.
pub proof fn lemma_framed_lines(lines: Seq<Seq<char>>, ws: Seq<usize>, width: usize, k: nat)
    requires
        1 <= k <= lines.len(),
        ws.len() == lines.len(),
        forall|i: int| 0 <= i < ws.len() ==> ws[i] <= width,
    ensures
        framed_body(lines, ws, width, k) == framed_body(lines, ws, width, (k - 1) as nat)
            + line_prefix(k - 1, lines.len() as int) + lines[k - 1] + repeat(
            ' ',
            (width - ws[k - 1]) as nat,
        ) + line_suffix(k - 1, lines.len() as int),
{
    let i = k - 1;
    if ws[i] == width {
        assert(repeat(' ', 0) =~= Seq::<char>::empty());
    }
    assert(framed_line(lines[i], ws[i], width, i, lines.len() as int) =~= line_prefix(
        i,
        lines.len() as int,
    ) + lines[i] + repeat(' ', (width - ws[i]) as nat) + line_suffix(i, lines.len() as int));
}

/// The largest of `ws`, or 0 when it is empty.
pub fn max_width(ws: &Vec<usize>) -> (m: usize)
    ensures
        m == max_of(ws@),
{
    let mut m: usize = 0;
    let mut i: usize = 0;
    while i < ws.len()
        invariant
            i <= ws.len(),
            m == max_of(ws@.subrange(0, i as int)),
        decreases ws.len() - i,
    {
        assert(ws@.subrange(0, i + 1).drop_last() =~= ws@.subrange(0, i as int));
        if ws[i] > m {
            m = ws[i];
        }
        i = i + 1;
    }
    assert(ws@.subrange(0, ws.len() as int) =~= ws@);
    m
}

/// The display width of the widest line, or 0 when there is none.
pub fn longest_line(lines: &Vec<String>) -> (m: usize)
    ensures
        m == max_of(widths_of(views(lines@))),
{
    let ws = line_widths(lines);
    max_width(&ws)
}

fn push_repeat(out: &mut String, c: char, n: usize)
    ensures
        final(out)@ == old(out)@ + repeat(c, n as nat),
{
    let ghost start = out@;
    let mut i: usize = 0;
    while i < n
        invariant
            i <= n,
            out@ == start + repeat(c, i as nat),
        decreases n - i,
    {
        push_char(out, c);
        i = i + 1;
        assert(out@ =~= start + repeat(c, i as nat));
    }
}

/// Appends line `i` of `n`, of display width `w`, framed in a bubble `width` columns wide.
fn push_framed_line(out: &mut String, line: &str, w: usize, width: usize, i: usize, n: usize)
    requires
        i < n,
    ensures
        final(out)@ == old(out)@ + framed_line(line@, w, width, i as int, n as int),
{
    let ghost start = out@;
    if n == 1 {
        push_char(out, '<');
    } else if i == 0 {
        push_char(out, '/');
    } else if i == n - 1 {
        push_char(out, '\\');
    } else {
        push_char(out, '|');
    }
    push_char(out, ' ');
    let ghost opened = out@;
    assert(opened =~= start + line_prefix(i as int, n as int));
    push_str(out, line);
    if w < width {
        push_repeat(out, ' ', width - w);
    }
    let ghost padded = out@;
    assert(padded =~= start + line_prefix(i as int, n as int) + line@ + padding(w, width));
    push_char(out, ' ');
    if n == 1 {
        push_char(out, '>');
    } else if i == 0 {
        push_char(out, '\\');
    } else if i == n - 1 {
        push_char(out, '/');
    } else {
        push_char(out, '|');
    }
    push_char(out, '\n');
    assert(out@ =~= padded + line_suffix(i as int, n as int));
}

/// Frames `lines`, whose display widths are `widths`, in a speech bubble.
pub fn frame_lines(lines: &Vec<String>, widths: &Vec<usize>) -> (text: String)
    requires
        lines.len() == widths.len(),
    ensures
        text@ == bubble_text(views(lines@), widths@),
{
    let ghost ls = views(lines@);
    let width = max_width(widths);
    let n = lines.len();
    let mut out = String::new();
    push_char(&mut out, ' ');
    push_repeat(&mut out, '_', width);
    push_char(&mut out, '_');
    push_char(&mut out, '_');
    push_char(&mut out, '\n');
    assert(out@ =~= top_border(width));
    let mut i: usize = 0;
    while i < n
        invariant
            i <= n,
            n == lines.len(),
            n == widths.len(),
            ls == views(lines@),
            width == max_of(widths@),
            out@ == top_border(width) + framed_body(ls, widths@, width, i as nat),
        decreases n - i,
    {
        push_framed_line(&mut out, lines[i].as_str(), widths[i], width, i, n);
        assert(ls[i as int] == lines@[i as int]@);
        i = i + 1;
        assert(out@ =~= top_border(width) + framed_body(ls, widths@, width, i as nat));
    }
    let ghost body = out@;
    push_char(&mut out, ' ');
    push_repeat(&mut out, '-', width);
    push_char(&mut out, '-');
    push_char(&mut out, '-');
    assert(out@ =~= body + bottom_border(width));
    out
}

} // verus!
