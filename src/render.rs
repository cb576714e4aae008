use vstd::prelude::*;

use crate::raster::{
    fit_for_terminal, nearest_resized, pixel_at, pixels_drawn_from, target_size, Pixel, Raster,
};
use crate::strings::{decimal, push_char, push_decimal};

verus! {

/// How a pixel becomes terminal text.
#[derive(Clone, Copy, Debug, PartialEq, Eq, Structural)]
pub enum PixelMode {
    /// A block in the pixel's own colour, through a 24-bit colour escape.
    TrueColor,
    /// A block where the pixel is bright, a blank where it is dark.
    Monochrome,
    /// A blank where the pixel is bright, a block where it is dark.
    Invert,
}

/// Pixels whose alpha is below this are drawn as blanks.
pub const ALPHA_THRESHOLD: u8 = 128;

/// Pixels whose luminance is above this count as bright.
pub const LUMA_THRESHOLD: u8 = 128;

/// BT.709 luma, 0.2126 R + 0.7152 G + 0.0722 B, truncated.
pub open spec fn luma(r: u8, g: u8, b: u8) -> int {
    (2126 * r + 7152 * g + 722 * b) / 10000
}

pub open spec fn blank_cell() -> Seq<char> {
    seq![' ', ' ']
}

pub open spec fn block_cell() -> Seq<char> {
    seq!['\u{2588}', '\u{2588}']
}

/// Two solid blocks in the colour `(r, g, b)`, then the colour reset.
pub open spec fn colored_cell(r: u8, g: u8, b: u8) -> Seq<char> {
    seq!['\u{1b}', '[', '3', '8', ';', '2', ';'] + decimal(r as nat) + seq![';'] + decimal(
        g as nat,
    ) + seq![';'] + decimal(b as nat) + seq!['m'] + block_cell() + seq!['\u{1b}', '[', '0', 'm']
}

/// Whether the pixel is drawn as blanks whatever the mode.
pub open spec fn is_transparent(p: Pixel) -> bool {
    p.a < ALPHA_THRESHOLD
}

/// Whether an opaque pixel counts as bright.
pub open spec fn is_bright(p: Pixel) -> bool {
    luma(p.r, p.g, p.b) > LUMA_THRESHOLD
}

/// The text of one pixel in the given mode.
pub open spec fn cell_text(p: Pixel, mode: PixelMode) -> Seq<char> {
    if is_transparent(p) {
        blank_cell()
    } else {
        match mode {
            PixelMode::TrueColor => colored_cell(p.r, p.g, p.b),
            PixelMode::Monochrome => if is_bright(p) {
                block_cell()
            } else {
                blank_cell()
            },
            PixelMode::Invert => if is_bright(p) {
                blank_cell()
            } else {
                block_cell()
            },
        }
    }
}

/// The text of the first `n` pixels of row `y`.
pub open spec fn row_cells(bytes: Seq<u8>, w: nat, y: int, n: nat, mode: PixelMode) -> Seq<char>
    decreases n,
{
    if n == 0 {
        Seq::empty()
    } else {
        row_cells(bytes, w, y, (n - 1) as nat, mode) + cell_text(
            pixel_at(bytes, w, n - 1, y),
            mode,
        )
    }
}

/// The text of the first `m` rows of an image `w` pixels wide, each row ended by a newline.
pub open spec fn rows_text(bytes: Seq<u8>, w: nat, m: nat, mode: PixelMode) -> Seq<char>
    decreases m,
{
    if m == 0 {
        Seq::empty()
    } else {
        rows_text(bytes, w, (m - 1) as nat, mode) + row_cells(bytes, w, m - 1, w, mode) + seq![
            '\n',
        ]
    }
}

/// The text of a whole raster, drawn at its own size.
pub open spec fn raster_text(img: Raster, mode: PixelMode) -> Seq<char> {
    rows_text(img.bytes(), img.w(), img.h(), mode)
}

/// The text of a raster once brought to the size at which it is drawn.
pub open spec fn fitted_text(img: Raster, mode: PixelMode) -> Seq<char> {
    let (nw, nh) = target_size(img.w(), img.h());
    rows_text(nearest_resized(img.bytes(), img.w(), img.h(), nw, nh), nw, nh, mode)
}

/// A pixel whose alpha is below the threshold is two blanks in every mode.
pub proof fn lemma_transparent_is_blank(p: Pixel, mode: PixelMode)
    requires
        p.a < ALPHA_THRESHOLD,
    ensures
        cell_text(p, mode) == blank_cell(),
{
}

/// On an opaque pixel, Monochrome and Invert choose opposite glyphs: exactly
/// one of them draws blocks, the other blanks.
pub proof fn lemma_invert_complements_monochrome(p: Pixel)
    requires
        p.a >= ALPHA_THRESHOLD,
    ensures
        cell_text(p, PixelMode::Monochrome) == block_cell() <==> cell_text(p, PixelMode::Invert)
            == blank_cell(),
        cell_text(p, PixelMode::Monochrome) == blank_cell() <==> cell_text(p, PixelMode::Invert)
            == block_cell(),
        cell_text(p, PixelMode::Monochrome) == block_cell() || cell_text(p, PixelMode::Monochrome)
            == blank_cell(),
        cell_text(p, PixelMode::Monochrome) != cell_text(p, PixelMode::Invert),
{
    assert(block_cell()[0] != blank_cell()[0]);
}

/// Whether every pixel of a `w` x `h` buffer is transparent.
pub open spec fn all_transparent(bytes: Seq<u8>, w: nat, h: nat) -> bool {
    forall|x: int, y: int|
        0 <= x < w && 0 <= y < h ==> is_transparent(#[trigger] pixel_at(bytes, w, x, y))
}

/// `n` blank cells.
pub open spec fn blank_row(n: nat) -> Seq<char>
    decreases n,
{
    if n == 0 {
        Seq::empty()
    } else {
        blank_row((n - 1) as nat) + blank_cell()
    }
}

/// `m` rows of `w` blank cells, each ended by a newline.
pub open spec fn blank_rows(w: nat, m: nat) -> Seq<char>
    decreases m,
{
    if m == 0 {
        Seq::empty()
    } else {
        blank_rows(w, (m - 1) as nat) + blank_row(w) + seq!['\n']
    }
}

/// An image whose pixels are all transparent is drawn as blank rows, the
/// same text in every mode.
pub proof fn lemma_transparent_rows(bytes: Seq<u8>, w: nat, m: nat, mode: PixelMode)
    requires
        all_transparent(bytes, w, m),
    ensures
        rows_text(bytes, w, m, mode) == blank_rows(w, m),
    decreases m,
{
    if m > 0 {
        lemma_transparent_rows(bytes, w, (m - 1) as nat, mode);
        lemma_transparent_row(bytes, w, m - 1, w, mode);
    }
}

proof fn lemma_transparent_row(bytes: Seq<u8>, w: nat, y: int, n: nat, mode: PixelMode)
    requires
        n <= w,
        0 <= y,
        forall|x: int| 0 <= x < n ==> is_transparent(#[trigger] pixel_at(bytes, w, x, y)),
    ensures
        row_cells(bytes, w, y, n, mode) == blank_row(n),
    decreases n,
{
    if n > 0 {
        lemma_transparent_row(bytes, w, y, (n - 1) as nat, mode);
        lemma_transparent_is_blank(pixel_at(bytes, w, n - 1, y), mode);
    }
}

/// Blank rows hold spaces and line breaks only.
pub proof fn lemma_blank_rows_chars(w: nat, m: nat)
    ensures
        forall|i: int|
            0 <= i < blank_rows(w, m).len() ==> #[trigger] blank_rows(w, m)[i] == ' ' || blank_rows(
                w,
                m,
            )[i] == '\n',
    decreases m,
{
    if m > 0 {
        lemma_blank_rows_chars(w, (m - 1) as nat);
        lemma_blank_row_chars(w);
        let prev = blank_rows(w, (m - 1) as nat);
        let all = blank_rows(w, m);
        assert forall|i: int| 0 <= i < all.len() implies #[trigger] all[i] == ' ' || all[i] == '\n' by {
            if i < prev.len() {
                assert(all[i] == prev[i]);
            } else if i < prev.len() + blank_row(w).len() {
                assert(all[i] == blank_row(w)[i - prev.len()]);
            }
        }
    }
}

proof fn lemma_blank_row_chars(n: nat)
    ensures
        forall|i: int| 0 <= i < blank_row(n).len() ==> #[trigger] blank_row(n)[i] == ' ',
    decreases n,
{
    if n > 0 {
        lemma_blank_row_chars((n - 1) as nat);
        let prev = blank_row((n - 1) as nat);
        assert forall|i: int| 0 <= i < blank_row(n).len() implies #[trigger] blank_row(n)[i] == ' ' by {
            if i < prev.len() {
                assert(blank_row(n)[i] == prev[i]);
            }
        }
    }
}

/// A buffer made of copies of transparent pixels, or of zeroed pixels, is
/// transparent throughout.
proof fn lemma_drawn_from_transparent(out: Seq<u8>, nw: nat, nh: nat, src: Seq<u8>, w: nat, h: nat)
    requires
        pixels_drawn_from(out, nw, nh, src, w, h),
        all_transparent(src, w, h),
    ensures
        all_transparent(out, nw, nh),
{
    assert forall|ox: int, oy: int| 0 <= ox < nw && 0 <= oy < nh implies is_transparent(
        #[trigger] pixel_at(out, nw, ox, oy),
    ) by {
        let p = pixel_at(out, nw, ox, oy);
        if w > 0 && h > 0 {
            let (x, y) = choose|x: int, y: int| 0 <= x < w && 0 <= y < h && p == pixel_at(src, w, x, y);
            assert(is_transparent(pixel_at(src, w, x, y)));
        }
    }
}

/// BT.709 luma of a colour, 0.2126 R + 0.7152 G + 0.0722 B, truncated.
pub fn luminance(r: u8, g: u8, b: u8) -> (l: u8)
    ensures
        l == luma(r, g, b),
{
    let sum: u32 = 2126 * r as u32 + 7152 * g as u32 + 722 * b as u32;
    (sum / 10000) as u8
}

/// Appends the text of pixel `p` in `mode` to `out`.
pub fn push_cell(out: &mut String, p: Pixel, mode: PixelMode)
    ensures
        final(out)@ == old(out)@ + cell_text(p, mode),
{
    let ghost start = out@;
    let fill: bool;
    if p.a < ALPHA_THRESHOLD {
        fill = false;
    } else {
        match mode {
            PixelMode::TrueColor => {
                push_char(out, '\u{1b}');
                push_char(out, '[');
                push_char(out, '3');
                push_char(out, '8');
                push_char(out, ';');
                push_char(out, '2');
                push_char(out, ';');
                push_decimal(out, p.r);
                push_char(out, ';');
                push_decimal(out, p.g);
                push_char(out, ';');
                push_decimal(out, p.b);
                push_char(out, 'm');
                push_char(out, '\u{2588}');
                push_char(out, '\u{2588}');
                push_char(out, '\u{1b}');
                push_char(out, '[');
                push_char(out, '0');
                push_char(out, 'm');
                assert(out@ =~= start + cell_text(p, mode));
                return;
            },
            PixelMode::Monochrome => {
                fill = luminance(p.r, p.g, p.b) > LUMA_THRESHOLD;
            },
            PixelMode::Invert => {
                fill = luminance(p.r, p.g, p.b) <= LUMA_THRESHOLD;
            },
        }
    }
    if fill {
        push_char(out, '\u{2588}');
        push_char(out, '\u{2588}');
    } else {
        push_char(out, ' ');
        push_char(out, ' ');
    }
    assert(out@ =~= start + cell_text(p, mode));
}

/// The text of `img` at its own size: per row, the text of each pixel from
/// left to right, then a newline.
pub fn convert_pixels(img: &Raster, mode: PixelMode) -> (text: String)
    ensures
        text@ == raster_text(*img, mode),
{
    let mut out = String::new();
    let width = img.width();
    let height = img.height();
    let mut y: u32 = 0;
    while y < height
        invariant
            y <= height,
            width == img.w(),
            height == img.h(),
            out@ == rows_text(img.bytes(), img.w(), y as nat, mode),
        decreases height - y,
    {
        let ghost done = out@;
        let mut x: u32 = 0;
        while x < width
            invariant
                x <= width,
                y < height,
                width == img.w(),
                height == img.h(),
                out@ == done + row_cells(img.bytes(), img.w(), y as int, x as nat, mode),
            decreases width - x,
        {
            let p = img.get_pixel(x, y);
            push_cell(&mut out, p, mode);
            x = x + 1;
            assert(out@ =~= done + row_cells(img.bytes(), img.w(), y as int, x as nat, mode));
        }
        push_char(&mut out, '\n');
        y = y + 1;
        assert(out@ =~= rows_text(img.bytes(), img.w(), y as nat, mode));
    }
    out
}

/// `img` at its own size as coloured blocks, transparent pixels as blanks.
pub fn convert_to_truecolor(img: &Raster) -> (text: String)
    ensures
        text@ == raster_text(*img, PixelMode::TrueColor),
{
    convert_pixels(img, PixelMode::TrueColor)
}

/// `img` at its own size as blocks where bright, blanks where dark or transparent.
pub fn convert_to_monochrome(img: &Raster) -> (text: String)
    ensures
        text@ == raster_text(*img, PixelMode::Monochrome),
{
    convert_pixels(img, PixelMode::Monochrome)
}

/// `img` at its own size as blanks where bright or transparent, blocks where dark.
pub fn convert_to_invert(img: &Raster) -> (text: String)
    ensures
        text@ == raster_text(*img, PixelMode::Invert),
{
    convert_pixels(img, PixelMode::Invert)
}

/// `img` brought to the size at which it is drawn (see `fit_for_terminal`),
/// then drawn in `mode`.
pub fn convert_image_to_text(img: &Raster, mode: PixelMode) -> (text: String)
    ensures
        text@ == fitted_text(*img, mode),
        img.w() <= crate::raster::MAX_SIDE && img.h() <= crate::raster::MAX_SIDE ==> text@
            == raster_text(*img, mode),
        all_transparent(img.bytes(), img.w(), img.h()) ==> text@ == blank_rows(
            target_size(img.w(), img.h()).0,
            target_size(img.w(), img.h()).1,
        ),
{
    let fitted = fit_for_terminal(img);
    proof {
        if all_transparent(img.bytes(), img.w(), img.h()) {
            lemma_drawn_from_transparent(
                fitted.bytes(),
                fitted.w(),
                fitted.h(),
                img.bytes(),
                img.w(),
                img.h(),
            );
            lemma_transparent_rows(fitted.bytes(), fitted.w(), fitted.h(), mode);
        }
    }
    match mode {
        PixelMode::TrueColor => convert_to_truecolor(&fitted),
        PixelMode::Monochrome => convert_to_monochrome(&fitted),
        PixelMode::Invert => convert_to_invert(&fitted),
    }
}

} // verus!
