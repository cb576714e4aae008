use vstd::prelude::*;

verus! {

/// One RGBA pixel, eight bits per channel.
#[derive(Clone, Copy, Debug, PartialEq, Eq, Structural)]
pub struct Pixel {
    pub r: u8,
    pub g: u8,
    pub b: u8,
    pub a: u8,
}

/// The pixel at column `x`, row `y` of a row-major RGBA8 buffer that is `w` pixels wide.
pub open spec fn pixel_at(bytes: Seq<u8>, w: nat, x: int, y: int) -> Pixel {
    let i = 4 * (y * w + x);
    Pixel { r: bytes[i], g: bytes[i + 1], b: bytes[i + 2], a: bytes[i + 3] }
}

/// A decoded image: `width` x `height` pixels, stored row by row, four bytes
/// (red, green, blue, alpha) per pixel.
pub struct Raster {
    width: u32,
    height: u32,
    data: Vec<u8>,
}

/// The largest side, in pixels, of an image as it is drawn.
pub const MAX_SIDE: u32 = 80;

/// The length of a side of `side` pixels once the image, whose largest side is
/// `longest`, is brought down to `MAX_SIDE`: truncated, and never below one pixel.
pub open spec fn scaled_side(side: nat, longest: nat) -> nat {
    let s = side * (MAX_SIDE as nat) / longest;
    if s == 0 { 1 } else { s }
}

/// The size at which an image of `w` x `h` pixels is drawn.
pub open spec fn target_size(w: nat, h: nat) -> (nat, nat) {
    if w <= MAX_SIDE && h <= MAX_SIDE {
        (w, h)
    } else {
        let longest = if w >= h { w } else { h };
        (scaled_side(w, longest), scaled_side(h, longest))
    }
}

/// Each pixel of the `nw` x `nh` buffer `out` is a copy of a pixel of the
/// `w` x `h` buffer `src`, or all zero where `src` has no pixel.
pub open spec fn pixels_drawn_from(out: Seq<u8>, nw: nat, nh: nat, src: Seq<u8>, w: nat, h: nat) -> bool {
    forall|ox: int, oy: int|
        0 <= ox < nw && 0 <= oy < nh ==> {
            let p = #[trigger] pixel_at(out, nw, ox, oy);
            if w > 0 && h > 0 {
                exists|x: int, y: int| 0 <= x < w && 0 <= y < h && p == pixel_at(src, w, x, y)
            } else {
                p == Pixel { r: 0, g: 0, b: 0, a: 0 }
            }
        }
}

/// What image's nearest-neighbour resize makes of an RGBA8 buffer of `w` x `h`
/// pixels when asked for `nw` x `nh` pixels.
pub uninterp spec fn nearest_resized(bytes: Seq<u8>, w: nat, h: nat, nw: nat, nh: nat) -> Seq<u8>;

impl Raster {
    #[verifier::type_invariant]
    spec fn well_formed(&self) -> bool {
        &&& self.data@.len() == 4 * (self.width as int) * (self.height as int)
        &&& 4 * (self.width as int) <= usize::MAX
    }

    /// Width in pixels.
    pub closed spec fn w(&self) -> nat {
        self.width as nat
    }

    /// Height in pixels.
    pub closed spec fn h(&self) -> nat {
        self.height as nat
    }

    /// The pixel bytes, row by row, four per pixel.
    pub closed spec fn bytes(&self) -> Seq<u8> {
        self.data@
    }

    /// The pixel at column `x`, row `y`.
    pub open spec fn pixel(&self, x: int, y: int) -> Pixel {
        pixel_at(self.bytes(), self.w(), x, y)
    }

    /// Takes a row-major RGBA8 buffer of `width` x `height` pixels; `None` when
    /// its length is not four bytes per pixel, or when one row's bytes
    /// (`4 * width`) do not fit in a `usize`.
    pub fn from_raw(width: u32, height: u32, data: Vec<u8>) -> (r: Option<Raster>)
        ensures
            r is Some <==> data@.len() == 4 * (width as int) * (height as int) && 4 * (width as int)
                <= usize::MAX,
            r matches Some(img) ==> img.w() == width && img.h() == height && img.bytes()
                == data@,
    {
        proof {
            assert(width as int * height as int <= 0xffff_ffff * 0xffff_ffff) by (nonlinear_arith)
                requires
                    width <= 0xffff_ffff,
                    height <= 0xffff_ffff,
            ;
            assert(4 * (width as int) * (height as int) == 4 * (width as int * height as int))
                by (nonlinear_arith);
        }
        let n: u64 = width as u64 * height as u64;
        let len: usize = data.len();
        if (width as u64) <= (usize::MAX as u64) / 4 && n <= (usize::MAX as u64) / 4 && len == 4
            * (n as usize) {
            Some(Raster { width, height, data })
        } else {
            None
        }
    }

    pub fn width(&self) -> (r: u32)
        ensures
            r == self.w(),
    {
        self.width
    }

    pub fn height(&self) -> (r: u32)
        ensures
            r == self.h(),
    {
        self.height
    }

    /// The pixel bytes, row by row, four per pixel.
    pub fn as_raw(&self) -> (r: &Vec<u8>)
        ensures
            r@ == self.bytes(),
    {
        &self.data
    }

    /// The pixel at column `x`, row `y`.
    pub fn get_pixel(&self, x: u32, y: u32) -> (p: Pixel)
        requires
            x < self.w(),
            y < self.h(),
        ensures
            p == self.pixel(x as int, y as int),
    {
        let len: usize = self.data.len();
        proof {
            use_type_invariant(self);
            lemma_index_in_bounds(x as int, y as int, self.width as int, self.height as int);
        }
        let row: usize = y as usize * self.width as usize;
        let i: usize = 4 * (row + x as usize);
        Pixel { r: self.data[i], g: self.data[i + 1], b: self.data[i + 2], a: self.data[i + 3] }
    }
}

proof fn lemma_index_in_bounds(x: int, y: int, w: int, h: int)
    requires
        0 <= x < w,
        0 <= y < h,
    ensures
        0 <= y * w + x,
        y * w + x + 1 <= w * h,
        0 <= w * h,
        4 * (y * w + x) + 4 <= 4 * w * h,
{
    assert(4 * w * h == 4 * (w * h)) by (nonlinear_arith);
    assert(0 <= w * h) by (nonlinear_arith)
        requires
            0 <= x < w,
            0 <= y < h,
    ;
    assert(y * w + x + 1 <= w * h) by (nonlinear_arith)
        requires
            0 <= x < w,
            0 <= y < h,
    ;
    assert(0 <= y * w) by (nonlinear_arith)
        requires
            0 <= x < w,
            0 <= y < h,
    ;
}

/// Relies on image's ImageBuffer::from_raw, imageops::resize with
/// FilterType::Nearest and ImageBuffer::into_raw: the buffer fits a raster, so
/// from_raw accepts it; resize returns an image of exactly `nw` x `nh` pixels
/// of four bytes each, a copy when the size is unchanged, zeroed when the
/// source has no pixel, and otherwise made of copies of source pixels (the
/// Nearest filter weighs one source pixel by 1.0 on each axis).
#[verifier::external_body]
fn resize_nearest(img: &Raster, nw: u32, nh: u32) -> (r: Option<Raster>)
    requires
        4 * (img.w() as int) <= usize::MAX,
        4 * (nw as int) * (nh as int) <= usize::MAX,
    ensures
        r is Some,
        r matches Some(out) ==> out.w() == nw && out.h() == nh && out.bytes() == nearest_resized(
            img.bytes(),
            img.w(),
            img.h(),
            nw as nat,
            nh as nat,
        ),
        r matches Some(out) ==> (nw == img.w() && nh == img.h() ==> out.bytes() == img.bytes()),
        r matches Some(out) ==> pixels_drawn_from(
            out.bytes(),
            nw as nat,
            nh as nat,
            img.bytes(),
            img.w(),
            img.h(),
        ),
{
    match image::RgbaImage::from_raw(img.width, img.height, img.data.clone()) {
        Some(buf) => {
            let out = image::imageops::resize(&buf, nw, nh, image::imageops::FilterType::Nearest);
            Some(Raster { width: out.width(), height: out.height(), data: out.into_raw() })
        },
        None => None,
    }
}

/// An image with a side above `MAX_SIDE` is drawn with its longest side
/// exactly `MAX_SIDE`, and each side scaled by `MAX_SIDE / max(w, h)` and
/// truncated (never below one pixel).
pub proof fn lemma_downsample(w: nat, h: nat)
    requires
        w > MAX_SIDE || h > MAX_SIDE,
    ensures
        ({
            let (nw, nh) = target_size(w, h);
            let longest = if w >= h { w } else { h };
            &&& (if nw >= nh { nw } else { nh }) == MAX_SIDE
            &&& nw <= MAX_SIDE && nh <= MAX_SIDE
            &&& nw == 1 || nw * longest <= w * MAX_SIDE < (nw + 1) * longest
            &&& nh == 1 || nh * longest <= h * MAX_SIDE < (nh + 1) * longest
        }),
{
    let longest = if w >= h { w } else { h };
    lemma_scaled_side(w, longest);
    lemma_scaled_side(h, longest);
    assert(longest * (MAX_SIDE as nat) / longest == MAX_SIDE) by (nonlinear_arith)
        requires
            longest > 0,
    ;
}

proof fn lemma_scaled_side(side: nat, longest: nat)
    requires
        side <= longest,
        longest > 0,
    ensures
        scaled_side(side, longest) <= MAX_SIDE,
        scaled_side(side, longest) >= 1,
        scaled_side(side, longest) == 1 || scaled_side(side, longest) * longest <= side * MAX_SIDE
            < (scaled_side(side, longest) + 1) * longest,
{
    let s = side * (MAX_SIDE as nat) / longest;
    assert(s <= MAX_SIDE) by (nonlinear_arith)
        requires
            side <= longest,
            longest > 0,
            s == side * 80 / longest,
    ;
    assert(s * longest <= side * MAX_SIDE < (s + 1) * longest) by (nonlinear_arith)
        requires
            longest > 0,
            s == side * 80 / longest,
    ;
}

/// The size at which an image of `width` x `height` pixels is drawn: unchanged
/// when neither side exceeds `MAX_SIDE`, else both sides scaled by
/// `MAX_SIDE / max(width, height)`, truncated, and at least one pixel.
pub fn target_dimensions(width: u32, height: u32) -> (r: (u32, u32))
    ensures
        (r.0 as nat, r.1 as nat) == target_size(width as nat, height as nat),
        width > MAX_SIDE || height > MAX_SIDE ==> r.0 <= MAX_SIDE && r.1 <= MAX_SIDE,
{
    if width <= MAX_SIDE && height <= MAX_SIDE {
        (width, height)
    } else {
        let longest: u32 = if width >= height { width } else { height };
        (scale_side(width, longest), scale_side(height, longest))
    }
}

fn scale_side(side: u32, longest: u32) -> (r: u32)
    requires
        side <= longest,
        longest > 0,
    ensures
        r as nat == scaled_side(side as nat, longest as nat),
        r <= MAX_SIDE,
{
    proof {
        assert(side as int * (MAX_SIDE as int) <= u32::MAX as int * (MAX_SIDE as int)) by (nonlinear_arith)
            requires
                side <= u32::MAX,
        ;
    }
    let s: u64 = side as u64 * MAX_SIDE as u64 / longest as u64;
    proof {
        assert(side as nat * (MAX_SIDE as nat) / (longest as nat) <= MAX_SIDE) by (nonlinear_arith)
            requires
                side <= longest,
                longest > 0,
        ;
    }
    if s == 0 {
        1
    } else {
        s as u32
    }
}

/// The raster as it is drawn: brought down to `target_size` by image's
/// nearest-neighbour resize where a side exceeds `MAX_SIDE`, else unchanged.
pub fn fit_for_terminal(img: &Raster) -> (r: Raster)
    ensures
        (r.w(), r.h()) == target_size(img.w(), img.h()),
        r.bytes() == nearest_resized(img.bytes(), img.w(), img.h(), r.w(), r.h()),
        img.w() <= MAX_SIDE && img.h() <= MAX_SIDE ==> r.bytes() == img.bytes(),
        pixels_drawn_from(r.bytes(), r.w(), r.h(), img.bytes(), img.w(), img.h()),
{
    proof {
        use_type_invariant(img);
    }
    let len: usize = img.data.len();
    let (nw, nh) = target_dimensions(img.width(), img.height());
    proof {
        if nw <= MAX_SIDE && nh <= MAX_SIDE {
            assert(4 * (nw as int) * (nh as int) <= 4 * 80 * 80) by (nonlinear_arith)
                requires
                    nw <= 80,
                    nh <= 80,
            ;
        }
    }
    match resize_nearest(img, nw, nh) {
        Some(out) => out,
        None => Raster { width: 0, height: 0, data: Vec::new() },
    }
}

} // verus!
