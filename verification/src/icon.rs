//! Pixel work on application icons: the shell hands out premultiplied BGRA,
//! the picker wants straight RGBA, and the settings screen premultiplies again.
use vstd::prelude::*;

verus! {

/// An icon as straight (not premultiplied) RGBA bytes, row by row.
#[derive(Debug)]
pub struct RgbaImage {
    pub width: usize,
    pub height: usize,
    pub pixels: Vec<u8>,
}

/// A colour component divided back by its alpha, when alpha is neither 0 nor
/// 255; at most 255.
pub open spec fn unmultiplied(x: u8, a: u8) -> u8 {
    if 0 < a && a < 255 {
        let v = (x as int * 255) / (a as int);
        if v > 255 {
            255
        } else {
            v as u8
        }
    } else {
        x
    }
}

/// A colour component multiplied by its alpha.
pub open spec fn premultiplied(x: u8, a: u8) -> u8 {
    ((x as int * a as int) / 255) as u8
}

/// Whether byte `i` belongs to a whole 4-byte pixel of a buffer of `len` bytes.
pub open spec fn in_whole_pixel(i: int, len: int) -> bool {
    0 <= i < len - len % 4
}

/// The bytes after converting premultiplied BGRA to straight RGBA: in each
/// whole pixel blue and red change places and the colours are divided by
/// alpha; a trailing partial pixel is left as it is.
pub open spec fn unpremultiplied_bgra(p: Seq<u8>) -> Seq<u8> {
    Seq::new(
        p.len(),
        |i: int|
            if in_whole_pixel(i, p.len() as int) {
                let base = i - i % 4;
                let a = p[base + 3];
                if i % 4 == 0 {
                    unmultiplied(p[base + 2], a)
                } else if i % 4 == 1 {
                    unmultiplied(p[base + 1], a)
                } else if i % 4 == 2 {
                    unmultiplied(p[base], a)
                } else {
                    a
                }
            } else {
                p[i]
            },
    )
}

/// The bytes after premultiplying straight RGBA by alpha in each whole pixel.
pub open spec fn premultiplied_rgba(p: Seq<u8>) -> Seq<u8> {
    Seq::new(
        p.len(),
        |i: int|
            if in_whole_pixel(i, p.len() as int) && i % 4 != 3 {
                premultiplied(p[i], p[i - i % 4 + 3])
            } else {
                p[i]
            },
    )
}

fn unmultiply(x: u8, a: u8) -> (r: u8)
    ensures
        r == unmultiplied(x, a),
{
    if a > 0 && a < 255 {
        let v: u32 = (x as u32 * 255) / a as u32;
        if v > 255 {
            255
        } else {
            v as u8
        }
    } else {
        x
    }
}

fn premultiply(x: u8, a: u8) -> (r: u8)
    ensures
        r == premultiplied(x, a),
{
    assert(x as int * a as int <= 255 * 255) by (nonlinear_arith)
        requires
            x <= 255,
            a <= 255,
    ;
    assert((x as int * a as int) / 255 <= 255) by (nonlinear_arith)
        requires
            x as int * a as int <= 255 * 255,
    ;
    ((x as u32 * a as u32) / 255) as u8
}

proof fn lemma_pixel_index(k: int, len: int)
    requires
        0 <= k,
        4 * k + 4 <= len,
    ensures
        in_whole_pixel(4 * k, len),
        in_whole_pixel(4 * k + 1, len),
        in_whole_pixel(4 * k + 2, len),
        in_whole_pixel(4 * k + 3, len),
        (4 * k) % 4 == 0,
        (4 * k + 1) % 4 == 1,
        (4 * k + 2) % 4 == 2,
        (4 * k + 3) % 4 == 3,
{
    assert(len - len % 4 >= 4 * k + 4) by (nonlinear_arith)
        requires
            4 * k + 4 <= len,
            0 <= k,
    ;
}

/// Converts premultiplied BGRA to straight RGBA in place (see
/// `unpremultiplied_bgra`).
pub fn unpremultiply_bgra(pixels: &mut Vec<u8>)
    ensures
        final(pixels)@ == unpremultiplied_bgra(old(pixels)@),
{
    let ghost orig = pixels@;
    let n = pixels.len();
    let mut i: usize = 0;
    while n - i >= 4
        invariant
            n == orig.len(),
            pixels@.len() == n,
            i % 4 == 0,
            i <= n,
            forall|j: int| 0 <= j < i ==> pixels@[j] == unpremultiplied_bgra(orig)[j],
            forall|j: int| i <= j < n ==> pixels@[j] == orig[j],
        decreases n - i,
    {
        proof {
            lemma_pixel_index(i as int / 4, n as int);
            assert(4 * (i as int / 4) == i);
        }
        let b = pixels[i];
        let g = pixels[i + 1];
        let r = pixels[i + 2];
        let a = pixels[i + 3];
        pixels.set(i, unmultiply(r, a));
        pixels.set(i + 1, unmultiply(g, a));
        pixels.set(i + 2, unmultiply(b, a));
        proof {
            let ii = i as int;
            assert((ii + 1) - (ii + 1) % 4 == ii);
            assert((ii + 2) - (ii + 2) % 4 == ii);
            assert((ii + 3) - (ii + 3) % 4 == ii);
            assert(pixels@[ii] == unpremultiplied_bgra(orig)[ii]);
            assert(pixels@[ii + 1] == unpremultiplied_bgra(orig)[ii + 1]);
            assert(pixels@[ii + 2] == unpremultiplied_bgra(orig)[ii + 2]);
            assert(pixels@[ii + 3] == unpremultiplied_bgra(orig)[ii + 3]);
        }
        i = i + 4;
    }
    proof {
        assert forall|j: int| i <= j < n implies !in_whole_pixel(j, n as int) by {
            assert(n - n % 4 <= i) by (nonlinear_arith)
                requires
                    i % 4 == 0,
                    i <= n,
                    i + 4 > n,
            ;
        }
    }
    assert(pixels@ =~= unpremultiplied_bgra(orig));
}

/// Premultiplies straight RGBA by alpha in place (see `premultiplied_rgba`).
pub fn premultiply_rgba(pixels: &mut Vec<u8>)
    ensures
        final(pixels)@ == premultiplied_rgba(old(pixels)@),
{
    let ghost orig = pixels@;
    let n = pixels.len();
    let mut i: usize = 0;
    while n - i >= 4
        invariant
            n == orig.len(),
            pixels@.len() == n,
            i % 4 == 0,
            i <= n,
            forall|j: int| 0 <= j < i ==> pixels@[j] == premultiplied_rgba(orig)[j],
            forall|j: int| i <= j < n ==> pixels@[j] == orig[j],
        decreases n - i,
    {
        proof {
            lemma_pixel_index(i as int / 4, n as int);
            assert(4 * (i as int / 4) == i);
        }
        let a = pixels[i + 3];
        let r = pixels[i];
        let g = pixels[i + 1];
        let b = pixels[i + 2];
        pixels.set(i, premultiply(r, a));
        pixels.set(i + 1, premultiply(g, a));
        pixels.set(i + 2, premultiply(b, a));
        proof {
            let ii = i as int;
            assert((ii + 1) - (ii + 1) % 4 == ii);
            assert((ii + 2) - (ii + 2) % 4 == ii);
            assert(pixels@[ii] == premultiplied_rgba(orig)[ii]);
            assert(pixels@[ii + 1] == premultiplied_rgba(orig)[ii + 1]);
            assert(pixels@[ii + 2] == premultiplied_rgba(orig)[ii + 2]);
            assert(pixels@[ii + 3] == premultiplied_rgba(orig)[ii + 3]);
        }
        i = i + 4;
    }
    proof {
        assert forall|j: int| i <= j < n implies !in_whole_pixel(j, n as int) by {
            assert(n - n % 4 <= i) by (nonlinear_arith)
                requires
                    i % 4 == 0,
                    i <= n,
                    i + 4 > n,
            ;
        }
    }
    assert(pixels@ =~= premultiplied_rgba(orig));
}

/// Whether every alpha byte (positions 3, 7, 11, …) is 0.
pub open spec fn fully_transparent(p: Seq<u8>) -> bool {
    forall|i: int| 0 <= i < p.len() && i % 4 == 3 ==> p[i] == 0
}

pub fn is_fully_transparent(pixels: &Vec<u8>) -> (b: bool)
    ensures
        b == fully_transparent(pixels@),
{
    let mut i: usize = 3;
    while i < pixels.len()
        invariant
            i % 4 == 3,
            forall|j: int| 0 <= j < i && j < pixels@.len() && j % 4 == 3 ==> pixels@[j] == 0,
        decreases pixels@.len() + 4 - i,
    {
        if pixels[i] != 0 {
            return false;
        }
        if i > usize::MAX - 4 {
            return true;
        }
        i = i + 4;
    }
    true
}

/// The icon from the premultiplied BGRA pixels of a `size`×`size` bitmap:
/// converted to straight RGBA, or none when every pixel is transparent.
pub fn finish_icon(pixels: Vec<u8>, size: usize) -> (r: Option<RgbaImage>)
    ensures
        match r {
            Some(img) => img.width == size && img.height == size && img.pixels@ == unpremultiplied_bgra(
                pixels@,
            ) && !fully_transparent(unpremultiplied_bgra(pixels@)),
            None => fully_transparent(unpremultiplied_bgra(pixels@)),
        },
{
    let mut pixels = pixels;
    unpremultiply_bgra(&mut pixels);
    if is_fully_transparent(&pixels) {
        None
    } else {
        Some(RgbaImage { width: size, height: size, pixels })
    }
}

} // verus!
