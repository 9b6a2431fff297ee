use vstd::prelude::*;
use crate::buffer::{BufferView, Rgb};

verus! {

/// The ASCII code of the digit zero.
pub const DIGIT_ZERO: u8 = 48;
/// The ASCII code of `P`, which opens every PPM header.
pub const LETTER_P: u8 = 80;
pub const SPACE: u8 = 32;
pub const NEWLINE: u8 = 10;
/// The magic digit of a binary PPM file (`P6`).
pub const MAGIC_BINARY: u8 = 54;
/// The magic digit of an ASCII PPM file (`P3`).
pub const MAGIC_ASCII: u8 = 51;

/// The ASCII digits of `n` in base ten, most significant first, without
/// leading zeros.
pub open spec fn decimal(n: nat) -> Seq<u8>
    decreases n,
{
    if n < 10 {
        seq![(DIGIT_ZERO + n) as u8]
    } else {
        decimal(n / 10).push((DIGIT_ZERO + n % 10) as u8)
    }
}

/// The header of a PPM file of the given kind (`MAGIC_BINARY` or `MAGIC_ASCII`):
/// the magic number, then width, height and the largest channel value.
pub open spec fn ppm_header(magic: u8, v: BufferView) -> Seq<u8> {
    seq![LETTER_P, magic, NEWLINE] + decimal(v.width) + seq![SPACE] + decimal(v.height) + seq![SPACE]
        + decimal(255) + seq![NEWLINE]
}

/// The `k`-th pixel in raster order: row by row from the top, each row from
/// the left.
pub open spec fn raster_pixel(v: BufferView, k: int) -> Rgb {
    v.pixel(k % (v.width as int), k / (v.width as int))
}

/// The first `k` pixels in raster order, three bytes each.
pub open spec fn binary_pixels(v: BufferView, k: nat) -> Seq<u8>
    decreases k,
{
    if k == 0 {
        seq![]
    } else {
        let p = raster_pixel(v, k - 1);
        binary_pixels(v, (k - 1) as nat) + seq![p[0], p[1], p[2]]
    }
}

/// One pixel as a line of text: its three channels in decimal, separated by
/// spaces.
pub open spec fn ascii_line(p: Rgb) -> Seq<u8> {
    decimal(p[0] as nat) + seq![SPACE] + decimal(p[1] as nat) + seq![SPACE] + decimal(p[2] as nat)
        + seq![NEWLINE]
}

/// The first `k` pixels in raster order, one line each.
pub open spec fn ascii_pixels(v: BufferView, k: nat) -> Seq<u8>
    decreases k,
{
    if k == 0 {
        seq![]
    } else {
        ascii_pixels(v, (k - 1) as nat) + ascii_line(raster_pixel(v, k - 1))
    }
}

/// A binary (P6) PPM file of the whole buffer.
pub open spec fn binary_ppm(v: BufferView) -> Seq<u8> {
    ppm_header(MAGIC_BINARY, v) + binary_pixels(v, v.width * v.height)
}

/// An ASCII (P3) PPM file of the whole buffer.
pub open spec fn ascii_ppm(v: BufferView) -> Seq<u8> {
    ppm_header(MAGIC_ASCII, v) + ascii_pixels(v, v.width * v.height)
}

/// Appends the decimal digits of `n`.
pub fn push_decimal(out: &mut Vec<u8>, n: u32)
    ensures
        final(out)@ == old(out)@ + decimal(n as nat),
    decreases n,
{
    if n >= 10 {
        push_decimal(out, n / 10);
    }
    out.push(DIGIT_ZERO + (n % 10) as u8);
    proof {
        assert(out@ =~= old(out)@ + decimal(n as nat));
    }
}

/// Appends the header of a PPM file of the given kind.
pub fn push_ppm_header(out: &mut Vec<u8>, magic: u8, width: u32, height: u32)
    ensures
        final(out)@ == old(out)@ + ppm_header(
            magic,
            BufferView { width: width as nat, height: height as nat, pixels: seq![] },
        ),
{
    out.push(LETTER_P);
    out.push(magic);
    out.push(NEWLINE);
    push_decimal(out, width);
    out.push(SPACE);
    push_decimal(out, height);
    out.push(SPACE);
    push_decimal(out, 255);
    out.push(NEWLINE);
    proof {
        assert(out@ =~= old(out)@ + ppm_header(
            magic,
            BufferView { width: width as nat, height: height as nat, pixels: seq![] },
        ));
    }
}

/// Appends one pixel as a line of text.
pub fn push_ascii_line(out: &mut Vec<u8>, p: Rgb)
    ensures
        final(out)@ == old(out)@ + ascii_line(p),
{
    push_decimal(out, p[0] as u32);
    out.push(SPACE);
    push_decimal(out, p[1] as u32);
    out.push(SPACE);
    push_decimal(out, p[2] as u32);
    out.push(NEWLINE);
    proof {
        assert(out@ =~= old(out)@ + ascii_line(p));
    }
}

/// The pixel with raster index `k` lies inside the buffer.
pub proof fn lemma_raster_in_bounds(k: int, w: int, h: int)
    requires
        0 <= w,
        0 <= h,
        0 <= k < w * h,
    ensures
        w > 0,
        0 <= k % w < w,
        0 <= k / w < h,
{
    if w == 0 {
        assert(w * h == 0);
    }
    vstd::arithmetic::div_mod::lemma_multiply_divide_lt(k, w, h);
    vstd::arithmetic::div_mod::lemma_mod_bound(k, w);
    vstd::arithmetic::div_mod::lemma_div_pos_is_pos(k, w);
}

} // verus!
