use vstd::prelude::*;
use crate::color::Color;

verus! {

/// The decimal digits of `n` in ASCII, most significant first, without
/// leading zeros.
pub open spec fn decimal(n: nat) -> Seq<u8>
    decreases n,
{
    if n < 10 {
        seq![(48 + n) as u8]
    } else {
        decimal(n / 10).push((48 + n % 10) as u8)
    }
}

/// The plain-PPM header: the magic number (the letter P and the digit 3),
/// a line break, the width and height separated by a space, a line break,
/// and the largest channel value `255` followed by a line break.
pub open spec fn header_text(width: nat, height: nat) -> Seq<u8> {
    seq![80u8, 51, 10] + decimal(width) + seq![32u8] + decimal(height) + seq![10u8, 50, 53, 53, 10]
}

/// One pixel: its three channels in decimal, separated by spaces, ending
/// in a line break.
pub open spec fn pixel_text(c: Color) -> Seq<u8> {
    decimal(c.0 as nat) + seq![32u8] + decimal(c.1 as nat) + seq![32u8] + decimal(c.2 as nat)
        + seq![10u8]
}

/// The pixel lines of `pixels`, in order.
pub open spec fn pixels_text(pixels: Seq<Color>) -> Seq<u8>
    decreases pixels.len(),
{
    if pixels.len() == 0 {
        Seq::empty()
    } else {
        pixels_text(pixels.drop_last()) + pixel_text(pixels.last())
    }
}

/// A plain-text PPM image: the header, then every pixel row by row, top
/// row first.
pub open spec fn ppm_text(width: nat, height: nat, pixels: Seq<Color>) -> Seq<u8> {
    header_text(width, height) + pixels_text(pixels)
}

/// Appends the decimal digits of `n`.
pub fn push_decimal(out: &mut Vec<u8>, n: u32)
    ensures
        final(out)@ == old(out)@ + decimal(n as nat),
    decreases n,
{
    if n >= 10 {
        push_decimal(out, n / 10);
    }
    let digit = (n % 10) as u8;
    out.push(48 + digit);
    assert(final(out)@ =~= old(out)@ + decimal(n as nat)) by {
        if n >= 10 {
            assert(decimal(n as nat) == decimal((n / 10) as nat).push((48 + n % 10) as u8));
        }
    }
}

/// Appends the text of one pixel.
pub fn push_pixel(out: &mut Vec<u8>, c: Color)
    ensures
        final(out)@ == old(out)@ + pixel_text(c),
{
    push_decimal(out, c.red() as u32);
    out.push(32);
    push_decimal(out, c.green() as u32);
    out.push(32);
    push_decimal(out, c.blue() as u32);
    out.push(10);
    assert(final(out)@ =~= old(out)@ + pixel_text(c));
}

/// Encodes an image of `width` by `height` pixels, given row by row, as
/// plain-text PPM. There is no image when the number of pixels is not
/// `width * height`.
pub fn encode_ppm(width: u32, height: u32, pixels: &Vec<Color>) -> (r: Option<Vec<u8>>)
    ensures
        r is None <==> pixels@.len() != width as int * height as int,
        r matches Some(text) ==> text@ == ppm_text(width as nat, height as nat, pixels@),
{
    assert((width as int) * (height as int) <= 0xffff_ffffint * 0xffff_ffffint) by (nonlinear_arith)
        requires
            width <= 0xffff_ffff,
            height <= 0xffff_ffff,
    ;
    if pixels.len() as u64 != width as u64 * height as u64 {
        return None;
    }
    let mut out: Vec<u8> = Vec::new();
    out.push(80);
    out.push(51);
    out.push(10);
    push_decimal(&mut out, width);
    out.push(32);
    push_decimal(&mut out, height);
    out.push(10);
    out.push(50);
    out.push(53);
    out.push(53);
    out.push(10);
    assert(out@ =~= header_text(width as nat, height as nat));
    let mut i: usize = 0;
    while i < pixels.len()
        invariant
            i <= pixels.len(),
            out@ == header_text(width as nat, height as nat) + pixels_text(
                pixels@.subrange(0, i as int),
            ),
        decreases pixels.len() - i,
    {
        let ghost before = out@;
        push_pixel(&mut out, pixels[i]);
        assert(pixels@.subrange(0, i + 1).drop_last() =~= pixels@.subrange(0, i as int));
        assert(out@ =~= header_text(width as nat, height as nat) + pixels_text(
            pixels@.subrange(0, i + 1),
        ));
        i = i + 1;
    }
    assert(pixels@.subrange(0, pixels.len() as int) =~= pixels@);
    Some(out)
}

} // verus!
