//! Plain-text (P3) PPM output.

use vstd::prelude::*;
use crate::text::{decimal_text, push_decimal};

verus! {

/// One output pixel: red, green and blue, each from 0 to 255.
#[derive(Clone, Copy, Debug, PartialEq, Eq, Structural)]
pub struct Rgb8 {
    pub r: u8,
    pub g: u8,
    pub b: u8,
}

/// The line that holds one pixel: its three channels in decimal, separated
/// by single spaces.
pub open spec fn pixel_line(p: Rgb8) -> Seq<char> {
    decimal_text(p.r as nat) + " "@ + decimal_text(p.g as nat) + " "@ + decimal_text(p.b as nat)
        + "\n"@
}

/// The pixel lines of `ps`, in order.
pub open spec fn pixel_lines(ps: Seq<Rgb8>) -> Seq<char>
    decreases ps.len(),
{
    if ps.len() == 0 {
        seq![]
    } else {
        pixel_lines(ps.drop_last()) + pixel_line(ps.last())
    }
}

/// The header: the `P3` magic, the width and height, and the largest
/// channel value 255, each on its own line.
pub open spec fn ppm_header(width: usize, height: usize) -> Seq<char> {
    "P3\n"@ + decimal_text(width as nat) + " "@ + decimal_text(height as nat) + "\n"@ + "255\n"@
}

/// A whole PPM image: the header followed by one line per pixel.
pub open spec fn ppm_text(pixels: Seq<Rgb8>, width: usize, height: usize) -> Seq<char> {
    ppm_header(width, height) + pixel_lines(pixels)
}

/// Formats `pixels` (row by row, top row first) as a plain-text PPM image of
/// the given size.
pub fn write_ppm(pixels: &[Rgb8], width: usize, height: usize) -> (r: String)
    ensures
        r@ == ppm_text(pixels@, width, height),
{
    let mut out = String::new();
    out.append("P3\n");
    push_decimal(&mut out, width);
    out.append(" ");
    push_decimal(&mut out, height);
    out.append("\n");
    out.append("255\n");
    let ghost header = out@;
    assert(header == ppm_header(width, height));
    let mut i: usize = 0;
    while i < pixels.len()
        invariant
            i <= pixels@.len(),
            header == ppm_header(width, height),
            out@ == header + pixel_lines(pixels@.take(i as int)),
        decreases pixels.len() - i,
    {
        let p = pixels[i];
        let ghost before = out@;
        push_decimal(&mut out, p.r as usize);
        out.append(" ");
        push_decimal(&mut out, p.g as usize);
        out.append(" ");
        push_decimal(&mut out, p.b as usize);
        out.append("\n");
        assert(pixels@.take(i + 1).drop_last() == pixels@.take(i as int));
        assert(out@ == before + pixel_line(p));
        i = i + 1;
    }
    assert(pixels@.take(pixels@.len() as int) == pixels@);
    out
}

} // verus!
