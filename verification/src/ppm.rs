//! The plain-text raster output: the three header lines and one
//! `R G B` line per pixel, in row-major order, specified byte for
//! byte.

use vstd::prelude::*;
use crate::render::Rgb;

verus! {

/// The decimal digits of `n`, as ASCII bytes.
pub open spec fn dec_s(n: nat) -> Seq<u8>
    decreases n,
{
    if n < 10 {
        seq![(48 + n) as u8]
    } else {
        dec_s(n / 10).push((48 + n % 10) as u8)
    }
}

/// One pixel line: `R G B` followed by a newline.
pub open spec fn pixel_line_s(p: Rgb) -> Seq<u8> {
    dec_s(p.r as nat) + seq![32u8] + dec_s(p.g as nat) + seq![32u8] + dec_s(p.b as nat)
        + seq![10u8]
}

/// All pixel lines, in order.
pub open spec fn pixels_s(ps: Seq<Rgb>) -> Seq<u8>
    decreases ps.len(),
{
    if ps.len() == 0 {
        Seq::empty()
    } else {
        pixel_line_s(ps[0]) + pixels_s(ps.drop_first())
    }
}

/// The three header lines: the `P3` tag, the dimensions, and the
/// maximum channel value 255.
pub open spec fn header_s(w: nat, h: nat) -> Seq<u8> {
    seq![80u8, 51u8, 10u8] + dec_s(w) + seq![32u8] + dec_s(h) + seq![10u8] + seq![
        50u8,
        53u8,
        53u8,
        10u8,
    ]
}

/// The whole file: header then pixel lines.
pub open spec fn ppm_s(w: nat, h: nat, ps: Seq<Rgb>) -> Seq<u8> {
    header_s(w, h) + pixels_s(ps)
}

/// Append the decimal digits of `n`.
fn push_dec(out: &mut Vec<u8>, n: u64)
    ensures
        final(out)@ == old(out)@ + dec_s(n as nat),
    decreases n,
{
    if n < 10 {
        out.push(48 + (n as u8));
        proof {
            assert(out@ =~= old(out)@ + dec_s(n as nat));
        }
    } else {
        push_dec(out, n / 10);
        let d = n % 10;
        out.push(48 + (d as u8));
        proof {
            assert(out@ =~= old(out)@ + dec_s(n as nat));
        }
    }
}

/// Appending one pixel extends the pixel lines by that pixel's line.
proof fn lemma_pixels_push(a: Seq<Rgb>, x: Rgb)
    ensures
        pixels_s(a.push(x)) == pixels_s(a) + pixel_line_s(x),
    decreases a.len(),
{
    if a.len() == 0 {
        assert(a.push(x)[0] == x);
        assert(a.push(x).drop_first() =~= Seq::<Rgb>::empty());
        assert(pixels_s(Seq::<Rgb>::empty()) == Seq::<u8>::empty());
        assert(pixels_s(a.push(x)) == pixel_line_s(x) + Seq::<u8>::empty());
        assert(pixels_s(a) == Seq::<u8>::empty());
        assert(pixels_s(a.push(x)) =~= pixels_s(a) + pixel_line_s(x));
    } else {
        lemma_pixels_push(a.drop_first(), x);
        assert(a.push(x).drop_first() =~= a.drop_first().push(x));
        assert(a.push(x)[0] == a[0]);
        assert(pixels_s(a.push(x)) =~= pixels_s(a) + pixel_line_s(x));
    }
}

/// Serialize a rendered image: the exact header for its dimensions,
/// then one line per pixel in the order given.
pub fn write_ppm(width: u64, height: u64, pixels: &Vec<Rgb>) -> (out: Vec<u8>)
    ensures
        out@ == ppm_s(width as nat, height as nat, pixels@),
{
    let mut out: Vec<u8> = Vec::new();
    out.push(80);
    out.push(51);
    out.push(10);
    push_dec(&mut out, width);
    out.push(32);
    push_dec(&mut out, height);
    out.push(10);
    out.push(50);
    out.push(53);
    out.push(53);
    out.push(10);
    proof {
        assert(out@ =~= header_s(width as nat, height as nat));
    }
    let ghost header = out@;
    let mut idx: usize = 0;
    while idx < pixels.len()
        invariant
            idx <= pixels@.len(),
            header == header_s(width as nat, height as nat),
            out@ == header + pixels_s(pixels@.take(idx as int)),
        decreases pixels@.len() - idx,
    {
        let p = pixels[idx];
        push_dec(&mut out, p.r as u64);
        out.push(32);
        push_dec(&mut out, p.g as u64);
        out.push(32);
        push_dec(&mut out, p.b as u64);
        out.push(10);
        proof {
            lemma_pixels_push(pixels@.take(idx as int), p);
            assert(pixels@.take(idx as int).push(p) =~= pixels@.take(idx as int + 1));
            assert(out@ =~= header + pixels_s(pixels@.take(idx as int + 1)));
        }
        idx = idx + 1;
    }
    proof {
        assert(pixels@.take(idx as int) =~= pixels@);
        assert(out@ =~= ppm_s(width as nat, height as nat, pixels@));
    }
    out
}

} // verus!
