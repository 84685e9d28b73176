//! The picture as a plain-text portable pixmap: a header with the size of the
//! picture and the largest channel level, then one line for each pixel.

use vstd::prelude::*;
use crate::image::Image;
use crate::image::Pixel;

verus! {

/// The ASCII digit for `d`, where `d < 10`.
pub open spec fn digit(d: nat) -> u8 {
    (48 + d) as u8
}

/// `n` written in base ten, with no leading zero.
pub open spec fn decimal(n: nat) -> Seq<u8>
    decreases n,
{
    if n < 10 {
        seq![digit(n)]
    } else {
        decimal(n / 10).push(digit(n % 10))
    }
}

/// The number that a string of ASCII digits denotes in base ten.
pub open spec fn decimal_value(digits: Seq<u8>) -> nat
    decreases digits.len(),
{
    if digits.len() == 0 {
        0
    } else {
        (10 * decimal_value(digits.drop_last()) + (digits.last() - 48)) as nat
    }
}

/// The three channel levels of a pixel, separated by single spaces.
pub open spec fn pixel_text(p: Pixel) -> Seq<u8> {
    decimal(p.r as nat) + seq![32u8] + decimal(p.g as nat) + seq![32u8] + decimal(p.b as nat)
}

/// The pixels, each on a line of its own.
pub open spec fn body(pixels: Seq<Pixel>) -> Seq<u8>
    decreases pixels.len(),
{
    if pixels.len() == 0 {
        Seq::empty()
    } else {
        body(pixels.drop_last()) + pixel_text(pixels.last()) + seq![10u8]
    }
}

/// The magic number of the plain pixmap, the letter P and the digit 3, on a
/// line of its own; the width, a space and the height on the next; then a
/// space and the largest level, 255, on the third.
pub open spec fn header(width: nat, height: nat) -> Seq<u8> {
    seq![80u8, 51u8, 10u8] + decimal(width) + seq![32u8] + decimal(height) + seq![
        10u8,
        32u8,
        50u8,
        53u8,
        53u8,
        10u8,
    ]
}

/// The whole file: the header, then the pixels in the order given.
pub open spec fn ppm(width: nat, height: nat, pixels: Seq<Pixel>) -> Seq<u8> {
    header(width, height) + body(pixels)
}

/// `decimal(n)` is made of digits, starts with `0` only for zero itself, and
/// denotes `n`: no two numbers are written alike.
pub proof fn lemma_decimal_denotes(n: nat)
    ensures
        decimal(n).len() >= 1,
        forall|k: int| 0 <= k < decimal(n).len() ==> 48 <= #[trigger] decimal(n)[k] <= 57,
        decimal(n)[0] == 48 <==> n == 0,
        decimal_value(decimal(n)) == n,
    decreases n,
{
    if n >= 10 {
        lemma_decimal_denotes(n / 10);
        let front = decimal(n / 10);
        let all = front.push(digit(n % 10));
        assert(all.drop_last() =~= front);
        assert(all.last() == 48 + n % 10);
        assert(all[0] == front[0]);
    } else {
        let all = seq![digit(n)];
        assert(all.drop_last() =~= Seq::<u8>::empty());
        assert(decimal_value(all.drop_last()) == 0);
    }
}

/// Appends `n` in base ten.
pub fn write_decimal(out: &mut Vec<u8>, n: usize)
    ensures
        final(out)@ == old(out)@ + decimal(n as nat),
    decreases n,
{
    if n >= 10 {
        write_decimal(out, n / 10);
    }
    out.push(48u8 + (n % 10) as u8);
    proof {
        if n >= 10 {
            assert(final(out)@ =~= old(out)@ + decimal((n / 10) as nat).push(digit((n % 10) as nat)));
        } else {
            assert(final(out)@ =~= old(out)@ + seq![digit(n as nat)]);
        }
    }
}

impl Pixel {
    /// Appends the pixel as `pixel_text` writes it.
    pub fn write_text(&self, out: &mut Vec<u8>)
        ensures
            final(out)@ == old(out)@ + pixel_text(*self),
    {
        write_decimal(out, self.r as usize);
        out.push(32u8);
        write_decimal(out, self.g as usize);
        out.push(32u8);
        write_decimal(out, self.b as usize);
        assert(final(out)@ =~= old(out)@ + pixel_text(*self));
    }

    /// The pixel as text: `r g b`.
    pub fn to_text(&self) -> (text: Vec<u8>)
        ensures
            text@ == pixel_text(*self),
    {
        let mut text: Vec<u8> = Vec::new();
        self.write_text(&mut text);
        assert(text@ =~= pixel_text(*self));
        text
    }
}

impl Image {
    /// The picture as a plain-text pixmap.
    pub fn to_ppm(&self) -> (bytes: Vec<u8>)
        ensures
            bytes@ == ppm(self.width(), self.height(), self@),
    {
        let mut bytes: Vec<u8> = Vec::new();
        bytes.push(80u8);
        bytes.push(51u8);
        bytes.push(10u8);
        write_decimal(&mut bytes, self.image_width());
        bytes.push(32u8);
        write_decimal(&mut bytes, self.image_height());
        bytes.push(10u8);
        bytes.push(32u8);
        bytes.push(50u8);
        bytes.push(53u8);
        bytes.push(53u8);
        bytes.push(10u8);
        assert(bytes@ =~= header(self.width(), self.height()));
        let pixels = self.pixels();
        let mut k: usize = 0;
        assert(pixels@.take(0) =~= Seq::<Pixel>::empty());
        while k < pixels.len()
            invariant
                k <= pixels.len(),
                pixels@ == self@,
                bytes@ == header(self.width(), self.height()) + body(pixels@.take(k as int)),
            decreases pixels.len() - k,
        {
            let ghost before = bytes@;
            pixels[k].write_text(&mut bytes);
            bytes.push(10u8);
            k = k + 1;
            proof {
                let done = pixels@.take(k as int);
                assert(done.drop_last() =~= pixels@.take(k - 1));
                assert(done.last() == pixels@[k - 1]);
                assert(bytes@ =~= header(self.width(), self.height()) + body(done));
            }
        }
        assert(pixels@.take(k as int) =~= pixels@);
        bytes
    }
}

} // verus!
