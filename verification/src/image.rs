//! The plain-text image format: a header, then one line per pixel.

use vstd::prelude::*;
use crate::interval::Interval;
use crate::scalar::below;
use crate::scalar::less;
use crate::scalar::not_above;
use crate::vec::Color3;

verus! {

/// The code of 0.999: the brightest a channel gets.
pub const BRIGHTEST: i64 = 0x3FEF_F7CE_D916_872B;

/// The decimal digits of `n` as ASCII bytes, without leading zeros.
pub open spec fn decimal(n: nat) -> Seq<u8>
    decreases n,
{
    if n < 10 {
        seq![(48 + n) as u8]
    } else {
        decimal(n / 10).push((48 + n % 10) as u8)
    }
}

/// The header of an image of the given size: the mark of the plain-text
/// pixmap format, the width and the height, and the largest channel value
/// 255, on three lines.
pub open spec fn header_bytes(width: nat, height: nat) -> Seq<u8> {
    seq![80u8, 51u8, 10u8] + decimal(width) + seq![32u8] + decimal(height) + seq![
        10u8,
        50u8,
        53u8,
        53u8,
        10u8,
    ]
}

/// One pixel of the image: red, green and blue, each from 0 to 255.
#[derive(Debug, Clone, Copy, PartialEq, Eq, Structural)]
pub struct Rgb {
    pub r: u8,
    pub g: u8,
    pub b: u8,
}

/// The line of a pixel: its three channels in decimal, a space between them.
pub open spec fn pixel_line(pixel: Rgb) -> Seq<u8> {
    decimal(pixel.r as nat) + seq![32u8] + decimal(pixel.g as nat) + seq![32u8] + decimal(
        pixel.b as nat,
    ) + seq![10u8]
}

/// The sequences of `chunks`, one after the other.
pub open spec fn joined(chunks: Seq<Vec<u8>>) -> Seq<u8>
    decreases chunks.len(),
{
    if chunks.len() == 0 {
        Seq::empty()
    } else {
        joined(chunks.drop_last()) + chunks.last()@
    }
}

/// Appends the decimal digits of `n`.
pub fn push_decimal(output: &mut Vec<u8>, n: usize)
    ensures
        final(output)@ == old(output)@ + decimal(n as nat),
    decreases n,
{
    if n >= 10 {
        push_decimal(output, n / 10);
    }
    let digit: u8 = (48 + n % 10) as u8;
    output.push(digit);
    proof {
        if n >= 10 {
            assert(output@ =~= old(output)@ + decimal((n / 10) as nat).push(digit));
        } else {
            assert(output@ =~= old(output)@ + seq![digit]);
        }
    }
}

/// The header of an image of the given size.
pub fn header(width: usize, height: usize) -> (bytes: Vec<u8>)
    ensures
        bytes@ == header_bytes(width as nat, height as nat),
{
    let mut bytes: Vec<u8> = Vec::new();
    bytes.push(80);
    bytes.push(51);
    bytes.push(10);
    assert(bytes@ =~= seq![80u8, 51u8, 10u8]);
    push_decimal(&mut bytes, width);
    bytes.push(32);
    push_decimal(&mut bytes, height);
    bytes.push(10);
    bytes.push(50);
    bytes.push(53);
    bytes.push(53);
    bytes.push(10);
    assert(bytes@ =~= header_bytes(width as nat, height as nat));
    bytes
}

impl Rgb {
    /// Appends the pixel's line.
    pub fn write(&self, output: &mut Vec<u8>)
        ensures
            final(output)@ == old(output)@ + pixel_line(*self),
    {
        push_decimal(output, self.r as usize);
        output.push(32);
        push_decimal(output, self.g as usize);
        output.push(32);
        push_decimal(output, self.b as usize);
        output.push(10);
        assert(output@ =~= old(output)@ + pixel_line(*self));
    }
}

/// The range of a colour channel that is written out: from black to just
/// under full brightness.
pub fn intensity() -> (r: Interval)
    ensures
        r == (Interval { min: 0, max: BRIGHTEST }),
{
    Interval::new(0, BRIGHTEST)
}

/// `byte` is what a channel of linear brightness `linear` can be written as:
/// the square root of a brightness above zero is asked of `root`, and
/// anything else, also what is not a number, counts as zero; the result is
/// clamped to [`intensity`], where what is not a number becomes zero, and the
/// byte of that is asked of `scale`.
pub open spec fn shown<R: Fn(i64) -> i64, S: Fn(i64) -> u8>(root: R, scale: S, linear: i64, byte: u8) -> bool {
    exists|gamma: i64|
        (if below(0, linear as int) {
            root.ensures((linear,), gamma)
        } else {
            gamma == 0
        }) && scale.ensures(
            (#[trigger] (Interval { min: 0, max: BRIGHTEST }).spec_clamp(gamma as int) as i64,),
            byte,
        )
}

/// `pixel` is what the linear colour `colour` can be written as, channel by
/// channel.
pub open spec fn quantised<R: Fn(i64) -> i64, S: Fn(i64) -> u8>(
    root: R,
    scale: S,
    colour: Color3,
    pixel: Rgb,
) -> bool {
    shown(root, scale, colour.x, pixel.r) && shown(root, scale, colour.y, pixel.g) && shown(
        root,
        scale,
        colour.z,
        pixel.b,
    )
}

/// `root` grows with what it is asked: of two numbers above zero it gives the
/// greater one the greater root, and its roots are numbers not below zero.
pub open spec fn root_grows<R: Fn(i64) -> i64>(root: R) -> bool {
    forall|c: i64, d: i64, g: i64, h: i64|
        below(0, c as int) && not_above(c as int, d as int) && #[trigger] root.ensures((c,), g)
            && #[trigger] root.ensures((d,), h) ==> not_above(0, g as int) && not_above(
            g as int,
            h as int,
        )
}

/// `scale` grows with what it is asked, within [`intensity`].
pub open spec fn scale_grows<S: Fn(i64) -> u8>(scale: S) -> bool {
    forall|c: i64, d: i64, a: u8, b: u8|
        0 <= c <= d <= BRIGHTEST && #[trigger] scale.ensures((c,), a) && #[trigger] scale.ensures(
            (d,),
            b,
        ) ==> a <= b
}

/// A brighter channel is never written as a smaller byte, where `root` and
/// `scale` grow with what they are asked.
pub proof fn lemma_brighter_is_no_darker<R: Fn(i64) -> i64, S: Fn(i64) -> u8>(
    root: R,
    scale: S,
    dim: i64,
    bright: i64,
    low: u8,
    high: u8,
)
    requires
        root_grows(root),
        scale_grows(scale),
        not_above(dim as int, bright as int),
        shown(root, scale, dim, low),
        shown(root, scale, bright, high),
    ensures
        low <= high,
{
    let range = Interval { min: 0, max: BRIGHTEST };
    let g = choose|gamma: i64|
        (if below(0, dim as int) {
            root.ensures((dim,), gamma)
        } else {
            gamma == 0
        }) && scale.ensures((#[trigger] range.spec_clamp(gamma as int) as i64,), low);
    let h = choose|gamma: i64|
        (if below(0, bright as int) {
            root.ensures((bright,), gamma)
        } else {
            gamma == 0
        }) && scale.ensures((#[trigger] range.spec_clamp(gamma as int) as i64,), high);
    if below(0, bright as int) {
        assert(root.ensures((bright,), h) && root.ensures((bright,), h));
        if below(0, dim as int) {
            assert(root.ensures((dim,), g) && root.ensures((bright,), h));
        }
    }
    assert(0 <= range.spec_clamp(g as int) <= range.spec_clamp(h as int) <= BRIGHTEST);
}

/// The byte of one channel of linear brightness `linear`.
pub fn channel<R: Fn(i64) -> i64, S: Fn(i64) -> u8>(linear: i64, root: &R, scale: &S) -> (byte: u8)
    requires
        forall|c: i64| below(0, c as int) ==> #[trigger] root.requires((c,)),
        forall|c: i64| 0 <= c <= BRIGHTEST ==> #[trigger] scale.requires((c,)),
    ensures
        shown(*root, *scale, linear, byte),
{
    let gamma: i64 = if less(0, linear) {
        root(linear)
    } else {
        0
    };
    let clamped: i64 = intensity().clamp(gamma);
    let byte: u8 = scale(clamped);
    assert(clamped == (Interval { min: 0, max: BRIGHTEST }).spec_clamp(gamma as int) as i64);
    byte
}

impl Color3 {
    /// Appends the line of the pixel that this linear colour is shown as:
    /// each channel is gamma-corrected by a square root, clamped to
    /// [`intensity`] and scaled to a byte. `root(c)` gives the square root of
    /// a number `c` above zero, and `scale(c)` gives `c` times 256, rounded
    /// down, for `c` in [`intensity`].
    pub fn write<R: Fn(i64) -> i64, S: Fn(i64) -> u8>(&self, output: &mut Vec<u8>, root: &R, scale: &S)
        requires
            forall|c: i64| below(0, c as int) ==> #[trigger] root.requires((c,)),
            forall|c: i64| 0 <= c <= BRIGHTEST ==> #[trigger] scale.requires((c,)),
        ensures
            exists|pixel: Rgb|
                quantised(*root, *scale, *self, pixel) && final(output)@ == old(output)@
                    + #[trigger] pixel_line(pixel),
    {
        let r: u8 = channel(self.x, root, scale);
        let g: u8 = channel(self.y, root, scale);
        let b: u8 = channel(self.z, root, scale);
        let pixel: Rgb = Rgb { r, g, b };
        pixel.write(output);
        assert(quantised(*root, *scale, *self, pixel) && output@ == old(output)@ + pixel_line(pixel));
    }
}

/// Puts the parts of an image together: the header, then the pixel lines of
/// each chunk of rows, in the order of `chunks`.
pub fn assemble(width: usize, height: usize, chunks: &Vec<Vec<u8>>) -> (image: Vec<u8>)
    ensures
        image@ == header_bytes(width as nat, height as nat) + joined(chunks@),
{
    let mut image: Vec<u8> = header(width, height);
    let mut k: usize = 0;
    while k < chunks.len()
        invariant
            k <= chunks.len(),
            image@ == header_bytes(width as nat, height as nat) + joined(chunks@.take(k as int)),
        decreases chunks.len() - k,
    {
        let chunk: &Vec<u8> = &chunks[k];
        let ghost before = image@;
        let mut i: usize = 0;
        while i < chunk.len()
            invariant
                i <= chunk.len(),
                image@ == before + chunk@.take(i as int),
            decreases chunk.len() - i,
        {
            image.push(chunk[i]);
            i = i + 1;
            assert(chunk@.take(i as int) =~= chunk@.take(i - 1).push(chunk@[i - 1]));
        }
        proof {
            assert(chunk@.take(i as int) =~= chunk@);
            assert(chunks@.take(k + 1).drop_last() =~= chunks@.take(k as int));
            assert(image@ =~= header_bytes(width as nat, height as nat) + joined(
                chunks@.take(k + 1),
            ));
        }
        k = k + 1;
    }
    assert(chunks@.take(k as int) =~= chunks@);
    image
}

} // verus!
