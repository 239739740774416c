//! The text of one pixel of a plain-text pixmap.

use crate::scalar::Scalar;
use crate::utils::{clamp, clamp_spec};
use crate::vec3::Vec3;
use vstd::prelude::*;

verus! {

/// Code of the largest channel value before scaling, the single-precision
/// value nearest to 0.999.
pub const CHANNEL_MAX_CODE: i32 = 0x3f7f_be77;

/// Two to the power `n`.
pub open spec fn two_to(n: nat) -> nat
    decreases n,
{
    if n == 0 {
        1
    } else {
        2 * two_to((n - 1) as nat)
    }
}

/// The whole part of 256 times a number that is at least 0 and below 1.
///
/// With exponent field `e` and mantissa field `m`, a normal number is
/// `(2^23 + m) * 2^(e - 150)`, so 256 times it is `(2^23 + m) / 2^(142 - e)`.
/// Below `2^-8`, that is for `e < 119`, the product is below 1.
pub open spec fn scaled_floor(x: Scalar) -> int {
    let e = x.magnitude() / 0x80_0000;
    let m = x.magnitude() % 0x80_0000;
    if e < 119 {
        0
    } else {
        (0x80_0000 + m) / (two_to((142 - e) as nat) as int)
    }
}

/// The byte of a channel value: the value is held between 0 and 0.999 and
/// then scaled by 256 and cut to its whole part. What is not a number gives
/// 0.
pub open spec fn channel_byte_spec(x: Scalar) -> int {
    let c = clamp_spec(x, Scalar { code: 0 }, Scalar { code: CHANNEL_MAX_CODE });
    if c.is_nan_spec() {
        0
    } else {
        scaled_floor(c)
    }
}

/// The byte of a channel value.
pub fn channel_byte(x: Scalar) -> (b: u8)
    ensures
        b == channel_byte_spec(x),
{
    let c = clamp(x, Scalar::zero(), Scalar { code: CHANNEL_MAX_CODE });
    if c.is_nan() {
        return 0;
    }
    let magnitude: i32 = if c.code >= 0 {
        c.code
    } else {
        -1 - c.code
    };
    assert(0 <= magnitude <= CHANNEL_MAX_CODE);
    let e: i32 = magnitude / 0x80_0000;
    let m: i32 = magnitude % 0x80_0000;
    if e < 119 {
        return 0;
    }
    assert(e <= 126);
    let mut divisor: i32 = 65536;
    let mut k: i32 = 16;
    assert(two_to(16) == 65536) by {
        reveal_with_fuel(two_to, 17);
    }
    while k < 142 - e
        invariant
            16 <= k <= 142 - e,
            119 <= e <= 126,
            divisor == two_to(k as nat),
            65536 <= divisor <= 65536 * 128,
            k < 23 ==> divisor <= 65536 * 64,
            k < 22 ==> divisor <= 65536 * 32,
            k < 21 ==> divisor <= 65536 * 16,
            k < 20 ==> divisor <= 65536 * 8,
            k < 19 ==> divisor <= 65536 * 4,
            k < 18 ==> divisor <= 65536 * 2,
            k < 17 ==> divisor <= 65536,
        decreases 142 - e - k,
    {
        divisor = divisor * 2;
        k = k + 1;
    }
    assert(0 <= (0x80_0000 + m) / (divisor as int) <= 255) by (nonlinear_arith)
        requires
            divisor >= 65536,
            0 <= m < 0x80_0000,
    ;
    ((0x80_0000 + m) / divisor) as u8
}

/// The bytes of the three channels of a colour.
pub open spec fn channel_bytes(c: Vec3) -> (u8, u8, u8) {
    (
        channel_byte_spec(c.coords()[0]) as u8,
        channel_byte_spec(c.coords()[1]) as u8,
        channel_byte_spec(c.coords()[2]) as u8,
    )
}

/// A channel byte lies between 0 and 255, whatever the value was.
pub proof fn lemma_channel_byte_in_range(x: Scalar)
    ensures
        0 <= channel_byte_spec(x) <= 255,
{
    let c = clamp_spec(x, Scalar { code: 0 }, Scalar { code: CHANNEL_MAX_CODE });
    if !c.is_nan_spec() {
        let e = c.magnitude() / 0x80_0000;
        let m = c.magnitude() % 0x80_0000;
        if e >= 119 {
            assert(e <= 126);
            lemma_two_to_grows(16, (142 - e) as nat);
            assert(two_to(16) == 65536) by {
                reveal_with_fuel(two_to, 17);
            }
            let d = two_to((142 - e) as nat) as int;
            assert((0x80_0000 + m) / d <= 255) by (nonlinear_arith)
                requires
                    d >= 65536,
                    0 <= m < 0x80_0000,
            ;
            assert((0x80_0000 + m) / d >= 0) by (nonlinear_arith)
                requires
                    d >= 65536,
                    0 <= m < 0x80_0000,
            ;
        }
    }
}

proof fn lemma_two_to_grows(a: nat, b: nat)
    requires
        a <= b,
    ensures
        two_to(a) <= two_to(b),
    decreases b,
{
    if a < b {
        lemma_two_to_grows(a, (b - 1) as nat);
    }
}

/// The decimal digits of `n` as ASCII bytes, without leading zeros.
pub open spec fn decimal(n: nat) -> Seq<u8>
    decreases n,
{
    if n < 10 {
        seq![(48 + n) as u8]
    } else {
        decimal(n / 10).push((48 + n % 10) as u8)
    }
}

/// The line of one pixel: the three channels in decimal, separated by single
/// spaces and ended by a line feed.
pub open spec fn color_line(r: u8, g: u8, b: u8) -> Seq<u8> {
    decimal(r as nat) + seq![32u8] + decimal(g as nat) + seq![32u8] + decimal(b as nat) + seq![
        10u8,
    ]
}

/// `s` read from the back.
pub open spec fn backwards(s: Seq<u8>) -> Seq<u8> {
    Seq::new(s.len(), |i: int| s[s.len() - 1 - i])
}

/// Appends the decimal digits of `n`.
pub fn write_decimal(writer: &mut Vec<u8>, n: usize)
    ensures
        final(writer)@ == old(writer)@ + decimal(n as nat),
{
    let mut digits: Vec<u8> = Vec::new();
    digits.push(48 + (n % 10) as u8);
    let mut rest: usize = n / 10;
    assert(backwards(digits@) == seq![(48 + n % 10) as u8]);
    while rest > 0
        invariant
            digits.len() > 0,
            decimal(n as nat) == (if rest > 0 {
                decimal(rest as nat)
            } else {
                Seq::<u8>::empty()
            }) + backwards(digits@),
        decreases rest,
    {
        let ghost before = digits@;
        let digit: u8 = 48 + (rest % 10) as u8;
        digits.push(digit);
        assert(backwards(digits@) == seq![digit] + backwards(before));
        rest = rest / 10;
    }
    let mut k: usize = digits.len();
    while k > 0
        invariant
            k <= digits.len(),
            writer@ == old(writer)@ + backwards(digits@).take(digits.len() - k),
        decreases k,
    {
        k = k - 1;
        let ghost before = writer@;
        writer.push(digits[k]);
        assert(backwards(digits@).take(digits.len() - k) == backwards(digits@).take(
            digits.len() - k - 1,
        ).push(digits@[k as int]));
    }
    assert(backwards(digits@).take(digits.len() as int) == backwards(digits@));
}

/// Appends the line of a pixel whose channels are `r`, `g` and `b`.
pub fn write_rgb_line(writer: &mut Vec<u8>, r: u8, g: u8, b: u8)
    ensures
        final(writer)@ == old(writer)@ + color_line(r, g, b),
{
    write_decimal(writer, r as usize);
    writer.push(32);
    write_decimal(writer, g as usize);
    writer.push(32);
    write_decimal(writer, b as usize);
    writer.push(10);
}

/// The line of a pixel of the given corrected colour.
pub open spec fn pixel_line(corrected: Vec3) -> Seq<u8> {
    color_line(
        channel_bytes(corrected).0,
        channel_bytes(corrected).1,
        channel_bytes(corrected).2,
    )
}

/// Appends the line of one pixel to an in-memory writer.
///
/// `correct` turns the pixel's accumulated colour and the number of samples
/// into the averaged, gamma-corrected colour. The line written holds the
/// channel bytes of the colour it returned.
pub fn write_color_to_writer<P, G: Fn(&P, usize) -> Vec3>(
    writer: &mut Vec<u8>,
    pixel_color: &P,
    samples_per_pixel: usize,
    correct: &G,
)
    requires
        correct.requires((pixel_color, samples_per_pixel)),
    ensures
        exists|corrected: Vec3| #[trigger]
            correct.ensures((pixel_color, samples_per_pixel), corrected) && final(writer)@ == old(
                writer,
            )@ + pixel_line(corrected),
{
    let corrected = correct(pixel_color, samples_per_pixel);
    let r = channel_byte(corrected.x());
    let g = channel_byte(corrected.y());
    let b = channel_byte(corrected.z());
    write_rgb_line(writer, r, g, b);
}

} // verus!
