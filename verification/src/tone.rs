//! The tone curve: brightness, then contrast, on one colour sample.
//!
//! With a brightness `b` the sample `x` is first moved to
//! `(highlight - shadow) / 255 * x + shadow`, where `shadow` is `b` and
//! `highlight` is 255 for a positive `b`, and `shadow` is 0 and `highlight`
//! is `255 + b` otherwise. With a contrast `c` and the factor
//! `f = 131 * (c + 127) / (127 * (131 - c))` the result `y` of that is then
//! moved to `f * y + 127 * (1 - f)`. The value is held between 0 and 255
//! and its fraction is dropped. The order of the two steps is part of the
//! rule. All of this is computed on exact fractions.

use vstd::prelude::*;
use vstd::arithmetic::div_mod::lemma_fundamental_div_mod_converse;

verus! {

/// The strongest brightness, in either direction.
pub const MAX_BRIGHTNESS: i32 = 255;

/// The strongest contrast, in either direction.
pub const MAX_CONTRAST: i32 = 127;

/// The brightness is one that the tone curve is defined for.
pub open spec fn brightness_in_range(brightness: int) -> bool {
    -255 <= brightness <= 255
}

/// The contrast is one that the tone curve is defined for.
pub open spec fn contrast_in_range(contrast: int) -> bool {
    -127 <= contrast <= 127
}

/// 255 times the sample after the brightness step.
pub open spec fn brightened_255(x: int, brightness: int) -> int {
    let shadow = if brightness > 0 { brightness } else { 0 };
    let highlight = if brightness > 0 { 255 } else { 255 + brightness };
    (highlight - shadow) * x + 255 * shadow
}

/// The numerator of the contrast factor.
pub open spec fn contrast_numerator(contrast: int) -> int {
    131 * (contrast + 127)
}

/// The denominator of the contrast factor: positive for every contrast in
/// range.
pub open spec fn contrast_denominator(contrast: int) -> int {
    127 * (131 - contrast)
}

/// The sample after both steps, rounded down to a whole number and not yet
/// held between 0 and 255.
///
/// With `f = n / d` and `y = b255 / 255` the value `f * y + 127 * (1 - f)`
/// is `127 + n * (b255 - 127 * 255) / (255 * d)`.
pub open spec fn toned_unclamped(x: int, brightness: int, contrast: int) -> int {
    127 + (contrast_numerator(contrast) * (brightened_255(x, brightness) - 127 * 255)) / (255
        * contrast_denominator(contrast))
}

/// The colour sample `x` after the tone curve.
pub open spec fn toned(x: int, brightness: int, contrast: int) -> int {
    let v = toned_unclamped(x, brightness, contrast);
    if v < 0 {
        0
    } else if v > 255 {
        255
    } else {
        v
    }
}

/// The samples of an image after the tone curve: every colour sample is
/// remapped, every alpha sample is kept.
pub open spec fn toned_samples(samples: Seq<u8>, brightness: int, contrast: int) -> Seq<u8> {
    Seq::new(
        samples.len(),
        |i: int|
            if i % 4 == 3 {
                samples[i]
            } else {
                toned(samples[i] as int, brightness, contrast) as u8
            },
    )
}

/// Without brightness and without contrast the tone curve changes no
/// sample.
pub proof fn lemma_tone_identity(x: int)
    requires
        0 <= x <= 255,
    ensures
        toned(x, 0, 0) == x,
{
    assert(contrast_numerator(0) == 16637);
    assert(255 * contrast_denominator(0) == 4242435);
    assert(16637 * (255 * x - 127 * 255) == 4242435 * (x - 127));
    lemma_fundamental_div_mod_converse(4242435 * (x - 127), 4242435, x - 127, 0);
}

/// Without brightness and without contrast the tone curve leaves the
/// samples of an image as they are.
pub proof fn lemma_tone_identity_on_samples(samples: Seq<u8>)
    ensures
        toned_samples(samples, 0, 0) == samples,
{
    assert forall|i: int| 0 <= i < samples.len() implies toned_samples(samples, 0, 0)[i]
        == samples[i] by {
        lemma_tone_identity(samples[i] as int);
    }
    assert(toned_samples(samples, 0, 0) =~= samples);
}

/// Whatever the sample, the brightness and the contrast: the tone curve
/// gives a sample between 0 and 255.
pub proof fn lemma_tone_in_range(x: int, brightness: int, contrast: int)
    ensures
        0 <= toned(x, brightness, contrast) <= 255,
{
}

/// The tone curve keeps the number of samples, gives samples between 0 and
/// 255 and keeps every alpha sample.
pub proof fn lemma_toned_samples(samples: Seq<u8>, brightness: int, contrast: int)
    ensures
        toned_samples(samples, brightness, contrast).len() == samples.len(),
        forall|i: int|
            0 <= i < samples.len() ==> 0 <= #[trigger] toned_samples(
                samples,
                brightness,
                contrast,
            )[i] <= 255,
        forall|i: int|
            0 <= i < samples.len() && i % 4 == 3 ==> #[trigger] toned_samples(
                samples,
                brightness,
                contrast,
            )[i] == samples[i],
{
}

/// The quotient of `n` by a positive `d`, rounded down.
fn floor_div(n: i64, d: i64) -> (q: i64)
    requires
        0 < d <= 0x1_0000_0000,
        -0x1_0000_0000_0000 <= n <= 0x1_0000_0000_0000,
    ensures
        q == n / d,
        -0x2_0000_0000_0000 <= q <= 0x2_0000_0000_0000,
{
    if n >= 0 {
        assert(0 <= (n as int) / (d as int) <= n) by (nonlinear_arith)
            requires
                n >= 0,
                d > 0,
        ;
        n / d
    } else {
        let m: i64 = -n;
        let k: i64 = (m + d - 1) / d;
        proof {
            let r = n + k * d;
            assert(0 <= k <= m + d - 1) by (nonlinear_arith)
                requires
                    k == (m + d - 1) / (d as int),
                    d > 0,
                    m + d - 1 >= 0,
            ;
            assert(k * d <= m + d - 1 && m + d - 1 < k * d + d) by (nonlinear_arith)
                requires
                    k == (m + d - 1) / (d as int),
                    d > 0,
                    m + d - 1 >= 0,
            ;
            assert(n == (-k) * d + r) by (nonlinear_arith)
                requires
                    r == n + k * d,
            ;
            lemma_fundamental_div_mod_converse(n as int, d as int, -k as int, r as int);
        }
        -k
    }
}

/// The colour sample `value` after the tone curve.
pub fn tone_sample(value: u8, brightness: i32, contrast: i32) -> (out: u8)
    requires
        brightness_in_range(brightness as int),
        contrast_in_range(contrast as int),
    ensures
        out == toned(value as int, brightness as int, contrast as int),
{
    let shadow: i64 = if brightness > 0 { brightness as i64 } else { 0 };
    let highlight: i64 = if brightness > 0 { 255 } else { 255 + brightness as i64 };
    assert(0 <= (highlight - shadow) * value <= 65025) by (nonlinear_arith)
        requires
            0 <= highlight - shadow <= 255,
            0 <= value <= 255,
    ;
    let b255: i64 = (highlight - shadow) * value as i64 + 255 * shadow;
    let n: i64 = 131 * (contrast as i64 + 127);
    let d: i64 = 255 * (127 * (131 - contrast as i64));
    assert(-0x1_0000_0000_0000 <= n * (b255 - 127 * 255) <= 0x1_0000_0000_0000)
        by (nonlinear_arith)
        requires
            0 <= n <= 33274,
            -32385 <= b255 - 127 * 255 <= 130050,
    ;
    let v: i64 = 127 + floor_div(n * (b255 - 127 * 255), d);
    if v < 0 {
        0
    } else if v > 255 {
        255
    } else {
        v as u8
    }
}

} // verus!
