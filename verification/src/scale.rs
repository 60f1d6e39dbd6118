//! Scale factors, and the blocks that they cut an axis into.

use crate::printimage::PrintImageError;
use vstd::arithmetic::div_mod::*;
use vstd::arithmetic::power2::*;
use vstd::prelude::*;

verus! {

/// A scale factor, held exactly as the fraction `num / den`.
///
/// Only a fraction with a positive numerator and denominator is a scale; any
/// other is kept as given and refused where it is used.
#[derive(Clone, Copy, Debug)]
pub struct Ratio {
    pub num: i64,
    pub den: u64,
}

/// The scale factors of the two axes: `x` for the width, `y` for the height.
#[derive(Clone, Copy, Debug)]
pub struct Scale {
    pub x: Ratio,
    pub y: Ratio,
}

impl Ratio {
    /// The fraction stands for a number above zero.
    pub open spec fn positive(self) -> bool {
        self.num > 0 && self.den > 0
    }

    /// `len` times the fraction, rounded down.
    pub open spec fn scaled(self, len: int) -> int {
        (len * self.num) / (self.den as int)
    }
}

/// The ratio can scale an axis of `len` pixels: it is positive, and asks for
/// at least one block and for no more blocks than there are pixels.
pub open spec fn axis_valid(len: int, ratio: Ratio) -> bool {
    ratio.positive() && 1 <= ratio.scaled(len) <= len
}

/// The length of a block along an axis of `len` pixels: `len` divided by the
/// number of blocks asked for, rounded down.
pub open spec fn step_of(len: int, ratio: Ratio) -> int {
    len / ratio.scaled(len)
}

/// The number of blocks of `step` pixels that cover `len` pixels, the last of
/// them shorter where `step` does not divide `len`.
pub open spec fn block_count(len: int, step: int) -> int {
    (len - 1) / step + 1
}

/// Where the block that starts at `start` ends: a step further, or at the end
/// of the axis if that comes first.
pub open spec fn block_end(start: int, step: int, len: int) -> int {
    if start + step < len {
        start + step
    } else {
        len
    }
}

/// The length of a block along an axis of `len` pixels under `ratio`.
///
/// `InvalidScale` is returned exactly where the ratio is not positive, asks
/// for no block at all, or asks for more blocks than the axis has pixels, which
/// would leave a block empty.
pub fn block_step(len: usize, ratio: Ratio) -> (res: Result<usize, PrintImageError>)
    ensures
        res is Ok <==> axis_valid(len as int, ratio),
        res matches Ok(step) ==> step == step_of(len as int, ratio) && 1 <= step <= len,
        res matches Err(e) ==> e is InvalidScale,
{
    if ratio.num <= 0 || ratio.den == 0 {
        return Err(PrintImageError::InvalidScale);
    }
    assert(len * ratio.num <= 0xffff_ffff_ffff_ffff * 0x7fff_ffff_ffff_ffff) by (nonlinear_arith)
        requires
            0 <= len <= 0xffff_ffff_ffff_ffff,
            0 < ratio.num <= 0x7fff_ffff_ffff_ffff,
    ;
    assert(0 <= len * ratio.num) by (nonlinear_arith)
        requires
            0 <= len,
            0 < ratio.num,
    ;
    let wanted: u128 = (len as u128) * (ratio.num as u128) / (ratio.den as u128);
    if wanted == 0 || wanted > len as u128 {
        return Err(PrintImageError::InvalidScale);
    }
    let step: usize = len / (wanted as usize);
    proof {
        lemma_div_is_ordered_by_denominator(len as int, 1, wanted as int);
        lemma_div_non_zero(len as int, wanted as int);
    }
    Ok(step)
}

impl Scale {
    /// The scale that asks for `columns` by `lines` blocks of a raster of
    /// `width` by `height` pixels.
    pub fn for_size(width: usize, height: usize, columns: u32, lines: u32) -> (scale: Scale)
        ensures
            scale.x.num == columns,
            scale.x.den == width,
            scale.y.num == lines,
            scale.y.den == height,
            width > 0 ==> scale.x.scaled(width as int) == columns,
            height > 0 ==> scale.y.scaled(height as int) == lines,
    {
        proof {
            if width > 0 {
                lemma_div_multiples_vanish(columns as int, width as int);
            }
            if height > 0 {
                lemma_div_multiples_vanish(lines as int, height as int);
            }
        }
        Scale {
            x: Ratio { num: columns as i64, den: width as u64 },
            y: Ratio { num: lines as i64, den: height as u64 },
        }
    }
}

/// The sign of the single-precision number with the given bits: 1 below zero.
pub open spec fn f32_sign(bits: u32) -> int {
    bits as int / 0x8000_0000
}

/// The exponent field of the single-precision number with the given bits.
pub open spec fn f32_exponent(bits: u32) -> int {
    (bits as int / 0x80_0000) % 0x100
}

/// The fraction field of the single-precision number with the given bits.
pub open spec fn f32_fraction(bits: u32) -> int {
    bits as int % 0x80_0000
}

/// The number with the given bits is above zero: it is no NaN, not zero and
/// not negative. Infinity is above zero.
pub open spec fn f32_positive(bits: u32) -> bool {
    &&& f32_sign(bits) == 0
    &&& !(f32_exponent(bits) == 255 && f32_fraction(bits) != 0)
    &&& !(f32_exponent(bits) == 0 && f32_fraction(bits) == 0)
}

/// The integer `m` for which the number with the given bits is
/// `m * 2^f32_power(bits)` in absolute value.
pub open spec fn f32_mantissa(bits: u32) -> int {
    if f32_exponent(bits) == 0 {
        f32_fraction(bits)
    } else {
        f32_fraction(bits) + 0x80_0000
    }
}

/// The power of two that the mantissa is multiplied by. Infinity has the
/// power of the number `2^128`, which it stands for here.
pub open spec fn f32_power(bits: u32) -> int {
    if f32_exponent(bits) == 0 {
        -149
    } else {
        f32_exponent(bits) - 150
    }
}

/// `len` times the number with the given bits, rounded down.
pub open spec fn f32_scaled(bits: u32, len: int) -> int {
    if f32_power(bits) >= 0 {
        len * f32_mantissa(bits) * pow2(f32_power(bits) as nat)
    } else {
        (len * f32_mantissa(bits)) / (pow2((-f32_power(bits)) as nat) as int)
    }
}

/// The number with the given bits can scale an axis of `len` pixels: it is
/// above zero, and asks for at least one block and for no more blocks than
/// there are pixels.
pub open spec fn f32_axis_valid(bits: u32, len: int) -> bool {
    f32_positive(bits) && 1 <= f32_scaled(bits, len) <= len
}

impl Ratio {
    /// The fraction that stands for the single-precision number with the
    /// given bits.
    ///
    /// On every axis of up to `u32::MAX` pixels the fraction is valid exactly
    /// where the number is, and then asks for the same number of blocks. A
    /// number that is not above zero gives a fraction that is not positive.
    pub fn from_f32_bits(bits: u32) -> (ratio: Ratio)
        ensures
            ratio.positive() <==> f32_positive(bits),
            forall|len: int|
                0 <= len <= u32::MAX ==> #[trigger] axis_valid(len, ratio) == f32_axis_valid(
                    bits,
                    len,
                ),
            forall|len: int|
                0 <= len <= u32::MAX && #[trigger] axis_valid(len, ratio) ==> ratio.scaled(len)
                    == f32_scaled(bits, len),
    {
        let sign: u32 = bits / 0x8000_0000;
        let exponent: u32 = (bits / 0x80_0000) % 0x100;
        let fraction: u32 = bits % 0x80_0000;
        if sign != 0 || (exponent == 255 && fraction != 0) || (exponent == 0 && fraction == 0) {
            return Ratio { num: 0, den: 1 };
        }
        let mantissa: u32 = if exponent == 0 { fraction } else { fraction + 0x80_0000 };
        let power: i32 = if exponent == 0 { -149 } else { exponent as i32 - 150 };
        if power >= 0 {
            // At least 2^23: more blocks than pixels on every axis.
            let ratio = Ratio { num: mantissa as i64, den: 1 };
            proof {
                lemma_pow2_pos(power as nat);
                assert forall|len: int| 0 <= len <= u32::MAX implies #[trigger] axis_valid(
                    len,
                    ratio,
                ) == f32_axis_valid(bits, len) && !axis_valid(len, ratio) by {
                    let m = mantissa as int;
                    let p = pow2(power as nat) as int;
                    assert(len * m == 0 || len * m > len) by (nonlinear_arith)
                        requires
                            0 <= len,
                            m >= 2,
                    ;
                    assert(len * m * p >= len * m) by (nonlinear_arith)
                        requires
                            0 <= len,
                            m >= 2,
                            p >= 1,
                    ;
                    assert(len * m == 0 ==> len * m * p == 0) by (nonlinear_arith);
                }
            }
            ratio
        } else if power < -63 {
            // Below 2^-40: no block on any axis of up to u32::MAX pixels.
            let ratio = Ratio { num: 1, den: u64::MAX };
            proof {
                lemma2_to64();
                lemma2_to64_rest();
                if power < -64 {
                    lemma_pow2_strictly_increases(64, (-power) as nat);
                }
                assert forall|len: int| 0 <= len <= u32::MAX implies #[trigger] axis_valid(
                    len,
                    ratio,
                ) == f32_axis_valid(bits, len) && !axis_valid(len, ratio) by {
                    let m = mantissa as int;
                    let d = pow2((-power) as nat) as int;
                    assert(0 <= len * m < 0x1_0000_0000_0000_0000) by (nonlinear_arith)
                        requires
                            0 <= len <= 0xffff_ffff,
                            0 <= m < 0x100_0000,
                    ;
                    lemma_basic_div(len * m, d);
                    lemma_basic_div(len * 1, u64::MAX as int);
                }
            }
            ratio
        } else {
            let mut den: u64 = 1;
            let mut done: i32 = 0;
            proof {
                lemma2_to64();
            }
            while done < -power
                invariant
                    0 <= done <= -power <= 63,
                    den == pow2(done as nat),
                decreases -power - done,
            {
                proof {
                    lemma2_to64_rest();
                    lemma_pow2_unfold((done + 1) as nat);
                    if done + 1 < 63 {
                        lemma_pow2_strictly_increases((done + 1) as nat, 63);
                    }
                }
                den = den * 2;
                done += 1;
            }
            proof {
                lemma_pow2_pos((-power) as nat);
            }
            Ratio { num: mantissa as i64, den }
        }
    }
}

/// No block is needed to cover an axis without pixels.
pub proof fn lemma_block_count_empty(step: int)
    requires
        1 <= step,
    ensures
        block_count(0, step) == 0,
{
    assert((0 - 1) / step == -1) by (nonlinear_arith)
        requires
            1 <= step,
    ;
}

/// An axis that holds a pixel needs at least one block, and no more blocks
/// than it has pixels.
pub proof fn lemma_block_count_positive(len: int, step: int)
    requires
        1 <= len,
        1 <= step,
    ensures
        1 <= block_count(len, step) <= len,
{
    assert(0 <= (len - 1) / step <= len - 1) by (nonlinear_arith)
        requires
            1 <= len,
            1 <= step,
    ;
}

/// A block that is counted starts inside the axis.
pub proof fn lemma_block_starts_inside(len: int, step: int, b: int)
    requires
        1 <= step,
        0 <= b < block_count(len, step),
    ensures
        1 <= len,
        0 <= b * step < len,
        b * step < block_end(b * step, step, len) <= len,
{
    let q = (len - 1) / step;
    assert(len >= 1 && q * step <= len - 1 && q >= 0) by (nonlinear_arith)
        requires
            q == (len - 1) / step,
            1 <= step,
            b < q + 1,
            0 <= b,
    ;
    assert(0 <= b * step <= q * step) by (nonlinear_arith)
        requires
            0 <= b <= q,
            1 <= step,
    ;
}

/// A quotient moves by `a` when `a` times the divisor is added.
proof fn lemma_div_add_multiple(a: int, b: int, d: int)
    requires
        0 < d,
    ensures
        (a * d + b) / d == a + b / d,
{
    lemma_fundamental_div_mod(b, d);
    assert(a * d + b == d * (a + b / d) + b % d) by (nonlinear_arith)
        requires
            b == d * (b / d) + b % d,
    ;
    lemma_fundamental_div_mod_converse(a * d + b, d, a + b / d, b % d);
}

/// The number of blocks that an axis is cut into is the number asked for,
/// and as many more as it takes to cover the pixels that the division of the
/// axis by that number leaves over.
pub proof fn lemma_block_count_exact(len: int, ratio: Ratio)
    requires
        axis_valid(len, ratio),
    ensures
        block_count(len, step_of(len, ratio)) == ratio.scaled(len) + block_count(
            len % ratio.scaled(len),
            step_of(len, ratio),
        ),
        1 <= step_of(len, ratio) <= len,
{
    let wanted = ratio.scaled(len);
    let step = len / wanted;
    let rest = len % wanted;
    lemma_fundamental_div_mod(len, wanted);
    lemma_div_is_ordered_by_denominator(len, 1, wanted);
    lemma_div_non_zero(len, wanted);
    assert(len - 1 == wanted * step + (rest - 1)) by (nonlinear_arith)
        requires
            len == wanted * step + rest,
    ;
    lemma_div_add_multiple(wanted, rest - 1, step);
}

/// An axis is never cut into fewer blocks than asked for, nor into more
/// blocks than it has pixels.
pub proof fn lemma_block_count_bounds(len: int, ratio: Ratio)
    requires
        axis_valid(len, ratio),
    ensures
        ratio.scaled(len) <= block_count(len, step_of(len, ratio)) <= len,
{
    let wanted = ratio.scaled(len);
    let step = len / wanted;
    lemma_block_count_exact(len, ratio);
    lemma_mod_bound(len, wanted);
    assert(0 <= (len % wanted - 1) / step + 1) by (nonlinear_arith)
        requires
            0 <= len % wanted,
            1 <= step,
    ;
    assert(0 <= (len - 1) / step <= len - 1) by (nonlinear_arith)
        requires
            1 <= len,
            1 <= step,
    ;
}

/// Where the division of the axis by the number of blocks asked for leaves
/// over no more pixels than one block holds, the axis is cut into that number
/// of blocks or into one more; into that number exactly where nothing is left
/// over.
pub proof fn lemma_block_count_within_one(len: int, ratio: Ratio)
    requires
        axis_valid(len, ratio),
        len % ratio.scaled(len) <= len / ratio.scaled(len),
    ensures
        ratio.scaled(len) <= block_count(len, step_of(len, ratio)) <= ratio.scaled(len) + 1,
        len % ratio.scaled(len) == 0 ==> block_count(len, step_of(len, ratio)) == ratio.scaled(
            len,
        ),
        len % ratio.scaled(len) > 0 ==> block_count(len, step_of(len, ratio)) == ratio.scaled(
            len,
        ) + 1,
{
    let wanted = ratio.scaled(len);
    let step = len / wanted;
    let rest = len % wanted;
    lemma_block_count_exact(len, ratio);
    lemma_mod_bound(len, wanted);
    if rest == 0 {
        assert((rest - 1) / step == -1) by (nonlinear_arith)
            requires
                rest == 0,
                1 <= step,
        ;
    } else {
        assert((rest - 1) / step == 0) by (nonlinear_arith)
            requires
                1 <= rest <= step,
        ;
    }
}

/// A scale of one cuts an axis that holds a pixel into blocks of one pixel.
pub proof fn lemma_unit_ratio_step(len: int, ratio: Ratio)
    requires
        1 <= len,
        ratio.positive(),
        ratio.num == ratio.den,
    ensures
        axis_valid(len, ratio),
        ratio.scaled(len) == len,
        step_of(len, ratio) == 1,
{
    lemma_div_multiples_vanish(len, ratio.den as int);
    assert(len * ratio.num == (ratio.den as int) * len) by (nonlinear_arith)
        requires
            ratio.num == ratio.den,
    ;
    lemma_div_basics(len);
}

} // verus!
