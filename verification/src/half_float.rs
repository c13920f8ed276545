//! Conversion of half-precision (IEEE 754 binary16) color data to 8-bit
//! channels: each value is clamped to `[0, 1]`, scaled by 255 and rounded.
//!
//! A binary16 value has at most 11 significant bits, so `255 * v` is exact in
//! single precision and the conversion is computed here exactly on integers.
use vstd::prelude::*;
use vstd::arithmetic::power2::{pow2, lemma_pow2_strictly_increases, lemma_pow2_unfold, lemma2_to64, lemma_pow2_pos, lemma_pow2_adds};
use vstd::arithmetic::div_mod::{lemma_div_multiples_vanish_quotient, lemma_div_is_ordered, lemma_fundamental_div_mod};
use vstd::bits::{lemma_u32_shl_is_mul, lemma_u32_shr_is_div};

verus! {

/// The sign bit of a binary16 bit pattern.
pub open spec fn f16_sign(bits: u16) -> int {
    bits as int / 32768
}

/// The biased exponent field of a binary16 bit pattern.
pub open spec fn f16_exponent(bits: u16) -> int {
    (bits as int / 1024) % 32
}

/// The fraction field of a binary16 bit pattern.
pub open spec fn f16_fraction(bits: u16) -> int {
    bits as int % 1024
}

/// The pattern encodes NaN.
pub open spec fn f16_is_nan(bits: u16) -> bool {
    f16_exponent(bits) == 31 && f16_fraction(bits) != 0
}

/// For a non-NaN pattern of sign 0, the value it encodes times `2^24`, which
/// is always an integer (`+inf` gives a value far above `2^24`).
pub open spec fn f16_scaled_value(bits: u16) -> int {
    if f16_exponent(bits) == 0 {
        f16_fraction(bits)
    } else {
        (f16_fraction(bits) + 1024) * pow2((f16_exponent(bits) - 1) as nat)
    }
}

/// `round(255 * clamp(v, 0, 1))` of the value `v` a binary16 pattern encodes,
/// halves rounded up; NaN gives 0 and so does every negative value.
pub open spec fn unorm8_of_f16(bits: u16) -> int {
    if f16_is_nan(bits) {
        0
    } else if f16_sign(bits) == 1 {
        0
    } else {
        let clamped = if f16_scaled_value(bits) < pow2(24) { f16_scaled_value(bits) } else { pow2(24) as int };
        (510 * clamped + pow2(24)) / (pow2(25) as int)
    }
}

proof fn lemma_rounded_fraction_below_256(sig: int, p: int)
    requires
        0 <= sig < p,
    ensures
        0 <= (510 * sig + p) / (2 * p) <= 255,
{
    assert(510 * sig + p < 512 * p) by (nonlinear_arith)
        requires
            0 <= sig < p,
    ;
    assert((510 * sig + p) / (2 * p) < 256) by (nonlinear_arith)
        requires
            510 * sig + p < 512 * p,
            0 <= sig,
            0 < p,
    ;
    assert(0 <= (510 * sig + p) / (2 * p)) by (nonlinear_arith)
        requires
            0 <= sig,
            0 < p,
    ;
}

/// From exponent 15 on, a pattern of sign 0 encodes at least 1.0 and converts to 255.
proof fn lemma_at_least_one(bits: u16)
    requires
        !f16_is_nan(bits),
        f16_sign(bits) == 0,
        f16_exponent(bits) >= 15,
    ensures
        unorm8_of_f16(bits) == 255,
{
    let e = f16_exponent(bits);
    lemma2_to64();
    if e > 15 {
        lemma_pow2_strictly_increases(14, (e - 1) as nat);
    }
    assert(f16_scaled_value(bits) >= 1024 * pow2(14)) by (nonlinear_arith)
        requires
            f16_scaled_value(bits) == (f16_fraction(bits) + 1024) * pow2((e - 1) as nat),
            pow2((e - 1) as nat) >= pow2(14),
            f16_fraction(bits) >= 0,
    ;
    assert((510 * (pow2(24) as int) + pow2(24)) / (pow2(25) as int) == 255);
}

/// Below 1.0 (exponent under 15), the rounding can be computed at the
/// pattern's own scale: `value = significand / 2^scale`.
proof fn lemma_rounding_at_own_scale(bits: u16, significand: int, scale: nat)
    requires
        !f16_is_nan(bits),
        f16_sign(bits) == 0,
        f16_exponent(bits) < 15,
        significand == (if f16_exponent(bits) == 0 { f16_fraction(bits) } else { f16_fraction(bits) + 1024 }),
        scale == (if f16_exponent(bits) == 0 { 24 } else { 25 - f16_exponent(bits) }),
    ensures
        11 <= scale <= 24,
        0 <= significand < pow2(scale),
        unorm8_of_f16(bits) == (510 * significand + pow2(scale)) / (pow2(scale + 1) as int),
{
    let e = f16_exponent(bits);
    let m = pow2((24 - scale) as nat) as int;
    lemma2_to64();
    lemma_pow2_pos((24 - scale) as nat);
    lemma_pow2_adds((24 - scale) as nat, scale);
    lemma_pow2_adds((24 - scale) as nat, scale + 1);
    lemma_pow2_strictly_increases(11, 25);
    if scale > 11 {
        lemma_pow2_strictly_increases(11, scale);
    }
    assert(f16_scaled_value(bits) == significand * m) by {
        if e == 0 {
            assert(m == 1);
            assert(significand * m == significand) by (nonlinear_arith)
                requires
                    m == 1,
            ;
        } else {
            assert((24 - scale) as nat == (e - 1) as nat);
            assert(m == pow2((e - 1) as nat));
        }
    }
    assert(significand * m < pow2(scale) * m) by (nonlinear_arith)
        requires
            0 <= significand < pow2(scale),
            m > 0,
    ;
    assert(pow2(scale) * m == pow2(24)) by (nonlinear_arith)
        requires
            m * pow2(scale) == pow2(24),
    ;
    assert(510 * (significand * m) + pow2(24) == m * (510 * significand + pow2(scale))) by (nonlinear_arith)
        requires
            m * pow2(scale) == pow2(24),
    ;
    assert(pow2(25) == m * pow2(scale + 1)) by (nonlinear_arith)
        requires
            m * pow2(scale + 1) == pow2(25),
    ;
    lemma_div_multiples_vanish_quotient(m, 510 * significand + pow2(scale), pow2(scale + 1) as int);
}

proof fn lemma_scaled_value_monotone(a: u16, b: u16)
    requires
        a <= b,
        b <= 0x7c00,
    ensures
        0 <= f16_scaled_value(a) <= f16_scaled_value(b),
{
    let ea = f16_exponent(a);
    let eb = f16_exponent(b);
    let fa = f16_fraction(a);
    let fb = f16_fraction(b);
    assert(ea == a / 1024 && eb == b / 1024);
    assert(ea <= eb);
    lemma2_to64();
    if ea >= 1 {
        lemma_pow2_pos((ea - 1) as nat);
    }
    if eb >= 1 {
        lemma_pow2_pos((eb - 1) as nat);
        assert(0 <= f16_scaled_value(b)) by (nonlinear_arith)
            requires
                f16_scaled_value(b) == (fb + 1024) * pow2((eb - 1) as nat),
                fb >= 0,
                pow2((eb - 1) as nat) > 0,
        ;
    }
    if ea >= 1 {
        assert(0 <= f16_scaled_value(a)) by (nonlinear_arith)
            requires
                f16_scaled_value(a) == (fa + 1024) * pow2((ea - 1) as nat),
                fa >= 0,
                pow2((ea - 1) as nat) > 0,
        ;
    }
    if ea == eb {
        assert(fa <= fb);
        if ea >= 1 {
            assert(f16_scaled_value(a) <= f16_scaled_value(b)) by (nonlinear_arith)
                requires
                    f16_scaled_value(a) == (fa + 1024) * pow2((ea - 1) as nat),
                    f16_scaled_value(b) == (fb + 1024) * pow2((ea - 1) as nat),
                    fa <= fb,
                    pow2((ea - 1) as nat) > 0,
            ;
        }
    } else {
        // b's exponent is at least 1; its value is at least 1024 * 2^(eb - 1).
        assert(f16_scaled_value(b) >= 1024 * pow2((eb - 1) as nat)) by (nonlinear_arith)
            requires
                f16_scaled_value(b) == (fb + 1024) * pow2((eb - 1) as nat),
                fb >= 0,
                pow2((eb - 1) as nat) > 0,
        ;
        if ea == 0 {
            assert(pow2((eb - 1) as nat) >= 1);
            assert(f16_scaled_value(a) == fa);
        } else {
            lemma_pow2_unfold(ea as nat);
            if ea < eb - 1 {
                lemma_pow2_strictly_increases(ea as nat, (eb - 1) as nat);
            }
            assert(f16_scaled_value(a) <= 2048 * pow2((ea - 1) as nat)) by (nonlinear_arith)
                requires
                    f16_scaled_value(a) == (fa + 1024) * pow2((ea - 1) as nat),
                    fa < 1024,
                    pow2((ea - 1) as nat) > 0,
            ;
            assert(2048 * pow2((ea - 1) as nat) == 1024 * pow2(ea as nat));
            assert(1024 * pow2(ea as nat) <= 1024 * pow2((eb - 1) as nat));
        }
    }
}

/// Converting keeps the order of non-negative values: a pattern that is not
/// larger than another (up to `+inf`, where bit order is value order) never
/// converts to a larger channel value.
pub proof fn lemma_unorm8_monotone(a: u16, b: u16)
    requires
        a <= b,
        b <= 0x7c00,
    ensures
        unorm8_of_f16(a) <= unorm8_of_f16(b),
{
    lemma_scaled_value_monotone(a, b);
    lemma2_to64();
    let ca = if f16_scaled_value(a) < pow2(24) { f16_scaled_value(a) } else { pow2(24) as int };
    let cb = if f16_scaled_value(b) < pow2(24) { f16_scaled_value(b) } else { pow2(24) as int };
    assert(ca <= cb);
    lemma_div_is_ordered(510 * ca + pow2(24), 510 * cb + pow2(24), pow2(25) as int);
}

/// Every pattern converts to a channel value from 0 to 255.
pub proof fn lemma_unorm8_in_range(bits: u16)
    ensures
        0 <= unorm8_of_f16(bits) <= 255,
{
    lemma2_to64();
    if !f16_is_nan(bits) && f16_sign(bits) == 0 {
        if f16_exponent(bits) >= 1 {
            lemma_pow2_pos((f16_exponent(bits) - 1) as nat);
            assert(0 <= f16_scaled_value(bits)) by (nonlinear_arith)
                requires
                    f16_scaled_value(bits) == (f16_fraction(bits) + 1024) * pow2((f16_exponent(bits) - 1) as nat),
                    f16_fraction(bits) >= 0,
                    pow2((f16_exponent(bits) - 1) as nat) > 0,
            ;
        }
        let c = if f16_scaled_value(bits) < pow2(24) { f16_scaled_value(bits) } else { pow2(24) as int };
        lemma_div_is_ordered(510 * c + pow2(24), 510 * (pow2(24) as int) + pow2(24), pow2(25) as int);
        lemma_div_is_ordered(0, 510 * c + pow2(24), pow2(25) as int);
    }
}

/// Converts one binary16 channel to an 8-bit channel.
pub fn f16_to_unorm8(bits: u16) -> (r: u8)
    ensures
        r == unorm8_of_f16(bits),
{
    let exponent: u16 = (bits / 1024) % 32;
    let fraction: u16 = bits % 1024;
    if exponent == 31 && fraction != 0 {
        return 0;
    }
    if bits >= 32768 {
        return 0;
    }
    if exponent >= 15 {
        proof {
            lemma_at_least_one(bits);
        }
        return 255;
    }
    let significand: u32 = if exponent == 0 {
        fraction as u32
    } else {
        fraction as u32 + 1024
    };
    let scale: u32 = if exponent == 0 {
        24
    } else {
        25 - exponent as u32
    };
    proof {
        lemma_rounding_at_own_scale(bits, significand as int, scale as nat);
        lemma_pow2_unfold(scale as nat + 1);
        lemma2_to64();
        lemma_pow2_strictly_increases(scale as nat, 25);
        lemma_u32_shl_is_mul(1, scale);
        lemma_rounded_fraction_below_256(significand as int, pow2(scale as nat) as int);
    }
    let half: u32 = 1u32 << scale;
    let sum: u32 = 510 * significand + half;
    let r: u32 = sum >> (scale + 1);
    proof {
        lemma_u32_shr_is_div(sum, (scale + 1) as u32);
    }
    r as u8
}

/// The `i`-th binary16 value of a little-endian byte buffer.
pub open spec fn f16_bits_at(data: Seq<u8>, i: int) -> u16 {
    (data[2 * i] as int + 256 * data[2 * i + 1] as int) as u16
}

/// Rgba8 channels of a buffer of Rgba16Float pixels (8 bytes per pixel,
/// little-endian); trailing bytes that do not make a whole pixel are ignored.
pub open spec fn rgba8_from_rgba16f(data: Seq<u8>) -> Seq<u8> {
    Seq::new((4 * (data.len() / 8)) as nat, |i: int| unorm8_of_f16(f16_bits_at(data, i)) as u8)
}

/// Converts Rgba16Float pixel data to Rgba8, channel by channel.
pub fn rgba16f_to_rgba8(data: &[u8]) -> (out: Vec<u8>)
    requires
        data@.len() % 2 == 0,
    ensures
        out@.len() == 4 * (data@.len() / 8),
        forall|i: int| 0 <= i < out@.len() ==> out@[i] == unorm8_of_f16(
            (data@[2 * i] as int + 256 * data@[2 * i + 1] as int) as u16,
        ),
        out@ == rgba8_from_rgba16f(data@),
{
    let len: usize = data.len();
    let n: usize = len / 8 * 4;
    let mut out: Vec<u8> = Vec::with_capacity(n);
    let mut i: usize = 0;
    while i < n
        invariant
            n == 4 * (data@.len() / 8),
            2 * n <= data@.len(),
            len == data@.len(),
            i <= n,
            out@.len() == i,
            forall|j: int| 0 <= j < i ==> out@[j] == unorm8_of_f16(f16_bits_at(data@, j)) as u8,
        decreases n - i,
    {
        let lo: u8 = data[2 * i];
        let hi: u8 = data[2 * i + 1];
        let bits: u16 = lo as u16 + 256 * (hi as u16);
        out.push(f16_to_unorm8(bits));
        i = i + 1;
    }
    assert(out@ =~= rgba8_from_rgba16f(data@));
    assert forall|i: int| 0 <= i < out@.len() implies out@[i] == unorm8_of_f16(
        (data@[2 * i] as int + 256 * data@[2 * i + 1] as int) as u16,
    ) by {
        lemma_unorm8_in_range(f16_bits_at(data@, i));
    }
    out
}

/// Halves are read little-endian: the low byte of half `i` is byte `2i`, its
/// high byte is byte `2i + 1`.
pub proof fn lemma_f16_bits_little_endian(data: Seq<u8>, i: int)
    requires
        0 <= i,
        2 * i + 1 < data.len(),
    ensures
        f16_bits_at(data, i) % 256 == data[2 * i],
        f16_bits_at(data, i) / 256 == data[2 * i + 1],
{
}

/// Every whole pixel of the input is converted and nothing else: the output
/// has four channels per whole 8-byte pixel, channel `i` being the conversion
/// of half `i`.
pub proof fn lemma_rgba8_converts_every_whole_pixel(data: Seq<u8>)
    ensures
        rgba8_from_rgba16f(data).len() == 4 * (data.len() / 8),
        forall|i: int| 0 <= i < 4 * (data.len() / 8) ==> #[trigger] rgba8_from_rgba16f(data)[i]
            == unorm8_of_f16((data[2 * i] as int + 256 * data[2 * i + 1] as int) as u16),
{
    assert forall|i: int| 0 <= i < 4 * (data.len() / 8) implies #[trigger] rgba8_from_rgba16f(data)[i]
        == unorm8_of_f16((data[2 * i] as int + 256 * data[2 * i + 1] as int) as u16) by {
        lemma_unorm8_in_range(f16_bits_at(data, i));
    }
}

/// Appending one whole pixel to whole pixels appends exactly its four
/// converted channels.
pub proof fn lemma_rgba8_append_pixel(data: Seq<u8>, pixel: Seq<u8>)
    requires
        data.len() % 8 == 0,
        pixel.len() == 8,
    ensures
        rgba8_from_rgba16f(data + pixel) == rgba8_from_rgba16f(data) + seq![
            unorm8_of_f16((pixel[0] as int + 256 * pixel[1] as int) as u16) as u8,
            unorm8_of_f16((pixel[2] as int + 256 * pixel[3] as int) as u16) as u8,
            unorm8_of_f16((pixel[4] as int + 256 * pixel[5] as int) as u16) as u8,
            unorm8_of_f16((pixel[6] as int + 256 * pixel[7] as int) as u16) as u8,
        ],
{
    let all = data + pixel;
    let n = data.len() / 8;
    assert(all.len() / 8 == n + 1);
    let lhs = rgba8_from_rgba16f(all);
    let rhs = rgba8_from_rgba16f(data) + seq![
        unorm8_of_f16((pixel[0] as int + 256 * pixel[1] as int) as u16) as u8,
        unorm8_of_f16((pixel[2] as int + 256 * pixel[3] as int) as u16) as u8,
        unorm8_of_f16((pixel[4] as int + 256 * pixel[5] as int) as u16) as u8,
        unorm8_of_f16((pixel[6] as int + 256 * pixel[7] as int) as u16) as u8,
    ];
    assert forall|i: int| 0 <= i < lhs.len() implies lhs[i] == rhs[i] by {
        if i < 4 * n {
            assert(all[2 * i] == data[2 * i] && all[2 * i + 1] == data[2 * i + 1]);
        } else {
            let k = i - 4 * n;
            assert(all[2 * i] == pixel[2 * k] && all[2 * i + 1] == pixel[2 * k + 1]);
        }
    }
    assert(lhs =~= rhs);
}

/// Halves are rounded to the nearest 8-bit level, halves up: for a value `v`
/// of sign 0 (not NaN), clamped to `[0, 1]` as `c / 2^24`, the result `q`
/// satisfies `q - 1/2 <= 255 * c / 2^24 < q + 1/2`.
pub proof fn lemma_unorm8_rounds_to_nearest(bits: u16)
    requires
        !f16_is_nan(bits),
        f16_sign(bits) == 0,
    ensures
        ({
            let c = if f16_scaled_value(bits) < pow2(24) { f16_scaled_value(bits) } else { pow2(24) as int };
            let q = unorm8_of_f16(bits);
            (2 * q - 1) * pow2(24) <= 510 * c < (2 * q + 1) * pow2(24)
        }),
{
    lemma2_to64();
    let c = if f16_scaled_value(bits) < pow2(24) { f16_scaled_value(bits) } else { pow2(24) as int };
    let q = unorm8_of_f16(bits);
    let p = pow2(24) as int;
    assert(pow2(25) == 2 * p);
    assert(q == (510 * c + p) / (2 * p));
    lemma_fundamental_div_mod(510 * c + p, 2 * p);
    let r = (510 * c + p) % (2 * p);
    assert(0 <= r < 2 * p);
    assert(510 * c + p == (2 * p) * q + r);
    assert((2 * q - 1) * p <= 510 * c < (2 * q + 1) * p) by (nonlinear_arith)
        requires
            510 * c + p == (2 * p) * q + r,
            0 <= r < 2 * p,
    ;
}

} // verus!
