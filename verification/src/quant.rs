use vstd::prelude::*;
use crate::error::Error;

verus! {

/// Elements per Q8_0 and Q4_0 block.
pub const QBLOCK: usize = 32;

/// Bytes per Q8_0 block: a half-precision scale and 32 signed bytes.
pub const Q8_0_BLOCK_BYTES: usize = 34;

/// Bytes per Q4_0 block: a half-precision scale and 16 bytes of nibbles.
pub const Q4_0_BLOCK_BYTES: usize = 18;

/// Sign bit of a single-precision bit pattern.
pub open spec fn f32_sign(x: u32) -> u32 {
    x >> 31
}

/// Biased exponent of a single-precision bit pattern.
pub open spec fn f32_exp(x: u32) -> u32 {
    (x >> 23) & 0xff
}

/// Mantissa of a single-precision bit pattern.
pub open spec fn f32_mant(x: u32) -> u32 {
    x & 0x7fffff
}

/// Sign bit of a half-precision bit pattern.
pub open spec fn f16_sign(h: u16) -> u16 {
    h >> 15
}

/// Biased exponent of a half-precision bit pattern.
pub open spec fn f16_exp(h: u16) -> u16 {
    (h >> 10) & 0x1f
}

/// Mantissa of a half-precision bit pattern.
pub open spec fn f16_mant(h: u16) -> u16 {
    h & 0x3ff
}

/// `h` is the half-precision encoding of `x` (bit patterns): the sign is
/// kept; zeros, subnormals and values below the half range become zero;
/// values above it, infinities and NaNs become infinity (a quiet NaN when the
/// mantissa was not zero); the rest keep their exponent, rebased, and the top
/// ten mantissa bits.
pub open spec fn is_half_of(x: u32, h: u16) -> bool {
    &&& f16_sign(h) as u32 == f32_sign(x)
    &&& f32_exp(x) == 0 || (f32_exp(x) < 0x70) ==> f16_exp(h) == 0 && f16_mant(h) == 0
    &&& f32_exp(x) >= 0x8f ==> f16_exp(h) == 0x1f && f16_mant(h) == (if f32_mant(x) != 0 { 0x200u16 } else { 0u16 })
    &&& 0x70 <= f32_exp(x) < 0x8f ==> f16_exp(h) as u32 == f32_exp(x) - 112 && f16_mant(h) as u32 == f32_mant(x) >> 13
}

/// `x` is the single-precision encoding of `h` (bit patterns), as IEEE 754
/// defines both: the sign is kept; zero stays zero; a subnormal, `m * 2^-24`,
/// is normalised (its leading mantissa bit becomes the implicit one);
/// infinities and NaNs keep their mantissa under the exponent field 255;
/// other values get their exponent rebased.
pub open spec fn is_single_of(h: u16, x: u32) -> bool {
    &&& f32_sign(x) == f16_sign(h) as u32
    &&& f16_exp(h) == 0 && f16_mant(h) == 0 ==> f32_exp(x) == 0 && f32_mant(x) == 0
    &&& f16_exp(h) == 0 && f16_mant(h) != 0 ==> f32_exp(x) == 103 + top_bit(f16_mant(h) as u32) && f32_mant(x)
        == ((f16_mant(h) as u32) << ((23 - top_bit(f16_mant(h) as u32)) as u32)) & 0x7fffff
    &&& f16_exp(h) == 31 ==> f32_exp(x) == 255 && f32_mant(x) == (f16_mant(h) as u32) << 13u32
    &&& 0 < f16_exp(h) < 31 ==> f32_exp(x) == f16_exp(h) as u32 + 112 && f32_mant(x) == (f16_mant(h) as u32)
        << 13u32
}

/// The position of the highest set bit of a non-zero ten-bit mantissa.
pub open spec fn top_bit(m: u32) -> u32 {
    if m >= 512 {
        9
    } else if m >= 256 {
        8
    } else if m >= 128 {
        7
    } else if m >= 64 {
        6
    } else if m >= 32 {
        5
    } else if m >= 16 {
        4
    } else if m >= 8 {
        3
    } else if m >= 4 {
        2
    } else if m >= 2 {
        1
    } else {
        0
    }
}

fn top_bit_of(m: u32) -> (p: u32)
    ensures
        p == top_bit(m),
{
    if m >= 512 {
        9
    } else if m >= 256 {
        8
    } else if m >= 128 {
        7
    } else if m >= 64 {
        6
    } else if m >= 32 {
        5
    } else if m >= 16 {
        4
    } else if m >= 8 {
        3
    } else if m >= 4 {
        2
    } else if m >= 2 {
        1
    } else {
        0
    }
}

/// Widening a half-precision value and narrowing it again gives it back,
/// for zeros, normal values and infinities (a NaN comes back quiet, and the
/// narrowing does not keep subnormals).
pub proof fn lemma_half_round_trip(h: u16, x: u32, h2: u16)
    requires
        is_single_of(h, x),
        is_half_of(x, h2),
        (f16_exp(h) == 0 && f16_mant(h) == 0) || 0 < f16_exp(h) < 31 || (f16_exp(h) == 31 && f16_mant(h) == 0),
    ensures
        h2 == h,
{
    let m = f16_mant(h);
    assert(m < 1024) by (bit_vector)
        requires
            m == h & 0x3ff,
    ;
    assert(((m as u32) << 13u32) >> 13u32 == m as u32 && (((m as u32) << 13u32) != 0) == (m != 0)) by (bit_vector)
        requires
            m < 1024,
    ;
    assert(f16_exp(h) <= 31) by (bit_vector);
    assert(f16_sign(h) <= 1) by (bit_vector);
    assert(f16_sign(h2) == f16_sign(h));
    assert(f16_exp(h2) == f16_exp(h));
    assert(f16_mant(h2) == f16_mant(h));
    assert(h2 == h) by (bit_vector)
        requires
            f16_sign(h2) == f16_sign(h),
            f16_exp(h2) == f16_exp(h),
            f16_mant(h2) == f16_mant(h),
    ;
}

/// Half-precision encoding of a single-precision value (bit patterns in and
/// out): the sign is kept; zeros, subnormals and values below the half
/// range become zero; values above it, infinities and NaNs become infinity
/// (a quiet NaN when the mantissa was not zero); the rest keep their
/// exponent, rebased, and the top ten mantissa bits.
pub fn f32_to_f16(x: u32) -> (h: u16)
    ensures
        is_half_of(x, h),
{
    let sign = (x >> 31u32) as u16;
    let exp = (x >> 23u32) & 0xff;
    let mant = x & 0x7fffff;
    assert(sign <= 1) by (bit_vector)
        requires
            sign == (x >> 31u32) as u16,
    ;
    let h: u16 = if exp == 0 {
        sign << 15u16
    } else if exp >= 0x8f {
        (sign << 15u16) | 0x7c00u16 | if mant != 0 {
            0x0200u16
        } else {
            0u16
        }
    } else if exp < 0x70 {
        sign << 15u16
    } else {
        let fe = (exp - 112) as u16;
        let fm = (mant >> 13u32) as u16;
        (sign << 15u16) | (fe << 10u16) | fm
    };
    proof {
        assert(f16_sign(sign << 15u16) == sign && f16_exp(sign << 15u16) == 0 && f16_mant(sign << 15u16) == 0) by (bit_vector)
            requires
                sign <= 1,
        ;
        assert(f16_sign((sign << 15u16) | 0x7c00u16 | 0x0200u16) == sign && f16_exp((sign << 15u16) | 0x7c00u16 | 0x0200u16) == 0x1f && f16_mant((sign << 15u16) | 0x7c00u16 | 0x0200u16) == 0x200) by (bit_vector)
            requires
                sign <= 1,
        ;
        assert(f16_sign((sign << 15u16) | 0x7c00u16 | 0u16) == sign && f16_exp((sign << 15u16) | 0x7c00u16 | 0u16) == 0x1f && f16_mant((sign << 15u16) | 0x7c00u16 | 0u16) == 0) by (bit_vector)
            requires
                sign <= 1,
        ;
        assert(f32_sign(x) == sign as u32) by (bit_vector)
            requires
                sign == (x >> 31u32) as u16,
        ;
        if 0x70 <= exp < 0x8f {
            let fe = (exp - 112) as u16;
            let fm = (mant >> 13u32) as u16;
            assert(fe < 31);
            assert(fm < 1024) by (bit_vector)
                requires
                    fm == ((x & 0x7fffff) >> 13u32) as u16,
            ;
            assert(f16_sign((sign << 15u16) | (fe << 10u16) | fm) == sign && f16_exp((sign << 15u16) | (fe << 10u16) | fm) == fe && f16_mant((sign << 15u16) | (fe << 10u16) | fm) == fm) by (bit_vector)
                requires
                    sign <= 1,
                    fe < 31,
                    fm < 1024,
            ;
            assert(fm as u32 == mant >> 13u32) by (bit_vector)
                requires
                    fm == (mant >> 13u32) as u16,
                    mant == x & 0x7fffff,
            ;
        }
    }
    h
}

/// Single-precision encoding of a half-precision value (bit patterns in and
/// out): the sign is kept; zero stays zero; a subnormal, worth its mantissa
/// times 2^-24, is normalised (exponent field 103 plus the position of the
/// mantissa's top bit, the bits below that bit as the fraction); infinities
/// and NaNs keep their mantissa under the exponent field 255; other values
/// get their exponent rebased.
pub fn f16_to_f32(h: u16) -> (x: u32)
    ensures
        is_single_of(h, x),
{
    let sign = ((h >> 15u16) as u32) << 31u32;
    let exp = (h >> 10u16) & 0x1f;
    let mantissa = (h & 0x3ff) as u32;
    assert(exp <= 31) by (bit_vector)
        requires
            exp == (h >> 10u16) & 0x1f,
    ;
    proof {
        assert(exp == f16_exp(h) && mantissa == f16_mant(h) as u32 && mantissa < 1024) by (bit_vector)
            requires
                exp == (h >> 10u16) & 0x1f,
                mantissa == (h & 0x3ff) as u32,
        ;
        assert(f32_sign(sign) == f16_sign(h) as u32) by (bit_vector)
            requires
                sign == ((h >> 15u16) as u32) << 31u32,
        ;
    }
    if exp == 0 && mantissa != 0 {
        // A subnormal half, mantissa * 2^-24, normalised: the leading bit of
        // the mantissa becomes the implicit one.
        let p = top_bit_of(mantissa);
        let e32: u32 = 103 + p;
        let sh: u32 = 23 - p;
        let m32: u32 = (mantissa << sh) & 0x7fffff;
        let x = sign | (e32 << 23u32) | m32;
        proof {
            assert(m32 <= 0x7fffff) by (bit_vector)
                requires
                    m32 == (mantissa << sh) & 0x7fffff,
            ;
            assert(f32_sign(x) == f32_sign(sign) && f32_exp(x) == e32 && f32_mant(x) == m32) by (bit_vector)
                requires
                    sign == ((h >> 15u16) as u32) << 31u32,
                    x == sign | (e32 << 23u32) | m32,
                    e32 < 256,
                    m32 <= 0x7fffff,
            ;
        }
        return x;
    }
    let e32: u32 = if exp == 0 {
        0
    } else if exp == 31 {
        255
    } else {
        exp as u32 + 112
    };
    let x = sign | (e32 << 23u32) | (mantissa << 13u32);
    proof {
        assert(e32 < 256);
        assert(f32_sign(x) == f16_sign(h) as u32 && f32_exp(x) == e32 && f32_mant(x) == (f16_mant(h) as u32) << 13u32) by (bit_vector)
            requires
                sign == ((h >> 15u16) as u32) << 31u32,
                mantissa == (h & 0x3ff) as u32,
                x == sign | (e32 << 23u32) | (mantissa << 13u32),
                e32 < 256,
        ;
        assert(mantissa == 0 ==> (f16_mant(h) as u32) << 13u32 == 0) by (bit_vector)
            requires
                mantissa == (h & 0x3ff) as u32,
        ;
    }
    x
}

/// Whether `a` and `b` fit the product `c = a * b` of an `m x k` by a `k x n`
/// matrix; otherwise the error names the wanted and the given output size.
pub fn check_matmul_shapes(c_len: usize, a_len: usize, b_len: Option<usize>, m: usize, n: usize, k: usize) -> (r: Result<(), Error>)
    requires
        m * n <= usize::MAX,
        m * k <= usize::MAX,
        b_len is Some ==> k * n <= usize::MAX,
    ensures
        r is Ok <==> (c_len >= m * n && a_len >= m * k && (b_len matches Some(b) ==> b >= k * n)),
        r matches Err(e) ==> (e matches Error::TensorShape { expected, got } && expected@ == seq![m, n] && got@ == seq![c_len]),
{
    let bad_b = match b_len {
        Some(b) => b < k * n,
        None => false,
    };
    if c_len < m * n || a_len < m * k || bad_b {
        let mut expected: Vec<usize> = Vec::new();
        expected.push(m);
        expected.push(n);
        let mut got: Vec<usize> = Vec::new();
        got.push(c_len);
        assert(expected@ =~= seq![m, n]);
        assert(got@ =~= seq![c_len]);
        Err(Error::TensorShape { expected, got })
    } else {
        Ok(())
    }
}

/// A quantized block: the bit pattern of its half-precision scale and its
/// signed integer values.
pub struct QBlock {
    pub scale_bits: u16,
    pub values: Vec<i8>,
}

/// Reads the first `count` values of the Q8_0 block at `off`.
pub fn q8_0_block(w: &[u8], off: usize, count: usize) -> (r: QBlock)
    requires
        count <= QBLOCK,
        off + 2 + count <= w@.len(),
    ensures
        r.scale_bits as int == w@[off as int] + 256 * w@[off + 1],
        r.values@.len() == count,
        forall|v: int| 0 <= v < count ==> #[trigger] r.values@[v] == w@[off + 2 + v] as i8,
{
    let scale_bits = (w[off] as u16) + 256 * (w[off + 1] as u16);
    let mut values: Vec<i8> = Vec::with_capacity(count);
    let mut v: usize = 0;
    let n = w.len();
    while v < count
        invariant
            v <= count,
            n == w@.len(),
            off + 2 + count <= w@.len(),
            values@.len() == v,
            forall|x: int| 0 <= x < v ==> #[trigger] values@[x] == w@[off + 2 + x] as i8,
        decreases count - v,
    {
        values.push(w[off + 2 + v] as i8);
        v = v + 1;
    }
    QBlock { scale_bits, values }
}

/// The value of nibble `v` of a Q4_0 block's bytes: even positions take the
/// low nibble of byte `v / 2`, odd ones the high nibble, less eight.
pub open spec fn q4_value(bytes: Seq<u8>, v: int) -> i8 {
    let b = bytes[v / 2];
    let nib = if v % 2 == 0 {
        b % 16
    } else {
        b / 16
    };
    (nib - 8) as i8
}

/// Reads the first `count` values of the Q4_0 block at `off`.
pub fn q4_0_block(w: &[u8], off: usize, count: usize) -> (r: QBlock)
    requires
        count <= QBLOCK,
        off + Q4_0_BLOCK_BYTES <= w@.len(),
    ensures
        r.scale_bits as int == w@[off as int] + 256 * w@[off + 1],
        r.values@.len() == count,
        forall|v: int| 0 <= v < count ==> #[trigger] r.values@[v] == q4_value(w@.subrange(off + 2, off + 18), v),
{
    let scale_bits = (w[off] as u16) + 256 * (w[off + 1] as u16);
    let ghost bytes = w@.subrange(off + 2, off + 18);
    let mut values: Vec<i8> = Vec::with_capacity(count);
    let mut v: usize = 0;
    let n = w.len();
    while v < count
        invariant
            v <= count <= QBLOCK,
            n == w@.len(),
            off + Q4_0_BLOCK_BYTES <= w@.len(),
            bytes == w@.subrange(off + 2, off + 18),
            values@.len() == v,
            forall|x: int| 0 <= x < v ==> #[trigger] values@[x] == q4_value(bytes, x),
        decreases count - v,
    {
        let byte = w[off + 2 + v / 2];
        assert(byte == bytes[v as int / 2]);
        let nibble: u8 = if v % 2 == 0 {
            byte & 0x0f
        } else {
            byte >> 4u8
        };
        assert(byte & 0x0f == byte % 16 && byte >> 4u8 == byte / 16) by (bit_vector);
        let q = (nibble as i8) - 8;
        values.push(q);
        v = v + 1;
    }
    QBlock { scale_bits, values }
}

} // verus!
