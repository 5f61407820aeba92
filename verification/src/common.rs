use vstd::prelude::*;
use vstd::arithmetic::power2::{pow2, lemma_pow2_pos, lemma_pow2_adds, lemma2_to64};
use vstd::bits::{lemma_u32_shr_is_div, lemma_u32_shl_is_mul, lemma_u32_low_bits_mask_is_mod};

verus! {

/// The minimal accepted precision.
pub const MIN_PRECISION: u8 = 4;

/// The maximal accepted precision.
pub const MAX_PRECISION: u8 = 16;

/// Errors reported when an estimator is created.
#[derive(Debug, Clone, Copy, PartialEq, Eq, Structural)]
pub enum GumbelError {
    InvalidPrecision,
}

/// Whether `precision` lies in `MIN_PRECISION..=MAX_PRECISION`.
pub open spec fn valid_precision(precision: int) -> bool {
    MIN_PRECISION <= precision <= MAX_PRECISION
}

/// The accepted precisions are exactly 4 through 16.
pub proof fn lemma_valid_precision(precision: int)
    ensures
        valid_precision(precision) <==> 4 <= precision <= 16,
{
}

/// The low 32 bits of a 64-bit hash.
pub open spec fn low_word(hash: u64) -> int {
    hash as int % 0x1_0000_0000
}

/// The register that a hash selects: its top `precision` bits (of the low 32).
pub open spec fn hash_index(hash: u64, precision: nat) -> int {
    low_word(hash) / pow2((32 - precision) as nat) as int
}

/// What remains of a hash once its top `precision` bits are taken away, moved
/// up to the top of a 32-bit word.
pub open spec fn hash_rest(hash: u64, precision: nat) -> int {
    (low_word(hash) % pow2((32 - precision) as nat) as int) * pow2(precision) as int
}

/// Splits the low 32 bits of `hash` into a register index, made of the top
/// `precision` bits, and the remaining bits shifted to the top of a word.
pub fn hash_value(hash: u64, precision: u8) -> (res: (usize, u32))
    requires
        0 < precision < 32,
    ensures
        res.0 as int == hash_index(hash, precision as nat),
        res.1 as int == hash_rest(hash, precision as nat),
        (res.0 as int) < pow2(precision as nat),
{
    let h = hash as u32;
    let p = precision as u32;
    let index: usize = (h >> (32 - p)) as usize;
    let rest: u32 = h << p;
    proof {
        assert(h as int == low_word(hash)) by (bit_vector)
            requires
                h == hash as u32,
        ;
        let s = (32 - p) as u32;
        lemma_u32_shr_is_div(h, s);
        lemma_pow2_pos(s as nat);
        lemma_pow2_pos(p as nat);
        lemma_pow2_adds(s as nat, p as nat);
        lemma2_to64();
        assert(pow2(32) == 0x1_0000_0000);
        // the low bits of h, below the index
        lemma_u32_shl_is_mul(1, s);
        assert((1u32 << s) == pow2(s as nat));
        let m: u32 = h & (((1u32 << s) - 1) as u32);
        assert(rest == m << p) by (bit_vector)
            requires
                rest == h << p,
                m == h & (((1u32 << s) - 1) as u32),
                0 < p < 32,
                s == 32 - p,
        ;
        lemma_u32_low_bits_mask_is_mod(h, s as nat);
        assert(m == h % (pow2(s as nat) as u32));
        assert(m < pow2(s as nat));
        assert(m * pow2(p as nat) < pow2(32)) by (nonlinear_arith)
            requires
                m < pow2(s as nat),
                pow2(32) == pow2(s as nat) * pow2(p as nat),
                pow2(p as nat) > 0,
        ;
        lemma_u32_shl_is_mul(m, p);
        assert(index < pow2(p as nat)) by (nonlinear_arith)
            requires
                index == h as nat / pow2(s as nat),
                h < pow2(32),
                pow2(32) == pow2(s as nat) * pow2(p as nat),
                pow2(s as nat) > 0,
        ;
    }
    (index, rest)
}

/// The split made by `hash_value` loses nothing: the index, followed by the
/// remaining bits, gives back the low 32 bits of the hash.
pub proof fn lemma_hash_split_lossless(hash: u64, precision: nat)
    requires
        0 < precision < 32,
    ensures
        low_word(hash) == hash_index(hash, precision) * pow2((32 - precision) as nat)
            + hash_rest(hash, precision) / pow2(precision) as int,
{
    let d = pow2((32 - precision) as nat) as int;
    let e = pow2(precision) as int;
    lemma_pow2_pos((32 - precision) as nat);
    lemma_pow2_pos(precision);
    let r = low_word(hash) % d;
    assert((r * e) / e == r) by (nonlinear_arith)
        requires
            e > 0,
    ;
    assert(low_word(hash) == (low_word(hash) / d) * d + r) by (nonlinear_arith)
        requires
            d > 0,
            r == low_word(hash) % d,
    ;
}

/// The number of registers, `2^precision`, for an accepted precision.
pub fn register_count(precision: u8) -> (res: Result<usize, GumbelError>)
    ensures
        res matches Ok(n) ==> valid_precision(precision as int) && n == pow2(precision as nat)
            && n <= 0x1_0000,
        res is Err <==> !valid_precision(precision as int),
        res is Ok <==> 4 <= precision <= 16,
        4 <= precision <= 16 ==> res == Ok::<usize, GumbelError>(pow2(precision as nat) as usize),
        res matches Err(e) ==> e == GumbelError::InvalidPrecision,
{
    if precision < MIN_PRECISION || precision > MAX_PRECISION {
        return Err(GumbelError::InvalidPrecision);
    }
    let n: usize = 1usize << precision;
    proof {
        lemma2_to64();
        if precision < 16 {
            vstd::arithmetic::power2::lemma_pow2_strictly_increases(precision as nat, 16);
        }
        vstd::bits::lemma_usize_shl_is_mul(1, precision as usize);
    }
    Ok(n)
}

/// The bit pattern of the 32-bit float `1 + m`, whose mantissa `m` is made of
/// the top 23 bits of `bits`: sign 0, biased exponent 127, so a value in
/// `[1, 2)`.
pub fn unit_float_bits(bits: u32) -> (res: u32)
    ensures
        res as int == 0x3F80_0000 + bits as int / 512,
        res >> 23u32 == 127,
        res & 0x7F_FFFFu32 == bits >> 9u32,
{
    let exponent_bits: u32 = 127u32 << 23u32;
    let mantissa_bits: u32 = bits >> 9u32;
    let res = exponent_bits | mantissa_bits;
    assert(res == 0x3F80_0000u32 + bits / 512 && res >> 23u32 == 127 && res & 0x7F_FFFFu32 == bits
        >> 9u32) by (bit_vector)
        requires
            res == (127u32 << 23u32) | (bits >> 9u32),
    ;
    res
}

} // verus!
