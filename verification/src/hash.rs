//! Voice identity: a fixed avalanche hash and the id minted for one key press.
//!
//! A voice id combines a key slot index with that key's running press counter
//! through `khash`, so that two presses of the same key produce
//! distinguishable voices even while the first is still releasing.

use vstd::prelude::*;
use vstd::arithmetic::div_mod::*;
use vstd::arithmetic::mul::*;
use vstd::arithmetic::power2::*;

verus! {

/// Multiplier of the avalanche rounds; odd, so multiplication by it is a
/// bijection on 32-bit words.
pub const KHASH_MUL: u32 = 2654435769;

/// Modular inverse of `KHASH_MUL`: `KHASH_MUL * KHASH_MUL_INV == 1 (mod 2^32)`.
pub const KHASH_MUL_INV: u32 = 340573321;

/// Constant the input is xored with before the first round.
pub const KHASH_SEED: u32 = 2747636419;

/// Product of two 32-bit words, truncated to 32 bits.
pub open spec fn mul32(a: u32, b: u32) -> u32 {
    ((a * b) % 0x1_0000_0000) as u32
}

/// One xor-shift diffusion step; an involution, hence a bijection.
pub open spec fn xorshift16(x: u32) -> u32 {
    x ^ (x >> 16u32)
}

/// The avalanche hash: xor with a seed, then three rounds of multiply and
/// xor-shift diffusion.
pub open spec fn khash_spec(x: u32) -> u32 {
    let a = mul32(x ^ KHASH_SEED, KHASH_MUL);
    let b = mul32(xorshift16(a), KHASH_MUL);
    mul32(xorshift16(b), KHASH_MUL)
}

/// The id minted for one press: the truncated product of the hashed press
/// counter and the hashed key slot.
pub open spec fn mint_id_spec(counter: u32, slot: u32) -> u32 {
    mul32(khash_spec(counter), khash_spec(slot))
}

/// Truncated 32-bit product, as the hash rounds use it.
fn mul_trunc(a: u32, b: u32) -> (r: u32)
    ensures
        r == mul32(a, b),
{
    let aw: u64 = a as u64;
    let bw: u64 = b as u64;
    proof {
        assert(aw * bw <= 0xFFFF_FFFFu64 * 0xFFFF_FFFFu64) by (nonlinear_arith)
            requires
                aw <= 0xFFFF_FFFFu64,
                bw <= 0xFFFF_FFFFu64,
        ;
    }
    let wide: u64 = aw * bw;
    (wide % 0x1_0000_0000) as u32
}

/// Derives a well-distributed 32-bit word from a small input, so that voice
/// ids minted from nearby counters and slots do not collide in practice.
pub fn khash(x: u32) -> (r: u32)
    ensures
        r == khash_spec(x),
{
    let a = mul_trunc(x ^ KHASH_SEED, KHASH_MUL);
    let b = mul_trunc(a ^ (a >> 16u32), KHASH_MUL);
    mul_trunc(b ^ (b >> 16u32), KHASH_MUL)
}

/// Mints the id for a press of `slot` whose running press counter is
/// `counter`; used once at the rising edge, and the matching release reuses
/// the same id.
pub fn mint_id(counter: u32, slot: u32) -> (r: u32)
    ensures
        r == mint_id_spec(counter, slot),
{
    mul_trunc(khash(counter), khash(slot))
}

/// Multiplying by `KHASH_MUL` and then by its inverse gives the word back, so
/// each multiply round of the hash is a bijection.
proof fn lemma_mul32_cancel(x: u32)
    ensures
        mul32(mul32(x, KHASH_MUL), KHASH_MUL_INV) == x,
{
    assert(mul32(mul32(x, 2654435769u32), 340573321u32) == x) by (bit_vector);
}

/// The xor-shift diffusion step is an involution, so it too is a bijection.
proof fn lemma_xorshift16_involution(x: u32)
    ensures
        xorshift16(xorshift16(x)) == x,
{
    assert((x ^ (x >> 16u32)) ^ ((x ^ (x >> 16u32)) >> 16u32) == x) by (bit_vector);
}

/// A power of two that divides a product with an odd factor already divides
/// the other factor.
proof fn lemma_pow2_divides_odd_product(d: int, k: int, n: nat)
    requires
        0 <= d,
        0 <= k,
        k % 2 == 1,
        (d * k) % (pow2(n) as int) == 0,
    ensures
        d % (pow2(n) as int) == 0,
    decreases n,
{
    if n == 0 {
        lemma2_to64();
        lemma_mod_division_less_than_divisor(d, 1);
    } else {
        let m = pow2((n - 1) as nat) as int;
        lemma_pow2_pos((n - 1) as nat);
        lemma_pow2_unfold(n);
        assert(pow2(n) as int == 2 * m);
        let x = d * k;
        lemma_mul_nonnegative(d, k);
        lemma_mod_mod(x, 2, m);
        assert(x % 2 == 0);
        lemma_mul_mod_noop_general(d, k, 2);
        assert(((d % 2) * (k % 2)) % 2 == x % 2);
        lemma_mod_division_less_than_divisor(d, 2);
        lemma_small_mod(1nat, 2nat);
        assert(d % 2 == 0);
        let d2 = d / 2;
        lemma_fundamental_div_mod(d, 2);
        assert(d == 2 * d2);
        lemma_div_pos_is_pos(d, 2);
        lemma_mul_is_associative(2, d2, k);
        assert(x == 2 * (d2 * k));
        lemma_mod_breakdown(x, 2, m);
        assert(0 == 2 * ((x / 2) % m) + x % 2);
        lemma_mul_nonnegative(d2, k);
        lemma_div_multiples_vanish(d2 * k, 2);
        assert(x / 2 == d2 * k);
        assert((d2 * k) % m == 0);
        lemma_pow2_divides_odd_product(d2, k, (n - 1) as nat);
        lemma_fundamental_div_mod(d2, m);
        let q = d2 / m;
        assert(d2 == m * q);
        lemma_mul_is_associative(2, m, q);
        assert(d == (2 * m) * q);
        lemma_mul_is_commutative(2 * m, q);
        lemma_mod_multiples_basic(q, 2 * m);
        assert(d % (2 * m) == 0);
    }
}

/// Multiplication by an odd word is a bijection on 32-bit words: distinct
/// factors give distinct truncated products.
pub proof fn lemma_mul32_odd_cancel(a: u32, b: u32, k: u32)
    requires
        k % 2 == 1,
        a != b,
    ensures
        mul32(a, k) != mul32(b, k),
{
    let m: int = 0x1_0000_0000;
    lemma2_to64();
    assert(pow2(32) as int == m);
    if mul32(a, k) == mul32(b, k) {
        lemma_mod_division_less_than_divisor(a * k, m);
        lemma_mod_division_less_than_divisor(b * k, m);
        assert((a * k) % m == (b * k) % m);
        if a > b {
            lemma_mod_equivalence(a * k, b * k, m);
            let d: int = a - b;
            lemma_mul_is_distributive_sub_other_way(k as int, a as int, b as int);
            assert(a * k - b * k == d * k);
            lemma_pow2_divides_odd_product(d, k as int, 32);
            lemma_small_mod(d as nat, pow2(32));
            assert(false);
        } else {
            lemma_mod_equivalence(b * k, a * k, m);
            let d: int = b - a;
            lemma_mul_is_distributive_sub_other_way(k as int, b as int, a as int);
            assert(b * k - a * k == d * k);
            lemma_pow2_divides_odd_product(d, k as int, 32);
            lemma_small_mod(d as nat, pow2(32));
            assert(false);
        }
    }
}

/// The avalanche hash is injective: distinct inputs hash to distinct words.
pub proof fn lemma_khash_injective(x: u32, y: u32)
    requires
        khash_spec(x) == khash_spec(y),
    ensures
        x == y,
{
    let ax = mul32(x ^ KHASH_SEED, KHASH_MUL);
    let bx = mul32(xorshift16(ax), KHASH_MUL);
    let ay = mul32(y ^ KHASH_SEED, KHASH_MUL);
    let by_ = mul32(xorshift16(ay), KHASH_MUL);
    lemma_mul32_cancel(xorshift16(bx));
    lemma_mul32_cancel(xorshift16(by_));
    lemma_xorshift16_involution(bx);
    lemma_xorshift16_involution(by_);
    lemma_mul32_cancel(xorshift16(ax));
    lemma_mul32_cancel(xorshift16(ay));
    lemma_xorshift16_involution(ax);
    lemma_xorshift16_involution(ay);
    lemma_mul32_cancel(x ^ KHASH_SEED);
    lemma_mul32_cancel(y ^ KHASH_SEED);
    assert(x ^ KHASH_SEED == y ^ KHASH_SEED ==> x == y) by (bit_vector);
}

/// Uniqueness of voice identities: two presses of the same key slot with
/// distinct press counters mint distinct ids, provided the slot's hash is
/// odd. (An even slot hash shifts information out of the truncated product,
/// so distinct counters can then collide.)
pub proof fn lemma_minted_ids_distinct(c1: u32, c2: u32, slot: u32)
    requires
        c1 != c2,
        khash_spec(slot) % 2 == 1,
    ensures
        mint_id_spec(c1, slot) != mint_id_spec(c2, slot),
{
    if khash_spec(c1) == khash_spec(c2) {
        lemma_khash_injective(c1, c2);
    }
    lemma_mul32_odd_cancel(khash_spec(c1), khash_spec(c2), khash_spec(slot));
}

} // verus!
