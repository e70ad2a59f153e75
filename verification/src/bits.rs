//! Bit-level foundations: reading single bits of a `u64`, counting set bits,
//! and the algebraic facts about `&`, `|`, `^`, `!` and shifts that the
//! bitboard reasoning in the rest of the crate relies on.

use vstd::prelude::*;

verus! {

/// Bit `i` of `b`, for `i < 64`.
pub open spec fn bit64(b: u64, i: u64) -> bool {
    (b >> i) & 1 == 1
}

/// Number of set bits of `b` among bit positions `0 .. n`.
pub open spec fn count_upto(b: u64, n: int) -> int
    decreases n,
{
    if n <= 0 {
        0
    } else {
        count_upto(b, n - 1) + if bit64(b, (n - 1) as u64) {
            1int
        } else {
            0int
        }
    }
}

/// Number of set bits of `b`.
pub open spec fn pop64(b: u64) -> int {
    count_upto(b, 64)
}

pub broadcast proof fn lemma_bit_or(a: u64, b: u64, i: u64)
    by (bit_vector)
    requires
        i < 64,
    ensures
        #[trigger] bit64(a | b, i) == (bit64(a, i) || bit64(b, i)),
{
}

pub broadcast proof fn lemma_bit_and(a: u64, b: u64, i: u64)
    by (bit_vector)
    requires
        i < 64,
    ensures
        #[trigger] bit64(a & b, i) == (bit64(a, i) && bit64(b, i)),
{
}

pub broadcast proof fn lemma_bit_xor(a: u64, b: u64, i: u64)
    by (bit_vector)
    requires
        i < 64,
    ensures
        #[trigger] bit64(a ^ b, i) == (bit64(a, i) != bit64(b, i)),
{
}

pub broadcast proof fn lemma_bit_not(a: u64, i: u64)
    by (bit_vector)
    requires
        i < 64,
    ensures
        #[trigger] bit64(!a, i) == !bit64(a, i),
{
}

pub broadcast proof fn lemma_bit_single(s: u64, i: u64)
    by (bit_vector)
    requires
        s < 64,
        i < 64,
    ensures
        #[trigger] bit64(1u64 << s, i) == (i == s),
{
}

pub broadcast proof fn lemma_bit_shl(a: u64, k: u64, i: u64)
    by (bit_vector)
    requires
        k < 64,
        i < 64,
    ensures
        #[trigger] bit64(a << k, i) == (i >= k && bit64(a, (i - k) as u64)),
{
}

pub broadcast proof fn lemma_bit_shr(a: u64, k: u64, i: u64)
    by (bit_vector)
    requires
        k < 64,
        i < 64,
    ensures
        #[trigger] bit64(a >> k, i) == (i + k < 64 && bit64(a, (i + k) as u64)),
{
}

/// A board tests membership of a square with `b & (1 << s) != 0`; that test
/// agrees with `bit64`.
pub broadcast proof fn lemma_test_bit(b: u64, s: u64)
    by (bit_vector)
    requires
        s < 64,
    ensures
        (#[trigger] (b & (1u64 << s)) != 0) == bit64(b, s),
{
}

/// The two ways the rest of the crate rearranges XOR chains.
pub proof fn lemma_xor_shuffle(f: u64, k: u64, c: u64)
    by (bit_vector)
    ensures
        ((f ^ k) ^ c) == ((f ^ c) ^ k),
        (f ^ (k ^ c)) == ((f ^ k) ^ c),
        f ^ 0 == f,
        (f ^ k) ^ k == f,
        f ^ k == k ^ f,
{
}

/// Pulling one XOR term out through three others.
pub proof fn lemma_xor_pull(f: u64, k: u64, a: u64, b: u64, c: u64)
    by (bit_vector)
    ensures
        ((((f ^ k) ^ a) ^ b) ^ c) == ((((f ^ a) ^ b) ^ c) ^ k),
{
}

/// The zero word has no bits.
pub broadcast proof fn lemma_bit_zero(i: u64)
    by (bit_vector)
    requires
        i < 64,
    ensures
        !(#[trigger] bit64(0u64, i)),
{
}

/// The zero word counts zero bits.
pub proof fn lemma_count_of_zero(n: int)
    requires
        0 <= n <= 64,
    ensures
        count_upto(0u64, n) == 0,
    decreases n,
{
    if n > 0 {
        lemma_count_of_zero(n - 1);
        lemma_bit_zero((n - 1) as u64);
    }
}

/// A word with a set bit and no others is that bit's mask.
pub proof fn lemma_single_bit_from(b: u64, k: u64)
    by (bit_vector)
    requires
        k < 64,
        b != 0,
        (b >> k) & 1 == 1,
        b & ((b - 1) as u64) == 0,
    ensures
        b == (1u64 << k),
{
}

/// Clearing a set bit makes the word smaller.
pub proof fn lemma_clear_bit_decreases(b: u64, s: u64)
    by (bit_vector)
    requires
        s < 64,
        (b >> s) & 1 == 1,
    ensures
        (b ^ (1u64 << s)) < b,
{
}

/// OR with the empty word changes nothing.
pub proof fn lemma_or_zero(x: u64)
    by (bit_vector)
    ensures
        x | 0u64 == x,
{
}

/// Pulling one XOR term out through two others.
pub proof fn lemma_xor_pull2(f: u64, k: u64, a: u64, b: u64)
    by (bit_vector)
    ensures
        (((f ^ k) ^ a) ^ b) == (((f ^ a) ^ b) ^ k),
{
}

/// Applying the same pair of XOR masks twice restores the word.
pub proof fn lemma_xor_double_toggle(b: u64, x: u64, y: u64)
    by (bit_vector)
    ensures
        ((((b ^ x) ^ y) ^ x) ^ y == b),
        ((((b ^ x) ^ y) ^ y) ^ x == b),
        (b ^ x) ^ x == b,
        (b ^ x) ^ y == (b ^ y) ^ x,
{
}

pub proof fn lemma_count_bound(b: u64, n: int)
    requires
        0 <= n <= 64,
    ensures
        0 <= count_upto(b, n) <= n,
    decreases n,
{
    if n > 0 {
        lemma_count_bound(b, n - 1);
    }
}

/// Setting bit `s` of a word that lacks it raises the count by one; the
/// count of the complementary operation follows by symmetry.
pub proof fn lemma_count_toggle(a: u64, b: u64, s: u64, n: int)
    requires
        s < 64,
        0 <= n <= 64,
        b == a ^ (1u64 << s),
        forall|i: u64| i < 64 && i != s ==> bit64(a, i) == bit64(b, i),
        bit64(b, s) == !bit64(a, s),
    ensures
        s < n ==> count_upto(b, n) == count_upto(a, n) + (if bit64(a, s) {
            -1int
        } else {
            1int
        }),
        s >= n ==> count_upto(b, n) == count_upto(a, n),
    decreases n,
{
    if n > 0 {
        lemma_count_toggle(a, b, s, n - 1);
    }
}

/// Flipping bit `s` flips exactly that bit.
pub proof fn lemma_xor_single_bits(a: u64, s: u64)
    requires
        s < 64,
    ensures
        forall|i: u64| i < 64 && i != s ==> bit64(a ^ (1u64 << s), i) == bit64(a, i),
        bit64(a ^ (1u64 << s), s) == !bit64(a, s),
{
    assert forall|i: u64| i < 64 && i != s implies bit64(a ^ (1u64 << s), i) == bit64(a, i) by {
        lemma_bit_xor(a, 1u64 << s, i);
        lemma_bit_single(s, i);
    }
    lemma_bit_xor(a, 1u64 << s, s);
    lemma_bit_single(s, s);
}

/// Count the set bits of `b`.
pub fn popcount64(b: u64) -> (r: u32)
    ensures
        r == pop64(b),
        r <= 64,
{
    let mut i: u64 = 0;
    let mut c: u32 = 0;
    proof {
        lemma_count_bound(b, 64);
    }
    while i < 64
        invariant
            i <= 64,
            c == count_upto(b, i as int),
            c <= i,
        decreases 64 - i,
    {
        proof {
            assert((b >> i) & 1 <= 1) by (bit_vector);
        }
        c = c + ((b >> i) & 1) as u32;
        i = i + 1;
    }
    c
}

} // verus!
