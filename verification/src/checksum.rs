//! The Internet checksum: the 16-bit one's complement of the one's-complement
//! sum of a byte string read as big-endian 16-bit words.

use vstd::prelude::*;

verus! {

/// The sum of the big-endian 16-bit words of `bytes`. A trailing odd byte
/// counts as the high half of a word whose low half is zero.
pub open spec fn word_sum(bytes: Seq<u8>) -> nat
    decreases bytes.len(),
{
    if bytes.len() == 0 {
        0
    } else if bytes.len() == 1 {
        bytes[0] as nat * 256
    } else {
        bytes[0] as nat * 256 + bytes[1] as nat + word_sum(bytes.skip(2))
    }
}

/// The one's-complement reduction of a sum to 16 bits: zero stays zero, and
/// any other sum goes to the number in `1 ..= 0xFFFF` that it is congruent to
/// modulo `0xFFFF`.
pub open spec fn fold16(sum: nat) -> nat {
    if sum == 0 {
        0
    } else {
        ((sum - 1) % 0xFFFF + 1) as nat
    }
}

/// The Internet checksum of `bytes`.
#[verifier::opaque]
pub open spec fn spec_internet_checksum(bytes: Seq<u8>) -> u16 {
    (0xFFFF - fold16(word_sum(bytes))) as u16
}

/// The two bytes of a 16-bit word, high byte first.
pub open spec fn be16(word: u16) -> Seq<u8> {
    seq![(word / 256) as u8, (word % 256) as u8]
}

/// A 32-bit accumulator stands for a sum when the two are congruent modulo
/// `0xFFFF` and are zero together.
spec fn stands_for(acc: u32, sum: nat) -> bool {
    &&& acc as nat % 0xFFFF == sum % 0xFFFF
    &&& (acc == 0 <==> sum == 0)
}

/// The word sum of a concatenation is the sum of the word sums, as long as
/// the first part ends on a word boundary.
pub proof fn lemma_word_sum_concat(a: Seq<u8>, b: Seq<u8>)
    requires
        a.len() % 2 == 0,
    ensures
        word_sum(a + b) == word_sum(a) + word_sum(b),
    decreases a.len(),
{
    if a.len() == 0 {
        assert(a + b =~= b);
    } else {
        assert((a + b).skip(2) =~= a.skip(2) + b);
        lemma_word_sum_concat(a.skip(2), b);
    }
}

/// The word sum of a single word is the word.
pub proof fn lemma_word_sum_be16(word: u16)
    ensures
        word_sum(be16(word)) == word,
        be16(word).len() == 2,
{
    reveal_with_fuel(word_sum, 2);
}

/// Adds one 16-bit word to the accumulator; a carry out of bit 31 is added
/// back into bit 0.
fn add_word(acc: u32, word: u16, Ghost(sum): Ghost<nat>) -> (r: u32)
    requires
        stands_for(acc, sum),
    ensures
        stands_for(r, sum + word as nat),
{
    let wide: u64 = acc as u64 + word as u64;
    proof {
        vstd::arithmetic::div_mod::lemma_add_mod_noop(acc as int, word as int, 0xFFFF);
        vstd::arithmetic::div_mod::lemma_add_mod_noop(sum as int, word as int, 0xFFFF);
        // 2^32 - 1 is a multiple of 0xFFFF
        vstd::arithmetic::div_mod::lemma_mod_multiples_vanish(-0x1_0001, wide as int, 0xFFFF);
    }
    if wide > 0xFFFF_FFFF {
        assert(wide - 0xFFFF_FFFF == 0xFFFF * (-0x1_0001) + wide);
        (wide - 0xFFFF_FFFF) as u32
    } else {
        wide as u32
    }
}

/// Folds the high half of the accumulator into the low half, twice.
fn fold(acc: u32, Ghost(sum): Ghost<nat>) -> (r: u16)
    requires
        stands_for(acc, sum),
    ensures
        r == fold16(sum),
{
    assert(acc >> 16 == acc / 0x1_0000 && acc & 0xffff == acc % 0x1_0000) by (bit_vector);
    let first: u32 = (acc >> 16) + (acc & 0xffff);
    assert(first >> 16 == first / 0x1_0000 && first & 0xffff == first % 0x1_0000) by (bit_vector);
    let second: u32 = (first >> 16) + (first & 0xffff);
    proof {
        // each fold takes a multiple of 0xFFFF away
        let high: int = acc as int / 0x1_0000;
        let carry: int = first as int / 0x1_0000;
        assert(acc == first + 0xFFFF * high);
        assert(first == second + 0xFFFF * carry);
        assert(carry <= 1);
        assert(second <= 0xFFFF);
        vstd::arithmetic::div_mod::lemma_mod_multiples_vanish(high, first as int, 0xFFFF);
        vstd::arithmetic::div_mod::lemma_mod_multiples_vanish(carry, second as int, 0xFFFF);
        assert(second as nat % 0xFFFF == sum % 0xFFFF);
        assert(second == 0 <==> sum == 0);
    }
    second as u16
}

/// Computes the Internet checksum of `data`: a 32-bit accumulator takes the
/// big-endian 16-bit words one by one, each carry wrapping around into bit 0;
/// a trailing odd byte is padded with a zero byte; the high half is folded
/// into the low half twice; and the result is complemented.
pub fn internet_checksum(data: &[u8]) -> (c: u16)
    ensures
        c == spec_internet_checksum(data@),
{
    reveal(spec_internet_checksum);
    let len: usize = data.len();
    let mut acc: u32 = 0;
    let mut i: usize = 0;
    assert(data@.take(0) =~= Seq::<u8>::empty());
    while len - i >= 2
        invariant
            len == data@.len(),
            i <= len,
            i % 2 == 0,
            stands_for(acc, word_sum(data@.take(i as int))),
        decreases len - i,
    {
        let word: u16 = data[i] as u16 * 256 + data[i + 1] as u16;
        proof {
            let pair = seq![data@[i as int], data@[i + 1]];
            assert(data@.take(i + 2) =~= data@.take(i as int) + pair);
            lemma_word_sum_concat(data@.take(i as int), pair);
            reveal_with_fuel(word_sum, 2);
            assert(word_sum(pair) == word);
        }
        acc = add_word(acc, word, Ghost(word_sum(data@.take(i as int))));
        i = i + 2;
    }
    if i < len {
        let word: u16 = data[i] as u16 * 256;
        proof {
            let last = seq![data@[i as int]];
            assert(data@.take(i + 1) =~= data@.take(i as int) + last);
            lemma_word_sum_concat(data@.take(i as int), last);
            assert(word_sum(last) == word);
        }
        acc = add_word(acc, word, Ghost(word_sum(data@.take(i as int))));
        i = i + 1;
    }
    assert(data@.take(len as int) =~= data@);
    let folded: u16 = fold(acc, Ghost(word_sum(data@)));
    assert(!folded == 0xFFFF - folded) by (bit_vector);
    !folded
}

/// A checksum written into the word it was computed over cancels the sum:
/// take any bytes with a zero word at an even offset, compute their checksum,
/// and put it in place of the zero word; the checksum of the result is zero.
pub proof fn lemma_checksum_cancels(before: Seq<u8>, after: Seq<u8>)
    requires
        before.len() % 2 == 0,
    ensures
        spec_internet_checksum(
            before + be16(spec_internet_checksum(before + be16(0) + after)) + after,
        ) == 0,
{
    reveal(spec_internet_checksum);
    let zeroed = before + be16(0) + after;
    let c = spec_internet_checksum(zeroed);
    let filled = before + be16(c) + after;
    lemma_word_sum_be16(0);
    lemma_word_sum_be16(c);
    lemma_word_sum_concat(before, be16(0));
    lemma_word_sum_concat(before + be16(0), after);
    lemma_word_sum_concat(before, be16(c));
    lemma_word_sum_concat(before + be16(c), after);
    let s0 = word_sum(zeroed);
    assert(word_sum(filled) == s0 + c);
    if s0 > 0 {
        let q = (s0 - 1) / 0xFFFF;
        let f = (s0 - 1) % 0xFFFF + 1;
        assert(s0 - 1 == q * 0xFFFF + (f - 1));
        assert(c == 0xFFFF - f);
        assert(s0 + c - 1 == q * 0xFFFF + 0xFFFE);
        assert((s0 + c - 1) % 0xFFFF == 0xFFFE) by {
            vstd::arithmetic::div_mod::lemma_fundamental_div_mod_converse(
                s0 + c - 1,
                0xFFFF,
                q,
                0xFFFE,
            );
        }
    }
}

} // verus!
