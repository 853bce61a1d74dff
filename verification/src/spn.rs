//! A miniature substitution-permutation network on 9-bit blocks.
//!
//! A block is a `u16` whose seven high bits are zero. Each round mixes the
//! 9-bit key in by XOR, substitutes each 3-bit nibble through an invertible
//! lookup table, and (except in special-cased rounds) permutes the bits by a
//! 3x3 transpose. Encoding and decoding are asymmetric round for round but
//! exact inverses over the whole round sequence.

use vstd::prelude::*;

verus! {

/// The largest 9-bit value plus one: blocks and keys lie below this bound.
pub const BLOCK_BOUND: u16 = 512;

/// The forward substitution table: a permutation of {0..7} applied to each
/// 3-bit nibble.
pub open spec fn spec_sbox(v: u16) -> u16 {
    if v == 0 { 4 }
    else if v == 1 { 0 }
    else if v == 2 { 7 }
    else if v == 3 { 3 }
    else if v == 4 { 5 }
    else if v == 5 { 1 }
    else if v == 6 { 2 }
    else { 6 }
}

/// The inverse substitution table, satisfying
/// `spec_sbox_inv(spec_sbox(v)) == v` for all v in 0..8.
pub open spec fn spec_sbox_inv(v: u16) -> u16 {
    if v == 0 { 1 }
    else if v == 1 { 5 }
    else if v == 2 { 6 }
    else if v == 3 { 3 }
    else if v == 4 { 0 }
    else if v == 5 { 4 }
    else if v == 6 { 7 }
    else { 2 }
}

/// One nibble through the forward or the inverse table.
pub open spec fn spec_sub_nibble(v: u16, inv: bool) -> u16 {
    if inv { spec_sbox_inv(v) } else { spec_sbox(v) }
}

/// The substitution layer: each of the three 3-bit nibbles of a 9-bit block
/// replaced independently through the chosen table, positions preserved.
pub open spec fn spec_s(data: u16, inv: bool) -> u16 {
    spec_sub_nibble(data & 7, inv)
        | (spec_sub_nibble((data >> 3) & 7, inv) << 3)
        | (spec_sub_nibble((data >> 6) & 7, inv) << 6)
}

/// The permutation layer: bit i moves to position (i % 3) * 3 + i / 3,
/// a transpose of the 9 bits read as a row-major 3x3 matrix.
pub open spec fn spec_p(data: u16) -> u16 {
    (data & 1)
        | (((data >> 1) & 1) << 3)
        | (((data >> 2) & 1) << 6)
        | (((data >> 3) & 1) << 1)
        | (((data >> 4) & 1) << 4)
        | (((data >> 5) & 1) << 7)
        | (((data >> 6) & 1) << 2)
        | (((data >> 7) & 1) << 5)
        | (((data >> 8) & 1) << 8)
}

/// Key whitening: XOR with the key, masked back to 9 bits.
pub open spec fn spec_xkey(data: u16, key: u16) -> u16 {
    (data ^ key) & 0x1ff
}

/// The substitution table and its inverse are mutual inverses on 0..8.
pub proof fn lemma_sbox_table_inverse(v: u16)
    requires
        v < 8,
    ensures
        spec_sbox_inv(spec_sbox(v)) == v,
        spec_sbox(spec_sbox_inv(v)) == v,
{
}

/// The substitution layer maps 9-bit blocks to 9-bit blocks.
pub proof fn lemma_s_range(data: u16, inv: bool)
    ensures
        spec_s(data, inv) < BLOCK_BOUND,
{
    assert(spec_s(data, inv) < 512) by (bit_vector);
}

/// Substituting forward then inverse (or inverse then forward) restores
/// every 9-bit block: the substitution layer is a bijection.
pub proof fn lemma_substitution_involution(b: u16)
    requires
        b < BLOCK_BOUND,
    ensures
        spec_s(spec_s(b, false), true) == b,
        spec_s(spec_s(b, true), false) == b,
{
    assert(spec_s(spec_s(b, false), true) == b) by (bit_vector)
        requires b < 512;
    assert(spec_s(spec_s(b, true), false) == b) by (bit_vector)
        requires b < 512;
}

/// The permutation layer maps 9-bit blocks to 9-bit blocks.
pub proof fn lemma_p_range(data: u16)
    ensures
        spec_p(data) < BLOCK_BOUND,
{
    assert(spec_p(data) < 512) by (bit_vector);
}

/// Applying the permutation twice restores every 9-bit block: the 3x3
/// transpose is an involution.
pub proof fn lemma_permutation_involution(b: u16)
    requires
        b < BLOCK_BOUND,
    ensures
        spec_p(spec_p(b)) == b,
{
    assert(spec_p(spec_p(b)) == b) by (bit_vector)
        requires b < 512;
}

/// Whitening is an involution on 9-bit blocks, for any key.
pub proof fn lemma_xkey_involution(b: u16, key: u16)
    requires
        b < BLOCK_BOUND,
    ensures
        spec_xkey(spec_xkey(b, key), key) == b,
{
    assert(spec_xkey(spec_xkey(b, key), key) == b) by (bit_vector)
        requires b < 512;
}

/// Whitening always yields a 9-bit block.
pub proof fn lemma_xkey_range(data: u16, key: u16)
    ensures
        spec_xkey(data, key) < BLOCK_BOUND,
{
    assert(spec_xkey(data, key) < 512) by (bit_vector);
}

/// A substitution-permutation network with a fixed round count. Stateless
/// beyond the round count: data and key are passed per call.
pub struct SPN {
    rounds: usize,
}

impl SPN {
    /// The round count this instance was built with.
    pub closed spec fn spec_rounds(&self) -> nat {
        self.rounds as nat
    }

    pub fn new(rounds: usize) -> (r: Self)
        ensures
            r.spec_rounds() == rounds as nat,
    {
        Self { rounds }
    }

    /// One nibble through the forward or inverse substitution table.
    fn sbox_at(v: u16, inv: bool) -> (r: u16)
        requires
            v < 8,
        ensures
            r == spec_sub_nibble(v, inv),
            r < 8,
    {
        if inv {
            if v == 0 { 1 }
            else if v == 1 { 5 }
            else if v == 2 { 6 }
            else if v == 3 { 3 }
            else if v == 4 { 0 }
            else if v == 5 { 4 }
            else if v == 6 { 7 }
            else { 2 }
        } else {
            if v == 0 { 4 }
            else if v == 1 { 0 }
            else if v == 2 { 7 }
            else if v == 3 { 3 }
            else if v == 4 { 5 }
            else if v == 5 { 1 }
            else if v == 6 { 2 }
            else { 6 }
        }
    }

    /// The forward substitution table as a plain array, for callers that
    /// analyze the table itself rather than apply it.
    pub fn sbox_table() -> (t: [u16; 8])
        ensures
            forall|i: int| 0 <= i < 8 ==> t@[i] == spec_sbox(i as u16),
            forall|i: int| 0 <= i < 8 ==> t@[i] < 8,
    {
        let t: [u16; 8] = [4, 0, 7, 3, 5, 1, 2, 6];
        t
    }

    /// XOR the key into the block and mask back to 9 bits.
    pub fn xkey(data: u16, key: u16) -> (r: u16)
        ensures
            r == spec_xkey(data, key),
            r < BLOCK_BOUND,
    {
        proof { lemma_xkey_range(data, key); }
        (data ^ key) & 0x1ff
    }

    /// Substitute all three nibbles of a 9-bit block, forward (`inv` false)
    /// or through the inverse table (`inv` true).
    pub fn s(data: u16, inv: bool) -> (r: u16)
        requires
            data < BLOCK_BOUND,
        ensures
            r == spec_s(data, inv),
            r < BLOCK_BOUND,
    {
        proof { lemma_s_range(data, inv); }
        assert((data & 7) < 8 && ((data >> 3) & 7) < 8 && ((data >> 6) & 7) < 8) by (bit_vector);
        let n0: u16 = Self::sbox_at(data & 7, inv);
        let n1: u16 = Self::sbox_at((data >> 3) & 7, inv);
        let n2: u16 = Self::sbox_at((data >> 6) & 7, inv);
        n0 | (n1 << 3) | (n2 << 6)
    }

    /// Substitute only nibble `i` (0 = low, 2 = high) of a 9-bit block,
    /// leaving the other bits unchanged.
    pub fn s_i(i: usize, data: u16, inv: bool) -> (r: u16)
        requires
            i < 3,
            data < BLOCK_BOUND,
        ensures
            r == spec_s_i(i as int, data, inv),
            r < BLOCK_BOUND,
    {
        assert((data & 7) < 8 && ((data >> 3) & 7) < 8 && ((data >> 6) & 7) < 8) by (bit_vector);
        if i == 0 {
            let n: u16 = Self::sbox_at(data & 7, inv);
            assert((data & 0x1f8) | n < 512) by (bit_vector)
                requires data < 512 && n < 8;
            (data & 0x1f8) | n
        } else if i == 1 {
            let n: u16 = Self::sbox_at((data >> 3) & 7, inv);
            assert((data & 0x1c7) | (n << 3) < 512) by (bit_vector)
                requires data < 512 && n < 8;
            (data & 0x1c7) | (n << 3)
        } else {
            let n: u16 = Self::sbox_at((data >> 6) & 7, inv);
            assert((data & 0x03f) | (n << 6) < 512) by (bit_vector)
                requires data < 512 && n < 8;
            (data & 0x03f) | (n << 6)
        }
    }

    /// One encoding round; `last` selects the second whitening in place of
    /// the permutation.
    fn round_enc(data: u16, key: u16, last: bool) -> (r: u16)
        requires
            data < BLOCK_BOUND,
        ensures
            r == spec_round_enc(data, key, last),
            r < BLOCK_BOUND,
    {
        let mut result: u16 = data;
        result = Self::xkey(result, key);
        result = Self::s(result, false);
        if last {
            Self::xkey(result, key)
        } else {
            Self::p(result)
        }
    }

    /// One decoding round; `first` selects undoing the final whitening in
    /// place of undoing a permutation.
    fn round_dec(data: u16, key: u16, first: bool) -> (r: u16)
        requires
            data < BLOCK_BOUND,
        ensures
            r == spec_round_dec(data, key, first),
            r < BLOCK_BOUND,
    {
        let mut result: u16 = data;
        result = if first {
            Self::xkey(result, key)
        } else {
            Self::p(result)
        };
        result = Self::s(result, true);
        Self::xkey(result, key)
    }

    /// Encode a 9-bit block under a 9-bit key, running the configured
    /// number of rounds.
    pub fn encode(&self, data: u16, key: u16) -> (r: u16)
        requires
            data < BLOCK_BOUND,
            key < BLOCK_BOUND,
        ensures
            r == spec_encode(data, key, self.spec_rounds()),
            r < BLOCK_BOUND,
    {
        let rounds: usize = self.rounds;
        let mut result: u16 = data;
        for round in 0..rounds
            invariant
                result < BLOCK_BOUND,
                round < rounds ==> result == spec_enc_mid(data, key, round as nat),
                round == rounds ==> result == spec_encode(data, key, rounds as nat),
        {
            result = Self::round_enc(result, key, round == rounds - 1);
        }
        result
    }

    /// Decode a 9-bit block under a 9-bit key: the exact inverse of
    /// `encode` with the same key and round count.
    pub fn decode(&self, data: u16, key: u16) -> (r: u16)
        requires
            data < BLOCK_BOUND,
            key < BLOCK_BOUND,
        ensures
            r == spec_decode(data, key, self.spec_rounds()),
            r < BLOCK_BOUND,
    {
        let rounds: usize = self.rounds;
        let mut result: u16 = data;
        for round in 0..rounds
            invariant
                result < BLOCK_BOUND,
                round == 0 ==> result == data,
                1 <= round && round <= rounds ==> result == spec_dec_tail(
                    spec_round_dec(data, key, true), key, (round - 1) as nat),
        {
            result = Self::round_dec(result, key, round == 0);
        }
        result
    }

    /// Redistribute the 9 bits of a block by the 3x3 transpose.
    pub fn p(data: u16) -> (r: u16)
        requires
            data < BLOCK_BOUND,
        ensures
            r == spec_p(data),
            r < BLOCK_BOUND,
    {
        proof { lemma_p_range(data); }
        (data & 1)
            | (((data >> 1) & 1) << 3)
            | (((data >> 2) & 1) << 6)
            | (((data >> 3) & 1) << 1)
            | (((data >> 4) & 1) << 4)
            | (((data >> 5) & 1) << 7)
            | (((data >> 6) & 1) << 2)
            | (((data >> 7) & 1) << 5)
            | (((data >> 8) & 1) << 8)
    }
}

/// Substitution of a single nibble `i` (0..3) in place: the other bits of
/// the block are kept.
pub open spec fn spec_s_i(i: int, data: u16, inv: bool) -> u16 {
    if i == 0 {
        (data & 0x1f8) | spec_sub_nibble(data & 7, inv)
    } else if i == 1 {
        (data & 0x1c7) | (spec_sub_nibble((data >> 3) & 7, inv) << 3)
    } else {
        (data & 0x03f) | (spec_sub_nibble((data >> 6) & 7, inv) << 6)
    }
}

/// One encoding round: whiten, substitute forward, then either permute or,
/// in the last round, whiten a second time instead.
pub open spec fn spec_round_enc(data: u16, key: u16, last: bool) -> u16 {
    if last {
        spec_xkey(spec_s(spec_xkey(data, key), false), key)
    } else {
        spec_p(spec_s(spec_xkey(data, key), false))
    }
}

/// One decoding round: undo the permutation (or, in the first round, the
/// final whitening), substitute through the inverse table, then whiten.
pub open spec fn spec_round_dec(data: u16, key: u16, first: bool) -> u16 {
    spec_xkey(spec_s(if first { spec_xkey(data, key) } else { spec_p(data) }, true), key)
}

/// `m` non-last encoding rounds applied to `data`.
pub open spec fn spec_enc_mid(data: u16, key: u16, m: nat) -> u16
    decreases m,
{
    if m == 0 {
        data
    } else {
        spec_round_enc(spec_enc_mid(data, key, (m - 1) as nat), key, false)
    }
}

/// The whole forward transform: `n - 1` non-last rounds followed by the
/// last round with its second whitening. Zero rounds is the identity.
pub open spec fn spec_encode(data: u16, key: u16, n: nat) -> u16 {
    if n == 0 {
        data
    } else {
        spec_round_enc(spec_enc_mid(data, key, (n - 1) as nat), key, true)
    }
}

/// `m` non-first decoding rounds applied to `data`.
pub open spec fn spec_dec_tail(data: u16, key: u16, m: nat) -> u16
    decreases m,
{
    if m == 0 {
        data
    } else {
        spec_round_dec(spec_dec_tail(data, key, (m - 1) as nat), key, false)
    }
}

/// The whole inverse transform: the first round undoes the final whitening,
/// then `n - 1` rounds each undo one permuted forward round.
pub open spec fn spec_decode(data: u16, key: u16, n: nat) -> u16 {
    if n == 0 {
        data
    } else {
        spec_dec_tail(spec_round_dec(data, key, true), key, (n - 1) as nat)
    }
}

/// Every encoding round yields a 9-bit block.
pub proof fn lemma_round_enc_range(data: u16, key: u16, last: bool)
    ensures
        spec_round_enc(data, key, last) < BLOCK_BOUND,
{
    if last {
        lemma_xkey_range(spec_s(spec_xkey(data, key), false), key);
    } else {
        lemma_p_range(spec_s(spec_xkey(data, key), false));
    }
}

/// A non-first decoding round undoes a non-last encoding round.
pub proof fn lemma_round_mid_inverse(data: u16, key: u16)
    requires
        data < BLOCK_BOUND,
    ensures
        spec_round_dec(spec_round_enc(data, key, false), key, false) == data,
{
    let w = spec_xkey(data, key);
    lemma_xkey_range(data, key);
    let su = spec_s(w, false);
    lemma_s_range(w, false);
    lemma_permutation_involution(su);
    lemma_substitution_involution(w);
    lemma_xkey_involution(data, key);
}

/// The first decoding round undoes the last encoding round.
pub proof fn lemma_round_last_inverse(data: u16, key: u16)
    requires
        data < BLOCK_BOUND,
    ensures
        spec_round_dec(spec_round_enc(data, key, true), key, true) == data,
{
    let w = spec_xkey(data, key);
    lemma_xkey_range(data, key);
    let su = spec_s(w, false);
    lemma_s_range(w, false);
    lemma_xkey_involution(su, key);
    lemma_substitution_involution(w);
    lemma_xkey_involution(data, key);
}

/// Chains of non-last encoding rounds stay within 9 bits.
pub proof fn lemma_enc_mid_range(data: u16, key: u16, m: nat)
    requires
        data < BLOCK_BOUND,
    ensures
        spec_enc_mid(data, key, m) < BLOCK_BOUND,
    decreases m,
{
    if m > 0 {
        lemma_enc_mid_range(data, key, (m - 1) as nat);
        lemma_round_enc_range(spec_enc_mid(data, key, (m - 1) as nat), key, false);
    }
}

/// A chain of non-first decoding rounds may equally be unrolled from the
/// front: the innermost application commutes to the outside.
pub proof fn lemma_dec_tail_front(data: u16, key: u16, m: nat)
    requires
        m >= 1,
    ensures
        spec_dec_tail(data, key, m)
            == spec_dec_tail(spec_round_dec(data, key, false), key, (m - 1) as nat),
    decreases m,
{
    let stepped = spec_round_dec(data, key, false);
    if m == 1 {
        assert(spec_dec_tail(data, key, 1) == spec_round_dec(spec_dec_tail(data, key, 0), key, false));
        assert(spec_dec_tail(stepped, key, 0) == stepped);
    } else {
        lemma_dec_tail_front(data, key, (m - 1) as nat);
        assert(spec_dec_tail(data, key, m) == spec_round_dec(spec_dec_tail(data, key, (m - 1) as nat), key, false));
        assert(spec_dec_tail(stepped, key, (m - 1) as nat)
            == spec_round_dec(spec_dec_tail(stepped, key, (m - 2) as nat), key, false));
    }
}

/// `m` non-first decoding rounds undo `m` non-last encoding rounds.
pub proof fn lemma_mid_round_trip(data: u16, key: u16, m: nat)
    requires
        data < BLOCK_BOUND,
    ensures
        spec_dec_tail(spec_enc_mid(data, key, m), key, m) == data,
    decreases m,
{
    if m > 0 {
        let e = spec_enc_mid(data, key, (m - 1) as nat);
        lemma_enc_mid_range(data, key, (m - 1) as nat);
        lemma_dec_tail_front(spec_enc_mid(data, key, m), key, m);
        lemma_round_mid_inverse(e, key);
        lemma_mid_round_trip(data, key, (m - 1) as nat);
    }
}

/// The round-trip law: decoding the encoding of any 9-bit block under the
/// same key and any positive round count restores the block.
pub proof fn lemma_round_trip(data: u16, key: u16, n: nat)
    requires
        data < BLOCK_BOUND,
        n >= 1,
    ensures
        spec_decode(spec_encode(data, key, n), key, n) == data,
{
    let e = spec_enc_mid(data, key, (n - 1) as nat);
    lemma_enc_mid_range(data, key, (n - 1) as nat);
    lemma_round_last_inverse(e, key);
    lemma_mid_round_trip(data, key, (n - 1) as nat);
}

/// Substituting the three nibbles one at a time, low to high, equals the
/// whole substitution layer in one step.
pub proof fn lemma_s_i_composes(data: u16, inv: bool)
    requires
        data < BLOCK_BOUND,
    ensures
        spec_s_i(2, spec_s_i(1, spec_s_i(0, data, inv), inv), inv) == spec_s(data, inv),
{
    assert(spec_s_i(2, spec_s_i(1, spec_s_i(0, data, inv), inv), inv) == spec_s(data, inv))
        by (bit_vector)
        requires data < 512;
}

} // verus!
