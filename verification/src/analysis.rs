//! Linear-cryptanalysis tools for the 9-bit SPN: a bias table over the
//! substitution table, a sampling run that collects parity statistics under
//! a fixed known key, and key recovery from known plaintext/ciphertext
//! pairs.

use vstd::prelude::*;
use rand::Rng;
use crate::spn::{SPN, BLOCK_BOUND, spec_encode};

verus! {

/// The round count the statistics run and key recovery validate against.
pub const STAT_ROUNDS: usize = 3;

/// The fixed known key the statistics run encrypts under.
pub const STAT_KEY: u16 = 0b011000101;

/// How many random plaintexts the statistics run samples.
pub const STAT_SAMPLES: usize = 100;

/// Parity (population count mod 2) of a 3-bit value.
pub open spec fn spec_par3(v: u16) -> u16 {
    (v ^ (v >> 1) ^ (v >> 2)) & 1
}

/// Whether table entry `v` has equal parities under input mask `i` and
/// output mask `j`.
pub open spec fn spec_mask_match(s: Seq<u16>, i: u16, j: u16, v: u16) -> bool
    recommends
        v < s.len(),
{
    spec_par3(v & i) == spec_par3(s[v as int] & j)
}

/// How many of the first `n` table entries have matching parities under
/// masks `i` and `j`.
pub open spec fn spec_bias_upto(s: Seq<u16>, i: u16, j: u16, n: nat) -> int
    decreases n,
{
    if n == 0 {
        0
    } else {
        spec_bias_upto(s, i, j, (n - 1) as nat)
            + if spec_mask_match(s, i, j, (n - 1) as u16) { 1int } else { 0int }
    }
}

/// The bias count for one mask pair: over all 8 table entries, how often
/// the parity of the masked input equals the parity of the masked output.
pub open spec fn spec_bias(s: Seq<u16>, i: u16, j: u16) -> int {
    spec_bias_upto(s, i, j, 8)
}

/// A partial bias count over `n` entries lies in 0..n.
pub proof fn lemma_bias_upto_bounds(s: Seq<u16>, i: u16, j: u16, n: nat)
    ensures
        0 <= spec_bias_upto(s, i, j, n) <= n,
    decreases n,
{
    if n > 0 {
        lemma_bias_upto_bounds(s, i, j, (n - 1) as nat);
    }
}

/// Every bias-table entry lies in 0..8 inclusive.
pub proof fn lemma_bias_range(s: Seq<u16>, i: u16, j: u16)
    ensures
        0 <= spec_bias(s, i, j) <= 8,
{
    lemma_bias_upto_bounds(s, i, j, 8);
}

/// Parity of the three low bits of a value.
fn par3(v: u16) -> (r: u16)
    ensures
        r == spec_par3(v),
        r < 2,
{
    proof {
        assert(((v ^ (v >> 1) ^ (v >> 2)) & 1) < 2) by (bit_vector);
    }
    (v ^ (v >> 1) ^ (v >> 2)) & 1
}

/// For every nonzero 3-bit input mask `i` and output mask `j`, count over
/// all 8 entries of the substitution table how often the parity of the
/// masked entry index equals the parity of the masked entry value. Rows
/// are indexed by `i - 1`, columns by `j - 1`.
pub fn analyze_s(s: [u16; 8]) -> (table: Vec<Vec<u8>>)
    ensures
        table@.len() == 7,
        forall|i: int| 0 <= i < 7 ==> (#[trigger] table@[i])@.len() == 7,
        forall|i: int, j: int| 0 <= i < 7 && 0 <= j < 7
            ==> (#[trigger] table@[i]@[j]) as int == spec_bias(s@, (i + 1) as u16, (j + 1) as u16),
        forall|i: int, j: int| 0 <= i < 7 && 0 <= j < 7 ==> (#[trigger] table@[i]@[j]) <= 8,
{
    let mut table: Vec<Vec<u8>> = Vec::new();
    for i in 1u16..8u16
        invariant
            table@.len() == i - 1,
            forall|ii: int| 0 <= ii < i - 1 ==> (#[trigger] table@[ii])@.len() == 7,
            forall|ii: int, jj: int| 0 <= ii < i - 1 && 0 <= jj < 7
                ==> (#[trigger] table@[ii]@[jj]) as int
                    == spec_bias(s@, (ii + 1) as u16, (jj + 1) as u16),
            forall|ii: int, jj: int| 0 <= ii < i - 1 && 0 <= jj < 7
                ==> (#[trigger] table@[ii]@[jj]) <= 8,
    {
        let mut row: Vec<u8> = Vec::new();
        for j in 1u16..8u16
            invariant
                row@.len() == j - 1,
                forall|jj: int| 0 <= jj < j - 1
                    ==> (#[trigger] row@[jj]) as int == spec_bias(s@, i, (jj + 1) as u16),
                forall|jj: int| 0 <= jj < j - 1 ==> (#[trigger] row@[jj]) <= 8,
        {
            let mut count: u8 = 0;
            for v in 0u16..8u16
                invariant
                    count as int == spec_bias_upto(s@, i, j, v as nat),
                    count <= v,
            {
                let masked_input: u16 = par3(v & i);
                let masked_output: u16 = par3(s[v as usize] & j);
                if masked_input == masked_output {
                    count = count + 1;
                }
            }
            row.push(count);
        }
        table.push(row);
    }
    table
}

/// Extract one bit of a 9-bit block at a 1-indexed position counted from
/// the most significant bit: position 1 is bit 8, position 9 is bit 0.
pub open spec fn spec_get(num: u16, i: u16) -> u16
    recommends
        1 <= i <= 9,
{
    (num >> ((9 - i) as u16)) & 1
}

/// Extract one bit of a block, 1-indexed from the most significant bit.
pub fn get(num: u16, i: usize) -> (r: u16)
    requires
        1 <= i <= 9,
    ensures
        r == spec_get(num, i as u16),
        r < 2,
{
    let shift: u16 = (9 - i) as u16;
    proof {
        assert((num >> shift) & 1 < 2) by (bit_vector);
    }
    (num >> shift) & 1
}

/// Linear approximation `m` (0..9) of the 3-round cipher: a fixed XOR of
/// chosen plaintext and ciphertext bit positions, derived offline from the
/// bias table of this substitution table and permutation.
pub open spec fn spec_approx(m: u16, x: u16, y: u16) -> u16 {
    if m == 0 {
        (spec_get(y, 5) ^ spec_get(y, 8) ^ spec_get(x, 2)) & 1
    } else if m == 1 {
        (spec_get(y, 4) ^ spec_get(y, 7) ^ spec_get(x, 1) ^ spec_get(x, 2)) & 1
    } else if m == 2 {
        (spec_get(y, 4) ^ spec_get(y, 7) ^ spec_get(y, 9) ^ spec_get(x, 1) ^ spec_get(x, 2)) & 1
    } else if m == 3 {
        (spec_get(y, 4) ^ spec_get(y, 7) ^ spec_get(x, 1)) & 1
    } else if m == 4 {
        (spec_get(y, 4) ^ spec_get(y, 5) ^ spec_get(y, 7) ^ spec_get(x, 1)) & 1
    } else if m == 5 {
        (spec_get(y, 4) ^ spec_get(y, 5) ^ spec_get(y, 6) ^ spec_get(y, 7) ^ spec_get(x, 1)) & 1
    } else if m == 6 {
        (spec_get(y, 2) ^ spec_get(y, 3) ^ spec_get(x, 9)) & 1
    } else if m == 7 {
        (spec_get(y, 7) ^ spec_get(x, 1) ^ spec_get(x, 2) ^ spec_get(x, 4) ^ spec_get(x, 5)) & 1
    } else {
        (spec_get(y, 5) ^ spec_get(y, 6) ^ spec_get(y, 8) ^ spec_get(y, 9) ^ spec_get(x, 3)) & 1
    }
}

/// The low bit of any value is 0 or 1.
proof fn lemma_bit_and_one(z: u16)
    ensures
        z & 1 < 2,
{
    assert(z & 1 < 2) by (bit_vector);
}

/// Every linear approximation evaluates to 0 or 1.
pub proof fn lemma_approx_bound(m: u16, x: u16, y: u16)
    ensures
        spec_approx(m, x, y) < 2,
{
    if m == 0 {
        lemma_bit_and_one(spec_get(y, 5) ^ spec_get(y, 8) ^ spec_get(x, 2));
    } else if m == 1 {
        lemma_bit_and_one(spec_get(y, 4) ^ spec_get(y, 7) ^ spec_get(x, 1) ^ spec_get(x, 2));
    } else if m == 2 {
        lemma_bit_and_one(spec_get(y, 4) ^ spec_get(y, 7) ^ spec_get(y, 9) ^ spec_get(x, 1) ^ spec_get(x, 2));
    } else if m == 3 {
        lemma_bit_and_one(spec_get(y, 4) ^ spec_get(y, 7) ^ spec_get(x, 1));
    } else if m == 4 {
        lemma_bit_and_one(spec_get(y, 4) ^ spec_get(y, 5) ^ spec_get(y, 7) ^ spec_get(x, 1));
    } else if m == 5 {
        lemma_bit_and_one(spec_get(y, 4) ^ spec_get(y, 5) ^ spec_get(y, 6) ^ spec_get(y, 7) ^ spec_get(x, 1));
    } else if m == 6 {
        lemma_bit_and_one(spec_get(y, 2) ^ spec_get(y, 3) ^ spec_get(x, 9));
    } else if m == 7 {
        lemma_bit_and_one(spec_get(y, 7) ^ spec_get(x, 1) ^ spec_get(x, 2) ^ spec_get(x, 4) ^ spec_get(x, 5));
    } else {
        lemma_bit_and_one(spec_get(y, 5) ^ spec_get(y, 6) ^ spec_get(y, 8) ^ spec_get(y, 9) ^ spec_get(x, 3));
    }
}

/// Evaluate linear approximation `m` on one plaintext/ciphertext pair.
pub fn approx(m: usize, x: u16, y: u16) -> (r: u16)
    requires
        m < 9,
    ensures
        r == spec_approx(m as u16, x, y),
        r < 2,
{
    proof {
        lemma_approx_bound(m as u16, x, y);
    }
    if m == 0 {
        (get(y, 5) ^ get(y, 8) ^ get(x, 2)) & 1
    } else if m == 1 {
        (get(y, 4) ^ get(y, 7) ^ get(x, 1) ^ get(x, 2)) & 1
    } else if m == 2 {
        (get(y, 4) ^ get(y, 7) ^ get(y, 9) ^ get(x, 1) ^ get(x, 2)) & 1
    } else if m == 3 {
        (get(y, 4) ^ get(y, 7) ^ get(x, 1)) & 1
    } else if m == 4 {
        (get(y, 4) ^ get(y, 5) ^ get(y, 7) ^ get(x, 1)) & 1
    } else if m == 5 {
        (get(y, 4) ^ get(y, 5) ^ get(y, 6) ^ get(y, 7) ^ get(x, 1)) & 1
    } else if m == 6 {
        (get(y, 2) ^ get(y, 3) ^ get(x, 9)) & 1
    } else if m == 7 {
        (get(y, 7) ^ get(x, 1) ^ get(x, 2) ^ get(x, 4) ^ get(x, 5)) & 1
    } else {
        (get(y, 5) ^ get(y, 6) ^ get(y, 8) ^ get(y, 9) ^ get(x, 3)) & 1
    }
}

/// How often approximation `m` evaluates to 1 over a list of pairs.
pub open spec fn spec_stat_count(pairs: Seq<(u16, u16)>, m: u16) -> int
    decreases pairs.len(),
{
    if pairs.len() == 0 {
        0
    } else {
        spec_stat_count(pairs.drop_last(), m) + spec_approx(m, pairs.last().0, pairs.last().1)
    }
}

/// An approximation count over a list of pairs lies in 0..len.
pub proof fn lemma_stat_count_bounds(pairs: Seq<(u16, u16)>, m: u16)
    ensures
        0 <= spec_stat_count(pairs, m) <= pairs.len(),
    decreases pairs.len(),
{
    if pairs.len() > 0 {
        lemma_stat_count_bounds(pairs.drop_last(), m);
        lemma_approx_bound(m, pairs.last().0, pairs.last().1);
    }
}

/// Appending one pair raises each approximation count by that pair's
/// approximation value.
pub proof fn lemma_stat_count_push(pairs: Seq<(u16, u16)>, x: u16, y: u16, m: u16)
    ensures
        spec_stat_count(pairs.push((x, y)), m)
            == spec_stat_count(pairs, m) + spec_approx(m, x, y),
{
    assert(pairs.push((x, y)).drop_last() =~= pairs);
    assert(pairs.push((x, y)).last() == (x, y));
}

/// Relies on `rand::thread_rng` and `rand::Rng::gen_range`: a sample from
/// the non-empty inclusive range `0..=0x1ff`, hence always below 512.
/// Nothing more is assumed of the value.
#[verifier::external_body]
fn random_block() -> (r: u16)
    ensures
        r < BLOCK_BOUND,
{
    rand::thread_rng().gen_range(0..=0x1ffu16)
}

/// Sample `STAT_SAMPLES` random plaintexts, encrypt each under the fixed
/// known key with the fixed round count, and return the pairs together
/// with, for each linear approximation, how often it evaluated to 1.
pub fn statistics() -> (r: (Vec<(u16, u16)>, Vec<u32>))
    ensures
        r.0@.len() == STAT_SAMPLES,
        forall|t: int| 0 <= t < r.0@.len()
            ==> (#[trigger] r.0@[t]).0 < BLOCK_BOUND
                && r.0@[t].1 == spec_encode(r.0@[t].0, STAT_KEY, STAT_ROUNDS as nat),
        r.1@.len() == 9,
        forall|m: u16| m < 9 ==> (#[trigger] r.1@[m as int]) as int == spec_stat_count(r.0@, m),
{
    let spn = SPN::new(STAT_ROUNDS);
    let mut ciphers: Vec<(u16, u16)> = Vec::new();
    let mut stats: Vec<u32> = vec![0, 0, 0, 0, 0, 0, 0, 0, 0];
    for t in 0..STAT_SAMPLES
        invariant
            spn.spec_rounds() == STAT_ROUNDS,
            ciphers@.len() == t,
            forall|u: int| 0 <= u < ciphers@.len()
                ==> (#[trigger] ciphers@[u]).0 < BLOCK_BOUND
                    && ciphers@[u].1 == spec_encode(ciphers@[u].0, STAT_KEY, STAT_ROUNDS as nat),
            stats@.len() == 9,
            forall|m: u16| m < 9
                ==> (#[trigger] stats@[m as int]) as int == spec_stat_count(ciphers@, m),
    {
        let x: u16 = random_block();
        let y: u16 = spn.encode(x, STAT_KEY);
        let ghost prev = ciphers@;
        ciphers.push((x, y));
        proof {
            assert forall|m: u16| m < 9 implies
                spec_stat_count(ciphers@, m) == spec_stat_count(prev, m) + spec_approx(m, x, y)
                && 0 <= #[trigger] spec_stat_count(ciphers@, m) <= ciphers@.len() by {
                lemma_stat_count_push(prev, x, y, m);
                lemma_stat_count_bounds(prev, m);
                lemma_approx_bound(m, x, y);
            }
        }
        let mut m: usize = 0;
        while m < 9
            invariant
                m <= 9,
                stats@.len() == 9,
                ciphers@.len() == t + 1,
                t < STAT_SAMPLES,
                forall|mm: u16| mm < 9
                    ==> 0 <= #[trigger] spec_stat_count(ciphers@, mm) <= ciphers@.len(),
                forall|mm: u16| m <= mm < 9
                    ==> (#[trigger] stats@[mm as int]) as int
                        == spec_stat_count(ciphers@, mm) - spec_approx(mm, x, y),
                forall|mm: u16| mm < m
                    ==> (#[trigger] stats@[mm as int]) as int == spec_stat_count(ciphers@, mm),
            decreases 9 - m,
        {
            let e: u16 = approx(m, x, y);
            let updated: u32 = stats[m] + e as u32;
            stats.set(m, updated);
            m = m + 1;
        }
    }
    (ciphers, stats)
}

/// Whether `key` reproduces every pair's ciphertext from its plaintext
/// under the fixed validation round count.
pub open spec fn spec_key_matches(pairs: Seq<(u16, u16)>, key: u16) -> bool {
    forall|t: int| 0 <= t < pairs.len()
        ==> spec_encode((#[trigger] pairs[t]).0, key, STAT_ROUNDS as nat) == pairs[t].1
}

/// A key matches every pair that was produced under it: key recovery run
/// on a candidate list that carries the true key first returns that key.
pub proof fn lemma_true_key_matches(pairs: Seq<(u16, u16)>, key: u16)
    requires
        forall|t: int| 0 <= t < pairs.len()
            ==> (#[trigger] pairs[t]).1 == spec_encode(pairs[t].0, key, STAT_ROUNDS as nat),
    ensures
        spec_key_matches(pairs, key),
{
}

/// Check one candidate key against every known plaintext/ciphertext pair.
pub fn check_key(ciphers: &Vec<(u16, u16)>, key: u16) -> (r: bool)
    requires
        key < BLOCK_BOUND,
        forall|t: int| 0 <= t < ciphers@.len() ==> (#[trigger] ciphers@[t]).0 < BLOCK_BOUND,
    ensures
        r == spec_key_matches(ciphers@, key),
{
    let spn = SPN::new(STAT_ROUNDS);
    let n: usize = ciphers.len();
    for t in 0..n
        invariant
            spn.spec_rounds() == STAT_ROUNDS,
            n == ciphers@.len(),
            key < BLOCK_BOUND,
            forall|u: int| 0 <= u < ciphers@.len() ==> (#[trigger] ciphers@[u]).0 < BLOCK_BOUND,
            forall|u: int| 0 <= u < t
                ==> spec_encode((#[trigger] ciphers@[u]).0, key, STAT_ROUNDS as nat)
                    == ciphers@[u].1,
    {
        let pair: (u16, u16) = ciphers[t];
        if spn.encode(pair.0, key) != pair.1 {
            return false;
        }
    }
    true
}

/// Return the first candidate key that reproduces every known pair, or
/// `None` when no candidate in the list does: the search never returns a
/// key that fails any pair.
pub fn search_key(keys: Vec<u16>, ciphers: &Vec<(u16, u16)>) -> (r: Option<u16>)
    requires
        ciphers@.len() >= 1,
        forall|i: int| 0 <= i < keys@.len() ==> (#[trigger] keys@[i]) < BLOCK_BOUND,
        forall|t: int| 0 <= t < ciphers@.len() ==> (#[trigger] ciphers@[t]).0 < BLOCK_BOUND,
    ensures
        match r {
            Some(k) => exists|i: int|
                0 <= i < keys@.len() && #[trigger] keys@[i] == k
                    && spec_key_matches(ciphers@, k)
                    && (forall|j: int| 0 <= j < i ==> !spec_key_matches(ciphers@, #[trigger] keys@[j])),
            None => forall|i: int|
                0 <= i < keys@.len() ==> !spec_key_matches(ciphers@, #[trigger] keys@[i]),
        },
{
    let n: usize = keys.len();
    for i in 0..n
        invariant
            n == keys@.len(),
            ciphers@.len() >= 1,
            forall|ii: int| 0 <= ii < keys@.len() ==> (#[trigger] keys@[ii]) < BLOCK_BOUND,
            forall|t: int| 0 <= t < ciphers@.len() ==> (#[trigger] ciphers@[t]).0 < BLOCK_BOUND,
            forall|j: int| 0 <= j < i ==> !spec_key_matches(ciphers@, #[trigger] keys@[j]),
    {
        let key: u16 = keys[i];
        if check_key(ciphers, key) {
            return Some(key);
        }
    }
    None
}

} // verus!
