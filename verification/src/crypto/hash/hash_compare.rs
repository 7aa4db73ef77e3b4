//! Comparing digests: equality in constant time, Hamming distance, nearest
//! candidate, and the leading-zero difficulty test.

use vstd::prelude::*;

verus! {

/// The number of one bits among the low `n` bits of `x`.
pub open spec fn ones_below(x: u8, n: nat) -> nat
    decreases n,
{
    if n == 0 {
        0
    } else {
        ones_below(x, (n - 1) as nat) + ((x >> ((n - 1) as u8)) & 1u8) as nat
    }
}

/// The number of one bits in `x`.
pub open spec fn popcount(x: u8) -> nat {
    ones_below(x, 8)
}

/// The Hamming distance between the first `n` bytes of two byte strings.
pub open spec fn distance_below(a: Seq<u8>, b: Seq<u8>, n: nat) -> nat
    decreases n,
{
    if n == 0 {
        0
    } else {
        distance_below(a, b, (n - 1) as nat) + popcount(a[n - 1] ^ b[n - 1])
    }
}

/// The Hamming distance between two 32-byte digests: the number of bit
/// positions in which they differ.
pub open spec fn hash_distance_spec(a: Seq<u8>, b: Seq<u8>) -> nat {
    distance_below(a, b, 32)
}

/// The number of one bits in a byte.
pub fn count_ones(x: u8) -> (c: u32)
    ensures
        c == popcount(x),
        c <= 8,
{
    let mut c: u32 = 0;
    let mut s: u8 = 0;
    while s < 8
        invariant
            s <= 8,
            c == ones_below(x, s as nat),
            c <= s,
        decreases 8 - s,
    {
        let bit = (x >> s) & 1u8;
        assert(bit <= 1u8) by (bit_vector)
            requires
                bit == (x >> s) & 1u8,
        ;
        c = c + bit as u32;
        s = s + 1;
    }
    c
}

/// Whether two digests are equal. Every byte is looked at, whatever the
/// outcome, so the time taken does not depend on where they differ.
pub fn constant_time_compare(a: &[u8; 32], b: &[u8; 32]) -> (equal: bool)
    ensures
        equal == (a@ == b@),
{
    let mut result: u8 = 0;
    let mut i: usize = 0;
    while i < 32
        invariant
            i <= 32,
            (result == 0) <==> (forall|j: int| 0 <= j < i ==> a@[j] == b@[j]),
        decreases 32 - i,
    {
        let x = a[i];
        let y = b[i];
        let next = result | (x ^ y);
        assert((next == 0) <==> (result == 0 && x == y)) by (bit_vector)
            requires
                next == result | (x ^ y),
        ;
        result = next;
        i += 1;
    }
    if result == 0 {
        assert(a@ =~= b@);
    }
    result == 0
}

/// The number of bit positions in which two digests differ.
pub fn hash_distance(a: &[u8; 32], b: &[u8; 32]) -> (distance: u32)
    ensures
        distance == hash_distance_spec(a@, b@),
        distance <= 256,
{
    let mut distance: u32 = 0;
    let mut i: usize = 0;
    while i < 32
        invariant
            i <= 32,
            distance == distance_below(a@, b@, i as nat),
            distance <= 8 * i,
        decreases 32 - i,
    {
        distance = distance + count_ones(a[i] ^ b[i]);
        i += 1;
    }
    distance
}

/// The candidate nearest to `target` by Hamming distance; of several equally
/// near, the first. `None` where there is no candidate.
pub fn find_closest_hash(target: &[u8; 32], candidates: &[[u8; 32]]) -> (best: Option<usize>)
    ensures
        candidates@.len() == 0 <==> best is None,
        best matches Some(k) ==> {
            &&& k < candidates@.len()
            &&& forall|j: int|
                0 <= j < candidates@.len() ==> hash_distance_spec(target@, candidates@[k as int]@)
                    <= hash_distance_spec(target@, #[trigger] candidates@[j]@)
            &&& forall|j: int|
                0 <= j < k ==> hash_distance_spec(target@, candidates@[k as int]@)
                    < hash_distance_spec(target@, #[trigger] candidates@[j]@)
        },
{
    if candidates.len() == 0 {
        return None;
    }
    let mut best_index: usize = 0;
    let mut best_distance = hash_distance(target, &candidates[0]);
    let mut i: usize = 1;
    while i < candidates.len()
        invariant
            1 <= i <= candidates@.len(),
            best_index < i,
            best_distance == hash_distance_spec(target@, candidates@[best_index as int]@),
            forall|j: int|
                0 <= j < i ==> best_distance <= hash_distance_spec(
                    target@,
                    #[trigger] candidates@[j]@,
                ),
            forall|j: int|
                0 <= j < best_index ==> best_distance < hash_distance_spec(
                    target@,
                    #[trigger] candidates@[j]@,
                ),
        decreases candidates@.len() - i,
    {
        let distance = hash_distance(target, &candidates[i]);
        if distance < best_distance {
            best_distance = distance;
            best_index = i;
        }
        i += 1;
    }
    Some(best_index)
}

/// Whether bit `k` of a digest is set, bit 0 being the most significant bit
/// of the first byte.
pub open spec fn digest_bit(hash: Seq<u8>, k: int) -> bool {
    (hash[k / 8] >> ((7 - k % 8) as u8)) & 1u8 == 1u8
}

/// Whether every bit of the digest before position `difficulty` is zero.
pub open spec fn meets_difficulty_spec(hash: Seq<u8>, difficulty: nat) -> bool {
    forall|k: int| 0 <= k < difficulty && k < 256 ==> !digest_bit(hash, k)
}

proof fn lemma_zero_byte_bits(x: u8, j: u8)
    requires
        x == 0,
        j < 8,
    ensures
        (x >> ((7 - j) as u8)) & 1u8 != 1u8,
{
    let s = (7 - j) as u8;
    assert((x >> s) & 1u8 != 1u8) by (bit_vector)
        requires
            x == 0u8,
            s < 8u8,
    ;
}

/// A byte that is not zero has a set bit; the result is its position from
/// the most significant end.
proof fn lemma_nonzero_byte_bit(x: u8) -> (j: u8)
    requires
        x != 0,
    ensures
        j < 8,
        (x >> ((7 - j) as u8)) & 1u8 == 1u8,
{
    assert(x != 0u8 ==> ((x >> 7u8) & 1u8 == 1u8 || (x >> 6u8) & 1u8 == 1u8 || (x >> 5u8) & 1u8
        == 1u8 || (x >> 4u8) & 1u8 == 1u8 || (x >> 3u8) & 1u8 == 1u8 || (x >> 2u8) & 1u8 == 1u8 || (x
        >> 1u8) & 1u8 == 1u8 || (x >> 0u8) & 1u8 == 1u8)) by (bit_vector);
    if (x >> 7u8) & 1u8 == 1u8 {
        0
    } else if (x >> 6u8) & 1u8 == 1u8 {
        1
    } else if (x >> 5u8) & 1u8 == 1u8 {
        2
    } else if (x >> 4u8) & 1u8 == 1u8 {
        3
    } else if (x >> 3u8) & 1u8 == 1u8 {
        4
    } else if (x >> 2u8) & 1u8 == 1u8 {
        5
    } else if (x >> 1u8) & 1u8 == 1u8 {
        6
    } else {
        7
    }
}

proof fn lemma_masked_byte_bits(x: u8, bits: u8, j: u8)
    requires
        1 <= bits <= 7,
        x & (0xFFu8 << ((8 - bits) as u8)) == 0,
        j < bits,
    ensures
        (x >> ((7 - j) as u8)) & 1u8 != 1u8,
{
    let m = (8 - bits) as u8;
    let s = (7 - j) as u8;
    assert((x >> s) & 1u8 != 1u8) by (bit_vector)
        requires
            1u8 <= m <= 7u8,
            m <= s < 8u8,
            x & (0xFFu8 << m) == 0u8,
    ;
}

/// A byte with a set bit under the mask of its top `bits` bits has a set bit
/// among those; the result is its position from the most significant end.
proof fn lemma_unmasked_byte_bit(x: u8, bits: u8) -> (j: u8)
    requires
        1 <= bits <= 7,
        x & (0xFFu8 << ((8 - bits) as u8)) != 0,
    ensures
        j < bits,
        (x >> ((7 - j) as u8)) & 1u8 == 1u8,
{
    let m = (8 - bits) as u8;
    assert(((x >> 7u8) & 1u8 == 1u8 && m <= 7u8) || ((x >> 6u8) & 1u8 == 1u8 && m <= 6u8) || ((x
        >> 5u8) & 1u8 == 1u8 && m <= 5u8) || ((x >> 4u8) & 1u8 == 1u8 && m <= 4u8) || ((x >> 3u8)
        & 1u8 == 1u8 && m <= 3u8) || ((x >> 2u8) & 1u8 == 1u8 && m <= 2u8) || ((x >> 1u8) & 1u8
        == 1u8 && m <= 1u8)) by (bit_vector)
        requires
            1u8 <= m <= 7u8,
            x & (0xFFu8 << m) != 0u8,
    ;
    if (x >> 7u8) & 1u8 == 1u8 && m <= 7u8 {
        0
    } else if (x >> 6u8) & 1u8 == 1u8 && m <= 6u8 {
        1
    } else if (x >> 5u8) & 1u8 == 1u8 && m <= 5u8 {
        2
    } else if (x >> 4u8) & 1u8 == 1u8 && m <= 4u8 {
        3
    } else if (x >> 3u8) & 1u8 == 1u8 && m <= 3u8 {
        4
    } else if (x >> 2u8) & 1u8 == 1u8 && m <= 2u8 {
        5
    } else {
        6
    }
}

/// Whether a digest meets a difficulty target: its first `difficulty` bits
/// are all zero. A target beyond the digest's 256 bits asks no more than 256.
pub fn meets_difficulty(hash: &[u8; 32], difficulty: usize) -> (ok: bool)
    ensures
        ok == meets_difficulty_spec(hash@, difficulty as nat),
{
    let bytes_to_check = difficulty / 8;
    let bits_to_check = (difficulty % 8) as u8;
    let whole = if bytes_to_check < 32 {
        bytes_to_check
    } else {
        32
    };
    let mut i: usize = 0;
    while i < whole
        invariant
            i <= whole <= 32,
            whole <= difficulty / 8,
            forall|j: int| 0 <= j < i ==> hash@[j] == 0,
        decreases whole - i,
    {
        if hash[i] != 0 {
            proof {
                let j = lemma_nonzero_byte_bit(hash@[i as int]);
                let k = 8 * i + j;
                assert(k / 8 == i && k % 8 == j);
                assert(digest_bit(hash@, k));
            }
            return false;
        }
        i += 1;
    }
    assert forall|k: int| 0 <= k < 8 * whole implies !digest_bit(hash@, k) by {
        lemma_zero_byte_bits(hash@[k / 8], (k % 8) as u8);
    }
    if bits_to_check > 0 && bytes_to_check < 32 {
        let mask = 0xFFu8 << (8 - bits_to_check);
        let x = hash[bytes_to_check];
        if (x & mask) != 0 {
            proof {
                let j = lemma_unmasked_byte_bit(x, bits_to_check);
                let k = 8 * bytes_to_check + j;
                assert(k / 8 == bytes_to_check && k % 8 == j);
                assert(digest_bit(hash@, k));
            }
            return false;
        }
        assert forall|k: int| 0 <= k < difficulty && k < 256 implies !digest_bit(hash@, k) by {
            if k >= 8 * whole {
                assert(k / 8 == bytes_to_check);
                lemma_masked_byte_bits(x, bits_to_check, (k % 8) as u8);
            }
        }
    }
    true
}

} // verus!
