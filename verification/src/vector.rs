use vstd::prelude::*;
use crate::text::{chars_of, lowercase, to_lowercase};

verus! {

/// The length of the similarity vectors.
pub const VECTOR_DIMENSION: usize = 384;

/// The slot that a character counts towards: its code point modulo 384.
pub open spec fn char_slot(c: char) -> int {
    (c as u32) as int % 384
}

/// The slot that a pair of adjacent characters counts towards: the sum of
/// their code points modulo 384.
pub open spec fn pair_slot(a: char, b: char) -> int {
    ((a as u32) as int + (b as u32) as int) % 384
}

/// How many characters of `cs` fall in slot `b`.
pub open spec fn char_count(cs: Seq<char>, b: int) -> nat
    decreases cs.len(),
{
    if cs.len() == 0 {
        0
    } else {
        char_count(cs.drop_last(), b) + if char_slot(cs.last()) == b {
            1nat
        } else {
            0nat
        }
    }
}

/// How many pairs of adjacent characters of `cs` fall in slot `b`.
pub open spec fn pair_count(cs: Seq<char>, b: int) -> nat
    decreases cs.len(),
{
    if cs.len() < 2 {
        0
    } else {
        pair_count(cs.drop_last(), b) + if pair_slot(cs[cs.len() - 2], cs.last()) == b {
            1nat
        } else {
            0nat
        }
    }
}

/// The weight of slot `b` for the characters `cs`, in half units: each
/// character counts a whole unit, each pair of adjacent characters half a unit.
pub open spec fn slot_weight(cs: Seq<char>, b: int) -> nat {
    2 * char_count(cs, b) + pair_count(cs, b)
}

proof fn lemma_counts_bound(cs: Seq<char>, b: int)
    ensures
        char_count(cs, b) <= cs.len(),
        pair_count(cs, b) <= cs.len(),
    decreases cs.len(),
{
    if cs.len() > 0 {
        lemma_counts_bound(cs.drop_last(), b);
    }
}

/// The unnormalised similarity vector of a text, in half units: slot `b`
/// holds `slot_weight` of the lowercased text. Dividing by two and scaling to
/// length one gives the vector that semantic search compares.
pub fn vector_weights(content: &str) -> (w: Vec<u128>)
    ensures
        w@.len() == VECTOR_DIMENSION,
        forall|b: int| 0 <= b < VECTOR_DIMENSION ==> w@[b] == slot_weight(lowercase(content@), b),
{
    let lower = to_lowercase(content);
    let cs = chars_of(lower.as_str());
    let ghost s = cs@;
    let mut w: Vec<u128> = vec![0u128; VECTOR_DIMENSION];
    let n = cs.len();
    let mut i: usize = 0;
    while i < n
        invariant
            n == s.len(),
            cs@ == s,
            i <= n,
            w@.len() == VECTOR_DIMENSION,
            forall|b: int| 0 <= b < VECTOR_DIMENSION ==> #[trigger] w@[b] == 2 * char_count(s.take(i as int), b),
        decreases n - i,
    {
        let slot = ((cs[i] as u32) % 384) as usize;
        proof {
            assert(s.take(i + 1).drop_last() =~= s.take(i as int));
            lemma_counts_bound(s.take(i as int), slot as int);
        }
        let cur = w[slot];
        w.set(slot, cur + 2);
        proof {
            assert forall|b: int| 0 <= b < VECTOR_DIMENSION implies #[trigger] w@[b] == 2 * char_count(
                s.take(i + 1),
                b,
            ) by {
                assert(s.take(i + 1).last() == s[i as int]);
            }
        }
        i += 1;
    }
    assert(s.take(n as int) =~= s);
    let mut j: usize = 0;
    while j < n
        invariant
            n == s.len(),
            cs@ == s,
            j <= n,
            w@.len() == VECTOR_DIMENSION,
            forall|b: int| 0 <= b < VECTOR_DIMENSION ==> #[trigger] w@[b] == 2 * char_count(s, b) + pair_count(
                s.take(j as int),
                b,
            ),
        decreases n - j,
    {
        proof {
            assert(s.take(j + 1).drop_last() =~= s.take(j as int));
        }
        if j > 0 {
            let slot = (((cs[j - 1] as u32) as u64 + (cs[j] as u32) as u64) % 384) as usize;
            proof {
                lemma_counts_bound(s, slot as int);
                lemma_counts_bound(s.take(j as int), slot as int);
            }
            let cur = w[slot];
            w.set(slot, cur + 1);
            proof {
                assert forall|b: int| 0 <= b < VECTOR_DIMENSION implies #[trigger] w@[b] == 2 * char_count(s, b)
                    + pair_count(s.take(j + 1), b) by {
                    assert(s.take(j + 1).last() == s[j as int]);
                    assert(s.take(j + 1)[j - 1] == s[j - 1]);
                }
            }
        }
        j += 1;
    }
    assert(s.take(n as int) =~= s);
    w
}

/// Byte `k` (0 to 3, least significant first) of `x`.
pub open spec fn le_byte(x: u32, k: int) -> u8 {
    if k == 0 {
        (x & 0xff) as u8
    } else if k == 1 {
        ((x >> 8u32) & 0xff) as u8
    } else if k == 2 {
        ((x >> 16u32) & 0xff) as u8
    } else {
        ((x >> 24u32) & 0xff) as u8
    }
}

/// The number whose little-endian bytes are `b0 b1 b2 b3`.
pub open spec fn from_le(b0: u8, b1: u8, b2: u8, b3: u8) -> u32 {
    (b0 as u32) | ((b1 as u32) << 8u32) | ((b2 as u32) << 16u32) | ((b3 as u32) << 24u32)
}

/// The bytes that store a vector: each entry's four bytes, little-endian, one
/// entry after the other.
pub open spec fn blob_of(bits: Seq<u32>) -> Seq<u8> {
    Seq::new(4 * bits.len(), |j: int| le_byte(bits[j / 4], j % 4))
}

/// The vector that stored bytes hold: entry `i` is read from bytes `4i` to
/// `4i + 3` where they all exist and is 0 otherwise; the vector always has
/// `VECTOR_DIMENSION` entries.
pub open spec fn bits_of(blob: Seq<u8>) -> Seq<u32> {
    Seq::new(
        VECTOR_DIMENSION as nat,
        |i: int|
            if 4 * i + 4 <= blob.len() {
                from_le(blob[4 * i], blob[4 * i + 1], blob[4 * i + 2], blob[4 * i + 3])
            } else {
                0u32
            },
    )
}

/// The bytes that store a vector given by the bit patterns of its entries.
pub fn bits_to_blob(bits: &Vec<u32>) -> (blob: Vec<u8>)
    requires
        bits@.len() <= usize::MAX / 4,
    ensures
        blob@ == blob_of(bits@),
{
    let mut blob: Vec<u8> = Vec::new();
    let mut i: usize = 0;
    while i < bits.len()
        invariant
            bits@.len() <= usize::MAX / 4,
            i <= bits@.len(),
            blob@.len() == 4 * i,
            forall|j: int| 0 <= j < 4 * i ==> #[trigger] blob@[j] == le_byte(bits@[j / 4], j % 4),
        decreases bits@.len() - i,
    {
        let x = bits[i];
        blob.push((x & 0xff) as u8);
        blob.push(((x >> 8u32) & 0xff) as u8);
        blob.push(((x >> 16u32) & 0xff) as u8);
        blob.push(((x >> 24u32) & 0xff) as u8);
        proof {
            assert forall|j: int| 0 <= j < 4 * (i + 1) implies #[trigger] blob@[j] == le_byte(bits@[j / 4], j % 4) by {
                if j >= 4 * i {
                    assert(j / 4 == i);
                    assert(j % 4 == j - 4 * i);
                }
            }
        }
        i += 1;
    }
    assert(blob@ =~= blob_of(bits@));
    blob
}

/// The bit patterns of the vector that stored bytes hold (see `bits_of`).
pub fn blob_to_bits(blob: &Vec<u8>) -> (bits: Vec<u32>)
    ensures
        bits@ == bits_of(blob@),
{
    let mut bits: Vec<u32> = Vec::new();
    let mut i: usize = 0;
    while i < VECTOR_DIMENSION
        invariant
            i <= VECTOR_DIMENSION,
            bits@ =~= bits_of(blob@).take(i as int),
        decreases VECTOR_DIMENSION - i,
    {
        let x: u32 = if blob.len() >= 4 && i <= (blob.len() - 4) / 4 {
            let b0 = blob[4 * i];
            let b1 = blob[4 * i + 1];
            let b2 = blob[4 * i + 2];
            let b3 = blob[4 * i + 3];
            (b0 as u32) | ((b1 as u32) << 8u32) | ((b2 as u32) << 16u32) | ((b3 as u32) << 24u32)
        } else {
            0
        };
        bits.push(x);
        i += 1;
    }
    bits
}

/// Reading back the bytes that store a vector of `VECTOR_DIMENSION` entries
/// gives the same vector.
pub proof fn lemma_blob_round_trip(bits: Seq<u32>)
    requires
        bits.len() == VECTOR_DIMENSION,
    ensures
        bits_of(blob_of(bits)) == bits,
{
    let blob = blob_of(bits);
    assert forall|i: int| 0 <= i < VECTOR_DIMENSION implies #[trigger] bits_of(blob)[i] == bits[i] by {
        assert((4 * i) / 4 == i && (4 * i) % 4 == 0);
        assert((4 * i + 1) / 4 == i && (4 * i + 1) % 4 == 1);
        assert((4 * i + 2) / 4 == i && (4 * i + 2) % 4 == 2);
        assert((4 * i + 3) / 4 == i && (4 * i + 3) % 4 == 3);
        let x = bits[i];
        assert(from_le(
            (x & 0xff) as u8,
            ((x >> 8u32) & 0xff) as u8,
            ((x >> 16u32) & 0xff) as u8,
            ((x >> 24u32) & 0xff) as u8,
        ) == x) by (bit_vector);
    }
    assert(bits_of(blob) =~= bits);
}

} // verus!
