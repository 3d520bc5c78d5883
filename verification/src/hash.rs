//! A small, stable, non-cryptographic hash.

use vstd::prelude::*;

verus! {

/// Start value of the 64-bit FNV-1a hash.
pub const FNV_OFFSET: u64 = 0xcbf2_9ce4_8422_2325;

/// Multiplier of the 64-bit FNV-1a hash.
pub const FNV_PRIME: u64 = 0x0000_0100_0000_01b3;

/// One step of FNV-1a: xor with the byte, then multiply modulo 2^64.
pub open spec fn fnv1a_step(hash: u64, byte: u8) -> u64 {
    (hash ^ (byte as u64)).wrapping_mul(FNV_PRIME)
}

/// The FNV-1a hash of a byte sequence, continued from `start`.
pub open spec fn fnv1a_from(start: u64, bytes: Seq<u8>) -> u64
    decreases bytes.len(),
{
    if bytes.len() == 0 {
        start
    } else {
        fnv1a_step(fnv1a_from(start, bytes.drop_last()), bytes.last())
    }
}

/// The FNV-1a hash of a byte sequence.
pub open spec fn fnv1a(bytes: Seq<u8>) -> u64 {
    fnv1a_from(FNV_OFFSET, bytes)
}

/// Computes the stable 64-bit FNV-1a hash of `bytes`.
pub fn fnv1a_hash64(bytes: &[u8]) -> (hash: u64)
    ensures
        hash == fnv1a(bytes@),
{
    let mut hash: u64 = FNV_OFFSET;
    let mut i: usize = 0;
    while i < bytes.len()
        invariant
            i <= bytes.len(),
            hash == fnv1a(bytes@.take(i as int)),
        decreases bytes.len() - i,
    {
        proof {
            assert(bytes@.take(i as int + 1).drop_last() =~= bytes@.take(i as int));
        }
        hash = (hash ^ (bytes[i] as u64)).wrapping_mul(FNV_PRIME);
        i += 1;
    }
    proof {
        assert(bytes@.take(bytes.len() as int) =~= bytes@);
    }
    hash
}

/// The hash of a concatenation continues the hash of its first part.
pub proof fn fnv1a_of_concatenation(start: u64, first: Seq<u8>, second: Seq<u8>)
    ensures
        fnv1a_from(start, first + second) == fnv1a_from(fnv1a_from(start, first), second),
    decreases second.len(),
{
    if second.len() == 0 {
        assert(first + second =~= first);
    } else {
        assert((first + second).drop_last() =~= first + second.drop_last());
        fnv1a_of_concatenation(start, first, second.drop_last());
    }
}

/// One more byte is one more step: xor with the byte, then multiply.
pub proof fn fnv1a_of_one_more(bytes: Seq<u8>, byte: u8)
    ensures
        fnv1a(bytes.push(byte)) == (fnv1a(bytes) ^ (byte as u64)).wrapping_mul(FNV_PRIME),
{
    assert(bytes.push(byte).drop_last() =~= bytes);
}

/// Two byte sequences of the same length that differ in exactly one byte have
/// different hashes.
pub proof fn fnv1a_tells_one_byte_apart(first: Seq<u8>, second: Seq<u8>, place: int)
    requires
        first.len() == second.len(),
        0 <= place < first.len(),
        first[place] != second[place],
        forall|i: int| 0 <= i < first.len() && i != place ==> #[trigger] first[i] == second[i],
    ensures
        fnv1a(first) != fnv1a(second),
{
    let head = first.take(place);
    let tail = first.skip(place + 1);
    assert(second.take(place) =~= head);
    assert(second.skip(place + 1) =~= tail);
    assert(first =~= head.push(first[place]) + tail);
    assert(second =~= head.push(second[place]) + tail);
    fnv1a_of_concatenation(FNV_OFFSET, head.push(first[place]), tail);
    fnv1a_of_concatenation(FNV_OFFSET, head.push(second[place]), tail);
    fnv1a_of_one_more(head, first[place]);
    fnv1a_of_one_more(head, second[place]);
    step_is_injective(fnv1a(head), fnv1a(head), first[place], second[place]);
    distinct_starts_stay_distinct(
        fnv1a(head.push(first[place])),
        fnv1a(head.push(second[place])),
        tail,
    );
}

/// Hashes that differ still differ after the same bytes.
proof fn distinct_starts_stay_distinct(a: u64, b: u64, bytes: Seq<u8>)
    requires
        a != b,
    ensures
        fnv1a_from(a, bytes) != fnv1a_from(b, bytes),
    decreases bytes.len(),
{
    if bytes.len() > 0 {
        distinct_starts_stay_distinct(a, b, bytes.drop_last());
        step_is_injective(
            fnv1a_from(a, bytes.drop_last()),
            fnv1a_from(b, bytes.drop_last()),
            bytes.last(),
            bytes.last(),
        );
    }
}

/// A step keeps hashes apart that differ, and tells bytes apart.
proof fn step_is_injective(a: u64, b: u64, x: u8, y: u8)
    requires
        a != b && x == y || a == b && x != y,
    ensures
        fnv1a_step(a, x) != fnv1a_step(b, y),
{
    let left: u64 = a ^ (x as u64);
    let right: u64 = b ^ (y as u64);
    assert(left != right) by (bit_vector)
        requires
            a != b && x == y || a == b && x != y,
            left == a ^ (x as u64),
            right == b ^ (y as u64),
    ;
    if fnv1a_step(a, x) == fnv1a_step(b, y) {
        multiplying_is_injective(left, right);
    }
}

/// The multiplier has an inverse modulo 2^64, so no two numbers have the same
/// product with it.
proof fn multiplying_is_injective(a: u64, b: u64)
    requires
        a.wrapping_mul(FNV_PRIME) == b.wrapping_mul(FNV_PRIME),
    ensures
        a == b,
{
    let m: int = 0x1_0000_0000_0000_0000;
    let inverse: int = 0xce96_5057_aff6_957b;
    let p: int = 0x0000_0100_0000_01b3;
    let d: int = a - b;
    let k: int = (a * p) / m - (b * p) / m;
    assert(d * p == k * m);
    assert(p * inverse == 887285111055 * m + 1);
    let e: int = k * inverse - d * 887285111055;
    assert(d == m * e) by {
        assert(d * p * inverse == k * m * inverse);
    }
    assert(-m < d < m);
    assert(e == 0);
}

/// The hash of nothing is the published start value, and every further byte is mixed in
/// by xor and multiplied with the published prime, modulo 2^64. Nothing else has both
/// properties.
pub proof fn fnv1a_is_the_published_hash(bytes: Seq<u8>, byte: u8)
    ensures
        fnv1a(Seq::empty()) == 0xcbf2_9ce4_8422_2325,
        fnv1a(bytes.push(byte)) == ((fnv1a(bytes) ^ (byte as u64)) * 0x100_0000_01b3)
            % 0x1_0000_0000_0000_0000,
{
    fnv1a_of_one_more(bytes, byte);
}

/// What is computed is the hash.
pub proof fn the_hash_is_computed(bytes: &[u8], hash: u64)
    requires
        call_ensures(fnv1a_hash64, (bytes,), hash),
    ensures
        hash == fnv1a(bytes@),
        bytes@.len() == 0 ==> hash == 0xcbf2_9ce4_8422_2325,
{
    if bytes@.len() == 0 {
        assert(bytes@ =~= Seq::<u8>::empty());
    }
}

} // verus!
