//! Numbers as bytes, the most significant byte first.

use vstd::prelude::*;

verus! {

/// The last `width` bytes of a number, the most significant first.
pub open spec fn big_endian(n: nat, width: nat) -> Seq<u8>
    decreases width,
{
    if width == 0 {
        Seq::empty()
    } else {
        big_endian(n / 256, (width - 1) as nat).push((n % 256) as u8)
    }
}

/// The number that some bytes denote, the most significant first.
pub open spec fn number_of(bytes: Seq<u8>) -> nat
    decreases bytes.len(),
{
    if bytes.len() == 0 {
        0
    } else {
        number_of(bytes.drop_last()) * 256 + bytes.last() as nat
    }
}

/// How many numbers fit in `width` bytes.
pub open spec fn numbers_in(width: nat) -> nat
    decreases width,
{
    if width == 0 {
        1
    } else {
        numbers_in((width - 1) as nat) * 256
    }
}

/// Eight bytes hold every number of 64 bits.
pub proof fn eight_bytes_hold_64_bits()
    ensures
        numbers_in(8) == 0x1_0000_0000_0000_0000,
{
    reveal_with_fuel(numbers_in, 9);
}

/// What bytes denote is less than the number of numbers in as many bytes.
proof fn number_is_bounded(bytes: Seq<u8>)
    ensures
        number_of(bytes) < numbers_in(bytes.len()),
    decreases bytes.len(),
{
    if bytes.len() > 0 {
        number_is_bounded(bytes.drop_last());
    }
}

/// Eight bytes denote a number of 64 bits.
pub proof fn eight_bytes_are_bounded(bytes: Seq<u8>)
    requires
        bytes.len() == 8,
    ensures
        number_of(bytes) <= u64::MAX,
{
    number_is_bounded(bytes);
    eight_bytes_hold_64_bits();
}

/// Reading undoes writing, if the number fits.
pub proof fn reading_undoes_writing(n: nat, width: nat)
    requires
        n < numbers_in(width),
    ensures
        big_endian(n, width).len() == width,
        number_of(big_endian(n, width)) == n,
    decreases width,
{
    if width > 0 {
        reading_undoes_writing(n / 256, (width - 1) as nat);
        assert(big_endian(n, width).drop_last() =~= big_endian(n / 256, (width - 1) as nat));
    }
}

/// Writing undoes reading.
pub proof fn writing_undoes_reading(bytes: Seq<u8>)
    ensures
        big_endian(number_of(bytes), bytes.len()) == bytes,
    decreases bytes.len(),
{
    if bytes.len() > 0 {
        let shorter = bytes.drop_last();
        writing_undoes_reading(shorter);
        let n = number_of(bytes);
        assert(n / 256 == number_of(shorter));
        assert(n % 256 == bytes.last() as nat);
        assert(shorter.push(bytes.last()) =~= bytes);
    } else {
        assert(bytes =~= Seq::<u8>::empty());
    }
}

/// A number takes as many bytes as it is given.
pub proof fn width_is_kept(n: nat, width: nat)
    ensures
        big_endian(n, width).len() == width,
    decreases width,
{
    if width > 0 {
        width_is_kept(n / 256, (width - 1) as nat);
    }
}

/// Whether `a` comes before `b` in a dictionary of rows of bytes of one length:
/// they agree up to a place where `a` has the smaller byte.
pub open spec fn comes_first(a: Seq<u8>, b: Seq<u8>) -> bool {
    exists|i: int| #[trigger] differs_at(a, b, i)
}

/// Whether two rows of bytes agree before place `i`, and the first has the
/// smaller byte there.
pub open spec fn differs_at(a: Seq<u8>, b: Seq<u8>, i: int) -> bool {
    &&& 0 <= i < a.len()
    &&& i < b.len()
    &&& a.take(i) == b.take(i)
    &&& a[i] < b[i]
}

/// The bytes of the smaller number come first.
pub proof fn smaller_comes_first(m: nat, n: nat, width: nat)
    requires
        m < n < numbers_in(width),
    ensures
        comes_first(big_endian(m, width), big_endian(n, width)),
    decreases width,
{
    if width > 0 {
        let less = (width - 1) as nat;
        width_is_kept(m / 256, less);
        width_is_kept(n / 256, less);
        let a = big_endian(m, width);
        let b = big_endian(n, width);
        let shorter_a = big_endian(m / 256, less);
        let shorter_b = big_endian(n / 256, less);
        if m / 256 < n / 256 {
            smaller_comes_first(m / 256, n / 256, less);
            let i = choose|i: int| #[trigger] differs_at(shorter_a, shorter_b, i);
            assert(a.take(i) =~= shorter_a.take(i));
            assert(b.take(i) =~= shorter_b.take(i));
            assert(differs_at(a, b, i));
        } else {
            assert(m / 256 == n / 256);
            assert(a.take(less as int) =~= shorter_a);
            assert(b.take(less as int) =~= shorter_b);
            assert(differs_at(a, b, less as int));
        }
    }
}

/// What follows does not change which of two different rows comes first.
pub proof fn first_whatever_follows(a: Seq<u8>, b: Seq<u8>, x: Seq<u8>, y: Seq<u8>)
    requires
        comes_first(a, b),
    ensures
        comes_first(a + x, b + y),
{
    let i = choose|i: int| #[trigger] differs_at(a, b, i);
    assert((a + x).take(i) =~= a.take(i));
    assert((b + y).take(i) =~= b.take(i));
    assert(differs_at(a + x, b + y, i));
}

/// Nor does what goes before both.
pub proof fn first_after_the_same(p: Seq<u8>, a: Seq<u8>, b: Seq<u8>)
    requires
        comes_first(a, b),
    ensures
        comes_first(p + a, p + b),
{
    let i = choose|i: int| #[trigger] differs_at(a, b, i);
    assert((p + a).take(p.len() + i) =~= p + a.take(i));
    assert((p + b).take(p.len() + i) =~= p + b.take(i));
    assert(differs_at(p + a, p + b, p.len() + i));
}

/// The eight bytes of a number, the most significant first.
pub fn bytes_of(n: u64) -> (bytes: [u8; 8])
    ensures
        bytes@ == big_endian(n as nat, 8),
{
    let n1: u64 = n / 256;
    let n2: u64 = n1 / 256;
    let n3: u64 = n2 / 256;
    let n4: u64 = n3 / 256;
    let n5: u64 = n4 / 256;
    let n6: u64 = n5 / 256;
    let n7: u64 = n6 / 256;
    let bytes = [
        (n7 % 256) as u8,
        (n6 % 256) as u8,
        (n5 % 256) as u8,
        (n4 % 256) as u8,
        (n3 % 256) as u8,
        (n2 % 256) as u8,
        (n1 % 256) as u8,
        (n % 256) as u8,
    ];
    proof {
        reveal_with_fuel(big_endian, 9);
        assert(bytes@ =~= big_endian(n as nat, 8));
    }
    bytes
}

/// The number that eight bytes from position `from` on denote.
pub fn number_at(bytes: &[u8], from: usize) -> (n: u64)
    requires
        from + 8 <= bytes@.len(),
    ensures
        n == number_of(bytes@.subrange(from as int, from + 8)),
{
    let ghost eight = bytes@.subrange(from as int, from + 8);
    proof {
        eight_bytes_hold_64_bits();
        number_is_bounded(eight);
        assert(number_of(Seq::<u8>::empty()) == 0);
    }
    let len: usize = bytes.len();
    let mut n: u64 = 0;
    let mut i: usize = 0;
    proof {
        assert(eight.take(0) =~= Seq::<u8>::empty());
    }
    while i < 8
        invariant
            i <= 8,
            from + 8 <= len,
            len == bytes@.len(),
            eight == bytes@.subrange(from as int, from + 8),
            n == number_of(eight.take(i as int)),
        decreases 8 - i,
    {
        proof {
            number_is_bounded(eight.take(i as int + 1));
            assert(numbers_in((i + 1) as nat) <= numbers_in(8)) by {
                reveal_with_fuel(numbers_in, 9);
            }
            eight_bytes_hold_64_bits();
            assert(eight.take(i as int + 1).drop_last() =~= eight.take(i as int));
            assert(eight.take(i as int + 1).last() == bytes@[from + i]);
        }
        n = n * 256 + bytes[from + i] as u64;
        i += 1;
    }
    proof {
        assert(eight.take(8) =~= eight);
    }
    n
}

/// A number that is written as eight bytes is read back, and the first byte is the most
/// significant one.
pub proof fn numbers_survive_as_bytes(n: u64, bytes: [u8; 8], row: &[u8], again: u64)
    requires
        call_ensures(bytes_of, (n,), bytes),
        row@ == bytes@,
        call_ensures(number_at, (row, 0usize), again),
    ensures
        bytes@.len() == 8,
        again == n,
        bytes@.last() == n % 256,
{
    eight_bytes_hold_64_bits();
    reading_undoes_writing(n as nat, 8);
    assert(row@.subrange(0, 8) =~= bytes@);
}

} // verus!
