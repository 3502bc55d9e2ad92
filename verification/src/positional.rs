//! Numbers as fixed-width runs of digits, most significant digit first: octets
//! and groups of addresses, big-endian integers on the wire.

use vstd::prelude::*;

verus! {

/// The number that `digits` write in base `base`.
pub open spec fn value(digits: Seq<nat>, base: nat) -> nat
    decreases digits.len(),
{
    if digits.len() == 0 {
        0
    } else {
        value(digits.drop_last(), base) * base + digits.last()
    }
}

/// `n` written with exactly `width` digits in base `base`.
pub open spec fn digits(n: nat, base: nat, width: nat) -> Seq<nat>
    decreases width,
{
    if width == 0 {
        Seq::empty()
    } else {
        digits(n / base, base, (width - 1) as nat).push(n % base)
    }
}

/// How many numbers `width` digits can write.
pub open spec fn weight(base: nat, width: nat) -> nat
    decreases width,
{
    if width == 0 {
        1
    } else {
        weight(base, (width - 1) as nat) * base
    }
}

/// Whether each of `digits` is a digit of base `base`.
pub open spec fn are_digits(digits: Seq<nat>, base: nat) -> bool {
    forall|i: int| 0 <= i < digits.len() ==> #[trigger] digits[i] < base
}

pub proof fn lemma_value_bound(ds: Seq<nat>, base: nat)
    requires
        are_digits(ds, base),
    ensures
        value(ds, base) < weight(base, ds.len()),
    decreases ds.len(),
{
    if ds.len() > 0 {
        lemma_value_bound(ds.drop_last(), base);
        let high = value(ds.drop_last(), base);
        let w = weight(base, (ds.len() - 1) as nat);
        let low = ds.last();
        assert(ds[ds.len() - 1] < base);
        assert(high * base + low < w * base) by (nonlinear_arith)
            requires
                high + 1 <= w,
                low < base,
        ;
    }
}

/// Reading back what was written gives the number.
pub proof fn law_digits_value(n: nat, base: nat, width: nat)
    requires
        base >= 1,
        n < weight(base, width),
    ensures
        value(digits(n, base, width), base) == n,
        digits(n, base, width).len() == width,
        are_digits(digits(n, base, width), base),
    decreases width,
{
    if width > 0 {
        let w = weight(base, (width - 1) as nat);
        assert(n / base < w) by (nonlinear_arith)
            requires
                n < w * base,
                base >= 1,
        ;
        law_digits_value(n / base, base, (width - 1) as nat);
        let ds = digits(n, base, width);
        assert(ds.drop_last() =~= digits(n / base, base, (width - 1) as nat));
        assert((n / base) * base + n % base == n && n % base < base) by (nonlinear_arith)
            requires
                base >= 1,
        ;
        assert forall|i: int| 0 <= i < ds.len() implies #[trigger] ds[i] < base by {
            if i < ds.len() - 1 {
                assert(ds[i] == ds.drop_last()[i]);
            }
        }
    }
}

/// Writing what was read gives the digits.
pub proof fn law_value_digits(ds: Seq<nat>, base: nat)
    requires
        are_digits(ds, base),
        base >= 1,
    ensures
        digits(value(ds, base), base, ds.len()) == ds,
    decreases ds.len(),
{
    if ds.len() > 0 {
        law_value_digits(ds.drop_last(), base);
        let high = value(ds.drop_last(), base);
        let low = ds.last();
        assert(ds[ds.len() - 1] < base);
        assert((high * base + low) / base == high && (high * base + low) % base == low)
            by (nonlinear_arith)
            requires
                low < base,
        ;
        assert(ds =~= ds.drop_last().push(low));
    } else {
        assert(ds =~= Seq::empty());
    }
}

/// Bytes as numbers.
pub open spec fn byte_values(bytes: Seq<u8>) -> Seq<nat> {
    bytes.map_values(|b: u8| b as nat)
}

/// The number that big-endian bytes write.
pub open spec fn be_value(bytes: Seq<u8>) -> nat {
    value(byte_values(bytes), 256)
}

/// `n` as `width` big-endian bytes; what does not fit is cut off at the top.
pub open spec fn be_bytes(n: nat, width: nat) -> Seq<u8> {
    digits(n, 256, width).map_values(|d: nat| d as u8)
}

pub proof fn lemma_be_bytes_len(n: nat, width: nat)
    ensures
        be_bytes(n, width).len() == width,
    decreases width,
{
    if width > 0 {
        lemma_be_bytes_len(n / 256, (width - 1) as nat);
    }
}

/// A number that fits is read back from its bytes.
pub proof fn law_be_bytes_read_back(n: nat, width: nat)
    requires
        n < weight(256, width),
    ensures
        be_value(be_bytes(n, width)) == n,
        be_bytes(n, width).len() == width,
{
    law_digits_value(n, 256, width);
    let ds = digits(n, 256, width);
    assert forall|i: int| 0 <= i < ds.len() implies #[trigger] byte_values(
        be_bytes(n, width),
    )[i] == ds[i] by {
        assert(ds[i] < 256);
    }
    assert(byte_values(be_bytes(n, width)) =~= ds);
}

/// Bytes are written back from the number that they write.
pub proof fn law_be_value_writes_back(bytes: Seq<u8>)
    ensures
        be_bytes(be_value(bytes), bytes.len()) == bytes,
        be_value(bytes) < weight(256, bytes.len()),
{
    let ds = byte_values(bytes);
    law_value_digits(ds, 256);
    lemma_value_bound(ds, 256);
    assert(be_bytes(be_value(bytes), bytes.len()) =~= bytes);
}

/// `n` as `width` big-endian bytes.
pub fn to_be(n: u64, width: usize) -> (r: Vec<u8>)
    ensures
        r@ == be_bytes(n as nat, width as nat),
        r.len() == width,
    decreases width,
{
    if width == 0 {
        let r: Vec<u8> = Vec::new();
        assert(r@ == be_bytes(n as nat, 0));
        r
    } else {
        let mut r: Vec<u8> = to_be(n / 256, width - 1);
        r.push((n % 256) as u8);
        assert(r@ == be_bytes(n as nat, width as nat));
        r
    }
}

/// The number that `width` big-endian bytes from `from` on write.
pub fn from_be(bytes: &[u8], from: usize, width: usize) -> (r: u64)
    requires
        width <= 8,
        from + width <= bytes.len(),
    ensures
        r == be_value(bytes@.subrange(from as int, from + width)),
        r < weight(256, width as nat),
{
    let ghost part = bytes@.subrange(from as int, from + width);
    let ghost ds = byte_values(part);
    let mut r: u64 = 0;
    let mut i: usize = 0;
    proof {
        reveal_with_fuel(weight, 9);
    }
    while i < width
        invariant
            i <= width <= 8,
            from + width <= bytes.len(),
            r == value(ds.take(i as int), 256),
            r < weight(256, i as nat),
        decreases width - i,
    {
        let ghost next = ds.take(i + 1);
        assert(next.drop_last() == ds.take(i as int));
        assert(next.last() == bytes@[from + i] as nat);
        proof {
            reveal_with_fuel(weight, 9);
            assert(weight(256, i as nat) <= 0x100_0000_0000_0000int);
            assert(are_digits(next, 256));
            lemma_value_bound(next, 256);
        }
        r = r * 256 + bytes[from + i] as u64;
        i += 1;
    }
    assert(ds.take(i as int) == ds);
    r
}

/// A number is read back from its bytes, the most significant first.
pub proof fn law_numbers_are_read_back_from_bytes(
    n: u64,
    width: usize,
    bytes: Vec<u8>,
    all: &[u8],
    from: usize,
    back: u64,
)
    requires
        0 < width <= 8,
        n < weight(256, width as nat),
        call_ensures(to_be, (n, width), bytes),
        from + width <= all@.len(),
        all@.subrange(from as int, from + width) == bytes@,
        call_ensures(from_be, (all, from, width), back),
    ensures
        bytes@.len() == width,
        back == n,
        bytes@.last() == n % 256,
{
    law_be_bytes_read_back(n as nat, width as nat);
    assert(n % 256 == (n as nat) % 256);
}

} // verus!
