//! Fingerprints.

use vstd::prelude::*;
use vstd::string::*;
use crate::protocol;
use crate::protocol::hex_byte_text;
use crate::text;

verus! {

/// The SHA-256 digest of some bytes.
pub uninterp spec fn sha256(data: Seq<u8>) -> Seq<u8>;

/// `ring::digest::digest` with SHA-256: the digest, 32 bytes long.
#[verifier::external_body]
pub(crate) fn sha256_digest(data: &[u8]) -> (r: Vec<u8>)
    ensures
        r@ == sha256(data@),
        r.len() == 32,
{
    ring::digest::digest(&ring::digest::SHA256, data).as_ref().to_vec()
}

/// Bytes in hexadecimal, two digits each.
pub open spec fn hex(bytes: Seq<u8>) -> Seq<char>
    decreases bytes.len(),
{
    if bytes.len() == 0 {
        Seq::empty()
    } else {
        hex(bytes.drop_last()) + protocol::hex_byte(bytes.last())
    }
}

/// Bytes in hexadecimal, two digits each.
pub fn hex_text(bytes: &[u8]) -> (r: String)
    ensures
        r@ == hex(bytes@),
{
    let mut r: String = String::new();
    let mut i: usize = 0;
    while i < bytes.len()
        invariant
            i <= bytes.len(),
            r@ == hex(bytes@.take(i as int)),
        decreases bytes.len() - i,
    {
        assert(bytes@.take(i + 1).drop_last() == bytes@.take(i as int));
        r.append(hex_byte_text(bytes[i]).as_str());
        i += 1;
    }
    assert(bytes@.take(i as int) == bytes@);
    r
}

/// The SHA-256 fingerprint of some bytes, in hexadecimal.
pub fn sha256_hex(data: &[u8]) -> (r: String)
    ensures
        r@ == hex(sha256(data@)),
{
    hex_text(sha256_digest(data).as_slice())
}

/// Each byte is written as two hexadecimal digits, in order.
pub proof fn law_bytes_are_written_in_order(
    first: &[u8],
    second: &[u8],
    all: &[u8],
    a: String,
    b: String,
    r: String,
)
    requires
        call_ensures(hex_text, (first,), a),
        call_ensures(hex_text, (second,), b),
        call_ensures(hex_text, (all,), r),
        all@ == first@ + second@,
    ensures
        r@ == a@ + b@,
        r@.len() == 2 * all@.len(),
{
    lemma_hex_joins(first@, second@);
    lemma_hex_len(all@);
}

proof fn lemma_hex_joins(a: Seq<u8>, b: Seq<u8>)
    ensures
        hex(a + b) == hex(a) + hex(b),
    decreases b.len(),
{
    if b.len() == 0 {
        assert(a + b =~= a);
        assert(hex(a) + hex(b) =~= hex(a));
    } else {
        lemma_hex_joins(a, b.drop_last());
        assert((a + b).drop_last() =~= a + b.drop_last());
        assert(hex(a + b) =~= hex(a) + hex(b));
    }
}

proof fn lemma_hex_len(a: Seq<u8>)
    ensures
        hex(a).len() == 2 * a.len(),
    decreases a.len(),
{
    if a.len() > 0 {
        lemma_hex_len(a.drop_last());
        let b = a.last();
        reveal_strlit("0");
        reveal_with_fuel(text::digits_of, 3);
        assert(protocol::hex_byte(b).len() == 2);
    }
}

} // verus!
