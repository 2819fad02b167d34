//! Digests that stand for identities which must not be shown.

use sha2::{Digest, Sha256};
use vstd::prelude::*;
use vstd::string::{StrSliceExecFns, StringExecFns};

verus! {

/// The SHA-256 digest of a message.
pub uninterp spec fn sha256_digest(message: Seq<u8>) -> Seq<u8>;

/// `sha2::Sha256`: a new hasher, updated once with the whole message and
/// finalized. The result is a function of the message alone and has 32 bytes.
/// The hasher counts the bits of the message in 64-bit arithmetic, so the
/// message has fewer than `2^61` bytes.
#[verifier::external_body]
fn sha256(message: &[u8]) -> (r: Vec<u8>)
    requires
        message@.len() < 0x2000_0000_0000_0000,
    ensures
        r@ == sha256_digest(message@),
        r@.len() == 32,
{
    let mut hasher = Sha256::new();
    hasher.update(message);
    hasher.finalize().to_vec()
}

/// The digit of a value below sixteen.
pub open spec fn hex_digit(value: int) -> char {
    "0123456789abcdef"@[value]
}

/// Bytes in lower-case hexadecimal, two digits each.
pub open spec fn hex(bytes: Seq<u8>) -> Seq<char>
    decreases bytes.len(),
{
    if bytes.len() == 0 {
        Seq::empty()
    } else {
        hex(bytes.drop_last()) + seq![
            hex_digit(bytes.last() as int / 16),
            hex_digit(bytes.last() as int % 16),
        ]
    }
}

/// The first bytes of a digest in lower-case hexadecimal.
pub fn hex_prefix(digest: &[u8], count: usize) -> (r: String)
    requires
        count <= digest@.len(),
    ensures
        r@ == hex(digest@.take(count as int)),
{
    let mut r: String = String::new();
    let mut i: usize = 0;
    proof {
        assert(digest@.take(0) =~= Seq::empty());
        assert(r@ =~= Seq::empty());
        reveal_strlit("0123456789abcdef");
    }
    while i < count
        invariant
            i <= count <= digest@.len(),
            "0123456789abcdef"@.len() == 16,
            r@ == hex(digest@.take(i as int)),
        decreases count - i,
    {
        let digits: &'static str = "0123456789abcdef";
        let byte: u8 = digest[i];
        let high: usize = (byte / 16) as usize;
        let low: usize = (byte % 16) as usize;
        let ghost before = r@;
        r.append(digits.substring_char(high, high + 1));
        r.append(digits.substring_char(low, low + 1));
        proof {
            assert(digest@.take(i + 1).drop_last() =~= digest@.take(i as int));
            assert(digest@.take(i + 1).last() == byte);
            assert(r@ =~= before + seq![hex_digit(byte as int / 16), hex_digit(byte as int % 16)]);
        }
        i = i + 1;
    }
    r
}

/// The first bytes of the SHA-256 digest of a message in lower-case
/// hexadecimal.
pub fn short_sha256(message: &[u8], count: usize) -> (r: String)
    requires
        message@.len() < 0x2000_0000_0000_0000,
        count <= 32,
    ensures
        r@ == hex(sha256_digest(message@).take(count as int)),
{
    let digest: Vec<u8> = sha256(message);
    hex_prefix(digest.as_slice(), count)
}

} // verus!
