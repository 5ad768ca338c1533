//! The content hash: the SHA-1 digest of a text, in hexadecimal.

use sha1::Digest;
use vstd::prelude::*;

verus! {

/// The SHA-1 digest of `data`.
pub uninterp spec fn sha1_digest(data: Seq<u8>) -> Seq<u8>;

/// `Sha1::digest` of the crate `sha1`: the result is the SHA-1 digest of the
/// bytes given, which has twenty bytes.
#[verifier::external_body]
fn digest_of(data: &[u8]) -> (r: Vec<u8>)
    ensures
        r@ == sha1_digest(data@),
        r@.len() == 20,
{
    sha1::Sha1::digest(data).to_vec()
}

/// The hexadecimal digit for `d`, in lower case.
pub open spec fn hex_digit(d: int) -> char {
    if d == 0 {
        '0'
    } else if d == 1 {
        '1'
    } else if d == 2 {
        '2'
    } else if d == 3 {
        '3'
    } else if d == 4 {
        '4'
    } else if d == 5 {
        '5'
    } else if d == 6 {
        '6'
    } else if d == 7 {
        '7'
    } else if d == 8 {
        '8'
    } else if d == 9 {
        '9'
    } else if d == 10 {
        'a'
    } else if d == 11 {
        'b'
    } else if d == 12 {
        'c'
    } else if d == 13 {
        'd'
    } else if d == 14 {
        'e'
    } else {
        'f'
    }
}

/// The bytes of `data` in hexadecimal, two lower-case digits for each.
pub open spec fn hex_text(data: Seq<u8>) -> Seq<char>
    decreases data.len(),
{
    if data.len() == 0 {
        Seq::empty()
    } else {
        hex_text(data.drop_last()).push(hex_digit(data.last() as int / 16)).push(
            hex_digit(data.last() as int % 16),
        )
    }
}

/// The content hash of `key`: the SHA-1 digest of its UTF-8 bytes, in
/// hexadecimal.
pub open spec fn hash_text(key: Seq<char>) -> Seq<char> {
    hex_text(sha1_digest(vstd::utf8::encode_utf8(key)))
}

fn hex(d: u8) -> (c: char)
    requires
        d < 16,
    ensures
        c == hex_digit(d as int),
{
    if d == 0 {
        '0'
    } else if d == 1 {
        '1'
    } else if d == 2 {
        '2'
    } else if d == 3 {
        '3'
    } else if d == 4 {
        '4'
    } else if d == 5 {
        '5'
    } else if d == 6 {
        '6'
    } else if d == 7 {
        '7'
    } else if d == 8 {
        '8'
    } else if d == 9 {
        '9'
    } else if d == 10 {
        'a'
    } else if d == 11 {
        'b'
    } else if d == 12 {
        'c'
    } else if d == 13 {
        'd'
    } else if d == 14 {
        'e'
    } else {
        'f'
    }
}

/// The bytes of `data` in hexadecimal.
pub fn to_hex(data: &[u8]) -> (r: String)
    ensures
        r@ == hex_text(data@),
{
    let mut out = String::new();
    let mut i: usize = 0;
    while i < data.len()
        invariant
            i <= data@.len(),
            out@ == hex_text(data@.take(i as int)),
        decreases data@.len() - i,
    {
        let byte: u8 = data[i];
        proof {
            let next = data@.take(i + 1);
            assert(next.drop_last() == data@.take(i as int));
            assert(next.last() == byte);
        }
        out.push(hex(byte / 16));
        out.push(hex(byte % 16));
        i = i + 1;
    }
    proof {
        assert(data@.take(data@.len() as int) == data@);
    }
    out
}

/// The content hash of `key`.
pub fn make_hash(key: &str) -> (r: String)
    ensures
        r@ == hash_text(key@),
        r@.len() == 40,
{
    let digest = digest_of(key.as_bytes());
    proof {
        lemma_hex_length(digest@);
    }
    to_hex(digest.as_slice())
}

/// The hexadecimal text has two digits for each byte.
pub proof fn lemma_hex_length(data: Seq<u8>)
    ensures
        hex_text(data).len() == 2 * data.len(),
    decreases data.len(),
{
    if data.len() > 0 {
        lemma_hex_length(data.drop_last());
    }
}

/// Different bytes have different hexadecimal texts, so two content hashes
/// are equal only where the digests are.
pub proof fn lemma_hex_tells_apart(a: Seq<u8>, b: Seq<u8>)
    requires
        hex_text(a) == hex_text(b),
    ensures
        a == b,
    decreases a.len(),
{
    lemma_hex_length(a);
    lemma_hex_length(b);
    if a.len() > 0 {
        let front_a = hex_text(a.drop_last());
        let front_b = hex_text(b.drop_last());
        lemma_hex_length(a.drop_last());
        lemma_hex_length(b.drop_last());
        let n = hex_text(a).len() as int;
        assert(hex_text(a)[n - 1] == hex_digit(a.last() as int % 16));
        assert(hex_text(b)[n - 1] == hex_digit(b.last() as int % 16));
        assert(hex_text(a)[n - 2] == hex_digit(a.last() as int / 16));
        assert(hex_text(b)[n - 2] == hex_digit(b.last() as int / 16));
        assert(a.last() == b.last());
        assert(front_a =~= hex_text(a).take(n - 2));
        assert(front_b =~= hex_text(b).take(n - 2));
        lemma_hex_tells_apart(a.drop_last(), b.drop_last());
        assert(a =~= a.drop_last().push(a.last()));
        assert(b =~= b.drop_last().push(b.last()));
    } else {
        assert(a =~= b);
    }
}

} // verus!
