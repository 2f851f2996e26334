//! Deterministic identifiers: SHA-256 content hashes rendered as lowercase
//! hex, and stable UUID-shaped identifiers derived from seed strings so
//! that re-running the pipeline over unchanged input reproduces every
//! identifier exactly.

use vstd::prelude::*;

use sha2::Digest;

use crate::text::chars_to_string;

verus! {

/// The SHA-256 digest of a byte sequence, named but not modelled: every
/// claim about it goes through `sha256_digest`.
pub uninterp spec fn sha256_of(data: Seq<u8>) -> Seq<u8>;

/// Relies on sha2's SHA-256: the digest is a pure function of the input
/// bytes and is 32 bytes long.
#[verifier::external_body]
fn sha256_digest(data: &[u8]) -> (r: Vec<u8>)
    ensures
        r@ == sha256_of(data@),
        r@.len() == 32,
{
    let mut hasher = sha2::Sha256::new();
    hasher.update(data);
    hasher.finalize().to_vec()
}

/// The lowercase hex digit for a value below 16.
pub open spec fn hex_digit(n: int) -> char {
    if n < 10 {
        ((48 + n) as u8) as char
    } else {
        ((87 + n) as u8) as char
    }
}

/// The lowercase hex encoding of a byte sequence, two digits per byte.
pub open spec fn hex_of(data: Seq<u8>) -> Seq<char>
    decreases data.len(),
{
    if data.len() == 0 {
        Seq::empty()
    } else {
        seq![hex_digit(data[0] as int / 16), hex_digit(data[0] as int % 16)] + hex_of(
            data.drop_first(),
        )
    }
}

/// Lowercase hex encoding, two digits per byte.
fn hex_encode(data: &Vec<u8>) -> (r: Vec<char>)
    ensures
        r@ == hex_of(data@),
{
    let n = data.len();
    let mut r: Vec<char> = Vec::new();
    proof {
        assert(data@.skip(0) =~= data@);
    }
    for i in 0..n
        invariant
            n == data@.len(),
            hex_of(data@) == r@ + hex_of(data@.skip(i as int)),
    {
        proof {
            assert(data@.skip(i as int)[0] == data@[i as int]);
            assert(data@.skip(i as int).drop_first() =~= data@.skip(i + 1));
        }
        let b = data[i];
        let hi = b / 16;
        let lo = b % 16;
        if hi < 10 {
            r.push((48 + hi) as char);
        } else {
            r.push((87 + hi) as char);
        }
        if lo < 10 {
            r.push((48 + lo) as char);
        } else {
            r.push((87 + lo) as char);
        }
    }
    proof {
        assert(data@.skip(n as int) =~= Seq::<u8>::empty());
    }
    r
}

/// The lowercase hex SHA-256 digest of a byte slice.
pub fn sha256_bytes(bytes: &[u8]) -> (r: String)
    ensures
        r@ == hex_of(sha256_of(bytes@)),
{
    let digest = sha256_digest(bytes);
    let hex = hex_encode(&digest);
    chars_to_string(&hex)
}

/// The hyphenated lowercase rendering of 16 identifier bytes, in the
/// 8-4-4-4-12 digit grouping.
pub open spec fn uuid_render(b: Seq<u8>) -> Seq<char> {
    hex_of(b.subrange(0, 4)) + seq!['-'] + hex_of(b.subrange(4, 6)) + seq!['-'] + hex_of(
        b.subrange(6, 8),
    ) + seq!['-'] + hex_of(b.subrange(8, 10)) + seq!['-'] + hex_of(b.subrange(10, 16))
}

/// Relies on uuid's `Display`: a `Uuid` renders as the hyphenated lowercase
/// hex of its 16 bytes, grouped 8-4-4-4-12.
#[verifier::external_body]
fn uuid_hyphenated(b: &[u8; 16]) -> (r: String)
    ensures
        r@ == uuid_render(b@),
{
    uuid::Uuid::from_bytes(*b).to_string()
}

/// The first 16 digest bytes with the RFC 4122 variant and version bits
/// forced, so the identifier is well-formed without claiming a standard
/// version's semantics.
pub open spec fn uuid_bytes_spec(digest: Seq<u8>) -> Seq<u8> {
    digest.take(16).update(6, ((digest[6] & 0x0F) | 0x50) as u8).update(
        8,
        ((digest[8] & 0x3F) | 0x80) as u8,
    )
}

/// The stable identifier derived from a seed string: the hyphenated
/// rendering of the bit-forced first 16 bytes of the seed's SHA-256.
pub open spec fn stable_uuid_spec(seed: Seq<char>) -> Seq<char> {
    uuid_render(uuid_bytes_spec(sha256_of(vstd::utf8::encode_utf8(seed))))
}

/// Derives the deterministic identifier for a seed string. The same seed
/// always yields the same identifier.
pub fn stable_uuid(seed: &str) -> (r: String)
    ensures
        r@ == stable_uuid_spec(seed@),
{
    let digest = sha256_digest(seed.as_bytes());
    let ghost dg = digest@;
    let mut bytes = [0u8; 16];
    for i in 0..16usize
        invariant
            dg == digest@,
            dg.len() == 32,
            forall|k: int| 0 <= k < i ==> bytes@[k] == dg[k],
    {
        bytes[i] = digest[i];
    }
    let b6 = (bytes[6] & 0x0F) | 0x50;
    bytes[6] = b6;
    let b8 = (bytes[8] & 0x3F) | 0x80;
    bytes[8] = b8;
    proof {
        assert(bytes@ =~= uuid_bytes_spec(dg));
    }
    uuid_hyphenated(&bytes)
}

/// The identifier law: a stable identifier is a pure function of its seed,
/// so byte-identical reruns reproduce every identifier exactly.
pub proof fn lemma_stable_uuid_deterministic(seed1: Seq<char>, seed2: Seq<char>)
    requires
        seed1 == seed2,
    ensures
        stable_uuid_spec(seed1) == stable_uuid_spec(seed2),
{
}

} // verus!
