//! Digests: what a token is known by without being kept.

use crate::text;
use vstd::prelude::*;
use vstd::string::*;

verus! {

/// The SHA-256 digest of some bytes, as `sha2` computes it.
pub uninterp spec fn sha256(bytes: Seq<u8>) -> Seq<u8>;

/// `sha2::Sha256::digest`: 32 bytes, a function of the input.
#[verifier::external_body]
fn sha256_of(bytes: &[u8]) -> (r: [u8; 32])
    ensures
        r@ == sha256(bytes@),
{
    <sha2::Sha256 as sha2::Digest>::digest(bytes).into()
}

/// The padded base64 of some bytes in the standard alphabet, as `base64` writes it.
pub uninterp spec fn base64_standard(bytes: Seq<u8>) -> Seq<char>;

/// `base64::engine::general_purpose::STANDARD.encode`, a function of the input.
#[verifier::external_body]
fn base64_of(bytes: &[u8]) -> (r: String)
    ensures
        r@ == base64_standard(bytes@),
{
    base64::Engine::encode(&base64::engine::general_purpose::STANDARD, bytes)
}

/// The digest a token is known by.
pub open spec fn key_spec(token: Seq<char>) -> Seq<u8> {
    sha256(vstd::utf8::encode_utf8(token))
}

/// The digest a token is known by.
pub fn key_for(token: &str) -> (r: [u8; 32])
    ensures
        r@ == key_spec(token@),
        r@.len() == 32,
{
    sha256_of(token.as_bytes())
}

/// The base64 of a text.
pub fn base64_text(s: &str) -> (r: String)
    ensures
        r@ == base64_standard(vstd::utf8::encode_utf8(s@)),
{
    base64_of(s.as_bytes())
}

/// A byte as two digits of sixteen.
pub open spec fn byte_hex(b: u8) -> Seq<char> {
    seq![text::digit((b / 16) as int), text::digit((b % 16) as int)]
}

/// Bytes as digits of sixteen, two for each.
pub open spec fn hex_spec(bytes: Seq<u8>) -> Seq<char>
    decreases bytes.len(),
{
    if bytes.len() == 0 {
        Seq::empty()
    } else {
        hex_spec(bytes.drop_last()) + byte_hex(bytes.last())
    }
}

/// Writes a digest as digits of sixteen.
pub fn hex(key: &[u8; 32]) -> (r: String)
    ensures
        r@ == hex_spec(key@),
{
    let mut out = String::new();
    let mut i: usize = 0;
    proof {
        assert(key@.take(0) =~= Seq::empty());
    }
    while i < 32
        invariant
            i <= 32,
            out@ == hex_spec(key@.take(i as int)),
        decreases 32 - i,
    {
        let b: u8 = key[i];
        let ghost front = out@;
        out.push(text::digit_char(b / 16));
        out.push(text::digit_char(b % 16));
        proof {
            assert(key@.take(i + 1).drop_last() =~= key@.take(i as int));
            assert(out@ =~= front + byte_hex(b));
        }
        i = i + 1;
    }
    proof {
        assert(key@.take(32) =~= key@);
    }
    out
}

/// The value of a digit of sixteen, in either case.
pub open spec fn digit_value(c: char) -> Option<u8> {
    if '0' <= c <= '9' {
        Some((c as u8 - '0' as u8) as u8)
    } else if 'a' <= c <= 'f' {
        Some((c as u8 - 'a' as u8 + 10) as u8)
    } else if 'A' <= c <= 'F' {
        Some((c as u8 - 'A' as u8 + 10) as u8)
    } else {
        None
    }
}

/// The byte that two digits of sixteen write.
pub open spec fn pair_value(a: char, b: char) -> Option<u8> {
    match (digit_value(a), digit_value(b)) {
        (Some(high), Some(low)) => Some((16 * high + low) as u8),
        _ => None,
    }
}

/// The value of a digit of sixteen.
fn read_digit(c: char) -> (r: Option<u8>)
    ensures
        r == digit_value(c),
        r matches Some(d) ==> d < 16,
{
    if '0' <= c && c <= '9' {
        Some(c as u8 - '0' as u8)
    } else if 'a' <= c && c <= 'f' {
        Some(c as u8 - 'a' as u8 + 10)
    } else if 'A' <= c && c <= 'F' {
        Some(c as u8 - 'A' as u8 + 10)
    } else {
        None
    }
}

/// The byte that two characters write.
fn read_pair(a: char, b: char) -> (r: Option<u8>)
    ensures
        r == pair_value(a, b),
{
    match (read_digit(a), read_digit(b)) {
        (Some(high), Some(low)) => Some(16 * high + low),
        _ => None,
    }
}

/// Whether an id writes a digest: 64 digits of sixteen, each two of them a byte.
pub open spec fn is_id(id: Seq<char>) -> bool {
    &&& id.len() == 64
    &&& forall|i: int| 0 <= i < 32 ==> (#[trigger] pair_value(id[2 * i], id[2 * i + 1])) is Some
}

/// The digest an id writes.
pub open spec fn id_bytes(id: Seq<char>) -> Seq<u8> {
    Seq::new(32, |i: int| pair_value(id[2 * i], id[2 * i + 1])->Some_0)
}

/// Reads a digest from an id.
pub fn key_from_id(id: &str) -> (r: Option<[u8; 32]>)
    ensures
        match r {
            Some(key) => is_id(id@) && key@ == id_bytes(id@),
            None => !is_id(id@),
        },
{
    let v = text::chars_of(id);
    if v.len() != 64 {
        return None;
    }
    let mut key: [u8; 32] = [0u8;32];
    let mut i: usize = 0;
    while i < 32
        invariant
            i <= 32,
            v@ == id@,
            v@.len() == 64,
            forall|k: int|
                0 <= k < i ==> (#[trigger] pair_value(id@[2 * k], id@[2 * k + 1])) == Some(key@[k]),
        decreases 32 - i,
    {
        match read_pair(v[2 * i], v[2 * i + 1]) {
            Some(b) => {
                key[i] = b;
            },
            None => {
                proof {
                    assert(pair_value(id@[2 * i as int], id@[2 * i as int + 1]) is None);
                }
                return None;
            },
        }
        i = i + 1;
    }
    proof {
        assert(key@ =~= id_bytes(id@));
    }
    Some(key)
}

/// Digits of sixteen stand at the places of their bytes.
pub proof fn lemma_hex_places(bytes: Seq<u8>)
    ensures
        hex_spec(bytes).len() == 2 * bytes.len(),
        forall|i: int|
            0 <= i < bytes.len() ==> hex_spec(bytes)[2 * i] == text::digit((#[trigger] bytes[i] / 16) as int)
                && hex_spec(bytes)[2 * i + 1] == text::digit((bytes[i] % 16) as int),
    decreases bytes.len(),
{
    if bytes.len() > 0 {
        lemma_hex_places(bytes.drop_last());
        assert forall|i: int| 0 <= i < bytes.len() implies hex_spec(bytes)[2 * i] == text::digit(
            (#[trigger] bytes[i] / 16) as int,
        ) && hex_spec(bytes)[2 * i + 1] == text::digit((bytes[i] % 16) as int) by {
            if i < bytes.len() - 1 {
                assert(bytes.drop_last()[i] == bytes[i]);
            }
        }
    }
}

/// An id gives back the digest it was written from.
pub proof fn law_id_gives_back_the_digest(key: Seq<u8>)
    requires
        key.len() == 32,
    ensures
        is_id(hex_spec(key)),
        id_bytes(hex_spec(key)) == key,
{
    lemma_hex_places(key);
    let id = hex_spec(key);
    assert forall|i: int| 0 <= i < 32 implies (#[trigger] pair_value(id[2 * i], id[2 * i + 1]))
        == Some(key[i]) by {
        let b = key[i];
        let high = (b / 16) as int;
        let low = (b % 16) as int;
        assert(id[2 * i] == text::digit(high));
        assert(digit_value(text::digit(high)) == Some(high as u8));
        assert(digit_value(text::digit(low)) == Some(low as u8));
        assert(16 * high + low == b);
    }
    assert(id_bytes(id) =~= key);
}

/// Two digests with one id are one digest.
pub proof fn law_ids_are_distinct(a: Seq<u8>, b: Seq<u8>)
    requires
        a.len() == 32,
        b.len() == 32,
        hex_spec(a) == hex_spec(b),
    ensures
        a == b,
{
    law_id_gives_back_the_digest(a);
    law_id_gives_back_the_digest(b);
}

} // verus!
