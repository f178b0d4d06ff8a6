//! The canonical binary encoding of response payloads (BCS).
use vstd::prelude::*;

verus! {

#[verifier::external_type_specification]
#[verifier::external_body]
pub struct ExBcsError(bcs::Error);


/// The largest length BCS writes for a sequence (`bcs::MAX_SEQUENCE_LENGTH`).
pub const MAX_SEQUENCE_LENGTH: u64 = 0x7fff_ffff;

/// The ULEB128 form of `n`: seven bits per byte, lowest first, with the high
/// bit set on every byte but the last.
pub open spec fn uleb128(n: nat) -> Seq<u8>
    decreases n,
{
    if n < 128 {
        seq![n as u8]
    } else {
        seq![(n % 128 + 128) as u8] + uleb128(n / 128)
    }
}

/// The bytes BCS encodes a string to: the length of its UTF-8 form in
/// ULEB128, then that UTF-8 form.
pub open spec fn bcs_string_encoded(s: Seq<char>) -> Seq<u8> {
    uleb128(vstd::utf8::encode_utf8(s).len()) + vstd::utf8::encode_utf8(s)
}

/// `bytes` is the BCS encoding of the string `s`, which BCS can encode.
pub open spec fn decodes_to(bytes: Seq<u8>, s: Seq<char>) -> bool {
    encodable(s) && bytes == bcs_string_encoded(s)
}

/// `bytes` is the BCS encoding of some string.
pub open spec fn is_string_encoding(bytes: Seq<u8>) -> bool {
    exists|s: Seq<char>| decodes_to(bytes, s)
}

proof fn lemma_uleb128_prefix(n1: nat, n2: nat, x: Seq<u8>, y: Seq<u8>)
    requires
        uleb128(n1) + x == uleb128(n2) + y,
    ensures
        n1 == n2,
        x == y,
    decreases n1,
{
    let (a, b) = (uleb128(n1) + x, uleb128(n2) + y);
    assert(a[0] == uleb128(n1)[0]);
    assert(b[0] == uleb128(n2)[0]);
    if n1 < 128 {
        if n2 >= 128 {
            assert(false);
        }
        assert(x =~= a.drop_first());
        assert(y =~= b.drop_first());
    } else {
        if n2 < 128 {
            assert(false);
        }
        assert(a.drop_first() =~= uleb128(n1 / 128) + x);
        assert(b.drop_first() =~= uleb128(n2 / 128) + y);
        lemma_uleb128_prefix(n1 / 128, n2 / 128, x, y);
        assert(n1 % 128 == n2 % 128);
        assert(n1 == 128 * (n1 / 128) + n1 % 128);
        assert(n2 == 128 * (n2 / 128) + n2 % 128);
    }
}

/// Different strings have different BCS encodings.
pub proof fn lemma_encoding_injective(s1: Seq<char>, s2: Seq<char>)
    requires
        bcs_string_encoded(s1) == bcs_string_encoded(s2),
    ensures
        s1 == s2,
{
    let (u1, u2) = (vstd::utf8::encode_utf8(s1), vstd::utf8::encode_utf8(s2));
    lemma_uleb128_prefix(u1.len(), u2.len(), u1, u2);
    vstd::utf8::encode_utf8_decode_utf8(s1);
    vstd::utf8::encode_utf8_decode_utf8(s2);
}

/// Relies on `bcs::to_bytes`: a string encodes as its UTF-8 length in ULEB128
/// followed by its UTF-8 bytes, unless it is longer than
/// `bcs::MAX_SEQUENCE_LENGTH` bytes (UTF-8 spends at most four bytes on a
/// character); and `bcs::from_bytes` reads back exactly the string encoded.
#[verifier::external_body]
pub(crate) fn bcs_encode_string(s: &String) -> (r: Result<Vec<u8>, bcs::Error>)
    ensures
        r is Ok <==> vstd::utf8::encode_utf8(s@).len() <= MAX_SEQUENCE_LENGTH,
        4 * s@.len() <= MAX_SEQUENCE_LENGTH ==> r is Ok,
        r matches Ok(bytes) ==> bytes@ == bcs_string_encoded(s@),
{
    bcs::to_bytes(s)
}

/// Relies on `bcs::from_bytes::<String>`: it succeeds exactly where the bytes
/// are a canonical ULEB128 length within `bcs::MAX_SEQUENCE_LENGTH` followed
/// by that many bytes of valid UTF-8 and nothing more, that is the encoding of
/// a string, and returns that string.
#[verifier::external_body]
pub(crate) fn bcs_decode_string(bytes: &Vec<u8>) -> (r: Result<String, bcs::Error>)
    ensures
        r is Ok <==> is_string_encoding(bytes@),
        r matches Ok(s) ==> decodes_to(bytes@, s@),
{
    bcs::from_bytes::<String>(bytes)
}

/// The string's UTF-8 form is short enough for BCS to encode.
pub open spec fn encodable(s: Seq<char>) -> bool {
    vstd::utf8::encode_utf8(s).len() <= MAX_SEQUENCE_LENGTH
}

/// Encodes a string payload; `None` exactly where it is too long for BCS.
pub fn encode_string(s: &String) -> (r: Option<Vec<u8>>)
    ensures
        r is Some <==> encodable(s@),
        r matches Some(bytes) ==> bytes@ == bcs_string_encoded(s@),
{
    match bcs_encode_string(s) {
        Ok(bytes) => Some(bytes),
        Err(_) => None,
    }
}

/// Decodes a string payload; `None` exactly where the bytes encode no string.
pub fn decode_string(bytes: &Vec<u8>) -> (r: Option<String>)
    ensures
        r is Some <==> is_string_encoding(bytes@),
        r matches Some(s) ==> decodes_to(bytes@, s@),
{
    match bcs_decode_string(bytes) {
        Ok(s) => Some(s),
        Err(_) => None,
    }
}

} // verus!
