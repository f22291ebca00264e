//! The calls this library makes into outside crates, each behind a contract
//! that the crate's source or documentation supports. Nothing here is proved.

use base64::Engine as _;
use ed25519_dalek::{Signer, Verifier};
use sha2::Digest;
use vstd::prelude::*;

verus! {

/// The current UTC time from `chrono::Utc::now`, rendered as RFC 3339 text
/// the way chrono's serde support writes it (`SecondsFormat::AutoSi`, `Z`).
/// The clock decides the value, so nothing is stated of it.
#[verifier::external_body]
pub(crate) fn now_timestamp() -> String {
    chrono::Utc::now().to_rfc3339_opts(chrono::SecondsFormat::AutoSi, true)
}

// ---------------------------------------------------------------------------
// hex
// ---------------------------------------------------------------------------

/// The lowercase hexadecimal digit for `d < 16`.
pub open spec fn hex_digit_lower(d: nat) -> char {
    if d == 0 { '0' }
    else if d == 1 { '1' }
    else if d == 2 { '2' }
    else if d == 3 { '3' }
    else if d == 4 { '4' }
    else if d == 5 { '5' }
    else if d == 6 { '6' }
    else if d == 7 { '7' }
    else if d == 8 { '8' }
    else if d == 9 { '9' }
    else if d == 10 { 'a' }
    else if d == 11 { 'b' }
    else if d == 12 { 'c' }
    else if d == 13 { 'd' }
    else if d == 14 { 'e' }
    else { 'f' }
}

/// Lowercase hexadecimal text of `b`, two digits per byte, high nibble first.
pub open spec fn hex_text(b: Seq<u8>) -> Seq<char>
    decreases b.len(),
{
    if b.len() == 0 {
        seq![]
    } else {
        seq![hex_digit_lower((b[0] / 16) as nat), hex_digit_lower((b[0] % 16) as nat)] + hex_text(
            b.drop_first(),
        )
    }
}

/// The value of a hexadecimal digit of either case.
pub open spec fn hex_value(c: char) -> Option<u8> {
    let u = c as u32;
    if 0x30 <= u && u <= 0x39 {
        Some((u - 0x30) as u8)
    } else if 0x61 <= u && u <= 0x66 {
        Some((u - 0x61 + 10) as u8)
    } else if 0x41 <= u && u <= 0x46 {
        Some((u - 0x41 + 10) as u8)
    } else {
        None
    }
}

/// Bytes of hexadecimal text, or `None` when the text has odd length or a
/// character that is not a hexadecimal digit.
pub open spec fn hex_bytes(s: Seq<char>) -> Option<Seq<u8>>
    decreases s.len(),
{
    if s.len() == 0 {
        Some(seq![])
    } else if s.len() == 1 {
        None
    } else {
        match (hex_value(s[0]), hex_value(s[1]), hex_bytes(s.skip(2))) {
            (Some(h), Some(l), Some(rest)) => Some(seq![(h * 16 + l) as u8] + rest),
            _ => None,
        }
    }
}

/// Each lowercase digit reads back as the value it was written for.
pub proof fn lemma_hex_digit_value(d: nat)
    requires
        d < 16,
    ensures
        hex_value(hex_digit_lower(d)) == Some(d as u8),
{
}

proof fn lemma_hex_digit_ascii(d: nat)
    requires
        d < 16,
    ensures
        '\0' <= hex_digit_lower(d) <= '\u{7f}',
{
}

/// Decoding the hexadecimal text of some bytes gives the bytes back.
pub proof fn lemma_hex_roundtrip(b: Seq<u8>)
    ensures
        hex_bytes(hex_text(b)) == Some(b),
        hex_text(b).len() == 2 * b.len(),
    decreases b.len(),
{
    if b.len() > 0 {
        lemma_hex_roundtrip(b.drop_first());
        let t = hex_text(b);
        let hi = (b[0] / 16) as nat;
        let lo = (b[0] % 16) as nat;
        lemma_hex_digit_value(hi);
        lemma_hex_digit_value(lo);
        assert(t[0] == hex_digit_lower(hi));
        assert(t[1] == hex_digit_lower(lo));
        assert(t.skip(2) =~= hex_text(b.drop_first()));
        assert(((hi as u8) * 16 + (lo as u8)) as u8 == b[0]);
        assert(seq![b[0]] + b.drop_first() =~= b);
    } else {
        assert(hex_text(b) =~= Seq::<char>::empty());
    }
}

/// Every character of hexadecimal text is an ASCII hexadecimal digit.
pub proof fn lemma_hex_text_digits(b: Seq<u8>, i: int)
    requires
        0 <= i < hex_text(b).len(),
    ensures
        hex_value(hex_text(b)[i]) is Some,
        '\0' <= hex_text(b)[i] <= '\u{7f}',
    decreases b.len(),
{
    lemma_hex_roundtrip(b);
    if b.len() > 0 {
        let t = hex_text(b);
        lemma_hex_digit_value((b[0] / 16) as nat);
        lemma_hex_digit_value((b[0] % 16) as nat);
        lemma_hex_digit_ascii((b[0] / 16) as nat);
        lemma_hex_digit_ascii((b[0] % 16) as nat);
        if i >= 2 {
            assert(t[i] == hex_text(b.drop_first())[i - 2]);
            lemma_hex_text_digits(b.drop_first(), i - 2);
        }
    }
}

/// `hex::encode`: lowercase hexadecimal text of `data`.
#[verifier::external_body]
pub(crate) fn hex_encode(data: &[u8]) -> (r: String)
    ensures
        r@ == hex_text(data@),
{
    hex::encode(data)
}

/// `hex::decode`: the bytes of `s`, or `None` where the crate reports an odd
/// length or an invalid character.
#[verifier::external_body]
pub(crate) fn hex_decode(s: &str) -> (r: Option<Vec<u8>>)
    ensures
        match r {
            Some(v) => hex_bytes(s@) == Some(v@),
            None => hex_bytes(s@) is None,
        },
{
    hex::decode(s).ok()
}

// ---------------------------------------------------------------------------
// sha2
// ---------------------------------------------------------------------------

/// The SHA-256 digest of `data`.
pub uninterp spec fn sha256_of(data: Seq<u8>) -> Seq<u8>;

/// `sha2::Sha256` over `data`: its 32-byte digest.
#[verifier::external_body]
pub(crate) fn sha256(data: &[u8]) -> (r: Vec<u8>)
    ensures
        r@ == sha256_of(data@),
        r@.len() == 32,
{
    let mut hasher = sha2::Sha256::new();
    hasher.update(data);
    hasher.finalize().to_vec()
}

// ---------------------------------------------------------------------------
// base64 (standard alphabet, padded)
// ---------------------------------------------------------------------------

/// The padded standard base64 text of `data`.
pub uninterp spec fn base64_of(data: Seq<u8>) -> Seq<char>;

/// The bytes that padded standard base64 `text` decodes to, or `None` where
/// the crate rejects the text.
pub uninterp spec fn base64_bytes(text: Seq<char>) -> Option<Seq<u8>>;

/// A character of the standard base64 alphabet, or the padding `=`.
pub open spec fn is_base64_char(c: char) -> bool {
    ('A' <= c && c <= 'Z') || ('a' <= c && c <= 'z') || ('0' <= c && c <= '9') || c == '+' || c == '/' || c == '='
}

/// `base64::engine::general_purpose::STANDARD.encode`: padded base64 text
/// over the standard alphabet, four characters for every started group of
/// three bytes, which the same engine decodes back to `data`.
#[verifier::external_body]
pub(crate) fn base64_encode(data: &[u8]) -> (r: String)
    requires
        data@.len() <= 0x1000_0000,
    ensures
        r@ == base64_of(data@),
        r@.len() == 4 * ((data@.len() + 2) / 3),
        forall|i: int| 0 <= i < r@.len() ==> is_base64_char(#[trigger] r@[i]),
        base64_bytes(r@) == Some(data@),
{
    base64::engine::general_purpose::STANDARD.encode(data)
}

/// The message of the error the standard engine reports for `text`.
pub uninterp spec fn base64_error_text(text: Seq<char>) -> Seq<char>;

/// `base64::engine::general_purpose::STANDARD.decode`: the decoded bytes, or
/// the message of the crate's error.
#[verifier::external_body]
pub(crate) fn base64_decode(text: &str) -> (r: Result<Vec<u8>, String>)
    ensures
        match r {
            Ok(v) => base64_bytes(text@) == Some(v@),
            Err(m) => base64_bytes(text@) is None && m@ == base64_error_text(text@),
        },
{
    match base64::engine::general_purpose::STANDARD.decode(text) {
        Ok(v) => Ok(v),
        Err(e) => Err(e.to_string()),
    }
}

// ---------------------------------------------------------------------------
// ed25519-dalek and rand
// ---------------------------------------------------------------------------

/// The public key of the ed25519 secret key `secret`.
pub uninterp spec fn ed25519_public_of(secret: Seq<u8>) -> Seq<u8>;

/// The ed25519 signature of `msg` under the secret key `secret`.
pub uninterp spec fn ed25519_signature_of(secret: Seq<u8>, msg: Seq<u8>) -> Seq<u8>;

/// Whether `ed25519_dalek::VerifyingKey::from_bytes` accepts `public`.
pub uninterp spec fn ed25519_key_accepted(public: Seq<u8>) -> bool;

/// Whether `VerifyingKey::verify` accepts `sig` over `msg` for `public`.
pub uninterp spec fn ed25519_accepts(public: Seq<u8>, msg: Seq<u8>, sig: Seq<u8>) -> bool;

/// A fresh secret key: `SigningKey::generate(&mut OsRng)`, as its 32 bytes.
/// The operating system's randomness decides the value.
#[verifier::external_body]
pub(crate) fn ed25519_generate_secret() -> (r: Vec<u8>)
    ensures
        r@.len() == 32,
{
    ed25519_dalek::SigningKey::generate(&mut rand::rngs::OsRng).to_bytes().to_vec()
}

/// `SigningKey::from_bytes(secret).verifying_key().to_bytes()`: the 32-byte
/// public key, which `VerifyingKey::from_bytes` accepts.
#[verifier::external_body]
pub(crate) fn ed25519_public_key(secret: &[u8]) -> (r: Vec<u8>)
    requires
        secret@.len() == 32,
    ensures
        r@ == ed25519_public_of(secret@),
        r@.len() == 32,
        ed25519_key_accepted(r@),
{
    let arr: [u8; 32] = secret.try_into().unwrap();
    ed25519_dalek::SigningKey::from_bytes(&arr).verifying_key().to_bytes().to_vec()
}

/// `SigningKey::from_bytes(secret).sign(msg).to_bytes()`: the 64-byte
/// signature, which verification with the key's public key accepts.
#[verifier::external_body]
pub(crate) fn ed25519_sign(secret: &[u8], msg: &[u8]) -> (r: Vec<u8>)
    requires
        secret@.len() == 32,
    ensures
        r@ == ed25519_signature_of(secret@, msg@),
        r@.len() == 64,
        ed25519_accepts(ed25519_public_of(secret@), msg@, r@),
{
    let arr: [u8; 32] = secret.try_into().unwrap();
    ed25519_dalek::SigningKey::from_bytes(&arr).sign(msg).to_bytes().to_vec()
}

/// The message of the error `VerifyingKey::from_bytes` reports for `public`.
pub uninterp spec fn ed25519_key_error_text(public: Seq<u8>) -> Seq<char>;

/// `VerifyingKey::from_bytes(public)` followed by `verify(msg, sig)`:
/// `Err` with the crate's message when the key bytes are rejected, else
/// whether the signature verifies.
#[verifier::external_body]
pub(crate) fn ed25519_verify(public: &[u8], msg: &[u8], sig: &[u8]) -> (r: Result<bool, String>)
    requires
        public@.len() == 32,
        sig@.len() == 64,
    ensures
        match r {
            Err(m) => !ed25519_key_accepted(public@) && m@ == ed25519_key_error_text(public@),
            Ok(b) => ed25519_key_accepted(public@) && b == ed25519_accepts(public@, msg@, sig@),
        },
{
    let pk: [u8; 32] = public.try_into().unwrap();
    let sg: [u8; 64] = sig.try_into().unwrap();
    match ed25519_dalek::VerifyingKey::from_bytes(&pk) {
        Ok(key) => Ok(key.verify(msg, &ed25519_dalek::Signature::from_bytes(&sg)).is_ok()),
        Err(e) => Err(e.to_string()),
    }
}

// ---------------------------------------------------------------------------
// UTF-8
// ---------------------------------------------------------------------------

/// The message of the error `std::str::from_utf8` gives for `bytes`.
pub uninterp spec fn utf8_error_text(bytes: Seq<u8>) -> Seq<char>;

/// `std::str::from_utf8`: the text that valid UTF-8 bytes encode, or the
/// error's message when they are not valid UTF-8.
#[verifier::external_body]
pub(crate) fn utf8_decode(bytes: &[u8]) -> (r: Result<String, String>)
    ensures
        match r {
            Ok(s) => vstd::utf8::valid_utf8(bytes@) && s@ == vstd::utf8::decode_utf8(bytes@),
            Err(m) => !vstd::utf8::valid_utf8(bytes@) && m@ == utf8_error_text(bytes@),
        },
{
    match std::str::from_utf8(bytes) {
        Ok(s) => Ok(s.to_string()),
        Err(e) => Err(e.to_string()),
    }
}

} // verus!
