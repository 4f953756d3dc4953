//! Byte encodings and digests the site uses: base64 (RFC 4648, standard
//! alphabet with padding, and URL-safe alphabet without), SHA-256, and
//! Ed25519 signing. Base64 is specified here in full; the digest and the
//! signature are named results of the outside crates.

use vstd::prelude::*;

verus! {

/// The base64 digit for the 6-bit value `v`: `A-Z`, `a-z`, `0-9`, then `+ /`
/// (standard alphabet) or `- _` (URL-safe alphabet).
pub open spec fn b64_digit(v: int, url_safe: bool) -> char {
    if v < 26 {
        (('A' as u32) + v) as char
    } else if v < 52 {
        (('a' as u32) + (v - 26)) as char
    } else if v < 62 {
        (('0' as u32) + (v - 52)) as char
    } else if v == 62 {
        if url_safe {
            '-'
        } else {
            '+'
        }
    } else {
        if url_safe {
            '_'
        } else {
            '/'
        }
    }
}

/// Base64 of `b` (RFC 4648): each 3 bytes give 4 digits; a final 1 or 2 bytes
/// give 2 or 3 digits, followed by `=` padding to 4 when `pad` holds.
pub open spec fn b64_encode(b: Seq<u8>, url_safe: bool, pad: bool) -> Seq<char>
    decreases b.len(),
{
    if b.len() >= 3 {
        let b0 = b[0] as int;
        let b1 = b[1] as int;
        let b2 = b[2] as int;
        seq![
            b64_digit(b0 / 4, url_safe),
            b64_digit((b0 % 4) * 16 + b1 / 16, url_safe),
            b64_digit((b1 % 16) * 4 + b2 / 64, url_safe),
            b64_digit(b2 % 64, url_safe),
        ] + b64_encode(b.skip(3), url_safe, pad)
    } else if b.len() == 2 {
        let b0 = b[0] as int;
        let b1 = b[1] as int;
        let head = seq![
            b64_digit(b0 / 4, url_safe),
            b64_digit((b0 % 4) * 16 + b1 / 16, url_safe),
            b64_digit((b1 % 16) * 4, url_safe),
        ];
        if pad {
            head.push('=')
        } else {
            head
        }
    } else if b.len() == 1 {
        let b0 = b[0] as int;
        let head = seq![b64_digit(b0 / 4, url_safe), b64_digit((b0 % 4) * 16, url_safe)];
        if pad {
            head + seq!['=', '=']
        } else {
            head
        }
    } else {
        Seq::empty()
    }
}

/// Base64 in the standard alphabet with padding.
pub open spec fn b64_standard(b: Seq<u8>) -> Seq<char> {
    b64_encode(b, false, true)
}

/// Base64 in the URL-safe alphabet without padding.
pub open spec fn b64_url_no_pad(b: Seq<u8>) -> Seq<char> {
    b64_encode(b, true, false)
}

/// `base64::engine::general_purpose::STANDARD.encode(bytes)`: base64 in the
/// standard alphabet with `=` padding, as RFC 4648 and the crate's
/// documentation describe it.
#[verifier::external_body]
pub(crate) fn encode_b64_standard(bytes: &[u8]) -> (s: String)
    ensures
        s@ == b64_standard(bytes@),
{
    base64::Engine::encode(&base64::engine::general_purpose::STANDARD, bytes)
}

/// `base64::engine::general_purpose::URL_SAFE_NO_PAD.encode(bytes)`: base64 in
/// the URL-safe alphabet, without padding.
#[verifier::external_body]
pub(crate) fn encode_b64_url_no_pad(bytes: &[u8]) -> (s: String)
    ensures
        s@ == b64_url_no_pad(bytes@),
{
    base64::Engine::encode(&base64::engine::general_purpose::URL_SAFE_NO_PAD, bytes)
}

/// The error type of base64 decoding.
#[verifier::external_type_specification]
#[verifier::external_body]
pub struct ExDecodeError(base64::DecodeError);

/// `base64::engine::general_purpose::STANDARD.decode(text)`. The engine's
/// configuration (`PAD`) requires canonical padding and rejects non-zero
/// trailing bits, so it accepts exactly the standard encodings: the result is
/// `Ok(b)` for the `b` whose encoding is `text`, and an error when there is
/// none.
#[verifier::external_body]
pub(crate) fn decode_b64_standard(text: &str) -> (r: Result<Vec<u8>, base64::DecodeError>)
    ensures
        r matches Ok(b) ==> b64_standard(b@) == text@,
        r is Err ==> forall|b: Seq<u8>| b64_standard(b) != text@,
{
    base64::Engine::decode(&base64::engine::general_purpose::STANDARD, text)
}

/// The characters that base64 in the standard alphabet with padding uses.
pub open spec fn is_b64_standard_char(c: char) -> bool {
    ||| ('A' <= c && c <= 'Z')
    ||| ('a' <= c && c <= 'z')
    ||| ('0' <= c && c <= '9')
    ||| c == '+'
    ||| c == '/'
    ||| c == '='
}

proof fn lemma_b64_digit_standard(v: int)
    requires
        0 <= v < 64,
    ensures
        is_b64_standard_char(b64_digit(v, false)),
{
}

/// Standard base64 text is made of letters, digits, `+`, `/` and `=` only.
pub proof fn lemma_b64_standard_alphabet(b: Seq<u8>)
    ensures
        forall|i: int|
            0 <= i < b64_standard(b).len() ==> is_b64_standard_char(#[trigger] b64_standard(b)[i]),
    decreases b.len(),
{
    let e = b64_standard(b);
    if b.len() >= 3 {
        lemma_b64_standard_alphabet(b.skip(3));
        let b0 = b[0] as int;
        let b1 = b[1] as int;
        let b2 = b[2] as int;
        lemma_b64_digit_standard(b0 / 4);
        lemma_b64_digit_standard((b0 % 4) * 16 + b1 / 16);
        lemma_b64_digit_standard((b1 % 16) * 4 + b2 / 64);
        lemma_b64_digit_standard(b2 % 64);
        let rest = b64_standard(b.skip(3));
        assert forall|i: int| 0 <= i < e.len() implies is_b64_standard_char(#[trigger] e[i]) by {
            if i >= 4 {
                assert(e[i] == rest[i - 4]);
            }
        }
    } else if b.len() == 2 {
        let b0 = b[0] as int;
        let b1 = b[1] as int;
        lemma_b64_digit_standard(b0 / 4);
        lemma_b64_digit_standard((b0 % 4) * 16 + b1 / 16);
        lemma_b64_digit_standard((b1 % 16) * 4);
    } else if b.len() == 1 {
        let b0 = b[0] as int;
        lemma_b64_digit_standard(b0 / 4);
        lemma_b64_digit_standard((b0 % 4) * 16);
    }
}

/// Base64 output length: four characters for every three bytes, rounded up
/// (with padding), so 32 bytes give 44 characters.
pub proof fn lemma_b64_standard_len(b: Seq<u8>)
    ensures
        b64_standard(b).len() == 4 * ((b.len() + 2) / 3),
    decreases b.len(),
{
    if b.len() >= 3 {
        lemma_b64_standard_len(b.skip(3));
    }
}

proof fn lemma_b64_digit_not_pad(v: int, url_safe: bool)
    requires
        0 <= v < 64,
    ensures
        b64_digit(v, url_safe) != '=',
{
}

/// How standard base64 ends tells the input length modulo 3: one `=` for two
/// leftover bytes, two for one, none for a whole number of groups.
pub proof fn lemma_b64_standard_padding(b: Seq<u8>)
    ensures
        ({
            let e = b64_standard(b);
            &&& b.len() % 3 == 2 ==> e.len() >= 4 && e[e.len() - 1] == '=' && e[e.len() - 2] != '='
            &&& b.len() % 3 == 1 ==> e.len() >= 4 && e[e.len() - 2] == '=' && e[e.len() - 1] == '='
            &&& b.len() % 3 == 0 && b.len() > 0 ==> e.len() >= 4 && e[e.len() - 1] != '='
        }),
    decreases b.len(),
{
    let e = b64_standard(b);
    if b.len() >= 3 {
        let b0 = b[0] as int;
        let b1 = b[1] as int;
        let b2 = b[2] as int;
        lemma_b64_standard_padding(b.skip(3));
        lemma_b64_standard_len(b.skip(3));
        lemma_b64_digit_not_pad(b2 % 64, false);
        let rest = b64_standard(b.skip(3));
        if rest.len() > 0 {
            assert(e[e.len() - 1] == rest[rest.len() - 1]);
            assert(e[e.len() - 2] == rest[rest.len() - 2]);
        }
    } else if b.len() == 2 {
        let b1 = b[1] as int;
        lemma_b64_digit_not_pad((b1 % 16) * 4, false);
    }
}

/// Standard base64 encodings of different lengths differ: the text fixes the
/// number of bytes.
pub proof fn lemma_b64_standard_same_len(a: Seq<u8>, b: Seq<u8>)
    requires
        b64_standard(a) == b64_standard(b),
    ensures
        a.len() == b.len(),
{
    let e = b64_standard(a);
    lemma_b64_standard_len(a);
    lemma_b64_standard_len(b);
    lemma_b64_standard_padding(a);
    lemma_b64_standard_padding(b);
    let n = a.len() as int;
    let m = b.len() as int;
    assert((n % 3 == 2) == (m % 3 == 2));
    assert((n % 3 == 1) == (m % 3 == 1));
    lemma_same_groups(n, m);
}

proof fn lemma_same_groups(n: int, m: int)
    requires
        n >= 0,
        m >= 0,
        4 * ((n + 2) / 3) == 4 * ((m + 2) / 3),
        (n % 3 == 1) == (m % 3 == 1),
        (n % 3 == 2) == (m % 3 == 2),
    ensures
        n == m,
{
}

proof fn lemma_b64_digit_injective(v: int, w: int, url_safe: bool)
    requires
        0 <= v < 64,
        0 <= w < 64,
        b64_digit(v, url_safe) == b64_digit(w, url_safe),
    ensures
        v == w,
{
}

proof fn lemma_bytes_from_digits(b0: int, b1: int, c0: int, c1: int)
    requires
        0 <= b0 < 256,
        0 <= b1 < 256,
        0 <= c0 < 256,
        0 <= c1 < 256,
        b0 / 4 == c0 / 4,
        (b0 % 4) * 16 + b1 / 16 == (c0 % 4) * 16 + c1 / 16,
    ensures
        b0 == c0,
        b1 / 16 == c1 / 16,
{
}

/// Standard base64 is injective: the text determines the bytes.
pub proof fn lemma_b64_standard_injective(a: Seq<u8>, b: Seq<u8>)
    requires
        b64_standard(a) == b64_standard(b),
    ensures
        a == b,
    decreases a.len(),
{
    lemma_b64_standard_same_len(a, b);
    let e = b64_standard(a);
    if a.len() >= 3 {
        let (a0, a1, a2) = (a[0] as int, a[1] as int, a[2] as int);
        let (b0, b1, b2) = (b[0] as int, b[1] as int, b[2] as int);
        assert(e[0] == b64_digit(a0 / 4, false) && e[0] == b64_digit(b0 / 4, false));
        assert(e[1] == b64_digit((a0 % 4) * 16 + a1 / 16, false));
        assert(e[1] == b64_digit((b0 % 4) * 16 + b1 / 16, false));
        assert(e[2] == b64_digit((a1 % 16) * 4 + a2 / 64, false));
        assert(e[2] == b64_digit((b1 % 16) * 4 + b2 / 64, false));
        assert(e[3] == b64_digit(a2 % 64, false) && e[3] == b64_digit(b2 % 64, false));
        lemma_b64_digit_injective(a0 / 4, b0 / 4, false);
        lemma_b64_digit_injective((a0 % 4) * 16 + a1 / 16, (b0 % 4) * 16 + b1 / 16, false);
        lemma_b64_digit_injective((a1 % 16) * 4 + a2 / 64, (b1 % 16) * 4 + b2 / 64, false);
        lemma_b64_digit_injective(a2 % 64, b2 % 64, false);
        lemma_bytes_from_digits(a0, a1, b0, b1);
        assert(a1 == b1);
        assert(a2 == b2);
        assert(b64_standard(a.skip(3)) =~= e.skip(4));
        assert(b64_standard(b.skip(3)) =~= e.skip(4));
        lemma_b64_standard_injective(a.skip(3), b.skip(3));
        assert(a =~= seq![a[0], a[1], a[2]] + a.skip(3));
        assert(b =~= seq![b[0], b[1], b[2]] + b.skip(3));
    } else if a.len() == 2 {
        let (a0, a1) = (a[0] as int, a[1] as int);
        let (b0, b1) = (b[0] as int, b[1] as int);
        assert(e[0] == b64_digit(a0 / 4, false) && e[0] == b64_digit(b0 / 4, false));
        assert(e[1] == b64_digit((a0 % 4) * 16 + a1 / 16, false));
        assert(e[1] == b64_digit((b0 % 4) * 16 + b1 / 16, false));
        assert(e[2] == b64_digit((a1 % 16) * 4, false) && e[2] == b64_digit((b1 % 16) * 4, false));
        lemma_b64_digit_injective(a0 / 4, b0 / 4, false);
        lemma_b64_digit_injective((a0 % 4) * 16 + a1 / 16, (b0 % 4) * 16 + b1 / 16, false);
        lemma_b64_digit_injective((a1 % 16) * 4, (b1 % 16) * 4, false);
        lemma_bytes_from_digits(a0, a1, b0, b1);
        assert(a =~= b);
    } else if a.len() == 1 {
        let a0 = a[0] as int;
        let b0 = b[0] as int;
        assert(e[0] == b64_digit(a0 / 4, false) && e[0] == b64_digit(b0 / 4, false));
        assert(e[1] == b64_digit((a0 % 4) * 16, false) && e[1] == b64_digit((b0 % 4) * 16, false));
        lemma_b64_digit_injective(a0 / 4, b0 / 4, false);
        lemma_b64_digit_injective((a0 % 4) * 16, (b0 % 4) * 16, false);
        assert(a =~= b);
    } else {
        assert(a =~= b);
    }
}

proof fn lemma_b64_encode_injective_same_len(a: Seq<u8>, b: Seq<u8>, url_safe: bool, pad: bool)
    requires
        a.len() == b.len(),
        b64_encode(a, url_safe, pad) == b64_encode(b, url_safe, pad),
    ensures
        a == b,
    decreases a.len(),
{
    let e = b64_encode(a, url_safe, pad);
    if a.len() >= 3 {
        let (a0, a1, a2) = (a[0] as int, a[1] as int, a[2] as int);
        let (b0, b1, b2) = (b[0] as int, b[1] as int, b[2] as int);
        assert(e[0] == b64_digit(a0 / 4, url_safe) && e[0] == b64_digit(b0 / 4, url_safe));
        assert(e[1] == b64_digit((a0 % 4) * 16 + a1 / 16, url_safe));
        assert(e[1] == b64_digit((b0 % 4) * 16 + b1 / 16, url_safe));
        assert(e[2] == b64_digit((a1 % 16) * 4 + a2 / 64, url_safe));
        assert(e[2] == b64_digit((b1 % 16) * 4 + b2 / 64, url_safe));
        assert(e[3] == b64_digit(a2 % 64, url_safe) && e[3] == b64_digit(b2 % 64, url_safe));
        lemma_b64_digit_injective(a0 / 4, b0 / 4, url_safe);
        lemma_b64_digit_injective((a0 % 4) * 16 + a1 / 16, (b0 % 4) * 16 + b1 / 16, url_safe);
        lemma_b64_digit_injective((a1 % 16) * 4 + a2 / 64, (b1 % 16) * 4 + b2 / 64, url_safe);
        lemma_b64_digit_injective(a2 % 64, b2 % 64, url_safe);
        lemma_bytes_from_digits(a0, a1, b0, b1);
        assert(a1 == b1);
        assert(a2 == b2);
        assert(b64_encode(a.skip(3), url_safe, pad) =~= e.skip(4));
        assert(b64_encode(b.skip(3), url_safe, pad) =~= e.skip(4));
        lemma_b64_encode_injective_same_len(a.skip(3), b.skip(3), url_safe, pad);
        assert(a =~= seq![a[0], a[1], a[2]] + a.skip(3));
        assert(b =~= seq![b[0], b[1], b[2]] + b.skip(3));
    } else if a.len() == 2 {
        let (a0, a1) = (a[0] as int, a[1] as int);
        let (b0, b1) = (b[0] as int, b[1] as int);
        assert(e[0] == b64_digit(a0 / 4, url_safe) && e[0] == b64_digit(b0 / 4, url_safe));
        assert(e[1] == b64_digit((a0 % 4) * 16 + a1 / 16, url_safe));
        assert(e[1] == b64_digit((b0 % 4) * 16 + b1 / 16, url_safe));
        assert(e[2] == b64_digit((a1 % 16) * 4, url_safe) && e[2] == b64_digit(
            (b1 % 16) * 4,
            url_safe,
        ));
        lemma_b64_digit_injective(a0 / 4, b0 / 4, url_safe);
        lemma_b64_digit_injective((a0 % 4) * 16 + a1 / 16, (b0 % 4) * 16 + b1 / 16, url_safe);
        lemma_b64_digit_injective((a1 % 16) * 4, (b1 % 16) * 4, url_safe);
        lemma_bytes_from_digits(a0, a1, b0, b1);
        assert(a =~= b);
    } else if a.len() == 1 {
        let a0 = a[0] as int;
        let b0 = b[0] as int;
        assert(e[0] == b64_digit(a0 / 4, url_safe) && e[0] == b64_digit(b0 / 4, url_safe));
        assert(e[1] == b64_digit((a0 % 4) * 16, url_safe) && e[1] == b64_digit(
            (b0 % 4) * 16,
            url_safe,
        ));
        lemma_b64_digit_injective(a0 / 4, b0 / 4, url_safe);
        lemma_b64_digit_injective((a0 % 4) * 16, (b0 % 4) * 16, url_safe);
        assert(a =~= b);
    } else {
        assert(a =~= b);
    }
}

/// Unpadded base64 length: four characters per whole group of three bytes,
/// then two for one leftover byte or three for two.
pub proof fn lemma_b64_url_no_pad_len(b: Seq<u8>)
    ensures
        b64_url_no_pad(b).len() == 4 * (b.len() / 3) + (if b.len() % 3 == 0 {
            0
        } else {
            b.len() % 3 + 1
        }),
    decreases b.len(),
{
    if b.len() >= 3 {
        lemma_b64_url_no_pad_len(b.skip(3));
    }
}

/// URL-safe unpadded base64 is injective: the text determines the bytes (so
/// the JWK's `x` decodes to exactly one key).
pub proof fn lemma_b64_url_no_pad_injective(a: Seq<u8>, b: Seq<u8>)
    requires
        b64_url_no_pad(a) == b64_url_no_pad(b),
    ensures
        a == b,
{
    lemma_b64_url_no_pad_len(a);
    lemma_b64_url_no_pad_len(b);
    let n = a.len() as int;
    let m = b.len() as int;
    assert(n == m) by {
        let ln = 4 * (n / 3) + (if n % 3 == 0 { 0 } else { n % 3 + 1 });
        let lm = 4 * (m / 3) + (if m % 3 == 0 { 0 } else { m % 3 + 1 });
        assert(ln == lm);
        assert(ln / 4 == n / 3 && lm / 4 == m / 3);
        assert(ln % 4 == (if n % 3 == 0 { 0 } else { n % 3 + 1 }));
        assert(lm % 4 == (if m % 3 == 0 { 0 } else { m % 3 + 1 }));
    }
    lemma_b64_encode_injective_same_len(a, b, true, false);
}

// ---------------------------------------------------------------------------
// SHA-256
// ---------------------------------------------------------------------------

/// The SHA-256 digest of `bytes` (FIPS 180-4).
pub uninterp spec fn sha256(bytes: Seq<u8>) -> Seq<u8>;

/// `<sha2::Sha256 as sha2::Digest>::digest(bytes)`, as 32 bytes. The contract
/// names the digest and claims no more of it.
#[verifier::external_body]
pub(crate) fn sha256_digest(bytes: &[u8]) -> (d: [u8; 32])
    ensures
        d@ == sha256(bytes@),
{
    <sha2::Sha256 as sha2::Digest>::digest(bytes).into()
}

// ---------------------------------------------------------------------------
// Ed25519
// ---------------------------------------------------------------------------

/// The Ed25519 public key (compressed point) of the secret key `seed`.
pub uninterp spec fn ed25519_public(seed: Seq<u8>) -> Seq<u8>;

/// The Ed25519 signature (RFC 8032, deterministic) of `msg` under `seed`.
pub uninterp spec fn ed25519_signature(seed: Seq<u8>, msg: Seq<u8>) -> Seq<u8>;

/// `SigningKey::from_bytes(seed).verifying_key().to_bytes()` from
/// `ed25519_dalek`. The contract names the key and claims no more of it.
#[verifier::external_body]
pub(crate) fn ed25519_public_key(seed: &[u8; 32]) -> (k: [u8; 32])
    ensures
        k@ == ed25519_public(seed@),
{
    ed25519_dalek::SigningKey::from_bytes(seed).verifying_key().to_bytes()
}

/// `SigningKey::from_bytes(seed).sign(msg).to_bytes()` from `ed25519_dalek`:
/// RFC 8032 signing, which is deterministic. The contract names the
/// signature and claims no more of it.
#[verifier::external_body]
pub(crate) fn ed25519_sign(seed: &[u8; 32], msg: &[u8]) -> (sig: [u8; 64])
    ensures
        sig@ == ed25519_signature(seed@, msg@),
{
    ed25519_dalek::Signer::sign(&ed25519_dalek::SigningKey::from_bytes(seed), msg).to_bytes()
}

/// A fresh secret key from the operating system's random source:
/// `SigningKey::generate(&mut rand_core::OsRng).to_bytes()`. Nothing is
/// claimed of the bytes.
#[verifier::external_body]
pub(crate) fn random_seed() -> (seed: [u8; 32]) {
    ed25519_dalek::SigningKey::generate(&mut rand_core::OsRng).to_bytes()
}

} // verus!
