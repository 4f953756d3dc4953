//! HTTP-layer security decisions:
//!   * Repr-Digest (RFC 9530): which responses carry one, and its value.
//!   * Fetch-Metadata resource isolation: which requests are allowed.
//!   * `Signer`: RFC 9421 HTTP Message Signatures (Ed25519) over
//!     `@authority @path content-type repr-digest`, with the public key
//!     published as a JWK at the `keyid` URL.
//!
//! Repr-Digest is chosen over Content-Digest so a CDN's (de)compression doesn't
//! invalidate it, and the signature covers Repr-Digest (not the encoded bytes)
//! so it survives the edge too. Signatures are deterministic (no nonce / no
//! `created`) so they stay valid in the edge cache.

use vstd::prelude::*;
use crate::codec::{
    b64_standard, b64_url_no_pad, decode_b64_standard, ed25519_public, ed25519_public_key,
    ed25519_sign, ed25519_signature, encode_b64_standard, encode_b64_url_no_pad,
    lemma_b64_standard_injective, lemma_b64_standard_same_len, lemma_b64_url_no_pad_injective, random_seed, sha256, sha256_digest,
};
use crate::content::str_eq;
use crate::text::{
    chars_of, chars_starts_with, free_of, join, lemma_split_join, split_on, starts_with, string_of,
    trim, trim_chars,
};

verus! {

// ---------------------------------------------------------------------------
// Repr-Digest (RFC 9530)
// ---------------------------------------------------------------------------

/// The path prefix of the immutable static assets.
pub open spec fn static_prefix() -> Seq<char> {
    seq!['/', 's', 't', 'a', 't', 'i', 'c', '/']
}

/// `/static/*` responses are neither digested nor signed: those assets are
/// immutable, edge-cached, and gain nothing from origin-authenticity
/// signatures, so buffering them to digest is pure cost.
pub fn skips_digest(path: &str) -> (r: bool)
    ensures
        r == starts_with(path@, static_prefix()),
{
    let v = chars_of(path);
    let p: Vec<char> = vec!['/', 's', 't', 'a', 't', 'i', 'c', '/'];
    assert(p@ =~= static_prefix());
    chars_starts_with(v.as_slice(), p.as_slice())
}

/// The `Repr-Digest` header value for a representation: `sha-256=:…:` around
/// the standard base64 of its SHA-256.
pub open spec fn repr_digest_text(body: Seq<u8>) -> Seq<char> {
    "sha-256=:"@ + b64_standard(sha256(body)) + ":"@
}

/// The `Repr-Digest` header value over the (unencoded) representation `body`.
pub fn repr_digest_value(body: &[u8]) -> (r: String)
    ensures
        r@ == repr_digest_text(body@),
{
    let digest = sha256_digest(body);
    let b64 = encode_b64_standard(&digest);
    let mut r = String::from_str("sha-256=:");
    r.append(b64.as_str());
    r.append(":");
    r
}

// ---------------------------------------------------------------------------
// Fetch-Metadata resource isolation
// ---------------------------------------------------------------------------

/// Whether `v` is the header value `s`.
pub open spec fn header_is(v: Option<Seq<char>>, s: Seq<char>) -> bool {
    v == Some(s)
}

/// The views of optional header values.
pub open spec fn opt_view(v: Option<&str>) -> Option<Seq<char>> {
    match v {
        Some(s) => Some(s@),
        None => None,
    }
}

/// The isolation policy: without `Sec-Fetch-Site` (old browser, non-browser
/// client), or from the same origin, the same site or the user (`none`), a
/// request is allowed; a cross-site request only when it is a top-level `GET`
/// navigation whose destination is not an `object` or `embed`; an unknown
/// site value fails open.
pub open spec fn fetch_allowed(
    method: Seq<char>,
    site: Option<Seq<char>>,
    mode: Option<Seq<char>>,
    dest: Option<Seq<char>>,
) -> bool {
    match site {
        None => true,
        Some(s) => if s == "same-origin"@ || s == "same-site"@ || s == "none"@ {
            true
        } else if s == "cross-site"@ {
            method == "GET"@ && header_is(mode, "navigate"@) && !header_is(dest, "object"@)
                && !header_is(dest, "embed"@)
        } else {
            true
        },
    }
}

fn opt_is(v: Option<&str>, s: &str) -> (r: bool)
    ensures
        r == header_is(opt_view(v), s@),
{
    match v {
        Some(x) => str_eq(x, s),
        None => false,
    }
}

/// Reject cross-site requests that aren't top-level GET navigations. Blocks
/// hot-linking / cross-origin embedding while allowing people to click through
/// to the site. `site`, `mode` and `dest` are the `Sec-Fetch-Site`,
/// `Sec-Fetch-Mode` and `Sec-Fetch-Dest` header values, when present as text.
pub fn fetch_metadata_allows(
    method: &str,
    site: Option<&str>,
    mode: Option<&str>,
    dest: Option<&str>,
) -> (r: bool)
    ensures
        r == fetch_allowed(method@, opt_view(site), opt_view(mode), opt_view(dest)),
{
    match site {
        None => true,
        Some(s) => {
            if str_eq(s, "same-origin") || str_eq(s, "same-site") || str_eq(s, "none") {
                true
            } else if str_eq(s, "cross-site") {
                str_eq(method, "GET") && opt_is(mode, "navigate") && !opt_is(dest, "object")
                    && !opt_is(dest, "embed")
            } else {
                true
            }
        },
    }
}

// ---------------------------------------------------------------------------
// HTTP Message Signatures (RFC 9421)
// ---------------------------------------------------------------------------

/// The `keyid` of the response-signing key: the URL where its JWK is served.
pub open spec fn key_id() -> Seq<char> {
    "https://robertshalders.com/.well-known/http-msg-sig.jwk"@
}

/// The public key as a JWK, given its URL-safe base64 `x`.
pub open spec fn jwk_text(x: Seq<char>) -> Seq<char> {
    "{\"kty\":\"OKP\",\"crv\":\"Ed25519\",\"x\":\""@ + x
        + "\",\"use\":\"sig\",\"alg\":\"EdDSA\",\"kid\":\"https://robertshalders.com/.well-known/http-msg-sig.jwk\"}"@
}

/// The RFC 9421 `@signature-params` value: the covered components, the
/// `keyid` and the algorithm.
pub open spec fn signature_params() -> Seq<char> {
    "(\"@authority\" \"@path\" \"content-type\" \"repr-digest\");keyid=\"https://robertshalders.com/.well-known/http-msg-sig.jwk\";alg=\"ed25519\""@
}

/// The signature base: one `"name": value` line per component, ending with the
/// `@signature-params` line; joined by LF, no trailing newline.
pub open spec fn signature_base(
    authority: Seq<char>,
    path: Seq<char>,
    content_type: Seq<char>,
    repr_digest: Seq<char>,
) -> Seq<char> {
    "\"@authority\": "@ + authority + "\n\"@path\": "@ + path + "\n\"content-type\": "@
        + content_type + "\n\"repr-digest\": "@ + repr_digest + "\n\"@signature-params\": "@
        + signature_params()
}

proof fn lemma_cancel_around(x: Seq<char>, u: Seq<char>, v: Seq<char>, y: Seq<char>)
    requires
        x + u + y == x + v + y,
    ensures
        u == v,
{
    assert((x + u + y).len() == (x + v + y).len());
    assert((x + u).len() == x.len() + u.len());
    assert((x + v).len() == x.len() + v.len());
    assert((x + u + y).len() == (x + u).len() + y.len());
    assert((x + v + y).len() == (x + v).len() + y.len());
    assert(u.len() == v.len());
    assert((x + u + y).subrange(x.len() as int, (x.len() + u.len()) as int) =~= u);
    assert((x + v + y).subrange(x.len() as int, (x.len() + v.len()) as int) =~= v);
    assert(u =~= v);
}

/// The signature base carries every covered component: with the others the
/// same, different authorities, paths, content types or digests give
/// different bases (so a signature for one path never stands for another).
pub proof fn lemma_signature_base_covers_components(
    a: Seq<char>,
    p: Seq<char>,
    c: Seq<char>,
    d: Seq<char>,
    a2: Seq<char>,
    p2: Seq<char>,
    c2: Seq<char>,
    d2: Seq<char>,
)
    ensures
        signature_base(a, p, c, d) == signature_base(a2, p, c, d) ==> a == a2,
        signature_base(a, p, c, d) == signature_base(a, p2, c, d) ==> p == p2,
        signature_base(a, p, c, d) == signature_base(a, p, c2, d) ==> c == c2,
        signature_base(a, p, c, d) == signature_base(a, p, c, d2) ==> d == d2,
{
    let h = "\"@authority\": "@;
    let lp = "\n\"@path\": "@;
    let lc = "\n\"content-type\": "@;
    let ld = "\n\"repr-digest\": "@;
    let t = "\n\"@signature-params\": "@ + signature_params();
    if signature_base(a, p, c, d) == signature_base(a2, p, c, d) {
        let y = lp + p + lc + c + ld + d + t;
        assert(signature_base(a, p, c, d) =~= h + a + y);
        assert(signature_base(a2, p, c, d) =~= h + a2 + y);
        lemma_cancel_around(h, a, a2, y);
    }
    if signature_base(a, p, c, d) == signature_base(a, p2, c, d) {
        let x = h + a + lp;
        let y = lc + c + ld + d + t;
        assert(signature_base(a, p, c, d) =~= x + p + y);
        assert(signature_base(a, p2, c, d) =~= x + p2 + y);
        lemma_cancel_around(x, p, p2, y);
    }
    if signature_base(a, p, c, d) == signature_base(a, p, c2, d) {
        let x = h + a + lp + p + lc;
        let y = ld + d + t;
        assert(signature_base(a, p, c, d) =~= x + c + y);
        assert(signature_base(a, p, c2, d) =~= x + c2 + y);
        lemma_cancel_around(x, c, c2, y);
    }
    if signature_base(a, p, c, d) == signature_base(a, p, c, d2) {
        let x = h + a + lp + p + lc + c + ld;
        assert(signature_base(a, p, c, d) =~= x + d + t);
        assert(signature_base(a, p, c, d2) =~= x + d2 + t);
        lemma_cancel_around(x, d, d2, t);
    }
}

/// The signature base reads back line by line: when no covered component
/// holds a line feed, splitting the base at line feeds gives exactly the five
/// lines `"@authority": a`, `"@path": p`, `"content-type": c`,
/// `"repr-digest": d` and `"@signature-params": ...`, in that order.
pub proof fn lemma_signature_base_lines(a: Seq<char>, p: Seq<char>, c: Seq<char>, d: Seq<char>)
    requires
        free_of(a, '\n'),
        free_of(p, '\n'),
        free_of(c, '\n'),
        free_of(d, '\n'),
    ensures
        split_on(signature_base(a, p, c, d), '\n') == seq![
            "\"@authority\": "@ + a,
            "\"@path\": "@ + p,
            "\"content-type\": "@ + c,
            "\"repr-digest\": "@ + d,
            "\"@signature-params\": "@ + signature_params(),
        ],
{
    reveal_strlit("\"@authority\": ");
    reveal_strlit("\"@path\": ");
    reveal_strlit("\"content-type\": ");
    reveal_strlit("\"repr-digest\": ");
    reveal_strlit("\"@signature-params\": ");
    reveal_strlit("\n\"@path\": ");
    reveal_strlit("\n\"content-type\": ");
    reveal_strlit("\n\"repr-digest\": ");
    reveal_strlit("\n\"@signature-params\": ");
    reveal_strlit("(\"@authority\" \"@path\" \"content-type\" \"repr-digest\");keyid=\"https://robertshalders.com/.well-known/http-msg-sig.jwk\";alg=\"ed25519\"");
    let lines = seq![
        "\"@authority\": "@ + a,
        "\"@path\": "@ + p,
        "\"content-type\": "@ + c,
        "\"repr-digest\": "@ + d,
        "\"@signature-params\": "@ + signature_params(),
    ];
    assert forall|i: int| 0 <= i < lines.len() implies free_of(#[trigger] lines[i], '\n') by {
        let l = lines[i];
        assert forall|j: int| 0 <= j < l.len() implies l[j] != '\n' by {
            if i == 0 {
                if j >= "\"@authority\": "@.len() {
                    assert(l[j] == a[j - "\"@authority\": "@.len()]);
                }
            } else if i == 1 {
                if j >= "\"@path\": "@.len() {
                    assert(l[j] == p[j - "\"@path\": "@.len()]);
                }
            } else if i == 2 {
                if j >= "\"content-type\": "@.len() {
                    assert(l[j] == c[j - "\"content-type\": "@.len()]);
                }
            } else if i == 3 {
                if j >= "\"repr-digest\": "@.len() {
                    assert(l[j] == d[j - "\"repr-digest\": "@.len()]);
                }
            }
        }
    }
    assert(join(lines, seq!['\n']) =~= signature_base(a, p, c, d)) by {
        assert(lines.drop_last().drop_last().drop_last().drop_last() =~= seq![lines[0]]);
        assert(lines.drop_last().drop_last().drop_last() =~= seq![lines[0], lines[1]]);
        assert(lines.drop_last().drop_last() =~= seq![lines[0], lines[1], lines[2]]);
        assert(lines.drop_last() =~= seq![lines[0], lines[1], lines[2], lines[3]]);
        let nl = seq!['\n'];
        let j1 = join(seq![lines[0]], nl);
        let j2 = join(seq![lines[0], lines[1]], nl);
        let j3 = join(seq![lines[0], lines[1], lines[2]], nl);
        let j4 = join(seq![lines[0], lines[1], lines[2], lines[3]], nl);
        assert(j1 == lines[0]);
        assert(seq![lines[0], lines[1]].drop_last() =~= seq![lines[0]]);
        assert(j2 == j1 + nl + lines[1]);
        assert(seq![lines[0], lines[1], lines[2]].drop_last() =~= seq![lines[0], lines[1]]);
        assert(j3 == j2 + nl + lines[2]);
        assert(seq![lines[0], lines[1], lines[2], lines[3]].drop_last() =~= seq![
            lines[0],
            lines[1],
            lines[2],
        ]);
        assert(j4 == j3 + nl + lines[3]);
        assert(join(lines, nl) == j4 + nl + lines[4]);
        assert("\n\"@path\": "@ =~= nl + "\"@path\": "@);
        assert("\n\"content-type\": "@ =~= nl + "\"content-type\": "@);
        assert("\n\"repr-digest\": "@ =~= nl + "\"repr-digest\": "@);
        assert("\n\"@signature-params\": "@ =~= nl + "\"@signature-params\": "@);
    }
    lemma_split_join(lines, '\n');
}

/// The `Signature` header value for `base` under the secret key `seed`.
pub open spec fn signature_text(seed: Seq<u8>, base: Seq<char>) -> Seq<char> {
    "sig1=:"@ + b64_standard(ed25519_signature(seed, vstd::utf8::encode_utf8(base))) + ":"@
}

/// Ed25519 response signer. DEV: an ephemeral key is generated per process if
/// none is provided - the matching public key is published as a JWK so the
/// current run is verifiable. PROD: inject a stable seed (see `from_env_value`).
pub struct Signer {
    seed: [u8; 32],
    jwk: String,
    /// RFC 9421 `@signature-params` value - constant per process, built once.
    sig_params: String,
    /// Precomputed `Signature-Input` header value (`sig1=<sig_params>`).
    sig_input: String,
}

impl Signer {
    #[verifier::type_invariant]
    closed spec fn wf(self) -> bool {
        &&& self.jwk@ == jwk_text(b64_url_no_pad(ed25519_public(self.seed@)))
        &&& self.sig_params@ == signature_params()
        &&& self.sig_input@ == "sig1="@ + signature_params()
    }

    /// The secret key (Ed25519 seed) the signer signs with.
    pub closed spec fn key(self) -> Seq<u8> {
        self.seed@
    }

    /// A signer for the secret key `seed`.
    pub fn new(seed: [u8; 32]) -> (s: Signer)
        ensures
            s.key() == seed@,
    {
        let public = ed25519_public_key(&seed);
        let x = encode_b64_url_no_pad(&public);
        let mut jwk = String::from_str("{\"kty\":\"OKP\",\"crv\":\"Ed25519\",\"x\":\"");
        jwk.append(x.as_str());
        jwk.append(
            "\",\"use\":\"sig\",\"alg\":\"EdDSA\",\"kid\":\"https://robertshalders.com/.well-known/http-msg-sig.jwk\"}",
        );
        let sig_params = String::from_str(
            "(\"@authority\" \"@path\" \"content-type\" \"repr-digest\");keyid=\"https://robertshalders.com/.well-known/http-msg-sig.jwk\";alg=\"ed25519\"",
        );
        let mut sig_input = String::from_str("sig1=");
        sig_input.append(sig_params.as_str());
        Signer { seed, jwk, sig_params, sig_input }
    }

    /// Build from the value of `RESPONSE_SIG_SEED` (base64 of a 32-byte
    /// Ed25519 seed, surrounding white space ignored) when it is set and valid,
    /// otherwise from an ephemeral key generated for this process.
    pub fn from_env_value(value: Option<&str>) -> (s: Signer)
        ensures
            (match value {
                Some(v) => seed_from_text(v@) matches Some(seed) ==> s.key() == seed,
                None => true,
            }),
    {
        let seed = match value {
            Some(v) => seed_from_base64(v),
            None => None,
        };
        match seed {
            Some(seed) => Signer::new(seed),
            None => Signer::new(random_seed()),
        }
    }

    /// The public verification key as a JWK (served at the `keyid` URL).
    pub fn jwk(&self) -> (r: &str)
        ensures
            r@ == jwk_text(b64_url_no_pad(ed25519_public(self.key()))),
    {
        proof {
            use_type_invariant(self);
        }
        self.jwk.as_str()
    }

    /// The `Signature-Input` header value: `sig1=` and the signature parameters.
    pub fn signature_input(&self) -> (r: &str)
        ensures
            r@ == "sig1="@ + signature_params(),
    {
        proof {
            use_type_invariant(self);
        }
        self.sig_input.as_str()
    }

    /// Short fingerprint (first bytes of the public key) for log lines.
    pub fn fingerprint(&self) -> (r: String)
        ensures
            r@ == b64_url_no_pad(ed25519_public(self.key()).take(8)),
    {
        let public = ed25519_public_key(&self.seed);
        let mut head: Vec<u8> = Vec::new();
        let mut i: usize = 0;
        while i < 8
            invariant
                i <= 8,
                public@.len() == 32,
                head@ == public@.take(i as int),
            decreases 8 - i,
        {
            head.push(public[i]);
            i = i + 1;
            assert(head@ =~= public@.take(i as int));
        }
        encode_b64_url_no_pad(head.as_slice())
    }

    /// Sign a response over `@authority @path content-type repr-digest` with
    /// Ed25519 (deterministic - edge-cache safe). Returns the `Signature-Input`
    /// and `Signature` header values, or `None` when there is nothing to
    /// cover: no content type, no digest, or an empty authority.
    pub fn sign_response(
        &self,
        authority: &str,
        path: &str,
        content_type: Option<&str>,
        repr_digest: Option<&str>,
    ) -> (r: Option<(String, String)>)
        ensures
            r is None <==> (content_type is None || repr_digest is None || authority@.len() == 0),
            r matches Some((input, signature)) ==> {
                &&& input@ == "sig1="@ + signature_params()
                &&& signature@ == signature_text(
                    self.key(),
                    signature_base(
                        authority@,
                        path@,
                        content_type.unwrap()@,
                        repr_digest.unwrap()@,
                    ),
                )
            },
    {
        proof {
            use_type_invariant(self);
        }
        let (ct, rd) = match (content_type, repr_digest) {
            (Some(ct), Some(rd)) => (ct, rd),
            _ => {
                return None;
            },
        };
        if authority.is_empty() {
            return None;
        }
        let mut base = String::from_str("\"@authority\": ");
        base.append(authority);
        base.append("\n\"@path\": ");
        base.append(path);
        base.append("\n\"content-type\": ");
        base.append(ct);
        base.append("\n\"repr-digest\": ");
        base.append(rd);
        base.append("\n\"@signature-params\": ");
        base.append(self.sig_params.as_str());
        let sig = ed25519_sign(&self.seed, base.as_str().as_bytes());
        let sig_b64 = encode_b64_standard(&sig);
        let mut value = String::from_str("sig1=:");
        value.append(sig_b64.as_str());
        value.append(":");
        Some((String::from_str(self.sig_input.as_str()), value))
    }
}

/// Signing is deterministic (no nonce, no `created` time), so signatures stay
/// valid in the edge cache, and replicas sharing a seed agree: signers holding
/// the same key publish the same JWK and sign the same authority, path,
/// content type and digest identically.
pub proof fn lemma_same_key_same_signatures(
    a: Signer,
    b: Signer,
    authority: Seq<char>,
    path: Seq<char>,
    content_type: Seq<char>,
    repr_digest: Seq<char>,
)
    requires
        a.key() == b.key(),
    ensures
        jwk_text(b64_url_no_pad(ed25519_public(a.key()))) == jwk_text(
            b64_url_no_pad(ed25519_public(b.key())),
        ),
        signature_text(a.key(), signature_base(authority, path, content_type, repr_digest))
            == signature_text(b.key(), signature_base(authority, path, content_type, repr_digest)),
{
}

/// The published JWK pins the verification key: signers that publish the same
/// JWK have the same public key (its `x` decodes to exactly one key).
pub proof fn lemma_jwk_determines_public_key(a: Signer, b: Signer)
    requires
        jwk_text(b64_url_no_pad(ed25519_public(a.key()))) == jwk_text(
            b64_url_no_pad(ed25519_public(b.key())),
        ),
    ensures
        ed25519_public(a.key()) == ed25519_public(b.key()),
{
    let xa = b64_url_no_pad(ed25519_public(a.key()));
    let xb = b64_url_no_pad(ed25519_public(b.key()));
    let p = "{\"kty\":\"OKP\",\"crv\":\"Ed25519\",\"x\":\""@;
    let q = "\",\"use\":\"sig\",\"alg\":\"EdDSA\",\"kid\":\"https://robertshalders.com/.well-known/http-msg-sig.jwk\"}"@;
    assert(jwk_text(xa) == p + xa + q);
    assert(jwk_text(xb) == p + xb + q);
    assert(xa.len() == xb.len());
    assert((p + xa + q).subrange(p.len() as int, (p.len() + xa.len()) as int) =~= xa);
    assert((p + xb + q).subrange(p.len() as int, (p.len() + xb.len()) as int) =~= xb);
    lemma_b64_url_no_pad_injective(ed25519_public(a.key()), ed25519_public(b.key()));
}

/// The secret key that a seed text holds: after trimming white space, the
/// standard base64 of exactly 32 bytes.
pub open spec fn seed_from_text(text: Seq<char>) -> Option<Seq<u8>> {
    if exists|b: Seq<u8>| b.len() == 32 && b64_standard(b) == trim(text) {
        Some(choose|b: Seq<u8>| b.len() == 32 && b64_standard(b) == trim(text))
    } else {
        None
    }
}

/// Decodes a seed text: trimmed, standard base64 of exactly 32 bytes.
pub fn seed_from_base64(text: &str) -> (r: Option<[u8; 32]>)
    ensures
        r matches Some(seed) ==> b64_standard(seed@) == trim(text@) && seed_from_text(text@)
            == Some(seed@),
        r is None ==> seed_from_text(text@) is None,
{
    let v = chars_of(text);
    let t = trim_chars(v.as_slice());
    let trimmed = string_of(t.as_slice());
    match decode_b64_standard(trimmed.as_str()) {
        Err(_) => None,
        Ok(bytes) => {
            if bytes.len() != 32 {
                proof {
                    assert forall|b: Seq<u8>| b.len() == 32 implies b64_standard(b) != trim(
                        text@,
                    ) by {
                        if b64_standard(b) == trim(text@) {
                            lemma_b64_standard_same_len(b, bytes@);
                        }
                    }
                }
                return None;
            }
            let mut seed = [0u8; 32];
            let mut i: usize = 0;
            while i < 32
                invariant
                    i <= 32,
                    bytes@.len() == 32,
                    forall|k: int| 0 <= k < i ==> seed@[k] == bytes@[k],
                decreases 32 - i,
            {
                seed[i] = bytes[i];
                i = i + 1;
            }
            assert(seed@ =~= bytes@);
            proof {
                let c = choose|b: Seq<u8>| b.len() == 32 && b64_standard(b) == trim(text@);
                lemma_b64_standard_injective(c, seed@);
            }
            Some(seed)
        },
    }
}

} // verus!
