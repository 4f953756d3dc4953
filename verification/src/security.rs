//! Content-Security-Policy construction. The CSP is hash-based (not nonce-based)
//! so it stays deterministic per URL and therefore edge-cacheable: the inline
//! `<style>` is constant (its hash is computed once at startup), and the inline
//! JSON-LD `<script>` hash is computed per page. Both are `sha256-…` source
//! expressions - no `unsafe-inline`, no `unsafe-eval`.

use vstd::prelude::*;
use crate::codec::{
    b64_standard, encode_b64_standard, is_b64_standard_char, lemma_b64_standard_alphabet, sha256,
    sha256_digest,
};
use crate::text::{contains, matches_at};

verus! {

/// Base64 (standard, padded) of the SHA-256 of the UTF-8 bytes of `s`.
pub open spec fn sha256_b64_of(s: Seq<char>) -> Seq<char> {
    b64_standard(sha256(vstd::utf8::encode_utf8(s)))
}

/// Base64 SHA-256 of `input`, formatted for a CSP `sha256-…` source expression.
pub fn sha256_b64(input: &str) -> (r: String)
    ensures
        r@ == sha256_b64_of(input@),
{
    let digest = sha256_digest(input.as_bytes());
    encode_b64_standard(&digest)
}

/// The policy text, around the two hashes.
pub open spec fn csp_text(style_hash: Seq<char>, script_hash: Seq<char>) -> Seq<char> {
    "default-src 'none'; script-src 'self' 'sha256-"@ + script_hash + "'; style-src 'sha256-"@
        + style_hash + "'; img-src 'self' data:; font-src 'self'; connect-src 'self'; base-uri 'none'; form-action 'self'; frame-ancestors 'none'"@
}

/// Build the Content-Security-Policy for an HTML document, given the base64
/// SHA-256 hashes of the inline `<style>` and inline JSON-LD `<script>`.
///
/// htmx is self-hosted (`script-src 'self'`) and our usage needs no
/// `unsafe-eval`. There are no inline `style=`/`on*=` attributes in the markup,
/// so `style-src` carries only the stylesheet hash.
pub fn content_security_policy(style_hash: &str, script_hash: &str) -> (r: String)
    ensures
        r@ == csp_text(style_hash@, script_hash@),
{
    let mut r = String::from_str("default-src 'none'; script-src 'self' 'sha256-");
    r.append(script_hash);
    r.append("'; style-src 'sha256-");
    r.append(style_hash);
    r.append(
        "'; img-src 'self' data:; font-src 'self'; connect-src 'self'; base-uri 'none'; form-action 'self'; frame-ancestors 'none'",
    );
    r
}

/// Every `-` in `s` is preceded by six characters of `s` that do not spell
/// `unsafe`: no `unsafe-…` keyword can occur in `s`.
pub open spec fn dash_safe(s: Seq<char>) -> bool {
    forall|j: int|
        0 <= j < s.len() && #[trigger] s[j] == '-' ==> 6 <= j && s.subrange(j - 6, j) != "unsafe"@
}

proof fn lemma_dash_safe_concat(a: Seq<char>, b: Seq<char>)
    requires
        dash_safe(a),
        dash_safe(b),
    ensures
        dash_safe(a + b),
{
    let s = a + b;
    assert forall|j: int| 0 <= j < s.len() && #[trigger] s[j] == '-' implies 6 <= j && s.subrange(
        j - 6,
        j,
    ) != "unsafe"@ by {
        if j < a.len() {
            assert(a[j] == '-');
            assert(s.subrange(j - 6, j) =~= a.subrange(j - 6, j));
        } else {
            let k = j - a.len();
            assert(b[k] == '-');
            assert(s.subrange(j - 6, j) =~= b.subrange(k - 6, k));
        }
    }
}

proof fn lemma_no_dash_safe(h: Seq<char>)
    requires
        forall|i: int| 0 <= i < h.len() ==> is_b64_standard_char(#[trigger] h[i]),
    ensures
        dash_safe(h),
{
}

proof fn lemma_dash_safe_no_keyword(s: Seq<char>, word: Seq<char>)
    requires
        dash_safe(s),
        word.len() > 7,
        word.subrange(0, 7) == "unsafe-"@,
    ensures
        !contains(s, word),
{
    reveal_strlit("unsafe-");
    reveal_strlit("unsafe");
    if contains(s, word) {
        let i = choose|i: int| matches_at(s, word, i);
        assert(s.subrange(i, i + word.len()) == word);
        assert(s[i + 6] == word.subrange(0, 7)[6]);
        assert(s.subrange(i, i + 6) =~= word.subrange(0, 7).subrange(0, 6));
        assert(word.subrange(0, 7).subrange(0, 6) =~= "unsafe"@);
    }
}

proof fn lemma_policy_head_dash_safe()
    ensures
        dash_safe("default-src 'none'; script-src 'self' 'sha256-"@),
{
    reveal_strlit("unsafe");
    reveal_strlit("default-src 'none'; script-src 'self' 'sha256-");
    let s = "default-src 'none'; script-src 'self' 'sha256-"@;
    assert(forall|j: int| 0 <= j < s.len() && s[j] == '-' ==> j == 7 || j == 26 || j == 45);
    assert(s.subrange(1, 7)[0] != "unsafe"@[0]);
    assert(s.subrange(20, 26)[0] != "unsafe"@[0]);
    assert(s.subrange(39, 45)[0] != "unsafe"@[0]);
}

proof fn lemma_policy_middle_dash_safe()
    ensures
        dash_safe("'; style-src 'sha256-"@),
{
    reveal_strlit("unsafe");
    reveal_strlit("'; style-src 'sha256-");
    let s = "'; style-src 'sha256-"@;
    assert(forall|j: int| 0 <= j < s.len() && s[j] == '-' ==> j == 8 || j == 20);
    assert(s.subrange(2, 8)[0] != "unsafe"@[0]);
    assert(s.subrange(14, 20)[0] != "unsafe"@[0]);
}

proof fn lemma_policy_tail_dash_safe()
    ensures
        dash_safe("'; img-src 'self' data:; font-src 'self'; connect-src 'self'; base-uri 'none'; form-action 'self'; frame-ancestors 'none'"@),
{
    reveal_strlit("unsafe");
    reveal_strlit("'; img-src 'self' data:; font-src 'self'; connect-src 'self'; base-uri 'none'; form-action 'self'; frame-ancestors 'none'");
    let s = "'; img-src 'self' data:; font-src 'self'; connect-src 'self'; base-uri 'none'; form-action 'self'; frame-ancestors 'none'"@;
    assert(forall|j: int| 0 <= j < s.len() && s[j] == '-' ==> j == 6 || j == 29 || j == 49 || j == 66 || j == 83 || j == 104);
    assert(s.subrange(0, 6)[0] != "unsafe"@[0]);
    assert(s.subrange(23, 29)[0] != "unsafe"@[0]);
    assert(s.subrange(43, 49)[0] != "unsafe"@[0]);
    assert(s.subrange(60, 66)[0] != "unsafe"@[0]);
    assert(s.subrange(77, 83)[0] != "unsafe"@[0]);
    assert(s.subrange(98, 104)[0] != "unsafe"@[0]);
}

/// The policy is locked down whatever the hashes: it denies by default and
/// forbids framing, and when the hashes are base64 text (as [`sha256_b64`]
/// gives), it holds no `unsafe-inline` and no `unsafe-eval`.
pub proof fn lemma_csp_is_strict(style_hash: Seq<char>, script_hash: Seq<char>)
    ensures
        contains(csp_text(style_hash, script_hash), "default-src 'none'"@),
        contains(csp_text(style_hash, script_hash), "frame-ancestors 'none'"@),
        (forall|i: int| 0 <= i < style_hash.len() ==> is_b64_standard_char(#[trigger] style_hash[i]))
            && (forall|i: int|
            0 <= i < script_hash.len() ==> is_b64_standard_char(#[trigger] script_hash[i]))
            ==> !contains(csp_text(style_hash, script_hash), "unsafe-inline"@) && !contains(
            csp_text(style_hash, script_hash),
            "unsafe-eval"@,
        ),
{
    let l1 = "default-src 'none'; script-src 'self' 'sha256-"@;
    let l2 = "'; style-src 'sha256-"@;
    let l3 = "'; img-src 'self' data:; font-src 'self'; connect-src 'self'; base-uri 'none'; form-action 'self'; frame-ancestors 'none'"@;
    let s = csp_text(style_hash, script_hash);
    reveal_strlit("default-src 'none'; script-src 'self' 'sha256-");
    reveal_strlit("'; img-src 'self' data:; font-src 'self'; connect-src 'self'; base-uri 'none'; form-action 'self'; frame-ancestors 'none'");
    reveal_strlit("default-src 'none'");
    reveal_strlit("frame-ancestors 'none'");
    assert(s.subrange(0, 18) =~= "default-src 'none'"@);
    assert(matches_at(s, "default-src 'none'"@, 0));
    let e = s.len() - 22;
    assert(s.subrange(e, e + 22) =~= "frame-ancestors 'none'"@);
    assert(matches_at(s, "frame-ancestors 'none'"@, e));
    if (forall|i: int| 0 <= i < style_hash.len() ==> is_b64_standard_char(#[trigger] style_hash[i]))
        && (forall|i: int| 0 <= i < script_hash.len() ==> is_b64_standard_char(#[trigger] script_hash[i])) {
        lemma_policy_head_dash_safe();
        lemma_policy_middle_dash_safe();
        lemma_policy_tail_dash_safe();
        lemma_no_dash_safe(style_hash);
        lemma_no_dash_safe(script_hash);
        lemma_dash_safe_concat(l1, script_hash);
        lemma_dash_safe_concat(l1 + script_hash, l2);
        lemma_dash_safe_concat(l1 + script_hash + l2, style_hash);
        lemma_dash_safe_concat(l1 + script_hash + l2 + style_hash, l3);
        reveal_strlit("unsafe-inline");
        reveal_strlit("unsafe-eval");
        reveal_strlit("unsafe-");
        assert("unsafe-inline"@.subrange(0, 7) =~= "unsafe-"@);
        assert("unsafe-eval"@.subrange(0, 7) =~= "unsafe-"@);
        lemma_dash_safe_no_keyword(s, "unsafe-inline"@);
        lemma_dash_safe_no_keyword(s, "unsafe-eval"@);
    }
}

/// The hashes that [`sha256_b64`] gives are base64 text.
pub proof fn lemma_sha256_b64_alphabet(s: Seq<char>)
    ensures
        forall|i: int|
            0 <= i < sha256_b64_of(s).len() ==> is_b64_standard_char(#[trigger] sha256_b64_of(s)[i]),
{
    lemma_b64_standard_alphabet(sha256(vstd::utf8::encode_utf8(s)));
}

} // verus!
