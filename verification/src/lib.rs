//! The portfolio site's library: content loading and ordering, feeds, page
//! metadata and structured data, the Content-Security-Policy, and the HTTP
//! security decisions (Repr-Digest, Fetch-Metadata, RFC 9421 signatures).
//! The HTTP server around it lives outside this crate.

pub mod codec;
pub mod content;
pub mod error;
pub mod feeds;
pub mod httpsec;
pub mod meta;
pub mod security;
pub mod templates;
pub mod text;

use vstd::prelude::*;
use content::ContentStore;
use httpsec::Signer;
use templates::Render;

verus! {

/// Shared application state.
pub struct AppState {
    /// Compiled CSS, loaded once at startup and inlined into every HTML response.
    pub inline_css: String,
    /// Base64 SHA-256 of `inline_css` - the CSP `style-src` hash, precomputed once.
    pub style_hash: String,
    /// All articles loaded from markdown at startup.
    pub content: ContentStore,
    /// Ed25519 signer for RFC 9421 HTTP Message Signatures on responses.
    pub signer: Signer,
}

impl AppState {
    /// State from the compiled CSS, the loaded content and the response
    /// signer; the CSS's CSP hash is computed here, once.
    pub fn new(inline_css: String, content: ContentStore, signer: Signer) -> (s: AppState)
        ensures
            s.inline_css@ == inline_css@,
            s.style_hash@ == security::sha256_b64_of(inline_css@),
            s.content@ == content@,
            s.signer.key() == signer.key(),
    {
        let style_hash = security::sha256_b64(inline_css.as_str());
        AppState { inline_css, style_hash, content, signer }
    }

    /// Render context (inlined CSS + its CSP hash) threaded into the templates.
    pub fn render(&self) -> (r: Render<'_>)
        ensures
            r.inline_css@ == self.inline_css@,
            r.style_hash@ == self.style_hash@,
            r.content@ == self.content@,
    {
        Render {
            inline_css: self.inline_css.as_str(),
            style_hash: self.style_hash.as_str(),
            content: &self.content,
        }
    }
}

/// Whether `path` is `/static` or under it.
pub open spec fn under_static(path: Seq<char>) -> bool {
    path == "/static"@ || text::starts_with(path, "/static/"@)
}

/// Endpoint label for requests that carry no matched route - the nested static
/// file service under `/static`, and the 404 fallback. Each source collapses to
/// one fixed label so a raw URI never widens the metric label set.
pub fn group_unmatched_endpoint(path: &str) -> (r: String)
    ensures
        r@ == (if under_static(path@) {
            "/static"@
        } else {
            "/other"@
        }),
{
    let v = text::chars_of(path);
    let prefix = text::chars_of("/static/");
    if content::str_eq(path, "/static") || text::chars_starts_with(v.as_slice(), prefix.as_slice()) {
        String::from_str("/static")
    } else {
        String::from_str("/other")
    }
}

} // verus!
