//! Small text endpoints - robots.txt, humans.txt, RFC 9116 security.txt,
//! Web Key Directory, WebFinger, Global Privacy Control, the uptime probe and
//! the RFC 2324 teapot - and which requests they answer. humans.txt and
//! security.txt also serve as machine-discoverable AGPL §13 "corresponding
//! source" pointers.

use vstd::prelude::*;
use crate::content::str_eq;

verus! {

/// The body of GET /robots.txt.
pub open spec fn robots_text() -> Seq<char> {
    "User-agent: *\nAllow: /\n\nSitemap: https://robertshalders.com/sitemap.xml\n"@
}

/// The body of GET /robots.txt.
pub fn robots_txt() -> (r: &'static str)
    ensures
        r@ == robots_text(),
{
    "User-agent: *\nAllow: /\n\nSitemap: https://robertshalders.com/sitemap.xml\n"
}

/// The body of GET /humans.txt.
pub open spec fn humans_text() -> Seq<char> {
    "/* TEAM */\n  Engineer: Robert Shalders\n  Site: https://robertshalders.com\n  GitHub: https://github.com/ICreateThunder\n\n/* SITE */\n  Stack: Rust · Axum · Maud · HTMX · Tailwind (MASH)\n  Source: https://github.com/ICreateThunder/profile\n  License: AGPL-3.0-or-later\n"@
}

/// The body of GET /humans.txt.
pub fn humans_txt() -> (r: &'static str)
    ensures
        r@ == humans_text(),
{
    "/* TEAM */\n  Engineer: Robert Shalders\n  Site: https://robertshalders.com\n  GitHub: https://github.com/ICreateThunder\n\n/* SITE */\n  Stack: Rust · Axum · Maud · HTMX · Tailwind (MASH)\n  Source: https://github.com/ICreateThunder/profile\n  License: AGPL-3.0-or-later\n"
}

/// The body of GET /.well-known/security.txt (RFC 9116).
pub open spec fn security_text() -> Seq<char> {
    "Contact: mailto:robert@shalders.co.uk\nContact: https://github.com/ICreateThunder/profile/security/advisories/new\nExpires: 2027-06-21T00:00:00.000Z\nEncryption: https://keys.openpgp.org/vks/v1/by-fingerprint/1A448CE418BD8D371D12B697418D45B71F57D61F\nPreferred-Languages: en\nCanonical: https://robertshalders.com/.well-known/security.txt\nPolicy: https://github.com/ICreateThunder/profile/blob/main/SECURITY.md\n"@
}

/// The body of GET /.well-known/security.txt (RFC 9116).
pub fn security_txt() -> (r: &'static str)
    ensures
        r@ == security_text(),
{
    "Contact: mailto:robert@shalders.co.uk\nContact: https://github.com/ICreateThunder/profile/security/advisories/new\nExpires: 2027-06-21T00:00:00.000Z\nEncryption: https://keys.openpgp.org/vks/v1/by-fingerprint/1A448CE418BD8D371D12B697418D45B71F57D61F\nPreferred-Languages: en\nCanonical: https://robertshalders.com/.well-known/security.txt\nPolicy: https://github.com/ICreateThunder/profile/blob/main/SECURITY.md\n"
}

/// The body of GET /.well-known/gpc.json (Global Privacy Control): no trackers, nothing sold.
pub open spec fn gpc_text() -> Seq<char> {
    "{\"gpc\":true,\"lastUpdate\":\"2026-06-22\"}"@
}

/// The body of GET /.well-known/gpc.json (Global Privacy Control): no trackers, nothing sold.
pub fn gpc_json() -> (r: &'static str)
    ensures
        r@ == gpc_text(),
{
    "{\"gpc\":true,\"lastUpdate\":\"2026-06-22\"}"
}

/// The body of GET /up, the public uptime probe.
pub open spec fn uptime_text() -> Seq<char> {
    "{\"status\":\"ok\"}"@
}

/// The body of GET /up, the public uptime probe.
pub fn uptime_json() -> (r: &'static str)
    ensures
        r@ == uptime_text(),
{
    "{\"status\":\"ok\"}"
}

/// The body of GET /teapot - RFC 2324 (HTCPCP), answered with 418.
pub open spec fn teapot_body() -> Seq<char> {
    "___\n_,--'   \"`-.\n,-'  _,-.    .`.\n(_,--' `-'\\   |  |     418 I'M A TEAPOT\n`.        `--'  /     RFC 2324 - HTCPCP/1.0\n`--.________,'      The requested entity body is short and stout.\n"@
}

/// The body of GET /teapot - RFC 2324 (HTCPCP), answered with 418.
pub fn teapot_text() -> (r: &'static str)
    ensures
        r@ == teapot_body(),
{
    "___\n_,--'   \"`-.\n,-'  _,-.    .`.\n(_,--' `-'\\   |  |     418 I'M A TEAPOT\n`.        `--'  /     RFC 2324 - HTCPCP/1.0\n`--.________,'      The requested entity body is short and stout.\n"
}

/// The JRD of the site owner (RFC 7033): `rel="me"` identity links and the profile page.
pub open spec fn webfinger_document() -> Seq<char> {
    "{\"subject\":\"acct:robert@robertshalders.com\",\"aliases\":[\"https://robertshalders.com\",\"https://github.com/ICreateThunder\"],\"links\":[{\"rel\":\"http://webfinger.net/rel/profile-page\",\"type\":\"text/html\",\"href\":\"https://robertshalders.com/profile\"},{\"rel\":\"me\",\"href\":\"https://github.com/ICreateThunder\"},{\"rel\":\"me\",\"href\":\"https://www.linkedin.com/in/robertshalders/\"}]}"@
}

/// The JRD of the site owner (RFC 7033): `rel="me"` identity links and the profile page.
pub fn webfinger_jrd() -> (r: &'static str)
    ensures
        r@ == webfinger_document(),
{
    "{\"subject\":\"acct:robert@robertshalders.com\",\"aliases\":[\"https://robertshalders.com\",\"https://github.com/ICreateThunder\"],\"links\":[{\"rel\":\"http://webfinger.net/rel/profile-page\",\"type\":\"text/html\",\"href\":\"https://robertshalders.com/profile\"},{\"rel\":\"me\",\"href\":\"https://github.com/ICreateThunder\"},{\"rel\":\"me\",\"href\":\"https://www.linkedin.com/in/robertshalders/\"}]}"
}

/// WKD hash of the local-part "robert" (z-base-32 SHA-1, via gpg-wks-client).
pub open spec fn wkd_hash() -> Seq<char> {
    "nmw11xsgscg89kfy1jixeky87rwhn4nx"@
}

/// Web Key Directory lookup, direct (`/.well-known/openpgpkey/hu/{hash}`) and
/// advanced method alike (the domain segment is ignored): the key is served
/// only when the hash is that of the local-part "robert"; other hashes are
/// not found.
pub fn wkd_serves_key(hash: &str) -> (r: bool)
    ensures
        r == (hash@ == wkd_hash()),
{
    str_eq(hash, "nmw11xsgscg89kfy1jixeky87rwhn4nx")
}

/// The resources WebFinger answers for: the two `acct:` addresses of the site
/// owner and the site itself.
pub open spec fn webfinger_knows(resource: Seq<char>) -> bool {
    ||| resource == "acct:robert@robertshalders.com"@
    ||| resource == "acct:robert@shalders.co.uk"@
    ||| resource == "https://robertshalders.com"@
}

/// GET /.well-known/webfinger?resource=… (RFC 7033): the JRD when the
/// `resource` parameter names a known resource, `None` (not found) when it
/// names another or is absent.
pub fn webfinger(resource: Option<&str>) -> (r: Option<&'static str>)
    ensures
        r is Some <==> (resource matches Some(s) && webfinger_knows(s@)),
        r matches Some(body) ==> body@ == webfinger_document(),
{
    match resource {
        None => None,
        Some(s) => {
            if str_eq(s, "acct:robert@robertshalders.com") || str_eq(s, "acct:robert@shalders.co.uk")
                || str_eq(s, "https://robertshalders.com") {
                Some(webfinger_jrd())
            } else {
                None
            }
        },
    }
}

} // verus!
