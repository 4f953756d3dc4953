# portfolio_api

The server behind a personal portfolio and technical blog: server-rendered
pages, RSS and sitemap feeds, small `.well-known` endpoints, and a strict
response-security layer (hash-based Content-Security-Policy, RFC 9530
`Repr-Digest`, Fetch-Metadata isolation, RFC 9421 Ed25519 response
signatures).

## Layout

- `src/` - the library, verified with Verus. Every public function states
  what it returns in its `ensures`; the laws of the library stand as public
  proof functions beside the code they are about.
  - `content` - collections, the publication-date sort key, splitting a source
    file into frontmatter and body, rendering and sanitising the body, and the
    content store (newest-first order, per-collection listings, round-robin
    interleaving, lookup).
  - `feeds` - the RSS 2.0 document and the XML sitemap.
  - `templates` - page metadata, JSON-LD, the per-page head and CSP, and the
    listing helpers.
  - `security` - SHA-256 hashes for CSP sources and the policy text.
  - `httpsec` - Repr-Digest, the Fetch-Metadata decision, and the signer.
  - `meta` - robots/humans/security.txt, WKD, WebFinger, GPC bodies.
  - `codec`, `text` - base64, SHA-256 and Ed25519 through their crates, and
    the string operations the rest is written with.
- `tests/` - tests of the library on concrete values.
- `app/` - the binary: telemetry, reading the CSS, content and keys from disk,
  the Axum router and middleware, and the Maud templates. It hands the library
  plain values and applies what comes back.
