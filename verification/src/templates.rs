//! The data behind every page: SEO / Open Graph metadata, the JSON-LD
//! structured data and the per-page Content-Security-Policy that matches it,
//! and the small text helpers the listings use (collection chips, accent
//! colours, display dates, filter keys, headings).

use vstd::prelude::*;
use crate::content::{str_eq, Article, ContentStore};
use crate::feeds::{site_url, site_url_str};
use crate::security::{content_security_policy, csp_text, sha256_b64, sha256_b64_of};
use crate::text::{
    char_to_uppercase, chars_of, chars_starts_with, contains, join, lowercase, push_chars,
    push_joined, replace_all, replace_chars, split_chars, split_on, starts_with, string_of,
    string_views, to_lowercase, uppercase_char, utf8_len, utf8_len_is,
};

verus! {

/// The site's name.
pub open spec fn site_name() -> Seq<char> {
    "Robert Shalders"@
}

/// Default social-share card for pages without their own image (raster - social
/// platforms do not render SVG `og:image`).
pub open spec fn default_og_image() -> Seq<char> {
    "/static/images/og-default.png"@
}

/// Per-article metadata that drives `og:type=article`, the `article:*` tags, and
/// the `BlogPosting` JSON-LD. Absent on non-article pages.
pub struct ArticleMeta {
    pub published: String,
    pub author: String,
    pub section: String,
    pub tags: Vec<String>,
}

/// Page metadata for SEO, Open Graph, and structured data.
pub struct Meta {
    pub title: String,
    pub description: String,
    pub path: String,
    /// Page image (path under `/static` or absolute). Falls back to the site card.
    pub image: Option<String>,
    /// Present on article pages.
    pub article: Option<ArticleMeta>,
}

/// Render context threaded into every page: the inlined CSS, its precomputed
/// CSP hash (computed once at startup), and the content store (so the global
/// command palette can list every page + article).
pub struct Render<'a> {
    pub inline_css: &'a str,
    pub style_hash: &'a str,
    pub content: &'a ContentStore,
}

// ---------------------------------------------------------------------------
// URLs
// ---------------------------------------------------------------------------

/// `path` as an absolute URL: kept when it already names `http://` or
/// `https://`, otherwise put under the site's origin.
pub open spec fn absolute_url(path: Seq<char>) -> Seq<char> {
    if starts_with(path, "http://"@) || starts_with(path, "https://"@) {
        path
    } else {
        site_url() + path
    }
}

/// `path` as an absolute URL.
pub fn abs_url(path: &str) -> (r: String)
    ensures
        r@ == absolute_url(path@),
{
    let v = chars_of(path);
    let http = chars_of("http://");
    let https = chars_of("https://");
    if chars_starts_with(v.as_slice(), http.as_slice()) || chars_starts_with(
        v.as_slice(),
        https.as_slice(),
    ) {
        String::from_str(path)
    } else {
        let mut r = String::from_str(site_url_str());
        r.append(path);
        r
    }
}

// ---------------------------------------------------------------------------
// JSON-LD structured data
// ---------------------------------------------------------------------------

/// The lowercase hexadecimal digit for `n` (0 to 15).
pub open spec fn hex_digit(n: int) -> char {
    if n < 10 {
        (('0' as u32) + n) as char
    } else {
        (('a' as u32) + (n - 10)) as char
    }
}

/// One character inside a JSON string literal as serde_json writes it: `"`
/// and `\` escaped with a backslash, backspace, tab, line feed, form feed and
/// carriage return as `\b \t \n \f \r`, the other control characters below
/// U+0020 as `\u00xx` (lowercase hex), everything else as itself.
pub open spec fn json_escape_char(c: char) -> Seq<char> {
    if c == '"' {
        seq!['\\', '"']
    } else if c == '\\' {
        seq!['\\', '\\']
    } else if c == '\u{8}' {
        seq!['\\', 'b']
    } else if c == '\t' {
        seq!['\\', 't']
    } else if c == '\n' {
        seq!['\\', 'n']
    } else if c == '\u{c}' {
        seq!['\\', 'f']
    } else if c == '\r' {
        seq!['\\', 'r']
    } else if (c as u32) < 0x20 {
        seq!['\\', 'u', '0', '0', hex_digit((c as int) / 16), hex_digit((c as int) % 16)]
    } else {
        seq![c]
    }
}

/// The characters of `s`, escaped for the inside of a JSON string literal.
pub open spec fn json_escape(s: Seq<char>) -> Seq<char>
    decreases s.len(),
{
    if s.len() == 0 {
        Seq::empty()
    } else {
        json_escape_char(s[0]) + json_escape(s.drop_first())
    }
}

/// `s` as a JSON string literal, quotes included, as serde_json writes it.
pub open spec fn json_string(s: Seq<char>) -> Seq<char> {
    seq!['"'] + json_escape(s) + seq!['"']
}

/// `serde_json::Value::String(s).to_string()`: the compact JSON string
/// literal of `s`, escaped as serde_json's `format_escaped_str` does.
#[verifier::external_body]
fn json_quote(s: &str) -> (r: String)
    ensures
        r@ == json_string(s@),
{
    serde_json::Value::String(s.to_owned()).to_string()
}

fn push_json_string(out: &mut String, s: &str)
    ensures
        final(out)@ == old(out)@ + json_string(s@),
{
    let q = json_quote(s);
    out.append(q.as_str());
}

/// The JSON object (keys in serde_json's sorted map order, compact) of a
/// `BlogPosting`.
pub open spec fn blog_posting_json(meta: Meta, a: ArticleMeta, canonical: Seq<char>, og_image: Seq<
    char,
>) -> Seq<char> {
    "{\"@context\":\"https://schema.org\",\"@type\":\"BlogPosting\",\"articleSection\":"@
        + json_string(a.section@) + ",\"author\":{\"@type\":\"Person\",\"name\":"@ + json_string(
        a.author@,
    ) + ",\"url\":\"https://robertshalders.com\"},\"datePublished\":"@ + json_string(a.published@)
        + ",\"description\":"@ + json_string(meta.description@) + ",\"headline\":"@ + json_string(
        meta.title@,
    ) + ",\"image\":"@ + json_string(og_image) + ",\"keywords\":"@ + json_string(
        join(string_views(a.tags@), ", "@),
    ) + ",\"mainEntityOfPage\":"@ + json_string(canonical)
        + ",\"publisher\":{\"@type\":\"Person\",\"name\":\"Robert Shalders\",\"url\":\"https://robertshalders.com\"},\"url\":"@
        + json_string(canonical) + "}"@
}

/// The JSON object of the site-level `WebSite` (with its `Person` author).
pub open spec fn website_json() -> Seq<char> {
    "{\"@context\":\"https://schema.org\",\"@type\":\"WebSite\",\"author\":{\"@type\":\"Person\",\"name\":\"Robert Shalders\",\"url\":\"https://robertshalders.com\"},\"name\":\"Robert Shalders\",\"url\":\"https://robertshalders.com\"}"@
}

/// The JSON-LD structured data for a page: `BlogPosting` on articles,
/// site-level `WebSite` + `Person` elsewhere, with every `</` written `<\/` so
/// the payload can never close the `<script>` element.
pub open spec fn json_ld_text(meta: Meta, canonical: Seq<char>, og_image: Seq<char>) -> Seq<char> {
    let json = match meta.article {
        Some(a) => blog_posting_json(meta, a, canonical, og_image),
        None => website_json(),
    };
    replace_all(json, "</"@, "<\\/"@)
}

/// Build the JSON-LD structured-data blob for this page.
pub fn json_ld(meta: &Meta, canonical: &str, og_image: &str) -> (r: String)
    ensures
        r@ == json_ld_text(*meta, canonical@, og_image@),
{
    let mut json = String::new();
    match &meta.article {
        Some(a) => {
            json.append(
                "{\"@context\":\"https://schema.org\",\"@type\":\"BlogPosting\",\"articleSection\":",
            );
            push_json_string(&mut json, a.section.as_str());
            json.append(",\"author\":{\"@type\":\"Person\",\"name\":");
            push_json_string(&mut json, a.author.as_str());
            json.append(",\"url\":\"https://robertshalders.com\"},\"datePublished\":");
            push_json_string(&mut json, a.published.as_str());
            json.append(",\"description\":");
            push_json_string(&mut json, meta.description.as_str());
            json.append(",\"headline\":");
            push_json_string(&mut json, meta.title.as_str());
            json.append(",\"image\":");
            push_json_string(&mut json, og_image);
            json.append(",\"keywords\":");
            let mut keywords = String::new();
            push_joined(&mut keywords, a.tags.as_slice(), ", ");
            push_json_string(&mut json, keywords.as_str());
            json.append(",\"mainEntityOfPage\":");
            push_json_string(&mut json, canonical);
            json.append(
                ",\"publisher\":{\"@type\":\"Person\",\"name\":\"Robert Shalders\",\"url\":\"https://robertshalders.com\"},\"url\":",
            );
            push_json_string(&mut json, canonical);
            json.append("}");
        },
        None => {
            json.append(
                "{\"@context\":\"https://schema.org\",\"@type\":\"WebSite\",\"author\":{\"@type\":\"Person\",\"name\":\"Robert Shalders\",\"url\":\"https://robertshalders.com\"},\"name\":\"Robert Shalders\",\"url\":\"https://robertshalders.com\"}",
            );
        },
    }
    let v = chars_of(json.as_str());
    let pat = chars_of("</");
    let rep = chars_of("<\\/");
    proof {
        reveal_strlit("</");
    }
    let r = replace_chars(v.as_slice(), pat.as_slice(), rep.as_slice());
    string_of(r.as_slice())
}

// ---------------------------------------------------------------------------
// The page head
// ---------------------------------------------------------------------------

/// What the layout puts in a page's `<head>` and response headers beside the
/// markup itself.
pub struct PageHead {
    /// The canonical URL.
    pub canonical: String,
    /// The absolute URL of the social-share image.
    pub og_image: String,
    /// `article` on article pages, `website` elsewhere.
    pub og_type: &'static str,
    /// The article's author, or the site's name.
    pub author: String,
    /// The JSON-LD payload of the inline `<script>`.
    pub json_ld: String,
    /// The page's Content-Security-Policy.
    pub csp: String,
}

/// The page image, or the default social card.
pub open spec fn image_or_default(meta: Meta) -> Seq<char> {
    match meta.image {
        Some(i) => i@,
        None => default_og_image(),
    }
}

/// The author named in the page's meta tags.
pub open spec fn page_author(meta: Meta) -> Seq<char> {
    match meta.article {
        Some(a) => a.author@,
        None => site_name(),
    }
}

/// Everything the layout derives from a page's metadata: canonical URL,
/// absolute share image, Open Graph type, author, JSON-LD, and a strict
/// per-page CSP whose `script-src`/`style-src` hashes match the inline JSON-LD
/// and stylesheet exactly.
pub fn page_head(meta: &Meta, render: &Render) -> (h: PageHead)
    ensures
        h.canonical@ == site_url() + meta.path@,
        h.og_image@ == absolute_url(image_or_default(*meta)),
        h.og_type@ == (if meta.article is Some {
            "article"@
        } else {
            "website"@
        }),
        h.author@ == page_author(*meta),
        h.json_ld@ == json_ld_text(*meta, h.canonical@, h.og_image@),
        h.csp@ == csp_text(render.style_hash@, sha256_b64_of(h.json_ld@)),
{
    let mut canonical = String::from_str(site_url_str());
    canonical.append(meta.path.as_str());
    let og_image = match &meta.image {
        Some(i) => abs_url(i.as_str()),
        None => abs_url("/static/images/og-default.png"),
    };
    let og_type: &'static str = match &meta.article {
        Some(_) => "article",
        None => "website",
    };
    let author = match &meta.article {
        Some(a) => String::from_str(a.author.as_str()),
        None => String::from_str("Robert Shalders"),
    };
    let json_ld = json_ld(meta, canonical.as_str(), og_image.as_str());
    let script_hash = sha256_b64(json_ld.as_str());
    let csp = content_security_policy(render.style_hash, script_hash.as_str());
    PageHead { canonical, og_image, og_type, author, json_ld, csp }
}

} // verus!

verus! {

/// `</` starts at index `i` of `r`.
pub open spec fn close_tag_at(r: Seq<char>, i: int) -> bool {
    r[i] == '<' && r[i + 1] == '/'
}

proof fn lemma_escape_close_tags(s: Seq<char>)
    ensures
        ({
            let r = replace_all(s, "</"@, "<\\/"@);
            &&& s.len() > 0 ==> r.len() > 0 && r[0] == s[0]
            &&& forall|i: int| 0 <= i && i + 1 < r.len() ==> !#[trigger] close_tag_at(r, i)
        }),
    decreases s.len(),
{
    reveal_strlit("</");
    reveal_strlit("<\\/");
    let pat = "</"@;
    let rep = "<\\/"@;
    let r = replace_all(s, pat, rep);
    if s.len() == 0 {
    } else if crate::text::matches_at(s, pat, 0) {
        let t = s.skip(2);
        lemma_escape_close_tags(t);
        let rt = replace_all(t, pat, rep);
        assert(r == rep + rt);
        assert(s[0] == s.subrange(0, 2)[0]);
        assert(s[0] == '<');
        assert forall|i: int| 0 <= i && i + 1 < r.len() implies !#[trigger] close_tag_at(r, i) by {
            if i >= 3 {
                assert(r[i] == rt[i - 3] && r[i + 1] == rt[i - 2]);
                assert(!close_tag_at(rt, i - 3));
            } else if i == 2 {
                assert(r[i] == '/');
            }
        }
    } else {
        let t = s.drop_first();
        lemma_escape_close_tags(t);
        let rt = replace_all(t, pat, rep);
        assert(r == seq![s[0]] + rt);
        assert forall|i: int| 0 <= i && i + 1 < r.len() implies !#[trigger] close_tag_at(r, i) by {
            if i >= 1 {
                assert(r[i] == rt[i - 1] && r[i + 1] == rt[i]);
                assert(!close_tag_at(rt, i - 1));
            } else {
                assert(r[1] == rt[0]);
                assert(rt[0] == t[0]);
                if s[0] == '<' && s[1] == '/' {
                    assert(s.subrange(0, 2) =~= pat);
                }
            }
        }
    }
}

/// The JSON-LD payload never holds `</`, so it can never close the
/// `<script>` element it is inlined in.
pub proof fn lemma_json_ld_stays_in_script(meta: Meta, canonical: Seq<char>, og_image: Seq<char>)
    ensures
        !contains(json_ld_text(meta, canonical, og_image), "</"@),
{
    let json = match meta.article {
        Some(a) => blog_posting_json(meta, a, canonical, og_image),
        None => website_json(),
    };
    lemma_escape_close_tags(json);
    let r = json_ld_text(meta, canonical, og_image);
    reveal_strlit("</");
    if contains(r, "</"@) {
        let i = choose|i: int| crate::text::matches_at(r, "</"@, i);
        assert(r.subrange(i, i + 2) == "</"@);
        assert(r[i] == r.subrange(i, i + 2)[0]);
        assert(r[i + 1] == r.subrange(i, i + 2)[1]);
        assert(close_tag_at(r, i));
    }
}

} // verus!

verus! {

// ---------------------------------------------------------------------------
// Listing helpers
// ---------------------------------------------------------------------------

/// The value of a hexadecimal digit.
pub open spec fn hex_value(c: char) -> int {
    if '0' <= c && c <= '9' {
        c as int - '0' as int
    } else if 'a' <= c && c <= 'f' {
        c as int - 'a' as int + 10
    } else {
        c as int - 'A' as int + 10
    }
}

/// What the inside of a JSON string literal stands for (RFC 8259, section 7):
/// `\"`, `\\`, `\/`, `\b`, `\f`, `\n`, `\r`, `\t` and `\uXXXX` (outside the
/// surrogate range) decode to the character they name; every other character
/// stands for itself.
pub open spec fn json_unescape(t: Seq<char>) -> Seq<char>
    decreases t.len(),
{
    if t.len() == 0 {
        Seq::empty()
    } else if t[0] == '\\' && t.len() >= 2 {
        let e = t[1];
        if e == 'u' && t.len() >= 6 {
            seq![
                (hex_value(t[2]) * 4096 + hex_value(t[3]) * 256 + hex_value(t[4]) * 16 + hex_value(
                    t[5],
                )) as char,
            ] + json_unescape(t.skip(6))
        } else {
            let c = if e == 'b' {
                '\u{8}'
            } else if e == 't' {
                '\t'
            } else if e == 'n' {
                '\n'
            } else if e == 'f' {
                '\u{c}'
            } else if e == 'r' {
                '\r'
            } else {
                e
            };
            seq![c] + json_unescape(t.skip(2))
        }
    } else {
        seq![t[0]] + json_unescape(t.drop_first())
    }
}

proof fn lemma_json_unescape_char(c: char, r: Seq<char>)
    ensures
        json_unescape(json_escape_char(c) + r) == seq![c] + json_unescape(r),
{
    let t = json_escape_char(c) + r;
    if c == '"' || c == '\\' || c == '\u{8}' || c == '\t' || c == '\n' || c == '\u{c}' || c == '\r' {
        assert(t.skip(2) =~= r);
    } else if (c as u32) < 0x20 {
        let n = c as int;
        assert(t.skip(6) =~= r);
        assert(t[2] == '0' && t[3] == '0');
        assert(t[4] == hex_digit(n / 16) && t[5] == hex_digit(n % 16));
        assert(hex_value(t[4]) == n / 16);
        assert(hex_value(t[5]) == n % 16);
        assert((n / 16) * 16 + n % 16 == n);
        assert((n as char) == c);
    } else {
        assert(t[0] == c);
        assert(t.drop_first() =~= r);
    }
}

/// A string literal decodes back to its string: what serde_json writes for
/// `s` stands for `s`.
pub proof fn lemma_json_escape_round_trip(s: Seq<char>)
    ensures
        json_unescape(json_escape(s)) == s,
    decreases s.len(),
{
    if s.len() > 0 {
        lemma_json_escape_round_trip(s.drop_first());
        lemma_json_unescape_char(s[0], json_escape(s.drop_first()));
        assert(seq![s[0]] + s.drop_first() =~= s);
    }
}

proof fn lemma_escape_char_no_lt(c: char)
    requires
        c != '<',
    ensures
        forall|i: int| 0 <= i < json_escape_char(c).len() ==> json_escape_char(c)[i] != '<',
{
    if (c as u32) < 0x20 {
        let n = c as int;
        assert(0 <= n / 16 < 2 && 0 <= n % 16 < 16);
    }
}

proof fn lemma_replace_skips_prefix(e: Seq<char>, x: Seq<char>)
    requires
        forall|i: int| 0 <= i < e.len() ==> e[i] != '<',
    ensures
        replace_all(e + x, seq!['<', '/'], seq!['<', '\\', '/']) == e + replace_all(
            x,
            seq!['<', '/'],
            seq!['<', '\\', '/'],
        ),
    decreases e.len(),
{
    let pat = seq!['<', '/'];
    let rep = seq!['<', '\\', '/'];
    if e.len() > 0 {
        let t = e + x;
        assert(t[0] == e[0]);
        assert(!crate::text::matches_at(t, pat, 0)) by {
            if crate::text::matches_at(t, pat, 0) {
                assert(t.subrange(0, 2)[0] == t[0]);
            }
        }
        assert(t.drop_first() =~= e.drop_first() + x);
        lemma_replace_skips_prefix(e.drop_first(), x);
        assert(seq![e[0]] + (e.drop_first() + replace_all(x, pat, rep)) =~= e + replace_all(
            x,
            pat,
            rep,
        ));
    } else {
        assert(e + x =~= x);
    }
}

/// The JSON-LD's `</` escaping keeps string values intact: a string literal
/// with every `</` written `<\/` (itself a JSON escape of `/`) still decodes
/// to its string.
pub proof fn lemma_escaped_json_string_round_trip(s: Seq<char>)
    ensures
        json_unescape(replace_all(json_escape(s), "</"@, "<\\/"@)) == s,
    decreases s.len(),
{
    reveal_strlit("</");
    reveal_strlit("<\\/");
    let pat = seq!['<', '/'];
    let rep = seq!['<', '\\', '/'];
    assert("</"@ =~= pat);
    assert("<\\/"@ =~= rep);
    if s.len() == 0 {
        assert(json_escape(s) =~= Seq::<char>::empty());
    } else {
        let s1 = s.drop_first();
        let j1 = json_escape(s1);
        if s[0] != '<' {
            let e = json_escape_char(s[0]);
            lemma_escaped_json_string_round_trip(s1);
            lemma_escape_char_no_lt(s[0]);
            lemma_replace_skips_prefix(e, j1);
            lemma_json_unescape_char(s[0], replace_all(j1, pat, rep));
            assert(seq![s[0]] + s1 =~= s);
        } else if s.len() >= 2 && s[1] == '/' {
            let s2 = s.skip(2);
            assert(s1.drop_first() =~= s2);
            let j = json_escape(s);
            assert(j =~= seq!['<', '/'] + json_escape(s2));
            assert(crate::text::matches_at(j, pat, 0)) by {
                assert(j.subrange(0, 2) =~= pat);
            }
            assert(j.skip(2) =~= json_escape(s2));
            lemma_escaped_json_string_round_trip(s2);
            let r2 = replace_all(json_escape(s2), pat, rep);
            let t = rep + r2;
            assert(t.drop_first() =~= seq!['\\', '/'] + r2);
            assert((seq!['\\', '/'] + r2).skip(2) =~= r2);
            assert(json_unescape(t) =~= seq!['<'] + json_unescape(seq!['\\', '/'] + r2));
            assert(seq!['<', '/'] + s2 =~= s);
        } else {
            let j = json_escape(s);
            assert(j =~= seq!['<'] + j1);
            assert(!crate::text::matches_at(j, pat, 0)) by {
                if crate::text::matches_at(j, pat, 0) {
                    assert(j.subrange(0, 2)[1] == j[1]);
                    assert(s1.len() > 0);
                    assert(j1 =~= json_escape_char(s1[0]) + json_escape(s1.drop_first()));
                    assert(j[1] == json_escape_char(s1[0])[0]);
                }
            }
            assert(j.drop_first() =~= j1);
            lemma_escaped_json_string_round_trip(s1);
            let r1 = replace_all(j1, pat, rep);
            assert((seq!['<'] + r1).drop_first() =~= r1);
            assert(seq!['<'] + s1 =~= s);
        }
    }
}

/// `s` with its first character uppercased.
pub open spec fn capitalised(s: Seq<char>) -> Seq<char> {
    if s.len() == 0 {
        Seq::empty()
    } else {
        uppercase_char(s[0]) + s.drop_first()
    }
}

/// `s` with its first character uppercased.
pub fn capitalise(s: &str) -> (r: String)
    ensures
        r@ == capitalised(s@),
{
    let v = chars_of(s);
    if v.len() == 0 {
        return String::new();
    }
    let mut r = char_to_uppercase(v[0]);
    push_chars(&mut r, crate::text::slice_chars(v.as_slice(), 1, v.len()).as_slice());
    assert(v@.subrange(1, v@.len() as int) =~= v@.drop_first());
    r
}

/// Per-collection tag colours (Tailwind classes). Deliberately chosen from
/// families *not* used elsewhere on the site and spread across the hue wheel;
/// all `-400` shades, above 4.5:1 contrast on black.
pub open spec fn chip_classes(collection: Seq<char>) -> Seq<char> {
    if collection == "newsletters"@ {
        "text-orange-400 border-orange-400/30"@
    } else if collection == "projects"@ {
        "text-lime-400 border-lime-400/30"@
    } else if collection == "resources"@ {
        "text-fuchsia-400 border-fuchsia-400/30"@
    } else if collection == "tricks"@ {
        "text-rose-400 border-rose-400/30"@
    } else {
        "text-neutral-400 border-neutral-400/30"@
    }
}

/// The chip classes of a collection.
pub fn chip_color(collection: &str) -> (r: &'static str)
    ensures
        r@ == chip_classes(collection@),
{
    if str_eq(collection, "newsletters") {
        "text-orange-400 border-orange-400/30"
    } else if str_eq(collection, "projects") {
        "text-lime-400 border-lime-400/30"
    } else if str_eq(collection, "resources") {
        "text-fuchsia-400 border-fuchsia-400/30"
    } else if str_eq(collection, "tricks") {
        "text-rose-400 border-rose-400/30"
    } else {
        "text-neutral-400 border-neutral-400/30"
    }
}

/// The accent colour of a collection for generated art (matches its chip).
pub open spec fn accent_of(collection: Seq<char>) -> Seq<char> {
    if collection == "newsletters"@ {
        "#fb923c"@
    } else if collection == "projects"@ {
        "#a3e635"@
    } else if collection == "resources"@ {
        "#e879f9"@
    } else if collection == "tricks"@ {
        "#fb7185"@
    } else {
        "#2dd4bf"@
    }
}

/// Tailwind accent hex per collection (matches `chip_color`), for generated art.
pub fn accent_hex(collection: &str) -> (r: &'static str)
    ensures
        r@ == accent_of(collection@),
{
    if str_eq(collection, "newsletters") {
        "#fb923c"
    } else if str_eq(collection, "projects") {
        "#a3e635"
    } else if str_eq(collection, "resources") {
        "#e879f9"
    } else if str_eq(collection, "tricks") {
        "#fb7185"
    } else {
        "#2dd4bf"
    }
}

/// The separator of displayed dates: a middle dot.
pub open spec fn date_dot() -> Seq<char> {
    seq!['\u{b7}']
}

/// A `published` date as UK `dd·mm·yyyy`: `yyyy-mm-dd` (first piece four bytes
/// long) is reordered, `dd-mm-yyyy` kept in order; anything without exactly
/// three pieces is shown as written.
pub open spec fn display_date(published: Seq<char>) -> Seq<char> {
    let p = split_on(published, '-');
    if p.len() == 3 {
        if utf8_len(p[0]) == 4 {
            p[2] + date_dot() + p[1] + date_dot() + p[0]
        } else {
            p[0] + date_dot() + p[1] + date_dot() + p[2]
        }
    } else {
        published
    }
}

/// Display a `published` date as UK `dd·mm·yyyy`. Accepts the `dd-mm-yyyy`
/// authoring convention or ISO `yyyy-mm-dd` (detected by the four-digit year).
pub fn format_date(published: &str) -> (r: String)
    ensures
        r@ == display_date(published@),
{
    let v = chars_of(published);
    let p = split_chars(v.as_slice(), '-');
    if p.len() == 3 {
        let (d, m, y) = if utf8_len_is(p[0].as_slice(), 4) {
            (2usize, 1usize, 0usize)
        } else {
            (0usize, 1usize, 2usize)
        };
        let mut r = String::new();
        push_chars(&mut r, p[d].as_slice());
        crate::text::push_char(&mut r, '\u{b7}');
        push_chars(&mut r, p[m].as_slice());
        crate::text::push_char(&mut r, '\u{b7}');
        push_chars(&mut r, p[y].as_slice());
        assert(r@ =~= display_date(published@));
        r
    } else {
        String::from_str(published)
    }
}

/// The text the client-side article filter searches: title, collection, tags
/// and description, lowercased.
pub open spec fn search_text(a: Article) -> Seq<char> {
    let base = a.meta.title@ + " "@ + a.collection@ + " "@ + join(string_views(a.meta.tags@), " "@);
    lowercase(
        match a.meta.description {
            Some(d) => base + " "@ + d@,
            None => base,
        },
    )
}

/// Lowercased haystack for the client-side article filter (title, collection,
/// tags, description).
pub fn search_key(a: &Article) -> (r: String)
    ensures
        r@ == search_text(*a),
{
    let mut s = String::from_str(a.meta.title.as_str());
    s.append(" ");
    s.append(a.collection.as_str());
    s.append(" ");
    push_joined(&mut s, a.meta.tags.as_slice(), " ");
    match &a.meta.description {
        Some(d) => {
            s.append(" ");
            s.append(d.as_str());
        },
        None => {},
    }
    to_lowercase(s.as_str())
}

/// The image a compact list card shows: the square thumbnail, else the
/// banner; `None` when the article has neither (the card then draws a
/// generated cover).
pub fn card_thumbnail(a: &Article) -> (r: Option<&str>)
    ensures
        match a.meta.thumbnail {
            Some(t) => r matches Some(x) && x@ == t@,
            None => match a.meta.image {
                Some(i) => r matches Some(x) && x@ == i@,
                None => r is None,
            },
        },
{
    match &a.meta.thumbnail {
        Some(t) => Some(t.as_str()),
        None => match &a.meta.image {
            Some(i) => Some(i.as_str()),
            None => None,
        },
    }
}

/// The `aria-current` value of a navigation link: `page` on the link to the
/// current resource, none elsewhere.
pub fn aria_current(resource: &str, current: &str) -> (r: Option<&'static str>)
    ensures
        r is Some <==> resource@ == current@,
        r matches Some(x) ==> x@ == "page"@,
{
    proof {
        reveal_strlit("page");
    }
    if str_eq(resource, current) {
        Some("page")
    } else {
        None
    }
}

/// Whether a link leaves the site (an absolute `http`/`https` URL), and so
/// opens in a new tab.
pub fn is_external_link(href: &str) -> (r: bool)
    ensures
        r == starts_with(href@, "http"@),
{
    let v = chars_of(href);
    let p = chars_of("http");
    chars_starts_with(v.as_slice(), p.as_slice())
}

/// The filter key of a command-palette entry: its label and keywords,
/// lowercased.
pub fn command_key(label: &str, keys: &str) -> (r: String)
    ensures
        r@ == lowercase(label@ + " "@ + keys@),
{
    let mut s = String::from_str(label);
    s.append(" ");
    s.append(keys);
    to_lowercase(s.as_str())
}

/// The listing heading: `Articles` on the all-articles page, else the
/// collection's name capitalised.
pub fn listing_heading(active: &str) -> (r: String)
    ensures
        r@ == (if active@ == "articles"@ {
            "Articles"@
        } else {
            capitalised(active@)
        }),
{
    if str_eq(active, "articles") {
        String::from_str("Articles")
    } else {
        capitalise(active)
    }
}

/// How many of a listing's articles are shown as featured cards: the first
/// four (or all, when there are fewer).
pub fn featured_count(n: usize) -> (r: usize)
    ensures
        r == (if n < 4 {
            n
        } else {
            4
        }),
{
    if n < 4 {
        n
    } else {
        4
    }
}

// ---------------------------------------------------------------------------
// Page metadata
// ---------------------------------------------------------------------------

/// The metadata of a page with no image and no article.
pub open spec fn plain_meta(m: Meta, title: Seq<char>, description: Seq<char>, path: Seq<char>) -> bool {
    &&& m.title@ == title
    &&& m.description@ == description
    &&& m.path@ == path
    &&& m.image is None
    &&& m.article is None
}

fn simple_meta(title: &str, description: &str, path: &str) -> (m: Meta)
    ensures
        plain_meta(m, title@, description@, path@),
{
    Meta {
        title: String::from_str(title),
        description: String::from_str(description),
        path: String::from_str(path),
        image: None,
        article: None,
    }
}

/// GET / - landing page metadata.
pub fn home_meta() -> (m: Meta)
    ensures
        plain_meta(
            m,
            "Shalders' Site"@,
            "Software engineer focused on distributed systems, embedded Rust, and high-performance computing."@,
            "/"@,
        ),
{
    simple_meta(
        "Shalders' Site",
        "Software engineer focused on distributed systems, embedded Rust, and high-performance computing.",
        "/",
    )
}

/// GET /profile - profile page metadata.
pub fn profile_meta() -> (m: Meta)
    ensures
        plain_meta(
            m,
            "Robert Shalders - Profile"@,
            "Robert Shalders - software engineer: high-performance systems, fault-tolerant distributed services, embedded firmware, and quality-of-life apps. Rust by choice, Python as appropriate."@,
            "/profile"@,
        ),
{
    simple_meta(
        "Robert Shalders - Profile",
        "Robert Shalders - software engineer: high-performance systems, fault-tolerant distributed services, embedded firmware, and quality-of-life apps. Rust by choice, Python as appropriate.",
        "/profile",
    )
}

/// GET /articles - all-articles page metadata.
pub fn articles_meta() -> (m: Meta)
    ensures
        plain_meta(
            m,
            "Robert Shalders - Articles"@,
            "Technical articles on distributed systems, Rust, infrastructure, and more."@,
            "/articles"@,
        ),
{
    simple_meta(
        "Robert Shalders - Articles",
        "Technical articles on distributed systems, Rust, infrastructure, and more.",
        "/articles",
    )
}

/// 404 page metadata.
pub fn not_found_meta() -> (m: Meta)
    ensures
        plain_meta(
            m,
            "404 - Not Found"@,
            "The page you're looking for doesn't exist."@,
            "/error"@,
        ),
{
    simple_meta("404 - Not Found", "The page you're looking for doesn't exist.", "/error")
}

/// GET /{collection} - one collection's page metadata.
pub fn collection_meta(collection: &str) -> (m: Meta)
    ensures
        plain_meta(
            m,
            "Robert Shalders - "@ + capitalised(collection@),
            "Articles in the "@ + collection@ + " collection."@,
            "/"@ + collection@,
        ),
{
    let mut title = String::from_str("Robert Shalders - ");
    let cap = capitalise(collection);
    title.append(cap.as_str());
    let mut description = String::from_str("Articles in the ");
    description.append(collection);
    description.append(" collection.");
    let mut path = String::from_str("/");
    path.append(collection);
    Meta { title, description, path, image: None, article: None }
}

fn copy_strings(v: &[String]) -> (r: Vec<String>)
    ensures
        string_views(r@) == string_views(v@),
{
    let mut r: Vec<String> = Vec::new();
    let mut i: usize = 0;
    while i < v.len()
        invariant
            i <= v@.len(),
            string_views(r@) == string_views(v@.take(i as int)),
        decreases v@.len() - i,
    {
        let c = String::from_str(v[i].as_str());
        assert(c@ == v@[i as int]@);
        let ghost r0 = r@;
        r.push(c);
        assert(string_views(r@) =~= string_views(r0).push(c@));
        assert(string_views(v@.take(i + 1)) =~= string_views(v@.take(i as int)).push(v@[i as int]@));
        i = i + 1;
    }
    assert(v@.take(v@.len() as int) =~= v@);
    r
}

fn copy_opt(v: &Option<String>) -> (r: Option<String>)
    ensures
        match (r, *v) {
            (Some(a), Some(b)) => a@ == b@,
            (None, None) => true,
            _ => false,
        },
{
    match v {
        Some(s) => Some(String::from_str(s.as_str())),
        None => None,
    }
}

/// GET /{collection}/{slug} - one article's page metadata: its title and
/// description, its path, its banner image, and the article fields of the
/// Open Graph tags and JSON-LD.
pub fn article_meta(article: &Article) -> (m: Meta)
    ensures
        m.title@ == article.meta.title@ + " - Robert Shalders"@,
        m.description@ == crate::feeds::description_or_empty(*article),
        m.path@ == "/"@ + article.collection@ + "/"@ + article.meta.slug@,
        match (m.image, article.meta.image) {
            (Some(a), Some(b)) => a@ == b@,
            (None, None) => true,
            _ => false,
        },
        m.article matches Some(a) && a.published@ == article.meta.published@ && a.author@
            == article.meta.author@ && a.section@ == article.collection@ && string_views(a.tags@)
            == string_views(article.meta.tags@),
{
    let m = &article.meta;
    let mut title = String::from_str(m.title.as_str());
    title.append(" - Robert Shalders");
    let description = match &m.description {
        Some(d) => String::from_str(d.as_str()),
        None => String::new(),
    };
    let mut path = String::from_str("/");
    path.append(article.collection.as_str());
    path.append("/");
    path.append(m.slug.as_str());
    Meta {
        title,
        description,
        path,
        image: copy_opt(&m.image),
        article: Some(
            ArticleMeta {
                published: String::from_str(m.published.as_str()),
                author: String::from_str(m.author.as_str()),
                section: String::from_str(article.collection.as_str()),
                tags: copy_strings(m.tags.as_slice()),
            },
        ),
    }
}

} // verus!

verus! {

/// Both authoring conventions display alike: `yyyy-mm-dd` and `dd-mm-yyyy`
/// for the same date both show as `dd·mm·yyyy`.
pub proof fn lemma_display_date_conventions_agree(y: Seq<char>, m: Seq<char>, d: Seq<char>)
    requires
        crate::text::free_of(y, '-'),
        crate::text::free_of(m, '-'),
        crate::text::free_of(d, '-'),
        utf8_len(y) == 4,
        utf8_len(d) != 4,
    ensures
        display_date(crate::content::iso_date(y, m, d)) == d + date_dot() + m + date_dot() + y,
        display_date(crate::content::uk_date(y, m, d)) == d + date_dot() + m + date_dot() + y,
{
    crate::text::lemma_split_three(y, m, d, '-');
    crate::text::lemma_split_three(d, m, y, '-');
}

} // verus!
