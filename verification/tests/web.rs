use base64::Engine;
use ed25519_dalek::Verifier;
use serde_json::Value;
use portfolio_api::content::{default_author, Article, ContentStore, Frontmatter};
use portfolio_api::error::Error;
use portfolio_api::feeds::{rss, sitemap, xml_escape_str};
use portfolio_api::httpsec::{
    fetch_metadata_allows, repr_digest_value, seed_from_base64, skips_digest, Signer,
};
use portfolio_api::meta::{
    gpc_json, humans_txt, robots_txt, security_txt, teapot_text, uptime_json, webfinger,
    wkd_serves_key,
};
use portfolio_api::security::{content_security_policy, sha256_b64};
use portfolio_api::templates::{
    abs_url, accent_hex, aria_current, article_meta, card_thumbnail, is_external_link, articles_meta, capitalise, chip_color, collection_meta,
    command_key, featured_count, format_date, home_meta, json_ld, listing_heading, not_found_meta,
    page_head, profile_meta, search_key, ArticleMeta, Meta, Render,
};
use portfolio_api::{group_unmatched_endpoint, AppState};

fn article(collection: &str, slug: &str, title: &str, published: &str, desc: Option<&str>) -> Article {
    Article {
        meta: Frontmatter {
            title: title.to_string(),
            description: desc.map(|d| d.to_string()),
            slug: slug.to_string(),
            published: published.to_string(),
            tags: vec!["rust".to_string(), "web".to_string()],
            author: default_author(),
            image: None,
            thumbnail: None,
        },
        collection: collection.to_string(),
        html: String::new(),
    }
}

// ---------------------------------------------------------------------------
// Feeds
// ---------------------------------------------------------------------------

#[test]
fn xml_escape_replaces_markup_characters() {
    assert_eq!(xml_escape_str("a & b < c > d"), "a &amp; b &lt; c &gt; d");
    assert_eq!(xml_escape_str("&amp;"), "&amp;amp;");
    assert_eq!(xml_escape_str("plain \"quoted\""), "plain \"quoted\"");
}

#[test]
fn rss_feed_lists_items_escaped() {
    let store = ContentStore::new(vec![article("projects", "p", "A <b> & C", "2026-01-01", Some("x > y"))]);
    let xml = rss(&store);
    assert!(xml.starts_with("<?xml version=\"1.0\" encoding=\"UTF-8\"?>\n<rss version=\"2.0\""));
    assert!(xml.ends_with("  </channel>\n</rss>"));
    assert!(xml.contains(
        "    <item>\n      <title>A &lt;b&gt; &amp; C</title>\n      <link>https://robertshalders.com/projects/p</link>\n      <description>x &gt; y</description>\n      <pubDate>01 Jan 2026 00:00:00 GMT</pubDate>\n      <guid>https://robertshalders.com/projects/p</guid>\n    </item>\n"
    ));
}

#[test]
fn rss_feed_empty_description() {
    let store = ContentStore::new(vec![article("tricks", "t", "T", "01-02-2026", None)]);
    assert!(rss(&store).contains("<description></description>"));
}

#[test]
fn rss_pub_date_is_rfc822_from_either_convention() {
    let store = ContentStore::new(vec![
        article("projects", "iso", "I", "2026-06-21", None),
        article("projects", "uk", "U", "21-06-2026", None),
        article("projects", "leap", "L", "29-02-2024", None),
    ]);
    let xml = rss(&store);
    assert_eq!(xml.matches("<pubDate>21 Jun 2026 00:00:00 GMT</pubDate>").count(), 2);
    assert!(xml.contains("<pubDate>29 Feb 2024 00:00:00 GMT</pubDate>"));
    assert!(!xml.contains("21-06-2026"));
}

#[test]
fn feeds_omit_dates_that_name_no_calendar_day() {
    for bad in ["someday", "2026-13-01", "29-02-2025", "2026-04-31", "00-01-2026"] {
        let store = ContentStore::new(vec![article("tricks", "t", "T", bad, None)]);
        let rss_xml = rss(&store);
        assert!(!rss_xml.contains("<pubDate>"), "{bad}");
        assert!(rss_xml.contains("</description>\n      <guid>"), "{bad}");
        let map = sitemap(&store);
        assert!(!map.contains("<lastmod>"), "{bad}");
        assert!(map.contains("  <url><loc>https://robertshalders.com/tricks/t</loc></url>\n"), "{bad}");
    }
}

#[test]
fn sitemap_lastmod_is_w3c_date() {
    let store = ContentStore::new(vec![article("newsletters", "n", "N", "05-07-2025", None)]);
    assert!(sitemap(&store).contains(
        "  <url><loc>https://robertshalders.com/newsletters/n</loc><lastmod>2025-07-05</lastmod></url>\n"
    ));
}

#[test]
fn sitemap_lists_pages_collections_and_articles() {
    let store = ContentStore::new(vec![article("resources", "r", "R", "2025-05-05", None)]);
    let xml = sitemap(&store);
    for loc in ["/", "/profile", "/articles", "/newsletters", "/projects", "/resources", "/tricks"] {
        assert!(xml.contains(&format!(
            "  <url><loc>https://robertshalders.com{loc}</loc><changefreq>weekly</changefreq></url>\n"
        )));
    }
    assert!(xml.contains(
        "  <url><loc>https://robertshalders.com/resources/r</loc><lastmod>2025-05-05</lastmod></url>\n"
    ));
    assert!(xml.ends_with("</urlset>"));
}

// ---------------------------------------------------------------------------
// CSP and hashing
// ---------------------------------------------------------------------------

#[test]
fn sha256_b64_known_values() {
    assert_eq!(sha256_b64(""), "47DEQpj8HBSa+/TImW+5JCeuQeRkm5NMpJWZG3hSuFU=");
    assert_eq!(sha256_b64("abc"), "ungWv48Bz+pBQUDeXa4iI7ADYaOWF3qctBD/YfIAFa0=");
}

#[test]
fn csp_is_strict_no_unsafe() {
    let csp = content_security_policy(&sha256_b64("body{}"), &sha256_b64("{}"));
    assert!(csp.contains("default-src 'none'"), "CSP={csp}");
    assert!(!csp.contains("unsafe-inline"), "CSP must not allow unsafe-inline: {csp}");
    assert!(!csp.contains("unsafe-eval"), "CSP must not allow unsafe-eval: {csp}");
    assert!(csp.contains("frame-ancestors 'none'"), "CSP={csp}");
}

#[test]
fn csp_exact_text() {
    assert_eq!(
        content_security_policy("STYLE", "SCRIPT"),
        "default-src 'none'; script-src 'self' 'sha256-SCRIPT'; style-src 'sha256-STYLE'; img-src 'self' data:; font-src 'self'; connect-src 'self'; base-uri 'none'; form-action 'self'; frame-ancestors 'none'"
    );
}

// ---------------------------------------------------------------------------
// HTTP security
// ---------------------------------------------------------------------------

#[test]
fn static_assets_are_not_digested() {
    assert!(skips_digest("/static/favicon.svg"));
    assert!(!skips_digest("/static"));
    assert!(!skips_digest("/"));
    assert!(!skips_digest("/articles"));
}

#[test]
fn repr_digest_value_format() {
    assert_eq!(repr_digest_value(b""), "sha-256=:47DEQpj8HBSa+/TImW+5JCeuQeRkm5NMpJWZG3hSuFU=:");
    assert_eq!(repr_digest_value(b"abc"), "sha-256=:ungWv48Bz+pBQUDeXa4iI7ADYaOWF3qctBD/YfIAFa0=:");
}

#[test]
fn fetch_metadata_blocks_cross_site_non_navigation() {
    assert!(!fetch_metadata_allows("GET", Some("cross-site"), Some("no-cors"), Some("image")));
    assert!(fetch_metadata_allows("GET", Some("cross-site"), Some("navigate"), Some("document")));
}

#[test]
fn fetch_metadata_policy_cases() {
    assert!(fetch_metadata_allows("GET", None, None, None));
    assert!(fetch_metadata_allows("POST", Some("same-origin"), None, None));
    assert!(fetch_metadata_allows("GET", Some("same-site"), Some("cors"), None));
    assert!(fetch_metadata_allows("GET", Some("none"), None, None));
    assert!(fetch_metadata_allows("GET", Some("something-new"), None, None));
    assert!(!fetch_metadata_allows("POST", Some("cross-site"), Some("navigate"), Some("document")));
    assert!(!fetch_metadata_allows("GET", Some("cross-site"), Some("navigate"), Some("object")));
    assert!(!fetch_metadata_allows("GET", Some("cross-site"), Some("navigate"), Some("embed")));
    assert!(fetch_metadata_allows("GET", Some("cross-site"), Some("navigate"), None));
    assert!(!fetch_metadata_allows("GET", Some("cross-site"), None, None));
}

fn fixed_signer() -> Signer {
    Signer::new([7u8; 32])
}

#[test]
fn signer_publishes_jwk_of_its_key() {
    let s = fixed_signer();
    let vk = ed25519_dalek::SigningKey::from_bytes(&[7u8; 32]).verifying_key();
    let x = base64::engine::general_purpose::URL_SAFE_NO_PAD.encode(vk.to_bytes());
    assert_eq!(
        s.jwk(),
        format!("{{\"kty\":\"OKP\",\"crv\":\"Ed25519\",\"x\":\"{x}\",\"use\":\"sig\",\"alg\":\"EdDSA\",\"kid\":\"https://robertshalders.com/.well-known/http-msg-sig.jwk\"}}")
    );
    assert_eq!(
        s.fingerprint(),
        base64::engine::general_purpose::URL_SAFE_NO_PAD.encode(&vk.to_bytes()[..8])
    );
}

#[test]
fn repr_digest_and_rfc9421_signature_verify() {
    let s = fixed_signer();
    let jwk: serde_json::Value = serde_json::from_str(s.jwk()).unwrap();
    let x = jwk["x"].as_str().expect("jwk.x");
    let pk: [u8; 32] = base64::engine::general_purpose::URL_SAFE_NO_PAD
        .decode(x)
        .unwrap()
        .try_into()
        .unwrap();
    let vk = ed25519_dalek::VerifyingKey::from_bytes(&pk).unwrap();

    let rd = repr_digest_value(b"<!DOCTYPE html>");
    let ct = "text/html; charset=utf-8";
    let (sig_input, sig_hdr) =
        s.sign_response("robertshalders.com", "/", Some(ct), Some(&rd)).unwrap();
    assert!(rd.starts_with("sha-256=:"), "repr-digest = {rd}");
    let params = sig_input.strip_prefix("sig1=").expect("signature-input prefix");
    let base = format!(
        "\"@authority\": robertshalders.com\n\"@path\": /\n\"content-type\": {ct}\n\"repr-digest\": {rd}\n\"@signature-params\": {params}"
    );
    let sig_b64 = sig_hdr
        .strip_prefix("sig1=:")
        .and_then(|s| s.strip_suffix(':'))
        .expect("signature value format");
    let sig = ed25519_dalek::Signature::from_slice(
        &base64::engine::general_purpose::STANDARD.decode(sig_b64).unwrap(),
    )
    .unwrap();
    vk.verify(base.as_bytes(), &sig)
        .expect("RFC 9421 response signature must verify against the published JWK");
}

#[test]
fn sign_response_skips_when_nothing_to_cover() {
    let s = fixed_signer();
    assert!(s.sign_response("robertshalders.com", "/", None, Some("sha-256=:x:")).is_none());
    assert!(s.sign_response("robertshalders.com", "/", Some("text/html"), None).is_none());
    assert!(s.sign_response("", "/", Some("text/html"), Some("sha-256=:x:")).is_none());
}

#[test]
fn signature_input_value() {
    assert_eq!(
        fixed_signer().signature_input(),
        "sig1=(\"@authority\" \"@path\" \"content-type\" \"repr-digest\");keyid=\"https://robertshalders.com/.well-known/http-msg-sig.jwk\";alg=\"ed25519\""
    );
}

#[test]
fn seed_from_base64_accepts_only_32_bytes() {
    let seed = [9u8; 32];
    let text = base64::engine::general_purpose::STANDARD.encode(seed);
    assert_eq!(seed_from_base64(&format!("  {text}\n")), Some(seed));
    let short = base64::engine::general_purpose::STANDARD.encode([1u8; 31]);
    assert_eq!(seed_from_base64(&short), None);
    assert_eq!(seed_from_base64("not base64!"), None);
    let env = Signer::from_env_value(Some(&text));
    assert_eq!(env.jwk(), Signer::new(seed).jwk());
}

// ---------------------------------------------------------------------------
// Meta endpoints
// ---------------------------------------------------------------------------

#[test]
fn text_endpoints() {
    assert_eq!(robots_txt(), "User-agent: *\nAllow: /\n\nSitemap: https://robertshalders.com/sitemap.xml\n");
    assert!(humans_txt().contains("Source: https://github.com/ICreateThunder/profile"));
    assert!(security_txt().starts_with("Contact: mailto:robert@shalders.co.uk\n"));
    assert!(security_txt().contains("Canonical: https://robertshalders.com/.well-known/security.txt\n"));
    assert_eq!(gpc_json(), "{\"gpc\":true,\"lastUpdate\":\"2026-06-22\"}");
    assert_eq!(uptime_json(), "{\"status\":\"ok\"}");
    assert!(teapot_text().contains("418 I'M A TEAPOT"));
}

#[test]
fn happy_webfinger_known_resource() {
    let jrd = webfinger(Some("acct:robert@robertshalders.com")).unwrap();
    let v: serde_json::Value = serde_json::from_str(jrd).unwrap();
    assert_eq!(v["subject"], "acct:robert@robertshalders.com");
    assert!(webfinger(Some("acct:robert@shalders.co.uk")).is_some());
    assert!(webfinger(Some("https://robertshalders.com")).is_some());
}

#[test]
fn unhappy_webfinger_and_wkd() {
    assert!(webfinger(None).is_none());
    assert!(webfinger(Some("acct:nobody@example.com")).is_none());
    assert!(wkd_serves_key("nmw11xsgscg89kfy1jixeky87rwhn4nx"));
    assert!(!wkd_serves_key("deadbeefdeadbeefdeadbeefdeadbeef"));
}

// ---------------------------------------------------------------------------
// Templates
// ---------------------------------------------------------------------------

#[test]
fn abs_url_keeps_absolute() {
    assert_eq!(abs_url("/static/x.png"), "https://robertshalders.com/static/x.png");
    assert_eq!(abs_url("https://cdn.example/x.png"), "https://cdn.example/x.png");
    assert_eq!(abs_url("http://a/b"), "http://a/b");
}

#[test]
fn json_ld_website_and_blog_posting() {
    let m = home_meta();
    assert_eq!(
        json_ld(&m, "https://robertshalders.com/", "https://robertshalders.com/static/images/og-default.png"),
        "{\"@context\":\"https://schema.org\",\"@type\":\"WebSite\",\"author\":{\"@type\":\"Person\",\"name\":\"Robert Shalders\",\"url\":\"https://robertshalders.com\"},\"name\":\"Robert Shalders\",\"url\":\"https://robertshalders.com\"}"
    );
    let a = article("projects", "p", "Hi </script>", "2026-01-01", Some("d \"q\""));
    let meta = article_meta(&a);
    let ld = json_ld(&meta, "https://robertshalders.com/projects/p", "https://x/i.png");
    assert!(!ld.contains("</"), "{ld}");
    let v: serde_json::Value = serde_json::from_str(&ld).unwrap();
    assert_eq!(v["@type"], "BlogPosting");
    assert_eq!(v["headline"], "Hi </script> - Robert Shalders");
    assert_eq!(v["description"], "d \"q\"");
    assert_eq!(v["keywords"], "rust, web");
    assert_eq!(v["articleSection"], "projects");
    assert_eq!(v["author"]["name"], "Robert Shalders");
}

#[test]
fn json_ld_matches_serde_json_object_text() {
    let a = article("projects", "p", "T", "2026-01-01", Some("D"));
    let meta = article_meta(&a);
    let ld = json_ld(&meta, "C", "I");
    let text = |s: &str| Value::String(s.to_string());
    let person = || {
        let mut p = serde_json::Map::new();
        p.insert("@type".to_string(), text("Person"));
        p.insert("name".to_string(), text("Robert Shalders"));
        p.insert("url".to_string(), text("https://robertshalders.com"));
        Value::Object(p)
    };
    let mut o = serde_json::Map::new();
    o.insert("@context".to_string(), text("https://schema.org"));
    o.insert("@type".to_string(), text("BlogPosting"));
    o.insert("headline".to_string(), text("T - Robert Shalders"));
    o.insert("description".to_string(), text("D"));
    o.insert("datePublished".to_string(), text("2026-01-01"));
    o.insert("author".to_string(), person());
    o.insert("publisher".to_string(), person());
    o.insert("url".to_string(), text("C"));
    o.insert("mainEntityOfPage".to_string(), text("C"));
    o.insert("image".to_string(), text("I"));
    o.insert("articleSection".to_string(), text("projects"));
    o.insert("keywords".to_string(), text("rust, web"));
    let expected = Value::Object(o).to_string();
    assert_eq!(ld, expected);
}

#[test]
fn page_head_article_and_site() {
    let store = ContentStore::new(vec![]);
    let style_hash = sha256_b64("body{}");
    let render = Render { inline_css: "body{}", style_hash: &style_hash, content: &store };
    let h = page_head(&profile_meta(), &render);
    assert_eq!(h.canonical, "https://robertshalders.com/profile");
    assert_eq!(h.og_image, "https://robertshalders.com/static/images/og-default.png");
    assert_eq!(h.og_type, "website");
    assert_eq!(h.author, "Robert Shalders");
    assert_eq!(h.csp, content_security_policy(&style_hash, &sha256_b64(&h.json_ld)));

    let mut a = article("tricks", "t", "T", "2026-01-01", None);
    a.meta.image = Some("/static/t.avif".to_string());
    a.meta.author = "Guest".to_string();
    let h = page_head(&article_meta(&a), &render);
    assert_eq!(h.og_type, "article");
    assert_eq!(h.author, "Guest");
    assert_eq!(h.og_image, "https://robertshalders.com/static/t.avif");
    assert_eq!(h.canonical, "https://robertshalders.com/tricks/t");
}

#[test]
fn page_metadata() {
    assert_eq!(home_meta().title, "Shalders' Site");
    assert_eq!(articles_meta().path, "/articles");
    let m = collection_meta("newsletters");
    assert_eq!(m.title, "Robert Shalders - Newsletters");
    assert_eq!(m.description, "Articles in the newsletters collection.");
    assert_eq!(m.path, "/newsletters");
    let nf = not_found_meta();
    assert_eq!(nf.title, "404 - Not Found");
    assert_eq!(nf.path, "/error");
    let a = article("projects", "p", "T", "2026-01-01", None);
    let am = article_meta(&a);
    assert_eq!(am.title, "T - Robert Shalders");
    assert_eq!(am.description, "");
    assert_eq!(am.path, "/projects/p");
    let art: ArticleMeta = am.article.unwrap();
    assert_eq!(art.section, "projects");
    assert_eq!(art.tags, vec!["rust".to_string(), "web".to_string()]);
    let _unused: Option<Meta> = None;
}

#[test]
fn listing_helpers() {
    assert_eq!(capitalise("projects"), "Projects");
    assert_eq!(capitalise(""), "");
    assert_eq!(capitalise("ßa"), "SSa");
    assert_eq!(chip_color("projects"), "text-lime-400 border-lime-400/30");
    assert_eq!(chip_color("other"), "text-neutral-400 border-neutral-400/30");
    assert_eq!(accent_hex("tricks"), "#fb7185");
    assert_eq!(accent_hex("x"), "#2dd4bf");
    assert_eq!(format_date("2026-01-15"), "15\u{b7}01\u{b7}2026");
    assert_eq!(format_date("15-01-2026"), "15\u{b7}01\u{b7}2026");
    assert_eq!(format_date("someday"), "someday");
    assert_eq!(listing_heading("articles"), "Articles");
    assert_eq!(listing_heading("tricks"), "Tricks");
    assert_eq!(featured_count(2), 2);
    assert_eq!(featured_count(9), 4);
    assert_eq!(command_key("Tips & Tricks", "tricks tips"), "tips & tricks tricks tips");
}

#[test]
fn search_key_lowercases_fields() {
    let a = article("projects", "p", "Hello World", "2026-01-01", Some("A Desc"));
    assert_eq!(search_key(&a), "hello world projects rust web a desc");
    let b = article("tricks", "t", "X", "2026-01-01", None);
    assert_eq!(search_key(&b), "x tricks rust web");
}

// ---------------------------------------------------------------------------
// Application state and metrics labels
// ---------------------------------------------------------------------------

#[test]
fn app_state_hashes_css_once() {
    let state = AppState::new("body{}".to_string(), ContentStore::new(vec![]), Signer::new([1u8; 32]));
    assert_eq!(state.style_hash, sha256_b64("body{}"));
    let r = state.render();
    assert_eq!(r.inline_css, "body{}");
    assert_eq!(r.style_hash, state.style_hash);
}

#[test]
fn metrics_labels_collapse() {
    assert_eq!(group_unmatched_endpoint("/static/aaa-unique-1.css"), "/static");
    assert_eq!(group_unmatched_endpoint("/static"), "/static");
    assert_eq!(group_unmatched_endpoint("/staticky"), "/other");
    assert_eq!(group_unmatched_endpoint("/zzz/unmatched-metric-1/x"), "/other");
}

#[test]
fn error_statuses() {
    assert_eq!(Error::NotFound { entity: "article" }.status_code(), 404);
    assert_eq!(Error::Unauthorized.status_code(), 401);
    assert_eq!(Error::Internal("db".to_string()).status_code(), 500);
}

#[test]
fn card_thumbnail_prefers_thumbnail_then_banner() {
    let mut a = article("projects", "p", "P", "2026-01-01", None);
    assert_eq!(card_thumbnail(&a), None);
    a.meta.image = Some("/static/banner.avif".to_string());
    assert_eq!(card_thumbnail(&a), Some("/static/banner.avif"));
    a.meta.thumbnail = Some("/static/thumb.avif".to_string());
    assert_eq!(card_thumbnail(&a), Some("/static/thumb.avif"));
}

#[test]
fn aria_current_marks_only_the_current_page() {
    assert_eq!(aria_current("profile", "profile"), Some("page"));
    assert_eq!(aria_current("home", "profile"), None);
    assert_eq!(aria_current("articles", ""), None);
}

#[test]
fn external_links_are_absolute_http() {
    assert!(is_external_link("https://github.com/ICreateThunder"));
    assert!(is_external_link("http://example.com"));
    assert!(!is_external_link("/rss.xml"));
    assert!(!is_external_link("mailto:robert@shalders.co.uk"));
}

#[test]
fn json_ld_escapes_control_characters_like_serde_json() {
    let a = article("projects", "p", "tab\there", "2026-01-01", Some("bell\u{7} back\\slash"));
    let meta = article_meta(&a);
    let ld = json_ld(&meta, "https://robertshalders.com/projects/p", "https://x/i.png");
    assert!(ld.contains("\"headline\":\"tab\\there - Robert Shalders\""), "{ld}");
    assert!(ld.contains("\"description\":\"bell\\u0007 back\\\\slash\""), "{ld}");
    let v: Value = serde_json::from_str(&ld).unwrap();
    assert_eq!(v["description"], "bell\u{7} back\\slash");
}
