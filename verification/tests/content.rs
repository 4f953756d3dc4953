use portfolio_api::content::{
    assemble_article, collection_index, collections, date_key, default_author, parse_u32_chars,
    sanitise_html, split_frontmatter, Article, ContentStore, Frontmatter, FrontmatterFields,
};

fn fields(title: &str, slug: &str, published: &str) -> FrontmatterFields {
    FrontmatterFields {
        title: Some(title.to_string()),
        description: None,
        slug: Some(slug.to_string()),
        published: Some(published.to_string()),
        tags: None,
        author: None,
        image: None,
        thumbnail: None,
    }
}

fn article(collection: &str, slug: &str, published: &str) -> Article {
    Article {
        meta: Frontmatter {
            title: format!("Title {slug}"),
            description: None,
            slug: slug.to_string(),
            published: published.to_string(),
            tags: vec![],
            author: default_author(),
            image: None,
            thumbnail: None,
        },
        collection: collection.to_string(),
        html: String::new(),
    }
}

/// The frontmatter keys of a TOML table, as the site's loader reads them.
fn fields_from_toml(text: &str) -> FrontmatterFields {
    let t: toml::Table = toml::from_str(text).unwrap();
    let s = |k: &str| t.get(k).and_then(|v| v.as_str()).map(|v| v.to_string());
    FrontmatterFields {
        title: s("title"),
        description: s("description"),
        slug: s("slug"),
        published: s("published"),
        tags: t.get("tags").and_then(|v| v.as_array()).map(|a| {
            a.iter().filter_map(|x| x.as_str().map(|x| x.to_string())).collect()
        }),
        author: s("author"),
        image: s("image"),
        thumbnail: s("thumbnail"),
    }
}

#[test]
fn test_split_frontmatter() {
    let raw = "+++\ntitle = \"Test\"\nslug = \"test\"\n+++\n\n# Hello\n\nWorld";
    let (fm, body) = split_frontmatter(raw).unwrap();
    assert!(fm.contains("title"));
    assert!(body.contains("# Hello"));
}

#[test]
fn split_frontmatter_exact_parts() {
    let raw = "  \n+++\ntitle = \"T\"\n+++\n\n# Body\n\n";
    let (fm, body) = split_frontmatter(raw).unwrap();
    assert_eq!(fm, "title = \"T\"");
    assert_eq!(body, "# Body");
}

#[test]
fn split_frontmatter_rejects_missing_delimiters() {
    assert!(split_frontmatter("title = \"x\"\n+++\nbody").is_none());
    assert!(split_frontmatter("+++\ntitle = \"x\"\nbody without close").is_none());
    assert!(split_frontmatter("").is_none());
}

#[test]
fn sanitiser_strips_active_content_keeps_features() {
    // Active content is removed…
    let dirty = r#"<p>ok</p><script>alert(1)</script><img src=x onerror="alert(1)"><iframe src="//evil"></iframe><a href="javascript:alert(1)">x</a>"#;
    let clean = sanitise_html(dirty);
    assert!(!clean.contains("<script"), "script survived: {clean}");
    assert!(!clean.contains("onerror"), "on*= survived: {clean}");
    assert!(!clean.contains("<iframe"), "iframe survived: {clean}");
    assert!(!clean.contains("javascript:"), "js: URL survived: {clean}");
    // …but our markdown features are preserved.
    let ok = sanitise_html(
        r##"<figure><img src="/x.svg" alt="d"><figcaption>c</figcaption></figure><table><tr><td>1</td></tr></table><sup class="footnote-reference"><a href="#fn1" id="fnref1">1</a></sup>"##,
    );
    assert!(ok.contains("<figure>") && ok.contains("<figcaption>"), "{ok}");
    assert!(ok.contains("<table>") && ok.contains("<td>"), "{ok}");
    assert!(ok.contains(r#"id="fnref1""#), "footnote id dropped: {ok}");
}

#[test]
fn sanitiser_keeps_task_list_checkboxes() {
    let ok = sanitise_html(r#"<ul><li><input disabled="" type="checkbox" checked=""> done</li></ul>"#);
    assert!(ok.contains("<input"), "{ok}");
    assert!(ok.contains("type=\"checkbox\""), "{ok}");
}

#[test]
fn test_parse_article() {
    let raw = r#"+++
title = "Test Article"
slug = "test"
published = "2026-01-01"
tags = ["rust"]
+++

# Hello World

This is a test."#;
    let (fm, body) = split_frontmatter(raw).unwrap();
    let article = assemble_article(fields_from_toml(&fm), &body, "projects").unwrap();
    assert_eq!(article.meta.title, "Test Article");
    assert_eq!(article.meta.slug, "test");
    assert!(article.html.contains("<h1>Hello World</h1>"));
    assert!(article.html.contains("<p>This is a test.</p>"));
    assert_eq!(article.collection, "projects");
    assert_eq!(article.meta.tags, vec!["rust".to_string()]);
    assert_eq!(article.meta.author, "Robert Shalders");
}

#[test]
fn assemble_article_requires_title_slug_published() {
    let mut f = fields("T", "s", "01-01-2026");
    f.title = None;
    assert!(assemble_article(f, "x", "projects").is_none());
    let mut f = fields("T", "s", "01-01-2026");
    f.slug = None;
    assert!(assemble_article(f, "x", "projects").is_none());
    let mut f = fields("T", "s", "01-01-2026");
    f.published = None;
    assert!(assemble_article(f, "x", "projects").is_none());
}

#[test]
fn frontmatter_author_given_overrides_default() {
    let mut f = fields("T", "s", "01-01-2026");
    f.author = Some("Someone Else".to_string());
    f.tags = Some(vec!["a".to_string(), "b".to_string()]);
    let m = Frontmatter::from_fields(f).unwrap();
    assert_eq!(m.author, "Someone Else");
    assert_eq!(m.tags.len(), 2);
}

#[test]
fn markdown_features_render() {
    let body = "| a | b |\n|---|---|\n| 1 | 2 |\n\n~~gone~~\n\n- [x] done\n\nNote[^1]\n\n[^1]: foot";
    let a = assemble_article(fields("T", "s", "2026-01-01"), body, "tricks").unwrap();
    assert!(a.html.contains("<table>"), "{}", a.html);
    assert!(a.html.contains("<del>gone</del>"), "{}", a.html);
    assert!(a.html.contains("checkbox"), "{}", a.html);
    assert!(a.html.contains("footnote"), "{}", a.html);
}

#[test]
fn markdown_raw_script_is_removed() {
    let a = assemble_article(fields("T", "s", "2026-01-01"), "hi <script>alert(1)</script>", "tricks")
        .unwrap();
    assert!(!a.html.contains("<script"), "{}", a.html);
}

#[test]
fn date_key_accepts_both_conventions() {
    assert_eq!(date_key("2026-01-15"), (2026, 1, 15));
    assert_eq!(date_key("15-01-2026"), (2026, 1, 15));
    assert_eq!(date_key("15-01-2026"), date_key("2026-01-15"));
}

#[test]
fn date_key_unparseable_sorts_oldest() {
    assert_eq!(date_key("yesterday"), (0, 0, 0));
    assert_eq!(date_key("2026-01"), (0, 0, 0));
    assert_eq!(date_key("2026-ab-01"), (0, 0, 0));
    assert_eq!(date_key("1-1-1"), (0, 0, 0));
    assert_eq!(date_key(""), (0, 0, 0));
    assert_eq!(date_key("2026-01-01-01"), (0, 0, 0));
}

#[test]
fn date_key_pieces_parse_like_u32() {
    assert_eq!(date_key("+123-1-1"), (123, 1, 1));
    assert_eq!(date_key("2026-99999999999-1"), (0, 0, 0));
    assert_eq!(date_key("2026-007-01"), (2026, 7, 1));
}

#[test]
fn parse_u32_matches_std() {
    for s in ["0", "42", "+7", "4294967295", "4294967296", "", "+", "-1", "1a", "007", " 1"] {
        let chars: Vec<char> = s.chars().collect();
        assert_eq!(parse_u32_chars(&chars), s.parse::<u32>().ok(), "{s:?}");
    }
}

#[test]
fn collections_fixed_order() {
    assert_eq!(collections(), vec!["newsletters", "projects", "resources", "tricks"]);
    assert_eq!(collection_index("projects"), Some(1));
    assert_eq!(collection_index("tricks"), Some(3));
    assert_eq!(collection_index("nope"), None);
    assert_eq!(collection_index(""), None);
}

#[test]
fn store_orders_newest_first_and_stably() {
    let store = ContentStore::new(vec![
        article("projects", "old", "01-01-2020"),
        article("projects", "new", "2026-03-01"),
        article("tricks", "mid", "15-06-2023"),
        article("tricks", "bad", "someday"),
        article("projects", "mid2", "2023-06-15"),
    ]);
    let slugs: Vec<&str> = store.all_articles().iter().map(|a| a.meta.slug.as_str()).collect();
    assert_eq!(slugs, vec!["new", "mid", "mid2", "old", "bad"]);
    let projects: Vec<&str> =
        store.collection_articles("projects").iter().map(|a| a.meta.slug.as_str()).collect();
    assert_eq!(projects, vec!["new", "mid2", "old"]);
    assert!(store.collection_articles("resources").is_empty());
}

#[test]
fn store_find_by_collection_and_slug() {
    let store = ContentStore::new(vec![
        article("projects", "a", "2020-01-01"),
        article("tricks", "a", "2021-01-01"),
    ]);
    assert_eq!(store.find("projects", "a").unwrap().meta.published, "2020-01-01");
    assert_eq!(store.find("tricks", "a").unwrap().meta.published, "2021-01-01");
    assert!(store.find("projects", "b").is_none());
    assert!(store.find("resources", "a").is_none());
}

#[test]
fn round_robin_interleaves_collections() {
    let store = ContentStore::new(vec![
        article("newsletters", "n1", "2026-01-05"),
        article("newsletters", "n2", "2026-01-04"),
        article("newsletters", "n3", "2026-01-03"),
        article("projects", "p1", "2025-01-01"),
        article("tricks", "t1", "2024-01-02"),
        article("tricks", "t2", "2024-01-01"),
    ]);
    let rr: Vec<&str> = store.round_robin_articles(2).iter().map(|a| a.meta.slug.as_str()).collect();
    assert_eq!(rr, vec!["n1", "p1", "t1", "n2", "t2"]);
    let all: Vec<&str> = store.round_robin_articles(5).iter().map(|a| a.meta.slug.as_str()).collect();
    assert_eq!(all, vec!["n1", "p1", "t1", "n2", "t2", "n3"]);
    assert!(store.round_robin_articles(0).is_empty());
    assert!(ContentStore::new(vec![]).round_robin_articles(5).is_empty());
}

#[test]
fn store_keeps_only_known_collections() {
    let store = ContentStore::new(vec![
        article("drafts", "d", "2026-03-01"),
        article("projects", "p", "2026-01-01"),
        article("Projects", "q", "2026-02-01"),
    ]);
    let all = store.all_articles();
    assert_eq!(all.len(), 1);
    assert_eq!(all[0].meta.slug, "p");
    assert!(store.find("drafts", "d").is_none());
}

#[test]
fn round_robin_smaller_limit_is_a_prefix() {
    let store = ContentStore::new(vec![
        article("projects", "p1", "2026-01-03"),
        article("projects", "p2", "2026-01-02"),
        article("projects", "p3", "2026-01-01"),
        article("tricks", "t1", "2025-01-02"),
        article("newsletters", "n1", "2024-05-05"),
        article("newsletters", "n2", "2024-05-04"),
    ]);
    let slugs = |per: usize| -> Vec<String> {
        store.round_robin_articles(per).iter().map(|a| a.meta.slug.clone()).collect()
    };
    for n in 0..4 {
        for m in n..5 {
            let small = slugs(n);
            let large = slugs(m);
            assert_eq!(&large[..small.len()], &small[..], "{n} {m}");
        }
    }
}
