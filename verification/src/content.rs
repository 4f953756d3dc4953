//! Articles: frontmatter, the publication-date sort key, splitting a source
//! file into frontmatter and body, rendering and sanitising the body, and the
//! in-memory content store with its orderings and lookups.

use vstd::prelude::*;
use crate::text::{
    chars_of, chars_find, chars_starts_with, find, slice_chars, split_chars, split_on, starts_with,
    string_of, trim, trim_chars, trim_start, trim_start_chars, utf8_len, utf8_len_is,
};

verus! {

// ---------------------------------------------------------------------------
// Collections
// ---------------------------------------------------------------------------

/// The known content collections, in their fixed order.
pub open spec fn collection_names() -> Seq<Seq<char>> {
    seq!["newsletters"@, "projects"@, "resources"@, "tricks"@]
}

/// The known content collections (`newsletters`, `projects`, `resources`,
/// `tricks`), in their fixed order.
pub fn collections() -> (r: Vec<&'static str>)
    ensures
        r@.len() == 4,
        forall|i: int| 0 <= i < 4 ==> #[trigger] r@[i]@ == collection_names()[i],
{
    proof {
        reveal_strlit("newsletters");
        reveal_strlit("projects");
        reveal_strlit("resources");
        reveal_strlit("tricks");
    }
    let mut r: Vec<&'static str> = Vec::new();
    r.push("newsletters");
    r.push("projects");
    r.push("resources");
    r.push("tricks");
    r
}

/// Whether two strings hold the same characters.
pub fn str_eq(a: &str, b: &str) -> (r: bool)
    ensures
        r == (a@ == b@),
{
    let x = chars_of(a);
    let y = chars_of(b);
    if x.len() != y.len() {
        return false;
    }
    let mut i: usize = 0;
    while i < x.len()
        invariant
            i <= x@.len(),
            x@ == a@,
            y@ == b@,
            x@.len() == y@.len(),
            forall|k: int| 0 <= k < i ==> x@[k] == y@[k],
        decreases x@.len() - i,
    {
        if x[i] != y[i] {
            assert(x@[i as int] != y@[i as int]);
            return false;
        }
        i = i + 1;
    }
    assert(x@ =~= y@);
    true
}

/// The position of `name` among the known collections, if it is one.
pub fn collection_index(name: &str) -> (r: Option<usize>)
    ensures
        r matches Some(i) ==> i < 4 && collection_names()[i as int] == name@,
        r is None ==> forall|i: int| 0 <= i < 4 ==> collection_names()[i] != name@,
{
    let cs = collections();
    let mut i: usize = 0;
    while i < 4
        invariant
            i <= 4,
            cs@.len() == 4,
            forall|j: int| 0 <= j < 4 ==> #[trigger] cs@[j]@ == collection_names()[j],
            forall|j: int| 0 <= j < i ==> collection_names()[j] != name@,
        decreases 4 - i,
    {
        if str_eq(cs[i], name) {
            return Some(i);
        }
        i = i + 1;
    }
    None
}

// ---------------------------------------------------------------------------
// Publication-date sort key
// ---------------------------------------------------------------------------

/// The value of an ASCII decimal digit.
pub open spec fn digit_value(c: char) -> int {
    (c as u32) - ('0' as u32)
}

pub open spec fn is_digit(c: char) -> bool {
    '0' <= c && c <= '9'
}

/// The decimal value of a string of digits.
pub open spec fn digits_value(s: Seq<char>) -> int
    decreases s.len(),
{
    if s.len() == 0 {
        0
    } else {
        digits_value(s.drop_last()) * 10 + digit_value(s.last())
    }
}

/// Every character of `s` is an ASCII digit.
pub open spec fn all_digits(s: Seq<char>) -> bool {
    forall|i: int| 0 <= i < s.len() ==> is_digit(#[trigger] s[i])
}

/// `s` without one leading `+`, if it has one.
pub open spec fn without_plus(s: Seq<char>) -> Seq<char> {
    if s.len() > 0 && s[0] == '+' {
        s.drop_first()
    } else {
        s
    }
}

/// `u32::from_str`: an optional `+`, then one or more ASCII digits whose value
/// fits in a `u32`.
pub open spec fn parse_u32(s: Seq<char>) -> Option<u32> {
    let t = without_plus(s);
    if t.len() > 0 && all_digits(t) && digits_value(t) <= u32::MAX {
        Some(digits_value(t) as u32)
    } else {
        None
    }
}

proof fn lemma_digits_value_nonneg(s: Seq<char>)
    requires
        all_digits(s),
    ensures
        digits_value(s) >= 0,
    decreases s.len(),
{
    if s.len() > 0 {
        lemma_digits_value_nonneg(s.drop_last());
    }
}

/// The ASCII character of the decimal digit `d` (0 to 9).
pub open spec fn ascii_digit(d: int) -> char {
    (('0' as u32) + d) as char
}

/// The decimal numeral of `n`, without leading zeros.
pub open spec fn decimal(n: nat) -> Seq<char>
    decreases n,
{
    if n < 10 {
        seq![ascii_digit(n as int)]
    } else {
        decimal(n / 10).push(ascii_digit((n % 10) as int))
    }
}

proof fn lemma_decimal_digits(n: nat)
    ensures
        decimal(n).len() > 0,
        all_digits(decimal(n)),
        digits_value(decimal(n)) == n,
    decreases n,
{
    if n < 10 {
        let c = ascii_digit(n as int);
        assert(decimal(n).drop_last() =~= Seq::<char>::empty());
        assert(digits_value(Seq::<char>::empty()) == 0);
        assert(decimal(n).last() == c);
        assert(digit_value(c) == n);
        assert(digits_value(decimal(n)) == digits_value(decimal(n).drop_last()) * 10 + digit_value(c));
    } else {
        lemma_decimal_digits(n / 10);
        let c = ascii_digit((n % 10) as int);
        let s = decimal(n);
        assert(s.drop_last() =~= decimal(n / 10));
        assert(digit_value(c) == n % 10);
        assert forall|i: int| 0 <= i < s.len() implies is_digit(#[trigger] s[i]) by {
            if i < s.len() - 1 {
                assert(s[i] == decimal(n / 10)[i]);
            }
        }
    }
}

/// `u32::from_str` reads every numeral: the decimal numeral of any `u32`
/// parses back to it, whatever digits it uses.
pub proof fn lemma_parse_u32_decimal(n: u32)
    ensures
        parse_u32(decimal(n as nat)) == Some(n),
{
    lemma_decimal_digits(n as nat);
    assert(is_digit(decimal(n as nat)[0]));
}

/// `u32::from_str` takes digits only: a string with a character that is
/// neither an ASCII digit nor a single leading `+` does not parse, and
/// neither does an empty one or a bare `+`.
pub proof fn lemma_parse_u32_rejects(s: Seq<char>, i: int)
    requires
        0 <= i < s.len(),
        !('0' <= s[i] && s[i] <= '9'),
        !(i == 0 && s[i] == '+'),
    ensures
        parse_u32(s) is None,
        parse_u32(Seq::empty()) is None,
        parse_u32(seq!['+']) is None,
{
    let t = without_plus(s);
    if s.len() > 0 && s[0] == '+' {
        assert(t[i - 1] == s[i]);
        assert(!is_digit(t[i - 1]));
    } else {
        assert(!is_digit(t[i]));
    }
    assert(seq!['+'].drop_first().len() == 0);
}

/// Leading zeros do not change a numeral's value: `0` followed by digits
/// parses as the digits alone.
pub proof fn lemma_parse_u32_leading_zero(s: Seq<char>)
    requires
        s.len() > 0,
        all_digits(s),
    ensures
        parse_u32(seq!['0'] + s) == parse_u32(s),
{
    lemma_digits_value_leading_zero(s);
    assert(is_digit(s[0]));
    let t = seq!['0'] + s;
    assert forall|i: int| 0 <= i < t.len() implies is_digit(#[trigger] t[i]) by {
        if i > 0 {
            assert(t[i] == s[i - 1]);
        }
    }
}

proof fn lemma_digits_value_leading_zero(s: Seq<char>)
    ensures
        digits_value(seq!['0'] + s) == digits_value(s),
    decreases s.len(),
{
    if s.len() == 0 {
        assert(seq!['0'].drop_last() =~= Seq::<char>::empty());
        assert((seq!['0'] + s) =~= seq!['0']);
        assert(digits_value(Seq::<char>::empty()) == 0);
        assert(digit_value('0') == 0);
        assert(digits_value(seq!['0']) == digits_value(seq!['0'].drop_last()) * 10 + digit_value('0'));
    } else {
        lemma_digits_value_leading_zero(s.drop_last());
        assert((seq!['0'] + s).drop_last() =~= seq!['0'] + s.drop_last());
        assert((seq!['0'] + s).last() == s.last());
        assert(digits_value(seq!['0'] + s) == digits_value((seq!['0'] + s).drop_last()) * 10
            + digit_value(s.last()));
    }
}

/// Parses `v` as `u32::from_str` does.
pub fn parse_u32_chars(v: &[char]) -> (r: Option<u32>)
    ensures
        r == parse_u32(v@),
{
    let start: usize = if v.len() > 0 && v[0] == '+' {
        1
    } else {
        0
    };
    let ghost t = without_plus(v@);
    assert(t =~= v@.skip(start as int));
    if start == v.len() {
        return None;
    }
    let mut acc: u64 = 0;
    let mut over = false;
    let mut i: usize = start;
    while i < v.len()
        invariant
            start <= i <= v@.len(),
            t =~= v@.skip(start as int),
            t == without_plus(v@),
            forall|k: int| 0 <= k < i - start ==> is_digit(#[trigger] t[k]),
            !over ==> acc == digits_value(t.take(i - start)),
            over ==> digits_value(t.take(i - start)) > u32::MAX,
            acc <= u32::MAX,
        decreases v@.len() - i,
    {
        let c = v[i];
        if !('0' <= c && c <= '9') {
            assert(!is_digit(t[i - start]));
            assert(!all_digits(t));
            return None;
        }
        let d = (c as u32 - '0' as u32) as u64;
        assert(t.take(i + 1 - start).drop_last() =~= t.take(i - start));
        proof {
            lemma_digits_value_nonneg(t.take(i - start));
        }
        if !over {
            if acc * 10 + d > u32::MAX as u64 {
                over = true;
            } else {
                acc = acc * 10 + d;
            }
        }
        i = i + 1;
    }
    assert(t.take(t.len() as int) =~= t);
    if over {
        None
    } else {
        Some(acc as u32)
    }
}

/// A `(year, month, day)` sort key.
pub type DateKey = (u32, u32, u32);

/// The sort key of a `published` date: `yyyy-mm-dd` (first piece four bytes
/// long) or `dd-mm-yyyy` (last piece four bytes long); anything else, or any
/// piece that is not a `u32`, gives `(0, 0, 0)` and sorts oldest.
pub open spec fn date_key_of(published: Seq<char>) -> DateKey {
    let p = split_on(published, '-');
    if p.len() == 3 {
        if utf8_len(p[0]) == 4 {
            match (parse_u32(p[0]), parse_u32(p[1]), parse_u32(p[2])) {
                (Some(y), Some(m), Some(d)) => (y, m, d),
                _ => (0, 0, 0),
            }
        } else if utf8_len(p[2]) == 4 {
            match (parse_u32(p[0]), parse_u32(p[1]), parse_u32(p[2])) {
                (Some(d), Some(m), Some(y)) => (y, m, d),
                _ => (0, 0, 0),
            }
        } else {
            (0, 0, 0)
        }
    } else {
        (0, 0, 0)
    }
}

/// Parse a `published` date into a `(year, month, day)` key for chronological
/// sorting. Accepts both the UK authoring convention `dd-mm-yyyy` and ISO
/// `yyyy-mm-dd`, detected by whichever end carries the four-digit year.
/// Unparseable values sort oldest.
pub fn date_key(published: &str) -> (k: DateKey)
    ensures
        k == date_key_of(published@),
{
    let v = chars_of(published);
    let p = split_chars(v.as_slice(), '-');
    if p.len() == 3 {
        let a = parse_u32_chars(p[0].as_slice());
        let b = parse_u32_chars(p[1].as_slice());
        let c = parse_u32_chars(p[2].as_slice());
        if utf8_len_is(p[0].as_slice(), 4) {
            match (a, b, c) {
                (Some(y), Some(m), Some(d)) => (y, m, d),
                _ => (0, 0, 0),
            }
        } else if utf8_len_is(p[2].as_slice(), 4) {
            match (a, b, c) {
                (Some(d), Some(m), Some(y)) => (y, m, d),
                _ => (0, 0, 0),
            }
        } else {
            (0, 0, 0)
        }
    } else {
        (0, 0, 0)
    }
}

// ---------------------------------------------------------------------------
// Source files: frontmatter and body
// ---------------------------------------------------------------------------

/// The `+++` delimiter that opens the frontmatter.
pub open spec fn open_delimiter() -> Seq<char> {
    seq!['+', '+', '+']
}

/// A newline followed by the `+++` delimiter that closes the frontmatter.
pub open spec fn close_delimiter() -> Seq<char> {
    seq!['\n', '+', '+', '+']
}

/// Where a source file splits: after leading white space it must open with
/// `+++`; the frontmatter runs to the first `\n+++` after that, and the body
/// is everything past it. Both parts are trimmed.
pub open spec fn frontmatter_split(raw: Seq<char>) -> Option<(Seq<char>, Seq<char>)> {
    let t = trim_start(raw);
    if !starts_with(t, open_delimiter()) {
        None
    } else {
        let after = t.skip(3);
        match find(after, close_delimiter()) {
            None => None,
            Some(end) => Some((trim(after.take(end)), trim(after.skip(end + 4)))),
        }
    }
}

/// Split raw file content into (frontmatter, body) at the `+++` delimiters.
pub fn split_frontmatter(raw: &str) -> (r: Option<(String, String)>)
    ensures
        r is None <==> frontmatter_split(raw@) is None,
        r matches Some((fm, body)) ==> frontmatter_split(raw@) == Some((fm@, body@)),
{
    let v = chars_of(raw);
    let t = trim_start_chars(v.as_slice());
    let open: Vec<char> = vec!['+', '+', '+'];
    let close: Vec<char> = vec!['\n', '+', '+', '+'];
    assert(open@ =~= open_delimiter());
    assert(close@ =~= close_delimiter());
    if !chars_starts_with(t.as_slice(), open.as_slice()) {
        return None;
    }
    let after = slice_chars(t.as_slice(), 3, t.len());
    assert(after@ =~= t@.skip(3));
    match chars_find(after.as_slice(), close.as_slice()) {
        None => None,
        Some(end) => {
            proof {
                crate::text::lemma_find_from(after@, close@, 0);
            }
            let fm = slice_chars(after.as_slice(), 0, end);
            let body = slice_chars(after.as_slice(), end + 4, after.len());
            assert(fm@ =~= after@.take(end as int));
            assert(body@ =~= after@.skip(end + 4));
            let fm_t = trim_chars(fm.as_slice());
            let body_t = trim_chars(body.as_slice());
            Some((string_of(fm_t.as_slice()), string_of(body_t.as_slice())))
        },
    }
}

// ---------------------------------------------------------------------------
// Frontmatter
// ---------------------------------------------------------------------------

/// The author credited when the frontmatter names none.
pub open spec fn default_author_name() -> Seq<char> {
    "Robert Shalders"@
}

/// The author credited when the frontmatter names none.
pub fn default_author() -> (s: String)
    ensures
        s@ == default_author_name(),
{
    String::from_str("Robert Shalders")
}

/// Frontmatter parsed from TOML between `+++` delimiters (Zola/Hugo convention).
pub struct Frontmatter {
    pub title: String,
    pub description: Option<String>,
    pub slug: String,
    pub published: String,
    pub tags: Vec<String>,
    pub author: String,
    /// Banner / hero image - 16:9 (recommended 1600×900). Drives the article
    /// hero, the featured-card banner, and the social/OG preview.
    pub image: Option<String>,
    /// Optional square thumbnail - 1:1 (recommended 400×400) for the compact
    /// list cards. Falls back to a centre-crop of `image`, then a generated cover.
    pub thumbnail: Option<String>,
}

/// The frontmatter's keys as the TOML table holds them, each present or not.
pub struct FrontmatterFields {
    pub title: Option<String>,
    pub description: Option<String>,
    pub slug: Option<String>,
    pub published: Option<String>,
    pub tags: Option<Vec<String>>,
    pub author: Option<String>,
    pub image: Option<String>,
    pub thumbnail: Option<String>,
}

/// The tags the frontmatter lists (none when the key is absent).
pub open spec fn tags_or_empty(t: Option<Vec<String>>) -> Seq<String> {
    match t {
        Some(v) => v@,
        None => Seq::empty(),
    }
}

/// The author the frontmatter names, or the default author.
pub open spec fn author_or_default(a: Option<String>) -> Seq<char> {
    match a {
        Some(s) => s@,
        None => default_author_name(),
    }
}

/// `m` is the frontmatter that the keys `f` describe.
pub open spec fn frontmatter_of(m: Frontmatter, f: FrontmatterFields) -> bool {
    &&& f.title == Some(m.title)
    &&& m.description == f.description
    &&& f.slug == Some(m.slug)
    &&& f.published == Some(m.published)
    &&& m.tags@ == tags_or_empty(f.tags)
    &&& m.author@ == author_or_default(f.author)
    &&& m.image == f.image
    &&& m.thumbnail == f.thumbnail
}

impl Frontmatter {
    /// Frontmatter from its keys: `title`, `slug` and `published` are required;
    /// `tags` defaults to none and `author` to [`default_author`].
    pub fn from_fields(f: FrontmatterFields) -> (r: Option<Frontmatter>)
        ensures
            r is None <==> (f.title is None || f.slug is None || f.published is None),
            r matches Some(m) ==> frontmatter_of(m, f),
    {
        let FrontmatterFields { title, description, slug, published, tags, author, image, thumbnail } =
            f;
        match (title, slug, published) {
            (Some(title), Some(slug), Some(published)) => {
                let tags = match tags {
                    Some(t) => t,
                    None => Vec::new(),
                };
                let author = match author {
                    Some(a) => a,
                    None => default_author(),
                };
                Some(Frontmatter { title, description, slug, published, tags, author, image, thumbnail })
            },
            _ => None,
        }
    }
}

// ---------------------------------------------------------------------------
// Markdown rendering and sanitising
// ---------------------------------------------------------------------------

/// The HTML that pulldown-cmark renders for `body` under the option bits `options`.
pub uninterp spec fn markdown_html(body: Seq<char>, options: u32) -> Seq<char>;

/// `pulldown_cmark::html::push_html` over `Parser::new_ext(body, options)`,
/// into an empty string. The contract names the result and claims no more:
/// the same body and options render the same HTML.
#[verifier::external_body]
fn render_markdown(body: &str, options: u32) -> (html: String)
    ensures
        html@ == markdown_html(body@, options),
{
    let parser = pulldown_cmark::Parser::new_ext(
        body,
        pulldown_cmark::Options::from_bits_truncate(options),
    );
    let mut html = String::new();
    pulldown_cmark::html::push_html(&mut html, parser);
    html
}

/// Markdown extensions the articles use: tables (bit 1), footnotes (bit 2),
/// strikethrough (bit 3) and task lists (bit 4) in pulldown-cmark's `Options`.
pub const MARKDOWN_OPTIONS: u32 = 30;

/// The views of a sequence of string slices.
pub open spec fn str_views(s: Seq<&str>) -> Seq<Seq<char>> {
    s.map_values(|x: &str| x@)
}

/// What ammonia's `Builder::clean` returns for `html` from a default builder
/// to which the generic attributes, the tags, and the attributes of one tag
/// were added.
pub uninterp spec fn ammonia_clean(
    html: Seq<char>,
    generic_attributes: Seq<Seq<char>>,
    tags: Seq<Seq<char>>,
    tag: Seq<char>,
    tag_attributes: Seq<Seq<char>>,
) -> Seq<char>;

/// `ammonia::Builder::default()`, then `add_generic_attributes`, `add_tags`,
/// `add_tag_attributes(tag, ..)`, then `clean(html).to_string()`. The contract
/// names the result and claims no more: the same input and allowlists give the
/// same output. `clean` asserts that the default builder's `rel` on links is
/// not also an allowed attribute, and that `script` and `style` (whose content
/// the default builder removes) are neither allowed tags nor given attributes;
/// `requires` keeps to those inputs.
#[verifier::external_body]
fn ammonia_clean_with(
    html: &str,
    generic_attributes: &[&str],
    tags: &[&str],
    tag: &str,
    tag_attributes: &[&str],
) -> (r: String)
    requires
        !str_views(generic_attributes@).contains("rel"@),
        !str_views(tags@).contains("script"@),
        !str_views(tags@).contains("style"@),
        tag@ != "script"@,
        tag@ != "style"@,
        tag@ == "a"@ ==> !str_views(tag_attributes@).contains("rel"@),
    ensures
        r@ == ammonia_clean(
            html@,
            str_views(generic_attributes@),
            str_views(tags@),
            tag@,
            str_views(tag_attributes@),
        ),
{
    let mut b = ammonia::Builder::default();
    b.add_generic_attributes(generic_attributes.iter());
    b.add_tags(tags.iter());
    b.add_tag_attributes(tag, tag_attributes.iter());
    b.clean(html).to_string()
}

/// The allowlist added to ammonia's defaults: footnote anchor `id`s, any
/// generated `class`es, and task-list checkboxes.
pub open spec fn sanitised(html: Seq<char>) -> Seq<char> {
    ammonia_clean(
        html,
        seq!["id"@, "class"@],
        seq!["input"@],
        "input"@,
        seq!["type"@, "checked"@, "disabled"@],
    )
}

/// Sanitise rendered markdown HTML: strip `<script>`/`<iframe>`/`on*=` handlers
/// and `javascript:` URLs, while keeping the markup our markdown features emit.
/// Defence-in-depth *behind* the CSP: the default allowlist already permits
/// tables, figures/captions, links and images; footnote anchor `id`s, any
/// generated `class`es, and task-list checkboxes are kept too.
pub fn sanitise_html(html: &str) -> (r: String)
    ensures
        r@ == sanitised(html@),
{
    let generic: Vec<&str> = vec!["id", "class"];
    let tags: Vec<&str> = vec!["input"];
    let input_attrs: Vec<&str> = vec!["type", "checked", "disabled"];
    proof {
        reveal_strlit("id");
        reveal_strlit("class");
        reveal_strlit("input");
        reveal_strlit("rel");
        reveal_strlit("script");
        reveal_strlit("style");
        reveal_strlit("a");
        assert(str_views(generic@) =~= seq!["id"@, "class"@]);
        assert(str_views(tags@) =~= seq!["input"@]);
        assert("id"@.len() != "rel"@.len() && "class"@.len() != "rel"@.len());
        assert("input"@.len() != "script"@.len() && "input"@[0] != "style"@[0]);
        assert("input"@.len() != "a"@.len());
    }
    let r = ammonia_clean_with(html, generic.as_slice(), tags.as_slice(), "input", input_attrs.as_slice());
    assert(str_views(generic@) =~= seq!["id"@, "class"@]);
    assert(str_views(tags@) =~= seq!["input"@]);
    assert(str_views(input_attrs@) =~= seq!["type"@, "checked"@, "disabled"@]);
    r
}

/// The HTML body of an article: its markdown rendered, then sanitised.
pub open spec fn article_html(body: Seq<char>) -> Seq<char> {
    sanitised(markdown_html(body, MARKDOWN_OPTIONS))
}

/// A fully parsed article - frontmatter + rendered HTML body.
pub struct Article {
    pub meta: Frontmatter,
    pub collection: String,
    pub html: String,
}

/// An article from its frontmatter keys and markdown body: `None` when a
/// required key is missing; otherwise the body is rendered to HTML and
/// sanitised.
pub fn assemble_article(fields: FrontmatterFields, body: &str, collection: &str) -> (r: Option<
    Article,
>)
    ensures
        r is None <==> (fields.title is None || fields.slug is None || fields.published is None),
        r matches Some(a) ==> {
            &&& frontmatter_of(a.meta, fields)
            &&& a.collection@ == collection@
            &&& a.html@ == article_html(body@)
        },
{
    match Frontmatter::from_fields(fields) {
        None => None,
        Some(meta) => {
            let rendered = render_markdown(body, MARKDOWN_OPTIONS);
            let html = sanitise_html(rendered.as_str());
            Some(Article { meta, collection: String::from_str(collection), html })
        },
    }
}

// ---------------------------------------------------------------------------
// Newest-first ordering
// ---------------------------------------------------------------------------

/// The sort key of an article.
pub open spec fn article_key(a: Article) -> DateKey {
    date_key_of(a.meta.published@)
}

/// `a` sorts strictly before `b` in `(year, month, day)` order.
pub open spec fn key_less(a: DateKey, b: DateKey) -> bool {
    ||| a.0 < b.0
    ||| (a.0 == b.0 && a.1 < b.1)
    ||| (a.0 == b.0 && a.1 == b.1 && a.2 < b.2)
}

/// Whether `a` is strictly older than `b`.
pub fn key_lt(a: DateKey, b: DateKey) -> (r: bool)
    ensures
        r == key_less(a, b),
{
    a.0 < b.0 || (a.0 == b.0 && a.1 < b.1) || (a.0 == b.0 && a.1 == b.1 && a.2 < b.2)
}

/// Where an article with key `k` goes in the newest-first sequence `s`: after
/// every article that is not older than it.
pub open spec fn insert_position(s: Seq<Article>, k: DateKey) -> nat
    decreases s.len(),
{
    if s.len() == 0 {
        0
    } else if key_less(article_key(s[0]), k) {
        0
    } else {
        1 + insert_position(s.drop_first(), k)
    }
}

/// `s` in newest-first order, articles of equal date keeping their order in `s`
/// (a stable sort by descending key).
pub open spec fn newest_first(s: Seq<Article>) -> Seq<Article>
    decreases s.len(),
{
    if s.len() == 0 {
        s
    } else {
        let r = newest_first(s.drop_last());
        r.insert(insert_position(r, article_key(s.last())) as int, s.last())
    }
}

pub proof fn lemma_insert_position_bound(s: Seq<Article>, k: DateKey)
    ensures
        insert_position(s, k) <= s.len(),
    decreases s.len(),
{
    if s.len() > 0 && !key_less(article_key(s[0]), k) {
        lemma_insert_position_bound(s.drop_first(), k);
    }
}

pub proof fn lemma_newest_first_len(s: Seq<Article>)
    ensures
        newest_first(s).len() == s.len(),
    decreases s.len(),
{
    if s.len() > 0 {
        lemma_newest_first_len(s.drop_last());
        lemma_insert_position_bound(newest_first(s.drop_last()), article_key(s.last()));
    }
}

/// Sorts `items` newest-first, stably.
fn sort_newest_first(items: Vec<Article>) -> (r: Vec<Article>)
    ensures
        r@ == newest_first(items@),
{
    let ghost orig = items@;
    let mut rest = items;
    let mut out: Vec<Article> = Vec::new();
    let mut keys: Vec<DateKey> = Vec::new();
    let ghost mut done: int = 0;
    assert(orig.take(0) =~= Seq::<Article>::empty());
    while rest.len() > 0
        invariant
            0 <= done <= orig.len(),
            rest@ == orig.skip(done),
            out@ == newest_first(orig.take(done)),
            keys@.len() == out@.len(),
            forall|j: int| 0 <= j < out@.len() ==> #[trigger] keys@[j] == article_key(out@[j]),
        decreases rest@.len(),
    {
        let a = rest.remove(0);
        let k = date_key(a.meta.published.as_str());
        proof {
            assert(a == orig[done]);
            assert(orig.take(done + 1).drop_last() =~= orig.take(done));
            assert(orig.take(done + 1).last() == a);
        }
        let mut p: usize = 0;
        assert(out@.skip(0) =~= out@);
        while p < out.len() && !key_lt(keys[p], k)
            invariant
                p <= out@.len(),
                keys@.len() == out@.len(),
                forall|j: int| 0 <= j < out@.len() ==> #[trigger] keys@[j] == article_key(out@[j]),
                insert_position(out@, k) == p + insert_position(out@.skip(p as int), k),
            decreases out@.len() - p,
        {
            assert(out@.skip(p as int).drop_first() =~= out@.skip(p + 1));
            p = p + 1;
        }
        proof {
            if p < out@.len() {
                assert(out@.skip(p as int)[0] == out@[p as int]);
            }
        }
        out.insert(p, a);
        keys.insert(p, k);
        proof {
            done = done + 1;
            assert(rest@ =~= orig.skip(done));
            assert forall|j: int| 0 <= j < out@.len() implies #[trigger] keys@[j] == article_key(
                out@[j],
            ) by {
                if j < p {
                } else if j == p {
                } else {
                    assert(keys@[j] == keys@.take(p as int).push(k).add(keys@.skip(p + 1))[j]);
                }
            }
        }
    }
    assert(orig.take(orig.len() as int) =~= orig);
    out
}

/// Whether `a` is an article of the collection `c`.
pub open spec fn in_collection(c: Seq<char>) -> spec_fn(Article) -> bool {
    |a: Article| a.collection@ == c
}

/// The articles of `s` that are in collection `c`, in their order in `s`.
pub open spec fn collection_of(s: Seq<Article>, c: Seq<char>) -> Seq<Article> {
    s.filter(in_collection(c))
}

/// The articles that references point at.
pub open spec fn targets(v: Seq<&Article>) -> Seq<Article> {
    v.map_values(|a: &Article| *a)
}

/// All articles, newest-first across all collections. Loaded once at startup -
/// content is static, no filesystem I/O at request time.
pub struct ContentStore {
    all_sorted: Vec<Article>,
}

impl View for ContentStore {
    type V = Seq<Article>;

    closed spec fn view(&self) -> Seq<Article> {
        self.all_sorted@
    }
}

/// Whether an article belongs to one of the known collections.
pub open spec fn in_known_collection() -> spec_fn(Article) -> bool {
    |a: Article| collection_names().contains(a.collection@)
}

/// Every article of `s` belongs to one of the known collections.
pub open spec fn all_known(s: Seq<Article>) -> bool {
    forall|i: int| 0 <= i < s.len() ==> #[trigger] in_known_collection()(s[i])
}

/// Ordering newest-first adds no article that was not there.
proof fn lemma_newest_first_keeps_known(s: Seq<Article>)
    requires
        all_known(s),
    ensures
        all_known(newest_first(s)),
{
    broadcast use vstd::seq_lib::group_to_multiset_ensures;

    lemma_newest_first_permutes(s);
    let r = newest_first(s);
    assert forall|i: int| 0 <= i < r.len() implies #[trigger] in_known_collection()(r[i]) by {
        assert(r.to_multiset().count(r[i]) > 0);
        assert(s.to_multiset().count(r[i]) > 0);
        assert(s.contains(r[i]));
        let j = choose|j: int| 0 <= j < s.len() && s[j] == r[i];
        assert(in_known_collection()(s[j]));
    }
}

impl ContentStore {
    #[verifier::type_invariant]
    closed spec fn only_known_collections(self) -> bool {
        all_known(self.all_sorted@)
    }

    /// A store holding the articles of `loaded` (in the order they were read,
    /// collection by collection) that belong to one of the known collections,
    /// ordered newest-first; articles of equal date keep their load order.
    pub fn new(loaded: Vec<Article>) -> (s: ContentStore)
        ensures
            s@ == newest_first(loaded@.filter(in_known_collection())),
            all_known(s@),
    {
        let ghost orig = loaded@;
        let ghost pred = in_known_collection();
        let mut rest = loaded;
        let mut kept: Vec<Article> = Vec::new();
        let ghost mut done: int = 0;
        proof {
            reveal_with_fuel(Seq::<_>::filter, 1);
            assert(orig.take(0) =~= Seq::<Article>::empty());
        }
        while rest.len() > 0
            invariant
                0 <= done <= orig.len(),
                rest@ == orig.skip(done),
                pred == in_known_collection(),
                kept@ == orig.take(done).filter(pred),
            decreases rest@.len(),
        {
            let a = rest.remove(0);
            proof {
                reveal_with_fuel(Seq::<_>::filter, 1);
                assert(a == orig[done]);
                assert(orig.take(done + 1).drop_last() =~= orig.take(done));
                assert(orig.take(done + 1).last() == a);
            }
            match collection_index(a.collection.as_str()) {
                Some(i) => {
                    proof {
                        assert(collection_names()[i as int] == a.collection@);
                        assert(pred(a));
                    }
                    kept.push(a);
                },
                None => {
                    proof {
                        assert(!pred(a));
                    }
                },
            }
            proof {
                done = done + 1;
                assert(rest@ =~= orig.skip(done));
            }
        }
        proof {
            assert(orig.take(orig.len() as int) =~= orig);
            assert forall|i: int| 0 <= i < kept@.len() implies #[trigger] in_known_collection()(
                kept@[i],
            ) by {
                orig.lemma_filter_pred(pred, i);
            }
            lemma_newest_first_keeps_known(kept@);
        }
        ContentStore { all_sorted: sort_newest_first(kept) }
    }

    /// All articles across all collections, newest-first. Precomputed at load -
    /// no per-call allocation or re-sort. Each belongs to a known collection.
    pub fn all_articles(&self) -> (r: &[Article])
        ensures
            r@ == self@,
            all_known(r@),
    {
        proof {
            use_type_invariant(self);
        }
        self.all_sorted.as_slice()
    }

    /// The articles of one collection, newest-first.
    pub fn collection_articles(&self, collection: &str) -> (r: Vec<&Article>)
        ensures
            targets(r@) == collection_of(self@, collection@),
    {
        let mut r: Vec<&Article> = Vec::new();
        let mut i: usize = 0;
        let ghost all = self@;
        while i < self.all_sorted.len()
            invariant
                i <= all.len(),
                all == self.all_sorted@,
                targets(r@) == collection_of(all.take(i as int), collection@),
            decreases all.len() - i,
        {
            proof {
                reveal_with_fuel(Seq::<_>::filter, 1);
                assert(all.take(i + 1).drop_last() =~= all.take(i as int));
            }
            let a = &self.all_sorted[i];
            if str_eq(a.collection.as_str(), collection) {
                r.push(a);
                assert(targets(r@) =~= collection_of(all.take(i + 1), collection@));
            } else {
                assert(targets(r@) =~= collection_of(all.take(i + 1), collection@));
            }
            i = i + 1;
        }
        assert(all.take(all.len() as int) =~= all);
        r
    }

    /// The newest `per` articles of the collection `name` (all of them when it
    /// has fewer), newest-first.
    fn collection_head(&self, name: &str, per: usize) -> (r: Vec<&Article>)
        ensures
            targets(r@) == first_n(collection_of(self@, name@), per as nat),
    {
        let mut r: Vec<&Article> = Vec::new();
        let mut i: usize = 0;
        let ghost all = self@;
        while i < self.all_sorted.len()
            invariant
                i <= all.len(),
                all == self.all_sorted@,
                targets(r@) == first_n(collection_of(all.take(i as int), name@), per as nat),
            decreases all.len() - i,
        {
            proof {
                reveal_with_fuel(Seq::<_>::filter, 1);
                assert(all.take(i + 1).drop_last() =~= all.take(i as int));
                lemma_first_n_push(collection_of(all.take(i as int), name@), all[i as int], per as nat);
                lemma_first_n_len(collection_of(all.take(i as int), name@), per as nat);
            }
            let a = &self.all_sorted[i];
            if str_eq(a.collection.as_str(), name) {
                if r.len() < per {
                    r.push(a);
                }
                assert(targets(r@) =~= first_n(collection_of(all.take(i + 1), name@), per as nat));
            } else {
                assert(collection_of(all.take(i + 1), name@) =~= collection_of(all.take(i as int), name@));
            }
            i = i + 1;
        }
        assert(all.take(all.len() as int) =~= all);
        r
    }

    /// Get articles interleaved round-robin across collections (most recent first
    /// per collection), so the articles index shows a balanced mix rather than
    /// one collection dominating: round `i` takes the `i`-th newest article of
    /// each collection in turn, from at most `per_collection` per collection.
    pub fn round_robin_articles(&self, per_collection: usize) -> (r: Vec<&Article>)
        ensures
            targets(r@) == round_robin(self@, per_collection as nat),
    {
        let names = collections();
        let mut groups: Vec<Vec<&Article>> = Vec::new();
        let mut c: usize = 0;
        let ghost spec_groups = round_robin_groups(self@, per_collection as nat);
        while c < 4
            invariant
                c <= 4,
                names@.len() == 4,
                forall|j: int| 0 <= j < 4 ==> #[trigger] names@[j]@ == collection_names()[j],
                spec_groups == round_robin_groups(self@, per_collection as nat),
                groups@.len() == c,
                forall|j: int| 0 <= j < c ==> #[trigger] targets(groups@[j]@) == spec_groups[j],
            decreases 4 - c,
        {
            let g = self.collection_head(names[c], per_collection);
            groups.push(g);
            c = c + 1;
        }
        let mut max_len: usize = 0;
        let mut c: usize = 0;
        while c < 4
            invariant
                c <= 4,
                groups@.len() == 4,
                forall|j: int| 0 <= j < 4 ==> #[trigger] targets(groups@[j]@) == spec_groups[j],
                spec_groups.len() == 4,
                max_len == max_group_len(spec_groups, c as int),
            decreases 4 - c,
        {
            assert(targets(groups@[c as int]@) == spec_groups[c as int]);
            assert(targets(groups@[c as int]@).len() == groups@[c as int]@.len());
            if groups[c].len() > max_len {
                max_len = groups[c].len();
            }
            c = c + 1;
        }
        let mut r: Vec<&Article> = Vec::new();
        let mut i: usize = 0;
        while i < max_len
            invariant
                i <= max_len,
                groups@.len() == 4,
                forall|j: int| 0 <= j < 4 ==> #[trigger] targets(groups@[j]@) == spec_groups[j],
                spec_groups.len() == 4,
                targets(r@) == rounds(spec_groups, i as int),
            decreases max_len - i,
        {
            let mut c: usize = 0;
            let ghost before = targets(r@);
            while c < 4
                invariant
                    c <= 4,
                    groups@.len() == 4,
                    forall|j: int| 0 <= j < 4 ==> #[trigger] targets(groups@[j]@) == spec_groups[j],
                    spec_groups.len() == 4,
                    targets(r@) == before + round_row(spec_groups, i as int, c as int),
                decreases 4 - c,
            {
                assert(targets(groups@[c as int]@) == spec_groups[c as int]);
                assert(targets(groups@[c as int]@).len() == groups@[c as int]@.len());
                if i < groups[c].len() {
                    let a = groups[c][i];
                    assert(*a == spec_groups[c as int][i as int]);
                    let ghost r_before = r@;
                    r.push(a);
                    assert(targets(r@) =~= targets(r_before).push(*a));
                    assert(targets(r@) =~= before + round_row(spec_groups, i as int, c + 1));
                }
                c = c + 1;
            }
            i = i + 1;
        }
        proof {
            lemma_max_group_len(spec_groups, 4);
        }
        r
    }

    /// The article of `collection` whose slug is `slug`: the newest such one.
    pub fn find(&self, collection: &str, slug: &str) -> (r: Option<&Article>)
        ensures
            r matches Some(a) ==> exists|j: int|
                0 <= j < self@.len() && self@[j] == *a && is_article(*a, collection@, slug@)
                    && forall|k: int| 0 <= k < j ==> !is_article(#[trigger] self@[k], collection@, slug@),
            r is None ==> forall|j: int|
                0 <= j < self@.len() ==> !is_article(#[trigger] self@[j], collection@, slug@),
    {
        let mut i: usize = 0;
        let ghost all = self@;
        while i < self.all_sorted.len()
            invariant
                i <= all.len(),
                all == self.all_sorted@,
                forall|k: int| 0 <= k < i ==> !is_article(#[trigger] all[k], collection@, slug@),
            decreases all.len() - i,
        {
            let a = &self.all_sorted[i];
            if str_eq(a.collection.as_str(), collection) && str_eq(a.meta.slug.as_str(), slug) {
                assert(all[i as int] == *a);
                assert(is_article(*a, collection@, slug@));
                assert(self@ == all);
                assert(forall|k: int| 0 <= k < i ==> !is_article(#[trigger] self@[k], collection@, slug@));
                return Some(a);
            }
            i = i + 1;
        }
        None
    }
}

/// `a` is the article `slug` of collection `c`.
pub open spec fn is_article(a: Article, c: Seq<char>, slug: Seq<char>) -> bool {
    a.collection@ == c && a.meta.slug@ == slug
}

/// The first `n` elements of `s` (all of `s` when it is shorter).
pub open spec fn first_n(s: Seq<Article>, n: nat) -> Seq<Article> {
    if s.len() <= n {
        s
    } else {
        s.take(n as int)
    }
}

proof fn lemma_first_n_len(s: Seq<Article>, n: nat)
    ensures
        first_n(s, n).len() == if s.len() <= n {
            s.len()
        } else {
            n
        },
{
}

proof fn lemma_first_n_push(s: Seq<Article>, e: Article, n: nat)
    ensures
        first_n(s.push(e), n) == if s.len() < n {
            first_n(s, n).push(e)
        } else {
            first_n(s, n)
        },
{
    if s.len() < n {
    } else {
        assert(first_n(s.push(e), n) =~= first_n(s, n));
    }
}

/// For each collection in the fixed order, its newest `per` articles.
pub open spec fn round_robin_groups(s: Seq<Article>, per: nat) -> Seq<Seq<Article>> {
    collection_names().map_values(|c: Seq<char>| first_n(collection_of(s, c), per))
}

/// Round `i` of the interleaving, over the first `upto` groups: the `i`-th
/// element of each of those groups that has one, in group order.
pub open spec fn round_row(groups: Seq<Seq<Article>>, i: int, upto: int) -> Seq<Article>
    decreases upto,
{
    if upto <= 0 {
        Seq::empty()
    } else {
        let r = round_row(groups, i, upto - 1);
        if i < groups[upto - 1].len() {
            r.push(groups[upto - 1][i])
        } else {
            r
        }
    }
}

/// The first `n` rounds of the interleaving, one after another.
pub open spec fn rounds(groups: Seq<Seq<Article>>, n: int) -> Seq<Article>
    decreases n,
{
    if n <= 0 {
        Seq::empty()
    } else {
        rounds(groups, n - 1) + round_row(groups, n - 1, groups.len() as int)
    }
}

/// The length of the longest of the first `upto` groups.
pub open spec fn max_group_len(groups: Seq<Seq<Article>>, upto: int) -> nat
    decreases upto,
{
    if upto <= 0 {
        0
    } else {
        let m = max_group_len(groups, upto - 1);
        if groups[upto - 1].len() > m {
            groups[upto - 1].len()
        } else {
            m
        }
    }
}

proof fn lemma_max_group_len(groups: Seq<Seq<Article>>, upto: int)
    requires
        0 <= upto <= groups.len(),
    ensures
        forall|j: int| 0 <= j < upto ==> #[trigger] groups[j].len() <= max_group_len(groups, upto),
    decreases upto,
{
    if upto > 0 {
        lemma_max_group_len(groups, upto - 1);
    }
}

/// The round-robin interleaving of the collections' newest `per` articles:
/// as many rounds as the largest group has articles.
pub open spec fn round_robin(s: Seq<Article>, per: nat) -> Seq<Article> {
    let g = round_robin_groups(s, per);
    rounds(g, max_group_len(g, g.len() as int) as int)
}

proof fn lemma_round_row_same(gn: Seq<Seq<Article>>, gm: Seq<Seq<Article>>, i: int, upto: int)
    requires
        0 <= upto <= gn.len(),
        gn.len() == gm.len(),
        forall|j: int|
            0 <= j < gn.len() ==> (i < #[trigger] gn[j].len() <==> i < gm[j].len()) && (i
                < gn[j].len() ==> gn[j][i] == gm[j][i]),
    ensures
        round_row(gn, i, upto) == round_row(gm, i, upto),
    decreases upto,
{
    if upto > 0 {
        lemma_round_row_same(gn, gm, i, upto - 1);
        assert(i < gn[upto - 1].len() <==> i < gm[upto - 1].len());
    }
}

proof fn lemma_rounds_prefix(g: Seq<Seq<Article>>, k: int, k2: int)
    requires
        0 <= k <= k2,
    ensures
        rounds(g, k).len() <= rounds(g, k2).len(),
        rounds(g, k) == rounds(g, k2).take(rounds(g, k).len() as int),
    decreases k2,
{
    if k == k2 {
        assert(rounds(g, k) =~= rounds(g, k2).take(rounds(g, k).len() as int));
    } else {
        lemma_rounds_prefix(g, k, k2 - 1);
        let a = rounds(g, k2 - 1);
        let b = round_row(g, k2 - 1, g.len() as int);
        assert((a + b).take(rounds(g, k).len() as int) =~= a.take(rounds(g, k).len() as int));
    }
}

proof fn lemma_max_group_len_mono(gn: Seq<Seq<Article>>, gm: Seq<Seq<Article>>, upto: int)
    requires
        0 <= upto <= gn.len(),
        gn.len() == gm.len(),
        forall|j: int| 0 <= j < gn.len() ==> #[trigger] gn[j].len() <= gm[j].len(),
    ensures
        max_group_len(gn, upto) <= max_group_len(gm, upto),
    decreases upto,
{
    if upto > 0 {
        lemma_max_group_len_mono(gn, gm, upto - 1);
        assert(gn[upto - 1].len() <= gm[upto - 1].len());
    }
}

proof fn lemma_max_group_len_bound(g: Seq<Seq<Article>>, upto: int, n: nat)
    requires
        0 <= upto <= g.len(),
        forall|j: int| 0 <= j < g.len() ==> #[trigger] g[j].len() <= n,
    ensures
        max_group_len(g, upto) <= n,
    decreases upto,
{
    if upto > 0 {
        lemma_max_group_len_bound(g, upto - 1, n);
        assert(g[upto - 1].len() <= n);
    }
}

/// Raising the per-collection limit only extends the interleaving: with a
/// smaller limit the round-robin listing is a prefix of the listing with a
/// larger one.
pub proof fn lemma_round_robin_prefix(s: Seq<Article>, n: nat, m: nat)
    requires
        n <= m,
    ensures
        round_robin(s, n).len() <= round_robin(s, m).len(),
        round_robin(s, n) == round_robin(s, m).take(round_robin(s, n).len() as int),
{
    let gn = round_robin_groups(s, n);
    let gm = round_robin_groups(s, m);
    assert(gn.len() == 4 && gm.len() == 4);
    assert forall|j: int| 0 <= j < 4 implies #[trigger] gn[j].len() <= gm[j].len() && gn[j].len()
        <= n by {
        assert(gn[j] == first_n(collection_of(s, collection_names()[j]), n));
        assert(gm[j] == first_n(collection_of(s, collection_names()[j]), m));
    }
    let ln = max_group_len(gn, 4);
    let lm = max_group_len(gm, 4);
    lemma_max_group_len_mono(gn, gm, 4);
    lemma_max_group_len_bound(gn, 4, n);
    assert forall|k: int| 0 <= k <= ln implies rounds(gn, k) == rounds(gm, k) by {
        lemma_rounds_same_upto(s, n, m, k);
    }
    lemma_rounds_prefix(gm, ln as int, lm as int);
}

proof fn lemma_rounds_same_upto(s: Seq<Article>, n: nat, m: nat, k: int)
    requires
        n <= m,
        0 <= k <= n,
    ensures
        rounds(round_robin_groups(s, n), k) == rounds(round_robin_groups(s, m), k),
    decreases k,
{
    let gn = round_robin_groups(s, n);
    let gm = round_robin_groups(s, m);
    if k > 0 {
        lemma_rounds_same_upto(s, n, m, k - 1);
        let i = k - 1;
        assert forall|j: int| 0 <= j < gn.len() implies (i < #[trigger] gn[j].len() <==> i
            < gm[j].len()) && (i < gn[j].len() ==> gn[j][i] == gm[j][i]) by {
            let c = collection_of(s, collection_names()[j]);
            assert(gn[j] == first_n(c, n));
            assert(gm[j] == first_n(c, m));
        }
        lemma_round_row_same(gn, gm, i, 4);
    }
}

} // verus!

verus! {

// ---------------------------------------------------------------------------
// Properties of the newest-first ordering
// ---------------------------------------------------------------------------

/// No article comes after an article that is older than it.
pub open spec fn is_newest_first(s: Seq<Article>) -> bool {
    forall|i: int, j: int|
        0 <= i < j < s.len() ==> !key_less(#[trigger] article_key(s[i]), #[trigger] article_key(s[j]))
}

proof fn lemma_insert_position(s: Seq<Article>, k: DateKey)
    ensures
        insert_position(s, k) <= s.len(),
        forall|i: int| 0 <= i < insert_position(s, k) ==> !key_less(#[trigger] article_key(s[i]), k),
        insert_position(s, k) < s.len() ==> key_less(article_key(s[insert_position(s, k) as int]), k),
    decreases s.len(),
{
    if s.len() > 0 && !key_less(article_key(s[0]), k) {
        lemma_insert_position(s.drop_first(), k);
        assert forall|i: int| 0 <= i < insert_position(s, k) implies !key_less(
            #[trigger] article_key(s[i]),
            k,
        ) by {
            if i > 0 {
                assert(s[i] == s.drop_first()[i - 1]);
            }
        }
    }
}

/// The newest-first order is sorted: no article is followed by a newer one.
pub proof fn lemma_newest_first_sorted(s: Seq<Article>)
    ensures
        is_newest_first(newest_first(s)),
    decreases s.len(),
{
    if s.len() > 0 {
        let r = newest_first(s.drop_last());
        let x = s.last();
        let k = article_key(x);
        lemma_newest_first_sorted(s.drop_last());
        lemma_insert_position(r, k);
        let p = insert_position(r, k) as int;
        let t = r.insert(p, x);
        assert forall|i: int, j: int| 0 <= i < j < t.len() implies !key_less(
            #[trigger] article_key(t[i]),
            #[trigger] article_key(t[j]),
        ) by {
            if j < p {
                assert(t[i] == r[i] && t[j] == r[j]);
            } else if j == p {
                assert(t[i] == r[i]);
            } else if i < p {
                assert(t[i] == r[i] && t[j] == r[j - 1]);
            } else if i == p {
                assert(t[j] == r[j - 1]);
                assert(!key_less(article_key(r[p]), article_key(r[j - 1])) || p == j - 1);
            } else {
                assert(t[i] == r[i - 1] && t[j] == r[j - 1]);
            }
        }
    }
}

/// A date key as one number that grows with the year, then the month, then
/// the day (each part below 2^32).
pub open spec fn date_rank(k: DateKey) -> int {
    k.0 as int * 0x1_0000_0000_0000_0000 + k.1 as int * 0x1_0000_0000 + k.2 as int
}

proof fn lemma_key_less_rank(a: DateKey, b: DateKey)
    ensures
        key_less(a, b) <==> date_rank(a) < date_rank(b),
{
}

/// The newest-first order is by calendar date: along it the dates never
/// increase, comparing the year, then the month, then the day, so of two
/// articles the one published later (even later in the same month) comes
/// first.
pub proof fn lemma_newest_first_by_date(s: Seq<Article>)
    ensures
        forall|i: int, j: int|
            0 <= i < j < newest_first(s).len() ==> date_rank(article_key(#[trigger] newest_first(s)[j]))
                <= date_rank(article_key(#[trigger] newest_first(s)[i])),
{
    lemma_newest_first_sorted(s);
    let t = newest_first(s);
    assert forall|i: int, j: int| 0 <= i < j < t.len() implies date_rank(article_key(#[trigger] t[j]))
        <= date_rank(article_key(#[trigger] t[i])) by {
        assert(!key_less(article_key(t[i]), article_key(t[j])));
        lemma_key_less_rank(article_key(t[i]), article_key(t[j]));
    }
}

/// Ordering newest-first neither loses nor duplicates an article.
pub proof fn lemma_newest_first_permutes(s: Seq<Article>)
    ensures
        newest_first(s).to_multiset() == s.to_multiset(),
    decreases s.len(),
{
    broadcast use vstd::seq_lib::to_multiset_insert, vstd::seq_lib::to_multiset_build;

    if s.len() > 0 {
        let r = newest_first(s.drop_last());
        lemma_newest_first_permutes(s.drop_last());
        lemma_insert_position(r, article_key(s.last()));
        assert(s.drop_last().push(s.last()) =~= s);
    } else {
        assert(s.to_multiset() =~= newest_first(s).to_multiset());
    }
}

proof fn lemma_insert_position_split(a: Seq<Article>, b: Seq<Article>, k: DateKey)
    requires
        forall|i: int| 0 <= i < a.len() ==> !key_less(#[trigger] article_key(a[i]), k),
        forall|i: int| 0 <= i < b.len() ==> key_less(#[trigger] article_key(b[i]), k),
    ensures
        insert_position(a + b, k) == a.len(),
    decreases a.len(),
{
    if a.len() > 0 {
        assert((a + b)[0] == a[0]);
        assert((a + b).drop_first() =~= a.drop_first() + b);
        lemma_insert_position_split(a.drop_first(), b, k);
    } else {
        assert(a + b =~= b);
        if b.len() > 0 {
            assert(key_less(article_key(b[0]), k));
        }
    }
}

proof fn lemma_filter_keeps_not_less(q: Seq<Article>, pred: spec_fn(Article) -> bool, k: DateKey)
    requires
        forall|i: int| 0 <= i < q.len() ==> !key_less(#[trigger] article_key(q[i]), k),
    ensures
        forall|i: int|
            0 <= i < q.filter(pred).len() ==> !key_less(#[trigger] article_key(q.filter(pred)[i]), k),
{
    assert forall|i: int| 0 <= i < q.filter(pred).len() implies !key_less(
        #[trigger] article_key(q.filter(pred)[i]),
        k,
    ) by {
        let e = q.filter(pred)[i];
        assert(q.filter(pred).contains(e));
        q.lemma_filter_contains_rev(pred, e);
        let j = choose|j: int| 0 <= j < q.len() && q[j] == e;
        assert(!key_less(article_key(q[j]), k));
    }
}

proof fn lemma_filter_keeps_less(q: Seq<Article>, pred: spec_fn(Article) -> bool, k: DateKey)
    requires
        forall|i: int| 0 <= i < q.len() ==> key_less(#[trigger] article_key(q[i]), k),
    ensures
        forall|i: int|
            0 <= i < q.filter(pred).len() ==> key_less(#[trigger] article_key(q.filter(pred)[i]), k),
{
    assert forall|i: int| 0 <= i < q.filter(pred).len() implies key_less(
        #[trigger] article_key(q.filter(pred)[i]),
        k,
    ) by {
        let e = q.filter(pred)[i];
        assert(q.filter(pred).contains(e));
        q.lemma_filter_contains_rev(pred, e);
        let j = choose|j: int| 0 <= j < q.len() && q[j] == e;
        assert(key_less(article_key(q[j]), k));
    }
}

proof fn lemma_filter_of_insert(r: Seq<Article>, p: int, x: Article, pred: spec_fn(Article) -> bool)
    requires
        0 <= p <= r.len(),
    ensures
        r.insert(p, x).filter(pred) == r.take(p).filter(pred) + (if pred(x) {
            seq![x]
        } else {
            Seq::empty()
        }) + r.skip(p).filter(pred),
        r.filter(pred) == r.take(p).filter(pred) + r.skip(p).filter(pred),
{
    let left = r.take(p);
    let right = r.skip(p);
    assert(r =~= left + right);
    assert(r.insert(p, x) =~= (left + seq![x]) + right);
    Seq::filter_distributes_over_add(left + seq![x], right, pred);
    Seq::filter_distributes_over_add(left, seq![x], pred);
    Seq::filter_distributes_over_add(left, right, pred);
    reveal_with_fuel(Seq::<_>::filter, 2);
    assert(seq![x].drop_last() =~= Seq::<Article>::empty());
    if pred(x) {
        assert(seq![x].filter(pred) =~= seq![x]);
    } else {
        assert(seq![x].filter(pred) =~= Seq::<Article>::empty());
        assert(left.filter(pred) + Seq::<Article>::empty() =~= left.filter(pred));
    }
}

/// Inserting into a sorted sequence at the newest-first position, then
/// filtering, is filtering and then inserting at the newest-first position.
#[verifier::spinoff_prover]
#[verifier::rlimit(40)]
proof fn lemma_filter_sorted_insert(r: Seq<Article>, x: Article, pred: spec_fn(Article) -> bool)
    requires
        is_newest_first(r),
    ensures
        ({
            let k = article_key(x);
            let f = r.filter(pred);
            r.insert(insert_position(r, k) as int, x).filter(pred) == if pred(x) {
                f.insert(insert_position(f, k) as int, x)
            } else {
                f
            }
        }),
{
    let k = article_key(x);
    lemma_insert_position(r, k);
    let p = insert_position(r, k) as int;
    lemma_filter_of_insert(r, p, x, pred);
    let left = r.take(p);
    let right = r.skip(p);
    let fl = left.filter(pred);
    let fr = right.filter(pred);
    if pred(x) {
        assert forall|i: int| 0 <= i < left.len() implies !key_less(
            #[trigger] article_key(left[i]),
            k,
        ) by {
            assert(left[i] == r[i]);
        }
        assert forall|i: int| 0 <= i < right.len() implies key_less(
            #[trigger] article_key(right[i]),
            k,
        ) by {
            assert(right[i] == r[p + i]);
            if i > 0 {
                assert(!key_less(article_key(r[p]), article_key(r[p + i])));
            }
        }
        lemma_filter_keeps_not_less(left, pred, k);
        lemma_filter_keeps_less(right, pred, k);
        lemma_insert_position_split(fl, fr, k);
        assert((fl + fr).insert(fl.len() as int, x) =~= fl + seq![x] + fr);
    } else {
        assert(fl + Seq::<Article>::empty() =~= fl);
    }
}

/// Filtering commutes with the newest-first order.
pub proof fn lemma_newest_first_filter(s: Seq<Article>, pred: spec_fn(Article) -> bool)
    ensures
        newest_first(s).filter(pred) == newest_first(s.filter(pred)),
    decreases s.len(),
{
    if s.len() == 0 {
        reveal_with_fuel(Seq::<_>::filter, 1);
    } else {
        let s0 = s.drop_last();
        let x = s.last();
        lemma_newest_first_filter(s0, pred);
        lemma_newest_first_sorted(s0);
        lemma_filter_sorted_insert(newest_first(s0), x, pred);
        assert(s0.push(x) =~= s);
        s0.lemma_filter_push(x, pred);
        if pred(x) {
            let sf = s.filter(pred);
            assert(sf.drop_last() =~= s0.filter(pred));
        }
    }
}

/// The articles of one collection, taken from the newest-first order, are
/// that collection's own articles in newest-first order: listing a collection
/// agrees with sorting it alone.
pub proof fn lemma_collection_of_newest_first(s: Seq<Article>, c: Seq<char>)
    ensures
        collection_of(newest_first(s), c) == newest_first(collection_of(s, c)),
{
    lemma_newest_first_filter(s, in_collection(c));
}

/// Whether `a` has the date key `k`.
pub open spec fn dated(k: DateKey) -> spec_fn(Article) -> bool {
    |a: Article| article_key(a) == k
}

proof fn lemma_newest_first_equal_keys(s: Seq<Article>, k: DateKey)
    requires
        forall|i: int| 0 <= i < s.len() ==> #[trigger] article_key(s[i]) == k,
    ensures
        newest_first(s) == s,
    decreases s.len(),
{
    if s.len() > 0 {
        lemma_newest_first_equal_keys(s.drop_last(), k);
        lemma_insert_position(s.drop_last(), k);
        assert(article_key(s[s.len() - 1]) == k);
        assert(s.drop_last().insert(s.len() - 1, s.last()) =~= s);
    }
}

/// The order is stable: articles with the same date keep the order in which
/// they were loaded.
pub proof fn lemma_newest_first_stable(s: Seq<Article>, k: DateKey)
    ensures
        newest_first(s).filter(dated(k)) == s.filter(dated(k)),
{
    broadcast use vstd::seq_lib::group_filter_ensures;

    lemma_newest_first_filter(s, dated(k));
    let f = s.filter(dated(k));
    assert forall|i: int| 0 <= i < f.len() implies #[trigger] article_key(f[i]) == k by {
        s.lemma_filter_pred(dated(k), i);
    }
    lemma_newest_first_equal_keys(f, k);
}

} // verus!

verus! {

/// A date written ISO-style, `y-m-d`.
pub open spec fn iso_date(y: Seq<char>, m: Seq<char>, d: Seq<char>) -> Seq<char> {
    y + seq!['-'] + m + seq!['-'] + d
}

/// A date written UK-style, `d-m-y`.
pub open spec fn uk_date(y: Seq<char>, m: Seq<char>, d: Seq<char>) -> Seq<char> {
    d + seq!['-'] + m + seq!['-'] + y
}

/// Both authoring conventions sort alike: a date written `yyyy-mm-dd` and the
/// same date written `dd-mm-yyyy` have the same key, `(y, m, d)` when the
/// three pieces are numbers. (The day piece must not itself take four bytes,
/// or the UK form reads as ISO.)
pub proof fn lemma_date_key_conventions_agree(y: Seq<char>, m: Seq<char>, d: Seq<char>)
    requires
        crate::text::free_of(y, '-'),
        crate::text::free_of(m, '-'),
        crate::text::free_of(d, '-'),
        utf8_len(y) == 4,
        utf8_len(d) != 4,
    ensures
        date_key_of(iso_date(y, m, d)) == date_key_of(uk_date(y, m, d)),
        (parse_u32(y), parse_u32(m), parse_u32(d)) matches (Some(yy), Some(mm), Some(dd))
            ==> date_key_of(iso_date(y, m, d)) == (yy, mm, dd),
{
    crate::text::lemma_split_three(y, m, d, '-');
    crate::text::lemma_split_three(d, m, y, '-');
}

} // verus!

verus! {

// ---------------------------------------------------------------------------
// Properties of the round-robin interleaving
// ---------------------------------------------------------------------------

/// The known collections are four different names.
pub proof fn lemma_collection_names_distinct()
    ensures
        forall|j: int, k: int|
            0 <= j < 4 && 0 <= k < 4 && j != k ==> #[trigger] collection_names()[j]
                != #[trigger] collection_names()[k],
{
    reveal_strlit("newsletters");
    reveal_strlit("projects");
    reveal_strlit("resources");
    reveal_strlit("tricks");
    assert(collection_names()[0].len() == 11);
    assert(collection_names()[1].len() == 8);
    assert(collection_names()[2].len() == 9);
    assert(collection_names()[3].len() == 6);
}

proof fn lemma_groups_members(s: Seq<Article>, per: nat, j: int, i: int)
    requires
        0 <= j < 4,
        0 <= i < round_robin_groups(s, per)[j].len(),
    ensures
        round_robin_groups(s, per)[j][i].collection@ == collection_names()[j],
{
    broadcast use vstd::seq_lib::group_filter_ensures;

    let f = collection_of(s, collection_names()[j]);
    assert(round_robin_groups(s, per)[j] == first_n(f, per));
    assert(first_n(f, per)[i] == f[i]);
    s.lemma_filter_pred(in_collection(collection_names()[j]), i);
}

proof fn lemma_round_row_filter(s: Seq<Article>, per: nat, i: int, upto: int, k: int)
    requires
        0 <= upto <= 4,
        0 <= k < 4,
        0 <= i,
    ensures
        ({
            let g = round_robin_groups(s, per);
            round_row(g, i, upto).filter(in_collection(collection_names()[k])) == if k < upto && i
                < g[k].len() {
                seq![g[k][i]]
            } else {
                Seq::empty()
            }
        }),
    decreases upto,
{
    let g = round_robin_groups(s, per);
    let pred = in_collection(collection_names()[k]);
    reveal_with_fuel(Seq::<_>::filter, 1);
    if upto > 0 {
        lemma_round_row_filter(s, per, i, upto - 1, k);
        let r = round_row(g, i, upto - 1);
        if i < g[upto - 1].len() {
            r.lemma_filter_push(g[upto - 1][i], pred);
            lemma_groups_members(s, per, upto - 1, i);
            lemma_collection_names_distinct();
            if k != upto - 1 {
                assert(collection_names()[upto - 1] != collection_names()[k]);
            }
            assert(pred(g[upto - 1][i]) == (k == upto - 1));
            if k == upto - 1 {
                assert(Seq::<Article>::empty().push(g[k][i]) =~= seq![g[k][i]]);
            }
        }
    }
}

proof fn lemma_rounds_filter(s: Seq<Article>, per: nat, n: int, k: int)
    requires
        0 <= n,
        0 <= k < 4,
    ensures
        ({
            let g = round_robin_groups(s, per);
            rounds(g, n).filter(in_collection(collection_names()[k])) == if n <= g[k].len() {
                g[k].take(n)
            } else {
                g[k]
            }
        }),
    decreases n,
{
    let g = round_robin_groups(s, per);
    let pred = in_collection(collection_names()[k]);
    if n == 0 {
        reveal_with_fuel(Seq::<_>::filter, 1);
        assert(g[k].take(0) =~= Seq::<Article>::empty());
    } else {
        lemma_rounds_filter(s, per, n - 1, k);
        lemma_round_row_filter(s, per, n - 1, 4, k);
        Seq::filter_distributes_over_add(rounds(g, n - 1), round_row(g, n - 1, 4), pred);
        if n <= g[k].len() {
            assert(g[k].take(n - 1).push(g[k][n - 1]) =~= g[k].take(n));
            assert(g[k].take(n - 1) + seq![g[k][n - 1]] =~= g[k].take(n));
        } else if n - 1 == g[k].len() {
            assert(g[k].take(n - 1) =~= g[k]);
            assert(g[k] + Seq::<Article>::empty() =~= g[k]);
        } else {
            assert(g[k] + Seq::<Article>::empty() =~= g[k]);
        }
    }
}

/// The interleaving is balanced and loses nothing it should show: the
/// articles it takes from each collection are exactly that collection's
/// newest `per` articles, newest-first.
pub proof fn lemma_round_robin_per_collection(s: Seq<Article>, per: nat, k: int)
    requires
        0 <= k < 4,
    ensures
        round_robin(s, per).filter(in_collection(collection_names()[k])) == first_n(
            collection_of(s, collection_names()[k]),
            per,
        ),
{
    let g = round_robin_groups(s, per);
    lemma_max_group_len(g, 4);
    lemma_rounds_filter(s, per, max_group_len(g, 4) as int, k);
    assert(g[k].len() <= max_group_len(g, 4));
    if max_group_len(g, 4) == g[k].len() {
        assert(g[k].take(g[k].len() as int) =~= g[k]);
    }
}

} // verus!
