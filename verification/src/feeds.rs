//! The RSS 2.0 feed and the XML sitemap, built from the content store.

use vstd::prelude::*;
use crate::content::{
    article_key, collection_names, collections, date_key, date_key_of, Article, ContentStore, DateKey,
};
use crate::content::{all_digits, digit_value, digits_value, is_digit, parse_u32};
use crate::text::{
    char_utf8_len, chars_of, contains, free_of, lemma_split_three, matches_at, push_char, split_on,
    utf8_len,
};

verus! {

/// The site's origin.
pub open spec fn site_url() -> Seq<char> {
    "https://robertshalders.com"@
}

/// The site's origin.
pub fn site_url_str() -> (s: &'static str)
    ensures
        s@ == site_url(),
{
    "https://robertshalders.com"
}

/// One character as XML text: `&`, `<` and `>` become entities.
pub open spec fn xml_escape_char(c: char) -> Seq<char> {
    if c == '&' {
        "&amp;"@
    } else if c == '<' {
        "&lt;"@
    } else if c == '>' {
        "&gt;"@
    } else {
        seq![c]
    }
}

/// `s` as XML text: `&`, `<` and `>` replaced by `&amp;`, `&lt;` and `&gt;`
/// (the effect of replacing `&` first, then `<`, then `>`).
pub open spec fn xml_escape(s: Seq<char>) -> Seq<char>
    decreases s.len(),
{
    if s.len() == 0 {
        Seq::empty()
    } else {
        xml_escape(s.drop_last()) + xml_escape_char(s.last())
    }
}

/// Appends `s`, escaped as XML text, to `out`.
pub fn push_xml_escaped(out: &mut String, s: &str)
    ensures
        final(out)@ == old(out)@ + xml_escape(s@),
{
    let v = chars_of(s);
    let mut i: usize = 0;
    while i < v.len()
        invariant
            i <= v@.len(),
            v@ == s@,
            out@ == old(out)@ + xml_escape(v@.take(i as int)),
        decreases v@.len() - i,
    {
        let c = v[i];
        assert(v@.take(i + 1).drop_last() =~= v@.take(i as int));
        if c == '&' {
            out.append("&amp;");
        } else if c == '<' {
            out.append("&lt;");
        } else if c == '>' {
            out.append("&gt;");
        } else {
            push_char(out, c);
        }
        assert(out@ =~= old(out)@ + xml_escape(v@.take(i + 1)));
        i = i + 1;
    }
    assert(v@.take(v@.len() as int) =~= v@);
}

/// `s` escaped as XML text.
pub fn xml_escape_str(s: &str) -> (r: String)
    ensures
        r@ == xml_escape(s@),
{
    let mut r = String::new();
    push_xml_escaped(&mut r, s);
    r
}

/// The absolute URL of an article page.
pub open spec fn article_url(a: Article) -> Seq<char> {
    site_url() + "/"@ + a.collection@ + "/"@ + a.meta.slug@
}

fn push_article_url(out: &mut String, a: &Article)
    ensures
        final(out)@ == old(out)@ + article_url(*a),
{
    out.append(site_url_str());
    out.append("/");
    out.append(a.collection.as_str());
    out.append("/");
    out.append(a.meta.slug.as_str());
}

// ---------------------------------------------------------------------------
// Feed dates
// ---------------------------------------------------------------------------

/// Gregorian leap years.
pub open spec fn is_leap_year(y: int) -> bool {
    y % 4 == 0 && (y % 100 != 0 || y % 400 == 0)
}

/// The number of days in month `m` of year `y`.
pub open spec fn days_in_month(y: int, m: int) -> int {
    if m == 2 {
        if is_leap_year(y) {
            29
        } else {
            28
        }
    } else if m == 4 || m == 6 || m == 9 || m == 11 {
        30
    } else {
        31
    }
}

/// A sort key that names a real calendar day with a year of at most four
/// digits: the dates the feeds can write. Unparseable `published` values
/// (key `(0, 0, 0)`) and impossible days are not.
pub open spec fn is_calendar_date(k: DateKey) -> bool {
    &&& k.0 <= 9999
    &&& 1 <= k.1 <= 12
    &&& 1 <= k.2 <= days_in_month(k.0 as int, k.1 as int)
}

/// The ASCII digit for `n` (0 to 9).
pub open spec fn digit_char(n: int) -> char {
    (('0' as u32) + n) as char
}

/// `n` (below 100) as two decimal digits.
pub open spec fn two_digits(n: int) -> Seq<char> {
    seq![digit_char(n / 10), digit_char(n % 10)]
}

/// `n` (below 10000) as four decimal digits.
pub open spec fn four_digits(n: int) -> Seq<char> {
    seq![digit_char(n / 1000), digit_char((n / 100) % 10), digit_char((n / 10) % 10), digit_char(n % 10)]
}

/// The English three-letter abbreviation of month `m` that RFC 822 uses.
pub open spec fn month_name(m: int) -> Seq<char> {
    if m == 1 {
        "Jan"@
    } else if m == 2 {
        "Feb"@
    } else if m == 3 {
        "Mar"@
    } else if m == 4 {
        "Apr"@
    } else if m == 5 {
        "May"@
    } else if m == 6 {
        "Jun"@
    } else if m == 7 {
        "Jul"@
    } else if m == 8 {
        "Aug"@
    } else if m == 9 {
        "Sep"@
    } else if m == 10 {
        "Oct"@
    } else if m == 11 {
        "Nov"@
    } else {
        "Dec"@
    }
}

/// The RFC 822 date-time of midnight GMT on the day `k`, with the four-digit
/// year RSS 2.0 recommends and without the optional day of the week:
/// `21 Jun 2026 00:00:00 GMT`.
pub open spec fn rfc822_date(k: DateKey) -> Seq<char> {
    two_digits(k.2 as int) + " "@ + month_name(k.1 as int) + " "@ + four_digits(k.0 as int)
        + " 00:00:00 GMT"@
}

/// The W3C (ISO 8601) date of the day `k`: `2026-06-21`.
pub open spec fn w3c_date(k: DateKey) -> Seq<char> {
    four_digits(k.0 as int) + "-"@ + two_digits(k.1 as int) + "-"@ + two_digits(k.2 as int)
}

/// The Gregorian calendar's month lengths: January, March, May, July,
/// August, October and December have 31 days; April, June, September and
/// November 30; February 29 in years divisible by 4 but not by 100 unless by
/// 400, else 28. The months add up to 365 days, 366 in a leap year; the last
/// day of every month is a calendar day, and the day after it is not.
pub proof fn lemma_gregorian_months(y: int)
    ensures
        days_in_month(y, 1) == 31 && days_in_month(y, 3) == 31 && days_in_month(y, 5) == 31,
        days_in_month(y, 7) == 31 && days_in_month(y, 8) == 31 && days_in_month(y, 10) == 31,
        days_in_month(y, 12) == 31,
        days_in_month(y, 4) == 30 && days_in_month(y, 6) == 30,
        days_in_month(y, 9) == 30 && days_in_month(y, 11) == 30,
        days_in_month(y, 2) == (if (y % 400 == 0) || (y % 4 == 0 && y % 100 != 0) {
            29int
        } else {
            28int
        }),
        days_in_month(y, 1) + days_in_month(y, 2) + days_in_month(y, 3) + days_in_month(y, 4)
            + days_in_month(y, 5) + days_in_month(y, 6) + days_in_month(y, 7) + days_in_month(y, 8)
            + days_in_month(y, 9) + days_in_month(y, 10) + days_in_month(y, 11) + days_in_month(
            y,
            12,
        ) == (if is_leap_year(y) {
            366int
        } else {
            365int
        }),
{
}

/// Every month's last day is a calendar day and the day after it is not.
pub proof fn lemma_month_ends(k: DateKey)
    requires
        k.0 <= 9999,
        1 <= k.1 <= 12,
    ensures
        is_calendar_date((k.0, k.1, days_in_month(k.0 as int, k.1 as int) as u32)),
        !is_calendar_date((k.0, k.1, (days_in_month(k.0 as int, k.1 as int) + 1) as u32)),
        is_calendar_date((k.0, 12, 31)),
        is_calendar_date((k.0, 1, 31)),
{
}

proof fn lemma_digit_char(n: int)
    requires
        0 <= n < 10,
    ensures
        is_digit(digit_char(n)),
        digit_value(digit_char(n)) == n,
        char_utf8_len(digit_char(n)) == 1,
        digit_char(n) != '-',
        digit_char(n) != '+',
{
}

proof fn lemma_four_digits(n: int)
    requires
        0 <= n < 10000,
    ensures
        parse_u32(four_digits(n)) == Some(n as u32),
        utf8_len(four_digits(n)) == 4,
        free_of(four_digits(n), '-'),
{
    let s = four_digits(n);
    let (a, b, c, d) = (n / 1000, (n / 100) % 10, (n / 10) % 10, n % 10);
    lemma_digit_char(a);
    lemma_digit_char(b);
    lemma_digit_char(c);
    lemma_digit_char(d);
    assert(s.drop_last() =~= seq![digit_char(a), digit_char(b), digit_char(c)]);
    assert(s.drop_last().drop_last() =~= seq![digit_char(a), digit_char(b)]);
    assert(s.drop_last().drop_last().drop_last() =~= seq![digit_char(a)]);
    assert(s.drop_last().drop_last().drop_last().drop_last() =~= Seq::<char>::empty());
    assert(digits_value(Seq::<char>::empty()) == 0);
    assert(digits_value(seq![digit_char(a)]) == a);
    assert(digits_value(seq![digit_char(a), digit_char(b)]) == a * 10 + b);
    assert(digits_value(seq![digit_char(a), digit_char(b), digit_char(c)]) == (a * 10 + b) * 10 + c);
    assert(digits_value(s) == ((a * 10 + b) * 10 + c) * 10 + d);
    assert(((a * 10 + b) * 10 + c) * 10 + d == n);
    assert(utf8_len(Seq::<char>::empty()) == 0);
    assert(utf8_len(seq![digit_char(a)]) == 1);
    assert(utf8_len(seq![digit_char(a), digit_char(b)]) == 2);
    assert(utf8_len(seq![digit_char(a), digit_char(b), digit_char(c)]) == 3);
    assert(all_digits(s));
    assert(s[0] != '+');
}

proof fn lemma_two_digits(n: int)
    requires
        0 <= n < 100,
    ensures
        parse_u32(two_digits(n)) == Some(n as u32),
        utf8_len(two_digits(n)) == 2,
        free_of(two_digits(n), '-'),
{
    let s = two_digits(n);
    let (a, b) = (n / 10, n % 10);
    lemma_digit_char(a);
    lemma_digit_char(b);
    assert(s.drop_last() =~= seq![digit_char(a)]);
    assert(s.drop_last().drop_last() =~= Seq::<char>::empty());
    assert(digits_value(Seq::<char>::empty()) == 0);
    assert(digits_value(seq![digit_char(a)]) == a);
    assert(digits_value(s) == a * 10 + b);
    assert(utf8_len(Seq::<char>::empty()) == 0);
    assert(utf8_len(seq![digit_char(a)]) == 1);
    assert(all_digits(s));
    assert(s[0] != '+');
}

/// The sitemap's dates read back as the same day: the sort key of a W3C date
/// `yyyy-mm-dd` written for a key is that key.
pub proof fn lemma_w3c_date_round_trip(k: DateKey)
    requires
        k.0 <= 9999,
        k.1 < 100,
        k.2 < 100,
    ensures
        date_key_of(w3c_date(k)) == k,
{
    reveal_strlit("-");
    let y = four_digits(k.0 as int);
    let m = two_digits(k.1 as int);
    let d = two_digits(k.2 as int);
    lemma_four_digits(k.0 as int);
    lemma_two_digits(k.1 as int);
    lemma_two_digits(k.2 as int);
    assert(w3c_date(k) =~= y + seq!['-'] + m + seq!['-'] + d);
    lemma_split_three(y, m, d, '-');
    let p = split_on(w3c_date(k), '-');
    assert(p == seq![y, m, d]);
    assert(p[0] == y && p[1] == m && p[2] == d);
}

/// RFC 822 names the months by their first three English letters, January
/// to December, all different.
pub proof fn lemma_month_names()
    ensures
        seq![
            month_name(1), month_name(2), month_name(3), month_name(4), month_name(5),
            month_name(6), month_name(7), month_name(8), month_name(9), month_name(10),
            month_name(11), month_name(12),
        ] == seq![
            "Jan"@, "Feb"@, "Mar"@, "Apr"@, "May"@, "Jun"@, "Jul"@, "Aug"@, "Sep"@, "Oct"@,
            "Nov"@, "Dec"@,
        ],
        forall|m: int, n: int|
            1 <= m <= 12 && 1 <= n <= 12 && m != n ==> #[trigger] month_name(m) != #[trigger] month_name(n),
{
    reveal_strlit("Jan");
    reveal_strlit("Feb");
    reveal_strlit("Mar");
    reveal_strlit("Apr");
    reveal_strlit("May");
    reveal_strlit("Jun");
    reveal_strlit("Jul");
    reveal_strlit("Aug");
    reveal_strlit("Sep");
    reveal_strlit("Oct");
    reveal_strlit("Nov");
    reveal_strlit("Dec");
    assert forall|m: int, n: int|
        1 <= m <= 12 && 1 <= n <= 12 && m != n implies #[trigger] month_name(m) != #[trigger] month_name(n) by {
        let a = month_name(m);
        let b = month_name(n);
        assert(a[0] != b[0] || a[1] != b[1] || a[2] != b[2]);
    }
}

/// Whether the sort key names a calendar day the feeds can write.
pub fn calendar_date(k: DateKey) -> (r: bool)
    ensures
        r == is_calendar_date(k),
{
    let (y, m, d) = k;
    if y > 9999 || m < 1 || m > 12 || d < 1 {
        return false;
    }
    let days: u32 = if m == 2 {
        if y % 4 == 0 && (y % 100 != 0 || y % 400 == 0) {
            29
        } else {
            28
        }
    } else if m == 4 || m == 6 || m == 9 || m == 11 {
        30
    } else {
        31
    };
    d <= days
}

fn digit(n: u32) -> (c: char)
    requires
        n < 10,
    ensures
        c == digit_char(n as int),
{
    match n {
        0 => '0',
        1 => '1',
        2 => '2',
        3 => '3',
        4 => '4',
        5 => '5',
        6 => '6',
        7 => '7',
        8 => '8',
        _ => '9',
    }
}

fn push_two_digits(out: &mut String, n: u32)
    requires
        n < 100,
    ensures
        final(out)@ == old(out)@ + two_digits(n as int),
{
    push_char(out, digit(n / 10));
    push_char(out, digit(n % 10));
    assert(out@ =~= old(out)@ + two_digits(n as int));
}

fn push_four_digits(out: &mut String, n: u32)
    requires
        n < 10000,
    ensures
        final(out)@ == old(out)@ + four_digits(n as int),
{
    push_char(out, digit(n / 1000));
    push_char(out, digit((n / 100) % 10));
    push_char(out, digit((n / 10) % 10));
    push_char(out, digit(n % 10));
    assert(out@ =~= old(out)@ + four_digits(n as int));
}

fn month_str(m: u32) -> (r: &'static str)
    ensures
        r@ == month_name(m as int),
{
    if m == 1 {
        "Jan"
    } else if m == 2 {
        "Feb"
    } else if m == 3 {
        "Mar"
    } else if m == 4 {
        "Apr"
    } else if m == 5 {
        "May"
    } else if m == 6 {
        "Jun"
    } else if m == 7 {
        "Jul"
    } else if m == 8 {
        "Aug"
    } else if m == 9 {
        "Sep"
    } else if m == 10 {
        "Oct"
    } else if m == 11 {
        "Nov"
    } else {
        "Dec"
    }
}

/// The RFC 822 date-time of the calendar day `k`.
pub fn rfc822_date_str(k: DateKey) -> (r: String)
    requires
        is_calendar_date(k),
    ensures
        r@ == rfc822_date(k),
{
    let mut r = String::new();
    push_two_digits(&mut r, k.2);
    r.append(" ");
    r.append(month_str(k.1));
    r.append(" ");
    push_four_digits(&mut r, k.0);
    r.append(" 00:00:00 GMT");
    r
}

/// The W3C date `yyyy-mm-dd` of the calendar day `k`.
pub fn w3c_date_str(k: DateKey) -> (r: String)
    requires
        is_calendar_date(k),
    ensures
        r@ == w3c_date(k),
{
    let mut r = String::new();
    push_four_digits(&mut r, k.0);
    r.append("-");
    push_two_digits(&mut r, k.1);
    r.append("-");
    push_two_digits(&mut r, k.2);
    r
}

/// The description of an article, or nothing.
pub open spec fn description_or_empty(a: Article) -> Seq<char> {
    match a.meta.description {
        Some(d) => d@,
        None => Seq::empty(),
    }
}

/// The `<item>` of one article in the RSS feed.
pub open spec fn rss_item(a: Article) -> Seq<char> {
    "    <item>\n      <title>"@ + xml_escape(a.meta.title@) + "</title>\n      <link>"@
        + article_url(a) + "</link>\n      <description>"@ + xml_escape(description_or_empty(a))
        + "</description>\n"@ + pub_date_line(a) + "      <guid>"@ + article_url(a)
        + "</guid>\n    </item>\n"@
}

/// The item's `<pubDate>` line: the RFC 822 date of its `published` day, or
/// no line when `published` names no calendar day (the element is optional).
pub open spec fn pub_date_line(a: Article) -> Seq<char> {
    if is_calendar_date(article_key(a)) {
        "      <pubDate>"@ + rfc822_date(article_key(a)) + "</pubDate>\n"@
    } else {
        Seq::empty()
    }
}

/// The items of the feed, one per article, in order.
pub open spec fn rss_items(s: Seq<Article>) -> Seq<char>
    decreases s.len(),
{
    if s.len() == 0 {
        Seq::empty()
    } else {
        rss_items(s.drop_last()) + rss_item(s.last())
    }
}

/// The feed's opening, up to its first item.
pub open spec fn rss_head() -> Seq<char> {
    "<?xml version=\"1.0\" encoding=\"UTF-8\"?>\n<rss version=\"2.0\" xmlns:atom=\"http://www.w3.org/2005/Atom\">\n  <channel>\n    <title>Robert Shalders</title>\n    <link>https://robertshalders.com</link>\n    <description>Technical articles on distributed systems, Rust, infrastructure, and more.</description>\n    <language>en-gb</language>\n    <atom:link href=\"https://robertshalders.com/rss.xml\" rel=\"self\" type=\"application/rss+xml\"/>\n"@
}

/// The RSS 2.0 document for the articles `s`.
pub open spec fn rss_document(s: Seq<Article>) -> Seq<char> {
    rss_head() + rss_items(s) + "  </channel>\n</rss>"@
}

fn push_pub_date(out: &mut String, a: &Article)
    ensures
    final(out)@ == old(out)@ + pub_date_line(*a),
{
    let k = date_key(a.meta.published.as_str());
    if calendar_date(k) {
    out.append("      <pubDate>");
    let date = rfc822_date_str(k);
    out.append(date.as_str());
    out.append("</pubDate>\n");
    } else {
    assert(pub_date_line(*a) =~= Seq::<char>::empty());
    }
}

fn push_rss_item(out: &mut String, a: &Article)
    ensures
        final(out)@ == old(out)@ + rss_item(*a),
{
    out.append("    <item>\n      <title>");
    push_xml_escaped(out, a.meta.title.as_str());
    out.append("</title>\n      <link>");
    push_article_url(out, a);
    out.append("</link>\n      <description>");
    match &a.meta.description {
        Some(d) => push_xml_escaped(out, d.as_str()),
        None => {
            assert(xml_escape(description_or_empty(*a)) =~= Seq::<char>::empty());
        },
    }
    out.append("</description>\n");
    push_pub_date(out, a);
    out.append("      <guid>");
    push_article_url(out, a);
    out.append("</guid>\n    </item>\n");
    assert(out@ =~= old(out)@ + rss_item(*a));
}

/// GET /rss.xml - RSS 2.0 feed of all articles, newest-first.
pub fn rss(content: &ContentStore) -> (xml: String)
    ensures
        xml@ == rss_document(content@),
{
    let articles = content.all_articles();
    let mut xml = String::from_str(
        "<?xml version=\"1.0\" encoding=\"UTF-8\"?>\n<rss version=\"2.0\" xmlns:atom=\"http://www.w3.org/2005/Atom\">\n  <channel>\n    <title>Robert Shalders</title>\n    <link>https://robertshalders.com</link>\n    <description>Technical articles on distributed systems, Rust, infrastructure, and more.</description>\n    <language>en-gb</language>\n    <atom:link href=\"https://robertshalders.com/rss.xml\" rel=\"self\" type=\"application/rss+xml\"/>\n",
    );
    let mut i: usize = 0;
    while i < articles.len()
        invariant
            i <= articles@.len(),
            articles@ == content@,
            xml@ == rss_head() + rss_items(articles@.take(i as int)),
        decreases articles@.len() - i,
    {
        let a = &articles[i];
        assert(articles@.take(i + 1).drop_last() =~= articles@.take(i as int));
        push_rss_item(&mut xml, a);
        assert(xml@ =~= rss_head() + rss_items(articles@.take(i + 1)));
        i = i + 1;
    }
    assert(articles@.take(articles@.len() as int) =~= articles@);
    xml.append("  </channel>\n</rss>");
    xml
}

/// A sitemap entry for a page that changes weekly.
pub open spec fn weekly_url(path: Seq<char>) -> Seq<char> {
    "  <url><loc>"@ + site_url() + path + "</loc><changefreq>weekly</changefreq></url>\n"@
}

/// The sitemap entry of an article, dated with the W3C date of its
/// `published` day; undated when `published` names no calendar day (the
/// element is optional).
pub open spec fn article_sitemap_url(a: Article) -> Seq<char> {
    "  <url><loc>"@ + article_url(a) + "</loc>"@ + (if is_calendar_date(article_key(a)) {
        "<lastmod>"@ + w3c_date(article_key(a)) + "</lastmod>"@
    } else {
        Seq::empty()
    }) + "</url>\n"@
}

/// Sitemap entries for the collection index pages `cs[..n]`.
pub open spec fn collection_urls(cs: Seq<Seq<char>>, n: int) -> Seq<char>
    decreases n,
{
    if n <= 0 {
        Seq::empty()
    } else {
        collection_urls(cs, n - 1) + weekly_url("/"@ + cs[n - 1])
    }
}

/// Sitemap entries for the articles `s`, in order.
pub open spec fn article_urls(s: Seq<Article>) -> Seq<char>
    decreases s.len(),
{
    if s.len() == 0 {
        Seq::empty()
    } else {
        article_urls(s.drop_last()) + article_sitemap_url(s.last())
    }
}

/// The XML sitemap: the home, profile and articles pages, each collection's
/// index page, then every article.
pub open spec fn sitemap_document(s: Seq<Article>) -> Seq<char> {
    "<?xml version=\"1.0\" encoding=\"UTF-8\"?>\n<urlset xmlns=\"http://www.sitemaps.org/schemas/sitemap/0.9\">\n"@
        + weekly_url("/"@) + weekly_url("/profile"@) + weekly_url("/articles"@) + collection_urls(
        collection_names(),
        4,
    ) + article_urls(s) + "</urlset>"@
}

fn push_weekly_url(out: &mut String, path: &str)
    ensures
        final(out)@ == old(out)@ + weekly_url(path@),
{
    out.append("  <url><loc>");
    out.append(site_url_str());
    out.append(path);
    out.append("</loc><changefreq>weekly</changefreq></url>\n");
}

fn push_article_sitemap_url(out: &mut String, a: &Article)
    ensures
        final(out)@ == old(out)@ + article_sitemap_url(*a),
{
    out.append("  <url><loc>");
    push_article_url(out, a);
    out.append("</loc>");
    let k = date_key(a.meta.published.as_str());
    if calendar_date(k) {
        out.append("<lastmod>");
        let date = w3c_date_str(k);
        out.append(date.as_str());
        out.append("</lastmod>");
    }
    out.append("</url>\n");
    assert(out@ =~= old(out)@ + article_sitemap_url(*a));
}

/// GET /sitemap.xml - XML sitemap for search engines.
pub fn sitemap(content: &ContentStore) -> (xml: String)
    ensures
        xml@ == sitemap_document(content@),
{
    let mut xml = String::from_str(
        "<?xml version=\"1.0\" encoding=\"UTF-8\"?>\n<urlset xmlns=\"http://www.sitemaps.org/schemas/sitemap/0.9\">\n",
    );
    push_weekly_url(&mut xml, "/");
    push_weekly_url(&mut xml, "/profile");
    push_weekly_url(&mut xml, "/articles");
    let ghost head = xml@;
    let names = collections();
    let mut c: usize = 0;
    while c < 4
        invariant
            c <= 4,
            names@.len() == 4,
            forall|j: int| 0 <= j < 4 ==> #[trigger] names@[j]@ == collection_names()[j],
            xml@ == head + collection_urls(collection_names(), c as int),
        decreases 4 - c,
    {
        xml.append("  <url><loc>");
        xml.append(site_url_str());
        xml.append("/");
        xml.append(names[c]);
        xml.append("</loc><changefreq>weekly</changefreq></url>\n");
        assert(xml@ =~= head + collection_urls(collection_names(), c + 1));
        c = c + 1;
    }
    let ghost mid = xml@;
    let articles = content.all_articles();
    let mut i: usize = 0;
    while i < articles.len()
        invariant
            i <= articles@.len(),
            articles@ == content@,
            xml@ == mid + article_urls(articles@.take(i as int)),
        decreases articles@.len() - i,
    {
        let a = &articles[i];
        assert(articles@.take(i + 1).drop_last() =~= articles@.take(i as int));
        push_article_sitemap_url(&mut xml, a);
        assert(xml@ =~= mid + article_urls(articles@.take(i + 1)));
        i = i + 1;
    }
    assert(articles@.take(articles@.len() as int) =~= articles@);
    xml.append("</urlset>");
    xml
}

/// Escaped text holds no `<` and no `>`: it cannot open or close an element.
pub proof fn lemma_xml_escape_no_markup(s: Seq<char>)
    ensures
        forall|i: int|
            0 <= i < xml_escape(s).len() ==> #[trigger] xml_escape(s)[i] != '<' && xml_escape(s)[i]
                != '>',
    decreases s.len(),
{
    if s.len() > 0 {
        lemma_xml_escape_no_markup(s.drop_last());
        reveal_strlit("&amp;");
        reveal_strlit("&lt;");
        reveal_strlit("&gt;");
        let a = xml_escape(s.drop_last());
        let b = xml_escape_char(s.last());
        assert forall|i: int| 0 <= i < (a + b).len() implies #[trigger] (a + b)[i] != '<' && (a
            + b)[i] != '>' by {
            if i >= a.len() {
                assert((a + b)[i] == b[i - a.len()]);
            }
        }
    }
}

proof fn lemma_contains_concat(x: Seq<char>, p: Seq<char>, y: Seq<char>, z: Seq<char>)
    requires
        contains(y, p),
    ensures
        contains(x + y + z, p),
{
    let i = choose|i: int| matches_at(y, p, i);
    assert((x + y + z).subrange(x.len() + i, x.len() + i + p.len()) =~= y.subrange(i, i + p.len()));
    assert(matches_at(x + y + z, p, x.len() + i));
}

proof fn lemma_article_urls_list(s: Seq<Article>, j: int)
    requires
        0 <= j < s.len(),
    ensures
        contains(article_urls(s), article_sitemap_url(s[j])),
    decreases s.len(),
{
    let p = article_sitemap_url(s[j]);
    if j == s.len() - 1 {
        assert(p.subrange(0, p.len() as int) =~= p);
        assert(matches_at(p, p, 0));
        lemma_contains_concat(article_urls(s.drop_last()), p, p, Seq::empty());
        assert(article_urls(s.drop_last()) + p + Seq::<char>::empty() =~= article_urls(s));
    } else {
        lemma_article_urls_list(s.drop_last(), j);
        assert(s.drop_last()[j] == s[j]);
        lemma_contains_concat(Seq::empty(), p, article_urls(s.drop_last()), article_sitemap_url(s.last()));
        assert(Seq::<char>::empty() + article_urls(s.drop_last()) + article_sitemap_url(s.last()) =~= article_urls(s));
    }
}

/// Every article is listed in the sitemap, with its URL and date.
pub proof fn lemma_sitemap_lists_every_article(s: Seq<Article>, j: int)
    requires
        0 <= j < s.len(),
    ensures
        contains(sitemap_document(s), article_sitemap_url(s[j])),
{
    lemma_article_urls_list(s, j);
    let pre = "<?xml version=\"1.0\" encoding=\"UTF-8\"?>\n<urlset xmlns=\"http://www.sitemaps.org/schemas/sitemap/0.9\">\n"@
        + weekly_url("/"@) + weekly_url("/profile"@) + weekly_url("/articles"@) + collection_urls(
        collection_names(),
        4,
    );
    lemma_contains_concat(pre, article_sitemap_url(s[j]), article_urls(s), "</urlset>"@);
    assert(pre + article_urls(s) + "</urlset>"@ =~= sitemap_document(s));
}

proof fn lemma_rss_items_list(s: Seq<Article>, j: int)
    requires
        0 <= j < s.len(),
    ensures
        contains(rss_items(s), rss_item(s[j])),
    decreases s.len(),
{
    let p = rss_item(s[j]);
    if j == s.len() - 1 {
        assert(p.subrange(0, p.len() as int) =~= p);
        assert(matches_at(p, p, 0));
        lemma_contains_concat(rss_items(s.drop_last()), p, p, Seq::empty());
        assert(rss_items(s.drop_last()) + p + Seq::<char>::empty() =~= rss_items(s));
    } else {
        lemma_rss_items_list(s.drop_last(), j);
        assert(s.drop_last()[j] == s[j]);
        lemma_contains_concat(Seq::empty(), p, rss_items(s.drop_last()), rss_item(s.last()));
        assert(Seq::<char>::empty() + rss_items(s.drop_last()) + rss_item(s.last()) =~= rss_items(s));
    }
}

/// Every article has its item in the RSS feed.
pub proof fn lemma_rss_lists_every_article(s: Seq<Article>, j: int)
    requires
        0 <= j < s.len(),
    ensures
        contains(rss_document(s), rss_item(s[j])),
{
    lemma_rss_items_list(s, j);
    lemma_contains_concat(rss_head(), rss_item(s[j]), rss_items(s), "  </channel>\n</rss>"@);
}

} // verus!
