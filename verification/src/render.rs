//! The RSS projector: a pure, deterministic rendering of a feed as an RSS 2.0
//! XML document, pretty-printed with 2-space indentation.

use vstd::prelude::*;
use crate::model::{Feed, FeedError, FeedView, Link, LinkView, links_view, opt_view};
use crate::rfc2822::{pub_date_view, to_datetime};

verus! {

/// Concatenation of character sequences is associative.
proof fn lemma_cassoc(a: Seq<char>, b: Seq<char>, c: Seq<char>)
    ensures
        (a + b) + c == a + (b + c),
{
    assert((a + b) + c =~= a + (b + c));
}

/// How one character appears in XML text content.
pub open spec fn xml_escape_char(c: char) -> Seq<char> {
    if c == '&' {
        "&amp;"@
    } else if c == '<' {
        "&lt;"@
    } else if c == '>' {
        "&gt;"@
    } else {
        seq![c]
    }
}

/// How a string appears in XML text content.
pub open spec fn xml_escape(s: Seq<char>) -> Seq<char>
    decreases s.len(),
{
    if s.len() == 0 {
        Seq::empty()
    } else {
        xml_escape_char(s[0]) + xml_escape(s.drop_first())
    }
}

/// Escaping one more character extends the escaped text at the end.
proof fn lemma_xml_escape_snoc(s: Seq<char>)
    requires
        s.len() > 0,
    ensures
        xml_escape(s) == xml_escape(s.drop_last()) + xml_escape_char(s.last()),
    decreases s.len(),
{
    if s.len() == 1 {
        assert(s.drop_last() =~= Seq::<char>::empty());
        assert(xml_escape(s.drop_last()) + xml_escape_char(s.last()) =~= xml_escape_char(s[0]));
        assert(s.drop_first() =~= Seq::<char>::empty());
        assert(xml_escape_char(s[0]) + xml_escape(s.drop_first()) =~= xml_escape_char(s[0]));
    } else {
        let t = s.drop_first();
        lemma_xml_escape_snoc(t);
        assert(t.drop_last() =~= s.drop_last().drop_first());
        assert(t.last() == s.last());
        lemma_cassoc(xml_escape_char(s[0]), xml_escape(t.drop_last()), xml_escape_char(s.last()));
        assert(s.drop_last().len() > 0);
        assert(s.drop_last()[0] == s[0]);
    }
}

/// Appends `s`, escaped for XML text content.
fn push_escaped(out: &mut String, s: &str)
    ensures
        final(out)@ == old(out)@ + xml_escape(s@),
{
    let n = s.unicode_len();
    let mut i: usize = 0;
    while i < n
        invariant
            i <= n,
            n == s@.len(),
            out@ == old(out)@ + xml_escape(s@.take(i as int)),
        decreases n - i,
    {
        let c = s.get_char(i);
        if c == '&' {
            out.append("&amp;");
        } else if c == '<' {
            out.append("&lt;");
        } else if c == '>' {
            out.append("&gt;");
        } else {
            crate::filter::push_char(out, c);
        }
        proof {
            let t = s@.take(i as int + 1);
            lemma_xml_escape_snoc(t);
            assert(t.drop_last() =~= s@.take(i as int));
            assert(t.last() == s@[i as int]);
            assert(c != '&' && c != '<' && c != '>' ==> xml_escape_char(c) =~= seq![c]);
            lemma_cassoc(old(out)@, xml_escape(s@.take(i as int)), xml_escape_char(c));
        }
        i = i + 1;
    }
    proof {
        assert(s@.take(n as int) =~= s@);
    }
}

/// An XML element: opening text, escaped body, closing text.
pub open spec fn elem_xml(open: Seq<char>, body: Seq<char>, close: Seq<char>) -> Seq<char> {
    open + xml_escape(body) + close
}

/// Appends one XML element with an escaped body.
fn push_elem(out: &mut String, open: &str, body: &str, close: &str)
    ensures
        final(out)@ == old(out)@ + elem_xml(open@, body@, close@),
{
    out.append(open);
    push_escaped(out, body);
    out.append(close);
    proof {
        lemma_cassoc(old(out)@, open@, xml_escape(body@));
        lemma_cassoc(old(out)@, open@ + xml_escape(body@), close@);
    }
}

/// The item's description element, or nothing when no summary is present.
pub open spec fn description_xml(summary: Option<Seq<char>>) -> Seq<char> {
    match summary {
        Some(s) => elem_xml("      <description>"@, s, "</description>\n"@),
        None => Seq::empty(),
    }
}

/// Appends the description element when a summary is present.
fn push_description(out: &mut String, summary: &Option<String>)
    ensures
        final(out)@ == old(out)@ + description_xml(opt_view(*summary)),
{
    match summary {
        Some(s) => {
            push_elem(out, "      <description>", s.as_str(), "</description>\n");
        },
        None => {
            proof {
                assert(old(out)@ + Seq::<char>::empty() =~= old(out)@);
            }
        },
    }
}

/// One category element per tag, in tag order.
pub open spec fn cats_xml(tags: Seq<Seq<char>>) -> Seq<char>
    decreases tags.len(),
{
    if tags.len() == 0 {
        Seq::empty()
    } else {
        elem_xml("      <category>"@, tags[0], "</category>\n"@) + cats_xml(tags.drop_first())
    }
}

/// Appends the category elements for `tags[from..]`.
fn push_cats(out: &mut String, tags: &Vec<String>, from: usize)
    requires
        from <= tags@.len(),
    ensures
        final(out)@ == old(out)@ + cats_xml(tags.deep_view().skip(from as int)),
    decreases tags@.len() - from,
{
    let ghost dv = tags.deep_view();
    if from < tags.len() {
        push_elem(out, "      <category>", tags[from].as_str(), "</category>\n");
        push_cats(out, tags, from + 1);
        proof {
            assert(dv.skip(from as int)[0] == tags@[from as int]@);
            assert(dv.skip(from as int).drop_first() =~= dv.skip(from as int + 1));
            lemma_cassoc(
                old(out)@,
                elem_xml("      <category>"@, dv.skip(from as int)[0], "</category>\n"@),
                cats_xml(dv.skip(from as int + 1)),
            );
        }
    } else {
        proof {
            assert(dv.skip(from as int) =~= Seq::<Seq<char>>::empty());
            assert(old(out)@ + cats_xml(dv.skip(from as int)) =~= old(out)@);
        }
    }
}

/// The item's publication date element, or nothing when the timestamp is
/// absent or out of range.
pub open spec fn pubdate_xml(dt: Option<crate::model::Timestamp>) -> Seq<char> {
    match pub_date_view(dt) {
        Some(d) => "      <pubDate>"@ + d + "</pubDate>\n"@,
        None => Seq::empty(),
    }
}

/// Appends the publication date element when the timestamp renders.
fn push_pubdate(out: &mut String, dt: &Option<crate::model::Timestamp>)
    ensures
        final(out)@ == old(out)@ + pubdate_xml(*dt),
{
    match to_datetime(dt) {
        Some(d) => {
            out.append("      <pubDate>");
            out.append(d.as_str());
            out.append("</pubDate>\n");
            proof {
                lemma_cassoc(old(out)@, "      <pubDate>"@, d@);
                lemma_cassoc(old(out)@, "      <pubDate>"@ + d@, "</pubDate>\n"@);
            }
        },
        None => {
            proof {
                assert(old(out)@ + Seq::<char>::empty() =~= old(out)@);
            }
        },
    }
}

/// One RSS item: title, link, optional description, categories, a
/// non-permalink guid of the form `urn:uuid:<id>`, optional publication date.
pub open spec fn item_xml(l: LinkView) -> Seq<char> {
    "    <item>\n"@ + elem_xml("      <title>"@, l.title, "</title>\n"@) + elem_xml(
        "      <link>"@,
        l.url,
        "</link>\n"@,
    ) + description_xml(l.summary) + cats_xml(l.tags) + elem_xml(
        "      <guid isPermaLink=\"false\">urn:uuid:"@,
        l.id,
        "</guid>\n"@,
    ) + pubdate_xml(l.datetime) + "    </item>\n"@
}

/// Appends one RSS item.
fn push_item(out: &mut String, l: &Link)
    ensures
        final(out)@ == old(out)@ + item_xml(l@),
{
    let ghost start = out@;
    out.append("    <item>\n");
    proof {
        assert(out@ == start + "    <item>\n"@);
    }
    push_elem(out, "      <title>", l.title.as_str(), "</title>\n");
    push_elem(out, "      <link>", l.url.as_str(), "</link>\n");
    push_description(out, &l.summary);
    push_cats(out, &l.tags, 0);
    push_elem(out, "      <guid isPermaLink=\"false\">urn:uuid:", l.id.as_str(), "</guid>\n");
    push_pubdate(out, &l.datetime);
    out.append("    </item>\n");
    proof {
        assert(l.tags.deep_view().skip(0) =~= l.tags.deep_view());
    }
}

/// The items of all links, in feed order.
pub open spec fn items_xml(ls: Seq<LinkView>) -> Seq<char>
    decreases ls.len(),
{
    if ls.len() == 0 {
        Seq::empty()
    } else {
        item_xml(ls[0]) + items_xml(ls.drop_first())
    }
}

/// Appends the items for `links[from..]`.
fn push_items(out: &mut String, links: &Vec<Link>, from: usize)
    requires
        from <= links@.len(),
    ensures
        final(out)@ == old(out)@ + items_xml(links_view(links@).skip(from as int)),
    decreases links@.len() - from,
{
    let ghost lv = links_view(links@);
    if from < links.len() {
        push_item(out, &links[from]);
        push_items(out, links, from + 1);
        proof {
            assert(lv.skip(from as int)[0] == links@[from as int]@);
            assert(lv.skip(from as int).drop_first() =~= lv.skip(from as int + 1));
            lemma_cassoc(
                old(out)@,
                item_xml(lv.skip(from as int)[0]),
                items_xml(lv.skip(from as int + 1)),
            );
        }
    } else {
        proof {
            assert(lv.skip(from as int) =~= Seq::<LinkView>::empty());
            assert(old(out)@ + items_xml(lv.skip(from as int)) =~= old(out)@);
        }
    }
}

/// The channel title: the feed's own title, or the site title when the feed's
/// is empty.
pub open spec fn channel_title(feed_title: Seq<char>, site_title: Seq<char>) -> Seq<char> {
    if feed_title.len() == 0 {
        site_title
    } else {
        feed_title
    }
}

/// The whole RSS 2.0 document for a feed.
pub open spec fn rss_xml_spec(f: FeedView, site_title: Seq<char>, site_link: Seq<char>) -> Seq<
    char,
> {
    "<?xml version=\"1.0\" encoding=\"utf-8\"?>\n<rss version=\"2.0\">\n  <channel>\n"@ + elem_xml(
        "    <title>"@,
        channel_title(f.title, site_title),
        "</title>\n"@,
    ) + elem_xml("    <link>"@, site_link, "</link>\n"@) + elem_xml(
        "    <description>Feed about "@,
        f.title,
        " generated through Linkleaf</description>\n"@,
    ) + items_xml(f.links) + "  </channel>\n</rss>\n"@
}

/// Renders the feed as a complete RSS 2.0 document. The channel title falls
/// back to `site_title` when the feed's title is empty; the channel link is
/// `site_link`; each link becomes one item. Rendering never fails.
pub fn feed_to_rss_xml(feed: &Feed, site_title: &str, site_link: &str) -> (r: Result<
    String,
    FeedError,
>)
    ensures
        r matches Ok(s) && s@ == rss_xml_spec(feed@, site_title@, site_link@),
{
    let mut out = String::new();
    out.append("<?xml version=\"1.0\" encoding=\"utf-8\"?>\n<rss version=\"2.0\">\n  <channel>\n");
    proof {
        assert(out@ =~= "<?xml version=\"1.0\" encoding=\"utf-8\"?>\n<rss version=\"2.0\">\n  <channel>\n"@);
    }
    let ct: &str = if feed.title.as_str().is_empty() {
        site_title
    } else {
        feed.title.as_str()
    };
    push_elem(&mut out, "    <title>", ct, "</title>\n");
    push_elem(&mut out, "    <link>", site_link, "</link>\n");
    push_elem(
        &mut out,
        "    <description>Feed about ",
        feed.title.as_str(),
        " generated through Linkleaf</description>\n",
    );
    push_items(&mut out, &feed.links, 0);
    out.append("  </channel>\n</rss>\n");
    proof {
        assert(links_view(feed.links@).skip(0) =~= links_view(feed.links@));
    }
    Ok(out)
}

/// One link projected to the parts of an RSS item, as plain values.
pub struct RssItem {
    pub title: Option<String>,
    pub link: Option<String>,
    pub description: Option<String>,
    pub categories: Vec<String>,
    pub guid: Option<String>,
    pub pub_date: Option<String>,
}

/// Projects one link to its RSS item parts: title and link always present,
/// description only for a present summary, one category per tag in order, a
/// guid of the form `urn:uuid:<id>`, and a publication date only for a
/// present, in-range timestamp.
pub fn link_to_rss_item(l: &Link) -> (r: RssItem)
    ensures
        opt_view(r.title) == Some(l@.title),
        opt_view(r.link) == Some(l@.url),
        opt_view(r.description) == l@.summary,
        r.categories.deep_view() == l@.tags,
        opt_view(r.guid) == Some("urn:uuid:"@ + l@.id),
        opt_view(r.pub_date) == pub_date_view(l@.datetime),
{
    let guid = String::from_str("urn:uuid:").concat(l.id.as_str());
    RssItem {
        title: Some(l.title.clone()),
        link: Some(l.url.clone()),
        description: crate::model::clone_opt_string(&l.summary),
        categories: crate::model::clone_strings(&l.tags),
        guid: Some(guid),
        pub_date: to_datetime(&l.datetime),
    }
}

} // verus!
