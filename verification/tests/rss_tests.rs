use linkleaf::Feed;
use linkleaf::Link;
use linkleaf::Timestamp;
use linkleaf::feed_to_rss_xml;
use linkleaf::link_to_rss_item;
use linkleaf::to_datetime;

fn sample_link() -> Link {
    Link {
        id: "1234".to_string(),
        title: "Example Post".to_string(),
        url: "https://example.com/post".to_string(),
        summary: Some("This is a summary".to_string()),
        tags: vec!["rust".to_string(), "rss".to_string()],
        via: None,
        datetime: Some(Timestamp {
            year: 2025,
            month: 10,
            day: 1,
            hours: 14,
            minutes: 30,
            seconds: 45,
            nanos: 0,
        }),
    }
}

fn sample_feed() -> Feed {
    Feed { title: "Test Feed".to_string(), links: vec![sample_link()], version: 1 }
}

#[test]
fn test_link_to_rss_item() {
    let link = sample_link();
    let item = link_to_rss_item(&link);

    assert_eq!(item.title.unwrap(), link.title);
    assert_eq!(item.link.unwrap(), link.url);
    assert_eq!(item.description.unwrap(), link.summary.unwrap());
    assert_eq!(item.categories.len(), link.tags.len());
    assert!(item.guid.is_some());
    assert!(item.pub_date.is_some());
}

#[test]
fn test_feed_to_rss_xml_basic() {
    let feed = sample_feed();
    let site_title = "Default Site";
    let site_link = "https://example.com";

    let rss_xml =
        feed_to_rss_xml(&feed, site_title, site_link).expect("Failed to generate RSS XML");

    assert!(rss_xml.contains("<title>Test Feed</title>"));
    assert!(rss_xml.contains("<link>https://example.com</link>"));
    assert!(rss_xml.contains("Example Post"));
    assert!(rss_xml.contains("This is a summary"));
    assert!(rss_xml.contains("rust"));
    assert!(rss_xml.contains("rss"));
    assert!(rss_xml.contains("urn:uuid:1234"));
}

#[test]
fn test_feed_to_rss_xml_empty_feed_title() {
    let mut feed = sample_feed();
    feed.title = "".to_string();

    let rss_xml = feed_to_rss_xml(&feed, "Default Site", "https://example.com")
        .expect("Failed to generate RSS XML");

    // Falls back to the site title.
    assert!(rss_xml.contains("<title>Default Site</title>"));
}

#[test]
fn test_link_without_summary_or_tags() {
    let link = Link {
        id: "5678".to_string(),
        title: "No Summary Post".to_string(),
        url: "https://example.com/nosummary".to_string(),
        via: None,
        summary: None,
        tags: vec![],
        datetime: None,
    };

    let item = link_to_rss_item(&link);

    assert!(item.description.is_none());
    assert!(item.categories.is_empty());
    assert!(item.pub_date.is_none());
    assert_eq!(item.guid.unwrap(), "urn:uuid:5678");
}

#[test]
fn rss_item_without_pub_date_still_has_guid() {
    let link = Link {
        id: "5678".to_string(),
        title: "No Summary Post".to_string(),
        url: "https://example.com/nosummary".to_string(),
        via: None,
        summary: None,
        tags: vec![],
        datetime: None,
    };
    let feed = Feed { title: "T".to_string(), links: vec![link], version: 1 };
    let xml = feed_to_rss_xml(&feed, "Site", "https://s/").expect("render");
    assert!(xml.contains("<guid isPermaLink=\"false\">urn:uuid:5678</guid>"));
    assert!(!xml.contains("<pubDate>"));
    assert!(!xml.contains("      <description>"));
    assert!(!xml.contains("<category>"));
}

#[test]
fn to_rfc2822_renders_exactly() {
    let t = Timestamp { year: 2025, month: 10, day: 1, hours: 14, minutes: 30, seconds: 45, nanos: 0 };
    assert_eq!(t.to_rfc2822().unwrap(), "Wed, 1 Oct 2025 14:30:45 +0000");
}

#[test]
fn to_rfc2822_degrades_on_out_of_range_fields() {
    let good = Timestamp { year: 2025, month: 10, day: 1, hours: 14, minutes: 30, seconds: 45, nanos: 0 };
    assert!(Timestamp { month: 13, ..good }.to_rfc2822().is_none());
    assert!(Timestamp { month: 2, day: 30, ..good }.to_rfc2822().is_none());
    assert!(Timestamp { seconds: 60, ..good }.to_rfc2822().is_none());
    assert!(Timestamp { year: -1, ..good }.to_rfc2822().is_none());
    assert!(Timestamp { nanos: -5, ..good }.to_rfc2822().is_none());
    assert!(to_datetime(&None).is_none());
    assert_eq!(to_datetime(&Some(good)).unwrap(), "Wed, 1 Oct 2025 14:30:45 +0000");
}

#[test]
fn xml_text_content_is_escaped() {
    let link = Link {
        id: "9".to_string(),
        title: "a < b & c > d".to_string(),
        url: "https://x/?a=1&b=2".to_string(),
        via: None,
        summary: Some("5 > 4".to_string()),
        tags: vec!["a&b".to_string()],
        datetime: None,
    };
    let feed = Feed { title: "Salt & Pepper".to_string(), links: vec![link], version: 1 };
    let xml = feed_to_rss_xml(&feed, "Site", "https://s/").expect("render");
    assert!(xml.contains("<title>Salt &amp; Pepper</title>"));
    assert!(xml.contains("<title>a &lt; b &amp; c &gt; d</title>"));
    assert!(xml.contains("<link>https://x/?a=1&amp;b=2</link>"));
    assert!(xml.contains("<description>5 &gt; 4</description>"));
    assert!(xml.contains("<category>a&amp;b</category>"));
}
