use linkleaf::Feed;
use linkleaf::FeedError;
use linkleaf::Link;
use linkleaf::Timestamp;
use linkleaf::add;
use linkleaf::add_at_local_time;
use linkleaf::codec::decode_feed;
use linkleaf::codec::encode_feed;
use linkleaf::empty_feed;
use linkleaf::is_not_found;
use linkleaf::list;
use linkleaf::load_or_init;

// ---- helpers -------------------------------------------------------------

fn now() -> Timestamp {
    Timestamp { year: 2025, month: 10, day: 1, hours: 14, minutes: 30, seconds: 45, nanos: 0 }
}

/// Stands in for one save/load cycle of the feed store: the feed goes through
/// the persisted byte form and back.
fn save_load(f: &Feed) -> Feed {
    let bytes = encode_feed(f);
    decode_feed(&bytes).expect("an encoded feed must decode")
}

fn mk_link(
    id: &str,
    title: &str,
    url: &str,
    date_s: Timestamp,
    tags: &[&str],
    summary: &str,
    via: &str,
) -> Link {
    Link {
        id: id.to_string(),
        title: title.to_string(),
        url: url.to_string(),
        datetime: Some(date_s),
        summary: Some(summary.to_string()),
        tags: tags.iter().map(|s| s.to_string()).collect(),
        via: Some(via.to_string()),
    }
}

fn mk_feed(links: Vec<Link>) -> Feed {
    Feed { version: 1, title: String::new(), links }
}

// ---- tests ---------------------------------------------------------------

#[test]
fn add_creates_file_and_initializes_feed() {
    // A missing feed file initializes a fresh feed (version 1).
    let mut feed = load_or_init(Err(FeedError::NotFound)).expect("missing file recovers");

    let created = add(
        &mut feed,
        "Tokio".to_string(),
        "https://tokio.rs/".to_string(),
        None,
        vec!["rust".to_string(), "async".to_string(), "tokio".to_string()],
        None,
        None,
        now(),
    );

    let feed = save_load(&feed);
    assert_eq!(feed.version, 1);
    assert_eq!(feed.links.len(), 1);
    let l = &feed.links[0];
    assert_eq!(l.id, created.id);
    assert_eq!(l.title, "Tokio");
    assert_eq!(l.url, "https://tokio.rs/");
    assert_eq!(l.summary, None);
    assert_eq!(l.via, None);
    assert_eq!(l.tags, vec!["rust", "async", "tokio"]);

    // The generated id is a valid UUID.
    let _ = uuid::Uuid::parse_str(&created.id).expect("id should be a valid UUID");
}

#[test]
fn add_with_explicit_id_inserts_with_given_id() {
    let mut feed = empty_feed();
    let wanted = uuid::Uuid::new_v4();

    let created = add(
        &mut feed,
        "A".to_string(),
        "https://a.example/".to_string(),
        Some("hi".to_string()),
        vec!["x,y".to_string()],
        Some("via".to_string()),
        Some(wanted.to_string()),
        now(),
    );

    assert_eq!(created.id, wanted.to_string());

    let feed = list(save_load(&feed), None, None);
    assert_eq!(feed.links.len(), 1);
    assert_eq!(feed.links[0].id, wanted.to_string());
}

#[test]
fn add_update_by_id_moves_to_front_and_updates_fields() {
    let mut feed = empty_feed();
    let a = add(
        &mut feed,
        "First".to_string(),
        "https://one/".to_string(),
        None,
        vec!["alpha".to_string()],
        None,
        None,
        now(),
    );
    let mut feed = save_load(&feed);
    let _b = add(
        &mut feed,
        "Second".to_string(),
        "https://two/".to_string(),
        None,
        vec!["beta".to_string()],
        None,
        None,
        now(),
    );
    let mut feed = save_load(&feed);

    // Update by the id of 'a': fields overwritten, item moves to the front.
    let updated = add(
        &mut feed,
        "First (updated)".to_string(),
        "https://one-new/".to_string(),
        Some("note".to_string()),
        vec!["rust".to_string(), "updated".to_string()],
        Some("HN".to_string()),
        Some(a.id.clone()),
        now(),
    );
    assert_eq!(updated.id, a.id);
    assert_eq!(updated.title, "First (updated)");
    assert_eq!(updated.url, "https://one-new/");
    assert_eq!(updated.summary, Some("note".to_string()));
    assert_eq!(updated.via, Some("HN".to_string()));
    assert_eq!(updated.tags, vec!["rust", "updated"]);

    let feed = list(save_load(&feed), None, None);
    assert_eq!(feed.links.len(), 2);
    assert_eq!(feed.links[0].id, a.id, "updated item should be at index 0");
    assert_eq!(feed.links[0].title, "First (updated)");
}

#[test]
fn add_update_by_url_when_id_absent() {
    let mut feed = empty_feed();
    let first = add(
        &mut feed,
        "Original".to_string(),
        "https://same.url/".to_string(),
        None,
        vec![],
        None,
        None,
        now(),
    );
    let mut feed = save_load(&feed);

    // Same URL, no id: update in place (moved to the front), id unchanged.
    let updated = add(
        &mut feed,
        "Original (updated)".to_string(),
        "https://same.url/".to_string(),
        Some("s".to_string()),
        vec!["t1".to_string(), "t2".to_string()],
        None,
        None,
        now(),
    );
    assert_eq!(updated.id, first.id);

    let feed = list(save_load(&feed), None, None);
    assert_eq!(feed.links.len(), 1);
    assert_eq!(feed.links[0].title, "Original (updated)");
    assert_eq!(feed.links[0].tags, vec!["t1", "t2"]);
}

#[test]
fn add_inserts_new_when_url_diff_and_id_absent() {
    let mut feed = empty_feed();
    let _a = add(
        &mut feed,
        "A".to_string(),
        "https://a/".to_string(),
        None,
        vec![],
        None,
        None,
        now(),
    );
    let mut feed = save_load(&feed);
    let b = add(
        &mut feed,
        "B".to_string(),
        "https://b/".to_string(),
        None,
        vec![],
        None,
        None,
        now(),
    );

    let feed = list(save_load(&feed), None, None);
    assert_eq!(feed.links.len(), 2);
    assert_eq!(feed.links[0].id, b.id, "new item should be at front");
}

#[test]
fn add_returns_error_on_corrupt_feed() {
    // Junk bytes fail to decode, and that failure is not recovered: an
    // add-style call aborts before mutating anything.
    let junk: Vec<u8> = b"not a protobuf".to_vec();
    let loaded = decode_feed(&junk);
    assert_eq!(loaded, Err(FeedError::DecodeError));
    let recovered = load_or_init(loaded);
    match recovered {
        Err(e) => assert!(!is_not_found(&e)),
        Ok(_) => panic!("a decode failure must not be recovered"),
    }
}

#[test]
fn list_without_filters_returns_all() {
    let dt1 = Timestamp { year: 2025, month: 1, day: 2, hours: 12, minutes: 0, seconds: 0, nanos: 0 };
    let dt2 =
        Timestamp { year: 2025, month: 1, day: 3, hours: 9, minutes: 30, seconds: 15, nanos: 0 };

    let l1 = mk_link("1", "One", "https://1/", dt1, &["rust", "async"], "", "");
    let l2 = mk_link("2", "Two", "https://2/", dt2, &["tokio"], "", "");
    let stored = save_load(&mk_feed(vec![l2.clone(), l1.clone()]));

    let feed = list(stored, None, None);
    assert_eq!(feed.links.len(), 2);
    // Order is preserved from the stored feed.
    assert_eq!(feed.links[0].id, l2.id);
    assert_eq!(feed.links[1].id, l1.id);
}

#[test]
fn list_filters_by_tag_case_insensitive_any_match() {
    let dt1 = Timestamp { year: 2025, month: 1, day: 2, hours: 12, minutes: 0, seconds: 0, nanos: 0 };
    let dt2 =
        Timestamp { year: 2025, month: 1, day: 3, hours: 9, minutes: 30, seconds: 15, nanos: 0 };

    let l1 = mk_link("1", "One", "https://1/", dt1, &["rust", "async"], "", "");
    let l2 = mk_link("2", "Two", "https://2/", dt2, &["Tokio"], "", "");
    let stored = save_load(&mk_feed(vec![l1.clone(), l2.clone()]));

    // ANY-of semantics, case-insensitive.
    let feed_tokio = list(stored.clone(), Some(vec!["tokio".to_string()]), None);
    assert_eq!(feed_tokio.links.len(), 1);
    assert_eq!(feed_tokio.links[0].id, l2.id);

    let feed_async = list(stored.clone(), Some(vec!["ASYNC".to_string()]), None);
    assert_eq!(feed_async.links.len(), 1);
    assert_eq!(feed_async.links[0].id, l1.id);

    // Multiple requested tags are still "any".
    let feed_multi = list(stored, Some(vec!["zzz".to_string(), "rust".to_string()]), None);
    assert_eq!(feed_multi.links.len(), 1);
    assert_eq!(feed_multi.links[0].id, l1.id);
}

#[test]
fn list_filters_by_exact_date_component() {
    let dt1 = Timestamp { year: 2025, month: 1, day: 3, hours: 12, minutes: 0, seconds: 0, nanos: 0 };
    let dt2 =
        Timestamp { year: 2025, month: 1, day: 3, hours: 23, minutes: 59, seconds: 59, nanos: 0 };

    let l1 = mk_link("1", "Jan02", "https://1/", dt1, &[], "", "");
    let l2 = mk_link("2", "Jan03", "https://2/", dt2, &[], "", "");
    let stored = save_load(&mk_feed(vec![l1.clone(), l2.clone()]));

    let filtered = list(stored.clone(), None, Some(dt2));
    assert_eq!(filtered.links.len(), 1);
    assert_eq!(filtered.links[0].id, l2.id);

    let filtered2 = list(stored, None, Some(dt1));
    assert_eq!(filtered2.links.len(), 1);
    assert_eq!(filtered2.links[0].id, l1.id);
}

#[test]
fn end_to_end_filter_returns_storage_order() {
    // From an empty store: add A, B, C with fresh ids, then filter by "rust".
    let mut feed = load_or_init(Err(FeedError::NotFound)).expect("missing file recovers");
    let a = add(
        &mut feed,
        "A".to_string(),
        "https://a/".to_string(),
        None,
        vec!["rust".to_string(), "async".to_string()],
        None,
        None,
        now(),
    );
    let mut feed = save_load(&feed);
    let _b = add(
        &mut feed,
        "B".to_string(),
        "https://b/".to_string(),
        None,
        vec!["tokio".to_string()],
        None,
        None,
        now(),
    );
    let mut feed = save_load(&feed);
    let c = add(
        &mut feed,
        "C".to_string(),
        "https://c/".to_string(),
        None,
        vec!["db".to_string(), "rust".to_string()],
        None,
        None,
        now(),
    );
    let stored = save_load(&feed);

    let filtered = list(stored, Some(vec!["rust".to_string()]), None);
    assert_eq!(filtered.links.len(), 2);
    assert_eq!(filtered.links[0].id, c.id);
    assert_eq!(filtered.links[0].title, "C");
    assert_eq!(filtered.links[1].id, a.id);
    assert_eq!(filtered.links[1].title, "A");
}

#[test]
fn feed_encode_decode_roundtrip() {
    let dt = Timestamp { year: 2025, month: 12, day: 31, hours: 23, minutes: 59, seconds: 58, nanos: 999_999_999 };
    let rich = Link {
        id: "0f3a".to_string(),
        title: "Grüße & <tags>".to_string(),
        url: "https://example.com/päth?q=a&b=c".to_string(),
        datetime: Some(dt),
        summary: Some("多字节 · bytes".to_string()),
        tags: vec!["Rust".to_string(), "".to_string(), "漢字".to_string()],
        via: None,
    };
    let bare = Link {
        id: String::new(),
        title: String::new(),
        url: String::new(),
        datetime: None,
        summary: None,
        tags: vec![],
        via: Some("friend".to_string()),
    };
    let original = Feed { version: -7, title: "Round trip".to_string(), links: vec![rich, bare] };
    let decoded = save_load(&original);
    assert_eq!(decoded, original);
}

#[test]
fn empty_feed_roundtrips_and_is_version_1() {
    let f = empty_feed();
    assert_eq!(f.version, 1);
    assert!(f.title.is_empty());
    assert!(f.links.is_empty());
    let decoded = save_load(&f);
    assert_eq!(decoded, f);
}

#[test]
fn decode_rejects_truncated_bytes() {
    let dt = now();
    let stored = mk_feed(vec![mk_link("1", "One", "https://1/", dt, &["rust"], "s", "v")]);
    let bytes = encode_feed(&stored);
    let cut = bytes[..bytes.len() - 1].to_vec();
    assert_eq!(decode_feed(&cut), Err(FeedError::DecodeError));
    let padded: Vec<u8> = bytes.iter().copied().chain([0u8]).collect();
    assert_eq!(decode_feed(&padded), Err(FeedError::DecodeError));
}

#[test]
fn tag_filter_with_only_blank_entries_matches_nothing() {
    let stored = mk_feed(vec![mk_link("1", "One", "https://1/", now(), &["rust"], "", "")]);
    let filtered = list(stored, Some(vec![" ".to_string(), "".to_string()]), None);
    assert_eq!(filtered.links.len(), 0);
}

#[test]
fn both_filters_must_pass_together() {
    let dt1 = Timestamp { year: 2025, month: 1, day: 2, hours: 12, minutes: 0, seconds: 0, nanos: 0 };
    let dt2 = Timestamp { year: 2025, month: 1, day: 3, hours: 9, minutes: 30, seconds: 15, nanos: 0 };
    let l1 = mk_link("1", "One", "https://1/", dt1, &["rust"], "", "");
    let l2 = mk_link("2", "Two", "https://2/", dt2, &["rust"], "", "");
    let stored = save_load(&mk_feed(vec![l1.clone(), l2.clone()]));

    // The tag matches both links, the timestamp only the second.
    let filtered = list(stored.clone(), Some(vec!["rust".to_string()]), Some(dt2));
    assert_eq!(filtered.links.len(), 1);
    assert_eq!(filtered.links[0].id, l2.id);

    // A matching timestamp cannot rescue a failed tag filter.
    let none = list(stored, Some(vec!["zzz".to_string()]), Some(dt2));
    assert_eq!(none.links.len(), 0);
}

#[test]
fn add_at_local_time_stamps_with_clock_or_reports_clock_error() {
    let mut feed = empty_feed();
    match add_at_local_time(
        &mut feed,
        "T".to_string(),
        "https://t/".to_string(),
        None,
        vec![],
        None,
        None,
    ) {
        Ok(link) => {
            let t = link.datetime.expect("a fresh link carries a timestamp");
            assert!((1..=12).contains(&t.month));
            assert!((1..=31).contains(&t.day));
            assert!((0..=23).contains(&t.hours));
            assert!((0..=59).contains(&t.minutes));
            assert!((0..=59).contains(&t.seconds));
            assert_eq!(feed.links.len(), 1);
        },
        Err(e) => {
            assert_eq!(e, FeedError::ClockError);
            assert_eq!(feed.links.len(), 0);
        },
    }
}
