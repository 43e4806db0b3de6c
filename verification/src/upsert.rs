//! The upsert engine: one add-or-update applied to an in-memory feed.
//!
//! Resolution order: an explicit id wins; otherwise the first link with the
//! same URL is updated; otherwise a new link with a fresh identifier is
//! inserted. The touched link always ends at index 0; all other links keep
//! their relative order.

use vstd::prelude::*;
use crate::model::{Feed, FeedError, FeedView, Link, LinkView, Timestamp, links_view, opt_view};

verus! {

/// Some link in `links` carries this id.
pub open spec fn has_id(links: Seq<LinkView>, id: Seq<char>) -> bool {
    exists|i: int| 0 <= i < links.len() && links[i].id == id
}

/// `i` is the first position in `links` whose link carries this id.
pub open spec fn first_id_at(links: Seq<LinkView>, id: Seq<char>, i: int) -> bool {
    &&& 0 <= i < links.len()
    &&& links[i].id == id
    &&& forall|j: int| 0 <= j < i ==> links[j].id != id
}

/// Some link in `links` carries this URL.
pub open spec fn has_url(links: Seq<LinkView>, url: Seq<char>) -> bool {
    exists|i: int| 0 <= i < links.len() && links[i].url == url
}

/// `i` is the first position in `links` whose link carries this URL.
pub open spec fn first_url_at(links: Seq<LinkView>, url: Seq<char>, i: int) -> bool {
    &&& 0 <= i < links.len()
    &&& links[i].url == url
    &&& forall|j: int| 0 <= j < i ==> links[j].url != url
}

/// The link a call builds: the given fields, stamped with `now`.
pub open spec fn built_link(
    id: Seq<char>,
    title: Seq<char>,
    url: Seq<char>,
    now: Timestamp,
    summary: Option<Seq<char>>,
    tags: Seq<Seq<char>>,
    via: Option<Seq<char>>,
) -> LinkView {
    LinkView { id, title, url, datetime: Some(now), summary, tags, via }
}

/// The links after the one at `i` is taken out and `l` is put in front:
/// everything else keeps its relative order.
pub open spec fn moved_to_front(olds: Seq<LinkView>, i: int, l: LinkView) -> Seq<LinkView>
    recommends
        0 <= i < olds.len(),
{
    seq![l] + olds.subrange(0, i) + olds.subrange(i + 1, olds.len() as int)
}

/// Everything [`add`] promises: how the new feed value and the returned link
/// relate to the old feed value and the arguments.
pub open spec fn upsert_post(
    olds: FeedView,
    news: FeedView,
    link: LinkView,
    title: Seq<char>,
    url: Seq<char>,
    summary: Option<Seq<char>>,
    tags: Seq<Seq<char>>,
    via: Option<Seq<char>>,
    id: Option<Seq<char>>,
    now: Timestamp,
) -> bool {
    &&& news.version == olds.version
    &&& news.title == olds.title
    &&& link == built_link(link.id, title, url, now, summary, tags, via)
    &&& match id {
        Some(uid) => {
            &&& link.id == uid
            &&& if has_id(olds.links, uid) {
                exists|i: int|
                    #[trigger] first_id_at(olds.links, uid, i) && news.links == moved_to_front(
                        olds.links,
                        i,
                        link,
                    )
            } else {
                news.links == seq![link] + olds.links
            }
        },
        None => {
            if has_url(olds.links, url) {
                exists|i: int|
                    #[trigger] first_url_at(olds.links, url, i) && link.id == olds.links[i].id
                        && news.links == moved_to_front(olds.links, i, link)
            } else {
                &&& news.links == seq![link] + olds.links
                &&& link.id.len() == 36
            }
        },
    }
}

/// First position holding the given id, scanning from the front.
fn find_by_id(links: &Vec<Link>, id: &String) -> (r: Option<usize>)
    ensures
        match r {
            Some(i) => first_id_at(links_view(links@), id@, i as int),
            None => !has_id(links_view(links@), id@),
        },
{
    let mut i: usize = 0;
    while i < links.len()
        invariant
            i <= links@.len(),
            forall|j: int| 0 <= j < i ==> links_view(links@)[j].id != id@,
        decreases links@.len() - i,
    {
        if links[i].id == *id {
            proof {
                assert(links_view(links@)[i as int] == links@[i as int]@);
            }
            return Some(i);
        }
        proof {
            assert(links_view(links@)[i as int] == links@[i as int]@);
        }
        i = i + 1;
    }
    None
}

/// First position holding the given URL, scanning from the front.
fn find_by_url(links: &Vec<Link>, url: &String) -> (r: Option<usize>)
    ensures
        match r {
            Some(i) => first_url_at(links_view(links@), url@, i as int),
            None => !has_url(links_view(links@), url@),
        },
{
    let mut i: usize = 0;
    while i < links.len()
        invariant
            i <= links@.len(),
            forall|j: int| 0 <= j < i ==> links_view(links@)[j].url != url@,
        decreases links@.len() - i,
    {
        if links[i].url == *url {
            proof {
                assert(links_view(links@)[i as int] == links@[i as int]@);
            }
            return Some(i);
        }
        proof {
            assert(links_view(links@)[i as int] == links@[i as int]@);
        }
        i = i + 1;
    }
    None
}

/// Overwrites every field but the id of the link at `pos`, stamps it with
/// `date`, and moves it to the front.
pub fn update_link_in_place(
    feed: &mut Feed,
    pos: usize,
    title: String,
    url: String,
    date: Option<Timestamp>,
    summary: Option<String>,
    tags: Vec<String>,
    via: Option<String>,
) -> (link: Link)
    requires
        pos < old(feed)@.links.len(),
    ensures
        final(feed)@.version == old(feed)@.version,
        final(feed)@.title == old(feed)@.title,
        link@ == (LinkView {
            id: old(feed)@.links[pos as int].id,
            title: title@,
            url: url@,
            datetime: date,
            summary: opt_view(summary),
            tags: tags.deep_view(),
            via: opt_view(via),
        }),
        final(feed)@.links == moved_to_front(old(feed)@.links, pos as int, link@),
{
    let mut item = feed.links.remove(pos);
    item.title = title;
    item.url = url;
    item.datetime = date;
    item.summary = summary;
    item.tags = tags;
    item.via = via;
    let copy = item.clone();
    feed.links.insert(0, copy);
    proof {
        let olds = links_view(old(feed).links@);
        let news = links_view(feed.links@);
        let target = moved_to_front(olds, pos as int, item@);
        assert forall|j: int| 0 <= j < news.len() implies news[j] == target[j] by {
            assert(news[j] == feed.links@[j]@);
            if j > 0 {
                let k: int = if j <= pos { j - 1 } else { j };
                assert(feed.links@[j] == old(feed).links@[k]);
                assert(olds[k] == old(feed).links@[k]@);
            }
        }
        assert(news =~= target);
    }
    item
}

/// Builds a new link from the given fields and inserts it at the front.
pub fn insert_new_link_front(
    feed: &mut Feed,
    id: String,
    title: String,
    url: String,
    datetime: Option<Timestamp>,
    summary: Option<String>,
    tags: Vec<String>,
    via: Option<String>,
) -> (link: Link)
    ensures
        final(feed)@.version == old(feed)@.version,
        final(feed)@.title == old(feed)@.title,
        link@ == (LinkView {
            id: id@,
            title: title@,
            url: url@,
            datetime,
            summary: opt_view(summary),
            tags: tags.deep_view(),
            via: opt_view(via),
        }),
        final(feed)@.links == seq![link@] + old(feed)@.links,
{
    let link = Link { id, title, url, datetime, summary, tags, via };
    let copy = link.clone();
    feed.links.insert(0, copy);
    proof {
        let olds = links_view(old(feed).links@);
        let news = links_view(feed.links@);
        assert forall|j: int| 0 <= j < news.len() implies news[j] == (seq![link@] + olds)[j] by {
            assert(news[j] == feed.links@[j]@);
            if j > 0 {
                assert(feed.links@[j] == old(feed).links@[j - 1]);
                assert(olds[j - 1] == old(feed).links@[j - 1]@);
            }
        }
        assert(news =~= seq![link@] + olds);
    }
    link
}

/// Relies on `uuid::Uuid::new_v4` and its hyphenated text form: a random
/// version-4 UUID renders as exactly 36 characters.
#[verifier::external_body]
fn fresh_uuid() -> (r: String)
    ensures
        r@.len() == 36,
{
    uuid::Uuid::new_v4().to_string()
}

/// Applies one add-or-update to the feed and returns the resulting link.
///
/// With an explicit `id`, the first link carrying it is overwritten and moved
/// to the front, or a new link with that id is inserted at the front. With no
/// `id`, the first link with the same URL is overwritten in the same way, or a
/// new link with a freshly generated identifier is inserted at the front. The
/// touched link is stamped with `now` in every case.
pub fn add(
    feed: &mut Feed,
    title: String,
    url: String,
    summary: Option<String>,
    tags: Vec<String>,
    via: Option<String>,
    id: Option<String>,
    now: Timestamp,
) -> (link: Link)
    ensures
        upsert_post(
            old(feed)@,
            final(feed)@,
            link@,
            title@,
            url@,
            opt_view(summary),
            tags.deep_view(),
            opt_view(via),
            opt_view(id),
            now,
        ),
{
    match id {
        Some(uid) => {
            match find_by_id(&feed.links, &uid) {
                Some(pos) => {
                    let ghost olds = feed@.links;
                    let link = update_link_in_place(
                        feed,
                        pos,
                        title,
                        url,
                        Some(now),
                        summary,
                        tags,
                        via,
                    );
                    proof {
                        assert(first_id_at(olds, uid@, pos as int));
                    }
                    link
                },
                None => insert_new_link_front(feed, uid, title, url, Some(now), summary, tags, via),
            }
        },
        None => {
            match find_by_url(&feed.links, &url) {
                Some(pos) => {
                    let ghost olds = feed@.links;
                    let link = update_link_in_place(
                        feed,
                        pos,
                        title,
                        url,
                        Some(now),
                        summary,
                        tags,
                        via,
                    );
                    proof {
                        assert(first_url_at(olds, url@, pos as int));
                    }
                    link
                },
                None => {
                    let uid = fresh_uuid();
                    insert_new_link_front(feed, uid, title, url, Some(now), summary, tags, via)
                },
            }
        },
    }
}

/// The component ranges every wall-clock reading satisfies.
pub open spec fn clock_in_range(t: Timestamp) -> bool {
    &&& 1 <= t.month <= 12
    &&& 1 <= t.day <= 31
    &&& 0 <= t.hours <= 23
    &&& 0 <= t.minutes <= 59
    &&& 0 <= t.seconds <= 59
    &&& 0 <= t.nanos < 1_000_000_000
}

/// Relies on `time::OffsetDateTime::now_local` and the documented ranges of
/// its calendar and clock accessors; fails when the local offset cannot be
/// determined.
#[verifier::external_body]
fn local_now() -> (r: Option<Timestamp>)
    ensures
        r matches Some(t) ==> clock_in_range(t),
{
    match time::OffsetDateTime::now_local() {
        Ok(n) => Some(
            Timestamp {
                year: n.year(),
                month: u8::from(n.month()) as i32,
                day: n.day() as i32,
                hours: n.hour() as i32,
                minutes: n.minute() as i32,
                seconds: n.second() as i32,
                nanos: n.nanosecond() as i32,
            },
        ),
        Err(_) => None,
    }
}

/// [`add`], stamped with the current local wall-clock time, read once. Fails
/// only when that clock cannot be read, leaving the feed untouched.
pub fn add_at_local_time(
    feed: &mut Feed,
    title: String,
    url: String,
    summary: Option<String>,
    tags: Vec<String>,
    via: Option<String>,
    id: Option<String>,
) -> (r: Result<Link, FeedError>)
    ensures
        match r {
            Ok(link) => exists|now: Timestamp|
                #[trigger] clock_in_range(now) && upsert_post(
                    old(feed)@,
                    final(feed)@,
                    link@,
                    title@,
                    url@,
                    opt_view(summary),
                    tags.deep_view(),
                    opt_view(via),
                    opt_view(id),
                    now,
                ),
            Err(e) => e == FeedError::ClockError && final(feed)@ == old(feed)@,
        },
{
    match local_now() {
        Some(now) => Ok(crate::upsert::add(feed, title, url, summary, tags, via, id, now)),
        None => Err(FeedError::ClockError),
    }
}

/// Upserting by an id that the feed already holds never changes the link
/// count, and places the updated link, its id preserved, at index 0.
pub proof fn lemma_upsert_by_id_keeps_count(
    olds: FeedView,
    news: FeedView,
    link: LinkView,
    title: Seq<char>,
    url: Seq<char>,
    summary: Option<Seq<char>>,
    tags: Seq<Seq<char>>,
    via: Option<Seq<char>>,
    uid: Seq<char>,
    now: Timestamp,
)
    requires
        has_id(olds.links, uid),
        upsert_post(olds, news, link, title, url, summary, tags, via, Some(uid), now),
    ensures
        news.links.len() == olds.links.len(),
        news.links[0] == link,
        link.id == uid,
{
    let i = choose|i: int|
        #[trigger] first_id_at(olds.links, uid, i) && news.links == moved_to_front(
            olds.links,
            i,
            link,
        );
}

/// Upserting by URL with no id given preserves the matched link's original
/// id, moves it to index 0, and does not change the link count.
pub proof fn lemma_upsert_by_url_keeps_id(
    olds: FeedView,
    news: FeedView,
    link: LinkView,
    title: Seq<char>,
    url: Seq<char>,
    summary: Option<Seq<char>>,
    tags: Seq<Seq<char>>,
    via: Option<Seq<char>>,
    now: Timestamp,
)
    requires
        has_url(olds.links, url),
        upsert_post(olds, news, link, title, url, summary, tags, via, None, now),
    ensures
        news.links.len() == olds.links.len(),
        news.links[0] == link,
        exists|i: int| #[trigger] first_url_at(olds.links, url, i) && link.id == olds.links[i].id,
{
    let i = choose|i: int|
        #[trigger] first_url_at(olds.links, url, i) && link.id == olds.links[i].id && news.links
            == moved_to_front(olds.links, i, link);
}

/// An add with no id and no matching URL grows the link count by exactly one
/// and inserts the new link, with a 36-character generated id, at index 0;
/// the links already present keep their order below it.
pub proof fn lemma_insert_grows_by_one(
    olds: FeedView,
    news: FeedView,
    link: LinkView,
    title: Seq<char>,
    url: Seq<char>,
    summary: Option<Seq<char>>,
    tags: Seq<Seq<char>>,
    via: Option<Seq<char>>,
    now: Timestamp,
)
    requires
        !has_url(olds.links, url),
        upsert_post(olds, news, link, title, url, summary, tags, via, None, now),
    ensures
        news.links.len() == olds.links.len() + 1,
        news.links[0] == link,
        news.links.skip(1) == olds.links,
        link.id.len() == 36,
{
    assert(news.links.skip(1) =~= olds.links);
}

} // verus!
