//! The data model: `Timestamp`, `Link` and `Feed` value types, their ghost
//! views, and the error taxonomy shared by the store and the projectors.

use vstd::prelude::*;

verus! {

/// A local wall-clock snapshot taken at write time; no time zone is attached.
/// Equality is exact field-wise equality.
#[derive(Clone, Copy, PartialEq, Eq, Structural, Debug)]
pub struct Timestamp {
    pub year: i32,
    pub month: i32,
    pub day: i32,
    pub hours: i32,
    pub minutes: i32,
    pub seconds: i32,
    pub nanos: i32,
}

/// One bookmark entry. `summary` and `via` keep the distinction between
/// "present" and "absent"; tags keep insertion order and are not deduplicated.
#[derive(PartialEq, Eq, Debug)]
pub struct Link {
    pub id: String,
    pub title: String,
    pub url: String,
    pub datetime: Option<Timestamp>,
    pub summary: Option<String>,
    pub tags: Vec<String>,
    pub via: Option<String>,
}

/// The full persisted collection: a schema version, a title, and the links
/// ordered newest-operation-first.
#[derive(PartialEq, Eq, Debug)]
pub struct Feed {
    pub version: i32,
    pub title: String,
    pub links: Vec<Link>,
}

/// Mathematical value of a [`Link`].
#[verifier::ext_equal]
pub ghost struct LinkView {
    pub id: Seq<char>,
    pub title: Seq<char>,
    pub url: Seq<char>,
    pub datetime: Option<Timestamp>,
    pub summary: Option<Seq<char>>,
    pub tags: Seq<Seq<char>>,
    pub via: Option<Seq<char>>,
}

/// Mathematical value of a [`Feed`].
#[verifier::ext_equal]
pub ghost struct FeedView {
    pub version: i32,
    pub title: Seq<char>,
    pub links: Seq<LinkView>,
}

/// View of an optional string as an optional character sequence.
pub open spec fn opt_view(o: Option<String>) -> Option<Seq<char>> {
    match o {
        Some(s) => Some(s@),
        None => None,
    }
}

/// View of a sequence of links as a sequence of their mathematical values.
pub open spec fn links_view(links: Seq<Link>) -> Seq<LinkView> {
    links.map_values(|l: Link| l@)
}

impl View for Link {
    type V = LinkView;

    open spec fn view(&self) -> LinkView {
        LinkView {
            id: self.id@,
            title: self.title@,
            url: self.url@,
            datetime: self.datetime,
            summary: opt_view(self.summary),
            tags: self.tags.deep_view(),
            via: opt_view(self.via),
        }
    }
}

impl View for Feed {
    type V = FeedView;

    open spec fn view(&self) -> FeedView {
        FeedView {
            version: self.version,
            title: self.title@,
            links: links_view(self.links@),
        }
    }
}

/// What can go wrong around a feed. `NotFound` and `IoError` are produced by
/// the caller that touches the file system; the others arise in this crate.
#[derive(Clone, Copy, PartialEq, Eq, Structural, Debug)]
pub enum FeedError {
    /// The feed file does not exist.
    NotFound,
    /// The bytes at the path are not a valid feed encoding.
    DecodeError,
    /// A file-system operation failed.
    IoError,
    /// An in-memory feed could not be serialized.
    EncodeError,
    /// An RSS document could not be rendered.
    RenderError,
    /// The local wall-clock time could not be read.
    ClockError,
}

/// True exactly when the error is the recoverable "feed file absent" case.
pub fn is_not_found(err: &FeedError) -> (r: bool)
    ensures
        r == (err is NotFound),
{
    match err {
        FeedError::NotFound => true,
        _ => false,
    }
}

/// The feed that upserting implicitly creates the first time it targets a
/// nonexistent file: schema version 1, empty title, no links.
pub fn empty_feed() -> (f: Feed)
    ensures
        f@.version == 1,
        f@.title == Seq::<char>::empty(),
        f@.links == Seq::<LinkView>::empty(),
{
    let f = Feed { version: 1, title: String::new(), links: Vec::new() };
    proof {
        assert(f@.links =~= Seq::<LinkView>::empty());
    }
    f
}

/// Recovers a missing feed file into a fresh feed; every other load outcome
/// passes through unchanged.
pub fn load_or_init(loaded: Result<Feed, FeedError>) -> (r: Result<Feed, FeedError>)
    ensures
        match loaded {
            Ok(f) => r matches Ok(g) && g@ == f@,
            Err(e) => {
                if e is NotFound {
                    r matches Ok(g) && g@.version == 1 && g@.title.len() == 0 && g@.links.len()
                        == 0
                } else {
                    r matches Err(e2) && e2 == e
                }
            },
        },
{
    match loaded {
        Ok(f) => Ok(f),
        Err(e) => {
            if is_not_found(&e) {
                Ok(empty_feed())
            } else {
                Err(e)
            }
        },
    }
}

/// Copies a vector of strings, preserving its value.
pub fn clone_strings(v: &Vec<String>) -> (r: Vec<String>)
    ensures
        r@ == v@,
        r.deep_view() == v.deep_view(),
{
    let mut r: Vec<String> = Vec::new();
    let mut i: usize = 0;
    while i < v.len()
        invariant
            i <= v@.len(),
            r@ == v@.subrange(0, i as int),
        decreases v@.len() - i,
    {
        r.push(v[i].clone());
        assert(r@ =~= v@.subrange(0, i as int + 1));
        i = i + 1;
    }
    proof {
        assert(r@ =~= v@);
        assert(r.deep_view() =~= v.deep_view());
    }
    r
}

/// Copies an optional string, preserving its value.
pub fn clone_opt_string(o: &Option<String>) -> (r: Option<String>)
    ensures
        opt_view(r) == opt_view(*o),
{
    match o {
        Some(s) => Some(s.clone()),
        None => None,
    }
}

impl Clone for Link {
    /// Cloning preserves the link's value.
    fn clone(&self) -> (r: Self)
        ensures
            r@ == self@,
    {
        let r = Link {
            id: self.id.clone(),
            title: self.title.clone(),
            url: self.url.clone(),
            datetime: self.datetime,
            summary: clone_opt_string(&self.summary),
            tags: clone_strings(&self.tags),
            via: clone_opt_string(&self.via),
        };
        proof {
            assert(r@ =~= self@);
        }
        r
    }
}

/// Copies a vector of links, preserving its value.
pub fn clone_links(v: &Vec<Link>) -> (r: Vec<Link>)
    ensures
        links_view(r@) == links_view(v@),
{
    let mut r: Vec<Link> = Vec::new();
    let mut i: usize = 0;
    while i < v.len()
        invariant
            i <= v@.len(),
            r@.len() == i,
            links_view(r@) == links_view(v@).subrange(0, i as int),
        decreases v@.len() - i,
    {
        let c = v[i].clone();
        let ghost prev = r@;
        r.push(c);
        proof {
            assert forall|j: int| 0 <= j < i + 1 implies links_view(r@)[j] == links_view(
                v@,
            ).subrange(0, i as int + 1)[j] by {
                assert(links_view(r@)[j] == r@[j]@);
                if j < i {
                    assert(r@[j] == prev[j]);
                    assert(links_view(prev)[j] == prev[j]@);
                }
            }
            assert(links_view(r@) =~= links_view(v@).subrange(0, i as int + 1));
        }
        i = i + 1;
    }
    proof {
        assert(links_view(r@) =~= links_view(v@));
    }
    r
}

impl Clone for Feed {
    /// Cloning preserves the feed's value.
    fn clone(&self) -> (r: Self)
        ensures
            r@ == self@,
    {
        let r = Feed {
            version: self.version,
            title: self.title.clone(),
            links: clone_links(&self.links),
        };
        proof {
            assert(r@ =~= self@);
        }
        r
    }
}

} // verus!
