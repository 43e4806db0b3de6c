//! A file-backed list of bookmarked links ("feed"): insert/update-in-place
//! keyed by id or URL, newest-first ordering, tag and date filtering, and a
//! projection to RSS 2.0 XML.
//!
//! The crate works on in-memory values and byte buffers only: reading and
//! writing the feed file belongs to the caller, which hands the bytes to
//! [`codec::decode_feed`] and receives them from [`codec::encode_feed`].

pub mod codec;
pub mod filter;
pub mod model;
pub mod render;
pub mod rfc2822;
pub mod upsert;
pub mod validation;

pub use filter::list;
pub use model::Feed;
pub use model::FeedError;
pub use model::Link;
pub use model::Timestamp;
pub use model::empty_feed;
pub use model::is_not_found;
pub use model::load_or_init;
pub use render::RssItem;
pub use render::feed_to_rss_xml;
pub use render::link_to_rss_item;
pub use rfc2822::to_datetime;
pub use validation::Date;
pub use validation::parse_date;
pub use validation::parse_tags;
pub use upsert::add;
pub use upsert::add_at_local_time;
