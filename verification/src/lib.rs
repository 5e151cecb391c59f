//! Positional queries over cached RSS 2.0 / Atom feeds and an OPML 2.0
//! subscription list.
//!
//! A document is parsed into a flat stream of events; every query is one
//! forward pass over that stream. Tag names of the two feed vocabularies are
//! unified through alias sets, so the scanners never branch on the format.

pub mod alias;
pub mod date;
pub mod error;
pub mod event;
pub mod feed;
pub mod laws;
pub mod links;
pub mod locator;
pub mod matcher;
pub mod opml;
pub mod outline;
pub mod resolver;
pub mod text;

pub use crate::alias::KEYS_CONTENT;
pub use crate::alias::KEYS_DATE;
pub use crate::alias::KEYS_ENTRY;
pub use crate::alias::KEYS_TITLE;
pub use crate::date::date_parse;
pub use crate::error::FeedError;
pub use crate::event::Attribute;
pub use crate::event::Event;
pub use crate::feed::Feed;
pub use crate::opml::Opml;
