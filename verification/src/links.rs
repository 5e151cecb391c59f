//! The links of a feed, entry by entry, and its enclosures.
//!
//! An entry's link is the `href` attribute of its first `link` element or,
//! where that element has none, the next text of the stream. A `link` before
//! the first entry, such as the address of the feed itself, is left out.
//! Enclosures are listed apart, wherever they stand.

use vstd::prelude::*;
use vstd::string::StringExecFns;
use crate::alias::KEYS_ENTRY;
use crate::alias::is_key;
use crate::alias::names_in;
use crate::alias::own_keys;
use crate::event::Event;
use crate::event::EventModel;
use crate::event::stream_of;
use crate::locator::Cursor;
use crate::locator::entry_names;
use crate::locator::start_cursor;
use crate::text::texts_of;
use crate::matcher::attribute_value;
use crate::matcher::find_attribute;

verus! {

/// The event starts the `link` element that an entry is waiting for.
pub open spec fn is_awaited_link(cursor: Cursor, event: EventModel) -> bool {
    event matches EventModel::Start { name, .. } && !entry_names().contains(name) && name
        == "link"@ && cursor.awaiting
}

/// The state after an event, in a scan for links.
pub open spec fn link_step(cursor: Cursor, event: EventModel) -> Cursor {
    match event {
        EventModel::Start { name, attributes } => {
            if entry_names().contains(name) {
                Cursor { awaiting: true, armed: cursor.armed }
            } else if is_awaited_link(cursor, event) {
                Cursor { awaiting: false, armed: attribute_value(attributes, "href"@) is None }
            } else {
                cursor
            }
        },
        EventModel::Text(_) => Cursor { awaiting: cursor.awaiting, armed: false },
        _ => cursor,
    }
}

/// What an event makes the scan for links emit.
pub open spec fn link_emitted(cursor: Cursor, event: EventModel) -> Seq<Seq<char>> {
    match event {
        EventModel::Start { name, attributes } => {
            if is_awaited_link(cursor, event) {
                match attribute_value(attributes, "href"@) {
                    Some(href) => seq![href],
                    None => Seq::empty(),
                }
            } else {
                Seq::empty()
            }
        },
        EventModel::Text(text) => if cursor.armed {
            seq![text]
        } else {
            Seq::empty()
        },
        _ => Seq::empty(),
    }
}

/// What a scan for links emits from a given state on.
pub open spec fn scan_links(events: Seq<EventModel>, cursor: Cursor) -> Seq<Seq<char>>
    decreases events.len(),
{
    if events.len() == 0 || events[0] is Malformed {
        Seq::empty()
    } else {
        link_emitted(cursor, events[0]) + scan_links(
            events.drop_first(),
            link_step(cursor, events[0]),
        )
    }
}

/// The links of the entries of a feed, in document order.
pub open spec fn entry_links(events: Seq<EventModel>) -> Seq<Seq<char>> {
    scan_links(events, start_cursor())
}

/// Collects the link of every entry of a feed. Enclosures are not looked at.
pub fn collect_links(events: &Vec<Event>) -> (values: Vec<String>)
    ensures
        texts_of(values@) == entry_links(stream_of(events@)),
{
    let entries = own_keys(KEYS_ENTRY.as_slice());
    let link = String::from_str("link");
    let href = String::from_str("href");
    let ghost all = stream_of(events@);
    let mut values: Vec<String> = Vec::new();
    let mut awaiting = false;
    let mut armed = false;
    let mut i: usize = 0;
    proof {
        assert(all.skip(0) =~= all);
    }
    while i < events.len()
        invariant
            i <= events.len(),
            all == stream_of(events@),
            names_in(entries@) == entry_names(),
            link@ == "link"@,
            href@ == "href"@,
            entry_links(all) == texts_of(values@) + scan_links(
                all.skip(i as int),
                Cursor { awaiting, armed },
            ),
        decreases events.len() - i,
    {
        proof {
            assert(all.skip(i as int).drop_first() =~= all.skip(i + 1));
        }
        match &events[i] {
            Event::Malformed => {
                return values;
            },
            Event::Start { name, attributes } => {
                if is_key(&entries, name) {
                    awaiting = true;
                } else if awaiting && *name == link {
                    awaiting = false;
                    match find_attribute(attributes, &href) {
                        Some(value) => {
                            armed = false;
                            values.push(value);
                        },
                        None => {
                            armed = true;
                        },
                    }
                }
            },
            Event::Text(text) => {
                if armed {
                    armed = false;
                    values.push(text.clone());
                }
            },
            Event::Other => {},
        }
        i += 1;
    }
    values
}

/// The `url` attributes of the `enclosure` elements of a feed, in document
/// order. An enclosure without that attribute gives nothing.
pub open spec fn enclosure_urls(events: Seq<EventModel>) -> Seq<Seq<char>>
    decreases events.len(),
{
    if events.len() == 0 || events[0] is Malformed {
        Seq::empty()
    } else {
        enclosure_url(events[0]) + enclosure_urls(events.drop_first())
    }
}

/// The URL that one event adds to the list of enclosures.
pub open spec fn enclosure_url(event: EventModel) -> Seq<Seq<char>> {
    match event {
        EventModel::Start { name, attributes } => {
            if name == "enclosure"@ {
                match attribute_value(attributes, "url"@) {
                    Some(url) => seq![url],
                    None => Seq::empty(),
                }
            } else {
                Seq::empty()
            }
        },
        _ => Seq::empty(),
    }
}

/// Collects the URL of every enclosure of a feed.
pub fn collect_enclosures(events: &Vec<Event>) -> (values: Vec<String>)
    ensures
        texts_of(values@) == enclosure_urls(stream_of(events@)),
{
    let enclosure = String::from_str("enclosure");
    let url = String::from_str("url");
    let ghost all = stream_of(events@);
    let mut values: Vec<String> = Vec::new();
    let mut i: usize = 0;
    proof {
        assert(all.skip(0) =~= all);
    }
    while i < events.len()
        invariant
            i <= events.len(),
            all == stream_of(events@),
            enclosure@ == "enclosure"@,
            url@ == "url"@,
            enclosure_urls(all) == texts_of(values@) + enclosure_urls(all.skip(i as int)),
        decreases events.len() - i,
    {
        proof {
            assert(all.skip(i as int).drop_first() =~= all.skip(i + 1));
        }
        match &events[i] {
            Event::Malformed => {
                return values;
            },
            Event::Start { name, attributes } => {
                if *name == enclosure {
                    if let Some(value) = find_attribute(attributes, &url) {
                        values.push(value);
                    }
                }
            },
            _ => {},
        }
        i += 1;
    }
    values
}

} // verus!
