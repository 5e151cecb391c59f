//! The link resolver: one URL for one entry.
//!
//! An entry spans the events from its start to the start of the next entry,
//! or to the end of the stream. Within that span:
//!
//! 1. an `enclosure` element settles the matter as soon as it is met: its
//!    `url` attribute is the answer, whether or not a `link` came before;
//! 2. else the first `link` element counts: its `href` attribute or, where it
//!    has none, the text that follows its start at once;
//! 3. an entry with neither is a failure, not an empty string.

use vstd::prelude::*;
use vstd::string::StringExecFns;
use crate::alias::KEYS_ENTRY;
use crate::alias::is_key;
use crate::alias::names_in;
use crate::alias::own_keys;
use crate::error::FeedError;
use crate::event::Event;
use crate::event::EventModel;
use crate::event::stream_of;
use crate::locator::entry_names;
use crate::matcher::attribute_value;
use crate::matcher::find_attribute;
use crate::matcher::seek;
use crate::matcher::seek_ordinal;
use crate::matcher::text_at;
use crate::text::text_result_is;

verus! {

/// What a `link` element gives, the stream beginning at its start.
pub open spec fn link_value(events: Seq<EventModel>) -> Result<Seq<char>, FeedError> {
    match attribute_value(events[0]->attributes, "href"@) {
        Some(href) => Ok(href),
        None => text_at(events, 1),
    }
}

/// What an `enclosure` element gives.
pub open spec fn enclosure_value(event: EventModel) -> Result<Seq<char>, FeedError> {
    match attribute_value(event->attributes, "url"@) {
        Some(url) => Ok(url),
        None => Err(FeedError::AttributeAbsent),
    }
}

/// The answer at the end of a span: what the first `link` gave, if there
/// was one.
pub open spec fn settle(candidate: Option<Result<Seq<char>, FeedError>>) -> Result<
    Seq<char>,
    FeedError,
> {
    match candidate {
        Some(value) => value,
        None => Err(FeedError::FieldAbsent),
    }
}

/// The link of the entry whose span begins with `events`, given what the
/// first `link` of the span gave so far.
pub open spec fn resolve_span(
    events: Seq<EventModel>,
    candidate: Option<Result<Seq<char>, FeedError>>,
) -> Result<Seq<char>, FeedError>
    decreases events.len(),
{
    if events.len() == 0 {
        settle(candidate)
    } else {
        match events[0] {
            EventModel::Malformed => Err(FeedError::StructuralParse),
            EventModel::Start { name, .. } => {
                if entry_names().contains(name) {
                    settle(candidate)
                } else if name == "enclosure"@ {
                    enclosure_value(events[0])
                } else if name == "link"@ && candidate is None {
                    resolve_span(events.drop_first(), Some(link_value(events)))
                } else {
                    resolve_span(events.drop_first(), candidate)
                }
            },
            _ => resolve_span(events.drop_first(), candidate),
        }
    }
}

/// The link of the `k`-th entry of a feed.
pub open spec fn entry_link(events: Seq<EventModel>, k: nat) -> Result<Seq<char>, FeedError> {
    match seek(events, entry_names(), k) {
        Ok(pos) => resolve_span(events.skip(pos as int), None),
        Err(e) => Err(e),
    }
}

/// A candidate and its model agree.
pub open spec fn candidate_is(
    candidate: Option<Result<String, FeedError>>,
    model: Option<Result<Seq<char>, FeedError>>,
) -> bool {
    match candidate {
        Some(value) => model matches Some(m) && text_result_is(value, m),
        None => model is None,
    }
}

fn settle_candidate(
    candidate: Option<Result<String, FeedError>>,
    Ghost(model): Ghost<Option<Result<Seq<char>, FeedError>>>,
) -> (result: Result<String, FeedError>)
    requires
        candidate_is(candidate, model),
    ensures
        text_result_is(result, settle(model)),
{
    match candidate {
        Some(value) => value,
        None => Err(FeedError::FieldAbsent),
    }
}

/// Resolves the link of the `k`-th entry of a feed, counting from 1.
pub fn resolve_link(events: &Vec<Event>, k: usize) -> (result: Result<String, FeedError>)
    requires
        k >= 1,
    ensures
        text_result_is(result, entry_link(stream_of(events@), k as nat)),
{
    let entries = own_keys(KEYS_ENTRY.as_slice());
    let begin = match seek_ordinal(events, &entries, k) {
        Ok(pos) => pos,
        Err(e) => {
            return Err(e);
        },
    };
    let enclosure = String::from_str("enclosure");
    let link = String::from_str("link");
    let href = String::from_str("href");
    let url = String::from_str("url");
    let ghost all = stream_of(events@);
    let ghost model: Option<Result<Seq<char>, FeedError>> = None;
    let mut candidate: Option<Result<String, FeedError>> = None;
    let mut i: usize = begin;
    while i < events.len()
        invariant
            begin <= i <= events.len(),
            all == stream_of(events@),
            names_in(entries@) == entry_names(),
            enclosure@ == "enclosure"@,
            link@ == "link"@,
            href@ == "href"@,
            url@ == "url"@,
            candidate_is(candidate, model),
            seek(all, entry_names(), k as nat) == Ok::<nat, FeedError>(begin as nat),
            resolve_span(all.skip(begin as int), None) == resolve_span(all.skip(i as int), model),
        decreases events.len() - i,
    {
        proof {
            assert(all.skip(i as int).drop_first() =~= all.skip(i + 1));
        }
        match &events[i] {
            Event::Malformed => {
                return Err(FeedError::StructuralParse);
            },
            Event::Start { name, attributes } => {
                if is_key(&entries, name) {
                    return settle_candidate(candidate, Ghost(model));
                } else if *name == enclosure {
                    return match find_attribute(attributes, &url) {
                        Some(value) => Ok(value),
                        None => Err(FeedError::AttributeAbsent),
                    };
                } else if *name == link && candidate.is_none() {
                    let value = match find_attribute(attributes, &href) {
                        Some(value) => Ok(value),
                        None => if i + 1 < events.len() {
                            match &events[i + 1] {
                                Event::Text(text) => Ok(text.clone()),
                                Event::Malformed => Err(FeedError::StructuralParse),
                                _ => Err(FeedError::FieldAbsent),
                            }
                        } else {
                            Err(FeedError::FieldAbsent)
                        },
                    };
                    proof {
                        model = Some(link_value(all.skip(i as int)));
                    }
                    candidate = Some(value);
                }
            },
            _ => {},
        }
        i += 1;
    }
    settle_candidate(candidate, Ghost(model))
}

} // verus!
