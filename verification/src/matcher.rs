//! The ordinal tag matcher: finding the K-th element of an alias set.
//!
//! The scan reads the stream from its start and counts the elements whose
//! local name is in the alias set. Malformed input met on the way aborts the
//! scan; the end of the stream before the K-th match is a failure of its
//! own kind, which a caller that lists everything takes as the end of the
//! data.
//!
//! A requested attribute that the matched element lacks is a failure
//! ([`FeedError::AttributeAbsent`]); the matcher never falls back to the
//! element's text.

use vstd::prelude::*;
use vstd::string::StringExecFns;
use crate::alias::is_key;
use crate::alias::names_in;
use crate::alias::names_of;
use crate::alias::own_keys;
use crate::error::FeedError;
use crate::event::Attribute;
use crate::event::AttributeModel;
use crate::event::Event;
use crate::event::EventModel;
use crate::event::attributes_model;
use crate::event::stream_of;
use crate::text::text_result_is;

verus! {

/// The event starts an element whose name is in the alias set.
pub open spec fn is_match(event: EventModel, keys: Seq<Seq<char>>) -> bool {
    event matches EventModel::Start { name, .. } && keys.contains(name)
}

/// A position further along the stream, or the same failure.
pub open spec fn advance(found: Result<nat, FeedError>, by: nat) -> Result<nat, FeedError> {
    match found {
        Ok(pos) => Ok(pos + by),
        Err(e) => Err(e),
    }
}

/// Where the scan for the `k`-th match stops: the number of events read, the
/// match being the last of them.
pub open spec fn seek(events: Seq<EventModel>, keys: Seq<Seq<char>>, k: nat) -> Result<
    nat,
    FeedError,
>
    decreases events.len(),
{
    if events.len() == 0 {
        Err(FeedError::OrdinalNotReached)
    } else if events[0] is Malformed {
        Err(FeedError::StructuralParse)
    } else if is_match(events[0], keys) {
        if k <= 1 {
            Ok(1)
        } else {
            advance(seek(events.drop_first(), keys, (k - 1) as nat), 1)
        }
    } else {
        advance(seek(events.drop_first(), keys, k), 1)
    }
}

/// How many elements of the alias set start in the stream.
pub open spec fn count_matches(events: Seq<EventModel>, keys: Seq<Seq<char>>) -> nat
    decreases events.len(),
{
    if events.len() == 0 {
        0
    } else if is_match(events[0], keys) {
        1 + count_matches(events.drop_first(), keys)
    } else {
        count_matches(events.drop_first(), keys)
    }
}

/// The value of the first attribute of that name, in document order.
pub open spec fn attribute_value(attributes: Seq<AttributeModel>, name: Seq<char>) -> Option<
    Seq<char>,
>
    decreases attributes.len(),
{
    if attributes.len() == 0 {
        None
    } else if attributes[0].name == name {
        Some(attributes[0].value)
    } else {
        attribute_value(attributes.drop_first(), name)
    }
}

/// The payload at a position of the stream: the text of a text event.
pub open spec fn text_at(events: Seq<EventModel>, pos: int) -> Result<Seq<char>, FeedError> {
    if 0 <= pos < events.len() {
        match events[pos] {
            EventModel::Text(text) => Ok(text),
            EventModel::Malformed => Err(FeedError::StructuralParse),
            _ => Err(FeedError::FieldAbsent),
        }
    } else {
        Err(FeedError::FieldAbsent)
    }
}

/// What the element that ends a scan of `pos` events gives: the value of the
/// named attribute or, where none is named, the text that follows at once.
pub open spec fn payload_at(events: Seq<EventModel>, pos: nat, attribute: Option<Seq<char>>) -> Result<
    Seq<char>,
    FeedError,
> {
    match attribute {
        Some(name) => match attribute_value(events[pos - 1]->attributes, name) {
            Some(value) => Ok(value),
            None => Err(FeedError::AttributeAbsent),
        },
        None => text_at(events, pos as int),
    }
}

/// The name of the attribute that a caller asks for, if it asks for one.
pub open spec fn wanted_name(attribute: Option<&str>) -> Option<Seq<char>> {
    match attribute {
        Some(name) => Some(name@),
        None => None,
    }
}

/// The field of the `k`-th element of the alias set.
pub open spec fn ordinal_value(
    events: Seq<EventModel>,
    keys: Seq<Seq<char>>,
    k: nat,
    attribute: Option<Seq<char>>,
) -> Result<Seq<char>, FeedError> {
    match seek(events, keys, k) {
        Ok(pos) => payload_at(events, pos, attribute),
        Err(e) => Err(e),
    }
}

/// Looks an attribute up by its name.
pub fn find_attribute(attributes: &Vec<Attribute>, name: &String) -> (found: Option<String>)
    ensures
        match found {
            Some(value) => attribute_value(attributes_model(attributes@), name@) == Some(value@),
            None => attribute_value(attributes_model(attributes@), name@) is None,
        },
{
    let ghost all = attributes_model(attributes@);
    proof {
        assert(all.skip(0) =~= all);
    }
    let mut i: usize = 0;
    while i < attributes.len()
        invariant
            i <= attributes.len(),
            all == attributes_model(attributes@),
            attribute_value(all, name@) == attribute_value(all.skip(i as int), name@),
        decreases attributes.len() - i,
    {
        proof {
            assert(all.skip(i as int).drop_first() =~= all.skip(i + 1));
        }
        if attributes[i].name == *name {
            return Some(attributes[i].value.clone());
        }
        i += 1;
    }
    None
}

/// Scans for the `k`-th element of the alias set, counting from 1.
///
/// Gives the position just after that element's start, so that the event at
/// that position is the first inside the element.
pub fn seek_ordinal(events: &Vec<Event>, keys: &Vec<String>, k: usize) -> (found: Result<
    usize,
    FeedError,
>)
    requires
        k >= 1,
    ensures
        match found {
            Ok(pos) => seek(stream_of(events@), names_in(keys@), k as nat) == Ok::<nat, FeedError>(
                pos as nat,
            ) && 1 <= pos <= events.len() && events@[pos - 1] is Start,
            Err(e) => seek(stream_of(events@), names_in(keys@), k as nat) == Err::<nat, FeedError>(
                e,
            ),
        },
{
    let ghost all = stream_of(events@);
    let ghost names = names_in(keys@);
    let mut left: usize = k;
    let mut i: usize = 0;
    proof {
        assert(all.skip(0) =~= all);
    }
    while i < events.len()
        invariant
            i <= events.len(),
            1 <= left <= k,
            all == stream_of(events@),
            names == names_in(keys@),
            seek(all, names, k as nat) == advance(seek(all.skip(i as int), names, left as nat), i as nat),
        decreases events.len() - i,
    {
        proof {
            assert(all.skip(i as int).drop_first() =~= all.skip(i + 1));
        }
        match &events[i] {
            Event::Malformed => {
                return Err(FeedError::StructuralParse);
            },
            Event::Start { name, attributes: _ } => {
                if is_key(keys, name) {
                    if left == 1 {
                        return Ok(i + 1);
                    }
                    left -= 1;
                }
            },
            _ => {},
        }
        i += 1;
    }
    Err(FeedError::OrdinalNotReached)
}

/// Reads what the element that ends a scan of `pos` events gives.
pub fn read_payload(events: &Vec<Event>, pos: usize, attribute: Option<&str>) -> (result: Result<
    String,
    FeedError,
>)
    requires
        1 <= pos <= events.len(),
        events@[pos - 1] is Start,
    ensures
        text_result_is(
            result,
            payload_at(
                stream_of(events@),
                pos as nat,
                wanted_name(attribute),
            ),
        ),
{
    match attribute {
        Some(name) => {
            let wanted = String::from_str(name);
            match &events[pos - 1] {
                Event::Start { name: _, attributes } => match find_attribute(attributes, &wanted) {
                    Some(value) => Ok(value),
                    None => Err(FeedError::AttributeAbsent),
                },
                _ => Err(FeedError::AttributeAbsent),
            }
        },
        None => {
            if pos < events.len() {
                match &events[pos] {
                    Event::Text(text) => Ok(text.clone()),
                    Event::Malformed => Err(FeedError::StructuralParse),
                    _ => Err(FeedError::FieldAbsent),
                }
            } else {
                Err(FeedError::FieldAbsent)
            }
        },
    }
}

/// The field of the `k`-th element of the alias set, counting from 1: the
/// value of `attribute` where one is named, else the text that follows the
/// element's start at once.
pub fn ordinal_field(events: &Vec<Event>, keys: &[&str], k: usize, attribute: Option<&str>) -> (result:
    Result<String, FeedError>)
    requires
        k >= 1,
    ensures
        text_result_is(
            result,
            ordinal_value(
                stream_of(events@),
                names_of(keys@),
                k as nat,
                wanted_name(attribute),
            ),
        ),
{
    let owned = own_keys(keys);
    match seek_ordinal(events, &owned, k) {
        Ok(pos) => read_payload(events, pos, attribute),
        Err(e) => Err(e),
    }
}

} // verus!
