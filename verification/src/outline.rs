//! Scans over the outlines of a subscription list.
//!
//! An outline is one `outline` element with its attributes. Its `text`
//! attribute is its name in listings and the key of searches.

use vstd::prelude::*;
use vstd::string::StrSliceExecFns;
use vstd::string::StringExecFns;
use crate::error::FeedError;
use crate::event::Attribute;
use crate::event::AttributeModel;
use crate::event::Event;
use crate::event::EventModel;
use crate::event::attributes_model;
use crate::event::stream_of;
use crate::text::texts_of;
use crate::matcher::attribute_value;
use crate::matcher::find_attribute;
use crate::text::text_result_is;
use crate::text::chars_of;
use crate::text::contains_text;
use crate::text::find_text;

verus! {

/// The event starts an outline.
pub open spec fn is_outline(event: EventModel) -> bool {
    event matches EventModel::Start { name, .. } && name == "outline"@
}

/// For each outline, in document order, the value of the named attribute,
/// or `None` where the outline lacks it.
pub open spec fn outline_values_optional(events: Seq<EventModel>, attribute: Seq<char>) -> Seq<
    Option<Seq<char>>,
>
    decreases events.len(),
{
    if events.len() == 0 || events[0] is Malformed {
        Seq::empty()
    } else if is_outline(events[0]) {
        seq![attribute_value(events[0]->attributes, attribute)] + outline_values_optional(
            events.drop_first(),
            attribute,
        )
    } else {
        outline_values_optional(events.drop_first(), attribute)
    }
}

/// The values of the named attribute over the outlines that have it, in
/// document order.
pub open spec fn outline_values(events: Seq<EventModel>, attribute: Seq<char>) -> Seq<Seq<char>>
    decreases events.len(),
{
    if events.len() == 0 || events[0] is Malformed {
        Seq::empty()
    } else if is_outline(events[0]) && attribute_value(events[0]->attributes, attribute) is Some {
        seq![attribute_value(events[0]->attributes, attribute)->0] + outline_values(
            events.drop_first(),
            attribute,
        )
    } else {
        outline_values(events.drop_first(), attribute)
    }
}

/// What a list of optional strings stands for.
pub open spec fn options_of(values: Seq<Option<String>>) -> Seq<Option<Seq<char>>> {
    values.map_values(
        |value: Option<String>|
            match value {
                Some(text) => Some(text@),
                None => None,
            },
    )
}

/// Collects the named attribute of every outline that has it.
pub fn collect_outline_values(events: &Vec<Event>, attribute: &str) -> (values: Vec<String>)
    ensures
        texts_of(values@) == outline_values(stream_of(events@), attribute@),
{
    let outline = String::from_str("outline");
    let wanted = String::from_str(attribute);
    let ghost all = stream_of(events@);
    let mut values: Vec<String> = Vec::new();
    let mut i: usize = 0;
    proof {
        assert(all.skip(0) =~= all);
    }
    while i < events.len()
        invariant
            i <= events.len(),
            all == stream_of(events@),
            outline@ == "outline"@,
            wanted@ == attribute@,
            outline_values(all, attribute@) == texts_of(values@) + outline_values(
                all.skip(i as int),
                attribute@,
            ),
        decreases events.len() - i,
    {
        proof {
            assert(all.skip(i as int).drop_first() =~= all.skip(i + 1));
        }
        match &events[i] {
            Event::Malformed => {
                return values;
            },
            Event::Start { name, attributes } => {
                if *name == outline {
                    if let Some(value) = find_attribute(attributes, &wanted) {
                        values.push(value);
                    }
                }
            },
            _ => {},
        }
        i += 1;
    }
    values
}

/// Collects the named attribute of every outline, with `None` for an outline
/// that lacks it.
pub fn collect_outline_values_optional(events: &Vec<Event>, attribute: &str) -> (values: Vec<
    Option<String>,
>)
    ensures
        options_of(values@) == outline_values_optional(stream_of(events@), attribute@),
{
    let outline = String::from_str("outline");
    let wanted = String::from_str(attribute);
    let ghost all = stream_of(events@);
    let mut values: Vec<Option<String>> = Vec::new();
    let mut i: usize = 0;
    proof {
        assert(all.skip(0) =~= all);
    }
    while i < events.len()
        invariant
            i <= events.len(),
            all == stream_of(events@),
            outline@ == "outline"@,
            wanted@ == attribute@,
            outline_values_optional(all, attribute@) == options_of(values@)
                + outline_values_optional(all.skip(i as int), attribute@),
        decreases events.len() - i,
    {
        proof {
            assert(all.skip(i as int).drop_first() =~= all.skip(i + 1));
        }
        match &events[i] {
            Event::Malformed => {
                return values;
            },
            Event::Start { name, attributes } => {
                if *name == outline {
                    let value = find_attribute(attributes, &wanted);
                    values.push(value);
                }
            },
            _ => {},
        }
        i += 1;
    }
    values
}

/// The event starts an outline whose `text` attribute contains `key`.
pub open spec fn text_has_key(event: EventModel, key: Seq<char>) -> bool {
    is_outline(event) && attribute_value(event->attributes, "text"@) is Some && contains_text(
        attribute_value(event->attributes, "text"@)->0,
        key,
    )
}

/// No outline of the stream has a `text` attribute that contains `key`.
pub open spec fn no_text_has_key(events: Seq<EventModel>, key: Seq<char>) -> bool {
    forall|i: int| 0 <= i < events.len() ==> !text_has_key(#[trigger] events[i], key)
}

/// The `text` attribute of the first outline whose `text` contains `key`.
pub open spec fn find_name(events: Seq<EventModel>, key: Seq<char>) -> Result<Seq<char>, FeedError>
    decreases events.len(),
{
    if events.len() == 0 {
        Err(FeedError::KeyNoMatch)
    } else if events[0] is Malformed {
        Err(FeedError::StructuralParse)
    } else if is_outline(events[0]) && attribute_value(events[0]->attributes, "text"@) is Some
        && contains_text(attribute_value(events[0]->attributes, "text"@)->0, key) {
        Ok(attribute_value(events[0]->attributes, "text"@)->0)
    } else {
        find_name(events.drop_first(), key)
    }
}

/// The outline goes by that name: its `title` or its `text` is exactly
/// `title`.
pub open spec fn is_named(attributes: Seq<AttributeModel>, title: Seq<char>) -> bool {
    attribute_value(attributes, "title"@) == Some(title) || attribute_value(attributes, "text"@)
        == Some(title)
}

/// The `htmlUrl` of the first outline that goes by the name `title`.
pub open spec fn homepage_of(events: Seq<EventModel>, title: Seq<char>) -> Result<
    Seq<char>,
    FeedError,
>
    decreases events.len(),
{
    if events.len() == 0 {
        Err(FeedError::KeyNoMatch)
    } else if events[0] is Malformed {
        Err(FeedError::StructuralParse)
    } else if is_outline(events[0]) && is_named(events[0]->attributes, title) {
        match attribute_value(events[0]->attributes, "htmlUrl"@) {
            Some(url) => Ok(url),
            None => Err(FeedError::AttributeAbsent),
        }
    } else {
        homepage_of(events.drop_first(), title)
    }
}

fn has_name(attributes: &Vec<Attribute>, title: &String) -> (named: bool)
    ensures
        named == is_named(attributes_model(attributes@), title@),
{
    let by_title = match find_attribute(attributes, &String::from_str("title")) {
        Some(value) => value == *title,
        None => false,
    };
    if by_title {
        return true;
    }
    match find_attribute(attributes, &String::from_str("text")) {
        Some(value) => value == *title,
        None => false,
    }
}

/// Finds the first outline whose `text` attribute contains `key`, and gives
/// that attribute in full.
///
/// Fails with [`FeedError::KeyNoMatch`] where no outline qualifies, and with
/// [`FeedError::StructuralParse`] where malformed input comes first.
pub fn find_outline(events: &Vec<Event>, key: &str) -> (result: Result<String, FeedError>)
    ensures
        text_result_is(result, find_name(stream_of(events@), key@)),
{
    let outline = String::from_str("outline");
    let text = String::from_str("text");
    let needle = chars_of(key);
    let ghost all = stream_of(events@);
    let mut i: usize = 0;
    proof {
        assert(all.skip(0) =~= all);
    }
    while i < events.len()
        invariant
            i <= events.len(),
            all == stream_of(events@),
            outline@ == "outline"@,
            text@ == "text"@,
            needle@ == key@,
            find_name(all, key@) == find_name(all.skip(i as int), key@),
        decreases events.len() - i,
    {
        proof {
            assert(all.skip(i as int).drop_first() =~= all.skip(i + 1));
        }
        match &events[i] {
            Event::Malformed => {
                return Err(FeedError::StructuralParse);
            },
            Event::Start { name, attributes } => {
                if *name == outline {
                    if let Some(shown) = find_attribute(attributes, &text) {
                        let hay = chars_of(shown.as_str());
                        if find_text(&hay, &needle) {
                            return Ok(shown);
                        }
                    }
                }
            },
            _ => {},
        }
        i += 1;
    }
    Err(FeedError::KeyNoMatch)
}

/// Finds the homepage of the feed that goes by the name `title`: the first
/// outline whose `title` or `text` attribute is exactly that.
///
/// Fails with [`FeedError::KeyNoMatch`] where no outline has that name, and
/// with [`FeedError::AttributeAbsent`] where the first that has it carries no
/// `htmlUrl`.
pub fn find_homepage(events: &Vec<Event>, title: &str) -> (result: Result<String, FeedError>)
    ensures
        text_result_is(result, homepage_of(stream_of(events@), title@)),
{
    let outline = String::from_str("outline");
    let wanted = String::from_str(title);
    let html_url = String::from_str("htmlUrl");
    let ghost all = stream_of(events@);
    let mut i: usize = 0;
    proof {
        assert(all.skip(0) =~= all);
    }
    while i < events.len()
        invariant
            i <= events.len(),
            all == stream_of(events@),
            outline@ == "outline"@,
            wanted@ == title@,
            html_url@ == "htmlUrl"@,
            homepage_of(all, title@) == homepage_of(all.skip(i as int), title@),
        decreases events.len() - i,
    {
        proof {
            assert(all.skip(i as int).drop_first() =~= all.skip(i + 1));
        }
        match &events[i] {
            Event::Malformed => {
                return Err(FeedError::StructuralParse);
            },
            Event::Start { name, attributes } => {
                if *name == outline && has_name(attributes, &wanted) {
                    return match find_attribute(attributes, &html_url) {
                        Some(url) => Ok(url),
                        None => Err(FeedError::AttributeAbsent),
                    };
                }
            },
            _ => {},
        }
        i += 1;
    }
    Err(FeedError::KeyNoMatch)
}

/// The pieces of a text between its commas, given the piece begun so far.
pub open spec fn split_from(rest: Seq<char>, piece: Seq<char>) -> Seq<Seq<char>>
    decreases rest.len(),
{
    if rest.len() == 0 {
        seq![piece]
    } else if rest[0] == ',' {
        seq![piece] + split_from(rest.drop_first(), Seq::empty())
    } else {
        split_from(rest.drop_first(), piece.push(rest[0]))
    }
}

/// The pieces of a comma-separated list. A list with n commas has n + 1
/// pieces, some of which may be empty.
pub open spec fn split_commas(list: Seq<char>) -> Seq<Seq<char>> {
    split_from(list, Seq::empty())
}

/// The tags of an outline, by its `category` attribute: none where the
/// attribute is absent.
pub open spec fn tags_of(category: Option<Seq<char>>) -> Seq<Seq<char>> {
    match category {
        Some(list) => split_commas(list),
        None => Seq::empty(),
    }
}

/// For each outline, in document order, its tags.
pub open spec fn tag_lists(events: Seq<EventModel>) -> Seq<Seq<Seq<char>>> {
    outline_values_optional(events, "category"@).map_values(
        |category: Option<Seq<char>>| tags_of(category),
    )
}

/// What a list of lists of strings stands for.
pub open spec fn lists_of(values: Seq<Vec<String>>) -> Seq<Seq<Seq<char>>> {
    values.map_values(|list: Vec<String>| texts_of(list@))
}

/// Splits a comma-separated list into its pieces.
pub fn split_tags(list: &str) -> (tags: Vec<String>)
    ensures
        texts_of(tags@) == split_commas(list@),
{
    let chars = chars_of(list);
    let ghost all = chars@;
    let mut tags: Vec<String> = Vec::new();
    let mut start: usize = 0;
    let mut i: usize = 0;
    proof {
        assert(all.skip(0) =~= all);
        assert(all.subrange(0, 0) =~= Seq::<char>::empty());
    }
    while i < chars.len()
        invariant
            start <= i <= chars.len(),
            all == chars@,
            all == list@,
            split_commas(all) == texts_of(tags@) + split_from(
                all.skip(i as int),
                all.subrange(start as int, i as int),
            ),
        decreases chars.len() - i,
    {
        let ghost piece = all.subrange(start as int, i as int);
        proof {
            assert(all.skip(i as int).drop_first() =~= all.skip(i + 1));
        }
        if chars[i] == ',' {
            tags.push(String::from_str(list.substring_char(start, i)));
            start = i + 1;
            proof {
                assert(all.subrange(start as int, i + 1) =~= Seq::<char>::empty());
            }
        } else {
            proof {
                assert(all.subrange(start as int, i + 1) =~= piece.push(all[i as int]));
            }
        }
        i += 1;
    }
    tags.push(String::from_str(list.substring_char(start, i)));
    tags
}

/// Collects the tags of every outline.
pub fn collect_tags(events: &Vec<Event>) -> (lists: Vec<Vec<String>>)
    ensures
        lists_of(lists@) == tag_lists(stream_of(events@)),
{
    let categories = collect_outline_values_optional(events, "category");
    let ghost models = outline_values_optional(stream_of(events@), "category"@);
    let mut lists: Vec<Vec<String>> = Vec::new();
    let mut i: usize = 0;
    while i < categories.len()
        invariant
            i <= categories.len(),
            lists.len() == i,
            options_of(categories@) == models,
            forall|j: int| 0 <= j < i ==> texts_of(#[trigger] lists@[j]@) == tags_of(models[j]),
        decreases categories.len() - i,
    {
        let tags = match &categories[i] {
            Some(list) => split_tags(list.as_str()),
            None => Vec::new(),
        };
        lists.push(tags);
        i += 1;
    }
    lists
}

} // verus!
