//! An OPML 2.0 subscription list, and the queries over it.
//!
//! The list is checked once, when it is built: a value of [`Opml`] always
//! holds well-formed XML, and no query over it can meet malformed input.

use vstd::prelude::*;
use crate::alias::names_of;
use crate::error::FeedError;
use crate::event::Event;
use crate::event::check_well_formed;
use crate::event::parse;
use crate::event::stream_of;
use crate::event::well_formed;
use crate::event::document_events;
use crate::laws::law_found_name_is_first_match;
use crate::laws::law_key_is_found;
use crate::laws::lemma_find_fails_for_want_of_match;
use crate::matcher::ordinal_field;
use crate::matcher::ordinal_value;
use crate::outline::collect_outline_values;
use crate::outline::collect_outline_values_optional;
use crate::outline::collect_tags;
use crate::outline::find_homepage;
use crate::outline::find_name;
use crate::outline::find_outline;
use crate::outline::homepage_of;
use crate::outline::lists_of;
use crate::outline::options_of;
use crate::outline::outline_values;
use crate::outline::outline_values_optional;
use crate::outline::tag_lists;
use crate::outline::no_text_has_key;
use crate::text::text_result_is;
use crate::text::texts_of;

verus! {

/// The text of an OPML 2.0 subscription list, known to be well-formed XML.
pub struct Opml(String);

impl View for Opml {
    type V = Seq<char>;

    closed spec fn view(&self) -> Seq<char> {
        self.0@
    }
}

/// The element that holds one subscription.
pub const KEYS_OUTLINE: [&'static str; 1] = ["outline"];

impl Opml {
    #[verifier::type_invariant]
    spec fn checked(&self) -> bool {
        well_formed(document_events(self.0@))
    }

    /// Wraps the text of a subscription list if the parser finds it well
    /// formed, and fails with [`FeedError::StructuralParse`] if not.
    pub fn new(text: String) -> (result: Result<Opml, FeedError>)
        ensures
            match result {
                Ok(opml) => opml@ == text@ && well_formed(document_events(text@)),
                Err(e) => e == FeedError::StructuralParse && !well_formed(document_events(text@)),
            },
    {
        let events = parse(text.as_str());
        if check_well_formed(&events) {
            Ok(Opml(text))
        } else {
            Err(FeedError::StructuralParse)
        }
    }

    /// The text of the list.
    pub fn text(&self) -> (text: &str)
        ensures
            text@ == self@,
    {
        self.0.as_str()
    }

    /// The events of the list, none of which reports malformed input.
    pub fn events(&self) -> (events: Vec<Event>)
        ensures
            stream_of(events@) == document_events(self@),
            well_formed(document_events(self@)),
    {
        proof {
            use_type_invariant(self);
        }
        parse(self.0.as_str())
    }

    /// The value of the named attribute, for each outline that has it.
    pub fn attribute_values(&self, search_attribute: &str) -> (values: Vec<String>)
        ensures
            texts_of(values@) == outline_values(document_events(self@), search_attribute@),
    {
        let events = self.events();
        collect_outline_values(&events, search_attribute)
    }

    /// The value of the named attribute for each outline, `None` where an
    /// outline lacks it.
    pub fn attribute_values_optional(&self, search_attribute: &str) -> (values: Vec<Option<String>>)
        ensures
            options_of(values@) == outline_values_optional(document_events(self@), search_attribute@),
    {
        let events = self.events();
        collect_outline_values_optional(&events, search_attribute)
    }

    /// The `text` attribute of the first feed whose `text` contains `key`.
    /// Fails with [`FeedError::KeyNoMatch`] where there is none, and in no
    /// other way.
    pub fn find(&self, key: &str) -> (result: Result<String, FeedError>)
        ensures
            text_result_is(result, find_name(document_events(self@), key@)),
            result is Err ==> result == Err::<String, FeedError>(FeedError::KeyNoMatch),
            result is Err <==> no_text_has_key(document_events(self@), key@),
    {
        let events = self.events();
        proof {
            let all = document_events(self@);
            lemma_find_fails_for_want_of_match(all, key@);
            law_found_name_is_first_match(all, key@);
            if !no_text_has_key(all, key@) {
                law_key_is_found(all, key@);
            }
        }
        find_outline(&events, key)
    }

    /// The homepage of the first feed whose `title` or `text` attribute is
    /// exactly `title`.
    pub fn homepage(&self, title: &str) -> (result: Result<String, FeedError>)
        ensures
            text_result_is(result, homepage_of(document_events(self@), title@)),
    {
        let events = self.events();
        find_homepage(&events, title)
    }

    /// The homepage of each feed; `None` where the list names none.
    pub fn links_html(&self) -> (values: Vec<Option<String>>)
        ensures
            options_of(values@) == outline_values_optional(document_events(self@), "htmlUrl"@),
    {
        self.attribute_values_optional("htmlUrl")
    }

    /// The address of each feed.
    pub fn links_xml(&self) -> (values: Vec<String>)
        ensures
            texts_of(values@) == outline_values(document_events(self@), "xmlUrl"@),
    {
        self.attribute_values("xmlUrl")
    }

    /// The tags of each feed, none for a feed without a `category`.
    pub fn tags(&self) -> (lists: Vec<Vec<String>>)
        ensures
            lists_of(lists@) == tag_lists(document_events(self@)),
    {
        let events = self.events();
        collect_tags(&events)
    }

    /// The `text` attribute of each feed.
    pub fn titles(&self) -> (values: Vec<String>)
        ensures
            texts_of(values@) == outline_values(document_events(self@), "text"@),
    {
        self.attribute_values("text")
    }

    /// The named attribute of the `k`-th outline, counting from 1.
    pub fn outline_attribute(&self, k: usize, attribute: &str) -> (result: Result<String, FeedError>)
        requires
            k >= 1,
        ensures
            text_result_is(
                result,
                ordinal_value(document_events(self@), names_of(KEYS_OUTLINE@), k as nat, Some(attribute@)),
            ),
    {
        let events = self.events();
        ordinal_field(&events, KEYS_OUTLINE.as_slice(), k, Some(attribute))
    }
}

} // verus!
