//! A cached RSS 2.0 or Atom feed, and the queries over it.
//!
//! Every query parses the text anew and scans the events once. Nothing is
//! kept between two queries, so asking twice gives the same answer.
//!
//! A lookup of one entry fails on malformed input that it meets. A list
//! ends there, with what came before: [`Feed::check`] tells whether a feed
//! is well formed, and so whether its lists are whole.

use vstd::prelude::*;
use crate::alias::KEYS_CONTENT;
use crate::alias::KEYS_DATE;
use crate::alias::KEYS_TITLE;
use crate::alias::names_of;
use crate::date::date_outcomes;
use crate::date::normalize_dates;
use crate::date::outcomes_of;
use crate::error::FeedError;
use crate::event::Event;
use crate::event::check_well_formed;
use crate::event::parse;
use crate::event::stream_of;
use crate::event::well_formed;
use crate::event::document_events;
use crate::links::collect_enclosures;
use crate::links::collect_links;
use crate::links::enclosure_urls;
use crate::links::entry_links;
use crate::locator::collect_fields;
use crate::locator::entry_fields;
use crate::matcher::ordinal_field;
use crate::matcher::ordinal_value;
use crate::matcher::wanted_name;
use crate::resolver::entry_link;
use crate::resolver::resolve_link;
use crate::text::text_result_is;
use crate::text::texts_of;

verus! {

/// The text of an RSS 2.0 or Atom feed.
pub struct Feed(String);

impl View for Feed {
    type V = Seq<char>;

    closed spec fn view(&self) -> Seq<char> {
        self.0@
    }
}

impl Feed {
    /// Wraps the text of a feed, unchecked.
    pub fn new(text: String) -> (feed: Feed)
        ensures
            feed@ == text@,
    {
        Feed(text)
    }

    /// Wraps the text of a feed if the parser finds it well formed. On a
    /// long feed the check takes as long as a query.
    pub fn new_check_xml(text: String) -> (result: Result<Feed, FeedError>)
        ensures
            match result {
                Ok(feed) => feed@ == text@ && well_formed(document_events(text@)),
                Err(e) => e == FeedError::StructuralParse && !well_formed(document_events(text@)),
            },
    {
        let events = parse(text.as_str());
        if check_well_formed(&events) {
            Ok(Feed(text))
        } else {
            Err(FeedError::StructuralParse)
        }
    }

    /// Tells whether the feed is well formed. The lists of this type end
    /// without notice where malformed input begins: a caller that must know
    /// a list to be whole asks here.
    pub fn check(&self) -> (result: Result<(), FeedError>)
        ensures
            result is Ok <==> well_formed(document_events(self@)),
            result is Err ==> result == Err::<(), FeedError>(FeedError::StructuralParse),
    {
        let events = self.events();
        if check_well_formed(&events) {
            Ok(())
        } else {
            Err(FeedError::StructuralParse)
        }
    }

    /// The text of the feed.
    pub fn text(&self) -> (text: &str)
        ensures
            text@ == self@,
    {
        self.0.as_str()
    }

    /// The events of the feed.
    pub fn events(&self) -> (events: Vec<Event>)
        ensures
            stream_of(events@) == document_events(self@),
    {
        parse(self.0.as_str())
    }

    /// For each entry that has one, the text of its first element named in
    /// `element_names`. The list ends where malformed input begins; see
    /// [`Feed::check`].
    pub fn element_contents(&self, element_names: &[&str]) -> (values: Vec<String>)
        ensures
            texts_of(values@) == entry_fields(document_events(self@), names_of(element_names@)),
    {
        let events = self.events();
        collect_fields(&events, element_names)
    }

    /// The titles of the entries, up to malformed input if there is any;
    /// see [`Feed::check`].
    pub fn titles(&self) -> (values: Vec<String>)
        ensures
            texts_of(values@) == entry_fields(document_events(self@), names_of(KEYS_TITLE@)),
    {
        self.element_contents(KEYS_TITLE.as_slice())
    }

    /// The main contents or descriptions of the entries, up to malformed
    /// input if there is any; see [`Feed::check`].
    pub fn contents(&self) -> (values: Vec<String>)
        ensures
            texts_of(values@) == entry_fields(document_events(self@), names_of(KEYS_CONTENT@)),
    {
        self.element_contents(KEYS_CONTENT.as_slice())
    }

    /// The dates of the entries, each as `YYYY-MM-DD`, or the failure for a
    /// date that is malformed. The list ends where malformed input begins;
    /// see [`Feed::check`].
    pub fn dates(&self) -> (values: Vec<Result<String, FeedError>>)
        ensures
            outcomes_of(values@) == date_outcomes(
                entry_fields(document_events(self@), names_of(KEYS_DATE@)),
            ),
    {
        let raw = self.element_contents(KEYS_DATE.as_slice());
        normalize_dates(&raw)
    }

    /// The links of the entries, enclosures left aside, up to malformed
    /// input if there is any; see [`Feed::check`].
    pub fn links(&self) -> (values: Vec<String>)
        ensures
            texts_of(values@) == entry_links(document_events(self@)),
    {
        let events = self.events();
        collect_links(&events)
    }

    /// The URLs of all enclosures of the feed, up to malformed input if
    /// there is any; see [`Feed::check`].
    pub fn enclosure_links(&self) -> (values: Vec<String>)
        ensures
            texts_of(values@) == enclosure_urls(document_events(self@)),
    {
        let events = self.events();
        collect_enclosures(&events)
    }

    /// The one link of the `k`-th entry, counting from 1: its enclosure if
    /// it has one, else its link.
    pub fn entry_link(&self, k: usize) -> (result: Result<String, FeedError>)
        requires
            k >= 1,
        ensures
            text_result_is(result, entry_link(document_events(self@), k as nat)),
    {
        let events = self.events();
        resolve_link(&events, k)
    }

    /// The field of the `k`-th element named in `keys`, counting from 1 and
    /// over the whole feed: the value of `attribute` where one is named,
    /// else the element's text.
    pub fn ordinal_field(&self, keys: &[&str], k: usize, attribute: Option<&str>) -> (result: Result<
        String,
        FeedError,
    >)
        requires
            k >= 1,
        ensures
            text_result_is(
                result,
                ordinal_value(
                    document_events(self@),
                    names_of(keys@),
                    k as nat,
                    wanted_name(attribute),
                ),
            ),
    {
        let events = self.events();
        ordinal_field(&events, keys, k, attribute)
    }
}

} // verus!
