//! The event stream that every query scans.
//!
//! The XML parser turns a document into a flat, forward-only list of items.
//! Of all that it reports, the scanners read three things: where an element
//! starts (its local name and its attributes, in document order), text, and
//! malformed input. [`parse`] makes that reading: it takes the parser's
//! items as they come ([`Parsed`]) and gives the events of the scanners
//! ([`Event`]), character data and CDATA sections alike as text.
//!
//! One kind of text never reaches the parser: a document type declaration
//! that nests `<` deeper than the parser can count. [`parse`] refuses it as
//! malformed.

use vstd::prelude::*;
use xml::reader::EventReader;
use xml::reader::XmlEvent;
use crate::text::chars_of;

verus! {

/// One attribute of an element: local name and value.
#[derive(Debug, PartialEq, Eq)]
pub struct Attribute {
    pub name: String,
    pub value: String,
}

/// One step of the parser over a document.
#[derive(Debug, PartialEq, Eq)]
pub enum Event {
    /// An element starts. The name is the local name, without a namespace
    /// prefix.
    Start { name: String, attributes: Vec<Attribute> },
    /// Character data or a CDATA section.
    Text(String),
    /// Anything else that is well formed: the ends of elements and of the
    /// document, whitespace, comments, processing instructions.
    Other,
    /// The parser met malformed input. Nothing after it can be trusted.
    Malformed,
}

/// What an [`Attribute`] stands for.
pub struct AttributeModel {
    pub name: Seq<char>,
    pub value: Seq<char>,
}

/// What an [`Event`] stands for.
pub enum EventModel {
    Start { name: Seq<char>, attributes: Seq<AttributeModel> },
    Text(Seq<char>),
    Other,
    Malformed,
}

impl View for Attribute {
    type V = AttributeModel;

    open spec fn view(&self) -> AttributeModel {
        AttributeModel { name: self.name@, value: self.value@ }
    }
}

/// The models of a list of attributes, in order.
pub open spec fn attributes_model(attributes: Seq<Attribute>) -> Seq<AttributeModel> {
    attributes.map_values(|a: Attribute| a@)
}

impl View for Event {
    type V = EventModel;

    open spec fn view(&self) -> EventModel {
        match *self {
            Event::Start { name, attributes } => EventModel::Start {
                name: name@,
                attributes: attributes_model(attributes@),
            },
            Event::Text(text) => EventModel::Text(text@),
            Event::Other => EventModel::Other,
            Event::Malformed => EventModel::Malformed,
        }
    }
}

/// The models of a list of events, in order.
pub open spec fn stream_of(events: Seq<Event>) -> Seq<EventModel> {
    events.map_values(|e: Event| e@)
}

/// One item of the parser's output, variant for variant as far as the
/// scanners read it.
#[derive(Debug, PartialEq, Eq)]
pub enum Parsed {
    /// An element starts.
    Start { name: String, attributes: Vec<Attribute> },
    /// Character data, unescaped.
    Characters(String),
    /// A CDATA section, as written.
    CData(String),
    /// Any other event.
    Other,
    /// An error.
    Malformed,
}

/// What a [`Parsed`] stands for.
pub enum ParsedModel {
    Start { name: Seq<char>, attributes: Seq<AttributeModel> },
    Characters(Seq<char>),
    CData(Seq<char>),
    Other,
    Malformed,
}

impl View for Parsed {
    type V = ParsedModel;

    open spec fn view(&self) -> ParsedModel {
        match *self {
            Parsed::Start { name, attributes } => ParsedModel::Start {
                name: name@,
                attributes: attributes_model(attributes@),
            },
            Parsed::Characters(text) => ParsedModel::Characters(text@),
            Parsed::CData(text) => ParsedModel::CData(text@),
            Parsed::Other => ParsedModel::Other,
            Parsed::Malformed => ParsedModel::Malformed,
        }
    }
}

/// The models of a list of parsed items, in order.
pub open spec fn parsed_of(items: Seq<Parsed>) -> Seq<ParsedModel> {
    items.map_values(|item: Parsed| item@)
}

/// What a scanner reads of a parsed item: character data and CDATA sections
/// are both text.
pub open spec fn event_of(item: ParsedModel) -> EventModel {
    match item {
        ParsedModel::Start { name, attributes } => EventModel::Start { name, attributes },
        ParsedModel::Characters(text) => EventModel::Text(text),
        ParsedModel::CData(text) => EventModel::Text(text),
        ParsedModel::Other => EventModel::Other,
        ParsedModel::Malformed => EventModel::Malformed,
    }
}

/// The events of a list of parsed items, in order.
pub open spec fn events_of(items: Seq<ParsedModel>) -> Seq<EventModel> {
    items.map_values(|item: ParsedModel| event_of(item))
}

/// The characters that open a document type declaration.
pub open spec fn doctype_mark() -> Seq<char> {
    seq!['<', '!', 'D', 'O', 'C', 'T', 'Y', 'P', 'E']
}

/// The text holds `<!DOCTYPE` just before the offset `end`.
pub open spec fn mark_ends_at(text: Seq<char>, end: int) -> bool {
    9 <= end <= text.len() && text.subrange(end - 9, end) == doctype_mark()
}

/// The deepest nesting of `<` inside a document type declaration that the
/// parser can count.
pub const DOCTYPE_DEPTH: usize = 255;

/// Reading on inside a document type declaration, `depth` brackets being
/// open, the nesting stays within [`DOCTYPE_DEPTH`] up to the `>` that
/// closes the declaration, or to the end of the text.
pub open spec fn run_bounded(rest: Seq<char>, depth: int) -> bool
    decreases rest.len(),
{
    if rest.len() == 0 {
        true
    } else if rest[0] == '<' {
        depth < DOCTYPE_DEPTH && run_bounded(rest.drop_first(), depth + 1)
    } else if rest[0] == '>' {
        depth <= 1 || run_bounded(rest.drop_first(), depth - 1)
    } else {
        run_bounded(rest.drop_first(), depth)
    }
}

/// After no `<!DOCTYPE` of the text does the nesting of `<` pass
/// [`DOCTYPE_DEPTH`] before the declaration is closed.
pub open spec fn doctype_bounded(text: Seq<char>) -> bool {
    forall|end: int| #[trigger] mark_ends_at(text, end) ==> run_bounded(text.skip(end), 1)
}

/// A run that is bounded from some depth is bounded from any lesser one.
pub proof fn lemma_run_bounded_from_less(rest: Seq<char>, depth: int, less: int)
    requires
        run_bounded(rest, depth),
        1 <= less <= depth,
    ensures
        run_bounded(rest, less),
    decreases rest.len(),
{
    if rest.len() > 0 {
        if rest[0] == '<' {
            lemma_run_bounded_from_less(rest.drop_first(), depth + 1, less + 1);
        } else if rest[0] == '>' {
            if less > 1 {
                lemma_run_bounded_from_less(rest.drop_first(), depth - 1, less - 1);
            }
        } else {
            lemma_run_bounded_from_less(rest.drop_first(), depth, less);
        }
    }
}

fn ends_mark(chars: &Vec<char>, end: usize) -> (found: bool)
    requires
        end <= chars.len(),
    ensures
        found == mark_ends_at(chars@, end as int),
{
    if end < 9 {
        return false;
    }
    let from: usize = end - 9;
    let found = chars[from] == '<' && chars[from + 1] == '!' && chars[from + 2] == 'D' && chars[from
        + 3] == 'O' && chars[from + 4] == 'C' && chars[from + 5] == 'T' && chars[from + 6] == 'Y'
        && chars[from + 7] == 'P' && chars[from + 8] == 'E';
    proof {
        let part = chars@.subrange(end - 9, end as int);
        if found {
            assert(part =~= doctype_mark());
        } else {
            assert(forall|j: int| 0 <= j < 9 ==> part[j] == chars@[from + j]);
        }
    }
    found
}

/// Checks that the parser can count the nesting inside every document type
/// declaration of a text.
pub fn check_doctype(text: &str) -> (bounded: bool)
    ensures
        bounded == doctype_bounded(text@),
{
    let chars = chars_of(text);
    let ghost all = chars@;
    let ghost mut opened: int = 0;
    let mut depth: usize = 0;
    let mut i: usize = 0;
    while i < chars.len()
        invariant
            i <= chars.len(),
            all == chars@,
            all == text@,
            depth <= DOCTYPE_DEPTH,
            forall|end: int|
                #[trigger] mark_ends_at(all, end) && end <= i ==> (if depth == 0 {
                    run_bounded(all.skip(end), 1)
                } else {
                    run_bounded(all.skip(i as int), depth as int) ==> run_bounded(all.skip(end), 1)
                }),
            depth >= 1 ==> mark_ends_at(all, opened) && opened <= i && run_bounded(all.skip(opened), 1)
                == run_bounded(all.skip(i as int), depth as int),
        decreases chars.len() - i,
    {
        proof {
            assert(all.skip(i as int).drop_first() =~= all.skip(i + 1));
            assert(all.skip(i as int)[0] == all[i as int]);
        }
        let c = chars[i];
        if depth == 0 {
            if ends_mark(&chars, i + 1) {
                depth = 1;
                proof {
                    opened = i + 1;
                }
            }
        } else if c == '<' {
            if depth == DOCTYPE_DEPTH {
                return false;
            }
            depth += 1;
        } else if c == '>' {
            depth -= 1;
        } else {
            proof {
                if mark_ends_at(all, i + 1) && run_bounded(all.skip(i + 1), depth as int) {
                    lemma_run_bounded_from_less(all.skip(i + 1), depth as int, 1);
                }
            }
        }
        proof {
            if c == '<' || c == '>' {
                assert(!mark_ends_at(all, i + 1)) by {
                    if 9 <= i + 1 {
                        assert(all.subrange(i + 1 - 9, i + 1)[8] == all[i as int]);
                    }
                }
            }
        }
        i += 1;
    }
    proof {
        assert(all.skip(i as int).len() == 0);
    }
    true
}

/// The items that the XML parser yields for a document, from the first up
/// to and including the end of the document or the first error, whichever
/// comes first.
pub uninterp spec fn xml_events(text: Seq<char>) -> Seq<ParsedModel>;

/// Runs `xml::reader::EventReader::new` on the bytes of `text`, walks the
/// iterator that `into_iter` makes of it to its end, and turns each item
/// into a [`Parsed`] of the same kind: `StartElement` with the local names
/// of the element and of its attributes, `Characters`, `CData`, an `Err`
/// as [`Parsed::Malformed`], any other event as [`Parsed::Other`].
///
/// The parser's lexer counts the `<` that are open inside a document type
/// declaration in a byte, and overflows on the 255th: such a text is left
/// out.
///
/// Not proved, but taken from the parser: that it returns on every other
/// text, and that what it yields depends on the document alone, so that the
/// list has the name [`xml_events`] of the text. Nothing is claimed of which
/// items a given document yields.
#[verifier::external_body]
pub(crate) fn read_events(text: &str) -> (items: Vec<Parsed>)
    requires
        doctype_bounded(text@),
    ensures
        parsed_of(items@) == xml_events(text@),
{
    EventReader::new(text.as_bytes()).into_iter().map(|item| match item {
        Ok(XmlEvent::StartElement { name, attributes, .. }) => Parsed::Start {
            name: name.local_name,
            attributes: attributes.into_iter().map(|a| Attribute { name: a.name.local_name, value: a.value }).collect(),
        },
        Ok(XmlEvent::Characters(text)) => Parsed::Characters(text),
        Ok(XmlEvent::CData(text)) => Parsed::CData(text),
        Ok(_) => Parsed::Other,
        Err(_) => Parsed::Malformed,
    }).collect()
}

/// The events of a document: those of what the parser yields or, for a text
/// whose document type declaration nests deeper than the parser can count,
/// the one report of malformed input.
pub open spec fn document_events(text: Seq<char>) -> Seq<EventModel> {
    if doctype_bounded(text) {
        events_of(xml_events(text))
    } else {
        seq![EventModel::Malformed]
    }
}

/// Parses a document into its events.
///
/// A text that the parser cannot be given is refused here, as malformed.
pub fn parse(text: &str) -> (events: Vec<Event>)
    ensures
        stream_of(events@) == document_events(text@),
{
    let mut events: Vec<Event> = Vec::new();
    if !check_doctype(text) {
        events.push(Event::Malformed);
        assert(stream_of(events@) =~= seq![EventModel::Malformed]);
        return events;
    }
    let items = read_events(text);
    let ghost models = parsed_of(items@);
    for item in it: items.into_iter()
        invariant
            it.seq() == items@,
            models == parsed_of(items@),
            events.len() == it.index(),
            forall|j: int| 0 <= j < it.index() ==> (#[trigger] events@[j])@ == event_of(models[j]),
    {
        let ghost model = item@;
        assert(models[it.index() as int] == item@);
        let event = match item {
            Parsed::Start { name, attributes } => Event::Start { name, attributes },
            Parsed::Characters(text) => Event::Text(text),
            Parsed::CData(text) => Event::Text(text),
            Parsed::Other => Event::Other,
            Parsed::Malformed => Event::Malformed,
        };
        assert(event@ == event_of(model));
        events.push(event);
    }
    assert(stream_of(events@) =~= events_of(models));
    events
}

/// No event of the stream reports malformed input.
pub open spec fn well_formed(events: Seq<EventModel>) -> bool {
    forall|i: int| 0 <= i < events.len() ==> !(#[trigger] events[i] is Malformed)
}

/// Checks a stream for malformed input.
pub fn check_well_formed(events: &Vec<Event>) -> (ok: bool)
    ensures
        ok == well_formed(stream_of(events@)),
{
    let mut i: usize = 0;
    while i < events.len()
        invariant
            i <= events.len(),
            forall|j: int| 0 <= j < i ==> !(#[trigger] stream_of(events@)[j] is Malformed),
        decreases events.len() - i,
    {
        match &events[i] {
            Event::Malformed => {
                assert(stream_of(events@)[i as int] is Malformed);
                return false;
            },
            _ => {},
        }
        i += 1;
    }
    true
}

} // verus!
