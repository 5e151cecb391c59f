//! The entry-scoped field locator: one value per entry, in document order.
//!
//! A field counts only inside an entry: the title of the channel or of the
//! feed itself, which stands before the first entry, is never emitted. Each
//! entry gives its field at most once: the first element of the alias set
//! inside the entry arms the scan, and the next text of the stream is the
//! value. An entry that lacks the field leaves a gap in the sequence and is
//! no failure. The scan ends at malformed input, with what it has found so
//! far.

use vstd::prelude::*;
use crate::alias::KEYS_ENTRY;
use crate::alias::is_key;
use crate::alias::names_in;
use crate::alias::names_of;
use crate::alias::own_keys;
use crate::event::Event;
use crate::event::EventModel;
use crate::event::stream_of;
use crate::text::texts_of;

verus! {

/// The state of one pass.
pub struct Cursor {
    /// An entry has started and has not given its field yet.
    pub awaiting: bool,
    /// The next text event is the field's value.
    pub armed: bool,
}

/// The state before the first event.
pub open spec fn start_cursor() -> Cursor {
    Cursor { awaiting: false, armed: false }
}

/// The names that open an entry.
pub open spec fn entry_names() -> Seq<Seq<char>> {
    names_of(KEYS_ENTRY@)
}

/// The state after an event, in a scan for the elements named in `fields`.
pub open spec fn field_step(cursor: Cursor, event: EventModel, fields: Seq<Seq<char>>) -> Cursor {
    match event {
        EventModel::Start { name, .. } => {
            if entry_names().contains(name) {
                Cursor { awaiting: true, armed: cursor.armed }
            } else if fields.contains(name) && cursor.awaiting {
                Cursor { awaiting: false, armed: true }
            } else {
                cursor
            }
        },
        EventModel::Text(_) => Cursor { awaiting: cursor.awaiting, armed: false },
        _ => cursor,
    }
}

/// What an event makes the scan emit: the text that an armed cursor meets.
pub open spec fn field_emitted(cursor: Cursor, event: EventModel) -> Seq<Seq<char>> {
    match event {
        EventModel::Text(text) => if cursor.armed {
            seq![text]
        } else {
            Seq::empty()
        },
        _ => Seq::empty(),
    }
}

/// What a scan emits from a given state on.
pub open spec fn scan_fields(events: Seq<EventModel>, fields: Seq<Seq<char>>, cursor: Cursor) -> Seq<
    Seq<char>,
>
    decreases events.len(),
{
    if events.len() == 0 || events[0] is Malformed {
        Seq::empty()
    } else {
        field_emitted(cursor, events[0]) + scan_fields(
            events.drop_first(),
            fields,
            field_step(cursor, events[0], fields),
        )
    }
}

/// The values of a field, one per entry that has it, in document order.
pub open spec fn entry_fields(events: Seq<EventModel>, fields: Seq<Seq<char>>) -> Seq<Seq<char>> {
    scan_fields(events, fields, start_cursor())
}

/// Collects the values of a field over all entries of a feed.
pub fn collect_fields(events: &Vec<Event>, fields: &[&str]) -> (values: Vec<String>)
    ensures
        texts_of(values@) == entry_fields(stream_of(events@), names_of(fields@)),
{
    let entries = own_keys(KEYS_ENTRY.as_slice());
    let wanted = own_keys(fields);
    let ghost all = stream_of(events@);
    let ghost names = names_of(fields@);
    let mut values: Vec<String> = Vec::new();
    let mut awaiting = false;
    let mut armed = false;
    let mut i: usize = 0;
    proof {
        assert(all.skip(0) =~= all);
    }
    while i < events.len()
        invariant
            i <= events.len(),
            all == stream_of(events@),
            names == names_of(fields@),
            names_in(wanted@) == names,
            names_in(entries@) == entry_names(),
            entry_fields(all, names) == texts_of(values@) + scan_fields(
                all.skip(i as int),
                names,
                Cursor { awaiting, armed },
            ),
        decreases events.len() - i,
    {
        proof {
            assert(all.skip(i as int).drop_first() =~= all.skip(i + 1));
        }
        match &events[i] {
            Event::Malformed => {
                return values;
            },
            Event::Start { name, attributes: _ } => {
                if is_key(&entries, name) {
                    awaiting = true;
                } else if awaiting && is_key(&wanted, name) {
                    armed = true;
                    awaiting = false;
                }
            },
            Event::Text(text) => {
                if armed {
                    armed = false;
                    values.push(text.clone());
                }
            },
            Event::Other => {},
        }
        i += 1;
    }
    values
}

} // verus!
