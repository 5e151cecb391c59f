//! What holds of the scans, for every stream of events.

use vstd::prelude::*;
use crate::alias::KEYS_DATE;
use crate::alias::names_of;
use crate::date::canonical_date;
use crate::date::date_complete;
use crate::date::date_outcomes;
use crate::date::is_rfc822;
use crate::date::month_number;
use crate::date::one_digit_day;
use crate::date::outcomes_of;
use crate::error::FeedError;
use crate::event::EventModel;
use crate::event::well_formed;
use crate::event::document_events;
use crate::links::entry_links;
use crate::locator::Cursor;
use crate::locator::entry_fields;
use crate::locator::entry_names;
use crate::locator::field_emitted;
use crate::locator::field_step;
use crate::locator::scan_fields;
use crate::locator::start_cursor;
use crate::matcher::advance;
use crate::matcher::attribute_value;
use crate::matcher::count_matches;
use crate::matcher::is_match;
use crate::matcher::seek;
use crate::outline::find_name;
use crate::outline::is_outline;
use crate::outline::no_text_has_key;
use crate::outline::text_has_key;
use crate::outline::outline_values;
use crate::outline::outline_values_optional;
use crate::outline::split_commas;
use crate::outline::split_from;
use crate::resolver::enclosure_value;
use crate::resolver::link_value;
use crate::resolver::resolve_span;
use crate::text::contains_text;
use crate::text::texts_of;

verus! {

/// The rest of a well-formed stream is well formed.
pub proof fn lemma_rest_well_formed(events: Seq<EventModel>)
    requires
        well_formed(events),
        events.len() > 0,
    ensures
        !(events[0] is Malformed),
        well_formed(events.drop_first()),
{
    let rest = events.drop_first();
    assert forall|i: int| 0 <= i < rest.len() implies !(#[trigger] rest[i] is Malformed) by {
        assert(rest[i] == events[i + 1]);
    }
}

/// A scan that succeeds ends on a match, inside the stream.
pub proof fn law_seek_stops_at_match(events: Seq<EventModel>, keys: Seq<Seq<char>>, k: nat)
    ensures
        seek(events, keys, k) matches Ok(pos) ==> 1 <= pos <= events.len() && is_match(
            events[pos - 1],
            keys,
        ),
    decreases events.len(),
{
    if events.len() > 0 && !(events[0] is Malformed) {
        let rest = events.drop_first();
        if is_match(events[0], keys) {
            if k > 1 {
                law_seek_stops_at_match(rest, keys, (k - 1) as nat);
            }
        } else {
            law_seek_stops_at_match(rest, keys, k);
        }
    }
}

/// An ordinal beyond the number of matching elements of a well-formed
/// document fails as not reached, which is not the failure of a malformed
/// one.
pub proof fn law_ordinal_beyond_count(events: Seq<EventModel>, keys: Seq<Seq<char>>, k: nat)
    requires
        well_formed(events),
        k >= 1,
        k > count_matches(events, keys),
    ensures
        seek(events, keys, k) == Err::<nat, FeedError>(FeedError::OrdinalNotReached),
        seek(events, keys, k) != Err::<nat, FeedError>(FeedError::StructuralParse),
    decreases events.len(),
{
    if events.len() > 0 {
        lemma_rest_well_formed(events);
        if is_match(events[0], keys) {
            law_ordinal_beyond_count(events.drop_first(), keys, (k - 1) as nat);
        } else {
            law_ordinal_beyond_count(events.drop_first(), keys, k);
        }
    }
}

/// An ordinal within the number of matching elements of a well-formed
/// document is reached: the scan stops on the match that is the `k`-th.
pub proof fn law_ordinal_within_count(events: Seq<EventModel>, keys: Seq<Seq<char>>, k: nat)
    requires
        well_formed(events),
        1 <= k <= count_matches(events, keys),
    ensures
        seek(events, keys, k) matches Ok(pos) && 1 <= pos <= events.len() && is_match(
            events[pos - 1],
            keys,
        ) && count_matches(events.take(pos as int), keys) == k,
    decreases events.len(),
{
    lemma_rest_well_formed(events);
    let rest = events.drop_first();
    if is_match(events[0], keys) && k <= 1 {
        assert(count_matches(events.take(1).drop_first(), keys) == 0);
    } else {
        let left = if is_match(events[0], keys) {
            (k - 1) as nat
        } else {
            k
        };
        law_ordinal_within_count(rest, keys, left);
        let pos = seek(rest, keys, left)->Ok_0;
        let head = events.take(pos as int + 1);
        assert(head.drop_first() =~= rest.take(pos as int));
    }
}

/// Malformed input that comes before the `k`-th match aborts the scan,
/// however many matches follow it.
pub proof fn law_malformed_aborts(events: Seq<EventModel>, keys: Seq<Seq<char>>, k: nat, at: int)
    requires
        0 <= at < events.len(),
        events[at] is Malformed,
        k >= 1,
        k > count_matches(events.take(at), keys),
    ensures
        seek(events, keys, k) == Err::<nat, FeedError>(FeedError::StructuralParse),
    decreases events.len(),
{
    if !(events[0] is Malformed) {
        let rest = events.drop_first();
        assert(events.take(at).drop_first() =~= rest.take(at - 1));
        if is_match(events[0], keys) {
            law_malformed_aborts(rest, keys, (k - 1) as nat, at - 1);
        } else {
            law_malformed_aborts(rest, keys, k, at - 1);
        }
    }
}

/// A search over a well-formed list fails only for want of a match.
pub proof fn lemma_find_fails_for_want_of_match(events: Seq<EventModel>, key: Seq<char>)
    requires
        well_formed(events),
    ensures
        find_name(events, key) is Err ==> find_name(events, key) == Err::<Seq<char>, FeedError>(
            FeedError::KeyNoMatch,
        ),
    decreases events.len(),
{
    if events.len() > 0 {
        lemma_rest_well_formed(events);
        lemma_find_fails_for_want_of_match(events.drop_first(), key);
    }
}

/// A key that no `text` attribute of a well-formed list contains is not
/// found: the search fails, and gives no name, empty or not.
pub proof fn law_absent_key_is_no_match(events: Seq<EventModel>, key: Seq<char>)
    requires
        well_formed(events),
        no_text_has_key(events, key),
    ensures
        find_name(events, key) == Err::<Seq<char>, FeedError>(FeedError::KeyNoMatch),
    decreases events.len(),
{
    if events.len() > 0 {
        lemma_rest_well_formed(events);
        let rest = events.drop_first();
        assert forall|i: int| 0 <= i < rest.len() implies !text_has_key(#[trigger] rest[i], key) by {
            assert(rest[i] == events[i + 1]);
        }
        assert(!text_has_key(events[0], key));
        law_absent_key_is_no_match(rest, key);
    }
}

/// A key that some `text` attribute of a well-formed list contains is found.
pub proof fn law_key_is_found(events: Seq<EventModel>, key: Seq<char>)
    requires
        well_formed(events),
        !no_text_has_key(events, key),
    ensures
        find_name(events, key) is Ok,
    decreases events.len(),
{
    if events.len() > 0 && !text_has_key(events[0], key) {
        lemma_rest_well_formed(events);
        let rest = events.drop_first();
        let i = choose|i: int| 0 <= i < events.len() && text_has_key(#[trigger] events[i], key);
        assert(rest[i - 1] == events[i]);
        law_key_is_found(rest, key);
    }
}

/// A name that a search gives is the whole `text` attribute of the first
/// outline whose `text` contains the key.
pub proof fn law_found_name_is_first_match(events: Seq<EventModel>, key: Seq<char>)
    ensures
        find_name(events, key) matches Ok(name) ==> exists|i: int|
            0 <= i < events.len() && text_has_key(#[trigger] events[i], key) && attribute_value(
                events[i]->attributes,
                "text"@,
            ) == Some(name) && forall|j: int| 0 <= j < i ==> !text_has_key(#[trigger] events[j], key),
    decreases events.len(),
{
    if events.len() > 0 && !(events[0] is Malformed) {
        if text_has_key(events[0], key) {
            assert(forall|j: int| 0 <= j < 0 ==> !text_has_key(#[trigger] events[j], key));
        } else {
            let rest = events.drop_first();
            law_found_name_is_first_match(rest, key);
            if find_name(rest, key) is Ok {
                let name = find_name(rest, key)->Ok_0;
                let i = choose|i: int|
                    0 <= i < rest.len() && text_has_key(#[trigger] rest[i], key) && attribute_value(
                        rest[i]->attributes,
                        "text"@,
                    ) == Some(name) && forall|j: int|
                        0 <= j < i ==> !text_has_key(#[trigger] rest[j], key);
                assert(events[i + 1] == rest[i]);
                assert forall|j: int| 0 <= j < i + 1 implies !text_has_key(
                    #[trigger] events[j],
                    key,
                ) by {
                    if j > 0 {
                        assert(events[j] == rest[j - 1]);
                    }
                }
            }
        }
    }
}

/// The event starts an `enclosure` element.
pub open spec fn is_enclosure(event: EventModel) -> bool {
    event matches EventModel::Start { name, .. } && name == "enclosure"@
}

/// Within an entry, the first enclosure decides the link, whatever `link`
/// elements stand before or after it.
pub proof fn law_enclosure_wins(
    span: Seq<EventModel>,
    candidate: Option<Result<Seq<char>, FeedError>>,
    at: int,
)
    requires
        0 <= at < span.len(),
        is_enclosure(span[at]),
        forall|i: int|
            0 <= i < at ==> !(#[trigger] span[i] is Malformed) && !is_match(span[i], entry_names())
                && !is_enclosure(span[i]),
    ensures
        resolve_span(span, candidate) == enclosure_value(span[at]),
    decreases span.len(),
{
    if at == 0 {
        lemma_enclosure_opens_no_entry();
    } else {
        let rest = span.drop_first();
        assert forall|i: int| 0 <= i < at - 1 implies !(#[trigger] rest[i] is Malformed) && !is_match(
            rest[i],
            entry_names(),
        ) && !is_enclosure(rest[i]) by {
            assert(rest[i] == span[i + 1]);
        }
        match span[0] {
            EventModel::Start { name, .. } => {
                if name == "link"@ && candidate is None {
                    law_enclosure_wins(rest, Some(link_value(span)), at - 1);
                } else {
                    law_enclosure_wins(rest, candidate, at - 1);
                }
            },
            _ => {
                law_enclosure_wins(rest, candidate, at - 1);
            },
        }
    }
}

/// `enclosure` is not among the names that open an entry.
pub proof fn lemma_enclosure_opens_no_entry()
    ensures
        !entry_names().contains("enclosure"@),
{
    reveal_strlit("enclosure");
    reveal_strlit("entry");
    reveal_strlit("item");
    assert("enclosure"@.len() == 9);
    assert("entry"@.len() == 5);
    assert("item"@.len() == 4);
}

/// How many values a cursor may still owe from before the events to come.
pub open spec fn owed(cursor: Cursor) -> nat {
    if cursor.awaiting || cursor.armed {
        if cursor.awaiting && cursor.armed {
            2
        } else {
            1
        }
    } else {
        0
    }
}

/// A scan emits no more values than the entries that start in it, and what
/// its cursor owed at its beginning.
pub proof fn lemma_scan_bounded(events: Seq<EventModel>, fields: Seq<Seq<char>>, cursor: Cursor)
    ensures
        scan_fields(events, fields, cursor).len() <= count_matches(events, entry_names()) + owed(
            cursor,
        ),
    decreases events.len(),
{
    if events.len() > 0 && !(events[0] is Malformed) {
        lemma_scan_bounded(
            events.drop_first(),
            fields,
            field_step(cursor, events[0], fields),
        );
    }
}

/// Each entry gives its field at most once: a feed has no more values of a
/// field than entries.
pub proof fn law_one_value_per_entry(events: Seq<EventModel>, fields: Seq<Seq<char>>)
    ensures
        entry_fields(events, fields).len() <= count_matches(events, entry_names()),
{
    lemma_scan_bounded(events, fields, start_cursor());
}

/// A field that stands before the first entry, as the title of the feed
/// itself does, is never emitted: without an entry there is no value.
pub proof fn law_no_entry_no_value(events: Seq<EventModel>, fields: Seq<Seq<char>>)
    requires
        count_matches(events, entry_names()) == 0,
    ensures
        entry_fields(events, fields) == Seq::<Seq<char>>::empty(),
{
    law_one_value_per_entry(events, fields);
}

/// Every value of a field is the text of a text event of the stream.
pub proof fn law_values_are_texts(events: Seq<EventModel>, fields: Seq<Seq<char>>, cursor: Cursor, n: int)
    requires
        0 <= n < scan_fields(events, fields, cursor).len(),
    ensures
        exists|i: int|
            0 <= i < events.len() && #[trigger] events[i] == EventModel::Text(
                scan_fields(events, fields, cursor)[n],
            ),
    decreases events.len(),
{
    let values = scan_fields(events, fields, cursor);
    let first = field_emitted(cursor, events[0]);
    let rest = events.drop_first();
    let next = field_step(cursor, events[0], fields);
    if n < first.len() {
        assert(events[0] == EventModel::Text(values[n]));
    } else {
        law_values_are_texts(rest, fields, next, n - first.len());
        let i = choose|i: int|
            0 <= i < rest.len() && #[trigger] rest[i] == EventModel::Text(
                scan_fields(rest, fields, next)[n - first.len()],
            );
        assert(events[i + 1] == rest[i]);
    }
}

/// A well-formed list gives one optional value for each of its outlines.
pub proof fn law_one_value_per_outline(events: Seq<EventModel>, attribute: Seq<char>)
    requires
        well_formed(events),
    ensures
        outline_values_optional(events, attribute).len() == count_matches(
            events,
            seq!["outline"@],
        ),
    decreases events.len(),
{
    if events.len() > 0 {
        lemma_rest_well_formed(events);
        law_one_value_per_outline(events.drop_first(), attribute);
        let names = seq!["outline"@];
        assert(names[0] == "outline"@);
    }
}

/// The values of an attribute are the optional values that are present, in
/// the same order.
pub proof fn law_values_are_the_present(events: Seq<EventModel>, attribute: Seq<char>)
    ensures
        outline_values(events, attribute) == outline_values_optional(
            events,
            attribute,
        ).filter(|value: Option<Seq<char>>| value is Some).map_values(
            |value: Option<Seq<char>>| value->0,
        ),
    decreases events.len(),
{
    let present = |value: Option<Seq<char>>| value is Some;
    let unwrap = |value: Option<Seq<char>>| value->0;
    let optional = outline_values_optional(events, attribute);
    let values = outline_values(events, attribute);
    if events.len() == 0 || events[0] is Malformed {
        assert(optional.filter(present) =~= Seq::<Option<Seq<char>>>::empty()) by {
            reveal(Seq::filter);
        }
    } else {
        let rest = events.drop_first();
        law_values_are_the_present(rest, attribute);
        let rest_optional = outline_values_optional(rest, attribute);
        if is_outline(events[0]) {
            let head = seq![attribute_value(events[0]->attributes, attribute)];
            Seq::filter_distributes_over_add(head, rest_optional, present);
            assert(head.filter(present) =~= if head[0] is Some {
                head
            } else {
                Seq::<Option<Seq<char>>>::empty()
            }) by {
                reveal(Seq::filter);
                assert(head.drop_last().filter(present) =~= Seq::<Option<Seq<char>>>::empty());
            }
        }
    }
}

/// What a query returns is settled by the text of the document: two scans
/// of one document for one field give the same values in the same order.
pub proof fn law_fields_repeat(
    text: Seq<char>,
    fields: Seq<Seq<char>>,
    first: Seq<String>,
    second: Seq<String>,
)
    requires
        texts_of(first) == entry_fields(document_events(text), fields),
        texts_of(second) == entry_fields(document_events(text), fields),
    ensures
        first.len() == second.len(),
        forall|i: int| 0 <= i < first.len() ==> first[i]@ == second[i]@,
{
    lemma_same_texts(first, second);
}

/// Two scans of one document give the same links in the same order.
pub proof fn law_links_repeat(text: Seq<char>, first: Seq<String>, second: Seq<String>)
    requires
        texts_of(first) == entry_links(document_events(text)),
        texts_of(second) == entry_links(document_events(text)),
    ensures
        first.len() == second.len(),
        forall|i: int| 0 <= i < first.len() ==> first[i]@ == second[i]@,
{
    lemma_same_texts(first, second);
}

/// Two scans of one subscription list give the same attribute values in the
/// same order.
pub proof fn law_outline_values_repeat(
    text: Seq<char>,
    attribute: Seq<char>,
    first: Seq<String>,
    second: Seq<String>,
)
    requires
        texts_of(first) == outline_values(document_events(text), attribute),
        texts_of(second) == outline_values(document_events(text), attribute),
    ensures
        first.len() == second.len(),
        forall|i: int| 0 <= i < first.len() ==> first[i]@ == second[i]@,
{
    lemma_same_texts(first, second);
}

/// Lists of strings with the same texts agree place by place.
pub proof fn lemma_same_texts(first: Seq<String>, second: Seq<String>)
    requires
        texts_of(first) == texts_of(second),
    ensures
        first.len() == second.len(),
        forall|i: int| 0 <= i < first.len() ==> first[i]@ == second[i]@,
{
    assert(texts_of(first).len() == first.len());
    assert(texts_of(second).len() == second.len());
    assert forall|i: int| 0 <= i < first.len() implies first[i]@ == second[i]@ by {
        assert(texts_of(first)[i] == first[i]@);
        assert(texts_of(second)[i] == second[i]@);
    }
}

/// The name that a search gives is one of the titles of the list.
pub proof fn law_found_name_is_listed(events: Seq<EventModel>, key: Seq<char>)
    ensures
        find_name(events, key) matches Ok(name) ==> outline_values(events, "text"@).contains(name),
    decreases events.len(),
{
    let names = outline_values(events, "text"@);
    if events.len() > 0 && !(events[0] is Malformed) {
        let rest = events.drop_first();
        let later = outline_values(rest, "text"@);
        if is_outline(events[0]) && attribute_value(events[0]->attributes, "text"@) is Some {
            let shown = attribute_value(events[0]->attributes, "text"@)->0;
            assert(names[0] == shown);
            if !contains_text(shown, key) {
                law_found_name_is_listed(rest, key);
                if find_name(rest, key) is Ok {
                    let name = find_name(rest, key)->Ok_0;
                    let i = choose|i: int| 0 <= i < later.len() && later[i] == name;
                    assert(names[i + 1] == name);
                }
            }
        } else {
            law_found_name_is_listed(rest, key);
        }
    }
}

/// The date of every complete timestamp has ten characters; one that comes
/// from the RFC 822 form has its hyphens in place.
pub proof fn law_canonical_date_shape(date: Seq<char>)
    requires
        date_complete(date),
    ensures
        canonical_date(date).len() == 10,
        is_rfc822(date) ==> canonical_date(date)[4] == '-' && canonical_date(date)[7] == '-',
        !is_rfc822(date) ==> canonical_date(date) == date.take(10),
{
}

/// The pieces of a list, joined by commas.
pub open spec fn join_commas(pieces: Seq<Seq<char>>) -> Seq<char>
    decreases pieces.len(),
{
    if pieces.len() == 0 {
        Seq::empty()
    } else if pieces.len() == 1 {
        pieces[0]
    } else {
        pieces[0] + seq![','] + join_commas(pieces.drop_first())
    }
}

/// Splitting goes on from a piece that was begun: the pieces, joined again,
/// are that piece and the rest of the text, and none but the first can hold
/// a comma.
pub proof fn lemma_split_from(rest: Seq<char>, piece: Seq<char>)
    ensures
        split_from(rest, piece).len() >= 1,
        join_commas(split_from(rest, piece)) == piece + rest,
        forall|n: int|
            0 <= n < split_from(rest, piece).len() && !piece.contains(',') ==> !(
            #[trigger] split_from(rest, piece)[n]).contains(','),
    decreases rest.len(),
{
    let pieces = split_from(rest, piece);
    if rest.len() > 0 {
        if rest[0] == ',' {
            let later = split_from(rest.drop_first(), Seq::empty());
            lemma_split_from(rest.drop_first(), Seq::empty());
            assert(pieces.drop_first() =~= later);
            assert forall|n: int| 0 <= n < pieces.len() && !piece.contains(',') implies !(
            #[trigger] pieces[n]).contains(',') by {
                if n > 0 {
                    assert(pieces[n] == later[n - 1]);
                }
            }
        } else {
            let longer = piece.push(rest[0]);
            lemma_split_from(rest.drop_first(), longer);
            if !piece.contains(',') {
                assert forall|j: int| 0 <= j < longer.len() implies longer[j] != ',' by {
                    if j < piece.len() {
                        assert(piece.contains(longer[j]));
                    }
                }
            }
        }
    }
}

/// The pieces of a list hold no comma and, joined by commas, give the list
/// back.
pub proof fn law_split_rejoins(list: Seq<char>)
    ensures
        join_commas(split_commas(list)) == list,
        forall|n: int|
            0 <= n < split_commas(list).len() ==> !(#[trigger] split_commas(list)[n]).contains(','),
{
    lemma_split_from(list, Seq::empty());
}

/// Two results hold the same text, or the same failure.
pub open spec fn same_outcome(first: Result<String, FeedError>, second: Result<String, FeedError>) -> bool {
    match (first, second) {
        (Ok(a), Ok(b)) => a@ == b@,
        (Err(a), Err(b)) => a == b,
        _ => false,
    }
}

/// Two scans of one document give the same dates, and the same failures, in
/// the same order.
pub proof fn law_dates_repeat(
    text: Seq<char>,
    first: Seq<Result<String, FeedError>>,
    second: Seq<Result<String, FeedError>>,
)
    requires
        outcomes_of(first) == date_outcomes(entry_fields(document_events(text), names_of(KEYS_DATE@))),
        outcomes_of(second) == date_outcomes(entry_fields(document_events(text), names_of(KEYS_DATE@))),
    ensures
        first.len() == second.len(),
        forall|i: int| 0 <= i < first.len() ==> #[trigger] same_outcome(first[i], second[i]),
{
    assert(outcomes_of(first).len() == first.len());
    assert(outcomes_of(second).len() == second.len());
    assert forall|i: int| 0 <= i < first.len() implies #[trigger] same_outcome(
        first[i],
        second[i],
    ) by {
        assert(outcomes_of(first)[i] == match first[i] {
            Ok(text) => Ok::<Seq<char>, FeedError>(text@),
            Err(e) => Err(e),
        });
        assert(outcomes_of(second)[i] == match second[i] {
            Ok(text) => Ok::<Seq<char>, FeedError>(text@),
            Err(e) => Err(e),
        });
    }
}

/// The state of a scan inside an entry that has not given its field yet.
pub open spec fn waiting_cursor() -> Cursor {
    Cursor { awaiting: true, armed: false }
}

/// The event leaves a scan that is not armed as it is: it is well formed,
/// opens no entry and, where the scan waits for a field, starts none.
pub open spec fn is_quiet(event: EventModel, fields: Seq<Seq<char>>, awaiting: bool) -> bool {
    !(event is Malformed) && !is_match(event, entry_names()) && (awaiting ==> !is_match(
        event,
        fields,
    ))
}

/// Every event of the stream is quiet.
pub open spec fn all_quiet(events: Seq<EventModel>, fields: Seq<Seq<char>>, awaiting: bool) -> bool {
    forall|i: int| 0 <= i < events.len() ==> is_quiet(#[trigger] events[i], fields, awaiting)
}

/// A scan that is not armed passes over quiet events: they give no value
/// and leave its state as it was.
pub proof fn lemma_quiet_is_passed(
    quiet: Seq<EventModel>,
    rest: Seq<EventModel>,
    fields: Seq<Seq<char>>,
    awaiting: bool,
)
    requires
        all_quiet(quiet, fields, awaiting),
    ensures
        scan_fields(quiet + rest, fields, Cursor { awaiting, armed: false }) == scan_fields(
            rest,
            fields,
            Cursor { awaiting, armed: false },
        ),
    decreases quiet.len(),
{
    let cursor = Cursor { awaiting, armed: false };
    if quiet.len() == 0 {
        assert(quiet + rest =~= rest);
    } else {
        let all = quiet + rest;
        assert(all[0] == quiet[0]);
        assert(is_quiet(quiet[0], fields, awaiting));
        assert(all.drop_first() =~= quiet.drop_first() + rest);
        assert forall|i: int| 0 <= i < quiet.drop_first().len() implies is_quiet(
            #[trigger] quiet.drop_first()[i],
            fields,
            awaiting,
        ) by {
            assert(quiet.drop_first()[i] == quiet[i + 1]);
        }
        assert(field_step(cursor, all[0], fields) == cursor);
        assert(field_emitted(cursor, all[0]) =~= Seq::<Seq<char>>::empty());
        lemma_quiet_is_passed(quiet.drop_first(), rest, fields, awaiting);
        assert(Seq::<Seq<char>>::empty() + scan_fields(all.drop_first(), fields, cursor)
            =~= scan_fields(all.drop_first(), fields, cursor));
    }
}

/// One entry, laid out: its start, what stands before its field, the
/// start of the field and the text that follows at once, and what stands
/// after.
pub struct EntryShape {
    pub entry: EventModel,
    pub before: Seq<EventModel>,
    pub field: EventModel,
    pub value: Seq<char>,
    pub after: Seq<EventModel>,
}

/// The layout is that of an entry that holds the field: nothing before the
/// field's start is another start of the field, and nothing in the entry
/// opens an entry or is malformed.
pub open spec fn holds_field(shape: EntryShape, fields: Seq<Seq<char>>) -> bool {
    &&& is_match(shape.entry, entry_names())
    &&& is_match(shape.field, fields)
    &&& !is_match(shape.field, entry_names())
    &&& all_quiet(shape.before, fields, true)
    &&& all_quiet(shape.after, fields, false)
}

/// The events of an entry.
pub open spec fn shape_events(shape: EntryShape) -> Seq<EventModel> {
    seq![shape.entry] + shape.before + seq![shape.field, EventModel::Text(shape.value)] + shape.after
}

/// The events of entries that follow each other.
pub open spec fn shapes_events(shapes: Seq<EntryShape>) -> Seq<EventModel>
    decreases shapes.len(),
{
    if shapes.len() == 0 {
        Seq::empty()
    } else {
        shape_events(shapes[0]) + shapes_events(shapes.drop_first())
    }
}

/// The values of the fields of entries, in order.
pub open spec fn shapes_values(shapes: Seq<EntryShape>) -> Seq<Seq<char>> {
    shapes.map_values(|shape: EntryShape| shape.value)
}

/// An entry that holds the field gives its value, and leaves the scan owing
/// nothing.
pub proof fn lemma_entry_gives_its_field(shape: EntryShape, rest: Seq<EventModel>, fields: Seq<Seq<char>>)
    requires
        holds_field(shape, fields),
    ensures
        scan_fields(shape_events(shape) + rest, fields, start_cursor()) == seq![shape.value]
            + scan_fields(rest, fields, start_cursor()),
{
    let none = Seq::<Seq<char>>::empty();
    let text = EventModel::Text(shape.value);
    let all = shape_events(shape) + rest;
    let from_before = shape.before + (seq![shape.field, text] + shape.after + rest);
    let from_field = seq![shape.field, text] + shape.after + rest;
    let from_text = seq![text] + shape.after + rest;
    let from_after = shape.after + rest;
    let armed = Cursor { awaiting: false, armed: true };

    assert(all[0] == shape.entry);
    assert(all.drop_first() =~= from_before);
    assert(field_step(start_cursor(), shape.entry, fields) == waiting_cursor());
    assert(scan_fields(all, fields, start_cursor()) == none + scan_fields(
        from_before,
        fields,
        waiting_cursor(),
    ));

    lemma_quiet_is_passed(shape.before, from_field, fields, true);
    assert(from_field[0] == shape.field);
    assert(from_field.drop_first() =~= from_text);
    assert(field_step(waiting_cursor(), shape.field, fields) == armed);
    assert(scan_fields(from_field, fields, waiting_cursor()) == none + scan_fields(
        from_text,
        fields,
        armed,
    ));

    assert(from_text[0] == text);
    assert(from_text.drop_first() =~= from_after);
    assert(field_step(armed, text, fields) == start_cursor());
    assert(scan_fields(from_text, fields, armed) == seq![shape.value] + scan_fields(
        from_after,
        fields,
        start_cursor(),
    ));

    lemma_quiet_is_passed(shape.after, rest, fields, false);
    assert(none + (none + (seq![shape.value] + scan_fields(rest, fields, start_cursor())))
        =~= seq![shape.value] + scan_fields(rest, fields, start_cursor()));
}

/// A feed whose entries each hold the field gives one value for each entry,
/// in document order, whatever stands before the first entry.
pub proof fn law_each_entry_gives_its_field(
    preamble: Seq<EventModel>,
    shapes: Seq<EntryShape>,
    fields: Seq<Seq<char>>,
)
    requires
        all_quiet(preamble, fields, false),
        forall|n: int| 0 <= n < shapes.len() ==> holds_field(#[trigger] shapes[n], fields),
    ensures
        entry_fields(preamble + shapes_events(shapes), fields) == shapes_values(shapes),
        entry_fields(preamble + shapes_events(shapes), fields).len() == shapes.len(),
{
    lemma_quiet_is_passed(preamble, shapes_events(shapes), fields, false);
    lemma_entries_give_their_fields(shapes, fields);
}

/// Entries that each hold the field give their values in order.
pub proof fn lemma_entries_give_their_fields(shapes: Seq<EntryShape>, fields: Seq<Seq<char>>)
    requires
        forall|n: int| 0 <= n < shapes.len() ==> holds_field(#[trigger] shapes[n], fields),
    ensures
        scan_fields(shapes_events(shapes), fields, start_cursor()) == shapes_values(shapes),
    decreases shapes.len(),
{
    if shapes.len() == 0 {
        assert(shapes_values(shapes) =~= Seq::<Seq<char>>::empty());
    } else {
        let later = shapes.drop_first();
        assert forall|n: int| 0 <= n < later.len() implies holds_field(#[trigger] later[n], fields) by {
            assert(later[n] == shapes[n + 1]);
        }
        lemma_entries_give_their_fields(later, fields);
        lemma_entry_gives_its_field(shapes[0], shapes_events(later), fields);
        assert(shapes_values(shapes) =~= seq![shapes[0].value] + shapes_values(later));
    }
}

/// In a list whose outlines all carry an attribute, its values are one for
/// each outline, none dropped and none out of place.
pub proof fn law_every_outline_listed(events: Seq<EventModel>, attribute: Seq<char>)
    requires
        forall|i: int|
            0 <= i < events.len() && is_outline(#[trigger] events[i]) ==> attribute_value(
                events[i]->attributes,
                attribute,
            ) is Some,
    ensures
        outline_values(events, attribute).len() == outline_values_optional(events, attribute).len(),
        forall|n: int|
            0 <= n < outline_values(events, attribute).len() ==> outline_values_optional(
                events,
                attribute,
            )[n] == Some(#[trigger] outline_values(events, attribute)[n]),
    decreases events.len(),
{
    if events.len() > 0 && !(events[0] is Malformed) {
        let rest = events.drop_first();
        assert forall|i: int| 0 <= i < rest.len() && is_outline(#[trigger] rest[i]) implies
            attribute_value(rest[i]->attributes, attribute) is Some by {
            assert(rest[i] == events[i + 1]);
        }
        law_every_outline_listed(rest, attribute);
    }
}

} // verus!
