use koifeed::event::{check_doctype, check_well_formed};
use koifeed::links::{collect_enclosures, collect_links};
use koifeed::locator::collect_fields;
use koifeed::matcher::{find_attribute, ordinal_field, read_payload, seek_ordinal};
use koifeed::outline::{
    collect_outline_values, collect_outline_values_optional, collect_tags, find_homepage,
    find_outline,
};
use koifeed::resolver::resolve_link;
use koifeed::text::{chars_of, find_text};
use koifeed::{Attribute, Event, Feed, FeedError, KEYS_DATE, KEYS_ENTRY, KEYS_TITLE};

fn start(name: &str, attributes: &[(&str, &str)]) -> Event {
    Event::Start {
        name: String::from(name),
        attributes: attributes
            .iter()
            .map(|(name, value)| Attribute { name: String::from(*name), value: String::from(*value) })
            .collect(),
    }
}

fn parse(text: &str) -> Vec<Event> {
    Feed::new(String::from(text)).events()
}

fn text(value: &str) -> Event {
    Event::Text(String::from(value))
}

fn strings(values: &[&str]) -> Vec<String> {
    values.iter().map(|value| String::from(*value)).collect()
}

fn keys(values: &[&str]) -> Vec<String> {
    strings(values)
}

#[test]
fn parser_reports_starts_text_and_the_rest() {
    let events = parse("<a x=\"1\" y=\"2\">hi<b/> <![CDATA[raw]]></a>");
    let expected = vec![
        Event::Other,
        start("a", &[("x", "1"), ("y", "2")]),
        text("hi"),
        start("b", &[]),
        Event::Other,
        Event::Other,
        text("raw"),
        Event::Other,
        Event::Other,
    ];
    assert_eq!(events, expected);
    assert!(check_well_formed(&events));
}

#[test]
fn parser_drops_namespace_prefixes() {
    let events = parse("<r xmlns:dc=\"http://purl.org/dc/elements/1.1/\"><dc:date>d</dc:date></r>");
    assert_eq!(events[2], start("date", &[]));
    assert_eq!(events[3], text("d"));
}

#[test]
fn parser_ends_at_malformed_input() {
    let events = parse("<a><b></a>");
    assert_eq!(
        events,
        vec![Event::Other, start("a", &[]), start("b", &[]), Event::Malformed]
    );
    assert!(!check_well_formed(&events));
    assert_eq!(parse(""), vec![Event::Malformed]);
}

#[test]
fn seek_counts_matches_from_one() {
    let events = vec![
        start("feed", &[]),
        start("entry", &[]),
        text("x"),
        start("item", &[]),
        Event::Other,
        start("entry", &[]),
    ];
    let entry = keys(&KEYS_ENTRY);
    assert_eq!(seek_ordinal(&events, &entry, 1), Ok(2));
    assert_eq!(seek_ordinal(&events, &entry, 2), Ok(4));
    assert_eq!(seek_ordinal(&events, &entry, 3), Ok(6));
    assert_eq!(seek_ordinal(&events, &entry, 4), Err(FeedError::OrdinalNotReached));
    assert_eq!(seek_ordinal(&events, &keys(&[]), 1), Err(FeedError::OrdinalNotReached));
    assert_eq!(seek_ordinal(&Vec::new(), &entry, 1), Err(FeedError::OrdinalNotReached));
}

#[test]
fn seek_is_exact_about_names() {
    let events = vec![start("Entry", &[]), start("entries", &[]), start("entry", &[])];
    assert_eq!(seek_ordinal(&events, &keys(&KEYS_ENTRY), 1), Ok(3));
}

#[test]
fn seek_aborts_at_malformed_input() {
    let events = vec![start("entry", &[]), Event::Malformed, start("entry", &[])];
    let entry = keys(&KEYS_ENTRY);
    assert_eq!(seek_ordinal(&events, &entry, 1), Ok(1));
    assert_eq!(seek_ordinal(&events, &entry, 2), Err(FeedError::StructuralParse));
    assert_eq!(seek_ordinal(&events, &keys(&["other"]), 1), Err(FeedError::StructuralParse));
}

#[test]
fn first_attribute_of_a_name_counts() {
    let attributes = vec![
        Attribute { name: String::from("a"), value: String::from("1") },
        Attribute { name: String::from("b"), value: String::from("2") },
        Attribute { name: String::from("a"), value: String::from("3") },
    ];
    assert_eq!(find_attribute(&attributes, &String::from("a")), Some(String::from("1")));
    assert_eq!(find_attribute(&attributes, &String::from("b")), Some(String::from("2")));
    assert_eq!(find_attribute(&attributes, &String::from("A")), None);
    assert_eq!(find_attribute(&Vec::new(), &String::from("a")), None);
}

#[test]
fn payload_is_attribute_or_next_text() {
    let events = vec![start("link", &[("href", "H")]), text("T"), start("link", &[]), Event::Other];
    assert_eq!(read_payload(&events, 1, Some("href")), Ok(String::from("H")));
    assert_eq!(read_payload(&events, 1, Some("rel")), Err(FeedError::AttributeAbsent));
    assert_eq!(read_payload(&events, 1, None), Ok(String::from("T")));
    assert_eq!(read_payload(&events, 3, None), Err(FeedError::FieldAbsent));
    assert_eq!(read_payload(&events, 3, Some("href")), Err(FeedError::AttributeAbsent));
    let last = vec![start("title", &[])];
    assert_eq!(read_payload(&last, 1, None), Err(FeedError::FieldAbsent));
    let broken = vec![start("title", &[]), Event::Malformed];
    assert_eq!(read_payload(&broken, 1, None), Err(FeedError::StructuralParse));
}

#[test]
fn absent_attribute_is_a_failure_not_the_text() {
    let events = vec![start("link", &[("rel", "self")]), text("http://text.example/")];
    assert_eq!(ordinal_field(&events, &["link"], 1, Some("href")), Err(FeedError::AttributeAbsent));
    assert_eq!(ordinal_field(&events, &["link"], 1, None), Ok(String::from("http://text.example/")));
    assert_eq!(ordinal_field(&events, &["link"], 1, Some("rel")), Ok(String::from("self")));
    assert_eq!(ordinal_field(&events, &["link"], 2, Some("rel")), Err(FeedError::OrdinalNotReached));
}

#[test]
fn fields_count_only_inside_entries() {
    let events = vec![
        start("title", &[]),
        text("channel"),
        start("item", &[]),
        start("title", &[]),
        text("one"),
        start("title", &[]),
        text("one again"),
        start("item", &[]),
        start("pubDate", &[]),
        text("date two"),
        start("item", &[]),
        start("title", &[]),
        text("three"),
    ];
    assert_eq!(collect_fields(&events, &KEYS_TITLE), strings(&["one", "three"]));
    assert_eq!(collect_fields(&events, &KEYS_DATE), strings(&["date two"]));
    assert_eq!(collect_fields(&events, &[]), Vec::<String>::new());
    assert_eq!(collect_fields(&Vec::new(), &KEYS_TITLE), Vec::<String>::new());
}

#[test]
fn an_armed_scan_takes_the_next_text() {
    let events = vec![
        start("entry", &[]),
        start("title", &[]),
        Event::Other,
        start("id", &[]),
        text("late"),
        text("later"),
    ];
    assert_eq!(collect_fields(&events, &KEYS_TITLE), strings(&["late"]));
}

#[test]
fn a_field_scan_ends_at_malformed_input() {
    let events = vec![
        start("entry", &[]),
        start("title", &[]),
        text("kept"),
        Event::Malformed,
        start("entry", &[]),
        start("title", &[]),
        text("lost"),
    ];
    assert_eq!(collect_fields(&events, &KEYS_TITLE), strings(&["kept"]));
    assert_eq!(collect_links(&events), Vec::<String>::new());
}

#[test]
fn link_by_href_or_by_text() {
    let events = vec![
        start("link", &[("href", "feed")]),
        start("entry", &[]),
        start("link", &[("href", "one")]),
        start("link", &[("href", "one again")]),
        start("item", &[]),
        start("link", &[]),
        text("two"),
        start("item", &[]),
        start("enclosure", &[("url", "three.mp3")]),
        start("enclosure", &[]),
    ];
    assert_eq!(collect_links(&events), strings(&["one", "two"]));
    assert_eq!(collect_enclosures(&events), strings(&["three.mp3"]));
}

#[test]
fn resolver_prefers_the_enclosure() {
    let events = vec![
        start("item", &[]),
        start("link", &[("href", "Y")]),
        start("enclosure", &[("url", "X")]),
        start("item", &[]),
        start("link", &[]),
        text("T"),
        start("link", &[("href", "second link")]),
        start("item", &[]),
        start("title", &[]),
        start("item", &[]),
        start("link", &[]),
        start("item", &[]),
        start("enclosure", &[("length", "1")]),
        start("link", &[("href", "Z")]),
    ];
    assert_eq!(resolve_link(&events, 1), Ok(String::from("X")));
    assert_eq!(resolve_link(&events, 2), Ok(String::from("T")));
    assert_eq!(resolve_link(&events, 3), Err(FeedError::FieldAbsent));
    assert_eq!(resolve_link(&events, 4), Err(FeedError::FieldAbsent));
    assert_eq!(resolve_link(&events, 5), Err(FeedError::AttributeAbsent));
    assert_eq!(resolve_link(&events, 6), Err(FeedError::OrdinalNotReached));
}

#[test]
fn resolver_stays_inside_the_entry() {
    let events = vec![
        start("enclosure", &[("url", "before")]),
        start("entry", &[]),
        start("link", &[("href", "mine")]),
        start("entry", &[]),
        start("enclosure", &[("url", "next")]),
    ];
    assert_eq!(resolve_link(&events, 1), Ok(String::from("mine")));
    assert_eq!(resolve_link(&events, 2), Ok(String::from("next")));
}

#[test]
fn resolver_aborts_at_malformed_input() {
    let events = vec![start("entry", &[]), start("link", &[("href", "Y")]), Event::Malformed];
    assert_eq!(resolve_link(&events, 1), Err(FeedError::StructuralParse));
    let before = vec![Event::Malformed, start("entry", &[])];
    assert_eq!(resolve_link(&before, 1), Err(FeedError::StructuralParse));
}

#[test]
fn outline_scans_on_events() {
    let events = vec![
        start("outline", &[("text", "a"), ("category", "x,y")]),
        start("other", &[("text", "no outline")]),
        start("outline", &[("title", "B"), ("text", "b"), ("htmlUrl", "http://b.example/")]),
        start("outline", &[]),
        Event::Malformed,
        start("outline", &[("text", "lost")]),
    ];
    assert_eq!(collect_outline_values(&events, "text"), strings(&["a", "b"]));
    assert_eq!(
        collect_outline_values_optional(&events, "title"),
        vec![None, Some(String::from("B")), None]
    );
    assert_eq!(
        collect_tags(&events),
        vec![strings(&["x", "y"]), Vec::<String>::new(), Vec::<String>::new()]
    );
    assert_eq!(find_outline(&events, "a"), Ok(String::from("a")));
    assert_eq!(find_outline(&events, "b"), Ok(String::from("b")));
    assert_eq!(find_outline(&events, "B"), Err(FeedError::StructuralParse));
    let clean = vec![start("outline", &[("title", "B"), ("text", "b")]), start("outline", &[])];
    assert_eq!(find_outline(&clean, "B"), Err(FeedError::KeyNoMatch));
    assert_eq!(find_homepage(&events, "B"), Ok(String::from("http://b.example/")));
    assert_eq!(find_homepage(&events, "b"), Ok(String::from("http://b.example/")));
    assert_eq!(find_homepage(&events, "a"), Err(FeedError::AttributeAbsent));
    assert_eq!(find_homepage(&events, "lost"), Err(FeedError::StructuralParse));
}

#[test]
fn substring_search() {
    let hay = chars_of("subscription");
    assert!(find_text(&hay, &chars_of("")));
    assert!(find_text(&hay, &chars_of("sub")));
    assert!(find_text(&hay, &chars_of("script")));
    assert!(find_text(&hay, &chars_of("tion")));
    assert!(find_text(&hay, &chars_of("subscription")));
    assert!(!find_text(&hay, &chars_of("subscriptions")));
    assert!(!find_text(&hay, &chars_of("Sub")));
    assert!(!find_text(&hay, &chars_of("scrap")));
    assert!(find_text(&chars_of(""), &chars_of("")));
    assert!(!find_text(&chars_of(""), &chars_of("a")));
    assert_eq!(chars_of("héllo"), vec!['h', 'é', 'l', 'l', 'o']);
}

#[test]
fn parser_reports_damage_as_an_event() {
    let whole = "<?xml version=\"1.0\"?><rss><channel><title>t &amp; u</title>\
        <item a=\"1\" b='2'><link>l</link><!-- c --><enclosure url=\"u\"/>\
        <description><![CDATA[<b>]]></description></item></channel></rss>";
    let marks = ["<", ">", "&", "\"", "'", "/", "?", "!", "=", ";", "]", "[", " ", "x", ":", "-"];
    let bytes = whole.len();
    let mut seed: u64 = 0x2545_f491_4f6c_dd1d;
    let mut damaged = 0;
    for round in 0..3000 {
        seed = seed.wrapping_mul(6364136223846793005).wrapping_add(1442695040888963407);
        let at = (seed >> 33) as usize % bytes;
        let mark = marks[(seed >> 20) as usize % marks.len()];
        let text = match round % 3 {
            0 => format!("{}{}", &whole[..at], &whole[at + 1..]),
            1 => format!("{}{}{}", &whole[..at], mark, &whole[at..]),
            _ => String::from(&whole[..at]),
        };
        let events = parse(&text);
        assert!(!events.is_empty());
        let malformed = events.iter().filter(|event| **event == Event::Malformed).count();
        assert!(malformed <= 1);
        if malformed == 1 {
            assert_eq!(events.last(), Some(&Event::Malformed));
            damaged += 1;
        }
        assert_eq!(check_well_formed(&events), malformed == 0);
    }
    assert!(damaged > 0);
    assert!(check_well_formed(&parse(whole)));
}

fn doctype_with(open: usize, tail: &str) -> String {
    format!("<!DOCTYPE{}{}", "<".repeat(open), tail)
}

#[test]
fn doctype_nesting_is_bounded() {
    assert!(check_doctype(""));
    assert!(check_doctype("<a/>"));
    assert!(check_doctype("<!DOCTYPE html><a/>"));
    assert!(check_doctype("<!DOCTYPE a [<!ELEMENT a (#PCDATA)>]><a/>"));
    assert!(check_doctype(&doctype_with(254, "")));
    assert!(!check_doctype(&doctype_with(255, "")));
    assert!(!check_doctype(&doctype_with(300, ">")));
    assert!(check_doctype(&doctype_with(254, "><")));
    assert!(!check_doctype(&doctype_with(254, "x<")));
    assert!(check_doctype(&format!("<!DOCTYPE a>{}", "<".repeat(400))));
    assert!(check_doctype(&format!("<!doctype{}", "<".repeat(400))));
    assert!(check_doctype(&format!("<!DOCTYP{}", "<".repeat(400))));
    assert!(!check_doctype(&format!("<a><!-- <!DOCTYPE{} --></a>", "<".repeat(255))));
    assert!(!check_doctype(&format!("<a><![CDATA[<!DOCTYPE{}]]></a>", "<".repeat(255))));
    let nested = format!("<!DOCTYPE{}<!DOCTYPE{}", "<".repeat(100), "<".repeat(154));
    assert!(!check_doctype(&nested));
    let closed = format!("<!DOCTYPE{}{}<!DOCTYPE{}", "<".repeat(100), ">".repeat(101), "<".repeat(254));
    assert!(check_doctype(&closed));
}

#[test]
fn a_doctype_too_deep_is_malformed() {
    let deep = doctype_with(255, "><a/>");
    assert_eq!(parse(&deep), vec![Event::Malformed]);
    let feed = Feed::new(deep);
    assert_eq!(feed.check(), Err(FeedError::StructuralParse));
    assert_eq!(feed.titles(), Vec::<String>::new());
    assert_eq!(feed.entry_link(1), Err(FeedError::StructuralParse));
    assert!(matches!(Feed::new_check_xml(doctype_with(255, "")), Err(FeedError::StructuralParse)));
    assert!(matches!(
        koifeed::Opml::new(doctype_with(255, "><opml/>")),
        Err(FeedError::StructuralParse)
    ));
    let in_comment = format!("<a><!-- <!DOCTYPE{} --></a>", "<".repeat(255));
    assert_eq!(parse(&in_comment), vec![Event::Malformed]);
}

#[test]
fn a_doctype_within_the_bound_is_parsed() {
    let plain = "<!DOCTYPE a [<!ELEMENT a (#PCDATA)>]><a>t</a>";
    let events = parse(plain);
    assert!(check_well_formed(&events));
    assert!(events.contains(&start("a", &[])));
    assert!(events.contains(&text("t")));
    for open in [1usize, 2, 100, 253, 254] {
        let events = parse(&doctype_with(open, ""));
        assert!(!events.is_empty());
        assert_eq!(events.last(), Some(&Event::Malformed));
        let closed = format!("{}{}<a/>", doctype_with(open, ""), ">".repeat(open + 1));
        let events = parse(&closed);
        assert!(events.contains(&start("a", &[])));
    }
}
