use koifeed::outline::split_tags;
use koifeed::{FeedError, Opml};

const OPML: &str = r#"
        <?xml version="1.0" encoding="utf-8"?> <opml version="2.0">
            <head />
            <body>
                <outline
                    category="software"
                    text="archlinux"
                    type="rss"
                    htmlUrl="https://archlinux.org"
                    xmlUrl="https://archlinux.org/feeds/news/"
                />
                <outline
                    category="audio,software"
                    text="buildingwithrust"
                    type="rss"
                    htmlUrl="https://seanchen1991.github.io"
                    xmlUrl="https://anchor.fm/s/4928bbdc/podcast/rss"
                />
                <outline
                    category="video,leisure,education"
                    text="kurzgesagt"
                    type="rss"
                    htmlUrl="https://www.youtube.com/channel/UCsXVk37bltHxD1rDPwtNM8Q"
                    xmlUrl="https://www.youtube.com/feeds/videos.xml?channel_id=UCsXVk37bltHxD1rDPwtNM8Q"
                />
                <outline
                    category="software"
                    text="neovim"
                    type="rss"
                    htmlUrl="https://neovim.io"
                    xmlUrl="https://neovim.io/news.xml"
                />
                <outline
                    category="news"
                    text="npr"
                    type="rss"
                    htmlUrl="https://www.npr.org/"
                    xmlUrl="https://feeds.npr.org/1001/rss.xml"
                />
                <outline
                    text="nprupfirst"
                    type="rss"
                    htmlUrl="https://www.npr.org/podcasts/510318/up-first"
                    xmlUrl="https://feeds.npr.org/510318/podcast.xml"
                />
                <outline
                    category="news"
                    text="propublica"
                    type="rss"
                    htmlUrl="https://www.propublica.org/"
                    xmlUrl="http://feeds.propublica.org/propublica/main"
                />
                <outline
                    category="news,software"
                    text="slashdot"
                    type="rss"
                    htmlUrl="https://slashdot.org/"
                    xmlUrl="http://rss.slashdot.org/Slashdot/slashdotMain"
                />
                <outline
                    category="blog"
                    text="tykozic.net"
                    type="rss"
                    htmlUrl="http://tykozic.net/"
                    xmlUrl="http://tykozic.net/atom.xml"
                />
            </body>
        </opml>
    "#;

const SMALL: &str = r#"<opml version="2.0"><head/><body>
    <outline text="plain" xmlUrl="http://plain.example/feed"/>
    <outline text="short" title="The Long Title" category="" htmlUrl="http://long.example/" xmlUrl="http://long.example/feed"/>
    <outline title="Only Title" category="a,,b," xmlUrl="http://only.example/feed"/>
    <outline type="rss"/>
</body></opml>"#;

fn strings(values: &[&str]) -> Vec<String> {
    values.iter().map(|value| String::from(*value)).collect()
}

#[test]
fn opml_attribute_values() {
    let opml_struct = Opml::new(OPML.to_string()).unwrap();
    let actual: Vec<String> = opml_struct.attribute_values("text");
    let expected = vec![
        String::from("archlinux"),
        String::from("buildingwithrust"),
        String::from("kurzgesagt"),
        String::from("neovim"),
        String::from("npr"),
        String::from("nprupfirst"),
        String::from("propublica"),
        String::from("slashdot"),
        String::from("tykozic.net"),
    ];
    assert_eq!(actual, expected);
}

#[test]
fn nine_outlines_give_nine_titles() {
    let opml = Opml::new(OPML.to_string()).unwrap();
    let titles = opml.titles();
    assert_eq!(titles.len(), 9);
    assert_eq!(titles, opml.attribute_values("text"));
    assert_eq!(titles[0], "archlinux");
    assert_eq!(titles[8], "tykozic.net");
}

#[test]
fn a_query_asked_twice_answers_alike() {
    let opml = Opml::new(OPML.to_string()).unwrap();
    assert_eq!(opml.titles(), opml.titles());
    assert_eq!(opml.links_xml(), opml.links_xml());
    assert_eq!(opml.links_html(), opml.links_html());
    assert_eq!(opml.tags(), opml.tags());
    assert_eq!(opml.find("npr"), opml.find("npr"));
    assert_eq!(opml.text(), OPML);
}

#[test]
fn links_follow_document_order() {
    let opml = Opml::new(OPML.to_string()).unwrap();
    let xml = opml.links_xml();
    assert_eq!(xml.len(), 9);
    assert_eq!(xml[0], "https://archlinux.org/feeds/news/");
    assert_eq!(xml[5], "https://feeds.npr.org/510318/podcast.xml");
    let html = opml.links_html();
    assert_eq!(html.len(), 9);
    assert_eq!(html[3], Some(String::from("https://neovim.io")));
}

#[test]
fn optional_attribute_leaves_none() {
    let opml = Opml::new(SMALL.to_string()).unwrap();
    assert_eq!(
        opml.links_html(),
        vec![None, Some(String::from("http://long.example/")), None, None]
    );
    assert_eq!(opml.attribute_values("htmlUrl"), strings(&["http://long.example/"]));
    assert_eq!(opml.attribute_values("text"), strings(&["plain", "short"]));
    assert_eq!(opml.attribute_values("missing"), Vec::<String>::new());
    assert_eq!(opml.attribute_values_optional("missing"), vec![None, None, None, None]);
}

#[test]
fn tags_split_at_commas() {
    let opml = Opml::new(OPML.to_string()).unwrap();
    let tags = opml.tags();
    assert_eq!(tags.len(), 9);
    assert_eq!(tags[0], strings(&["software"]));
    assert_eq!(tags[1], strings(&["audio", "software"]));
    assert_eq!(tags[2], strings(&["video", "leisure", "education"]));
    assert_eq!(tags[5], Vec::<String>::new());
}

#[test]
fn empty_pieces_are_kept() {
    assert_eq!(split_tags(""), strings(&[""]));
    assert_eq!(split_tags(","), strings(&["", ""]));
    assert_eq!(split_tags("a,,b,"), strings(&["a", "", "b", ""]));
    assert_eq!(split_tags("é,ü"), strings(&["é", "ü"]));
    let opml = Opml::new(SMALL.to_string()).unwrap();
    assert_eq!(
        opml.tags(),
        vec![Vec::<String>::new(), strings(&[""]), strings(&["a", "", "b", ""]), Vec::<String>::new()]
    );
}

#[test]
fn find_gives_the_first_match_in_full() {
    let opml = Opml::new(OPML.to_string()).unwrap();
    assert_eq!(opml.find("npr"), Ok(String::from("npr")));
    assert_eq!(opml.find("nprup"), Ok(String::from("nprupfirst")));
    assert_eq!(opml.find("o"), Ok(String::from("neovim")));
    assert_eq!(opml.find(""), Ok(String::from("archlinux")));
    assert_eq!(opml.find("tykozic.net"), Ok(String::from("tykozic.net")));
}

#[test]
fn find_without_match_is_key_no_match() {
    let opml = Opml::new(OPML.to_string()).unwrap();
    assert_eq!(opml.find("nothing-like-this"), Err(FeedError::KeyNoMatch));
    assert_eq!(opml.find("NPR"), Err(FeedError::KeyNoMatch));
    assert_eq!(opml.find("archlinuxx"), Err(FeedError::KeyNoMatch));
    let empty = Opml::new(String::from("<opml><body/></opml>")).unwrap();
    assert_eq!(empty.find(""), Err(FeedError::KeyNoMatch));
}

#[test]
fn text_is_the_search_key() {
    let opml = Opml::new(SMALL.to_string()).unwrap();
    assert_eq!(opml.find("short"), Ok(String::from("short")));
    assert_eq!(opml.find("hor"), Ok(String::from("short")));
    assert_eq!(opml.find("Long"), Err(FeedError::KeyNoMatch));
    assert_eq!(opml.find("Only"), Err(FeedError::KeyNoMatch));
    assert_eq!(opml.find("plain"), Ok(String::from("plain")));
    let one = Opml::new(String::from("<opml><body><outline title=\"T\" text=\"X\"/></body></opml>"))
        .unwrap();
    assert_eq!(one.titles(), strings(&["X"]));
    assert_eq!(one.find("X"), Ok(String::from("X")));
    assert_eq!(one.find("T"), Err(FeedError::KeyNoMatch));
}

#[test]
fn titles_are_text_attributes() {
    let opml = Opml::new(SMALL.to_string()).unwrap();
    assert_eq!(opml.titles(), strings(&["plain", "short"]));
    assert_eq!(opml.titles(), opml.attribute_values("text"));
    for title in opml.titles() {
        assert_eq!(opml.find(&title), Ok(title));
    }
}

#[test]
fn homepage_by_exact_name() {
    let opml = Opml::new(OPML.to_string()).unwrap();
    assert_eq!(opml.homepage("npr"), Ok(String::from("https://www.npr.org/")));
    assert_eq!(
        opml.homepage("nprupfirst"),
        Ok(String::from("https://www.npr.org/podcasts/510318/up-first"))
    );
    assert_eq!(opml.homepage("np"), Err(FeedError::KeyNoMatch));
    let small = Opml::new(SMALL.to_string()).unwrap();
    assert_eq!(small.homepage("plain"), Err(FeedError::AttributeAbsent));
    assert_eq!(small.homepage("The Long Title"), Ok(String::from("http://long.example/")));
    assert_eq!(small.homepage("short"), Ok(String::from("http://long.example/")));
    assert_eq!(small.homepage("Only Title"), Err(FeedError::AttributeAbsent));
    assert_eq!(small.homepage("Long"), Err(FeedError::KeyNoMatch));
    let two = Opml::new(String::from(
        "<opml><body><outline title=\"A\" text=\"B\" htmlUrl=\"first\"/>\
         <outline text=\"A\" htmlUrl=\"second\"/></body></opml>",
    ))
    .unwrap();
    assert_eq!(two.homepage("A"), Ok(String::from("first")));
    assert_eq!(two.homepage("B"), Ok(String::from("first")));
}

#[test]
fn outline_by_ordinal() {
    let opml = Opml::new(OPML.to_string()).unwrap();
    assert_eq!(opml.outline_attribute(1, "text"), Ok(String::from("archlinux")));
    assert_eq!(opml.outline_attribute(9, "xmlUrl"), Ok(String::from("http://tykozic.net/atom.xml")));
    assert_eq!(opml.outline_attribute(6, "category"), Err(FeedError::AttributeAbsent));
    assert_eq!(opml.outline_attribute(10, "text"), Err(FeedError::OrdinalNotReached));
}

#[test]
fn listing_ends_with_ordinal_not_reached() {
    let opml = Opml::new(OPML.to_string()).unwrap();
    let mut listed = Vec::new();
    let mut k = 1;
    loop {
        match opml.outline_attribute(k, "text") {
            Ok(text) => listed.push(text),
            Err(e) => {
                assert_eq!(e, FeedError::OrdinalNotReached);
                break;
            }
        }
        k += 1;
    }
    assert_eq!(listed, opml.titles());
}

#[test]
fn malformed_list_is_refused() {
    assert!(matches!(
        Opml::new(String::from("<opml><body><outline text=\"a\"></body></opml>")),
        Err(FeedError::StructuralParse)
    ));
    assert!(matches!(Opml::new(String::new()), Err(FeedError::StructuralParse)));
    assert!(matches!(Opml::new(String::from("<opml>")), Err(FeedError::StructuralParse)));
    assert!(Opml::new(String::from("<opml/>")).is_ok());
}
