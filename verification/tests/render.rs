use chicago_data_bot::canvas::Canvas;
use chicago_data_bot::catalog::Dataset;
use chicago_data_bot::error::BotError;
use chicago_data_bot::link::{compact_label, compact_url, UrlParts};
use chicago_data_bot::render::{
    accessible, has_table_tag, paragraphs, Mark, Tagged, check_card_count, check_splittable, description, finish_card, metadata_alt, post_text, push_char, rows_alt,
    spans_from_text, split_words, Span,
};
use unicode_segmentation::UnicodeSegmentation;

fn adu() -> Dataset {
    Dataset {
        id: "j4h8-ug9m".into(),
        name: "Accessory Dwelling Units (ADU) Permits".into(),
        description: "Permits for ADUs, see chicago.gov/ADU.".into(),
        created_at: "2026-05-13T15:42:14Z".into(),
        category: "Buildings".into(),
        data_owner: "Department of Housing".into(),
        dataset_owner: "Maria Fiorillo".into(),
    }
}

fn visible(spans: &[Span]) -> String {
    spans.iter().map(|s| s.text.as_str()).collect()
}

#[test]
fn links_render_as_labels_without_markdown_and_keep_destinations() {
    let source = "Before <a href=\"https://example.org/full?x=1&amp;y=2\"><strong>Housing &amp; permits</strong></a>, after.\n\nMap: https://data.cityofchicago.org/Buildings/ADU-Map/n8dk-kjjn.";
    let p = description(source).unwrap();
    assert_eq!(p.len(), 2);
    let shown = visible(&p[0]);
    assert_eq!(shown, "Before Housing & permits, after.");
    assert!(!shown.contains("[1]"));
    assert!(p[0]
        .iter()
        .any(|s| s.bold && s.link.as_deref() == Some("https://example.org/full?x=1&y=2")));
    assert_eq!(visible(&p[1]), "Map: data.cityofchicago.org/d/n8dk-kjjn.");
    assert!(accessible(&p[1]).contains("https://data.cityofchicago.org/Buildings/ADU-Map/n8dk-kjjn"));
}

#[test]
fn compact_links_preserve_meaningful_queries_and_other_hosts() {
    assert_eq!(
        compact_url("https://data.cityofchicago.org/Buildings/ADU/xbwc-ntpx/about_data"),
        "data.cityofchicago.org/d/xbwc-ntpx"
    );
    assert_eq!(
        compact_url("https://data.cityofchicago.org/d/xbwc-ntpx?x=1#section"),
        "data.cityofchicago.org/d/xbwc-ntpx?x=1#section"
    );
    assert_eq!(compact_url("https://example.org/some/path"), "example.org/some/path");
}

#[test]
fn compact_url_edge_cases() {
    assert_eq!(compact_url("not a url"), "not a url");
    assert_eq!(compact_url("http://example.org/a"), "example.org/a");
    assert_eq!(
        compact_url("https://data.cityofchicago.org/Buildings/ADU/xbwc-ntpx"),
        "data.cityofchicago.org/d/xbwc-ntpx"
    );
    assert_eq!(
        compact_url("https://data.cityofchicago.org/Buildings/ADU/about_data"),
        "data.cityofchicago.org/Buildings/ADU/about_data"
    );
}

#[test]
fn huge_metadata_stays_within_post_limit() {
    let mut d = adu();
    d.name = "🏙️ Chicago ".repeat(200);
    d.data_owner = "Long owner ".repeat(80);
    let s = post_text(&d).unwrap();
    assert!(s.graphemes(true).count() <= 300);
    assert!(s.ends_with(&d.url()));
    assert!(s.starts_with("New Chicago dataset\n🏙️ Chicago "));
    assert!(s.contains("…\n\nDetails in image.\n"));
    assert!(s.len() <= 3000);
}

#[test]
fn short_metadata_gives_the_full_post() {
    let d = adu();
    let s = post_text(&d).unwrap();
    assert_eq!(
        s,
        "New Chicago dataset\nAccessory Dwelling Units (ADU) Permits\n\nData Owner: Department of Housing\nCategory: Buildings\nDate Created: May 13, 2026\nDataset Owner: Maria Fiorillo\n\nhttps://data.cityofchicago.org/d/j4h8-ug9m"
    );
    assert!(s.contains("Dataset Owner: Maria Fiorillo"));
}

#[test]
fn post_with_bad_timestamp_is_refused() {
    let mut d = adu();
    d.created_at = "yesterday".into();
    assert_eq!(post_text(&d), Err(BotError::InvalidTimestamp));
}

#[test]
fn accessible_text_lists_each_link_once() {
    let spans = vec![
        Span { text: "See ".into(), link: None, bold: false },
        Span { text: "this".into(), link: Some("https://a.example/1".into()), bold: true },
        Span { text: " and ".into(), link: None, bold: false },
        Span { text: "that".into(), link: Some("https://a.example/1".into()), bold: false },
        Span { text: ".".into(), link: Some("https://b.example/".into()), bold: false },
    ];
    assert_eq!(
        accessible(&spans),
        "See this and that.\nLink: https://a.example/1\nLink: https://b.example/"
    );
    assert_eq!(accessible(&[]), "");
}

#[test]
fn characters_join_a_span_of_the_same_style() {
    let plain = Span::text("");
    let linked = Span { text: String::new(), link: Some("https://x.example".into()), bold: false };
    let mut spans = Vec::new();
    push_char(&mut spans, 'a', &plain);
    push_char(&mut spans, 'b', &plain);
    push_char(&mut spans, 'c', &linked);
    push_char(&mut spans, 'd', &linked);
    assert_eq!(spans.len(), 2);
    assert_eq!(spans[0].text, "ab");
    assert_eq!(spans[1].text, "cd");
    assert_eq!(spans[1].link.as_deref(), Some("https://x.example"));
}

#[test]
fn words_keep_punctuation_across_spans() {
    let spans = vec![
        Span::text("Read "),
        Span { text: "this link".into(), link: Some("https://example.org".into()), bold: false },
        Span::text(", then  continue."),
    ];
    let words = split_words(&spans);
    let texts: Vec<String> = words.iter().map(|w| visible(w)).collect();
    assert_eq!(texts, vec!["Read", "this", "link,", "then", "continue."]);
    assert_eq!(words[2].len(), 2);
    assert_eq!(words[2][0].link.as_deref(), Some("https://example.org"));
    assert_eq!(words[2][1].link, None);
}

#[test]
fn bare_links_in_text_become_compact_labels() {
    let spans = spans_from_text("Go to https://example.org/a/b. Now", None, false);
    assert_eq!(visible(&spans), "Go to example.org/a/b. Now");
    assert!(spans
        .iter()
        .any(|s| s.text == "example.org/a/b" && s.link.as_deref() == Some("https://example.org/a/b")));
    let linked = spans_from_text(" https://data.cityofchicago.org/d/xbwc-ntpx ", Some("https://t".into()), true);
    assert_eq!(linked.len(), 1);
    assert_eq!(linked[0].text, "data.cityofchicago.org/d/xbwc-ntpx");
    assert_eq!(linked[0].link.as_deref(), Some("https://t"));
    assert!(linked[0].bold);
}

#[test]
fn plain_text_paragraphs_split_on_blank_lines() {
    let p = description("First line.\r\n\r\nSecond paragraph.").unwrap();
    assert_eq!(p.len(), 2);
    assert_eq!(visible(&p[0]), "First line.");
    assert_eq!(visible(&p[1]), "Second paragraph.");
    assert!(description("").unwrap().is_empty());
}

#[test]
fn card_alt_text_joins_blocks() {
    let canvas = Canvas::new(2);
    let alts = vec!["Title".to_string(), "Data Owner: X".to_string()];
    let card = finish_card(canvas, &alts).unwrap();
    assert_eq!(card.alt, "Title\n\nData Owner: X");
    assert_eq!(card.height, 2);
    assert_eq!(&card.png[1..4], b"PNG");
}

#[test]
fn split_paragraph_rows_keep_their_links_in_alt_text() {
    let rows = vec![
        vec![Span::text("Read"), Span::text(" "), Span {
            text: "this".into(),
            link: Some("https://example.org/source/1".into()),
            bold: false,
        }],
        vec![Span::text("then continue.")],
    ];
    assert_eq!(
        rows_alt(&rows),
        "Read this then continue. \nLink: https://example.org/source/1"
    );
    assert_eq!(rows_alt(&vec![]), "");
}

#[test]
fn metadata_panel_alt_text_lists_the_fields() {
    assert_eq!(
        metadata_alt(&adu()).unwrap(),
        "Data Owner: Department of Housing\nCategory: Buildings\nDate Created: May 13, 2026\nDataset Owner: Maria Fiorillo"
    );
    let mut d = adu();
    d.created_at = "13 May".into();
    assert_eq!(metadata_alt(&d), Err(BotError::InvalidTimestamp));
}

#[test]
fn a_short_title_is_kept_whole_in_a_shortened_post() {
    let mut d = adu();
    d.name = "Short name".into();
    d.data_owner = "Long owner ".repeat(80);
    let s = post_text(&d).unwrap();
    assert_eq!(
        s,
        "New Chicago dataset\nShort name…\n\nDetails in image.\nhttps://data.cityofchicago.org/d/j4h8-ug9m"
    );
}

#[test]
fn descriptions_fill_at_most_four_cards_and_metadata_one() {
    assert_eq!(check_card_count(4), Ok(()));
    assert_eq!(check_card_count(5), Err(BotError::TooManyCards));
    assert_eq!(check_splittable(false), Ok(()));
    assert_eq!(check_splittable(true), Err(BotError::MetadataTooLarge));
}

fn tagged(text: &str, marks: Vec<Mark>) -> Tagged {
    Tagged { text: text.into(), marks }
}

#[test]
fn rendered_lines_become_paragraphs() {
    let lines = vec![
        vec![tagged("Before ", vec![]), tagged("Housing", vec![Mark::Link("https://e.org/".into()), Mark::Strong])],
        vec![tagged("next line", vec![Mark::Emphasis])],
        vec![tagged("   ", vec![])],
        vec![],
        vec![tagged("Second.", vec![Mark::Other])],
    ];
    let p = paragraphs(&lines);
    assert_eq!(p.len(), 2);
    assert_eq!(visible(&p[0]), "Before Housing next line");
    assert!(p[0].iter().any(|s| s.text == "Housing" && s.bold && s.link.as_deref() == Some("https://e.org/")));
    assert!(p[0].iter().any(|s| s.text.contains("next") && s.bold && s.link.is_none()));
    assert_eq!(visible(&p[1]), "Second.");
    assert!(!p[1][0].bold);
    assert!(paragraphs(&vec![]).is_empty());
}

#[test]
fn descriptions_with_tables_are_refused() {
    let chars = |s: &str| s.chars().collect::<Vec<char>>();
    assert!(has_table_tag(&chars("a <TaBlE><tr><td>x</td></tr></table>")));
    assert!(!has_table_tag(&chars("a <tab> table <b>x</b>")));
    assert!(!has_table_tag(&chars("<tabl")));
    assert_eq!(description("Rows: <table><tr><td>1</td></tr></table>").err(), Some(BotError::TableInDescription));
    assert_eq!(visible(&description("stray <td>cell</td> text").unwrap()[0]), "stray cell text");
}

fn parts(host: &str, query: Option<&str>, segments: &[&str]) -> Option<UrlParts> {
    Some(UrlParts {
        scheme: "https".into(),
        username: String::new(),
        password: None,
        host: Some(host.into()),
        query: query.map(String::from),
        fragment: None,
        segments: Some(segments.iter().map(|s| s.to_string()).collect()),
    })
}

#[test]
fn labels_follow_the_parsed_url() {
    let v = "https://data.cityofchicago.org/A/b/xbwc-ntpx/about_data";
    assert_eq!(
        compact_label(v, &parts("data.cityofchicago.org", None, &["A", "b", "xbwc-ntpx", "about_data"])),
        "data.cityofchicago.org/d/xbwc-ntpx"
    );
    assert_eq!(
        compact_label(v, &parts("data.cityofchicago.org", Some("x=1"), &["A", "xbwc-ntpx"])),
        "data.cityofchicago.org/A/b/xbwc-ntpx/about_data"
    );
    assert_eq!(compact_label(v, &parts("example.org", None, &["xbwc-ntpx"])), "data.cityofchicago.org/A/b/xbwc-ntpx/about_data");
    assert_eq!(compact_label(v, &None), v);
}
