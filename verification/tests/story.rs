use rust_scraping::document::Document;
use rust_scraping::parsers::{parse_first_story_page, parse_story_listing, FirstPageInfo};
use rust_scraping::story::{
    checkpoint_due, next_page_from_links, next_page_link, page_next, page_text, story_info, story_page_url, ungrabbed_stories,
    StoryInfo, StoryScrape,
};

fn record(name: &str) -> StoryInfo {
    StoryInfo {
        member_id: 1,
        member_name: "m".to_string(),
        title: "t".to_string(),
        description: "d".to_string(),
        storyName: name.to_string(),
        tags: vec![],
        favorites: 0,
        views: 0,
        rating: 0,
        timeFetched: 0,
    }
}

#[test]
fn story_page_url_prefixes_the_name() {
    assert_eq!(story_page_url("a-summer-story"), "https://www.literotica.com/s/a-summer-story");
}

#[test]
fn listing_names_make_the_links_again() {
    let link = "https://www.literotica.com/s/caf\u{e9}-nights";
    let doc = Document::parse(&format!(r#"<a class="r-34i" href="{}">x</a>"#, link));
    let names = parse_story_listing(&doc).unwrap();
    assert_eq!(story_page_url(&names[0]), link);
}

#[test]
fn next_page_link_only_when_named() {
    assert_eq!(next_page_link(""), None);
    assert_eq!(next_page_link("x?page=2"), Some("https://www.literotica.com/s/x?page=2".to_string()));
}

#[test]
fn page_text_joins_paragraphs_with_line_breaks() {
    let doc = Document::parse(r#"<div class="panel article"><p>One.</p><p>Two <i>and</i> more.</p></div><p>outside</p>"#);
    assert_eq!(page_text(&doc), Some("One.\nTwo and more.".to_string()));
    assert_eq!(page_text(&Document::parse("<p>x</p>")), Some(String::new()));
}

#[test]
fn page_next_reads_the_button() {
    let with = Document::parse(r#"<a title="Next Page" href="s?page=3">Next</a>"#);
    assert_eq!(page_next(&with), Some(Some("https://www.literotica.com/s/s?page=3".to_string())));
    assert_eq!(page_next(&Document::parse("<p>end</p>")), Some(None));
    assert_eq!(page_next(&Document::parse(r#"<a title="Next Page">Next</a>"#)), None);
}

#[test]
fn story_is_gathered_page_by_page() {
    let first = Document::parse(
        r#"<a class="y_eU" href="x?uid=9">A</a>
        <div role="tabpanel"><div class="aK_B">d</div></div><div role="tabpanel"></div>
        <div class="panel article"><p>one</p><p>two</p></div>
        <a title="Next Page" href="tale?page=2">Next</a>"#,
    );
    let info = parse_first_story_page(&first, 0).unwrap();
    let scrape = StoryScrape::begin(&first, &info).unwrap();
    assert_eq!(scrape.text, "one\ntwo");
    assert_eq!(scrape.next, Some("https://www.literotica.com/s/tale?page=2".to_string()));
    assert!(!scrape.is_done());
    let second = Document::parse(r#"<div class="panel article"><p>three</p></div>"#);
    let scrape = scrape.advance(&second).unwrap();
    assert_eq!(scrape.text, "one\ntwothree");
    assert!(scrape.is_done());
}

#[test]
fn story_page_with_broken_button_stops_the_gathering() {
    let info = FirstPageInfo::default();
    let first = Document::parse("<p>x</p>");
    let scrape = StoryScrape::begin(&first, &info).unwrap();
    assert!(scrape.is_done());
    let broken = Document::parse(r#"<a title="Next Page">Next</a>"#);
    assert!(scrape.advance(&broken).is_none());
}

#[test]
fn recorded_stories_are_not_fetched_again() {
    let list = vec!["a".to_string(), "b".to_string(), "c".to_string(), "b".to_string(), "d".to_string()];
    let recorded = vec![record("b"), record("d"), record("z")];
    assert_eq!(ungrabbed_stories(&list, &recorded), vec!["a".to_string(), "c".to_string()]);
    assert_eq!(ungrabbed_stories(&list, &vec![]), list);
}

#[test]
fn checkpoints_every_five_thousand() {
    assert!(checkpoint_due(5000));
    assert!(checkpoint_due(10000));
    assert!(!checkpoint_due(4999));
    assert!(checkpoint_due(0));
}

#[test]
fn story_record_takes_the_first_page_facts() {
    let mut info = FirstPageInfo::default();
    info.author_id = 42;
    info.author_name = "Ann".to_string();
    info.title = "T".to_string();
    info.tags = vec!["x".to_string()];
    info.rating = 345;
    info.views = 9;
    info.favorites = 3;
    let story = story_info(info, "t-story".to_string(), 1700000000);
    assert_eq!(story.member_id, 42);
    assert_eq!(story.member_name, "Ann");
    assert_eq!(story.storyName, "t-story");
    assert_eq!(story.tags, vec!["x".to_string()]);
    assert_eq!(story.rating, 345);
    assert_eq!(story.views, 9);
    assert_eq!(story.favorites, 3);
    assert_eq!(story.timeFetched, 1700000000);
}

#[test]
fn next_page_from_the_first_button_link() {
    assert_eq!(next_page_from_links(&vec![]), Some(None));
    assert_eq!(
        next_page_from_links(&vec![Some("t?page=2".to_string()), None]),
        Some(Some("https://www.literotica.com/s/t?page=2".to_string()))
    );
    assert_eq!(next_page_from_links(&vec![None, Some("t?page=2".to_string())]), None);
}
