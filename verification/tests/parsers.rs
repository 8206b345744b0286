use rust_scraping::document::Document;
use rust_scraping::parsers::{
    first_page_views_text, views_text_from_panels, parse_author_id, parse_count, parse_first_story_page, parse_rating,
    parse_story_listing, parse_story_text, FirstPageInfo,
};

const LISTING: &str = r#"<html><body>
<div class="b-story-list">
  <a class="r-34i" href="https://www.literotica.com/s/a-summer-story">A Summer Story</a>
  <a class="r-34i" href="https://www.literotica.com/stories/showstory.php?id=1234">Old</a>
  <a class="r-34i" href="https://www.literotica.com/s/winter-tale-ch-02">Winter Tale</a>
  <a class="other" href="https://www.literotica.com/s/not-a-story-link">x</a>
</div>
</body></html>"#;

#[test]
fn listing_reads_story_names_in_order() {
    let doc = Document::parse(LISTING);
    let names = parse_story_listing(&doc).unwrap();
    assert_eq!(names, vec!["a-summer-story".to_string(), "winter-tale-ch-02".to_string()]);
}

#[test]
fn listing_without_story_links_is_empty() {
    let doc = Document::parse("<html><body><p>nothing here</p></body></html>");
    assert_eq!(parse_story_listing(&doc), Some(vec![]));
}

#[test]
fn listing_element_without_link_is_refused() {
    let doc = Document::parse(r#"<a class="r-34i">no link</a>"#);
    assert_eq!(parse_story_listing(&doc), None);
}

#[test]
fn listing_link_too_short_is_refused() {
    let doc = Document::parse(r#"<a class="r-34i" href="https://short/s/x">short</a>"#);
    assert_eq!(parse_story_listing(&doc), None);
}

#[test]
fn listing_link_of_exactly_the_prefix_gives_empty_name() {
    let doc = Document::parse(r#"<a class="r-34i" href="https://www.literotica.com/s/">x</a>"#);
    assert_eq!(parse_story_listing(&doc), Some(vec![String::new()]));
}

#[test]
fn listing_cut_inside_a_character_is_refused() {
    // 28 ASCII bytes, then a two-byte character: byte 29 is inside it.
    let doc = Document::parse("<a class=\"r-34i\" href=\"https://www.literotica.com/s\u{e9}x\">x</a>");
    assert_eq!(parse_story_listing(&doc), None);
}

const FIRST_PAGE: &str = r#"<html><body>
<h1 class="headline">The <em>Long</em> Road</h1>
<a class="y_eU" href="https://www.literotica.com/stories/memberpage.php?uid=123456&page=submissions">Jane <b>Doe</b></a>
<div role="tabpanel">
  <div class="aK_B">A tale of a long road.</div>
  <div title="Rating"><span>4.59</span></div>
  <div title="Views"><span>67.4k</span></div>
  <div title="Favorites"><span>321</span></div>
</div>
<div role="tabpanel">
  <a class="av_as av_r">road</a>
  <a class="av_as av_r">travel</a>
  <a class="av_as">not a tag</a>
</div>
<div class="panel article"><p>First paragraph.</p><p>Second one.</p></div>
<a title="Next Page" href="the-long-road?page=2">Next</a>
</body></html>"#;

#[test]
fn first_page_is_read() {
    let doc = Document::parse(FIRST_PAGE);
    let info = parse_first_story_page(&doc, 67400).unwrap();
    assert_eq!(info.title, "The Long Road");
    assert_eq!(info.author_name, "Jane Doe");
    assert_eq!(info.author_id, 123456);
    assert_eq!(info.description, "A tale of a long road.");
    assert_eq!(info.tags, vec!["road".to_string(), "travel".to_string()]);
    assert_eq!(info.favorites, 321);
    assert_eq!(info.views, 67400);
    assert_eq!(info.rating, 459);
    assert_eq!(info.next_url, "the-long-road?page=2");
}

#[test]
fn first_page_views_text_is_found() {
    let doc = Document::parse(FIRST_PAGE);
    assert_eq!(first_page_views_text(&doc), Some("67.4k".to_string()));
}

#[test]
fn first_page_without_title_rating_or_next_page() {
    let page = r#"<a class="y_eU" href="x?uid=7">A</a>
        <div role="tabpanel"><div class="aK_B">d</div></div>
        <div role="tabpanel"></div>"#;
    let doc = Document::parse(page);
    let info = parse_first_story_page(&doc, 0).unwrap();
    assert_eq!(info.title, "");
    assert_eq!(info.author_id, 7);
    assert_eq!(info.rating, 0);
    assert_eq!(info.favorites, 0);
    assert!(info.tags.is_empty());
    assert_eq!(info.next_url, "");
    assert_eq!(first_page_views_text(&doc), None);
}

#[test]
fn first_page_without_author_is_refused() {
    let page = r#"<div role="tabpanel"><div class="aK_B">d</div></div><div role="tabpanel"></div>"#;
    assert!(parse_first_story_page(&Document::parse(page), 0).is_none());
}

#[test]
fn first_page_with_one_tab_panel_is_refused() {
    let page = r#"<a class="y_eU" href="x?uid=7">A</a><div role="tabpanel"><div class="aK_B">d</div></div>"#;
    assert!(parse_first_story_page(&Document::parse(page), 0).is_none());
}

#[test]
fn first_page_author_link_without_id_is_refused() {
    let page = r#"<a class="y_eU" href="x?uid=seven">A</a>
        <div role="tabpanel"><div class="aK_B">d</div></div><div role="tabpanel"></div>"#;
    assert!(parse_first_story_page(&Document::parse(page), 0).is_none());
}

#[test]
fn first_page_next_button_without_link_is_refused() {
    let page = r#"<a class="y_eU" href="x?uid=7">A</a>
        <div role="tabpanel"><div class="aK_B">d</div></div><div role="tabpanel"></div>
        <a title="Next Page">Next</a>"#;
    assert!(parse_first_story_page(&Document::parse(page), 0).is_none());
}

#[test]
fn rating_is_in_hundredths() {
    assert_eq!(parse_rating("4.59"), 459);
    assert_eq!(parse_rating("3.45"), 345);
    assert_eq!(parse_rating("4.5"), 450);
    assert_eq!(parse_rating("4"), 400);
    assert_eq!(parse_rating("5"), 500);
    assert_eq!(parse_rating("4."), 400);
    assert_eq!(parse_rating("4.599"), 459);
    assert_eq!(parse_rating("4.5.9"), 459);
    assert_eq!(parse_rating(".5"), 50);
    assert_eq!(parse_rating("."), 0);
    assert_eq!(parse_rating("4.x"), 0);
    assert_eq!(parse_rating(""), 0);
    assert_eq!(parse_rating("n/a"), 0);
}

#[test]
fn counts_are_read_or_zero() {
    assert_eq!(parse_count("321"), 321);
    assert_eq!(parse_count("+12"), 12);
    assert_eq!(parse_count("1.2k"), 0);
    assert_eq!(parse_count(""), 0);
}

#[test]
fn author_id_is_the_second_piece() {
    assert_eq!(parse_author_id("https://www.literotica.com/stories/memberpage.php?uid=12345&page=submissions"), Some(12345));
    assert_eq!(parse_author_id("memberpage.php?uid&12"), Some(12));
    assert_eq!(parse_author_id("memberpage.php"), None);
    assert_eq!(parse_author_id("a=b"), None);
}

#[test]
fn story_text_is_a_placeholder() {
    assert_eq!(parse_story_text(&Document::parse(FIRST_PAGE)), "hello");
}

#[test]
fn default_first_page_info_is_empty() {
    let info = FirstPageInfo::default();
    assert_eq!(info.author_name, "");
    assert_eq!(info.author_id, 0);
    assert!(info.tags.is_empty());
    assert_eq!(info.next_url, "");
}

#[test]
fn views_text_is_the_first_of_the_first_panel() {
    let panels = vec![vec!["67.4k".to_string(), "1".to_string()], vec!["2".to_string()]];
    assert_eq!(views_text_from_panels(&panels), Some("67.4k".to_string()));
    assert_eq!(views_text_from_panels(&vec![vec![], vec!["2".to_string()]]), None);
    assert_eq!(views_text_from_panels(&vec![]), None);
}
