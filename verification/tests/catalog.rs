use rust_scraping::catalog::{category_link_parts, category_pages_from_links, category_page_url, category_pages, parse_category_page, CatInfo};
use rust_scraping::document::Document;

#[test]
fn category_link_names_category_and_last_page() {
    assert_eq!(
        category_link_parts("https://www.literotica.com/c/erotic-novels/95-page"),
        Some(("erotic-novels".to_string(), 95))
    );
}

#[test]
fn category_link_too_short_or_unreadable() {
    assert_eq!(category_link_parts("https://www.literotica.com/c/erotic-novels"), None);
    assert_eq!(category_link_parts("https://www.literotica.com/c/erotic-novels/last-page"), None);
    assert_eq!(category_link_parts("https://www.literotica.com/c/x/-3-page"), None);
}

#[test]
fn category_pages_count_from_one() {
    let pages = category_pages(&"bdsm-stories".to_string(), 3);
    let got: Vec<(String, i32)> = pages.into_iter().map(|c| (c.category, c.page)).collect();
    assert_eq!(
        got,
        vec![("bdsm-stories".to_string(), 1), ("bdsm-stories".to_string(), 2), ("bdsm-stories".to_string(), 3)]
    );
    assert!(category_pages(&"x".to_string(), 0).is_empty());
    assert!(category_pages(&"x".to_string(), -4).is_empty());
}

#[test]
fn category_page_is_read_from_its_last_letter_link() {
    let page = r#"<div class="b-alpha-links">
        <a href="https://www.literotica.com/c/erotic-novels/1-page">A</a>
        <a href="https://www.literotica.com/c/erotic-novels/2-page">B</a>
        <a href="https://www.literotica.com/c/erotic-novels/4-page">Z</a>
    </div>"#;
    let pages = parse_category_page(&Document::parse(page)).unwrap();
    assert_eq!(pages.len(), 4);
    assert_eq!(pages[0].category, "erotic-novels");
    assert_eq!(pages[3].page, 4);
}

#[test]
fn category_page_without_letter_links_is_refused() {
    assert!(parse_category_page(&Document::parse("<p>none</p>")).is_none());
    let empty_block = r#"<div class="b-alpha-links"></div>"#;
    assert!(parse_category_page(&Document::parse(empty_block)).is_none());
    let no_href = r#"<div class="b-alpha-links"><a>Z</a></div>"#;
    assert!(parse_category_page(&Document::parse(no_href)).is_none());
}

#[test]
fn category_page_url_is_read_back() {
    let cat = CatInfo { category: "adult-humor".to_string(), page: 17 };
    let url = category_page_url(&cat);
    assert_eq!(url, "https://www.literotica.com/c/adult-humor/17-page");
    assert_eq!(category_link_parts(&url), Some(("adult-humor".to_string(), 17)));
    let neg = CatInfo { category: "c".to_string(), page: -2 };
    assert_eq!(category_page_url(&neg), "https://www.literotica.com/c/c/-2-page");
}

#[test]
fn category_pages_come_from_the_first_block_last_link() {
    let blocks = vec![
        vec![Some("https://www.literotica.com/c/x/1-page".to_string()), Some("https://www.literotica.com/c/x/2-page".to_string())],
        vec![Some("https://www.literotica.com/c/y/9-page".to_string())],
    ];
    let pages = category_pages_from_links(&blocks).unwrap();
    assert_eq!(pages.len(), 2);
    assert_eq!(pages[1].category, "x");
    assert!(category_pages_from_links(&vec![vec![Some("x".to_string()), None]]).is_none());
    let at_max = vec![vec![Some(format!("https://www.literotica.com/c/x/{}-page", i32::MAX))]];
    assert!(category_pages_from_links(&at_max).is_none());
}
