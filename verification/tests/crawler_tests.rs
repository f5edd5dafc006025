use mangapill_scraper::crawler::fetch_chapter_list;
use mangapill_scraper::crawler::manga_display_name;
use mangapill_scraper::crawler::normalize_title;
use mangapill_scraper::crawler::resolve_title_slug;
use mangapill_scraper::errors::ScraperErrors;

#[test]
fn normalize_pads_whole_numbers() {
    assert_eq!(normalize_title("Chapter 9"), "chapter 0009");
    assert_eq!(normalize_title("Chapter 10"), "chapter 0010");
    assert_eq!(normalize_title("  Chapter 7  "), "chapter 0007");
}

#[test]
fn normalize_orders_lexically_like_numerically() {
    let nine = normalize_title("Chapter 9");
    let ten = normalize_title("Chapter 10");
    assert!(nine < ten);
    assert!(nine.ends_with("009"));
    assert!(ten.ends_with("010"));
}

#[test]
fn normalize_keeps_fractional_part() {
    assert_eq!(normalize_title("Chapter 10.5"), "chapter 0010.5");
    assert_eq!(normalize_title("Chapter 2.25"), "chapter 0002.25");
}

#[test]
fn normalize_substitutes_path_separators() {
    assert_eq!(normalize_title("One/Two 3"), "one-two 0003");
}

#[test]
fn normalize_handles_missing_title() {
    assert_eq!(normalize_title(""), "0000");
    assert_eq!(normalize_title("   "), "0000");
}

#[test]
fn normalize_without_whitespace_splits_after_first_char() {
    assert_eq!(normalize_title("5"), "50000");
}

#[test]
fn chapter_list_is_reversed_and_normalized() {
    let html = "<html><body><div id=\"chapters\">\
        <a href=\"/chapters/3\" title=\"Chapter 3\">c3</a>\
        <a href=\"/chapters/2\" title=\"Chapter 2\">c2</a>\
        <a href=\"/chapters/1\" title=\"Chapter 1\">c1</a>\
        </div></body></html>";
    let chapters = fetch_chapter_list(html);
    assert_eq!(chapters.len(), 3);
    assert_eq!(chapters[0].url, "/chapters/1");
    assert_eq!(chapters[0].title, "chapter 0001");
    assert_eq!(chapters[1].url, "/chapters/2");
    assert_eq!(chapters[1].title, "chapter 0002");
    assert_eq!(chapters[2].url, "/chapters/3");
    assert_eq!(chapters[2].title, "chapter 0003");
}

#[test]
fn chapter_list_orders_strictly_increasing() {
    let html = "<html><body><div id=\"chapters\">\
        <a href=\"/chapters/10\" title=\"Chapter 10\">x</a>\
        <a href=\"/chapters/9\" title=\"Chapter 9\">x</a>\
        <a href=\"/chapters/1\" title=\"Chapter 1\">x</a>\
        </div></body></html>";
    let chapters = fetch_chapter_list(html);
    let titles: Vec<&str> = chapters.iter().map(|c| c.title.as_str()).collect();
    let mut sorted = titles.clone();
    sorted.sort();
    assert_eq!(titles, sorted);
    assert_eq!(titles, vec!["chapter 0001", "chapter 0009", "chapter 0010"]);
}

#[test]
fn anchor_without_title_still_yields_a_chapter() {
    let html = "<html><body><div id=\"chapters\">\
        <a href=\"/chapters/2\">no title</a>\
        </div></body></html>";
    let chapters = fetch_chapter_list(html);
    assert_eq!(chapters.len(), 1);
    assert_eq!(chapters[0].url, "/chapters/2");
    assert_eq!(chapters[0].title, "0000");
}

#[test]
fn chapter_list_of_page_without_container_is_empty() {
    let html = "<html><body><p>nothing here</p></body></html>";
    let chapters = fetch_chapter_list(html);
    assert!(chapters.is_empty());
}

#[test]
fn display_name_comes_from_first_heading() {
    let html = "<html><body><h1>Example Manga</h1><h1>Other</h1></body></html>";
    assert_eq!(manga_display_name(html, "fallback"), "Example Manga");
}

#[test]
fn display_name_falls_back_without_heading() {
    let html = "<html><body><p>no heading</p></body></html>";
    assert_eq!(manga_display_name(html, "example-manga"), "example-manga");
}

#[test]
fn numeric_slug_is_rejected() {
    match resolve_title_slug(17, Some("12345")) {
        Err(ScraperErrors::InvalidBookId(id)) => assert_eq!(id, 17),
        other => panic!("expected InvalidBookId, got {:?}", other),
    }
}

#[test]
fn missing_segment_is_rejected() {
    match resolve_title_slug(3, None) {
        Err(ScraperErrors::InvalidBookId(id)) => assert_eq!(id, 3),
        other => panic!("expected InvalidBookId, got {:?}", other),
    }
}

#[test]
fn proper_slug_is_accepted() {
    let slug = resolve_title_slug(42, Some("example-manga")).unwrap();
    assert_eq!(slug, "example-manga");
}

#[test]
fn slug_with_digits_and_letters_is_accepted() {
    let slug = resolve_title_slug(42, Some("86-eighty-six")).unwrap();
    assert_eq!(slug, "86-eighty-six");
}
