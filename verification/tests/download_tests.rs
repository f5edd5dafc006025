use mangapill_scraper::download::chapter_full_url;
use mangapill_scraper::download::failed_chapters_of;
use mangapill_scraper::download::failed_page_indices;
use mangapill_scraper::download::fetch_outcome;
use mangapill_scraper::download::image_urls_from_html;
use mangapill_scraper::download::page_fetch_result;
use mangapill_scraper::download::page_file_name;
use mangapill_scraper::download::ChapterOutcome;
use mangapill_scraper::errors::ScraperErrors;
use mangapill_scraper::models::Chapter;

#[test]
fn image_urls_prefer_src_then_data_src() {
    let html = "<html><body><div>\
        <chapter-page><img src=\"/a.jpg\"></chapter-page>\
        <chapter-page><img data-src=\"/b.jpg\"></chapter-page>\
        <chapter-page><img src=\"/c.jpg\" data-src=\"/wrong.jpg\"></chapter-page>\
        </div></body></html>";
    let urls = image_urls_from_html(html);
    assert_eq!(urls, vec!["/a.jpg", "/b.jpg", "/c.jpg"]);
}

#[test]
fn image_without_any_url_is_skipped() {
    let html = "<html><body><div>\
        <chapter-page><img src=\"/a.jpg\"></chapter-page>\
        <chapter-page><img alt=\"broken\"></chapter-page>\
        <chapter-page><img src=\"/b.jpg\"></chapter-page>\
        </div></body></html>";
    let urls = image_urls_from_html(html);
    assert_eq!(urls, vec!["/a.jpg", "/b.jpg"]);
}

#[test]
fn failed_indices_collects_exactly_the_failures() {
    let outcomes = vec![true, false, true, false, true];
    let failed = failed_page_indices(&outcomes);
    assert_eq!(failed, vec![1, 3]);
}

#[test]
fn failed_indices_length_matches_failure_count() {
    let outcomes = vec![false, true, false, false, true, false];
    let failed = failed_page_indices(&outcomes);
    assert_eq!(failed.len(), 4);
    assert_eq!(failed, vec![0, 2, 3, 5]);
}

#[test]
fn no_failures_gives_empty_list() {
    let outcomes = vec![true, true, true];
    assert!(failed_page_indices(&outcomes).is_empty());
}

#[test]
fn page_file_names_are_three_digit_padded() {
    assert_eq!(page_file_name(0), "000.jpg");
    assert_eq!(page_file_name(5), "005.jpg");
    assert_eq!(page_file_name(42), "042.jpg");
    assert_eq!(page_file_name(123), "123.jpg");
    assert_eq!(page_file_name(1234), "1234.jpg");
}

#[test]
fn only_success_statuses_count_as_fetched() {
    assert!(fetch_outcome(200));
    assert!(fetch_outcome(204));
    assert!(fetch_outcome(299));
    assert!(!fetch_outcome(199));
    assert!(!fetch_outcome(300));
    assert!(!fetch_outcome(404));
    assert!(!fetch_outcome(500));
}

#[test]
fn page_fetch_success_is_ok() {
    assert!(page_fetch_result(true, "/a.jpg", "tmp/m/chapter 0001", 3).is_ok());
}

#[test]
fn page_fetch_failure_carries_page_identity() {
    match page_fetch_result(false, "/a.jpg", "tmp/m/chapter 0001", 3) {
        Err(ScraperErrors::PageDownloadFailed { url, chapter_path, page_num }) => {
            assert_eq!(url, "/a.jpg");
            assert_eq!(chapter_path, "tmp/m/chapter 0001");
            assert_eq!(page_num, 3);
        }
        other => panic!("expected PageDownloadFailed, got {:?}", other),
    }
}

#[test]
fn chapter_urls_are_host_plus_relative_path() {
    assert_eq!(
        chapter_full_url("https://mangapill.com", "/chapters/9"),
        "https://mangapill.com/chapters/9"
    );
}

#[test]
fn failed_chapters_keep_only_failures() {
    let chapters = vec![
        Chapter { url: "/c/1".to_string(), title: "chapter 0001".to_string() },
        Chapter { url: "/c/2".to_string(), title: "chapter 0002".to_string() },
        Chapter { url: "/c/3".to_string(), title: "chapter 0003".to_string() },
    ];
    let outcomes = vec![
        ChapterOutcome::Completed { failed_pages: vec![] },
        ChapterOutcome::Completed { failed_pages: vec![2, 5] },
        ChapterOutcome::FetchFailed,
    ];
    let failed = failed_chapters_of(&chapters, &outcomes);
    assert_eq!(failed.len(), 2);
    assert_eq!(failed[0].title, "chapter 0002");
    assert_eq!(failed[1].title, "chapter 0003");
}

#[test]
fn clean_chapters_report_nothing() {
    let chapters = vec![Chapter { url: "/c/1".to_string(), title: "chapter 0001".to_string() }];
    let outcomes = vec![ChapterOutcome::Completed { failed_pages: vec![] }];
    assert!(failed_chapters_of(&chapters, &outcomes).is_empty());
}

#[test]
fn error_messages_are_exact() {
    let e = ScraperErrors::PageDownloadFailed {
        url: "/a.jpg".to_string(),
        chapter_path: "tmp/m/chapter 0001".to_string(),
        page_num: 12,
    };
    assert_eq!(e.message(), "failed to download tmp/m/chapter 0001 page 12");
    assert_eq!(
        ScraperErrors::InvalidBookId(7).message(),
        "failed to get title for id: 7"
    );
    assert_eq!(
        ScraperErrors::InvalidChapterSelection.message(),
        "incomplete chapter selection"
    );
}
