use mangapill_scraper::crawler::fetch_chapter_list;
use mangapill_scraper::crawler::resolve_title_slug;
use mangapill_scraper::jobs::select_range;
use mangapill_scraper::jobs::split_jobs;
use mangapill_scraper::models::Chapter;
use mangapill_scraper::queue::build_publish_plan;
use mangapill_scraper::queue::effective_workers;
use mangapill_scraper::queue::QueueMessage;
use mangapill_scraper::summary::chapter_noun;
use mangapill_scraper::summary::summary_line;
use mangapill_scraper::tracker::missing_titles;
use mangapill_scraper::tracker::run_tracker;
use mangapill_scraper::tracker::CompletionTracker;
use mangapill_scraper::worker::run_worker;
use mangapill_scraper::worker::worker_step;
use mangapill_scraper::worker::WorkerAction;

fn chapter(n: usize) -> Chapter {
    Chapter { url: format!("/chapters/{}", n), title: format!("chapter {:04}", n) }
}

#[test]
fn split_jobs_balances_from_the_back() {
    let mut jobs: Vec<u32> = vec![1, 2, 3, 4, 5, 6, 7];
    let batches = split_jobs(&mut jobs, 3);
    assert!(jobs.is_empty());
    assert_eq!(batches, vec![vec![5, 6, 7], vec![3, 4], vec![1, 2]]);
}

#[test]
fn split_jobs_with_even_division() {
    let mut jobs: Vec<u32> = vec![1, 2, 3, 4, 5, 6];
    let batches = split_jobs(&mut jobs, 3);
    assert_eq!(batches, vec![vec![5, 6], vec![3, 4], vec![1, 2]]);
}

#[test]
fn split_jobs_with_fewer_jobs_than_batches() {
    let mut jobs: Vec<u32> = vec![1, 2];
    let batches = split_jobs(&mut jobs, 4);
    assert_eq!(batches, vec![vec![2], vec![1]]);
}

#[test]
fn split_jobs_into_one_batch() {
    let mut jobs: Vec<u32> = vec![1, 2, 3];
    let batches = split_jobs(&mut jobs, 1);
    assert_eq!(batches, vec![vec![1, 2, 3]]);
}

#[test]
fn select_range_keeps_the_chosen_window() {
    let chapters: Vec<Chapter> = (1..=5).map(chapter).collect();
    let picked = select_range(chapters, 1, 2);
    let titles: Vec<String> = picked.into_iter().map(|c| c.title).collect();
    assert_eq!(titles, vec!["chapter 0002", "chapter 0003", "chapter 0004"]);
}

#[test]
fn select_single_chapter() {
    let chapters: Vec<Chapter> = (1..=3).map(chapter).collect();
    let picked = select_range(chapters, 2, 0);
    assert_eq!(picked.len(), 1);
    assert_eq!(picked[0].title, "chapter 0003");
}

#[test]
fn publish_plan_has_one_job_per_chapter_and_one_sentinel_per_worker() {
    let chapters: Vec<Chapter> = (1..=5).map(chapter).collect();
    let workers = effective_workers(3, chapters.len());
    assert_eq!(workers, 3);
    let plan = build_publish_plan(&chapters, workers);
    assert_eq!(plan.len(), 8);
    let jobs = plan.iter().filter(|m| matches!(m, QueueMessage::Job(_))).count();
    let sentinels = plan.iter().filter(|m| matches!(m, QueueMessage::Sentinel)).count();
    assert_eq!(jobs, 5);
    assert_eq!(sentinels, 3);
    for (i, msg) in plan.iter().enumerate() {
        match msg {
            QueueMessage::Job(c) => {
                assert!(i < 5);
                assert_eq!(c.title, chapters[i].title);
            }
            QueueMessage::Sentinel => assert!(i >= 5),
        }
    }
}

#[test]
fn worker_count_never_exceeds_chapter_count() {
    assert_eq!(effective_workers(8, 3), 3);
    assert_eq!(effective_workers(2, 3), 2);
    assert_eq!(effective_workers(1, 1), 1);
}

#[test]
fn worker_downloads_jobs_and_exits_on_sentinel() {
    assert!(matches!(
        worker_step(QueueMessage::Job(chapter(1))),
        WorkerAction::Download(_)
    ));
    assert!(matches!(worker_step(QueueMessage::Sentinel), WorkerAction::Exit));
}

#[test]
fn worker_consumes_exactly_one_sentinel() {
    let msgs = vec![
        QueueMessage::Job(chapter(1)),
        QueueMessage::Job(chapter(2)),
        QueueMessage::Sentinel,
        QueueMessage::Job(chapter(3)),
        QueueMessage::Sentinel,
    ];
    let (completions, consumed) = run_worker(&msgs);
    assert_eq!(consumed, 3);
    assert_eq!(completions.len(), 2);
    assert_eq!(completions[0].title, "chapter 0001");
    assert_eq!(completions[1].title, "chapter 0002");
}

#[test]
fn worker_without_sentinel_drains_the_queue() {
    let msgs = vec![QueueMessage::Job(chapter(1)), QueueMessage::Job(chapter(2))];
    let (completions, consumed) = run_worker(&msgs);
    assert_eq!(consumed, 2);
    assert_eq!(completions.len(), 2);
}

#[test]
fn tracker_stops_after_exactly_the_scheduled_count() {
    let deliveries = vec![true, true, true, true, true];
    let (processed, done) = run_tracker(&deliveries, 3);
    assert!(done);
    assert_eq!(processed, 3);
}

#[test]
fn tracker_ignores_malformed_replies() {
    let deliveries = vec![false, true, false, true, true, true];
    let (processed, done) = run_tracker(&deliveries, 3);
    assert!(done);
    assert_eq!(processed, 5);
}

#[test]
fn tracker_without_enough_records_never_finishes() {
    let deliveries = vec![true, false, true];
    let (processed, done) = run_tracker(&deliveries, 3);
    assert!(!done);
    assert_eq!(processed, 3);
}

#[test]
fn tracker_counts_in_any_arrival_order() {
    let early = vec![true, true, false, false];
    let late = vec![false, false, true, true];
    assert!(run_tracker(&early, 2).1);
    assert!(run_tracker(&late, 2).1);
}

#[test]
fn tracker_steps_report_done_exactly_at_total() {
    let mut t = CompletionTracker::new(2);
    assert!(!t.on_delivery(true));
    assert!(!t.on_delivery(false));
    assert!(t.on_delivery(true));
    assert_eq!(t.received, 2);
}

#[test]
fn missing_titles_reports_unseen_chapters_in_order() {
    let chapters: Vec<Chapter> = (1..=4).map(chapter).collect();
    let seen = vec!["chapter 0002".to_string(), "chapter 0004".to_string()];
    let missing = missing_titles(&chapters, &seen);
    assert_eq!(missing, vec!["chapter 0001", "chapter 0003"]);
}

#[test]
fn missing_titles_is_empty_when_every_completion_was_seen() {
    let chapters: Vec<Chapter> = (1..=2).map(chapter).collect();
    let seen = vec!["chapter 0002".to_string(), "chapter 0001".to_string()];
    assert!(missing_titles(&chapters, &seen).is_empty());
}

#[test]
fn summary_uses_singular_for_one_chapter() {
    assert_eq!(chapter_noun(1), "chapter");
    assert_eq!(chapter_noun(0), "chapters");
    assert_eq!(chapter_noun(2), "chapters");
    assert_eq!(
        summary_line(1, "0.50", "tmp/solo"),
        "Downloaded 1 chapter in 0.50 seconds to tmp/solo/"
    );
}

#[test]
fn end_to_end_dispatch_scenario() {
    let slug = resolve_title_slug(99, Some("example-manga")).unwrap();
    assert_eq!(slug, "example-manga");

    let html = "<html><body><h1>Example Manga</h1><div id=\"chapters\">\
        <a href=\"/chapters/3\" title=\"Chapter 3\">x</a>\
        <a href=\"/chapters/2\" title=\"Chapter 2\">x</a>\
        <a href=\"/chapters/1\" title=\"Chapter 1\">x</a>\
        </div></body></html>";
    let all_chapters = fetch_chapter_list(html);
    assert_eq!(all_chapters.len(), 3);

    let selected = select_range(all_chapters, 1, 1);
    assert_eq!(selected.len(), 2);
    assert_eq!(selected[0].title, "chapter 0002");
    assert_eq!(selected[1].title, "chapter 0003");

    let workers = effective_workers(4, selected.len());
    assert_eq!(workers, 2);
    let plan = build_publish_plan(&selected, workers);
    assert_eq!(plan.len(), 4);

    let (completions, consumed) = run_worker(&plan);
    assert_eq!(consumed, 3);
    assert_eq!(completions.len(), 2);

    let replies: Vec<bool> = completions.iter().map(|_| true).collect();
    let (processed, done) = run_tracker(&replies, selected.len());
    assert!(done);
    assert_eq!(processed, 2);

    let path = format!("tmp/{}", slug);
    assert_eq!(
        summary_line(selected.len(), "4.20", &path),
        "Downloaded 2 chapters in 4.20 seconds to tmp/example-manga/"
    );
}
