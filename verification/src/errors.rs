use vstd::prelude::*;

use crate::text::dec_str;
use crate::text::fmt_usize;

verus! {

/// The error taxonomy of the scraper.
///
/// `PageDownloadFailed` is per-page and non-fatal: the chapter downloader
/// records it as a failed index instead of raising it. `InvalidBookId` and
/// `InvalidChapterSelection` are fatal pre-flight errors of the dispatcher.
#[derive(Debug)]
pub enum ScraperErrors {
    PageDownloadFailed { url: String, chapter_path: String, page_num: usize },
    InvalidBookId(usize),
    InvalidChapterSelection,
}

/// The human-readable description of an error, character for character.
pub open spec fn message_spec(e: ScraperErrors) -> Seq<char> {
    match e {
        ScraperErrors::PageDownloadFailed { url, chapter_path, page_num } => "failed to download "@
            + chapter_path@ + " page "@ + dec_str(page_num as nat),
        ScraperErrors::InvalidBookId(id) => "failed to get title for id: "@ + dec_str(id as nat),
        ScraperErrors::InvalidChapterSelection => "incomplete chapter selection"@,
    }
}

impl ScraperErrors {
    /// Renders the error as the text that [`message_spec`] describes.
    pub fn message(&self) -> (r: String)
        ensures
            r@ == message_spec(*self),
    {
        match self {
            ScraperErrors::PageDownloadFailed { url: _, chapter_path, page_num } => {
                let mut s = String::from_str("failed to download ");
                s.append(chapter_path.as_str());
                s.append(" page ");
                let num = fmt_usize(*page_num);
                s.append(num.as_str());
                proof {
                    assert(s@ =~= message_spec(*self));
                }
                s
            },
            ScraperErrors::InvalidBookId(id) => {
                let mut s = String::from_str("failed to get title for id: ");
                let num = fmt_usize(*id);
                s.append(num.as_str());
                proof {
                    assert(s@ =~= message_spec(*self));
                }
                s
            },
            ScraperErrors::InvalidChapterSelection => {
                String::from_str("incomplete chapter selection")
            },
        }
    }
}

} // verus!
