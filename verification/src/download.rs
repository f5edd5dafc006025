use vstd::prelude::*;

use crate::errors::ScraperErrors;
use crate::html::extract_page_image_attrs;
use crate::html::page_image_attrs_of;
use crate::html::MAX_DOCUMENT_LEN;
use crate::models::lemma_deep_view_push;
use crate::models::Chapter;
use crate::models::ChapterModel;
use crate::text::dec_str;
use crate::text::fmt_usize;
use crate::text::pad_left;
use crate::text::push_zeros;
use crate::text::zeros;

verus! {

/// The URL taken from one image element: the primary `src` attribute,
/// falling back to the lazy-load `data-src` attribute.
pub open spec fn picked_url(a: (Option<Seq<char>>, Option<Seq<char>>)) -> Option<Seq<char>> {
    if a.0 is Some {
        a.0
    } else {
        a.1
    }
}

/// The ordered page-image URLs of a chapter landing page: per image element
/// the preferred attribute; an element with neither attribute is skipped.
pub open spec fn image_urls_spec(attrs: Seq<(Option<Seq<char>>, Option<Seq<char>>)>) -> Seq<
    Seq<char>,
>
    decreases attrs.len(),
{
    if attrs.len() == 0 {
        Seq::empty()
    } else {
        let rest = image_urls_spec(attrs.drop_last());
        match picked_url(attrs.last()) {
            Some(u) => rest.push(u),
            None => rest,
        }
    }
}

/// Picks the page-image URL of every extracted image element, in order, as
/// [`image_urls_spec`] describes.
pub fn image_urls_from_attrs(attrs: &Vec<(Option<String>, Option<String>)>) -> (r: Vec<String>)
    ensures
        r.deep_view() == image_urls_spec(attrs.deep_view()),
{
    let len = attrs.len();
    let mut r: Vec<String> = Vec::new();
    let mut i: usize = 0;
    while i < len
        invariant
            i <= len,
            len == attrs@.len(),
            r.deep_view() =~= image_urls_spec(attrs.deep_view().take(i as int)),
        decreases len - i,
    {
        proof {
            assert(attrs.deep_view().take(i + 1 as int).drop_last() =~= attrs.deep_view().take(
                i as int,
            ));
            assert(attrs.deep_view().take(i + 1 as int).last() == attrs.deep_view()[i as int]);
        }
        let a = &attrs[i];
        let picked: Option<String> = match (&a.0, &a.1) {
            (Some(u), _) => Some(u.clone()),
            (None, Some(u)) => Some(u.clone()),
            (None, None) => None,
        };
        match picked {
            Some(u) => {
                let ghost prev = r@;
                let ghost prev_dv = r.deep_view();
                r.push(u);
                proof {
                    lemma_deep_view_push(prev, prev_dv, r@, u);
                }
            },
            None => {},
        }
        i = i + 1;
    }
    proof {
        assert(attrs.deep_view().take(len as int) =~= attrs.deep_view());
    }
    r
}

/// Step one of the chapter downloader: the ordered page-image URLs extracted
/// from the chapter landing page. The document must stay under
/// [`MAX_DOCUMENT_LEN`], the parser's buffer cap.
pub fn image_urls_from_html(html: &str) -> (r: Vec<String>)
    requires
        html@.len() < MAX_DOCUMENT_LEN,
    ensures
        r.deep_view() == image_urls_spec(page_image_attrs_of(html@)),
{
    let attrs = extract_page_image_attrs(html);
    image_urls_from_attrs(&attrs)
}

/// How many pages of a chapter failed: the `false` entries of the per-page
/// outcome list.
pub open spec fn count_false(outcomes: Seq<bool>) -> int
    decreases outcomes.len(),
{
    if outcomes.len() == 0 {
        0
    } else {
        count_false(outcomes.drop_last()) + if outcomes.last() {
            0int
        } else {
            1int
        }
    }
}

/// The indices of the failed pages, in increasing order.
pub open spec fn failed_spec(outcomes: Seq<bool>) -> Seq<int>
    decreases outcomes.len(),
{
    if outcomes.len() == 0 {
        Seq::empty()
    } else if outcomes.last() {
        failed_spec(outcomes.drop_last())
    } else {
        failed_spec(outcomes.drop_last()).push(outcomes.len() - 1)
    }
}

/// The failed-index list is exactly as long as the number of failed pages.
pub proof fn lemma_failed_count(outcomes: Seq<bool>)
    ensures
        failed_spec(outcomes).len() == count_false(outcomes),
    decreases outcomes.len(),
{
    if outcomes.len() > 0 {
        lemma_failed_count(outcomes.drop_last());
    }
}

/// The failed-index list holds an index if and only if that page failed.
pub proof fn lemma_failed_complete(outcomes: Seq<bool>, i: int)
    ensures
        failed_spec(outcomes).contains(i) <==> (0 <= i < outcomes.len() && !outcomes[i]),
    decreases outcomes.len(),
{
    if outcomes.len() > 0 {
        lemma_failed_complete(outcomes.drop_last(), i);
        let rest = failed_spec(outcomes.drop_last());
        let whole = failed_spec(outcomes);
        if 0 <= i < outcomes.len() - 1 {
            assert(outcomes.drop_last()[i] == outcomes[i]);
        }
        if !outcomes.last() {
            assert(whole == rest.push(outcomes.len() - 1));
            if rest.contains(i) {
                let k = choose|k: int| 0 <= k < rest.len() && rest[k] == i;
                assert(whole[k] == i);
            }
            if whole.contains(i) && i != outcomes.len() - 1 {
                let k = choose|k: int| 0 <= k < whole.len() && whole[k] == i;
                assert(rest[k] == i);
            }
            assert(whole[whole.len() - 1] == outcomes.len() - 1);
        }
    }
}

/// Step three of the chapter downloader: collects the indices of the pages
/// whose fetch failed. A page failure never fails the chapter; it only shows
/// up in this list.
pub fn failed_page_indices(outcomes: &Vec<bool>) -> (r: Vec<usize>)
    ensures
        r@.map_values(|u: usize| u as int) == failed_spec(outcomes@),
        r@.len() == count_false(outcomes@),
{
    let len = outcomes.len();
    let mut r: Vec<usize> = Vec::new();
    let mut i: usize = 0;
    while i < len
        invariant
            i <= len,
            len == outcomes@.len(),
            r@.map_values(|u: usize| u as int) =~= failed_spec(outcomes@.take(i as int)),
        decreases len - i,
    {
        proof {
            assert(outcomes@.take(i + 1 as int).drop_last() =~= outcomes@.take(i as int));
            assert(outcomes@.take(i + 1 as int).last() == outcomes@[i as int]);
        }
        if !outcomes[i] {
            let ghost prev = r@;
            r.push(i);
            proof {
                assert(r@.map_values(|u: usize| u as int) =~= prev.map_values(
                    |u: usize| u as int,
                ).push(i as int));
            }
        }
        i = i + 1;
    }
    proof {
        assert(outcomes@.take(len as int) =~= outcomes@);
        lemma_failed_count(outcomes@);
    }
    r
}

/// The destination file name of one page: its index zero-padded to three
/// digits, with the `.jpg` extension.
pub open spec fn page_file_name_spec(n: nat) -> Seq<char> {
    pad_left(dec_str(n), 3) + ".jpg"@
}

/// Derives the on-disk file name for page `page_num`, as
/// [`page_file_name_spec`] describes. The name depends only on the page's
/// original index, so the on-disk layout is right whatever order the
/// concurrent fetches complete in.
pub fn page_file_name(page_num: usize) -> (r: String)
    ensures
        r@ == page_file_name_spec(page_num as nat),
{
    let digits = fmt_usize(page_num);
    let dlen = digits.as_str().unicode_len();
    let pad: usize = if dlen < 3 {
        3 - dlen
    } else {
        0
    };
    let mut r = String::new();
    push_zeros(&mut r, pad);
    r.append(digits.as_str());
    r.append(".jpg");
    proof {
        assert(pad_left(dec_str(page_num as nat), 3) =~= zeros(pad as int) + dec_str(
            page_num as nat,
        ));
        assert(r@ =~= page_file_name_spec(page_num as nat));
    }
    r
}

/// Whether an HTTP response status counts as a fetched page: only a
/// success status does; any other collapses to the same failure as a
/// transport error.
pub fn fetch_outcome(status: u16) -> (r: bool)
    ensures
        r == (200 <= status < 300),
{
    200 <= status && status < 300
}

/// The page fetcher's outcome: any transport or status failure collapses to
/// the single `PageDownloadFailed` error carrying the page's identity.
pub fn page_fetch_result(fetched: bool, url: &str, chapter_path: &str, page_num: usize) -> (r:
    Result<(), ScraperErrors>)
    ensures
        fetched <==> r is Ok,
        !fetched ==> (r matches Err(ScraperErrors::PageDownloadFailed {
            url: u,
            chapter_path: p,
            page_num: n,
        }) && u@ == url@ && p@ == chapter_path@ && n == page_num),
{
    if fetched {
        Ok(())
    } else {
        Err(
            ScraperErrors::PageDownloadFailed {
                url: url.to_owned(),
                chapter_path: chapter_path.to_owned(),
                page_num,
            },
        )
    }
}

/// The absolute URL of a chapter: the site host followed by the chapter's
/// relative path.
pub fn chapter_full_url(host: &str, rel: &str) -> (r: String)
    ensures
        r@ == host@ + rel@,
{
    let mut r = String::from_str(host);
    r.append(rel);
    r
}

/// Ghost form of a [`ChapterOutcome`].
pub enum ChapterOutcomeModel {
    Completed { failed_pages: Seq<usize> },
    FetchFailed,
}

/// What one chapter download came to: the chapter page was fetched and its
/// pages attempted, with the listed page indices failing, or the chapter
/// page itself could not be fetched.
pub enum ChapterOutcome {
    Completed { failed_pages: Vec<usize> },
    FetchFailed,
}

impl DeepView for ChapterOutcome {
    type V = ChapterOutcomeModel;

    open spec fn deep_view(&self) -> ChapterOutcomeModel {
        match self {
            ChapterOutcome::Completed { failed_pages } => ChapterOutcomeModel::Completed {
                failed_pages: failed_pages.deep_view(),
            },
            ChapterOutcome::FetchFailed => ChapterOutcomeModel::FetchFailed,
        }
    }
}

/// Whether a chapter counts as failed: its page fetch failed outright, or
/// any of its pages did.
pub open spec fn chapter_failed(o: ChapterOutcomeModel) -> bool {
    match o {
        ChapterOutcomeModel::Completed { failed_pages } => failed_pages.len() > 0,
        ChapterOutcomeModel::FetchFailed => true,
    }
}

/// The chapters whose download failed, in their original order.
pub open spec fn failed_chapters_spec(
    chapters: Seq<ChapterModel>,
    outcomes: Seq<ChapterOutcomeModel>,
) -> Seq<ChapterModel>
    recommends
        chapters.len() == outcomes.len(),
    decreases outcomes.len(),
{
    if outcomes.len() == 0 {
        Seq::empty()
    } else {
        let rest = failed_chapters_spec(chapters.drop_last(), outcomes.drop_last());
        if chapter_failed(outcomes.last()) {
            rest.push(chapters.last())
        } else {
            rest
        }
    }
}

/// Collects the chapters that must be reported as not fully downloaded,
/// given the outcome of each chapter's download.
pub fn failed_chapters_of(chapters: &Vec<Chapter>, outcomes: &Vec<ChapterOutcome>) -> (r: Vec<
    Chapter,
>)
    requires
        chapters@.len() == outcomes@.len(),
    ensures
        r.deep_view() == failed_chapters_spec(chapters.deep_view(), outcomes.deep_view()),
{
    let len = chapters.len();
    let mut r: Vec<Chapter> = Vec::new();
    let mut i: usize = 0;
    while i < len
        invariant
            i <= len,
            len == chapters@.len(),
            len == outcomes@.len(),
            r.deep_view() =~= failed_chapters_spec(
                chapters.deep_view().take(i as int),
                outcomes.deep_view().take(i as int),
            ),
        decreases len - i,
    {
        proof {
            assert(chapters.deep_view().take(i + 1 as int).drop_last() =~= chapters.deep_view()
                .take(i as int));
            assert(outcomes.deep_view().take(i + 1 as int).drop_last() =~= outcomes.deep_view()
                .take(i as int));
            assert(chapters.deep_view().take(i + 1 as int).last() == chapters.deep_view()[
                i as int
            ]);
            assert(outcomes.deep_view().take(i + 1 as int).last() == outcomes.deep_view()[
                i as int
            ]);
        }
        let failed: bool = match &outcomes[i] {
            ChapterOutcome::Completed { failed_pages } => failed_pages.len() > 0,
            ChapterOutcome::FetchFailed => true,
        };
        if failed {
            let ch = chapters[i].clone();
            let ghost prev = r@;
            let ghost prev_dv = r.deep_view();
            r.push(ch);
            proof {
                lemma_deep_view_push(prev, prev_dv, r@, ch);
            }
        }
        i = i + 1;
    }
    proof {
        assert(chapters.deep_view().take(len as int) =~= chapters.deep_view());
        assert(outcomes.deep_view().take(len as int) =~= outcomes.deep_view());
    }
    r
}

} // verus!
