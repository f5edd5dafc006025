use vstd::prelude::*;

use scraper::Selector;

verus! {

/// The largest document, in characters, that the extraction wrappers admit.
///
/// scraper's parser stores the document in a tendril buffer whose length is
/// held in 32 bits, and it panics on anything longer. A character encodes to
/// at most four UTF-8 bytes, so any document under 2^30 characters stays
/// under that cap. The shell checks a body's size against this bound before
/// handing it to the library.
pub const MAX_DOCUMENT_LEN: usize = 0x4000_0000;

/// The `(href, title)` attribute pair of every anchor matched by the CSS
/// query `#chapters a` in a document, in the order the query yields them.
/// A missing attribute is `None`.
pub uninterp spec fn chapter_anchors_of(html: Seq<char>) -> Seq<
    (Option<Seq<char>>, Option<Seq<char>>),
>;

/// The `(src, data-src)` attribute pair of every image matched by the CSS
/// query `div>chapter-page img` in a document, in the order the query yields
/// them.
pub uninterp spec fn page_image_attrs_of(html: Seq<char>) -> Seq<
    (Option<Seq<char>>, Option<Seq<char>>),
>;

/// The concatenated text of the first `h1` element of a document, or `None`
/// when the document has no `h1`.
pub uninterp spec fn heading_text_of(html: Seq<char>) -> Option<Seq<char>>;

/// Relies on scraper's `Html::parse_document` and `Html::select`: returns the
/// anchors matched by the fixed query `#chapters a`, each reduced to its
/// `href` and `title` attributes. The result depends on the document alone.
/// The parser panics on a document at or above its 32-bit buffer cap, so
/// oversized documents are excluded by `requires`.
#[verifier::external_body]
pub(crate) fn extract_chapter_anchors(html: &str) -> (r: Vec<(Option<String>, Option<String>)>)
    requires
        html@.len() < MAX_DOCUMENT_LEN,
    ensures
        r.deep_view() == chapter_anchors_of(html@),
{
    let doc = scraper::Html::parse_document(html);
    let selector = Selector::parse("#chapters a").unwrap();
    doc.select(&selector).map(
        |a| (a.attr("href").map(str::to_string), a.attr("title").map(str::to_string)),
    ).collect()
}

/// Relies on scraper's `Html::parse_document` and `Html::select`: returns the
/// images matched by the fixed query `div>chapter-page img`, each reduced to
/// its `src` and `data-src` attributes. The result depends on the document
/// alone. The parser panics on a document at or above its 32-bit buffer cap,
/// so oversized documents are excluded by `requires`.
#[verifier::external_body]
pub(crate) fn extract_page_image_attrs(html: &str) -> (r: Vec<(Option<String>, Option<String>)>)
    requires
        html@.len() < MAX_DOCUMENT_LEN,
    ensures
        r.deep_view() == page_image_attrs_of(html@),
{
    let doc = scraper::Html::parse_document(html);
    let selector = Selector::parse("div>chapter-page img").unwrap();
    doc.select(&selector).map(
        |img| (img.attr("src").map(str::to_string), img.attr("data-src").map(str::to_string)),
    ).collect()
}

/// Relies on scraper's `Html::parse_document`, `Html::select` and
/// `ElementRef::text`: returns the text of the first `h1` element, if any.
/// The result depends on the document alone. The parser panics on a document
/// at or above its 32-bit buffer cap, so oversized documents are excluded by
/// `requires`.
#[verifier::external_body]
pub(crate) fn extract_first_heading(html: &str) -> (r: Option<String>)
    requires
        html@.len() < MAX_DOCUMENT_LEN,
    ensures
        r.deep_view() == heading_text_of(html@),
{
    let doc = scraper::Html::parse_document(html);
    let selector = Selector::parse("h1").unwrap();
    doc.select(&selector).next().map(|e| e.text().collect::<String>())
}

} // verus!
