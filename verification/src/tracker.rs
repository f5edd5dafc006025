use vstd::prelude::*;

use crate::models::lemma_deep_view_push;
use crate::models::Chapter;
use crate::models::ChapterModel;

verus! {

/// How many deliveries of a reply sequence are valid completion records.
pub open spec fn count_valid(ds: Seq<bool>) -> int
    decreases ds.len(),
{
    if ds.len() == 0 {
        0
    } else {
        count_valid(ds.drop_last()) + if ds.last() {
            1int
        } else {
            0int
        }
    }
}

/// A prefix never holds more valid records than the whole sequence.
pub proof fn lemma_count_valid_mono(ds: Seq<bool>, p: int)
    requires
        0 <= p <= ds.len(),
    ensures
        count_valid(ds.take(p)) <= count_valid(ds),
    decreases ds.len(),
{
    if p == ds.len() {
        assert(ds.take(p) =~= ds);
    } else {
        lemma_count_valid_mono(ds.drop_last(), p);
        assert(ds.drop_last().take(p) =~= ds.take(p));
    }
}

/// The dispatcher's completion tracker: counts the completion records read
/// from the reply channel until every scheduled chapter is accounted for.
/// The counter is never decremented, and reaching the scheduled total is the
/// tracker's sole termination condition.
pub struct CompletionTracker {
    /// Completion records received so far.
    pub received: usize,
    /// The number of chapters scheduled at dispatch time.
    pub total: usize,
}

impl CompletionTracker {
    /// A tracker for `total` scheduled chapters, with nothing received yet.
    pub fn new(total: usize) -> (t: Self)
        ensures
            t.received == 0,
            t.total == total,
    {
        CompletionTracker { received: 0, total }
    }

    /// One reply-channel delivery. A payload that deserializes as a chapter
    /// advances the counter; a malformed payload is acknowledged without
    /// counting, so it can never block progress. Returns whether the
    /// scheduled total has now been reached.
    pub fn on_delivery(&mut self, valid: bool) -> (done: bool)
        requires
            old(self).received < old(self).total,
        ensures
            final(self).total == old(self).total,
            final(self).received == old(self).received + (if valid {
                1int
            } else {
                0int
            }),
            done <==> final(self).received == final(self).total,
    {
        if valid {
            self.received = self.received + 1;
        }
        self.received == self.total
    }
}

/// The tracker loop over a sequence of reply deliveries (`true` for a
/// payload that decodes as a chapter, `false` for a malformed one): it
/// stops exactly when `total` valid completion records have been consumed,
/// whatever their order and however many malformed payloads are
/// interleaved. Returns how many deliveries were consumed and whether the
/// total was reached.
pub fn run_tracker(deliveries: &Vec<bool>, total: usize) -> (r: (usize, bool))
    requires
        total >= 1,
    ensures
        r.0 <= deliveries@.len(),
        r.1 <==> count_valid(deliveries@) >= total,
        r.1 ==> count_valid(deliveries@.take(r.0 as int)) == total && r.0 >= 1 && deliveries@[r.0
            - 1],
        !r.1 ==> r.0 == deliveries@.len() && count_valid(deliveries@) < total,
{
    let len = deliveries.len();
    let mut tracker = CompletionTracker::new(total);
    let mut i: usize = 0;
    let mut done = false;
    while i < len && !done
        invariant
            i <= len,
            len == deliveries@.len(),
            tracker.total == total,
            total >= 1,
            tracker.received as int == count_valid(deliveries@.take(i as int)),
            tracker.received <= total,
            done ==> tracker.received == total && i >= 1 && deliveries@[i as int - 1],
            !done ==> tracker.received < total,
        decreases len - i,
    {
        proof {
            assert(deliveries@.take(i + 1 as int).drop_last() =~= deliveries@.take(i as int));
            assert(deliveries@.take(i + 1 as int).last() == deliveries@[i as int]);
        }
        let valid = deliveries[i];
        done = tracker.on_delivery(valid);
        i = i + 1;
    }
    proof {
        if done {
            lemma_count_valid_mono(deliveries@, i as int);
        } else {
            assert(deliveries@.take(len as int) =~= deliveries@);
        }
    }
    (i, done)
}

/// The titles of the scheduled chapters whose completion record was never
/// observed, in schedule order.
pub open spec fn missing_titles_spec(
    chapters: Seq<ChapterModel>,
    seen: Seq<Seq<char>>,
) -> Seq<Seq<char>>
    decreases chapters.len(),
{
    if chapters.len() == 0 {
        Seq::empty()
    } else {
        let rest = missing_titles_spec(chapters.drop_last(), seen);
        if seen.contains(chapters.last().title) {
            rest
        } else {
            rest.push(chapters.last().title)
        }
    }
}

/// Collects the titles of the scheduled chapters for which no completion
/// record was seen before the tracker finished — the dispatcher's
/// best-effort report of chapters that may not have been downloaded.
pub fn missing_titles(chapters: &Vec<Chapter>, seen: &Vec<String>) -> (r: Vec<String>)
    ensures
        r.deep_view() == missing_titles_spec(chapters.deep_view(), seen.deep_view()),
{
    let clen = chapters.len();
    let slen = seen.len();
    let mut r: Vec<String> = Vec::new();
    let mut i: usize = 0;
    while i < clen
        invariant
            i <= clen,
            clen == chapters@.len(),
            slen == seen@.len(),
            r.deep_view() =~= missing_titles_spec(
                chapters.deep_view().take(i as int),
                seen.deep_view(),
            ),
        decreases clen - i,
    {
        proof {
            assert(chapters.deep_view().take(i + 1 as int).drop_last() =~= chapters.deep_view()
                .take(i as int));
            assert(chapters.deep_view().take(i + 1 as int).last() == chapters.deep_view()[
                i as int
            ]);
        }
        let title = &chapters[i].title;
        let mut found = false;
        let mut j: usize = 0;
        while j < slen
            invariant
                j <= slen,
                slen == seen@.len(),
                title == &chapters@[i as int].title,
                i < chapters@.len(),
                found == exists|k: int|
                    0 <= k < j as int && #[trigger] seen.deep_view()[k] == title@,
            decreases slen - j,
        {
            proof {
                assert(seen.deep_view()[j as int] == seen@[j as int]@);
            }
            if seen[j].eq(title) {
                found = true;
                proof {
                    assert(seen.deep_view()[j as int] == title@);
                }
            }
            j = j + 1;
        }
        proof {
            assert(found == seen.deep_view().contains(title@));
            assert(chapters.deep_view()[i as int].title == title@);
        }
        if !found {
            let record = title.clone();
            let ghost prev = r@;
            let ghost prev_dv = r.deep_view();
            r.push(record);
            proof {
                lemma_deep_view_push(prev, prev_dv, r@, record);
            }
        }
        i = i + 1;
    }
    proof {
        assert(chapters.deep_view().take(clen as int) =~= chapters.deep_view());
    }
    r
}

} // verus!
