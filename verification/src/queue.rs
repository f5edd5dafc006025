use vstd::prelude::*;

use crate::models::lemma_deep_view_push;
use crate::models::Chapter;
use crate::models::ChapterModel;

verus! {

/// Ghost form of a [`QueueMessage`].
pub enum MessageModel {
    Job(ChapterModel),
    Sentinel,
}

/// One message of the work channel: a chapter job, or the sentinel that
/// tells a worker there is no more work and it should exit.
pub enum QueueMessage {
    Job(Chapter),
    Sentinel,
}

impl DeepView for QueueMessage {
    type V = MessageModel;

    open spec fn deep_view(&self) -> MessageModel {
        match self {
            QueueMessage::Job(c) => MessageModel::Job(c@),
            QueueMessage::Sentinel => MessageModel::Sentinel,
        }
    }
}

/// How many job messages a message list holds.
pub open spec fn job_count(msgs: Seq<MessageModel>) -> int
    decreases msgs.len(),
{
    if msgs.len() == 0 {
        0
    } else {
        job_count(msgs.drop_last()) + if msgs.last() is Job {
            1int
        } else {
            0int
        }
    }
}

/// How many sentinel messages a message list holds.
pub open spec fn sentinel_count(msgs: Seq<MessageModel>) -> int
    decreases msgs.len(),
{
    if msgs.len() == 0 {
        0
    } else {
        sentinel_count(msgs.drop_last()) + if msgs.last() is Sentinel {
            1int
        } else {
            0int
        }
    }
}

/// How many worker processes the dispatcher spawns: the requested count,
/// but never more than there are chapters to download.
pub fn effective_workers(requested: usize, chapter_count: usize) -> (w: usize)
    ensures
        w == if requested < chapter_count {
            requested as int
        } else {
            chapter_count as int
        },
{
    if requested < chapter_count {
        requested
    } else {
        chapter_count
    }
}

/// The dispatcher's publish plan: one job per selected chapter, in order,
/// followed by one sentinel per worker — so exactly `chapters.len()` job
/// messages and `num_workers` sentinel messages are published, and each
/// worker can consume exactly one sentinel before exiting.
pub fn build_publish_plan(chapters: &Vec<Chapter>, num_workers: usize) -> (plan: Vec<QueueMessage>)
    requires
        chapters@.len() + num_workers <= usize::MAX,
    ensures
        plan@.len() == chapters@.len() + num_workers,
        forall|i: int|
            0 <= i < chapters@.len() ==> #[trigger] plan.deep_view()[i] == MessageModel::Job(
                chapters.deep_view()[i],
            ),
        forall|i: int|
            chapters@.len() <= i < plan@.len() ==> #[trigger] plan.deep_view()[i]
                == MessageModel::Sentinel,
        job_count(plan.deep_view()) == chapters@.len(),
        sentinel_count(plan.deep_view()) == num_workers,
{
    let c = chapters.len();
    let mut plan: Vec<QueueMessage> = Vec::new();
    let mut i: usize = 0;
    while i < c
        invariant
            i <= c,
            c == chapters@.len(),
            plan@.len() == i as int,
            forall|k: int|
                0 <= k < i as int ==> #[trigger] plan.deep_view()[k] == MessageModel::Job(
                    chapters.deep_view()[k],
                ),
            job_count(plan.deep_view()) == i as int,
            sentinel_count(plan.deep_view()) == 0,
        decreases c - i,
    {
        let msg = QueueMessage::Job(chapters[i].clone());
        let ghost prev = plan@;
        let ghost prev_dv = plan.deep_view();
        plan.push(msg);
        proof {
            lemma_deep_view_push(prev, prev_dv, plan@, msg);
            assert(plan.deep_view().drop_last() =~= prev_dv);
        }
        i = i + 1;
    }
    let mut s: usize = 0;
    while s < num_workers
        invariant
            s <= num_workers,
            c == chapters@.len(),
            c + num_workers <= usize::MAX,
            plan@.len() == c + s,
            forall|k: int|
                0 <= k < c as int ==> #[trigger] plan.deep_view()[k] == MessageModel::Job(
                    chapters.deep_view()[k],
                ),
            forall|k: int|
                c as int <= k < plan@.len() ==> #[trigger] plan.deep_view()[k]
                    == MessageModel::Sentinel,
            job_count(plan.deep_view()) == c as int,
            sentinel_count(plan.deep_view()) == s as int,
        decreases num_workers - s,
    {
        let msg = QueueMessage::Sentinel;
        let ghost prev = plan@;
        let ghost prev_dv = plan.deep_view();
        plan.push(msg);
        proof {
            lemma_deep_view_push(prev, prev_dv, plan@, msg);
            assert(plan.deep_view().drop_last() =~= prev_dv);
        }
        s = s + 1;
    }
    plan
}

} // verus!
