use vstd::prelude::*;

use crate::models::lemma_deep_view_push;
use crate::models::Chapter;
use crate::models::ChapterModel;
use crate::queue::sentinel_count;
use crate::queue::MessageModel;
use crate::queue::QueueMessage;

verus! {

/// What a worker does with one delivery.
pub enum WorkerAction {
    /// Run the chapter downloader for this chapter, acknowledge the message,
    /// and publish a completion record built from the same chapter.
    Download(Chapter),
    /// Acknowledge the sentinel, cancel the consumer registration and exit.
    Exit,
}

/// The worker's one decision: a message that carries a chapter is work; the
/// sentinel (or anything that does not decode as a chapter) ends the loop.
pub fn worker_step(msg: QueueMessage) -> (a: WorkerAction)
    ensures
        msg matches QueueMessage::Job(c) ==> a matches WorkerAction::Download(d) && d@ == c@,
        msg is Sentinel ==> a is Exit,
{
    match msg {
        QueueMessage::Job(c) => WorkerAction::Download(c),
        QueueMessage::Sentinel => WorkerAction::Exit,
    }
}

/// How many deliveries a worker consumes from a message sequence: every
/// message up to and including the first sentinel, or all of them when no
/// sentinel arrives.
pub open spec fn consumed_spec(msgs: Seq<MessageModel>) -> int
    decreases msgs.len(),
{
    if msgs.len() == 0 {
        0
    } else if msgs.first() is Sentinel {
        1
    } else {
        1 + consumed_spec(msgs.drop_first())
    }
}

/// The completion records a worker publishes: one per job it consumed
/// before the first sentinel, carrying the same chapter identity.
pub open spec fn completions_spec(msgs: Seq<MessageModel>) -> Seq<ChapterModel>
    decreases msgs.len(),
{
    if msgs.len() == 0 {
        Seq::empty()
    } else {
        match msgs.first() {
            MessageModel::Sentinel => Seq::empty(),
            MessageModel::Job(c) => seq![c] + completions_spec(msgs.drop_first()),
        }
    }
}

/// The worker loop over a sequence of deliveries: processes jobs in order,
/// collecting the completion record of each, and stops at the first
/// sentinel. Returns the completion records and how many messages were
/// consumed.
pub fn run_worker(msgs: &Vec<QueueMessage>) -> (r: (Vec<Chapter>, usize))
    ensures
        r.1 as int == consumed_spec(msgs.deep_view()),
        r.0.deep_view() == completions_spec(msgs.deep_view()),
{
    let ghost dv = msgs.deep_view();
    let len = msgs.len();
    let mut completions: Vec<Chapter> = Vec::new();
    let mut i: usize = 0;
    let mut exited = false;
    proof {
        assert(dv.skip(0) =~= dv);
        assert(completions.deep_view() + completions_spec(dv) =~= completions_spec(dv));
    }
    while i < len && !exited
        invariant
            i <= len,
            len == msgs@.len(),
            dv == msgs.deep_view(),
            completions_spec(dv) == completions.deep_view() + (if exited {
                Seq::<ChapterModel>::empty()
            } else {
                completions_spec(dv.skip(i as int))
            }),
            consumed_spec(dv) == (if exited {
                i as int
            } else {
                i + consumed_spec(dv.skip(i as int))
            }),
        decreases len - i,
    {
        proof {
            assert(dv.skip(i as int).first() == dv[i as int]);
            assert(dv.skip(i as int).drop_first() =~= dv.skip(i + 1 as int));
        }
        match &msgs[i] {
            QueueMessage::Job(c) => {
                let record = c.clone();
                let ghost prev = completions@;
                let ghost prev_dv = completions.deep_view();
                completions.push(record);
                proof {
                    lemma_deep_view_push(prev, prev_dv, completions@, record);
                    assert(completions_spec(dv.skip(i as int)) == seq![c@] + completions_spec(
                        dv.skip(i + 1 as int),
                    ));
                    assert(completions.deep_view() + completions_spec(dv.skip(i + 1 as int)) =~= (
                    prev_dv + completions_spec(dv.skip(i as int))));
                }
            },
            QueueMessage::Sentinel => {
                exited = true;
                proof {
                    assert(completions_spec(dv.skip(i as int)) =~= Seq::<ChapterModel>::empty());
                    assert(completions.deep_view() + Seq::<ChapterModel>::empty()
                        =~= completions.deep_view() + completions_spec(dv.skip(i as int)));
                }
            },
        }
        i = i + 1;
    }
    proof {
        if !exited {
            assert(dv.skip(len as int) =~= Seq::<MessageModel>::empty());
            assert(completions.deep_view() + Seq::<ChapterModel>::empty()
                =~= completions.deep_view());
        } else {
            assert(completions.deep_view() + Seq::<ChapterModel>::empty()
                =~= completions.deep_view());
        }
    }
    (completions, i)
}

/// The prefix a worker consumes ends at the first sentinel: every earlier
/// message is a job, so the worker observes exactly one sentinel before it
/// exits.
pub proof fn lemma_worker_one_sentinel(msgs: Seq<MessageModel>)
    requires
        exists|j: int| 0 <= j < msgs.len() && (#[trigger] msgs[j]) is Sentinel,
    ensures
        1 <= consumed_spec(msgs) <= msgs.len(),
        msgs[consumed_spec(msgs) - 1] is Sentinel,
        forall|j: int| 0 <= j < consumed_spec(msgs) - 1 ==> (#[trigger] msgs[j]) is Job,
        sentinel_count(msgs.take(consumed_spec(msgs))) == 1,
    decreases msgs.len(),
{
    lemma_consumed_bounds(msgs);
    let k = consumed_spec(msgs);
    if msgs.first() is Sentinel {
        assert(k == 1);
        assert(msgs.take(1).drop_last() =~= Seq::<MessageModel>::empty());
        assert(msgs.take(1).last() == msgs[0]);
        assert(sentinel_count(Seq::<MessageModel>::empty()) == 0);
        assert(sentinel_count(msgs.take(1)) == 1);
    } else {
        let tail = msgs.drop_first();
        assert(exists|j: int| 0 <= j < tail.len() && (#[trigger] tail[j]) is Sentinel) by {
            let j0 = choose|j: int| 0 <= j < msgs.len() && (#[trigger] msgs[j]) is Sentinel;
            assert(tail[j0 - 1] == msgs[j0]);
        }
        lemma_worker_one_sentinel(tail);
        assert(k == 1 + consumed_spec(tail));
        assert(msgs[k - 1] == tail[k - 2]);
        assert forall|j: int| 0 <= j < k - 1 implies (#[trigger] msgs[j]) is Job by {
            if j > 0 {
                assert(msgs[j] == tail[j - 1]);
            }
        }
        lemma_sentinel_count_cons(msgs[0], tail.take(consumed_spec(tail)));
        assert(msgs.take(k) =~= seq![msgs[0]] + tail.take(consumed_spec(tail)));
    }
}

/// A worker handed the dispatcher's whole plan — the chapter jobs in order,
/// then at least one sentinel — publishes one completion record per
/// scheduled chapter, in order, and consumes exactly the jobs plus a single
/// sentinel.
pub proof fn lemma_plan_single_worker(plan: Seq<MessageModel>, chapters: Seq<ChapterModel>, w: int)
    requires
        plan.len() == chapters.len() + w,
        w >= 1,
        forall|i: int|
            0 <= i < chapters.len() ==> #[trigger] plan[i] == MessageModel::Job(chapters[i]),
        forall|i: int| chapters.len() <= i < plan.len() ==> #[trigger] plan[i] is Sentinel,
    ensures
        consumed_spec(plan) == chapters.len() + 1,
        completions_spec(plan) == chapters,
    decreases chapters.len(),
{
    if chapters.len() == 0 {
        assert(plan[0] is Sentinel);
        assert(completions_spec(plan) =~= chapters);
    } else {
        let tail = plan.drop_first();
        let ctail = chapters.drop_first();
        assert(plan[0] == MessageModel::Job(chapters[0]));
        assert forall|i: int| 0 <= i < ctail.len() implies #[trigger] tail[i] == MessageModel::Job(
            ctail[i],
        ) by {
            assert(tail[i] == plan[i + 1]);
        }
        assert forall|i: int| ctail.len() <= i < tail.len() implies #[trigger] tail[i]
            is Sentinel by {
            assert(tail[i] == plan[i + 1]);
        }
        lemma_plan_single_worker(tail, ctail, w);
        assert(completions_spec(plan) == seq![chapters[0]] + ctail);
        assert(seq![chapters[0]] + ctail =~= chapters);
    }
}

/// The consumed prefix never exceeds the delivery sequence, and is nonempty
/// when the sequence is.
pub proof fn lemma_consumed_bounds(msgs: Seq<MessageModel>)
    ensures
        0 <= consumed_spec(msgs) <= msgs.len(),
        msgs.len() > 0 ==> consumed_spec(msgs) >= 1,
    decreases msgs.len(),
{
    if msgs.len() > 0 && !(msgs.first() is Sentinel) {
        lemma_consumed_bounds(msgs.drop_first());
    }
}

proof fn lemma_sentinel_count_cons(x: MessageModel, s: Seq<MessageModel>)
    ensures
        sentinel_count(seq![x] + s) == sentinel_count(s) + (if x is Sentinel {
            1int
        } else {
            0int
        }),
    decreases s.len(),
{
    if s.len() == 0 {
        assert(seq![x] + s =~= seq![x]);
        assert(seq![x].drop_last() =~= Seq::<MessageModel>::empty());
        assert(seq![x].last() == x);
        assert(sentinel_count(Seq::<MessageModel>::empty()) == 0);
    } else {
        lemma_sentinel_count_cons(x, s.drop_last());
        assert((seq![x] + s).drop_last() =~= seq![x] + s.drop_last());
        assert((seq![x] + s).last() == s.last());
    }
}

} // verus!
