use vstd::prelude::*;

use vstd::arithmetic::div_mod::lemma_fundamental_div_mod;

use crate::models::Chapter;

verus! {

/// The batch views of a batch list.
pub open spec fn batch_views<T>(batches: Seq<Vec<T>>) -> Seq<Seq<T>> {
    batches.map_values(|b: Vec<T>| b@)
}

/// The concatenation of a list of sequences taken from last to first.
pub open spec fn concat_rev<T>(bs: Seq<Seq<T>>) -> Seq<T>
    decreases bs.len(),
{
    if bs.len() == 0 {
        Seq::empty()
    } else {
        bs.last() + concat_rev(bs.drop_last())
    }
}

/// Splits `jobs` into `num_batches` batches, taken from the back: the first
/// `jobs.len() % num_batches` batches get one extra element. `jobs` is left
/// empty; the batches, concatenated from the last batch to the first, are
/// exactly the original jobs. When there are fewer jobs than batches, only
/// one singleton batch per job is produced.
pub fn split_jobs<T: Clone>(jobs: &mut Vec<T>, num_batches: usize) -> (batches: Vec<Vec<T>>)
    requires
        num_batches >= 1,
    ensures
        final(jobs)@.len() == 0,
        batches@.len() == if old(jobs)@.len() < num_batches {
            old(jobs)@.len() as int
        } else {
            num_batches as int
        },
        concat_rev(batch_views(batches@)) == old(jobs)@,
        forall|k: int|
            0 <= k < (old(jobs)@.len() as int) % (num_batches as int) ==> (
            #[trigger] batches@[k])@.len() == (old(jobs)@.len() as int) / (num_batches as int)
                + 1,
        forall|k: int|
            (old(jobs)@.len() as int) % (num_batches as int) <= k < batches@.len() ==> (
            #[trigger] batches@[k])@.len() == (old(jobs)@.len() as int) / (num_batches as int),
{
    let ghost orig = old(jobs)@;
    let ghost n = old(jobs)@.len() as int;
    let ghost nb = num_batches as int;
    let n_exec = jobs.len();

    let chunk_size = n_exec / num_batches;
    let remainder = n_exec % num_batches;
    let ghost chunk = chunk_size as int;
    let ghost rem = remainder as int;

    proof {
        lemma_fundamental_div_mod(n, nb);
        assert(rem * (chunk + 1) + (nb - rem) * chunk == n) by (nonlinear_arith)
            requires
                n == nb * chunk + rem,
                0 <= rem < nb;
    }

    let mut batches: Vec<Vec<T>> = Vec::new();
    let mut taken: usize = 0;
    while taken < remainder
        invariant
            0 <= taken <= remainder,
            rem == remainder as int,
            chunk == chunk_size as int,
            n == orig.len(),
            rem * (chunk + 1) + (nb - rem) * chunk == n,
            0 <= rem < nb,
            chunk >= 0,
            batches@.len() == taken as int,
            jobs@.len() == n - (taken as int) * (chunk + 1),
            jobs@.len() <= n,
            jobs@ == orig.take(jobs@.len() as int),
            concat_rev(batch_views(batches@)) == orig.skip(jobs@.len() as int),
            forall|k: int| 0 <= k < taken as int ==> (#[trigger] batches@[k])@.len() == chunk + 1,
        decreases remainder - taken,
    {
        proof {
            assert(jobs@.len() >= (rem - (taken as int)) * (chunk + 1)) by (nonlinear_arith)
                requires
                    jobs@.len() == n - (taken as int) * (chunk + 1),
                    rem * (chunk + 1) + (nb - rem) * chunk == n,
                    0 <= (taken as int) < rem < nb,
                    chunk >= 0;
            assert(jobs@.len() >= chunk + 1) by (nonlinear_arith)
                requires
                    jobs@.len() >= (rem - (taken as int)) * (chunk + 1),
                    (taken as int) < rem,
                    chunk >= 0;
            assert(((taken as int) + 1) * (chunk + 1) == (taken as int) * (chunk + 1) + (chunk
                + 1)) by (nonlinear_arith);
        }
        let ghost jobs_before = jobs@;
        let ghost prev_bv = batch_views(batches@);
        let at = jobs.len() - (chunk_size + 1);
        let batch = jobs.split_off(at);
        proof {
            assert(jobs@ =~= orig.take(jobs@.len() as int));
            assert(batch@ =~= orig.subrange(jobs@.len() as int, jobs_before.len() as int));
        }
        batches.push(batch);
        proof {
            let bv = batch_views(batches@);
            assert(bv =~= prev_bv.push(batch@));
            assert(bv.drop_last() =~= prev_bv);
            assert(concat_rev(bv) == batch@ + concat_rev(prev_bv));
            assert(batch@ + orig.skip(jobs_before.len() as int) =~= orig.skip(jobs@.len() as int));
        }
        taken = taken + 1;
    }
    proof {
        if chunk == 0 {
            assert(rem * (chunk + 1) == rem && (nb - rem) * chunk == 0) by (nonlinear_arith)
                requires
                    chunk == 0;
            assert(jobs@.len() == 0);
        } else {
            assert(jobs@.len() == (nb - rem) * chunk) by (nonlinear_arith)
                requires
                    jobs@.len() == n - rem * (chunk + 1),
                    rem * (chunk + 1) + (nb - rem) * chunk == n;
        }
    }
    while jobs.len() > 0
        invariant
            chunk == chunk_size as int,
            n == orig.len(),
            0 <= rem < nb,
            chunk >= 0,
            rem <= batches@.len() <= nb,
            chunk >= 1 ==> jobs@.len() == (nb - batches@.len()) * chunk,
            chunk == 0 ==> jobs@.len() == 0 && batches@.len() == rem,
            jobs@.len() <= n,
            jobs@ == orig.take(jobs@.len() as int),
            concat_rev(batch_views(batches@)) == orig.skip(jobs@.len() as int),
            forall|k: int| 0 <= k < rem ==> (#[trigger] batches@[k])@.len() == chunk + 1,
            forall|k: int|
                rem <= k < batches@.len() ==> (#[trigger] batches@[k])@.len() == chunk,
        decreases jobs@.len(),
    {
        proof {
            assert(chunk >= 1);
            assert(jobs@.len() >= chunk) by (nonlinear_arith)
                requires
                    jobs@.len() == (nb - batches@.len()) * chunk,
                    jobs@.len() > 0,
                    chunk >= 1,
                    batches@.len() <= nb;
            assert(batches@.len() < nb) by (nonlinear_arith)
                requires
                    jobs@.len() == (nb - batches@.len()) * chunk,
                    jobs@.len() > 0,
                    chunk >= 1;
            assert((nb - batches@.len()) * chunk - chunk == (nb - (batches@.len() + 1)) * chunk)
                by (nonlinear_arith);
        }
        let ghost jobs_before = jobs@;
        let ghost prev_bv = batch_views(batches@);
        let at = jobs.len() - chunk_size;
        let batch = jobs.split_off(at);
        proof {
            assert(jobs@ =~= orig.take(jobs@.len() as int));
            assert(batch@ =~= orig.subrange(jobs@.len() as int, jobs_before.len() as int));
        }
        batches.push(batch);
        proof {
            let bv = batch_views(batches@);
            assert(bv =~= prev_bv.push(batch@));
            assert(bv.drop_last() =~= prev_bv);
            assert(concat_rev(bv) == batch@ + concat_rev(prev_bv));
            assert(batch@ + orig.skip(jobs_before.len() as int) =~= orig.skip(jobs@.len() as int));
        }
    }
    proof {
        assert(orig.skip(0) =~= orig);
        if chunk >= 1 {
            assert(batches@.len() == nb) by (nonlinear_arith)
                requires
                    0 == (nb - batches@.len()) * chunk,
                    chunk >= 1,
                    batches@.len() <= nb;
            assert(n >= nb) by (nonlinear_arith)
                requires
                    n == nb * chunk + rem,
                    chunk >= 1,
                    rem >= 0,
                    nb >= 1;
        } else {
            assert(rem * (chunk + 1) == rem && (nb - rem) * chunk == 0) by (nonlinear_arith)
                requires
                    chunk == 0;
            assert(n == rem);
        }
    }
    batches
}

/// The user-selected sub-range of the chapter list: `first` is the index of
/// the first chapter to download, `last` the index of the last one counted
/// within the remaining chapters, exactly as the two selection prompts
/// report them.
pub fn select_range(chapters: Vec<Chapter>, first: usize, last: usize) -> (r: Vec<Chapter>)
    requires
        first < chapters@.len(),
        last < chapters@.len() - first,
    ensures
        r.deep_view() == chapters.deep_view().subrange(first as int, first + last + 1),
{
    let ghost orig = chapters@;
    let ghost orig_dv = chapters.deep_view();
    let mut chapters = chapters;
    let total = chapters.len();
    let mut rest = chapters.split_off(first);
    rest.truncate(last + 1);
    proof {
        assert forall|k: int| 0 <= k < rest@.len() implies rest.deep_view()[k] == orig_dv.subrange(
            first as int,
            first + last + 1,
        )[k] by {
            assert(rest@[k] == orig[first + k]);
        }
        assert(rest.deep_view() =~= orig_dv.subrange(first as int, first + last + 1));
    }
    rest
}

} // verus!
