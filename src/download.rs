//! Batched downloading: which plans run together, and the progress reported
//! as transfers complete. Progress counts only the bytes of completed
//! transfers, so it rises in steps.

use vstd::prelude::*;
use crate::resource::ModDownloadInfo;

verus! {

/// The planned sizes of the first `n` plans added up.
pub open spec fn sum_sizes(plans: Seq<ModDownloadInfo>) -> nat
    decreases plans.len(),
{
    if plans.len() == 0 {
        0
    } else {
        sum_sizes(plans.drop_last()) + plans.last().size as nat
    }
}

/// The total planned size of the downloads, or `None` when it exceeds `u64::MAX`.
pub fn total_size(plans: &Vec<ModDownloadInfo>) -> (r: Option<u64>)
    ensures
        match r {
            Some(t) => t == sum_sizes(plans@),
            None => sum_sizes(plans@) > u64::MAX,
        },
{
    let mut total: u64 = 0;
    let mut i: usize = 0;
    while i < plans.len()
        invariant
            0 <= i <= plans@.len(),
            total == sum_sizes(plans@.take(i as int)),
        decreases plans.len() - i,
    {
        proof {
            assert(plans@.take(i + 1).drop_last() =~= plans@.take(i as int));
        }
        let size = plans[i].size as u64;
        if total > u64::MAX - size {
            proof {
                lemma_sum_sizes_prefix(plans@, i + 1);
            }
            return None;
        }
        total = total + size;
        i = i + 1;
    }
    proof {
        assert(plans@.take(i as int) =~= plans@);
    }
    Some(total)
}

/// A prefix never adds up to more than the whole.
proof fn lemma_sum_sizes_prefix(plans: Seq<ModDownloadInfo>, k: int)
    requires
        0 <= k <= plans.len(),
    ensures
        sum_sizes(plans.take(k)) <= sum_sizes(plans),
    decreases plans.len(),
{
    if k == plans.len() {
        assert(plans.take(k) =~= plans);
    } else {
        assert(plans.drop_last().take(k) =~= plans.take(k));
        lemma_sum_sizes_prefix(plans.drop_last(), k);
    }
}

/// The batches of `n` transfers with at most `limit` in each: consecutive
/// ranges `[start, end)` from 0 to `n`, each full but the last.
pub open spec fn is_batching(r: Seq<(usize, usize)>, n: int, limit: int) -> bool {
    &&& (n == 0 <==> r.len() == 0)
    &&& r.len() > 0 ==> r[0].0 == 0 && r.last().1 == n
    &&& forall|k: int| 0 <= k < r.len() ==> (#[trigger] r[k]).0 < r[k].1 && r[k].1 - r[k].0 <= limit
    &&& forall|k: int| 0 <= k < r.len() - 1 ==> (#[trigger] r[k]).1 == r[k + 1].0 && r[k].1 - r[k].0 == limit
}

/// Splits `n` transfers into batches of `limit`; a batch finishes entirely
/// before the next one starts.
pub fn batch_ranges(n: usize, limit: usize) -> (r: Vec<(usize, usize)>)
    requires
        limit > 0,
    ensures
        is_batching(r@, n as int, limit as int),
{
    let mut r: Vec<(usize, usize)> = Vec::new();
    let mut start: usize = 0;
    while start < n
        invariant
            limit > 0,
            0 <= start <= n,
            start == 0 <==> r@.len() == 0,
            r@.len() > 0 ==> r@[0].0 == 0 && r@.last().1 == start,
            r@.len() > 0 && start < n ==> r@.last().1 - r@.last().0 == limit,
            forall|k: int| 0 <= k < r@.len() ==> (#[trigger] r@[k]).0 < r@[k].1 && r@[k].1 - r@[k].0 <= limit,
            forall|k: int|
                0 <= k < r@.len() - 1 ==> (#[trigger] r@[k]).1 == r@[k + 1].0 && r@[k].1 - r@[k].0
                    == limit,
        decreases n - start,
    {
        let end = if n - start > limit {
            start + limit
        } else {
            n
        };
        let ghost before = r@;
        r.push((start, end));
        proof {
            assert forall|k: int| 0 <= k < r@.len() - 1 implies (#[trigger] r@[k]).1 == r@[k + 1].0
                && r@[k].1 - r@[k].0 == limit by {
                if k < before.len() - 1 {
                    assert(r@[k] == before[k]);
                    assert(r@[k + 1] == before[k + 1]);
                } else {
                    assert(r@[k] == before.last());
                }
            }
        }
        start = end;
    }
    r
}

/// Progress of a download, counted in bytes of completed transfers.
#[derive(Clone, Copy, Debug, PartialEq, Eq, Structural)]
pub struct DownloadProgress {
    pub total: u64,
    pub completed: u64,
}

impl DownloadProgress {
    /// Nothing completed yet out of `total` bytes.
    pub fn new(total: u64) -> (r: DownloadProgress)
        ensures
            r == (DownloadProgress { total, completed: 0 }),
    {
        DownloadProgress { total, completed: 0 }
    }

    /// Records a completed transfer of `size` bytes.
    pub fn complete(&mut self, size: u64)
        requires
            old(self).completed + size <= old(self).total,
        ensures
            final(self).total == old(self).total,
            final(self).completed == old(self).completed + size,
    {
        self.completed = self.completed + size;
    }

    /// The completed part, in ten-thousandths: `completed * 10000 / total`
    /// rounded down; a download of nothing counts as complete.
    pub fn fraction(&self) -> (r: u32)
        requires
            self.completed <= self.total,
        ensures
            r == fraction_of(self.completed as int, self.total as int),
    {
        if self.total == 0 {
            return 10000;
        }
        let wide = (self.completed as u128) * 10000 / (self.total as u128);
        proof {
            assert((self.completed as int * 10000) / (self.total as int) <= 10000) by (nonlinear_arith)
                requires
                    self.completed <= self.total,
                    self.total > 0,
            ;
        }
        wide as u32
    }
}

/// The bytes of the first completed transfers added up.
pub open spec fn completed_bytes(sizes: Seq<u64>) -> nat
    decreases sizes.len(),
{
    if sizes.len() == 0 {
        0
    } else {
        completed_bytes(sizes.drop_last()) + sizes.last() as nat
    }
}

/// The progress reported for `completed` of `total` bytes, in ten-thousandths.
pub open spec fn fraction_of(completed: int, total: int) -> int {
    if total == 0 {
        10000
    } else {
        completed * 10000 / total
    }
}

proof fn lemma_completed_bytes_prefix(sizes: Seq<u64>, k: int)
    requires
        0 <= k <= sizes.len(),
    ensures
        completed_bytes(sizes.take(k)) <= completed_bytes(sizes),
    decreases sizes.len(),
{
    if k == sizes.len() {
        assert(sizes.take(k) =~= sizes);
    } else {
        assert(sizes.drop_last().take(k) =~= sizes.take(k));
        lemma_completed_bytes_prefix(sizes.drop_last(), k);
    }
}

/// Reported progress counts the bytes of completed transfers only: after the
/// first `k` transfers of a download complete, in whatever order the sizes
/// come, the fraction is their bytes over the total; it never goes down as
/// more transfers complete, and it is full once all planned bytes are in.
pub proof fn lemma_progress_counts_completed(sizes: Seq<u64>, total: int, k: int, j: int)
    requires
        0 <= k <= j <= sizes.len(),
        completed_bytes(sizes) <= total,
    ensures
        fraction_of(completed_bytes(sizes.take(k)) as int, total) <= fraction_of(
            completed_bytes(sizes.take(j)) as int,
            total,
        ),
        fraction_of(completed_bytes(sizes.take(j)) as int, total) <= 10000,
        completed_bytes(sizes) == total ==> fraction_of(completed_bytes(sizes) as int, total) == 10000,
{
    let t = sizes.take(j);
    assert(t.take(k) =~= sizes.take(k));
    lemma_completed_bytes_prefix(t, k);
    lemma_completed_bytes_prefix(sizes, j);
    let a = completed_bytes(sizes.take(k)) as int;
    let b = completed_bytes(t) as int;
    if total > 0 {
        assert(a * 10000 / total <= b * 10000 / total) by (nonlinear_arith)
            requires
                0 <= a <= b,
                total > 0,
        ;
        assert(b * 10000 / total <= 10000) by (nonlinear_arith)
            requires
                0 <= b <= total,
                total > 0,
        ;
        if completed_bytes(sizes) == total {
            assert(total * 10000 / total == 10000) by (nonlinear_arith)
                requires
                    total > 0,
            ;
        }
    }
}

} // verus!
