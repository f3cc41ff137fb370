//! Resharding: grouping a sequence of records into consecutive chunks of
//! at most `max_docs` records, and allocating each chunk a globally
//! unique, monotonically increasing shard id from a shared counter.

use vstd::prelude::*;
use crate::record::{clone_record, clone_records, recs_view, Record};

verus! {

/// How many chunks `n` records form when grouped `m` at a time. Grouping
/// by zero yields no chunks: a no-op, not an error.
pub open spec fn num_chunks(n: nat, m: nat) -> nat {
    if m == 0 {
        0
    } else {
        ((n + m - 1) / (m as int)) as nat
    }
}

/// Where chunk `i` of an `n`-record sequence ends under width `m`.
pub open spec fn chunk_end(n: int, m: int, i: int) -> int {
    if (i + 1) * m < n {
        (i + 1) * m
    } else {
        n
    }
}

/// The allocator of shard ids: hands out consecutive ids starting at the
/// value it was created with, each id exactly once.
#[derive(Debug)]
pub struct ShardCounter {
    pub next_id: usize,
}

impl ShardCounter {
    /// A counter whose first allocated id is 0.
    pub fn new() -> (r: ShardCounter)
        ensures
            r.next_id == 0,
    {
        ShardCounter { next_id: 0 }
    }

    /// Allocates the next id: returns the current value and steps it by
    /// one, so no id is ever handed out twice.
    pub fn take_id(&mut self) -> (id: usize)
        requires
            old(self).next_id < usize::MAX,
        ensures
            id == old(self).next_id,
            final(self).next_id == old(self).next_id + 1,
    {
        let id = self.next_id;
        self.next_id = self.next_id + 1;
        id
    }
}

/// A shard: an ordered group of at most `max_docs` records, and the
/// globally unique id it was allocated.
#[derive(Debug)]
pub struct Shard {
    pub id: usize,
    pub records: Vec<Record>,
}

/// Groups `records` into consecutive chunks of at most `max_docs`
/// records each, in order; the final chunk may be smaller. `max_docs`
/// of zero yields no chunks.
pub fn reshard_chunks(records: &Vec<Record>, max_docs: usize) -> (chunks: Vec<Vec<Record>>)
    ensures
        chunks@.len() == num_chunks(records@.len() as nat, max_docs as nat),
        forall|i: int|
            0 <= i < chunks@.len() ==> recs_view(#[trigger] chunks@[i]@) == recs_view(
                records@,
            ).subrange(i * max_docs, chunk_end(records@.len() as int, max_docs as int, i)),
{
    let mut chunks: Vec<Vec<Record>> = Vec::new();
    if max_docs == 0 {
        return chunks;
    }
    let n = records.len();
    let mut start: usize = 0;
    while start < n
        invariant
            max_docs >= 1,
            n == records@.len(),
            start <= n,
            chunks@.len() == 0 ==> start == 0,
            chunks@.len() >= 1 ==> start == chunk_end(
                n as int,
                max_docs as int,
                chunks@.len() - 1,
            ),
            chunks@.len() >= 1 ==> (chunks@.len() - 1) * max_docs < n,
            forall|i: int|
                0 <= i < chunks@.len() ==> recs_view(#[trigger] chunks@[i]@) == recs_view(
                    records@,
                ).subrange(i * max_docs, chunk_end(n as int, max_docs as int, i)),
        decreases n - start,
    {
        let ghost k = chunks@.len() as int;
        proof {
            if k >= 1 {
                assert(start == chunk_end(n as int, max_docs as int, k - 1));
                assert(start == k * max_docs);
            } else {
                assert(0int * max_docs == 0) by (nonlinear_arith);
            }
            assert(start == k * max_docs);
        }
        let end = if n - start > max_docs {
            start + max_docs
        } else {
            n
        };
        proof {
            assert(end == chunk_end(n as int, max_docs as int, k)) by (nonlinear_arith)
                requires
                    start == k * max_docs,
                    max_docs >= 1,
                    start < n,
                    end == if n - start > max_docs { start + max_docs } else { n as int },
            ;
        }
        let mut chunk: Vec<Record> = Vec::new();
        let mut j: usize = start;
        while j < end
            invariant
                start <= j <= end <= records@.len(),
                chunk@.len() == j - start,
                forall|t: int|
                    0 <= t < chunk@.len() ==> (#[trigger] chunk@[t])@ == records@[start + t]@,
            decreases end - j,
        {
            chunk.push(clone_record(&records[j]));
            j = j + 1;
        }
        proof {
            assert(recs_view(chunk@) =~= recs_view(records@).subrange(
                k * max_docs,
                chunk_end(n as int, max_docs as int, k),
            ));
        }
        chunks.push(chunk);
        start = end;
    }
    proof {
        let k = chunks@.len() as int;
        let m = max_docs as int;
        if k == 0 {
            assert(n == 0);
            lemma_num_chunks_zero(max_docs as nat);
        } else {
            assert(start == chunk_end(n as int, m, k - 1));
            assert(n as int <= k * m);
            assert((n as int + m - 1) / m == k) by (nonlinear_arith)
                requires
                    m >= 1,
                    k >= 1,
                    (k - 1) * m < n as int,
                    n as int <= k * m,
            ;
        }
    }
    chunks
}

/// Grouping zero records yields zero chunks, whatever the width.
pub proof fn lemma_num_chunks_zero(m: nat)
    ensures
        num_chunks(0, m) == 0,
{
    if m > 0 {
        assert((0 + m - 1) / (m as int) == 0) by (nonlinear_arith)
            requires
                m > 0,
        ;
    }
}

/// Groups `records` into chunks of at most `max_docs` and gives each
/// chunk the next id from `counter`: shard `i` of this call gets id
/// `old(counter).next_id + i`, order and content of the records are
/// preserved, and the counter advances by exactly the number of shards.
/// No records means no shards.
pub fn reshard(records: &Vec<Record>, max_docs: usize, counter: &mut ShardCounter) -> (shards: Vec<
    Shard,
>)
    requires
        old(counter).next_id + num_chunks(records@.len() as nat, max_docs as nat) <= usize::MAX,
    ensures
        shards@.len() == num_chunks(records@.len() as nat, max_docs as nat),
        final(counter).next_id == old(counter).next_id + shards@.len(),
        forall|i: int|
            0 <= i < shards@.len() ==> (#[trigger] shards@[i]).id == old(counter).next_id + i,
        forall|i: int|
            0 <= i < shards@.len() ==> recs_view(#[trigger] shards@[i].records@) == recs_view(
                records@,
            ).subrange(i * max_docs, chunk_end(records@.len() as int, max_docs as int, i)),
        records@.len() == 0 ==> shards@.len() == 0,
{
    let chunks = reshard_chunks(records, max_docs);
    let mut shards: Vec<Shard> = Vec::new();
    let mut i: usize = 0;
    while i < chunks.len()
        invariant
            0 <= i <= chunks@.len(),
            old(counter).next_id + chunks@.len() <= usize::MAX,
            counter.next_id == old(counter).next_id + i,
            shards@.len() == i,
            forall|t: int|
                0 <= t < i ==> (#[trigger] shards@[t]).id == old(counter).next_id + t,
            forall|t: int|
                0 <= t < i ==> recs_view((#[trigger] shards@[t]).records@) == recs_view(
                    chunks@[t]@,
                ),
        decreases chunks@.len() - i,
    {
        let id = counter.take_id();
        shards.push(Shard { id, records: clone_records(&chunks[i]) });
        i = i + 1;
    }
    proof {
        if records@.len() == 0 {
            lemma_num_chunks_zero(max_docs as nat);
        }
    }
    shards
}

/// The total number of shards the first `k` files of a run produced,
/// when file `j` produced `counts[j]` shards.
pub open spec fn prefix_total(counts: Seq<nat>, k: int) -> nat
    decreases k,
{
    if k <= 0 {
        0
    } else {
        prefix_total(counts, k - 1) + counts[k - 1]
    }
}

pub proof fn lemma_prefix_total_mono(counts: Seq<nat>, a: int, b: int)
    requires
        0 <= a <= b,
    ensures
        prefix_total(counts, a) <= prefix_total(counts, b),
    decreases b,
{
    if a < b {
        lemma_prefix_total_mono(counts, a, b - 1);
    }
}

/// Uniqueness of shard ids: in a run where every file draws its shard
/// ids from one shared counter, so that file `k` gets the consecutive
/// ids `prefix_total(counts, k) .. prefix_total(counts, k) + counts[k]`,
/// no two distinct shards of the run ever receive the same id, whatever
/// the per-file shard counts were.
pub proof fn lemma_shard_ids_unique(counts: Seq<nat>, k1: int, i1: int, k2: int, i2: int)
    requires
        0 <= k1 < counts.len(),
        0 <= i1 < counts[k1],
        0 <= k2 < counts.len(),
        0 <= i2 < counts[k2],
        k1 != k2 || i1 != i2,
    ensures
        prefix_total(counts, k1) + i1 != prefix_total(counts, k2) + i2,
{
    if k1 == k2 {
    } else if k1 < k2 {
        lemma_prefix_total_mono(counts, k1 + 1, k2);
        assert(prefix_total(counts, k1) + i1 < prefix_total(counts, k1 + 1));
    } else {
        lemma_prefix_total_mono(counts, k2 + 1, k1);
        assert(prefix_total(counts, k2) + i2 < prefix_total(counts, k2 + 1));
    }
}

/// Shard `i` of file `k` carries id `id` in the run described by
/// `counts`.
pub open spec fn id_in_file(counts: Seq<nat>, k: int, i: int, id: nat) -> bool {
    0 <= k < counts.len() && 0 <= i < counts[k] && id == prefix_total(counts, k) + i
}

proof fn lemma_ids_complete_upto(counts: Seq<nat>, m: int, id: nat)
    requires
        0 <= m <= counts.len(),
        id < prefix_total(counts, m),
    ensures
        exists|k: int, i: int| k < m && #[trigger] id_in_file(counts, k, i, id),
    decreases m,
{
    if id >= prefix_total(counts, m - 1) {
        let i = id - prefix_total(counts, m - 1);
        assert(m - 1 < m && id_in_file(counts, m - 1, i, id));
    } else {
        lemma_ids_complete_upto(counts, m - 1, id);
        let (k, i) = choose|k: int, i: int| k < m - 1 && #[trigger] id_in_file(counts, k, i, id);
        assert(k < m && id_in_file(counts, k, i, id));
    }
}

/// Completeness of shard ids: every id below the run's total is the id
/// of some shard, so together with `lemma_shard_ids_unique` the ids of a
/// run are exactly `{0, 1, ..., total - 1}`, with no gaps and no
/// duplicates.
pub proof fn lemma_shard_ids_complete(counts: Seq<nat>, id: nat)
    requires
        id < prefix_total(counts, counts.len() as int),
    ensures
        exists|k: int, i: int| #[trigger] id_in_file(counts, k, i, id),
{
    lemma_ids_complete_upto(counts, counts.len() as int, id);
}

} // verus!
