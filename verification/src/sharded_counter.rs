//! A counter spread over shards: increments go to the shards in turn and
//! the total is their sum.
use vstd::prelude::*;

verus! {

/// Number of shards for statistics counters.
pub const STATS_SHARDS: usize = 64;

/// Sharded counter: increments are distributed round-robin over the shards.
#[derive(Debug)]
pub struct ShardedCounter {
    shards: Vec<u64>,
    /// The shard the next increment goes to (modulo the shard count)
    cursor: u64,
}

/// The sum of a list of counts.
pub open spec fn seq_sum(s: Seq<u64>) -> nat
    decreases s.len(),
{
    if s.len() == 0 {
        0
    } else {
        seq_sum(s.drop_last()) + s.last() as nat
    }
}

proof fn lemma_seq_sum_update(s: Seq<u64>, i: int, v: u64)
    requires
        0 <= i < s.len(),
    ensures
        seq_sum(s.update(i, v)) + s[i] == seq_sum(s) + v,
    decreases s.len(),
{
    if i < s.len() - 1 {
        lemma_seq_sum_update(s.drop_last(), i, v);
        assert(s.update(i, v).drop_last() =~= s.drop_last().update(i, v));
    } else {
        assert(s.update(i, v).drop_last() =~= s.drop_last());
    }
}

proof fn lemma_seq_sum_bound(s: Seq<u64>, i: int)
    requires
        0 <= i < s.len(),
    ensures
        s[i] <= seq_sum(s),
    decreases s.len(),
{
    if i < s.len() - 1 {
        lemma_seq_sum_bound(s.drop_last(), i);
    }
}

proof fn lemma_seq_sum_zeros(s: Seq<u64>)
    requires
        forall|i: int| 0 <= i < s.len() ==> s[i] == 0,
    ensures
        seq_sum(s) == 0,
    decreases s.len(),
{
    if s.len() > 0 {
        lemma_seq_sum_zeros(s.drop_last());
    }
}

impl ShardedCounter {
    /// The counter's total.
    pub closed spec fn total(&self) -> nat {
        seq_sum(self.shards@)
    }

    /// The counter keeps its shards.
    pub closed spec fn inv(&self) -> bool {
        self.shards@.len() == STATS_SHARDS
    }

    /// Create a new sharded counter with all shards at 0.
    pub fn new() -> (c: Self)
        ensures
            c.inv(),
            c.total() == 0,
    {
        let mut shards: Vec<u64> = Vec::new();
        let mut i: usize = 0;
        while i < STATS_SHARDS
            invariant
                i <= STATS_SHARDS,
                shards@.len() == i,
                forall|j: int| 0 <= j < i ==> shards@[j] == 0,
            decreases STATS_SHARDS - i,
        {
            shards.push(0);
            i = i + 1;
        }
        proof {
            lemma_seq_sum_zeros(shards@);
        }
        Self { shards, cursor: 0 }
    }

    /// Increment one shard, the shards taken in turn; the total grows by one
    /// unless it is already at the largest 64-bit value.
    pub fn increment(&mut self)
        requires
            old(self).inv(),
        ensures
            final(self).inv(),
            old(self).total() < u64::MAX ==> final(self).total() == old(self).total() + 1,
    {
        let shard_idx = (self.cursor % (STATS_SHARDS as u64)) as usize;
        self.cursor = self.cursor.wrapping_add(1);
        let v = self.shards[shard_idx];
        proof {
            lemma_seq_sum_bound(self.shards@, shard_idx as int);
        }
        let nv = v.wrapping_add(1);
        let ghost before = self.shards@;
        self.shards.set(shard_idx, nv);
        proof {
            lemma_seq_sum_update(before, shard_idx as int, nv);
        }
    }

    /// Sum all shards to get the total count (wrapping around, as the
    /// release build's sum does).
    pub fn sum(&self) -> (r: u64)
        requires
            self.inv(),
        ensures
            r == self.total() % 0x1_0000_0000_0000_0000,
            self.total() <= u64::MAX ==> r == self.total(),
    {
        let mut total: u64 = 0;
        let mut i: usize = 0;
        while i < self.shards.len()
            invariant
                i <= self.shards@.len(),
                total == seq_sum(self.shards@.subrange(0, i as int)) % 0x1_0000_0000_0000_0000,
            decreases self.shards@.len() - i,
        {
            let ghost p = seq_sum(self.shards@.subrange(0, i as int));
            let v = self.shards[i];
            proof {
                assert(self.shards@.subrange(0, i + 1).drop_last() =~= self.shards@.subrange(0, i as int));
                assert(seq_sum(self.shards@.subrange(0, i + 1)) == p + v);
                vstd::arithmetic::div_mod::lemma_add_mod_noop(p as int, v as int, 0x1_0000_0000_0000_0000);
                vstd::arithmetic::div_mod::lemma_small_mod(v as nat, 0x1_0000_0000_0000_0000);
                if (total as int) + (v as int) >= 0x1_0000_0000_0000_0000 {
                    vstd::arithmetic::div_mod::lemma_mod_add_multiples_vanish(
                        (total as int) + (v as int) - 0x1_0000_0000_0000_0000,
                        0x1_0000_0000_0000_0000,
                    );
                    vstd::arithmetic::div_mod::lemma_small_mod(
                        ((total as int) + (v as int) - 0x1_0000_0000_0000_0000) as nat,
                        0x1_0000_0000_0000_0000,
                    );
                } else {
                    vstd::arithmetic::div_mod::lemma_small_mod(
                        ((total as int) + (v as int)) as nat,
                        0x1_0000_0000_0000_0000,
                    );
                }
            }
            total = total.wrapping_add(v);
            i = i + 1;
        }
        assert(self.shards@.subrange(0, self.shards@.len() as int) =~= self.shards@);
        proof {
            if self.total() <= u64::MAX {
                vstd::arithmetic::div_mod::lemma_small_mod(self.total(), 0x1_0000_0000_0000_0000);
            }
        }
        total
    }
}

proof fn lemma_prefix_sum_le(s: Seq<u64>, k: int)
    requires
        0 <= k <= s.len(),
    ensures
        seq_sum(s.subrange(0, k)) <= seq_sum(s),
    decreases s.len() - k,
{
    if k < s.len() {
        lemma_prefix_sum_le(s, k + 1);
        assert(s.subrange(0, k + 1).drop_last() =~= s.subrange(0, k));
    } else {
        assert(s.subrange(0, k) =~= s);
    }
}

impl Default for ShardedCounter {
    fn default() -> (c: Self)
        ensures
            c.inv(),
            c.total() == 0,
    {
        Self::new()
    }
}

} // verus!
