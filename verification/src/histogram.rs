//! A frequency histogram of trial outcomes.
//!
//! A mapping from final-balance value to occurrence count, accumulated across
//! the trials of a run; keys are unique and insertion order is irrelevant.
//! The governing invariant: the sum of all bucket counts equals the number of
//! outcomes recorded so far. A ranked view sorts the buckets by descending
//! count, ties broken by ascending balance, so the order is deterministic.

use vstd::prelude::*;

verus! {

/// What bucket entry `e` contributes to the count of balance `v`.
pub open spec fn key_count(e: (i64, u64), v: int) -> nat {
    if e.0 == v {
        e.1 as nat
    } else {
        0
    }
}

/// The occurrences of balance `v` recorded in the buckets `s`.
pub open spec fn bucket_count(s: Seq<(i64, u64)>, v: int) -> nat
    decreases s.len(),
{
    if s.len() == 0 {
        0
    } else {
        bucket_count(s.drop_last(), v) + key_count(s.last(), v)
    }
}

/// The sum of all bucket counts in `s`.
pub open spec fn bucket_total(s: Seq<(i64, u64)>) -> nat
    decreases s.len(),
{
    if s.len() == 0 {
        0
    } else {
        bucket_total(s.drop_last()) + s.last().1 as nat
    }
}

/// No two buckets hold the same balance.
pub open spec fn unique_keys(s: Seq<(i64, u64)>) -> bool {
    forall|a: int, b: int| 0 <= a < b < s.len() ==> s[a].0 != s[b].0
}

/// Bucket `a` is ranked no later than bucket `b`: higher counts first, ties
/// broken by ascending balance.
pub open spec fn ranked_before(a: (i64, u64), b: (i64, u64)) -> bool {
    a.1 > b.1 || (a.1 == b.1 && a.0 <= b.0)
}

/// The buckets of `s` stand in ranked order.
pub open spec fn ranked_order(s: Seq<(i64, u64)>) -> bool {
    forall|a: int, b: int| 0 <= a < b < s.len() ==> ranked_before(s[a], s[b])
}

proof fn lemma_push(s: Seq<(i64, u64)>, e: (i64, u64))
    ensures
        bucket_total(s.push(e)) == bucket_total(s) + e.1,
        forall|v: int| bucket_count(s.push(e), v) == bucket_count(s, v) + key_count(e, v),
{
    assert(s.push(e).drop_last() =~= s);
}

proof fn lemma_update(s: Seq<(i64, u64)>, j: int, e: (i64, u64))
    requires
        0 <= j < s.len(),
    ensures
        bucket_total(s.update(j, e)) == bucket_total(s) - s[j].1 + e.1,
        forall|v: int|
            bucket_count(s.update(j, e), v) == bucket_count(s, v) - key_count(s[j], v) + key_count(
                e,
                v,
            ),
    decreases s.len(),
{
    let u = s.update(j, e);
    if j == s.len() - 1 {
        assert(u.drop_last() =~= s.drop_last());
        assert(u.last() == e);
        assert forall|v: int|
            bucket_count(u, v) == bucket_count(s, v) - key_count(s[j], v) + key_count(e, v) by {
            assert(bucket_count(u, v) == bucket_count(u.drop_last(), v) + key_count(u.last(), v));
            assert(bucket_count(s, v) == bucket_count(s.drop_last(), v) + key_count(s.last(), v));
        }
    } else {
        lemma_update(s.drop_last(), j, e);
        assert(u.drop_last() =~= s.drop_last().update(j, e));
        assert(u.last() == s.last());
        assert forall|v: int|
            bucket_count(u, v) == bucket_count(s, v) - key_count(s[j], v) + key_count(e, v) by {
            assert(bucket_count(u, v) == bucket_count(u.drop_last(), v) + key_count(u.last(), v));
            assert(bucket_count(s, v) == bucket_count(s.drop_last(), v) + key_count(s.last(), v));
            assert(bucket_count(s.drop_last().update(j, e), v) == bucket_count(s.drop_last(), v)
                - key_count(s.drop_last()[j], v) + key_count(e, v));
        }
    }
}

proof fn lemma_entry_le_total(s: Seq<(i64, u64)>, j: int)
    requires
        0 <= j < s.len(),
    ensures
        s[j].1 <= bucket_total(s),
    decreases s.len(),
{
    if j == s.len() - 1 {
    } else {
        lemma_entry_le_total(s.drop_last(), j);
    }
}

proof fn lemma_count_le_total(s: Seq<(i64, u64)>, v: int)
    ensures
        bucket_count(s, v) <= bucket_total(s),
    decreases s.len(),
{
    if s.len() > 0 {
        lemma_count_le_total(s.drop_last(), v);
    }
}

proof fn lemma_total_take(s: Seq<(i64, u64)>, j: int)
    requires
        0 <= j <= s.len(),
    ensures
        bucket_total(s.take(j)) <= bucket_total(s),
    decreases s.len() - j,
{
    if j == s.len() {
        assert(s.take(j) =~= s);
    } else {
        assert(s.take(j + 1).drop_last() =~= s.take(j));
        assert(s.take(j + 1).last() == s[j]);
        lemma_total_take(s, j + 1);
    }
}

proof fn lemma_count_take_step(s: Seq<(i64, u64)>, j: int, v: int)
    requires
        0 <= j < s.len(),
    ensures
        bucket_count(s.take(j + 1), v) == bucket_count(s.take(j), v) + key_count(s[j], v),
        bucket_total(s.take(j + 1)) == bucket_total(s.take(j)) + s[j].1,
{
    assert(s.take(j + 1).drop_last() =~= s.take(j));
    assert(s.take(j + 1).last() == s[j]);
}

proof fn lemma_insert(s: Seq<(i64, u64)>, p: int, e: (i64, u64))
    requires
        0 <= p <= s.len(),
    ensures
        bucket_total(s.insert(p, e)) == bucket_total(s) + e.1,
        forall|v: int|
            bucket_count(s.insert(p, e), v) == bucket_count(s, v) + key_count(e, v),
    decreases s.len(),
{
    let n = s.insert(p, e);
    if p == s.len() {
        assert(n =~= s.push(e));
        lemma_push(s, e);
    } else {
        lemma_insert(s.drop_last(), p, e);
        assert(n.drop_last() =~= s.drop_last().insert(p, e));
        assert(n.last() == s.last());
        assert forall|v: int|
            bucket_count(n, v) == bucket_count(s, v) + key_count(e, v) by {
            assert(bucket_count(n, v) == bucket_count(n.drop_last(), v) + key_count(n.last(), v));
            assert(bucket_count(s, v) == bucket_count(s.drop_last(), v) + key_count(s.last(), v));
            assert(bucket_count(s.drop_last().insert(p, e), v) == bucket_count(s.drop_last(), v)
                + key_count(e, v));
        }
    }
}

/// If every balance other than `v` has no occurrences, all recorded outcomes
/// sit in the bucket of `v`.
pub proof fn lemma_single_bucket(s: Seq<(i64, u64)>, v: int)
    requires
        forall|k: int| k != v ==> bucket_count(s, k) == 0,
    ensures
        bucket_count(s, v) == bucket_total(s),
    decreases s.len(),
{
    if s.len() > 0 {
        assert forall|k: int| k != v implies bucket_count(s.drop_last(), k) == 0 by {
            assert(bucket_count(s, k) == 0);
        }
        lemma_single_bucket(s.drop_last(), v);
        if s.last().0 != v {
            assert(bucket_count(s, s.last().0 as int) == 0);
        }
    }
}

/// The frequency histogram of the final balances of a run's trials.
pub struct Histogram {
    entries: Vec<(i64, u64)>,
}

impl Histogram {
    /// The buckets as currently stored; their order carries no meaning (the
    /// ranked view fixes one).
    pub closed spec fn buckets(&self) -> Seq<(i64, u64)> {
        self.entries@
    }

    /// The occurrences recorded for balance `v`.
    pub open spec fn count_of(&self, v: int) -> nat {
        bucket_count(self.buckets(), v)
    }

    /// The sum of all bucket counts.
    pub open spec fn total(&self) -> nat {
        bucket_total(self.buckets())
    }

    /// Keys are unique and the total fits the counter width.
    pub open spec fn wf(&self) -> bool {
        &&& unique_keys(self.buckets())
        &&& self.total() <= u64::MAX
    }

    /// An empty histogram: no buckets, no recorded outcomes.
    pub fn new() -> (h: Histogram)
        ensures
            h.wf(),
            h.total() == 0,
            forall|v: int| h.count_of(v) == 0,
    {
        Histogram { entries: Vec::new() }
    }

    fn find_key(entries: &Vec<(i64, u64)>, key: i64) -> (r: Option<usize>)
        ensures
            match r {
                Some(j) => 0 <= j < entries@.len() && entries@[j as int].0 == key,
                None => forall|t: int| 0 <= t < entries@.len() ==> entries@[t].0 != key,
            },
    {
        let mut j: usize = 0;
        while j < entries.len()
            invariant
                j <= entries@.len(),
                forall|t: int| 0 <= t < j ==> entries@[t].0 != key,
            decreases entries@.len() - j,
        {
            if entries[j].0 == key {
                return Some(j);
            }
            j = j + 1;
        }
        None
    }

    /// Records one trial outcome: the bucket for `outcome` grows by one
    /// occurrence (created at count one if new); every other bucket is
    /// untouched, and the sum of all counts grows by exactly one.
    pub fn record(&mut self, outcome: i64)
        requires
            old(self).wf(),
            old(self).total() < u64::MAX,
        ensures
            final(self).wf(),
            final(self).total() == old(self).total() + 1,
            final(self).count_of(outcome as int) == old(self).count_of(outcome as int) + 1,
            forall|v: int|
                v != outcome as int ==> final(self).count_of(v) == old(self).count_of(v),
    {
        let ghost s = self.entries@;
        match Self::find_key(&self.entries, outcome) {
            Some(j) => {
                proof {
                    lemma_entry_le_total(s, j as int);
                }
                let grown = self.entries[j].1 + 1;
                let _removed = self.entries.swap_remove(j);
                self.entries.push((outcome, grown));
                proof {
                    let jj = j as int;
                    let u = s.update(jj, s.last());
                    let shrunk = u.drop_last();
                    lemma_update(s, jj, s.last());
                    assert(u.last() == s.last());
                    assert(bucket_total(u) == bucket_total(shrunk) + u.last().1 as nat);
                    assert forall|v: int|
                        bucket_count(shrunk, v) == bucket_count(s, v) - key_count(s[jj], v) by {
                        assert(bucket_count(u, v) == bucket_count(shrunk, v) + key_count(
                            u.last(),
                            v,
                        ));
                    }
                    lemma_push(shrunk, (outcome, grown));
                    let n2 = shrunk.push((outcome, grown));
                    assert(self.entries@ =~= n2);
                    assert forall|a: int, b: int|
                        0 <= a < b < n2.len() implies n2[a].0 != n2[b].0 by {
                        let la = if a == jj {
                            s.len() - 1
                        } else {
                            a
                        };
                        assert(n2[a] == shrunk[a]);
                        assert(shrunk[a] == s[la]);
                        assert(la != jj);
                        if b == n2.len() - 1 {
                            assert(n2[b].0 == s[jj].0);
                            assert(s[la].0 != s[jj].0);
                        } else {
                            let lb = if b == jj {
                                s.len() - 1
                            } else {
                                b
                            };
                            assert(n2[b] == shrunk[b]);
                            assert(shrunk[b] == s[lb]);
                            assert(la != lb);
                            assert(s[la].0 != s[lb].0);
                        }
                    }
                }
            },
            None => {
                self.entries.push((outcome, 1));
                proof {
                    lemma_push(s, (outcome, 1));
                }
            },
        }
    }

    /// The occurrences recorded for `outcome`, as a machine integer.
    pub fn count_for(&self, outcome: i64) -> (c: u64)
        requires
            self.wf(),
        ensures
            c as nat == self.count_of(outcome as int),
    {
        let ghost s = self.entries@;
        let mut acc: u64 = 0;
        let mut j: usize = 0;
        while j < self.entries.len()
            invariant
                self.wf(),
                s == self.entries@,
                j <= s.len(),
                acc as nat == bucket_count(s.take(j as int), outcome as int),
                bucket_total(s.take(j as int)) <= u64::MAX,
                acc as nat <= bucket_total(s.take(j as int)),
            decreases s.len() - j,
        {
            proof {
                lemma_count_take_step(s, j as int, outcome as int);
                lemma_total_take(s, j as int + 1);
                lemma_count_le_total(s.take(j as int + 1), outcome as int);
            }
            if self.entries[j].0 == outcome {
                acc = acc + self.entries[j].1;
            }
            j = j + 1;
        }
        proof {
            assert(s.take(s.len() as int) =~= s);
        }
        acc
    }

    /// The number of distinct balances recorded.
    pub fn bucket_len(&self) -> (n: usize)
        ensures
            n == self.buckets().len(),
    {
        self.entries.len()
    }

    fn comes_before(a: (i64, u64), b: (i64, u64)) -> (r: bool)
        ensures
            r == ranked_before(a, b),
    {
        a.1 > b.1 || (a.1 == b.1 && a.0 <= b.0)
    }

    fn find_position(out: &Vec<(i64, u64)>, e: (i64, u64)) -> (p: usize)
        ensures
            p <= out@.len(),
            forall|t: int| 0 <= t < p ==> ranked_before(out@[t], e),
            p < out@.len() ==> !ranked_before(out@[p as int], e),
    {
        let mut p: usize = 0;
        while p < out.len()
            invariant
                p <= out@.len(),
                forall|t: int| 0 <= t < p ==> ranked_before(out@[t], e),
            decreases out@.len() - p,
        {
            if !Self::comes_before(out[p], e) {
                return p;
            }
            p = p + 1;
        }
        p
    }

    /// The ranked view of the histogram: the same buckets, sorted by
    /// descending count, ties broken by ascending balance.
    pub fn ranked(&self) -> (out: Vec<(i64, u64)>)
        ensures
            ranked_order(out@),
            bucket_total(out@) == self.total(),
            forall|v: int| bucket_count(out@, v) == self.count_of(v),
            out@.len() == self.buckets().len(),
    {
        let ghost s = self.entries@;
        let mut out: Vec<(i64, u64)> = Vec::new();
        let mut i: usize = 0;
        while i < self.entries.len()
            invariant
                s == self.entries@,
                i <= s.len(),
                out@.len() == i,
                ranked_order(out@),
                bucket_total(out@) == bucket_total(s.take(i as int)),
                forall|v: int| bucket_count(out@, v) == bucket_count(s.take(i as int), v),
            decreases s.len() - i,
        {
            let e = self.entries[i];
            let ghost before = out@;
            let p = Self::find_position(&out, e);
            out.insert(p, e);
            proof {
                let q = p as int;
                lemma_insert(before, q, e);
                lemma_count_take_step(s, i as int, 0);
                assert forall|v: int|
                    bucket_count(out@, v) == bucket_count(s.take(i as int + 1), v) by {
                    lemma_count_take_step(s, i as int, v);
                }
                assert forall|a: int, b: int|
                    0 <= a < b < out@.len() implies ranked_before(out@[a], out@[b]) by {
                    if b < q {
                        assert(out@[a] == before[a]);
                        assert(out@[b] == before[b]);
                        assert(ranked_before(before[a], before[b]));
                    } else if b == q {
                        assert(out@[a] == before[a]);
                        assert(out@[b] == e);
                    } else if a < q {
                        assert(out@[a] == before[a]);
                        assert(out@[b] == before[b - 1]);
                        assert(ranked_before(before[a], before[b - 1]));
                    } else if a == q {
                        assert(out@[b] == before[b - 1]);
                        assert(!ranked_before(before[q], e));
                        if b - 1 > q {
                            assert(ranked_before(before[q], before[b - 1]));
                        }
                    } else {
                        assert(out@[a] == before[a - 1]);
                        assert(out@[b] == before[b - 1]);
                        assert(ranked_before(before[a - 1], before[b - 1]));
                    }
                }
            }
            i = i + 1;
        }
        proof {
            assert(s.take(s.len() as int) =~= s);
        }
        out
    }
}

} // verus!
