//! The share aggregator: how many shares each worker has submitted.

use vstd::prelude::*;

verus! {

/// One worker and the number of its shares.
#[derive(Debug)]
pub struct WorkerShares {
    pub name: String,
    pub shares: u64,
}

/// Share counts by worker. Each worker is held once, in the order in which
/// the workers were first seen; a count only ever grows.
#[derive(Debug)]
pub struct ShareCounts {
    entries: Vec<WorkerShares>,
    total: u64,
}

/// Whether `es` holds the name `key` at position `i`.
pub open spec fn holds_at(es: Seq<WorkerShares>, key: Seq<char>, i: int) -> bool {
    0 <= i < es.len() && es[i].name@ == key
}

/// No name occurs twice in `es`.
pub open spec fn names_distinct(es: Seq<WorkerShares>) -> bool {
    forall|i: int, j: int| 0 <= i < j < es.len() ==> es[i].name@ != es[j].name@
}

/// The counts that `es` lists: a worker is known where some entry names it,
/// and its count is that entry's.
pub open spec fn counts_of(es: Seq<WorkerShares>) -> Map<Seq<char>, nat> {
    Map::new(
        |key: Seq<char>| exists|i: int| holds_at(es, key, i),
        |key: Seq<char>| es[choose|i: int| holds_at(es, key, i)].shares as nat,
    )
}

/// Whether `es` lists exactly the counts `m`, each worker once.
pub open spec fn lists(es: Seq<WorkerShares>, m: Map<Seq<char>, nat>) -> bool {
    names_distinct(es) && counts_of(es) == m
}

/// The count of `key` in `m`: zero for a worker never recorded.
pub open spec fn count_in(m: Map<Seq<char>, nat>, key: Seq<char>) -> nat {
    if m.contains_key(key) {
        m[key]
    } else {
        0
    }
}

/// The counts after one more share of `key`.
pub open spec fn recorded(m: Map<Seq<char>, nat>, key: Seq<char>) -> Map<Seq<char>, nat> {
    m.insert(key, count_in(m, key) + 1)
}

/// With distinct names, the entry that holds a name decides its count.
pub proof fn lemma_count_at(es: Seq<WorkerShares>, i: int)
    requires
        names_distinct(es),
        0 <= i < es.len(),
    ensures
        counts_of(es).contains_key(es[i].name@),
        counts_of(es)[es[i].name@] == es[i].shares,
{
    let key = es[i].name@;
    assert(holds_at(es, key, i));
    let j = choose|j: int| holds_at(es, key, j);
    assert(holds_at(es, key, j));
    assert(i == j);
}

impl ShareCounts {
    /// The counts as a map from worker to number of shares.
    pub closed spec fn view(&self) -> Map<Seq<char>, nat> {
        counts_of(self.entries@)
    }

    /// The number of shares recorded in all.
    pub closed spec fn total(&self) -> nat {
        self.total as nat
    }

    /// Each worker is held once, with at least one share and no more than
    /// were recorded in all.
    pub closed spec fn wf(&self) -> bool {
        &&& names_distinct(self.entries@)
        &&& forall|i: int|
            0 <= i < self.entries@.len() ==> 1 <= (#[trigger] self.entries@[i]).shares
                <= self.total
    }

    /// No counts yet.
    pub fn new() -> (c: ShareCounts)
        ensures
            c.wf(),
            c@ == Map::<Seq<char>, nat>::empty(),
            c.total() == 0,
    {
        let c = ShareCounts { entries: Vec::new(), total: 0 };
        assert(c@ =~= Map::<Seq<char>, nat>::empty());
        c
    }

    /// No count exceeds the number of shares recorded in all, and a worker
    /// that is known has at least one share.
    pub proof fn lemma_bounds(&self, key: Seq<char>)
        requires
            self.wf(),
        ensures
            count_in(self@, key) <= self.total(),
            self@.contains_key(key) ==> self@[key] >= 1,
    {
        if self@.contains_key(key) {
            let i = choose|i: int| holds_at(self.entries@, key, i);
            assert(holds_at(self.entries@, key, i));
            assert(1 <= self.entries@[i].shares <= self.total);
        }
    }

    /// Where `worker` is held, if it is.
    fn position(&self, worker: &String) -> (r: Option<usize>)
        requires
            self.wf(),
        ensures
            match r {
                Some(i) => holds_at(self.entries@, worker@, i as int),
                None => !self@.contains_key(worker@),
            },
    {
        let mut i: usize = 0;
        while i < self.entries.len()
            invariant
                i <= self.entries.len(),
                forall|j: int| 0 <= j < i ==> self.entries@[j].name@ != worker@,
            decreases self.entries.len() - i,
        {
            if self.entries[i].name == *worker {
                return Some(i);
            }
            i += 1;
        }
        assert forall|j: int| !holds_at(self.entries@, worker@, j) by {}
        None
    }

    /// The number of shares recorded for `worker`.
    pub fn count(&self, worker: &str) -> (n: u64)
        requires
            self.wf(),
        ensures
            n == count_in(self@, worker@),
    {
        let key = worker.to_owned();
        match self.position(&key) {
            Some(i) => {
                proof {
                    lemma_count_at(self.entries@, i as int);
                }
                self.entries[i].shares
            },
            None => 0,
        }
    }

    /// Counts one more share for `worker`, who starts at zero when new.
    pub fn record(&mut self, worker: String)
        requires
            old(self).wf(),
            old(self).total() < u64::MAX,
        ensures
            final(self).wf(),
            final(self)@ == recorded(old(self)@, worker@),
            final(self).total() == old(self).total() + 1,
    {
        let ghost before = self.entries@;
        let ghost key = worker@;
        match self.position(&worker) {
            Some(i) => {
                let n: u64 = self.entries[i].shares;
                proof {
                    lemma_count_at(before, i as int);
                }
                self.entries.set(i, WorkerShares { name: worker, shares: n + 1 });
                proof {
                    let after = self.entries@;
                    assert forall|j: int| 0 <= j < after.len() implies after[j].name@
                        == before[j].name@ by {}
                    assert(names_distinct(after));
                    assert forall|k: Seq<char>| #[trigger]
                        counts_of(after).contains_key(k) == recorded(
                            counts_of(before),
                            key,
                        ).contains_key(k) && (counts_of(after).contains_key(k) ==> counts_of(
                            after,
                        )[k] == recorded(counts_of(before), key)[k]) by {
                        if counts_of(after).contains_key(k) {
                            let j = choose|j: int| holds_at(after, k, j);
                            assert(holds_at(before, k, j));
                            lemma_count_at(after, j);
                            lemma_count_at(before, j);
                        }
                        if counts_of(before).contains_key(k) {
                            let j = choose|j: int| holds_at(before, k, j);
                            assert(holds_at(after, k, j));
                        }
                        if k == key {
                            assert(holds_at(after, k, i as int));
                        }
                    }
                    assert(counts_of(after) =~= recorded(counts_of(before), key));
                }
            },
            None => {
                self.entries.push(WorkerShares { name: worker, shares: 1 });
                proof {
                    let after = self.entries@;
                    let last = after.len() - 1;
                    assert forall|j: int| 0 <= j < before.len() implies after[j]
                        == before[j] by {}
                    assert forall|j: int| 0 <= j < before.len() implies before[j].name@
                        != key by {
                        assert(holds_at(before, before[j].name@, j));
                    }
                    assert(names_distinct(after));
                    assert forall|k: Seq<char>| #[trigger]
                        counts_of(after).contains_key(k) == recorded(
                            counts_of(before),
                            key,
                        ).contains_key(k) && (counts_of(after).contains_key(k) ==> counts_of(
                            after,
                        )[k] == recorded(counts_of(before), key)[k]) by {
                        if counts_of(after).contains_key(k) {
                            let j = choose|j: int| holds_at(after, k, j);
                            lemma_count_at(after, j);
                            if j < last {
                                assert(holds_at(before, k, j));
                                lemma_count_at(before, j);
                            }
                        }
                        if counts_of(before).contains_key(k) {
                            let j = choose|j: int| holds_at(before, k, j);
                            assert(holds_at(after, k, j));
                        }
                        if k == key {
                            assert(holds_at(after, k, last));
                        }
                    }
                    assert(counts_of(after) =~= recorded(counts_of(before), key));
                }
            },
        }
        self.total = self.total + 1;
    }

    /// The workers and their counts, in the order in which the workers were
    /// first seen.
    pub fn into_entries(self) -> (es: Vec<WorkerShares>)
        requires
            self.wf(),
        ensures
            lists(es@, self@),
    {
        self.entries
    }

    /// The number of shares recorded in all.
    pub fn shares_recorded(&self) -> (n: u64)
        ensures
            n == self.total(),
    {
        self.total
    }

    /// The number of workers known.
    pub fn len(&self) -> (n: usize)
        requires
            self.wf(),
        ensures
            n == self@.dom().len(),
            self@.dom().finite(),
    {
        proof {
            lemma_domain_size(self.entries@);
        }
        self.entries.len()
    }
}

/// The names of `es` as a set.
pub open spec fn names_of(es: Seq<WorkerShares>) -> Set<Seq<char>> {
    Set::new(|key: Seq<char>| exists|i: int| holds_at(es, key, i))
}

/// Distinct names are as many as the entries that hold them.
pub proof fn lemma_domain_size(es: Seq<WorkerShares>)
    requires
        names_distinct(es),
    ensures
        counts_of(es).dom() == names_of(es),
        names_of(es).finite(),
        names_of(es).len() == es.len(),
    decreases es.len(),
{
    assert(counts_of(es).dom() =~= names_of(es));
    if es.len() == 0 {
        assert(names_of(es) =~= Set::<Seq<char>>::empty());
    } else {
        let front = es.drop_last();
        let key = es.last().name@;
        lemma_domain_size(front);
        assert forall|k: Seq<char>| names_of(es).contains(k) <==> names_of(front).insert(
            key,
        ).contains(k) by {
            if names_of(es).contains(k) {
                let i = choose|i: int| holds_at(es, k, i);
                if i < es.len() - 1 {
                    assert(holds_at(front, k, i));
                }
            }
            if names_of(front).contains(k) {
                let i = choose|i: int| holds_at(front, k, i);
                assert(holds_at(es, k, i));
            }
            if k == key {
                assert(holds_at(es, k, es.len() - 1));
            }
        }
        assert(names_of(es) =~= names_of(front).insert(key));
        if names_of(front).contains(key) {
            let i = choose|i: int| holds_at(front, key, i);
            assert(es[i].name@ == es[es.len() - 1].name@);
        }
    }
}

} // verus!
