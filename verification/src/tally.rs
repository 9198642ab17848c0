//! Counts kept per number, listed in ascending order of the number.

use vstd::prelude::*;

verus! {

/// Whether the keys of `s` ascend.
pub open spec fn ascending(s: Seq<(u64, u64)>) -> bool {
    forall|i: int, j: int| 0 <= i < j < s.len() ==> (#[trigger] s[i]).0 < (#[trigger] s[j]).0
}

/// Whether `s` lists `key`.
pub open spec fn lists(s: Seq<(u64, u64)>, key: u64) -> bool {
    exists|i: int| 0 <= i < s.len() && (#[trigger] s[i]).0 == key
}

/// The count that `s` lists for `key`, which is 0 where it lists none.
pub open spec fn listed(s: Seq<(u64, u64)>, key: u64) -> u64 {
    if lists(s, key) {
        s[choose|i: int| 0 <= i < s.len() && (#[trigger] s[i]).0 == key].1
    } else {
        0
    }
}

/// The map that `s` lists.
pub open spec fn map_of(s: Seq<(u64, u64)>) -> Map<u64, u64> {
    Map::new(|key: u64| lists(s, key), |key: u64| listed(s, key))
}

/// The ascending list of `counts`.
pub open spec fn listing(counts: Map<u64, u64>) -> Seq<(u64, u64)> {
    choose|s: Seq<(u64, u64)>| ascending(s) && #[trigger] map_of(s) == counts
}

/// The count of `key` in `counts`, which is 0 where there is none.
pub open spec fn count_in(counts: Map<u64, u64>, key: u64) -> u64 {
    if counts.contains_key(key) {
        counts[key]
    } else {
        0
    }
}

/// Two ascending lists of the same counts are the same list.
pub proof fn law_listing_is_unique(a: Seq<(u64, u64)>, b: Seq<(u64, u64)>)
    requires
        ascending(a),
        ascending(b),
        map_of(a) == map_of(b),
    ensures
        a == b,
    decreases a.len(),
{
    lemma_keys_agree(a, b);
    lemma_keys_agree(b, a);
    if a.len() == 0 {
        if b.len() > 0 {
            assert(lists(b, b[0].0));
            assert(map_of(b).contains_key(b[0].0));
        }
    } else if b.len() == 0 {
        assert(lists(a, a[0].0));
        assert(map_of(a).contains_key(a[0].0));
    } else {
        let x = a.last();
        let y = b.last();
        assert(map_of(a).contains_key(x.0)) by {
            assert(lists(a, x.0));
        }
        assert(map_of(b).contains_key(y.0)) by {
            assert(lists(b, y.0));
        }
        assert(x.0 == y.0);
        lemma_listed(a, a.len() - 1);
        lemma_listed(b, b.len() - 1);
        assert(map_of(a)[x.0] == x.1);
        assert(map_of(b)[x.0] == y.1);
        let p = a.drop_last();
        let q = b.drop_last();
        assert forall|key: u64| #[trigger] lists(p, key) == lists(q, key) by {
            lemma_drop_last(a, key);
            lemma_drop_last(b, key);
            assert(map_of(a).contains_key(key) == lists(a, key));
            assert(map_of(b).contains_key(key) == lists(b, key));
        }
        assert forall|key: u64| lists(p, key) implies #[trigger] listed(p, key) == listed(
            q,
            key,
        ) by {
            lemma_drop_last(a, key);
            lemma_drop_last(b, key);
            assert(lists(q, key));
            assert(map_of(a)[key] == listed(a, key));
            assert(map_of(b)[key] == listed(b, key));
        }
        assert(map_of(p) =~= map_of(q));
        law_listing_is_unique(p, q);
        assert(a =~= p.push(x));
        assert(b =~= q.push(y));
    }
}

proof fn lemma_keys_agree(a: Seq<(u64, u64)>, b: Seq<(u64, u64)>)
    requires
        ascending(a),
        ascending(b),
        map_of(a) == map_of(b),
    ensures
        a.len() > 0 && b.len() > 0 ==> a.last().0 <= b.last().0,
{
    if a.len() > 0 && b.len() > 0 {
        assert(lists(a, a.last().0));
        assert(map_of(b).contains_key(a.last().0));
        let i = choose|i: int| 0 <= i < b.len() && (#[trigger] b[i]).0 == a.last().0;
        assert(b[i].0 <= b[b.len() - 1].0);
    }
}

/// In an ascending list, a key's count stands beside it.
proof fn lemma_listed(s: Seq<(u64, u64)>, i: int)
    requires
        ascending(s),
        0 <= i < s.len(),
    ensures
        lists(s, s[i].0),
        listed(s, s[i].0) == s[i].1,
{
    let j = choose|j: int| 0 <= j < s.len() && (#[trigger] s[j]).0 == s[i].0;
    assert(lists(s, s[i].0));
    assert(s[j].0 == s[i].0);
    assert(i == j);
}

proof fn lemma_drop_last(s: Seq<(u64, u64)>, key: u64)
    requires
        ascending(s),
        s.len() > 0,
    ensures
        lists(s.drop_last(), key) <==> lists(s, key) && key != s.last().0,
        lists(s.drop_last(), key) ==> listed(s.drop_last(), key) == listed(s, key),
{
    let p = s.drop_last();
    assert(ascending(p));
    if lists(p, key) {
        let i = choose|i: int| 0 <= i < p.len() && (#[trigger] p[i]).0 == key;
        assert(s[i].0 == key);
        assert(s[i].0 < s[s.len() - 1].0);
        lemma_listed(p, i);
        lemma_listed(s, i);
    }
    if lists(s, key) && key != s.last().0 {
        let i = choose|i: int| 0 <= i < s.len() && (#[trigger] s[i]).0 == key;
        assert(p[i].0 == key);
    }
}

/// Counts per number.
#[derive(Debug, Clone)]
pub struct Tally {
    entries: Vec<(u64, u64)>,
}

impl View for Tally {
    type V = Map<u64, u64>;

    closed spec fn view(&self) -> Map<u64, u64> {
        map_of(self.entries@)
    }
}

impl Tally {
    /// The list ascends.
    pub closed spec fn wf(&self) -> bool {
        ascending(self.entries@)
    }

    /// No counts.
    pub fn new() -> (tally: Self)
        ensures
            tally.wf(),
            tally@ == Map::<u64, u64>::empty(),
    {
        let tally = Tally { entries: Vec::new() };
        assert(tally@ =~= Map::<u64, u64>::empty());
        tally
    }

    /// The count of `key`, which is 0 where there is none.
    pub fn get(&self, key: u64) -> (n: u64)
        requires
            self.wf(),
        ensures
            n == count_in(self@, key),
    {
        let mut i: usize = 0;
        while i < self.entries.len()
            invariant
                self.wf(),
                i <= self.entries@.len(),
                forall|k: int| 0 <= k < i ==> (#[trigger] self.entries@[k]).0 != key,
            decreases self.entries@.len() - i,
        {
            if self.entries[i].0 == key {
                proof {
                    lemma_listed(self.entries@, i as int);
                }
                return self.entries[i].1;
            }
            i = i + 1;
        }
        0
    }

    /// Whether there is a count of `key`.
    pub fn has(&self, key: u64) -> (r: bool)
        requires
            self.wf(),
        ensures
            r == self@.contains_key(key),
    {
        let mut i: usize = 0;
        while i < self.entries.len()
            invariant
                i <= self.entries@.len(),
                forall|k: int| 0 <= k < i ==> (#[trigger] self.entries@[k]).0 != key,
            decreases self.entries@.len() - i,
        {
            if self.entries[i].0 == key {
                assert(lists(self.entries@, key));
                return true;
            }
            i = i + 1;
        }
        assert(!lists(self.entries@, key));
        false
    }

    /// Sets the count of `key`.
    pub fn set(&mut self, key: u64, n: u64)
        requires
            old(self).wf(),
        ensures
            final(self).wf(),
            final(self)@ == old(self)@.insert(key, n),
    {
        let ghost before = self.entries@;
        let mut i: usize = 0;
        while i < self.entries.len() && self.entries[i].0 < key
            invariant
                self.entries@ == before,
                ascending(before),
                i <= before.len(),
                forall|k: int| 0 <= k < i ==> (#[trigger] before[k]).0 < key,
            decreases before.len() - i,
        {
            i = i + 1;
        }
        if i < self.entries.len() && self.entries[i].0 == key {
            self.entries.set(i, (key, n));
            proof {
                let after = self.entries@;
                assert(ascending(after)) by {
                    assert forall|x: int, y: int| 0 <= x < y < after.len() implies (
                    #[trigger] after[x]).0 < (#[trigger] after[y]).0 by {
                        assert(before[x].0 < before[y].0);
                    }
                }
                assert forall|k: u64| #[trigger] lists(after, k) == lists(before, k) by {
                    if lists(before, k) {
                        let j = choose|j: int| 0 <= j < before.len() && (#[trigger] before[j]).0
                            == k;
                        assert(after[j].0 == k);
                    }
                    if lists(after, k) {
                        let j = choose|j: int| 0 <= j < after.len() && (#[trigger] after[j]).0 == k;
                        assert(before[j].0 == k);
                    }
                }
                assert forall|k: u64| lists(after, k) implies listed(after, k) == (if k == key {
                    n
                } else {
                    listed(before, k)
                }) by {
                    let j = choose|j: int| 0 <= j < after.len() && (#[trigger] after[j]).0 == k;
                    lemma_listed(after, j);
                    lemma_listed(before, j);
                    assert(k == key ==> j == i);
                }
                assert(lists(after, key)) by {
                    assert(after[i as int].0 == key);
                }
                assert(self@ =~= old(self)@.insert(key, n));
            }
        } else {
            self.entries.insert(i, (key, n));
            proof {
                let after = self.entries@;
                assert forall|x: int, y: int| 0 <= x < y < after.len() implies (
                #[trigger] after[x]).0 < (#[trigger] after[y]).0 by {
                    let p = if x < i {
                        x
                    } else {
                        x - 1
                    };
                    let q = if y < i {
                        y
                    } else {
                        y - 1
                    };
                    if x != i {
                        assert(after[x] == before[p]);
                    }
                    if y != i {
                        assert(after[y] == before[q]);
                    }
                    if x == i {
                        assert(before[i as int].0 <= before[q].0) by {
                            if (i as int) < q {
                                assert(before[i as int].0 < before[q].0);
                            }
                        }
                    } else if y == i {
                        assert(before[x].0 < key);
                    } else {
                        assert(before[p].0 < before[q].0);
                    }
                }
                assert(ascending(after));
                assert forall|k: u64| #[trigger] lists(after, k) == (lists(before, k) || k
                    == key) by {
                    if lists(before, k) {
                        let j = choose|j: int| 0 <= j < before.len() && (#[trigger] before[j]).0
                            == k;
                        if j < i {
                            assert(after[j].0 == k);
                        } else {
                            assert(after[j + 1].0 == k);
                        }
                    }
                    if k == key {
                        assert(after[i as int].0 == k);
                    }
                    if lists(after, k) && k != key {
                        let j = choose|j: int| 0 <= j < after.len() && (#[trigger] after[j]).0 == k;
                        if j < i {
                            assert(before[j].0 == k);
                        } else {
                            assert(before[j - 1].0 == k);
                        }
                    }
                }
                assert forall|k: u64| lists(after, k) implies listed(after, k) == (if k == key {
                    n
                } else {
                    listed(before, k)
                }) by {
                    let j = choose|j: int| 0 <= j < after.len() && (#[trigger] after[j]).0 == k;
                    lemma_listed(after, j);
                    if k == key {
                        assert(after[i as int].0 == key);
                        assert(j == i);
                    } else if j < i {
                        assert(before[j] == after[j]);
                        lemma_listed(before, j);
                    } else {
                        assert(before[j - 1] == after[j]);
                        lemma_listed(before, j - 1);
                    }
                }
                assert(self@ =~= old(self)@.insert(key, n));
            }
        }
    }

    /// The counts, in ascending order of their numbers.
    pub fn list(&self) -> (out: Vec<(u64, u64)>)
        requires
            self.wf(),
        ensures
            out@ == listing(self@),
            ascending(out@),
            map_of(out@) == self@,
    {
        let mut out: Vec<(u64, u64)> = Vec::new();
        let mut i: usize = 0;
        while i < self.entries.len()
            invariant
                i <= self.entries@.len(),
                out@ == self.entries@.take(i as int),
            decreases self.entries@.len() - i,
        {
            out.push(self.entries[i]);
            i = i + 1;
        }
        assert(out@ =~= self.entries@);
        proof {
            assert(map_of(out@) == self@);
            law_listing_is_unique(out@, listing(self@));
        }
        out
    }
}

} // verus!
