//! A small map from strings to values, kept in the order of insertion.

use vstd::prelude::*;

use crate::text::same;

verus! {

/// Values under string keys. Where a key stands more than once, the first entry is the
/// one that counts.
#[derive(Debug, Clone, Default)]
pub struct Table<V> {
    pub entries: Vec<(String, V)>,
}

/// The place of the first entry under `k` at or behind `i`, or the end.
pub open spec fn place_from<V>(e: Seq<(String, V)>, k: Seq<char>, i: int) -> int
    decreases e.len() - i,
{
    if i < 0 || i >= e.len() || e[i].0@ == k {
        i
    } else {
        place_from(e, k, i + 1)
    }
}

/// The place of the entry under `k`, or the end.
pub open spec fn place<V>(e: Seq<(String, V)>, k: Seq<char>) -> int {
    place_from(e, k, 0)
}

pub proof fn lemma_place_from<V>(e: Seq<(String, V)>, k: Seq<char>, i: int)
    requires
        0 <= i <= e.len(),
    ensures
        i <= place_from(e, k, i) <= e.len(),
        place_from(e, k, i) < e.len() ==> e[place_from(e, k, i)].0@ == k,
        forall|j: int| i <= j < place_from(e, k, i) ==> (#[trigger] e[j]).0@ != k,
    decreases e.len() - i,
{
    if i < e.len() && e[i].0@ != k {
        lemma_place_from(e, k, i + 1);
    }
}

/// An entry under `k` with none before it is the one that counts.
pub proof fn lemma_place_is<V>(e: Seq<(String, V)>, k: Seq<char>, p: int)
    requires
        0 <= p <= e.len(),
        p < e.len() ==> e[p].0@ == k,
        forall|j: int| 0 <= j < p ==> (#[trigger] e[j]).0@ != k,
    ensures
        place(e, k) == p,
{
    lemma_place_from(e, k, 0);
    let q = place(e, k);
    if q < p {
        assert(e[q].0@ != k);
    } else if p < q {
        assert(e[p].0@ != k);
    }
}

/// With the entry of one key taken away, the values under the others stay.
pub proof fn lemma_removed<V>(before: Table<V>, after: Table<V>, k: Seq<char>)
    requires
        before.has(k),
        after.entries@ == before.entries@.remove(place(before.entries@, k)),
    ensures
        forall|x: Seq<char>| x != k ==> #[trigger] after.at(x) == before.at(x),
{
    let e0 = before.entries@;
    let e1 = after.entries@;
    lemma_place_from(e0, k, 0);
    let i = place(e0, k);
    assert forall|x: Seq<char>| x != k implies #[trigger] after.at(x) == before.at(x) by {
        lemma_place_from(e0, x, 0);
        let q = place(e0, x);
        let q1 = if q <= i {
            q
        } else {
            q - 1
        };
        assert forall|j: int| 0 <= j < q1 implies (#[trigger] e1[j]).0@ != x by {
            if j < i {
                assert(e0[j].0@ != x);
            } else {
                assert(e0[j + 1].0@ != x);
            }
        }
        if q < e0.len() {
            assert(e1[q1] == e0[q]);
        }
        lemma_place_is(e1, x, q1);
    }
}

impl<V> Table<V> {
    pub open spec fn has(self, k: Seq<char>) -> bool {
        place(self.entries@, k) < self.entries@.len()
    }

    /// The value under `k`.
    pub open spec fn at(self, k: Seq<char>) -> Option<V> {
        let p = place(self.entries@, k);
        if p < self.entries@.len() {
            Some(self.entries@[p].1)
        } else {
            None
        }
    }

    /// No key stands twice.
    pub open spec fn distinct(self) -> bool {
        forall|i: int, j: int|
            0 <= i < j < self.entries@.len() ==> (#[trigger] self.entries@[i]).0@ != (
            #[trigger] self.entries@[j]).0@
    }

    pub fn new() -> (r: Table<V>)
        ensures
            r.entries@.len() == 0,
            forall|k: Seq<char>| #[trigger] r.at(k) is None,
            r.distinct(),
    {
        Table { entries: Vec::new() }
    }

    /// The place of the entry under `k`.
    pub fn find(&self, k: &str) -> (r: Option<usize>)
        ensures
            match r {
                Some(i) => i < self.entries@.len() && place(self.entries@, k@) == i
                    && self.entries@[i as int].0@ == k@,
                None => place(self.entries@, k@) == self.entries@.len(),
            },
    {
        let mut i: usize = 0;
        while i < self.entries.len()
            invariant
                i <= self.entries.len(),
                place(self.entries@, k@) == place_from(self.entries@, k@, i as int),
            decreases self.entries.len() - i,
        {
            if same(self.entries[i].0.as_str(), k) {
                return Some(i);
            }
            i += 1;
        }
        None
    }

    pub fn contains_key(&self, k: &str) -> (r: bool)
        ensures
            r == self.has(k@),
    {
        self.find(k).is_some()
    }

    pub fn get(&self, k: &str) -> (r: Option<&V>)
        ensures
            match r {
                Some(v) => self.at(k@) == Some(*v),
                None => self.at(k@) is None,
            },
    {
        match self.find(k) {
            Some(i) => Some(&self.entries[i].1),
            None => None,
        }
    }

    /// Puts `v` under `k`, in place of what stood there.
    pub fn insert(&mut self, k: String, v: V)
        ensures
            final(self).at(k@) == Some(v),
            forall|x: Seq<char>| x != k@ ==> #[trigger] final(self).at(x) == old(self).at(x),
            old(self).distinct() ==> final(self).distinct(),
            final(self).entries@ == if old(self).has(k@) {
                let p = place(old(self).entries@, k@);
                old(self).entries@.update(p, (old(self).entries@[p].0, v))
            } else {
                old(self).entries@.push((k, v))
            },
    {
        let ghost before = self.entries@;
        proof {
            lemma_place_from(before, k@, 0);
        }
        match self.find(k.as_str()) {
            Some(i) => {
                let key: String = self.entries[i].0.clone();
                self.entries.set(i, (key, v));
                assert(key == before[i as int].0);
            },
            None => {
                self.entries.push((k, v));
            },
        }
        let ghost now = self.entries@;
        proof {
            let p = place(before, k@);
            assert forall|j: int| 0 <= j < p implies (#[trigger] now[j]).0@ != k@ by {
                assert(now[j] == before[j]);
            }
            lemma_place_is(now, k@, p);
            assert forall|x: Seq<char>| x != k@ implies #[trigger] self.at(x) == old(self).at(x) by {
                lemma_place_from(before, x, 0);
                let q = place(before, x);
                if q < before.len() {
                    assert forall|j: int| 0 <= j < q implies (#[trigger] now[j]).0@ != x by {
                        assert(before[j].0@ != x);
                    }
                    assert(now[q] == before[q]);
                    lemma_place_is(now, x, q);
                } else {
                    assert forall|j: int| 0 <= j < now.len() implies (#[trigger] now[j]).0@
                        != x by {
                        if j < before.len() {
                            assert(before[j].0@ != x);
                        }
                    }
                    lemma_place_is(now, x, now.len() as int);
                }
            }
            if old(self).distinct() {
                assert forall|i: int, j: int| 0 <= i < j < now.len() implies (#[trigger] now[i]).0@
                    != (#[trigger] now[j]).0@ by {
                    if j < before.len() {
                        assert(before[i].0@ != before[j].0@);
                    } else {
                        assert(before[i].0@ != k@);
                    }
                }
            }
        }
    }

    /// Takes away what stands under `k`.
    pub fn remove(&mut self, k: &str) -> (r: bool)
        ensures
            r == old(self).has(k@),
            final(self).at(k@) is None,
            forall|x: Seq<char>| x != k@ ==> #[trigger] final(self).at(x) == old(self).at(x),
            old(self).distinct() ==> final(self).distinct(),
            !r ==> final(self).entries@ == old(self).entries@,
    {
        let ghost before = self.entries@;
        let ghost ks = k@;
        let mut found: bool = false;
        let mut i: usize = 0;
        proof {
            lemma_place_from(before, ks, 0);
            if old(self).distinct() {
                assert(self.distinct());
            }
        }
        while i < self.entries.len()
            invariant
                ks == k@,
                i <= self.entries.len(),
                forall|j: int| 0 <= j < i ==> (#[trigger] self.entries@[j]).0@ != ks,
                forall|x: Seq<char>| x != ks ==> #[trigger] self.at(x) == old(self).at(x),
                old(self).distinct() ==> self.distinct(),
                found == (self.entries@.len() < old(self).entries@.len()),
                !found ==> self.entries@ == old(self).entries@,
                found ==> old(self).has(ks),
            decreases self.entries.len() - i,
        {
            let ghost e0 = self.entries@;
            let ghost s0 = *self;
            if same(self.entries[i].0.as_str(), k) {
                self.entries.remove(i);
                found = true;
                let ghost e1 = self.entries@;
                proof {
                    assert(e1 =~= e0.remove(i as int));
                    lemma_place_is(e0, ks, i as int);
                    lemma_removed(s0, *self, ks);
                    assert forall|a: int, b: int|
                        s0.distinct() && 0 <= a < b < e1.len() implies (#[trigger] e1[a]).0@ != (
                    #[trigger] e1[b]).0@ by {
                        let a0 = if a < i { a } else { a + 1 };
                        let b0 = if b < i { b } else { b + 1 };
                        assert(e0[a0].0@ != e0[b0].0@);
                    }
                }
            } else {
                i += 1;
            }
        }
        proof {
            lemma_place_is(self.entries@, ks, self.entries@.len() as int);
        }
        found
    }
}

/// A copy of a table of strings.
pub fn copy_table(t: &Table<String>) -> (r: Table<String>)
    ensures
        r.entries@ == t.entries@,
{
    let mut out: Vec<(String, String)> = Vec::new();
    let mut i: usize = 0;
    while i < t.entries.len()
        invariant
            i <= t.entries.len(),
            out@ == t.entries@.take(i as int),
        decreases t.entries.len() - i,
    {
        out.push((t.entries[i].0.clone(), t.entries[i].1.clone()));
        assert(out@ =~= t.entries@.take(i as int + 1));
        i += 1;
    }
    assert(t.entries@.take(t.entries@.len() as int) =~= t.entries@);
    Table { entries: out }
}

} // verus!
