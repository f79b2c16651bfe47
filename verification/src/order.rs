//! Texts in order.

use vstd::prelude::*;

use crate::text::{self, chars_of, same};

verus! {

/// The order of texts, character by character.
pub open spec fn less(a: Seq<char>, b: Seq<char>) -> bool
    decreases a.len(),
{
    if b.len() == 0 {
        false
    } else if a.len() == 0 {
        true
    } else {
        a[0] < b[0] || (a[0] == b[0] && less(a.skip(1), b.skip(1)))
    }
}

/// Each text comes before every one behind it.
pub open spec fn ascending(v: Seq<Seq<char>>) -> bool {
    forall|i: int, j: int| 0 <= i < j < v.len() ==> less(#[trigger] v[i], #[trigger] v[j])
}

/// The texts with one more put in its place; nothing changes where it is there.
pub open spec fn inserted(v: Seq<Seq<char>>, x: Seq<char>) -> Seq<Seq<char>>
    decreases v.len(),
{
    if v.len() == 0 {
        seq![x]
    } else if x == v[0] {
        v
    } else if less(x, v[0]) {
        seq![x] + v
    } else {
        seq![v[0]] + inserted(v.skip(1), x)
    }
}

/// The texts in order, each once.
pub open spec fn sorted_set(v: Seq<Seq<char>>) -> Seq<Seq<char>>
    decreases v.len(),
{
    if v.len() == 0 {
        Seq::empty()
    } else {
        inserted(sorted_set(v.drop_last()), v.last())
    }
}

pub proof fn lemma_less_total(a: Seq<char>, b: Seq<char>)
    ensures
        !less(a, a),
        less(a, b) ==> !less(b, a),
        a != b ==> less(a, b) || less(b, a),
    decreases a.len(),
{
    if a.len() > 0 {
        lemma_less_total(a.skip(1), a.skip(1));
        if b.len() > 0 {
            lemma_less_total(a.skip(1), b.skip(1));
            if a[0] == b[0] && a.skip(1) == b.skip(1) {
                assert(a =~= seq![a[0]] + a.skip(1));
                assert(b =~= seq![b[0]] + b.skip(1));
            }
        }
    } else if b.len() == 0 {
        assert(a =~= b);
    }
}

proof fn lemma_less_transitive(a: Seq<char>, b: Seq<char>, c: Seq<char>)
    requires
        less(a, b),
        less(b, c),
    ensures
        less(a, c),
    decreases a.len(),
{
    if a.len() > 0 && a[0] == b[0] && b[0] == c[0] {
        lemma_less_transitive(a.skip(1), b.skip(1), c.skip(1));
    }
}

proof fn lemma_inserted(v: Seq<Seq<char>>, x: Seq<char>)
    requires
        ascending(v),
    ensures
        ascending(inserted(v, x)),
        forall|t: Seq<char>| #[trigger] inserted(v, x).contains(t) <==> v.contains(t) || t == x,
    decreases v.len(),
{
    let r = inserted(v, x);
    if v.len() == 0 {
        assert(r[0] == x);
    } else if x == v[0] {
        assert(v.contains(x));
    } else if less(x, v[0]) {
        assert forall|i: int, j: int| 0 <= i < j < r.len() implies less(
            #[trigger] r[i],
            #[trigger] r[j],
        ) by {
            assert(r[j] == v[j - 1]);
            if i == 0 {
                if j > 1 {
                    lemma_less_transitive(x, v[0], v[j - 1]);
                }
            } else {
                assert(r[i] == v[i - 1]);
            }
        }
        assert forall|t: Seq<char>| #[trigger] r.contains(t) <==> v.contains(t) || t == x by {
            if v.contains(t) {
                let k = choose|k: int| 0 <= k < v.len() && v[k] == t;
                assert(r[k + 1] == t);
            }
            assert(r[0] == x);
            if r.contains(t) {
                let k = choose|k: int| 0 <= k < r.len() && r[k] == t;
                if k > 0 {
                    assert(v[k - 1] == t);
                }
            }
        }
    } else {
        let w = v.skip(1);
        assert(ascending(w));
        lemma_inserted(w, x);
        let q = inserted(w, x);
        lemma_less_total(x, v[0]);
        assert forall|i: int, j: int| 0 <= i < j < r.len() implies less(
            #[trigger] r[i],
            #[trigger] r[j],
        ) by {
            assert(r[j] == q[j - 1]);
            if i == 0 {
                assert(q.contains(q[j - 1]));
                if q[j - 1] != x {
                    let k = choose|k: int| 0 <= k < w.len() && w[k] == q[j - 1];
                    assert(v[k + 1] == q[j - 1]);
                }
            } else {
                assert(r[i] == q[i - 1]);
            }
        }
        assert forall|t: Seq<char>| #[trigger] r.contains(t) <==> v.contains(t) || t == x by {
            if r.contains(t) {
                let k = choose|k: int| 0 <= k < r.len() && r[k] == t;
                if k == 0 {
                    assert(v[0] == t);
                } else {
                    assert(q[k - 1] == t);
                    assert(q.contains(t));
                    if t != x {
                        let m = choose|m: int| 0 <= m < w.len() && w[m] == t;
                        assert(v[m + 1] == t);
                    }
                }
            }
            if v.contains(t) || t == x {
                if t == v[0] {
                    assert(r[0] == t);
                } else {
                    if v.contains(t) {
                        let k = choose|k: int| 0 <= k < v.len() && v[k] == t;
                        assert(w[k - 1] == t);
                    }
                    assert(q.contains(t));
                    let m = choose|m: int| 0 <= m < q.len() && q[m] == t;
                    assert(r[m + 1] == t);
                }
            }
        }
    }
}

/// What is sorted is in order, without repetition, and holds the same texts.
pub proof fn law_sorted_set(v: Seq<Seq<char>>)
    ensures
        ascending(sorted_set(v)),
        forall|t: Seq<char>| #[trigger] sorted_set(v).contains(t) <==> v.contains(t),
    decreases v.len(),
{
    if v.len() > 0 {
        law_sorted_set(v.drop_last());
        lemma_inserted(sorted_set(v.drop_last()), v.last());
        let d = v.drop_last();
        assert forall|t: Seq<char>| #[trigger] sorted_set(v).contains(t) <==> v.contains(t) by {
            if d.contains(t) {
                let k = choose|k: int| 0 <= k < d.len() && d[k] == t;
                assert(v[k] == t);
            }
            if v.contains(t) {
                let k = choose|k: int| 0 <= k < v.len() && v[k] == t;
                if k < d.len() {
                    assert(d[k] == t);
                }
            }
            assert(v[v.len() - 1] == v.last());
            assert(sorted_set(d).contains(t) <==> d.contains(t));
        }
    }
}

/// Whether one text comes before another.
pub fn comes_before(a: &str, b: &str) -> (r: bool)
    ensures
        r == less(a@, b@),
{
    let x: Vec<char> = chars_of(a);
    let y: Vec<char> = chars_of(b);
    let mut i: usize = 0;
    assert(x@.skip(0) =~= a@);
    assert(y@.skip(0) =~= b@);
    while i < x.len() && i < y.len()
        invariant
            i <= x.len(),
            i <= y.len(),
            x@ == a@,
            y@ == b@,
            less(a@, b@) == less(x@.skip(i as int), y@.skip(i as int)),
        decreases x.len() - i,
    {
        assert(x@.skip(i as int).skip(1) =~= x@.skip(i as int + 1));
        assert(y@.skip(i as int).skip(1) =~= y@.skip(i as int + 1));
        if x[i] < y[i] {
            return true;
        }
        if y[i] < x[i] {
            return false;
        }
        i += 1;
    }
    i < y.len()
}

/// Puts a text in its place among others in order.
pub fn insert_sorted(v: &mut Vec<String>, x: &str)
    ensures
        text::texts(final(v)@) == inserted(text::texts(old(v)@), x@),
{
    let ghost tv = text::texts(v@);
    let n: usize = v.len();
    let mut i: usize = 0;
    assert(tv.skip(0) =~= tv);
    assert(tv.take(0) + inserted(tv.skip(0), x@) =~= inserted(tv, x@));
    while i < n
        invariant
            i <= n,
            n == v@.len(),
            *v == *old(v),
            tv == text::texts(v@),
            inserted(tv, x@) == tv.take(i as int) + inserted(tv.skip(i as int), x@),
        decreases n - i,
    {
        assert(tv.skip(i as int)[0] == v@[i as int]@);
        if same(v[i].as_str(), x) {
            assert(tv.take(i as int) + tv.skip(i as int) =~= tv);
            return;
        }
        if comes_before(x, v[i].as_str()) {
            let s: String = x.to_owned();
            v.insert(i, s);
            assert(text::texts(v@) =~= tv.take(i as int) + (seq![x@] + tv.skip(i as int)));
            return;
        }
        assert(tv.skip(i as int).skip(1) =~= tv.skip(i as int + 1));
        assert(tv.take(i as int) + (seq![tv[i as int]] + inserted(tv.skip(i as int + 1), x@))
            =~= tv.take(i as int + 1) + inserted(tv.skip(i as int + 1), x@));
        i += 1;
    }
    v.push(x.to_owned());
    assert(tv.skip(n as int) =~= Seq::empty());
    assert(text::texts(v@) =~= tv.take(n as int) + seq![x@]);
}

/// The texts in order, each once.
pub fn sort_unique(v: &Vec<String>) -> (r: Vec<String>)
    ensures
        text::texts(r@) == sorted_set(text::texts(v@)),
{
    let ghost tv = text::texts(v@);
    let mut out: Vec<String> = Vec::new();
    let mut i: usize = 0;
    assert(text::texts(out@) =~= Seq::empty());
    assert(tv.take(0) =~= Seq::empty());
    while i < v.len()
        invariant
            i <= v.len(),
            tv == text::texts(v@),
            text::texts(out@) == sorted_set(tv.take(i as int)),
        decreases v.len() - i,
    {
        assert(tv.take(i as int + 1).drop_last() =~= tv.take(i as int));
        insert_sorted(&mut out, v[i].as_str());
        i += 1;
    }
    assert(tv.take(tv.len() as int) =~= tv);
    out
}

} // verus!
