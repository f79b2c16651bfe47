//! The image store: records of images, the index of tags, and what becomes garbage.

use vstd::prelude::*;
use vstd::utf8::{encode_utf8, is_ascii_chars, is_ascii_chars_encode_utf8};

use crate::api::container::ContainerConfig;
use crate::dns;
use crate::dockerfile;
use crate::encode::{self, digest_of};
use crate::json::{self, key_pointer, keys_at, text_at};
use crate::network::{add_word, copy_strings};
use crate::num::{self, hex_digit_value};
use crate::reference::{self, ImageRef};
use crate::registry;
use crate::table::{self, Table, copy_table};
use crate::text::{self, chars_of, has_char, is_among, same, str_rcut, str_starts, string_of, strip_starts_text, strip_suffix_text};

verus! {

/// An image.
#[derive(Debug, Clone, Default)]
pub struct ImageRecord {
    /// The digest of its configuration.
    pub id: String,
    /// The digest of the manifest or the index that it was pulled by.
    pub manifest_digest: String,
    pub repo_tags: Vec<String>,
    pub repo_digests: Vec<String>,
    pub created: String,
    pub created_unix: i64,
    pub architecture: String,
    pub os: String,
    pub author: String,
    pub comment: String,
    pub docker_version: String,
    /// The digests of the unpacked layers, the lowest first.
    pub diff_ids: Vec<String>,
    /// The digests of the layers as they were pulled, in the same order.
    pub layer_blobs: Vec<String>,
    pub size: i64,
    pub config: ContainerConfig,
    pub history: Vec<HistoryEntry>,
    /// For each layer, the digest of the layers up to it.
    pub chain_ids: Vec<String>,
}

/// One step of an image's history.
#[derive(Debug, Clone, Default)]
pub struct HistoryEntry {
    pub created: String,
    pub created_by: String,
    pub created_for: Option<String>,
    pub author: Option<String>,
    pub comment: Option<String>,
    pub empty_layer: Option<bool>,
}

/// The tags that the index's file lists, each with the id that it leads to: none where the
/// file holds no object of strings.
pub open spec fn tags_listed(doc: Seq<u8>) -> Seq<(Seq<char>, Seq<char>)> {
    match json::json_keys(doc, Seq::empty()) {
        Some(ks) => if forall|i: int|
            0 <= i < ks.len() ==> tag_target(doc, #[trigger] ks[i]) is Some {
            Seq::new(ks.len(), |i: int| (ks[i], tag_target(doc, ks[i])->0))
        } else {
            Seq::empty()
        },
        None => Seq::empty(),
    }
}

/// The id under a tag.
pub open spec fn tag_target(doc: Seq<u8>, tag: Seq<char>) -> Option<Seq<char>> {
    json::json_text(doc, json::under_key(Seq::empty(), tag))
}

/// Reads the index's file.
pub fn tags_in(doc: &[u8]) -> (r: Table<String>)
    ensures
        dockerfile::pair_texts(r.entries@) == tags_listed(doc@),
{
    proof {
        reveal_strlit("");
        assert(""@ =~= Seq::empty());
    }
    let mut out: Vec<(String, String)> = Vec::new();
    assert(dockerfile::pair_texts(out@) =~= Seq::empty());
    let ks: Vec<String> = match keys_at(doc, "") {
        Some(ks) => ks,
        None => {
            return Table { entries: out };
        },
    };
    let ghost kv = text::texts(ks@);
    let ghost all = Seq::new(kv.len(), |i: int| (kv[i], tag_target(doc@, kv[i])->0));
    let mut i: usize = 0;
    assert(kv.len() == ks@.len());
    while i < ks.len()
        invariant
            i <= ks.len(),
            ""@ == Seq::<char>::empty(),
            kv == text::texts(ks@),
            json::json_keys(doc@, Seq::empty()) == Some(kv),
            all == Seq::new(kv.len(), |i: int| (kv[i], tag_target(doc@, kv[i])->0)),
            forall|j: int| 0 <= j < i ==> tag_target(doc@, #[trigger] kv[j]) is Some,
            dockerfile::pair_texts(out@) =~= all.take(i as int),
        decreases ks.len() - i,
    {
        assert(kv[i as int] == ks@[i as int]@);
        match text_at(doc, key_pointer("", ks[i].as_str()).as_str()) {
            Some(id) => {
                let ghost before = out@;
                let ghost pair = (ks@[i as int]@, id@);
                out.push((ks[i].clone(), id));
                assert(dockerfile::pair_texts(out@) =~= dockerfile::pair_texts(before).push(pair));
                assert(all.take(i as int + 1) =~= all.take(i as int).push(all[i as int]));
            },
            None => {
                let none: Vec<(String, String)> = Vec::new();
                assert(dockerfile::pair_texts(none@) =~= Seq::empty());
                return Table { entries: none };
            },
        }
        i += 1;
    }
    assert(all.take(all.len() as int) =~= all);
    Table { entries: out }
}

/// The records under their ids, the ids that tags lead to, and the files that are named as
/// those of records and hold none of that id, each with what is wrong with it.
pub struct ImageStore {
    pub records: Table<ImageRecord>,
    pub tags: Table<String>,
    pub strays: Table<String>,
}

impl ImageRecord {
    pub open spec fn tags(self) -> Seq<Seq<char>> {
        text::texts(self.repo_tags@)
    }

    /// Agrees with another record in everything but the tags.
    pub open spec fn same_but_tags(self, o: ImageRecord) -> bool {
        &&& self.id == o.id
        &&& self.manifest_digest == o.manifest_digest
        &&& self.same_but_names(o)
        &&& self.repo_digests == o.repo_digests
    }

    /// Agrees with another record in everything but tags and digests.
    pub open spec fn same_but_names(self, o: ImageRecord) -> bool {
        &&& self.id == o.id
        &&& self.created == o.created
        &&& self.created_unix == o.created_unix
        &&& self.architecture == o.architecture
        &&& self.os == o.os
        &&& self.author == o.author
        &&& self.comment == o.comment
        &&& self.docker_version == o.docker_version
        &&& self.diff_ids == o.diff_ids
        &&& self.layer_blobs == o.layer_blobs
        &&& self.size == o.size
        &&& self.config == o.config
        &&& self.history == o.history
        &&& self.chain_ids == o.chain_ids
    }
}

/// The texts without one of them.
pub open spec fn omitted(v: Seq<Seq<char>>, x: Seq<char>) -> Seq<Seq<char>>
    decreases v.len(),
{
    if v.len() == 0 {
        Seq::empty()
    } else if v.last() == x {
        omitted(v.drop_last(), x)
    } else {
        omitted(v.drop_last(), x).push(v.last())
    }
}

/// The texts without the first `n` of others.
pub open spec fn omitted_all(v: Seq<Seq<char>>, xs: Seq<Seq<char>>, n: int) -> Seq<Seq<char>>
    decreases n,
{
    if n <= 0 {
        v
    } else {
        omitted(omitted_all(v, xs, n - 1), xs[n - 1])
    }
}

pub proof fn lemma_omitted(v: Seq<Seq<char>>, x: Seq<char>)
    ensures
        forall|t: Seq<char>| #[trigger] omitted(v, x).contains(t) <==> v.contains(t) && t != x,
        !v.contains(x) ==> omitted(v, x) == v,
    decreases v.len(),
{
    let r = omitted(v, x);
    if v.len() > 0 {
        let d = v.drop_last();
        lemma_omitted(d, x);
        let q = omitted(d, x);
        assert forall|t: Seq<char>| #[trigger] r.contains(t) <==> v.contains(t) && t != x by {
            if r.contains(t) {
                let k = choose|k: int| 0 <= k < r.len() && r[k] == t;
                if v.last() != x && k == r.len() - 1 {
                    assert(v[v.len() - 1] == t);
                } else {
                    assert(q[k] == t);
                    assert(q.contains(t));
                    let m = choose|m: int| 0 <= m < d.len() && d[m] == t;
                    assert(v[m] == t);
                }
            }
            if v.contains(t) && t != x {
                let k = choose|k: int| 0 <= k < v.len() && v[k] == t;
                if k == v.len() - 1 {
                    assert(r[r.len() - 1] == t);
                } else {
                    assert(d[k] == t);
                    assert(d.contains(t));
                    assert(q.contains(t));
                    let m = choose|m: int| 0 <= m < q.len() && q[m] == t;
                    assert(r[m] == t);
                }
            }
        }
        if !v.contains(x) {
            assert(v[v.len() - 1] == v.last());
            assert(!d.contains(x)) by {
                if d.contains(x) {
                    let m = choose|m: int| 0 <= m < d.len() && d[m] == x;
                    assert(v[m] == x);
                }
            }
            assert(r =~= v);
        }
    }
}

/// Texts without one of them.
pub fn omit(v: &Vec<String>, x: &str) -> (r: Vec<String>)
    ensures
        text::texts(r@) == omitted(text::texts(v@), x@),
{
    let ghost tv = text::texts(v@);
    let mut out: Vec<String> = Vec::new();
    let mut i: usize = 0;
    assert(text::texts(out@) =~= Seq::empty());
    assert(tv.take(0) =~= Seq::empty());
    while i < v.len()
        invariant
            i <= v.len(),
            tv == text::texts(v@),
            text::texts(out@) == omitted(tv.take(i as int), x@),
        decreases v.len() - i,
    {
        assert(tv.take(i as int + 1).drop_last() =~= tv.take(i as int));
        if !same(v[i].as_str(), x) {
            add_word(&mut out, v[i].as_str());
        }
        i += 1;
    }
    assert(tv.take(tv.len() as int) =~= tv);
    out
}

/// The texts with those of others behind them that are not there yet.
pub open spec fn united(a: Seq<Seq<char>>, b: Seq<Seq<char>>) -> Seq<Seq<char>>
    decreases b.len(),
{
    if b.len() == 0 {
        a
    } else {
        registry::add_new(united(a, b.drop_last()), b.last())
    }
}

fn unite(a: Vec<String>, b: &Vec<String>) -> (r: Vec<String>)
    ensures
        text::texts(r@) == united(text::texts(a@), text::texts(b@)),
{
    let ghost bv = text::texts(b@);
    let ghost av = text::texts(a@);
    let mut out: Vec<String> = a;
    let mut i: usize = 0;
    assert(bv.take(0) =~= Seq::empty());
    while i < b.len()
        invariant
            i <= b.len(),
            bv == text::texts(b@),
            text::texts(out@) == united(av, bv.take(i as int)),
        decreases b.len() - i,
    {
        assert(bv.take(i as int + 1).drop_last() =~= bv.take(i as int));
        if !is_among(&out, b[i].as_str()) {
            add_word(&mut out, b[i].as_str());
        }
        i += 1;
    }
    assert(bv.take(bv.len() as int) =~= bv);
    out
}

pub proof fn lemma_united(a: Seq<Seq<char>>, b: Seq<Seq<char>>)
    ensures
        forall|t: Seq<char>| #[trigger] united(a, b).contains(t) <==> a.contains(t) || b.contains(
            t,
        ),
    decreases b.len(),
{
    if b.len() > 0 {
        let d = b.drop_last();
        lemma_united(a, d);
        let u = united(a, d);
        let r = united(a, b);
        assert forall|t: Seq<char>| #[trigger] r.contains(t) <==> a.contains(t) || b.contains(
            t,
        ) by {
            if d.contains(t) {
                let k = choose|k: int| 0 <= k < d.len() && d[k] == t;
                assert(b[k] == t);
            }
            if b.contains(t) {
                let k = choose|k: int| 0 <= k < b.len() && b[k] == t;
                if k < d.len() {
                    assert(d[k] == t);
                }
            }
            assert(b[b.len() - 1] == b.last());
            assert(u.contains(t) <==> a.contains(t) || d.contains(t));
            if !u.contains(b.last()) {
                if u.contains(t) {
                    let k = choose|k: int| 0 <= k < u.len() && u[k] == t;
                    assert(r[k] == t);
                }
                assert(r[r.len() - 1] == b.last());
                if r.contains(t) {
                    let k = choose|k: int| 0 <= k < r.len() && r[k] == t;
                    if k < u.len() {
                        assert(u[k] == t);
                    }
                }
            }
        }
    }
}

// ---------------------------------------------------------------- the store

/// The id that the name of a file stands for, where it is one of a record.
pub open spec fn record_name(file: Seq<char>) -> Option<Seq<char>> {
    if file == "tags.json"@ {
        None
    } else {
        text::strip_suffix(file, ".json"@)
    }
}

/// A record in the file of this name counts: the name is its own, or nothing of its id is
/// there.
pub open spec fn takes_place(s: ImageStore, name: Seq<char>, id: Seq<char>) -> bool {
    id == name || (s.records.at(id) is None && s.strays.at(id) is None)
}

/// What is wrong with a file that holds the record of another id.
pub open spec fn misfiled(file: Seq<char>, id: Seq<char>) -> Seq<char> {
    file + " holds the record of "@ + id
}

fn name_of_record(file: &str) -> (r: Option<String>)
    ensures
        reference::opt_text(r) == record_name(file@),
{
    if same(file, "tags.json") {
        return None;
    }
    let cs: Vec<char> = chars_of(file);
    let end: Vec<char> = chars_of(".json");
    match strip_suffix_text(cs.as_slice(), end.as_slice()) {
        Some(n) => Some(string_of(n)),
        None => None,
    }
}

/// The tags of a record that the index leads to the record by.
pub open spec fn effective(tags: Table<String>, id: Seq<char>, ts: Seq<Seq<char>>) -> Seq<Seq<char>>
    decreases ts.len(),
{
    if ts.len() == 0 {
        Seq::empty()
    } else if dns::entry(tags, ts.last()) == Some(id) {
        effective(tags, id, ts.drop_last()).push(ts.last())
    } else {
        effective(tags, id, ts.drop_last())
    }
}

/// The tags that a record loses to another one that claims the first `n` of `claimed`: those
/// by which the index led to it.
pub open spec fn kept_tags(
    tags: Table<String>,
    id: Seq<char>,
    ts: Seq<Seq<char>>,
    claimed: Seq<Seq<char>>,
    n: int,
) -> Seq<Seq<char>>
    decreases n,
{
    if n <= 0 {
        ts
    } else {
        let k = kept_tags(tags, id, ts, claimed, n - 1);
        if dns::entry(tags, claimed[n - 1]) == Some(id) {
            omitted(k, claimed[n - 1])
        } else {
            k
        }
    }
}

/// Every record but one has lost those of the first `n` tags by which the index led to it.
pub open spec fn tags_lost(
    before: ImageStore,
    after: ImageStore,
    id: Seq<char>,
    ts: Seq<Seq<char>>,
    n: int,
) -> bool {
    forall|k: Seq<char>|
        k != id ==> match before.records.at(k) {
            Some(o) => (#[trigger] after.records.at(k)) matches Some(r) && r.same_but_tags(o)
                && r.tags() == kept_tags(before.tags, k, o.tags(), ts, n),
            None => after.records.at(k) is None,
        }
}

/// Tags lead to the record from now on; every other record has lost those of them by
/// which the index led to it.
pub open spec fn tags_moved(
    before: ImageStore,
    after: ImageStore,
    id: Seq<char>,
    ts: Seq<Seq<char>>,
) -> bool {
    &&& tags_lost(before, after, id, ts, ts.len() as int)
    &&& forall|t: Seq<char>|
        #[trigger] dns::entry(after.tags, t) == if ts.contains(t) {
            Some(id)
        } else {
            dns::entry(before.tags, t)
        }
}

/// What is wrong with the file of the record, other than one of its own, that a tag leads to.
pub open spec fn holder_fault(s: ImageStore, id: Seq<char>, t: Seq<char>) -> Option<Seq<char>> {
    match dns::entry(s.tags, t) {
        Some(p) => if p != id && s.records.at(p) is None {
            dns::entry(s.strays, p)
        } else {
            None
        },
        None => None,
    }
}

/// The first tag at or behind `i` whose present record cannot be read, or the end.
pub open spec fn faulty_from(s: ImageStore, id: Seq<char>, ts: Seq<Seq<char>>, i: int) -> int
    decreases ts.len() - i,
{
    if i < 0 || i >= ts.len() || holder_fault(s, id, ts[i]) is Some {
        i
    } else {
        faulty_from(s, id, ts, i + 1)
    }
}

/// Tags were claimed for a record: all of them, or where the present record of one cannot be
/// read, none in the index, while the records of those before it have lost theirs.
pub open spec fn were_claimed(
    before: ImageStore,
    after: ImageStore,
    id: Seq<char>,
    ts: Seq<Seq<char>>,
    failure: Option<Seq<char>>,
) -> bool {
    let n = faulty_from(before, id, ts, 0);
    if n < ts.len() {
        &&& failure == holder_fault(before, id, ts[n])
        &&& tags_lost(before, after, id, ts, n)
        &&& after.tags == before.tags
    } else {
        &&& failure is None
        &&& tags_moved(before, after, id, ts)
    }
}

/// What failed.
pub open spec fn failure_of(r: Result<(), String>) -> Option<Seq<char>> {
    match r {
        Ok(_) => None,
        Err(e) => Some(e@),
    }
}

/// A record has been put into the store.
pub open spec fn was_put(before: ImageStore, after: ImageStore, record: ImageRecord) -> bool {
    &&& after.records.at(record.id@) == Some(record)
    &&& tags_moved(before, after, record.id@, record.tags())
}

impl ImageStore {
    /// Every record stands under its own id, and its file is none of the others.
    pub open spec fn wf(self) -> bool {
        forall|k: Seq<char>| (#[trigger] self.records.at(k)) matches Some(r) ==> r.id@ == k
            && self.strays.at(k) is None
    }

    /// The index agrees with the records: a tag that a record has leads to it.
    pub open spec fn agrees(self) -> bool {
        forall|k: Seq<char>, t: Seq<char>|
            (#[trigger] self.records.at(k)) is Some && #[trigger] self.records.at(
                k,
            )->0.tags().contains(t) ==> dns::entry(self.tags, t) == Some(k)
    }

    pub fn new(tags: Table<String>) -> (r: ImageStore)
        ensures
            r.wf(),
            r.agrees(),
            r.tags == tags,
            forall|k: Seq<char>| #[trigger] r.records.at(k) is None,
            forall|k: Seq<char>| #[trigger] r.strays.at(k) is None,
    {
        ImageStore { records: Table::new(), tags, strays: Table::new() }
    }

    /// Notes a file that is named as that of a record and holds none of that id; one whose
    /// record is known stays as it is.
    pub fn note_stray(&mut self, name: &str, fault: &str)
        requires
            old(self).wf(),
        ensures
            final(self).wf(),
            final(self).records == old(self).records,
            final(self).tags == old(self).tags,
            forall|k: Seq<char>| #[trigger]
                dns::entry(final(self).strays, k) == if k == name@ && old(self).records.at(k) is None {
                    Some(fault@)
                } else {
                    dns::entry(old(self).strays, k)
                },
    {
        if self.records.contains_key(name) {
            return;
        }
        self.strays.insert(name.to_owned(), fault.to_owned());
        assert forall|k: Seq<char>| k != name@ implies #[trigger] self.strays.at(k) == old(
            self,
        ).strays.at(k) by {
        }
    }

    /// Takes a record in as it was found, without a look at the index.
    pub fn adopt(&mut self, record: ImageRecord)
        requires
            old(self).wf(),
        ensures
            final(self).wf(),
            final(self).tags == old(self).tags,
            final(self).records.at(record.id@) == Some(record),
            forall|k: Seq<char>| k != record.id@ ==> #[trigger] final(self).records.at(k) == old(
                self,
            ).records.at(k),
            final(self).strays.at(record.id@) is None,
            forall|k: Seq<char>| k != record.id@ ==> #[trigger] final(self).strays.at(k) == old(
                self,
            ).strays.at(k),
    {
        let id: String = record.id.clone();
        self.strays.remove(id.as_str());
        self.records.insert(id, record);
        assert forall|k: Seq<char>| (#[trigger] self.records.at(k)) matches Some(r)
            ==> r.id@ == k && self.strays.at(k) is None by {
            if k != record.id@ {
                assert(self.records.at(k) == old(self).records.at(k));
                assert(self.strays.at(k) == old(self).strays.at(k));
            }
        }
    }

    /// Takes in what a file beside the records was found to hold, or why it holds no record:
    /// a record under the name of its own file is taken in, one under another name too, where
    /// there is none of its id yet, and the file is noted; so is one without a record.
    pub fn take_file(&mut self, file: &str, found: Result<ImageRecord, String>)
        requires
            old(self).wf(),
        ensures
            final(self).wf(),
            final(self).tags == old(self).tags,
            match record_name(file@) {
                None => *final(self) == *old(self),
                Some(name) => {
                    &&& forall|k: Seq<char>| #[trigger]
                        final(self).records.at(k) == match found {
                            Ok(rec) => if k == rec.id@ && takes_place(*old(self), name, rec.id@) {
                                Some(rec)
                            } else {
                                old(self).records.at(k)
                            },
                            Err(_) => old(self).records.at(k),
                        }
                    &&& forall|k: Seq<char>| #[trigger]
                        dns::entry(final(self).strays, k) == match found {
                            Ok(rec) => if k == rec.id@ && takes_place(*old(self), name, rec.id@) {
                                None
                            } else if k == name && k != rec.id@ && old(self).records.at(k) is None {
                                Some(misfiled(file@, rec.id@))
                            } else {
                                dns::entry(old(self).strays, k)
                            },
                            Err(e) => if k == name && old(self).records.at(k) is None {
                                Some(e@)
                            } else {
                                dns::entry(old(self).strays, k)
                            },
                        }
                },
            },
    {
        let name: String = match name_of_record(file) {
            Some(n) => n,
            None => {
                return;
            },
        };
        match found {
            Err(e) => self.note_stray(name.as_str(), e.as_str()),
            Ok(rec) => {
                let ghost first = *self;
                let own: bool = same(rec.id.as_str(), name.as_str());
                let mut fault: String = file.to_owned();
                fault.append(" holds the record of ");
                fault.append(rec.id.as_str());
                if own || (!self.records.contains_key(rec.id.as_str()) && !self.strays.contains_key(
                    rec.id.as_str(),
                )) {
                    self.adopt(rec);
                }
                let ghost mid = *self;
                assert forall|k: Seq<char>| #[trigger] dns::entry(mid.strays, k) == if k == rec.id@
                    && takes_place(first, name@, rec.id@) {
                    None
                } else {
                    dns::entry(first.strays, k)
                } by {
                    if k != rec.id@ {
                        assert(mid.strays.at(k) == first.strays.at(k));
                    }
                }
                if !own {
                    assert(mid.records.at(name@) == first.records.at(name@));
                    self.note_stray(name.as_str(), fault.as_str());
                }
            },
        }
    }

    /// The tags, each with the id of the image that it names.
    pub fn all_tags(&self) -> (r: Table<String>)
        ensures
            r.entries@ == self.tags.entries@,
    {
        copy_table(&self.tags)
    }

    /// The record of an image; an error where its file holds none.
    pub fn load(&self, image_id: &str) -> (r: Result<Option<&ImageRecord>, String>)
        ensures
            match r {
                Ok(Some(x)) => self.records.at(image_id@) == Some(*x) && self.strays.at(
                    image_id@,
                ) is None,
                Ok(None) => self.records.at(image_id@) is None && self.strays.at(image_id@) is None,
                Err(e) => dns::entry(self.strays, image_id@) == Some(e@),
            },
    {
        if let Some(fault) = self.strays.get(image_id) {
            return Err(fault.clone());
        }
        Ok(self.records.get(image_id))
    }

    /// Takes the record under an id out, gives it other tags and puts it back.
    fn retag(&mut self, id: &str, tags: Vec<String>)
        requires
            old(self).wf(),
            old(self).records.at(id@) is Some,
        ensures
            final(self).wf(),
            final(self).tags == old(self).tags,
            final(self).strays == old(self).strays,
            final(self).records.at(id@) matches Some(r) && r.same_but_tags(
                old(self).records.at(id@)->0,
            ) && r.repo_tags == tags,
            forall|k: Seq<char>| k != id@ ==> #[trigger] final(self).records.at(k) == old(
                self,
            ).records.at(k),
    {
        let ghost before = self.records;
        if let Some(i) = self.records.find(id) {
            let e: (String, ImageRecord) = self.records.entries.remove(i);
            proof {
                table::lemma_removed(before, self.records, id@);
            }
            let mut r: ImageRecord = e.1;
            assert(before.at(id@) == Some(r));
            r.repo_tags = tags;
            self.records.insert(id.to_owned(), r);
        }
        assert forall|k: Seq<char>| (#[trigger] self.records.at(k)) matches Some(r)
            ==> r.id@ == k && self.strays.at(k) is None by {
            assert(before.at(id@)->0.id@ == id@);
            if k != id@ {
                assert(self.records.at(k) == before.at(k));
            }
        }
    }

    /// Lets tags lead to a record; the records that had them so far lose them. Where one of
    /// these cannot be read, the index stays as it is.
    fn claim(&mut self, id: &str, tags: &Vec<String>) -> (r: Result<(), String>)
        requires
            old(self).wf(),
        ensures
            final(self).wf(),
            final(self).records.at(id@) == old(self).records.at(id@),
            final(self).strays == old(self).strays,
            were_claimed(*old(self), *final(self), id@, text::texts(tags@), failure_of(r)),
    {
        let ghost first = *self;
        let ghost tags0 = self.tags;
        let ghost recs0 = self.records;
        let ghost ts = text::texts(tags@);
        let mut i: usize = 0;
        while i < tags.len()
            invariant
                i <= tags.len(),
                text::texts(tags@) == ts,
                self.wf(),
                self.tags == tags0,
                self.strays == first.strays,
                first == *old(self),
                first.tags == tags0,
                first.records == recs0,
                faulty_from(first, id@, ts, 0) == faulty_from(first, id@, ts, i as int),
                self.records.at(id@) == recs0.at(id@),
                forall|k: Seq<char>|
                    k != id@ ==> match recs0.at(k) {
                        Some(o) => (#[trigger] self.records.at(k)) matches Some(r)
                            && r.same_but_tags(o) && r.tags() == kept_tags(
                            tags0,
                            k,
                            o.tags(),
                            ts,
                            i as int,
                        ),
                        None => self.records.at(k) is None,
                    },
            decreases tags.len() - i,
        {
            let ghost recs1 = self.records;
            let t: &str = tags[i].as_str();
            assert(ts[i as int] == t@);
            let prev: Option<String> = match self.tags.get(t) {
                Some(p) => Some(p.clone()),
                None => None,
            };
            if let Some(p) = prev {
                if !same(p.as_str(), id) {
                    assert(recs0.at(p@) is None <==> self.records.at(p@) is None);
                    if let Some(fault) = self.strays.get(p.as_str()) {
                        return Err(fault.clone());
                    }
                    let less: Option<Vec<String>> = match self.records.get(p.as_str()) {
                        Some(o) => Some(omit(&o.repo_tags, t)),
                        None => None,
                    };
                    if let Some(l) = less {
                        self.retag(p.as_str(), l);
                    }
                }
            }
            proof {
                assert forall|k: Seq<char>| k != id@ implies match recs0.at(k) {
                    Some(o) => (#[trigger] self.records.at(k)) matches Some(r)
                        && r.same_but_tags(o) && r.tags() == kept_tags(
                        tags0,
                        k,
                        o.tags(),
                        ts,
                        i as int + 1,
                    ),
                    None => self.records.at(k) is None,
                } by {
                    assert(recs1.at(k) == recs1.at(k));
                    if dns::entry(tags0, t@) != Some(k) {
                        assert(self.records.at(k) == recs1.at(k));
                    }
                }
            }
            i += 1;
        }
        let ghost recs2 = self.records;
        let mut j: usize = 0;
        while j < tags.len()
            invariant
                j <= tags.len(),
                text::texts(tags@) == ts,
                self.records == recs2,
                self.strays == first.strays,
                forall|t: Seq<char>|
                    #[trigger] dns::entry(self.tags, t) == if ts.take(j as int).contains(t) {
                        Some(id@)
                    } else {
                        dns::entry(tags0, t)
                    },
            decreases tags.len() - j,
        {
            let ghost before = self.tags;
            self.tags.insert(tags[j].clone(), id.to_owned());
            proof {
                let a = ts.take(j as int);
                let b = ts.take(j as int + 1);
                let t0 = tags@[j as int]@;
                assert(ts[j as int] == t0);
                assert(b =~= a.push(t0));
                assert forall|t: Seq<char>| #[trigger]
                    dns::entry(self.tags, t) == if b.contains(t) {
                        Some(id@)
                    } else {
                        dns::entry(tags0, t)
                    } by {
                    if t == t0 {
                        assert(b[j as int] == t);
                    } else {
                        assert(self.tags.at(t) == before.at(t));
                        assert(dns::entry(before, t) == dns::entry(self.tags, t));
                        if a.contains(t) {
                            let m = choose|m: int| 0 <= m < a.len() && a[m] == t;
                            assert(b[m] == t);
                        }
                        if b.contains(t) {
                            let m = choose|m: int| 0 <= m < b.len() && b[m] == t;
                            assert(a[m] == t);
                        }
                    }
                }
            }
            j += 1;
        }
        assert(ts.take(ts.len() as int) =~= ts);
        Ok(())
    }

    /// Puts an image into the store. Each of its tags leads to it from now on, and the
    /// record that had the tag so far loses it. Where such a record cannot be read, the image
    /// is there and no tag leads to it.
    pub fn put_image(&mut self, record: ImageRecord) -> (r: Result<(), String>)
        requires
            old(self).wf(),
        ensures
            final(self).wf(),
            final(self).records.at(record.id@) == Some(record),
            were_claimed(*old(self), *final(self), record.id@, record.tags(), failure_of(r)),
            r is Ok ==> was_put(*old(self), *final(self), record),
            strays_without(*old(self), *final(self), record.id@),
    {
        let id: String = record.id.clone();
        let tags: Vec<String> = copy_strings(&record.repo_tags);
        self.adopt(record);
        let ghost mid = *self;
        let done: Result<(), String> = self.claim(id.as_str(), &tags);
        proof {
            lemma_claimed_after(*old(self), mid, *self, id@, record.tags(), failure_of(done));
        }
        done
    }
}

/// The files that hold no record are the same but for one name.
pub open spec fn strays_without(before: ImageStore, after: ImageStore, id: Seq<char>) -> bool {
    &&& after.strays.at(id) is None
    &&& forall|k: Seq<char>| k != id ==> #[trigger] after.strays.at(k) == before.strays.at(k)
}

proof fn lemma_faulty_same(a: ImageStore, b: ImageStore, id: Seq<char>, ts: Seq<Seq<char>>, i: int)
    requires
        a.tags == b.tags,
        forall|k: Seq<char>| k != id ==> #[trigger] a.strays.at(k) == b.strays.at(k),
        forall|k: Seq<char>| k != id ==> #[trigger] a.records.at(k) is None == b.records.at(k) is None,
    ensures
        faulty_from(a, id, ts, i) == faulty_from(b, id, ts, i),
        0 <= i < ts.len() ==> holder_fault(a, id, ts[i]) == holder_fault(b, id, ts[i]),
        0 <= i <= ts.len() ==> i <= faulty_from(a, id, ts, i) <= ts.len(),
        0 <= i && faulty_from(a, id, ts, i) < ts.len() ==> holder_fault(
            a,
            id,
            ts[faulty_from(a, id, ts, i)],
        ) is Some,
    decreases ts.len() - i,
{
    if 0 <= i < ts.len() {
        lemma_faulty_same(a, b, id, ts, i + 1);
        if let Some(p) = dns::entry(a.tags, ts[i]) {
            if p != id {
                assert(a.strays.at(p) == b.strays.at(p));
                assert(a.records.at(p) is None == b.records.at(p) is None);
            }
        }
    }
}

/// What is claimed once the record itself has changed is claimed of the store before.
proof fn lemma_claimed_after(
    before: ImageStore,
    mid: ImageStore,
    after: ImageStore,
    id: Seq<char>,
    ts: Seq<Seq<char>>,
    failure: Option<Seq<char>>,
)
    requires
        before.tags == mid.tags,
        forall|k: Seq<char>| k != id ==> #[trigger] mid.records.at(k) == before.records.at(k),
        forall|k: Seq<char>| k != id ==> #[trigger] mid.strays.at(k) == before.strays.at(k),
        were_claimed(mid, after, id, ts, failure),
    ensures
        were_claimed(before, after, id, ts, failure),
        failure is None ==> tags_moved(before, after, id, ts),
{
    lemma_faulty_same(mid, before, id, ts, 0);
    let n = faulty_from(before, id, ts, 0);
    if n < ts.len() {
        lemma_faulty_same(mid, before, id, ts, n);
    }
    let m = if n < ts.len() {
        n
    } else {
        ts.len() as int
    };
    assert forall|k: Seq<char>| k != id implies match before.records.at(k) {
        Some(o) => (#[trigger] after.records.at(k)) matches Some(r) && r.same_but_tags(o)
            && r.tags() == kept_tags(before.tags, k, o.tags(), ts, m),
        None => after.records.at(k) is None,
    } by {
        assert(mid.records.at(k) == before.records.at(k));
    }
}

/// A record as it goes into the store beside one that is there under the same id: the
/// tags and the digests of both, and the digest of the manifest that is known.
pub open spec fn is_merged(r: ImageRecord, new: ImageRecord, there: Option<ImageRecord>) -> bool {
    &&& r.same_but_names(new)
    &&& match there {
        Some(o) => {
            &&& r.tags() == united(new.tags(), o.tags())
            &&& text::texts(r.repo_digests@) == united(
                text::texts(new.repo_digests@),
                text::texts(o.repo_digests@),
            )
            &&& r.manifest_digest@ == if new.manifest_digest@.len() == 0 {
                o.manifest_digest@
            } else {
                new.manifest_digest@
            }
        },
        None => r == new,
    }
}

/// A text is among the lists of a record that is left.
pub open spec fn names_layer(e: Seq<(String, ImageRecord)>, d: Seq<char>) -> bool {
    exists|i: int|
        0 <= i < e.len() && text::texts((#[trigger] e[i]).1.diff_ids@).contains(d)
}

pub open spec fn names_blob(e: Seq<(String, ImageRecord)>, b: Seq<char>) -> bool {
    exists|i: int|
        0 <= i < e.len() && text::texts((#[trigger] e[i]).1.layer_blobs@).contains(b)
}

/// The layers among `v` that no record names.
pub open spec fn garbage_layers(e: Seq<(String, ImageRecord)>, v: Seq<Seq<char>>) -> Seq<Seq<char>>
    decreases v.len(),
{
    if v.len() == 0 {
        Seq::empty()
    } else if names_layer(e, v.last()) {
        garbage_layers(e, v.drop_last())
    } else {
        garbage_layers(e, v.drop_last()).push(v.last())
    }
}

/// The blobs among `v` that no record names.
pub open spec fn garbage_blobs(e: Seq<(String, ImageRecord)>, v: Seq<Seq<char>>) -> Seq<Seq<char>>
    decreases v.len(),
{
    if v.len() == 0 {
        Seq::empty()
    } else if names_blob(e, v.last()) {
        garbage_blobs(e, v.drop_last())
    } else {
        garbage_blobs(e, v.drop_last()).push(v.last())
    }
}

/// What is to be taken off the disk: layers, blobs and a configuration.
pub struct Garbage {
    pub layers: Vec<String>,
    pub blobs: Vec<String>,
    /// The id of the record whose configuration goes, where a record went.
    pub config: Option<String>,
}

/// What became of an image that was removed.
pub struct Removal {
    pub id: String,
    /// The tags that it still has.
    pub tags: Vec<String>,
    /// What to take off the disk where the record itself went.
    pub garbage: Option<Garbage>,
}

fn has_layer(e: &Vec<(String, ImageRecord)>, d: &str) -> (r: bool)
    ensures
        r == names_layer(e@, d@),
{
    let mut i: usize = 0;
    while i < e.len()
        invariant
            i <= e.len(),
            forall|j: int|
                0 <= j < i ==> !text::texts((#[trigger] e@[j]).1.diff_ids@).contains(d@),
        decreases e.len() - i,
    {
        if is_among(&e[i].1.diff_ids, d) {
            return true;
        }
        i += 1;
    }
    false
}

fn has_blob_ref(e: &Vec<(String, ImageRecord)>, b: &str) -> (r: bool)
    ensures
        r == names_blob(e@, b@),
{
    let mut i: usize = 0;
    while i < e.len()
        invariant
            i <= e.len(),
            forall|j: int|
                0 <= j < i ==> !text::texts((#[trigger] e@[j]).1.layer_blobs@).contains(b@),
        decreases e.len() - i,
    {
        if is_among(&e[i].1.layer_blobs, b) {
            return true;
        }
        i += 1;
    }
    false
}

/// The key of a tag in a name: `repo:tag`, with `latest` where there is none.
pub open spec fn named_tag(name: Seq<char>) -> Seq<char> {
    match text::rsplit_once(name, seq![':']) {
        Some((r, t)) => if text::contains(t, seq!['/']) {
            name + ":"@ + "latest"@
        } else {
            r + ":"@ + t
        },
        None => name + ":"@ + "latest"@,
    }
}

pub open spec fn is_hex_text(s: Seq<char>) -> bool {
    forall|i: int| 0 <= i < s.len() ==> num::hex_value(#[trigger] s[i]) is Some
}

/// The id without its algorithm.
pub open spec fn bare_id(s: Seq<char>) -> Seq<char> {
    text::strip_starts(s, "sha256:"@)
}

/// The first entry at or behind `i` whose name begins with the prefix.
pub open spec fn prefixed_from<V>(e: Seq<(String, V)>, p: Seq<char>, i: int) -> int
    decreases e.len() - i,
{
    if i < 0 || i >= e.len() || text::starts_with(e[i].0@, p) {
        i
    } else {
        prefixed_from(e, p, i + 1)
    }
}

/// The first record at or behind `i` that has the digest.
pub open spec fn with_digest_from(e: Seq<(String, ImageRecord)>, d: Seq<char>, i: int) -> int
    decreases e.len() - i,
{
    if i < 0 || i >= e.len() || text::texts(e[i].1.repo_digests@).contains(d) {
        i
    } else {
        with_digest_from(e, d, i + 1)
    }
}

/// The id that a name gives as such: all of it, or twelve characters or more that it
/// begins with. A file that is named by it counts, whatever it holds.
pub open spec fn id_of(st: ImageStore, name: Seq<char>) -> Option<Seq<char>> {
    let e = st.records.entries@;
    let o = st.strays.entries@;
    let hex = bare_id(name);
    let n = encode_utf8(hex).len();
    if !(text::starts_with(name, "sha256:"@) || is_hex_text(name)) || n < 12 {
        None
    } else if n == 64 {
        if table::place(e, hex) < e.len() || table::place(o, hex) < o.len() {
            Some(hex)
        } else {
            None
        }
    } else {
        let k = prefixed_from(e, hex, 0);
        let j = prefixed_from(o, hex, 0);
        if k < e.len() {
            Some(e[k].0@)
        } else if j < o.len() {
            Some(o[j].0@)
        } else {
            None
        }
    }
}

/// The image that a name means: an id, `repo@digest`, `repo:tag` or `repo` alone.
pub open spec fn image_of(s: ImageStore, name: Seq<char>) -> Result<Seq<char>, Seq<char>> {
    let missing = "No such image: "@ + name;
    match id_of(s, name) {
        Some(id) => Ok(id),
        None => if text::contains(name, seq!['@']) && !(reference::parsed(name) matches Ok(r)
            && r.digest is None) {
            match reference::parsed(name) {
                Err(e) => Err(e),
                Ok(r) => {
                    let k = with_digest_from(
                        s.records.entries@,
                        r.shown_repo() + "@"@ + r.digest->0,
                        0,
                    );
                    if k < s.records.entries@.len() {
                        Ok(s.records.entries@[k].1.id@)
                    } else {
                        Err(missing)
                    }
                },
            }
        } else {
            match dns::entry(s.tags, named_tag(name)) {
                Some(id) => Ok(id),
                None => Err(missing),
            }
        },
    }
}

/// The first name that begins with the prefix.
fn find_by_prefix<V>(e: &Vec<(String, V)>, prefix: &str) -> (r: Option<String>)
    ensures
        ({
            let k = prefixed_from(e@, prefix@, 0);
            match r {
                Some(id) => k < e@.len() && id@ == e@[k].0@,
                None => k == e@.len(),
            }
        }),
{
    let mut i: usize = 0;
    while i < e.len()
        invariant
            i <= e.len(),
            prefixed_from(e@, prefix@, 0) == prefixed_from(e@, prefix@, i as int),
        decreases e.len() - i,
    {
        if str_starts(e[i].0.as_str(), prefix) {
            return Some(e[i].0.clone());
        }
        i += 1;
    }
    None
}

fn hex_text_only(s: &str) -> (r: bool)
    ensures
        r == is_hex_text(s@),
{
    let cs: Vec<char> = chars_of(s);
    let mut i: usize = 0;
    while i < cs.len()
        invariant
            i <= cs.len(),
            cs@ == s@,
            forall|j: int| 0 <= j < i ==> num::hex_value(#[trigger] s@[j]) is Some,
        decreases cs.len() - i,
    {
        if hex_digit_value(cs[i]).is_none() {
            assert(num::hex_value(s@[i as int]) is None);
            return false;
        }
        i += 1;
    }
    true
}

/// The id without its algorithm.
pub fn bare(s: &str) -> (r: String)
    ensures
        r@ == bare_id(s@),
{
    let cs: Vec<char> = chars_of(s);
    let p: Vec<char> = chars_of("sha256:");
    string_of(strip_starts_text(cs.as_slice(), p.as_slice()))
}

/// The directories of layers, the lowest first: their digests without the algorithm.
pub open spec fn bare_ids(v: Seq<Seq<char>>) -> Seq<Seq<char>> {
    Seq::new(v.len(), |i: int| bare_id(v[i]))
}

impl ImageStore {
    /// Puts an image into the store, keeping the tags and digests that a record under the
    /// same id has.
    pub fn put_image_merged(&mut self, record: ImageRecord) -> (r: Result<(), String>)
        requires
            old(self).wf(),
        ensures
            final(self).wf(),
            match dns::entry(old(self).strays, record.id@) {
                Some(fault) => *final(self) == *old(self) && failure_of(r) == Some(fault),
                None => final(self).records.at(record.id@) matches Some(m) && {
                    &&& is_merged(m, record, old(self).records.at(record.id@))
                    &&& were_claimed(*old(self), *final(self), m.id@, m.tags(), failure_of(r))
                    &&& r is Ok ==> was_put(*old(self), *final(self), m)
                    &&& strays_without(*old(self), *final(self), m.id@)
                },
            },
    {
        if let Some(fault) = self.strays.get(record.id.as_str()) {
            return Err(fault.clone());
        }
        let mut merged: ImageRecord = record;
        let there: Option<(Vec<String>, Vec<String>, String)> = match self.records.get(
            merged.id.as_str(),
        ) {
            Some(o) => Some(
                (
                    copy_strings(&o.repo_tags),
                    copy_strings(&o.repo_digests),
                    o.manifest_digest.clone(),
                ),
            ),
            None => None,
        };
        if let Some((tags, digests, manifest)) = there {
            let t: Vec<String> = unite(merged.repo_tags, &tags);
            let d: Vec<String> = unite(merged.repo_digests, &digests);
            merged.repo_tags = t;
            merged.repo_digests = d;
            if merged.manifest_digest.as_str().is_empty() {
                merged.manifest_digest = manifest;
            }
        }
        self.put_image(merged)
    }

    /// The tags of a record that the index leads to it by.
    pub fn effective_tags(&self, id: &str, repo_tags: &Vec<String>) -> (r: Vec<String>)
        ensures
            text::texts(r@) == effective(self.tags, id@, text::texts(repo_tags@)),
    {
        let ghost tv = text::texts(repo_tags@);
        let mut out: Vec<String> = Vec::new();
        let mut i: usize = 0;
        assert(text::texts(out@) =~= Seq::empty());
        assert(tv.take(0) =~= Seq::empty());
        while i < repo_tags.len()
            invariant
                i <= repo_tags.len(),
                tv == text::texts(repo_tags@),
                text::texts(out@) == effective(self.tags, id@, tv.take(i as int)),
            decreases repo_tags.len() - i,
        {
            assert(tv.take(i as int + 1).drop_last() =~= tv.take(i as int));
            assert(tv[i as int] == repo_tags@[i as int]@);
            let named: bool = match self.tags.get(repo_tags[i].as_str()) {
                Some(x) => same(x.as_str(), id),
                None => false,
            };
            if named {
                add_word(&mut out, repo_tags[i].as_str());
            }
            i += 1;
        }
        assert(tv.take(tv.len() as int) =~= tv);
        out
    }

    /// The records, each with the tags that the index leads to it by, which stand for its
    /// own.
    pub fn list_effective<'a>(&'a self) -> (r: Vec<(&'a ImageRecord, Vec<String>)>)
        ensures
            r@.len() == self.records.entries@.len(),
            forall|i: int|
                0 <= i < r@.len() ==> *(#[trigger] r@[i]).0 == self.records.entries@[i].1
                    && text::texts(r@[i].1@) == effective(
                    self.tags,
                    self.records.entries@[i].1.id@,
                    self.records.entries@[i].1.tags(),
                ),
    {
        let mut out: Vec<(&'a ImageRecord, Vec<String>)> = Vec::new();
        let mut i: usize = 0;
        while i < self.records.entries.len()
            invariant
                i <= self.records.entries.len(),
                out@.len() == i,
                forall|j: int|
                    0 <= j < i ==> *(#[trigger] out@[j]).0 == self.records.entries@[j].1
                        && text::texts(out@[j].1@) == effective(
                        self.tags,
                        self.records.entries@[j].1.id@,
                        self.records.entries@[j].1.tags(),
                    ),
            decreases self.records.entries.len() - i,
        {
            let rec: &'a ImageRecord = &self.records.entries[i].1;
            let ts: Vec<String> = self.effective_tags(rec.id.as_str(), &rec.repo_tags);
            out.push((rec, ts));
            i += 1;
        }
        out
    }

    fn find_by_digest(&self, d: &str) -> (r: Option<String>)
        ensures
            ({
                let e = self.records.entries@;
                let k = with_digest_from(e, d@, 0);
                match r {
                    Some(id) => k < e.len() && id@ == e[k].1.id@,
                    None => k == e.len(),
                }
            }),
    {
        let mut i: usize = 0;
        while i < self.records.entries.len()
            invariant
                i <= self.records.entries.len(),
                with_digest_from(self.records.entries@, d@, 0) == with_digest_from(
                    self.records.entries@,
                    d@,
                    i as int,
                ),
            decreases self.records.entries.len() - i,
        {
            if is_among(&self.records.entries[i].1.repo_digests, d) {
                return Some(self.records.entries[i].1.id.clone());
            }
            i += 1;
        }
        None
    }

    fn resolve_id(&self, name: &str) -> (r: Option<String>)
        ensures
            reference::opt_text(r) == id_of(*self, name@),
    {
        if !str_starts(name, "sha256:") && !hex_text_only(name) {
            return None;
        }
        let hex: String = bare(name);
        let n: usize = hex.as_str().as_bytes().len();
        if n < 12 {
            return None;
        }
        if n == 64 {
            if self.records.contains_key(hex.as_str()) || self.strays.contains_key(hex.as_str()) {
                return Some(hex);
            }
            return None;
        }
        match find_by_prefix(&self.records.entries, hex.as_str()) {
            Some(id) => Some(id),
            None => find_by_prefix(&self.strays.entries, hex.as_str()),
        }
    }

    /// The id of the image that a name means.
    pub fn resolve(&self, name: &str) -> (r: Result<String, String>)
        ensures
            match r {
                Ok(id) => image_of(*self, name@) == Ok::<Seq<char>, Seq<char>>(id@),
                Err(e) => image_of(*self, name@) == Err::<Seq<char>, Seq<char>>(e@),
            },
    {
        if let Some(id) = self.resolve_id(name) {
            return Ok(id);
        }
        let mut missing: String = "No such image: ".to_owned();
        missing.append(name);
        if has_char(chars_of(name).as_slice(), '@') {
            match ImageRef::parse(name) {
                Err(e) => {
                    return Err(e);
                },
                Ok(probe) => {
                    if let Some(pinned) = &probe.digest {
                        let mut want: String = probe.display_ref_no_tag();
                        want.append("@");
                        want.append(pinned.as_str());
                        return match self.find_by_digest(want.as_str()) {
                            Some(id) => Ok(id),
                            None => Err(missing),
                        };
                    }
                },
            }
        }
        let key: String = match str_rcut(name, ':') {
            Some((a, t)) => {
                if has_char(chars_of(t.as_str()).as_slice(), '/') {
                    let mut k: String = name.to_owned();
                    k.append(":");
                    k.append("latest");
                    k
                } else {
                    let mut k: String = a;
                    k.append(":");
                    k.append(t.as_str());
                    k
                }
            },
            None => {
                let mut k: String = name.to_owned();
                k.append(":");
                k.append("latest");
                k
            },
        };
        match self.tags.get(key.as_str()) {
            Some(id) => Ok(id.clone()),
            None => Err(missing),
        }
    }

    /// What a record that went, or that was replaced, named and no record names any more.
    pub fn gc_replaced_layers(&self, diff_ids: &Vec<String>, layer_blobs: &Vec<String>) -> (r: (
        Vec<String>,
        Vec<String>,
    ))
        ensures
            text::texts(r.0@) == garbage_layers(self.records.entries@, text::texts(diff_ids@)),
            text::texts(r.1@) == garbage_blobs(self.records.entries@, text::texts(layer_blobs@)),
    {
        let ghost e = self.records.entries@;
        let ghost dv = text::texts(diff_ids@);
        let ghost bv = text::texts(layer_blobs@);
        let mut layers: Vec<String> = Vec::new();
        let mut i: usize = 0;
        assert(text::texts(layers@) =~= Seq::empty());
        assert(dv.take(0) =~= Seq::empty());
        while i < diff_ids.len()
            invariant
                i <= diff_ids.len(),
                e == self.records.entries@,
                dv == text::texts(diff_ids@),
                text::texts(layers@) == garbage_layers(e, dv.take(i as int)),
            decreases diff_ids.len() - i,
        {
            assert(dv.take(i as int + 1).drop_last() =~= dv.take(i as int));
            if !has_layer(&self.records.entries, diff_ids[i].as_str()) {
                add_word(&mut layers, diff_ids[i].as_str());
            }
            i += 1;
        }
        assert(dv.take(dv.len() as int) =~= dv);
        let mut blobs: Vec<String> = Vec::new();
        let mut j: usize = 0;
        assert(text::texts(blobs@) =~= Seq::empty());
        assert(bv.take(0) =~= Seq::empty());
        while j < layer_blobs.len()
            invariant
                j <= layer_blobs.len(),
                e == self.records.entries@,
                bv == text::texts(layer_blobs@),
                text::texts(blobs@) == garbage_blobs(e, bv.take(j as int)),
            decreases layer_blobs.len() - j,
        {
            assert(bv.take(j as int + 1).drop_last() =~= bv.take(j as int));
            if !has_blob_ref(&self.records.entries, layer_blobs[j].as_str()) {
                add_word(&mut blobs, layer_blobs[j].as_str());
            }
            j += 1;
        }
        assert(bv.take(bv.len() as int) =~= bv);
        (layers, blobs)
    }
}

/// The index without the tags of `ts` that lead to the record.
pub open spec fn untagged(
    before: Table<String>,
    after: Table<String>,
    id: Seq<char>,
    ts: Seq<Seq<char>>,
) -> bool {
    forall|t: Seq<char>|
        #[trigger] dns::entry(after, t) == if ts.contains(t) && dns::entry(before, t) == Some(id) {
            None
        } else {
            dns::entry(before, t)
        }
}

impl ImageStore {
    /// Gives an image one more tag, which leads to it from now on.
    pub fn tag(&mut self, image_id: &str, tag_key: &str) -> (r: Result<(), String>)
        requires
            old(self).wf(),
        ensures
            final(self).wf(),
            match old(self).records.at(image_id@) {
                None => *final(self) == *old(self) && (r matches Err(e) && e@ == match dns::entry(
                    old(self).strays,
                    image_id@,
                ) {
                    Some(fault) => fault,
                    None => "no such image: "@ + image_id@,
                }),
                Some(o) => if o.tags().contains(tag_key@) {
                    r is Ok && *final(self) == *old(self)
                } else {
                    &&& final(self).records.at(image_id@) matches Some(n)
                    &&& n.same_but_tags(o)
                    &&& n.tags() == o.tags().push(tag_key@)
                    &&& were_claimed(*old(self), *final(self), image_id@, n.tags(), failure_of(r))
                    &&& final(self).strays == old(self).strays
                },
            },
    {
        if let Some(fault) = self.strays.get(image_id) {
            return Err(fault.clone());
        }
        let ts: Vec<String> = match self.records.get(image_id) {
            Some(rec) => {
                if is_among(&rec.repo_tags, tag_key) {
                    return Ok(());
                }
                let mut ts: Vec<String> = copy_strings(&rec.repo_tags);
                add_word(&mut ts, tag_key);
                ts
            },
            None => {
                let mut e: String = "no such image: ".to_owned();
                e.append(image_id);
                return Err(e);
            },
        };
        let claimed: Vec<String> = copy_strings(&ts);
        self.retag(image_id, ts);
        let ghost mid = *self;
        let done: Result<(), String> = self.claim(image_id, &claimed);
        proof {
            lemma_claimed_after(
                *old(self),
                mid,
                *self,
                image_id@,
                text::texts(claimed@),
                failure_of(done),
            );
        }
        done
    }

    /// Takes the tags of `ts` that lead to the record out of the index.
    fn untag(&mut self, id: &str, ts: &Vec<String>)
        ensures
            final(self).records == old(self).records,
            final(self).strays == old(self).strays,
            untagged(old(self).tags, final(self).tags, id@, text::texts(ts@)),
    {
        let ghost tags0 = self.tags;
        let ghost tv = text::texts(ts@);
        let mut i: usize = 0;
        while i < ts.len()
            invariant
                i <= ts.len(),
                tv == text::texts(ts@),
                self.records == old(self).records,
                self.strays == old(self).strays,
                untagged(tags0, self.tags, id@, tv.take(i as int)),
            decreases ts.len() - i,
        {
            let ghost before = self.tags;
            let t: &str = ts[i].as_str();
            let named: bool = match self.tags.get(t) {
                Some(x) => same(x.as_str(), id),
                None => false,
            };
            if named {
                self.tags.remove(t);
            }
            proof {
                let a = tv.take(i as int);
                let b = tv.take(i as int + 1);
                assert(tv[i as int] == t@);
                assert(b =~= a.push(t@));
                assert forall|x: Seq<char>| #[trigger]
                    dns::entry(self.tags, x) == if b.contains(x) && dns::entry(tags0, x) == Some(
                        id@,
                    ) {
                        None
                    } else {
                        dns::entry(tags0, x)
                    } by {
                    assert(dns::entry(before, x) == if a.contains(x) && dns::entry(tags0, x)
                        == Some(id@) {
                        None
                    } else {
                        dns::entry(tags0, x)
                    });
                    if x == t@ {
                        assert(b[i as int] == x);
                    } else {
                        assert(self.tags.at(x) == before.at(x));
                        if a.contains(x) {
                            let m = choose|m: int| 0 <= m < a.len() && a[m] == x;
                            assert(b[m] == x);
                        }
                        if b.contains(x) {
                            let m = choose|m: int| 0 <= m < b.len() && b[m] == x;
                            assert(a[m] == x);
                        }
                    }
                }
            }
            i += 1;
        }
        assert(tv.take(tv.len() as int) =~= tv);
    }

    /// Takes a record away; gives back what no other record names.
    fn delete_record(&mut self, id: &str) -> (r: Garbage)
        requires
            old(self).wf(),
            old(self).records.at(id@) is Some,
        ensures
            final(self).wf(),
            final(self).tags == old(self).tags,
            final(self).strays == old(self).strays,
            final(self).records.at(id@) is None,
            forall|k: Seq<char>| k != id@ ==> #[trigger] final(self).records.at(k) == old(
                self,
            ).records.at(k),
            ({
                let o = old(self).records.at(id@)->0;
                let e = final(self).records.entries@;
                &&& text::texts(r.layers@) == garbage_layers(e, text::texts(o.diff_ids@))
                &&& text::texts(r.blobs@) == garbage_blobs(e, text::texts(o.layer_blobs@))
                &&& reference::opt_text(r.config) == Some(id@)
            }),
    {
        let ghost before = self.records;
        let (diffs, blobs): (Vec<String>, Vec<String>) = match self.records.get(id) {
            Some(o) => (copy_strings(&o.diff_ids), copy_strings(&o.layer_blobs)),
            None => (Vec::new(), Vec::new()),
        };
        self.records.remove(id);
        assert forall|k: Seq<char>| (#[trigger] self.records.at(k)) matches Some(x)
            ==> x.id@ == k && self.strays.at(k) is None by {
            if k != id@ {
                assert(self.records.at(k) == before.at(k));
            }
        }
        let (l, b): (Vec<String>, Vec<String>) = self.gc_replaced_layers(&diffs, &blobs);
        Garbage { layers: l, blobs: b, config: Some(id.to_owned()) }
    }

    /// Takes one tag of an image away, and the image where that was its last; without a
    /// tag, the image and all its tags. A tag that leads to another image meanwhile stays.
    pub fn remove_image(&mut self, image_id: &str, tag_key: Option<&str>) -> (r: Result<
        Removal,
        String,
    >)
        requires
            old(self).wf(),
        ensures
            final(self).wf(),
            final(self).strays == old(self).strays,
            match old(self).records.at(image_id@) {
                None => *final(self) == *old(self) && (r matches Err(e) && e@ == match dns::entry(
                    old(self).strays,
                    image_id@,
                ) {
                    Some(fault) => fault,
                    None => "No such image: "@ + image_id@,
                }),
                Some(o) => {
                    let left = match tag_key {
                        Some(t) => omitted(o.tags(), t@),
                        None => o.tags(),
                    };
                    let gone = tag_key is None || left.len() == 0;
                    &&& r matches Ok(x)
                    &&& x.id@ == image_id@
                    &&& text::texts(x.tags@) == left
                    &&& untagged(
                        old(self).tags,
                        final(self).tags,
                        image_id@,
                        match tag_key {
                            Some(t) => seq![t@],
                            None => o.tags(),
                        },
                    )
                    &&& forall|k: Seq<char>| k != image_id@ ==> #[trigger] final(self).records.at(k)
                        == old(self).records.at(k)
                    &&& match x.garbage {
                        Some(g) => {
                            let e = final(self).records.entries@;
                            &&& gone
                            &&& final(self).records.at(image_id@) is None
                            &&& text::texts(g.layers@) == garbage_layers(
                                e,
                                text::texts(o.diff_ids@),
                            )
                            &&& text::texts(g.blobs@) == garbage_blobs(
                                e,
                                text::texts(o.layer_blobs@),
                            )
                            &&& reference::opt_text(g.config) == Some(image_id@)
                        },
                        None => {
                            &&& !gone
                            &&& final(self).records.at(image_id@) matches Some(n)
                            &&& n.same_but_tags(o)
                            &&& n.tags() == left
                        },
                    }
                },
            },
    {
        let (all, left): (Vec<String>, Vec<String>) = match self.records.get(image_id) {
            Some(o) => match tag_key {
                Some(t) => {
                    let mut one: Vec<String> = Vec::new();
                    one.push(t.to_owned());
                    assert(text::texts(one@) =~= seq![t@]);
                    (one, omit(&o.repo_tags, t))
                },
                None => (copy_strings(&o.repo_tags), copy_strings(&o.repo_tags)),
            },
            None => {
                if let Some(fault) = self.strays.get(image_id) {
                    return Err(fault.clone());
                }
                let mut e: String = "No such image: ".to_owned();
                e.append(image_id);
                return Err(e);
            },
        };
        self.untag(image_id, &all);
        assert(text::texts(left@).len() == left@.len());
        if tag_key.is_none() || left.len() == 0 {
            let g: Garbage = self.delete_record(image_id);
            return Ok(Removal { id: image_id.to_owned(), tags: left, garbage: Some(g) });
        }
        let back: Vec<String> = copy_strings(&left);
        self.retag(image_id, left);
        Ok(Removal { id: image_id.to_owned(), tags: back, garbage: None })
    }

    /// The directories of layers, the lowest first.
    pub fn lowerdirs(diff_ids: &Vec<String>) -> (r: Vec<String>)
        ensures
            text::texts(r@) == bare_ids(text::texts(diff_ids@)),
    {
        let mut out: Vec<String> = Vec::new();
        let mut i: usize = 0;
        while i < diff_ids.len()
            invariant
                i <= diff_ids.len(),
                text::texts(out@) =~= bare_ids(text::texts(diff_ids@)).take(i as int),
            decreases diff_ids.len() - i,
        {
            add_word(&mut out, bare(diff_ids[i].as_str()).as_str());
            i += 1;
        }
        assert(bare_ids(text::texts(diff_ids@)).take(diff_ids@.len() as int) =~= bare_ids(
            text::texts(diff_ids@),
        ));
        out
    }
}

// ---------------------------------------------------------------- chains of layers

/// The digest of a layer upon those below it.
pub open spec fn chain_id(parent: Option<Seq<char>>, diff: Seq<char>) -> Seq<char> {
    match parent {
        Some(p) => encode::digest_text(encode_utf8(p + " "@ + diff)),
        None => diff,
    }
}

/// For each layer, the digest of the layers up to it.
pub open spec fn chain_ids(diffs: Seq<Seq<char>>) -> Seq<Seq<char>>
    decreases diffs.len(),
{
    if diffs.len() == 0 {
        Seq::empty()
    } else {
        let c = chain_ids(diffs.drop_last());
        c.push(
            chain_id(
                if c.len() == 0 {
                    None
                } else {
                    Some(c.last())
                },
                diffs.last(),
            ),
        )
    }
}

impl ImageRecord {
    pub fn compute_chain_ids(diff_ids: &[String]) -> (r: Vec<String>)
        ensures
            text::texts(r@) == chain_ids(text::texts(diff_ids@)),
    {
        let ghost dv = text::texts(diff_ids@);
        let mut out: Vec<String> = Vec::new();
        let mut i: usize = 0;
        assert(text::texts(out@) =~= Seq::empty());
        assert(dv.take(0) =~= Seq::empty());
        while i < diff_ids.len()
            invariant
                i <= diff_ids.len(),
                dv == text::texts(diff_ids@),
                text::texts(out@) == chain_ids(dv.take(i as int)),
                out@.len() == i,
            decreases diff_ids.len() - i,
        {
            assert(dv.take(i as int + 1).drop_last() =~= dv.take(i as int));
            let d: &str = diff_ids[i].as_str();
            let c: String = if i == 0 {
                d.to_owned()
            } else {
                assert(text::texts(out@).last() == out@[i - 1]@);
                let mut p: String = out[i - 1].clone();
                p.append(" ");
                p.append(d);
                digest_of(p.as_str().as_bytes())
            };
            add_word(&mut out, c.as_str());
            i += 1;
        }
        assert(dv.take(dv.len() as int) =~= dv);
        out
    }
}

// ---------------------------------------------------------------- laws

proof fn lemma_kept_tags(
    tags: Table<String>,
    id: Seq<char>,
    ts: Seq<Seq<char>>,
    claimed: Seq<Seq<char>>,
    n: int,
)
    requires
        0 <= n <= claimed.len(),
    ensures
        forall|t: Seq<char>| #[trigger]
            kept_tags(tags, id, ts, claimed, n).contains(t) <==> ts.contains(t) && !(
            dns::entry(tags, t) == Some(id) && claimed.take(n).contains(t)),
    decreases n,
{
    if n > 0 {
        lemma_kept_tags(tags, id, ts, claimed, n - 1);
        let k = kept_tags(tags, id, ts, claimed, n - 1);
        let x = claimed[n - 1];
        lemma_omitted(k, x);
        let a = claimed.take(n - 1);
        let b = claimed.take(n);
        assert(b =~= a.push(x));
        assert forall|t: Seq<char>| #[trigger]
            kept_tags(tags, id, ts, claimed, n).contains(t) <==> ts.contains(t) && !(
            dns::entry(tags, t) == Some(id) && b.contains(t)) by {
            assert(k.contains(t) <==> ts.contains(t) && !(dns::entry(tags, t) == Some(id)
                && a.contains(t)));
            assert(b[n - 1] == x);
            if a.contains(t) {
                let m = choose|m: int| 0 <= m < a.len() && a[m] == t;
                assert(b[m] == t);
            }
            if b.contains(t) && t != x {
                let m = choose|m: int| 0 <= m < b.len() && b[m] == t;
                assert(a[m] == t);
            }
            assert(omitted(k, x).contains(t) <==> k.contains(t) && t != x);
        }
    }
}

/// A tag names one image: where the index agrees with the records, it still does once an
/// image has been put into the store, and no other image has one of its tags.
pub proof fn law_tag_names_one_image(before: ImageStore, after: ImageStore, record: ImageRecord)
    requires
        before.agrees(),
        was_put(before, after, record),
    ensures
        after.agrees(),
        forall|k: Seq<char>, t: Seq<char>|
            k != record.id@ && (#[trigger] after.records.at(k)) is Some && #[trigger]
                after.records.at(k)->0.tags().contains(t) ==> !record.tags().contains(t),
{
    let claimed = record.tags();
    let n = claimed.len() as int;
    assert(claimed.take(n) =~= claimed);
    assert forall|k: Seq<char>, t: Seq<char>|
        (#[trigger] after.records.at(k)) is Some && #[trigger] after.records.at(
            k,
        )->0.tags().contains(t) implies dns::entry(after.tags, t) == Some(k) && (k != record.id@
        ==> !claimed.contains(t)) by {
        if k != record.id@ {
            let o = before.records.at(k);
            assert(o is Some);
            lemma_kept_tags(before.tags, k, o->0.tags(), claimed, n);
            assert(o->0.tags().contains(t));
            assert(dns::entry(before.tags, t) == Some(k));
        }
    }
}

/// What is shown as a record's tags are tags that lead to it, and where the index agrees
/// with the records these are all that it has.
pub proof fn law_effective_tags(tags: Table<String>, id: Seq<char>, ts: Seq<Seq<char>>)
    ensures
        forall|t: Seq<char>| #[trigger]
            effective(tags, id, ts).contains(t) <==> ts.contains(t) && dns::entry(tags, t) == Some(
                id,
            ),
        (forall|t: Seq<char>| #[trigger] ts.contains(t) ==> dns::entry(tags, t) == Some(id))
            ==> effective(tags, id, ts) == ts,
    decreases ts.len(),
{
    if ts.len() > 0 {
        let d = ts.drop_last();
        let x = ts.last();
        law_effective_tags(tags, id, d);
        let q = effective(tags, id, d);
        let r = effective(tags, id, ts);
        assert(ts[ts.len() - 1] == x);
        assert forall|t: Seq<char>| #[trigger] r.contains(t) <==> ts.contains(t) && dns::entry(
            tags,
            t,
        ) == Some(id) by {
            assert(q.contains(t) <==> d.contains(t) && dns::entry(tags, t) == Some(id));
            if d.contains(t) {
                let m = choose|m: int| 0 <= m < d.len() && d[m] == t;
                assert(ts[m] == t);
            }
            if ts.contains(t) && t != x {
                let m = choose|m: int| 0 <= m < ts.len() && ts[m] == t;
                assert(d[m] == t);
            }
            if q.contains(t) {
                let m = choose|m: int| 0 <= m < q.len() && q[m] == t;
                assert(r[m] == t);
            }
            if dns::entry(tags, x) == Some(id) {
                assert(r[r.len() - 1] == x);
                if r.contains(t) && t != x {
                    let m = choose|m: int| 0 <= m < r.len() && r[m] == t;
                    assert(q[m] == t);
                }
            }
        }
        if forall|t: Seq<char>| #[trigger] ts.contains(t) ==> dns::entry(tags, t) == Some(id) {
            assert(ts.contains(x));
            assert forall|t: Seq<char>| #[trigger] d.contains(t) implies dns::entry(tags, t)
                == Some(id) by {
                let m = choose|m: int| 0 <= m < d.len() && d[m] == t;
                assert(ts[m] == t);
                assert(ts.contains(t));
            }
            assert(r =~= ts);
        }
    }
}

/// What becomes garbage is named by no record that is left, and everything that a record
/// named and no other does becomes garbage.
pub proof fn law_shared_layers_stay(
    e: Seq<(String, ImageRecord)>,
    diffs: Seq<Seq<char>>,
    blobs: Seq<Seq<char>>,
    x: Seq<char>,
)
    ensures
        garbage_layers(e, diffs).contains(x) <==> diffs.contains(x) && !names_layer(e, x),
        garbage_blobs(e, blobs).contains(x) <==> blobs.contains(x) && !names_blob(e, x),
{
    lemma_garbage_layers(e, diffs, x);
    lemma_garbage_blobs(e, blobs, x);
}

proof fn lemma_garbage_layers(e: Seq<(String, ImageRecord)>, v: Seq<Seq<char>>, x: Seq<char>)
    ensures
        garbage_layers(e, v).contains(x) <==> v.contains(x) && !names_layer(e, x),
    decreases v.len(),
{
    if v.len() > 0 {
        let d = v.drop_last();
        lemma_garbage_layers(e, d, x);
        lemma_pushed(d, v.last(), x);
        lemma_pushed(garbage_layers(e, d), v.last(), x);
        assert(v =~= d.push(v.last()));
    }
}

proof fn lemma_garbage_blobs(e: Seq<(String, ImageRecord)>, v: Seq<Seq<char>>, x: Seq<char>)
    ensures
        garbage_blobs(e, v).contains(x) <==> v.contains(x) && !names_blob(e, x),
    decreases v.len(),
{
    if v.len() > 0 {
        let d = v.drop_last();
        lemma_garbage_blobs(e, d, x);
        lemma_pushed(d, v.last(), x);
        lemma_pushed(garbage_blobs(e, d), v.last(), x);
        assert(v =~= d.push(v.last()));
    }
}

pub proof fn lemma_pushed(v: Seq<Seq<char>>, a: Seq<char>, x: Seq<char>)
    ensures
        v.push(a).contains(x) <==> v.contains(x) || x == a,
{
    let w = v.push(a);
    assert(w[v.len() as int] == a);
    if v.contains(x) {
        let k = choose|k: int| 0 <= k < v.len() && v[k] == x;
        assert(w[k] == x);
    }
    if w.contains(x) {
        let k = choose|k: int| 0 <= k < w.len() && w[k] == x;
        if k < v.len() {
            assert(v[k] == x);
        }
    }
}

/// An image that is put beside one under the same id keeps every tag and every digest of
/// both, and the digest of its manifest.
pub proof fn law_merge_keeps_names(
    merged: ImageRecord,
    new: ImageRecord,
    there: ImageRecord,
    x: Seq<char>,
)
    requires
        is_merged(merged, new, Some(there)),
    ensures
        merged.tags().contains(x) <==> new.tags().contains(x) || there.tags().contains(x),
        text::texts(merged.repo_digests@).contains(x) <==> text::texts(
            new.repo_digests@,
        ).contains(x) || text::texts(there.repo_digests@).contains(x),
        new.manifest_digest@.len() == 0 ==> merged.manifest_digest@ == there.manifest_digest@,
{
    lemma_united(new.tags(), there.tags());
    lemma_united(text::texts(new.repo_digests@), text::texts(there.repo_digests@));
}

/// There is one chain for each layer, the first layer's is its own digest, and a chain
/// depends on nothing above its layer.
pub proof fn law_chain_ids(diffs: Seq<Seq<char>>, i: int)
    requires
        0 <= i < diffs.len(),
    ensures
        chain_ids(diffs).len() == diffs.len(),
        chain_ids(diffs)[0] == diffs[0],
        chain_ids(diffs)[i] == chain_ids(diffs.take(i + 1)).last(),
        chain_ids(diffs)[i] == chain_id(
            if i == 0 {
                None
            } else {
                Some(chain_ids(diffs)[i - 1])
            },
            diffs[i],
        ),
    decreases diffs.len(),
{
    let d = diffs.drop_last();
    if d.len() > 0 {
        law_chain_ids(d, 0);
    }
    assert(chain_ids(d).len() == d.len());
    if i < d.len() {
        law_chain_ids(d, i);
        assert(d.take(i + 1) =~= diffs.take(i + 1));
    } else {
        assert(diffs.take(i + 1) =~= diffs);
    }
}

/// A hexadecimal digit.
pub open spec fn is_hex_digit(c: char) -> bool {
    '0' <= c <= '9' || 'a' <= c <= 'f' || 'A' <= c <= 'F'
}

/// A name that can be no id: it has no algorithm in front, and a character that no id has.
pub open spec fn names_no_id(name: Seq<char>) -> bool {
    !text::starts_with(name, "sha256:"@) && exists|j: int|
        0 <= j < name.len() && !is_hex_digit(#[trigger] name[j])
}

/// A name stands for a tag: it is the tag, whose part behind the last colon has no slash, or
/// it names no tag itself and the tag is `latest`.
pub open spec fn stands_for(name: Seq<char>, t: Seq<char>) -> bool {
    if tells_a_tag(name) {
        t == name
    } else {
        t == name + ":latest"@
    }
}

/// There is a colon in a name with no slash behind it.
pub open spec fn tells_a_tag(name: Seq<char>) -> bool {
    exists|k: int|
        0 <= k < name.len() && #[trigger] name[k] == ':' && forall|j: int|
            k < j < name.len() ==> #[trigger] name[j] != '/'
}

proof fn lemma_no_id(s: ImageStore, name: Seq<char>)
    requires
        names_no_id(name),
    ensures
        id_of(s, name) is None,
{
    let j = choose|j: int| 0 <= j < name.len() && !is_hex_digit(#[trigger] name[j]);
    assert(num::hex_value(name[j]) is None);
}

proof fn lemma_stands_for(name: Seq<char>)
    ensures
        stands_for(name, named_tag(name)),
{
    reveal_strlit(":");
    reveal_strlit("latest");
    reveal_strlit(":latest");
    assert(":"@ =~= seq![':']);
    assert(":"@ + "latest"@ =~= ":latest"@);
    assert(name + ":"@ + "latest"@ =~= name + ":latest"@);
    text::lemma_rfind_char(name, ':');
    match text::rfind(name, seq![':']) {
        Some(k) => {
            let t = name.skip(k + 1);
            text::lemma_find_char(t, '/');
            assert(name.take(k) + ":"@ + t =~= name);
            if text::contains(t, seq!['/']) {
                let m = choose|m: int| 0 <= m < t.len() && t[m] == '/';
                assert(name[k + 1 + m] == '/');
                if tells_a_tag(name) {
                    let x = choose|x: int|
                        0 <= x < name.len() && #[trigger] name[x] == ':' && forall|j: int|
                            x < j < name.len() ==> #[trigger] name[j] != '/';
                    if x > k {
                        assert(name[x] != ':');
                    }
                    assert(name[k + 1 + m] != '/');
                }
            } else {
                assert forall|j: int| k < j < name.len() implies #[trigger] name[j] != '/' by {
                    assert(name[j] == t[j - k - 1]);
                    if t[j - k - 1] == '/' {
                        assert(t.contains('/'));
                    }
                }
                assert(name[k] == ':');
                assert(tells_a_tag(name));
            }
        },
        None => {
            if tells_a_tag(name) {
                let x = choose|x: int|
                    0 <= x < name.len() && #[trigger] name[x] == ':' && forall|j: int|
                        x < j < name.len() ==> #[trigger] name[j] != '/';
                assert(name[x] != ':');
            }
        },
    }
}

/// What is tagged is found under the tag, whatever had it before: by every name that
/// stands for the tag and gives no id or digest.
pub proof fn law_tagged_is_found(
    before: ImageStore,
    after: ImageStore,
    record: ImageRecord,
    name: Seq<char>,
    t: Seq<char>,
)
    requires
        was_put(before, after, record),
        record.tags().contains(t),
        stands_for(name, t),
        id_of(after, name) is None,
        !text::contains(name, seq!['@']),
    ensures
        image_of(after, name) == Ok::<Seq<char>, Seq<char>>(record.id@),
{
    lemma_stands_for(name);
}

/// A name that gives neither an id nor a digest means the image that the index leads its tag
/// to: the tag behind its last colon where no slash follows, and otherwise `latest`. Without
/// such an entry there is no such image.
pub proof fn law_names_go_by_their_tag(s: ImageStore, name: Seq<char>)
    requires
        names_no_id(name),
        !name.contains('@'),
    ensures
        ({
            let t = if tells_a_tag(name) {
                name
            } else {
                name + ":latest"@
            };
            match dns::entry(s.tags, t) {
                Some(id) => image_of(s, name) == Ok::<Seq<char>, Seq<char>>(id),
                None => image_of(s, name) == Err::<Seq<char>, Seq<char>>("No such image: "@ + name),
            }
        }),
{
    lemma_no_id(s, name);
    lemma_stands_for(name);
    text::lemma_find_char(name, '@');
}

/// A name without a tag is found exactly as the same name with `latest`.
pub proof fn law_name_without_tag_means_latest(s: ImageStore, name: Seq<char>)
    requires
        names_no_id(name),
        !name.contains(':'),
        !name.contains('@'),
    ensures
        forall|id: Seq<char>|
            image_of(s, name) == Ok::<Seq<char>, Seq<char>>(id) <==> dns::entry(
                s.tags,
                name + ":latest"@,
            ) == Some(id),
        image_of(s, name) is Ok && name != "sha256"@ ==> image_of(s, name + ":latest"@) == image_of(
            s,
            name,
        ),
{
    law_names_go_by_their_tag(s, name);
    if tells_a_tag(name) {
        let x = choose|x: int|
            0 <= x < name.len() && #[trigger] name[x] == ':' && forall|j: int|
                x < j < name.len() ==> #[trigger] name[j] != '/';
        assert(name.contains(name[x]));
    }
    let full = name + ":latest"@;
    reveal_strlit(":latest");
    reveal_strlit("sha256:");
    text::lemma_find_char(full, '@');
    if full.contains('@') {
        let x = choose|x: int| 0 <= x < full.len() && full[x] == '@';
        if x < name.len() {
            assert(name.contains(name[x]));
        }
    }
    let j = choose|j: int| 0 <= j < name.len() && !is_hex_digit(#[trigger] name[j]);
    assert(full[j] == name[j]);
    if text::starts_with(full, "sha256:"@) {
        let w = full.subrange(0, 7);
        assert(w[6] == ':');
        if name.len() > 6 {
            assert(name[6] == ':');
            assert(name.contains(name[6]));
        } else {
            assert(full[name.len() as int] == ':');
            assert(w[name.len() as int] == "sha256:"@[name.len() as int]);
            assert("sha256:"@[6] == ':' && name.len() == 6);
            assert(full.len() == 13);
            // Six characters and a colon that begin so are hexadecimal but for the first two.
            assert(name =~= "sha256"@) by {
                reveal_strlit("sha256");
                assert forall|k: int| 0 <= k < 6 implies name[k] == "sha256"@[k] by {
                    assert(full[k] == w[k]);
                }
            }
        }
    }
    if !text::starts_with(full, "sha256:"@) {
        law_names_go_by_their_tag(s, full);
        assert(full[name.len() as int] == ':');
        assert forall|j: int| name.len() < j < full.len() implies #[trigger] full[j] != '/' by {
            assert(full[j] == ":latest"@[j - name.len()]);
        }
        assert(tells_a_tag(full));
    }
}

/// An image is found by its id, with or without the algorithm in front of it, and by twelve
/// characters or more that its id begins with, which lead to no image of another id.
pub proof fn law_images_are_found_by_their_id(s: ImageStore, id: Seq<char>, n: int)
    requires
        id.len() == 64,
        forall|j: int| 0 <= j < id.len() ==> is_hex_digit(#[trigger] id[j]),
        s.records.at(id) is Some,
        12 <= n < 64,
    ensures
        image_of(s, id) == Ok::<Seq<char>, Seq<char>>(id),
        image_of(s, "sha256:"@ + id) == Ok::<Seq<char>, Seq<char>>(id),
        image_of(s, id.take(n)) matches Ok(found) && text::starts_with(found, id.take(n)),
{
    let p = "sha256:"@;
    let e = s.records.entries@;
    reveal_strlit("sha256:");
    lemma_hex_text(id);
    assert(!text::starts_with(id, p)) by {
        if text::starts_with(id, p) {
            assert(id.subrange(0, 7)[0] == 's');
            assert(is_hex_digit(id[0]));
        }
    }
    assert(bare_id(id) == id);
    let q = p + id;
    assert(q.subrange(0, 7) =~= p);
    assert(q.skip(7) =~= id);
    assert(bare_id(q) == id);
    assert(table::place(e, id) < e.len());
    let h = id.take(n);
    assert forall|j: int| 0 <= j < h.len() implies is_hex_digit(#[trigger] h[j]) by {
        assert(h[j] == id[j]);
    }
    lemma_hex_text(h);
    assert(!text::starts_with(h, p)) by {
        if text::starts_with(h, p) {
            assert(h.subrange(0, 7)[0] == 's');
            assert(is_hex_digit(h[0]));
        }
    }
    assert(bare_id(h) == h);
    let k = table::place(e, id);
    table::lemma_place_from(e, id, 0);
    assert(e[k].0@ == id);
    assert(id.subrange(0, n) =~= h);
    assert(text::starts_with(e[k].0@, h));
    lemma_prefixed(e, h, 0, k);
}

proof fn lemma_hex_text(h: Seq<char>)
    requires
        forall|j: int| 0 <= j < h.len() ==> is_hex_digit(#[trigger] h[j]),
    ensures
        is_hex_text(h),
        encode_utf8(h).len() == h.len(),
{
    assert forall|j: int| 0 <= j < h.len() implies num::hex_value(#[trigger] h[j]) is Some by {
        assert(is_hex_digit(h[j]));
    }
    assert(is_ascii_chars(h)) by {
        assert forall|j: int| 0 <= j < h.len() implies (h[j] as u32) < 128 by {
            assert(is_hex_digit(h[j]));
        }
    }
    is_ascii_chars_encode_utf8(h);
}

proof fn lemma_prefixed(e: Seq<(String, ImageRecord)>, p: Seq<char>, i: int, k: int)
    requires
        0 <= i <= k < e.len(),
        text::starts_with(e[k].0@, p),
    ensures
        i <= prefixed_from(e, p, i) <= k,
        text::starts_with(e[prefixed_from(e, p, i)].0@, p),
    decreases e.len() - i,
{
    if !text::starts_with(e[i].0@, p) {
        lemma_prefixed(e, p, i + 1, k);
    }
}

/// An image is found by a digest of its repository: the first that holds it.
pub proof fn law_images_are_found_by_their_digest(s: ImageStore, name: Seq<char>, k: int)
    requires
        names_no_id(name),
        name.contains('@'),
        reference::parsed(name) matches Ok(r) && r.digest is Some,
        0 <= k < s.records.entries@.len(),
        text::texts(s.records.entries@[k].1.repo_digests@).contains(
            reference::parsed(name)->Ok_0.shown_repo() + seq!['@']
                + reference::parsed(name)->Ok_0.digest->0,
        ),
        forall|j: int|
            0 <= j < k ==> !text::texts(
                (#[trigger] s.records.entries@[j]).1.repo_digests@,
            ).contains(
                reference::parsed(name)->Ok_0.shown_repo() + seq!['@']
                    + reference::parsed(name)->Ok_0.digest->0,
            ),
    ensures
        image_of(s, name) == Ok::<Seq<char>, Seq<char>>(s.records.entries@[k].1.id@),
{
    reveal_strlit("@");
    assert("@"@ =~= seq!['@']);
    let r = reference::parsed(name)->Ok_0;
    lemma_no_id(s, name);
    text::lemma_find_char(name, '@');
    lemma_with_digest(
        s.records.entries@,
        r.shown_repo() + "@"@ + r.digest->0,
        0,
        k,
    );
}

proof fn lemma_with_digest(e: Seq<(String, ImageRecord)>, d: Seq<char>, i: int, k: int)
    requires
        0 <= i <= k < e.len(),
        text::texts(e[k].1.repo_digests@).contains(d),
        forall|j: int|
            i <= j < k ==> !text::texts((#[trigger] e[j]).1.repo_digests@).contains(d),
    ensures
        with_digest_from(e, d, i) == k,
    decreases k - i,
{
    if i < k {
        assert(!text::texts(e[i].1.repo_digests@).contains(d));
        lemma_with_digest(e, d, i + 1, k);
    }
}

} // verus!
