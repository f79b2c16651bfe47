//! Whether an image store is whole, and what of it can be mended.

use vstd::prelude::*;
use vstd::utf8::encode_utf8;

use crate::dns;
use crate::json::{self, key_pointer, keys_at, text_at};
use crate::network::{add_word, add_words};
use crate::num::{self, decimal_text};
use crate::reference;
use crate::registry::{self, expected_of};
use crate::store::{self, ImageRecord, omit};
use crate::table::Table;
use crate::text::{self, chars_of, cut, has_prefix, has_suffix, is_among, one_char, same, str_contains, str_strip_prefix, string_of, strip_ends_text};

verus! {

/// What a look at a store found.
#[derive(Debug, Default)]
pub struct FsckReport {
    pub images_checked: usize,
    pub blobs_referenced: usize,
    pub errors: Vec<String>,
    pub fixed: Vec<String>,
}

impl FsckReport {
    /// Whether nothing is wrong.
    pub fn clean(&self) -> (r: bool)
        ensures
            r == (self.errors@.len() == 0),
    {
        self.errors.len() == 0
    }
}

/// What the file of a record holds.
pub enum RecordFile {
    Unreadable(String),
    Invalid(String),
    Record(ImageRecord),
}

/// A file beside the records.
pub struct StoredImage {
    pub name: String,
    pub content: RecordFile,
}

/// An entry of the build cache, as far as it names what it holds.
pub struct CacheEntry {
    pub blob_digest: Option<String>,
    pub diff_id: Option<String>,
}

#[verifier::ext_equal]
pub struct CacheEntryView {
    pub blob_digest: Option<Seq<char>>,
    pub diff_id: Option<Seq<char>>,
}

impl View for CacheEntry {
    type V = CacheEntryView;

    open spec fn view(&self) -> CacheEntryView {
        CacheEntryView {
            blob_digest: reference::opt_text(self.blob_digest),
            diff_id: reference::opt_text(self.diff_id),
        }
    }
}

/// An entry of a directory.
pub struct DiskEntry {
    pub name: String,
    pub path: String,
    pub is_file: bool,
}

/// What is on disk.
pub struct StoreSnapshot {
    pub tags: Table<String>,
    /// The build cache's file as it stands.
    pub cache_text: String,
    pub images: Vec<StoredImage>,
    pub blobs: Vec<DiskEntry>,
    pub layers: Vec<DiskEntry>,
}

/// The digest without its algorithm.
pub open spec fn short_of(d: Seq<char>) -> Seq<char> {
    registry::expected_hash(d)
}

/// The digest without its algorithm.
pub fn short(digest: &str) -> (r: String)
    ensures
        r@ == short_of(digest@),
{
    expected_of(digest)
}

/// The blobs that a record keeps: its configuration, which its id names, and its layers.
pub open spec fn refs_of(rec: ImageRecord) -> Seq<Seq<char>> {
    (if rec.id@.len() > 0 {
        seq![short_of(rec.id@)]
    } else {
        Seq::empty()
    }) + shorts(text::texts(rec.layer_blobs@))
}

pub open spec fn shorts(v: Seq<Seq<char>>) -> Seq<Seq<char>> {
    Seq::new(v.len(), |i: int| short_of(v[i]))
}

fn add_shorts(out: &mut Vec<String>, v: &Vec<String>)
    ensures
        text::texts(final(out)@) == text::texts(old(out)@) + shorts(text::texts(v@)),
{
    let ghost sv = shorts(text::texts(v@));
    let mut i: usize = 0;
    while i < v.len()
        invariant
            i <= v.len(),
            sv == shorts(text::texts(v@)),
            text::texts(out@) =~= text::texts(old(out)@) + sv.take(i as int),
        decreases v.len() - i,
    {
        add_word(out, short(v[i].as_str()).as_str());
        assert(sv.take(i as int + 1) =~= sv.take(i as int).push(sv[i as int]));
        i += 1;
    }
    assert(sv.take(sv.len() as int) =~= sv);
}

pub fn record_blob_refs(rec: &ImageRecord) -> (r: Vec<String>)
    ensures
        text::texts(r@) == refs_of(*rec),
{
    let mut out: Vec<String> = Vec::new();
    assert(text::texts(out@) =~= Seq::empty());
    if !rec.id.as_str().is_empty() {
        add_word(&mut out, short(rec.id.as_str()).as_str());
    }
    add_shorts(&mut out, &rec.layer_blobs);
    assert(text::texts(out@) =~= refs_of(*rec));
    out
}

// ---------------------------------------------------------------- what is there

/// The entry of that name is there.
pub open spec fn listed(v: Seq<DiskEntry>, name: Seq<char>) -> bool {
    exists|i: int| 0 <= i < v.len() && (#[trigger] v[i]).name@ == name
}

pub open spec fn image_listed(v: Seq<StoredImage>, name: Seq<char>) -> bool {
    exists|i: int| 0 <= i < v.len() && (#[trigger] v[i]).name@ == name
}

fn is_listed(v: &Vec<DiskEntry>, name: &str) -> (r: bool)
    ensures
        r == listed(v@, name@),
{
    let mut i: usize = 0;
    while i < v.len()
        invariant
            i <= v.len(),
            forall|j: int| 0 <= j < i ==> (#[trigger] v@[j]).name@ != name@,
        decreases v.len() - i,
    {
        if same(v[i].name.as_str(), name) {
            return true;
        }
        i += 1;
    }
    false
}

fn is_image_listed(v: &Vec<StoredImage>, name: &str) -> (r: bool)
    ensures
        r == image_listed(v@, name@),
{
    let mut i: usize = 0;
    while i < v.len()
        invariant
            i <= v.len(),
            forall|j: int| 0 <= j < i ==> (#[trigger] v@[j]).name@ != name@,
        decreases v.len() - i,
    {
        if same(v[i].name.as_str(), name) {
            return true;
        }
        i += 1;
    }
    false
}

/// What an entry of the build cache keeps: its blob, or where it names none, its layer.
pub open spec fn cache_root(e: CacheEntryView) -> Seq<char> {
    match e.blob_digest {
        Some(b) => short_of(b),
        None => match e.diff_id {
            Some(d) => short_of(d),
            None => Seq::empty(),
        },
    }
}

pub open spec fn entry_views(v: Seq<CacheEntry>) -> Seq<CacheEntryView> {
    Seq::new(v.len(), |i: int| v[i]@)
}

/// The entry under a key of the build cache.
pub open spec fn cached_under(doc: Seq<u8>, k: Seq<char>) -> CacheEntryView {
    let p = json::under_key(Seq::empty(), k);
    CacheEntryView {
        blob_digest: json::json_text(doc, p + "/blob_digest"@),
        diff_id: json::json_text(doc, p + "/diff_id"@),
    }
}

/// The entries of a build cache.
pub open spec fn cached_in(doc: Seq<u8>) -> Seq<CacheEntryView> {
    match json::json_keys(doc, Seq::empty()) {
        Some(ks) => Seq::new(ks.len(), |i: int| cached_under(doc, ks[i])),
        None => Seq::empty(),
    }
}

/// The build cache keeps the blob.
pub open spec fn cached(cache_text: Seq<char>, name: Seq<char>) -> bool {
    let v = cached_in(encode_utf8(cache_text));
    name.len() > 0 && exists|i: int| 0 <= i < v.len() && cache_root(#[trigger] v[i]) == name
}

/// The entries of the build cache's file: those of its object, and none where the file
/// holds no object.
pub fn cache_entries(cache_text: &str) -> (r: Vec<CacheEntry>)
    ensures
        entry_views(r@) == cached_in(encode_utf8(cache_text@)),
{
    let doc: &[u8] = cache_text.as_bytes();
    let mut out: Vec<CacheEntry> = Vec::new();
    proof {
        reveal_strlit("");
        assert(""@ =~= Seq::empty());
    }
    let ghost all = cached_in(doc@);
    let ks: Vec<String> = match keys_at(doc, "") {
        Some(ks) => ks,
        None => {
            assert(entry_views(out@) =~= all);
            return out;
        },
    };
    let mut i: usize = 0;
    assert(text::texts(ks@).len() == ks@.len());
    while i < ks.len()
        invariant
            i <= ks.len(),
            ""@ == Seq::<char>::empty(),
            json::json_keys(doc@, Seq::empty()) == Some(text::texts(ks@)),
            all == cached_in(doc@),
            entry_views(out@) =~= all.take(i as int),
        decreases ks.len() - i,
    {
        let p: String = key_pointer("", ks[i].as_str());
        let mut blob: String = p.clone();
        blob.append("/blob_digest");
        let mut layer: String = p;
        layer.append("/diff_id");
        let ghost before = out@;
        let e: CacheEntry = CacheEntry {
            blob_digest: text_at(doc, blob.as_str()),
            diff_id: text_at(doc, layer.as_str()),
        };
        out.push(e);
        proof {
            assert(text::texts(ks@)[i as int] == ks@[i as int]@);
            assert(entry_views(out@) =~= entry_views(before).push(e@));
            assert(all.take(i as int + 1) =~= all.take(i as int).push(all[i as int]));
        }
        i += 1;
    }
    assert(all.take(all.len() as int) =~= all);
    out
}

fn is_cached(v: &Vec<CacheEntry>, name: &str) -> (r: bool)
    ensures
        r == (name@.len() > 0 && exists|i: int|
            0 <= i < entry_views(v@).len() && cache_root(#[trigger] entry_views(v@)[i]) == name@),
{
    if name.is_empty() {
        return false;
    }
    let ghost ev = entry_views(v@);
    let mut i: usize = 0;
    while i < v.len()
        invariant
            i <= v.len(),
            name@.len() > 0,
            ev == entry_views(v@),
            forall|j: int| 0 <= j < i ==> cache_root(#[trigger] ev[j]) != name@,
        decreases v.len() - i,
    {
        assert(ev[i as int] == v@[i as int]@);
        let root: String = match &v[i].blob_digest {
            Some(b) => short(b.as_str()),
            None => match &v[i].diff_id {
                Some(d) => short(d.as_str()),
                None => String::new(),
            },
        };
        if same(root.as_str(), name) {
            assert(cache_root(ev[i as int]) == name@);
            return true;
        }
        i += 1;
    }
    false
}

/// The file is one of a record.
pub open spec fn is_record_file(name: Seq<char>) -> bool {
    text::ends_with(name, ".json"@) && name != "tags.json"@
}

/// The record in a file, where it holds one.
pub open spec fn record_in(f: StoredImage) -> Option<ImageRecord> {
    if is_record_file(f.name@) {
        match f.content {
            RecordFile::Record(r) => Some(r),
            _ => None,
        }
    } else {
        None
    }
}

/// How many of the first `n` files hold records.
pub open spec fn records_to(v: Seq<StoredImage>, n: int) -> nat
    decreases n,
{
    if n <= 0 {
        0
    } else if record_in(v[n - 1]) is Some {
        records_to(v, n - 1) + 1
    } else {
        records_to(v, n - 1)
    }
}

/// The blobs that the records in the first `n` files keep.
pub open spec fn refs_to(v: Seq<StoredImage>, n: int) -> Seq<Seq<char>>
    decreases n,
{
    if n <= 0 {
        Seq::empty()
    } else {
        match record_in(v[n - 1]) {
            Some(r) => refs_to(v, n - 1) + refs_of(r),
            None => refs_to(v, n - 1),
        }
    }
}

/// The layers that the records in the first `n` files name.
pub open spec fn layers_to(v: Seq<StoredImage>, n: int) -> Seq<Seq<char>>
    decreases n,
{
    if n <= 0 {
        Seq::empty()
    } else {
        match record_in(v[n - 1]) {
            Some(r) => layers_to(v, n - 1) + shorts(text::texts(r.diff_ids@)),
            None => layers_to(v, n - 1),
        }
    }
}

// ---------------------------------------------------------------- what is wrong

pub open spec fn at_file(name: Seq<char>) -> Seq<char> {
    "images/"@ + name
}

/// The file's name is the record's id.
pub open spec fn name_errors(name: Seq<char>, id: Seq<char>) -> Seq<Seq<char>> {
    if id.len() == 0 {
        seq![at_file(name) + ": empty id"@]
    } else if text::strip_ends(name, ".json"@) != short_of(id) {
        seq![at_file(name) + ": filename does not match id "@ + id]
    } else {
        Seq::empty()
    }
}

/// There is a blob for each layer.
pub open spec fn count_errors(name: Seq<char>, diffs: nat, blobs: nat) -> Seq<Seq<char>> {
    if diffs != blobs {
        seq![
            at_file(name) + ": "@ + num::decimal(diffs) + " diff_ids but "@ + num::decimal(blobs)
                + " layer_blobs"@,
        ]
    } else {
        Seq::empty()
    }
}

/// The index leads the tag to the record.
pub open spec fn tag_errors(
    tags: Table<String>,
    name: Seq<char>,
    id: Seq<char>,
    t: Seq<char>,
) -> Seq<Seq<char>> {
    match dns::entry(tags, t) {
        Some(owner) => if short_of(owner) != short_of(id) {
            seq![
                at_file(name) + ": stale embedded tag "@ + t + " (index points at "@ + owner + ")"@,
            ]
        } else {
            Seq::empty()
        },
        None => seq![at_file(name) + ": embedded tag "@ + t + " missing from index"@],
    }
}

pub open spec fn tags_errors(
    tags: Table<String>,
    name: Seq<char>,
    id: Seq<char>,
    ts: Seq<Seq<char>>,
    n: int,
) -> Seq<Seq<char>>
    decreases n,
{
    if n <= 0 {
        Seq::empty()
    } else {
        tags_errors(tags, name, id, ts, n - 1) + tag_errors(tags, name, id, ts[n - 1])
    }
}

/// The configuration is there.
pub open spec fn config_errors(
    blobs: Seq<DiskEntry>,
    name: Seq<char>,
    id: Seq<char>,
) -> Seq<Seq<char>> {
    if id.len() > 0 && !listed(blobs, short_of(id)) {
        seq![at_file(name) + ": missing config blob "@ + id]
    } else {
        Seq::empty()
    }
}

/// Each layer is there, as a blob or unpacked.
pub open spec fn blobs_errors(
    s: StoreSnapshot,
    name: Seq<char>,
    rec: ImageRecord,
    n: int,
) -> Seq<Seq<char>>
    decreases n,
{
    if n <= 0 {
        Seq::empty()
    } else {
        let b = rec.layer_blobs@[n - 1]@;
        let unpacked = n - 1 < rec.diff_ids@.len() && listed(
            s.layers@,
            short_of(rec.diff_ids@[n - 1]@),
        );
        blobs_errors(s, name, rec, n - 1) + if !listed(s.blobs@, short_of(b)) && !unpacked {
            seq![at_file(name) + ": missing blob "@ + b]
        } else {
            Seq::empty()
        }
    }
}

/// Each layer is there unpacked.
pub open spec fn layers_errors(
    s: StoreSnapshot,
    name: Seq<char>,
    rec: ImageRecord,
    n: int,
) -> Seq<Seq<char>>
    decreases n,
{
    if n <= 0 {
        Seq::empty()
    } else {
        let d = rec.diff_ids@[n - 1]@;
        layers_errors(s, name, rec, n - 1) + if !listed(s.layers@, short_of(d)) {
            seq![at_file(name) + ": missing layer "@ + d]
        } else {
            Seq::empty()
        }
    }
}

/// Everything that is wrong with a record.
pub open spec fn record_errors(s: StoreSnapshot, name: Seq<char>, rec: ImageRecord) -> Seq<
    Seq<char>,
> {
    name_errors(name, rec.id@) + count_errors(name, rec.diff_ids@.len(), rec.layer_blobs@.len())
        + tags_errors(s.tags, name, rec.id@, rec.tags(), rec.tags().len() as int) + config_errors(
        s.blobs@,
        name,
        rec.id@,
    ) + blobs_errors(s, name, rec, rec.layer_blobs@.len() as int) + layers_errors(
        s,
        name,
        rec,
        rec.diff_ids@.len() as int,
    )
}

pub open spec fn file_errors(s: StoreSnapshot, f: StoredImage) -> Seq<Seq<char>> {
    if !is_record_file(f.name@) {
        Seq::empty()
    } else {
        match f.content {
            RecordFile::Unreadable(e) => seq![at_file(f.name@) + ": unreadable: "@ + e@],
            RecordFile::Invalid(e) => seq![at_file(f.name@) + ": invalid record: "@ + e@],
            RecordFile::Record(r) => record_errors(s, f.name@, r),
        }
    }
}

pub open spec fn images_errors(s: StoreSnapshot, n: int) -> Seq<Seq<char>>
    decreases n,
{
    if n <= 0 {
        Seq::empty()
    } else {
        images_errors(s, n - 1) + file_errors(s, s.images@[n - 1])
    }
}

/// Each tag leads to a record that is there.
pub open spec fn index_errors(s: StoreSnapshot, n: int) -> Seq<Seq<char>>
    decreases n,
{
    if n <= 0 {
        Seq::empty()
    } else {
        let (t, id) = s.tags.entries@[n - 1];
        index_errors(s, n - 1) + if !image_listed(s.images@, short_of(id@) + ".json"@) {
            seq!["tags.json: "@ + t@ + " points at missing image "@ + id@]
        } else {
            Seq::empty()
        }
    }
}

/// A file that is left of a download.
pub open spec fn is_partial(name: Seq<char>) -> bool {
    text::ends_with(name, ".part"@) || text::ends_with(name, ".tmp"@)
}

/// The blob is kept by a record or by the build cache.
pub open spec fn is_needed(s: StoreSnapshot, name: Seq<char>) -> bool {
    refs_to(s.images@, s.images@.len() as int).contains(name) || cached(s.cache_text@, name)
}

pub open spec fn blob_errors(s: StoreSnapshot, f: DiskEntry) -> Seq<Seq<char>> {
    if !f.is_file {
        Seq::empty()
    } else if is_partial(f.name@) {
        seq!["stale partial download "@ + f.path@]
    } else if !is_needed(s, f.name@) {
        seq!["unreferenced blob "@ + f.path@]
    } else {
        Seq::empty()
    }
}

pub open spec fn orphan_blobs(s: StoreSnapshot, n: int) -> Seq<Seq<char>>
    decreases n,
{
    if n <= 0 {
        Seq::empty()
    } else {
        orphan_blobs(s, n - 1) + blob_errors(s, s.blobs@[n - 1])
    }
}

/// An entry is a layer's: a directory, and none of those that begin with a dot, which are
/// for work and for notes.
pub open spec fn is_layer(l: DiskEntry) -> bool {
    !l.is_file && !text::starts_with(l.name@, seq!['.'])
}

/// Each layer is named by a record or by the build cache.
pub open spec fn orphan_layers(s: StoreSnapshot, n: int) -> Seq<Seq<char>>
    decreases n,
{
    if n <= 0 {
        Seq::empty()
    } else {
        let l = s.layers@[n - 1];
        orphan_layers(s, n - 1) + if is_layer(l) && !layers_to(
            s.images@,
            s.images@.len() as int,
        ).contains(l.name@) && !text::contains(s.cache_text@, l.name@) {
            seq!["unreferenced layer "@ + l.path@]
        } else {
            Seq::empty()
        }
    }
}

/// Everything that is wrong with a store.
pub open spec fn all_errors(s: StoreSnapshot) -> Seq<Seq<char>> {
    images_errors(s, s.images@.len() as int) + index_errors(s, s.tags.entries@.len() as int)
        + orphan_blobs(s, s.blobs@.len() as int) + orphan_layers(s, s.layers@.len() as int)
}

/// The file's path below the store, and what is wrong with it.
fn complaint(name: &str, what: &str, detail: &str) -> (r: String)
    ensures
        r@ == at_file(name@) + what@ + detail@,
{
    let mut e: String = "images/".to_owned();
    e.append(name);
    e.append(what);
    e.append(detail);
    e
}

fn check_record(s: &StoreSnapshot, name: &str, rec: &ImageRecord, errors: &mut Vec<String>)
    ensures
        text::texts(final(errors)@) == text::texts(old(errors)@) + record_errors(*s, name@, *rec),
{
    let ghost e0 = text::texts(errors@);
    let id: &str = rec.id.as_str();
    proof {
        reveal_strlit("");
        assert(""@ =~= Seq::empty());
    }
    if id.is_empty() {
        let c: String = complaint(name, ": empty id", "");
        assert(c@ =~= at_file(name@) + ": empty id"@);
        add_word(errors, c.as_str());
    } else {
        let cs: Vec<char> = chars_of(name);
        let p: Vec<char> = chars_of(".json");
        let stem: String = string_of(strip_ends_text(cs.as_slice(), p.as_slice()));
        if !same(stem.as_str(), short(id).as_str()) {
            add_word(errors, complaint(name, ": filename does not match id ", id).as_str());
        }
    }
    let ghost e1 = name_errors(name@, rec.id@);
    assert(text::texts(errors@) =~= e0 + e1);
    if rec.diff_ids.len() != rec.layer_blobs.len() {
        let mut c: String = complaint(
            name,
            ": ",
            decimal_text(rec.diff_ids.len() as u128).as_str(),
        );
        c.append(" diff_ids but ");
        c.append(decimal_text(rec.layer_blobs.len() as u128).as_str());
        c.append(" layer_blobs");
        add_word(errors, c.as_str());
    }
    let ghost e2 = count_errors(name@, rec.diff_ids@.len(), rec.layer_blobs@.len());
    assert(text::texts(errors@) =~= e0 + e1 + e2);
    let ghost ts = rec.tags();
    let ghost b3 = text::texts(errors@);
    let mut i: usize = 0;
    while i < rec.repo_tags.len()
        invariant
            i <= rec.repo_tags.len(),
            ts == text::texts(rec.repo_tags@),
            id@ == rec.id@,
            text::texts(errors@) =~= b3 + tags_errors(s.tags, name@, rec.id@, ts, i as int),
        decreases rec.repo_tags.len() - i,
    {
        let t: &str = rec.repo_tags[i].as_str();
        let ghost before = text::texts(errors@);
        assert(ts[i as int] == t@);
        match s.tags.get(t) {
            Some(owner) => {
                if !same(short(owner.as_str()).as_str(), short(id).as_str()) {
                    let mut c: String = complaint(name, ": stale embedded tag ", t);
                    c.append(" (index points at ");
                    c.append(owner.as_str());
                    c.append(")");
                    add_word(errors, c.as_str());
                }
            },
            None => {
                let mut c: String = complaint(name, ": embedded tag ", t);
                c.append(" missing from index");
                add_word(errors, c.as_str());
            },
        }
        assert(text::texts(errors@) =~= before + tag_errors(s.tags, name@, rec.id@, t@));
        i += 1;
    }
    let ghost e3 = tags_errors(s.tags, name@, rec.id@, ts, ts.len() as int);
    assert(text::texts(errors@) =~= e0 + e1 + e2 + e3);
    if !id.is_empty() && !is_listed(&s.blobs, short(id).as_str()) {
        add_word(errors, complaint(name, ": missing config blob ", id).as_str());
    }
    let ghost e4 = config_errors(s.blobs@, name@, rec.id@);
    assert(text::texts(errors@) =~= e0 + e1 + e2 + e3 + e4);
    let ghost b5 = text::texts(errors@);
    let mut j: usize = 0;
    while j < rec.layer_blobs.len()
        invariant
            j <= rec.layer_blobs.len(),
            text::texts(errors@) =~= b5 + blobs_errors(*s, name@, *rec, j as int),
        decreases rec.layer_blobs.len() - j,
    {
        let b: &str = rec.layer_blobs[j].as_str();
        let unpacked: bool = j < rec.diff_ids.len() && is_listed(
            &s.layers,
            short(rec.diff_ids[j].as_str()).as_str(),
        );
        if !is_listed(&s.blobs, short(b).as_str()) && !unpacked {
            add_word(errors, complaint(name, ": missing blob ", b).as_str());
        }
        j += 1;
    }
    let ghost e5 = blobs_errors(*s, name@, *rec, rec.layer_blobs@.len() as int);
    assert(text::texts(errors@) =~= e0 + e1 + e2 + e3 + e4 + e5);
    let ghost b6 = text::texts(errors@);
    let mut k: usize = 0;
    while k < rec.diff_ids.len()
        invariant
            k <= rec.diff_ids.len(),
            text::texts(errors@) =~= b6 + layers_errors(*s, name@, *rec, k as int),
        decreases rec.diff_ids.len() - k,
    {
        let d: &str = rec.diff_ids[k].as_str();
        if !is_listed(&s.layers, short(d).as_str()) {
            add_word(errors, complaint(name, ": missing layer ", d).as_str());
        }
        k += 1;
    }
    assert(text::texts(errors@) =~= e0 + record_errors(*s, name@, *rec));
}

fn record_file(name: &str) -> (r: bool)
    ensures
        r == is_record_file(name@),
{
    has_suffix(chars_of(name).as_slice(), chars_of(".json").as_slice()) && !same(
        name,
        "tags.json",
    )
}

/// Looks a store over.
pub fn check(s: &StoreSnapshot) -> (r: FsckReport)
    ensures
        r.images_checked == records_to(s.images@, s.images@.len() as int),
        r.blobs_referenced == refs_to(s.images@, s.images@.len() as int).len(),
        text::texts(r.errors@) == all_errors(*s),
        r.fixed@.len() == 0,
{
    let mut errors: Vec<String> = Vec::new();
    let mut referenced: Vec<String> = Vec::new();
    let mut layer_refs: Vec<String> = Vec::new();
    let mut checked: usize = 0;
    let mut i: usize = 0;
    assert(text::texts(errors@) =~= Seq::empty());
    assert(text::texts(referenced@) =~= Seq::empty());
    assert(text::texts(layer_refs@) =~= Seq::empty());
    while i < s.images.len()
        invariant
            i <= s.images.len(),
            checked <= i,
            checked == records_to(s.images@, i as int),
            text::texts(errors@) == images_errors(*s, i as int),
            text::texts(referenced@) == refs_to(s.images@, i as int),
            text::texts(layer_refs@) == layers_to(s.images@, i as int),
        decreases s.images.len() - i,
    {
        let f: &StoredImage = &s.images[i];
        let name: &str = f.name.as_str();
        if record_file(name) {
            match &f.content {
                RecordFile::Unreadable(e) => {
                    add_word(
                        &mut errors,
                        complaint(name, ": unreadable: ", e.as_str()).as_str(),
                    );
                },
                RecordFile::Invalid(e) => {
                    add_word(
                        &mut errors,
                        complaint(name, ": invalid record: ", e.as_str()).as_str(),
                    );
                },
                RecordFile::Record(rec) => {
                    checked += 1;
                    check_record(s, name, rec, &mut errors);
                    add_words(&mut referenced, &record_blob_refs(rec));
                    add_shorts(&mut layer_refs, &rec.diff_ids);
                },
            }
        }
        assert(text::texts(errors@) =~= images_errors(*s, i as int) + file_errors(*s, *f));
        i += 1;
    }
    let ghost e1 = text::texts(errors@);
    let mut j: usize = 0;
    while j < s.tags.entries.len()
        invariant
            j <= s.tags.entries.len(),
            text::texts(errors@) =~= e1 + index_errors(*s, j as int),
        decreases s.tags.entries.len() - j,
    {
        let t: &str = s.tags.entries[j].0.as_str();
        let id: &str = s.tags.entries[j].1.as_str();
        let mut file: String = short(id);
        file.append(".json");
        if !is_image_listed(&s.images, file.as_str()) {
            let mut c: String = "tags.json: ".to_owned();
            c.append(t);
            c.append(" points at missing image ");
            c.append(id);
            add_word(&mut errors, c.as_str());
        }
        j += 1;
    }
    let ghost e2 = text::texts(errors@);
    let cache: Vec<CacheEntry> = cache_entries(s.cache_text.as_str());
    let mut k: usize = 0;
    while k < s.blobs.len()
        invariant
            k <= s.blobs.len(),
            entry_views(cache@) == cached_in(encode_utf8(s.cache_text@)),
            text::texts(referenced@) == refs_to(s.images@, s.images@.len() as int),
            text::texts(errors@) =~= e2 + orphan_blobs(*s, k as int),
        decreases s.blobs.len() - k,
    {
        let f: &DiskEntry = &s.blobs[k];
        let ghost before = text::texts(errors@);
        if f.is_file {
            let n: Vec<char> = chars_of(f.name.as_str());
            if has_suffix(n.as_slice(), chars_of(".part").as_slice()) || has_suffix(
                n.as_slice(),
                chars_of(".tmp").as_slice(),
            ) {
                let mut c: String = "stale partial download ".to_owned();
                c.append(f.path.as_str());
                add_word(&mut errors, c.as_str());
            } else if !is_among(&referenced, f.name.as_str()) && !is_cached(
                &cache,
                f.name.as_str(),
            ) {
                let mut c: String = "unreferenced blob ".to_owned();
                c.append(f.path.as_str());
                add_word(&mut errors, c.as_str());
            }
        }
        assert(text::texts(errors@) =~= before + blob_errors(*s, *f));
        k += 1;
    }
    let ghost e3 = text::texts(errors@);
    let mut m: usize = 0;
    while m < s.layers.len()
        invariant
            m <= s.layers.len(),
            text::texts(layer_refs@) == layers_to(s.images@, s.images@.len() as int),
            text::texts(errors@) =~= e3 + orphan_layers(*s, m as int),
        decreases s.layers.len() - m,
    {
        let l: &DiskEntry = &s.layers[m];
        let hidden: bool = has_prefix(
            chars_of(l.name.as_str()).as_slice(),
            one_char('.').as_slice(),
        );
        if !l.is_file && !hidden && !is_among(&layer_refs, l.name.as_str()) && !str_contains(
            s.cache_text.as_str(),
            l.name.as_str(),
        ) {
            let mut c: String = "unreferenced layer ".to_owned();
            c.append(l.path.as_str());
            add_word(&mut errors, c.as_str());
        }
        m += 1;
    }
    assert(text::texts(errors@) =~= all_errors(*s));
    assert(text::texts(referenced@).len() == referenced@.len());
    FsckReport {
        images_checked: checked,
        blobs_referenced: referenced.len(),
        errors,
        fixed: Vec::new(),
    }
}

// ---------------------------------------------------------------- mending

/// What can be done about an error.
pub enum Mend {
    /// The file at the path is removed.
    RemoveFile(String),
    /// The tag is taken out of the index.
    DropTag(String),
    /// The tag is taken out of the record in the file.
    Evict { file: String, tag: String },
    /// Nothing: the error is reported.
    Keep,
}

#[verifier::ext_equal]
pub enum MendView {
    RemoveFile(Seq<char>),
    DropTag(Seq<char>),
    Evict(Seq<char>, Seq<char>),
    Keep,
}

impl View for Mend {
    type V = MendView;

    open spec fn view(&self) -> MendView {
        match self {
            Mend::RemoveFile(p) => MendView::RemoveFile(p@),
            Mend::DropTag(t) => MendView::DropTag(t@),
            Mend::Evict { file, tag } => MendView::Evict(file@, tag@),
            Mend::Keep => MendView::Keep,
        }
    }
}

/// The file and the tag of an error about a tag that the index leads elsewhere.
pub open spec fn stale_embed(e: Seq<char>) -> Option<(Seq<char>, Seq<char>)> {
    match text::strip_prefix(e, "images/"@) {
        Some(rest) => match text::split_once(rest, ": stale embedded tag "@) {
            Some((file, msg)) => match text::split_once(msg, " (index points at "@) {
                Some((tag, _)) => Some((file, tag)),
                None => None,
            },
            None => None,
        },
        None => None,
    }
}

/// What can be done about an error: what is left of a download and what nothing needs is
/// removed, and a tag that leads nowhere or elsewhere is dropped. Nothing else is touched.
pub open spec fn mending(e: Seq<char>) -> MendView {
    match text::strip_prefix(e, "stale partial download "@) {
        Some(p) => MendView::RemoveFile(p),
        None => match text::strip_prefix(e, "unreferenced blob "@) {
            Some(p) => MendView::RemoveFile(p),
            None => match text::strip_prefix(e, "tags.json: "@) {
                Some(rest) => match text::split_once(rest, " points at missing image "@) {
                    Some((tag, _)) => MendView::DropTag(tag),
                    None => MendView::Keep,
                },
                None => match stale_embed(e) {
                    Some((file, tag)) => MendView::Evict(file, tag),
                    None => MendView::Keep,
                },
            },
        },
    }
}

fn str_cut_at(s: &str, p: &str) -> (r: Option<(String, String)>)
    ensures
        match r {
            Some((a, b)) => text::split_once(s@, p@) == Some((a@, b@)),
            None => text::split_once(s@, p@) is None,
        },
{
    match cut(chars_of(s).as_slice(), chars_of(p).as_slice()) {
        Some((a, b)) => Some((string_of(a), string_of(b))),
        None => None,
    }
}

/// What can be done about an error.
pub fn repair_step(e: &str) -> (r: Mend)
    ensures
        r@ == mending(e@),
{
    if let Some(p) = str_strip_prefix(e, "stale partial download ") {
        return Mend::RemoveFile(p);
    }
    if let Some(p) = str_strip_prefix(e, "unreferenced blob ") {
        return Mend::RemoveFile(p);
    }
    if let Some(rest) = str_strip_prefix(e, "tags.json: ") {
        return match str_cut_at(rest.as_str(), " points at missing image ") {
            Some((tag, _)) => Mend::DropTag(tag),
            None => Mend::Keep,
        };
    }
    if let Some(rest) = str_strip_prefix(e, "images/") {
        if let Some((file, msg)) = str_cut_at(rest.as_str(), ": stale embedded tag ") {
            if let Some((tag, _)) = str_cut_at(msg.as_str(), " (index points at ") {
                return Mend::Evict { file, tag };
            }
        }
    }
    Mend::Keep
}

/// The tags of a record without a stale one, where it has it.
pub fn try_evict(repo_tags: &Vec<String>, tag: &str) -> (r: Option<Vec<String>>)
    ensures
        match r {
            Some(v) => text::texts(repo_tags@).contains(tag@) && text::texts(v@) == store::omitted(
                text::texts(repo_tags@),
                tag@,
            ),
            None => !text::texts(repo_tags@).contains(tag@),
        },
{
    if is_among(repo_tags, tag) {
        Some(omit(repo_tags, tag))
    } else {
        None
    }
}

/// What came of mending.
#[derive(Debug, Clone)]
pub enum MendOutcome {
    Done,
    /// There was nothing to mend.
    Nothing,
    Failed(String),
}

/// What is told of an error that was mended, and what stays of one that was not.
pub open spec fn told(e: Seq<char>, o: MendOutcome) -> Result<Seq<char>, Seq<char>> {
    match (mending(e), o) {
        (MendView::Keep, _) => Err(e),
        (_, MendOutcome::Nothing) => Err(e),
        (MendView::RemoveFile(path), MendOutcome::Done) => Ok("removed "@ + path),
        (MendView::RemoveFile(_), MendOutcome::Failed(why)) => Err(
            e + " (remove failed: "@ + why@ + ")"@,
        ),
        (MendView::DropTag(tag), MendOutcome::Done) => Ok("dropped dangling tag "@ + tag),
        (MendView::DropTag(_), MendOutcome::Failed(why)) => Err(
            e + " (tag drop failed: "@ + why@ + ")"@,
        ),
        (MendView::Evict(file, tag), MendOutcome::Done) => Ok(
            "evicted stale tag "@ + tag + " from images/"@ + file,
        ),
        (MendView::Evict(_, _), MendOutcome::Failed(why)) => Err(
            e + " (evict failed: "@ + why@ + ")"@,
        ),
    }
}

fn failure(e: &str, what: &str, why: &str) -> (r: String)
    ensures
        r@ == e@ + what@ + why@ + ")"@,
{
    let mut s: String = e.to_owned();
    s.append(what);
    s.append(why);
    s.append(")");
    s
}

fn tell(e: &str, o: &MendOutcome) -> (r: Result<String, String>)
    ensures
        match r {
            Ok(m) => told(e@, *o) == Ok::<Seq<char>, Seq<char>>(m@),
            Err(m) => told(e@, *o) == Err::<Seq<char>, Seq<char>>(m@),
        },
{
    match (repair_step(e), o) {
        (Mend::Keep, _) => Err(e.to_owned()),
        (_, MendOutcome::Nothing) => Err(e.to_owned()),
        (Mend::RemoveFile(path), MendOutcome::Done) => {
            let mut s: String = "removed ".to_owned();
            s.append(path.as_str());
            Ok(s)
        },
        (Mend::RemoveFile(_), MendOutcome::Failed(why)) => Err(
            failure(e, " (remove failed: ", why.as_str()),
        ),
        (Mend::DropTag(tag), MendOutcome::Done) => {
            let mut s: String = "dropped dangling tag ".to_owned();
            s.append(tag.as_str());
            Ok(s)
        },
        (Mend::DropTag(_), MendOutcome::Failed(why)) => Err(
            failure(e, " (tag drop failed: ", why.as_str()),
        ),
        (Mend::Evict { file, tag }, MendOutcome::Done) => {
            let mut s: String = "evicted stale tag ".to_owned();
            s.append(tag.as_str());
            s.append(" from images/");
            s.append(file.as_str());
            Ok(s)
        },
        (Mend::Evict { .. }, MendOutcome::Failed(why)) => Err(
            failure(e, " (evict failed: ", why.as_str()),
        ),
    }
}

/// What was done about the first `n` errors.
pub open spec fn fixed_to(es: Seq<Seq<char>>, os: Seq<MendOutcome>, n: int) -> Seq<Seq<char>>
    decreases n,
{
    if n <= 0 {
        Seq::empty()
    } else {
        match told(es[n - 1], os[n - 1]) {
            Ok(m) => fixed_to(es, os, n - 1).push(m),
            Err(_) => fixed_to(es, os, n - 1),
        }
    }
}

/// What stays of the first `n` errors.
pub open spec fn kept_to(es: Seq<Seq<char>>, os: Seq<MendOutcome>, n: int) -> Seq<Seq<char>>
    decreases n,
{
    if n <= 0 {
        Seq::empty()
    } else {
        match told(es[n - 1], os[n - 1]) {
            Ok(_) => kept_to(es, os, n - 1),
            Err(m) => kept_to(es, os, n - 1).push(m),
        }
    }
}

/// The report on a store, once each of its errors was dealt with as `repair_step` says and
/// what came of that is known.
pub fn repair(found: FsckReport, outcomes: &Vec<MendOutcome>) -> (r: FsckReport)
    requires
        found.errors@.len() == outcomes@.len(),
    ensures
        r.images_checked == found.images_checked,
        r.blobs_referenced == found.blobs_referenced,
        text::texts(r.fixed@) == text::texts(found.fixed@) + fixed_to(
            text::texts(found.errors@),
            outcomes@,
            outcomes@.len() as int,
        ),
        text::texts(r.errors@) == kept_to(
            text::texts(found.errors@),
            outcomes@,
            outcomes@.len() as int,
        ),
{
    let ghost ev = text::texts(found.errors@);
    let ghost before = text::texts(found.fixed@);
    let mut fixed: Vec<String> = found.fixed;
    let mut kept: Vec<String> = Vec::new();
    let mut i: usize = 0;
    proof {
        assert(text::texts(kept@) =~= Seq::empty());
        assert(before + Seq::<Seq<char>>::empty() =~= before);
    }
    while i < outcomes.len()
        invariant
            i <= outcomes.len(),
            found.errors@.len() == outcomes@.len(),
            ev == text::texts(found.errors@),
            text::texts(fixed@) == before + fixed_to(ev, outcomes@, i as int),
            text::texts(kept@) == kept_to(ev, outcomes@, i as int),
        decreases outcomes.len() - i,
    {
        assert(ev[i as int] == found.errors@[i as int]@);
        match tell(found.errors[i].as_str(), &outcomes[i]) {
            Ok(m) => {
                add_word(&mut fixed, m.as_str());
                assert(text::texts(fixed@) =~= before + fixed_to(ev, outcomes@, i as int + 1));
            },
            Err(m) => {
                add_word(&mut kept, m.as_str());
            },
        }
        i += 1;
    }
    FsckReport {
        images_checked: found.images_checked,
        blobs_referenced: found.blobs_referenced,
        errors: kept,
        fixed,
    }
}

/// Whether a store may be mended: not while a daemon works on it.
pub fn may_repair(daemon_live: bool) -> (r: Result<(), String>)
    ensures
        match r {
            Ok(_) => !daemon_live,
            Err(e) => daemon_live && e@
                == "refusing --repair while ingotd is running (stop the daemon first)"@,
        },
{
    if daemon_live {
        Err("refusing --repair while ingotd is running (stop the daemon first)".to_owned())
    } else {
        Ok(())
    }
}

// ---------------------------------------------------------------- laws

proof fn lemma_refs(v: Seq<StoredImage>, n: int, i: int, x: Seq<char>)
    requires
        0 <= i < n <= v.len(),
        record_in(v[i]) matches Some(r) && refs_of(r).contains(x),
    ensures
        refs_to(v, n).contains(x),
    decreases n,
{
    let r = record_in(v[i])->0;
    if i == n - 1 {
        let a = refs_to(v, n - 1);
        let b = refs_of(r);
        let k = choose|k: int| 0 <= k < b.len() && b[k] == x;
        assert((a + b)[a.len() + k] == x);
    } else {
        lemma_refs(v, n - 1, i, x);
        let a = refs_to(v, n - 1);
        let k = choose|k: int| 0 <= k < a.len() && a[k] == x;
        assert(refs_to(v, n)[k] == x);
    }
}

/// The configuration and the layers of a record are never taken for garbage, nor is what
/// the build cache keeps.
pub proof fn law_live_blobs_stay(s: StoreSnapshot, i: int, f: DiskEntry)
    requires
        0 <= i < s.images@.len(),
        (record_in(s.images@[i]) matches Some(r) && refs_of(r).contains(f.name@)) || cached(
            s.cache_text@,
            f.name@,
        ),
        !is_partial(f.name@),
    ensures
        blob_errors(s, f).len() == 0,
{
    if !cached(s.cache_text@, f.name@) {
        lemma_refs(s.images@, s.images@.len() as int, i, f.name@);
    }
}

/// The configuration is among what a record keeps.
pub proof fn law_config_is_kept(rec: ImageRecord)
    requires
        rec.id@.len() > 0,
    ensures
        refs_of(rec).contains(short_of(rec.id@)),
{
    assert(refs_of(rec)[0] == short_of(rec.id@));
}

/// Only what is reported as left over or as needed by nothing is removed, by the very path
/// that was reported.
pub proof fn law_mending_removes_orphans_alone(e: Seq<char>, path: Seq<char>)
    requires
        mending(e) == MendView::RemoveFile(path),
    ensures
        e == "stale partial download "@ + path || e == "unreferenced blob "@ + path,
{
    let p = "stale partial download "@;
    let q = "unreferenced blob "@;
    if text::strip_prefix(e, p) is Some {
        assert(e =~= p + path);
    } else {
        assert(e =~= q + path);
    }
}

/// Every error is either mended or stays in the report: none is lost.
pub proof fn law_no_error_is_lost(es: Seq<Seq<char>>, os: Seq<MendOutcome>, n: int)
    requires
        0 <= n,
    ensures
        fixed_to(es, os, n).len() + kept_to(es, os, n).len() == n,
    decreases n,
{
    if n > 0 {
        law_no_error_is_lost(es, os, n - 1);
    }
}

/// An error that nothing can be done about stays in the report as it is.
pub proof fn law_other_errors_stay(es: Seq<Seq<char>>, os: Seq<MendOutcome>, n: int, i: int)
    requires
        0 <= i < n <= es.len(),
        mending(es[i]) is Keep || os[i] is Nothing,
    ensures
        kept_to(es, os, n).contains(es[i]),
    decreases n,
{
    let now = kept_to(es, os, n);
    if i == n - 1 {
        assert(now[now.len() - 1] == es[i]);
    } else {
        law_other_errors_stay(es, os, n - 1, i);
        let before = kept_to(es, os, n - 1);
        let k = choose|k: int| 0 <= k < before.len() && before[k] == es[i];
        assert(now[k] == es[i]);
    }
}

/// No error about a record leads to the removal of a file.
pub proof fn law_records_are_never_removed(name: Seq<char>, rest: Seq<char>)
    ensures
        !(mending(at_file(name) + rest) is RemoveFile),
{
    let e = at_file(name) + rest;
    reveal_strlit("images/");
    reveal_strlit("stale partial download ");
    reveal_strlit("unreferenced blob ");
    reveal_strlit("tags.json: ");
    assert(e[0] == 'i');
    assert(!text::starts_with(e, "stale partial download "@)) by {
        if text::starts_with(e, "stale partial download "@) {
            assert(e.subrange(0, "stale partial download "@.len() as int)[0] == 's');
        }
    }
    assert(!text::starts_with(e, "unreferenced blob "@)) by {
        if text::starts_with(e, "unreferenced blob "@) {
            assert(e.subrange(0, "unreferenced blob "@.len() as int)[0] == 'u');
        }
    }
}

// ---------------------------------------------------------------- mending once is enough

/// There is something for the mending to change.
pub open spec fn has_effect(s: StoreSnapshot, m: MendView) -> bool {
    match m {
        MendView::RemoveFile(path) => exists|j: int|
            0 <= j < s.blobs@.len() && (#[trigger] s.blobs@[j]).path@ == path,
        MendView::DropTag(tag) => dns::entry(s.tags, tag) is Some,
        MendView::Evict(file, tag) => exists|i: int|
            0 <= i < s.images@.len() && embeds(#[trigger] s.images@[i], file, tag),
        MendView::Keep => false,
    }
}

/// The record in a file of that name has the tag.
pub open spec fn embeds(f: StoredImage, file: Seq<char>, tag: Seq<char>) -> bool {
    f.name@ == file && (f.content matches RecordFile::Record(r) && r.tags().contains(tag))
}

/// What the mending changes is safe to change: a file that is left of a download or that
/// nothing needs, a tag that leads to no record, a record's tag that the index leads
/// elsewhere.
pub open spec fn is_safe(s: StoreSnapshot, m: MendView) -> bool {
    match m {
        MendView::RemoveFile(path) => exists|j: int|
            0 <= j < s.blobs@.len() && is_left_over(s, #[trigger] s.blobs@[j], path),
        MendView::DropTag(tag) => exists|j: int|
            0 <= j < s.tags.entries@.len() && leads_nowhere(s, #[trigger] s.tags.entries@[j], tag),
        MendView::Evict(file, tag) => exists|i: int|
            0 <= i < s.images@.len() && is_stale(s, #[trigger] s.images@[i], file, tag),
        MendView::Keep => true,
    }
}

pub open spec fn is_left_over(s: StoreSnapshot, f: DiskEntry, path: Seq<char>) -> bool {
    f.path@ == path && f.is_file && (is_partial(f.name@) || !is_needed(s, f.name@))
}

pub open spec fn leads_nowhere(s: StoreSnapshot, e: (String, String), tag: Seq<char>) -> bool {
    e.0@ == tag && !image_listed(s.images@, short_of(e.1@) + ".json"@)
}

pub open spec fn is_stale(
    s: StoreSnapshot,
    f: StoredImage,
    file: Seq<char>,
    tag: Seq<char>,
) -> bool {
    &&& embeds(f, file, tag)
    &&& is_record_file(file)
    &&& dns::entry(s.tags, tag) matches Some(owner) && short_of(owner) != short_of(
        f.content->Record_0.id@,
    )
}

/// A text does not run into the separator behind it: it is cut off there and not before.
pub open spec fn is_cut_off(a: Seq<char>, p: Seq<char>) -> bool {
    text::find(a + p, p) == Some(a.len() as int)
}

/// The file of a record is told apart in an error about it: its name holds nothing of the
/// error's words, and no other file is named as this one with a colon and more behind it.
pub open spec fn is_told_apart(s: StoreSnapshot, name: Seq<char>) -> bool {
    &&& is_cut_off(name, ": stale embedded tag "@)
    &&& forall|g: int|
        0 <= g < s.images@.len() ==> !text::starts_with(
            (#[trigger] s.images@[g]).name@,
            name + ": "@,
        )
}

/// Every file of a record about which there is an error is told apart.
pub open spec fn files_are_told_apart(s: StoreSnapshot) -> bool {
    forall|i: int|
        0 <= i < s.images@.len() && file_errors(s, #[trigger] s.images@[i]).len() > 0
            ==> is_told_apart(s, s.images@[i].name@)
}

/// The tags about which there is an error hold nothing of the error's words: those that lead
/// to no record, and those of a record that the index leads elsewhere.
pub open spec fn tags_are_told_apart(s: StoreSnapshot) -> bool {
    &&& forall|j: int|
        0 <= j < s.tags.entries@.len() && leads_nowhere(
            s,
            #[trigger] s.tags.entries@[j],
            s.tags.entries@[j].0@,
        ) ==> is_cut_off(s.tags.entries@[j].0@, " points at missing image "@)
    &&& forall|i: int, x: Seq<char>|
        0 <= i < s.images@.len() && #[trigger] is_stale(
            s,
            s.images@[i],
            s.images@[i].name@,
            x,
        ) ==> is_cut_off(x, " (index points at "@)
}

/// An error of the store is mended that way.
pub open spec fn mends(s: StoreSnapshot, m: MendView) -> bool {
    exists|i: int| 0 <= i < all_errors(s).len() && mending(#[trigger] all_errors(s)[i]) == m
}

/// A file of a record once every error has been mended: the record has lost the tags that
/// were evicted from it, and nothing else.
pub open spec fn image_mended(s: StoreSnapshot, before: StoredImage, after: StoredImage) -> bool {
    &&& after.name@ == before.name@
    &&& match before.content {
        RecordFile::Record(r) => after.content matches RecordFile::Record(q) && {
            &&& q.id@ == r.id@
            &&& q.layer_blobs@ == r.layer_blobs@
            &&& q.diff_ids@ == r.diff_ids@
            &&& forall|x: Seq<char>| #[trigger]
                q.tags().contains(x) <==> r.tags().contains(x) && !mends(
                    s,
                    MendView::Evict(before.name@, x),
                )
        },
        c => after.content == c,
    }
}

/// The store once every error has been mended.
pub open spec fn is_mended(s: StoreSnapshot, t: StoreSnapshot) -> bool {
    &&& t.cache_text@ == s.cache_text@
    &&& t.layers@ == s.layers@
    &&& t.images@.len() == s.images@.len()
    &&& forall|i: int|
        0 <= i < t.images@.len() ==> image_mended(s, s.images@[i], #[trigger] t.images@[i])
    &&& forall|j: int|
        0 <= j < t.blobs@.len() ==> s.blobs@.contains(#[trigger] t.blobs@[j]) && !mends(
            s,
            MendView::RemoveFile(t.blobs@[j].path@),
        )
    &&& forall|i: int|
        0 <= i < s.blobs@.len() && !mends(s, MendView::RemoveFile((#[trigger] s.blobs@[i]).path@))
            ==> t.blobs@.contains(s.blobs@[i])
    &&& forall|j: int|
        0 <= j < t.tags.entries@.len() ==> s.tags.entries@.contains(#[trigger] t.tags.entries@[j])
            && !mends(s, MendView::DropTag(t.tags.entries@[j].0@))
    &&& forall|k: Seq<char>| #[trigger]
        dns::entry(t.tags, k) == if mends(s, MendView::DropTag(k)) {
            None
        } else {
            dns::entry(s.tags, k)
        }
}

proof fn lemma_in_sum(a: Seq<Seq<char>>, b: Seq<Seq<char>>, e: Seq<char>)
    ensures
        (a + b).contains(e) <==> a.contains(e) || b.contains(e),
{
    if a.contains(e) {
        let i = choose|i: int| 0 <= i < a.len() && a[i] == e;
        assert((a + b)[i] == e);
    }
    if b.contains(e) {
        let i = choose|i: int| 0 <= i < b.len() && b[i] == e;
        assert((a + b)[a.len() + i] == e);
    }
    if (a + b).contains(e) {
        let i = choose|i: int| 0 <= i < (a + b).len() && (a + b)[i] == e;
        if i < a.len() {
            assert(a[i] == e);
        } else {
            assert(b[i - a.len()] == e);
        }
    }
}

proof fn lemma_in_images(s: StoreSnapshot, n: int, e: Seq<char>)
    requires
        0 <= n <= s.images@.len(),
    ensures
        images_errors(s, n).contains(e) <==> exists|i: int|
            0 <= i < n && file_errors(s, #[trigger] s.images@[i]).contains(e),
    decreases n,
{
    if n > 0 {
        lemma_in_images(s, n - 1, e);
        lemma_in_sum(images_errors(s, n - 1), file_errors(s, s.images@[n - 1]), e);
        if images_errors(s, n - 1).contains(e) {
            let i = choose|i: int|
                0 <= i < n - 1 && file_errors(s, #[trigger] s.images@[i]).contains(e);
            assert(file_errors(s, s.images@[i]).contains(e));
        }
    }
}

spec fn index_error(s: StoreSnapshot, x: (String, String)) -> Seq<Seq<char>> {
    if !image_listed(s.images@, short_of(x.1@) + ".json"@) {
        seq!["tags.json: "@ + x.0@ + " points at missing image "@ + x.1@]
    } else {
        Seq::empty()
    }
}

proof fn lemma_in_index(s: StoreSnapshot, n: int, e: Seq<char>)
    requires
        0 <= n <= s.tags.entries@.len(),
    ensures
        index_errors(s, n).contains(e) <==> exists|j: int|
            0 <= j < n && index_error(s, #[trigger] s.tags.entries@[j]).contains(e),
    decreases n,
{
    if n > 0 {
        lemma_in_index(s, n - 1, e);
        lemma_in_sum(index_errors(s, n - 1), index_error(s, s.tags.entries@[n - 1]), e);
        if index_errors(s, n - 1).contains(e) {
            let j = choose|j: int|
                0 <= j < n - 1 && index_error(s, #[trigger] s.tags.entries@[j]).contains(e);
            assert(index_error(s, s.tags.entries@[j]).contains(e));
        }
    }
}

proof fn lemma_in_blobs(s: StoreSnapshot, n: int, e: Seq<char>)
    requires
        0 <= n <= s.blobs@.len(),
    ensures
        orphan_blobs(s, n).contains(e) <==> exists|j: int|
            0 <= j < n && blob_errors(s, #[trigger] s.blobs@[j]).contains(e),
    decreases n,
{
    if n > 0 {
        lemma_in_blobs(s, n - 1, e);
        lemma_in_sum(orphan_blobs(s, n - 1), blob_errors(s, s.blobs@[n - 1]), e);
        if orphan_blobs(s, n - 1).contains(e) {
            let j = choose|j: int|
                0 <= j < n - 1 && blob_errors(s, #[trigger] s.blobs@[j]).contains(e);
            assert(blob_errors(s, s.blobs@[j]).contains(e));
        }
    }
}

proof fn lemma_in_layers(s: StoreSnapshot, n: int, e: Seq<char>)
    requires
        0 <= n <= s.layers@.len(),
        orphan_layers(s, n).contains(e),
    ensures
        exists|j: int|
            0 <= j < n && e == "unreferenced layer "@ + (#[trigger] s.layers@[j]).path@,
    decreases n,
{
    if n > 0 {
        let l = s.layers@[n - 1];
        let a = orphan_layers(s, n - 1);
        let b = orphan_layers(s, n).skip(a.len() as int);
        assert(orphan_layers(s, n) =~= a + b);
        lemma_in_sum(a, b, e);
        if a.contains(e) {
            lemma_in_layers(s, n - 1, e);
        } else {
            assert(b.len() <= 1);
            assert(e == "unreferenced layer "@ + l.path@);
        }
    }
}

proof fn lemma_in_tags(
    tags: Table<String>,
    name: Seq<char>,
    id: Seq<char>,
    ts: Seq<Seq<char>>,
    n: int,
    e: Seq<char>,
)
    requires
        0 <= n <= ts.len(),
    ensures
        tags_errors(tags, name, id, ts, n).contains(e) <==> exists|k: int|
            0 <= k < n && tag_errors(tags, name, id, #[trigger] ts[k]).contains(e),
    decreases n,
{
    if n > 0 {
        lemma_in_tags(tags, name, id, ts, n - 1, e);
        lemma_in_sum(
            tags_errors(tags, name, id, ts, n - 1),
            tag_errors(tags, name, id, ts[n - 1]),
            e,
        );
        if tags_errors(tags, name, id, ts, n - 1).contains(e) {
            let k = choose|k: int|
                0 <= k < n - 1 && tag_errors(tags, name, id, #[trigger] ts[k]).contains(e);
            assert(tag_errors(tags, name, id, ts[k]).contains(e));
        }
    }
}

/// Where an error comes from.
proof fn lemma_in_all(s: StoreSnapshot, e: Seq<char>)
    ensures
        all_errors(s).contains(e) <==> {
            ||| images_errors(s, s.images@.len() as int).contains(e)
            ||| index_errors(s, s.tags.entries@.len() as int).contains(e)
            ||| orphan_blobs(s, s.blobs@.len() as int).contains(e)
            ||| orphan_layers(s, s.layers@.len() as int).contains(e)
        },
{
    let a = images_errors(s, s.images@.len() as int);
    let b = index_errors(s, s.tags.entries@.len() as int);
    let c = orphan_blobs(s, s.blobs@.len() as int);
    let d = orphan_layers(s, s.layers@.len() as int);
    lemma_in_sum(a, b, e);
    lemma_in_sum(a + b, c, e);
    lemma_in_sum(a + b + c, d, e);
}

/// What a text begins with it does not begin with otherwise.
proof fn lemma_begins_otherwise(e: Seq<char>, p: Seq<char>, k: int)
    requires
        0 <= k < p.len(),
        k < e.len(),
        e[k] != p[k],
    ensures
        text::strip_prefix(e, p) is None,
{
    if text::starts_with(e, p) {
        assert(e.subrange(0, p.len() as int)[k] == p[k]);
    }
}

proof fn lemma_strips(p: Seq<char>, rest: Seq<char>)
    ensures
        text::strip_prefix(p + rest, p) == Some(rest),
{
    assert((p + rest).subrange(0, p.len() as int) =~= p);
    assert((p + rest).skip(p.len() as int) =~= rest);
}

proof fn lemma_cut_off(a: Seq<char>, p: Seq<char>, rest: Seq<char>)
    requires
        is_cut_off(a, p),
    ensures
        text::split_once(a + p + rest, p) == Some((a, rest)),
{
    let s = a + p + rest;
    let k = a.len() as int;
    assert(s.subrange(k, k + p.len()) =~= p);
    assert forall|j: int| 0 <= j < k implies !#[trigger] text::occurs_at(s, p, j) by {
        if text::occurs_at(s, p, j) {
            assert((a + p).subrange(j, j + p.len()) =~= s.subrange(j, j + p.len()));
            text::lemma_find_hits(a + p, p, j);
        }
    }
    text::lemma_found_at(s, p, k);
    assert(s.take(k) =~= a);
    assert(s.skip(k + p.len()) =~= rest);
}

/// Nothing is to be done about an error of a record that is not about a stale tag.
proof fn lemma_other_fault(s: StoreSnapshot, name: Seq<char>, rest: Seq<char>)
    requires
        is_told_apart(s, name),
        rest.len() >= 3,
        rest[0] == ':' && rest[1] == ' ' && rest[2] != 's',
    ensures
        !has_effect(s, mending(at_file(name) + rest)),
{
    let e = at_file(name) + rest;
    reveal_strlit("images/");
    reveal_strlit("stale partial download ");
    reveal_strlit("unreferenced blob ");
    reveal_strlit("tags.json: ");
    reveal_strlit(": ");
    lemma_begins_otherwise(e, "stale partial download "@, 0);
    lemma_begins_otherwise(e, "unreferenced blob "@, 0);
    lemma_begins_otherwise(e, "tags.json: "@, 0);
    let tail = name + rest;
    assert(e =~= "images/"@ + tail);
    lemma_strips("images/"@, tail);
    let p = ": stale embedded tag "@;
    reveal_strlit(": stale embedded tag ");
    text::lemma_find_from(tail, p, 0);
    if let Some(k) = text::find(tail, p) {
        let w = tail.subrange(k, k + p.len());
        let n = name.len() as int;
        assert(tail[n] == rest[0] && tail[n + 1] == rest[1] && tail[n + 2] == rest[2]);
        if k < n {
            if k + p.len() > n {
                assert(w[n - k] == tail[n]);
                assert(p[n - k] != ':');
            } else {
                assert((name + p).subrange(k, k + p.len()) =~= w);
                text::lemma_find_hits(name + p, p, k);
            }
        }
        assert(w[0] == tail[k] && w[1] == tail[k + 1] && w[2] == tail[k + 2]);
        assert(k > n + 1);
        let file = tail.take(k);
        if has_effect(s, mending(e)) {
            let tag = mending(e)->Evict_1;
            assert(mending(e) == MendView::Evict(file, tag));
            let i = choose|i: int|
                0 <= i < s.images@.len() && embeds(#[trigger] s.images@[i], file, tag);
            assert(s.images@[i].name@.subrange(0, n + 2) =~= name + ": "@);
        }
    }
}

/// An error about a stale tag is mended by the eviction of that tag from that record.
proof fn lemma_stale_fault(name: Seq<char>, x: Seq<char>, owner: Seq<char>)
    requires
        is_cut_off(name, ": stale embedded tag "@),
        is_cut_off(x, " (index points at "@),
    ensures
        mending(
            at_file(name) + ": stale embedded tag "@ + x + " (index points at "@ + owner + ")"@,
        ) == MendView::Evict(name, x),
{
    let p = ": stale embedded tag "@;
    let q = " (index points at "@;
    let e = at_file(name) + p + x + q + owner + ")"@;
    reveal_strlit("images/");
    reveal_strlit("stale partial download ");
    reveal_strlit("unreferenced blob ");
    reveal_strlit("tags.json: ");
    reveal_strlit(": stale embedded tag ");
    reveal_strlit(" (index points at ");
    lemma_begins_otherwise(e, "stale partial download "@, 0);
    lemma_begins_otherwise(e, "unreferenced blob "@, 0);
    lemma_begins_otherwise(e, "tags.json: "@, 0);
    let msg = x + q + (owner + ")"@);
    let tail = name + p + msg;
    assert(e =~= "images/"@ + tail);
    lemma_strips("images/"@, tail);
    lemma_cut_off(name, p, msg);
    lemma_cut_off(x, q, owner + ")"@);
}

proof fn lemma_missing_fault(k: Seq<char>, id: Seq<char>)
    requires
        is_cut_off(k, " points at missing image "@),
    ensures
        mending("tags.json: "@ + k + " points at missing image "@ + id) == MendView::DropTag(k),
{
    let q = " points at missing image "@;
    let e = "tags.json: "@ + k + q + id;
    reveal_strlit("stale partial download ");
    reveal_strlit("unreferenced blob ");
    reveal_strlit("tags.json: ");
    reveal_strlit(" points at missing image ");
    lemma_begins_otherwise(e, "stale partial download "@, 0);
    lemma_begins_otherwise(e, "unreferenced blob "@, 0);
    assert(e =~= "tags.json: "@ + (k + q + id));
    lemma_strips("tags.json: "@, k + q + id);
    lemma_cut_off(k, q, id);
}

proof fn lemma_blob_fault(path: Seq<char>)
    ensures
        mending("stale partial download "@ + path) == MendView::RemoveFile(path),
        mending("unreferenced blob "@ + path) == MendView::RemoveFile(path),
        mending("unreferenced layer "@ + path) == MendView::Keep,
{
    reveal_strlit("stale partial download ");
    reveal_strlit("unreferenced blob ");
    reveal_strlit("unreferenced layer ");
    reveal_strlit("tags.json: ");
    reveal_strlit("images/");
    lemma_strips("stale partial download "@, path);
    lemma_strips("unreferenced blob "@, path);
    lemma_begins_otherwise("unreferenced blob "@ + path, "stale partial download "@, 0);
    let e = "unreferenced layer "@ + path;
    lemma_begins_otherwise(e, "stale partial download "@, 0);
    lemma_begins_otherwise(e, "unreferenced blob "@, 13);
    lemma_begins_otherwise(e, "tags.json: "@, 0);
    lemma_begins_otherwise(e, "images/"@, 0);
}

/// What is said of a tag that the index leads elsewhere.
spec fn stale_fault(s: StoreSnapshot, name: Seq<char>, x: Seq<char>) -> Seq<char> {
    at_file(name) + ": stale embedded tag "@ + x + " (index points at "@ + dns::entry(s.tags, x)->0
        + ")"@
}

/// An error of a record is about a stale tag, or there is nothing to be done about it.
proof fn lemma_record_fault(s: StoreSnapshot, i: int, e: Seq<char>)
    requires
        0 <= i < s.images@.len(),
        is_told_apart(s, s.images@[i].name@),
        file_errors(s, s.images@[i]).contains(e),
    ensures
        !has_effect(s, mending(e)) || exists|x: Seq<char>|
            e == stale_fault(s, s.images@[i].name@, x) && #[trigger] is_stale(
                s,
                s.images@[i],
                s.images@[i].name@,
                x,
            ),
{
    let f = s.images@[i];
    let name = f.name@;
    match f.content {
        RecordFile::Unreadable(w) => {
            reveal_strlit(": unreadable: ");
            assert(e =~= at_file(name) + (": unreadable: "@ + w@));
            lemma_other_fault(s, name, ": unreadable: "@ + w@);
        },
        RecordFile::Invalid(w) => {
            reveal_strlit(": invalid record: ");
            assert(e =~= at_file(name) + (": invalid record: "@ + w@));
            lemma_other_fault(s, name, ": invalid record: "@ + w@);
        },
        RecordFile::Record(rec) => {
            let a = name_errors(name, rec.id@);
            let b = count_errors(name, rec.diff_ids@.len(), rec.layer_blobs@.len());
            let ts = rec.tags();
            let c = tags_errors(s.tags, name, rec.id@, ts, ts.len() as int);
            let d = config_errors(s.blobs@, name, rec.id@);
            let g = blobs_errors(s, name, rec, rec.layer_blobs@.len() as int);
            let h = layers_errors(s, name, rec, rec.diff_ids@.len() as int);
            lemma_in_sum(a, b, e);
            lemma_in_sum(a + b, c, e);
            lemma_in_sum(a + b + c, d, e);
            lemma_in_sum(a + b + c + d, g, e);
            lemma_in_sum(a + b + c + d + g, h, e);
            if a.contains(e) {
                reveal_strlit(": empty id");
                reveal_strlit(": filename does not match id ");
                if rec.id@.len() == 0 {
                    lemma_other_fault(s, name, ": empty id"@);
                } else {
                    assert(e =~= at_file(name) + (": filename does not match id "@ + rec.id@));
                    lemma_other_fault(s, name, ": filename does not match id "@ + rec.id@);
                }
            } else if b.contains(e) {
                reveal_strlit(": ");
                let n = num::decimal(rec.diff_ids@.len());
                let rest = ": "@ + n + " diff_ids but "@ + num::decimal(rec.layer_blobs@.len())
                    + " layer_blobs"@;
                num::lemma_decimal_reads_back(rec.diff_ids@.len());
                assert(e =~= at_file(name) + rest);
                assert(rest[2] == n[0]);
                assert(n[0] != 's');
                lemma_other_fault(s, name, rest);
            } else if c.contains(e) {
                lemma_in_tags(s.tags, name, rec.id@, ts, ts.len() as int, e);
                let k = choose|k: int|
                    0 <= k < ts.len() && tag_errors(
                        s.tags,
                        name,
                        rec.id@,
                        #[trigger] ts[k],
                    ).contains(e);
                let x = ts[k];
                match dns::entry(s.tags, x) {
                    Some(owner) => {
                        assert(e == stale_fault(s, name, x));
                        assert(rec.tags().contains(x));
                        assert(is_stale(s, f, name, x));
                    },
                    None => {
                        reveal_strlit(": embedded tag ");
                        let rest = ": embedded tag "@ + x + " missing from index"@;
                        assert(e =~= at_file(name) + rest);
                        lemma_other_fault(s, name, rest);
                    },
                }
            } else if d.contains(e) {
                reveal_strlit(": missing config blob ");
                assert(e =~= at_file(name) + (": missing config blob "@ + rec.id@));
                lemma_other_fault(s, name, ": missing config blob "@ + rec.id@);
            } else if g.contains(e) {
                lemma_blobs_fault(s, name, rec, rec.layer_blobs@.len() as int, e);
            } else {
                lemma_layers_fault(s, name, rec, rec.diff_ids@.len() as int, e);
            }
        },
    }
}

proof fn lemma_blobs_fault(
    s: StoreSnapshot,
    name: Seq<char>,
    rec: ImageRecord,
    n: int,
    e: Seq<char>,
)
    requires
        is_told_apart(s, name),
        0 <= n <= rec.layer_blobs@.len(),
        blobs_errors(s, name, rec, n).contains(e),
    ensures
        !has_effect(s, mending(e)),
    decreases n,
{
    if n > 0 {
        let a = blobs_errors(s, name, rec, n - 1);
        let b = blobs_errors(s, name, rec, n).skip(a.len() as int);
        assert(blobs_errors(s, name, rec, n) =~= a + b);
        lemma_in_sum(a, b, e);
        if a.contains(e) {
            lemma_blobs_fault(s, name, rec, n - 1, e);
        } else {
            let rest = ": missing blob "@ + rec.layer_blobs@[n - 1]@;
            reveal_strlit(": missing blob ");
            assert(e =~= at_file(name) + rest);
            lemma_other_fault(s, name, rest);
        }
    }
}

proof fn lemma_layers_fault(
    s: StoreSnapshot,
    name: Seq<char>,
    rec: ImageRecord,
    n: int,
    e: Seq<char>,
)
    requires
        is_told_apart(s, name),
        0 <= n <= rec.diff_ids@.len(),
        layers_errors(s, name, rec, n).contains(e),
    ensures
        !has_effect(s, mending(e)),
    decreases n,
{
    if n > 0 {
        let a = layers_errors(s, name, rec, n - 1);
        let b = layers_errors(s, name, rec, n).skip(a.len() as int);
        assert(layers_errors(s, name, rec, n) =~= a + b);
        lemma_in_sum(a, b, e);
        if a.contains(e) {
            lemma_layers_fault(s, name, rec, n - 1, e);
        } else {
            let rest = ": missing layer "@ + rec.diff_ids@[n - 1]@;
            reveal_strlit(": missing layer ");
            assert(e =~= at_file(name) + rest);
            lemma_other_fault(s, name, rest);
        }
    }
}

/// Whatever mending changes is safe to change: the files that it removes are left of
/// downloads or kept by no record and not by the build cache; the tags that it drops lead
/// to records that are not there, or stand in records that the index does not lead them to.
pub proof fn law_repair_changes_what_is_safe_alone(s: StoreSnapshot, e: Seq<char>)
    requires
        files_are_told_apart(s),
        tags_are_told_apart(s),
        all_errors(s).contains(e),
        has_effect(s, mending(e)),
    ensures
        is_safe(s, mending(e)),
{
    lemma_in_all(s, e);
    if images_errors(s, s.images@.len() as int).contains(e) {
        lemma_in_images(s, s.images@.len() as int, e);
        let i = choose|i: int|
            0 <= i < s.images@.len() && file_errors(s, #[trigger] s.images@[i]).contains(e);
        let name = s.images@[i].name@;
        lemma_record_fault(s, i, e);
        let x = choose|x: Seq<char>|
            e == stale_fault(s, name, x) && #[trigger] is_stale(s, s.images@[i], name, x);
        lemma_stale_fault(name, x, dns::entry(s.tags, x)->0);
    } else if index_errors(s, s.tags.entries@.len() as int).contains(e) {
        lemma_in_index(s, s.tags.entries@.len() as int, e);
        let j = choose|j: int|
            0 <= j < s.tags.entries@.len() && index_error(s, #[trigger] s.tags.entries@[j]).contains(
                e,
            );
        let x = s.tags.entries@[j];
        assert(leads_nowhere(s, x, x.0@));
        lemma_missing_fault(x.0@, x.1@);
    } else if orphan_blobs(s, s.blobs@.len() as int).contains(e) {
        lemma_in_blobs(s, s.blobs@.len() as int, e);
        let j = choose|j: int|
            0 <= j < s.blobs@.len() && blob_errors(s, #[trigger] s.blobs@[j]).contains(e);
        lemma_blob_fault(s.blobs@[j].path@);
        assert(is_left_over(s, s.blobs@[j], s.blobs@[j].path@));
    } else {
        lemma_in_layers(s, s.layers@.len() as int, e);
        let j = choose|j: int|
            0 <= j < s.layers@.len() && e == "unreferenced layer "@ + (
            #[trigger] s.layers@[j]).path@;
        lemma_blob_fault(s.layers@[j].path@);
    }
}

proof fn lemma_refs_stay(s: StoreSnapshot, t: StoreSnapshot, n: int)
    requires
        is_mended(s, t),
        0 <= n <= s.images@.len(),
    ensures
        refs_to(t.images@, n) == refs_to(s.images@, n),
    decreases n,
{
    if n > 0 {
        lemma_refs_stay(s, t, n - 1);
        assert(image_mended(s, s.images@[n - 1], t.images@[n - 1]));
    }
}

proof fn lemma_mended_names(s: StoreSnapshot, t: StoreSnapshot)
    requires
        is_mended(s, t),
    ensures
        forall|x: Seq<char>| image_listed(t.images@, x) == image_listed(s.images@, x),
{
    assert forall|x: Seq<char>| image_listed(t.images@, x) == image_listed(s.images@, x) by {
        if image_listed(t.images@, x) {
            let i = choose|i: int| 0 <= i < t.images@.len() && (#[trigger] t.images@[i]).name@ == x;
            assert(image_mended(s, s.images@[i], t.images@[i]));
            assert(s.images@[i].name@ == x);
        }
        if image_listed(s.images@, x) {
            let i = choose|i: int| 0 <= i < s.images@.len() && (#[trigger] s.images@[i]).name@ == x;
            assert(image_mended(s, s.images@[i], t.images@[i]));
            assert(t.images@[i].name@ == x);
        }
    }
}

/// What was mended once has nothing left to change.
proof fn lemma_mended_once(s: StoreSnapshot, t: StoreSnapshot, e: Seq<char>)
    requires
        is_mended(s, t),
        all_errors(s).contains(e),
    ensures
        !has_effect(t, mending(e)),
{
    lemma_mends(s, e);
    if has_effect(t, mending(e)) {
        match mending(e) {
            MendView::RemoveFile(path) => {
                let j = choose|j: int|
                    0 <= j < t.blobs@.len() && (#[trigger] t.blobs@[j]).path@ == path;
                assert(!mends(s, MendView::RemoveFile(t.blobs@[j].path@)));
            },
            MendView::Evict(file, tag) => {
                let i = choose|i: int|
                    0 <= i < t.images@.len() && embeds(#[trigger] t.images@[i], file, tag);
                assert(image_mended(s, s.images@[i], t.images@[i]));
                assert(t.images@[i].content->Record_0.tags().contains(tag));
            },
            _ => {},
        }
    }
}

/// A store that has been mended has no error left that can be mended.
pub proof fn law_mended_store_needs_no_mending(s: StoreSnapshot, t: StoreSnapshot, e: Seq<char>)
    requires
        is_mended(s, t),
        files_are_told_apart(t),
        all_errors(t).contains(e),
    ensures
        !has_effect(t, mending(e)),
{
    lemma_mended_names(s, t);
    lemma_refs_stay(s, t, s.images@.len() as int);
    lemma_in_all(t, e);
    if images_errors(t, t.images@.len() as int).contains(e) {
        lemma_in_images(t, t.images@.len() as int, e);
        let i = choose|i: int|
            0 <= i < t.images@.len() && file_errors(t, #[trigger] t.images@[i]).contains(e);
        lemma_record_fault(t, i, e);
        if has_effect(t, mending(e)) {
            let f = t.images@[i];
            let g = s.images@[i];
            let name = f.name@;
            let x = choose|x: Seq<char>|
                e == stale_fault(t, name, x) && #[trigger] is_stale(t, f, name, x);
            assert(image_mended(s, g, f));
            let q = f.content->Record_0;
            let r = g.content->Record_0;
            assert(q.tags().contains(x));
            assert(r.tags().contains(x));
            assert(dns::entry(s.tags, x) == dns::entry(t.tags, x));
            let k = choose|k: int| 0 <= k < r.tags().len() && r.tags()[k] == x;
            assert(tag_errors(s.tags, name, r.id@, r.tags()[k])[0] == e);
            assert(tag_errors(s.tags, name, r.id@, r.tags()[k]).contains(e));
            lemma_stale_in_all(s, i, k, e);
            lemma_mended_once(s, t, e);
        }
    } else if index_errors(t, t.tags.entries@.len() as int).contains(e) {
        lemma_in_index(t, t.tags.entries@.len() as int, e);
        let j = choose|j: int|
            0 <= j < t.tags.entries@.len() && index_error(t, #[trigger] t.tags.entries@[j]).contains(
                e,
            );
        let x = t.tags.entries@[j];
        assert(s.tags.entries@.contains(x));
        let i = choose|i: int| 0 <= i < s.tags.entries@.len() && s.tags.entries@[i] == x;
        assert(index_error(s, s.tags.entries@[i]) =~= index_error(t, x));
        assert(index_error(s, s.tags.entries@[i]).contains(e));
        lemma_in_index(s, s.tags.entries@.len() as int, e);
        lemma_in_all(s, e);
        lemma_mended_once(s, t, e);
    } else if orphan_blobs(t, t.blobs@.len() as int).contains(e) {
        lemma_in_blobs(t, t.blobs@.len() as int, e);
        let j = choose|j: int|
            0 <= j < t.blobs@.len() && blob_errors(t, #[trigger] t.blobs@[j]).contains(e);
        let f = t.blobs@[j];
        assert(s.blobs@.contains(f));
        let i = choose|i: int| 0 <= i < s.blobs@.len() && s.blobs@[i] == f;
        assert(blob_errors(s, s.blobs@[i]).contains(e));
        lemma_in_blobs(s, s.blobs@.len() as int, e);
        lemma_in_all(s, e);
        lemma_mended_once(s, t, e);
    } else {
        lemma_in_layers(t, t.layers@.len() as int, e);
        let j = choose|j: int|
            0 <= j < t.layers@.len() && e == "unreferenced layer "@ + (
            #[trigger] t.layers@[j]).path@;
        lemma_blob_fault(t.layers@[j].path@);
    }
}

proof fn lemma_mends(s: StoreSnapshot, e: Seq<char>)
    requires
        all_errors(s).contains(e),
    ensures
        mends(s, mending(e)),
{
    let i = choose|i: int| 0 <= i < all_errors(s).len() && all_errors(s)[i] == e;
    assert(mending(all_errors(s)[i]) == mending(e));
}

proof fn lemma_stale_in_all(s: StoreSnapshot, i: int, k: int, e: Seq<char>)
    requires
        0 <= i < s.images@.len(),
        is_record_file(s.images@[i].name@),
        s.images@[i].content is Record,
        0 <= k < s.images@[i].content->Record_0.tags().len(),
        tag_errors(
            s.tags,
            s.images@[i].name@,
            s.images@[i].content->Record_0.id@,
            s.images@[i].content->Record_0.tags()[k],
        ).contains(e),
    ensures
        all_errors(s).contains(e),
{
    let f = s.images@[i];
    let name = f.name@;
    let rec = f.content->Record_0;
    let a = name_errors(name, rec.id@);
    let b = count_errors(name, rec.diff_ids@.len(), rec.layer_blobs@.len());
    let ts = rec.tags();
    let c = tags_errors(s.tags, name, rec.id@, ts, ts.len() as int);
    let d = config_errors(s.blobs@, name, rec.id@);
    let g = blobs_errors(s, name, rec, rec.layer_blobs@.len() as int);
    let h = layers_errors(s, name, rec, rec.diff_ids@.len() as int);
    lemma_in_tags(s.tags, name, rec.id@, ts, ts.len() as int, e);
    lemma_in_sum(a + b, c, e);
    lemma_in_sum(a + b + c, d, e);
    lemma_in_sum(a + b + c + d, g, e);
    lemma_in_sum(a + b + c + d + g, h, e);
    assert(file_errors(s, s.images@[i]).contains(e));
    lemma_in_images(s, s.images@.len() as int, e);
    lemma_in_all(s, e);
}

/// A second repair mends nothing more: where a mending is done only if there is something
/// for it to change, the report of the repair behind the first one has nothing fixed.
pub proof fn law_second_repair_mends_nothing(
    s: StoreSnapshot,
    t: StoreSnapshot,
    os: Seq<MendOutcome>,
    n: int,
)
    requires
        is_mended(s, t),
        files_are_told_apart(t),
        0 <= n <= all_errors(t).len(),
        os.len() == all_errors(t).len(),
        forall|i: int|
            0 <= i < os.len() && (#[trigger] os[i]) is Done ==> has_effect(
                t,
                mending(all_errors(t)[i]),
            ),
    ensures
        fixed_to(all_errors(t), os, n) == Seq::<Seq<char>>::empty(),
    decreases n,
{
    if n > 0 {
        law_second_repair_mends_nothing(s, t, os, n - 1);
        let e = all_errors(t)[n - 1];
        assert(all_errors(t).contains(e));
        law_mended_store_needs_no_mending(s, t, e);
        assert(!(os[n - 1] is Done));
    }
}

} // verus!
