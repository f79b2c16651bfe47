//! The `filters` parameter that every list takes: `{"key":["v1","v2"]}`.

use vstd::prelude::*;
use vstd::utf8::encode_utf8;

use crate::json::{self, items_at, key_pointer, keys_at, strings_at, text_at};
use crate::reference;
use crate::table::Table;
use crate::text;

verus! {

/// What stands under one key: the strings of a list, a single string, or nothing.
pub open spec fn filter_values(doc: Seq<u8>, k: Seq<char>) -> Seq<Seq<char>> {
    let p = json::under_key(Seq::empty(), k);
    match json::json_items(doc, p) {
        Some(n) => json::strings_to(doc, p, n as int),
        None => match json::json_text(doc, p) {
            Some(s) => seq![s],
            None => Seq::empty(),
        },
    }
}

/// The keys of the parameter: none where it is missing or no JSON object.
pub open spec fn filter_keys(raw: Option<Seq<char>>) -> Seq<Seq<char>> {
    match raw {
        Some(s) => match json::json_keys(encode_utf8(s), Seq::empty()) {
            Some(ks) => ks,
            None => Seq::empty(),
        },
        None => Seq::empty(),
    }
}

/// The filters under their keys.
pub open spec fn values_under(t: Table<Vec<String>>, k: Seq<char>) -> Option<Seq<Seq<char>>> {
    match t.at(k) {
        Some(v) => Some(text::texts(v@)),
        None => None,
    }
}

fn values_of(doc: &[u8], k: &str) -> (r: Vec<String>)
    ensures
        text::texts(r@) == filter_values(doc@, k@),
{
    let p: String = key_pointer("", k);
    proof {
        reveal_strlit("");
        assert(""@ =~= Seq::empty());
    }
    match items_at(doc, p.as_str()) {
        Some(n) => strings_at(doc, p.as_str(), n),
        None => {
            let mut out: Vec<String> = Vec::new();
            assert(text::texts(out@) =~= Seq::empty());
            if let Some(s) = text_at(doc, p.as_str()) {
                out.push(s);
                assert(text::texts(out@) =~= seq![s@]);
            }
            out
        },
    }
}

/// Reads the parameter. Whatever is no JSON object holds no filter.
pub fn parse_filters(raw: &Option<String>) -> (r: Table<Vec<String>>)
    ensures
        forall|k: Seq<char>|
            #[trigger] values_under(r, k) == if filter_keys(reference::opt_text(*raw)).contains(k) {
                Some(filter_values(encode_utf8(raw->0@), k))
            } else {
                None
            },
{
    let mut out: Table<Vec<String>> = Table::new();
    let ghost keys = filter_keys(reference::opt_text(*raw));
    proof {
        reveal_strlit("");
        assert(""@ =~= Seq::empty());
    }
    let s: &String = match raw {
        Some(s) => s,
        None => {
            return out;
        },
    };
    let doc: &[u8] = s.as_str().as_bytes();
    let ks: Vec<String> = match keys_at(doc, "") {
        Some(ks) => ks,
        None => {
            return out;
        },
    };
    let mut i: usize = 0;
    while i < ks.len()
        invariant
            i <= ks.len(),
            text::texts(ks@) == keys,
            doc@ == encode_utf8(s@),
            forall|k: Seq<char>|
                #[trigger] values_under(out, k) == if keys.take(i as int).contains(k) {
                    Some(filter_values(encode_utf8(s@), k))
                } else {
                    None
                },
        decreases ks.len() - i,
    {
        let ghost before = out;
        let v: Vec<String> = values_of(doc, ks[i].as_str());
        let ghost k0 = ks@[i as int]@;
        out.insert(ks[i].clone(), v);
        proof {
            let a = keys.take(i as int);
            let b = keys.take(i as int + 1);
            assert(keys[i as int] == k0);
            assert(b =~= a.push(k0));
            assert forall|k: Seq<char>| #[trigger]
                values_under(out, k) == if b.contains(k) {
                    Some(filter_values(encode_utf8(s@), k))
                } else {
                    None
                } by {
                if k == k0 {
                    assert(b[i as int] == k);
                } else {
                    assert(out.at(k) == before.at(k));
                    assert(values_under(before, k) == values_under(out, k));
                    if a.contains(k) {
                        let j = choose|j: int| 0 <= j < a.len() && a[j] == k;
                        assert(b[j] == k);
                    }
                    if b.contains(k) {
                        let j = choose|j: int| 0 <= j < b.len() && b[j] == k;
                        assert(a[j] == k);
                    }
                }
            }
        }
        i += 1;
    }
    assert(keys.take(keys.len() as int) =~= keys);
    out
}

} // verus!
