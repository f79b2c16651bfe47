//! What serde_json makes of text, on plain values.

use vstd::prelude::*;

use crate::network::{add_word, add_words};
use crate::num::{self, decimal_text};
use crate::order::{self, sort_unique};
use crate::reference;
use crate::text::{self, chars_of, join_text, same};

verus! {

/// The strings of a JSON array of strings, where the text is one.
pub uninterp spec fn json_strings(s: Seq<char>) -> Option<Seq<Seq<char>>>;

/// The texts of an optional list of strings.
pub open spec fn opt_texts(o: Option<Vec<String>>) -> Option<Seq<Seq<char>>> {
    match o {
        Some(v) => Some(text::texts(v@)),
        None => None,
    }
}

/// `serde_json::from_str::<Vec<String>>`: the strings of a JSON array of strings, and
/// `None` for any other text.
#[verifier::external_body]
pub(crate) fn strings_from_json(s: &str) -> (r: Option<Vec<String>>)
    ensures
        opt_texts(r) == json_strings(s@),
{
    serde_json::from_str::<Vec<String>>(s).ok()
}

// ---------------------------------------------------------------- documents

/// The string at a JSON pointer in a document, where there is one.
pub uninterp spec fn json_text(doc: Seq<u8>, pointer: Seq<char>) -> Option<Seq<char>>;

/// How many items the array at a JSON pointer in a document has, where there is one.
pub uninterp spec fn json_items(doc: Seq<u8>, pointer: Seq<char>) -> Option<usize>;

/// The keys of the object at a JSON pointer in a document, where there is one.
pub uninterp spec fn json_keys(doc: Seq<u8>, pointer: Seq<char>) -> Option<Seq<Seq<char>>>;

/// `serde_json::from_slice` to a `Value`, then `Value::pointer` and `Value::as_str`: the
/// string that the pointer leads to; `None` where the bytes are no JSON document, the
/// pointer leads nowhere or what is there is no string.
#[verifier::external_body]
pub(crate) fn text_at(doc: &[u8], pointer: &str) -> (r: Option<String>)
    ensures
        reference::opt_text(r) == json_text(doc@, pointer@),
{
    let v = serde_json::from_slice::<serde_json::Value>(doc).ok()?;
    Some(v.pointer(pointer)?.as_str()?.to_string())
}

/// `serde_json::from_slice` to a `Value`, then `Value::pointer` and `Value::as_array`: the
/// length of the array that the pointer leads to; `None` where the bytes are no JSON
/// document, the pointer leads nowhere or what is there is no array.
#[verifier::external_body]
pub(crate) fn items_at(doc: &[u8], pointer: &str) -> (r: Option<usize>)
    ensures
        r == json_items(doc@, pointer@),
{
    let v = serde_json::from_slice::<serde_json::Value>(doc).ok()?;
    Some(v.pointer(pointer)?.as_array()?.len())
}

/// `serde_json::from_slice` to a `Value`, then `Value::pointer` and `Value::as_object`: the
/// keys of the object that the pointer leads to, in the order of `Map::keys`; `None` where
/// the bytes are no JSON document, the pointer leads nowhere or what is there is no
/// object.
#[verifier::external_body]
pub(crate) fn keys_at(doc: &[u8], pointer: &str) -> (r: Option<Vec<String>>)
    ensures
        opt_texts(r) == json_keys(doc@, pointer@),
{
    let v = serde_json::from_slice::<serde_json::Value>(doc).ok()?;
    Some(v.pointer(pointer)?.as_object()?.keys().cloned().collect())
}

/// The boolean at a JSON pointer in a document, where there is one.
pub uninterp spec fn json_flag(doc: Seq<u8>, pointer: Seq<char>) -> Option<bool>;

/// `serde_json::from_slice` to a `Value`, then `Value::pointer` and `Value::as_bool`: the
/// boolean that the pointer leads to; `None` where the bytes are no JSON document, the
/// pointer leads nowhere or what is there is no boolean.
#[verifier::external_body]
pub(crate) fn flag_at(doc: &[u8], pointer: &str) -> (r: Option<bool>)
    ensures
        r == json_flag(doc@, pointer@),
{
    let v = serde_json::from_slice::<serde_json::Value>(doc).ok()?;
    v.pointer(pointer)?.as_bool()
}

/// The integer at a JSON pointer in a document, where there is one that an `i64` holds.
pub uninterp spec fn json_integer(doc: Seq<u8>, pointer: Seq<char>) -> Option<i64>;

/// `serde_json::from_slice` to a `Value`, then `Value::pointer` and `Value::as_i64`: the
/// integer that the pointer leads to; `None` where the bytes are no JSON document, the
/// pointer leads nowhere or what is there is no integer that an `i64` holds.
#[verifier::external_body]
pub(crate) fn integer_at(doc: &[u8], pointer: &str) -> (r: Option<i64>)
    ensures
        r == json_integer(doc@, pointer@),
{
    let v = serde_json::from_slice::<serde_json::Value>(doc).ok()?;
    v.pointer(pointer)?.as_i64()
}

/// What stands at a JSON pointer in a document, as JSON without white space, where there is
/// anything.
pub uninterp spec fn json_value(doc: Seq<u8>, pointer: Seq<char>) -> Option<Seq<char>>;

/// `serde_json::from_slice` to a `Value`, then `Value::pointer` and `Value::to_string`: what
/// the pointer leads to, written as JSON; `None` where the bytes are no JSON document or the
/// pointer leads nowhere.
#[verifier::external_body]
pub(crate) fn value_at(doc: &[u8], pointer: &str) -> (r: Option<String>)
    ensures
        reference::opt_text(r) == json_value(doc@, pointer@),
{
    let v = serde_json::from_slice::<serde_json::Value>(doc).ok()?;
    Some(v.pointer(pointer)?.to_string())
}

/// Whether bytes are a JSON document.
pub uninterp spec fn is_json(doc: Seq<u8>) -> bool;

/// `serde_json::from_slice` to a `Value`: whether the bytes are a JSON document.
#[verifier::external_body]
pub(crate) fn is_document(doc: &[u8]) -> (r: bool)
    ensures
        r == is_json(doc@),
{
    serde_json::from_slice::<serde_json::Value>(doc).is_ok()
}

/// How JSON writes a character of a string: quotes, backslashes and control characters are
/// escaped, everything else stands as it is.
pub open spec fn json_char(c: char) -> Seq<char> {
    if c == '"' {
        seq!['\\', '"']
    } else if c == '\\' {
        seq!['\\', '\\']
    } else if c as u32 == 8 {
        seq!['\\', 'b']
    } else if c as u32 == 9 {
        seq!['\\', 't']
    } else if c as u32 == 10 {
        seq!['\\', 'n']
    } else if c as u32 == 12 {
        seq!['\\', 'f']
    } else if c as u32 == 13 {
        seq!['\\', 'r']
    } else if (c as u32) < 32 {
        seq![
            '\\',
            'u',
            '0',
            '0',
            num::hex_char((c as u32 / 16) as nat),
            num::hex_char((c as u32 % 16) as nat),
        ]
    } else {
        seq![c]
    }
}

/// How JSON writes the characters of a string.
pub open spec fn json_chars(s: Seq<char>) -> Seq<char>
    decreases s.len(),
{
    if s.len() == 0 {
        Seq::empty()
    } else {
        json_char(s[0]) + json_chars(s.skip(1))
    }
}

/// A string as JSON writes it.
#[verifier::opaque]
pub open spec fn json_quoted(s: Seq<char>) -> Seq<char> {
    seq!['"'] + json_chars(s) + seq!['"']
}

/// `serde_json::Value::from` a string, then `Value::to_string`: the string between double
/// quotes, its quotes, backslashes and control characters escaped.
#[verifier::external_body]
pub(crate) fn quote_json(s: &str) -> (r: String)
    ensures
        r@ == json_quoted(s@),
{
    serde_json::Value::from(s).to_string()
}

/// A JSON document over several lines, where the text is one.
pub uninterp spec fn json_pretty(s: Seq<char>) -> Option<Seq<char>>;

/// `serde_json::from_str` to a `Value`, then `serde_json::to_string_pretty`: the document
/// over several lines, and `None` for text that is no JSON document.
#[verifier::external_body]
pub(crate) fn pretty(s: &str) -> (r: Option<String>)
    ensures
        reference::opt_text(r) == json_pretty(s@),
{
    let v = serde_json::from_str::<serde_json::Value>(s).ok()?;
    serde_json::to_string_pretty(&v).ok()
}

/// A key as it stands in a pointer: `~` is written `~0` and `/` is written `~1`.
pub open spec fn escaped(k: Seq<char>) -> Seq<char>
    decreases k.len(),
{
    if k.len() == 0 {
        Seq::empty()
    } else {
        escaped(k.drop_last()) + (if k.last() == '~' {
            seq!['~', '0']
        } else if k.last() == '/' {
            seq!['~', '1']
        } else {
            seq![k.last()]
        })
    }
}

/// The pointer to what stands under a key.
pub open spec fn under_key(base: Seq<char>, k: Seq<char>) -> Seq<char> {
    base + seq!['/'] + escaped(k)
}

/// The pointer to an item of an array.
pub open spec fn under_item(base: Seq<char>, i: int) -> Seq<char> {
    base + seq!['/'] + num::decimal(i as nat)
}

pub(crate) fn key_pointer(base: &str, k: &str) -> (r: String)
    ensures
        r@ == under_key(base@, k@),
{
    let mut s: String = base.to_owned();
    s.push('/');
    let cs: Vec<char> = chars_of(k);
    let mut i: usize = 0;
    assert(cs@.take(0) =~= Seq::empty());
    assert(s@ =~= base@ + seq!['/'] + escaped(cs@.take(0)));
    while i < cs.len()
        invariant
            i <= cs.len(),
            s@ =~= base@ + seq!['/'] + escaped(cs@.take(i as int)),
        decreases cs.len() - i,
    {
        assert(cs@.take(i as int + 1).drop_last() =~= cs@.take(i as int));
        if cs[i] == '~' {
            s.push('~');
            s.push('0');
        } else if cs[i] == '/' {
            s.push('~');
            s.push('1');
        } else {
            s.push(cs[i]);
        }
        i += 1;
    }
    assert(cs@.take(cs@.len() as int) =~= cs@);
    s
}

pub(crate) fn item_pointer(base: &str, i: usize) -> (r: String)
    ensures
        r@ == under_item(base@, i as int),
{
    let mut s: String = base.to_owned();
    s.push('/');
    s.append(decimal_text(i as u128).as_str());
    s
}

/// The strings among the first `n` items of an array.
pub open spec fn strings_to(doc: Seq<u8>, base: Seq<char>, n: int) -> Seq<Seq<char>>
    decreases n,
{
    if n <= 0 {
        Seq::empty()
    } else {
        match json_text(doc, under_item(base, n - 1)) {
            Some(s) => strings_to(doc, base, n - 1).push(s),
            None => strings_to(doc, base, n - 1),
        }
    }
}

/// The strings of an array; what is no string is passed over.
pub(crate) fn strings_at(doc: &[u8], base: &str, n: usize) -> (r: Vec<String>)
    ensures
        text::texts(r@) == strings_to(doc@, base@, n as int),
{
    let mut out: Vec<String> = Vec::new();
    let mut i: usize = 0;
    assert(text::texts(out@) =~= Seq::empty());
    while i < n
        invariant
            i <= n,
            text::texts(out@) == strings_to(doc@, base@, i as int),
        decreases n - i,
    {
        if let Some(s) = text_at(doc, item_pointer(base, i).as_str()) {
            add_word(&mut out, s.as_str());
        }
        i += 1;
    }
    out
}

// ---------------------------------------------------------------- writing JSON

/// Strings as JSON writes them.
pub open spec fn quoted_all(v: Seq<Seq<char>>) -> Seq<Seq<char>> {
    Seq::new(v.len(), |i: int| json_quoted(v[i]))
}

/// An array of strings.
pub open spec fn json_array(v: Seq<Seq<char>>) -> Seq<char> {
    "["@ + text::join(quoted_all(v), ","@) + "]"@
}

/// The members of an object, each a key and the JSON of its value.
pub open spec fn members(ks: Seq<Seq<char>>, vs: Seq<Seq<char>>) -> Seq<Seq<char>> {
    Seq::new(ks.len(), |i: int| json_quoted(ks[i]) + ":"@ + vs[i])
}

/// An object, its members in the order that they are given in.
pub open spec fn json_object(ks: Seq<Seq<char>>, vs: Seq<Seq<char>>) -> Seq<char> {
    "{"@ + text::join(members(ks, vs), ","@) + "}"@
}

pub open spec fn json_bool(b: bool) -> Seq<char> {
    if b {
        "true"@
    } else {
        "false"@
    }
}

pub fn write_bool(b: bool) -> (r: String)
    ensures
        r@ == json_bool(b),
{
    if b {
        "true".to_owned()
    } else {
        "false".to_owned()
    }
}

pub fn write_text(s: &str) -> (r: String)
    ensures
        r@ == json_quoted(s@),
{
    quote_json(s)
}

pub fn write_array(v: &Vec<String>) -> (r: String)
    ensures
        r@ == json_array(text::texts(v@)),
{
    let ghost qv = quoted_all(text::texts(v@));
    let mut parts: Vec<String> = Vec::new();
    let mut i: usize = 0;
    while i < v.len()
        invariant
            i <= v.len(),
            qv == quoted_all(text::texts(v@)),
            text::texts(parts@) =~= qv.take(i as int),
        decreases v.len() - i,
    {
        add_word(&mut parts, quote_json(v[i].as_str()).as_str());
        assert(qv.take(i as int + 1) =~= qv.take(i as int).push(qv[i as int]));
        i += 1;
    }
    assert(qv.take(qv.len() as int) =~= qv);
    let mut s: String = "[".to_owned();
    s.append(join_text(&parts, ",").as_str());
    s.append("]");
    s
}

pub fn write_object(ks: &Vec<String>, vs: &Vec<String>) -> (r: String)
    requires
        ks@.len() == vs@.len(),
    ensures
        r@ == json_object(text::texts(ks@), text::texts(vs@)),
{
    let ghost mv = members(text::texts(ks@), text::texts(vs@));
    let mut parts: Vec<String> = Vec::new();
    let mut i: usize = 0;
    while i < ks.len()
        invariant
            i <= ks.len(),
            ks@.len() == vs@.len(),
            mv == members(text::texts(ks@), text::texts(vs@)),
            text::texts(parts@) =~= mv.take(i as int),
        decreases ks.len() - i,
    {
        let mut m: String = quote_json(ks[i].as_str());
        m.append(":");
        m.append(vs[i].as_str());
        add_word(&mut parts, m.as_str());
        assert(mv.take(i as int + 1) =~= mv.take(i as int).push(mv[i as int]));
        i += 1;
    }
    assert(mv.take(mv.len() as int) =~= mv);
    let mut s: String = "{".to_owned();
    s.append(join_text(&parts, ",").as_str());
    s.append("}");
    s
}

/// The place of the first `x` in `v` at or behind `i`, or the end.
pub open spec fn place_of(v: Seq<Seq<char>>, x: Seq<char>, i: int) -> int
    decreases v.len() - i,
{
    if i < 0 || i >= v.len() || v[i] == x {
        i
    } else {
        place_of(v, x, i + 1)
    }
}

/// The JSON of a member of a document in which some are set anew.
pub open spec fn member_after(
    doc: Seq<u8>,
    ks: Seq<Seq<char>>,
    vs: Seq<Seq<char>>,
    k: Seq<char>,
) -> Seq<char> {
    let p = place_of(ks, k, 0);
    if p < ks.len() {
        vs[p]
    } else {
        match json_value(doc, under_key(Seq::empty(), k)) {
            Some(v) => v,
            None => "null"@,
        }
    }
}

/// The object of a document with members set anew, its keys in order; nothing where the
/// document is no object.
pub open spec fn with_members(doc: Seq<u8>, ks: Seq<Seq<char>>, vs: Seq<Seq<char>>) -> Option<
    Seq<char>,
> {
    match json_keys(doc, Seq::empty()) {
        Some(own) => {
            let all = order::sorted_set(own + ks);
            Some(
                json_object(all, Seq::new(all.len(), |i: int| member_after(doc, ks, vs, all[i]))),
            )
        },
        None => None,
    }
}

fn find_key(ks: &Vec<String>, k: &str) -> (r: usize)
    ensures
        r == place_of(text::texts(ks@), k@, 0),
        r <= ks@.len(),
{
    let ghost kv = text::texts(ks@);
    let mut i: usize = 0;
    while i < ks.len()
        invariant
            i <= ks.len(),
            kv == text::texts(ks@),
            place_of(kv, k@, 0) == place_of(kv, k@, i as int),
        decreases ks.len() - i,
    {
        assert(kv[i as int] == ks@[i as int]@);
        if same(ks[i].as_str(), k) {
            return i;
        }
        i += 1;
    }
    i
}

/// Sets members of a document's object anew.
pub fn set_members(doc: &[u8], ks: &Vec<String>, vs: &Vec<String>) -> (r: Option<String>)
    requires
        ks@.len() == vs@.len(),
    ensures
        reference::opt_text(r) == with_members(doc@, text::texts(ks@), text::texts(vs@)),
{
    proof {
        reveal_strlit("");
        assert(""@ =~= Seq::empty());
    }
    let mut names: Vec<String> = match keys_at(doc, "") {
        Some(own) => own,
        None => {
            return None;
        },
    };
    add_words(&mut names, ks);
    let all: Vec<String> = sort_unique(&names);
    let ghost kv = text::texts(ks@);
    let ghost vv = text::texts(vs@);
    let ghost av = text::texts(all@);
    let ghost mv = Seq::new(av.len(), |i: int| member_after(doc@, kv, vv, av[i]));
    let mut vals: Vec<String> = Vec::new();
    let mut i: usize = 0;
    while i < all.len()
        invariant
            i <= all.len(),
            ks@.len() == vs@.len(),
            ""@ == Seq::<char>::empty(),
            kv == text::texts(ks@),
            vv == text::texts(vs@),
            av == text::texts(all@),
            mv == Seq::new(av.len(), |i: int| member_after(doc@, kv, vv, av[i])),
            text::texts(vals@) =~= mv.take(i as int),
        decreases all.len() - i,
    {
        let k: &str = all[i].as_str();
        assert(av[i as int] == k@);
        let p: usize = find_key(ks, k);
        if p < ks.len() {
            assert(vv[p as int] == vs@[p as int]@);
            add_word(&mut vals, vs[p].as_str());
        } else {
            match value_at(doc, key_pointer("", k).as_str()) {
                Some(v) => add_word(&mut vals, v.as_str()),
                None => add_word(&mut vals, "null"),
            }
        }
        assert(mv.take(i as int + 1) =~= mv.take(i as int).push(mv[i as int]));
        i += 1;
    }
    assert(mv.take(mv.len() as int) =~= mv);
    assert(text::texts(vals@).len() == vals@.len());
    assert(av.len() == all@.len());
    Some(write_object(&all, &vals))
}

} // verus!
