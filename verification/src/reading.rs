//! JSON read back: what stands in a text that was written without white space between its
//! tokens. What the daemon is asked for is stated by what it reads.

use vstd::prelude::*;

use crate::json;
use crate::num;
use crate::text;

verus! {

// ---------------------------------------------------------------- reading

/// The character that the letter behind a backslash stands for.
pub open spec fn short_escape(c: char) -> Option<char> {
    if c == '"' || c == '\\' || c == '/' {
        Some(c)
    } else if c == 'b' {
        Some(8u32 as char)
    } else if c == 't' {
        Some(9u32 as char)
    } else if c == 'n' {
        Some(10u32 as char)
    } else if c == 'f' {
        Some(12u32 as char)
    } else if c == 'r' {
        Some(13u32 as char)
    } else {
        None
    }
}

/// The character at a place of a string, and where the next one begins.
pub open spec fn char_at(t: Seq<char>, i: int) -> Option<(char, int)> {
    if t[i] != '\\' {
        Some((t[i], i + 1))
    } else if i + 1 >= t.len() {
        None
    } else if t[i + 1] != 'u' {
        match short_escape(t[i + 1]) {
            Some(c) => Some((c, i + 2)),
            None => None,
        }
    } else if i + 5 < t.len() {
        match (
            num::hex_value(t[i + 2]),
            num::hex_value(t[i + 3]),
            num::hex_value(t[i + 4]),
            num::hex_value(t[i + 5]),
        ) {
            (Some(a), Some(b), Some(c), Some(d)) => Some(
                ((4096 * a + 256 * b + 16 * c + d) as char, i + 6),
            ),
            _ => None,
        }
    } else {
        None
    }
}

/// The rest of a string from a place in it on, and where the text goes on behind it.
pub open spec fn string_from(t: Seq<char>, i: int) -> Option<(Seq<char>, int)>
    decreases t.len() - i,
{
    if i < 0 || i >= t.len() {
        None
    } else if t[i] == '"' {
        Some((Seq::empty(), i + 1))
    } else {
        match char_at(t, i) {
            Some((c, j)) => if i < j <= t.len() {
                match string_from(t, j) {
                    Some((s, e)) => Some((seq![c] + s, e)),
                    None => None,
                }
            } else {
                None
            },
            None => None,
        }
    }
}

/// The string that begins at a place, and where the text goes on behind it.
pub open spec fn string_at(t: Seq<char>, i: int) -> Option<(Seq<char>, int)> {
    if 0 <= i < t.len() && t[i] == '"' {
        string_from(t, i + 1)
    } else {
        None
    }
}

/// Where `d` open brackets are all closed.
pub open spec fn close_from(t: Seq<char>, i: int, d: nat) -> Option<int>
    decreases t.len() - i,
{
    if i < 0 || i >= t.len() {
        None
    } else if t[i] == '"' {
        match string_from(t, i + 1) {
            Some((_, e)) => if i < e <= t.len() {
                close_from(t, e, d)
            } else {
                None
            },
            None => None,
        }
    } else if t[i] == '{' || t[i] == '[' {
        close_from(t, i + 1, d + 1)
    } else if t[i] == '}' || t[i] == ']' {
        if d <= 1 {
            Some(i + 1)
        } else {
            close_from(t, i + 1, (d - 1) as nat)
        }
    } else {
        close_from(t, i + 1, d)
    }
}

/// What follows a value.
pub open spec fn is_end(c: char) -> bool {
    c == ',' || c == '}' || c == ']'
}

/// Where a number or a word ends.
pub open spec fn word_stop(t: Seq<char>, i: int) -> int
    decreases t.len() - i,
{
    if i < 0 || i >= t.len() || is_end(t[i]) {
        i
    } else {
        word_stop(t, i + 1)
    }
}

/// Where the value ends that begins at a place.
pub open spec fn value_end(t: Seq<char>, i: int) -> Option<int> {
    if i < 0 || i >= t.len() {
        None
    } else if t[i] == '"' {
        match string_from(t, i + 1) {
            Some((_, e)) => Some(e),
            None => None,
        }
    } else if t[i] == '{' || t[i] == '[' {
        close_from(t, i + 1, 1)
    } else if word_stop(t, i) > i {
        Some(word_stop(t, i))
    } else {
        None
    }
}

/// The value of the first member of a name, from the member at a place on.
pub open spec fn member_from(t: Seq<char>, i: int, key: Seq<char>) -> Option<Seq<char>>
    decreases t.len() - i,
{
    match string_at(t, i) {
        Some((k, j)) => if i < j < t.len() && t[j] == ':' {
            match value_end(t, j + 1) {
                Some(e) => if e <= j || e > t.len() {
                    None
                } else if k == key {
                    Some(t.subrange(j + 1, e))
                } else if e < t.len() && t[e] == ',' {
                    member_from(t, e + 1, key)
                } else {
                    None
                },
                None => None,
            }
        } else {
            None
        },
        None => None,
    }
}

/// What an object holds under a name.
#[verifier::opaque]
pub open spec fn member(t: Seq<char>, key: Seq<char>) -> Option<Seq<char>> {
    if t.len() > 0 && t[0] == '{' {
        member_from(t, 1, key)
    } else {
        None
    }
}

/// The items of an array from the one at a place on.
pub open spec fn items_from(t: Seq<char>, i: int) -> Seq<Seq<char>>
    decreases t.len() - i,
{
    match value_end(t, i) {
        Some(e) => if e <= i || e > t.len() {
            Seq::empty()
        } else if e < t.len() && t[e] == ',' {
            seq![t.subrange(i, e)] + items_from(t, e + 1)
        } else {
            seq![t.subrange(i, e)]
        },
        None => Seq::empty(),
    }
}

/// The items of an array.
#[verifier::opaque]
pub open spec fn items(t: Seq<char>) -> Option<Seq<Seq<char>>> {
    if t.len() > 1 && t[0] == '[' {
        Some(
            if t[1] == ']' {
                Seq::empty()
            } else {
                items_from(t, 1)
            },
        )
    } else {
        None
    }
}

/// The string that a text is.
#[verifier::opaque]
pub open spec fn string(t: Seq<char>) -> Option<Seq<char>> {
    match string_at(t, 0) {
        Some((s, e)) => if e == t.len() {
            Some(s)
        } else {
            None
        },
        None => None,
    }
}

/// The strings that an array holds, where it holds nothing else.
pub open spec fn strings(t: Seq<char>) -> Option<Seq<Seq<char>>> {
    match items(t) {
        Some(v) => if forall|i: int| 0 <= i < v.len() ==> string(#[trigger] v[i]) is Some {
            Some(Seq::new(v.len(), |i: int| string(v[i])->0))
        } else {
            None
        },
        None => None,
    }
}

/// The string that an object holds under a name.
pub open spec fn string_under(t: Seq<char>, key: Seq<char>) -> Option<Seq<char>> {
    match member(t, key) {
        Some(v) => string(v),
        None => None,
    }
}

/// The strings of the array that an object holds under a name.
pub open spec fn strings_under(t: Seq<char>, key: Seq<char>) -> Option<Seq<Seq<char>>> {
    match member(t, key) {
        Some(v) => strings(v),
        None => None,
    }
}

// ---------------------------------------------------------------- what was written is read

/// A text stands at a place of another.
pub open spec fn stands(t: Seq<char>, i: int, v: Seq<char>) -> bool {
    0 <= i && i + v.len() <= t.len() && t.subrange(i, i + v.len()) == v
}

pub proof fn lemma_stands_parts(t: Seq<char>, i: int, a: Seq<char>, b: Seq<char>)
    requires
        stands(t, i, a + b),
    ensures
        stands(t, i, a),
        stands(t, i + a.len(), b),
{
    let w = t.subrange(i, i + (a + b).len());
    assert(t.subrange(i, i + a.len()) =~= a) by {
        assert forall|j: int| 0 <= j < a.len() implies t[i + j] == a[j] by {
            assert(w[j] == (a + b)[j]);
        }
    }
    assert(t.subrange(i + a.len(), i + a.len() + b.len()) =~= b) by {
        assert forall|j: int| 0 <= j < b.len() implies t[i + a.len() + j] == b[j] by {
            assert(w[a.len() + j] == (a + b)[a.len() + j]);
        }
    }
}

pub proof fn lemma_stands_char(t: Seq<char>, i: int, v: Seq<char>, j: int)
    requires
        stands(t, i, v),
        0 <= j < v.len(),
    ensures
        t[i + j] == v[j],
{
    assert(t.subrange(i, i + v.len())[j] == v[j]);
}

proof fn lemma_hex(n: nat)
    requires
        n < 16,
    ensures
        num::hex_value(num::hex_char(n)) == Some(n),
        num::hex_char(n) != '"',
{
}

proof fn lemma_char_is_read(t: Seq<char>, i: int, c: char)
    requires
        stands(t, i, json::json_char(c)),
    ensures
        char_at(t, i) == Some((c, i + json::json_char(c).len())),
        json::json_char(c).len() > 0,
        t[i] != '"',
{
    let v = json::json_char(c);
    lemma_stands_char(t, i, v, 0);
    if v.len() > 1 {
        lemma_stands_char(t, i, v, 1);
    }
    if v.len() > 2 {
        lemma_stands_char(t, i, v, 2);
        lemma_stands_char(t, i, v, 3);
        lemma_stands_char(t, i, v, 4);
        lemma_stands_char(t, i, v, 5);
        lemma_hex((c as u32 / 16) as nat);
        lemma_hex((c as u32 % 16) as nat);
        lemma_hex(0);
        assert(num::hex_value('0') == Some(0nat));
        assert(16 * (c as u32 / 16) + c as u32 % 16 == c as u32);
    }
}

proof fn lemma_chars_are_read(t: Seq<char>, i: int, s: Seq<char>)
    requires
        stands(t, i, json::json_chars(s)),
        i + json::json_chars(s).len() < t.len(),
        t[i + json::json_chars(s).len()] == '"',
    ensures
        string_from(t, i) == Some((s, i + json::json_chars(s).len() + 1)),
    decreases s.len(),
{
    if s.len() > 0 {
        let a = json::json_char(s[0]);
        let b = json::json_chars(s.skip(1));
        lemma_stands_parts(t, i, a, b);
        lemma_char_is_read(t, i, s[0]);
        lemma_chars_are_read(t, i + a.len(), s.skip(1));
        assert(seq![s[0]] + s.skip(1) =~= s);
    } else {
        assert(s =~= Seq::empty());
    }
}

/// A string that was written is read.
pub proof fn lemma_quoted_is_read(t: Seq<char>, i: int, s: Seq<char>)
    requires
        stands(t, i, json::json_quoted(s)),
    ensures
        string_at(t, i) == Some((s, i + json::json_quoted(s).len())),
        t[i] == '"',
        json::json_quoted(s).len() >= 2,
{
    reveal(json::json_quoted);
    let q = json::json_quoted(s);
    let c = json::json_chars(s);
    lemma_stands_char(t, i, q, 0);
    lemma_stands_char(t, i, q, q.len() - 1);
    assert(q =~= seq!['"'] + (c + seq!['"']));
    lemma_stands_parts(t, i, seq!['"'], c + seq!['"']);
    lemma_stands_parts(t, i + 1, c, seq!['"']);
    lemma_chars_are_read(t, i + 1, s);
}

/// A text leaves the brackets around it as they are.
#[verifier::opaque]
pub open spec fn passes(w: Seq<char>) -> bool {
    forall|t: Seq<char>, i: int, d: nat|
        stands(t, i, w) && d >= 1 ==> #[trigger] close_from(t, i, d) == close_from(
            t,
            i + w.len(),
            d,
        )
}

/// A text is a value: it is read to its end, and leaves the brackets around it as they are.
#[verifier::opaque]
pub open spec fn is_value(v: Seq<char>) -> bool {
    &&& v.len() > 0
    &&& passes(v)
    &&& v[0] != ']'
    &&& forall|t: Seq<char>, i: int|
        stands(t, i, v) && (i + v.len() == t.len() || is_end(t[i + v.len()]))
            ==> #[trigger] value_end(t, i) == Some(i + v.len())
}

pub proof fn lemma_value(v: Seq<char>, t: Seq<char>, i: int)
    requires
        is_value(v),
        stands(t, i, v),
        i + v.len() == t.len() || is_end(t[i + v.len()]),
    ensures
        value_end(t, i) == Some(i + v.len()),
        v.len() > 0,
        v[0] != ']',
{
    reveal(is_value);
}

proof fn lemma_pass(w: Seq<char>, t: Seq<char>, i: int, d: nat)
    requires
        passes(w),
        stands(t, i, w),
        d >= 1,
    ensures
        close_from(t, i, d) == close_from(t, i + w.len(), d),
{
    reveal(passes);
}

proof fn lemma_passes_sum(a: Seq<char>, b: Seq<char>)
    requires
        passes(a),
        passes(b),
    ensures
        passes(a + b),
{
    assert forall|t: Seq<char>, i: int, d: nat|
        stands(t, i, a + b) && d >= 1 implies #[trigger] close_from(t, i, d) == close_from(
        t,
        i + (a + b).len(),
        d,
    ) by {
        lemma_stands_parts(t, i, a, b);
        lemma_pass(a, t, i, d);
        lemma_pass(b, t, i + a.len(), d);
    }
    reveal(passes);
}

/// Neither a quote nor a bracket, nor what follows a value.
pub open spec fn is_word_char(c: char) -> bool {
    c != '"' && c != '{' && c != '[' && !is_end(c)
}

proof fn lemma_passes_one(c: char)
    requires
        is_word_char(c) || c == ',',
    ensures
        passes(seq![c]),
{
    assert forall|t: Seq<char>, i: int, d: nat|
        stands(t, i, seq![c]) && d >= 1 implies #[trigger] close_from(t, i, d) == close_from(
        t,
        i + seq![c].len(),
        d,
    ) by {
        lemma_stands_char(t, i, seq![c], 0);
    }
    reveal(passes);
}

proof fn lemma_passes_nothing()
    ensures
        passes(Seq::<char>::empty()),
{
    reveal(passes);
}

proof fn lemma_quoted_passes(s: Seq<char>)
    ensures
        passes(json::json_quoted(s)),
{
    let q = json::json_quoted(s);
    assert forall|t: Seq<char>, i: int, d: nat|
        stands(t, i, q) && d >= 1 implies #[trigger] close_from(t, i, d) == close_from(
        t,
        i + q.len(),
        d,
    ) by {
        lemma_quoted_is_read(t, i, s);
    }
    reveal(passes);
}

/// A string is a value.
pub proof fn lemma_quoted_is_value(s: Seq<char>)
    ensures
        is_value(json::json_quoted(s)),
        string(json::json_quoted(s)) == Some(s),
{
    let q = json::json_quoted(s);
    lemma_quoted_passes(s);
    assert(q.subrange(0, q.len() as int) =~= q);
    lemma_quoted_is_read(q, 0, s);
    assert forall|t: Seq<char>, i: int|
        stands(t, i, q) && (i + q.len() == t.len() || is_end(t[i + q.len()])) implies #[trigger]
    value_end(t, i) == Some(i + q.len()) by {
        lemma_quoted_is_read(t, i, s);
    }
    reveal(is_value);
    reveal(string);
}

proof fn lemma_word_passes(w: Seq<char>)
    requires
        forall|j: int| 0 <= j < w.len() ==> is_word_char(#[trigger] w[j]),
    ensures
        passes(w),
    decreases w.len(),
{
    if w.len() == 0 {
        lemma_passes_nothing();
        assert(w =~= Seq::empty());
    } else {
        lemma_word_passes(w.drop_last());
        lemma_passes_one(w.last());
        lemma_passes_sum(w.drop_last(), seq![w.last()]);
        assert(w.drop_last() + seq![w.last()] =~= w);
    }
}

proof fn lemma_word_stop(t: Seq<char>, i: int, e: int)
    requires
        0 <= i <= e <= t.len(),
        forall|j: int| i <= j < e ==> !is_end(#[trigger] t[j]),
        e == t.len() || is_end(t[e]),
    ensures
        word_stop(t, i) == e,
    decreases e - i,
{
    if i < e {
        assert(!is_end(t[i]));
        lemma_word_stop(t, i + 1, e);
    }
}

/// A number or a word is a value.
pub proof fn lemma_word_is_value(w: Seq<char>)
    requires
        w.len() > 0,
        forall|j: int| 0 <= j < w.len() ==> is_word_char(#[trigger] w[j]),
    ensures
        is_value(w),
{
    lemma_word_passes(w);
    assert(is_word_char(w[0]));
    assert forall|t: Seq<char>, i: int|
        stands(t, i, w) && (i + w.len() == t.len() || is_end(t[i + w.len()])) implies #[trigger]
    value_end(t, i) == Some(i + w.len()) by {
        assert forall|j: int| i <= j < i + w.len() implies !is_end(#[trigger] t[j]) by {
            lemma_stands_char(t, i, w, j - i);
            assert(is_word_char(w[j - i]));
        }
        lemma_stands_char(t, i, w, 0);
        lemma_word_stop(t, i, i + w.len());
    }
    reveal(is_value);
}

/// A number in decimal is a value.
pub proof fn lemma_number_is_value(n: int)
    ensures
        is_value(num::signed_decimal(n)),
{
    let w = num::signed_decimal(n);
    let m = if n < 0 {
        (-n) as nat
    } else {
        n as nat
    };
    num::lemma_decimal_reads_back(m);
    assert forall|j: int| 0 <= j < w.len() implies is_word_char(#[trigger] w[j]) by {
        let d = num::decimal(m);
        if n < 0 {
            if j > 0 {
                assert(w[j] == d[j - 1]);
            }
        } else {
            assert(w[j] == d[j]);
        }
    }
    lemma_word_is_value(w);
}

proof fn lemma_join_passes(parts: Seq<Seq<char>>)
    requires
        forall|i: int| 0 <= i < parts.len() ==> passes(#[trigger] parts[i]),
    ensures
        passes(text::join(parts, ","@)),
    decreases parts.len(),
{
    reveal_strlit(",");
    if parts.len() == 0 {
        lemma_passes_nothing();
    } else if parts.len() > 1 {
        let p = parts.drop_last();
        assert forall|i: int| 0 <= i < p.len() implies passes(#[trigger] p[i]) by {
            assert(p[i] == parts[i]);
        }
        lemma_join_passes(p);
        lemma_passes_one(',');
        assert(","@ =~= seq![',']);
        lemma_passes_sum(text::join(p, ","@), ","@);
        lemma_passes_sum(text::join(p, ","@) + ","@, parts.last());
    }
}

/// What stands in brackets is a value where it leaves them as they are.
proof fn lemma_bracketed_is_value(a: char, inner: Seq<char>, b: char)
    requires
        passes(inner),
        (a == '{' && b == '}') || (a == '[' && b == ']'),
    ensures
        is_value(seq![a] + inner + seq![b]),
{
    let v = seq![a] + inner + seq![b];
    assert(v =~= seq![a] + (inner + seq![b]));
    assert forall|t: Seq<char>, i: int, d: nat|
        stands(t, i, v) && d >= 1 implies #[trigger] close_from(t, i, d) == close_from(
        t,
        i + v.len(),
        d,
    ) by {
        lemma_stands_parts(t, i, seq![a], inner + seq![b]);
        lemma_stands_parts(t, i + 1, inner, seq![b]);
        lemma_stands_char(t, i, v, 0);
        lemma_stands_char(t, i, v, v.len() - 1);
        lemma_pass(inner, t, i + 1, d + 1);
    }
    reveal(passes);
    assert(passes(v));
    assert forall|t: Seq<char>, i: int|
        stands(t, i, v) && (i + v.len() == t.len() || is_end(t[i + v.len()])) implies #[trigger]
    value_end(t, i) == Some(i + v.len()) by {
        lemma_stands_parts(t, i, seq![a], inner + seq![b]);
        lemma_stands_parts(t, i + 1, inner, seq![b]);
        lemma_stands_char(t, i, v, 0);
        lemma_stands_char(t, i, v, v.len() - 1);
        lemma_pass(inner, t, i + 1, 1);
    }
    reveal(is_value);
}

pub open spec fn all_values(vs: Seq<Seq<char>>) -> bool {
    forall|i: int| 0 <= i < vs.len() ==> is_value(#[trigger] vs[i])
}

/// An array of values is a value, and these are its items.
pub proof fn lemma_array_is_read(vs: Seq<Seq<char>>)
    requires
        all_values(vs),
    ensures
        is_value("["@ + text::join(vs, ","@) + "]"@),
        items("["@ + text::join(vs, ","@) + "]"@) == Some(vs),
{
    reveal(items);
    let t = "["@ + text::join(vs, ","@) + "]"@;
    let inner = text::join(vs, ","@);
    reveal_strlit("[");
    reveal_strlit("]");
    reveal_strlit(",");
    assert forall|i: int| 0 <= i < vs.len() implies passes(#[trigger] vs[i]) by {
        assert(is_value(vs[i]));
        reveal(is_value);
    }
    lemma_join_passes(vs);
    assert("["@ =~= seq!['[']);
    assert("]"@ =~= seq![']']);
    lemma_bracketed_is_value('[', inner, ']');
    if vs.len() == 0 {
        assert(t =~= seq!['[', ']']);
        assert(items(t)->0 =~= vs);
    } else {
        assert(t.subrange(1, 1int + inner.len()) =~= inner);
        text::lemma_join_first(vs, ","@);
        assert(is_value(vs[0]));
        reveal(is_value);
        assert(vs[0].len() > 0);
        assert(inner[0] == vs[0][0]);
        lemma_items(t, 1, vs);
    }
}

proof fn lemma_items(t: Seq<char>, i: int, vs: Seq<Seq<char>>)
    requires
        vs.len() > 0,
        all_values(vs),
        stands(t, i, text::join(vs, ","@)),
        i + text::join(vs, ","@).len() < t.len(),
        t[i + text::join(vs, ","@).len()] == ']',
    ensures
        items_from(t, i) == vs,
    decreases vs.len(),
{
    reveal_strlit(",");
    text::lemma_join_first(vs, ","@);
    let v = vs[0];
    assert(is_value(v));
    if vs.len() == 1 {
        lemma_value(v, t, i);
        assert(items_from(t, i) =~= vs);
    } else {
        let rest = text::join(vs.skip(1), ","@);
        assert(v + ","@ + rest =~= v + (","@ + rest));
        lemma_stands_parts(t, i, v, ","@ + rest);
        lemma_stands_parts(t, i + v.len(), ","@, rest);
        lemma_stands_char(t, i + v.len(), ","@, 0);
        lemma_value(v, t, i);
        assert forall|k: int| 0 <= k < vs.skip(1).len() implies is_value(
            #[trigger] vs.skip(1)[k],
        ) by {
            assert(vs.skip(1)[k] == vs[k + 1]);
        }
        lemma_items(t, i + v.len() + 1, vs.skip(1));
        assert(seq![v] + vs.skip(1) =~= vs);
    }
}

/// An array of strings is a value, and these are its strings.
pub proof fn lemma_strings_are_read(v: Seq<Seq<char>>)
    ensures
        is_value(json::json_array(v)),
        strings(json::json_array(v)) == Some(v),
{
    let q = json::quoted_all(v);
    assert forall|i: int| 0 <= i < q.len() implies is_value(#[trigger] q[i]) && string(q[i])
        == Some(v[i]) by {
        lemma_quoted_is_value(v[i]);
    }
    lemma_array_is_read(q);
    assert(strings(json::json_array(v))->0 =~= v);
}

/// An object of values is a value.
pub proof fn lemma_object_is_value(ks: Seq<Seq<char>>, vs: Seq<Seq<char>>)
    requires
        ks.len() == vs.len(),
        all_values(vs),
    ensures
        is_value(json::json_object(ks, vs)),
{
    let m = json::members(ks, vs);
    reveal_strlit(":");
    reveal_strlit("{");
    reveal_strlit("}");
    assert forall|i: int| 0 <= i < m.len() implies passes(#[trigger] m[i]) by {
        lemma_quoted_passes(ks[i]);
        lemma_passes_one(':');
        assert(":"@ =~= seq![':']);
        assert(is_value(vs[i]));
        reveal(is_value);
        lemma_passes_sum(json::json_quoted(ks[i]), ":"@);
        lemma_passes_sum(json::json_quoted(ks[i]) + ":"@, vs[i]);
    }
    lemma_join_passes(m);
    assert("{"@ =~= seq!['{']);
    assert("}"@ =~= seq!['}']);
    lemma_bracketed_is_value('{', text::join(m, ","@), '}');
}

/// What was written under a name is what an object holds under it.
pub proof fn lemma_member_is_read(ks: Seq<Seq<char>>, vs: Seq<Seq<char>>, p: int)
    requires
        ks.len() == vs.len(),
        all_values(vs),
        0 <= p < ks.len(),
        forall|q: int| 0 <= q < p ==> #[trigger] ks[q] != ks[p],
    ensures
        member(json::json_object(ks, vs), ks[p]) == Some(vs[p]),
{
    let t = json::json_object(ks, vs);
    let inner = text::join(json::members(ks, vs), ","@);
    reveal_strlit("{");
    reveal_strlit("}");
    assert(t.subrange(1, 1int + inner.len()) =~= inner);
    lemma_members(t, 1, ks, vs, p);
    reveal(member);
}

proof fn lemma_members(t: Seq<char>, i: int, ks: Seq<Seq<char>>, vs: Seq<Seq<char>>, p: int)
    requires
        ks.len() == vs.len(),
        all_values(vs),
        0 <= p < ks.len(),
        forall|q: int| 0 <= q < p ==> #[trigger] ks[q] != ks[p],
        stands(t, i, text::join(json::members(ks, vs), ","@)),
        i + text::join(json::members(ks, vs), ","@).len() < t.len(),
        t[i + text::join(json::members(ks, vs), ","@).len()] == '}',
    ensures
        member_from(t, i, ks[p]) == Some(vs[p]),
    decreases ks.len(),
{
    reveal_strlit(",");
    reveal_strlit(":");
    let m = json::members(ks, vs);
    text::lemma_join_first(m, ","@);
    let k = json::json_quoted(ks[0]);
    let v = vs[0];
    let head = k + ":"@ + v;
    assert(is_value(v));
    let rest = text::join(m.skip(1), ","@);
    if m.len() == 1 {
        assert(text::join(m, ","@) == head);
    } else {
        assert(head + ","@ + rest =~= head + (","@ + rest));
        lemma_stands_parts(t, i, head, ","@ + rest);
        lemma_stands_parts(t, i + head.len(), ","@, rest);
        lemma_stands_char(t, i + head.len(), ","@, 0);
    }
    assert(head =~= k + (":"@ + v));
    lemma_stands_parts(t, i, k, ":"@ + v);
    lemma_stands_parts(t, i + k.len(), ":"@, v);
    lemma_stands_char(t, i + k.len(), ":"@, 0);
    lemma_quoted_is_read(t, i, ks[0]);
    lemma_value(v, t, i + k.len() + 1);
    if p > 0 {
        assert(ks[0] != ks[p]);
        let ks1 = ks.skip(1);
        let vs1 = vs.skip(1);
        assert(m.skip(1) =~= json::members(ks1, vs1));
        assert forall|q: int| 0 <= q < vs1.len() implies is_value(#[trigger] vs1[q]) by {
            assert(vs1[q] == vs[q + 1]);
        }
        assert forall|q: int| 0 <= q < p - 1 implies #[trigger] ks1[q] != ks1[p - 1] by {
            assert(ks1[q] == ks[q + 1]);
        }
        lemma_members(t, i + head.len() + 1, ks1, vs1, p - 1);
    } else {
        assert(t.subrange(i + k.len() + 1, i + k.len() + 1 + v.len()) =~= v);
    }
}

/// An object holds nothing under a name that nothing was written under.
pub proof fn lemma_member_is_absent(ks: Seq<Seq<char>>, vs: Seq<Seq<char>>, key: Seq<char>)
    requires
        ks.len() == vs.len(),
        all_values(vs),
        !ks.contains(key),
    ensures
        member(json::json_object(ks, vs), key) is None,
{
    let t = json::json_object(ks, vs);
    let inner = text::join(json::members(ks, vs), ","@);
    reveal_strlit("{");
    reveal_strlit("}");
    assert(t.subrange(1, 1int + inner.len()) =~= inner);
    if ks.len() > 0 {
        lemma_no_member(t, 1, ks, vs, key);
    } else {
        assert(inner.len() == 0);
        assert(t[1] == '}');
    }
    reveal(member);
}

proof fn lemma_no_member(
    t: Seq<char>,
    i: int,
    ks: Seq<Seq<char>>,
    vs: Seq<Seq<char>>,
    key: Seq<char>,
)
    requires
        ks.len() == vs.len(),
        ks.len() > 0,
        all_values(vs),
        !ks.contains(key),
        stands(t, i, text::join(json::members(ks, vs), ","@)),
        i + text::join(json::members(ks, vs), ","@).len() < t.len(),
        t[i + text::join(json::members(ks, vs), ","@).len()] == '}',
    ensures
        member_from(t, i, key) is None,
    decreases ks.len(),
{
    reveal_strlit(",");
    reveal_strlit(":");
    let m = json::members(ks, vs);
    text::lemma_join_first(m, ","@);
    let k = json::json_quoted(ks[0]);
    let v = vs[0];
    let head = k + ":"@ + v;
    assert(is_value(v));
    assert(ks.contains(ks[0]));
    let rest = text::join(m.skip(1), ","@);
    if m.len() == 1 {
        assert(text::join(m, ","@) == head);
    } else {
        assert(head + ","@ + rest =~= head + (","@ + rest));
        lemma_stands_parts(t, i, head, ","@ + rest);
        lemma_stands_parts(t, i + head.len(), ","@, rest);
        lemma_stands_char(t, i + head.len(), ","@, 0);
    }
    assert(head =~= k + (":"@ + v));
    lemma_stands_parts(t, i, k, ":"@ + v);
    lemma_stands_parts(t, i + k.len(), ":"@, v);
    lemma_stands_char(t, i + k.len(), ":"@, 0);
    lemma_quoted_is_read(t, i, ks[0]);
    lemma_value(v, t, i + k.len() + 1);
    if m.len() > 1 {
        let ks1 = ks.skip(1);
        let vs1 = vs.skip(1);
        assert(m.skip(1) =~= json::members(ks1, vs1));
        assert forall|q: int| 0 <= q < vs1.len() implies is_value(#[trigger] vs1[q]) by {
            assert(vs1[q] == vs[q + 1]);
        }
        if ks1.contains(key) {
            let q = choose|q: int| 0 <= q < ks1.len() && ks1[q] == key;
            assert(ks[q + 1] == key);
        }
        lemma_no_member(t, i + head.len() + 1, ks1, vs1, key);
    }
}

/// An array of strings in an object is read back under its name.
pub proof fn lemma_strings_under(ks: Seq<Seq<char>>, vs: Seq<Seq<char>>, p: int, v: Seq<Seq<char>>)
    requires
        ks.len() == vs.len(),
        all_values(vs),
        0 <= p < ks.len(),
        forall|q: int| 0 <= q < p ==> #[trigger] ks[q] != ks[p],
        vs[p] == json::json_array(v),
    ensures
        strings_under(json::json_object(ks, vs), ks[p]) == Some(v),
{
    lemma_member_is_read(ks, vs, p);
    lemma_strings_are_read(v);
}

/// A string in an object is read back under its name.
pub proof fn lemma_string_under(ks: Seq<Seq<char>>, vs: Seq<Seq<char>>, p: int, s: Seq<char>)
    requires
        ks.len() == vs.len(),
        all_values(vs),
        0 <= p < ks.len(),
        forall|q: int| 0 <= q < p ==> #[trigger] ks[q] != ks[p],
        vs[p] == json::json_quoted(s),
    ensures
        string_under(json::json_object(ks, vs), ks[p]) == Some(s),
{
    lemma_member_is_read(ks, vs, p);
    lemma_quoted_is_value(s);
}

} // verus!
