//! Text as sequences of characters: searching, splitting, trimming and joining.
//!
//! The functions work on `&[char]`; `chars_of` and `string_of` convert from and to
//! Rust's own strings.

use vstd::prelude::*;
use vstd::slice::*;

verus! {

/// `String::push`: puts one character behind the others.
pub assume_specification[ String::push ](s: &mut String, c: char)
    ensures
        final(s)@ == old(s)@.push(c),
;

// ---------------------------------------------------------------- conversions

/// The characters of a string.
pub fn chars_of(s: &str) -> (r: Vec<char>)
    ensures
        r@ == s@,
{
    let mut v: Vec<char> = Vec::new();
    for c in it: s.chars()
        invariant
            it.seq() == s@,
            v@ == s@.take(it.index() as int),
    {
        v.push(c);
        assert(s@.take(it.index() as int + 1) =~= s@.take(it.index() as int).push(c));
    }
    assert(s@.take(s@.len() as int) =~= s@);
    v
}

/// The string made of the given characters.
pub fn string_of(s: &[char]) -> (r: String)
    ensures
        r@ == s@,
{
    let mut out: String = String::new();
    let mut i: usize = 0;
    while i < s.len()
        invariant
            i <= s.len(),
            out@ == s@.take(i as int),
        decreases s.len() - i,
    {
        out.push(s[i]);
        assert(s@.take(i as int + 1) =~= s@.take(i as int).push(s@[i as int]));
        i += 1;
    }
    assert(s@.take(s@.len() as int) =~= s@);
    out
}

/// Whether two strings hold the same characters.
pub fn same(a: &str, b: &str) -> (r: bool)
    ensures
        r == (a@ == b@),
{
    let x: String = a.to_owned();
    let y: String = b.to_owned();
    x == y
}

/// Whether two pieces of text hold the same characters.
pub fn same_chars(a: &[char], b: &[char]) -> (r: bool)
    ensures
        r == (a@ == b@),
{
    if a.len() != b.len() {
        return false;
    }
    let mut i: usize = 0;
    while i < a.len()
        invariant
            i <= a.len(),
            a.len() == b.len(),
            forall|j: int| 0 <= j < i ==> a@[j] == b@[j],
        decreases a.len() - i,
    {
        if a[i] != b[i] {
            return false;
        }
        i += 1;
    }
    assert(a@ =~= b@);
    true
}

// ---------------------------------------------------------------- searching

/// `p` stands in `s` from place `i` on.
pub open spec fn occurs_at(s: Seq<char>, p: Seq<char>, i: int) -> bool {
    &&& 0 <= i
    &&& i + p.len() <= s.len()
    &&& s.subrange(i, i + p.len()) == p
}

/// The first place at or behind `i` where `p` stands in `s`.
pub open spec fn find_from(s: Seq<char>, p: Seq<char>, i: int) -> Option<int>
    decreases s.len() - i + 1,
{
    if i < 0 || i + p.len() > s.len() {
        None
    } else if occurs_at(s, p, i) {
        Some(i)
    } else {
        find_from(s, p, i + 1)
    }
}

/// The first place where `p` stands in `s`.
pub open spec fn find(s: Seq<char>, p: Seq<char>) -> Option<int> {
    find_from(s, p, 0)
}

/// The last place at or before `i` where `p` stands in `s`.
pub open spec fn rfind_to(s: Seq<char>, p: Seq<char>, i: int) -> Option<int>
    decreases i + 1,
{
    if i < 0 {
        None
    } else if occurs_at(s, p, i) {
        Some(i)
    } else {
        rfind_to(s, p, i - 1)
    }
}

/// The last place where `p` stands in `s`.
pub open spec fn rfind(s: Seq<char>, p: Seq<char>) -> Option<int> {
    rfind_to(s, p, s.len() - p.len())
}

/// Whether `p` stands anywhere in `s`.
pub open spec fn contains(s: Seq<char>, p: Seq<char>) -> bool {
    find(s, p) is Some
}

pub open spec fn starts_with(s: Seq<char>, p: Seq<char>) -> bool {
    occurs_at(s, p, 0)
}

pub open spec fn ends_with(s: Seq<char>, p: Seq<char>) -> bool {
    occurs_at(s, p, s.len() - p.len())
}

/// What stands before and behind the first `p`.
pub open spec fn split_once(s: Seq<char>, p: Seq<char>) -> Option<(Seq<char>, Seq<char>)> {
    match find(s, p) {
        Some(i) => Some((s.take(i), s.skip(i + p.len()))),
        None => None,
    }
}

/// What stands before and behind the last `p`.
pub open spec fn rsplit_once(s: Seq<char>, p: Seq<char>) -> Option<(Seq<char>, Seq<char>)> {
    match rfind(s, p) {
        Some(i) => Some((s.take(i), s.skip(i + p.len()))),
        None => None,
    }
}

/// `find_from` gives the least place at or behind `i`.
pub proof fn lemma_find_from(s: Seq<char>, p: Seq<char>, i: int)
    requires
        0 <= i,
    ensures
        find_from(s, p, i) matches Some(k) ==> i <= k && occurs_at(s, p, k) && (forall|j: int|
            i <= j < k ==> !#[trigger] occurs_at(s, p, j)),
        find_from(s, p, i) is None ==> forall|j: int| i <= j ==> !#[trigger] occurs_at(s, p, j),
    decreases s.len() - i + 1,
{
    if i + p.len() > s.len() {
    } else if occurs_at(s, p, i) {
    } else {
        lemma_find_from(s, p, i + 1);
        assert forall|j: int| i <= j && !(i + 1 <= j) implies !#[trigger] occurs_at(s, p, j) by {
            assert(j == i);
        }
    }
}

/// Where `p` stands in `s`, `find` gives a place no later than that one.
pub proof fn lemma_find_hits(s: Seq<char>, p: Seq<char>, k: int)
    requires
        occurs_at(s, p, k),
    ensures
        find(s, p) matches Some(i) && 0 <= i <= k,
{
    lemma_find_from(s, p, 0);
}

/// `rfind_to` gives the greatest place at or before `i`.
pub proof fn lemma_rfind_to(s: Seq<char>, p: Seq<char>, i: int)
    ensures
        rfind_to(s, p, i) matches Some(k) ==> 0 <= k <= i && occurs_at(s, p, k) && (forall|j: int|
            k < j <= i ==> !#[trigger] occurs_at(s, p, j)),
        rfind_to(s, p, i) is None ==> forall|j: int| j <= i ==> !#[trigger] occurs_at(s, p, j),
    decreases i + 1,
{
    if i < 0 {
    } else if occurs_at(s, p, i) {
    } else {
        lemma_rfind_to(s, p, i - 1);
        assert forall|j: int| j <= i && !(j <= i - 1) implies !#[trigger] occurs_at(s, p, j) by {
            assert(j == i);
        }
    }
}

/// A text that stands at `k` and nowhere before is found at `k`.
pub proof fn lemma_found_at(s: Seq<char>, p: Seq<char>, k: int)
    requires
        occurs_at(s, p, k),
        forall|j: int| 0 <= j < k ==> !#[trigger] occurs_at(s, p, j),
    ensures
        find(s, p) == Some(k),
{
    lemma_find_from(s, p, 0);
}

/// Finding one character: the first place that holds it.
pub proof fn lemma_find_char(s: Seq<char>, c: char)
    ensures
        find(s, seq![c]) matches Some(k) ==> 0 <= k < s.len() && s[k] == c && (forall|j: int|
            0 <= j < k ==> #[trigger] s[j] != c),
        find(s, seq![c]) is None ==> forall|j: int| 0 <= j < s.len() ==> #[trigger] s[j] != c,
        contains(s, seq![c]) == s.contains(c),
{
    lemma_find_from(s, seq![c], 0);
    assert forall|j: int| 0 <= j < s.len() && #[trigger] s[j] == c implies occurs_at(
        s,
        seq![c],
        j,
    ) by {
        assert(s.subrange(j, j + 1) =~= seq![c]);
    }
    if let Some(k) = find(s, seq![c]) {
        assert(s.subrange(k, k + 1)[0] == c);
    }
}

/// A character that stands at `k` and nowhere before is found at `k`.
pub proof fn lemma_found_char(s: Seq<char>, c: char, k: int)
    requires
        0 <= k < s.len(),
        s[k] == c,
        forall|j: int| 0 <= j < k ==> s[j] != c,
    ensures
        find(s, seq![c]) == Some(k),
{
    lemma_find_char(s, c);
    let f = find(s, seq![c]);
    assert(f is Some);
    assert(s[f->0] == c);
}

/// Finding one character from the end: the last place that holds it.
pub proof fn lemma_rfind_char(s: Seq<char>, c: char)
    ensures
        rfind(s, seq![c]) matches Some(k) ==> 0 <= k < s.len() && s[k] == c && (forall|j: int|
            k < j < s.len() ==> #[trigger] s[j] != c),
        rfind(s, seq![c]) is None ==> forall|j: int| 0 <= j < s.len() ==> #[trigger] s[j] != c,
{
    lemma_rfind_to(s, seq![c], s.len() - 1);
    assert forall|j: int| 0 <= j < s.len() && #[trigger] s[j] == c implies occurs_at(
        s,
        seq![c],
        j,
    ) by {
        assert(s.subrange(j, j + 1) =~= seq![c]);
    }
    if let Some(k) = rfind(s, seq![c]) {
        assert(s.subrange(k, k + 1)[0] == c);
    }
}

/// A character that stands at `k` and nowhere behind is found at `k` from the end.
pub proof fn lemma_rfound_char(s: Seq<char>, c: char, k: int)
    requires
        0 <= k < s.len(),
        s[k] == c,
        forall|j: int| k < j < s.len() ==> s[j] != c,
    ensures
        rfind(s, seq![c]) == Some(k),
{
    lemma_rfind_char(s, c);
    let f = rfind(s, seq![c]);
    assert(f is Some);
    assert(s[f->0] == c);
}

/// A character that a text does not hold is in no part of it either.
pub proof fn lemma_part_without(s: Seq<char>, i: int, c: char)
    requires
        !s.contains(c),
        0 <= i <= s.len(),
    ensures
        !s.take(i).contains(c),
        !s.skip(i).contains(c),
{
    let a = s.take(i);
    let b = s.skip(i);
    if a.contains(c) {
        let j = choose|j: int| 0 <= j < a.len() && a[j] == c;
        assert(s[j] == c);
    }
    if b.contains(c) {
        let j = choose|j: int| 0 <= j < b.len() && b[j] == c;
        assert(s[i + j] == c);
    }
}

/// A character that neither of two texts holds is not in the two put together.
pub proof fn lemma_sum_without(a: Seq<char>, b: Seq<char>, c: char)
    requires
        !a.contains(c),
        !b.contains(c),
    ensures
        !(a + b).contains(c),
{
    let s = a + b;
    if s.contains(c) {
        let j = choose|j: int| 0 <= j < s.len() && s[j] == c;
        if j < a.len() {
            assert(a[j] == c);
        } else {
            assert(b[j - a.len()] == c);
        }
    }
}

/// Text that does not start with white space keeps its start under `trim`.
pub proof fn lemma_trim_start_keeps(s: Seq<char>)
    ensures
        s.len() == 0 || !is_white_space(s[0]) ==> trim_start(s) == s,
        trim_start(s).len() <= s.len(),
        trim_start(s).len() > 0 ==> !is_white_space(trim_start(s)[0]),
        trim_start(s) == s.skip(s.len() - trim_start(s).len()),
    decreases s.len(),
{
    if s.len() > 0 && is_white_space(s[0]) {
        lemma_trim_start_keeps(s.skip(1));
        let t = trim_start(s);
        assert(s.skip(1).skip(s.skip(1).len() - t.len()) =~= s.skip(s.len() - t.len()));
    } else {
        assert(s.skip(0) =~= s);
    }
}

/// Text that does not end with white space keeps its end under `trim`.
pub proof fn lemma_trim_end_keeps(s: Seq<char>)
    ensures
        s.len() == 0 || !is_white_space(s.last()) ==> trim_end(s) == s,
        trim_end(s).len() <= s.len(),
        trim_end(s).len() > 0 ==> !is_white_space(trim_end(s).last()),
        trim_end(s) == s.take(trim_end(s).len() as int),
    decreases s.len(),
{
    if s.len() > 0 && is_white_space(s.last()) {
        lemma_trim_end_keeps(s.drop_last());
        let t = trim_end(s);
        assert(s.drop_last().take(t.len() as int) =~= s.take(t.len() as int));
    } else {
        assert(s.take(s.len() as int) =~= s);
    }
}

/// What `trim` gives starts and ends with other characters than white space.
pub proof fn lemma_trim(s: Seq<char>)
    ensures
        trim(s).len() > 0 ==> !is_white_space(trim(s)[0]) && !is_white_space(trim(s).last()),
        trim(trim(s)) == trim(s),
        (s.len() > 0 && !is_white_space(s[0]) && !is_white_space(s.last())) ==> trim(s) == s,
{
    lemma_trim_start_keeps(s);
    let t = trim_start(s);
    lemma_trim_end_keeps(t);
    let u = trim(s);
    if u.len() > 0 {
        assert(u[0] == t[0]);
    }
    lemma_trim_start_keeps(u);
    lemma_trim_end_keeps(u);
}

/// Whether `p` stands in `s` from `i` on.
pub fn occurs(s: &[char], p: &[char], i: usize) -> (r: bool)
    ensures
        r == occurs_at(s@, p@, i as int),
{
    if i > s.len() || p.len() > s.len() - i {
        return false;
    }
    let end: usize = i + p.len();
    same_chars(slice_subrange(s, i, end), p)
}

/// The first place where `p` stands in `s`.
pub fn find_text(s: &[char], p: &[char]) -> (r: Option<usize>)
    ensures
        match r {
            Some(i) => find(s@, p@) == Some(i as int),
            None => find(s@, p@) is None,
        },
        r matches Some(i) ==> i + p@.len() <= s@.len(),
{
    let mut i: usize = 0;
    while i <= s.len() && p.len() <= s.len() - i
        invariant
            i <= s.len() + 1,
            find(s@, p@) == find_from(s@, p@, i as int),
        decreases s.len() + 1 - i,
    {
        if occurs(s, p, i) {
            return Some(i);
        }
        if i == s.len() {
            assert(find_from(s@, p@, i + 1) is None);
            return None;
        }
        i += 1;
    }
    None
}

/// The last place where `p` stands in `s`.
pub fn rfind_text(s: &[char], p: &[char]) -> (r: Option<usize>)
    ensures
        match r {
            Some(i) => rfind(s@, p@) == Some(i as int),
            None => rfind(s@, p@) is None,
        },
        r matches Some(i) ==> i + p@.len() <= s@.len(),
{
    if p.len() > s.len() {
        return None;
    }
    let mut i: usize = s.len() - p.len();
    loop
        invariant
            i <= s.len() - p.len(),
            rfind(s@, p@) == rfind_to(s@, p@, i as int),
        decreases i,
    {
        if occurs(s, p, i) {
            return Some(i);
        }
        if i == 0 {
            assert(rfind_to(s@, p@, -1) is None);
            return None;
        }
        i -= 1;
    }
}

pub fn has_text(s: &[char], p: &[char]) -> (r: bool)
    ensures
        r == contains(s@, p@),
{
    find_text(s, p).is_some()
}

pub fn has_prefix(s: &[char], p: &[char]) -> (r: bool)
    ensures
        r == starts_with(s@, p@),
{
    occurs(s, p, 0)
}

pub fn has_suffix(s: &[char], p: &[char]) -> (r: bool)
    ensures
        r == ends_with(s@, p@),
{
    if p.len() > s.len() {
        return false;
    }
    occurs(s, p, s.len() - p.len())
}

/// Splits at the first `p`.
pub fn cut<'a>(s: &'a [char], p: &[char]) -> (r: Option<(&'a [char], &'a [char])>)
    ensures
        match r {
            Some((a, b)) => split_once(s@, p@) == Some((a@, b@)),
            None => split_once(s@, p@) is None,
        },
{
    match find_text(s, p) {
        Some(i) => {
            let n: usize = s.len();
            let width: usize = p.len();
            let a = slice_subrange(s, 0, i);
            let b = slice_subrange(s, i + width, n);
            assert(a@ =~= s@.take(i as int));
            assert(b@ =~= s@.skip(i + p@.len()));
            Some((a, b))
        },
        None => None,
    }
}

/// Splits at the last `p`.
pub fn rcut<'a>(s: &'a [char], p: &[char]) -> (r: Option<(&'a [char], &'a [char])>)
    ensures
        match r {
            Some((a, b)) => rsplit_once(s@, p@) == Some((a@, b@)),
            None => rsplit_once(s@, p@) is None,
        },
{
    match rfind_text(s, p) {
        Some(i) => {
            let n: usize = s.len();
            let width: usize = p.len();
            let a = slice_subrange(s, 0, i);
            let b = slice_subrange(s, i + width, n);
            assert(a@ =~= s@.take(i as int));
            assert(b@ =~= s@.skip(i + p@.len()));
            Some((a, b))
        },
        None => None,
    }
}

/// The text of one character.
pub fn one_char(c: char) -> (r: Vec<char>)
    ensures
        r@ == seq![c],
{
    let mut v: Vec<char> = Vec::new();
    v.push(c);
    assert(v@ =~= seq![c]);
    v
}

/// Whether `c` stands anywhere in `s`.
pub fn has_char(s: &[char], c: char) -> (r: bool)
    ensures
        r == contains(s@, seq![c]),
        r == s@.contains(c),
{
    proof {
        lemma_find_char(s@, c);
    }
    has_text(s, one_char(c).as_slice())
}

/// Splits at the first `c`.
pub fn cut_char<'a>(s: &'a [char], c: char) -> (r: Option<(&'a [char], &'a [char])>)
    ensures
        match r {
            Some((a, b)) => split_once(s@, seq![c]) == Some((a@, b@)),
            None => split_once(s@, seq![c]) is None,
        },
{
    let p: Vec<char> = one_char(c);
    cut(s, p.as_slice())
}

/// Splits at the last `c`.
pub fn rcut_char<'a>(s: &'a [char], c: char) -> (r: Option<(&'a [char], &'a [char])>)
    ensures
        match r {
            Some((a, b)) => rsplit_once(s@, seq![c]) == Some((a@, b@)),
            None => rsplit_once(s@, seq![c]) is None,
        },
{
    let p: Vec<char> = one_char(c);
    rcut(s, p.as_slice())
}

// ---------------------------------------------------------------- splitting

/// `s` cut at every `p`; one piece more than there are cuts.
pub open spec fn split(s: Seq<char>, p: Seq<char>) -> Seq<Seq<char>>
    decreases s.len(),
{
    match find(s, p) {
        Some(i) => if p.len() > 0 && i >= 0 && i + p.len() <= s.len() {
            seq![s.take(i)] + split(s.skip(i + p.len()), p)
        } else {
            seq![s]
        },
        None => seq![s],
    }
}

/// The texts of a list of strings.
pub open spec fn texts(v: Seq<String>) -> Seq<Seq<char>> {
    Seq::new(v.len(), |i: int| v[i]@)
}

/// Every piece between two cuts is free of `p` and the pieces, put together again,
/// are the text that was cut.
pub proof fn lemma_split_join(s: Seq<char>, p: Seq<char>)
    requires
        p.len() > 0,
    ensures
        join(split(s, p), p) == s,
        split(s, p).len() > 0,
    decreases s.len(),
{
    lemma_find_from(s, p, 0);
    match find(s, p) {
        Some(i) => {
            let rest = s.skip(i + p.len());
            lemma_split_join(rest, p);
            let parts = split(s, p);
            assert(parts.first() == s.take(i));
            assert(parts.skip(1) =~= split(rest, p));
            lemma_join_first(parts, p);
            assert(s =~= s.take(i) + p + rest);
        },
        None => {
            assert(split(s, p).skip(1).len() == 0);
        },
    }
}

/// The texts of `parts` with `sep` between each two of them.
pub open spec fn join(parts: Seq<Seq<char>>, sep: Seq<char>) -> Seq<char>
    decreases parts.len(),
{
    if parts.len() == 0 {
        Seq::empty()
    } else if parts.len() == 1 {
        parts[0]
    } else {
        join(parts.drop_last(), sep) + sep + parts.last()
    }
}

/// `join` taken from the front.
pub proof fn lemma_join_first(parts: Seq<Seq<char>>, sep: Seq<char>)
    requires
        parts.len() > 0,
    ensures
        join(parts, sep) == if parts.len() == 1 {
            parts[0]
        } else {
            parts[0] + sep + join(parts.skip(1), sep)
        },
    decreases parts.len(),
{
    if parts.len() == 1 {
    } else if parts.len() == 2 {
        assert(parts.drop_last().len() == 1);
        assert(parts.skip(1).len() == 1);
        assert(join(parts.drop_last(), sep) == parts[0]);
        assert(join(parts.skip(1), sep) == parts[1]);
    } else {
        lemma_join_first(parts.drop_last(), sep);
        assert(parts.drop_last().skip(1) =~= parts.skip(1).drop_last());
        assert(parts.skip(1).last() == parts.last());
        assert(join(parts, sep) =~= parts[0] + sep + join(parts.skip(1), sep));
    }
}

/// Pieces that do not hold the character that joins them come apart as they were.
pub proof fn lemma_split_of_join(parts: Seq<Seq<char>>, c: char)
    requires
        parts.len() > 0,
        forall|i: int| 0 <= i < parts.len() ==> !(#[trigger] parts[i]).contains(c),
    ensures
        split(join(parts, seq![c]), seq![c]) == parts,
    decreases parts.len(),
{
    let s = join(parts, seq![c]);
    lemma_join_first(parts, seq![c]);
    if parts.len() == 1 {
        lemma_find_char(s, c);
        assert(split(s, seq![c]) =~= parts);
    } else {
        let rest = join(parts.skip(1), seq![c]);
        let k = parts[0].len() as int;
        assert forall|j: int| 0 <= j < k implies s[j] != c by {
            assert(s[j] == parts[0][j]);
            assert(parts[0].contains(parts[0][j]));
        }
        lemma_found_char(s, c, k);
        assert(s.take(k) =~= parts[0]);
        assert(s.skip(k + 1) =~= rest);
        assert forall|i: int| 0 <= i < parts.skip(1).len() implies !(#[trigger] parts.skip(
            1,
        )[i]).contains(c) by {
            assert(parts.skip(1)[i] == parts[i + 1]);
        }
        lemma_split_of_join(parts.skip(1), c);
        assert(seq![parts[0]] + parts.skip(1) =~= parts);
    }
}

/// A character that neither the pieces nor the separator hold is not in what they make.
pub proof fn lemma_join_without(parts: Seq<Seq<char>>, sep: Seq<char>, c: char)
    requires
        forall|i: int| 0 <= i < parts.len() ==> !(#[trigger] parts[i]).contains(c),
        !sep.contains(c),
    ensures
        !join(parts, sep).contains(c),
    decreases parts.len(),
{
    if parts.len() > 1 {
        let p = parts.drop_last();
        assert forall|i: int| 0 <= i < p.len() implies !(#[trigger] p[i]).contains(c) by {
            assert(p[i] == parts[i]);
        }
        lemma_join_without(p, sep, c);
        lemma_sum_without(join(p, sep), sep, c);
        lemma_sum_without(join(p, sep) + sep, parts.last(), c);
    }
}

/// Cuts `s` at every `p`.
pub fn split_text(s: &[char], p: &[char]) -> (r: Vec<String>)
    requires
        p@.len() > 0,
    ensures
        texts(r@) == split(s@, p@),
{
    let mut out: Vec<String> = Vec::new();
    let mut rest: &[char] = s;
    loop
        invariant
            p@.len() > 0,
            split(s@, p@) == texts(out@) + split(rest@, p@),
        decreases rest@.len(),
    {
        let ghost before = out@;
        match find_text(rest, p) {
            Some(i) => {
                let n: usize = rest.len();
                let width: usize = p.len();
                let piece = slice_subrange(rest, 0, i);
                let next = slice_subrange(rest, i + width, n);
                assert(piece@ =~= rest@.take(i as int));
                assert(next@ =~= rest@.skip(i + p@.len()));
                out.push(string_of(piece));
                assert(texts(out@) =~= texts(before).push(piece@));
                assert(texts(before) + (seq![piece@] + split(next@, p@)) =~= texts(out@) + split(
                    next@,
                    p@,
                ));
                rest = next;
            },
            None => {
                out.push(string_of(rest));
                assert(texts(out@) =~= texts(before) + seq![rest@]);
                return out;
            },
        }
    }
}

/// Joins strings with `sep` between each two of them.
pub fn join_text(parts: &Vec<String>, sep: &str) -> (r: String)
    ensures
        r@ == join(texts(parts@), sep@),
{
    let mut out: String = String::new();
    let mut i: usize = 0;
    while i < parts.len()
        invariant
            i <= parts.len(),
            out@ == join(texts(parts@).take(i as int), sep@),
        decreases parts.len() - i,
    {
        if i > 0 {
            out.append(sep);
        }
        out.append(parts[i].as_str());
        proof {
            let t = texts(parts@).take(i as int + 1);
            assert(t.drop_last() =~= texts(parts@).take(i as int));
            assert(t.last() == parts@[i as int]@);
            if i == 0 {
                assert(join(texts(parts@).take(0), sep@).len() == 0);
                assert(out@ =~= t[0]);
            }
        }
        i += 1;
    }
    assert(texts(parts@).take(parts@.len() as int) =~= texts(parts@));
    out
}

// ---------------------------------------------------------------- white space

/// The characters with the Unicode property White_Space.
pub open spec fn is_white_space(c: char) -> bool {
    ||| '\u{9}' <= c <= '\u{d}'
    ||| c == ' '
    ||| c == '\u{85}'
    ||| c == '\u{a0}'
    ||| c == '\u{1680}'
    ||| '\u{2000}' <= c <= '\u{200a}'
    ||| c == '\u{2028}'
    ||| c == '\u{2029}'
    ||| c == '\u{202f}'
    ||| c == '\u{205f}'
    ||| c == '\u{3000}'
}

pub fn white_space(c: char) -> (r: bool)
    ensures
        r == is_white_space(c),
{
    ('\u{9}' <= c && c <= '\u{d}') || c == ' ' || c == '\u{85}' || c == '\u{a0}' || c
        == '\u{1680}' || ('\u{2000}' <= c && c <= '\u{200a}') || c == '\u{2028}' || c
        == '\u{2029}' || c == '\u{202f}' || c == '\u{205f}' || c == '\u{3000}'
}

/// `s` without the white space at its start.
pub open spec fn trim_start(s: Seq<char>) -> Seq<char>
    decreases s.len(),
{
    if s.len() > 0 && is_white_space(s[0]) {
        trim_start(s.skip(1))
    } else {
        s
    }
}

/// `s` without the white space at its end.
pub open spec fn trim_end(s: Seq<char>) -> Seq<char>
    decreases s.len(),
{
    if s.len() > 0 && is_white_space(s.last()) {
        trim_end(s.drop_last())
    } else {
        s
    }
}

/// `s` without the white space at its start and at its end.
pub open spec fn trim(s: Seq<char>) -> Seq<char> {
    trim_end(trim_start(s))
}

pub fn trim_start_text<'a>(s: &'a [char]) -> (r: &'a [char])
    ensures
        r@ == trim_start(s@),
{
    let mut i: usize = 0;
    let n: usize = s.len();
    assert(s@.skip(0) =~= s@);
    while i < n && white_space(s[i])
        invariant
            i <= n,
            n == s.len(),
            trim_start(s@) == trim_start(s@.skip(i as int)),
        decreases n - i,
    {
        assert(s@.skip(i as int).skip(1) =~= s@.skip(i as int + 1));
        i += 1;
    }
    let r = slice_subrange(s, i, n);
    assert(r@ =~= s@.skip(i as int));
    r
}

pub fn trim_end_text<'a>(s: &'a [char]) -> (r: &'a [char])
    ensures
        r@ == trim_end(s@),
{
    let mut n: usize = s.len();
    assert(s@.take(s@.len() as int) =~= s@);
    while n > 0 && white_space(s[n - 1])
        invariant
            n <= s.len(),
            trim_end(s@) == trim_end(s@.take(n as int)),
        decreases n,
    {
        assert(s@.take(n as int).drop_last() =~= s@.take(n as int - 1));
        n -= 1;
    }
    let r = slice_subrange(s, 0, n);
    assert(r@ =~= s@.take(n as int));
    r
}

pub fn trim_text<'a>(s: &'a [char]) -> (r: &'a [char])
    ensures
        r@ == trim(s@),
{
    trim_end_text(trim_start_text(s))
}

/// The place of the first white space in `s`, or its length.
pub open spec fn word_end(s: Seq<char>, i: int) -> int
    decreases s.len() - i,
{
    if i < 0 || i >= s.len() || is_white_space(s[i]) {
        i
    } else {
        word_end(s, i + 1)
    }
}

/// The words of `s`: its longest parts without white space, in order.
pub open spec fn words(s: Seq<char>) -> Seq<Seq<char>>
    decreases s.len(),
{
    if s.len() == 0 {
        Seq::empty()
    } else if is_white_space(s[0]) {
        words(s.skip(1))
    } else {
        let k = word_end(s, 0);
        if 0 < k <= s.len() {
            seq![s.take(k)] + words(s.skip(k))
        } else {
            Seq::empty()
        }
    }
}

pub proof fn lemma_word_end(s: Seq<char>, i: int)
    requires
        0 <= i <= s.len(),
    ensures
        i <= word_end(s, i) <= s.len(),
        word_end(s, i) < s.len() ==> is_white_space(s[word_end(s, i)]),
        forall|j: int| i <= j < word_end(s, i) ==> !is_white_space(#[trigger] s[j]),
    decreases s.len() - i,
{
    if i < s.len() && !is_white_space(s[i]) {
        lemma_word_end(s, i + 1);
    }
}

pub fn words_text(s: &[char]) -> (r: Vec<String>)
    ensures
        texts(r@) == words(s@),
{
    let mut out: Vec<String> = Vec::new();
    let mut i: usize = 0;
    let n: usize = s.len();
    assert(s@.skip(0) =~= s@);
    assert(texts(out@) + words(s@) =~= words(s@));
    while i < n
        invariant
            i <= n,
            n == s.len(),
            words(s@) == texts(out@) + words(s@.skip(i as int)),
        decreases n - i,
    {
        let ghost rest = s@.skip(i as int);
        if white_space(s[i]) {
            assert(rest.skip(1) =~= s@.skip(i as int + 1));
            i += 1;
        } else {
            let mut k: usize = i;
            while k < n && !white_space(s[k])
                invariant
                    i <= k <= n,
                    n == s.len(),
                    rest == s@.skip(i as int),
                    word_end(rest, 0) == word_end(rest, k - i),
                decreases n - k,
            {
                k += 1;
            }
            let ghost before = out@;
            let piece = slice_subrange(s, i, k);
            proof {
                assert(!is_white_space(rest[0]));
                lemma_word_end(rest, 1);
                assert(word_end(rest, 0) == k - i);
                assert(piece@ =~= rest.take(k - i));
                assert(rest.skip(k - i) =~= s@.skip(k as int));
            }
            out.push(string_of(piece));
            assert(texts(out@) =~= texts(before).push(piece@));
            assert(texts(before) + (seq![piece@] + words(s@.skip(k as int))) =~= texts(out@)
                + words(s@.skip(k as int)));
            i = k;
        }
    }
    assert(s@.skip(n as int).len() == 0);
    assert(texts(out@) + words(s@.skip(n as int)) =~= texts(out@));
    out
}

// ---------------------------------------------------------------- repeated ends

/// `s` without the copies of `p` at its start.
pub open spec fn strip_starts(s: Seq<char>, p: Seq<char>) -> Seq<char>
    decreases s.len(),
{
    if p.len() > 0 && starts_with(s, p) {
        strip_starts(s.skip(p.len() as int), p)
    } else {
        s
    }
}

/// `s` without the copies of `p` at its end.
pub open spec fn strip_ends(s: Seq<char>, p: Seq<char>) -> Seq<char>
    decreases s.len(),
{
    if p.len() > 0 && ends_with(s, p) {
        strip_ends(s.take(s.len() - p.len()), p)
    } else {
        s
    }
}

pub fn strip_starts_text<'a>(s: &'a [char], p: &[char]) -> (r: &'a [char])
    ensures
        r@ == strip_starts(s@, p@),
{
    let mut rest: &[char] = s;
    while p.len() > 0 && has_prefix(rest, p)
        invariant
            strip_starts(s@, p@) == strip_starts(rest@, p@),
        decreases rest@.len(),
    {
        let n: usize = rest.len();
        let next = slice_subrange(rest, p.len(), n);
        assert(next@ =~= rest@.skip(p@.len() as int));
        rest = next;
    }
    rest
}

pub fn strip_ends_text<'a>(s: &'a [char], p: &[char]) -> (r: &'a [char])
    ensures
        r@ == strip_ends(s@, p@),
{
    let mut rest: &[char] = s;
    while p.len() > 0 && has_suffix(rest, p)
        invariant
            strip_ends(s@, p@) == strip_ends(rest@, p@),
        decreases rest@.len(),
    {
        let n: usize = rest.len();
        let next = slice_subrange(rest, 0, n - p.len());
        assert(next@ =~= rest@.take(rest@.len() - p@.len()));
        rest = next;
    }
    rest
}

/// `s` without one `p` at its start, where it has one.
pub open spec fn strip_prefix(s: Seq<char>, p: Seq<char>) -> Option<Seq<char>> {
    if starts_with(s, p) {
        Some(s.skip(p.len() as int))
    } else {
        None
    }
}

pub fn strip_prefix_text<'a>(s: &'a [char], p: &[char]) -> (r: Option<&'a [char]>)
    ensures
        match r {
            Some(x) => strip_prefix(s@, p@) == Some(x@),
            None => strip_prefix(s@, p@) is None,
        },
{
    if has_prefix(s, p) {
        let n: usize = s.len();
        let x = slice_subrange(s, p.len(), n);
        assert(x@ =~= s@.skip(p@.len() as int));
        Some(x)
    } else {
        None
    }
}

/// `s` without one `p` at its end, where it has one.
pub open spec fn strip_suffix(s: Seq<char>, p: Seq<char>) -> Option<Seq<char>> {
    if ends_with(s, p) {
        Some(s.take(s.len() - p.len()))
    } else {
        None
    }
}

pub fn strip_suffix_text<'a>(s: &'a [char], p: &[char]) -> (r: Option<&'a [char]>)
    ensures
        match r {
            Some(x) => strip_suffix(s@, p@) == Some(x@),
            None => strip_suffix(s@, p@) is None,
        },
{
    if has_suffix(s, p) {
        let n: usize = s.len();
        let x = slice_subrange(s, 0, n - p.len());
        assert(x@ =~= s@.take(s@.len() - p@.len()));
        Some(x)
    } else {
        None
    }
}

// ---------------------------------------------------------------- case

/// The ASCII letter in lower case; any other character as it is.
pub open spec fn ascii_lower(c: char) -> char {
    if 'A' <= c <= 'Z' {
        (c as u32 + 32) as char
    } else {
        c
    }
}

/// The ASCII letter in upper case; any other character as it is.
pub open spec fn ascii_upper(c: char) -> char {
    if 'a' <= c <= 'z' {
        (c as u32 - 32) as char
    } else {
        c
    }
}

pub open spec fn ascii_lowered(s: Seq<char>) -> Seq<char> {
    Seq::new(s.len(), |i: int| ascii_lower(s[i]))
}

pub open spec fn ascii_uppered(s: Seq<char>) -> Seq<char> {
    Seq::new(s.len(), |i: int| ascii_upper(s[i]))
}

pub fn lower_char(c: char) -> (r: char)
    ensures
        r == ascii_lower(c),
{
    if 'A' <= c && c <= 'Z' {
        let b: u8 = c as u8;
        (b + 32) as char
    } else {
        c
    }
}

pub fn lower_ascii(s: &[char]) -> (r: Vec<char>)
    ensures
        r@ == ascii_lowered(s@),
{
    let mut out: Vec<char> = Vec::new();
    let mut i: usize = 0;
    while i < s.len()
        invariant
            i <= s.len(),
            out@ == ascii_lowered(s@).take(i as int),
        decreases s.len() - i,
    {
        out.push(lower_char(s[i]));
        assert(out@ =~= ascii_lowered(s@).take(i as int + 1));
        i += 1;
    }
    assert(ascii_lowered(s@).take(s@.len() as int) =~= ascii_lowered(s@));
    out
}

// ---------------------------------------------------------------- on whole strings

pub fn str_starts(s: &str, p: &str) -> (r: bool)
    ensures
        r == starts_with(s@, p@),
{
    has_prefix(chars_of(s).as_slice(), chars_of(p).as_slice())
}

pub fn str_contains(s: &str, p: &str) -> (r: bool)
    ensures
        r == contains(s@, p@),
{
    has_text(chars_of(s).as_slice(), chars_of(p).as_slice())
}

pub fn str_trim(s: &str) -> (r: String)
    ensures
        r@ == trim(s@),
{
    string_of(trim_text(chars_of(s).as_slice()))
}

pub fn str_split(s: &str, c: char) -> (r: Vec<String>)
    ensures
        texts(r@) == split(s@, seq![c]),
        r@.len() > 0,
{
    let cs: Vec<char> = chars_of(s);
    proof {
        lemma_split_join(s@, seq![c]);
    }
    let r: Vec<String> = split_text(cs.as_slice(), one_char(c).as_slice());
    assert(texts(r@).len() == r@.len());
    r
}

pub fn str_cut(s: &str, c: char) -> (r: Option<(String, String)>)
    ensures
        match r {
            Some((a, b)) => split_once(s@, seq![c]) == Some((a@, b@)),
            None => split_once(s@, seq![c]) is None,
        },
{
    match cut_char(chars_of(s).as_slice(), c) {
        Some((a, b)) => Some((string_of(a), string_of(b))),
        None => None,
    }
}

pub fn str_rcut(s: &str, c: char) -> (r: Option<(String, String)>)
    ensures
        match r {
            Some((a, b)) => rsplit_once(s@, seq![c]) == Some((a@, b@)),
            None => rsplit_once(s@, seq![c]) is None,
        },
{
    match rcut_char(chars_of(s).as_slice(), c) {
        Some((a, b)) => Some((string_of(a), string_of(b))),
        None => None,
    }
}

pub fn str_strip_prefix(s: &str, p: &str) -> (r: Option<String>)
    ensures
        match r {
            Some(x) => strip_prefix(s@, p@) == Some(x@),
            None => strip_prefix(s@, p@) is None,
        },
{
    match strip_prefix_text(chars_of(s).as_slice(), chars_of(p).as_slice()) {
        Some(x) => Some(string_of(x)),
        None => None,
    }
}

/// Without the characters `c` at both ends.
pub open spec fn trim_char(s: Seq<char>, c: char) -> Seq<char> {
    strip_ends(strip_starts(s, seq![c]), seq![c])
}

pub fn str_trim_char(s: &str, c: char) -> (r: String)
    ensures
        r@ == trim_char(s@, c),
{
    let cs: Vec<char> = chars_of(s);
    let p: Vec<char> = one_char(c);
    string_of(strip_ends_text(strip_starts_text(cs.as_slice(), p.as_slice()), p.as_slice()))
}

/// Whether a string is among others.
pub fn is_among(v: &Vec<String>, s: &str) -> (r: bool)
    ensures
        r == texts(v@).contains(s@),
{
    let ghost tv = texts(v@);
    let mut i: usize = 0;
    while i < v.len()
        invariant
            i <= v.len(),
            tv == texts(v@),
            forall|j: int| 0 <= j < i ==> #[trigger] tv[j] != s@,
        decreases v.len() - i,
    {
        if same(v[i].as_str(), s) {
            assert(tv[i as int] == s@);
            return true;
        }
        i += 1;
    }
    false
}

} // verus!
