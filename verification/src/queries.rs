//! What the URLs of requests ask for, stated by what is read in their queries.

use vstd::prelude::*;
use vstd::utf8::encode_utf8;

use crate::commands;
use crate::encode::{self, Place};
use crate::reference::Reference;
use crate::registry;
use crate::text;

verus! {

/// The parts of a URL's query.
pub open spec fn parts(url: Seq<char>) -> Seq<Seq<char>> {
    match text::split_once(url, seq!['?']) {
        Some((_, q)) => text::split(q, seq!['&']),
        None => Seq::empty(),
    }
}

/// The values under a key among parts `key=value`, in order.
pub open spec fn values_in(v: Seq<Seq<char>>, key: Seq<char>) -> Seq<Seq<char>>
    decreases v.len(),
{
    if v.len() == 0 {
        Seq::empty()
    } else {
        match text::split_once(v.last(), seq!['=']) {
            Some((k, x)) => if k == key {
                values_in(v.drop_last(), key).push(x)
            } else {
                values_in(v.drop_last(), key)
            },
            None => values_in(v.drop_last(), key),
        }
    }
}

/// The values that a URL's query gives for a key, in order.
pub open spec fn values(url: Seq<char>, key: Seq<char>) -> Seq<Seq<char>> {
    values_in(parts(url), key)
}

/// A value of a query writes a text.
pub open spec fn writes(value: Seq<char>, t: Seq<char>) -> bool {
    encode::unescaped(value) == Some(encode_utf8(t))
}

/// The query gives one value for a key, and it writes a text.
pub open spec fn asks(url: Seq<char>, key: Seq<char>, t: Seq<char>) -> bool {
    values(url, key).len() == 1 && writes(values(url, key)[0], t)
}

// ---------------------------------------------------------------- how queries are read

/// Keys and values as a query writes them.
pub open spec fn written(v: Seq<(Seq<char>, Seq<char>)>) -> Seq<Seq<char>> {
    Seq::new(v.len(), |i: int| v[i].0 + seq!['='] + v[i].1)
}

/// The values under a key, in order.
pub open spec fn picked(v: Seq<(Seq<char>, Seq<char>)>, key: Seq<char>) -> Seq<Seq<char>>
    decreases v.len(),
{
    if v.len() == 0 {
        Seq::empty()
    } else if v.last().0 == key {
        picked(v.drop_last(), key).push(v.last().1)
    } else {
        picked(v.drop_last(), key)
    }
}

/// Pairs that a query can hold: no key holds an equals sign, and nothing an ampersand.
pub open spec fn are_pairs(v: Seq<(Seq<char>, Seq<char>)>) -> bool {
    forall|i: int|
        0 <= i < v.len() ==> !(#[trigger] v[i]).0.contains('=') && !v[i].0.contains('&')
            && !v[i].1.contains('&')
}

proof fn lemma_values_in(v: Seq<(Seq<char>, Seq<char>)>, key: Seq<char>)
    requires
        are_pairs(v),
    ensures
        values_in(written(v), key) == picked(v, key),
    decreases v.len(),
{
    if v.len() > 0 {
        let w = written(v);
        assert(w.drop_last() =~= written(v.drop_last()));
        assert forall|i: int| 0 <= i < v.drop_last().len() implies !(#[trigger] v.drop_last()[i]).0.contains(
            '=',
        ) && !v.drop_last()[i].0.contains('&') && !v.drop_last()[i].1.contains('&') by {
            assert(v.drop_last()[i] == v[i]);
        }
        lemma_values_in(v.drop_last(), key);
        let (k, x) = v.last();
        let p = w.last();
        assert(!v[v.len() - 1].0.contains('='));
        assert(p == k + seq!['='] + x);
        assert forall|j: int| 0 <= j < k.len() implies p[j] != '=' by {
            assert(k.contains(k[j]));
        }
        text::lemma_found_char(p, '=', k.len() as int);
        assert(p.take(k.len() as int) =~= k);
        assert(p.skip(k.len() + 1int) =~= x);
    } else {
        assert(written(v).len() == 0);
    }
}

/// A URL whose query is made of pairs gives the values of the pairs.
pub proof fn lemma_query(path: Seq<char>, v: Seq<(Seq<char>, Seq<char>)>, key: Seq<char>)
    requires
        !path.contains('?'),
        v.len() > 0,
        are_pairs(v),
    ensures
        values(path + seq!['?'] + text::join(written(v), seq!['&']), key) == picked(v, key),
{
    let q = text::join(written(v), seq!['&']);
    let url = path + seq!['?'] + q;
    let n = path.len() as int;
    assert forall|j: int| 0 <= j < n implies url[j] != '?' by {
        assert(path.contains(path[j]));
    }
    text::lemma_found_char(url, '?', n);
    assert(url.skip(n + 1) =~= q);
    let w = written(v);
    assert forall|i: int| 0 <= i < w.len() implies !(#[trigger] w[i]).contains('&') by {
        let (k, x) = v[i];
        assert(!v[i].0.contains('&') && !v[i].1.contains('&'));
        if w[i].contains('&') {
            let j = choose|j: int| 0 <= j < w[i].len() && w[i][j] == '&';
            if j < k.len() {
                assert(k.contains(k[j]));
            } else if j > k.len() {
                assert(x.contains(x[j - k.len() - 1]));
            }
        }
    }
    text::lemma_split_of_join(w, '&');
    lemma_values_in(v, key);
}

/// Each pair behind an ampersand.
pub open spec fn trailing(v: Seq<(Seq<char>, Seq<char>)>) -> Seq<char>
    decreases v.len(),
{
    if v.len() == 0 {
        Seq::empty()
    } else {
        trailing(v.drop_last()) + seq!['&'] + v.last().0 + seq!['='] + v.last().1
    }
}

proof fn lemma_trailing(v: Seq<(Seq<char>, Seq<char>)>)
    requires
        v.len() > 0,
    ensures
        trailing(v) == seq!['&'] + text::join(written(v), seq!['&']),
    decreases v.len(),
{
    let w = written(v);
    let before = v.drop_last();
    assert(w.drop_last() =~= written(before));
    let p = v.last().0 + seq!['='] + v.last().1;
    assert(w.last() == p);
    if v.len() == 1 {
        text::lemma_join_first(w, seq!['&']);
        assert(w[0] == p);
        assert(trailing(before) =~= Seq::empty());
        assert(trailing(v) =~= seq!['&'] + p);
    } else {
        lemma_trailing(before);
        let j = text::join(written(before), seq!['&']);
        assert(text::join(w, seq!['&']) == j + seq!['&'] + p);
        assert(trailing(v) =~= seq!['&'] + (j + seq!['&'] + p));
    }
}

proof fn lemma_trailing_sum(a: Seq<(Seq<char>, Seq<char>)>, b: Seq<(Seq<char>, Seq<char>)>)
    ensures
        trailing(a + b) == trailing(a) + trailing(b),
    decreases b.len(),
{
    if b.len() == 0 {
        assert(a + b =~= a);
        assert(trailing(a) + trailing(b) =~= trailing(a));
    } else {
        assert((a + b).drop_last() =~= a + b.drop_last());
        lemma_trailing_sum(a, b.drop_last());
        assert(trailing(a + b) =~= trailing(a) + trailing(b));
    }
}

proof fn lemma_picked_sum(
    a: Seq<(Seq<char>, Seq<char>)>,
    b: Seq<(Seq<char>, Seq<char>)>,
    key: Seq<char>,
)
    ensures
        picked(a + b, key) == picked(a, key) + picked(b, key),
    decreases b.len(),
{
    if b.len() == 0 {
        assert(a + b =~= a);
        assert(picked(a, key) + picked(b, key) =~= picked(a, key));
    } else {
        assert((a + b).drop_last() =~= a + b.drop_last());
        lemma_picked_sum(a, b.drop_last(), key);
        assert(picked(a + b, key) =~= picked(a, key) + picked(b, key));
    }
}

proof fn lemma_one_picked(k: Seq<char>, x: Seq<char>, key: Seq<char>)
    ensures
        picked(seq![(k, x)], key) == if k == key {
            seq![x]
        } else {
            Seq::empty()
        },
        trailing(seq![(k, x)]) == seq!['&'] + k + seq!['='] + x,
{
    let v = seq![(k, x)];
    assert(v.drop_last() =~= Seq::empty());
    assert(picked(v.drop_last(), key) =~= Seq::empty());
    assert(Seq::<Seq<char>>::empty().push(x) =~= seq![x]);
    assert(trailing(v.drop_last()) =~= Seq::empty());
    assert(trailing(v) =~= seq!['&'] + k + seq!['='] + x);
}

proof fn lemma_escaped(p: Place, s: Seq<char>)
    ensures
        !encode::in_url(p, s).contains('&'),
        !encode::in_url(p, s).contains('?'),
        writes(encode::in_url(p, s), s),
{
    encode::law_escaped_reads_back(p, s);
    let e = encode::in_url(p, s);
    if e.contains('&') {
        let j = choose|j: int| 0 <= j < e.len() && e[j] == '&';
        encode::law_escaped_alphabet(p, s, j);
    }
    if e.contains('?') {
        let j = choose|j: int| 0 <= j < e.len() && e[j] == '?';
        encode::law_escaped_alphabet(p, s, j);
    }
}

/// A word of a query: it holds none of what divides queries.
pub open spec fn is_plain(w: Seq<char>) -> bool {
    !w.contains('=') && !w.contains('&') && !w.contains('?')
}

pub open spec fn is_letter(c: char) -> bool {
    ('a' <= c <= 'z') || ('A' <= c <= 'Z') || ('0' <= c <= '9') || c == '/'
}

proof fn lemma_plain(w: Seq<char>)
    requires
        forall|i: int| 0 <= i < w.len() ==> is_letter(#[trigger] w[i]),
    ensures
        is_plain(w),
{
    if !is_plain(w) {
        let j = choose|j: int| 0 <= j < w.len() && (w[j] == '=' || w[j] == '&' || w[j] == '?');
        assert(is_letter(w[j]));
    }
}

/// A query of one pair.
proof fn lemma_one_pair(path: Seq<char>, k: Seq<char>, x: Seq<char>, other: Seq<char>)
    requires
        !path.contains('?'),
        is_plain(k),
        !x.contains('&'),
        other != k,
    ensures
        values(path + (seq!['?'] + k + seq!['=']) + x, k) == seq![x],
        values(path + (seq!['?'] + k + seq!['=']) + x, other).len() == 0,
{
    let v = seq![(k, x)];
    lemma_one_picked(k, x, k);
    lemma_one_picked(k, x, other);
    lemma_trailing(v);
    lemma_query(path, v, k);
    lemma_query(path, v, other);
    let q = text::join(written(v), seq!['&']);
    assert(q =~= (seq!['&'] + q).skip(1));
    assert(path + (seq!['?'] + k + seq!['=']) + x =~= path + seq!['?'] + q);
}

/// A query of two pairs.
#[verifier::rlimit(40)]
proof fn lemma_two_pairs(
    path: Seq<char>,
    k: Seq<char>,
    x: Seq<char>,
    l: Seq<char>,
    y: Seq<char>,
)
    requires
        !path.contains('?'),
        is_plain(k),
        is_plain(l),
        !x.contains('&'),
        !y.contains('&'),
        k != l,
    ensures
        ({
            let url = path + (seq!['?'] + k + seq!['=']) + x + ((seq!['&'] + l + seq!['=']) + y);
            values(url, k) == seq![x] && values(url, l) == seq![y]
        }),
{
    let a = seq![(k, x)];
    let b = seq![(l, y)];
    lemma_one_picked(k, x, k);
    lemma_one_picked(k, x, l);
    lemma_one_picked(l, y, k);
    lemma_one_picked(l, y, l);
    lemma_trailing(a + b);
    lemma_trailing_sum(a, b);
    lemma_picked_sum(a, b, k);
    lemma_picked_sum(a, b, l);
    assert(picked(a + b, k) =~= seq![x]);
    assert(picked(a + b, l) =~= seq![y]);
    lemma_query(path, a + b, k);
    lemma_query(path, a + b, l);
    let q = text::join(written(a + b), seq!['&']);
    assert(q =~= (seq!['&'] + q).skip(1));
    let url = path + (seq!['?'] + k + seq!['=']) + x + ((seq!['&'] + l + seq!['=']) + y);
    assert(url =~= path + seq!['?'] + q);
}

/// What stands before the query of a path with a name in it.
proof fn lemma_path(a: Seq<char>, name: Seq<char>, b: Seq<char>)
    requires
        is_plain(a),
        is_plain(b),
        !name.contains('?'),
    ensures
        !(a + name + b).contains('?'),
{
    let path = a + name + b;
    let n = a.len() as int;
    if path.contains('?') {
        let j = choose|j: int| 0 <= j < path.len() && path[j] == '?';
        if j < n {
            assert(a.contains(a[j]));
        } else if j < n + name.len() {
            assert(name.contains(name[j - n]));
        } else {
            assert(b.contains(b[j - n - name.len()]));
        }
    }
}

// ---------------------------------------------------------------- lists

proof fn lemma_list_words()
    ensures
        "/containers/json?all="@ == "/containers/json"@ + seq!['?'] + "all"@ + seq!['='],
        "&filters="@ == seq!['&'] + "filters"@ + seq!['='],
        "?filters="@ == seq!['?'] + "filters"@ + seq!['='],
        is_plain("/containers/json"@) && is_plain("/images/json"@) && is_plain("all"@) && is_plain(
            "filters"@,
        ) && is_plain("1"@) && is_plain("0"@),
        "all"@ != "filters"@,
{
    reveal_strlit("/containers/json?all=");
    reveal_strlit("/containers/json");
    reveal_strlit("/images/json");
    reveal_strlit("&filters=");
    reveal_strlit("?filters=");
    reveal_strlit("filters");
    reveal_strlit("all");
    reveal_strlit("1");
    reveal_strlit("0");
    lemma_plain("/containers/json"@);
    lemma_plain("/images/json"@);
    lemma_plain("filters"@);
    lemma_plain("all"@);
    lemma_plain("1"@);
    lemma_plain("0"@);
    assert("all"@.len() == 3 && "filters"@.len() == 7);
    assert("/containers/json?all="@ =~= "/containers/json"@ + seq!['?'] + "all"@ + seq!['=']);
    assert("&filters="@ =~= seq!['&'] + "filters"@ + seq!['=']);
    assert("?filters="@ =~= seq!['?'] + "filters"@ + seq!['=']);
}

/// The request for the list of containers says whether all are asked for, and gives the
/// filters, where there are any, as one value.
#[verifier::rlimit(40)]
pub proof fn law_list_is_asked_for_as_told(all: bool, filters: Seq<Seq<char>>)
    ensures
        ({
            let url = commands::ps_address(all, filters);
            &&& values(url, "all"@) == seq![
                if all {
                    "1"@
                } else {
                    "0"@
                },
            ]
            &&& filters.len() > 0 ==> asks(url, "filters"@, commands::pairs_json(filters, true))
            &&& filters.len() == 0 ==> values(url, "filters"@).len() == 0
        }),
{
    lemma_list_words();
    let f = encode::in_url(Place::Name, commands::pairs_json(filters, true));
    lemma_escaped(Place::Name, commands::pairs_json(filters, true));
    let one = commands::flag(all);
    let url = commands::ps_address(all, filters);
    let head = "/containers/json"@ + (seq!['?'] + "all"@ + seq!['=']) + one;
    assert("/containers/json?all="@ + one =~= head);
    if filters.len() > 0 {
        lemma_two_pairs("/containers/json"@, "all"@, one, "filters"@, f);
    } else {
        lemma_one_pair("/containers/json"@, "all"@, one, "filters"@);
        assert(url =~= head);
    }
}

/// The request for the list of images gives the filters, where there are any, as one value.
pub proof fn law_images_are_asked_for_as_told(filters: Seq<Seq<char>>)
    ensures
        ({
            let url = commands::images_address(filters);
            &&& filters.len() > 0 ==> asks(url, "filters"@, commands::pairs_json(filters, true))
            &&& filters.len() == 0 ==> url == "/images/json"@
        }),
{
    lemma_list_words();
    let f = encode::in_url(Place::Name, commands::pairs_json(filters, true));
    lemma_escaped(Place::Name, commands::pairs_json(filters, true));
    let url = commands::images_address(filters);
    if filters.len() > 0 {
        lemma_one_pair("/images/json"@, "filters"@, f, "all"@);
        assert(url =~= "/images/json"@ + (seq!['?'] + "filters"@ + seq!['=']) + f);
    } else {
        assert(url =~= "/images/json"@);
    }
}

// ---------------------------------------------------------------- images

/// The repository that a request names: that of the hub by itself, another with its
/// registry.
pub open spec fn names_repository(t: Seq<char>, r: Reference) -> bool {
    if r.registry == "docker.io"@ {
        t == r.repo
    } else {
        t == r.registry + seq!['/'] + r.repo
    }
}

proof fn lemma_image_words()
    ensures
        "/images/create?fromImage="@ == "/images/create"@ + (seq!['?'] + "fromImage"@ + seq!['=']),
        "&tag="@ == seq!['&'] + "tag"@ + seq!['='],
        "?tag="@ == seq!['?'] + "tag"@ + seq!['='],
        "?tag="@.len() == 5,
        "/tag?repo="@ == "/tag"@ + (seq!['?'] + "repo"@ + seq!['=']),
        is_plain("/images/create"@) && is_plain("/images/"@) && is_plain("/push"@) && is_plain(
            "/tag"@,
        ) && is_plain("fromImage"@) && is_plain("tag"@) && is_plain("repo"@),
        "fromImage"@ != "tag"@ && "repo"@ != "tag"@,
        "/"@ == seq!['/'],
{
    reveal_strlit("/images/create?fromImage=");
    reveal_strlit("/images/create");
    reveal_strlit("/images/");
    reveal_strlit("/push");
    reveal_strlit("/tag");
    reveal_strlit("/tag?repo=");
    reveal_strlit("&tag=");
    reveal_strlit("?tag=");
    reveal_strlit("fromImage");
    reveal_strlit("tag");
    reveal_strlit("repo");
    reveal_strlit("/");
    lemma_plain("/images/create"@);
    lemma_plain("/images/"@);
    lemma_plain("/push"@);
    lemma_plain("/tag"@);
    lemma_plain("fromImage"@);
    lemma_plain("tag"@);
    lemma_plain("repo"@);
    assert("fromImage"@.len() == 9 && "tag"@.len() == 3 && "repo"@.len() == 4);
    assert("/images/create?fromImage="@ =~= "/images/create"@ + (seq!['?'] + "fromImage"@
        + seq!['=']));
    assert("&tag="@ =~= seq!['&'] + "tag"@ + seq!['=']);
    assert("?tag="@ =~= seq!['?'] + "tag"@ + seq!['=']);
    assert("/tag?repo="@ =~= "/tag"@ + (seq!['?'] + "repo"@ + seq!['=']));
    assert("/"@ =~= seq!['/']);
}

/// The request for a pull names the repository, and the digest where the reference has one,
/// or else the tag, which is `latest` where it has none.
pub proof fn law_pull_is_asked_for_as_told(r: Reference)
    ensures
        ({
            let url = commands::pull_request(r, None);
            &&& exists|t: Seq<char>| #[trigger] asks(url, "fromImage"@, t) && names_repository(t, r)
            &&& asks(
                url,
                "tag"@,
                match (r.digest, r.tag) {
                    (Some(d), _) => d,
                    (None, Some(t)) => t,
                    (None, None) => "latest"@,
                },
            )
        }),
{
    lemma_image_words();
    let x = encode::in_url(Place::Name, commands::full_repo(r));
    let y = encode::in_url(Place::Name, commands::wanted(r));
    lemma_escaped(Place::Name, commands::full_repo(r));
    lemma_escaped(Place::Name, commands::wanted(r));
    lemma_two_pairs("/images/create"@, "fromImage"@, x, "tag"@, y);
    let url = commands::pull_request(r, None);
    assert(url =~= "/images/create"@ + (seq!['?'] + "fromImage"@ + seq!['=']) + x + ((seq!['&']
        + "tag"@ + seq!['=']) + y));
    assert(asks(url, "fromImage"@, commands::full_repo(r)));
}

/// The request for a push names the repository in its path, and the tag in its query where
/// there is one.
#[verifier::rlimit(40)]
pub proof fn law_push_is_asked_for_as_told(r: Reference)
    ensures
        ({
            let url = commands::push_address(r);
            &&& exists|e: Seq<char>, t: Seq<char>, q: Seq<char>|
                url == "/images/"@ + e + "/push"@ + q && #[trigger] writes(e, t)
                    && names_repository(t, r) && #[trigger] q.len() >= 0 && (r.tag is None
                    <==> q.len() == 0)
            &&& r.tag matches Some(t) ==> asks(url, "tag"@, t)
        }),
{
    lemma_image_words();
    let e = encode::in_url(Place::Segment, commands::full_repo(r));
    lemma_escaped(Place::Segment, commands::full_repo(r));
    let q = match r.tag {
        Some(t) => "?tag="@ + encode::in_url(Place::Name, t),
        None => Seq::empty(),
    };
    let url = commands::push_address(r);
    assert(url == "/images/"@ + e + "/push"@ + q && writes(e, commands::full_repo(r))
        && names_repository(commands::full_repo(r), r) && q.len() >= 0);
    if let Some(t) = r.tag {
        let path = "/images/"@ + e + "/push"@;
        lemma_path("/images/"@, e, "/push"@);
        let x = encode::in_url(Place::Name, t);
        lemma_escaped(Place::Name, t);
        lemma_one_pair(path, "tag"@, x, "repo"@);
        assert(url =~= path + (seq!['?'] + "tag"@ + seq!['=']) + x);
    }
}

/// The request for a tag names the repository, and the tag where there is one.
#[verifier::rlimit(40)]
pub proof fn law_tag_is_asked_for_as_told(source: Seq<char>, r: Reference)
    requires
        !source.contains('?'),
    ensures
        ({
            let url = commands::tag_address(source, r);
            &&& exists|t: Seq<char>| #[trigger] asks(url, "repo"@, t) && names_repository(t, r)
            &&& r.tag matches Some(t) ==> asks(url, "tag"@, t)
            &&& r.tag is None ==> values(url, "tag"@).len() == 0
        }),
{
    lemma_image_words();
    let path = "/images/"@ + source + "/tag"@;
    lemma_path("/images/"@, source, "/tag"@);
    let x = encode::in_url(Place::Name, commands::full_repo(r));
    lemma_escaped(Place::Name, commands::full_repo(r));
    let url = commands::tag_address(source, r);
    let head = path + (seq!['?'] + "repo"@ + seq!['=']) + x;
    assert("/images/"@ + source + "/tag?repo="@ + x =~= head);
    match r.tag {
        Some(t) => {
            let y = encode::in_url(Place::Name, t);
            lemma_escaped(Place::Name, t);
            lemma_two_pairs(path, "repo"@, x, "tag"@, y);
        },
        None => {
            lemma_one_pair(path, "repo"@, x, "tag"@);
            assert(url =~= head);
        },
    }
    assert(asks(url, "repo"@, commands::full_repo(r)));
}

// ---------------------------------------------------------------- builds

/// A key with each of several texts, escaped.
pub open spec fn each(key: Seq<char>, v: Seq<Seq<char>>, n: int) -> Seq<(Seq<char>, Seq<char>)> {
    Seq::new(n as nat, |i: int| (key, encode::in_url(Place::Name, v[i])))
}

proof fn lemma_repeated(key: Seq<char>, v: Seq<Seq<char>>, n: int)
    requires
        0 <= n <= v.len(),
    ensures
        commands::repeated(seq!['&'] + key + seq!['='], v, n) == trailing(each(key, v, n)),
    decreases n,
{
    let e = each(key, v, n);
    if n > 0 {
        assert(e.drop_last() =~= each(key, v, n - 1));
        lemma_repeated(key, v, n - 1);
        assert(commands::repeated(seq!['&'] + key + seq!['='], v, n) =~= trailing(e));
    } else {
        assert(e =~= Seq::empty());
    }
}

proof fn lemma_each_picked(key: Seq<char>, v: Seq<Seq<char>>, n: int, k: Seq<char>)
    requires
        0 <= n <= v.len(),
    ensures
        k == key ==> picked(each(key, v, n), k) == Seq::new(
            n as nat,
            |i: int| encode::in_url(Place::Name, v[i]),
        ),
        k != key ==> picked(each(key, v, n), k).len() == 0,
    decreases n,
{
    let e = each(key, v, n);
    if n > 0 {
        assert(e.drop_last() =~= each(key, v, n - 1));
        lemma_each_picked(key, v, n - 1, k);
        if k == key {
            assert(picked(e, k) =~= Seq::new(n as nat, |i: int| encode::in_url(Place::Name, v[i])));
        }
    } else {
        assert(e =~= Seq::empty());
        assert(picked(e, k) =~= Seq::empty());
        if k == key {
            assert(picked(e, k) =~= Seq::new(0, |i: int| encode::in_url(Place::Name, v[i])));
        }
    }
}

/// Values write texts, one each and in order.
pub open spec fn write_all(values: Seq<Seq<char>>, v: Seq<Seq<char>>) -> bool {
    values.len() == v.len() && forall|i: int|
        0 <= i < v.len() ==> writes(#[trigger] values[i], v[i])
}

spec fn build_pairs(
    tags: Seq<Seq<char>>,
    dockerfile: Seq<char>,
    no_cache: bool,
    no_cache_filter: Seq<Seq<char>>,
    quiet: bool,
) -> Seq<(Seq<char>, Seq<char>)> {
    each("t"@, tags, tags.len() as int) + seq![
        ("dockerfile"@, encode::in_url(Place::Name, dockerfile)),
    ] + (if no_cache {
        seq![("nocache"@, "1"@)]
    } else {
        Seq::empty()
    }) + each("nocachefilter"@, no_cache_filter, no_cache_filter.len() as int) + (if quiet {
        seq![("q"@, "1"@)]
    } else {
        Seq::empty()
    })
}

proof fn lemma_build_keys()
    ensures
        is_plain("t"@) && is_plain("dockerfile"@) && is_plain("nocache"@) && is_plain(
            "nocachefilter"@,
        ) && is_plain("q"@) && is_plain("1"@) && is_plain("/build"@),
        "t"@ != "q"@,
        "t"@.len() == 1 && "dockerfile"@.len() == 10 && "nocache"@.len() == 7
            && "nocachefilter"@.len() == 13 && "q"@.len() == 1,
        "&t="@ == seq!['&'] + "t"@ + seq!['='],
        "&dockerfile="@ == seq!['&'] + "dockerfile"@ + seq!['='],
        "&nocache=1"@ == seq!['&'] + "nocache"@ + seq!['='] + "1"@,
        "&nocachefilter="@ == seq!['&'] + "nocachefilter"@ + seq!['='],
        "&q=1"@ == seq!['&'] + "q"@ + seq!['='] + "1"@,
        "/build?"@ == "/build"@ + seq!['?'],
{
    reveal_strlit("t");
    reveal_strlit("dockerfile");
    reveal_strlit("nocache");
    reveal_strlit("nocachefilter");
    reveal_strlit("q");
    reveal_strlit("1");
    reveal_strlit("/build");
    reveal_strlit("/build?");
    reveal_strlit("&t=");
    reveal_strlit("&dockerfile=");
    reveal_strlit("&nocache=1");
    reveal_strlit("&nocachefilter=");
    reveal_strlit("&q=1");
    lemma_plain("t"@);
    lemma_plain("dockerfile"@);
    lemma_plain("nocache"@);
    lemma_plain("nocachefilter"@);
    lemma_plain("q"@);
    lemma_plain("1"@);
    lemma_plain("/build"@);
    assert("t"@[0] == 't' && "q"@[0] == 'q');
    assert("&t="@ =~= seq!['&'] + "t"@ + seq!['=']);
    assert("&dockerfile="@ =~= seq!['&'] + "dockerfile"@ + seq!['=']);
    assert("&nocache=1"@ =~= seq!['&'] + "nocache"@ + seq!['='] + "1"@);
    assert("&nocachefilter="@ =~= seq!['&'] + "nocachefilter"@ + seq!['=']);
    assert("&q=1"@ =~= seq!['&'] + "q"@ + seq!['='] + "1"@);
    assert("/build?"@ =~= "/build"@ + seq!['?']);
}

#[verifier::rlimit(40)]
proof fn lemma_build_query(
    tags: Seq<Seq<char>>,
    dockerfile: Seq<char>,
    no_cache: bool,
    no_cache_filter: Seq<Seq<char>>,
    quiet: bool,
    key: Seq<char>,
)
    ensures
        values(
            commands::build_address(tags, dockerfile, no_cache, no_cache_filter, quiet),
            key,
        ) == picked(build_pairs(tags, dockerfile, no_cache, no_cache_filter, quiet), key),
{
    let v = build_pairs(tags, dockerfile, no_cache, no_cache_filter, quiet);
    let d = encode::in_url(Place::Name, dockerfile);
    let a = each("t"@, tags, tags.len() as int);
    let b = seq![("dockerfile"@, d)];
    let c = if no_cache {
        seq![("nocache"@, "1"@)]
    } else {
        Seq::empty()
    };
    let e = each("nocachefilter"@, no_cache_filter, no_cache_filter.len() as int);
    let f = if quiet {
        seq![("q"@, "1"@)]
    } else {
        Seq::empty()
    };
    lemma_build_keys();
    lemma_repeated("t"@, tags, tags.len() as int);
    lemma_repeated("nocachefilter"@, no_cache_filter, no_cache_filter.len() as int);
    lemma_one_picked("dockerfile"@, d, key);
    lemma_one_picked("nocache"@, "1"@, key);
    lemma_one_picked("q"@, "1"@, key);
    lemma_trailing_sum(a, b);
    lemma_trailing_sum(a + b, c);
    lemma_trailing_sum(a + b + c, e);
    lemma_trailing_sum(a + b + c + e, f);
    let p = commands::build_parameters(tags, dockerfile, no_cache, no_cache_filter, quiet);
    assert(trailing(Seq::empty()) =~= Seq::empty());
    assert(p =~= trailing(v));
    lemma_trailing(v);
    assert forall|i: int| 0 <= i < v.len() implies !(#[trigger] v[i]).0.contains('=')
        && !v[i].0.contains('&') && !v[i].1.contains('&') by {
        if i < a.len() {
            assert(v[i] == a[i]);
            lemma_escaped(Place::Name, tags[i]);
        } else if i == a.len() {
            assert(v[i] == b[0]);
            lemma_escaped(Place::Name, dockerfile);
        } else if i < a.len() + 1 + c.len() {
            assert(v[i] == c[i - a.len() - 1]);
        } else if i < a.len() + 1 + c.len() + e.len() {
            let j = i - a.len() - 1 - c.len();
            assert(v[i] == e[j]);
            lemma_escaped(Place::Name, no_cache_filter[j]);
        } else {
            assert(v[i] == f[i - a.len() - 1 - c.len() - e.len()]);
        }
    }
    let q = text::join(written(v), seq!['&']);
    let w = written(v);
    text::lemma_join_first(w, seq!['&']);
    assert(q.len() > 0 && q[0] != '&') by {
        let k = v[0].0;
        assert(!v[0].0.contains('&'));
        assert(k.len() > 0) by {
            if a.len() > 0 {
                assert(v[0] == a[0]);
            } else {
                assert(v[0] == b[0]);
            }
        }
        assert(w[0] == v[0].0 + seq!['='] + v[0].1);
        assert(w[0][0] == k[0]);
        assert(k.contains(k[0]));
        assert(q[0] == w[0][0]);
    }
    let amp = seq!['&'];
    assert(p == amp + q);
    assert(p.subrange(0, 1) =~= amp);
    assert(p.skip(1) =~= q);
    if text::starts_with(q, amp) {
        assert(q.subrange(0, 1)[0] == amp[0]);
    }
    assert(text::strip_starts(q, amp) == q);
    assert(text::strip_starts(p, amp) == q);
    lemma_query("/build"@, v, key);
    assert("/build?"@ + q =~= "/build"@ + seq!['?'] + q);
}

/// The request for a build gives every tag in order, the Dockerfile, every stage that is not
/// cached, and says whether the cache is used and whether output is wanted.
#[verifier::rlimit(40)]
pub proof fn law_build_is_asked_for_as_told(
    tags: Seq<Seq<char>>,
    dockerfile: Seq<char>,
    no_cache: bool,
    no_cache_filter: Seq<Seq<char>>,
    quiet: bool,
)
    ensures
        ({
            let url = commands::build_address(tags, dockerfile, no_cache, no_cache_filter, quiet);
            &&& write_all(values(url, "t"@), tags)
            &&& asks(url, "dockerfile"@, dockerfile)
            &&& write_all(values(url, "nocachefilter"@), no_cache_filter)
            &&& if no_cache {
                values(url, "nocache"@) == seq!["1"@]
            } else {
                values(url, "nocache"@).len() == 0
            }
            &&& if quiet {
                values(url, "q"@) == seq!["1"@]
            } else {
                values(url, "q"@).len() == 0
            }
        }),
{
    lemma_build_keys();
    lemma_build_values(tags, dockerfile, no_cache, no_cache_filter, quiet, "t"@);
    lemma_build_values(tags, dockerfile, no_cache, no_cache_filter, quiet, "dockerfile"@);
    lemma_build_values(tags, dockerfile, no_cache, no_cache_filter, quiet, "nocachefilter"@);
    lemma_build_values(tags, dockerfile, no_cache, no_cache_filter, quiet, "nocache"@);
    lemma_build_values(tags, dockerfile, no_cache, no_cache_filter, quiet, "q"@);
    lemma_escaped(Place::Name, dockerfile);
    let url = commands::build_address(tags, dockerfile, no_cache, no_cache_filter, quiet);
    let ts = Seq::new(tags.len(), |i: int| encode::in_url(Place::Name, tags[i]));
    let fs = Seq::new(
        no_cache_filter.len(),
        |i: int| encode::in_url(Place::Name, no_cache_filter[i]),
    );
    assert(values(url, "t"@) =~= ts);
    assert(values(url, "nocachefilter"@) =~= fs);
    assert(values(url, "dockerfile"@) =~= seq![encode::in_url(Place::Name, dockerfile)]);
    assert forall|i: int| 0 <= i < tags.len() implies writes(#[trigger] ts[i], tags[i]) by {
        lemma_escaped(Place::Name, tags[i]);
    }
    assert forall|i: int| 0 <= i < no_cache_filter.len() implies writes(
        #[trigger] fs[i],
        no_cache_filter[i],
    ) by {
        lemma_escaped(Place::Name, no_cache_filter[i]);
    }
    if no_cache {
        assert(values(url, "nocache"@) =~= seq!["1"@]);
    }
    if quiet {
        assert(values(url, "q"@) =~= seq!["1"@]);
    }
}

#[verifier::rlimit(40)]
proof fn lemma_build_values(
    tags: Seq<Seq<char>>,
    dockerfile: Seq<char>,
    no_cache: bool,
    no_cache_filter: Seq<Seq<char>>,
    quiet: bool,
    key: Seq<char>,
)
    ensures
        ({
            let none = Seq::<Seq<char>>::empty();
            values(
                commands::build_address(tags, dockerfile, no_cache, no_cache_filter, quiet),
                key,
            ) == picked(each("t"@, tags, tags.len() as int), key) + (if key == "dockerfile"@ {
                seq![encode::in_url(Place::Name, dockerfile)]
            } else {
                none
            }) + (if no_cache && key == "nocache"@ {
                seq!["1"@]
            } else {
                none
            }) + picked(
                each("nocachefilter"@, no_cache_filter, no_cache_filter.len() as int),
                key,
            ) + (if quiet && key == "q"@ {
                seq!["1"@]
            } else {
                none
            })
        }),
        key == "t"@ ==> picked(each("t"@, tags, tags.len() as int), key) == Seq::new(
            tags.len(),
            |i: int| encode::in_url(Place::Name, tags[i]),
        ),
        key != "t"@ ==> picked(each("t"@, tags, tags.len() as int), key).len() == 0,
        key == "nocachefilter"@ ==> picked(
            each("nocachefilter"@, no_cache_filter, no_cache_filter.len() as int),
            key,
        ) == Seq::new(
            no_cache_filter.len(),
            |i: int| encode::in_url(Place::Name, no_cache_filter[i]),
        ),
        key != "nocachefilter"@ ==> picked(
            each("nocachefilter"@, no_cache_filter, no_cache_filter.len() as int),
            key,
        ).len() == 0,
{
    let d = encode::in_url(Place::Name, dockerfile);
    let a = each("t"@, tags, tags.len() as int);
    let b = seq![("dockerfile"@, d)];
    let c = if no_cache {
        seq![("nocache"@, "1"@)]
    } else {
        Seq::empty()
    };
    let e = each("nocachefilter"@, no_cache_filter, no_cache_filter.len() as int);
    let f = if quiet {
        seq![("q"@, "1"@)]
    } else {
        Seq::empty()
    };
    lemma_build_query(tags, dockerfile, no_cache, no_cache_filter, quiet, key);
    lemma_picked_sum(a, b, key);
    lemma_picked_sum(a + b, c, key);
    lemma_picked_sum(a + b + c, e, key);
    lemma_picked_sum(a + b + c + e, f, key);
    lemma_one_picked("dockerfile"@, d, key);
    lemma_one_picked("nocache"@, "1"@, key);
    lemma_one_picked("q"@, "1"@, key);
    assert(picked(Seq::empty(), key) =~= Seq::empty());
    lemma_each_picked("t"@, tags, tags.len() as int, key);
    lemma_each_picked("nocachefilter"@, no_cache_filter, no_cache_filter.len() as int, key);
}

// ---------------------------------------------------------------- output and tokens

/// The request for a container's output asks for both streams, says whether it goes on, and
/// how much of it is wanted: all of it where nothing is said.
#[verifier::rlimit(40)]
pub proof fn law_output_is_asked_for_as_told(id: Seq<char>, follow: bool, tail: Option<Seq<char>>)
    requires
        !id.contains('?'),
        tail matches Some(t) ==> !t.contains('&'),
    ensures
        ({
            let url = commands::logs_address(id, follow, tail);
            &&& values(url, "stdout"@) == seq!["1"@]
            &&& values(url, "stderr"@) == seq!["1"@]
            &&& values(url, "follow"@) == seq![
                if follow {
                    "1"@
                } else {
                    "0"@
                },
            ]
            &&& values(url, "tail"@) == seq![
                match tail {
                    Some(t) => t,
                    None => "all"@,
                },
            ]
        }),
{
    reveal_strlit("/containers/");
    reveal_strlit("/logs?stdout=1&stderr=1&follow=");
    reveal_strlit("/logs");
    reveal_strlit("&tail=");
    reveal_strlit("stdout");
    reveal_strlit("stderr");
    reveal_strlit("follow");
    reveal_strlit("tail");
    reveal_strlit("all");
    reveal_strlit("1");
    reveal_strlit("0");
    lemma_plain("/containers/"@);
    lemma_plain("/logs"@);
    lemma_plain("stdout"@);
    lemma_plain("stderr"@);
    lemma_plain("follow"@);
    lemma_plain("tail"@);
    lemma_plain("all"@);
    lemma_plain("1"@);
    lemma_plain("0"@);
    assert("stdout"@[3] == 'o' && "stderr"@[3] == 'e' && "follow"@[0] == 'f' && "tail"@[0] == 't'
        && "stdout"@[0] == 's' && "stderr"@[0] == 's');
    let path = "/containers/"@ + id + "/logs"@;
    let n = "/containers/"@.len() as int;
    if path.contains('?') {
        let j = choose|j: int| 0 <= j < path.len() && path[j] == '?';
        if j < n {
            assert("/containers/"@.contains("/containers/"@[j]));
        } else if j < n + id.len() {
            assert(id.contains(id[j - n]));
        } else {
            assert("/logs"@.contains("/logs"@[j - n - id.len()]));
        }
    }
    let x = match tail {
        Some(t) => t,
        None => "all"@,
    };
    let a = ("stdout"@, "1"@);
    let b = ("stderr"@, "1"@);
    let c = ("follow"@, commands::flag(follow));
    let d = ("tail"@, x);
    let v = seq![a] + seq![b] + seq![c] + seq![d];
    lemma_trailing_sum(seq![a], seq![b]);
    lemma_trailing_sum(seq![a] + seq![b], seq![c]);
    lemma_trailing_sum(seq![a] + seq![b] + seq![c], seq![d]);
    lemma_trailing(v);
    let q = text::join(written(v), seq!['&']);
    assert(q =~= (seq!['&'] + q).skip(1));
    let url = commands::logs_address(id, follow, tail);
    lemma_one_picked(a.0, a.1, a.0);
    lemma_one_picked(b.0, b.1, a.0);
    lemma_one_picked(c.0, c.1, a.0);
    lemma_one_picked(d.0, d.1, a.0);
    assert(url =~= path + seq!['?'] + q);
    lemma_four_picked(a, b, c, d, "stdout"@);
    lemma_four_picked(a, b, c, d, "stderr"@);
    lemma_four_picked(a, b, c, d, "follow"@);
    lemma_four_picked(a, b, c, d, "tail"@);
    lemma_query(path, v, "stdout"@);
    lemma_query(path, v, "stderr"@);
    lemma_query(path, v, "follow"@);
    lemma_query(path, v, "tail"@);
}

proof fn lemma_four_picked(
    a: (Seq<char>, Seq<char>),
    b: (Seq<char>, Seq<char>),
    c: (Seq<char>, Seq<char>),
    d: (Seq<char>, Seq<char>),
    key: Seq<char>,
)
    requires
        a.0 != b.0 && a.0 != c.0 && a.0 != d.0 && b.0 != c.0 && b.0 != d.0 && c.0 != d.0,
    ensures
        ({
            let p = picked(seq![a] + seq![b] + seq![c] + seq![d], key);
            &&& key == a.0 ==> p == seq![a.1]
            &&& key == b.0 ==> p == seq![b.1]
            &&& key == c.0 ==> p == seq![c.1]
            &&& key == d.0 ==> p == seq![d.1]
        }),
{
    lemma_picked_sum(seq![a], seq![b], key);
    lemma_picked_sum(seq![a] + seq![b], seq![c], key);
    lemma_picked_sum(seq![a] + seq![b] + seq![c], seq![d], key);
    lemma_one_picked(a.0, a.1, key);
    lemma_one_picked(b.0, b.1, key);
    lemma_one_picked(c.0, c.1, key);
    lemma_one_picked(d.0, d.1, key);
    let p = picked(seq![a] + seq![b] + seq![c] + seq![d], key);
    if key == a.0 {
        assert(p =~= seq![a.1]);
    } else if key == b.0 {
        assert(p =~= seq![b.1]);
    } else if key == c.0 {
        assert(p =~= seq![c.1]);
    } else if key == d.0 {
        assert(p =~= seq![d.1]);
    }
}

/// A token is asked for at the realm, for the service, and for the scope where there is one.
#[verifier::rlimit(40)]
pub proof fn law_token_is_asked_for_as_told(
    realm: Seq<char>,
    service: Seq<char>,
    scope: Seq<char>,
)
    requires
        !realm.contains('?'),
    ensures
        ({
            let url = registry::token_url(realm, service, scope);
            &&& url.len() > realm.len() && url.take(realm.len() as int) == realm
            &&& asks(url, "service"@, service)
            &&& scope.len() > 0 ==> asks(url, "scope"@, scope)
            &&& scope.len() == 0 ==> values(url, "scope"@).len() == 0
        }),
{
    reveal_strlit("?service=");
    reveal_strlit("&scope=");
    reveal_strlit("service");
    reveal_strlit("scope");
    lemma_plain("service"@);
    lemma_plain("scope"@);
    assert("service"@.len() == 7 && "scope"@.len() == 5);
    assert("?service="@ =~= seq!['?'] + "service"@ + seq!['=']);
    assert("&scope="@ =~= seq!['&'] + "scope"@ + seq!['=']);
    let x = encode::pct(service);
    let y = encode::pct(scope);
    lemma_escaped(Place::Value, service);
    lemma_escaped(Place::Value, scope);
    let url = registry::token_url(realm, service, scope);
    assert(url.take(realm.len() as int) =~= realm);
    if scope.len() > 0 {
        lemma_two_pairs(realm, "service"@, x, "scope"@, y);
    } else {
        lemma_one_pair(realm, "service"@, x, "scope"@);
        assert(url =~= realm + (seq!['?'] + "service"@ + seq!['=']) + x);
    }
}

/// The request for the files of a container names the container and the path.
pub proof fn law_archive_is_asked_for_as_told(c: Seq<char>, p: Seq<char>)
    requires
        !c.contains('?'),
    ensures
        asks(commands::archive_path(c, p), "path"@, p),
        text::starts_with(commands::archive_path(c, p), "/containers/"@ + c + "/"@),
{
    reveal_strlit("/containers/");
    reveal_strlit("/archive?path=");
    reveal_strlit("/archive");
    reveal_strlit("path");
    reveal_strlit("/");
    reveal_strlit("");
    lemma_plain("/containers/"@);
    lemma_plain("/archive"@);
    lemma_plain("path"@);
    let x = encode::in_url(Place::Name, p);
    lemma_escaped(Place::Name, p);
    let path = "/containers/"@ + c + "/archive"@;
    lemma_path("/containers/"@, c, "/archive"@);
    assert("path"@.len() != ""@.len());
    lemma_one_pair(path, "path"@, x, ""@);
    let url = commands::archive_path(c, p);
    assert(url =~= path + (seq!['?'] + "path"@ + seq!['=']) + x);
    let lead = "/containers/"@ + c + "/"@;
    assert(url.subrange(0, lead.len() as int) =~= lead);
}

/// The request for a container gives its name, where it has one.
pub proof fn law_container_is_created_under_its_name(name: Seq<char>)
    requires
        !name.contains('&'),
    ensures
        values(commands::create_address(Some(name)), "name"@) == seq![name],
        parts(commands::create_address(None)).len() == 0,
{
    reveal_strlit("/containers/create");
    reveal_strlit("?name=");
    reveal_strlit("name");
    reveal_strlit("");
    lemma_plain("/containers/create"@);
    lemma_plain("name"@);
    assert("name"@.len() != ""@.len());
    assert("?name="@ =~= seq!['?'] + "name"@ + seq!['=']);
    lemma_one_pair("/containers/create"@, "name"@, name, ""@);
    assert(commands::create_address(Some(name)) =~= "/containers/create"@ + (seq!['?'] + "name"@
        + seq!['=']) + name);
    let bare = commands::create_address(None);
    assert(bare =~= "/containers/create"@);
    text::lemma_find_char(bare, '?');
}

} // verus!
