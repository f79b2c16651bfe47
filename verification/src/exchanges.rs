//! What is exchanged with registries, stated by what is read in it.

use vstd::prelude::*;

use crate::asking;
use crate::auth;
use crate::instructions;
use crate::json;
use crate::num;
use crate::pushing::{self, PushedLayer};
use crate::reading;
use crate::registry::{self, ChallengeView};
use crate::text;

verus! {

// ---------------------------------------------------------------- challenges

/// A value between quotes that a challenge can hold.
pub open spec fn is_quotable(v: Seq<char>) -> bool {
    !v.contains('"') && !v.contains(',')
}

proof fn lemma_unquoted(v: Seq<char>)
    requires
        !v.contains('"'),
    ensures
        text::trim_char(seq!['"'] + v + seq!['"'], '"') == v,
{
    let q = seq!['"'];
    let s = q + v + q;
    assert(s.subrange(0, 1) =~= q);
    let t = v + q;
    assert(s.skip(1) =~= t);
    assert(text::strip_starts(s, q) == text::strip_starts(t, q));
    if v.len() > 0 {
        assert(v.contains(v[0]));
        if text::starts_with(t, q) {
            assert(t.subrange(0, 1)[0] == q[0]);
        }
        assert(text::strip_starts(t, q) == t);
        assert(t.subrange(t.len() - 1, t.len() as int) =~= q);
        assert(t.take(t.len() - 1) =~= v);
        assert(v.contains(v[v.len() - 1]));
        if text::ends_with(v, q) {
            assert(v.subrange(v.len() - 1, v.len() as int)[0] == q[0]);
        }
        assert(text::strip_ends(v, q) == v);
        assert(text::strip_ends(t, q) == text::strip_ends(v, q));
    } else {
        assert(t =~= q);
        assert(q.subrange(0, 1) =~= q);
        assert(q.skip(1) =~= v);
        assert(text::strip_starts(v, q) == v);
        assert(text::strip_starts(q, q) == text::strip_starts(v, q));
        assert(text::strip_ends(v, q) == v);
    }
}

/// A parameter as it is written.
pub open spec fn parameter_text(name: Seq<char>, v: Seq<char>) -> Seq<char> {
    name + seq!['=', '"'] + v + seq!['"']
}

proof fn lemma_parameter(lead: Seq<char>, name: Seq<char>, v: Seq<char>, other: Seq<char>)
    requires
        lead.len() <= 1,
        lead.len() == 1 ==> lead[0] == ' ',
        name.len() > 0,
        !name.contains('='),
        forall|i: int| 0 <= i < name.len() ==> !text::is_white_space(#[trigger] name[i]),
        !v.contains('"'),
        other != name,
    ensures
        registry::parameter(lead + parameter_text(name, v), name) == Some(v),
        registry::parameter(lead + parameter_text(name, v), other) is None,
{
    let s = parameter_text(name, v);
    let n = name.len() as int;
    assert(s[0] == name[0] && s.last() == '"');
    assert(!text::is_white_space(name[0]) && !text::is_white_space(name[n - 1]));
    text::lemma_trim(s);
    text::lemma_trim(name);
    let all = lead + s;
    if lead.len() == 1 {
        assert(all.skip(1) =~= s);
        text::lemma_trim_start_keeps(s);
        assert(text::trim_start(all) == text::trim_start(s));
    } else {
        assert(all =~= s);
    }
    assert(text::trim(all) == s);
    assert forall|j: int| 0 <= j < n implies s[j] != '=' by {
        assert(name.contains(name[j]));
    }
    text::lemma_found_char(s, '=', n);
    assert(s.take(n) =~= name);
    assert(s.skip(n + 1) =~= seq!['"'] + v + seq!['"']);
    lemma_unquoted(v);
}

proof fn lemma_challenge_words()
    ensures
        "realm"@ != "service"@ && "realm"@ != "scope"@ && "service"@ != "scope"@,
        !"realm"@.contains('=') && !"service"@.contains('=') && !"scope"@.contains('='),
        !"realm"@.contains(',') && !"service"@.contains(',') && !"scope"@.contains(','),
        forall|i: int| 0 <= i < "realm"@.len() ==> !text::is_white_space(#[trigger] "realm"@[i]),
        forall|i: int| 0 <= i < "service"@.len() ==> !text::is_white_space(#[trigger] "service"@[i]),
        forall|i: int| 0 <= i < "scope"@.len() ==> !text::is_white_space(#[trigger] "scope"@[i]),
        "realm"@.len() == 5 && "service"@.len() == 7 && "scope"@.len() == 5,
        "Bearer"@.len() == 6 && "Bearer"@[0] == 'B',
{
    reveal_strlit("realm");
    reveal_strlit("service");
    reveal_strlit("scope");
    reveal_strlit("Bearer");
    assert("realm"@[0] == 'r' && "scope"@[0] == 's' && "service"@.len() == 7 && "scope"@.len() == 5);
}

proof fn lemma_part_is_whole(lead: Seq<char>, name: Seq<char>, v: Seq<char>)
    requires
        !lead.contains(','),
        !name.contains(','),
        is_quotable(v),
    ensures
        !(lead + parameter_text(name, v)).contains(','),
{
    let s = lead + parameter_text(name, v);
    let a = lead.len() as int;
    let n = name.len() as int;
    if s.contains(',') {
        let j = choose|j: int| 0 <= j < s.len() && s[j] == ',';
        if j < a {
            assert(lead.contains(lead[j]));
        } else if j < a + n {
            assert(s[j] == name[j - a]);
            assert(name.contains(name[j - a]));
        } else if j >= a + n + 2 && j < a + n + 2 + v.len() {
            assert(s[j] == v[j - a - n - 2]);
            assert(v.contains(v[j - a - n - 2]));
        }
    }
}

/// A registry's challenge is read as it is written: the realm, the service and the scope,
/// each without its quotes.
#[verifier::rlimit(40)]
pub proof fn law_challenge_is_read(realm: Seq<char>, service: Seq<char>, scope: Seq<char>)
    requires
        realm.len() > 0,
        is_quotable(realm) && is_quotable(service) && is_quotable(scope),
    ensures
        registry::challenge(
            "Bearer"@ + text::join(
                seq![
                    seq![' '] + parameter_text("realm"@, realm),
                    parameter_text("service"@, service),
                    parameter_text("scope"@, scope),
                ],
                seq![','],
            ),
        ) == Ok::<ChallengeView, Seq<char>>(ChallengeView::Bearer { realm, service, scope }),
{
    lemma_challenge_words();
    let sp = seq![' '];
    let none = Seq::<char>::empty();
    let a = sp + parameter_text("realm"@, realm);
    let b = parameter_text("service"@, service);
    let c = parameter_text("scope"@, scope);
    assert(none + b =~= b && none + c =~= c);
    let parts = seq![a, b, c];
    lemma_part_is_whole(sp, "realm"@, realm);
    lemma_part_is_whole(none, "service"@, service);
    lemma_part_is_whole(none, "scope"@, scope);
    text::lemma_split_of_join(parts, ',');
    lemma_parameter(sp, "realm"@, realm, "service"@);
    lemma_parameter(sp, "realm"@, realm, "scope"@);
    lemma_parameter(none, "service"@, service, "realm"@);
    lemma_parameter(none, "service"@, service, "scope"@);
    lemma_parameter(none, "scope"@, scope, "realm"@);
    lemma_parameter(none, "scope"@, scope, "service"@);
    let rest = text::join(parts, seq![',']);
    let h = "Bearer"@ + rest;
    assert(parts.drop_last().drop_last().len() == 1);
    assert(rest.len() > 0 && rest.last() == '"') by {
        assert(parts.last() == c);
        assert(rest == text::join(parts.drop_last(), seq![',']) + seq![','] + c);
    }
    assert(h[0] == 'B' && h.last() == '"');
    text::lemma_trim(h);
    assert(h.subrange(0, 6) =~= "Bearer"@);
    assert(h.skip(6) =~= rest);
    assert(registry::parameter_to(parts, "realm"@, 1) == realm);
    assert(registry::parameter_to(parts, "realm"@, 2) == realm);
    assert(registry::parameter_to(parts, "realm"@, 3) == realm);
    assert(registry::parameter_to(parts, "service"@, 2) == service);
    assert(registry::parameter_to(parts, "service"@, 3) == service);
    assert(registry::parameter_to(parts, "scope"@, 3) == scope);
}

// ---------------------------------------------------------------- addresses

/// A registry on this very host is spoken to in the clear, any other over TLS; its name and
/// its port stay as they are.
pub proof fn law_only_this_host_is_spoken_to_in_the_clear(name: Seq<char>, port: Seq<char>)
    requires
        name.len() > 0,
        !name.contains(':') && name[0] != '[',
        !port.contains(':'),
    ensures
        ({
            let own = name == "localhost"@ || name == "127.0.0.1"@;
            let scheme = if own {
                "http://"@
            } else {
                "https://"@
            };
            &&& registry::url_of(name) == scheme + name
            &&& registry::url_of(name + seq![':'] + port) == scheme + (name + seq![':'] + port)
        }),
{
    reveal_strlit("::1");
    let s = name + seq![':'] + port;
    let q = seq!['['];
    if text::starts_with(name, q) {
        assert(name.subrange(0, 1)[0] == q[0]);
    }
    if text::starts_with(s, q) {
        assert(s.subrange(0, 1)[0] == q[0]);
    }
    let parts = seq![name, port];
    text::lemma_join_first(parts, seq![':']);
    assert(parts.skip(1) =~= seq![port]);
    text::lemma_join_first(seq![port], seq![':']);
    assert(text::join(parts, seq![':']) =~= s);
    text::lemma_split_of_join(parts, ':');
    text::lemma_join_first(seq![name], seq![':']);
    text::lemma_split_of_join(seq![name], ':');
    assert(text::split(name, seq![':']) == seq![name]);
    assert("::1"@[0] == ':');
    if name == "::1"@ {
        assert(name.contains(name[0]));
    }
}

/// Where an upload goes on: at the location itself where it is a whole URL, otherwise below
/// the registry, with one slash between.
pub proof fn law_location_is_followed(endpoint: Seq<char>, rest: Seq<char>)
    requires
        !text::starts_with(rest, "http://"@),
        !text::starts_with(rest, "https://"@),
        rest.len() == 0 || rest[0] != '/',
    ensures
        registry::location_url(endpoint, seq!['/'] + rest) == endpoint + seq!['/'] + rest,
        registry::location_url(endpoint, rest) == endpoint + seq!['/'] + rest,
        registry::location_url(endpoint, "https://"@ + rest) == "https://"@ + rest,
        registry::location_url(endpoint, "http://"@ + rest) == "http://"@ + rest,
{
    reveal_strlit("/");
    reveal_strlit("http://");
    reveal_strlit("https://");
    assert("/"@ =~= seq!['/']);
    let s = seq!['/'] + rest;
    assert(s.subrange(0, 1) =~= "/"@);
    assert(s.skip(1) =~= rest);
    if text::starts_with(s, "http://"@) {
        assert(s.subrange(0, 7)[0] == "http://"@[0]);
    }
    if text::starts_with(s, "https://"@) {
        assert(s.subrange(0, 8)[0] == "https://"@[0]);
    }
    if text::starts_with(rest, "/"@) {
        assert(rest.subrange(0, 1)[0] == "/"@[0]);
    }
    assert(("https://"@ + rest).subrange(0, 8) =~= "https://"@);
    assert(("http://"@ + rest).subrange(0, 7) =~= "http://"@);
}

proof fn lemma_mirrors_to(parts: Seq<Seq<char>>, n: int)
    requires
        0 <= n <= parts.len(),
        forall|i: int| 0 <= i < parts.len() ==> instructions::is_trim(#[trigger] parts[i]),
    ensures
        registry::mirrors_to(parts, n) == parts.take(n),
    decreases n,
{
    if n > 0 {
        lemma_mirrors_to(parts, n - 1);
        assert(instructions::is_trim(parts[n - 1]));
        text::lemma_trim(parts[n - 1]);
        assert(parts.take(n) =~= parts.take(n - 1).push(parts[n - 1]));
    } else {
        assert(parts.take(0) =~= Seq::empty());
    }
}

/// Mirrors with commas between them are read as they are listed.
pub proof fn law_mirrors_are_read(parts: Seq<Seq<char>>)
    requires
        parts.len() > 0,
        forall|i: int|
            0 <= i < parts.len() ==> instructions::is_trim(#[trigger] parts[i])
                && !parts[i].contains(','),
    ensures
        registry::mirrors(Some(text::join(parts, seq![',']))) == parts,
{
    assert forall|i: int| 0 <= i < parts.len() implies !(#[trigger] parts[i]).contains(',') by {
        assert(instructions::is_trim(parts[i]));
    }
    text::lemma_split_of_join(parts, ',');
    lemma_mirrors_to(parts, parts.len() as int);
    assert(parts.take(parts.len() as int) =~= parts);
}

proof fn lemma_mirror_urls(ms: Seq<Seq<char>>, n: int)
    requires
        0 <= n <= ms.len(),
    ensures
        forall|i: int|
            0 <= i < n ==> registry::mirror_urls(ms, n).contains(
                registry::mirror_url(#[trigger] ms[i]),
            ),
        forall|k: int|
            0 <= k < registry::mirror_urls(ms, n).len() ==> exists|i: int|
                0 <= i < n && #[trigger] registry::mirror_urls(ms, n)[k] == registry::mirror_url(
                    #[trigger] ms[i],
                ),
    decreases n,
{
    if n > 0 {
        lemma_mirror_urls(ms, n - 1);
        let before = registry::mirror_urls(ms, n - 1);
        let now = registry::mirror_urls(ms, n);
        let x = registry::mirror_url(ms[n - 1]);
        assert forall|i: int| 0 <= i < n implies now.contains(
            registry::mirror_url(#[trigger] ms[i]),
        ) by {
            if i < n - 1 {
                assert(before.contains(registry::mirror_url(ms[i])));
                let k = choose|k: int|
                    0 <= k < before.len() && before[k] == registry::mirror_url(ms[i]);
                assert(now[k] == registry::mirror_url(ms[i]));
            } else if !before.contains(x) {
                assert(now[before.len() as int] == x);
            }
        }
        assert forall|k: int| 0 <= k < now.len() implies exists|i: int|
            0 <= i < n && #[trigger] now[k] == registry::mirror_url(#[trigger] ms[i]) by {
            if k < before.len() {
                assert(now[k] == before[k]);
                let i = choose|i: int|
                    0 <= i < n - 1 && before[k] == registry::mirror_url(#[trigger] ms[i]);
                assert(now[k] == registry::mirror_url(ms[i]));
            } else {
                assert(now[k] == registry::mirror_url(ms[n - 1]));
            }
        }
    }
}

/// Every mirror is asked, before the image's own registry, which comes last where it is no
/// mirror itself; nothing else is asked.
pub proof fn law_mirrors_are_asked_first(registry: Seq<char>, ms: Seq<Seq<char>>, i: int)
    requires
        0 <= i < ms.len(),
    ensures
        ({
            let v = registry::candidates(registry, ms);
            let own = registry::canonical(registry);
            &&& v.contains(registry::mirror_url(ms[i]))
            &&& v.contains(own)
            &&& v[0] == registry::mirror_url(ms[0])
            &&& (forall|j: int|
                0 <= j < ms.len() ==> registry::mirror_url(#[trigger] ms[j]) != own) ==> v.last()
                == own
            &&& forall|k: int|
                0 <= k < v.len() ==> #[trigger] v[k] == own || exists|j: int|
                    0 <= j < ms.len() && v[k] == registry::mirror_url(#[trigger] ms[j])
        }),
{
    let n = ms.len() as int;
    let before = registry::mirror_urls(ms, n);
    let own = registry::canonical(registry);
    let v = registry::candidates(registry, ms);
    lemma_mirror_urls(ms, n);
    lemma_first_mirror(ms, n);
    let x = registry::mirror_url(ms[i]);
    assert(before.contains(x));
    let k = choose|k: int| 0 <= k < before.len() && before[k] == x;
    assert(v[k] == x);
    if !before.contains(own) {
        assert(v[before.len() as int] == own);
    } else {
        let q = choose|q: int| 0 <= q < before.len() && before[q] == own;
        let j = choose|j: int| 0 <= j < n && before[q] == registry::mirror_url(#[trigger] ms[j]);
        assert(registry::mirror_url(ms[j]) == own);
    }
}

proof fn lemma_first_mirror(ms: Seq<Seq<char>>, n: int)
    requires
        0 < n <= ms.len(),
    ensures
        registry::mirror_urls(ms, n).len() > 0,
        registry::mirror_urls(ms, n)[0] == registry::mirror_url(ms[0]),
    decreases n,
{
    if n > 1 {
        lemma_first_mirror(ms, n - 1);
    } else {
        assert(registry::mirror_urls(ms, 0) =~= Seq::empty());
    }
}

/// The hash that a blob has to have is that of its digest, with or without the name of the
/// algorithm.
pub proof fn law_hash_is_that_of_the_digest(h: Seq<char>)
    requires
        !text::starts_with(h, "sha256:"@),
    ensures
        registry::expected_hash("sha256:"@ + h) == h,
        registry::expected_hash(h) == h,
{
    reveal_strlit("sha256:");
    let s = "sha256:"@ + h;
    assert(s.subrange(0, 7) =~= "sha256:"@);
    assert(s.skip(7) =~= h);
}

// ---------------------------------------------------------------- what is pushed

/// A blob is described: its digest, its kind and its length.
pub open spec fn describes(t: Seq<char>, digest: Seq<char>, media: Seq<char>, size: nat) -> bool {
    &&& reading::string_under(t, "digest"@) == Some(digest)
    &&& reading::string_under(t, "mediaType"@) == Some(media)
    &&& reading::member(t, "size"@) matches Some(n) && num::unsigned(n, size) == Some(size)
}

#[verifier::rlimit(40)]
proof fn lemma_described(digest: Seq<char>, media: Seq<char>, size: nat)
    ensures
        reading::is_value(pushing::described(digest, media, size)),
        describes(pushing::described(digest, media, size), digest, media, size),
{
    reveal_strlit("{\"digest\":");
    reveal_strlit(",\"mediaType\":");
    reveal_strlit(",\"size\":");
    reveal_strlit("{");
    reveal_strlit("}");
    reveal_strlit(":");
    reveal_strlit(",");
    reveal_strlit("digest");
    reveal_strlit("mediaType");
    reveal_strlit("size");
    asking::lemma_plain_is_quoted("digest"@);
    asking::lemma_plain_is_quoted("mediaType"@);
    asking::lemma_plain_is_quoted("size"@);
    reading::lemma_quoted_is_value(digest);
    reading::lemma_quoted_is_value(media);
    reading::lemma_number_is_value(size as int);
    num::lemma_decimal_reads_back(size);
    let none = Seq::<Seq<char>>::empty();
    let d = json::json_quoted(digest);
    let m = json::json_quoted(media);
    let n = num::decimal(size);
    assert(num::signed_decimal(size as int) == n);
    let (k1, v1) = (none.push("digest"@), none.push(d));
    let (k2, v2) = (k1.push("mediaType"@), v1.push(m));
    let (ks, vs) = (k2.push("size"@), v2.push(n));
    asking::lemma_one_more_member(none, none, "digest"@, d);
    asking::lemma_one_more_member(k1, v1, "mediaType"@, m);
    asking::lemma_one_more_member(k2, v2, "size"@, n);
    assert(json::json_object(ks, vs) =~= pushing::described(digest, media, size));
    assert("digest"@.len() == 6 && "mediaType"@.len() == 9 && "size"@.len() == 4);
    reading::lemma_object_is_value(ks, vs);
    reading::lemma_string_under(ks, vs, 0, digest);
    reading::lemma_string_under(ks, vs, 1, media);
    reading::lemma_member_is_read(ks, vs, 2);
}

/// The manifest that is pushed describes the configuration and each layer, the lowest first:
/// its digest, its length, and its kind by the bytes that it begins with.
pub proof fn law_manifest_describes_the_image(
    config_digest: Seq<char>,
    config_len: nat,
    layers: Seq<PushedLayer>,
)
    ensures
        ({
            let t = pushing::push_manifest_text(config_digest, config_len, layers);
            &&& reading::member(t, "config"@) matches Some(c) && describes(
                c,
                config_digest,
                "application/vnd.oci.image.config.v1+json"@,
                config_len,
            )
            &&& reading::member(t, "layers"@) matches Some(a) && reading::items(a) matches Some(v)
                && v.len() == layers.len() && forall|i: int|
                0 <= i < v.len() ==> describes(
                    #[trigger] v[i],
                    layers[i].digest@,
                    pushing::layer_media(layers[i].magic@),
                    layers[i].size as nat,
                )
            &&& reading::string_under(t, "mediaType"@) == Some(
                "application/vnd.oci.image.manifest.v1+json"@,
            )
            &&& reading::member(t, "schemaVersion"@) == Some("2"@)
        }),
{
    let list = pushing::layers_described(layers);
    assert forall|i: int| 0 <= i < list.len() implies reading::is_value(#[trigger] list[i])
        && describes(
        list[i],
        layers[i].digest@,
        pushing::layer_media(layers[i].magic@),
        layers[i].size as nat,
    ) by {
        lemma_described(
            layers[i].digest@,
            pushing::layer_media(layers[i].magic@),
            layers[i].size as nat,
        );
    }
    lemma_described(config_digest, pushing::PUSH_CONFIG_MEDIA_TYPE@, config_len);
    lemma_manifest(
        pushing::described(config_digest, pushing::PUSH_CONFIG_MEDIA_TYPE@, config_len),
        list,
    );
}

proof fn lemma_manifest(c: Seq<char>, list: Seq<Seq<char>>)
    requires
        reading::is_value(c),
        reading::all_values(list),
    ensures
        ({
            let t = "{\"config\":"@ + c + ",\"layers\":["@ + text::join(list, ","@)
                + "],\"mediaType\":"@ + json::json_quoted(pushing::PUSH_MANIFEST_MEDIA_TYPE@)
                + ",\"schemaVersion\":2}"@;
            &&& reading::member(t, "config"@) == Some(c)
            &&& reading::member(t, "layers"@) matches Some(a) && reading::items(a) == Some(list)
            &&& reading::string_under(t, "mediaType"@) == Some(pushing::PUSH_MANIFEST_MEDIA_TYPE@)
            &&& reading::member(t, "schemaVersion"@) == Some("2"@)
        }),
{
    let media = pushing::PUSH_MANIFEST_MEDIA_TYPE@;
    reading::lemma_array_is_read(list);
    let inner = text::join(list, ","@);
    let a = "["@ + inner + "]"@;
    let m = json::json_quoted(media);
    let ks = seq!["config"@, "layers"@, "mediaType"@, "schemaVersion"@];
    let vs = seq![c, a, m, "2"@];
    let t = "{\"config\":"@ + c + ",\"layers\":["@ + inner + "],\"mediaType\":"@ + m
        + ",\"schemaVersion\":2}"@;
    lemma_manifest_text(c, inner, m);
    lemma_manifest_is_read(ks, vs, c, a, media, t);
}

/// One more member of an object that is being written.
proof fn lemma_written_on(
    x: Seq<char>,
    ks: Seq<Seq<char>>,
    vs: Seq<Seq<char>>,
    k: Seq<char>,
    v: Seq<char>,
)
    requires
        ks.len() == vs.len(),
        ks.len() > 0,
        "{"@ + asking::between(ks, vs) == x,
    ensures
        "{"@ + asking::between(ks.push(k), vs.push(v)) == x + (","@ + json::json_quoted(k) + ":"@)
            + v,
{
    asking::lemma_one_more_member(ks, vs, k, v);
    let b = asking::between(ks, vs);
    let d = ","@ + json::json_quoted(k) + ":"@;
    assert(b + ","@ + json::json_quoted(k) + ":"@ + v =~= b + d + v);
    assert("{"@ + (b + d + v) =~= ("{"@ + b) + d + v);
}

#[verifier::rlimit(40)]
proof fn lemma_manifest_text(c: Seq<char>, inner: Seq<char>, m: Seq<char>)
    ensures
        json::json_object(
            seq!["config"@, "layers"@, "mediaType"@, "schemaVersion"@],
            seq![c, "["@ + inner + "]"@, m, "2"@],
        ) == "{\"config\":"@ + c + ",\"layers\":["@ + inner + "],\"mediaType\":"@ + m
            + ",\"schemaVersion\":2}"@,
{
    lemma_manifest_words();
    let none = Seq::<Seq<char>>::empty();
    let a = "["@ + inner + "]"@;
    let (k1, v1) = (none.push("config"@), none.push(c));
    let (k2, v2) = (k1.push("layers"@), v1.push(a));
    let (k3, v3) = (k2.push("mediaType"@), v2.push(m));
    let (ks, vs) = (k3.push("schemaVersion"@), v3.push("2"@));
    let q2 = ","@ + json::json_quoted("layers"@) + ":"@;
    let q3 = ","@ + json::json_quoted("mediaType"@) + ":"@;
    let q4 = ","@ + json::json_quoted("schemaVersion"@) + ":"@;
    asking::lemma_one_more_member(none, none, "config"@, c);
    let x1 = "{\"config\":"@ + c;
    assert("{"@ + (json::json_quoted("config"@) + ":"@ + c) =~= x1);
    lemma_written_on(x1, k1, v1, "layers"@, a);
    let y2 = x1 + q2 + a;
    lemma_written_on(y2, k2, v2, "mediaType"@, m);
    let y3 = y2 + q3 + m;
    lemma_written_on(y3, k3, v3, "schemaVersion"@, "2"@);
    let y4 = y3 + q4 + "2"@;
    let x2 = x1 + ",\"layers\":["@ + inner;
    let x3 = x2 + "],\"mediaType\":"@ + m;
    assert(y2 =~= x2 + "]"@) by {
        assert(",\"layers\":["@ == q2 + "["@);
    }
    assert(y3 =~= x3) by {
        assert("],\"mediaType\":"@ =~= "]"@ + q3);
    }
    assert(y4 + "}"@ =~= x3 + ",\"schemaVersion\":2}"@) by {
        assert(",\"schemaVersion\":2}"@ =~= q4 + "2"@ + "}"@);
    }
    assert(ks =~= seq!["config"@, "layers"@, "mediaType"@, "schemaVersion"@]);
    assert(vs =~= seq![c, a, m, "2"@]);
}

#[verifier::rlimit(40)]
proof fn lemma_manifest_is_read(
    ks: Seq<Seq<char>>,
    vs: Seq<Seq<char>>,
    c: Seq<char>,
    a: Seq<char>,
    media: Seq<char>,
    t: Seq<char>,
)
    requires
        ks.len() == 4 && vs.len() == 4,
        ks[0] == "config"@ && ks[1] == "layers"@ && ks[2] == "mediaType"@ && ks[3]
            == "schemaVersion"@,
        vs[0] == c && vs[1] == a && vs[2] == json::json_quoted(media) && vs[3] == "2"@,
        reading::is_value(c) && reading::is_value(a),
        t == json::json_object(ks, vs),
    ensures
        reading::member(t, "config"@) == Some(c),
        reading::member(t, "layers"@) == Some(a),
        reading::string_under(t, "mediaType"@) == Some(media),
        reading::member(t, "schemaVersion"@) == Some("2"@),
{
    lemma_manifest_words();
    reveal_strlit("2");
    reading::lemma_quoted_is_value(media);
    reading::lemma_word_is_value("2"@);
    assert(reading::all_values(vs));
    reading::lemma_member_is_read(ks, vs, 0);
    reading::lemma_member_is_read(ks, vs, 1);
    reading::lemma_string_under(ks, vs, 2, media);
    reading::lemma_member_is_read(ks, vs, 3);
}

proof fn lemma_manifest_words()
    ensures
        "{\"config\":"@ == "{"@ + json::json_quoted("config"@) + ":"@,
        ",\"layers\":["@ == ","@ + json::json_quoted("layers"@) + ":"@ + "["@,
        "],\"mediaType\":"@ == "]"@ + ","@ + json::json_quoted("mediaType"@) + ":"@,
        ",\"schemaVersion\":2}"@ == ","@ + json::json_quoted("schemaVersion"@) + ":"@ + "2"@ + "}"@,
        "config"@ != "layers"@ && "config"@ != "mediaType"@ && "config"@ != "schemaVersion"@
            && "layers"@ != "mediaType"@ && "layers"@ != "schemaVersion"@ && "mediaType"@
            != "schemaVersion"@,
{
    reveal_strlit("{\"config\":");
    reveal_strlit(",\"layers\":[");
    reveal_strlit("],\"mediaType\":");
    reveal_strlit(",\"schemaVersion\":2}");
    reveal_strlit("{");
    reveal_strlit("}");
    reveal_strlit("[");
    reveal_strlit("]");
    reveal_strlit(":");
    reveal_strlit(",");
    reveal_strlit("2");
    reveal_strlit("config");
    reveal_strlit("layers");
    reveal_strlit("mediaType");
    reveal_strlit("schemaVersion");
    asking::lemma_plain_is_quoted("config"@);
    asking::lemma_plain_is_quoted("layers"@);
    asking::lemma_plain_is_quoted("mediaType"@);
    asking::lemma_plain_is_quoted("schemaVersion"@);
    assert("config"@[0] == 'c' && "layers"@[0] == 'l' && "mediaType"@[0] == 'm' && "schemaVersion"@[0]
        == 's');
    assert("{\"config\":"@ =~= "{"@ + json::json_quoted("config"@) + ":"@);
    assert(",\"layers\":["@ =~= ","@ + json::json_quoted("layers"@) + ":"@ + "["@);
    assert("],\"mediaType\":"@ =~= "]"@ + ","@ + json::json_quoted("mediaType"@) + ":"@);
    assert(",\"schemaVersion\":2}"@ =~= ","@ + json::json_quoted("schemaVersion"@) + ":"@ + "2"@
        + "}"@);
}

/// A layer's kind goes by the bytes that it begins with: those of gzip, those of Zstandard,
/// or neither.
pub proof fn law_kind_of_layer_goes_by_its_bytes(rest: Seq<u8>)
    ensures
        pushing::layer_media(seq![0x1fu8, 0x8bu8] + rest)
            == "application/vnd.oci.image.layer.v1.tar+gzip"@,
        pushing::layer_media(seq![0x28u8, 0xb5u8, 0x2fu8, 0xfdu8] + rest)
            == "application/vnd.oci.image.layer.v1.tar+zstd"@,
        rest.len() > 0 && rest[0] != 0x1f && rest[0] != 0x28 ==> pushing::layer_media(rest)
            == "application/vnd.oci.image.layer.v1.tar"@,
{
}

/// The header that carries credentials holds the name, the password and the server.
#[verifier::rlimit(40)]
pub proof fn law_header_holds_the_credentials(
    user: Seq<char>,
    password: Seq<char>,
    server: Seq<char>,
)
    ensures
        ({
            let t = auth::header_json(user, password, server);
            &&& reading::string_under(t, "username"@) == Some(user)
            &&& reading::string_under(t, "password"@) == Some(password)
            &&& reading::string_under(t, "serveraddress"@) == Some(server)
        }),
{
    reveal_strlit("{\"password\":");
    reveal_strlit(",\"serveraddress\":");
    reveal_strlit(",\"username\":");
    reveal_strlit("{");
    reveal_strlit("}");
    reveal_strlit(":");
    reveal_strlit(",");
    reveal_strlit("password");
    reveal_strlit("serveraddress");
    reveal_strlit("username");
    asking::lemma_plain_is_quoted("password"@);
    asking::lemma_plain_is_quoted("serveraddress"@);
    asking::lemma_plain_is_quoted("username"@);
    reading::lemma_quoted_is_value(user);
    reading::lemma_quoted_is_value(password);
    reading::lemma_quoted_is_value(server);
    let p = json::json_quoted(password);
    let s = json::json_quoted(server);
    let u = json::json_quoted(user);
    let none = Seq::<Seq<char>>::empty();
    let (k1, v1) = (none.push("password"@), none.push(p));
    let (k2, v2) = (k1.push("serveraddress"@), v1.push(s));
    let (ks, vs) = (k2.push("username"@), v2.push(u));
    asking::lemma_one_more_member(none, none, "password"@, p);
    asking::lemma_one_more_member(k1, v1, "serveraddress"@, s);
    asking::lemma_one_more_member(k2, v2, "username"@, u);
    assert(json::json_object(ks, vs) =~= auth::header_json(user, password, server));
    assert("password"@[0] == 'p' && "serveraddress"@[0] == 's' && "username"@[0] == 'u');
    reading::lemma_string_under(ks, vs, 0, password);
    reading::lemma_string_under(ks, vs, 1, server);
    reading::lemma_string_under(ks, vs, 2, user);
}

/// The host of a server is what stands between its scheme and its path; the hub has one name
/// for all of its own.
#[verifier::rlimit(40)]
pub proof fn law_host_is_cut_out(scheme: Seq<char>, host: Seq<char>, path: Seq<char>)
    requires
        !scheme.contains(':'),
        !host.contains('/') && !host.contains(':'),
        !path.contains(':'),
    ensures
        ({
            let whole = scheme + "://"@ + host + seq!['/'] + path;
            let own = host == "index.docker.io"@ || host == "registry-1.docker.io"@;
            let key = if own {
                "docker.io"@
            } else {
                host
            };
            auth::host_of(whole) == key && auth::host_of(host) == key
        }),
{
    reveal_strlit("://");
    let sep = "://"@;
    let after = host + seq!['/'] + path;
    let whole = scheme + "://"@ + host + seq!['/'] + path;
    let n = scheme.len() as int;
    assert(whole.subrange(n, n + 3) =~= sep);
    assert forall|j: int| 0 <= j < n implies !#[trigger] text::occurs_at(whole, sep, j) by {
        assert(whole[j] == scheme[j]);
        assert(scheme.contains(scheme[j]));
        if text::occurs_at(whole, sep, j) {
            assert(whole.subrange(j, j + 3)[0] == sep[0]);
        }
    }
    text::lemma_found_at(whole, sep, n);
    assert(whole.skip(n + 3) =~= after);
    assert(!after.contains(':')) by {
        if after.contains(':') {
            let j = choose|j: int| 0 <= j < after.len() && after[j] == ':';
            if j < host.len() {
                assert(host.contains(host[j]));
            } else if j > host.len() {
                assert(path.contains(path[j - host.len() - 1]));
            }
        }
    }
    lemma_unsplit(after);
    lemma_unsplit(host);
    assert(text::split(whole, sep) =~= seq![whole.take(n), after]);
    assert forall|j: int| 0 <= j < host.len() implies after[j] != '/' by {
        assert(host.contains(host[j]));
    }
    text::lemma_found_char(after, '/', host.len() as int);
    assert(after.take(host.len() as int) =~= host);
    text::lemma_find_char(host, '/');
}

proof fn lemma_unsplit(s: Seq<char>)
    requires
        !s.contains(':'),
    ensures
        text::split(s, "://"@) == seq![s],
{
    reveal_strlit("://");
    text::lemma_find_from(s, "://"@, 0);
    if let Some(k) = text::find(s, "://"@) {
        assert(s.subrange(k, k + 3)[0] == "://"@[0]);
        assert(s[k] == ':');
    }
}

/// Manifests and blobs are asked for below the repository, each by what names it.
pub proof fn law_paths_lie_below_the_repository(repo: Seq<char>, name: Seq<char>)
    ensures
        ({
            let m = registry::manifest_place(repo, name);
            let b = registry::blob_place(repo, name);
            &&& text::starts_with(m, "/v2/"@ + repo + "/manifests/"@)
            &&& text::starts_with(b, "/v2/"@ + repo + "/blobs/"@)
            &&& m.skip(m.len() - name.len()) == name
            &&& b.skip(b.len() - name.len()) == name
            &&& m.len() == repo.len() + name.len() + 15
            &&& b.len() == repo.len() + name.len() + 11
        }),
{
    reveal_strlit("/v2/");
    reveal_strlit("/manifests/");
    reveal_strlit("/blobs/");
    let m = registry::manifest_place(repo, name);
    let b = registry::blob_place(repo, name);
    let x = "/v2/"@ + repo + "/manifests/"@;
    let y = "/v2/"@ + repo + "/blobs/"@;
    assert(m.subrange(0, x.len() as int) =~= x);
    assert(b.subrange(0, y.len() as int) =~= y);
    assert(m.skip(m.len() - name.len()) =~= name);
    assert(b.skip(b.len() - name.len()) =~= name);
}

/// The rest of a blob is asked for from the first byte that is not there; a whole blob is
/// asked for without a range.
pub proof fn law_rest_is_asked_for_from_where_it_is_missing(n: nat)
    ensures
        registry::range_wanted(0) is None,
        n > 0 ==> (registry::range_wanted(n) matches Some(t) && t.len() > 7 && t.take(6) == "bytes="@
            && t.last() == '-' && num::unsigned(t.subrange(6, t.len() - 1), n) == Some(n)),
{
    reveal_strlit("bytes=");
    reveal_strlit("-");
    num::lemma_decimal_reads_back(n);
    if n > 0 {
        let t = registry::range_wanted(n)->0;
        assert(t.take(6) =~= "bytes="@);
        assert(t.subrange(6, t.len() - 1) =~= num::decimal(n));
    }
}

} // verus!
