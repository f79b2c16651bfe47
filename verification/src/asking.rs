//! What the command line asks the daemon for, stated by what is read in its requests.

use vstd::prelude::*;

use crate::commands::{self, RunOpts};
use crate::json;
use crate::order;
use crate::ports::{self, MappingView};
use crate::project;
use crate::reading;
use crate::reference;
use crate::registry;
use crate::requests;
use crate::text;

verus! {

/// The truth value under a name.
pub open spec fn flag_under(t: Seq<char>, key: Seq<char>) -> Option<bool> {
    match reading::member(t, key) {
        Some(v) => if v == "true"@ {
            Some(true)
        } else if v == "false"@ {
            Some(false)
        } else {
            None
        },
        None => None,
    }
}

pub proof fn lemma_flag_under(ks: Seq<Seq<char>>, vs: Seq<Seq<char>>, p: int, b: bool)
    requires
        ks.len() == vs.len(),
        reading::all_values(vs),
        0 <= p < ks.len(),
        forall|q: int| 0 <= q < p ==> #[trigger] ks[q] != ks[p],
        vs[p] == json::json_bool(b),
    ensures
        flag_under(json::json_object(ks, vs), ks[p]) == Some(b),
{
    reading::lemma_member_is_read(ks, vs, p);
    reveal_strlit("true");
    reveal_strlit("false");
    assert("true"@[0] == 't' && "false"@[0] == 'f');
}

pub proof fn lemma_bool_is_value(b: bool)
    ensures
        reading::is_value(json::json_bool(b)),
{
    reveal_strlit("true");
    reveal_strlit("false");
    reading::lemma_word_is_value(json::json_bool(b));
}

// ---------------------------------------------------------------- a container

/// What the host's part of a request for a container holds.
pub open spec fn host_is_asked(h: Seq<char>, o: RunOpts, m: Seq<MappingView>) -> bool {
    &&& flag_under(h, "AutoRemove"@) == Some(o.rm)
    &&& reading::strings_under(h, "Binds"@) == Some(text::texts(o.volume@))
    &&& reading::strings_under(h, "Dns"@) == Some(text::texts(o.dns@))
    &&& reading::strings_under(h, "DnsOptions"@) == Some(text::texts(o.dns_opt@))
    &&& reading::strings_under(h, "DnsSearch"@) == Some(text::texts(o.dns_search@))
    &&& reading::string_under(h, "NetworkMode"@) == Some(o.network@)
    &&& reading::member(h, "PortBindings"@) matches Some(b) && forall|i: int|
        0 <= i < m.len() ==> requests::binds_mapping(b, #[trigger] m[i])
}

#[verifier::rlimit(40)]
proof fn lemma_run_host(o: RunOpts, m: Seq<MappingView>)
    ensures
        reading::is_value(commands::host_config_json(o, m)),
        host_is_asked(commands::host_config_json(o, m), o, m),
{
    reveal_strlit("AutoRemove");
    reveal_strlit("Binds");
    reveal_strlit("Dns");
    reveal_strlit("DnsOptions");
    reveal_strlit("DnsSearch");
    reveal_strlit("NetworkMode");
    reveal_strlit("PortBindings");
    let ks = seq![
        "AutoRemove"@,
        "Binds"@,
        "Dns"@,
        "DnsOptions"@,
        "DnsSearch"@,
        "NetworkMode"@,
        "PortBindings"@,
    ];
    let vs = seq![
        json::json_bool(o.rm),
        json::json_array(text::texts(o.volume@)),
        json::json_array(text::texts(o.dns@)),
        json::json_array(text::texts(o.dns_opt@)),
        json::json_array(text::texts(o.dns_search@)),
        json::json_quoted(o.network@),
        commands::bindings_json(m),
    ];
    lemma_bool_is_value(o.rm);
    reading::lemma_strings_are_read(text::texts(o.volume@));
    reading::lemma_strings_are_read(text::texts(o.dns@));
    reading::lemma_strings_are_read(text::texts(o.dns_opt@));
    reading::lemma_strings_are_read(text::texts(o.dns_search@));
    reading::lemma_quoted_is_value(o.network@);
    requests::lemma_bindings_are_read(m);
    reading::lemma_object_is_value(ks, vs);
    assert(ks[0][0] == 'A' && ks[1].len() == 5 && ks[2].len() == 3 && ks[3].len() == 10
        && ks[3][0] == 'D' && ks[4].len() == 9 && ks[5].len() == 11 && ks[6].len() == 12
        && ks[0].len() == 10);
    lemma_flag_under(ks, vs, 0, o.rm);
    reading::lemma_strings_under(ks, vs, 1, text::texts(o.volume@));
    reading::lemma_strings_under(ks, vs, 2, text::texts(o.dns@));
    reading::lemma_strings_under(ks, vs, 3, text::texts(o.dns_opt@));
    reading::lemma_strings_under(ks, vs, 4, text::texts(o.dns_search@));
    reading::lemma_string_under(ks, vs, 5, o.network@);
    reading::lemma_member_is_read(ks, vs, 6);
}

/// The request for a container asks for what the options say. Read back, it holds the
/// command, the variables, the image, the directory, whether input stays open and whether
/// there is a terminal, and for the host the mounts, the name servers, the network and every
/// port.
#[verifier::rlimit(40)]
pub proof fn law_run_is_asked_for_as_told(
    o: RunOpts,
    image: Seq<char>,
    cmd: Seq<Seq<char>>,
    m: Seq<MappingView>,
)
    ensures
        ({
            let body = commands::run_json(o, image, cmd, m);
            &&& reading::strings_under(body, "Cmd"@) == Some(cmd)
            &&& reading::strings_under(body, "Env"@) == Some(text::texts(o.env@))
            &&& reading::string_under(body, "Image"@) == Some(image)
            &&& flag_under(body, "OpenStdin"@) == Some(o.interactive)
            &&& flag_under(body, "Tty"@) == Some(o.tty)
            &&& requests::is_text(reading::string_under(body, "WorkingDir"@), o.workdir)
            &&& reading::member(body, "HostConfig"@) matches Some(h) && host_is_asked(h, o, m)
        }),
{
    reveal_strlit("Cmd");
    reveal_strlit("Env");
    reveal_strlit("HostConfig");
    reveal_strlit("Image");
    reveal_strlit("OpenStdin");
    reveal_strlit("Tty");
    reveal_strlit("WorkingDir");
    let ks = seq![
        "Cmd"@,
        "Env"@,
        "HostConfig"@,
        "Image"@,
        "OpenStdin"@,
        "Tty"@,
        "WorkingDir"@,
    ];
    let env = text::texts(o.env@);
    let host = commands::host_config_json(o, m);
    let dir = registry::text_or_empty(reference::opt_text(o.workdir));
    let vs = seq![
        json::json_array(cmd),
        json::json_array(env),
        host,
        json::json_quoted(image),
        json::json_bool(o.interactive),
        json::json_bool(o.tty),
        json::json_quoted(dir),
    ];
    reading::lemma_strings_are_read(cmd);
    reading::lemma_strings_are_read(env);
    lemma_run_host(o, m);
    reading::lemma_quoted_is_value(image);
    lemma_bool_is_value(o.interactive);
    lemma_bool_is_value(o.tty);
    reading::lemma_quoted_is_value(dir);
    reading::lemma_object_is_value(ks, vs);
    assert(ks[0][0] == 'C' && ks[1][0] == 'E' && ks[2][0] == 'H' && ks[3][0] == 'I' && ks[4][0]
        == 'O' && ks[5][0] == 'T' && ks[6][0] == 'W');
    reading::lemma_strings_under(ks, vs, 0, cmd);
    reading::lemma_strings_under(ks, vs, 1, env);
    reading::lemma_member_is_read(ks, vs, 2);
    reading::lemma_string_under(ks, vs, 3, image);
    lemma_flag_under(ks, vs, 4, o.interactive);
    lemma_flag_under(ks, vs, 5, o.tty);
    reading::lemma_string_under(ks, vs, 6, dir);
}

/// A mapping is among those of a specification.
pub open spec fn is_meant(spec_text: Seq<char>, m: MappingView) -> bool {
    match ports::spec_mappings(spec_text) {
        Ok(v) => v.contains(m),
        Err(_) => false,
    }
}

/// The mappings of several specifications are those of each of them: none is lost and none
/// is added.
pub proof fn law_every_specification_is_mapped(specs: Seq<Seq<char>>, n: int)
    requires
        0 <= n <= specs.len(),
        commands::all_mappings(specs, n) is Ok,
    ensures
        ({
            let m = commands::all_mappings(specs, n)->Ok_0;
            &&& forall|i: int| 0 <= i < n ==> ports::spec_mappings(#[trigger] specs[i]) is Ok
            &&& forall|i: int, x: MappingView|
                0 <= i < n && #[trigger] is_meant(specs[i], x) ==> m.contains(x)
            &&& forall|k: int|
                0 <= k < m.len() ==> exists|i: int|
                    0 <= i < n && is_meant(#[trigger] specs[i], #[trigger] m[k])
        }),
    decreases n,
{
    if n > 0 {
        law_every_specification_is_mapped(specs, n - 1);
        let before = commands::all_mappings(specs, n - 1)->Ok_0;
        let w = ports::spec_mappings(specs[n - 1])->Ok_0;
        let m = commands::all_mappings(specs, n)->Ok_0;
        assert(m == before + w);
        assert forall|i: int, x: MappingView|
            0 <= i < n && #[trigger] is_meant(specs[i], x) implies m.contains(x) by {
            if i == n - 1 {
                let j = choose|j: int| 0 <= j < w.len() && w[j] == x;
                assert(m[before.len() + j] == x);
            } else {
                let k = choose|k: int| 0 <= k < before.len() && before[k] == x;
                assert(m[k] == x);
            }
        }
        assert forall|k: int| 0 <= k < m.len() implies exists|i: int|
            0 <= i < n && is_meant(#[trigger] specs[i], #[trigger] m[k]) by {
            if k < before.len() {
                assert(m[k] == before[k]);
                let i = choose|i: int| 0 <= i < n - 1 && is_meant(#[trigger] specs[i], before[k]);
                assert(is_meant(specs[i], m[k]));
            } else {
                assert(m[k] == w[k - before.len()]);
                assert(is_meant(specs[n - 1], m[k]));
            }
        }
    }
}

// ---------------------------------------------------------------- a command

/// The request for a command in a container holds the command, whether input is attached and
/// whether there is a terminal; its output is attached.
pub proof fn law_exec_is_asked_for_as_told(interactive: bool, tty: bool, cmd: Seq<Seq<char>>)
    ensures
        ({
            let body = commands::exec_json(interactive, tty, cmd);
            &&& reading::strings_under(body, "Cmd"@) == Some(cmd)
            &&& flag_under(body, "AttachStdin"@) == Some(interactive)
            &&& flag_under(body, "AttachStdout"@) == Some(true)
            &&& flag_under(body, "AttachStderr"@) == Some(true)
            &&& flag_under(body, "Tty"@) == Some(tty)
        }),
        ({
            let start = commands::exec_start_json(tty);
            flag_under(start, "Detach"@) == Some(false) && flag_under(start, "Tty"@) == Some(tty)
        }),
{
    reveal_strlit("AttachStderr");
    reveal_strlit("AttachStdin");
    reveal_strlit("AttachStdout");
    reveal_strlit("Cmd");
    reveal_strlit("Tty");
    reveal_strlit("Detach");
    let ks = seq!["AttachStderr"@, "AttachStdin"@, "AttachStdout"@, "Cmd"@, "Tty"@];
    let vs = seq![
        "true"@,
        json::json_bool(interactive),
        "true"@,
        json::json_array(cmd),
        json::json_bool(tty),
    ];
    lemma_bool_is_value(true);
    lemma_bool_is_value(false);
    lemma_bool_is_value(interactive);
    lemma_bool_is_value(tty);
    reading::lemma_strings_are_read(cmd);
    assert(ks[0][9] == 'e' && ks[1][9] == 'i' && ks[2][9] == 'o' && ks[3].len() == 3 && ks[4].len()
        == 3 && ks[3][0] == 'C' && ks[4][0] == 'T');
    lemma_flag_under(ks, vs, 0, true);
    lemma_flag_under(ks, vs, 1, interactive);
    lemma_flag_under(ks, vs, 2, true);
    reading::lemma_strings_under(ks, vs, 3, cmd);
    lemma_flag_under(ks, vs, 4, tty);
    let sk = seq!["Detach"@, "Tty"@];
    let sv = seq!["false"@, json::json_bool(tty)];
    assert(sk[0].len() == 6 && sk[1].len() == 3);
    lemma_flag_under(sk, sv, 0, false);
    lemma_flag_under(sk, sv, 1, tty);
}

// ---------------------------------------------------------------- pairs

proof fn lemma_pair(t: Seq<char>, k: Seq<char>, value: Seq<char>)
    requires
        !k.contains('='),
        t == k + seq!['='] + value,
    ensures
        text::split_once(t, seq!['=']) == Some((k, value)),
{
    assert forall|j: int| 0 <= j < k.len() implies t[j] != '=' by {
        assert(t[j] == k[j]);
        assert(k.contains(k[j]));
    }
    text::lemma_found_char(t, '=', k.len() as int);
    assert(t.take(k.len() as int) =~= k);
    assert(t.skip(k.len() + 1int) =~= value);
}

/// A text sets a key.
pub open spec fn sets(t: Seq<char>, k: Seq<char>) -> bool {
    t.len() > k.len() && t.take(k.len() as int) == k && t[k.len() as int] == '='
}

proof fn lemma_pair_value(v: Seq<Seq<char>>, i: int, k: Seq<char>, value: Seq<char>)
    requires
        0 <= i < v.len(),
        !k.contains('='),
        v[i] == k + seq!['='] + value,
        forall|j: int| i < j < v.len() ==> !sets(#[trigger] v[j], k),
    ensures
        commands::pair_value(v, k) == value,
        commands::pair_keys(v).contains(k),
    decreases v.len(),
{
    let l = v.last();
    let before = v.drop_last();
    if i == v.len() - 1 {
        lemma_pair(l, k, value);
        let keys = commands::pair_keys(before).push(k);
        assert(keys[keys.len() - 1] == k);
    } else {
        assert(before[i] == v[i]);
        assert forall|j: int| i < j < before.len() implies !sets(#[trigger] before[j], k) by {
            assert(before[j] == v[j]);
        }
        lemma_pair_value(before, i, k, value);
        assert(!sets(v[v.len() - 1], k));
        text::lemma_find_char(l, '=');
        if let Some((a, b)) = text::split_once(l, seq!['=']) {
            if a == k {
                assert(sets(l, k));
            }
            let kb = commands::pair_keys(before);
            let p = choose|p: int| 0 <= p < kb.len() && kb[p] == k;
            assert(kb.push(a)[p] == k);
        }
    }
}

/// Texts `key=value` are read back: under each key stands its value, of which the last one
/// counts, in a list of its own where lists are asked for.
pub proof fn law_pairs_are_read(v: Seq<Seq<char>>, i: int, k: Seq<char>, value: Seq<char>)
    requires
        0 <= i < v.len(),
        !k.contains('='),
        v[i] == k + seq!['='] + value,
        forall|j: int| i < j < v.len() ==> !sets(#[trigger] v[j], k),
    ensures
        reading::string_under(commands::pairs_json(v, false), k) == Some(value),
        reading::strings_under(commands::pairs_json(v, true), k) == Some(seq![value]),
        reading::is_value(commands::pairs_json(v, false)),
{
    lemma_pair_value(v, i, k, value);
    let keys = commands::pair_keys(v);
    let ks = order::sorted_set(keys);
    order::law_sorted_set(keys);
    assert(ks.contains(k));
    let p = choose|p: int| 0 <= p < ks.len() && ks[p] == k;
    assert forall|q: int| 0 <= q < p implies #[trigger] ks[q] != ks[p] by {
        order::lemma_less_total(ks[q], ks[q]);
        assert(order::less(ks[q], ks[p]));
    }
    let plain = commands::pair_values(v, ks, false);
    let listed = commands::pair_values(v, ks, true);
    assert forall|q: int| 0 <= q < plain.len() implies reading::is_value(#[trigger] plain[q]) by {
        reading::lemma_quoted_is_value(commands::pair_value(v, ks[q]));
    }
    assert forall|q: int| 0 <= q < listed.len() implies reading::is_value(#[trigger] listed[q]) by {
        reading::lemma_strings_are_read(seq![commands::pair_value(v, ks[q])]);
    }
    reading::lemma_object_is_value(ks, plain);
    reading::lemma_string_under(ks, plain, p, value);
    reading::lemma_strings_under(ks, listed, p, seq![value]);
}

proof fn lemma_last_value(v: Seq<(Seq<char>, Seq<char>)>, i: int)
    requires
        0 <= i < v.len(),
        forall|j: int| i < j < v.len() ==> (#[trigger] v[j]).0 != v[i].0,
    ensures
        commands::last_value(v, v[i].0) == v[i].1,
    decreases v.len(),
{
    if i < v.len() - 1 {
        let before = v.drop_last();
        assert(v[v.len() - 1].0 != v[i].0);
        assert(before[i] == v[i]);
        assert forall|j: int| i < j < before.len() implies (#[trigger] before[j]).0 != before[i].0 by {
            assert(before[j] == v[j]);
        }
        lemma_last_value(before, i);
    }
}

/// Every secret of a build is staged under its id, with the last value that it was given.
pub proof fn law_secrets_are_staged(v: Seq<(Seq<char>, Seq<char>)>, i: int)
    requires
        0 <= i < v.len(),
        forall|j: int| i < j < v.len() ==> (#[trigger] v[j]).0 != v[i].0,
    ensures
        reading::string_under(commands::secrets_json(v), v[i].0) == Some(v[i].1),
{
    lemma_last_value(v, i);
    let names = commands::names_of(v);
    let ks = order::sorted_set(names);
    order::law_sorted_set(names);
    assert(names[i] == v[i].0);
    assert(ks.contains(v[i].0));
    let p = choose|p: int| 0 <= p < ks.len() && ks[p] == v[i].0;
    assert forall|q: int| 0 <= q < p implies #[trigger] ks[q] != ks[p] by {
        order::lemma_less_total(ks[q], ks[q]);
        assert(order::less(ks[q], ks[p]));
    }
    let vs = commands::last_values(v, ks);
    assert forall|q: int| 0 <= q < vs.len() implies reading::is_value(#[trigger] vs[q]) by {
        reading::lemma_quoted_is_value(commands::last_value(v, ks[q]));
    }
    reading::lemma_string_under(ks, vs, p, v[i].1);
}

// ---------------------------------------------------------------- networks and volumes

/// A name that needs no escape.
pub open spec fn is_plain(w: Seq<char>) -> bool {
    forall|i: int|
        0 <= i < w.len() ==> 32 <= (#[trigger] w[i]) as u32 && w[i] != '"' && w[i] != '\\'
}

proof fn lemma_plain_chars(w: Seq<char>)
    requires
        is_plain(w),
    ensures
        json::json_chars(w) == w,
    decreases w.len(),
{
    if w.len() > 0 {
        assert(w.skip(1).len() == w.len() - 1);
        assert forall|i: int| 0 <= i < w.skip(1).len() implies 32 <= (#[trigger] w.skip(1)[i]) as u32
            && w.skip(1)[i] != '"' && w.skip(1)[i] != '\\' by {
            assert(w.skip(1)[i] == w[i + 1]);
        }
        lemma_plain_chars(w.skip(1));
        assert(json::json_char(w[0]) =~= seq![w[0]]);
        assert(seq![w[0]] + w.skip(1) =~= w);
    } else {
        assert(json::json_chars(w) =~= w);
    }
}

pub proof fn lemma_plain_is_quoted(w: Seq<char>)
    requires
        is_plain(w),
    ensures
        json::json_quoted(w) == seq!['"'] + w + seq!['"'],
{
    lemma_plain_chars(w);
    reveal(json::json_quoted);
}

/// The request that a container joins a network names the container, and its aliases where
/// it has any; the request that it leaves says whether it is forced to.
#[verifier::rlimit(40)]
pub proof fn law_members_of_networks_are_named(
    container: Seq<char>,
    aliases: Seq<Seq<char>>,
    force: bool,
)
    ensures
        reading::string_under(commands::connect_json(container, aliases), "Container"@) == Some(
            container,
        ),
        aliases.len() > 0 ==> (reading::member(
            commands::connect_json(container, aliases),
            "EndpointConfig"@,
        ) matches Some(e) && reading::strings_under(e, "Aliases"@) == Some(aliases)),
        reading::string_under(commands::disconnect_json(container, force), "Container"@) == Some(
            container,
        ),
        flag_under(commands::disconnect_json(container, force), "Force"@) == Some(force),
{
    let c = json::json_quoted(container);
    reveal_strlit("{\"Container\":");
    reveal_strlit(",\"EndpointConfig\":{\"Aliases\":");
    reveal_strlit(",\"Force\":");
    reveal_strlit("{");
    reveal_strlit("}");
    reveal_strlit(":");
    reveal_strlit(",");
    reveal_strlit("Container");
    reveal_strlit("EndpointConfig");
    reveal_strlit("Aliases");
    reveal_strlit("Force");
    lemma_plain_is_quoted("Container"@);
    lemma_plain_is_quoted("EndpointConfig"@);
    lemma_plain_is_quoted("Aliases"@);
    lemma_plain_is_quoted("Force"@);
    reading::lemma_quoted_is_value(container);
    lemma_bool_is_value(force);
    reading::lemma_strings_are_read(aliases);
    let dk = seq!["Container"@, "Force"@];
    let dv = seq![c, json::json_bool(force)];
    lemma_two_members(dk[0], dv[0], dk[1], dv[1]);
    assert(json::json_object(dk, dv) =~= commands::disconnect_json(container, force));
    assert(dk[0].len() == 9 && dk[1].len() == 5);
    reading::lemma_string_under(dk, dv, 0, container);
    lemma_flag_under(dk, dv, 1, force);
    if aliases.len() > 0 {
        let ak = seq!["Aliases"@];
        let av = seq![json::json_array(aliases)];
        lemma_one_member(ak[0], av[0]);
        reading::lemma_object_is_value(ak, av);
        reading::lemma_strings_under(ak, av, 0, aliases);
        let e = json::json_object(ak, av);
        let ks = seq!["Container"@, "EndpointConfig"@];
        let vs = seq![c, e];
        lemma_two_members(ks[0], vs[0], ks[1], vs[1]);
        assert(json::json_object(ks, vs) =~= commands::connect_json(container, aliases));
        assert(ks[1].len() == 14);
        reading::lemma_string_under(ks, vs, 0, container);
        reading::lemma_member_is_read(ks, vs, 1);
    } else {
        let ks = seq!["Container"@];
        let vs = seq![c];
        lemma_one_member(ks[0], vs[0]);
        assert(json::json_object(ks, vs) =~= commands::connect_json(container, aliases));
        reading::lemma_string_under(ks, vs, 0, container);
    }
}

pub proof fn lemma_one_member(k: Seq<char>, v: Seq<char>)
    ensures
        json::json_object(seq![k], seq![v]) == "{"@ + json::json_quoted(k) + ":"@ + v + "}"@,
{
    let m = json::members(seq![k], seq![v]);
    assert(m =~= seq![json::json_quoted(k) + ":"@ + v]);
    assert(m.drop_last().len() == 0);
    text::lemma_join_first(m, ","@);
    assert(json::json_object(seq![k], seq![v]) =~= "{"@ + json::json_quoted(k) + ":"@ + v + "}"@);
}

pub proof fn lemma_two_members(k: Seq<char>, v: Seq<char>, l: Seq<char>, w: Seq<char>)
    ensures
        json::json_object(seq![k, l], seq![v, w]) == "{"@ + json::json_quoted(k) + ":"@ + v + ","@
            + json::json_quoted(l) + ":"@ + w + "}"@,
{
    let a = json::json_quoted(k) + ":"@ + v;
    let b = json::json_quoted(l) + ":"@ + w;
    let m = json::members(seq![k, l], seq![v, w]);
    assert(m =~= seq![a, b]);
    text::lemma_join_first(m, ","@);
    assert(m.skip(1) =~= seq![b]);
    text::lemma_join_first(seq![b], ","@);
    assert(json::json_object(seq![k, l], seq![v, w]) =~= "{"@ + json::json_quoted(k) + ":"@ + v
        + ","@ + json::json_quoted(l) + ":"@ + w + "}"@);
}

/// What stands between the braces of an object.
pub open spec fn between(ks: Seq<Seq<char>>, vs: Seq<Seq<char>>) -> Seq<char> {
    text::join(json::members(ks, vs), ","@)
}

pub proof fn lemma_one_more_member(ks: Seq<Seq<char>>, vs: Seq<Seq<char>>, k: Seq<char>, v: Seq<char>)
    requires
        ks.len() == vs.len(),
    ensures
        ks.len() > 0 ==> between(ks.push(k), vs.push(v)) == between(ks, vs) + ","@
            + json::json_quoted(k) + ":"@ + v,
        ks.len() == 0 ==> between(ks.push(k), vs.push(v)) == json::json_quoted(k) + ":"@ + v,
{
    let a = json::members(ks, vs);
    let b = json::members(ks.push(k), vs.push(v));
    assert(b =~= a.push(json::json_quoted(k) + ":"@ + v));
    assert(b.drop_last() =~= a);
    if ks.len() == 0 {
        text::lemma_join_first(b, ","@);
    } else {
        assert(between(ks.push(k), vs.push(v)) =~= between(ks, vs) + ","@ + json::json_quoted(k)
            + ":"@ + v);
    }
}

/// Where a network's addresses come from: its range and its gateway, where they are given.
pub open spec fn places_network(
    i: Seq<char>,
    subnet: Option<Seq<char>>,
    gateway: Option<Seq<char>>,
) -> bool {
    if subnet is None && gateway is None {
        reading::member(i, "Config"@) is None
    } else {
        match reading::member(i, "Config"@) {
            Some(a) => match reading::items(a) {
                Some(v) => {
                    &&& v.len() == 1
                    &&& reading::string_under(v[0], "Subnet"@) == subnet
                    &&& reading::string_under(v[0], "Gateway"@) == gateway
                },
                None => false,
            },
            None => false,
        }
    }
}

proof fn lemma_pool(ks: Seq<Seq<char>>, vs: Seq<Seq<char>>)
    requires
        ks.len() == vs.len(),
        reading::all_values(vs),
    ensures
        ({
            let c = json::json_object(ks, vs);
            let i = "{\"Config\":["@ + c + "]}"@;
            &&& reading::is_value(i)
            &&& reading::member(i, "Config"@) matches Some(a) && reading::items(a) == Some(seq![c])
        }),
{
    let c = json::json_object(ks, vs);
    reveal_strlit("{\"Config\":[");
    reveal_strlit("]}");
    reveal_strlit("[");
    reveal_strlit("]");
    reveal_strlit("{");
    reveal_strlit("}");
    reveal_strlit(":");
    reveal_strlit("Config");
    lemma_plain_is_quoted("Config"@);
    reading::lemma_object_is_value(ks, vs);
    let list = seq![c];
    text::lemma_join_first(list, ","@);
    reading::lemma_array_is_read(list);
    let a = "["@ + c + "]"@;
    lemma_one_member("Config"@, a);
    let i = json::json_object(seq!["Config"@], seq![a]);
    assert(i =~= "{\"Config\":["@ + c + "]}"@);
    reading::lemma_object_is_value(seq!["Config"@], seq![a]);
    reading::lemma_member_is_read(seq!["Config"@], seq![a], 0);
}

#[verifier::rlimit(40)]
proof fn lemma_ipam(subnet: Option<Seq<char>>, gateway: Option<Seq<char>>)
    ensures
        reading::is_value(commands::ipam_json(subnet, gateway)),
        places_network(commands::ipam_json(subnet, gateway), subnet, gateway),
{
    reveal_strlit("{\"Config\":[{\"Gateway\":");
    reveal_strlit("{\"Config\":[{\"Subnet\":");
    reveal_strlit("{\"Config\":[");
    reveal_strlit(",\"Subnet\":");
    reveal_strlit("}]}");
    reveal_strlit("]}");
    reveal_strlit("{}");
    reveal_strlit("{");
    reveal_strlit("}");
    reveal_strlit(":");
    reveal_strlit(",");
    reveal_strlit("Gateway");
    reveal_strlit("Subnet");
    let i = commands::ipam_json(subnet, gateway);
    lemma_plain_is_quoted("Gateway"@);
    lemma_plain_is_quoted("Subnet"@);
    assert("Gateway"@.len() == 7 && "Subnet"@.len() == 6);
    let none = Seq::<Seq<char>>::empty();
    match (gateway, subnet) {
        (None, None) => {
            assert(json::members(none, none) =~= none);
            assert(json::json_object(none, none) =~= "{}"@);
            reading::lemma_object_is_value(none, none);
            reading::lemma_member_is_absent(none, none, "Config"@);
        },
        (Some(g), None) => {
            let (ks, vs) = (seq!["Gateway"@], seq![json::json_quoted(g)]);
            reading::lemma_quoted_is_value(g);
            lemma_one_member(ks[0], vs[0]);
            lemma_pool(ks, vs);
            assert(i =~= "{\"Config\":["@ + json::json_object(ks, vs) + "]}"@);
            reading::lemma_string_under(ks, vs, 0, g);
            reading::lemma_member_is_absent(ks, vs, "Subnet"@);
        },
        (None, Some(s)) => {
            let (ks, vs) = (seq!["Subnet"@], seq![json::json_quoted(s)]);
            reading::lemma_quoted_is_value(s);
            lemma_one_member(ks[0], vs[0]);
            lemma_pool(ks, vs);
            assert(i =~= "{\"Config\":["@ + json::json_object(ks, vs) + "]}"@);
            reading::lemma_string_under(ks, vs, 0, s);
            reading::lemma_member_is_absent(ks, vs, "Gateway"@);
        },
        (Some(g), Some(s)) => {
            let (ks, vs) = (
                seq!["Gateway"@, "Subnet"@],
                seq![json::json_quoted(g), json::json_quoted(s)],
            );
            reading::lemma_quoted_is_value(g);
            reading::lemma_quoted_is_value(s);
            lemma_two_members(ks[0], vs[0], ks[1], vs[1]);
            lemma_pool(ks, vs);
            assert(i =~= "{\"Config\":["@ + json::json_object(ks, vs) + "]}"@);
            reading::lemma_string_under(ks, vs, 0, g);
            reading::lemma_string_under(ks, vs, 1, s);
        },
    }
}

proof fn lemma_pairs_are_value(v: Seq<Seq<char>>)
    ensures
        reading::is_value(commands::pairs_json(v, false)),
{
    let ks = order::sorted_set(commands::pair_keys(v));
    let vs = commands::pair_values(v, ks, false);
    assert forall|q: int| 0 <= q < vs.len() implies reading::is_value(#[trigger] vs[q]) by {
        reading::lemma_quoted_is_value(commands::pair_value(v, ks[q]));
    }
    reading::lemma_object_is_value(ks, vs);
}

/// The request for a network holds its name, whether it is cut off from the outside, its
/// range and its gateway, and each of its labels.
#[verifier::rlimit(40)]
pub proof fn law_network_is_asked_for_as_told(
    name: Seq<char>,
    subnet: Option<Seq<char>>,
    gateway: Option<Seq<char>>,
    internal: bool,
    labels: Seq<Seq<char>>,
)
    ensures
        ({
            let body = commands::network_json(name, subnet, gateway, internal, labels);
            &&& reading::string_under(body, "Name"@) == Some(name)
            &&& flag_under(body, "Internal"@) == Some(internal)
            &&& reading::member(body, "IPAM"@) matches Some(i) && places_network(i, subnet, gateway)
            &&& labels.len() > 0 ==> reading::member(body, "Labels"@) == Some(
                commands::pairs_json(labels, false),
            )
        }),
{
    reveal_strlit("{\"IPAM\":");
    reveal_strlit(",\"Internal\":");
    reveal_strlit(",\"Labels\":");
    reveal_strlit(",\"Name\":");
    reveal_strlit("{");
    reveal_strlit("}");
    reveal_strlit(":");
    reveal_strlit(",");
    reveal_strlit("IPAM");
    reveal_strlit("Internal");
    reveal_strlit("Labels");
    reveal_strlit("Name");
    lemma_plain_is_quoted("IPAM"@);
    lemma_plain_is_quoted("Internal"@);
    lemma_plain_is_quoted("Labels"@);
    lemma_plain_is_quoted("Name"@);
    lemma_ipam(subnet, gateway);
    lemma_bool_is_value(internal);
    lemma_pairs_are_value(labels);
    reading::lemma_quoted_is_value(name);
    let i = commands::ipam_json(subnet, gateway);
    let body = commands::network_json(name, subnet, gateway, internal, labels);
    let none = Seq::<Seq<char>>::empty();
    let (k1, v1) = (none.push("IPAM"@), none.push(i));
    let (k2, v2) = (k1.push("Internal"@), v1.push(json::json_bool(internal)));
    let (k3, v3) = if labels.len() > 0 {
        (k2.push("Labels"@), v2.push(commands::pairs_json(labels, false)))
    } else {
        (k2, v2)
    };
    let (ks, vs) = (k3.push("Name"@), v3.push(json::json_quoted(name)));
    lemma_one_more_member(none, none, "IPAM"@, i);
    lemma_one_more_member(k1, v1, "Internal"@, json::json_bool(internal));
    if labels.len() > 0 {
        lemma_one_more_member(k2, v2, "Labels"@, commands::pairs_json(labels, false));
    }
    lemma_one_more_member(k3, v3, "Name"@, json::json_quoted(name));
    assert(json::json_object(ks, vs) =~= body);
    assert("IPAM"@[0] == 'I' && "IPAM"@.len() == 4 && "Internal"@.len() == 8 && "Labels"@.len() == 6
        && "Name"@[0] == 'N' && "Name"@.len() == 4);
    reading::lemma_member_is_read(ks, vs, 0);
    lemma_flag_under(ks, vs, 1, internal);
    if labels.len() > 0 {
        reading::lemma_member_is_read(ks, vs, 2);
    }
    reading::lemma_string_under(ks, vs, ks.len() - 1, name);
}

/// The request for a volume holds its name, where it has one, and each of its labels.
#[verifier::rlimit(40)]
pub proof fn law_volume_is_asked_for_as_told(name: Option<Seq<char>>, labels: Seq<Seq<char>>)
    ensures
        ({
            let body = commands::volume_json(name, labels);
            &&& name is Some ==> reading::string_under(body, "Name"@) == name
            &&& labels.len() > 0 ==> reading::member(body, "Labels"@) == Some(
                commands::pairs_json(labels, false),
            )
        }),
{
    reveal_strlit("\"Labels\":");
    reveal_strlit("\"Name\":");
    reveal_strlit("{");
    reveal_strlit("}");
    reveal_strlit(":");
    reveal_strlit("Labels");
    reveal_strlit("Name");
    lemma_plain_is_quoted("Labels"@);
    lemma_plain_is_quoted("Name"@);
    lemma_pairs_are_value(labels);
    assert("Labels"@.len() == 6 && "Name"@.len() == 4);
    let pairs = commands::pairs_json(labels, false);
    let none = Seq::<Seq<char>>::empty();
    let (k1, v1) = if labels.len() > 0 {
        (none.push("Labels"@), none.push(pairs))
    } else {
        (none, none)
    };
    let (ks, vs) = match name {
        Some(n) => (k1.push("Name"@), v1.push(json::json_quoted(n))),
        None => (k1, v1),
    };
    let parts = (if labels.len() > 0 {
        seq!["\"Labels\":"@ + pairs]
    } else {
        Seq::empty()
    }) + (match name {
        Some(n) => seq!["\"Name\":"@ + json::json_quoted(n)],
        None => Seq::empty(),
    });
    assert("\"Labels\":"@ =~= json::json_quoted("Labels"@) + ":"@);
    assert("\"Name\":"@ =~= json::json_quoted("Name"@) + ":"@);
    assert(json::members(ks, vs) =~= parts);
    if let Some(n) = name {
        reading::lemma_quoted_is_value(n);
        reading::lemma_string_under(ks, vs, ks.len() - 1, n);
    }
    if labels.len() > 0 {
        reading::lemma_member_is_read(ks, vs, 0);
    }
}

/// The requests for a project's network and for its volumes hold the names that its
/// containers use, the drivers, and labels with the project.
#[verifier::rlimit(40)]
pub proof fn law_project_owns_its_network_and_volumes(project: Seq<char>, volume: Seq<char>)
    ensures
        ({
            let n = project::network_json(project);
            &&& reading::string_under(n, "Name"@) == Some(project + "_default"@)
            &&& reading::string_under(n, "Driver"@) == Some("bridge"@)
            &&& flag_under(n, "CheckDuplicate"@) == Some(true)
            &&& reading::member(n, "Labels"@) matches Some(l) && reading::string_under(
                l,
                "com.docker.compose.project"@,
            ) == Some(project) && reading::string_under(l, "com.docker.compose.network"@) == Some(
                "default"@,
            )
        }),
        ({
            let v = project::volume_json(project, volume);
            &&& reading::string_under(v, "Name"@) == Some(project + seq!['_'] + volume)
            &&& reading::string_under(v, "Driver"@) == Some("local"@)
            &&& reading::member(v, "Labels"@) matches Some(l) && reading::string_under(
                l,
                "com.docker.compose.project"@,
            ) == Some(project) && reading::string_under(l, "com.docker.compose.volume"@) == Some(
                volume,
            )
        }),
{
    reveal_strlit("CheckDuplicate");
    reveal_strlit("Driver");
    reveal_strlit("Labels");
    reveal_strlit("Name");
    reveal_strlit("com.docker.compose.network");
    reveal_strlit("com.docker.compose.project");
    reveal_strlit("com.docker.compose.volume");
    reveal_strlit("_");
    reveal_strlit("default");
    reveal_strlit("_default");
    assert(project + "_"@ + "default"@ =~= project + "_default"@);
    assert("_"@ =~= seq!['_']);
    assert("com.docker.compose.network"@[19] == 'n' && "com.docker.compose.project"@[19] == 'p'
        && "com.docker.compose.volume"@[19] == 'v');
    assert("CheckDuplicate"@.len() == 14 && "Driver"@[0] == 'D' && "Labels"@[0] == 'L'
        && "Name"@[0] == 'N' && "Driver"@.len() == 6 && "Labels"@.len() == 6 && "Name"@.len() == 4);
    reading::lemma_quoted_is_value("default"@);
    reading::lemma_quoted_is_value("bridge"@);
    reading::lemma_quoted_is_value("local"@);
    reading::lemma_quoted_is_value(project);
    reading::lemma_quoted_is_value(volume);
    reading::lemma_quoted_is_value(project + "_default"@);
    reading::lemma_quoted_is_value(project + "_"@ + volume);
    lemma_bool_is_value(true);
    let nk = seq!["com.docker.compose.network"@, "com.docker.compose.project"@];
    let nv = seq![json::json_quoted("default"@), json::json_quoted(project)];
    reading::lemma_object_is_value(nk, nv);
    reading::lemma_string_under(nk, nv, 0, "default"@);
    reading::lemma_string_under(nk, nv, 1, project);
    let ks = seq!["CheckDuplicate"@, "Driver"@, "Labels"@, "Name"@];
    let vs = seq![
        json::json_bool(true),
        json::json_quoted("bridge"@),
        json::json_object(nk, nv),
        json::json_quoted(project + "_default"@),
    ];
    lemma_flag_under(ks, vs, 0, true);
    reading::lemma_string_under(ks, vs, 1, "bridge"@);
    reading::lemma_member_is_read(ks, vs, 2);
    reading::lemma_string_under(ks, vs, 3, project + "_default"@);
    let lk = seq!["com.docker.compose.project"@, "com.docker.compose.volume"@];
    let lv = seq![json::json_quoted(project), json::json_quoted(volume)];
    reading::lemma_object_is_value(lk, lv);
    reading::lemma_string_under(lk, lv, 0, project);
    reading::lemma_string_under(lk, lv, 1, volume);
    let vk = seq!["Driver"@, "Labels"@, "Name"@];
    let vv = seq![
        json::json_quoted("local"@),
        json::json_object(lk, lv),
        json::json_quoted(project + "_"@ + volume),
    ];
    reading::lemma_string_under(vk, vv, 0, "local"@);
    reading::lemma_member_is_read(vk, vv, 1);
    reading::lemma_string_under(vk, vv, 2, project + "_"@ + volume);
}

} // verus!
