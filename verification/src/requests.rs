//! What requests ask the daemon for, stated by what is read in them.

use vstd::prelude::*;

use crate::commands;
use crate::compose::{self, BuildSpec, ComposeFile, ComposeSecretConfig, DeployConfig, DeployResources, EnvSpec, EnvValue, PullAction, ResourceLimits, SecretRef, ServiceConfig, StringOrList};
use crate::inherit;
use crate::json;
use crate::num;
use crate::order;
use crate::ports::MappingView;
use crate::project::{self, PlanView};
use crate::reading;
use crate::reference;
use crate::table::Table;
use crate::text;

verus! {

// ---------------------------------------------------------------- a service's container

/// The variables that a service's environment gives, each as `KEY=value`.
pub open spec fn is_environment(v: Seq<Seq<char>>, e: Option<EnvSpec>) -> bool {
    match e {
        None => v.len() == 0,
        Some(EnvSpec::List(l)) => v.len() == l@.len() && forall|i: int|
            0 <= i < v.len() ==> #[trigger] v[i] == l@[i]@,
        Some(EnvSpec::Entries(t)) => v.len() == t.entries@.len() && forall|i: int|
            0 <= i < v.len() ==> is_variable(#[trigger] v[i], t.entries@[i].0@, t.entries@[i].1),
    }
}

/// A text sets a variable: it begins with the variable's name and an equals sign, and the
/// rest is the value.
pub open spec fn is_variable(t: Seq<char>, k: Seq<char>, value: EnvValue) -> bool {
    let n = k.len() as int;
    &&& t.len() > n
    &&& t.take(n) == k
    &&& t[n] == '='
    &&& t.skip(n + 1) == match value {
        EnvValue::Text(s) => s@,
        EnvValue::Json(s) => s@,
    }
}

/// The words of a command: as they are listed, or those of its text.
pub open spec fn is_command(v: Seq<Seq<char>>, c: Option<StringOrList>) -> bool {
    match c {
        None => v.len() == 0,
        Some(StringOrList::List(l)) => v.len() == l@.len() && forall|i: int|
            0 <= i < v.len() ==> #[trigger] v[i] == l@[i]@,
        Some(StringOrList::Text(s)) => v == text::words(s@),
    }
}

/// A text that may be there, read as a string that is empty where it is not.
pub open spec fn is_text(read: Option<Seq<char>>, o: Option<String>) -> bool {
    match o {
        Some(s) => read == Some(s@),
        None => read matches Some(r) && r.len() == 0,
    }
}

/// A mount is that of a volume of a service: a volume of the project under the project's
/// name, a path of the host from the file's directory, anything else as it is written.
pub open spec fn is_mount(
    m: Seq<char>,
    v: Seq<char>,
    volumes: Seq<Seq<char>>,
    project: Seq<char>,
    dir: Seq<char>,
) -> bool {
    forall|src: Seq<char>, dst: Seq<char>|
        !src.contains(':') && v == #[trigger] (src + seq![':'] + dst) ==> if volumes.contains(src) {
            m == project + seq!['_'] + src + seq![':'] + dst
        } else if src.len() > 0 && src[0] == '/' {
            m == v
        } else if src.len() > 0 && src[0] == '.' {
            m == dir + seq!['/'] + src + seq![':'] + dst || (dir.len() > 0 && dir.last() == '/'
                && m == dir + src + seq![':'] + dst) || (dir.len() == 0 && m == v)
        } else {
            m == v
        }
}

/// The request asks for the container of a service as the service is described.
pub open spec fn asks_for_service(
    body: Seq<char>,
    s: ServiceConfig,
    image: Seq<char>,
    project: Seq<char>,
    service: Seq<char>,
    volumes: Seq<Seq<char>>,
    dir: Seq<char>,
) -> bool {
    &&& reading::strings_under(body, "Env"@) matches Some(v) && is_environment(v, s.environment)
    &&& reading::strings_under(body, "Cmd"@) matches Some(v) && is_command(v, s.command)
    &&& match s.entrypoint {
        Some(_) => reading::strings_under(body, "Entrypoint"@) matches Some(v) && is_command(
            v,
            s.entrypoint,
        ),
        None => reading::member(body, "Entrypoint"@) == Some("null"@),
    }
    &&& reading::string_under(body, "Image"@) == Some(image)
    &&& is_text(reading::string_under(body, "User"@), s.user)
    &&& is_text(reading::string_under(body, "WorkingDir"@), s.working_dir)
    &&& reading::member(body, "Labels"@) matches Some(l) && reading::string_under(
        l,
        "com.docker.compose.project"@,
    ) == Some(project) && reading::string_under(l, "com.docker.compose.service"@) == Some(service)
    &&& reading::member(body, "HostConfig"@) matches Some(h) && {
        &&& reading::string_under(h, "NetworkMode"@) == Some(project + "_default"@)
        &&& reading::member(h, "RestartPolicy"@) matches Some(p) && is_text(
            reading::string_under(p, "Name"@),
            s.restart,
        )
        &&& reading::strings_under(h, "Binds"@) matches Some(b) && b.len() == s.volumes@.len()
            + s.secrets@.len() + s.configs@.len() && forall|i: int|
            0 <= i < s.volumes@.len() ==> is_mount(
                #[trigger] b[i],
                s.volumes@[i]@,
                volumes,
                project,
                dir,
            )
    }
}

/// A mapping of a port is among the bindings: under the container's port stands the place on
/// the host.
pub open spec fn binds_mapping(bindings: Seq<char>, m: MappingView) -> bool {
    match reading::member(bindings, m.container_key) {
        Some(a) => match reading::items(a) {
            Some(v) => lists_place(v, m.host_ip, m.host_port),
            None => false,
        },
        None => false,
    }
}

pub open spec fn lists_place(v: Seq<Seq<char>>, ip: Seq<char>, port: Seq<char>) -> bool {
    exists|j: int| 0 <= j < v.len() && is_place(#[trigger] v[j], ip, port)
}

/// A place on the host: its address and its port.
pub open spec fn is_place(t: Seq<char>, ip: Seq<char>, port: Seq<char>) -> bool {
    reading::string_under(t, "HostIp"@) == Some(ip) && reading::string_under(t, "HostPort"@)
        == Some(port)
}

proof fn lemma_binding(m: MappingView)
    ensures
        reading::is_value(commands::binding_json(m)),
        is_place(commands::binding_json(m), m.host_ip, m.host_port),
{
    let ks = seq!["HostIp"@, "HostPort"@];
    let vs = seq![json::json_quoted(m.host_ip), json::json_quoted(m.host_port)];
    reveal_strlit("HostIp");
    reveal_strlit("HostPort");
    reading::lemma_quoted_is_value(m.host_ip);
    reading::lemma_quoted_is_value(m.host_port);
    reading::lemma_object_is_value(ks, vs);
    reading::lemma_string_under(ks, vs, 0, m.host_ip);
    assert(ks[0].len() != ks[1].len());
    reading::lemma_string_under(ks, vs, 1, m.host_port);
}

proof fn lemma_bindings_of(v: Seq<MappingView>, key: Seq<char>, n: int)
    requires
        0 <= n <= v.len(),
    ensures
        reading::all_values(commands::bindings_of(v, key, n)),
        forall|i: int|
            0 <= i < n && (#[trigger] v[i]).container_key == key ==> commands::bindings_of(
                v,
                key,
                n,
            ).contains(commands::binding_json(v[i])),
    decreases n,
{
    if n > 0 {
        lemma_bindings_of(v, key, n - 1);
        lemma_binding(v[n - 1]);
        let before = commands::bindings_of(v, key, n - 1);
        let now = commands::bindings_of(v, key, n);
        assert forall|i: int|
            0 <= i < n && (#[trigger] v[i]).container_key == key implies now.contains(
            commands::binding_json(v[i]),
        ) by {
            if i == n - 1 {
                assert(now[before.len() as int] == commands::binding_json(v[i]));
            } else {
                let b = commands::binding_json(v[i]);
                let k = choose|k: int| 0 <= k < before.len() && before[k] == b;
                assert(now[k] == b);
            }
        }
    }
}

/// Every mapping is read in what is written of all of them.
pub proof fn lemma_bindings_are_read(v: Seq<MappingView>)
    ensures
        reading::is_value(commands::bindings_json(v)),
        forall|i: int|
            0 <= i < v.len() ==> binds_mapping(commands::bindings_json(v), #[trigger] v[i]),
{
    let keys = commands::mapping_keys(v);
    let ks = order::sorted_set(keys);
    let vs = commands::binding_lists(v, ks);
    order::law_sorted_set(keys);
    assert forall|q: int| 0 <= q < vs.len() implies reading::is_value(#[trigger] vs[q]) by {
        lemma_bindings_of(v, ks[q], v.len() as int);
        reading::lemma_array_is_read(commands::bindings_of(v, ks[q], v.len() as int));
    }
    reading::lemma_object_is_value(ks, vs);
    assert forall|i: int| 0 <= i < v.len() implies binds_mapping(
        commands::bindings_json(v),
        #[trigger] v[i],
    ) by {
        let key = v[i].container_key;
        assert(keys[i] == key);
        assert(keys.contains(key));
        assert(ks.contains(key));
        let p = choose|p: int| 0 <= p < ks.len() && ks[p] == key;
        assert forall|q: int| 0 <= q < p implies #[trigger] ks[q] != ks[p] by {
            order::lemma_less_total(ks[q], ks[q]);
            assert(order::less(ks[q], ks[p]));
        }
        reading::lemma_member_is_read(ks, vs, p);
        let list = commands::bindings_of(v, key, v.len() as int);
        lemma_bindings_of(v, key, v.len() as int);
        reading::lemma_array_is_read(list);
        let b = commands::binding_json(v[i]);
        let j = choose|j: int| 0 <= j < list.len() && list[j] == b;
        lemma_binding(v[i]);
        assert(is_place(list[j], v[i].host_ip, v[i].host_port));
        assert(lists_place(list, v[i].host_ip, v[i].host_port));
        assert(vs[p] == "["@ + text::join(list, ","@) + "]"@);
        assert(reading::member(commands::bindings_json(v), key) == Some(vs[p]));
        assert(reading::items(vs[p]) == Some(list));
    }
}

/// What the host's part of the request for a service holds.
pub open spec fn asks_of_host(
    h: Seq<char>,
    binds: Seq<Seq<char>>,
    limits: (i64, i64),
    network: Seq<char>,
    mappings: Seq<MappingView>,
    restart: Seq<char>,
) -> bool {
    &&& reading::strings_under(h, "Binds"@) == Some(binds)
    &&& reading::member(h, "Memory"@) matches Some(t) && num::signed(t) == Some(limits.1 as int)
    &&& reading::member(h, "NanoCpus"@) matches Some(t) && num::signed(t) == Some(limits.0 as int)
    &&& reading::string_under(h, "NetworkMode"@) == Some(network)
    &&& reading::member(h, "PortBindings"@) matches Some(b) && forall|i: int|
        0 <= i < mappings.len() ==> binds_mapping(b, #[trigger] mappings[i])
    &&& reading::member(h, "RestartPolicy"@) matches Some(p) && reading::string_under(p, "Name"@)
        == Some(restart)
}

pub proof fn lemma_signed_reads_back(n: i64)
    ensures
        num::signed(num::signed_decimal(n as int)) == Some(n as int),
{
    let m = if n < 0 {
        (-(n as int)) as nat
    } else {
        n as nat
    };
    num::lemma_decimal_reads_back(m);
    let d = num::decimal(m);
    let s = num::signed_decimal(n as int);
    if n < 0 {
        assert(s.skip(1) =~= d);
    } else {
        assert('0' <= d[0] <= '9');
        assert(num::unsigned_digits(d) == d);
    }
}

#[verifier::rlimit(40)]
proof fn lemma_host_is_read(
    binds: Seq<Seq<char>>,
    limits: (i64, i64),
    network: Seq<char>,
    mappings: Seq<MappingView>,
    restart: Seq<char>,
)
    ensures
        ({
            let h = project::service_host_json(binds, limits, network, mappings, restart);
            reading::is_value(h) && asks_of_host(h, binds, limits, network, mappings, restart)
        }),
{
    reveal_strlit("Binds");
    reveal_strlit("Memory");
    reveal_strlit("NanoCpus");
    reveal_strlit("NetworkMode");
    reveal_strlit("PortBindings");
    reveal_strlit("RestartPolicy");
    reveal_strlit("MaximumRetryCount");
    reveal_strlit("Name");
    reveal_strlit("0");
    let pk = seq!["MaximumRetryCount"@, "Name"@];
    let pv = seq!["0"@, json::json_quoted(restart)];
    reading::lemma_word_is_value("0"@);
    reading::lemma_quoted_is_value(restart);
    reading::lemma_object_is_value(pk, pv);
    assert(pk[0].len() != pk[1].len());
    reading::lemma_string_under(pk, pv, 1, restart);
    let ks = seq![
        "Binds"@,
        "Memory"@,
        "NanoCpus"@,
        "NetworkMode"@,
        "PortBindings"@,
        "RestartPolicy"@,
    ];
    let vs = seq![
        json::json_array(binds),
        num::signed_decimal(limits.1 as int),
        num::signed_decimal(limits.0 as int),
        json::json_quoted(network),
        commands::bindings_json(mappings),
        json::json_object(pk, pv),
    ];
    reading::lemma_strings_are_read(binds);
    reading::lemma_number_is_value(limits.0 as int);
    reading::lemma_number_is_value(limits.1 as int);
    lemma_signed_reads_back(limits.0);
    lemma_signed_reads_back(limits.1);
    reading::lemma_quoted_is_value(network);
    lemma_bindings_are_read(mappings);
    reading::lemma_object_is_value(ks, vs);
    // Names of different lengths are different.
    assert(ks[0].len() == 5 && ks[1].len() == 6 && ks[2].len() == 8 && ks[3].len() == 11
        && ks[4].len() == 12 && ks[5].len() == 13);
    reading::lemma_strings_under(ks, vs, 0, binds);
    reading::lemma_member_is_read(ks, vs, 1);
    reading::lemma_member_is_read(ks, vs, 2);
    reading::lemma_string_under(ks, vs, 3, network);
    reading::lemma_member_is_read(ks, vs, 4);
    reading::lemma_member_is_read(ks, vs, 5);
}

proof fn lemma_labels_are_read(project: Seq<char>, service: Seq<char>)
    ensures
        ({
            let l = project::labels_json(project, service);
            &&& reading::is_value(l)
            &&& reading::string_under(l, "com.docker.compose.project"@) == Some(project)
            &&& reading::string_under(l, "com.docker.compose.service"@) == Some(service)
        }),
{
    reveal_strlit("com.docker.compose.container-number");
    reveal_strlit("com.docker.compose.oneoff");
    reveal_strlit("com.docker.compose.project");
    reveal_strlit("com.docker.compose.service");
    reveal_strlit("com.docker.compose.version");
    let ks = seq![
        "com.docker.compose.container-number"@,
        "com.docker.compose.oneoff"@,
        "com.docker.compose.project"@,
        "com.docker.compose.service"@,
        "com.docker.compose.version"@,
    ];
    let vs = seq![
        json::json_quoted("1"@),
        json::json_quoted("False"@),
        json::json_quoted(project),
        json::json_quoted(service),
        json::json_quoted("2.24.0"@),
    ];
    reading::lemma_quoted_is_value("1"@);
    reading::lemma_quoted_is_value("False"@);
    reading::lemma_quoted_is_value(project);
    reading::lemma_quoted_is_value(service);
    reading::lemma_quoted_is_value("2.24.0"@);
    reading::lemma_object_is_value(ks, vs);
    assert(ks[0][19] == 'c' && ks[1][19] == 'o' && ks[2][19] == 'p' && ks[3][19] == 's');
    reading::lemma_string_under(ks, vs, 2, project);
    reading::lemma_string_under(ks, vs, 3, service);
}

#[verifier::rlimit(40)]
proof fn lemma_service_is_read(
    s: ServiceConfig,
    image: Seq<char>,
    project: Seq<char>,
    service: Seq<char>,
    host: Seq<char>,
)
    requires
        reading::is_value(host),
    ensures
        ({
            let body = project::service_json(s, image, project, service, host);
            &&& reading::strings_under(body, "Env"@) matches Some(v) && is_environment(
                v,
                s.environment,
            )
            &&& reading::strings_under(body, "Cmd"@) matches Some(v) && is_command(v, s.command)
            &&& match s.entrypoint {
                Some(_) => reading::strings_under(body, "Entrypoint"@) matches Some(v)
                    && is_command(v, s.entrypoint),
                None => reading::member(body, "Entrypoint"@) == Some("null"@),
            }
            &&& reading::string_under(body, "Image"@) == Some(image)
            &&& is_text(reading::string_under(body, "User"@), s.user)
            &&& is_text(reading::string_under(body, "WorkingDir"@), s.working_dir)
            &&& reading::member(body, "Labels"@) == Some(project::labels_json(project, service))
            &&& reading::member(body, "HostConfig"@) == Some(host)
        }),
{
    let env = project::env_list(s.environment);
    let cmd = project::word_list(s.command);
    let user = project::or_else(reference::opt_text(s.user), Seq::empty());
    let dir = project::or_else(reference::opt_text(s.working_dir), Seq::empty());
    reveal_strlit("Cmd");
    reveal_strlit("Entrypoint");
    reveal_strlit("Env");
    reveal_strlit("HostConfig");
    reveal_strlit("Image");
    reveal_strlit("Labels");
    reveal_strlit("User");
    reveal_strlit("WorkingDir");
    reveal_strlit("null");
    reveal_strlit("=");
    let ks = seq![
        "Cmd"@,
        "Entrypoint"@,
        "Env"@,
        "HostConfig"@,
        "Image"@,
        "Labels"@,
        "User"@,
        "WorkingDir"@,
    ];
    let vs = seq![
        json::json_array(cmd),
        project::entry_json(s.entrypoint),
        json::json_array(env),
        host,
        json::json_quoted(image),
        project::labels_json(project, service),
        json::json_quoted(user),
        json::json_quoted(dir),
    ];
    reading::lemma_strings_are_read(cmd);
    match s.entrypoint {
        Some(e) => {
            reading::lemma_strings_are_read(e.listed());
        },
        None => {
            reading::lemma_word_is_value("null"@);
        },
    }
    reading::lemma_strings_are_read(env);
    reading::lemma_quoted_is_value(image);
    lemma_labels_are_read(project, service);
    reading::lemma_quoted_is_value(user);
    reading::lemma_quoted_is_value(dir);
    reading::lemma_object_is_value(ks, vs);
    assert(ks[0][0] == 'C' && ks[1][0] == 'E' && ks[2][0] == 'E' && ks[3][0] == 'H' && ks[4][0]
        == 'I' && ks[5][0] == 'L' && ks[6][0] == 'U' && ks[7][0] == 'W');
    assert(ks[1].len() != ks[2].len());
    reading::lemma_strings_under(ks, vs, 0, cmd);
    reading::lemma_member_is_read(ks, vs, 1);
    reading::lemma_strings_under(ks, vs, 2, env);
    reading::lemma_member_is_read(ks, vs, 3);
    reading::lemma_string_under(ks, vs, 4, image);
    reading::lemma_member_is_read(ks, vs, 5);
    reading::lemma_string_under(ks, vs, 6, user);
    reading::lemma_string_under(ks, vs, 7, dir);
    if let Some(EnvSpec::Entries(t)) = s.environment {
        assert forall|i: int| 0 <= i < env.len() implies is_variable(
            #[trigger] env[i],
            t.entries@[i].0@,
            t.entries@[i].1,
        ) by {
            let k = t.entries@[i].0@;
            let value = t.entries@[i].1.shown();
            assert(env[i].take(k.len() as int) =~= k);
            assert(env[i].skip(k.len() + 1int) =~= value);
        }
    }
}

proof fn lemma_mount(
    v: Seq<char>,
    volumes: Seq<Seq<char>>,
    project: Seq<char>,
    dir: Seq<char>,
)
    ensures
        is_mount(project::bind_of(v, volumes, project, dir), v, volumes, project, dir),
{
    reveal_strlit(":");
    reveal_strlit("_");
    reveal_strlit(".");
    reveal_strlit("/");
    let m = project::bind_of(v, volumes, project, dir);
    assert forall|src: Seq<char>, dst: Seq<char>|
        !src.contains(':') && v == #[trigger] (src + seq![':'] + dst) implies if volumes.contains(
        src,
    ) {
        m == project + seq!['_'] + src + seq![':'] + dst
    } else if src.len() > 0 && src[0] == '/' {
        m == v
    } else if src.len() > 0 && src[0] == '.' {
        m == dir + seq!['/'] + src + seq![':'] + dst || (dir.len() > 0 && dir.last() == '/' && m
            == dir + src + seq![':'] + dst) || (dir.len() == 0 && m == v)
    } else {
        m == v
    } by {
        assert forall|j: int| 0 <= j < src.len() implies v[j] != ':' by {
            assert(src.contains(src[j]));
        }
        text::lemma_found_char(v, ':', src.len() as int);
        assert(v.take(src.len() as int) =~= src);
        assert(v.skip(src.len() + 1int) =~= dst);
        assert(":"@ =~= seq![':']);
        assert("_"@ =~= seq!['_']);
        assert("."@ =~= seq!['.']);
        assert("/"@ =~= seq!['/']);
        if src.len() > 0 {
            assert(src.subrange(0, 1) =~= seq![src[0]]);
            assert(seq!['.'][0] == '.' && seq!['/'][0] == '/');
            assert(seq![src[0]][0] == src[0]);
            assert(text::starts_with(src, "."@) == (src[0] == '.'));
            assert(text::starts_with(src, "/"@) == (src[0] == '/'));
        }
        assert(text::split_once(v, seq![':']) == Some((src, dst)));
    }
}

proof fn lemma_mounts_length(
    kind: Seq<char>,
    refs: Seq<SecretRef>,
    top: Table<ComposeSecretConfig>,
    service: Seq<char>,
    dir: Seq<char>,
    present: Seq<Seq<char>>,
)
    requires
        project::mounts(kind, refs, top, service, dir, present) is Ok,
    ensures
        project::mounts(kind, refs, top, service, dir, present)->Ok_0.len() == refs.len(),
{
    if refs.len() > 0 {
        project::law_credentials_are_read_only(kind, refs, top, service, dir, present, 0);
    }
}

/// The request for a service's container asks for the service as the file describes it. Read
/// back, it holds the service's variables, each as `KEY=value`, its command and entry point,
/// the image, the user and the directory, labels with the project and the service, the
/// project's network, the restart policy, and a mount for every volume, secret and
/// configuration.
#[verifier::rlimit(40)]
pub proof fn law_service_is_asked_for_as_described(
    body: Seq<char>,
    s: ServiceConfig,
    image: Seq<char>,
    project: Seq<char>,
    service: Seq<char>,
    compose: ComposeFile,
    dir: Seq<char>,
    present: Seq<Seq<char>>,
)
    requires
        project::service_request(s, image, project, service, compose, dir, present) == Ok::<
            Seq<char>,
            Seq<char>,
        >(body),
    ensures
        asks_for_service(
            body,
            s,
            image,
            project,
            service,
            compose::keys(compose.volumes),
            dir,
        ),
{
    let volumes = compose::keys(compose.volumes);
    let m = commands::all_mappings(text::texts(s.ports@), s.ports@.len() as int)->Ok_0;
    let l = project::limits_of(s.deploy, service)->Ok_0;
    let a = project::mounts("secrets"@, s.secrets@, compose.secrets, service, dir, present)->Ok_0;
    let b = project::mounts("configs"@, s.configs@, compose.configs, service, dir, present)->Ok_0;
    let own = project::binds_of(text::texts(s.volumes@), volumes, project, dir);
    let binds = own + a + b;
    let network = project::owned(project, "default"@);
    let restart = project::or_else(reference::opt_text(s.restart), Seq::empty());
    lemma_mounts_length("secrets"@, s.secrets@, compose.secrets, service, dir, present);
    lemma_mounts_length("configs"@, s.configs@, compose.configs, service, dir, present);
    lemma_host_is_read(binds, l, network, m, restart);
    let host = project::service_host_json(binds, l, network, m, restart);
    lemma_service_is_read(s, image, project, service, host);
    lemma_labels_are_read(project, service);
    reveal_strlit("_");
    reveal_strlit("default");
    reveal_strlit("_default");
    assert("_"@ + "default"@ =~= "_default"@);
    assert(network =~= project + "_default"@);
    assert forall|i: int| 0 <= i < s.volumes@.len() implies is_mount(
        #[trigger] binds[i],
        s.volumes@[i]@,
        volumes,
        project,
        dir,
    ) by {
        assert(binds[i] == own[i]);
        lemma_mount(s.volumes@[i]@, volumes, project, dir);
    }
}

/// Every port that a service publishes is asked for, and so are its limits: the ports that
/// its specifications mean stand among the bindings, and the amounts are read back as they
/// were given.
pub proof fn law_ports_and_limits_are_asked_for(
    body: Seq<char>,
    s: ServiceConfig,
    image: Seq<char>,
    project: Seq<char>,
    service: Seq<char>,
    compose: ComposeFile,
    dir: Seq<char>,
    present: Seq<Seq<char>>,
)
    requires
        project::service_request(s, image, project, service, compose, dir, present) == Ok::<
            Seq<char>,
            Seq<char>,
        >(body),
    ensures
        reading::member(body, "HostConfig"@) matches Some(h) && {
            &&& commands::all_mappings(text::texts(s.ports@), s.ports@.len() as int) matches Ok(m)
                && reading::member(h, "PortBindings"@) matches Some(b) && forall|i: int|
                0 <= i < m.len() ==> binds_mapping(b, #[trigger] m[i])
            &&& project::limits_of(s.deploy, service) matches Ok((cpus, memory)) && {
                &&& reading::member(h, "NanoCpus"@) matches Some(t) && num::signed(t) == Some(
                    cpus as int,
                )
                &&& reading::member(h, "Memory"@) matches Some(t) && num::signed(t) == Some(
                    memory as int,
                )
            }
        },
{
    let volumes = compose::keys(compose.volumes);
    let m = commands::all_mappings(text::texts(s.ports@), s.ports@.len() as int)->Ok_0;
    let l = project::limits_of(s.deploy, service)->Ok_0;
    let a = project::mounts("secrets"@, s.secrets@, compose.secrets, service, dir, present)->Ok_0;
    let b = project::mounts("configs"@, s.configs@, compose.configs, service, dir, present)->Ok_0;
    let binds = project::binds_of(text::texts(s.volumes@), volumes, project, dir) + a + b;
    let network = project::owned(project, "default"@);
    let restart = project::or_else(reference::opt_text(s.restart), Seq::empty());
    lemma_host_is_read(binds, l, network, m, restart);
    let host = project::service_host_json(binds, l, network, m, restart);
    lemma_service_is_read(s, image, project, service, host);
}

// ---------------------------------------------------------------- what a service is given

/// The file that a credential is read from, and the name that it is mounted under.
pub open spec fn is_credential(
    r: SecretRef,
    source: Seq<char>,
    target: Seq<char>,
) -> bool {
    match r {
        SecretRef::Short(s) => source == s@ && target == s@,
        SecretRef::Long(l) => source == l.source@ && (l.target matches Some(t) ==> target == t@) && (
        l.target is None ==> target == source),
    }
}

/// A credential is mounted from the file that the project names for it, under its own name:
/// a secret among the secrets, a configuration at the root; neither can be written.
pub proof fn law_credential_is_mounted_from_its_file(
    refs: Seq<SecretRef>,
    top: Table<ComposeSecretConfig>,
    service: Seq<char>,
    dir: Seq<char>,
    present: Seq<Seq<char>>,
    i: int,
    source: Seq<char>,
    target: Seq<char>,
)
    requires
        0 <= i < refs.len(),
        is_credential(refs[i], source, target),
    ensures
        project::mounts("secrets"@, refs, top, service, dir, present) matches Ok(m) ==> {
            &&& top.at(source) matches Some(c) && c.file is Some
            &&& m[i] == inherit::joined(dir, top.at(source)->0.file->0@) + ":/run/secrets/"@ + target
                + ":ro"@
        },
        project::mounts("configs"@, refs, top, service, dir, present) matches Ok(m) ==> {
            &&& top.at(source) matches Some(c) && c.file is Some
            &&& m[i] == inherit::joined(dir, top.at(source)->0.file->0@) + ":/"@ + target + ":ro"@
        },
{
    reveal_strlit("secrets");
    reveal_strlit("configs");
    reveal_strlit(":");
    reveal_strlit("/run/secrets/");
    reveal_strlit("/");
    reveal_strlit(":/run/secrets/");
    reveal_strlit(":/");
    assert("secrets"@[0] == 's' && "configs"@[0] == 'c');
    let n = refs.len() as int;
    if let Ok(m) = project::mounts("secrets"@, refs, top, service, dir, present) {
        project::lemma_mounts_shape("secrets"@, refs, top, service, dir, present, n);
        assert(project::mount_of("secrets"@, refs[i], top, service, dir, present) == Ok::<
            Seq<char>,
            Seq<char>,
        >(m[i]));
        let f = inherit::joined(dir, top.at(source)->0.file->0@);
        assert(m[i] =~= f + ":/run/secrets/"@ + target + ":ro"@);
    }
    if let Ok(m) = project::mounts("configs"@, refs, top, service, dir, present) {
        project::lemma_mounts_shape("configs"@, refs, top, service, dir, present, n);
        assert(project::mount_of("configs"@, refs[i], top, service, dir, present) == Ok::<
            Seq<char>,
            Seq<char>,
        >(m[i]));
        let f = inherit::joined(dir, top.at(source)->0.file->0@);
        assert(m[i] =~= f + ":/"@ + target + ":ro"@);
    }
}

/// The mounts of a service are those of its volumes, then those of its secrets, then those of
/// its configurations.
pub proof fn law_credentials_are_asked_for(
    body: Seq<char>,
    s: ServiceConfig,
    image: Seq<char>,
    project: Seq<char>,
    service: Seq<char>,
    compose: ComposeFile,
    dir: Seq<char>,
    present: Seq<Seq<char>>,
)
    requires
        project::service_request(s, image, project, service, compose, dir, present) == Ok::<
            Seq<char>,
            Seq<char>,
        >(body),
    ensures
        reading::member(body, "HostConfig"@) matches Some(h) && reading::strings_under(h, "Binds"@)
            matches Some(b) && project::mounts(
            "secrets"@,
            s.secrets@,
            compose.secrets,
            service,
            dir,
            present,
        ) matches Ok(x) && project::mounts(
            "configs"@,
            s.configs@,
            compose.configs,
            service,
            dir,
            present,
        ) matches Ok(y) && b.skip(s.volumes@.len() as int) == x + y,
{
    let volumes = compose::keys(compose.volumes);
    let m = commands::all_mappings(text::texts(s.ports@), s.ports@.len() as int)->Ok_0;
    let l = project::limits_of(s.deploy, service)->Ok_0;
    let a = project::mounts("secrets"@, s.secrets@, compose.secrets, service, dir, present)->Ok_0;
    let b = project::mounts("configs"@, s.configs@, compose.configs, service, dir, present)->Ok_0;
    let own = project::binds_of(text::texts(s.volumes@), volumes, project, dir);
    let binds = own + a + b;
    let network = project::owned(project, "default"@);
    let restart = project::or_else(reference::opt_text(s.restart), Seq::empty());
    lemma_host_is_read(binds, l, network, m, restart);
    let host = project::service_host_json(binds, l, network, m, restart);
    lemma_service_is_read(s, image, project, service, host);
    assert(own.len() == s.volumes@.len());
    assert(binds.skip(own.len() as int) =~= a + b);
}

/// The limits of a service are those that it is given: no limit where none is, and what it
/// reserves counts for nothing.
pub proof fn law_limits_are_those_given(l: ResourceLimits, service: Seq<char>)
    requires
        l.cpus matches Some(c) ==> c.value is Some,
        l.memory matches Some(m) ==> m.value is Some,
    ensures
        project::limits_of(
            Some(DeployConfig { resources: Some(DeployResources { limits: Some(l), reservations: None }) }),
            service,
        ) matches Ok((cpus, memory)) && {
            &&& l.cpus matches Some(c) ==> c.value == Some(cpus)
            &&& l.cpus is None ==> cpus == 0
            &&& l.memory matches Some(m) ==> m.value == Some(memory)
            &&& l.memory is None ==> memory == 0
        },
        project::limits_of(None, service) == Ok::<(i64, i64), Seq<char>>((0, 0)),
{
}

/// The letters that may stand behind an amount of memory.
pub open spec fn is_unit(u: Seq<char>, letter: char, upper: char) -> bool {
    &&& 1 <= u.len() <= 3
    &&& u[0] == letter || u[0] == upper
    &&& u.len() == 2 ==> u[1] == 'b' || u[1] == 'B'
    &&& u.len() == 3 ==> (u[1] == 'i' || u[1] == 'I') && (u[2] == 'b' || u[2] == 'B')
}

#[verifier::rlimit(40)]
proof fn lemma_memory(d: Seq<char>, u: Seq<char>, letter: char, upper: char)
    requires
        d.len() > 0,
        forall|i: int| 0 <= i < d.len() ==> '0' <= #[trigger] d[i] <= '9',
        is_unit(u, letter, upper),
        (letter == 'k' && upper == 'K') || (letter == 'm' && upper == 'M') || (letter == 'g'
            && upper == 'G'),
    ensures
        letter == 'k' ==> project::memory_split(d + u) == Some((d, 1024u64)),
        letter == 'm' ==> project::memory_split(d + u) == Some((d, 1048576u64)),
        letter == 'g' ==> project::memory_split(d + u) == Some((d, 1073741824u64)),
{
    let s = d + u;
    let l = text::ascii_lowered(s);
    let n = d.len() as int;
    assert forall|i: int| 0 <= i < n implies l[i] == d[i] by {
        assert(s[i] == d[i]);
        assert('0' <= d[i] <= '9');
    }
    assert(s[n] == u[0]);
    assert(l[n] == letter);
    let lb = seq!['b'];
    let li = seq!['i'];
    assert(l.subrange(l.len() - 1, l.len() as int) =~= seq![l.last()]);
    assert(seq![l.last()][0] == l.last() && lb[0] == 'b' && li[0] == 'i');
    assert(text::ends_with(l, lb) == (l.last() == 'b'));
    let b = if l.last() == 'b' {
        l.take(l.len() - 1)
    } else {
        l
    };
    if u.len() >= 2 {
        assert(s[n + 1] == u[1]);
    }
    if u.len() == 3 {
        assert(s[n + 2] == u[2]);
        assert(l[n + 1] == 'i');
        assert(l[n + 2] == 'b');
    }
    assert(b.subrange(b.len() - 1, b.len() as int) =~= seq![b.last()]);
    assert(seq![b.last()][0] == b.last());
    assert(text::ends_with(b, li) == (b.last() == 'i'));
    let i = if b.last() == 'i' {
        b.take(b.len() - 1)
    } else {
        b
    };
    assert(i.len() == n + 1 && i.last() == letter);
    assert(i.drop_last() =~= d);
    assert('0' <= d[0] <= '9' && '0' <= d[n - 1] <= '9');
    text::lemma_trim(d);
}

/// An amount of memory is read by its unit, in either case, with or without the letters for
/// bytes; a bare number is in bytes.
pub proof fn law_memory_is_read_by_its_unit(d: Seq<char>, u: Seq<char>)
    requires
        d.len() > 0,
        forall|i: int| 0 <= i < d.len() ==> '0' <= #[trigger] d[i] <= '9',
    ensures
        is_unit(u, 'k', 'K') ==> project::memory_split(d + u) == Some((d, 1024u64)),
        is_unit(u, 'm', 'M') ==> project::memory_split(d + u) == Some((d, 1048576u64)),
        is_unit(u, 'g', 'G') ==> project::memory_split(d + u) == Some((d, 1073741824u64)),
        project::memory_split(d) == Some((d, 1u64)),
{
    if is_unit(u, 'k', 'K') {
        lemma_memory(d, u, 'k', 'K');
    }
    if is_unit(u, 'm', 'M') {
        lemma_memory(d, u, 'm', 'M');
    }
    if is_unit(u, 'g', 'G') {
        lemma_memory(d, u, 'g', 'G');
    }
    let l = text::ascii_lowered(d);
    assert forall|i: int| 0 <= i < d.len() implies l[i] == d[i] by {
        assert('0' <= d[i] <= '9');
    }
    assert(l =~= d);
    let n = d.len() as int;
    assert('0' <= d[0] <= '9' && '0' <= d[n - 1] <= '9');
    let lb = seq!['b'];
    let li = seq!['i'];
    assert(d.subrange(n - 1, n) =~= seq![d.last()]);
    assert(seq![d.last()][0] == d.last() && lb[0] == 'b' && li[0] == 'i');
    assert(!text::ends_with(d, lb) && !text::ends_with(d, li));
    text::lemma_trim(d);
}

/// A container has the name that its service gives it, or one made of the project and the
/// service.
pub proof fn law_container_is_named_after_its_service(
    s: ServiceConfig,
    project: Seq<char>,
    service: Seq<char>,
)
    ensures
        s.container_name matches Some(n) ==> project::container_of(s, project, service) == n@,
        s.container_name is None ==> project::container_of(s, project, service) == project + seq!['-']
            + service + seq!['-', '1'],
{
    reveal_strlit("-");
    reveal_strlit("-1");
    assert("-"@ =~= seq!['-']);
    assert("-1"@ =~= seq!['-', '1']);
}

/// What is built is built from the directory that the service names, below that of the
/// project, with the Dockerfile that it names or the usual one; what is not is fetched by
/// its own name.
pub proof fn law_image_comes_from_where_it_is_said(
    s: ServiceConfig,
    project: Seq<char>,
    service: Seq<char>,
    action: PullAction,
    dir: Seq<char>,
)
    ensures
        ({
            let p = project::plan_of(s, project, service, action, dir);
            &&& action == PullAction::Build ==> (p matches PlanView::Build {
                tag,
                context,
                dockerfile,
            } && tag == project + seq!['-'] + service + ":latest"@ && match s.build {
                None => context == dir && dockerfile == "Dockerfile"@,
                Some(BuildSpec::Simple(c)) => context == inherit::joined(dir, c@) && dockerfile
                    == "Dockerfile"@,
                Some(BuildSpec::Detailed { context: c, dockerfile: f }) => {
                    &&& c matches Some(c) ==> context == inherit::joined(dir, c@)
                    &&& f matches Some(f) ==> dockerfile == f@
                    &&& f is None ==> dockerfile == "Dockerfile"@
                },
            })
            &&& action != PullAction::Build ==> match s.image {
                Some(i) => p == PlanView::Fetch(i@),
                None => p is Neither,
            }
        }),
{
    reveal_strlit("-");
    assert("-"@ =~= seq!['-']);
}

} // verus!
