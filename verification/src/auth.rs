//! Credentials for registries, each kept for one host.

use vstd::prelude::*;
use vstd::slice::slice_subrange;
use vstd::utf8::{decode_utf8, encode_utf8, valid_utf8};

use crate::encode::{self, base64_bytes, base64_text};
use crate::inherit::{self, join_path};
use crate::json::{self, quote_json};
use crate::reference;
use crate::registry;
use crate::table::Table;
use crate::text::{self, chars_of, has_char, same, split_text, str_cut, str_split, str_trim, string_of};
use crate::unicode::{self, to_lower};

verus! {

/// The host of a server in lower case: what follows the scheme, up to the first slash; the
/// other names of Docker Hub are its own.
pub open spec fn host_of(s: Seq<char>) -> Seq<char> {
    let after = text::split(s, "://"@).last();
    let host = text::split(after, seq!['/'])[0];
    if host == "index.docker.io"@ || host == "registry-1.docker.io"@ {
        "docker.io"@
    } else {
        host
    }
}

/// What a server's credentials are kept under.
pub open spec fn server_key(server: Seq<char>) -> Seq<char> {
    host_of(unicode::lowered(text::trim(server)))
}

/// The host of a server that is written in lower case.
pub fn host_text(s: &str) -> (r: String)
    ensures
        r@ == host_of(s@),
{
    let cs: Vec<char> = chars_of(s);
    let sep: Vec<char> = chars_of("://");
    proof {
        reveal_strlit("://");
        text::lemma_split_join(s@, "://"@);
    }
    let parts: Vec<String> = split_text(cs.as_slice(), sep.as_slice());
    assert(text::texts(parts@).len() == parts@.len());
    assert(text::texts(parts@).last() == parts@[parts@.len() - 1]@);
    let segs: Vec<String> = str_split(parts[parts.len() - 1].as_str(), '/');
    assert(text::texts(segs@)[0] == segs@[0]@);
    let host: &str = segs[0].as_str();
    if same(host, "index.docker.io") || same(host, "registry-1.docker.io") {
        "docker.io".to_owned()
    } else {
        host.to_owned()
    }
}

/// What a server's credentials are kept under.
pub fn normalize_server(server: &str) -> (r: String)
    ensures
        r@ == server_key(server@),
{
    host_text(to_lower(str_trim(server).as_str()).as_str())
}

/// The first part of an image's name, where others follow and it is a host.
pub open spec fn host_part(image: Seq<char>) -> Option<Seq<char>> {
    let first = text::split(image, seq!['/'])[0];
    if text::split(image, seq!['/']).len() < 2 {
        None
    } else if text::contains(first, seq!['.']) || text::contains(first, seq![':']) || first
        == "localhost"@ {
        Some(first)
    } else {
        None
    }
}

pub open spec fn image_server(image: Seq<char>) -> Seq<char> {
    match host_part(image) {
        Some(h) => server_key(h),
        None => "docker.io"@,
    }
}

/// The host that an image comes from.
pub fn registry_host_for_image(image: &str) -> (r: String)
    ensures
        r@ == image_server(image@),
{
    let segs: Vec<String> = str_split(image, '/');
    assert(text::texts(segs@)[0] == segs@[0]@);
    assert(text::texts(segs@).len() == segs@.len());
    let first: &str = segs[0].as_str();
    let cs: Vec<char> = chars_of(first);
    if segs.len() < 2 {
        "docker.io".to_owned()
    } else if has_char(cs.as_slice(), '.') || has_char(cs.as_slice(), ':') || same(first, "localhost") {
        normalize_server(first)
    } else {
        "docker.io".to_owned()
    }
}

/// The credentials for one host.
#[derive(Debug, Clone, Default)]
pub struct StoredAuth {
    pub username: String,
    pub password: String,
    /// `user:password` in base64, as other clients write it.
    pub auth: String,
}

/// The credentials of every host.
#[derive(Debug, Clone, Default)]
pub struct AuthFile {
    pub auths: Table<StoredAuth>,
}

/// The name and the password that `user:password` in base64 writes.
pub open spec fn pair_in(auth: Seq<char>) -> Option<(Seq<char>, Seq<char>)> {
    match encode::base64_read(text::trim(auth)) {
        Some(b) => pair_of_bytes(b),
        None => None,
    }
}

pub open spec fn pair_of_bytes(b: Seq<u8>) -> Option<(Seq<char>, Seq<char>)> {
    if valid_utf8(b) {
        text::split_once(decode_utf8(b), seq![':'])
    } else {
        None
    }
}

/// The name and the password that an entry holds.
pub open spec fn credentials_in(e: StoredAuth) -> Option<(Seq<char>, Seq<char>)> {
    if e.username@.len() > 0 || e.password@.len() > 0 {
        Some((e.username@, e.password@))
    } else if e.auth@.len() > 0 {
        pair_in(e.auth@)
    } else {
        None
    }
}

/// The credentials that are kept for a server.
pub open spec fn credentials(f: AuthFile, server: Seq<char>) -> Option<(Seq<char>, Seq<char>)> {
    match f.auths.at(server_key(server)) {
        Some(e) => credentials_in(e),
        None => None,
    }
}

/// `String::from_utf8`: the text that the bytes encode; `None` where they are no UTF-8.
#[verifier::external_body]
fn utf8_text(b: Vec<u8>) -> (r: Option<String>)
    ensures
        match r {
            Some(s) => valid_utf8(b@) && s@ == decode_utf8(b@),
            None => !valid_utf8(b@),
        },
{
    String::from_utf8(b).ok()
}

/// The name and the password that bytes write as `user:password`.
pub fn pair_from_bytes(b: Vec<u8>) -> (r: Option<(String, String)>)
    ensures
        match r {
            Some((u, p)) => pair_of_bytes(b@) == Some((u@, p@)),
            None => pair_of_bytes(b@) is None,
        },
{
    match utf8_text(b) {
        Some(s) => str_cut(s.as_str(), ':'),
        None => None,
    }
}

pub open spec fn opt_pair(o: Option<(String, String)>) -> Option<(Seq<char>, Seq<char>)> {
    match o {
        Some((a, b)) => Some((a@, b@)),
        None => None,
    }
}

/// The name and the password that an entry holds.
pub fn stored_credentials(e: &StoredAuth) -> (r: Option<(String, String)>)
    ensures
        opt_pair(r) == credentials_in(*e),
{
    if !e.username.as_str().is_empty() || !e.password.as_str().is_empty() {
        return Some((e.username.clone(), e.password.clone()));
    }
    if e.auth.as_str().is_empty() {
        return None;
    }
    match base64_bytes(str_trim(e.auth.as_str()).as_str()) {
        Some(b) => pair_from_bytes(b),
        None => None,
    }
}

/// What a client sends a registry's credentials as: JSON, its keys in order.
pub open spec fn header_json(user: Seq<char>, password: Seq<char>, server: Seq<char>) -> Seq<char> {
    "{\"password\":"@ + json::json_quoted(password) + ",\"serveraddress\":"@ + json::json_quoted(
        server,
    ) + ",\"username\":"@ + json::json_quoted(user) + "}"@
}

/// The header of credentials.
pub fn auth_header(user: &str, password: &str, server: &str) -> (r: String)
    ensures
        r@ == encode::base64_shown(encode_utf8(header_json(user@, password@, server@))),
        encode::base64_read(r@) == Some(encode_utf8(header_json(user@, password@, server@))),
{
    let mut s: String = "{\"password\":".to_owned();
    s.append(quote_json(password).as_str());
    s.append(",\"serveraddress\":");
    s.append(quote_json(server).as_str());
    s.append(",\"username\":");
    s.append(quote_json(user).as_str());
    s.append("}");
    base64_text(s.as_str().as_bytes())
}

/// Keeps the credentials for a server.
pub fn store(file: &mut AuthFile, server: &str, username: &str, password: &str) -> (r: Result<
    (),
    String,
>)
    ensures
        match r {
            Ok(_) => {
                &&& username@.len() > 0
                &&& final(file).auths.at(server_key(server@)) matches Some(e)
                &&& e.username@ == username@
                &&& e.password@ == password@
                &&& e.auth@.len() == 0
                &&& forall|k: Seq<char>| k != server_key(server@) ==> #[trigger] final(file).auths.at(k) == old(file).auths.at(k)
            },
            Err(e) => username@.len() == 0 && e@ == "username must not be empty"@
                && *final(file) == *old(file),
        },
{
    if username.is_empty() {
        return Err("username must not be empty".to_owned());
    }
    file.auths.insert(
        normalize_server(server),
        StoredAuth {
            username: username.to_owned(),
            password: password.to_owned(),
            auth: String::new(),
        },
    );
    Ok(())
}

/// Forgets the credentials for a server; gives back whether there were any.
pub fn remove(file: &mut AuthFile, server: &str) -> (r: bool)
    ensures
        r == old(file).auths.has(server_key(server@)),
        final(file).auths.at(server_key(server@)) is None,
        forall|k: Seq<char>| k != server_key(server@) ==> #[trigger] final(file).auths.at(k)
            == old(file).auths.at(k),
{
    file.auths.remove(normalize_server(server).as_str())
}

impl AuthFile {
    /// The credentials that are kept for a server.
    pub fn credentials_for(&self, server: &str) -> (r: Option<(String, String)>)
        ensures
            opt_pair(r) == credentials(*self, server@),
    {
        match self.auths.get(normalize_server(server).as_str()) {
            Some(e) => stored_credentials(e),
            None => None,
        }
    }

    /// The header for the registry that an image comes from, where there are credentials
    /// for it.
    pub fn auth_header_for_image(&self, image: &str) -> (r: Option<String>)
        ensures
            reference::opt_text(r) == match credentials(*self, image_server(image@)) {
                Some((u, p)) => Some(
                    encode::base64_shown(encode_utf8(header_json(u, p, image_server(image@)))),
                ),
                None => None,
            },
    {
        let server: String = registry_host_for_image(image);
        match self.credentials_for(server.as_str()) {
            Some((u, p)) => Some(auth_header(u.as_str(), p.as_str(), server.as_str())),
            None => None,
        }
    }
}

/// What is kept for a server is found again under every name of the server, and nothing
/// else is sent to another one.
pub proof fn law_credentials_stay_with_their_host(
    before: AuthFile,
    after: AuthFile,
    server: Seq<char>,
    user: Seq<char>,
    password: Seq<char>,
    other: Seq<char>,
)
    requires
        user.len() > 0,
        after.auths.at(server_key(server)) matches Some(e) && e.username@ == user && e.password@
            == password && e.auth@.len() == 0,
        forall|k: Seq<char>| k != server_key(server) ==> #[trigger] after.auths.at(k)
            == before.auths.at(k),
    ensures
        server_key(other) == server_key(server) ==> credentials(after, other) == Some(
            (user, password),
        ),
        server_key(other) != server_key(server) ==> credentials(after, other) == credentials(
            before,
            other,
        ),
{
}

/// `user:password` in base64 is read back, where the name holds no colon.
pub proof fn law_pair_reads_back(user: Seq<char>, password: Seq<char>)
    requires
        !user.contains(':'),
    ensures
        pair_of_bytes(encode_utf8(user + seq![':'] + password)) == Some((user, password)),
{
    let s = user + seq![':'] + password;
    vstd::utf8::encode_utf8_valid_utf8(s);
    vstd::utf8::encode_utf8_decode_utf8(s);
    let k = user.len() as int;
    assert forall|j: int| 0 <= j < k implies s[j] != ':' by {
        assert(s[j] == user[j]);
    }
    text::lemma_found_char(s, ':', k);
    assert(s.take(k) =~= user);
    assert(s.skip(k + 1int) =~= password);
}

/// Where credentials are kept: below the directory for configuration, or the home.
pub open spec fn auth_path(config: Option<Seq<char>>, home: Option<Seq<char>>) -> Result<
    Seq<char>,
    Seq<char>,
> {
    if config is Some && config->0.len() > 0 {
        Ok(inherit::joined(config->0, "ingot/auth.json"@))
    } else {
        match home {
            Some(h) => Ok(inherit::joined(h, ".config/ingot/auth.json"@)),
            None => Err("HOME is not set"@),
        }
    }
}

/// Where credentials are kept, given `XDG_CONFIG_HOME` and `HOME`.
pub fn auth_file_path(config: Option<&str>, home: Option<&str>) -> (r: Result<String, String>)
    ensures
        ({
            let p = auth_path(registry::opt_str(config), registry::opt_str(home));
            match r {
                Ok(s) => p == Ok::<Seq<char>, Seq<char>>(s@),
                Err(e) => p == Err::<Seq<char>, Seq<char>>(e@),
            }
        }),
{
    if let Some(c) = config {
        if !c.is_empty() {
            return Ok(join_path(c, "ingot/auth.json"));
        }
    }
    match home {
        Some(h) => Ok(join_path(h, ".config/ingot/auth.json")),
        None => Err("HOME is not set".to_owned()),
    }
}

// ---------------------------------------------------------------- what is typed

/// A typed line without its line end.
pub open spec fn typed(line: Seq<char>) -> Seq<char>
    decreases line.len(),
{
    if line.len() > 0 && (line.last() == '\r' || line.last() == '\n') {
        typed(line.drop_last())
    } else {
        line
    }
}

/// A typed line without its line end.
pub fn typed_text(line: &str) -> (r: String)
    ensures
        r@ == typed(line@),
{
    let cs: Vec<char> = chars_of(line);
    let mut n: usize = cs.len();
    assert(line@.take(n as int) =~= line@);
    while n > 0 && (cs[n - 1] == '\r' || cs[n - 1] == '\n')
        invariant
            n <= cs.len(),
            cs@ == line@,
            typed(line@) == typed(line@.take(n as int)),
        decreases n,
    {
        assert(line@.take(n as int).drop_last() =~= line@.take(n - 1));
        n -= 1;
    }
    let r: String = string_of(slice_subrange(cs.as_slice(), 0, n));
    assert(r@ =~= line@.take(n as int));
    r
}

} // verus!
