//! Exchanges with a registry: where requests go, how they are authorised, what a reply
//! means and when to try again.

use vstd::prelude::*;
use vstd::slice::slice_subrange;
use vstd::utf8::encode_utf8;

use crate::api::system::AuthConfig;
use crate::dns::{self, lossy_text};
use crate::encode::{self, Received, base64_text, digest_of, pct_encode};
use crate::json::{self, is_document, item_pointer, items_at, key_pointer, keys_at, text_at};
use crate::network::{self, add_word, can_cut, first_bytes};
use crate::num::{self, decimal_text, parse_signed, parse_unsigned};
use crate::order::{self, sort_unique};
use crate::reference::{self, ImageRef, Reference};
use crate::table::Table;
use crate::text::{self, chars_of, has_char, has_prefix, is_among, join_text, one_char, same, split_text, str_contains, str_cut, str_split, str_starts, str_strip_prefix, str_trim, str_trim_char, string_of, strip_ends_text, trim_text};
use crate::unicode::{self, quote, to_lower};

verus! {

/// What a manifest may be: an index or a manifest, of either family.
pub const MANIFEST_ACCEPT: &'static str =
    "application/vnd.oci.image.index.v1+json, application/vnd.docker.distribution.manifest.list.v2+json, application/vnd.oci.image.manifest.v1+json, application/vnd.docker.distribution.manifest.v2+json";

/// How often a fetch is tried with one registry.
pub const MAX_FETCH_ATTEMPTS: u32 = 4;

/// How many seconds a connection may take to come about.
pub const CONNECT_TIMEOUT: u64 = 30;

/// How many seconds may pass between two parts of a body.
pub const READ_IDLE_TIMEOUT: u64 = 60;

/// How many seconds a manifest or a token may take.
pub const METADATA_TIMEOUT: u64 = 60;

// ---------------------------------------------------------------- trying again

/// The seconds to wait before another try: one, two, four, then eight.
pub open spec fn backoff(attempt: int) -> nat {
    if attempt <= 1 {
        1
    } else if attempt == 2 {
        2
    } else if attempt == 3 {
        4
    } else {
        8
    }
}

pub fn blob_backoff(attempt: u32) -> (r: u64)
    ensures
        r == backoff(attempt as int),
{
    if attempt <= 1 {
        1
    } else if attempt == 2 {
        2
    } else if attempt == 3 {
        4
    } else {
        8
    }
}

/// The wait grows from try to try and is never more than eight seconds.
pub proof fn law_backoff_grows_and_caps(a: int, b: int)
    requires
        a <= b,
    ensures
        1 <= backoff(a) <= backoff(b) <= 8,
        1 <= a < b <= 4 ==> backoff(a) < backoff(b),
{
}

pub open spec fn is_success(status: int) -> bool {
    200 <= status <= 299
}

/// A status after which another try can help.
pub open spec fn is_transient(status: int) -> bool {
    status == 429 || 500 <= status <= 599
}

pub fn success(status: u16) -> (r: bool)
    ensures
        r == is_success(status as int),
{
    200 <= status && status <= 299
}

pub fn transient(status: u16) -> (r: bool)
    ensures
        r == is_transient(status as int),
{
    status == 429 || (500 <= status && status <= 599)
}

/// Why one try failed, and whether another one can help.
#[derive(Debug)]
pub struct AttemptError {
    pub retryable: bool,
    /// The seconds that the registry asks to wait.
    pub retry_after: u64,
    pub message: String,
}

#[verifier::ext_equal]
pub struct Failure {
    pub retryable: bool,
    pub retry_after: nat,
    pub message: Seq<char>,
}

impl View for AttemptError {
    type V = Failure;

    open spec fn view(&self) -> Failure {
        Failure {
            retryable: self.retryable,
            retry_after: self.retry_after as nat,
            message: self.message@,
        }
    }
}

pub open spec fn failed(retryable: bool, retry_after: nat, message: Seq<char>) -> Failure {
    Failure { retryable, retry_after, message }
}

impl AttemptError {
    pub fn fatal(message: String) -> (r: AttemptError)
        ensures
            r@ == failed(false, 0, message@),
    {
        AttemptError { retryable: false, retry_after: 0, message }
    }

    pub fn retryable(message: String) -> (r: AttemptError)
        ensures
            r@ == failed(true, 0, message@),
    {
        AttemptError { retryable: true, retry_after: 0, message }
    }

    pub fn retryable_after(message: String, retry_after: u64) -> (r: AttemptError)
        ensures
            r@ == failed(true, retry_after as nat, message@),
    {
        AttemptError { retryable: true, retry_after, message }
    }

    /// A failure that is worth another try where the connection is at fault.
    pub fn transport(message: String, is_transport: bool) -> (r: AttemptError)
        ensures
            r@ == failed(is_transport, 0, message@),
    {
        AttemptError { retryable: is_transport, retry_after: 0, message }
    }
}

/// The seconds that a `Retry-After` header asks for, thirty at most; none where it writes
/// no number.
pub open spec fn retry_after(header: Option<Seq<char>>) -> nat {
    match header {
        Some(h) => match num::unsigned(text::trim(h), u64::MAX as nat) {
            Some(n) => if n < 30 {
                n
            } else {
                30
            },
            None => 0,
        },
        None => 0,
    }
}

pub open spec fn opt_str(o: Option<&str>) -> Option<Seq<char>> {
    match o {
        Some(s) => Some(s@),
        None => None,
    }
}

pub fn retry_after_secs(header: Option<&str>) -> (r: u64)
    ensures
        r == retry_after(opt_str(header)),
        r <= 30,
{
    match header {
        Some(h) => {
            let cs: Vec<char> = chars_of(h);
            match parse_unsigned(trim_text(cs.as_slice()), u64::MAX) {
                Some(n) => if n < 30 {
                    n
                } else {
                    30
                },
                None => 0,
            }
        },
        None => 0,
    }
}

/// The milliseconds to wait after a failed try before the next, where there is one.
pub open spec fn wait_after(attempt: int, e: Failure, honours_header: bool, jitter: bool) -> Option<
    nat,
> {
    if e.retryable && attempt < 4 {
        let b = backoff(attempt);
        let secs = if honours_header && e.retry_after > b {
            e.retry_after
        } else {
            b
        };
        Some(
            1000 * secs + if jitter {
                (attempt * 97 % 250) as nat
            } else {
                0
            },
        )
    } else {
        None
    }
}

fn wait_ms(attempt: u32, e: &AttemptError, honours_header: bool, jitter: bool) -> (r: Option<u64>)
    requires
        e.retry_after <= 30,
    ensures
        match r {
            Some(ms) => wait_after(attempt as int, e@, honours_header, jitter) == Some(ms as nat),
            None => wait_after(attempt as int, e@, honours_header, jitter) is None,
        },
{
    if e.retryable && attempt < MAX_FETCH_ATTEMPTS {
        let b: u64 = blob_backoff(attempt);
        let secs: u64 = if honours_header && e.retry_after > b {
            e.retry_after
        } else {
            b
        };
        let j: u64 = if jitter {
            (attempt as u64 * 97) % 250
        } else {
            0
        };
        Some(1000 * secs + j)
    } else {
        None
    }
}

/// The wait before a manifest is asked for again.
pub fn manifest_wait(attempt: u32, e: &AttemptError) -> (r: Option<u64>)
    requires
        e.retry_after <= 30,
    ensures
        match r {
            Some(ms) => wait_after(attempt as int, e@, false, false) == Some(ms as nat),
            None => wait_after(attempt as int, e@, false, false) is None,
        },
{
    wait_ms(attempt, e, false, false)
}

/// The wait before a blob is asked for again: what the registry asks for counts, and a
/// few milliseconds keep clients apart.
pub fn blob_wait(attempt: u32, e: &AttemptError) -> (r: Option<u64>)
    requires
        e.retry_after <= 30,
    ensures
        match r {
            Some(ms) => wait_after(attempt as int, e@, true, true) == Some(ms as nat),
            None => wait_after(attempt as int, e@, true, true) is None,
        },
{
    wait_ms(attempt, e, true, true)
}

/// The wait before something is pushed again.
pub fn push_wait(attempt: u32, e: &AttemptError) -> (r: Option<u64>)
    requires
        e.retry_after <= 30,
    ensures
        match r {
            Some(ms) => wait_after(attempt as int, e@, true, false) == Some(ms as nat),
            None => wait_after(attempt as int, e@, true, false) is None,
        },
{
    wait_ms(attempt, e, true, false)
}

/// Nothing is tried more than four times, a failure that no try can mend not twice, and
/// no wait is longer than thirty seconds and a quarter.
pub proof fn law_tries_are_bounded(attempt: int, e: Failure, honours_header: bool, jitter: bool)
    requires
        e.retry_after <= 30,
    ensures
        attempt >= 4 || !e.retryable ==> wait_after(attempt, e, honours_header, jitter) is None,
        wait_after(attempt, e, honours_header, jitter) matches Some(ms) ==> 1000 <= ms < 30250,
{
}

// ---------------------------------------------------------------- messages

/// The text, cut after `n` bytes with an ellipsis where it is longer.
pub open spec fn truncated(s: Seq<char>, n: int) -> Seq<char> {
    if encode_utf8(s).len() <= n {
        s
    } else {
        network::byte_prefix(s, n) + "…"@
    }
}

pub fn truncate(s: &str, n: usize) -> (r: String)
    requires
        network::cuts_at(s@, n as int),
    ensures
        r@ == truncated(s@, n as int),
{
    if s.as_bytes().len() <= n {
        s.to_owned()
    } else {
        let mut r: String = first_bytes(s, n);
        r.append("…");
        r
    }
}

/// What a message about certificates or a handshake speaks of.
pub open spec fn speaks_of_tls(msg: Seq<char>) -> bool {
    let m = unicode::lowered(msg);
    ||| text::contains(m, "certificate"@)
    ||| text::contains(m, "unknown issuer"@)
    ||| text::contains(m, "self signed"@)
    ||| text::contains(m, "handshake"@)
    ||| text::contains(m, "ssl"@)
    ||| text::contains(m, "tls"@)
}

pub const TLS_HINT: &'static str =
    "TLS: check system CA certificates, proxy settings and clock; registries with self-signed certificates are unsupported";

/// What is added to a failure whose message speaks of certificates or a handshake.
pub fn tls_hint_for_message(msg: &str) -> (r: Option<&'static str>)
    ensures
        match r {
            Some(h) => speaks_of_tls(msg@) && h@ == TLS_HINT@,
            None => !speaks_of_tls(msg@),
        },
{
    let m: String = to_lower(msg);
    if hints_at_tls(m.as_str()) {
        Some(TLS_HINT)
    } else {
        None
    }
}

/// Whether text in lower case speaks of certificates or a handshake.
pub fn hints_at_tls(m: &str) -> (r: bool)
    ensures
        r == (text::contains(m@, "certificate"@) || text::contains(m@, "unknown issuer"@)
            || text::contains(m@, "self signed"@) || text::contains(m@, "handshake"@)
            || text::contains(m@, "ssl"@) || text::contains(m@, "tls"@)),
{
    str_contains(m, "certificate") || str_contains(m, "unknown issuer") || str_contains(
        m,
        "self signed",
    ) || str_contains(m, "handshake") || str_contains(m, "ssl") || str_contains(m, "tls")
}

/// The context of a failed connection, with the hint where it fits.
pub fn with_transport_hint(context: &str, detail: &str) -> (r: String)
    ensures
        r@ == if speaks_of_tls(detail@) {
            context@ + " ("@ + TLS_HINT@ + ")"@
        } else {
            context@
        },
{
    let mut r: String = context.to_owned();
    if let Some(h) = tls_hint_for_message(detail) {
        r.append(" (");
        r.append(h);
        r.append(")");
    }
    r
}

// ---------------------------------------------------------------- where requests go

/// The host's name without its port, and without the brackets of an IPv6 address.
pub open spec fn host_name(host: Seq<char>) -> Seq<char> {
    if text::starts_with(host, seq!['[']) {
        text::split(host.skip(1), seq![']'])[0]
    } else if text::split(host, seq![':']).len() == 2 {
        text::split(host, seq![':'])[0]
    } else {
        host
    }
}

pub open spec fn is_loopback_name(name: Seq<char>) -> bool {
    name == "localhost"@ || name == "127.0.0.1"@ || name == "::1"@
}

/// The URL of a registry: plain HTTP for this very host, HTTPS for any other.
pub open spec fn url_of(host: Seq<char>) -> Seq<char> {
    if is_loopback_name(host_name(host)) {
        "http://"@ + host
    } else {
        "https://"@ + host
    }
}

pub fn base_url(host: &str) -> (r: String)
    ensures
        r@ == url_of(host@),
{
    let cs: Vec<char> = chars_of(host);
    let colons: Vec<String> = str_split(host, ':');
    let name: String = if has_prefix(cs.as_slice(), one_char('[').as_slice()) {
        let inner = slice_subrange(cs.as_slice(), 1, cs.len());
        assert(inner@ =~= host@.skip(1));
        let parts: Vec<String> = split_text(inner, one_char(']').as_slice());
        proof {
            text::lemma_split_join(host@.skip(1), seq![']']);
        }
        assert(text::texts(parts@).len() == parts@.len());
        assert(text::texts(parts@)[0] == parts@[0]@);
        parts[0].clone()
    } else if colons.len() == 2 {
        assert(text::texts(colons@)[0] == colons@[0]@);
        colons[0].clone()
    } else {
        host.to_owned()
    };
    assert(text::texts(colons@).len() == colons@.len());
    let n: &str = name.as_str();
    let mut r: String = if same(n, "localhost") || same(n, "127.0.0.1") || same(n, "::1") {
        "http://".to_owned()
    } else {
        "https://".to_owned()
    };
    r.append(host);
    r
}

/// The registry's own URL.
pub open spec fn canonical(registry: Seq<char>) -> Seq<char> {
    if registry == "docker.io"@ {
        "https://registry-1.docker.io"@
    } else {
        url_of(registry)
    }
}

/// The mirrors of a comma-separated list, without blanks.
pub open spec fn mirrors_to(parts: Seq<Seq<char>>, n: int) -> Seq<Seq<char>>
    decreases n,
{
    if n <= 0 {
        Seq::empty()
    } else if text::trim(parts[n - 1]).len() > 0 {
        mirrors_to(parts, n - 1).push(text::trim(parts[n - 1]))
    } else {
        mirrors_to(parts, n - 1)
    }
}

pub open spec fn mirrors(env: Option<Seq<char>>) -> Seq<Seq<char>> {
    match env {
        Some(v) => mirrors_to(text::split(v, seq![',']), text::split(v, seq![',']).len() as int),
        None => Seq::empty(),
    }
}

pub fn registry_mirrors_from(env: Option<&str>) -> (r: Vec<String>)
    ensures
        text::texts(r@) == mirrors(opt_str(env)),
{
    let mut out: Vec<String> = Vec::new();
    assert(text::texts(out@) =~= Seq::empty());
    if let Some(v) = env {
        let parts: Vec<String> = str_split(v, ',');
        let ghost pv = text::split(v@, seq![',']);
        let mut i: usize = 0;
        while i < parts.len()
            invariant
                i <= parts.len(),
                text::texts(parts@) == pv,
                text::texts(out@) == mirrors_to(pv, i as int),
            decreases parts.len() - i,
        {
            assert(pv[i as int] == parts@[i as int]@);
            let t: String = str_trim(parts[i].as_str());
            if !t.as_str().is_empty() {
                add_word(&mut out, t.as_str());
            }
            i += 1;
        }
    }
    out
}

/// The URL of a mirror: as it stands where it is one, without slashes at its end.
pub open spec fn mirror_url(m: Seq<char>) -> Seq<char> {
    if text::contains(m, "://"@) {
        text::strip_ends(m, seq!['/'])
    } else {
        url_of(m)
    }
}

pub open spec fn add_new(v: Seq<Seq<char>>, x: Seq<char>) -> Seq<Seq<char>> {
    if v.contains(x) {
        v
    } else {
        v.push(x)
    }
}

/// The URLs of the first `n` mirrors, each once.
pub open spec fn mirror_urls(ms: Seq<Seq<char>>, n: int) -> Seq<Seq<char>>
    decreases n,
{
    if n <= 0 {
        Seq::empty()
    } else {
        add_new(mirror_urls(ms, n - 1), mirror_url(ms[n - 1]))
    }
}

/// Where an image is looked for: the mirrors in their order, then its own registry.
pub open spec fn candidates(registry: Seq<char>, ms: Seq<Seq<char>>) -> Seq<Seq<char>> {
    add_new(mirror_urls(ms, ms.len() as int), canonical(registry))
}

fn push_new(v: &mut Vec<String>, x: &str)
    ensures
        text::texts(final(v)@) == add_new(text::texts(old(v)@), x@),
{
    if !is_among(v, x) {
        add_word(v, x);
    }
}

proof fn lemma_mirror_urls_distinct(ms: Seq<Seq<char>>, n: int)
    ensures
        mirror_urls(ms, n).no_duplicates(),
    decreases n,
{
    if n > 0 {
        lemma_mirror_urls_distinct(ms, n - 1);
    }
}

/// No registry is asked twice, and the image's own is always asked.
pub proof fn law_candidates_distinct(registry: Seq<char>, ms: Seq<Seq<char>>)
    ensures
        candidates(registry, ms).no_duplicates(),
        candidates(registry, ms).contains(canonical(registry)),
{
    lemma_mirror_urls_distinct(ms, ms.len() as int);
    let a = mirror_urls(ms, ms.len() as int);
    let c = candidates(registry, ms);
    if !a.contains(canonical(registry)) {
        assert(c[c.len() - 1] == canonical(registry));
    }
}

/// What a registry asks of a client that it does not know.
#[derive(Debug)]
pub enum Challenge {
    Bearer { realm: String, service: String, scope: String },
    Basic,
}

#[verifier::ext_equal]
pub enum ChallengeView {
    Bearer { realm: Seq<char>, service: Seq<char>, scope: Seq<char> },
    Basic,
}

impl View for Challenge {
    type V = ChallengeView;

    open spec fn view(&self) -> ChallengeView {
        match self {
            Challenge::Bearer { realm, service, scope } => ChallengeView::Bearer {
                realm: realm@,
                service: service@,
                scope: scope@,
            },
            Challenge::Basic => ChallengeView::Basic,
        }
    }
}

/// The value of a parameter, where the part is `name=value` with that name.
pub open spec fn parameter(part: Seq<char>, name: Seq<char>) -> Option<Seq<char>> {
    match text::split_once(text::trim(part), seq!['=']) {
        Some((k, v)) => if text::trim(k) == name {
            Some(text::trim_char(v, '"'))
        } else {
            None
        },
        None => None,
    }
}

/// The value of a parameter among the first `n` parts: the last one counts.
pub open spec fn parameter_to(parts: Seq<Seq<char>>, name: Seq<char>, n: int) -> Seq<char>
    decreases n,
{
    if n <= 0 {
        Seq::empty()
    } else {
        match parameter(parts[n - 1], name) {
            Some(v) => v,
            None => parameter_to(parts, name, n - 1),
        }
    }
}

/// What a challenge says.
pub open spec fn challenge(header: Seq<char>) -> Result<ChallengeView, Seq<char>> {
    let h = text::trim(header);
    match text::strip_prefix(h, "Bearer"@) {
        Some(rest) => {
            let parts = text::split(rest, seq![',']);
            let n = parts.len() as int;
            let realm = parameter_to(parts, "realm"@, n);
            if realm.len() == 0 {
                Err("malformed bearer challenge: "@ + h)
            } else {
                Ok(
                    ChallengeView::Bearer {
                        realm,
                        service: parameter_to(parts, "service"@, n),
                        scope: parameter_to(parts, "scope"@, n),
                    },
                )
            }
        },
        None => if text::starts_with(h, "Basic"@) {
            Ok(ChallengeView::Basic)
        } else {
            Err("unsupported auth challenge: "@ + h)
        },
    }
}

fn read_parameter(part: &str, name: &str) -> (r: Option<String>)
    ensures
        reference::opt_text(r) == parameter(part@, name@),
{
    let t: String = str_trim(part);
    match str_cut(t.as_str(), '=') {
        Some((k, v)) => if same(str_trim(k.as_str()).as_str(), name) {
            Some(str_trim_char(v.as_str(), '"'))
        } else {
            None
        },
        None => None,
    }
}

fn last_parameter(parts: &Vec<String>, name: &str) -> (r: String)
    ensures
        r@ == parameter_to(text::texts(parts@), name@, parts@.len() as int),
{
    let ghost pv = text::texts(parts@);
    let mut n: usize = parts.len();
    while n > 0
        invariant
            n <= parts.len(),
            pv == text::texts(parts@),
            parameter_to(pv, name@, parts@.len() as int) == parameter_to(pv, name@, n as int),
        decreases n,
    {
        assert(pv[n - 1] == parts@[n - 1]@);
        if let Some(v) = read_parameter(parts[n - 1].as_str(), name) {
            return v;
        }
        n -= 1;
    }
    String::new()
}

// ---------------------------------------------------------------- authorisation

/// Tokens that registries have given out.
pub struct RegistryClient {
    pub tokens: Table<String>,
}

/// `user:password` in base64, behind `Basic`.
pub open spec fn basic_value(auth: AuthConfig) -> Seq<char> {
    "Basic "@ + encode::base64_shown(encode_utf8(auth.username@ + seq![':'] + auth.password@))
}

/// The header of a client that has a name.
pub open spec fn basic_header(auth: Option<&AuthConfig>) -> Option<Seq<char>> {
    match auth {
        Some(a) => if a.username@.len() > 0 {
            Some(basic_value(*a))
        } else {
            None
        },
        None => None,
    }
}

pub open spec fn user_of(auth: Option<&AuthConfig>) -> Seq<char> {
    match auth {
        Some(a) => a.username@,
        None => Seq::empty(),
    }
}

/// What a token is kept under: `realm|service|scope|user`.
pub open spec fn token_key(
    realm: Seq<char>,
    service: Seq<char>,
    scope: Seq<char>,
    user: Seq<char>,
) -> Seq<char> {
    realm + "|"@ + service + "|"@ + scope + "|"@ + user
}

/// Where a token is asked for.
pub open spec fn token_url(realm: Seq<char>, service: Seq<char>, scope: Seq<char>) -> Seq<char> {
    realm + "?service="@ + encode::pct(service) + (if scope.len() > 0 {
        "&scope="@ + encode::pct(scope)
    } else {
        Seq::empty()
    })
}

/// How a token is come by.
pub enum TokenStep {
    Cached(String),
    /// The token is asked for, and kept under the key.
    Ask { url: String, authorization: Option<String>, key: String },
}

/// The token in a reply: what stands under `token`, or where there is no such key, under
/// `access_token`.
pub open spec fn token_in(body: Seq<u8>) -> Option<Seq<char>> {
    if (json::json_keys(body, Seq::empty()) matches Some(ks) && ks.contains("token"@)) {
        json::json_text(body, "/token"@)
    } else {
        json::json_text(body, "/access_token"@)
    }
}

/// Why a request for a token was refused; what stands in the reply is told only to a
/// client with a name, or of another status.
pub open spec fn token_refusal(
    status: int,
    shown: Seq<char>,
    body: Seq<char>,
    user: Seq<char>,
) -> Seq<char> {
    if (status == 401 || status == 403) && user.len() == 0 {
        "repository requires authentication ("@ + shown
            + "); run `ig login` (or pass credentials) and retry"@
    } else {
        "token request failed ("@ + shown + "): "@ + truncated(body, 200)
    }
}

/// What a reply to a request for a token gives.
pub open spec fn token_reply(body: Seq<u8>) -> Result<Seq<char>, Seq<char>> {
    if !json::is_json(body) {
        Err("parse token response"@)
    } else {
        match token_in(body) {
            Some(t) => Ok(t),
            None => Err("token response missing token field"@),
        }
    }
}

/// The text of a reply's body.
pub fn body_text(body: &[u8]) -> (r: String)
    ensures
        r@ == dns::lossy(body@),
{
    lossy_text(body)
}

/// What a request is sent with again after it was refused.
pub enum AuthStep {
    Bearer { realm: String, service: String, scope: String },
    Basic(Option<String>),
}

/// What follows a refusal: the header is a must, and what it asks for is done. A pull
/// takes the scope that the registry names, where it names one; a push its own.
pub open spec fn authorisation(
    header: Option<Seq<char>>,
    url: Seq<char>,
    own_scope: Seq<char>,
    takes_named: bool,
) -> Result<ChallengeView, Seq<char>> {
    match header {
        Some(h) => match challenge(h) {
            Ok(ChallengeView::Bearer { realm, service, scope }) => Ok(
                ChallengeView::Bearer {
                    realm,
                    service,
                    scope: if takes_named && scope.len() > 0 {
                        scope
                    } else {
                        own_scope
                    },
                },
            ),
            Ok(c) => Ok(c),
            Err(e) => Err(e),
        },
        None => Err("401 without WWW-Authenticate from "@ + url),
    }
}

pub open spec fn pull_scope_of(repo: Seq<char>) -> Seq<char> {
    "repository:"@ + repo + ":pull"@
}

pub open spec fn push_scope_of(repo: Seq<char>) -> Seq<char> {
    "repository:"@ + repo + ":pull,push"@
}

impl RegistryClient {
    pub fn new() -> (r: RegistryClient)
        ensures
            forall|k: Seq<char>| #[trigger] dns::entry(r.tokens, k) is None,
    {
        RegistryClient { tokens: Table::new() }
    }

    /// The URL of an image's own registry.
    pub fn endpoint(image: &ImageRef) -> (r: String)
        ensures
            r@ == canonical(image@.registry),
    {
        if same(image.registry.as_str(), "docker.io") {
            "https://registry-1.docker.io".to_owned()
        } else {
            base_url(image.registry.as_str())
        }
    }

    /// Where an image is looked for, in order.
    pub fn candidate_endpoints(image: &ImageRef, mirrors: &Vec<String>) -> (r: Vec<String>)
        ensures
            text::texts(r@) == candidates(image@.registry, text::texts(mirrors@)),
    {
        let ghost ms = text::texts(mirrors@);
        let mut out: Vec<String> = Vec::new();
        let mut i: usize = 0;
        assert(text::texts(out@) =~= Seq::empty());
        while i < mirrors.len()
            invariant
                i <= mirrors.len(),
                ms == text::texts(mirrors@),
                text::texts(out@) == mirror_urls(ms, i as int),
            decreases mirrors.len() - i,
        {
            assert(ms[i as int] == mirrors@[i as int]@);
            let m: &str = mirrors[i].as_str();
            let u: String = if str_contains(m, "://") {
                let cs: Vec<char> = chars_of(m);
                string_of(strip_ends_text(cs.as_slice(), one_char('/').as_slice()))
            } else {
                base_url(m)
            };
            push_new(&mut out, u.as_str());
            i += 1;
        }
        push_new(&mut out, RegistryClient::endpoint(image).as_str());
        out
    }

    /// Reads what a registry asks of a client.
    pub fn parse_challenge(header: &str) -> (r: Result<Challenge, String>)
        ensures
            match r {
                Ok(c) => challenge(header@) == Ok::<ChallengeView, Seq<char>>(c@),
                Err(e) => challenge(header@) == Err::<ChallengeView, Seq<char>>(e@),
            },
    {
        let h: String = str_trim(header);
        match str_strip_prefix(h.as_str(), "Bearer") {
            Some(rest) => {
                let parts: Vec<String> = str_split(rest.as_str(), ',');
                assert(text::texts(parts@).len() == parts@.len());
                let realm: String = last_parameter(&parts, "realm");
                if realm.as_str().is_empty() {
                    let mut e: String = "malformed bearer challenge: ".to_owned();
                    e.append(h.as_str());
                    return Err(e);
                }
                Ok(
                    Challenge::Bearer {
                        realm,
                        service: last_parameter(&parts, "service"),
                        scope: last_parameter(&parts, "scope"),
                    },
                )
            },
            None => {
                if str_starts(h.as_str(), "Basic") {
                    Ok(Challenge::Basic)
                } else {
                    let mut e: String = "unsupported auth challenge: ".to_owned();
                    e.append(h.as_str());
                    Err(e)
                }
            },
        }
    }

    /// The header that names a client and its password.
    pub fn basic_auth_value(auth: &AuthConfig) -> (r: String)
        ensures
            r@ == basic_value(*auth),
            r@.len() >= 6 && r@.take(6) == "Basic "@,
            encode::base64_read(r@.skip(6)) == Some(
                encode_utf8(auth.username@ + seq![':'] + auth.password@),
            ),
    {
        let mut p: String = auth.username.clone();
        p.push(':');
        p.append(auth.password.as_str());
        assert(p@ =~= auth.username@ + seq![':'] + auth.password@);
        let mut r: String = "Basic ".to_owned();
        let b: String = base64_text(p.as_str().as_bytes());
        r.append(b.as_str());
        proof {
            reveal_strlit("Basic ");
            assert(r@.take(6) =~= "Basic "@);
            assert(r@.skip(6) =~= b@);
        }
        r
    }

    fn basic_of(auth: Option<&AuthConfig>) -> (r: Option<String>)
        ensures
            reference::opt_text(r) == basic_header(auth),
    {
        match auth {
            Some(a) => if a.username.as_str().is_empty() {
                None
            } else {
                Some(RegistryClient::basic_auth_value(a))
            },
            None => None,
        }
    }

    /// A token that is kept, or how to ask for one.
    pub fn bearer_token(
        &self,
        scope: &str,
        realm: &str,
        service: &str,
        auth: Option<&AuthConfig>,
    ) -> (r: TokenStep)
        ensures
            ({
                let k = token_key(realm@, service@, scope@, user_of(auth));
                match r {
                    TokenStep::Cached(t) => dns::entry(self.tokens, k) == Some(t@),
                    TokenStep::Ask { url, authorization, key } => {
                        &&& dns::entry(self.tokens, k) is None
                        &&& key@ == k
                        &&& url@ == token_url(realm@, service@, scope@)
                        &&& reference::opt_text(authorization) == basic_header(auth)
                    },
                }
            }),
    {
        let mut key: String = realm.to_owned();
        key.append("|");
        key.append(service);
        key.append("|");
        key.append(scope);
        key.append("|");
        if let Some(a) = auth {
            key.append(a.username.as_str());
        }
        assert(key@ =~= token_key(realm@, service@, scope@, user_of(auth)));
        if let Some(t) = self.tokens.get(key.as_str()) {
            return TokenStep::Cached(t.clone());
        }
        let mut url: String = realm.to_owned();
        url.append("?service=");
        url.append(pct_encode(service).as_str());
        if !scope.is_empty() {
            url.append("&scope=");
            url.append(pct_encode(scope).as_str());
        }
        assert(url@ =~= token_url(realm@, service@, scope@));
        TokenStep::Ask { url, authorization: RegistryClient::basic_of(auth), key }
    }

    /// Why a request for a token was refused.
    pub fn token_refused(
        status: u16,
        shown: &str,
        body: &str,
        auth: Option<&AuthConfig>,
    ) -> (r: String)
        requires
            ((status == 401 || status == 403) && user_of(auth).len() == 0) || network::cuts_at(
                body@,
                200,
            ),
        ensures
            r@ == token_refusal(status as int, shown@, body@, user_of(auth)),
    {
        let anonymous: bool = match auth {
            Some(a) => a.username.as_str().is_empty(),
            None => true,
        };
        if (status == 401 || status == 403) && anonymous {
            let mut e: String = "repository requires authentication (".to_owned();
            e.append(shown);
            e.append("); run `ig login` (or pass credentials) and retry");
            return e;
        }
        let mut e: String = "token request failed (".to_owned();
        e.append(shown);
        e.append("): ");
        e.append(truncate(body, 200).as_str());
        e
    }

    /// Takes the token out of a reply, and keeps it.
    pub fn token_answered(&mut self, key: String, body: &[u8]) -> (r: Result<String, String>)
        ensures
            match r {
                Ok(x) => token_reply(body@) == Ok::<Seq<char>, Seq<char>>(x@),
                Err(e) => token_reply(body@) == Err::<Seq<char>, Seq<char>>(e@),
            },
            forall|k: Seq<char>| #[trigger]
                dns::entry(final(self).tokens, k) == if r is Ok && k == key@ {
                    Some(r->Ok_0@)
                } else {
                    dns::entry(old(self).tokens, k)
                },
    {
        if !is_document(body) {
            return Err("parse token response".to_owned());
        }
        proof {
            reveal_strlit("");
            assert(""@ =~= Seq::empty());
        }
        let named: bool = match keys_at(body, "") {
            Some(ks) => is_among(&ks, "token"),
            None => false,
        };
        let found: Option<String> = if named {
            text_at(body, "/token")
        } else {
            text_at(body, "/access_token")
        };
        match found {
            Some(t) => {
                let ghost before = self.tokens;
                self.tokens.insert(key, t.clone());
                assert forall|k: Seq<char>| #[trigger]
                    dns::entry(self.tokens, k) == if k == key@ {
                        Some(t@)
                    } else {
                        dns::entry(before, k)
                    } by {
                    if k != key@ {
                        assert(self.tokens.at(k) == before.at(k));
                    }
                }
                Ok(t)
            },
            None => Err("token response missing token field".to_owned()),
        }
    }

    /// What a request is sent with again after it was refused.
    pub fn authorize(
        header: Option<&str>,
        url: &str,
        own_scope: &str,
        takes_named: bool,
        auth: Option<&AuthConfig>,
    ) -> (r: Result<AuthStep, String>)
        ensures
            ({
                let a = authorisation(opt_str(header), url@, own_scope@, takes_named);
                match r {
                    Ok(AuthStep::Bearer { realm, service, scope }) => a == Ok::<
                        ChallengeView,
                        Seq<char>,
                    >(
                        ChallengeView::Bearer { realm: realm@, service: service@, scope: scope@ },
                    ),
                    Ok(AuthStep::Basic(h)) => a == Ok::<ChallengeView, Seq<char>>(
                        ChallengeView::Basic,
                    ) && reference::opt_text(h) == basic_header(auth),
                    Err(e) => a == Err::<ChallengeView, Seq<char>>(e@),
                }
            }),
    {
        let h: &str = match header {
            Some(h) => h,
            None => {
                let mut e: String = "401 without WWW-Authenticate from ".to_owned();
                e.append(url);
                return Err(e);
            },
        };
        match RegistryClient::parse_challenge(h) {
            Ok(Challenge::Bearer { realm, service, scope }) => {
                let chosen: String = if takes_named && !scope.as_str().is_empty() {
                    scope
                } else {
                    own_scope.to_owned()
                };
                Ok(AuthStep::Bearer { realm, service, scope: chosen })
            },
            Ok(Challenge::Basic) => Ok(AuthStep::Basic(RegistryClient::basic_of(auth))),
            Err(e) => Err(e),
        }
    }

    /// The scope of a token for pulls.
    pub fn pull_scope(image: &ImageRef) -> (r: String)
        ensures
            r@ == pull_scope_of(image@.repo),
    {
        let mut s: String = "repository:".to_owned();
        s.append(image.api_repo());
        s.append(":pull");
        s
    }

    /// The scope of a token for pushes, which look for blobs too.
    pub fn push_scope(image: &ImageRef) -> (r: String)
        ensures
            r@ == push_scope_of(image@.repo),
    {
        let mut s: String = "repository:".to_owned();
        s.append(image.api_repo());
        s.append(":pull,push");
        s
    }
}

/// A push never takes the scope that a challenge names; a pull only where it names one.
pub proof fn law_push_keeps_its_scope(
    header: Seq<char>,
    url: Seq<char>,
    own: Seq<char>,
    realm: Seq<char>,
    service: Seq<char>,
    named: Seq<char>,
)
    requires
        challenge(header) == Ok::<ChallengeView, Seq<char>>(
            ChallengeView::Bearer { realm, service, scope: named },
        ),
    ensures
        authorisation(Some(header), url, own, false) == Ok::<ChallengeView, Seq<char>>(
            ChallengeView::Bearer { realm, service, scope: own },
        ),
        authorisation(Some(header), url, own, true) == Ok::<ChallengeView, Seq<char>>(
            ChallengeView::Bearer {
                realm,
                service,
                scope: if named.len() > 0 {
                    named
                } else {
                    own
                },
            },
        ),
{
}

// ---------------------------------------------------------------- manifests

/// A blob that a manifest names.
#[derive(Debug, Clone)]
pub struct Descriptor {
    pub media_type: String,
    pub digest: String,
    pub size: i64,
}

#[verifier::ext_equal]
pub struct DescriptorView {
    pub media_type: Seq<char>,
    pub digest: Seq<char>,
    pub size: i64,
}

impl View for Descriptor {
    type V = DescriptorView;

    open spec fn view(&self) -> DescriptorView {
        DescriptorView { media_type: self.media_type@, digest: self.digest@, size: self.size }
    }
}

pub open spec fn descriptor_views(v: Seq<Descriptor>) -> Seq<DescriptorView> {
    Seq::new(v.len(), |i: int| v[i]@)
}

/// The platform of one entry of an index.
#[derive(Debug, Clone)]
pub struct Platform {
    pub architecture: Option<String>,
    pub os: Option<String>,
}

/// A manifest that an index names.
#[derive(Debug, Clone)]
pub struct IndexEntry {
    pub media_type: String,
    pub digest: String,
    pub platform: Option<Platform>,
}

/// A manifest or an index, as it was served.
#[derive(Debug, Clone)]
pub struct RawManifest {
    pub media_type: String,
    pub config: Option<Descriptor>,
    pub layers: Vec<Descriptor>,
    pub manifests: Vec<IndexEntry>,
}

/// The manifest of an image for one platform.
#[derive(Debug, Clone)]
pub struct PlatformManifest {
    /// The manifest's digest.
    pub manifest_digest: String,
    pub media_type: String,
    /// The digest of the image's configuration, which is the image's id.
    pub config_digest: String,
    /// The layers, the lowest first.
    pub layers: Vec<Descriptor>,
    /// The URL of the registry that served the manifest: the blobs come from there too.
    pub endpoint: String,
}

#[verifier::ext_equal]
pub struct ManifestView {
    pub manifest_digest: Seq<char>,
    pub media_type: Seq<char>,
    pub config_digest: Seq<char>,
    pub layers: Seq<DescriptorView>,
    pub endpoint: Seq<char>,
}

impl View for PlatformManifest {
    type V = ManifestView;

    open spec fn view(&self) -> ManifestView {
        ManifestView {
            manifest_digest: self.manifest_digest@,
            media_type: self.media_type@,
            config_digest: self.config_digest@,
            layers: descriptor_views(self.layers@),
            endpoint: self.endpoint@,
        }
    }
}

/// The platform that runs here: the architecture under the name that images use.
pub open spec fn own_platform(arch: Seq<char>) -> (Seq<char>, Seq<char>) {
    (
        "linux"@,
        if arch == "x86_64"@ {
            "amd64"@
        } else if arch == "aarch64"@ {
            "arm64"@
        } else {
            arch
        },
    )
}

/// The platform of this machine, whose architecture the compiler calls `arch`.
pub fn daemon_platform(arch: &str) -> (r: (String, String))
    ensures
        (r.0@, r.1@) == own_platform(arch@),
{
    let a: String = if same(arch, "x86_64") {
        "amd64".to_owned()
    } else if same(arch, "aarch64") {
        "arm64".to_owned()
    } else {
        arch.to_owned()
    };
    ("linux".to_owned(), a)
}

/// A part of a platform: letters, digits, `.`, `_` and `-`, one at least.
pub open spec fn is_platform_part(p: Seq<char>) -> bool {
    &&& p.len() > 0
    &&& forall|i: int| 0 <= i < p.len() ==> is_platform_char(#[trigger] p[i])
}

pub open spec fn is_platform_char(c: char) -> bool {
    ('a' <= c <= 'z') || ('A' <= c <= 'Z') || ('0' <= c <= '9') || c == '.' || c == '_' || c == '-'
}

/// The platform that text in lower case writes: `os/arch`, or the architecture alone.
pub open spec fn platform_of(s: Seq<char>) -> Result<(Seq<char>, Seq<char>), Seq<char>> {
    let (os, arch) = match text::split_once(s, seq!['/']) {
        Some((o, a)) => (o, a),
        None => ("linux"@, s),
    };
    if is_platform_part(os) && is_platform_part(arch) {
        Ok((os, arch))
    } else {
        Err(
            "invalid platform "@ + unicode::quoted(s)
                + ": want [os/]arch (for example \"linux/amd64\")"@,
        )
    }
}

fn platform_part(p: &str) -> (r: bool)
    ensures
        r == is_platform_part(p@),
{
    let cs: Vec<char> = chars_of(p);
    if cs.len() == 0 {
        return false;
    }
    let mut i: usize = 0;
    while i < cs.len()
        invariant
            i <= cs.len(),
            cs@ == p@,
            forall|j: int| 0 <= j < i ==> is_platform_char(#[trigger] cs@[j]),
        decreases cs.len() - i,
    {
        let c: char = cs[i];
        if !(('a' <= c && c <= 'z') || ('A' <= c && c <= 'Z') || ('0' <= c && c <= '9') || c == '.'
            || c == '_' || c == '-') {
            assert(!is_platform_char(p@[i as int]));
            return false;
        }
        i += 1;
    }
    true
}

/// Reads `os/arch` out of text in lower case.
pub fn read_platform(s: &str) -> (r: Result<(String, String), String>)
    ensures
        match r {
            Ok((o, a)) => platform_of(s@) == Ok::<(Seq<char>, Seq<char>), Seq<char>>((o@, a@)),
            Err(e) => platform_of(s@) == Err::<(Seq<char>, Seq<char>), Seq<char>>(e@),
        },
{
    let (os, arch): (String, String) = match str_cut(s, '/') {
        Some(p) => p,
        None => ("linux".to_owned(), s.to_owned()),
    };
    if platform_part(os.as_str()) && platform_part(arch.as_str()) {
        return Ok((os, arch));
    }
    let mut e: String = "invalid platform ".to_owned();
    e.append(quote(s).as_str());
    e.append(": want [os/]arch (for example \"linux/amd64\")");
    Err(e)
}

/// Reads the value of `--platform`, in any case.
pub fn parse_platform(s: &str) -> (r: Result<(String, String), String>)
    ensures
        ({
            let p = platform_of(unicode::lowered(text::trim(s@)));
            match r {
                Ok((o, a)) => p == Ok::<(Seq<char>, Seq<char>), Seq<char>>((o@, a@)),
                Err(e) => p == Err::<(Seq<char>, Seq<char>), Seq<char>>(e@),
            }
        }),
{
    read_platform(to_lower(str_trim(s).as_str()).as_str())
}

/// A platform that is read holds no slash in either part: what is written with one slash
/// is read back.
pub proof fn law_platform_reads_back(os: Seq<char>, arch: Seq<char>)
    requires
        is_platform_part(os),
        is_platform_part(arch),
    ensures
        platform_of(os + seq!['/'] + arch) == Ok::<(Seq<char>, Seq<char>), Seq<char>>((os, arch)),
{
    let s = os + seq!['/'] + arch;
    let k = os.len() as int;
    assert forall|j: int| 0 <= j < k implies s[j] != '/' by {
        assert(s[j] == os[j]);
        assert(is_platform_char(os[j]));
    }
    text::lemma_found_char(s, '/', k);
    assert(s.take(k) =~= os);
    assert(s.skip(k + 1int) =~= arch);
}

/// The entry is for exactly this platform.
pub open spec fn entry_matches(e: IndexEntry, os: Seq<char>, arch: Seq<char>) -> bool {
    e.platform matches Some(p) && reference::opt_text(p.os) == Some(os) && reference::opt_text(
        p.architecture,
    ) == Some(arch)
}

/// The first entry at or behind `i` for the platform, or the end.
pub open spec fn platform_from(
    entries: Seq<IndexEntry>,
    os: Seq<char>,
    arch: Seq<char>,
    i: int,
) -> int
    decreases entries.len() - i,
{
    if i < 0 || i >= entries.len() || entry_matches(entries[i], os, arch) {
        i
    } else {
        platform_from(entries, os, arch, i + 1)
    }
}

pub fn platform_matches(entry: &IndexEntry, want_os: &str, want_arch: &str) -> (r: bool)
    ensures
        r == entry_matches(*entry, want_os@, want_arch@),
{
    match &entry.platform {
        Some(p) => {
            let os: bool = match &p.os {
                Some(o) => same(o.as_str(), want_os),
                None => false,
            };
            let arch: bool = match &p.architecture {
                Some(a) => same(a.as_str(), want_arch),
                None => false,
            };
            os && arch
        },
        None => false,
    }
}

/// The place of the entry for the platform.
pub(crate) fn pick_place(entries: &[IndexEntry], want_os: &str, want_arch: &str) -> (r: Option<usize>)
    ensures
        match r {
            Some(i) => i < entries@.len() && platform_from(entries@, want_os@, want_arch@, 0) == i
                && entry_matches(entries@[i as int], want_os@, want_arch@),
            None => platform_from(entries@, want_os@, want_arch@, 0) == entries@.len(),
        },
{
    let mut i: usize = 0;
    while i < entries.len()
        invariant
            i <= entries.len(),
            platform_from(entries@, want_os@, want_arch@, 0) == platform_from(
                entries@,
                want_os@,
                want_arch@,
                i as int,
            ),
        decreases entries.len() - i,
    {
        if platform_matches(&entries[i], want_os, want_arch) {
            return Some(i);
        }
        i += 1;
    }
    None
}

/// The entry for the platform: no other platform stands in for it.
pub fn pick_platform<'a>(entries: &'a [IndexEntry], want_os: &str, want_arch: &str) -> (r: Option<
    &'a IndexEntry,
>)
    ensures
        match r {
            Some(e) => ({
                let k = platform_from(entries@, want_os@, want_arch@, 0);
                k < entries@.len() && *e == entries@[k]
            }),
            None => platform_from(entries@, want_os@, want_arch@, 0) == entries@.len(),
        },
{
    match pick_place(entries, want_os, want_arch) {
        Some(i) => Some(&entries[i]),
        None => None,
    }
}

/// An entry is picked only for the very platform, and one is picked wherever there is one.
pub proof fn law_platform_is_exact(
    entries: Seq<IndexEntry>,
    os: Seq<char>,
    arch: Seq<char>,
    k: int,
)
    requires
        0 <= k < entries.len(),
        entry_matches(entries[k], os, arch),
    ensures
        0 <= platform_from(entries, os, arch, 0) <= k,
        entry_matches(entries[platform_from(entries, os, arch, 0)], os, arch),
{
    lemma_platform_from(entries, os, arch, 0, k);
}

proof fn lemma_platform_from(
    entries: Seq<IndexEntry>,
    os: Seq<char>,
    arch: Seq<char>,
    i: int,
    k: int,
)
    requires
        0 <= i <= k < entries.len(),
        entry_matches(entries[k], os, arch),
    ensures
        i <= platform_from(entries, os, arch, i) <= k,
        entry_matches(entries[platform_from(entries, os, arch, i)], os, arch),
    decreases k - i,
{
    if !entry_matches(entries[i], os, arch) {
        lemma_platform_from(entries, os, arch, i + 1, k);
    }
}

pub open spec fn or_unknown(o: Option<String>) -> Seq<char> {
    match o {
        Some(s) => s@,
        None => "?"@,
    }
}

/// The platforms of the first `n` entries that name one.
pub open spec fn platforms_to(entries: Seq<IndexEntry>, n: int) -> Seq<Seq<char>>
    decreases n,
{
    if n <= 0 {
        Seq::empty()
    } else {
        match entries[n - 1].platform {
            Some(p) => platforms_to(entries, n - 1).push(
                or_unknown(p.os) + "/"@ + or_unknown(p.architecture),
            ),
            None => platforms_to(entries, n - 1),
        }
    }
}

/// The platforms of an index, in order and each once.
pub open spec fn platforms_shown(entries: Seq<IndexEntry>) -> Seq<char> {
    let v = order::sorted_set(platforms_to(entries, entries.len() as int));
    if v.len() == 0 {
        "(no platform metadata)"@
    } else {
        text::join(v, ", "@)
    }
}

pub fn available_platforms(entries: &[IndexEntry]) -> (r: String)
    ensures
        r@ == platforms_shown(entries@),
{
    let mut v: Vec<String> = Vec::new();
    let mut i: usize = 0;
    assert(text::texts(v@) =~= Seq::empty());
    while i < entries.len()
        invariant
            i <= entries.len(),
            text::texts(v@) == platforms_to(entries@, i as int),
        decreases entries.len() - i,
    {
        if let Some(p) = &entries[i].platform {
            let mut s: String = match &p.os {
                Some(o) => o.clone(),
                None => "?".to_owned(),
            };
            s.append("/");
            match &p.architecture {
                Some(a) => s.append(a.as_str()),
                None => s.append("?"),
            }
            add_word(&mut v, s.as_str());
        }
        i += 1;
    }
    let u: Vec<String> = sort_unique(&v);
    assert(text::texts(u@).len() == u@.len());
    if u.len() == 0 {
        "(no platform metadata)".to_owned()
    } else {
        join_text(&u, ", ")
    }
}

/// The digest of the platform's manifest in an index; none in a manifest.
pub open spec fn selected(raw: Option<RawManifest>, os: Seq<char>, arch: Seq<char>) -> Result<
    Option<Seq<char>>,
    Seq<char>,
> {
    match raw {
        None => Err("parse manifest"@),
        Some(m) => if m.manifests@.len() == 0 {
            Ok(None)
        } else {
            let k = platform_from(m.manifests@, os, arch, 0);
            if k < m.manifests@.len() {
                Ok(Some(m.manifests@[k].digest@))
            } else {
                Err(
                    "no "@ + os + "/"@ + arch + " manifest in index (available: "@
                        + platforms_shown(m.manifests@) + ")"@,
                )
            }
        },
    }
}

/// The digest of the platform's manifest. The document is none where its bytes were no
/// manifest.
pub fn select_index_digest(raw: Option<&RawManifest>, want_os: &str, want_arch: &str) -> (r: Result<
    Option<String>,
    String,
>)
    ensures
        ({
            let s = selected(
                match raw {
                    Some(m) => Some(*m),
                    None => None,
                },
                want_os@,
                want_arch@,
            );
            match r {
                Ok(d) => s == Ok::<Option<Seq<char>>, Seq<char>>(reference::opt_text(d)),
                Err(e) => s == Err::<Option<Seq<char>>, Seq<char>>(e@),
            }
        }),
{
    let m: &RawManifest = match raw {
        Some(m) => m,
        None => {
            return Err("parse manifest".to_owned());
        },
    };
    if m.manifests.len() == 0 {
        return Ok(None);
    }
    match pick_place(m.manifests.as_slice(), want_os, want_arch) {
        Some(k) => Ok(Some(m.manifests[k].digest.clone())),
        None => {
            let mut e: String = "no ".to_owned();
            e.append(want_os);
            e.append("/");
            e.append(want_arch);
            e.append(" manifest in index (available: ");
            e.append(available_platforms(m.manifests.as_slice()).as_str());
            e.append(")");
            Err(e)
        },
    }
}

// ---------------------------------------------------------------- fetching a manifest

/// One error that a registry reports: its code and its message, empty where they are
/// missing.
pub struct RegistryError {
    pub code: String,
    pub message: String,
}

pub open spec fn error_pairs(v: Seq<RegistryError>) -> Seq<(Seq<char>, Seq<char>)> {
    Seq::new(v.len(), |i: int| (v[i].code@, v[i].message@))
}

pub open spec fn text_or_empty(o: Option<Seq<char>>) -> Seq<char> {
    match o {
        Some(s) => s,
        None => Seq::empty(),
    }
}

/// The errors that a reply lists: none where it lists none.
pub open spec fn errors_in(body: Seq<u8>) -> Seq<(Seq<char>, Seq<char>)> {
    match json::json_items(body, "/errors"@) {
        Some(n) => Seq::new(
            n as nat,
            |i: int|
                (
                    text_or_empty(
                        json::json_text(
                            body,
                            json::under_key(json::under_item("/errors"@, i), "code"@),
                        ),
                    ),
                    text_or_empty(
                        json::json_text(
                            body,
                            json::under_key(json::under_item("/errors"@, i), "message"@),
                        ),
                    ),
                ),
        ),
        None => Seq::empty(),
    }
}

fn text_under(doc: &[u8], base: &str, key: &str) -> (r: String)
    ensures
        r@ == text_or_empty(json::json_text(doc@, json::under_key(base@, key@))),
{
    match text_at(doc, key_pointer(base, key).as_str()) {
        Some(s) => s,
        None => String::new(),
    }
}

/// The errors that a reply lists.
pub fn listed_errors(body: &str) -> (r: Vec<RegistryError>)
    ensures
        error_pairs(r@) == errors_in(encode_utf8(body@)),
{
    let doc: &[u8] = body.as_bytes();
    let mut out: Vec<RegistryError> = Vec::new();
    if let Some(n) = items_at(doc, "/errors") {
        let ghost ev = errors_in(doc@);
        let mut i: usize = 0;
        while i < n
            invariant
                i <= n,
                ev == errors_in(doc@),
                json::json_items(doc@, "/errors"@) == Some(n),
                error_pairs(out@) =~= ev.take(i as int),
            decreases n - i,
        {
            let ghost before = out@;
            let p: String = item_pointer("/errors", i);
            let e: RegistryError = RegistryError {
                code: text_under(doc, p.as_str(), "code"),
                message: text_under(doc, p.as_str(), "message"),
            };
            out.push(e);
            assert(error_pairs(out@) =~= error_pairs(before).push((e.code@, e.message@)));
            assert(ev.take(i as int + 1) =~= ev.take(i as int).push(ev[i as int]));
            i += 1;
        }
        assert(ev.take(n as int) =~= ev);
    }
    assert(error_pairs(out@) =~= errors_in(doc@));
    out
}

/// The registry knows no such manifest or repository.
pub open spec fn says_unknown(errors: Seq<(Seq<char>, Seq<char>)>) -> bool {
    exists|i: int|
        0 <= i < errors.len() && ((#[trigger] errors[i]).0 == "MANIFEST_UNKNOWN"@ || errors[i].0
            == "NAME_UNKNOWN"@)
}

/// Why a manifest was refused. Where credentials are at fault nothing of the reply is
/// told.
pub open spec fn manifest_refusal(
    status: int,
    body: Seq<char>,
    errors: Seq<(Seq<char>, Seq<char>)>,
    image: Reference,
) -> Seq<char> {
    if status == 401 {
        "unauthorized for "@ + image.shown()
            + ": bad or missing credentials (check `docker login` for this registry)"@
    } else if status == 403 {
        "denied for "@ + image.shown()
            + ": the credentials lack pull access to this repository"@
    } else if says_unknown(errors) {
        "pull access denied for "@ + image.shown()
            + ", repository does not exist or may require authorization"@
    } else {
        "manifest fetch for "@ + image.shown() + " failed ("@ + num::decimal(status as nat)
            + "): "@ + truncated(body, 300)
    }
}

fn has_unknown(errors: &Vec<RegistryError>) -> (r: bool)
    ensures
        r == says_unknown(error_pairs(errors@)),
{
    let ghost ev = error_pairs(errors@);
    let mut i: usize = 0;
    while i < errors.len()
        invariant
            i <= errors.len(),
            ev == error_pairs(errors@),
            forall|j: int|
                0 <= j < i ==> (#[trigger] ev[j]).0 != "MANIFEST_UNKNOWN"@ && ev[j].0
                    != "NAME_UNKNOWN"@,
        decreases errors.len() - i,
    {
        if same(errors[i].code.as_str(), "MANIFEST_UNKNOWN") || same(
            errors[i].code.as_str(),
            "NAME_UNKNOWN",
        ) {
            assert(ev[i as int].0 == errors@[i as int].code@);
            return true;
        }
        i += 1;
    }
    false
}

/// Whether the message about a refused manifest can be put together: its reply needs no
/// cutting, or can be cut.
pub fn manifest_error_holds(status: u16, body: &str, errors: &Vec<RegistryError>) -> (r: bool)
    ensures
        r == (status == 401 || status == 403 || says_unknown(error_pairs(errors@))
            || network::cuts_at(body@, 300)),
{
    status == 401 || status == 403 || has_unknown(errors) || can_cut(body, 300)
}

/// Why a manifest was refused, given the errors that the reply lists.
pub fn manifest_error(
    status: u16,
    body: &str,
    errors: &Vec<RegistryError>,
    image: &ImageRef,
) -> (r: String)
    requires
        status == 401 || status == 403 || says_unknown(error_pairs(errors@)) || network::cuts_at(
            body@,
            300,
        ),
    ensures
        r@ == manifest_refusal(status as int, body@, error_pairs(errors@), image@),
{
    let mut e: String;
    if status == 401 {
        e = "unauthorized for ".to_owned();
        e.append(image.display_ref().as_str());
        e.append(": bad or missing credentials (check `docker login` for this registry)");
    } else if status == 403 {
        e = "denied for ".to_owned();
        e.append(image.display_ref().as_str());
        e.append(": the credentials lack pull access to this repository");
    } else if has_unknown(errors) {
        e = "pull access denied for ".to_owned();
        e.append(image.display_ref().as_str());
        e.append(", repository does not exist or may require authorization");
    } else {
        e = "manifest fetch for ".to_owned();
        e.append(image.display_ref().as_str());
        e.append(" failed (");
        e.append(decimal_text(status as u128).as_str());
        e.append("): ");
        e.append(truncate(body, 300).as_str());
    }
    e
}

/// Where credentials are at fault, the message depends on nothing that was sent back.
pub proof fn law_refusals_keep_secrets(
    status: int,
    body: Seq<char>,
    errors: Seq<(Seq<char>, Seq<char>)>,
    other_body: Seq<char>,
    other_errors: Seq<(Seq<char>, Seq<char>)>,
    image: Reference,
    what: Seq<char>,
)
    requires
        status == 401 || status == 403,
    ensures
        manifest_refusal(status, body, errors, image) == manifest_refusal(
            status,
            other_body,
            other_errors,
            image,
        ),
        push_refusal(status, body, errors, what) == push_refusal(
            status,
            other_body,
            other_errors,
            what,
        ),
{
}

/// The failure of a manifest that was refused: worth another try where the registry is
/// at fault.
pub fn manifest_refused(
    status: u16,
    body: &str,
    errors: &Vec<RegistryError>,
    image: &ImageRef,
) -> (r: AttemptError)
    requires
        status == 401 || status == 403 || says_unknown(error_pairs(errors@)) || network::cuts_at(
            body@,
            300,
        ),
    ensures
        r@ == failed(
            is_transient(status as int),
            0,
            manifest_refusal(status as int, body@, error_pairs(errors@), image@),
        ),
{
    let e: String = manifest_error(status, body, errors, image);
    if transient(status) {
        AttemptError::retryable(e)
    } else {
        AttemptError::fatal(e)
    }
}

/// The reference that a manifest is asked for by: the digest where there is one.
pub open spec fn wanted_reference(image: Reference) -> Result<Seq<char>, Seq<char>> {
    match image.digest {
        Some(d) => Ok(d),
        None => match image.tag {
            Some(t) => Ok(t),
            None => Err("reference has neither tag nor digest"@),
        },
    }
}

pub fn manifest_reference(image: &ImageRef) -> (r: Result<String, String>)
    ensures
        match r {
            Ok(s) => wanted_reference(image@) == Ok::<Seq<char>, Seq<char>>(s@),
            Err(e) => wanted_reference(image@) == Err::<Seq<char>, Seq<char>>(e@),
        },
{
    match &image.digest {
        Some(d) => Ok(d.clone()),
        None => match &image.tag {
            Some(t) => Ok(t.clone()),
            None => Err("reference has neither tag nor digest".to_owned()),
        },
    }
}

pub open spec fn path_of(repo: Seq<char>, kind: Seq<char>, name: Seq<char>) -> Seq<char> {
    "/v2/"@ + repo + kind + name
}

/// Where a manifest is served.
pub open spec fn manifest_place(repo: Seq<char>, reference: Seq<char>) -> Seq<char> {
    path_of(repo, "/manifests/"@, reference)
}

/// Where a blob is served.
pub open spec fn blob_place(repo: Seq<char>, digest: Seq<char>) -> Seq<char> {
    path_of(repo, "/blobs/"@, digest)
}

pub fn manifest_path(image: &ImageRef, reference: &str) -> (r: String)
    ensures
        r@ == manifest_place(image@.repo, reference@),
{
    let mut s: String = "/v2/".to_owned();
    s.append(image.api_repo());
    s.append("/manifests/");
    s.append(reference);
    s
}

pub fn blob_path(image: &ImageRef, digest: &str) -> (r: String)
    ensures
        r@ == blob_place(image@.repo, digest@),
{
    let mut s: String = "/v2/".to_owned();
    s.append(image.api_repo());
    s.append("/blobs/");
    s.append(digest);
    s
}

/// The digest of a manifest that was served, or why it is not trusted: it has to have the
/// digest that was asked for, and the one that the registry claims.
pub open spec fn trusted_manifest(
    image: Reference,
    body: Seq<u8>,
    header: Option<Seq<char>>,
) -> Result<Seq<char>, Failure> {
    let d = encode::digest_text(body);
    if image.digest is Some && image.digest->0 != d {
        Err(
            failed(
                false,
                0,
                "digest mismatch for "@ + image.shown() + ": pinned "@ + image.digest->0
                    + " but registry served "@ + d,
            ),
        )
    } else if header is Some && header->0 != d {
        Err(
            failed(
                false,
                0,
                "Docker-Content-Digest "@ + header->0 + " does not match manifest body "@ + d
                    + " for "@ + image.shown(),
            ),
        )
    } else {
        Ok(d)
    }
}

pub fn check_manifest(image: &ImageRef, body: &[u8], header_digest: Option<&str>) -> (r: Result<
    String,
    AttemptError,
>)
    ensures
        match r {
            Ok(d) => trusted_manifest(image@, body@, opt_str(header_digest)) == Ok::<
                Seq<char>,
                Failure,
            >(d@),
            Err(e) => trusted_manifest(image@, body@, opt_str(header_digest)) == Err::<
                Seq<char>,
                Failure,
            >(e@),
        },
{
    let top: String = digest_of(body);
    if let Some(pinned) = &image.digest {
        if !same(pinned.as_str(), top.as_str()) {
            let mut e: String = "digest mismatch for ".to_owned();
            e.append(image.display_ref().as_str());
            e.append(": pinned ");
            e.append(pinned.as_str());
            e.append(" but registry served ");
            e.append(top.as_str());
            return Err(AttemptError::fatal(e));
        }
    }
    if let Some(h) = header_digest {
        if !same(h, top.as_str()) {
            let mut e: String = "Docker-Content-Digest ".to_owned();
            e.append(h);
            e.append(" does not match manifest body ");
            e.append(top.as_str());
            e.append(" for ");
            e.append(image.display_ref().as_str());
            return Err(AttemptError::fatal(e));
        }
    }
    Ok(top)
}

/// What is pulled by its digest has that digest, whatever a registry says.
pub proof fn law_pinned_digest_is_served(
    image: Reference,
    body: Seq<u8>,
    header: Option<Seq<char>>,
    digest: Seq<char>,
)
    requires
        trusted_manifest(image, body, header) == Ok::<Seq<char>, Failure>(digest),
    ensures
        digest == encode::digest_text(body),
        image.digest matches Some(d) ==> d == digest,
        header matches Some(h) ==> h == digest,
{
}

/// What is done with a manifest that was served.
pub enum ManifestStep {
    /// The platform's manifest is fetched too: the entry's place in the index.
    Platform(usize),
    Done(PlatformManifest),
}

/// What follows a manifest: an index leads on to the platform's own, anything else is the
/// image's, which names a configuration.
pub open spec fn manifest_next(
    image: Reference,
    raw: Option<RawManifest>,
    os: Seq<char>,
    arch: Seq<char>,
    endpoint: Seq<char>,
    digest: Seq<char>,
) -> Result<Result<int, ManifestView>, Failure> {
    match raw {
        None => Err(failed(false, 0, "parse manifest for "@ + image.shown())),
        Some(m) => if m.manifests@.len() > 0 {
            let k = platform_from(m.manifests@, os, arch, 0);
            if k < m.manifests@.len() {
                Ok(Ok(k))
            } else {
                Err(
                    failed(
                        false,
                        0,
                        "no "@ + os + "/"@ + arch + " manifest in index for "@ + image.shown()
                            + " (available: "@ + platforms_shown(m.manifests@) + ")"@,
                    ),
                )
            }
        } else {
            match m.config {
                Some(c) => Ok(
                    Err(
                        ManifestView {
                            manifest_digest: digest,
                            media_type: m.media_type@,
                            config_digest: c.digest@,
                            layers: descriptor_views(m.layers@),
                            endpoint,
                        },
                    ),
                ),
                None => Err(failed(false, 0, "manifest has no config"@)),
            }
        },
    }
}

fn copy_layers(v: &Vec<Descriptor>) -> (r: Vec<Descriptor>)
    ensures
        descriptor_views(r@) == descriptor_views(v@),
{
    let mut out: Vec<Descriptor> = Vec::new();
    let mut i: usize = 0;
    while i < v.len()
        invariant
            i <= v.len(),
            out@.len() == i,
            forall|j: int| 0 <= j < i ==> (#[trigger] out@[j])@ == v@[j]@,
        decreases v.len() - i,
    {
        out.push(
            Descriptor {
                media_type: v[i].media_type.clone(),
                digest: v[i].digest.clone(),
                size: v[i].size,
            },
        );
        i += 1;
    }
    assert(descriptor_views(out@) =~= descriptor_views(v@));
    out
}

/// What follows a manifest that was served and trusted. The document is none where its
/// bytes were no manifest.
pub fn manifest_step(
    image: &ImageRef,
    raw: Option<&RawManifest>,
    want_os: &str,
    want_arch: &str,
    endpoint: &str,
    digest: &str,
) -> (r: Result<ManifestStep, AttemptError>)
    ensures
        ({
            let n = manifest_next(
                image@,
                match raw {
                    Some(m) => Some(*m),
                    None => None,
                },
                want_os@,
                want_arch@,
                endpoint@,
                digest@,
            );
            match r {
                Ok(ManifestStep::Platform(k)) => n == Ok::<Result<int, ManifestView>, Failure>(
                    Ok(k as int),
                ),
                Ok(ManifestStep::Done(m)) => n == Ok::<Result<int, ManifestView>, Failure>(Err(m@)),
                Err(e) => n == Err::<Result<int, ManifestView>, Failure>(e@),
            }
        }),
{
    let m: &RawManifest = match raw {
        Some(m) => m,
        None => {
            let mut e: String = "parse manifest for ".to_owned();
            e.append(image.display_ref().as_str());
            return Err(AttemptError::fatal(e));
        },
    };
    if m.manifests.len() > 0 {
        match pick_place(m.manifests.as_slice(), want_os, want_arch) {
            Some(k) => Ok(ManifestStep::Platform(k)),
            None => {
                let mut e: String = "no ".to_owned();
                e.append(want_os);
                e.append("/");
                e.append(want_arch);
                e.append(" manifest in index for ");
                e.append(image.display_ref().as_str());
                e.append(" (available: ");
                e.append(available_platforms(m.manifests.as_slice()).as_str());
                e.append(")");
                Err(AttemptError::fatal(e))
            },
        }
    } else {
        match &m.config {
            Some(c) => Ok(
                ManifestStep::Done(
                    PlatformManifest {
                        manifest_digest: digest.to_owned(),
                        media_type: m.media_type.clone(),
                        config_digest: c.digest.clone(),
                        layers: copy_layers(&m.layers),
                        endpoint: endpoint.to_owned(),
                    },
                ),
            ),
            None => Err(AttemptError::fatal("manifest has no config".to_owned())),
        }
    }
}

/// The failure of a platform's manifest that was refused.
pub fn platform_refused(status: u16, shown: &str, body: &str) -> (r: AttemptError)
    ensures
        r@ == failed(
            is_transient(status as int),
            0,
            "platform manifest fetch failed ("@ + shown@ + "): "@ + body@,
        ),
{
    let mut e: String = "platform manifest fetch failed (".to_owned();
    e.append(shown);
    e.append("): ");
    e.append(body);
    if transient(status) {
        AttemptError::retryable(e)
    } else {
        AttemptError::fatal(e)
    }
}

/// The platform's manifest, which has to have the digest that the index names it by.
pub open spec fn platform_next(
    image: Reference,
    entry: IndexEntry,
    raw: Option<RawManifest>,
    body: Seq<u8>,
    endpoint: Seq<char>,
) -> Result<ManifestView, Failure> {
    let d = encode::digest_text(body);
    match raw {
        None => Err(failed(false, 0, "parse platform manifest"@)),
        Some(m) => if d != entry.digest@ {
            Err(
                failed(
                    false,
                    0,
                    "platform manifest digest mismatch for "@ + image.shown() + ": index names "@
                        + entry.digest@ + " but registry served "@ + d,
                ),
            )
        } else {
            match m.config {
                Some(c) => Ok(
                    ManifestView {
                        manifest_digest: d,
                        media_type: entry.media_type@,
                        config_digest: c.digest@,
                        layers: descriptor_views(m.layers@),
                        endpoint,
                    },
                ),
                None => Err(failed(false, 0, "manifest has no config"@)),
            }
        },
    }
}

/// What a platform's manifest gives. The document is none where its bytes were no
/// manifest.
pub fn platform_served(
    image: &ImageRef,
    entry: &IndexEntry,
    raw: Option<&RawManifest>,
    body: &[u8],
    endpoint: &str,
) -> (r: Result<PlatformManifest, AttemptError>)
    ensures
        ({
            let n = platform_next(
                image@,
                *entry,
                match raw {
                    Some(m) => Some(*m),
                    None => None,
                },
                body@,
                endpoint@,
            );
            match r {
                Ok(m) => n == Ok::<ManifestView, Failure>(m@),
                Err(e) => n == Err::<ManifestView, Failure>(e@),
            }
        }),
{
    let m: &RawManifest = match raw {
        Some(m) => m,
        None => {
            return Err(AttemptError::fatal("parse platform manifest".to_owned()));
        },
    };
    let d: String = digest_of(body);
    if !same(d.as_str(), entry.digest.as_str()) {
        let mut e: String = "platform manifest digest mismatch for ".to_owned();
        e.append(image.display_ref().as_str());
        e.append(": index names ");
        e.append(entry.digest.as_str());
        e.append(" but registry served ");
        e.append(d.as_str());
        return Err(AttemptError::fatal(e));
    }
    match &m.config {
        Some(c) => Ok(
            PlatformManifest {
                manifest_digest: d,
                media_type: entry.media_type.clone(),
                config_digest: c.digest.clone(),
                layers: copy_layers(&m.layers),
                endpoint: endpoint.to_owned(),
            },
        ),
        None => Err(AttemptError::fatal("manifest has no config".to_owned())),
    }
}

/// The platform's manifest is the very one that the index names.
pub proof fn law_index_digest_is_served(
    image: Reference,
    entry: IndexEntry,
    raw: Option<RawManifest>,
    body: Seq<u8>,
    endpoint: Seq<char>,
    m: ManifestView,
)
    requires
        platform_next(image, entry, raw, body, endpoint) == Ok::<ManifestView, Failure>(m),
    ensures
        m.manifest_digest == entry.digest@,
        m.manifest_digest == encode::digest_text(body),
        m.endpoint == endpoint,
{
}

/// What follows a failed try for a manifest.
#[derive(Debug)]
pub enum ManifestNext {
    /// It is asked for again after so many milliseconds.
    Retry(u64),
    /// The next registry is asked; this is told of the present one.
    Next(String),
    Fail(String),
}

#[verifier::ext_equal]
pub enum ManifestNextView {
    Retry(nat),
    Next(Seq<char>),
    Fail(Seq<char>),
}

impl View for ManifestNext {
    type V = ManifestNextView;

    open spec fn view(&self) -> ManifestNextView {
        match self {
            ManifestNext::Retry(ms) => ManifestNextView::Retry(*ms as nat),
            ManifestNext::Next(line) => ManifestNextView::Next(line@),
            ManifestNext::Fail(e) => ManifestNextView::Fail(e@),
        }
    }
}

/// What follows a failed try for a manifest: another try while there is one, then the next
/// registry where this one could not be reached. What a registry answers ends the search.
pub open spec fn after_failure(
    attempt: int,
    e: Failure,
    transport: bool,
    endpoint: Seq<char>,
) -> ManifestNextView {
    match wait_after(attempt, e, false, false) {
        Some(ms) => ManifestNextView::Retry(ms),
        None => if transport {
            ManifestNextView::Next(endpoint + ": "@ + e.message)
        } else {
            ManifestNextView::Fail(e.message)
        },
    }
}

/// What follows a failed try for a manifest; `transport` says that nothing was answered.
pub fn manifest_failed(attempt: u32, e: &AttemptError, transport: bool, endpoint: &str) -> (r:
    ManifestNext)
    requires
        e.retry_after <= 30,
    ensures
        r@ == after_failure(attempt as int, e@, transport, endpoint@),
{
    if let Some(ms) = manifest_wait(attempt, e) {
        return ManifestNext::Retry(ms);
    }
    if transport {
        let mut line: String = endpoint.to_owned();
        line.append(": ");
        line.append(e.message.as_str());
        ManifestNext::Next(line)
    } else {
        ManifestNext::Fail(e.message.clone())
    }
}

/// Only a registry that could not be reached leads to the next one, and only once it has
/// been tried as often as may be: an answer, whatever it is, never does.
pub proof fn law_answers_end_the_search(attempt: int, e: Failure, endpoint: Seq<char>)
    ensures
        !(after_failure(attempt, e, false, endpoint) is Next),
        after_failure(attempt, e, true, endpoint) is Next <==> attempt >= 4 || !e.retryable,
        !(after_failure(attempt, e, true, endpoint) is Fail),
{
}

/// What is told where no registry could be reached.
pub fn unreachable_message(image: &ImageRef, count: usize, errors: &Vec<String>) -> (r: String)
    ensures
        r@ == "all "@ + num::decimal(count as nat) + " registries unreachable for "@
            + image@.shown() + ": "@ + text::join(text::texts(errors@), "; "@),
{
    let mut e: String = "all ".to_owned();
    e.append(decimal_text(count as u128).as_str());
    e.append(" registries unreachable for ");
    e.append(image.display_ref().as_str());
    e.append(": ");
    e.append(join_text(errors, "; ").as_str());
    e
}

// ---------------------------------------------------------------- pushing

/// What an error of a registry says; nothing where it says nothing.
pub open spec fn error_shown(e: (Seq<char>, Seq<char>)) -> Option<Seq<char>> {
    if e.0.len() == 0 && e.1.len() == 0 {
        None
    } else if e.1.len() == 0 {
        Some(e.0)
    } else {
        Some(e.0 + ": "@ + e.1)
    }
}

/// What the first `n` errors say.
pub open spec fn errors_shown(errors: Seq<(Seq<char>, Seq<char>)>, n: int) -> Seq<Seq<char>>
    decreases n,
{
    if n <= 0 {
        Seq::empty()
    } else {
        match error_shown(errors[n - 1]) {
            Some(s) => errors_shown(errors, n - 1).push(s),
            None => errors_shown(errors, n - 1),
        }
    }
}

/// Why something that was pushed was refused. Where credentials are at fault nothing of
/// the reply is told.
pub open spec fn push_refusal(
    status: int,
    body: Seq<char>,
    errors: Seq<(Seq<char>, Seq<char>)>,
    what: Seq<char>,
) -> Seq<char> {
    let msgs = errors_shown(errors, errors.len() as int);
    if status == 401 {
        "unauthorized for "@ + what
            + ": bad or missing credentials (check `docker login` for this registry)"@
    } else if status == 403 {
        "denied for "@ + what + ": the credentials lack push access to this repository"@
    } else if msgs.len() > 0 {
        "push of "@ + what + " failed ("@ + num::decimal(status as nat) + "): "@ + text::join(
            msgs,
            "; "@,
        )
    } else {
        "push of "@ + what + " failed ("@ + num::decimal(status as nat) + "): "@ + truncated(
            body,
            300,
        )
    }
}

/// The reply needs no cutting, or can be cut.
pub open spec fn push_error_fits(
    status: int,
    body: Seq<char>,
    errors: Seq<(Seq<char>, Seq<char>)>,
) -> bool {
    status == 401 || status == 403 || errors_shown(errors, errors.len() as int).len() > 0
        || network::cuts_at(body, 300)
}

/// Whether the message about a refused push can be put together: its reply needs no
/// cutting, or can be cut.
pub fn push_error_holds(status: u16, body: &str, errors: &Vec<RegistryError>) -> (r: bool)
    ensures
        r == push_error_fits(status as int, body@, error_pairs(errors@)),
{
    if status == 401 || status == 403 || can_cut(body, 300) {
        return true;
    }
    let msgs: Vec<String> = show_errors(errors);
    assert(text::texts(msgs@).len() == msgs@.len());
    msgs.len() > 0
}

fn show_errors(errors: &Vec<RegistryError>) -> (r: Vec<String>)
    ensures
        text::texts(r@) == errors_shown(error_pairs(errors@), errors@.len() as int),
{
    let ghost ev = error_pairs(errors@);
    let mut msgs: Vec<String> = Vec::new();
    let mut i: usize = 0;
    assert(text::texts(msgs@) =~= Seq::empty());
    while i < errors.len()
        invariant
            i <= errors.len(),
            ev == error_pairs(errors@),
            text::texts(msgs@) == errors_shown(ev, i as int),
        decreases errors.len() - i,
    {
        let code: &str = errors[i].code.as_str();
        let msg: &str = errors[i].message.as_str();
        assert(ev[i as int] == (code@, msg@));
        if !(code.is_empty() && msg.is_empty()) {
            let mut s: String = code.to_owned();
            if !msg.is_empty() {
                s.append(": ");
                s.append(msg);
            }
            add_word(&mut msgs, s.as_str());
        }
        i += 1;
    }
    msgs
}

/// Why something that was pushed was refused, given the errors that the reply lists.
pub fn push_error(status: u16, body: &str, errors: &Vec<RegistryError>, what: &str) -> (r: String)
    requires
        push_error_fits(status as int, body@, error_pairs(errors@)),
    ensures
        r@ == push_refusal(status as int, body@, error_pairs(errors@), what@),
{
    let mut e: String;
    if status == 401 {
        e = "unauthorized for ".to_owned();
        e.append(what);
        e.append(": bad or missing credentials (check `docker login` for this registry)");
        return e;
    }
    if status == 403 {
        e = "denied for ".to_owned();
        e.append(what);
        e.append(": the credentials lack push access to this repository");
        return e;
    }
    let msgs: Vec<String> = show_errors(errors);
    assert(text::texts(msgs@).len() == msgs@.len());
    e = "push of ".to_owned();
    e.append(what);
    e.append(" failed (");
    e.append(decimal_text(status as u128).as_str());
    e.append("): ");
    if msgs.len() > 0 {
        e.append(join_text(&msgs, "; ").as_str());
    } else {
        e.append(truncate(body, 300).as_str());
    }
    e
}

/// The failure of something that was pushed.
pub fn classify_push_status(
    status: u16,
    retry_header: Option<&str>,
    body: &str,
    errors: &Vec<RegistryError>,
    what: &str,
) -> (r: AttemptError)
    requires
        push_error_fits(status as int, body@, error_pairs(errors@)),
    ensures
        r@ == failed(
            is_transient(status as int),
            if is_transient(status as int) {
                retry_after(opt_str(retry_header))
            } else {
                0
            },
            push_refusal(status as int, body@, error_pairs(errors@), what@),
        ),
{
    let e: String = push_error(status, body, errors, what);
    if transient(status) {
        AttemptError::retryable_after(e, retry_after_secs(retry_header))
    } else {
        AttemptError::fatal(e)
    }
}

// ---------------------------------------------------------------- blobs

/// The digest's own characters, which a blob's bytes have to hash to.
pub open spec fn expected_hash(digest: Seq<char>) -> Seq<char> {
    match text::strip_prefix(digest, "sha256:"@) {
        Some(h) => h,
        None => digest,
    }
}

pub fn expected_of(digest: &str) -> (r: String)
    ensures
        r@ == expected_hash(digest@),
{
    match str_strip_prefix(digest, "sha256:") {
        Some(h) => h,
        None => digest.to_owned(),
    }
}

pub open spec fn range_wanted(resume_from: nat) -> Option<Seq<char>> {
    if resume_from > 0 {
        Some("bytes="@ + num::decimal(resume_from) + "-"@)
    } else {
        None
    }
}

/// The header that asks for the rest of a blob of which some bytes are there.
pub fn range_header(resume_from: u64) -> (r: Option<String>)
    ensures
        reference::opt_text(r) == range_wanted(resume_from as nat),
{
    if resume_from == 0 {
        return None;
    }
    let mut s: String = "bytes=".to_owned();
    s.append(decimal_text(resume_from as u128).as_str());
    s.append("-");
    Some(s)
}

/// What is done with the reply to a request for a blob.
pub enum BlobStep {
    /// What is there of the blob is dropped, and the next try starts over.
    Restart(AttemptError),
    Fail(AttemptError),
    /// The body is the rest of what is there.
    Append,
    /// The body is the whole blob.
    Fresh,
}

#[verifier::ext_equal]
pub enum BlobNext {
    Restart(Failure),
    Fail(Failure),
    Append,
    Fresh,
}

impl View for BlobStep {
    type V = BlobNext;

    open spec fn view(&self) -> BlobNext {
        match self {
            BlobStep::Restart(e) => BlobNext::Restart(e@),
            BlobStep::Fail(e) => BlobNext::Fail(e@),
            BlobStep::Append => BlobNext::Append,
            BlobStep::Fresh => BlobNext::Fresh,
        }
    }
}

/// What a reply to a request for a blob means.
pub open spec fn blob_next(
    digest: Seq<char>,
    status: int,
    shown: Seq<char>,
    resume_from: int,
    retry_header: Option<Seq<char>>,
    body: Seq<char>,
) -> BlobNext {
    if status == 416 {
        BlobNext::Restart(
            failed(true, 0, "blob "@ + digest + ": range unsatisfiable, restarting"@),
        )
    } else if !is_success(status) {
        BlobNext::Fail(
            failed(
                is_transient(status),
                if is_transient(status) {
                    retry_after(retry_header)
                } else {
                    0
                },
                "blob "@ + digest + " fetch failed ("@ + shown + "): "@ + truncated(body, 300),
            ),
        )
    } else if status == 206 && resume_from > 0 {
        BlobNext::Append
    } else {
        BlobNext::Fresh
    }
}

/// What a reply to a request for a blob means; its body counts only where it failed.
pub fn blob_reply(
    digest: &str,
    status: u16,
    shown: &str,
    resume_from: u64,
    retry_header: Option<&str>,
    body: &str,
) -> (r: BlobStep)
    requires
        status == 416 || is_success(status as int) || network::cuts_at(body@, 300),
    ensures
        r@ == blob_next(
            digest@,
            status as int,
            shown@,
            resume_from as int,
            opt_str(retry_header),
            body@,
        ),
{
    let mut e: String = "blob ".to_owned();
    e.append(digest);
    if status == 416 {
        e.append(": range unsatisfiable, restarting");
        return BlobStep::Restart(AttemptError::retryable(e));
    }
    if !success(status) {
        e.append(" fetch failed (");
        e.append(shown);
        e.append("): ");
        e.append(truncate(body, 300).as_str());
        if transient(status) {
            return BlobStep::Fail(
                AttemptError::retryable_after(e, retry_after_secs(retry_header)),
            );
        }
        return BlobStep::Fail(AttemptError::fatal(e));
    }
    if status == 206 && resume_from > 0 {
        BlobStep::Append
    } else {
        BlobStep::Fresh
    }
}

/// The failure of a body that stopped coming.
pub fn blob_stalled(digest: &str) -> (r: AttemptError)
    ensures
        r@ == failed(true, 0, "blob "@ + digest@ + ": stalled mid-body, retrying"@),
{
    let mut e: String = "blob ".to_owned();
    e.append(digest);
    e.append(": stalled mid-body, retrying");
    AttemptError::retryable(e)
}

/// The bytes are the blob of a digest: they hash to it.
pub open spec fn is_blob(digest: Seq<char>, bytes: Seq<u8>) -> bool {
    encode::sha256_hexed(bytes) == expected_hash(digest)
}

/// Whether the bytes that came, what was left of an earlier try before them, are the blob.
pub fn check_blob(digest: &str, body: Received) -> (r: Result<(), AttemptError>)
    ensures
        match r {
            Ok(_) => is_blob(digest@, body.bytes()),
            Err(e) => !is_blob(digest@, body.bytes()) && e@ == failed(
                true,
                0,
                "digest mismatch for "@ + digest@ + ": received sha256:"@ + encode::sha256_hexed(
                    body.bytes(),
                ),
            ),
        },
{
    let actual: String = body.hex();
    if same(actual.as_str(), expected_of(digest).as_str()) {
        return Ok(());
    }
    let mut e: String = "digest mismatch for ".to_owned();
    e.append(digest);
    e.append(": received sha256:");
    e.append(actual.as_str());
    Err(AttemptError::retryable(e))
}

/// A blob is kept under a digest only where its bytes hash to that very digest: what
/// `check_blob` lets pass has the digest that was asked for, and any other bytes are
/// refused, unless they have the same hash.
pub proof fn law_blob_is_its_digest(digest: Seq<char>, bytes: Seq<u8>)
    requires
        text::starts_with(digest, "sha256:"@),
    ensures
        is_blob(digest, bytes) <==> encode::digest_text(bytes) == digest,
{
    let p = "sha256:"@;
    let hash = digest.skip(p.len() as int);
    assert(digest.subrange(0, p.len() as int) == p);
    assert(digest =~= p + hash);
    if encode::digest_text(bytes) == digest {
        assert(encode::digest_text(bytes).skip(p.len() as int) =~= encode::sha256_hexed(bytes));
    }
}

/// The length of a blob that a registry has, from its header.
pub open spec fn length_of(header: Option<Seq<char>>) -> Option<int> {
    match header {
        Some(h) => num::signed(h),
        None => None,
    }
}

/// What a reply to the question for a blob's length gives.
pub fn head_blob(status: u16, length_header: Option<&str>) -> (r: Option<i64>)
    ensures
        match r {
            Some(n) => is_success(status as int) && length_of(opt_str(length_header)) == Some(
                n as int,
            ),
            None => !is_success(status as int) || length_of(opt_str(length_header)) is None,
        },
{
    if !success(status) {
        return None;
    }
    match length_header {
        Some(h) => parse_signed(chars_of(h).as_slice()),
        None => None,
    }
}

// ---------------------------------------------------------------- pushing blobs

/// Whether a registry has a blob.
pub enum Probe {
    Exists,
    Missing,
    /// The registry is asked again after so many milliseconds.
    Wait(u64),
    Fail(String),
}

/// What a reply to the question for a blob means.
pub fn blob_probe(
    status: u16,
    attempt: u32,
    body: &str,
    errors: &Vec<RegistryError>,
    digest: &str,
) -> (r: Probe)
    requires
        is_success(status as int) || status == 404 || (is_transient(status as int) && attempt < 4)
            || push_error_fits(status as int, body@, error_pairs(errors@)),
    ensures
        match r {
            Probe::Exists => is_success(status as int),
            Probe::Missing => status == 404,
            Probe::Wait(ms) => is_transient(status as int) && attempt < 4 && ms == 1000 * backoff(
                attempt as int,
            ),
            Probe::Fail(e) => {
                &&& !is_success(status as int)
                &&& status != 404
                &&& !(is_transient(status as int) && attempt < 4)
                &&& e@ == push_refusal(status as int, body@, error_pairs(errors@), digest@)
            },
        },
{
    if success(status) {
        return Probe::Exists;
    }
    if status == 404 {
        return Probe::Missing;
    }
    if transient(status) && attempt < MAX_FETCH_ATTEMPTS {
        return Probe::Wait(1000 * blob_backoff(attempt));
    }
    Probe::Fail(push_error(status, body, errors, digest))
}

/// Where an upload goes on: an absolute URL as it stands, a path below the registry's.
pub open spec fn location_url(endpoint: Seq<char>, location: Seq<char>) -> Seq<char> {
    if text::starts_with(location, "http://"@) || text::starts_with(location, "https://"@) {
        location
    } else {
        match text::strip_prefix(location, "/"@) {
            Some(rest) => endpoint + "/"@ + rest,
            None => endpoint + "/"@ + location,
        }
    }
}

pub fn resolve_location(endpoint: &str, location: &str) -> (r: String)
    ensures
        r@ == location_url(endpoint@, location@),
{
    if str_starts(location, "http://") || str_starts(location, "https://") {
        return location.to_owned();
    }
    let mut s: String = endpoint.to_owned();
    s.append("/");
    match str_strip_prefix(location, "/") {
        Some(rest) => s.append(rest.as_str()),
        None => s.append(location),
    }
    s
}

/// The URL with the digest in its query, unless it has one.
pub open spec fn digest_url(url: Seq<char>, digest: Seq<char>) -> Seq<char> {
    if text::contains(url, "digest="@) {
        url
    } else if text::contains(url, seq!['?']) {
        url + "&digest="@ + digest
    } else {
        url + "?digest="@ + digest
    }
}

pub fn with_digest_query(url: &str, digest: &str) -> (r: String)
    ensures
        r@ == digest_url(url@, digest@),
{
    let mut s: String = url.to_owned();
    if str_contains(url, "digest=") {
        return s;
    }
    if has_char(chars_of(url).as_slice(), '?') {
        s.append("&digest=");
    } else {
        s.append("?digest=");
    }
    s.append(digest);
    s
}

/// The request's URL: an absolute one as it stands.
pub fn full_url(endpoint: &str, url_or_path: &str) -> (r: String)
    ensures
        r@ == if text::starts_with(url_or_path@, "http://"@) || text::starts_with(
            url_or_path@,
            "https://"@,
        ) {
            url_or_path@
        } else {
            endpoint@ + url_or_path@
        },
{
    if str_starts(url_or_path, "http://") || str_starts(url_or_path, "https://") {
        return url_or_path.to_owned();
    }
    let mut s: String = endpoint.to_owned();
    s.append(url_or_path);
    s
}

pub open spec fn uploads_path(repo: Seq<char>) -> Seq<char> {
    "/v2/"@ + repo + "/blobs/uploads/"@
}

/// Where an upload begins.
pub fn upload_path(image: &ImageRef) -> (r: String)
    ensures
        r@ == uploads_path(image@.repo),
{
    let mut s: String = "/v2/".to_owned();
    s.append(image.api_repo());
    s.append("/blobs/uploads/");
    s
}

/// What follows the beginning of an upload.
pub enum UploadStep {
    /// The registry has taken it.
    Done,
    /// The bytes go to this URL.
    Put(String),
    /// The bytes go to this path, all at once.
    Post(String),
    Fail(AttemptError),
    /// The status says why it failed.
    Classify,
}

#[verifier::ext_equal]
pub enum UploadNext {
    Done,
    Put(Seq<char>),
    Post(Seq<char>),
    Fail(Failure),
    Classify,
}

impl View for UploadStep {
    type V = UploadNext;

    open spec fn view(&self) -> UploadNext {
        match self {
            UploadStep::Done => UploadNext::Done,
            UploadStep::Put(u) => UploadNext::Put(u@),
            UploadStep::Post(p) => UploadNext::Post(p@),
            UploadStep::Fail(e) => UploadNext::Fail(e@),
            UploadStep::Classify => UploadNext::Classify,
        }
    }
}

/// What follows the beginning of an upload. Where the registry names no place for the
/// bytes, or knows no such beginning, they are sent all at once.
pub open spec fn upload_next(
    status: int,
    shown: Seq<char>,
    location: Option<Seq<char>>,
    endpoint: Seq<char>,
    repo: Seq<char>,
    digest: Seq<char>,
) -> UploadNext {
    if status == 201 {
        UploadNext::Done
    } else if status == 202 && location is Some {
        UploadNext::Put(digest_url(location_url(endpoint, location->0), digest))
    } else if status == 202 || status == 404 || status == 405 {
        UploadNext::Post(uploads_path(repo) + "?digest="@ + digest)
    } else if is_success(status) {
        UploadNext::Fail(
            failed(false, 0, "blob "@ + digest + ": unexpected initiate status "@ + shown),
        )
    } else {
        UploadNext::Classify
    }
}

pub fn upload_begun(
    status: u16,
    shown: &str,
    location: Option<&str>,
    endpoint: &str,
    image: &ImageRef,
    digest: &str,
) -> (r: UploadStep)
    ensures
        r@ == upload_next(
            status as int,
            shown@,
            opt_str(location),
            endpoint@,
            image@.repo,
            digest@,
        ),
{
    if status == 201 {
        return UploadStep::Done;
    }
    if status == 202 {
        if let Some(l) = location {
            let u: String = resolve_location(endpoint, l);
            return UploadStep::Put(with_digest_query(u.as_str(), digest));
        }
    }
    if status == 202 || status == 404 || status == 405 {
        let mut p: String = upload_path(image);
        p.append("?digest=");
        p.append(digest);
        return UploadStep::Post(p);
    }
    if success(status) {
        let mut e: String = "blob ".to_owned();
        e.append(digest);
        e.append(": unexpected initiate status ");
        e.append(shown);
        return UploadStep::Fail(AttemptError::fatal(e));
    }
    UploadStep::Classify
}

/// What a reply to the bytes of an upload means.
pub open spec fn put_next(
    status: int,
    shown: Seq<char>,
    retry_header: Option<Seq<char>>,
    body: Seq<char>,
    errors: Seq<(Seq<char>, Seq<char>)>,
    digest: Seq<char>,
) -> Result<(), Failure> {
    if status == 201 || status == 202 {
        Ok(())
    } else if is_transient(status) {
        Err(
            failed(
                true,
                retry_after(retry_header),
                "blob "@ + digest + " upload failed ("@ + shown + "): "@ + truncated(body, 300),
            ),
        )
    } else {
        Err(failed(false, 0, push_refusal(status, body, errors, digest)))
    }
}

pub fn push_blob_put_outcome(
    status: u16,
    shown: &str,
    retry_header: Option<&str>,
    body: &str,
    errors: &Vec<RegistryError>,
    digest: &str,
) -> (r: Result<(), AttemptError>)
    requires
        status == 201 || status == 202 || (if is_transient(status as int) {
            network::cuts_at(body@, 300)
        } else {
            push_error_fits(status as int, body@, error_pairs(errors@))
        }),
    ensures
        ({
            let n = put_next(
                status as int,
                shown@,
                opt_str(retry_header),
                body@,
                error_pairs(errors@),
                digest@,
            );
            match r {
                Ok(_) => n == Ok::<(), Failure>(()),
                Err(e) => n == Err::<(), Failure>(e@),
            }
        }),
{
    if status == 201 || status == 202 {
        return Ok(());
    }
    if transient(status) {
        let mut e: String = "blob ".to_owned();
        e.append(digest);
        e.append(" upload failed (");
        e.append(shown);
        e.append("): ");
        e.append(truncate(body, 300).as_str());
        return Err(AttemptError::retryable_after(e, retry_after_secs(retry_header)));
    }
    Err(classify_push_status(status, retry_header, body, errors, digest))
}

/// What a reply to bytes that were sent all at once means.
pub fn push_blob_post_outcome(
    status: u16,
    retry_header: Option<&str>,
    body: &str,
    errors: &Vec<RegistryError>,
    digest: &str,
) -> (r: Result<(), AttemptError>)
    requires
        status == 201 || status == 202 || push_error_fits(
            status as int,
            body@,
            error_pairs(errors@),
        ),
    ensures
        match r {
            Ok(_) => status == 201 || status == 202,
            Err(e) => status != 201 && status != 202 && e@ == failed(
                is_transient(status as int),
                if is_transient(status as int) {
                    retry_after(opt_str(retry_header))
                } else {
                    0
                },
                push_refusal(status as int, body@, error_pairs(errors@), digest@),
            ),
        },
{
    if status == 201 || status == 202 {
        return Ok(());
    }
    Err(classify_push_status(status, retry_header, body, errors, digest))
}

/// What follows a manifest that was pushed.
pub enum PushStep {
    /// The manifest's digest.
    Done(String),
    /// The manifest is pushed again after so many milliseconds.
    Wait(u64),
    Fail(String),
}

#[verifier::ext_equal]
pub enum PushNext {
    Done(Seq<char>),
    Wait(nat),
    Fail(Seq<char>),
}

impl View for PushStep {
    type V = PushNext;

    open spec fn view(&self) -> PushNext {
        match self {
            PushStep::Done(d) => PushNext::Done(d@),
            PushStep::Wait(ms) => PushNext::Wait(*ms as nat),
            PushStep::Fail(e) => PushNext::Fail(e@),
        }
    }
}

pub open spec fn larger(a: nat, b: nat) -> nat {
    if a > b {
        a
    } else {
        b
    }
}

/// What a reply to a manifest means: the digest that the registry confirms has to be the
/// manifest's own.
pub open spec fn pushed(
    manifest: Seq<u8>,
    status: int,
    attempt: int,
    header: Option<Seq<char>>,
    retry_header: Option<Seq<char>>,
    body: Seq<char>,
    errors: Seq<(Seq<char>, Seq<char>)>,
    reference: Seq<char>,
) -> PushNext {
    let d = encode::digest_text(manifest);
    if is_success(status) {
        if header is Some && header->0 != d {
            PushNext::Fail(
                "Docker-Content-Digest "@ + header->0 + " does not match pushed manifest "@ + d,
            )
        } else {
            PushNext::Done(d)
        }
    } else if is_transient(status) && attempt < 4 {
        PushNext::Wait(1000 * larger(retry_after(retry_header), backoff(attempt)))
    } else {
        PushNext::Fail(push_refusal(status, body, errors, reference))
    }
}

/// What follows a manifest that was pushed.
pub fn manifest_pushed(
    manifest: &[u8],
    status: u16,
    attempt: u32,
    digest_header: Option<&str>,
    retry_header: Option<&str>,
    body: &str,
    errors: &Vec<RegistryError>,
    reference: &str,
) -> (r: PushStep)
    requires
        is_success(status as int) || (is_transient(status as int) && attempt < 4)
            || push_error_fits(status as int, body@, error_pairs(errors@)),
    ensures
        r@ == pushed(
            manifest@,
            status as int,
            attempt as int,
            opt_str(digest_header),
            opt_str(retry_header),
            body@,
            error_pairs(errors@),
            reference@,
        ),
{
    if success(status) {
        let d: String = digest_of(manifest);
        if let Some(h) = digest_header {
            if !same(h, d.as_str()) {
                let mut e: String = "Docker-Content-Digest ".to_owned();
                e.append(h);
                e.append(" does not match pushed manifest ");
                e.append(d.as_str());
                return PushStep::Fail(e);
            }
        }
        return PushStep::Done(d);
    }
    if transient(status) && attempt < MAX_FETCH_ATTEMPTS {
        let a: u64 = retry_after_secs(retry_header);
        let b: u64 = blob_backoff(attempt);
        let w: u64 = if a > b {
            a
        } else {
            b
        };
        return PushStep::Wait(1000 * w);
    }
    PushStep::Fail(push_error(status, body, errors, reference))
}

/// What a push gives back is the digest of what was pushed.
pub proof fn law_pushed_digest(
    manifest: Seq<u8>,
    status: int,
    attempt: int,
    header: Option<Seq<char>>,
    retry_header: Option<Seq<char>>,
    body: Seq<char>,
    errors: Seq<(Seq<char>, Seq<char>)>,
    reference: Seq<char>,
    digest: Seq<char>,
)
    requires
        pushed(manifest, status, attempt, header, retry_header, body, errors, reference)
            == PushNext::Done(digest),
    ensures
        digest == encode::digest_text(manifest),
        header matches Some(h) ==> h == digest,
        is_success(status),
{
}

/// The URL that an upload's bytes go to names a digest.
pub proof fn law_upload_names_digest(url: Seq<char>, digest: Seq<char>)
    ensures
        text::contains(digest_url(url, digest), "digest="@),
{
    let p = "digest="@;
    if !text::contains(url, p) {
        reveal_strlit("digest=");
        reveal_strlit("&digest=");
        reveal_strlit("?digest=");
        let u = digest_url(url, digest);
        let k = url.len() as int + 1;
        assert(u.subrange(k, k + p.len() as int) =~= p);
        text::lemma_find_hits(u, p, k);
    }
}

} // verus!
