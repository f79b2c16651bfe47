//! Ports as they are written on the command line and in compose files:
//! `[host_ip:][host_port[-range]:]container[-range][/proto]`.

use vstd::prelude::*;

use crate::addr::{self, parse_ipv4, parse_ipv6};
use crate::num::{self, decimal_text, parse_unsigned};
use crate::text::{self, chars_of, cut, same, str_cut, str_rcut, str_strip_prefix, string_of};
use crate::unicode::{self, quote};

verus! {

/// One port of a container and where it is published.
#[derive(Debug, Clone, PartialEq, Eq)]
pub struct PortMapping {
    /// The container's side: `80/tcp`.
    pub container_key: String,
    pub host_ip: String,
    /// Empty where a free port is taken.
    pub host_port: String,
}

#[verifier::ext_equal]
pub struct MappingView {
    pub container_key: Seq<char>,
    pub host_ip: Seq<char>,
    pub host_port: Seq<char>,
}

impl View for PortMapping {
    type V = MappingView;

    open spec fn view(&self) -> MappingView {
        MappingView {
            container_key: self.container_key@,
            host_ip: self.host_ip@,
            host_port: self.host_port@,
        }
    }
}

pub open spec fn mapping_views(v: Seq<PortMapping>) -> Seq<MappingView> {
    Seq::new(v.len(), |i: int| v[i]@)
}

/// The first and the last port of a range, which may be one port.
pub open spec fn range_of(s: Seq<char>, what: Seq<char>) -> Result<(nat, nat), Seq<char>> {
    let (a, b) = match text::split_once(s, seq!['-']) {
        Some((a, b)) => (a, b),
        None => (s, s),
    };
    if s.len() == 0 {
        Err("empty "@ + what + " port"@)
    } else {
        match (num::unsigned(a, 65535), num::unsigned(b, 65535)) {
            (Some(lo), Some(hi)) => if lo == 0 || hi == 0 || hi < lo {
                Err("invalid "@ + what + " port range "@ + unicode::quoted(s))
            } else {
                Ok((lo, hi))
            },
            (None, _) => Err("invalid "@ + what + " port "@ + unicode::quoted(a)),
            (_, None) => Err("invalid "@ + what + " port "@ + unicode::quoted(b)),
        }
    }
}

fn parse_range(s: &str, what: &str) -> (r: Result<(u16, u16), String>)
    ensures
        match r {
            Ok((lo, hi)) => range_of(s@, what@) == Ok::<(nat, nat), Seq<char>>(
                (lo as nat, hi as nat),
            ) && 1 <= lo <= hi,
            Err(e) => range_of(s@, what@) == Err::<(nat, nat), Seq<char>>(e@),
        },
{
    if s.is_empty() {
        let mut e: String = "empty ".to_owned();
        e.append(what);
        e.append(" port");
        return Err(e);
    }
    let (a, b): (String, String) = match str_cut(s, '-') {
        Some(p) => p,
        None => (s.to_owned(), s.to_owned()),
    };
    let mut e: String = "invalid ".to_owned();
    e.append(what);
    let lo: u64 = match parse_unsigned(chars_of(a.as_str()).as_slice(), 65535) {
        Some(n) => n,
        None => {
            e.append(" port ");
            e.append(quote(a.as_str()).as_str());
            return Err(e);
        },
    };
    let hi: u64 = match parse_unsigned(chars_of(b.as_str()).as_slice(), 65535) {
        Some(n) => n,
        None => {
            e.append(" port ");
            e.append(quote(b.as_str()).as_str());
            return Err(e);
        },
    };
    if lo == 0 || hi == 0 || hi < lo {
        e.append(" port range ");
        e.append(quote(s).as_str());
        return Err(e);
    }
    Ok((lo as u16, hi as u16))
}

/// The address and the port of the host's side.
pub open spec fn host_side(host: Seq<char>, spec_text: Seq<char>) -> Result<
    (Seq<char>, Seq<char>),
    Seq<char>,
> {
    if host.len() == 0 {
        Ok((Seq::empty(), Seq::empty()))
    } else {
        match text::strip_prefix(host, "["@) {
            Some(b) => match text::split_once(b, "]:"@) {
                Some((ip, port)) => Ok((ip, port)),
                None => Err("invalid host part in "@ + unicode::quoted(spec_text)),
            },
            None => match text::split_once(host, seq![':']) {
                Some((ip, port)) => Ok((ip, port)),
                None => Ok((Seq::empty(), host)),
            },
        }
    }
}

pub open spec fn is_address(s: Seq<char>) -> bool {
    addr::ipv4(s) is Some || addr::ipv6(s) is Some
}

/// The mapping of the `i`th port of a range.
pub open spec fn nth_mapping(
    lo: nat,
    proto: Seq<char>,
    ip: Seq<char>,
    host_lo: Option<nat>,
    i: int,
) -> MappingView {
    MappingView {
        container_key: num::decimal((lo + i) as nat) + "/"@ + proto,
        host_ip: ip,
        host_port: match host_lo {
            Some(h) => num::decimal((h + i) as nat),
            None => Seq::empty(),
        },
    }
}

pub open spec fn mappings(
    lo: nat,
    n: nat,
    proto: Seq<char>,
    ip: Seq<char>,
    host_lo: Option<nat>,
) -> Seq<MappingView> {
    Seq::new(n, |i: int| nth_mapping(lo, proto, ip, host_lo, i))
}

/// The container's side and the protocol of a specification.
pub open spec fn rest_and_proto(s: Seq<char>) -> (Seq<char>, Seq<char>) {
    match text::rsplit_once(s, seq!['/']) {
        Some((r, p)) => (r, p),
        None => (s, "tcp"@),
    }
}

pub open spec fn host_and_container(rest: Seq<char>) -> (Seq<char>, Seq<char>) {
    match text::rsplit_once(rest, seq![':']) {
        Some((h, c)) => (h, c),
        None => (Seq::empty(), rest),
    }
}

/// What a specification means, a mapping for each port of its range.
pub open spec fn spec_mappings(s: Seq<char>) -> Result<Seq<MappingView>, Seq<char>> {
    let (rest, proto) = rest_and_proto(s);
    let (host, container) = host_and_container(rest);
    if proto != "tcp"@ && proto != "udp"@ {
        Err("unsupported protocol "@ + unicode::quoted(proto) + " (want tcp or udp)"@)
    } else if container.len() == 0 {
        Err("missing container port in "@ + unicode::quoted(s))
    } else {
        match host_side(host, s) {
            Err(e) => Err(e),
            Ok((ip, port)) => if ip.len() > 0 && !is_address(ip) {
                Err("invalid host IP "@ + unicode::quoted(ip))
            } else {
                match range_of(container, "container"@) {
                    Err(e) => Err(e),
                    Ok((lo, hi)) => if port.len() == 0 {
                        Ok(mappings(lo, (hi - lo + 1) as nat, proto, ip, None))
                    } else {
                        match range_of(port, "host"@) {
                            Err(e) => Err(e),
                            Ok((hlo, hhi)) => if hhi - hlo != hi - lo {
                                Err(
                                    "host and container port ranges must have the same length in "@
                                        + unicode::quoted(s),
                                )
                            } else {
                                Ok(mappings(lo, (hi - lo + 1) as nat, proto, ip, Some(hlo)))
                            },
                        }
                    },
                }
            },
        }
    }
}

fn read_host_side(host: &str, spec_text: &str) -> (r: Result<(String, String), String>)
    ensures
        match r {
            Ok((a, b)) => host_side(host@, spec_text@) == Ok::<(Seq<char>, Seq<char>), Seq<char>>(
                (a@, b@),
            ),
            Err(e) => host_side(host@, spec_text@) == Err::<(Seq<char>, Seq<char>), Seq<char>>(e@),
        },
{
    if host.is_empty() {
        return Ok((String::new(), String::new()));
    }
    match str_strip_prefix(host, "[") {
        Some(b) => match cut(
            chars_of(b.as_str()).as_slice(),
            chars_of("]:").as_slice(),
        ) {
            Some((ip, port)) => Ok((string_of(ip), string_of(port))),
            None => {
                let mut e: String = "invalid host part in ".to_owned();
                e.append(quote(spec_text).as_str());
                Err(e)
            },
        },
        None => match str_cut(host, ':') {
            Some(p) => Ok(p),
            None => Ok((String::new(), host.to_owned())),
        },
    }
}

fn expand(lo: u16, hi: u16, proto: &str, ip: &str, host_lo: Option<u16>) -> (r: Vec<PortMapping>)
    requires
        1 <= lo <= hi,
        host_lo matches Some(h) ==> h + (hi - lo) <= 65535,
    ensures
        mapping_views(r@) == mappings(
            lo as nat,
            (hi - lo + 1) as nat,
            proto@,
            ip@,
            match host_lo {
                Some(h) => Some(h as nat),
                None => None,
            },
        ),
{
    let n: usize = hi as usize - lo as usize + 1;
    let ghost hl = match host_lo {
        Some(h) => Some(h as nat),
        None => None,
    };
    let ghost mv = mappings(lo as nat, n as nat, proto@, ip@, hl);
    let mut out: Vec<PortMapping> = Vec::new();
    let mut i: usize = 0;
    while i < n
        invariant
            i <= n,
            n == hi - lo + 1,
            mv == mappings(lo as nat, n as nat, proto@, ip@, hl),
            hl == match host_lo {
                Some(h) => Some(h as nat),
                None => None::<nat>,
            },
            mapping_views(out@) =~= mv.take(i as int),
        decreases n - i,
    {
        let ghost before = out@;
        let mut key: String = decimal_text(lo as u128 + i as u128);
        key.append("/");
        key.append(proto);
        let hp: String = match host_lo {
            Some(h) => decimal_text(h as u128 + i as u128),
            None => String::new(),
        };
        let m: PortMapping = PortMapping {
            container_key: key,
            host_ip: ip.to_owned(),
            host_port: hp,
        };
        assert(m@ =~= mv[i as int]);
        out.push(m);
        assert(mapping_views(out@) =~= mapping_views(before).push(m@));
        assert(mv.take(i as int + 1) =~= mv.take(i as int).push(mv[i as int]));
        i += 1;
    }
    assert(mv.take(n as int) =~= mv);
    out
}

/// Reads a specification.
pub fn parse_port_spec(spec: &str) -> (r: Result<Vec<PortMapping>, String>)
    ensures
        match r {
            Ok(v) => spec_mappings(spec@) == Ok::<Seq<MappingView>, Seq<char>>(mapping_views(v@)),
            Err(e) => spec_mappings(spec@) == Err::<Seq<MappingView>, Seq<char>>(e@),
        },
{
    let (rest, proto): (String, String) = match str_rcut(spec, '/') {
        Some(p) => p,
        None => (spec.to_owned(), "tcp".to_owned()),
    };
    if !same(proto.as_str(), "tcp") && !same(proto.as_str(), "udp") {
        let mut e: String = "unsupported protocol ".to_owned();
        e.append(quote(proto.as_str()).as_str());
        e.append(" (want tcp or udp)");
        return Err(e);
    }
    let (host, container): (String, String) = match str_rcut(rest.as_str(), ':') {
        Some(p) => p,
        None => (String::new(), rest.clone()),
    };
    assert(host_and_container(rest@) == (host@, container@)) by {
        if text::rsplit_once(rest@, seq![':']) is None {
            assert(host@ =~= Seq::empty());
        }
    }
    if container.as_str().is_empty() {
        let mut e: String = "missing container port in ".to_owned();
        e.append(quote(spec).as_str());
        return Err(e);
    }
    let (ip, port): (String, String) = match read_host_side(host.as_str(), spec) {
        Ok(p) => p,
        Err(e) => {
            return Err(e);
        },
    };
    if !ip.as_str().is_empty() && parse_ipv4(ip.as_str()).is_none() && parse_ipv6(
        ip.as_str(),
    ).is_none() {
        let mut e: String = "invalid host IP ".to_owned();
        e.append(quote(ip.as_str()).as_str());
        return Err(e);
    }
    let (lo, hi): (u16, u16) = match parse_range(container.as_str(), "container") {
        Ok(p) => p,
        Err(e) => {
            return Err(e);
        },
    };
    if port.as_str().is_empty() {
        return Ok(expand(lo, hi, proto.as_str(), ip.as_str(), None));
    }
    let (hlo, hhi): (u16, u16) = match parse_range(port.as_str(), "host") {
        Ok(p) => p,
        Err(e) => {
            return Err(e);
        },
    };
    if hhi - hlo != hi - lo {
        let mut e: String =
            "host and container port ranges must have the same length in ".to_owned();
        e.append(quote(spec).as_str());
        return Err(e);
    }
    Ok(expand(lo, hi, proto.as_str(), ip.as_str(), Some(hlo)))
}

// ---------------------------------------------------------------- laws

/// A specification means a mapping for each port of a range, pairwise and in order: no
/// port is lost, doubled or shifted.
pub proof fn law_ranges_pair_up(
    s: Seq<char>,
    v: Seq<MappingView>,
    i: int,
    j: int,
)
    requires
        spec_mappings(s) == Ok::<Seq<MappingView>, Seq<char>>(v),
        0 <= i < j < v.len(),
    ensures
        v[i].container_key != v[j].container_key,
        v[i].host_ip == v[j].host_ip,
        v[i].host_port.len() > 0 ==> v[i].host_port != v[j].host_port,
{
    let (rest, proto) = rest_and_proto(s);
    let (host, container) = host_and_container(rest);
    let (ip, port) = host_side(host, s)->Ok_0;
    let (lo, hi) = range_of(container, "container"@)->Ok_0;
    let a = num::decimal((lo + i) as nat);
    let b = num::decimal((lo + j) as nat);
    if v[i].container_key == v[j].container_key {
        let t = "/"@ + proto;
        assert(a + "/"@ + proto =~= a + t);
        assert(b + "/"@ + proto =~= b + t);
        assert((a + t).len() == (b + t).len());
        assert(a =~= (a + t).take(a.len() as int));
        assert(b =~= (b + t).take(b.len() as int));
        num::lemma_decimal_injective((lo + i) as nat, (lo + j) as nat);
    }
    if port.len() > 0 {
        let (hlo, hhi) = range_of(port, "host"@)->Ok_0;
        if v[i].host_port == v[j].host_port {
            num::lemma_decimal_injective((hlo + i) as nat, (hlo + j) as nat);
        }
    }
}

/// No mapping is ever made for a port that is no port.
pub proof fn law_ports_are_ports(s: Seq<char>, what: Seq<char>, lo: nat, hi: nat)
    requires
        range_of(s, what) == Ok::<(nat, nat), Seq<char>>((lo, hi)),
    ensures
        1 <= lo <= hi <= 65535,
{
}

/// Ports as they are written: one, or the first and the last.
pub open spec fn written_range(lo: nat, hi: nat) -> Seq<char> {
    if lo == hi {
        num::decimal(lo)
    } else {
        num::decimal(lo) + seq!['-'] + num::decimal(hi)
    }
}

/// An address as it is written before a port: in brackets where it holds colons.
pub open spec fn written_address(ip: Seq<char>) -> Seq<char> {
    if ip.contains(':') {
        seq!['['] + ip + seq![']']
    } else {
        ip
    }
}

/// The host's side with its colon; nothing where there is none.
pub open spec fn written_host(ip: Option<Seq<char>>, host: Option<(nat, nat)>) -> Seq<char> {
    (match ip {
        Some(a) => written_address(a) + seq![':'],
        None => Seq::empty(),
    }) + (match host {
        Some((lo, hi)) => written_range(lo, hi) + seq![':'],
        None => if ip is Some {
            seq![':']
        } else {
            Seq::empty()
        },
    })
}

/// A protocol behind its stroke; nothing where it is left out.
pub open spec fn written_protocol(proto: Option<Seq<char>>) -> Seq<char> {
    match proto {
        Some(p) => seq!['/'] + p,
        None => Seq::empty(),
    }
}

proof fn lemma_written_range(lo: nat, hi: nat, what: Seq<char>)
    requires
        1 <= lo <= hi <= 65535,
    ensures
        range_of(written_range(lo, hi), what) == Ok::<(nat, nat), Seq<char>>((lo, hi)),
        written_range(lo, hi).len() > 0,
        forall|i: int|
            0 <= i < written_range(lo, hi).len() ==> (#[trigger] written_range(lo, hi)[i] == '-'
                || '0' <= written_range(lo, hi)[i] <= '9'),
{
    num::lemma_decimal_reads_back(lo);
    num::lemma_decimal_reads_back(hi);
    let a = num::decimal(lo);
    let b = num::decimal(hi);
    let s = written_range(lo, hi);
    assert('0' <= a[0] <= '9' && '0' <= b[0] <= '9');
    assert(num::unsigned_digits(a) == a && num::unsigned_digits(b) == b);
    assert forall|i: int| 0 <= i < s.len() implies (#[trigger] s[i] == '-' || '0' <= s[i] <= '9') by {
        if i < a.len() {
            assert(s[i] == a[i]);
        } else if i > a.len() {
            assert(s[i] == b[i - a.len() - 1]);
        }
    }
    if lo == hi {
        text::lemma_find_char(s, '-');
        if let Some(k) = text::find(s, seq!['-']) {
            assert('0' <= a[k] <= '9');
        }
    } else {
        assert forall|j: int| 0 <= j < a.len() implies s[j] != '-' by {
            assert('0' <= a[j] <= '9');
        }
        text::lemma_found_char(s, '-', a.len() as int);
        assert(s.take(a.len() as int) =~= a);
        assert(s.skip(a.len() + 1int) =~= b);
    }
}

#[verifier::rlimit(40)]
proof fn lemma_written_host(ip: Option<Seq<char>>, host: Option<(nat, nat)>, s: Seq<char>)
    requires
        ip is Some || host is Some,
        ip matches Some(a) ==> a.len() > 0 && !a.contains('[') && !a.contains(']'),
        host matches Some((lo, hi)) ==> 1 <= lo <= hi <= 65535,
    ensures
        ({
            let w = written_host(ip, host);
            &&& w.len() > 0 && w.last() == ':'
            &&& host_side(w.drop_last(), s) == Ok::<(Seq<char>, Seq<char>), Seq<char>>(
                (
                    match ip {
                        Some(a) => a,
                        None => Seq::empty(),
                    },
                    match host {
                        Some((lo, hi)) => written_range(lo, hi),
                        None => Seq::empty(),
                    },
                ),
            )
        }),
{
    reveal_strlit("[");
    reveal_strlit("]:");
    let w = written_host(ip, host);
    let h = w.drop_last();
    let port = match host {
        Some((lo, hi)) => written_range(lo, hi),
        None => Seq::empty(),
    };
    if let Some((lo, hi)) = host {
        lemma_written_range(lo, hi, "host"@);
    }
    match ip {
        None => {
            assert(h =~= port);
            if text::starts_with(h, "["@) {
                assert(h.subrange(0, 1)[0] == h[0]);
                assert("["@[0] == '[');
            }
            text::lemma_find_char(h, ':');
            if let Some(k) = text::find(h, seq![':']) {
                assert(port[k] == ':');
            }
        },
        Some(a) => {
            let wa = written_address(a);
            assert(w =~= wa + seq![':'] + port + seq![':']);
            assert(h =~= wa + seq![':'] + port);
            if a.contains(':') {
                assert(h.subrange(0, 1) =~= "["@);
                let b = h.skip(1);
                assert(b =~= a + "]:"@ + port);
                let n = a.len() as int;
                assert(b.subrange(n, n + 2) =~= "]:"@);
                assert forall|j: int| 0 <= j < n implies !#[trigger] text::occurs_at(b, "]:"@, j) by {
                    assert(b[j] == a[j]);
                    assert(a.contains(a[j]));
                    if text::occurs_at(b, "]:"@, j) {
                        assert(b.subrange(j, j + 2)[0] == b[j]);
                        assert("]:"@[0] == ']');
                    }
                }
                text::lemma_found_at(b, "]:"@, n);
                assert(b.take(n) =~= a);
                assert(b.skip(n + 2) =~= port);
            } else {
                let n = a.len() as int;
                if text::starts_with(h, "["@) {
                    assert(h.subrange(0, 1)[0] == h[0]);
                    assert("["@[0] == '[');
                    assert(a.contains(a[0]));
                }
                assert forall|j: int| 0 <= j < n implies h[j] != ':' by {
                    assert(a.contains(a[j]));
                }
                text::lemma_found_char(h, ':', n);
                assert(h.take(n) =~= a);
                assert(h.skip(n + 1) =~= port);
            }
        },
    }
}

proof fn lemma_no_stroke(ip: Option<Seq<char>>, host: Option<(nat, nat)>, k: int)
    requires
        ip matches Some(a) ==> !a.contains('/'),
        host matches Some((lo, hi)) ==> 1 <= lo <= hi <= 65535,
        0 <= k < written_host(ip, host).len(),
    ensures
        written_host(ip, host)[k] != '/',
{
    let first = match ip {
        Some(a) => written_address(a) + seq![':'],
        None => Seq::empty(),
    };
    let n = first.len() as int;
    if k < n {
        let a = ip->0;
        if a.contains(':') {
            if 1 <= k < a.len() + 1 {
                assert(first[k] == a[k - 1]);
                assert(a.contains(a[k - 1]));
            }
        } else if k < a.len() {
            assert(first[k] == a[k]);
            assert(a.contains(a[k]));
        }
    } else if let Some((lo, hi)) = host {
        lemma_written_range(lo, hi, "host"@);
        let r = written_range(lo, hi);
        if k - n < r.len() {
            assert(written_host(ip, host)[k] == r[k - n]);
        }
    }
}

/// A specification is read as it is written: the ports of the container, in order, with
/// those of the host beside them or none where none is given, at the address that stands
/// before them, over the protocol behind them, which is TCP where it is left out.
#[verifier::rlimit(40)]
pub proof fn law_specification_is_read(
    ip: Option<Seq<char>>,
    host: Option<(nat, nat)>,
    lo: nat,
    hi: nat,
    proto: Option<Seq<char>>,
)
    requires
        1 <= lo <= hi <= 65535,
        host matches Some((a, b)) ==> 1 <= a <= b <= 65535 && b - a == hi - lo,
        ip matches Some(a) ==> is_address(a) && a.len() > 0 && !a.contains('[') && !a.contains(']')
            && !a.contains('/'),
        proto matches Some(p) ==> p == "tcp"@ || p == "udp"@,
    ensures
        spec_mappings(
            written_host(ip, host) + written_range(lo, hi) + written_protocol(proto),
        ) matches Ok(v) && {
            &&& v.len() == hi - lo + 1
            &&& forall|i: int|
                0 <= i < v.len() ==> {
                    &&& (#[trigger] v[i]).container_key == num::decimal((lo + i) as nat)
                        + written_protocol(
                        Some(
                            match proto {
                                Some(p) => p,
                                None => "tcp"@,
                            },
                        ),
                    )
                    &&& v[i].host_ip == match ip {
                        Some(a) => a,
                        None => Seq::empty(),
                    }
                    &&& v[i].host_port == match host {
                        Some((a, _)) => num::decimal((a + i) as nat),
                        None => Seq::empty(),
                    }
                }
        },
{
    reveal_strlit("tcp");
    reveal_strlit("udp");
    reveal_strlit("/");
    let w = written_host(ip, host);
    let c = written_range(lo, hi);
    let rest = w + c;
    let s = rest + written_protocol(proto);
    let p = match proto {
        Some(p) => p,
        None => "tcp"@,
    };
    lemma_written_range(lo, hi, "container"@);
    if let Some((a, b)) = host {
        lemma_written_range(a, b, "host"@);
    }
    assert(!p.contains('/')) by {
        if p.contains('/') {
            let j = choose|j: int| 0 <= j < p.len() && p[j] == '/';
            assert(j == 0 || j == 1 || j == 2);
        }
    }
    if proto is Some {
        let n = rest.len() as int;
        assert forall|j: int| n < j < s.len() implies s[j] != '/' by {
            assert(p.contains(p[j - n - 1]));
        }
        text::lemma_rfound_char(s, '/', n);
        assert(s.take(n) =~= rest);
        assert(s.skip(n + 1) =~= p);
    } else {
        assert(s =~= rest);
        text::lemma_rfind_char(s, '/');
        if let Some(k) = text::rfind(s, seq!['/']) {
            if k >= w.len() {
                assert(s[k] == c[k - w.len()]);
            } else {
                assert(s[k] == w[k]);
                lemma_no_stroke(ip, host, k);
            }
        }
        assert(text::rfind(s, seq!['/']) is None);
    }
    let (ipt, port) = (
        match ip {
            Some(a) => a,
            None => Seq::empty(),
        },
        match host {
            Some((a, b)) => written_range(a, b),
            None => Seq::empty(),
        },
    );
    if ip is Some || host is Some {
        lemma_written_host(ip, host, s);
        let n = w.len() - 1;
        assert forall|j: int| n < j < rest.len() implies rest[j] != ':' by {
            assert(rest[j] == c[j - w.len()]);
        }
        assert(rest[n] == w.last());
        text::lemma_rfound_char(rest, ':', n);
        assert(rest.take(n) =~= w.drop_last());
        assert(rest.skip(n + 1) =~= c);
    } else {
        assert(w.len() == 0);
        assert(rest =~= c);
        text::lemma_rfind_char(rest, ':');
        if let Some(k) = text::rfind(rest, seq![':']) {
            assert(c[k] == ':');
        }
        assert(text::rsplit_once(rest, seq![':']) is None);
    }
    assert(rest_and_proto(s) == (rest, p));
    assert(host_and_container(rest).1 == c);
    assert(host_side(host_and_container(rest).0, s) == Ok::<(Seq<char>, Seq<char>), Seq<char>>(
        (ipt, port),
    ));
    let v = spec_mappings(s)->Ok_0;
    let hlo = match host {
        Some((a, _)) => Some(a),
        None => None,
    };
    assert(v == mappings(lo, (hi - lo + 1) as nat, p, ipt, hlo));
    assert forall|i: int| 0 <= i < v.len() implies (#[trigger] v[i]).container_key == num::decimal(
        (lo + i) as nat,
    ) + written_protocol(Some(p)) by {
        let d = num::decimal((lo + i) as nat);
        assert("/"@ =~= seq!['/']);
        assert(d + "/"@ + p =~= d + (seq!['/'] + p));
    }
}

pub open spec fn is_port_text(s: Seq<char>) -> bool {
    exists|n: nat| 1 <= n <= 65535 && s == #[trigger] num::decimal(n)
}

/// Whatever is read is something that can be published: at least one port, each a port of
/// TCP or UDP, at an address or at all of them, on a port of the host or on any.
pub proof fn law_only_ports_are_mapped(s: Seq<char>, v: Seq<MappingView>, i: int)
    requires
        spec_mappings(s) == Ok::<Seq<MappingView>, Seq<char>>(v),
        0 <= i < v.len(),
    ensures
        exists|port: Seq<char>| #[trigger]
            is_port_text(port) && (v[i].container_key == port + "/tcp"@ || v[i].container_key
                == port + "/udp"@),
        v[i].host_port.len() == 0 || is_port_text(v[i].host_port),
        v[i].host_ip.len() == 0 || is_address(v[i].host_ip),
{
    reveal_strlit("/");
    reveal_strlit("tcp");
    reveal_strlit("udp");
    reveal_strlit("/tcp");
    reveal_strlit("/udp");
    let (rest, proto) = rest_and_proto(s);
    let (host, container) = host_and_container(rest);
    let (ip, port) = host_side(host, s)->Ok_0;
    let (lo, hi) = range_of(container, "container"@)->Ok_0;
    let d = num::decimal((lo + i) as nat);
    assert(is_port_text(d));
    if proto == "tcp"@ {
        assert(d + "/"@ + proto =~= d + "/tcp"@);
    } else {
        assert(d + "/"@ + proto =~= d + "/udp"@);
    }
    if port.len() > 0 {
        let (hlo, hhi) = range_of(port, "host"@)->Ok_0;
        assert(is_port_text(num::decimal((hlo + i) as nat)));
    }
}

/// Ranges of different lengths are refused, and so is a protocol that is neither TCP nor
/// UDP.
pub proof fn law_unlike_ranges_are_refused(a: nat, b: nat, lo: nat, hi: nat, proto: Seq<char>)
    requires
        1 <= a <= b <= 65535,
        1 <= lo <= hi <= 65535,
        !proto.contains('/'),
        b - a != hi - lo || (proto != "tcp"@ && proto != "udp"@),
    ensures
        spec_mappings(
            written_range(a, b) + seq![':'] + written_range(lo, hi) + seq!['/'] + proto,
        ) is Err,
{
    let w = written_range(a, b);
    let c = written_range(lo, hi);
    let rest = w + seq![':'] + c;
    let s = rest + seq!['/'] + proto;
    lemma_written_range(a, b, "host"@);
    lemma_written_range(lo, hi, "container"@);
    let n = rest.len() as int;
    assert forall|j: int| n < j < s.len() implies s[j] != '/' by {
        assert(proto.contains(proto[j - n - 1]));
    }
    text::lemma_rfound_char(s, '/', n);
    assert(s.take(n) =~= rest);
    assert(s.skip(n + 1) =~= proto);
    let k = w.len() as int;
    assert forall|j: int| k < j < rest.len() implies rest[j] != ':' by {
        assert(rest[j] == c[j - k - 1]);
    }
    text::lemma_rfound_char(rest, ':', k);
    assert(rest.take(k) =~= w);
    assert(rest.skip(k + 1) =~= c);
    lemma_written_host(None, Some((a, b)), s);
    assert(written_host(None, Some((a, b))).drop_last() =~= w);
}

} // verus!
