//! The network manager: which networks there are, what each operation changes, and the
//! commands that carry it out.

use vstd::prelude::*;

use crate::addr::{self, ipv4_text, ipv6_text, parse_ipv4};
use crate::dns::{self, register, scrub};
use crate::dockerfile::{self, Scan, lines_text};
use crate::ipam::{self, Ipam, Subnet, V6Subnet, default_gateway};
use crate::json::{self, item_pointer, items_at, text_at};
use crate::network::{self, AttachRequest, DEFAULT_FIXED_CIDR_V6, EndpointAllocation, Ip6Rule, NetworkRecord, PortConflict, PortRule, PortRuleView, RuleView, V6_SUBNET_PREFIX, add_word, assign_v6_subnet, copy_strings, first_bytes, publish_ip_wild, publish_overlaps, v4_network_rules, v6_bridge_addr, v6_network_rules, words_of};
use crate::num::{self, decimal_text, signed_decimal_text};
use crate::reference;
use crate::table::{self, Table, copy_table};
use crate::text::{self, chars_of, has_prefix, one_char, same, split_text, trim_text};
use crate::unicode::{self, quote};

verus! {

/// Whether networks get IPv6 ranges, and out of which pool.
#[derive(Debug, Clone)]
pub struct Ipv6Config {
    pub enabled: bool,
    pub pool: String,
}

impl Default for Ipv6Config {
    fn default() -> (r: Ipv6Config)
        ensures
            !r.enabled,
            r.pool@ == "fd00:dead:beef::/48"@,
    {
        Ipv6Config { enabled: false, pool: DEFAULT_FIXED_CIDR_V6.to_owned() }
    }
}

/// The networks there are and what they have given out.
pub struct NetworkManager {
    pub networks: Vec<NetworkRecord>,
    pub ipam: Ipam,
    pub published: Vec<PortRule>,
    pub ipv6: Ipv6Config,
    /// By network, the IPv6 address of each endpoint under its IPv4 address.
    pub v6_by_v4: Table<Table<String>>,
    /// By network, the addresses under their names: names stay on their network.
    pub dns: Table<Table<String>>,
    pub dns6: Table<Table<String>>,
    /// By network, the search domains of each endpoint under its address.
    pub dns_search: Table<Table<Vec<String>>>,
    /// The bridges that have been set up since the daemon started.
    pub bridges_ready: Vec<String>,
}

// ---------------------------------------------------------------- tables by network

/// The value under a key in the table of a network.
pub open spec fn at2<V>(t: Table<Table<V>>, net: Seq<char>, k: Seq<char>) -> Option<V> {
    match t.at(net) {
        Some(u) => u.at(k),
        None => None,
    }
}

/// The text under a key in the table of a network.
pub open spec fn text2(t: Table<Table<String>>, net: Seq<char>, k: Seq<char>) -> Option<Seq<char>> {
    match t.at(net) {
        Some(u) => dns::entry(u, k),
        None => None,
    }
}

/// Puts a value under a key in the table of a network.
fn put2<V>(t: &mut Table<Table<V>>, net: &str, k: String, v: V)
    ensures
        at2(*final(t), net@, k@) == Some(v),
        forall|n: Seq<char>, x: Seq<char>|
            (n != net@ || x != k@) ==> #[trigger] at2(*final(t), n, x) == at2(*old(t), n, x),
{
    let mut u: Table<V> = take_table(t, net);
    u.insert(k, v);
    t.insert(net.to_owned(), u);
}

/// Takes the table of a network out, or makes one.
fn take_table<V>(t: &mut Table<Table<V>>, net: &str) -> (r: Table<V>)
    ensures
        forall|x: Seq<char>| #[trigger] r.at(x) == at2(*old(t), net@, x),
        forall|n: Seq<char>| n != net@ ==> #[trigger] final(t).at(n) == old(t).at(n),
{
    let mut u: Table<V> = Table::new();
    match t.find(net) {
        Some(i) => {
            let ghost before = *t;
            let mut e: (String, Table<V>) = t.entries.remove(i);
            std::mem::swap(&mut u, &mut e.1);
            proof {
                table::lemma_removed(before, *t, net@);
            }
        },
        None => {},
    }
    u
}

/// Takes away what stands under a key in the table of a network.
fn drop2<V>(t: &mut Table<Table<V>>, net: &str, k: &str)
    ensures
        at2(*final(t), net@, k@) is None,
        forall|n: Seq<char>, x: Seq<char>|
            (n != net@ || x != k@) ==> #[trigger] at2(*final(t), n, x) == at2(*old(t), n, x),
{
    let mut u: Table<V> = take_table(t, net);
    u.remove(k);
    t.insert(net.to_owned(), u);
}

/// The text under a key in the table of a network.
fn look2(t: &Table<Table<String>>, net: &str, k: &str) -> (r: Option<String>)
    ensures
        reference::opt_text(r) == text2(*t, net@, k@),
{
    match t.get(net) {
        Some(u) => match u.get(k) {
            Some(v) => Some(v.clone()),
            None => None,
        },
        None => None,
    }
}

/// Registers an address under names in the table of a network.
fn register2(t: &mut Table<Table<String>>, net: &str, keys: &[String], ip: &str)
    ensures
        forall|n: Seq<char>, x: Seq<char>|
            #[trigger] text2(*final(t), n, x) == if n == net@ && dns::lowered_keys(keys@).contains(
                x,
            ) {
                Some(ip@)
            } else {
                text2(*old(t), n, x)
            },
{
    let mut u: Table<String> = take_table(t, net);
    let ghost u0 = u;
    register(&mut u, keys, ip);
    t.insert(net.to_owned(), u);
    proof {
        assert forall|n: Seq<char>, x: Seq<char>|
            #[trigger] text2(*t, n, x) == if n == net@ && dns::lowered_keys(keys@).contains(x) {
                Some(ip@)
            } else {
                text2(*old(t), n, x)
            } by {
            assert(u0.at(x) == at2(*old(t), net@, x));
            assert(dns::entry(u, x) == if dns::lowered_keys(keys@).contains(x) {
                Some(ip@)
            } else {
                dns::entry(u0, x)
            });
        }
    }
}

/// Takes away the names that still lead to the address in the table of a network.
fn scrub2(t: &mut Table<Table<String>>, net: &str, keys: &[String], want: &str)
    ensures
        forall|n: Seq<char>, x: Seq<char>|
            #[trigger] text2(*final(t), n, x) == if n == net@ && dns::lowered_keys(keys@).contains(
                x,
            ) && text2(*old(t), n, x) == Some(want@) {
                None
            } else {
                text2(*old(t), n, x)
            },
{
    let mut u: Table<String> = take_table(t, net);
    let ghost u0 = u;
    scrub(&mut u, keys, want);
    t.insert(net.to_owned(), u);
    proof {
        assert forall|n: Seq<char>, x: Seq<char>|
            #[trigger] text2(*t, n, x) == if n == net@ && dns::lowered_keys(keys@).contains(x)
                && text2(*old(t), n, x) == Some(want@) {
                None
            } else {
                text2(*old(t), n, x)
            } by {
            assert(u0.at(x) == at2(*old(t), net@, x));
            assert(dns::entry(u, x) == if dns::lowered_keys(keys@).contains(x) && dns::entry(u0, x)
                == Some(want@) {
                None
            } else {
                dns::entry(u0, x)
            });
        }
    }
}

// ---------------------------------------------------------------- looking up

/// The first network that has the id or the name, or the end.
pub open spec fn named_from(v: Seq<NetworkRecord>, k: Seq<char>, by_id: bool, i: int) -> int
    decreases v.len() - i,
{
    if i < 0 || i >= v.len() || v[i].name@ == k || (by_id && v[i].id@ == k) {
        i
    } else {
        named_from(v, k, by_id, i + 1)
    }
}

/// The place of the network that `k` names, as a name, an id or the default.
pub open spec fn resolved_place(v: Seq<NetworkRecord>, k: Seq<char>) -> Result<int, Seq<char>> {
    let p = named_from(v, k, true, 0);
    if p < v.len() {
        Ok(p)
    } else if k.len() == 0 || k == "default"@ || k == "bridge"@ {
        let b = named_from(v, "bridge"@, false, 0);
        if b < v.len() {
            Ok(b)
        } else {
            Err("bridge network missing"@)
        }
    } else {
        Err("no such network: "@ + k)
    }
}

fn find_network(v: &Vec<NetworkRecord>, k: &str, by_id: bool) -> (r: Option<usize>)
    ensures
        match r {
            Some(i) => i < v@.len() && named_from(v@, k@, by_id, 0) == i,
            None => named_from(v@, k@, by_id, 0) == v@.len(),
        },
{
    let mut i: usize = 0;
    while i < v.len()
        invariant
            i <= v.len(),
            named_from(v@, k@, by_id, 0) == named_from(v@, k@, by_id, i as int),
        decreases v.len() - i,
    {
        if same(v[i].name.as_str(), k) || (by_id && same(v[i].id.as_str(), k)) {
            return Some(i);
        }
        i += 1;
    }
    None
}

// ---------------------------------------------------------------- copies

/// Two records agree in everything but their IPv6 range.
pub open spec fn agree_but_v6(a: NetworkRecord, b: NetworkRecord) -> bool {
    &&& a.id@ == b.id@
    &&& a.name@ == b.name@
    &&& a.driver@ == b.driver@
    &&& a.bridge@ == b.bridge@
    &&& a.subnet@ == b.subnet@
    &&& a.gateway@ == b.gateway@
    &&& a.created@ == b.created@
    &&& a.internal == b.internal
    &&& a.attachable == b.attachable
    &&& a.options.entries@ == b.options.entries@
    &&& a.labels.entries@ == b.labels.entries@
}

pub open spec fn agree(a: NetworkRecord, b: NetworkRecord) -> bool {
    &&& agree_but_v6(a, b)
    &&& a.subnet_v6@ == b.subnet_v6@
    &&& a.gateway_v6@ == b.gateway_v6@
}

/// A copy of a record.
pub fn copy_record(a: &NetworkRecord) -> (r: NetworkRecord)
    ensures
        agree(r, *a),
{
    NetworkRecord {
        id: a.id.clone(),
        name: a.name.clone(),
        driver: a.driver.clone(),
        bridge: a.bridge.clone(),
        subnet: a.subnet.clone(),
        gateway: a.gateway.clone(),
        subnet_v6: a.subnet_v6.clone(),
        gateway_v6: a.gateway_v6.clone(),
        created: a.created.clone(),
        internal: a.internal,
        attachable: a.attachable,
        options: copy_table(&a.options),
        labels: copy_table(&a.labels),
    }
}

// ---------------------------------------------------------------- creating networks

/// The first network at or behind `i` whose subnet can be read and overlaps `s`.
pub open spec fn overlap_from(v: Seq<NetworkRecord>, s: Subnet, i: int) -> int
    decreases v.len() - i,
{
    if i < 0 || i >= v.len() || (ipam::subnet_of(v[i].subnet@) matches Ok(o) && s.shares(o)) {
        i
    } else {
        overlap_from(v, s, i + 1)
    }
}

/// The gateway that is asked for, or the default one.
pub open spec fn chosen_gateway(s: Subnet, gateway: Option<Seq<char>>) -> Result<
    Seq<char>,
    Seq<char>,
> {
    match gateway {
        Some(g) => match addr::ipv4(g) {
            Some(ip) => if s.usable(ip as int) {
                Ok(g)
            } else {
                Err("invalid gateway "@ + unicode::quoted(g) + ": outside subnet "@ + s.shown())
            },
            None => Err("invalid gateway "@ + unicode::quoted(g) + " (want an IPv4 address)"@),
        },
        None => Ok(addr::ipv4_shown(s.first() as u32)),
    }
}

/// The subnet and the gateway of a new network, or what is wrong with the request.
pub open spec fn checked_params(
    subnet: Seq<char>,
    gateway: Option<Seq<char>>,
    existing: Seq<NetworkRecord>,
) -> Result<(Seq<char>, Seq<char>), Seq<char>> {
    match ipam::subnet_of(subnet) {
        Ok(s) => match chosen_gateway(s, gateway) {
            Ok(g) => {
                let k = overlap_from(existing, s, 0);
                if k < existing.len() {
                    Err(
                        "subnet "@ + s.shown() + " overlaps with network "@ + existing[k].name@
                            + " ("@ + existing[k].subnet@ + ")"@,
                    )
                } else {
                    Ok((s.shown(), g))
                }
            },
            Err(e) => Err(e),
        },
        Err(e) => Err(e),
    }
}

fn find_overlap(v: &[NetworkRecord], s: &Subnet) -> (r: Option<usize>)
    requires
        s.wf(),
    ensures
        match r {
            Some(i) => i < v@.len() && overlap_from(v@, *s, 0) == i,
            None => overlap_from(v@, *s, 0) == v@.len(),
        },
{
    let mut i: usize = 0;
    while i < v.len()
        invariant
            i <= v.len(),
            s.wf(),
            overlap_from(v@, *s, 0) == overlap_from(v@, *s, i as int),
        decreases v.len() - i,
    {
        if let Ok(o) = Subnet::parse(v[i].subnet.as_str()) {
            if s.overlaps(&o) {
                return Some(i);
            }
        }
        i += 1;
    }
    None
}

/// The predefined range with the second octet `b`.
pub open spec fn pool_range(b: int) -> Subnet {
    Subnet { network: ((172 * 256 + b) * 65536) as u32, prefix: 16 }
}

/// The first predefined range from `b` on that overlaps no network.
pub open spec fn free_range(v: Seq<NetworkRecord>, b: int) -> Option<Subnet>
    decreases 32 - b,
{
    if b > 31 {
        None
    } else if overlap_from(v, pool_range(b), 0) >= v.len() {
        Some(pool_range(b))
    } else {
        free_range(v, b + 1)
    }
}

proof fn lemma_pool_range(b: int)
    requires
        18 <= b <= 31,
    ensures
        pool_range(b).wf(),
        pool_range(b).network == (172 * 256 + b) * 65536,
{
    vstd::arithmetic::power2::lemma2_to64();
    assert(ipam::span(16) == 65536);
    vstd::arithmetic::div_mod::lemma_mod_multiples_basic(172 * 256 + b, 65536);
}

/// The IPv4 range and gateway of a new network.
pub open spec fn new_range(
    v: Seq<NetworkRecord>,
    subnet: Option<Seq<char>>,
    gateway: Option<Seq<char>>,
) -> Result<(Seq<char>, Seq<char>), Seq<char>> {
    match subnet {
        Some(s) => checked_params(s, gateway, v),
        None => match free_range(v, 18) {
            Some(s) => Ok((s.shown(), addr::ipv4_shown(s.first() as u32))),
            None => Err("all predefined address pools have been fully subnetted"@),
        },
    }
}

/// The IPv6 ranges that networks have.
pub open spec fn v6_ranges(v: Seq<NetworkRecord>) -> Seq<Seq<char>>
    decreases v.len(),
{
    if v.len() == 0 {
        Seq::empty()
    } else if v.last().subnet_v6@.len() > 0 {
        v6_ranges(v.drop_last()).push(v.last().subnet_v6@)
    } else {
        v6_ranges(v.drop_last())
    }
}

/// The IPv6 range and gateway of a network: empty where there are none.
pub open spec fn new_v6_range(
    enabled: bool,
    pool: Seq<char>,
    id: Seq<char>,
    existing: Seq<Seq<char>>,
) -> Result<(Seq<char>, Seq<char>), Seq<char>> {
    if enabled {
        match network::assigned(pool, id, existing) {
            Ok(s) => Ok((s.shown(), addr::ipv6_shown((s.network + 1) as nat))),
            Err(e) => Err(e),
        }
    } else {
        Ok((Seq::empty(), Seq::empty()))
    }
}

/// Why a network cannot be created, if so; otherwise its four addresses.
pub open spec fn creation(
    v: Seq<NetworkRecord>,
    cfg: Ipv6Config,
    name: Seq<char>,
    driver: Seq<char>,
    subnet: Option<Seq<char>>,
    gateway: Option<Seq<char>>,
    id: Seq<char>,
) -> Result<((Seq<char>, Seq<char>), (Seq<char>, Seq<char>)), Seq<char>> {
    if driver.len() > 0 && driver != "bridge"@ {
        Err("driver "@ + driver + " not supported (bridge only)"@)
    } else if named_from(v, name, false, 0) < v.len() {
        Err("network with name "@ + name + " already exists"@)
    } else {
        match new_range(v, subnet, gateway) {
            Ok(r4) => match new_v6_range(cfg.enabled, cfg.pool@, id, v6_ranges(v)) {
                Ok(r6) => Ok((r4, r6)),
                Err(e) => Err(e),
            },
            Err(e) => Err(e),
        }
    }
}

fn v6_ranges_of(v: &Vec<NetworkRecord>) -> (r: Vec<String>)
    ensures
        text::texts(r@) == v6_ranges(v@),
{
    let mut out: Vec<String> = Vec::new();
    let mut i: usize = 0;
    assert(v@.take(0).len() == 0);
    assert(text::texts(out@) =~= Seq::empty());
    while i < v.len()
        invariant
            i <= v.len(),
            text::texts(out@) == v6_ranges(v@.take(i as int)),
        decreases v.len() - i,
    {
        assert(v@.take(i as int + 1).drop_last() =~= v@.take(i as int));
        if !v[i].subnet_v6.as_str().is_empty() {
            add_word(&mut out, v[i].subnet_v6.as_str());
        }
        i += 1;
    }
    assert(v@.take(v@.len() as int) =~= v@);
    out
}

fn pick_v6_range(cfg: &Ipv6Config, id: &str, existing: &Vec<String>) -> (r: Result<
    (String, String),
    String,
>)
    ensures
        match r {
            Ok((a, b)) => new_v6_range(cfg.enabled, cfg.pool@, id@, text::texts(existing@)) == Ok::<
                (Seq<char>, Seq<char>),
                Seq<char>,
            >((a@, b@)),
            Err(e) => new_v6_range(cfg.enabled, cfg.pool@, id@, text::texts(existing@)) == Err::<
                (Seq<char>, Seq<char>),
                Seq<char>,
            >(e@),
        },
{
    if cfg.enabled {
        assign_v6_subnet(cfg.pool.as_str(), id, existing.as_slice())
    } else {
        Ok((String::new(), String::new()))
    }
}

/// What a new network is made of, besides its addresses.
pub struct NewNetwork {
    pub id: String,
    /// The id that the bridge is named after.
    pub bridge_id: String,
    pub created: String,
    pub internal: bool,
    pub labels: Table<String>,
    pub options: Table<String>,
}

// ---------------------------------------------------------------- starting up

/// What is told of two networks that share addresses.
pub open spec fn overlap_warning(
    a: Seq<char>,
    sa: Seq<char>,
    b: Seq<char>,
    sb: Seq<char>,
) -> Seq<char> {
    "boot: network "@ + a + " ("@ + sa + ") overlaps network "@ + b + " ("@ + sb
        + ") — cross-bridge replies may blackhole"@
}

/// What is told of one network with another behind it.
pub open spec fn pair_warnings(a: NetworkRecord, b: NetworkRecord) -> Seq<Seq<char>> {
    (if ipam::subnet_of(a.subnet@) is Ok && ipam::subnet_of(b.subnet@) is Ok && ipam::subnet_of(
        a.subnet@,
    )->Ok_0.shares(ipam::subnet_of(b.subnet@)->Ok_0) {
        seq![overlap_warning(a.name@, a.subnet@, b.name@, b.subnet@)]
    } else {
        Seq::empty()
    }) + (if ipam::subnet6_of(a.subnet_v6@) is Ok && ipam::subnet6_of(b.subnet_v6@) is Ok
        && ipam::subnet6_of(a.subnet_v6@)->Ok_0.shares(ipam::subnet6_of(b.subnet_v6@)->Ok_0) {
        seq![overlap_warning(a.name@, a.subnet_v6@, b.name@, b.subnet_v6@)]
    } else {
        Seq::empty()
    })
}

/// What is told of the network at `i` with those from `i + 1` to before `j`.
pub open spec fn warnings_to(v: Seq<NetworkRecord>, i: int, j: int) -> Seq<Seq<char>>
    decreases j - i,
{
    if j <= i + 1 {
        match ipam::subnet_of(v[i].subnet@) {
            Ok(s) => if addr::ipv4(v[i].gateway@) is Some && !s.usable(
                addr::ipv4(v[i].gateway@)->0 as int,
            ) {
                seq![
                    "boot: network "@ + v[i].name@ + " gateway "@ + v[i].gateway@
                        + " is outside subnet "@ + v[i].subnet@,
                ]
            } else {
                Seq::empty()
            },
            Err(_) => Seq::empty(),
        }
    } else {
        warnings_to(v, i, j - 1) + pair_warnings(v[i], v[j - 1])
    }
}

/// What is told of one network: of its subnet if that cannot be read, else of its
/// gateway and of every network behind it that it shares addresses with.
pub open spec fn network_warnings(v: Seq<NetworkRecord>, i: int) -> Seq<Seq<char>> {
    if ipam::subnet_of(v[i].subnet@) is Ok {
        warnings_to(v, i, v.len() as int)
    } else {
        seq![
            "boot: network "@ + v[i].name@ + " has invalid subnet "@ + unicode::quoted(
                v[i].subnet@,
            ),
        ]
    }
}

/// What is told of the first `n` networks.
pub open spec fn audit_to(v: Seq<NetworkRecord>, n: int) -> Seq<Seq<char>>
    decreases n,
{
    if n <= 0 {
        Seq::empty()
    } else {
        audit_to(v, n - 1) + network_warnings(v, n - 1)
    }
}

/// The name of the interface on one line of `ip -o link show`.
pub open spec fn interface_of(line: Seq<char>) -> Seq<char> {
    let p = text::split(line, seq![':']);
    let f = if p.len() > 1 {
        text::trim(p[1])
    } else {
        Seq::empty()
    };
    text::split(f, seq!['@'])[0]
}

/// A bridge of ours that no network has.
pub open spec fn is_stale(name: Seq<char>, v: Seq<NetworkRecord>) -> bool {
    &&& text::starts_with(name, "br-"@) || name == "ingot0"@
    &&& forall|i: int| 0 <= i < v.len() ==> (#[trigger] v[i]).bridge@ != name
}

/// The stale bridges on the first `n` lines.
pub open spec fn stale_to(ls: Seq<Seq<char>>, v: Seq<NetworkRecord>, n: int) -> Seq<Seq<char>>
    decreases n,
{
    if n <= 0 {
        Seq::empty()
    } else if is_stale(interface_of(ls[n - 1]), v) {
        stale_to(ls, v, n - 1).push(interface_of(ls[n - 1]))
    } else {
        stale_to(ls, v, n - 1)
    }
}

/// Only bridges of this engine are taken for stale, and never one that a network has.
pub proof fn law_live_bridges_stay(
    ls: Seq<Seq<char>>,
    v: Seq<NetworkRecord>,
    n: int,
    name: Seq<char>,
)
    requires
        stale_to(ls, v, n).contains(name),
    ensures
        text::starts_with(name, "br-"@) || name == "ingot0"@,
        forall|i: int| 0 <= i < v.len() ==> (#[trigger] v[i]).bridge@ != name,
    decreases n,
{
    if n > 0 {
        let before = stale_to(ls, v, n - 1);
        let s = stale_to(ls, v, n);
        let i = choose|i: int| 0 <= i < s.len() && s[i] == name;
        if i < before.len() {
            assert(before[i] == s[i]);
            law_live_bridges_stay(ls, v, n - 1, name);
        }
    }
}

fn interface_name(line: &str) -> (r: String)
    ensures
        r@ == interface_of(line@),
{
    let cs: Vec<char> = chars_of(line);
    let colon: Vec<char> = one_char(':');
    let parts: Vec<String> = split_text(cs.as_slice(), colon.as_slice());
    let fc: Vec<char> = if parts.len() > 1 {
        assert(text::texts(parts@)[1] == parts@[1]@);
        chars_of(parts[1].as_str())
    } else {
        Vec::new()
    };
    let f: &[char] = trim_text(fc.as_slice());
    proof {
        if text::split(line@, seq![':']).len() <= 1 {
            assert(fc@ =~= Seq::empty());
            assert(text::trim(Seq::<char>::empty()) =~= Seq::empty());
        }
        text::lemma_split_join(f@, seq!['@']);
    }
    let at: Vec<char> = one_char('@');
    let names: Vec<String> = split_text(f, at.as_slice());
    assert(text::texts(names@)[0] == names@[0]@);
    names[0].clone()
}

/// The pairs of network ids and addresses that can be read.
pub open spec fn live_to(e: Seq<(String, String)>, n: int) -> Seq<(Seq<char>, u32)>
    decreases n,
{
    if n <= 0 {
        Seq::empty()
    } else {
        match addr::ipv4(e[n - 1].1@) {
            Some(ip) => live_to(e, n - 1).push((e[n - 1].0@, ip)),
            None => live_to(e, n - 1),
        }
    }
}

/// The leases that endpoints of containers hold: network ids and addresses.
pub fn live_leases(endpoints: &Vec<(String, String)>) -> (r: Vec<(String, u32)>)
    ensures
        ipam::live_pairs(r@) == live_to(endpoints@, endpoints@.len() as int),
{
    let mut out: Vec<(String, u32)> = Vec::new();
    let mut i: usize = 0;
    assert(ipam::live_pairs(out@) =~= Seq::empty());
    while i < endpoints.len()
        invariant
            i <= endpoints.len(),
            ipam::live_pairs(out@) == live_to(endpoints@, i as int),
        decreases endpoints.len() - i,
    {
        if let Some(ip) = parse_ipv4(endpoints[i].1.as_str()) {
            let ghost before = out@;
            out.push((endpoints[i].0.clone(), ip));
            assert(ipam::live_pairs(out@) =~= ipam::live_pairs(before).push(
                (endpoints@[i as int].0@, ip),
            ));
        }
        i += 1;
    }
    out
}

/// The endpoints among the first `n` that a container's file lists: those that name a
/// network and an address.
pub open spec fn listed_endpoints(doc: Seq<u8>, n: int) -> Seq<(Seq<char>, Seq<char>)>
    decreases n,
{
    if n <= 0 {
        Seq::empty()
    } else {
        let p = json::under_item("/endpoints"@, n - 1);
        match (json::json_text(doc, p + "/network_id"@), json::json_text(doc, p + "/ip"@)) {
            (Some(id), Some(ip)) => listed_endpoints(doc, n - 1).push((id, ip)),
            _ => listed_endpoints(doc, n - 1),
        }
    }
}

/// The endpoints that a container's file lists.
pub open spec fn endpoints_of(doc: Seq<u8>) -> Seq<(Seq<char>, Seq<char>)> {
    match json::json_items(doc, "/endpoints"@) {
        Some(n) => listed_endpoints(doc, n as int),
        None => Seq::empty(),
    }
}

/// The networks and addresses that a container holds, from its file; none where the file is
/// no JSON or lists none.
pub fn endpoints_in(doc: &[u8]) -> (r: Vec<(String, String)>)
    ensures
        dockerfile::pair_texts(r@) == endpoints_of(doc@),
{
    let n: usize = match items_at(doc, "/endpoints") {
        Some(n) => n,
        None => 0,
    };
    let mut out: Vec<(String, String)> = Vec::new();
    let mut i: usize = 0;
    assert(dockerfile::pair_texts(out@) =~= Seq::empty());
    while i < n
        invariant
            i <= n,
            dockerfile::pair_texts(out@) == listed_endpoints(doc@, i as int),
        decreases n - i,
    {
        let p: String = item_pointer("/endpoints", i);
        let mut a: String = p.clone();
        a.append("/network_id");
        let mut b: String = p;
        b.append("/ip");
        if let Some(id) = text_at(doc, a.as_str()) {
            if let Some(ip) = text_at(doc, b.as_str()) {
                let ghost before = out@;
                let ghost pair = (id@, ip@);
                out.push((id, ip));
                assert(dockerfile::pair_texts(out@) =~= dockerfile::pair_texts(before).push(pair));
            }
        }
        i += 1;
    }
    out
}

// ---------------------------------------------------------------- commands

/// A command of the host.
pub struct Command {
    pub program: &'static str,
    pub args: Vec<String>,
}

/// A command: its program and its arguments.
#[verifier::ext_equal]
pub struct CommandView {
    pub program: Seq<char>,
    pub args: Seq<Seq<char>>,
}

impl View for Command {
    type V = CommandView;

    open spec fn view(&self) -> CommandView {
        CommandView { program: self.program@, args: text::texts(self.args@) }
    }
}

pub open spec fn command_views(v: Seq<Command>) -> Seq<CommandView> {
    Seq::new(v.len(), |i: int| v[i]@)
}

/// The prefix of a network's subnet, or 16 where it cannot be read.
pub open spec fn subnet_prefix(subnet: Seq<char>) -> nat {
    match ipam::subnet_of(subnet) {
        Ok(s) => s.prefix as nat,
        Err(_) => 16,
    }
}

/// The prefix of a network's IPv6 range, or 64 where it cannot be read.
pub open spec fn subnet6_prefix(subnet: Seq<char>) -> nat {
    match ipam::subnet6_of(subnet) {
        Ok(s) => s.prefix as nat,
        Err(_) => 64,
    }
}

pub fn prefix_of(subnet: &str) -> (r: u8)
    ensures
        r == subnet_prefix(subnet@),
{
    match Subnet::parse(subnet) {
        Ok(s) => s.prefix,
        Err(_) => 16,
    }
}

pub fn prefix6_of(subnet: &str) -> (r: u8)
    ensures
        r == subnet6_prefix(subnet@),
{
    match V6Subnet::parse(subnet) {
        Ok(s) => s.prefix,
        Err(_) => 64,
    }
}

pub open spec fn with_prefix(ip: Seq<char>, prefix: nat) -> Seq<char> {
    ip + seq!['/'] + num::decimal(prefix)
}

pub open spec fn ip_command(args: Seq<Seq<char>>) -> CommandView {
    CommandView { program: "ip"@, args }
}

/// What brings a bridge up: it is made and given its gateway's address where it does
/// not exist.
pub open spec fn bridge_commands(rec: NetworkRecord, exists: bool) -> Seq<CommandView> {
    (if exists {
        Seq::empty()
    } else {
        seq![
            ip_command(seq!["link"@, "add"@, rec.bridge@, "type"@, "bridge"@]),
            ip_command(
                seq![
                    "addr"@,
                    "add"@,
                    with_prefix(rec.gateway@, subnet_prefix(rec.subnet@)),
                    "dev"@,
                    rec.bridge@,
                ],
            ),
        ]
    }).push(ip_command(seq!["link"@, "set"@, rec.bridge@, "up"@]))
}

/// What gives a bridge its IPv6 gateway's address, or takes it away.
pub open spec fn v6_address_command(rec: NetworkRecord, op: Seq<char>) -> CommandView {
    ip_command(
        seq![
            "-6"@,
            "addr"@,
            op,
            with_prefix(rec.gateway_v6@, subnet6_prefix(rec.subnet_v6@)),
            "dev"@,
            rec.bridge@,
        ],
    )
}

fn ip(args: &[&str]) -> (r: Command)
    ensures
        r.program@ == "ip"@,
        r.args@.len() == args@.len(),
        forall|i: int| 0 <= i < args@.len() ==> (#[trigger] r.args@[i])@ == args@[i]@,
{
    Command { program: "ip", args: words_of(args) }
}

/// The commands that bring a bridge up.
pub fn bridge_setup(rec: &NetworkRecord, exists: bool) -> (r: Vec<Command>)
    ensures
        command_views(r@) == bridge_commands(*rec, exists),
{
    let mut out: Vec<Command> = Vec::new();
    let b: &str = rec.bridge.as_str();
    if !exists {
        let a: String = v6_bridge_addr(rec.gateway.as_str(), prefix_of(rec.subnet.as_str()));
        let x: Command = ip(&["link", "add", b, "type", "bridge"]);
        let y: Command = ip(&["addr", "add", a.as_str(), "dev", b]);
        assert(text::texts(x.args@) =~= seq!["link"@, "add"@, b@, "type"@, "bridge"@]);
        assert(text::texts(y.args@) =~= seq!["addr"@, "add"@, a@, "dev"@, b@]);
        out.push(x);
        out.push(y);
    }
    let z: Command = ip(&["link", "set", b, "up"]);
    assert(text::texts(z.args@) =~= seq!["link"@, "set"@, b@, "up"@]);
    out.push(z);
    assert(command_views(out@) =~= bridge_commands(*rec, exists));
    out
}

/// The command that gives a bridge its IPv6 gateway's address.
pub fn v6_address_add(rec: &NetworkRecord) -> (r: Command)
    ensures
        r@ == v6_address_command(*rec, "add"@),
{
    let a: String = v6_bridge_addr(rec.gateway_v6.as_str(), prefix6_of(rec.subnet_v6.as_str()));
    let x: Command = ip(&["-6", "addr", "add", a.as_str(), "dev", rec.bridge.as_str()]);
    assert(text::texts(x.args@) =~= seq!["-6"@, "addr"@, "add"@, a@, "dev"@, rec.bridge@]);
    x
}

/// The command that does `op` with an ip6tables rule.
pub open spec fn ip6_command(r: RuleView, op: Seq<char>) -> CommandView {
    CommandView { program: "ip6tables"@, args: r.command(op) }
}

/// What undoes the first `n` IPv6 rules of a bridge and its address, last first.
pub open spec fn v6_undo(rec: NetworkRecord, n: int) -> Seq<CommandView>
    decreases n,
{
    if n <= 0 {
        seq![v6_address_command(rec, "del"@)]
    } else {
        seq![
            ip6_command(
                network::bridge_rules(rec.internal, rec.bridge@, rec.subnet_v6@)[n - 1],
                "-D"@,
            ),
        ] + v6_undo(rec, n - 1)
    }
}

/// The commands that undo a bridge's IPv6 setup after its first `applied` rules.
pub fn v6_rollback(rec: &NetworkRecord, applied: usize) -> (r: Vec<Command>)
    requires
        rec.dual(),
        applied <= 3,
    ensures
        command_views(r@) == v6_undo(*rec, applied as int),
{
    let rules: Vec<Ip6Rule> = v6_network_rules(rec);
    let ghost rv = network::bridge_rules(rec.internal, rec.bridge@, rec.subnet_v6@);
    let mut out: Vec<Command> = Vec::new();
    let mut n: usize = applied;
    assert(command_views(out@) + v6_undo(*rec, n as int) =~= v6_undo(*rec, n as int));
    while n > 0
        invariant
            n <= applied <= 3,
            rules_eq(rules@, rv),
            rv == network::bridge_rules(rec.internal, rec.bridge@, rec.subnet_v6@),
            v6_undo(*rec, applied as int) == command_views(out@) + v6_undo(*rec, n as int),
        decreases n,
    {
        let ghost before = out@;
        let args: Vec<String> = rules[n - 1].full_args("-D");
        let c: Command = Command { program: "ip6tables", args };
        assert(c@ == ip6_command(rv[n - 1], "-D"@));
        out.push(c);
        assert(command_views(out@) =~= command_views(before).push(c@));
        assert(command_views(before) + (seq![c@] + v6_undo(*rec, n - 1)) =~= command_views(out@)
            + v6_undo(*rec, n - 1));
        n -= 1;
    }
    let ghost before = out@;
    let a: String = v6_bridge_addr(rec.gateway_v6.as_str(), prefix6_of(rec.subnet_v6.as_str()));
    let x: Command = ip(&["-6", "addr", "del", a.as_str(), "dev", rec.bridge.as_str()]);
    assert(text::texts(x.args@) =~= seq!["-6"@, "addr"@, "del"@, a@, "dev"@, rec.bridge@]);
    out.push(x);
    assert(command_views(out@) =~= command_views(before) + seq![x@]);
    out
}

spec fn rules_eq(a: Seq<Ip6Rule>, b: Seq<RuleView>) -> bool {
    network::rules_views(a) == b && b.len() == 3
}

// ---------------------------------------------------------------- the daemon's chains

/// The program and the names of one address family's rules.
pub open spec fn tables_program(v6: bool) -> Seq<char> {
    if v6 {
        "ip6tables"@
    } else {
        "iptables"@
    }
}

pub open spec fn dnat_chain(v6: bool) -> Seq<char> {
    if v6 {
        "INGOT6-DNAT"@
    } else {
        "INGOT-DNAT"@
    }
}

pub open spec fn loopback_range(v6: bool) -> Seq<char> {
    if v6 {
        "::1/128"@
    } else {
        "127.0.0.0/8"@
    }
}

pub open spec fn local_jump(v6: bool) -> Seq<Seq<char>> {
    seq!["-m"@, "addrtype"@, "--dst-type"@, "LOCAL"@, "-j"@, dnat_chain(v6)]
}

/// What empties the chain of published ports, and takes away a jump that would catch
/// loopback traffic.
pub open spec fn chain_reset(v6: bool) -> Seq<CommandView> {
    seq![
        CommandView {
            program: tables_program(v6),
            args: seq!["-t"@, "nat"@, "-N"@, dnat_chain(v6)],
        },
        CommandView {
            program: tables_program(v6),
            args: seq!["-t"@, "nat"@, "-F"@, dnat_chain(v6)],
        },
        CommandView {
            program: tables_program(v6),
            args: seq!["-t"@, "nat"@, "-D"@, "OUTPUT"@] + local_jump(v6),
        },
    ]
}

/// The jump into that chain; from `OUTPUT` not for loopback traffic, which is the
/// proxy's.
pub open spec fn chain_jump(v6: bool, output: bool, op: Seq<char>) -> CommandView {
    CommandView {
        program: tables_program(v6),
        args: (if output {
            seq!["-t"@, "nat"@, op, "OUTPUT"@, "!"@, "-d"@, loopback_range(v6)]
        } else {
            seq!["-t"@, "nat"@, op, "PREROUTING"@]
        }) + local_jump(v6),
    }
}

fn program_of(v6: bool) -> (r: &'static str)
    ensures
        r@ == tables_program(v6),
{
    if v6 {
        "ip6tables"
    } else {
        "iptables"
    }
}

fn chain_of(v6: bool) -> (r: &'static str)
    ensures
        r@ == dnat_chain(v6),
{
    if v6 {
        "INGOT6-DNAT"
    } else {
        "INGOT-DNAT"
    }
}

/// The commands that empty the chain of published ports; that one fails is no error.
pub fn reset_chain(v6: bool) -> (r: Vec<Command>)
    ensures
        command_views(r@) == chain_reset(v6),
{
    let c: &'static str = chain_of(v6);
    let x: Command = Command {
        program: program_of(v6),
        args: words_of(&["-t", "nat", "-N", c]),
    };
    let y: Command = Command {
        program: program_of(v6),
        args: words_of(&["-t", "nat", "-F", c]),
    };
    let z: Command = Command {
        program: program_of(v6),
        args: words_of(
            &["-t", "nat", "-D", "OUTPUT", "-m", "addrtype", "--dst-type", "LOCAL", "-j", c],
        ),
    };
    assert(text::texts(x.args@) =~= seq!["-t"@, "nat"@, "-N"@, c@]);
    assert(text::texts(y.args@) =~= seq!["-t"@, "nat"@, "-F"@, c@]);
    assert(text::texts(z.args@) =~= seq!["-t"@, "nat"@, "-D"@, "OUTPUT"@] + local_jump(v6));
    let mut out: Vec<Command> = Vec::new();
    out.push(x);
    out.push(y);
    out.push(z);
    assert(command_views(out@) =~= chain_reset(v6));
    out
}

/// The command that does `op` with the jump into that chain: `-C` tells whether it is
/// there, `-A` adds it.
pub fn jump_to_chain(v6: bool, output: bool, op: &str) -> (r: Command)
    ensures
        r@ == chain_jump(v6, output, op@),
{
    let c: &'static str = chain_of(v6);
    let lo: &'static str = if v6 {
        "::1/128"
    } else {
        "127.0.0.0/8"
    };
    let args: Vec<String> = if output {
        let a: Vec<String> = words_of(
            &[
                "-t",
                "nat",
                op,
                "OUTPUT",
                "!",
                "-d",
                lo,
                "-m",
                "addrtype",
                "--dst-type",
                "LOCAL",
                "-j",
                c,
            ],
        );
        assert(text::texts(a@) =~= seq![
            "-t"@,
            "nat"@,
            op@,
            "OUTPUT"@,
            "!"@,
            "-d"@,
            loopback_range(v6),
        ] + local_jump(v6));
        a
    } else {
        let a: Vec<String> = words_of(
            &["-t", "nat", op, "PREROUTING", "-m", "addrtype", "--dst-type", "LOCAL", "-j", c],
        );
        assert(text::texts(a@) =~= seq!["-t"@, "nat"@, op@, "PREROUTING"@] + local_jump(v6));
        a
    };
    Command { program: program_of(v6), args }
}

// ---------------------------------------------------------------- endpoints

/// The name of the host's side of an endpoint.
pub open spec fn ifname_of(container_id: Seq<char>, net_id: Seq<char>) -> Seq<char> {
    "veth-"@ + network::byte_prefix(container_id, 4) + network::byte_prefix(net_id, 4)
}

/// The name that the host's side of a container's only endpoint once had.
pub open spec fn legacy_ifname_of(container_id: Seq<char>) -> Seq<char> {
    "veth-"@ + network::byte_prefix(container_id, 8)
}

pub fn legacy_ifname(container_id: &str) -> (r: String)
    requires
        network::cuts_at(container_id@, 8),
    ensures
        r@ == legacy_ifname_of(container_id@),
{
    let mut s: String = "veth-".to_owned();
    s.append(first_bytes(container_id, 8).as_str());
    s
}

/// What gives an endpoint its IPv6 address inside the container, and, on the first
/// interface of a network that leads outside, the default route.
pub open spec fn v6_endpoint(
    ipv6: nat,
    prefix: nat,
    ifname: Seq<char>,
    gateway: Seq<char>,
    if_index: nat,
    internal: bool,
) -> Seq<Seq<Seq<char>>> {
    let addr = seq![
        "ip"@,
        "-6"@,
        "addr"@,
        "add"@,
        with_prefix(addr::ipv6_shown(ipv6), prefix),
        "dev"@,
        ifname,
    ];
    if if_index == 0 && !internal {
        seq![addr, seq!["ip"@, "-6"@, "route"@, "add"@, "default"@, "via"@, gateway]]
    } else {
        seq![addr]
    }
}

pub open spec fn lists(v: Seq<Vec<String>>) -> Seq<Seq<Seq<char>>> {
    Seq::new(v.len(), |i: int| text::texts(v[i]@))
}

/// The arguments that enter a process's network namespace.
pub open spec fn inside(pid: int, args: Seq<Seq<char>>) -> CommandView {
    CommandView {
        program: "nsenter"@,
        args: seq!["--net=/proc/"@ + num::signed_decimal(pid) + "/ns/net"@] + args,
    }
}

/// The same for each of several commands.
pub open spec fn all_inside(pid: int, v: Seq<Seq<Seq<char>>>) -> Seq<CommandView> {
    Seq::new(v.len(), |i: int| inside(pid, v[i]))
}

pub open spec fn interface_name_of(if_index: nat) -> Seq<char> {
    "eth"@ + num::decimal(if_index)
}

/// What connects a container to its network's bridge, step by step.
pub open spec fn wiring(
    net: NetworkRecord,
    req: AttachRequest,
    ip: u32,
    ipv6: Option<u128>,
) -> Seq<CommandView> {
    let host = ifname_of(req.container_id@, net.id@);
    let peer = host + "-p"@;
    let name = interface_name_of(req.if_index as nat);
    let pid = req.pid as int;
    seq![
        ip_command(seq!["link"@, "add"@, host, "type"@, "veth"@, "peer"@, "name"@, peer]),
        ip_command(seq!["link"@, "set"@, host, "master"@, net.bridge@]),
        ip_command(seq!["link"@, "set"@, host, "up"@]),
        ip_command(seq!["link"@, "set"@, peer, "netns"@, num::signed_decimal(pid)]),
        inside(pid, seq!["ip"@, "link"@, "set"@, peer, "name"@, name]),
        inside(
            pid,
            seq![
                "ip"@,
                "addr"@,
                "add"@,
                with_prefix(addr::ipv4_shown(ip), subnet_prefix(net.subnet@)),
                "dev"@,
                name,
            ],
        ),
        inside(pid, seq!["ip"@, "link"@, "set"@, name, "up"@]),
        inside(pid, seq!["ip"@, "link"@, "set"@, "lo"@, "up"@]),
    ] + (if req.if_index == 0 {
        seq![inside(pid, seq!["ip"@, "route"@, "add"@, "default"@, "via"@, net.gateway@])]
    } else {
        Seq::empty()
    }) + (match ipv6 {
        Some(v6) => all_inside(
            pid,
            v6_endpoint(
                v6 as nat,
                subnet6_prefix(net.subnet_v6@),
                name,
                net.gateway_v6@,
                req.if_index as nat,
                net.internal,
            ),
        ),
        None => Seq::empty(),
    })
}

fn enter(pid: i64, args: Vec<String>) -> (r: Command)
    ensures
        r@ == inside(pid as int, text::texts(args@)),
{
    let mut n: String = "--net=/proc/".to_owned();
    n.append(signed_decimal_text(pid).as_str());
    n.append("/ns/net");
    let mut all: Vec<String> = Vec::new();
    all.push(n);
    let mut i: usize = 0;
    while i < args.len()
        invariant
            i <= args.len(),
            text::texts(all@) =~= seq![n@] + text::texts(args@).take(i as int),
        decreases args.len() - i,
    {
        add_word(&mut all, args[i].as_str());
        assert(text::texts(args@).take(i as int + 1) =~= text::texts(args@).take(i as int).push(
            args@[i as int]@,
        ));
        i += 1;
    }
    assert(text::texts(args@).take(args@.len() as int) =~= text::texts(args@));
    assert(n@ =~= "--net=/proc/"@ + num::signed_decimal(pid as int) + "/ns/net"@);
    Command { program: "nsenter", args: all }
}

// ---------------------------------------------------------------- the manager

/// The rule is the same in every field.
pub open spec fn is_published(all: Seq<PortRuleView>, rule: PortRuleView) -> bool {
    exists|i: int| 0 <= i < all.len() && #[trigger] all[i] == rule
}

/// The first rule at or behind `i` of another container that the rule collides with.
pub open spec fn occupier_from(all: Seq<PortRuleView>, rule: PortRuleView, i: int) -> int
    decreases all.len() - i,
{
    if i < 0 || i >= all.len() || (all[i].container_id != rule.container_id && network::collides(
        rule.proto,
        rule.host_ip,
        rule.host_port,
        all[i],
    )) {
        i
    } else {
        occupier_from(all, rule, i + 1)
    }
}

/// The rules of one container, in order.
pub open spec fn rules_of(all: Seq<PortRuleView>, id: Seq<char>) -> Seq<PortRuleView>
    decreases all.len(),
{
    if all.len() == 0 {
        Seq::empty()
    } else if all.last().container_id == id {
        rules_of(all.drop_last(), id).push(all.last())
    } else {
        rules_of(all.drop_last(), id)
    }
}

/// The rules of every other container, in order.
pub open spec fn rules_beside(all: Seq<PortRuleView>, id: Seq<char>) -> Seq<PortRuleView>
    decreases all.len(),
{
    if all.len() == 0 {
        Seq::empty()
    } else if all.last().container_id == id {
        rules_beside(all.drop_last(), id)
    } else {
        rules_beside(all.drop_last(), id).push(all.last())
    }
}

/// Where traffic to a published port comes in: any address where it has none.
pub open spec fn dnat_destination(ip: Seq<char>) -> Seq<char> {
    if network::is_wild(ip) {
        "0.0.0.0/0"@
    } else {
        ip
    }
}

/// What leads a port of the host to the container, and lets its traffic pass.
pub open spec fn publishing(r: PortRuleView, op: Seq<char>) -> Seq<CommandView> {
    seq![
        CommandView {
            program: "iptables"@,
            args: seq![
                "-t"@,
                "nat"@,
                op,
                "INGOT-DNAT"@,
                "-p"@,
                r.proto,
                "-d"@,
                dnat_destination(r.host_ip),
                "--dport"@,
                num::decimal(r.host_port as nat),
                "-j"@,
                "DNAT"@,
                "--to-destination"@,
                r.container_ip + seq![':'] + num::decimal(r.container_port as nat),
            ],
        },
        CommandView {
            program: "iptables"@,
            args: seq![
                op,
                "FORWARD"@,
                "-p"@,
                r.proto,
                "-d"@,
                r.container_ip,
                "--dport"@,
                num::decimal(r.container_port as nat),
                "-j"@,
                "ACCEPT"@,
            ],
        },
    ]
}

/// What is to be done to publish a port.
pub enum Publish {
    /// The very rule is there already.
    Already,
    /// The commands that lead the port to the container.
    Run(Vec<Command>),
    Conflict(PortConflict),
}

/// The commands that do `op` with the rules of a published port: `-A` adds them, `-D`
/// takes them away.
pub fn publish_commands(rule: &PortRule, op: &str) -> (r: Vec<Command>)
    ensures
        command_views(r@) == publishing(rule@, op@),
{
    let dst: &str = if publish_ip_wild(rule.host_ip.as_str()) {
        "0.0.0.0/0"
    } else {
        rule.host_ip.as_str()
    };
    let hp: String = decimal_text(rule.host_port as u128);
    let cp: String = decimal_text(rule.container_port as u128);
    let mut to: String = rule.container_ip.clone();
    to.push(':');
    to.append(cp.as_str());
    assert(to@ =~= rule@.container_ip + seq![':'] + cp@);
    let a: Vec<String> = words_of(
        &[
            "-t",
            "nat",
            op,
            "INGOT-DNAT",
            "-p",
            rule.proto.as_str(),
            "-d",
            dst,
            "--dport",
            hp.as_str(),
            "-j",
            "DNAT",
            "--to-destination",
            to.as_str(),
        ],
    );
    let b: Vec<String> = words_of(
        &[
            op,
            "FORWARD",
            "-p",
            rule.proto.as_str(),
            "-d",
            rule.container_ip.as_str(),
            "--dport",
            cp.as_str(),
            "-j",
            "ACCEPT",
        ],
    );
    assert(text::texts(a@) =~= publishing(rule@, op@)[0].args);
    assert(text::texts(b@) =~= publishing(rule@, op@)[1].args);
    let mut out: Vec<Command> = Vec::new();
    out.push(Command { program: "iptables", args: a });
    out.push(Command { program: "iptables", args: b });
    assert(command_views(out@) =~= publishing(rule@, op@));
    out
}

fn same_rule(a: &PortRule, b: &PortRule) -> (r: bool)
    ensures
        r == (a@ == b@),
{
    same(a.container_id.as_str(), b.container_id.as_str()) && same(
        a.proto.as_str(),
        b.proto.as_str(),
    ) && same(a.host_ip.as_str(), b.host_ip.as_str()) && a.host_port == b.host_port && same(
        a.container_ip.as_str(),
        b.container_ip.as_str(),
    ) && a.container_port == b.container_port
}

fn has_rule(all: &Vec<PortRule>, rule: &PortRule) -> (r: bool)
    ensures
        r == is_published(network::rule_views(all@), rule@),
{
    let ghost av = network::rule_views(all@);
    let mut i: usize = 0;
    while i < all.len()
        invariant
            i <= all.len(),
            av == network::rule_views(all@),
            forall|j: int| 0 <= j < i ==> #[trigger] av[j] != rule@,
        decreases all.len() - i,
    {
        if same_rule(&all[i], rule) {
            assert(av[i as int] == rule@);
            return true;
        }
        i += 1;
    }
    false
}

/// Whether a proxy's key belongs to the container.
pub fn is_proxy_of(key: &str, container_id: &str) -> (r: bool)
    ensures
        r == text::starts_with(key@, container_id@ + seq!['|']),
{
    let ks: Vec<char> = chars_of(key);
    let mut p: String = container_id.to_owned();
    p.push('|');
    assert(p@ =~= container_id@ + seq!['|']);
    let pc: Vec<char> = chars_of(p.as_str());
    has_prefix(ks.as_slice(), pc.as_slice())
}

/// The first network with the id, or the end.
pub open spec fn with_id_from(v: Seq<NetworkRecord>, id: Seq<char>, i: int) -> int
    decreases v.len() - i,
{
    if i < 0 || i >= v.len() || v[i].id@ == id {
        i
    } else {
        with_id_from(v, id, i + 1)
    }
}

/// The networks with one more, or with a new record in the place of one under its id.
pub open spec fn saved(v: Seq<NetworkRecord>, rec: NetworkRecord) -> Seq<NetworkRecord> {
    let p = with_id_from(v, rec.id@, 0);
    if p < v.len() {
        v.update(p, rec)
    } else {
        v.push(rec)
    }
}

fn find_id(v: &Vec<NetworkRecord>, id: &str) -> (r: Option<usize>)
    ensures
        match r {
            Some(i) => i < v@.len() && with_id_from(v@, id@, 0) == i && v@[i as int].id@ == id@,
            None => with_id_from(v@, id@, 0) == v@.len(),
        },
{
    let mut i: usize = 0;
    while i < v.len()
        invariant
            i <= v.len(),
            with_id_from(v@, id@, 0) == with_id_from(v@, id@, i as int),
        decreases v.len() - i,
    {
        if same(v[i].id.as_str(), id) {
            return Some(i);
        }
        i += 1;
    }
    None
}

/// The ids of networks.
pub open spec fn ids(v: Seq<NetworkRecord>) -> Seq<Seq<char>> {
    Seq::new(v.len(), |i: int| v[i].id@)
}

impl NetworkManager {
    /// A manager of no networks.
    pub fn new(ipam: Ipam) -> (r: NetworkManager)
        ensures
            r.networks@.len() == 0,
            r.ipam == ipam,
            r.published@.len() == 0,
            !r.ipv6.enabled,
            r.ipv6.pool@ == "fd00:dead:beef::/48"@,
            r.bridges_ready@.len() == 0,
            forall|n: Seq<char>, k: Seq<char>| #[trigger] text2(r.v6_by_v4, n, k) is None,
            forall|n: Seq<char>, k: Seq<char>| #[trigger] text2(r.dns, n, k) is None,
            forall|n: Seq<char>, k: Seq<char>| #[trigger] text2(r.dns6, n, k) is None,
            forall|n: Seq<char>, k: Seq<char>| #[trigger] at2(r.dns_search, n, k) is None,
    {
        NetworkManager {
            networks: Vec::new(),
            ipam,
            published: Vec::new(),
            ipv6: Ipv6Config::default(),
            v6_by_v4: Table::new(),
            dns: Table::new(),
            dns6: Table::new(),
            dns_search: Table::new(),
            bridges_ready: Vec::new(),
        }
    }

    /// Turns dual stack on or off and sets the pool, masked to its prefix. Every bridge
    /// is then set up again.
    pub fn set_ipv6_config(&mut self, enabled: bool, pool: &str) -> (r: Result<(), String>)
        ensures
            match r {
                Ok(_) => {
                    &&& ipam::subnet6_of(pool@) matches Ok(s)
                    &&& s.prefix <= 64
                    &&& final(self).ipv6.enabled == enabled
                    &&& final(self).ipv6.pool@ == s.shown()
                    &&& final(self).bridges_ready@.len() == 0
                },
                Err(e) => {
                    &&& e@ == match ipam::subnet6_of(pool@) {
                        Ok(s) => "invalid fixed-cidr-v6 "@ + unicode::quoted(pool@)
                            + " (prefix must be /64 or shorter)"@,
                        Err(d) => "invalid fixed-cidr-v6 "@ + unicode::quoted(pool@) + ": "@ + d,
                    }
                    &&& (ipam::subnet6_of(pool@) matches Ok(s) ==> s.prefix > 64)
                    &&& final(self).ipv6 == old(self).ipv6
                    &&& final(self).bridges_ready == old(self).bridges_ready
                },
            },
            final(self).networks == old(self).networks,
            final(self).ipam == old(self).ipam,
            final(self).published == old(self).published,
            final(self).v6_by_v4 == old(self).v6_by_v4,
            final(self).dns == old(self).dns,
            final(self).dns6 == old(self).dns6,
            final(self).dns_search == old(self).dns_search,
    {
        let mut e: String = "invalid fixed-cidr-v6 ".to_owned();
        e.append(quote(pool).as_str());
        match V6Subnet::parse(pool) {
            Ok(s) => {
                if s.prefix > V6_SUBNET_PREFIX {
                    e.append(" (prefix must be /64 or shorter)");
                    return Err(e);
                }
                self.ipv6 = Ipv6Config { enabled, pool: s.cidr() };
                self.bridges_ready = Vec::new();
                Ok(())
            },
            Err(d) => {
                e.append(": ");
                e.append(d.as_str());
                Err(e)
            },
        }
    }

    /// Puts a network under its id, in place of what stood there.
    pub fn save_network(&mut self, rec: NetworkRecord)
        ensures
            final(self).networks@ == saved(old(self).networks@, rec),
            final(self).ipam == old(self).ipam,
            final(self).published == old(self).published,
            final(self).ipv6 == old(self).ipv6,
            final(self).bridges_ready == old(self).bridges_ready,
            final(self).v6_by_v4 == old(self).v6_by_v4,
            final(self).dns == old(self).dns,
            final(self).dns6 == old(self).dns6,
            final(self).dns_search == old(self).dns_search,
    {
        match find_id(&self.networks, rec.id.as_str()) {
            Some(i) => {
                self.networks.set(i, rec);
            },
            None => {
                self.networks.push(rec);
            },
        }
    }

    /// The network with the name.
    pub fn by_name(&self, name: &str) -> (r: Option<NetworkRecord>)
        ensures
            ({
                let p = named_from(self.networks@, name@, false, 0);
                match r {
                    Some(n) => p < self.networks@.len() && agree(n, self.networks@[p]),
                    None => p == self.networks@.len(),
                }
            }),
    {
        match find_network(&self.networks, name, false) {
            Some(i) => Some(copy_record(&self.networks[i])),
            None => None,
        }
    }

    /// The network with the id or the name.
    pub fn get(&self, name_or_id: &str) -> (r: Option<NetworkRecord>)
        ensures
            ({
                let p = named_from(self.networks@, name_or_id@, true, 0);
                match r {
                    Some(n) => p < self.networks@.len() && agree(n, self.networks@[p]),
                    None => p == self.networks@.len(),
                }
            }),
    {
        match find_network(&self.networks, name_or_id, true) {
            Some(i) => Some(copy_record(&self.networks[i])),
            None => None,
        }
    }

    /// Every network.
    pub fn list(&self) -> (r: Vec<NetworkRecord>)
        ensures
            r@.len() == self.networks@.len(),
            forall|i: int| 0 <= i < r@.len() ==> agree(#[trigger] r@[i], self.networks@[i]),
    {
        let mut out: Vec<NetworkRecord> = Vec::new();
        let mut i: usize = 0;
        while i < self.networks.len()
            invariant
                i <= self.networks.len(),
                out@.len() == i,
                forall|j: int| 0 <= j < i ==> agree(#[trigger] out@[j], self.networks@[j]),
            decreases self.networks.len() - i,
        {
            out.push(copy_record(&self.networks[i]));
            i += 1;
        }
        out
    }

    /// The network that a name, an id or the empty default stands for.
    pub fn resolve(&self, name_or_id: &str) -> (r: Result<NetworkRecord, String>)
        ensures
            match r {
                Ok(n) => resolved_place(self.networks@, name_or_id@) matches Ok(p) && 0 <= p
                    < self.networks@.len() && agree(n, self.networks@[p]),
                Err(e) => resolved_place(self.networks@, name_or_id@) == Err::<int, Seq<char>>(e@),
            },
    {
        match find_network(&self.networks, name_or_id, true) {
            Some(i) => Ok(copy_record(&self.networks[i])),
            None => {
                if name_or_id.is_empty() || same(name_or_id, "default") || same(
                    name_or_id,
                    "bridge",
                ) {
                    match find_network(&self.networks, "bridge", false) {
                        Some(i) => Ok(copy_record(&self.networks[i])),
                        None => Err("bridge network missing".to_owned()),
                    }
                } else {
                    let mut e: String = "no such network: ".to_owned();
                    e.append(name_or_id);
                    Err(e)
                }
            },
        }
    }

    /// The gateway of a subnet where none is asked for.
    pub fn derive_gateway(subnet: &Subnet) -> (r: String)
        requires
            subnet.wf(),
        ensures
            r@ == addr::ipv4_shown(subnet.first() as u32),
    {
        ipv4_text(default_gateway(subnet))
    }

    /// Checks the subnet and the gateway that are asked for.
    pub fn validate_create_params(
        subnet: &str,
        gateway: Option<&str>,
        existing: &[NetworkRecord],
    ) -> (r: Result<(String, String), String>)
        ensures
            ({
                let g = match gateway {
                    Some(g) => Some(g@),
                    None => None,
                };
                match r {
                    Ok((s, w)) => checked_params(subnet@, g, existing@) == Ok::<
                        (Seq<char>, Seq<char>),
                        Seq<char>,
                    >((s@, w@)),
                    Err(e) => checked_params(subnet@, g, existing@) == Err::<
                        (Seq<char>, Seq<char>),
                        Seq<char>,
                    >(e@),
                }
            }),
    {
        let parsed: Subnet = match Subnet::parse(subnet) {
            Ok(s) => s,
            Err(e) => {
                return Err(e);
            },
        };
        let gw: String = match gateway {
            Some(g) => {
                let mut e: String = "invalid gateway ".to_owned();
                e.append(quote(g).as_str());
                match parse_ipv4(g) {
                    Some(ip) => {
                        if !parsed.contains(ip) {
                            e.append(": outside subnet ");
                            e.append(parsed.cidr().as_str());
                            return Err(e);
                        }
                        g.to_owned()
                    },
                    None => {
                        e.append(" (want an IPv4 address)");
                        return Err(e);
                    },
                }
            },
            None => NetworkManager::derive_gateway(&parsed),
        };
        match find_overlap(existing, &parsed) {
            Some(k) => {
                let mut e: String = "subnet ".to_owned();
                e.append(parsed.cidr().as_str());
                e.append(" overlaps with network ");
                e.append(existing[k].name.as_str());
                e.append(" (");
                e.append(existing[k].subnet.as_str());
                e.append(")");
                Err(e)
            },
            None => Ok((parsed.cidr(), gw)),
        }
    }

    /// The first predefined range that is free.
    fn pick_range(&self) -> (r: Option<Subnet>)
        ensures
            r == free_range(self.networks@, 18),
            r matches Some(s) ==> s.wf(),
    {
        let mut b: u32 = 18;
        while b <= 31
            invariant
                18 <= b <= 32,
                free_range(self.networks@, 18) == free_range(self.networks@, b as int),
            decreases 32 - b,
        {
            let s: Subnet = Subnet { network: (172 * 256 + b) * 65536, prefix: 16 };
            proof {
                lemma_pool_range(b as int);
                assert(s == pool_range(b as int));
            }
            if find_overlap(self.networks.as_slice(), &s).is_none() {
                return Some(s);
            }
            b += 1;
        }
        None
    }

    /// The record of a new network, or why there can be none.
    pub fn create_network(
        &self,
        name: &str,
        driver: &str,
        subnet: Option<String>,
        gateway: Option<String>,
        new: NewNetwork,
    ) -> (r: Result<NetworkRecord, String>)
        requires
            network::cuts_at(new.bridge_id@, 12),
        ensures
            ({
                let c = creation(
                    self.networks@,
                    self.ipv6,
                    name@,
                    driver@,
                    reference::opt_text(subnet),
                    reference::opt_text(gateway),
                    new.id@,
                );
                match r {
                    Ok(n) => {
                        &&& c == Ok::<((Seq<char>, Seq<char>), (Seq<char>, Seq<char>)), Seq<char>>(
                            ((n.subnet@, n.gateway@), (n.subnet_v6@, n.gateway_v6@)),
                        )
                        &&& n.id == new.id
                        &&& n.name@ == name@
                        &&& n.driver@ == "bridge"@
                        &&& n.bridge@ == "br-"@ + network::byte_prefix(new.bridge_id@, 12)
                        &&& n.created == new.created
                        &&& n.internal == new.internal
                        &&& !n.attachable
                        &&& n.options == new.options
                        &&& n.labels == new.labels
                    },
                    Err(e) => c == Err::<
                        ((Seq<char>, Seq<char>), (Seq<char>, Seq<char>)),
                        Seq<char>,
                    >(e@),
                }
            }),
    {
        if !driver.is_empty() && !same(driver, "bridge") {
            let mut e: String = "driver ".to_owned();
            e.append(driver);
            e.append(" not supported (bridge only)");
            return Err(e);
        }
        if find_network(&self.networks, name, false).is_some() {
            let mut e: String = "network with name ".to_owned();
            e.append(name);
            e.append(" already exists");
            return Err(e);
        }
        let (s, g): (String, String) = match &subnet {
            Some(w) => {
                let gw: Option<&str> = match &gateway {
                    Some(x) => Some(x.as_str()),
                    None => None,
                };
                match NetworkManager::validate_create_params(
                    w.as_str(),
                    gw,
                    self.networks.as_slice(),
                ) {
                    Ok(p) => p,
                    Err(e) => {
                        return Err(e);
                    },
                }
            },
            None => match self.pick_range() {
                Some(p) => (p.cidr(), NetworkManager::derive_gateway(&p)),
                None => {
                    return Err(
                        "all predefined address pools have been fully subnetted".to_owned(),
                    );
                },
            },
        };
        let mut bridge: String = "br-".to_owned();
        bridge.append(first_bytes(new.bridge_id.as_str(), 12).as_str());
        let existing: Vec<String> = v6_ranges_of(&self.networks);
        let (s6, g6): (String, String) = match pick_v6_range(
            &self.ipv6,
            new.id.as_str(),
            &existing,
        ) {
            Ok(p) => p,
            Err(e) => {
                return Err(e);
            },
        };
        Ok(
            NetworkRecord {
                id: new.id,
                name: name.to_owned(),
                driver: "bridge".to_owned(),
                bridge,
                subnet: s,
                gateway: g,
                subnet_v6: s6,
                gateway_v6: g6,
                created: new.created,
                internal: new.internal,
                attachable: false,
                options: new.options,
                labels: new.labels,
            },
        )
    }
}

/// The bridge network that there must be: a new one, the old one with an IPv6 range where
/// it lacks one and dual stack is on, or nothing to do.
pub open spec fn bridge_due(
    v: Seq<NetworkRecord>,
    cfg: Ipv6Config,
    id: Seq<char>,
) -> Result<Option<(Option<int>, (Seq<char>, Seq<char>))>, Seq<char>> {
    let b = named_from(v, "bridge"@, false, 0);
    if b >= v.len() {
        match new_v6_range(cfg.enabled, cfg.pool@, id, Seq::empty()) {
            Ok(r) => Ok(Some((None, r))),
            Err(e) => Err(e),
        }
    } else if cfg.enabled && !v[b].dual() {
        match new_v6_range(true, cfg.pool@, v[b].id@, v6_ranges(v)) {
            Ok(r) => Ok(Some((Some(b), r))),
            Err(e) => Err(e),
        }
    } else {
        Ok(None)
    }
}

/// The bridge network that there must be, as a record.
pub open spec fn is_bridge_due(
    v: Seq<NetworkRecord>,
    cfg: Ipv6Config,
    id: Seq<char>,
    created: Seq<char>,
    r: Result<Option<NetworkRecord>, String>,
) -> bool {
    match bridge_due(v, cfg, id) {
        Err(e) => r matches Err(d) && d@ == e,
        Ok(None) => r matches Ok(None),
        Ok(Some((b, (s6, g6)))) => {
            &&& r matches Ok(Some(n))
            &&& n.subnet_v6@ == s6
            &&& n.gateway_v6@ == g6
            &&& match b {
                Some(i) => agree_but_v6(n, v[i]),
                None => {
                    &&& n.id@ == id
                    &&& n.name@ == "bridge"@
                    &&& n.driver@ == "bridge"@
                    &&& n.bridge@ == "ingot0"@
                    &&& n.subnet@ == "172.17.0.0/16"@
                    &&& n.gateway@ == "172.17.0.1"@
                    &&& n.created@ == created
                    &&& !n.internal
                    &&& !n.attachable
                    &&& n.options.entries@.len() == 0
                    &&& n.labels.entries@.len() == 0
                },
            }
        },
    }
}

/// What is to be done when the daemon starts.
#[derive(Debug)]
pub struct Boot {
    /// What is odd about the networks.
    pub warnings: Vec<String>,
    /// The bridges to remove.
    pub stale: Vec<String>,
    /// Why the networks cannot be taken up.
    pub fault: Option<String>,
    /// The place of the bridge network, where it is new or has got an IPv6 range: it is set
    /// up and its record is written.
    pub bridge: Option<usize>,
    /// The places of the networks whose name servers are started.
    pub servers: Vec<usize>,
    /// How many buckets and leases were taken back: of IPv4, then of IPv6.
    pub swept: ((usize, usize), (usize, usize)),
}

pub open spec fn places(v: Seq<usize>) -> Seq<int> {
    Seq::new(v.len(), |i: int| v[i] as int)
}

/// The networks among the first `n` that have a name server: all but the default one,
/// whose containers ask the host's.
pub open spec fn served_to(v: Seq<NetworkRecord>, n: int) -> Seq<int>
    decreases n,
{
    if n <= 0 {
        Seq::empty()
    } else if v[n - 1].name@ != "bridge"@ {
        served_to(v, n - 1).push(n - 1)
    } else {
        served_to(v, n - 1)
    }
}

/// The leases of a start: each bucket of a network that is not there goes, and so does
/// every lease that no endpoint holds; the counts say how many.
pub open spec fn leases_swept<A>(
    before: Seq<(Seq<char>, Seq<A>)>,
    after: Seq<(Seq<char>, Seq<A>)>,
    known: Seq<Seq<char>>,
    live: Seq<(Seq<char>, A)>,
    count: (usize, usize),
) -> bool {
    &&& after == ipam::swept(before, known, live)
    &&& count.0 == before.len() - after.len()
    &&& count.1 == ipam::lease_count(before) - ipam::lease_count(after)
}

/// How the networks are taken up when the daemon starts.
pub open spec fn booted(
    m: NetworkManager,
    n: NetworkManager,
    listing: Seq<char>,
    id: Seq<char>,
    created: Seq<char>,
    endpoints: Seq<(String, String)>,
    r: Boot,
) -> bool {
    let ls = dockerfile::lines(listing);
    &&& text::texts(r.warnings@) == audit_to(m.networks@, m.networks@.len() as int)
    &&& text::texts(r.stale@) == stale_to(ls, m.networks@, ls.len() as int)
    &&& match r.fault {
        Some(e) => {
            &&& is_bridge_due(m.networks@, m.ipv6, id, created, Err(e))
            &&& n == m
            &&& r.bridge is None
            &&& r.servers@.len() == 0
            &&& r.swept == ((0usize, 0usize), (0usize, 0usize))
        },
        None => {
            &&& match r.bridge {
                None => is_bridge_due(m.networks@, m.ipv6, id, created, Ok(None)) && n.networks@
                    == m.networks@,
                Some(i) => {
                    &&& i < n.networks@.len()
                    &&& is_bridge_due(m.networks@, m.ipv6, id, created, Ok(Some(n.networks@[i as int])))
                    &&& n.networks@ == saved(m.networks@, n.networks@[i as int])
                },
            }
            &&& places(r.servers@) == served_to(n.networks@, n.networks@.len() as int)
            &&& leases_swept(
                ipam::buckets(m.ipam.state.allocated),
                ipam::buckets(n.ipam.state.allocated),
                ids(n.networks@),
                live_to(endpoints, endpoints.len() as int),
                r.swept.0,
            )
            &&& leases_swept(
                ipam::buckets(m.ipam.state.allocated_v6),
                ipam::buckets(n.ipam.state.allocated_v6),
                ids(n.networks@),
                Seq::empty(),
                r.swept.1,
            )
            &&& n.published == m.published
            &&& n.ipv6 == m.ipv6
            &&& n.bridges_ready == m.bridges_ready
            &&& n.v6_by_v4 == m.v6_by_v4
            &&& n.dns == m.dns
            &&& n.dns6 == m.dns6
            &&& n.dns_search == m.dns_search
        },
    }
}

proof fn lemma_named_from(v: Seq<NetworkRecord>, k: Seq<char>, i: int)
    requires
        0 <= i <= v.len(),
    ensures
        i <= named_from(v, k, false, i) <= v.len(),
        named_from(v, k, false, i) < v.len() ==> v[named_from(v, k, false, i)].name@ == k,
    decreases v.len() - i,
{
    if i < v.len() && v[i].name@ != k {
        lemma_named_from(v, k, i + 1);
    }
}

/// Once the networks are taken up there is a bridge network.
pub proof fn law_boot_leaves_a_bridge(
    m: NetworkManager,
    n: NetworkManager,
    listing: Seq<char>,
    id: Seq<char>,
    created: Seq<char>,
    endpoints: Seq<(String, String)>,
    r: Boot,
)
    requires
        booted(m, n, listing, id, created, endpoints, r),
        r.fault is None,
    ensures
        exists|i: int| 0 <= i < n.networks@.len() && (#[trigger] n.networks@[i]).name@ == "bridge"@,
{
    let b = named_from(m.networks@, "bridge"@, false, 0);
    lemma_named_from(m.networks@, "bridge"@, 0);
    match r.bridge {
        None => {
            assert(n.networks@[b].name@ == "bridge"@);
        },
        Some(i) => {
            assert(n.networks@[i as int].name@ == "bridge"@);
        },
    }
}

impl NetworkManager {
    /// The bridge network to set up and save when the daemon starts, if any.
    pub fn default_bridge(&self, id: &str, created: &str) -> (r: Result<
        Option<NetworkRecord>,
        String,
    >)
        ensures
            is_bridge_due(self.networks@, self.ipv6, id@, created@, r),
    {
        match find_network(&self.networks, "bridge", false) {
            None => {
                let none: Vec<String> = Vec::new();
                assert(text::texts(none@) =~= Seq::empty());
                match pick_v6_range(&self.ipv6, id, &none) {
                    Ok((s6, g6)) => Ok(
                        Some(
                            NetworkRecord {
                                id: id.to_owned(),
                                name: "bridge".to_owned(),
                                driver: "bridge".to_owned(),
                                bridge: "ingot0".to_owned(),
                                subnet: "172.17.0.0/16".to_owned(),
                                gateway: "172.17.0.1".to_owned(),
                                subnet_v6: s6,
                                gateway_v6: g6,
                                created: created.to_owned(),
                                internal: false,
                                attachable: false,
                                options: Table::new(),
                                labels: Table::new(),
                            },
                        ),
                    ),
                    Err(e) => Err(e),
                }
            },
            Some(b) => {
                if self.ipv6.enabled && !self.networks[b].has_ipv6() {
                    let existing: Vec<String> = v6_ranges_of(&self.networks);
                    let mut rec: NetworkRecord = copy_record(&self.networks[b]);
                    match pick_v6_range(&self.ipv6, rec.id.as_str(), &existing) {
                        Ok((s6, g6)) => {
                            rec.subnet_v6 = s6;
                            rec.gateway_v6 = g6;
                            Ok(Some(rec))
                        },
                        Err(e) => Err(e),
                    }
                } else {
                    Ok(None)
                }
            },
        }
    }

    /// What is wrong with the networks that were saved.
    pub fn audit(&self) -> (r: Vec<String>)
        ensures
            text::texts(r@) == audit_to(self.networks@, self.networks@.len() as int),
    {
        let mut out: Vec<String> = Vec::new();
        let mut i: usize = 0;
        assert(text::texts(out@) =~= Seq::empty());
        while i < self.networks.len()
            invariant
                i <= self.networks.len(),
                text::texts(out@) == audit_to(self.networks@, i as int),
            decreases self.networks.len() - i,
        {
            let ghost before = text::texts(out@);
            let a: &NetworkRecord = &self.networks[i];
            match Subnet::parse(a.subnet.as_str()) {
                Ok(sa) => {
                    if let Some(gw) = parse_ipv4(a.gateway.as_str()) {
                        if !sa.contains(gw) {
                            let mut w: String = "boot: network ".to_owned();
                            w.append(a.name.as_str());
                            w.append(" gateway ");
                            w.append(a.gateway.as_str());
                            w.append(" is outside subnet ");
                            w.append(a.subnet.as_str());
                            add_word(&mut out, w.as_str());
                        }
                    }
                    let mut j: usize = i + 1;
                    assert(text::texts(out@) =~= before + warnings_to(
                        self.networks@,
                        i as int,
                        j as int,
                    ));
                    while j < self.networks.len()
                        invariant
                            i < j <= self.networks.len(),
                            *a == self.networks@[i as int],
                            sa.wf(),
                            ipam::subnet_of(a.subnet@) == Ok::<Subnet, Seq<char>>(sa),
                            text::texts(out@) == before + warnings_to(
                                self.networks@,
                                i as int,
                                j as int,
                            ),
                        decreases self.networks.len() - j,
                    {
                        let b: &NetworkRecord = &self.networks[j];
                        let ghost mid = text::texts(out@);
                        if let Ok(sb) = Subnet::parse(b.subnet.as_str()) {
                            if sa.overlaps(&sb) {
                                warn_overlap(
                                    &mut out,
                                    a.name.as_str(),
                                    a.subnet.as_str(),
                                    b.name.as_str(),
                                    b.subnet.as_str(),
                                );
                            }
                        }
                        if let Ok(sa6) = V6Subnet::parse(a.subnet_v6.as_str()) {
                            if let Ok(sb6) = V6Subnet::parse(b.subnet_v6.as_str()) {
                                if sa6.overlaps(&sb6) {
                                    warn_overlap(
                                        &mut out,
                                        a.name.as_str(),
                                        a.subnet_v6.as_str(),
                                        b.name.as_str(),
                                        b.subnet_v6.as_str(),
                                    );
                                }
                            }
                        }
                        assert(text::texts(out@) =~= mid + pair_warnings(*a, *b));
                        j += 1;
                        assert(text::texts(out@) =~= before + warnings_to(
                            self.networks@,
                            i as int,
                            j as int,
                        ));
                    }
                    assert(text::texts(out@) =~= before + network_warnings(
                        self.networks@,
                        i as int,
                    ));
                },
                Err(_) => {
                    let mut w: String = "boot: network ".to_owned();
                    w.append(a.name.as_str());
                    w.append(" has invalid subnet ");
                    w.append(quote(a.subnet.as_str()).as_str());
                    add_word(&mut out, w.as_str());
                    assert(text::texts(out@) =~= before + network_warnings(
                        self.networks@,
                        i as int,
                    ));
                },
            }
            i += 1;
        }
        out
    }

    /// The bridges in a listing of the host's interfaces that no network has any more.
    pub fn stale_bridges(&self, listing: &str) -> (r: Vec<String>)
        ensures
            text::texts(r@) == stale_to(
                dockerfile::lines(listing@),
                self.networks@,
                dockerfile::lines(listing@).len() as int,
            ),
    {
        let cs: Vec<char> = chars_of(listing);
        let ls: Vec<String> = lines_text(cs.as_slice());
        let ghost lv = dockerfile::lines(listing@);
        let mut out: Vec<String> = Vec::new();
        let mut i: usize = 0;
        assert(text::texts(out@) =~= Seq::empty());
        while i < ls.len()
            invariant
                i <= ls.len(),
                text::texts(ls@) == lv,
                text::texts(out@) == stale_to(lv, self.networks@, i as int),
            decreases ls.len() - i,
        {
            assert(lv[i as int] == ls@[i as int]@);
            let n: String = interface_name(ls[i].as_str());
            if self.is_stale_bridge(n.as_str()) {
                add_word(&mut out, n.as_str());
            }
            i += 1;
        }
        out
    }

    fn is_stale_bridge(&self, name: &str) -> (r: bool)
        ensures
            r == is_stale(name@, self.networks@),
    {
        let ns: Vec<char> = chars_of(name);
        let p: Vec<char> = chars_of("br-");
        if !has_prefix(ns.as_slice(), p.as_slice()) && !same(name, "ingot0") {
            return false;
        }
        let mut i: usize = 0;
        while i < self.networks.len()
            invariant
                i <= self.networks.len(),
                forall|j: int| 0 <= j < i ==> (#[trigger] self.networks@[j]).bridge@ != name@,
            decreases self.networks.len() - i,
        {
            if same(self.networks[i].bridge.as_str(), name) {
                return false;
            }
            i += 1;
        }
        true
    }

    /// The ids of the networks.
    pub fn known_ids(&self) -> (r: Vec<String>)
        ensures
            text::texts(r@) == ids(self.networks@),
    {
        let mut out: Vec<String> = Vec::new();
        let mut i: usize = 0;
        while i < self.networks.len()
            invariant
                i <= self.networks.len(),
                text::texts(out@) =~= ids(self.networks@).take(i as int),
            decreases self.networks.len() - i,
        {
            add_word(&mut out, self.networks[i].id.as_str());
            i += 1;
        }
        assert(ids(self.networks@).take(self.networks@.len() as int) =~= ids(self.networks@));
        out
    }

    /// Takes back the leases that no container holds when the daemon starts: of IPv6
    /// leases, all of them. Gives back how many buckets and leases of each kind went.
    pub fn sweep(&mut self, endpoints: &Vec<(String, String)>) -> (r: (
        (usize, usize),
        (usize, usize),
    ))
        requires
            ipam::lease_count(ipam::buckets(old(self).ipam.state.allocated)) <= usize::MAX,
            ipam::lease_count(ipam::buckets(old(self).ipam.state.allocated_v6)) <= usize::MAX,
        ensures
            ({
                let b = ipam::buckets(old(self).ipam.state.allocated);
                let a = ipam::buckets(final(self).ipam.state.allocated);
                &&& a == ipam::swept(
                    b,
                    ids(old(self).networks@),
                    live_to(endpoints@, endpoints@.len() as int),
                )
                &&& r.0.0 == b.len() - a.len()
                &&& r.0.1 == ipam::lease_count(b) - ipam::lease_count(a)
            }),
            ({
                let b = ipam::buckets(old(self).ipam.state.allocated_v6);
                let a = ipam::buckets(final(self).ipam.state.allocated_v6);
                &&& a == ipam::swept(b, ids(old(self).networks@), Seq::empty())
                &&& r.1.0 == b.len() - a.len()
                &&& r.1.1 == ipam::lease_count(b) - ipam::lease_count(a)
            }),
            final(self).networks == old(self).networks,
            final(self).published == old(self).published,
            final(self).ipv6 == old(self).ipv6,
            final(self).bridges_ready == old(self).bridges_ready,
            final(self).v6_by_v4 == old(self).v6_by_v4,
            final(self).dns == old(self).dns,
            final(self).dns6 == old(self).dns6,
            final(self).dns_search == old(self).dns_search,
    {
        let known: Vec<String> = self.known_ids();
        let live: Vec<(String, u32)> = live_leases(endpoints);
        let v4: (usize, usize) = self.ipam.sweep_orphans(&known, &live);
        let none: Vec<(String, u128)> = Vec::new();
        assert(ipam::live_pairs(none@) =~= Seq::empty());
        let v6: (usize, usize) = self.ipam.sweep_orphans_v6(&known, &none);
        (v4, v6)
    }

    /// Takes the networks up when the daemon starts. `listing` is the list of the host's
    /// interfaces, `endpoints` are those that containers hold, and `id` and `created` are for
    /// the bridge network where there is none yet. Where that network can have no IPv6 range,
    /// nothing changes.
    pub fn boot(
        &mut self,
        listing: &str,
        id: &str,
        created: &str,
        endpoints: &Vec<(String, String)>,
    ) -> (r: Boot)
        requires
            ipam::lease_count(ipam::buckets(old(self).ipam.state.allocated)) <= usize::MAX,
            ipam::lease_count(ipam::buckets(old(self).ipam.state.allocated_v6)) <= usize::MAX,
        ensures
            booted(*old(self), *final(self), listing@, id@, created@, endpoints@, r),
    {
        let warnings: Vec<String> = self.audit();
        let stale: Vec<String> = self.stale_bridges(listing);
        let due: Result<Option<NetworkRecord>, String> = self.default_bridge(id, created);
        let ghost before = *self;
        let ghost d = due;
        let bridge: Option<usize> = match due {
            Err(e) => {
                return Boot {
                    warnings,
                    stale,
                    fault: Some(e),
                    bridge: None,
                    servers: Vec::new(),
                    swept: ((0, 0), (0, 0)),
                };
            },
            Ok(None) => None,
            Ok(Some(rec)) => {
                let place: usize = match find_id(&self.networks, rec.id.as_str()) {
                    Some(i) => i,
                    None => self.networks.len(),
                };
                self.save_network(rec);
                assert(self.networks@[place as int] == rec);
                assert(is_bridge_due(
                    before.networks@,
                    before.ipv6,
                    id@,
                    created@,
                    Ok(Some(self.networks@[place as int])),
                ));
                Some(place)
            },
        };
        let servers: Vec<usize> = self.server_places();
        let swept: ((usize, usize), (usize, usize)) = self.sweep(endpoints);
        Boot { warnings, stale, fault: None, bridge, servers, swept }
    }

    /// The places of the networks that have a name server.
    fn server_places(&self) -> (r: Vec<usize>)
        ensures
            places(r@) == served_to(self.networks@, self.networks@.len() as int),
    {
        let mut out: Vec<usize> = Vec::new();
        let mut i: usize = 0;
        assert(places(out@) =~= Seq::empty());
        while i < self.networks.len()
            invariant
                i <= self.networks.len(),
                places(out@) == served_to(self.networks@, i as int),
            decreases self.networks.len() - i,
        {
            if !same(self.networks[i].name.as_str(), "bridge") {
                let ghost b = places(out@);
                out.push(i);
                assert(places(out@) =~= b.push(i as int));
            }
            i += 1;
        }
        out
    }

    /// Whether a bridge has been set up since the daemon started.
    pub fn is_ready(&self, bridge: &str) -> (r: bool)
        ensures
            r == text::texts(self.bridges_ready@).contains(bridge@),
    {
        let ghost rv = text::texts(self.bridges_ready@);
        let mut i: usize = 0;
        while i < self.bridges_ready.len()
            invariant
                i <= self.bridges_ready.len(),
                rv == text::texts(self.bridges_ready@),
                forall|j: int| 0 <= j < i ==> #[trigger] rv[j] != bridge@,
            decreases self.bridges_ready.len() - i,
        {
            if same(self.bridges_ready[i].as_str(), bridge) {
                assert(rv[i as int] == bridge@);
                return true;
            }
            i += 1;
        }
        false
    }

    /// Takes note that a bridge has been set up.
    pub fn mark_ready(&mut self, bridge: &str)
        ensures
            text::texts(final(self).bridges_ready@) == if text::texts(
                old(self).bridges_ready@,
            ).contains(bridge@) {
                text::texts(old(self).bridges_ready@)
            } else {
                text::texts(old(self).bridges_ready@).push(bridge@)
            },
            final(self).networks == old(self).networks,
            final(self).ipam == old(self).ipam,
            final(self).published == old(self).published,
            final(self).ipv6 == old(self).ipv6,
            final(self).v6_by_v4 == old(self).v6_by_v4,
            final(self).dns == old(self).dns,
            final(self).dns6 == old(self).dns6,
            final(self).dns_search == old(self).dns_search,
    {
        if !self.is_ready(bridge) {
            let mut v: Vec<String> = Vec::new();
            std::mem::swap(&mut v, &mut self.bridges_ready);
            add_word(&mut v, bridge);
            self.bridges_ready = v;
        }
    }
}

fn warn_overlap(out: &mut Vec<String>, a: &str, sa: &str, b: &str, sb: &str)
    ensures
        text::texts(final(out)@) == text::texts(old(out)@).push(overlap_warning(a@, sa@, b@, sb@)),
{
    let mut w: String = "boot: network ".to_owned();
    w.append(a);
    w.append(" (");
    w.append(sa);
    w.append(") overlaps network ");
    w.append(b);
    w.append(" (");
    w.append(sb);
    w.append(") — cross-bridge replies may blackhole");
    add_word(out, w.as_str());
}

// ---------------------------------------------------------------- joining and leaving

/// The IPv4 lease that an endpoint gets: the one that it asks for, or the next.
pub open spec fn lease_due(
    net: NetworkRecord,
    requested: Option<Seq<char>>,
    used: Seq<u32>,
) -> Result<u32, Seq<char>> {
    match requested {
        Some(want) => if want.len() > 0 {
            ipam::wanted_lease(net.subnet@, net.gateway@, want, used)
        } else {
            ipam::next_lease(net.id@, net.subnet@, net.gateway@, used)
        },
        None => ipam::next_lease(net.id@, net.subnet@, net.gateway@, used),
    }
}

/// The IPv6 lease that an endpoint gets, on a network with an IPv6 range.
pub open spec fn lease6_due(net: NetworkRecord, used: Seq<u128>) -> Result<
    Option<u128>,
    Seq<char>,
> {
    if net.dual() {
        match ipam::next_lease6(net.id@, net.subnet_v6@, net.gateway_v6@, used) {
            Ok(ip) => Ok(Some(ip)),
            Err(e) => Err(e),
        }
    } else {
        Ok(None)
    }
}

/// What an endpoint is known by on its network.
pub open spec fn endpoint_keys(req: AttachRequest) -> Seq<Seq<char>> {
    seq![text::ascii_lowered(req.container_name@), text::ascii_lowered(req.hostname@)]
        + dns::lowered_keys(req.aliases@)
}

fn keys_of(req: &AttachRequest) -> (r: Vec<String>)
    ensures
        dns::lowered_keys(r@) == endpoint_keys(*req),
{
    let mut out: Vec<String> = Vec::new();
    out.push(req.container_name.clone());
    out.push(req.hostname.clone());
    let mut i: usize = 0;
    while i < req.aliases.len()
        invariant
            i <= req.aliases.len(),
            dns::lowered_keys(out@) =~= seq![
                text::ascii_lowered(req.container_name@),
                text::ascii_lowered(req.hostname@),
            ] + dns::lowered_keys(req.aliases@).take(i as int),
        decreases req.aliases.len() - i,
    {
        let ghost before = out@;
        out.push(req.aliases[i].clone());
        assert(dns::lowered_keys(out@) =~= dns::lowered_keys(before).push(
            text::ascii_lowered(req.aliases@[i as int]@),
        ));
        assert(dns::lowered_keys(req.aliases@).take(i as int + 1) =~= dns::lowered_keys(
            req.aliases@,
        ).take(i as int).push(text::ascii_lowered(req.aliases@[i as int]@)));
        i += 1;
    }
    assert(dns::lowered_keys(req.aliases@).take(req.aliases@.len() as int) =~= dns::lowered_keys(
        req.aliases@,
    ));
    out
}

/// The names of a network after a registration.
pub open spec fn names_registered(
    before: Table<Table<String>>,
    after: Table<Table<String>>,
    net: Seq<char>,
    keys: Seq<Seq<char>>,
    ip: Seq<char>,
) -> bool {
    forall|n: Seq<char>, x: Seq<char>|
        #[trigger] text2(after, n, x) == if n == net && keys.contains(x) {
            Some(ip)
        } else {
            text2(before, n, x)
        }
}

/// The names of a network after those that lead to an address have gone.
pub open spec fn names_scrubbed(
    before: Table<Table<String>>,
    after: Table<Table<String>>,
    net: Seq<char>,
    keys: Seq<Seq<char>>,
    ip: Seq<char>,
) -> bool {
    forall|n: Seq<char>, x: Seq<char>|
        #[trigger] text2(after, n, x) == if n == net && keys.contains(x) && text2(before, n, x)
            == Some(ip) {
            None
        } else {
            text2(before, n, x)
        }
}

/// The search domains of an endpoint.
pub open spec fn domains2(
    t: Table<Table<Vec<String>>>,
    net: Seq<char>,
    ip: Seq<char>,
) -> Option<Seq<Seq<char>>> {
    match at2(t, net, ip) {
        Some(v) => Some(text::texts(v@)),
        None => None,
    }
}

pub open spec fn ipv6_shown_of(ipv6: Option<u128>) -> Seq<char> {
    match ipv6 {
        Some(v) => addr::ipv6_shown(v as nat),
        None => Seq::empty(),
    }
}

/// What was leased to an endpoint, and the commands that connect it.
pub struct Attachment {
    pub network: NetworkRecord,
    pub ip: u32,
    pub ipv6: Option<u128>,
    pub commands: Vec<Command>,
}

/// The manager but for its leases.
pub open spec fn beside_leases(a: NetworkManager, b: NetworkManager) -> bool {
    &&& a.networks == b.networks
    &&& a.published == b.published
    &&& a.ipv6 == b.ipv6
    &&& a.bridges_ready == b.bridges_ready
    &&& a.v6_by_v4 == b.v6_by_v4
    &&& a.dns == b.dns
    &&& a.dns6 == b.dns6
    &&& a.dns_search == b.dns_search
}

impl NetworkManager {
    /// The name of the host's side of an endpoint: one for each container and network.
    pub fn endpoint_ifname(container_id: &str, net_id: &str) -> (r: String)
        requires
            network::cuts_at(container_id@, 4),
            network::cuts_at(net_id@, 4),
        ensures
            r@ == ifname_of(container_id@, net_id@),
    {
        let mut s: String = "veth-".to_owned();
        s.append(first_bytes(container_id, 4).as_str());
        s.append(first_bytes(net_id, 4).as_str());
        s
    }

    /// The commands, inside the container, that give an endpoint its IPv6 address.
    pub fn v6_endpoint_cmds(
        ipv6: u128,
        prefix: u8,
        ifname: &str,
        gateway_v6: &str,
        if_index: usize,
        internal: bool,
    ) -> (r: Vec<Vec<String>>)
        ensures
            lists(r@) == v6_endpoint(
                ipv6 as nat,
                prefix as nat,
                ifname@,
                gateway_v6@,
                if_index as nat,
                internal,
            ),
    {
        let a: String = v6_bridge_addr(ipv6_text(ipv6).as_str(), prefix);
        let x: Vec<String> = words_of(&["ip", "-6", "addr", "add", a.as_str(), "dev", ifname]);
        assert(text::texts(x@) =~= seq!["ip"@, "-6"@, "addr"@, "add"@, a@, "dev"@, ifname@]);
        let mut out: Vec<Vec<String>> = Vec::new();
        out.push(x);
        if if_index == 0 && !internal {
            let y: Vec<String> = words_of(
                &["ip", "-6", "route", "add", "default", "via", gateway_v6],
            );
            assert(text::texts(y@) =~= seq![
                "ip"@,
                "-6"@,
                "route"@,
                "add"@,
                "default"@,
                "via"@,
                gateway_v6@,
            ]);
            out.push(y);
        }
        assert(lists(out@) =~= v6_endpoint(
            ipv6 as nat,
            prefix as nat,
            ifname@,
            gateway_v6@,
            if_index as nat,
            internal,
        ));
        out
    }

    /// The commands that connect a container to its network.
    pub fn wire(net: &NetworkRecord, req: &AttachRequest, ip_addr: u32, ipv6: Option<u128>) -> (r:
        Vec<Command>)
        requires
            network::cuts_at(req.container_id@, 4),
            network::cuts_at(net.id@, 4),
        ensures
            command_views(r@) == wiring(*net, *req, ip_addr, ipv6),
    {
        let host: String = NetworkManager::endpoint_ifname(
            req.container_id.as_str(),
            net.id.as_str(),
        );
        let mut peer: String = host.clone();
        peer.append("-p");
        let pid: String = signed_decimal_text(req.pid);
        let mut name: String = "eth".to_owned();
        name.append(decimal_text(req.if_index as u128).as_str());
        let h: &str = host.as_str();
        let p: &str = peer.as_str();
        let n: &str = name.as_str();
        let a4: String = v6_bridge_addr(ipv4_text(ip_addr).as_str(), prefix_of(net.subnet.as_str()));
        let mut out: Vec<Command> = Vec::new();
        let c0: Command = ip(&["link", "add", h, "type", "veth", "peer", "name", p]);
        let c1: Command = ip(&["link", "set", h, "master", net.bridge.as_str()]);
        let c2: Command = ip(&["link", "set", h, "up"]);
        let c3: Command = ip(&["link", "set", p, "netns", pid.as_str()]);
        let w4: Vec<String> = words_of(&["ip", "link", "set", p, "name", n]);
        let w5: Vec<String> = words_of(&["ip", "addr", "add", a4.as_str(), "dev", n]);
        let w6: Vec<String> = words_of(&["ip", "link", "set", n, "up"]);
        let w7: Vec<String> = words_of(&["ip", "link", "set", "lo", "up"]);
        assert(text::texts(c0.args@) =~= seq![
            "link"@,
            "add"@,
            h@,
            "type"@,
            "veth"@,
            "peer"@,
            "name"@,
            p@,
        ]);
        assert(text::texts(c1.args@) =~= seq!["link"@, "set"@, h@, "master"@, net.bridge@]);
        assert(text::texts(c2.args@) =~= seq!["link"@, "set"@, h@, "up"@]);
        assert(text::texts(c3.args@) =~= seq!["link"@, "set"@, p@, "netns"@, pid@]);
        assert(text::texts(w4@) =~= seq!["ip"@, "link"@, "set"@, p@, "name"@, n@]);
        assert(text::texts(w5@) =~= seq!["ip"@, "addr"@, "add"@, a4@, "dev"@, n@]);
        assert(text::texts(w6@) =~= seq!["ip"@, "link"@, "set"@, n@, "up"@]);
        assert(text::texts(w7@) =~= seq!["ip"@, "link"@, "set"@, "lo"@, "up"@]);
        out.push(c0);
        out.push(c1);
        out.push(c2);
        out.push(c3);
        out.push(enter(req.pid, w4));
        out.push(enter(req.pid, w5));
        out.push(enter(req.pid, w6));
        out.push(enter(req.pid, w7));
        if req.if_index == 0 {
            let w8: Vec<String> = words_of(
                &["ip", "route", "add", "default", "via", net.gateway.as_str()],
            );
            assert(text::texts(w8@) =~= seq![
                "ip"@,
                "route"@,
                "add"@,
                "default"@,
                "via"@,
                net.gateway@,
            ]);
            out.push(enter(req.pid, w8));
        }
        assert(command_views(out@) =~= wiring(*net, *req, ip_addr, None));
        if let Some(v6) = ipv6 {
            let cmds: Vec<Vec<String>> = NetworkManager::v6_endpoint_cmds(
                v6,
                prefix6_of(net.subnet_v6.as_str()),
                n,
                net.gateway_v6.as_str(),
                req.if_index,
                net.internal,
            );
            let ghost cv = lists(cmds@);
            let ghost base = command_views(out@);
            let mut i: usize = 0;
            while i < cmds.len()
                invariant
                    i <= cmds.len(),
                    cv == lists(cmds@),
                    command_views(out@) =~= base + all_inside(req.pid as int, cv).take(i as int),
                decreases cmds.len() - i,
            {
                let ghost before = out@;
                let w: Vec<String> = copy_strings(&cmds[i]);
                let c: Command = enter(req.pid, w);
                assert(c@ == inside(req.pid as int, cv[i as int]));
                out.push(c);
                assert(command_views(out@) =~= command_views(before).push(c@));
                assert(all_inside(req.pid as int, cv).take(i as int + 1) =~= all_inside(
                    req.pid as int,
                    cv,
                ).take(i as int).push(c@));
                i += 1;
            }
            assert(all_inside(req.pid as int, cv).take(cv.len() as int) =~= all_inside(
                req.pid as int,
                cv,
            ));
            assert(command_views(out@) =~= wiring(*net, *req, ip_addr, ipv6));
        }
        out
    }

    /// The IPv6 lease of an endpoint.
    fn lease_v6(&mut self, net: &NetworkRecord) -> (r: Result<Option<u128>, String>)
        ensures
            beside_leases(*final(self), *old(self)),
            final(self).ipam.state.allocated == old(self).ipam.state.allocated,
            ({
                let used = ipam::leased(old(self).ipam.state.allocated_v6, net.id@);
                let now = ipam::leased(final(self).ipam.state.allocated_v6, net.id@);
                &&& ipam::same_elsewhere(
                    final(self).ipam.state.allocated_v6,
                    old(self).ipam.state.allocated_v6,
                    net.id@,
                )
                &&& match r {
                    Ok(x) => {
                        &&& lease6_due(*net, used) == Ok::<Option<u128>, Seq<char>>(x)
                        &&& now == match x {
                            Some(ip) => used.push(ip),
                            None => used,
                        }
                    },
                    Err(e) => {
                        &&& lease6_due(*net, used) == Err::<Option<u128>, Seq<char>>(e@)
                        &&& now == used
                    },
                }
            }),
    {
        if net.has_ipv6() {
            match self.ipam.allocate_v6(
                net.id.as_str(),
                net.subnet_v6.as_str(),
                net.gateway_v6.as_str(),
            ) {
                Ok(ip) => Ok(Some(ip)),
                Err(e) => Err(e),
            }
        } else {
            Ok(None)
        }
    }

    /// Leases the addresses of a new endpoint on a network; tells how to connect it.
    pub fn attach(&mut self, req: &AttachRequest) -> (r: Result<Attachment, String>)
        requires
            network::cuts_at(req.container_id@, 4),
            forall|i: int|
                0 <= i < old(self).networks@.len() ==> network::cuts_at(
                    (#[trigger] old(self).networks@[i]).id@,
                    4,
                ),
        ensures
            beside_leases(*final(self), *old(self)),
            match resolved_place(old(self).networks@, req.network@) {
                Err(e) => (r matches Err(d) && d@ == e) && final(self).ipam == old(self).ipam,
                Ok(p) => {
                    let net = old(self).networks@[p];
                    let used = ipam::leased(old(self).ipam.state.allocated, net.id@);
                    let used6 = ipam::leased(old(self).ipam.state.allocated_v6, net.id@);
                    let now = ipam::leased(final(self).ipam.state.allocated, net.id@);
                    let now6 = ipam::leased(final(self).ipam.state.allocated_v6, net.id@);
                    let due = lease_due(net, reference::opt_text(req.requested_ip), used);
                    let due6 = lease6_due(net, used6);
                    &&& ipam::same_elsewhere(
                        final(self).ipam.state.allocated,
                        old(self).ipam.state.allocated,
                        net.id@,
                    )
                    &&& ipam::same_elsewhere(
                        final(self).ipam.state.allocated_v6,
                        old(self).ipam.state.allocated_v6,
                        net.id@,
                    )
                    &&& match due {
                        Err(e) => (r matches Err(d) && d@ == e) && now == used && now6 == used6,
                        Ok(ip) => now == used.push(ip) && match due6 {
                            Err(e) => (r matches Err(d) && d@ == e) && now6 == used6,
                            Ok(x) => {
                                &&& r matches Ok(a)
                                &&& agree(a.network, net)
                                &&& a.ip == ip
                                &&& a.ipv6 == x
                                &&& now6 == match x {
                                    Some(v6) => used6.push(v6),
                                    None => used6,
                                }
                                &&& command_views(a.commands@) == wiring(net, *req, ip, x)
                            },
                        },
                    }
                },
            },
    {
        let net: NetworkRecord = match self.resolve(req.network.as_str()) {
            Ok(n) => n,
            Err(e) => {
                return Err(e);
            },
        };
        let ghost want = reference::opt_text(req.requested_ip);
        let leased: Result<u32, String> = match &req.requested_ip {
            Some(w) => {
                if w.as_str().is_empty() {
                    self.ipam.allocate(net.id.as_str(), net.subnet.as_str(), net.gateway.as_str())
                } else {
                    self.ipam.reserve(
                        net.id.as_str(),
                        net.subnet.as_str(),
                        net.gateway.as_str(),
                        w.as_str(),
                    )
                }
            },
            None => self.ipam.allocate(
                net.id.as_str(),
                net.subnet.as_str(),
                net.gateway.as_str(),
            ),
        };
        let ip4: u32 = match leased {
            Ok(i) => i,
            Err(e) => {
                return Err(e);
            },
        };
        let ipv6: Option<u128> = match self.lease_v6(&net) {
            Ok(x) => x,
            Err(e) => {
                return Err(e);
            },
        };
        let commands: Vec<Command> = NetworkManager::wire(&net, req, ip4, ipv6);
        Ok(Attachment { network: net, ip: ip4, ipv6, commands })
    }

    /// Connects an endpoint again that has its IPv4 lease: only an IPv6 lease is new.
    pub fn rewire(&mut self, network: &str, req: &AttachRequest, ip_addr: u32) -> (r: Result<
        Attachment,
        String,
    >)
        requires
            network::cuts_at(req.container_id@, 4),
            forall|i: int|
                0 <= i < old(self).networks@.len() ==> network::cuts_at(
                    (#[trigger] old(self).networks@[i]).id@,
                    4,
                ),
        ensures
            beside_leases(*final(self), *old(self)),
            final(self).ipam.state.allocated == old(self).ipam.state.allocated,
            match resolved_place(old(self).networks@, network@) {
                Err(e) => (r matches Err(d) && d@ == e) && final(self).ipam == old(self).ipam,
                Ok(p) => {
                    let net = old(self).networks@[p];
                    let used6 = ipam::leased(old(self).ipam.state.allocated_v6, net.id@);
                    let now6 = ipam::leased(final(self).ipam.state.allocated_v6, net.id@);
                    &&& ipam::same_elsewhere(
                        final(self).ipam.state.allocated_v6,
                        old(self).ipam.state.allocated_v6,
                        net.id@,
                    )
                    &&& match lease6_due(net, used6) {
                        Err(e) => (r matches Err(d) && d@ == e) && now6 == used6,
                        Ok(x) => {
                            &&& r matches Ok(a)
                            &&& agree(a.network, net)
                            &&& a.ip == ip_addr
                            &&& a.ipv6 == x
                            &&& now6 == match x {
                                Some(v6) => used6.push(v6),
                                None => used6,
                            }
                            &&& command_views(a.commands@) == wiring(net, *req, ip_addr, x)
                        },
                    }
                },
            },
    {
        let net: NetworkRecord = match self.resolve(network) {
            Ok(n) => n,
            Err(e) => {
                return Err(e);
            },
        };
        let ipv6: Option<u128> = match self.lease_v6(&net) {
            Ok(x) => x,
            Err(e) => {
                return Err(e);
            },
        };
        let commands: Vec<Command> = NetworkManager::wire(&net, req, ip_addr, ipv6);
        Ok(Attachment { network: net, ip: ip_addr, ipv6, commands })
    }
}

/// The names, the search domains and the IPv6 address of an endpoint have been noted.
pub open spec fn noted(
    before: NetworkManager,
    after: NetworkManager,
    net: Seq<char>,
    req: AttachRequest,
    ip: Seq<char>,
    ipv6: Option<u128>,
) -> bool {
    let v6 = ipv6_shown_of(ipv6);
    &&& names_registered(before.dns, after.dns, net, endpoint_keys(req), ip)
    &&& if v6.len() > 0 {
        &&& names_registered(before.dns6, after.dns6, net, endpoint_keys(req), v6)
        &&& forall|n: Seq<char>, x: Seq<char>| #[trigger]
            text2(after.v6_by_v4, n, x) == if n == net && x == ip {
                Some(v6)
            } else {
                text2(before.v6_by_v4, n, x)
            }
    } else {
        after.dns6 == before.dns6 && after.v6_by_v4 == before.v6_by_v4
    }
    &&& forall|n: Seq<char>, x: Seq<char>| #[trigger]
        domains2(after.dns_search, n, x) == if req.dns_search@.len() > 0 && n == net && (x == ip
            || (v6.len() > 0 && x == v6)) {
            Some(text::texts(req.dns_search@))
        } else {
            domains2(before.dns_search, n, x)
        }
}

/// The names, the search domains and the IPv6 address of an endpoint have been forgotten.
pub open spec fn forgotten(
    before: NetworkManager,
    after: NetworkManager,
    net: Seq<char>,
    keys: Seq<Seq<char>>,
    ip: Seq<char>,
) -> bool {
    let v6 = text2(before.v6_by_v4, net, ip);
    &&& names_scrubbed(before.dns, after.dns, net, keys, ip)
    &&& match v6 {
        Some(a) => names_scrubbed(before.dns6, after.dns6, net, keys, a),
        None => after.dns6 == before.dns6,
    }
    &&& forall|n: Seq<char>, x: Seq<char>| #[trigger]
        text2(after.v6_by_v4, n, x) == if n == net && x == ip {
            None
        } else {
            text2(before.v6_by_v4, n, x)
        }
    &&& forall|n: Seq<char>, x: Seq<char>| #[trigger]
        domains2(after.dns_search, n, x) == if n == net && (x == ip || Some(x) == v6) {
            None
        } else {
            domains2(before.dns_search, n, x)
        }
}

/// The leases of one network without an address, if that can be read.
pub open spec fn lease_returned(
    before: Table<Vec<u32>>,
    after: Table<Vec<u32>>,
    net: Seq<char>,
    ip: Seq<char>,
) -> bool {
    match addr::ipv4(ip) {
        Some(x) => {
            &&& ipam::leased(after, net) == ipam::without(ipam::leased(before, net), x)
            &&& ipam::same_elsewhere(after, before, net)
        },
        None => after == before,
    }
}

pub open spec fn lease6_returned(
    before: Table<Vec<u128>>,
    after: Table<Vec<u128>>,
    net: Seq<char>,
    ip: Option<Seq<char>>,
) -> bool {
    match ip {
        Some(a) => match addr::ipv6(a) {
            Some(x) => {
                &&& ipam::leased(after, net) == ipam::without(
                    ipam::leased(before, net),
                    x as u128,
                )
                &&& ipam::same_elsewhere(after, before, net)
            },
            None => after == before,
        },
        None => after == before,
    }
}

impl NetworkManager {
    /// Takes note of an endpoint that has been connected.
    pub fn connected(
        &mut self,
        net: &NetworkRecord,
        req: &AttachRequest,
        ip_addr: u32,
        ipv6: Option<u128>,
    ) -> (r: EndpointAllocation)
        ensures
            noted(*old(self), *final(self), net.id@, *req, addr::ipv4_shown(ip_addr), ipv6),
            final(self).networks == old(self).networks,
            final(self).ipam == old(self).ipam,
            final(self).published == old(self).published,
            final(self).ipv6 == old(self).ipv6,
            final(self).bridges_ready == old(self).bridges_ready,
            r.network_id@ == net.id@,
            r.network_name@ == net.name@,
            r.ip@ == addr::ipv4_shown(ip_addr),
            r.gateway@ == net.gateway@,
            r.ipv6@ == ipv6_shown_of(ipv6),
            r.mac@.len() == 0,
            text::texts(r.aliases@) == text::texts(req.aliases@),
    {
        let keys: Vec<String> = keys_of(req);
        let id: &str = net.id.as_str();
        let a: String = ipv4_text(ip_addr);
        let b: String = match ipv6 {
            Some(v) => ipv6_text(v),
            None => String::new(),
        };
        register2(&mut self.dns, id, keys.as_slice(), a.as_str());
        if !b.as_str().is_empty() {
            register2(&mut self.dns6, id, keys.as_slice(), b.as_str());
            let ghost m0 = self.v6_by_v4;
            put2(&mut self.v6_by_v4, id, a.clone(), b.clone());
            proof {
                assert forall|n: Seq<char>, x: Seq<char>| #[trigger]
                    text2(self.v6_by_v4, n, x) == if n == id@ && x == a@ {
                        Some(b@)
                    } else {
                        text2(m0, n, x)
                    } by {
                    assert(at2(self.v6_by_v4, id@, a@) is Some);
                    if n != id@ || x != a@ {
                        assert(at2(self.v6_by_v4, n, x) == at2(m0, n, x));
                    }
                }
            }
        }
        let ghost d0 = self.dns_search;
        if req.dns_search.len() > 0 {
            put2(&mut self.dns_search, id, a.clone(), copy_strings(&req.dns_search));
            let ghost d1 = self.dns_search;
            assert forall|n: Seq<char>, x: Seq<char>| #[trigger]
                domains2(d1, n, x) == if n == id@ && x == a@ {
                    Some(text::texts(req.dns_search@))
                } else {
                    domains2(d0, n, x)
                } by {
                assert(at2(d1, id@, a@) is Some);
                if n != id@ || x != a@ {
                    assert(at2(d1, n, x) == at2(d0, n, x));
                }
            }
            if !b.as_str().is_empty() {
                put2(&mut self.dns_search, id, b.clone(), copy_strings(&req.dns_search));
                assert forall|n: Seq<char>, x: Seq<char>| #[trigger]
                    domains2(self.dns_search, n, x) == if n == id@ && x == b@ {
                        Some(text::texts(req.dns_search@))
                    } else {
                        domains2(d1, n, x)
                    } by {
                    assert(at2(self.dns_search, id@, b@) is Some);
                    if n != id@ || x != b@ {
                        assert(at2(self.dns_search, n, x) == at2(d1, n, x));
                    }
                }
            }
        }
        EndpointAllocation {
            network_id: net.id.clone(),
            network_name: net.name.clone(),
            ip: a,
            gateway: net.gateway.clone(),
            ipv6: b,
            mac: String::new(),
            aliases: copy_strings(&req.aliases),
        }
    }

    /// Gives the leases of an endpoint back that could not be connected: of one that is
    /// connected again only the IPv6 lease.
    pub fn give_back(&mut self, net_id: &str, ip_addr: Option<u32>, ipv6: Option<u128>)
        ensures
            beside_leases(*final(self), *old(self)),
            match ip_addr {
                Some(a) => lease_returned(
                    old(self).ipam.state.allocated,
                    final(self).ipam.state.allocated,
                    net_id@,
                    addr::ipv4_shown(a),
                ),
                None => final(self).ipam.state.allocated == old(self).ipam.state.allocated,
            },
            lease6_returned(
                old(self).ipam.state.allocated_v6,
                final(self).ipam.state.allocated_v6,
                net_id@,
                match ipv6 {
                    Some(a) => Some(addr::ipv6_shown(a as nat)),
                    None => None,
                },
            ),
    {
        if let Some(a) = ip_addr {
            self.ipam.release(net_id, ipv4_text(a).as_str());
        }
        if let Some(a) = ipv6 {
            self.ipam.release_v6(net_id, ipv6_text(a).as_str());
        }
    }

    /// Registers the names of an endpoint on its own network.
    pub fn register_dns(&mut self, net_id: &str, keys: &[String], ip_addr: &str)
        ensures
            names_registered(
                old(self).dns,
                final(self).dns,
                net_id@,
                dns::lowered_keys(keys@),
                ip_addr@,
            ),
            final(self).networks == old(self).networks,
            final(self).ipam == old(self).ipam,
            final(self).published == old(self).published,
            final(self).ipv6 == old(self).ipv6,
            final(self).bridges_ready == old(self).bridges_ready,
            final(self).v6_by_v4 == old(self).v6_by_v4,
            final(self).dns6 == old(self).dns6,
            final(self).dns_search == old(self).dns_search,
    {
        register2(&mut self.dns, net_id, keys, ip_addr);
    }

    /// Gives the leases of an endpoint back and takes its names away, where they still
    /// lead to it.
    pub fn detach(&mut self, net_id: &str, ip_addr: &str, dns_keys: &[String])
        ensures
            forgotten(*old(self), *final(self), net_id@, dns::lowered_keys(dns_keys@), ip_addr@),
            lease_returned(
                old(self).ipam.state.allocated,
                final(self).ipam.state.allocated,
                net_id@,
                ip_addr@,
            ),
            lease6_returned(
                old(self).ipam.state.allocated_v6,
                final(self).ipam.state.allocated_v6,
                net_id@,
                text2(old(self).v6_by_v4, net_id@, ip_addr@),
            ),
            final(self).networks == old(self).networks,
            final(self).published == old(self).published,
            final(self).ipv6 == old(self).ipv6,
            final(self).bridges_ready == old(self).bridges_ready,
    {
        self.ipam.release(net_id, ip_addr);
        let v6: Option<String> = look2(&self.v6_by_v4, net_id, ip_addr);
        let ghost m0 = self.v6_by_v4;
        let ghost d0 = self.dns_search;
        drop2(&mut self.v6_by_v4, net_id, ip_addr);
        proof {
            assert forall|n: Seq<char>, x: Seq<char>| #[trigger]
                text2(self.v6_by_v4, n, x) == if n == net_id@ && x == ip_addr@ {
                    None
                } else {
                    text2(m0, n, x)
                } by {
                assert(at2(self.v6_by_v4, net_id@, ip_addr@) is None);
                if n != net_id@ || x != ip_addr@ {
                    assert(at2(self.v6_by_v4, n, x) == at2(m0, n, x));
                }
            }
        }
        scrub2(&mut self.dns, net_id, dns_keys, ip_addr);
        drop2(&mut self.dns_search, net_id, ip_addr);
        let ghost d1 = self.dns_search;
        assert forall|n: Seq<char>, x: Seq<char>| #[trigger]
            domains2(d1, n, x) == if n == net_id@ && x == ip_addr@ {
                None
            } else {
                domains2(d0, n, x)
            } by {
            assert(at2(d1, net_id@, ip_addr@) is None);
            if n != net_id@ || x != ip_addr@ {
                assert(at2(d1, n, x) == at2(d0, n, x));
            }
        }
        if let Some(a) = v6 {
            self.ipam.release_v6(net_id, a.as_str());
            scrub2(&mut self.dns6, net_id, dns_keys, a.as_str());
            drop2(&mut self.dns_search, net_id, a.as_str());
            assert forall|n: Seq<char>, x: Seq<char>| #[trigger]
                domains2(self.dns_search, n, x) == if n == net_id@ && x == a@ {
                    None
                } else {
                    domains2(d1, n, x)
                } by {
                assert(at2(self.dns_search, net_id@, a@) is None);
                if n != net_id@ || x != a@ {
                    assert(at2(self.dns_search, n, x) == at2(d1, n, x));
                }
            }
        }
    }

    /// Takes a network away, with its names, its search domains and its leases.
    pub fn remove_network(&mut self, name_or_id: &str) -> (r: Result<NetworkRecord, String>)
        ensures
            ({
                let v = old(self).networks@;
                let p = named_from(v, name_or_id@, true, 0);
                if p >= v.len() || v[p].name@ == "bridge"@ {
                    &&& r matches Err(e)
                    &&& e@ == if p >= v.len() {
                        "network not found: "@ + name_or_id@
                    } else {
                        "bridge is a pre-defined network and cannot be removed"@
                    }
                    &&& *final(self) == *old(self)
                } else {
                    let id = v[p].id@;
                    &&& r matches Ok(n)
                    &&& agree(n, v[p])
                    &&& final(self).networks@ == v.remove(with_id_from(v, id, 0))
                    &&& forall|n: Seq<char>, x: Seq<char>| #[trigger]
                        text2(final(self).dns, n, x) == if n == id {
                            None
                        } else {
                            text2(old(self).dns, n, x)
                        }
                    &&& forall|n: Seq<char>, x: Seq<char>| #[trigger]
                        text2(final(self).dns6, n, x) == if n == id {
                            None
                        } else {
                            text2(old(self).dns6, n, x)
                        }
                    &&& forall|n: Seq<char>, x: Seq<char>| #[trigger]
                        text2(final(self).v6_by_v4, n, x) == if n == id {
                            None
                        } else {
                            text2(old(self).v6_by_v4, n, x)
                        }
                    &&& forall|n: Seq<char>, x: Seq<char>| #[trigger]
                        at2(final(self).dns_search, n, x) == if n == id {
                            None
                        } else {
                            at2(old(self).dns_search, n, x)
                        }
                    &&& final(self).ipam.state.allocated.at(id) is None
                    &&& ipam::same_elsewhere(
                        final(self).ipam.state.allocated,
                        old(self).ipam.state.allocated,
                        id,
                    )
                    &&& final(self).ipam.state.allocated_v6 == old(self).ipam.state.allocated_v6
                }
            }),
            final(self).published == old(self).published,
            final(self).ipv6 == old(self).ipv6,
            final(self).bridges_ready == old(self).bridges_ready,
    {
        let p: usize = match find_network(&self.networks, name_or_id, true) {
            Some(p) => p,
            None => {
                let mut e: String = "network not found: ".to_owned();
                e.append(name_or_id);
                return Err(e);
            },
        };
        let rec: NetworkRecord = copy_record(&self.networks[p]);
        if same(rec.name.as_str(), "bridge") {
            return Err("bridge is a pre-defined network and cannot be removed".to_owned());
        }
        let id: &str = rec.id.as_str();
        proof {
            lemma_with_id(self.networks@, id@, p as int);
        }
        if let Some(q) = find_id(&self.networks, id) {
            self.networks.remove(q);
        }
        self.dns.remove(id);
        self.dns6.remove(id);
        self.dns_search.remove(id);
        self.v6_by_v4.remove(id);
        self.ipam.reset_bucket(id);
        Ok(rec)
    }
}

proof fn lemma_with_id(v: Seq<NetworkRecord>, id: Seq<char>, p: int)
    requires
        0 <= p < v.len(),
        v[p].id@ == id,
    ensures
        with_id_from(v, id, 0) < v.len(),
{
    lemma_with_id_from(v, id, 0, p);
}

proof fn lemma_with_id_from(v: Seq<NetworkRecord>, id: Seq<char>, i: int, p: int)
    requires
        0 <= i <= p < v.len(),
        v[p].id@ == id,
    ensures
        with_id_from(v, id, i) <= p,
    decreases p - i,
{
    if i < p && v[i].id@ != id {
        lemma_with_id_from(v, id, i + 1, p);
    }
}

// ---------------------------------------------------------------- publishing

/// The commands that take a removed network's bridge and its rules away.
pub open spec fn teardown(rec: NetworkRecord) -> Seq<CommandView> {
    seq![ip_command(seq!["link"@, "del"@, rec.bridge@])] + rule_deletions(
        "iptables"@,
        network::bridge_rules(rec.internal, rec.bridge@, rec.subnet@),
    ) + (if rec.dual() {
        rule_deletions(
            "ip6tables"@,
            network::bridge_rules(rec.internal, rec.bridge@, rec.subnet_v6@),
        )
    } else {
        Seq::empty()
    })
}

pub open spec fn rule_deletions(program: Seq<char>, rules: Seq<RuleView>) -> Seq<CommandView> {
    Seq::new(rules.len(), |i: int| CommandView { program, args: rules[i].command("-D"@) })
}

fn add_deletions(out: &mut Vec<Command>, program: &'static str, rules: &Vec<Ip6Rule>)
    ensures
        command_views(final(out)@) == command_views(old(out)@) + rule_deletions(
            program@,
            network::rules_views(rules@),
        ),
{
    let ghost rv = network::rules_views(rules@);
    let ghost all = rule_deletions(program@, rv);
    let mut i: usize = 0;
    while i < rules.len()
        invariant
            i <= rules.len(),
            rv == network::rules_views(rules@),
            all == rule_deletions(program@, rv),
            command_views(out@) =~= command_views(old(out)@) + all.take(i as int),
        decreases rules.len() - i,
    {
        let ghost before = out@;
        let c: Command = Command { program, args: rules[i].full_args("-D") };
        assert(c@ == all[i as int]);
        out.push(c);
        assert(command_views(out@) =~= command_views(before).push(c@));
        assert(all.take(i as int + 1) =~= all.take(i as int).push(c@));
        i += 1;
    }
    assert(all.take(rules@.len() as int) =~= all);
}

/// The commands that take a removed network's bridge and its rules away; that one fails
/// is no error.
pub fn drop_bridge_rules(rec: &NetworkRecord) -> (r: Vec<Command>)
    ensures
        command_views(r@) == teardown(*rec),
{
    let mut out: Vec<Command> = Vec::new();
    let c: Command = ip(&["link", "del", rec.bridge.as_str()]);
    assert(text::texts(c.args@) =~= seq!["link"@, "del"@, rec.bridge@]);
    out.push(c);
    assert(command_views(out@) =~= seq![c@]);
    let v4: Vec<Ip6Rule> = v4_network_rules(rec);
    add_deletions(&mut out, "iptables", &v4);
    if rec.has_ipv6() {
        let v6: Vec<Ip6Rule> = v6_network_rules(rec);
        add_deletions(&mut out, "ip6tables", &v6);
    }
    assert(command_views(out@) =~= teardown(*rec));
    out
}

impl NetworkManager {
    /// What is to be done to publish a port, given whether the host has it free. That
    /// the very rule is there already is no conflict; one of another container is.
    pub fn publish_port(&self, rule: &PortRule, host_free: bool) -> (r: Publish)
        ensures
            ({
                let all = network::rule_views(self.published@);
                let k = occupier_from(all, rule@, 0);
                match r {
                    Publish::Already => is_published(all, rule@),
                    Publish::Conflict(c) => {
                        &&& !is_published(all, rule@)
                        &&& c.proto@ == rule@.proto
                        &&& c.host_ip@ == rule@.host_ip
                        &&& c.host_port == rule@.host_port
                        &&& if k < all.len() {
                            reference::opt_text(c.occupier) == Some(all[k].container_id)
                        } else {
                            c.occupier is None && !host_free
                        }
                    },
                    Publish::Run(v) => {
                        &&& !is_published(all, rule@)
                        &&& k >= all.len()
                        &&& host_free
                        &&& command_views(v@) == publishing(rule@, "-A"@)
                    },
                }
            }),
    {
        if has_rule(&self.published, rule) {
            return Publish::Already;
        }
        let ghost all = network::rule_views(self.published@);
        let mut i: usize = 0;
        while i < self.published.len()
            invariant
                i <= self.published.len(),
                all == network::rule_views(self.published@),
                !is_published(all, rule@),
                occupier_from(all, rule@, 0) == occupier_from(all, rule@, i as int),
            decreases self.published.len() - i,
        {
            let o: &PortRule = &self.published[i];
            assert(all[i as int] == o@);
            if !same(o.container_id.as_str(), rule.container_id.as_str()) && publish_overlaps(
                rule.proto.as_str(),
                rule.host_ip.as_str(),
                rule.host_port,
                o,
            ) {
                return Publish::Conflict(
                    PortConflict {
                        proto: rule.proto.clone(),
                        host_ip: rule.host_ip.clone(),
                        host_port: rule.host_port,
                        occupier: Some(o.container_id.clone()),
                    },
                );
            }
            i += 1;
        }
        if !host_free {
            return Publish::Conflict(
                PortConflict {
                    proto: rule.proto.clone(),
                    host_ip: rule.host_ip.clone(),
                    host_port: rule.host_port,
                    occupier: None,
                },
            );
        }
        Publish::Run(publish_commands(rule, "-A"))
    }

    /// Takes note of a published port; gives back whether it is new.
    pub fn commit_port(&mut self, rule: PortRule) -> (r: bool)
        ensures
            ({
                let b = network::rule_views(old(self).published@);
                let a = network::rule_views(final(self).published@);
                &&& r == !is_published(b, rule@)
                &&& a == if r {
                    b.push(rule@)
                } else {
                    b
                }
            }),
            beside_published(*final(self), *old(self)),
    {
        if has_rule(&self.published, &rule) {
            return false;
        }
        let ghost b = network::rule_views(self.published@);
        let ghost x = rule@;
        self.published.push(rule);
        assert(network::rule_views(self.published@) =~= b.push(x));
        true
    }

    /// Whether no published port of the protocol is this one: such a port can be given
    /// out where the host has it free.
    pub fn is_port_unpublished(&self, proto: &str, port: u16) -> (r: bool)
        ensures
            r == unpublished(self.published@, proto@, port),
    {
        let mut i: usize = 0;
        while i < self.published.len()
            invariant
                i <= self.published.len(),
                forall|j: int|
                    0 <= j < i ==> !((#[trigger] self.published@[j]).proto@ == proto@
                        && self.published@[j].host_port == port),
            decreases self.published.len() - i,
        {
            if self.published[i].host_port == port && same(self.published[i].proto.as_str(), proto) {
                return false;
            }
            i += 1;
        }
        true
    }

    /// What comes next in the search for a free port, once the port that was tried is
    /// known: `seen` is the port that the kernel picked, and `free` says whether the host
    /// has the tried port free.
    pub fn allocate_ephemeral_port(
        &self,
        proto: &str,
        at: PortSearch,
        seen: Option<u16>,
        free: bool,
    ) -> (r: PortSearch)
        ensures
            r == port_search_after(self.published@, proto@, at, seen, free),
    {
        match at {
            PortSearch::Pick(left) => {
                if let Some(p) = seen {
                    if p != 0 && free && self.is_port_unpublished(proto, p) {
                        return PortSearch::Found(p);
                    }
                }
                if left > 1 {
                    PortSearch::Pick(left - 1)
                } else {
                    PortSearch::Scan(FIRST_EPHEMERAL_PORT)
                }
            },
            PortSearch::Scan(p) => {
                if free && self.is_port_unpublished(proto, p) {
                    PortSearch::Found(p)
                } else if p < LAST_EPHEMERAL_PORT {
                    PortSearch::Scan(p + 1)
                } else {
                    PortSearch::Found(FIRST_EPHEMERAL_PORT)
                }
            },
            PortSearch::Found(p) => PortSearch::Found(p),
        }
    }

    /// The published ports of a container.
    pub fn published_for(&self, container_id: &str) -> (r: Vec<PortRule>)
        ensures
            network::rule_views(r@) == rules_of(
                network::rule_views(self.published@),
                container_id@,
            ),
    {
        let ghost all = network::rule_views(self.published@);
        let mut out: Vec<PortRule> = Vec::new();
        let mut i: usize = 0;
        assert(network::rule_views(out@) =~= Seq::empty());
        while i < self.published.len()
            invariant
                i <= self.published.len(),
                all == network::rule_views(self.published@),
                network::rule_views(out@) == rules_of(all.take(i as int), container_id@),
            decreases self.published.len() - i,
        {
            let ghost before = out@;
            assert(all.take(i as int + 1).drop_last() =~= all.take(i as int));
            assert(all[i as int] == self.published@[i as int]@);
            if same(self.published[i].container_id.as_str(), container_id) {
                out.push(self.published[i].copy());
                assert(network::rule_views(out@) =~= network::rule_views(before).push(
                    all[i as int],
                ));
            }
            i += 1;
        }
        assert(all.take(all.len() as int) =~= all);
        out
    }

    /// Forgets the published ports of a container, and gives them back.
    pub fn unpublish_all(&mut self, container_id: &str) -> (r: Vec<PortRule>)
        ensures
            ({
                let b = network::rule_views(old(self).published@);
                let a = network::rule_views(final(self).published@);
                &&& network::rule_views(r@) == rules_of(b, container_id@)
                &&& a == rules_beside(b, container_id@)
            }),
            beside_published(*final(self), *old(self)),
    {
        let mine: Vec<PortRule> = self.published_for(container_id);
        let ghost all = network::rule_views(self.published@);
        let mut kept: Vec<PortRule> = Vec::new();
        let mut i: usize = 0;
        assert(network::rule_views(kept@) =~= Seq::empty());
        while i < self.published.len()
            invariant
                i <= self.published.len(),
                *self == *old(self),
                all == network::rule_views(self.published@),
                network::rule_views(kept@) == rules_beside(all.take(i as int), container_id@),
            decreases self.published.len() - i,
        {
            let ghost before = kept@;
            assert(all.take(i as int + 1).drop_last() =~= all.take(i as int));
            assert(all[i as int] == self.published@[i as int]@);
            if !same(self.published[i].container_id.as_str(), container_id) {
                kept.push(self.published[i].copy());
                assert(network::rule_views(kept@) =~= network::rule_views(before).push(
                    all[i as int],
                ));
            }
            i += 1;
        }
        assert(all.take(all.len() as int) =~= all);
        self.published = kept;
        mine
    }
}

/// The manager but for its published ports.
pub open spec fn beside_published(a: NetworkManager, b: NetworkManager) -> bool {
    &&& a.networks == b.networks
    &&& a.ipam == b.ipam
    &&& a.ipv6 == b.ipv6
    &&& a.bridges_ready == b.bridges_ready
    &&& a.v6_by_v4 == b.v6_by_v4
    &&& a.dns == b.dns
    &&& a.dns6 == b.dns6
    &&& a.dns_search == b.dns_search
}

// ---------------------------------------------------------------- laws

/// No port of the host leads to two containers.
pub open spec fn exclusive(all: Seq<PortRuleView>) -> bool {
    forall|i: int, j: int|
        0 <= i < all.len() && 0 <= j < all.len() && (#[trigger] all[i]).container_id != (
        #[trigger] all[j]).container_id ==> !network::collides(
            all[i].proto,
            all[i].host_ip,
            all[i].host_port,
            all[j],
        )
}

proof fn lemma_occupier_from(all: Seq<PortRuleView>, rule: PortRuleView, i: int)
    requires
        0 <= i <= all.len(),
        occupier_from(all, rule, i) >= all.len(),
    ensures
        forall|j: int|
            i <= j < all.len() && (#[trigger] all[j]).container_id != rule.container_id
                ==> !network::collides(rule.proto, rule.host_ip, rule.host_port, all[j]),
    decreases all.len() - i,
{
    if i < all.len() {
        lemma_occupier_from(all, rule, i + 1);
    }
}

/// How often the kernel is asked for a free port before the range is walked.
pub const PORT_PICKS: u8 = 16;

/// The range that is walked for a free port.
pub const FIRST_EPHEMERAL_PORT: u16 = 32768;

pub const LAST_EPHEMERAL_PORT: u16 = 60999;

/// Where the search for a free port of the host stands. It begins with `PORT_PICKS` ports
/// of the kernel's own choice, and ends with a port.
#[derive(Debug, Clone, Copy, PartialEq, Eq)]
pub enum PortSearch {
    /// The kernel picks a port, this often at most.
    Pick(u8),
    /// This port of the range is tried.
    Scan(u16),
    Found(u16),
}

/// No published port of the protocol is this one.
pub open spec fn unpublished(published: Seq<PortRule>, proto: Seq<char>, port: u16) -> bool {
    forall|i: int|
        0 <= i < published.len() ==> !((#[trigger] published[i]).proto@ == proto
            && published[i].host_port == port)
}

pub open spec fn port_search_after(
    published: Seq<PortRule>,
    proto: Seq<char>,
    at: PortSearch,
    seen: Option<u16>,
    free: bool,
) -> PortSearch {
    match at {
        PortSearch::Pick(left) => if seen is Some && seen->0 != 0 && free && unpublished(
            published,
            proto,
            seen->0,
        ) {
            PortSearch::Found(seen->0)
        } else if left > 1 {
            PortSearch::Pick((left - 1) as u8)
        } else {
            PortSearch::Scan(FIRST_EPHEMERAL_PORT)
        },
        PortSearch::Scan(p) => if free && unpublished(published, proto, p) {
            PortSearch::Found(p)
        } else if p < LAST_EPHEMERAL_PORT {
            PortSearch::Scan((p + 1) as u16)
        } else {
            PortSearch::Found(FIRST_EPHEMERAL_PORT)
        },
        PortSearch::Found(p) => PortSearch::Found(p),
    }
}

/// How many more ports the search can try.
pub open spec fn tries_left(at: PortSearch) -> int {
    match at {
        PortSearch::Pick(left) => left + 1 + LAST_EPHEMERAL_PORT - FIRST_EPHEMERAL_PORT + 1,
        PortSearch::Scan(p) => if p <= LAST_EPHEMERAL_PORT {
            LAST_EPHEMERAL_PORT - p + 1
        } else {
            1
        },
        PortSearch::Found(_) => 0,
    }
}

/// The search for a free port ends: every port that is tried leaves fewer to try.
pub proof fn law_port_search_ends(
    published: Seq<PortRule>,
    proto: Seq<char>,
    at: PortSearch,
    seen: Option<u16>,
    free: bool,
)
    requires
        !(at is Found),
    ensures
        0 <= tries_left(port_search_after(published, proto, at, seen, free)) < tries_left(at),
{
}

/// A port that the search ends with was free on the host and is published for no
/// container, unless the whole range was tried in vain.
pub proof fn law_found_port_is_unpublished(
    published: Seq<PortRule>,
    proto: Seq<char>,
    at: PortSearch,
    seen: Option<u16>,
    free: bool,
)
    requires
        !(at is Found),
        port_search_after(published, proto, at, seen, free) is Found,
    ensures
        ({
            let port = port_search_after(published, proto, at, seen, free)->Found_0;
            ||| free && unpublished(published, proto, port) && (at == PortSearch::Scan(port)
                || seen == Some(port) && port != 0)
            ||| at is Scan && at->Scan_0 >= LAST_EPHEMERAL_PORT && port == FIRST_EPHEMERAL_PORT
        }),
{
}

/// A port that is published where no other container has it keeps every port of the
/// host with one container.
pub proof fn law_publish_keeps_exclusive(all: Seq<PortRuleView>, rule: PortRuleView)
    requires
        exclusive(all),
        occupier_from(all, rule, 0) >= all.len(),
    ensures
        exclusive(all.push(rule)),
{
    lemma_occupier_from(all, rule, 0);
    let b = all.push(rule);
    assert forall|i: int, j: int|
        0 <= i < b.len() && 0 <= j < b.len() && (#[trigger] b[i]).container_id != (
        #[trigger] b[j]).container_id implies !network::collides(
        b[i].proto,
        b[i].host_ip,
        b[i].host_port,
        b[j],
    ) by {
        if i < all.len() && j < all.len() {
            assert(b[i] == all[i] && b[j] == all[j]);
        } else if j < all.len() {
            assert(b[j] == all[j]);
        } else {
            assert(b[i] == all[i]);
            network::law_collision_symmetric(rule, all[i]);
        }
    }
}

proof fn lemma_rules_split(all: Seq<PortRuleView>, id: Seq<char>)
    ensures
        rules_of(all, id).len() + rules_beside(all, id).len() == all.len(),
        forall|r: PortRuleView| #[trigger]
            rules_beside(all, id).contains(r) ==> all.contains(r) && r.container_id != id,
        forall|r: PortRuleView| #[trigger]
            rules_of(all, id).contains(r) ==> all.contains(r) && r.container_id == id,
        forall|r: PortRuleView|
            all.contains(r) && r.container_id != id ==> #[trigger] rules_beside(all, id).contains(
                r,
            ),
    decreases all.len(),
{
    if all.len() > 0 {
        let t = all.drop_last();
        lemma_rules_split(t, id);
        let a = rules_of(all, id);
        let b = rules_beside(all, id);
        let x = all.last();
        assert forall|r: PortRuleView| #[trigger] b.contains(r) implies all.contains(r)
            && r.container_id != id by {
            let k = choose|k: int| 0 <= k < b.len() && b[k] == r;
            if x.container_id != id && k == b.len() - 1 {
                assert(all[all.len() - 1] == r);
            } else {
                assert(rules_beside(t, id)[k] == r);
                assert(rules_beside(t, id).contains(r));
                let m = choose|m: int| 0 <= m < t.len() && t[m] == r;
                assert(all[m] == r);
            }
        }
        assert forall|r: PortRuleView| #[trigger] a.contains(r) implies all.contains(r)
            && r.container_id == id by {
            let k = choose|k: int| 0 <= k < a.len() && a[k] == r;
            if x.container_id == id && k == a.len() - 1 {
                assert(all[all.len() - 1] == r);
            } else {
                assert(rules_of(t, id)[k] == r);
                assert(rules_of(t, id).contains(r));
                let m = choose|m: int| 0 <= m < t.len() && t[m] == r;
                assert(all[m] == r);
            }
        }
        assert forall|r: PortRuleView| all.contains(r) && r.container_id != id implies #[trigger]
            b.contains(r) by {
            let k = choose|k: int| 0 <= k < all.len() && all[k] == r;
            if k == all.len() - 1 {
                assert(b[b.len() - 1] == r);
            } else {
                assert(t[k] == r);
                assert(t.contains(r));
                assert(rules_beside(t, id).contains(r));
                let c = rules_beside(t, id);
                let m = choose|m: int| 0 <= m < c.len() && c[m] == r;
                assert(b[m] == r);
            }
        }
    }
}

/// Unpublishing takes the ports of the one container and of no other, and keeps every
/// port of the host with one container.
pub proof fn law_unpublish_keeps_others(
    all: Seq<PortRuleView>,
    id: Seq<char>,
    rule: PortRuleView,
)
    ensures
        rules_beside(all, id).contains(rule) <==> all.contains(rule) && rule.container_id != id,
        exclusive(all) ==> exclusive(rules_beside(all, id)),
{
    lemma_rules_split(all, id);
    let b = rules_beside(all, id);
    if exclusive(all) {
        assert forall|i: int, j: int|
            0 <= i < b.len() && 0 <= j < b.len() && (#[trigger] b[i]).container_id != (
            #[trigger] b[j]).container_id implies !network::collides(
            b[i].proto,
            b[i].host_ip,
            b[i].host_port,
            b[j],
        ) by {
            assert(b.contains(b[i]) && b.contains(b[j]));
            let m = choose|m: int| 0 <= m < all.len() && all[m] == b[i];
            let n = choose|n: int| 0 <= n < all.len() && all[n] == b[j];
            assert(all[m].container_id != all[n].container_id);
        }
    }
}

/// An endpoint's names are found on its own network, and the names of every other
/// network stay as they are.
pub proof fn law_names_stay_on_their_network(
    before: NetworkManager,
    after: NetworkManager,
    net: Seq<char>,
    req: AttachRequest,
    ip: Seq<char>,
    ipv6: Option<u128>,
    other: Seq<char>,
    name: Seq<char>,
)
    requires
        noted(before, after, net, req, ip, ipv6),
        other != net,
    ensures
        text2(after.dns, net, text::ascii_lowered(req.container_name@)) == Some(ip),
        text2(after.dns, net, text::ascii_lowered(req.hostname@)) == Some(ip),
        text2(after.dns, other, name) == text2(before.dns, other, name),
        text2(after.dns6, other, name) == text2(before.dns6, other, name),
{
    assert(endpoint_keys(req)[0] == text::ascii_lowered(req.container_name@));
    assert(endpoint_keys(req)[1] == text::ascii_lowered(req.hostname@));
}

/// What an endpoint was known by is gone once it has left, and a name that another
/// endpoint has taken over in the meantime stays.
pub proof fn law_detach_forgets(
    before: NetworkManager,
    after: NetworkManager,
    net: Seq<char>,
    keys: Seq<Seq<char>>,
    ip: Seq<char>,
    name: Seq<char>,
)
    requires
        forgotten(before, after, net, keys, ip),
        keys.contains(name),
    ensures
        text2(after.dns, net, name) != Some(ip),
        text2(before.dns, net, name) != Some(ip) ==> text2(after.dns, net, name) == text2(
            before.dns,
            net,
            name,
        ),
        text2(after.v6_by_v4, net, ip) is None,
        domains2(after.dns_search, net, ip) is None,
{
}

/// A network that is made has a range of its own: it can be read, and shares no address
/// with that of a network there is.
pub proof fn law_new_range_is_free(
    v: Seq<NetworkRecord>,
    subnet: Option<Seq<char>>,
    gateway: Option<Seq<char>>,
    range: (Seq<char>, Seq<char>),
    i: int,
)
    requires
        new_range(v, subnet, gateway) == Ok::<(Seq<char>, Seq<char>), Seq<char>>(range),
        0 <= i < v.len(),
    ensures
        ipam::subnet_of(range.0) matches Ok(s) && (ipam::subnet_of(v[i].subnet@) matches Ok(o)
            ==> !s.shares(o)),
{
    let s = match subnet {
        Some(t) => ipam::subnet_of(t)->Ok_0,
        None => free_range(v, 18)->0,
    };
    match subnet {
        Some(t) => ipam::lemma_subnet_of(t),
        None => lemma_free_range(v, 18),
    }
    ipam::law_cidr_reads_back(s);
    assert(range.0 == s.shown());
    lemma_overlap_from(v, s, 0, i);
}

proof fn lemma_free_range(v: Seq<NetworkRecord>, b: int)
    requires
        18 <= b,
    ensures
        free_range(v, b) matches Some(s) ==> s.wf() && overlap_from(v, s, 0) >= v.len(),
    decreases 32 - b,
{
    if b <= 31 {
        lemma_pool_range(b);
        lemma_free_range(v, b + 1);
    }
}

proof fn lemma_overlap_from(v: Seq<NetworkRecord>, s: Subnet, k: int, i: int)
    requires
        0 <= k <= i < v.len(),
        overlap_from(v, s, k) >= v.len(),
    ensures
        ipam::subnet_of(v[i].subnet@) matches Ok(o) ==> !s.shares(o),
    decreases i - k,
{
    if k < i {
        lemma_overlap_from(v, s, k + 1, i);
    }
}

/// A new network has a gateway that lies in its range: the one that is asked for, or else the
/// first address behind the network's own; a range that is asked for is the one that it
/// gets.
pub proof fn law_gateway_lies_in_its_network(
    v: Seq<NetworkRecord>,
    subnet: Option<Seq<char>>,
    gateway: Option<Seq<char>>,
    range: (Seq<char>, Seq<char>),
)
    requires
        new_range(v, subnet, gateway) == Ok::<(Seq<char>, Seq<char>), Seq<char>>(range),
    ensures
        ipam::subnet_of(range.0) matches Ok(s) && addr::ipv4(range.1) matches Some(g) && {
            &&& s.network < g < s.network + ipam::span(s.prefix as int) - 1
            &&& subnet matches Some(t) ==> ipam::subnet_of(t) == ipam::subnet_of(range.0)
            &&& subnet is Some && gateway is Some ==> range.1 == gateway->0
            &&& subnet is None || gateway is None ==> g == s.network + 1
            &&& subnet is None ==> s.prefix == 16 && s.network as int / 16777216 == 172 && 18
                <= s.network as int / 65536 % 256 <= 31
        },
{
    let s = match subnet {
        Some(t) => ipam::subnet_of(t)->Ok_0,
        None => free_range(v, 18)->0,
    };
    match subnet {
        Some(t) => ipam::lemma_subnet_of(t),
        None => {
            lemma_free_range(v, 18);
            lemma_pool(v, 18);
        },
    }
    ipam::law_cidr_reads_back(s);
    ipam::lemma_span(s.prefix as int);
    ipam::lemma_subnet_fits(s);
    addr::law_ipv4_reads_back(s.first() as u32);
}

proof fn lemma_pool(v: Seq<NetworkRecord>, b: int)
    requires
        18 <= b,
        free_range(v, b) is Some,
    ensures
        ({
            let s = free_range(v, b)->0;
            s.prefix == 16 && s.network as int / 16777216 == 172 && b <= s.network as int / 65536
                % 256 <= 31
        }),
    decreases 32 - b,
{
    if b <= 31 {
        if overlap_from(v, pool_range(b), 0) >= v.len() {
            let n = (172 * 256 + b) * 65536;
            assert(0 <= n < 0x1_0000_0000);
            assert(pool_range(b).network == n);
            assert(n / 65536 == 172 * 256 + b);
            assert(n / 16777216 == 172);
            assert((172 * 256 + b) % 256 == b);
        } else {
            lemma_pool(v, b + 1);
        }
    }
}

} // verus!
