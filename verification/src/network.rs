//! Container networks: records, the rules of their dataplane, published ports and the
//! choice of address ranges.

use vstd::prelude::*;
use vstd::utf8::{decode_utf8, encode_utf8, is_char_boundary};

use crate::addr::{self, ipv6_text};
use crate::ipam::{self, V6Subnet, default_gateway_v6};
use crate::num::{self, decimal_text};
use crate::reference;
use crate::table::Table;
use crate::text::{self, same};
use crate::unicode::{self, quote};

verus! {

/// The pool of IPv6 ranges where none is set.
pub const DEFAULT_FIXED_CIDR_V6: &'static str = "fd00:dead:beef::/48";

/// The prefix of the range that each network gets out of the pool.
pub const V6_SUBNET_PREFIX: u8 = 64;

#[derive(Debug, Clone, Default)]
pub struct NetworkRecord {
    pub id: String,
    pub name: String,
    pub driver: String,
    pub bridge: String,
    pub subnet: String,
    pub gateway: String,
    /// The network's IPv6 range; empty where it has none.
    pub subnet_v6: String,
    /// The first usable address of that range; empty where there is none.
    pub gateway_v6: String,
    pub created: String,
    pub internal: bool,
    pub attachable: bool,
    pub options: Table<String>,
    pub labels: Table<String>,
}

impl NetworkRecord {
    pub open spec fn dual(self) -> bool {
        self.subnet_v6@.len() > 0 && self.gateway_v6@.len() > 0
    }

    /// Whether the network has an IPv6 range.
    pub fn has_ipv6(&self) -> (r: bool)
        ensures
            r == self.dual(),
    {
        !self.subnet_v6.as_str().is_empty() && !self.gateway_v6.as_str().is_empty()
    }
}

/// What a container asks for when it joins a network.
#[derive(Debug, Clone)]
pub struct AttachRequest {
    pub container_id: String,
    pub container_name: String,
    pub hostname: String,
    /// The name or the id of the network; `bridge` is the default.
    pub network: String,
    /// The host's number of the container's first process.
    pub pid: i64,
    pub netns_path: String,
    pub aliases: Vec<String>,
    /// The search domains of the container's resolver.
    pub dns_search: Vec<String>,
    /// The address that is asked for, if any.
    pub requested_ip: Option<String>,
    /// The number of the endpoint on the container: its interface is `eth` and this.
    pub if_index: usize,
}

/// An endpoint that has been given out.
#[derive(Debug, Clone)]
pub struct EndpointAllocation {
    pub network_id: String,
    pub network_name: String,
    pub ip: String,
    pub gateway: String,
    /// Empty where the network has no IPv6 range.
    pub ipv6: String,
    pub mac: String,
    pub aliases: Vec<String>,
}

// ---------------------------------------------------------------- text by bytes

/// The first `n` bytes of a text, or all of it.
pub open spec fn byte_prefix(s: Seq<char>, n: int) -> Seq<char> {
    decode_utf8(encode_utf8(s).take(prefix_len(s, n)))
}

pub open spec fn prefix_len(s: Seq<char>, n: int) -> int {
    if n <= encode_utf8(s).len() {
        n
    } else {
        encode_utf8(s).len() as int
    }
}

/// The first `n` bytes of a text end between two characters.
pub open spec fn cuts_at(s: Seq<char>, n: int) -> bool {
    is_char_boundary(encode_utf8(s), prefix_len(s, n))
}

/// The first `n` bytes of a text, or all of it.
pub fn first_bytes(s: &str, n: usize) -> (r: String)
    requires
        cuts_at(s@, n as int),
    ensures
        r@ == byte_prefix(s@, n as int),
{
    let len: usize = s.as_bytes().len();
    let k: usize = if n <= len {
        n
    } else {
        len
    };
    let (a, _b) = s.split_at(k);
    proof {
        vstd::utf8::encode_utf8_decode_utf8(a@);
        assert(encode_utf8(a@) =~= encode_utf8(s@).take(k as int));
    }
    a.to_owned()
}

/// Whether the first `n` bytes of a text end between two characters.
pub fn can_cut(s: &str, n: usize) -> (r: bool)
    ensures
        r == cuts_at(s@, n as int),
{
    let len: usize = s.as_bytes().len();
    s.is_char_boundary(if n <= len { n } else { len })
}

/// Of ASCII text, such as an id, the first bytes are the first characters, and no cut
/// falls inside one.
pub proof fn law_ascii_is_cut_by_characters(s: Seq<char>, n: int)
    requires
        vstd::utf8::is_ascii_chars(s),
        0 <= n,
    ensures
        cuts_at(s, n),
        byte_prefix(s, n) == s.take(if n <= s.len() { n } else { s.len() as int }),
{
    vstd::utf8::is_ascii_chars_encode_utf8(s);
    let k = prefix_len(s, n);
    let t = s.take(k);
    assert(vstd::utf8::is_ascii_chars(t)) by {
        assert forall|i: int| 0 <= i < t.len() implies 0 <= #[trigger] t[i] as nat && (
        t[i] as nat) < 128 by {
            assert(t[i] == s[i]);
        }
    }
    vstd::utf8::is_ascii_chars_encode_utf8(t);
    assert(encode_utf8(s).take(k) =~= encode_utf8(t));
    vstd::utf8::encode_utf8_decode_utf8(t);
    vstd::utf8::encode_utf8_valid_utf8(s);
    if k == encode_utf8(s).len() || k == 0 {
        vstd::utf8::is_char_boundary_start_end_of_seq(encode_utf8(s));
    } else {
        vstd::utf8::is_char_boundary_iff_not_is_continuation_byte(encode_utf8(s), k);
        assert(encode_utf8(s)[k] == s[k] as u8);
    }
}

// ---------------------------------------------------------------- published ports

/// A port of the host that leads to a container.
#[derive(Debug, Clone)]
pub struct PortRule {
    pub container_id: String,
    pub host_ip: String,
    pub host_port: u16,
    pub container_ip: String,
    pub container_port: u16,
    pub proto: String,
}

#[verifier::ext_equal]
pub struct PortRuleView {
    pub container_id: Seq<char>,
    pub host_ip: Seq<char>,
    pub host_port: u16,
    pub container_ip: Seq<char>,
    pub container_port: u16,
    pub proto: Seq<char>,
}

impl View for PortRule {
    type V = PortRuleView;

    open spec fn view(&self) -> PortRuleView {
        PortRuleView {
            container_id: self.container_id@,
            host_ip: self.host_ip@,
            host_port: self.host_port,
            container_ip: self.container_ip@,
            container_port: self.container_port,
            proto: self.proto@,
        }
    }
}

pub open spec fn rule_views(v: Seq<PortRule>) -> Seq<PortRuleView> {
    Seq::new(v.len(), |i: int| v[i]@)
}

impl PortRule {
    pub fn copy(&self) -> (r: PortRule)
        ensures
            r@ == self@,
    {
        PortRule {
            container_id: self.container_id.clone(),
            host_ip: self.host_ip.clone(),
            host_port: self.host_port,
            container_ip: self.container_ip.clone(),
            container_port: self.container_port,
            proto: self.proto.clone(),
        }
    }
}

/// The key of a rule's proxy: `container|proto|ip:port`.
pub open spec fn proxy_key_of(r: PortRuleView) -> Seq<char> {
    r.container_id + seq!['|'] + r.proto + seq!['|'] + r.host_ip + seq![':'] + num::decimal(
        r.host_port as nat,
    )
}

pub fn proxy_key(rule: &PortRule) -> (r: String)
    ensures
        r@ == proxy_key_of(rule@),
{
    let mut s: String = rule.container_id.clone();
    s.push('|');
    s.append(rule.proto.as_str());
    s.push('|');
    s.append(rule.host_ip.as_str());
    s.push(':');
    s.append(decimal_text(rule.host_port as u128).as_str());
    assert(s@ =~= proxy_key_of(rule@));
    s
}

/// A port of the host that is taken.
#[derive(Debug)]
pub struct PortConflict {
    pub proto: String,
    pub host_ip: String,
    pub host_port: u16,
    /// The container that has it; none where another process does.
    pub occupier: Option<String>,
}

/// What is told of a conflict; of the container's id the first twelve bytes.
pub open spec fn conflict_text(
    proto: Seq<char>,
    host_ip: Seq<char>,
    host_port: u16,
    occupier: Option<Seq<char>>,
) -> Seq<char> {
    "port "@ + (if host_ip.len() == 0 {
        "0.0.0.0"@
    } else {
        host_ip
    }) + seq![':'] + num::decimal(host_port as nat) + seq!['/'] + proto + (match occupier {
        Some(id) => " is already allocated by container "@ + byte_prefix(id, 12),
        None => " is already in use"@,
    })
}

impl PortConflict {
    /// The conflict in words.
    pub fn message(&self) -> (r: String)
        requires
            self.occupier matches Some(id) ==> cuts_at(id@, 12),
        ensures
            r@ == conflict_text(
                self.proto@,
                self.host_ip@,
                self.host_port,
                reference::opt_text(self.occupier),
            ),
    {
        let mut s: String = "port ".to_owned();
        if self.host_ip.as_str().is_empty() {
            s.append("0.0.0.0");
        } else {
            s.append(self.host_ip.as_str());
        }
        s.push(':');
        s.append(decimal_text(self.host_port as u128).as_str());
        s.push('/');
        s.append(self.proto.as_str());
        match &self.occupier {
            Some(id) => {
                s.append(" is already allocated by container ");
                s.append(first_bytes(id.as_str(), 12).as_str());
            },
            None => {
                s.append(" is already in use");
            },
        }
        assert(s@ =~= conflict_text(
            self.proto@,
            self.host_ip@,
            self.host_port,
            reference::opt_text(self.occupier),
        ));
        s
    }
}

/// An address that stands for every interface.
pub open spec fn is_wild(ip: Seq<char>) -> bool {
    ip.len() == 0 || ip == "0.0.0.0"@ || ip == "::"@
}

pub fn publish_ip_wild(ip: &str) -> (r: bool)
    ensures
        r == is_wild(ip@),
{
    ip.is_empty() || same(ip, "0.0.0.0") || same(ip, "::")
}

/// Two bindings collide: the same port of the same protocol, on addresses that are equal
/// or of which one stands for every interface.
pub open spec fn collides(
    proto: Seq<char>,
    ip: Seq<char>,
    port: u16,
    other: PortRuleView,
) -> bool {
    &&& other.proto == proto
    &&& other.host_port == port
    &&& (is_wild(ip) || is_wild(other.host_ip) || ip == other.host_ip)
}

pub fn publish_overlaps(proto: &str, ip: &str, port: u16, other: &PortRule) -> (r: bool)
    ensures
        r == collides(proto@, ip@, port, other@),
{
    same(other.proto.as_str(), proto) && other.host_port == port && (publish_ip_wild(ip)
        || publish_ip_wild(other.host_ip.as_str()) || same(ip, other.host_ip.as_str()))
}

/// Whether two rules collide does not depend on which of them came first.
pub proof fn law_collision_symmetric(a: PortRuleView, b: PortRuleView)
    ensures
        collides(a.proto, a.host_ip, a.host_port, b) == collides(
            b.proto,
            b.host_ip,
            b.host_port,
            a,
        ),
        collides(a.proto, a.host_ip, a.host_port, a),
{
}

// ---------------------------------------------------------------- dataplane rules

/// A packet filter rule, to be added, looked for or deleted.
#[derive(Debug, Clone, PartialEq, Eq)]
pub struct Ip6Rule {
    /// The table, where it is not the filter table.
    pub table: Option<&'static str>,
    /// Whether the rule goes to the head of its chain.
    pub insert: bool,
    pub args: Vec<String>,
}

#[verifier::ext_equal]
pub struct RuleView {
    pub table: Option<Seq<char>>,
    pub insert: bool,
    pub args: Seq<Seq<char>>,
}

impl View for Ip6Rule {
    type V = RuleView;

    open spec fn view(&self) -> RuleView {
        RuleView {
            table: match self.table {
                Some(t) => Some(t@),
                None => None,
            },
            insert: self.insert,
            args: text::texts(self.args@),
        }
    }
}

pub open spec fn rules_views(v: Seq<Ip6Rule>) -> Seq<RuleView> {
    Seq::new(v.len(), |i: int| v[i]@)
}

impl RuleView {
    /// The arguments of the command that does `op` with the rule.
    pub open spec fn command(self, op: Seq<char>) -> Seq<Seq<char>> {
        (match self.table {
            Some(t) => seq!["-t"@, t],
            None => Seq::empty(),
        }) + seq![op] + self.args
    }

    /// What adds the rule.
    pub open spec fn add_op(self) -> Seq<char> {
        if self.insert {
            "-I"@
        } else {
            "-A"@
        }
    }
}

/// A copy of a list of strings.
pub fn copy_strings(v: &Vec<String>) -> (r: Vec<String>)
    ensures
        r@ == v@,
        text::texts(r@) == text::texts(v@),
{
    let mut out: Vec<String> = Vec::new();
    let mut i: usize = 0;
    while i < v.len()
        invariant
            i <= v.len(),
            out@ == v@.take(i as int),
        decreases v.len() - i,
    {
        out.push(v[i].clone());
        assert(out@ =~= v@.take(i as int + 1));
        i += 1;
    }
    assert(v@.take(v@.len() as int) =~= v@);
    out
}

/// Puts a string behind the others.
pub fn add_word(v: &mut Vec<String>, s: &str)
    ensures
        text::texts(final(v)@) == text::texts(old(v)@).push(s@),
        final(v)@.len() == old(v)@.len() + 1,
{
    let ghost before = v@;
    v.push(s.to_owned());
    assert(text::texts(v@) =~= text::texts(before).push(s@));
}

/// Adds every word of a list.
pub fn add_words(v: &mut Vec<String>, w: &Vec<String>)
    ensures
        text::texts(final(v)@) == text::texts(old(v)@) + text::texts(w@),
{
    let ghost wv = text::texts(w@);
    let mut i: usize = 0;
    while i < w.len()
        invariant
            i <= w.len(),
            wv == text::texts(w@),
            text::texts(v@) =~= text::texts(old(v)@) + wv.take(i as int),
        decreases w.len() - i,
    {
        add_word(v, w[i].as_str());
        assert(wv.take(i as int + 1) =~= wv.take(i as int).push(wv[i as int]));
        i += 1;
    }
    assert(wv.take(wv.len() as int) =~= wv);
}

impl Ip6Rule {
    /// The arguments of the command that does `op` with the rule.
    pub fn full_args(&self, op: &str) -> (r: Vec<String>)
        ensures
            text::texts(r@) == self@.command(op@),
    {
        let mut out: Vec<String> = Vec::new();
        assert(text::texts(out@) =~= Seq::empty());
        if let Some(t) = self.table {
            add_word(&mut out, "-t");
            add_word(&mut out, t);
        }
        add_word(&mut out, op);
        let ghost head = text::texts(out@);
        let mut i: usize = 0;
        assert(head + self@.args.take(0) =~= head);
        while i < self.args.len()
            invariant
                i <= self.args.len(),
                text::texts(out@) == head + self@.args.take(i as int),
            decreases self.args.len() - i,
        {
            add_word(&mut out, self.args[i].as_str());
            assert(text::texts(out@) =~= head + self@.args.take(i as int + 1));
            i += 1;
        }
        assert(self@.args.take(self@.args.len() as int) =~= self@.args);
        assert(text::texts(out@) =~= self@.command(op@));
        out
    }

    /// The command that adds the rule.
    pub fn add_args(&self) -> (r: Vec<String>)
        ensures
            text::texts(r@) == self@.command(self@.add_op()),
    {
        if self.insert {
            self.full_args("-I")
        } else {
            self.full_args("-A")
        }
    }
}

/// The rules of a bridge. An internal network drops what enters or leaves its bridge and
/// keeps what stays on it; any other is masqueraded and forwarded both ways.
pub open spec fn bridge_rules(internal: bool, b: Seq<char>, subnet: Seq<char>) -> Seq<RuleView> {
    if internal {
        seq![
            RuleView {
                table: None,
                insert: true,
                args: seq!["FORWARD"@, "-i"@, b, "!"@, "-o"@, b, "-j"@, "DROP"@],
            },
            RuleView {
                table: None,
                insert: true,
                args: seq!["FORWARD"@, "-o"@, b, "!"@, "-i"@, b, "-j"@, "DROP"@],
            },
            RuleView {
                table: None,
                insert: false,
                args: seq!["FORWARD"@, "-i"@, b, "-o"@, b, "-j"@, "ACCEPT"@],
            },
        ]
    } else {
        seq![
            RuleView {
                table: Some("nat"@),
                insert: false,
                args: seq!["POSTROUTING"@, "-s"@, subnet, "!"@, "-o"@, b, "-j"@, "MASQUERADE"@],
            },
            RuleView {
                table: None,
                insert: false,
                args: seq!["FORWARD"@, "-i"@, b, "-j"@, "ACCEPT"@],
            },
            RuleView {
                table: None,
                insert: false,
                args: seq!["FORWARD"@, "-o"@, b, "-j"@, "ACCEPT"@],
            },
        ]
    }
}

/// The strings of the pieces, in order.
pub fn words_of(w: &[&str]) -> (r: Vec<String>)
    ensures
        r@.len() == w@.len(),
        forall|i: int| 0 <= i < w@.len() ==> (#[trigger] r@[i])@ == w@[i]@,
{
    let mut out: Vec<String> = Vec::new();
    let mut i: usize = 0;
    while i < w.len()
        invariant
            i <= w.len(),
            out@.len() == i,
            forall|j: int| 0 <= j < i ==> (#[trigger] out@[j])@ == w@[j]@,
        decreases w.len() - i,
    {
        out.push(w[i].to_owned());
        i += 1;
    }
    out
}

fn rule_list(internal: bool, b: &str, subnet: &str) -> (r: Vec<Ip6Rule>)
    ensures
        rules_views(r@) == bridge_rules(internal, b@, subnet@),
{
    let mut out: Vec<Ip6Rule> = Vec::new();
    if internal {
        let x: Vec<String> = words_of(&["FORWARD", "-i", b, "!", "-o", b, "-j", "DROP"]);
        let y: Vec<String> = words_of(&["FORWARD", "-o", b, "!", "-i", b, "-j", "DROP"]);
        let z: Vec<String> = words_of(&["FORWARD", "-i", b, "-o", b, "-j", "ACCEPT"]);
        assert(text::texts(x@) =~= seq!["FORWARD"@, "-i"@, b@, "!"@, "-o"@, b@, "-j"@, "DROP"@]);
        assert(text::texts(y@) =~= seq!["FORWARD"@, "-o"@, b@, "!"@, "-i"@, b@, "-j"@, "DROP"@]);
        assert(text::texts(z@) =~= seq!["FORWARD"@, "-i"@, b@, "-o"@, b@, "-j"@, "ACCEPT"@]);
        out.push(Ip6Rule { table: None, insert: true, args: x });
        out.push(Ip6Rule { table: None, insert: true, args: y });
        out.push(Ip6Rule { table: None, insert: false, args: z });
    } else {
        let x: Vec<String> = words_of(
            &["POSTROUTING", "-s", subnet, "!", "-o", b, "-j", "MASQUERADE"],
        );
        let y: Vec<String> = words_of(&["FORWARD", "-i", b, "-j", "ACCEPT"]);
        let z: Vec<String> = words_of(&["FORWARD", "-o", b, "-j", "ACCEPT"]);
        assert(text::texts(x@) =~= seq![
            "POSTROUTING"@,
            "-s"@,
            subnet@,
            "!"@,
            "-o"@,
            b@,
            "-j"@,
            "MASQUERADE"@,
        ]);
        assert(text::texts(y@) =~= seq!["FORWARD"@, "-i"@, b@, "-j"@, "ACCEPT"@]);
        assert(text::texts(z@) =~= seq!["FORWARD"@, "-o"@, b@, "-j"@, "ACCEPT"@]);
        out.push(Ip6Rule { table: Some("nat"), insert: false, args: x });
        out.push(Ip6Rule { table: None, insert: false, args: y });
        out.push(Ip6Rule { table: None, insert: false, args: z });
    }
    assert(rules_views(out@) =~= bridge_rules(internal, b@, subnet@));
    out
}

/// The IPv4 rules of a network.
pub fn v4_network_rules(rec: &NetworkRecord) -> (r: Vec<Ip6Rule>)
    ensures
        rules_views(r@) == bridge_rules(rec.internal, rec.bridge@, rec.subnet@),
{
    rule_list(rec.internal, rec.bridge.as_str(), rec.subnet.as_str())
}

/// The IPv6 rules of a network, which mirror the IPv4 ones; none where it has no IPv6
/// range.
pub fn v6_network_rules(rec: &NetworkRecord) -> (r: Vec<Ip6Rule>)
    ensures
        rules_views(r@) == if rec.dual() {
            bridge_rules(rec.internal, rec.bridge@, rec.subnet_v6@)
        } else {
            Seq::empty()
        },
{
    if !rec.has_ipv6() {
        let none: Vec<Ip6Rule> = Vec::new();
        assert(rules_views(none@) =~= Seq::empty());
        return none;
    }
    rule_list(rec.internal, rec.bridge.as_str(), rec.subnet_v6.as_str())
}

/// An internal network is never masqueraded, and its drops stand at the head of their
/// chain; any other network is masqueraded once.
pub proof fn law_internal_is_contained(b: Seq<char>, subnet: Seq<char>, i: int)
    requires
        0 <= i < 3,
    ensures
        bridge_rules(true, b, subnet).len() == 3,
        bridge_rules(true, b, subnet)[i].table is None,
        bridge_rules(true, b, subnet)[i].args.last() == "DROP"@
            ==> bridge_rules(true, b, subnet)[i].insert,
        bridge_rules(true, b, subnet)[0].args.last() == "DROP"@,
        bridge_rules(true, b, subnet)[1].args.last() == "DROP"@,
        bridge_rules(false, b, subnet)[0].args.last() == "MASQUERADE"@,
        bridge_rules(false, b, subnet)[i].table is Some <==> i == 0,
{
    reveal_strlit("DROP");
    reveal_strlit("ACCEPT");
    assert("DROP"@.len() != "ACCEPT"@.len());
}

/// An address with a prefix.
pub fn v6_bridge_addr(gateway_v6: &str, prefix: u8) -> (r: String)
    ensures
        r@ == gateway_v6@ + seq!['/'] + num::decimal(prefix as nat),
{
    let mut s: String = gateway_v6.to_owned();
    s.push('/');
    s.append(decimal_text(prefix as u128).as_str());
    assert(s@ =~= gateway_v6@ + seq!['/'] + num::decimal(prefix as nat));
    s
}

// ---------------------------------------------------------------- IPv6 ranges

/// The FNV-1a hash of bytes, 64 bits wide.
pub open spec fn fnv(b: Seq<u8>) -> u64
    decreases b.len(),
{
    if b.len() == 0 {
        0xcbf29ce484222325
    } else {
        (fnv(b.drop_last()) ^ (b.last() as u64)).wrapping_mul(0x100000001b3)
    }
}

pub fn fnv1a64(s: &str) -> (r: u64)
    ensures
        r == fnv(encode_utf8(s@)),
{
    let bytes: &[u8] = s.as_bytes();
    let mut h: u64 = 0xcbf29ce484222325;
    let mut i: usize = 0;
    assert(bytes@.take(0).len() == 0);
    while i < bytes.len()
        invariant
            i <= bytes.len(),
            h == fnv(bytes@.take(i as int)),
        decreases bytes.len() - i,
    {
        assert(bytes@.take(i as int + 1).drop_last() =~= bytes@.take(i as int));
        h = (h ^ (bytes[i] as u64)).wrapping_mul(0x100000001b3);
        i += 1;
    }
    assert(bytes@.take(bytes@.len() as int) =~= bytes@);
    h
}

/// How many /64 ranges a pool holds.
pub open spec fn capacity(prefix: int) -> nat {
    vstd::arithmetic::power2::pow2((64 - prefix) as nat)
}

/// The range at one slot of a pool.
pub open spec fn slot(pool: V6Subnet, idx: int) -> V6Subnet {
    V6Subnet { network: (pool.network + idx * 0x1_0000_0000_0000_0000) as u128, prefix: 64 }
}

/// The networks of the ranges that can be read.
pub open spec fn taken(existing: Seq<Seq<char>>) -> Seq<u128>
    decreases existing.len(),
{
    if existing.len() == 0 {
        Seq::empty()
    } else {
        match ipam::subnet6_of(existing.last()) {
            Ok(s) => taken(existing.drop_last()).push(s.network),
            Err(_) => taken(existing.drop_last()),
        }
    }
}

/// The first free slot at or behind `step` steps from the start, going round.
pub open spec fn free_slot(
    pool: V6Subnet,
    start: int,
    used: Seq<u128>,
    step: int,
) -> Option<V6Subnet>
    decreases capacity(pool.prefix as int) - step,
{
    let cap = capacity(pool.prefix as int) as int;
    if step < 0 || step >= cap {
        None
    } else if !used.contains(slot(pool, (start + step) % cap).network) {
        Some(slot(pool, (start + step) % cap))
    } else {
        free_slot(pool, start, used, step + 1)
    }
}

/// The range and the gateway that a network gets out of a pool: the first free range
/// from the one that the network's id hashes to.
pub open spec fn assigned(pool: Seq<char>, id: Seq<char>, existing: Seq<Seq<char>>) -> Result<
    V6Subnet,
    Seq<char>,
> {
    match ipam::subnet6_of(pool) {
        Ok(p) => if p.prefix > 64 {
            Err(
                "invalid fixed-cidr-v6 "@ + unicode::quoted(pool)
                    + " (prefix must be /64 or shorter for /64-per-network allocation)"@,
            )
        } else {
            match free_slot(
                p,
                fnv(encode_utf8(id)) as int % capacity(p.prefix as int) as int,
                taken(existing),
                0,
            ) {
                Some(s) => Ok(s),
                None => Err("all IPv6 address pools have been fully subnetted"@),
            }
        },
        Err(e) => Err("invalid fixed-cidr-v6 "@ + unicode::quoted(pool) + ": "@ + e),
    }
}

pub proof fn lemma_slot(pool: V6Subnet, idx: int)
    requires
        pool.wf(),
        pool.prefix <= 64,
        0 <= idx < capacity(pool.prefix as int),
    ensures
        1 <= capacity(pool.prefix as int) <= 0x1_0000_0000_0000_0000,
        pool.network + idx * 0x1_0000_0000_0000_0000 <= u128::MAX,
        slot(pool, idx).network == pool.network + idx * 0x1_0000_0000_0000_0000,
        slot(pool, idx).wf(),
        pool.network <= slot(pool, idx).network,
        slot(pool, idx).last() <= pool.last(),
{
    let p = pool.prefix as int;
    lemma_capacity(p);
    vstd::arithmetic::power2::lemma_pow2_adds((64 - p) as nat, 64);
    ipam::lemma_span6(64);
    ipam::lemma_subnet6_fits(pool);
    let cap = capacity(p) as int;
    let w: int = 0x1_0000_0000_0000_0000;
    let top = ipam::span6(p) as int;
    assert(ipam::span6(64) == w);
    assert(cap * w == top);
    assert(idx * w + w <= cap * w) by (nonlinear_arith)
        requires
            idx < cap,
            w > 0,
    ;
    let n = pool.network as int;
    vstd::arithmetic::div_mod::lemma_fundamental_div_mod(n, top);
    let q = n / top;
    assert(n == top * q);
    assert(n + idx * w == (q * cap + idx) * w) by (nonlinear_arith)
        requires
            n == top * q,
            cap * w == top,
    ;
    vstd::arithmetic::div_mod::lemma_mod_multiples_basic(q * cap + idx, w);
}

pub proof fn lemma_capacity(p: int)
    requires
        0 <= p <= 64,
    ensures
        1 <= capacity(p) <= 0x1_0000_0000_0000_0000,
        capacity(64) == 1,
{
    vstd::arithmetic::power2::lemma2_to64();
    vstd::arithmetic::power2::lemma2_to64_rest();
    vstd::arithmetic::power2::lemma_pow2_pos((64 - p) as nat);
    if p > 0 {
        vstd::arithmetic::power2::lemma_pow2_strictly_increases((64 - p) as nat, 64);
    }
}

fn capacity_of(prefix: u8) -> (r: u128)
    requires
        prefix <= 64,
    ensures
        r == capacity(prefix as int),
{
    let mut c: u128 = 1;
    let mut p: u8 = 64;
    proof {
        lemma_capacity(64);
    }
    while p > prefix
        invariant
            prefix <= p <= 64,
            c == capacity(p as int),
        decreases p,
    {
        proof {
            lemma_capacity(p as int);
            vstd::arithmetic::power2::lemma_pow2_unfold((65 - p) as nat);
        }
        c = c * 2;
        p = p - 1;
    }
    c
}

fn taken_of(existing: &[String]) -> (r: Vec<u128>)
    ensures
        r@ == taken(text::texts(existing@)),
{
    let ghost ev = text::texts(existing@);
    let mut out: Vec<u128> = Vec::new();
    let mut i: usize = 0;
    assert(ev.take(0).len() == 0);
    while i < existing.len()
        invariant
            i <= existing.len(),
            ev == text::texts(existing@),
            out@ == taken(ev.take(i as int)),
        decreases existing.len() - i,
    {
        assert(ev.take(i as int + 1).drop_last() =~= ev.take(i as int));
        assert(ev.take(i as int + 1).last() == existing@[i as int]@);
        match V6Subnet::parse(existing[i].as_str()) {
            Ok(s) => {
                out.push(s.network);
            },
            Err(_) => {},
        }
        i += 1;
    }
    assert(ev.take(existing@.len() as int) =~= ev);
    out
}

fn has_network(v: &Vec<u128>, x: u128) -> (r: bool)
    ensures
        r == v@.contains(x),
{
    let mut i: usize = 0;
    while i < v.len()
        invariant
            i <= v.len(),
            forall|j: int| 0 <= j < i ==> v@[j] != x,
        decreases v.len() - i,
    {
        if v[i] == x {
            return true;
        }
        i += 1;
    }
    false
}

/// Takes a /64 range for a network out of the pool. Gives back the range and its gateway.
pub fn assign_v6_subnet(pool: &str, net_id: &str, existing_v6: &[String]) -> (r: Result<
    (String, String),
    String,
>)
    ensures
        match r {
            Ok((c, g)) => assigned(pool@, net_id@, text::texts(existing_v6@)) matches Ok(s) && c@
                == s.shown() && g@ == addr::ipv6_shown((s.network + 1) as nat),
            Err(e) => assigned(pool@, net_id@, text::texts(existing_v6@)) == Err::<
                V6Subnet,
                Seq<char>,
            >(e@),
        },
{
    let p: V6Subnet = match V6Subnet::parse(pool) {
        Ok(p) => p,
        Err(e) => {
            let mut m: String = "invalid fixed-cidr-v6 ".to_owned();
            m.append(quote(pool).as_str());
            m.append(": ");
            m.append(e.as_str());
            return Err(m);
        },
    };
    if p.prefix > V6_SUBNET_PREFIX {
        let mut m: String = "invalid fixed-cidr-v6 ".to_owned();
        m.append(quote(pool).as_str());
        m.append(" (prefix must be /64 or shorter for /64-per-network allocation)");
        return Err(m);
    }
    let used: Vec<u128> = taken_of(existing_v6);
    let cap: u128 = capacity_of(p.prefix);
    proof {
        lemma_capacity(p.prefix as int);
    }
    let start: u128 = fnv1a64(net_id) as u128 % cap;
    let mut step: u128 = 0;
    while step < cap
        invariant
            p.wf(),
            p.prefix <= 64,
            cap == capacity(p.prefix as int),
            1 <= cap <= 0x1_0000_0000_0000_0000,
            start < cap,
            step <= cap,
            start == fnv(encode_utf8(net_id@)) as int % capacity(p.prefix as int) as int,
            used@ == taken(text::texts(existing_v6@)),
            ipam::subnet6_of(pool@) == Ok::<V6Subnet, Seq<char>>(p),
            free_slot(p, start as int, used@, 0) == free_slot(p, start as int, used@, step as int),
        decreases cap - step,
    {
        let idx: u128 = (start + step) % cap;
        proof {
            lemma_slot(p, idx as int);
        }
        let network: u128 = p.network + idx * 0x1_0000_0000_0000_0000;
        if !has_network(&used, network) {
            let s: V6Subnet = V6Subnet { network, prefix: V6_SUBNET_PREFIX };
            return Ok((s.cidr(), ipv6_text(default_gateway_v6(&s))));
        }
        step += 1;
    }
    Err("all IPv6 address pools have been fully subnetted".to_owned())
}

proof fn lemma_free_slot(pool: V6Subnet, start: int, used: Seq<u128>, step: int)
    requires
        pool.wf(),
        pool.prefix <= 64,
        0 <= step,
        0 <= start < capacity(pool.prefix as int),
    ensures
        free_slot(pool, start, used, step) matches Some(s) ==> !used.contains(s.network) && s.wf()
            && s.prefix == 64 && pool.network <= s.network && s.last() <= pool.last(),
        free_slot(pool, start, used, step) is None ==> forall|k: int|
            step <= k < capacity(pool.prefix as int) ==> used.contains(
                (#[trigger] slot(pool, (start + k) % (capacity(pool.prefix as int) as int))).network,
            ),
    decreases capacity(pool.prefix as int) - step,
{
    let cap = capacity(pool.prefix as int) as int;
    if step < cap {
        lemma_slot(pool, (start + step) % cap);
        if used.contains(slot(pool, (start + step) % cap).network) {
            lemma_free_slot(pool, start, used, step + 1);
        }
    }
}

/// A range that is given out is a /64 inside the pool, and none of the ranges that were
/// given out before.
pub proof fn law_assigned_inside_pool_and_new(
    pool: Seq<char>,
    p: V6Subnet,
    id: Seq<char>,
    existing: Seq<Seq<char>>,
)
    requires
        ipam::subnet6_of(pool) == Ok::<V6Subnet, Seq<char>>(p),
        p.wf(),
        assigned(pool, id, existing) is Ok,
    ensures
        ({
            let s = assigned(pool, id, existing)->Ok_0;
            &&& s.wf()
            &&& s.prefix == 64
            &&& p.network <= s.network
            &&& s.last() <= p.last()
            &&& !taken(existing).contains(s.network)
        }),
{
    lemma_capacity(p.prefix as int);
    lemma_free_slot(
        p,
        fnv(encode_utf8(id)) as int % capacity(p.prefix as int) as int,
        taken(existing),
        0,
    );
}

/// Two networks, one given its range after the other, get different ranges.
pub proof fn law_assigned_ranges_differ(
    pool: Seq<char>,
    p: V6Subnet,
    a: Seq<char>,
    b: Seq<char>,
    existing: Seq<Seq<char>>,
)
    requires
        ipam::subnet6_of(pool) == Ok::<V6Subnet, Seq<char>>(p),
        p.wf(),
        assigned(pool, a, existing) is Ok,
        assigned(pool, b, existing.push(assigned(pool, a, existing)->Ok_0.shown())) is Ok,
    ensures
        assigned(pool, a, existing)->Ok_0 != assigned(
            pool,
            b,
            existing.push(assigned(pool, a, existing)->Ok_0.shown()),
        )->Ok_0,
{
    let s = assigned(pool, a, existing)->Ok_0;
    law_assigned_inside_pool_and_new(pool, p, a, existing);
    ipam::law_cidr6_reads_back(s);
    let more = existing.push(s.shown());
    assert(more.drop_last() =~= existing);
    let t = taken(more);
    assert(t == taken(existing).push(s.network));
    assert(t[t.len() - 1] == s.network);
    law_assigned_inside_pool_and_new(pool, p, b, more);
}

/// A pool is full only where every one of its ranges is taken.
pub proof fn law_full_only_when_taken(
    pool: Seq<char>,
    p: V6Subnet,
    id: Seq<char>,
    existing: Seq<Seq<char>>,
    idx: int,
)
    requires
        ipam::subnet6_of(pool) == Ok::<V6Subnet, Seq<char>>(p),
        p.wf(),
        p.prefix <= 64,
        0 <= idx < capacity(p.prefix as int),
        !taken(existing).contains(slot(p, idx).network),
    ensures
        assigned(pool, id, existing) is Ok,
{
    let cap = capacity(p.prefix as int) as int;
    lemma_capacity(p.prefix as int);
    let start = fnv(encode_utf8(id)) as int % cap;
    lemma_free_slot(p, start, taken(existing), 0);
    let k = if idx >= start {
        idx - start
    } else {
        idx - start + cap
    };
    assert((start + k) % cap == idx) by {
        if idx >= start {
            vstd::arithmetic::div_mod::lemma_small_mod(idx as nat, cap as nat);
        } else {
            vstd::arithmetic::div_mod::lemma_mod_add_multiples_vanish(idx, cap);
            vstd::arithmetic::div_mod::lemma_small_mod(idx as nat, cap as nat);
        }
    }
    assert(slot(p, (start + k) % cap) == slot(p, idx));
}

/// The key of a proxy begins with its container's id and a bar, and with no other's.
pub proof fn law_proxy_is_its_containers(r: PortRuleView, id: Seq<char>)
    requires
        !r.container_id.contains('|'),
        !id.contains('|'),
    ensures
        text::starts_with(proxy_key_of(r), id + seq!['|']) <==> id == r.container_id,
{
    let k = proxy_key_of(r);
    let p = id + seq!['|'];
    let n = r.container_id.len() as int;
    let m = id.len() as int;
    assert(k[n] == '|');
    assert(k.take(n) =~= r.container_id);
    if id == r.container_id {
        assert(k.subrange(0, p.len() as int) =~= p);
    }
    if text::starts_with(k, p) {
        let s = k.subrange(0, m + 1);
        assert(p.len() == m + 1);
        assert(k.subrange(0, p.len() as int) == p);
        assert(s == p);
        assert(p[m] == '|');
        assert(s[m] == k[m]);
        assert(k[m] == '|');
        if m < n {
            assert(k[m] == r.container_id[m]);
            assert(r.container_id.contains(r.container_id[m]));
        }
        if n < m {
            assert(s[n] == k[n] && p[n] == id[n]);
            assert(id.contains(id[n]));
        }
        assert(k.take(m) =~= s.take(m));
        assert(p.take(m) =~= id);
    }
}

} // verus!
