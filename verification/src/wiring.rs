//! What the commands that wire networks mean: each option of a command, with the word
//! behind it.

use vstd::prelude::*;

use crate::addr;
use crate::ipam::{self, Subnet, V6Subnet};
use crate::manager::{self, CommandView};
use crate::network::{self, AttachRequest, NetworkRecord, PortRuleView};
use crate::num;
use crate::requests;
use crate::text;

verus! {

/// The word behind the first option of a name.
pub open spec fn behind(args: Seq<Seq<char>>, option: Seq<char>) -> Option<Seq<char>>
    decreases args.len(),
{
    if args.len() < 2 {
        None
    } else if args[0] == option {
        Some(args[1])
    } else {
        behind(args.skip(1), option)
    }
}

pub proof fn lemma_behind(args: Seq<Seq<char>>, option: Seq<char>, k: int)
    requires
        0 <= k < args.len() - 1,
        args[k] == option,
        forall|j: int| 0 <= j < k ==> #[trigger] args[j] != option,
    ensures
        behind(args, option) == Some(args[k + 1]),
    decreases k,
{
    if k > 0 {
        assert(args[0] != option);
        assert forall|j: int| 0 <= j < k - 1 implies #[trigger] args.skip(1)[j] != option by {
            assert(args.skip(1)[j] == args[j + 1]);
        }
        lemma_behind(args.skip(1), option, k - 1);
    }
}

/// A word that is no option.
pub open spec fn is_operand(w: Seq<char>) -> bool {
    w.len() == 0 || w[0] != '-'
}

/// A text writes a port.
pub open spec fn is_port(t: Option<Seq<char>>, port: u16) -> bool {
    t matches Some(s) && num::unsigned(s, 65535) == Some(port as nat)
}

proof fn lemma_port(port: u16)
    ensures
        is_port(Some(num::decimal(port as nat)), port),
        !num::decimal(port as nat).contains(':'),
        is_operand(num::decimal(port as nat)),
{
    num::lemma_decimal_reads_back(port as nat);
    let d = num::decimal(port as nat);
    if d.contains(':') {
        let j = choose|j: int| 0 <= j < d.len() && d[j] == ':';
        assert('0' <= d[j] <= '9');
    }
}

/// A command leads the traffic that comes to a port of the host to a port of the container.
pub open spec fn leads_to_container(c: CommandView, r: PortRuleView, op: Seq<char>) -> bool {
    &&& c.program == "iptables"@
    &&& behind(c.args, "-t"@) == Some("nat"@)
    &&& behind(c.args, op) == Some("INGOT-DNAT"@)
    &&& behind(c.args, "-p"@) == Some(r.proto)
    &&& behind(c.args, "-d"@) == Some(
        if network::is_wild(r.host_ip) {
            "0.0.0.0/0"@
        } else {
            r.host_ip
        },
    )
    &&& is_port(behind(c.args, "--dport"@), r.host_port)
    &&& behind(c.args, "-j"@) == Some("DNAT"@)
    &&& behind(c.args, "--to-destination"@) matches Some(t) && text::rsplit_once(t, seq![':'])
        matches Some((ip, port)) && ip == r.container_ip && is_port(Some(port), r.container_port)
}

/// A command lets the traffic to a port of the container pass.
pub open spec fn lets_pass(c: CommandView, r: PortRuleView, op: Seq<char>) -> bool {
    &&& c.program == "iptables"@
    &&& behind(c.args, op) == Some("FORWARD"@)
    &&& behind(c.args, "-p"@) == Some(r.proto)
    &&& behind(c.args, "-d"@) == Some(r.container_ip)
    &&& is_port(behind(c.args, "--dport"@), r.container_port)
    &&& behind(c.args, "-j"@) == Some("ACCEPT"@)
}

/// A published port leads from the port of the host to the container's address and port, and
/// the same port of the container is let through.
#[verifier::rlimit(40)]
pub proof fn law_published_port_leads_to_the_container(r: PortRuleView, op: Seq<char>)
    requires
        op == "-A"@ || op == "-D"@,
        is_operand(r.proto),
        is_operand(r.host_ip),
        is_operand(r.container_ip),
    ensures
        manager::publishing(r, op).len() == 2,
        leads_to_container(manager::publishing(r, op)[0], r, op),
        lets_pass(manager::publishing(r, op)[1], r, op),
{
    reveal_strlit("-t");
    reveal_strlit("nat");
    reveal_strlit("-A");
    reveal_strlit("-D");
    reveal_strlit("INGOT-DNAT");
    reveal_strlit("-p");
    reveal_strlit("-d");
    reveal_strlit("0.0.0.0/0");
    reveal_strlit("--dport");
    reveal_strlit("-j");
    reveal_strlit("DNAT");
    reveal_strlit("--to-destination");
    reveal_strlit("FORWARD");
    reveal_strlit("ACCEPT");
    let a = manager::publishing(r, op)[0].args;
    let b = manager::publishing(r, op)[1].args;
    let hp = num::decimal(r.host_port as nat);
    let cp = num::decimal(r.container_port as nat);
    let dst = manager::dnat_destination(r.host_ip);
    lemma_port(r.host_port);
    lemma_port(r.container_port);
    // Options are told from each other, and from words that are none, by their letters.
    assert("-t"@[1] == 't' && "-p"@[1] == 'p' && "-d"@[1] == 'd' && "-j"@[1] == 'j');
    assert("-A"@[1] == 'A' && "-D"@[1] == 'D');
    assert("-t"@[0] == '-' && "-p"@[0] == '-' && "-d"@[0] == '-' && "-j"@[0] == '-');
    assert("--dport"@[0] == '-' && "--to-destination"@[0] == '-');
    assert("nat"@[0] == 'n' && "INGOT-DNAT"@[0] == 'I' && "0.0.0.0/0"@[0] == '0');
    assert("DNAT"@[0] == 'D' && "FORWARD"@[0] == 'F' && "ACCEPT"@[0] == 'A');
    assert(op.len() == 2 && op[0] == '-');
    assert(r.proto.len() > 0 ==> r.proto[0] != '-');
    assert(dst.len() > 0 ==> dst[0] != '-');
    lemma_behind(a, "-t"@, 0);
    lemma_behind(a, op, 2);
    lemma_behind(a, "-p"@, 4);
    lemma_behind(a, "-d"@, 6);
    lemma_behind(a, "--dport"@, 8);
    lemma_behind(a, "-j"@, 10);
    assert("--to-destination"@[2] == 't' && "--dport"@[2] == 'd');
    assert forall|j: int| 0 <= j < 12 implies #[trigger] a[j] != "--to-destination"@ by {
        if a[j] == "--to-destination"@ {
            assert(a[j][0] == '-' && a[j][2] == 't' && a[j].len() == 16);
        }
    }
    lemma_behind(a, "--to-destination"@, 12);
    lemma_behind(b, op, 0);
    lemma_behind(b, "-p"@, 2);
    lemma_behind(b, "-d"@, 4);
    lemma_behind(b, "--dport"@, 6);
    lemma_behind(b, "-j"@, 8);
    let to = r.container_ip + seq![':'] + cp;
    let k = r.container_ip.len() as int;
    assert forall|j: int| k < j < to.len() implies to[j] != ':' by {
        assert(to[j] == cp[j - k - 1]);
        assert(cp.contains(cp[j - k - 1]));
    }
    text::lemma_rfound_char(to, ':', k);
    assert(to.take(k) =~= r.container_ip);
    assert(to.skip(k + 1) =~= cp);
}

/// What takes the rules of a published port away is what added them, word for word, but for
/// the operation.
pub proof fn law_unpublishing_undoes_publishing(r: PortRuleView, i: int, j: int)
    requires
        0 <= i < 2,
        0 <= j < manager::publishing(r, "-A"@)[i].args.len(),
    ensures
        ({
            let on = manager::publishing(r, "-A"@)[i].args;
            let off = manager::publishing(r, "-D"@)[i].args;
            &&& on.len() == off.len()
            &&& on[j] == off[j] || (on[j] == "-A"@ && off[j] == "-D"@)
        }),
{
}

// ---------------------------------------------------------------- bridges

/// An address and the length of its network's prefix.
pub open spec fn is_placed(t: Option<Seq<char>>, ip: Seq<char>, prefix: nat) -> bool {
    t matches Some(s) && text::rsplit_once(s, seq!['/']) matches Some((a, p)) && a == ip
        && num::unsigned(p, prefix) == Some(prefix)
}

proof fn lemma_placed(ip: Seq<char>, prefix: nat)
    ensures
        is_placed(Some(manager::with_prefix(ip, prefix)), ip, prefix),
        manager::with_prefix(ip, prefix).contains('/'),
{
    let s = manager::with_prefix(ip, prefix);
    let d = num::decimal(prefix);
    let k = ip.len() as int;
    num::lemma_decimal_reads_back(prefix);
    assert(s[k] == '/');
    assert forall|j: int| k < j < s.len() implies s[j] != '/' by {
        assert(s[j] == d[j - k - 1]);
        assert('0' <= d[j - k - 1] <= '9');
    }
    text::lemma_rfound_char(s, '/', k);
    assert(s.take(k) =~= ip);
    assert(s.skip(k + 1) =~= d);
}

proof fn lemma_words()
    ensures
        !"addr"@.contains('/') && !"add"@.contains('/') && !"dev"@.contains('/'),
        "addr"@ != "add"@ && "addr"@ != "dev"@ && "add"@ != "dev"@,
        "link"@ != "add"@ && "link"@ != "set"@ && "link"@ != "type"@ && "add"@ != "type"@,
        "link"@ != "up"@ && "set"@ != "up"@,
{
    reveal_strlit("addr");
    reveal_strlit("add");
    reveal_strlit("dev");
    reveal_strlit("link");
    reveal_strlit("set");
    reveal_strlit("type");
    reveal_strlit("up");
    assert("addr"@.len() == 4 && "add"@.len() == 3 && "dev"@.len() == 3 && "link"@.len() == 4
        && "set"@.len() == 3 && "type"@.len() == 4 && "up"@.len() == 2);
    assert("add"@[0] == 'a' && "dev"@[0] == 'd' && "link"@[0] == 'l' && "type"@[0] == 't');
    lemma_no_slash("addr"@);
    lemma_no_slash("add"@);
    lemma_no_slash("dev"@);
}

proof fn lemma_no_slash(w: Seq<char>)
    requires
        w.len() <= 4,
        w.len() > 0 ==> w[0] != '/',
        w.len() > 1 ==> w[1] != '/',
        w.len() > 2 ==> w[2] != '/',
        w.len() > 3 ==> w[3] != '/',
    ensures
        !w.contains('/'),
{
    if w.contains('/') {
        let j = choose|j: int| 0 <= j < w.len() && w[j] == '/';
        assert(j == 0 || j == 1 || j == 2 || j == 3);
    }
}

/// A bridge that does not exist is made, given its gateway's address with the prefix of its
/// network, and brought up, in this order; one that exists is only brought up.
pub proof fn law_bridge_is_brought_up(rec: NetworkRecord, s: Subnet)
    requires
        s.wf(),
        rec.subnet@ == s.shown(),
        rec.bridge@ != "type"@,
    ensures
        ({
            let v = manager::bridge_commands(rec, false);
            let w = manager::bridge_commands(rec, true);
            &&& v.len() == 3 && w.len() == 1
            &&& v[0].program == "ip"@ && v[1].program == "ip"@ && v[2].program == "ip"@
            &&& behind(v[0].args, "add"@) == Some(rec.bridge@)
            &&& behind(v[0].args, "type"@) == Some("bridge"@)
            &&& is_placed(behind(v[1].args, "add"@), rec.gateway@, s.prefix as nat)
            &&& behind(v[1].args, "dev"@) == Some(rec.bridge@)
            &&& behind(v[2].args, "set"@) == Some(rec.bridge@)
            &&& v[2].args.last() == "up"@
            &&& w[0] == v[2]
        }),
{
    lemma_words();
    ipam::law_cidr_reads_back(s);
    lemma_placed(rec.gateway@, s.prefix as nat);
    let v = manager::bridge_commands(rec, false);
    lemma_behind(v[0].args, "add"@, 1);
    lemma_behind(v[0].args, "type"@, 3);
    lemma_behind(v[1].args, "add"@, 1);
    lemma_behind(v[1].args, "dev"@, 3);
    lemma_behind(v[2].args, "set"@, 1);
}

/// A bridge's IPv6 address is its gateway's, with the prefix of its network, and it is taken
/// away as it was given.
pub proof fn law_bridge_has_its_address(rec: NetworkRecord, s: V6Subnet, op: Seq<char>)
    requires
        s.wf(),
        rec.subnet_v6@ == s.shown(),
        op == "add"@ || op == "del"@,
    ensures
        ({
            let c = manager::v6_address_command(rec, op);
            &&& c.program == "ip"@ && c.args[0] == "-6"@
            &&& is_placed(behind(c.args, op), rec.gateway_v6@, s.prefix as nat)
            &&& behind(c.args, "dev"@) == Some(rec.bridge@)
        }),
{
    lemma_words();
    reveal_strlit("-6");
    reveal_strlit("del");
    reveal_strlit("dev");
    reveal_strlit("addr");
    reveal_strlit("add");
    ipam::law_cidr6_reads_back(s);
    lemma_placed(rec.gateway_v6@, s.prefix as nat);
    let c = manager::v6_address_command(rec, op);
    assert("del"@[2] == 'l' && "dev"@[2] == 'v' && "-6"@.len() == 2 && "del"@.len() == 3
        && "addr"@.len() == 4 && "add"@.len() == 3 && "dev"@.len() == 3);
    lemma_behind(c.args, op, 2);
    lemma_behind(c.args, "dev"@, 4);
}

/// A command does what it does in the network of a process.
pub open spec fn enters(c: CommandView, pid: int) -> bool {
    c.program == "nsenter"@ && c.args.len() > 0 && {
        let w = c.args[0];
        let a = "--net=/proc/"@;
        let b = "/ns/net"@;
        &&& w.len() >= a.len() + b.len()
        &&& w.take(a.len() as int) == a
        &&& w.skip(w.len() - b.len()) == b
        &&& num::signed(w.subrange(a.len() as int, w.len() - b.len())) == Some(pid)
    }
}

proof fn lemma_enters(pid: i64, args: Seq<Seq<char>>)
    ensures
        enters(manager::inside(pid as int, args), pid as int),
        manager::inside(pid as int, args).args.skip(1) == args,
        manager::inside(pid as int, args).args.len() == args.len() + 1,
        manager::inside(pid as int, args).args[0].len() > 12,
        manager::inside(pid as int, args).args[0][0] == '-',
        forall|i: int|
            0 < i < manager::inside(pid as int, args).args.len() ==> #[trigger] manager::inside(
                pid as int,
                args,
            ).args[i] == args[i - 1],
{
    reveal_strlit("--net=/proc/");
    reveal_strlit("/ns/net");
    requests::lemma_signed_reads_back(pid);
    let a = "--net=/proc/"@;
    let b = "/ns/net"@;
    let d = num::signed_decimal(pid as int);
    let w = a + d + b;
    assert(w.take(a.len() as int) =~= a);
    assert(w.skip(w.len() - b.len()) =~= b);
    assert(w.subrange(a.len() as int, w.len() - b.len()) =~= d);
    let c = manager::inside(pid as int, args);
    assert(c.args.skip(1) =~= args);
    assert(w[0] == '-');
}

proof fn lemma_behind_inside(pid: i64, args: Seq<Seq<char>>, option: Seq<char>, k: int)
    requires
        0 <= k < args.len() - 1,
        args[k] == option,
        option.len() <= 12,
        forall|j: int| 0 <= j < k ==> #[trigger] args[j] != option,
    ensures
        behind(manager::inside(pid as int, args).args, option) == Some(args[k + 1]),
{
    lemma_enters(pid, args);
    let all = manager::inside(pid as int, args).args;
    assert forall|j: int| 0 <= j < k + 1 implies #[trigger] all[j] != option by {
        if j > 0 {
            assert(all[j] == args[j - 1]);
        }
    }
    lemma_behind(all, option, k + 1);
}

/// The commands that connect a container make a pair of interfaces, tie the one to the
/// bridge, move the other into the container's network under its name, give it the address
/// that was leased with the prefix of the network, bring all of them up, and, on the first
/// interface, lead what goes elsewhere to the gateway.
#[verifier::rlimit(60)]
pub proof fn law_container_is_wired_to_its_bridge(
    net: NetworkRecord,
    req: AttachRequest,
    ip: u32,
    s: Subnet,
)
    requires
        s.wf(),
        net.subnet@ == s.shown(),
    ensures
        ({
            let v = manager::wiring(net, req, ip, None);
            let pid = req.pid as int;
            let host = behind(v[0].args, "add"@)->0;
            let peer = behind(v[0].args, "name"@)->0;
            let name = "eth"@ + num::decimal(req.if_index as nat);
            &&& v.len() == if req.if_index == 0 {
                9int
            } else {
                8
            }
            &&& behind(v[0].args, "type"@) == Some("veth"@) && host != peer
            &&& behind(v[1].args, "set"@) == Some(host) && behind(v[1].args, "master"@) == Some(
                net.bridge@,
            )
            &&& behind(v[2].args, "set"@) == Some(host) && v[2].args.last() == "up"@
            &&& behind(v[3].args, "set"@) == Some(peer) && (behind(v[3].args, "netns"@) matches Some(
                t,
            ) && num::signed(t) == Some(pid))
            &&& enters(v[4], pid) && behind(v[4].args, "set"@) == Some(peer) && behind(
                v[4].args,
                "name"@,
            ) == Some(name)
            &&& enters(v[5], pid) && behind(v[5].args, "dev"@) == Some(name) && (exists|t: Seq<
                char,
            >| #[trigger] is_placed(behind(v[5].args, "add"@), t, s.prefix as nat) && addr::ipv4(t)
                == Some(ip))
            &&& enters(v[6], pid) && behind(v[6].args, "set"@) == Some(name) && v[6].args.last()
                == "up"@
            &&& enters(v[7], pid) && behind(v[7].args, "set"@) == Some("lo"@) && v[7].args.last()
                == "up"@
            &&& req.if_index == 0 ==> enters(v[8], pid) && behind(v[8].args, "add"@) == Some(
                "default"@,
            ) && behind(v[8].args, "via"@) == Some(net.gateway@)
        }),
{
    ipam::law_cidr_reads_back(s);
    addr::law_ipv4_reads_back(ip);
    let shown = addr::ipv4_shown(ip);
    lemma_placed(shown, s.prefix as nat);
    let v = manager::wiring(net, req, ip, None);
    let pid = req.pid as int;
    let host = manager::ifname_of(req.container_id@, net.id@);
    let peer = host + "-p"@;
    let name = manager::interface_name_of(req.if_index as nat);
    lemma_wiring_words(req.container_id@, net.id@, req.if_index as nat);
    requests::lemma_signed_reads_back(req.pid);
    lemma_behind(v[0].args, "add"@, 1);
    lemma_behind(v[0].args, "type"@, 3);
    lemma_behind(v[0].args, "name"@, 6);
    lemma_behind(v[1].args, "set"@, 1);
    lemma_behind(v[1].args, "master"@, 3);
    lemma_behind(v[2].args, "set"@, 1);
    lemma_behind(v[3].args, "set"@, 1);
    lemma_behind(v[3].args, "netns"@, 3);
    let rename = seq!["ip"@, "link"@, "set"@, peer, "name"@, name];
    lemma_enters(req.pid, rename);
    lemma_behind_inside(req.pid, rename, "set"@, 2);
    lemma_behind_inside(req.pid, rename, "name"@, 4);
    let place = seq![
        "ip"@,
        "addr"@,
        "add"@,
        manager::with_prefix(shown, s.prefix as nat),
        "dev"@,
        name,
    ];
    lemma_enters(req.pid, place);
    lemma_behind_inside(req.pid, place, "add"@, 2);
    lemma_behind_inside(req.pid, place, "dev"@, 4);
    assert(is_placed(behind(v[5].args, "add"@), shown, s.prefix as nat));
    let up = seq!["ip"@, "link"@, "set"@, name, "up"@];
    lemma_enters(req.pid, up);
    lemma_behind_inside(req.pid, up, "set"@, 2);
    let lo = seq!["ip"@, "link"@, "set"@, "lo"@, "up"@];
    lemma_enters(req.pid, lo);
    lemma_behind_inside(req.pid, lo, "set"@, 2);
    let route = seq!["ip"@, "route"@, "add"@, "default"@, "via"@, net.gateway@];
    lemma_enters(req.pid, route);
    lemma_behind_inside(req.pid, route, "add"@, 2);
    lemma_behind_inside(req.pid, route, "via"@, 4);
}

#[verifier::rlimit(40)]
proof fn lemma_wiring_words(container_id: Seq<char>, net_id: Seq<char>, if_index: nat)
    ensures
        ({
            let host = manager::ifname_of(container_id, net_id);
            let peer = host + "-p"@;
            &&& host != peer
            &&& host != "type"@ && host != "name"@ && host != "master"@
            &&& peer != "netns"@ && peer != "name"@
        }),
        "link"@ != "add"@ && "link"@ != "type"@ && "link"@ != "name"@ && "link"@ != "set"@ && "link"@
            != "master"@ && "link"@ != "netns"@,
        "add"@ != "type"@ && "add"@ != "name"@ && "set"@ != "master"@ && "set"@ != "netns"@ && "set"@
            != "name"@,
        "type"@ != "name"@ && "veth"@ != "name"@ && "peer"@ != "name"@,
        "ip"@ != "set"@ && "ip"@ != "name"@ && "ip"@ != "add"@ && "ip"@ != "dev"@ && "ip"@ != "via"@,
        "addr"@ != "add"@ && "addr"@ != "dev"@ && "add"@ != "dev"@,
        "route"@ != "add"@ && "route"@ != "via"@ && "add"@ != "via"@ && "default"@ != "via"@,
        !"dev"@.contains('/') && !"add"@.contains('/'),
        "set"@.len() == 3 && "name"@.len() == 4 && "add"@.len() == 3 && "dev"@.len() == 3
            && "via"@.len() == 3,
{
    reveal_strlit("veth-");
    reveal_strlit("-p");
    reveal_strlit("link");
    reveal_strlit("add");
    reveal_strlit("type");
    reveal_strlit("name");
    reveal_strlit("set");
    reveal_strlit("master");
    reveal_strlit("netns");
    reveal_strlit("veth");
    reveal_strlit("peer");
    reveal_strlit("ip");
    reveal_strlit("dev");
    reveal_strlit("via");
    reveal_strlit("addr");
    reveal_strlit("route");
    reveal_strlit("default");
    let host = manager::ifname_of(container_id, net_id);
    let peer = host + "-p"@;
    assert(host.len() >= 5 && host[0] == 'v' && peer.len() == host.len() + 2 && peer[0] == 'v');
    assert("link"@[0] == 'l' && "add"@[0] == 'a' && "type"@[0] == 't' && "name"@[0] == 'n' && "set"@[0]
        == 's' && "master"@[0] == 'm' && "netns"@[0] == 'n' && "veth"@[0] == 'v' && "peer"@[0]
        == 'p' && "ip"@[0] == 'i' && "dev"@[0] == 'd' && "via"@[0] == 'v' && "addr"@.len() == 4
        && "add"@.len() == 3 && "route"@[0] == 'r' && "default"@[0] == 'd' && "addr"@[0] == 'a');
    lemma_no_slash("dev"@);
    lemma_no_slash("add"@);
}

// ---------------------------------------------------------------- rules

/// What leaves a network that leads outside goes out under the host's address, unless it
/// stays on the bridge, and what comes and goes over the bridge is let through.
#[verifier::rlimit(40)]
pub proof fn law_outside_is_reached(b: Seq<char>, subnet: Seq<char>)
    requires
        is_operand(b),
        is_operand(subnet),
        subnet != "!"@,
    ensures
        ({
            let v = network::bridge_rules(false, b, subnet);
            &&& v.len() == 3
            &&& v[0].table == Some("nat"@) && v[0].args[0] == "POSTROUTING"@
            &&& behind(v[0].args, "-s"@) == Some(subnet)
            &&& behind(v[0].args, "!"@) == Some("-o"@) && behind(v[0].args, "-o"@) == Some(b)
            &&& behind(v[0].args, "-j"@) == Some("MASQUERADE"@)
            &&& v[1].args[0] == "FORWARD"@ && behind(v[1].args, "-i"@) == Some(b) && behind(
                v[1].args,
                "-j"@,
            ) == Some("ACCEPT"@)
            &&& v[2].args[0] == "FORWARD"@ && behind(v[2].args, "-o"@) == Some(b) && behind(
                v[2].args,
                "-j"@,
            ) == Some("ACCEPT"@)
        }),
{
    reveal_strlit("POSTROUTING");
    reveal_strlit("FORWARD");
    reveal_strlit("-s");
    reveal_strlit("!");
    reveal_strlit("-o");
    reveal_strlit("-i");
    reveal_strlit("-j");
    assert("POSTROUTING"@.len() == 11 && "FORWARD"@.len() == 7 && "!"@.len() == 1 && "-s"@[1] == 's'
        && "-o"@[1] == 'o' && "-i"@[1] == 'i' && "-j"@[1] == 'j' && "-s"@[0] == '-' && "-o"@[0]
        == '-' && "-i"@[0] == '-' && "-j"@[0] == '-' && "-s"@.len() == 2 && "-o"@.len() == 2
        && "-j"@.len() == 2 && "-i"@.len() == 2);
    let v = network::bridge_rules(false, b, subnet);
    lemma_behind(v[0].args, "-s"@, 1);
    lemma_behind(v[0].args, "!"@, 3);
    lemma_behind(v[0].args, "-o"@, 4);
    lemma_behind(v[0].args, "-j"@, 6);
    lemma_behind(v[1].args, "-i"@, 1);
    lemma_behind(v[1].args, "-j"@, 3);
    lemma_behind(v[2].args, "-o"@, 1);
    lemma_behind(v[2].args, "-j"@, 3);
}

/// On a network that leads nowhere, what comes from the bridge and goes elsewhere is dropped,
/// and so is what comes from elsewhere and goes to it; what stays on it is let through.
#[verifier::rlimit(40)]
pub proof fn law_inside_is_cut_off(b: Seq<char>, subnet: Seq<char>)
    requires
        is_operand(b),
        b != "!"@,
    ensures
        ({
            let v = network::bridge_rules(true, b, subnet);
            &&& v.len() == 3
            &&& v[0].insert && v[0].args[0] == "FORWARD"@ && behind(v[0].args, "-i"@) == Some(b)
            &&& behind(v[0].args, "!"@) == Some("-o"@) && behind(v[0].args, "-o"@) == Some(b)
            &&& behind(v[0].args, "-j"@) == Some("DROP"@)
            &&& v[1].insert && v[1].args[0] == "FORWARD"@ && behind(v[1].args, "-o"@) == Some(b)
            &&& behind(v[1].args, "!"@) == Some("-i"@) && behind(v[1].args, "-i"@) == Some(b)
            &&& behind(v[1].args, "-j"@) == Some("DROP"@)
            &&& v[2].args[0] == "FORWARD"@ && behind(v[2].args, "-i"@) == Some(b) && behind(
                v[2].args,
                "-o"@,
            ) == Some(b) && behind(v[2].args, "-j"@) == Some("ACCEPT"@)
            &&& behind(v[2].args, "!"@) is None
        }),
{
    reveal_strlit("FORWARD");
    reveal_strlit("!");
    reveal_strlit("-o");
    reveal_strlit("-i");
    reveal_strlit("-j");
    reveal_strlit("ACCEPT");
    assert("FORWARD"@.len() == 7 && "!"@.len() == 1 && "-o"@[1] == 'o' && "-i"@[1] == 'i' && "-j"@[1]
        == 'j' && "-o"@[0] == '-' && "-i"@[0] == '-' && "-j"@[0] == '-' && "-o"@.len() == 2
        && "-j"@.len() == 2 && "-i"@.len() == 2 && "ACCEPT"@.len() == 6);
    let v = network::bridge_rules(true, b, subnet);
    lemma_behind(v[0].args, "-i"@, 1);
    lemma_behind(v[0].args, "!"@, 3);
    lemma_behind(v[0].args, "-o"@, 4);
    lemma_behind(v[0].args, "-j"@, 6);
    lemma_behind(v[1].args, "-o"@, 1);
    lemma_behind(v[1].args, "!"@, 3);
    lemma_behind(v[1].args, "-i"@, 4);
    lemma_behind(v[1].args, "-j"@, 6);
    lemma_behind(v[2].args, "-i"@, 1);
    lemma_behind(v[2].args, "-o"@, 3);
    lemma_behind(v[2].args, "-j"@, 5);
    lemma_never_behind(v[2].args, "!"@);
}

proof fn lemma_never_behind(args: Seq<Seq<char>>, option: Seq<char>)
    requires
        forall|j: int| 0 <= j < args.len() ==> #[trigger] args[j] != option,
    ensures
        behind(args, option) is None,
    decreases args.len(),
{
    if args.len() >= 2 {
        assert(args[0] != option);
        assert forall|j: int| 0 <= j < args.skip(1).len() implies #[trigger] args.skip(1)[j]
            != option by {
            assert(args.skip(1)[j] == args[j + 1]);
        }
        lemma_never_behind(args.skip(1), option);
    }
}

/// A network that is removed loses its bridge and each of its rules: what deletes a rule is
/// what added it, word for word, but for the operation.
pub proof fn law_removed_network_leaves_no_rule(rec: NetworkRecord, i: int, j: int)
    requires
        0 <= i < 3,
    ensures
        ({
            let v = manager::teardown(rec);
            let rule = network::bridge_rules(rec.internal, rec.bridge@, rec.subnet@)[i];
            let on = rule.command(rule.add_op());
            &&& v.len() == if rec.dual() {
                7int
            } else {
                4
            }
            &&& v[0].args.last() == rec.bridge@ && v[0].args[1] == "del"@
            &&& v[1 + i].program == "iptables"@ && v[1 + i].args.len() == on.len()
            &&& 0 <= j < on.len() ==> v[1 + i].args[j] == on[j] || (v[1 + i].args[j] == "-D"@ && (
            on[j] == "-A"@ || on[j] == "-I"@))
            &&& rec.dual() ==> ({
                let rule6 = network::bridge_rules(rec.internal, rec.bridge@, rec.subnet_v6@)[i];
                let on6 = rule6.command(rule6.add_op());
                &&& v[4 + i].program == "ip6tables"@ && v[4 + i].args.len() == on6.len()
                &&& 0 <= j < on6.len() ==> v[4 + i].args[j] == on6[j] || (v[4 + i].args[j] == "-D"@
                    && (on6[j] == "-A"@ || on6[j] == "-I"@))
            })
        }),
{
}

} // verus!
