use ingot::addr::{ipv6_text, parse_ipv6};
use ingot::ipam::{default_gateway_v6, Ipam, IpamLeases, Subnet, V6Subnet};
use ingot::manager::{
    bridge_setup, drop_bridge_rules, is_proxy_of, jump_to_chain, legacy_ifname, publish_commands,
    reset_chain, v6_address_add, v6_rollback, NetworkManager, NewNetwork, PortSearch, Publish,
};
use ingot::network::{
    assign_v6_subnet, proxy_key, publish_overlaps, v4_network_rules, v6_network_rules,
    AttachRequest, Ip6Rule, NetworkRecord, PortConflict, PortRule,
};
use ingot::table::Table;

fn manager() -> NetworkManager {
    NetworkManager::new(Ipam::new(IpamLeases {
        allocated: Table::new(),
        allocated_v6: Table::new(),
    }))
}

fn rule_on(id: &str, ip: &str, port: u16, proto: &str) -> PortRule {
    PortRule {
        container_id: id.into(),
        host_ip: ip.into(),
        host_port: port,
        container_ip: "10.0.0.2".into(),
        container_port: 80,
        proto: proto.into(),
    }
}

#[test]
fn publish_overlap_matrix() {
    let rule = |ip: &str, port: u16, proto: &str| rule_on("a", ip, port, proto);
    // Wildcard collides with everything on the same proto+port.
    assert!(publish_overlaps("tcp", "", 80, &rule("", 80, "tcp")));
    assert!(publish_overlaps("tcp", "", 80, &rule("127.0.0.1", 80, "tcp")));
    assert!(publish_overlaps("tcp", "127.0.0.1", 80, &rule("", 80, "tcp")));
    assert!(publish_overlaps("tcp", "0.0.0.0", 8080, &rule("10.0.0.9", 8080, "tcp")));
    // Same specific IP collides; different ones don't.
    assert!(publish_overlaps("tcp", "127.0.0.1", 80, &rule("127.0.0.1", 80, "tcp")));
    assert!(!publish_overlaps("tcp", "127.0.0.1", 80, &rule("10.0.0.9", 80, "tcp")));
    // Different ports or protos never collide.
    assert!(!publish_overlaps("tcp", "", 80, &rule("", 81, "tcp")));
    assert!(!publish_overlaps("tcp", "", 80, &rule("", 80, "udp")));
    // Conflict message names the occupier (or says "in use").
    let named = PortConflict {
        proto: "tcp".into(),
        host_ip: "".into(),
        host_port: 8080,
        occupier: Some("abcdef1234567890".into()),
    };
    assert_eq!(
        named.message(),
        "port 0.0.0.0:8080/tcp is already allocated by container abcdef123456"
    );
    let anon = PortConflict {
        proto: "udp".into(),
        host_ip: "127.0.0.1".into(),
        host_port: 53,
        occupier: None,
    };
    assert_eq!(anon.message(), "port 127.0.0.1:53/udp is already in use");
}

#[test]
fn endpoint_ifname_is_scoped_and_short() {
    let a = NetworkManager::endpoint_ifname("abcdef123456", "net111111");
    let b = NetworkManager::endpoint_ifname("abcdef123456", "net222222");
    assert_ne!(a, b);
    assert!(a.len() <= 13 && format!("{a}-p").len() <= 15);
    // Deterministic across calls (detach must recompute attach's name).
    assert_eq!(a, NetworkManager::endpoint_ifname("abcdef123456", "net111111"));
}

#[test]
fn detach_deregisters_only_its_own_dns_names() {
    let mut mgr = manager();
    // Same name on two networks: each registry is independent.
    mgr.register_dns("net-a", &["web".to_string()], "10.0.0.5");
    mgr.register_dns("net-b", &["web".to_string()], "10.0.1.5");
    mgr.register_dns("net-a", &["other".to_string()], "10.0.0.5");
    // Detaching net-a clears only net-a's entries.
    mgr.detach("net-a", "10.0.0.5", &["web".to_string()]);
    let a = mgr.dns.get("net-a").unwrap();
    let b = mgr.dns.get("net-b").unwrap();
    assert!(a.get("web").is_none());
    assert_eq!(a.get("other").map(|s| s.as_str()), Some("10.0.0.5"));
    assert_eq!(b.get("web").map(|s| s.as_str()), Some("10.0.1.5"));
    // Detaching net-b removes the name there too.
    mgr.detach("net-b", "10.0.1.5", &["web".to_string()]);
    assert!(mgr.dns.get("net-b").unwrap().get("web").is_none());
}

#[test]
fn dns_registry_is_case_insensitive_and_drops_search_on_detach() {
    let mut mgr = manager();
    mgr.register_dns("net-a", &["WebApp".to_string()], "10.0.0.5");
    let mut searches = Table::new();
    searches.insert("10.0.0.5".to_string(), vec!["svc".to_string()]);
    mgr.dns_search.insert("net-a".to_string(), searches);
    assert_eq!(
        mgr.dns.get("net-a").unwrap().get("webapp").map(|s| s.as_str()),
        Some("10.0.0.5")
    );
    // Detach with original casing still deregisters, and the
    // endpoint's search entry dies with its lease.
    mgr.detach("net-a", "10.0.0.5", &["WebApp".to_string()]);
    assert!(mgr.dns.get("net-a").unwrap().get("webapp").is_none());
    assert!(mgr.dns_search.get("net-a").unwrap().get("10.0.0.5").is_none());
}

fn rec(name: &str, subnet: &str) -> NetworkRecord {
    NetworkRecord {
        id: format!("id-{name}"),
        name: name.into(),
        subnet: subnet.into(),
        gateway: "x".into(),
        ..Default::default()
    }
}

#[test]
fn gateway_derivation_is_first_usable() {
    // The `.1` rule, locked: default gateway is always the first
    // usable host address of the subnet.
    for (cidr, gw) in [
        ("172.17.0.0/16", "172.17.0.1"),
        ("10.1.2.0/24", "10.1.2.1"),
        ("192.168.9.0/30", "192.168.9.1"),
        ("10.0.0.0/8", "10.0.0.1"),
    ] {
        let s = Subnet::parse(cidr).unwrap();
        assert_eq!(NetworkManager::derive_gateway(&s), gw, "{cidr}");
    }
}

#[test]
fn create_validation() {
    let existing = vec![rec("prod", "172.18.0.0/16")];
    // Derives gateway, normalizes host bits.
    let (s, g) =
        NetworkManager::validate_create_params("172.20.5.99/24", None, &existing).unwrap();
    assert_eq!((s.as_str(), g.as_str()), ("172.20.5.0/24", "172.20.5.1"));
    // Explicit in-subnet gateway kept (even non-.1).
    let (_, g) = NetworkManager::validate_create_params(
        "172.20.0.0/16",
        Some("172.20.0.254"),
        &existing,
    )
    .unwrap();
    assert_eq!(g, "172.20.0.254");
    // Overlaps (exact, nested, gateway-outside, bad input) rejected.
    assert!(NetworkManager::validate_create_params("172.18.0.0/16", None, &existing).is_err());
    assert!(NetworkManager::validate_create_params("172.18.9.0/24", None, &existing).is_err());
    assert!(NetworkManager::validate_create_params(
        "172.20.0.0/16",
        Some("172.21.0.1"),
        &existing
    )
    .is_err());
    assert!(NetworkManager::validate_create_params(
        "172.20.0.0/16",
        Some("172.20.0.0"),
        &existing
    )
    .is_err());
    assert!(NetworkManager::validate_create_params("garbage", None, &existing).is_err());
    assert!(
        NetworkManager::validate_create_params("172.20.0.0/16", Some("nope"), &existing).is_err()
    );
    // Non-overlapping passes.
    assert!(NetworkManager::validate_create_params("172.21.0.0/16", None, &existing).is_ok());
}

fn v6rec(bridge: &str, subnet_v6: &str, gateway_v6: &str, internal: bool) -> NetworkRecord {
    NetworkRecord {
        id: "id".into(),
        name: "n".into(),
        bridge: bridge.into(),
        subnet_v6: subnet_v6.into(),
        gateway_v6: gateway_v6.into(),
        internal,
        ..Default::default()
    }
}

#[test]
fn assign_v6_subnet_is_stable_and_collision_free() {
    let pool = "fd00:dead:beef::/48";
    let (s1, g1) = assign_v6_subnet(pool, "net-a", &[]).unwrap();
    // Deterministic across calls (restart re-derives the same /64).
    assert_eq!(assign_v6_subnet(pool, "net-a", &[]).unwrap(), (s1.clone(), g1.clone()));
    assert!(s1.starts_with("fd00:dead:beef:") && s1.ends_with("::/64"), "{s1}");
    // Gateway is the subnet's ::1.
    let sub = V6Subnet::parse(&s1).unwrap();
    assert_eq!(g1, ipv6_text(default_gateway_v6(&sub)));
    assert!(g1.ends_with("::1"));
    // A colliding slot probes forward to a distinct /64.
    let (s2, _) = assign_v6_subnet(pool, "net-b", std::slice::from_ref(&s1)).unwrap();
    assert_ne!(s1, s2);
    assert!(s2.ends_with("::/64"));
    // Bad pool input is docker-shaped ("invalid ..." → HTTP 400).
    for bad in ["garbage", "10.0.0.0/16", "fd00::/80", "fd00::/64/extra"] {
        let err = assign_v6_subnet(bad, "net-a", &[]).unwrap_err();
        assert!(err.starts_with("invalid "), "{bad}: {err}");
    }
}

#[test]
fn assign_v6_subnet_exhausts_a_tiny_pool() {
    // A /64 pool holds exactly one /64: the second network conflicts.
    let pool = "fd00:dead:beef:1::/64";
    let (s1, _) = assign_v6_subnet(pool, "net-a", &[]).unwrap();
    assert_eq!(s1, "fd00:dead:beef:1::/64");
    let err = assign_v6_subnet(pool, "net-b", &[s1]).unwrap_err();
    assert!(err.contains("fully subnetted"), "{err}");
    assert!(!err.starts_with("invalid "), "exhaustion is a conflict, not validation");
}

#[test]
fn v6_network_rules_mirror_v4_dataplane() {
    // Disabled network: no rules at all.
    assert!(v6_network_rules(&v6rec("br-x", "", "", false)).is_empty());
    // External: MASQUERADE + FORWARD both ways.
    let rules = v6_network_rules(&v6rec(
        "br-abc",
        "fd00:dead:beef:1::/64",
        "fd00:dead:beef:1::1",
        false,
    ));
    assert_eq!(rules.len(), 3);
    assert_eq!(
        rules[0],
        Ip6Rule {
            table: Some("nat"),
            insert: false,
            args: vec![
                "POSTROUTING".into(),
                "-s".into(),
                "fd00:dead:beef:1::/64".into(),
                "!".into(),
                "-o".into(),
                "br-abc".into(),
                "-j".into(),
                "MASQUERADE".into(),
            ],
        }
    );
    assert_eq!(rules[0].full_args("-A")[..3], vec!["-t", "nat", "-A"]);
    // Internal: DROP guards first (insert), hairpin ACCEPT, no NAT.
    let rules = v6_network_rules(&v6rec(
        "br-abc",
        "fd00:dead:beef:1::/64",
        "fd00:dead:beef:1::1",
        true,
    ));
    assert_eq!(rules.len(), 3);
    assert!(rules.iter().all(|r| r.table.is_none()));
    assert!(rules[0].insert && rules[1].insert && !rules[2].insert);
    assert!(rules.iter().all(|r| !r.args.iter().any(|a| a == "MASQUERADE")));
    assert_eq!(rules[0].args[1..3], vec!["-i".to_string(), "br-abc".to_string()]);
}

#[test]
fn v6_endpoint_cmds_shape() {
    let v6 = parse_ipv6("fd00:dead:beef:1::5").unwrap();
    // eth0 on an external network: address + default route.
    let cmds = NetworkManager::v6_endpoint_cmds(v6, 64, "eth0", "fd00:dead:beef:1::1", 0, false);
    assert_eq!(cmds.len(), 2);
    assert_eq!(
        cmds[0],
        vec!["ip", "-6", "addr", "add", "fd00:dead:beef:1::5/64", "dev", "eth0"]
    );
    assert_eq!(
        cmds[1],
        vec!["ip", "-6", "route", "add", "default", "via", "fd00:dead:beef:1::1"]
    );
    // Secondary interface: address only, no default route.
    let cmds = NetworkManager::v6_endpoint_cmds(v6, 64, "eth1", "fd00:dead:beef:1::1", 1, false);
    assert_eq!(cmds.len(), 1);
    // internal:true: no external route even on eth0.
    let cmds = NetworkManager::v6_endpoint_cmds(v6, 64, "eth0", "fd00:dead:beef:1::1", 0, true);
    assert_eq!(cmds.len(), 1);
    assert!(cmds[0].contains(&"add".to_string()));
}

#[test]
fn ipv6_config_validation_and_record_migration() {
    let mut mgr = manager();
    // Disabled by default: no v6 anywhere.
    assert!(!mgr.ipv6.enabled);
    // Bad pool input is docker-shaped.
    for bad in ["garbage", "10.0.0.0/16", "fd00::/80"] {
        let err = mgr.set_ipv6_config(true, bad).unwrap_err();
        assert!(err.starts_with("invalid fixed-cidr-v6"), "{bad}: {err}");
    }
    // Host bits in the pool are masked like Docker normalizes.
    mgr.set_ipv6_config(true, "fd00:dead:beef:ffff::99/48").unwrap();
    assert_eq!(mgr.ipv6.pool, "fd00:dead:beef::/48");
    // A record without a v6 range has v6 disabled.
    let old = NetworkRecord {
        id: "x".to_string(),
        name: "bridge".to_string(),
        subnet: "172.17.0.0/16".to_string(),
        gateway: "172.17.0.1".to_string(),
        ..Default::default()
    };
    assert!(!old.has_ipv6());
}

fn fresh(id: &str) -> NewNetwork {
    NewNetwork {
        id: id.to_string(),
        bridge_id: format!("{id}00000000000000"),
        created: "now".to_string(),
        internal: false,
        labels: Table::new(),
        options: Table::new(),
    }
}

#[test]
fn networks_are_made_next_to_each_other() {
    let mut mgr = manager();
    let a = mgr.create_network("one", "bridge", None, None, fresh("id1")).unwrap();
    assert_eq!(a.bridge, "br-id1000000000");
    mgr.save_network(a.clone());
    let b = mgr.create_network("two", "bridge", None, None, fresh("id2")).unwrap();
    assert_ne!(a.subnet, b.subnet);
    assert!(mgr.create_network("one", "bridge", None, None, fresh("id3")).is_err());
    assert!(mgr.create_network("x", "overlay", None, None, fresh("id3")).is_err());
    assert!(mgr
        .create_network("x", "bridge", Some(a.subnet.clone()), None, fresh("id3"))
        .is_err());
    assert_eq!(mgr.get("one").map(|n| n.id), Some("id1".to_string()));
    assert_eq!(mgr.get("id1").map(|n| n.name), Some("one".to_string()));
    assert!(mgr.resolve("nobody").is_err());
    assert_eq!(mgr.list().len(), 1);
    assert_eq!(mgr.remove_network("one").map(|n| n.id), Ok("id1".to_string()));
    assert!(mgr.by_name("one").is_none());
}

fn request(network: &str) -> AttachRequest {
    AttachRequest {
        container_id: "abcdef123456".to_string(),
        container_name: "web".to_string(),
        hostname: "host".to_string(),
        network: network.to_string(),
        pid: 42,
        netns_path: "/proc/42/ns/net".to_string(),
        aliases: vec!["alias".to_string()],
        dns_search: vec![],
        requested_ip: None,
        if_index: 0,
    }
}

#[test]
fn endpoints_lease_connect_and_leave() {
    let mut mgr = manager();
    let n = mgr
        .create_network("one", "bridge", Some("10.5.0.0/24".to_string()), None, fresh("net1"))
        .unwrap();
    mgr.save_network(n);
    let req = request("one");
    let a = mgr.attach(&req).unwrap();
    assert_eq!(a.ip, 0x0a050002);
    assert!(a.commands.iter().any(|c| c.args.iter().any(|x| x == "veth-abcdnet1")));
    let e = mgr.connected(&a.network, &req, a.ip, a.ipv6);
    assert_eq!(e.ip, "10.5.0.2");
    assert_eq!(
        mgr.dns.get("net1").and_then(|t| t.get("web")).map(|s| s.as_str()),
        Some("10.5.0.2")
    );
    mgr.detach("net1", "10.5.0.2", &["web".to_string(), "alias".to_string()]);
    let again = mgr.attach(&req).unwrap();
    assert_eq!(again.ip, a.ip);
    assert!(mgr.attach(&request("nowhere")).is_err());
}

#[test]
fn ports_are_published_once() {
    let mut mgr = manager();
    let r = rule_on("a", "", 8080, "tcp");
    match mgr.publish_port(&r, true) {
        Publish::Run(v) => assert_eq!(v.len(), publish_commands(&r, "-A").len()),
        _ => panic!("the port is free"),
    }
    assert!(mgr.commit_port(rule_on("a", "", 8080, "tcp")));
    assert!(matches!(mgr.publish_port(&r, true), Publish::Already));
    match mgr.publish_port(&rule_on("b", "127.0.0.1", 8080, "tcp"), true) {
        Publish::Conflict(c) => assert_eq!(c.occupier.as_deref(), Some("a")),
        _ => panic!("another container has it"),
    }
    match mgr.publish_port(&rule_on("b", "", 9090, "tcp"), false) {
        Publish::Conflict(c) => assert_eq!(c.occupier, None),
        _ => panic!("the host has it"),
    }
    assert!(!mgr.is_port_unpublished("tcp", 8080));
    assert!(mgr.is_port_unpublished("udp", 8080));
    assert_eq!(mgr.published_for("a").len(), 1);
    assert_eq!(mgr.unpublish_all("a").len(), 1);
    assert!(mgr.is_port_unpublished("tcp", 8080));
}

#[test]
fn proxies_belong_to_their_container() {
    let r = rule_on("abc", "", 8080, "tcp");
    assert!(is_proxy_of(&proxy_key(&r), "abc"));
    assert!(!is_proxy_of(&proxy_key(&r), "abd"));
}

#[test]
fn bridges_are_brought_up_and_taken_down() {
    let mut n = rec("one", "10.5.0.0/24");
    n.bridge = "br-one".to_string();
    n.gateway = "10.5.0.1".to_string();
    let made = bridge_setup(&n, false);
    assert!(made.len() > bridge_setup(&n, true).len());
    assert_eq!(made[0].program, "ip");
    assert!(drop_bridge_rules(&n).iter().any(|c| c.args.iter().any(|a| a == "del")));
    assert_eq!(legacy_ifname("abcdef123456"), "veth-abcdef12");
    assert!(!reset_chain(false).is_empty());
    assert_eq!(jump_to_chain(true, false, "-C").program, "ip6tables");
    assert_eq!(v4_network_rules(&n).len(), 3);
}

#[test]
fn a_failed_v6_setup_is_rolled_back() {
    let n = v6rec("br-a", "fd00:1::/64", "fd00:1::1", false);
    assert!(v6_address_add(&n).args.iter().any(|a| a == "fd00:1::1/64"));
    assert_eq!(v6_rollback(&n, 0).len(), 1);
    assert!(v6_rollback(&n, 2).len() > v6_rollback(&n, 1).len());
}

#[test]
fn stale_bridges_and_leases_are_found() {
    let mut mgr = manager();
    let n = mgr
        .create_network("one", "bridge", Some("10.5.0.0/24".to_string()), None, fresh("net1"))
        .unwrap();
    let bridge = n.bridge.clone();
    mgr.save_network(n);
    let listing = format!("3: {bridge}: <UP>\n4: br-dead00000000: <UP>\n5: eth0: <UP>\n");
    assert_eq!(mgr.stale_bridges(&listing), vec!["br-dead00000000"]);
    assert_eq!(mgr.known_ids(), vec!["net1"]);
    let a = mgr.attach(&request("one")).unwrap();
    let ((_, released), _) = mgr.sweep(&vec![]);
    assert_eq!(released, 1);
    assert_eq!(mgr.attach(&request("one")).unwrap().ip, a.ip);
    assert!(!mgr.is_ready(&bridge));
    mgr.mark_ready(&bridge);
    assert!(mgr.is_ready(&bridge));
}

#[test]
fn port_search_skips_published_ports() {
    let mut m = manager();
    assert!(m.commit_port(rule_on("a", "", 40000, "tcp")));
    assert!(m.commit_port(rule_on("a", "", 32768, "tcp")));
    let step = |at, seen, free| m.allocate_ephemeral_port("tcp", at, seen, free);
    assert_eq!(step(PortSearch::Pick(16), Some(40001), true), PortSearch::Found(40001));
    assert_eq!(step(PortSearch::Pick(16), Some(40000), true), PortSearch::Pick(15));
    assert_eq!(step(PortSearch::Pick(16), Some(40001), false), PortSearch::Pick(15));
    assert_eq!(step(PortSearch::Pick(16), None, false), PortSearch::Pick(15));
    assert_eq!(step(PortSearch::Pick(1), Some(0), true), PortSearch::Scan(32768));
    assert_eq!(step(PortSearch::Scan(32768), None, true), PortSearch::Scan(32769));
    assert_eq!(step(PortSearch::Scan(32769), None, true), PortSearch::Found(32769));
    assert_eq!(step(PortSearch::Scan(60999), None, false), PortSearch::Found(32768));
    assert_eq!(step(PortSearch::Found(5), Some(6), true), PortSearch::Found(5));
    // Another protocol has ports of its own.
    assert_eq!(
        m.allocate_ephemeral_port("udp", PortSearch::Pick(3), Some(40000), true),
        PortSearch::Found(40000)
    );
}

#[test]
fn boot_takes_the_networks_up() {
    let mut mgr = manager();
    let n = mgr
        .create_network("one", "bridge", Some("10.5.0.0/24".to_string()), None, fresh("net1"))
        .unwrap();
    mgr.save_network(n);
    let lost = mgr.attach(&request("one")).unwrap().ip;
    let kept = mgr.attach(&request("one")).unwrap().ip;
    assert_ne!(lost, kept);
    let held = vec![("net1".to_string(), ingot::addr::ipv4_text(kept))];
    let listing = "3: ingot0: <UP>\n4: br-dead00000000: <UP>\n5: eth0: <UP>\n";
    let plan = mgr.boot(listing, "bridge-id", "now", &held);
    assert!(plan.fault.is_none());
    assert!(plan.warnings.is_empty(), "{:?}", plan.warnings);
    assert_eq!(plan.stale, vec!["ingot0".to_string(), "br-dead00000000".to_string()]);
    // The default bridge is new, and only the other network has a name server.
    assert_eq!(plan.bridge, Some(1));
    assert_eq!(mgr.networks[1].id, "bridge-id");
    assert_eq!(mgr.networks[1].subnet, "172.17.0.0/16");
    assert_eq!(plan.servers, vec![0]);
    assert_eq!(plan.swept, ((0, 1), (0, 0)));
    assert_eq!(mgr.attach(&request("one")).unwrap().ip, lost);
    // A second start finds everything in place.
    let again = mgr.boot("", "other-id", "later", &held);
    assert_eq!(again.bridge, None);
    assert_eq!(mgr.networks.len(), 2);
    // A pool that is used up leaves everything as it was.
    let mut full = manager();
    full.set_ipv6_config(true, "fd00:1::/64").unwrap();
    full.save_network(v6rec("br-a", "fd00:1::/64", "fd00:1::1", false));
    let mut old = v6rec("ingot0", "", "", false);
    old.id = "b".into();
    old.name = "bridge".into();
    full.save_network(old);
    let plan = full.boot("", "x", "now", &vec![]);
    assert!(plan.fault.is_some());
    assert_eq!(plan.bridge, None);
    assert!(plan.servers.is_empty());
}
