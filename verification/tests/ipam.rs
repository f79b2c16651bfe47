use ingot::addr::{ipv4_text, ipv6_text, parse_ipv4, parse_ipv6};
use ingot::ipam::{default_gateway, default_gateway_v6, Ipam, IpamLeases, Subnet, V6Subnet};
use ingot::table::Table;

fn fresh() -> Ipam {
    Ipam::new(IpamLeases { allocated: Table::new(), allocated_v6: Table::new() })
}

#[test]
fn subnet_parsing_and_range() {
    let s = Subnet::parse("10.1.2.0/24").unwrap();
    assert_eq!(s.usable_range(), (0x0A010201, 0x0A0102FE));
    assert_eq!(ipv4_text(default_gateway(&s)), "10.1.2.1");
    // Host bits are masked like Docker normalizes.
    assert_eq!(Subnet::parse("10.1.2.99/24").unwrap(), s);
    assert!(Subnet::parse("10.0.0.0/31").is_err());
    assert!(Subnet::parse("10.0.0.0/32").is_err());
    assert!(Subnet::parse("nope").is_err());
    assert!(Subnet::parse("10.0.0.0/33").is_err());
    assert!(Subnet::parse("::1/128").is_err());
}

#[test]
fn overlap_detection() {
    let a = Subnet::parse("172.18.0.0/16").unwrap();
    assert!(a.overlaps(&Subnet::parse("172.18.5.0/24").unwrap()));
    assert!(a.overlaps(&Subnet::parse("172.18.0.0/16").unwrap()));
    assert!(!a.overlaps(&Subnet::parse("172.19.0.0/16").unwrap()));
    // Adjacent /24s share an edge address but no usable hosts.
    assert!(!Subnet::parse("10.0.0.0/24")
        .unwrap()
        .overlaps(&Subnet::parse("10.0.1.0/24").unwrap()));
}

#[test]
fn allocate_skips_gateway_and_exhausts() {
    let mut ipam = fresh();
    // /30: usable .1 (gateway) + .2 only.
    let first = ipam.allocate("n", "192.168.9.0/30", "192.168.9.1").unwrap();
    assert_eq!(ipv4_text(first), "192.168.9.2");
    let err = ipam.allocate("n", "192.168.9.0/30", "192.168.9.1").unwrap_err();
    assert!(err.contains("no available") || err.contains("available IPv4"), "{err}");
    // Static reservations conflict and validate.
    assert!(ipam.reserve("m", "192.168.9.0/30", "192.168.9.1", "192.168.9.2").is_ok());
    assert!(ipam.reserve("m", "192.168.9.0/30", "192.168.9.1", "192.168.9.2").is_err());
    assert!(ipam.reserve("m", "192.168.9.0/30", "192.168.9.1", "192.168.9.1").is_err());
    assert!(ipam.reserve("m", "192.168.9.0/30", "192.168.9.1", "10.9.9.9").is_err());
    ipam.release("m", "192.168.9.2");
    assert!(ipam.reserve("m", "192.168.9.0/30", "192.168.9.1", "192.168.9.2").is_ok());
}

#[test]
fn sweep_orphans_reclaims_dead_buckets_and_leases() {
    let mut ipam = fresh();
    // Live network "n" with two leases; dead network "gone" with one.
    let a = ipam.allocate("n", "192.168.9.0/29", "192.168.9.1").unwrap();
    let b = ipam.allocate("n", "192.168.9.0/29", "192.168.9.1").unwrap();
    ipam.allocate("gone", "10.10.0.0/29", "10.10.0.1").unwrap();
    // Only lease `a` on "n" is referenced by a container record.
    let known = vec!["n".to_string()];
    let live = vec![("n".to_string(), a)];
    let (dropped, released) = ipam.sweep_orphans(&known, &live);
    assert_eq!((dropped, released), (1, 2));
    // `a` survives; `b` is allocatable again.
    let c = ipam.allocate("n", "192.168.9.0/29", "192.168.9.1").unwrap();
    assert_eq!(c, b);
}

#[test]
fn v6_leases_come_and_go() {
    let mut ipam = fresh();
    let a = ipam.allocate_v6("n", "fd00::/125", "fd00::1").unwrap();
    assert_eq!(ipv6_text(a), "fd00::2");
    let b = ipam.allocate_v6("n", "fd00::/125", "fd00::1").unwrap();
    assert_eq!(ipv6_text(b), "fd00::3");
    ipam.release_v6("n", "fd00::2");
    assert_eq!(ipam.allocate_v6("n", "fd00::/125", "fd00::1").unwrap(), a);
    let (dropped, released) = ipam.sweep_orphans_v6(&vec!["n".to_string()], &vec![("n".to_string(), b)]);
    assert_eq!((dropped, released), (0, 1));
}

#[test]
fn v6_ranges_have_gateways_and_overlap() {
    let s = V6Subnet::parse("fd00:1::/64").unwrap();
    assert_eq!(ipv6_text(default_gateway_v6(&s)), "fd00:1::1");
    assert_eq!(s.cidr(), "fd00:1::/64");
    assert!(s.overlaps(&V6Subnet::parse("fd00:1::/80").unwrap()));
    assert!(!s.overlaps(&V6Subnet::parse("fd00:2::/64").unwrap()));
    assert!(V6Subnet::parse("10.0.0.0/8").is_err());
    assert!(V6Subnet::parse("fd00::/129").is_err());
}

#[test]
fn addresses_read_back() {
    for s in ["0.0.0.0", "10.1.2.3", "255.255.255.255"] {
        assert_eq!(ipv4_text(parse_ipv4(s).unwrap()), s);
    }
    for s in ["::", "::1", "fd00::5", "2001:db8::ff00:42:8329", "::ffff:1.2.3.4"] {
        assert_eq!(ipv6_text(parse_ipv6(s).unwrap()), s);
    }
    assert_eq!(parse_ipv4("1.2.3"), None);
    assert_eq!(parse_ipv4("01.2.3.4"), None);
    assert_eq!(parse_ipv6("1:2"), None);
}

#[test]
fn ranges_read_back() {
    let s = Subnet::parse("172.17.3.4/16").unwrap();
    assert_eq!(s.cidr(), "172.17.0.0/16");
    assert_eq!(Subnet::parse(&s.cidr()).unwrap(), s);
    assert!(s.contains(0xac110001));
    assert!(!s.contains(0xac120001));
}

#[test]
fn leases_stay_distinct_and_lowest() {
    let mut ipam = fresh();
    let mut seen = Vec::new();
    for _ in 0..5 {
        seen.push(ipam.allocate("n", "192.168.9.0/29", "192.168.9.1").unwrap());
    }
    let want: Vec<u32> = (2..7).map(|i| 0xc0a80900 + i).collect();
    assert_eq!(seen, want);
    assert!(ipam.allocate("n", "192.168.9.0/29", "192.168.9.1").is_err());
}
