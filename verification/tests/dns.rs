use ingot::dns::{
    build_aaaa_answer, build_answer, build_error, decide, extract_query_name_type, nameservers_of,
    register, resolve_search, scrub, serve_query, DnsDecision, Reply,
};
use ingot::table::Table;

fn table(pairs: &[(&str, &str)]) -> Table<String> {
    let mut t = Table::new();
    for (k, v) in pairs {
        t.insert(k.to_string(), v.to_string());
    }
    t
}

#[test]
fn dns_name_extraction() {
    let mut q = vec![0u8; 12];
    q.extend_from_slice(b"\x07example\x03com\x00");
    q.extend_from_slice(&[0, 1, 0, 1]);
    let (name, qtype) = extract_query_name_type(&q);
    assert_eq!(name.as_deref(), Some("example.com"));
    assert_eq!(qtype, 1);
}

#[test]
fn dns_name_extraction_lowercases() {
    let mut q = vec![0u8; 12];
    q.extend_from_slice(b"\x02DB\x00");
    q.extend_from_slice(&[0, 1, 0, 1]);
    let (name, _) = extract_query_name_type(&q);
    assert_eq!(name.as_deref(), Some("db"));
}

#[test]
fn search_expansion_hits_before_miss() {
    let records = table(&[("db.svc", "10.0.0.5")]);
    let domains = vec!["svc".to_string()];
    assert_eq!(resolve_search(&records, &domains, "db").as_deref(), Some("10.0.0.5"));
    assert_eq!(resolve_search(&records, &domains, "missing"), None);
    assert_eq!(resolve_search(&records, &[], "db"), None, "no domains, no expansion");
}

#[test]
fn search_expansion_domain_case_insensitive() {
    let records = table(&[("db.svc", "10.0.0.5")]);
    let domains = vec!["SVC".to_string()];
    assert_eq!(resolve_search(&records, &domains, "db").as_deref(), Some("10.0.0.5"));
}

#[test]
fn error_reply_shape() {
    let mut q = vec![0x12, 0x34];
    q.extend_from_slice(&[0x01, 0x00, 0, 1, 0, 0, 0, 0, 0, 0]);
    q.extend_from_slice(b"\x01a\x00");
    q.extend_from_slice(&[0, 1, 0, 1]);
    let e = build_error(&q, 2);
    assert_eq!(e[2] & 0x80, 0x80, "QR set");
    assert_eq!(e[3] & 0x80, 0x80, "RA set");
    assert_eq!(e[3] & 0x0F, 2, "RCODE=SERVFAIL");
    assert_eq!(e[7], 0, "no answers");
    assert_eq!(&e[..2], &q[..2], "ID echoed");
    assert_eq!(&e[4..6], &[0, 1], "QDCOUNT preserved");
}

#[test]
fn answer_shape() {
    let mut q = vec![0x12, 0x34];
    q.extend_from_slice(&[0x01, 0x00, 0, 1, 0, 0, 0, 0, 0, 0]);
    q.extend_from_slice(b"\x01a\x00");
    q.extend_from_slice(&[0, 1, 0, 1]);
    let a = build_answer(&q, "1.2.3.4");
    assert_eq!(a[2] & 0x80, 0x80);
    assert!(a.ends_with(&[1, 2, 3, 4]));
}

fn query_with_qtype(name: &[u8], qtype: u16) -> Vec<u8> {
    let mut q = vec![0x12, 0x34];
    q.extend_from_slice(&[0x01, 0x00, 0, 1, 0, 0, 0, 0, 0, 0]);
    q.extend_from_slice(name);
    q.extend_from_slice(&qtype.to_be_bytes());
    q.extend_from_slice(&[0, 1]); // QCLASS IN
    q
}

#[test]
fn qtype_extraction() {
    let q = query_with_qtype(b"\x01a\x00", 28);
    let (name, qtype) = extract_query_name_type(&q);
    assert_eq!(name.as_deref(), Some("a"));
    assert_eq!(qtype, 28);
    let q = query_with_qtype(b"\x02DB\x00", 1);
    let (name, qtype) = extract_query_name_type(&q);
    assert_eq!(name.as_deref(), Some("db"));
    assert_eq!(qtype, 1);
    // Truncated queries fall back to the v4 path.
    assert_eq!(extract_query_name_type(&[0u8; 5]), (None, 1));
}

#[test]
fn decide_matrix() {
    let v4 = || Some("10.0.0.5".to_string());
    let v6 = || Some("fd00::5".to_string());
    // AAAA served from the v6 lease alongside A.
    assert_eq!(decide(28, v4(), v6()), DnsDecision::Aaaa("fd00::5".into()));
    assert_eq!(decide(1, v4(), v6()), DnsDecision::A("10.0.0.5".into()));
    // Owned name, wrong family: NODATA, never forwarded.
    assert_eq!(decide(28, v4(), None), DnsDecision::Nodata);
    // Unknown name: forward upstream (existing behavior for A too).
    assert_eq!(decide(28, None, None), DnsDecision::Forward);
    assert_eq!(decide(1, None, None), DnsDecision::Forward);
    assert_eq!(decide(1, None, v6()), DnsDecision::Forward);
}

#[test]
fn aaaa_answer_shape() {
    let q = query_with_qtype(b"\x01a\x00", 28);
    let a = build_aaaa_answer(&q, "fd00:dead:beef:1::5");
    assert_eq!(a[2] & 0x80, 0x80, "QR set");
    assert_eq!(a[3] & 0x0F, 0, "RCODE=NOERROR");
    assert_eq!(a[7], 1, "ANCOUNT=1");
    // RR tail: NAME ptr, TYPE=28, CLASS=IN, TTL=0, RDLEN=16, addr.
    let rr = &a[a.len() - 28..];
    assert_eq!(&rr[..6], &[0xC0, 0x0C, 0, 28, 0, 1]);
    assert_eq!(&rr[6..10], &[0, 0, 0, 0], "TTL=0");
    assert_eq!(&rr[10..12], &[0, 16], "RDLENGTH=16");
    let want: [u8; 16] = [0xfd, 0, 0xde, 0xad, 0xbe, 0xef, 0, 1, 0, 0, 0, 0, 0, 0, 0, 5];
    assert_eq!(&rr[12..], &want);
}

#[test]
fn nodata_shape() {
    let q = query_with_qtype(b"\x01a\x00", 28);
    let n = build_error(&q, 0);
    assert_eq!(n[2] & 0x80, 0x80, "QR set");
    assert_eq!(n[3] & 0x0F, 0, "RCODE=NOERROR");
    assert_eq!(n[7], 0, "no answers");
    assert_eq!(&n[..2], &q[..2], "ID echoed");
}

#[test]
fn labels_that_are_no_utf8_are_replaced() {
    let q = query_with_qtype(b"\x02\xffA\x00", 1);
    let (name, _) = extract_query_name_type(&q);
    assert_eq!(name.as_deref(), Some("\u{fffd}a"));
}

#[test]
fn own_names_are_answered_and_others_passed_on() {
    let records = table(&[("a", "10.0.0.5")]);
    let none = Table::new();
    let searches = Table::new();
    let q = query_with_qtype(b"\x01a\x00", 1);
    match serve_query(&q, "10.0.0.9", &records, &none, &searches, true) {
        Reply::Send(b) => assert!(b.ends_with(&[10, 0, 0, 5])),
        Reply::Forward => panic!("the name is the network's own"),
    }
    let q = query_with_qtype(b"\x01b\x00", 1);
    assert!(matches!(
        serve_query(&q, "10.0.0.9", &records, &none, &searches, true),
        Reply::Forward
    ));
}

#[test]
fn without_an_upstream_unknown_names_fail() {
    let none: Table<String> = Table::new();
    let searches = Table::new();
    let q = query_with_qtype(b"\x01b\x00", 1);
    match serve_query(&q, "10.0.0.9", &none, &none, &searches, false) {
        Reply::Send(b) => assert_eq!(b[3] & 0x0F, 2),
        Reply::Forward => panic!("there is nobody to ask"),
    }
}

#[test]
fn registered_names_are_scrubbed_again() {
    let mut reg = table(&[("other", "10.0.0.1")]);
    let keys = vec!["Web".to_string(), "web-1".to_string()];
    register(&mut reg, &keys, "10.0.0.2");
    assert_eq!(reg.get("web").map(|s| s.as_str()), Some("10.0.0.2"));
    scrub(&mut reg, &keys, "10.0.0.3");
    assert!(reg.contains_key("web"), "another address keeps its name");
    scrub(&mut reg, &keys, "10.0.0.2");
    assert!(!reg.contains_key("web"));
    assert!(!reg.contains_key("web-1"));
    assert_eq!(reg.get("other").map(|s| s.as_str()), Some("10.0.0.1"));
}

#[test]
fn nameservers_are_second_words() {
    let v = nameservers_of("# none\nnameserver 127.0.0.53\nsearch lan\nnameserver fe80::1\n");
    assert_eq!(v, vec![0x7f000035]);
}

#[test]
fn unknown_shapes_give_the_name_so_far() {
    let mut q = vec![0u8; 12];
    q.extend_from_slice(b"\x01a\xC0\x0C");
    assert_eq!(extract_query_name_type(&q), (Some("a".to_string()), 1));
    let mut q = vec![0u8; 12];
    q.extend_from_slice(b"\x03Foo\x09cut");
    assert_eq!(extract_query_name_type(&q), (Some("foo".to_string()), 1));
    let mut q = vec![0u8; 12];
    q.extend_from_slice(b"\xC0\x0C");
    assert_eq!(extract_query_name_type(&q), (None, 1));
}
