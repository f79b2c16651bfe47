use ingot::ports::{parse_port_spec, PortMapping};

#[test]
fn spec_shapes() {
    // bare container port → auto host port
    assert_eq!(
        parse_port_spec("80").unwrap(),
        vec![PortMapping {
            container_key: "80/tcp".into(),
            host_ip: "".into(),
            host_port: "".into(),
        }]
    );
    // host:container, container/proto
    let m = parse_port_spec("8080:80").unwrap();
    assert_eq!(m[0].host_port, "8080");
    assert_eq!(m[0].host_ip, "");
    assert_eq!(parse_port_spec("53:53/udp").unwrap()[0].container_key, "53/udp");
    // ip:host:container
    let m = parse_port_spec("127.0.0.1:8080:80").unwrap();
    assert_eq!((m[0].host_ip.as_str(), m[0].host_port.as_str()), ("127.0.0.1", "8080"));
    // equal ranges expand pairwise
    let m = parse_port_spec("8080-8081:80-81").unwrap();
    assert_eq!(m.len(), 2);
    assert_eq!(m[0].container_key, "80/tcp");
    assert_eq!(m[0].host_port, "8080");
    assert_eq!(m[1].container_key, "81/tcp");
    assert_eq!(m[1].host_port, "8081");
    // mismatched ranges, bad protos, bad ports fail loudly
    assert!(parse_port_spec("8080-8081:80").is_err());
    assert!(parse_port_spec("8080:80/sctp").is_err());
    assert!(parse_port_spec("abc:80").is_err());
    assert!(parse_port_spec("8080:0").is_err());
    assert!(parse_port_spec("8080:notaport").is_err());
    assert!(parse_port_spec("99999:80").is_err());
    assert!(parse_port_spec("[::1]:8080:80").is_ok());
}

#[test]
fn ranges_pair_up_in_order() {
    let m = parse_port_spec("9000-9004:80-84/udp").unwrap();
    for (i, p) in m.iter().enumerate() {
        assert_eq!(p.host_port, format!("{}", 9000 + i));
        assert_eq!(p.container_key, format!("{}/udp", 80 + i));
    }
    assert_eq!(m.len(), 5);
}
