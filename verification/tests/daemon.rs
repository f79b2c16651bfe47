use ingot::api::container::ContainerCreateBody;
use ingot::api::system::EventMessage;
use ingot::boot::{
    check_environment, mount_point, reconcile, reconcile_files, stale_mounts, Environment, Reconcile,
};
use ingot::de::flexible_bool;
use ingot::doctor::{doctor, DaemonProbe, HostProbe, InfoProbe, SchemaProbe};
use ingot::encode::{path_escape, pct_encode, url_escape};
use ingot::order::{comes_before, sort_unique};
use ingot::stream::{
    check_upgrade, default_socket, demux, error_text, header_end, json_line, parse_error_body,
    take_frames, take_lines, upgrade_request, upgraded,
};
use ingot::table::Table;

fn framed(stream: u8, payload: &[u8]) -> Vec<u8> {
    let mut v = vec![stream, 0, 0, 0];
    v.extend_from_slice(&(payload.len() as u32).to_be_bytes());
    v.extend_from_slice(payload);
    v
}

#[test]
fn frames_are_taken_apart() {
    let f = framed(2, b"oops");
    assert_eq!(demux(&f), (2, &b"oops"[..]));
    let mut pending = framed(1, b"one");
    pending.extend_from_slice(&framed(2, b""));
    pending.extend_from_slice(&framed(1, b"half")[..9]);
    let got = take_frames(&mut pending);
    assert_eq!(got.len(), 2);
    assert_eq!((got[0].stream, got[0].payload.as_slice()), (1, &b"one"[..]));
    assert_eq!(got[1].stream, 2);
    assert_eq!(pending.len(), 9);
    pending.extend_from_slice(b"alf");
    assert_eq!(take_frames(&mut pending)[0].payload, b"half");
    assert!(pending.is_empty());
}

#[test]
fn lines_wait_for_their_end() {
    let mut b = b"one\ntwo\nthr".to_vec();
    assert_eq!(take_lines(&mut b).len(), 2);
    b.extend_from_slice(b"ee\n");
    let rest = take_lines(&mut b);
    assert_eq!(rest.len(), 1);
    assert!(rest[0].starts_with(b"three"));
    assert!(json_line(b"  \r\n").is_none());
    assert_eq!(json_line(b" {\"a\":1}\n"), Some("{\"a\":1}".to_string()));
}

#[test]
fn errors_of_the_daemon_are_read() {
    let e = parse_error_body(404, br#"{"message":"no such image"}"#);
    assert_eq!(e, error_text(404, "no such image"));
    assert!(parse_error_body(500, b"plain").contains("plain"));
}

#[test]
fn upgrades_are_asked_for_and_checked() {
    let r = upgrade_request("/exec/1/start", 12);
    assert!(r.starts_with("POST /exec/1/start HTTP/1.1\r\n"));
    assert!(r.contains("Content-Length: 12\r\n\r\n"));
    let reply = b"HTTP/1.1 101 UPGRADED\r\nConnection: Upgrade\r\n\r\nrest";
    let end = header_end(reply).unwrap();
    assert_eq!(upgraded(reply, end).unwrap(), b"rest");
    assert!(header_end(b"HTTP/1.1 101").is_none());
    assert!(check_upgrade("HTTP/1.1 404 Not Found\r\n\r\n", "gone").is_err());
}

#[test]
fn sockets_come_from_the_environment() {
    assert_eq!(default_socket(Some("unix:///a"), Some("unix:///b")), "/a");
    assert_eq!(default_socket(Some("tcp://a"), Some("unix:///b")), "/b");
    assert_eq!(default_socket(None, None), "/run/ingot/ingot.sock");
}

#[test]
fn lost_containers_are_reconciled() {
    assert!(matches!(reconcile(false, "always"), Reconcile::Leave));
    assert!(matches!(reconcile(true, "always"), Reconcile::Restart));
    assert!(matches!(reconcile(true, "unless-stopped"), Reconcile::Restart));
    assert!(matches!(reconcile(true, "no"), Reconcile::MarkExited));
    let host = br#"{"RestartPolicy":{"Name":"always"}}"#;
    for status in ["running", "Paused"] {
        let state = format!(r#"{{"status":"{status}","pid":7,"kept":[1]}}"#);
        let (step, lost) = reconcile_files(state.as_bytes(), host, "now");
        assert_eq!(step, Reconcile::Restart);
        let lost: serde_json::Value = serde_json::from_str(&lost.unwrap()).unwrap();
        assert_eq!((&lost["status"], &lost["exit_code"]), (&"exited".into(), &255.into()));
        assert_eq!((&lost["finished_at"], &lost["pid"]), (&"now".into(), &0.into()));
        assert_eq!(lost["kept"][0], 1);
        assert_eq!(reconcile_files(state.as_bytes(), b"", "now").0, Reconcile::MarkExited);
    }
    let (step, lost) = reconcile_files(br#"{"status":"exited"}"#, host, "now");
    assert!(step == Reconcile::Leave && lost.is_none());
}

#[test]
fn stale_mounts_lie_below_their_root() {
    let info = "36 35 98:0 / /data/overlay/a rw - overlay overlay rw\n37 35 98:0 / /data/overlayed rw - x y\n";
    assert_eq!(mount_point(info.lines().next().unwrap()), "/data/overlay/a");
    assert_eq!(stale_mounts(info, "/data/overlay"), vec!["/data/overlay/a"]);
    assert_eq!(stale_mounts(info, "/data//overlay/."), vec!["/data/overlay/a"]);
    assert!(stale_mounts(info, "data/overlay").is_empty());
}

fn host() -> Environment {
    Environment {
        cgroup_mounted: true,
        controllers: Some("cpu memory".to_string()),
        missing_program: None,
        overlay_works: true,
    }
}

#[test]
fn the_host_has_to_have_what_is_needed() {
    assert!(check_environment(&host()).is_ok());
    let e = check_environment(&Environment { cgroup_mounted: false, ..host() }).unwrap_err();
    assert!(e.contains("not mounted"), "{e}");
    let e = check_environment(&Environment { controllers: Some(" ".to_string()), ..host() })
        .unwrap_err();
    assert!(e.contains("cgroup v2"), "{e}");
    let e = check_environment(&Environment {
        missing_program: Some("iptables".to_string()),
        ..host()
    })
    .unwrap_err();
    assert_eq!(e, "required host utility 'iptables' not found in PATH");
    let e = check_environment(&Environment { overlay_works: false, ..host() }).unwrap_err();
    assert!(e.contains("overlay"), "{e}");
}

fn probe() -> HostProbe {
    HostProbe {
        socket: "/run/s".to_string(),
        daemon: DaemonProbe::Version {
            version: Some("1".to_string()),
            api: Some("1.45".to_string()),
        },
        controllers: Some("cpu memory pids".to_string()),
        filesystems: "nodev\toverlay\n".to_string(),
        ip: Some("ip utility".to_string()),
        iptables: Some("iptables v1".to_string()),
        info: Some(InfoProbe {
            root_dir: "/data".to_string(),
            root_exists: true,
            security_options: vec!["name=seccomp".to_string()],
            marker_path: "/data/schema".to_string(),
            schema: SchemaProbe::Text("1".to_string()),
        }),
    }
}

#[test]
fn a_sound_host_passes() {
    let r = doctor(&probe());
    assert!(r.ok, "{:?}", r.lines);
    let r = doctor(&HostProbe { daemon: DaemonProbe::NoSocket, info: None, ..probe() });
    assert!(!r.ok);
    assert!(r.lines.iter().any(|l| l.contains("does not exist")), "{:?}", r.lines);
}

#[test]
fn booleans_of_queries_are_flexible() {
    assert_eq!(flexible_bool(None), Ok(None));
    for yes in ["1", "true", "True", ""] {
        assert_eq!(flexible_bool(Some(yes)), Ok(Some(true)));
    }
    for no in ["0", "false", "False"] {
        assert_eq!(flexible_bool(Some(no)), Ok(Some(false)));
    }
    assert!(flexible_bool(Some("maybe")).is_err());
}

#[test]
fn text_is_escaped_for_its_place() {
    assert_eq!(pct_encode("a b/c:d"), "a%20b%2Fc%3Ad");
    assert_eq!(path_escape("a/b:1"), "a%2Fb:1");
    assert_eq!(url_escape("é"), "%C3%A9");
}

#[test]
fn names_are_sorted_once_each() {
    let v = vec!["b".to_string(), "a".to_string(), "b".to_string()];
    assert_eq!(sort_unique(&v), vec!["a", "b"]);
    assert!(comes_before("a", "ab"));
    assert!(!comes_before("b", "ab"));
}

#[test]
fn tables_keep_one_value_for_each_key() {
    let mut t: Table<u32> = Table::new();
    t.insert("a".to_string(), 1);
    t.insert("b".to_string(), 2);
    t.insert("a".to_string(), 3);
    assert_eq!(t.get("a"), Some(&3));
    assert_eq!(t.entries.len(), 2);
    assert!(t.remove("a"));
    assert!(!t.remove("a"));
    assert_eq!(t.get("b"), Some(&2));
}

#[test]
fn events_carry_both_their_shapes() {
    let e = EventMessage::new("container", "start", "abc", Table::new(), 5, 5_000_000_001);
    assert_eq!(e.Type, "container");
    assert_eq!(e.Actor.ID, "abc");
    assert_eq!(e.scope, "local");
    assert_eq!(e.status, "start");
    assert_eq!(e.id, "abc");
}

#[test]
fn requests_become_configurations() {
    let b = ContainerCreateBody {
        Image: "busybox".to_string(),
        Env: vec!["A=1".to_string()],
        ..Default::default()
    };
    let c = b.into_container_config();
    assert_eq!(c.Image, "busybox");
    assert_eq!(c.Env, vec!["A=1".to_string()]);
}
