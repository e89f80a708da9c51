use std::collections::HashMap;

use portpeek::iptext::parse_address;
use portpeek::model::{BindAddress, ConnectionState, PortEntry, Protocol};
use portpeek::scanner::linux::LinuxScanner;
use portpeek::scanner::macos::{parse_lsof_name, parse_lsof_output};
use portpeek::scanner::sort_by_port;
use portpeek::scanner::windows::{call_get_extended_table, dedup_sockets_of, row_entry, TableAction};
use portpeek::scanner::ScanError;

#[test]
fn test_parse_lsof_name_ipv4() {
    let entry = parse_lsof_name("127.0.0.1:8080", 1234, "node".to_string()).unwrap();
    assert_eq!(entry.port, 8080);
    assert_eq!(entry.bind_address, parse_address("127.0.0.1").unwrap());
    assert!(!entry.is_public);
}

#[test]
fn test_parse_lsof_name_wildcard() {
    let entry = parse_lsof_name("*:80", 5678, "nginx".to_string()).unwrap();
    assert_eq!(entry.port, 80);
    assert!(entry.is_public);
}

#[test]
fn test_parse_lsof_name_ipv6() {
    let entry = parse_lsof_name("[::1]:3000", 9999, "ruby".to_string()).unwrap();
    assert_eq!(entry.port, 3000);
    assert!(!entry.is_public);
}

#[test]
fn test_parse_lsof_name_established() {
    let entry =
        parse_lsof_name("127.0.0.1:8080->10.0.0.1:54321", 1234, "node".to_string()).unwrap();
    assert_eq!(entry.port, 8080);
}

#[test]
fn lsof_names_in_detail() {
    let e = parse_lsof_name("[::]:80", 7, "sshd".to_string()).unwrap();
    assert_eq!(e.bind_address, BindAddress::V6([0; 16]));
    assert!(e.is_public);
    assert_eq!(e.pid, Some(7));
    assert_eq!(e.process_name.as_deref(), Some("sshd"));
    assert_eq!(e.protocol, Protocol::TCP);
    assert_eq!(e.state, ConnectionState::Listen);
    let e = parse_lsof_name("[*]:443", 7, "x".to_string()).unwrap();
    assert!(e.is_public);
    assert!(parse_lsof_name("localhost:80", 1, "x".to_string()).is_none());
    assert!(parse_lsof_name("127.0.0.1", 1, "x".to_string()).is_none());
    assert!(parse_lsof_name("127.0.0.1:http", 1, "x".to_string()).is_none());
    assert!(parse_lsof_name("[::1:80", 1, "x".to_string()).is_none());
    let c = parse_lsof_name("[::1]:3000->[::1]:50000", 1, "x".to_string()).unwrap();
    assert_eq!(c.port, 3000);
    assert_eq!(c.state, ConnectionState::Established);
}

#[test]
fn lsof_output_groups_and_sorts() {
    let raw = "p100\ncnode\nf3\nn127.0.0.1:8080\np200\ncnginx\nn*:80\nn[::1]:443\n\npbad\nn*:22\n";
    let entries = match parse_lsof_output(raw) {
        Ok(v) => v,
        Err(_) => panic!("lsof output always parses"),
    };
    let ports: Vec<u16> = entries.iter().map(|e| e.port).collect();
    assert_eq!(ports, vec![80, 443, 8080]);
    assert_eq!(entries[0].pid, Some(200));
    assert_eq!(entries[0].process_name.as_deref(), Some("nginx"));
    assert_eq!(entries[2].process_name.as_deref(), Some("node"));
}

fn listed_entry(port: u16, state: ConnectionState, pid: Option<u32>, name: Option<&str>) -> PortEntry {
    PortEntry {
        port,
        protocol: Protocol::TCP,
        state,
        pid,
        process_name: name.map(|n| n.to_string()),
        bind_address: BindAddress::V4([127, 0, 0, 1]),
        is_public: false,
    }
}

#[test]
fn proc_net_content() {
    let content = "  sl  local_address rem_address   st tx_queue rx_queue tr tm->when retrnsmt   uid  timeout inode\n   0: 0100007F:1F90 00000000:0000 0A 00000000:00000000 00:00000000 00000000  1000        0 12345 1 0000000000000000 100 0 0 10 0\n   1: 00000000:0016 00000000:0000 01 00000000:00000000 00:00000000 00000000     0        0 999 1\n   2: short line\n";
    let mut map = HashMap::new();
    map.insert(12345u64, 42u32);
    let mut entries = Vec::new();
    LinuxScanner::parse_proc_net(content, Protocol::TCP, false, &map, &mut entries);
    assert_eq!(entries.len(), 2);
    assert_eq!(entries[0].port, 8080);
    assert_eq!(entries[0].pid, Some(42));
    assert_eq!(entries[0].state, ConnectionState::Listen);
    assert!(!entries[0].is_public);
    assert_eq!(entries[1].port, 22);
    assert_eq!(entries[1].pid, None);
    assert_eq!(entries[1].state, ConnectionState::Established);
    assert!(entries[1].is_public);

    let mut udp = Vec::new();
    LinuxScanner::parse_proc_net(content, Protocol::UDP, false, &map, &mut udp);
    assert_eq!(udp[1].state, ConnectionState::Listen);
}

#[test]
fn socket_links() {
    assert_eq!(LinuxScanner::socket_inode("socket:[12345]"), Some(12345));
    assert_eq!(LinuxScanner::socket_inode("pipe:[12345]"), None);
    assert_eq!(LinuxScanner::socket_inode("socket:[abc]"), None);
    assert_eq!(LinuxScanner::parse_pid_dir("1234"), Some(1234));
    assert_eq!(LinuxScanner::parse_pid_dir("self"), None);
    let mut map = HashMap::new();
    LinuxScanner::record_socket_link(&mut map, "socket:[7]", 3);
    LinuxScanner::record_socket_link(&mut map, "/dev/null", 4);
    LinuxScanner::record_socket_link(&mut map, "socket:[7]", 5);
    assert_eq!(map.len(), 1);
    assert_eq!(map.get(&7), Some(&5));
}

#[test]
fn sorting_is_stable() {
    let entries = vec![
        listed_entry(443, ConnectionState::Listen, Some(1), Some("a")),
        listed_entry(80, ConnectionState::Listen, Some(2), Some("b")),
        listed_entry(443, ConnectionState::Listen, Some(3), Some("c")),
        listed_entry(22, ConnectionState::Listen, Some(4), Some("d")),
    ];
    let sorted = sort_by_port(entries);
    let pids: Vec<Option<u32>> = sorted.iter().map(|e| e.pid).collect();
    assert_eq!(pids, vec![Some(4), Some(2), Some(1), Some(3)]);
}

#[test]
fn windows_rows_and_dedup() {
    // port 8080 in network byte order, as the low 16 bits of dwLocalPort
    let e = row_entry(Protocol::TCP, BindAddress::V4([0, 0, 0, 0]), 0x901F, Some(2), 9);
    assert_eq!(e.port, 8080);
    assert_eq!(e.state, ConnectionState::Listen);
    assert!(e.is_public);
    let u = row_entry(Protocol::UDP, BindAddress::V4([127, 0, 0, 1]), 0x3500, None, 9);
    assert_eq!(u.port, 53);
    assert_eq!(u.state, ConnectionState::Listen);
    let d = dedup_sockets_of(vec![e.clone(), e.clone(), u.clone(), e.clone()]);
    assert_eq!(d.len(), 3);
}

#[test]
fn extended_table_retries() {
    assert!(matches!(call_get_extended_table(0, 122, 0), TableAction::Fail(ScanError::PlatformError(_))));
    assert!(matches!(call_get_extended_table(0, 122, 64), TableAction::Call { buffer_size: 64 }));
    assert!(matches!(call_get_extended_table(1, 0, 64), TableAction::Finish));
    assert!(matches!(call_get_extended_table(1, 122, 128), TableAction::Call { buffer_size: 128 }));
    match call_get_extended_table(2, 122, 128) {
        TableAction::Fail(err) => assert_eq!(err.message(), "Platform error: Port table query failed with error code 122"),
        _ => panic!("second failure gives up"),
    }
}
