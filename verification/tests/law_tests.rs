use std::collections::HashMap;

use portpeek::apply_filters;
use portpeek::cli::Cli;
use portpeek::model::{u32_to_ipv4, BindAddress, ConnectionState, PortEntry, Protocol};
use portpeek::process::kill_targets;
use portpeek::render::json::JsonRenderer;
use portpeek::render::table::TableRenderer;
use portpeek::scanner::assign_process_names;
use portpeek::scanner::linux::LinuxScanner;
use portpeek::scanner::macos::parse_lsof_output;
use portpeek::scanner::windows::{append_table_rows, row_entry, TableRow, WindowsScanner};

fn port_entry(port: u16, state: ConnectionState, pid: Option<u32>, name: Option<&str>) -> PortEntry {
    PortEntry {
        port,
        protocol: Protocol::TCP,
        state,
        pid,
        process_name: name.map(|n| n.to_string()),
        bind_address: BindAddress::V4([127, 0, 0, 1]),
        is_public: false,
    }
}

fn mixed_entries() -> Vec<PortEntry> {
    vec![
        port_entry(3000, ConnectionState::Listen, Some(10), Some("Node.js")),
        port_entry(3001, ConnectionState::Established, Some(10), Some("nodemon")),
        port_entry(22, ConnectionState::Listen, Some(1), Some("sshd")),
        port_entry(5432, ConnectionState::TimeWait, None, None),
        port_entry(8080, ConnectionState::Listen, None, None),
    ]
}

fn key(v: &[PortEntry]) -> Vec<(u16, ConnectionState, Option<u32>, Option<String>)> {
    v.iter().map(|e| (e.port, e.state, e.pid, e.process_name.clone())).collect()
}

#[test]
fn range_text_reads_back() {
    for (a, b) in [(0u16, 0u16), (3000, 4000), (1, 65535), (80, 80)] {
        assert_eq!(Cli::parse_range(&format!("{}-{}", a, b)), Ok((a, b)));
    }
    assert_eq!(
        Cli::parse_range("65535-0"),
        Err("Start port 65535 is greater than end port 0".to_string())
    );
}

#[test]
fn default_filter_keeps_only_listening() {
    let kept = apply_filters(mixed_entries(), false, None, None, None);
    assert!(kept.iter().all(|e| e.state == ConnectionState::Listen));
    assert_eq!(kept.len(), 3);
}

#[test]
fn show_all_keeps_everything() {
    let kept = apply_filters(mixed_entries(), true, None, None, None);
    assert_eq!(key(&kept), key(&mixed_entries()));
}

#[test]
fn filters_are_idempotent() {
    let once = apply_filters(mixed_entries(), true, Some("NODE"), None, Some("3000-3001"));
    let twice = apply_filters(once.clone(), true, Some("NODE"), None, Some("3000-3001"));
    assert_eq!(key(&once), key(&twice));
    assert_eq!(once.len(), 2);
}

#[test]
fn range_filter_bounds() {
    let kept = apply_filters(mixed_entries(), true, None, None, Some("22-3000"));
    let ports: Vec<u16> = kept.iter().map(|e| e.port).collect();
    assert_eq!(ports, vec![3000, 22]);
    let unfiltered = apply_filters(mixed_entries(), true, None, None, Some("nonsense"));
    assert_eq!(key(&unfiltered), key(&mixed_entries()));
}

#[test]
fn process_filter_is_a_case_insensitive_substring() {
    let kept = apply_filters(mixed_entries(), true, Some("node"), None, None);
    let names: Vec<Option<String>> = kept.iter().map(|e| e.process_name.clone()).collect();
    assert_eq!(names, vec![Some("Node.js".to_string()), Some("nodemon".to_string())]);
    let none = apply_filters(mixed_entries(), true, Some("SSHD"), Some(3000), None);
    assert!(none.is_empty());
}

#[test]
fn linux_entries_flag_public_and_udp_listens() {
    let content = "header\n 0: 00000000:0035 00000000:0000 07 0 0 0 0 0 77\n 1: 0100007F:0277 00000000:0000 07 0 0 0 0 0 78\n";
    let mut udp = Vec::new();
    LinuxScanner::parse_proc_net(content, Protocol::UDP, false, &HashMap::new(), &mut udp);
    assert_eq!(udp.len(), 2);
    for e in &udp {
        assert_eq!(e.protocol, Protocol::UDP);
        assert_eq!(e.state, ConnectionState::Listen);
        assert!(e.process_name.is_none());
        assert_eq!(e.is_public, e.bind_address == BindAddress::V4([0, 0, 0, 0]));
    }
    assert!(udp[0].is_public);
    assert!(!udp[1].is_public);
}

#[test]
fn lsof_entries_listen_or_connect() {
    let raw = "p7\ncredis\nn*:6379\nn127.0.0.1:6380->10.0.0.2:5000\n";
    let entries = match parse_lsof_output(raw) {
        Ok(v) => v,
        Err(_) => panic!("lsof output always parses"),
    };
    assert_eq!(entries.len(), 2);
    for e in &entries {
        assert_eq!(e.protocol, Protocol::TCP);
        assert_eq!(e.pid, Some(7));
        assert_eq!(e.process_name.as_deref(), Some("redis"));
    }
    assert_eq!(entries[0].state, ConnectionState::Listen);
    assert_eq!(entries[1].state, ConnectionState::Established);
    assert!(entries[0].is_public);
    assert!(!entries[1].is_public);
    let shown = apply_filters(entries, false, None, None, None);
    assert_eq!(shown.len(), 1);
    assert_eq!(shown[0].port, 6379);
}

#[test]
fn windows_finish_sorts_and_drops_repeats() {
    let a = row_entry(Protocol::TCP, BindAddress::V4([0, 0, 0, 0]), 0x901F, Some(2), 9);
    let b = row_entry(Protocol::UDP, BindAddress::V4([127, 0, 0, 1]), 0x3500, None, 4);
    let c = row_entry(Protocol::TCP, BindAddress::V6([0; 16]), 0x901F, Some(2), 9);
    let done = WindowsScanner::finish(vec![a.clone(), b.clone(), a.clone(), c.clone(), a.clone()]);
    let ports: Vec<u16> = done.iter().map(|e| e.port).collect();
    assert_eq!(ports, vec![53, 8080, 8080, 8080]);
    for w in done.windows(2) {
        assert!(!(w[0].port == w[1].port && w[0].protocol == w[1].protocol && w[0].bind_address == w[1].bind_address));
    }
    let again = WindowsScanner::finish(done.clone());
    assert_eq!(key(&again), key(&done));
}

#[test]
fn nothing_to_kill_on_an_unused_port() {
    assert!(kill_targets(59999, &mixed_entries()).is_empty());
    assert!(kill_targets(8080, &mixed_entries()).is_empty());
    let t = kill_targets(3000, &mixed_entries());
    assert_eq!(t.len(), 1);
    assert_eq!(t[0].pid, 10);
    assert_eq!(t[0].name, "Node.js");
}

#[test]
fn process_names_come_from_their_ids() {
    let mut entries = mixed_entries();
    let mut names = HashMap::new();
    names.insert(10u32, "node".to_string());
    assign_process_names(&mut entries, &names);
    assert_eq!(entries[0].process_name.as_deref(), Some("node"));
    assert_eq!(entries[1].process_name.as_deref(), Some("node"));
    assert_eq!(entries[2].process_name, None);
    assert_eq!(entries[3].process_name, None);
    assert_eq!(entries[4].process_name, None);
}

#[test]
fn json_output_and_its_failure() {
    let r = JsonRenderer;
    assert_eq!(r.render(Ok("[]".to_string())), "[]");
    assert_eq!(
        r.render(Err("bad".to_string())),
        "{\"error\": \"Failed to serialize: bad\"}"
    );
}

#[test]
fn windows_table_rows() {
    let rows = vec![
        TableRow { local_address: u32_to_ipv4(0x0100007F), local_port: 0x901F, state: Some(2), pid: 7 },
        TableRow { local_address: BindAddress::V6([0; 16]), local_port: 0x5000, state: Some(5), pid: 8 },
    ];
    let mut entries = vec![port_entry(1, ConnectionState::Listen, None, None)];
    append_table_rows(Protocol::TCP, &rows, &mut entries);
    assert_eq!(entries.len(), 3);
    assert_eq!(entries[1].port, 8080);
    assert_eq!(entries[1].bind_address, BindAddress::V4([127, 0, 0, 1]));
    assert_eq!(entries[1].state, ConnectionState::Listen);
    assert_eq!(entries[1].pid, Some(7));
    assert!(!entries[1].is_public);
    assert_eq!(entries[2].port, 80);
    assert_eq!(entries[2].state, ConnectionState::Established);
    assert!(entries[2].is_public);
    let udp = vec![TableRow { local_address: BindAddress::V4([0, 0, 0, 0]), local_port: 0x3500, state: None, pid: 3 }];
    let mut u = Vec::new();
    append_table_rows(Protocol::UDP, &udp, &mut u);
    assert_eq!(u[0].state, ConnectionState::Listen);
    assert_eq!(u[0].port, 53);
}

#[test]
fn colored_output_is_plain_or_wrapped() {
    let r = TableRenderer.render(&[], false);
    assert!(r == "No ports in use." || r == "\x1B[32mNo ports in use.\x1B[0m");
    let mut e = port_entry(5432, ConnectionState::Listen, Some(1), Some("postgres"));
    e.bind_address = BindAddress::V4([0, 0, 0, 0]);
    e.is_public = true;
    let out = TableRenderer.render(&[e], false);
    let summary = "\n\n 1 port in use · 1 warning";
    assert!(out.ends_with(summary) || out.ends_with(&format!("\x1B[2m{}\x1B[0m", summary)));
    assert!(out.contains("\n ⚠ = bound to all interfaces (internet-accessible)"));
}

#[test]
fn plain_table_holds_header_and_rows_in_order() {
    let mut rows = mixed_entries();
    rows[2].bind_address = BindAddress::V6([0; 16]);
    rows[2].is_public = true;
    let out = TableRenderer.render(&rows, true);
    assert!(!out.contains('\u{1b}'));
    let header = out.find("PORT").unwrap();
    for w in ["PROTO", "STATE", "PID", "PROCESS", "BIND"] {
        assert!(out.find(w).unwrap() > header);
    }
    let p1 = out.find("3000").unwrap();
    let p2 = out.find("3001").unwrap();
    let p3 = out.find("22 (ssh)").unwrap();
    let p4 = out.find("5432 (postgresql)").unwrap();
    let p5 = out.find("8080 (http-alt)").unwrap();
    assert!(header < p1 && p1 < p2 && p2 < p3 && p3 < p4 && p4 < p5);
    assert!(out.contains(":: ⚠"));
    assert!(out.contains("TIME_WAIT"));
    assert!(out.ends_with("\n ⚠ = bound to all interfaces (internet-accessible)\n\n 5 ports in use · 1 warning"));
    let quiet = TableRenderer.render(&mixed_entries(), true);
    assert!(!quiet.contains("internet-accessible"));
}

fn strip_style_sequences(s: &str) -> String {
    let cs: Vec<char> = s.chars().collect();
    let mut out = String::new();
    let mut i = 0;
    while i < cs.len() {
        if cs[i] == '\u{1b}' && i + 1 < cs.len() && cs[i + 1] == '[' {
            let mut k = i + 2;
            while k < cs.len() && (cs[k].is_ascii_digit() || cs[k] == ';') {
                k += 1;
            }
            if k < cs.len() && cs[k] == 'm' {
                i = k + 1;
                continue;
            }
        }
        out.push(cs[i]);
        i += 1;
    }
    out
}

#[test]
fn colored_table_without_styles_is_the_plain_table() {
    let mut rows = mixed_entries();
    rows[0].bind_address = BindAddress::V4([0, 0, 0, 0]);
    rows[0].is_public = true;
    let colored = TableRenderer.render(&rows, false);
    let plain = TableRenderer.render(&rows, true);
    assert_eq!(strip_style_sequences(&colored), plain);
}
