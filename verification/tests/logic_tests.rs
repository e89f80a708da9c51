use portpeek::apply_filters;
use portpeek::cli::Cli;
use portpeek::model::{BindAddress, ConnectionState, PortEntry, Protocol};
use portpeek::process::{is_confirmation, kill_targets, localhost_url};
use portpeek::render::table::{footer_line, port_text, summary_line, warning_count, TableRenderer};
use portpeek::render::watch::{watch_header, watch_step, WatchAction, WatchEvent, WatchKey};

fn entry(port: u16, state: ConnectionState, pid: Option<u32>, name: Option<&str>, public: bool) -> PortEntry {
    PortEntry {
        port,
        protocol: Protocol::TCP,
        state,
        pid,
        process_name: name.map(|n| n.to_string()),
        bind_address: if public { BindAddress::V4([0, 0, 0, 0]) } else { BindAddress::V4([127, 0, 0, 1]) },
        is_public: public,
    }
}

fn sample() -> Vec<PortEntry> {
    vec![
        entry(3000, ConnectionState::Listen, Some(10), Some("Node.js"), false),
        entry(3001, ConnectionState::Established, Some(10), Some("Node.js"), false),
        entry(5432, ConnectionState::Listen, Some(20), Some("postgres"), true),
        entry(8080, ConnectionState::Listen, None, None, false),
    ]
}

fn ports(v: &[PortEntry]) -> Vec<u16> {
    v.iter().map(|e| e.port).collect()
}

#[test]
fn parse_range_accepts_ranges() {
    assert_eq!(Cli::parse_range("3000-4000"), Ok((3000, 4000)));
    assert_eq!(Cli::parse_range("80-80"), Ok((80, 80)));
    assert_eq!(Cli::parse_range("+1-65535"), Ok((1, 65535)));
}

#[test]
fn parse_range_errors() {
    assert_eq!(
        Cli::parse_range("invalid"),
        Err("Invalid range format: 'invalid'. Use START-END (e.g. 3000-4000)".to_string())
    );
    assert_eq!(
        Cli::parse_range("1-2-3"),
        Err("Invalid range format: '1-2-3'. Use START-END (e.g. 3000-4000)".to_string())
    );
    assert_eq!(Cli::parse_range("a-5"), Err("Invalid start port: 'a'".to_string()));
    assert_eq!(Cli::parse_range("5-70000"), Err("Invalid end port: '70000'".to_string()));
    assert_eq!(Cli::parse_range("-5"), Err("Invalid start port: ''".to_string()));
    assert_eq!(
        Cli::parse_range("4000-3000"),
        Err("Start port 4000 is greater than end port 3000".to_string())
    );
}

#[test]
fn filters_default_to_listening() {
    let out = apply_filters(sample(), false, None, None, None);
    assert_eq!(ports(&out), vec![3000, 5432, 8080]);
    let all = apply_filters(sample(), true, None, None, None);
    assert_eq!(ports(&all), vec![3000, 3001, 5432, 8080]);
}

#[test]
fn filters_by_port_range_and_name() {
    assert_eq!(ports(&apply_filters(sample(), true, None, Some(5432), None)), vec![5432]);
    assert_eq!(ports(&apply_filters(sample(), true, None, None, Some("3000-3001"))), vec![3000, 3001]);
    // a range that does not parse filters nothing
    assert_eq!(ports(&apply_filters(sample(), true, None, None, Some("oops"))).len(), 4);
    // case-insensitive substring of the process name; entries without a name never match
    assert_eq!(ports(&apply_filters(sample(), true, Some("NODE"), None, None)), vec![3000, 3001]);
    assert_eq!(ports(&apply_filters(sample(), true, Some("gre"), None, None)), vec![5432]);
    assert_eq!(ports(&apply_filters(sample(), true, Some(""), None, None)), vec![3000, 3001, 5432]);
}

#[test]
fn kill_targets_are_unique_and_sorted() {
    let entries = vec![
        entry(80, ConnectionState::Listen, Some(30), None, false),
        entry(80, ConnectionState::Listen, Some(7), Some("nginx"), false),
        entry(80, ConnectionState::Listen, Some(30), Some("later"), false),
        entry(80, ConnectionState::Listen, None, Some("nopid"), false),
        entry(81, ConnectionState::Listen, Some(1), Some("other"), false),
    ];
    let t = kill_targets(80, &entries);
    assert_eq!(t.len(), 2);
    assert_eq!(t[0].pid, 7);
    assert_eq!(t[0].name, "nginx");
    assert_eq!(t[1].pid, 30);
    assert_eq!(t[1].name, "unknown");
    assert!(kill_targets(9999, &entries).is_empty());
}

#[test]
fn confirmations_and_urls() {
    assert!(is_confirmation("y\n"));
    assert!(is_confirmation("  Y  "));
    assert!(!is_confirmation("yes"));
    assert!(!is_confirmation("\n"));
    assert_eq!(localhost_url(3000), "http://localhost:3000");
}

#[test]
fn table_texts() {
    assert_eq!(port_text(80), "80 (http)");
    assert_eq!(port_text(12345), "12345");
    assert_eq!(warning_count(&sample()), 1);
    assert_eq!(footer_line(0), "");
    assert_eq!(footer_line(2), "\n ⚠ = bound to all interfaces (internet-accessible)");
    assert_eq!(summary_line(1, 0), "\n\n 1 port in use");
    assert_eq!(summary_line(5, 1), "\n\n 5 ports in use · 1 warning");
    assert_eq!(summary_line(2, 2), "\n\n 2 ports in use · 2 warnings");
}

#[test]
fn table_render_plain() {
    assert_eq!(TableRenderer.render(&[], true), "No ports in use.");
    let out = TableRenderer.render(&sample(), true);
    assert!(out.contains("PORT"));
    assert!(out.contains("5432 (postgresql)"));
    assert!(out.contains("0.0.0.0 ⚠"));
    assert!(out.contains("Node.js"));
    assert!(out.ends_with("\n ⚠ = bound to all interfaces (internet-accessible)\n\n 4 ports in use · 1 warning"));
}

#[test]
fn watch_decisions() {
    let q = WatchEvent::Key { key: WatchKey::Char('q'), ctrl: false };
    let c = WatchEvent::Key { key: WatchKey::Char('c'), ctrl: false };
    let ctrl_c = WatchEvent::Key { key: WatchKey::Char('c'), ctrl: true };
    assert_eq!(watch_step(q, 0, 2), WatchAction::Quit);
    assert_eq!(watch_step(ctrl_c, 0, 2), WatchAction::Quit);
    assert_eq!(watch_step(WatchEvent::Key { key: WatchKey::Esc, ctrl: false }, 0, 2), WatchAction::Quit);
    assert_eq!(watch_step(c, 0, 2), WatchAction::Wait);
    assert_eq!(watch_step(WatchEvent::Idle, 1_999_999_999, 2), WatchAction::Wait);
    assert_eq!(watch_step(WatchEvent::Idle, 2_000_000_000, 2), WatchAction::Refresh);
    assert_eq!(watch_header(5), " portpeek — watching (refresh: 5s) · press 'q' to quit\n");
}
