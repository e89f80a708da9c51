use portpeek::iptext::{address_string, parse_address};
use portpeek::model::{
    is_public_bind, parse_linux_addr_port, parse_linux_addr_port_v6, u32_to_ipv4,
    well_known_service, BindAddress, ConnectionState, Protocol,
};

fn addr(s: &str) -> BindAddress {
    parse_address(s).unwrap()
}

#[test]
fn test_parse_linux_addr_port() {
    let (ip, port) = parse_linux_addr_port("0100007F:1F90").unwrap();
    assert_eq!(ip, BindAddress::V4([127, 0, 0, 1]));
    assert_eq!(port, 8080);
}

#[test]
fn test_parse_linux_addr_port_all_interfaces() {
    let (ip, port) = parse_linux_addr_port("00000000:0050").unwrap();
    assert_eq!(ip, BindAddress::V4([0, 0, 0, 0]));
    assert_eq!(port, 80);
}

#[test]
fn test_is_public_bind() {
    assert!(is_public_bind(&addr("0.0.0.0")));
    assert!(is_public_bind(&addr("::")));
    assert!(!is_public_bind(&addr("127.0.0.1")));
    assert!(!is_public_bind(&addr("192.168.1.1")));
}

#[test]
fn test_connection_state_from_linux_hex() {
    assert_eq!(
        ConnectionState::from_linux_hex("0A"),
        ConnectionState::Listen
    );
    assert_eq!(
        ConnectionState::from_linux_hex("01"),
        ConnectionState::Established
    );
    assert_eq!(
        ConnectionState::from_linux_hex("06"),
        ConnectionState::TimeWait
    );
    assert_eq!(
        ConnectionState::from_linux_hex("FF"),
        ConnectionState::Unknown
    );
}

#[test]
fn test_well_known_service() {
    assert_eq!(well_known_service(80), Some("http"));
    assert_eq!(well_known_service(443), Some("https"));
    assert_eq!(well_known_service(5432), Some("postgresql"));
    assert_eq!(well_known_service(9999), None);
}

#[test]
fn test_u32_to_ipv4() {
    // 127.0.0.1 in little-endian u32 = 0x0100007F
    let ip = u32_to_ipv4(0x0100007F);
    assert_eq!(ip, BindAddress::V4([127, 0, 0, 1]));
}

#[test]
fn linux_hex_state_is_case_insensitive() {
    assert_eq!(ConnectionState::from_linux_hex("0a"), ConnectionState::Listen);
    assert_eq!(ConnectionState::from_linux_hex("0b"), ConnectionState::Closing);
    assert_eq!(ConnectionState::from_linux_hex("09"), ConnectionState::LastAck);
    assert_eq!(ConnectionState::from_linux_hex(""), ConnectionState::Unknown);
    assert_eq!(ConnectionState::from_linux_hex("0A0"), ConnectionState::Unknown);
}

#[test]
fn windows_states() {
    assert_eq!(ConnectionState::from_windows_state(1), ConnectionState::Unknown);
    assert_eq!(ConnectionState::from_windows_state(2), ConnectionState::Listen);
    assert_eq!(ConnectionState::from_windows_state(5), ConnectionState::Established);
    assert_eq!(ConnectionState::from_windows_state(11), ConnectionState::TimeWait);
    assert_eq!(ConnectionState::from_windows_state(12), ConnectionState::Unknown);
    assert_eq!(ConnectionState::from_windows_state(99), ConnectionState::Unknown);
}

#[test]
fn state_and_protocol_names() {
    assert_eq!(ConnectionState::Listen.as_str(), "LISTEN");
    assert_eq!(ConnectionState::FinWait1.as_str(), "FIN_WAIT1");
    assert_eq!(ConnectionState::LastAck.as_str(), "LAST_ACK");
    assert_eq!(Protocol::TCP.as_str(), "TCP");
    assert_eq!(Protocol::UDP.as_str(), "UDP");
}

#[test]
fn linux_pairs_that_do_not_parse() {
    assert_eq!(parse_linux_addr_port("0100007F"), None);
    assert_eq!(parse_linux_addr_port("0100007F:1F90:1"), None);
    assert_eq!(parse_linux_addr_port("0100007G:1F90"), None);
    assert_eq!(parse_linux_addr_port("0100007F:10000"), None);
    assert_eq!(parse_linux_addr_port("100000000:0050"), None);
    assert_eq!(parse_linux_addr_port(":0050"), None);
    let (_, port) = parse_linux_addr_port("+0:+ffff").unwrap();
    assert_eq!(port, 65535);
}

#[test]
fn linux_v6_pairs() {
    let (ip, port) = parse_linux_addr_port_v6("00000000000000000000000000000000:1F90").unwrap();
    assert_eq!(ip, BindAddress::V6([0; 16]));
    assert_eq!(port, 8080);
    // ::1 as the kernel writes it on a little-endian machine
    let (ip, _) = parse_linux_addr_port_v6("00000000000000000000000001000000:0016").unwrap();
    assert_eq!(address_string(&ip), "::1");
    // ::ffff:127.0.0.1 becomes the IPv4 address
    let (ip, _) = parse_linux_addr_port_v6("0000000000000000FFFF00000100007F:0050").unwrap();
    assert_eq!(ip, BindAddress::V4([127, 0, 0, 1]));
    assert_eq!(parse_linux_addr_port_v6("0000:0050"), None);
    // a group that is no hex number counts as zero
    let (ip, _) = parse_linux_addr_port_v6("ZZZZZZZZ000000000000000001000000:0016").unwrap();
    assert_eq!(address_string(&ip), "::1");
}

#[test]
fn address_texts() {
    assert_eq!(address_string(&addr("127.0.0.1")), "127.0.0.1");
    assert_eq!(address_string(&addr("::")), "::");
    assert_eq!(address_string(&addr("::1")), "::1");
    assert_eq!(address_string(&addr("fe80::1:0:0:2")), "fe80::1:0:0:2");
    assert_eq!(address_string(&addr("1:0:0:2:0:0:0:3")), "1:0:0:2::3");
    assert_eq!(address_string(&addr("1:0:2:3:4:5:6:7")), "1:0:2:3:4:5:6:7");
    assert_eq!(address_string(&addr("::ffff:10.0.0.1")), "::ffff:10.0.0.1");
    assert_eq!(address_string(&addr("2001:DB8::ABCD")), "2001:db8::abcd");
}

#[test]
fn addresses_that_do_not_parse() {
    assert_eq!(parse_address("01.2.3.4"), None);
    assert_eq!(parse_address("256.0.0.1"), None);
    assert_eq!(parse_address("1.2.3"), None);
    assert_eq!(parse_address("1:2:3:4:5:6:7:8:9"), None);
    assert_eq!(parse_address("1::2::3"), None);
    assert_eq!(parse_address("12345::"), None);
    assert_eq!(parse_address(""), None);
    assert_eq!(parse_address("::1.2.3.4"), Some(BindAddress::V6([0, 0, 0, 0, 0, 0, 0, 0, 0, 0, 0, 0, 1, 2, 3, 4])));
}
