use vstd::prelude::*;
use vstd::endian::{endianness, Endian};

use crate::text::{
    ascii_lower, ascii_upper, char_index_at, char_index_of_byte, is_ascii_text, chars_of, copy_range, parse_unsigned, parse_unsigned_chars,
    split_once_exactly, split_pair, to_uppercase, uppercase_of, utf8_len, utf8_len_capped,
};

verus! {

// ---------------------------------------------------------------------------
// Protocol and connection state
// ---------------------------------------------------------------------------

/// Transport protocol of a socket.
#[derive(Debug, Clone, Copy, PartialEq, Eq, Structural)]
pub enum Protocol {
    TCP,
    UDP,
}

impl Protocol {
    /// The name the protocol is shown by.
    pub open spec fn text(self) -> Seq<char> {
        match self {
            Protocol::TCP => "TCP"@,
            Protocol::UDP => "UDP"@,
        }
    }

    /// The name the protocol is shown by (`TCP` or `UDP`).
    pub fn as_str(&self) -> (r: &'static str)
        ensures
            r@ == self.text(),
    {
        match self {
            Protocol::TCP => "TCP",
            Protocol::UDP => "UDP",
        }
    }
}

/// State of a socket, as reported by the operating system.
#[derive(Debug, Clone, Copy, PartialEq, Eq, Structural)]
pub enum ConnectionState {
    Listen,
    Established,
    TimeWait,
    CloseWait,
    SynSent,
    SynRecv,
    FinWait1,
    FinWait2,
    Closing,
    LastAck,
    Unknown,
}

/// The state that a Linux `/proc/net/tcp` state code, in upper case, stands for
/// (see `include/net/tcp_states.h`).
pub open spec fn linux_state(code: Seq<char>) -> ConnectionState {
    if code == seq!['0', 'A'] {
        ConnectionState::Listen
    } else if code == seq!['0', '1'] {
        ConnectionState::Established
    } else if code == seq!['0', '6'] {
        ConnectionState::TimeWait
    } else if code == seq!['0', '8'] {
        ConnectionState::CloseWait
    } else if code == seq!['0', '2'] {
        ConnectionState::SynSent
    } else if code == seq!['0', '3'] {
        ConnectionState::SynRecv
    } else if code == seq!['0', '4'] {
        ConnectionState::FinWait1
    } else if code == seq!['0', '5'] {
        ConnectionState::FinWait2
    } else if code == seq!['0', 'B'] {
        ConnectionState::Closing
    } else if code == seq!['0', '9'] {
        ConnectionState::LastAck
    } else {
        ConnectionState::Unknown
    }
}

/// The state that a Windows `MIB_TCP_STATE` code stands for.
pub open spec fn windows_state(code: u32) -> ConnectionState {
    if code == 2 {
        ConnectionState::Listen
    } else if code == 3 {
        ConnectionState::SynSent
    } else if code == 4 {
        ConnectionState::SynRecv
    } else if code == 5 {
        ConnectionState::Established
    } else if code == 6 {
        ConnectionState::FinWait1
    } else if code == 7 {
        ConnectionState::FinWait2
    } else if code == 8 {
        ConnectionState::CloseWait
    } else if code == 9 {
        ConnectionState::Closing
    } else if code == 10 {
        ConnectionState::LastAck
    } else if code == 11 {
        ConnectionState::TimeWait
    } else {
        ConnectionState::Unknown
    }
}

impl ConnectionState {
    /// The name the state is shown by.
    pub open spec fn text(self) -> Seq<char> {
        match self {
            ConnectionState::Listen => "LISTEN"@,
            ConnectionState::Established => "ESTABLISHED"@,
            ConnectionState::TimeWait => "TIME_WAIT"@,
            ConnectionState::CloseWait => "CLOSE_WAIT"@,
            ConnectionState::SynSent => "SYN_SENT"@,
            ConnectionState::SynRecv => "SYN_RECV"@,
            ConnectionState::FinWait1 => "FIN_WAIT1"@,
            ConnectionState::FinWait2 => "FIN_WAIT2"@,
            ConnectionState::Closing => "CLOSING"@,
            ConnectionState::LastAck => "LAST_ACK"@,
            ConnectionState::Unknown => "UNKNOWN"@,
        }
    }

    /// The name the state is shown by (`LISTEN`, `TIME_WAIT`, ...).
    pub fn as_str(&self) -> (r: &'static str)
        ensures
            r@ == self.text(),
    {
        match self {
            ConnectionState::Listen => "LISTEN",
            ConnectionState::Established => "ESTABLISHED",
            ConnectionState::TimeWait => "TIME_WAIT",
            ConnectionState::CloseWait => "CLOSE_WAIT",
            ConnectionState::SynSent => "SYN_SENT",
            ConnectionState::SynRecv => "SYN_RECV",
            ConnectionState::FinWait1 => "FIN_WAIT1",
            ConnectionState::FinWait2 => "FIN_WAIT2",
            ConnectionState::Closing => "CLOSING",
            ConnectionState::LastAck => "LAST_ACK",
            ConnectionState::Unknown => "UNKNOWN",
        }
    }

    /// The state for a `/proc/net/tcp` state code that is already in upper case.
    pub fn from_upper_linux_hex(code: &str) -> (r: Self)
        ensures
            r == linux_state(code@),
    {
        let c = chars_of(code);
        if c.len() != 2 || c[0] != '0' {
            proof {
                if c@.len() == 2 {
                    assert(c@[0] != '0');
                }
                assert(seq!['0', 'A'][0] == '0');
                assert(seq!['0', 'A'].len() == 2);
                assert forall|d: char| seq!['0', d] != code@ by {
                    assert(seq!['0', d][0] == '0');
                    assert(seq!['0', d].len() == 2);
                }
            }
            return ConnectionState::Unknown;
        }
        let d = c[1];
        assert(code@ =~= seq!['0', d]);
        assert forall|e: char| e != d implies seq!['0', e] != code@ by {
            assert(seq!['0', e][1] == e);
        }
        match d {
            'A' => ConnectionState::Listen,
            '1' => ConnectionState::Established,
            '6' => ConnectionState::TimeWait,
            '8' => ConnectionState::CloseWait,
            '2' => ConnectionState::SynSent,
            '3' => ConnectionState::SynRecv,
            '4' => ConnectionState::FinWait1,
            '5' => ConnectionState::FinWait2,
            'B' => ConnectionState::Closing,
            '9' => ConnectionState::LastAck,
            _ => ConnectionState::Unknown,
        }
    }

    /// Parse a Linux `/proc/net/tcp` state code (hex, either case).
    pub fn from_linux_hex(hex: &str) -> (r: Self)
        ensures
            r == linux_state(uppercase_of(hex@)),
            is_ascii_text(hex@) ==> r == linux_state(hex@.map_values(|c: char| ascii_upper(c))),
    {
        let upper = to_uppercase(hex);
        Self::from_upper_linux_hex(upper.as_str())
    }

    /// Parse a Windows TCP state (the `MIB_TCP_STATE` constants).
    pub fn from_windows_state(state: u32) -> (r: Self)
        ensures
            r == windows_state(state),
    {
        match state {
            1 => ConnectionState::Unknown,
            2 => ConnectionState::Listen,
            3 => ConnectionState::SynSent,
            4 => ConnectionState::SynRecv,
            5 => ConnectionState::Established,
            6 => ConnectionState::FinWait1,
            7 => ConnectionState::FinWait2,
            8 => ConnectionState::CloseWait,
            9 => ConnectionState::Closing,
            10 => ConnectionState::LastAck,
            11 => ConnectionState::TimeWait,
            12 => ConnectionState::Unknown,
            _ => ConnectionState::Unknown,
        }
    }
}

} // verus!
verus! {

// ---------------------------------------------------------------------------
// Addresses
// ---------------------------------------------------------------------------

/// The IP address a socket is bound to, by its octets in network order.
#[derive(Debug, Clone, Copy, PartialEq, Eq)]
pub enum BindAddress {
    V4([u8; 4]),
    V6([u8; 16]),
}

impl BindAddress {
    /// The address's octets, most significant first.
    pub open spec fn octets(self) -> Seq<u8> {
        match self {
            BindAddress::V4(o) => o@,
            BindAddress::V6(o) => o@,
        }
    }

    /// The address is `0.0.0.0` or `::`.
    pub open spec fn unspecified(self) -> bool {
        forall|i: int| 0 <= i < self.octets().len() ==> #[trigger] self.octets()[i] == 0
    }
}

/// The IPv4 address with octets `o` (four of them).
pub open spec fn ipv4(o: Seq<u8>) -> BindAddress {
    BindAddress::V4(choose|a: [u8; 4]| a@ == o)
}

/// The IPv6 address with octets `o` (sixteen of them).
pub open spec fn ipv6(o: Seq<u8>) -> BindAddress {
    BindAddress::V6(choose|a: [u8; 16]| a@ == o)
}

pub proof fn lemma_ipv4(a: [u8; 4])
    ensures
        ipv4(a@) == BindAddress::V4(a),
{
    let b = choose|b: [u8; 4]| b@ == a@;
    assert(b@ == a@);
    assert(b =~= a);
}

pub proof fn lemma_ipv6(a: [u8; 16])
    ensures
        ipv6(a@) == BindAddress::V6(a),
{
    let b = choose|b: [u8; 16]| b@ == a@;
    assert(b@ == a@);
    assert(b =~= a);
}

/// Check if an IP address is bound to all interfaces (`0.0.0.0` or `::`).
pub fn is_public_bind(addr: &BindAddress) -> (r: bool)
    ensures
        r == addr.unspecified(),
{
    match addr {
        BindAddress::V4(o) => {
            let r = o[0] == 0 && o[1] == 0 && o[2] == 0 && o[3] == 0;
            proof {
                assert(addr.octets() == o@);
                if o@[0] != 0 {
                    assert(addr.octets()[0] != 0);
                } else if o@[1] != 0 {
                    assert(addr.octets()[1] != 0);
                } else if o@[2] != 0 {
                    assert(addr.octets()[2] != 0);
                } else if o@[3] != 0 {
                    assert(addr.octets()[3] != 0);
                }
            }
            r
        },
        BindAddress::V6(o) => {
            let mut i: usize = 0;
            while i < 16
                invariant
                    i <= 16,
                    addr.octets() == o@,
                    o@.len() == 16,
                    forall|k: int| 0 <= k < i ==> o@[k] == 0,
                decreases 16 - i,
            {
                if o[i] != 0 {
                    assert(addr.octets()[i as int] != 0);
                    return false;
                }
                i += 1;
            }
            true
        },
    }
}

/// The bytes of `x`, least significant first.
pub open spec fn le_bytes(x: u32) -> Seq<u8> {
    seq![
        (x % 256) as u8,
        ((x / 256) % 256) as u8,
        ((x / 65536) % 256) as u8,
        (x / 16777216) as u8,
    ]
}

/// The bytes of `x`, most significant first.
pub open spec fn be_bytes(x: u32) -> Seq<u8> {
    seq![
        (x / 16777216) as u8,
        ((x / 65536) % 256) as u8,
        ((x / 256) % 256) as u8,
        (x % 256) as u8,
    ]
}

/// The bytes of `x` in the byte order of the machine that runs the code.
pub open spec fn native_bytes(x: u32) -> Seq<u8> {
    match endianness() {
        Endian::Little => le_bytes(x),
        Endian::Big => be_bytes(x),
    }
}

/// Trusted: calls std's `u32::to_ne_bytes`, which the contract states
/// as the bytes of `x` in the machine's byte order (vstd's `endianness`).
#[verifier::external_body]
fn to_native_bytes(x: u32) -> (r: [u8; 4])
    ensures
        r@ == native_bytes(x),
{
    x.to_ne_bytes()
}

/// Convert a u32 in network byte order (as stored in /proc/net/tcp) to an
/// IPv4 address: its octets are the u32's bytes in the machine's order.
pub fn u32_to_ipv4(addr: u32) -> (r: BindAddress)
    ensures
        r == ipv4(native_bytes(addr)),
{
    let b = to_native_bytes(addr);
    proof {
        lemma_ipv4(b);
    }
    BindAddress::V4(b)
}

/// The address and port numbers of a `/proc/net/tcp` "address:port" pair,
/// both hex, as `from_str_radix` reads them.
pub open spec fn linux_v4_fields(s: Seq<char>) -> Option<(int, int)> {
    match split_pair(s, ':') {
        Some((a, p)) => match (parse_unsigned(a, 16, 0xffff_ffff), parse_unsigned(p, 16, 0xffff)) {
            (Some(x), Some(y)) => Some((x, y)),
            _ => None,
        },
        None => None,
    }
}

/// The address and port of a `/proc/net/tcp` "address:port" pair.
pub open spec fn linux_addr_port(s: Seq<char>) -> Option<(BindAddress, u16)> {
    match linux_v4_fields(s) {
        Some((a, p)) => Some((ipv4(native_bytes(a as u32)), p as u16)),
        None => None,
    }
}

/// Parse a hex "address:port" pair from /proc/net/tcp format.
/// Example: "0100007F:1F90" gives (127.0.0.1, 8080) on a little-endian machine.
pub fn parse_linux_addr_port(s: &str) -> (r: Option<(BindAddress, u16)>)
    ensures
        r == linux_addr_port(s@),
{
    let c = chars_of(s);
    let (a, p) = match split_once_exactly(c.as_slice(), ':') {
        Some(parts) => parts,
        None => return None,
    };
    let addr_raw = match parse_unsigned_chars(a.as_slice(), 16, 0xffff_ffff) {
        Some(v) => v,
        None => return None,
    };
    let port = match parse_unsigned_chars(p.as_slice(), 16, 0xffff) {
        Some(v) => v,
        None => return None,
    };
    let ip = u32_to_ipv4(addr_raw as u32);
    Some((ip, port as u16))
}

/// The hex address and the port of a `/proc/net/tcp6` "address:port" pair,
/// when the pair has two parts, the address is 32 bytes long and the port parses.
pub open spec fn linux_v6_fields(s: Seq<char>) -> Option<(Seq<char>, int)> {
    match split_pair(s, ':') {
        Some((h, p)) => if utf8_len(h) == 32 {
            match parse_unsigned(p, 16, 0xffff) {
                Some(y) => Some((h, y)),
                None => None,
            }
        } else {
            None
        },
        None => None,
    }
}

/// The value of one 8-hex-digit group; a group that does not parse counts as 0.
pub open spec fn group_value(g: Seq<char>) -> u32 {
    match parse_unsigned(g, 16, 0xffff_ffff) {
        Some(v) => v as u32,
        None => 0,
    }
}

/// The four 8-byte groups of a 32-byte hex address, or `None` when one of
/// the group boundaries falls inside a character (slicing the text there
/// panics).
pub open spec fn v6_groups(h: Seq<char>) -> Option<Seq<Seq<char>>> {
    let k1 = char_index_at(h, 8);
    let h1 = h.skip(k1);
    let k2 = char_index_at(h1, 8);
    let h2 = h1.skip(k2);
    let k3 = char_index_at(h2, 8);
    if k1 >= 0 && k2 >= 0 && k3 >= 0 {
        Some(seq![h.take(k1), h1.take(k2), h2.take(k3), h2.skip(k3)])
    } else {
        None
    }
}

/// The octets of a `/proc/net/tcp6` address: each group's value in the
/// machine's byte order.
pub open spec fn v6_octets(g: Seq<Seq<char>>) -> Seq<u8> {
    native_bytes(group_value(g[0])) + native_bytes(group_value(g[1])) + native_bytes(
        group_value(g[2]),
    ) + native_bytes(group_value(g[3]))
}

/// The octets are an IPv4-mapped IPv6 address (`::ffff:a.b.c.d`).
pub open spec fn is_v4_mapped(o: Seq<u8>) -> bool {
    &&& o.len() == 16
    &&& forall|i: int| 0 <= i < 10 ==> #[trigger] o[i] == 0
    &&& o[10] == 0xff
    &&& o[11] == 0xff
}

/// The address that IPv6 octets `o` stand for: the IPv4 address for a
/// mapped one, else the IPv6 address itself.
pub open spec fn v6_or_mapped(o: Seq<u8>) -> BindAddress {
    if is_v4_mapped(o) {
        ipv4(o.subrange(12, 16))
    } else {
        ipv6(o)
    }
}

/// The address and port of a `/proc/net/tcp6` "address:port" pair.
pub open spec fn linux_addr_port_v6(s: Seq<char>) -> Option<(BindAddress, u16)> {
    match linux_v6_fields(s) {
        Some((h, p)) => Some((v6_or_mapped(v6_octets(v6_groups(h)->0)), p as u16)),
        None => None,
    }
}

/// Parsing `s` as a `/proc/net/tcp6` pair does not slice inside a character.
pub open spec fn v6_pair_splittable(s: Seq<char>) -> bool {
    linux_v6_fields(s) matches Some((h, _)) ==> v6_groups(h) is Some
}

fn split_off_bytes(h: &[char], n: usize) -> (r: Option<(Vec<char>, Vec<char>)>)
    ensures
        match r {
            Some((a, b)) => char_index_at(h@, n as int) >= 0 && a@ == h@.take(
                char_index_at(h@, n as int),
            ) && b@ == h@.skip(char_index_at(h@, n as int)),
            None => char_index_at(h@, n as int) < 0,
        },
{
    match char_index_of_byte(h, n) {
        Some(k) => Some((copy_range(h, 0, k), copy_range(h, k, h.len()))),
        None => None,
    }
}

fn group_value_of(g: &[char]) -> (r: u32)
    ensures
        r == group_value(g@),
{
    match parse_unsigned_chars(g, 16, 0xffff_ffff) {
        Some(v) => v as u32,
        None => 0,
    }
}

fn mapped_v4(o: &[u8; 16]) -> (r: bool)
    ensures
        r == is_v4_mapped(o@),
{
    let mut i: usize = 0;
    while i < 10
        invariant
            i <= 10,
            o@.len() == 16,
            forall|k: int| 0 <= k < i ==> o@[k] == 0,
        decreases 10 - i,
    {
        if o[i] != 0 {
            return false;
        }
        i += 1;
    }
    o[10] == 0xff && o[11] == 0xff
}

/// Parse a hex "address:port" pair from /proc/net/tcp6 format.
/// Example: "00000000000000000000000000000000:1F90" gives (::, 8080).
pub fn parse_linux_addr_port_v6(s: &str) -> (r: Option<(BindAddress, u16)>)
    requires
        v6_pair_splittable(s@),
    ensures
        r == linux_addr_port_v6(s@),
{
    let c = chars_of(s);
    let (h, p) = match split_once_exactly(c.as_slice(), ':') {
        Some(parts) => parts,
        None => return None,
    };
    if utf8_len_capped(h.as_slice(), 32) != 32 {
        return None;
    }
    let port = match parse_unsigned_chars(p.as_slice(), 16, 0xffff) {
        Some(v) => v as u16,
        None => return None,
    };
    let ghost hv = h@;
    let (g0, h1) = match split_off_bytes(h.as_slice(), 8) {
        Some(parts) => parts,
        None => return None,
    };
    let (g1, h2) = match split_off_bytes(h1.as_slice(), 8) {
        Some(parts) => parts,
        None => return None,
    };
    let (g2, g3) = match split_off_bytes(h2.as_slice(), 8) {
        Some(parts) => parts,
        None => return None,
    };
    let ghost groups = seq![g0@, g1@, g2@, g3@];
    assert(v6_groups(hv) == Some(groups));
    let b0 = to_native_bytes(group_value_of(g0.as_slice()));
    let b1 = to_native_bytes(group_value_of(g1.as_slice()));
    let b2 = to_native_bytes(group_value_of(g2.as_slice()));
    let b3 = to_native_bytes(group_value_of(g3.as_slice()));
    let octets: [u8; 16] = [
        b0[0], b0[1], b0[2], b0[3],
        b1[0], b1[1], b1[2], b1[3],
        b2[0], b2[1], b2[2], b2[3],
        b3[0], b3[1], b3[2], b3[3],
    ];
    assert(octets@ =~= v6_octets(groups));
    if mapped_v4(&octets) {
        let v4: [u8; 4] = [octets[12], octets[13], octets[14], octets[15]];
        assert(v4@ =~= octets@.subrange(12, 16));
        proof {
            lemma_ipv4(v4);
        }
        Some((BindAddress::V4(v4), port))
    } else {
        proof {
            lemma_ipv6(octets);
        }
        Some((BindAddress::V6(octets), port))
    }
}

} // verus!
verus! {

// ---------------------------------------------------------------------------
// Well-known services
// ---------------------------------------------------------------------------

/// The name of the service that conventionally uses `port`, if it is one of
/// the well-known ports the tool knows.
pub open spec fn well_known(port: u16) -> Option<Seq<char>> {
    if port == 20 {
        Some("ftp-data"@)
    } else if port == 21 {
        Some("ftp"@)
    } else if port == 22 {
        Some("ssh"@)
    } else if port == 23 {
        Some("telnet"@)
    } else if port == 25 {
        Some("smtp"@)
    } else if port == 53 {
        Some("dns"@)
    } else if port == 67 {
        Some("dhcp-server"@)
    } else if port == 68 {
        Some("dhcp-client"@)
    } else if port == 80 {
        Some("http"@)
    } else if port == 110 {
        Some("pop3"@)
    } else if port == 123 {
        Some("ntp"@)
    } else if port == 143 {
        Some("imap"@)
    } else if port == 161 {
        Some("snmp"@)
    } else if port == 389 {
        Some("ldap"@)
    } else if port == 443 {
        Some("https"@)
    } else if port == 445 {
        Some("smb"@)
    } else if port == 465 {
        Some("smtps"@)
    } else if port == 587 {
        Some("submission"@)
    } else if port == 631 {
        Some("ipp"@)
    } else if port == 993 {
        Some("imaps"@)
    } else if port == 995 {
        Some("pop3s"@)
    } else if port == 1433 {
        Some("mssql"@)
    } else if port == 1521 {
        Some("oracle"@)
    } else if port == 3306 {
        Some("mysql"@)
    } else if port == 3389 {
        Some("rdp"@)
    } else if port == 5432 {
        Some("postgresql"@)
    } else if port == 5672 {
        Some("amqp"@)
    } else if port == 5900 {
        Some("vnc"@)
    } else if port == 6379 {
        Some("redis"@)
    } else if port == 8080 {
        Some("http-alt"@)
    } else if port == 8443 {
        Some("https-alt"@)
    } else if port == 9090 {
        Some("prometheus"@)
    } else if port == 9200 {
        Some("elasticsearch"@)
    } else if port == 11211 {
        Some("memcached"@)
    } else if port == 27017 {
        Some("mongodb"@)
    } else {
        None
    }
}

/// Well-known port to service name lookup.
pub fn well_known_service(port: u16) -> (r: Option<&'static str>)
    ensures
        match r {
            Some(s) => well_known(port) == Some(s@),
            None => well_known(port) is None,
        },
{
    match port {
        20 => Some("ftp-data"),
        21 => Some("ftp"),
        22 => Some("ssh"),
        23 => Some("telnet"),
        25 => Some("smtp"),
        53 => Some("dns"),
        67 => Some("dhcp-server"),
        68 => Some("dhcp-client"),
        80 => Some("http"),
        110 => Some("pop3"),
        123 => Some("ntp"),
        143 => Some("imap"),
        161 => Some("snmp"),
        389 => Some("ldap"),
        443 => Some("https"),
        445 => Some("smb"),
        465 => Some("smtps"),
        587 => Some("submission"),
        631 => Some("ipp"),
        993 => Some("imaps"),
        995 => Some("pop3s"),
        1433 => Some("mssql"),
        1521 => Some("oracle"),
        3306 => Some("mysql"),
        3389 => Some("rdp"),
        5432 => Some("postgresql"),
        5672 => Some("amqp"),
        5900 => Some("vnc"),
        6379 => Some("redis"),
        8080 => Some("http-alt"),
        8443 => Some("https-alt"),
        9090 => Some("prometheus"),
        9200 => Some("elasticsearch"),
        11211 => Some("memcached"),
        27017 => Some("mongodb"),
        _ => None,
    }
}

// ---------------------------------------------------------------------------
// Port entries
// ---------------------------------------------------------------------------

/// A port in use.
#[derive(Debug, Clone)]
pub struct PortEntry {
    pub port: u16,
    pub protocol: Protocol,
    pub state: ConnectionState,
    pub pid: Option<u32>,
    pub process_name: Option<String>,
    pub bind_address: BindAddress,
    pub is_public: bool,
}

/// The entry is flagged public exactly when it is bound to all interfaces.
pub open spec fn public_flag_agrees(e: PortEntry) -> bool {
    e.is_public == e.bind_address.unspecified()
}

impl PortEntry {
    /// A copy of the entry.
    pub fn duplicate(&self) -> (r: PortEntry)
        ensures
            r == *self,
    {
        let name = match &self.process_name {
            Some(n) => Some(n.clone()),
            None => None,
        };
        PortEntry {
            port: self.port,
            protocol: self.protocol,
            state: self.state,
            pid: self.pid,
            process_name: name,
            bind_address: self.bind_address,
            is_public: self.is_public,
        }
    }
}

} // verus!
verus! {

/// What a `PortEntry` holds, with the process name as characters.
pub struct EntryView {
    pub port: u16,
    pub protocol: Protocol,
    pub state: ConnectionState,
    pub pid: Option<u32>,
    pub process_name: Option<Seq<char>>,
    pub bind_address: BindAddress,
    pub is_public: bool,
}

impl View for PortEntry {
    type V = EntryView;

    open spec fn view(&self) -> EntryView {
        EntryView {
            port: self.port,
            protocol: self.protocol,
            state: self.state,
            pid: self.pid,
            process_name: match self.process_name {
                Some(n) => Some(n@),
                None => None,
            },
            bind_address: self.bind_address,
            is_public: self.is_public,
        }
    }
}

/// The views of a sequence of entries.
pub open spec fn entry_views(s: Seq<PortEntry>) -> Seq<EntryView> {
    s.map_values(|e: PortEntry| e@)
}

} // verus!
verus! {

/// Whether parsing `s` as a `/proc/net/tcp6` pair slices on character
/// boundaries only (else `parse_linux_addr_port_v6` must not be called, as
/// the slicing would panic).
pub fn v6_pair_is_splittable(s: &[char]) -> (r: bool)
    ensures
        r == v6_pair_splittable(s@),
{
    let (h, p) = match split_once_exactly(s, ':') {
        Some(parts) => parts,
        None => return true,
    };
    if utf8_len_capped(h.as_slice(), 32) != 32 {
        return true;
    }
    if parse_unsigned_chars(p.as_slice(), 16, 0xffff).is_none() {
        return true;
    }
    let (_g0, h1) = match split_off_bytes(h.as_slice(), 8) {
        Some(parts) => parts,
        None => return false,
    };
    let (_g1, h2) = match split_off_bytes(h1.as_slice(), 8) {
        Some(parts) => parts,
        None => return false,
    };
    match split_off_bytes(h2.as_slice(), 8) {
        Some(_) => true,
        None => false,
    }
}

/// Decoding a `/proc/net/tcp` state code ignores letter case: on ASCII text,
/// the code lowered or raised to ASCII lower or upper case (still ASCII)
/// decodes as the code itself does.
pub proof fn law_linux_state_ignores_case(hex: Seq<char>)
    requires
        is_ascii_text(hex),
    ensures
        is_ascii_text(hex.map_values(|c: char| ascii_lower(c))),
        is_ascii_text(hex.map_values(|c: char| ascii_upper(c))),
        linux_state(hex.map_values(|c: char| ascii_lower(c)).map_values(|c: char| ascii_upper(c)))
            == linux_state(hex.map_values(|c: char| ascii_upper(c))),
        linux_state(hex.map_values(|c: char| ascii_upper(c)).map_values(|c: char| ascii_upper(c)))
            == linux_state(hex.map_values(|c: char| ascii_upper(c))),
{
    let lo = hex.map_values(|c: char| ascii_lower(c));
    let up = hex.map_values(|c: char| ascii_upper(c));
    assert forall|i: int| 0 <= i < lo.len() implies (#[trigger] lo[i] as u32) < 128 by {
        assert((hex[i] as u32) < 128);
    }
    assert forall|i: int| 0 <= i < up.len() implies (#[trigger] up[i] as u32) < 128 by {
        assert((hex[i] as u32) < 128);
    }
    assert(lo.map_values(|c: char| ascii_upper(c)) =~= up);
    assert(up.map_values(|c: char| ascii_upper(c)) =~= up);
}

/// The kernel's TCP states (`include/net/tcp_states.h`) with their codes as
/// `/proc/net/tcp` writes them (two upper-case hex digits) and the names
/// they are shown by; `TCP_CLOSE` (07) has no state of its own here.
pub open spec fn kernel_tcp_states() -> Seq<(Seq<char>, Seq<char>)> {
    seq![
        (seq!['0', '1'], "ESTABLISHED"@),
        (seq!['0', '2'], "SYN_SENT"@),
        (seq!['0', '3'], "SYN_RECV"@),
        (seq!['0', '4'], "FIN_WAIT1"@),
        (seq!['0', '5'], "FIN_WAIT2"@),
        (seq!['0', '6'], "TIME_WAIT"@),
        (seq!['0', '7'], "UNKNOWN"@),
        (seq!['0', '8'], "CLOSE_WAIT"@),
        (seq!['0', '9'], "LAST_ACK"@),
        (seq!['0', 'A'], "LISTEN"@),
        (seq!['0', 'B'], "CLOSING"@),
    ]
}

/// The `MIB_TCP_STATE` constants with the names of the states they stand
/// for (`DELETE_TCB`, 12, and `CLOSED`, 1, have no state of their own here).
pub open spec fn mib_tcp_states() -> Seq<(u32, Seq<char>)> {
    seq![
        (1u32, "UNKNOWN"@),
        (2u32, "LISTEN"@),
        (3u32, "SYN_SENT"@),
        (4u32, "SYN_RECV"@),
        (5u32, "ESTABLISHED"@),
        (6u32, "FIN_WAIT1"@),
        (7u32, "FIN_WAIT2"@),
        (8u32, "CLOSE_WAIT"@),
        (9u32, "CLOSING"@),
        (10u32, "LAST_ACK"@),
        (11u32, "TIME_WAIT"@),
        (12u32, "UNKNOWN"@),
    ]
}

/// Each `/proc/net/tcp` state code decodes to the kernel state of that
/// number, shown by the kernel's name; distinct codes of known states
/// decode to distinct states; any other code is UNKNOWN.
pub proof fn law_linux_states(a: Seq<char>, b: Seq<char>)
    ensures
        forall|i: int|
            0 <= i < kernel_tcp_states().len() ==> (#[trigger] linux_state(
                kernel_tcp_states()[i].0,
            )).text() == kernel_tcp_states()[i].1,
        linux_state(a) == linux_state(b) && linux_state(a) != ConnectionState::Unknown ==> a == b,
        (forall|i: int| 0 <= i < kernel_tcp_states().len() ==> kernel_tcp_states()[i].0 != a)
            ==> linux_state(a) == ConnectionState::Unknown,
{
    let t = kernel_tcp_states();
    assert(t[0].0 == seq!['0', '1'] && t[1].0 == seq!['0', '2'] && t[2].0 == seq!['0', '3']);
    assert(t[3].0 == seq!['0', '4'] && t[4].0 == seq!['0', '5'] && t[5].0 == seq!['0', '6']);
    assert(t[6].0 == seq!['0', '7'] && t[7].0 == seq!['0', '8'] && t[8].0 == seq!['0', '9']);
    assert(t[9].0 == seq!['0', 'A'] && t[10].0 == seq!['0', 'B']);
    assert forall|i: int| 0 <= i < t.len() implies (#[trigger] linux_state(t[i].0)).text()
        == t[i].1 by {
        assert(seq!['0', '7'] != seq!['0', '1'] && seq!['0', '7'] != seq!['0', '2']) by {
            assert(seq!['0', '7'][1] == '7');
        }
        if i == 6 {
            lemma_two_chars_differ('7');
        } else if i == 0 {
        } else {
            lemma_two_chars_differ(t[i].0[1]);
        }
    }
    if linux_state(a) != ConnectionState::Unknown && linux_state(a) == linux_state(b) {
        assert(a =~= b);
    }
}

proof fn lemma_two_chars_differ(d: char)
    ensures
        forall|e: char| e != d ==> seq!['0', e] != seq!['0', d],
{
    assert forall|e: char| e != d implies seq!['0', e] != seq!['0', d] by {
        assert(seq!['0', e][1] == e);
        assert(seq!['0', d][1] == d);
    }
}

/// Each `MIB_TCP_STATE` constant decodes to the state of that name, and the
/// Linux and Windows decoders agree: a kernel code and a MIB constant give
/// the same state exactly when they name the same state.
pub proof fn law_windows_states()
    ensures
        forall|i: int|
            0 <= i < mib_tcp_states().len() ==> (#[trigger] windows_state(
                mib_tcp_states()[i].0,
            )).text() == mib_tcp_states()[i].1,
        forall|w: u32| w == 0 || w > 12 ==> #[trigger] windows_state(w) == ConnectionState::Unknown,
        forall|i: int, j: int|
            0 <= i < kernel_tcp_states().len() && 0 <= j < mib_tcp_states().len() ==> (
            #[trigger] linux_state(kernel_tcp_states()[i].0) == #[trigger] windows_state(
                mib_tcp_states()[j].0,
            ) <==> kernel_tcp_states()[i].1 == mib_tcp_states()[j].1),
{
    law_linux_states(seq!['0', '1'], seq!['0', '1']);
    let m = mib_tcp_states();
    let k = kernel_tcp_states();
    assert forall|i: int| 0 <= i < m.len() implies (#[trigger] windows_state(m[i].0)).text()
        == m[i].1 by {}
    assert forall|i: int, j: int|
        0 <= i < k.len() && 0 <= j < m.len() implies (#[trigger] linux_state(k[i].0)
        == #[trigger] windows_state(m[j].0) <==> k[i].1 == m[j].1) by {
        assert(linux_state(k[i].0).text() == k[i].1);
        assert(windows_state(m[j].0).text() == m[j].1);
        lemma_state_text_injective(linux_state(k[i].0), windows_state(m[j].0));
    }
}

/// Distinct states are shown by distinct names.
proof fn lemma_state_text_injective(a: ConnectionState, b: ConnectionState)
    ensures
        a.text() == b.text() ==> a == b,
{
    reveal_strlit("ESTABLISHED");
    reveal_strlit("SYN_SENT");
    reveal_strlit("SYN_RECV");
    reveal_strlit("FIN_WAIT1");
    reveal_strlit("FIN_WAIT2");
    reveal_strlit("TIME_WAIT");
    reveal_strlit("UNKNOWN");
    reveal_strlit("CLOSE_WAIT");
    reveal_strlit("LAST_ACK");
    reveal_strlit("LISTEN");
    reveal_strlit("CLOSING");
    if a.text() == b.text() && a != b {
        let x = a.text();
        let y = b.text();
        assert(x.len() == y.len());
        assert(x[0] == y[0]);
        if x.len() == 8 || x.len() == 9 {
            assert(x[4] == y[4]);
            assert(x[5] == y[5]);
            assert(x[8] == y[8]);
        }
        if x.len() == 7 {
            assert(x[1] == y[1]);
        }
    }
}

/// The well-known services (IANA registrations and common defaults) by
/// port.
pub open spec fn service_registry() -> Seq<(u16, Seq<char>)> {
    seq![
        (20u16, "ftp-data"@),
        (21u16, "ftp"@),
        (22u16, "ssh"@),
        (23u16, "telnet"@),
        (25u16, "smtp"@),
        (53u16, "dns"@),
        (67u16, "dhcp-server"@),
        (68u16, "dhcp-client"@),
        (80u16, "http"@),
        (110u16, "pop3"@),
        (123u16, "ntp"@),
        (143u16, "imap"@),
        (161u16, "snmp"@),
        (389u16, "ldap"@),
        (443u16, "https"@),
        (445u16, "smb"@),
        (465u16, "smtps"@),
        (587u16, "submission"@),
        (631u16, "ipp"@),
        (993u16, "imaps"@),
        (995u16, "pop3s"@),
        (1433u16, "mssql"@),
        (1521u16, "oracle"@),
        (3306u16, "mysql"@),
        (3389u16, "rdp"@),
        (5432u16, "postgresql"@),
        (5672u16, "amqp"@),
        (5900u16, "vnc"@),
        (6379u16, "redis"@),
        (8080u16, "http-alt"@),
        (8443u16, "https-alt"@),
        (9090u16, "prometheus"@),
        (9200u16, "elasticsearch"@),
        (11211u16, "memcached"@),
        (27017u16, "mongodb"@),
    ]
}

/// The service lookup follows the registry: each registered port gives its
/// service, and every other port gives none.
pub proof fn law_well_known_services(port: u16)
    ensures
        forall|i: int|
            0 <= i < service_registry().len() ==> #[trigger] well_known(service_registry()[i].0)
                == Some(service_registry()[i].1),
        (forall|i: int| 0 <= i < service_registry().len() ==> service_registry()[i].0 != port)
            ==> well_known(port) is None,
{
    let r = service_registry();
    assert forall|i: int| 0 <= i < r.len() implies #[trigger] well_known(r[i].0) == Some(r[i].1) by {
    }
    if forall|i: int| 0 <= i < r.len() ==> r[i].0 != port {
        assert(r[0].0 != port);
        assert(r[1].0 != port);
        assert(r[2].0 != port);
        assert(r[3].0 != port);
        assert(r[4].0 != port);
        assert(r[5].0 != port);
        assert(r[6].0 != port);
        assert(r[7].0 != port);
        assert(r[8].0 != port);
        assert(r[9].0 != port);
        assert(r[10].0 != port);
        assert(r[11].0 != port);
        assert(r[12].0 != port);
        assert(r[13].0 != port);
        assert(r[14].0 != port);
        assert(r[15].0 != port);
        assert(r[16].0 != port);
        assert(r[17].0 != port);
        assert(r[18].0 != port);
        assert(r[19].0 != port);
        assert(r[20].0 != port);
        assert(r[21].0 != port);
        assert(r[22].0 != port);
        assert(r[23].0 != port);
        assert(r[24].0 != port);
        assert(r[25].0 != port);
        assert(r[26].0 != port);
        assert(r[27].0 != port);
        assert(r[28].0 != port);
        assert(r[29].0 != port);
        assert(r[30].0 != port);
        assert(r[31].0 != port);
        assert(r[32].0 != port);
        assert(r[33].0 != port);
        assert(r[34].0 != port);
    }
}

} // verus!
