use vstd::prelude::*;
use vstd::endian::{endianness, Endian};
use vstd::string::StringExecFns;

use crate::model::{
    is_public_bind, public_flag_agrees, windows_state, BindAddress, ConnectionState, PortEntry,
    Protocol,
};
use crate::scanner::{sort_by_port, sorted_by_port, stably_sorted, ScanError};
use crate::text::{decimal, decimal_string};

verus! {

/// Scanner that reads the Windows IP Helper tables.
pub struct WindowsScanner;

/// `x` with its two bytes swapped.
pub open spec fn swap_bytes_u16(x: u16) -> u16 {
    ((x % 256) * 256 + x / 256) as u16
}

/// `x` read as big-endian: unchanged on a big-endian machine, bytes swapped
/// on a little-endian one.
pub open spec fn from_big_endian(x: u16) -> u16 {
    match endianness() {
        Endian::Little => swap_bytes_u16(x),
        Endian::Big => x,
    }
}

/// Trusted: calls std's `u16::from_be`, which the contract states as a byte
/// swap on a little-endian machine and the identity on a big-endian one
/// (vstd's `endianness`).
#[verifier::external_body]
fn u16_from_be(x: u16) -> (r: u16)
    ensures
        r == from_big_endian(x),
{
    u16::from_be(x)
}

/// The port of a table row: the low 16 bits of `dwLocalPort`, which hold it
/// in network byte order.
pub fn windows_port(dw_local_port: u32) -> (r: u16)
    ensures
        r == from_big_endian((dw_local_port % 65536) as u16),
{
    assert(((dw_local_port & 0xFFFF) as u16) == ((dw_local_port % 65536) as u16)) by (bit_vector);
    u16_from_be((dw_local_port & 0xFFFF) as u16)
}

/// The entry that one row of a TCP or UDP table stands for.
pub open spec fn row_entry_of(
    protocol: Protocol,
    bind: BindAddress,
    dw_local_port: u32,
    tcp_state: Option<u32>,
    pid: u32,
) -> PortEntry {
    PortEntry {
        port: from_big_endian((dw_local_port % 65536) as u16),
        protocol,
        state: match tcp_state {
            Some(s) => windows_state(s),
            None => ConnectionState::Listen,
        },
        pid: Some(pid),
        process_name: None,
        bind_address: bind,
        is_public: bind.unspecified(),
    }
}

/// The entry for one row of a TCP or UDP table bound to `bind`. TCP rows
/// carry a `MIB_TCP_STATE`; UDP rows have none and count as LISTEN.
pub fn row_entry(
    protocol: Protocol,
    bind: BindAddress,
    dw_local_port: u32,
    tcp_state: Option<u32>,
    pid: u32,
) -> (r: PortEntry)
    ensures
        r == row_entry_of(protocol, bind, dw_local_port, tcp_state, pid),
{
    let state = match tcp_state {
        Some(s) => ConnectionState::from_windows_state(s),
        None => ConnectionState::Listen,
    };
    let is_public = is_public_bind(&bind);
    PortEntry {
        port: windows_port(dw_local_port),
        protocol,
        state,
        pid: Some(pid),
        process_name: None,
        bind_address: bind,
        is_public,
    }
}

/// One row of an IP Helper table, as plain values: the local address (for
/// an IPv4 table, `u32_to_ipv4` of `dwLocalAddr`), `dwLocalPort`, the
/// `MIB_TCP_STATE` of a TCP row (none for UDP) and the owning process id.
pub struct TableRow {
    pub local_address: BindAddress,
    pub local_port: u32,
    pub state: Option<u32>,
    pub pid: u32,
}

/// The entries that the rows of a table stand for, in order.
pub open spec fn table_entries(protocol: Protocol, rows: Seq<TableRow>) -> Seq<PortEntry> {
    rows.map_values(
        |row: TableRow|
            row_entry_of(protocol, row.local_address, row.local_port, row.state, row.pid),
    )
}

/// Every entry of a table carries the table's protocol, the owning process
/// id, no process name yet, the public flag exactly when it is bound to all
/// interfaces, and, for a row without a TCP state (a UDP row), the LISTEN
/// state.
pub proof fn law_table_entries(protocol: Protocol, rows: Seq<TableRow>)
    ensures
        forall|i: int|
            0 <= i < table_entries(protocol, rows).len() ==> {
                let e = #[trigger] table_entries(protocol, rows)[i];
                &&& public_flag_agrees(e)
                &&& e.protocol == protocol
                &&& e.pid == Some(rows[i].pid)
                &&& e.process_name is None
                &&& rows[i].state is None ==> e.state == ConnectionState::Listen
            },
{
}

/// Appends the entries of a table's rows to `entries`.
pub fn append_table_rows(protocol: Protocol, rows: &[TableRow], entries: &mut Vec<PortEntry>)
    ensures
        final(entries)@ == old(entries)@ + table_entries(protocol, rows@),
{
    let ghost start = entries@;
    let mut i: usize = 0;
    while i < rows.len()
        invariant
            i <= rows@.len(),
            entries@ == start + table_entries(protocol, rows@.take(i as int)),
        decreases rows@.len() - i,
    {
        let row = &rows[i];
        let e = row_entry(protocol, row.local_address, row.local_port, row.state, row.pid);
        entries.push(e);
        assert(table_entries(protocol, rows@.take(i + 1)) =~= table_entries(
            protocol,
            rows@.take(i as int),
        ).push(e));
        i += 1;
    }
    assert(rows@.take(i as int) =~= rows@);
}

/// Two entries describe the same socket: same port, protocol and address.
pub open spec fn same_socket(a: PortEntry, b: PortEntry) -> bool {
    a.port == b.port && a.protocol == b.protocol && a.bind_address == b.bind_address
}

/// `s` with every entry dropped that describes the same socket as the
/// entry kept just before it (std's `dedup_by`).
pub open spec fn dedup_sockets(s: Seq<PortEntry>) -> Seq<PortEntry>
    decreases s.len(),
{
    if s.len() == 0 {
        s
    } else {
        let d = dedup_sockets(s.drop_last());
        if d.len() > 0 && same_socket(d.last(), s.last()) {
            d
        } else {
            d.push(s.last())
        }
    }
}

/// No two neighbouring entries of `s` describe the same socket.
pub open spec fn no_repeated_sockets(s: Seq<PortEntry>) -> bool {
    forall|i: int, j: int|
        0 <= i && j == i + 1 && j < s.len() ==> !same_socket(#[trigger] s[i], #[trigger] s[j])
}

/// What `dedup_sockets` leaves has no neighbouring entries for the same
/// socket, and it keeps a port order.
pub proof fn law_dedup_sockets(s: Seq<PortEntry>)
    ensures
        no_repeated_sockets(dedup_sockets(s)),
        sorted_by_port(s) ==> sorted_by_port(dedup_sockets(s)),
    decreases s.len(),
{
    if s.len() > 0 {
        let t = s.drop_last();
        let x = s.last();
        let d = dedup_sockets(t);
        law_dedup_sockets(t);
        if sorted_by_port(s) {
            assert forall|i: int, j: int| 0 <= i <= j < t.len() implies #[trigger] t[i].port
                <= #[trigger] t[j].port by {
                assert(t[i] == s[i] && t[j] == s[j]);
            }
            lemma_dedup_last(t);
            if t.len() > 0 {
                assert(t.last() == s[s.len() - 2]);
                assert(t.last().port <= x.port);
            }
        }
    }
}

/// The last entry of `dedup_sockets(s)` is on the same port as the last of
/// `s`, and (for a sorted `s`) no entry of it is on a later port.
proof fn lemma_dedup_last(s: Seq<PortEntry>)
    requires
        sorted_by_port(s),
    ensures
        s.len() > 0 ==> dedup_sockets(s).len() > 0 && dedup_sockets(s).last().port == s.last().port,
        forall|i: int|
            0 <= i < dedup_sockets(s).len() ==> (#[trigger] dedup_sockets(s)[i]).port <= s.last().port,
    decreases s.len(),
{
    if s.len() > 0 {
        let t = s.drop_last();
        assert forall|i: int, j: int| 0 <= i <= j < t.len() implies #[trigger] t[i].port
            <= #[trigger] t[j].port by {
            assert(t[i] == s[i] && t[j] == s[j]);
        }
        lemma_dedup_last(t);
        if t.len() > 0 {
            assert(t.last() == s[s.len() - 2]);
        }
    }
}

/// Dropping repeated sockets from entries that have none changes nothing.
pub proof fn law_dedup_sockets_idempotent(s: Seq<PortEntry>)
    ensures
        dedup_sockets(dedup_sockets(s)) == dedup_sockets(s),
{
    law_dedup_sockets(s);
    lemma_dedup_unrepeated(dedup_sockets(s));
}

proof fn lemma_dedup_unrepeated(s: Seq<PortEntry>)
    requires
        no_repeated_sockets(s),
    ensures
        dedup_sockets(s) == s,
    decreases s.len(),
{
    if s.len() > 0 {
        let t = s.drop_last();
        assert forall|i: int, j: int| 0 <= i && j == i + 1 && j < t.len() implies !same_socket(
            #[trigger] t[i],
            #[trigger] t[j],
        ) by {
            assert(t[i] == s[i] && t[j] == s[j]);
        }
        lemma_dedup_unrepeated(t);
        if t.len() > 0 {
            assert(!same_socket(s[s.len() - 2], s[s.len() - 1]));
            assert(t.last() == s[s.len() - 2]);
        }
        assert(t.push(s.last()) =~= s);
    }
}

fn same_address(a: &BindAddress, b: &BindAddress) -> (r: bool)
    ensures
        r == (*a == *b),
{
    match (*a, *b) {
        (BindAddress::V4(x), BindAddress::V4(y)) => {
            let mut i: usize = 0;
            while i < 4
                invariant
                    i <= 4,
                    *a == BindAddress::V4(x),
                    *b == BindAddress::V4(y),
                    x@.len() == 4,
                    y@.len() == 4,
                    forall|k: int| 0 <= k < i ==> x@[k] == y@[k],
                decreases 4 - i,
            {
                if x[i] != y[i] {
                    assert(x@[i as int] != y@[i as int]);
                    assert(x@ != y@);
                    return false;
                }
                i += 1;
            }
            assert(x =~= y);
            true
        },
        (BindAddress::V6(x), BindAddress::V6(y)) => {
            let mut i: usize = 0;
            while i < 16
                invariant
                    i <= 16,
                    *a == BindAddress::V6(x),
                    *b == BindAddress::V6(y),
                    x@.len() == 16,
                    y@.len() == 16,
                    forall|k: int| 0 <= k < i ==> x@[k] == y@[k],
                decreases 16 - i,
            {
                if x[i] != y[i] {
                    assert(x@[i as int] != y@[i as int]);
                    assert(x@ != y@);
                    return false;
                }
                i += 1;
            }
            assert(x =~= y);
            true
        },
        _ => false,
    }
}

/// Drops repeated sockets, as `dedup_by` on port, protocol and address does.
pub fn dedup_sockets_of(entries: Vec<PortEntry>) -> (r: Vec<PortEntry>)
    ensures
        r@ == dedup_sockets(entries@),
{
    let ghost orig = entries@;
    let mut out: Vec<PortEntry> = Vec::new();
    for e in it: entries.into_iter()
        invariant
            it.seq() == orig,
            out@ == dedup_sockets(orig.take(it.index() as int)),
    {
        let ghost k = it.index();
        assert(orig.take(k + 1).drop_last() =~= orig.take(k as int));
        assert(orig.take(k + 1).last() == e);
        let n = out.len();
        let dup = n > 0 && out[n - 1].port == e.port && out[n - 1].protocol == e.protocol
            && same_address(&out[n - 1].bind_address, &e.bind_address);
        if !dup {
            out.push(e);
        }
    }
    assert(orig.take(orig.len() as int) =~= orig);
    out
}

impl WindowsScanner {
    /// The entries of all tables, sorted by port with repeated sockets dropped.
    pub fn finish(entries: Vec<PortEntry>) -> (r: Vec<PortEntry>)
        ensures
            exists|u: Seq<PortEntry>| #[trigger] stably_sorted(u, entries@) && r@ == dedup_sockets(u),
            sorted_by_port(r@),
            no_repeated_sockets(r@),
    {
        let sorted = sort_by_port(entries);
        let ghost u = sorted@;
        let r = dedup_sockets_of(sorted);
        proof {
            law_dedup_sockets(u);
        }
        assert(stably_sorted(u, entries@) && r@ == dedup_sockets(u));
        r
    }
}

/// What to do next while reading an IP Helper table.
pub enum TableAction {
    /// Call the API again with a buffer of this many bytes.
    Call { buffer_size: u32 },
    /// The last call filled the buffer.
    Finish,
    /// Give up with this error.
    Fail(ScanError),
}

/// The message for a table query that failed twice.
pub open spec fn query_failed_text(code: u32) -> Seq<char> {
    "Port table query failed with error code "@ + decimal(code as nat)
}

/// The decision after call number `attempt` (0 is the size probe with no
/// buffer, 1 the first fetch, 2 the retry) returned `ret` and reported the
/// size `size` the table needs: a probe that reports no size fails; a fetch
/// that succeeds (`NO_ERROR`, 0) finishes; the first failed fetch retries
/// with the newly reported size; the second fails with its code.
pub fn call_get_extended_table(attempt: u32, ret: u32, size: u32) -> (r: TableAction)
    ensures
        attempt == 0 ==> match r {
            TableAction::Call { buffer_size } => size != 0 && buffer_size == size,
            TableAction::Fail(ScanError::PlatformError(m)) => size == 0 && m@
                == "Failed to determine buffer size for port table"@,
            _ => false,
        },
        attempt == 1 ==> match r {
            TableAction::Finish => ret == 0,
            TableAction::Call { buffer_size } => ret != 0 && buffer_size == size,
            _ => false,
        },
        attempt >= 2 ==> match r {
            TableAction::Finish => ret == 0,
            TableAction::Fail(ScanError::PlatformError(m)) => ret != 0 && m@ == query_failed_text(
                ret,
            ),
            _ => false,
        },
{
    if attempt == 0 {
        if size == 0 {
            TableAction::Fail(
                ScanError::PlatformError(
                    String::from_str("Failed to determine buffer size for port table"),
                ),
            )
        } else {
            TableAction::Call { buffer_size: size }
        }
    } else if ret == 0 {
        TableAction::Finish
    } else if attempt == 1 {
        TableAction::Call { buffer_size: size }
    } else {
        let mut m = String::from_str("Port table query failed with error code ");
        m.append(decimal_string(ret as u64).as_str());
        TableAction::Fail(ScanError::PlatformError(m))
    }
}

} // verus!
