use vstd::prelude::*;

use crate::iptext::{ip_from_text, parse_ip_text};
use crate::model::{
    entry_views, ipv4, ipv6, is_public_bind, lemma_ipv4, lemma_ipv6, BindAddress, ConnectionState,
    EntryView, PortEntry, Protocol,
};
use crate::scanner::{sort_by_port, stably_sorted, ScanError};
use crate::text::{
    chars_of, copy_range, lines, parse_unsigned, parse_unsigned_chars, split_lines,
    string_from_chars, utf8_width, views,
};

verus! {

/// Scanner that reads the output of `lsof -i -P -n -F pcn`.
pub struct MacosScanner;

/// The index of the first `a` followed by `b` in `s`, or `s.len()` if there is none.
pub open spec fn pair_index(s: Seq<char>, a: char, b: char) -> nat
    decreases s.len(),
{
    if s.len() < 2 {
        s.len()
    } else if s[0] == a && s[1] == b {
        0
    } else {
        1 + pair_index(s.drop_first(), a, b)
    }
}

/// The index of the last `c` in `s`, or -1 if there is none.
pub open spec fn last_index(s: Seq<char>, c: char) -> int
    decreases s.len(),
{
    if s.len() == 0 {
        -1
    } else if s.last() == c {
        s.len() - 1
    } else {
        last_index(s.drop_last(), c)
    }
}

/// The address and port an lsof name field stands for. Only the local part
/// (before `->`) counts; `[addr]:port` is IPv6 notation, `addr:port` (split
/// at the last colon) IPv4 notation, and `*` is the unspecified address.
pub open spec fn lsof_address(name: Seq<char>) -> Option<(BindAddress, u16)> {
    let local = name.take(pair_index(name, '-', '>') as int);
    if local.len() > 0 && local[0] == '[' {
        let b = pair_index(local, ']', ':') as int;
        if b >= local.len() {
            None
        } else {
            match parse_unsigned(local.skip(b + 2), 10, 65535) {
                None => None,
                Some(port) => {
                    let addr = local.subrange(1, b);
                    let ip = if addr == seq!['*'] {
                        Some(ipv6(Seq::new(16, |k: int| 0u8)))
                    } else {
                        ip_from_text(addr)
                    };
                    match ip {
                        Some(a) => Some((a, port as u16)),
                        None => None,
                    }
                },
            }
        }
    } else {
        let c = last_index(local, ':');
        if c < 0 {
            None
        } else {
            match parse_unsigned(local.skip(c + 1), 10, 65535) {
                None => None,
                Some(port) => {
                    let addr = local.take(c);
                    let ip = if addr == seq!['*'] {
                        Some(ipv4(Seq::new(4, |k: int| 0u8)))
                    } else {
                        ip_from_text(addr)
                    };
                    match ip {
                        Some(a) => Some((a, port as u16)),
                        None => None,
                    }
                },
            }
        }
    }
}

/// Whether an lsof name field names a connection (`local->remote`).
pub open spec fn names_connection(name: Seq<char>) -> bool {
    pair_index(name, '-', '>') < name.len()
}

/// The entry an lsof name field stands for, for process `pid` running `cmd`:
/// a TCP socket, ESTABLISHED when the name has a remote part (`->`) and
/// LISTEN otherwise.
pub open spec fn lsof_name_entry(name: Seq<char>, pid: u32, cmd: Seq<char>) -> Option<EntryView> {
    match lsof_address(name) {
        Some((ip, port)) => Some(
            EntryView {
                port,
                protocol: Protocol::TCP,
                state: if names_connection(name) {
                    ConnectionState::Established
                } else {
                    ConnectionState::Listen
                },
                pid: Some(pid),
                process_name: Some(cmd),
                bind_address: ip,
                is_public: ip.unspecified(),
            },
        ),
        None => None,
    }
}

fn find_pair(s: &[char], a: char, b: char) -> (r: usize)
    ensures
        r == pair_index(s@, a, b),
        r <= s@.len(),
        r < s@.len() ==> r + 1 < s@.len(),
{
    let len = s.len();
    let mut i: usize = 0;
    assert(s@.skip(0) =~= s@);
    while len > 1 && i < len - 1 && !(s[i] == a && s[i + 1] == b)
        invariant
            i <= len == s@.len(),
            pair_index(s@, a, b) == i + pair_index(s@.skip(i as int), a, b),
        decreases len - i,
    {
        let ghost t = s@.skip(i as int);
        assert(t[0] == s@[i as int]);
        assert(t[1] == s@[i + 1]);
        assert(t.drop_first() =~= s@.skip(i + 1));
        i += 1;
    }
    let ghost t = s@.skip(i as int);
    if len > 1 && i < len - 1 {
        assert(t[0] == s@[i as int]);
        assert(t[1] == s@[i + 1]);
        i
    } else {
        len
    }
}

fn find_last(s: &[char], c: char) -> (r: Option<usize>)
    ensures
        match r {
            Some(k) => last_index(s@, c) == k && k < s@.len(),
            None => last_index(s@, c) == -1,
        },
{
    let mut i = s.len();
    assert(s@.take(i as int) =~= s@);
    while i > 0
        invariant
            i <= s@.len(),
            last_index(s@, c) == last_index(s@.take(i as int), c),
        decreases i,
    {
        let ghost t = s@.take(i as int);
        assert(t.last() == s@[i - 1]);
        if s[i - 1] == c {
            return Some(i - 1);
        }
        assert(t.drop_last() =~= s@.take(i - 1));
        i -= 1;
    }
    None
}

fn is_star(s: &[char]) -> (r: bool)
    ensures
        r == (s@ == seq!['*']),
{
    if s.len() == 1 && s[0] == '*' {
        assert(s@ =~= seq!['*']);
        true
    } else {
        proof {
            if s@.len() == 1 {
                assert(seq!['*'][0] == '*');
            }
        }
        false
    }
}

fn lsof_address_of(name: &[char]) -> (r: Option<(BindAddress, u16)>)
    ensures
        r == lsof_address(name@),
{
    let end = find_pair(name, '-', '>');
    let local = copy_range(name, 0, end);
    assert(local@ =~= name@.take(end as int));
    let len = local.len();
    if len > 0 && local[0] == '[' {
        let b = find_pair(local.as_slice(), ']', ':');
        if b >= len {
            return None;
        }
        let port_text = copy_range(local.as_slice(), b + 2, len);
        assert(port_text@ =~= local@.skip(b + 2));
        let port = match parse_unsigned_chars(port_text.as_slice(), 10, 65535) {
            Some(v) => v as u16,
            None => return None,
        };
        let addr = copy_range(local.as_slice(), 1, b);
        let ip = if is_star(addr.as_slice()) {
            let z: [u8; 16] = [0, 0, 0, 0, 0, 0, 0, 0, 0, 0, 0, 0, 0, 0, 0, 0];
            proof {
                lemma_ipv6(z);
                assert(z@ =~= Seq::new(16, |k: int| 0u8));
            }
            BindAddress::V6(z)
        } else {
            match parse_ip_text(addr.as_slice()) {
                Some(a) => a,
                None => return None,
            }
        };
        Some((ip, port))
    } else {
        let c = match find_last(local.as_slice(), ':') {
            Some(c) => c,
            None => return None,
        };
        let port_text = copy_range(local.as_slice(), c + 1, len);
        assert(port_text@ =~= local@.skip(c + 1));
        let port = match parse_unsigned_chars(port_text.as_slice(), 10, 65535) {
            Some(v) => v as u16,
            None => return None,
        };
        let addr = copy_range(local.as_slice(), 0, c);
        assert(addr@ =~= local@.take(c as int));
        let ip = if is_star(addr.as_slice()) {
            let z: [u8; 4] = [0, 0, 0, 0];
            proof {
                lemma_ipv4(z);
                assert(z@ =~= Seq::new(4, |k: int| 0u8));
            }
            BindAddress::V4(z)
        } else {
            match parse_ip_text(addr.as_slice()) {
                Some(a) => a,
                None => return None,
            }
        };
        Some((ip, port))
    }
}

/// Parse an lsof -n name field into a PortEntry.
/// Formats: "127.0.0.1:8080", "*:80", "[::1]:8080", "[::]:80", and
/// "192.168.1.1:443->10.0.0.1:54321" (a connection: the remote part is
/// skipped and the state is ESTABLISHED; every other name is LISTEN).
pub fn parse_lsof_name(name: &str, pid: u32, cmd: String) -> (r: Option<PortEntry>)
    ensures
        match r {
            Some(e) => lsof_name_entry(name@, pid, cmd@) == Some(e@) && e.process_name == Some(
                cmd,
            ),
            None => lsof_name_entry(name@, pid, cmd@) is None,
        },
{
    let c = chars_of(name);
    let (ip, port) = match lsof_address_of(c.as_slice()) {
        Some(v) => v,
        None => return None,
    };
    let is_public = is_public_bind(&ip);
    let state = if find_pair(c.as_slice(), '-', '>') < c.len() {
        ConnectionState::Established
    } else {
        ConnectionState::Listen
    };
    Some(
        PortEntry {
            port,
            protocol: Protocol::TCP,
            state,
            pid: Some(pid),
            process_name: Some(cmd),
            bind_address: ip,
            is_public,
        },
    )
}

} // verus!
verus! {

/// Where reading lsof output stands after some lines: the current process
/// id and command, and the entries found so far.
pub struct LsofScan {
    pub pid: Option<u32>,
    pub cmd: Option<Seq<char>>,
    pub found: Seq<EntryView>,
}

/// One line of `lsof -F pcn` output: `p<pid>` sets the process (a pid that
/// does not parse clears it), `c<command>` its command, and `n<name>` adds
/// the entry that the name stands for once both are known. Other lines
/// (and empty ones) change nothing.
pub open spec fn lsof_step(st: LsofScan, line: Seq<char>) -> LsofScan {
    if line.len() == 0 {
        st
    } else {
        let v = line.drop_first();
        if line[0] == 'p' {
            LsofScan {
                pid: match parse_unsigned(v, 10, 0xffff_ffff) {
                    Some(x) => Some(x as u32),
                    None => None,
                },
                cmd: st.cmd,
                found: st.found,
            }
        } else if line[0] == 'c' {
            LsofScan { pid: st.pid, cmd: Some(v), found: st.found }
        } else if line[0] == 'n' {
            match (st.pid, st.cmd) {
                (Some(p), Some(c)) => match lsof_name_entry(v, p, c) {
                    Some(e) => LsofScan { pid: st.pid, cmd: st.cmd, found: st.found.push(e) },
                    None => st,
                },
                _ => st,
            }
        } else {
            st
        }
    }
}

/// Where reading the lines `ls` leaves the scan.
pub open spec fn lsof_scan(ls: Seq<Seq<char>>) -> LsofScan
    decreases ls.len(),
{
    if ls.len() == 0 {
        LsofScan { pid: None, cmd: None, found: Seq::empty() }
    } else {
        lsof_step(lsof_scan(ls.drop_last()), ls.last())
    }
}

/// Every non-empty line starts with a one-byte character (splitting off the
/// field tag does not cut a character).
pub open spec fn lsof_output_splittable(raw: Seq<char>) -> bool {
    forall|i: int|
        0 <= i < lines(raw).len() && #[trigger] lines(raw)[i].len() > 0 ==> utf8_width(
            lines(raw)[i][0],
        ) == 1
}

/// Whether every non-empty line of `raw` starts with a one-byte character
/// (else `parse_lsof_output` must not be called: splitting off the tag
/// would panic).
pub fn is_splittable_output(raw: &str) -> (r: bool)
    ensures
        r == lsof_output_splittable(raw@),
{
    let c = chars_of(raw);
    let ls = split_lines(c.as_slice());
    let ghost lv = lines(raw@);
    assert(views(ls@) == lv);
    let mut k: usize = 0;
    while k < ls.len()
        invariant
            k <= ls@.len(),
            views(ls@) == lv,
            lv == lines(raw@),
            forall|i: int|
                0 <= i < k && #[trigger] lv[i].len() > 0 ==> utf8_width(lv[i][0]) == 1,
        decreases ls@.len() - k,
    {
        assert(ls@[k as int]@ == lv[k as int]);
        if ls[k].len() > 0 && (ls[k][0] as u32) >= 0x80 {
            return false;
        }
        k += 1;
    }
    true
}

/// Parse lsof -F pcn output: groups of lines per file descriptor, `p<pid>`,
/// `c<command>`, `n<name>`. The entries come out sorted by port.
pub fn parse_lsof_output(raw: &str) -> (r: Result<Vec<PortEntry>, ScanError>)
    requires
        lsof_output_splittable(raw@),
    ensures
        r is Ok,
        r matches Ok(v) ==> exists|u: Seq<PortEntry>|
            entry_views(u) == lsof_scan(lines(raw@)).found && #[trigger] stably_sorted(v@, u),
{
    let c = chars_of(raw);
    let ls = split_lines(c.as_slice());
    let ghost lv = lines(raw@);
    assert(views(ls@) == lv);
    let mut entries: Vec<PortEntry> = Vec::new();
    let mut current_pid: Option<u32> = None;
    let mut current_cmd: Option<String> = None;
    let mut k: usize = 0;
    assert(lv.take(0) =~= Seq::<Seq<char>>::empty());
    assert(entry_views(entries@) =~= Seq::<EntryView>::empty());
    while k < ls.len()
        invariant
            k <= ls@.len(),
            views(ls@) == lv,
            lv == lines(raw@),
            lsof_output_splittable(raw@),
            lsof_scan(lv.take(k as int)) == (LsofScan {
                pid: current_pid,
                cmd: match current_cmd {
                    Some(s) => Some(s@),
                    None => None,
                },
                found: entry_views(entries@),
            }),
        decreases ls@.len() - k,
    {
        let ghost prefix = lv.take(k + 1);
        assert(prefix.drop_last() =~= lv.take(k as int));
        assert(prefix.last() == lv[k as int]);
        assert(ls@[k as int]@ == lv[k as int]);
        let line = &ls[k];
        if line.len() > 0 {
            assert(lv[k as int].len() > 0);
            let value = copy_range(line.as_slice(), 1, line.len());
            assert(value@ =~= line@.drop_first());
            let tag = line[0];
            if tag == 'p' {
                current_pid = match parse_unsigned_chars(value.as_slice(), 10, 0xffff_ffff) {
                    Some(v) => Some(v as u32),
                    None => None,
                };
            } else if tag == 'c' {
                current_cmd = Some(string_from_chars(value.as_slice()));
            } else if tag == 'n' {
                match (current_pid, &current_cmd) {
                    (Some(pid), Some(cmd)) => {
                        let name = string_from_chars(value.as_slice());
                        let ghost before = entries@;
                        match parse_lsof_name(name.as_str(), pid, cmd.clone()) {
                            Some(e) => {
                                entries.push(e);
                                assert(entry_views(entries@) =~= entry_views(before).push(e@));
                            },
                            None => {},
                        }
                    },
                    _ => {},
                }
            }
        }
        k += 1;
    }
    assert(lv.take(k as int) =~= lv);
    let ghost unsorted = entries@;
    assert(entry_views(unsorted) == lsof_scan(lines(raw@)).found);
    let sorted = sort_by_port(entries);
    assert(stably_sorted(sorted@, unsorted));
    let res: Result<Vec<PortEntry>, ScanError> = Ok(sorted);
    assert(res matches Ok(v) ==> exists|u: Seq<PortEntry>|
        entry_views(u) == lsof_scan(lines(raw@)).found && #[trigger] stably_sorted(v@, u)) by {
        assert(stably_sorted(res->Ok_0@, unsorted));
    }
    res
}

/// Every entry read from lsof output is a TCP socket, listening or
/// established, with a known process id and command, flagged public exactly
/// when it is bound to all interfaces.
pub proof fn law_lsof_entries(ls: Seq<Seq<char>>)
    ensures
        forall|i: int|
            0 <= i < lsof_scan(ls).found.len() ==> {
                let e = #[trigger] lsof_scan(ls).found[i];
                &&& e.is_public == e.bind_address.unspecified()
                &&& e.protocol == Protocol::TCP
                &&& (e.state == ConnectionState::Listen || e.state
                    == ConnectionState::Established)
                &&& e.pid is Some
                &&& e.process_name is Some
            },
    decreases ls.len(),
{
    if ls.len() > 0 {
        law_lsof_entries(ls.drop_last());
    }
}

} // verus!
