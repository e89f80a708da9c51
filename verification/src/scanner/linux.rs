use std::collections::HashMap;

use vstd::prelude::*;

use crate::model::{
    linux_addr_port, linux_addr_port_v6, linux_state, parse_linux_addr_port,
    parse_linux_addr_port_v6, v6_pair_is_splittable, v6_pair_splittable, BindAddress, ConnectionState, PortEntry,
    Protocol, is_public_bind, public_flag_agrees,
};
use crate::text::{
    chars_of, fields, lines, parse_unsigned, parse_unsigned_chars, split_fields, split_lines,
    string_from_chars, uppercase_of, utf8_width, views,
};

verus! {

broadcast use vstd::std_specs::hash::group_hash_axioms;

/// Scanner that reads the Linux `/proc` file system.
pub struct LinuxScanner;

/// The entry that one data line of a `/proc/net/{tcp,tcp6,udp,udp6}` file
/// stands for, or `None` for a line that is skipped: fewer than ten fields,
/// or a local address that does not parse. Fields: 1 local address, 3
/// state (hex), 9 socket inode.
pub open spec fn proc_net_row(
    line: Seq<char>,
    protocol: Protocol,
    is_ipv6: bool,
    pids: Map<u64, u32>,
) -> Option<PortEntry> {
    let f = fields(line);
    if f.len() < 10 {
        None
    } else {
        let addr = if is_ipv6 {
            linux_addr_port_v6(f[1])
        } else {
            linux_addr_port(f[1])
        };
        match addr {
            None => None,
            Some((ip, port)) => {
                let state = if protocol == Protocol::TCP {
                    linux_state(uppercase_of(f[3]))
                } else {
                    ConnectionState::Listen
                };
                let inode: u64 = match parse_unsigned(f[9], 10, 0xffff_ffff_ffff_ffff) {
                    Some(v) => v as u64,
                    None => 0,
                };
                Some(
                    PortEntry {
                        port,
                        protocol,
                        state,
                        pid: if pids.contains_key(inode) {
                            Some(pids[inode])
                        } else {
                            None
                        },
                        process_name: None,
                        bind_address: ip,
                        is_public: ip.unspecified(),
                    },
                )
            },
        }
    }
}

/// The entries of a sequence of data lines, in order.
pub open spec fn proc_net_rows(
    ls: Seq<Seq<char>>,
    protocol: Protocol,
    is_ipv6: bool,
    pids: Map<u64, u32>,
) -> Seq<PortEntry>
    decreases ls.len(),
{
    if ls.len() == 0 {
        Seq::empty()
    } else {
        let prev = proc_net_rows(ls.drop_last(), protocol, is_ipv6, pids);
        match proc_net_row(ls.last(), protocol, is_ipv6, pids) {
            Some(e) => prev.push(e),
            None => prev,
        }
    }
}

/// The entries of a whole `/proc/net` file: every line after the header.
pub open spec fn proc_net_entries(
    content: Seq<char>,
    protocol: Protocol,
    is_ipv6: bool,
    pids: Map<u64, u32>,
) -> Seq<PortEntry> {
    let ls = lines(content);
    if ls.len() == 0 {
        Seq::empty()
    } else {
        proc_net_rows(ls.skip(1), protocol, is_ipv6, pids)
    }
}

/// Reading the file does not slice an IPv6 address inside a character.
pub open spec fn proc_net_readable(content: Seq<char>, is_ipv6: bool) -> bool {
    is_ipv6 ==> forall|i: int|
        1 <= i < lines(content).len() && #[trigger] fields(lines(content)[i]).len() >= 10
            ==> v6_pair_splittable(fields(lines(content)[i])[1])
}

/// The prefix of the link target of a socket file descriptor.
pub open spec fn socket_prefix() -> Seq<char> {
    seq!['s', 'o', 'c', 'k', 'e', 't', ':', '[']
}

/// `link` starts with `socket:[`.
pub open spec fn is_socket_link(link: Seq<char>) -> bool {
    link.len() >= 8 && link.take(8) == socket_prefix()
}

/// Taking the inode out of a socket link does not slice inside a character
/// or past its end: the link is longer than the prefix and ends in a
/// one-byte character.
pub open spec fn socket_link_sliceable(link: Seq<char>) -> bool {
    is_socket_link(link) ==> link.len() > 8 && utf8_width(link.last()) == 1
}

/// The inode of a link like `socket:[12345]`: the decimal text between the
/// prefix and the last character.
pub open spec fn socket_inode_of(link: Seq<char>) -> Option<u64> {
    if is_socket_link(link) {
        match parse_unsigned(link.subrange(8, link.len() - 1), 10, 0xffff_ffff_ffff_ffff) {
            Some(v) => Some(v as u64),
            None => None,
        }
    } else {
        None
    }
}

impl LinuxScanner {
    /// The entry for one data line.
    fn parse_row(
        line: &[char],
        protocol: Protocol,
        is_ipv6: bool,
        inode_to_pid: &HashMap<u64, u32>,
    ) -> (r: Option<PortEntry>)
        requires
            is_ipv6 && fields(line@).len() >= 10 ==> v6_pair_splittable(fields(line@)[1]),
        ensures
            r == proc_net_row(line@, protocol, is_ipv6, inode_to_pid@),
    {
        let f = split_fields(line);
        assert(views(f@) == fields(line@));
        if f.len() < 10 {
            return None;
        }
        assert(f@[1]@ == fields(line@)[1]);
        assert(f@[3]@ == fields(line@)[3]);
        assert(f@[9]@ == fields(line@)[9]);
        let local = string_from_chars(f[1].as_slice());
        let addr = if is_ipv6 {
            parse_linux_addr_port_v6(local.as_str())
        } else {
            parse_linux_addr_port(local.as_str())
        };
        let (ip, port) = match addr {
            Some(v) => v,
            None => return None,
        };
        let state = if protocol == Protocol::TCP {
            let code = string_from_chars(f[3].as_slice());
            ConnectionState::from_linux_hex(code.as_str())
        } else {
            ConnectionState::Listen
        };
        let inode: u64 = match parse_unsigned_chars(f[9].as_slice(), 10, 0xffff_ffff_ffff_ffff) {
            Some(v) => v,
            None => 0,
        };
        let pid = match inode_to_pid.get(&inode) {
            Some(p) => Some(*p),
            None => None,
        };
        let is_public = is_public_bind(&ip);
        Some(
            PortEntry {
                port,
                protocol,
                state,
                pid,
                process_name: None,
                bind_address: ip,
                is_public,
            },
        )
    }

    /// Parse the content of a /proc/net/{tcp,tcp6,udp,udp6} file (the first
    /// line is a header) and append its entries to `entries`. UDP sockets
    /// have no connection state and count as LISTEN.
    pub fn parse_proc_net(
        content: &str,
        protocol: Protocol,
        is_ipv6: bool,
        inode_to_pid: &HashMap<u64, u32>,
        entries: &mut Vec<PortEntry>,
    )
        requires
            proc_net_readable(content@, is_ipv6),
        ensures
            final(entries)@ == old(entries)@ + proc_net_entries(
                content@,
                protocol,
                is_ipv6,
                inode_to_pid@,
            ),
    {
        let c = chars_of(content);
        let ls = split_lines(c.as_slice());
        let ghost lv = lines(content@);
        assert(views(ls@) == lv);
        let ghost start = entries@;
        let mut k: usize = 1;
        assert(lv.skip(1).take(0) =~= Seq::<Seq<char>>::empty());
        if ls.len() == 0 {
            assert(entries@ =~= start + proc_net_entries(content@, protocol, is_ipv6, inode_to_pid@));
            return;
        }
        while k < ls.len()
            invariant
                1 <= k <= ls@.len(),
                views(ls@) == lv,
                lv == lines(content@),
                proc_net_readable(content@, is_ipv6),
                entries@ == start + proc_net_rows(
                    lv.skip(1).take(k - 1),
                    protocol,
                    is_ipv6,
                    inode_to_pid@,
                ),
            decreases ls@.len() - k,
        {
            let ghost prefix = lv.skip(1).take(k as int);
            assert(prefix.drop_last() =~= lv.skip(1).take(k - 1));
            assert(prefix.last() == lv[k as int]);
            assert(ls@[k as int]@ == lv[k as int]);
            let row = Self::parse_row(ls[k].as_slice(), protocol, is_ipv6, inode_to_pid);
            match row {
                Some(e) => {
                    entries.push(e);
                },
                None => {},
            }
            k += 1;
        }
        assert(lv.skip(1).take(k - 1) =~= lv.skip(1));
    }

    /// The PID a `/proc` directory name stands for, if it is numeric.
    pub fn parse_pid_dir(name: &str) -> (r: Option<u32>)
        ensures
            match r {
                Some(v) => parse_unsigned(name@, 10, 0xffff_ffff) == Some(v as int),
                None => parse_unsigned(name@, 10, 0xffff_ffff) is None,
            },
    {
        let c = chars_of(name);
        match parse_unsigned_chars(c.as_slice(), 10, 0xffff_ffff) {
            Some(v) => Some(v as u32),
            None => None,
        }
    }

    /// The socket inode a file-descriptor link like `socket:[12345]` names.
    pub fn socket_inode(link: &str) -> (r: Option<u64>)
        requires
            socket_link_sliceable(link@),
        ensures
            r == socket_inode_of(link@),
    {
        let c = chars_of(link);
        if c.len() < 8 {
            return None;
        }
        let mut i: usize = 0;
        while i < 8
            invariant
                i <= 8 <= c@.len(),
                c@ == link@,
                forall|m: int| 0 <= m < i ==> c@[m] == socket_prefix()[m],
            decreases 8 - i,
        {
            let expected = match i {
                0 => 's',
                1 => 'o',
                2 => 'c',
                3 => 'k',
                4 => 'e',
                5 => 't',
                6 => ':',
                _ => '[',
            };
            if c[i] != expected {
                assert(link@.take(8)[i as int] != socket_prefix()[i as int]);
                return None;
            }
            i += 1;
        }
        assert(link@.take(8) =~= socket_prefix());
        let inner = crate::text::copy_range(c.as_slice(), 8, c.len() - 1);
        match parse_unsigned_chars(inner.as_slice(), 10, 0xffff_ffff_ffff_ffff) {
            Some(v) => Some(v),
            None => None,
        }
    }

    /// Whether the IPv6 addresses of a `/proc/net` file can be read without
    /// slicing inside a character (else `parse_proc_net` must not be called:
    /// the slicing would panic).
    pub fn is_readable(content: &str, is_ipv6: bool) -> (r: bool)
        ensures
            r == proc_net_readable(content@, is_ipv6),
    {
        if !is_ipv6 {
            return true;
        }
        let c = chars_of(content);
        let ls = split_lines(c.as_slice());
        let ghost lv = lines(content@);
        assert(views(ls@) == lv);
        let mut k: usize = 1;
        while k < ls.len()
            invariant
                is_ipv6,
                1 <= k,
                views(ls@) == lv,
                lv == lines(content@),
                forall|i: int|
                    1 <= i < k && i < lv.len() && #[trigger] fields(lv[i]).len() >= 10
                        ==> v6_pair_splittable(fields(lv[i])[1]),
            decreases ls@.len() - k,
        {
            assert(ls@[k as int]@ == lv[k as int]);
            let f = split_fields(ls[k].as_slice());
            if f.len() >= 10 {
                assert(f@[1]@ == fields(lv[k as int])[1]);
                if !v6_pair_is_splittable(f[1].as_slice()) {
                    assert(ls@.len() == lv.len());
                    assert(fields(lines(content@)[k as int]).len() >= 10);
                    assert(!v6_pair_splittable(fields(lines(content@)[k as int])[1]));
                    return false;
                }
            }
            k += 1;
        }
        true
    }

    /// Whether taking the inode out of `link` slices on character boundaries
    /// (else `socket_inode` must not be called: the slicing would panic).
    pub fn is_sliceable_link(link: &str) -> (r: bool)
        ensures
            r == socket_link_sliceable(link@),
    {
        let c = chars_of(link);
        if c.len() < 8 {
            return true;
        }
        let mut i: usize = 0;
        while i < 8
            invariant
                i <= 8 <= c@.len(),
                c@ == link@,
                forall|m: int| 0 <= m < i ==> c@[m] == socket_prefix()[m],
            decreases 8 - i,
        {
            let expected = match i {
                0 => 's',
                1 => 'o',
                2 => 'c',
                3 => 'k',
                4 => 'e',
                5 => 't',
                6 => ':',
                _ => '[',
            };
            if c[i] != expected {
                assert(link@.take(8)[i as int] != socket_prefix()[i as int]);
                return true;
            }
            i += 1;
        }
        assert(link@.take(8) =~= socket_prefix());
        c.len() > 8 && (c[c.len() - 1] as u32) < 0x80
    }

    /// Record, for the process `pid`, the socket its descriptor link names.
    pub fn record_socket_link(map: &mut HashMap<u64, u32>, link: &str, pid: u32)
        requires
            socket_link_sliceable(link@),
        ensures
            final(map)@ == match socket_inode_of(link@) {
                Some(inode) => old(map)@.insert(inode, pid),
                None => old(map)@,
            },
    {
        if let Some(inode) = Self::socket_inode(link) {
            map.insert(inode, pid);
        }
    }
}

/// Every entry read from a `/proc/net` file carries the protocol it was read
/// as, no process name yet, the public flag exactly when it is bound to all
/// interfaces, and, for UDP, the LISTEN state.
pub proof fn law_proc_net_entries(
    content: Seq<char>,
    protocol: Protocol,
    is_ipv6: bool,
    pids: Map<u64, u32>,
)
    ensures
        forall|i: int|
            0 <= i < proc_net_entries(content, protocol, is_ipv6, pids).len() ==> {
                let e = #[trigger] proc_net_entries(content, protocol, is_ipv6, pids)[i];
                &&& public_flag_agrees(e)
                &&& e.protocol == protocol
                &&& e.process_name is None
                &&& protocol == Protocol::UDP ==> e.state == ConnectionState::Listen
            },
{
    let ls = lines(content);
    if ls.len() > 0 {
        lemma_proc_net_rows(ls.skip(1), protocol, is_ipv6, pids);
    }
}

proof fn lemma_proc_net_rows(
    ls: Seq<Seq<char>>,
    protocol: Protocol,
    is_ipv6: bool,
    pids: Map<u64, u32>,
)
    ensures
        forall|i: int|
            0 <= i < proc_net_rows(ls, protocol, is_ipv6, pids).len() ==> {
                let e = #[trigger] proc_net_rows(ls, protocol, is_ipv6, pids)[i];
                &&& public_flag_agrees(e)
                &&& e.protocol == protocol
                &&& e.process_name is None
                &&& protocol == Protocol::UDP ==> e.state == ConnectionState::Listen
            },
    decreases ls.len(),
{
    if ls.len() > 0 {
        lemma_proc_net_rows(ls.drop_last(), protocol, is_ipv6, pids);
    }
}

} // verus!
