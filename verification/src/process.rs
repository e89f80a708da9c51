//! Decisions of the `kill` and `open` subcommands.

use vstd::prelude::*;
use vstd::string::StringExecFns;

use crate::model::PortEntry;
use crate::text::{answer_is_yes, chars_of, decimal, decimal_string, is_yes};

verus! {

/// A process to kill: its id and the name it is shown by.
pub struct KillTarget {
    pub pid: u32,
    pub name: String,
}

/// Entry `e` is on `port` and its process is known.
pub open spec fn owns_port(e: PortEntry, port: u16) -> bool {
    e.port == port && e.pid is Some
}

/// Some entry of `s` on `port` belongs to process `pid`.
pub open spec fn pid_on_port(s: Seq<PortEntry>, port: u16, pid: u32) -> bool {
    exists|k: int| 0 <= k < s.len() && #[trigger] s[k].port == port && s[k].pid == Some(pid)
}

/// The name of process `pid` on `port`: the name of the first entry of `s`
/// on that port with that process, or `unknown` if that entry has none.
pub open spec fn name_for(s: Seq<PortEntry>, port: u16, pid: u32) -> Seq<char>
    decreases s.len(),
{
    if s.len() == 0 {
        "unknown"@
    } else if s[0].port == port && s[0].pid == Some(pid) {
        match s[0].process_name {
            Some(n) => n@,
            None => "unknown"@,
        }
    } else {
        name_for(s.drop_first(), port, pid)
    }
}

fn name_of(entries: &[PortEntry], port: u16, pid: u32) -> (r: String)
    ensures
        r@ == name_for(entries@, port, pid),
{
    let mut i: usize = 0;
    assert(entries@.skip(0) =~= entries@);
    while i < entries.len()
        invariant
            i <= entries@.len(),
            name_for(entries@, port, pid) == name_for(entries@.skip(i as int), port, pid),
        decreases entries@.len() - i,
    {
        let ghost t = entries@.skip(i as int);
        assert(t[0] == entries@[i as int]);
        if entries[i].port == port && entries[i].pid == Some(pid) {
            return match &entries[i].process_name {
                Some(n) => n.clone(),
                None => String::from_str("unknown"),
            };
        }
        assert(t.drop_first() =~= entries@.skip(i + 1));
        i += 1;
    }
    String::from_str("unknown")
}

/// The processes to kill for `port`: each process that owns an entry on
/// the port, once, in ascending id order, with the name it is shown by.
pub fn kill_targets(port: u16, entries: &[PortEntry]) -> (r: Vec<KillTarget>)
    ensures
        forall|i: int, j: int| 0 <= i < j < r@.len() ==> r@[i].pid < r@[j].pid,
        forall|i: int| 0 <= i < r@.len() ==> pid_on_port(entries@, port, #[trigger] r@[i].pid),
        forall|pid: u32|
            #[trigger] pid_on_port(entries@, port, pid) ==> exists|i: int|
                0 <= i < r@.len() && #[trigger] r@[i].pid == pid,
        forall|i: int| 0 <= i < r@.len() ==> #[trigger] r@[i].name@ == name_for(
            entries@,
            port,
            r@[i].pid,
        ),
        r@.len() == 0 <==> forall|k: int|
            0 <= k < entries@.len() ==> !owns_port(#[trigger] entries@[k], port),
{
    let mut pids: Vec<u32> = Vec::new();
    let mut i: usize = 0;
    while i < entries.len()
        invariant
            i <= entries@.len(),
            forall|a: int, b: int| 0 <= a < b < pids@.len() ==> pids@[a] < pids@[b],
            forall|a: int| 0 <= a < pids@.len() ==> pid_on_port(entries@, port, #[trigger] pids@[a]),
            forall|k: int|
                0 <= k < i && #[trigger] entries@[k].port == port && entries@[k].pid is Some
                    ==> pids@.contains(entries@[k].pid->0),
        decreases entries@.len() - i,
    {
        if entries[i].port == port {
            if let Some(pid) = entries[i].pid {
                let mut j = pids.len();
                while j > 0 && pids[j - 1] > pid
                    invariant
                        j <= pids@.len(),
                        forall|m: int| j <= m < pids@.len() ==> #[trigger] pids@[m] > pid,
                    decreases j,
                {
                    j -= 1;
                }
                if j > 0 && pids[j - 1] == pid {
                    assert(pids@[j - 1] == pid);
                } else {
                    let ghost old_pids = pids@;
                    proof {
                        assert forall|m: int| 0 <= m < j implies #[trigger] old_pids[m] < pid by {
                            if m < j - 1 {
                                assert(old_pids[m] < old_pids[j - 1]);
                            }
                        }
                    }
                    pids.insert(j, pid);
                    proof {
                        assert(pid_on_port(entries@, port, pid)) by {
                            assert(entries@[i as int].port == port);
                        }
                        assert forall|a: int| 0 <= a < pids@.len() implies pid_on_port(
                            entries@,
                            port,
                            #[trigger] pids@[a],
                        ) by {
                            if a < j {
                                assert(pids@[a] == old_pids[a]);
                            } else if a > j {
                                assert(pids@[a] == old_pids[a - 1]);
                            }
                        }
                        assert forall|a: int, b: int| 0 <= a < b < pids@.len() implies pids@[a]
                            < pids@[b] by {
                            if b < j {
                                assert(pids@[a] == old_pids[a] && pids@[b] == old_pids[b]);
                            } else if b == j {
                                assert(pids@[a] == old_pids[a]);
                            } else if a < j {
                                assert(pids@[a] == old_pids[a] && pids@[b] == old_pids[b - 1]);
                            } else if a == j {
                                assert(pids@[b] == old_pids[b - 1]);
                            } else {
                                assert(pids@[a] == old_pids[a - 1] && pids@[b] == old_pids[b - 1]);
                            }
                        }
                        assert forall|k: int|
                            0 <= k < i && #[trigger] entries@[k].port == port
                                && entries@[k].pid is Some implies pids@.contains(
                            entries@[k].pid->0,
                        ) by {
                            let x = entries@[k].pid->0;
                            assert(old_pids.contains(x));
                            let m = choose|m: int| 0 <= m < old_pids.len() && old_pids[m] == x;
                            if m < j {
                                assert(pids@[m] == x);
                            } else {
                                assert(pids@[m + 1] == x);
                            }
                        }
                        assert(pids@[j as int] == pid);
                    }
                }
            }
        }
        i += 1;
    }
    let mut out: Vec<KillTarget> = Vec::new();
    let mut k: usize = 0;
    while k < pids.len()
        invariant
            k <= pids@.len(),
            out@.len() == k,
            forall|a: int| 0 <= a < k ==> #[trigger] out@[a].pid == pids@[a],
            forall|a: int| 0 <= a < k ==> #[trigger] out@[a].name@ == name_for(
                entries@,
                port,
                out@[a].pid,
            ),
        decreases pids@.len() - k,
    {
        let pid = pids[k];
        out.push(KillTarget { pid, name: name_of(entries, port, pid) });
        k += 1;
    }
    proof {
        assert forall|pid: u32| #[trigger] pid_on_port(entries@, port, pid) implies exists|a: int|
            0 <= a < out@.len() && #[trigger] out@[a].pid == pid by {
            let w = choose|w: int|
                0 <= w < entries@.len() && #[trigger] entries@[w].port == port && entries@[w].pid
                    == Some(pid);
            assert(pids@.contains(pid));
            let m = choose|m: int| 0 <= m < pids@.len() && pids@[m] == pid;
            assert(out@[m].pid == pid);
        }
        if out@.len() == 0 {
            assert forall|k: int| 0 <= k < entries@.len() implies !owns_port(
                #[trigger] entries@[k],
                port,
            ) by {
                if owns_port(entries@[k], port) {
                    let pid = entries@[k].pid->0;
                    assert(pid_on_port(entries@, port, pid));
                }
            }
        } else {
            assert(pid_on_port(entries@, port, out@[0].pid));
        }
    }
    out
}

/// The page that `open` shows: `http://localhost:` and the port.
pub open spec fn localhost_url_text(port: u16) -> Seq<char> {
    "http://localhost:"@ + decimal(port as nat)
}

/// The address of the page that `open` shows.
pub fn localhost_url(port: u16) -> (r: String)
    ensures
        r@ == localhost_url_text(port),
{
    let mut s = String::from_str("http://localhost:");
    s.append(decimal_string(port as u64).as_str());
    s
}

/// Whether the answer typed at a kill prompt confirms it: `y` or `Y`,
/// surrounding whitespace ignored.
pub fn is_confirmation(input: &str) -> (r: bool)
    ensures
        r == is_yes(input@),
{
    let c = chars_of(input);
    answer_is_yes(c.as_slice())
}

} // verus!
