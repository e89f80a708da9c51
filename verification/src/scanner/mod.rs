//! Platform scanners: what each platform's socket listing reads as, and
//! the ordering of the entries found.

pub mod linux;
pub mod macos;
pub mod windows;

use std::collections::HashMap;

use vstd::prelude::*;
use vstd::string::StringExecFns;

use crate::model::PortEntry;

verus! {

broadcast use vstd::std_specs::hash::group_hash_axioms;

/// The std I/O error type, carried through as an opaque value.
#[verifier::external_type_specification]
#[verifier::external_body]
pub struct ExIoError(std::io::Error);

/// Errors that can occur during port scanning.
pub enum ScanError {
    PermissionDenied(String),
    ParseError(String),
    IoError(std::io::Error),
    PlatformError(String),
}

/// Trusted: calls std's `Display` for `std::io::Error`. Nothing is stated of
/// the text: for operating-system errors it comes from the system.
#[verifier::external_body]
fn io_error_text(e: &std::io::Error) -> String {
    e.to_string()
}

impl ScanError {
    /// The message the error is shown with.
    pub fn message(&self) -> (r: String)
        ensures
            match self {
                ScanError::PermissionDenied(m) => r@ == "Permission denied: "@ + m@,
                ScanError::ParseError(m) => r@ == "Parse error: "@ + m@,
                ScanError::IoError(_) => r@.len() >= 11 && r@.subrange(0, 11) == "I/O error: "@,
                ScanError::PlatformError(m) => r@ == "Platform error: "@ + m@,
            },
    {
        match self {
            ScanError::PermissionDenied(m) => {
                let mut s = String::from_str("Permission denied: ");
                s.append(m.as_str());
                s
            },
            ScanError::ParseError(m) => {
                let mut s = String::from_str("Parse error: ");
                s.append(m.as_str());
                s
            },
            ScanError::IoError(e) => {
                let mut s = String::from_str("I/O error: ");
                let t = io_error_text(e);
                let ghost prefix = s@;
                proof {
                    reveal_strlit("I/O error: ");
                }
                s.append(t.as_str());
                assert(s@.subrange(0, 11) =~= prefix);
                s
            },
            ScanError::PlatformError(m) => {
                let mut s = String::from_str("Platform error: ");
                s.append(m.as_str());
                s
            },
        }
    }
}

impl From<std::io::Error> for ScanError {
    fn from(err: std::io::Error) -> (r: Self) {
        ScanError::IoError(err)
    }
}

impl vstd::std_specs::convert::FromSpecImpl<std::io::Error> for ScanError {
    open spec fn obeys_from_spec() -> bool {
        true
    }

    open spec fn from_spec(v: std::io::Error) -> Self {
        ScanError::IoError(v)
    }
}

/// The entries are in ascending port order.
pub open spec fn sorted_by_port(s: Seq<PortEntry>) -> bool {
    forall|i: int, j: int| 0 <= i <= j < s.len() ==> #[trigger] s[i].port <= #[trigger] s[j].port
}

/// The predicate "is on port `p`".
pub open spec fn on_port(p: u16) -> spec_fn(PortEntry) -> bool {
    |e: PortEntry| e.port == p
}

proof fn lemma_filter_none<A>(s: Seq<A>, pred: spec_fn(A) -> bool)
    requires
        forall|i: int| 0 <= i < s.len() ==> !pred(#[trigger] s[i]),
    ensures
        s.filter(pred) == Seq::<A>::empty(),
    decreases s.len(),
{
    reveal(Seq::filter);
    if s.len() > 0 {
        assert forall|i: int| 0 <= i < s.drop_last().len() implies !pred(
            #[trigger] s.drop_last()[i],
        ) by {
            assert(s.drop_last()[i] == s[i]);
        }
        lemma_filter_none(s.drop_last(), pred);
        assert(!pred(s[s.len() - 1]));
    }
}

/// `r` is `s` sorted by port, entries on the same port kept in their order
/// (what a stable sort by port gives).
pub open spec fn stably_sorted(r: Seq<PortEntry>, s: Seq<PortEntry>) -> bool {
    &&& r.len() == s.len()
    &&& sorted_by_port(r)
    &&& forall|p: u16| #[trigger] r.filter(on_port(p)) == s.filter(on_port(p))
}

/// Sorts entries by port, keeping the order of entries on the same port
/// (a stable sort, as `sort_by_key` is).
pub fn sort_by_port(entries: Vec<PortEntry>) -> (r: Vec<PortEntry>)
    ensures
        stably_sorted(r@, entries@),
{
    let ghost orig = entries@;
    let mut out: Vec<PortEntry> = Vec::new();
    for e in it: entries.into_iter()
        invariant
            it.seq() == orig,
            out@.len() == it.index(),
            sorted_by_port(out@),
            forall|p: u16| #[trigger] out@.filter(on_port(p)) == orig.take(it.index() as int).filter(
                on_port(p),
            ),
    {
        let ghost k = it.index();
        let ghost old_out = out@;
        let mut j = out.len();
        while j > 0 && out[j - 1].port > e.port
            invariant
                j <= out@.len(),
                out@ == old_out,
                forall|m: int| j <= m < out@.len() ==> #[trigger] out@[m].port > e.port,
            decreases j,
        {
            j -= 1;
        }
        proof {
            assert forall|m: int| 0 <= m < j implies #[trigger] old_out[m].port <= e.port by {
                assert(old_out[m].port <= old_out[j - 1].port);
            }
        }
        out.insert(j, e);
        proof {
            let a = old_out.take(j as int);
            let b = old_out.skip(j as int);
            assert(old_out =~= a + b);
            assert(out@ =~= a + seq![e] + b);
            assert(orig.take(k + 1).drop_last() =~= orig.take(k as int));
            assert(orig.take(k + 1).last() == e);
            assert forall|p: u16| #[trigger] out@.filter(on_port(p)) == orig.take(k + 1).filter(
                on_port(p),
            ) by {
                reveal(Seq::filter);
                let pr = on_port(p);
                Seq::filter_distributes_over_add(a, b, pr);
                Seq::filter_distributes_over_add(a + seq![e], b, pr);
                Seq::filter_distributes_over_add(a, seq![e], pr);
                assert(seq![e].drop_last() =~= Seq::<PortEntry>::empty());
                if p == e.port {
                    assert forall|m: int| 0 <= m < b.len() implies !pr(#[trigger] b[m]) by {
                        assert(b[m] == old_out[j + m]);
                    }
                    lemma_filter_none(b, pr);
                    assert(seq![e].filter(pr) =~= seq![e]);
                    assert(out@.filter(pr) =~= a.filter(pr) + seq![e]);
                    assert(old_out.filter(pr) =~= a.filter(pr));
                } else {
                    assert(!pr(e));
                    assert(seq![e].last() == e);
                    assert(Seq::<PortEntry>::empty().filter(pr) =~= Seq::<PortEntry>::empty());
                    assert(seq![e].filter(pr) =~= Seq::<PortEntry>::empty());
                    assert(out@.filter(pr) =~= a.filter(pr) + b.filter(pr));
                }
            }
            assert forall|x: int, y: int| 0 <= x <= y < out@.len() implies #[trigger] out@[x].port
                <= #[trigger] out@[y].port by {
                if x < j && y > j {
                    assert(out@[x] == old_out[x]);
                    assert(out@[y] == old_out[y - 1]);
                } else if x < j && y == j {
                    assert(out@[x] == old_out[x]);
                } else if x < j {
                    assert(out@[x] == old_out[x]);
                    assert(out@[y] == old_out[y]);
                } else if x == j && y > j {
                    assert(out@[y] == old_out[y - 1]);
                } else if x > j {
                    assert(out@[x] == old_out[x - 1]);
                    assert(out@[y] == old_out[y - 1]);
                }
            }
        }
    }
    assert(orig.take(orig.len() as int) =~= orig);
    out
}

/// The entry with its process name looked up: an entry with a process id
/// gets the name `names` holds for that id (or none, if it holds none); an
/// entry without a process id is left as it is.
pub open spec fn named_entry(e: PortEntry, names: Map<u32, String>) -> PortEntry {
    match e.pid {
        Some(p) => PortEntry {
            port: e.port,
            protocol: e.protocol,
            state: e.state,
            pid: e.pid,
            process_name: if names.contains_key(p) {
                Some(names[p])
            } else {
                None
            },
            bind_address: e.bind_address,
            is_public: e.is_public,
        },
        None => e,
    }
}

/// Fills in the process names of the entries from the names found for
/// their process ids.
pub fn assign_process_names(entries: &mut Vec<PortEntry>, names: &HashMap<u32, String>)
    ensures
        final(entries)@.len() == old(entries)@.len(),
        forall|i: int|
            0 <= i < final(entries)@.len() ==> #[trigger] final(entries)@[i] == named_entry(
                old(entries)@[i],
                names@,
            ),
{
    let ghost orig = entries@;
    let mut i: usize = 0;
    while i < entries.len()
        invariant
            i <= entries@.len() == orig.len(),
            forall|k: int| 0 <= k < i ==> #[trigger] entries@[k] == named_entry(orig[k], names@),
            forall|k: int| i <= k < entries@.len() ==> #[trigger] entries@[k] == orig[k],
        decreases entries@.len() - i,
    {
        if let Some(pid) = entries[i].pid {
            let name = match names.get(&pid) {
                Some(n) => Some(n.clone()),
                None => None,
            };
            let old_entry = entries[i].duplicate();
            let e = PortEntry {
                port: old_entry.port,
                protocol: old_entry.protocol,
                state: old_entry.state,
                pid: old_entry.pid,
                process_name: name,
                bind_address: old_entry.bind_address,
                is_public: old_entry.is_public,
            };
            entries.set(i, e);
        }
        i += 1;
    }
}

} // verus!
