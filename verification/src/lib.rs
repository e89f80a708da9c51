//! Port inspection logic: parsing of socket tables, filtering and rendering.

pub mod cli;
pub mod iptext;
pub mod model;
pub mod process;
pub mod render;
pub mod scanner;
pub mod text;

use vstd::prelude::*;

use crate::cli::{range_outcome, Cli};
use crate::model::{ConnectionState, PortEntry};
use crate::text::{
    chars_of, contains_chars, contains_text, lemma_parse_unsigned_bounds, lowercase_of, split_pair,
    to_lowercase,
};

verus! {

/// Whether entry `e` passes the filters: a LISTEN state unless `show_all`,
/// the port asked for, a port inside the range, and a process name whose
/// lowercase form (`name_lower`) contains the lowercase filter.
pub open spec fn passes(
    e: PortEntry,
    show_all: bool,
    filter_lower: Option<Seq<char>>,
    name_lower: Option<Seq<char>>,
    port_filter: Option<u16>,
    range: Option<(u16, u16)>,
) -> bool {
    &&& show_all || e.state == ConnectionState::Listen
    &&& port_filter matches Some(p) ==> e.port == p
    &&& range matches Some((start, end)) ==> start <= e.port <= end
    &&& filter_lower matches Some(f) ==> (name_lower matches Some(n) && contains_text(n, f))
}

/// The lowercase form of an entry's process name.
pub open spec fn name_lower_of(e: PortEntry) -> Option<Seq<char>> {
    match e.process_name {
        Some(n) => Some(lowercase_of(n@)),
        None => None,
    }
}

/// The range that a range filter stands for; a text that is no range filters nothing.
pub open spec fn range_of(range_filter: Option<Seq<char>>) -> Option<(u16, u16)> {
    match range_filter {
        Some(r) => match range_outcome(r) {
            Ok(p) => Some(p),
            Err(_) => None,
        },
        None => None,
    }
}

/// The filter that `apply_filters` applies to each entry.
pub open spec fn entry_filter(
    show_all: bool,
    filter_lower: Option<Seq<char>>,
    port_filter: Option<u16>,
    range: Option<(u16, u16)>,
) -> spec_fn(PortEntry) -> bool {
    |e: PortEntry| passes(e, show_all, filter_lower, name_lower_of(e), port_filter, range)
}

/// Whether one entry passes the filters, given the lowercase forms of the
/// process filter and of the entry's process name.
pub fn passes_filters(
    e: &PortEntry,
    show_all: bool,
    filter_lower: Option<&str>,
    name_lower: Option<&str>,
    port_filter: Option<u16>,
    range: Option<(u16, u16)>,
) -> (r: bool)
    ensures
        r == passes(
            *e,
            show_all,
            match filter_lower {
                Some(f) => Some(f@),
                None => None,
            },
            match name_lower {
                Some(n) => Some(n@),
                None => None,
            },
            port_filter,
            range,
        ),
{
    if !show_all && e.state != ConnectionState::Listen {
        return false;
    }
    if let Some(p) = port_filter {
        if e.port != p {
            return false;
        }
    }
    if let Some((start, end)) = range {
        if e.port < start || e.port > end {
            return false;
        }
    }
    if let Some(f) = filter_lower {
        if let Some(n) = name_lower {
            let fc = chars_of(f);
            let nc = chars_of(n);
            if !contains_chars(nc.as_slice(), fc.as_slice()) {
                return false;
            }
        } else {
            return false;
        }
    }
    true
}

/// Apply all filters to a list of port entries, keeping their order. A
/// range text that does not parse filters nothing (the caller warns).
pub fn apply_filters(
    entries: Vec<PortEntry>,
    show_all: bool,
    process_filter: Option<&str>,
    port_filter: Option<u16>,
    range_filter: Option<&str>,
) -> (r: Vec<PortEntry>)
    ensures
        r@ == entries@.filter(
            entry_filter(
                show_all,
                match process_filter {
                    Some(f) => Some(lowercase_of(f@)),
                    None => None,
                },
                port_filter,
                range_of(
                    match range_filter {
                        Some(t) => Some(t@),
                        None => None,
                    },
                ),
            ),
        ),
{
    let range = match range_filter {
        Some(t) => match Cli::parse_range(t) {
            Ok(p) => Some(p),
            Err(_) => None,
        },
        None => None,
    };
    let filter_lower = match process_filter {
        Some(f) => Some(to_lowercase(f)),
        None => None,
    };
    let ghost fl = match process_filter {
        Some(f) => Some(lowercase_of(f@)),
        None => None::<Seq<char>>,
    };
    let ghost pred = entry_filter(show_all, fl, port_filter, range);
    let ghost orig = entries@;
    let mut out: Vec<PortEntry> = Vec::new();
    for e in it: entries.into_iter()
        invariant
            it.seq() == orig,
            pred == entry_filter(show_all, fl, port_filter, range),
            fl == match filter_lower {
                Some(f) => Some(f@),
                None => None::<Seq<char>>,
            },
            out@ == orig.take(it.index() as int).filter(pred),
    {
        let ghost k = it.index();
        proof {
            reveal(Seq::filter);
            assert(orig.take(k + 1).drop_last() =~= orig.take(k as int));
            assert(orig.take(k + 1).last() == e);
        }
        let name_lower = match &e.process_name {
            Some(n) => Some(to_lowercase(n.as_str())),
            None => None,
        };
        let keep = passes_filters(
            &e,
            show_all,
            match &filter_lower {
                Some(f) => Some(f.as_str()),
                None => None,
            },
            match &name_lower {
                Some(n) => Some(n.as_str()),
                None => None,
            },
            port_filter,
            range,
        );
        if keep {
            out.push(e);
        }
    }
    assert(orig.take(orig.len() as int) =~= orig);
    out
}


proof fn lemma_filter_keeps_pred<A>(s: Seq<A>, pred: spec_fn(A) -> bool)
    ensures
        forall|i: int| 0 <= i < s.filter(pred).len() ==> pred(#[trigger] s.filter(pred)[i]),
{
    assert forall|i: int| 0 <= i < s.filter(pred).len() implies pred(#[trigger] s.filter(pred)[i]) by {
        s.lemma_filter_pred(pred, i);
    }
}

proof fn lemma_filter_twice<A>(s: Seq<A>, pred: spec_fn(A) -> bool)
    ensures
        s.filter(pred).filter(pred) == s.filter(pred),
    decreases s.len(),
{
    reveal(Seq::filter);
    if s.len() > 0 {
        let t = s.drop_last();
        let x = s.last();
        assert(s =~= t.push(x));
        t.lemma_filter_push(x, pred);
        lemma_filter_twice(t, pred);
        if pred(x) {
            t.filter(pred).lemma_filter_push(x, pred);
        }
    }
}

proof fn lemma_filter_all<A>(s: Seq<A>, pred: spec_fn(A) -> bool)
    requires
        forall|i: int| 0 <= i < s.len() ==> pred(#[trigger] s[i]),
    ensures
        s.filter(pred) == s,
    decreases s.len(),
{
    reveal(Seq::filter);
    if s.len() > 0 {
        let t = s.drop_last();
        assert forall|i: int| 0 <= i < t.len() implies pred(#[trigger] t[i]) by {
            assert(t[i] == s[i]);
        }
        lemma_filter_all(t, pred);
        assert(pred(s[s.len() - 1]));
        assert(t.push(s.last()) =~= s);
    }
}

/// Without `show_all`, every entry that the filters keep is in the LISTEN
/// state, whatever the other filters are.
pub proof fn law_default_keeps_only_listening(
    entries: Seq<PortEntry>,
    filter_lower: Option<Seq<char>>,
    port_filter: Option<u16>,
    range: Option<(u16, u16)>,
)
    ensures
        forall|i: int|
            0 <= i < entries.filter(entry_filter(false, filter_lower, port_filter, range)).len()
                ==> (#[trigger] entries.filter(
                entry_filter(false, filter_lower, port_filter, range),
            )[i]).state == ConnectionState::Listen,
{
    lemma_filter_keeps_pred(entries, entry_filter(false, filter_lower, port_filter, range));
}

/// With `show_all` and no other filter, every entry is kept, in its order.
pub proof fn law_show_all_keeps_everything(entries: Seq<PortEntry>)
    ensures
        entries.filter(entry_filter(true, None, None, None)) == entries,
{
    lemma_filter_all(entries, entry_filter(true, None, None, None));
}

/// Filtering what the filters kept keeps all of it: the filters are idempotent.
pub proof fn law_filters_idempotent(
    entries: Seq<PortEntry>,
    show_all: bool,
    filter_lower: Option<Seq<char>>,
    port_filter: Option<u16>,
    range: Option<(u16, u16)>,
)
    ensures
        entries.filter(entry_filter(show_all, filter_lower, port_filter, range)).filter(
            entry_filter(show_all, filter_lower, port_filter, range),
        ) == entries.filter(entry_filter(show_all, filter_lower, port_filter, range)),
{
    lemma_filter_twice(entries, entry_filter(show_all, filter_lower, port_filter, range));
}

/// A range that reads as START-END keeps exactly the entries whose port lies
/// between START and END inclusive (START is never above END); a text that
/// does not read as a range restricts nothing.
pub proof fn law_range_filter(
    entries: Seq<PortEntry>,
    range_text: Seq<char>,
    show_all: bool,
    filter_lower: Option<Seq<char>>,
    port_filter: Option<u16>,
)
    ensures
        range_outcome(range_text) matches Ok((start, end)) ==> {
            &&& start <= end
            &&& forall|i: int|
                0 <= i < entries.filter(
                    entry_filter(show_all, filter_lower, port_filter, range_of(Some(range_text))),
                ).len() ==> start <= (#[trigger] entries.filter(
                    entry_filter(show_all, filter_lower, port_filter, range_of(Some(range_text))),
                )[i]).port <= end
        },
        range_outcome(range_text) is Err ==> entries.filter(
            entry_filter(show_all, filter_lower, port_filter, range_of(Some(range_text))),
        ) == entries.filter(entry_filter(show_all, filter_lower, port_filter, None)),
{
    if let Some((a, b)) = split_pair(range_text, '-') {
        lemma_parse_unsigned_bounds(a, 10, 65535);
        lemma_parse_unsigned_bounds(b, 10, 65535);
    }
    lemma_filter_keeps_pred(
        entries,
        entry_filter(show_all, filter_lower, port_filter, range_of(Some(range_text))),
    );
}

/// The process filter keeps an entry exactly when the lowercase form of its
/// process name contains the lowercase form of the filter; an entry without
/// a process name is never kept by a process filter.
pub proof fn law_process_filter(e: PortEntry, filter: Seq<char>)
    ensures
        entry_filter(true, Some(lowercase_of(filter)), None, None)(e) <==> match e.process_name {
            Some(n) => contains_text(lowercase_of(n@), lowercase_of(filter)),
            None => false,
        },
{
}

/// With a port asked for, every entry kept is on that port, whatever the
/// other filters are; and every entry on that port that passes the other
/// filters is kept.
pub proof fn law_port_filter(
    entries: Seq<PortEntry>,
    show_all: bool,
    filter_lower: Option<Seq<char>>,
    port: u16,
    range: Option<(u16, u16)>,
)
    ensures
        forall|i: int|
            0 <= i < entries.filter(entry_filter(show_all, filter_lower, Some(port), range)).len()
                ==> (#[trigger] entries.filter(
                entry_filter(show_all, filter_lower, Some(port), range),
            )[i]).port == port,
        forall|i: int|
            0 <= i < entries.len() && (#[trigger] entries[i]).port == port && entry_filter(
                show_all,
                filter_lower,
                None,
                range,
            )(entries[i]) ==> entries.filter(
                entry_filter(show_all, filter_lower, Some(port), range),
            ).contains(entries[i]),
{
    let pred = entry_filter(show_all, filter_lower, Some(port), range);
    lemma_filter_keeps_pred(entries, pred);
    assert forall|i: int|
        0 <= i < entries.len() && (#[trigger] entries[i]).port == port && entry_filter(
            show_all,
            filter_lower,
            None,
            range,
        )(entries[i]) implies entries.filter(pred).contains(entries[i]) by {
        entries.lemma_filter_contains(pred, i);
    }
}

} // verus!
