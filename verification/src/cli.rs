use vstd::prelude::*;
use vstd::string::StringExecFns;

use crate::text::{
    chars_of, decimal, decimal_string, lemma_decimal, lemma_parse_decimal, lemma_split_pair_join,
    parse_unsigned, parse_unsigned_chars, split_once_exactly, split_pair, string_from_chars,
};

verus! {

/// The command line, as the program's options describe it.
pub struct Cli {
    /// Subcommand to run instead of listing ports.
    pub command: Option<Command>,
    /// Specific port number to inspect.
    pub port: Option<u16>,
    /// Show all connection states (not just LISTEN).
    pub all: bool,
    /// Filter by process name (substring match, case-insensitive).
    pub process: Option<String>,
    /// Port range to scan (e.g. 3000-4000).
    pub range: Option<String>,
    /// Output as JSON.
    pub json: bool,
    /// Disable colored output.
    pub no_color: bool,
    /// Enable watch mode (continuous monitoring).
    pub watch: bool,
    /// Watch mode refresh interval in seconds.
    pub interval: u64,
}

/// Subcommands.
pub enum Command {
    /// Kill the process occupying a specific port.
    Kill {
        /// Target port number.
        port: u16,
        /// Force kill without confirmation.
        force: bool,
    },
    /// Open http://localhost:<port> in the default browser.
    Open {
        /// Target port number.
        port: u16,
    },
}

/// The outcome of parsing a port range "START-END": the two ports, or the
/// message that explains why the text is no range.
pub open spec fn range_outcome(range: Seq<char>) -> Result<(u16, u16), Seq<char>> {
    match split_pair(range, '-') {
        None => Err(
            "Invalid range format: '"@ + range + "'. Use START-END (e.g. 3000-4000)"@,
        ),
        Some((a, b)) => match parse_unsigned(a, 10, 65535) {
            None => Err("Invalid start port: '"@ + a + "'"@),
            Some(start) => match parse_unsigned(b, 10, 65535) {
                None => Err("Invalid end port: '"@ + b + "'"@),
                Some(end) => if start > end {
                    Err(
                        "Start port "@ + decimal(start as nat) + " is greater than end port "@
                            + decimal(end as nat),
                    )
                } else {
                    Ok((start as u16, end as u16))
                },
            },
        },
    }
}

fn quoted_message(before: &str, middle: &[char], after: &str) -> (r: String)
    ensures
        r@ == before@ + middle@ + after@,
{
    let mut m = String::from_str(before);
    let mid = string_from_chars(middle);
    m.append(mid.as_str());
    m.append(after);
    m
}

impl Cli {
    /// Parse a port range string like "3000-4000" into (start, end).
    pub fn parse_range(range: &str) -> (r: Result<(u16, u16), String>)
        ensures
            match (r, range_outcome(range@)) {
                (Ok(p), Ok(q)) => p == q,
                (Err(e), Err(m)) => e@ == m,
                _ => false,
            },
    {
        let c = chars_of(range);
        let (a, b) = match split_once_exactly(c.as_slice(), '-') {
            Some(parts) => parts,
            None => {
                let mut m = String::from_str("Invalid range format: '");
                m.append(range);
                m.append("'. Use START-END (e.g. 3000-4000)");
                return Err(m);
            },
        };
        let start = match parse_unsigned_chars(a.as_slice(), 10, 65535) {
            Some(v) => v,
            None => return Err(quoted_message("Invalid start port: '", a.as_slice(), "'")),
        };
        let end = match parse_unsigned_chars(b.as_slice(), 10, 65535) {
            Some(v) => v,
            None => return Err(quoted_message("Invalid end port: '", b.as_slice(), "'")),
        };
        if start > end {
            let mut m = String::from_str("Start port ");
            m.append(decimal_string(start).as_str());
            m.append(" is greater than end port ");
            m.append(decimal_string(end).as_str());
            return Err(m);
        }
        Ok((start as u16, end as u16))
    }
}

/// A range written as START-END, the two ports in decimal, reads back as
/// those two ports when START is not above END, and is refused with the
/// message that says so when it is.
pub proof fn law_range_text_reads_back(start: u16, end: u16)
    ensures
        range_outcome(decimal(start as nat) + seq!['-'] + decimal(end as nat)) == if start
            <= end {
            Ok::<(u16, u16), Seq<char>>((start, end))
        } else {
            Err(
                "Start port "@ + decimal(start as nat) + " is greater than end port "@ + decimal(
                    end as nat,
                ),
            )
        },
{
    let x = decimal(start as nat);
    let y = decimal(end as nat);
    lemma_decimal(start as nat);
    lemma_decimal(end as nat);
    assert forall|i: int| 0 <= i < x.len() implies #[trigger] x[i] != '-' by {
        assert('0' <= x[i] <= '9');
    }
    assert forall|i: int| 0 <= i < y.len() implies #[trigger] y[i] != '-' by {
        assert('0' <= y[i] <= '9');
    }
    lemma_split_pair_join(x, y, '-');
    lemma_parse_decimal(start as nat, 65535);
    lemma_parse_decimal(end as nat, 65535);
}

} // verus!
