//! IP addresses in text: reading them as std's `IpAddr::from_str` does, and
//! writing them as std's `Display` does.

use vstd::prelude::*;

use crate::model::{ipv4, ipv6, lemma_ipv4, lemma_ipv6, BindAddress};
use crate::text::{digit, digit_of, digits_value};

verus! {

// ---------------------------------------------------------------------------
// Reading
// ---------------------------------------------------------------------------

/// The number of consecutive digits (base `radix`) at the start of `s`.
pub open spec fn digit_run(s: Seq<char>, radix: int) -> nat
    decreases s.len(),
{
    if s.len() == 0 || digit_of(s[0], radix) < 0 {
        0
    } else {
        1 + digit_run(s.drop_first(), radix)
    }
}

/// std's `read_number`: the maximal run of digits at `pos`, read greedily;
/// no digit, more than `max_digits` digits, a leading zero when those are
/// not allowed, or a value above `max` fail. Gives the value and the
/// position after it.
pub open spec fn read_number(
    s: Seq<char>,
    pos: int,
    radix: int,
    max_digits: int,
    allow_zero_prefix: bool,
    max: int,
) -> Option<(int, int)> {
    if pos < 0 || pos > s.len() {
        None
    } else {
        let n = digit_run(s.skip(pos), radix) as int;
        if n == 0 || n > max_digits {
            None
        } else if !allow_zero_prefix && s[pos] == '0' && n > 1 {
            None
        } else {
            let v = digits_value(s.subrange(pos, pos + n), radix);
            if v <= max {
                Some((v, pos + n))
            } else {
                None
            }
        }
    }
}

/// std's `read_separator`: the position after `sep` when `index > 0`.
pub open spec fn read_sep(s: Seq<char>, pos: int, sep: char, index: int) -> Option<int> {
    if index > 0 {
        if 0 <= pos < s.len() && s[pos] == sep {
            Some(pos + 1)
        } else {
            None
        }
    } else {
        Some(pos)
    }
}

/// Octet `i` of a dotted IPv4 address (decimal, at most 3 digits, no
/// leading zero, at most 255), after its `.` separator.
pub open spec fn read_octet(s: Seq<char>, pos: int, i: int) -> Option<(int, int)> {
    match read_sep(s, pos, '.', i) {
        Some(q) => read_number(s, q, 10, 3, false, 255),
        None => None,
    }
}

/// std's `read_ipv4_addr`: four dotted octets at `pos`.
pub open spec fn read_ipv4(s: Seq<char>, pos: int) -> Option<(Seq<int>, int)> {
    match read_octet(s, pos, 0) {
        None => None,
        Some((a, p1)) => match read_octet(s, p1, 1) {
            None => None,
            Some((b, p2)) => match read_octet(s, p2, 2) {
                None => None,
                Some((c, p3)) => match read_octet(s, p3, 3) {
                    None => None,
                    Some((d, p4)) => Some((seq![a, b, c, d], p4)),
                },
            },
        },
    }
}

/// Group `i` of an IPv6 address (hex, at most 4 digits), after its `:`
/// separator.
pub open spec fn read_hex_group(s: Seq<char>, pos: int, i: int) -> Option<(int, int)> {
    match read_sep(s, pos, ':', i) {
        Some(q) => read_number(s, q, 16, 4, true, 0xffff),
        None => None,
    }
}

/// std's `read_groups`, from group `i` on, with the groups `acc` read so
/// far: colon-separated hex groups, up to `limit` of them, of which the
/// last two may be written as an embedded IPv4 address. Gives the groups,
/// the position after them, and whether an IPv4 address ended them.
pub open spec fn read_groups(s: Seq<char>, pos: int, i: int, limit: int, acc: Seq<int>) -> (
    Seq<int>,
    int,
    bool,
)
    decreases limit - i,
{
    if i >= limit {
        (acc, pos, false)
    } else {
        let v4 = if i < limit - 1 {
            match read_sep(s, pos, ':', i) {
                Some(q) => read_ipv4(s, q),
                None => None,
            }
        } else {
            None
        };
        match v4 {
            Some((o, p)) => (acc + seq![o[0] * 256 + o[1], o[2] * 256 + o[3]], p, true),
            None => match read_hex_group(s, pos, i) {
                Some((g, p)) => read_groups(s, p, i + 1, limit, acc.push(g)),
                None => (acc, pos, false),
            },
        }
    }
}

/// std's `read_ipv6_addr`: eight groups, or fewer around one `::` that
/// stands for groups of zeros. Gives the eight groups.
pub open spec fn read_ipv6(s: Seq<char>, pos: int) -> Option<(Seq<int>, int)> {
    let (head, p1, head_v4) = read_groups(s, pos, 0, 8, Seq::empty());
    if head.len() == 8 {
        Some((head, p1))
    } else if head_v4 {
        None
    } else if 0 <= p1 && p1 + 1 < s.len() && s[p1] == ':' && s[p1 + 1] == ':' {
        let limit = 8 - (head.len() + 1);
        let (tail, p3, _) = read_groups(s, p1 + 2, 0, limit, Seq::empty());
        Some((head + Seq::new((8 - head.len() - tail.len()) as nat, |k: int| 0int) + tail, p3))
    } else {
        None
    }
}

/// The octets of eight 16-bit groups, most significant first.
pub open spec fn group_octets(g: Seq<int>) -> Seq<u8> {
    Seq::new(16, |k: int| (if k % 2 == 0 { g[k / 2] / 256 } else { g[k / 2] % 256 }) as u8)
}

/// The address that std's `IpAddr::from_str` reads from `s`: IPv4 is tried
/// first, then IPv6, and the whole text must be read.
pub open spec fn ip_from_text(s: Seq<char>) -> Option<BindAddress> {
    match read_ipv4(s, 0) {
        Some((o, p)) => if p == s.len() {
            Some(ipv4(seq![o[0] as u8, o[1] as u8, o[2] as u8, o[3] as u8]))
        } else {
            None
        },
        None => match read_ipv6(s, 0) {
            Some((g, p)) => if p == s.len() {
                Some(ipv6(group_octets(g)))
            } else {
                None
            },
            None => None,
        },
    }
}

proof fn lemma_digit_run(s: Seq<char>, radix: int, m: int)
    requires
        0 <= m <= s.len(),
        forall|k: int| 0 <= k < m ==> #[trigger] digit_of(s[k], radix) >= 0,
        m == s.len() || digit_of(s[m], radix) < 0,
    ensures
        digit_run(s, radix) == m,
    decreases m,
{
    if m > 0 {
        let t = s.drop_first();
        assert forall|k: int| 0 <= k < m - 1 implies #[trigger] digit_of(t[k], radix) >= 0 by {
            assert(t[k] == s[k + 1]);
        }
        if m < s.len() {
            assert(t[m - 1] == s[m]);
        }
        assert(digit_of(s[0], radix) >= 0);
        lemma_digit_run(t, radix, m - 1);
    }
}

/// `b` to the power `e`.
pub open spec fn power(b: int, e: nat) -> int
    decreases e,
{
    if e == 0 {
        1
    } else {
        b * power(b, (e - 1) as nat)
    }
}

fn is_digit_char(c: char, radix: u32) -> (r: bool)
    requires
        radix <= 36,
    ensures
        r == (digit_of(c, radix as int) >= 0),
{
    match digit(c, radix) {
        Some(_) => true,
        None => false,
    }
}

/// `read_number` for exec code.
fn read_number_at(
    s: &[char],
    pos: usize,
    radix: u32,
    max_digits: usize,
    allow_zero_prefix: bool,
    max: u32,
) -> (r: Option<(u32, usize)>)
    requires
        pos <= s@.len(),
        radix == 10 || radix == 16,
        1 <= max_digits <= 4,
    ensures
        match r {
            Some((v, p)) => read_number(
                s@,
                pos as int,
                radix as int,
                max_digits as int,
                allow_zero_prefix,
                max as int,
            ) == Some((v as int, p as int)) && p <= s@.len() && v <= max,
            None => read_number(
                s@,
                pos as int,
                radix as int,
                max_digits as int,
                allow_zero_prefix,
                max as int,
            ) is None,
        },
{
    let len = s.len();
    let mut j = pos;
    while j < len && is_digit_char(s[j], radix)
        invariant
            pos <= j <= len == s@.len(),
            radix == 10 || radix == 16,
            forall|k: int| pos <= k < j ==> #[trigger] digit_of(s@[k], radix as int) >= 0,
        decreases len - j,
    {
        j += 1;
    }
    let ghost rest = s@.skip(pos as int);
    proof {
        assert forall|k: int| 0 <= k < j - pos implies #[trigger] digit_of(rest[k], radix as int)
            >= 0 by {
            assert(rest[k] == s@[pos + k]);
        }
        if j < len {
            assert(rest[j - pos] == s@[j as int]);
        }
        lemma_digit_run(rest, radix as int, j - pos);
    }
    let n = j - pos;
    if n == 0 || n > max_digits {
        return None;
    }
    if !allow_zero_prefix && s[pos] == '0' && n > 1 {
        return None;
    }
    let mut v: u64 = 0;
    let mut i = pos;
    assert(s@.subrange(pos as int, pos as int) =~= Seq::<char>::empty());
    while i < j
        invariant
            pos <= i <= j <= len == s@.len(),
            j - pos <= 4,
            radix == 10 || radix == 16,
            forall|k: int| pos <= k < j ==> #[trigger] digit_of(s@[k], radix as int) >= 0,
            v == digits_value(s@.subrange(pos as int, i as int), radix as int),
            0 <= v < power(radix as int, (i - pos) as nat),
            power(radix as int, (i - pos) as nat) <= power(16, (i - pos) as nat),
        decreases j - i,
    {
        let d = match digit(s[i], radix) {
            Some(d) => d,
            None => {
                assert(digit_of(s@[i as int], radix as int) >= 0);
                0
            },
        };
        let ghost prev = s@.subrange(pos as int, i as int);
        let ghost next = s@.subrange(pos as int, i + 1);
        assert(next.drop_last() =~= prev);
        let ghost k = (i - pos) as nat;
        let ghost pk = power(radix as int, k);
        let ghost qk = power(16, k);
        assert(power(radix as int, k + 1) == radix * pk);
        assert(power(16, k + 1) == 16 * qk);
        assert(v * radix + d < radix * pk) by (nonlinear_arith)
            requires
                0 <= v < pk,
                d < radix,
                radix > 0,
        ;
        assert(radix * pk <= 16 * qk) by (nonlinear_arith)
            requires
                pk <= qk,
                radix <= 16,
                pk >= 0,
        ;
        assert(qk <= 4096) by {
            assert(power(16, 0) == 1);
            assert(power(16, 1) == 16);
            assert(power(16, 2) == 256);
            assert(power(16, 3) == 4096);
        }
        v = v * (radix as u64) + (d as u64);
        i += 1;
    }
    assert(s@.subrange(pos as int, j as int) == s@.subrange(pos as int, pos + n));
    assert(v < 65536) by {
        assert(power(16, 0) == 1);
        assert(power(16, 1) == 16);
        assert(power(16, 2) == 256);
        assert(power(16, 3) == 4096);
        assert(power(16, 4) == 65536);
    }
    if v <= max as u64 {
        Some((v as u32, j))
    } else {
        None
    }
}

} // verus!
verus! {

fn read_sep_at(s: &[char], pos: usize, sep: char, index: usize) -> (r: Option<usize>)
    requires
        pos <= s@.len(),
    ensures
        match r {
            Some(q) => read_sep(s@, pos as int, sep, index as int) == Some(q as int) && q <= s@.len(),
            None => read_sep(s@, pos as int, sep, index as int) is None,
        },
{
    if index > 0 {
        if pos < s.len() && s[pos] == sep {
            Some(pos + 1)
        } else {
            None
        }
    } else {
        Some(pos)
    }
}

fn read_octet_at(s: &[char], pos: usize, i: usize) -> (r: Option<(u32, usize)>)
    requires
        pos <= s@.len(),
    ensures
        match r {
            Some((v, p)) => read_octet(s@, pos as int, i as int) == Some((v as int, p as int))
                && p <= s@.len(),
            None => read_octet(s@, pos as int, i as int) is None,
        },
{
    match read_sep_at(s, pos, '.', i) {
        Some(q) => {
            read_number_at(s, q, 10, 3, false, 255)
        },
        None => None,
    }
}

fn read_ipv4_at(s: &[char], pos: usize) -> (r: Option<([u32; 4], usize)>)
    requires
        pos <= s@.len(),
    ensures
        match r {
            Some((o, p)) => read_ipv4(s@, pos as int) == Some((
                seq![o[0] as int, o[1] as int, o[2] as int, o[3] as int],
                p as int,
            )) && p <= s@.len() && o[0] <= 255 && o[1] <= 255 && o[2] <= 255 && o[3] <= 255,
            None => read_ipv4(s@, pos as int) is None,
        },
{
    let (a, p1) = match read_octet_at(s, pos, 0) {
        Some(x) => x,
        None => return None,
    };
    let (b, p2) = match read_octet_at(s, p1, 1) {
        Some(x) => x,
        None => return None,
    };
    let (c, p3) = match read_octet_at(s, p2, 2) {
        Some(x) => x,
        None => return None,
    };
    let (d, p4) = match read_octet_at(s, p3, 3) {
        Some(x) => x,
        None => return None,
    };
    Some(([a, b, c, d], p4))
}

} // verus!
verus! {

/// The integer values of a sequence of `u32`s.
pub open spec fn ints(v: Seq<u32>) -> Seq<int> {
    v.map_values(|x: u32| x as int)
}

fn read_hex_group_at(s: &[char], pos: usize, i: usize) -> (r: Option<(u32, usize)>)
    requires
        pos <= s@.len(),
    ensures
        match r {
            Some((v, p)) => read_hex_group(s@, pos as int, i as int) == Some((v as int, p as int))
                && p <= s@.len() && v <= 0xffff,
            None => read_hex_group(s@, pos as int, i as int) is None,
        },
{
    match read_sep_at(s, pos, ':', i) {
        Some(q) => read_number_at(s, q, 16, 4, true, 0xffff),
        None => None,
    }
}

fn read_groups_at(s: &[char], pos: usize, limit: usize) -> (r: (Vec<u32>, usize, bool))
    requires
        pos <= s@.len(),
        limit <= 8,
    ensures
        read_groups(s@, pos as int, 0, limit as int, Seq::empty()) == (ints(r.0@), r.1 as int, r.2),
        r.1 <= s@.len(),
        r.0@.len() <= limit,
        forall|k: int| 0 <= k < r.0@.len() ==> #[trigger] r.0@[k] <= 0xffff,
{
    let mut acc: Vec<u32> = Vec::new();
    let mut p = pos;
    let mut i: usize = 0;
    assert(ints(acc@) =~= Seq::<int>::empty());
    while i < limit
        invariant
            i <= limit <= 8,
            acc@.len() == i,
            p <= s@.len(),
            forall|k: int| 0 <= k < acc@.len() ==> #[trigger] acc@[k] <= 0xffff,
            read_groups(s@, pos as int, 0, limit as int, Seq::empty()) == read_groups(
                s@,
                p as int,
                i as int,
                limit as int,
                ints(acc@),
            ),
        decreases limit - i,
    {
        if i < limit - 1 {
            if let Some(q) = read_sep_at(s, p, ':', i) {
                if let Some((o, p2)) = read_ipv4_at(s, q) {
                    let ghost before = ints(acc@);
                    acc.push(o[0] * 256 + o[1]);
                    acc.push(o[2] * 256 + o[3]);
                    assert(ints(acc@) =~= before + seq![
                        o[0] * 256 + o[1],
                        o[2] * 256 + o[3],
                    ]);
                    return (acc, p2, true);
                }
            }
        }
        match read_hex_group_at(s, p, i) {
            Some((g, p2)) => {
                let ghost before = ints(acc@);
                acc.push(g);
                assert(ints(acc@) =~= before.push(g as int));
                p = p2;
                i += 1;
            },
            None => {
                return (acc, p, false);
            },
        }
    }
    (acc, p, false)
}

} // verus!
verus! {

fn read_ipv6_at(s: &[char]) -> (r: Option<Vec<u32>>)
    ensures
        match r {
            Some(g) => read_ipv6(s@, 0) matches Some((h, p)) && h == ints(g@) && p == s@.len()
                && g@.len() == 8 && forall|k: int| 0 <= k < 8 ==> #[trigger] g@[k] <= 0xffff,
            None => read_ipv6(s@, 0) is None || (read_ipv6(s@, 0)->0).1 != s@.len(),
        },
{
    let (head, p1, head_v4) = read_groups_at(s, 0, 8);
    if head.len() == 8 {
        if p1 == s.len() {
            return Some(head);
        } else {
            return None;
        }
    }
    if head_v4 {
        return None;
    }
    if !(p1 < s.len() && s.len() - p1 > 1 && s[p1] == ':' && s[p1 + 1] == ':') {
        return None;
    }
    let limit = 8 - (head.len() + 1);
    let (tail, p3, _) = read_groups_at(s, p1 + 2, limit);
    if p3 != s.len() {
        return None;
    }
    let mut g: Vec<u32> = Vec::new();
    let mut k: usize = 0;
    while k < head.len()
        invariant
            k <= head@.len() < 8,
            g@ == head@.take(k as int),
        decreases head@.len() - k,
    {
        g.push(head[k]);
        k += 1;
        assert(g@ =~= head@.take(k as int));
    }
    let zeros = 8 - head.len() - tail.len();
    let mut z: usize = 0;
    let ghost hv = g@;
    while z < zeros
        invariant
            z <= zeros,
            g@ == hv + Seq::new(z as nat, |m: int| 0u32),
        decreases zeros - z,
    {
        g.push(0);
        z += 1;
        assert(g@ =~= hv + Seq::new(z as nat, |m: int| 0u32));
    }
    let mut t: usize = 0;
    let ghost hz = g@;
    while t < tail.len()
        invariant
            t <= tail@.len(),
            g@ == hz + tail@.take(t as int),
        decreases tail@.len() - t,
    {
        g.push(tail[t]);
        t += 1;
        assert(g@ =~= hz + tail@.take(t as int));
    }
    proof {
        assert(head@.take(head@.len() as int) =~= head@);
        assert(tail@.take(tail@.len() as int) =~= tail@);
        let zs = Seq::new(zeros as nat, |m: int| 0int);
        assert(ints(g@) =~= ints(head@) + zs + ints(tail@));
        assert forall|m: int| 0 <= m < 8 implies #[trigger] g@[m] <= 0xffff by {
            if m < head@.len() {
                assert(g@[m] == head@[m]);
            } else if m < head@.len() + zeros {
                assert(g@[m] == 0);
            } else {
                assert(g@[m] == tail@[m - head@.len() - zeros]);
            }
        }
    }
    Some(g)
}

fn octets_of_groups(g: &Vec<u32>) -> (r: [u8; 16])
    requires
        g@.len() == 8,
        forall|k: int| 0 <= k < 8 ==> #[trigger] g@[k] <= 0xffff,
    ensures
        r@ == group_octets(ints(g@)),
{
    let r: [u8; 16] = [
        (g[0] / 256) as u8, (g[0] % 256) as u8,
        (g[1] / 256) as u8, (g[1] % 256) as u8,
        (g[2] / 256) as u8, (g[2] % 256) as u8,
        (g[3] / 256) as u8, (g[3] % 256) as u8,
        (g[4] / 256) as u8, (g[4] % 256) as u8,
        (g[5] / 256) as u8, (g[5] % 256) as u8,
        (g[6] / 256) as u8, (g[6] % 256) as u8,
        (g[7] / 256) as u8, (g[7] % 256) as u8,
    ];
    assert(r@ =~= group_octets(ints(g@)));
    r
}

/// Reads an IP address from `s` as std's `IpAddr::from_str` does.
pub fn parse_ip_text(s: &[char]) -> (r: Option<BindAddress>)
    ensures
        r == ip_from_text(s@),
{
    match read_ipv4_at(s, 0) {
        Some((o, p)) => {
            if p == s.len() {
                let a: [u8; 4] = [o[0] as u8, o[1] as u8, o[2] as u8, o[3] as u8];
                proof {
                    lemma_ipv4(a);
                    assert(a@ =~= seq![o[0] as u8, o[1] as u8, o[2] as u8, o[3] as u8]);
                }
                Some(BindAddress::V4(a))
            } else {
                None
            }
        },
        None => match read_ipv6_at(s) {
            Some(g) => {
                let o = octets_of_groups(&g);
                proof {
                    lemma_ipv6(o);
                }
                Some(BindAddress::V6(o))
            },
            None => None,
        },
    }
}

} // verus!
verus! {

// ---------------------------------------------------------------------------
// Writing
// ---------------------------------------------------------------------------

/// The lowercase hex digit for `d` (below 16).
pub open spec fn hex_char(d: int) -> char {
    if d < 10 {
        crate::text::digit_char(d)
    } else if d == 10 {
        'a'
    } else if d == 11 {
        'b'
    } else if d == 12 {
        'c'
    } else if d == 13 {
        'd'
    } else if d == 14 {
        'e'
    } else {
        'f'
    }
}

/// The lowercase hex text of `n`, as `{:x}` formats it: no leading zeros.
pub open spec fn hex_text(n: nat) -> Seq<char>
    decreases n,
{
    if n < 16 {
        seq![hex_char(n as int)]
    } else {
        hex_text(n / 16).push(hex_char((n % 16) as int))
    }
}

/// The dotted-decimal text of four octets.
pub open spec fn ipv4_text(o: Seq<u8>) -> Seq<char> {
    crate::text::decimal(o[0] as nat) + seq!['.'] + crate::text::decimal(o[1] as nat) + seq!['.']
        + crate::text::decimal(o[2] as nat) + seq!['.'] + crate::text::decimal(o[3] as nat)
}

/// The eight 16-bit groups of sixteen octets.
pub open spec fn segments(o: Seq<u8>) -> Seq<int> {
    Seq::new(8, |i: int| o[2 * i] * 256 + o[2 * i + 1])
}

/// The number of consecutive zero groups starting at `i`.
pub open spec fn zero_run(g: Seq<int>, i: int) -> nat
    decreases g.len() - i,
{
    if i < 0 || i >= g.len() || g[i] != 0 {
        0
    } else {
        1 + zero_run(g, i + 1)
    }
}

/// The first index, among `i..g.len()` and `best`, where the longest run
/// of zero groups starts.
pub open spec fn longest_zero_start(g: Seq<int>, i: int, best: int) -> int
    decreases g.len() - i,
{
    if i < 0 || i >= g.len() {
        best
    } else if zero_run(g, i) > zero_run(g, best) {
        longest_zero_start(g, i + 1, i)
    } else {
        longest_zero_start(g, i + 1, best)
    }
}

/// The hex texts of groups joined with `:`.
pub open spec fn join_groups(g: Seq<int>) -> Seq<char>
    decreases g.len(),
{
    if g.len() == 0 {
        Seq::empty()
    } else if g.len() == 1 {
        hex_text(g[0] as nat)
    } else {
        join_groups(g.drop_last()) + seq![':'] + hex_text(g.last() as nat)
    }
}

/// The text of an IPv6 address as std's `Display` writes it: `::ffff:`
/// and dotted decimal for an IPv4-mapped address; otherwise hex groups,
/// with the first longest run of two or more zero groups written as `::`.
pub open spec fn ipv6_text(o: Seq<u8>) -> Seq<char> {
    if crate::model::is_v4_mapped(o) {
        seq![':', ':', 'f', 'f', 'f', 'f', ':'] + ipv4_text(o.subrange(12, 16))
    } else {
        let g = segments(o);
        let start = longest_zero_start(g, 0, 0);
        let len = zero_run(g, start) as int;
        if len > 1 {
            join_groups(g.take(start)) + seq![':', ':'] + join_groups(g.skip(start + len))
        } else {
            join_groups(g)
        }
    }
}

/// The text of an address, as std's `Display` for `IpAddr` writes it.
pub open spec fn address_text(a: BindAddress) -> Seq<char> {
    match a {
        BindAddress::V4(o) => ipv4_text(o@),
        BindAddress::V6(o) => ipv6_text(o@),
    }
}

fn hex_character(d: u32) -> (c: char)
    requires
        d < 16,
    ensures
        c == hex_char(d as int),
{
    if d < 10 {
        match d {
            0 => '0',
            1 => '1',
            2 => '2',
            3 => '3',
            4 => '4',
            5 => '5',
            6 => '6',
            7 => '7',
            8 => '8',
            _ => '9',
        }
    } else {
        match d {
            10 => 'a',
            11 => 'b',
            12 => 'c',
            13 => 'd',
            14 => 'e',
            _ => 'f',
        }
    }
}

fn push_hex(out: &mut Vec<char>, n: u32)
    ensures
        final(out)@ == old(out)@ + hex_text(n as nat),
    decreases n,
{
    if n < 16 {
        out.push(hex_character(n));
    } else {
        push_hex(out, n / 16);
        out.push(hex_character(n % 16));
    }
}

fn push_decimal(out: &mut Vec<char>, n: u64)
    ensures
        final(out)@ == old(out)@ + crate::text::decimal(n as nat),
{
    let d = crate::text::decimal_chars(n);
    let mut i: usize = 0;
    let ghost start = out@;
    while i < d.len()
        invariant
            i <= d@.len(),
            out@ == start + d@.take(i as int),
        decreases d@.len() - i,
    {
        out.push(d[i]);
        i += 1;
        assert(out@ =~= start + d@.take(i as int));
    }
    assert(d@.take(d@.len() as int) =~= d@);
}

fn push_ipv4(out: &mut Vec<char>, o: &[u8])
    requires
        o@.len() >= 4,
    ensures
        final(out)@ == old(out)@ + ipv4_text(o@),
{
    let ghost start = out@;
    push_decimal(out, o[0] as u64);
    out.push('.');
    push_decimal(out, o[1] as u64);
    out.push('.');
    push_decimal(out, o[2] as u64);
    out.push('.');
    push_decimal(out, o[3] as u64);
    assert(out@ =~= start + ipv4_text(o@));
}

fn push_groups(out: &mut Vec<char>, g: &[u32], from: usize, to: usize)
    requires
        from <= to <= g@.len(),
    ensures
        final(out)@ == old(out)@ + join_groups(ints(g@.subrange(from as int, to as int))),
{
    let ghost start = out@;
    let mut i = from;
    assert(ints(g@.subrange(from as int, from as int)) =~= Seq::<int>::empty());
    while i < to
        invariant
            from <= i <= to <= g@.len(),
            out@ == start + join_groups(ints(g@.subrange(from as int, i as int))),
        decreases to - i,
    {
        let ghost prev = ints(g@.subrange(from as int, i as int));
        let ghost next = ints(g@.subrange(from as int, i + 1));
        assert(next.drop_last() =~= prev);
        assert(next.last() == g@[i as int] as int);
        if i > from {
            out.push(':');
        } else {
            assert(prev.len() == 0);
        }
        push_hex(out, g[i]);
        i += 1;
        assert(out@ =~= start + join_groups(next));
    }
}

fn zero_run_at(g: &[u32], i: usize) -> (r: usize)
    requires
        i <= g@.len(),
    ensures
        r == zero_run(ints(g@), i as int),
{
    let mut j = i;
    while j < g.len() && g[j] == 0
        invariant
            i <= j <= g@.len(),
            zero_run(ints(g@), i as int) == (j - i) + zero_run(ints(g@), j as int),
        decreases g@.len() - j,
    {
        j += 1;
    }
    j - i
}

/// The text of an address, as std's `Display` for `IpAddr` writes it.
pub fn address_string(a: &BindAddress) -> (r: String)
    ensures
        r@ == address_text(*a),
{
    let mut out: Vec<char> = Vec::new();
    match a {
        BindAddress::V4(o) => {
            push_ipv4(&mut out, o.as_slice());
            assert(out@ =~= address_text(*a));
        },
        BindAddress::V6(o) => {
            let mut mapped = true;
            let mut k: usize = 0;
            while k < 10
                invariant
                    k <= 10,
                    o@.len() == 16,
                    mapped == forall|m: int| 0 <= m < k ==> o@[m] == 0,
                decreases 10 - k,
            {
                if o[k] != 0 {
                    mapped = false;
                }
                k += 1;
            }
            if mapped && o[10] == 0xff && o[11] == 0xff {
                out.push(':');
                out.push(':');
                out.push('f');
                out.push('f');
                out.push('f');
                out.push('f');
                out.push(':');
                let tail: [u8; 4] = [o[12], o[13], o[14], o[15]];
                push_ipv4(&mut out, tail.as_slice());
                assert(tail@ =~= o@.subrange(12, 16));
                assert(out@ =~= address_text(*a));
            } else {
                let mut g: Vec<u32> = Vec::new();
                let mut i: usize = 0;
                while i < 8
                    invariant
                        i <= 8,
                        o@.len() == 16,
                        g@.len() == i,
                        forall|m: int| 0 <= m < i ==> #[trigger] g@[m] == segments(o@)[m],
                    decreases 8 - i,
                {
                    g.push((o[2 * i] as u32) * 256 + (o[2 * i + 1] as u32));
                    i += 1;
                }
                let ghost segs = segments(o@);
                assert(ints(g@) =~= segs);
                let mut best: usize = 0;
                let mut best_len: usize = zero_run_at(g.as_slice(), 0);
                let mut j: usize = 0;
                while j < 8
                    invariant
                        j <= 8,
                        g@.len() == 8,
                        ints(g@) == segs,
                        best < 8,
                        best_len == zero_run(segs, best as int),
                        longest_zero_start(segs, 0, 0) == longest_zero_start(
                            segs,
                            j as int,
                            best as int,
                        ),
                    decreases 8 - j,
                {
                    let run = zero_run_at(g.as_slice(), j);
                    if run > best_len {
                        best = j;
                        best_len = run;
                    }
                    j += 1;
                }
                proof {
                    assert(zero_run(segs, best as int) <= 8 - best) by {
                        lemma_zero_run_le(segs, best as int);
                    }
                }
                if best_len > 1 {
                    push_groups(&mut out, g.as_slice(), 0, best);
                    out.push(':');
                    out.push(':');
                    push_groups(&mut out, g.as_slice(), best + best_len, 8);
                    assert(ints(g@.subrange(0, best as int)) =~= segs.take(best as int));
                    assert(ints(g@.subrange(best + best_len, 8)) =~= segs.skip(best + best_len));
                } else {
                    push_groups(&mut out, g.as_slice(), 0, 8);
                    assert(g@.subrange(0, 8) =~= g@);
                }
                assert(out@ =~= address_text(*a));
            }
        },
    }
    crate::text::string_from_chars(out.as_slice())
}

proof fn lemma_zero_run_le(g: Seq<int>, i: int)
    requires
        0 <= i <= g.len(),
    ensures
        zero_run(g, i) <= g.len() - i,
    decreases g.len() - i,
{
    if i < g.len() && g[i] == 0 {
        lemma_zero_run_le(g, i + 1);
    }
}

} // verus!
verus! {

/// Reads an IP address from `s` as std's `IpAddr::from_str` does.
pub fn parse_address(s: &str) -> (r: Option<BindAddress>)
    ensures
        r == ip_from_text(s@),
{
    let c = crate::text::chars_of(s);
    parse_ip_text(c.as_slice())
}

} // verus!
