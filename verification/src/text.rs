use vstd::prelude::*;

verus! {

// ---------------------------------------------------------------------------
// Moving between `str`/`String` and character vectors
// ---------------------------------------------------------------------------

/// The characters of `s`, in order.
pub fn chars_of(s: &str) -> (r: Vec<char>)
    ensures
        r@ == s@,
{
    broadcast use vstd::string::group_string_axioms;
    let mut out: Vec<char> = Vec::new();
    for c in it: s.chars()
        invariant
            it.seq() == s@,
            out@ == it.seq().take(it.index() as int),
    {
        out.push(c);
    }
    out
}

} // verus!
verus! {

/// A `String` made of exactly the characters `cs`, in order.
///
/// Trusted: calls std's `FromIterator<char> for String` (through `collect`);
/// the contract claims that the string holds the given characters in order.
#[verifier::external_body]
pub(crate) fn string_from_chars(cs: &[char]) -> (r: String)
    ensures
        r@ == cs@,
{
    cs.iter().collect()
}

/// A copy of `s[from..to]` as a vector.
pub fn copy_range(s: &[char], from: usize, to: usize) -> (r: Vec<char>)
    requires
        from <= to <= s@.len(),
    ensures
        r@ == s@.subrange(from as int, to as int),
{
    let mut out: Vec<char> = Vec::new();
    let mut i = from;
    while i < to
        invariant
            from <= i <= to <= s@.len(),
            out@ == s@.subrange(from as int, i as int),
        decreases to - i,
    {
        out.push(s[i]);
        i += 1;
        assert(out@ =~= s@.subrange(from as int, i as int));
    }
    out
}

// ---------------------------------------------------------------------------
// Character classes
// ---------------------------------------------------------------------------

/// Unicode `White_Space`, as std's `char::is_whitespace` documents it.
pub open spec fn is_whitespace(c: char) -> bool {
    ||| ('\t' <= c && c <= '\r')
    ||| c == ' '
    ||| c == '\u{85}'
    ||| c == '\u{a0}'
    ||| c == '\u{1680}'
    ||| ('\u{2000}' <= c && c <= '\u{200a}')
    ||| c == '\u{2028}'
    ||| c == '\u{2029}'
    ||| c == '\u{202f}'
    ||| c == '\u{205f}'
    ||| c == '\u{3000}'
}

pub fn whitespace(c: char) -> (r: bool)
    ensures
        r == is_whitespace(c),
{
    ('\t' <= c && c <= '\r') || c == ' ' || c == '\u{85}' || c == '\u{a0}' || c == '\u{1680}'
        || ('\u{2000}' <= c && c <= '\u{200a}') || c == '\u{2028}' || c == '\u{2029}'
        || c == '\u{202f}' || c == '\u{205f}' || c == '\u{3000}'
}

} // verus!
verus! {

// ---------------------------------------------------------------------------
// Unsigned integers in text
// ---------------------------------------------------------------------------

/// The value of `c` as a digit in base `radix`, or -1 when it is not one
/// (std's `char::to_digit`: `0-9`, then `a-z` / `A-Z` for 10 to 35).
pub open spec fn digit_of(c: char, radix: int) -> int {
    let v = if '0' <= c && c <= '9' {
        c as int - '0' as int
    } else if 'a' <= c && c <= 'z' {
        c as int - 'a' as int + 10
    } else if 'A' <= c && c <= 'Z' {
        c as int - 'A' as int + 10
    } else {
        -1
    };
    if 0 <= v && v < radix {
        v
    } else {
        -1
    }
}

/// Every character of `s` is a digit in base `radix`.
pub open spec fn all_digits(s: Seq<char>, radix: int) -> bool {
    forall|i: int| 0 <= i < s.len() ==> #[trigger] digit_of(s[i], radix) >= 0
}

/// The number that the digits `s` spell in base `radix`.
pub open spec fn digits_value(s: Seq<char>, radix: int) -> int
    decreases s.len(),
{
    if s.len() == 0 {
        0
    } else {
        digits_value(s.drop_last(), radix) * radix + digit_of(s.last(), radix)
    }
}

/// `s` without one leading `+`, if it has one.
pub open spec fn unsigned_digits(s: Seq<char>) -> Seq<char> {
    if s.len() > 0 && s[0] == '+' {
        s.drop_first()
    } else {
        s
    }
}

/// What std's `from_str_radix` gives for an unsigned integer type whose
/// largest value is `max`: an optional `+`, then at least one digit, and a
/// value that fits.
pub open spec fn parse_unsigned(s: Seq<char>, radix: int, max: int) -> Option<int> {
    let d = unsigned_digits(s);
    if d.len() > 0 && all_digits(d, radix) && digits_value(d, radix) <= max {
        Some(digits_value(d, radix))
    } else {
        None
    }
}

/// The value of a run of digits is never negative.
pub proof fn lemma_digits_value_nonneg(s: Seq<char>, radix: int)
    requires
        radix >= 0,
        all_digits(s, radix),
    ensures
        digits_value(s, radix) >= 0,
    decreases s.len(),
{
    if s.len() > 0 {
        let t = s.drop_last();
        assert forall|i: int| 0 <= i < t.len() implies #[trigger] digit_of(t[i], radix) >= 0 by {
            assert(t[i] == s[i]);
        }
        lemma_digits_value_nonneg(t, radix);
        assert(digit_of(s[s.len() - 1], radix) >= 0);
        assert(digits_value(t, radix) * radix >= 0) by (nonlinear_arith)
            requires
                digits_value(t, radix) >= 0,
                radix >= 0,
        ;
    }
}

/// What `parse_unsigned` gives lies between 0 and `max`.
pub proof fn lemma_parse_unsigned_bounds(s: Seq<char>, radix: int, max: int)
    requires
        radix >= 0,
    ensures
        parse_unsigned(s, radix, max) matches Some(v) ==> 0 <= v <= max,
{
    let d = unsigned_digits(s);
    if d.len() > 0 && all_digits(d, radix) {
        lemma_digits_value_nonneg(d, radix);
    }
}

/// `digit_of` for exec code.
pub fn digit(c: char, radix: u32) -> (r: Option<u32>)
    requires
        radix <= 36,
    ensures
        match r {
            Some(v) => v == digit_of(c, radix as int) && v < radix,
            None => digit_of(c, radix as int) == -1,
        },
{
    let v: u32 = if '0' <= c && c <= '9' {
        (c as u32) - ('0' as u32)
    } else if 'a' <= c && c <= 'z' {
        (c as u32) - ('a' as u32) + 10
    } else if 'A' <= c && c <= 'Z' {
        (c as u32) - ('A' as u32) + 10
    } else {
        return None;
    };
    if v < radix {
        Some(v)
    } else {
        None
    }
}

/// Parses an unsigned number the way std's `from_str_radix` does, for a
/// type whose largest value is `max`.
pub fn parse_unsigned_chars(s: &[char], radix: u32, max: u64) -> (r: Option<u64>)
    requires
        2 <= radix <= 36,
    ensures
        match r {
            Some(v) => parse_unsigned(s@, radix as int, max as int) == Some(v as int),
            None => parse_unsigned(s@, radix as int, max as int) is None,
        },
{
    let len = s.len();
    let start: usize = if len > 0 && s[0] == '+' {
        1
    } else {
        0
    };
    let ghost d = unsigned_digits(s@);
    assert(d =~= s@.subrange(start as int, len as int));
    if start == len {
        return None;
    }
    let mut acc: u64 = 0;
    let mut over = false;
    let mut i = start;
    while i < len
        invariant
            start <= i <= len == s@.len(),
            d == s@.subrange(start as int, len as int),
            d == unsigned_digits(s@),
            all_digits(s@.subrange(start as int, i as int), radix as int),
            digits_value(s@.subrange(start as int, i as int), radix as int) >= 0,
            !over ==> acc == digits_value(s@.subrange(start as int, i as int), radix as int),
            over ==> digits_value(s@.subrange(start as int, i as int), radix as int) > max,
            !over ==> acc <= max,
            2 <= radix <= 36,
        decreases len - i,
    {
        let ghost prev = s@.subrange(start as int, i as int);
        let ghost next = s@.subrange(start as int, i + 1);
        assert(next.drop_last() =~= prev);
        assert(next.last() == s@[i as int]);
        match digit(s[i], radix) {
            None => {
                assert(d[i - start] == s@[i as int]);
                assert(digit_of(d[i - start], radix as int) < 0);
                return None;
            },
            Some(dv) => {
                let ghost pv = digits_value(prev, radix as int);
                assert(digits_value(next, radix as int) == pv * radix + dv);
                assert(pv * radix >= pv) by (nonlinear_arith)
                    requires
                        pv >= 0,
                        radix >= 1,
                ;
                if !over {
                    if (dv as u64) > max || acc > (max - dv as u64) / (radix as u64) {
                        assert(pv * radix + dv > max) by (nonlinear_arith)
                            requires
                                pv == acc,
                                acc > (max - dv) / (radix as int) || dv > max,
                                radix >= 2,
                                dv >= 0,
                                pv >= 0,
                        ;
                        over = true;
                    } else {
                        assert(acc * radix + dv <= max) by (nonlinear_arith)
                            requires
                                acc <= (max - dv) / (radix as int),
                                dv <= max,
                                radix >= 2,
                        ;
                        acc = acc * (radix as u64) + (dv as u64);
                    }
                }
                assert(all_digits(next, radix as int)) by {
                    assert forall|k: int| 0 <= k < next.len() implies #[trigger] digit_of(
                        next[k],
                        radix as int,
                    ) >= 0 by {
                        if k < prev.len() {
                            assert(next[k] == prev[k]);
                        }
                    }
                }
                i += 1;
            },
        }
    }
    assert(s@.subrange(start as int, i as int) == d);
    if over {
        None
    } else {
        Some(acc)
    }
}

} // verus!
verus! {

// ---------------------------------------------------------------------------
// Decimal text of numbers
// ---------------------------------------------------------------------------

/// The character of decimal digit `d`.
pub open spec fn digit_char(d: int) -> char {
    if d == 0 {
        '0'
    } else if d == 1 {
        '1'
    } else if d == 2 {
        '2'
    } else if d == 3 {
        '3'
    } else if d == 4 {
        '4'
    } else if d == 5 {
        '5'
    } else if d == 6 {
        '6'
    } else if d == 7 {
        '7'
    } else if d == 8 {
        '8'
    } else {
        '9'
    }
}

/// The decimal text of `n`, as `{}` formats it: no sign, no leading zeros.
pub open spec fn decimal(n: nat) -> Seq<char>
    decreases n,
{
    if n < 10 {
        seq![digit_char(n as int)]
    } else {
        decimal(n / 10).push(digit_char((n % 10) as int))
    }
}

proof fn lemma_digit_char(d: int)
    requires
        0 <= d < 10,
    ensures
        digit_of(digit_char(d), 10) == d,
        '0' <= digit_char(d) <= '9',
{
}

/// The decimal text of `n` is a non-empty run of decimal digits that spells `n`.
pub proof fn lemma_decimal(n: nat)
    ensures
        decimal(n).len() > 0,
        forall|i: int| 0 <= i < decimal(n).len() ==> '0' <= #[trigger] decimal(n)[i] <= '9',
        all_digits(decimal(n), 10),
        digits_value(decimal(n), 10) == n,
    decreases n,
{
    if n < 10 {
        lemma_digit_char(n as int);
        assert(decimal(n).drop_last() =~= Seq::<char>::empty());
        assert(digits_value(Seq::<char>::empty(), 10) == 0);
        assert(decimal(n).last() == digit_char(n as int));
    } else {
        lemma_decimal(n / 10);
        lemma_digit_char((n % 10) as int);
        let t = decimal(n / 10);
        assert(decimal(n).drop_last() =~= t);
        assert forall|i: int| 0 <= i < decimal(n).len() implies '0' <= #[trigger] decimal(n)[i]
            <= '9' by {
            if i < t.len() {
                assert(decimal(n)[i] == t[i]);
            }
        }
        assert forall|i: int| 0 <= i < decimal(n).len() implies #[trigger] digit_of(
            decimal(n)[i],
            10,
        ) >= 0 by {
            if i < t.len() {
                assert(decimal(n)[i] == t[i]);
                assert(digit_of(t[i], 10) >= 0);
            }
        }
        assert(decimal(n).last() == digit_char((n % 10) as int));
        assert(digits_value(decimal(n), 10) == digits_value(t, 10) * 10 + digit_of(
            digit_char((n % 10) as int),
            10,
        ));
        assert(n == (n / 10) * 10 + n % 10);
    }
}

/// Reading the decimal text of `n` back gives `n`.
pub proof fn lemma_parse_decimal(n: nat, max: int)
    requires
        n <= max,
    ensures
        parse_unsigned(decimal(n), 10, max) == Some(n as int),
{
    lemma_decimal(n);
    assert(decimal(n)[0] != '+');
    assert(unsigned_digits(decimal(n)) == decimal(n));
}

fn digit_character(d: u64) -> (c: char)
    requires
        d < 10,
    ensures
        c == digit_char(d as int),
{
    match d {
        0 => '0',
        1 => '1',
        2 => '2',
        3 => '3',
        4 => '4',
        5 => '5',
        6 => '6',
        7 => '7',
        8 => '8',
        _ => '9',
    }
}

/// The decimal digits of `n`.
pub fn decimal_chars(n: u64) -> (r: Vec<char>)
    ensures
        r@ == decimal(n as nat),
    decreases n,
{
    if n < 10 {
        let mut v: Vec<char> = Vec::new();
        v.push(digit_character(n));
        v
    } else {
        let mut v = decimal_chars(n / 10);
        v.push(digit_character(n % 10));
        v
    }
}

/// The decimal text of `n` as a `String`.
pub fn decimal_string(n: u64) -> (r: String)
    ensures
        r@ == decimal(n as nat),
{
    let v = decimal_chars(n);
    string_from_chars(v.as_slice())
}

// ---------------------------------------------------------------------------
// Scanning
// ---------------------------------------------------------------------------

/// The number of leading characters of `s` for which `stop` does not hold.
pub open spec fn span_until(s: Seq<char>, stop: spec_fn(char) -> bool) -> nat
    decreases s.len(),
{
    if s.len() == 0 || stop(s[0]) {
        0
    } else {
        1 + span_until(s.drop_first(), stop)
    }
}

/// A scan that stopped at `m` measured `span_until`.
pub proof fn lemma_span_until(s: Seq<char>, stop: spec_fn(char) -> bool, m: int)
    requires
        0 <= m <= s.len(),
        forall|k: int| 0 <= k < m ==> !stop(#[trigger] s[k]),
        m == s.len() || stop(s[m]),
    ensures
        span_until(s, stop) == m,
    decreases m,
{
    if m > 0 {
        let t = s.drop_first();
        assert forall|k: int| 0 <= k < m - 1 implies !stop(#[trigger] t[k]) by {
            assert(t[k] == s[k + 1]);
        }
        if m < s.len() {
            assert(t[m - 1] == s[m]);
        }
        assert(!stop(s[0]));
        lemma_span_until(t, stop, m - 1);
    }
}

/// Whether `c` ends a line.
pub open spec fn is_newline(c: char) -> bool {
    c == '\n'
}

/// A line without one trailing carriage return.
pub open spec fn strip_cr(l: Seq<char>) -> Seq<char> {
    if l.len() > 0 && l.last() == '\r' {
        l.drop_last()
    } else {
        l
    }
}

/// The lines of `s`, as std's `str::lines` gives them: split at `\n`, a
/// `\r` just before a `\n` dropped, and no empty line after a final `\n`.
pub open spec fn lines(s: Seq<char>) -> Seq<Seq<char>>
    decreases s.len(),
{
    if s.len() == 0 {
        seq![]
    } else {
        let n = span_until(s, |c: char| is_newline(c)) as int;
        if n < s.len() {
            seq![strip_cr(s.take(n))] + lines(s.skip(n + 1))
        } else {
            seq![s]
        }
    }
}

/// The views of a sequence of character vectors.
pub open spec fn views(v: Seq<Vec<char>>) -> Seq<Seq<char>> {
    v.map_values(|l: Vec<char>| l@)
}

pub proof fn lemma_span_le(s: Seq<char>, stop: spec_fn(char) -> bool)
    ensures
        span_until(s, stop) <= s.len(),
    decreases s.len(),
{
    if s.len() > 0 && !stop(s[0]) {
        lemma_span_le(s.drop_first(), stop);
    }
}

/// Splits `s` into lines, as `str::lines` does.
pub fn split_lines(s: &[char]) -> (r: Vec<Vec<char>>)
    ensures
        views(r@) == lines(s@),
{
    let len = s.len();
    let mut out: Vec<Vec<char>> = Vec::new();
    let mut i: usize = 0;
    let ghost nl = |c: char| is_newline(c);
    assert(s@.skip(0) =~= s@);
    while i < len
        invariant
            i <= len == s@.len(),
            nl == (|c: char| is_newline(c)),
            views(out@) + lines(s@.skip(i as int)) == lines(s@),
        decreases len - i,
    {
        let ghost rest = s@.skip(i as int);
        let mut j = i;
        while j < len && s[j] != '\n'
            invariant
                i <= j <= len == s@.len(),
                forall|k: int| i <= k < j ==> s@[k] != '\n',
            decreases len - j,
        {
            j += 1;
        }
        proof {
            assert forall|k: int| 0 <= k < j - i implies !nl(#[trigger] rest[k]) by {
                assert(rest[k] == s@[i + k]);
            }
            if j < len {
                assert(rest[j - i] == s@[j as int]);
            }
            lemma_span_until(rest, nl, j - i);
        }
        let ghost old_out = out@;
        if j < len {
            let mut end = j;
            if end > i && s[end - 1] == '\r' {
                end = end - 1;
            }
            let line = copy_range(s, i, end);
            proof {
                let t = rest.take(j - i);
                assert(t =~= s@.subrange(i as int, j as int));
                assert(strip_cr(t) =~= line@);
                assert(rest.skip(j - i + 1) =~= s@.skip(j + 1));
            }
            out.push(line);
            i = j + 1;
        } else {
            let line = copy_range(s, i, len);
            proof {
                assert(rest =~= line@);
                assert(lines(rest) == seq![rest]);
                assert(s@.skip(len as int) =~= Seq::<char>::empty());
            }
            out.push(line);
            i = len;
        }
        assert(views(out@) =~= views(old_out).push(out@.last()@));
        assert(views(out@) + lines(s@.skip(i as int)) =~= views(old_out) + lines(rest));
    }
    assert(s@.skip(len as int) =~= Seq::<char>::empty());
    assert(views(out@) + lines(s@.skip(len as int)) =~= views(out@));
    out
}

} // verus!
verus! {

/// The whitespace-separated fields of `s`, as std's `str::split_whitespace`
/// gives them: the maximal runs of characters that are not whitespace.
pub open spec fn fields(s: Seq<char>) -> Seq<Seq<char>>
    decreases s.len(),
{
    if s.len() == 0 {
        seq![]
    } else if is_whitespace(s[0]) {
        fields(s.drop_first())
    } else {
        let n = span_until(s, |c: char| is_whitespace(c)) as int;
        proof {
            lemma_span_le(s, |c: char| is_whitespace(c));
        }
        seq![s.take(n)] + fields(s.skip(n))
    }
}

/// Splits `s` at whitespace, as `str::split_whitespace` does.
pub fn split_fields(s: &[char]) -> (r: Vec<Vec<char>>)
    ensures
        views(r@) == fields(s@),
{
    let len = s.len();
    let mut out: Vec<Vec<char>> = Vec::new();
    let mut i: usize = 0;
    let ghost ws = |c: char| is_whitespace(c);
    assert(s@.skip(0) =~= s@);
    while i < len
        invariant
            i <= len == s@.len(),
            ws == (|c: char| is_whitespace(c)),
            views(out@) + fields(s@.skip(i as int)) == fields(s@),
        decreases len - i,
    {
        let ghost rest = s@.skip(i as int);
        assert(rest[0] == s@[i as int]);
        if whitespace(s[i]) {
            assert(rest.drop_first() =~= s@.skip(i + 1));
            i += 1;
        } else {
            let mut j = i + 1;
            while j < len && !whitespace(s[j])
                invariant
                    i < j <= len == s@.len(),
                    forall|k: int| i <= k < j ==> !is_whitespace(#[trigger] s@[k]),
                decreases len - j,
            {
                j += 1;
            }
            proof {
                assert forall|k: int| 0 <= k < j - i implies !ws(#[trigger] rest[k]) by {
                    assert(rest[k] == s@[i + k]);
                }
                if j < len {
                    assert(rest[j - i] == s@[j as int]);
                }
                lemma_span_until(rest, ws, j - i);
            }
            let ghost old_out = out@;
            let field = copy_range(s, i, j);
            assert(rest.take(j - i) =~= field@);
            assert(rest.skip(j - i) =~= s@.skip(j as int));
            out.push(field);
            assert(views(out@) =~= views(old_out).push(field@));
            assert(views(out@) + fields(s@.skip(j as int)) =~= views(old_out) + fields(rest));
            i = j;
        }
    }
    assert(s@.skip(len as int) =~= Seq::<char>::empty());
    assert(views(out@) + fields(s@.skip(len as int)) =~= views(out@));
    out
}

/// `needle` occurs in `hay` starting at index `i`.
pub open spec fn occurs_at(hay: Seq<char>, needle: Seq<char>, i: int) -> bool {
    0 <= i && i + needle.len() <= hay.len() && hay.subrange(i, i + needle.len()) == needle
}

/// `needle` occurs somewhere in `hay` (std's `str::contains`).
pub open spec fn contains_text(hay: Seq<char>, needle: Seq<char>) -> bool {
    exists|i: int| occurs_at(hay, needle, i)
}

fn matches_at(hay: &[char], needle: &[char], i: usize) -> (r: bool)
    requires
        i + needle@.len() <= hay@.len(),
    ensures
        r == occurs_at(hay@, needle@, i as int),
{
    let n = needle.len();
    let hl = hay.len();
    let mut k: usize = 0;
    while k < n
        invariant
            k <= n == needle@.len(),
            hl == hay@.len(),
            i + n <= hl,
            forall|m: int| 0 <= m < k ==> hay@[i + m] == needle@[m],
        decreases n - k,
    {
        if hay[i + k] != needle[k] {
            assert(hay@.subrange(i as int, i + n)[k as int] != needle@[k as int]);
            return false;
        }
        k += 1;
    }
    assert(hay@.subrange(i as int, i + n) =~= needle@);
    true
}

/// Whether `needle` occurs in `hay`.
pub fn contains_chars(hay: &[char], needle: &[char]) -> (r: bool)
    ensures
        r == contains_text(hay@, needle@),
{
    if needle.len() == 0 {
        assert(hay@.subrange(0, 0) =~= needle@);
        assert(occurs_at(hay@, needle@, 0));
        return true;
    }
    if needle.len() > hay.len() {
        return false;
    }
    let hl = hay.len();
    let last = hl - needle.len();
    let mut i: usize = 0;
    while i <= last
        invariant
            last + needle@.len() == hay@.len() == hl,
            needle@.len() > 0,
            forall|m: int| 0 <= m < i ==> !occurs_at(hay@, needle@, m),
        decreases last + 1 - i,
    {
        if matches_at(hay, needle, i) {
            return true;
        }
        i += 1;
    }
    false
}

/// `s` without leading and trailing whitespace (std's `str::trim`).
pub open spec fn trim(s: Seq<char>) -> Seq<char>
    decreases s.len(),
{
    if s.len() == 0 {
        s
    } else if is_whitespace(s[0]) {
        trim(s.drop_first())
    } else if is_whitespace(s.last()) {
        trim(s.drop_last())
    } else {
        s
    }
}

/// The characters of `s[from..to]` after trimming whitespace from both ends.
fn trimmed_bounds(s: &[char]) -> (r: (usize, usize))
    ensures
        r.0 <= r.1 <= s@.len(),
        trim(s@) == s@.subrange(r.0 as int, r.1 as int),
{
    let mut a: usize = 0;
    let mut b: usize = s.len();
    assert(s@.subrange(0, s@.len() as int) =~= s@);
    while a < b && (whitespace(s[a]) || whitespace(s[b - 1]))
        invariant
            a <= b <= s@.len(),
            trim(s@) == trim(s@.subrange(a as int, b as int)),
        decreases b - a,
    {
        let ghost t = s@.subrange(a as int, b as int);
        if whitespace(s[a]) {
            assert(t[0] == s@[a as int]);
            assert(t.drop_first() =~= s@.subrange(a + 1, b as int));
            a += 1;
        } else {
            assert(t[0] == s@[a as int]);
            assert(t.last() == s@[b - 1]);
            assert(t.drop_last() =~= s@.subrange(a as int, b - 1));
            b -= 1;
        }
    }
    proof {
        let t = s@.subrange(a as int, b as int);
        if a < b {
            assert(t[0] == s@[a as int]);
            assert(t.last() == s@[b - 1]);
        }
    }
    (a, b)
}

/// Whether `s`, trimmed, is `y` in either case
/// (`s.trim().eq_ignore_ascii_case("y")`).
pub open spec fn is_yes(s: Seq<char>) -> bool {
    trim(s) == seq!['y'] || trim(s) == seq!['Y']
}

/// Whether the answer `s` to a yes/no question means yes.
pub fn answer_is_yes(s: &[char]) -> (r: bool)
    ensures
        r == is_yes(s@),
{
    let (a, b) = trimmed_bounds(s);
    let ghost t = s@.subrange(a as int, b as int);
    if b - a == 1 && (s[a] == 'y' || s[a] == 'Y') {
        assert(t =~= seq![s@[a as int]]);
        true
    } else {
        proof {
            if b - a == 1 {
                assert(t[0] == s@[a as int]);
                assert(seq!['y'][0] == 'y');
                assert(seq!['Y'][0] == 'Y');
            }
            assert(seq!['y'].len() == 1);
            assert(seq!['Y'].len() == 1);
        }
        false
    }
}

} // verus!
verus! {

// ---------------------------------------------------------------------------
// Unicode case mapping (std)
// ---------------------------------------------------------------------------

/// The Unicode lowercase mapping of `s`, as std's `str::to_lowercase` computes it.
pub uninterp spec fn lowercase_of(s: Seq<char>) -> Seq<char>;

/// The Unicode uppercase mapping of `s`, as std's `str::to_uppercase` computes it.
pub uninterp spec fn uppercase_of(s: Seq<char>) -> Seq<char>;

/// Every character of `s` is ASCII.
pub open spec fn is_ascii_text(s: Seq<char>) -> bool {
    forall|i: int| 0 <= i < s.len() ==> (#[trigger] s[i] as u32) < 128
}

/// The ASCII upper case of `c`: `a`-`z` become `A`-`Z`, all else stays.
pub open spec fn ascii_upper(c: char) -> char {
    if 'a' <= c <= 'z' {
        ((c as int) - 32) as char
    } else {
        c
    }
}

/// The ASCII lower case of `c`: `A`-`Z` become `a`-`z`, all else stays.
pub open spec fn ascii_lower(c: char) -> char {
    if 'A' <= c <= 'Z' {
        ((c as int) + 32) as char
    } else {
        c
    }
}

/// Trusted: calls std's `str::to_lowercase`. The contract claims that the
/// result is a function of the characters of `s` (named `lowercase_of`),
/// and that on ASCII text it maps `A`-`Z` to `a`-`z` and keeps every other
/// character; the Unicode case tables beyond ASCII are not stated.
#[verifier::external_body]
pub(crate) fn to_lowercase(s: &str) -> (r: String)
    ensures
        r@ == lowercase_of(s@),
        is_ascii_text(s@) ==> r@ == s@.map_values(|c: char| ascii_lower(c)),
{
    s.to_lowercase()
}

/// Trusted: calls std's `str::to_uppercase`. The contract claims that the
/// result is a function of the characters of `s` (named `uppercase_of`),
/// and that on ASCII text it maps `a`-`z` to `A`-`Z` and keeps every other
/// character; the Unicode case tables beyond ASCII are not stated.
#[verifier::external_body]
pub(crate) fn to_uppercase(s: &str) -> (r: String)
    ensures
        r@ == uppercase_of(s@),
        is_ascii_text(s@) ==> r@ == s@.map_values(|c: char| ascii_upper(c)),
{
    s.to_uppercase()
}

} // verus!
verus! {

// ---------------------------------------------------------------------------
// Splitting at a separator
// ---------------------------------------------------------------------------

/// How many times `c` occurs in `s`.
pub open spec fn count_char(s: Seq<char>, c: char) -> nat
    decreases s.len(),
{
    if s.len() == 0 {
        0
    } else {
        count_char(s.drop_last(), c) + if s.last() == c {
            1nat
        } else {
            0nat
        }
    }
}

/// The number of leading characters of `s` that are not `c`.
pub open spec fn span_until_char(s: Seq<char>, c: char) -> nat
    decreases s.len(),
{
    if s.len() == 0 || s[0] == c {
        0
    } else {
        1 + span_until_char(s.drop_first(), c)
    }
}

/// A scan that stopped at `m` measured `span_until_char`.
pub proof fn lemma_span_until_char(s: Seq<char>, c: char, m: int)
    requires
        0 <= m <= s.len(),
        forall|k: int| 0 <= k < m ==> #[trigger] s[k] != c,
        m == s.len() || s[m] == c,
    ensures
        span_until_char(s, c) == m,
    decreases m,
{
    if m > 0 {
        let t = s.drop_first();
        assert forall|k: int| 0 <= k < m - 1 implies #[trigger] t[k] != c by {
            assert(t[k] == s[k + 1]);
        }
        if m < s.len() {
            assert(t[m - 1] == s[m]);
        }
        assert(s[0] != c);
        lemma_span_until_char(t, c, m - 1);
    }
}

/// `count_char` adds up over a concatenation.
pub proof fn lemma_count_char_add(x: Seq<char>, y: Seq<char>, c: char)
    ensures
        count_char(x + y, c) == count_char(x, c) + count_char(y, c),
    decreases y.len(),
{
    if y.len() == 0 {
        assert(x + y =~= x);
    } else {
        assert((x + y).drop_last() =~= x + y.drop_last());
        lemma_count_char_add(x, y.drop_last(), c);
    }
}

/// A text in which `c` does not occur counts no `c`.
pub proof fn lemma_count_char_none(x: Seq<char>, c: char)
    requires
        forall|i: int| 0 <= i < x.len() ==> #[trigger] x[i] != c,
    ensures
        count_char(x, c) == 0,
    decreases x.len(),
{
    if x.len() > 0 {
        let t = x.drop_last();
        assert forall|i: int| 0 <= i < t.len() implies #[trigger] t[i] != c by {
            assert(t[i] == x[i]);
        }
        lemma_count_char_none(t, c);
        assert(x[x.len() - 1] != c);
    }
}

/// Two texts without `sep`, joined by one `sep`, split back into the two.
pub proof fn lemma_split_pair_join(x: Seq<char>, y: Seq<char>, sep: char)
    requires
        forall|i: int| 0 <= i < x.len() ==> #[trigger] x[i] != sep,
        forall|i: int| 0 <= i < y.len() ==> #[trigger] y[i] != sep,
    ensures
        split_pair(x + seq![sep] + y, sep) == Some((x, y)),
{
    let s = x + seq![sep] + y;
    lemma_count_char_none(x, sep);
    lemma_count_char_none(y, sep);
    lemma_count_char_add(x, seq![sep], sep);
    lemma_count_char_add(x + seq![sep], y, sep);
    assert(seq![sep].drop_last() =~= Seq::<char>::empty());
    assert(count_char(Seq::<char>::empty(), sep) == 0);
    assert(count_char(seq![sep], sep) == 1);
    assert forall|k: int| 0 <= k < x.len() implies #[trigger] s[k] != sep by {
        assert(s[k] == x[k]);
    }
    assert(s[x.len() as int] == sep);
    lemma_span_until_char(s, sep, x.len() as int);
    assert(s.take(x.len() as int) =~= x);
    assert(s.skip(x.len() as int + 1) =~= y);
}

/// The pieces of `s` between occurrences of `sep`, as `str::split` gives
/// them: one more piece than there are separators, empty ones included.
pub open spec fn split_pieces(s: Seq<char>, sep: char) -> Seq<Seq<char>>
    decreases s.len(),
{
    if s.len() == 0 {
        seq![Seq::<char>::empty()]
    } else {
        let p = split_pieces(s.drop_last(), sep);
        if s.last() == sep {
            p.push(Seq::empty())
        } else {
            p.update(p.len() - 1, p.last().push(s.last()))
        }
    }
}

/// The two parts of `s` around `sep` when `s.split(sep)` gives exactly two
/// parts, that is when `sep` occurs exactly once.
pub open spec fn split_pair(s: Seq<char>, sep: char) -> Option<(Seq<char>, Seq<char>)> {
    if count_char(s, sep) == 1 {
        let k = span_until_char(s, sep) as int;
        Some((s.take(k), s.skip(k + 1)))
    } else {
        None
    }
}

/// Splits `s` at `sep` when it occurs exactly once.
pub fn split_once_exactly(s: &[char], sep: char) -> (r: Option<(Vec<char>, Vec<char>)>)
    ensures
        match (r, split_pair(s@, sep)) {
            (Some((a, b)), Some((x, y))) => a@ == x && b@ == y,
            (None, None) => true,
            _ => false,
        },
{
    let len = s.len();
    let mut count: usize = 0;
    let mut first: usize = len;
    let mut i: usize = 0;
    while i < len
        invariant
            i <= len == s@.len(),
            count == count_char(s@.take(i as int), sep),
            count <= i,
            first <= len,
            first == len <==> count == 0,
            first < len ==> first < i && s@[first as int] == sep,
            forall|k: int| 0 <= k < i && k < first ==> s@[k] != sep,
        decreases len - i,
    {
        assert(s@.take(i + 1).drop_last() =~= s@.take(i as int));
        if s[i] == sep {
            if count == 0 {
                first = i;
            }
            count += 1;
        }
        i += 1;
    }
    assert(s@.take(len as int) =~= s@);
    if count != 1 {
        return None;
    }
    proof {
        lemma_span_until_char(s@, sep, first as int);
    }
    let a = copy_range(s, 0, first);
    let b = copy_range(s, first + 1, len);
    assert(a@ =~= s@.take(first as int));
    assert(b@ =~= s@.skip(first + 1));
    Some((a, b))
}

// ---------------------------------------------------------------------------
// UTF-8 lengths
// ---------------------------------------------------------------------------

/// The number of bytes UTF-8 takes for `c`.
pub open spec fn utf8_width(c: char) -> nat {
    if (c as u32) < 0x80 {
        1
    } else if (c as u32) < 0x800 {
        2
    } else if (c as u32) < 0x10000 {
        3
    } else {
        4
    }
}

/// The number of bytes UTF-8 takes for `s` (std's `str::len`).
pub open spec fn utf8_len(s: Seq<char>) -> nat
    decreases s.len(),
{
    if s.len() == 0 {
        0
    } else {
        utf8_len(s.drop_last()) + utf8_width(s.last())
    }
}

/// The index of the character that starts at byte `b` of `s`'s UTF-8
/// encoding (`s.len()` when `b` is its end), or -1 when byte `b` is not on a
/// character boundary.
pub open spec fn char_index_at(s: Seq<char>, b: int) -> int
    decreases s.len(),
{
    if b == 0 {
        0
    } else if s.len() == 0 || b < 0 {
        -1
    } else if b < utf8_width(s[0]) {
        -1
    } else {
        let r = char_index_at(s.drop_first(), b - utf8_width(s[0]));
        if r < 0 {
            -1
        } else {
            r + 1
        }
    }
}

fn width_of(c: char) -> (w: usize)
    ensures
        w == utf8_width(c),
{
    let u = c as u32;
    if u < 0x80 {
        1
    } else if u < 0x800 {
        2
    } else if u < 0x10000 {
        3
    } else {
        4
    }
}

/// The UTF-8 length of `s`, saturated at `limit + 1`.
pub fn utf8_len_capped(s: &[char], limit: usize) -> (r: usize)
    requires
        limit < usize::MAX,
    ensures
        r <= limit ==> r == utf8_len(s@),
        r > limit ==> utf8_len(s@) > limit,
{
    let mut total: usize = 0;
    let mut i: usize = 0;
    while i < s.len()
        invariant
            i <= s@.len(),
            limit < usize::MAX,
            total <= limit ==> total == utf8_len(s@.take(i as int)),
            total > limit ==> utf8_len(s@.take(i as int)) > limit,
            total <= limit + 1,
        decreases s@.len() - i,
    {
        assert(s@.take(i + 1).drop_last() =~= s@.take(i as int));
        let w = width_of(s[i]);
        if total <= limit {
            total = if w > limit + 1 - total {
                limit + 1
            } else {
                total + w
            };
        }
        i += 1;
    }
    assert(s@.take(i as int) =~= s@);
    total
}

/// `char_index_at` for exec code.
pub fn char_index_of_byte(s: &[char], b: usize) -> (r: Option<usize>)
    ensures
        match r {
            Some(k) => char_index_at(s@, b as int) == k as int && k <= s@.len(),
            None => char_index_at(s@, b as int) == -1,
        },
{
    let mut i: usize = 0;
    let mut rem: usize = b;
    assert(s@.skip(0) =~= s@);
    while rem > 0
        invariant
            i <= s@.len(),
            char_index_at(s@, b as int) == if char_index_at(s@.skip(i as int), rem as int) < 0 {
                -1
            } else {
                i + char_index_at(s@.skip(i as int), rem as int)
            },
        decreases rem,
    {
        if i >= s.len() {
            return None;
        }
        let w = width_of(s[i]);
        let ghost t = s@.skip(i as int);
        assert(t[0] == s@[i as int]);
        if rem < w {
            return None;
        }
        assert(t.drop_first() =~= s@.skip(i + 1));
        rem = rem - w;
        i = i + 1;
    }
    Some(i)
}

} // verus!
