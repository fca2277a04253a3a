//! Character-level text utilities shared by the two pseudo-file parsers:
//! splitting text into lines, prefix tests, quote trimming, locating
//! whitespace-delimited tokens, and parsing unsigned 64-bit integers.

use vstd::prelude::*;
use vstd::string::StrSliceExecFns;

verus! {

// ---------------------------------------------------------------------------
// Character classes
// ---------------------------------------------------------------------------

/// A Unicode white-space character, the delimiter between tokens of a
/// statistics line.
pub open spec fn is_space(c: char) -> bool {
    let u = c as u32;
    ||| 0x09 <= u && u <= 0x0D
    ||| u == 0x20
    ||| u == 0x85
    ||| u == 0xA0
    ||| u == 0x1680
    ||| 0x2000 <= u && u <= 0x200A
    ||| u == 0x2028
    ||| u == 0x2029
    ||| u == 0x202F
    ||| u == 0x205F
    ||| u == 0x3000
}

/// A decimal digit.
pub open spec fn is_digit(c: char) -> bool {
    48 <= c as u32 && c as u32 <= 57
}

/// The numeric value of a decimal digit character.
pub open spec fn digit_val(c: char) -> int {
    c as u32 - 48
}

fn is_space_char(c: char) -> (r: bool)
    ensures
        r == is_space(c),
{
    let u = c as u32;
    (0x09 <= u && u <= 0x0D) || u == 0x20 || u == 0x85 || u == 0xA0 || u == 0x1680 || (0x2000 <= u
        && u <= 0x200A) || u == 0x2028 || u == 0x2029 || u == 0x202F || u == 0x205F || u == 0x3000
}

// ---------------------------------------------------------------------------
// Prefix test
// ---------------------------------------------------------------------------

/// An optional borrowed text as an optional character sequence.
pub open spec fn spec_opt_chars(o: Option<&str>) -> Option<Seq<char>> {
    match o {
        Some(s) => Some(s@),
        None => None,
    }
}

/// `p` is a prefix of `s`.
pub open spec fn has_prefix(s: Seq<char>, p: Seq<char>) -> bool {
    &&& p.len() <= s.len()
    &&& forall|j: int| 0 <= j < p.len() ==> s[j] == p[j]
}

/// Whether `s` starts with `p`, character by character.
pub fn str_has_prefix(s: &str, p: &str) -> (r: bool)
    ensures
        r == has_prefix(s@, p@),
{
    let np = p.unicode_len();
    let ns = s.unicode_len();
    if np > ns {
        return false;
    }
    let mut i: usize = 0;
    while i < np
        invariant
            i <= np,
            np == p@.len(),
            np <= ns == s@.len(),
            forall|j: int| 0 <= j < i ==> s@[j] == p@[j],
        decreases np - i,
    {
        if s.get_char(i) != p.get_char(i) {
            return false;
        }
        i = i + 1;
    }
    true
}

// ---------------------------------------------------------------------------
// Lines
// ---------------------------------------------------------------------------

/// The pieces of `s` between newline characters: one piece more than `s` has
/// newlines, in order, each piece free of `'\n'`.
pub open spec fn spec_split_nl(s: Seq<char>) -> Seq<Seq<char>>
    decreases s.len(),
{
    if s.len() == 0 {
        seq![Seq::<char>::empty()]
    } else if s[0] == '\n' {
        seq![Seq::<char>::empty()] + spec_split_nl(s.subrange(1, s.len() as int))
    } else {
        let rest = spec_split_nl(s.subrange(1, s.len() as int));
        seq![seq![s[0]] + rest[0]] + rest.subrange(1, rest.len() as int)
    }
}

/// A line with a trailing carriage return removed.
pub open spec fn strip_cr(l: Seq<char>) -> Seq<char> {
    if l.len() > 0 && l.last() == '\r' {
        l.drop_last()
    } else {
        l
    }
}

/// Each piece with its trailing carriage return removed.
pub open spec fn strip_all_cr(ps: Seq<Seq<char>>) -> Seq<Seq<char>> {
    ps.map_values(|l: Seq<char>| strip_cr(l))
}

/// The lines of `s`: the pieces between newlines, each with a trailing
/// carriage return removed.
pub open spec fn spec_lines(s: Seq<char>) -> Seq<Seq<char>> {
    strip_all_cr(spec_split_nl(s))
}

/// A split yields at least one piece.
pub proof fn lemma_split_nl_len(s: Seq<char>)
    ensures
        spec_split_nl(s).len() >= 1,
    decreases s.len(),
{
    if s.len() == 0 {
    } else if s[0] == '\n' {
        lemma_split_nl_len(s.subrange(1, s.len() as int));
    } else {
        lemma_split_nl_len(s.subrange(1, s.len() as int));
    }
}

/// A text without newlines is a single piece.
pub proof fn lemma_split_nl_whole(s: Seq<char>)
    requires
        forall|j: int| 0 <= j < s.len() ==> s[j] != '\n',
    ensures
        spec_split_nl(s) == seq![s],
    decreases s.len(),
{
    if s.len() == 0 {
        assert(spec_split_nl(s) =~~= seq![s]);
    } else {
        let s1 = s.subrange(1, s.len() as int);
        lemma_split_nl_whole(s1);
        lemma_split_nl_len(s1);
        assert(seq![s[0]] + s1 =~= s);
        assert(spec_split_nl(s) =~~= seq![s]);
    }
}

/// Splitting `line + '\n' + rest` yields `line` followed by the split of
/// `rest`, when `line` itself holds no newline.
pub proof fn lemma_split_nl_prepend(line: Seq<char>, rest: Seq<char>)
    requires
        forall|j: int| 0 <= j < line.len() ==> line[j] != '\n',
    ensures
        spec_split_nl(line + seq!['\n'] + rest) == seq![line] + spec_split_nl(rest),
    decreases line.len(),
{
    let s = line + seq!['\n'] + rest;
    if line.len() == 0 {
        assert(s[0] == '\n');
        assert(s.subrange(1, s.len() as int) =~= rest);
        assert(spec_split_nl(s) =~~= seq![line] + spec_split_nl(rest));
    } else {
        let line1 = line.subrange(1, line.len() as int);
        lemma_split_nl_prepend(line1, rest);
        assert(s[0] == line[0]);
        assert(s.subrange(1, s.len() as int) =~= line1 + seq!['\n'] + rest);
        let r1 = seq![line1] + spec_split_nl(rest);
        assert(spec_split_nl(s.subrange(1, s.len() as int)) == r1);
        assert(r1[0] == line1);
        assert(seq![s[0]] + line1 =~= line);
        assert(r1.subrange(1, r1.len() as int) =~= spec_split_nl(rest));
        assert(spec_split_nl(s) =~~= seq![line] + spec_split_nl(rest));
    }
}

/// The piece of `s` from `start` to `end`, with a trailing carriage return
/// removed.
fn line_piece<'a>(s: &'a str, start: usize, end: usize) -> (r: &'a str)
    requires
        start <= end <= s@.len(),
    ensures
        r@ == strip_cr(s@.subrange(start as int, end as int)),
{
    let ghost piece = s@.subrange(start as int, end as int);
    if end > start && s.get_char(end - 1) == '\r' {
        proof {
            assert(piece.drop_last() =~= s@.subrange(start as int, end - 1));
        }
        s.substring_char(start, end - 1)
    } else {
        s.substring_char(start, end)
    }
}

/// The lines of `s`, in order.
pub fn split_lines<'a>(s: &'a str) -> (r: Vec<&'a str>)
    ensures
        r.deep_view() == spec_lines(s@),
{
    let n = s.unicode_len();
    let mut r: Vec<&str> = Vec::new();
    let mut start: usize = 0;
    let mut i: usize = 0;
    proof {
        assert(s@.subrange(0, n as int) =~= s@);
        assert(r.deep_view() =~~= Seq::<Seq<char>>::empty());
    }
    while i < n
        invariant
            start <= i <= n == s@.len(),
            forall|j: int| start <= j < i ==> s@[j] != '\n',
            spec_lines(s@) == r.deep_view() + strip_all_cr(
                spec_split_nl(s@.subrange(start as int, n as int)),
            ),
        decreases n - i,
    {
        if s.get_char(i) == '\n' {
            let ghost r0 = r.deep_view();
            let ghost line = s@.subrange(start as int, i as int);
            let ghost tail = s@.subrange(i + 1, n as int);
            let piece = line_piece(s, start, i);
            r.push(piece);
            proof {
                assert(s@.subrange(start as int, n as int) =~= line + seq!['\n'] + tail);
                lemma_split_nl_prepend(line, tail);
                assert(strip_all_cr(seq![line] + spec_split_nl(tail)) =~~= seq![
                    strip_cr(line),
                ] + strip_all_cr(spec_split_nl(tail)));
                assert(r.deep_view() =~~= r0.push(piece@));
                assert(spec_lines(s@) =~~= r.deep_view() + strip_all_cr(
                    spec_split_nl(s@.subrange(i + 1, n as int)),
                ));
            }
            start = i + 1;
        }
        i = i + 1;
    }
    let ghost r0 = r.deep_view();
    let ghost last = s@.subrange(start as int, n as int);
    let piece = line_piece(s, start, n);
    r.push(piece);
    proof {
        lemma_split_nl_whole(last);
        assert(strip_all_cr(seq![last]) =~~= seq![strip_cr(last)]);
        assert(r.deep_view() =~~= r0.push(piece@));
        assert(r.deep_view() =~~= spec_lines(s@));
    }
    r
}

// ---------------------------------------------------------------------------
// Quote trimming
// ---------------------------------------------------------------------------

/// `v` with every leading quote character removed.
pub open spec fn trim_lead_quotes(v: Seq<char>) -> Seq<char>
    decreases v.len(),
{
    if v.len() > 0 && v[0] == '"' {
        trim_lead_quotes(v.drop_first())
    } else {
        v
    }
}

/// `v` with every trailing quote character removed.
pub open spec fn trim_trail_quotes(v: Seq<char>) -> Seq<char>
    decreases v.len(),
{
    if v.len() > 0 && v.last() == '"' {
        trim_trail_quotes(v.drop_last())
    } else {
        v
    }
}

/// `v` with every leading and trailing quote character removed.
pub open spec fn spec_trim_quotes(v: Seq<char>) -> Seq<char> {
    trim_trail_quotes(trim_lead_quotes(v))
}

/// `v` without its surrounding quote characters.
pub fn trim_quote_marks<'a>(v: &'a str) -> (r: &'a str)
    ensures
        r@ == spec_trim_quotes(v@),
{
    let n = v.unicode_len();
    let mut lo: usize = 0;
    proof {
        assert(v@.subrange(0, n as int) =~= v@);
    }
    while lo < n && v.get_char(lo) == '"'
        invariant
            lo <= n == v@.len(),
            trim_lead_quotes(v@) == trim_lead_quotes(v@.subrange(lo as int, n as int)),
        decreases n - lo,
    {
        proof {
            assert(v@.subrange(lo as int, n as int).drop_first() =~= v@.subrange(
                lo + 1,
                n as int,
            ));
        }
        lo = lo + 1;
    }
    proof {
        assert(trim_lead_quotes(v@) == v@.subrange(lo as int, n as int));
    }
    let mut hi: usize = n;
    while hi > lo && v.get_char(hi - 1) == '"'
        invariant
            lo <= hi <= n == v@.len(),
            trim_lead_quotes(v@) == trim_lead_quotes(v@.subrange(lo as int, n as int)),
            trim_trail_quotes(v@.subrange(lo as int, n as int)) == trim_trail_quotes(
                v@.subrange(lo as int, hi as int),
            ),
        decreases hi,
    {
        proof {
            assert(v@.subrange(lo as int, hi as int).drop_last() =~= v@.subrange(
                lo as int,
                hi - 1,
            ));
        }
        hi = hi - 1;
    }
    proof {
        assert(spec_trim_quotes(v@) == v@.subrange(lo as int, hi as int));
    }
    v.substring_char(lo, hi)
}

// ---------------------------------------------------------------------------
// Whitespace-delimited tokens
// ---------------------------------------------------------------------------

/// The first position at or after `i` holding a non-space character;
/// `s.len()` if there is none.
pub open spec fn spec_skip_spaces(s: Seq<char>, i: int) -> int
    decreases s.len() - i,
{
    if i < 0 || i >= s.len() {
        s.len() as int
    } else if is_space(s[i]) {
        spec_skip_spaces(s, i + 1)
    } else {
        i
    }
}

/// The first position at or after `i` holding a space character; `s.len()`
/// if there is none.
pub open spec fn spec_token_end(s: Seq<char>, i: int) -> int
    decreases s.len() - i,
{
    if i < 0 || i >= s.len() {
        s.len() as int
    } else if !is_space(s[i]) {
        spec_token_end(s, i + 1)
    } else {
        i
    }
}

fn skip_spaces(s: &str, from: usize) -> (r: usize)
    requires
        from <= s@.len(),
    ensures
        r == spec_skip_spaces(s@, from as int),
        from <= r <= s@.len(),
{
    let n = s.unicode_len();
    let mut i = from;
    while i < n && is_space_char(s.get_char(i))
        invariant
            from <= i <= n == s@.len(),
            spec_skip_spaces(s@, from as int) == spec_skip_spaces(s@, i as int),
        decreases n - i,
    {
        i = i + 1;
    }
    i
}

fn token_end(s: &str, from: usize) -> (r: usize)
    requires
        from <= s@.len(),
    ensures
        r == spec_token_end(s@, from as int),
        from <= r <= s@.len(),
{
    let n = s.unicode_len();
    let mut i = from;
    while i < n && !is_space_char(s.get_char(i))
        invariant
            from <= i <= n == s@.len(),
            spec_token_end(s@, from as int) == spec_token_end(s@, i as int),
        decreases n - i,
    {
        i = i + 1;
    }
    i
}

/// The second whitespace-delimited token of `l`, if `l` has one.
pub open spec fn spec_second_token(l: Seq<char>) -> Option<Seq<char>> {
    let a = spec_skip_spaces(l, 0);
    let b = spec_token_end(l, a);
    let c = spec_skip_spaces(l, b);
    let d = spec_token_end(l, c);
    if c < l.len() {
        Some(l.subrange(c, d))
    } else {
        None
    }
}

/// The second whitespace-delimited token of `l`, if `l` has one.
pub fn second_token<'a>(l: &'a str) -> (r: Option<&'a str>)
    ensures
        match r {
            Some(t) => spec_second_token(l@) == Some(t@),
            None => spec_second_token(l@) is None,
        },
{
    let n = l.unicode_len();
    let a = skip_spaces(l, 0);
    let b = token_end(l, a);
    let c = skip_spaces(l, b);
    if c < n {
        let d = token_end(l, c);
        let t = l.substring_char(c, d);
        proof {
            assert(spec_second_token(l@) == Some(t@));
        }
        Some(t)
    } else {
        None
    }
}

// ---------------------------------------------------------------------------
// Unsigned 64-bit parsing
// ---------------------------------------------------------------------------

/// The value of a digit string, most significant digit first.
pub open spec fn spec_digits_val(s: Seq<char>) -> int
    decreases s.len(),
{
    if s.len() == 0 {
        0
    } else {
        spec_digits_val(s.drop_last()) * 10 + digit_val(s.last())
    }
}

/// The digits of `s` after an optional leading plus sign.
pub open spec fn spec_u64_digits(s: Seq<char>) -> Seq<char> {
    if s.len() > 0 && s[0] == '+' {
        s.drop_first()
    } else {
        s
    }
}

/// The unsigned 64-bit value denoted by `s`: an optional leading plus sign,
/// then one or more decimal digits, whose value fits in 64 bits. Anything
/// else denotes no value.
pub open spec fn spec_parse_u64(s: Seq<char>) -> Option<u64> {
    let d = spec_u64_digits(s);
    if d.len() > 0 && (forall|j: int| 0 <= j < d.len() ==> is_digit(d[j])) && spec_digits_val(d)
        <= u64::MAX {
        Some(spec_digits_val(d) as u64)
    } else {
        None
    }
}

pub proof fn lemma_digits_val_nonneg(s: Seq<char>)
    requires
        forall|j: int| 0 <= j < s.len() ==> is_digit(s[j]),
    ensures
        spec_digits_val(s) >= 0,
    decreases s.len(),
{
    if s.len() > 0 {
        lemma_digits_val_nonneg(s.drop_last());
    }
}

/// With every character a digit, a prefix of `s` denotes no more than `s`
/// itself.
pub proof fn lemma_digits_val_prefix(s: Seq<char>, k: int)
    requires
        forall|j: int| 0 <= j < s.len() ==> is_digit(s[j]),
        0 <= k <= s.len(),
    ensures
        spec_digits_val(s.subrange(0, k)) <= spec_digits_val(s),
    decreases s.len() - k,
{
    if k == s.len() {
        assert(s.subrange(0, k) =~= s);
    } else {
        let p = s.subrange(0, k);
        let q = s.subrange(0, k + 1);
        assert(q.drop_last() =~= p);
        lemma_digits_val_nonneg(p);
        assert(spec_digits_val(q) == spec_digits_val(p) * 10 + digit_val(q.last()));
        lemma_digits_val_prefix(s, k + 1);
    }
}

/// `u64::MAX / 10`, the largest value a parse may hold before taking one
/// more digit.
const U64_CUTOFF: u64 = 18446744073709551615u64 / 10;

/// The decimal value of `s` as an unsigned 64-bit integer, if `s` denotes
/// one.
pub fn parse_u64_str(s: &str) -> (r: Option<u64>)
    ensures
        r == spec_parse_u64(s@),
{
    let n = s.unicode_len();
    if n == 0 {
        return None;
    }
    let start: usize = if s.get_char(0) == '+' {
        1
    } else {
        0
    };
    proof {
        assert(spec_u64_digits(s@) =~= s@.subrange(start as int, n as int));
    }
    if start == n {
        return None;
    }
    let mut i = start;
    let mut val: u64 = 0;
    while i < n
        invariant
            start <= i <= n == s@.len(),
            start < n,
            spec_u64_digits(s@) =~= s@.subrange(start as int, n as int),
            forall|j: int| start <= j < i ==> is_digit(s@[j]),
            val == spec_digits_val(s@.subrange(start as int, i as int)),
        decreases n - i,
    {
        let c = s.get_char(i);
        let u = c as u32;
        if u < 48 || u > 57 {
            proof {
                let d = spec_u64_digits(s@);
                assert(!is_digit(d[i - start]));
            }
            return None;
        }
        let dig = (u - 48) as u64;
        if val > U64_CUTOFF || (val == U64_CUTOFF && dig > 5) {
            proof {
                let d = spec_u64_digits(s@);
                let p = s@.subrange(start as int, i + 1);
                assert(p.drop_last() =~= s@.subrange(start as int, i as int));
                assert(spec_digits_val(p) == val * 10 + dig);
                assert(spec_digits_val(p) > u64::MAX);
                if forall|j: int| 0 <= j < d.len() ==> is_digit(d[j]) {
                    assert(p =~= d.subrange(0, i + 1 - start));
                    lemma_digits_val_prefix(d, i + 1 - start);
                }
            }
            return None;
        }
        proof {
            let p = s@.subrange(start as int, i + 1);
            assert(p.drop_last() =~= s@.subrange(start as int, i as int));
        }
        val = val * 10 + dig;
        i = i + 1;
    }
    proof {
        let d = spec_u64_digits(s@);
        assert(d =~= s@.subrange(start as int, n as int));
        assert(forall|j: int| 0 <= j < d.len() ==> is_digit(d[j]));
        assert(val == spec_digits_val(d));
    }
    Some(val)
}

} // verus!
