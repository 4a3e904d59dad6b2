use vstd::prelude::*;

verus! {

// Byte classes of the surface syntax. The scanner works byte by byte, so
// whitespace here is the ASCII whitespace range.
/// Bytes skipped between tokens: space and newline.
pub open spec fn is_skip_byte(c: u8) -> bool {
    c == 32 || c == 10
}

/// Bytes that end an identifier, number or property-path token:
/// `,` `;` `)` `}` space, newline and `]`.
pub open spec fn is_delim_byte(c: u8) -> bool {
    c == 44 || c == 59 || c == 41 || c == 125 || c == 32 || c == 10 || c == 93
}

/// Bytes that rule out a pending `(` or `.` classification: ASCII whitespace,
/// `;` and `)`.
pub open spec fn is_unexpected_byte(c: u8) -> bool {
    (9 <= c && c <= 13) || c == 32 || c == 59 || c == 41
}

/// ASCII decimal digit.
pub open spec fn is_digit_byte(c: u8) -> bool {
    48 <= c && c <= 57
}

/// The first position at or after `i` holding `t`, or the length of `s` when
/// `t` does not occur there.
pub open spec fn scan_until(s: Seq<u8>, i: int, t: u8) -> int
    decreases s.len() - i,
{
    if i >= s.len() {
        s.len() as int
    } else if s[i] == t {
        i
    } else {
        scan_until(s, i + 1, t)
    }
}

/// The first position at or after `i` holding a delimiter byte, or the length
/// of `s`.
pub open spec fn scan_delim(s: Seq<u8>, i: int) -> int
    decreases s.len() - i,
{
    if i >= s.len() {
        s.len() as int
    } else if is_delim_byte(s[i]) {
        i
    } else {
        scan_delim(s, i + 1)
    }
}

/// How many unexpected bytes lie at or after `i`, strictly before the first
/// `t` (or before the end of `s` when `t` does not occur).
pub open spec fn count_unexpected(s: Seq<u8>, i: int, t: u8) -> int
    decreases s.len() - i,
{
    if i >= s.len() {
        0
    } else if s[i] == t {
        0
    } else if is_unexpected_byte(s[i]) {
        1 + count_unexpected(s, i + 1, t)
    } else {
        count_unexpected(s, i + 1, t)
    }
}

/// No unexpected byte stands between `i` and the first `t`.
pub open spec fn clear_to(s: Seq<u8>, i: int, t: u8) -> bool {
    count_unexpected(s, i, t) == 0
}

pub proof fn lemma_scan_until(s: Seq<u8>, i: int, t: u8)
    requires
        0 <= i <= s.len(),
    ensures
        i <= scan_until(s, i, t) <= s.len(),
        scan_until(s, i, t) < s.len() ==> s[scan_until(s, i, t)] == t,
        forall|j: int| i <= j < scan_until(s, i, t) ==> s[j] != t,
    decreases s.len() - i,
{
    if i < s.len() && s[i] != t {
        lemma_scan_until(s, i + 1, t);
    }
}

pub proof fn lemma_scan_until_exact(s: Seq<u8>, i: int, t: u8, j: int)
    requires
        0 <= i <= j <= s.len(),
        forall|k: int| i <= k < j ==> s[k] != t,
        j == s.len() || s[j] == t,
    ensures
        scan_until(s, i, t) == j,
    decreases s.len() - i,
{
    if i < s.len() && s[i] != t {
        lemma_scan_until_exact(s, i + 1, t, j);
    }
}

pub proof fn lemma_scan_delim(s: Seq<u8>, i: int)
    requires
        0 <= i <= s.len(),
    ensures
        i <= scan_delim(s, i) <= s.len(),
        scan_delim(s, i) < s.len() ==> is_delim_byte(s[scan_delim(s, i)]),
        forall|j: int| i <= j < scan_delim(s, i) ==> !is_delim_byte(s[j]),
    decreases s.len() - i,
{
    if i < s.len() && !is_delim_byte(s[i]) {
        lemma_scan_delim(s, i + 1);
    }
}

pub proof fn lemma_scan_delim_exact(s: Seq<u8>, i: int, j: int)
    requires
        0 <= i <= j <= s.len(),
        forall|k: int| i <= k < j ==> !is_delim_byte(s[k]),
        j == s.len() || is_delim_byte(s[j]),
    ensures
        scan_delim(s, i) == j,
    decreases s.len() - i,
{
    if i < s.len() && !is_delim_byte(s[i]) {
        lemma_scan_delim_exact(s, i + 1, j);
    }
}

pub proof fn lemma_count_unexpected_bounds(s: Seq<u8>, i: int, t: u8)
    requires
        0 <= i <= s.len(),
    ensures
        0 <= count_unexpected(s, i, t) <= s.len() - i,
    decreases s.len() - i,
{
    if i < s.len() && s[i] != t {
        lemma_count_unexpected_bounds(s, i + 1, t);
    }
}

/// Exec form of [`is_delim_byte`].
pub fn byte_is_delim(c: u8) -> (r: bool)
    ensures
        r == is_delim_byte(c),
{
    c == 44 || c == 59 || c == 41 || c == 125 || c == 32 || c == 10 || c == 93
}

/// Exec form of [`is_unexpected_byte`].
pub fn byte_is_unexpected(c: u8) -> (r: bool)
    ensures
        r == is_unexpected_byte(c),
{
    (9 <= c && c <= 13) || c == 32 || c == 59 || c == 41
}

/// The slice of `code` from `start` up to `end`, or `None` when `code` is
/// shorter than `end` bytes.
pub fn slice_with_size(start: usize, end: usize, code: &[u8]) -> (r: Option<&[u8]>)
    requires
        start <= end,
    ensures
        match r {
            Some(v) => end <= code@.len() && v@ == code@.subrange(start as int, end as int),
            None => code@.len() < end,
        },
{
    if code.len() < end {
        None
    } else {
        Some(vstd::slice::slice_subrange(code, start, end))
    }
}

/// The token running from `start` up to the first `until` byte, together with
/// the position of that byte (the caller resumes one past it: the terminator
/// is consumed).
pub fn slice_until(until: u8, code: &[u8], start: usize) -> (r: (Vec<u8>, usize))
    requires
        start <= code@.len(),
    ensures
        r.1 as int == scan_until(code@, start as int, until),
        r.0@ == code@.subrange(start as int, r.1 as int),
{
    let mut out: Vec<u8> = Vec::new();
    let mut j: usize = start;
    loop
        invariant
            start <= j <= code@.len(),
            forall|k: int| start <= k < j ==> code@[k] != until,
            out@ == code@.subrange(start as int, j as int),
        ensures
            start <= j <= code@.len(),
            forall|k: int| start <= k < j ==> code@[k] != until,
            out@ == code@.subrange(start as int, j as int),
            j == code@.len() || code@[j as int] == until,
        decreases code@.len() - j,
    {
        if j == code.len() {
            break ;
        }
        let c = *vstd::slice::slice_index_get(code, j);
        if c == until {
            break ;
        }
        out.push(c);
        j += 1;
        proof {
            assert(out@ =~= code@.subrange(start as int, j as int));
        }
    }
    proof {
        lemma_scan_until_exact(code@, start as int, until, j as int);
    }
    (out, j)
}

/// The token running from `start` up to the first delimiter byte, together
/// with the delimiter's position (the delimiter is not consumed).
pub fn slice_until_delimeter(code: &[u8], start: usize) -> (r: (Vec<u8>, usize))
    requires
        start <= code@.len(),
    ensures
        r.1 as int == scan_delim(code@, start as int),
        r.0@ == code@.subrange(start as int, r.1 as int),
{
    let mut out: Vec<u8> = Vec::new();
    let mut j: usize = start;
    loop
        invariant
            start <= j <= code@.len(),
            forall|k: int| start <= k < j ==> !is_delim_byte(code@[k]),
            out@ == code@.subrange(start as int, j as int),
        ensures
            start <= j <= code@.len(),
            forall|k: int| start <= k < j ==> !is_delim_byte(code@[k]),
            out@ == code@.subrange(start as int, j as int),
            j == code@.len() || is_delim_byte(code@[j as int]),
        decreases code@.len() - j,
    {
        if j == code.len() {
            break ;
        }
        let c = *vstd::slice::slice_index_get(code, j);
        if byte_is_delim(c) {
            break ;
        }
        out.push(c);
        j += 1;
        proof {
            assert(out@ =~= code@.subrange(start as int, j as int));
        }
    }
    proof {
        lemma_scan_delim_exact(code@, start as int, j as int);
    }
    (out, j)
}

/// How many whitespace, `;` or `)` bytes stand between `start` and the first
/// `until` byte (or the end of `code`).
pub fn count_unexpected_between(start: usize, until: u8, code: &[u8]) -> (r: usize)
    requires
        start <= code@.len(),
    ensures
        r as int == count_unexpected(code@, start as int, until),
{
    let mut n: usize = 0;
    let mut j: usize = start;
    loop
        invariant
            start <= j <= code@.len(),
            n as int + count_unexpected(code@, j as int, until) == count_unexpected(
                code@,
                start as int,
                until,
            ),
            n <= j - start,
        ensures
            n as int + count_unexpected(code@, j as int, until) == count_unexpected(
                code@,
                start as int,
                until,
            ),
            j as int == code@.len() || code@[j as int] == until,
        decreases code@.len() - j,
    {
        proof {
            lemma_count_unexpected_bounds(code@, j as int, until);
        }
        if j == code.len() {
            break ;
        }
        let c = *vstd::slice::slice_index_get(code, j);
        if c == until {
            break ;
        }
        if byte_is_unexpected(c) {
            n += 1;
        }
        j += 1;
    }
    n
}

/// Every byte of `s` is an ASCII digit.
pub open spec fn all_digits(s: Seq<u8>) -> bool {
    forall|j: int| 0 <= j < s.len() ==> is_digit_byte(s[j])
}

/// The value of a digit string read as a decimal number.
pub open spec fn digits_value(s: Seq<u8>) -> int
    decreases s.len(),
{
    if s.len() == 0 {
        0
    } else {
        digits_value(s.drop_last()) * 10 + (s.last() - 48)
    }
}

/// What parsing a token as an unsigned decimal yields: the value when the
/// token is non-empty, all digits, and the value fits in `usize`; nothing
/// otherwise.
pub open spec fn spec_parse_usize(s: Seq<u8>) -> Option<usize> {
    if s.len() > 0 && all_digits(s) && digits_value(s) <= usize::MAX {
        Some(digits_value(s) as usize)
    } else {
        None
    }
}

pub proof fn lemma_digits_value_nonneg(s: Seq<u8>)
    requires
        all_digits(s),
    ensures
        digits_value(s) >= 0,
    decreases s.len(),
{
    if s.len() > 0 {
        assert(all_digits(s.drop_last()));
        lemma_digits_value_nonneg(s.drop_last());
    }
}

pub proof fn lemma_digits_value_monotone(s: Seq<u8>, j: int)
    requires
        all_digits(s),
        0 <= j <= s.len(),
    ensures
        digits_value(s.take(j)) <= digits_value(s),
    decreases s.len() - j,
{
    if j < s.len() {
        lemma_digits_value_monotone(s, j + 1);
        let t = s.take(j + 1);
        assert(t.drop_last() =~= s.take(j));
        assert(all_digits(s.take(j)));
        lemma_digits_value_nonneg(s.take(j));
        assert(digits_value(s.take(j)) <= digits_value(s.take(j + 1)));
    } else {
        assert(s.take(j) =~= s);
    }
}

/// Decimal parse of a token: the value when all bytes are digits and it fits
/// in `usize`, and `None` otherwise.
pub fn parse_usize_bytes(s: &[u8]) -> (r: Option<usize>)
    ensures
        r == spec_parse_usize(s@),
{
    if s.len() == 0 {
        return None;
    }
    let mut acc: usize = 0;
    let mut j: usize = 0;
    while j < s.len()
        invariant
            0 <= j <= s@.len(),
            s@.len() > 0,
            forall|k: int| 0 <= k < j ==> is_digit_byte(s@[k]),
            acc as int == digits_value(s@.take(j as int)),
        decreases s@.len() - j,
    {
        let c = *vstd::slice::slice_index_get(s, j);
        if !(48 <= c && c <= 57) {
            proof {
                assert(!all_digits(s@));
            }
            return None;
        }
        let d = (c - 48) as usize;
        let step = acc.checked_mul(10);
        proof {
            assert(s@.take(j + 1).drop_last() =~= s@.take(j as int));
            assert(digits_value(s@.take(j + 1)) == acc as int * 10 + d);
        }
        match step {
            Some(v10) => {
                match v10.checked_add(d) {
                    Some(v) => {
                        acc = v;
                    },
                    None => {
                        // Even this prefix is above `usize::MAX`, so the
                        // whole token is too.
                        proof {
                            if all_digits(s@) {
                                lemma_digits_value_monotone(s@, j + 1);
                            }
                        }
                        return None;
                    },
                }
            },
            None => {
                proof {
                    if all_digits(s@) {
                        lemma_digits_value_monotone(s@, j + 1);
                    }
                }
                return None;
            },
        }
        j += 1;
    }
    proof {
        assert(s@.take(j as int) =~= s@);
    }
    Some(acc)
}

/// A property path split on `.`: the token's pieces between dots, in order.
pub open spec fn split_on_dot_from(s: Seq<u8>, i: int) -> Seq<Seq<u8>>
    decreases s.len() - i,
{
    let e = scan_until(s, i, 46);
    if e >= s.len() {
        seq![s.subrange(i, s.len() as int)]
    } else if e < i {
        seq![]
    } else {
        seq![s.subrange(i, e)] + split_on_dot_from(s, e + 1)
    }
}

/// Split a token on `.` into its path segments.
pub fn split_path(s: &[u8]) -> (r: Vec<Vec<u8>>)
    ensures
        r@.map_values(|v: Vec<u8>| v@) == split_on_dot_from(s@, 0),
{
    let mut out: Vec<Vec<u8>> = Vec::new();
    let mut j: usize = 0;
    loop
        invariant_except_break
            0 <= j <= s@.len(),
            split_on_dot_from(s@, 0) =~= out@.map_values(|v: Vec<u8>| v@) + split_on_dot_from(
                s@,
                j as int,
            ),
        ensures
            out@.map_values(|v: Vec<u8>| v@) =~= split_on_dot_from(s@, 0),
        decreases s@.len() - j,
    {
        let (piece, e) = slice_until(46, s, j);
        proof {
            lemma_scan_until(s@, j as int, 46);
        }
        if e == s.len() {
            out.push(piece);
            proof {
                assert(out@.map_values(|v: Vec<u8>| v@) =~= out@.drop_last().map_values(
                    |v: Vec<u8>| v@,
                ).push(s@.subrange(j as int, e as int)));
                assert(split_on_dot_from(s@, j as int) =~= seq![
                    s@.subrange(j as int, s@.len() as int),
                ]);
            }
            break ;
        }
        out.push(piece);
        proof {
            assert(out@.map_values(|v: Vec<u8>| v@) =~= out@.drop_last().map_values(
                |v: Vec<u8>| v@,
            ).push(s@.subrange(j as int, e as int)));
            assert(split_on_dot_from(s@, j as int) =~= seq![s@.subrange(j as int, e as int)]
                + split_on_dot_from(s@, e + 1));
        }
        j = e + 1;
    }
    out
}

} // verus!
