use vstd::prelude::*;
use crate::ast::AstNode;
use crate::pstate::{
    init_parse_state, spec_parse, spec_step, step_resume, BlockType, ParseState,
};
use crate::scan::{clear_to, count_unexpected, scan_delim, scan_until};

verus! {

// Appending source to an already-parsed program reads the same as parsing
// the whole text at once, provided the first fragment ends cleanly: the
// scanner stands exactly at the boundary, outside any string literal, with
// only the global block open. The lemmas below make that sentence precise
// and prove it.
/// The scanner, started at `(st, i)`, passes through exactly `(st2, j)`.
pub open spec fn run_reaches(st: ParseState, s: Seq<u8>, i: int, st2: ParseState, j: int) -> bool
    decreases j - i,
{
    if i >= j {
        st == st2 && i == j
    } else if st.failed || i >= s.len() {
        false
    } else {
        let r = spec_step(st, s, i);
        let ni = step_resume(s, i, r.1);
        ni <= j && run_reaches(r.0, s, ni, st2, j)
    }
}

/// A state the scanner passes through decides the run's outcome.
pub proof fn lemma_reaches_parse(st: ParseState, s: Seq<u8>, i: int, st2: ParseState, j: int)
    requires
        run_reaches(st, s, i, st2, j),
        0 <= i,
    ensures
        spec_parse(st, s, i) == spec_parse(st2, s, j),
    decreases j - i,
{
    if i < j {
        let r = spec_step(st, s, i);
        let ni = step_resume(s, i, r.1);
        lemma_reaches_parse(r.0, s, ni, st2, j);
    }
}

/// The same state, with the string-start marker moved by `d`.
pub open spec fn shift_state(st: ParseState, d: int) -> ParseState {
    ParseState { str_start: st.str_start + d, ..st }
}

proof fn lemma_scan_until_shift(s1: Seq<u8>, s2: Seq<u8>, j: int, t: u8)
    requires
        0 <= j <= s2.len(),
    ensures
        scan_until(s1 + s2, s1.len() + j, t) == s1.len() + scan_until(s2, j, t),
    decreases s2.len() - j,
{
    if j < s2.len() {
        assert((s1 + s2)[s1.len() + j] == s2[j]);
        if s2[j] != t {
            lemma_scan_until_shift(s1, s2, j + 1, t);
        }
    }
}

proof fn lemma_scan_delim_shift(s1: Seq<u8>, s2: Seq<u8>, j: int)
    requires
        0 <= j <= s2.len(),
    ensures
        scan_delim(s1 + s2, s1.len() + j) == s1.len() + scan_delim(s2, j),
    decreases s2.len() - j,
{
    if j < s2.len() {
        assert((s1 + s2)[s1.len() + j] == s2[j]);
        if !crate::scan::is_delim_byte(s2[j]) {
            lemma_scan_delim_shift(s1, s2, j + 1);
        }
    }
}

proof fn lemma_count_shift(s1: Seq<u8>, s2: Seq<u8>, j: int, t: u8)
    requires
        0 <= j <= s2.len(),
    ensures
        count_unexpected(s1 + s2, s1.len() + j, t) == count_unexpected(s2, j, t),
    decreases s2.len() - j,
{
    if j < s2.len() {
        assert((s1 + s2)[s1.len() + j] == s2[j]);
        if s2[j] != t {
            lemma_count_shift(s1, s2, j + 1, t);
        }
    }
}

proof fn lemma_subrange_shift(s1: Seq<u8>, s2: Seq<u8>, a: int, b: int)
    requires
        0 <= a <= b <= s2.len(),
    ensures
        (s1 + s2).subrange(s1.len() + a, s1.len() + b) =~= s2.subrange(a, b),
{
}

/// One scanner step behaves the same on the suffix alone as on the whole
/// text at the shifted position.
proof fn lemma_step_shift(st: ParseState, s1: Seq<u8>, s2: Seq<u8>, j: int)
    requires
        0 <= j < s2.len(),
        !st.failed,
        st.in_str ==> 0 <= st.str_start <= j,
    ensures
        ({
            let r = spec_step(st, s2, j);
            let rs = spec_step(shift_state(st, s1.len() as int), s1 + s2, s1.len() + j);
            rs.0 == shift_state(r.0, s1.len() as int) && rs.1 == s1.len() + r.1
        }),
{
    let d = s1.len() as int;
    let s = s1 + s2;
    let c = s2[j];
    assert(s[d + j] == c);
    assert(s.len() == d + s2.len());
    let sst = shift_state(st, d);
    if !st.in_str && crate::scan::is_skip_byte(c) {
    } else if st.stack.len() == 0 {
        assert(spec_step(sst, s, d + j).0 =~~= shift_state(spec_step(st, s2, j).0, d));
    } else if st.in_str {
        if c == 34 {
            lemma_subrange_shift(s1, s2, st.str_start, j);
            assert(spec_step(sst, s, d + j).0 =~~= shift_state(spec_step(st, s2, j).0, d));
        }
    } else if c == 41 || c == 61 || c == 59 || c == 34 || c == 123 || c == 125 || c == 91 || c
        == 93 {
        assert(spec_step(sst, s, d + j).0 =~~= shift_state(spec_step(st, s2, j).0, d));
    } else if j + 3 <= s2.len() && s2.subrange(j, j + 3) == crate::pstate::let_bytes() {
        lemma_subrange_shift(s1, s2, j, j + 3);
        let nstart = if j + 4 <= s2.len() {
            j + 4
        } else {
            s2.len() as int
        };
        lemma_scan_until_shift(s1, s2, nstart, 32);
        let nend = scan_until(s2, nstart, 32);
        crate::scan::lemma_scan_until(s2, nstart, 32);
        lemma_subrange_shift(s1, s2, nstart, nend);
        assert(spec_step(sst, s, d + j).0 =~~= shift_state(spec_step(st, s2, j).0, d));
        assert(spec_step(sst, s, d + j).1 == d + spec_step(st, s2, j).1);
    } else {
        // the classification branches: the keyword test, the lookaheads and
        // the token are all read at shifted positions
        if j + 3 <= s2.len() {
            lemma_subrange_shift(s1, s2, j, j + 3);
        }
        assert(d + j + 3 <= s.len() ==> s.subrange(d + j, d + j + 3) =~= s2.subrange(j, j + 3));
        lemma_count_shift(s1, s2, j, 40);
        lemma_count_shift(s1, s2, j, 46);
        if clear_to(s2, j, 40) {
            lemma_scan_until_shift(s1, s2, j + 1, 40);
            let nend = scan_until(s2, j + 1, 40);
            crate::scan::lemma_scan_until(s2, j + 1, 40);
            lemma_subrange_shift(s1, s2, j, nend);
            assert(spec_step(sst, s, d + j).0 =~~= shift_state(spec_step(st, s2, j).0, d));
            assert(spec_step(sst, s, d + j).1 == d + spec_step(st, s2, j).1);
        } else {
            lemma_scan_delim_shift(s1, s2, j + 1);
            let tend = scan_delim(s2, j + 1);
            crate::scan::lemma_scan_delim(s2, j + 1);
            lemma_subrange_shift(s1, s2, j, tend);
            assert(spec_step(sst, s, d + j).0 =~~= shift_state(spec_step(st, s2, j).0, d));
            assert(spec_step(sst, s, d + j).1 == d + spec_step(st, s2, j).1);
        }
    }
}

/// The scanner's run on the suffix alone matches its run on the whole text
/// from the shifted position, field for field but the string-start marker.
proof fn lemma_run_shift(st: ParseState, s1: Seq<u8>, s2: Seq<u8>, j: int)
    requires
        0 <= j <= s2.len(),
        st.in_str ==> 0 <= st.str_start <= j,
    ensures
        spec_parse(shift_state(st, s1.len() as int), s1 + s2, s1.len() + j) == shift_state(
            spec_parse(st, s2, j),
            s1.len() as int,
        ),
    decreases s2.len() - j,
{
    let d = s1.len() as int;
    let s = s1 + s2;
    assert(s.len() == d + s2.len());
    if st.failed || j >= s2.len() {
    } else {
        lemma_step_shift(st, s1, s2, j);
        let r = spec_step(st, s2, j);
        let ni = step_resume(s2, j, r.1);
        assert(step_resume(s, d + j, d + r.1) == d + ni);
        assert(r.0.in_str ==> 0 <= r.0.str_start <= ni) by {
            lemma_step_str_start(st, s2, j);
        }
        lemma_run_shift(r.0, s1, s2, ni);
    }
}

/// After a step, an open string literal's start marker lies at or before
/// the resume position.
proof fn lemma_step_str_start(st: ParseState, s: Seq<u8>, j: int)
    requires
        0 <= j < s.len(),
        !st.failed,
        st.in_str ==> 0 <= st.str_start <= j,
    ensures
        ({
            let r = spec_step(st, s, j);
            r.0.in_str ==> 0 <= r.0.str_start <= step_resume(s, j, r.1)
        }),
{
}

/// The string-start marker of a state outside a string literal does not
/// affect the run, except for that dead marker itself.
proof fn lemma_start_irrelevant(st1: ParseState, st2: ParseState, s: Seq<u8>, i: int)
    requires
        st2 == (ParseState { str_start: st2.str_start, ..st1 }),
        !st1.in_str,
    ensures
        ({
            let r1 = spec_parse(st1, s, i);
            let r2 = spec_parse(st2, s, i);
            &&& r1.nodes == r2.nodes
            &&& r1.next_key == r2.next_key
            &&& r1.stack == r2.stack
            &&& r1.in_str == r2.in_str
            &&& r1.last_def == r2.last_def
            &&& r1.failed == r2.failed
            &&& (r1.in_str ==> r1.str_start == r2.str_start)
        }),
    decreases s.len() - i,
{
    if !st1.failed && 0 <= i < s.len() {
        let r1 = spec_step(st1, s, i);
        let r2 = spec_step(st2, s, i);
        assert(r1.1 == r2.1);
        if r1.0.in_str {
            assert(r2.0 == (ParseState { str_start: r2.0.str_start, ..r1.0 }));
            assert(r1.0.str_start == r2.0.str_start);
            lemma_same_from_equal(r1.0, r2.0, s, step_resume(s, i, r1.1));
        } else {
            assert(r2.0 == (ParseState { str_start: r2.0.str_start, ..r1.0 }));
            lemma_start_irrelevant(r1.0, r2.0, s, step_resume(s, i, r1.1));
        }
    }
}

proof fn lemma_same_from_equal(st1: ParseState, st2: ParseState, s: Seq<u8>, i: int)
    requires
        st1 == st2,
    ensures
        spec_parse(st1, s, i) == spec_parse(st2, s, i),
{
}

/// Append-equivalence: when the first fragment parses to a clean boundary -
/// no failure, no open string literal, only the global block still open -
/// and the one-shot scan of the whole text passes through that same state
/// exactly at the fragment boundary, then parsing the second fragment
/// incrementally on top of the first yields the very arena that parsing the
/// concatenation in one run yields, failure or success included.
pub proof fn lemma_parse_append_equivalence(
    ar: Map<int, AstNode>,
    next: int,
    global: int,
    s1: Seq<u8>,
    s2: Seq<u8>,
)
    requires
        ({
            let init = init_parse_state(ar, next, global);
            let mid = spec_parse(init, s1, 0);
            &&& !mid.failed
            &&& !mid.in_str
            &&& !mid.last_def
            &&& mid.stack == seq![(global, BlockType::Generic)]
            &&& run_reaches(init, s1 + s2, 0, mid, s1.len() as int)
        }),
    ensures
        ({
            let init = init_parse_state(ar, next, global);
            let mid = spec_parse(init, s1, 0);
            let whole = spec_parse(init, s1 + s2, 0);
            let resumed = spec_parse(init_parse_state(mid.nodes, mid.next_key, global), s2, 0);
            &&& whole.nodes == resumed.nodes
            &&& whole.next_key == resumed.next_key
            &&& whole.stack == resumed.stack
            &&& whole.in_str == resumed.in_str
            &&& whole.failed == resumed.failed
        }),
{
    let d = s1.len() as int;
    let init = init_parse_state(ar, next, global);
    let mid = spec_parse(init, s1, 0);
    let init2 = init_parse_state(mid.nodes, mid.next_key, global);
    lemma_reaches_parse(init, s1 + s2, 0, mid, d);
    // the one-shot run from the boundary equals the shifted resumed run,
    // once the dead string-start marker is set aside
    lemma_run_shift(init2, s1, s2, 0);
    let shifted = shift_state(init2, d);
    assert(shifted == (ParseState { str_start: shifted.str_start, ..mid }));
    lemma_start_irrelevant(mid, shifted, s1 + s2, d);
    assert(spec_parse(shifted, s1 + s2, d) == shift_state(spec_parse(init2, s2, 0), d));
}

} // verus!
