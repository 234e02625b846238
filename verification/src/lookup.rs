//! Finding a process id in the output of `pgrep`: the first line of the
//! output, read as a decimal `u32`.

use vstd::prelude::*;
use vstd::slice::slice_subrange;
use crate::decimal::{
    decimal_digits, lemma_decimal_digits_are_digits, lemma_parse_decimal_roundtrip, parse_u32_bytes,
    parse_u32_spec,
};

verus! {

/// The index of the first `'\n'` in `s`, or `s.len()` where there is none.
pub open spec fn first_newline(s: Seq<u8>) -> int
    decreases s.len(),
{
    if s.len() == 0 {
        0
    } else if s[0] == 10u8 {
        0
    } else {
        1 + first_newline(s.drop_first())
    }
}

/// The first item that `str::lines` yields for the text `s`: nothing for an
/// empty text; otherwise the text up to the first `'\n'`, without the `'\r'`
/// of a `"\r\n"` ending.
pub open spec fn first_line(s: Seq<u8>) -> Option<Seq<u8>> {
    if s.len() == 0 {
        None
    } else {
        let k = first_newline(s);
        let line = s.take(k);
        if k < s.len() && line.len() > 0 && line.last() == 13u8 {
            Some(line.drop_last())
        } else {
            Some(line)
        }
    }
}

/// The process id that a successful `pgrep` run reports first, if its first
/// line is a number; nothing when the run failed.
pub open spec fn pgrep_pid(stdout: Seq<u8>, success: bool) -> Option<u32> {
    if !success {
        None
    } else {
        match first_line(stdout) {
            Some(line) => parse_u32_spec(line),
            None => None,
        }
    }
}

proof fn lemma_first_newline_at(s: Seq<u8>, k: int)
    requires
        0 <= k <= s.len(),
        forall|j: int| 0 <= j < k ==> s[j] != 10u8,
        k < s.len() ==> s[k] == 10u8,
    ensures
        first_newline(s) == k,
    decreases s.len(),
{
    if s.len() > 0 && k > 0 {
        lemma_first_newline_at(s.drop_first(), k - 1);
    }
}

/// Only the first line of the output counts: two outputs that agree up to
/// and including their first `'\n'` give the same process id.
pub proof fn lemma_only_first_line_counts(line: Seq<u8>, rest1: Seq<u8>, rest2: Seq<u8>, success: bool)
    requires
        forall|j: int| 0 <= j < line.len() ==> line[j] != 10u8,
    ensures
        pgrep_pid(line + seq![10u8] + rest1, success) == pgrep_pid(line + seq![10u8] + rest2, success),
{
    let s1 = line + seq![10u8] + rest1;
    let s2 = line + seq![10u8] + rest2;
    lemma_first_newline_at(s1, line.len() as int);
    lemma_first_newline_at(s2, line.len() as int);
    assert(s1.take(line.len() as int) =~= line);
    assert(s2.take(line.len() as int) =~= line);
}

/// A successful run whose output starts with the decimal text of a `u32`
/// followed by the end of the output, `"\n"` or `"\r\n"` reports that
/// number; a failed run, an empty output and an output whose first line is
/// empty report none.
pub proof fn lemma_pgrep_reports_first_number(n: u32, rest: Seq<u8>)
    ensures
        pgrep_pid(decimal_digits(n as nat), true) == Some(n),
        pgrep_pid(decimal_digits(n as nat) + seq![10u8] + rest, true) == Some(n),
        pgrep_pid(decimal_digits(n as nat) + seq![13u8, 10u8] + rest, true) == Some(n),
        pgrep_pid(decimal_digits(n as nat) + rest, false) is None,
        pgrep_pid(Seq::<u8>::empty(), true) is None,
        pgrep_pid(seq![10u8] + rest, true) is None,
{
    let d = decimal_digits(n as nat);
    lemma_decimal_digits_are_digits(n as nat);
    lemma_parse_decimal_roundtrip(n);
    assert forall|j: int| 0 <= j < d.len() implies d[j] != 10u8 && d[j] != 13u8 by {
        assert(48 <= d[j] <= 57);
    }
    lemma_first_newline_at(d, d.len() as int);
    assert(d.take(d.len() as int) =~= d);
    let s1 = d + seq![10u8] + rest;
    lemma_first_newline_at(s1, d.len() as int);
    assert(s1.take(d.len() as int) =~= d);
    let s2 = d + seq![13u8, 10u8] + rest;
    assert forall|j: int| 0 <= j < d.len() + 1 implies s2[j] != 10u8 by {
        if j < d.len() {
            assert(s2[j] == d[j]);
        }
    }
    lemma_first_newline_at(s2, d.len() as int + 1);
    assert(s2.take(d.len() as int + 1).drop_last() =~= d);
    let s3 = seq![10u8] + rest;
    lemma_first_newline_at(s3, 0);
    assert(s3.take(0) =~= Seq::<u8>::empty());
    assert(parse_u32_spec(Seq::<u8>::empty()) is None);
}

/// The process id in the output of a `pgrep` run: `None` when the run failed
/// or its first line is not a `u32`. Bytes that are not UTF-8 never form
/// digits, so reading the raw bytes agrees with reading their lossy decoding.
pub fn pid_from_pgrep_output(stdout: &[u8], success: bool) -> (r: Option<u32>)
    ensures
        r == pgrep_pid(stdout@, success),
{
    if !success {
        return None;
    }
    let n = stdout.len();
    if n == 0 {
        return None;
    }
    let mut k: usize = 0;
    while k < n && stdout[k] != 10u8
        invariant
            k <= n,
            n == stdout@.len(),
            forall|j: int| 0 <= j < k ==> stdout@[j] != 10u8,
        decreases n - k,
    {
        k = k + 1;
    }
    proof {
        lemma_first_newline_at(stdout@, k as int);
    }
    let mut end = k;
    if k < n && k > 0 && stdout[k - 1] == 13u8 {
        end = k - 1;
    }
    let line = slice_subrange(stdout, 0, end);
    assert(line@ =~= first_line(stdout@)->0);
    parse_u32_bytes(line)
}

} // verus!
