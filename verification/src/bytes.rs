//! Small operations on byte strings: runs up to a stop byte, copies and
//! comparisons.

use vstd::prelude::*;
use vstd::utf8::valid_utf8;

verus! {

/// The length of the longest prefix of `s` that does not hold `stop`.
pub open spec fn run_len(s: Seq<u8>, stop: u8) -> nat
    decreases s.len(),
{
    if s.len() == 0 || s[0] == stop {
        0
    } else {
        1 + run_len(s.skip(1), stop)
    }
}

/// A run ends within the sequence, at its end or at the first stop byte, and
/// holds no stop byte.
pub proof fn lemma_run_len(s: Seq<u8>, stop: u8)
    ensures
        run_len(s, stop) <= s.len(),
        run_len(s, stop) < s.len() ==> s[run_len(s, stop) as int] == stop,
        forall|i: int| 0 <= i < run_len(s, stop) ==> s[i] != stop,
    decreases s.len(),
{
    if s.len() == 0 || s[0] == stop {
    } else {
        let t = s.skip(1);
        lemma_run_len(t, stop);
        assert forall|i: int| 0 <= i < run_len(s, stop) implies s[i] != stop by {
            if i > 0 {
                assert(s[i] == t[i - 1]);
            }
        }
        if run_len(s, stop) < s.len() {
            assert(s[run_len(s, stop) as int] == t[run_len(t, stop) as int]);
        }
    }
}

/// A prefix without the stop byte that ends at the sequence's end or before a
/// stop byte is the run.
pub proof fn lemma_run_len_is(s: Seq<u8>, stop: u8, n: nat)
    requires
        n <= s.len(),
        forall|i: int| 0 <= i < n ==> s[i] != stop,
        n < s.len() ==> s[n as int] == stop,
    ensures
        run_len(s, stop) == n,
    decreases s.len(),
{
    if s.len() == 0 || s[0] == stop {
    } else {
        let t = s.skip(1);
        assert forall|i: int| 0 <= i < n - 1 implies t[i] != stop by {
            assert(t[i] == s[i + 1]);
        }
        if n < s.len() {
            assert(t[n - 1] == s[n as int]);
        }
        lemma_run_len_is(t, stop, (n - 1) as nat);
    }
}

/// The deep view of a byte vector is its view.
pub proof fn lemma_bytes_deep_view(v: Vec<u8>)
    ensures
        v.deep_view() == v@,
{
    assert(v.deep_view() =~= v@);
}

/// The index at which the run that starts at `start` ends.
pub fn run_end(s: &[u8], start: usize, stop: u8) -> (end: usize)
    requires
        start <= s.len(),
    ensures
        start <= end <= s.len(),
        end - start == run_len(s@.skip(start as int), stop),
{
    let mut end: usize = start;
    while end < s.len() && s[end] != stop
        invariant
            start <= end <= s.len(),
            forall|i: int| start <= i < end ==> s@[i] != stop,
        decreases s.len() - end,
    {
        end += 1;
    }
    proof {
        let t = s@.skip(start as int);
        assert forall|i: int| 0 <= i < end - start implies t[i] != stop by {
            assert(t[i] == s@[start + i]);
        }
        lemma_run_len_is(t, stop, (end - start) as nat);
    }
    end
}

/// A copy of the bytes from `from` up to `to`.
pub fn copy_range(s: &[u8], from: usize, to: usize) -> (out: Vec<u8>)
    requires
        from <= to <= s.len(),
    ensures
        out@ == s@.subrange(from as int, to as int),
{
    let mut out: Vec<u8> = Vec::new();
    let mut k: usize = from;
    while k < to
        invariant
            from <= k <= to <= s.len(),
            out@ == s@.subrange(from as int, k as int),
        decreases to - k,
    {
        out.push(s[k]);
        k += 1;
    }
    out
}

/// Whether two byte strings are the same.
pub fn bytes_eq(a: &[u8], b: &[u8]) -> (same: bool)
    ensures
        same == (a@ == b@),
{
    if a.len() != b.len() {
        return false;
    }
    let mut i: usize = 0;
    while i < a.len()
        invariant
            a.len() == b.len(),
            i <= a.len(),
            forall|j: int| 0 <= j < i ==> a@[j] == b@[j],
        decreases a.len() - i,
    {
        if a[i] != b[i] {
            return false;
        }
        i += 1;
    }
    assert(a@ =~= b@);
    true
}

/// `std::str::from_utf8`, asked only whether it succeeds: it does on the
/// byte strings that are well-formed UTF-8, and on no others.
#[verifier::external_body]
pub(crate) fn is_utf8(bytes: &[u8]) -> (valid: bool)
    ensures
        valid == valid_utf8(bytes@),
{
    std::str::from_utf8(bytes).is_ok()
}

} // verus!
