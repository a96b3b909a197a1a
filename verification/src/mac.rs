//! The text side of the kernel-query backend: on this platform the
//! process table is taken as a bounded pid snapshot, and each pid's
//! executable path is queried and matched by its final segment.
//!
//! The kernel calls themselves are I/O and live with the embedding
//! program; the matching and the snapshot capacity rule live here.

use crate::monitor::EnumerateError;
use crate::monitor::PID_COUNT_MAX;
use crate::text::bytes_starts_with;
use vstd::prelude::*;
use vstd::slice::slice_subrange;

verus! {

/// The final segment of a `/`-separated path: everything after the last
/// separator, or all of `path` when none occurs.
pub open spec fn basename(path: Seq<u8>) -> Seq<u8>
    decreases path.len(),
{
    if path.len() == 0 {
        path
    } else if path.last() == 47 {
        Seq::empty()
    } else {
        basename(path.drop_last()).push(path.last())
    }
}

/// A scan that finds the position after the last separator finds exactly
/// the basename.
proof fn lemma_basename_scan(s: Seq<u8>, k: int)
    requires
        0 <= k <= s.len(),
        forall|m: int| k <= m < s.len() ==> s[m] != 47,
        k == 0 || s[k - 1] == 47,
    ensures
        basename(s) == s.subrange(k, s.len() as int),
    decreases s.len(),
{
    if s.len() == k {
        assert(s.subrange(k, s.len() as int) =~= Seq::<u8>::empty());
        if s.len() > 0 {
            assert(s.last() == 47);
        }
    } else {
        let d = s.drop_last();
        assert(forall|m: int| k <= m < d.len() ==> d[m] != 47);
        lemma_basename_scan(d, k);
        assert(d.subrange(k, d.len() as int).push(s.last()) =~= s.subrange(k, s.len() as int));
    }
}

/// Whether the final path segment of `path` starts with `prefix`, byte
/// for byte.
pub fn path_matches(path: &[u8], prefix: &[u8]) -> (r: bool)
    ensures
        r == prefix@.is_prefix_of(basename(path@)),
{
    let len: usize = path.len();
    let mut k: usize = 0;
    let mut i: usize = 0;
    while i < len
        invariant
            k <= i <= len,
            len == path@.len(),
            forall|m: int| k <= m < i ==> path@[m] != 47,
            k == 0 || path@[k - 1] == 47,
        decreases len - i,
    {
        if path[i] == 47 {
            k = i + 1;
        }
        i += 1;
    }
    proof {
        lemma_basename_scan(path@, k as int);
    }
    let name = slice_subrange(path, k, len);
    bytes_starts_with(name, prefix)
}

/// Appends a matched pid to the output list, or reports that the bounded
/// snapshot capacity is exhausted: overflowing the capacity is an error
/// for the cycle, never a silent truncation.
pub fn record_match(pids: &mut Vec<i32>, pid: i32) -> (r: Result<(), EnumerateError>)
    ensures
        old(pids)@.len() + 1 >= PID_COUNT_MAX ==> r == Result::<(), EnumerateError>::Err(
            EnumerateError::CapacityExceeded,
        ) && final(pids)@ == old(pids)@,
        old(pids)@.len() + 1 < PID_COUNT_MAX ==> r is Ok && final(pids)@ == old(pids)@.push(pid),
{
    if pids.len() >= PID_COUNT_MAX - 1 {
        Err(EnumerateError::CapacityExceeded)
    } else {
        pids.push(pid);
        Ok(())
    }
}

/// Reads the resident memory of processes through the platform's
/// per-process task query, which reports the byte count directly: no
/// normalization is needed and no buffer is kept.
pub struct MacMemoryChecker;

impl MacMemoryChecker {
    pub fn new() -> Self {
        MacMemoryChecker {  }
    }
}

} // verus!
