//! The text side of the `/proc`-based backend: pid parsing from directory
//! entry names, short-name extraction from a `comm` record, resident-set
//! parsing from a `statm` record, and `/proc` path construction.
//!
//! The backend reads per-process text files under `/proc`; the file opens
//! and reads are I/O and live with the embedding program, which hands the
//! raw bytes to these functions.

use crate::monitor::InspectError;
use crate::text::all_digits;
use crate::text::bytes_starts_with;
use crate::text::dec_rep;
use crate::text::digits_value;
use crate::text::is_ascii_space;
use crate::text::parse_decimal_u64;
use crate::text::push_decimal;
use vstd::arithmetic::div_mod::lemma_fundamental_div_mod;
use vstd::prelude::*;
use vstd::slice::slice_subrange;

verus! {

/// The platform's maximum path length, also used to size record buffers.
pub const PATH_MAX: usize = 4096;

/// The memory page size assumed when normalizing a page count to bytes.
pub const PAGE_SIZE: u64 = 4096;

/// The bytes of `s` before the first occurrence of `stop`, or all of `s`
/// when `stop` does not occur.
pub open spec fn prefix_before(s: Seq<u8>, stop: u8) -> Seq<u8>
    decreases s.len(),
{
    if s.len() == 0 {
        s
    } else if s[0] == stop {
        Seq::empty()
    } else {
        seq![s[0]] + prefix_before(s.drop_first(), stop)
    }
}

/// A left-to-right scan that stops at `k` finds exactly the prefix before
/// the first `stop` byte.
proof fn lemma_prefix_before_scan(s: Seq<u8>, stop: u8, k: int)
    requires
        0 <= k <= s.len(),
        forall|m: int| 0 <= m < k ==> s[m] != stop,
        k == s.len() || s[k] == stop,
    ensures
        prefix_before(s, stop) == s.subrange(0, k),
    decreases s.len(),
{
    if s.len() == 0 {
        assert(s.subrange(0, 0) =~= s);
    } else if s[0] == stop {
        assert(k == 0);
        assert(s.subrange(0, 0) =~= Seq::<u8>::empty());
    } else {
        assert(k >= 1);
        let d = s.drop_first();
        assert(forall|m: int| 0 <= m < k - 1 ==> d[m] != stop);
        assert(k - 1 == d.len() || d[k - 1] == stop);
        lemma_prefix_before_scan(d, stop, k - 1);
        assert(seq![s[0]] + d.subrange(0, k - 1) =~= s.subrange(0, k));
    }
}

/// The short name held in a `comm` record buffer: the bytes before the
/// first NUL, cut again at the first newline.
pub open spec fn comm_short_name(contents: Seq<u8>) -> Seq<u8> {
    prefix_before(prefix_before(contents, 0), 10)
}

/// Whether the short name in a `comm` record buffer starts with `prefix`,
/// byte for byte.
pub fn comm_matches(contents: &[u8], prefix: &[u8]) -> (r: bool)
    ensures
        r == prefix@.is_prefix_of(comm_short_name(contents@)),
{
    let len: usize = contents.len();
    let mut k0: usize = 0;
    while k0 < len && contents[k0] != 0
        invariant
            k0 <= len,
            len == contents@.len(),
            forall|m: int| 0 <= m < k0 ==> contents@[m] != 0,
        decreases len - k0,
    {
        k0 += 1;
    }
    proof {
        lemma_prefix_before_scan(contents@, 0, k0 as int);
    }
    let mut k1: usize = 0;
    while k1 < k0 && contents[k1] != 10
        invariant
            k1 <= k0 <= len,
            len == contents@.len(),
            forall|m: int| 0 <= m < k1 ==> contents@[m] != 10,
        decreases k0 - k1,
    {
        k1 += 1;
    }
    proof {
        let cut0 = contents@.subrange(0, k0 as int);
        assert(forall|m: int| 0 <= m < k1 ==> cut0[m] != 10);
        assert(k1 == cut0.len() || cut0[k1 as int] == 10);
        lemma_prefix_before_scan(cut0, 10, k1 as int);
        assert(cut0.subrange(0, k1 as int) =~= contents@.subrange(0, k1 as int));
    }
    let name = slice_subrange(contents, 0, k1);
    bytes_starts_with(name, prefix)
}

/// Parses a directory entry name as a decimal pid: the entry stands for a
/// process exactly when its name is all digits and fits.
pub fn parse_pid(name: &[u8]) -> (r: Option<i32>)
    ensures
        match r {
            Some(p) => name@.len() > 0 && all_digits(name@) && p >= 0 && digits_value(name@)
                == p as nat,
            None => name@.len() == 0 || !all_digits(name@) || digits_value(name@) > i32::MAX,
        },
{
    let len: usize = name.len();
    proof {
        assert(name@.subrange(0, len as int) =~= name@);
    }
    match parse_decimal_u64(name, 0, len) {
        Some(v) => {
            if v <= i32::MAX as u64 {
                Some(v as i32)
            } else {
                None
            }
        },
        None => None,
    }
}

/// The suffix of `s` after leading bytes satisfying the ASCII-space test.
pub open spec fn skip_spaces(s: Seq<u8>) -> Seq<u8>
    decreases s.len(),
{
    if s.len() == 0 {
        s
    } else if is_ascii_space(s[0]) {
        skip_spaces(s.drop_first())
    } else {
        s
    }
}

/// The suffix of `s` after its leading run of non-space bytes.
pub open spec fn skip_token(s: Seq<u8>) -> Seq<u8>
    decreases s.len(),
{
    if s.len() == 0 {
        s
    } else if !is_ascii_space(s[0]) {
        skip_token(s.drop_first())
    } else {
        s
    }
}

/// The leading run of non-space bytes of `s`.
pub open spec fn take_token(s: Seq<u8>) -> Seq<u8>
    decreases s.len(),
{
    if s.len() == 0 || is_ascii_space(s[0]) {
        Seq::empty()
    } else {
        seq![s[0]] + take_token(s.drop_first())
    }
}

/// The second whitespace-separated token of `s`.
pub open spec fn second_token(s: Seq<u8>) -> Seq<u8> {
    take_token(skip_spaces(skip_token(skip_spaces(s))))
}

/// The resident-set field of a `statm` record: its second token read as a
/// decimal page count.
pub open spec fn statm_rss_pages(s: Seq<u8>) -> Option<nat> {
    let t = second_token(s);
    if t.len() > 0 && all_digits(t) {
        Some(digits_value(t))
    } else {
        None
    }
}

proof fn lemma_skip_spaces_scan(s: Seq<u8>, i: int, j: int)
    requires
        0 <= i <= j <= s.len(),
        forall|m: int| i <= m < j ==> is_ascii_space(#[trigger] s[m]),
        j == s.len() || !is_ascii_space(s[j]),
    ensures
        skip_spaces(s.skip(i)) == s.skip(j),
    decreases j - i,
{
    if i == j {
        if i < s.len() {
            assert(s.skip(i)[0] == s[i]);
            assert(!is_ascii_space(s.skip(i)[0]));
        }
    } else {
        assert(s.skip(i)[0] == s[i]);
        assert(s.skip(i).drop_first() =~= s.skip(i + 1));
        lemma_skip_spaces_scan(s, i + 1, j);
    }
}

proof fn lemma_skip_token_scan(s: Seq<u8>, i: int, j: int)
    requires
        0 <= i <= j <= s.len(),
        forall|m: int| i <= m < j ==> !is_ascii_space(#[trigger] s[m]),
        j == s.len() || is_ascii_space(s[j]),
    ensures
        skip_token(s.skip(i)) == s.skip(j),
    decreases j - i,
{
    if i == j {
        if i < s.len() {
            assert(s.skip(i)[0] == s[i]);
        }
    } else {
        assert(s.skip(i)[0] == s[i]);
        assert(s.skip(i).drop_first() =~= s.skip(i + 1));
        lemma_skip_token_scan(s, i + 1, j);
    }
}

proof fn lemma_take_token_scan(s: Seq<u8>, i: int, j: int)
    requires
        0 <= i <= j <= s.len(),
        forall|m: int| i <= m < j ==> !is_ascii_space(#[trigger] s[m]),
        j == s.len() || is_ascii_space(s[j]),
    ensures
        take_token(s.skip(i)) == s.subrange(i, j),
    decreases j - i,
{
    if i == j {
        if i < s.len() {
            assert(s.skip(i)[0] == s[i]);
        }
        assert(s.subrange(i, i) =~= Seq::<u8>::empty());
    } else {
        assert(s.skip(i)[0] == s[i]);
        assert(s.skip(i).drop_first() =~= s.skip(i + 1));
        lemma_take_token_scan(s, i + 1, j);
        assert(seq![s[i]] + s.subrange(i + 1, j) =~= s.subrange(i, j));
    }
}

fn is_space_byte(b: u8) -> (r: bool)
    ensures
        r == is_ascii_space(b),
{
    b == 32 || (b >= 9 && b <= 13)
}

/// Parses a `statm` record and normalizes its resident-set field to
/// bytes: the second whitespace-separated token, read as an unsigned page
/// count and multiplied by the page size. Anything else — a missing or
/// non-numeric token, or a count too large to express in bytes — is a
/// parse failure, never a panic.
pub fn statm_rss_bytes(contents: &[u8]) -> (r: Result<u64, InspectError>)
    ensures
        match r {
            Ok(v) => {
                &&& statm_rss_pages(contents@) is Some
                &&& v == PAGE_SIZE * statm_rss_pages(contents@)->Some_0
                &&& v % 4096 == 0
            },
            Err(e) => {
                &&& e == InspectError::Unparsable
                &&& (statm_rss_pages(contents@) is None || statm_rss_pages(contents@)->Some_0
                    * PAGE_SIZE > u64::MAX)
            },
        },
{
    let len: usize = contents.len();
    let mut i1: usize = 0;
    while i1 < len && is_space_byte(contents[i1])
        invariant
            i1 <= len,
            len == contents@.len(),
            forall|m: int| 0 <= m < i1 ==> is_ascii_space(#[trigger] contents@[m]),
        decreases len - i1,
    {
        i1 += 1;
    }
    let mut i2: usize = i1;
    while i2 < len && !is_space_byte(contents[i2])
        invariant
            i1 <= i2 <= len,
            len == contents@.len(),
            forall|m: int| i1 <= m < i2 ==> !is_ascii_space(#[trigger] contents@[m]),
        decreases len - i2,
    {
        i2 += 1;
    }
    let mut i3: usize = i2;
    while i3 < len && is_space_byte(contents[i3])
        invariant
            i2 <= i3 <= len,
            len == contents@.len(),
            forall|m: int| i2 <= m < i3 ==> is_ascii_space(#[trigger] contents@[m]),
        decreases len - i3,
    {
        i3 += 1;
    }
    let mut i4: usize = i3;
    while i4 < len && !is_space_byte(contents[i4])
        invariant
            i3 <= i4 <= len,
            len == contents@.len(),
            forall|m: int| i3 <= m < i4 ==> !is_ascii_space(#[trigger] contents@[m]),
        decreases len - i4,
    {
        i4 += 1;
    }
    proof {
        let s = contents@;
        assert(s.skip(0) =~= s);
        lemma_skip_spaces_scan(s, 0, i1 as int);
        lemma_skip_token_scan(s, i1 as int, i2 as int);
        lemma_skip_spaces_scan(s, i2 as int, i3 as int);
        lemma_take_token_scan(s, i3 as int, i4 as int);
        assert(second_token(s) == s.subrange(i3 as int, i4 as int));
    }
    match parse_decimal_u64(contents, i3, i4) {
        Some(pages) => {
            if pages <= u64::MAX / PAGE_SIZE {
                proof {
                    lemma_fundamental_div_mod(u64::MAX as int, PAGE_SIZE as int);
                    assert(pages * PAGE_SIZE <= u64::MAX);
                    lemma_mod_of_page_multiple(pages);
                }
                Ok(pages * PAGE_SIZE)
            } else {
                proof {
                    lemma_fundamental_div_mod(u64::MAX as int, PAGE_SIZE as int);
                    assert(pages * PAGE_SIZE > u64::MAX);
                }
                Err(InspectError::Unparsable)
            }
        },
        None => {
            proof {
                let t = second_token(contents@);
                if t.len() > 0 && all_digits(t) {
                    assert(digits_value(t) > u64::MAX);
                    assert(digits_value(t) * PAGE_SIZE >= digits_value(t) * 1);
                }
            }
            Err(InspectError::Unparsable)
        },
    }
}

/// A product of the page size is divisible by it.
proof fn lemma_mod_of_page_multiple(pages: u64)
    requires
        pages * PAGE_SIZE <= u64::MAX,
    ensures
        (pages * PAGE_SIZE) as u64 % 4096 == 0,
{
    vstd::arithmetic::div_mod::lemma_mod_multiples_basic(pages as int, 4096);
}

/// The byte string `/proc/<pid>/<filename>`.
pub open spec fn proc_path_spec(pid: int, filename: Seq<u8>) -> Seq<u8> {
    seq![47u8, 112u8, 114u8, 111u8, 99u8, 47u8] + dec_rep(pid as nat) + seq![47u8] + filename
}

/// Writes the path of a per-process file under `/proc` into `out`,
/// replacing its contents and reusing its storage.
pub fn proc_path(pid: i32, filename: &[u8], out: &mut Vec<u8>)
    requires
        pid >= 0,
    ensures
        final(out)@ == proc_path_spec(pid as int, filename@),
{
    out.clear();
    out.push(47);
    out.push(112);
    out.push(114);
    out.push(111);
    out.push(99);
    out.push(47);
    push_decimal(pid as u64, out);
    out.push(47);
    let ghost base = out@;
    let n: usize = filename.len();
    let mut j: usize = 0;
    while j < n
        invariant
            j <= n,
            n == filename@.len(),
            out@ == base + filename@.subrange(0, j as int),
        decreases n - j,
    {
        out.push(filename[j]);
        proof {
            assert((base + filename@.subrange(0, j as int)).push(filename@[j as int]) =~= base
                + filename@.subrange(0, j + 1));
        }
        j += 1;
    }
    proof {
        assert(base + filename@.subrange(0, n as int) =~= proc_path_spec(pid as int, filename@));
    }
}

/// Reads the resident memory of processes out of their `statm` records.
/// It owns a reusable record buffer: the embedding program builds the
/// path with [`proc_path`], reads the file's bytes into `buffer`, and
/// [`LinuxMemoryChecker::rss_bytes`] does the parsing.
pub struct LinuxMemoryChecker {
    pub buffer: Vec<u8>,
}

impl LinuxMemoryChecker {
    pub fn new() -> (r: Self)
        ensures
            r.buffer@.len() == 0,
    {
        LinuxMemoryChecker { buffer: Vec::with_capacity(PATH_MAX) }
    }

    /// Parses the `statm` record currently held in `buffer`; see
    /// [`statm_rss_bytes`].
    pub fn rss_bytes(&self) -> (r: Result<u64, InspectError>)
        ensures
            match r {
                Ok(v) => {
                    &&& statm_rss_pages(self.buffer@) is Some
                    &&& v == PAGE_SIZE * statm_rss_pages(self.buffer@)->Some_0
                    &&& v % 4096 == 0
                },
                Err(e) => {
                    &&& e == InspectError::Unparsable
                    &&& (statm_rss_pages(self.buffer@) is None || statm_rss_pages(
                        self.buffer@,
                    )->Some_0 * PAGE_SIZE > u64::MAX)
                },
            },
    {
        statm_rss_bytes(self.buffer.as_slice())
    }
}

} // verus!
