//! The monitoring logic: signal-name resolution, the threshold decision
//! rule, victim selection, and the per-cycle pipeline that drives the
//! platform capabilities.
//!
//! The platform backends are reached through the capability traits
//! [`ProcDir`] and [`MemoryChecker`]. Their implementations do I/O and
//! live with the embedding program; everything that decides lives here
//! and is verified for every outcome those calls may produce.

use crate::text::str_eq;
use vstd::prelude::*;
use vstd::seq_lib::lemma_seq_contains_after_push;

verus! {

/// How many matched pids a bounded platform snapshot can store.
pub const PID_COUNT_MAX: usize = 5000;

/// The signal codes of the Linux backend, the platform this crate's I/O
/// shell embeds. `SIGTERM` and `SIGKILL` carry these numbers on the
/// kernel-query platform too, but its user signals are 30 and 31 there:
/// an embedding on that platform resolves names itself and hands its own
/// code to [`monitor_cycle`]'s `signal_code` parameter.
pub const SIGUSR1: i32 = 10;

pub const SIGUSR2: i32 = 12;

pub const SIGTERM: i32 = 15;

pub const SIGKILL: i32 = 9;

/// Why one cycle's attempt to list processes failed. The loop absorbs
/// these: it goes on with whatever pid list is present.
#[derive(Clone, Copy, Debug, PartialEq, Eq, Structural)]
pub enum EnumerateError {
    /// The process table could not be read at all this cycle.
    Unavailable,
    /// The platform snapshot buffer cannot hold another matched pid.
    CapacityExceeded,
}

/// Why the resident memory of one pid could not be obtained. These abort
/// the cycle and propagate out of the loop.
#[derive(Clone, Copy, Debug, PartialEq, Eq, Structural)]
pub enum InspectError {
    /// The per-process memory record could not be read.
    Unreadable,
    /// The record was read but its content could not be parsed.
    Unparsable,
}

/// Enumerates live process ids whose short name begins with a prefix.
/// Implementations own the platform enumeration resource and do the I/O;
/// the loop relies on nothing about their results beyond the type.
pub trait ProcDir {
    /// Clears and repopulates `pids` with the ids of the currently visible
    /// processes whose short name starts with `starting_with`, in whatever
    /// order the platform yields them.
    fn find_processes(&mut self, pids: &mut Vec<i32>, starting_with: &str) -> Result<
        (),
        EnumerateError,
    >;
}

/// Queries one process's resident memory and delivers signals.
pub trait MemoryChecker {
    /// Returns the resident memory of `pid`, in bytes.
    fn get_memory(&mut self, pid: i32) -> Result<u64, InspectError>;

    /// Best-effort delivery of `signal` to `pid`: failures are not surfaced.
    fn kill(&self, pid: i32, signal: i32);
}

/// The numeric code of a recognized signal name.
pub open spec fn spec_signal_from_name(name: Seq<char>) -> Option<i32> {
    if name == "SIGUSR1"@ {
        Some(SIGUSR1)
    } else if name == "SIGUSR2"@ {
        Some(SIGUSR2)
    } else if name == "SIGTERM"@ {
        Some(SIGTERM)
    } else if name == "SIGKILL"@ {
        Some(SIGKILL)
    } else {
        None
    }
}

/// Resolves a recognized signal name to the Linux backend's code.
pub fn signal_from_string(signal: &str) -> (r: Option<i32>)
    ensures
        r == spec_signal_from_name(signal@),
{
    if str_eq(signal, "SIGUSR1") {
        Some(SIGUSR1)
    } else if str_eq(signal, "SIGUSR2") {
        Some(SIGUSR2)
    } else if str_eq(signal, "SIGTERM") {
        Some(SIGTERM)
    } else if str_eq(signal, "SIGKILL") {
        Some(SIGKILL)
    } else {
        None
    }
}

/// The code used for a configured signal name: unrecognized names fall
/// back to `SIGTERM`, so resolution is total and never an error.
pub fn signal_code_for(signal: &str) -> (r: i32)
    ensures
        r == (match spec_signal_from_name(signal@) {
            Some(code) => code,
            None => SIGTERM,
        }),
{
    match signal_from_string(signal) {
        Some(code) => code,
        None => SIGTERM,
    }
}

/// The four recognized names resolve to four distinct codes.
pub proof fn lemma_signal_name_table()
    ensures
        spec_signal_from_name("SIGUSR1"@) == Some(SIGUSR1),
        spec_signal_from_name("SIGUSR2"@) == Some(SIGUSR2),
        spec_signal_from_name("SIGTERM"@) == Some(SIGTERM),
        spec_signal_from_name("SIGKILL"@) == Some(SIGKILL),
{
    reveal_strlit("SIGUSR1");
    reveal_strlit("SIGUSR2");
    reveal_strlit("SIGTERM");
    reveal_strlit("SIGKILL");
    assert("SIGUSR2"@[6] != "SIGUSR1"@[6]);
    assert("SIGTERM"@[3] != "SIGUSR1"@[3]);
    assert("SIGTERM"@[3] != "SIGUSR2"@[3]);
    assert("SIGKILL"@[3] != "SIGUSR1"@[3]);
    assert("SIGKILL"@[3] != "SIGUSR2"@[3]);
    assert("SIGKILL"@[3] != "SIGTERM"@[3]);
}

pub fn bytes_to_megabytes(bytes: u64) -> (r: u64)
    ensures
        r == bytes / 1024 / 1024,
{
    bytes / 1024 / 1024
}

/// The decision rule of the watchdog: a process is signaled exactly when
/// its usage is strictly over the threshold.
pub open spec fn triggers_signal(usage: u64, threshold: u64) -> bool {
    usage > threshold
}

pub fn exceeds_threshold(usage: u64, threshold: u64) -> (r: bool)
    ensures
        r == triggers_signal(usage, threshold),
{
    usage > threshold
}

/// Usage equal to the threshold never triggers a signal; usage one byte
/// above it always does.
pub proof fn lemma_threshold_boundary(threshold: u64)
    ensures
        !triggers_signal(threshold, threshold),
        threshold < u64::MAX ==> triggers_signal((threshold + 1) as u64, threshold),
{
}

/// The pids whose paired usage is over the threshold, in order.
pub open spec fn select_victims(pids: Seq<i32>, usages: Seq<u64>, threshold: u64) -> Seq<i32>
    decreases pids.len(),
{
    if pids.len() == 0 {
        Seq::empty()
    } else {
        let rest = select_victims(pids.drop_last(), usages.drop_last(), threshold);
        if triggers_signal(usages.last(), threshold) {
            rest.push(pids.last())
        } else {
            rest
        }
    }
}

/// A pid is selected if and only if some position holds it with a usage
/// over the threshold: every over-threshold process is signaled, and only
/// those.
pub proof fn lemma_select_victims_membership(
    pids: Seq<i32>,
    usages: Seq<u64>,
    threshold: u64,
    v: i32,
)
    requires
        pids.len() == usages.len(),
    ensures
        select_victims(pids, usages, threshold).contains(v) <==> (exists|i: int|
            0 <= i < pids.len() && pids[i] == v && usages[i] > threshold),
    decreases pids.len(),
{
    if pids.len() > 0 {
        let pd = pids.drop_last();
        let ud = usages.drop_last();
        let n = pids.len() - 1;
        lemma_select_victims_membership(pd, ud, threshold, v);
        let rest = select_victims(pd, ud, threshold);
        if triggers_signal(usages.last(), threshold) {
            lemma_seq_contains_after_push(rest, pids.last(), v);
        }
        if rest.contains(v) {
            let i = choose|i: int| 0 <= i < pd.len() && pd[i] == v && ud[i] > threshold;
            assert(pids[i] == v && usages[i] > threshold);
        }
        if exists|i: int| 0 <= i < pids.len() && pids[i] == v && usages[i] > threshold {
            let i = choose|i: int| 0 <= i < pids.len() && pids[i] == v && usages[i] > threshold;
            if i < n {
                assert(pd[i] == v && ud[i] > threshold);
            }
        }
    }
}

/// When the pid list has no duplicates, no pid is selected twice: at most
/// one signal per process per cycle.
pub proof fn lemma_select_victims_no_duplicates(pids: Seq<i32>, usages: Seq<u64>, threshold: u64)
    requires
        pids.len() == usages.len(),
        pids.no_duplicates(),
    ensures
        select_victims(pids, usages, threshold).no_duplicates(),
    decreases pids.len(),
{
    if pids.len() > 0 {
        let pd = pids.drop_last();
        let ud = usages.drop_last();
        let n = pids.len() - 1;
        lemma_select_victims_no_duplicates(pd, ud, threshold);
        let rest = select_victims(pd, ud, threshold);
        if triggers_signal(usages.last(), threshold) {
            let x = pids.last();
            assert(!rest.contains(x)) by {
                lemma_select_victims_membership(pd, ud, threshold, x);
                if rest.contains(x) {
                    let i = choose|i: int| 0 <= i < pd.len() && pd[i] == x && ud[i] > threshold;
                    assert(pids[i] == pids[n]);
                }
            }
            let rp = rest.push(x);
            assert forall|i: int, j: int|
                (0 <= i < rp.len() && 0 <= j < rp.len() && i != j) implies rp[i] != rp[j] by {
                if i < rest.len() && j < rest.len() {
                    assert(rest[i] != rest[j]);
                } else if j == rest.len() {
                    assert(rest.contains(rest[i])) by {
                        assert(rest[i] == rest[i]);
                    }
                } else {
                    assert(rest.contains(rest[j])) by {
                        assert(rest[j] == rest[j]);
                    }
                }
            }
        }
    }
}

/// Fills `victims` with exactly the pids whose usage is over the
/// threshold, keeping their order.
pub fn select_over_threshold(
    pids: &Vec<i32>,
    usages: &Vec<u64>,
    threshold: u64,
    victims: &mut Vec<i32>,
)
    requires
        pids@.len() == usages@.len(),
    ensures
        final(victims)@ == select_victims(pids@, usages@, threshold),
{
    victims.clear();
    let n = pids.len();
    let mut i: usize = 0;
    while i < n
        invariant
            i <= n,
            n == pids@.len(),
            pids@.len() == usages@.len(),
            victims@ == select_victims(
                pids@.subrange(0, i as int),
                usages@.subrange(0, i as int),
                threshold,
            ),
        decreases n - i,
    {
        if exceeds_threshold(usages[i], threshold) {
            victims.push(pids[i]);
        }
        proof {
            let p1 = pids@.subrange(0, (i + 1) as int);
            let u1 = usages@.subrange(0, (i + 1) as int);
            assert(p1.drop_last() =~= pids@.subrange(0, i as int));
            assert(u1.drop_last() =~= usages@.subrange(0, i as int));
            assert(p1.last() == pids@[i as int]);
            assert(u1.last() == usages@[i as int]);
        }
        i += 1;
    }
    proof {
        assert(pids@.subrange(0, n as int) =~= pids@);
        assert(usages@.subrange(0, n as int) =~= usages@);
    }
}

/// What one cycle observed, for the embedding program to report.
#[derive(Clone, Copy, Debug)]
pub struct CycleStats {
    /// How many pids were inspected this cycle.
    pub checked: usize,
    /// How many of them were signaled.
    pub signaled: usize,
    /// The enumeration failure this cycle absorbed, if any.
    pub enumerate_error: Option<EnumerateError>,
}

/// Queries the resident memory of every pid in order, stopping at the
/// first failure: one uninspectable pid aborts the whole cycle.
fn inspect_all<M: MemoryChecker>(checker: &mut M, pids: &Vec<i32>, usages: &mut Vec<u64>) -> (r:
    Result<(), InspectError>)
    ensures
        r is Ok ==> final(usages)@.len() == pids@.len(),
        r is Err ==> final(usages)@.len() < pids@.len(),
        pids@.len() == 0 ==> r is Ok,
{
    usages.clear();
    let n = pids.len();
    let mut i: usize = 0;
    while i < n
        invariant
            i <= n,
            n == pids@.len(),
            usages@.len() == i,
        decreases n - i,
    {
        match checker.get_memory(pids[i]) {
            Ok(usage) => usages.push(usage),
            Err(e) => {
                return Err(e);
            },
        }
        i += 1;
    }
    Ok(())
}

/// Delivers the signal to every selected pid, best effort.
fn signal_all<M: MemoryChecker>(checker: &M, victims: &Vec<i32>, signal_code: i32) {
    let n = victims.len();
    let mut i: usize = 0;
    while i < n
        invariant
            i <= n,
            n == victims@.len(),
        decreases n - i,
    {
        checker.kill(victims[i], signal_code);
        i += 1;
    }
}

/// One full cycle: enumerate, inspect, decide, signal.
///
/// Enumeration failures are absorbed and reported in the stats; the cycle
/// then goes on with whatever `pids` holds. An inspection failure aborts
/// the cycle before any signal is sent. On success, `victims` holds
/// exactly the pids whose usage came back over the threshold, each of
/// which was handed to `kill` once, and the stats count them.
///
/// The three buffers are caller-owned and are cleared, never reallocated,
/// so their capacity is bounded over any number of cycles.
pub fn monitor_cycle<P: ProcDir, M: MemoryChecker>(
    proc_dir: &mut P,
    checker: &mut M,
    pids: &mut Vec<i32>,
    usages: &mut Vec<u64>,
    victims: &mut Vec<i32>,
    starting_with: &str,
    memory_threshold: u64,
    signal_code: i32,
) -> (r: Result<CycleStats, InspectError>)
    ensures
        match r {
            Ok(stats) => {
                &&& final(usages)@.len() == final(pids)@.len()
                &&& final(victims)@ == select_victims(
                    final(pids)@,
                    final(usages)@,
                    memory_threshold,
                )
                &&& stats.checked == final(pids)@.len()
                &&& stats.signaled == final(victims)@.len()
            },
            Err(_) => {
                &&& final(victims)@ == old(victims)@
                &&& final(usages)@.len() < final(pids)@.len()
            },
        },
        final(pids)@.len() == 0 ==> r is Ok,
{
    let enumerate_error = match proc_dir.find_processes(pids, starting_with) {
        Ok(()) => None,
        Err(e) => Some(e),
    };
    match inspect_all(checker, pids, usages) {
        Ok(()) => {},
        Err(e) => {
            return Err(e);
        },
    }
    select_over_threshold(pids, usages, memory_threshold, victims);
    signal_all(checker, victims, signal_code);
    Ok(CycleStats { checked: pids.len(), signaled: victims.len(), enumerate_error })
}

/// Runs one single-shot monitoring pass against the given capabilities:
/// the configured signal name is resolved (falling back to `SIGTERM`)
/// and one full cycle runs, without a sleep, on the caller-owned buffers.
///
/// Repetition is the embedding program's: verified code must terminate,
/// so the unbounded poll loop — sleep for `interval` seconds, run the
/// next pass, until asked to stop — stays with the caller, which keeps
/// the buffers across cycles. `single` is therefore required to be true
/// here; `interval` only takes part in the pacing that the caller owns.
#[allow(unused_variables)]
pub fn monitor_processes<P: ProcDir, M: MemoryChecker>(
    proc_dir: &mut P,
    checker: &mut M,
    pids: &mut Vec<i32>,
    usages: &mut Vec<u64>,
    victims: &mut Vec<i32>,
    starting_with: &str,
    memory_threshold: u64,
    interval: u16,
    signal: &str,
    single: bool,
) -> (r: Result<CycleStats, InspectError>)
    requires
        single,
    ensures
        match r {
            Ok(stats) => {
                &&& final(usages)@.len() == final(pids)@.len()
                &&& final(victims)@ == select_victims(
                    final(pids)@,
                    final(usages)@,
                    memory_threshold,
                )
                &&& stats.checked == final(pids)@.len()
                &&& stats.signaled == final(victims)@.len()
            },
            Err(_) => {
                &&& final(victims)@ == old(victims)@
                &&& final(usages)@.len() < final(pids)@.len()
            },
        },
        final(pids)@.len() == 0 ==> r is Ok,
{
    let signal_code = signal_code_for(signal);
    monitor_cycle(
        proc_dir,
        checker,
        pids,
        usages,
        victims,
        starting_with,
        memory_threshold,
        signal_code,
    )
}

} // verus!
