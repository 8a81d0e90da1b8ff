//! The concurrent workload execution and measurement engine: per-cycle and
//! per-call latency statistics, snapshotting at sampling boundaries, and the
//! per-worker execution unit.
//!
//! Time enters the library as plain nanosecond readings supplied by the
//! embedding driver; the library never reads a clock itself. Each worker
//! owns its `Workload` and drives it through a unique mutable reference, so
//! no two owners ever mutate the same counters.

use vstd::prelude::*;
use vstd::multiset::Multiset;
use crate::ext;
use crate::FloodError;

verus! {

/// A recorded latency is clamped to at least one nanosecond: zero is not a
/// valid histogram value.
pub open spec fn clamp_ns(d: u64) -> u64 {
    if d == 0 {
        1u64
    } else {
        d
    }
}

/// The abstract state of per-cycle function statistics.
pub ghost struct FnStatsM {
    pub call_count: int,
    pub times: Multiset<u64>,
}

/// Statistics of the logical operation (one full cycle) invoked by the
/// workload: how many cycles completed, and their latencies in nanoseconds.
pub struct FnStats {
    pub call_count: u64,
    pub call_times_ns: ext::LatencyHistogram,
}

impl View for FnStats {
    type V = FnStatsM;

    open spec fn view(&self) -> FnStatsM {
        FnStatsM { call_count: self.call_count as int, times: ext::hist_values(self.call_times_ns) }
    }
}

/// Freshly created statistics: no cycles, no samples.
pub open spec fn fn_stats_empty() -> FnStatsM {
    FnStatsM { call_count: 0, times: Multiset::empty() }
}

/// One completed operation of duration `d` nanoseconds: the count rises by
/// one and the clamped duration is recorded.
pub open spec fn fn_stats_completed(m: FnStatsM, d: u64) -> FnStatsM {
    FnStatsM { call_count: m.call_count + 1, times: m.times.insert(clamp_ns(d)) }
}

/// A whole sequence of completed operations, in order.
pub open spec fn fn_stats_completed_all(m: FnStatsM, ds: Seq<u64>) -> FnStatsM
    decreases ds.len(),
{
    if ds.len() == 0 {
        m
    } else {
        fn_stats_completed_all(fn_stats_completed(m, ds[0]), ds.drop_first())
    }
}

/// Law: completing `k` operations raises `call_count` by exactly `k` and
/// records exactly one sample per operation — no completion is lost or
/// double-counted, whatever the durations are.
pub proof fn lemma_operations_completed_count(m: FnStatsM, ds: Seq<u64>)
    ensures
        fn_stats_completed_all(m, ds).call_count == m.call_count + ds.len(),
        fn_stats_completed_all(m, ds).times.len() == m.times.len() + ds.len(),
    decreases ds.len(),
{
    broadcast use vstd::multiset::group_multiset_axioms;

    if ds.len() > 0 {
        lemma_operations_completed_count(fn_stats_completed(m, ds[0]), ds.drop_first());
    }
}

/// Law: a zero-length duration is recorded as one nanosecond, never as
/// zero, and every other duration is recorded unchanged.
pub proof fn lemma_zero_duration_clamped(m: FnStatsM, d: u64)
    ensures
        d == 0 ==> fn_stats_completed(m, d).times == m.times.insert(1),
        d > 0 ==> fn_stats_completed(m, d).times == m.times.insert(d),
{
}

impl FnStats {
    /// Folds one completed operation into the statistics.
    pub fn operation_completed(&mut self, duration_ns: u64)
        requires
            old(self).call_count < u64::MAX,
        ensures
            final(self)@ == fn_stats_completed(old(self)@, duration_ns),
    {
        self.call_count = self.call_count + 1;
        let v = if duration_ns == 0 {
            1
        } else {
            duration_ns
        };
        ext::record_latency(&mut self.call_times_ns, v);
    }

    /// An independent copy with the same counts and samples.
    pub fn clone(&self) -> (r: FnStats)
        ensures
            r@ == self@,
    {
        FnStats { call_count: self.call_count, call_times_ns: ext::clone_histogram(&self.call_times_ns) }
    }
}

impl Default for FnStats {
    fn default() -> (r: FnStats)
        ensures
            r@ == fn_stats_empty(),
    {
        FnStats { call_count: 0, call_times_ns: ext::new_latency_histogram() }
    }
}

/// The abstract state of per-call session statistics.
pub ghost struct SessionStatsM {
    pub req_count: int,
    pub req_errors: int,
    pub times: Multiset<u64>,
}

/// Per-connection counters for the individual network round-trips a cycle
/// issues: completions, failures, and per-call latencies. Kept apart from
/// `FnStats` so that batching overhead stays visible in reports.
pub struct SessionStats {
    pub req_count: u64,
    pub req_errors: u64,
    pub req_times_ns: ext::LatencyHistogram,
}

impl View for SessionStats {
    type V = SessionStatsM;

    open spec fn view(&self) -> SessionStatsM {
        SessionStatsM {
            req_count: self.req_count as int,
            req_errors: self.req_errors as int,
            times: ext::hist_values(self.req_times_ns),
        }
    }
}

/// Freshly created session statistics.
pub open spec fn session_stats_empty() -> SessionStatsM {
    SessionStatsM { req_count: 0, req_errors: 0, times: Multiset::empty() }
}

/// One completed request: the completion count always rises; the error
/// count rises exactly when the call failed; the clamped latency is
/// recorded either way.
pub open spec fn session_stats_completed(m: SessionStatsM, d: u64, ok: bool) -> SessionStatsM {
    SessionStatsM {
        req_count: m.req_count + 1,
        req_errors: m.req_errors + (if ok {
            0int
        } else {
            1int
        }),
        times: m.times.insert(clamp_ns(d)),
    }
}

impl SessionStats {
    /// Folds one completed network call into the counters. A failed call is
    /// recorded, never raised: failure rate is a measured output.
    pub fn complete_request(&mut self, elapsed_ns: u64, ok: bool)
        requires
            old(self).req_count < u64::MAX,
            old(self).req_errors < u64::MAX,
        ensures
            final(self)@ == session_stats_completed(old(self)@, elapsed_ns, ok),
    {
        self.req_count = self.req_count + 1;
        if !ok {
            self.req_errors = self.req_errors + 1;
        }
        let v = if elapsed_ns == 0 {
            1
        } else {
            elapsed_ns
        };
        ext::record_latency(&mut self.req_times_ns, v);
    }
}

impl Default for SessionStats {
    fn default() -> (r: SessionStats)
        ensures
            r@ == session_stats_empty(),
    {
        SessionStats { req_count: 0, req_errors: 0, req_times_ns: ext::new_latency_histogram() }
    }
}

/// A worker's handle to the underlying connection: the shared transport
/// session and this worker's own per-call counters.
pub struct Context {
    pub session: alloy_rpc_client::RpcClient,
    pub stats: SessionStats,
}

impl Context {
    /// A context over a transport session, with fresh counters.
    pub fn new(session: alloy_rpc_client::RpcClient) -> (r: Context)
        ensures
            r.session == session,
            r.stats@ == session_stats_empty(),
    {
        Context { session, stats: SessionStats::default() }
    }

    /// A context for another worker: the session handle is shared, the
    /// per-call counters are this worker's own, so no two workers mutate
    /// the same counters.
    pub fn clone(&self) -> (r: Result<Context, FloodError>)
        ensures
            r matches Ok(c) && c.session == self.session && c.stats@ == session_stats_empty(),
    {
        Ok(Context { session: ext::clone_session(&self.session), stats: SessionStats::default() })
    }

    /// Zeroes the per-call counters, e.g. at the warmup-to-measurement
    /// boundary.
    pub fn reset_session_stats(&mut self)
        ensures
            final(self).stats@ == session_stats_empty(),
            final(self).session == old(self).session,
    {
        self.stats = SessionStats::default();
    }

    /// Atomically reads and clears the per-call counters: the returned
    /// statistics hold everything recorded since the last take or reset,
    /// and the context continues from zero.
    pub fn take_session_stats(&mut self) -> (r: SessionStats)
        ensures
            r@ == old(self).stats@,
            final(self).stats@ == session_stats_empty(),
            final(self).session == old(self).session,
    {
        let mut taken = SessionStats::default();
        core::mem::swap(&mut self.stats, &mut taken);
        taken
    }
}

/// The mutable part of a workload: when the current measurement window
/// began, and the per-cycle statistics gathered since.
pub struct WorkloadState {
    start_time: u64,
    fn_stats: FnStats,
}

impl WorkloadState {
    /// A fresh state whose measurement window begins at `start_time`
    /// (nanoseconds on the driver's clock).
    pub fn new(start_time: u64) -> (r: WorkloadState)
        ensures
            r.spec_start_time() == start_time,
            r.spec_fn_stats() == fn_stats_empty(),
    {
        WorkloadState { start_time, fn_stats: FnStats::default() }
    }

    /// When the current measurement window began.
    pub closed spec fn spec_start_time(&self) -> u64 {
        self.start_time
    }

    /// The statistics gathered in the current window.
    pub closed spec fn spec_fn_stats(&self) -> FnStatsM {
        self.fn_stats@
    }
}

/// An immutable snapshot of everything a workload measured in one sampling
/// window: the window's bounds, the per-cycle statistics, and the per-call
/// session statistics.
pub struct WorkloadStats {
    pub start_time: u64,
    pub end_time: u64,
    pub function_stats: FnStats,
    pub session_stats: SessionStats,
}

/// The abstract state of a snapshot.
pub ghost struct WorkloadStatsM {
    pub start_time: u64,
    pub end_time: u64,
    pub function_stats: FnStatsM,
    pub session_stats: SessionStatsM,
}

impl View for WorkloadStats {
    type V = WorkloadStatsM;

    open spec fn view(&self) -> WorkloadStatsM {
        WorkloadStatsM {
            start_time: self.start_time,
            end_time: self.end_time,
            function_stats: self.function_stats@,
            session_stats: self.session_stats@,
        }
    }
}

/// The abstract state of a workload: the opaque transport session is left
/// out; contracts state its preservation separately.
pub ghost struct WorkloadM {
    pub start_time: u64,
    pub fn_stats: FnStatsM,
    pub session_stats: SessionStatsM,
    pub requests: Seq<(Seq<char>, Seq<char>)>,
}

/// The per-worker unit of execution: a connection context and a fixed list
/// of pre-built requests, each a method name with its parameters as raw
/// JSON text.
pub struct Workload {
    context: Context,
    state: WorkloadState,
    requests: Vec<(String, String)>,
}

impl View for Workload {
    type V = WorkloadM;

    closed spec fn view(&self) -> WorkloadM {
        WorkloadM {
            start_time: self.state.spec_start_time(),
            fn_stats: self.state.spec_fn_stats(),
            session_stats: self.context.stats@,
            requests: self.requests@.map_values(|p: (String, String)| (p.0@, p.1@)),
        }
    }
}

/// One cycle of duration `end - start` completed: only the per-cycle
/// statistics change.
pub open spec fn workload_run_completed(m: WorkloadM, elapsed_ns: u64) -> WorkloadM {
    WorkloadM { fn_stats: fn_stats_completed(m.fn_stats, elapsed_ns), ..m }
}

/// The snapshot a take at `end_time` returns: the window that began at the
/// workload's start time and everything measured in it.
pub open spec fn taken_stats(m: WorkloadM, end_time: u64) -> WorkloadStatsM {
    WorkloadStatsM {
        start_time: m.start_time,
        end_time,
        function_stats: m.fn_stats,
        session_stats: m.session_stats,
    }
}

/// The workload after a take at `end_time`: fresh counters, and the next
/// window begins exactly where the taken one ended, so windows are
/// contiguous — no gaps, no overlaps.
pub open spec fn workload_after_take(m: WorkloadM, end_time: u64) -> WorkloadM {
    WorkloadM {
        start_time: end_time,
        fn_stats: fn_stats_empty(),
        session_stats: session_stats_empty(),
        requests: m.requests,
    }
}

/// The workload after a reset to `start_time`: fresh counters, same
/// requests.
pub open spec fn workload_after_reset(m: WorkloadM, start_time: u64) -> WorkloadM {
    WorkloadM {
        start_time,
        fn_stats: fn_stats_empty(),
        session_stats: session_stats_empty(),
        requests: m.requests,
    }
}

/// Law: snapshots never double-count and never lose a sample. A second
/// take immediately after a first returns empty statistics — every cycle
/// appears in exactly one snapshot — and the second window starts exactly
/// where the first ended.
pub proof fn lemma_take_stats_no_double_count(m: WorkloadM, e1: u64, e2: u64)
    ensures
        taken_stats(workload_after_take(m, e1), e2).function_stats == fn_stats_empty(),
        taken_stats(workload_after_take(m, e1), e2).session_stats == session_stats_empty(),
        taken_stats(workload_after_take(m, e1), e2).start_time == e1,
        taken_stats(m, e1).function_stats == m.fn_stats,
{
}

impl Workload {
    /// A workload over a connection context and a list of pre-built
    /// requests; its first measurement window begins at `start_time`.
    pub fn new(context: Context, requests: Vec<(String, String)>, start_time: u64) -> (r: Workload)
        ensures
            r@ == (WorkloadM {
                start_time,
                fn_stats: fn_stats_empty(),
                session_stats: context.stats@,
                requests: requests@.map_values(|p: (String, String)| (p.0@, p.1@)),
            }),
            r.spec_session() == context.session,
    {
        Workload { context, state: WorkloadState::new(start_time), requests }
    }

    /// The workload's transport session, for stating that operations leave
    /// it untouched.
    pub closed spec fn spec_session(&self) -> alloy_rpc_client::RpcClient {
        self.context.session
    }

    /// A deep copy for another worker: the request list is duplicated and
    /// the statistics are brand new, so the copy never shares counters
    /// with this workload; only the transport session handle is shared.
    pub fn clone(&self, start_time: u64) -> (r: Result<Workload, FloodError>)
        ensures
            r matches Ok(w) && w@ == workload_after_reset(self@, start_time) && w.spec_session()
                == self.spec_session(),
    {
        let context = match self.context.clone() {
            Ok(c) => c,
            Err(e) => {
                return Err(e);
            },
        };
        let mut requests: Vec<(String, String)> = Vec::new();
        let mut i: usize = 0;
        let n = self.requests.len();
        while i < n
            invariant
                i <= n,
                n == self.requests.len(),
                requests@.len() == i,
                forall|j: int|
                    0 <= j < i ==> (#[trigger] requests@[j]).0@ == self.requests@[j].0@
                        && requests@[j].1@ == self.requests@[j].1@,
            decreases n - i,
        {
            let method = self.requests[i].0.clone();
            let params = self.requests[i].1.clone();
            requests.push((method, params));
            i = i + 1;
        }
        proof {
            assert(requests@.map_values(|p: (String, String)| (p.0@, p.1@)) =~= self.requests@
                .map_values(|p: (String, String)| (p.0@, p.1@)));
        }
        Ok(Workload { context, state: WorkloadState::new(start_time), requests })
    }

    /// The contained context, e.g. to read session statistics.
    pub fn context(&self) -> (r: &Context)
        ensures
            r.stats@ == self@.session_stats,
            r.session == self.spec_session(),
    {
        &self.context
    }

    /// Folds one completed network call into the session counters. The
    /// driver calls this right after each round-trip it measures.
    pub fn complete_request(&mut self, elapsed_ns: u64, ok: bool)
        requires
            old(self)@.session_stats.req_count < u64::MAX,
            old(self)@.session_stats.req_errors < u64::MAX,
        ensures
            final(self)@ == (WorkloadM {
                session_stats: session_stats_completed(old(self)@.session_stats, elapsed_ns, ok),
                ..old(self)@
            }),
            final(self).spec_session() == old(self).spec_session(),
    {
        self.context.stats.complete_request(elapsed_ns, ok);
    }

    /// Completes one cycle of the workload, measured by the driver from
    /// `start_time` to `end_time` (nanoseconds on one clock): the cycle's
    /// elapsed time is folded into the per-cycle statistics. A cycle counts
    /// as completed whether or not its underlying calls succeeded — per-call
    /// failures live in the session counters — so this always returns the
    /// cycle number and the end time.
    pub fn run(&mut self, cycle: u64, start_time: u64, end_time: u64) -> (r: Result<
        (u64, u64),
        FloodError,
    >)
        requires
            start_time <= end_time,
            old(self)@.fn_stats.call_count < u64::MAX,
        ensures
            r == Ok::<(u64, u64), FloodError>((cycle, end_time)),
            final(self)@ == workload_run_completed(old(self)@, (end_time - start_time) as u64),
            final(self).spec_session() == old(self).spec_session(),
    {
        let elapsed = end_time - start_time;
        self.state.fn_stats.operation_completed(elapsed);
        Ok((cycle, end_time))
    }

    /// Sets the workload's window start and zeroes all counters, per-cycle
    /// and per-call: used at the warmup-to-measurement boundary so warmup
    /// traffic never pollutes reported statistics.
    pub fn reset(&mut self, start_time: u64)
        ensures
            final(self)@ == workload_after_reset(old(self)@, start_time),
            final(self).spec_session() == old(self).spec_session(),
    {
        self.state.fn_stats = FnStats::default();
        self.state.start_time = start_time;
        self.context.reset_session_stats();
    }

    /// Atomically reads and clears everything measured since the window
    /// began: the only way to read the counters. The next window starts at
    /// `end_time`, so consecutive snapshots cover contiguous,
    /// non-overlapping time ranges and no sample is double-counted or lost.
    pub fn take_stats(&mut self, end_time: u64) -> (r: WorkloadStats)
        ensures
            r@ == taken_stats(old(self)@, end_time),
            final(self)@ == workload_after_take(old(self)@, end_time),
            final(self).spec_session() == old(self).spec_session(),
    {
        let function_stats = self.state.fn_stats.clone();
        let session_stats = self.context.take_session_stats();
        let result = WorkloadStats {
            start_time: self.state.start_time,
            end_time,
            function_stats,
            session_stats,
        };
        self.state.start_time = end_time;
        self.state.fn_stats = FnStats::default();
        result
    }
}

} // verus!
