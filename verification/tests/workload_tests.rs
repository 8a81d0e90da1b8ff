use alloy_rpc_client::RpcClient;
use flood_rust::workload::{Context, FnStats, Workload};

fn test_client() -> RpcClient {
    let u: url::Url = "http://localhost:1/".parse().unwrap();
    RpcClient::new_http(u)
}

fn test_workload(start_time: u64) -> Workload {
    let context = Context::new(test_client());
    let requests = vec![(
        "eth_getBlockByNumber".to_string(),
        "[\"0x123\",false]".to_string(),
    )];
    Workload::new(context, requests, start_time)
}

#[test]
fn operation_completed_counts_every_call() {
    let mut stats = FnStats::default();
    assert_eq!(stats.call_count, 0);
    assert_eq!(stats.call_times_ns.inner.len(), 0);
    for _ in 0..5 {
        stats.operation_completed(2_000_000);
    }
    assert_eq!(stats.call_count, 5);
    assert_eq!(stats.call_times_ns.inner.len(), 5);
}

#[test]
fn zero_duration_recorded_as_one() {
    let mut stats = FnStats::default();
    stats.operation_completed(0);
    assert_eq!(stats.call_count, 1);
    assert_eq!(stats.call_times_ns.inner.len(), 1);
    // the zero-length sample is clamped to one nanosecond, never zero
    assert_eq!(stats.call_times_ns.inner.min(), 1);
    assert_eq!(stats.call_times_ns.inner.max(), 1);
}

#[test]
fn fn_stats_clone_is_independent() {
    let mut stats = FnStats::default();
    stats.operation_completed(1000);
    let copy = stats.clone();
    stats.operation_completed(1000);
    assert_eq!(copy.call_count, 1);
    assert_eq!(copy.call_times_ns.inner.len(), 1);
    assert_eq!(stats.call_count, 2);
}

#[test]
fn run_returns_ok_even_after_failed_dispatch() {
    let mut w = test_workload(0);
    // a transport failure is recorded, not raised: run still completes the
    // cycle and hands back its number and end time
    w.complete_request(1_000_000, false);
    let r = w.run(5, 1_000, 2_001_000);
    assert_eq!(r.unwrap(), (5, 2_001_000));
    let stats = w.take_stats(3_000_000);
    assert_eq!(stats.function_stats.call_count, 1);
    assert_eq!(stats.session_stats.req_count, 1);
    assert_eq!(stats.session_stats.req_errors, 1);
}

#[test]
fn take_stats_never_double_counts() {
    let mut w = test_workload(100);
    w.run(1, 100, 200).unwrap();
    let first = w.take_stats(200);
    assert_eq!(first.start_time, 100);
    assert_eq!(first.end_time, 200);
    assert_eq!(first.function_stats.call_count, 1);
    // nothing ran in between: the second snapshot is empty and starts
    // exactly where the first ended
    let second = w.take_stats(300);
    assert_eq!(second.start_time, 200);
    assert_eq!(second.end_time, 300);
    assert_eq!(second.function_stats.call_count, 0);
    assert_eq!(second.function_stats.call_times_ns.inner.len(), 0);
    assert_eq!(second.session_stats.req_count, 0);
}

#[test]
fn reset_discards_warmup_traffic() {
    let mut w = test_workload(0);
    w.complete_request(500, true);
    w.run(1, 0, 1_000).unwrap();
    w.reset(5_000);
    let stats = w.take_stats(6_000);
    assert_eq!(stats.start_time, 5_000);
    assert_eq!(stats.function_stats.call_count, 0);
    assert_eq!(stats.session_stats.req_count, 0);
}

#[test]
fn clone_shares_no_counters() {
    let mut w = test_workload(0);
    w.run(1, 0, 1_000).unwrap();
    let mut copy = w.clone(0).unwrap();
    let copy_stats = copy.take_stats(1_000);
    assert_eq!(copy_stats.function_stats.call_count, 0);
    let orig_stats = w.take_stats(1_000);
    assert_eq!(orig_stats.function_stats.call_count, 1);
}

#[test]
fn hundred_cycles_of_one_millisecond() {
    let mut w = test_workload(0);
    for cycle in 0..100u64 {
        let start = cycle * 2_000_000;
        let end = start + 1_000_000;
        w.complete_request(1_000_000, true);
        let r = w.run(cycle, start, end).unwrap();
        assert_eq!(r, (cycle, end));
    }
    let stats = w.take_stats(200_000_000);
    assert_eq!(stats.function_stats.call_count, 100);
    assert_eq!(stats.function_stats.call_times_ns.inner.len(), 100);
    let mean = stats.function_stats.call_times_ns.inner.mean();
    assert!(
        (990_000.0..=1_010_000.0).contains(&mean),
        "mean latency {} not within one percent of 1ms",
        mean
    );
    assert_eq!(stats.session_stats.req_count, 100);
    assert_eq!(stats.session_stats.req_errors, 0);
}

#[test]
fn context_take_and_reset() {
    let mut ctx = Context::new(test_client());
    ctx.stats.complete_request(1_000, true);
    ctx.stats.complete_request(2_000, false);
    assert_eq!(ctx.stats.req_count, 2);
    assert_eq!(ctx.stats.req_errors, 1);
    let taken = ctx.take_session_stats();
    assert_eq!(taken.req_count, 2);
    assert_eq!(taken.req_errors, 1);
    assert_eq!(ctx.stats.req_count, 0);
    assert_eq!(ctx.stats.req_errors, 0);

    ctx.stats.complete_request(1_000, true);
    ctx.reset_session_stats();
    assert_eq!(ctx.stats.req_count, 0);
}

#[test]
fn context_clone_has_fresh_stats() {
    let mut ctx = Context::new(test_client());
    ctx.stats.complete_request(1_000, true);
    let copy = ctx.clone().unwrap();
    assert_eq!(copy.stats.req_count, 0);
    assert_eq!(ctx.stats.req_count, 1);
}
