use flood_rust::config::{Dur, Interval, RateSchedule, RpcCommand, RATE_ONE};

fn base_cmd() -> RpcCommand {
    RpcCommand {
        method: Some("eth_getBlockByNumber".to_string()),
        params: Some(vec![vec!["0x123".to_string(), "false".to_string()]]),
        raw: false,
        rate: None,
        warmup_duration: Interval::Count(1),
        run_duration: Interval::Time(Dur { secs: 60, nanos: 0 }),
        threads: 1,
        concurrency: 128,
        sampling_interval: Interval::Time(Dur { secs: 1, nanos: 0 }),
        tags: vec![],
        input: None,
        output: None,
        baseline: None,
        quiet: false,
        rpc_url: None,
        exp_ramp: None,
        timestamp: None,
        num_req: Some(1),
        cluster_name: None,
        chain_id: None,
    }
}

#[test]
fn ramp_bounds_single_request_per_cycle() {
    // a ramp to 1000 cycles/s with one request per cycle starts at exactly
    // 10.0 and ends at exactly 1000.0 cycles/s, over ten points
    let mut cmd = base_cmd();
    cmd.exp_ramp = Some(1000);
    match cmd.parse_rate() {
        Some(RateSchedule::Ramp {
            start_micros,
            end_micros,
            num_values,
        }) => {
            assert_eq!(start_micros, 10 * RATE_ONE);
            assert_eq!(end_micros, 1000 * RATE_ONE);
            assert_eq!(num_values, 10);
        }
        other => panic!("expected a ramp, got {:?}", other),
    }
}

#[test]
fn ramp_bounds_two_requests_per_cycle() {
    // a ramp to 2000 cycles/s with two requests per cycle starts at exactly
    // 5.0 and ends at exactly 1000.0 cycles/s
    let mut cmd = base_cmd();
    cmd.exp_ramp = Some(2000);
    cmd.num_req = Some(2);
    match cmd.parse_rate() {
        Some(RateSchedule::Ramp {
            start_micros,
            end_micros,
            num_values,
        }) => {
            assert_eq!(start_micros, 5 * RATE_ONE);
            assert_eq!(end_micros, 1000 * RATE_ONE);
            assert_eq!(num_values, 10);
        }
        other => panic!("expected a ramp, got {:?}", other),
    }
}

#[test]
fn ramp_bounds_are_real_quotients() {
    // the bounds are true quotients carried to micro precision, not
    // whole-cycle divisions: 10/4 = 2.5 and 2000/4 = 500 cycles per second
    let mut cmd = base_cmd();
    cmd.exp_ramp = Some(2000);
    cmd.num_req = Some(4);
    match cmd.parse_rate() {
        Some(RateSchedule::Ramp {
            start_micros,
            end_micros,
            num_values,
        }) => {
            assert_eq!(start_micros, 2_500_000);
            assert_eq!(end_micros, 500 * RATE_ONE);
            assert_eq!(num_values, 10);
        }
        other => panic!("expected a ramp, got {:?}", other),
    }
    // a divisor that does not divide evenly truncates only below the
    // fixed point's own precision: 2000/3 = 666.666666... cycles per second
    let mut cmd = base_cmd();
    cmd.exp_ramp = Some(2000);
    cmd.num_req = Some(3);
    match cmd.parse_rate() {
        Some(RateSchedule::Ramp { end_micros, .. }) => {
            assert_eq!(end_micros, 666_666_666);
        }
        other => panic!("expected a ramp, got {:?}", other),
    }
}

#[test]
fn flat_rates_divided_in_order() {
    let mut cmd = base_cmd();
    cmd.rate = Some(vec![100 * RATE_ONE, 30 * RATE_ONE]);
    cmd.num_req = Some(2);
    match cmd.parse_rate() {
        Some(RateSchedule::Flat(v)) => {
            assert_eq!(v, vec![50 * RATE_ONE, 15 * RATE_ONE]);
        }
        other => panic!("expected flat rates, got {:?}", other),
    }
}

#[test]
fn ramp_preferred_over_flat() {
    let mut cmd = base_cmd();
    cmd.rate = Some(vec![100 * RATE_ONE]);
    cmd.exp_ramp = Some(1000);
    assert!(matches!(
        cmd.parse_rate(),
        Some(RateSchedule::Ramp { .. })
    ));
}

#[test]
fn no_rate_means_unthrottled() {
    let cmd = base_cmd();
    assert!(cmd.parse_rate().is_none());
}

#[test]
fn set_num_req_only_if_empty() {
    let mut cmd = base_cmd();
    cmd.num_req = None;
    let cmd = cmd.set_num_req(3);
    assert_eq!(cmd.num_req, Some(3));
    let cmd = cmd.set_num_req(9);
    assert_eq!(cmd.num_req, Some(3));
}

#[test]
fn set_timestamp_only_if_empty() {
    let mut cmd = base_cmd();
    cmd.timestamp = Some(42);
    let cmd = cmd.set_timestamp_if_empty();
    assert_eq!(cmd.timestamp, Some(42));
    let mut cmd = base_cmd();
    cmd.timestamp = None;
    let cmd = cmd.set_timestamp_if_empty();
    assert!(cmd.timestamp.is_some());
}

#[test]
fn name_prefers_method() {
    let cmd = base_cmd();
    assert_eq!(cmd.name(), "eth_getBlockByNumber");
    let mut cmd = base_cmd();
    cmd.method = None;
    cmd.input = Some("calls.json".to_string());
    assert_eq!(cmd.name(), "calls.json");
}

#[test]
fn output_file_name_components() {
    let mut cmd = base_cmd();
    cmd.cluster_name = Some("my cluster".to_string());
    cmd.chain_id = Some("1".to_string());
    cmd.tags = vec!["t1".to_string()];
    cmd.threads = 2;
    let name = cmd.output_file_name_with("json", "20240101.000000");
    assert_eq!(
        name,
        "eth_getBlockByNumber.my_cluster.1.t1.p128.t2.20240101.000000.json"
    );
}

#[test]
fn default_output_file_name_has_extension() {
    let cmd = base_cmd();
    let name = cmd.default_output_file_name("json");
    assert!(name.starts_with("eth_getBlockByNumber.p128.t1."));
    assert!(name.ends_with(".json"));
}
