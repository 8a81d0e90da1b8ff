use flood_rust::config::{
    parse_i32_hex, parse_params, parse_range, parse_rpc_params, parse_u64_decimal, value_or_string,
    Dur, Interval, RpcCommand,
};

#[test]
fn u64_decimal_parser_matches_std() {
    for s in ["0", "7", "+7", "18446744073709551615", "0042"] {
        assert_eq!(parse_u64_decimal(s), s.parse::<u64>().ok(), "input {:?}", s);
    }
    for s in ["", "+", "-1", "1.5", "abc", "18446744073709551616", "1 "] {
        assert_eq!(parse_u64_decimal(s), s.parse::<u64>().ok(), "input {:?}", s);
    }
}

#[test]
fn i32_hex_parser_matches_std() {
    for s in [
        "0", "ff", "7fffffff", "80000000", "-80000000", "-1", "+1a", "", "xyz", "0x1", "ffffffff",
    ] {
        assert_eq!(
            parse_i32_hex(s),
            i32::from_str_radix(s, 16).ok(),
            "input {:?}",
            s
        );
    }
}

#[test]
fn parse_range_exclusive() {
    assert_eq!(
        parse_range("0x00..0x03"),
        Ok(vec![
            "0x00".to_string(),
            "0x01".to_string(),
            "0x02".to_string()
        ])
    );
}

#[test]
fn parse_range_inclusive() {
    assert_eq!(
        parse_range("0x7e..=0x80"),
        Ok(vec![
            "0x7e".to_string(),
            "0x7f".to_string(),
            "0x80".to_string()
        ])
    );
}

#[test]
fn parse_range_empty_and_errors() {
    assert_eq!(parse_range("0x05..0x05"), Ok(vec![]));
    assert_eq!(
        parse_range("abc"),
        Err("Invalid range format. Use START..END or START..=END")
    );
    assert_eq!(
        parse_range("1..2..3"),
        Err("Invalid range format. Use START..END or START..=END")
    );
    assert_eq!(
        parse_range("0x05..0x01"),
        Err("Start value cannot be greater than end value")
    );
}

#[test]
fn parse_params_splits_at_spaces() {
    assert_eq!(
        parse_params("0x123 false"),
        Ok(vec!["0x123".to_string(), "false".to_string()])
    );
    assert_eq!(parse_params(""), Ok(vec!["".to_string()]));
    assert_eq!(
        parse_params("a  b"),
        Ok(vec!["a".to_string(), "".to_string(), "b".to_string()])
    );
}

#[test]
fn value_or_string_keeps_json_and_quotes_the_rest() {
    assert_eq!(value_or_string("false".to_string()), "false");
    assert_eq!(value_or_string("12".to_string()), "12");
    assert_eq!(value_or_string("[1, 2]".to_string()), "[1, 2]");
    assert_eq!(value_or_string("0x123".to_string()), "\"0x123\"");
    assert_eq!(value_or_string("say \"hi\"".to_string()), "\"say \\\"hi\\\"\"");
}

#[test]
fn rpc_params_array_mode() {
    let group = vec!["0x123".to_string(), "false".to_string()];
    assert_eq!(parse_rpc_params(&group, false), "[\"0x123\",false]");
}

#[test]
fn rpc_params_raw_mode_joins_with_spaces() {
    let group = vec!["[1,".to_string(), "2]".to_string()];
    assert_eq!(parse_rpc_params(&group, true), "[1, 2]");
}

fn base_cmd() -> RpcCommand {
    RpcCommand {
        method: Some("eth_getBlockByNumber".to_string()),
        params: Some(vec![vec!["0x123".to_string(), "false".to_string()]]),
        raw: false,
        rate: None,
        warmup_duration: Interval::Count(1),
        run_duration: Interval::Time(Dur { secs: 60, nanos: 0 }),
        threads: 1,
        concurrency: 128,
        sampling_interval: Interval::Time(Dur { secs: 1, nanos: 0 }),
        tags: vec![],
        input: None,
        output: None,
        baseline: None,
        quiet: false,
        rpc_url: None,
        exp_ramp: None,
        timestamp: None,
        num_req: Some(1),
        cluster_name: None,
        chain_id: None,
    }
}

#[test]
fn parse_params_one_group() {
    let cmd = base_cmd();
    let reqs = cmd.parse_params().unwrap();
    assert_eq!(
        reqs,
        vec![(
            "eth_getBlockByNumber".to_string(),
            "[\"0x123\",false]".to_string()
        )]
    );
}

#[test]
fn parse_params_expands_ranges() {
    let mut cmd = base_cmd();
    cmd.params = Some(vec![vec!["0x01..0x03".to_string(), "x".to_string()]]);
    let reqs = cmd.parse_params().unwrap();
    assert_eq!(
        reqs,
        vec![
            (
                "eth_getBlockByNumber".to_string(),
                "[\"0x01\",\"x\"]".to_string()
            ),
            (
                "eth_getBlockByNumber".to_string(),
                "[\"0x02\",\"x\"]".to_string()
            ),
        ]
    );
}

#[test]
fn parse_params_raw_group() {
    let mut cmd = base_cmd();
    cmd.raw = true;
    cmd.params = Some(vec![vec!["[\"0x123\",".to_string(), "false]".to_string()]]);
    let reqs = cmd.parse_params().unwrap();
    assert_eq!(
        reqs,
        vec![(
            "eth_getBlockByNumber".to_string(),
            "[\"0x123\", false]".to_string()
        )]
    );
}
