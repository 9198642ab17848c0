//! The command lines of the programs.

use tpcdaq::cli::{parse_controller_args, parse_receiver_args, parse_sample_args};

fn strs(items: &[&str]) -> Vec<String> {
    items.iter().map(|s| s.to_string()).collect()
}

#[test]
fn parses_the_config_path() {
    let config = parse_controller_args(&strs(&["--config", "config/mini.toml"])).unwrap();
    assert_eq!(config, "config/mini.toml");
}

#[test]
fn controller_rejects_missing_or_malformed_arguments() {
    assert!(parse_controller_args(&strs(&[])).is_err());
    assert!(parse_controller_args(&strs(&["--config"])).is_err());
    assert!(parse_controller_args(&strs(&["--bogus", "x"])).is_err());
}

#[test]
fn parses_config_and_cobo_id_in_any_order() {
    let args =
        parse_receiver_args(&strs(&["--cobo-id", "1", "--config", "config/mini.toml"])).unwrap();
    assert_eq!(args.config, "config/mini.toml");
    assert_eq!(args.cobo_id, 1);
}

#[test]
fn receiver_rejects_missing_or_malformed_arguments() {
    assert!(parse_receiver_args(&strs(&[])).is_err());
    assert!(parse_receiver_args(&strs(&["--config", "x.toml"])).is_err());
    assert!(parse_receiver_args(&strs(&["--cobo-id", "0"])).is_err());
    assert!(parse_receiver_args(&strs(&["--config"])).is_err());
    assert!(parse_receiver_args(&strs(&["--config", "x.toml", "--cobo-id", "one"])).is_err());
    assert!(parse_receiver_args(&strs(&["--bogus"])).is_err());
}

#[test]
fn parses_the_output_path() {
    let out = parse_sample_args(&strs(&["--out", "/tmp/ws_sample.bin"])).unwrap();
    assert_eq!(out, "/tmp/ws_sample.bin");
}

#[test]
fn ws_proto_sample_rejects_missing_or_malformed_arguments() {
    assert!(parse_sample_args(&strs(&[])).is_err());
    assert!(parse_sample_args(&strs(&["--out"])).is_err());
    assert!(parse_sample_args(&strs(&["--bogus", "x"])).is_err());
}

#[test]
fn what_is_wrong_with_the_arguments_is_said() {
    let why = |items: &[&str]| parse_receiver_args(&strs(items)).unwrap_err();
    assert_eq!(why(&["--bogus"]), "unknown argument: --bogus");
    assert_eq!(why(&["--config"]), "--config requires a path");
    assert_eq!(why(&["--cobo-id"]), "--cobo-id requires a number");
    assert_eq!(why(&["--cobo-id", "one"]), "--cobo-id is not a number: one");
    assert_eq!(why(&["--cobo-id", "4294967296"]), "--cobo-id is not a number: 4294967296");
    assert_eq!(why(&["--cobo-id", "3"]), "--config is required");
    assert_eq!(why(&["--config", "c"]), "--cobo-id is required");
    assert_eq!(
        parse_controller_args(&strs(&[])),
        Err("--config is required".to_string())
    );
}

#[test]
fn the_last_value_of_a_repeated_flag_counts() {
    let args = parse_receiver_args(&strs(&["--config", "a", "--cobo-id", "1", "--config", "b"]));
    assert_eq!(args.unwrap().config, "b");
}
