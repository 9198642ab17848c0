//! The configuration: what is filled in, and what is refused.

use tpcdaq::config::{
    default_receiver_command_endpoint, ports_in_range, resolve, validate, validate_geometry_path,
    Config, ConfigError, ConfigIds, RawCobo, RawConfig, RawConfigId, RawController, RawDecoder,
    RawGrawWriter, RawMonitor, RawReceiver, RootSinkConfig, SystemConfig, COBO_LISTEN_PORT_BASE,
    DECODER_COMMAND_LISTEN, DECODER_SOURCE_ID, DEFAULT_BATCH_MAX_BYTES,
    DEFAULT_CONTROLLER_LOG_PULL_BIND, DEFAULT_CONTROLLER_REST_LISTEN,
    DEFAULT_DECODER_COMMAND_ENDPOINT, DEFAULT_DECODER_ENDPOINT, DEFAULT_DECODER_PULL_BIND,
    DEFAULT_ECC_COMMAND_ENDPOINT, DEFAULT_GRAW_WRITER_COMMAND_ENDPOINT,
    DEFAULT_GRAW_WRITER_MAX_FILE_BYTES, DEFAULT_HWM, DEFAULT_MONITOR_LIVE_QUEUE,
    DEFAULT_MONITOR_SUB_ENDPOINT, DEFAULT_MONITOR_WS_LISTEN,
    DEFAULT_QUEUE_FRAMES, DEFAULT_ROOT_SINK_ENDPOINT, GRAW_WRITER_COMMAND_LISTEN, PSU_SOURCE_ID,
    RECEIVER_COMMAND_PORT_BASE,
};

const GEOMETRY: &str = "/data/geometry_mini_eTPC.dat";

fn some(text: &str) -> Option<String> {
    Some(text.to_string())
}

fn cobo(id: u32, listen: Option<&str>, sender: &str) -> RawCobo {
    RawCobo {
        id,
        listen: listen.map(|s| s.to_string()),
        data_sender_id: sender.to_string(),
    }
}

fn no_receiver() -> RawReceiver {
    RawReceiver {
        batch_max_bytes: None,
        batch_max_ms: None,
        queue_frames: None,
        heartbeat_ms: None,
        hwm: None,
        graw_writer_endpoint: None,
        decoder_endpoint: None,
    }
}

fn controller_with(config_id: RawConfigId) -> RawController {
    RawController {
        rest_listen: None,
        passphrase: "p".to_string(),
        ecc_proxy: "x".to_string(),
        config_id,
        log_pull_bind: None,
        eos_timeout_s: None,
        eos_quiesce_ms: None,
        ui_dir: None,
        graw_writer_command: None,
        decoder_command: None,
        receiver_commands: None,
        ecc_command: None,
        router_ip: None,
    }
}

/// One CoBo, and everything left out that may be left out, but for the addresses.
fn minimal() -> RawConfig {
    RawConfig {
        system: SystemConfig {
            experiment: "mini_eTPC".to_string(),
            output_root: "/data/tpcdaq".to_string(),
            geometry: GEOMETRY.to_string(),
        },
        cobo: vec![cobo(0, Some("0.0.0.0:46005"), "CoBo[0]")],
        receiver: no_receiver(),
        graw_writer: RawGrawWriter {
            pull_bind: None,
            max_file_bytes: None,
            flush_interval_ms: None,
        },
        decoder: RawDecoder {
            workers: 4,
            pull_bind: None,
            push_connect: None,
            batch_max_bytes: None,
            batch_max_ms: None,
        },
        root_sink: RootSinkConfig {
            snapshot_hz: "1.0".to_string(),
            event_publish_hz: "20.0".to_string(),
            build_timeout_ms: 1000,
        },
        monitor: RawMonitor {
            ws_listen: some("0.0.0.0:9000"),
            sub_endpoint: None,
            geometry: None,
            live_queue: None,
        },
        controller: RawController {
            rest_listen: some("0.0.0.0:8080"),
            passphrase: "change-me".to_string(),
            ecc_proxy: "Ecc:tcp -h 127.0.0.1 -p 46002".to_string(),
            ..controller_with(RawConfigId::Same("default".to_string()))
        },
    }
}

/// Two CoBos without addresses, and the given controller.
fn two_cobos(controller: RawController) -> RawConfig {
    RawConfig {
        cobo: vec![cobo(0, None, "CoBo[0]"), cobo(1, None, "CoBo[1]")],
        controller,
        ..minimal()
    }
}

fn parse(raw: RawConfig) -> Result<Config, ConfigError> {
    assert!(ports_in_range(&raw));
    let config = resolve(raw);
    validate(&config, true, true)?;
    Ok(config)
}

#[test]
fn mini_1_cobo_toml_parses_with_expected_values() {
    let config = parse(minimal()).unwrap();

    assert_eq!(config.system.experiment, "mini_eTPC");
    assert_eq!(config.system.output_root, "/data/tpcdaq");
    assert_eq!(config.system.geometry, GEOMETRY);

    assert_eq!(config.cobo.len(), 1);
    assert_eq!(config.cobo[0].id, 0);
    assert_eq!(config.cobo[0].listen, "0.0.0.0:46005");
    assert_eq!(config.cobo[0].data_sender_id, "CoBo[0]");

    assert_eq!(config.decoder.workers, 4);

    assert_eq!(config.root_sink.snapshot_hz.parse(), Ok(1.0));
    assert_eq!(config.root_sink.event_publish_hz.parse(), Ok(20.0));
    assert_eq!(config.root_sink.build_timeout_ms, 1000);

    assert_eq!(config.monitor.ws_listen, "0.0.0.0:9000");

    assert_eq!(config.controller.rest_listen, "0.0.0.0:8080");
    assert_eq!(config.controller.passphrase, "change-me");
    assert_eq!(config.controller.ecc_proxy, "Ecc:tcp -h 127.0.0.1 -p 46002");
    assert_eq!(config.controller.config_id, "default");
}

#[test]
fn elitpc_2_cobo_toml_parses_with_expected_values() {
    let config = parse(RawConfig {
        system: SystemConfig {
            experiment: "ELITPC".to_string(),
            output_root: "/data/tpcdaq-elitpc".to_string(),
            geometry: GEOMETRY.to_string(),
        },
        cobo: vec![
            cobo(0, Some("0.0.0.0:46005"), "CoBo[0]"),
            cobo(1, Some("0.0.0.0:46006"), "CoBo[1]"),
        ],
        decoder: RawDecoder { workers: 8, ..minimal().decoder },
        root_sink: RootSinkConfig {
            snapshot_hz: "2.0".to_string(),
            event_publish_hz: "10.0".to_string(),
            build_timeout_ms: 500,
        },
        monitor: RawMonitor { ws_listen: some("0.0.0.0:9001"), ..minimal().monitor },
        controller: RawController {
            rest_listen: some("0.0.0.0:8090"),
            passphrase: "elitpc-pass".to_string(),
            ..controller_with(RawConfigId::Same("elitpc".to_string()))
        },
        ..minimal()
    })
    .unwrap();

    assert_eq!(config.cobo.len(), 2);
    assert_eq!(config.cobo[0].id, 0);
    assert_eq!(config.cobo[0].listen, "0.0.0.0:46005");
    assert_eq!(config.cobo[0].data_sender_id, "CoBo[0]");
    assert_eq!(config.cobo[1].id, 1);
    assert_eq!(config.cobo[1].listen, "0.0.0.0:46006");
    assert_eq!(config.cobo[1].data_sender_id, "CoBo[1]");

    assert_eq!(config.decoder.workers, 8);
    assert_eq!(config.root_sink.snapshot_hz.parse(), Ok(2.0));
    assert_eq!(config.root_sink.event_publish_hz.parse(), Ok(10.0));
    assert_eq!(config.root_sink.build_timeout_ms, 500);
    assert_eq!(config.monitor.ws_listen, "0.0.0.0:9001");
    assert_eq!(config.controller.rest_listen, "0.0.0.0:8090");
    assert_eq!(config.controller.config_id, "elitpc");
    assert_eq!(config.ids(), vec![0, 1]);
}

#[test]
fn cobo_listen_defaults_to_port_base_plus_id_when_omitted() {
    let config = parse(RawConfig { cobo: vec![cobo(7, None, "CoBo[7]")], ..minimal() }).unwrap();
    assert_eq!(config.cobo[0].listen, "0.0.0.0:46012");
    assert_eq!(COBO_LISTEN_PORT_BASE, 46005);
}

#[test]
fn monitor_ws_listen_defaults_when_omitted() {
    let config = parse(RawConfig {
        monitor: RawMonitor { ws_listen: None, ..minimal().monitor },
        ..minimal()
    })
    .unwrap();
    assert_eq!(config.monitor.ws_listen, DEFAULT_MONITOR_WS_LISTEN);
}

#[test]
fn monitor_keys_default_to_the_spec_ports_when_omitted() {
    let config = parse(minimal()).unwrap();
    assert_eq!(config.monitor.sub_endpoint, DEFAULT_MONITOR_SUB_ENDPOINT);
    assert_eq!(config.monitor.sub_endpoint, "tcp://127.0.0.1:47004");
    assert_eq!(config.monitor.ws_listen, "0.0.0.0:9000");
    assert_eq!(config.monitor.live_queue, DEFAULT_MONITOR_LIVE_QUEUE);
    assert_eq!(config.monitor.live_queue, 64);
    assert_eq!(config.monitor.geometry, GEOMETRY);
}

#[test]
fn monitor_keys_can_be_overridden() {
    let config = parse(RawConfig {
        monitor: RawMonitor {
            ws_listen: some("127.0.0.1:19000"),
            sub_endpoint: some("tcp://127.0.0.1:57004"),
            geometry: some("/data/other.dat"),
            live_queue: Some(7),
        },
        ..minimal()
    })
    .unwrap();
    assert_eq!(config.monitor.ws_listen, "127.0.0.1:19000");
    assert_eq!(config.monitor.sub_endpoint, "tcp://127.0.0.1:57004");
    assert_eq!(config.monitor.geometry, "/data/other.dat");
    assert_eq!(config.system.geometry, GEOMETRY);
    assert_eq!(config.monitor.live_queue, 7);
}

#[test]
fn monitor_live_queue_zero_is_rejected() {
    let err = parse(RawConfig {
        monitor: RawMonitor { live_queue: Some(0), ..minimal().monitor },
        ..minimal()
    })
    .unwrap_err();
    assert!(matches!(err, ConfigError::InvalidMonitor(_)), "{}", err.text());
}

#[test]
fn monitor_geometry_must_exist() {
    let config = resolve(RawConfig {
        monitor: RawMonitor { geometry: some("/data/missing.dat"), ..minimal().monitor },
        ..minimal()
    });
    assert_eq!(
        validate(&config, true, false),
        Err(ConfigError::GeometryNotFound("/data/missing.dat".to_string()))
    );
}

#[test]
fn controller_rest_listen_defaults_when_omitted() {
    let config = parse(RawConfig {
        controller: controller_with(RawConfigId::Same("default".to_string())),
        ..minimal()
    })
    .unwrap();
    assert_eq!(
        config.controller.rest_listen,
        DEFAULT_CONTROLLER_REST_LISTEN
    );
}

#[test]
fn source_id_constants_match_spec_3_2() {
    assert_eq!(DECODER_SOURCE_ID, 100);
    assert_eq!(PSU_SOURCE_ID, 200);
}

#[test]
fn duplicate_cobo_id_is_err() {
    let err = parse(RawConfig {
        cobo: vec![
            cobo(3, Some("0.0.0.0:46008"), "CoBo[3]"),
            cobo(3, Some("0.0.0.0:46009"), "CoBo[3b]"),
        ],
        ..minimal()
    })
    .unwrap_err();
    assert!(matches!(err, ConfigError::DuplicateCoboId(3)));
    assert_eq!(err.text(), "duplicate cobo id: 3");
}

#[test]
fn duplicate_cobo_listen_is_err() {
    let err = parse(RawConfig {
        cobo: vec![
            cobo(0, Some("0.0.0.0:47100"), "CoBo[0]"),
            cobo(1, Some("0.0.0.0:47100"), "CoBo[1]"),
        ],
        ..minimal()
    })
    .unwrap_err();
    assert!(matches!(err, ConfigError::DuplicateListen(ref s) if s == "0.0.0.0:47100"));
    assert_eq!(err.text(), "duplicate cobo listen address: 0.0.0.0:47100");
}

#[test]
fn geometry_path_missing_is_err() {
    let config = resolve(minimal());
    assert_eq!(
        validate(&config, false, true),
        Err(ConfigError::GeometryNotFound(GEOMETRY.to_string()))
    );
}

#[test]
fn validate_geometry_path_ok_for_existing_file() {
    assert_eq!(validate_geometry_path(&GEOMETRY.to_string(), true), Ok(()));
}

#[test]
fn validate_geometry_path_err_for_missing_file() {
    let err = validate_geometry_path(&"/no/such.dat".to_string(), false).unwrap_err();
    assert!(matches!(err, ConfigError::GeometryNotFound(_)));
    assert_eq!(err.text(), "geometry file not found: /no/such.dat");
}

#[test]
fn receiver_section_defaults_when_omitted() {
    let config = parse(minimal()).unwrap();

    assert_eq!(config.receiver.batch_max_bytes, 8 * 1024 * 1024);
    assert_eq!(config.receiver.batch_max_ms, 10);
    assert_eq!(config.receiver.queue_frames, DEFAULT_QUEUE_FRAMES);
    assert_eq!(config.receiver.heartbeat_ms, 1000);
    assert_eq!(config.receiver.hwm, DEFAULT_HWM);
    assert_eq!(
        config.receiver.graw_writer_endpoint,
        "tcp://127.0.0.1:47001"
    );
    assert_eq!(config.receiver.decoder_endpoint, "tcp://127.0.0.1:47002");
}

#[test]
fn receiver_section_values_override_the_defaults() {
    let config = parse(RawConfig {
        receiver: RawReceiver {
            batch_max_bytes: Some(262144),
            batch_max_ms: Some(3),
            queue_frames: Some(17),
            heartbeat_ms: Some(250),
            hwm: Some(64),
            graw_writer_endpoint: some("tcp://10.0.0.5:47901"),
            decoder_endpoint: some("tcp://10.0.0.6:47902"),
        },
        ..minimal()
    })
    .unwrap();

    assert_eq!(config.receiver.batch_max_bytes, 262_144);
    assert_eq!(config.receiver.batch_max_ms, 3);
    assert_eq!(config.receiver.queue_frames, 17);
    assert_eq!(config.receiver.heartbeat_ms, 250);
    assert_eq!(config.receiver.hwm, 64);
    assert_eq!(config.receiver.graw_writer_endpoint, "tcp://10.0.0.5:47901");
    assert_eq!(config.receiver.decoder_endpoint, "tcp://10.0.0.6:47902");
}

#[test]
fn receiver_degenerate_values_are_err() {
    for (receiver, needle) in [
        (RawReceiver { queue_frames: Some(0), ..no_receiver() }, "queue_frames"),
        (RawReceiver { batch_max_bytes: Some(0), ..no_receiver() }, "batch_max_bytes"),
        (RawReceiver { batch_max_ms: Some(0), ..no_receiver() }, "batch_max_ms"),
        (RawReceiver { heartbeat_ms: Some(0), ..no_receiver() }, "heartbeat_ms"),
        (RawReceiver { hwm: Some(0), ..no_receiver() }, "hwm"),
        (RawReceiver { hwm: Some(-1), ..no_receiver() }, "hwm"),
    ] {
        let err = parse(RawConfig { receiver, ..minimal() }).unwrap_err();
        match err {
            ConfigError::InvalidReceiver(msg) => {
                assert!(msg.contains(needle), "message should name {needle}: {msg}")
            }
            other => panic!("expected InvalidReceiver for {needle}, got {other:?}"),
        }
    }
}

#[test]
fn receiver_command_port_base_matches_spec_3_2() {
    assert_eq!(RECEIVER_COMMAND_PORT_BASE, 47110);
    assert_eq!(RECEIVER_COMMAND_PORT_BASE + 1, 47111);
}

#[test]
fn graw_writer_section_defaults_when_omitted() {
    let config = parse(minimal()).unwrap();

    assert_eq!(config.graw_writer.pull_bind, "tcp://*:47001");
    assert_eq!(
        config.graw_writer.max_file_bytes,
        DEFAULT_GRAW_WRITER_MAX_FILE_BYTES
    );
    assert_eq!(config.graw_writer.max_file_bytes, 1024 * 1024 * 1024);
    assert_eq!(config.graw_writer.flush_interval_ms, 1000);
}

#[test]
fn graw_writer_section_values_override_the_defaults() {
    let config = parse(RawConfig {
        graw_writer: RawGrawWriter {
            pull_bind: some("tcp://*:57001"),
            max_file_bytes: Some(123456789),
            flush_interval_ms: Some(250),
        },
        ..minimal()
    })
    .unwrap();

    assert_eq!(config.graw_writer.pull_bind, "tcp://*:57001");
    assert_eq!(config.graw_writer.max_file_bytes, 123_456_789);
    assert_eq!(config.graw_writer.flush_interval_ms, 250);
}

#[test]
fn graw_writer_command_listen_matches_spec_3_2() {
    assert_eq!(GRAW_WRITER_COMMAND_LISTEN, "tcp://*:47100");
}

#[test]
fn decoder_section_defaults_when_the_new_keys_are_omitted() {
    let config = parse(minimal()).unwrap();

    assert_eq!(config.decoder.workers, 4);
    assert_eq!(config.decoder.pull_bind, "tcp://*:47002");
    assert_eq!(config.decoder.push_connect, "tcp://127.0.0.1:47003");
    assert_eq!(config.decoder.batch_max_bytes, DEFAULT_BATCH_MAX_BYTES);
    assert_eq!(config.decoder.batch_max_bytes, 8_388_608);
    assert_eq!(config.decoder.batch_max_ms, 10);
}

#[test]
fn decoder_section_values_override_the_defaults() {
    let config = parse(RawConfig {
        decoder: RawDecoder {
            workers: 3,
            pull_bind: some("tcp://*:57002"),
            push_connect: some("tcp://10.0.0.7:57003"),
            batch_max_bytes: Some(1234567),
            batch_max_ms: Some(25),
        },
        ..minimal()
    })
    .unwrap();

    assert_eq!(config.decoder.workers, 3);
    assert_eq!(config.decoder.pull_bind, "tcp://*:57002");
    assert_eq!(config.decoder.push_connect, "tcp://10.0.0.7:57003");
    assert_eq!(config.decoder.batch_max_bytes, 1_234_567);
    assert_eq!(config.decoder.batch_max_ms, 25);
}

#[test]
fn decoder_endpoints_match_spec_3_2() {
    assert_eq!(DECODER_COMMAND_LISTEN, "tcp://*:47101");
    assert_eq!(DEFAULT_DECODER_PULL_BIND, "tcp://*:47002");
    assert_eq!(DEFAULT_ROOT_SINK_ENDPOINT, "tcp://127.0.0.1:47003");
    assert_eq!(DEFAULT_DECODER_ENDPOINT, "tcp://127.0.0.1:47002");
}

#[test]
fn controller_016_keys_default_to_the_spec_port_table() {
    let config =
        parse(two_cobos(controller_with(RawConfigId::Same("default".to_string())))).unwrap();

    assert_eq!(config.controller.log_pull_bind, "tcp://*:47005");
    assert_eq!(config.controller.eos_timeout_s, 5);
    assert_eq!(config.controller.eos_quiesce_ms, 500);
    assert_eq!(config.controller.ui_dir, None);
    assert_eq!(
        config.controller.graw_writer_command,
        "tcp://127.0.0.1:47100"
    );
    assert_eq!(config.controller.decoder_command, "tcp://127.0.0.1:47101");
    assert_eq!(
        config.controller.receiver_commands,
        vec!["tcp://127.0.0.1:47110", "tcp://127.0.0.1:47111"]
    );
    assert_eq!(config.controller.ecc_command, "tcp://127.0.0.1:47200");
    assert_eq!(config.controller.router_ip, None);
}

#[test]
fn controller_016_keys_are_overridable() {
    let config = parse(two_cobos(RawController {
        rest_listen: some("0.0.0.0:8090"),
        passphrase: "elitpc-pass".to_string(),
        ecc_proxy: "Ecc:tcp -h 10.0.0.2 -p 46002".to_string(),
        config_id: RawConfigId::Same("elitpc".to_string()),
        log_pull_bind: some("tcp://*:47105"),
        eos_timeout_s: Some(9),
        eos_quiesce_ms: Some(750),
        ui_dir: some("/srv/tpcdaq-ui"),
        graw_writer_command: some("tcp://10.0.0.3:47100"),
        decoder_command: some("tcp://10.0.0.4:47101"),
        receiver_commands: Some(vec![
            "tcp://10.0.0.5:47110".to_string(),
            "tcp://10.0.0.6:47111".to_string(),
        ]),
        ecc_command: some("tcp://10.0.0.7:47200"),
        router_ip: some("10.0.0.1"),
    }))
    .unwrap();

    assert_eq!(config.controller.log_pull_bind, "tcp://*:47105");
    assert_eq!(config.controller.eos_timeout_s, 9);
    assert_eq!(config.controller.eos_quiesce_ms, 750);
    assert_eq!(config.controller.ui_dir, some("/srv/tpcdaq-ui"));
    assert_eq!(
        config.controller.graw_writer_command,
        "tcp://10.0.0.3:47100"
    );
    assert_eq!(config.controller.decoder_command, "tcp://10.0.0.4:47101");
    assert_eq!(
        config.controller.receiver_commands,
        vec!["tcp://10.0.0.5:47110", "tcp://10.0.0.6:47111"]
    );
    assert_eq!(config.controller.ecc_command, "tcp://10.0.0.7:47200");
    assert_eq!(config.controller.router_ip.as_deref(), Some("10.0.0.1"));
}

#[test]
fn controller_receiver_commands_must_match_the_cobo_count() {
    let err = parse(two_cobos(RawController {
        receiver_commands: Some(vec!["tcp://127.0.0.1:47110".to_string()]),
        ..controller_with(RawConfigId::Same("c".to_string()))
    }))
    .unwrap_err();
    assert!(matches!(err, ConfigError::InvalidController(_)), "{}", err.text());
}

#[test]
fn controller_eos_timeout_zero_is_rejected() {
    let err = parse(two_cobos(RawController {
        eos_timeout_s: Some(0),
        ..controller_with(RawConfigId::Same("c".to_string()))
    }))
    .unwrap_err();
    assert!(matches!(err, ConfigError::InvalidController(_)), "{}", err.text());
}

#[test]
fn config_id_string_expands_to_the_same_id_in_all_three_phases() {
    let config =
        parse(two_cobos(controller_with(RawConfigId::Same("default".to_string())))).unwrap();

    assert_eq!(config.controller.config_id, ConfigIds::same("default"));
    assert_eq!(config.controller.config_id.same_value(), Some("default"));
}

#[test]
fn config_id_table_sets_each_phase_independently() {
    let config = parse(two_cobos(controller_with(RawConfigId::PerPhase(ConfigIds {
        describe: "zCobo-ZC706".to_string(),
        prepare: "prep-xcfg".to_string(),
        configure: "pulser".to_string(),
    }))))
    .unwrap();
    let ids = &config.controller.config_id;

    assert_eq!(ids.describe, "zCobo-ZC706");
    assert_eq!(ids.prepare, "prep-xcfg");
    assert_eq!(ids.configure, "pulser");
    assert_eq!(ids.same_value(), None);
    assert_eq!(ids.for_action("describe"), Some("zCobo-ZC706"));
    assert_eq!(ids.for_action("prepare"), Some("prep-xcfg"));
    assert_eq!(ids.for_action("configure"), Some("pulser"));
    assert_eq!(ids.for_action("start"), None);
}

#[test]
fn config_id_table_with_equal_phases_is_the_string_form() {
    let config = parse(two_cobos(controller_with(RawConfigId::PerPhase(ConfigIds {
        describe: "pulser".to_string(),
        prepare: "pulser".to_string(),
        configure: "pulser".to_string(),
    }))))
    .unwrap();

    assert_eq!(config.controller.config_id, ConfigIds::same("pulser"));
    assert_eq!(config.controller.config_id.same_value(), Some("pulser"));
    assert_eq!(config.controller.config_id, "pulser");
}

#[test]
fn controller_endpoint_defaults_match_spec_3_2() {
    assert_eq!(DEFAULT_CONTROLLER_LOG_PULL_BIND, "tcp://*:47005");
    assert_eq!(DEFAULT_ECC_COMMAND_ENDPOINT, "tcp://127.0.0.1:47200");
    assert_eq!(
        DEFAULT_GRAW_WRITER_COMMAND_ENDPOINT,
        "tcp://127.0.0.1:47100"
    );
    assert_eq!(DEFAULT_DECODER_COMMAND_ENDPOINT, "tcp://127.0.0.1:47101");
    assert_eq!(
        default_receiver_command_endpoint(0),
        "tcp://127.0.0.1:47110"
    );
    assert_eq!(
        default_receiver_command_endpoint(3),
        "tcp://127.0.0.1:47113"
    );
    assert!(GRAW_WRITER_COMMAND_LISTEN.ends_with(":47100"));
    assert!(DECODER_COMMAND_LISTEN.ends_with(":47101"));
}

#[test]
fn a_port_that_does_not_fit_is_found_before_it_is_filled_in() {
    let huge = u32::MAX - 1000;
    assert!(!ports_in_range(&RawConfig { cobo: vec![cobo(huge, None, "x")], ..minimal() }));
}

#[test]
fn every_kind_of_problem_has_its_text() {
    for (error, text) in [
        (ConfigError::InvalidReceiver("a".to_string()), "invalid [receiver] setting: a"),
        (ConfigError::InvalidMonitor("b".to_string()), "invalid [monitor] setting: b"),
        (ConfigError::InvalidController("c".to_string()), "invalid [controller] setting: c"),
    ] {
        assert_eq!(error.text(), text);
    }
}
