use traffic_switcher::cli::{
    api_endpoint, parse_pid_text, trim_spaces, CliError, PortCommand, ProcessStatus, StartCommand,
    StatusCommand, StopCommand,
};
use traffic_switcher::digits::{parse_u16, parse_u32, parse_u64, parse_u64_digits, u64_to_string};

#[test]
fn decimal_rendering_is_exact() {
    assert_eq!(u64_to_string(0), "0");
    assert_eq!(u64_to_string(4201), "4201");
    assert_eq!(u64_to_string(u64::MAX), "18446744073709551615");
}

#[test]
fn decimal_parsing_round_trips() {
    for n in [0u64, 1, 9, 10, 65535, 1_000_000, u64::MAX] {
        assert_eq!(parse_u64(&u64_to_string(n)), Some(n));
    }
}

#[test]
fn parsing_accepts_leading_plus_and_rejects_junk() {
    assert_eq!(parse_u64("+123"), Some(123));
    assert_eq!(parse_u64(""), None);
    assert_eq!(parse_u64("+"), None);
    assert_eq!(parse_u64("12a"), None);
    assert_eq!(parse_u64("-1"), None);
    assert_eq!(parse_u64_digits("007"), Some(7));
    assert_eq!(parse_u64("18446744073709551616"), None);
}

#[test]
fn bounded_parsers_respect_their_ranges() {
    assert_eq!(parse_u16("65535"), Some(65535));
    assert_eq!(parse_u16("65536"), None);
    assert_eq!(parse_u32("4294967295"), Some(u32::MAX));
    assert_eq!(parse_u32("4294967296"), None);
}

#[test]
fn api_endpoint_joins_base_and_path() {
    assert_eq!(
        api_endpoint("http://localhost:1143", "config/port"),
        "http://localhost:1143/config/port"
    );
    assert_eq!(
        api_endpoint("http://localhost:1143", "///config"),
        "http://localhost:1143/config"
    );
    assert_eq!(api_endpoint("http://h", ""), "http://h/");
}

#[test]
fn trim_and_pid_parsing() {
    assert_eq!(trim_spaces("  1234\n"), "1234");
    assert_eq!(trim_spaces("\t \r\n"), "");
    assert_eq!(parse_pid_text(" 4321\n"), Some(4321));
    assert_eq!(parse_pid_text("nope"), None);
    assert_eq!(parse_pid_text("99999999999999"), None);
}

#[test]
fn port_command_builds_request_body() {
    let cmd = PortCommand {
        service: "api".to_string(),
        port: 4201,
        skip_health: true,
    };
    let req = cmd.to_request();
    assert_eq!(req.service, "api");
    assert_eq!(req.port, 4201);
    assert!(req.skip_health_check);
}

#[test]
fn start_command_chooses_log_level() {
    let mut cmd = StartCommand {
        config: None,
        daemon: false,
        log_file: None,
        pid_file: None,
        verbose: false,
    };
    assert_eq!(cmd.log_level(), "info");
    cmd.verbose = true;
    assert_eq!(cmd.log_level(), "debug");
}

#[test]
fn status_classification() {
    assert_eq!(
        StatusCommand::classify(Some(42), true),
        ProcessStatus::Running { pid: 42 }
    );
    assert_eq!(
        StatusCommand::classify(Some(42), false),
        ProcessStatus::Stale { pid: 42 }
    );
    assert_eq!(StatusCommand::classify(None, false), ProcessStatus::NoPid);
}

#[test]
fn stop_command_resolves_its_pid() {
    let explicit = StopCommand {
        pid_file: None,
        pid: Some(7),
    };
    assert_eq!(explicit.resolve_pid(None), Ok(7));

    let from_file = StopCommand {
        pid_file: Some("app.pid".to_string()),
        pid: None,
    };
    assert_eq!(from_file.resolve_pid(Some(" 99\n")), Ok(99));
    assert_eq!(
        from_file.resolve_pid(Some("bad")),
        Err(CliError::PidInvalid)
    );
    assert_eq!(from_file.resolve_pid(None), Err(CliError::PidUnreadable));

    let neither = StopCommand {
        pid_file: None,
        pid: None,
    };
    assert_eq!(neither.resolve_pid(None), Err(CliError::MissingPidSource));
}
