use traffic_switcher::api::{handle_update_port, PortUpdateOutcome, UpdatePortRequest};
use traffic_switcher::codec::{parse_config, serialize_config};
use traffic_switcher::config::{
    effective_health_check, Config, ConfigError, Env, HealthCheckConfig, Route, RouteTarget,
    Service,
};
use traffic_switcher::state::{AppState, SwitchError};

fn hc(path: &str, retry_count: u32, retry_delay_seconds: u64) -> HealthCheckConfig {
    HealthCheckConfig {
        path: path.to_string(),
        retry_count,
        retry_delay_seconds,
    }
}

fn sample_config() -> Config {
    Config {
        services: vec![
            Service {
                name: "api".to_string(),
                host: "127.0.0.1".to_string(),
                port: 4200,
                health_check: Some(hc("/health", 2, 1)),
                previous_port: None,
            },
            Service {
                name: "web".to_string(),
                host: "10.0.0.5".to_string(),
                port: 8080,
                health_check: None,
                previous_port: Some(8079),
            },
        ],
        routes: vec![
            Route {
                domain: "api.example".to_string(),
                target: RouteTarget::Service {
                    service: "api".to_string(),
                },
            },
            Route {
                domain: "static.example".to_string(),
                target: RouteTarget::Static {
                    root: "./public".to_string(),
                    index: vec!["index.html".to_string()],
                    try_files: vec!["/index.html".to_string()],
                },
            },
        ],
        api_port: 1143,
        proxy_port: 1144,
        health_check: hc("/", 10, 1),
    }
}

fn assert_config_eq(a: &Config, b: &Config) {
    assert_eq!(a.api_port, b.api_port);
    assert_eq!(a.proxy_port, b.proxy_port);
    assert_eq!(a.health_check.path, b.health_check.path);
    assert_eq!(a.health_check.retry_count, b.health_check.retry_count);
    assert_eq!(
        a.health_check.retry_delay_seconds,
        b.health_check.retry_delay_seconds
    );
    assert_eq!(a.services.len(), b.services.len());
    for (x, y) in a.services.iter().zip(b.services.iter()) {
        assert_eq!(x.name, y.name);
        assert_eq!(x.host, y.host);
        assert_eq!(x.port, y.port);
        assert_eq!(x.previous_port, y.previous_port);
        match (&x.health_check, &y.health_check) {
            (None, None) => {}
            (Some(h1), Some(h2)) => {
                assert_eq!(h1.path, h2.path);
                assert_eq!(h1.retry_count, h2.retry_count);
                assert_eq!(h1.retry_delay_seconds, h2.retry_delay_seconds);
            }
            _ => panic!("health_check presence differs"),
        }
    }
    assert_eq!(a.routes.len(), b.routes.len());
    for (x, y) in a.routes.iter().zip(b.routes.iter()) {
        assert_eq!(x.domain, y.domain);
        match (&x.target, &y.target) {
            (
                RouteTarget::Service { service: s1 },
                RouteTarget::Service { service: s2 },
            ) => assert_eq!(s1, s2),
            (
                RouteTarget::Static {
                    root: r1,
                    index: i1,
                    try_files: t1,
                },
                RouteTarget::Static {
                    root: r2,
                    index: i2,
                    try_files: t2,
                },
            ) => {
                assert_eq!(r1, r2);
                assert_eq!(i1, i2);
                assert_eq!(t1, t2);
            }
            _ => panic!("route target kind differs"),
        }
    }
}

#[test]
fn config_round_trip() {
    let c = sample_config();
    let text = serialize_config(&c);
    let back = parse_config(&text).expect("round trip parses");
    assert_config_eq(&c, &back);
}

#[test]
fn config_round_trip_twice_is_stable() {
    let c = sample_config();
    let text = serialize_config(&c);
    let back = parse_config(&text).expect("parses");
    let text2 = serialize_config(&back);
    assert_eq!(text, text2);
}

#[test]
fn serialized_form_is_exact() {
    let c = Config {
        services: vec![Service {
            name: "api".to_string(),
            host: "127.0.0.1".to_string(),
            port: 4200,
            health_check: None,
            previous_port: None,
        }],
        routes: vec![Route {
            domain: "*".to_string(),
            target: RouteTarget::Service {
                service: "api".to_string(),
            },
        }],
        api_port: 1143,
        proxy_port: 1144,
        health_check: hc("/", 10, 1),
    };
    let expected = "api_port: 1143\n\
                    proxy_port: 1144\n\
                    health_check:\n  path: /\n  retry_count: 10\n  retry_delay_seconds: 1\n\
                    services:\n  - name: api\n    host: 127.0.0.1\n    port: 4200\n\
                    routes:\n  - domain: *\n    service: api";
    assert_eq!(serialize_config(&c), expected);
}

#[test]
fn config_round_trip_with_empty_lists() {
    let c = Config {
        services: vec![],
        routes: vec![Route {
            domain: "files.example".to_string(),
            target: RouteTarget::Static {
                root: "/var/www".to_string(),
                index: vec![],
                try_files: vec![],
            },
        }],
        api_port: 1,
        proxy_port: 65535,
        health_check: hc("/ready", 0, 3),
    };
    let back = parse_config(&serialize_config(&c)).expect("parses");
    assert_config_eq(&c, &back);
}

#[test]
fn config_round_trip_with_value_edge_cases() {
    let c = Config {
        services: vec![Service {
            name: "a b: c".to_string(),
            host: "".to_string(),
            port: 1,
            health_check: Some(hc("", 4294967295, u64::MAX)),
            previous_port: Some(65535),
        }],
        routes: vec![],
        api_port: 0,
        proxy_port: 0,
        health_check: hc("/", 10, 1),
    };
    let back = parse_config(&serialize_config(&c)).expect("parses");
    assert_config_eq(&c, &back);
}

#[test]
fn parse_rejects_malformed_text() {
    assert_eq!(parse_config("").unwrap_err(), ConfigError::Parse);
    assert_eq!(parse_config("garbage [").unwrap_err(), ConfigError::Parse);
    assert_eq!(
        parse_config("api_port: hello\nproxy_port: 1\nservices:\nroutes:").unwrap_err(),
        ConfigError::Parse
    );
}

#[test]
fn parse_classifies_missing_or_unknown_fields_as_schema() {
    // another field where api_port is required
    assert_eq!(parse_config("not: yaml at all").unwrap_err(), ConfigError::Schema);
    // proxy_port missing
    assert_eq!(
        parse_config("api_port: 1\nservices:\nroutes:").unwrap_err(),
        ConfigError::Schema
    );
    // services missing entirely
    assert_eq!(
        parse_config("api_port: 1\nproxy_port: 2\nroutes:").unwrap_err(),
        ConfigError::Schema
    );
}

#[test]
fn parse_rejects_unknown_trailing_content() {
    let mut text = serialize_config(&sample_config());
    text.push_str("\nextra_field: 1");
    assert_eq!(parse_config(&text).unwrap_err(), ConfigError::Schema);
}

#[test]
fn parse_accepts_empty_flow_lists() {
    let c = parse_config("api_port: 1\nproxy_port: 2\nservices: []\nroutes: []")
        .expect("parses");
    assert_eq!(c.api_port, 1);
    assert_eq!(c.proxy_port, 2);
    assert!(c.services.is_empty());
    assert!(c.routes.is_empty());
    assert_eq!(c.health_check.path, "/");
    assert_eq!(c.health_check.retry_count, 10);
    assert_eq!(c.health_check.retry_delay_seconds, 1);
}

#[test]
fn parse_accepts_empty_flow_lists_in_static_routes() {
    let text = "api_port: 1\nproxy_port: 2\nservices:\nroutes:\n  - domain: d\n    static:\n      root: /srv\n      index: []\n      try_files: []";
    let c = parse_config(text).expect("parses");
    match &c.routes[0].target {
        RouteTarget::Static {
            root,
            index,
            try_files,
        } => {
            assert_eq!(root, "/srv");
            assert!(index.is_empty());
            assert!(try_files.is_empty());
        }
        other => panic!("expected a static target, got {:?}", other),
    }
}

#[test]
fn serialization_is_refused_for_text_with_newlines() {
    let mut c = sample_config();
    assert!(traffic_switcher::codec::try_serialize_config(&c).is_some());
    c.services[0].name = "bad\nname".to_string();
    assert!(traffic_switcher::codec::try_serialize_config(&c).is_none());
}

#[test]
fn parse_hydrates_missing_health_check_fields() {
    let text = "api_port: 1\nproxy_port: 2\nservices:\nroutes:";
    let c = parse_config(text).expect("parses");
    assert_eq!(c.health_check.path, "/");
    assert_eq!(c.health_check.retry_count, 10);
    assert_eq!(c.health_check.retry_delay_seconds, 1);
}

#[test]
fn parse_rejects_duplicate_service_name() {
    let text = "api_port: 1\nproxy_port: 2\nservices:\n  - name: a\n    host: h\n    port: 1\n  - name: a\n    host: h\n    port: 2\nroutes:";
    assert_eq!(parse_config(text).unwrap_err(), ConfigError::Schema);
}

#[test]
fn parse_rejects_service_port_zero() {
    let text = "api_port: 1\nproxy_port: 2\nservices:\n  - name: a\n    host: h\n    port: 0\nroutes:";
    assert_eq!(parse_config(text).unwrap_err(), ConfigError::Schema);
}

#[test]
fn parse_rejects_route_to_unknown_service() {
    let text = "api_port: 1\nproxy_port: 2\nservices:\nroutes:\n  - domain: d\n    service: ghost";
    assert_eq!(parse_config(text).unwrap_err(), ConfigError::Schema);
}

#[test]
fn switch_updates_port_and_previous_port() {
    let mut state = AppState::new(sample_config());
    let r = state.update_service_port("api", 4201, true, true);
    assert_eq!(r, Ok(4200));
    let s = state.lookup_service("api").expect("service exists");
    assert_eq!(s.port, 4201);
    assert_eq!(s.previous_port, Some(4200));
    let in_config = state
        .config
        .services
        .iter()
        .find(|s| s.name == "api")
        .expect("in config");
    assert_eq!(in_config.port, 4201);
    assert_eq!(in_config.previous_port, Some(4200));
}

#[test]
fn switch_unknown_service_fails() {
    let mut state = AppState::new(sample_config());
    let r = state.update_service_port("ghost", 4201, true, true);
    assert_eq!(r, Err(SwitchError::ServiceNotFound));
}

#[test]
fn switch_with_failed_probe_keeps_new_port() {
    let mut state = AppState::new(sample_config());
    let r = state.update_service_port("api", 4201, false, false);
    assert_eq!(r, Err(SwitchError::HealthCheckFailed));
    let s = state.lookup_service("api").expect("service exists");
    assert_eq!(s.port, 4201);
    assert_eq!(s.previous_port, Some(4200));
}

#[test]
fn update_port_endpoint_rejects_port_zero() {
    let mut state = AppState::new(sample_config());
    let req = UpdatePortRequest {
        service: "api".to_string(),
        port: 0,
        skip_health_check: true,
    };
    match handle_update_port(&mut state, &req, true) {
        PortUpdateOutcome::Rejected { status, error } => {
            assert_eq!(status, 400);
            assert_eq!(error, "Invalid port number");
        }
        _ => panic!("expected rejection"),
    }
    assert_eq!(state.lookup_service("api").unwrap().port, 4200);
}

#[test]
fn update_port_endpoint_unknown_service_mentions_name() {
    let mut state = AppState::new(sample_config());
    let req = UpdatePortRequest {
        service: "ghost".to_string(),
        port: 4201,
        skip_health_check: true,
    };
    match handle_update_port(&mut state, &req, true) {
        PortUpdateOutcome::Rejected { status, error } => {
            assert_eq!(status, 404);
            assert_eq!(error, "Service 'ghost' not found");
        }
        _ => panic!("expected rejection"),
    }
}

#[test]
fn update_port_endpoint_success_message() {
    let mut state = AppState::new(sample_config());
    let req = UpdatePortRequest {
        service: "api".to_string(),
        port: 4201,
        skip_health_check: true,
    };
    match handle_update_port(&mut state, &req, true) {
        PortUpdateOutcome::Updated {
            message,
            previous_port,
            current_port,
        } => {
            assert_eq!(message, "Service 'api' updated from port 4200 to 4201");
            assert_eq!(previous_port, 4200);
            assert_eq!(current_port, 4201);
        }
        _ => panic!("expected success"),
    }
}

#[test]
fn outcome_status_codes() {
    let ok = PortUpdateOutcome::Updated {
        message: String::new(),
        previous_port: 1,
        current_port: 2,
    };
    assert_eq!(ok.status(), 200);
    let bad = PortUpdateOutcome::Rejected {
        status: 404,
        error: String::new(),
    };
    assert_eq!(bad.status(), 404);
}

#[test]
fn failed_reload_leaves_state_untouched() {
    let mut state = AppState::new(sample_config());
    state.update_service_port("api", 4300, true, true).unwrap();
    let before = serialize_config(&state.config);
    assert_eq!(state.reload_config("garbage [").unwrap_err(), ConfigError::Parse);
    assert_eq!(serialize_config(&state.config), before);
    assert_eq!(state.lookup_service("api").unwrap().port, 4300);

    let bad_schema =
        "api_port: 1\nproxy_port: 2\nservices:\nroutes:\n  - domain: d\n    service: ghost";
    assert_eq!(state.reload_config(bad_schema).unwrap_err(), ConfigError::Schema);
    assert_eq!(serialize_config(&state.config), before);
}

#[test]
fn successful_reload_replaces_cells_and_keeps_ports() {
    let mut state = AppState::new(sample_config());
    let text = "api_port: 9999\nproxy_port: 9998\nservices:\n  - name: neu\n    host: h\n    port: 7\nroutes:\n  - domain: d\n    service: neu";
    let c = state.reload_config(text).expect("reload ok");
    assert_eq!(c.api_port, 9999);
    // the cached listener ports never change after construction
    assert_eq!(state.port, 1143);
    assert_eq!(state.proxy_port, 1144);
    assert_eq!(state.lookup_service("neu").unwrap().port, 7);
    assert!(state.lookup_service("api").is_none());
}

#[test]
fn effective_health_check_prefers_service_config() {
    let c = sample_config();
    let own = effective_health_check(&c.services[0], &c.health_check);
    assert_eq!(own.path, "/health");
    assert_eq!(own.retry_count, 2);
    let fallback = effective_health_check(&c.services[1], &c.health_check);
    assert_eq!(fallback.path, "/");
    assert_eq!(fallback.retry_count, 10);
}

#[test]
fn env_from_vars_applies_fallbacks() {
    let e = Env::from_vars(None, None, None);
    assert_eq!(e.port, 1143);
    assert_eq!(e.host, "http://localhost/");
    assert_eq!(e.proxy_port, 1144);

    let e2 = Env::from_vars(Some("8080"), Some("example.com".to_string()), Some("nope"));
    assert_eq!(e2.port, 8080);
    assert_eq!(e2.host, "example.com");
    assert_eq!(e2.proxy_port, 1144);

    let e3 = Env::from_vars(Some("99999"), None, Some("+81"));
    assert_eq!(e3.port, 1143);
    assert_eq!(e3.proxy_port, 81);
}

#[test]
fn default_hydration_values() {
    assert_eq!(traffic_switcher::default_path(), "/");
    assert_eq!(traffic_switcher::default_retry_count(), 10);
    assert_eq!(traffic_switcher::default_retry_delay(), 1);
    assert!(!traffic_switcher::default_skip_health_check());
}
