use traffic_switcher::config::{Config, HealthCheckConfig, Route, RouteTarget, Service};
use traffic_switcher::probe::{probe_url, probe_verdict};
use traffic_switcher::proxy::{authority, content_type_for, plan_request, strip_port, ProxyPlan};
use traffic_switcher::state::AppState;
use traffic_switcher::static_files::{
    index_candidates, join_under_root, pct_decode, pick_first, safe_segments, try_file_candidates,
    StaticError,
};

fn routing_config() -> Config {
    Config {
        services: vec![Service {
            name: "api".to_string(),
            host: "127.0.0.1".to_string(),
            port: 4200,
            health_check: None,
            previous_port: None,
        }],
        routes: vec![
            Route {
                domain: "api.example".to_string(),
                target: RouteTarget::Service {
                    service: "api".to_string(),
                },
            },
            Route {
                domain: "*".to_string(),
                target: RouteTarget::Static {
                    root: "./public".to_string(),
                    index: vec![],
                    try_files: vec!["/index.html".to_string()],
                },
            },
        ],
        api_port: 1143,
        proxy_port: 1144,
        health_check: HealthCheckConfig {
            path: "/".to_string(),
            retry_count: 10,
            retry_delay_seconds: 1,
        },
    }
}

#[test]
fn exact_domain_wins_over_wildcard() {
    let state = AppState::new(routing_config());
    match state.lookup_route("api.example") {
        Some(RouteTarget::Service { service }) => assert_eq!(service, "api"),
        other => panic!("expected the exact service route, got {:?}", other),
    }
}

#[test]
fn unknown_domain_falls_back_to_wildcard() {
    let state = AppState::new(routing_config());
    match state.lookup_route("anything.example") {
        Some(RouteTarget::Static { root, .. }) => assert_eq!(root, "./public"),
        other => panic!("expected the wildcard static route, got {:?}", other),
    }
}

#[test]
fn unknown_domain_without_wildcard_yields_nothing() {
    let mut c = routing_config();
    c.routes.pop();
    let state = AppState::new(c);
    assert!(state.lookup_route("nobody.example").is_none());
}

#[test]
fn repeated_lookup_returns_same_target() {
    let state = AppState::new(routing_config());
    for _ in 0..3 {
        match state.lookup_route("api.example") {
            Some(RouteTarget::Service { service }) => assert_eq!(service, "api"),
            other => panic!("expected the service route, got {:?}", other),
        }
    }
}

#[test]
fn plan_forwards_to_current_service_port() {
    let state = AppState::new(routing_config());
    match plan_request(&state, "api.example:8080") {
        ProxyPlan::Forward { target } => assert_eq!(target, "127.0.0.1:4200"),
        other => panic!("expected a forward plan, got {:?}", other),
    }
}

#[test]
fn plan_serves_static_with_default_index() {
    let state = AppState::new(routing_config());
    match plan_request(&state, "static.example") {
        ProxyPlan::ServeStatic {
            root,
            index,
            try_files,
        } => {
            assert_eq!(root, "./public");
            assert_eq!(index, vec!["index.html".to_string()]);
            assert_eq!(try_files, vec!["/index.html".to_string()]);
        }
        other => panic!("expected a static plan, got {:?}", other),
    }
}

#[test]
fn plan_answers_not_found_without_route() {
    let mut c = routing_config();
    c.routes.clear();
    let state = AppState::new(c);
    assert!(matches!(
        plan_request(&state, "nowhere.example"),
        ProxyPlan::NotFound
    ));
}

#[test]
fn wildcard_only_routes_any_host() {
    let c = Config {
        services: vec![Service {
            name: "api".to_string(),
            host: "127.0.0.1".to_string(),
            port: 4200,
            health_check: None,
            previous_port: None,
        }],
        routes: vec![Route {
            domain: "*".to_string(),
            target: RouteTarget::Service {
                service: "api".to_string(),
            },
        }],
        api_port: 1143,
        proxy_port: 1144,
        health_check: HealthCheckConfig {
            path: "/".to_string(),
            retry_count: 10,
            retry_delay_seconds: 1,
        },
    };
    let state = AppState::new(c);
    for host in ["one.example", "two.example:9999", "anything"] {
        match plan_request(&state, host) {
            ProxyPlan::Forward { target } => assert_eq!(target, "127.0.0.1:4200"),
            other => panic!("expected a forward plan, got {:?}", other),
        }
    }
}

#[test]
fn strip_port_removes_suffix() {
    assert_eq!(strip_port("api.example:8080"), "api.example");
    assert_eq!(strip_port("api.example"), "api.example");
    assert_eq!(strip_port(""), "");
}

#[test]
fn authority_formats_host_and_port() {
    assert_eq!(authority("10.0.0.1", 65535), "10.0.0.1:65535");
}

#[test]
fn traversal_dotdot_is_forbidden() {
    assert_eq!(
        safe_segments(b"/a/../secret"),
        Err(StaticError::Forbidden)
    );
    assert_eq!(safe_segments(b".."), Err(StaticError::Forbidden));
}

#[test]
fn traversal_encoded_dotdot_is_forbidden() {
    assert_eq!(
        safe_segments(b"/%2e%2e/secret"),
        Err(StaticError::Forbidden)
    );
}

#[test]
fn traversal_nul_is_forbidden() {
    assert_eq!(safe_segments(b"/a%00b"), Err(StaticError::Forbidden));
}

#[test]
fn traversal_backslash_escaped_dotdot_is_forbidden() {
    assert_eq!(safe_segments(b"/\\.."), Err(StaticError::Forbidden));
    assert_eq!(safe_segments(b"/a\\..\\b"), Err(StaticError::Forbidden));
    assert_eq!(safe_segments(b"/..%5csecret"), Err(StaticError::Forbidden));
    assert_eq!(safe_segments(b"/%5C%2e%2e/secret"), Err(StaticError::Forbidden));
}

#[test]
fn plain_backslash_segments_stay_allowed() {
    let segs = safe_segments(b"/a\\b").expect("safe");
    assert_eq!(segs, vec![b"a\\b".to_vec()]);
}

#[test]
fn safe_path_keeps_plain_segments() {
    let segs = safe_segments(b"/css//./style.css").expect("safe");
    assert_eq!(segs, vec![b"css".to_vec(), b"style.css".to_vec()]);
}

#[test]
fn pct_decode_decodes_and_passes_through() {
    assert_eq!(pct_decode(b"%41b%2Fc"), b"Ab/c".to_vec());
    assert_eq!(pct_decode(b"100%zz%4"), b"100%zz%4".to_vec());
}

#[test]
fn candidate_paths_are_joined_under_root() {
    let segs = safe_segments(b"/a/b.txt").expect("safe");
    let cand = join_under_root(b"./public", &segs);
    assert_eq!(cand, b"./public/a/b.txt".to_vec());

    let idx = index_candidates(&cand, &vec![b"index.html".to_vec()]);
    assert_eq!(idx, vec![b"./public/a/b.txt/index.html".to_vec()]);
}

#[test]
fn try_files_resolve_against_root_or_parent() {
    let parent = b"./public/a".to_vec();
    let cands = try_file_candidates(
        b"./public",
        &parent,
        &vec![b"/index.html".to_vec(), b"fallback.html".to_vec()],
    );
    assert_eq!(
        cands,
        vec![
            b"./public/index.html".to_vec(),
            b"./public/a/fallback.html".to_vec(),
        ]
    );
}

#[test]
fn pick_first_returns_first_present() {
    let cands = vec![b"a".to_vec(), b"b".to_vec(), b"c".to_vec()];
    assert_eq!(pick_first(&cands, &vec![false, true, true]), Some(1));
    assert_eq!(pick_first(&cands, &vec![false, false, false]), None);
}

#[test]
fn static_error_statuses() {
    assert_eq!(StaticError::Forbidden.status(), 403);
    assert_eq!(StaticError::Decode.status(), 400);
    assert_eq!(StaticError::NotFound.status(), 404);
    assert_eq!(StaticError::Read.status(), 500);
}

#[test]
fn content_type_adds_charset_for_text() {
    assert_eq!(content_type_for("index.html"), "text/html; charset=utf-8");
    assert_eq!(content_type_for("app.js"), "text/javascript; charset=utf-8");
    assert_eq!(content_type_for("data.bin"), "application/octet-stream");
    assert_eq!(content_type_for("photo.png"), "image/png");
}

#[test]
fn probe_with_zero_retries_is_healthy() {
    assert!(probe_verdict(0, &vec![]));
    assert!(probe_verdict(0, &vec![false]));
}

#[test]
fn probe_verdict_needs_one_success_within_budget() {
    assert!(probe_verdict(3, &vec![false, true]));
    assert!(!probe_verdict(3, &vec![false, false, false]));
    assert!(!probe_verdict(2, &vec![false, false, true]));
    assert!(!probe_verdict(1, &vec![]));
}

#[test]
fn probe_url_is_exact() {
    assert_eq!(
        probe_url("127.0.0.1", 4201, "/health"),
        "http://127.0.0.1:4201/health"
    );
}
