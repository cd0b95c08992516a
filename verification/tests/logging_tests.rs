use sure_shot::auth::ServerConfig;
use sure_shot::logging::{format_request_line, format_response_line, toggle_notice, LogConfig};

#[test]
fn fresh_preferences_log_everything() {
    let cfg = LogConfig::new();
    assert!(cfg.show_requests);
    assert!(cfg.show_responses);
    assert!(!cfg.is_quiet("/ping"));
}

#[test]
fn toggles_flip_one_preference_each() {
    let mut cfg = LogConfig::new();
    assert!(!cfg.toggle_request_logs());
    assert!(!cfg.show_requests);
    assert!(cfg.show_responses);
    assert!(cfg.toggle_request_logs());
    assert!(!cfg.toggle_response_logs());
    assert!(!cfg.show_responses);
    assert!(cfg.show_requests);
}

#[test]
fn quiet_mode_silences_the_chatty_endpoints() {
    let mut cfg = LogConfig::new();
    assert!(cfg.toggle_quiet_mode());
    assert!(cfg.is_quiet("/ping"));
    assert!(cfg.is_quiet("/auth/verify"));
    assert!(cfg.is_quiet("/events"));
    assert!(!cfg.is_quiet("/send"));
    assert!(!cfg.toggle_quiet_mode());
    assert!(!cfg.is_quiet("/ping"));
}

#[test]
fn request_and_response_lines() {
    assert_eq!(format_request_line("GET", "/ping", ""), "-> GET /ping");
    assert_eq!(format_request_line("GET", "/messages", "limit=5"), "-> GET /messages?limit=5");
    assert_eq!(format_response_line("POST", "/send", 200, 12), "<- POST /send -> 200 (12ms)");
}

#[test]
fn toggle_notices() {
    assert_eq!(toggle_notice("Request", true), "Request logging enabled");
    assert_eq!(toggle_notice("Response", false), "Response logging disabled");
}

#[test]
fn config_starts_with_default_preferences() {
    let c = ServerConfig::new("alice".to_string(), "pw");
    assert!(c.log_config.show_requests);
    assert!(c.log_config.show_responses);
    assert!(c.log_config.quiet_endpoints.is_empty());
}
