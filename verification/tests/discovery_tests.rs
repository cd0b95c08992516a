use sure_shot::prober::{ProbeDriver, ProbeReply, ProbeStep, MAX_PROBE_ATTEMPTS};
use sure_shot::scanner::{ip_to_string, select_local_ip, subnet_candidates};
use sure_shot::types::PongResponse;
use sure_shot::Ipv4;

#[test]
fn scan_probes_exactly_the_subnet_hosts() {
    let local = Ipv4 { a: 192, b: 168, c: 1, d: 42 };
    let candidates = subnet_candidates(&local);
    assert_eq!(candidates.len(), 254);
    for (i, c) in candidates.iter().enumerate() {
        assert_eq!((c.a, c.b, c.c), (192, 168, 1));
        assert_eq!(c.d as usize, i + 1);
    }
    // Never the network address, never the broadcast address.
    assert!(candidates.iter().all(|c| c.d >= 1 && c.d <= 254));
}

#[test]
fn local_ip_selection_takes_first_private_match() {
    let candidates = vec![
        Ipv4 { a: 10, b: 0, c: 0, d: 1 },
        Ipv4 { a: 192, b: 168, c: 1, d: 7 },
        Ipv4 { a: 192, b: 168, c: 2, d: 9 },
    ];
    assert_eq!(select_local_ip(&candidates), Some(Ipv4 { a: 192, b: 168, c: 1, d: 7 }));
    let none = vec![Ipv4 { a: 10, b: 0, c: 0, d: 1 }];
    assert_eq!(select_local_ip(&none), None);
}

#[test]
fn ip_renders_dotted_decimal() {
    assert_eq!(ip_to_string(&Ipv4 { a: 192, b: 168, c: 0, d: 254 }), "192.168.0.254");
    assert_eq!(ip_to_string(&Ipv4 { a: 0, b: 0, c: 0, d: 0 }), "0.0.0.0");
}

fn pong() -> PongResponse {
    PongResponse { message: "Pong".to_string(), name: "bob".to_string(), is_self: true }
}

#[test]
fn success_with_pong_is_active() {
    let mut d = ProbeDriver::new("192.168.1.20".to_string(), 8000, "192.168.1.10");
    let step = d.on_reply(ProbeReply::Answered { status: 200, pong: Some(pong()) });
    match step {
        ProbeStep::Done(h) => {
            assert_eq!(h.status, "active");
            assert_eq!(h.name, "bob");
            assert_eq!(h.message, "Pong");
            assert_eq!(h.ip, "192.168.1.20");
            assert_eq!(h.port, 8000);
            assert!(!h.is_self);
        },
        other => panic!("expected a settled probe, got {:?}", other),
    }
}

#[test]
fn success_without_parseable_body_is_unknown() {
    let mut d = ProbeDriver::new("192.168.1.20".to_string(), 8000, "192.168.1.10");
    let step = d.on_reply(ProbeReply::Answered { status: 204, pong: None });
    match step {
        ProbeStep::Done(h) => {
            assert_eq!(h.status, "unknown");
            assert_eq!(h.message, "Invalid response");
            assert_eq!(h.name, "unknown");
        },
        other => panic!("expected a settled probe, got {:?}", other),
    }
}

#[test]
fn non_success_status_is_error_with_the_code() {
    let mut d = ProbeDriver::new("192.168.1.20".to_string(), 8000, "192.168.1.10");
    let step = d.on_reply(ProbeReply::Answered { status: 503, pong: Some(pong()) });
    match step {
        ProbeStep::Done(h) => {
            assert_eq!(h.status, "error");
            assert_eq!(h.message, "HTTP 503");
        },
        other => panic!("expected a settled probe, got {:?}", other),
    }
}

#[test]
fn transport_failure_retries_with_linear_backoff_then_unreachable() {
    assert_eq!(MAX_PROBE_ATTEMPTS, 2);
    let mut d = ProbeDriver::new("192.168.1.20".to_string(), 8000, "192.168.1.10");
    let first = d.on_reply(ProbeReply::TimedOut);
    assert_eq!(first, ProbeStep::Retry(200));
    let second = d.on_reply(ProbeReply::Failed("connection refused".to_string()));
    match second {
        ProbeStep::Done(h) => {
            assert_eq!(h.status, "unreachable");
            assert_eq!(h.message, "Request error: connection refused");
        },
        other => panic!("expected a settled probe, got {:?}", other),
    }
}

#[test]
fn timeout_on_last_attempt_is_unreachable_with_timeout() {
    let mut d = ProbeDriver::new("192.168.1.20".to_string(), 8000, "192.168.1.10");
    let _ = d.on_reply(ProbeReply::Failed("no route".to_string()));
    let step = d.on_reply(ProbeReply::TimedOut);
    match step {
        ProbeStep::Done(h) => {
            assert_eq!(h.status, "unreachable");
            assert_eq!(h.message, "Timeout");
        },
        other => panic!("expected a settled probe, got {:?}", other),
    }
}

#[test]
fn probing_own_address_is_marked_self() {
    let mut d = ProbeDriver::new("192.168.1.10".to_string(), 8000, "192.168.1.10");
    let step = d.on_reply(ProbeReply::Answered { status: 200, pong: Some(pong()) });
    match step {
        ProbeStep::Done(h) => assert!(h.is_self),
        other => panic!("expected a settled probe, got {:?}", other),
    }
}
