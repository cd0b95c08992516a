use sure_shot::auth::ServerConfig;
use sure_shot::lifecycle::{LifecycleController, ServeOutcome};
use sure_shot::relay::{
    accept_inbound, build_self_message, parse_bearer, pong_response, refuse_send,
    resolve_destinations, summarize_send,
};
use sure_shot::state::AppState;
use sure_shot::types::{HostInfo, ReceivedMessage, ServerMessage, ServerState};

fn peer(ip: &str, status: &str, is_self: bool) -> HostInfo {
    HostInfo {
        ip: ip.to_string(),
        port: 8000,
        status: status.to_string(),
        message: "Pong".to_string(),
        name: "peer".to_string(),
        is_self,
    }
}

#[test]
fn broadcast_excludes_self_and_non_active() {
    let peers = vec![
        peer("192.168.1.10", "active", true),
        peer("192.168.1.20", "active", false),
        peer("192.168.1.30", "unreachable", false),
        peer("192.168.1.40", "error", false),
        peer("192.168.1.50", "active", false),
    ];
    let dests = resolve_destinations("", &peers, "192.168.1.10");
    assert_eq!(dests, vec!["192.168.1.20".to_string(), "192.168.1.50".to_string()]);
}

#[test]
fn blank_target_counts_as_broadcast() {
    let peers = vec![peer("192.168.1.20", "active", false)];
    let dests = resolve_destinations("  \t", &peers, "192.168.1.10");
    assert_eq!(dests, vec!["192.168.1.20".to_string()]);
}

#[test]
fn directed_send_goes_to_the_named_address_only() {
    let peers = vec![peer("192.168.1.20", "active", false)];
    let dests = resolve_destinations("192.168.1.77", &peers, "192.168.1.10");
    assert_eq!(dests, vec!["192.168.1.77".to_string()]);
}

#[test]
fn bearer_parsing() {
    assert_eq!(parse_bearer(Some("Bearer abc123")), Some("abc123".to_string()));
    assert_eq!(parse_bearer(Some("Basic abc123")), None);
    assert_eq!(parse_bearer(Some("bearer abc123")), None);
    assert_eq!(parse_bearer(None), None);
    assert_eq!(parse_bearer(Some("Bearer ")), Some("".to_string()));
}

#[test]
fn send_summary_success_needs_one_acceptance() {
    let ok = summarize_send(true, 1, None, "t1".to_string());
    assert!(ok.success);
    assert_eq!(ok.message, "Message broadcast to all servers successfully");
    let single = summarize_send(false, 1, None, "t1".to_string());
    assert_eq!(single.message, "Message sent successfully");
    let failed = summarize_send(true, 0, Some("connection refused".to_string()), "t1".to_string());
    assert!(!failed.success);
    assert_eq!(failed.message, "Failed to send message: connection refused");
}

#[test]
fn sends_without_a_token_are_refused() {
    let none = refuse_send(false, "t".to_string());
    assert!(!none.success);
    assert_eq!(none.message, "Token required");
    let bad = refuse_send(true, "t".to_string());
    assert!(!bad.success);
    assert_eq!(bad.message, "Invalid or expired token");
}

#[test]
fn ping_answers_with_the_nickname() {
    let p = pong_response("alice".to_string());
    assert_eq!(p.message, "Pong");
    assert_eq!(p.name, "alice");
    assert!(p.is_self);
}

#[test]
fn inbound_messages_are_reframed() {
    let payload = ReceivedMessage {
        from: "192.168.1.10".to_string(),
        from_name: "alice".to_string(),
        message: "hi".to_string(),
        message_type: "text".to_string(),
        timestamp: "t1".to_string(),
        is_self: true,
        attachments: Vec::new(),
    };
    let at_sender = accept_inbound(payload.clone(), "192.168.1.10");
    assert!(at_sender.is_self);
    let at_peer = accept_inbound(payload, "192.168.1.20");
    assert!(!at_peer.is_self);
    assert_eq!(at_peer.message, "hi");
}

// Node A (192.168.1.10) and node B (192.168.1.20), both on port 8000:
// A finds B active, broadcasts "hi"; B stores it from A's address and
// not as its own; A's own store gains it as its own.
#[test]
fn two_nodes_exchange_a_broadcast() {
    let peers = vec![
        peer("192.168.1.10", "active", true),
        peer("192.168.1.20", "active", false),
    ];
    let dests = resolve_destinations("", &peers, "192.168.1.10");
    assert_eq!(dests, vec!["192.168.1.20".to_string()]);

    let mut node_a = AppState::new(ServerConfig::new("alice".to_string(), "pw-a"));
    let mut node_b = AppState::new(ServerConfig::new("bob".to_string(), "pw-b"));

    // A records what it sent, in its own frame of reference.
    let sent = build_self_message(
        "192.168.1.10".to_string(),
        "alice".to_string(),
        "hi".to_string(),
        "text".to_string(),
        Vec::new(),
        "2024-06-01T00:00:00+00:00".to_string(),
    );
    node_a.record_message(sent.clone());

    // B receives the same payload over the wire.
    node_b.receive_message(sent, "192.168.1.20");

    let at_a = node_a.store.get_recent_messages(1);
    assert_eq!(at_a[0].from, "192.168.1.10");
    assert!(at_a[0].is_self);

    let at_b = node_b.store.get_recent_messages(1);
    assert_eq!(at_b[0].from, "192.168.1.10");
    assert_eq!(at_b[0].message, "hi");
    assert!(!at_b[0].is_self);
}

#[test]
fn recorded_messages_reach_subscribers_in_order() {
    let mut node = AppState::new(ServerConfig::new("alice".to_string(), "pw"));
    let sub = node.bus.subscribe();
    for i in 0..3 {
        let m = build_self_message(
            "192.168.1.10".to_string(),
            "alice".to_string(),
            format!("m{}", i),
            "text".to_string(),
            Vec::new(),
            format!("t{}", i),
        );
        node.record_message(m);
    }
    let seen = node.bus.poll(sub);
    assert_eq!(seen.len(), 3);
    assert_eq!(seen[0].message, "m0");
    assert_eq!(seen[2].message, "m2");
    // Nothing new since: the next poll is empty.
    assert_eq!(node.bus.poll(sub).len(), 0);
}

#[test]
fn publish_succeeds_with_zero_subscribers() {
    let mut node = AppState::new(ServerConfig::new("alice".to_string(), "pw"));
    let m = build_self_message(
        "192.168.1.10".to_string(),
        "alice".to_string(),
        "unheard".to_string(),
        "text".to_string(),
        Vec::new(),
        "t".to_string(),
    );
    node.record_message(m);
    // The message is not lost from the store.
    assert_eq!(node.store.get_message_count(), 1);
    // A later subscriber does not see it, only what comes after.
    let sub = node.bus.subscribe();
    assert_eq!(node.bus.poll(sub).len(), 0);
}

#[test]
fn dropping_one_subscriber_leaves_others_unaffected() {
    let mut node = AppState::new(ServerConfig::new("alice".to_string(), "pw"));
    let s1 = node.bus.subscribe();
    let s2 = node.bus.subscribe();
    node.bus.unsubscribe(s1);
    let m = build_self_message(
        "192.168.1.10".to_string(),
        "alice".to_string(),
        "still here".to_string(),
        "text".to_string(),
        Vec::new(),
        "t".to_string(),
    );
    node.record_message(m);
    assert_eq!(node.bus.poll(s2).len(), 1);
}

fn log_lines(events: &[ServerMessage]) -> Vec<String> {
    events
        .iter()
        .filter_map(|e| match e {
            ServerMessage::Log(l) => Some(l.clone()),
            _ => None,
        })
        .collect()
}

// start() twice without an intervening stop(): one listener, and a log
// line noting the second call was a no-op.
#[test]
fn second_start_is_a_noop_with_a_log_line() {
    let mut c = LifecycleController::new();
    let (proceed, _) = c.begin_start();
    assert!(proceed);
    c.complete_start("alice".to_string(), "192.168.1.10".to_string(), 8000);
    assert!(matches!(c.state, ServerState::Running));
    let (proceed_again, events) = c.begin_start();
    assert!(!proceed_again);
    assert_eq!(log_lines(&events), vec!["Server is already running".to_string()]);
    assert!(matches!(c.state, ServerState::Running));
    assert!(c.task_live);
}

// stop() while Running ends in Stopped, not Error, and the port can be
// bound again at once.
#[test]
fn stop_while_running_ends_stopped_and_rebindable() {
    let mut c = LifecycleController::new();
    let (proceed, _) = c.begin_start();
    assert!(proceed);
    c.complete_start("alice".to_string(), "192.168.1.10".to_string(), 8000);
    let (signal, _) = c.request_stop();
    assert!(signal);
    c.serve_ended(
        ServeOutcome::ShutdownRequested,
        Some("alice".to_string()),
        Some("192.168.1.10".to_string()),
        Some(8000),
    );
    assert!(matches!(c.state, ServerState::Stopped));
    assert!(!c.task_live);
    // Immediately available for a new bind.
    let (can_start, _) = c.begin_start();
    assert!(can_start);
}

#[test]
fn serve_error_ends_in_error_state() {
    let mut c = LifecycleController::new();
    let (_, _) = c.begin_start();
    c.complete_start("alice".to_string(), "192.168.1.10".to_string(), 8000);
    c.serve_ended(ServeOutcome::ServeError("bind lost".to_string()), None, None, None);
    assert!(matches!(c.state, ServerState::Error(_)));
    assert!(!c.task_live);
}

#[test]
fn failed_start_reports_error_and_stays_startable() {
    let mut c = LifecycleController::new();
    let (proceed, _) = c.begin_start();
    assert!(proceed);
    let events = c.fail_start("No local IP found".to_string(), None, None, None);
    assert!(matches!(c.state, ServerState::Error(_)));
    assert_eq!(log_lines(&events), vec!["No local IP found".to_string()]);
    let (retry, _) = c.begin_start();
    assert!(retry);
}

#[test]
fn stop_with_nothing_running_is_safe() {
    let mut c = LifecycleController::new();
    let (signal, events) = c.request_stop();
    assert!(!signal);
    assert_eq!(log_lines(&events), vec!["Server stopped".to_string()]);
}

#[test]
fn duplicate_delivery_is_stored_twice() {
    let mut node = AppState::new(ServerConfig::new("bob".to_string(), "pw"));
    let payload = ReceivedMessage {
        from: "192.168.1.10".to_string(),
        from_name: "alice".to_string(),
        message: "hi".to_string(),
        message_type: "text".to_string(),
        timestamp: "t1".to_string(),
        is_self: false,
        attachments: Vec::new(),
    };
    node.receive_message(payload.clone(), "192.168.1.20");
    node.receive_message(payload, "192.168.1.20");
    // No dedup is promised: overlapping broadcast fan-outs may deliver
    // the same message twice, and both rows are kept.
    assert_eq!(node.store.get_message_count(), 2);
}

#[test]
fn abort_is_terminal_state() {
    let mut c = LifecycleController::new();
    let (_, _) = c.begin_start();
    c.complete_start("alice".to_string(), "192.168.1.10".to_string(), 8000);
    c.abort();
    assert!(matches!(c.state, ServerState::Aborted));
}
