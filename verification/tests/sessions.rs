use openshell::session_liveness::{
    wrap_status_preserving_redirect_hint, AnnounceStep, LivenessError, LivenessRecord, PeerSessions,
    SessionLiveness, LIVENESS_TTL, SERVING_REPLICA_METADATA_KEY,
};
use openshell::status::{Code, Status};
use openshell::supervisor_flow::{
    check_report, expected_transport_close_during_session_state,
    expected_transport_close_during_shutdown, handle_connect_supervisor,
    handle_finalize_main_process_exit,
    handle_relay_stream, handle_report_main_process_exit, handle_supervisor_message, relay_inbound,
    relay_outbound, require_persisted_sandbox, run_session_step, sandbox_is_terminating_or_gone,
    sandbox_proto_is_terminating, ConnectAction, ConnectEvent, ConnectPhase, Connection, InboundStep,
    LivenessRenewal, RelayFrame, RelayPayload, RenewalStep, Sandbox, SandboxPhase, SessionEvent,
    SessionStep, StopReason, SupervisorHello, SupervisorMessage, SupervisorPayload,
};
use openshell::supervisor_session::{
    claim_delivered, GatewayMessage, Principal, RelayOpen, RelayTarget, SessionAction,
    SupervisorSessionRegistry, MAX_PENDING_RELAYS, MAX_PENDING_RELAYS_PER_SANDBOX,
    RELAY_PENDING_TIMEOUT,
};

type LookedUp = Result<Option<LivenessRecord>, LivenessError>;

fn nobody() -> LookedUp {
    Ok(None)
}

fn sandbox_principal(sandbox_id: &str) -> Principal {
    Principal::Sandbox {
        sandbox_id: sandbox_id.to_string(),
    }
}

fn user_principal(subject: &str) -> Principal {
    Principal::User {
        subject: subject.to_string(),
    }
}

fn register(registry: &mut SupervisorSessionRegistry, sandbox: &str, session: &str, conn: u64) -> bool {
    registry.register(
        sandbox.to_string(),
        session.to_string(),
        conn,
        &mut Vec::new(),
    )
}

/// A registry in which a relay of the sandbox waits on the channel since `created_at`.
fn with_pending(sandbox_id: &str, channel_id: &str, created_at: u128) -> SupervisorSessionRegistry {
    let mut registry = SupervisorSessionRegistry::new();
    register(&mut registry, sandbox_id, "s1", 1);
    open_on(&mut registry, sandbox_id, channel_id, created_at).expect("a registered session");
    registry
}

fn open_on(
    registry: &mut SupervisorSessionRegistry,
    sandbox_id: &str,
    channel_id: &str,
    now: u128,
) -> Result<u64, Status> {
    registry
        .open_relay_on_channel(
            sandbox_id,
            RelayTarget::Ssh,
            String::new(),
            channel_id.to_string(),
            7,
            now,
            &nobody(),
        )
        .map(|opened| opened.connection)
}

fn waits(registry: &SupervisorSessionRegistry, sandbox_id: &str, channel_id: &str) -> bool {
    registry
        .pending_channel_ids(sandbox_id)
        .contains(&channel_id.to_string())
}

// Sessions.

#[test]
fn registry_register_and_lookup() {
    let mut registry = SupervisorSessionRegistry::new();
    assert!(!register(&mut registry, "sandbox-1", "s1", 1));
    assert!(registry.has_session("sandbox-1"));
    assert_eq!(registry.lookup_session("sandbox-1"), Some(1));
    assert_eq!(registry.lookup_session("sandbox-2"), None);
}

#[test]
fn registry_supersedes_previous_session() {
    let mut registry = SupervisorSessionRegistry::new();
    assert!(!register(&mut registry, "sandbox-1", "s1", 1));
    assert!(register(&mut registry, "sandbox-1", "s2", 2));
}

#[test]
fn registry_remove() {
    let mut registry = SupervisorSessionRegistry::new();
    register(&mut registry, "sandbox-1", "s1", 1);
    assert_eq!(registry.remove("sandbox-1"), Some("s1".to_string()));
    assert!(!registry.has_session("sandbox-1"));
    assert_eq!(registry.remove("sandbox-1"), None);
}

#[test]
fn remove_if_current_removes_matching_session() {
    let mut registry = SupervisorSessionRegistry::new();
    register(&mut registry, "sbx", "s1", 1);
    assert_eq!(registry.remove_if_current("sbx", "s1"), Some(false));
    assert!(!registry.has_session("sbx"));
}

#[test]
fn remove_if_current_ignores_stale_session_id() {
    let mut registry = SupervisorSessionRegistry::new();
    register(&mut registry, "sbx", "s-old", 1);
    register(&mut registry, "sbx", "s-new", 2);
    assert_eq!(registry.remove_if_current("sbx", "s-old"), None);
    assert!(
        registry.has_session("sbx"),
        "new session must still be registered"
    );
    assert!(registry.is_current_session("sbx", "s-new"));
}

#[test]
fn remove_if_current_unknown_sandbox_is_noop() {
    let mut registry = SupervisorSessionRegistry::new();
    assert_eq!(registry.remove_if_current("sbx-does-not-exist", "s1"), None);
}

#[test]
fn remove_if_current_returns_terminal_finalization_state() {
    let mut registry = SupervisorSessionRegistry::new();
    register(&mut registry, "sbx", "s1", 1);
    assert!(registry.finalize_main_process_exit("sbx"));
    assert!(registry.terminal_delivery_finalized("sbx"));
    assert_eq!(registry.remove_if_current("sbx", "s1"), Some(true));
    assert!(!registry.finalize_main_process_exit("sbx"));
}

#[test]
fn register_signals_shutdown_to_previous_session() {
    let mut registry = SupervisorSessionRegistry::new();
    let mut actions = Vec::new();
    registry.register("sbx".to_string(), "s1".to_string(), 4, &mut actions);
    assert!(actions.is_empty());
    registry.register("sbx".to_string(), "s2".to_string(), 5, &mut actions);
    assert_eq!(actions, vec![SessionAction::Shutdown(4)]);
}

#[test]
fn disconnect_ends_the_session_and_withdraws_its_row() {
    let mut registry = SupervisorSessionRegistry::with_liveness(liveness("replica-1", "a:1"));
    register(&mut registry, "sbx", "s1", 4);
    let mut actions = Vec::new();
    assert!(registry.disconnect("sbx", &mut actions));
    assert_eq!(
        actions,
        vec![
            SessionAction::Shutdown(4),
            SessionAction::WithdrawLiveness {
                sandbox_id: "sbx".to_string(),
                session_id: "s1".to_string(),
            },
        ]
    );
    assert!(!registry.disconnect("sbx", &mut actions));
    assert_eq!(actions.len(), 2);
}

#[test]
fn cleanup_forgets_the_session_and_its_relays() {
    let mut registry = with_pending("sbx", "ch-1", 0);
    register(&mut registry, "other", "s1", 2);
    open_on(&mut registry, "other", "ch-2", 0).unwrap();
    let mut actions = Vec::new();
    registry.cleanup_sandbox("sbx", &mut actions);
    assert_eq!(actions, vec![SessionAction::DropRelay(7)]);
    assert!(!registry.has_session("sbx"));
    assert!(registry.pending_channel_ids("sbx").is_empty());
    assert!(registry.has_session("other"));
    assert!(waits(&registry, "other", "ch-2"));

    let mut registry = SupervisorSessionRegistry::with_liveness(liveness("replica-1", "a:1"));
    register(&mut registry, "sbx", "s1", 1);
    let mut actions = Vec::new();
    registry.cleanup_sandbox("sbx", &mut actions);
    assert_eq!(
        actions,
        vec![SessionAction::WithdrawLiveness {
            sandbox_id: "sbx".to_string(),
            session_id: "s1".to_string(),
        }]
    );
}

// Opening relays.

#[test]
fn open_relay_sends_relay_open_to_registered_session() {
    let mut registry = SupervisorSessionRegistry::new();
    register(&mut registry, "sbx", "s1", 3);
    let opened = registry.open_relay("sbx", 9, 0, &nobody()).expect("open");
    assert_eq!(opened.connection, 3);
    assert_eq!(opened.channel_id.len(), 36);
    assert_eq!(
        opened.message,
        GatewayMessage::RelayOpen(RelayOpen {
            channel_id: opened.channel_id.clone(),
            target: Some(RelayTarget::Ssh),
            service_id: String::new(),
        })
    );
    let again = registry.open_relay("sbx", 9, 0, &nobody()).expect("open");
    assert_ne!(again.channel_id, opened.channel_id);
}

#[test]
fn open_relay_times_out_without_session() {
    let mut registry = SupervisorSessionRegistry::new();
    let error = registry
        .open_relay("missing", 9, 0, &nobody())
        .expect_err("no session");
    assert_eq!(error.code, Code::Unavailable);
    assert_eq!(error.message, "supervisor session not connected");
}

#[test]
fn open_relay_fails_when_session_receiver_dropped() {
    let mut registry = SupervisorSessionRegistry::new();
    register(&mut registry, "sbx", "s1", 3);
    let opened = registry.open_relay("sbx", 9, 0, &nobody()).expect("open");
    let error = registry.relay_not_sent(&opened.channel_id);
    assert_eq!(error.code, Code::Unavailable);
    assert_eq!(error.message, "supervisor session disconnected");
    assert!(registry.pending_channel_ids("sbx").is_empty());
}

#[test]
fn open_relay_rejects_when_global_cap_reached() {
    let mut registry = SupervisorSessionRegistry::new();
    for i in 0..MAX_PENDING_RELAYS {
        let sandbox = format!("sbx-{}", i / MAX_PENDING_RELAYS_PER_SANDBOX);
        register(&mut registry, &sandbox, "s1", 1);
        open_on(&mut registry, &sandbox, &format!("ch-{i}"), 0).expect("below the cap");
    }
    register(&mut registry, "sbx-last", "s1", 1);
    let error = open_on(&mut registry, "sbx-last", "ch-last", 0).expect_err("at the cap");
    assert_eq!(error.code, Code::ResourceExhausted);
    assert_eq!(
        error.message,
        "gateway relay capacity reached (256 in flight)"
    );
    assert!(!waits(&registry, "sbx-last", "ch-last"));
}

#[test]
fn open_relay_rejects_when_per_sandbox_cap_reached() {
    let mut registry = SupervisorSessionRegistry::new();
    register(&mut registry, "sbx", "s1", 1);
    register(&mut registry, "other", "s1", 2);
    for i in 0..MAX_PENDING_RELAYS_PER_SANDBOX {
        open_on(&mut registry, "sbx", &format!("ch-{i}"), 0).expect("below the cap");
    }
    let error = open_on(&mut registry, "sbx", "ch-last", 0).expect_err("at the cap");
    assert_eq!(error.code, Code::ResourceExhausted);
    assert_eq!(
        error.message,
        "per-sandbox relay limit reached (32 in flight for sbx)"
    );
    open_on(&mut registry, "other", "ch-other", 0).expect("another sandbox has its own cap");
}

#[test]
fn a_session_arriving_later_is_found_by_the_next_attempt() {
    let mut registry = SupervisorSessionRegistry::new();
    assert!(
        registry.open_relay("sbx", 1, 0, &nobody()).is_err(),
        "a call made before the session exists must be refused, not held"
    );
    register(&mut registry, "sbx", "s1", 4);
    let retried = registry
        .open_relay("sbx", 2, 0, &nobody())
        .expect("the caller's retry must find the session");
    assert_eq!(retried.connection, 4);
    assert!(waits(&registry, "sbx", &retried.channel_id));
}

#[test]
fn open_relay_uses_newest_session_after_supersede() {
    let mut registry = SupervisorSessionRegistry::new();
    register(&mut registry, "sbx", "s-old", 1);
    register(&mut registry, "sbx", "s-new", 2);
    assert_eq!(open_on(&mut registry, "sbx", "ch", 0), Ok(2));
}

#[test]
fn replay_pending_relays_reissues_open_to_superseding_session() {
    let mut registry = SupervisorSessionRegistry::new();
    register(&mut registry, "sbx", "s-old", 1);
    assert_eq!(open_on(&mut registry, "sbx", "ch-1", 0), Ok(1));
    assert_eq!(open_on(&mut registry, "sbx", "ch-2", 0), Ok(1));
    assert!(register(&mut registry, "sbx", "s-new", 2));
    assert_eq!(registry.lookup_session("sbx"), Some(2));
    register(&mut registry, "other", "s1", 9);
    open_on(&mut registry, "other", "ch-3", 0).unwrap();
    let open = |channel: &str| {
        GatewayMessage::RelayOpen(RelayOpen {
            channel_id: channel.to_string(),
            target: Some(RelayTarget::Ssh),
            service_id: String::new(),
        })
    };
    assert_eq!(
        registry.replay_pending_relays("sbx"),
        vec![open("ch-1"), open("ch-2")]
    );
}

#[test]
fn a_relay_keeps_its_target() {
    let mut registry = SupervisorSessionRegistry::new();
    register(&mut registry, "sbx", "s1", 3);
    let target = || RelayTarget::Tcp {
        host: "127.0.0.1".to_string(),
        port: 8080,
    };
    let opened = registry
        .open_relay_with_target("sbx", target(), "svc".to_string(), 9, 0, &nobody())
        .expect("open");
    assert_eq!(
        opened.message,
        GatewayMessage::RelayOpen(RelayOpen {
            channel_id: opened.channel_id.clone(),
            target: Some(target()),
            service_id: "svc".to_string(),
        })
    );
}

// Claiming relays.

#[test]
fn claim_relay_unknown_channel() {
    let mut registry = SupervisorSessionRegistry::new();
    let principal = sandbox_principal("sbx-test");
    let err = registry
        .claim_relay("nonexistent", Some(&principal), 0, &mut Vec::new())
        .expect_err("should err");
    assert_eq!(err.code, Code::NotFound);
}

#[test]
fn claim_relay_success() {
    let mut registry = with_pending("sbx-test", "ch-1", 100);
    let principal = sandbox_principal("sbx-test");
    let claimed = registry
        .claim_relay("ch-1", Some(&principal), 100, &mut Vec::new())
        .expect("in time, and in scope");
    assert_eq!(claimed.waiter, 7);
    assert_eq!(claimed.sandbox_id, "sbx-test");
    assert!(!waits(&registry, "sbx-test", "ch-1"));
    let err = registry
        .claim_relay("ch-1", Some(&principal), 100, &mut Vec::new())
        .expect_err("a relay is claimed once");
    assert_eq!(err.code, Code::NotFound);
}

#[test]
fn claim_relay_rejects_cross_sandbox_principal_without_consuming_channel() {
    let mut registry = with_pending("sbx-owner", "ch-cross", 0);
    let attacker = sandbox_principal("sbx-attacker");
    let err = registry
        .claim_relay("ch-cross", Some(&attacker), 0, &mut Vec::new())
        .expect_err("cross-sandbox relay claim must fail");
    assert_eq!(err.code, Code::PermissionDenied);
    assert!(
        waits(&registry, "sbx-owner", "ch-cross"),
        "failed cross-sandbox claim must not consume the channel"
    );
}

#[test]
fn claim_relay_rejects_user_principal() {
    let mut registry = with_pending("sbx-owner", "ch-user", 0);
    let err = registry
        .claim_relay("ch-user", Some(&user_principal("alice")), 0, &mut Vec::new())
        .expect_err("users are not supervisor identities");
    assert_eq!(err.code, Code::PermissionDenied);
}

#[test]
fn relay_open_failure_completes_pending_waiter() {
    let mut registry = with_pending("sbx-test", "ch-fail", 0);
    let mut actions = Vec::new();
    assert!(registry.fail_pending_relay("ch-fail", "target refused".to_string(), &mut actions));
    assert!(!waits(&registry, "sbx-test", "ch-fail"));
    assert_eq!(
        actions,
        vec![SessionAction::FailRelay {
            waiter: 7,
            status: Status::of(Code::Unavailable, "target refused"),
        }]
    );
    assert!(!registry.fail_pending_relay("ch-fail", "again".to_string(), &mut actions));
    assert_eq!(actions.len(), 1);
}

#[test]
fn claim_relay_expired_returns_deadline_exceeded() {
    let mut registry = with_pending("sbx-test", "ch-old", 0);
    let mut actions = Vec::new();
    let err = registry
        .claim_relay("ch-old", Some(&sandbox_principal("sbx-test")), 60_000_000_000, &mut actions)
        .expect_err("expired entry must fail");
    assert_eq!(err.code, Code::DeadlineExceeded);
    assert_eq!(actions, vec![SessionAction::DropRelay(7)], "the waiter is let go");
    assert!(!waits(&registry, "sbx-test", "ch-old"));
}

#[test]
fn a_relay_does_not_outwait_its_timeout_by_a_moment() {
    let mut registry = with_pending("sbx-test", "ch", 0);
    let mut actions = Vec::new();
    let err = registry
        .claim_relay("ch", None, 10_000_000_001, &mut actions)
        .expect_err("older than ten seconds");
    assert_eq!(err.code, Code::DeadlineExceeded);
    let mut registry = with_pending("sbx-test", "ch", 0);
    registry
        .claim_relay("ch", None, 10_000_000_000, &mut actions)
        .expect("ten seconds are not too long");
}

#[test]
fn a_relay_waits_for_its_whole_timeout() {
    let mut registry = with_pending("sbx-test", "ch", 5);
    assert!(registry
        .claim_relay("ch", None, 5 + RELAY_PENDING_TIMEOUT, &mut Vec::new())
        .is_ok());
    let mut registry = with_pending("sbx-test", "ch", 5);
    assert!(registry
        .claim_relay("ch", None, 6 + RELAY_PENDING_TIMEOUT, &mut Vec::new())
        .is_err());
}

#[test]
fn claim_relay_receiver_dropped_returns_internal() {
    let mut registry = with_pending("sbx-test", "ch-1", 0);
    let claimed = registry
        .claim_relay("ch-1", Some(&sandbox_principal("sbx-test")), 0, &mut Vec::new())
        .expect("claim");
    let err = claim_delivered(claimed, false).expect_err("should err when receiver is gone");
    assert_eq!(err.code, Code::Internal);
    assert_eq!(err.message, "relay requester dropped");
}

#[test]
fn reap_expired_relays_removes_old_entries() {
    let mut registry = with_pending("sbx-test", "ch-old", 0);
    let mut actions = Vec::new();
    registry.reap_expired_relays(60_000_000_000, &mut actions);
    assert!(!waits(&registry, "sbx-test", "ch-old"));
    assert_eq!(actions, vec![SessionAction::DropRelay(7)]);
}

#[test]
fn reap_expired_relays_keeps_fresh_entries() {
    let mut registry = with_pending("sbx-test", "ch-fresh", 60_000_000_000);
    open_on(&mut registry, "sbx-test", "ch-old", 0).unwrap();
    let mut actions = Vec::new();
    registry.reap_expired_relays(60_000_000_000, &mut actions);
    assert_eq!(actions, vec![SessionAction::DropRelay(7)], "one waiter, not two");
    assert!(waits(&registry, "sbx-test", "ch-fresh"));
    assert!(!waits(&registry, "sbx-test", "ch-old"));
}

// Redirects.

fn liveness(replica_id: &str, address: &str) -> SessionLiveness {
    SessionLiveness::new(replica_id.to_string(), address.to_string(), LIVENESS_TTL)
}

fn held_by(replica_id: &str, address: &str) -> LookedUp {
    Ok(Some(LivenessRecord {
        replica_id: replica_id.to_string(),
        advertise_address: address.to_string(),
        session_id: "session-remote".to_string(),
        renewed_at_ms: 0,
        resource_version: 1,
        updated_at_ms: 0,
    }))
}

fn redirect_hint(status: &Status) -> Option<String> {
    status.metadata.get(SERVING_REPLICA_METADATA_KEY).cloned()
}

fn refusal(registry: &SupervisorSessionRegistry, looked_up: &LookedUp) -> Status {
    registry
        .session_or_unavailable("sbx", looked_up)
        .expect_err("no session here")
}

fn bare_refusal(status: &Status) {
    assert_eq!(status.code, Code::Unavailable);
    assert_eq!(status.message, "supervisor session not connected");
    assert_eq!(redirect_hint(status), None);
}

#[test]
fn no_local_session_answers_immediately() {
    let registry = SupervisorSessionRegistry::with_liveness(liveness("local", "local:1"));
    let status = registry
        .session_or_unavailable("sbx-nobody", &nobody())
        .expect_err("session is not registered here");
    assert_eq!(status.code, Code::Unavailable);
    assert_eq!(status.message, "supervisor session not connected");
}

#[test]
fn a_cold_start_is_answered_rather_than_waited_out() {
    let registry = SupervisorSessionRegistry::new();
    let status = registry
        .session_or_unavailable("sbx-never-connected", &nobody())
        .expect_err("nothing has connected");
    assert_eq!(status.code, Code::Unavailable);
}

#[test]
fn a_named_replica_beats_the_bare_refusal() {
    let registry = SupervisorSessionRegistry::with_liveness(liveness("local", "local:1"));
    let status = refusal(&registry, &held_by("remote", "10-0-0-9.gw.ns.svc:8080"));
    assert_eq!(
        redirect_hint(&status).as_deref(),
        Some("10-0-0-9.gw.ns.svc:8080")
    );
}

#[test]
fn a_liveness_row_redirects_without_delay() {
    let registry = SupervisorSessionRegistry::with_liveness(liveness("local", "local:1"));
    let status = refusal(&registry, &held_by("remote", " 10-0-0-9.gw.ns.svc:8080 "));
    assert_eq!(status.code, Code::Unavailable);
    assert_eq!(
        redirect_hint(&status).as_deref(),
        Some("10-0-0-9.gw.ns.svc:8080")
    );
    assert_eq!(
        status.message,
        "supervisor session not connected on this gateway replica; owned by 10-0-0-9.gw.ns.svc:8080"
    );
}

#[test]
fn wait_for_session_does_not_redirect_when_owner_is_us() {
    let registry = SupervisorSessionRegistry::with_liveness(liveness("local", "local:1"));
    bare_refusal(&refusal(&registry, &held_by("local", "x:1")));
}

#[test]
fn wait_for_session_does_not_redirect_without_an_owner() {
    let registry = SupervisorSessionRegistry::with_liveness(liveness("local", "local:1"));
    bare_refusal(&refusal(&registry, &nobody()));
    bare_refusal(&refusal(&registry, &Err(LivenessError::Conflict)));
}

#[test]
fn wait_for_session_does_not_redirect_to_an_empty_address() {
    let registry = SupervisorSessionRegistry::with_liveness(liveness("local", "local:1"));
    bare_refusal(&refusal(&registry, &held_by("remote", "")));
    bare_refusal(&refusal(&registry, &held_by("remote", "  ")));
}

#[test]
fn wait_for_session_does_not_redirect_to_our_own_address() {
    let address = "10-0-0-1.gw.ns.svc:8080";
    let registry = SupervisorSessionRegistry::with_liveness(liveness("local", address));
    bare_refusal(&refusal(&registry, &held_by("replica-previous", address)));
}

#[test]
fn an_address_that_no_header_can_carry_gives_no_hint() {
    let registry = SupervisorSessionRegistry::with_liveness(liveness("local", "local:1"));
    assert_eq!(
        redirect_hint(&refusal(&registry, &held_by("remote", "a\nb:1"))),
        None
    );
    assert_eq!(
        redirect_hint(&refusal(&registry, &held_by("remote", "a\u{7f}b:1"))),
        None
    );
    assert_eq!(
        redirect_hint(&refusal(&registry, &held_by("remote", "a\tb:1"))).as_deref(),
        Some("a\tb:1")
    );
    assert_eq!(
        redirect_hint(&refusal(&registry, &held_by("remote", "\u{fc}:1"))).as_deref(),
        Some("\u{fc}:1")
    );
}

#[test]
fn wait_for_session_prefers_the_local_session_over_a_remote_owner() {
    let mut registry = SupervisorSessionRegistry::with_liveness(liveness("local", "local:1"));
    register(&mut registry, "sbx", "s1", 5);
    assert_eq!(
        registry.session_or_unavailable("sbx", &held_by("remote", "r:1")),
        Ok(5)
    );
}

#[test]
fn a_redirect_survives_the_relay_open_wrapper_a_client_sees() {
    let address = "10-42-0-243.openshell-headless.sandbox.svc.cluster.local:8080";
    let mut registry = SupervisorSessionRegistry::with_liveness(liveness("local", "local:1"));
    let inner = registry
        .open_relay("sbx-e2e", 1, 0, &held_by("remote", address))
        .expect_err("no local session, so open_relay must fail with the redirect");
    let wrapped = wrap_status_preserving_redirect_hint(
        &inner,
        Code::Unavailable,
        "supervisor relay failed".to_string(),
    );
    assert_eq!(
        redirect_hint(&wrapped).as_deref(),
        Some(address),
        "the client keys off the metadata, not the message text"
    );
    assert_eq!(wrapped.code, Code::Unavailable);
}

#[test]
fn a_plain_session_timeout_reaches_the_client_without_a_hint() {
    let mut registry = SupervisorSessionRegistry::with_liveness(liveness("local", "local:1"));
    let inner = registry
        .open_relay("sbx-e2e-none", 1, 0, &nobody())
        .expect_err("no session and no owner");
    let wrapped = wrap_status_preserving_redirect_hint(
        &inner,
        Code::Unavailable,
        "supervisor relay failed".to_string(),
    );
    assert_eq!(redirect_hint(&wrapped), None);
    assert_eq!(wrapped.code, Code::Unavailable);
}

#[test]
fn registry_without_liveness_keeps_single_replica_behavior() {
    let registry = SupervisorSessionRegistry::new();
    let status = refusal(&registry, &held_by("remote", "r:1"));
    bare_refusal(&status);
    bare_refusal(&refusal(&registry, &nobody()));
    assert!(registry.liveness().is_none());
}

#[test]
fn session_connected_in_fleet_sees_a_peer_replicas_session() {
    let registry = SupervisorSessionRegistry::with_liveness(liveness("local", "local:1"));
    assert!(!registry.has_session("sbx"));
    assert!(registry.session_connected_in_fleet("sbx", &held_by("remote", "r:1")));
    assert!(!registry.session_connected_in_fleet("sbx", &nobody()));
    assert!(!registry.session_connected_in_fleet("sbx", &Err(LivenessError::Conflict)));
}

#[test]
fn session_connected_in_fleet_is_false_with_no_session_anywhere() {
    let registry = SupervisorSessionRegistry::with_liveness(liveness("local", "local:1"));
    assert!(!registry.session_connected_in_fleet("sbx-nobody", &nobody()));
}

#[test]
fn session_connected_in_fleet_falls_back_to_the_local_session() {
    let mut alone = SupervisorSessionRegistry::new();
    register(&mut alone, "sbx-local", "session-1", 5);
    assert!(alone.session_connected_in_fleet("sbx-local", &nobody()));
    assert!(!alone.session_connected_in_fleet("sbx-other", &nobody()));

    let mut registry = SupervisorSessionRegistry::with_liveness(liveness("local", "local:1"));
    register(&mut registry, "sbx", "s1", 5);
    assert!(registry.session_connected_in_fleet("sbx", &Err(LivenessError::Conflict)));
    assert!(!SupervisorSessionRegistry::new()
        .session_connected_in_fleet("sbx", &held_by("remote", "r:1")));
}

#[test]
fn peers_are_told_from_a_store_that_cannot_answer() {
    let registry = SupervisorSessionRegistry::with_liveness(liveness("local", "local:1"));
    assert_eq!(
        registry.sandbox_peer_sessions(&held_by("remote", "r:1")),
        PeerSessions::Serving
    );
    assert_eq!(registry.sandbox_peer_sessions(&nobody()), PeerSessions::Nobody);
    assert_eq!(
        registry.sandbox_peer_sessions(&Err(LivenessError::Conflict)),
        PeerSessions::Unknown
    );
    assert_eq!(
        SupervisorSessionRegistry::new().sandbox_peer_sessions(&Err(LivenessError::Conflict)),
        PeerSessions::Nobody
    );
}

// Closing transports.

#[test]
fn expected_transport_close_is_nonfatal_only_during_shutdown() {
    assert!(expected_transport_close_during_shutdown(true, true));
    assert!(!expected_transport_close_during_shutdown(true, false));
}

#[test]
fn unexpected_transport_error_stays_fatal_during_shutdown() {
    assert!(!expected_transport_close_during_shutdown(false, true));
}

#[test]
fn gateway_shutdown_makes_session_transport_close_nonfatal() {
    assert!(expected_transport_close_during_session_state(
        true, true, false, false,
    ));
    assert!(!expected_transport_close_during_session_state(
        true, false, false, false,
    ));
}

fn sandbox_record() -> Sandbox {
    Sandbox {
        phase: Some(SandboxPhase::Provisioning),
        deletion_timestamp_ms: Some(0),
    }
}

#[test]
fn sandbox_proto_terminating_detects_deleting_phase() {
    let mut sandbox = sandbox_record();
    sandbox.phase = Some(SandboxPhase::Deleting);
    assert!(sandbox_proto_is_terminating(&sandbox));
}

#[test]
fn sandbox_proto_terminating_detects_deletion_timestamp() {
    let mut sandbox = sandbox_record();
    sandbox.deletion_timestamp_ms = Some(1);
    assert!(sandbox_proto_is_terminating(&sandbox));
}

#[test]
fn sandbox_proto_running_is_not_terminating() {
    let mut sandbox = sandbox_record();
    sandbox.phase = Some(SandboxPhase::Ready);
    assert!(!sandbox_proto_is_terminating(&sandbox));
}

#[test]
fn a_sandbox_that_cannot_be_loaded_is_not_gone() {
    assert!(sandbox_is_terminating_or_gone(&Ok(None)));
    assert!(!sandbox_is_terminating_or_gone(&Ok(Some(sandbox_record()))));
    assert!(!sandbox_is_terminating_or_gone(&Err("down".to_string())));
}

#[test]
fn require_persisted_sandbox_rejects_missing_sandbox() {
    let status = require_persisted_sandbox(&Ok(false)).expect_err("missing");
    assert_eq!(status.code, Code::NotFound);
    assert_eq!(status.message, "sandbox not found");
    let status = require_persisted_sandbox(&Err("down".to_string())).expect_err("failed");
    assert_eq!(status.code, Code::Internal);
    assert_eq!(status.message, "failed to load sandbox: down");
}

#[test]
fn require_persisted_sandbox_accepts_existing_sandbox() {
    assert_eq!(require_persisted_sandbox(&Ok(true)), Ok(()));
}

// Connections.

fn hello(sandbox_id: &str) -> Option<SupervisorMessage> {
    Some(SupervisorMessage {
        payload: Some(SupervisorPayload::Hello(SupervisorHello {
            sandbox_id: sandbox_id.to_string(),
            instance_id: "instance-1".to_string(),
        })),
    })
}

fn refused(code: Code, message: &str) -> Vec<ConnectAction> {
    vec![ConnectAction::Refuse(Status::of(code, message))]
}

#[test]
fn a_connection_has_to_introduce_itself() {
    let refusals = vec![
        (None, "stream closed before hello"),
        (
            Some(SupervisorMessage { payload: None }),
            "expected SupervisorHello",
        ),
        (
            Some(SupervisorMessage {
                payload: Some(SupervisorPayload::Heartbeat),
            }),
            "expected SupervisorHello",
        ),
        (hello(""), "sandbox_id is required"),
    ];
    for (first, message) in refusals {
        let mut connection = Connection::new();
        assert_eq!(
            connection.hello(first, None),
            refused(Code::InvalidArgument, message)
        );
        assert_eq!(connection.phase, ConnectPhase::Ended);
    }
    let mut connection = Connection::new();
    assert_eq!(
        connection.hello(hello("sbx"), Some(&sandbox_principal("other"))),
        refused(
            Code::PermissionDenied,
            "principal is not scoped to this sandbox"
        )
    );
}

#[test]
fn a_connection_is_accepted_served_and_ended() {
    let mut registry = SupervisorSessionRegistry::new();
    let mut connection = Connection::new();
    assert_eq!(
        connection.hello(hello("sbx"), Some(&sandbox_principal("sbx"))),
        vec![ConnectAction::FindSandbox]
    );
    let actions = connection.sandbox_found(&mut registry, &Ok(true), 5);
    assert_eq!(connection.session_id.len(), 36);
    assert_eq!(
        actions,
        vec![
            ConnectAction::StartRenewal,
            ConnectAction::Send(GatewayMessage::SessionAccepted {
                session_id: connection.session_id.clone(),
                heartbeat_interval_secs: 15,
            }),
        ]
    );
    assert_eq!(registry.lookup_session("sbx"), Some(5));
    assert_eq!(
        connection.accepted_sent(&mut registry, true),
        vec![ConnectAction::MarkConnected]
    );
    assert_eq!(
        connection.marked_connected(true),
        vec![ConnectAction::CountConnected, ConnectAction::Serve]
    );
    assert_eq!(
        connection.session_ended(),
        vec![ConnectAction::StopRenewal, ConnectAction::Withdraw]
    );
    assert_eq!(
        connection.row_withdrawn(&mut registry),
        vec![ConnectAction::CountDisconnected, ConnectAction::FindPeers]
    );
    assert!(!registry.has_session("sbx"));
    assert_eq!(
        connection.peers_found(PeerSessions::Serving),
        vec![ConnectAction::MarkDisconnected {
            terminal_finalized: false,
            peers: PeerSessions::Serving,
        }]
    );
    assert_eq!(connection.phase, ConnectPhase::Ended);
}

#[test]
fn a_connection_takes_in_only_what_it_waits_for() {
    let mut registry = SupervisorSessionRegistry::new();
    let mut connection = Connection::new();
    let mut event = |event: ConnectEvent| {
        let actions = handle_connect_supervisor(&mut connection, &mut registry, event);
        (actions, connection.phase)
    };
    assert_eq!(
        event(ConnectEvent::PeersFound(PeerSessions::Nobody)),
        (vec![], ConnectPhase::Hello)
    );
    assert_eq!(
        event(ConnectEvent::Hello {
            first: hello("sbx"),
            principal: None
        }),
        (vec![ConnectAction::FindSandbox], ConnectPhase::Sandbox)
    );
    assert_eq!(
        event(ConnectEvent::RowWithdrawn),
        (vec![], ConnectPhase::Sandbox)
    );
    let (actions, phase) = event(ConnectEvent::SandboxFound {
        found: Ok(true),
        connection: 5,
    });
    assert_eq!(actions.len(), 2);
    assert_eq!(phase, ConnectPhase::Accepted);
    assert_eq!(
        event(ConnectEvent::AcceptedSent(true)),
        (vec![ConnectAction::MarkConnected], ConnectPhase::Ready)
    );
    assert_eq!(
        event(ConnectEvent::MarkedConnected(false)),
        (vec![ConnectAction::Serve], ConnectPhase::Serving)
    );
    assert_eq!(
        event(ConnectEvent::SessionEnded),
        (
            vec![ConnectAction::StopRenewal, ConnectAction::Withdraw],
            ConnectPhase::Withdrawn
        )
    );
    assert_eq!(
        event(ConnectEvent::RowWithdrawn),
        (
            vec![ConnectAction::CountDisconnected, ConnectAction::FindPeers],
            ConnectPhase::Peers
        )
    );
    assert_eq!(
        event(ConnectEvent::PeersFound(PeerSessions::Unknown)),
        (
            vec![ConnectAction::MarkDisconnected {
                terminal_finalized: false,
                peers: PeerSessions::Unknown,
            }],
            ConnectPhase::Ended
        )
    );
}

#[test]
fn a_connection_to_an_unknown_sandbox_is_refused() {
    let mut registry = SupervisorSessionRegistry::new();
    let mut connection = Connection::new();
    connection.hello(hello("sbx"), None);
    assert_eq!(
        connection.sandbox_found(&mut registry, &Ok(false), 5),
        refused(Code::NotFound, "sandbox not found")
    );
    assert!(!registry.has_session("sbx"));
}

#[test]
fn a_superseding_connection_replays_what_waits() {
    let mut registry = with_pending("sbx", "ch-1", 0);
    let mut connection = Connection::new();
    connection.hello(hello("sbx"), None);
    let actions =
        connection.sandbox_found_as(&mut registry, &Ok(true), "s2".to_string(), 5);
    assert_eq!(
        actions[0],
        ConnectAction::Session(SessionAction::Shutdown(1))
    );
    assert_eq!(actions.len(), 3);
    let actions = connection.accepted_sent(&mut registry, true);
    assert_eq!(actions.len(), 2);
    match &actions[0] {
        ConnectAction::Replay(messages) => assert_eq!(messages.len(), 1),
        other => panic!("the waiting relay has to be replayed: {other:?}"),
    }
    assert_eq!(connection.marked_connected(false), vec![ConnectAction::Serve]);
}

#[test]
fn a_connection_that_cannot_be_accepted_evicts_only_itself() {
    let mut registry = SupervisorSessionRegistry::new();
    let mut connection = Connection::new();
    connection.hello(hello("sbx"), None);
    connection.sandbox_found_as(&mut registry, &Ok(true), "s1".to_string(), 5);
    register(&mut registry, "sbx", "s2", 6);
    assert_eq!(
        connection.accepted_sent(&mut registry, false),
        vec![
            ConnectAction::StopRenewal,
            ConnectAction::Withdraw,
            ConnectAction::Refuse(Status::of(
                Code::Internal,
                "failed to send session accepted"
            )),
        ]
    );
    assert!(registry.is_current_session("sbx", "s2"));
}

#[test]
fn the_end_of_a_superseded_session_changes_nothing() {
    let mut registry = SupervisorSessionRegistry::new();
    let mut connection = Connection::new();
    connection.hello(hello("sbx"), None);
    connection.sandbox_found_as(&mut registry, &Ok(true), "s1".to_string(), 5);
    connection.accepted_sent(&mut registry, true);
    connection.marked_connected(true);
    register(&mut registry, "sbx", "s2", 6);
    connection.session_ended();
    assert!(connection.row_withdrawn(&mut registry).is_empty());
    assert_eq!(connection.phase, ConnectPhase::Ended);
    assert!(registry.is_current_session("sbx", "s2"));
}

// Serving.

#[test]
fn a_session_goes_on_until_something_ends_it() {
    let mut registry = SupervisorSessionRegistry::new();
    register(&mut registry, "sbx", "s1", 5);
    let mut step = |event: SessionEvent| {
        run_session_step(&mut registry, "sbx", "s1", event, &mut Vec::new())
    };
    let failed = |closed: bool, shutting_down: bool, gone: bool| SessionEvent::Failed {
        closed_transport: closed,
        gateway_shutting_down: shutting_down,
        sandbox_terminating_or_gone: gone,
    };
    assert_eq!(
        step(SessionEvent::Superseded),
        SessionStep::Stop(StopReason::Superseded)
    );
    assert_eq!(
        step(SessionEvent::Message(SupervisorMessage { payload: None })),
        SessionStep::Continue
    );
    assert_eq!(
        step(SessionEvent::Closed),
        SessionStep::Stop(StopReason::ClosedBySupervisor)
    );
    assert_eq!(step(SessionEvent::HeartbeatDue), SessionStep::SendHeartbeat);
    assert_eq!(step(SessionEvent::HeartbeatSent(true)), SessionStep::Continue);
    assert_eq!(
        step(SessionEvent::HeartbeatSent(false)),
        SessionStep::Stop(StopReason::OutboundClosed)
    );
    assert_eq!(
        step(failed(true, false, false)),
        SessionStep::Stop(StopReason::StreamError)
    );
    assert_eq!(
        step(failed(true, false, true)),
        SessionStep::Stop(StopReason::ExpectedClose)
    );
    assert_eq!(
        step(failed(false, true, true)),
        SessionStep::Stop(StopReason::StreamError)
    );
    assert_eq!(
        run_session_step(
            &mut registry,
            "sbx",
            "s-old",
            failed(true, false, false),
            &mut Vec::new()
        ),
        SessionStep::Stop(StopReason::ExpectedClose)
    );
}

#[test]
fn only_a_failed_relay_changes_anything() {
    let mut registry = with_pending("sbx", "ch-1", 0);
    let result = |success: bool| SupervisorMessage {
        payload: Some(SupervisorPayload::RelayOpenResult {
            channel_id: "ch-1".to_string(),
            success,
            error: "refused".to_string(),
        }),
    };
    let mut actions = Vec::new();
    let close = SupervisorMessage {
        payload: Some(SupervisorPayload::RelayClose {
            channel_id: "ch-1".to_string(),
            reason: "done".to_string(),
        }),
    };
    handle_supervisor_message(&mut registry, close, &mut actions);
    handle_supervisor_message(&mut registry, result(true), &mut actions);
    assert!(actions.is_empty());
    assert!(waits(&registry, "sbx", "ch-1"));
    handle_supervisor_message(&mut registry, result(false), &mut actions);
    assert_eq!(
        actions,
        vec![SessionAction::FailRelay {
            waiter: 7,
            status: Status::of(Code::Unavailable, "refused"),
        }]
    );
    handle_supervisor_message(&mut registry, result(false), &mut actions);
    assert_eq!(actions.len(), 1);
}

#[test]
fn a_row_is_renewed_until_a_renewal_fails() {
    let mut renewal = LivenessRenewal::new();
    assert_eq!(
        renewal.announced(AnnounceStep::ReadAgain),
        RenewalStep::AnnounceAgain
    );
    assert_eq!(renewal.failed_attempts, 1);
    let mut rows = liveness("r", "a:1");
    let step = rows.announce("sbx", "s1", 1, Ok(3));
    assert_eq!(renewal.announced(step), RenewalStep::WaitAndRenew);
    assert_eq!(renewal.handle.as_ref().map(|h| h.resource_version()), Some(3));
    assert_eq!(
        LivenessRenewal::renewed(&Ok(())),
        RenewalStep::KeepReadyWaitAndRenew
    );
    assert_eq!(
        LivenessRenewal::renewed(&Err(LivenessError::Conflict)),
        RenewalStep::Stop
    );
    assert_eq!(
        renewal.announced(AnnounceStep::Failed(LivenessError::Conflict)),
        RenewalStep::Stop
    );
}

// Relayed streams.

fn frame(payload: RelayPayload) -> Option<RelayFrame> {
    Some(RelayFrame {
        payload: Some(payload),
    })
}

#[test]
fn a_relayed_stream_has_to_name_its_channel() {
    let mut registry = with_pending("sbx", "ch-1", 0);
    let cases = vec![
        (None, "empty RelayStream"),
        (
            Some(RelayFrame { payload: None }),
            "first RelayFrame must be init with non-empty channel_id",
        ),
        (
            frame(RelayPayload::Data(vec![1])),
            "first RelayFrame must be init with non-empty channel_id",
        ),
        (
            frame(RelayPayload::Init {
                channel_id: String::new(),
            }),
            "first RelayFrame must be init with non-empty channel_id",
        ),
    ];
    for (first, message) in cases {
        let status = handle_relay_stream(&mut registry, first, None, 0, &mut Vec::new())
            .expect_err("refused");
        assert_eq!(status.code, Code::InvalidArgument);
        assert_eq!(status.message, message);
    }
    let claimed = handle_relay_stream(
        &mut registry,
        frame(RelayPayload::Init {
            channel_id: "ch-1".to_string(),
        }),
        Some(&sandbox_principal("sbx")),
        0,
        &mut Vec::new(),
    )
    .expect("claimed");
    assert_eq!(claimed.sandbox_id, "sbx");
}

#[test]
fn a_stream_that_comes_too_late_lets_the_waiter_go() {
    let late = 1 + RELAY_PENDING_TIMEOUT;
    let mut registry = with_pending("sbx", "ch-1", 0);
    let init = || {
        frame(RelayPayload::Init {
            channel_id: "ch-1".to_string(),
        })
    };
    let mut actions = Vec::new();
    let stranger = sandbox_principal("other");
    let status = handle_relay_stream(&mut registry, init(), Some(&stranger), late, &mut actions)
        .expect_err("out of scope");
    assert_eq!(status.code, Code::PermissionDenied);
    assert!(actions.is_empty(), "the relay still waits");
    let status = handle_relay_stream(&mut registry, init(), None, late, &mut actions)
        .expect_err("too late");
    assert_eq!(status.code, Code::DeadlineExceeded);
    assert_eq!(actions, vec![SessionAction::DropRelay(7)]);
}

#[test]
fn relayed_bytes_are_handed_on_as_they_are() {
    assert_eq!(
        relay_inbound(frame(RelayPayload::Data(vec![1, 2, 3]))),
        InboundStep::Write(vec![1, 2, 3])
    );
    assert_eq!(
        relay_inbound(frame(RelayPayload::Data(vec![]))),
        InboundStep::Skip
    );
    assert_eq!(
        relay_inbound(frame(RelayPayload::Init {
            channel_id: "ch".to_string()
        })),
        InboundStep::Stop
    );
    assert_eq!(relay_inbound(None), InboundStep::Stop);
    assert_eq!(
        relay_outbound(&vec![1, 2, 3, 4], 3),
        frame(RelayPayload::Data(vec![1, 2, 3]))
    );
    assert_eq!(relay_outbound(&vec![1, 2, 3, 4], 0), None);
}

// Reports.

#[test]
fn a_report_names_a_sandbox_and_an_instance() {
    let status = check_report("", "i", None).expect_err("no sandbox");
    assert_eq!(status.message, "sandbox_id is required");
    let status = check_report("sbx", "", None).expect_err("no instance");
    assert_eq!(status.message, "instance_id is required");
    assert_eq!(status.code, Code::InvalidArgument);
    let status = check_report("sbx", "i", Some(&user_principal("alice"))).expect_err("a user");
    assert_eq!(status.code, Code::PermissionDenied);
    assert_eq!(
        check_report("sbx", "i", Some(&sandbox_principal("sbx"))),
        Ok(())
    );
    let status = handle_report_main_process_exit(Err("gone".to_string())).expect_err("failed");
    assert_eq!(status.code, Code::FailedPrecondition);
    assert_eq!(status.message, "gone");
    assert_eq!(handle_report_main_process_exit(Ok(())), Ok(()));
}

#[test]
fn finalizing_needs_a_session() {
    let mut registry = SupervisorSessionRegistry::new();
    let status = handle_finalize_main_process_exit(&mut registry, "sbx", Ok(()))
        .expect_err("not connected");
    assert_eq!(status.code, Code::FailedPrecondition);
    assert_eq!(status.message, "supervisor session is not connected");
    register(&mut registry, "sbx", "s1", 1);
    assert!(
        handle_finalize_main_process_exit(&mut registry, "sbx", Err("no".to_string())).is_err()
    );
    assert!(!registry.terminal_delivery_finalized("sbx"));
    assert_eq!(
        handle_finalize_main_process_exit(&mut registry, "sbx", Ok(())),
        Ok(())
    );
    assert!(registry.terminal_delivery_finalized("sbx"));
}
