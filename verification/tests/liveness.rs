use openshell::session_liveness::{
    build_advertise_address, delete_outcome, liveness_object_id, liveness_record, record_is_expired,
    wrap_status_preserving_redirect_hint, write_condition, AnnounceStep, LivenessError,
    LivenessHandle, LivenessPayload, LivenessRecord, PersistenceError, PersistenceErrorKind,
    ReleaseAllSummary, SessionLiveness, WriteCondition, ANNOUNCE_CAS_ATTEMPTS, LIVENESS_OBJECT_TYPE,
    LIVENESS_TTL, SERVING_REPLICA_METADATA_KEY,
};
use openshell::status::{Code, Status};
use openshell::string_map::StringMap;

use std::collections::BTreeMap;

// A store that honours write conditions.

struct Store {
    rows: BTreeMap<String, (String, LivenessRecord)>,
    version: u64,
    now_ms: i64,
}

fn persistence(kind: PersistenceErrorKind) -> PersistenceError {
    PersistenceError {
        kind,
        message: "from the store".to_string(),
    }
}

impl Store {
    fn new() -> Self {
        Store {
            rows: BTreeMap::new(),
            version: 0,
            now_ms: 1_000_000,
        }
    }

    fn put_if(
        &mut self,
        key: &str,
        workspace: &str,
        payload: LivenessPayload,
        condition: WriteCondition,
    ) -> Result<u64, PersistenceError> {
        match condition {
            WriteCondition::MustCreate => {
                if self.rows.contains_key(key) {
                    return Err(persistence(PersistenceErrorKind::UniqueViolation));
                }
            }
            WriteCondition::MatchResourceVersion(version) => {
                if self.rows.get(key).map(|row| row.1.resource_version) != Some(version) {
                    return Err(persistence(PersistenceErrorKind::Conflict));
                }
            }
        }
        self.version += 1;
        let record = liveness_record(payload, self.version, self.now_ms);
        self.rows
            .insert(key.to_string(), (workspace.to_string(), record));
        Ok(self.version)
    }

    fn get(&self, key: &str) -> Option<LivenessRecord> {
        self.rows.get(key).map(|row| row.1.clone())
    }

    fn list(&self, workspace: &str) -> Vec<LivenessRecord> {
        self.rows
            .values()
            .filter(|row| row.0 == workspace)
            .map(|row| row.1.clone())
            .collect()
    }

    fn delete_if(&mut self, key: &str, version: u64) -> Result<bool, PersistenceError> {
        match self.rows.get(key) {
            None => Ok(false),
            Some(row) if row.1.resource_version == version => {
                self.rows.remove(key);
                Ok(true)
            }
            Some(_) => Err(persistence(PersistenceErrorKind::Conflict)),
        }
    }
}

fn liveness(replica_id: &str, address: &str, ttl: u64) -> SessionLiveness {
    SessionLiveness::new(replica_id.to_string(), address.to_string(), ttl)
}

fn announce(
    store: &mut Store,
    liveness: &mut SessionLiveness,
    sandbox_id: &str,
    session_id: &str,
) -> Result<LivenessHandle, LivenessError> {
    store.now_ms += 1;
    let mut failed_attempts = 0;
    loop {
        let row = liveness.own_row(sandbox_id);
        let condition = write_condition(&store.get(&row.id));
        let payload = liveness.payload(session_id, store.now_ms);
        let stored = store.put_if(&row.id, &row.workspace, payload, condition);
        let written = liveness.put_outcome(sandbox_id, stored);
        match liveness.announce(sandbox_id, session_id, failed_attempts, written) {
            AnnounceStep::ReadAgain => failed_attempts += 1,
            AnnounceStep::Announced(handle) => return Ok(handle),
            AnnounceStep::Failed(error) => return Err(error),
        }
    }
}

fn renew(
    store: &mut Store,
    liveness: &SessionLiveness,
    sandbox_id: &str,
    claim: &mut LivenessHandle,
) -> Result<(), LivenessError> {
    store.now_ms += 1;
    let row = liveness.own_row(sandbox_id);
    let payload = liveness.payload(claim.session_id(), store.now_ms);
    let condition = SessionLiveness::renewal_condition(claim);
    let stored = store.put_if(&row.id, &row.workspace, payload, condition);
    SessionLiveness::renew(claim, liveness.put_outcome(sandbox_id, stored))
}

fn withdraw(
    store: &mut Store,
    liveness: &mut SessionLiveness,
    sandbox_id: &str,
    session_id: &str,
) -> Result<bool, LivenessError> {
    liveness.forget_owned(sandbox_id, session_id);
    let row = liveness.own_row(sandbox_id);
    match liveness.withdraw(&store.get(&row.id), session_id) {
        None => Ok(false),
        Some(version) => delete_outcome(store.delete_if(&row.id, version)),
    }
}

fn release_all(store: &mut Store, liveness: &mut SessionLiveness) -> ReleaseAllSummary {
    let outcomes: Vec<Result<bool, LivenessError>> = liveness
        .take_owned()
        .iter()
        .map(|(sandbox_id, session_id)| withdraw(store, liveness, sandbox_id, session_id))
        .collect();
    SessionLiveness::release_all_owned(&outcomes)
}

fn lookup(store: &Store, liveness: &SessionLiveness, sandbox_id: &str) -> Option<LivenessRecord> {
    liveness.lookup(&store.list(sandbox_id), store.now_ms)
}

fn own(store: &Store, liveness: &SessionLiveness, sandbox_id: &str) -> Option<LivenessRecord> {
    store.get(&liveness.own_row(sandbox_id).id)
}

// Statuses.

fn status_with_redirect(address: &str) -> Status {
    let mut metadata = StringMap::new();
    metadata.insert(
        SERVING_REPLICA_METADATA_KEY.to_string(),
        address.to_string(),
    );
    Status {
        code: Code::Unavailable,
        message: "supervisor session not connected on this gateway replica".to_string(),
        metadata,
    }
}

fn redirect_hint(status: &Status) -> Option<String> {
    status.metadata.get(SERVING_REPLICA_METADATA_KEY).cloned()
}

#[test]
fn wrapping_a_redirect_keeps_the_hint() {
    let inner = status_with_redirect("10-0-0-9.gw.ns.svc:8080");
    let wrapped = wrap_status_preserving_redirect_hint(
        &inner,
        Code::Unavailable,
        format!("supervisor relay failed: {inner:?}"),
    );

    assert_eq!(
        redirect_hint(&wrapped).as_deref(),
        Some("10-0-0-9.gw.ns.svc:8080"),
        "the redirect hint must survive re-wrapping or the client sees a plain error"
    );
    assert_eq!(wrapped.code, Code::Unavailable);
    assert!(wrapped.message.starts_with("supervisor relay failed: "));
}

#[test]
fn wrapping_a_plain_status_adds_no_metadata() {
    let inner = Status::of(Code::Unavailable, "supervisor session not connected");
    let wrapped = wrap_status_preserving_redirect_hint(
        &inner,
        Code::Unavailable,
        "supervisor relay failed: boom".to_string(),
    );

    assert!(
        redirect_hint(&wrapped).is_none(),
        "a redirect must never be fabricated for a status that had none"
    );
    assert_eq!(wrapped.metadata.len(), 0);
}

#[test]
fn wrapping_forwards_only_the_redirect_key() {
    let mut inner = status_with_redirect("10-0-0-9.gw.ns.svc:8080");
    inner
        .metadata
        .insert("x-openshell-unrelated".to_string(), "leaked".to_string());

    let wrapped =
        wrap_status_preserving_redirect_hint(&inner, Code::Unavailable, "wrapped".to_string());
    assert!(redirect_hint(&wrapped).is_some());
    assert!(
        wrapped.metadata.get("x-openshell-unrelated").is_none(),
        "the wrapper must not forward trailers it never meant to promise"
    );
}

// Row keys and ages.

#[test]
fn liveness_object_id_is_namespaced_away_from_the_sandbox_row() {
    let sandbox_id = "1f8b4fc9-2c4d-4f2a-9f1e-0b6d3a5c7e91";
    let key = liveness_object_id(sandbox_id, "replica-1");
    assert_ne!(
        key, sandbox_id,
        "objects.id is globally unique — an unprefixed key collides with the sandbox's own row"
    );
    assert!(key.starts_with(LIVENESS_OBJECT_TYPE));
    assert!(key.contains(sandbox_id));
}

#[test]
fn liveness_object_id_separates_replicas() {
    assert_ne!(
        liveness_object_id("sbx-1", "replica-1"),
        liveness_object_id("sbx-1", "replica-2")
    );
    assert_eq!(
        liveness_object_id("sbx-1", "replica-1"),
        "supervisor-session-liveness:sbx-1:replica-1"
    );
}

#[test]
fn expiry_clamps_future_timestamps_to_age_zero() {
    let now = 1_000_000;
    let future = now + 86_400_000;
    assert!(!record_is_expired(now, future, 1_000));
    assert!(record_is_expired(now, future, 0));
    assert!(!record_is_expired(now, now, 1_000));
    assert!(record_is_expired(now, now, 0));
}

#[test]
fn ages_are_bounded_by_what_a_number_holds() {
    assert!(record_is_expired(i64::MAX, i64::MIN, i64::MAX));
    assert!(record_is_expired(1_030_000, 1_000_000, 30_000));
    assert!(!record_is_expired(1_029_999, 1_000_000, 30_000));
    assert_eq!(liveness("r", "a", u64::MAX).ttl_ms(), i64::MAX);
    assert_eq!(liveness("r", "a", LIVENESS_TTL).ttl_ms(), 30_000);
}

// Addresses.

#[test]
fn advertise_address_prefers_explicit_override() {
    assert_eq!(
        build_advertise_address(
            Some("gateway-0.gw.openshell.svc.cluster.local:9443"),
            Some("10.1.2.3"),
            Some("gw.openshell.svc.cluster.local"),
            8080,
        ),
        "gateway-0.gw.openshell.svc.cluster.local:9443"
    );
}

#[test]
fn advertise_address_builds_dashed_pod_dns() {
    assert_eq!(
        build_advertise_address(
            None,
            Some("10.1.2.3"),
            Some("gw.openshell.svc.cluster.local"),
            8080,
        ),
        "10-1-2-3.gw.openshell.svc.cluster.local:8080"
    );
}

#[test]
fn advertise_address_tolerates_suffix_dots_and_ipv6() {
    assert_eq!(
        build_advertise_address(None, Some("10.1.2.3"), Some(".gw.ns.svc."), 8080),
        "10-1-2-3.gw.ns.svc:8080"
    );
    assert_eq!(
        build_advertise_address(None, Some("fd00::1"), Some("gw.ns.svc"), 8080),
        "fd00--1.gw.ns.svc:8080"
    );
}

#[test]
fn advertise_address_empty_without_configuration() {
    assert!(build_advertise_address(None, None, None, 8080).is_empty());
    assert!(build_advertise_address(Some("  "), Some("10.1.2.3"), None, 8080).is_empty());
    assert!(build_advertise_address(None, Some("10.1.2.3"), Some(" "), 8080).is_empty());
    assert!(build_advertise_address(None, None, Some("gw.ns.svc"), 8080).is_empty());
}

#[test]
fn a_replica_advertises_its_member_name() {
    assert_eq!(
        build_advertise_address(None, Some(" 10.42.0.5 "), Some("gw.ns.svc."), 8080),
        openshell::gateway_fleet::member_address("10.42.0.5", "gw.ns.svc.", 8080)
    );
}

// Rows.

#[test]
fn announce_records_replica_and_address() {
    let mut store = Store::new();
    let mut o = liveness("replica-1", "10-0-0-1.gw.ns.svc:8080", LIVENESS_TTL);
    assert_eq!(o.replica_id(), "replica-1");
    assert_eq!(o.advertise_address(), "10-0-0-1.gw.ns.svc:8080");
    let claim = announce(&mut store, &mut o, "sbx-1", "session-a").expect("should claim");
    assert!(claim.resource_version() > 0);
    assert_eq!(claim.session_id(), "session-a");

    let record = lookup(&store, &o, "sbx-1").expect("record should exist");
    assert_eq!(record.replica_id, "replica-1");
    assert_eq!(record.advertise_address, "10-0-0-1.gw.ns.svc:8080");
    assert_eq!(record.session_id, "session-a");
}

#[test]
fn two_replicas_hold_a_session_for_the_same_sandbox() {
    let mut store = Store::new();
    let mut o1 = liveness("replica-1", "a:1", LIVENESS_TTL);
    let mut o2 = liveness("replica-2", "b:2", LIVENESS_TTL);
    announce(&mut store, &mut o1, "sbx-move", "session-a").unwrap();
    announce(&mut store, &mut o2, "sbx-move", "session-b").unwrap();

    assert_eq!(
        store.list("sbx-move").len(),
        2,
        "each replica must keep its own row"
    );
    let record = lookup(&store, &o2, "sbx-move").expect("a holder should exist");
    assert_eq!(record.replica_id, "replica-2");
    assert_eq!(record.advertise_address, "b:2");
    assert_eq!(record.session_id, "session-b");
}

#[test]
fn an_expired_peer_row_stops_being_a_redirect_target() {
    let mut store = Store::new();
    let mut dead = liveness("replica-1", "a:1", 0);
    let observer = liveness("replica-2", "b:2", 0);
    announce(&mut store, &mut dead, "sbx-steal", "session-a").unwrap();
    assert_eq!(store.list("sbx-steal").len(), 1, "the row is still stored");
    assert!(
        lookup(&store, &observer, "sbx-steal").is_none(),
        "an expired row names a replica that stopped renewing"
    );
}

#[test]
fn late_withdraw_from_a_superseded_session_keeps_the_new_record() {
    let mut store = Store::new();
    let mut o1 = liveness("replica-1", "a:1", LIVENESS_TTL);
    let mut o2 = liveness("replica-2", "b:2", LIVENESS_TTL);
    announce(&mut store, &mut o1, "sbx-late-release", "session-a").unwrap();
    announce(&mut store, &mut o2, "sbx-late-release", "session-b").unwrap();
    assert_eq!(
        withdraw(&mut store, &mut o1, "sbx-late-release", "session-a"),
        Ok(true)
    );
    let record = lookup(&store, &o2, "sbx-late-release")
        .expect("the peer's record must survive another replica's release");
    assert_eq!(record.replica_id, "replica-2");
    assert_eq!(record.session_id, "session-b");
}

#[test]
fn reconnect_on_same_replica_reclaims() {
    let mut store = Store::new();
    let mut o = liveness("replica-1", "a:1", LIVENESS_TTL);
    announce(&mut store, &mut o, "sbx-reconnect", "session-a").unwrap();
    announce(&mut store, &mut o, "sbx-reconnect", "session-b")
        .expect("same replica should be able to re-claim");
    let record = lookup(&store, &o, "sbx-reconnect").unwrap();
    assert_eq!(record.session_id, "session-b");
}

#[test]
fn lookup_returns_none_when_absent() {
    let store = Store::new();
    let o = liveness("replica-1", "a:1", LIVENESS_TTL);
    assert!(lookup(&store, &o, "sbx-missing").is_none());
}

#[test]
fn lookup_takes_the_last_of_the_freshest() {
    let record = |replica: &str, renewed: i64, updated: i64| LivenessRecord {
        replica_id: replica.to_string(),
        advertise_address: String::new(),
        session_id: String::new(),
        renewed_at_ms: renewed,
        resource_version: 1,
        updated_at_ms: updated,
    };
    let o = liveness("replica-1", "a:1", 1_000);
    let rows = vec![
        record("a", 5, 9_500),
        record("b", 9, 8_000),
        record("c", 7, 9_500),
        record("d", 7, 9_999),
        record("e", 6, 9_999),
    ];
    assert_eq!(o.lookup(&rows, 10_000).unwrap().replica_id, "d");
}

#[test]
fn renew_keeps_the_row_fresh() {
    let mut store = Store::new();
    let mut o = liveness("replica-1", "a:1", LIVENESS_TTL);
    let mut claim = announce(&mut store, &mut o, "sbx-renew", "session-a").unwrap();
    let v1 = claim.resource_version();
    renew(&mut store, &o, "sbx-renew", &mut claim).unwrap();
    assert!(claim.resource_version() > v1);
    let record = lookup(&store, &o, "sbx-renew").unwrap();
    assert_eq!(record.resource_version, claim.resource_version());
}

#[test]
fn a_peer_claim_does_not_break_our_renewal() {
    let mut store = Store::new();
    let mut o1 = liveness("replica-1", "a:1", LIVENESS_TTL);
    let mut o2 = liveness("replica-2", "b:2", LIVENESS_TTL);
    let mut claim = announce(&mut store, &mut o1, "sbx-lost", "session-a").unwrap();
    announce(&mut store, &mut o2, "sbx-lost", "session-b").unwrap();
    renew(&mut store, &o1, "sbx-lost", &mut claim)
        .expect("a peer holding its own session must not invalidate ours");
    let ours = own(&store, &o1, "sbx-lost").unwrap();
    assert_eq!(ours.replica_id, "replica-1");
    assert_eq!(ours.session_id, "session-a");
}

#[test]
fn a_failed_renewal_keeps_the_version() {
    let mut store = Store::new();
    let mut o = liveness("replica-1", "a:1", LIVENESS_TTL);
    let mut claim = announce(&mut store, &mut o, "sbx-renew", "session-a").unwrap();
    announce(&mut store, &mut o, "sbx-renew", "session-b").unwrap();
    let v1 = claim.resource_version();
    assert_eq!(
        renew(&mut store, &o, "sbx-renew", &mut claim),
        Err(LivenessError::Conflict)
    );
    assert_eq!(claim.resource_version(), v1);
}

#[test]
fn withdrawing_our_row_leaves_a_peers_row_intact() {
    let mut store = Store::new();
    let mut o1 = liveness("replica-1", "a:1", LIVENESS_TTL);
    let mut o2 = liveness("replica-2", "b:2", LIVENESS_TTL);
    announce(&mut store, &mut o1, "sbx-peer-release", "session-a").unwrap();
    announce(&mut store, &mut o2, "sbx-peer-release", "session-b").unwrap();
    assert_eq!(
        withdraw(&mut store, &mut o1, "sbx-peer-release", "session-a"),
        Ok(true)
    );
    let holders = store.list("sbx-peer-release");
    assert_eq!(holders.len(), 1);
    assert_eq!(holders[0].replica_id, "replica-2");
    assert_eq!(
        lookup(&store, &o2, "sbx-peer-release")
            .expect("the surviving holder is still a redirect target")
            .session_id,
        "session-b"
    );
}

#[test]
fn announce_succeeds_when_the_sandbox_object_row_already_exists() {
    let sandbox_id = "1f8b4fc9-2c4d-4f2a-9f1e-0b6d3a5c7e91";
    let mut store = Store::new();
    let stranger = liveness("the-sandbox-itself", "", LIVENESS_TTL).payload("", 0);
    store
        .put_if(sandbox_id, "default", stranger, WriteCondition::MustCreate)
        .unwrap();
    let mut o = liveness("replica-1", "10-0-0-1.gw.ns.svc:8080", LIVENESS_TTL);
    announce(&mut store, &mut o, sandbox_id, "session-a")
        .expect("claiming must not collide with the sandbox's own objects row");
    let record = lookup(&store, &o, sandbox_id)
        .expect("liveness record should exist alongside the sandbox row");
    assert_eq!(record.replica_id, "replica-1");
    assert_eq!(record.session_id, "session-a");
}

#[test]
fn lookup_returns_none_for_expired_record() {
    let mut store = Store::new();
    let mut o = liveness("replica-1", "a:1", 0);
    announce(&mut store, &mut o, "sbx-expired", "session-a").unwrap();
    assert!(lookup(&store, &o, "sbx-expired").is_none());
    assert!(
        own(&store, &o, "sbx-expired").is_some(),
        "record should still be stored, just not authoritative"
    );
}

#[test]
fn release_removes_our_current_record() {
    let mut store = Store::new();
    let mut o = liveness("replica-1", "a:1", LIVENESS_TTL);
    announce(&mut store, &mut o, "sbx-release", "session-a").unwrap();
    assert_eq!(
        withdraw(&mut store, &mut o, "sbx-release", "session-a"),
        Ok(true)
    );
    assert!(own(&store, &o, "sbx-release").is_none());
}

#[test]
fn release_from_other_replica_is_a_no_op() {
    let mut store = Store::new();
    let mut o1 = liveness("replica-1", "a:1", LIVENESS_TTL);
    let mut o2 = liveness("replica-2", "b:2", LIVENESS_TTL);
    announce(&mut store, &mut o1, "sbx-foreign", "session-a").unwrap();
    assert_eq!(
        withdraw(&mut store, &mut o2, "sbx-foreign", "session-a"),
        Ok(false)
    );
    assert!(lookup(&store, &o1, "sbx-foreign").is_some());
}

#[test]
fn withdraw_all_leaves_a_peers_row_intact() {
    let mut store = Store::new();
    let mut o1 = liveness("replica-1", "a:1", LIVENESS_TTL);
    let mut o2 = liveness("replica-2", "b:2", LIVENESS_TTL);
    announce(&mut store, &mut o1, "sbx-shared", "session-a").unwrap();
    announce(&mut store, &mut o1, "sbx-ours-only", "session-c").unwrap();
    announce(&mut store, &mut o2, "sbx-shared", "session-b").unwrap();
    assert_eq!(
        release_all(&mut store, &mut o1),
        ReleaseAllSummary {
            released: 2,
            skipped: 0,
            failed: 0,
        },
        "a replica releases exactly the rows it wrote"
    );
    let record = lookup(&store, &o2, "sbx-shared")
        .expect("a peer still serving must survive this replica's shutdown");
    assert_eq!(record.replica_id, "replica-2");
    assert_eq!(record.session_id, "session-b");
    assert!(lookup(&store, &o2, "sbx-ours-only").is_none());
    assert!(own(&store, &o1, "sbx-ours-only").is_none());
}

#[test]
fn withdraw_with_stale_session_id_keeps_current_record() {
    let mut store = Store::new();
    let mut o = liveness("replica-1", "a:1", LIVENESS_TTL);
    announce(&mut store, &mut o, "sbx-stale", "session-old").unwrap();
    announce(&mut store, &mut o, "sbx-stale", "session-new").unwrap();
    assert_eq!(
        withdraw(&mut store, &mut o, "sbx-stale", "session-old"),
        Ok(false),
        "a superseded session must not release the current claim"
    );
    assert_eq!(
        lookup(&store, &o, "sbx-stale").unwrap().session_id,
        "session-new"
    );
}

#[test]
fn withdraw_when_absent_reports_false() {
    let mut store = Store::new();
    let mut o = liveness("replica-1", "a:1", LIVENESS_TTL);
    assert_eq!(withdraw(&mut store, &mut o, "sbx-none", "s"), Ok(false));
}

#[test]
fn withdraw_all_removes_every_row_this_replica_wrote() {
    let mut store = Store::new();
    let mut o = liveness("replica-1", "a:1", LIVENESS_TTL);
    for i in 0..3 {
        announce(
            &mut store,
            &mut o,
            &format!("sbx-all-{i}"),
            &format!("session-{i}"),
        )
        .unwrap();
    }
    assert_eq!(
        release_all(&mut store, &mut o),
        ReleaseAllSummary {
            released: 3,
            skipped: 0,
            failed: 0,
        }
    );
    for i in 0..3 {
        assert!(own(&store, &o, &format!("sbx-all-{i}")).is_none());
    }
    assert_eq!(
        release_all(&mut store, &mut o),
        ReleaseAllSummary {
            released: 0,
            skipped: 0,
            failed: 0,
        }
    );
}

#[test]
fn release_all_owned_reports_store_failures_instead_of_propagating() {
    let outcomes = vec![
        Err(LivenessError::Store(persistence(PersistenceErrorKind::Other))),
        Ok(false),
        Err(LivenessError::Conflict),
        Ok(true),
    ];
    assert_eq!(
        SessionLiveness::release_all_owned(&outcomes),
        ReleaseAllSummary {
            released: 1,
            skipped: 1,
            failed: 2,
        }
    );
}

#[test]
fn per_session_release_untracks_so_shutdown_has_nothing_to_do() {
    let mut store = Store::new();
    let mut o = liveness("replica-1", "a:1", LIVENESS_TTL);
    announce(&mut store, &mut o, "sbx-tracked", "session-a").unwrap();
    assert_eq!(
        withdraw(&mut store, &mut o, "sbx-tracked", "session-a"),
        Ok(true)
    );
    assert!(o.take_owned().is_empty());
}

#[test]
fn a_superseded_session_withdraw_does_not_untrack_the_new_row() {
    let mut store = Store::new();
    let mut o = liveness("replica-1", "a:1", LIVENESS_TTL);
    announce(&mut store, &mut o, "sbx-retrack", "session-old").unwrap();
    announce(&mut store, &mut o, "sbx-retrack", "session-new").unwrap();
    assert_eq!(
        withdraw(&mut store, &mut o, "sbx-retrack", "session-old"),
        Ok(false)
    );
    assert_eq!(
        release_all(&mut store, &mut o),
        ReleaseAllSummary {
            released: 1,
            skipped: 0,
            failed: 0,
        }
    );
    assert!(own(&store, &o, "sbx-retrack").is_none());
}

#[test]
fn an_announcement_gives_up_after_its_attempts() {
    let mut o = liveness("replica-1", "a:1", LIVENESS_TTL);
    for failed in 0..ANNOUNCE_CAS_ATTEMPTS - 1 {
        assert_eq!(
            o.announce("sbx", "s", failed, Err(LivenessError::Conflict)),
            AnnounceStep::ReadAgain
        );
    }
    let error = match o.announce(
        "sbx",
        "s",
        ANNOUNCE_CAS_ATTEMPTS - 1,
        o_put_taken(),
    ) {
        AnnounceStep::Failed(error) => error,
        other => panic!("must give up: {other:?}"),
    };
    assert_eq!(error, LivenessError::Contended { attempts: 8 });
    assert_eq!(
        error.message(),
        "gave up claiming liveness after 8 attempts"
    );
    assert!(o.take_owned().is_empty());
}

fn o_put_taken() -> Result<u64, LivenessError> {
    let error = liveness("replica-1", "a:1", LIVENESS_TTL)
        .put_outcome("sbx", Err(persistence(PersistenceErrorKind::UniqueViolation)));
    assert_eq!(
        error,
        Err(LivenessError::KeyTaken {
            key: "supervisor-session-liveness:sbx:replica-1".to_string()
        })
    );
    error
}

#[test]
fn a_failing_store_ends_an_announcement_at_once() {
    let mut o = liveness("replica-1", "a:1", LIVENESS_TTL);
    let written = o.put_outcome("sbx", Err(persistence(PersistenceErrorKind::Encode)));
    match o.announce("sbx", "s", 0, written) {
        AnnounceStep::Failed(error) => {
            assert_eq!(error.message(), "persistence error: from the store");
        }
        other => panic!("must fail: {other:?}"),
    }
}

#[test]
fn errors_are_told_in_words() {
    assert_eq!(
        LivenessError::KeyTaken {
            key: "k".to_string()
        }
        .message(),
        "an objects row already exists with liveness key k"
    );
    assert_eq!(
        LivenessError::Conflict.message(),
        "liveness record changed between our read and our write"
    );
    assert_eq!(
        delete_outcome(Err(persistence(PersistenceErrorKind::Conflict))),
        Err(LivenessError::Conflict)
    );
    assert_eq!(
        delete_outcome(Err(persistence(PersistenceErrorKind::UniqueViolation))),
        Err(LivenessError::Store(persistence(
            PersistenceErrorKind::UniqueViolation
        )))
    );
}
