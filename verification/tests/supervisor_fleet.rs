use openshell::gateway_fleet::{subset_for, FleetConfig};
use openshell::string_map::StringMap;
use openshell::supervisor_fleet::{
    current_subset, endpoint_for_attempt, endpoint_shape, fleet_plan, member_endpoint,
    publish_subset, reap_drained, reconcile, run_round, unary_endpoint, FleetPlan, HeldSession,
    RESOLVE_RETRY,
};

fn texts(items: &[&str]) -> Vec<String> {
    items.iter().map(|item| item.to_string()).collect()
}

#[test]
fn endpoint_shape_reuses_the_configured_scheme_and_port() {
    assert_eq!(
        endpoint_shape("https://openshell.sandbox.svc.cluster.local:8080"),
        Some(("https".to_string(), 8080))
    );
    assert_eq!(
        endpoint_shape("http://openshell:9090/"),
        Some(("http".to_string(), 9090))
    );
}

#[test]
fn endpoint_shape_rejects_an_endpoint_it_cannot_rebuild() {
    assert_eq!(endpoint_shape("https://openshell"), None);
    assert_eq!(endpoint_shape("openshell:8080"), None);
    assert_eq!(endpoint_shape("https://openshell:notaport"), None);
}

#[test]
fn endpoint_shape_takes_the_last_colon_before_the_path() {
    assert_eq!(
        endpoint_shape("https://[fd00::1]:443/a:b/c"),
        Some(("https".to_string(), 443))
    );
    assert_eq!(endpoint_shape("https://host/a:80"), None);
    assert_eq!(endpoint_shape("a://b://c:1"), None);
    assert_eq!(endpoint_shape("https://host:65536"), None);
    assert_eq!(
        endpoint_shape("https://host:65535"),
        Some(("https".to_string(), 65535))
    );
    assert_eq!(endpoint_shape("://"), None);
    assert_eq!(endpoint_shape(""), None);
}

#[test]
fn member_endpoint_keeps_the_scheme() {
    assert_eq!(
        member_endpoint("https", "10-42-0-1.openshell-headless.ns.svc:8080"),
        "https://10-42-0-1.openshell-headless.ns.svc:8080"
    );
}

#[test]
fn endpoint_for_attempt_rotates_over_the_subset_and_never_invents_one() {
    let mut current = current_subset();
    publish_subset(&mut current, Vec::new());
    assert_eq!(endpoint_for_attempt(&current, 0), None);

    publish_subset(
        &mut current,
        vec![
            "https://a:8080".to_string(),
            "https://b:8080".to_string(),
        ],
    );
    assert_eq!(
        endpoint_for_attempt(&current, 0),
        Some("https://a:8080".to_string())
    );
    assert_eq!(
        endpoint_for_attempt(&current, 1),
        Some("https://b:8080".to_string())
    );
    assert_eq!(
        endpoint_for_attempt(&current, 2),
        Some("https://a:8080".to_string())
    );

    publish_subset(&mut current, Vec::new());
    assert_eq!(endpoint_for_attempt(&current, 0), None);
}

#[test]
fn a_fleet_needs_a_name_and_a_reusable_endpoint() {
    assert_eq!(
        fleet_plan("https://gw", Some("gw.ns.svc"), None, None, None),
        FleetPlan::Single("https://gw".to_string())
    );
    assert_eq!(
        fleet_plan("https://gw:8080", None, None, None, None),
        FleetPlan::Single("https://gw:8080".to_string())
    );
    assert_eq!(
        fleet_plan("https://gw:8080", Some("gw.ns.svc"), Some("3"), None, Some("0")),
        FleetPlan::Fleet {
            scheme: "https".to_string(),
            config: FleetConfig {
                dns_name: "gw.ns.svc".to_string(),
                port: 8080,
                subset_size: 3,
                refresh: 20,
                drain: 0,
            },
        }
    );
}

#[test]
fn a_request_before_any_session_goes_round_the_subset() {
    let members = texts(&["a:8080", "b:8080", "c:8080"]);
    let subset = subset_for("sbx-1", &members, 2);
    for attempt in 0..4 {
        assert_eq!(
            unary_endpoint("https", "sbx-1", &Ok(members.clone()), 2, attempt),
            Some(format!("https://{}", subset[attempt % 2]))
        );
    }
    assert_eq!(
        unary_endpoint("https", "sbx-1", &Ok(members.clone()), 0, 4),
        Some("https://b:8080".to_string())
    );
    assert_eq!(unary_endpoint("https", "sbx-1", &Ok(vec![]), 2, 0), None);
    assert_eq!(
        unary_endpoint("https", "sbx-1", &Err("no".to_string()), 2, 0),
        None
    );
}

fn drop_at(held: &StringMap<HeldSession>, member: &str) -> Option<Option<u128>> {
    held.get(member).map(|session| session.drop_at)
}

const TWO_MINUTES: u128 = 120_000_000_000;

#[test]
fn reconcile_connects_to_arrivals() {
    let mut held = StringMap::new();
    let connect = reconcile(&texts(&["a:8080", "b:8080"]), TWO_MINUTES, 0, &mut held);
    assert_eq!(connect, texts(&["a:8080", "b:8080"]));
    assert_eq!(held.len(), 2);
    assert_eq!(drop_at(&held, "a:8080"), Some(None));
    assert_eq!(drop_at(&held, "b:8080"), Some(None));
    assert!(reconcile(&texts(&["b:8080", "a:8080"]), TWO_MINUTES, 9, &mut held).is_empty());
}

#[test]
fn reconcile_holds_a_departed_member_before_dropping_it() {
    let mut held = StringMap::new();
    reconcile(&texts(&["a:8080", "b:8080"]), TWO_MINUTES, 0, &mut held);
    let connect = reconcile(&texts(&["b:8080", "c:8080"]), TWO_MINUTES, 50, &mut held);
    assert_eq!(connect, texts(&["c:8080"]));

    assert_eq!(held.len(), 3);
    assert_eq!(
        drop_at(&held, "a:8080"),
        Some(Some(50 + TWO_MINUTES)),
        "departed member must drain"
    );
    assert_eq!(drop_at(&held, "b:8080"), Some(None));
    assert_eq!(drop_at(&held, "c:8080"), Some(None));

    assert!(reap_drained(60, &mut held).is_empty());
    assert_eq!(held.len(), 3, "the drain window has not passed");
}

#[test]
fn a_deadline_is_set_once() {
    let mut held = StringMap::new();
    reconcile(&texts(&["a:8080"]), TWO_MINUTES, 0, &mut held);
    reconcile(&texts(&["b:8080"]), TWO_MINUTES, 10, &mut held);
    reconcile(&texts(&["c:8080"]), TWO_MINUTES, 20, &mut held);
    assert_eq!(drop_at(&held, "a:8080"), Some(Some(10 + TWO_MINUTES)));
    assert_eq!(drop_at(&held, "b:8080"), Some(Some(20 + TWO_MINUTES)));
}

#[test]
fn reap_drained_drops_a_member_once_its_window_passes() {
    let mut held = StringMap::new();
    reconcile(&texts(&["a:8080"]), 0, 0, &mut held);
    reconcile(&texts(&["b:8080"]), 0, 5, &mut held);
    assert_eq!(reap_drained(5, &mut held), texts(&["a:8080"]));
    assert_eq!(held.len(), 1);
    assert!(held.contains_key("b:8080"));
}

#[test]
fn reconcile_cancels_a_pending_drop_when_a_member_returns() {
    let mut held = StringMap::new();
    reconcile(&texts(&["a:8080"]), TWO_MINUTES, 0, &mut held);
    reconcile(&texts(&["b:8080"]), TWO_MINUTES, 1, &mut held);
    assert!(drop_at(&held, "a:8080").unwrap().is_some());

    let connect = reconcile(&texts(&["a:8080"]), TWO_MINUTES, 2, &mut held);
    assert!(connect.is_empty());
    assert_eq!(drop_at(&held, "a:8080"), Some(None));
    assert_eq!(held.len(), 2);
}

#[test]
fn rounds_act_on_membership_and_never_on_ignorance() {
    let fleet = FleetConfig {
        dns_name: "gw.ns.svc".to_string(),
        port: 8080,
        subset_size: 2,
        refresh: 20,
        drain: 120,
    };
    let mut held = StringMap::new();
    let mut current = current_subset();
    let members = texts(&["a:8080", "b:8080", "c:8080"]);
    let subset = subset_for("sbx-1", &members, 2);
    let round = run_round(
        &Ok(members),
        &fleet,
        "https",
        "sbx-1",
        0,
        1,
        &mut held,
        &mut current,
    );
    assert_eq!(round.connect, subset);
    assert!(round.dropped.is_empty());
    assert_eq!(round.wait, 20);
    let published: Vec<String> = subset.iter().map(|m| format!("https://{m}")).collect();
    assert_eq!(current.endpoints, published);

    for resolved in [Ok(vec![]), Err("no answer".to_string())] {
        let round = run_round(
            &resolved,
            &fleet,
            "https",
            "sbx-1",
            10,
            1_000_000_000_000,
            &mut held,
            &mut current,
        );
        assert!(round.connect.is_empty());
        assert!(round.dropped.is_empty());
        assert_eq!(round.wait, RESOLVE_RETRY);
        assert_eq!(held.len(), 2);
        assert_eq!(current.endpoints, published);
    }

    let round = run_round(
        &Ok(texts(&["d:8080"])),
        &fleet,
        "https",
        "sbx-1",
        2_000_000_000,
        2_000_000_000,
        &mut held,
        &mut current,
    );
    assert_eq!(round.connect, texts(&["d:8080"]));
    assert_eq!(held.len(), 3);
    for (at, dropped) in [(121_999_999_999, 0), (122_000_000_000, 2)] {
        let round = run_round(
            &Err("no answer".to_string()),
            &fleet,
            "https",
            "sbx-1",
            at,
            at,
            &mut held,
            &mut current,
        );
        assert_eq!(round.dropped.len(), dropped);
        assert_eq!(held.len(), 3 - dropped);
    }
}
