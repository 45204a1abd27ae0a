use openshell::endpoint_path::matches_given;
use openshell::fleet_dns::{
    after_check, after_server, check_reply, configured_servers, exchange, nameserver_fields,
    nameservers, new_request, no_nameserver, parse, read_address, request_with_id, require_server,
    servers_given, resolve_question, settle, tcp_frame_length, tcp_reply_length, DnsError,
    DnsErrorKind, DnsMessage, DnsQuestion, ExchangeStep, Nameserver, DNS_PORT, MAX_MESSAGE_BYTES,
};
use openshell::gateway_channels::{
    established, register, rotate_for_spread, withdraw, AttemptStep, Attempts, GatewayChannel,
    LiveChannels,
};
use openshell::gateway_fleet::{
    member_address, member_score, membership_query, resolved_members, subset_for, FleetConfig,
    DEFAULT_DRAIN, DEFAULT_REFRESH, DEFAULT_SUBSET_SIZE,
};

use hickory_proto::op::{Message, MessageType, OpCode, ResponseCode};
use hickory_proto::rr::rdata::A;
use hickory_proto::rr::{RData, Record};
use sha2::{Digest, Sha256};

// Endpoint paths.

#[test]
fn matches_canonical_endpoint_patterns() {
    assert!(openshell::endpoint_path::matches("", "/v1/messages"));
    assert!(openshell::endpoint_path::matches("/**", "/v1/messages"));
    assert!(openshell::endpoint_path::matches("/v1/**", "/v1"));
    assert!(openshell::endpoint_path::matches("/v1/**", "/v1/messages"));
    assert!(openshell::endpoint_path::matches("/v*/messages", "/v1/messages"));
    assert!(openshell::endpoint_path::matches("/v1/*", "/v1/chat/messages"));
    assert!(!openshell::endpoint_path::matches("/v1/**", "/v2/messages"));
    assert!(!openshell::endpoint_path::matches("/v1/*/messages", "/v1/chat/completions"));
}

#[test]
fn a_malformed_pattern_selects_only_itself() {
    assert!(!openshell::endpoint_path::matches("/v1/[", "/v1/a"));
    assert!(openshell::endpoint_path::matches("/v1/[", "/v1/["));
    assert!(!openshell::endpoint_path::matches("/v1/***", "/v1/a"));
}

#[test]
fn a_descendant_pattern_needs_a_whole_component() {
    assert!(!openshell::endpoint_path::matches("/v1/**", "/v10"));
    assert!(!openshell::endpoint_path::matches("/v1/**", "/v"));
    assert!(openshell::endpoint_path::matches("/v1/**", "/v1/"));
}

#[test]
fn what_the_glob_says_counts_only_for_other_patterns() {
    assert!(matches_given("/a*", "/b", Some(true)));
    assert!(!matches_given("/a*", "/b", Some(false)));
    assert!(!matches_given("/a*", "/b", None));
    assert!(!matches_given("/a/**", "/b", Some(true)));
    assert!(matches_given("**", "/b", Some(false)));
}

// Nameservers.

fn server(octets: &[u8]) -> Nameserver {
    Nameserver {
        octets: octets.to_vec(),
        port: 53,
    }
}

#[test]
fn reads_nameservers_in_order_ignoring_everything_else() {
    let config = "\
# generated by the kubelet
search sandbox.svc.cluster.local svc.cluster.local
nameserver 10.43.0.10
nameserver 10.43.0.11 ; a second one
options ndots:5
nameserver not-an-address
";
    assert_eq!(
        nameservers(config),
        vec![server(&[10, 43, 0, 10]), server(&[10, 43, 0, 11])],
        "only nameserver lines, in order, and an unparseable one is skipped"
    );
    assert_eq!(
        nameserver_fields(config),
        vec!["10.43.0.10", "10.43.0.11", "not-an-address"]
    );
    assert_eq!(DNS_PORT, 53);
}

#[test]
fn addresses_of_both_versions_are_read() {
    assert_eq!(read_address("192.0.2.7"), Some(vec![192, 0, 2, 7]));
    let mut octets = vec![0_u8; 16];
    octets[0] = 0xfd;
    octets[15] = 0x53;
    assert_eq!(read_address("fd00::53"), Some(octets));
    for text in ["", "10.43.0", "10.43.0.256", "10.43.0.010", "::1%eth0", "[::1]", "10.0.0.1:53"] {
        assert_eq!(read_address(text), None, "{text}");
    }
}

#[test]
fn what_was_no_address_is_no_nameserver() {
    assert_eq!(
        servers_given(&vec![None, Some(vec![10, 0, 0, 1]), None, Some(vec![10, 0, 0, 2])]),
        vec![server(&[10, 0, 0, 1]), server(&[10, 0, 0, 2])]
    );
    assert!(servers_given(&vec![None]).is_empty());
}

#[test]
fn no_usable_nameserver_is_an_error() {
    let error = configured_servers("nameserver not-an-address\n").expect_err("no address");
    assert_eq!(error, no_nameserver());
    assert_eq!(require_server(Vec::new()), Err(no_nameserver()));
    assert_eq!(
        configured_servers("nameserver 10.43.0.10\n"),
        Ok(vec![server(&[10, 43, 0, 10])])
    );
}

#[test]
fn a_commented_out_nameserver_is_not_a_nameserver() {
    assert!(nameservers("#nameserver 10.43.0.10\n").is_empty());
}

#[test]
fn a_nameserver_line_needs_an_address() {
    assert!(nameservers("nameserver\n").is_empty());
    assert!(nameservers("nameserver # 10.43.0.10\n").is_empty());
    let mut loopback = vec![0_u8; 16];
    loopback[15] = 1;
    assert_eq!(
        nameservers("\tnameserver\t::1\r\n"),
        vec![server(&loopback)]
    );
    assert!(nameservers("").is_empty());
}

#[test]
fn a_configuration_without_nameservers_is_told() {
    let error = no_nameserver();
    assert_eq!(error.kind, DnsErrorKind::NotFound);
    assert_eq!(error.message, "/etc/resolv.conf lists no nameserver");
}

// Queries and replies.

const NAME: &str = "Openshell-Headless.sandbox.svc.cluster.local.";

fn question() -> DnsQuestion {
    resolve_question(NAME).expect("an ordinary name")
}

fn answer(request: &Message, addresses: &[[u8; 4]]) -> Message {
    let query = request.queries[0].clone();
    let mut reply = Message::query();
    reply.metadata.id = request.metadata.id;
    reply.metadata.message_type = MessageType::Response;
    reply.metadata.op_code = OpCode::Query;
    reply.queries.push(query.clone());
    for address in addresses {
        reply.answers.push(Record::from_rdata(
            query.name.clone(),
            30,
            RData::A(A::new(address[0], address[1], address[2], address[3])),
        ));
    }
    reply
}

fn asked() -> (DnsQuestion, u16, Message) {
    let question = question();
    let request = new_request(&question).expect("an ordinary question");
    let message = Message::from_vec(&request.wire).expect("a well-formed query");
    (question, request.id, message)
}

#[test]
fn a_question_is_for_the_addresses_of_the_name_in_lower_case() {
    let question = question();
    assert_eq!(question.labels[0], b"openshell-headless".to_vec());
    assert_eq!(question.labels.len(), 5);
    assert!(question.absolute);
    assert_eq!((question.query_type, question.query_class), (1, 1));
}

#[test]
fn a_text_that_is_no_name_is_invalid_input() {
    let error = resolve_question("a..b.").expect_err("an empty label");
    assert_eq!(error.kind, DnsErrorKind::InvalidInput);
}

#[test]
fn a_query_carries_its_identifier_and_its_question() {
    let request = request_with_id(0x1234, &question()).expect("an ordinary question");
    assert_eq!(request.id, 0x1234);
    assert_eq!(request.wire[..4], [0x12, 0x34, 0x01, 0x00]);
    let message = Message::from_vec(&request.wire).expect("a well-formed query");
    assert_eq!(message.metadata.id, 0x1234);
    assert!(message.metadata.recursion_desired);
    assert_eq!(message.queries.len(), 1);
    assert_eq!(
        message.queries[0].name.to_string(),
        "openshell-headless.sandbox.svc.cluster.local."
    );
}

#[test]
fn a_question_that_cannot_be_encoded_is_invalid_data() {
    let question = DnsQuestion {
        labels: vec![vec![b'a'; 64]],
        absolute: true,
        query_type: 1,
        query_class: 1,
    };
    let error = request_with_id(1, &question).expect_err("a label that is too long");
    assert_eq!(error.kind, DnsErrorKind::InvalidData);
}

#[test]
fn resolves_the_a_records_the_nameserver_returns() {
    let (question, id, request) = asked();
    let reply = answer(&request, &[[10, 42, 0, 5], [10, 42, 0, 7]]);
    let step = exchange("10.43.0.10:53", &reply.to_vec().unwrap(), id, &question, false);
    assert_eq!(
        step,
        ExchangeStep::Done(Ok(vec!["10.42.0.5".to_string(), "10.42.0.7".to_string()]))
    );
}

#[test]
fn a_name_nobody_publishes_is_not_an_empty_fleet() {
    let (question, id, request) = asked();
    let mut reply = answer(&request, &[]);
    reply.metadata.response_code = ResponseCode::NXDomain;
    match exchange("10.43.0.10:53", &reply.to_vec().unwrap(), id, &question, false) {
        ExchangeStep::Done(Err(error)) => {
            assert_eq!(error.kind, DnsErrorKind::Other);
            assert_eq!(
                error.message,
                "nameserver 10.43.0.10:53 answered Non-Existent Domain"
            );
        }
        other => panic!("a name that does not exist must not read as nobody there: {other:?}"),
    }
}

#[test]
fn a_name_that_answers_with_no_addresses_is_an_empty_fleet() {
    let (question, id, request) = asked();
    let reply = answer(&request, &[]);
    assert_eq!(
        exchange("server", &reply.to_vec().unwrap(), id, &question, false),
        ExchangeStep::Done(Ok(vec![]))
    );
}

#[test]
fn a_reply_to_a_different_question_is_rejected() {
    let (question, id, request) = asked();
    let mut reply = answer(&request, &[[10, 42, 0, 5]]);
    reply.metadata.id = request.metadata.id.wrapping_add(1);
    match exchange("server", &reply.to_vec().unwrap(), id, &question, false) {
        ExchangeStep::Done(Err(error)) => {
            assert_eq!(error.kind, DnsErrorKind::InvalidData);
            assert_eq!(error.message, "nameserver answered a different question");
        }
        other => panic!("a mismatched id must not become fleet membership: {other:?}"),
    }
}

#[test]
fn a_query_or_another_name_is_no_answer() {
    let (question, id, request) = asked();
    assert!(parse(&request.to_vec().unwrap(), id, &question).is_err());

    let other = resolve_question("other.svc.cluster.local.").unwrap();
    let reply = answer(&request, &[[10, 42, 0, 5]]).to_vec().unwrap();
    assert!(parse(&reply, id, &question).is_ok());
    assert!(parse(&reply, id, &other).is_err());
}

#[test]
fn an_answer_may_spell_the_name_in_another_case() {
    let message = DnsMessage {
        id: 7,
        response: true,
        op_code: 0,
        truncated: false,
        response_code: 0,
        questions: vec![DnsQuestion {
            labels: vec![b"AB".to_vec()],
            absolute: true,
            query_type: 1,
            query_class: 1,
        }],
        answers: vec![],
    };
    let asked = DnsQuestion {
        labels: vec![b"ab".to_vec()],
        absolute: true,
        query_type: 1,
        query_class: 1,
    };
    assert!(check_reply(Ok(message), 7, &asked).is_ok());
}

#[test]
fn what_is_no_message_or_too_large_is_refused() {
    let (question, id, _) = asked();
    let error = parse(&vec![1, 2, 3], id, &question).expect_err("three bytes");
    assert_eq!(error.kind, DnsErrorKind::InvalidData);
    let error = parse(&vec![0; MAX_MESSAGE_BYTES + 1], id, &question).expect_err("too large");
    assert_eq!(error.kind, DnsErrorKind::Other);
    assert_eq!(error.message, "DNS reply exceeded the size bound");
}

#[test]
fn a_truncated_reply_is_asked_for_again_over_tcp() {
    let (question, id, request) = asked();
    let mut reply = answer(&request, &[[10, 42, 0, 5]]);
    reply.metadata.truncation = true;
    let wire = reply.to_vec().unwrap();
    assert_eq!(
        exchange("server", &wire, id, &question, false),
        ExchangeStep::RetryOverTcp
    );
    assert_eq!(
        exchange("server", &wire, id, &question, true),
        ExchangeStep::Done(Ok(vec!["10.42.0.5".to_string()]))
    );
}

#[test]
fn only_address_records_become_addresses() {
    let message = DnsMessage {
        id: 1,
        response: true,
        op_code: 0,
        truncated: false,
        response_code: 0,
        questions: vec![],
        answers: vec![None, Some((10, 0, 255, 1)), None],
    };
    assert_eq!(settle("server", &message), Ok(vec!["10.0.255.1".to_string()]));
    assert_eq!(
        after_check("server", Ok(message), false),
        ExchangeStep::Done(Ok(vec!["10.0.255.1".to_string()]))
    );
}

#[test]
fn lengths_over_tcp_are_bounded() {
    assert_eq!(tcp_frame_length(65535), Ok(65535));
    assert_eq!(
        tcp_frame_length(65536).expect_err("too long").message,
        "DNS query too large for TCP"
    );
    assert_eq!(tcp_reply_length(8192), Ok(8192));
    assert_eq!(
        tcp_reply_length(8193).expect_err("too long").message,
        "DNS reply exceeded the size bound"
    );
}

#[test]
fn falls_through_to_the_next_nameserver() {
    let refused = || DnsError {
        kind: DnsErrorKind::Other,
        message: "refused".to_string(),
    };
    assert_eq!(after_server(Err(refused()), 1), None);
    assert_eq!(after_server(Err(refused()), 0), Some(Err(refused())));
    assert_eq!(
        after_server(Ok(vec!["10.42.0.9".to_string()]), 3),
        Some(Ok(vec!["10.42.0.9".to_string()]))
    );
}

// Established channels.

fn channel(endpoint: &str, connection: u64) -> GatewayChannel {
    GatewayChannel {
        endpoint: endpoint.to_string(),
        connection,
    }
}

#[test]
fn spreads_consecutive_borrows_across_members() {
    let mut next_start = 0;
    let firsts: Vec<&str> = (0..3)
        .map(|_| {
            let mut members = vec!["a", "b", "c"];
            rotate_for_spread(&mut next_start, &mut members);
            members[0]
        })
        .collect();

    assert_eq!(firsts.len(), 3);
    assert_eq!(
        firsts
            .iter()
            .collect::<std::collections::HashSet<_>>()
            .len(),
        3,
        "three consecutive borrows should touch three different gateways, got {firsts:?}"
    );
}

#[test]
fn established_channels_are_ordered_and_rotate() {
    let mut channels = LiveChannels::new();
    assert!(established(&mut channels).is_empty());
    register(&mut channels, channel("b", 2));
    register(&mut channels, channel("c", 3));
    register(&mut channels, channel("a", 1));
    assert_eq!(
        established(&mut channels),
        vec![channel("a", 1), channel("b", 2), channel("c", 3)]
    );
    assert_eq!(
        established(&mut channels),
        vec![channel("b", 2), channel("c", 3), channel("a", 1)]
    );

    withdraw(&mut channels, "b");
    register(&mut channels, channel("a", 9));
    assert_eq!(
        established(&mut channels),
        vec![channel("a", 9), channel("c", 3)]
    );
}

#[test]
fn the_cursor_wraps_around() {
    let mut next_start = usize::MAX;
    let mut members = vec![1, 2];
    rotate_for_spread(&mut next_start, &mut members);
    assert_eq!(members, vec![2, 1]);
    assert_eq!(next_start, 0);
    let mut none: Vec<u8> = vec![];
    rotate_for_spread(&mut next_start, &mut none);
    assert_eq!(next_start, 0);
}

#[test]
fn moves_past_a_gateway_that_does_not_answer() {
    let (mut attempts, step) = Attempts::begin("poll", 2);
    assert_eq!(step, AttemptStep::Ask(0));
    assert_eq!(
        attempts.failed("connection refused".to_string()),
        AttemptStep::Ask(1)
    );
}

#[test]
fn reports_the_last_error_when_none_answer() {
    let (mut attempts, _) = Attempts::begin("poll", 2);
    attempts.failed("a refused".to_string());
    assert_eq!(
        attempts.failed("b refused".to_string()),
        AttemptStep::GiveUp("b refused".to_string())
    );
}

#[test]
fn distinguishes_having_no_sessions_at_all() {
    let (_, step) = Attempts::begin("poll", 0);
    assert_eq!(
        step,
        AttemptStep::NoSession("poll: no gateway session is established yet".to_string())
    );
}

// Membership and subsets.

fn members(count: usize) -> Vec<String> {
    (1..=count)
        .map(|i| {
            member_address(
                &format!("10.42.0.{i}"),
                "openshell-headless.sandbox.svc.cluster.local",
                8080,
            )
        })
        .collect()
}

#[test]
fn member_address_matches_the_kubernetes_per_pod_record_shape() {
    assert_eq!(
        member_address(
            "10.42.0.150",
            "openshell-headless.sandbox.svc.cluster.local",
            8080
        ),
        "10-42-0-150.openshell-headless.sandbox.svc.cluster.local:8080"
    );
}

#[test]
fn member_address_normalizes_the_dns_name() {
    let canonical = member_address("10.42.0.1", "openshell-headless.ns.svc", 80);
    assert_eq!(
        member_address("10.42.0.1", " openshell-headless.ns.svc. ", 80),
        canonical
    );
}

#[test]
fn subset_is_the_requested_size_and_drawn_from_the_members() {
    let members = members(5);
    let subset = subset_for("sbx-1", &members, 2);
    assert_eq!(subset.len(), 2);
    assert_ne!(subset[0], subset[1]);
    for member in &subset {
        assert!(members.contains(member));
    }
}

#[test]
fn subset_is_stable_for_the_same_inputs() {
    let members = members(5);
    assert_eq!(
        subset_for("sbx-1", &members, 2),
        subset_for("sbx-1", &members, 2)
    );
}

#[test]
fn subset_ignores_member_ordering() {
    let members = members(5);
    let mut reversed = members.clone();
    reversed.reverse();
    assert_eq!(
        subset_for("sbx-1", &members, 2),
        subset_for("sbx-1", &reversed, 2)
    );
}

#[test]
fn subset_saturates_at_the_fleet_size() {
    let members = members(2);
    assert_eq!(subset_for("sbx-1", &members, 5).len(), 2);
    assert!(subset_for("sbx-1", &[], 2).is_empty());
}

#[test]
fn removing_one_member_moves_at_most_one_subset_entry() {
    let members = members(6);
    for id in 0..200 {
        let sandbox_id = format!("sbx-{id}");
        let before = subset_for(&sandbox_id, &members, 3);
        for removed in 0..members.len() {
            let mut smaller = members.clone();
            smaller.remove(removed);
            let after = subset_for(&sandbox_id, &smaller, 3);
            let departed = before.iter().filter(|m| !after.contains(m)).count();
            assert!(
                departed <= 1,
                "removing {} moved {departed} entries for {sandbox_id}",
                members[removed]
            );
        }
    }
}

#[test]
fn subsets_spread_across_the_fleet() {
    let members = members(6);
    let mut counts = std::collections::HashMap::new();
    for id in 0..600 {
        for member in subset_for(&format!("sbx-{id}"), &members, 2) {
            *counts.entry(member).or_insert(0usize) += 1;
        }
    }
    assert_eq!(counts.len(), members.len());
    for (member, count) in counts {
        assert!(
            (100..=320).contains(&count),
            "{member} took {count} of 1200 slots"
        );
    }
}

#[test]
fn member_score_is_the_documented_digest_prefix() {
    assert_eq!(member_score("gateway-a", "sbx-1"), {
        let mut hasher = Sha256::new();
        hasher.update(b"gateway-a\0sbx-1");
        let digest = hasher.finalize();
        u64::from_be_bytes(digest[..8].try_into().unwrap())
    });
    assert_eq!(member_score("gateway-a", "sbx-1"), 0xf12d_f8d3_97ef_58e6);
}

#[test]
fn member_and_sandbox_id_cannot_straddle_the_separator() {
    assert_ne!(member_score("ab", "c"), member_score("a", "bc"));
}

#[test]
fn no_fleet_dns_name_means_single_endpoint_mode() {
    assert!(FleetConfig::from_values(None, None, None, None, 8080).is_none());
    assert!(FleetConfig::from_values(Some("  "), None, None, None, 8080).is_none());
}

#[test]
fn fleet_config_defaults_the_tuning_values() {
    let config =
        FleetConfig::from_values(Some("openshell-headless.ns.svc"), None, None, None, 8080)
            .expect("dns name given");
    assert_eq!(config.subset_size, DEFAULT_SUBSET_SIZE);
    assert_eq!(config.refresh, DEFAULT_REFRESH);
    assert_eq!(config.drain, DEFAULT_DRAIN);
    assert_eq!(
        (DEFAULT_SUBSET_SIZE, DEFAULT_REFRESH, DEFAULT_DRAIN),
        (2, 20, 120)
    );
}

#[test]
fn fleet_config_falls_back_on_unusable_tuning_values() {
    let config = FleetConfig::from_values(
        Some("openshell-headless.ns.svc"),
        Some("nonsense"),
        Some("0"),
        Some("-1"),
        8080,
    )
    .expect("dns name given");
    assert_eq!(config.subset_size, DEFAULT_SUBSET_SIZE);
    assert_eq!(config.refresh, DEFAULT_REFRESH);
    assert_eq!(config.drain, DEFAULT_DRAIN);
}

#[test]
fn fleet_config_accepts_a_zero_drain() {
    let config = FleetConfig::from_values(
        Some("openshell-headless.ns.svc"),
        None,
        None,
        Some("0"),
        8080,
    )
    .expect("dns name given");
    assert_eq!(config.drain, 0);
}

#[test]
fn fleet_config_takes_what_is_set() {
    let config = FleetConfig::from_values(
        Some(" .gw.ns.svc. "),
        Some(" 3 "),
        Some("+7"),
        Some("18446744073709551615"),
        9090,
    )
    .expect("dns name given");
    assert_eq!(
        config,
        FleetConfig {
            dns_name: "gw.ns.svc".to_string(),
            port: 9090,
            subset_size: 3,
            refresh: 7,
            drain: u64::MAX,
        }
    );
    let config = FleetConfig::from_values(
        Some("gw"),
        Some("+"),
        Some(""),
        Some("18446744073709551616"),
        9090,
    )
    .expect("dns name given");
    assert_eq!((config.subset_size, config.refresh, config.drain), (2, 20, 120));
}

#[test]
fn subset_for_reproduces_the_golden_vectors() {
    let members: Vec<String> = (1..=7)
        .map(|i| format!("10-42-0-{i}.openshell-headless.sandbox.svc.cluster.local:8080"))
        .collect();
    let long = "x".repeat(64);
    let vectors: Vec<(&str, [usize; 3])> = vec![
        ("sbx-1", [5, 2, 7]),
        ("sbx-abc", [5, 1, 7]),
        ("9f3c-4d2e", [3, 6, 1]),
        ("", [1, 3, 4]),
        (&long, [6, 1, 5]),
    ];
    let mut checked = 0;
    for (sandbox_id, expected) in vectors {
        for subset_size in [1usize, 2, 3] {
            let wanted: Vec<String> = expected[..subset_size]
                .iter()
                .map(|i| members[i - 1].clone())
                .collect();
            assert_eq!(
                subset_for(sandbox_id, &members, subset_size),
                wanted,
                "subset drifted for {sandbox_id}/{subset_size}"
            );
            checked += 1;
        }
    }
    assert_eq!(checked, 15);
}

#[test]
fn members_are_sorted_and_listed_once() {
    let addresses = vec![
        "10.42.0.7".to_string(),
        "10.42.0.5".to_string(),
        "10.42.0.7".to_string(),
    ];
    assert_eq!(
        resolved_members(&addresses, "gw.ns.svc.", 8080),
        vec!["10-42-0-5.gw.ns.svc:8080", "10-42-0-7.gw.ns.svc:8080"]
    );
    assert!(resolved_members(&vec![], "gw.ns.svc", 8080).is_empty());
    assert_eq!(membership_query(" gw.ns.svc. "), "gw.ns.svc.");
}

#[test]
fn the_entries_that_stay_keep_their_order() {
    let members: Vec<String> = (0..8).map(|i| format!("10.0.0.{i}:8080")).collect();
    for removed in 0..members.len() {
        let mut fewer = members.clone();
        let gone = fewer.remove(removed);
        let before = subset_for("sandbox-order", &members, 4);
        let after = subset_for("sandbox-order", &fewer, 4);
        let stayed: Vec<String> = before.iter().filter(|m| **m != gone).cloned().collect();
        assert_eq!(after[..stayed.len()], stayed[..]);
        assert_eq!(after.len(), 4);
    }
}
