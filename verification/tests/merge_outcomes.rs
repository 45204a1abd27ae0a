use openshell::merge::{
    generated_rule_name, is_provider_rule_name, merge_policy, policy_covers_rule, PolicyMergeResult,
};
use openshell::merge_types::{PolicyMergeError, PolicyMergeOp, PolicyMergeWarning};
use openshell::policy::{
    FilesystemPolicy, L7Allow, L7DenyRule, L7Rule, LandlockPolicy, McpOptions, NetworkBinary,
    NetworkEndpoint, NetworkPolicyRule, ProcessPolicy, SandboxPolicy,
};

fn endpoint(host: &str, ports: &[u32]) -> NetworkEndpoint {
    NetworkEndpoint {
        host: host.to_string(),
        ports: ports.to_vec(),
        ..Default::default()
    }
}

fn rule(endpoints: Vec<NetworkEndpoint>, binaries: &[&str]) -> NetworkPolicyRule {
    NetworkPolicyRule {
        name: String::new(),
        endpoints,
        binaries: binaries
            .iter()
            .map(|path| NetworkBinary {
                path: path.to_string(),
                harness: false,
            })
            .collect(),
    }
}

fn allow(method: &str, path: &str) -> L7Rule {
    L7Rule {
        allow: Some(L7Allow {
            method: method.to_string(),
            path: path.to_string(),
            ..Default::default()
        }),
    }
}

fn deny(method: &str) -> L7DenyRule {
    L7DenyRule {
        method: method.to_string(),
        ..Default::default()
    }
}

fn policy(rules: Vec<(&str, NetworkPolicyRule)>) -> SandboxPolicy {
    let mut policy = SandboxPolicy {
        version: 3,
        filesystem: Some(FilesystemPolicy {
            include_workdir: true,
            read_only: vec!["/usr".to_string()],
            read_write: vec!["/tmp".to_string()],
        }),
        landlock: Some(LandlockPolicy {
            compatibility: "best_effort".to_string(),
        }),
        process: Some(ProcessPolicy {
            run_as_user: "sandbox".to_string(),
            run_as_group: "sandbox".to_string(),
        }),
        ..Default::default()
    };
    for (name, rule) in rules {
        policy.network_policies.insert(name.to_string(), rule);
    }
    policy
}

fn add(name: &str, rule: NetworkPolicyRule) -> PolicyMergeOp {
    PolicyMergeOp::AddRule {
        rule_name: name.to_string(),
        rule,
    }
}

fn merged(policy: SandboxPolicy, operation: PolicyMergeOp) -> PolicyMergeResult {
    merge_policy(policy, &[operation]).expect("merge should succeed")
}

fn refused(policy: SandboxPolicy, operation: PolicyMergeOp) -> PolicyMergeError {
    merge_policy(policy, &[operation]).expect_err("merge should be refused")
}

fn messages(result: &PolicyMergeResult) -> Vec<String> {
    result.warnings.iter().map(|w| w.message()).collect()
}

#[test]
fn a_rule_is_normalized_and_named_when_it_is_added() {
    let mut incoming = rule(
        vec![NetworkEndpoint {
            allowed_ips: vec!["a".to_string(), "b".to_string(), "a".to_string()],
            rules: vec![allow("GET", "/"), allow("GET", "/")],
            deny_rules: vec![deny("PUT"), deny("PUT")],
            ..endpoint("h", &[8443, 443, 8443])
        }],
        &["/bin/a", "/bin/a"],
    );
    incoming.endpoints.push(NetworkEndpoint {
        port: 80,
        ..endpoint("i", &[])
    });
    let result = merged(policy(vec![]), add("key", incoming));
    let added = result.policy.network_policies.get("key").unwrap();
    assert_eq!(added.name, "key");
    assert_eq!(added.endpoints[0].ports, vec![443, 8443]);
    assert_eq!(added.endpoints[0].port, 443);
    assert_eq!(added.endpoints[0].allowed_ips, vec!["a", "b"]);
    assert_eq!(added.endpoints[0].rules.len(), 1);
    assert_eq!(added.endpoints[0].deny_rules.len(), 1);
    assert_eq!(added.endpoints[1].ports, vec![80]);
    assert_eq!(added.binaries.len(), 1);
    assert!(result.changed);
    assert!(result.warnings.is_empty());
}

#[test]
fn only_rules_change() {
    let before = policy(vec![]);
    let after = merged(
        before.clone(),
        add("key", rule(vec![endpoint("h", &[443])], &[])),
    )
    .policy;
    assert_eq!(after.version, 3);
    assert_eq!(after.filesystem, before.filesystem);
    assert_eq!(after.landlock, before.landlock);
    assert_eq!(after.process, before.process);
}

#[test]
fn operations_without_effect_change_nothing() {
    let before = policy(vec![("a", rule(vec![endpoint("h", &[443])], &["/bin/a"]))]);
    let result = merge_policy(
        before.clone(),
        &[
            PolicyMergeOp::RemoveRule {
                rule_name: "missing".to_string(),
            },
            PolicyMergeOp::RemoveEndpoint {
                rule_name: Some("missing".to_string()),
                host: "h".to_string(),
                port: 443,
            },
            PolicyMergeOp::RemoveBinary {
                rule_name: "a".to_string(),
                binary_path: "/bin/missing".to_string(),
            },
        ],
    )
    .expect("nothing to refuse");
    assert!(!result.changed);
    assert_eq!(result.policy, before);
    assert_eq!(result.clone(), result);
}

#[test]
fn conflicting_settings_stay_and_are_told() {
    let existing = NetworkEndpoint {
        protocol: "rest".to_string(),
        enforcement: "enforce".to_string(),
        tls: "skip".to_string(),
        access: "read-only".to_string(),
        ..endpoint("Host", &[443, 8443])
    };
    let incoming = NetworkEndpoint {
        protocol: "websocket".to_string(),
        enforcement: "audit".to_string(),
        tls: "terminate".to_string(),
        access: "full".to_string(),
        ..endpoint("host", &[8443])
    };
    let result = merged(
        policy(vec![("a", rule(vec![existing], &[]))]),
        add("a", rule(vec![incoming], &[])),
    );
    assert_eq!(
        messages(&result),
        vec![
            "endpoint Host:8443 keeps existing protocol 'rest' and ignores incoming 'websocket'",
            "endpoint Host:8443 keeps existing enforcement 'enforce' and ignores incoming 'audit'",
            "endpoint Host:8443 keeps existing tls mode 'skip' and ignores incoming 'terminate'",
            "endpoint Host:8443 keeps existing access preset 'read-only' and ignores incoming 'full'",
        ]
    );
    let kept = &result.policy.network_policies.get("a").unwrap().endpoints[0];
    assert_eq!(kept.protocol, "rest");
    assert_eq!(kept.access, "read-only");
}

#[test]
fn explicit_rules_win_over_presets() {
    let existing = NetworkEndpoint {
        protocol: "rest".to_string(),
        access: "read-only".to_string(),
        ..endpoint("h", &[443])
    };
    let incoming = NetworkEndpoint {
        protocol: "rest".to_string(),
        access: "full".to_string(),
        rules: vec![allow("POST", "/x"), allow("GET", "**")],
        ..endpoint("h", &[443])
    };
    let result = merged(
        policy(vec![("a", rule(vec![existing], &[]))]),
        add("a", rule(vec![incoming.clone()], &[])),
    );
    assert_eq!(
        messages(&result),
        vec![
            "expanded access preset 'read-only' to explicit rules for endpoint h:443",
            "endpoint h:443 already uses explicit rules; incoming access preset 'full' was ignored",
        ]
    );
    let endpoint = &result.policy.network_policies.get("a").unwrap().endpoints[0];
    assert_eq!(endpoint.access, "");
    assert_eq!(
        endpoint.rules,
        vec![
            allow("GET", "**"),
            allow("HEAD", "**"),
            allow("OPTIONS", "**"),
            allow("POST", "/x"),
        ]
    );
    assert!(
        !policy_covers_rule(&result.policy, &rule(vec![incoming], &[])),
        "the preset was not loaded"
    );
}

#[test]
fn presets_stand_for_methods() {
    let methods = |protocol: &str, access: &str| -> Vec<String> {
        let existing = NetworkEndpoint {
            protocol: protocol.to_string(),
            access: access.to_string(),
            ..endpoint("h", &[443])
        };
        let result = merged(
            policy(vec![("a", rule(vec![existing], &[]))]),
            PolicyMergeOp::AddAllowRules {
                host: "H".to_string(),
                port: 443,
                rules: vec![],
            },
        );
        result.policy.network_policies.get("a").unwrap().endpoints[0]
            .rules
            .iter()
            .map(|rule| rule.allow.as_ref().unwrap().method.clone())
            .collect()
    };
    assert_eq!(methods("rest", "full"), vec!["*"]);
    assert_eq!(methods("websocket", "full"), vec!["*"]);
    assert_eq!(methods("websocket", "read-only"), vec!["GET"]);
    assert_eq!(
        methods("websocket", "read-write"),
        vec!["GET", "WEBSOCKET_TEXT"]
    );
    assert_eq!(methods("rest", "read-only"), vec!["GET", "HEAD", "OPTIONS"]);
    assert_eq!(
        methods("rest", "read-write"),
        vec!["GET", "HEAD", "OPTIONS", "POST", "PUT", "PATCH"]
    );
}

#[test]
fn unknown_presets_are_refused() {
    let existing = NetworkEndpoint {
        protocol: "rest".to_string(),
        access: "sideways".to_string(),
        ..endpoint("h", &[443])
    };
    let error = refused(
        policy(vec![("a", rule(vec![existing], &[]))]),
        PolicyMergeOp::AddAllowRules {
            host: "h".to_string(),
            port: 443,
            rules: vec![allow("GET", "/")],
        },
    );
    assert_eq!(
        error,
        PolicyMergeError::UnsupportedAccessPreset {
            host: "h".to_string(),
            port: 443,
            access: "sideways".to_string(),
        }
    );
    assert_eq!(
        error.message(),
        "endpoint h:443 uses unsupported access preset 'sideways'"
    );
}

#[test]
fn rules_need_an_inspected_endpoint() {
    let with_protocol = |protocol: &str| {
        policy(vec![(
            "a",
            rule(
                vec![NetworkEndpoint {
                    protocol: protocol.to_string(),
                    ..endpoint("h", &[443])
                }],
                &[],
            ),
        )])
    };
    let add_deny = || PolicyMergeOp::AddDenyRules {
        host: "h".to_string(),
        port: 443,
        deny_rules: vec![deny("PUT")],
    };
    assert_eq!(
        refused(policy(vec![]), add_deny()).message(),
        "endpoint h:443 was not found in the current policy"
    );
    assert_eq!(
        refused(with_protocol(""), add_deny()).message(),
        "endpoint h:443 has no L7 inspection configured (protocol is empty)"
    );
    assert_eq!(
        refused(with_protocol("sql"), add_deny()).message(),
        "endpoint h:443 uses unsupported protocol 'sql'; this operation currently supports only protocol 'rest' or 'websocket'"
    );
    assert_eq!(
        refused(with_protocol("rest"), add_deny()).message(),
        "endpoint h:443 has no base allow set; configure access or explicit allow rules before adding deny rules"
    );
}

#[test]
fn additions_need_a_name_and_endpoints() {
    assert_eq!(
        refused(policy(vec![]), add(" \u{a0}\t", rule(vec![endpoint("h", &[1])], &[]))).message(),
        "add-rule operation requires a rule name"
    );
    let error = merge_policy(
        policy(vec![]),
        &[
            PolicyMergeOp::RemoveRule {
                rule_name: "x".to_string(),
            },
            add("empty", rule(vec![], &[])),
        ],
    )
    .expect_err("no endpoints");
    assert_eq!(
        error.message(),
        "merge operation 1 add-rule 'empty' must contain at least one endpoint"
    );
}

#[test]
fn mcp_contracts_have_to_agree() {
    let mcp = |strict: Option<bool>, bytes: u32| NetworkEndpoint {
        protocol: "MCP".to_string(),
        json_rpc_max_body_bytes: bytes,
        mcp: Some(McpOptions {
            strict_tool_names: strict,
            allow_all_known_mcp_methods: None,
        }),
        ..endpoint("h", &[443])
    };
    let error = refused(
        policy(vec![("a", rule(vec![mcp(None, 0)], &[]))]),
        add("a", rule(vec![mcp(Some(false), 7)], &[])),
    );
    assert_eq!(
        error.message(),
        "merge operation 0 cannot combine MCP contracts at h:443: existing mcp(strict_tool_names=true, allow_all_known_mcp_methods=false, max_body_bytes=65536), incoming mcp(strict_tool_names=false, allow_all_known_mcp_methods=false, max_body_bytes=7)"
    );
    merged(
        policy(vec![("a", rule(vec![mcp(None, 0)], &[]))]),
        add("a", rule(vec![mcp(Some(true), 65536)], &[])),
    );
    let rest = NetworkEndpoint {
        protocol: "rest".to_string(),
        ..endpoint("h", &[443])
    };
    let error = refused(
        policy(vec![("a", rule(vec![rest], &[]))]),
        add("a", rule(vec![mcp(None, 0)], &[])),
    );
    assert!(error
        .message()
        .contains("existing non-mcp(protocol='rest'), incoming mcp("));
}

#[test]
fn grants_have_to_be_declared() {
    let two = vec![endpoint("h", &[443, 80]), endpoint("i", &[1])];
    let error = refused(
        policy(vec![("a", rule(two.clone(), &["/bin/a"]))]),
        add("a", rule(vec![endpoint("i", &[1])], &["/bin/b"])),
    );
    assert_eq!(
        error.message(),
        "merge operation 0 add-rule 'a' would grant new binary '/bin/b' undeclared authorization for h on ports [443, 80]"
    );
    let error = refused(
        policy(vec![("a", rule(two, &["/bin/a", "/bin/b"]))]),
        add("a", rule(vec![endpoint("j", &[9, 8])], &["/bin/a"])),
    );
    assert_eq!(
        error.message(),
        "merge operation 0 add-rule 'a' would grant existing binaries new or changed authorization for j on ports [8, 9]; also declare /bin/b"
    );
}

#[test]
fn removing_the_last_port_removes_the_rule() {
    let before = policy(vec![
        ("a", rule(vec![endpoint("h", &[443])], &[])),
        ("b", rule(vec![endpoint("H", &[443, 80]), endpoint("i", &[443])], &[])),
    ]);
    let remove = |rule_name: Option<&str>| PolicyMergeOp::RemoveEndpoint {
        rule_name: rule_name.map(str::to_string),
        host: "h".to_string(),
        port: 443,
    };
    let all = merged(before.clone(), remove(None)).policy;
    assert!(!all.network_policies.contains_key("a"));
    let b = all.network_policies.get("b").unwrap();
    assert_eq!(b.endpoints.len(), 2);
    assert_eq!(b.endpoints[0].ports, vec![80]);
    assert_eq!(b.endpoints[0].port, 80);
    assert_eq!(b.endpoints[1].ports, vec![443]);

    let one = merged(before, remove(Some("b"))).policy;
    assert!(one.network_policies.contains_key("a"));
}

#[test]
fn a_rule_that_loses_its_last_binary_never_grants_any_binary() {
    let before = policy(vec![
        ("a", rule(vec![endpoint("h", &[443])], &["/bin/a"])),
        ("b", rule(vec![endpoint("h", &[443])], &[])),
    ]);
    let remove = |name: &str| PolicyMergeOp::RemoveBinary {
        rule_name: name.to_string(),
        binary_path: "/bin/a".to_string(),
    };
    let after = merged(before.clone(), remove("a")).policy;
    assert!(!after.network_policies.contains_key("a"));
    let after = merged(before, remove("b")).policy;
    assert!(after.network_policies.contains_key("b"));
}

#[test]
fn provider_rules_are_passed_over() {
    let inspected = NetworkEndpoint {
        protocol: "rest".to_string(),
        access: "read-only".to_string(),
        ..endpoint("h", &[443])
    };
    let before = policy(vec![("_provider_x", rule(vec![inspected.clone()], &["/bin/a"]))]);
    assert_eq!(
        refused(
            before.clone(),
            PolicyMergeOp::AddAllowRules {
                host: "h".to_string(),
                port: 443,
                rules: vec![allow("PUT", "/")],
            }
        ),
        PolicyMergeError::EndpointNotFound {
            host: "h".to_string(),
            port: 443,
        }
    );
    let after = merged(before.clone(), add("mine", rule(vec![inspected], &["/bin/b"]))).policy;
    assert_eq!(
        after.network_policies.get("_provider_x"),
        before.network_policies.get("_provider_x")
    );
    assert!(after.network_policies.contains_key("mine"));
    assert!(is_provider_rule_name("_provider_"));
    assert!(!is_provider_rule_name("_provider"));
    assert!(!is_provider_rule_name("x_provider_"));
}

#[test]
fn the_least_overlapping_key_is_merged_into() {
    let before = policy(vec![
        ("b", rule(vec![endpoint("h", &[443])], &[])),
        ("a", rule(vec![endpoint("h", &[443])], &[])),
        ("B", rule(vec![endpoint("i", &[443])], &[])),
    ]);
    let mut incoming = endpoint("h", &[443]);
    incoming.allowed_ips = vec!["10.0.0.1".to_string()];
    let after = merged(before, add("new", rule(vec![incoming], &[]))).policy;
    assert!(!after.network_policies.contains_key("new"));
    assert_eq!(
        after.network_policies.get("a").unwrap().endpoints[0].allowed_ips,
        vec!["10.0.0.1"]
    );
    assert!(after.network_policies.get("b").unwrap().endpoints[0]
        .allowed_ips
        .is_empty());
}

#[test]
fn an_endpoint_with_misplaced_mcp_options_is_never_covered() {
    let odd = NetworkEndpoint {
        mcp: Some(McpOptions::default()),
        ..endpoint("h", &[443])
    };
    let proposed = rule(vec![odd], &[]);
    let after = merged(policy(vec![]), add("a", proposed.clone())).policy;
    assert!(!policy_covers_rule(&after, &proposed));
}

#[test]
fn errors_and_warnings_are_values() {
    let error = PolicyMergeError::InvalidEndpointReference {
        host: "h".to_string(),
        port: 1,
    };
    assert_eq!(error.clone(), error);
    assert_eq!(error.message(), "invalid endpoint reference 'h:1'");
    let warning = PolicyMergeWarning::ExpandedAccessPreset {
        host: "h".to_string(),
        port: 1,
        access: "full".to_string(),
    };
    assert_eq!(warning.clone(), warning);
}

#[test]
fn generated_names_keep_what_a_name_can_hold() {
    assert_eq!(
        generated_rule_name("*.a-b_c.example/d", 4294967295),
        "allow__a_b_c_exampled_4294967295"
    );
    assert_eq!(generated_rule_name("b\u{fc}ro.de", 0), "allow_b\u{fc}ro_de_0");
    assert_eq!(generated_rule_name("", 80), "allow__80");
}

#[test]
fn removing_undoes_adding() {
    let before = policy(vec![("a", rule(vec![endpoint("h", &[443])], &["/bin/a"]))]);
    let result = merge_policy(
        before.clone(),
        &[
            add("b", rule(vec![endpoint("i", &[443])], &["/bin/b"])),
            PolicyMergeOp::RemoveRule {
                rule_name: "b".to_string(),
            },
        ],
    )
    .expect("nothing to refuse");
    assert!(!result.changed);
    assert_eq!(result.policy, before);
}

#[test]
fn additions_take_nothing_away() {
    let existing = NetworkEndpoint {
        protocol: "rest".to_string(),
        access: "read-only".to_string(),
        deny_rules: vec![deny("PUT")],
        allowed_ips: vec!["10.0.0.1".to_string()],
        allow_encoded_slash: true,
        ..endpoint("h", &[443, 80])
    };
    let operations = [
        add(
            "a",
            rule(
                vec![NetworkEndpoint {
                    protocol: "rest".to_string(),
                    rules: vec![allow("POST", "/x")],
                    ..endpoint("h", &[443])
                }],
                &[],
            ),
        ),
        PolicyMergeOp::AddAllowRules {
            host: "h".to_string(),
            port: 80,
            rules: vec![allow("POST", "/y")],
        },
        PolicyMergeOp::AddDenyRules {
            host: "h".to_string(),
            port: 80,
            deny_rules: vec![deny("PATCH"), deny("PUT")],
        },
    ];
    let result = merge_policy(policy(vec![("a", rule(vec![existing], &[]))]), &operations)
        .expect("nothing to refuse");
    let endpoint = &result.policy.network_policies.get("a").unwrap().endpoints[0];
    assert_eq!(endpoint.ports, vec![80, 443]);
    assert_eq!(endpoint.deny_rules, vec![deny("PUT"), deny("PATCH")]);
    assert_eq!(endpoint.allowed_ips, vec!["10.0.0.1"]);
    assert!(endpoint.allow_encoded_slash);
    assert_eq!(endpoint.rules.len(), 5);
}

#[test]
fn written_defaults_change_nothing() {
    let left_out = endpoint("h", &[443]);
    let written = NetworkEndpoint {
        tls: "auto".to_string(),
        enforcement: "audit".to_string(),
        ..endpoint("h", &[443])
    };
    let loaded = policy(vec![("a", rule(vec![left_out.clone()], &[]))]);
    assert!(policy_covers_rule(&loaded, &rule(vec![written.clone()], &[])));
    let loaded = policy(vec![
        ("a", rule(vec![written], &[])),
        ("b", rule(vec![endpoint("other", &[1])], &["/bin/b"])),
    ]);
    assert!(policy_covers_rule(&loaded, &rule(vec![left_out], &[])));
}

#[test]
fn adding_the_same_rule_again_changes_nothing() {
    let operation = || {
        let mut inspected = endpoint("api.example.com", &[8443, 443, 443]);
        inspected.protocol = "rest".to_string();
        inspected.rules = vec![allow("GET", "/a"), allow("GET", "/b"), allow("GET", "/a")];
        inspected.deny_rules = vec![deny("DELETE")];
        let mut preset = endpoint("files.example.com", &[443]);
        preset.access = "read-only".to_string();
        let mut tools = endpoint("mcp.example.com", &[443]);
        tools.protocol = "mcp".to_string();
        tools.mcp = Some(McpOptions::default());
        let mut added = rule(vec![inspected, preset, tools], &["/usr/bin/curl", "/usr/bin/git"]);
        added.binaries[1].harness = true;
        add("fresh", added)
    };
    let first = merged(policy(vec![]), operation());
    assert!(first.changed);
    let second = merged(
        merged(policy(vec![]), operation()).policy,
        operation(),
    );
    assert_eq!(second.policy, first.policy);
    assert!(!second.changed);
    assert!(second.warnings.is_empty());
}

#[test]
fn endpoints_that_meet_can_change_when_they_come_again() {
    let operation = || {
        let mut preset = endpoint("api.example.com", &[443]);
        preset.protocol = "rest".to_string();
        preset.access = "read-only".to_string();
        let mut inspected = endpoint("api.example.com", &[443, 8443]);
        inspected.protocol = "rest".to_string();
        inspected.rules = vec![allow("GET", "/a")];
        add("fresh", rule(vec![preset, inspected], &[]))
    };
    let first = merged(policy(vec![]), operation());
    let second = merged(first.policy, operation());
    assert!(second.changed);
}

#[test]
fn merges_in_turn_are_one_merge() {
    let first = || {
        vec![
            add("a", rule(vec![endpoint("a.example.com", &[443])], &["/bin/a"])),
            add("b", rule(vec![endpoint("b.example.com", &[80])], &[])),
        ]
    };
    let second = || {
        vec![
            add("a", rule(vec![endpoint("a.example.com", &[8443])], &["/bin/a"])),
            PolicyMergeOp::RemoveRule {
                rule_name: "b".to_string(),
            },
        ]
    };
    let between = merge_policy(policy(vec![]), &first()).expect("the first list");
    let in_turn = merge_policy(between.policy, &second()).expect("the second list");
    let joined: Vec<PolicyMergeOp> = first().into_iter().chain(second()).collect();
    let at_once = merge_policy(policy(vec![]), &joined).expect("the joined list");
    assert_eq!(in_turn.policy, at_once.policy);
    assert_eq!(
        messages(&at_once),
        [messages(&merge_policy(policy(vec![]), &first()).unwrap()), messages(&in_turn)].concat()
    );
}
