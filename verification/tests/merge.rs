use openshell::merge::{generated_rule_name, merge_policy, policy_covers_rule};
use openshell::merge_model::DEFAULT_JSON_RPC_MAX_BODY_BYTES;
use openshell::merge_types::{PolicyMergeError, PolicyMergeOp, PolicyMergeWarning};
use openshell::policy::{
    L7Allow, L7DenyRule, L7QueryMatcher, L7Rule, McpOptions, NetworkBinary, NetworkEndpoint,
    NetworkPolicyRule, SandboxPolicy,
};
use openshell::string_map::StringMap;

fn restrictive_default_policy() -> SandboxPolicy {
    SandboxPolicy {
        version: 1,
        ..Default::default()
    }
}

fn matchers(entries: Vec<(String, L7QueryMatcher)>) -> StringMap<L7QueryMatcher> {
    let mut map = StringMap::new();
    for (key, matcher) in entries {
        map.insert(key, matcher);
    }
    map
}

fn endpoint(host: &str, port: u32) -> NetworkEndpoint {
    NetworkEndpoint {
        host: host.to_string(),
        port,
        ports: vec![port],
        ..Default::default()
    }
}

fn rule_with_endpoint(name: &str, host: &str, port: u32) -> NetworkPolicyRule {
    NetworkPolicyRule {
        name: name.to_string(),
        endpoints: vec![endpoint(host, port)],
        ..Default::default()
    }
}

fn advisor_binary(path: &str) -> NetworkBinary {
    let mut binary = NetworkBinary {
        path: path.to_string(),
        ..Default::default()
    };
    #[allow(deprecated)]
    {
        binary.harness = true;
    }
    binary
}

fn rest_rule(method: &str, path: &str) -> L7Rule {
    L7Rule {
        allow: Some(L7Allow {
            method: method.to_string(),
            path: path.to_string(),
            command: String::new(),
            query: StringMap::new(),
            operation_type: String::new(),
            operation_name: String::new(),
            fields: Vec::new(),
            params: StringMap::new(),
        }),
    }
}

fn binary(path: &str) -> NetworkBinary {
    NetworkBinary {
        path: path.to_string(),
        ..Default::default()
    }
}

fn mcp_tool_rule(tool: &str) -> L7Rule {
    L7Rule {
        allow: Some(L7Allow {
            method: "tools/call".to_string(),
            params: matchers(vec![(
                "name".to_string(),
                L7QueryMatcher {
                    glob: tool.to_string(),
                    any: Vec::new(),
                },
            )]),
            ..Default::default()
        }),
    }
}

fn mcp_endpoint(
    host: &str,
    ports: &[u32],
    strict_tool_names: Option<bool>,
    allow_all_known_mcp_methods: Option<bool>,
    max_body_bytes: u32,
    rules: Vec<L7Rule>,
) -> NetworkEndpoint {
    NetworkEndpoint {
        host: host.to_string(),
        port: ports.first().copied().unwrap_or_default(),
        ports: ports.to_vec(),
        protocol: "mcp".to_string(),
        rules,
        json_rpc_max_body_bytes: max_body_bytes,
        mcp: Some(McpOptions {
            strict_tool_names,
            allow_all_known_mcp_methods,
        }),
        ..Default::default()
    }
}

fn rule_with_authorizations(
    name: &str,
    endpoints: Vec<NetworkEndpoint>,
    binaries: &[&str],
) -> NetworkPolicyRule {
    NetworkPolicyRule {
        name: name.to_string(),
        endpoints,
        binaries: binaries.iter().map(|path| binary(path)).collect(),
    }
}

fn policy_with_rule(rule_name: &str, rule: NetworkPolicyRule) -> SandboxPolicy {
    let mut policy = restrictive_default_policy();
    policy.network_policies.insert(rule_name.to_string(), rule);
    policy
}

#[test]
fn generated_rule_name_sanitizes_host() {
    assert_eq!(
        generated_rule_name("api.github.com", 443),
        "allow_api_github_com_443"
    );
}

#[test]
fn add_rule_rejects_empty_endpoints_at_the_library_boundary() {
    let error = merge_policy(
        restrictive_default_policy(),
        &[PolicyMergeOp::AddRule {
            rule_name: "empty".to_string(),
            rule: rule_with_authorizations("empty", Vec::new(), &["/usr/bin/client"]),
        }],
    )
    .expect_err("an AddRule without authorization endpoints must fail");

    assert_eq!(
        error,
        PolicyMergeError::EmptyAddRuleEndpoints {
            operation_index: 0,
            rule_name: "empty".to_string(),
        }
    );
}

#[test]
fn merge_reports_the_first_failing_operation_in_request_order() {
    let operations = [
        PolicyMergeOp::AddAllowRules {
            host: "missing.example.com".to_string(),
            port: 443,
            rules: vec![rest_rule("GET", "/")],
        },
        PolicyMergeOp::AddRule {
            rule_name: "empty".to_string(),
            rule: NetworkPolicyRule::default(),
        },
    ];

    assert_eq!(
        merge_policy(restrictive_default_policy(), &operations),
        Err(PolicyMergeError::EndpointNotFound {
            host: "missing.example.com".to_string(),
            port: 443,
        })
    );
}

#[test]
fn new_binary_cannot_inherit_an_undeclared_existing_rest_endpoint() {
    let existing_endpoint = NetworkEndpoint {
        protocol: "rest".to_string(),
        rules: vec![rest_rule("GET", "/admin")],
        ..endpoint("admin.example.com", 443)
    };
    let existing =
        rule_with_authorizations("existing", vec![existing_endpoint], &["/usr/bin/trusted"]);
    let incoming = rule_with_authorizations(
        "existing",
        vec![endpoint("public.example.com", 443)],
        &["/usr/bin/untrusted"],
    );

    let error = merge_policy(
        policy_with_rule("existing", existing),
        &[PolicyMergeOp::AddRule {
            rule_name: "existing".to_string(),
            rule: incoming,
        }],
    )
    .expect_err("the new binary did not declare the existing REST endpoint");

    assert!(matches!(
        error,
        PolicyMergeError::NewBinaryWouldInheritAuthorization {
            operation_index: 0,
            binary_path,
            host,
            ports,
            ..
        } if binary_path == "/usr/bin/untrusted"
            && host == "admin.example.com"
            && ports == vec![443]
    ));
}

#[test]
fn new_binary_cannot_inherit_an_undeclared_existing_mcp_endpoint() {
    let existing = rule_with_authorizations(
        "existing",
        vec![mcp_endpoint(
            "mcp.example.com",
            &[443],
            None,
            None,
            0,
            vec![mcp_tool_rule("existing-tool")],
        )],
        &["/usr/bin/trusted"],
    );
    let incoming = rule_with_authorizations(
        "existing",
        vec![endpoint("unrelated.example.com", 443)],
        &["/usr/bin/untrusted"],
    );

    let error = merge_policy(
        policy_with_rule("existing", existing),
        &[PolicyMergeOp::AddRule {
            rule_name: "existing".to_string(),
            rule: incoming,
        }],
    )
    .expect_err("the new binary did not declare the existing MCP endpoint");

    assert!(matches!(
        error,
        PolicyMergeError::NewBinaryWouldInheritAuthorization {
            operation_index: 0,
            binary_path,
            host,
            ..
        } if binary_path == "/usr/bin/untrusted" && host == "mcp.example.com"
    ));
}

#[test]
fn new_binary_must_declare_every_existing_mcp_endpoint() {
    let endpoint_a = mcp_endpoint(
        "a.example.com",
        &[443],
        None,
        None,
        0,
        vec![mcp_tool_rule("a")],
    );
    let endpoint_b = mcp_endpoint(
        "b.example.com",
        &[443],
        None,
        None,
        0,
        vec![mcp_tool_rule("b")],
    );
    let existing = rule_with_authorizations(
        "existing",
        vec![endpoint_a.clone(), endpoint_b],
        &["/usr/bin/trusted"],
    );
    let incoming =
        rule_with_authorizations("existing", vec![endpoint_a], &["/usr/bin/untrusted"]);

    let error = merge_policy(
        policy_with_rule("existing", existing),
        &[PolicyMergeOp::AddRule {
            rule_name: "existing".to_string(),
            rule: incoming,
        }],
    )
    .expect_err("declaring only one endpoint must not grant the second endpoint");

    assert!(matches!(
        error,
        PolicyMergeError::NewBinaryWouldInheritAuthorization { host, .. }
            if host == "b.example.com"
    ));
}

#[test]
fn existing_binary_scope_must_be_declared_for_a_new_mcp_endpoint() {
    let existing = rule_with_authorizations(
        "existing",
        vec![endpoint("rest.example.com", 443)],
        &["/usr/bin/first", "/usr/bin/second"],
    );
    let incoming = rule_with_authorizations(
        "existing",
        vec![mcp_endpoint(
            "mcp.example.com",
            &[443],
            None,
            None,
            0,
            vec![mcp_tool_rule("new-tool")],
        )],
        &["/usr/bin/first"],
    );

    let error = merge_policy(
        policy_with_rule("existing", existing),
        &[PolicyMergeOp::AddRule {
            rule_name: "existing".to_string(),
            rule: incoming,
        }],
    )
    .expect_err("the undeclared second binary would inherit the new MCP endpoint");

    assert!(matches!(
        error,
        PolicyMergeError::ExistingBinariesWouldInheritAuthorization { host, .. }
            if host == "mcp.example.com"
    ));
}

#[test]
fn existing_any_binary_scope_requires_an_incoming_any_binary_declaration() {
    let existing =
        rule_with_authorizations("existing", vec![endpoint("rest.example.com", 443)], &[]);
    let incoming_endpoint = mcp_endpoint(
        "mcp.example.com",
        &[443],
        None,
        None,
        0,
        vec![mcp_tool_rule("new-tool")],
    );
    let specific_incoming = rule_with_authorizations(
        "existing",
        vec![incoming_endpoint.clone()],
        &["/usr/bin/client"],
    );

    assert!(matches!(
        merge_policy(
            policy_with_rule("existing", existing.clone()),
            &[PolicyMergeOp::AddRule {
                rule_name: "existing".to_string(),
                rule: specific_incoming,
            }]
        ),
        Err(PolicyMergeError::ExistingBinariesWouldInheritAuthorization { .. })
    ));

    let any_binary_incoming =
        rule_with_authorizations("existing", vec![incoming_endpoint], &[]);
    assert!(
        merge_policy(
            policy_with_rule("existing", existing),
            &[PolicyMergeOp::AddRule {
                rule_name: "existing".to_string(),
                rule: any_binary_incoming,
            }]
        )
        .is_ok(),
        "an explicit any-binary proposal covers the existing any-binary scope"
    );
}

#[test]
fn l4_endpoint_promotion_to_mcp_requires_the_complete_existing_binary_scope() {
    let existing = rule_with_authorizations(
        "existing",
        vec![endpoint("mcp.example.com", 443)],
        &["/usr/bin/first", "/usr/bin/second"],
    );
    let incoming = rule_with_authorizations(
        "existing",
        vec![mcp_endpoint(
            "mcp.example.com",
            &[443],
            None,
            None,
            0,
            vec![mcp_tool_rule("new-tool")],
        )],
        &["/usr/bin/first"],
    );

    let error = merge_policy(
        policy_with_rule("existing", existing),
        &[PolicyMergeOp::AddRule {
            rule_name: "existing".to_string(),
            rule: incoming,
        }],
    )
    .expect_err("the second binary did not declare the MCP promotion");

    assert!(matches!(
        error,
        PolicyMergeError::ExistingBinariesWouldInheritAuthorization {
            operation_index: 0,
            host,
            ports,
            ..
        } if host == "mcp.example.com" && ports == vec![443]
    ));
}

#[test]
fn l4_endpoint_promotion_to_mcp_preserves_the_declared_contract() {
    let existing = rule_with_authorizations(
        "existing",
        vec![endpoint("mcp.example.com", 443)],
        &["/usr/bin/first", "/usr/bin/second"],
    );
    let incoming = rule_with_authorizations(
        "existing",
        vec![mcp_endpoint(
            "mcp.example.com",
            &[443],
            Some(false),
            Some(true),
            128 * 1024,
            vec![mcp_tool_rule("new-tool")],
        )],
        &["/usr/bin/first", "/usr/bin/second"],
    );

    let result = merge_policy(
        policy_with_rule("existing", existing),
        &[PolicyMergeOp::AddRule {
            rule_name: "existing".to_string(),
            rule: incoming,
        }],
    )
    .expect("the complete binary scope explicitly accepts the MCP promotion");

    let promoted = &result.policy.network_policies.get("existing").unwrap().endpoints[0];
    assert_eq!(promoted.protocol, "mcp");
    assert_eq!(promoted.json_rpc_max_body_bytes, 128 * 1024);
    assert_eq!(
        promoted.mcp,
        Some(McpOptions {
            strict_tool_names: Some(false),
            allow_all_known_mcp_methods: Some(true),
        })
    );
    assert_eq!(promoted.rules, vec![mcp_tool_rule("new-tool")]);
}

#[test]
fn established_rest_endpoint_cannot_be_reinterpreted_as_mcp() {
    let existing_endpoint = NetworkEndpoint {
        protocol: "rest".to_string(),
        rules: vec![rest_rule("GET", "/")],
        ..endpoint("api.example.com", 443)
    };
    let existing =
        rule_with_authorizations("existing", vec![existing_endpoint], &["/usr/bin/client"]);
    let incoming = rule_with_authorizations(
        "existing",
        vec![mcp_endpoint(
            "api.example.com",
            &[443],
            None,
            None,
            0,
            vec![mcp_tool_rule("tool")],
        )],
        &["/usr/bin/client"],
    );

    assert!(matches!(
        merge_policy(
            policy_with_rule("existing", existing),
            &[PolicyMergeOp::AddRule {
                rule_name: "existing".to_string(),
                rule: incoming,
            }]
        ),
        Err(PolicyMergeError::McpContractConflict {
            existing, incoming, ..
        }) if existing == "non-mcp(protocol='rest')" && incoming.starts_with("mcp(")
    ));
}

#[test]
fn mcp_overlap_uses_effective_defaults_and_rejects_body_limit_changes() {
    let existing_endpoint = mcp_endpoint(
        "mcp.example.com",
        &[443, 8443],
        None,
        None,
        0,
        vec![mcp_tool_rule("tool")],
    );
    let explicit_defaults = mcp_endpoint(
        "mcp.example.com",
        &[8443],
        Some(true),
        Some(false),
        DEFAULT_JSON_RPC_MAX_BODY_BYTES,
        vec![mcp_tool_rule("tool")],
    );
    let existing =
        rule_with_authorizations("existing", vec![existing_endpoint], &["/usr/bin/client"]);
    let equivalent = rule_with_authorizations(
        "incoming",
        vec![explicit_defaults.clone()],
        &["/usr/bin/client"],
    );
    assert!(
        merge_policy(
            policy_with_rule("existing", existing.clone()),
            &[PolicyMergeOp::AddRule {
                rule_name: "incoming".to_string(),
                rule: equivalent,
            }]
        )
        .is_ok(),
        "omitted MCP booleans and body limit must equal their runtime defaults"
    );

    let mut different_body_limit = explicit_defaults;
    different_body_limit.json_rpc_max_body_bytes = 128 * 1024;
    let conflicting =
        rule_with_authorizations("incoming", vec![different_body_limit], &["/usr/bin/client"]);
    assert!(matches!(
        merge_policy(
            policy_with_rule("existing", existing),
            &[PolicyMergeOp::AddRule {
                rule_name: "incoming".to_string(),
                rule: conflicting,
            }]
        ),
        // The existing endpoint omitted the limit, so the conflict reports
        // its effective default rather than the raw zero.
        Err(PolicyMergeError::McpContractConflict {
            port: 8443,
            existing,
            incoming,
            ..
        }) if existing.contains("max_body_bytes=65536")
            && incoming.contains("max_body_bytes=131072")
    ));
}

#[test]
fn non_overlapping_mcp_endpoints_may_use_different_contracts() {
    let existing = rule_with_authorizations(
        "existing",
        vec![mcp_endpoint(
            "first.example.com",
            &[443, 8443],
            None,
            None,
            0,
            vec![mcp_tool_rule("first-tool")],
        )],
        &["/usr/bin/client"],
    );
    let incoming = rule_with_authorizations(
        "existing",
        vec![mcp_endpoint(
            "second.example.com",
            &[443],
            Some(false),
            Some(true),
            128 * 1024,
            vec![mcp_tool_rule("second-tool")],
        )],
        &["/usr/bin/client"],
    );

    let result = merge_policy(
        policy_with_rule("existing", existing),
        &[PolicyMergeOp::AddRule {
            rule_name: "existing".to_string(),
            rule: incoming,
        }],
    )
    .expect("contract differences on disjoint endpoints are independent");

    assert_eq!(
        result.policy.network_policies.get("existing").unwrap().endpoints.len(),
        2
    );
}

#[test]
fn policy_coverage_checks_full_mcp_matchers_ports_contract_and_defaults() {
    let loaded_endpoint = mcp_endpoint(
        "mcp.example.com",
        &[443],
        None,
        None,
        0,
        vec![mcp_tool_rule("loaded-tool")],
    );
    let loaded = policy_with_rule(
        "loaded",
        rule_with_authorizations(
            "loaded",
            vec![loaded_endpoint.clone()],
            &["/usr/bin/client"],
        ),
    );

    let wrong_tool = rule_with_authorizations(
        "proposed",
        vec![mcp_endpoint(
            "mcp.example.com",
            &[443],
            Some(true),
            Some(false),
            DEFAULT_JSON_RPC_MAX_BODY_BYTES,
            vec![mcp_tool_rule("different-tool")],
        )],
        &["/usr/bin/client"],
    );
    assert!(!policy_covers_rule(&loaded, &wrong_tool));

    let extra_port = rule_with_authorizations(
        "proposed",
        vec![mcp_endpoint(
            "mcp.example.com",
            &[443, 8443],
            None,
            None,
            0,
            vec![mcp_tool_rule("loaded-tool")],
        )],
        &["/usr/bin/client"],
    );
    assert!(!policy_covers_rule(&loaded, &extra_port));

    let equivalent_defaults = rule_with_authorizations(
        "proposed",
        vec![mcp_endpoint(
            "mcp.example.com",
            &[443],
            Some(true),
            Some(false),
            DEFAULT_JSON_RPC_MAX_BODY_BYTES,
            vec![mcp_tool_rule("loaded-tool")],
        )],
        &["/usr/bin/client"],
    );
    assert!(policy_covers_rule(&loaded, &equivalent_defaults));

    let different_body = rule_with_authorizations(
        "proposed",
        vec![mcp_endpoint(
            "mcp.example.com",
            &[443],
            None,
            None,
            128 * 1024,
            vec![mcp_tool_rule("loaded-tool")],
        )],
        &["/usr/bin/client"],
    );
    assert!(!policy_covers_rule(&loaded, &different_body));

    let mut explicit_defaults = loaded_endpoint;
    explicit_defaults.tls = "passthrough".to_string();
    explicit_defaults.enforcement = "audit".to_string();
    let runtime_defaults = rule_with_authorizations(
        "proposed",
        vec![explicit_defaults.clone()],
        &["/usr/bin/client"],
    );
    assert!(policy_covers_rule(&loaded, &runtime_defaults));

    explicit_defaults.tls = "terminate".to_string();
    let legacy_terminate = rule_with_authorizations(
        "proposed",
        vec![explicit_defaults.clone()],
        &["/usr/bin/client"],
    );
    assert!(policy_covers_rule(&loaded, &legacy_terminate));

    explicit_defaults.tls = "skip".to_string();
    let skip_tls = rule_with_authorizations(
        "proposed",
        vec![explicit_defaults.clone()],
        &["/usr/bin/client"],
    );
    assert!(!policy_covers_rule(&loaded, &skip_tls));

    explicit_defaults.tls.clear();
    explicit_defaults.enforcement = "enforce".to_string();
    let different_runtime_scalars =
        rule_with_authorizations("proposed", vec![explicit_defaults], &["/usr/bin/client"]);
    assert!(!policy_covers_rule(&loaded, &different_runtime_scalars));
}

/// `policy_covers_rule` answers "is my rule in effect?" for the sandbox's
/// `/wait` long-poll, so anything `merge_policy` accepts must read back as
/// covered once loaded. Otherwise the poll spins to its deadline and the
/// agent is told its approved rule never landed.
#[test]
fn merged_policy_covers_the_rule_it_merged() {
    // Every field `merge_endpoint` widens rather than replaces, set on the
    // existing endpoint and absent from the proposal.
    let existing_endpoint = NetworkEndpoint {
        protocol: "rest".to_string(),
        rules: vec![rest_rule("GET", "/health")],
        deny_rules: vec![L7DenyRule {
            method: "DELETE".to_string(),
            path: "/*".to_string(),
            ..Default::default()
        }],
        allowed_ips: vec!["10.0.0.1".to_string()],
        allow_encoded_slash: true,
        websocket_credential_rewrite: true,
        request_body_credential_rewrite: true,
        advisor_proposed: true,
        ..endpoint("api.example.com", 443)
    };
    let proposed = rule_with_authorizations(
        "api",
        vec![NetworkEndpoint {
            protocol: "rest".to_string(),
            rules: vec![rest_rule("GET", "/users")],
            ..endpoint("api.example.com", 443)
        }],
        &["/usr/bin/client"],
    );

    let merged = merge_policy(
        policy_with_rule(
            "api",
            rule_with_authorizations("api", vec![existing_endpoint], &["/usr/bin/client"]),
        ),
        &[PolicyMergeOp::AddRule {
            rule_name: "api".to_string(),
            rule: proposed.clone(),
        }],
    )
    .expect("merge must accept a proposal that declares the full binary scope");

    assert!(policy_covers_rule(&merged.policy, &proposed));
}

#[test]
fn policy_coverage_requires_proposed_denies_but_allows_loaded_only_denies() {
    let deny = |path: &str| L7DenyRule {
        method: "GET".to_string(),
        path: path.to_string(),
        ..Default::default()
    };
    let proposed_endpoint = NetworkEndpoint {
        protocol: "rest".to_string(),
        rules: vec![rest_rule("GET", "/users")],
        deny_rules: vec![deny("/users/secret")],
        ..endpoint("api.example.com", 443)
    };
    let proposed = rule_with_authorizations(
        "proposed",
        vec![proposed_endpoint.clone()],
        &["/usr/bin/client"],
    );
    let cover_with = |deny_rules: Vec<L7DenyRule>| {
        let loaded_endpoint = NetworkEndpoint {
            deny_rules,
            ..proposed_endpoint.clone()
        };
        policy_covers_rule(
            &policy_with_rule(
                "loaded",
                rule_with_authorizations("loaded", vec![loaded_endpoint], &["/usr/bin/client"]),
            ),
            &proposed,
        )
    };

    assert!(
        !cover_with(Vec::new()),
        "a proposed deny that is not loaded means the proposal is not in effect"
    );
    assert!(
        cover_with(vec![deny("/users/secret")]),
        "the proposed deny alone is coverage"
    );
    assert!(
        cover_with(vec![deny("/users/secret"), deny("/admin")]),
        "a deny carried by the loaded endpoint from an earlier merge must not block coverage"
    );
}

#[test]
fn policy_coverage_requires_endpoint_advisor_provenance_to_be_loaded() {
    let loaded_endpoint = endpoint("api.example.com", 443);
    let mut proposed_endpoint = loaded_endpoint.clone();
    proposed_endpoint.advisor_proposed = true;
    let loaded = policy_with_rule(
        "loaded",
        rule_with_authorizations("loaded", vec![loaded_endpoint], &["/usr/bin/client"]),
    );
    let proposed =
        rule_with_authorizations("proposed", vec![proposed_endpoint], &["/usr/bin/client"]);

    assert!(!policy_covers_rule(&loaded, &proposed));
}

#[test]
fn policy_coverage_checks_every_binary_endpoint_pair_across_rule_union() {
    let proposed = rule_with_authorizations(
        "proposed",
        vec![
            endpoint("a.example.com", 443),
            endpoint("b.example.com", 443),
        ],
        &["/usr/bin/first", "/usr/bin/second"],
    );
    let mut loaded = restrictive_default_policy();
    for (name, host, binary_path) in [
        ("a-first", "a.example.com", "/usr/bin/first"),
        ("a-second", "a.example.com", "/usr/bin/second"),
        ("b-first", "b.example.com", "/usr/bin/first"),
    ] {
        loaded.network_policies.insert(
            name.to_string(),
            rule_with_authorizations(name, vec![endpoint(host, 443)], &[binary_path]),
        );
    }

    assert!(
        !policy_covers_rule(&loaded, &proposed),
        "the missing b.example.com × /usr/bin/second pair must fail coverage"
    );

    loaded.network_policies.insert(
        "b-second".to_string(),
        rule_with_authorizations(
            "b-second",
            vec![endpoint("b.example.com", 443)],
            &["/usr/bin/second"],
        ),
    );
    assert!(
        policy_covers_rule(&loaded, &proposed),
        "separate loaded rules may jointly cover the complete Cartesian product"
    );
}

#[test]
fn add_rule_merges_l7_fields_into_existing_endpoint() {
    let mut policy = restrictive_default_policy();
    policy.network_policies.insert(
        "existing".to_string(),
        NetworkPolicyRule {
            name: "existing".to_string(),
            endpoints: vec![endpoint("api.github.com", 443)],
            binaries: vec![NetworkBinary {
                path: "/usr/bin/curl".to_string(),
                ..Default::default()
            }],
        },
    );

    let incoming = NetworkPolicyRule {
        name: "incoming".to_string(),
        endpoints: vec![NetworkEndpoint {
            host: "api.github.com".to_string(),
            port: 443,
            ports: vec![443],
            protocol: "rest".to_string(),
            enforcement: "enforce".to_string(),
            rules: vec![rest_rule("GET", "/repos/**")],
            ..Default::default()
        }],
        binaries: vec![binary("/usr/bin/curl"), binary("/usr/bin/gh")],
    };

    let result = merge_policy(
        policy,
        &[PolicyMergeOp::AddRule {
            rule_name: "allow_api_github_com_443".to_string(),
            rule: incoming,
        }],
    )
    .expect("merge should succeed");

    let rule = &result.policy.network_policies.get("existing").unwrap();
    let endpoint = &rule.endpoints[0];
    assert_eq!(endpoint.protocol, "rest");
    assert_eq!(endpoint.enforcement, "enforce");
    assert_eq!(endpoint.rules.len(), 1);
    assert_eq!(rule.binaries.len(), 2);
}

#[test]
fn add_rule_user_binary_clears_advisor_marker_for_same_path() {
    let mut policy = restrictive_default_policy();
    policy.network_policies.insert(
        "existing".to_string(),
        NetworkPolicyRule {
            name: "existing".to_string(),
            endpoints: vec![endpoint("api.github.com", 443)],
            binaries: vec![advisor_binary("/usr/bin/curl")],
        },
    );

    let incoming = NetworkPolicyRule {
        name: "incoming".to_string(),
        endpoints: vec![endpoint("api.github.com", 443)],
        binaries: vec![NetworkBinary {
            path: "/usr/bin/curl".to_string(),
            ..Default::default()
        }],
    };

    let result = merge_policy(
        policy,
        &[PolicyMergeOp::AddRule {
            rule_name: "existing".to_string(),
            rule: incoming,
        }],
    )
    .expect("merge should succeed");

    let rule = &result.policy.network_policies.get("existing").unwrap();
    assert_eq!(rule.binaries.len(), 1);
    #[allow(deprecated)]
    {
        assert!(!rule.binaries[0].harness);
    }
}

#[test]
fn add_rule_duplicate_binaries_prefer_user_declared_marker() {
    let incoming = NetworkPolicyRule {
        name: "incoming".to_string(),
        endpoints: vec![endpoint("api.github.com", 443)],
        binaries: vec![
            advisor_binary("/usr/bin/curl"),
            NetworkBinary {
                path: "/usr/bin/curl".to_string(),
                ..Default::default()
            },
        ],
    };

    let result = merge_policy(
        restrictive_default_policy(),
        &[PolicyMergeOp::AddRule {
            rule_name: "github".to_string(),
            rule: incoming,
        }],
    )
    .expect("merge should succeed");

    let rule = &result.policy.network_policies.get("github").unwrap();
    assert_eq!(rule.binaries.len(), 1);
    #[allow(deprecated)]
    {
        assert!(!rule.binaries[0].harness);
    }
}

#[test]
fn add_rule_preserves_advisor_endpoint_marker_when_binary_is_deduped() {
    let mut policy = restrictive_default_policy();
    policy.network_policies.insert(
        "app-api".to_string(),
        NetworkPolicyRule {
            name: "app-api".to_string(),
            endpoints: vec![endpoint("api.example.com", 443)],
            binaries: vec![NetworkBinary {
                path: "/usr/bin/python".to_string(),
                ..Default::default()
            }],
        },
    );

    let incoming = NetworkPolicyRule {
        name: "app-api".to_string(),
        endpoints: vec![NetworkEndpoint {
            host: "internal-admin.local".to_string(),
            port: 443,
            ports: vec![443],
            advisor_proposed: true,
            ..Default::default()
        }],
        binaries: vec![advisor_binary("/usr/bin/python")],
    };

    let result = merge_policy(
        policy,
        &[PolicyMergeOp::AddRule {
            rule_name: "app-api".to_string(),
            rule: incoming,
        }],
    )
    .expect("merge should succeed");

    let rule = &result.policy.network_policies.get("app-api").unwrap();
    assert_eq!(rule.binaries.len(), 1, "binary should still dedupe");
    #[allow(deprecated)]
    {
        assert!(
            !rule.binaries[0].harness,
            "existing user binary provenance should be retained"
        );
    }
    let internal_endpoint = rule
        .endpoints
        .iter()
        .find(|endpoint| endpoint.host == "internal-admin.local")
        .expect("advisor endpoint should be appended");
    assert!(
        internal_endpoint.advisor_proposed,
        "endpoint provenance must survive merge even when binary provenance is deduped"
    );
}

#[test]
fn add_rule_merges_websocket_credential_rewrite_flag() {
    let mut policy = restrictive_default_policy();
    policy.network_policies.insert(
        "existing".to_string(),
        NetworkPolicyRule {
            name: "existing".to_string(),
            endpoints: vec![NetworkEndpoint {
                host: "realtime.example.com".to_string(),
                port: 443,
                ports: vec![443],
                protocol: "websocket".to_string(),
                access: "read-write".to_string(),
                ..Default::default()
            }],
            ..Default::default()
        },
    );

    let incoming = NetworkPolicyRule {
        name: "incoming".to_string(),
        endpoints: vec![NetworkEndpoint {
            host: "realtime.example.com".to_string(),
            port: 443,
            ports: vec![443],
            protocol: "websocket".to_string(),
            websocket_credential_rewrite: true,
            ..Default::default()
        }],
        ..Default::default()
    };

    let result = merge_policy(
        policy,
        &[PolicyMergeOp::AddRule {
            rule_name: "allow_realtime_example_com_443".to_string(),
            rule: incoming,
        }],
    )
    .expect("merge should succeed");

    let endpoint = &result.policy.network_policies.get("existing").unwrap().endpoints[0];
    assert!(endpoint.websocket_credential_rewrite);
}

#[test]
fn add_rule_merges_request_body_credential_rewrite_flag() {
    let mut policy = restrictive_default_policy();
    policy.network_policies.insert(
        "existing".to_string(),
        NetworkPolicyRule {
            name: "existing".to_string(),
            endpoints: vec![NetworkEndpoint {
                host: "slack.com".to_string(),
                port: 443,
                ports: vec![443],
                protocol: "rest".to_string(),
                access: "read-write".to_string(),
                ..Default::default()
            }],
            ..Default::default()
        },
    );

    let incoming = NetworkPolicyRule {
        name: "incoming".to_string(),
        endpoints: vec![NetworkEndpoint {
            host: "slack.com".to_string(),
            port: 443,
            ports: vec![443],
            protocol: "rest".to_string(),
            request_body_credential_rewrite: true,
            ..Default::default()
        }],
        ..Default::default()
    };

    let result = merge_policy(
        policy,
        &[PolicyMergeOp::AddRule {
            rule_name: "allow_slack_com_443".to_string(),
            rule: incoming,
        }],
    )
    .expect("merge should succeed");

    let endpoint = &result.policy.network_policies.get("existing").unwrap().endpoints[0];
    assert!(endpoint.request_body_credential_rewrite);
}

#[test]
fn add_allow_expands_access_preset() {
    let mut policy = restrictive_default_policy();
    policy.network_policies.insert(
        "github".to_string(),
        NetworkPolicyRule {
            name: "github".to_string(),
            endpoints: vec![NetworkEndpoint {
                host: "api.github.com".to_string(),
                port: 443,
                ports: vec![443],
                protocol: "rest".to_string(),
                access: "read-only".to_string(),
                ..Default::default()
            }],
            ..Default::default()
        },
    );

    let result = merge_policy(
        policy,
        &[PolicyMergeOp::AddAllowRules {
            host: "api.github.com".to_string(),
            port: 443,
            rules: vec![rest_rule("POST", "/repos/*/issues")],
        }],
    )
    .expect("merge should succeed");

    let endpoint = &result.policy.network_policies.get("github").unwrap().endpoints[0];
    assert!(endpoint.access.is_empty());
    assert_eq!(endpoint.rules.len(), 4);
    assert!(result.warnings.iter().any(|warning| matches!(
        warning,
        PolicyMergeWarning::ExpandedAccessPreset { access, .. } if access == "read-only"
    )));
}

#[test]
fn add_allow_expands_websocket_access_preset() {
    let mut policy = restrictive_default_policy();
    policy.network_policies.insert(
        "realtime".to_string(),
        NetworkPolicyRule {
            name: "realtime".to_string(),
            endpoints: vec![NetworkEndpoint {
                host: "realtime.example.com".to_string(),
                port: 443,
                ports: vec![443],
                protocol: "websocket".to_string(),
                access: "read-write".to_string(),
                ..Default::default()
            }],
            ..Default::default()
        },
    );

    let result = merge_policy(
        policy,
        &[PolicyMergeOp::AddAllowRules {
            host: "realtime.example.com".to_string(),
            port: 443,
            rules: vec![rest_rule("WEBSOCKET_TEXT", "/rooms/private/**")],
        }],
    )
    .expect("merge should succeed");

    let endpoint = &result.policy.network_policies.get("realtime").unwrap().endpoints[0];
    assert!(endpoint.access.is_empty());
    assert_eq!(endpoint.rules.len(), 3);
    assert!(endpoint.rules.contains(&rest_rule("GET", "**")));
    assert!(endpoint.rules.contains(&rest_rule("WEBSOCKET_TEXT", "**")));
    assert!(
        endpoint
            .rules
            .contains(&rest_rule("WEBSOCKET_TEXT", "/rooms/private/**"))
    );
    assert!(!endpoint.rules.contains(&rest_rule("POST", "**")));
    assert!(result.warnings.iter().any(|warning| matches!(
        warning,
        PolicyMergeWarning::ExpandedAccessPreset { access, .. } if access == "read-write"
    )));
}

#[test]
fn add_deny_accepts_websocket_protocol() {
    let mut policy = restrictive_default_policy();
    policy.network_policies.insert(
        "realtime".to_string(),
        NetworkPolicyRule {
            name: "realtime".to_string(),
            endpoints: vec![NetworkEndpoint {
                host: "realtime.example.com".to_string(),
                port: 443,
                ports: vec![443],
                protocol: "websocket".to_string(),
                access: "read-write".to_string(),
                ..Default::default()
            }],
            ..Default::default()
        },
    );

    let result = merge_policy(
        policy,
        &[PolicyMergeOp::AddDenyRules {
            host: "realtime.example.com".to_string(),
            port: 443,
            deny_rules: vec![L7DenyRule {
                method: "WEBSOCKET_TEXT".to_string(),
                path: "/admin/**".to_string(),
                ..Default::default()
            }],
        }],
    )
    .expect("merge should succeed");

    let endpoint = &result.policy.network_policies.get("realtime").unwrap().endpoints[0];
    assert_eq!(endpoint.deny_rules.len(), 1);
    assert_eq!(endpoint.deny_rules[0].method, "WEBSOCKET_TEXT");
    assert_eq!(endpoint.deny_rules[0].path, "/admin/**");
}

#[test]
fn add_deny_rejects_unsupported_protocol() {
    let mut policy = restrictive_default_policy();
    policy.network_policies.insert(
        "db".to_string(),
        NetworkPolicyRule {
            name: "db".to_string(),
            endpoints: vec![NetworkEndpoint {
                host: "db.example.com".to_string(),
                port: 5432,
                ports: vec![5432],
                protocol: "sql".to_string(),
                access: "full".to_string(),
                ..Default::default()
            }],
            ..Default::default()
        },
    );

    let error = merge_policy(
        policy,
        &[PolicyMergeOp::AddDenyRules {
            host: "db.example.com".to_string(),
            port: 5432,
            deny_rules: vec![L7DenyRule {
                method: "POST".to_string(),
                path: "/admin".to_string(),
                ..Default::default()
            }],
        }],
    )
    .expect_err("merge should fail");

    assert!(matches!(
        error,
        PolicyMergeError::UnsupportedEndpointProtocol { protocol, .. } if protocol == "sql"
    ));
}

#[test]
fn remove_endpoint_drops_only_requested_port() {
    let mut policy = restrictive_default_policy();
    policy.network_policies.insert(
        "multi".to_string(),
        NetworkPolicyRule {
            name: "multi".to_string(),
            endpoints: vec![NetworkEndpoint {
                host: "api.example.com".to_string(),
                port: 80,
                ports: vec![80, 443],
                ..Default::default()
            }],
            ..Default::default()
        },
    );

    let result = merge_policy(
        policy,
        &[PolicyMergeOp::RemoveEndpoint {
            rule_name: None,
            host: "api.example.com".to_string(),
            port: 443,
        }],
    )
    .expect("merge should succeed");

    let endpoint = &result.policy.network_policies.get("multi").unwrap().endpoints[0];
    assert_eq!(endpoint.ports, vec![80]);
    assert_eq!(endpoint.port, 80);
}

#[test]
fn remove_binary_removes_rule_when_last_binary_is_deleted() {
    let mut policy = restrictive_default_policy();
    policy.network_policies.insert(
        "github".to_string(),
        NetworkPolicyRule {
            name: "github".to_string(),
            endpoints: vec![endpoint("api.github.com", 443)],
            binaries: vec![NetworkBinary {
                path: "/usr/bin/gh".to_string(),
                ..Default::default()
            }],
        },
    );

    let result = merge_policy(
        policy,
        &[PolicyMergeOp::RemoveBinary {
            rule_name: "github".to_string(),
            binary_path: "/usr/bin/gh".to_string(),
        }],
    )
    .expect("merge should succeed");

    assert!(!result.policy.network_policies.contains_key("github"));
}

#[test]
fn policy_covers_rule_returns_true_when_merged_rule_present() {
    let proposed = NetworkPolicyRule {
        name: "agent_proposed".to_string(),
        endpoints: vec![endpoint("api.github.com", 443)],
        binaries: vec![NetworkBinary {
            path: "/usr/bin/curl".to_string(),
            ..Default::default()
        }],
    };

    let merged = merge_policy(
        restrictive_default_policy(),
        &[PolicyMergeOp::AddRule {
            rule_name: "allow_api_github_com_443".to_string(),
            rule: proposed.clone(),
        }],
    )
    .expect("merge should succeed");

    assert!(policy_covers_rule(&merged.policy, &proposed));
}

#[test]
fn policy_covers_rule_returns_false_when_unrelated_rule_present() {
    let proposed = NetworkPolicyRule {
        name: "agent_proposed".to_string(),
        endpoints: vec![endpoint("api.github.com", 443)],
        binaries: vec![NetworkBinary {
            path: "/usr/bin/curl".to_string(),
            ..Default::default()
        }],
    };

    // Merge an *unrelated* rule for a different host. The proposed rule
    // for api.github.com is still not present — this is John's
    // "false-wakeup" case: an unrelated policy reload must not signal
    // that the agent's rule is loaded.
    let merged = merge_policy(
        restrictive_default_policy(),
        &[PolicyMergeOp::AddRule {
            rule_name: "allow_api_example_com_443".to_string(),
            rule: rule_with_endpoint("unrelated", "api.example.com", 443),
        }],
    )
    .expect("merge should succeed");

    assert!(!policy_covers_rule(&merged.policy, &proposed));
}

#[test]
fn policy_covers_rule_handles_merge_into_existing_endpoint() {
    // The merge logic folds a new rule into an existing rule when their
    // endpoints overlap, even under a different network_policies key.
    // Coverage must survive that fold — name-keyed checks would miss it.
    let proposed = NetworkPolicyRule {
        name: "agent_proposed".to_string(),
        endpoints: vec![endpoint("api.github.com", 443)],
        binaries: vec![NetworkBinary {
            path: "/usr/bin/curl".to_string(),
            ..Default::default()
        }],
    };

    let mut policy = restrictive_default_policy();
    policy.network_policies.insert(
        "preexisting_github".to_string(),
        NetworkPolicyRule {
            name: "preexisting_github".to_string(),
            endpoints: vec![endpoint("api.github.com", 443)],
            binaries: vec![NetworkBinary {
                path: "/usr/bin/git".to_string(),
                ..Default::default()
            }],
        },
    );

    let merged = merge_policy(
        policy,
        &[PolicyMergeOp::AddRule {
            rule_name: "allow_api_github_com_443".to_string(),
            rule: proposed.clone(),
        }],
    )
    .expect("merge should succeed");

    assert!(
        !merged
            .policy
            .network_policies
            .contains_key("allow_api_github_com_443"),
        "proposed rule should have been folded into the existing key"
    );
    assert!(policy_covers_rule(&merged.policy, &proposed));
}

#[test]
fn policy_covers_rule_returns_false_when_binary_missing() {
    let proposed = NetworkPolicyRule {
        name: "agent_proposed".to_string(),
        endpoints: vec![endpoint("api.github.com", 443)],
        binaries: vec![NetworkBinary {
            path: "/usr/bin/curl".to_string(),
            ..Default::default()
        }],
    };

    // Endpoint exists in the policy but with a *different* binary. The
    // agent's retry would still be denied; reload coverage should
    // reflect that.
    let mut policy = restrictive_default_policy();
    policy.network_policies.insert(
        "existing".to_string(),
        NetworkPolicyRule {
            name: "existing".to_string(),
            endpoints: vec![endpoint("api.github.com", 443)],
            binaries: vec![NetworkBinary {
                path: "/usr/bin/git".to_string(),
                ..Default::default()
            }],
        },
    );

    assert!(!policy_covers_rule(&policy, &proposed));
}

#[test]
fn policy_covers_rule_returns_false_for_empty_proposed_endpoints() {
    // Defensive: a rule with no endpoints carries no signal we can match
    // on, so coverage is never true.
    let proposed = NetworkPolicyRule::default();
    let policy = restrictive_default_policy();
    assert!(!policy_covers_rule(&policy, &proposed));
}

#[test]
fn policy_covers_rule_returns_false_when_proposed_l7_method_not_loaded() {
    // John's false-wakeup mode at L7: the supervisor has an
    // overlapping endpoint loaded (e.g. read-only GET), but the
    // chunk's proposed PUT method is not in the merged endpoint's
    // rules yet. Coverage must NOT return true here, or the agent
    // retries the PUT and hits another policy_denied.
    let proposed = NetworkPolicyRule {
        name: "agent_put".to_string(),
        endpoints: vec![NetworkEndpoint {
            host: "api.github.com".to_string(),
            port: 443,
            ports: vec![443],
            protocol: "rest".to_string(),
            rules: vec![rest_rule("PUT", "/repos/foo/bar/contents/x.md")],
            ..Default::default()
        }],
        binaries: vec![NetworkBinary {
            path: "/usr/bin/curl".to_string(),
            ..Default::default()
        }],
    };

    let mut policy = restrictive_default_policy();
    policy.network_policies.insert(
        "existing_readonly".to_string(),
        NetworkPolicyRule {
            name: "existing_readonly".to_string(),
            endpoints: vec![NetworkEndpoint {
                host: "api.github.com".to_string(),
                port: 443,
                ports: vec![443],
                protocol: "rest".to_string(),
                rules: vec![rest_rule("GET", "/repos/foo/bar/contents/x.md")],
                ..Default::default()
            }],
            binaries: vec![NetworkBinary {
                path: "/usr/bin/curl".to_string(),
                ..Default::default()
            }],
        },
    );

    assert!(
        !policy_covers_rule(&policy, &proposed),
        "endpoint overlaps but L7 PUT not loaded yet; must not signal coverage"
    );
}

#[test]
fn policy_covers_rule_returns_true_after_l7_merge_lands() {
    // Same setup as above, but with the proposed L7 rule merged in.
    // Coverage must now return true.
    let proposed = NetworkPolicyRule {
        name: "agent_put".to_string(),
        endpoints: vec![NetworkEndpoint {
            host: "api.github.com".to_string(),
            port: 443,
            ports: vec![443],
            protocol: "rest".to_string(),
            rules: vec![rest_rule("PUT", "/repos/foo/bar/contents/x.md")],
            ..Default::default()
        }],
        binaries: vec![NetworkBinary {
            path: "/usr/bin/curl".to_string(),
            ..Default::default()
        }],
    };

    let mut policy = restrictive_default_policy();
    policy.network_policies.insert(
        "existing".to_string(),
        NetworkPolicyRule {
            name: "existing".to_string(),
            endpoints: vec![NetworkEndpoint {
                host: "api.github.com".to_string(),
                port: 443,
                ports: vec![443],
                protocol: "rest".to_string(),
                rules: vec![
                    rest_rule("GET", "/repos/foo/bar/contents/x.md"),
                    rest_rule("PUT", "/repos/foo/bar/contents/x.md"),
                ],
                ..Default::default()
            }],
            binaries: vec![NetworkBinary {
                path: "/usr/bin/curl".to_string(),
                ..Default::default()
            }],
        },
    );

    assert!(policy_covers_rule(&policy, &proposed));
}

#[test]
fn policy_covers_rule_returns_true_for_l4_only_proposed_when_endpoint_present() {
    // A chunk that targets a non-REST surface (no L7 rules) needs
    // only the L4 endpoint match to be considered covered. Empty
    // proposed.rules must not be treated as "no method matches".
    let proposed = NetworkPolicyRule {
        name: "ssh_clone".to_string(),
        endpoints: vec![NetworkEndpoint {
            host: "github.com".to_string(),
            port: 22,
            ports: vec![22],
            ..Default::default()
        }],
        binaries: vec![NetworkBinary {
            path: "/usr/bin/git".to_string(),
            ..Default::default()
        }],
    };

    let merged = merge_policy(
        restrictive_default_policy(),
        &[PolicyMergeOp::AddRule {
            rule_name: "allow_github_com_22".to_string(),
            rule: proposed.clone(),
        }],
    )
    .expect("merge should succeed");

    assert!(policy_covers_rule(&merged.policy, &proposed));
}

#[test]
fn policy_covers_rule_requires_loaded_any_binary_scope_for_any_binary_proposal() {
    // A proposed rule with no binaries is the "any binary" shape.
    // A specific loaded binary list cannot cover that Cartesian scope.
    let proposed = NetworkPolicyRule {
        name: "any_binary_rule".to_string(),
        endpoints: vec![endpoint("api.github.com", 443)],
        binaries: vec![],
    };

    let mut policy = restrictive_default_policy();
    policy.network_policies.insert(
        "existing".to_string(),
        NetworkPolicyRule {
            name: "existing".to_string(),
            endpoints: vec![endpoint("api.github.com", 443)],
            binaries: vec![NetworkBinary {
                path: "/usr/bin/curl".to_string(),
                ..Default::default()
            }],
        },
    );

    assert!(
        !policy_covers_rule(&policy, &proposed),
        "a specific loaded binary list must not cover an any-binary proposal"
    );

    let mut existing = policy
        .network_policies
        .remove("existing")
        .expect("existing rule");
    existing.binaries.clear();
    policy
        .network_policies
        .insert("existing".to_string(), existing);
    assert!(policy_covers_rule(&policy, &proposed));
}

#[test]
fn add_rule_without_existing_match_inserts_requested_key() {
    let policy = restrictive_default_policy();
    let result = merge_policy(
        policy,
        &[PolicyMergeOp::AddRule {
            rule_name: "allow_api_example_com_443".to_string(),
            rule: rule_with_endpoint("custom", "api.example.com", 443),
        }],
    )
    .expect("merge should succeed");

    assert!(
        result
            .policy
            .network_policies
            .contains_key("allow_api_example_com_443")
    );
}

/// Provider-injected rules (`_provider_*`) are excluded from the
/// endpoint-overlap fallback: an agent chunk for the same `(host, port)`
/// as a provider rule lands as its own key instead of being merged into
/// the provider's rule. This keeps agent contributions honestly narrow
/// (no silent expansion via the provider rule's `access` shorthand) and
/// preserves binary-list separation.
#[test]
fn add_rule_does_not_merge_agent_chunk_into_provider_rule() {
    // Compose a policy where the github provider profile contributes a
    // `_provider_*` rule for api.github.com with `access: read-write`
    // and gh/git binaries.
    let provider_rule = NetworkPolicyRule {
        name: "_provider_work_github".to_string(),
        endpoints: vec![NetworkEndpoint {
            host: "api.github.com".to_string(),
            port: 443,
            protocol: "rest".to_string(),
            enforcement: "enforce".to_string(),
            access: "read-write".to_string(),
            ..Default::default()
        }],
        binaries: vec![NetworkBinary {
            path: "/usr/bin/gh".to_string(),
            ..Default::default()
        }],
    };
    let mut composed = SandboxPolicy::default();
    composed
        .network_policies
        .insert("_provider_work_github".to_string(), provider_rule);
    assert!(
        composed
            .network_policies
            .contains_key("_provider_work_github"),
        "precondition: provider rule must be present in baseline"
    );

    // Agent submits a narrow PUT rule targeting the same host/port via
    // curl. Without the filter, this would merge into the provider rule.
    let agent_rule = NetworkPolicyRule {
        name: "github_contents_put".to_string(),
        endpoints: vec![NetworkEndpoint {
            host: "api.github.com".to_string(),
            port: 443,
            protocol: "rest".to_string(),
            enforcement: "enforce".to_string(),
            rules: vec![rest_rule("PUT", "/repos/owner/repo/contents/file.md")],
            ..Default::default()
        }],
        binaries: vec![NetworkBinary {
            path: "/usr/bin/curl".to_string(),
            ..Default::default()
        }],
    };
    let result = merge_policy(
        composed,
        &[PolicyMergeOp::AddRule {
            rule_name: "github_contents_put".to_string(),
            rule: agent_rule,
        }],
    )
    .expect("merge should succeed");

    // The agent's chunk lands as its own rule key.
    assert!(
        result
            .policy
            .network_policies
            .contains_key("github_contents_put"),
        "agent chunk must land as a separate rule (not merged into the provider rule); \
         got keys: {:?}",
        result.policy.network_policies
    );

    // The provider rule is unchanged: still has only gh as a binary
    // (no silent broadening), still has the read-write shorthand
    // intact (no preset expansion into wildcard paths).
    let provider_rule_after = result
        .policy
        .network_policies
        .get("_provider_work_github")
        .expect("provider rule must still be present");
    assert_eq!(
        provider_rule_after.binaries.len(),
        1,
        "provider rule's binary list must NOT have been merged with the agent's binaries"
    );
    assert_eq!(provider_rule_after.binaries[0].path, "/usr/bin/gh");
    assert_eq!(
        provider_rule_after.endpoints[0].access, "read-write",
        "provider rule's `access` shorthand must remain intact"
    );
    assert!(
        provider_rule_after.endpoints[0].rules.is_empty(),
        "provider rule must NOT have had its access expanded into explicit wildcard rules"
    );

    // The agent's rule retains its narrow scope.
    let agent_rule_after = &result.policy.network_policies.get("github_contents_put").unwrap();
    assert_eq!(agent_rule_after.binaries[0].path, "/usr/bin/curl");
    assert_eq!(agent_rule_after.endpoints[0].rules.len(), 1);
}

/// Non-provider rules still merge by endpoint overlap when the incoming
/// `rule_name` doesn't match an existing key. This preserves the
/// long-standing behavior for user-authored and mechanistic chunks.
#[test]
fn add_rule_still_merges_user_chunk_into_user_rule_by_endpoint_overlap() {
    let mut policy = restrictive_default_policy();
    policy.network_policies.insert(
        "custom_github".to_string(),
        rule_with_endpoint("custom_github", "api.github.com", 443),
    );

    let incoming = NetworkPolicyRule {
        name: "ignored_when_merging".to_string(),
        endpoints: vec![endpoint("api.github.com", 443)],
        binaries: vec![NetworkBinary {
            path: "/usr/bin/curl".to_string(),
            ..Default::default()
        }],
    };
    let result = merge_policy(
        policy,
        &[PolicyMergeOp::AddRule {
            rule_name: "different_name".to_string(),
            rule: incoming,
        }],
    )
    .expect("merge should succeed");

    // No new rule entry was created — the chunk merged into the
    // existing user rule via endpoint overlap.
    assert!(
        !result
            .policy
            .network_policies
            .contains_key("different_name"),
        "user-authored rule overlap should still merge (no new key); \
         got keys: {:?}",
        result.policy.network_policies
    );
    let merged = &result.policy.network_policies.get("custom_github").unwrap();
    assert!(
        merged.binaries.iter().any(|b| b.path == "/usr/bin/curl"),
        "user rule should have absorbed the incoming curl binary"
    );
}
