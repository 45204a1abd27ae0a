//! What a policy merge does, stated over what policies stand for.
use vstd::prelude::*;

use crate::merge_types::{PolicyMergeErrorView, PolicyMergeOpView, PolicyMergeWarningView};
use crate::order::arranged;
use crate::policy::{
    L7AllowView, L7DenyRuleView, L7RuleView, NetworkBinaryView, NetworkEndpointView,
    NetworkPolicyRuleView, SandboxPolicyView,
};
use crate::text::{alphanumeric, bool_chars, decimal, precedes, same_ignoring_case, trimmed};
use crate::values::{appended_unique, ranking, unique};

verus! {

/// The body size that applies where an MCP endpoint sets none.
pub const DEFAULT_JSON_RPC_MAX_BODY_BYTES: u32 = 65536;

/// The position `i` is the first whose item meets `p`.
pub open spec fn is_first<A>(s: Seq<A>, p: spec_fn(A) -> bool, i: int) -> bool {
    &&& 0 <= i < s.len()
    &&& p(s[i])
    &&& forall|j: int| 0 <= j < i ==> !p(#[trigger] s[j])
}

/// The first position whose item meets `p`.
pub open spec fn first_where<A>(s: Seq<A>, p: spec_fn(A) -> bool) -> Option<int> {
    if exists|i: int| is_first(s, p, i) {
        Some(choose|i: int| is_first(s, p, i))
    } else {
        None
    }
}

/// `k` is the least key whose entry meets `p`.
pub open spec fn is_least_key<A>(
    m: Map<Seq<char>, A>,
    p: spec_fn(Seq<char>, A) -> bool,
    k: Seq<char>,
) -> bool {
    &&& m.contains_key(k)
    &&& p(k, m[k])
    &&& forall|other: Seq<char>|
        #![trigger m.contains_key(other)]
        m.contains_key(other) && p(other, m[other]) ==> other == k || precedes(k, other)
}

/// The least key whose entry meets `p`.
pub open spec fn least_key<A>(m: Map<Seq<char>, A>, p: spec_fn(Seq<char>, A) -> bool) -> Option<
    Seq<char>,
> {
    if exists|k: Seq<char>| is_least_key(m, p, k) {
        Some(choose|k: Seq<char>| is_least_key(m, p, k))
    } else {
        None
    }
}

// Ports.
/// The ports of an endpoint: its list, or else its single port unless that is zero.
pub open spec fn canonical_ports(e: NetworkEndpointView) -> Seq<u32> {
    if e.ports.len() > 0 {
        e.ports
    } else if e.port > 0 {
        seq![e.port]
    } else {
        Seq::empty()
    }
}

/// The ports once each, in ascending order.
pub open spec fn ordered_ports(ports: Seq<u32>) -> Seq<u32> {
    arranged(ports, ranking::<u32>())
}

/// The first port of a list, or zero.
pub open spec fn leading_port(ports: Seq<u32>) -> u32 {
    if ports.len() > 0 {
        ports[0]
    } else {
        0
    }
}

/// The endpoint with its ports replaced.
pub open spec fn with_ports(e: NetworkEndpointView, ports: Seq<u32>) -> NetworkEndpointView {
    NetworkEndpointView { port: leading_port(ports), ports: ports, ..e }
}

/// The two port lists have a port in common.
pub open spec fn share_port(a: Seq<u32>, b: Seq<u32>) -> bool {
    exists|p: u32| #[trigger] a.contains(p) && b.contains(p)
}

// Coverage.
/// Equal protocols, `mcp` in whatever case.
pub open spec fn protocols_match(a: Seq<char>, b: Seq<char>) -> bool {
    if same_ignoring_case(a, "mcp"@) || same_ignoring_case(b, "mcp"@) {
        same_ignoring_case(a, "mcp"@) && same_ignoring_case(b, "mcp"@)
    } else {
        a == b
    }
}

/// The TLS mode that applies.
pub open spec fn effective_tls(value: Seq<char>) -> Seq<char> {
    if value.len() == 0 || value == "terminate"@ || value == "passthrough"@ {
        "auto"@
    } else {
        value
    }
}

/// The enforcement that applies.
pub open spec fn effective_enforcement(value: Seq<char>) -> Seq<char> {
    if value.len() == 0 {
        "audit"@
    } else {
        value
    }
}

/// The body size that applies.
pub open spec fn effective_json_rpc_max_body_bytes(value: u32) -> u32 {
    if value == 0 {
        DEFAULT_JSON_RPC_MAX_BODY_BYTES
    } else {
        value
    }
}

/// How MCP traffic of an endpoint is inspected, defaults filled in.
#[derive(Debug, Clone, Copy, PartialEq, Eq, Structural)]
pub struct EffectiveMcpContract {
    pub strict_tool_names: bool,
    pub allow_all_known_mcp_methods: bool,
    pub max_body_bytes: u32,
}

/// The inspection contract of an MCP endpoint; none for another protocol.
pub open spec fn effective_mcp_contract(e: NetworkEndpointView) -> Option<EffectiveMcpContract> {
    if same_ignoring_case(e.protocol, "mcp"@) {
        Some(
            EffectiveMcpContract {
                strict_tool_names: match e.mcp {
                    Some(options) => match options.strict_tool_names {
                        Some(flag) => flag,
                        None => true,
                    },
                    None => true,
                },
                allow_all_known_mcp_methods: match e.mcp {
                    Some(options) => match options.allow_all_known_mcp_methods {
                        Some(flag) => flag,
                        None => false,
                    },
                    None => false,
                },
                max_body_bytes: effective_json_rpc_max_body_bytes(e.json_rpc_max_body_bytes),
            },
        )
    } else {
        None
    }
}

/// The endpoint speaks MCP or carries options for it.
pub open spec fn endpoint_uses_mcp(e: NetworkEndpointView) -> bool {
    same_ignoring_case(e.protocol, "mcp"@) || e.mcp is Some
}

/// Both endpoints have the same MCP contract, or neither has to do with MCP.
pub open spec fn mcp_contracts_match(a: NetworkEndpointView, b: NetworkEndpointView) -> bool {
    match (effective_mcp_contract(a), effective_mcp_contract(b)) {
        (None, None) => !endpoint_uses_mcp(a) && !endpoint_uses_mcp(b),
        (Some(x), Some(y)) => x == y,
        _ => false,
    }
}

/// Every member of the second list is in the first.
pub open spec fn contains_all<A>(loaded: Seq<A>, proposed: Seq<A>) -> bool {
    forall|x: A| #[trigger] proposed.contains(x) ==> loaded.contains(x)
}

/// A flag that is asked for is set.
pub open spec fn flag_covers(loaded: bool, proposed: bool) -> bool {
    proposed ==> loaded
}

/// What the loaded endpoint authorizes contains what the proposed one does.
pub open spec fn endpoint_authorization_covers(
    loaded: NetworkEndpointView,
    proposed: NetworkEndpointView,
) -> bool {
    &&& same_ignoring_case(loaded.host, proposed.host)
    &&& loaded.path == proposed.path
    &&& contains_all(canonical_ports(loaded), canonical_ports(proposed))
    &&& protocols_match(loaded.protocol, proposed.protocol)
    &&& effective_tls(loaded.tls) == effective_tls(proposed.tls)
    &&& effective_enforcement(loaded.enforcement) == effective_enforcement(proposed.enforcement)
    &&& mcp_contracts_match(loaded, proposed)
    &&& proposed.access.len() > 0 ==> loaded.access == proposed.access
    &&& contains_all(loaded.rules, proposed.rules)
    &&& contains_all(loaded.deny_rules, proposed.deny_rules)
    &&& contains_all(loaded.allowed_ips, proposed.allowed_ips)
    &&& flag_covers(loaded.allow_encoded_slash, proposed.allow_encoded_slash)
    &&& flag_covers(loaded.websocket_credential_rewrite, proposed.websocket_credential_rewrite)
    &&& flag_covers(
        loaded.request_body_credential_rewrite,
        proposed.request_body_credential_rewrite,
    )
    &&& flag_covers(loaded.advisor_proposed, proposed.advisor_proposed)
    &&& loaded.persisted_queries == proposed.persisted_queries
    &&& loaded.graphql_persisted_queries == proposed.graphql_persisted_queries
    &&& loaded.graphql_max_body_bytes == proposed.graphql_max_body_bytes
    &&& loaded.credential_signing == proposed.credential_signing
    &&& loaded.signing_service == proposed.signing_service
    &&& loaded.signing_region == proposed.signing_region
    &&& endpoint_uses_mcp(loaded) || loaded.json_rpc_max_body_bytes
        == proposed.json_rpc_max_body_bytes
}

/// Each endpoint authorizes what the other does.
pub open spec fn endpoint_authorizations_equivalent(
    a: NetworkEndpointView,
    b: NetworkEndpointView,
) -> bool {
    endpoint_authorization_covers(a, b) && endpoint_authorization_covers(b, a)
}

/// Some of the endpoints covers the proposed one.
pub open spec fn any_covers(
    endpoints: Seq<NetworkEndpointView>,
    proposed: NetworkEndpointView,
) -> bool {
    exists|i: int|
        0 <= i < endpoints.len() && endpoint_authorization_covers(#[trigger] endpoints[i], proposed)
}

/// Some of the endpoints authorizes exactly what the given one does.
pub open spec fn any_equivalent(
    endpoints: Seq<NetworkEndpointView>,
    e: NetworkEndpointView,
) -> bool {
    exists|i: int|
        0 <= i < endpoints.len() && endpoint_authorizations_equivalent(#[trigger] endpoints[i], e)
}

/// Some of the binaries has the path.
pub open spec fn has_path(binaries: Seq<NetworkBinaryView>, path: Seq<char>) -> bool {
    exists|i: int| 0 <= i < binaries.len() && (#[trigger] binaries[i]).path == path
}

/// The rule applies to the binary: it names it, or names none.
pub open spec fn binary_scope_covers(rule: NetworkPolicyRuleView, path: Seq<char>) -> bool {
    rule.binaries.len() == 0 || has_path(rule.binaries, path)
}

/// Some rule that applies to any binary covers the endpoint.
pub open spec fn any_binary_covered(
    policies: Map<Seq<char>, NetworkPolicyRuleView>,
    e: NetworkEndpointView,
) -> bool {
    exists|k: Seq<char>| #[trigger]
        policies.contains_key(k) && policies[k].binaries.len() == 0 && any_covers(
            policies[k].endpoints,
            e,
        )
}

/// Some rule that applies to the binary covers the endpoint.
pub open spec fn binary_covered(
    policies: Map<Seq<char>, NetworkPolicyRuleView>,
    path: Seq<char>,
    e: NetworkEndpointView,
) -> bool {
    exists|k: Seq<char>| #[trigger]
        policies.contains_key(k) && binary_scope_covers(policies[k], path) && any_covers(
            policies[k].endpoints,
            e,
        )
}

/// The policy grants each proposed binary (any binary, where none is named) each
/// proposed endpoint, and something is proposed.
pub open spec fn policy_covers(policy: SandboxPolicyView, proposed: NetworkPolicyRuleView) -> bool {
    &&& proposed.endpoints.len() > 0
    &&& proposed.binaries.len() == 0 ==> forall|i: int|
        0 <= i < proposed.endpoints.len() ==> any_binary_covered(
            policy.network_policies,
            #[trigger] proposed.endpoints[i],
        )
    &&& forall|i: int, j: int|
        0 <= i < proposed.endpoints.len() && 0 <= j < proposed.binaries.len() ==> binary_covered(
            policy.network_policies,
            (#[trigger] proposed.binaries[j]).path,
            #[trigger] proposed.endpoints[i],
        )
}

// Normalization.
/// The endpoint with its ports in order and nothing listed twice.
pub open spec fn normalized_endpoint(e: NetworkEndpointView) -> NetworkEndpointView {
    let ports = ordered_ports(canonical_ports(e));
    NetworkEndpointView {
        port: leading_port(ports),
        ports: ports,
        allowed_ips: unique(e.allowed_ips),
        rules: unique(e.rules),
        deny_rules: unique(e.deny_rules),
        ..e
    }
}

/// The binaries with one more, unless its path is there already. One that comes again and
/// that no advisor proposed turns the entry into one that the user declared.
pub open spec fn binary_appended(
    binaries: Seq<NetworkBinaryView>,
    binary: NetworkBinaryView,
) -> Seq<NetworkBinaryView> {
    match first_where(binaries, |b: NetworkBinaryView| b.path == binary.path) {
        Some(i) => if binary.harness {
            binaries
        } else {
            binaries.update(i, NetworkBinaryView { harness: false, ..binaries[i] })
        },
        None => binaries.push(binary),
    }
}

/// `existing` with the incoming binaries appended in turn.
pub open spec fn appended_binaries(
    existing: Seq<NetworkBinaryView>,
    incoming: Seq<NetworkBinaryView>,
) -> Seq<NetworkBinaryView>
    decreases incoming.len(),
{
    if incoming.len() == 0 {
        existing
    } else {
        binary_appended(appended_binaries(existing, incoming.drop_last()), incoming.last())
    }
}

/// The rule with each endpoint normalized and each binary listed once.
pub open spec fn normalized_rule(rule: NetworkPolicyRuleView) -> NetworkPolicyRuleView {
    NetworkPolicyRuleView {
        endpoints: rule.endpoints.map_values(|e: NetworkEndpointView| normalized_endpoint(e)),
        binaries: appended_binaries(Seq::empty(), rule.binaries),
        ..rule
    }
}

// Access presets.
/// The methods that an access preset stands for under a protocol.
pub open spec fn preset_methods(protocol: Seq<char>, access: Seq<char>) -> Option<Seq<Seq<char>>> {
    if access == "full"@ {
        Some(seq!["*"@])
    } else if protocol == "websocket"@ && access == "read-only"@ {
        Some(seq!["GET"@])
    } else if protocol == "websocket"@ && access == "read-write"@ {
        Some(seq!["GET"@, "WEBSOCKET_TEXT"@])
    } else if access == "read-only"@ {
        Some(seq!["GET"@, "HEAD"@, "OPTIONS"@])
    } else if access == "read-write"@ {
        Some(seq!["GET"@, "HEAD"@, "OPTIONS"@, "POST"@, "PUT"@, "PATCH"@])
    } else {
        None
    }
}

/// The rule that allows a method on every path.
pub open spec fn method_rule(method: Seq<char>) -> L7RuleView {
    L7RuleView {
        allow: Some(
            L7AllowView {
                method: method,
                path: "**"@,
                command: Seq::empty(),
                query: Map::empty(),
                operation_type: Seq::empty(),
                operation_name: Seq::empty(),
                fields: Seq::empty(),
                params: Map::empty(),
            },
        ),
    }
}

/// The rules that an access preset stands for under a protocol.
pub open spec fn preset_rules(protocol: Seq<char>, access: Seq<char>) -> Option<Seq<L7RuleView>> {
    match preset_methods(protocol, access) {
        Some(methods) => Some(methods.map_values(|m: Seq<char>| method_rule(m))),
        None => None,
    }
}

// Endpoints.
/// Same host but for case, same path, and a port in common.
pub open spec fn endpoints_overlap(a: NetworkEndpointView, b: NetworkEndpointView) -> bool {
    &&& same_ignoring_case(a.host, b.host)
    &&& a.path == b.path
    &&& share_port(canonical_ports(a), canonical_ports(b))
}

/// Some endpoint of one rule overlaps some endpoint of the other.
pub open spec fn rules_share_endpoint(a: NetworkPolicyRuleView, b: NetworkPolicyRuleView) -> bool {
    exists|i: int, j: int|
        0 <= i < a.endpoints.len() && 0 <= j < b.endpoints.len() && endpoints_overlap(
            #[trigger] a.endpoints[i],
            #[trigger] b.endpoints[j],
        )
}

/// An endpoint without an inspection contract takes over a complete MCP contract.
pub open spec fn promotes_l4_endpoint_to_mcp(
    existing: NetworkEndpointView,
    incoming: NetworkEndpointView,
) -> bool {
    &&& existing.protocol.len() == 0
    &&& existing.mcp is None
    &&& existing.json_rpc_max_body_bytes == 0
    &&& effective_mcp_contract(incoming) is Some
}

/// The words for an endpoint's MCP contract.
pub open spec fn mcp_contract_words(e: NetworkEndpointView) -> Seq<char> {
    match effective_mcp_contract(e) {
        Some(c) => "mcp(strict_tool_names="@ + bool_chars(c.strict_tool_names)
            + ", allow_all_known_mcp_methods="@ + bool_chars(c.allow_all_known_mcp_methods)
            + ", max_body_bytes="@ + decimal(c.max_body_bytes as nat) + ")"@,
        None => "non-mcp(protocol='"@ + e.protocol + "')"@,
    }
}

/// What is set stays; what is empty takes the incoming value.
pub open spec fn retained(existing: Seq<char>, incoming: Seq<char>) -> Seq<char> {
    if existing.len() == 0 {
        incoming
    } else {
        existing
    }
}

/// Both values are set, and they differ.
pub open spec fn disagree(existing: Seq<char>, incoming: Seq<char>) -> bool {
    existing.len() > 0 && incoming.len() > 0 && existing != incoming
}

/// The port that is named when two endpoints meet: the first existing port that is
/// also incoming, or else the first incoming port.
pub open spec fn meeting_port(existing: Seq<u32>, incoming: Seq<u32>) -> u32 {
    match first_where(existing, |p: u32| incoming.contains(p)) {
        Some(i) => existing[i],
        None => leading_port(incoming),
    }
}

/// The allow rules before an incoming list is appended: an access preset is written out.
pub open spec fn rules_with_preset(
    rules: Seq<L7RuleView>,
    protocol: Seq<char>,
    access: Seq<char>,
) -> Seq<L7RuleView> {
    match preset_rules(protocol, access) {
        Some(expanded) => appended_unique(rules, expanded),
        None => rules,
    }
}

/// The settings of two endpoints put together: ports widen, an endpoint without a
/// contract takes over an MCP contract, and what is set stays.
pub open spec fn settings_merged(
    existing: NetworkEndpointView,
    incoming: NetworkEndpointView,
) -> NetworkEndpointView {
    let promotes = promotes_l4_endpoint_to_mcp(existing, incoming);
    let ports = ordered_ports(canonical_ports(existing) + canonical_ports(incoming));
    NetworkEndpointView {
        host: retained(existing.host, incoming.host),
        path: retained(existing.path, incoming.path),
        port: leading_port(ports),
        ports: ports,
        protocol: retained(existing.protocol, incoming.protocol),
        mcp: if promotes {
            incoming.mcp
        } else {
            existing.mcp
        },
        json_rpc_max_body_bytes: if promotes {
            incoming.json_rpc_max_body_bytes
        } else {
            existing.json_rpc_max_body_bytes
        },
        enforcement: retained(existing.enforcement, incoming.enforcement),
        tls: retained(existing.tls, incoming.tls),
        ..existing
    }
}

/// The allow rules and the access preset of two endpoints put together.
pub open spec fn access_merged(
    existing: NetworkEndpointView,
    incoming: NetworkEndpointView,
) -> NetworkEndpointView {
    NetworkEndpointView {
        access: if incoming.rules.len() > 0 {
            Seq::empty()
        } else if existing.rules.len() == 0 {
            retained(existing.access, incoming.access)
        } else {
            existing.access
        },
        rules: if incoming.rules.len() > 0 {
            appended_unique(
                rules_with_preset(existing.rules, existing.protocol, existing.access),
                incoming.rules,
            )
        } else {
            existing.rules
        },
        ..existing
    }
}

/// The lists and flags of two endpoints put together.
pub open spec fn lists_merged(
    existing: NetworkEndpointView,
    incoming: NetworkEndpointView,
) -> NetworkEndpointView {
    NetworkEndpointView {
        deny_rules: appended_unique(existing.deny_rules, incoming.deny_rules),
        allowed_ips: appended_unique(existing.allowed_ips, incoming.allowed_ips),
        allow_encoded_slash: existing.allow_encoded_slash || incoming.allow_encoded_slash,
        websocket_credential_rewrite: existing.websocket_credential_rewrite
            || incoming.websocket_credential_rewrite,
        request_body_credential_rewrite: existing.request_body_credential_rewrite
            || incoming.request_body_credential_rewrite,
        advisor_proposed: existing.advisor_proposed || incoming.advisor_proposed,
        ..existing
    }
}

/// The endpoint that two overlapping endpoints merge into.
pub open spec fn combined_endpoint(
    existing: NetworkEndpointView,
    incoming: NetworkEndpointView,
) -> NetworkEndpointView {
    normalized_endpoint(
        lists_merged(access_merged(settings_merged(existing, incoming), incoming), incoming),
    )
}

/// The warning, if there is reason for it.
pub open spec fn warning_if(
    reason: bool,
    warning: PolicyMergeWarningView,
) -> Seq<PolicyMergeWarningView> {
    if reason {
        seq![warning]
    } else {
        Seq::empty()
    }
}

/// What is warned of when settings are put together.
pub open spec fn settings_warnings(
    existing: NetworkEndpointView,
    incoming: NetworkEndpointView,
    host: Seq<char>,
    port: u32,
) -> Seq<PolicyMergeWarningView> {
    warning_if(
        disagree(existing.protocol, incoming.protocol),
        PolicyMergeWarningView::ExistingProtocolRetained {
            host,
            port,
            existing: existing.protocol,
            incoming: incoming.protocol,
        },
    ) + warning_if(
        disagree(existing.enforcement, incoming.enforcement),
        PolicyMergeWarningView::ExistingEnforcementRetained {
            host,
            port,
            existing: existing.enforcement,
            incoming: incoming.enforcement,
        },
    ) + warning_if(
        disagree(existing.tls, incoming.tls),
        PolicyMergeWarningView::ExistingTlsRetained {
            host,
            port,
            existing: existing.tls,
            incoming: incoming.tls,
        },
    )
}

/// What is warned of when allow rules and access presets are put together.
pub open spec fn access_warnings(
    existing: NetworkEndpointView,
    incoming: NetworkEndpointView,
    host: Seq<char>,
    port: u32,
) -> Seq<PolicyMergeWarningView> {
    warning_if(
        incoming.rules.len() > 0 && existing.access.len() > 0,
        PolicyMergeWarningView::ExpandedAccessPreset { host, port, access: existing.access },
    ) + warning_if(
        incoming.access.len() > 0 && (incoming.rules.len() > 0 || existing.rules.len() > 0),
        PolicyMergeWarningView::IgnoredIncomingAccessBecauseRulesExist {
            host,
            port,
            incoming: incoming.access,
        },
    ) + warning_if(
        incoming.rules.len() == 0 && existing.rules.len() == 0 && disagree(
            existing.access,
            incoming.access,
        ),
        PolicyMergeWarningView::ExistingAccessRetained {
            host,
            port,
            existing: existing.access,
            incoming: incoming.access,
        },
    )
}

/// What is warned of when two overlapping endpoints merge.
pub open spec fn endpoint_warnings(
    existing: NetworkEndpointView,
    incoming: NetworkEndpointView,
) -> Seq<PolicyMergeWarningView> {
    let host = retained(existing.host, incoming.host);
    let port = meeting_port(canonical_ports(existing), canonical_ports(incoming));
    settings_warnings(existing, incoming, host, port) + access_warnings(
        existing,
        incoming,
        host,
        port,
    )
}

/// The outcome of merging one endpoint into one that it overlaps.
pub open spec fn merged_endpoint(
    existing: NetworkEndpointView,
    incoming: NetworkEndpointView,
    operation_index: usize,
) -> Result<(NetworkEndpointView, Seq<PolicyMergeWarningView>), PolicyMergeErrorView> {
    let host = retained(existing.host, incoming.host);
    let port = meeting_port(canonical_ports(existing), canonical_ports(incoming));
    let protocol = retained(existing.protocol, incoming.protocol);
    if !promotes_l4_endpoint_to_mcp(existing, incoming) && !mcp_contracts_match(
        existing,
        incoming,
    ) {
        Err(
            PolicyMergeErrorView::McpContractConflict {
                operation_index,
                host,
                port,
                existing: mcp_contract_words(existing),
                incoming: mcp_contract_words(incoming),
            },
        )
    } else if incoming.rules.len() > 0 && existing.access.len() > 0 && preset_rules(
        protocol,
        existing.access,
    ) is None {
        Err(PolicyMergeErrorView::UnsupportedAccessPreset { host, port, access: existing.access })
    } else {
        Ok((combined_endpoint(existing, incoming), endpoint_warnings(existing, incoming)))
    }
}

/// The outcome of merging endpoints one by one into a list: each into the first that it
/// overlaps, or else at the end.
pub open spec fn merged_endpoints(
    existing: Seq<NetworkEndpointView>,
    incoming: Seq<NetworkEndpointView>,
    operation_index: usize,
) -> Result<(Seq<NetworkEndpointView>, Seq<PolicyMergeWarningView>), PolicyMergeErrorView>
    decreases incoming.len(),
{
    if incoming.len() == 0 {
        Ok((existing, Seq::empty()))
    } else {
        match merged_endpoints(existing, incoming.drop_last(), operation_index) {
            Err(e) => Err(e),
            Ok((endpoints, warnings)) => {
                let next = normalized_endpoint(incoming.last());
                match first_where(endpoints, |e: NetworkEndpointView| endpoints_overlap(e, next)) {
                    Some(i) => match merged_endpoint(endpoints[i], next, operation_index) {
                        Err(e) => Err(e),
                        Ok((e, more)) => Ok((endpoints.update(i, e), warnings + more)),
                    },
                    None => Ok((endpoints.push(next), warnings)),
                }
            },
        }
    }
}

// Rules.
/// The first incoming binary that an existing rule does not apply to.
pub open spec fn new_binary(
    existing: NetworkPolicyRuleView,
    incoming: NetworkPolicyRuleView,
) -> Option<NetworkBinaryView> {
    match first_where(
        incoming.binaries,
        |b: NetworkBinaryView| !binary_scope_covers(existing, b.path),
    ) {
        Some(i) => Some(incoming.binaries[i]),
        None => None,
    }
}

/// The existing binaries that the incoming rule does not name.
pub open spec fn undeclared_binaries(
    existing: NetworkPolicyRuleView,
    incoming: NetworkPolicyRuleView,
) -> Seq<Seq<char>> {
    if incoming.binaries.len() == 0 {
        Seq::empty()
    } else if existing.binaries.len() == 0 {
        seq!["the existing any-binary scope"@]
    } else {
        existing.binaries.filter(
            |b: NetworkBinaryView| !has_path(incoming.binaries, b.path),
        ).map_values(|b: NetworkBinaryView| b.path)
    }
}

/// What is wrong with one endpoint of a merged rule: a new binary would reach it although
/// no incoming endpoint declares it, or it is new and some existing binary is not declared.
pub open spec fn endpoint_inheritance_error(
    existing: NetworkPolicyRuleView,
    incoming: NetworkPolicyRuleView,
    endpoint: NetworkEndpointView,
    operation_index: usize,
    rule_name: Seq<char>,
) -> Option<PolicyMergeErrorView> {
    if new_binary(existing, incoming) is Some && !any_covers(incoming.endpoints, endpoint) {
        Some(
            PolicyMergeErrorView::NewBinaryWouldInheritAuthorization {
                operation_index,
                rule_name,
                binary_path: new_binary(existing, incoming)->0.path,
                host: endpoint.host,
                ports: canonical_ports(endpoint),
            },
        )
    } else if !any_equivalent(existing.endpoints, endpoint) && undeclared_binaries(
        existing,
        incoming,
    ).len() > 0 {
        Some(
            PolicyMergeErrorView::ExistingBinariesWouldInheritAuthorization {
                operation_index,
                rule_name,
                host: endpoint.host,
                ports: canonical_ports(endpoint),
                undeclared_binaries: undeclared_binaries(existing, incoming),
            },
        )
    } else {
        None
    }
}

/// The first endpoint of a merged rule that has something wrong with it, told.
pub open spec fn inheritance_error(
    existing: NetworkPolicyRuleView,
    incoming: NetworkPolicyRuleView,
    merged: Seq<NetworkEndpointView>,
    operation_index: usize,
    rule_name: Seq<char>,
) -> Option<PolicyMergeErrorView> {
    match first_where(
        merged,
        |e: NetworkEndpointView|
            endpoint_inheritance_error(existing, incoming, e, operation_index, rule_name) is Some,
    ) {
        Some(i) => endpoint_inheritance_error(
            existing,
            incoming,
            merged[i],
            operation_index,
            rule_name,
        ),
        None => None,
    }
}

/// The outcome of merging a rule into an existing one.
pub open spec fn merged_rule(
    existing: NetworkPolicyRuleView,
    incoming: NetworkPolicyRuleView,
    operation_index: usize,
    rule_name: Seq<char>,
) -> Result<(NetworkPolicyRuleView, Seq<PolicyMergeWarningView>), PolicyMergeErrorView> {
    match merged_endpoints(existing.endpoints, incoming.endpoints, operation_index) {
        Err(e) => Err(e),
        Ok((endpoints, warnings)) => match inheritance_error(
            existing,
            incoming,
            endpoints,
            operation_index,
            rule_name,
        ) {
            Some(e) => Err(e),
            None => Ok(
                (
                    NetworkPolicyRuleView {
                        endpoints: endpoints,
                        binaries: appended_binaries(existing.binaries, incoming.binaries),
                        ..existing
                    },
                    warnings,
                ),
            ),
        },
    }
}

// Operations.
/// Rules of this name come from a provider profile.
pub open spec fn provider_rule(name: Seq<char>) -> bool {
    "_provider_"@.is_prefix_of(name)
}

/// A rule as it is merged: normalized, and named by its key where it has no name.
pub open spec fn incoming_rule(
    rule: NetworkPolicyRuleView,
    rule_name: Seq<char>,
) -> NetworkPolicyRuleView {
    NetworkPolicyRuleView { name: retained(rule.name, rule_name), ..normalized_rule(rule) }
}

/// The key of the rule that an incoming rule is merged into: its own key, or else the
/// least key, not a provider's, of a rule that shares an endpoint with it.
pub open spec fn merge_target(
    policies: Map<Seq<char>, NetworkPolicyRuleView>,
    rule_name: Seq<char>,
    incoming: NetworkPolicyRuleView,
) -> Option<Seq<char>> {
    if policies.contains_key(rule_name) {
        Some(rule_name)
    } else {
        least_key(
            policies,
            |k: Seq<char>, rule: NetworkPolicyRuleView|
                !provider_rule(k) && rules_share_endpoint(rule, incoming),
        )
    }
}

/// The policy with its rules replaced.
pub open spec fn with_rules(
    policy: SandboxPolicyView,
    rules: Map<Seq<char>, NetworkPolicyRuleView>,
) -> SandboxPolicyView {
    SandboxPolicyView { network_policies: rules, ..policy }
}

/// The outcome of adding a rule.
pub open spec fn rule_added(
    policy: SandboxPolicyView,
    operation_index: usize,
    rule_name: Seq<char>,
    rule: NetworkPolicyRuleView,
) -> Result<(SandboxPolicyView, Seq<PolicyMergeWarningView>), PolicyMergeErrorView> {
    let policies = policy.network_policies;
    let incoming = incoming_rule(rule, rule_name);
    match merge_target(policies, rule_name, incoming) {
        Some(key) => match merged_rule(policies[key], incoming, operation_index, rule_name) {
            Err(e) => Err(e),
            Ok((merged, warnings)) => Ok(
                (with_rules(policy, policies.insert(key, merged)), warnings),
            ),
        },
        None => Ok((with_rules(policy, policies.insert(rule_name, incoming)), Seq::empty())),
    }
}

/// The endpoint serves the host, but for case, on the port.
pub open spec fn endpoint_matches_host_port(
    e: NetworkEndpointView,
    host: Seq<char>,
    port: u32,
) -> bool {
    same_ignoring_case(e.host, host) && canonical_ports(e).contains(port)
}

/// The position of the first endpoint of a rule that serves the host on the port.
pub open spec fn first_endpoint(
    rule: NetworkPolicyRuleView,
    host: Seq<char>,
    port: u32,
) -> Option<int> {
    first_where(
        rule.endpoints,
        |e: NetworkEndpointView| endpoint_matches_host_port(e, host, port),
    )
}

/// The least key, not a provider's, of a rule that serves the host on the port.
pub open spec fn endpoint_key(
    policies: Map<Seq<char>, NetworkPolicyRuleView>,
    host: Seq<char>,
    port: u32,
) -> Option<Seq<char>> {
    least_key(
        policies,
        |k: Seq<char>, rule: NetworkPolicyRuleView|
            !provider_rule(k) && first_endpoint(rule, host, port) is Some,
    )
}

/// The rules with the first endpoint for the host and port, under the given key, replaced.
pub open spec fn with_endpoint(
    policies: Map<Seq<char>, NetworkPolicyRuleView>,
    key: Seq<char>,
    host: Seq<char>,
    port: u32,
    e: NetworkEndpointView,
) -> Map<Seq<char>, NetworkPolicyRuleView> {
    let rule = policies[key];
    policies.insert(
        key,
        NetworkPolicyRuleView {
            endpoints: rule.endpoints.update(first_endpoint(rule, host, port)->0, e),
            ..rule
        },
    )
}

/// Why allow or deny rules cannot be added to an endpoint of this protocol.
pub open spec fn method_path_error(
    e: NetworkEndpointView,
    host: Seq<char>,
    port: u32,
) -> Option<PolicyMergeErrorView> {
    if e.protocol.len() == 0 {
        Some(PolicyMergeErrorView::EndpointHasNoL7Inspection { host, port })
    } else if e.protocol != "rest"@ && e.protocol != "websocket"@ {
        Some(
            PolicyMergeErrorView::UnsupportedEndpointProtocol { host, port, protocol: e.protocol },
        )
    } else {
        None
    }
}

/// The outcome of adding deny rules.
pub open spec fn deny_rules_added(
    policy: SandboxPolicyView,
    host: Seq<char>,
    port: u32,
    deny_rules: Seq<L7DenyRuleView>,
) -> Result<(SandboxPolicyView, Seq<PolicyMergeWarningView>), PolicyMergeErrorView> {
    let policies = policy.network_policies;
    match endpoint_key(policies, host, port) {
        None => Err(PolicyMergeErrorView::EndpointNotFound { host, port }),
        Some(key) => {
            let e = policies[key].endpoints[first_endpoint(policies[key], host, port)->0];
            match method_path_error(e, host, port) {
                Some(error) => Err(error),
                None => if e.access.len() == 0 && e.rules.len() == 0 {
                    Err(PolicyMergeErrorView::EndpointHasNoAllowBase { host, port })
                } else {
                    let changed = NetworkEndpointView {
                        deny_rules: appended_unique(e.deny_rules, deny_rules),
                        ..e
                    };
                    Ok(
                        (
                            with_rules(policy, with_endpoint(policies, key, host, port, changed)),
                            Seq::empty(),
                        ),
                    )
                },
            }
        },
    }
}

/// The outcome of adding allow rules: an access preset is written out first.
pub open spec fn allow_rules_added(
    policy: SandboxPolicyView,
    host: Seq<char>,
    port: u32,
    rules: Seq<L7RuleView>,
) -> Result<(SandboxPolicyView, Seq<PolicyMergeWarningView>), PolicyMergeErrorView> {
    let policies = policy.network_policies;
    match endpoint_key(policies, host, port) {
        None => Err(PolicyMergeErrorView::EndpointNotFound { host, port }),
        Some(key) => {
            let e = policies[key].endpoints[first_endpoint(policies[key], host, port)->0];
            match method_path_error(e, host, port) {
                Some(error) => Err(error),
                None => if e.access.len() > 0 && preset_rules(e.protocol, e.access) is None {
                    Err(
                        PolicyMergeErrorView::UnsupportedAccessPreset {
                            host,
                            port,
                            access: e.access,
                        },
                    )
                } else {
                    let changed = NetworkEndpointView {
                        access: Seq::empty(),
                        rules: appended_unique(
                            rules_with_preset(e.rules, e.protocol, e.access),
                            rules,
                        ),
                        ..e
                    };
                    Ok(
                        (
                            with_rules(policy, with_endpoint(policies, key, host, port, changed)),
                            warning_if(
                                e.access.len() > 0,
                                PolicyMergeWarningView::ExpandedAccessPreset {
                                    host,
                                    port,
                                    access: e.access,
                                },
                            ),
                        ),
                    )
                },
            }
        },
    }
}

/// The ports but one.
pub open spec fn ports_without(ports: Seq<u32>, port: u32) -> Seq<u32> {
    ports.filter(|p: u32| p != port)
}

/// What is left of an endpoint without the port of the host: nothing where that was its
/// only port.
pub open spec fn endpoint_without(
    e: NetworkEndpointView,
    host: Seq<char>,
    port: u32,
) -> Option<NetworkEndpointView> {
    let ports = ordered_ports(ports_without(canonical_ports(e), port));
    if !endpoint_matches_host_port(e, host, port) {
        Some(e)
    } else if ports.len() == 0 {
        None
    } else {
        Some(with_ports(e, ports))
    }
}

/// What is left of each endpoint without the port of the host.
pub open spec fn endpoints_without(
    endpoints: Seq<NetworkEndpointView>,
    host: Seq<char>,
    port: u32,
) -> Seq<NetworkEndpointView>
    decreases endpoints.len(),
{
    if endpoints.len() == 0 {
        Seq::empty()
    } else {
        let before = endpoints_without(endpoints.drop_last(), host, port);
        match endpoint_without(endpoints.last(), host, port) {
            Some(e) => before.push(e),
            None => before,
        }
    }
}

/// The rules without the port of the host, in the named rule or in all; a rule that is
/// left without endpoints goes.
pub open spec fn rules_without_endpoint(
    policies: Map<Seq<char>, NetworkPolicyRuleView>,
    rule_name: Option<Seq<char>>,
    host: Seq<char>,
    port: u32,
) -> Map<Seq<char>, NetworkPolicyRuleView> {
    Map::new(
        |k: Seq<char>|
            policies.contains_key(k) && ((rule_name is None || rule_name == Some(k))
                ==> endpoints_without(policies[k].endpoints, host, port).len() > 0),
        |k: Seq<char>|
            if rule_name is None || rule_name == Some(k) {
                NetworkPolicyRuleView {
                    endpoints: endpoints_without(policies[k].endpoints, host, port),
                    ..policies[k]
                }
            } else {
                policies[k]
            },
    )
}

/// The rules without a binary of one rule; a rule that loses its last binary goes.
pub open spec fn rules_without_binary(
    policies: Map<Seq<char>, NetworkPolicyRuleView>,
    rule_name: Seq<char>,
    path: Seq<char>,
) -> Map<Seq<char>, NetworkPolicyRuleView> {
    if policies.contains_key(rule_name) {
        let rule = policies[rule_name];
        let binaries = rule.binaries.filter(|b: NetworkBinaryView| b.path != path);
        if binaries.len() == 0 && rule.binaries.len() > 0 {
            policies.remove(rule_name)
        } else {
            policies.insert(rule_name, NetworkPolicyRuleView { binaries: binaries, ..rule })
        }
    } else {
        policies
    }
}

/// What is wrong with an operation by itself.
pub open spec fn operation_error(
    operation_index: usize,
    operation: PolicyMergeOpView,
) -> Option<PolicyMergeErrorView> {
    match operation {
        PolicyMergeOpView::AddRule { rule_name, rule } => if trimmed(rule_name).len() == 0 {
            Some(PolicyMergeErrorView::MissingRuleNameForAddRule)
        } else if rule.endpoints.len() == 0 {
            Some(PolicyMergeErrorView::EmptyAddRuleEndpoints { operation_index, rule_name })
        } else {
            None
        },
        _ => None,
    }
}

/// The outcome of one operation on a policy.
pub open spec fn operation_applied(
    policy: SandboxPolicyView,
    operation_index: usize,
    operation: PolicyMergeOpView,
) -> Result<(SandboxPolicyView, Seq<PolicyMergeWarningView>), PolicyMergeErrorView> {
    let policies = policy.network_policies;
    match operation {
        PolicyMergeOpView::AddRule { rule_name, rule } => rule_added(
            policy,
            operation_index,
            rule_name,
            rule,
        ),
        PolicyMergeOpView::RemoveEndpoint { rule_name, host, port } => Ok(
            (
                with_rules(policy, rules_without_endpoint(policies, rule_name, host, port)),
                Seq::empty(),
            ),
        ),
        PolicyMergeOpView::RemoveRule { rule_name } => Ok(
            (with_rules(policy, policies.remove(rule_name)), Seq::empty()),
        ),
        PolicyMergeOpView::AddDenyRules { host, port, deny_rules } => deny_rules_added(
            policy,
            host,
            port,
            deny_rules,
        ),
        PolicyMergeOpView::AddAllowRules { host, port, rules } => allow_rules_added(
            policy,
            host,
            port,
            rules,
        ),
        PolicyMergeOpView::RemoveBinary { rule_name, binary_path } => Ok(
            (
                with_rules(policy, rules_without_binary(policies, rule_name, binary_path)),
                Seq::empty(),
            ),
        ),
    }
}

/// The outcome of the operations in order: of the first that fails, its error.
pub open spec fn operations_applied(
    policy: SandboxPolicyView,
    operations: Seq<PolicyMergeOpView>,
) -> Result<(SandboxPolicyView, Seq<PolicyMergeWarningView>), PolicyMergeErrorView>
    decreases operations.len(),
{
    if operations.len() == 0 {
        Ok((policy, Seq::empty()))
    } else {
        let index = (operations.len() - 1) as usize;
        match operations_applied(policy, operations.drop_last()) {
            Err(e) => Err(e),
            Ok((before, warnings)) => match operation_error(index, operations.last()) {
                Some(e) => Err(e),
                None => match operation_applied(before, index, operations.last()) {
                    Err(e) => Err(e),
                    Ok((after, more)) => Ok((after, warnings + more)),
                },
            },
        }
    }
}

/// A host as part of a rule name: dots and dashes become underscores, and what is then
/// neither an underscore nor alphanumeric goes.
pub open spec fn sanitized(host: Seq<char>) -> Seq<char>
    decreases host.len(),
{
    if host.len() == 0 {
        Seq::empty()
    } else {
        let before = sanitized(host.drop_last());
        let c = host.last();
        if c == '.' || c == '-' || c == '_' {
            before.push('_')
        } else if alphanumeric(c) {
            before.push(c)
        } else {
            before
        }
    }
}

} // verus!
