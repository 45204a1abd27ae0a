//! What it means that a policy covers a rule.
use vstd::prelude::*;

use crate::merge_laws::{settings_match, widens};
use crate::merge_model::{
    any_covers, binary_scope_covers, canonical_ports, endpoint_authorization_covers,
    endpoints_overlap, policy_covers, share_port,
};
use crate::policy::{NetworkEndpointView, NetworkPolicyRuleView, SandboxPolicyView};
use crate::text::same_ignoring_case;

verus! {

/// The endpoint is open on the port: one of its list, or its single port where it has no list.
pub open spec fn on_port(e: NetworkEndpointView, port: u32) -> bool {
    if e.ports.len() > 0 {
        e.ports.contains(port)
    } else {
        port != 0 && e.port == port
    }
}

/// The ports of an endpoint are those that it is open on.
pub proof fn law_ports_of_an_endpoint(e: NetworkEndpointView, port: u32)
    ensures
        canonical_ports(e).contains(port) <==> on_port(e, port),
{
    if e.ports.len() == 0 && e.port > 0 {
        assert(canonical_ports(e)[0] == e.port);
    }
}

/// The text is one of those that leave TLS to the proxy.
pub open spec fn automatic_tls(tls: Seq<char>) -> bool {
    tls == ""@ || tls == "auto"@ || tls == "terminate"@ || tls == "passthrough"@
}

/// Coverage is sound: an endpoint that covers another is for the same host, the same path and
/// the same protocol, is open on all its ports, and has what the other has. What both are
/// compared in has to agree, defaults counted as set.
pub proof fn law_coverage_is_sound(loaded: NetworkEndpointView, proposed: NetworkEndpointView)
    requires
        endpoint_authorization_covers(loaded, proposed),
    ensures
        same_ignoring_case(loaded.host, proposed.host),
        loaded.path == proposed.path,
        forall|port: u32| #[trigger] on_port(proposed, port) ==> on_port(loaded, port),
        forall|i: int|
            0 <= i < proposed.rules.len() ==> loaded.rules.contains(#[trigger] proposed.rules[i]),
        forall|i: int|
            0 <= i < proposed.deny_rules.len() ==> loaded.deny_rules.contains(
                #[trigger] proposed.deny_rules[i],
            ),
        forall|i: int|
            0 <= i < proposed.allowed_ips.len() ==> loaded.allowed_ips.contains(
                #[trigger] proposed.allowed_ips[i],
            ),
        proposed.access == loaded.access || proposed.access.len() == 0,
        proposed.allow_encoded_slash ==> loaded.allow_encoded_slash,
        proposed.websocket_credential_rewrite ==> loaded.websocket_credential_rewrite,
        proposed.request_body_credential_rewrite ==> loaded.request_body_credential_rewrite,
        proposed.advisor_proposed ==> loaded.advisor_proposed,
        loaded.persisted_queries == proposed.persisted_queries,
        loaded.graphql_persisted_queries == proposed.graphql_persisted_queries,
        loaded.graphql_max_body_bytes == proposed.graphql_max_body_bytes,
        loaded.credential_signing == proposed.credential_signing,
        loaded.signing_service == proposed.signing_service,
        loaded.signing_region == proposed.signing_region,
        loaded.tls == proposed.tls || automatic_tls(loaded.tls) && automatic_tls(proposed.tls),
        loaded.enforcement == proposed.enforcement || (loaded.enforcement == ""@
            || loaded.enforcement == "audit"@) && (proposed.enforcement == ""@
            || proposed.enforcement == "audit"@),
        same_ignoring_case(loaded.protocol, "mcp"@) <==> same_ignoring_case(
            proposed.protocol,
            "mcp"@,
        ),
        !same_ignoring_case(loaded.protocol, "mcp"@) ==> {
            &&& loaded.protocol == proposed.protocol
            &&& loaded.mcp is None
            &&& proposed.mcp is None
            &&& loaded.json_rpc_max_body_bytes == proposed.json_rpc_max_body_bytes
        },
        same_ignoring_case(loaded.protocol, "mcp"@) ==> {
            &&& (loaded.mcp is Some && loaded.mcp->0.strict_tool_names == Some(false)) <==> (
            proposed.mcp is Some && proposed.mcp->0.strict_tool_names == Some(false))
            &&& (loaded.mcp is Some && loaded.mcp->0.allow_all_known_mcp_methods == Some(true))
                <==> (proposed.mcp is Some && proposed.mcp->0.allow_all_known_mcp_methods == Some(
                true,
            ))
            &&& loaded.json_rpc_max_body_bytes == proposed.json_rpc_max_body_bytes || ({
                let sizes = (loaded.json_rpc_max_body_bytes, proposed.json_rpc_max_body_bytes);
                sizes == (0u32, 65536u32) || sizes == (65536u32, 0u32)
            })
        },
{
    reveal_strlit("");
    reveal_strlit("auto");
    reveal_strlit("audit");
    assert forall|port: u32| #[trigger] on_port(proposed, port) implies on_port(loaded, port) by {
        law_ports_of_an_endpoint(proposed, port);
        law_ports_of_an_endpoint(loaded, port);
    }
    assert forall|i: int| 0 <= i < proposed.rules.len() implies loaded.rules.contains(
        #[trigger] proposed.rules[i],
    ) by {
        assert(proposed.rules.contains(proposed.rules[i]));
    }
    assert forall|i: int| 0 <= i < proposed.deny_rules.len() implies loaded.deny_rules.contains(
        #[trigger] proposed.deny_rules[i],
    ) by {
        assert(proposed.deny_rules.contains(proposed.deny_rules[i]));
    }
    assert forall|i: int| 0 <= i < proposed.allowed_ips.len() implies loaded.allowed_ips.contains(
        #[trigger] proposed.allowed_ips[i],
    ) by {
        assert(proposed.allowed_ips.contains(proposed.allowed_ips[i]));
    }
    if loaded.tls.len() == 0 {
        assert(loaded.tls =~= ""@);
    }
    if proposed.tls.len() == 0 {
        assert(proposed.tls =~= ""@);
    }
    if loaded.enforcement.len() == 0 {
        assert(loaded.enforcement =~= ""@);
    }
    if proposed.enforcement.len() == 0 {
        assert(proposed.enforcement =~= ""@);
    }
}

/// Coverage asks for no more than that the loaded endpoint is as wide as the proposed one and
/// that the settings which apply are the same.
pub proof fn law_wide_endpoints_cover(loaded: NetworkEndpointView, proposed: NetworkEndpointView)
    ensures
        endpoint_authorization_covers(loaded, proposed) <==> widens(loaded, proposed)
            && settings_match(loaded, proposed),
{
}

/// A loaded endpoint that is for another host or path, or lacks a port, an allow or deny rule
/// or an address, covers nothing of the proposed one.
pub proof fn law_missing_parts_are_not_covered(
    loaded: NetworkEndpointView,
    proposed: NetworkEndpointView,
    port: u32,
)
    requires
        !same_ignoring_case(loaded.host, proposed.host) || loaded.path != proposed.path || (on_port(
            proposed,
            port,
        ) && !on_port(loaded, port)),
    ensures
        !endpoint_authorization_covers(loaded, proposed),
{
    if endpoint_authorization_covers(loaded, proposed) {
        law_coverage_is_sound(loaded, proposed);
    }
}

/// What a policy covers it holds: each proposed endpoint has, for each proposed binary, an
/// endpoint with that very path, that host and those ports, in a rule that applies to the
/// binary.
pub proof fn law_covered_endpoint_is_loaded(
    policy: SandboxPolicyView,
    proposed: NetworkPolicyRuleView,
    i: int,
    j: int,
)
    requires
        policy_covers(policy, proposed),
        0 <= i < proposed.endpoints.len(),
        0 <= j < proposed.binaries.len(),
    ensures
        exists|k: Seq<char>, m: int|
            {
                let rule = policy.network_policies[k];
                let wanted = proposed.endpoints[i];
                &&& policy.network_policies.contains_key(k)
                &&& 0 <= m < rule.endpoints.len()
                &&& rule.binaries.len() > 0 ==> exists|b: int|
                    0 <= b < rule.binaries.len() && (#[trigger] rule.binaries[b]).path
                        == proposed.binaries[j].path
                &&& endpoint_authorization_covers(
                    #[trigger] policy.network_policies[k].endpoints[m],
                    wanted,
                )
                &&& rule.endpoints[m].path == wanted.path
                &&& same_ignoring_case(rule.endpoints[m].host, wanted.host)
                &&& forall|port: u32| #[trigger]
                    on_port(wanted, port) ==> on_port(rule.endpoints[m], port)
            },
{
    let path = proposed.binaries[j].path;
    let wanted = proposed.endpoints[i];
    let policies = policy.network_policies;
    let k = choose|k: Seq<char>| #[trigger]
        policies.contains_key(k) && binary_scope_covers(policies[k], path) && any_covers(
            policies[k].endpoints,
            wanted,
        );
    let m = choose|m: int|
        0 <= m < policies[k].endpoints.len() && endpoint_authorization_covers(
            #[trigger] policies[k].endpoints[m],
            wanted,
        );
    law_coverage_is_sound(policies[k].endpoints[m], wanted);
}

/// A rule for any binary is covered by rules for any binary alone: each proposed endpoint has
/// an endpoint with that very path, that host and those ports, in a rule that names no binary.
pub proof fn law_covered_for_any_binary(
    policy: SandboxPolicyView,
    proposed: NetworkPolicyRuleView,
    i: int,
)
    requires
        policy_covers(policy, proposed),
        0 <= i < proposed.endpoints.len(),
        proposed.binaries.len() == 0,
    ensures
        exists|k: Seq<char>, m: int|
            {
                let rule = policy.network_policies[k];
                let wanted = proposed.endpoints[i];
                &&& policy.network_policies.contains_key(k)
                &&& rule.binaries.len() == 0
                &&& 0 <= m < rule.endpoints.len()
                &&& endpoint_authorization_covers(
                    #[trigger] policy.network_policies[k].endpoints[m],
                    wanted,
                )
                &&& rule.endpoints[m].path == wanted.path
                &&& same_ignoring_case(rule.endpoints[m].host, wanted.host)
                &&& forall|port: u32| #[trigger]
                    on_port(wanted, port) ==> on_port(rule.endpoints[m], port)
            },
{
    let wanted = proposed.endpoints[i];
    let policies = policy.network_policies;
    let k = choose|k: Seq<char>| #[trigger]
        policies.contains_key(k) && policies[k].binaries.len() == 0 && any_covers(
            policies[k].endpoints,
            wanted,
        );
    let m = choose|m: int|
        0 <= m < policies[k].endpoints.len() && endpoint_authorization_covers(
            #[trigger] policies[k].endpoints[m],
            wanted,
        );
    law_coverage_is_sound(policies[k].endpoints[m], wanted);
}

/// A proposal is covered part by part: exactly if it has endpoints and, with each of its
/// endpoints and each of its binaries alone, it is covered.
pub proof fn law_coverage_goes_by_parts(
    policy: SandboxPolicyView,
    proposed: NetworkPolicyRuleView,
)
    requires
        proposed.binaries.len() > 0,
    ensures
        policy_covers(policy, proposed) <==> proposed.endpoints.len() > 0 && forall|i: int, j: int|
            0 <= i < proposed.endpoints.len() && 0 <= j < proposed.binaries.len()
                ==> policy_covers(
                policy,
                NetworkPolicyRuleView {
                    endpoints: seq![#[trigger] proposed.endpoints[i]],
                    binaries: seq![#[trigger] proposed.binaries[j]],
                    ..proposed
                },
            ),
{
    let single = |i: int, j: int|
        NetworkPolicyRuleView {
            endpoints: seq![proposed.endpoints[i]],
            binaries: seq![proposed.binaries[j]],
            ..proposed
        };
    let policies = policy.network_policies;
    assert forall|i: int, j: int|
        0 <= i < proposed.endpoints.len() && 0 <= j < proposed.binaries.len() implies (
    policy_covers(
        policy,
        NetworkPolicyRuleView {
            endpoints: seq![#[trigger] proposed.endpoints[i]],
            binaries: seq![#[trigger] proposed.binaries[j]],
            ..proposed
        },
    ) <==> crate::merge_model::binary_covered(
        policies,
        proposed.binaries[j].path,
        proposed.endpoints[i],
    )) by {
        let one = single(i, j);
        assert(one.endpoints[0] == proposed.endpoints[i]);
        assert(one.binaries[0] == proposed.binaries[j]);
    }
}

/// A policy without rules covers nothing.
pub proof fn law_empty_policy_covers_nothing(
    policy: SandboxPolicyView,
    proposed: NetworkPolicyRuleView,
)
    requires
        policy.network_policies == Map::<Seq<char>, NetworkPolicyRuleView>::empty(),
    ensures
        !policy_covers(policy, proposed),
{
    if policy_covers(policy, proposed) {
        if proposed.binaries.len() > 0 {
            law_covered_endpoint_is_loaded(policy, proposed, 0, 0);
        } else {
            law_covered_for_any_binary(policy, proposed, 0);
        }
    }
}

/// Endpoints overlap exactly if they are for the same host but for case and the same path, and
/// some port is open on both.
pub proof fn law_overlap_is_a_shared_port(a: NetworkEndpointView, b: NetworkEndpointView)
    ensures
        endpoints_overlap(a, b) <==> same_ignoring_case(a.host, b.host) && a.path == b.path
            && exists|port: u32| #[trigger] on_port(a, port) && on_port(b, port),
        endpoints_overlap(a, b) <==> endpoints_overlap(b, a),
{
    let (x, y) = (canonical_ports(a), canonical_ports(b));
    if share_port(x, y) {
        let port = choose|port: u32| #[trigger] x.contains(port) && y.contains(port);
        law_ports_of_an_endpoint(a, port);
        law_ports_of_an_endpoint(b, port);
        assert(on_port(a, port) && on_port(b, port));
        assert(y.contains(port) && x.contains(port));
    }
    if share_port(y, x) {
        let port = choose|port: u32| #[trigger] y.contains(port) && x.contains(port);
        assert(x.contains(port) && y.contains(port));
    }
    if exists|port: u32| #[trigger] on_port(a, port) && on_port(b, port) {
        let port = choose|port: u32| #[trigger] on_port(a, port) && on_port(b, port);
        law_ports_of_an_endpoint(a, port);
        law_ports_of_an_endpoint(b, port);
        assert(x.contains(port) && y.contains(port));
    }
    assert(same_ignoring_case(a.host, b.host) <==> same_ignoring_case(b.host, a.host)) by {
        crate::text::law_case_folding_is_symmetric(a.host, b.host);
    }
}

} // verus!
