//! What holds of every policy merge.
use vstd::prelude::*;

use crate::merge_model::{
    access_merged, any_binary_covered, any_covers, any_equivalent, appended_binaries,
    binary_appended, binary_covered, binary_scope_covers, canonical_ports, combined_endpoint,
    contains_all, effective_enforcement, effective_mcp_contract, effective_tls,
    endpoint_authorization_covers, endpoint_authorizations_equivalent, endpoint_inheritance_error,
    endpoint_matches_host_port, endpoint_uses_mcp, endpoint_warnings, endpoint_without,
    endpoints_overlap, endpoints_without, first_where, flag_covers, has_path, incoming_rule,
    is_first, lists_merged, mcp_contracts_match, merge_target, merged_endpoint, merged_endpoints,
    merged_rule, normalized_endpoint, operation_applied, operation_error, operations_applied,
    ordered_ports, policy_covers, ports_without, promotes_l4_endpoint_to_mcp, protocols_match,
    provider_rule, retained, rule_added, rules_with_preset, rules_without_binary,
    rules_without_endpoint, settings_merged, undeclared_binaries,
};
use crate::merge_types::{PolicyMergeErrorView, PolicyMergeOpView, PolicyMergeWarningView};
use crate::order::{arranges, lemma_arranged, same_members};
use crate::policy::{
    NetworkBinaryView, NetworkEndpointView, NetworkPolicyRuleView, SandboxPolicyView,
};
use crate::text::same_ignoring_case;
use crate::values::{
    appended_unique, lemma_appended_unique, lemma_unique_of_distinct, ranking, unique, Ranked,
};

verus! {

// Positions.
pub proof fn lemma_first_where_is<A>(s: Seq<A>, p: spec_fn(A) -> bool)
    ensures
        match first_where(s, p) {
            Some(i) => is_first(s, p, i),
            None => forall|i: int| 0 <= i < s.len() ==> !p(#[trigger] s[i]),
        },
{
    if exists|i: int| is_first(s, p, i) {
    } else {
        assert forall|i: int| 0 <= i < s.len() implies !p(#[trigger] s[i]) by {
            lemma_no_first(s, p, i);
        }
    }
}

proof fn lemma_no_first<A>(s: Seq<A>, p: spec_fn(A) -> bool, i: int)
    requires
        !exists|j: int| is_first(s, p, j),
        0 <= i < s.len(),
    ensures
        !p(s[i]),
    decreases i,
{
    assert forall|j: int| 0 <= j < i implies !p(#[trigger] s[j]) by {
        lemma_no_first(s, p, j);
    }
    assert(!is_first(s, p, i));
}

// Ports and normalization.
proof fn lemma_ordered_ports(ports: Seq<u32>)
    ensures
        same_members(ordered_ports(ports), ports),
        ordered_ports(ordered_ports(ports)) == ordered_ports(ports),
        ports.len() == 0 ==> ordered_ports(ports).len() == 0,
        ports.len() > 0 ==> ordered_ports(ports).len() > 0,
{
    let before = ranking::<u32>();
    u32::rank_is_strict();
    lemma_arranged(ports, before);
    let p = ordered_ports(ports);
    lemma_arranged(p, before);
    assert(arranges(p, p, before));
    if p.len() > 0 {
        assert(p.contains(p[0]));
    }
    if ports.len() > 0 {
        assert(ports.contains(ports[0]));
        assert(p.contains(ports[0]));
    }
}

proof fn lemma_unique<A>(s: Seq<A>)
    ensures
        same_members(unique(s), s),
        unique(unique(s)) == unique(s),
        s.len() > 0 <==> unique(s).len() > 0,
{
    lemma_appended_unique(Seq::<A>::empty(), s);
    lemma_unique_of_distinct(unique(s));
    if s.len() > 0 {
        assert(s.contains(s[0]));
    }
    if unique(s).len() > 0 {
        assert(unique(s).contains(unique(s)[0]));
    }
}

/// A normalized endpoint has the ports of the endpoint it came from.
proof fn lemma_normalized_ports(e: NetworkEndpointView)
    ensures
        same_members(canonical_ports(normalized_endpoint(e)), canonical_ports(e)),
        canonical_ports(normalized_endpoint(e)) == ordered_ports(canonical_ports(e)),
{
    let ports = ordered_ports(canonical_ports(e));
    lemma_ordered_ports(canonical_ports(e));
    if ports.len() == 0 {
        assert(ports =~= Seq::empty());
    }
    assert(canonical_ports(normalized_endpoint(e)) =~= ports);
}

/// Normalizing an endpoint again changes nothing.
pub proof fn law_normalized_endpoint_stays(e: NetworkEndpointView)
    ensures
        normalized_endpoint(normalized_endpoint(e)) == normalized_endpoint(e),
{
    lemma_normalized_ports(e);
    lemma_ordered_ports(canonical_ports(e));
    lemma_unique(e.allowed_ips);
    lemma_unique(e.rules);
    lemma_unique(e.deny_rules);
}

/// No path stands twice.
pub open spec fn distinct_paths(binaries: Seq<NetworkBinaryView>) -> bool {
    forall|i: int, j: int|
        0 <= i < j < binaries.len() ==> (#[trigger] binaries[i]).path != (
        #[trigger] binaries[j]).path
}

proof fn lemma_binary_appended(binaries: Seq<NetworkBinaryView>, binary: NetworkBinaryView)
    ensures
        forall|p: Seq<char>| #[trigger]
            has_path(binary_appended(binaries, binary), p) <==> (has_path(binaries, p) || p
                == binary.path),
        distinct_paths(binaries) ==> distinct_paths(binary_appended(binaries, binary)),
        binary_appended(binaries, binary).len() >= binaries.len(),
        binary_appended(binaries, binary).len() > 0,
{
    let q = |b: NetworkBinaryView| b.path == binary.path;
    lemma_first_where_is(binaries, q);
    let after = binary_appended(binaries, binary);
    match first_where(binaries, q) {
        Some(i) => {
            assert(after.len() == binaries.len());
            assert(forall|j: int|
                0 <= j < after.len() ==> (#[trigger] after[j]).path == binaries[j].path);
            assert forall|p: Seq<char>| #[trigger] has_path(after, p) <==> (has_path(binaries, p)
                || p == binary.path) by {
                if has_path(after, p) {
                    let j = choose|j: int| 0 <= j < after.len() && (#[trigger] after[j]).path == p;
                    assert(binaries[j].path == p);
                }
                if has_path(binaries, p) {
                    let j = choose|j: int|
                        0 <= j < binaries.len() && (#[trigger] binaries[j]).path == p;
                    assert(after[j].path == p);
                }
                if p == binary.path {
                    assert(after[i].path == p);
                }
            }
        },
        None => {
            assert forall|p: Seq<char>| #[trigger] has_path(after, p) <==> (has_path(binaries, p)
                || p == binary.path) by {
                if has_path(after, p) {
                    let j = choose|j: int| 0 <= j < after.len() && (#[trigger] after[j]).path == p;
                    if j < binaries.len() {
                        assert(binaries[j].path == p);
                    }
                }
                if has_path(binaries, p) {
                    let j = choose|j: int|
                        0 <= j < binaries.len() && (#[trigger] binaries[j]).path == p;
                    assert(after[j].path == p);
                }
                if p == binary.path {
                    assert(after[binaries.len() as int].path == p);
                }
            }
        },
    }
}

/// The binaries of a merged rule are those of both rules, and no path comes in twice.
pub proof fn law_binaries_are_united(
    existing: Seq<NetworkBinaryView>,
    incoming: Seq<NetworkBinaryView>,
)
    ensures
        forall|p: Seq<char>| #[trigger]
            has_path(appended_binaries(existing, incoming), p) <==> (has_path(existing, p)
                || has_path(incoming, p)),
        distinct_paths(existing) ==> distinct_paths(appended_binaries(existing, incoming)),
        appended_binaries(existing, incoming).len() == 0 <==> existing.len() + incoming.len() == 0,
    decreases incoming.len(),
{
    if incoming.len() > 0 {
        let rest = incoming.drop_last();
        let before = appended_binaries(existing, rest);
        law_binaries_are_united(existing, rest);
        lemma_binary_appended(before, incoming.last());
        let after = appended_binaries(existing, incoming);
        assert forall|p: Seq<char>| #[trigger] has_path(after, p) <==> (has_path(existing, p)
            || has_path(incoming, p)) by {
            assert(has_path(before, p) <==> (has_path(existing, p) || has_path(rest, p)));
            if has_path(incoming, p) {
                let j = choose|j: int| 0 <= j < incoming.len() && (#[trigger] incoming[j]).path == p;
                if j < rest.len() {
                    assert(rest[j].path == p);
                }
            }
            if has_path(rest, p) {
                let j = choose|j: int| 0 <= j < rest.len() && (#[trigger] rest[j]).path == p;
                assert(incoming[j].path == p);
            }
            if p == incoming.last().path {
                assert(incoming[incoming.len() - 1].path == p);
            }
        }
    }
}

// Coverage.
/// Options for MCP stand only on endpoints that speak it.
pub open spec fn mcp_well_placed(e: NetworkEndpointView) -> bool {
    e.mcp is Some ==> same_ignoring_case(e.protocol, "mcp"@)
}

/// An endpoint covers itself, unless it carries MCP options without speaking MCP.
pub proof fn law_endpoint_covers_itself(e: NetworkEndpointView)
    ensures
        endpoint_authorization_covers(e, e) <==> mcp_well_placed(e),
{
}

/// An endpoint covers what the endpoints that it covers cover.
pub proof fn law_coverage_is_transitive(
    a: NetworkEndpointView,
    b: NetworkEndpointView,
    c: NetworkEndpointView,
)
    requires
        endpoint_authorization_covers(a, b),
        endpoint_authorization_covers(b, c),
    ensures
        endpoint_authorization_covers(a, c),
{
    assert(contains_all(canonical_ports(a), canonical_ports(c))) by {
        assert forall|p: u32| #[trigger] canonical_ports(c).contains(p) implies canonical_ports(
            a,
        ).contains(p) by {
            assert(canonical_ports(b).contains(p));
        }
    }
    assert forall|i: int| 0 <= i < a.host.len() implies crate::text::folded(#[trigger] a.host[i])
        == crate::text::folded(c.host[i]) by {
        assert(crate::text::folded(b.host[i]) == crate::text::folded(c.host[i]));
    }
}

/// A normalized endpoint covers the endpoint it came from, and is covered by it, unless
/// MCP options stand where MCP is not spoken.
pub proof fn law_normalization_keeps_coverage(e: NetworkEndpointView)
    requires
        mcp_well_placed(e),
    ensures
        endpoint_authorization_covers(normalized_endpoint(e), e),
        endpoint_authorization_covers(e, normalized_endpoint(e)),
{
    lemma_normalized_ports(e);
    lemma_unique(e.allowed_ips);
    lemma_unique(e.rules);
    lemma_unique(e.deny_rules);
}

/// A policy covers each of its rules that has endpoints, unless MCP options stand where
/// MCP is not spoken.
pub proof fn law_policy_covers_its_rules(policy: SandboxPolicyView, key: Seq<char>)
    requires
        policy.network_policies.contains_key(key),
        policy.network_policies[key].endpoints.len() > 0,
        forall|i: int|
            0 <= i < policy.network_policies[key].endpoints.len() ==> mcp_well_placed(
                #[trigger] policy.network_policies[key].endpoints[i],
            ),
    ensures
        policy_covers(policy, policy.network_policies[key]),
{
    let rules = policy.network_policies;
    let rule = rules[key];
    assert forall|i: int| 0 <= i < rule.endpoints.len() implies any_covers(
        rule.endpoints,
        #[trigger] rule.endpoints[i],
    ) by {
        law_endpoint_covers_itself(rule.endpoints[i]);
    }
    assert forall|i: int, j: int|
        0 <= i < rule.endpoints.len() && 0 <= j < rule.binaries.len() implies binary_covered(
        rules,
        (#[trigger] rule.binaries[j]).path,
        #[trigger] rule.endpoints[i],
    ) by {
        assert(has_path(rule.binaries, rule.binaries[j].path));
        assert(any_covers(rule.endpoints, rule.endpoints[i]));
    }
}

/// What an endpoint leaves to a default counts as the default: endpoints that differ only
/// in whether defaults are written out authorize the same.
pub proof fn law_written_defaults_change_nothing(a: NetworkEndpointView, b: NetworkEndpointView)
    requires
        mcp_well_placed(a),
        a == (NetworkEndpointView {
            tls: a.tls,
            enforcement: a.enforcement,
            mcp: a.mcp,
            json_rpc_max_body_bytes: a.json_rpc_max_body_bytes,
            ..b
        }),
        effective_tls(a.tls) == effective_tls(b.tls),
        effective_enforcement(a.enforcement) == effective_enforcement(b.enforcement),
        effective_mcp_contract(a) is Some ==> effective_mcp_contract(a) == effective_mcp_contract(b),
        effective_mcp_contract(a) is None ==> a.mcp == b.mcp && a.json_rpc_max_body_bytes
            == b.json_rpc_max_body_bytes,
    ensures
        endpoint_authorizations_equivalent(a, b),
{
}

/// A policy with more rules covers no less.
pub proof fn law_more_rules_cover_no_less(
    policy: SandboxPolicyView,
    larger: SandboxPolicyView,
    proposed: NetworkPolicyRuleView,
)
    requires
        policy_covers(policy, proposed),
        forall|k: Seq<char>| #[trigger]
            policy.network_policies.contains_key(k) ==> larger.network_policies.contains_key(k)
                && larger.network_policies[k] == policy.network_policies[k],
    ensures
        policy_covers(larger, proposed),
{
    let few = policy.network_policies;
    let many = larger.network_policies;
    if proposed.binaries.len() == 0 {
        assert forall|i: int| 0 <= i < proposed.endpoints.len() implies any_binary_covered(
            many,
            #[trigger] proposed.endpoints[i],
        ) by {
            assert(any_binary_covered(few, proposed.endpoints[i]));
            let k = choose|k: Seq<char>| #[trigger]
                few.contains_key(k) && few[k].binaries.len() == 0 && any_covers(
                    few[k].endpoints,
                    proposed.endpoints[i],
                );
            assert(many.contains_key(k));
        }
    }
    assert forall|i: int, j: int|
        0 <= i < proposed.endpoints.len() && 0 <= j < proposed.binaries.len() implies binary_covered(
        many,
        (#[trigger] proposed.binaries[j]).path,
        #[trigger] proposed.endpoints[i],
    ) by {
        assert(binary_covered(few, proposed.binaries[j].path, proposed.endpoints[i]));
        let k = choose|k: Seq<char>| #[trigger]
            few.contains_key(k) && binary_scope_covers(few[k], proposed.binaries[j].path)
                && any_covers(few[k].endpoints, proposed.endpoints[i]);
        assert(many.contains_key(k));
    }
}

// Merging endpoints.
/// The lists, ports and flags of both endpoints are in the merged one.
pub proof fn law_merged_endpoint_widens(
    existing: NetworkEndpointView,
    incoming: NetworkEndpointView,
)
    ensures
        ({
            let merged = combined_endpoint(existing, incoming);
            &&& contains_all(canonical_ports(merged), canonical_ports(existing))
            &&& contains_all(canonical_ports(merged), canonical_ports(incoming))
            &&& contains_all(merged.rules, existing.rules)
            &&& contains_all(merged.rules, incoming.rules)
            &&& contains_all(merged.deny_rules, existing.deny_rules)
            &&& contains_all(merged.deny_rules, incoming.deny_rules)
            &&& contains_all(merged.allowed_ips, existing.allowed_ips)
            &&& contains_all(merged.allowed_ips, incoming.allowed_ips)
            &&& merged.allow_encoded_slash == (existing.allow_encoded_slash
                || incoming.allow_encoded_slash)
            &&& merged.websocket_credential_rewrite == (existing.websocket_credential_rewrite
                || incoming.websocket_credential_rewrite)
            &&& merged.request_body_credential_rewrite == (existing.request_body_credential_rewrite
                || incoming.request_body_credential_rewrite)
            &&& merged.advisor_proposed == (existing.advisor_proposed || incoming.advisor_proposed)
        }),
{
    let before = lists_merged(
        access_merged(settings_merged(existing, incoming), incoming),
        incoming,
    );
    let merged = combined_endpoint(existing, incoming);
    let both = canonical_ports(existing) + canonical_ports(incoming);
    lemma_ordered_ports(both);
    lemma_normalized_ports(before);
    if ordered_ports(both).len() == 0 {
        assert(ordered_ports(both) =~= Seq::empty());
    }
    assert(canonical_ports(before) =~= ordered_ports(both));
    assert forall|p: u32| canonical_ports(existing).contains(p) || canonical_ports(
        incoming,
    ).contains(p) implies #[trigger] canonical_ports(merged).contains(p) by {
        lemma_concat_contains(canonical_ports(existing), canonical_ports(incoming), p);
        assert(ordered_ports(both).contains(p));
        assert(canonical_ports(before).contains(p));
    }
    lemma_unique(before.rules);
    lemma_unique(before.deny_rules);
    lemma_unique(before.allowed_ips);
    lemma_appended_unique(existing.deny_rules, incoming.deny_rules);
    lemma_appended_unique(existing.allowed_ips, incoming.allowed_ips);
    let protocol = retained(existing.protocol, incoming.protocol);
    let expanded = rules_with_preset(existing.rules, protocol, existing.access);
    assert(contains_all(expanded, existing.rules)) by {
        match crate::merge_model::preset_rules(protocol, existing.access) {
            Some(rules) => {
                lemma_appended_unique(existing.rules, rules);
            },
            None => {},
        }
    }
    lemma_appended_unique(expanded, incoming.rules);
    assert forall|x: crate::policy::L7RuleView| existing.rules.contains(x) || incoming.rules.contains(
        x,
    ) implies #[trigger] merged.rules.contains(x) by {
        assert(before.rules.contains(x));
    }
}

pub proof fn lemma_concat_contains<A>(a: Seq<A>, b: Seq<A>, x: A)
    ensures
        (a + b).contains(x) <==> (a.contains(x) || b.contains(x)),
{
    let c = a + b;
    if a.contains(x) {
        let i = choose|i: int| 0 <= i < a.len() && a[i] == x;
        assert(c[i] == x);
    }
    if b.contains(x) {
        let i = choose|i: int| 0 <= i < b.len() && b[i] == x;
        assert(c[a.len() + i] == x);
    }
    if c.contains(x) {
        let i = choose|i: int| 0 <= i < c.len() && c[i] == x;
        if i < a.len() {
            assert(a[i] == x);
        } else {
            assert(b[i - a.len()] == x);
        }
    }
}

/// What a merge keeps of the existing endpoint is what the incoming one asks for.
pub open spec fn settings_agree(
    existing: NetworkEndpointView,
    incoming: NetworkEndpointView,
) -> bool {
    &&& protocols_match(retained(existing.protocol, incoming.protocol), incoming.protocol)
    &&& effective_tls(retained(existing.tls, incoming.tls)) == effective_tls(incoming.tls)
    &&& effective_enforcement(retained(existing.enforcement, incoming.enforcement))
        == effective_enforcement(incoming.enforcement)
    &&& incoming.access.len() > 0 ==> incoming.rules.len() == 0 && incoming.access == (
    if existing.rules.len() == 0 {
        retained(existing.access, incoming.access)
    } else {
        existing.access
    })
    &&& existing.persisted_queries == incoming.persisted_queries
    &&& existing.graphql_persisted_queries == incoming.graphql_persisted_queries
    &&& existing.graphql_max_body_bytes == incoming.graphql_max_body_bytes
    &&& existing.credential_signing == incoming.credential_signing
    &&& existing.signing_service == incoming.signing_service
    &&& existing.signing_region == incoming.signing_region
    &&& endpoint_uses_mcp(incoming) || existing.json_rpc_max_body_bytes
        == incoming.json_rpc_max_body_bytes
}

/// An endpoint that was merged is covered by what it was merged into, exactly if what the
/// merge keeps is what the endpoint asks for.
pub proof fn law_merged_endpoint_covers_incoming(
    existing: NetworkEndpointView,
    incoming: NetworkEndpointView,
    operation_index: usize,
)
    requires
        endpoints_overlap(existing, incoming),
        merged_endpoint(existing, incoming, operation_index) is Ok,
    ensures
        endpoint_authorization_covers(combined_endpoint(existing, incoming), incoming)
            <==> settings_agree(existing, incoming),
{
    law_merged_endpoint_widens(existing, incoming);
    let merged = combined_endpoint(existing, incoming);
    assert(same_ignoring_case(merged.host, incoming.host));
    assert(merged.path == incoming.path) by {
        if existing.path.len() == 0 {
            assert(existing.path =~= incoming.path);
        }
    }
    reveal_strlit("mcp");
    assert(mcp_contracts_match(merged, incoming));
}

// Merging rules.
/// A merge of rules grants nothing by accident. What the merged rule grants a binary that
/// the existing rule did not apply to, an incoming endpoint declares. What it grants a
/// binary that the incoming rule does not apply to, the existing rule granted already.
pub proof fn law_no_undeclared_grant(
    existing: NetworkPolicyRuleView,
    incoming: NetworkPolicyRuleView,
    operation_index: usize,
    rule_name: Seq<char>,
    path: Seq<char>,
    i: int,
)
    requires
        merged_rule(existing, incoming, operation_index, rule_name) is Ok,
        binary_scope_covers(
            merged_rule(existing, incoming, operation_index, rule_name)->Ok_0.0,
            path,
        ),
        0 <= i < merged_rule(
            existing,
            incoming,
            operation_index,
            rule_name,
        )->Ok_0.0.endpoints.len(),
    ensures
        ({
            let endpoint = merged_rule(
                existing,
                incoming,
                operation_index,
                rule_name,
            )->Ok_0.0.endpoints[i];
            &&& !binary_scope_covers(existing, path) ==> any_covers(incoming.endpoints, endpoint)
            &&& !binary_scope_covers(incoming, path) ==> any_equivalent(
                existing.endpoints,
                endpoint,
            )
        }),
{
    let rule = merged_rule(existing, incoming, operation_index, rule_name)->Ok_0.0;
    let endpoint = rule.endpoints[i];
    law_binaries_are_united(existing.binaries, incoming.binaries);
    let told = |e: NetworkEndpointView|
        endpoint_inheritance_error(existing, incoming, e, operation_index, rule_name) is Some;
    lemma_first_where_is(rule.endpoints, told);
    assert(!told(endpoint));
    if !binary_scope_covers(existing, path) {
        assert(has_path(incoming.binaries, path));
        let j = choose|j: int|
            0 <= j < incoming.binaries.len() && (#[trigger] incoming.binaries[j]).path == path;
        let fresh = |b: NetworkBinaryView| !binary_scope_covers(existing, b.path);
        lemma_first_where_is(incoming.binaries, fresh);
        assert(fresh(incoming.binaries[j]));
    }
    if !binary_scope_covers(incoming, path) {
        assert(has_path(existing.binaries, path));
        let j = choose|j: int|
            0 <= j < existing.binaries.len() && (#[trigger] existing.binaries[j]).path == path;
        let left_out = |b: NetworkBinaryView| !has_path(incoming.binaries, b.path);
        assert(left_out(existing.binaries[j]));
        assert(existing.binaries.filter(left_out).contains(existing.binaries[j])) by {
            existing.binaries.lemma_filter_contains(left_out, j);
        }
        assert(undeclared_binaries(existing, incoming).len() > 0);
    }
}

/// What a merge widens: the loaded endpoint serves the same host and path, and has the
/// ports, the rules, the addresses and the flags of the proposed one.
pub open spec fn widens(loaded: NetworkEndpointView, proposed: NetworkEndpointView) -> bool {
    &&& same_ignoring_case(loaded.host, proposed.host)
    &&& loaded.path == proposed.path
    &&& contains_all(canonical_ports(loaded), canonical_ports(proposed))
    &&& contains_all(loaded.rules, proposed.rules)
    &&& contains_all(loaded.deny_rules, proposed.deny_rules)
    &&& contains_all(loaded.allowed_ips, proposed.allowed_ips)
    &&& flag_covers(loaded.allow_encoded_slash, proposed.allow_encoded_slash)
    &&& flag_covers(loaded.websocket_credential_rewrite, proposed.websocket_credential_rewrite)
    &&& flag_covers(
        loaded.request_body_credential_rewrite,
        proposed.request_body_credential_rewrite,
    )
    &&& flag_covers(loaded.advisor_proposed, proposed.advisor_proposed)
}

/// What a merge never widens: the settings that apply at the loaded endpoint are those that
/// the proposed one asks for.
pub open spec fn settings_match(
    loaded: NetworkEndpointView,
    proposed: NetworkEndpointView,
) -> bool {
    &&& protocols_match(loaded.protocol, proposed.protocol)
    &&& effective_tls(loaded.tls) == effective_tls(proposed.tls)
    &&& effective_enforcement(loaded.enforcement) == effective_enforcement(proposed.enforcement)
    &&& mcp_contracts_match(loaded, proposed)
    &&& proposed.access.len() > 0 ==> loaded.access == proposed.access
    &&& loaded.persisted_queries == proposed.persisted_queries
    &&& loaded.graphql_persisted_queries == proposed.graphql_persisted_queries
    &&& loaded.graphql_max_body_bytes == proposed.graphql_max_body_bytes
    &&& loaded.credential_signing == proposed.credential_signing
    &&& loaded.signing_service == proposed.signing_service
    &&& loaded.signing_region == proposed.signing_region
    &&& endpoint_uses_mcp(loaded) || loaded.json_rpc_max_body_bytes
        == proposed.json_rpc_max_body_bytes
}

proof fn lemma_widens_transitive(
    a: NetworkEndpointView,
    b: NetworkEndpointView,
    c: NetworkEndpointView,
)
    requires
        widens(a, b),
        widens(b, c),
    ensures
        widens(a, c),
{
    assert forall|i: int| 0 <= i < a.host.len() implies crate::text::folded(#[trigger] a.host[i])
        == crate::text::folded(c.host[i]) by {
        assert(crate::text::folded(b.host[i]) == crate::text::folded(c.host[i]));
    }
}

proof fn lemma_normalized_widens(e: NetworkEndpointView)
    ensures
        widens(normalized_endpoint(e), e),
{
    lemma_normalized_ports(e);
    lemma_unique(e.allowed_ips);
    lemma_unique(e.rules);
    lemma_unique(e.deny_rules);
}

proof fn lemma_combined_widens(existing: NetworkEndpointView, incoming: NetworkEndpointView)
    requires
        endpoints_overlap(existing, incoming),
    ensures
        widens(combined_endpoint(existing, incoming), existing),
        widens(combined_endpoint(existing, incoming), incoming),
{
    law_merged_endpoint_widens(existing, incoming);
    let merged = combined_endpoint(existing, incoming);
    if existing.host.len() == 0 {
        assert(incoming.host.len() == 0);
    }
    if existing.path.len() == 0 {
        assert(existing.path =~= incoming.path);
    }
}

/// The position at which an incoming endpoint ends up in the merged list.
pub open spec fn landing(
    existing: Seq<NetworkEndpointView>,
    incoming: Seq<NetworkEndpointView>,
    operation_index: usize,
    i: int,
) -> int {
    let next = normalized_endpoint(incoming[i]);
    match merged_endpoints(existing, incoming.take(i), operation_index) {
        Ok((endpoints, warnings)) => match first_where(
            endpoints,
            |e: NetworkEndpointView| endpoints_overlap(e, next),
        ) {
            Some(at) => at,
            None => endpoints.len() as int,
        },
        Err(e) => -1,
    }
}

/// A merge of endpoints loses nothing that it widens: each incoming endpoint has an endpoint
/// in the result that widens it.
pub proof fn law_incoming_endpoints_land(
    existing: Seq<NetworkEndpointView>,
    incoming: Seq<NetworkEndpointView>,
    operation_index: usize,
    i: int,
)
    requires
        merged_endpoints(existing, incoming, operation_index) is Ok,
        0 <= i < incoming.len(),
    ensures
        ({
            let merged = merged_endpoints(existing, incoming, operation_index)->Ok_0.0;
            let at = landing(existing, incoming, operation_index, i);
            0 <= at < merged.len() && widens(merged[at], incoming[i])
        }),
    decreases incoming.len(),
{
    let rest = incoming.drop_last();
    let next = normalized_endpoint(incoming.last());
    let before = merged_endpoints(existing, rest, operation_index)->Ok_0.0;
    let merged = merged_endpoints(existing, incoming, operation_index)->Ok_0.0;
    let p = |e: NetworkEndpointView| endpoints_overlap(e, next);
    lemma_first_where_is(before, p);
    let at = landing(existing, incoming, operation_index, i);
    if i < rest.len() {
        assert(rest[i] == incoming[i]);
        assert(rest.take(i) =~= incoming.take(i));
        law_incoming_endpoints_land(existing, rest, operation_index, i);
        assert(landing(existing, rest, operation_index, i) == at);
        match first_where(before, p) {
            Some(k) => {
                if k == at {
                    lemma_combined_widens(before[k], next);
                    lemma_widens_transitive(merged[at], before[at], incoming[i]);
                }
            },
            None => {},
        }
    } else {
        assert(incoming.take(i) =~= rest);
        lemma_normalized_widens(incoming[i]);
        match first_where(before, p) {
            Some(k) => {
                lemma_combined_widens(before[k], next);
                lemma_widens_transitive(merged[k], next, incoming[i]);
            },
            None => {},
        }
    }
}

/// A merge of endpoints takes nothing from the existing ones that it widens: each stays in
/// its place, or is widened there.
pub proof fn law_existing_endpoints_stay(
    existing: Seq<NetworkEndpointView>,
    incoming: Seq<NetworkEndpointView>,
    operation_index: usize,
    i: int,
)
    requires
        merged_endpoints(existing, incoming, operation_index) is Ok,
        0 <= i < existing.len(),
    ensures
        ({
            let merged = merged_endpoints(existing, incoming, operation_index)->Ok_0.0;
            merged.len() >= existing.len() && widens(merged[i], existing[i])
        }),
    decreases incoming.len(),
{
    if incoming.len() > 0 {
        let rest = incoming.drop_last();
        let next = normalized_endpoint(incoming.last());
        let before = merged_endpoints(existing, rest, operation_index)->Ok_0.0;
        let merged = merged_endpoints(existing, incoming, operation_index)->Ok_0.0;
        let p = |e: NetworkEndpointView| endpoints_overlap(e, next);
        lemma_first_where_is(before, p);
        law_existing_endpoints_stay(existing, rest, operation_index, i);
        match first_where(before, p) {
            Some(k) => {
                if k == i {
                    lemma_combined_widens(before[k], next);
                    lemma_widens_transitive(merged[i], before[i], existing[i]);
                }
            },
            None => {},
        }
    }
}

/// The rule under which an added rule is found.
pub open spec fn receiving_key(
    policy: SandboxPolicyView,
    rule_name: Seq<char>,
    rule: NetworkPolicyRuleView,
) -> Seq<char> {
    match merge_target(
        policy.network_policies,
        rule_name,
        incoming_rule(rule, rule_name),
    ) {
        Some(key) => key,
        None => rule_name,
    }
}

/// The endpoint in which an endpoint of an added rule is found.
pub open spec fn receiving_endpoint(
    policy: SandboxPolicyView,
    operation_index: usize,
    rule_name: Seq<char>,
    rule: NetworkPolicyRuleView,
    i: int,
) -> NetworkEndpointView {
    let incoming = incoming_rule(rule, rule_name);
    let after = rule_added(policy, operation_index, rule_name, rule)->Ok_0.0;
    let endpoints = after.network_policies[receiving_key(policy, rule_name, rule)].endpoints;
    match merge_target(policy.network_policies, rule_name, incoming) {
        Some(key) => endpoints[landing(
            policy.network_policies[key].endpoints,
            incoming.endpoints,
            operation_index,
            i,
        )],
        None => endpoints[i],
    }
}

/// The policy that a rule was added to covers the rule. The merge itself sees to everything
/// that it widens. Left out are the rules that are not loaded as they were asked for: where
/// a setting that a merge never widens is another at the endpoint in which an endpoint of
/// the rule is found, and where a rule for any binary joined a list of binaries.
pub proof fn law_added_rule_is_covered(
    policy: SandboxPolicyView,
    operation_index: usize,
    rule_name: Seq<char>,
    rule: NetworkPolicyRuleView,
)
    requires
        rule_added(policy, operation_index, rule_name, rule) is Ok,
        rule.endpoints.len() > 0,
        forall|i: int|
            0 <= i < rule.endpoints.len() ==> settings_match(
                receiving_endpoint(policy, operation_index, rule_name, rule, i),
                #[trigger] rule.endpoints[i],
            ),
        rule.binaries.len() == 0 ==> rule_added(
            policy,
            operation_index,
            rule_name,
            rule,
        )->Ok_0.0.network_policies[receiving_key(policy, rule_name, rule)].binaries.len() == 0,
    ensures
        policy_covers(rule_added(policy, operation_index, rule_name, rule)->Ok_0.0, rule),
{
    let rules = policy.network_policies;
    let incoming = incoming_rule(rule, rule_name);
    let after = rule_added(policy, operation_index, rule_name, rule)->Ok_0.0;
    let target = merge_target(rules, rule_name, incoming);
    let key = receiving_key(policy, rule_name, rule);
    let merged = after.network_policies[key];
    assert(after.network_policies.contains_key(key));
    law_binaries_are_united(Seq::empty(), rule.binaries);
    assert forall|i: int| 0 <= i < rule.endpoints.len() implies any_covers(
        merged.endpoints,
        #[trigger] rule.endpoints[i],
    ) by {
        let e = rule.endpoints[i];
        let n = normalized_endpoint(e);
        assert(incoming.endpoints[i] == n);
        lemma_normalized_widens(e);
        match target {
            Some(k) => {
                let existing = rules[k];
                law_incoming_endpoints_land(
                    existing.endpoints,
                    incoming.endpoints,
                    operation_index,
                    i,
                );
                let at = landing(existing.endpoints, incoming.endpoints, operation_index, i);
                lemma_widens_transitive(merged.endpoints[at], n, e);
                assert(endpoint_authorization_covers(merged.endpoints[at], e));
            },
            None => {
                assert(merged.endpoints[i] == n);
                assert(endpoint_authorization_covers(merged.endpoints[i], e));
            },
        }
    }
    assert forall|j: int| 0 <= j < rule.binaries.len() implies binary_scope_covers(
        merged,
        (#[trigger] rule.binaries[j]).path,
    ) by {
        let path = rule.binaries[j].path;
        assert(has_path(rule.binaries, path));
        assert(has_path(incoming.binaries, path));
        match target {
            Some(k) => {
                law_binaries_are_united(rules[k].binaries, incoming.binaries);
            },
            None => {},
        }
    }
}

/// A rule that no existing rule shares a name or an endpoint with is covered once it is
/// added, unless MCP options stand where MCP is not spoken.
pub proof fn law_new_rule_is_covered(
    policy: SandboxPolicyView,
    operation_index: usize,
    rule_name: Seq<char>,
    rule: NetworkPolicyRuleView,
)
    requires
        merge_target(
            policy.network_policies,
            rule_name,
            incoming_rule(rule, rule_name),
        ) is None,
        rule.endpoints.len() > 0,
        forall|i: int|
            0 <= i < rule.endpoints.len() ==> mcp_well_placed(#[trigger] rule.endpoints[i]),
    ensures
        rule_added(policy, operation_index, rule_name, rule) is Ok,
        policy_covers(rule_added(policy, operation_index, rule_name, rule)->Ok_0.0, rule),
{
    law_binaries_are_united(Seq::empty(), rule.binaries);
    let incoming = incoming_rule(rule, rule_name);
    assert forall|i: int| 0 <= i < rule.endpoints.len() implies settings_match(
        receiving_endpoint(policy, operation_index, rule_name, rule, i),
        #[trigger] rule.endpoints[i],
    ) by {
        assert(incoming.endpoints[i] == normalized_endpoint(rule.endpoints[i]));
        law_normalization_keeps_coverage(rule.endpoints[i]);
    }
    law_added_rule_is_covered(policy, operation_index, rule_name, rule);
}

// Operations.
/// The first operation that fails gives the error, whatever comes after it.
pub proof fn law_first_failure_is_reported(
    policy: SandboxPolicyView,
    operations: Seq<PolicyMergeOpView>,
    n: int,
)
    requires
        0 <= n <= operations.len(),
        operations_applied(policy, operations.take(n)) is Err,
    ensures
        operations_applied(policy, operations) == operations_applied(policy, operations.take(n)),
    decreases operations.len() - n,
{
    if n == operations.len() {
        assert(operations.take(n) =~= operations);
    } else {
        assert(operations.take(n + 1).drop_last() =~= operations.take(n));
        law_first_failure_is_reported(policy, operations, n + 1);
    }
}

/// Operations change the rules of a policy and nothing else of it.
pub proof fn law_only_rules_change(
    policy: SandboxPolicyView,
    operations: Seq<PolicyMergeOpView>,
)
    ensures
        match operations_applied(policy, operations) {
            Ok((after, warnings)) => after == (SandboxPolicyView {
                network_policies: after.network_policies,
                ..policy
            }),
            Err(error) => true,
        },
    decreases operations.len(),
{
    if operations.len() > 0 {
        law_only_rules_change(policy, operations.drop_last());
    }
}

/// Removing a rule undoes adding it, if it was added under a key of its own.
pub proof fn law_removing_undoes_adding(
    policy: SandboxPolicyView,
    operation_index: usize,
    later_index: usize,
    rule_name: Seq<char>,
    rule: NetworkPolicyRuleView,
)
    requires
        merge_target(
            policy.network_policies,
            rule_name,
            incoming_rule(rule, rule_name),
        ) is None,
    ensures
        ({
            let added = rule_added(policy, operation_index, rule_name, rule)->Ok_0.0;
            let removed = operation_applied(
                added,
                later_index,
                PolicyMergeOpView::RemoveRule { rule_name },
            );
            removed is Ok && removed->Ok_0.0 == policy
        }),
{
    let rules = policy.network_policies;
    let incoming = incoming_rule(rule, rule_name);
    assert(rules.insert(rule_name, incoming).remove(rule_name) =~= rules);
}

/// Appending what a list has already changes nothing.
proof fn lemma_appended_members<A>(existing: Seq<A>, incoming: Seq<A>)
    requires
        contains_all(existing, incoming),
    ensures
        appended_unique(existing, incoming) == existing,
    decreases incoming.len(),
{
    if incoming.len() > 0 {
        let rest = incoming.drop_last();
        assert forall|x: A| #[trigger] rest.contains(x) implies existing.contains(x) by {
            let i = choose|i: int| 0 <= i < rest.len() && rest[i] == x;
            assert(incoming[i] == x);
            assert(incoming.contains(x));
        }
        lemma_appended_members(existing, rest);
        assert(incoming.contains(incoming.last()));
    }
}

/// Appending binaries that are listed already, as they are, changes nothing.
proof fn lemma_appended_binaries_again(binaries: Seq<NetworkBinaryView>, n: int)
    requires
        distinct_paths(binaries),
        0 <= n <= binaries.len(),
    ensures
        appended_binaries(binaries, binaries.take(n)) == binaries,
    decreases n,
{
    if n > 0 {
        let binary = binaries[n - 1];
        lemma_appended_binaries_again(binaries, n - 1);
        assert(binaries.take(n).drop_last() =~= binaries.take(n - 1));
        assert(binaries.take(n).last() == binary);
        let same = |b: NetworkBinaryView| b.path == binary.path;
        lemma_first_where_is(binaries, same);
        assert(same(binaries[n - 1]));
        let i = first_where(binaries, same)->0;
        if i < n - 1 {
            assert(binaries[i].path != binaries[n - 1].path);
        }
        assert(binaries.update(n - 1, binary) =~= binaries);
        assert(binary_appended(binaries, binary) =~= binaries);
    }
}

/// Access is given by a preset or by rules, not by both.
pub open spec fn one_kind_of_access(e: NetworkEndpointView) -> bool {
    e.access.len() == 0 || e.rules.len() == 0
}

/// Merging an endpoint into itself changes nothing.
proof fn lemma_endpoint_merged_again(e: NetworkEndpointView, operation_index: usize)
    requires
        normalized_endpoint(e) == e,
        one_kind_of_access(e),
        mcp_well_placed(e),
    ensures
        merged_endpoint(e, e, operation_index) == Ok::<
            (NetworkEndpointView, Seq<PolicyMergeWarningView>),
            PolicyMergeErrorView,
        >((e, Seq::empty())),
{
    reveal_strlit("mcp");
    reveal_strlit("full");
    reveal_strlit("read-only");
    reveal_strlit("read-write");
    let ports = canonical_ports(e);
    let both = ports + ports;
    assert(!promotes_l4_endpoint_to_mcp(e, e));
    assert(mcp_contracts_match(e, e));
    lemma_normalized_ports(e);
    lemma_ordered_ports(ports);
    assert(ordered_ports(both) == ordered_ports(ports)) by {
        u32::rank_is_strict();
        lemma_arranged(both, ranking::<u32>());
        lemma_arranged(ports, ranking::<u32>());
        assert forall|p: u32| #[trigger] ordered_ports(ports).contains(p) <==> both.contains(p) by {
            lemma_concat_contains(ports, ports, p);
        }
        assert(arranges(ordered_ports(ports), both, ranking::<u32>()));
    }
    assert(settings_merged(e, e) == e);
    lemma_appended_members(e.rules, e.rules);
    lemma_appended_members(e.deny_rules, e.deny_rules);
    lemma_appended_members(e.allowed_ips, e.allowed_ips);
    if e.rules.len() > 0 {
        assert(e.access =~= Seq::empty());
        assert(rules_with_preset(e.rules, e.protocol, e.access) == e.rules);
    }
    assert(access_merged(e, e) == e);
    assert(lists_merged(e, e) == e);
    assert(endpoint_warnings(e, e) =~= Seq::empty());
}

/// No two of the endpoints overlap.
pub open spec fn apart(endpoints: Seq<NetworkEndpointView>) -> bool {
    forall|i: int, j: int|
        0 <= i < j < endpoints.len() ==> !endpoints_overlap(
            #[trigger] endpoints[i],
            #[trigger] endpoints[j],
        )
}

/// Merging normalized endpoints that stand apart into the list that has them changes nothing.
proof fn lemma_endpoints_merged_again(
    endpoints: Seq<NetworkEndpointView>,
    n: int,
    operation_index: usize,
)
    requires
        0 <= n <= endpoints.len(),
        apart(endpoints),
        forall|i: int|
            0 <= i < endpoints.len() ==> {
                &&& normalized_endpoint(#[trigger] endpoints[i]) == endpoints[i]
                &&& canonical_ports(endpoints[i]).len() > 0
                &&& one_kind_of_access(endpoints[i])
                &&& mcp_well_placed(endpoints[i])
            },
    ensures
        merged_endpoints(endpoints, endpoints.take(n), operation_index) == Ok::<
            (Seq<NetworkEndpointView>, Seq<PolicyMergeWarningView>),
            PolicyMergeErrorView,
        >((endpoints, Seq::empty())),
    decreases n,
{
    if n > 0 {
        let e = endpoints[n - 1];
        lemma_endpoints_merged_again(endpoints, n - 1, operation_index);
        assert(endpoints.take(n).drop_last() =~= endpoints.take(n - 1));
        assert(endpoints.take(n).last() == e);
        let p = |other: NetworkEndpointView| endpoints_overlap(other, e);
        lemma_first_where_is(endpoints, p);
        assert(canonical_ports(e).contains(canonical_ports(e)[0]));
        assert(p(endpoints[n - 1]));
        let i = first_where(endpoints, p)->0;
        if i < n - 1 {
            assert(!endpoints_overlap(endpoints[i], endpoints[n - 1]));
        }
        lemma_endpoint_merged_again(e, operation_index);
        assert(endpoints.update(n - 1, e) =~= endpoints);
        assert(Seq::<PolicyMergeWarningView>::empty() + Seq::<PolicyMergeWarningView>::empty()
            =~= Seq::empty());
    } else {
        assert(endpoints.take(n) =~= Seq::empty());
    }
}

/// Merging a rule into itself changes nothing.
proof fn lemma_rule_merged_again(
    rule: NetworkPolicyRuleView,
    operation_index: usize,
    rule_name: Seq<char>,
)
    requires
        apart(rule.endpoints),
        distinct_paths(rule.binaries),
        forall|i: int|
            0 <= i < rule.endpoints.len() ==> {
                &&& normalized_endpoint(#[trigger] rule.endpoints[i]) == rule.endpoints[i]
                &&& canonical_ports(rule.endpoints[i]).len() > 0
                &&& one_kind_of_access(rule.endpoints[i])
                &&& mcp_well_placed(rule.endpoints[i])
            },
    ensures
        merged_rule(rule, rule, operation_index, rule_name) == Ok::<
            (NetworkPolicyRuleView, Seq<PolicyMergeWarningView>),
            PolicyMergeErrorView,
        >((rule, Seq::empty())),
{
    let endpoints = rule.endpoints;
    let binaries = rule.binaries;
    lemma_endpoints_merged_again(endpoints, endpoints.len() as int, operation_index);
    assert(endpoints.take(endpoints.len() as int) =~= endpoints);
    lemma_appended_binaries_again(binaries, binaries.len() as int);
    assert(binaries.take(binaries.len() as int) =~= binaries);
    let fresh = |b: NetworkBinaryView| !binary_scope_covers(rule, b.path);
    lemma_first_where_is(binaries, fresh);
    assert forall|i: int| 0 <= i < binaries.len() implies !fresh(#[trigger] binaries[i]) by {
        assert(has_path(binaries, binaries[i].path));
    }
    let told = |e: NetworkEndpointView|
        endpoint_inheritance_error(rule, rule, e, operation_index, rule_name) is Some;
    lemma_first_where_is(endpoints, told);
    assert forall|i: int| 0 <= i < endpoints.len() implies !told(#[trigger] endpoints[i]) by {
        law_endpoint_covers_itself(endpoints[i]);
        assert(any_equivalent(endpoints, endpoints[i]));
    }
}

/// Adding the same rule again changes nothing and warns of nothing, if it was added under a
/// key of its own, its endpoints have ports and stand apart, none gives access both by a
/// preset and by rules, and MCP options stand only where MCP is spoken.
pub proof fn law_adding_again_changes_nothing(
    policy: SandboxPolicyView,
    operation_index: usize,
    later_index: usize,
    rule_name: Seq<char>,
    rule: NetworkPolicyRuleView,
)
    requires
        merge_target(
            policy.network_policies,
            rule_name,
            incoming_rule(rule, rule_name),
        ) is None,
        apart(rule.endpoints),
        forall|i: int|
            0 <= i < rule.endpoints.len() ==> {
                &&& canonical_ports(#[trigger] rule.endpoints[i]).len() > 0
                &&& one_kind_of_access(rule.endpoints[i])
                &&& mcp_well_placed(rule.endpoints[i])
            },
    ensures
        ({
            let added = rule_added(policy, operation_index, rule_name, rule)->Ok_0.0;
            let again = rule_added(added, later_index, rule_name, rule);
            &&& rule_added(policy, operation_index, rule_name, rule) is Ok
            &&& again is Ok
            &&& again->Ok_0.0 == added
            &&& again->Ok_0.1 == Seq::<PolicyMergeWarningView>::empty()
        }),
        ({
            let operations = seq![PolicyMergeOpView::AddRule { rule_name, rule }];
            let added = operations_applied(policy, operations)->Ok_0.0;
            let again = operations_applied(added, operations);
            operations_applied(policy, operations) is Ok ==> again is Ok && again->Ok_0.0 == added
                && again->Ok_0.1 == Seq::<PolicyMergeWarningView>::empty()
        }),
{
    let incoming = incoming_rule(rule, rule_name);
    let rules = policy.network_policies.insert(rule_name, incoming);
    let endpoints = incoming.endpoints;
    law_binaries_are_united(Seq::empty(), rule.binaries);
    assert forall|i: int| 0 <= i < endpoints.len() implies {
        &&& normalized_endpoint(#[trigger] endpoints[i]) == endpoints[i]
        &&& canonical_ports(endpoints[i]).len() > 0
        &&& one_kind_of_access(endpoints[i])
        &&& mcp_well_placed(endpoints[i])
    } by {
        let e = rule.endpoints[i];
        assert(endpoints[i] == normalized_endpoint(e));
        law_normalized_endpoint_stays(e);
        lemma_normalized_ports(e);
        lemma_ordered_ports(canonical_ports(e));
        lemma_unique(e.rules);
    }
    assert forall|i: int, j: int| 0 <= i < j < endpoints.len() implies !endpoints_overlap(
        #[trigger] endpoints[i],
        #[trigger] endpoints[j],
    ) by {
        let a = rule.endpoints[i];
        let b = rule.endpoints[j];
        assert(!endpoints_overlap(a, b));
        assert(endpoints[i] == normalized_endpoint(a));
        assert(endpoints[j] == normalized_endpoint(b));
        lemma_normalized_ports(a);
        lemma_normalized_ports(b);
        if endpoints_overlap(endpoints[i], endpoints[j]) {
            let p = choose|p: u32| #[trigger]
                canonical_ports(endpoints[i]).contains(p) && canonical_ports(endpoints[j]).contains(
                    p,
                );
            assert(canonical_ports(a).contains(p));
            assert(canonical_ports(b).contains(p));
        }
    }
    lemma_rule_merged_again(incoming, later_index, rule_name);
    lemma_rule_merged_again(incoming, 0, rule_name);
    assert(rules.insert(rule_name, incoming) =~= rules);
    let operations = seq![PolicyMergeOpView::AddRule { rule_name, rule }];
    let none = Seq::<PolicyMergeWarningView>::empty();
    assert(operations.drop_last() =~= Seq::<PolicyMergeOpView>::empty());
    assert(none + none =~= none);
    reveal_with_fuel(operations_applied, 2);
}

/// What merging endpoints comes to does not depend on the position of the operation, but for
/// what an error tells.
proof fn lemma_endpoints_whatever_index(
    existing: Seq<NetworkEndpointView>,
    incoming: Seq<NetworkEndpointView>,
    a: usize,
    b: usize,
)
    ensures
        merged_endpoints(existing, incoming, a) is Ok <==> merged_endpoints(
            existing,
            incoming,
            b,
        ) is Ok,
        merged_endpoints(existing, incoming, a) is Ok ==> merged_endpoints(existing, incoming, a)
            == merged_endpoints(existing, incoming, b),
    decreases incoming.len(),
{
    if incoming.len() > 0 {
        lemma_endpoints_whatever_index(existing, incoming.drop_last(), a, b);
    }
}

/// What an operation comes to does not depend on its position, but for what an error tells.
proof fn lemma_operation_whatever_index(
    policy: SandboxPolicyView,
    operation: PolicyMergeOpView,
    a: usize,
    b: usize,
)
    ensures
        operation_error(a, operation) is Some <==> operation_error(b, operation) is Some,
        operation_applied(policy, a, operation) is Ok <==> operation_applied(
            policy,
            b,
            operation,
        ) is Ok,
        operation_applied(policy, a, operation) is Ok ==> operation_applied(policy, a, operation)
            == operation_applied(policy, b, operation),
{
    if let PolicyMergeOpView::AddRule { rule_name, rule } = operation {
        let rules = policy.network_policies;
        let incoming = incoming_rule(rule, rule_name);
        if let Some(key) = merge_target(rules, rule_name, incoming) {
            let existing = rules[key];
            lemma_endpoints_whatever_index(existing.endpoints, incoming.endpoints, a, b);
            if merged_endpoints(existing.endpoints, incoming.endpoints, a) is Ok {
                let merged = merged_endpoints(existing.endpoints, incoming.endpoints, a)->Ok_0.0;
                let told_a = |e: NetworkEndpointView|
                    endpoint_inheritance_error(existing, incoming, e, a, rule_name) is Some;
                let told_b = |e: NetworkEndpointView|
                    endpoint_inheritance_error(existing, incoming, e, b, rule_name) is Some;
                lemma_first_where_is(merged, told_a);
                lemma_first_where_is(merged, told_b);
                assert(forall|i: int|
                    0 <= i < merged.len() ==> told_a(#[trigger] merged[i]) == told_b(merged[i]));
            }
        }
    }
}

/// Two lists of operations that are merged in turn give what the joined list gives: its
/// policy and its warnings, if both succeed, and an error otherwise.
pub proof fn law_merges_in_turn_are_one_merge(
    policy: SandboxPolicyView,
    first: Seq<PolicyMergeOpView>,
    second: Seq<PolicyMergeOpView>,
)
    ensures
        match operations_applied(policy, first) {
            Err(error) => operations_applied(policy, first + second) == Err::<
                (SandboxPolicyView, Seq<PolicyMergeWarningView>),
                PolicyMergeErrorView,
            >(error),
            Ok((between, warnings)) => match operations_applied(between, second) {
                Err(_) => operations_applied(policy, first + second) is Err,
                Ok((after, more)) => operations_applied(policy, first + second) == Ok::<
                    (SandboxPolicyView, Seq<PolicyMergeWarningView>),
                    PolicyMergeErrorView,
                >((after, warnings + more)),
            },
        },
    decreases second.len(),
{
    let all = first + second;
    if operations_applied(policy, first) is Err {
        assert(all.take(first.len() as int) =~= first);
        law_first_failure_is_reported(policy, all, first.len() as int);
    } else {
        let (between, warnings) = operations_applied(policy, first)->Ok_0;
        if second.len() == 0 {
            assert(all =~= first);
            assert(warnings + Seq::<PolicyMergeWarningView>::empty() =~= warnings);
        } else {
            let rest = second.drop_last();
            law_merges_in_turn_are_one_merge(policy, first, rest);
            assert(all.drop_last() =~= first + rest);
            assert(all.last() == second.last());
            if let Ok((before, told)) = operations_applied(between, rest) {
                let a = (all.len() - 1) as usize;
                let b = (second.len() - 1) as usize;
                lemma_operation_whatever_index(before, second.last(), a, b);
                if let Ok((after, more)) = operation_applied(before, b, second.last()) {
                    assert(warnings + told + more =~= warnings + (told + more));
                }
            }
        }
    }
}

/// The operation names the rule, or is one that takes an endpoint out of every rule.
pub open spec fn names_rule(operation: PolicyMergeOpView, key: Seq<char>) -> bool {
    match operation {
        PolicyMergeOpView::AddRule { rule_name, rule } => rule_name == key,
        PolicyMergeOpView::RemoveEndpoint { rule_name, host, port } => rule_name is None
            || rule_name == Some(key),
        PolicyMergeOpView::RemoveRule { rule_name } => rule_name == key,
        PolicyMergeOpView::AddDenyRules { host, port, deny_rules } => false,
        PolicyMergeOpView::AddAllowRules { host, port, rules } => false,
        PolicyMergeOpView::RemoveBinary { rule_name, binary_path } => rule_name == key,
    }
}

/// A rule from a provider profile stays as it is under every operation that does not
/// name it: what others add to its endpoints goes elsewhere.
pub proof fn law_provider_rules_stay_apart(
    policy: SandboxPolicyView,
    operation_index: usize,
    operation: PolicyMergeOpView,
    key: Seq<char>,
)
    requires
        operation_applied(policy, operation_index, operation) is Ok,
        policy.network_policies.contains_key(key),
        provider_rule(key),
        !names_rule(operation, key),
    ensures
        ({
            let after = operation_applied(policy, operation_index, operation)->Ok_0.0;
            &&& after.network_policies.contains_key(key)
            &&& after.network_policies[key] == policy.network_policies[key]
        }),
{
}

/// The operation adds, and takes nothing out.
pub open spec fn is_addition(operation: PolicyMergeOpView) -> bool {
    match operation {
        PolicyMergeOpView::AddRule { rule_name, rule } => true,
        PolicyMergeOpView::AddDenyRules { host, port, deny_rules } => true,
        PolicyMergeOpView::AddAllowRules { host, port, rules } => true,
        _ => false,
    }
}

proof fn lemma_widens_itself(e: NetworkEndpointView)
    ensures
        widens(e, e),
{
}

/// Additions take no port, no allow or deny rule, no address and no flag from any endpoint:
/// each rule stays under its key, with each endpoint in its place, as it was or widened.
pub proof fn law_additions_take_nothing_away(
    policy: SandboxPolicyView,
    operation_index: usize,
    operation: PolicyMergeOpView,
    key: Seq<char>,
    i: int,
)
    requires
        is_addition(operation),
        operation_applied(policy, operation_index, operation) is Ok,
        policy.network_policies.contains_key(key),
        0 <= i < policy.network_policies[key].endpoints.len(),
    ensures
        ({
            let after = operation_applied(policy, operation_index, operation)->Ok_0.0;
            &&& after.network_policies.contains_key(key)
            &&& i < after.network_policies[key].endpoints.len()
            &&& widens(
                after.network_policies[key].endpoints[i],
                policy.network_policies[key].endpoints[i],
            )
        }),
{
    let rules = policy.network_policies;
    let e = rules[key].endpoints[i];
    lemma_widens_itself(e);
    match operation {
        PolicyMergeOpView::AddRule { rule_name, rule } => {
            let incoming = incoming_rule(rule, rule_name);
            match merge_target(rules, rule_name, incoming) {
                Some(k) => {
                    if k == key {
                        law_existing_endpoints_stay(
                            rules[k].endpoints,
                            incoming.endpoints,
                            operation_index,
                            i,
                        );
                    }
                },
                None => {},
            }
        },
        PolicyMergeOpView::AddDenyRules { host, port, deny_rules } => {
            lemma_appended_unique(e.deny_rules, deny_rules);
        },
        PolicyMergeOpView::AddAllowRules { host, port, rules: more } => {
            let expanded = rules_with_preset(e.rules, e.protocol, e.access);
            match crate::merge_model::preset_rules(e.protocol, e.access) {
                Some(preset) => {
                    lemma_appended_unique(e.rules, preset);
                },
                None => {},
            }
            lemma_appended_unique(expanded, more);
        },
        _ => {},
    }
}

/// Once a port of a host is taken out, no rule that was to lose it serves it.
pub proof fn law_removed_endpoint_is_gone(
    policies: Map<Seq<char>, NetworkPolicyRuleView>,
    rule_name: Option<Seq<char>>,
    host: Seq<char>,
    port: u32,
    key: Seq<char>,
    i: int,
)
    requires
        rule_name is None || rule_name == Some(key),
        rules_without_endpoint(policies, rule_name, host, port).contains_key(key),
        0 <= i < rules_without_endpoint(policies, rule_name, host, port)[key].endpoints.len(),
    ensures
        !endpoint_matches_host_port(
            rules_without_endpoint(policies, rule_name, host, port)[key].endpoints[i],
            host,
            port,
        ),
{
    lemma_endpoints_without(policies[key].endpoints, host, port, i);
}

proof fn lemma_endpoints_without(
    endpoints: Seq<NetworkEndpointView>,
    host: Seq<char>,
    port: u32,
    i: int,
)
    requires
        0 <= i < endpoints_without(endpoints, host, port).len(),
    ensures
        !endpoint_matches_host_port(endpoints_without(endpoints, host, port)[i], host, port),
    decreases endpoints.len(),
{
    if endpoints.len() > 0 {
        let before = endpoints_without(endpoints.drop_last(), host, port);
        if i < before.len() {
            lemma_endpoints_without(endpoints.drop_last(), host, port, i);
        } else {
            law_endpoint_loses_only_the_port(endpoints.last(), host, port);
        }
    }
}

/// An endpoint that loses a port no longer serves it, and keeps its other ports.
pub proof fn law_endpoint_loses_only_the_port(
    e: NetworkEndpointView,
    host: Seq<char>,
    port: u32,
)
    ensures
        match endpoint_without(e, host, port) {
            Some(left) => {
                &&& !endpoint_matches_host_port(left, host, port)
                &&& endpoint_matches_host_port(e, host, port) ==> forall|p: u32|
                    p != port ==> (#[trigger] canonical_ports(left).contains(p) <==> canonical_ports(
                        e,
                    ).contains(p))
            },
            None => forall|p: u32| #[trigger] canonical_ports(e).contains(p) ==> p == port,
        },
{
    let kept = ports_without(canonical_ports(e), port);
    lemma_ordered_ports(kept);
    assert forall|p: u32| #[trigger] kept.contains(p) <==> (p != port && canonical_ports(
        e,
    ).contains(p)) by {
        lemma_ports_without(canonical_ports(e), port, p);
    }
    match endpoint_without(e, host, port) {
        Some(left) => {
            if endpoint_matches_host_port(e, host, port) {
                assert(canonical_ports(left) == ordered_ports(kept));
            }
        },
        None => {
            assert forall|p: u32| #[trigger] canonical_ports(e).contains(p) implies p == port by {
                if p != port {
                    assert(kept.contains(p));
                    assert(ordered_ports(kept).contains(p));
                }
            }
        },
    }
}

proof fn lemma_ports_without(ports: Seq<u32>, port: u32, p: u32)
    ensures
        ports_without(ports, port).contains(p) <==> (ports.contains(p) && p != port),
    decreases ports.len(),
{
    reveal(Seq::filter);
    if ports.len() > 0 {
        let rest = ports.drop_last();
        lemma_ports_without(rest, port, p);
        assert(ports =~= rest.push(ports.last()));
        crate::order::lemma_push_members(rest, ports.last(), p);
        crate::order::lemma_push_members(ports_without(rest, port), ports.last(), p);
    }
}

pub proof fn lemma_filter_members<A>(s: Seq<A>, p: spec_fn(A) -> bool, x: A)
    ensures
        s.filter(p).contains(x) <==> (s.contains(x) && p(x)),
    decreases s.len(),
{
    reveal(Seq::filter);
    if s.len() > 0 {
        let rest = s.drop_last();
        lemma_filter_members(rest, p, x);
        assert(s =~= rest.push(s.last()));
        crate::order::lemma_push_members(rest, s.last(), x);
        crate::order::lemma_push_members(rest.filter(p), s.last(), x);
    }
}

/// Taking a binary out of a rule leaves no grant to it, and never turns a list of
/// binaries into a rule for any binary.
pub proof fn law_removed_binary_is_gone(
    policies: Map<Seq<char>, NetworkPolicyRuleView>,
    rule_name: Seq<char>,
    path: Seq<char>,
)
    requires
        policies.contains_key(rule_name),
    ensures
        ({
            let after = rules_without_binary(policies, rule_name, path);
            after.contains_key(rule_name) ==> {
                &&& !has_path(after[rule_name].binaries, path)
                &&& policies[rule_name].binaries.len() > 0 ==> after[rule_name].binaries.len() > 0
            }
        }),
{
    let rule = policies[rule_name];
    let other = |b: NetworkBinaryView| b.path != path;
    let left = rule.binaries.filter(other);
    assert forall|i: int| 0 <= i < left.len() implies (#[trigger] left[i]).path != path by {
        assert(left.contains(left[i]));
        lemma_filter_members(rule.binaries, other, left[i]);
    }
}

} // verus!
