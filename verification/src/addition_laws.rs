//! What adding a rule does to a policy.
use vstd::prelude::*;

use crate::coverage_laws::{law_overlap_is_a_shared_port, law_ports_of_an_endpoint, on_port};
use crate::merge_effects::{law_presets_stand_for_their_methods, lemma_least_key, preset_has};
use crate::merge_laws::{
    distinct_paths, law_binaries_are_united, law_first_failure_is_reported, lemma_first_where_is,
    receiving_key,
};
use crate::merge_model::{
    appended_binaries, binary_appended, binary_scope_covers, canonical_ports, combined_endpoint,
    endpoint_inheritance_error, endpoints_overlap, has_path, incoming_rule, merge_target,
    merged_endpoint, merged_endpoints, merged_rule, normalized_endpoint, operations_applied,
    ordered_ports, preset_rules, provider_rule, retained, rule_added, rules_share_endpoint,
    rules_with_preset, sanitized, settings_merged,
};
use crate::merge_types::PolicyMergeOpView;
use crate::order::lemma_arranged;
use crate::policy::{
    L7DenyRuleView, L7RuleView, NetworkBinaryView, NetworkEndpointView, NetworkPolicyRuleView,
    SandboxPolicyView,
};
use crate::text::{alphanumeric, precedes, trimmed, white_space};
use crate::values::{lemma_appended_unique, ranking, unique, Ranked};

verus! {

/// The list has the same members, each once.
pub open spec fn once_each<A>(list: Seq<A>, given: Seq<A>) -> bool {
    &&& list.no_duplicates()
    &&& forall|x: A| #[trigger] list.contains(x) <==> given.contains(x)
}

proof fn lemma_once_each<A>(s: Seq<A>)
    ensures
        once_each(unique(s), s),
{
    lemma_appended_unique(Seq::<A>::empty(), s);
    assert(Seq::<A>::empty().no_duplicates());
    assert forall|x: A| #[trigger] unique(s).contains(x) <==> s.contains(x) by {
        assert(!Seq::<A>::empty().contains(x));
    }
}

/// A normalized endpoint is the endpoint it came from: it is open on the same ports, listed in
/// ascending order with the least in front, has the same rules and addresses once each, and is
/// the same in everything else.
pub proof fn law_normalization_changes_no_meaning(e: NetworkEndpointView)
    ensures
        ({
            let n = normalized_endpoint(e);
            &&& forall|port: u32| #[trigger] on_port(n, port) <==> on_port(e, port)
            &&& forall|i: int, j: int| 0 <= i < j < n.ports.len() ==> n.ports[i] < n.ports[j]
            &&& n.ports.len() > 0 ==> n.port == n.ports[0]
            &&& n.ports.len() == 0 ==> n.port == 0
            &&& once_each(n.rules, e.rules)
            &&& once_each(n.deny_rules, e.deny_rules)
            &&& once_each(n.allowed_ips, e.allowed_ips)
            &&& n == (NetworkEndpointView {
                port: n.port,
                ports: n.ports,
                rules: n.rules,
                deny_rules: n.deny_rules,
                allowed_ips: n.allowed_ips,
                ..e
            })
        }),
{
    let n = normalized_endpoint(e);
    lemma_once_each(e.rules);
    lemma_once_each(e.deny_rules);
    lemma_once_each(e.allowed_ips);
    lemma_ordered(canonical_ports(e));
    assert forall|port: u32| #[trigger] on_port(n, port) <==> on_port(e, port) by {
        law_ports_of_an_endpoint(e, port);
        if n.ports.len() == 0 {
            assert(!n.ports.contains(port));
        }
    }
}

proof fn lemma_ordered(ports: Seq<u32>)
    ensures
        forall|p: u32| #[trigger] ordered_ports(ports).contains(p) <==> ports.contains(p),
        forall|i: int, j: int|
            0 <= i < j < ordered_ports(ports).len() ==> ordered_ports(ports)[i] < ordered_ports(
                ports,
            )[j],
{
    u32::rank_is_strict();
    lemma_arranged(ports, ranking::<u32>());
    let p = ordered_ports(ports);
    assert forall|i: int, j: int| 0 <= i < j < p.len() implies p[i] < p[j] by {
        assert(ranking::<u32>()(p[i], p[j]));
    }
}

/// A binary of the list has the path and was declared by the user.
pub open spec fn declared_by_user(binaries: Seq<NetworkBinaryView>, path: Seq<char>) -> bool {
    exists|i: int|
        0 <= i < binaries.len() && (#[trigger] binaries[i]).path == path && !binaries[i].harness
}

proof fn lemma_binary_appended_flags(
    binaries: Seq<NetworkBinaryView>,
    binary: NetworkBinaryView,
    path: Seq<char>,
)
    requires
        distinct_paths(binaries),
    ensures
        declared_by_user(binary_appended(binaries, binary), path) <==> declared_by_user(
            binaries,
            path,
        ) || (path == binary.path && !binary.harness),
        binaries.len() <= binary_appended(binaries, binary).len(),
        forall|i: int|
            0 <= i < binaries.len() ==> (#[trigger] binary_appended(binaries, binary)[i]).path
                == binaries[i].path,
{
    let q = |b: NetworkBinaryView| b.path == binary.path;
    lemma_first_where_is(binaries, q);
    let after = binary_appended(binaries, binary);
    match crate::merge_model::first_where(binaries, q) {
        Some(at) => {
            if declared_by_user(after, path) {
                let i = choose|i: int|
                    0 <= i < after.len() && (#[trigger] after[i]).path == path && !after[i].harness;
                if i != at {
                    assert(binaries[i].path == path && !binaries[i].harness);
                } else if binary.harness {
                    assert(binaries[i].path == path && !binaries[i].harness);
                }
            }
            if declared_by_user(binaries, path) {
                let i = choose|i: int|
                    0 <= i < binaries.len() && (#[trigger] binaries[i]).path == path
                        && !binaries[i].harness;
                assert(after[i].path == path && !after[i].harness);
            }
            if path == binary.path && !binary.harness {
                assert(after[at].path == path && !after[at].harness);
            }
        },
        None => {
            if declared_by_user(after, path) {
                let i = choose|i: int|
                    0 <= i < after.len() && (#[trigger] after[i]).path == path && !after[i].harness;
                if i < binaries.len() {
                    assert(binaries[i].path == path && !binaries[i].harness);
                }
            }
            if declared_by_user(binaries, path) {
                let i = choose|i: int|
                    0 <= i < binaries.len() && (#[trigger] binaries[i]).path == path
                        && !binaries[i].harness;
                assert(after[i].path == path && !after[i].harness);
            }
            if path == binary.path && !binary.harness {
                assert(after[binaries.len() as int].path == path);
            }
        },
    }
}

/// A binary counts as declared by the user exactly if the user declared it anywhere. The
/// binaries that were listed keep their places.
pub proof fn law_user_declarations_count(
    existing: Seq<NetworkBinaryView>,
    incoming: Seq<NetworkBinaryView>,
    path: Seq<char>,
)
    requires
        distinct_paths(existing),
    ensures
        declared_by_user(appended_binaries(existing, incoming), path) <==> declared_by_user(
            existing,
            path,
        ) || declared_by_user(incoming, path),
        existing.len() <= appended_binaries(existing, incoming).len(),
        forall|i: int|
            0 <= i < existing.len() ==> (#[trigger] appended_binaries(existing, incoming)[i]).path
                == existing[i].path,
    decreases incoming.len(),
{
    if incoming.len() > 0 {
        let rest = incoming.drop_last();
        let before = appended_binaries(existing, rest);
        law_user_declarations_count(existing, rest, path);
        law_binaries_are_united(existing, rest);
        lemma_binary_appended_flags(before, incoming.last(), path);
        let after = appended_binaries(existing, incoming);
        assert forall|i: int| 0 <= i < existing.len() implies (#[trigger] after[i]).path
            == existing[i].path by {
            assert(before[i].path == existing[i].path);
        }
        if declared_by_user(incoming, path) {
            let i = choose|i: int|
                0 <= i < incoming.len() && (#[trigger] incoming[i]).path == path
                    && !incoming[i].harness;
            if i < rest.len() {
                assert(rest[i].path == path && !rest[i].harness);
            }
        }
        if declared_by_user(rest, path) {
            let i = choose|i: int|
                0 <= i < rest.len() && (#[trigger] rest[i]).path == path && !rest[i].harness;
            assert(incoming[i].path == path && !incoming[i].harness);
        }
        if path == incoming.last().path && !incoming.last().harness {
            assert(incoming[incoming.len() - 1].path == path);
        }
    }
}

// Where a rule goes.
/// An endpoint of one rule overlaps an endpoint of the other: the same host but for case, the
/// same path, and a port that both are open on.
pub open spec fn meets(a: NetworkPolicyRuleView, b: NetworkPolicyRuleView) -> bool {
    exists|i: int, j: int, port: u32|
        0 <= i < a.endpoints.len() && 0 <= j < b.endpoints.len()
            && crate::text::same_ignoring_case(a.endpoints[i].host, b.endpoints[j].host)
            && a.endpoints[i].path == b.endpoints[j].path && #[trigger] on_port(
            a.endpoints[i],
            port,
        ) && #[trigger] on_port(b.endpoints[j], port)
}

proof fn lemma_meets(a: NetworkPolicyRuleView, b: NetworkPolicyRuleView)
    ensures
        rules_share_endpoint(a, b) <==> meets(a, b),
{
    if rules_share_endpoint(a, b) {
        let (i, j) = choose|i: int, j: int|
            0 <= i < a.endpoints.len() && 0 <= j < b.endpoints.len() && endpoints_overlap(
                #[trigger] a.endpoints[i],
                #[trigger] b.endpoints[j],
            );
        law_overlap_is_a_shared_port(a.endpoints[i], b.endpoints[j]);
        let port = choose|port: u32| #[trigger]
            on_port(a.endpoints[i], port) && on_port(b.endpoints[j], port);
        assert(on_port(a.endpoints[i], port) && on_port(b.endpoints[j], port));
    }
    if meets(a, b) {
        let (i, j, port) = choose|i: int, j: int, port: u32|
            0 <= i < a.endpoints.len() && 0 <= j < b.endpoints.len()
                && crate::text::same_ignoring_case(a.endpoints[i].host, b.endpoints[j].host)
                && a.endpoints[i].path == b.endpoints[j].path && #[trigger] on_port(
                a.endpoints[i],
                port,
            ) && #[trigger] on_port(b.endpoints[j], port);
        law_overlap_is_a_shared_port(a.endpoints[i], b.endpoints[j]);
        assert(endpoints_overlap(a.endpoints[i], b.endpoints[j]));
    }
}

/// The normalized rule meets the same rules as the rule itself.
proof fn lemma_incoming_meets(
    a: NetworkPolicyRuleView,
    rule: NetworkPolicyRuleView,
    rule_name: Seq<char>,
)
    ensures
        meets(a, incoming_rule(rule, rule_name)) <==> meets(a, rule),
{
    let incoming = incoming_rule(rule, rule_name);
    assert forall|j: int| 0 <= j < rule.endpoints.len() implies #[trigger] incoming.endpoints[j]
        == normalized_endpoint(rule.endpoints[j]) by {}
    if meets(a, incoming) {
        let (i, j, port) = choose|i: int, j: int, port: u32|
            0 <= i < a.endpoints.len() && 0 <= j < incoming.endpoints.len()
                && crate::text::same_ignoring_case(a.endpoints[i].host, incoming.endpoints[j].host)
                && a.endpoints[i].path == incoming.endpoints[j].path && #[trigger] on_port(
                a.endpoints[i],
                port,
            ) && #[trigger] on_port(incoming.endpoints[j], port);
        law_normalization_changes_no_meaning(rule.endpoints[j]);
        assert(on_port(a.endpoints[i], port) && on_port(rule.endpoints[j], port));
    }
    if meets(a, rule) {
        let (i, j, port) = choose|i: int, j: int, port: u32|
            0 <= i < a.endpoints.len() && 0 <= j < rule.endpoints.len()
                && crate::text::same_ignoring_case(a.endpoints[i].host, rule.endpoints[j].host)
                && a.endpoints[i].path == rule.endpoints[j].path && #[trigger] on_port(
                a.endpoints[i],
                port,
            ) && #[trigger] on_port(rule.endpoints[j], port);
        law_normalization_changes_no_meaning(rule.endpoints[j]);
        assert(on_port(a.endpoints[i], port) && on_port(incoming.endpoints[j], port));
    }
}

/// A rule that is added joins the rule of its name, or else the first of the user's rules that
/// it meets; otherwise it gets a place of its own.
pub proof fn law_added_rule_joins_the_first_it_meets(
    policies: Map<Seq<char>, NetworkPolicyRuleView>,
    rule_name: Seq<char>,
    rule: NetworkPolicyRuleView,
)
    requires
        policies.dom().finite(),
    ensures
        match merge_target(policies, rule_name, incoming_rule(rule, rule_name)) {
            Some(key) => policies.contains_key(key) && if policies.contains_key(rule_name) {
                key == rule_name
            } else {
                &&& !"_provider_"@.is_prefix_of(key)
                &&& meets(policies[key], rule)
                &&& forall|k: Seq<char>| #[trigger]
                    policies.contains_key(k) && !"_provider_"@.is_prefix_of(k) && meets(
                        policies[k],
                        rule,
                    ) ==> k == key || precedes(key, k)
            },
            None => !policies.contains_key(rule_name) && forall|k: Seq<char>| #[trigger]
                policies.contains_key(k) && !"_provider_"@.is_prefix_of(k) ==> !meets(
                    policies[k],
                    rule,
                ),
        },
{
    let incoming = incoming_rule(rule, rule_name);
    let p = |k: Seq<char>, r: NetworkPolicyRuleView|
        !provider_rule(k) && rules_share_endpoint(r, incoming);
    lemma_least_key(policies, p);
    assert forall|k: Seq<char>, r: NetworkPolicyRuleView| #[trigger] p(k, r) <==> (
    !"_provider_"@.is_prefix_of(k) && meets(r, rule)) by {
        lemma_meets(r, incoming);
        lemma_incoming_meets(r, rule, rule_name);
    }
}

/// Adding a rule changes one rule of the policy, and nothing else of it.
pub proof fn law_adding_changes_one_rule(
    policy: SandboxPolicyView,
    operation_index: usize,
    rule_name: Seq<char>,
    rule: NetworkPolicyRuleView,
    key: Seq<char>,
)
    requires
        rule_added(policy, operation_index, rule_name, rule) is Ok,
    ensures
        ({
            let after = rule_added(policy, operation_index, rule_name, rule)->Ok_0.0;
            let at = receiving_key(policy, rule_name, rule);
            &&& after == (SandboxPolicyView { network_policies: after.network_policies, ..policy })
            &&& after.network_policies.contains_key(key) <==> policy.network_policies.contains_key(
                key,
            ) || key == at
            &&& key != at && policy.network_policies.contains_key(key)
                ==> after.network_policies[key] == policy.network_policies[key]
            &&& policy.network_policies.contains_key(at) ==> after.network_policies[at].name
                == policy.network_policies[at].name
        }),
{
    let target = merge_target(policy.network_policies, rule_name, incoming_rule(rule, rule_name));
    if target is Some {
        let p = |k: Seq<char>, r: NetworkPolicyRuleView|
            !provider_rule(k) && rules_share_endpoint(r, incoming_rule(rule, rule_name));
        if !policy.network_policies.contains_key(rule_name) {
            assert(crate::merge_model::is_least_key(policy.network_policies, p, target->0));
        }
    }
}

/// A rule that meets no other is loaded as it was given: under its name, with each endpoint in
/// its place and as it was, and with its binaries, each once. Nothing is warned of.
pub proof fn law_new_rule_is_loaded_as_given(
    policy: SandboxPolicyView,
    operation_index: usize,
    rule_name: Seq<char>,
    rule: NetworkPolicyRuleView,
    i: int,
    path: Seq<char>,
)
    requires
        policy.network_policies.dom().finite(),
        !policy.network_policies.contains_key(rule_name),
        forall|k: Seq<char>| #[trigger]
            policy.network_policies.contains_key(k) && !"_provider_"@.is_prefix_of(k) ==> !meets(
                policy.network_policies[k],
                rule,
            ),
        0 <= i < rule.endpoints.len(),
    ensures
        ({
            let added = rule_added(policy, operation_index, rule_name, rule);
            let loaded = added->Ok_0.0.network_policies[rule_name];
            &&& added is Ok
            &&& added->Ok_0.1.len() == 0
            &&& added->Ok_0.0.network_policies == policy.network_policies.insert(rule_name, loaded)
            &&& loaded.name == if rule.name.len() > 0 {
                rule.name
            } else {
                rule_name
            }
            &&& loaded.endpoints.len() == rule.endpoints.len()
            &&& loaded.endpoints[i] == normalized_endpoint(rule.endpoints[i])
            &&& distinct_paths(loaded.binaries)
            &&& has_path(loaded.binaries, path) <==> has_path(rule.binaries, path)
            &&& declared_by_user(loaded.binaries, path) <==> declared_by_user(rule.binaries, path)
        }),
{
    law_added_rule_joins_the_first_it_meets(policy.network_policies, rule_name, rule);
    law_binaries_are_united(Seq::empty(), rule.binaries);
    law_user_declarations_count(Seq::empty(), rule.binaries, path);
    assert(!has_path(Seq::<NetworkBinaryView>::empty(), path));
    assert(!declared_by_user(Seq::<NetworkBinaryView>::empty(), path));
}

/// A rule that joins another gives it its binaries, and takes none away.
pub proof fn law_joined_rule_has_both_lists_of_binaries(
    existing: NetworkPolicyRuleView,
    incoming: NetworkPolicyRuleView,
    operation_index: usize,
    rule_name: Seq<char>,
    path: Seq<char>,
)
    requires
        merged_rule(existing, incoming, operation_index, rule_name) is Ok,
    ensures
        ({
            let merged = merged_rule(existing, incoming, operation_index, rule_name)->Ok_0.0;
            &&& merged.name == existing.name
            &&& has_path(merged.binaries, path) <==> has_path(existing.binaries, path) || has_path(
                incoming.binaries,
                path,
            )
            &&& distinct_paths(existing.binaries) ==> (declared_by_user(merged.binaries, path)
                <==> declared_by_user(existing.binaries, path) || declared_by_user(
                incoming.binaries,
                path,
            ))
        }),
{
    law_binaries_are_united(existing.binaries, incoming.binaries);
    if distinct_paths(existing.binaries) {
        law_user_declarations_count(existing.binaries, incoming.binaries, path);
    }
}

/// A merge between rules for the same binaries is never refused for what binaries inherit.
pub proof fn law_same_binaries_inherit_nothing(
    existing: NetworkPolicyRuleView,
    incoming: NetworkPolicyRuleView,
    operation_index: usize,
    rule_name: Seq<char>,
)
    requires
        existing.binaries.len() == 0 <==> incoming.binaries.len() == 0,
        forall|path: Seq<char>| #[trigger]
            has_path(existing.binaries, path) <==> has_path(incoming.binaries, path),
    ensures
        merged_rule(existing, incoming, operation_index, rule_name) is Ok <==> merged_endpoints(
            existing.endpoints,
            incoming.endpoints,
            operation_index,
        ) is Ok,
{
    if merged_endpoints(existing.endpoints, incoming.endpoints, operation_index) is Ok {
        let merged = merged_endpoints(
            existing.endpoints,
            incoming.endpoints,
            operation_index,
        )->Ok_0.0;
        let fresh = |b: NetworkBinaryView| !binary_scope_covers(existing, b.path);
        lemma_first_where_is(incoming.binaries, fresh);
        assert forall|j: int| 0 <= j < incoming.binaries.len() implies !fresh(
            #[trigger] incoming.binaries[j],
        ) by {
            assert(has_path(incoming.binaries, incoming.binaries[j].path));
        }
        let left_out = |b: NetworkBinaryView| !has_path(incoming.binaries, b.path);
        let lost = existing.binaries.filter(left_out);
        if lost.len() > 0 {
            assert(lost.contains(lost[0]));
            crate::merge_laws::lemma_filter_members(existing.binaries, left_out, lost[0]);
            let j = choose|j: int| 0 <= j < existing.binaries.len() && existing.binaries[j] == lost[0];
            assert(existing.binaries[j].path == lost[0].path);
            assert(has_path(existing.binaries, lost[0].path));
        }
        let told = |e: NetworkEndpointView|
            endpoint_inheritance_error(existing, incoming, e, operation_index, rule_name) is Some;
        lemma_first_where_is(merged, told);
    }
}

// Endpoints that meet.
/// Two endpoints that merge give an endpoint that has what either has and nothing more: ports,
/// deny rules, addresses and flags. Allow rules come from either, or from the preset that the
/// existing endpoint had, where the incoming one brings rules.
pub proof fn law_merged_endpoint_invents_nothing(
    existing: NetworkEndpointView,
    incoming: NetworkEndpointView,
)
    ensures
        ({
            let merged = combined_endpoint(existing, incoming);
            &&& forall|port: u32| #[trigger]
                on_port(merged, port) <==> on_port(existing, port) || on_port(incoming, port)
            &&& forall|d: L7DenyRuleView| #[trigger]
                merged.deny_rules.contains(d) <==> existing.deny_rules.contains(d)
                    || incoming.deny_rules.contains(d)
            &&& forall|ip: Seq<char>| #[trigger]
                merged.allowed_ips.contains(ip) <==> existing.allowed_ips.contains(ip)
                    || incoming.allowed_ips.contains(ip)
            &&& forall|r: L7RuleView| #[trigger]
                merged.rules.contains(r) <==> existing.rules.contains(r) || incoming.rules.contains(
                    r,
                ) || (incoming.rules.len() > 0 && preset_has(
                    if existing.protocol.len() > 0 {
                        existing.protocol
                    } else {
                        incoming.protocol
                    },
                    existing.access,
                    r,
                ))
            &&& merged.allow_encoded_slash <==> existing.allow_encoded_slash
                || incoming.allow_encoded_slash
            &&& merged.websocket_credential_rewrite <==> existing.websocket_credential_rewrite
                || incoming.websocket_credential_rewrite
            &&& merged.request_body_credential_rewrite
                <==> existing.request_body_credential_rewrite
                || incoming.request_body_credential_rewrite
            &&& merged.advisor_proposed <==> existing.advisor_proposed || incoming.advisor_proposed
        }),
{
    let merged = combined_endpoint(existing, incoming);
    let both = canonical_ports(existing) + canonical_ports(incoming);
    let settings = settings_merged(existing, incoming);
    let before = crate::merge_model::lists_merged(
        crate::merge_model::access_merged(settings, incoming),
        incoming,
    );
    law_normalization_changes_no_meaning(before);
    lemma_ordered(both);
    assert forall|port: u32| #[trigger] on_port(merged, port) <==> on_port(existing, port)
        || on_port(incoming, port) by {
        law_ports_of_an_endpoint(existing, port);
        law_ports_of_an_endpoint(incoming, port);
        crate::merge_laws::lemma_concat_contains(
            canonical_ports(existing),
            canonical_ports(incoming),
            port,
        );
        assert(on_port(before, port) <==> ordered_ports(both).contains(port)) by {
            if ordered_ports(both).len() == 0 {
                assert(!ordered_ports(both).contains(port));
            }
        }
    }
    lemma_appended_unique(existing.deny_rules, incoming.deny_rules);
    lemma_appended_unique(existing.allowed_ips, incoming.allowed_ips);
    let protocol = retained(existing.protocol, incoming.protocol);
    let expanded = rules_with_preset(existing.rules, protocol, existing.access);
    match preset_rules(protocol, existing.access) {
        Some(preset) => {
            lemma_appended_unique(existing.rules, preset);
        },
        None => {},
    }
    lemma_appended_unique(expanded, incoming.rules);
    assert forall|r: L7RuleView| #[trigger] merged.rules.contains(r) <==> existing.rules.contains(r)
        || incoming.rules.contains(r) || (incoming.rules.len() > 0 && preset_has(
        protocol,
        existing.access,
        r,
    )) by {
        law_presets_stand_for_their_methods(protocol, existing.access, r);
        assert(merged.rules.contains(r) <==> before.rules.contains(r));
        if incoming.rules.len() == 0 {
            assert(!incoming.rules.contains(r));
        }
    }
    assert forall|d: L7DenyRuleView| #[trigger] merged.deny_rules.contains(d)
        <==> existing.deny_rules.contains(d) || incoming.deny_rules.contains(d) by {
        assert(merged.deny_rules.contains(d) <==> before.deny_rules.contains(d));
    }
    assert forall|ip: Seq<char>| #[trigger] merged.allowed_ips.contains(ip)
        <==> existing.allowed_ips.contains(ip) || incoming.allowed_ips.contains(ip) by {
        assert(merged.allowed_ips.contains(ip) <==> before.allowed_ips.contains(ip));
    }
}

/// What an existing endpoint has set stays when another is merged into it, and what it has not
/// set it takes over. Rules that come in replace a preset; without rules on either side an
/// unset preset is taken over.
pub proof fn law_set_values_stay(existing: NetworkEndpointView, incoming: NetworkEndpointView)
    ensures
        ({
            let merged = combined_endpoint(existing, incoming);
            &&& existing.host.len() > 0 ==> merged.host == existing.host
            &&& existing.host.len() == 0 ==> merged.host == incoming.host
            &&& existing.path.len() > 0 ==> merged.path == existing.path
            &&& existing.path.len() == 0 ==> merged.path == incoming.path
            &&& existing.protocol.len() > 0 ==> merged.protocol == existing.protocol
            &&& existing.protocol.len() == 0 ==> merged.protocol == incoming.protocol
            &&& existing.tls.len() > 0 ==> merged.tls == existing.tls
            &&& existing.tls.len() == 0 ==> merged.tls == incoming.tls
            &&& existing.enforcement.len() > 0 ==> merged.enforcement == existing.enforcement
            &&& existing.enforcement.len() == 0 ==> merged.enforcement == incoming.enforcement
            &&& incoming.rules.len() > 0 ==> merged.access.len() == 0
            &&& incoming.rules.len() == 0 && (existing.access.len() > 0 || existing.rules.len() > 0)
                ==> merged.access == existing.access
            &&& incoming.rules.len() == 0 && existing.access.len() == 0 && existing.rules.len() == 0
                ==> merged.access == incoming.access
            &&& merged.persisted_queries == existing.persisted_queries
            &&& merged.graphql_persisted_queries == existing.graphql_persisted_queries
            &&& merged.graphql_max_body_bytes == existing.graphql_max_body_bytes
            &&& merged.credential_signing == existing.credential_signing
            &&& merged.signing_service == existing.signing_service
            &&& merged.signing_region == existing.signing_region
            &&& (existing.mcp is Some || existing.protocol.len() > 0
                || existing.json_rpc_max_body_bytes > 0) ==> merged.mcp == existing.mcp
                && merged.json_rpc_max_body_bytes == existing.json_rpc_max_body_bytes
        }),
{
}

/// Endpoints merge only if they agree on how MCP is inspected, or if the existing one is not
/// inspected at all and takes the inspection over: in either case the merged endpoint inspects
/// as the incoming one asks.
pub proof fn law_merge_agrees_on_mcp(
    existing: NetworkEndpointView,
    incoming: NetworkEndpointView,
    operation_index: usize,
)
    requires
        merged_endpoint(existing, incoming, operation_index) is Ok,
    ensures
        ({
            let merged = merged_endpoint(existing, incoming, operation_index)->Ok_0.0;
            let speaks = |e: NetworkEndpointView|
                crate::text::same_ignoring_case(e.protocol, "mcp"@);
            &&& speaks(merged) <==> speaks(incoming)
            &&& speaks(existing) ==> speaks(incoming)
            &&& speaks(incoming) ==> speaks(existing) || (existing.protocol.len() == 0
                && existing.mcp is None)
            &&& speaks(incoming) ==> {
                &&& (merged.mcp is Some && merged.mcp->0.strict_tool_names == Some(false)) <==> (
                incoming.mcp is Some && incoming.mcp->0.strict_tool_names == Some(false))
                &&& (merged.mcp is Some && merged.mcp->0.allow_all_known_mcp_methods == Some(true))
                    <==> (incoming.mcp is Some && incoming.mcp->0.allow_all_known_mcp_methods
                    == Some(true))
            }
        }),
{
    reveal_strlit("mcp");
}

/// No setting of an incoming endpoint is kept out in silence: whatever it sets and does not get
/// is warned of. And nothing is warned of without reason: where it gets what it sets, and no
/// preset is written out, there is no warning.
pub proof fn law_nothing_is_kept_out_in_silence(
    existing: NetworkEndpointView,
    incoming: NetworkEndpointView,
    operation_index: usize,
)
    requires
        merged_endpoint(existing, incoming, operation_index) is Ok,
    ensures
        ({
            let (merged, warnings) = merged_endpoint(existing, incoming, operation_index)->Ok_0;
            let lost = |asked: Seq<char>, got: Seq<char>| asked.len() > 0 && asked != got;
            &&& lost(incoming.protocol, merged.protocol) <==> exists|i: int|
                0 <= i < warnings.len() && #[trigger] warnings[i] is ExistingProtocolRetained
            &&& lost(incoming.enforcement, merged.enforcement) <==> exists|i: int|
                0 <= i < warnings.len() && #[trigger] warnings[i] is ExistingEnforcementRetained
            &&& lost(incoming.tls, merged.tls) <==> exists|i: int|
                0 <= i < warnings.len() && #[trigger] warnings[i] is ExistingTlsRetained
            &&& lost(existing.access, merged.access) <==> exists|i: int|
                0 <= i < warnings.len() && #[trigger] warnings[i] is ExpandedAccessPreset
            &&& incoming.access.len() > 0 && (incoming.rules.len() > 0 || existing.rules.len() > 0)
                <==> exists|i: int|
                0 <= i < warnings.len()
                    && #[trigger] warnings[i] is IgnoredIncomingAccessBecauseRulesExist
            &&& incoming.rules.len() == 0 && existing.rules.len() == 0 && lost(
                incoming.access,
                merged.access,
            ) <==> exists|i: int|
                0 <= i < warnings.len() && #[trigger] warnings[i] is ExistingAccessRetained
            &&& warnings.len() <= 5
        }),
{
    let (merged, warnings) = merged_endpoint(existing, incoming, operation_index)->Ok_0;
    let host = retained(existing.host, incoming.host);
    let port = crate::merge_model::meeting_port(
        canonical_ports(existing),
        canonical_ports(incoming),
    );
    let a = crate::merge_model::settings_warnings(existing, incoming, host, port);
    let b = crate::merge_model::access_warnings(existing, incoming, host, port);
    let p = crate::merge_model::disagree(existing.protocol, incoming.protocol);
    let f = crate::merge_model::disagree(existing.enforcement, incoming.enforcement);
    let t = crate::merge_model::disagree(existing.tls, incoming.tls);
    let x = incoming.rules.len() > 0 && existing.access.len() > 0;
    let g = incoming.access.len() > 0 && (incoming.rules.len() > 0 || existing.rules.len() > 0);
    let k = incoming.rules.len() == 0 && existing.rules.len() == 0
        && crate::merge_model::disagree(existing.access, incoming.access);
    let np: int = if p { 1 } else { 0 };
    let nf: int = if f { 1 } else { 0 };
    let nt: int = if t { 1 } else { 0 };
    let nx: int = if x { 1 } else { 0 };
    let ng: int = if g { 1 } else { 0 };
    assert(warnings == a + b);
    assert(a.len() == np + nf + nt);
    if p {
        assert(warnings[0] is ExistingProtocolRetained);
    }
    if f {
        assert(warnings[np] is ExistingEnforcementRetained);
    }
    if t {
        assert(warnings[np + nf] is ExistingTlsRetained);
    }
    if x {
        assert(warnings[np + nf + nt] is ExpandedAccessPreset);
    }
    if g {
        assert(warnings[np + nf + nt + nx] is IgnoredIncomingAccessBecauseRulesExist);
    }
    if k {
        assert(warnings[np + nf + nt + nx + ng] is ExistingAccessRetained);
    }
}

// Lists of operations.
/// A list with an addition that has no name, or no endpoints, is refused.
pub proof fn law_empty_additions_are_refused(
    policy: SandboxPolicyView,
    operations: Seq<PolicyMergeOpView>,
    n: int,
)
    requires
        0 <= n < operations.len(),
        operations[n] is AddRule,
        operations[n]->AddRule_rule.endpoints.len() == 0 || forall|i: int|
            0 <= i < operations[n]->AddRule_rule_name.len() ==> white_space(
                #[trigger] operations[n]->AddRule_rule_name[i],
            ),
    ensures
        operations_applied(policy, operations) is Err,
{
    let first = operations.take(n + 1);
    assert(first.last() == operations[n]);
    crate::text::law_trimming_takes_only_white_space(operations[n]->AddRule_rule_name);
    let name = operations[n]->AddRule_rule_name;
    if trimmed(name).len() > 0 && operations[n]->AddRule_rule.endpoints.len() > 0 {
        assert(!white_space(trimmed(name)[0]));
        let (from, to) = choose|from: int, to: int|
            0 <= from <= to <= name.len() && #[trigger] name.subrange(from, to) == trimmed(name);
        assert(trimmed(name)[0] == name[from]);
    }
    assert(operations_applied(policy, first) is Err);
    law_first_failure_is_reported(policy, operations, n + 1);
}

/// A rule name that is made of a host keeps its letters and digits and has underscores for its
/// dots, dashes and underscores: the part for two texts is that for the one and that for the
/// other.
pub proof fn law_host_names_are_made_safe(a: Seq<char>, b: Seq<char>, c: char)
    ensures
        sanitized(a + b) == sanitized(a) + sanitized(b),
        sanitized(seq![c]) == (if c == '.' || c == '-' || c == '_' {
            seq!['_']
        } else if alphanumeric(c) {
            seq![c]
        } else {
            Seq::empty()
        }),
        forall|i: int|
            0 <= i < sanitized(a).len() ==> #[trigger] sanitized(a)[i] == '_' || alphanumeric(
                sanitized(a)[i],
            ),
    decreases a.len() + b.len(),
{
    assert(seq![c].drop_last() =~= Seq::empty());
    assert(sanitized(Seq::empty()) =~= Seq::empty());
    assert(sanitized(seq![c]) =~= (if c == '.' || c == '-' || c == '_' {
        seq!['_']
    } else if alphanumeric(c) {
        seq![c]
    } else {
        Seq::empty()
    }));
    if b.len() == 0 {
        assert(a + b =~= a);
        assert(sanitized(a) + sanitized(b) =~= sanitized(a));
        if a.len() > 0 {
            law_host_names_are_made_safe(a.drop_last(), b, c);
        }
    } else {
        assert((a + b).drop_last() =~= a + b.drop_last());
        law_host_names_are_made_safe(a, b.drop_last(), c);
        assert(sanitized(a + b) =~= sanitized(a) + sanitized(b));
    }
}

} // verus!
