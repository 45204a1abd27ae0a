//! What the warnings and the errors of a merge tell is so.
use vstd::prelude::*;

use crate::coverage_laws::{law_ports_of_an_endpoint, on_port};
use crate::merge_effects::{addressed, law_operations_find_the_first_endpoint, served_at};
use crate::merge_laws::lemma_first_where_is;
use crate::merge_model::{
    any_covers, any_equivalent, binary_scope_covers, canonical_ports, endpoint_inheritance_error,
    endpoint_key, endpoints_overlap, first_endpoint, has_path, inheritance_error, meeting_port,
    merged_endpoint, merged_endpoints, new_binary, normalized_endpoint, operation_applied,
    operation_error, operations_applied, rule_added, undeclared_binaries,
};
use crate::merge_types::{PolicyMergeErrorView, PolicyMergeOpView, PolicyMergeWarningView};
use crate::policy::{
    L7DenyRuleView, L7RuleView, NetworkBinaryView, NetworkEndpointView, NetworkPolicyRuleView,
    SandboxPolicyView,
};

verus! {

/// The port that is named when two endpoints overlap is one that both are open on.
pub proof fn law_named_port_is_shared(existing: NetworkEndpointView, incoming: NetworkEndpointView)
    requires
        endpoints_overlap(existing, incoming),
    ensures
        ({
            let port = meeting_port(canonical_ports(existing), canonical_ports(incoming));
            on_port(existing, port) && on_port(incoming, port)
        }),
{
    let (a, b) = (canonical_ports(existing), canonical_ports(incoming));
    let p = |x: u32| b.contains(x);
    lemma_first_where_is(a, p);
    let shared = choose|x: u32| #[trigger] a.contains(x) && b.contains(x);
    let i = choose|i: int| 0 <= i < a.len() && a[i] == shared;
    assert(p(a[i]));
    let port = meeting_port(a, b);
    assert(a.contains(port));
    law_ports_of_an_endpoint(existing, port);
    law_ports_of_an_endpoint(incoming, port);
}

/// What the warning tells is so: it is about the host and the port, what it says was there was
/// there, what it says came in came in, and what it says is kept is in the merged endpoint.
pub open spec fn is_true(
    warning: PolicyMergeWarningView,
    existing: NetworkEndpointView,
    incoming: NetworkEndpointView,
    merged: NetworkEndpointView,
    named: u32,
) -> bool {
    match warning {
        PolicyMergeWarningView::ExistingProtocolRetained {
            host,
            port,
            existing: kept,
            incoming: ignored,
        } => host == merged.host && port == named && kept == existing.protocol && kept
            == merged.protocol && ignored == incoming.protocol,
        PolicyMergeWarningView::ExistingEnforcementRetained {
            host,
            port,
            existing: kept,
            incoming: ignored,
        } => host == merged.host && port == named && kept == existing.enforcement && kept
            == merged.enforcement && ignored == incoming.enforcement,
        PolicyMergeWarningView::ExistingTlsRetained {
            host,
            port,
            existing: kept,
            incoming: ignored,
        } => host == merged.host && port == named && kept == existing.tls && kept == merged.tls
            && ignored == incoming.tls,
        PolicyMergeWarningView::ExistingAccessRetained {
            host,
            port,
            existing: kept,
            incoming: ignored,
        } => host == merged.host && port == named && kept == existing.access && kept
            == merged.access && ignored == incoming.access,
        PolicyMergeWarningView::ExpandedAccessPreset { host, port, access } => host == merged.host
            && port == named && access == existing.access && merged.access.len() == 0,
        PolicyMergeWarningView::IgnoredIncomingAccessBecauseRulesExist {
            host,
            port,
            incoming: ignored,
        } => host == merged.host && port == named && ignored == incoming.access,
    }
}

/// What the warnings of a merge of two endpoints tell is so.
pub proof fn law_warnings_are_true(
    existing: NetworkEndpointView,
    incoming: NetworkEndpointView,
    operation_index: usize,
)
    requires
        merged_endpoint(existing, incoming, operation_index) is Ok,
    ensures
        ({
            let (merged, warnings) = merged_endpoint(existing, incoming, operation_index)->Ok_0;
            let named = meeting_port(canonical_ports(existing), canonical_ports(incoming));
            forall|i: int|
                0 <= i < warnings.len() ==> is_true(
                    #[trigger] warnings[i],
                    existing,
                    incoming,
                    merged,
                    named,
                )
        }),
{
    let (merged, warnings) = merged_endpoint(existing, incoming, operation_index)->Ok_0;
    let named = meeting_port(canonical_ports(existing), canonical_ports(incoming));
    let host = crate::merge_model::retained(existing.host, incoming.host);
    crate::addition_laws::law_set_values_stay(existing, incoming);
    let a = crate::merge_model::settings_warnings(existing, incoming, host, named);
    let b = crate::merge_model::access_warnings(existing, incoming, host, named);
    let p = |w: PolicyMergeWarningView| is_true(w, existing, incoming, merged, named);
    assert(merged.host == host);
    assert(forall|i: int| 0 <= i < a.len() ==> p(#[trigger] a[i]));
    assert(forall|i: int| 0 <= i < b.len() ==> p(#[trigger] b[i]));
    assert(warnings == a + b);
    assert forall|i: int| 0 <= i < warnings.len() implies is_true(
        #[trigger] warnings[i],
        existing,
        incoming,
        merged,
        named,
    ) by {
        if i < a.len() {
            assert(p(a[i]));
        } else {
            assert(p(b[i - a.len()]));
        }
    }
}

/// Two endpoints fail to merge exactly if they differ in how MCP is inspected, and the existing
/// one does not take the inspection over, or if a preset that nobody knows would have to be
/// written out. The error is about the host and a port of both.
pub proof fn law_endpoints_fail_to_merge_for_a_reason(
    existing: NetworkEndpointView,
    incoming: NetworkEndpointView,
    operation_index: usize,
)
    requires
        merged_endpoint(existing, incoming, operation_index) is Err,
    ensures
        ({
            let named = meeting_port(canonical_ports(existing), canonical_ports(incoming));
            let about = if existing.host.len() > 0 {
                existing.host
            } else {
                incoming.host
            };
            match merged_endpoint(existing, incoming, operation_index)->Err_0 {
                PolicyMergeErrorView::McpContractConflict {
                    operation_index: index,
                    host,
                    port,
                    existing: _,
                    incoming: _,
                } => index == operation_index && host == about && port == named
                    && !crate::merge_model::mcp_contracts_match(existing, incoming),
                PolicyMergeErrorView::UnsupportedAccessPreset { host, port, access } => {
                    &&& host == about && port == named && access == existing.access
                    &&& incoming.rules.len() > 0
                    &&& access.len() > 0 && access != "full"@ && access != "read-only"@ && access
                        != "read-write"@
                },
                _ => false,
            }
        }),
{
}

/// What is told when a merge of rules is refused is so. A new binary is one that the incoming
/// rule names and the existing one does not apply to, and the endpoint is one that no incoming
/// endpoint covers. Otherwise the endpoint is new or changed, and the binaries that are told of
/// are those that the incoming rule does not name.
pub proof fn law_refused_inheritance_is_true(
    existing: NetworkPolicyRuleView,
    incoming: NetworkPolicyRuleView,
    merged: Seq<NetworkEndpointView>,
    operation_index: usize,
    rule_name: Seq<char>,
)
    requires
        inheritance_error(existing, incoming, merged, operation_index, rule_name) is Some,
    ensures
        exists|i: int|
            {
                &&& 0 <= i < merged.len()
                &&& match inheritance_error(
                    existing,
                    incoming,
                    merged,
                    operation_index,
                    rule_name,
                )->0 {
                    PolicyMergeErrorView::NewBinaryWouldInheritAuthorization {
                        operation_index: index,
                        rule_name: name,
                        binary_path,
                        host,
                        ports,
                    } => {
                        &&& index == operation_index && name == rule_name
                        &&& has_path(incoming.binaries, binary_path)
                        &&& existing.binaries.len() > 0 && !has_path(existing.binaries, binary_path)
                        &&& host == merged[i].host && ports == canonical_ports(merged[i])
                        &&& !any_covers(incoming.endpoints, #[trigger] merged[i])
                    },
                    PolicyMergeErrorView::ExistingBinariesWouldInheritAuthorization {
                        operation_index: index,
                        rule_name: name,
                        host,
                        ports,
                        undeclared_binaries: told,
                    } => {
                        &&& index == operation_index && name == rule_name
                        &&& host == merged[i].host && ports == canonical_ports(merged[i])
                        &&& !any_equivalent(existing.endpoints, #[trigger] merged[i])
                        &&& told.len() > 0
                        &&& existing.binaries.len() > 0 ==> forall|k: int|
                            0 <= k < told.len() ==> has_path(existing.binaries, #[trigger] told[k])
                                && !has_path(incoming.binaries, told[k])
                    },
                    _ => false,
                }
            },
{
    let told = |e: NetworkEndpointView|
        endpoint_inheritance_error(existing, incoming, e, operation_index, rule_name) is Some;
    lemma_first_where_is(merged, told);
    let i = crate::merge_model::first_where(merged, told)->0;
    let fresh = |b: NetworkBinaryView| !binary_scope_covers(existing, b.path);
    lemma_first_where_is(incoming.binaries, fresh);
    if new_binary(existing, incoming) is Some {
        let j = crate::merge_model::first_where(incoming.binaries, fresh)->0;
        assert(incoming.binaries[j].path == new_binary(existing, incoming)->0.path);
        assert(has_path(incoming.binaries, incoming.binaries[j].path));
    }
    let list = undeclared_binaries(existing, incoming);
    let left_out = |b: NetworkBinaryView| !has_path(incoming.binaries, b.path);
    let lost = existing.binaries.filter(left_out);
    if incoming.binaries.len() > 0 && existing.binaries.len() > 0 {
        assert forall|k: int| 0 <= k < list.len() implies has_path(
            existing.binaries,
            #[trigger] list[k],
        ) && !has_path(incoming.binaries, list[k]) by {
            assert(list[k] == lost[k].path);
            assert(lost.contains(lost[k]));
            crate::merge_laws::lemma_filter_members(existing.binaries, left_out, lost[k]);
            let b = choose|b: int| 0 <= b < existing.binaries.len() && existing.binaries[b] == lost[k];
            assert(existing.binaries[b].path == list[k]);
        }
    }
    assert(told(merged[i]));
}

/// The port is one that an endpoint of the list is open on, for the same host but for case and
/// the same path.
pub open spec fn listed_on(
    endpoints: Seq<NetworkEndpointView>,
    like: NetworkEndpointView,
    port: u32,
) -> bool {
    exists|i: int|
        0 <= i < endpoints.len() && crate::text::same_ignoring_case(
            (#[trigger] endpoints[i]).host,
            like.host,
        ) && endpoints[i].path == like.path && on_port(endpoints[i], port)
}

/// A merge of endpoints opens no port that was not asked for: each port of a merged endpoint is
/// one of an existing or of an incoming endpoint for the same host and path.
pub proof fn law_merges_open_no_other_port(
    existing: Seq<NetworkEndpointView>,
    incoming: Seq<NetworkEndpointView>,
    operation_index: usize,
    m: int,
    port: u32,
)
    requires
        merged_endpoints(existing, incoming, operation_index) is Ok,
        0 <= m < merged_endpoints(existing, incoming, operation_index)->Ok_0.0.len(),
        on_port(merged_endpoints(existing, incoming, operation_index)->Ok_0.0[m], port),
    ensures
        ({
            let e = merged_endpoints(existing, incoming, operation_index)->Ok_0.0[m];
            listed_on(existing, e, port) || listed_on(incoming, e, port)
        }),
    decreases incoming.len(),
{
    let merged = merged_endpoints(existing, incoming, operation_index)->Ok_0.0;
    let e = merged[m];
    crate::text::law_case_folding_is_symmetric(e.host, e.host);
    if incoming.len() == 0 {
        assert(existing[m] == e);
    } else {
        let rest = incoming.drop_last();
        let last = incoming.last();
        let next = normalized_endpoint(last);
        let before = merged_endpoints(existing, rest, operation_index)->Ok_0.0;
        let p = |x: NetworkEndpointView| endpoints_overlap(x, next);
        lemma_first_where_is(before, p);
        crate::addition_laws::law_normalization_changes_no_meaning(last);
        let at = crate::merge_model::first_where(before, p);
        if at is Some && at->0 == m {
            let old_one = before[m];
            crate::addition_laws::law_merged_endpoint_invents_nothing(old_one, next);
            crate::addition_laws::law_set_values_stay(old_one, next);
            assert(same_place(old_one, e)) by {
                crate::text::law_case_folding_is_symmetric(old_one.host, next.host);
                if old_one.path.len() == 0 {
                    assert(old_one.path =~= next.path);
                }
                if old_one.host.len() == 0 {
                    assert(old_one.host =~= next.host);
                }
            }
            if on_port(old_one, port) {
                law_merges_open_no_other_port(existing, rest, operation_index, m, port);
                lemma_listed(existing, old_one, e, port);
                lemma_listed(rest, old_one, e, port);
                lemma_listed_more(rest, last, e, port);
            } else {
                assert(on_port(last, port));
                crate::text::law_case_folding_is_symmetric(old_one.host, next.host);
                assert(incoming[incoming.len() - 1] == last);
                assert(listed_on(incoming, e, port));
            }
        } else if at is None && m == before.len() {
            assert(incoming[incoming.len() - 1] == last);
            assert(listed_on(incoming, e, port));
        } else {
            assert(before[m] == e);
            law_merges_open_no_other_port(existing, rest, operation_index, m, port);
            lemma_listed_more(rest, last, e, port);
        }
        assert(incoming =~= rest.push(last));
    }
}

/// The endpoints have the same host and path.
spec fn same_place(a: NetworkEndpointView, b: NetworkEndpointView) -> bool {
    a.host == b.host && a.path == b.path
}

proof fn lemma_listed(
    endpoints: Seq<NetworkEndpointView>,
    a: NetworkEndpointView,
    b: NetworkEndpointView,
    port: u32,
)
    requires
        same_place(a, b),
    ensures
        listed_on(endpoints, a, port) ==> listed_on(endpoints, b, port),
{
    if listed_on(endpoints, a, port) {
        let i = choose|i: int|
            0 <= i < endpoints.len() && crate::text::same_ignoring_case(
                (#[trigger] endpoints[i]).host,
                a.host,
            ) && endpoints[i].path == a.path && on_port(endpoints[i], port);
        assert(endpoints[i].path == b.path);
    }
}

proof fn lemma_listed_more(
    rest: Seq<NetworkEndpointView>,
    last: NetworkEndpointView,
    e: NetworkEndpointView,
    port: u32,
)
    ensures
        listed_on(rest, e, port) ==> listed_on(rest.push(last), e, port),
{
    if listed_on(rest, e, port) {
        let i = choose|i: int|
            0 <= i < rest.len() && crate::text::same_ignoring_case(
                (#[trigger] rest[i]).host,
                e.host,
            ) && rest[i].path == e.path && on_port(rest[i], port);
        assert(rest.push(last)[i] == rest[i]);
    }
}

/// Why allow or deny rules are refused is told: no endpoint of the user's serves the host on the
/// port, or the one that is addressed is not inspected, or is inspected as something else, or,
/// for deny rules, allows nothing, or, for allow rules, has a preset that nobody knows.
pub proof fn law_refused_rules_are_told_why(
    policy: SandboxPolicyView,
    operation_index: usize,
    host: Seq<char>,
    port: u32,
    rules: Seq<L7RuleView>,
    deny_rules: Seq<L7DenyRuleView>,
    key: Seq<char>,
    i: int,
)
    requires
        policy.network_policies.dom().finite(),
        addressed(policy.network_policies, host, port, key, i) || forall|k: Seq<char>, j: int|
            !#[trigger] served_at(policy.network_policies, host, port, k, j),
    ensures
        ({
            let e = policy.network_policies[key].endpoints[i];
            let found = addressed(policy.network_policies, host, port, key, i);
            let allow = operation_applied(
                policy,
                operation_index,
                PolicyMergeOpView::AddAllowRules { host, port, rules },
            );
            let deny = operation_applied(
                policy,
                operation_index,
                PolicyMergeOpView::AddDenyRules { host, port, deny_rules },
            );
            let inspected = e.protocol == "rest"@ || e.protocol == "websocket"@;
            &&& !found ==> allow->Err_0 == (PolicyMergeErrorView::EndpointNotFound { host, port })
                && deny->Err_0 == (PolicyMergeErrorView::EndpointNotFound { host, port })
            &&& found && e.protocol.len() == 0 ==> allow->Err_0 == (
            PolicyMergeErrorView::EndpointHasNoL7Inspection { host, port }) && deny->Err_0 == (
            PolicyMergeErrorView::EndpointHasNoL7Inspection { host, port })
            &&& found && e.protocol.len() > 0 && !inspected ==> allow->Err_0 == (
            PolicyMergeErrorView::UnsupportedEndpointProtocol {
                host,
                port,
                protocol: e.protocol,
            }) && deny->Err_0 == allow->Err_0
            &&& found && inspected && deny is Err ==> deny->Err_0 == (
            PolicyMergeErrorView::EndpointHasNoAllowBase { host, port })
            &&& found && inspected && allow is Err ==> allow->Err_0 == (
            PolicyMergeErrorView::UnsupportedAccessPreset { host, port, access: e.access })
        }),
{
    reveal_strlit("rest");
    reveal_strlit("websocket");
    let policies = policy.network_policies;
    law_operations_find_the_first_endpoint(policies, host, port);
    if addressed(policies, host, port, key, i) {
        crate::merge_effects::lemma_one_is_addressed(policies, host, port, key, i);
    } else if endpoint_key(policies, host, port) is Some {
        let k = endpoint_key(policies, host, port)->0;
        let j = first_endpoint(policies[k], host, port)->0;
        assert(served_at(policies, host, port, k, j));
    }
}

/// A list of one operation does what the operation does, if the operation is in order.
pub proof fn law_one_operation_is_applied(
    policy: SandboxPolicyView,
    operation: PolicyMergeOpView,
    rule_name: Seq<char>,
    rule: NetworkPolicyRuleView,
)
    ensures
        operations_applied(policy, Seq::empty()) == Ok::<
            (SandboxPolicyView, Seq<PolicyMergeWarningView>),
            PolicyMergeErrorView,
        >((policy, Seq::empty())),
        operation_error(0, operation) is None ==> operations_applied(policy, seq![operation])
            == operation_applied(policy, 0, operation),
        !(operation is AddRule) ==> operation_error(0, operation) is None,
        operation_applied(policy, 0, PolicyMergeOpView::AddRule { rule_name, rule }) == rule_added(
            policy,
            0,
            rule_name,
            rule,
        ),
{
    let one = seq![operation];
    assert(one.drop_last() =~= Seq::<PolicyMergeOpView>::empty());
    reveal_with_fuel(operations_applied, 2);
    let none = Seq::<PolicyMergeWarningView>::empty();
    if let Ok((after, warnings)) = operation_applied(policy, 0, operation) {
        assert(none + warnings =~= warnings);
    }
}

} // verus!
