//! What each merge operation does to a policy, and what it leaves alone.
use vstd::prelude::*;

use crate::coverage_laws::{law_ports_of_an_endpoint, on_port};
use crate::merge_laws::{
    law_endpoint_loses_only_the_port, lemma_filter_members, lemma_first_where_is,
};
use crate::merge_model::{
    canonical_ports, deny_rules_added, endpoint_key, endpoint_matches_host_port, endpoint_without,
    endpoints_without, first_endpoint, is_least_key, least_key, method_rule, operation_applied,
    preset_methods, preset_rules, rules_with_preset, rules_without_binary, rules_without_endpoint,
};
use crate::merge_types::{PolicyMergeOpView, PolicyMergeWarningView};
use crate::policy::{
    L7DenyRuleView, L7RuleView, NetworkBinaryView, NetworkEndpointView, NetworkPolicyRuleView,
    SandboxPolicyView,
};
use crate::text::{precedes, same_ignoring_case};
use crate::values::{appended_unique, lemma_appended_unique};

verus! {

// Lists.
/// Appending keeps a list as it is, puts what is new behind it, and puts what is new in the
/// order in which it first comes.
pub proof fn law_appended_in_order<A>(existing: Seq<A>, incoming: Seq<A>, i: int, j: int)
    requires
        existing.len() <= i < j < appended_unique(existing, incoming).len(),
    ensures
        ({
            let all = appended_unique(existing, incoming);
            exists|p: int, q: int|
                0 <= p < q < incoming.len() && #[trigger] incoming[p] == all[i]
                    && #[trigger] incoming[q] == all[j] && !incoming.take(p).contains(all[i])
                    && !incoming.take(q).contains(all[j])
        }),
    decreases incoming.len(),
{
    let all = appended_unique(existing, incoming);
    let rest = incoming.drop_last();
    let before = appended_unique(existing, rest);
    lemma_appended_unique(existing, rest);
    if j < before.len() {
        law_appended_in_order(existing, rest, i, j);
        let (p, q) = choose|p: int, q: int|
            0 <= p < q < rest.len() && #[trigger] rest[p] == before[i] && #[trigger] rest[q]
                == before[j] && !rest.take(p).contains(before[i]) && !rest.take(q).contains(
                before[j],
            );
        assert(rest.take(p) =~= incoming.take(p));
        assert(rest.take(q) =~= incoming.take(q));
        assert(incoming[p] == all[i] && incoming[q] == all[j]);
    } else {
        let q = incoming.len() - 1;
        lemma_arrival_is_first(existing, rest, i);
        let p = choose|p: int|
            0 <= p < rest.len() && #[trigger] rest[p] == before[i] && !rest.take(p).contains(
                before[i],
            );
        assert(rest.take(p) =~= incoming.take(p));
        assert(incoming.take(q) =~= rest);
        assert(all[j] == incoming.last());
        assert(!rest.contains(all[j])) by {
            if rest.contains(all[j]) {
                assert(before.contains(all[j]));
            }
        }
        assert(incoming[p] == all[i] && incoming[q] == all[j]);
    }
}

proof fn lemma_arrival_is_first<A>(existing: Seq<A>, incoming: Seq<A>, i: int)
    requires
        existing.len() <= i < appended_unique(existing, incoming).len(),
    ensures
        exists|p: int|
            0 <= p < incoming.len() && #[trigger] incoming[p] == appended_unique(
                existing,
                incoming,
            )[i] && !incoming.take(p).contains(appended_unique(existing, incoming)[i]),
    decreases incoming.len(),
{
    let all = appended_unique(existing, incoming);
    let rest = incoming.drop_last();
    let before = appended_unique(existing, rest);
    lemma_appended_unique(existing, rest);
    if i < before.len() {
        lemma_arrival_is_first(existing, rest, i);
        let p = choose|p: int|
            0 <= p < rest.len() && #[trigger] rest[p] == before[i] && !rest.take(p).contains(
                before[i],
            );
        assert(rest.take(p) =~= incoming.take(p));
        assert(incoming[p] == all[i]);
    } else {
        let q = incoming.len() - 1;
        assert(incoming.take(q) =~= rest);
        assert(!rest.contains(all[i])) by {
            if rest.contains(all[i]) {
                assert(before.contains(all[i]));
            }
        }
        assert(incoming[q] == all[i]);
    }
}

/// What was there stays in front, what was asked for is there, nothing else is, and nothing
/// that is new stands twice.
pub open spec fn arrived<A>(before: Seq<A>, given: Seq<A>, after: Seq<A>) -> bool {
    &&& before.is_prefix_of(after)
    &&& forall|x: A| #[trigger] after.contains(x) <==> before.contains(x) || given.contains(x)
    &&& before.no_duplicates() ==> after.no_duplicates()
}

proof fn lemma_arrived<A>(before: Seq<A>, given: Seq<A>)
    ensures
        arrived(before, given, appended_unique(before, given)),
{
    lemma_appended_unique(before, given);
    let after = appended_unique(before, given);
    assert(after.subrange(0, before.len() as int) =~= after.take(before.len() as int));
}

// Finding endpoints.
/// The endpoint is for the host, but for case, and open on the port.
pub open spec fn serves(e: NetworkEndpointView, host: Seq<char>, port: u32) -> bool {
    same_ignoring_case(e.host, host) && on_port(e, port)
}

/// The rules under the key are the user's, and the endpoint at `i` is the first of the rule
/// that serves the host on the port.
pub open spec fn served_at(
    policies: Map<Seq<char>, NetworkPolicyRuleView>,
    host: Seq<char>,
    port: u32,
    key: Seq<char>,
    i: int,
) -> bool {
    &&& policies.contains_key(key)
    &&& !"_provider_"@.is_prefix_of(key)
    &&& 0 <= i < policies[key].endpoints.len()
    &&& serves(policies[key].endpoints[i], host, port)
    &&& forall|j: int| 0 <= j < i ==> !serves(#[trigger] policies[key].endpoints[j], host, port)
}

/// The endpoint at `i` under the key is the one that an operation on the host and port is
/// about: no rule of the user's under a smaller key serves them.
pub open spec fn addressed(
    policies: Map<Seq<char>, NetworkPolicyRuleView>,
    host: Seq<char>,
    port: u32,
    key: Seq<char>,
    i: int,
) -> bool {
    &&& served_at(policies, host, port, key, i)
    &&& forall|k: Seq<char>, j: int| #[trigger]
        served_at(policies, host, port, k, j) ==> k == key || precedes(key, k)
}

/// Nothing of the policy differs but the endpoint at `i` under the key.
pub open spec fn differs_at(
    before: SandboxPolicyView,
    after: SandboxPolicyView,
    key: Seq<char>,
    i: int,
) -> bool {
    &&& after == (SandboxPolicyView { network_policies: after.network_policies, ..before })
    &&& after.network_policies.dom() == before.network_policies.dom()
    &&& forall|k: Seq<char>|
        k != key && before.network_policies.contains_key(k) ==> #[trigger] after.network_policies[k]
            == before.network_policies[k]
    &&& after.network_policies[key].name == before.network_policies[key].name
    &&& after.network_policies[key].binaries == before.network_policies[key].binaries
    &&& after.network_policies[key].endpoints.len() == before.network_policies[key].endpoints.len()
    &&& forall|j: int|
        0 <= j < after.network_policies[key].endpoints.len() && j != i
            ==> #[trigger] after.network_policies[key].endpoints[j]
            == before.network_policies[key].endpoints[j]
}

proof fn lemma_serves(e: NetworkEndpointView, host: Seq<char>, port: u32)
    ensures
        endpoint_matches_host_port(e, host, port) <==> serves(e, host, port),
{
    law_ports_of_an_endpoint(e, port);
}

proof fn lemma_first_endpoint(rule: NetworkPolicyRuleView, host: Seq<char>, port: u32)
    ensures
        match first_endpoint(rule, host, port) {
            Some(i) => 0 <= i < rule.endpoints.len() && serves(rule.endpoints[i], host, port)
                && forall|j: int| 0 <= j < i ==> !serves(#[trigger] rule.endpoints[j], host, port),
            None => forall|j: int|
                0 <= j < rule.endpoints.len() ==> !serves(#[trigger] rule.endpoints[j], host, port),
        },
{
    let p = |e: NetworkEndpointView| endpoint_matches_host_port(e, host, port);
    lemma_first_where_is(rule.endpoints, p);
    assert forall|e: NetworkEndpointView| #[trigger] p(e) <==> serves(e, host, port) by {
        lemma_serves(e, host, port);
    }
}

/// Where an operation on a host and port finds its endpoint, and that it finds one exactly if
/// some rule of the user's serves them.
pub proof fn law_operations_find_the_first_endpoint(
    policies: Map<Seq<char>, NetworkPolicyRuleView>,
    host: Seq<char>,
    port: u32,
)
    requires
        policies.dom().finite(),
    ensures
        match endpoint_key(policies, host, port) {
            Some(key) => first_endpoint(policies[key], host, port) is Some && addressed(
                policies,
                host,
                port,
                key,
                first_endpoint(policies[key], host, port)->0,
            ),
            None => forall|k: Seq<char>, j: int| !#[trigger] served_at(policies, host, port, k, j),
        },
{
    let p = |k: Seq<char>, rule: NetworkPolicyRuleView|
        !crate::merge_model::provider_rule(k) && first_endpoint(rule, host, port) is Some;
    assert forall|k: Seq<char>, j: int| #[trigger] served_at(policies, host, port, k, j) implies p(
        k,
        policies[k],
    ) by {
        lemma_first_endpoint(policies[k], host, port);
    }
    lemma_least_key(policies, p);
    match endpoint_key(policies, host, port) {
        Some(key) => {
            lemma_first_endpoint(policies[key], host, port);
            let i = first_endpoint(policies[key], host, port)->0;
            assert(served_at(policies, host, port, key, i));
        },
        None => {},
    }
}

/// Some key is the least whose entry meets `p`, unless none does.
pub proof fn lemma_least_key<A>(m: Map<Seq<char>, A>, p: spec_fn(Seq<char>, A) -> bool)
    requires
        m.dom().finite(),
    ensures
        match least_key(m, p) {
            Some(k) => is_least_key(m, p, k),
            None => forall|k: Seq<char>| #[trigger] m.contains_key(k) ==> !p(k, m[k]),
        },
{
    if exists|k: Seq<char>| #[trigger] m.contains_key(k) && p(k, m[k]) {
        let keys = m.dom().filter(|k: Seq<char>| p(k, m[k]));
        let k = choose|k: Seq<char>| #[trigger] m.contains_key(k) && p(k, m[k]);
        assert(keys.contains(k));
        let least = lemma_least_member(keys);
        assert(is_least_key(m, p, least)) by {
            assert forall|other: Seq<char>|
                #![trigger m.contains_key(other)]
                m.contains_key(other) && p(other, m[other]) implies other == least || precedes(
                least,
                other,
            ) by {
                assert(keys.contains(other));
            }
        }
    }
}

proof fn lemma_least_member(keys: Set<Seq<char>>) -> (least: Seq<char>)
    requires
        keys.finite(),
        keys.len() > 0 || exists|k: Seq<char>| keys.contains(k),
    ensures
        keys.contains(least),
        forall|k: Seq<char>| #[trigger] keys.contains(k) ==> k == least || precedes(least, k),
    decreases keys.len(),
{
    let one = keys.choose();
    assert(keys.contains(one));
    let rest = keys.remove(one);
    if rest.len() == 0 {
        assert forall|k: Seq<char>| #[trigger] keys.contains(k) implies k == one by {
            if k != one {
                assert(rest.contains(k));
                vstd::set_lib::lemma_set_empty_equivalency_len(rest);
            }
        }
        one
    } else {
        let other = lemma_least_member(rest);
        crate::text::lemma_precedes_total(one, other);
        if precedes(one, other) {
            assert forall|k: Seq<char>| #[trigger] keys.contains(k) implies k == one || precedes(
                one,
                k,
            ) by {
                if k != one {
                    assert(rest.contains(k));
                    if k != other {
                        crate::text::lemma_precedes_transitive(one, other, k);
                    }
                }
            }
            one
        } else {
            assert forall|k: Seq<char>| #[trigger] keys.contains(k) implies k == other || precedes(
                other,
                k,
            ) by {
                if k != one {
                    assert(rest.contains(k));
                }
            }
            other
        }
    }
}

// Adding allow and deny rules.
/// Deny rules that are added arrive: the endpoint that is addressed has each of them, behind
/// those it had, and no others. Nothing else changes, and nothing is warned of.
pub proof fn law_deny_rules_arrive(
    policy: SandboxPolicyView,
    operation_index: usize,
    host: Seq<char>,
    port: u32,
    deny_rules: Seq<L7DenyRuleView>,
)
    requires
        policy.network_policies.dom().finite(),
        operation_applied(
            policy,
            operation_index,
            PolicyMergeOpView::AddDenyRules { host, port, deny_rules },
        ) is Ok,
    ensures
        ({
            let (after, warnings) = operation_applied(
                policy,
                operation_index,
                PolicyMergeOpView::AddDenyRules { host, port, deny_rules },
            )->Ok_0;
            &&& warnings.len() == 0
            &&& exists|key: Seq<char>, i: int|
                {
                    let old_one = policy.network_policies[key].endpoints[i];
                    let new_one = after.network_policies[key].endpoints[i];
                    &&& #[trigger] addressed(policy.network_policies, host, port, key, i)
                    &&& differs_at(policy, after, key, i)
                    &&& arrived(old_one.deny_rules, deny_rules, new_one.deny_rules)
                    &&& new_one == (NetworkEndpointView {
                        deny_rules: new_one.deny_rules,
                        ..old_one
                    })
                }
        }),
{
    let policies = policy.network_policies;
    law_operations_find_the_first_endpoint(policies, host, port);
    let key = endpoint_key(policies, host, port)->0;
    let i = first_endpoint(policies[key], host, port)->0;
    let e = policies[key].endpoints[i];
    lemma_arrived(e.deny_rules, deny_rules);
    let after = deny_rules_added(policy, host, port, deny_rules)->Ok_0.0;
    assert(after.network_policies.dom() =~= policies.dom());
    assert(addressed(policies, host, port, key, i));
    assert(differs_at(policy, after, key, i));
}

/// Deny rules are refused exactly if no rule of the user's serves the host on the port, or the
/// endpoint that is addressed is not inspected as `rest` or `websocket`, or allows nothing that
/// could be denied.
pub proof fn law_deny_rules_need_an_allow_base(
    policy: SandboxPolicyView,
    operation_index: usize,
    host: Seq<char>,
    port: u32,
    deny_rules: Seq<L7DenyRuleView>,
)
    requires
        policy.network_policies.dom().finite(),
    ensures
        operation_applied(
            policy,
            operation_index,
            PolicyMergeOpView::AddDenyRules { host, port, deny_rules },
        ) is Ok <==> exists|key: Seq<char>, i: int|
            {
                let e = policy.network_policies[key].endpoints[i];
                &&& #[trigger] addressed(policy.network_policies, host, port, key, i)
                &&& e.protocol == "rest"@ || e.protocol == "websocket"@
                &&& e.access.len() > 0 || e.rules.len() > 0
            },
{
    let policies = policy.network_policies;
    law_operations_find_the_first_endpoint(policies, host, port);
    reveal_strlit("rest");
    reveal_strlit("websocket");
    assert forall|k: Seq<char>, j: int| #[trigger] addressed(policies, host, port, k, j) implies ({
        &&& endpoint_key(policies, host, port) == Some(k)
        &&& first_endpoint(policies[k], host, port) == Some(j)
    }) by {
        lemma_one_is_addressed(policies, host, port, k, j);
    }
}

pub proof fn lemma_one_is_addressed(
    policies: Map<Seq<char>, NetworkPolicyRuleView>,
    host: Seq<char>,
    port: u32,
    k: Seq<char>,
    j: int,
)
    requires
        policies.dom().finite(),
        addressed(policies, host, port, k, j),
    ensures
        endpoint_key(policies, host, port) == Some(k),
        first_endpoint(policies[k], host, port) == Some(j),
{
    law_operations_find_the_first_endpoint(policies, host, port);
    assert(served_at(policies, host, port, k, j));
    let key = endpoint_key(policies, host, port)->0;
    let i = first_endpoint(policies[key], host, port)->0;
    assert(served_at(policies, host, port, key, i));
    crate::text::lemma_precedes_total(k, key);
    if i < j {
        assert(!serves(policies[key].endpoints[i], host, port));
    }
    if j < i {
        assert(!serves(policies[key].endpoints[j], host, port));
    }
}

/// The rule is one of those that an access preset stands for: a method on every path.
pub open spec fn preset_has(protocol: Seq<char>, access: Seq<char>, rule: L7RuleView) -> bool {
    let m = rule.allow->0.method;
    let reads = m == "GET"@ || m == "HEAD"@ || m == "OPTIONS"@;
    let writes = m == "POST"@ || m == "PUT"@ || m == "PATCH"@;
    &&& rule == method_rule(m)
    &&& rule.allow->0.path == "**"@
    &&& {
        ||| access == "full"@ && m == "*"@
        ||| access == "read-only"@ && (if protocol == "websocket"@ {
            m == "GET"@
        } else {
            reads
        })
        ||| access == "read-write"@ && (if protocol == "websocket"@ {
            m == "GET"@ || m == "WEBSOCKET_TEXT"@
        } else {
            reads || writes
        })
    }
}

/// An access preset stands for its methods and for no others.
pub proof fn law_presets_stand_for_their_methods(
    protocol: Seq<char>,
    access: Seq<char>,
    rule: L7RuleView,
)
    ensures
        preset_rules(protocol, access) is Some <==> access == "full"@ || access == "read-only"@
            || access == "read-write"@,
        preset_rules(protocol, access) is Some ==> (preset_rules(protocol, access)->0.contains(rule)
            <==> preset_has(protocol, access, rule)),
{
    reveal_strlit("full");
    reveal_strlit("read-only");
    reveal_strlit("read-write");
    assert("full"@.len() == 4 && "read-only"@.len() == 9 && "read-write"@.len() == 10);
    if preset_methods(protocol, access) is Some {
        let methods = preset_methods(protocol, access)->0;
        let rules = preset_rules(protocol, access)->0;
        if rules.contains(rule) {
            let i = choose|i: int| 0 <= i < rules.len() && rules[i] == rule;
            assert(rule == method_rule(methods[i]));
        }
        if preset_has(protocol, access, rule) {
            let m = rule.allow->0.method;
            assert(methods.contains(m)) by {
                let n = methods.len();
                if access == "full"@ {
                    assert(methods[0] == m);
                } else if n == 1 {
                    assert(methods[0] == m);
                } else if n == 2 {
                    assert(methods[0] == m || methods[1] == m);
                } else if n == 3 {
                    assert(methods[0] == m || methods[1] == m || methods[2] == m);
                } else {
                    assert(methods[0] == m || methods[1] == m || methods[2] == m || methods[3] == m
                        || methods[4] == m || methods[5] == m);
                }
            }
            let i = choose|i: int| 0 <= i < methods.len() && methods[i] == m;
            assert(rules[i] == rule);
        }
    }
}

/// Allow rules that are added arrive: the endpoint that is addressed has each of them, behind
/// those it had and those of the preset that it had, and no others. The preset is written out
/// and told of. Nothing else changes.
pub proof fn law_allow_rules_arrive(
    policy: SandboxPolicyView,
    operation_index: usize,
    host: Seq<char>,
    port: u32,
    rules: Seq<L7RuleView>,
)
    requires
        policy.network_policies.dom().finite(),
        operation_applied(
            policy,
            operation_index,
            PolicyMergeOpView::AddAllowRules { host, port, rules },
        ) is Ok,
    ensures
        ({
            let (after, warnings) = operation_applied(
                policy,
                operation_index,
                PolicyMergeOpView::AddAllowRules { host, port, rules },
            )->Ok_0;
            exists|key: Seq<char>, i: int|
                {
                    let old_one = policy.network_policies[key].endpoints[i];
                    let new_one = after.network_policies[key].endpoints[i];
                    &&& #[trigger] addressed(policy.network_policies, host, port, key, i)
                    &&& differs_at(policy, after, key, i)
                    &&& new_one == (NetworkEndpointView {
                        access: Seq::empty(),
                        rules: new_one.rules,
                        ..old_one
                    })
                    &&& old_one.rules.is_prefix_of(new_one.rules)
                    &&& forall|r: L7RuleView| #[trigger]
                        new_one.rules.contains(r) <==> old_one.rules.contains(r) || rules.contains(
                            r,
                        ) || preset_has(old_one.protocol, old_one.access, r)
                    &&& old_one.rules.no_duplicates() ==> new_one.rules.no_duplicates()
                    &&& if old_one.access.len() == 0 {
                        warnings.len() == 0
                    } else {
                        warnings == seq![
                            PolicyMergeWarningView::ExpandedAccessPreset {
                                host,
                                port,
                                access: old_one.access,
                            },
                        ]
                    }
                }
        }),
{
    let policies = policy.network_policies;
    law_operations_find_the_first_endpoint(policies, host, port);
    let key = endpoint_key(policies, host, port)->0;
    let i = first_endpoint(policies[key], host, port)->0;
    let e = policies[key].endpoints[i];
    let expanded = rules_with_preset(e.rules, e.protocol, e.access);
    let all = appended_unique(expanded, rules);
    let operation = PolicyMergeOpView::AddAllowRules { host, port, rules };
    let after = operation_applied(policy, operation_index, operation)->Ok_0.0;
    match preset_rules(e.protocol, e.access) {
        Some(preset) => {
            lemma_arrived(e.rules, preset);
        },
        None => {},
    }
    lemma_arrived(expanded, rules);
    assert(e.rules.is_prefix_of(expanded));
    assert(e.rules.is_prefix_of(all)) by {
        assert(all.subrange(0, e.rules.len() as int) =~= expanded.subrange(
            0,
            e.rules.len() as int,
        ));
    }
    assert forall|r: L7RuleView| #[trigger] all.contains(r) <==> e.rules.contains(r)
        || rules.contains(r) || preset_has(e.protocol, e.access, r) by {
        law_presets_stand_for_their_methods(e.protocol, e.access, r);
        assert(expanded.contains(r) <==> e.rules.contains(r) || preset_has(
            e.protocol,
            e.access,
            r,
        ));
    }
    assert(after.network_policies.dom() =~= policies.dom());
    assert(addressed(policies, host, port, key, i));
    assert(differs_at(policy, after, key, i));
}

/// Allow rules are refused exactly if no rule of the user's serves the host on the port, or the
/// endpoint that is addressed is not inspected as `rest` or `websocket`, or has a preset that
/// nobody knows.
pub proof fn law_allow_rules_need_an_inspected_endpoint(
    policy: SandboxPolicyView,
    operation_index: usize,
    host: Seq<char>,
    port: u32,
    rules: Seq<L7RuleView>,
)
    requires
        policy.network_policies.dom().finite(),
    ensures
        operation_applied(
            policy,
            operation_index,
            PolicyMergeOpView::AddAllowRules { host, port, rules },
        ) is Ok <==> exists|key: Seq<char>, i: int|
            {
                let e = policy.network_policies[key].endpoints[i];
                &&& #[trigger] addressed(policy.network_policies, host, port, key, i)
                &&& e.protocol == "rest"@ || e.protocol == "websocket"@
                &&& e.access.len() == 0 || e.access == "full"@ || e.access == "read-only"@
                    || e.access == "read-write"@
            },
{
    let policies = policy.network_policies;
    law_operations_find_the_first_endpoint(policies, host, port);
    reveal_strlit("rest");
    reveal_strlit("websocket");
    assert forall|k: Seq<char>, j: int| #[trigger] addressed(policies, host, port, k, j) implies ({
        let e = policies[k].endpoints[j];
        &&& endpoint_key(policies, host, port) == Some(k)
        &&& first_endpoint(policies[k], host, port) == Some(j)
        &&& preset_rules(e.protocol, e.access) is Some <==> e.access == "full"@ || e.access
            == "read-only"@ || e.access == "read-write"@
    }) by {
        lemma_one_is_addressed(policies, host, port, k, j);
        let e = policies[k].endpoints[j];
        law_presets_stand_for_their_methods(e.protocol, e.access, method_rule("*"@));
    }
}

// Removing.
/// Taking a rule out takes that rule and no other.
pub proof fn law_removing_a_rule_takes_nothing_else(
    policy: SandboxPolicyView,
    operation_index: usize,
    rule_name: Seq<char>,
    key: Seq<char>,
)
    ensures
        ({
            let removed = operation_applied(
                policy,
                operation_index,
                PolicyMergeOpView::RemoveRule { rule_name },
            );
            let after = removed->Ok_0.0;
            &&& removed is Ok
            &&& removed->Ok_0.1.len() == 0
            &&& after == (SandboxPolicyView { network_policies: after.network_policies, ..policy })
            &&& after.network_policies.contains_key(key) <==> policy.network_policies.contains_key(
                key,
            ) && key != rule_name
            &&& key != rule_name && policy.network_policies.contains_key(key)
                ==> after.network_policies[key] == policy.network_policies[key]
        }),
{
}

/// Taking a binary out of a rule takes nothing else. Every other binary keeps its place among
/// the others and its grant: the rule is still there if it had another binary, or none at all,
/// with its name and its endpoints. Every other rule is as it was.
pub proof fn law_removing_a_binary_takes_nothing_else(
    policy: SandboxPolicyView,
    operation_index: usize,
    rule_name: Seq<char>,
    path: Seq<char>,
    key: Seq<char>,
)
    requires
        policy.network_policies.contains_key(key),
    ensures
        ({
            let operation = PolicyMergeOpView::RemoveBinary { rule_name, binary_path: path };
            let removed = operation_applied(policy, operation_index, operation);
            let after = removed->Ok_0.0;
            let old_rule = policy.network_policies[key];
            let new_rule = after.network_policies[key];
            &&& removed is Ok
            &&& removed->Ok_0.1.len() == 0
            &&& after == (SandboxPolicyView { network_policies: after.network_policies, ..policy })
            &&& after.network_policies.dom().subset_of(policy.network_policies.dom())
            &&& key != rule_name ==> after.network_policies.contains_key(key) && new_rule
                == old_rule
            &&& key == rule_name ==> {
                &&& after.network_policies.contains_key(key) <==> old_rule.binaries.len() == 0
                    || exists|b: int|
                    0 <= b < old_rule.binaries.len() && (#[trigger] old_rule.binaries[b]).path
                        != path
                &&& after.network_policies.contains_key(key) ==> {
                    &&& new_rule.name == old_rule.name
                    &&& new_rule.endpoints == old_rule.endpoints
                    &&& new_rule.binaries == old_rule.binaries.filter(
                        |b: NetworkBinaryView| b.path != path,
                    )
                    &&& forall|b: NetworkBinaryView| #[trigger]
                        new_rule.binaries.contains(b) <==> old_rule.binaries.contains(b) && b.path
                            != path
                }
            }
        }),
{
    let policies = policy.network_policies;
    let after = rules_without_binary(policies, rule_name, path);
    assert(after.dom().subset_of(policies.dom()));
    if key == rule_name {
        let rule = policies[key];
        let other = |b: NetworkBinaryView| b.path != path;
        let left = rule.binaries.filter(other);
        assert forall|b: NetworkBinaryView| #[trigger] left.contains(b) <==> rule.binaries.contains(
            b,
        ) && b.path != path by {
            lemma_filter_members(rule.binaries, other, b);
        }
        if left.len() > 0 {
            assert(left.contains(left[0]));
            let b = choose|b: int| 0 <= b < rule.binaries.len() && rule.binaries[b] == left[0];
            assert(rule.binaries[b].path != path);
        }
        if exists|b: int|
            0 <= b < rule.binaries.len() && (#[trigger] rule.binaries[b]).path != path {
            let b = choose|b: int|
                0 <= b < rule.binaries.len() && (#[trigger] rule.binaries[b]).path != path;
            assert(rule.binaries.contains(rule.binaries[b]));
            assert(left.contains(rule.binaries[b]));
        }
    }
}

/// What is left of a list of endpoints keeps its order: what is left of the first `i` comes
/// first, then what is left of the endpoint at `i`.
pub proof fn law_remaining_endpoints_keep_their_order(
    endpoints: Seq<NetworkEndpointView>,
    host: Seq<char>,
    port: u32,
    i: int,
)
    requires
        0 <= i < endpoints.len(),
    ensures
        ({
            let all = endpoints_without(endpoints, host, port);
            let first = endpoints_without(endpoints.take(i), host, port);
            &&& first.is_prefix_of(all)
            &&& match endpoint_without(endpoints[i], host, port) {
                Some(e) => first.len() < all.len() && all[first.len() as int] == e,
                None => endpoints_without(endpoints.take(i + 1), host, port) == first,
            }
            &&& all.len() <= endpoints.len()
        }),
    decreases endpoints.len(),
{
    let all = endpoints_without(endpoints, host, port);
    let rest = endpoints.drop_last();
    let before = endpoints_without(rest, host, port);
    assert(endpoints.take(i + 1).drop_last() =~= endpoints.take(i));
    if i < rest.len() {
        law_remaining_endpoints_keep_their_order(rest, host, port, i);
        assert(rest.take(i) =~= endpoints.take(i));
        assert(rest.take(i + 1) =~= endpoints.take(i + 1));
        let first = endpoints_without(endpoints.take(i), host, port);
        assert(all.subrange(0, first.len() as int) =~= before.subrange(0, first.len() as int));
    } else {
        assert(endpoints.take(i) =~= rest);
        assert(endpoints.take(i + 1) =~= endpoints);
        assert(all.subrange(0, before.len() as int) =~= before);
        lemma_fewer_endpoints(rest, host, port);
    }
}

proof fn lemma_fewer_endpoints(endpoints: Seq<NetworkEndpointView>, host: Seq<char>, port: u32)
    ensures
        endpoints_without(endpoints, host, port).len() <= endpoints.len(),
    decreases endpoints.len(),
{
    if endpoints.len() > 0 {
        lemma_fewer_endpoints(endpoints.drop_last(), host, port);
    }
}

/// Every endpoint that is left comes from one that was there, and serves what that served, but
/// for the port of the host.
pub proof fn law_remaining_endpoints_were_there(
    endpoints: Seq<NetworkEndpointView>,
    host: Seq<char>,
    port: u32,
    j: int,
)
    requires
        0 <= j < endpoints_without(endpoints, host, port).len(),
    ensures
        exists|i: int|
            0 <= i < endpoints.len() && endpoint_without(#[trigger] endpoints[i], host, port)
                == Some(endpoints_without(endpoints, host, port)[j]),
    decreases endpoints.len(),
{
    let rest = endpoints.drop_last();
    let before = endpoints_without(rest, host, port);
    if j < before.len() {
        law_remaining_endpoints_were_there(rest, host, port, j);
        let i = choose|i: int|
            0 <= i < rest.len() && endpoint_without(#[trigger] rest[i], host, port) == Some(
                before[j],
            );
        assert(endpoints[i] == rest[i]);
    } else {
        assert(endpoint_without(endpoints[endpoints.len() - 1], host, port) is Some);
    }
}

/// Taking a port of a host out of an endpoint takes nothing else: an endpoint that does not
/// serve it stays as it is; another keeps its other ports and everything else, and goes only
/// if it had no other port.
pub proof fn law_an_endpoint_keeps_its_other_ports(
    e: NetworkEndpointView,
    host: Seq<char>,
    port: u32,
)
    ensures
        !serves(e, host, port) ==> endpoint_without(e, host, port) == Some(e),
        endpoint_without(e, host, port) is None <==> serves(e, host, port) && forall|p: u32|
            #[trigger] on_port(e, p) ==> p == port,
        serves(e, host, port) && endpoint_without(e, host, port) is Some ==> ({
            let left = endpoint_without(e, host, port)->0;
            &&& left == (NetworkEndpointView { port: left.port, ports: left.ports, ..e })
            &&& forall|p: u32| #[trigger] on_port(left, p) <==> on_port(e, p) && p != port
        }),
{
    lemma_serves(e, host, port);
    law_endpoint_loses_only_the_port(e, host, port);
    assert forall|p: u32| #[trigger] on_port(e, p) <==> canonical_ports(e).contains(p) by {
        law_ports_of_an_endpoint(e, p);
    }
    match endpoint_without(e, host, port) {
        Some(left) => {
            assert forall|p: u32| #[trigger] on_port(left, p) <==> canonical_ports(left).contains(
                p,
            ) by {
                law_ports_of_an_endpoint(left, p);
            }
            lemma_serves(left, host, port);
            if serves(e, host, port) {
                assert forall|p: u32| #[trigger] on_port(left, p) <==> on_port(e, p) && p
                    != port by {
                    assert(canonical_ports(left).contains(p) <==> on_port(left, p));
                }
                if forall|p: u32| #[trigger] on_port(e, p) ==> p == port {
                    let p = canonical_ports(left)[0];
                    assert(canonical_ports(left).contains(p));
                    assert(on_port(left, p));
                }
            }
        },
        None => {},
    }
}

/// Taking an endpoint out takes nothing else. A rule that is not meant stays as it is. A rule
/// that is meant is still there exactly if an endpoint of it serves something else, and then
/// has its name and its binaries, and of its endpoints what is left of each.
pub proof fn law_removing_an_endpoint_takes_nothing_else(
    policy: SandboxPolicyView,
    operation_index: usize,
    rule_name: Option<Seq<char>>,
    host: Seq<char>,
    port: u32,
    key: Seq<char>,
)
    requires
        policy.network_policies.contains_key(key),
    ensures
        ({
            let operation = PolicyMergeOpView::RemoveEndpoint { rule_name, host, port };
            let removed = operation_applied(policy, operation_index, operation);
            let after = removed->Ok_0.0;
            let old_rule = policy.network_policies[key];
            let new_rule = after.network_policies[key];
            let meant = rule_name is None || rule_name->0 == key;
            &&& removed is Ok
            &&& removed->Ok_0.1.len() == 0
            &&& after == (SandboxPolicyView { network_policies: after.network_policies, ..policy })
            &&& after.network_policies.dom().subset_of(policy.network_policies.dom())
            &&& !meant ==> after.network_policies.contains_key(key) && new_rule == old_rule
            &&& meant ==> (after.network_policies.contains_key(key) <==> exists|i: int|
                0 <= i < old_rule.endpoints.len() && endpoint_without(
                    #[trigger] old_rule.endpoints[i],
                    host,
                    port,
                ) is Some)
            &&& meant && after.network_policies.contains_key(key) ==> {
                &&& new_rule.name == old_rule.name
                &&& new_rule.binaries == old_rule.binaries
                &&& new_rule.endpoints == endpoints_without(old_rule.endpoints, host, port)
            }
        }),
{
    let policies = policy.network_policies;
    let after = rules_without_endpoint(policies, rule_name, host, port);
    let old_rule = policies[key];
    assert(after.dom().subset_of(policies.dom()));
    let left = endpoints_without(old_rule.endpoints, host, port);
    if left.len() > 0 {
        law_remaining_endpoints_were_there(old_rule.endpoints, host, port, 0);
    }
    assert forall|i: int|
        0 <= i < old_rule.endpoints.len() && endpoint_without(
            #[trigger] old_rule.endpoints[i],
            host,
            port,
        ) is Some implies left.len() > 0 by {
        law_remaining_endpoints_keep_their_order(old_rule.endpoints, host, port, i);
    }
}

} // verus!
