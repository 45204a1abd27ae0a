//! Merging operations into a sandbox policy, and asking whether a policy holds a rule.
use vstd::prelude::*;
use vstd::string::*;

use crate::merge_model::{EffectiveMcpContract, DEFAULT_JSON_RPC_MAX_BODY_BYTES};
use crate::merge_model as model;
use crate::merge_types::{
    PolicyMergeError, PolicyMergeErrorView, PolicyMergeOp, PolicyMergeOpView, PolicyMergeWarning,
    PolicyMergeWarningView,
};
use crate::policy::{
    L7Allow, L7DenyRule, L7Rule, NetworkBinary, NetworkBinaryView, NetworkEndpoint,
    NetworkEndpointView, NetworkPolicyRule, NetworkPolicyRuleView, SandboxPolicy, SandboxPolicyView,
};
use crate::string_map::{key_order, StringMap};
use crate::text::{
    bool_text, chars_of, decimal, decimal_text, eq_ignore_ascii_case, lemma_precedes_total,
    precedes, same_text, trim,
};
use crate::values::{
    append_unique, appended_unique, contains_every, dedup, duplicate_list, duplicate_option,
    lemma_number_views, list_contains, option_view, sorted_unique, unique, views, Plain,
};

verus! {

// Coverage.
/// Whether the policy grants every proposed binary every proposed endpoint.
///
/// Every proposed port and every allow and deny matcher must be there. What an endpoint
/// leaves to a default counts as the default. Several rules may cover the proposal
/// together, but each pair of binary and endpoint must be in one of them.
pub fn policy_covers_rule(policy: &SandboxPolicy, proposed: &NetworkPolicyRule) -> (r: bool)
    ensures
        r == model::policy_covers(policy@, proposed@),
{
    if proposed.endpoints.len() == 0 {
        return false;
    }
    let ghost wanted = proposed@;
    let ghost rules = policy@.network_policies;
    let mut i: usize = 0;
    while i < proposed.endpoints.len()
        invariant
            wanted == proposed@,
            rules == policy@.network_policies,
            i <= proposed.endpoints.len(),
            wanted.binaries.len() == 0 ==> forall|a: int|
                0 <= a < i ==> model::any_binary_covered(rules, #[trigger] wanted.endpoints[a]),
            forall|a: int, b: int|
                0 <= a < i && 0 <= b < wanted.binaries.len() ==> model::binary_covered(
                    rules,
                    (#[trigger] wanted.binaries[b]).path,
                    #[trigger] wanted.endpoints[a],
                ),
        decreases proposed.endpoints.len() - i,
    {
        proof {
            assert(wanted.endpoints[i as int] == proposed.endpoints@[i as int]@);
        }
        if proposed.binaries.len() == 0 && !any_binary_is_granted(policy, &proposed.endpoints[i]) {
            return false;
        }
        let mut j: usize = 0;
        while j < proposed.binaries.len()
            invariant
                wanted == proposed@,
                rules == policy@.network_policies,
                i < proposed.endpoints.len(),
                wanted.endpoints[i as int] == proposed.endpoints@[i as int]@,
                j <= proposed.binaries.len(),
                forall|b: int|
                    0 <= b < j ==> model::binary_covered(
                        rules,
                        (#[trigger] wanted.binaries[b]).path,
                        wanted.endpoints[i as int],
                    ),
            decreases proposed.binaries.len() - j,
        {
            proof {
                assert(wanted.binaries[j as int] == proposed.binaries@[j as int]@);
            }
            if !binary_is_granted(policy, &proposed.binaries[j], &proposed.endpoints[i]) {
                return false;
            }
            j += 1;
        }
        i += 1;
    }
    true
}

fn any_binary_is_granted(policy: &SandboxPolicy, endpoint: &NetworkEndpoint) -> (r: bool)
    ensures
        r == model::any_binary_covered(policy@.network_policies, endpoint@),
{
    let rules = &policy.network_policies;
    let n: usize = rules.len();
    let mut i: usize = 0;
    while i < n
        invariant
            rules == &policy.network_policies,
            n == rules.keys().len(),
            i <= n,
            forall|a: int|
                0 <= a < i ==> !(rules@[#[trigger] rules.keys()[a]].binaries.len() == 0
                    && model::any_covers(rules@[rules.keys()[a]].endpoints, endpoint@)),
        decreases n - i,
    {
        let rule = rules.value_at(i);
        if rule.binaries.len() == 0 && any_endpoint_covers(&rule.endpoints, endpoint) {
            return true;
        }
        i += 1;
    }
    proof {
        assert forall|k: Seq<char>| #[trigger] rules@.contains_key(k) implies !(
        rules@[k].binaries.len() == 0 && model::any_covers(rules@[k].endpoints, endpoint@)) by {
            assert(rules.keys().contains(k));
            let a = choose|a: int| 0 <= a < rules.keys().len() && rules.keys()[a] == k;
            assert(rules.keys()[a] == k);
        }
    }
    false
}

fn binary_is_granted(
    policy: &SandboxPolicy,
    binary: &NetworkBinary,
    endpoint: &NetworkEndpoint,
) -> (r: bool)
    ensures
        r == model::binary_covered(policy@.network_policies, binary@.path, endpoint@),
{
    let rules = &policy.network_policies;
    let n: usize = rules.len();
    let mut i: usize = 0;
    while i < n
        invariant
            rules == &policy.network_policies,
            n == rules.keys().len(),
            i <= n,
            forall|a: int|
                0 <= a < i ==> !(model::binary_scope_covers(
                    rules@[#[trigger] rules.keys()[a]],
                    binary@.path,
                ) && model::any_covers(rules@[rules.keys()[a]].endpoints, endpoint@)),
        decreases n - i,
    {
        let rule = rules.value_at(i);
        if binary_scope_covers(rule, binary) && any_endpoint_covers(&rule.endpoints, endpoint) {
            return true;
        }
        i += 1;
    }
    proof {
        assert forall|k: Seq<char>| #[trigger] rules@.contains_key(k) implies !(
        model::binary_scope_covers(rules@[k], binary@.path) && model::any_covers(
            rules@[k].endpoints,
            endpoint@,
        )) by {
            assert(rules.keys().contains(k));
            let a = choose|a: int| 0 <= a < rules.keys().len() && rules.keys()[a] == k;
            assert(rules.keys()[a] == k);
        }
    }
    false
}

fn has_path(binaries: &Vec<NetworkBinary>, path: &str) -> (r: bool)
    ensures
        r == model::has_path(views(binaries@), path@),
{
    let ghost all = views(binaries@);
    let mut i: usize = 0;
    while i < binaries.len()
        invariant
            all == views(binaries@),
            i <= binaries.len(),
            forall|j: int| 0 <= j < i ==> (#[trigger] all[j]).path != path@,
        decreases binaries.len() - i,
    {
        proof {
            assert(all[i as int] == binaries@[i as int]@);
        }
        if same_text(&binaries[i].path, path) {
            return true;
        }
        i += 1;
    }
    false
}

fn binary_scope_covers(rule: &NetworkPolicyRule, proposed: &NetworkBinary) -> (r: bool)
    ensures
        r == model::binary_scope_covers(rule@, proposed@.path),
{
    rule.binaries.len() == 0 || has_path(&rule.binaries, &proposed.path)
}

fn any_endpoint_covers(endpoints: &Vec<NetworkEndpoint>, proposed: &NetworkEndpoint) -> (r: bool)
    ensures
        r == model::any_covers(views(endpoints@), proposed@),
{
    let ghost all = views(endpoints@);
    let mut i: usize = 0;
    while i < endpoints.len()
        invariant
            all == views(endpoints@),
            i <= endpoints.len(),
            forall|j: int|
                0 <= j < i ==> !model::endpoint_authorization_covers(
                    #[trigger] all[j],
                    proposed@,
                ),
        decreases endpoints.len() - i,
    {
        proof {
            assert(all[i as int] == endpoints@[i as int]@);
        }
        if endpoint_authorization_covers(&endpoints[i], proposed) {
            return true;
        }
        i += 1;
    }
    false
}

/// Fields that a merge widens are compared by containment; those that it keeps must be
/// the same.
fn endpoint_authorization_covers(loaded: &NetworkEndpoint, proposed: &NetworkEndpoint) -> (r: bool)
    ensures
        r == model::endpoint_authorization_covers(loaded@, proposed@),
{
    if !eq_ignore_ascii_case(&loaded.host, &proposed.host) || !same_text(
        &loaded.path,
        &proposed.path,
    ) || !ports_cover(loaded, proposed) || !protocols_match(&loaded.protocol, &proposed.protocol)
        || !same_text(effective_tls(&loaded.tls), effective_tls(&proposed.tls)) || !same_text(
        effective_enforcement(&loaded.enforcement),
        effective_enforcement(&proposed.enforcement),
    ) || !mcp_contracts_match(loaded, proposed) {
        return false;
    }
    if !proposed.access.as_str().is_empty() && !same_text(&loaded.access, &proposed.access) {
        return false;
    }
    contains_all(&loaded.rules, &proposed.rules) && contains_all(
        &loaded.deny_rules,
        &proposed.deny_rules,
    ) && contains_all(&loaded.allowed_ips, &proposed.allowed_ips) && flag_covers(
        loaded.allow_encoded_slash,
        proposed.allow_encoded_slash,
    ) && flag_covers(loaded.websocket_credential_rewrite, proposed.websocket_credential_rewrite)
        && flag_covers(
        loaded.request_body_credential_rewrite,
        proposed.request_body_credential_rewrite,
    ) && flag_covers(loaded.advisor_proposed, proposed.advisor_proposed) && same_text(
        &loaded.persisted_queries,
        &proposed.persisted_queries,
    ) && loaded.graphql_persisted_queries.same(&proposed.graphql_persisted_queries)
        && loaded.graphql_max_body_bytes == proposed.graphql_max_body_bytes && same_text(
        &loaded.credential_signing,
        &proposed.credential_signing,
    ) && same_text(&loaded.signing_service, &proposed.signing_service) && same_text(
        &loaded.signing_region,
        &proposed.signing_region,
    ) && (endpoint_uses_mcp(loaded) || loaded.json_rpc_max_body_bytes
        == proposed.json_rpc_max_body_bytes)
}

fn contains_all<T: Plain>(loaded: &Vec<T>, proposed: &Vec<T>) -> (r: bool)
    ensures
        r == model::contains_all(views(loaded@), views(proposed@)),
{
    contains_every(loaded, proposed)
}

fn flag_covers(loaded: bool, proposed: bool) -> (r: bool)
    ensures
        r == model::flag_covers(loaded, proposed),
{
    loaded || !proposed
}

fn endpoint_authorizations_equivalent(left: &NetworkEndpoint, right: &NetworkEndpoint) -> (r: bool)
    ensures
        r == model::endpoint_authorizations_equivalent(left@, right@),
{
    endpoint_authorization_covers(left, right) && endpoint_authorization_covers(right, left)
}

fn ports_cover(loaded: &NetworkEndpoint, proposed: &NetworkEndpoint) -> (r: bool)
    ensures
        r == model::contains_all(
            model::canonical_ports(loaded@),
            model::canonical_ports(proposed@),
        ),
{
    let loaded_ports = canonical_ports(loaded);
    let proposed_ports = canonical_ports(proposed);
    proof {
        lemma_number_views(loaded_ports@);
        lemma_number_views(proposed_ports@);
    }
    contains_all(&loaded_ports, &proposed_ports)
}

fn protocols_match(left: &str, right: &str) -> (r: bool)
    ensures
        r == model::protocols_match(left@, right@),
{
    if eq_ignore_ascii_case(left, "mcp") || eq_ignore_ascii_case(right, "mcp") {
        eq_ignore_ascii_case(left, "mcp") && eq_ignore_ascii_case(right, "mcp")
    } else {
        same_text(left, right)
    }
}

fn effective_tls(value: &str) -> (r: &str)
    ensures
        r@ == model::effective_tls(value@),
{
    if value.is_empty() || same_text(value, "terminate") || same_text(value, "passthrough") {
        "auto"
    } else {
        value
    }
}

fn effective_enforcement(value: &str) -> (r: &str)
    ensures
        r@ == model::effective_enforcement(value@),
{
    if value.is_empty() {
        "audit"
    } else {
        value
    }
}

fn effective_mcp_contract(endpoint: &NetworkEndpoint) -> (r: Option<EffectiveMcpContract>)
    ensures
        r == model::effective_mcp_contract(endpoint@),
{
    if !eq_ignore_ascii_case(&endpoint.protocol, "mcp") {
        return None;
    }
    let mut strict_tool_names = true;
    let mut allow_all_known_mcp_methods = false;
    if let Some(options) = &endpoint.mcp {
        if let Some(flag) = options.strict_tool_names {
            strict_tool_names = flag;
        }
        if let Some(flag) = options.allow_all_known_mcp_methods {
            allow_all_known_mcp_methods = flag;
        }
    }
    Some(
        EffectiveMcpContract {
            strict_tool_names,
            allow_all_known_mcp_methods,
            max_body_bytes: effective_json_rpc_max_body_bytes(endpoint.json_rpc_max_body_bytes),
        },
    )
}

fn effective_json_rpc_max_body_bytes(value: u32) -> (r: u32)
    ensures
        r == model::effective_json_rpc_max_body_bytes(value),
{
    if value == 0 {
        DEFAULT_JSON_RPC_MAX_BODY_BYTES
    } else {
        value
    }
}

fn endpoint_uses_mcp(endpoint: &NetworkEndpoint) -> (r: bool)
    ensures
        r == model::endpoint_uses_mcp(endpoint@),
{
    eq_ignore_ascii_case(&endpoint.protocol, "mcp") || endpoint.mcp.is_some()
}

fn mcp_contracts_match(left: &NetworkEndpoint, right: &NetworkEndpoint) -> (r: bool)
    ensures
        r == model::mcp_contracts_match(left@, right@),
{
    match (effective_mcp_contract(left), effective_mcp_contract(right)) {
        (None, None) => !endpoint_uses_mcp(left) && !endpoint_uses_mcp(right),
        (Some(a), Some(b)) => a.strict_tool_names == b.strict_tool_names
            && a.allow_all_known_mcp_methods == b.allow_all_known_mcp_methods && a.max_body_bytes
            == b.max_body_bytes,
        _ => false,
    }
}

/// The ports of an endpoint: its list, or else its single port unless that is zero.
fn canonical_ports(endpoint: &NetworkEndpoint) -> (r: Vec<u32>)
    ensures
        r@ == model::canonical_ports(endpoint@),
{
    proof {
        lemma_number_views(endpoint.ports@);
    }
    if endpoint.ports.len() > 0 {
        let r = duplicate_list(&endpoint.ports);
        proof {
            lemma_number_views(r@);
        }
        r
    } else if endpoint.port > 0 {
        let mut r: Vec<u32> = Vec::new();
        r.push(endpoint.port);
        proof {
            assert(r@ =~= seq![endpoint.port]);
        }
        r
    } else {
        let r: Vec<u32> = Vec::new();
        proof {
            assert(r@ =~= Seq::empty());
        }
        r
    }
}

// Normalization.
fn leading_port(ports: &Vec<u32>) -> (r: u32)
    ensures
        r == model::leading_port(ports@),
{
    if ports.len() > 0 {
        ports[0]
    } else {
        0
    }
}

fn ordered_ports(ports: &Vec<u32>) -> (r: Vec<u32>)
    ensures
        r@ == model::ordered_ports(ports@),
{
    let r = sorted_unique(ports);
    proof {
        lemma_number_views(r@);
        lemma_number_views(ports@);
    }
    r
}

fn dedup_strings(values: &mut Vec<String>)
    ensures
        views(final(values)@) == unique(views(old(values)@)),
{
    dedup(values);
}

fn dedup_l7_rules(values: &mut Vec<L7Rule>)
    ensures
        views(final(values)@) == unique(views(old(values)@)),
{
    dedup(values);
}

fn dedup_deny_rules(values: &mut Vec<L7DenyRule>)
    ensures
        views(final(values)@) == unique(views(old(values)@)),
{
    dedup(values);
}

fn normalize_endpoint(endpoint: &mut NetworkEndpoint)
    ensures
        final(endpoint)@ == model::normalized_endpoint(old(endpoint)@),
{
    let ports = ordered_ports(&canonical_ports(endpoint));
    proof {
        lemma_number_views(ports@);
    }
    endpoint.port = leading_port(&ports);
    endpoint.ports = ports;
    dedup_strings(&mut endpoint.allowed_ips);
    dedup_l7_rules(&mut endpoint.rules);
    dedup_deny_rules(&mut endpoint.deny_rules);
}

proof fn lemma_first_where<A>(s: Seq<A>, p: spec_fn(A) -> bool, i: int)
    requires
        model::is_first(s, p, i),
    ensures
        model::first_where(s, p) == Some(i),
{
    let c = choose|c: int| model::is_first(s, p, c);
    assert(model::is_first(s, p, c));
    if c < i {
        assert(!p(s[c]));
    }
    if i < c {
        assert(!p(s[i]));
    }
}

/// The first position at which a binary with the path stands.
fn path_position(binaries: &Vec<NetworkBinary>, path: &str) -> (r: Option<usize>)
    ensures
        model::first_where(views(binaries@), |b: NetworkBinaryView| b.path == path@) == (match r {
            Some(i) => Some(i as int),
            None => None,
        }),
        r is Some ==> r->0 < binaries.len(),
{
    let ghost all = views(binaries@);
    let ghost p = |b: NetworkBinaryView| b.path == path@;
    let mut i: usize = 0;
    while i < binaries.len()
        invariant
            all == views(binaries@),
            p == (|b: NetworkBinaryView| b.path == path@),
            i <= binaries.len(),
            forall|j: int| 0 <= j < i ==> !p(#[trigger] all[j]),
        decreases binaries.len() - i,
    {
        proof {
            assert(all[i as int] == binaries@[i as int]@);
        }
        if same_text(&binaries[i].path, path) {
            proof {
                lemma_first_where(all, p, i as int);
            }
            return Some(i);
        }
        i += 1;
    }
    proof {
        assert(!exists|c: int| model::is_first(all, p, c));
    }
    None
}

fn append_binary(existing: &mut Vec<NetworkBinary>, binary: &NetworkBinary)
    ensures
        views(final(existing)@) == model::binary_appended(views(old(existing)@), binary@),
{
    let ghost before = views(existing@);
    match path_position(existing, &binary.path) {
        Some(i) => {
            if !is_advisor_proposed_binary(binary) {
                let mut entry = existing[i].duplicate();
                mark_user_declared_binary(&mut entry);
                existing.set(i, entry);
                proof {
                    assert(views(existing@) =~= before.update(
                        i as int,
                        NetworkBinaryView { harness: false, ..before[i as int] },
                    ));
                }
            }
        },
        None => {
            existing.push(binary.duplicate());
            proof {
                assert(views(existing@) =~= before.push(binary@));
            }
        },
    }
}

fn append_unique_binaries(existing: &mut Vec<NetworkBinary>, incoming: &Vec<NetworkBinary>)
    ensures
        views(final(existing)@) == model::appended_binaries(
            views(old(existing)@),
            views(incoming@),
        ),
{
    let ghost start = views(existing@);
    let ghost all = views(incoming@);
    let mut i: usize = 0;
    proof {
        assert(all.take(0) =~= Seq::empty());
    }
    while i < incoming.len()
        invariant
            i <= incoming.len(),
            all == views(incoming@),
            views(existing@) == model::appended_binaries(start, all.take(i as int)),
        decreases incoming.len() - i,
    {
        append_binary(existing, &incoming[i]);
        proof {
            assert(all.take(i as int + 1).drop_last() =~= all.take(i as int));
            assert(all.take(i as int + 1).last() == incoming@[i as int]@);
        }
        i += 1;
    }
    proof {
        assert(all.take(all.len() as int) =~= all);
    }
}

fn dedup_binaries(values: &mut Vec<NetworkBinary>)
    ensures
        views(final(values)@) == model::appended_binaries(Seq::empty(), views(old(values)@)),
{
    let mut kept: Vec<NetworkBinary> = Vec::new();
    proof {
        assert(views(kept@) =~= Seq::empty());
    }
    append_unique_binaries(&mut kept, values);
    *values = kept;
}

fn is_advisor_proposed_binary(binary: &NetworkBinary) -> (r: bool)
    ensures
        r == binary@.harness,
{
    binary.harness
}

fn mark_user_declared_binary(binary: &mut NetworkBinary)
    ensures
        final(binary)@ == (NetworkBinaryView { harness: false, ..old(binary)@ }),
{
    binary.harness = false;
}

fn normalize_rule(rule: &mut NetworkPolicyRule)
    ensures
        final(rule)@ == model::normalized_rule(old(rule)@),
{
    let ghost start = rule@;
    let mut endpoints: Vec<NetworkEndpoint> = Vec::new();
    let mut i: usize = 0;
    while i < rule.endpoints.len()
        invariant
            start == rule@,
            i <= rule.endpoints.len(),
            endpoints.len() == i,
            forall|j: int|
                0 <= j < i ==> (#[trigger] endpoints@[j])@ == model::normalized_endpoint(
                    start.endpoints[j],
                ),
        decreases rule.endpoints.len() - i,
    {
        let mut endpoint = rule.endpoints[i].duplicate();
        normalize_endpoint(&mut endpoint);
        endpoints.push(endpoint);
        i += 1;
    }
    proof {
        assert(views(endpoints@) =~= start.endpoints.map_values(
            |e: NetworkEndpointView| model::normalized_endpoint(e),
        ));
    }
    rule.endpoints = endpoints;
    dedup_binaries(&mut rule.binaries);
}

// Access presets.
fn method_rule(method: &str) -> (r: L7Rule)
    ensures
        r@ == model::method_rule(method@),
{
    let fields: Vec<String> = Vec::new();
    proof {
        assert(views(fields@) =~= Seq::empty());
    }
    L7Rule {
        allow: Some(
            L7Allow {
                method: method.to_owned(),
                path: "**".to_owned(),
                command: String::new(),
                query: StringMap::new(),
                operation_type: String::new(),
                operation_name: String::new(),
                fields,
                params: StringMap::new(),
            },
        ),
    }
}

fn preset_methods(protocol: &str, access: &str) -> (r: Option<Vec<&'static str>>)
    ensures
        r is Some <==> model::preset_methods(protocol@, access@) is Some,
        r is Some ==> r->0@.map_values(|m: &'static str| m@) == model::preset_methods(
            protocol@,
            access@,
        )->0,
{
    let mut methods: Vec<&'static str> = Vec::new();
    let websocket = same_text(protocol, "websocket");
    let read_only = same_text(access, "read-only");
    let read_write = same_text(access, "read-write");
    if same_text(access, "full") {
        methods.push("*");
    } else if websocket && read_only {
        methods.push("GET");
    } else if websocket && read_write {
        methods.push("GET");
        methods.push("WEBSOCKET_TEXT");
    } else if read_only {
        methods.push("GET");
        methods.push("HEAD");
        methods.push("OPTIONS");
    } else if read_write {
        methods.push("GET");
        methods.push("HEAD");
        methods.push("OPTIONS");
        methods.push("POST");
        methods.push("PUT");
        methods.push("PATCH");
    } else {
        return None;
    }
    proof {
        assert(methods@.map_values(|m: &'static str| m@) =~= model::preset_methods(
            protocol@,
            access@,
        )->0);
    }
    Some(methods)
}

fn expand_access_preset(protocol: &str, access: &str) -> (r: Option<Vec<L7Rule>>)
    ensures
        r is Some <==> model::preset_rules(protocol@, access@) is Some,
        r is Some ==> views(r->0@) == model::preset_rules(protocol@, access@)->0,
{
    match preset_methods(protocol, access) {
        None => None,
        Some(methods) => {
            let ghost names = model::preset_methods(protocol@, access@)->0;
            let mut rules: Vec<L7Rule> = Vec::new();
            let mut i: usize = 0;
            while i < methods.len()
                invariant
                    names == methods@.map_values(|m: &'static str| m@),
                    i <= methods.len(),
                    rules.len() == i,
                    forall|j: int|
                        0 <= j < i ==> (#[trigger] rules@[j])@ == model::method_rule(names[j]),
                decreases methods.len() - i,
            {
                rules.push(method_rule(methods[i]));
                i += 1;
            }
            proof {
                assert(views(rules@) =~= names.map_values(|m: Seq<char>| model::method_rule(m)));
            }
            Some(rules)
        },
    }
}

// Endpoints.
fn ports_share(a: &Vec<u32>, b: &Vec<u32>) -> (r: bool)
    ensures
        r == model::share_port(a@, b@),
{
    proof {
        lemma_number_views(b@);
    }
    let mut i: usize = 0;
    while i < a.len()
        invariant
            views(b@) == b@,
            i <= a.len(),
            forall|j: int| 0 <= j < i ==> !b@.contains(#[trigger] a@[j]),
        decreases a.len() - i,
    {
        if list_contains(b, &a[i]) {
            proof {
                assert(a@.contains(a@[i as int]));
            }
            return true;
        }
        i += 1;
    }
    false
}

fn endpoints_overlap(left: &NetworkEndpoint, right: &NetworkEndpoint) -> (r: bool)
    ensures
        r == model::endpoints_overlap(left@, right@),
{
    if !eq_ignore_ascii_case(&left.host, &right.host) {
        return false;
    }
    if !same_text(&left.path, &right.path) {
        return false;
    }
    ports_share(&canonical_ports(left), &canonical_ports(right))
}

fn rules_share_endpoint(
    existing_rule: &NetworkPolicyRule,
    incoming_rule: &NetworkPolicyRule,
) -> (r: bool)
    ensures
        r == model::rules_share_endpoint(existing_rule@, incoming_rule@),
{
    let ghost a = existing_rule@.endpoints;
    let ghost b = incoming_rule@.endpoints;
    let mut j: usize = 0;
    while j < incoming_rule.endpoints.len()
        invariant
            a == existing_rule@.endpoints,
            b == incoming_rule@.endpoints,
            j <= incoming_rule.endpoints.len(),
            forall|x: int, y: int|
                0 <= x < a.len() && 0 <= y < j ==> !model::endpoints_overlap(
                    #[trigger] a[x],
                    #[trigger] b[y],
                ),
        decreases incoming_rule.endpoints.len() - j,
    {
        proof {
            assert(b[j as int] == incoming_rule.endpoints@[j as int]@);
        }
        let mut i: usize = 0;
        while i < existing_rule.endpoints.len()
            invariant
                a == existing_rule@.endpoints,
                b == incoming_rule@.endpoints,
                j < incoming_rule.endpoints.len(),
                b[j as int] == incoming_rule.endpoints@[j as int]@,
                i <= existing_rule.endpoints.len(),
                forall|x: int|
                    0 <= x < i ==> !model::endpoints_overlap(#[trigger] a[x], b[j as int]),
            decreases existing_rule.endpoints.len() - i,
        {
            proof {
                assert(a[i as int] == existing_rule.endpoints@[i as int]@);
            }
            if endpoints_overlap(&existing_rule.endpoints[i], &incoming_rule.endpoints[j]) {
                return true;
            }
            i += 1;
        }
        j += 1;
    }
    false
}

fn promotes_l4_endpoint_to_mcp(existing: &NetworkEndpoint, incoming: &NetworkEndpoint) -> (r: bool)
    ensures
        r == model::promotes_l4_endpoint_to_mcp(existing@, incoming@),
{
    existing.protocol.as_str().is_empty() && existing.mcp.is_none()
        && existing.json_rpc_max_body_bytes == 0 && effective_mcp_contract(incoming).is_some()
}

/// The effective contract in words: an option that is left out reads as its default.
fn describe_mcp_contract(endpoint: &NetworkEndpoint) -> (r: String)
    ensures
        r@ == model::mcp_contract_words(endpoint@),
{
    match effective_mcp_contract(endpoint) {
        Some(contract) => {
            let mut s = String::from_str("mcp(strict_tool_names=");
            s.append(bool_text(contract.strict_tool_names));
            s.append(", allow_all_known_mcp_methods=");
            s.append(bool_text(contract.allow_all_known_mcp_methods));
            s.append(", max_body_bytes=");
            s.append(&decimal_text(contract.max_body_bytes as u64));
            s.append(")");
            s
        },
        None => {
            let mut s = String::from_str("non-mcp(protocol='");
            s.append(&endpoint.protocol);
            s.append("')");
            s
        },
    }
}

fn ensure_mcp_contract_compatible(
    existing: &NetworkEndpoint,
    incoming: &NetworkEndpoint,
    operation_index: usize,
    host: &str,
    port: u32,
) -> (r: Result<(), PolicyMergeError>)
    ensures
        r is Ok <==> (model::promotes_l4_endpoint_to_mcp(existing@, incoming@)
            || model::mcp_contracts_match(existing@, incoming@)),
        r is Err ==> r->Err_0@ == (PolicyMergeErrorView::McpContractConflict {
            operation_index,
            host: host@,
            port,
            existing: model::mcp_contract_words(existing@),
            incoming: model::mcp_contract_words(incoming@),
        }),
{
    if promotes_l4_endpoint_to_mcp(existing, incoming) || mcp_contracts_match(existing, incoming) {
        return Ok(());
    }
    Err(
        PolicyMergeError::McpContractConflict {
            operation_index,
            host: host.to_owned(),
            port,
            existing: describe_mcp_contract(existing),
            incoming: describe_mcp_contract(incoming),
        },
    )
}

fn merge_string_field(
    existing: &mut String,
    incoming: &str,
    warning: PolicyMergeWarning,
    warnings: &mut Vec<PolicyMergeWarning>,
)
    ensures
        final(existing)@ == model::retained(old(existing)@, incoming@),
        views(final(warnings)@) == views(old(warnings)@) + model::warning_if(
            model::disagree(old(existing)@, incoming@),
            warning@,
        ),
{
    let ghost told = views(warnings@);
    proof {
        assert(told + Seq::<PolicyMergeWarningView>::empty() =~= told);
    }
    if incoming.is_empty() {
        proof {
            if existing@.len() == 0 {
                assert(existing@ =~= incoming@);
            }
        }
        return;
    }
    if existing.as_str().is_empty() {
        *existing = incoming.to_owned();
    } else if !same_text(existing, incoming) {
        warnings.push(warning);
        proof {
            assert(views(warnings@) =~= told + seq![warning@]);
        }
    }
}

fn merge_endpoint_ports(existing: &mut NetworkEndpoint, incoming: &NetworkEndpoint)
    ensures
        final(existing)@ == model::with_ports(
            old(existing)@,
            model::ordered_ports(
                model::canonical_ports(old(existing)@) + model::canonical_ports(incoming@),
            ),
        ),
{
    let mut ports = canonical_ports(existing);
    let mut more = canonical_ports(incoming);
    ports.append(&mut more);
    let ordered = ordered_ports(&ports);
    proof {
        lemma_number_views(ordered@);
    }
    existing.port = leading_port(&ordered);
    existing.ports = ordered;
}

fn meeting_port(existing: &Vec<u32>, incoming: &Vec<u32>) -> (r: u32)
    ensures
        r == model::meeting_port(existing@, incoming@),
{
    let ghost p = |port: u32| incoming@.contains(port);
    proof {
        lemma_number_views(incoming@);
    }
    let mut i: usize = 0;
    while i < existing.len()
        invariant
            views(incoming@) == incoming@,
            p == (|port: u32| incoming@.contains(port)),
            i <= existing.len(),
            forall|j: int| 0 <= j < i ==> !p(#[trigger] existing@[j]),
        decreases existing.len() - i,
    {
        if list_contains(incoming, &existing[i]) {
            proof {
                lemma_first_where(existing@, p, i as int);
            }
            return existing[i];
        }
        i += 1;
    }
    proof {
        assert(!exists|c: int| model::is_first(existing@, p, c));
    }
    leading_port(incoming)
}

fn append_unique_l7_rules(existing: &mut Vec<L7Rule>, incoming: &Vec<L7Rule>)
    ensures
        views(final(existing)@) == appended_unique(views(old(existing)@), views(incoming@)),
{
    append_unique(existing, incoming);
}

fn append_unique_deny_rules(existing: &mut Vec<L7DenyRule>, incoming: &Vec<L7DenyRule>)
    ensures
        views(final(existing)@) == appended_unique(views(old(existing)@), views(incoming@)),
{
    append_unique(existing, incoming);
}

fn append_unique_strings(existing: &mut Vec<String>, incoming: &Vec<String>)
    ensures
        views(final(existing)@) == appended_unique(views(old(existing)@), views(incoming@)),
{
    append_unique(existing, incoming);
}

/// Writes an access preset out as rules.
fn expand_existing_access(
    endpoint: &mut NetworkEndpoint,
    host: &str,
    port: u32,
    warnings: &mut Vec<PolicyMergeWarning>,
) -> (r: Result<(), PolicyMergeError>)
    ensures
        r is Err <==> (old(endpoint)@.access.len() > 0 && model::preset_rules(
            old(endpoint)@.protocol,
            old(endpoint)@.access,
        ) is None),
        r is Err ==> r->Err_0@ == (PolicyMergeErrorView::UnsupportedAccessPreset {
            host: host@,
            port,
            access: old(endpoint)@.access,
        }) && final(endpoint)@ == old(endpoint)@ && views(final(warnings)@) == views(
            old(warnings)@,
        ),
        r is Ok ==> final(endpoint)@ == (NetworkEndpointView {
            access: Seq::empty(),
            rules: model::rules_with_preset(
                old(endpoint)@.rules,
                old(endpoint)@.protocol,
                old(endpoint)@.access,
            ),
            ..old(endpoint)@
        }),
        r is Ok ==> views(final(warnings)@) == views(old(warnings)@) + model::warning_if(
            old(endpoint)@.access.len() > 0,
            PolicyMergeWarningView::ExpandedAccessPreset {
                host: host@,
                port,
                access: old(endpoint)@.access,
            },
        ),
{
    let ghost told = views(warnings@);
    let ghost start = endpoint@;
    if endpoint.access.as_str().is_empty() {
        proof {
            assert(told + Seq::<PolicyMergeWarningView>::empty() =~= told);
            assert(start.access =~= Seq::empty());
            reveal_strlit("full");
            reveal_strlit("read-only");
            reveal_strlit("read-write");
        }
        return Ok(());
    }
    let access = endpoint.access.clone();
    match expand_access_preset(&endpoint.protocol, &access) {
        None => Err(
            PolicyMergeError::UnsupportedAccessPreset { host: host.to_owned(), port, access },
        ),
        Some(expanded) => {
            endpoint.access = String::new();
            append_unique_l7_rules(&mut endpoint.rules, &expanded);
            let ghost access_text = access@;
            warnings.push(
                PolicyMergeWarning::ExpandedAccessPreset { host: host.to_owned(), port, access },
            );
            proof {
                assert(views(warnings@) =~= told + seq![
                    PolicyMergeWarningView::ExpandedAccessPreset {
                        host: host@,
                        port,
                        access: access_text,
                    },
                ]);
            }
            Ok(())
        },
    }
}

/// Merges what an endpoint sets once: the existing value stays where there is one.
fn merge_settings(
    existing: &mut NetworkEndpoint,
    incoming: &NetworkEndpoint,
    host: &String,
    port: u32,
    warnings: &mut Vec<PolicyMergeWarning>,
)
    ensures
        final(existing)@ == model::settings_merged(old(existing)@, incoming@),
        views(final(warnings)@) == views(old(warnings)@) + model::settings_warnings(
            old(existing)@,
            incoming@,
            host@,
            port,
        ),
{
    let ghost e = existing@;
    let ghost told = views(warnings@);
    let promotes = promotes_l4_endpoint_to_mcp(existing, incoming);
    if existing.host.as_str().is_empty() {
        existing.host = incoming.host.clone();
    }
    if existing.path.as_str().is_empty() {
        existing.path = incoming.path.clone();
    }
    merge_endpoint_ports(existing, incoming);
    let existing_protocol = existing.protocol.clone();
    merge_string_field(
        &mut existing.protocol,
        &incoming.protocol,
        PolicyMergeWarning::ExistingProtocolRetained {
            host: host.clone(),
            port,
            existing: existing_protocol,
            incoming: incoming.protocol.clone(),
        },
        warnings,
    );
    if promotes {
        existing.mcp = duplicate_option(&incoming.mcp);
        existing.json_rpc_max_body_bytes = incoming.json_rpc_max_body_bytes;
    }
    let existing_enforcement = existing.enforcement.clone();
    merge_string_field(
        &mut existing.enforcement,
        &incoming.enforcement,
        PolicyMergeWarning::ExistingEnforcementRetained {
            host: host.clone(),
            port,
            existing: existing_enforcement,
            incoming: incoming.enforcement.clone(),
        },
        warnings,
    );
    let existing_tls = existing.tls.clone();
    merge_string_field(
        &mut existing.tls,
        &incoming.tls,
        PolicyMergeWarning::ExistingTlsRetained {
            host: host.clone(),
            port,
            existing: existing_tls,
            incoming: incoming.tls.clone(),
        },
        warnings,
    );
    proof {
        assert(views(warnings@) =~= told + model::settings_warnings(e, incoming@, host@, port));
    }
}

fn push_warning(warnings: &mut Vec<PolicyMergeWarning>, warning: PolicyMergeWarning)
    ensures
        views(final(warnings)@) == views(old(warnings)@) + seq![warning@],
{
    let ghost told = views(warnings@);
    warnings.push(warning);
    proof {
        assert(views(warnings@) =~= told + seq![warning@]);
    }
}

/// Merges allow rules and access presets. Explicit rules win over a preset, and a preset
/// that explicit rules are added to is written out.
fn merge_access(
    existing: &mut NetworkEndpoint,
    incoming: &NetworkEndpoint,
    host: &String,
    port: u32,
    warnings: &mut Vec<PolicyMergeWarning>,
) -> (r: Result<(), PolicyMergeError>)
    ensures
        r is Err <==> (incoming@.rules.len() > 0 && old(existing)@.access.len() > 0
            && model::preset_rules(old(existing)@.protocol, old(existing)@.access) is None),
        r is Err ==> r->Err_0@ == (PolicyMergeErrorView::UnsupportedAccessPreset {
            host: host@,
            port,
            access: old(existing)@.access,
        }),
        r is Ok ==> final(existing)@ == model::access_merged(old(existing)@, incoming@),
        r is Ok ==> views(final(warnings)@) == views(old(warnings)@) + model::access_warnings(
            old(existing)@,
            incoming@,
            host@,
            port,
        ),
{
    let ghost e = existing@;
    let ghost told = views(warnings@);
    if incoming.rules.len() > 0 {
        match expand_existing_access(existing, host, port, warnings) {
            Err(error) => {
                return Err(error);
            },
            Ok(()) => {},
        }
        append_unique_l7_rules(&mut existing.rules, &incoming.rules);
        if !incoming.access.as_str().is_empty() {
            push_warning(
                warnings,
                PolicyMergeWarning::IgnoredIncomingAccessBecauseRulesExist {
                    host: host.clone(),
                    port,
                    incoming: incoming.access.clone(),
                },
            );
        }
    } else if !incoming.access.as_str().is_empty() {
        if existing.rules.len() > 0 {
            push_warning(
                warnings,
                PolicyMergeWarning::IgnoredIncomingAccessBecauseRulesExist {
                    host: host.clone(),
                    port,
                    incoming: incoming.access.clone(),
                },
            );
        } else if existing.access.as_str().is_empty() {
            existing.access = incoming.access.clone();
        } else if !same_text(&existing.access, &incoming.access) {
            push_warning(
                warnings,
                PolicyMergeWarning::ExistingAccessRetained {
                    host: host.clone(),
                    port,
                    existing: existing.access.clone(),
                    incoming: incoming.access.clone(),
                },
            );
        }
    }
    proof {
        assert(existing@.access =~= model::access_merged(e, incoming@).access);
        assert(views(warnings@) =~= told + model::access_warnings(e, incoming@, host@, port));
    }
    Ok(())
}

/// Merges what an endpoint lists or flags: everything either side has.
fn merge_lists(existing: &mut NetworkEndpoint, incoming: &NetworkEndpoint)
    ensures
        final(existing)@ == model::lists_merged(old(existing)@, incoming@),
{
    append_unique_deny_rules(&mut existing.deny_rules, &incoming.deny_rules);
    append_unique_strings(&mut existing.allowed_ips, &incoming.allowed_ips);
    existing.allow_encoded_slash = existing.allow_encoded_slash || incoming.allow_encoded_slash;
    existing.websocket_credential_rewrite = existing.websocket_credential_rewrite
        || incoming.websocket_credential_rewrite;
    existing.request_body_credential_rewrite = existing.request_body_credential_rewrite
        || incoming.request_body_credential_rewrite;
    existing.advisor_proposed = existing.advisor_proposed || incoming.advisor_proposed;
}

/// Merges an endpoint into one that it overlaps. What the existing endpoint sets stays;
/// lists and flags widen. A refused merge changes nothing.
fn merge_endpoint(
    existing: &mut NetworkEndpoint,
    incoming: &NetworkEndpoint,
    operation_index: usize,
    warnings: &mut Vec<PolicyMergeWarning>,
) -> (r: Result<(), PolicyMergeError>)
    ensures
        match model::merged_endpoint(old(existing)@, incoming@, operation_index) {
            Ok((endpoint, more)) => r is Ok && final(existing)@ == endpoint && views(
                final(warnings)@,
            ) == views(old(warnings)@) + more,
            Err(error) => r is Err && r->Err_0@ == error && final(existing)@ == old(existing)@
                && views(final(warnings)@) == views(old(warnings)@),
        },
{
    let ghost e = existing@;
    let ghost told = views(warnings@);
    let host = if existing.host.as_str().is_empty() {
        incoming.host.clone()
    } else {
        existing.host.clone()
    };
    let port: u32 = meeting_port(&canonical_ports(existing), &canonical_ports(incoming));
    match ensure_mcp_contract_compatible(existing, incoming, operation_index, &host, port) {
        Err(error) => {
            return Err(error);
        },
        Ok(()) => {},
    }
    let mut merged = existing.duplicate();
    let mut more: Vec<PolicyMergeWarning> = Vec::new();
    merge_settings(&mut merged, incoming, &host, port, &mut more);
    match merge_access(&mut merged, incoming, &host, port, &mut more) {
        Err(error) => {
            return Err(error);
        },
        Ok(()) => {},
    }
    merge_lists(&mut merged, incoming);
    normalize_endpoint(&mut merged);
    *existing = merged;
    let ghost more_told = views(more@);
    warnings.append(&mut more);
    proof {
        assert(views(warnings@) =~= told + more_told);
        assert(more_told =~= model::endpoint_warnings(e, incoming@));
    }
    Ok(())
}

// Rules.
/// The first endpoint of the list that overlaps the given one.
fn find_matching_endpoint(
    endpoints: &Vec<NetworkEndpoint>,
    target: &NetworkEndpoint,
) -> (r: Option<usize>)
    ensures
        model::first_where(
            views(endpoints@),
            |e: NetworkEndpointView| model::endpoints_overlap(e, target@),
        ) == (match r {
            Some(i) => Some(i as int),
            None => None,
        }),
        r is Some ==> r->0 < endpoints.len(),
{
    let ghost all = views(endpoints@);
    let ghost p = |e: NetworkEndpointView| model::endpoints_overlap(e, target@);
    let mut i: usize = 0;
    while i < endpoints.len()
        invariant
            all == views(endpoints@),
            p == (|e: NetworkEndpointView| model::endpoints_overlap(e, target@)),
            i <= endpoints.len(),
            forall|j: int| 0 <= j < i ==> !p(#[trigger] all[j]),
        decreases endpoints.len() - i,
    {
        proof {
            assert(all[i as int] == endpoints@[i as int]@);
        }
        if endpoints_overlap(&endpoints[i], target) {
            proof {
                lemma_first_where(all, p, i as int);
            }
            return Some(i);
        }
        i += 1;
    }
    proof {
        assert(!exists|c: int| model::is_first(all, p, c));
    }
    None
}

/// Merges endpoints one by one into a list of endpoints.
fn merge_endpoints(
    existing: &Vec<NetworkEndpoint>,
    incoming: &Vec<NetworkEndpoint>,
    operation_index: usize,
) -> (r: Result<(Vec<NetworkEndpoint>, Vec<PolicyMergeWarning>), PolicyMergeError>)
    ensures
        model::merged_endpoints(views(existing@), views(incoming@), operation_index) == (match r {
            Ok((endpoints, warnings)) => Ok((views(endpoints@), views(warnings@))),
            Err(error) => Err(error@),
        }),
{
    let ghost start = views(existing@);
    let ghost all = views(incoming@);
    let mut endpoints = duplicate_list(existing);
    let mut warnings: Vec<PolicyMergeWarning> = Vec::new();
    let mut i: usize = 0;
    proof {
        assert(all.take(0) =~= Seq::empty());
        assert(views(warnings@) =~= Seq::empty());
    }
    while i < incoming.len()
        invariant
            start == views(existing@),
            all == views(incoming@),
            i <= incoming.len(),
            model::merged_endpoints(start, all.take(i as int), operation_index) == Ok::<
                (Seq<NetworkEndpointView>, Seq<PolicyMergeWarningView>),
                PolicyMergeErrorView,
            >((views(endpoints@), views(warnings@))),
        decreases incoming.len() - i,
    {
        proof {
            assert(all.take(i as int + 1).drop_last() =~= all.take(i as int));
            assert(all.take(i as int + 1).last() == incoming@[i as int]@);
        }
        let ghost before = views(endpoints@);
        let mut next = incoming[i].duplicate();
        normalize_endpoint(&mut next);
        match find_matching_endpoint(&endpoints, &next) {
            Some(at) => {
                let mut merged = endpoints[at].duplicate();
                match merge_endpoint(&mut merged, &next, operation_index, &mut warnings) {
                    Err(error) => {
                        proof {
                            lemma_merge_stops(start, all, i as int + 1, operation_index, error@);
                        }
                        return Err(error);
                    },
                    Ok(()) => {},
                }
                endpoints.set(at, merged);
                proof {
                    assert(views(endpoints@) =~= before.update(at as int, merged@));
                }
            },
            None => {
                endpoints.push(next);
                proof {
                    assert(views(endpoints@) =~= before.push(next@));
                }
            },
        }
        i += 1;
    }
    proof {
        assert(all.take(all.len() as int) =~= all);
    }
    Ok((endpoints, warnings))
}

proof fn lemma_merge_stops(
    existing: Seq<NetworkEndpointView>,
    incoming: Seq<NetworkEndpointView>,
    n: int,
    operation_index: usize,
    error: PolicyMergeErrorView,
)
    requires
        0 <= n <= incoming.len(),
        model::merged_endpoints(existing, incoming.take(n), operation_index) == Err::<
            (Seq<NetworkEndpointView>, Seq<PolicyMergeWarningView>),
            PolicyMergeErrorView,
        >(error),
    ensures
        model::merged_endpoints(existing, incoming, operation_index) == Err::<
            (Seq<NetworkEndpointView>, Seq<PolicyMergeWarningView>),
            PolicyMergeErrorView,
        >(error),
    decreases incoming.len() - n,
{
    if n == incoming.len() {
        assert(incoming.take(n) =~= incoming);
    } else {
        assert(incoming.take(n + 1).drop_last() =~= incoming.take(n));
        lemma_merge_stops(existing, incoming, n + 1, operation_index, error);
    }
}

/// The existing binaries that the incoming rule does not name. None are left out where
/// the incoming rule is for any binary; a list of binaries never stands for any binary.
fn undeclared_existing_binaries(
    existing_rule: &NetworkPolicyRule,
    incoming_rule: &NetworkPolicyRule,
) -> (r: Vec<String>)
    ensures
        views(r@) == model::undeclared_binaries(existing_rule@, incoming_rule@),
{
    let mut paths: Vec<String> = Vec::new();
    proof {
        assert(views(paths@) =~= Seq::empty());
    }
    if incoming_rule.binaries.len() == 0 {
        return paths;
    }
    if existing_rule.binaries.len() == 0 {
        paths.push("the existing any-binary scope".to_owned());
        proof {
            assert(views(paths@) =~= seq!["the existing any-binary scope"@]);
        }
        return paths;
    }
    let ghost all = existing_rule@.binaries;
    let ghost p = |b: NetworkBinaryView| !model::has_path(incoming_rule@.binaries, b.path);
    let ghost path = |b: NetworkBinaryView| b.path;
    let mut i: usize = 0;
    proof {
        reveal(Seq::filter);
        assert(all.take(0).filter(p).map_values(path) =~= Seq::empty());
    }
    while i < existing_rule.binaries.len()
        invariant
            all == existing_rule@.binaries,
            p == (|b: NetworkBinaryView| !model::has_path(incoming_rule@.binaries, b.path)),
            path == (|b: NetworkBinaryView| b.path),
            i <= existing_rule.binaries.len(),
            views(paths@) == all.take(i as int).filter(p).map_values(path),
        decreases existing_rule.binaries.len() - i,
    {
        proof {
            reveal(Seq::filter);
            assert(all.take(i as int + 1).drop_last() =~= all.take(i as int));
            assert(all.take(i as int + 1).last() == existing_rule.binaries@[i as int]@);
        }
        let ghost before = views(paths@);
        if !has_path(&incoming_rule.binaries, &existing_rule.binaries[i].path) {
            paths.push(existing_rule.binaries[i].path.clone());
            proof {
                assert(views(paths@) =~= before.push(existing_rule.binaries@[i as int].path@));
            }
        }
        proof {
            assert(views(paths@) =~= all.take(i as int + 1).filter(p).map_values(path));
        }
        i += 1;
    }
    proof {
        assert(all.take(all.len() as int) =~= all);
    }
    paths
}

fn new_binary_position(
    existing_rule: &NetworkPolicyRule,
    incoming_rule: &NetworkPolicyRule,
) -> (r: Option<usize>)
    ensures
        r is Some ==> r->0 < incoming_rule.binaries.len(),
        model::new_binary(existing_rule@, incoming_rule@) == (match r {
            Some(i) => Some(incoming_rule.binaries@[i as int]@),
            None => None,
        }),
{
    let ghost all = incoming_rule@.binaries;
    let ghost p = |b: NetworkBinaryView| !model::binary_scope_covers(existing_rule@, b.path);
    let mut i: usize = 0;
    while i < incoming_rule.binaries.len()
        invariant
            all == incoming_rule@.binaries,
            p == (|b: NetworkBinaryView| !model::binary_scope_covers(existing_rule@, b.path)),
            i <= incoming_rule.binaries.len(),
            forall|j: int| 0 <= j < i ==> !p(#[trigger] all[j]),
        decreases incoming_rule.binaries.len() - i,
    {
        proof {
            assert(all[i as int] == incoming_rule.binaries@[i as int]@);
        }
        if !binary_scope_covers(existing_rule, &incoming_rule.binaries[i]) {
            proof {
                lemma_first_where(all, p, i as int);
            }
            return Some(i);
        }
        i += 1;
    }
    proof {
        assert(!exists|c: int| model::is_first(all, p, c));
    }
    None
}

fn any_endpoint_equivalent(endpoints: &Vec<NetworkEndpoint>, endpoint: &NetworkEndpoint) -> (r:
    bool)
    ensures
        r == model::any_equivalent(views(endpoints@), endpoint@),
{
    let ghost all = views(endpoints@);
    let mut i: usize = 0;
    while i < endpoints.len()
        invariant
            all == views(endpoints@),
            i <= endpoints.len(),
            forall|j: int|
                0 <= j < i ==> !model::endpoint_authorizations_equivalent(
                    #[trigger] all[j],
                    endpoint@,
                ),
        decreases endpoints.len() - i,
    {
        proof {
            assert(all[i as int] == endpoints@[i as int]@);
        }
        if endpoint_authorizations_equivalent(&endpoints[i], endpoint) {
            return true;
        }
        i += 1;
    }
    false
}

/// Refuses a merged rule that grants a binary an endpoint that no one asked for.
fn ensure_authorization_inheritance_is_declared(
    existing_rule: &NetworkPolicyRule,
    incoming_rule: &NetworkPolicyRule,
    merged_endpoints: &Vec<NetworkEndpoint>,
    operation_index: usize,
    rule_name: &str,
) -> (r: Result<(), PolicyMergeError>)
    ensures
        model::inheritance_error(
            existing_rule@,
            incoming_rule@,
            views(merged_endpoints@),
            operation_index,
            rule_name@,
        ) == (match r {
            Ok(()) => None,
            Err(error) => Some(error@),
        }),
{
    let new_binary = new_binary_position(existing_rule, incoming_rule);
    let undeclared_binaries = undeclared_existing_binaries(existing_rule, incoming_rule);
    let ghost all = views(merged_endpoints@);
    let ghost told = |e: NetworkEndpointView|
        model::endpoint_inheritance_error(
            existing_rule@,
            incoming_rule@,
            e,
            operation_index,
            rule_name@,
        ) is Some;
    let mut i: usize = 0;
    while i < merged_endpoints.len()
        invariant
            all == views(merged_endpoints@),
            told == (|e: NetworkEndpointView|
                model::endpoint_inheritance_error(
                    existing_rule@,
                    incoming_rule@,
                    e,
                    operation_index,
                    rule_name@,
                ) is Some),
            i <= merged_endpoints.len(),
            new_binary is Some ==> new_binary->0 < incoming_rule.binaries.len(),
            model::new_binary(existing_rule@, incoming_rule@) == (match new_binary {
                Some(b) => Some(incoming_rule.binaries@[b as int]@),
                None => None,
            }),
            views(undeclared_binaries@) == model::undeclared_binaries(
                existing_rule@,
                incoming_rule@,
            ),
            forall|j: int| 0 <= j < i ==> !told(#[trigger] all[j]),
        decreases merged_endpoints.len() - i,
    {
        let endpoint = &merged_endpoints[i];
        proof {
            assert(all[i as int] == endpoint@);
        }
        if let Some(b) = new_binary {
            if !any_endpoint_covers(&incoming_rule.endpoints, endpoint) {
                let ports = canonical_ports(endpoint);
                proof {
                    lemma_first_where(all, told, i as int);
                    lemma_number_views(ports@);
                }
                return Err(
                    PolicyMergeError::NewBinaryWouldInheritAuthorization {
                        operation_index,
                        rule_name: rule_name.to_owned(),
                        binary_path: incoming_rule.binaries[b].path.clone(),
                        host: endpoint.host.clone(),
                        ports,
                    },
                );
            }
        }
        if undeclared_binaries.len() > 0 && !any_endpoint_equivalent(
            &existing_rule.endpoints,
            endpoint,
        ) {
            let ports = canonical_ports(endpoint);
            proof {
                lemma_first_where(all, told, i as int);
                lemma_number_views(ports@);
            }
            return Err(
                PolicyMergeError::ExistingBinariesWouldInheritAuthorization {
                    operation_index,
                    rule_name: rule_name.to_owned(),
                    host: endpoint.host.clone(),
                    ports,
                    undeclared_binaries,
                },
            );
        }
        i += 1;
    }
    proof {
        assert(!exists|c: int| model::is_first(all, told, c));
    }
    Ok(())
}

/// Merges a rule into an existing one. A rule grants each of its binaries each of its
/// endpoints: the endpoints are put together on the side and checked for grants that no
/// one asked for before either half changes.
fn merge_rules(
    existing_rule: &mut NetworkPolicyRule,
    incoming_rule: &NetworkPolicyRule,
    operation_index: usize,
    rule_name: &str,
    warnings: &mut Vec<PolicyMergeWarning>,
) -> (r: Result<(), PolicyMergeError>)
    ensures
        match model::merged_rule(
            old(existing_rule)@,
            incoming_rule@,
            operation_index,
            rule_name@,
        ) {
            Ok((rule, more)) => r is Ok && final(existing_rule)@ == rule && views(final(warnings)@)
                == views(old(warnings)@) + more,
            Err(error) => r is Err && r->Err_0@ == error && final(existing_rule)@ == old(
                existing_rule,
            )@ && views(final(warnings)@) == views(old(warnings)@),
        },
{
    let ghost told = views(warnings@);
    match merge_endpoints(&existing_rule.endpoints, &incoming_rule.endpoints, operation_index) {
        Err(error) => Err(error),
        Ok((merged_endpoints, mut endpoint_warnings)) => {
            match ensure_authorization_inheritance_is_declared(
                existing_rule,
                incoming_rule,
                &merged_endpoints,
                operation_index,
                rule_name,
            ) {
                Err(error) => Err(error),
                Ok(()) => {
                    existing_rule.endpoints = merged_endpoints;
                    append_unique_binaries(&mut existing_rule.binaries, &incoming_rule.binaries);
                    let ghost more = views(endpoint_warnings@);
                    warnings.append(&mut endpoint_warnings);
                    proof {
                        assert(views(warnings@) =~= told + more);
                    }
                    Ok(())
                },
            }
        },
    }
}

// Operations.
/// Whether a rule of this name comes from a provider profile.
pub fn is_provider_rule_name(name: &str) -> (r: bool)
    ensures
        r == model::provider_rule(name@),
{
    let chars = chars_of(name);
    let prefix = chars_of("_provider_");
    if chars.len() < prefix.len() {
        return false;
    }
    let mut i: usize = 0;
    while i < prefix.len()
        invariant
            chars@ == name@,
            prefix@ == "_provider_"@,
            i <= prefix.len() <= chars.len(),
            forall|j: int| 0 <= j < i ==> chars@[j] == prefix@[j],
        decreases prefix.len() - i,
    {
        if chars[i] != prefix[i] {
            return false;
        }
        i += 1;
    }
    true
}

/// The key order is by text, and an earlier position has the smaller key.
proof fn lemma_least_key<A>(
    m: Map<Seq<char>, A>,
    keys: Seq<Seq<char>>,
    p: spec_fn(Seq<char>, A) -> bool,
    i: int,
)
    requires
        crate::order::ascending(keys, key_order()),
        forall|k: Seq<char>| #[trigger] keys.contains(k) <==> m.contains_key(k),
        0 <= i <= keys.len(),
        forall|j: int| 0 <= j < i ==> !p(#[trigger] keys[j], m[keys[j]]),
        i < keys.len() ==> p(keys[i], m[keys[i]]),
    ensures
        i < keys.len() ==> model::least_key(m, p) == Some(keys[i]),
        i == keys.len() ==> model::least_key(m, p) is None,
{
    assert forall|k: Seq<char>| #[trigger] m.contains_key(k) && p(k, m[k]) implies i < keys.len()
        && (k == keys[i] || precedes(keys[i], k)) by {
        assert(keys.contains(k));
        let j = choose|j: int| 0 <= j < keys.len() && keys[j] == k;
        assert(keys[j] == k);
        if i < j {
            assert(key_order()(keys[i], keys[j]));
        }
    }
    if i < keys.len() {
        let k = keys[i];
        assert(keys.contains(k));
        assert(model::is_least_key(m, p, k));
        let c = choose|c: Seq<char>| model::is_least_key(m, p, c);
        assert(model::is_least_key(m, p, c));
        if c != k {
            assert(precedes(c, k) && precedes(k, c));
            lemma_precedes_total(c, k);
        }
    } else {
        assert(!exists|c: Seq<char>| model::is_least_key(m, p, c));
    }
}

/// The position of the rule that an incoming rule is folded into for sharing an endpoint
/// with it. Rules from a provider profile stay apart: a contribution folded into one would
/// widen it unseen.
fn overlapping_rule(
    rules: &StringMap<NetworkPolicyRule>,
    incoming_rule: &NetworkPolicyRule,
) -> (r: Option<String>)
    ensures
        model::least_key(
            rules@,
            |k: Seq<char>, rule: NetworkPolicyRuleView|
                !model::provider_rule(k) && model::rules_share_endpoint(rule, incoming_rule@),
        ) == option_view(r),
        r is Some ==> rules@.contains_key(r->0@),
{
    let ghost p = |k: Seq<char>, rule: NetworkPolicyRuleView|
        !model::provider_rule(k) && model::rules_share_endpoint(rule, incoming_rule@);
    let n: usize = rules.len();
    let mut i: usize = 0;
    while i < n
        invariant
            p == (|k: Seq<char>, rule: NetworkPolicyRuleView|
                !model::provider_rule(k) && model::rules_share_endpoint(rule, incoming_rule@)),
            n == rules.keys().len(),
            crate::order::ascending(rules.keys(), key_order()),
            forall|k: Seq<char>| #[trigger] rules.keys().contains(k) <==> rules@.contains_key(k),
            i <= n,
            forall|j: int| 0 <= j < i ==> !p(#[trigger] rules.keys()[j], rules@[rules.keys()[j]]),
        decreases n - i,
    {
        if !is_provider_rule_name(rules.key_at(i)) && rules_share_endpoint(
            rules.value_at(i),
            incoming_rule,
        ) {
            proof {
                lemma_least_key(rules@, rules.keys(), p, i as int);
            }
            return Some(rules.key_at(i).clone());
        }
        i += 1;
    }
    proof {
        lemma_least_key(rules@, rules.keys(), p, n as int);
    }
    None
}

fn add_rule(
    policy: &mut SandboxPolicy,
    operation_index: usize,
    rule_name: &str,
    rule: &NetworkPolicyRule,
    warnings: &mut Vec<PolicyMergeWarning>,
) -> (r: Result<(), PolicyMergeError>)
    ensures
        match model::rule_added(old(policy)@, operation_index, rule_name@, rule@) {
            Ok((after, more)) => r is Ok && final(policy)@ == after && views(final(warnings)@)
                == views(old(warnings)@) + more,
            Err(error) => r is Err && r->Err_0@ == error && final(policy)@ == old(policy)@
                && views(final(warnings)@) == views(old(warnings)@),
        },
{
    let ghost told = views(warnings@);
    let mut incoming_rule = rule.duplicate();
    normalize_rule(&mut incoming_rule);
    if incoming_rule.name.as_str().is_empty() {
        incoming_rule.name = rule_name.to_owned();
    }
    let target_key = if policy.network_policies.contains_key(rule_name) {
        Some(rule_name.to_owned())
    } else {
        overlapping_rule(&policy.network_policies, &incoming_rule)
    };
    proof {
        assert(incoming_rule@ == model::incoming_rule(rule@, rule_name@));
        assert(option_view(target_key) == model::merge_target(
            policy@.network_policies,
            rule_name@,
            incoming_rule@,
        ));
    }
    if let Some(key) = target_key {
        let mut merged = policy.network_policies.get(&key).unwrap().duplicate();
        match merge_rules(&mut merged, &incoming_rule, operation_index, rule_name, warnings) {
            Err(error) => {
                return Err(error);
            },
            Ok(()) => {},
        }
        policy.network_policies.insert(key, merged);
    } else {
        policy.network_policies.insert(rule_name.to_owned(), incoming_rule);
        proof {
            assert(told + Seq::<PolicyMergeWarningView>::empty() =~= told);
        }
    }
    Ok(())
}

fn endpoint_matches_host_port(endpoint: &NetworkEndpoint, host: &str, port: u32) -> (r: bool)
    ensures
        r == model::endpoint_matches_host_port(endpoint@, host@, port),
{
    let ports = canonical_ports(endpoint);
    proof {
        lemma_number_views(ports@);
    }
    eq_ignore_ascii_case(&endpoint.host, host) && list_contains(&ports, &port)
}

/// The first endpoint of a rule that serves the host on the port.
fn endpoint_position(rule: &NetworkPolicyRule, host: &str, port: u32) -> (r: Option<usize>)
    ensures
        model::first_endpoint(rule@, host@, port) == (match r {
            Some(i) => Some(i as int),
            None => None,
        }),
        r is Some ==> r->0 < rule.endpoints.len(),
{
    let ghost all = rule@.endpoints;
    let ghost p = |e: NetworkEndpointView| model::endpoint_matches_host_port(e, host@, port);
    let mut i: usize = 0;
    while i < rule.endpoints.len()
        invariant
            all == rule@.endpoints,
            p == (|e: NetworkEndpointView| model::endpoint_matches_host_port(e, host@, port)),
            i <= rule.endpoints.len(),
            forall|j: int| 0 <= j < i ==> !p(#[trigger] all[j]),
        decreases rule.endpoints.len() - i,
    {
        proof {
            assert(all[i as int] == rule.endpoints@[i as int]@);
        }
        if endpoint_matches_host_port(&rule.endpoints[i], host, port) {
            proof {
                lemma_first_where(all, p, i as int);
            }
            return Some(i);
        }
        i += 1;
    }
    proof {
        assert(!exists|c: int| model::is_first(all, p, c));
    }
    None
}

/// The key of the rule, and the position in it, of the endpoint that serves the host on
/// the port. Rules from a provider profile are passed over: they are not changed in place.
fn find_endpoint(policy: &SandboxPolicy, host: &str, port: u32) -> (r: Option<(String, usize)>)
    ensures
        model::endpoint_key(policy@.network_policies, host@, port) == (match r {
            Some((key, at)) => Some(key@),
            None => None,
        }),
        match r {
            Some((key, at)) => {
                let rule = policy@.network_policies[key@];
                &&& policy@.network_policies.contains_key(key@)
                &&& model::first_endpoint(rule, host@, port) == Some(at as int)
                &&& at < rule.endpoints.len()
            },
            None => true,
        },
{
    let rules = &policy.network_policies;
    let ghost p = |k: Seq<char>, rule: NetworkPolicyRuleView|
        !model::provider_rule(k) && model::first_endpoint(rule, host@, port) is Some;
    let n: usize = rules.len();
    let mut i: usize = 0;
    while i < n
        invariant
            rules == &policy.network_policies,
            p == (|k: Seq<char>, rule: NetworkPolicyRuleView|
                !model::provider_rule(k) && model::first_endpoint(rule, host@, port) is Some),
            n == rules.keys().len(),
            crate::order::ascending(rules.keys(), key_order()),
            forall|k: Seq<char>| #[trigger] rules.keys().contains(k) <==> rules@.contains_key(k),
            i <= n,
            forall|j: int| 0 <= j < i ==> !p(#[trigger] rules.keys()[j], rules@[rules.keys()[j]]),
        decreases n - i,
    {
        if !is_provider_rule_name(rules.key_at(i)) {
            if let Some(at) = endpoint_position(rules.value_at(i), host, port) {
                proof {
                    lemma_least_key(rules@, rules.keys(), p, i as int);
                }
                return Some((rules.key_at(i).clone(), at));
            }
        }
        i += 1;
    }
    proof {
        lemma_least_key(rules@, rules.keys(), p, n as int);
    }
    None
}

fn ensure_method_path_endpoint(endpoint: &NetworkEndpoint, host: &str, port: u32) -> (r: Result<
    (),
    PolicyMergeError,
>)
    ensures
        model::method_path_error(endpoint@, host@, port) == (match r {
            Ok(()) => None,
            Err(error) => Some(error@),
        }),
{
    if endpoint.protocol.as_str().is_empty() {
        return Err(
            PolicyMergeError::EndpointHasNoL7Inspection { host: host.to_owned(), port },
        );
    }
    if !same_text(&endpoint.protocol, "rest") && !same_text(&endpoint.protocol, "websocket") {
        return Err(
            PolicyMergeError::UnsupportedEndpointProtocol {
                host: host.to_owned(),
                port,
                protocol: endpoint.protocol.clone(),
            },
        );
    }
    Ok(())
}

/// Puts an endpoint in the place of the one at a position of a rule.
fn replace_endpoint(policy: &mut SandboxPolicy, key: String, at: usize, endpoint: NetworkEndpoint)
    requires
        old(policy)@.network_policies.contains_key(key@),
        at < old(policy)@.network_policies[key@].endpoints.len(),
    ensures
        final(policy)@ == model::with_rules(
            old(policy)@,
            old(policy)@.network_policies.insert(
                key@,
                NetworkPolicyRuleView {
                    endpoints: old(policy)@.network_policies[key@].endpoints.update(
                        at as int,
                        endpoint@,
                    ),
                    ..old(policy)@.network_policies[key@]
                },
            ),
        ),
{
    let ghost before = policy@.network_policies;
    if let Some(mut rule) = policy.network_policies.remove(&key) {
        let ghost endpoints = views(rule.endpoints@);
        rule.endpoints.set(at, endpoint);
        proof {
            assert(views(rule.endpoints@) =~= endpoints.update(at as int, endpoint@));
            assert(before.remove(key@).insert(key@, rule@) =~= before.insert(key@, rule@));
        }
        policy.network_policies.insert(key, rule);
    }
}

fn endpoint_at(policy: &SandboxPolicy, key: &str, at: usize) -> (r: NetworkEndpoint)
    requires
        policy@.network_policies.contains_key(key@),
        at < policy@.network_policies[key@].endpoints.len(),
    ensures
        r@ == policy@.network_policies[key@].endpoints[at as int],
{
    policy.network_policies.get(key).unwrap().endpoints[at].duplicate()
}

fn add_deny_rules(
    policy: &mut SandboxPolicy,
    host: &String,
    port: u32,
    deny_rules: &Vec<L7DenyRule>,
) -> (r: Result<(), PolicyMergeError>)
    ensures
        match model::deny_rules_added(old(policy)@, host@, port, views(deny_rules@)) {
            Ok((after, more)) => r is Ok && final(policy)@ == after,
            Err(error) => r is Err && r->Err_0@ == error && final(policy)@ == old(policy)@,
        },
{
    match find_endpoint(policy, host, port) {
        None => Err(PolicyMergeError::EndpointNotFound { host: host.clone(), port }),
        Some((key, at)) => {
            let mut endpoint = endpoint_at(policy, &key, at);
            match ensure_method_path_endpoint(&endpoint, host, port) {
                Err(error) => {
                    return Err(error);
                },
                Ok(()) => {},
            }
            if endpoint.access.as_str().is_empty() && endpoint.rules.len() == 0 {
                return Err(PolicyMergeError::EndpointHasNoAllowBase { host: host.clone(), port });
            }
            append_unique_deny_rules(&mut endpoint.deny_rules, deny_rules);
            replace_endpoint(policy, key, at, endpoint);
            Ok(())
        },
    }
}

fn add_allow_rules(
    policy: &mut SandboxPolicy,
    host: &String,
    port: u32,
    rules: &Vec<L7Rule>,
    warnings: &mut Vec<PolicyMergeWarning>,
) -> (r: Result<(), PolicyMergeError>)
    ensures
        match model::allow_rules_added(old(policy)@, host@, port, views(rules@)) {
            Ok((after, more)) => r is Ok && final(policy)@ == after && views(final(warnings)@)
                == views(old(warnings)@) + more,
            Err(error) => r is Err && r->Err_0@ == error && final(policy)@ == old(policy)@
                && views(final(warnings)@) == views(old(warnings)@),
        },
{
    match find_endpoint(policy, host, port) {
        None => Err(PolicyMergeError::EndpointNotFound { host: host.clone(), port }),
        Some((key, at)) => {
            let mut endpoint = endpoint_at(policy, &key, at);
            match ensure_method_path_endpoint(&endpoint, host, port) {
                Err(error) => {
                    return Err(error);
                },
                Ok(()) => {},
            }
            match expand_existing_access(&mut endpoint, host, port, warnings) {
                Err(error) => {
                    return Err(error);
                },
                Ok(()) => {},
            }
            append_unique_l7_rules(&mut endpoint.rules, rules);
            replace_endpoint(policy, key, at, endpoint);
            Ok(())
        },
    }
}

/// What is left of an endpoint without the port of the host.
fn endpoint_without(endpoint: &NetworkEndpoint, host: &str, port: u32) -> (r: Option<
    NetworkEndpoint,
>)
    ensures
        option_view(r) == model::endpoint_without(endpoint@, host@, port),
{
    if !endpoint_matches_host_port(endpoint, host, port) {
        return Some(endpoint.duplicate());
    }
    let ports = canonical_ports(endpoint);
    let mut remaining_ports: Vec<u32> = Vec::new();
    let mut i: usize = 0;
    proof {
        reveal(Seq::filter);
        assert(model::ports_without(ports@.take(0), port) =~= Seq::empty());
    }
    while i < ports.len()
        invariant
            i <= ports.len(),
            remaining_ports@ == model::ports_without(ports@.take(i as int), port),
        decreases ports.len() - i,
    {
        proof {
            reveal(Seq::filter);
            assert(ports@.take(i as int + 1).drop_last() =~= ports@.take(i as int));
        }
        if ports[i] != port {
            remaining_ports.push(ports[i]);
        }
        i += 1;
    }
    proof {
        assert(ports@.take(ports@.len() as int) =~= ports@);
    }
    let ordered = ordered_ports(&remaining_ports);
    if ordered.len() == 0 {
        return None;
    }
    proof {
        lemma_number_views(ordered@);
    }
    let mut left = endpoint.duplicate();
    left.port = leading_port(&ordered);
    left.ports = ordered;
    Some(left)
}

fn endpoints_without(endpoints: &Vec<NetworkEndpoint>, host: &str, port: u32) -> (r: Vec<
    NetworkEndpoint,
>)
    ensures
        views(r@) == model::endpoints_without(views(endpoints@), host@, port),
{
    let ghost all = views(endpoints@);
    let mut left: Vec<NetworkEndpoint> = Vec::new();
    let mut i: usize = 0;
    proof {
        assert(all.take(0) =~= Seq::empty());
        assert(views(left@) =~= Seq::empty());
    }
    while i < endpoints.len()
        invariant
            all == views(endpoints@),
            i <= endpoints.len(),
            views(left@) == model::endpoints_without(all.take(i as int), host@, port),
        decreases endpoints.len() - i,
    {
        let ghost before = views(left@);
        proof {
            assert(all.take(i as int + 1).drop_last() =~= all.take(i as int));
            assert(all.take(i as int + 1).last() == endpoints@[i as int]@);
        }
        if let Some(endpoint) = endpoint_without(&endpoints[i], host, port) {
            left.push(endpoint);
            proof {
                assert(views(left@) =~= before.push(endpoint@));
            }
        }
        i += 1;
    }
    proof {
        assert(all.take(all.len() as int) =~= all);
    }
    left
}

fn remove_endpoint(policy: &mut SandboxPolicy, rule_name: &Option<String>, host: &str, port: u32)
    ensures
        final(policy)@ == model::with_rules(
            old(policy)@,
            model::rules_without_endpoint(
                old(policy)@.network_policies,
                option_view(*rule_name),
                host@,
                port,
            ),
        ),
{
    let ghost before = policy@;
    let ghost name = option_view(*rule_name);
    let ghost target = model::rules_without_endpoint(before.network_policies, name, host@, port);
    let rules = &policy.network_policies;
    let n: usize = rules.len();
    let mut kept: StringMap<NetworkPolicyRule> = StringMap::new();
    let mut i: usize = 0;
    while i < n
        invariant
            rules@ == before.network_policies,
            name == option_view(*rule_name),
            target == model::rules_without_endpoint(before.network_policies, name, host@, port),
            n == rules.keys().len(),
            i <= n,
            forall|k: Seq<char>| #[trigger]
                kept@.contains_key(k) ==> target.contains_key(k) && kept@[k] == target[k],
            forall|j: int|
                0 <= j < i && target.contains_key(#[trigger] rules.keys()[j])
                    ==> kept@.contains_key(rules.keys()[j]),
        decreases n - i,
    {
        let key = rules.key_at(i);
        let targeted = match rule_name {
            Some(only) => same_text(only, key),
            None => true,
        };
        let ghost kept_before = kept@;
        let mut rule = rules.value_at(i).duplicate();
        if targeted {
            rule.endpoints = endpoints_without(&rule.endpoints, host, port);
        }
        if !targeted || rule.endpoints.len() > 0 {
            proof {
                assert(target.contains_key(key@));
                assert(target[key@] == rule@);
            }
            kept.insert(key.clone(), rule);
        } else {
            proof {
                assert(!target.contains_key(key@));
            }
        }
        i += 1;
    }
    proof {
        assert forall|k: Seq<char>| #[trigger] target.contains_key(k) implies kept@.contains_key(
            k,
        ) by {
            assert(rules@.contains_key(k));
            assert(rules.keys().contains(k));
            let j = choose|j: int| 0 <= j < rules.keys().len() && rules.keys()[j] == k;
            assert(rules.keys()[j] == k);
        }
        assert(kept@ =~= target);
    }
    policy.network_policies = kept;
}

fn remove_binary(policy: &mut SandboxPolicy, rule_name: &str, binary_path: &str)
    ensures
        final(policy)@ == model::with_rules(
            old(policy)@,
            model::rules_without_binary(
                old(policy)@.network_policies,
                rule_name@,
                binary_path@,
            ),
        ),
{
    let ghost before = policy@.network_policies;
    let ghost p = |b: NetworkBinaryView| b.path != binary_path@;
    match policy.network_policies.remove(rule_name) {
        None => {
            proof {
                assert(before.remove(rule_name@) =~= before);
            }
        },
        Some(mut rule) => {
            let ghost all = views(rule.binaries@);
            let mut left: Vec<NetworkBinary> = Vec::new();
            let mut i: usize = 0;
            proof {
                reveal(Seq::filter);
                assert(all.take(0).filter(p) =~= views(left@));
            }
            while i < rule.binaries.len()
                invariant
                    all == views(rule.binaries@),
                    p == (|b: NetworkBinaryView| b.path != binary_path@),
                    i <= rule.binaries.len(),
                    views(left@) == all.take(i as int).filter(p),
                decreases rule.binaries.len() - i,
            {
                let ghost so_far = views(left@);
                proof {
                    reveal(Seq::filter);
                    assert(all.take(i as int + 1).drop_last() =~= all.take(i as int));
                    assert(all.take(i as int + 1).last() == rule.binaries@[i as int]@);
                }
                if !same_text(&rule.binaries[i].path, binary_path) {
                    left.push(rule.binaries[i].duplicate());
                    proof {
                        assert(views(left@) =~= so_far.push(rule.binaries@[i as int]@));
                    }
                }
                i += 1;
            }
            proof {
                assert(all.take(all.len() as int) =~= all);
            }
            let lost_last = left.len() == 0 && rule.binaries.len() > 0;
            rule.binaries = left;
            if !lost_last {
                proof {
                    assert(before.remove(rule_name@).insert(rule_name@, rule@) =~= before.insert(
                        rule_name@,
                        rule@,
                    ));
                }
                policy.network_policies.insert(rule_name.to_owned(), rule);
            }
        },
    }
}

fn validate_operation(operation_index: usize, operation: &PolicyMergeOp) -> (r: Result<
    (),
    PolicyMergeError,
>)
    ensures
        model::operation_error(operation_index, operation@) == (match r {
            Ok(()) => None,
            Err(error) => Some(error@),
        }),
{
    if let PolicyMergeOp::AddRule { rule_name, rule } = operation {
        if trim(rule_name).as_str().is_empty() {
            return Err(PolicyMergeError::MissingRuleNameForAddRule);
        }
        if rule.endpoints.len() == 0 {
            return Err(
                PolicyMergeError::EmptyAddRuleEndpoints {
                    operation_index,
                    rule_name: rule_name.clone(),
                },
            );
        }
    }
    Ok(())
}

fn apply_operation(
    policy: &mut SandboxPolicy,
    operation_index: usize,
    operation: &PolicyMergeOp,
    warnings: &mut Vec<PolicyMergeWarning>,
) -> (r: Result<(), PolicyMergeError>)
    ensures
        match model::operation_applied(old(policy)@, operation_index, operation@) {
            Ok((after, more)) => r is Ok && final(policy)@ == after && views(final(warnings)@)
                == views(old(warnings)@) + more,
            Err(error) => r is Err && r->Err_0@ == error && final(policy)@ == old(policy)@
                && views(final(warnings)@) == views(old(warnings)@),
        },
{
    proof {
        assert(views(warnings@) + Seq::<PolicyMergeWarningView>::empty() =~= views(warnings@));
    }
    match operation {
        PolicyMergeOp::AddRule { rule_name, rule } => add_rule(
            policy,
            operation_index,
            rule_name,
            rule,
            warnings,
        ),
        PolicyMergeOp::RemoveEndpoint { rule_name, host, port } => {
            remove_endpoint(policy, rule_name, host, *port);
            Ok(())
        },
        PolicyMergeOp::RemoveRule { rule_name } => {
            policy.network_policies.remove(rule_name);
            Ok(())
        },
        PolicyMergeOp::AddDenyRules { host, port, deny_rules } => add_deny_rules(
            policy,
            host,
            *port,
            deny_rules,
        ),
        PolicyMergeOp::AddAllowRules { host, port, rules } => add_allow_rules(
            policy,
            host,
            *port,
            rules,
            warnings,
        ),
        PolicyMergeOp::RemoveBinary { rule_name, binary_path } => {
            remove_binary(policy, rule_name, binary_path);
            Ok(())
        },
    }
}

/// What a merge gives back.
#[derive(Debug, PartialEq)]
pub struct PolicyMergeResult {
    pub policy: SandboxPolicy,
    pub warnings: Vec<PolicyMergeWarning>,
    pub changed: bool,
}

impl Clone for PolicyMergeResult {
    fn clone(&self) -> (r: Self)
        ensures
            r.policy@ == self.policy@,
            views(r.warnings@) == views(self.warnings@),
            r.changed == self.changed,
    {
        let mut warnings: Vec<PolicyMergeWarning> = Vec::new();
        let mut i: usize = 0;
        while i < self.warnings.len()
            invariant
                i <= self.warnings.len(),
                warnings.len() == i,
                forall|j: int| 0 <= j < i ==> (#[trigger] warnings@[j])@ == self.warnings@[j]@,
            decreases self.warnings.len() - i,
        {
            warnings.push(self.warnings[i].clone());
            i += 1;
        }
        proof {
            assert(views(warnings@) =~= views(self.warnings@));
        }
        PolicyMergeResult { policy: self.policy.clone(), warnings, changed: self.changed }
    }
}

/// Validates and applies the operations in order. The first that fails gives the error,
/// and then nothing of the others is seen.
pub fn merge_policy(policy: SandboxPolicy, operations: &[PolicyMergeOp]) -> (r: Result<
    PolicyMergeResult,
    PolicyMergeError,
>)
    ensures
        model::operations_applied(policy@, views(operations@)) == (match r {
            Ok(result) => Ok((result.policy@, views(result.warnings@))),
            Err(error) => Err(error@),
        }),
        r is Ok ==> r->Ok_0.changed == (r->Ok_0.policy@ != policy@),
{
    let ghost all = views(operations@);
    let mut merged = policy.duplicate();
    let mut warnings: Vec<PolicyMergeWarning> = Vec::new();
    let mut i: usize = 0;
    proof {
        assert(all.take(0) =~= Seq::empty());
        assert(views(warnings@) =~= Seq::empty());
    }
    while i < operations.len()
        invariant
            all == views(operations@),
            i <= operations.len(),
            model::operations_applied(policy@, all.take(i as int)) == Ok::<
                (SandboxPolicyView, Seq<PolicyMergeWarningView>),
                PolicyMergeErrorView,
            >((merged@, views(warnings@))),
        decreases operations.len() - i,
    {
        proof {
            assert(all.take(i as int + 1).drop_last() =~= all.take(i as int));
            assert(all.take(i as int + 1).last() == operations@[i as int]@);
        }
        match validate_operation(i, &operations[i]) {
            Err(error) => {
                proof {
                    lemma_operations_stop(policy@, all, i as int + 1, error@);
                }
                return Err(error);
            },
            Ok(()) => {},
        }
        match apply_operation(&mut merged, i, &operations[i], &mut warnings) {
            Err(error) => {
                proof {
                    lemma_operations_stop(policy@, all, i as int + 1, error@);
                }
                return Err(error);
            },
            Ok(()) => {},
        }
        i += 1;
    }
    proof {
        assert(all.take(all.len() as int) =~= all);
    }
    let changed = !merged.same(&policy);
    Ok(PolicyMergeResult { policy: merged, warnings, changed })
}

proof fn lemma_operations_stop(
    policy: SandboxPolicyView,
    operations: Seq<PolicyMergeOpView>,
    n: int,
    error: PolicyMergeErrorView,
)
    requires
        0 <= n <= operations.len(),
        model::operations_applied(policy, operations.take(n)) == Err::<
            (SandboxPolicyView, Seq<PolicyMergeWarningView>),
            PolicyMergeErrorView,
        >(error),
    ensures
        model::operations_applied(policy, operations) == Err::<
            (SandboxPolicyView, Seq<PolicyMergeWarningView>),
            PolicyMergeErrorView,
        >(error),
    decreases operations.len() - n,
{
    if n == operations.len() {
        assert(operations.take(n) =~= operations);
    } else {
        assert(operations.take(n + 1).drop_last() =~= operations.take(n));
        lemma_operations_stop(policy, operations, n + 1, error);
    }
}

/// The name of a rule that allows a host on a port.
pub fn generated_rule_name(host: &str, port: u32) -> (r: String)
    ensures
        r@ == "allow_"@ + model::sanitized(host@) + "_"@ + decimal(port as nat),
{
    let chars = chars_of(host);
    let mut sanitized = String::new();
    let mut i: usize = 0;
    proof {
        assert(host@.take(0) =~= Seq::empty());
        assert(sanitized@ =~= Seq::empty());
    }
    while i < chars.len()
        invariant
            chars@ == host@,
            i <= chars.len(),
            sanitized@ == model::sanitized(host@.take(i as int)),
        decreases chars.len() - i,
    {
        let c = chars[i];
        proof {
            assert(host@.take(i as int + 1).drop_last() =~= host@.take(i as int));
            assert(host@.take(i as int + 1).last() == c);
        }
        if c == '.' || c == '-' || c == '_' {
            sanitized.push('_');
        } else if c.is_alphanumeric() {
            sanitized.push(c);
        }
        i += 1;
    }
    proof {
        assert(host@.take(host@.len() as int) =~= host@);
    }
    let mut name = String::from_str("allow_");
    name.append(&sanitized);
    name.append("_");
    name.append(&decimal_text(port as u64));
    name
}

} // verus!
