//! What the words for a merge's outcome say.
use vstd::prelude::*;

use crate::merge_types::{PolicyMergeErrorView, PolicyMergeWarningView};
use crate::text::{decimal, joined, number_list};

verus! {

/// The text has the part in it.
#[verifier::opaque]
pub open spec fn mentions(text: Seq<char>, part: Seq<char>) -> bool {
    exists|i: int|
        0 <= i && i + part.len() <= text.len() && #[trigger] text.subrange(i, i + part.len()) == part
}

proof fn lemma_last(before: Seq<char>, part: Seq<char>)
    ensures
        mentions(before + part, part),
{
    reveal(mentions);
    let text = before + part;
    let i = before.len() as int;
    assert(text.subrange(i, i + part.len()) =~= part);
}

proof fn lemma_more(text: Seq<char>, more: Seq<char>, part: Seq<char>)
    requires
        mentions(text, part),
    ensures
        mentions(text + more, part),
{
    reveal(mentions);
    let i = choose|i: int|
        0 <= i && i + part.len() <= text.len() && #[trigger] text.subrange(i, i + part.len()) == part;
    assert((text + more).subrange(i, i + part.len()) =~= part);
}

/// The words for a warning name the endpoint, and what is kept, ignored or written out.
pub proof fn law_warnings_name_what_they_are_about(warning: PolicyMergeWarningView)
    ensures
        match warning {
            PolicyMergeWarningView::ExistingProtocolRetained { host, port, existing, incoming } => {
                let message = warning.message();
                &&& mentions(message, host + ":"@ + decimal(port as nat))
                &&& mentions(message, existing)
                &&& mentions(message, incoming)
            },
            PolicyMergeWarningView::ExistingEnforcementRetained { host, port, existing, incoming } => {
                let message = warning.message();
                &&& mentions(message, host + ":"@ + decimal(port as nat))
                &&& mentions(message, existing)
                &&& mentions(message, incoming)
            },
            PolicyMergeWarningView::ExistingTlsRetained { host, port, existing, incoming } => {
                let message = warning.message();
                &&& mentions(message, host + ":"@ + decimal(port as nat))
                &&& mentions(message, existing)
                &&& mentions(message, incoming)
            },
            PolicyMergeWarningView::ExistingAccessRetained { host, port, existing, incoming } => {
                let message = warning.message();
                &&& mentions(message, host + ":"@ + decimal(port as nat))
                &&& mentions(message, existing)
                &&& mentions(message, incoming)
            },
            PolicyMergeWarningView::ExpandedAccessPreset { host, port, access } => {
                let message = warning.message();
                &&& mentions(message, access)
                &&& mentions(message, host + ":"@ + decimal(port as nat))
            },
            PolicyMergeWarningView::IgnoredIncomingAccessBecauseRulesExist { host, port, incoming } => {
                let message = warning.message();
                &&& mentions(message, host + ":"@ + decimal(port as nat))
                &&& mentions(message, incoming)
            },
        },
{
    match warning {
        PolicyMergeWarningView::ExistingProtocolRetained { host, port, existing, incoming } => {
            let m1 = "endpoint "@;
            let m2 = m1 + host;
            let m3 = m2 + ":"@;
            let m4 = m3 + decimal(port as nat);
            let m5 = m4 + " keeps existing protocol '"@;
            let m6 = m5 + existing;
            let m7 = m6 + "' and ignores incoming '"@;
            let m8 = m7 + incoming;
            let m9 = m8 + "'"@;
            lemma_last(m1, host + ":"@ + decimal(port as nat));
            assert(m1 + (host + ":"@ + decimal(port as nat)) =~= m4);
            lemma_more(m4, " keeps existing protocol '"@, host + ":"@ + decimal(port as nat));
            lemma_more(m5, existing, host + ":"@ + decimal(port as nat));
            lemma_more(m6, "' and ignores incoming '"@, host + ":"@ + decimal(port as nat));
            lemma_more(m7, incoming, host + ":"@ + decimal(port as nat));
            lemma_more(m8, "'"@, host + ":"@ + decimal(port as nat));
            lemma_last(m5, existing);
            lemma_more(m6, "' and ignores incoming '"@, existing);
            lemma_more(m7, incoming, existing);
            lemma_more(m8, "'"@, existing);
            lemma_last(m7, incoming);
            lemma_more(m8, "'"@, incoming);
        },
        PolicyMergeWarningView::ExistingEnforcementRetained { host, port, existing, incoming } => {
            let m1 = "endpoint "@;
            let m2 = m1 + host;
            let m3 = m2 + ":"@;
            let m4 = m3 + decimal(port as nat);
            let m5 = m4 + " keeps existing enforcement '"@;
            let m6 = m5 + existing;
            let m7 = m6 + "' and ignores incoming '"@;
            let m8 = m7 + incoming;
            let m9 = m8 + "'"@;
            lemma_last(m1, host + ":"@ + decimal(port as nat));
            assert(m1 + (host + ":"@ + decimal(port as nat)) =~= m4);
            lemma_more(m4, " keeps existing enforcement '"@, host + ":"@ + decimal(port as nat));
            lemma_more(m5, existing, host + ":"@ + decimal(port as nat));
            lemma_more(m6, "' and ignores incoming '"@, host + ":"@ + decimal(port as nat));
            lemma_more(m7, incoming, host + ":"@ + decimal(port as nat));
            lemma_more(m8, "'"@, host + ":"@ + decimal(port as nat));
            lemma_last(m5, existing);
            lemma_more(m6, "' and ignores incoming '"@, existing);
            lemma_more(m7, incoming, existing);
            lemma_more(m8, "'"@, existing);
            lemma_last(m7, incoming);
            lemma_more(m8, "'"@, incoming);
        },
        PolicyMergeWarningView::ExistingTlsRetained { host, port, existing, incoming } => {
            let m1 = "endpoint "@;
            let m2 = m1 + host;
            let m3 = m2 + ":"@;
            let m4 = m3 + decimal(port as nat);
            let m5 = m4 + " keeps existing tls mode '"@;
            let m6 = m5 + existing;
            let m7 = m6 + "' and ignores incoming '"@;
            let m8 = m7 + incoming;
            let m9 = m8 + "'"@;
            lemma_last(m1, host + ":"@ + decimal(port as nat));
            assert(m1 + (host + ":"@ + decimal(port as nat)) =~= m4);
            lemma_more(m4, " keeps existing tls mode '"@, host + ":"@ + decimal(port as nat));
            lemma_more(m5, existing, host + ":"@ + decimal(port as nat));
            lemma_more(m6, "' and ignores incoming '"@, host + ":"@ + decimal(port as nat));
            lemma_more(m7, incoming, host + ":"@ + decimal(port as nat));
            lemma_more(m8, "'"@, host + ":"@ + decimal(port as nat));
            lemma_last(m5, existing);
            lemma_more(m6, "' and ignores incoming '"@, existing);
            lemma_more(m7, incoming, existing);
            lemma_more(m8, "'"@, existing);
            lemma_last(m7, incoming);
            lemma_more(m8, "'"@, incoming);
        },
        PolicyMergeWarningView::ExistingAccessRetained { host, port, existing, incoming } => {
            let m1 = "endpoint "@;
            let m2 = m1 + host;
            let m3 = m2 + ":"@;
            let m4 = m3 + decimal(port as nat);
            let m5 = m4 + " keeps existing access preset '"@;
            let m6 = m5 + existing;
            let m7 = m6 + "' and ignores incoming '"@;
            let m8 = m7 + incoming;
            let m9 = m8 + "'"@;
            lemma_last(m1, host + ":"@ + decimal(port as nat));
            assert(m1 + (host + ":"@ + decimal(port as nat)) =~= m4);
            lemma_more(m4, " keeps existing access preset '"@, host + ":"@ + decimal(port as nat));
            lemma_more(m5, existing, host + ":"@ + decimal(port as nat));
            lemma_more(m6, "' and ignores incoming '"@, host + ":"@ + decimal(port as nat));
            lemma_more(m7, incoming, host + ":"@ + decimal(port as nat));
            lemma_more(m8, "'"@, host + ":"@ + decimal(port as nat));
            lemma_last(m5, existing);
            lemma_more(m6, "' and ignores incoming '"@, existing);
            lemma_more(m7, incoming, existing);
            lemma_more(m8, "'"@, existing);
            lemma_last(m7, incoming);
            lemma_more(m8, "'"@, incoming);
        },
        PolicyMergeWarningView::ExpandedAccessPreset { host, port, access } => {
            let m1 = "expanded access preset '"@;
            let m2 = m1 + access;
            let m3 = m2 + "' to explicit rules for endpoint "@;
            let m4 = m3 + host;
            let m5 = m4 + ":"@;
            let m6 = m5 + decimal(port as nat);
            lemma_last(m1, access);
            lemma_more(m2, "' to explicit rules for endpoint "@, access);
            lemma_more(m3, host, access);
            lemma_more(m4, ":"@, access);
            lemma_more(m5, decimal(port as nat), access);
            lemma_last(m3, host + ":"@ + decimal(port as nat));
            assert(m3 + (host + ":"@ + decimal(port as nat)) =~= m6);
        },
        PolicyMergeWarningView::IgnoredIncomingAccessBecauseRulesExist { host, port, incoming } => {
            let m1 = "endpoint "@;
            let m2 = m1 + host;
            let m3 = m2 + ":"@;
            let m4 = m3 + decimal(port as nat);
            let m5 = m4 + " already uses explicit rules; incoming access preset '"@;
            let m6 = m5 + incoming;
            let m7 = m6 + "' was ignored"@;
            lemma_last(m1, host + ":"@ + decimal(port as nat));
            assert(m1 + (host + ":"@ + decimal(port as nat)) =~= m4);
            lemma_more(m4, " already uses explicit rules; incoming access preset '"@, host + ":"@ + decimal(port as nat));
            lemma_more(m5, incoming, host + ":"@ + decimal(port as nat));
            lemma_more(m6, "' was ignored"@, host + ":"@ + decimal(port as nat));
            lemma_last(m5, incoming);
            lemma_more(m6, "' was ignored"@, incoming);
        },
    }
}

/// The words for an error name the operation, the rule, the endpoint and whatever else it is
/// about.
pub proof fn law_errors_name_what_they_are_about(error: PolicyMergeErrorView)
    ensures
        match error {
            PolicyMergeErrorView::EmptyAddRuleEndpoints { operation_index, rule_name } => {
                let message = error.message();
                &&& mentions(message, decimal(operation_index as nat))
                &&& mentions(message, rule_name)
            },
            PolicyMergeErrorView::McpContractConflict { operation_index, host, port, existing, incoming } => {
                let message = error.message();
                &&& mentions(message, decimal(operation_index as nat))
                &&& mentions(message, host + ":"@ + decimal(port as nat))
                &&& mentions(message, existing)
                &&& mentions(message, incoming)
            },
            PolicyMergeErrorView::NewBinaryWouldInheritAuthorization { operation_index, rule_name, binary_path, host, ports } => {
                let message = error.message();
                &&& mentions(message, decimal(operation_index as nat))
                &&& mentions(message, rule_name)
                &&& mentions(message, binary_path)
                &&& mentions(message, host)
                &&& mentions(message, number_list(ports))
            },
            PolicyMergeErrorView::ExistingBinariesWouldInheritAuthorization { operation_index, rule_name, host, ports, undeclared_binaries } => {
                let message = error.message();
                &&& mentions(message, decimal(operation_index as nat))
                &&& mentions(message, rule_name)
                &&& mentions(message, host)
                &&& mentions(message, number_list(ports))
                &&& mentions(message, joined(undeclared_binaries, ", "@))
            },
            PolicyMergeErrorView::InvalidEndpointReference { host, port } => {
                let message = error.message();
                &&& mentions(message, host + ":"@ + decimal(port as nat))
            },
            PolicyMergeErrorView::EndpointNotFound { host, port } => {
                let message = error.message();
                &&& mentions(message, host + ":"@ + decimal(port as nat))
            },
            PolicyMergeErrorView::EndpointHasNoL7Inspection { host, port } => {
                let message = error.message();
                &&& mentions(message, host + ":"@ + decimal(port as nat))
            },
            PolicyMergeErrorView::UnsupportedEndpointProtocol { host, port, protocol } => {
                let message = error.message();
                &&& mentions(message, host + ":"@ + decimal(port as nat))
                &&& mentions(message, protocol)
            },
            PolicyMergeErrorView::EndpointHasNoAllowBase { host, port } => {
                let message = error.message();
                &&& mentions(message, host + ":"@ + decimal(port as nat))
            },
            PolicyMergeErrorView::UnsupportedAccessPreset { host, port, access } => {
                let message = error.message();
                &&& mentions(message, host + ":"@ + decimal(port as nat))
                &&& mentions(message, access)
            },
            _ => true,
        },
{
    match error {
        PolicyMergeErrorView::EmptyAddRuleEndpoints { operation_index, rule_name } => {
            let m1 = "merge operation "@;
            let m2 = m1 + decimal(operation_index as nat);
            let m3 = m2 + " add-rule '"@;
            let m4 = m3 + rule_name;
            let m5 = m4 + "' must contain at least one endpoint"@;
            lemma_last(m1, decimal(operation_index as nat));
            lemma_more(m2, " add-rule '"@, decimal(operation_index as nat));
            lemma_more(m3, rule_name, decimal(operation_index as nat));
            lemma_more(m4, "' must contain at least one endpoint"@, decimal(operation_index as nat));
            lemma_last(m3, rule_name);
            lemma_more(m4, "' must contain at least one endpoint"@, rule_name);
        },
        PolicyMergeErrorView::McpContractConflict { operation_index, host, port, existing, incoming } => {
            let m1 = "merge operation "@;
            let m2 = m1 + decimal(operation_index as nat);
            let m3 = m2 + " cannot combine MCP contracts at "@;
            let m4 = m3 + host;
            let m5 = m4 + ":"@;
            let m6 = m5 + decimal(port as nat);
            let m7 = m6 + ": existing "@;
            let m8 = m7 + existing;
            let m9 = m8 + ", incoming "@;
            let m10 = m9 + incoming;
            lemma_last(m1, decimal(operation_index as nat));
            lemma_more(m2, " cannot combine MCP contracts at "@, decimal(operation_index as nat));
            lemma_more(m3, host, decimal(operation_index as nat));
            lemma_more(m4, ":"@, decimal(operation_index as nat));
            lemma_more(m5, decimal(port as nat), decimal(operation_index as nat));
            lemma_more(m6, ": existing "@, decimal(operation_index as nat));
            lemma_more(m7, existing, decimal(operation_index as nat));
            lemma_more(m8, ", incoming "@, decimal(operation_index as nat));
            lemma_more(m9, incoming, decimal(operation_index as nat));
            lemma_last(m3, host + ":"@ + decimal(port as nat));
            assert(m3 + (host + ":"@ + decimal(port as nat)) =~= m6);
            lemma_more(m6, ": existing "@, host + ":"@ + decimal(port as nat));
            lemma_more(m7, existing, host + ":"@ + decimal(port as nat));
            lemma_more(m8, ", incoming "@, host + ":"@ + decimal(port as nat));
            lemma_more(m9, incoming, host + ":"@ + decimal(port as nat));
            lemma_last(m7, existing);
            lemma_more(m8, ", incoming "@, existing);
            lemma_more(m9, incoming, existing);
            lemma_last(m9, incoming);
        },
        PolicyMergeErrorView::NewBinaryWouldInheritAuthorization { operation_index, rule_name, binary_path, host, ports } => {
            let m1 = "merge operation "@;
            let m2 = m1 + decimal(operation_index as nat);
            let m3 = m2 + " add-rule '"@;
            let m4 = m3 + rule_name;
            let m5 = m4 + "' would grant new binary '"@;
            let m6 = m5 + binary_path;
            let m7 = m6 + "' undeclared authorization for "@;
            let m8 = m7 + host;
            let m9 = m8 + " on ports "@;
            let m10 = m9 + number_list(ports);
            lemma_last(m1, decimal(operation_index as nat));
            lemma_more(m2, " add-rule '"@, decimal(operation_index as nat));
            lemma_more(m3, rule_name, decimal(operation_index as nat));
            lemma_more(m4, "' would grant new binary '"@, decimal(operation_index as nat));
            lemma_more(m5, binary_path, decimal(operation_index as nat));
            lemma_more(m6, "' undeclared authorization for "@, decimal(operation_index as nat));
            lemma_more(m7, host, decimal(operation_index as nat));
            lemma_more(m8, " on ports "@, decimal(operation_index as nat));
            lemma_more(m9, number_list(ports), decimal(operation_index as nat));
            lemma_last(m3, rule_name);
            lemma_more(m4, "' would grant new binary '"@, rule_name);
            lemma_more(m5, binary_path, rule_name);
            lemma_more(m6, "' undeclared authorization for "@, rule_name);
            lemma_more(m7, host, rule_name);
            lemma_more(m8, " on ports "@, rule_name);
            lemma_more(m9, number_list(ports), rule_name);
            lemma_last(m5, binary_path);
            lemma_more(m6, "' undeclared authorization for "@, binary_path);
            lemma_more(m7, host, binary_path);
            lemma_more(m8, " on ports "@, binary_path);
            lemma_more(m9, number_list(ports), binary_path);
            lemma_last(m7, host);
            lemma_more(m8, " on ports "@, host);
            lemma_more(m9, number_list(ports), host);
            lemma_last(m9, number_list(ports));
        },
        PolicyMergeErrorView::ExistingBinariesWouldInheritAuthorization { operation_index, rule_name, host, ports, undeclared_binaries } => {
            let m1 = "merge operation "@;
            let m2 = m1 + decimal(operation_index as nat);
            let m3 = m2 + " add-rule '"@;
            let m4 = m3 + rule_name;
            let m5 = m4 + "' would grant existing binaries new or changed authorization for "@;
            let m6 = m5 + host;
            let m7 = m6 + " on ports "@;
            let m8 = m7 + number_list(ports);
            let m9 = m8 + "; also declare "@;
            let m10 = m9 + joined(undeclared_binaries, ", "@);
            lemma_last(m1, decimal(operation_index as nat));
            lemma_more(m2, " add-rule '"@, decimal(operation_index as nat));
            lemma_more(m3, rule_name, decimal(operation_index as nat));
            lemma_more(m4, "' would grant existing binaries new or changed authorization for "@, decimal(operation_index as nat));
            lemma_more(m5, host, decimal(operation_index as nat));
            lemma_more(m6, " on ports "@, decimal(operation_index as nat));
            lemma_more(m7, number_list(ports), decimal(operation_index as nat));
            lemma_more(m8, "; also declare "@, decimal(operation_index as nat));
            lemma_more(m9, joined(undeclared_binaries, ", "@), decimal(operation_index as nat));
            lemma_last(m3, rule_name);
            lemma_more(m4, "' would grant existing binaries new or changed authorization for "@, rule_name);
            lemma_more(m5, host, rule_name);
            lemma_more(m6, " on ports "@, rule_name);
            lemma_more(m7, number_list(ports), rule_name);
            lemma_more(m8, "; also declare "@, rule_name);
            lemma_more(m9, joined(undeclared_binaries, ", "@), rule_name);
            lemma_last(m5, host);
            lemma_more(m6, " on ports "@, host);
            lemma_more(m7, number_list(ports), host);
            lemma_more(m8, "; also declare "@, host);
            lemma_more(m9, joined(undeclared_binaries, ", "@), host);
            lemma_last(m7, number_list(ports));
            lemma_more(m8, "; also declare "@, number_list(ports));
            lemma_more(m9, joined(undeclared_binaries, ", "@), number_list(ports));
            lemma_last(m9, joined(undeclared_binaries, ", "@));
        },
        PolicyMergeErrorView::InvalidEndpointReference { host, port } => {
            let m1 = "invalid endpoint reference '"@;
            let m2 = m1 + host;
            let m3 = m2 + ":"@;
            let m4 = m3 + decimal(port as nat);
            let m5 = m4 + "'"@;
            lemma_last(m1, host + ":"@ + decimal(port as nat));
            assert(m1 + (host + ":"@ + decimal(port as nat)) =~= m4);
            lemma_more(m4, "'"@, host + ":"@ + decimal(port as nat));
        },
        PolicyMergeErrorView::EndpointNotFound { host, port } => {
            let m1 = "endpoint "@;
            let m2 = m1 + host;
            let m3 = m2 + ":"@;
            let m4 = m3 + decimal(port as nat);
            let m5 = m4 + " was not found in the current policy"@;
            lemma_last(m1, host + ":"@ + decimal(port as nat));
            assert(m1 + (host + ":"@ + decimal(port as nat)) =~= m4);
            lemma_more(m4, " was not found in the current policy"@, host + ":"@ + decimal(port as nat));
        },
        PolicyMergeErrorView::EndpointHasNoL7Inspection { host, port } => {
            let m1 = "endpoint "@;
            let m2 = m1 + host;
            let m3 = m2 + ":"@;
            let m4 = m3 + decimal(port as nat);
            let m5 = m4 + " has no L7 inspection configured (protocol is empty)"@;
            lemma_last(m1, host + ":"@ + decimal(port as nat));
            assert(m1 + (host + ":"@ + decimal(port as nat)) =~= m4);
            lemma_more(m4, " has no L7 inspection configured (protocol is empty)"@, host + ":"@ + decimal(port as nat));
        },
        PolicyMergeErrorView::UnsupportedEndpointProtocol { host, port, protocol } => {
            let m1 = "endpoint "@;
            let m2 = m1 + host;
            let m3 = m2 + ":"@;
            let m4 = m3 + decimal(port as nat);
            let m5 = m4 + " uses unsupported protocol '"@;
            let m6 = m5 + protocol;
            let m7 = m6 + "'; this operation currently supports only protocol 'rest' or 'websocket'"@;
            lemma_last(m1, host + ":"@ + decimal(port as nat));
            assert(m1 + (host + ":"@ + decimal(port as nat)) =~= m4);
            lemma_more(m4, " uses unsupported protocol '"@, host + ":"@ + decimal(port as nat));
            lemma_more(m5, protocol, host + ":"@ + decimal(port as nat));
            lemma_more(m6, "'; this operation currently supports only protocol 'rest' or 'websocket'"@, host + ":"@ + decimal(port as nat));
            lemma_last(m5, protocol);
            lemma_more(m6, "'; this operation currently supports only protocol 'rest' or 'websocket'"@, protocol);
        },
        PolicyMergeErrorView::EndpointHasNoAllowBase { host, port } => {
            let m1 = "endpoint "@;
            let m2 = m1 + host;
            let m3 = m2 + ":"@;
            let m4 = m3 + decimal(port as nat);
            let m5 = m4 + " has no base allow set; configure access or explicit allow rules before adding deny rules"@;
            lemma_last(m1, host + ":"@ + decimal(port as nat));
            assert(m1 + (host + ":"@ + decimal(port as nat)) =~= m4);
            lemma_more(m4, " has no base allow set; configure access or explicit allow rules before adding deny rules"@, host + ":"@ + decimal(port as nat));
        },
        PolicyMergeErrorView::UnsupportedAccessPreset { host, port, access } => {
            let m1 = "endpoint "@;
            let m2 = m1 + host;
            let m3 = m2 + ":"@;
            let m4 = m3 + decimal(port as nat);
            let m5 = m4 + " uses unsupported access preset '"@;
            let m6 = m5 + access;
            let m7 = m6 + "'"@;
            lemma_last(m1, host + ":"@ + decimal(port as nat));
            assert(m1 + (host + ":"@ + decimal(port as nat)) =~= m4);
            lemma_more(m4, " uses unsupported access preset '"@, host + ":"@ + decimal(port as nat));
            lemma_more(m5, access, host + ":"@ + decimal(port as nat));
            lemma_more(m6, "'"@, host + ":"@ + decimal(port as nat));
            lemma_last(m5, access);
            lemma_more(m6, "'"@, access);
        },
        _ => {},
    }
}

} // verus!
