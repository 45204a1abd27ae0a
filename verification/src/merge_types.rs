//! The operations of a policy merge, and what it can warn of or refuse.
use vstd::prelude::*;
use vstd::string::*;

use crate::policy::{
    L7DenyRule, L7DenyRuleView, L7Rule, L7RuleView, NetworkPolicyRule, NetworkPolicyRuleView,
};
use crate::text::{decimal, decimal_text, join, joined, number_list, number_list_text};
use crate::values::{
    duplicate_list, duplicate_option, lemma_number_views, option_view, views, Plain,
};

verus! {

/// One change to a policy.
#[derive(Debug, PartialEq)]
#[allow(inconsistent_fields)]
pub enum PolicyMergeOp {
    /// Merge a rule under a name.
    AddRule {
        rule_name: String,
        rule: NetworkPolicyRule,
    },
    /// Take a port of a host out of one rule, or of every rule.
    RemoveEndpoint {
        rule_name: Option<String>,
        host: String,
        port: u32,
    },
    /// Take a whole rule out.
    RemoveRule {
        rule_name: String,
    },
    /// Add deny rules to an inspected endpoint.
    AddDenyRules {
        host: String,
        port: u32,
        deny_rules: Vec<L7DenyRule>,
    },
    /// Add allow rules to an inspected endpoint.
    AddAllowRules {
        host: String,
        port: u32,
        rules: Vec<L7Rule>,
    },
    /// Take a binary out of a rule.
    RemoveBinary {
        rule_name: String,
        binary_path: String,
    },
}

/// What [`PolicyMergeOp`] stands for.
#[verifier::ext_equal]
#[allow(inconsistent_fields)]
pub enum PolicyMergeOpView {
    AddRule {
        rule_name: Seq<char>,
        rule: NetworkPolicyRuleView,
    },
    RemoveEndpoint {
        rule_name: Option<Seq<char>>,
        host: Seq<char>,
        port: u32,
    },
    RemoveRule {
        rule_name: Seq<char>,
    },
    AddDenyRules {
        host: Seq<char>,
        port: u32,
        deny_rules: Seq<L7DenyRuleView>,
    },
    AddAllowRules {
        host: Seq<char>,
        port: u32,
        rules: Seq<L7RuleView>,
    },
    RemoveBinary {
        rule_name: Seq<char>,
        binary_path: Seq<char>,
    },
}

impl View for PolicyMergeOp {
    type V = PolicyMergeOpView;

    open spec fn view(&self) -> PolicyMergeOpView {
        match *self {
            PolicyMergeOp::AddRule { rule_name, rule } => PolicyMergeOpView::AddRule {
                rule_name: rule_name@,
                rule: rule@,
            },
            PolicyMergeOp::RemoveEndpoint { rule_name, host, port } =>
                PolicyMergeOpView::RemoveEndpoint {
                rule_name: option_view(rule_name),
                host: host@,
                port: port,
            },
            PolicyMergeOp::RemoveRule { rule_name } => PolicyMergeOpView::RemoveRule {
                rule_name: rule_name@,
            },
            PolicyMergeOp::AddDenyRules { host, port, deny_rules } =>
                PolicyMergeOpView::AddDenyRules {
                host: host@,
                port: port,
                deny_rules: views(deny_rules@),
            },
            PolicyMergeOp::AddAllowRules { host, port, rules } => PolicyMergeOpView::AddAllowRules {
                host: host@,
                port: port,
                rules: views(rules@),
            },
            PolicyMergeOp::RemoveBinary { rule_name, binary_path } =>
                PolicyMergeOpView::RemoveBinary {
                rule_name: rule_name@,
                binary_path: binary_path@,
            },
        }
    }
}

impl Clone for PolicyMergeOp {
    fn clone(&self) -> (r: Self)
        ensures
            r@ == self@,
    {
        match self {
            PolicyMergeOp::AddRule { rule_name, rule } => PolicyMergeOp::AddRule {
                rule_name: rule_name.clone(),
                rule: rule.duplicate(),
            },
            PolicyMergeOp::RemoveEndpoint { rule_name, host, port } =>
                PolicyMergeOp::RemoveEndpoint {
                rule_name: duplicate_option(rule_name),
                host: host.clone(),
                port: *port,
            },
            PolicyMergeOp::RemoveRule { rule_name } => PolicyMergeOp::RemoveRule {
                rule_name: rule_name.clone(),
            },
            PolicyMergeOp::AddDenyRules { host, port, deny_rules } => PolicyMergeOp::AddDenyRules {
                host: host.clone(),
                port: *port,
                deny_rules: duplicate_list(deny_rules),
            },
            PolicyMergeOp::AddAllowRules { host, port, rules } => PolicyMergeOp::AddAllowRules {
                host: host.clone(),
                port: *port,
                rules: duplicate_list(rules),
            },
            PolicyMergeOp::RemoveBinary { rule_name, binary_path } => PolicyMergeOp::RemoveBinary {
                rule_name: rule_name.clone(),
                binary_path: binary_path.clone(),
            },
        }
    }
}

/// What a merge kept or rewrote against the letter of the request.
#[derive(Debug, PartialEq, Eq)]
pub enum PolicyMergeWarning {
    ExistingProtocolRetained {
        host: String,
        port: u32,
        existing: String,
        incoming: String,
    },
    ExistingEnforcementRetained {
        host: String,
        port: u32,
        existing: String,
        incoming: String,
    },
    ExistingTlsRetained {
        host: String,
        port: u32,
        existing: String,
        incoming: String,
    },
    ExistingAccessRetained {
        host: String,
        port: u32,
        existing: String,
        incoming: String,
    },
    ExpandedAccessPreset {
        host: String,
        port: u32,
        access: String,
    },
    IgnoredIncomingAccessBecauseRulesExist {
        host: String,
        port: u32,
        incoming: String,
    },
}

/// What [`PolicyMergeWarning`] stands for.
#[verifier::ext_equal]
pub enum PolicyMergeWarningView {
    ExistingProtocolRetained {
        host: Seq<char>,
        port: u32,
        existing: Seq<char>,
        incoming: Seq<char>,
    },
    ExistingEnforcementRetained {
        host: Seq<char>,
        port: u32,
        existing: Seq<char>,
        incoming: Seq<char>,
    },
    ExistingTlsRetained {
        host: Seq<char>,
        port: u32,
        existing: Seq<char>,
        incoming: Seq<char>,
    },
    ExistingAccessRetained {
        host: Seq<char>,
        port: u32,
        existing: Seq<char>,
        incoming: Seq<char>,
    },
    ExpandedAccessPreset {
        host: Seq<char>,
        port: u32,
        access: Seq<char>,
    },
    IgnoredIncomingAccessBecauseRulesExist {
        host: Seq<char>,
        port: u32,
        incoming: Seq<char>,
    },
}

impl View for PolicyMergeWarning {
    type V = PolicyMergeWarningView;

    open spec fn view(&self) -> PolicyMergeWarningView {
        match *self {
            PolicyMergeWarning::ExistingProtocolRetained { host, port, existing, incoming } =>
                PolicyMergeWarningView::ExistingProtocolRetained {
                host: host@,
                port: port,
                existing: existing@,
                incoming: incoming@,
            },
            PolicyMergeWarning::ExistingEnforcementRetained { host, port, existing, incoming } =>
                PolicyMergeWarningView::ExistingEnforcementRetained {
                host: host@,
                port: port,
                existing: existing@,
                incoming: incoming@,
            },
            PolicyMergeWarning::ExistingTlsRetained { host, port, existing, incoming } =>
                PolicyMergeWarningView::ExistingTlsRetained {
                host: host@,
                port: port,
                existing: existing@,
                incoming: incoming@,
            },
            PolicyMergeWarning::ExistingAccessRetained { host, port, existing, incoming } =>
                PolicyMergeWarningView::ExistingAccessRetained {
                host: host@,
                port: port,
                existing: existing@,
                incoming: incoming@,
            },
            PolicyMergeWarning::ExpandedAccessPreset { host, port, access } =>
                PolicyMergeWarningView::ExpandedAccessPreset {
                host: host@,
                port: port,
                access: access@,
            },
            PolicyMergeWarning::IgnoredIncomingAccessBecauseRulesExist { host, port, incoming } =>
                PolicyMergeWarningView::IgnoredIncomingAccessBecauseRulesExist {
                host: host@,
                port: port,
                incoming: incoming@,
            },
        }
    }
}

impl Clone for PolicyMergeWarning {
    fn clone(&self) -> (r: Self)
        ensures
            r@ == self@,
    {
        match self {
            PolicyMergeWarning::ExistingProtocolRetained { host, port, existing, incoming } =>
                PolicyMergeWarning::ExistingProtocolRetained {
                host: host.clone(),
                port: *port,
                existing: existing.clone(),
                incoming: incoming.clone(),
            },
            PolicyMergeWarning::ExistingEnforcementRetained { host, port, existing, incoming } =>
                PolicyMergeWarning::ExistingEnforcementRetained {
                host: host.clone(),
                port: *port,
                existing: existing.clone(),
                incoming: incoming.clone(),
            },
            PolicyMergeWarning::ExistingTlsRetained { host, port, existing, incoming } =>
                PolicyMergeWarning::ExistingTlsRetained {
                host: host.clone(),
                port: *port,
                existing: existing.clone(),
                incoming: incoming.clone(),
            },
            PolicyMergeWarning::ExistingAccessRetained { host, port, existing, incoming } =>
                PolicyMergeWarning::ExistingAccessRetained {
                host: host.clone(),
                port: *port,
                existing: existing.clone(),
                incoming: incoming.clone(),
            },
            PolicyMergeWarning::ExpandedAccessPreset { host, port, access } =>
                PolicyMergeWarning::ExpandedAccessPreset {
                host: host.clone(),
                port: *port,
                access: access.clone(),
            },
            PolicyMergeWarning::IgnoredIncomingAccessBecauseRulesExist { host, port, incoming } =>
                PolicyMergeWarning::IgnoredIncomingAccessBecauseRulesExist {
                host: host.clone(),
                port: *port,
                incoming: incoming.clone(),
            },
        }
    }
}

impl PolicyMergeWarningView {
    /// The words in which this is told.
    pub open spec fn message(self) -> Seq<char> {
        match self {
            PolicyMergeWarningView::ExistingProtocolRetained { host, port, existing, incoming } =>
                "endpoint "@
                + host
                + ":"@
                + decimal(port as nat)
                + " keeps existing protocol '"@
                + existing
                + "' and ignores incoming '"@
                + incoming
                + "'"@,
            PolicyMergeWarningView::ExistingEnforcementRetained { host, port, existing, incoming } =>
                "endpoint "@
                + host
                + ":"@
                + decimal(port as nat)
                + " keeps existing enforcement '"@
                + existing
                + "' and ignores incoming '"@
                + incoming
                + "'"@,
            PolicyMergeWarningView::ExistingTlsRetained { host, port, existing, incoming } =>
                "endpoint "@
                + host
                + ":"@
                + decimal(port as nat)
                + " keeps existing tls mode '"@
                + existing
                + "' and ignores incoming '"@
                + incoming
                + "'"@,
            PolicyMergeWarningView::ExistingAccessRetained { host, port, existing, incoming } =>
                "endpoint "@
                + host
                + ":"@
                + decimal(port as nat)
                + " keeps existing access preset '"@
                + existing
                + "' and ignores incoming '"@
                + incoming
                + "'"@,
            PolicyMergeWarningView::ExpandedAccessPreset { host, port, access } =>
                "expanded access preset '"@
                + access
                + "' to explicit rules for endpoint "@
                + host
                + ":"@
                + decimal(port as nat),
            PolicyMergeWarningView::IgnoredIncomingAccessBecauseRulesExist { host, port, incoming } =>
                "endpoint "@
                + host
                + ":"@
                + decimal(port as nat)
                + " already uses explicit rules; incoming access preset '"@
                + incoming
                + "' was ignored"@,
        }
    }
}

impl PolicyMergeWarning {
    /// The words in which this is told.
    pub fn message(&self) -> (r: String)
        ensures
            r@ == self@.message(),
    {
        match self {
            PolicyMergeWarning::ExistingProtocolRetained { host, port, existing, incoming } => {
                let mut s = String::from_str("endpoint ");
                s.append(host.as_str());
                s.append(":");
                s.append(decimal_text(*port as u64).as_str());
                s.append(" keeps existing protocol '");
                s.append(existing.as_str());
                s.append("' and ignores incoming '");
                s.append(incoming.as_str());
                s.append("'");
                s
            },
            PolicyMergeWarning::ExistingEnforcementRetained { host, port, existing, incoming } => {
                let mut s = String::from_str("endpoint ");
                s.append(host.as_str());
                s.append(":");
                s.append(decimal_text(*port as u64).as_str());
                s.append(" keeps existing enforcement '");
                s.append(existing.as_str());
                s.append("' and ignores incoming '");
                s.append(incoming.as_str());
                s.append("'");
                s
            },
            PolicyMergeWarning::ExistingTlsRetained { host, port, existing, incoming } => {
                let mut s = String::from_str("endpoint ");
                s.append(host.as_str());
                s.append(":");
                s.append(decimal_text(*port as u64).as_str());
                s.append(" keeps existing tls mode '");
                s.append(existing.as_str());
                s.append("' and ignores incoming '");
                s.append(incoming.as_str());
                s.append("'");
                s
            },
            PolicyMergeWarning::ExistingAccessRetained { host, port, existing, incoming } => {
                let mut s = String::from_str("endpoint ");
                s.append(host.as_str());
                s.append(":");
                s.append(decimal_text(*port as u64).as_str());
                s.append(" keeps existing access preset '");
                s.append(existing.as_str());
                s.append("' and ignores incoming '");
                s.append(incoming.as_str());
                s.append("'");
                s
            },
            PolicyMergeWarning::ExpandedAccessPreset { host, port, access } => {
                let mut s = String::from_str("expanded access preset '");
                s.append(access.as_str());
                s.append("' to explicit rules for endpoint ");
                s.append(host.as_str());
                s.append(":");
                s.append(decimal_text(*port as u64).as_str());
                s
            },
            PolicyMergeWarning::IgnoredIncomingAccessBecauseRulesExist { host, port, incoming } => {
                let mut s = String::from_str("endpoint ");
                s.append(host.as_str());
                s.append(":");
                s.append(decimal_text(*port as u64).as_str());
                s.append(" already uses explicit rules; incoming access preset '");
                s.append(incoming.as_str());
                s.append("' was ignored");
                s
            },
        }
    }
}

/// Why a merge was refused.
#[derive(Debug, PartialEq, Eq)]
pub enum PolicyMergeError {
    MissingRuleNameForAddRule,
    /// An `AddRule` operation has no endpoint authorization to merge.
    EmptyAddRuleEndpoints {
        operation_index: usize,
        rule_name: String,
    },
    /// Overlapping endpoints have different effective MCP inspection contracts.
    McpContractConflict {
        operation_index: usize,
        host: String,
        port: u32,
        existing: String,
        incoming: String,
    },
    /// A newly added binary would inherit an existing endpoint authorization that the
    /// incoming rule did not declare.
    NewBinaryWouldInheritAuthorization {
        operation_index: usize,
        rule_name: String,
        binary_path: String,
        host: String,
        ports: Vec<u32>,
    },
    /// Existing binaries would inherit a new or changed endpoint authorization, but the
    /// incoming rule did not declare the existing binary scope.
    ExistingBinariesWouldInheritAuthorization {
        operation_index: usize,
        rule_name: String,
        host: String,
        ports: Vec<u32>,
        undeclared_binaries: Vec<String>,
    },
    InvalidEndpointReference {
        host: String,
        port: u32,
    },
    EndpointNotFound {
        host: String,
        port: u32,
    },
    EndpointHasNoL7Inspection {
        host: String,
        port: u32,
    },
    UnsupportedEndpointProtocol {
        host: String,
        port: u32,
        protocol: String,
    },
    EndpointHasNoAllowBase {
        host: String,
        port: u32,
    },
    UnsupportedAccessPreset {
        host: String,
        port: u32,
        access: String,
    },
}

/// What [`PolicyMergeError`] stands for.
#[verifier::ext_equal]
pub enum PolicyMergeErrorView {
    MissingRuleNameForAddRule,
    EmptyAddRuleEndpoints {
        operation_index: usize,
        rule_name: Seq<char>,
    },
    McpContractConflict {
        operation_index: usize,
        host: Seq<char>,
        port: u32,
        existing: Seq<char>,
        incoming: Seq<char>,
    },
    NewBinaryWouldInheritAuthorization {
        operation_index: usize,
        rule_name: Seq<char>,
        binary_path: Seq<char>,
        host: Seq<char>,
        ports: Seq<u32>,
    },
    ExistingBinariesWouldInheritAuthorization {
        operation_index: usize,
        rule_name: Seq<char>,
        host: Seq<char>,
        ports: Seq<u32>,
        undeclared_binaries: Seq<Seq<char>>,
    },
    InvalidEndpointReference {
        host: Seq<char>,
        port: u32,
    },
    EndpointNotFound {
        host: Seq<char>,
        port: u32,
    },
    EndpointHasNoL7Inspection {
        host: Seq<char>,
        port: u32,
    },
    UnsupportedEndpointProtocol {
        host: Seq<char>,
        port: u32,
        protocol: Seq<char>,
    },
    EndpointHasNoAllowBase {
        host: Seq<char>,
        port: u32,
    },
    UnsupportedAccessPreset {
        host: Seq<char>,
        port: u32,
        access: Seq<char>,
    },
}

impl View for PolicyMergeError {
    type V = PolicyMergeErrorView;

    open spec fn view(&self) -> PolicyMergeErrorView {
        match *self {
            PolicyMergeError::MissingRuleNameForAddRule => PolicyMergeErrorView::MissingRuleNameForAddRule,
            PolicyMergeError::EmptyAddRuleEndpoints { operation_index, rule_name } =>
                PolicyMergeErrorView::EmptyAddRuleEndpoints {
                operation_index: operation_index,
                rule_name: rule_name@,
            },
            PolicyMergeError::McpContractConflict { operation_index, host, port, existing, incoming } =>
                PolicyMergeErrorView::McpContractConflict {
                operation_index: operation_index,
                host: host@,
                port: port,
                existing: existing@,
                incoming: incoming@,
            },
            PolicyMergeError::NewBinaryWouldInheritAuthorization { operation_index, rule_name, binary_path, host, ports } =>
                PolicyMergeErrorView::NewBinaryWouldInheritAuthorization {
                operation_index: operation_index,
                rule_name: rule_name@,
                binary_path: binary_path@,
                host: host@,
                ports: views(ports@),
            },
            PolicyMergeError::ExistingBinariesWouldInheritAuthorization { operation_index, rule_name, host, ports, undeclared_binaries } =>
                PolicyMergeErrorView::ExistingBinariesWouldInheritAuthorization {
                operation_index: operation_index,
                rule_name: rule_name@,
                host: host@,
                ports: views(ports@),
                undeclared_binaries: views(undeclared_binaries@),
            },
            PolicyMergeError::InvalidEndpointReference { host, port } =>
                PolicyMergeErrorView::InvalidEndpointReference {
                host: host@,
                port: port,
            },
            PolicyMergeError::EndpointNotFound { host, port } =>
                PolicyMergeErrorView::EndpointNotFound {
                host: host@,
                port: port,
            },
            PolicyMergeError::EndpointHasNoL7Inspection { host, port } =>
                PolicyMergeErrorView::EndpointHasNoL7Inspection {
                host: host@,
                port: port,
            },
            PolicyMergeError::UnsupportedEndpointProtocol { host, port, protocol } =>
                PolicyMergeErrorView::UnsupportedEndpointProtocol {
                host: host@,
                port: port,
                protocol: protocol@,
            },
            PolicyMergeError::EndpointHasNoAllowBase { host, port } =>
                PolicyMergeErrorView::EndpointHasNoAllowBase {
                host: host@,
                port: port,
            },
            PolicyMergeError::UnsupportedAccessPreset { host, port, access } =>
                PolicyMergeErrorView::UnsupportedAccessPreset {
                host: host@,
                port: port,
                access: access@,
            },
        }
    }
}

impl Clone for PolicyMergeError {
    fn clone(&self) -> (r: Self)
        ensures
            r@ == self@,
    {
        match self {
            PolicyMergeError::MissingRuleNameForAddRule => PolicyMergeError::MissingRuleNameForAddRule,
            PolicyMergeError::EmptyAddRuleEndpoints { operation_index, rule_name } =>
                PolicyMergeError::EmptyAddRuleEndpoints {
                operation_index: *operation_index,
                rule_name: rule_name.clone(),
            },
            PolicyMergeError::McpContractConflict { operation_index, host, port, existing, incoming } =>
                PolicyMergeError::McpContractConflict {
                operation_index: *operation_index,
                host: host.clone(),
                port: *port,
                existing: existing.clone(),
                incoming: incoming.clone(),
            },
            PolicyMergeError::NewBinaryWouldInheritAuthorization { operation_index, rule_name, binary_path, host, ports } =>
                PolicyMergeError::NewBinaryWouldInheritAuthorization {
                operation_index: *operation_index,
                rule_name: rule_name.clone(),
                binary_path: binary_path.clone(),
                host: host.clone(),
                ports: duplicate_list(ports),
            },
            PolicyMergeError::ExistingBinariesWouldInheritAuthorization { operation_index, rule_name, host, ports, undeclared_binaries } =>
                PolicyMergeError::ExistingBinariesWouldInheritAuthorization {
                operation_index: *operation_index,
                rule_name: rule_name.clone(),
                host: host.clone(),
                ports: duplicate_list(ports),
                undeclared_binaries: duplicate_list(undeclared_binaries),
            },
            PolicyMergeError::InvalidEndpointReference { host, port } =>
                PolicyMergeError::InvalidEndpointReference {
                host: host.clone(),
                port: *port,
            },
            PolicyMergeError::EndpointNotFound { host, port } =>
                PolicyMergeError::EndpointNotFound {
                host: host.clone(),
                port: *port,
            },
            PolicyMergeError::EndpointHasNoL7Inspection { host, port } =>
                PolicyMergeError::EndpointHasNoL7Inspection {
                host: host.clone(),
                port: *port,
            },
            PolicyMergeError::UnsupportedEndpointProtocol { host, port, protocol } =>
                PolicyMergeError::UnsupportedEndpointProtocol {
                host: host.clone(),
                port: *port,
                protocol: protocol.clone(),
            },
            PolicyMergeError::EndpointHasNoAllowBase { host, port } =>
                PolicyMergeError::EndpointHasNoAllowBase {
                host: host.clone(),
                port: *port,
            },
            PolicyMergeError::UnsupportedAccessPreset { host, port, access } =>
                PolicyMergeError::UnsupportedAccessPreset {
                host: host.clone(),
                port: *port,
                access: access.clone(),
            },
        }
    }
}

impl PolicyMergeErrorView {
    /// The words in which this is told.
    pub open spec fn message(self) -> Seq<char> {
        match self {
            PolicyMergeErrorView::MissingRuleNameForAddRule => "add-rule operation requires a rule name"@,
            PolicyMergeErrorView::EmptyAddRuleEndpoints { operation_index, rule_name } =>
                "merge operation "@
                + decimal(operation_index as nat)
                + " add-rule '"@
                + rule_name
                + "' must contain at least one endpoint"@,
            PolicyMergeErrorView::McpContractConflict { operation_index, host, port, existing, incoming } =>
                "merge operation "@
                + decimal(operation_index as nat)
                + " cannot combine MCP contracts at "@
                + host
                + ":"@
                + decimal(port as nat)
                + ": existing "@
                + existing
                + ", incoming "@
                + incoming,
            PolicyMergeErrorView::NewBinaryWouldInheritAuthorization { operation_index, rule_name, binary_path, host, ports } =>
                "merge operation "@
                + decimal(operation_index as nat)
                + " add-rule '"@
                + rule_name
                + "' would grant new binary '"@
                + binary_path
                + "' undeclared authorization for "@
                + host
                + " on ports "@
                + number_list(ports),
            PolicyMergeErrorView::ExistingBinariesWouldInheritAuthorization { operation_index, rule_name, host, ports, undeclared_binaries } =>
                "merge operation "@
                + decimal(operation_index as nat)
                + " add-rule '"@
                + rule_name
                + "' would grant existing binaries new or changed authorization for "@
                + host
                + " on ports "@
                + number_list(ports)
                + "; also declare "@
                + joined(undeclared_binaries, ", "@),
            PolicyMergeErrorView::InvalidEndpointReference { host, port } =>
                "invalid endpoint reference '"@
                + host
                + ":"@
                + decimal(port as nat)
                + "'"@,
            PolicyMergeErrorView::EndpointNotFound { host, port } => "endpoint "@
                + host
                + ":"@
                + decimal(port as nat)
                + " was not found in the current policy"@,
            PolicyMergeErrorView::EndpointHasNoL7Inspection { host, port } => "endpoint "@
                + host
                + ":"@
                + decimal(port as nat)
                + " has no L7 inspection configured (protocol is empty)"@,
            PolicyMergeErrorView::UnsupportedEndpointProtocol { host, port, protocol } =>
                "endpoint "@
                + host
                + ":"@
                + decimal(port as nat)
                + " uses unsupported protocol '"@
                + protocol
                + "'; this operation currently supports only protocol 'rest' or 'websocket'"@,
            PolicyMergeErrorView::EndpointHasNoAllowBase { host, port } => "endpoint "@
                + host
                + ":"@
                + decimal(port as nat)
                + " has no base allow set; configure access or explicit allow rules before adding deny rules"@,
            PolicyMergeErrorView::UnsupportedAccessPreset { host, port, access } => "endpoint "@
                + host
                + ":"@
                + decimal(port as nat)
                + " uses unsupported access preset '"@
                + access
                + "'"@,
        }
    }
}

impl PolicyMergeError {
    /// The words in which this is told.
    pub fn message(&self) -> (r: String)
        ensures
            r@ == self@.message(),
    {
        match self {
            PolicyMergeError::MissingRuleNameForAddRule => {
                let mut s = String::from_str("add-rule operation requires a rule name");
                s
            },
            PolicyMergeError::EmptyAddRuleEndpoints { operation_index, rule_name } => {
                let mut s = String::from_str("merge operation ");
                s.append(decimal_text(*operation_index as u64).as_str());
                s.append(" add-rule '");
                s.append(rule_name.as_str());
                s.append("' must contain at least one endpoint");
                s
            },
            PolicyMergeError::McpContractConflict { operation_index, host, port, existing, incoming } =>
                {
                let mut s = String::from_str("merge operation ");
                s.append(decimal_text(*operation_index as u64).as_str());
                s.append(" cannot combine MCP contracts at ");
                s.append(host.as_str());
                s.append(":");
                s.append(decimal_text(*port as u64).as_str());
                s.append(": existing ");
                s.append(existing.as_str());
                s.append(", incoming ");
                s.append(incoming.as_str());
                s
            },
            PolicyMergeError::NewBinaryWouldInheritAuthorization { operation_index, rule_name, binary_path, host, ports } =>
                {
                let mut s = String::from_str("merge operation ");
                s.append(decimal_text(*operation_index as u64).as_str());
                s.append(" add-rule '");
                s.append(rule_name.as_str());
                s.append("' would grant new binary '");
                s.append(binary_path.as_str());
                s.append("' undeclared authorization for ");
                s.append(host.as_str());
                s.append(" on ports ");
                s.append(number_list_text(ports).as_str());
                proof {
                    lemma_number_views(ports@);
                }
                s
            },
            PolicyMergeError::ExistingBinariesWouldInheritAuthorization { operation_index, rule_name, host, ports, undeclared_binaries } =>
                {
                let mut s = String::from_str("merge operation ");
                s.append(decimal_text(*operation_index as u64).as_str());
                s.append(" add-rule '");
                s.append(rule_name.as_str());
                s.append("' would grant existing binaries new or changed authorization for ");
                s.append(host.as_str());
                s.append(" on ports ");
                s.append(number_list_text(ports).as_str());
                s.append("; also declare ");
                s.append(join(undeclared_binaries, ", ").as_str());
                proof {
                    lemma_number_views(ports@);
                }
                s
            },
            PolicyMergeError::InvalidEndpointReference { host, port } => {
                let mut s = String::from_str("invalid endpoint reference '");
                s.append(host.as_str());
                s.append(":");
                s.append(decimal_text(*port as u64).as_str());
                s.append("'");
                s
            },
            PolicyMergeError::EndpointNotFound { host, port } => {
                let mut s = String::from_str("endpoint ");
                s.append(host.as_str());
                s.append(":");
                s.append(decimal_text(*port as u64).as_str());
                s.append(" was not found in the current policy");
                s
            },
            PolicyMergeError::EndpointHasNoL7Inspection { host, port } => {
                let mut s = String::from_str("endpoint ");
                s.append(host.as_str());
                s.append(":");
                s.append(decimal_text(*port as u64).as_str());
                s.append(" has no L7 inspection configured (protocol is empty)");
                s
            },
            PolicyMergeError::UnsupportedEndpointProtocol { host, port, protocol } => {
                let mut s = String::from_str("endpoint ");
                s.append(host.as_str());
                s.append(":");
                s.append(decimal_text(*port as u64).as_str());
                s.append(" uses unsupported protocol '");
                s.append(protocol.as_str());
                s.append("'; this operation currently supports only protocol 'rest' or 'websocket'");
                s
            },
            PolicyMergeError::EndpointHasNoAllowBase { host, port } => {
                let mut s = String::from_str("endpoint ");
                s.append(host.as_str());
                s.append(":");
                s.append(decimal_text(*port as u64).as_str());
                s.append(" has no base allow set; configure access or explicit allow rules before adding deny rules");
                s
            },
            PolicyMergeError::UnsupportedAccessPreset { host, port, access } => {
                let mut s = String::from_str("endpoint ");
                s.append(host.as_str());
                s.append(":");
                s.append(decimal_text(*port as u64).as_str());
                s.append(" uses unsupported access preset '");
                s.append(access.as_str());
                s.append("'");
                s
            },
        }
    }
}

} // verus!
