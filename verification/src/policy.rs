//! The policy of a sandbox, and what its parts stand for.
use vstd::prelude::*;

use crate::string_map::StringMap;
use crate::values::{
    duplicate_list, duplicate_option, option_view, same_flag, same_list, same_option, views, Plain,
};

verus! {

/// What the sandbox may read and write.
#[derive(Debug, PartialEq, Default)]
pub struct FilesystemPolicy {
    pub include_workdir: bool,
    pub read_only: Vec<String>,
    pub read_write: Vec<String>,
}

/// What [`FilesystemPolicy`] stands for.
#[verifier::ext_equal]
pub struct FilesystemPolicyView {
    pub include_workdir: bool,
    pub read_only: Seq<Seq<char>>,
    pub read_write: Seq<Seq<char>>,
}

impl View for FilesystemPolicy {
    type V = FilesystemPolicyView;

    open spec fn view(&self) -> FilesystemPolicyView {
        FilesystemPolicyView {
            include_workdir: self.include_workdir,
            read_only: views(self.read_only@),
            read_write: views(self.read_write@),
        }
    }
}

impl Plain for FilesystemPolicy {
    fn same(&self, other: &Self) -> (r: bool) {
        self.include_workdir == other.include_workdir
            && same_list(&self.read_only, &other.read_only)
            && same_list(&self.read_write, &other.read_write)
    }

    fn duplicate(&self) -> (r: Self) {
        FilesystemPolicy {
            include_workdir: self.include_workdir,
            read_only: duplicate_list(&self.read_only),
            read_write: duplicate_list(&self.read_write),
        }
    }
}

impl Clone for FilesystemPolicy {
    fn clone(&self) -> (r: Self)
        ensures
            r@ == self@,
    {
        self.duplicate()
    }
}

/// How strictly kernel filesystem rules are applied.
#[derive(Debug, PartialEq, Default)]
pub struct LandlockPolicy {
    pub compatibility: String,
}

/// What [`LandlockPolicy`] stands for.
#[verifier::ext_equal]
pub struct LandlockPolicyView {
    pub compatibility: Seq<char>,
}

impl View for LandlockPolicy {
    type V = LandlockPolicyView;

    open spec fn view(&self) -> LandlockPolicyView {
        LandlockPolicyView {
            compatibility: self.compatibility@,
        }
    }
}

impl Plain for LandlockPolicy {
    fn same(&self, other: &Self) -> (r: bool) {
        self.compatibility.same(&other.compatibility)
    }

    fn duplicate(&self) -> (r: Self) {
        LandlockPolicy {
            compatibility: self.compatibility.clone(),
        }
    }
}

impl Clone for LandlockPolicy {
    fn clone(&self) -> (r: Self)
        ensures
            r@ == self@,
    {
        self.duplicate()
    }
}

/// The account that the sandboxed process runs as.
#[derive(Debug, PartialEq, Default)]
pub struct ProcessPolicy {
    pub run_as_user: String,
    pub run_as_group: String,
}

/// What [`ProcessPolicy`] stands for.
#[verifier::ext_equal]
pub struct ProcessPolicyView {
    pub run_as_user: Seq<char>,
    pub run_as_group: Seq<char>,
}

impl View for ProcessPolicy {
    type V = ProcessPolicyView;

    open spec fn view(&self) -> ProcessPolicyView {
        ProcessPolicyView {
            run_as_user: self.run_as_user@,
            run_as_group: self.run_as_group@,
        }
    }
}

impl Plain for ProcessPolicy {
    fn same(&self, other: &Self) -> (r: bool) {
        self.run_as_user.same(&other.run_as_user)
            && self.run_as_group.same(&other.run_as_group)
    }

    fn duplicate(&self) -> (r: Self) {
        ProcessPolicy {
            run_as_user: self.run_as_user.clone(),
            run_as_group: self.run_as_group.clone(),
        }
    }
}

impl Clone for ProcessPolicy {
    fn clone(&self) -> (r: Self)
        ensures
            r@ == self@,
    {
        self.duplicate()
    }
}

/// A GraphQL operation that a persisted query stands for.
#[derive(Debug, PartialEq, Default)]
pub struct GraphqlOperation {
    pub operation_type: String,
    pub operation_name: String,
    pub fields: Vec<String>,
}

/// What [`GraphqlOperation`] stands for.
#[verifier::ext_equal]
pub struct GraphqlOperationView {
    pub operation_type: Seq<char>,
    pub operation_name: Seq<char>,
    pub fields: Seq<Seq<char>>,
}

impl View for GraphqlOperation {
    type V = GraphqlOperationView;

    open spec fn view(&self) -> GraphqlOperationView {
        GraphqlOperationView {
            operation_type: self.operation_type@,
            operation_name: self.operation_name@,
            fields: views(self.fields@),
        }
    }
}

impl Plain for GraphqlOperation {
    fn same(&self, other: &Self) -> (r: bool) {
        self.operation_type.same(&other.operation_type)
            && self.operation_name.same(&other.operation_name)
            && same_list(&self.fields, &other.fields)
    }

    fn duplicate(&self) -> (r: Self) {
        GraphqlOperation {
            operation_type: self.operation_type.clone(),
            operation_name: self.operation_name.clone(),
            fields: duplicate_list(&self.fields),
        }
    }
}

impl Clone for GraphqlOperation {
    fn clone(&self) -> (r: Self)
        ensures
            r@ == self@,
    {
        self.duplicate()
    }
}

/// What a query or JSON-RPC parameter must match.
#[derive(Debug, PartialEq, Default)]
pub struct L7QueryMatcher {
    pub glob: String,
    pub any: Vec<String>,
}

/// What [`L7QueryMatcher`] stands for.
#[verifier::ext_equal]
pub struct L7QueryMatcherView {
    pub glob: Seq<char>,
    pub any: Seq<Seq<char>>,
}

impl View for L7QueryMatcher {
    type V = L7QueryMatcherView;

    open spec fn view(&self) -> L7QueryMatcherView {
        L7QueryMatcherView {
            glob: self.glob@,
            any: views(self.any@),
        }
    }
}

impl Plain for L7QueryMatcher {
    fn same(&self, other: &Self) -> (r: bool) {
        self.glob.same(&other.glob)
            && same_list(&self.any, &other.any)
    }

    fn duplicate(&self) -> (r: Self) {
        L7QueryMatcher {
            glob: self.glob.clone(),
            any: duplicate_list(&self.any),
        }
    }
}

impl Clone for L7QueryMatcher {
    fn clone(&self) -> (r: Self)
        ensures
            r@ == self@,
    {
        self.duplicate()
    }
}

/// What an allow rule matches.
#[derive(Debug, PartialEq, Default)]
pub struct L7Allow {
    pub method: String,
    pub path: String,
    pub command: String,
    pub query: StringMap<L7QueryMatcher>,
    pub operation_type: String,
    pub operation_name: String,
    pub fields: Vec<String>,
    pub params: StringMap<L7QueryMatcher>,
}

/// What [`L7Allow`] stands for.
#[verifier::ext_equal]
pub struct L7AllowView {
    pub method: Seq<char>,
    pub path: Seq<char>,
    pub command: Seq<char>,
    pub query: Map<Seq<char>, L7QueryMatcherView>,
    pub operation_type: Seq<char>,
    pub operation_name: Seq<char>,
    pub fields: Seq<Seq<char>>,
    pub params: Map<Seq<char>, L7QueryMatcherView>,
}

impl View for L7Allow {
    type V = L7AllowView;

    open spec fn view(&self) -> L7AllowView {
        L7AllowView {
            method: self.method@,
            path: self.path@,
            command: self.command@,
            query: self.query@,
            operation_type: self.operation_type@,
            operation_name: self.operation_name@,
            fields: views(self.fields@),
            params: self.params@,
        }
    }
}

impl Plain for L7Allow {
    fn same(&self, other: &Self) -> (r: bool) {
        self.method.same(&other.method)
            && self.path.same(&other.path)
            && self.command.same(&other.command)
            && self.query.same(&other.query)
            && self.operation_type.same(&other.operation_type)
            && self.operation_name.same(&other.operation_name)
            && same_list(&self.fields, &other.fields)
            && self.params.same(&other.params)
    }

    fn duplicate(&self) -> (r: Self) {
        L7Allow {
            method: self.method.clone(),
            path: self.path.clone(),
            command: self.command.clone(),
            query: self.query.duplicate(),
            operation_type: self.operation_type.clone(),
            operation_name: self.operation_name.clone(),
            fields: duplicate_list(&self.fields),
            params: self.params.duplicate(),
        }
    }
}

impl Clone for L7Allow {
    fn clone(&self) -> (r: Self)
        ensures
            r@ == self@,
    {
        self.duplicate()
    }
}

/// An allow rule of an inspected endpoint.
#[derive(Debug, PartialEq, Default)]
pub struct L7Rule {
    pub allow: Option<L7Allow>,
}

/// What [`L7Rule`] stands for.
#[verifier::ext_equal]
pub struct L7RuleView {
    pub allow: Option<L7AllowView>,
}

impl View for L7Rule {
    type V = L7RuleView;

    open spec fn view(&self) -> L7RuleView {
        L7RuleView {
            allow: option_view(self.allow),
        }
    }
}

impl Plain for L7Rule {
    fn same(&self, other: &Self) -> (r: bool) {
        same_option(&self.allow, &other.allow)
    }

    fn duplicate(&self) -> (r: Self) {
        L7Rule {
            allow: duplicate_option(&self.allow),
        }
    }
}

impl Clone for L7Rule {
    fn clone(&self) -> (r: Self)
        ensures
            r@ == self@,
    {
        self.duplicate()
    }
}

/// A deny rule of an inspected endpoint.
#[derive(Debug, PartialEq, Default)]
pub struct L7DenyRule {
    pub method: String,
    pub path: String,
    pub command: String,
    pub query: StringMap<L7QueryMatcher>,
    pub operation_type: String,
    pub operation_name: String,
    pub fields: Vec<String>,
    pub params: StringMap<L7QueryMatcher>,
}

/// What [`L7DenyRule`] stands for.
#[verifier::ext_equal]
pub struct L7DenyRuleView {
    pub method: Seq<char>,
    pub path: Seq<char>,
    pub command: Seq<char>,
    pub query: Map<Seq<char>, L7QueryMatcherView>,
    pub operation_type: Seq<char>,
    pub operation_name: Seq<char>,
    pub fields: Seq<Seq<char>>,
    pub params: Map<Seq<char>, L7QueryMatcherView>,
}

impl View for L7DenyRule {
    type V = L7DenyRuleView;

    open spec fn view(&self) -> L7DenyRuleView {
        L7DenyRuleView {
            method: self.method@,
            path: self.path@,
            command: self.command@,
            query: self.query@,
            operation_type: self.operation_type@,
            operation_name: self.operation_name@,
            fields: views(self.fields@),
            params: self.params@,
        }
    }
}

impl Plain for L7DenyRule {
    fn same(&self, other: &Self) -> (r: bool) {
        self.method.same(&other.method)
            && self.path.same(&other.path)
            && self.command.same(&other.command)
            && self.query.same(&other.query)
            && self.operation_type.same(&other.operation_type)
            && self.operation_name.same(&other.operation_name)
            && same_list(&self.fields, &other.fields)
            && self.params.same(&other.params)
    }

    fn duplicate(&self) -> (r: Self) {
        L7DenyRule {
            method: self.method.clone(),
            path: self.path.clone(),
            command: self.command.clone(),
            query: self.query.duplicate(),
            operation_type: self.operation_type.clone(),
            operation_name: self.operation_name.clone(),
            fields: duplicate_list(&self.fields),
            params: self.params.duplicate(),
        }
    }
}

impl Clone for L7DenyRule {
    fn clone(&self) -> (r: Self)
        ensures
            r@ == self@,
    {
        self.duplicate()
    }
}

/// How MCP traffic is inspected; what is left out has a default.
#[derive(Debug, PartialEq, Default)]
pub struct McpOptions {
    pub strict_tool_names: Option<bool>,
    pub allow_all_known_mcp_methods: Option<bool>,
}

/// What [`McpOptions`] stands for.
#[verifier::ext_equal]
pub struct McpOptionsView {
    pub strict_tool_names: Option<bool>,
    pub allow_all_known_mcp_methods: Option<bool>,
}

impl View for McpOptions {
    type V = McpOptionsView;

    open spec fn view(&self) -> McpOptionsView {
        McpOptionsView {
            strict_tool_names: self.strict_tool_names,
            allow_all_known_mcp_methods: self.allow_all_known_mcp_methods,
        }
    }
}

impl Plain for McpOptions {
    fn same(&self, other: &Self) -> (r: bool) {
        same_flag(self.strict_tool_names, other.strict_tool_names)
            && same_flag(self.allow_all_known_mcp_methods, other.allow_all_known_mcp_methods)
    }

    fn duplicate(&self) -> (r: Self) {
        McpOptions {
            strict_tool_names: self.strict_tool_names,
            allow_all_known_mcp_methods: self.allow_all_known_mcp_methods,
        }
    }
}

impl Clone for McpOptions {
    fn clone(&self) -> (r: Self)
        ensures
            r@ == self@,
    {
        self.duplicate()
    }
}

/// A destination, and what is allowed there.
#[derive(Debug, PartialEq, Default)]
pub struct NetworkEndpoint {
    pub host: String,
    pub port: u32,
    pub ports: Vec<u32>,
    pub path: String,
    pub protocol: String,
    pub tls: String,
    pub enforcement: String,
    pub access: String,
    pub rules: Vec<L7Rule>,
    pub deny_rules: Vec<L7DenyRule>,
    pub allowed_ips: Vec<String>,
    pub allow_encoded_slash: bool,
    pub websocket_credential_rewrite: bool,
    pub request_body_credential_rewrite: bool,
    pub advisor_proposed: bool,
    pub persisted_queries: String,
    pub graphql_persisted_queries: StringMap<GraphqlOperation>,
    pub graphql_max_body_bytes: u32,
    pub credential_signing: String,
    pub signing_service: String,
    pub signing_region: String,
    pub json_rpc_max_body_bytes: u32,
    pub mcp: Option<McpOptions>,
}

/// What [`NetworkEndpoint`] stands for.
#[verifier::ext_equal]
pub struct NetworkEndpointView {
    pub host: Seq<char>,
    pub port: u32,
    pub ports: Seq<u32>,
    pub path: Seq<char>,
    pub protocol: Seq<char>,
    pub tls: Seq<char>,
    pub enforcement: Seq<char>,
    pub access: Seq<char>,
    pub rules: Seq<L7RuleView>,
    pub deny_rules: Seq<L7DenyRuleView>,
    pub allowed_ips: Seq<Seq<char>>,
    pub allow_encoded_slash: bool,
    pub websocket_credential_rewrite: bool,
    pub request_body_credential_rewrite: bool,
    pub advisor_proposed: bool,
    pub persisted_queries: Seq<char>,
    pub graphql_persisted_queries: Map<Seq<char>, GraphqlOperationView>,
    pub graphql_max_body_bytes: u32,
    pub credential_signing: Seq<char>,
    pub signing_service: Seq<char>,
    pub signing_region: Seq<char>,
    pub json_rpc_max_body_bytes: u32,
    pub mcp: Option<McpOptionsView>,
}

impl View for NetworkEndpoint {
    type V = NetworkEndpointView;

    open spec fn view(&self) -> NetworkEndpointView {
        NetworkEndpointView {
            host: self.host@,
            port: self.port,
            ports: views(self.ports@),
            path: self.path@,
            protocol: self.protocol@,
            tls: self.tls@,
            enforcement: self.enforcement@,
            access: self.access@,
            rules: views(self.rules@),
            deny_rules: views(self.deny_rules@),
            allowed_ips: views(self.allowed_ips@),
            allow_encoded_slash: self.allow_encoded_slash,
            websocket_credential_rewrite: self.websocket_credential_rewrite,
            request_body_credential_rewrite: self.request_body_credential_rewrite,
            advisor_proposed: self.advisor_proposed,
            persisted_queries: self.persisted_queries@,
            graphql_persisted_queries: self.graphql_persisted_queries@,
            graphql_max_body_bytes: self.graphql_max_body_bytes,
            credential_signing: self.credential_signing@,
            signing_service: self.signing_service@,
            signing_region: self.signing_region@,
            json_rpc_max_body_bytes: self.json_rpc_max_body_bytes,
            mcp: option_view(self.mcp),
        }
    }
}

impl Plain for NetworkEndpoint {
    fn same(&self, other: &Self) -> (r: bool) {
        self.host.same(&other.host)
            && self.port == other.port
            && same_list(&self.ports, &other.ports)
            && self.path.same(&other.path)
            && self.protocol.same(&other.protocol)
            && self.tls.same(&other.tls)
            && self.enforcement.same(&other.enforcement)
            && self.access.same(&other.access)
            && same_list(&self.rules, &other.rules)
            && same_list(&self.deny_rules, &other.deny_rules)
            && same_list(&self.allowed_ips, &other.allowed_ips)
            && self.allow_encoded_slash == other.allow_encoded_slash
            && self.websocket_credential_rewrite == other.websocket_credential_rewrite
            && self.request_body_credential_rewrite == other.request_body_credential_rewrite
            && self.advisor_proposed == other.advisor_proposed
            && self.persisted_queries.same(&other.persisted_queries)
            && self.graphql_persisted_queries.same(&other.graphql_persisted_queries)
            && self.graphql_max_body_bytes == other.graphql_max_body_bytes
            && self.credential_signing.same(&other.credential_signing)
            && self.signing_service.same(&other.signing_service)
            && self.signing_region.same(&other.signing_region)
            && self.json_rpc_max_body_bytes == other.json_rpc_max_body_bytes
            && same_option(&self.mcp, &other.mcp)
    }

    fn duplicate(&self) -> (r: Self) {
        NetworkEndpoint {
            host: self.host.clone(),
            port: self.port,
            ports: duplicate_list(&self.ports),
            path: self.path.clone(),
            protocol: self.protocol.clone(),
            tls: self.tls.clone(),
            enforcement: self.enforcement.clone(),
            access: self.access.clone(),
            rules: duplicate_list(&self.rules),
            deny_rules: duplicate_list(&self.deny_rules),
            allowed_ips: duplicate_list(&self.allowed_ips),
            allow_encoded_slash: self.allow_encoded_slash,
            websocket_credential_rewrite: self.websocket_credential_rewrite,
            request_body_credential_rewrite: self.request_body_credential_rewrite,
            advisor_proposed: self.advisor_proposed,
            persisted_queries: self.persisted_queries.clone(),
            graphql_persisted_queries: self.graphql_persisted_queries.duplicate(),
            graphql_max_body_bytes: self.graphql_max_body_bytes,
            credential_signing: self.credential_signing.clone(),
            signing_service: self.signing_service.clone(),
            signing_region: self.signing_region.clone(),
            json_rpc_max_body_bytes: self.json_rpc_max_body_bytes,
            mcp: duplicate_option(&self.mcp),
        }
    }
}

impl Clone for NetworkEndpoint {
    fn clone(&self) -> (r: Self)
        ensures
            r@ == self@,
    {
        self.duplicate()
    }
}

/// A program; `harness` marks one that an advisor proposed.
#[derive(Debug, PartialEq, Default)]
pub struct NetworkBinary {
    pub path: String,
    pub harness: bool,
}

/// What [`NetworkBinary`] stands for.
#[verifier::ext_equal]
pub struct NetworkBinaryView {
    pub path: Seq<char>,
    pub harness: bool,
}

impl View for NetworkBinary {
    type V = NetworkBinaryView;

    open spec fn view(&self) -> NetworkBinaryView {
        NetworkBinaryView {
            path: self.path@,
            harness: self.harness,
        }
    }
}

impl Plain for NetworkBinary {
    fn same(&self, other: &Self) -> (r: bool) {
        self.path.same(&other.path)
            && self.harness == other.harness
    }

    fn duplicate(&self) -> (r: Self) {
        NetworkBinary {
            path: self.path.clone(),
            harness: self.harness,
        }
    }
}

impl Clone for NetworkBinary {
    fn clone(&self) -> (r: Self)
        ensures
            r@ == self@,
    {
        self.duplicate()
    }
}

/// A rule: each of its binaries may reach each of its endpoints. No binaries means any binary.
#[derive(Debug, PartialEq, Default)]
pub struct NetworkPolicyRule {
    pub name: String,
    pub endpoints: Vec<NetworkEndpoint>,
    pub binaries: Vec<NetworkBinary>,
}

/// What [`NetworkPolicyRule`] stands for.
#[verifier::ext_equal]
pub struct NetworkPolicyRuleView {
    pub name: Seq<char>,
    pub endpoints: Seq<NetworkEndpointView>,
    pub binaries: Seq<NetworkBinaryView>,
}

impl View for NetworkPolicyRule {
    type V = NetworkPolicyRuleView;

    open spec fn view(&self) -> NetworkPolicyRuleView {
        NetworkPolicyRuleView {
            name: self.name@,
            endpoints: views(self.endpoints@),
            binaries: views(self.binaries@),
        }
    }
}

impl Plain for NetworkPolicyRule {
    fn same(&self, other: &Self) -> (r: bool) {
        self.name.same(&other.name)
            && same_list(&self.endpoints, &other.endpoints)
            && same_list(&self.binaries, &other.binaries)
    }

    fn duplicate(&self) -> (r: Self) {
        NetworkPolicyRule {
            name: self.name.clone(),
            endpoints: duplicate_list(&self.endpoints),
            binaries: duplicate_list(&self.binaries),
        }
    }
}

impl Clone for NetworkPolicyRule {
    fn clone(&self) -> (r: Self)
        ensures
            r@ == self@,
    {
        self.duplicate()
    }
}

/// The policy of a sandbox.
#[derive(Debug, PartialEq, Default)]
pub struct SandboxPolicy {
    pub version: u32,
    pub filesystem: Option<FilesystemPolicy>,
    pub landlock: Option<LandlockPolicy>,
    pub process: Option<ProcessPolicy>,
    pub network_policies: StringMap<NetworkPolicyRule>,
}

/// What [`SandboxPolicy`] stands for.
#[verifier::ext_equal]
pub struct SandboxPolicyView {
    pub version: u32,
    pub filesystem: Option<FilesystemPolicyView>,
    pub landlock: Option<LandlockPolicyView>,
    pub process: Option<ProcessPolicyView>,
    pub network_policies: Map<Seq<char>, NetworkPolicyRuleView>,
}

impl View for SandboxPolicy {
    type V = SandboxPolicyView;

    open spec fn view(&self) -> SandboxPolicyView {
        SandboxPolicyView {
            version: self.version,
            filesystem: option_view(self.filesystem),
            landlock: option_view(self.landlock),
            process: option_view(self.process),
            network_policies: self.network_policies@,
        }
    }
}

impl Plain for SandboxPolicy {
    fn same(&self, other: &Self) -> (r: bool) {
        self.version == other.version
            && same_option(&self.filesystem, &other.filesystem)
            && same_option(&self.landlock, &other.landlock)
            && same_option(&self.process, &other.process)
            && self.network_policies.same(&other.network_policies)
    }

    fn duplicate(&self) -> (r: Self) {
        SandboxPolicy {
            version: self.version,
            filesystem: duplicate_option(&self.filesystem),
            landlock: duplicate_option(&self.landlock),
            process: duplicate_option(&self.process),
            network_policies: self.network_policies.duplicate(),
        }
    }
}

impl Clone for SandboxPolicy {
    fn clone(&self) -> (r: Self)
        ensures
            r@ == self@,
    {
        self.duplicate()
    }
}

} // verus!
