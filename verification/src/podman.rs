//! The configuration of the Podman compute driver.
use vstd::prelude::*;

verus! {

pub const DEFAULT_SANDBOX_IMAGE: &'static str = "ghcr.io/nvidia/openshell/sandbox:latest";

pub const DEFAULT_SUPERVISOR_IMAGE: &'static str = "ghcr.io/nvidia/openshell/supervisor:latest";

pub const DEFAULT_SERVER_PORT: u16 = 8080;

pub const DEFAULT_STOP_TIMEOUT_SECS: u32 = 10;

pub const DEFAULT_NETWORK_NAME: &'static str = "openshell";

pub const DEFAULT_SANDBOX_PIDS_LIMIT: i64 = 2048;

pub const DEFAULT_HEALTH_CHECK_INTERVAL_SECS: u64 = 10;

/// When an image is pulled.
#[derive(Debug, Clone, Copy, PartialEq, Eq, Structural)]
pub enum ImagePullPolicy {
    Always,
    Missing,
    Never,
    Newer,
}

impl Default for ImagePullPolicy {
    fn default() -> (r: Self)
        ensures
            r == ImagePullPolicy::Missing,
    {
        ImagePullPolicy::Missing
    }
}

/// The configuration of the Podman compute driver.
#[derive(Debug, PartialEq, Eq)]
pub struct PodmanComputeConfig {
    pub socket_path: Option<String>,
    pub default_image: String,
    pub image_pull_policy: ImagePullPolicy,
    pub grpc_endpoint: String,
    pub gateway_port: u16,
    pub host_gateway_ip: String,
    pub sandbox_ssh_socket_path: String,
    pub network_name: String,
    pub stop_timeout_secs: u32,
    pub supervisor_image: String,
    pub guest_tls_ca: Option<String>,
    pub guest_tls_cert: Option<String>,
    pub guest_tls_key: Option<String>,
    pub sandbox_pids_limit: i64,
    pub enable_bind_mounts: bool,
    pub health_check_interval_secs: u64,
}

impl Default for PodmanComputeConfig {
    fn default() -> (r: Self)
        ensures
            r.socket_path is None,
            r.default_image@ == DEFAULT_SANDBOX_IMAGE@,
            r.image_pull_policy == ImagePullPolicy::Missing,
            r.grpc_endpoint@ == Seq::<char>::empty(),
            r.gateway_port == DEFAULT_SERVER_PORT,
            r.host_gateway_ip@ == Seq::<char>::empty(),
            r.sandbox_ssh_socket_path@ == Seq::<char>::empty(),
            r.network_name@ == DEFAULT_NETWORK_NAME@,
            r.stop_timeout_secs == DEFAULT_STOP_TIMEOUT_SECS,
            r.supervisor_image@ == DEFAULT_SUPERVISOR_IMAGE@,
            r.guest_tls_ca is None,
            r.guest_tls_cert is None,
            r.guest_tls_key is None,
            r.sandbox_pids_limit == DEFAULT_SANDBOX_PIDS_LIMIT,
            !r.enable_bind_mounts,
            r.health_check_interval_secs == DEFAULT_HEALTH_CHECK_INTERVAL_SECS,
    {
        PodmanComputeConfig {
            socket_path: None,
            default_image: DEFAULT_SANDBOX_IMAGE.to_owned(),
            image_pull_policy: ImagePullPolicy::default(),
            grpc_endpoint: String::new(),
            gateway_port: DEFAULT_SERVER_PORT,
            host_gateway_ip: String::new(),
            sandbox_ssh_socket_path: String::new(),
            network_name: DEFAULT_NETWORK_NAME.to_owned(),
            stop_timeout_secs: DEFAULT_STOP_TIMEOUT_SECS,
            supervisor_image: DEFAULT_SUPERVISOR_IMAGE.to_owned(),
            guest_tls_ca: None,
            guest_tls_cert: None,
            guest_tls_key: None,
            sandbox_pids_limit: DEFAULT_SANDBOX_PIDS_LIMIT,
            enable_bind_mounts: false,
            health_check_interval_secs: DEFAULT_HEALTH_CHECK_INTERVAL_SECS,
        }
    }
}

} // verus!
