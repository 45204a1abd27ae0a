//! The configuration of the Docker compute driver.
use vstd::prelude::*;
use vstd::string::*;

use crate::text::{replace, replaced, same_text};

verus! {

pub const DEFAULT_DOCKER_SUPERVISOR_IMAGE_REPO: &'static str = "ghcr.io/nvidia/openshell/supervisor";

pub const DEFAULT_SANDBOX_PIDS_LIMIT: i64 = 2048;

/// A tag that is set, and not empty.
pub open spec fn set_tag(tag: Option<&str>) -> Option<Seq<char>> {
    match tag {
        Some(text) => if text@.len() > 0 {
            Some(text@)
        } else {
            None
        },
        None => None,
    }
}

/// The tag of the supervisor's image: the first that is set, or else the version, which is
/// `dev` where there is none. A plus sign cannot stand in a tag.
pub open spec fn supervisor_image_tag(
    openshell_image_tag: Option<&str>,
    image_tag: Option<&str>,
    version: Seq<char>,
) -> Seq<char> {
    let tag = match (set_tag(openshell_image_tag), set_tag(image_tag)) {
        (Some(first), _) => first,
        (None, Some(second)) => second,
        (None, None) => if version.len() == 0 || version == "0.0.0"@ {
            "dev"@
        } else {
            version
        },
    };
    replaced(tag, '+', '+', '-')
}

/// The tag of the supervisor's image.
pub fn default_docker_supervisor_image_tag(
    openshell_image_tag: Option<&str>,
    image_tag: Option<&str>,
    version: &str,
) -> (r: String)
    ensures
        r@ == supervisor_image_tag(openshell_image_tag, image_tag, version@),
{
    if let Some(tag) = openshell_image_tag {
        if !tag.is_empty() {
            return replace(tag, '+', '+', '-');
        }
    }
    if let Some(tag) = image_tag {
        if !tag.is_empty() {
            return replace(tag, '+', '+', '-');
        }
    }
    if version.is_empty() || same_text(version, "0.0.0") {
        replace("dev", '+', '+', '-')
    } else {
        replace(version, '+', '+', '-')
    }
}

/// The supervisor's image that is used where none is configured.
pub fn default_docker_supervisor_image(
    openshell_image_tag: Option<&str>,
    image_tag: Option<&str>,
    version: &str,
) -> (r: String)
    ensures
        r@ == DEFAULT_DOCKER_SUPERVISOR_IMAGE_REPO@ + ":"@ + supervisor_image_tag(
            openshell_image_tag,
            image_tag,
            version@,
        ),
{
    let mut image = DEFAULT_DOCKER_SUPERVISOR_IMAGE_REPO.to_owned();
    image.append(":");
    image.append(&default_docker_supervisor_image_tag(openshell_image_tag, image_tag, version));
    image
}

/// The configuration of the Docker compute driver. Where Docker cannot be used, existing
/// configuration files can still be read.
#[derive(Debug, PartialEq, Eq)]
pub struct DockerComputeConfig {
    pub socket_path: Option<String>,
    pub default_image: String,
    pub image_pull_policy: String,
    pub sandbox_namespace: String,
    pub grpc_endpoint: String,
    pub supervisor_bin: Option<String>,
    pub supervisor_image: Option<String>,
    pub guest_tls_ca: Option<String>,
    pub guest_tls_cert: Option<String>,
    pub guest_tls_key: Option<String>,
    pub network_name: String,
    pub host_gateway_ip: String,
    pub ssh_socket_path: String,
    pub sandbox_pids_limit: i64,
    pub enable_bind_mounts: bool,
}

impl DockerComputeConfig {
    /// The configuration that sets nothing but the image and the network.
    pub fn with_defaults(default_image: String, network_name: String) -> (r: Self)
        ensures
            r.socket_path is None,
            r.default_image@ == default_image@,
            r.image_pull_policy@ == Seq::<char>::empty(),
            r.sandbox_namespace@ == "default"@,
            r.grpc_endpoint@ == Seq::<char>::empty(),
            r.supervisor_bin is None,
            r.supervisor_image is None,
            r.guest_tls_ca is None,
            r.guest_tls_cert is None,
            r.guest_tls_key is None,
            r.network_name@ == network_name@,
            r.host_gateway_ip@ == Seq::<char>::empty(),
            r.ssh_socket_path@ == "/run/openshell/ssh.sock"@,
            r.sandbox_pids_limit == DEFAULT_SANDBOX_PIDS_LIMIT,
            !r.enable_bind_mounts,
    {
        DockerComputeConfig {
            socket_path: None,
            default_image,
            image_pull_policy: String::new(),
            sandbox_namespace: "default".to_owned(),
            grpc_endpoint: String::new(),
            supervisor_bin: None,
            supervisor_image: None,
            guest_tls_ca: None,
            guest_tls_cert: None,
            guest_tls_key: None,
            network_name,
            host_gateway_ip: String::new(),
            ssh_socket_path: "/run/openshell/ssh.sock".to_owned(),
            sandbox_pids_limit: DEFAULT_SANDBOX_PIDS_LIMIT,
            enable_bind_mounts: false,
        }
    }
}

/// The tag of the image is the first that is set and not empty, character by character, with a
/// dash for each plus sign.
pub proof fn law_first_set_tag_is_the_tag(
    openshell_image_tag: Option<&str>,
    image_tag: Option<&str>,
    version: Seq<char>,
    i: int,
)
    ensures
        ({
            let tag = supervisor_image_tag(openshell_image_tag, image_tag, version);
            let chosen = if openshell_image_tag is Some && openshell_image_tag->0@.len() > 0 {
                openshell_image_tag->0@
            } else if image_tag is Some && image_tag->0@.len() > 0 {
                image_tag->0@
            } else if version.len() > 0 && version != "0.0.0"@ {
                version
            } else {
                "dev"@
            };
            &&& tag.len() == chosen.len()
            &&& 0 <= i < tag.len() ==> tag[i] == if chosen[i] == '+' {
                '-'
            } else {
                chosen[i]
            }
        }),
{
}

} // verus!
