use openshell::docker::{default_docker_supervisor_image, DockerComputeConfig};
use openshell::podman::{ImagePullPolicy, PodmanComputeConfig};
use openshell::unsupported::{prove, sandbox_unsupported, windows_unsupported};

#[test]
fn the_supervisor_image_takes_the_first_tag_that_is_set() {
    let image = |first: Option<&str>, second: Option<&str>, version: &str| {
        default_docker_supervisor_image(first, second, version)
    };
    let repo = "ghcr.io/nvidia/openshell/supervisor";
    assert_eq!(image(Some("a"), Some("b"), "1"), format!("{repo}:a"));
    assert_eq!(image(Some(""), Some("b"), "1"), format!("{repo}:b"));
    assert_eq!(image(None, Some(""), "1.2.3+abc+d"), format!("{repo}:1.2.3-abc-d"));
    assert_eq!(image(None, None, "0.0.0"), format!("{repo}:dev"));
    assert_eq!(image(None, None, ""), format!("{repo}:dev"));
}

#[test]
fn docker_defaults() {
    let config = DockerComputeConfig::with_defaults("image".to_string(), "net".to_string());
    assert_eq!(config.default_image, "image");
    assert_eq!(config.network_name, "net");
    assert_eq!(config.sandbox_namespace, "default");
    assert_eq!(config.ssh_socket_path, "/run/openshell/ssh.sock");
    assert_eq!(config.sandbox_pids_limit, 2048);
    assert!(!config.enable_bind_mounts);
    assert_eq!(config.socket_path, None);
}

#[test]
fn podman_defaults() {
    let config = PodmanComputeConfig::default();
    assert_eq!(config.default_image, "ghcr.io/nvidia/openshell/sandbox:latest");
    assert_eq!(
        config.supervisor_image,
        "ghcr.io/nvidia/openshell/supervisor:latest"
    );
    assert_eq!(config.image_pull_policy, ImagePullPolicy::Missing);
    assert_eq!(config.gateway_port, 8080);
    assert_eq!(config.stop_timeout_secs, 10);
    assert_eq!(config.network_name, "openshell");
    assert_eq!(config.sandbox_pids_limit, 2048);
    assert_eq!(config.health_check_interval_secs, 10);
    assert!(!config.enable_bind_mounts);
}

#[test]
fn what_is_missing_on_windows_says_so() {
    assert_eq!(
        windows_unsupported(),
        "openshell-driver-vm is unsupported on Windows"
    );
    assert_eq!(
        prove("p", "c", None, Some("r"), true),
        Err("policy prover is not available on Windows in this build".to_string())
    );
    assert_eq!(
        sandbox_unsupported(),
        "openshell-sandbox supervisor is not available on Windows"
    );
}
