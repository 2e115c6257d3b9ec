use nbac::config::{Config, Idle, Image, Machine, Runtime, Ssh, State};
use nbac::container::{MachineImage, MachineInfo, MachineStatus};
use nbac::session::{
    confirmed, fast_path_ip, interactive_ssh_argv, marker_tag, proxy_command, ssh_command,
    store_probe_argv,
};

fn session_config() -> Config {
    Config {
        machine: Machine::default(),
        image: Image {
            containerfile: "/etc/nbac/Containerfile".to_string(),
            build_context: None,
            tag_prefix: "nbac-builder".to_string(),
        },
        ssh: Ssh::default(),
        state: State { dir: "/var/lib/nbac".to_string() },
        idle: Idle::default(),
        runtime: Runtime::default(),
    }
}

fn found(status: MachineStatus, reference: &str, ip: Option<&str>) -> MachineInfo {
    MachineInfo {
        id: "nbac".to_string(),
        status,
        cpus: 4,
        memory: 1 << 30,
        image: MachineImage { reference: reference.to_string() },
        ip_address: ip.map(|s| s.to_string()),
    }
}

#[test]
fn ssh_pins_identity_and_host_key() {
    assert_eq!(
        ssh_command(&session_config(), "nc x"),
        vec![
            "ssh",
            "-F",
            "none",
            "-o",
            "ProxyCommand=nc x",
            "-o",
            "IdentityFile=/var/lib/nbac/builder_ed25519",
            "-o",
            "IdentitiesOnly=yes",
            "-o",
            "UserKnownHostsFile=/var/lib/nbac/known_hosts",
            "-o",
            "StrictHostKeyChecking=yes",
            "-o",
            "User=builder"
        ]
    );
}

#[test]
fn proxy_command_reenters_this_cli() {
    assert_eq!(
        proxy_command("/bin/nbac", "/etc/nbac.toml"),
        "\"/bin/nbac\" --config \"/etc/nbac.toml\" proxy"
    );
}

#[test]
fn interactive_ssh_passes_arguments_through() {
    let argv = interactive_ssh_argv(
        &session_config(),
        "/bin/nbac",
        "/etc/nbac.toml",
        &vec!["uname".to_string(), "-a".to_string()],
    );
    assert_eq!(argv[4], "ProxyCommand=\"/bin/nbac\" --config \"/etc/nbac.toml\" proxy");
    assert_eq!(&argv[argv.len() - 3..], &["nbac", "uname", "-a"]);
}

#[test]
fn store_probe_dials_the_guest_directly() {
    let argv = store_probe_argv(&session_config(), "10.0.0.2");
    assert_eq!(argv[4], "ProxyCommand=/usr/bin/nc -G 3 10.0.0.2 22");
    assert_eq!(
        &argv[15..],
        &[
            "-o",
            "BatchMode=yes",
            "-o",
            "ConnectTimeout=5",
            "nbac",
            "/nix/var/nix/profiles/default/bin/nix",
            "store",
            "info",
            "--store",
            "daemon"
        ]
    );
}

#[test]
fn confirmation_answers() {
    assert!(confirmed("y\n"));
    assert!(confirmed(" Y "));
    assert!(confirmed("yes"));
    assert!(!confirmed("YES"));
    assert!(!confirmed("n"));
    assert!(!confirmed(""));
}

#[test]
fn marker_names_the_current_tag() {
    assert_eq!(marker_tag(&session_config(), "0123456789ab\n"), "nbac-builder:0123456789ab");
}

#[test]
fn fast_path_needs_a_running_current_machine_with_an_address() {
    let tag = "nbac-builder:abc";
    assert_eq!(
        fast_path_ip(Some(found(MachineStatus::Running, "docker.io/library/nbac-builder:abc", Some("10.0.0.2"))), tag)
            .as_deref(),
        Some("10.0.0.2")
    );
    assert_eq!(fast_path_ip(Some(found(MachineStatus::Stopped, tag, Some("10.0.0.2"))), tag), None);
    assert_eq!(fast_path_ip(Some(found(MachineStatus::Running, "nbac-builder:old", Some("10.0.0.2"))), tag), None);
    assert_eq!(fast_path_ip(Some(found(MachineStatus::Running, tag, None)), tag), None);
    assert_eq!(fast_path_ip(None, tag), None);
}

#[test]
fn marker_round_trips_to_the_tag() {
    let tag = "nbac-builder:0123456789ab";
    let marker = nbac::machine::generation_marker_text(tag);
    assert_eq!(marker_tag(&session_config(), &marker), tag);
}
