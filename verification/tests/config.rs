use nbac::config::{default_tag_prefix, join_path, Config, Idle, Image, Machine, Runtime, Ssh, State};
use nbac::keys::{keygen_argv, known_hosts_text, BUILDER_KEY_COMMENT, HOST_KEY_COMMENT};
use nbac::transport::{after_attempt, exec_argv, reachable_argv, Reach, NC, REACH_ATTEMPTS};

fn keyed_config() -> Config {
    Config {
        machine: Machine::default(),
        image: Image {
            containerfile: "/etc/nbac/Containerfile".to_string(),
            build_context: None,
            tag_prefix: default_tag_prefix(),
        },
        ssh: Ssh::default(),
        state: State { dir: "/var/lib/nbac/".to_string() },
        idle: Idle::default(),
        runtime: Runtime::default(),
    }
}

#[test]
fn defaults() {
    let m = Machine::default();
    assert_eq!(m.name, "nbac");
    assert_eq!(m.cpus, 4);
    assert_eq!(m.memory, "6G");
    assert!(!m.rosetta && !m.virtualization && m.kernel.is_none());
    let s = Ssh::default();
    assert_eq!((s.user.as_str(), s.port, s.host_alias.as_str()), ("builder", 22, "nbac"));
    let i = Idle::default();
    assert!(i.enable);
    assert_eq!(i.timeout_seconds, 300);
    assert_eq!(Runtime::default().container_binary, "container");
    assert_eq!(default_tag_prefix(), "nbac-builder");
}

#[test]
fn arch_follows_rosetta() {
    assert_eq!(Machine::default().arch(), "arm64");
    assert_eq!(Machine { rosetta: true, ..Machine::default() }.arch(), "amd64");
}

#[test]
fn state_paths() {
    let st = State { dir: "/var/lib/nbac".to_string() };
    assert_eq!(st.builder_key(), "/var/lib/nbac/builder_ed25519");
    assert_eq!(st.builder_key_pub(), "/var/lib/nbac/builder_ed25519.pub");
    assert_eq!(st.host_key(), "/var/lib/nbac/host_ed25519");
    assert_eq!(st.host_key_pub(), "/var/lib/nbac/host_ed25519.pub");
    assert_eq!(st.known_hosts(), "/var/lib/nbac/known_hosts");
    assert_eq!(st.generation_marker(), "/var/lib/nbac/generation");
    assert_eq!(st.lock_file(), "/var/lib/nbac/lock");
    assert_eq!(keyed_config().state.lock_file(), "/var/lib/nbac/lock");
}

#[test]
fn join_matches_path_join() {
    assert_eq!(join_path("", "x"), "x");
    assert_eq!(join_path("/", "x"), "/x");
    assert_eq!(join_path("a", "x"), "a/x");
    assert_eq!(join_path("a/", "x"), "a/x");
}

#[test]
fn keygen_invocation() {
    assert_eq!(
        keygen_argv("/var/lib/nbac/builder_ed25519", BUILDER_KEY_COMMENT),
        vec![
            "ssh-keygen",
            "-q",
            "-t",
            "ed25519",
            "-N",
            "",
            "-C",
            "nbac builder key",
            "-f",
            "/var/lib/nbac/builder_ed25519"
        ]
    );
    assert_eq!(HOST_KEY_COMMENT, "nbac host key");
}

#[test]
fn known_hosts_pins_the_alias() {
    assert_eq!(
        known_hosts_text(&keyed_config(), "ssh-ed25519 BBBB host\n"),
        "nbac ssh-ed25519 BBBB host\n"
    );
}

#[test]
fn nc_invocations() {
    assert_eq!(reachable_argv("10.0.0.2", 22), vec![NC, "-z", "-G", "3", "10.0.0.2", "22"]);
    assert_eq!(exec_argv("10.0.0.2", 2222), vec!["/usr/bin/nc", "-G", "3", "10.0.0.2", "2222"]);
}

#[test]
fn reaching_the_guest_is_bounded() {
    assert_eq!(after_attempt(1, true), Reach::Connected);
    assert_eq!(after_attempt(1, false), Reach::Wait { delay_ms: 500, retry: true });
    assert_eq!(after_attempt(4, false), Reach::Wait { delay_ms: 500, retry: true });
    assert_eq!(after_attempt(REACH_ATTEMPTS, false), Reach::Wait { delay_ms: 500, retry: false });
}
