use nbac::config::{Config, Idle, Image, Machine, Runtime as RuntimeConfig, Ssh, State};
use nbac::container::{Error, Mode, Runtime};
use nbac::inject::{guest_ip, inject, injected_ip, script, InjectError, Keys};

fn inject_config() -> Config {
    Config {
        machine: Machine::default(),
        image: Image {
            containerfile: "/tmp/nbac-inject/Containerfile".to_string(),
            build_context: None,
            tag_prefix: "nbac-builder".to_string(),
        },
        ssh: Ssh::default(),
        state: State { dir: "/tmp/nbac-inject".to_string() },
        idle: Idle { enable: true, timeout_seconds: 120 },
        runtime: RuntimeConfig::default(),
    }
}

fn test_keys() -> Keys {
    Keys {
        authorized_keys: "ssh-ed25519 AAAA builder\n".to_string(),
        host_key: "PRIVATE\n".to_string(),
        host_key_pub: "ssh-ed25519 BBBB host\n".to_string(),
    }
}

#[test]
fn script_embeds_keys_and_settings() {
    let script = script(&inject_config(), &test_keys());
    assert!(script.contains("ssh-ed25519 AAAA builder\nNBAC_EOF"));
    assert!(script.contains("ssh-ed25519 BBBB host\nNBAC_EOF"));
    assert!(script.contains("timeout_seconds = 120"));
    assert!(script.contains("/home/builder/.ssh"));
}

#[test]
fn guest_ip_ignores_chatter_and_takes_the_address_line() {
    assert_eq!(
        guest_ip("Booting machine...\n192.168.65.9\n").as_deref(),
        Some("192.168.65.9")
    );
    assert_eq!(guest_ip("no address here\n"), None);
}

#[test]
fn script_installs_keys_settings_and_waits_for_sshd() {
    let mut config = inject_config();
    config.ssh.user = "nix".to_string();
    config.ssh.port = 2222;
    config.idle.enable = false;
    let s = script(&config, &test_keys());
    assert!(s.starts_with("set -eu\ninstall -d -m 700 \"/home/nix/.ssh\"\n"));
    assert!(s.contains("cat > \"/home/nix/.ssh/authorized_keys\" <<'NBAC_EOF'\nssh-ed25519 AAAA builder\nNBAC_EOF\n"));
    assert!(s.contains("chown -R \"nix:nix\" \"/home/nix/.ssh\""));
    assert!(s.contains("cat > /etc/ssh/ssh_host_ed25519_key <<'NBAC_EOF'\nPRIVATE\nNBAC_EOF\n"));
    assert!(s.contains("enable = false\ntimeout_seconds = 120\nNBAC_EOF\n"));
    assert!(s.contains("s6-svc -ru /run/service/sshd"));
    assert!(s.contains("sport = :2222"));
    assert!(s.contains("echo \"sshd is not listening on port 2222\" >&2"));
    assert!(s.ends_with("ip -4 addr show dev eth0 | sed -n 's|.*inet \\([0-9.]*\\)/.*|\\1|p'\n"));
}

#[test]
fn injection_is_a_piped_exec_of_the_script() {
    let rt = Runtime { binary: "/usr/local/bin/container".to_string(), asuser: None };
    let call = inject(&rt, &inject_config(), &test_keys());
    assert_eq!(call.run.mode, Mode::Piped);
    assert_eq!(call.run.stdin, script(&inject_config(), &test_keys()));
    assert_eq!(
        call.run.argv,
        vec![
            "/usr/local/bin/container",
            "machine",
            "run",
            "--root",
            "--name",
            "nbac",
            "--interactive",
            "--",
            "sh"
        ]
    );
    assert!(call.recover && call.retry_booting);
}

#[test]
fn guest_ip_takes_the_last_address() {
    assert_eq!(guest_ip("10.0.0.1\nnoise\n  10.0.0.2  \n").as_deref(), Some("10.0.0.2"));
    assert_eq!(guest_ip("256.1.1.1\n"), None);
    assert_eq!(guest_ip("01.2.3.4\n"), None);
    assert_eq!(guest_ip("1.2.3\n"), None);
    assert_eq!(guest_ip("0.0.0.0").as_deref(), Some("0.0.0.0"));
    assert_eq!(guest_ip(""), None);
}

#[test]
fn injection_results() {
    assert_eq!(injected_ip(Ok("boot\n10.1.2.3\n".to_string())).unwrap(), "10.1.2.3");
    assert!(matches!(injected_ip(Ok("nothing\n".to_string())), Err(InjectError::NoAddress)));
    assert!(matches!(
        injected_ip(Err(Error::Booting { stderr: "x".to_string() })),
        Err(InjectError::Exec(Error::Booting { .. }))
    ));
}
