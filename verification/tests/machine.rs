use nbac::config::{Config, Idle, Image, Machine, Runtime as RuntimeConfig, Ssh, State};
use nbac::container::{MachineImage, MachineInfo, MachineStatus, Mode, Runtime};
use nbac::machine::{
    cold_path, ColdStep,
    ensure_image, ensure_machine, generation_marker_text, parse_memory, reconcile_resources,
    reference_matches, reset_plan, Action, ImageError, MemoryError,
};

fn machine_config() -> Config {
    Config {
        machine: Machine::default(),
        image: Image {
            containerfile: "/etc/nbac/Containerfile".to_string(),
            build_context: None,
            tag_prefix: "nbac-builder".to_string(),
        },
        ssh: Ssh::default(),
        state: State { dir: "/var/lib/nbac".to_string() },
        idle: Idle::default(),
        runtime: RuntimeConfig::default(),
    }
}

fn machine_runtime() -> Runtime {
    Runtime { binary: "/usr/local/bin/container".to_string(), asuser: None }
}

fn inspected(reference: &str, status: MachineStatus, cpus: u32, memory: u64) -> MachineInfo {
    MachineInfo {
        id: "nbac".to_string(),
        status,
        cpus,
        memory,
        image: MachineImage { reference: reference.to_string() },
        ip_address: Some("192.168.64.3".to_string()),
    }
}

fn run_args(a: &Action) -> Vec<String> {
    match a {
        Action::Run(c) => c.run.argv[1..].to_vec(),
        other => panic!("expected a call, got {other:?}"),
    }
}

const SIX_G: u64 = 6 * 1024 * 1024 * 1024;

#[test]
fn parses_memory_suffixes() {
    assert_eq!(parse_memory("6G").unwrap(), 6 * 1024 * 1024 * 1024);
    assert_eq!(parse_memory("512M").unwrap(), 512 * 1024 * 1024);
    assert_eq!(parse_memory("1024").unwrap(), 1024);
    assert_eq!(parse_memory("24g").unwrap(), 25769803776);
    assert!(parse_memory("lots").is_err());
}

#[test]
fn matches_plain_and_normalized_references() {
    assert!(reference_matches("nbac-builder:abc123", "nbac-builder:abc123"));
    assert!(reference_matches("docker.io/library/nbac-builder:abc123", "nbac-builder:abc123"));
    assert!(!reference_matches(
        "ghcr.io/robertderose/nix-hex-box/hexbox-builder:latest",
        "nbac-builder:abc123"
    ));
}

#[test]
fn memory_errors_name_the_value() {
    match parse_memory("  lots ") {
        Err(MemoryError::Invalid { value }) => assert_eq!(value, "lots"),
        other => panic!("unexpected {other:?}"),
    }
    match parse_memory("99999999999P") {
        Err(MemoryError::Overflow { value }) => assert_eq!(value, "99999999999P"),
        other => panic!("unexpected {other:?}"),
    }
    assert!(matches!(parse_memory(""), Err(MemoryError::Invalid { .. })));
    assert!(matches!(parse_memory("G"), Err(MemoryError::Invalid { .. })));
    assert!(matches!(parse_memory("-1"), Err(MemoryError::Invalid { .. })));
    assert_eq!(parse_memory(" 2k ").unwrap(), 2048);
    assert_eq!(parse_memory("1T").unwrap(), 1u64 << 40);
    assert_eq!(parse_memory("1p").unwrap(), 1u64 << 50);
    assert_eq!(parse_memory("18446744073709551615").unwrap(), u64::MAX);
}

#[test]
fn reference_suffix_must_follow_a_slash() {
    assert!(!reference_matches("xnbac-builder:abc", "nbac-builder:abc"));
    assert!(!reference_matches("nbac-builder:abc", "docker.io/library/nbac-builder:abc"));
}

#[test]
fn missing_machine_is_created() {
    let plan = ensure_machine(&machine_runtime(), &machine_config(), "nbac-builder:abc", None).unwrap();
    assert_eq!(plan.len(), 2);
    assert!(matches!(&plan[0], Action::Step(s) if s == "creating machine nbac"));
    let args = run_args(&plan[1]);
    assert_eq!(&args[..2], &["machine".to_string(), "create".to_string()]);
    assert_eq!(args.last().unwrap(), "nbac-builder:abc");
    match &plan[1] {
        Action::Run(c) => assert_eq!(c.run.mode, Mode::Streamed),
        _ => unreachable!(),
    }
}

#[test]
fn outdated_machine_is_stopped_deleted_and_recreated() {
    let info = inspected("nbac-builder:old", MachineStatus::Running, 4, SIX_G);
    let plan = ensure_machine(&machine_runtime(), &machine_config(), "nbac-builder:new", Some(info)).unwrap();
    assert_eq!(plan.len(), 5);
    match &plan[0] {
        Action::Warn(w) => assert_eq!(
            w,
            "machine nbac was built from nbac-builder:old; recreating it for nbac-builder:new deletes its /nix store"
        ),
        other => panic!("unexpected {other:?}"),
    }
    assert_eq!(run_args(&plan[1]), vec!["machine", "stop", "nbac"]);
    assert_eq!(run_args(&plan[2]), vec!["machine", "delete", "nbac"]);
    assert!(matches!(&plan[3], Action::Step(s) if s == "creating machine nbac"));
    assert_eq!(run_args(&plan[4]).last().unwrap(), "nbac-builder:new");
}

#[test]
fn stopped_outdated_machine_is_not_stopped_first() {
    let info = inspected("nbac-builder:old", MachineStatus::Stopped, 4, SIX_G);
    let plan = ensure_machine(&machine_runtime(), &machine_config(), "nbac-builder:new", Some(info)).unwrap();
    assert_eq!(plan.len(), 4);
    assert_eq!(run_args(&plan[1]), vec!["machine", "delete", "nbac"]);
}

#[test]
fn settled_machine_needs_nothing() {
    let info = inspected("docker.io/library/nbac-builder:abc", MachineStatus::Running, 4, SIX_G);
    let plan = ensure_machine(&machine_runtime(), &machine_config(), "nbac-builder:abc", Some(info)).unwrap();
    assert!(plan.is_empty());
}

#[test]
fn stopped_current_machine_is_booted() {
    let info = inspected("nbac-builder:abc", MachineStatus::Stopped, 4, SIX_G);
    let plan = ensure_machine(&machine_runtime(), &machine_config(), "nbac-builder:abc", Some(info)).unwrap();
    assert_eq!(plan.len(), 2);
    assert!(matches!(&plan[0], Action::Step(s) if s == "booting machine nbac"));
    assert_eq!(run_args(&plan[1]), vec!["machine", "run", "--root", "--name", "nbac", "true"]);
    match &plan[1] {
        Action::Run(c) => assert!(c.recover && c.retry_booting),
        _ => unreachable!(),
    }
}

#[test]
fn resized_machine_is_reconfigured() {
    let info = inspected("nbac-builder:abc", MachineStatus::Running, 2, SIX_G);
    let plan = reconcile_resources(&machine_runtime(), &machine_config(), &info).unwrap();
    assert_eq!(plan.len(), 3);
    assert!(matches!(&plan[0], Action::Step(s) if s == "updating machine nbac to cpus=4 memory=6G"));
    assert_eq!(
        run_args(&plan[1]),
        vec!["machine", "set", "--name", "nbac", "cpus=4", "memory=6G"]
    );
    assert!(matches!(&plan[2], Action::Warn(w) if w == "cpu/memory changes take effect after the machine restarts"));
    let info = inspected("nbac-builder:abc", MachineStatus::Stopped, 4, 1024);
    let plan = reconcile_resources(&machine_runtime(), &machine_config(), &info).unwrap();
    assert_eq!(plan.len(), 2);
}

#[test]
fn unreadable_memory_fails_only_when_it_is_read() {
    let mut config = machine_config();
    config.machine.memory = "lots".to_string();
    assert!(ensure_machine(&machine_runtime(), &config, "nbac-builder:abc", None).is_ok());
    let info = inspected("nbac-builder:abc", MachineStatus::Running, 4, SIX_G);
    assert!(matches!(
        ensure_machine(&machine_runtime(), &config, "nbac-builder:abc", Some(info)),
        Err(MemoryError::Invalid { .. })
    ));
}

#[test]
fn existing_image_is_not_rebuilt() {
    let r = ensure_image(&machine_runtime(), &machine_config(), "nbac-builder:abc", true).unwrap();
    assert!(r.is_none());
}

#[test]
fn missing_image_is_built_in_the_containerfile_directory() {
    let build = ensure_image(&machine_runtime(), &machine_config(), "nbac-builder:abc", false)
        .unwrap()
        .unwrap();
    assert_eq!(build.note, "building image nbac-builder:abc");
    assert_eq!(
        build.call.run.argv,
        vec![
            "/usr/local/bin/container",
            "build",
            "--file",
            "/etc/nbac/Containerfile",
            "--arch",
            "arm64",
            "--tag",
            "nbac-builder:abc",
            "--build-arg",
            "SSH_USER=builder",
            "--build-arg",
            "SSH_PORT=22",
            "/etc/nbac"
        ]
    );
}

#[test]
fn configured_build_context_wins() {
    let mut config = machine_config();
    config.image.build_context = Some("/srv/ctx".to_string());
    let build = ensure_image(&machine_runtime(), &config, "t", false).unwrap().unwrap();
    assert_eq!(build.call.run.argv.last().unwrap(), "/srv/ctx");
}

#[test]
fn containerfile_without_parent_cannot_be_built() {
    let mut config = machine_config();
    config.image.containerfile = "/".to_string();
    assert!(matches!(
        ensure_image(&machine_runtime(), &config, "t", false),
        Err(ImageError::NoParentDirectory)
    ));
}

#[test]
fn marker_holds_the_generation() {
    assert_eq!(generation_marker_text("nbac-builder:0123456789ab"), "0123456789ab");
    assert_eq!(generation_marker_text("registry:5000/x:abc"), "abc");
    assert_eq!(generation_marker_text("plain"), "plain");
}

#[test]
fn reset_removes_the_machine() {
    assert!(reset_plan(&machine_runtime(), &machine_config(), None).is_empty());
    let info = inspected("nbac-builder:abc", MachineStatus::Running, 4, SIX_G);
    let plan = reset_plan(&machine_runtime(), &machine_config(), Some(info));
    assert_eq!(plan.len(), 2);
    assert_eq!(run_args(&plan[0]), vec!["machine", "stop", "nbac"]);
    assert_eq!(run_args(&plan[1]), vec!["machine", "delete", "nbac"]);
    let info = inspected("nbac-builder:abc", MachineStatus::Unknown, 4, SIX_G);
    let plan = reset_plan(&machine_runtime(), &machine_config(), Some(info));
    assert_eq!(plan.len(), 1);
    assert_eq!(run_args(&plan[0]), vec!["machine", "delete", "nbac"]);
}

#[test]
fn cold_path_writes_the_marker_after_injection() {
    assert_eq!(
        cold_path(),
        vec![
            ColdStep::EnsureServices,
            ColdStep::Lock,
            ColdStep::EnsureKeys,
            ColdStep::EnsureImage,
            ColdStep::EnsureMachine,
            ColdStep::InjectKeys,
            ColdStep::WriteMarker
        ]
    );
}
