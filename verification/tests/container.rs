use nbac::config::Machine;
use nbac::container::{
    asuser_uid, classify, classify_text, create_args, first_machine, image_found, parse_version, path_candidates,
    piped_stdout, resolve, series, version_verdict, CommandOutput, Error, MachineImage,
    MachineInfo, MachineStatus, Mode, Runtime, SUPPORTED_SERIES,
};

fn failed_output(stderr: &str) -> CommandOutput {
    CommandOutput {
        success: false,
        status: "exit status: 1".to_string(),
        stdout: Vec::new(),
        stderr: stderr.as_bytes().to_vec(),
    }
}

fn plain_runtime() -> Runtime {
    Runtime { binary: "/usr/local/bin/container".to_string(), asuser: None }
}

fn machine_record(reference: &str) -> MachineInfo {
    MachineInfo {
        id: "nbac".to_string(),
        status: MachineStatus::Running,
        cpus: 4,
        memory: 6 * 1024 * 1024 * 1024,
        image: MachineImage { reference: reference.to_string() },
        ip_address: Some("192.168.64.3".to_string()),
    }
}

#[test]
fn parses_container_version() {
    assert_eq!(
        parse_version("container CLI version 1.2.1 (build: release, commit: unspeci)\n").as_deref(),
        Some("1.2.1")
    );
    assert_eq!(parse_version("garbage"), None);
}

#[test]
fn series_matches_patch_releases_only() {
    assert_eq!(series("1.2.0"), SUPPORTED_SERIES);
    assert_eq!(series("1.2.1"), SUPPORTED_SERIES);
    assert_ne!(series("1.3.0"), SUPPORTED_SERIES);
    assert_ne!(series("1.20.0"), SUPPORTED_SERIES);
}

#[test]
fn classifies_missing_default_kernel_before_notfound() {
    let output = failed_output(
        r#"Error: notFound: "default kernel not configured for architecture arm64, please use the `container system kernel set` command to configure it""#,
    );
    let error = classify("container build".into(), &output);
    assert!(matches!(error, Error::NoDefaultKernel { .. }));
}

#[test]
fn create_args_default_has_no_virtualization() {
    let args = create_args(&Machine::default(), "nbac-builder:abc");
    assert!(!args.iter().any(|a| a == "--virtualization"));
    assert!(!args.iter().any(|a| a == "--kernel"));
    let arch = args.iter().position(|a| a == "--arch").unwrap();
    assert_eq!(args[arch + 1], "arm64");
    assert_eq!(args.last().unwrap(), "nbac-builder:abc");
}

#[test]
fn create_args_rosetta_selects_amd64() {
    let machine = Machine { rosetta: true, ..Machine::default() };
    let args = create_args(&machine, "nbac-builder:abc");
    let arch = args.iter().position(|a| a == "--arch").unwrap();
    assert_eq!(args[arch + 1], "amd64");
    assert_eq!(args.last().unwrap(), "nbac-builder:abc");
}

#[test]
fn create_args_passes_virtualization_and_kernel() {
    let machine = Machine {
        virtualization: true,
        kernel: Some("/nix/store/xxx-nbac-kernel".into()),
        ..Machine::default()
    };
    let args = create_args(&machine, "nbac-builder:abc");
    assert!(args.iter().any(|a| a == "--virtualization"));
    let kernel = args.iter().position(|a| a == "--kernel").unwrap();
    assert_eq!(args[kernel + 1], "/nix/store/xxx-nbac-kernel");
    assert_eq!(args.last().unwrap(), "nbac-builder:abc");
}

#[test]
fn create_args_full_vector() {
    let args = create_args(&Machine::default(), "nbac-builder:abc");
    let expected = vec![
        "machine", "create", "--name", "nbac", "--cpus", "4", "--memory", "6G", "--arch", "arm64",
        "--home-mount", "none", "nbac-builder:abc",
    ];
    assert_eq!(args, expected);
}

#[test]
fn series_of_short_versions_is_the_version() {
    assert_eq!(series("1.2"), "1.2");
    assert_eq!(series("7"), "7");
    assert_eq!(series("1.2.3.4"), "1.2");
}

#[test]
fn parse_version_takes_the_word_after_version() {
    assert_eq!(parse_version("version").as_deref(), None);
    assert_eq!(parse_version("a version  2.0 b").as_deref(), Some("2.0"));
}

#[test]
fn classifies_each_failure() {
    assert!(matches!(
        classify("c".into(), &failed_output("Error: NotFound: machine nbac")),
        Error::NotFound { .. }
    ));
    assert!(matches!(
        classify("c".into(), &failed_output("item not found")),
        Error::NotFound { .. }
    ));
    assert!(matches!(
        classify("c".into(), &failed_output("Inappropriate ioctl for device")),
        Error::Booting { .. }
    ));
    assert!(matches!(
        classify("c".into(), &failed_output("XPC connection error")),
        Error::RuntimeDown { .. }
    ));
    assert!(matches!(
        classify("c".into(), &failed_output("failed to reach APIServer")),
        Error::RuntimeDown { .. }
    ));
    assert!(matches!(
        classify("c".into(), &failed_output("Interrupted")),
        Error::RuntimeDown { .. }
    ));
    match classify("container build".into(), &failed_output("  boom \n")) {
        Error::Failed { command, status, stderr } => {
            assert_eq!(command, "container build");
            assert_eq!(status, "exit status: 1");
            assert_eq!(stderr, "boom");
        }
        other => panic!("unexpected {other:?}"),
    }
}

#[test]
fn classify_keeps_the_text_as_written() {
    match classify("c".into(), &failed_output("  Error: NotFound: Machine X\n")) {
        Error::NotFound { stderr } => assert_eq!(stderr, "Error: NotFound: Machine X"),
        other => panic!("unexpected {other:?}"),
    }
}

#[test]
fn classify_replaces_invalid_utf8() {
    let output = CommandOutput {
        success: false,
        status: "exit status: 1".to_string(),
        stdout: Vec::new(),
        stderr: vec![b'b', 0xff, b'c'],
    };
    match classify("c".into(), &output) {
        Error::Failed { stderr, .. } => assert_eq!(stderr, "b\u{fffd}c"),
        other => panic!("unexpected {other:?}"),
    }
}

#[test]
fn error_messages() {
    let e = Error::UnsupportedVersion { found: "1.3.0".to_string() };
    assert_eq!(e.message(), "unsupported `container` version 1.3.0; nbac supports 1.2.x");
    let e = Error::Failed {
        command: "container machine list".to_string(),
        status: "exit status: 2".to_string(),
        stderr: "bad".to_string(),
    };
    assert_eq!(e.message(), "`container machine list` failed (exit status: 2): bad");
    let e = Error::Spawn { binary: "container".to_string(), message: "No such file".to_string() };
    assert_eq!(e.message(), "cannot run `container`: No such file");
    let e = Error::RuntimeDown { stderr: "x".to_string() };
    assert_eq!(e.message(), "container services are not running: x");
    let e = Error::NoDefaultKernel { stderr: "x".to_string() };
    assert_eq!(e.message(), "no default kernel is configured: x");
    let e = Error::NotFound { stderr: "x".to_string() };
    assert_eq!(e.message(), "not found: x");
    let e = Error::Booting { stderr: "x".to_string() };
    assert_eq!(e.message(), "machine is still booting: x");
    let e = Error::Parse { command: "c".to_string(), message: "eof".to_string() };
    assert_eq!(e.message(), "cannot parse output of `c`: eof");
}

#[test]
fn runtime_runs_directly_or_as_the_owner() {
    let rt = plain_runtime();
    assert_eq!(rt.command(&vec!["ls".to_string()]), vec!["/usr/local/bin/container", "ls"]);
    let rt = Runtime { binary: "/usr/local/bin/container".to_string(), asuser: Some(501) };
    assert_eq!(
        rt.command(&vec!["ls".to_string()]),
        vec![
            "/bin/launchctl",
            "asuser",
            "501",
            "/usr/bin/sudo",
            "--user",
            "#501",
            "--set-home",
            "--non-interactive",
            "--",
            "/usr/local/bin/container",
            "ls"
        ]
    );
    assert_eq!(
        rt.command_line(&vec!["machine".to_string(), "list".to_string()]),
        "/usr/local/bin/container machine list"
    );
}

#[test]
fn calls_carry_their_policies() {
    let rt = plain_runtime();
    let c = rt.system_start();
    assert_eq!(c.run.argv, vec!["/usr/local/bin/container", "system", "start"]);
    assert_eq!(c.run.mode, Mode::Captured);
    assert!(!c.recover);
    let c = rt.kernel_set_recommended();
    assert_eq!(
        c.run.argv,
        vec!["/usr/local/bin/container", "system", "kernel", "set", "--recommended"]
    );
    assert_eq!(c.run.mode, Mode::Streamed);
    let c = rt.machine_boot("nbac");
    assert_eq!(
        c.run.argv,
        vec!["/usr/local/bin/container", "machine", "run", "--root", "--name", "nbac", "true"]
    );
    assert!(c.recover && c.retry_booting);
    let c = rt.machine_stop("nbac");
    assert_eq!(c.run.argv, vec!["/usr/local/bin/container", "machine", "stop", "nbac"]);
    let c = rt.machine_delete("nbac");
    assert_eq!(c.run.argv, vec!["/usr/local/bin/container", "machine", "delete", "nbac"]);
    let c = rt.machine_run_piped("nbac", "echo hi\n");
    assert_eq!(c.run.mode, Mode::Piped);
    assert_eq!(c.run.stdin, "echo hi\n");
    assert!(c.run.argv.iter().any(|a| a == "--root"));
}

#[test]
fn build_image_passes_platform_and_arguments() {
    let rt = plain_runtime();
    let c = rt.build_image(
        "nbac-builder:abc",
        "amd64",
        "/cfg/Containerfile",
        "/cfg",
        &vec![("SSH_USER".to_string(), "builder".to_string())],
    );
    assert_eq!(
        c.run.argv,
        vec![
            "/usr/local/bin/container",
            "build",
            "--file",
            "/cfg/Containerfile",
            "--arch",
            "amd64",
            "--tag",
            "nbac-builder:abc",
            "--build-arg",
            "SSH_USER=builder",
            "/cfg"
        ]
    );
    assert_eq!(c.run.mode, Mode::Streamed);
}

#[test]
fn resolves_the_binary_on_path() {
    let dirs = vec!["/usr/bin".to_string(), "/usr/local/bin".to_string()];
    assert_eq!(
        path_candidates("container", &dirs),
        vec!["/usr/bin/container", "/usr/local/bin/container"]
    );
    assert_eq!(resolve("container", &dirs, &vec![false, true]), "/usr/local/bin/container");
    assert_eq!(resolve("container", &dirs, &vec![false, false]), "container");
    assert_eq!(resolve("./bin/container", &dirs, &vec![true, true]), "./bin/container");
}

#[test]
fn runs_as_the_state_owner_only_when_root() {
    assert_eq!(asuser_uid(true, Some(501)), Some(501));
    assert_eq!(asuser_uid(true, Some(0)), None);
    assert_eq!(asuser_uid(false, Some(501)), None);
    assert_eq!(asuser_uid(true, None), None);
}

#[test]
fn first_machine_and_image_found() {
    let r = first_machine(Ok(vec![machine_record("a"), machine_record("b")])).unwrap();
    assert_eq!(r.unwrap().image.reference, "a");
    assert!(first_machine(Ok(vec![])).unwrap().is_none());
    assert!(first_machine(Err(Error::NotFound { stderr: "x".into() })).unwrap().is_none());
    assert!(first_machine(Err(Error::Booting { stderr: "x".into() })).is_err());
    let ok = CommandOutput {
        success: true,
        status: "exit status: 0".into(),
        stdout: vec![],
        stderr: vec![],
    };
    assert!(image_found(Ok(ok)).unwrap());
    assert!(!image_found(Err(Error::NotFound { stderr: "x".into() })).unwrap());
    assert!(image_found(Err(Error::RuntimeDown { stderr: "x".into() })).is_err());
}

#[test]
fn piped_stdout_decodes_the_output() {
    let ok = CommandOutput {
        success: true,
        status: "exit status: 0".into(),
        stdout: b"10.0.0.2\n".to_vec(),
        stderr: vec![],
    };
    assert_eq!(piped_stdout(Ok(ok)).unwrap(), "10.0.0.2\n");
}

#[test]
fn version_verdicts() {
    let out = |s: &str| CommandOutput {
        success: true,
        status: "exit status: 0".into(),
        stdout: s.as_bytes().to_vec(),
        stderr: vec![],
    };
    assert!(version_verdict(&out("container CLI version 1.2.9 (build)")).is_ok());
    match version_verdict(&out("container CLI version 1.3.0 (build)")) {
        Err(Error::UnsupportedVersion { found }) => assert_eq!(found, "1.3.0"),
        other => panic!("unexpected {other:?}"),
    }
    match version_verdict(&out("garbage")) {
        Err(Error::UnsupportedVersion { found }) => assert_eq!(found, "garbage"),
        other => panic!("unexpected {other:?}"),
    }
}

#[test]
fn classifies_lowercased_text() {
    let e = classify_text(
        "c".into(),
        "exit status: 1".into(),
        "Error: notFound: default kernel not configured".into(),
        "error: notfound: default kernel not configured",
    );
    assert!(matches!(e, Error::NoDefaultKernel { stderr } if stderr == "Error: notFound: default kernel not configured"));
    let e = classify_text("c".into(), "s".into(), "X".into(), "XPC");
    assert!(matches!(e, Error::Failed { stderr, .. } if stderr == "X"));
}

#[test]
fn series_is_a_prefix_and_idempotent() {
    for v in ["1.2.3", "10.20.30.40", "1.2", "7", "", "..", "a.b.c"] {
        let s = series(v);
        assert!(v.starts_with(s.as_str()));
        assert_eq!(series(&s), s);
    }
    assert_eq!(series(".."), ".");
}

#[test]
fn version_token_occurs_in_the_text() {
    let text = "container CLI version\t1.2.1\n";
    let v = parse_version(text).unwrap();
    assert!(text.contains(v.as_str()));
    assert!(!v.chars().any(char::is_whitespace));
}
