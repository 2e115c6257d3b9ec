use nbac::container::{Error, MachineImage, MachineInfo, MachineStatus, SystemStatus};
use nbac::status::{
    any_failed, format_memory, probe_machine, probe_runtime, probe_ssh, probe_store,
    services_running, Next, Probe,
};

fn status_machine(status: MachineStatus, ip: Option<&str>) -> MachineInfo {
    MachineInfo {
        id: "nbac".to_string(),
        status,
        cpus: 4,
        memory: 6 * 1024 * 1024 * 1024,
        image: MachineImage { reference: "nbac-builder:abc".to_string() },
        ip_address: ip.map(|s| s.to_string()),
    }
}

#[test]
fn formats_memory() {
    assert_eq!(format_memory(6 * 1024 * 1024 * 1024), "6G");
    assert_eq!(format_memory(512 * 1024 * 1024), "512M");
    assert_eq!(format_memory(1536 * 1024 * 1024), "1536M");
    assert_eq!(format_memory(1000), "1000B");
}

#[test]
fn formats_small_and_zero_sizes() {
    assert_eq!(format_memory(0), "0B");
    assert_eq!(format_memory(1024), "1024B");
    assert_eq!(format_memory(u64::MAX), "18446744073709551615B");
}

#[test]
fn runtime_probe() {
    assert!(matches!(
        probe_runtime(Ok(SystemStatus { status: "running".into() })),
        Probe::Pass(s) if s == "running"
    ));
    assert!(matches!(
        probe_runtime(Ok(SystemStatus { status: "stopped".into() })),
        Probe::Fail(s) if s == "stopped (run `nbac start`)"
    ));
    assert!(matches!(
        probe_runtime(Err(Error::RuntimeDown { stderr: "xpc".into() })),
        Probe::Fail(s) if s == "services not running (run `nbac start`)"
    ));
    assert!(matches!(
        probe_runtime(Err(Error::NotFound { stderr: "x".into() })),
        Probe::Fail(s) if s == "not found: x"
    ));
    assert!(services_running(&Ok(SystemStatus { status: "running".into() })));
    assert!(!services_running(&Ok(SystemStatus { status: "Running".into() })));
    assert!(!services_running(&Err(Error::RuntimeDown { stderr: "x".into() })));
}

#[test]
fn machine_probe() {
    let (p, n) = probe_machine(Ok(None), Some("nbac-builder:abc"));
    assert!(matches!(p, Probe::Fail(s) if s == "not created (run `nbac setup`)"));
    assert!(matches!(n, Next::Skip(s) if s == "no machine"));

    let (p, n) = probe_machine(Err(Error::RuntimeDown { stderr: "x".into() }), None);
    assert!(matches!(p, Probe::Skip(s) if s == "unknown (services not running)"));
    assert!(matches!(n, Next::Skip(s) if s == "services not running"));

    let (p, n) = probe_machine(Err(Error::Booting { stderr: "x".into() }), None);
    assert!(matches!(p, Probe::Fail(s) if s == "machine is still booting: x"));
    assert!(matches!(n, Next::Skip(s) if s == "inspect failed"));

    let (p, n) = probe_machine(Ok(Some(status_machine(MachineStatus::Stopped, None))), Some("nbac-builder:abc"));
    assert!(matches!(p, Probe::Pass(s) if s == "stopped (starts on demand) · nbac-builder:abc · 4 cpus · 6G"));
    assert!(matches!(n, Next::Skip(s) if s == "machine stopped"));

    let (p, n) = probe_machine(Ok(Some(status_machine(MachineStatus::Running, None))), None);
    assert!(matches!(p, Probe::Fail(s) if s == "running · nbac-builder:abc · 4 cpus · 6G · no IP address"));
    assert!(matches!(n, Next::Skip(s) if s == "machine reports no IP"));

    let (p, n) = probe_machine(
        Ok(Some(status_machine(MachineStatus::Running, Some("192.168.64.3")))),
        Some("nbac-builder:new"),
    );
    assert!(matches!(
        p,
        Probe::Pass(s) if s == "running · nbac-builder:abc · 4 cpus · 6G · image outdated; the next connection recreates the machine"
    ));
    assert!(matches!(n, Next::ProbeAt(ip) if ip == "192.168.64.3"));
}

#[test]
fn ssh_probe() {
    assert!(matches!(probe_ssh("10.0.0.2", 22, true), Probe::Pass(s) if s == "10.0.0.2:22 reachable"));
    assert!(matches!(probe_ssh("10.0.0.2", 2222, false), Probe::Fail(s) if s == "10.0.0.2:2222 unreachable"));
}

#[test]
fn store_probe() {
    assert!(matches!(probe_store(Ok((true, vec![]))), Probe::Pass(s) if s == "nix daemon responsive"));
    assert!(matches!(
        probe_store(Ok((false, b"warning: x\nerror: cannot connect\n\n  \n".to_vec()))),
        Probe::Fail(s) if s == "error: cannot connect"
    ));
    assert!(matches!(probe_store(Ok((false, b"\n \n".to_vec()))), Probe::Fail(s) if s == "ssh failed"));
    assert!(matches!(
        probe_store(Err("No such file".to_string())),
        Probe::Fail(s) if s == "cannot run ssh: No such file"
    ));
}

#[test]
fn any_failure_fails_status() {
    assert!(!any_failed(&vec![Probe::Pass("a".into()), Probe::Skip("b".into())]));
    assert!(any_failed(&vec![Probe::Pass("a".into()), Probe::Fail("b".into())]));
    assert!(!any_failed(&vec![]));
}

#[test]
fn shown_sizes_read_back() {
    for bytes in [1u64 << 20, 6 << 30, 1536 << 20, 3 << 40, (1 << 20) * 7] {
        assert_eq!(nbac::machine::parse_memory(&format_memory(bytes)).unwrap(), bytes);
    }
}
