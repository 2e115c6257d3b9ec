use nbac::container::{CommandOutput, Error, Mode, Runtime};
use nbac::driver::{run_result, Driver, Outcome, Step, FIRST_DELAY_MS, MAX_BOOT_RETRIES, MAX_DELAY_MS};

fn driver_runtime() -> Runtime {
    Runtime { binary: "/usr/local/bin/container".to_string(), asuser: None }
}

fn exited(success: bool, stderr: &str) -> Outcome {
    Ok(CommandOutput {
        success,
        status: if success { "exit status: 0".to_string() } else { "exit status: 1".to_string() },
        stdout: b"out".to_vec(),
        stderr: stderr.as_bytes().to_vec(),
    })
}

fn running(step: Step) -> (Driver, Option<String>, u64) {
    match step {
        Step::Run { driver, note, delay_ms } => (driver, note, delay_ms),
        Step::Done(r) => panic!("finished early: {r:?}"),
    }
}

fn finished(step: Step) -> Result<CommandOutput, Error> {
    match step {
        Step::Done(r) => r,
        Step::Run { driver, .. } => panic!("still running {:?}", driver.pending().argv),
    }
}

fn list_call(recover: bool, retry_booting: bool) -> Step {
    let rt = driver_runtime();
    let call = rt.call(vec!["machine".to_string(), "list".to_string()], Mode::Captured, recover, retry_booting);
    Driver::begin(&rt, call)
}

#[test]
fn successful_call_finishes_at_once() {
    let (d, note, delay) = running(list_call(true, false));
    assert!(note.is_none());
    assert_eq!(delay, 0);
    assert_eq!(d.pending().argv, vec!["/usr/local/bin/container", "machine", "list"]);
    let out = finished(d.resume(exited(true, ""))).unwrap();
    assert_eq!(out.stdout, b"out".to_vec());
}

#[test]
fn down_services_are_started_once_then_the_call_is_retried() {
    let (d, _, _) = running(list_call(true, false));
    let (d, note, _) = running(d.resume(exited(false, "XPC connection interrupted")));
    assert_eq!(note.as_deref(), Some("starting container services"));
    assert_eq!(d.pending().argv, vec!["/usr/local/bin/container", "system", "start"]);
    let (d, note, _) = running(d.resume(exited(true, "")));
    assert!(note.is_none());
    assert_eq!(d.pending().argv, vec!["/usr/local/bin/container", "machine", "list"]);
    let r = finished(d.resume(exited(false, "XPC connection interrupted")));
    assert!(matches!(r, Err(Error::RuntimeDown { .. })));
}

#[test]
fn missing_kernel_is_installed_then_the_call_is_retried() {
    let (d, _, _) = running(list_call(true, false));
    let (d, note, _) = running(d.resume(exited(false, "Error: notFound: default kernel not configured")));
    assert_eq!(note.as_deref(), Some("installing the recommended default kernel"));
    assert_eq!(
        d.pending().argv,
        vec!["/usr/local/bin/container", "system", "kernel", "set", "--recommended"]
    );
    assert_eq!(d.pending().mode, Mode::Streamed);
    let (d, _, _) = running(d.resume(exited(true, "")));
    assert!(finished(d.resume(exited(true, ""))).is_ok());
}

#[test]
fn failed_remedy_is_the_result() {
    let (d, _, _) = running(list_call(true, false));
    let (d, _, _) = running(d.resume(exited(false, "apiserver unreachable")));
    let r = finished(d.resume(exited(false, "launchd said no")));
    match r {
        Err(Error::Failed { command, stderr, .. }) => {
            assert_eq!(command, "/usr/local/bin/container system start");
            assert_eq!(stderr, "launchd said no");
        }
        other => panic!("unexpected {other:?}"),
    }
}

#[test]
fn calls_without_recovery_fail_directly() {
    let (d, _, _) = running(list_call(false, false));
    assert!(matches!(finished(d.resume(exited(false, "xpc error"))), Err(Error::RuntimeDown { .. })));
}

#[test]
fn booting_machine_is_retried_with_backoff() {
    let (mut d, _, _) = running(list_call(true, true));
    let mut delays = Vec::new();
    loop {
        match d.resume(exited(false, "Inappropriate ioctl for device")) {
            Step::Run { driver, note, delay_ms } => {
                assert!(note.is_none());
                delays.push(delay_ms);
                d = driver;
            }
            Step::Done(r) => {
                assert!(matches!(r, Err(Error::Booting { .. })));
                break;
            }
        }
    }
    assert_eq!(delays, vec![200, 400, 800, 1600, 2000, 2000, 2000, 2000]);
    assert_eq!(delays.len() as u32, MAX_BOOT_RETRIES);
    assert_eq!(delays[0], FIRST_DELAY_MS);
    assert_eq!(*delays.last().unwrap(), MAX_DELAY_MS);
}

#[test]
fn booting_is_final_without_retry() {
    let (d, _, _) = running(list_call(true, false));
    assert!(matches!(
        finished(d.resume(exited(false, "inappropriate ioctl"))),
        Err(Error::Booting { .. })
    ));
}

#[test]
fn spawn_failures_name_the_binary() {
    let (d, _, _) = running(list_call(true, true));
    match finished(d.resume(Err("No such file or directory".to_string()))) {
        Err(Error::Spawn { binary, message }) => {
            assert_eq!(binary, "/usr/local/bin/container");
            assert_eq!(message, "No such file or directory");
        }
        other => panic!("unexpected {other:?}"),
    }
}

#[test]
fn streamed_failures_point_at_the_output() {
    let binary = "container".to_string();
    let command = "container build".to_string();
    match run_result(&binary, Mode::Streamed, &command, exited(false, "boom")) {
        Err(Error::Failed { stderr, .. }) => assert_eq!(stderr, "see output above"),
        other => panic!("unexpected {other:?}"),
    }
    match run_result(&binary, Mode::Captured, &command, exited(false, "boom")) {
        Err(Error::Failed { stderr, .. }) => assert_eq!(stderr, "boom"),
        other => panic!("unexpected {other:?}"),
    }
    assert!(matches!(
        run_result(&binary, Mode::Streamed, &command, exited(false, "not found")),
        Err(Error::NotFound { .. })
    ));
}
