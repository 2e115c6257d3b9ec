//! The verdicts of the read-only status probes: runtime, machine, guest
//! sshd, remote store. Running the probes (concurrently, with no retry, no
//! recovery and no lock) is the caller's; what each outcome means is here.

use vstd::prelude::*;

use crate::container::{error_message_spec, Error, MachineInfo, MachineStatus, SystemStatus};
use crate::machine::{reference_matches, reference_matches_spec};
use crate::text::{
    chars_of, chars_equal, concat, decimal, decimal_string, from_utf8_lossy, owned, pieces,
    split_at_char, string_from_chars, trim, trimmed, utf8_lossy,
};

verus! {

/// One probe's verdict and its detail.
#[derive(Debug)]
pub enum Probe {
    Pass(String),
    Skip(String),
    Fail(String),
}

/// The view of a `Probe`.
pub enum ProbeView {
    Pass(Seq<char>),
    Skip(Seq<char>),
    Fail(Seq<char>),
}

impl View for Probe {
    type V = ProbeView;

    open spec fn view(&self) -> ProbeView {
        match self {
            Probe::Pass(s) => ProbeView::Pass(s@),
            Probe::Skip(s) => ProbeView::Skip(s@),
            Probe::Fail(s) => ProbeView::Fail(s@),
        }
    }
}

/// A byte count the way status shows it: whole GiB as `G`, else whole MiB
/// as `M`, else bytes as `B`.
pub open spec fn format_memory_spec(bytes: u64) -> Seq<char> {
    let gib: nat = 1073741824;
    let mib: nat = 1048576;
    if bytes >= gib && (bytes as nat) % gib == 0 {
        decimal(bytes as nat / gib) + "G"@
    } else if bytes >= mib && (bytes as nat) % mib == 0 {
        decimal(bytes as nat / mib) + "M"@
    } else {
        decimal(bytes as nat) + "B"@
    }
}

/// Formats a byte count.
pub fn format_memory(bytes: u64) -> (s: String)
    ensures
        s@ == format_memory_spec(bytes),
{
    let gib: u64 = 1073741824;
    let mib: u64 = 1048576;
    if bytes >= gib && bytes % gib == 0 {
        let mut s = decimal_string(bytes / gib);
        s.append("G");
        s
    } else if bytes >= mib && bytes % mib == 0 {
        let mut s = decimal_string(bytes / mib);
        s.append("M");
        s
    } else {
        let mut s = decimal_string(bytes);
        s.append("B");
        s
    }
}

/// The runtime probe: healthy when the services report `running`.
pub open spec fn probe_runtime_spec(r: Result<SystemStatus, Error>) -> ProbeView {
    match r {
        Ok(status) => if status.status@ == "running"@ {
            ProbeView::Pass("running"@)
        } else {
            ProbeView::Fail(status.status@ + " (run `nbac start`)"@)
        },
        Err(e) => match e {
            Error::RuntimeDown { .. } => ProbeView::Fail("services not running (run `nbac start`)"@),
            _ => ProbeView::Fail(error_message_spec(e@)),
        },
    }
}

/// Whether `s` is `running`.
pub fn is_running_text(s: &String) -> (b: bool)
    ensures
        b == (s@ == "running"@),
{
    let a = chars_of(s.as_str());
    let b = chars_of("running");
    chars_equal(a.as_slice(), b.as_slice())
}

/// The runtime probe's verdict on a `system status` result.
pub fn probe_runtime(r: Result<SystemStatus, Error>) -> (p: Probe)
    ensures
        p@ == probe_runtime_spec(r),
{
    match r {
        Ok(status) => {
            if is_running_text(&status.status) {
                Probe::Pass(owned("running"))
            } else {
                Probe::Fail(concat(status.status.as_str(), " (run `nbac start`)"))
            }
        },
        Err(Error::RuntimeDown { .. }) => Probe::Fail(owned("services not running (run `nbac start`)")),
        Err(e) => Probe::Fail(e.message()),
    }
}

/// Whether the services need starting before the cold path: anything but
/// a status of `running`.
pub fn services_running(r: &Result<SystemStatus, Error>) -> (b: bool)
    ensures
        b == (r matches Ok(s) && s.status@ == "running"@),
{
    match r {
        Ok(s) => is_running_text(&s.status),
        Err(_) => false,
    }
}

/// What follows the machine probe: the SSH and store probes both skipped
/// for a reason, or both run against the address the machine reports.
#[derive(Debug)]
pub enum Next {
    Skip(String),
    ProbeAt(String),
}

/// The view of a `Next`.
pub enum NextView {
    Skip(Seq<char>),
    ProbeAt(Seq<char>),
}

impl View for Next {
    type V = NextView;

    open spec fn view(&self) -> NextView {
        match self {
            Next::Skip(s) => NextView::Skip(s@),
            Next::ProbeAt(s) => NextView::ProbeAt(s@),
        }
    }
}

/// The machine's image, resources and, when it is not built from the
/// expected tag, that the next connection recreates it.
pub open spec fn machine_detail_spec(info: MachineInfo, expected_tag: Option<Seq<char>>) -> Seq<char> {
    let base = info.image.reference@ + " · "@ + decimal(info.cpus as nat) + " cpus · "@
        + format_memory_spec(info.memory);
    match expected_tag {
        Some(tag) => if !reference_matches_spec(info.image.reference@, tag) {
            base + " · image outdated; the next connection recreates the machine"@
        } else {
            base
        },
        None => base,
    }
}

/// The machine probe's verdict on one inspect, and what follows it:
/// - no machine: a failure, and nothing to probe;
/// - services down: unknown, and nothing to probe;
/// - inspect failed: its message, and nothing to probe;
/// - stopped: healthy (it starts on demand), and nothing to probe;
/// - running without an address: a failure, and nothing to probe;
/// - running: healthy, and SSH and the store probed at its address.
pub open spec fn probe_machine_spec(
    inspected: Result<Option<MachineInfo>, Error>,
    expected_tag: Option<Seq<char>>,
) -> (ProbeView, NextView) {
    match inspected {
        Ok(None) => (ProbeView::Fail("not created (run `nbac setup`)"@), NextView::Skip("no machine"@)),
        Err(e) => match e {
            Error::RuntimeDown { .. } => (
                ProbeView::Skip("unknown (services not running)"@),
                NextView::Skip("services not running"@),
            ),
            _ => (ProbeView::Fail(error_message_spec(e@)), NextView::Skip("inspect failed"@)),
        },
        Ok(Some(info)) => {
            let detail = machine_detail_spec(info, expected_tag);
            if info.status != MachineStatus::Running {
                (
                    ProbeView::Pass("stopped (starts on demand) · "@ + detail),
                    NextView::Skip("machine stopped"@),
                )
            } else {
                match info.ip_address {
                    None => (
                        ProbeView::Fail("running · "@ + detail + " · no IP address"@),
                        NextView::Skip("machine reports no IP"@),
                    ),
                    Some(ip) => (ProbeView::Pass("running · "@ + detail), NextView::ProbeAt(ip@)),
                }
            }
        },
    }
}

fn machine_detail(info: &MachineInfo, expected_tag: Option<&str>) -> (s: String)
    ensures
        s@ == machine_detail_spec(
            *info,
            match expected_tag {
                Some(t) => Some(t@),
                None => None,
            },
        ),
{
    let mut s = info.image.reference.clone();
    s.append(" · ");
    s.append(decimal_string(info.cpus as u64).as_str());
    s.append(" cpus · ");
    s.append(format_memory(info.memory).as_str());
    match expected_tag {
        Some(tag) => {
            if !reference_matches(info.image.reference.as_str(), tag) {
                s.append(" · image outdated; the next connection recreates the machine");
            }
        },
        None => {},
    }
    s
}

/// Judges one machine inspect.
pub fn probe_machine(inspected: Result<Option<MachineInfo>, Error>, expected_tag: Option<&str>) -> (r: (
    Probe,
    Next,
))
    ensures
        (r.0@, r.1@) == probe_machine_spec(
            inspected,
            match expected_tag {
                Some(t) => Some(t@),
                None => None,
            },
        ),
{
    match inspected {
        Ok(None) => (Probe::Fail(owned("not created (run `nbac setup`)")), Next::Skip(owned("no machine"))),
        Err(Error::RuntimeDown { .. }) => (
            Probe::Skip(owned("unknown (services not running)")),
            Next::Skip(owned("services not running")),
        ),
        Err(e) => (Probe::Fail(e.message()), Next::Skip(owned("inspect failed"))),
        Ok(Some(info)) => {
            let detail = machine_detail(&info, expected_tag);
            if info.status != MachineStatus::Running {
                (
                    Probe::Pass(concat("stopped (starts on demand) · ", detail.as_str())),
                    Next::Skip(owned("machine stopped")),
                )
            } else {
                match info.ip_address {
                    None => {
                        let mut m = concat("running · ", detail.as_str());
                        m.append(" · no IP address");
                        (Probe::Fail(m), Next::Skip(owned("machine reports no IP")))
                    },
                    Some(ip) => (Probe::Pass(concat("running · ", detail.as_str())), Next::ProbeAt(ip)),
                }
            }
        },
    }
}

/// The SSH probe: whether the guest sshd answered on `ip` and `port`.
pub fn probe_ssh(ip: &str, port: u16, reachable: bool) -> (p: Probe)
    ensures
        p@ == if reachable {
            ProbeView::Pass(ip@ + ":"@ + decimal(port as nat) + " reachable"@)
        } else {
            ProbeView::Fail(ip@ + ":"@ + decimal(port as nat) + " unreachable"@)
        },
{
    let mut s = concat(ip, ":");
    s.append(decimal_string(port as u64).as_str());
    if reachable {
        s.append(" reachable");
        Probe::Pass(s)
    } else {
        s.append(" unreachable");
        Probe::Fail(s)
    }
}

/// The last line of `lines` that is not blank, trimmed.
pub open spec fn last_nonblank(lines: Seq<Seq<char>>) -> Option<Seq<char>>
    decreases lines.len(),
{
    if lines.len() == 0 {
        None
    } else if trim(lines.last()).len() > 0 {
        Some(trim(lines.last()))
    } else {
        last_nonblank(lines.drop_last())
    }
}

/// The store probe's verdict on the SSH session that ran `nix store info`:
/// healthy when it succeeded; otherwise the last non-blank line of its
/// stderr, or that ssh could not be run at all.
pub open spec fn probe_store_spec(outcome: Result<(bool, Seq<u8>), Seq<char>>) -> ProbeView {
    match outcome {
        Ok((success, stderr)) => if success {
            ProbeView::Pass("nix daemon responsive"@)
        } else {
            match last_nonblank(pieces(utf8_lossy(stderr), '\n')) {
                Some(line) => ProbeView::Fail(line),
                None => ProbeView::Fail("ssh failed"@),
            }
        },
        Err(message) => ProbeView::Fail("cannot run ssh: "@ + message),
    }
}

fn failed_session(stderr: &Vec<u8>) -> (p: Probe)
    ensures
        p@ == match last_nonblank(pieces(utf8_lossy(stderr@), '\n')) {
            Some(line) => ProbeView::Fail(line),
            None => ProbeView::Fail("ssh failed"@),
        },
{
    let text = from_utf8_lossy(stderr.as_slice());
    let chars = chars_of(text.as_str());
    let lines = split_at_char(chars.as_slice(), '\n');
    let ghost views = lines@.map_values(|w: Vec<char>| w@);
    let mut i: usize = lines.len();
    assert(views.take(i as int) =~= views);
    while i > 0
        invariant
            i <= lines@.len(),
            views == lines@.map_values(|w: Vec<char>| w@),
            views == pieces(utf8_lossy(stderr@), '\n'),
            last_nonblank(views) == last_nonblank(views.take(i as int)),
        decreases i,
    {
        let t = trimmed(lines[i - 1].as_slice());
        assert(views.take(i as int).last() == lines@[i - 1]@);
        if t.len() > 0 {
            return Probe::Fail(string_from_chars(t.as_slice()));
        }
        assert(views.take(i as int).drop_last() =~= views.take(i - 1));
        i = i - 1;
    }
    Probe::Fail(owned("ssh failed"))
}

/// Judges the store probe's SSH session: whether it succeeded and its
/// stderr, or why ssh could not be run.
pub fn probe_store(outcome: Result<(bool, Vec<u8>), String>) -> (p: Probe)
    ensures
        p@ == probe_store_spec(
            match outcome {
                Ok((s, e)) => Ok((s, e@)),
                Err(m) => Err(m@),
            },
        ),
{
    match outcome {
        Ok((success, stderr)) => {
            if success {
                Probe::Pass(owned("nix daemon responsive"))
            } else {
                failed_session(&stderr)
            }
        },
        Err(message) => Probe::Fail(concat("cannot run ssh: ", message.as_str())),
    }
}

/// Whether any probe failed, which makes status exit non-zero.
pub fn any_failed(probes: &Vec<Probe>) -> (b: bool)
    ensures
        b == exists|i: int| 0 <= i < probes@.len() && probes@[i] is Fail,
{
    let mut i: usize = 0;
    while i < probes.len()
        invariant
            i <= probes@.len(),
            forall|k: int| 0 <= k < i ==> !(probes@[k] is Fail),
        decreases probes@.len() - i,
    {
        match &probes[i] {
            Probe::Fail(_) => {
                return true;
            },
            _ => {},
        }
        i = i + 1;
    }
    false
}

} // verus!
