//! The protocol every `container` call runs under. The caller runs each
//! invocation the driver hands out and feeds back what happened; the driver
//! decides what runs next and when the call is done:
//!
//! - recovery: when a recoverable call fails because the services are down
//!   or no default kernel is installed, the remedy (`system start`, or
//!   `system kernel set --recommended`) runs and the call is retried, each
//!   remedy at most once per attempt;
//! - boot backoff: a call that races a machine boot is retried after a
//!   delay that starts at 200 ms and doubles up to 2 s, at most eight times.

use vstd::prelude::*;

use crate::container::{classify, classify_spec, Call, CommandOutput, Error, ErrorView, Invocation, Mode, Runtime};
use crate::text::owned;

verus! {

/// What running one invocation gave: its output, or why it could not be
/// started.
pub type Outcome = Result<CommandOutput, String>;

/// The error a finished run stands for, if it failed: a spawn failure, or
/// the classification of its stderr. A streamed run's generic failure does
/// not repeat the output the user already watched scroll by.
pub open spec fn run_error(binary: Seq<char>, mode: Mode, command: Seq<char>, outcome: Outcome) -> Option<
    ErrorView,
> {
    match outcome {
        Err(message) => Some(ErrorView::Spawn { binary, message: message@ }),
        Ok(out) => if out.success {
            None
        } else {
            let e = classify_spec(command, out.status@, out.stderr@);
            Some(
                match e {
                    ErrorView::Failed { command, status, stderr } => if mode == Mode::Streamed {
                        ErrorView::Failed { command, status, stderr: "see output above"@ }
                    } else {
                        e
                    },
                    _ => e,
                },
            )
        },
    }
}

/// The result of one run: its output when it succeeded, else its error.
pub open spec fn run_result_matches(
    r: Result<CommandOutput, Error>,
    binary: Seq<char>,
    mode: Mode,
    command: Seq<char>,
    outcome: Outcome,
) -> bool {
    match run_error(binary, mode, command, outcome) {
        None => outcome matches Ok(out) && r == Ok::<CommandOutput, Error>(out),
        Some(ev) => r matches Err(e) && e@ == ev,
    }
}

/// Turns what one run gave into its result.
pub fn run_result(binary: &String, mode: Mode, command: &String, outcome: Outcome) -> (r: Result<
    CommandOutput,
    Error,
>)
    ensures
        run_result_matches(r, binary@, mode, command@, outcome),
        r is Ok <==> (outcome matches Ok(out) && out.success),
{
    proof {
        lemma_run_error_exact(binary@, mode, command@, outcome);
    }
    match outcome {
        Err(message) => Err(Error::Spawn { binary: binary.clone(), message }),
        Ok(out) => {
            if out.success {
                Ok(out)
            } else {
                let e = classify(command.clone(), &out);
                match e {
                    Error::Failed { command, status, stderr } => {
                        if mode == Mode::Streamed {
                            Err(
                                Error::Failed {
                                    command,
                                    status,
                                    stderr: owned("see output above"),
                                },
                            )
                        } else {
                            Err(Error::Failed { command, status, stderr })
                        }
                    },
                    e => Err(e),
                }
            }
        },
    }
}

/// Whether the error says the machine is still booting.
pub open spec fn says_booting(err: Option<ErrorView>) -> bool {
    err matches Some(ErrorView::Booting { .. })
}

/// Whether the error says the services are down.
pub open spec fn says_down(err: Option<ErrorView>) -> bool {
    err matches Some(ErrorView::RuntimeDown { .. })
}

/// Whether the error says no default kernel is configured.
pub open spec fn says_no_kernel(err: Option<ErrorView>) -> bool {
    err matches Some(ErrorView::NoDefaultKernel { .. })
}

/// Which invocation the driver waits on.
#[derive(Debug, Clone, Copy, PartialEq, Eq, Structural)]
pub enum Phase {
    /// The call itself.
    Main,
    /// `container system start`, before retrying the call.
    Starting,
    /// `container system kernel set --recommended`, before retrying.
    InstallingKernel,
}

/// The state of one call in progress.
#[derive(Debug)]
pub struct Driver {
    pub call: Call,
    pub start: Call,
    pub kernel: Call,
    pub binary: String,
    pub phase: Phase,
    /// Whether this attempt already started the services.
    pub started: bool,
    /// Whether this attempt already installed the default kernel.
    pub kernel_set: bool,
    /// How many boot retries have been slept for.
    pub sleeps: u32,
    /// The delay before the next boot retry.
    pub delay_ms: u64,
}

/// What to do next: run the driver's pending invocation (after printing
/// `note` and sleeping `delay_ms`), or stop with the call's result.
#[derive(Debug)]
pub enum Step {
    Run { driver: Driver, note: Option<String>, delay_ms: u64 },
    Done(Result<CommandOutput, Error>),
}

/// At most this many boot retries.
pub const MAX_BOOT_RETRIES: u32 = 8;

/// The first boot retry delay.
pub const FIRST_DELAY_MS: u64 = 200;

/// The longest boot retry delay.
pub const MAX_DELAY_MS: u64 = 2000;

impl Driver {
    /// The state every step keeps: a bounded retry count and delay.
    pub open spec fn wf(&self) -> bool {
        &&& self.sleeps <= MAX_BOOT_RETRIES
        &&& self.delay_ms <= MAX_DELAY_MS
        &&& self.phase == Phase::Starting ==> self.started
        &&& self.phase == Phase::InstallingKernel ==> self.kernel_set
    }

    /// An upper bound on the runs still to come, counting the pending one:
    /// it falls with every step, so every call finishes.
    pub open spec fn measure(&self) -> nat {
        let local: nat = match self.phase {
            Phase::Main => 1 + (if self.started {
                0nat
            } else {
                2nat
            }) + (if self.kernel_set {
                0nat
            } else {
                2nat
            }),
            Phase::Starting => 2 + (if self.kernel_set {
                0nat
            } else {
                2nat
            }),
            Phase::InstallingKernel => 2 + (if self.started {
                0nat
            } else {
                2nat
            }),
        };
        ((MAX_BOOT_RETRIES - self.sleeps) * 6 + local) as nat
    }

    /// The call the pending invocation belongs to.
    pub open spec fn current(&self) -> Call {
        match self.phase {
            Phase::Main => self.call,
            Phase::Starting => self.start,
            Phase::InstallingKernel => self.kernel,
        }
    }

    /// Whether `next` is this driver moved on to `phase` with the given
    /// flags, retry count and delay, and the same calls.
    pub open spec fn moved(
        &self,
        next: Driver,
        phase: Phase,
        started: bool,
        kernel_set: bool,
        sleeps: u32,
        delay_ms: u64,
    ) -> bool {
        &&& next.call == self.call
        &&& next.start == self.start
        &&& next.kernel == self.kernel
        &&& next.binary == self.binary
        &&& next.phase == phase
        &&& next.started == started
        &&& next.kernel_set == kernel_set
        &&& next.sleeps == sleeps
        &&& next.delay_ms == delay_ms
    }

    /// The step after an attempt ended with `r` (whose error is `err`): a
    /// boot retry when the call retries while booting, the error says the
    /// machine is booting and retries remain; the result otherwise.
    pub open spec fn finish_step(
        &self,
        s: Step,
        r: Result<CommandOutput, Error>,
        err: Option<ErrorView>,
    ) -> bool {
        if self.call.retry_booting && says_booting(err) && self.sleeps < MAX_BOOT_RETRIES {
            s matches Step::Run { driver, note, delay_ms } && note is None && delay_ms
                == self.delay_ms && self.moved(
                driver,
                Phase::Main,
                false,
                false,
                (self.sleeps + 1) as u32,
                if self.delay_ms * 2 < MAX_DELAY_MS {
                    (self.delay_ms * 2) as u64
                } else {
                    MAX_DELAY_MS
                },
            )
        } else {
            s == Step::Done(r)
        }
    }

    /// The invocation to run next.
    pub fn pending(&self) -> (inv: &Invocation)
        ensures
            inv == self.current().run,
    {
        match self.phase {
            Phase::Main => &self.call.run,
            Phase::Starting => &self.start.run,
            Phase::InstallingKernel => &self.kernel.run,
        }
    }

    /// Begins `call` on `runtime`: the call itself runs first.
    pub fn begin(runtime: &Runtime, call: Call) -> (s: Step)
        ensures
            s matches Step::Run { driver, note, delay_ms } && {
                &&& note is None
                &&& delay_ms == 0
                &&& driver.call == call
                &&& driver.binary == runtime.binary
                &&& runtime.call_spec(
                    driver.start,
                    seq!["system"@, "start"@],
                    Mode::Captured,
                    false,
                    false,
                )
                &&& runtime.call_spec(
                    driver.kernel,
                    seq!["system"@, "kernel"@, "set"@, "--recommended"@],
                    Mode::Streamed,
                    false,
                    false,
                )
                &&& driver.phase == Phase::Main
                &&& !driver.started
                &&& !driver.kernel_set
                &&& driver.sleeps == 0
                &&& driver.delay_ms == FIRST_DELAY_MS
                &&& driver.wf()
            },
    {
        let driver = Driver {
            call,
            start: runtime.system_start(),
            kernel: runtime.kernel_set_recommended(),
            binary: runtime.binary.clone(),
            phase: Phase::Main,
            started: false,
            kernel_set: false,
            sleeps: 0,
            delay_ms: FIRST_DELAY_MS,
        };
        Step::Run { driver, note: None, delay_ms: 0 }
    }

    fn finish(self, r: Result<CommandOutput, Error>, err: Ghost<Option<ErrorView>>) -> (s: Step)
        requires
            self.wf(),
            match err@ {
                None => r is Ok,
                Some(ev) => r matches Err(e) && e@ == ev,
            },
        ensures
            self.finish_step(s, r, err@),
            s matches Step::Run { driver, .. } ==> driver.wf() && driver.measure()
                < self.measure(),
    {
        let booting = match &r {
            Err(Error::Booting { .. }) => true,
            _ => false,
        };
        if self.call.retry_booting && booting && self.sleeps < MAX_BOOT_RETRIES {
            let delay = self.delay_ms;
            let next_delay = if delay * 2 < MAX_DELAY_MS {
                delay * 2
            } else {
                MAX_DELAY_MS
            };
            let driver = Driver {
                phase: Phase::Main,
                started: false,
                kernel_set: false,
                sleeps: self.sleeps + 1,
                delay_ms: next_delay,
                ..self
            };
            Step::Run { driver, note: None, delay_ms: delay }
        } else {
            Step::Done(r)
        }
    }

    /// Takes what running the pending invocation gave and decides the next
    /// step.
    pub fn resume(self, outcome: Outcome) -> (s: Step)
        requires
            self.wf(),
        ensures
            s matches Step::Run { driver, .. } ==> driver.wf() && driver.measure()
                < self.measure(),
            ({
                let cur = self.current();
                let err = run_error(self.binary@, cur.run.mode, cur.command@, outcome);
                exists|r: Result<CommandOutput, Error>|
                    #![trigger run_result_matches(r, self.binary@, cur.run.mode, cur.command@, outcome)]
                    run_result_matches(r, self.binary@, cur.run.mode, cur.command@, outcome) && match self.phase {
                        Phase::Main => if self.call.recover && says_down(err) && !self.started {
                            s matches Step::Run { driver, note, delay_ms } && note matches Some(n)
                                && n@ == "starting container services"@ && delay_ms == 0
                                && self.moved(
                                driver,
                                Phase::Starting,
                                true,
                                self.kernel_set,
                                self.sleeps,
                                self.delay_ms,
                            )
                        } else if self.call.recover && says_no_kernel(err) && !self.kernel_set {
                            s matches Step::Run { driver, note, delay_ms } && note matches Some(n)
                                && n@ == "installing the recommended default kernel"@ && delay_ms
                                == 0 && self.moved(
                                driver,
                                Phase::InstallingKernel,
                                self.started,
                                true,
                                self.sleeps,
                                self.delay_ms,
                            )
                        } else {
                            self.finish_step(s, r, err)
                        },
                        _ => if err is None {
                            s matches Step::Run { driver, note, delay_ms } && note is None
                                && delay_ms == 0 && self.moved(
                                driver,
                                Phase::Main,
                                self.started,
                                self.kernel_set,
                                self.sleeps,
                                self.delay_ms,
                            )
                        } else {
                            self.finish_step(s, r, err)
                        },
                    }
            }),
    {
        let (mode, r) = match self.phase {
            Phase::Main => (
                self.call.run.mode,
                run_result(&self.binary, self.call.run.mode, &self.call.command, outcome),
            ),
            Phase::Starting => (
                self.start.run.mode,
                run_result(&self.binary, self.start.run.mode, &self.start.command, outcome),
            ),
            Phase::InstallingKernel => (
                self.kernel.run.mode,
                run_result(&self.binary, self.kernel.run.mode, &self.kernel.command, outcome),
            ),
        };
        let ghost cur = self.current();
        let ghost err = run_error(self.binary@, cur.run.mode, cur.command@, outcome);
        assert(run_result_matches(r, self.binary@, cur.run.mode, cur.command@, outcome));
        match self.phase {
            Phase::Main => {
                let down = match &r {
                    Err(Error::RuntimeDown { .. }) => true,
                    _ => false,
                };
                let no_kernel = match &r {
                    Err(Error::NoDefaultKernel { .. }) => true,
                    _ => false,
                };
                if self.call.recover && down && !self.started {
                    let driver = Driver { phase: Phase::Starting, started: true, ..self };
                    Step::Run {
                        driver,
                        note: Some(owned("starting container services")),
                        delay_ms: 0,
                    }
                } else if self.call.recover && no_kernel && !self.kernel_set {
                    let driver = Driver { phase: Phase::InstallingKernel, kernel_set: true, ..self };
                    Step::Run {
                        driver,
                        note: Some(owned("installing the recommended default kernel")),
                        delay_ms: 0,
                    }
                } else {
                    self.finish(r, Ghost(err))
                }
            },
            _ => {
                if r.is_ok() {
                    let driver = Driver { phase: Phase::Main, ..self };
                    Step::Run { driver, note: None, delay_ms: 0 }
                } else {
                    self.finish(r, Ghost(err))
                }
            },
        }
    }
}


/// Every call finishes: each step of a well-formed driver lowers its
/// measure (see `Driver::resume`), and no measure exceeds 53, so a call
/// runs at most 53 invocations, remedies and boot retries included.
pub proof fn lemma_runs_bounded(d: Driver)
    requires
        d.wf(),
    ensures
        d.measure() <= 53,
        d.measure() >= 1,
{
}


/// A run succeeds exactly when the process started and exited
/// successfully: an unsuccessful exit is an error whatever it printed, and
/// a process that could not be started fails with `Spawn`.
pub proof fn lemma_run_error_exact(binary: Seq<char>, mode: Mode, command: Seq<char>, outcome: Outcome)
    ensures
        run_error(binary, mode, command, outcome) is None <==> (outcome matches Ok(out) && out.success),
        outcome matches Err(m) ==> run_error(binary, mode, command, outcome) == Some(
            ErrorView::Spawn { binary, message: m@ },
        ),
{
}

} // verus!
