//! The Apple `container` CLI as this crate drives it: the argument vector
//! of every call, how a failed call is classified, and how a finished call's
//! output turns into a result. Running a call is the caller's: see
//! `driver` for the recovery and backoff protocol around each run.

use vstd::prelude::*;

use crate::config;
use crate::config::Machine;
use crate::text::{
    chars_equal, chars_of, concat, contains, contains_chars, decimal, decimal_string,
    from_utf8_lossy, join_strings, join_with, lowercase, owned, pieces, split_at_char,
    split_words, to_lowercase, trim, trimmed, utf8_lossy, words, is_ws, starts_with, run_len,
    lemma_words_in_text, lemma_run_len_bound, lemma_run_len_at, lemma_run_len_absent, lemma_pieces_nonempty,
};

verus! {

/// The `container` release series supported; behavior of the CLI (argument
/// shapes, error strings, kernel handling) shifts between minor releases,
/// but patch releases within a series stay compatible.
pub const SUPPORTED_SERIES: &'static str = "1.2";

/// Why a `container` call failed.
#[derive(Debug)]
pub enum Error {
    /// The CLI could not be started at all.
    Spawn { binary: String, message: String },
    /// `container --version` reported a release outside the supported series.
    UnsupportedVersion { found: String },
    /// The `container` services are not running.
    RuntimeDown { stderr: String },
    /// No default kernel is configured.
    NoDefaultKernel { stderr: String },
    /// The machine or image named does not exist.
    NotFound { stderr: String },
    /// The machine is still booting.
    Booting { stderr: String },
    /// Any other failure.
    Failed { command: String, status: String, stderr: String },
    /// The call's JSON output did not parse.
    Parse { command: String, message: String },
}

/// The view of an `Error`: its variant and its texts.
pub enum ErrorView {
    Spawn { binary: Seq<char>, message: Seq<char> },
    UnsupportedVersion { found: Seq<char> },
    RuntimeDown { stderr: Seq<char> },
    NoDefaultKernel { stderr: Seq<char> },
    NotFound { stderr: Seq<char> },
    Booting { stderr: Seq<char> },
    Failed { command: Seq<char>, status: Seq<char>, stderr: Seq<char> },
    Parse { command: Seq<char>, message: Seq<char> },
}

impl View for Error {
    type V = ErrorView;

    open spec fn view(&self) -> ErrorView {
        match self {
            Error::Spawn { binary, message } => ErrorView::Spawn { binary: binary@, message: message@ },
            Error::UnsupportedVersion { found } => ErrorView::UnsupportedVersion { found: found@ },
            Error::RuntimeDown { stderr } => ErrorView::RuntimeDown { stderr: stderr@ },
            Error::NoDefaultKernel { stderr } => ErrorView::NoDefaultKernel { stderr: stderr@ },
            Error::NotFound { stderr } => ErrorView::NotFound { stderr: stderr@ },
            Error::Booting { stderr } => ErrorView::Booting { stderr: stderr@ },
            Error::Failed { command, status, stderr } => ErrorView::Failed {
                command: command@,
                status: status@,
                stderr: stderr@,
            },
            Error::Parse { command, message } => ErrorView::Parse {
                command: command@,
                message: message@,
            },
        }
    }
}

/// The message an error displays.
pub open spec fn error_message_spec(e: ErrorView) -> Seq<char> {
    match e {
        ErrorView::Spawn { binary, message } => "cannot run `"@ + binary + "`: "@ + message,
        ErrorView::UnsupportedVersion { found } => "unsupported `container` version "@ + found
            + "; nbac supports "@ + "1.2"@ + ".x"@,
        ErrorView::RuntimeDown { stderr } => "container services are not running: "@ + stderr,
        ErrorView::NoDefaultKernel { stderr } => "no default kernel is configured: "@ + stderr,
        ErrorView::NotFound { stderr } => "not found: "@ + stderr,
        ErrorView::Booting { stderr } => "machine is still booting: "@ + stderr,
        ErrorView::Failed { command, status, stderr } => "`"@ + command + "` failed ("@ + status
            + "): "@ + stderr,
        ErrorView::Parse { command, message } => "cannot parse output of `"@ + command + "`: "@
            + message,
    }
}

impl Error {
    /// The message this error displays.
    pub fn message(&self) -> (m: String)
        ensures
            m@ == error_message_spec(self@),
    {
        let mut m = String::new();
        match self {
            Error::Spawn { binary, message } => {
                m.append("cannot run `");
                m.append(binary.as_str());
                m.append("`: ");
                m.append(message.as_str());
            },
            Error::UnsupportedVersion { found } => {
                m.append("unsupported `container` version ");
                m.append(found.as_str());
                m.append("; nbac supports ");
                m.append(SUPPORTED_SERIES);
                m.append(".x");
            },
            Error::RuntimeDown { stderr } => {
                m.append("container services are not running: ");
                m.append(stderr.as_str());
            },
            Error::NoDefaultKernel { stderr } => {
                m.append("no default kernel is configured: ");
                m.append(stderr.as_str());
            },
            Error::NotFound { stderr } => {
                m.append("not found: ");
                m.append(stderr.as_str());
            },
            Error::Booting { stderr } => {
                m.append("machine is still booting: ");
                m.append(stderr.as_str());
            },
            Error::Failed { command, status, stderr } => {
                m.append("`");
                m.append(command.as_str());
                m.append("` failed (");
                m.append(status.as_str());
                m.append("): ");
                m.append(stderr.as_str());
            },
            Error::Parse { command, message } => {
                m.append("cannot parse output of `");
                m.append(command.as_str());
                m.append("`: ");
                m.append(message.as_str());
            },
        }
        assert(m@ =~= error_message_spec(self@));
        m
    }
}

/// What a finished run of the CLI left: whether it exited successfully, its
/// exit status as displayed, and its captured output.
#[derive(Debug)]
pub struct CommandOutput {
    pub success: bool,
    pub status: String,
    pub stdout: Vec<u8>,
    pub stderr: Vec<u8>,
}

/// `container system status`.
#[derive(Debug)]
pub struct SystemStatus {
    pub status: String,
}

/// One record of `container machine inspect`.
#[derive(Debug)]
pub struct MachineInfo {
    pub id: String,
    pub status: MachineStatus,
    pub cpus: u32,
    pub memory: u64,
    pub image: MachineImage,
    pub ip_address: Option<String>,
}

/// The image a machine was created from.
#[derive(Debug)]
pub struct MachineImage {
    pub reference: String,
}

/// A machine's run state; any status other than running or stopped is
/// unknown.
#[derive(Debug, Clone, Copy, PartialEq, Eq, Structural)]
pub enum MachineStatus {
    Running,
    Stopped,
    Unknown,
}

/// How a call's output is handled while it runs.
#[derive(Debug, Clone, Copy, PartialEq, Eq, Structural)]
pub enum Mode {
    /// Run to completion with stdout and stderr captured.
    Captured,
    /// Stream stdout and stderr to the user, teeing stderr so failures can
    /// still be classified.
    Streamed,
    /// Feed `stdin` to the process and capture its output.
    Piped,
}

/// One process to run: the full argument vector (program first), how its
/// output is handled, and what it reads on stdin when piped.
#[derive(Debug)]
pub struct Invocation {
    pub argv: Vec<String>,
    pub mode: Mode,
    pub stdin: String,
}

/// A `container` call: the process to run, the command line failures name,
/// and whether the shared recovery routine and the boot backoff wrap it.
#[derive(Debug)]
pub struct Call {
    pub run: Invocation,
    pub command: String,
    pub recover: bool,
    pub retry_booting: bool,
}

/// The `container` CLI as reached from this process: its absolute path, and
/// the user whose launchd bootstrap namespace it runs in when this process
/// runs as root.
#[derive(Debug)]
pub struct Runtime {
    pub binary: String,
    pub asuser: Option<u32>,
}

/// The view of a `Call`: its argument vector, mode, stdin, command line
/// and policies.
pub struct CallView {
    pub argv: Seq<Seq<char>>,
    pub mode: Mode,
    pub stdin: Seq<char>,
    pub command: Seq<char>,
    pub recover: bool,
    pub retry_booting: bool,
}

impl View for Call {
    type V = CallView;

    open spec fn view(&self) -> CallView {
        CallView {
            argv: self.run.argv.deep_view(),
            mode: self.run.mode,
            stdin: self.run.stdin@,
            command: self.command@,
            recover: self.recover,
            retry_booting: self.retry_booting,
        }
    }
}

impl Runtime {
    /// The full argument vector that runs the CLI with `args`: directly, or
    /// re-entering the owning user's bootstrap namespace and dropping to that
    /// user when this process runs as root.
    pub open spec fn argv_spec(&self, args: Seq<Seq<char>>) -> Seq<Seq<char>> {
        match self.asuser {
            Some(uid) => seq![
                "/bin/launchctl"@,
                "asuser"@,
                decimal(uid as nat),
                "/usr/bin/sudo"@,
                "--user"@,
                "#"@ + decimal(uid as nat),
                "--set-home"@,
                "--non-interactive"@,
                "--"@,
                self.binary@,
            ] + args,
            None => seq![self.binary@] + args,
        }
    }

    /// The command line a failure names: the binary and `args`, space
    /// separated.
    pub open spec fn command_line_spec(&self, args: Seq<Seq<char>>) -> Seq<char> {
        self.binary@ + " "@ + join_with(args, " "@)
    }

    /// The view of the call that runs `args` in `mode`.
    pub open spec fn call_view(
        &self,
        args: Seq<Seq<char>>,
        mode: Mode,
        recover: bool,
        retry_booting: bool,
    ) -> CallView {
        CallView {
            argv: self.argv_spec(args),
            mode,
            stdin: Seq::<char>::empty(),
            command: self.command_line_spec(args),
            recover,
            retry_booting,
        }
    }

    /// Whether `c` is the call that runs `args` in `mode`.
    pub open spec fn call_spec(
        &self,
        c: Call,
        args: Seq<Seq<char>>,
        mode: Mode,
        recover: bool,
        retry_booting: bool,
    ) -> bool {
        c@ == self.call_view(args, mode, recover, retry_booting)
    }

    /// The argument vector that runs the CLI with `args`.
    pub fn command(&self, args: &Vec<String>) -> (argv: Vec<String>)
        ensures
            argv.deep_view() == self.argv_spec(args.deep_view()),
    {
        let mut argv: Vec<String> = Vec::new();
        match self.asuser {
            Some(uid) => {
                argv.push(owned("/bin/launchctl"));
                argv.push(owned("asuser"));
                argv.push(decimal_string(uid as u64));
                argv.push(owned("/usr/bin/sudo"));
                argv.push(owned("--user"));
                argv.push(concat("#", decimal_string(uid as u64).as_str()));
                argv.push(owned("--set-home"));
                argv.push(owned("--non-interactive"));
                argv.push(owned("--"));
                argv.push(self.binary.clone());
                assert(argv.deep_view() =~= seq![
                    "/bin/launchctl"@,
                    "asuser"@,
                    decimal(uid as nat),
                    "/usr/bin/sudo"@,
                    "--user"@,
                    "#"@ + decimal(uid as nat),
                    "--set-home"@,
                    "--non-interactive"@,
                    "--"@,
                    self.binary@,
                ]);
            },
            None => {
                argv.push(self.binary.clone());
                assert(argv.deep_view() =~= seq![self.binary@]);
            },
        }
        let ghost prefix = argv.deep_view();
        let mut i: usize = 0;
        while i < args.len()
            invariant
                i <= args@.len(),
                argv.deep_view() == prefix + args.deep_view().take(i as int),
            decreases args@.len() - i,
        {
            let ghost before = argv.deep_view();
            let a = args[i].clone();
            argv.push(a);
            assert(argv.deep_view() =~= before.push(args.deep_view()[i as int]));
            assert(args.deep_view().take(i + 1) =~= args.deep_view().take(i as int).push(
                args.deep_view()[i as int],
            ));
            assert(argv.deep_view() =~= prefix + args.deep_view().take(i + 1));
            i = i + 1;
        }
        assert(args.deep_view().take(args@.len() as int) =~= args.deep_view());
        assert(argv.deep_view() =~= self.argv_spec(args.deep_view()));
        argv
    }

    /// The command line a failure of `args` names.
    pub fn command_line(&self, args: &Vec<String>) -> (s: String)
        ensures
            s@ == self.command_line_spec(args.deep_view()),
    {
        let mut s = self.binary.clone();
        s.append(" ");
        let joined = join_strings(args, " ");
        s.append(joined.as_str());
        s
    }

    /// The call that runs `args`.
    pub fn call(&self, args: Vec<String>, mode: Mode, recover: bool, retry_booting: bool) -> (c:
        Call)
        ensures
            self.call_spec(c, args.deep_view(), mode, recover, retry_booting),
    {
        let argv = self.command(&args);
        let command = self.command_line(&args);
        Call {
            run: Invocation { argv, mode, stdin: String::new() },
            command,
            recover,
            retry_booting,
        }
    }
}


/// Appends `s` to an argument vector.
pub fn push_arg(v: &mut Vec<String>, s: &str)
    ensures
        final(v).deep_view() == old(v).deep_view().push(s@),
{
    let ghost before = v.deep_view();
    v.push(owned(s));
    assert(v.deep_view() =~= before.push(s@));
}

/// Appends an owned string to an argument vector.
pub fn push_owned(v: &mut Vec<String>, s: String)
    ensures
        final(v).deep_view() == old(v).deep_view().push(s@),
{
    let ghost before = v.deep_view();
    let ghost sv = s@;
    v.push(s);
    assert(v.deep_view() =~= before.push(sv));
}

/// The argument vector of `container machine create`. Nested
/// virtualization adds `--virtualization`, a custom kernel adds `--kernel`
/// and its path; the image reference stays last, after every option.
pub open spec fn create_args_spec(m: &Machine, image_tag: Seq<char>) -> Seq<Seq<char>> {
    seq![
        "machine"@,
        "create"@,
        "--name"@,
        m.name@,
        "--cpus"@,
        decimal(m.cpus as nat),
        "--memory"@,
        m.memory@,
        "--arch"@,
        m.arch_spec(),
        "--home-mount"@,
        "none"@,
    ] + (if m.virtualization {
        seq!["--virtualization"@]
    } else {
        seq![]
    }) + (match &m.kernel {
        Some(k) => seq!["--kernel"@, k@],
        None => seq![],
    }) + seq![image_tag]
}

/// The argument vector of `container machine create` for `machine`.
pub fn create_args(machine: &Machine, image_tag: &str) -> (args: Vec<String>)
    ensures
        args.deep_view() == create_args_spec(machine, image_tag@),
{
    let mut args: Vec<String> = Vec::new();
    push_arg(&mut args, "machine");
    push_arg(&mut args, "create");
    push_arg(&mut args, "--name");
    push_owned(&mut args, machine.name.clone());
    push_arg(&mut args, "--cpus");
    push_owned(&mut args, decimal_string(machine.cpus as u64));
    push_arg(&mut args, "--memory");
    push_owned(&mut args, machine.memory.clone());
    push_arg(&mut args, "--arch");
    push_arg(&mut args, machine.arch());
    push_arg(&mut args, "--home-mount");
    push_arg(&mut args, "none");
    let ghost base = args.deep_view();
    if machine.virtualization {
        push_arg(&mut args, "--virtualization");
    }
    let ghost with_virt = args.deep_view();
    match &machine.kernel {
        Some(kernel) => {
            push_arg(&mut args, "--kernel");
            push_owned(&mut args, kernel.clone());
        },
        None => {},
    }
    let ghost with_kernel = args.deep_view();
    push_arg(&mut args, image_tag);
    proof {
        let virt: Seq<Seq<char>> = if machine.virtualization {
            seq!["--virtualization"@]
        } else {
            seq![]
        };
        let kern: Seq<Seq<char>> = match &machine.kernel {
            Some(k) => seq!["--kernel"@, k@],
            None => seq![],
        };
        assert(with_virt =~= base + virt);
        assert(with_kernel =~= base + virt + kern);
        assert(args.deep_view() =~= create_args_spec(machine, image_tag@));
    }
    args
}

/// The token after the first `version` among the words of `ws`, if any.
pub open spec fn token_after_version(ws: Seq<Seq<char>>) -> Option<Seq<char>>
    decreases ws.len(),
{
    if ws.len() == 0 {
        None
    } else if ws[0] == "version"@ {
        if ws.len() > 1 {
            Some(ws[1])
        } else {
            None
        }
    } else {
        token_after_version(ws.drop_first())
    }
}

/// The version `container --version` reports ("container CLI version 1.2.1
/// (build: …)"): the word after the first word `version`.
pub fn parse_version(stdout: &str) -> (r: Option<String>)
    ensures
        match r {
            Some(v) => token_after_version(words(stdout@)) == Some(v@),
            None => token_after_version(words(stdout@)) is None,
        },
        r matches Some(v) ==> v@.len() > 0 && contains(stdout@, v@) && forall|j: int|
            0 <= j < v@.len() ==> !is_ws(#[trigger] v@[j]),
{
    let chars = chars_of(stdout);
    let ws = split_words(chars.as_slice());
    let ghost views = ws@.map_values(|w: Vec<char>| w@);
    let key = chars_of("version");
    let mut i: usize = 0;
    assert(views.skip(0) =~= views);
    while i < ws.len()
        invariant
            i <= ws@.len(),
            views == ws@.map_values(|w: Vec<char>| w@),
            views == words(stdout@),
            key@ == "version"@,
            token_after_version(views) == token_after_version(views.skip(i as int)),
        decreases ws@.len() - i,
    {
        assert(views.skip(i as int)[0] == ws@[i as int]@);
        if chars_equal(ws[i].as_slice(), key.as_slice()) {
            if i + 1 < ws.len() {
                assert(views.skip(i as int)[1] == ws@[i + 1]@);
                proof {
                    lemma_version_token(stdout@);
                }
                return Some(crate::text::string_from_chars(ws[i + 1].as_slice()));
            }
            return None;
        }
        assert(views.skip(i as int).drop_first() =~= views.skip(i + 1));
        i = i + 1;
    }
    None
}

/// The `major.minor` prefix of a version, which compatibility turns on:
/// everything before the second dot, or the whole version when it has fewer
/// than two.
pub open spec fn series_spec(version: Seq<char>) -> Seq<char> {
    let p = pieces(version, '.');
    if p.len() >= 3 {
        p[0] + "."@ + p[1]
    } else {
        version
    }
}

/// The series of `version`.
pub fn series(version: &str) -> (s: String)
    ensures
        s@ == series_spec(version@),
        forall|d1: int, d2: int| #[trigger] first_two_dots(version@, d1, d2) ==> s@ == version@.subrange(0, d2),
        !has_two_dots(version@) ==> s@ == version@,
        starts_with(version@, s@),
        series_spec(s@) == s@,
{
    proof {
        lemma_series_shape(version@);
    }
    let chars = chars_of(version);
    let parts = split_at_char(chars.as_slice(), '.');
    let ghost views = parts@.map_values(|w: Vec<char>| w@);
    if parts.len() >= 3 {
        assert(views[0] == parts@[0]@ && views[1] == parts@[1]@);
        let mut s = crate::text::string_from_chars(parts[0].as_slice());
        s.append(".");
        let second = crate::text::string_from_chars(parts[1].as_slice());
        s.append(second.as_str());
        s
    } else {
        owned(version)
    }
}

/// The error a failed run whose trimmed stderr is `text`, and `lower` in
/// lowercase, is classified as: a missing default kernel first (its
/// message also says "notFound"), then a missing object, a machine still
/// booting, services that are down, and any other failure last.
pub open spec fn classify_text_spec(
    command: Seq<char>,
    status: Seq<char>,
    text: Seq<char>,
    lower: Seq<char>,
) -> ErrorView {
    if contains(lower, "default kernel not configured"@) {
        ErrorView::NoDefaultKernel { stderr: text }
    } else if contains(lower, "notfound"@) || contains(lower, "not found"@) {
        ErrorView::NotFound { stderr: text }
    } else if contains(lower, "inappropriate ioctl"@) {
        ErrorView::Booting { stderr: text }
    } else if contains(lower, "xpc"@) || contains(lower, "apiserver"@) || contains(
        lower,
        "interrupted"@,
    ) {
        ErrorView::RuntimeDown { stderr: text }
    } else {
        ErrorView::Failed { command, status, stderr: text }
    }
}

/// The error a failed run is classified as, from its stderr decoded and
/// trimmed; matching is on the lowercased text.
pub open spec fn classify_spec(command: Seq<char>, status: Seq<char>, stderr: Seq<u8>) -> ErrorView {
    let text = trim(utf8_lossy(stderr));
    classify_text_spec(command, status, text, lowercase(text))
}

/// Whether `lower` contains the literal `pat`.
fn has(lower: &Vec<char>, pat: &str) -> (b: bool)
    ensures
        b == contains(lower@, pat@),
{
    let p = chars_of(pat);
    contains_chars(lower.as_slice(), p.as_slice())
}

/// Classifies a failure from its trimmed stderr `text` and that text's
/// lowercase form `lower`.
pub fn classify_text(command: String, status: String, text: String, lower: &str) -> (e: Error)
    ensures
        e@ == classify_text_spec(command@, status@, text@, lower@),
{
    let lower = chars_of(lower);
    if has(&lower, "default kernel not configured") {
        Error::NoDefaultKernel { stderr: text }
    } else if has(&lower, "notfound") || has(&lower, "not found") {
        Error::NotFound { stderr: text }
    } else if has(&lower, "inappropriate ioctl") {
        Error::Booting { stderr: text }
    } else if has(&lower, "xpc") || has(&lower, "apiserver") || has(&lower, "interrupted") {
        Error::RuntimeDown { stderr: text }
    } else {
        Error::Failed { command, status, stderr: text }
    }
}

/// Classifies a failed run of `command`.
pub fn classify(command: String, output: &CommandOutput) -> (e: Error)
    ensures
        e@ == classify_spec(command@, output.status@, output.stderr@),
{
    let raw = from_utf8_lossy(output.stderr.as_slice());
    let raw_chars = chars_of(raw.as_str());
    let text_chars = trimmed(raw_chars.as_slice());
    let stderr = crate::text::string_from_chars(text_chars.as_slice());
    let low = to_lowercase(stderr.as_str());
    classify_text(command, output.status.clone(), stderr, low.as_str())
}

/// Whether `binary` names a path rather than a command to look up.
pub open spec fn has_slash(binary: Seq<char>) -> bool {
    contains(binary, "/"@)
}

/// The first candidate `binary` under the `PATH` directories `dirs` that
/// is a file, going by `is_file`.
pub open spec fn first_found(dirs: Seq<Seq<char>>, is_file: Seq<bool>, binary: Seq<char>) -> Option<
    Seq<char>,
>
    decreases dirs.len(),
{
    if dirs.len() == 0 || is_file.len() == 0 {
        None
    } else if is_file[0] {
        Some(config::join(dirs[0], binary))
    } else {
        first_found(dirs.drop_first(), is_file.drop_first(), binary)
    }
}

/// The absolute path the CLI is run by: `binary` as given when it holds a
/// `/`, else the first `PATH` candidate that is a file, else `binary` as
/// given. sudo's env_reset and the daemon's minimal PATH both lose the
/// caller's PATH, so it is pinned up front.
pub open spec fn resolve_spec(binary: Seq<char>, dirs: Seq<Seq<char>>, is_file: Seq<bool>) -> Seq<
    char,
> {
    if has_slash(binary) {
        binary
    } else {
        match first_found(dirs, is_file, binary) {
            Some(path) => path,
            None => binary,
        }
    }
}

/// The user to run the CLI as: the state directory's owner when this
/// process runs as root and that owner is not root.
pub open spec fn asuser_spec(euid_is_root: bool, state_dir_owner: Option<u32>) -> Option<u32> {
    if euid_is_root {
        match state_dir_owner {
            Some(uid) => if uid != 0 {
                Some(uid)
            } else {
                None
            },
            None => None,
        }
    } else {
        None
    }
}

/// What `Runtime::new` reads of the host: the `PATH` directories, whether
/// the CLI's name under each is a file, whether this process runs as root,
/// and the state directory's owner when it can be read.
#[derive(Debug)]
pub struct Host {
    pub path_dirs: Vec<String>,
    pub is_file: Vec<bool>,
    pub euid_is_root: bool,
    pub state_dir_owner: Option<u32>,
}

/// The paths to look for `binary` at, one per `PATH` directory.
pub fn path_candidates(binary: &str, dirs: &Vec<String>) -> (c: Vec<String>)
    ensures
        c@.len() == dirs@.len(),
        forall|i: int| 0 <= i < dirs@.len() ==> #[trigger] c@[i]@ == config::join(dirs@[i]@, binary@),
{
    let mut c: Vec<String> = Vec::new();
    let mut i: usize = 0;
    while i < dirs.len()
        invariant
            i <= dirs@.len(),
            c@.len() == i,
            forall|k: int| 0 <= k < i ==> #[trigger] c@[k]@ == config::join(dirs@[k]@, binary@),
        decreases dirs@.len() - i,
    {
        c.push(config::join_path(dirs[i].as_str(), binary));
        i = i + 1;
    }
    c
}

/// Resolves `binary` against the `PATH` directories.
pub fn resolve(binary: &str, dirs: &Vec<String>, is_file: &Vec<bool>) -> (r: String)
    ensures
        r@ == resolve_spec(binary@, dirs.deep_view(), is_file@),
{
    let chars = chars_of(binary);
    let slash = chars_of("/");
    if contains_chars(chars.as_slice(), slash.as_slice()) {
        return owned(binary);
    }
    let mut i: usize = 0;
    assert(dirs.deep_view().skip(0) =~= dirs.deep_view());
    assert(is_file@.skip(0) =~= is_file@);
    while i < dirs.len() && i < is_file.len()
        invariant
            !has_slash(binary@),
            i <= dirs@.len(),
            i <= is_file@.len(),
            first_found(dirs.deep_view(), is_file@, binary@) == first_found(
                dirs.deep_view().skip(i as int),
                is_file@.skip(i as int),
                binary@,
            ),
        decreases dirs@.len() - i,
    {
        assert(dirs.deep_view().skip(i as int)[0] == dirs@[i as int]@);
        assert(is_file@.skip(i as int)[0] == is_file@[i as int]);
        if is_file[i] {
            return config::join_path(dirs[i].as_str(), binary);
        }
        assert(dirs.deep_view().skip(i as int).drop_first() =~= dirs.deep_view().skip(i + 1));
        assert(is_file@.skip(i as int).drop_first() =~= is_file@.skip(i + 1));
        i = i + 1;
    }
    owned(binary)
}

/// The user whose bootstrap namespace the CLI runs in.
pub fn asuser_uid(euid_is_root: bool, state_dir_owner: Option<u32>) -> (r: Option<u32>)
    ensures
        r == asuser_spec(euid_is_root, state_dir_owner),
{
    if !euid_is_root {
        return None;
    }
    match state_dir_owner {
        Some(uid) => if uid != 0 {
            Some(uid)
        } else {
            None
        },
        None => None,
    }
}

impl Runtime {
    /// The CLI `config` names, as reached from this process on `host`.
    pub fn new(config: &config::Config, host: &Host) -> (r: Runtime)
        ensures
            r.binary@ == resolve_spec(
                config.runtime.container_binary@,
                host.path_dirs.deep_view(),
                host.is_file@,
            ),
            r.asuser == asuser_spec(host.euid_is_root, host.state_dir_owner),
    {
        Runtime {
            binary: resolve(config.runtime.container_binary.as_str(), &host.path_dirs, &host.is_file),
            asuser: asuser_uid(host.euid_is_root, host.state_dir_owner),
        }
    }

    /// Preflight: `--version` is answered by the CLI itself (no services
    /// needed), so a mismatch surfaces before anything touches state.
    pub fn check_version(&self) -> (c: Call)
        ensures
            self.call_spec(c, seq!["--version"@], Mode::Captured, false, false),
    {
        let mut a: Vec<String> = Vec::new();
        push_arg(&mut a, "--version");
        assert(a.deep_view() =~= seq!["--version"@]);
        self.call(a, Mode::Captured, false, false)
    }

    /// `container system status --format json`.
    pub fn system_status(&self) -> (c: Call)
        ensures
            self.call_spec(
                c,
                seq!["system"@, "status"@, "--format"@, "json"@],
                Mode::Captured,
                false,
                false,
            ),
    {
        let mut a: Vec<String> = Vec::new();
        push_arg(&mut a, "system");
        push_arg(&mut a, "status");
        push_arg(&mut a, "--format");
        push_arg(&mut a, "json");
        assert(a.deep_view() =~= seq!["system"@, "status"@, "--format"@, "json"@]);
        self.call(a, Mode::Captured, false, false)
    }

    /// `container system start`.
    pub fn system_start(&self) -> (c: Call)
        ensures
            self.call_spec(c, seq!["system"@, "start"@], Mode::Captured, false, false),
    {
        let mut a: Vec<String> = Vec::new();
        push_arg(&mut a, "system");
        push_arg(&mut a, "start");
        assert(a.deep_view() =~= seq!["system"@, "start"@]);
        self.call(a, Mode::Captured, false, false)
    }

    /// Download and install the default kernel that builds and machines
    /// boot with. Streamed: it fetches a multi-hundred-megabyte archive.
    pub fn kernel_set_recommended(&self) -> (c: Call)
        ensures
            self.call_spec(
                c,
                seq!["system"@, "kernel"@, "set"@, "--recommended"@],
                Mode::Streamed,
                false,
                false,
            ),
    {
        let mut a: Vec<String> = Vec::new();
        push_arg(&mut a, "system");
        push_arg(&mut a, "kernel");
        push_arg(&mut a, "set");
        push_arg(&mut a, "--recommended");
        assert(a.deep_view() =~= seq!["system"@, "kernel"@, "set"@, "--recommended"@]);
        self.call(a, Mode::Streamed, false, false)
    }

    /// `container machine inspect <name>`, with recovery.
    pub fn machine_inspect(&self, name: &str) -> (c: Call)
        ensures
            self.call_spec(c, seq!["machine"@, "inspect"@, name@], Mode::Captured, true, false),
    {
        let mut a: Vec<String> = Vec::new();
        push_arg(&mut a, "machine");
        push_arg(&mut a, "inspect");
        push_arg(&mut a, name);
        assert(a.deep_view() =~= seq!["machine"@, "inspect"@, name@]);
        self.call(a, Mode::Captured, true, false)
    }

    /// Inspect without the service-start recovery: read-only probes must
    /// not mutate runtime state.
    pub fn machine_inspect_probe(&self, name: &str) -> (c: Call)
        ensures
            self.call_spec(c, seq!["machine"@, "inspect"@, name@], Mode::Captured, false, false),
    {
        let mut a: Vec<String> = Vec::new();
        push_arg(&mut a, "machine");
        push_arg(&mut a, "inspect");
        push_arg(&mut a, name);
        assert(a.deep_view() =~= seq!["machine"@, "inspect"@, name@]);
        self.call(a, Mode::Captured, false, false)
    }

    /// `container machine create` for `machine` from `image_tag`, streamed,
    /// with recovery.
    pub fn machine_create(&self, machine: &Machine, image_tag: &str) -> (c: Call)
        ensures
            self.call_spec(c, create_args_spec(machine, image_tag@), Mode::Streamed, true, false),
    {
        self.call(create_args(machine, image_tag), Mode::Streamed, true, false)
    }

    /// `container machine set` of cpus and memory, with recovery.
    pub fn machine_set(&self, machine: &Machine) -> (c: Call)
        ensures
            self.call_spec(
                c,
                seq![
                    "machine"@,
                    "set"@,
                    "--name"@,
                    machine.name@,
                    "cpus="@ + decimal(machine.cpus as nat),
                    "memory="@ + machine.memory@,
                ],
                Mode::Captured,
                true,
                false,
            ),
    {
        let mut a: Vec<String> = Vec::new();
        push_arg(&mut a, "machine");
        push_arg(&mut a, "set");
        push_arg(&mut a, "--name");
        push_owned(&mut a, machine.name.clone());
        push_owned(&mut a, concat("cpus=", decimal_string(machine.cpus as u64).as_str()));
        push_owned(&mut a, concat("memory=", machine.memory.as_str()));
        assert(a.deep_view() =~= seq![
            "machine"@,
            "set"@,
            "--name"@,
            machine.name@,
            "cpus="@ + decimal(machine.cpus as nat),
            "memory="@ + machine.memory@,
        ]);
        self.call(a, Mode::Captured, true, false)
    }

    /// There is no `machine start`; running a trivial command boots the
    /// machine if necessary. With recovery, and retried while it boots.
    pub fn machine_boot(&self, name: &str) -> (c: Call)
        ensures
            self.call_spec(
                c,
                seq!["machine"@, "run"@, "--root"@, "--name"@, name@, "true"@],
                Mode::Captured,
                true,
                true,
            ),
    {
        let mut a: Vec<String> = Vec::new();
        push_arg(&mut a, "machine");
        push_arg(&mut a, "run");
        push_arg(&mut a, "--root");
        push_arg(&mut a, "--name");
        push_arg(&mut a, name);
        push_arg(&mut a, "true");
        assert(a.deep_view() =~= seq!["machine"@, "run"@, "--root"@, "--name"@, name@, "true"@]);
        self.call(a, Mode::Captured, true, true)
    }

    /// `container machine stop <name>`, with recovery.
    pub fn machine_stop(&self, name: &str) -> (c: Call)
        ensures
            self.call_spec(c, seq!["machine"@, "stop"@, name@], Mode::Captured, true, false),
    {
        let mut a: Vec<String> = Vec::new();
        push_arg(&mut a, "machine");
        push_arg(&mut a, "stop");
        push_arg(&mut a, name);
        assert(a.deep_view() =~= seq!["machine"@, "stop"@, name@]);
        self.call(a, Mode::Captured, true, false)
    }

    /// `container machine delete <name>`, with recovery.
    pub fn machine_delete(&self, name: &str) -> (c: Call)
        ensures
            self.call_spec(c, seq!["machine"@, "delete"@, name@], Mode::Captured, true, false),
    {
        let mut a: Vec<String> = Vec::new();
        push_arg(&mut a, "machine");
        push_arg(&mut a, "delete");
        push_arg(&mut a, name);
        assert(a.deep_view() =~= seq!["machine"@, "delete"@, name@]);
        self.call(a, Mode::Captured, true, false)
    }

    /// `container image inspect <tag>`, with recovery; see `image_found`.
    pub fn image_exists(&self, tag: &str) -> (c: Call)
        ensures
            self.call_spec(c, seq!["image"@, "inspect"@, tag@], Mode::Captured, true, false),
    {
        let mut a: Vec<String> = Vec::new();
        push_arg(&mut a, "image");
        push_arg(&mut a, "inspect");
        push_arg(&mut a, tag);
        assert(a.deep_view() =~= seq!["image"@, "inspect"@, tag@]);
        self.call(a, Mode::Captured, true, false)
    }

    /// `container build` of `containerfile` in `context` for `arch`, tagged
    /// `tag`, with one `--build-arg KEY=VALUE` per pair; streamed, with
    /// recovery.
    pub fn build_image(
        &self,
        tag: &str,
        arch: &str,
        containerfile: &str,
        context: &str,
        build_args: &Vec<(String, String)>,
    ) -> (c: Call)
        ensures
            self.call_spec(
                c,
                build_args_spec(tag@, arch@, containerfile@, context@, build_pairs(build_args@)),
                Mode::Streamed,
                true,
                false,
            ),
    {
        let mut a: Vec<String> = Vec::new();
        push_arg(&mut a, "build");
        push_arg(&mut a, "--file");
        push_arg(&mut a, containerfile);
        push_arg(&mut a, "--arch");
        push_arg(&mut a, arch);
        push_arg(&mut a, "--tag");
        push_arg(&mut a, tag);
        let ghost head = a.deep_view();
        assert(head =~= seq!["build"@, "--file"@, containerfile@, "--arch"@, arch@, "--tag"@, tag@]);
        let mut i: usize = 0;
        while i < build_args.len()
            invariant
                i <= build_args@.len(),
                a.deep_view() == head + build_arg_words(build_pairs(build_args@).take(i as int)),
            decreases build_args@.len() - i,
        {
            let (key, value) = &build_args[i];
            push_arg(&mut a, "--build-arg");
            let mut pair = key.clone();
            pair.append("=");
            pair.append(value.as_str());
            push_owned(&mut a, pair);
            proof {
                let ps = build_pairs(build_args@);
                assert(ps.take(i + 1).drop_last() =~= ps.take(i as int));
                assert(ps[i as int] == (key@, value@));
            }
            i = i + 1;
        }
        assert(build_pairs(build_args@).take(build_args@.len() as int) =~= build_pairs(build_args@));
        push_arg(&mut a, context);
        assert(a.deep_view() =~= build_args_spec(
            tag@,
            arch@,
            containerfile@,
            context@,
            build_pairs(build_args@),
        ));
        self.call(a, Mode::Streamed, true, false)
    }

    /// Run a shell script inside the machine, fed through stdin: the one
    /// guest exec the cold path uses to inject keys and settings. With
    /// recovery, and retried while the machine boots; see `piped_stdout`.
    pub fn machine_run_piped(&self, name: &str, script: &str) -> (c: Call)
        ensures
            c.run.argv.deep_view() == self.argv_spec(piped_args_spec(name@)),
            c.run.mode == Mode::Piped,
            c.run.stdin@ == script@,
            c.command@ == self.command_line_spec(piped_args_spec(name@)),
            c.recover,
            c.retry_booting,
    {
        let mut a: Vec<String> = Vec::new();
        push_arg(&mut a, "machine");
        push_arg(&mut a, "run");
        push_arg(&mut a, "--root");
        push_arg(&mut a, "--name");
        push_arg(&mut a, name);
        push_arg(&mut a, "--interactive");
        push_arg(&mut a, "--");
        push_arg(&mut a, "sh");
        assert(a.deep_view() =~= piped_args_spec(name@));
        let mut c = self.call(a, Mode::Piped, true, true);
        c.run.stdin = owned(script);
        c
    }
}

/// The arguments of the piped guest exec.
pub open spec fn piped_args_spec(name: Seq<char>) -> Seq<Seq<char>> {
    seq!["machine"@, "run"@, "--root"@, "--name"@, name, "--interactive"@, "--"@, "sh"@]
}

/// The views of build-argument pairs.
pub open spec fn build_pairs(ps: Seq<(String, String)>) -> Seq<(Seq<char>, Seq<char>)> {
    ps.map_values(|p: (String, String)| (p.0@, p.1@))
}

/// `--build-arg KEY=VALUE` for each pair.
pub open spec fn build_arg_words(ps: Seq<(Seq<char>, Seq<char>)>) -> Seq<Seq<char>>
    decreases ps.len(),
{
    if ps.len() == 0 {
        seq![]
    } else {
        build_arg_words(ps.drop_last()) + seq![
            "--build-arg"@,
            ps.last().0 + "="@ + ps.last().1,
        ]
    }
}

/// The arguments of `container build`.
pub open spec fn build_args_spec(
    tag: Seq<char>,
    arch: Seq<char>,
    containerfile: Seq<char>,
    context: Seq<char>,
    pairs: Seq<(Seq<char>, Seq<char>)>,
) -> Seq<Seq<char>> {
    seq!["build"@, "--file"@, containerfile, "--arch"@, arch, "--tag"@, tag] + build_arg_words(
        pairs,
    ) + seq![context]
}

/// The first record of an inspect, or `None` when there is none or the
/// machine does not exist.
pub fn first_machine(result: Result<Vec<MachineInfo>, Error>) -> (r: Result<
    Option<MachineInfo>,
    Error,
>)
    ensures
        match result {
            Ok(v) => r == Ok::<Option<MachineInfo>, Error>(
                if v@.len() > 0 {
                    Some(v@[0])
                } else {
                    None
                },
            ),
            Err(e) => match e {
                Error::NotFound { .. } => r == Ok::<Option<MachineInfo>, Error>(None),
                _ => r == Err::<Option<MachineInfo>, Error>(e),
            },
        },
{
    match result {
        Ok(mut machines) => {
            if machines.len() > 0 {
                Ok(Some(machines.remove(0)))
            } else {
                Ok(None)
            }
        },
        Err(Error::NotFound { .. }) => Ok(None),
        Err(e) => Err(e),
    }
}

/// Whether an image inspect found the image: a successful inspect means it
/// exists, a not-found failure means it does not, any other failure stands.
pub fn image_found(result: Result<CommandOutput, Error>) -> (r: Result<bool, Error>)
    ensures
        match result {
            Ok(_) => r == Ok::<bool, Error>(true),
            Err(e) => match e {
                Error::NotFound { .. } => r == Ok::<bool, Error>(false),
                _ => r == Err::<bool, Error>(e),
            },
        },
{
    match result {
        Ok(_) => Ok(true),
        Err(Error::NotFound { .. }) => Ok(false),
        Err(e) => Err(e),
    }
}

/// What the piped guest exec printed, decoded lossily.
pub fn piped_stdout(result: Result<CommandOutput, Error>) -> (r: Result<String, Error>)
    ensures
        match result {
            Ok(out) => r matches Ok(s) && s@ == utf8_lossy(out.stdout@),
            Err(e) => r == Err::<String, Error>(e),
        },
{
    match result {
        Ok(out) => Ok(from_utf8_lossy(out.stdout.as_slice())),
        Err(e) => Err(e),
    }
}

/// The verdict on `container --version` output: supported when the
/// reported version is in the supported series; otherwise the reported
/// version, or the whole trimmed output when none is reported.
pub open spec fn version_verdict_spec(text: Seq<char>) -> Option<Seq<char>> {
    match token_after_version(words(text)) {
        Some(found) => if series_spec(found) == "1.2"@ {
            None
        } else {
            Some(found)
        },
        None => Some(trim(text)),
    }
}

/// Checks `container --version` output against the supported series.
pub fn version_verdict(output: &CommandOutput) -> (r: Result<(), Error>)
    ensures
        match version_verdict_spec(utf8_lossy(output.stdout@)) {
            None => r is Ok,
            Some(found) => r matches Err(e) && e@ == ErrorView::UnsupportedVersion { found },
        },
{
    let stdout = from_utf8_lossy(output.stdout.as_slice());
    match parse_version(stdout.as_str()) {
        Some(found) => {
            let s = series(found.as_str());
            let sc = chars_of(s.as_str());
            let want = chars_of(SUPPORTED_SERIES);
            if chars_equal(sc.as_slice(), want.as_slice()) {
                Ok(())
            } else {
                Err(Error::UnsupportedVersion { found })
            }
        },
        None => {
            let c = chars_of(stdout.as_str());
            let t = trimmed(c.as_slice());
            Err(Error::UnsupportedVersion { found: crate::text::string_from_chars(t.as_slice()) })
        },
    }
}


/// The token after `version`, when there is one, is one of the words.
proof fn lemma_token_is_word(ws: Seq<Seq<char>>)
    ensures
        token_after_version(ws) matches Some(t) ==> exists|i: int| 0 <= i < ws.len() && #[trigger] ws[i] == t,
    decreases ws.len(),
{
    if ws.len() > 0 && ws[0] != "version"@ {
        lemma_token_is_word(ws.drop_first());
        match token_after_version(ws) {
            Some(t) => {
                let i = choose|i: int| 0 <= i < ws.drop_first().len() && #[trigger] ws.drop_first()[i] == t;
                assert(ws[i + 1] == t);
            },
            None => {},
        }
    } else if ws.len() > 1 {
        assert(ws[1] == ws[1]);
    }
}

/// A version `parse_version` reports is a non-empty run of non-whitespace
/// characters that occurs in the text it was read from.
pub proof fn lemma_version_token(stdout: Seq<char>)
    ensures
        token_after_version(words(stdout)) matches Some(t) ==> {
            &&& t.len() > 0
            &&& forall|j: int| 0 <= j < t.len() ==> !is_ws(#[trigger] t[j])
            &&& contains(stdout, t)
        },
{
    lemma_token_is_word(words(stdout));
    lemma_words_in_text(stdout);
    match token_after_version(words(stdout)) {
        Some(t) => {
            let i = choose|i: int| 0 <= i < words(stdout).len() && #[trigger] words(stdout)[i] == t;
            assert(words(stdout)[i] == t);
        },
        None => {},
    }
}

/// Whether `v` has two dots.
pub open spec fn has_two_dots(v: Seq<char>) -> bool {
    exists|d1: int, d2: int| #![trigger v[d1], v[d2]] 0 <= d1 < d2 < v.len() && v[d1] == '.' && v[d2] == '.'
}

/// Whether `d1` and `d2` are the first and second dots of `v`.
pub open spec fn first_two_dots(v: Seq<char>, d1: int, d2: int) -> bool {
    &&& 0 <= d1 < d2 < v.len()
    &&& v[d1] == '.'
    &&& v[d2] == '.'
    &&& forall|m: int| 0 <= m < d2 && m != d1 ==> v[m] != '.'
}

/// The series of a version is the text before its second dot, or the
/// whole version when it has fewer than two dots. It is a prefix of the
/// version, and the series of a series is itself.
pub proof fn lemma_series_shape(v: Seq<char>)
    ensures
        forall|d1: int, d2: int| #[trigger] first_two_dots(v, d1, d2) ==> series_spec(v) == v.subrange(0, d2),
        !has_two_dots(v) ==> series_spec(v) == v,
        starts_with(v, series_spec(v)),
        series_spec(series_spec(v)) == series_spec(v),
{
    reveal_strlit(".");
    let d1 = run_len(v, '.') as int;
    lemma_run_len_bound(v, '.');
    assert(v.subrange(0, v.len() as int) =~= v);
    if d1 == v.len() {
        assert(pieces(v, '.') == seq![v]);
        assert forall|a: int, b: int| #[trigger] first_two_dots(v, a, b) implies series_spec(v) == v.subrange(0, b) by {
            assert(v[a] != '.');
        }
    } else {
        let rest = v.subrange(d1 + 1, v.len() as int);
        assert(pieces(v, '.') == seq![v.subrange(0, d1)] + pieces(rest, '.'));
        let e = run_len(rest, '.') as int;
        lemma_run_len_bound(rest, '.');
        if e == rest.len() {
            assert(pieces(rest, '.') == seq![rest]);
            assert(pieces(v, '.').len() == 2);
            assert forall|a: int, b: int| 0 <= a < b < v.len() implies !(#[trigger] v[a] == '.' && #[trigger] v[b] == '.') by {
                if b > d1 {
                    assert(v[b] == rest[b - d1 - 1]);
                }
            }
            assert forall|a: int, b: int| #[trigger] first_two_dots(v, a, b) implies series_spec(v) == v.subrange(0, b) by {
                if b > d1 {
                    assert(v[b] == rest[b - d1 - 1]);
                }
            }
        } else {
            let d2 = d1 + 1 + e;
            let tail = rest.subrange(e + 1, rest.len() as int);
            assert(pieces(rest, '.') == seq![rest.subrange(0, e)] + pieces(tail, '.'));
            lemma_pieces_nonempty(tail, '.');
            let ps = pieces(v, '.');
            assert(ps.len() >= 3);
            assert(ps[0] == v.subrange(0, d1));
            assert(ps[1] == rest.subrange(0, e));
            assert(v[d2] == rest[e]);
            let ser = v.subrange(0, d2);
            assert(series_spec(v) =~= ser);
            assert(has_two_dots(v)) by {
                assert(v[d1] == '.' && v[d2] == '.');
            }
            assert forall|a: int, b: int| #[trigger] first_two_dots(v, a, b) implies series_spec(v) == v.subrange(0, b) by {
                if a != d1 {
                    if d1 < b {
                        assert(v[d1] != '.');
                    }
                    assert(a < d1);
                    assert(v[a] != '.');
                }
                if b < d2 {
                    assert(v[d2] == v[d2]);
                    assert(b > d1);
                    assert(v[b] == rest[b - d1 - 1]);
                } else if b > d2 {
                    assert(v[d2] != '.');
                }
            }
            assert forall|m: int| 0 <= m < d1 implies ser[m] != '.' by {
                assert(ser[m] == v[m]);
            }
            assert(ser[d1] == '.');
            lemma_run_len_at(ser, '.', d1);
            let rs = ser.subrange(d1 + 1, ser.len() as int);
            assert forall|m: int| 0 <= m < rs.len() implies rs[m] != '.' by {
                assert(rs[m] == rest[m]);
            }
            lemma_run_len_absent(rs, '.');
            assert(pieces(rs, '.') == seq![rs]);
            assert(pieces(ser, '.') == seq![ser.subrange(0, d1)] + pieces(rs, '.'));
            assert(pieces(ser, '.').len() == 2);
        }
    }
}

/// Patch releases within a series are compatible: any version
/// `major.minor.rest` with `major` and `minor` free of dots belongs to the
/// series `major.minor`.
pub proof fn lemma_series_of_patch_release(major: Seq<char>, minor: Seq<char>, rest: Seq<char>)
    requires
        forall|i: int| 0 <= i < major.len() ==> major[i] != '.',
        forall|i: int| 0 <= i < minor.len() ==> minor[i] != '.',
    ensures
        series_spec(major + "."@ + minor + "."@ + rest) == major + "."@ + minor,
{
    reveal_strlit(".");
    let v = major + "."@ + minor + "."@ + rest;
    assert(v =~= major + seq!['.'] + (minor + seq!['.'] + rest));
    crate::text::lemma_pieces_cons(major, '.', minor + seq!['.'] + rest);
    crate::text::lemma_pieces_cons(minor, '.', rest);
    crate::text::lemma_pieces_nonempty(rest, '.');
}

} // verus!
