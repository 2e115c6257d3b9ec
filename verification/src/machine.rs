//! Machine lifecycle: the plan that builds the image for the current
//! generation unless it exists, the plan that creates, recreates,
//! reconfigures or boots the machine, and the generation marker the proxy
//! fast path checks.

use vstd::prelude::*;

use crate::config::Config;
use crate::container::{
    build_args_spec, build_pairs, create_args_spec, Call, CallView, MachineInfo, MachineStatus,
    Runtime,
};
use crate::text::{
    chars_of, concat, decimal, decimal_string, ends_with, ends_with_chars, owned, parse_u64,
    parse_u64_chars, pieces, split_at_char, string_from_chars, trim, trimmed,
};

verus! {

/// `machine inspect` may report the reference as given at create time or
/// normalized with a registry prefix: it matches `tag` when equal to it or
/// ending in `/` followed by it.
pub open spec fn reference_matches_spec(reference: Seq<char>, tag: Seq<char>) -> bool {
    reference == tag || ends_with(reference, "/"@ + tag)
}

/// Whether the image reference a machine reports is `tag`.
pub fn reference_matches(reference: &str, tag: &str) -> (b: bool)
    ensures
        b == reference_matches_spec(reference@, tag@),
{
    let r = chars_of(reference);
    let t = chars_of(tag);
    if crate::text::chars_equal(r.as_slice(), t.as_slice()) {
        return true;
    }
    let suffix = chars_of(concat("/", tag).as_str());
    ends_with_chars(r.as_slice(), suffix.as_slice())
}

/// A memory size `container` would not accept.
#[derive(Debug)]
pub enum MemoryError {
    /// Not a number with an optional binary suffix; holds the trimmed text.
    Invalid { value: String },
    /// Too large for 64 bits; holds the trimmed text.
    Overflow { value: String },
}

/// The multiplier a size suffix stands for: binary K, M, G, T or P, in
/// either case.
pub open spec fn suffix_multiplier(c: char) -> Option<nat> {
    if c == 'K' || c == 'k' {
        Some(1024)
    } else if c == 'M' || c == 'm' {
        Some(1048576)
    } else if c == 'G' || c == 'g' {
        Some(1073741824)
    } else if c == 'T' || c == 't' {
        Some(1099511627776)
    } else if c == 'P' || c == 'p' {
        Some(1125899906842624)
    } else {
        None
    }
}

/// The byte count of a size as `container` accepts it: bytes with an
/// optional binary K/M/G/T/P suffix, surrounding whitespace ignored.
/// `Err(false)`: not a size; `Err(true)`: too large for 64 bits.
pub open spec fn memory_bytes(value: Seq<char>) -> Result<nat, bool> {
    let v = trim(value);
    let (number, multiplier) = if v.len() > 0 && suffix_multiplier(v.last()) is Some {
        (v.drop_last(), suffix_multiplier(v.last())->0)
    } else {
        (v, 1nat)
    };
    match parse_u64(number) {
        None => Err(false),
        Some(n) => if n * multiplier <= u64::MAX {
            Ok((n * multiplier) as nat)
        } else {
            Err(true)
        },
    }
}

fn multiplier_of(c: char) -> (m: Option<u64>)
    ensures
        match suffix_multiplier(c) {
            Some(k) => m == Some(k as u64),
            None => m is None,
        },
{
    if c == 'K' || c == 'k' {
        Some(1024)
    } else if c == 'M' || c == 'm' {
        Some(1048576)
    } else if c == 'G' || c == 'g' {
        Some(1073741824)
    } else if c == 'T' || c == 't' {
        Some(1099511627776)
    } else if c == 'P' || c == 'p' {
        Some(1125899906842624)
    } else {
        None
    }
}

/// Parses a memory size.
pub fn parse_memory(value: &str) -> (r: Result<u64, MemoryError>)
    ensures
        match memory_bytes(value@) {
            Ok(n) => r == Ok::<u64, MemoryError>(n as u64),
            Err(overflow) => r matches Err(e) && (match e {
                MemoryError::Invalid { value: v } => !overflow && v@ == trim(value@),
                MemoryError::Overflow { value: v } => overflow && v@ == trim(value@),
            }),
        },
{
    let all = chars_of(value);
    let v = trimmed(all.as_slice());
    let n = v.len();
    let suffix = if n > 0 {
        multiplier_of(v[n - 1])
    } else {
        None
    };
    let (number, multiplier) = match suffix {
        Some(m) => (crate::text::slice_of(v.as_slice(), 0, n - 1), m),
        None => (crate::text::slice_of(v.as_slice(), 0, n), 1u64),
    };
    proof {
        assert(v@.subrange(0, n as int) =~= v@);
        assert(v@.subrange(0, n - 1) =~= v@.drop_last());
    }
    match parse_u64_chars(number.as_slice()) {
        None => Err(MemoryError::Invalid { value: string_from_chars(v.as_slice()) }),
        Some(k) => match k.checked_mul(multiplier) {
            Some(bytes) => Ok(bytes),
            None => Err(MemoryError::Overflow { value: string_from_chars(v.as_slice()) }),
        },
    }
}

/// One step of a lifecycle plan: a progress line, a warning, or a call.
#[derive(Debug)]
pub enum Action {
    Step(String),
    Warn(String),
    Run(Call),
}

/// The view of an `Action`.
pub enum ActionView {
    Step(Seq<char>),
    Warn(Seq<char>),
    Run(CallView),
}

impl View for Action {
    type V = ActionView;

    open spec fn view(&self) -> ActionView {
        match self {
            Action::Step(s) => ActionView::Step(s@),
            Action::Warn(s) => ActionView::Warn(s@),
            Action::Run(c) => ActionView::Run(c@),
        }
    }
}

/// The views of a plan's actions.
pub open spec fn plan_view(v: Seq<Action>) -> Seq<ActionView> {
    v.map_values(|a: Action| a@)
}

fn push_action(plan: &mut Vec<Action>, a: Action)
    ensures
        plan_view(final(plan)@) == plan_view(old(plan)@).push(a@),
{
    let ghost before = plan_view(plan@);
    let ghost av = a@;
    plan.push(a);
    assert(plan_view(plan@) =~= before.push(av));
}

/// The `cpus`/`memory` reconfiguration of an existing machine: nothing when
/// it already has the configured resources (memory compared in bytes);
/// otherwise `machine set`, with a warning that a running machine only
/// picks the change up after it restarts.
pub open spec fn reconcile_spec(
    runtime: Runtime,
    config: Config,
    info: MachineInfo,
    wanted_memory: nat,
) -> Seq<ActionView> {
    if info.cpus == config.machine.cpus && info.memory == wanted_memory {
        seq![]
    } else {
        seq![
            ActionView::Step(
                "updating machine "@ + info.id@ + " to cpus="@ + decimal(
                    config.machine.cpus as nat,
                ) + " memory="@ + config.machine.memory@,
            ),
            ActionView::Run(runtime.call_view(set_args_spec(config), crate::container::Mode::Captured, true, false)),
        ] + if info.status == MachineStatus::Running {
            seq![ActionView::Warn("cpu/memory changes take effect after the machine restarts"@)]
        } else {
            seq![]
        }
    }
}

/// The arguments of `container machine set` for the configured machine.
pub open spec fn set_args_spec(config: Config) -> Seq<Seq<char>> {
    seq![
        "machine"@,
        "set"@,
        "--name"@,
        config.machine.name@,
        "cpus="@ + decimal(config.machine.cpus as nat),
        "memory="@ + config.machine.memory@,
    ]
}

/// The plan that makes the configured machine exist for `tag`, configured
/// and running, given what inspecting it found:
/// - none: create it;
/// - one built from another image: warn that recreating it deletes its
///   `/nix` store, stop it if running, delete it, and create it;
/// - one built from `tag`: reconcile its resources, then boot it unless it
///   is running.
/// Only the last case reads the configured memory size, and fails on a
/// size `container` would not accept.
pub open spec fn ensure_machine_spec(
    runtime: Runtime,
    config: Config,
    tag: Seq<char>,
    inspected: Option<MachineInfo>,
) -> Result<Seq<ActionView>, bool> {
    let name = config.machine.name@;
    let creating = ActionView::Step("creating machine "@ + name);
    let create = ActionView::Run(
        runtime.call_view(create_args_spec(&config.machine, tag), crate::container::Mode::Streamed, true, false),
    );
    match inspected {
        None => Ok(seq![creating, create]),
        Some(info) => if !reference_matches_spec(info.image.reference@, tag) {
            Ok(
                seq![
                    ActionView::Warn(
                        "machine "@ + name + " was built from "@ + info.image.reference@
                            + "; recreating it for "@ + tag + " deletes its /nix store"@,
                    ),
                ] + (if info.status == MachineStatus::Running {
                    seq![
                        ActionView::Run(
                            runtime.call_view(
                                seq!["machine"@, "stop"@, name],
                                crate::container::Mode::Captured,
                                true,
                                false,
                            ),
                        ),
                    ]
                } else {
                    seq![]
                }) + seq![
                    ActionView::Run(
                        runtime.call_view(
                            seq!["machine"@, "delete"@, name],
                            crate::container::Mode::Captured,
                            true,
                            false,
                        ),
                    ),
                    creating,
                    create,
                ],
            )
        } else {
            match memory_bytes(config.machine.memory@) {
                Err(overflow) => Err(overflow),
                Ok(wanted) => Ok(
                    reconcile_spec(runtime, config, info, wanted) + if info.status
                        != MachineStatus::Running {
                        seq![
                            ActionView::Step("booting machine "@ + name),
                            ActionView::Run(
                                runtime.call_view(
                                    seq!["machine"@, "run"@, "--root"@, "--name"@, name, "true"@],
                                    crate::container::Mode::Captured,
                                    true,
                                    true,
                                ),
                            ),
                        ]
                    } else {
                        seq![]
                    },
                ),
            }
        },
    }
}

/// Plans the reconfiguration of an existing machine to the configured cpus
/// and memory, `machine set` taking effect at the next restart instead of
/// recreating it.
pub fn reconcile_resources(runtime: &Runtime, config: &Config, info: &MachineInfo) -> (r: Result<
    Vec<Action>,
    MemoryError,
>)
    ensures
        match memory_bytes(config.machine.memory@) {
            Ok(wanted) => r matches Ok(v) && plan_view(v@) == reconcile_spec(*runtime, *config, *info, wanted)
                && (v@.len() == 0 <==> (info.cpus == config.machine.cpus && info.memory == wanted)),
            Err(overflow) => r matches Err(e) && (match e {
                MemoryError::Invalid { value } => !overflow && value@ == trim(config.machine.memory@),
                MemoryError::Overflow { value } => overflow && value@ == trim(config.machine.memory@),
            }),
        },
{
    let wanted = match parse_memory(config.machine.memory.as_str()) {
        Ok(w) => w,
        Err(e) => {
            return Err(e);
        },
    };
    let mut plan: Vec<Action> = Vec::new();
    if info.cpus != config.machine.cpus || info.memory != wanted {
        let mut line = concat("updating machine ", info.id.as_str());
        line.append(" to cpus=");
        line.append(decimal_string(config.machine.cpus as u64).as_str());
        line.append(" memory=");
        line.append(config.machine.memory.as_str());
        push_action(&mut plan, Action::Step(line));
        push_action(&mut plan, Action::Run(runtime.machine_set(&config.machine)));
        if info.status == MachineStatus::Running {
            push_action(
                &mut plan,
                Action::Warn(owned("cpu/memory changes take effect after the machine restarts")),
            );
        }
    }
    assert(plan_view(plan@) =~= reconcile_spec(*runtime, *config, *info, wanted as nat));
    Ok(plan)
}

/// Plans the machine for `tag`; see `ensure_machine_spec`.
pub fn ensure_machine(runtime: &Runtime, config: &Config, tag: &str, inspected: Option<MachineInfo>) -> (r: Result<
    Vec<Action>,
    MemoryError,
>)
    ensures
        match ensure_machine_spec(*runtime, *config, tag@, inspected) {
            Ok(plan) => r matches Ok(v) && plan_view(v@) == plan,
            Err(overflow) => r matches Err(e) && (match e {
                MemoryError::Invalid { value } => !overflow && value@ == trim(config.machine.memory@),
                MemoryError::Overflow { value } => overflow && value@ == trim(config.machine.memory@),
            }),
        },
{
    let name = config.machine.name.as_str();
    match inspected {
        None => {
            let mut plan: Vec<Action> = Vec::new();
            push_action(&mut plan, Action::Step(concat("creating machine ", name)));
            push_action(&mut plan, Action::Run(runtime.machine_create(&config.machine, tag)));
            Ok(plan)
        },
        Some(info) => {
            if !reference_matches(info.image.reference.as_str(), tag) {
                let mut plan: Vec<Action> = Vec::new();
                let mut warning = concat("machine ", name);
                warning.append(" was built from ");
                warning.append(info.image.reference.as_str());
                warning.append("; recreating it for ");
                warning.append(tag);
                warning.append(" deletes its /nix store");
                push_action(&mut plan, Action::Warn(warning));
                if info.status == MachineStatus::Running {
                    push_action(&mut plan, Action::Run(runtime.machine_stop(name)));
                }
                push_action(&mut plan, Action::Run(runtime.machine_delete(name)));
                push_action(&mut plan, Action::Step(concat("creating machine ", name)));
                push_action(&mut plan, Action::Run(runtime.machine_create(&config.machine, tag)));
                Ok(plan)
            } else {
                let mut plan = match reconcile_resources(runtime, config, &info) {
                    Ok(p) => p,
                    Err(e) => {
                        return Err(e);
                    },
                };
                let ghost reconciled = plan_view(plan@);
                if info.status != MachineStatus::Running {
                    push_action(&mut plan, Action::Step(concat("booting machine ", name)));
                    push_action(&mut plan, Action::Run(runtime.machine_boot(name)));
                }
                assert(plan_view(plan@) =~= reconciled + if info.status != MachineStatus::Running {
                    seq![
                        ActionView::Step("booting machine "@ + name@),
                        ActionView::Run(
                            runtime.call_view(
                                seq!["machine"@, "run"@, "--root"@, "--name"@, name@, "true"@],
                                crate::container::Mode::Captured,
                                true,
                                true,
                            ),
                        ),
                    ]
                } else {
                    seq![]
                });
                Ok(plan)
            }
        },
    }
}


/// The directory `Path::parent` gives `path`, if any.
pub uninterp spec fn parent_of(path: Seq<char>) -> Option<Seq<char>>;

/// `Path::parent`: the path without its final component, `None` for a path
/// that ends in a root or is empty. What the parent is, component by
/// component, is left named.
#[verifier::external_body]
pub(crate) fn path_parent(path: &str) -> (r: Option<String>)
    ensures
        match r {
            Some(p) => parent_of(path@) == Some(p@),
            None => parent_of(path@) is None,
        },
{
    std::path::Path::new(path).parent().map(|p| p.to_string_lossy().into_owned())
}

/// What `nbac reset` removes before the cold path runs again: nothing
/// when there is no machine; otherwise the machine, stopped first when it
/// is running.
pub open spec fn reset_spec(runtime: Runtime, config: Config, inspected: Option<MachineInfo>) -> Seq<
    ActionView,
> {
    let name = config.machine.name@;
    match inspected {
        None => seq![],
        Some(info) => (if info.status == MachineStatus::Running {
            seq![
                ActionView::Run(
                    runtime.call_view(
                        seq!["machine"@, "stop"@, name],
                        crate::container::Mode::Captured,
                        true,
                        false,
                    ),
                ),
            ]
        } else {
            seq![]
        }) + seq![ActionView::Run(delete_view(runtime, config))],
    }
}

/// Plans the teardown `nbac reset` performs, given what inspecting the
/// machine found.
pub fn reset_plan(runtime: &Runtime, config: &Config, inspected: Option<MachineInfo>) -> (v: Vec<Action>)
    ensures
        plan_view(v@) == reset_spec(*runtime, *config, inspected),
{
    let name = config.machine.name.as_str();
    let mut plan: Vec<Action> = Vec::new();
    match inspected {
        None => {},
        Some(info) => {
            if info.status == MachineStatus::Running {
                push_action(&mut plan, Action::Run(runtime.machine_stop(name)));
            }
            push_action(&mut plan, Action::Run(runtime.machine_delete(name)));
        },
    }
    assert(plan_view(plan@) =~= reset_spec(*runtime, *config, inspected));
    plan
}

/// One step of the cold path that takes the builder from nothing to an
/// SSH-ready machine.
#[derive(Debug, Clone, Copy, PartialEq, Eq, Structural)]
pub enum ColdStep {
    /// Check the CLI version and start the services if they are down.
    EnsureServices,
    /// Take the lock that serializes machine mutations, held to the end.
    Lock,
    /// Generate the keypairs and `known_hosts` if missing.
    EnsureKeys,
    /// Build the image for the current generation unless it exists.
    EnsureImage,
    /// Create, recreate, reconfigure or boot the machine.
    EnsureMachine,
    /// Inject keys and settings, reading back the guest's address.
    InjectKeys,
    /// Record the generation the machine now serves.
    WriteMarker,
}

/// The cold path's steps in order; a failed step ends it.
pub open spec fn cold_path_spec() -> Seq<ColdStep> {
    seq![
        ColdStep::EnsureServices,
        ColdStep::Lock,
        ColdStep::EnsureKeys,
        ColdStep::EnsureImage,
        ColdStep::EnsureMachine,
        ColdStep::InjectKeys,
        ColdStep::WriteMarker,
    ]
}

/// The cold path's steps, in the order they run.
pub fn cold_path() -> (v: Vec<ColdStep>)
    ensures
        v@ == cold_path_spec(),
{
    let v = vec![
        ColdStep::EnsureServices,
        ColdStep::Lock,
        ColdStep::EnsureKeys,
        ColdStep::EnsureImage,
        ColdStep::EnsureMachine,
        ColdStep::InjectKeys,
        ColdStep::WriteMarker,
    ];
    assert(v@ =~= cold_path_spec());
    v
}

/// The generation marker is written last, only after key injection, and
/// every machine mutation runs under the lock: the proxy's fast path never
/// short-circuits into a machine without keys.
pub proof fn lemma_marker_after_injection()
    ensures
        cold_path_spec().last() == ColdStep::WriteMarker,
        forall|i: int| 0 <= i < cold_path_spec().len() && #[trigger] cold_path_spec()[i] == ColdStep::WriteMarker
            ==> i == cold_path_spec().len() - 1,
        exists|j: int| 0 <= j < cold_path_spec().len() - 1 && #[trigger] cold_path_spec()[j] == ColdStep::InjectKeys,
        forall|i: int| 0 <= i < cold_path_spec().len() && (#[trigger] cold_path_spec()[i] == ColdStep::EnsureKeys
            || cold_path_spec()[i] == ColdStep::EnsureImage || cold_path_spec()[i] == ColdStep::EnsureMachine
            || cold_path_spec()[i] == ColdStep::InjectKeys || cold_path_spec()[i] == ColdStep::WriteMarker)
            ==> cold_path_spec()[1] == ColdStep::Lock && 1 < i,
{
    assert(cold_path_spec()[5] == ColdStep::InjectKeys);
}

/// Why an image cannot be built.
#[derive(Debug)]
pub enum ImageError {
    /// No build context is configured and the Containerfile's path has no
    /// parent directory to use instead.
    NoParentDirectory,
}

/// The build of the image for `tag` when it does not exist yet: a progress
/// line and the `container build` call.
#[derive(Debug)]
pub struct ImageBuild {
    pub note: String,
    pub call: Call,
}

/// The build context: the configured one, else the Containerfile's
/// directory.
pub open spec fn build_context_spec(config: Config) -> Option<Seq<char>> {
    match config.image.build_context {
        Some(dir) => Some(dir@),
        None => parent_of(config.image.containerfile@),
    }
}

/// The build arguments baked into the image: the SSH user and port.
pub open spec fn baked_args_spec(config: Config) -> Seq<(Seq<char>, Seq<char>)> {
    seq![("SSH_USER"@, config.ssh.user@), ("SSH_PORT"@, decimal(config.ssh.port as nat))]
}

/// Plans the image for `tag`: nothing when it exists; otherwise a build of
/// the configured Containerfile in the build context, for the machine's
/// architecture, with the SSH user and port as build arguments.
pub fn ensure_image(runtime: &Runtime, config: &Config, tag: &str, exists: bool) -> (r: Result<
    Option<ImageBuild>,
    ImageError,
>)
    ensures
        exists ==> r matches Ok(None),
        !exists ==> match build_context_spec(*config) {
            None => r matches Err(ImageError::NoParentDirectory),
            Some(context) => r matches Ok(Some(b)) && b.note@ == "building image "@ + tag@
                && b.call@ == runtime.call_view(
                build_args_spec(
                    tag@,
                    config.machine.arch_spec(),
                    config.image.containerfile@,
                    context,
                    baked_args_spec(*config),
                ),
                crate::container::Mode::Streamed,
                true,
                false,
            ),
        },
{
    if exists {
        return Ok(None);
    }
    let context = match &config.image.build_context {
        Some(dir) => dir.clone(),
        None => match path_parent(config.image.containerfile.as_str()) {
            Some(p) => p,
            None => {
                return Err(ImageError::NoParentDirectory);
            },
        },
    };
    let mut build_args: Vec<(String, String)> = Vec::new();
    build_args.push((owned("SSH_USER"), config.ssh.user.clone()));
    build_args.push((owned("SSH_PORT"), decimal_string(config.ssh.port as u64)));
    assert(build_pairs(build_args@) =~= baked_args_spec(*config));
    let call = runtime.build_image(
        tag,
        config.machine.arch(),
        config.image.containerfile.as_str(),
        context.as_str(),
        &build_args,
    );
    Ok(Some(ImageBuild { note: concat("building image ", tag), call }))
}

/// The generation a tag names: the text after its last `:`, or the whole
/// tag when it has none.
pub open spec fn marker_spec(tag: Seq<char>) -> Seq<char> {
    pieces(tag, ':').last()
}

/// What the generation marker holds for `tag`. Written only after key
/// injection succeeds, so the proxy fast path never short-circuits into a
/// machine without keys.
pub fn generation_marker_text(tag: &str) -> (s: String)
    ensures
        s@ == marker_spec(tag@),
{
    let chars = chars_of(tag);
    let parts = split_at_char(chars.as_slice(), ':');
    let last = parts.len() - 1;
    assert(parts@.map_values(|w: Vec<char>| w@).last() == parts@[last as int]@);
    string_from_chars(parts[last].as_slice())
}


/// The sizes status shows read back as the same byte count: a whole number
/// of MiB, shown with a `G` or `M` suffix, parses as the bytes it was
/// rendered from.
pub proof fn lemma_memory_round_trip(bytes: u64)
    requires
        bytes >= 1048576,
        bytes % 1048576 == 0,
    ensures
        memory_bytes(crate::status::format_memory_spec(bytes)) == Ok::<nat, bool>(bytes as nat),
{
    reveal_strlit("G");
    reveal_strlit("M");
    let gib: nat = 1073741824;
    let mib: nat = 1048576;
    let (k, unit, m): (u64, char, nat) = if bytes >= gib && (bytes as nat) % gib == 0 {
        ((bytes as nat / gib) as u64, 'G', gib)
    } else {
        ((bytes as nat / mib) as u64, 'M', mib)
    };
    let d = decimal(k as nat);
    crate::text::lemma_decimal_digits(k as nat);
    crate::text::lemma_parse_decimal(k);
    let text = d + seq![unit];
    assert(crate::status::format_memory_spec(bytes) =~= text);
    assert(crate::text::is_digit(d[0]));
    assert(text[0] == d[0]);
    crate::text::lemma_trim_unchanged(text);
    assert(text.drop_last() =~= d);
    assert(suffix_multiplier(unit) == Some(m));
    assert(k * m == bytes);
}

/// A running machine built from the current tag, with the configured cpus
/// and memory, needs nothing: setup is idempotent.
pub proof fn lemma_settled_machine(runtime: Runtime, config: Config, tag: Seq<char>, info: MachineInfo)
    requires
        info.status == MachineStatus::Running,
        reference_matches_spec(info.image.reference@, tag),
        info.cpus == config.machine.cpus,
        memory_bytes(config.machine.memory@) == Ok::<nat, bool>(info.memory as nat),
    ensures
        ensure_machine_spec(runtime, config, tag, Some(info)) == Ok::<Seq<ActionView>, bool>(seq![]),
{
    assert(reconcile_spec(runtime, config, info, info.memory as nat) =~= seq![]);
    assert(seq![] + Seq::<ActionView>::empty() =~= Seq::<ActionView>::empty());
}

/// The `machine delete` call for the configured machine.
pub open spec fn delete_view(runtime: Runtime, config: Config) -> CallView {
    runtime.call_view(
        seq!["machine"@, "delete"@, config.machine.name@],
        crate::container::Mode::Captured,
        true,
        false,
    )
}

/// The guest `/nix` store persists across stop and start: a machine built
/// from the current tag is never deleted; one built from another image
/// always is, before it is created anew from the current tag.
pub proof fn lemma_recreate_only_on_generation_change(
    runtime: Runtime,
    config: Config,
    tag: Seq<char>,
    info: MachineInfo,
)
    ensures
        reference_matches_spec(info.image.reference@, tag) ==> match ensure_machine_spec(runtime, config, tag, Some(info)) {
            Ok(plan) => !plan.contains(ActionView::Run(delete_view(runtime, config))),
            Err(_) => true,
        },
        !reference_matches_spec(info.image.reference@, tag) ==> (ensure_machine_spec(runtime, config, tag, Some(info)) matches Ok(plan)
            && plan.len() >= 3 && plan[plan.len() - 3] == ActionView::Run(delete_view(runtime, config))
            && plan.last() == ActionView::Run(
            runtime.call_view(create_args_spec(&config.machine, tag), crate::container::Mode::Streamed, true, false),
        )),
{
    let del = ActionView::Run(delete_view(runtime, config));
    if reference_matches_spec(info.image.reference@, tag) {
        match ensure_machine_spec(runtime, config, tag, Some(info)) {
            Ok(plan) => {
                let wanted = memory_bytes(config.machine.memory@)->Ok_0;
                assert forall|i: int| 0 <= i < plan.len() implies plan[i] != del by {
                    match plan[i] {
                        ActionView::Run(c) => {
                            assert(c.argv.len() == runtime.argv_spec(seq!["x"@]).len() + 5);
                            assert(delete_view(runtime, config).argv.len() == runtime.argv_spec(seq!["x"@]).len() + 2);
                        },
                        _ => {},
                    }
                }
            },
            Err(_) => {},
        }
    }
}


/// An existing machine is reconfigured exactly when its cpus or memory
/// differ from the configured ones, in either direction; the
/// reconfiguration is a `machine set` to the configured values.
pub proof fn lemma_reconcile_exact(runtime: Runtime, config: Config, info: MachineInfo, wanted: nat)
    ensures
        reconcile_spec(runtime, config, info, wanted).len() == 0 <==> (info.cpus == config.machine.cpus
            && info.memory == wanted),
        (info.cpus != config.machine.cpus || info.memory != wanted) ==> reconcile_spec(
            runtime,
            config,
            info,
            wanted,
        ).contains(
            ActionView::Run(
                runtime.call_view(set_args_spec(config), crate::container::Mode::Captured, true, false),
            ),
        ),
{
    if info.cpus != config.machine.cpus || info.memory != wanted {
        let plan = reconcile_spec(runtime, config, info, wanted);
        assert(plan[1] == ActionView::Run(
            runtime.call_view(set_args_spec(config), crate::container::Mode::Captured, true, false),
        ));
    }
}

/// Memory suffixes are case-insensitive: a size with a lowercase suffix
/// means what it means with the uppercase one.
pub proof fn lemma_memory_suffix_case(d: Seq<char>)
    ensures
        memory_bytes(d + seq!['k']) == memory_bytes(d + seq!['K']),
        memory_bytes(d + seq!['m']) == memory_bytes(d + seq!['M']),
        memory_bytes(d + seq!['g']) == memory_bytes(d + seq!['G']),
        memory_bytes(d + seq!['t']) == memory_bytes(d + seq!['T']),
        memory_bytes(d + seq!['p']) == memory_bytes(d + seq!['P']),
{
    lemma_suffix_pair(d, 'k', 'K');
    lemma_suffix_pair(d, 'm', 'M');
    lemma_suffix_pair(d, 'g', 'G');
    lemma_suffix_pair(d, 't', 'T');
    lemma_suffix_pair(d, 'p', 'P');
}

proof fn lemma_suffix_pair(d: Seq<char>, lo: char, up: char)
    requires
        !crate::text::is_ws(lo),
        !crate::text::is_ws(up),
        suffix_multiplier(lo) is Some,
        suffix_multiplier(lo) == suffix_multiplier(up),
    ensures
        memory_bytes(d + seq![lo]) == memory_bytes(d + seq![up]),
{
    lemma_trim_before_letter(d, lo);
    lemma_trim_before_letter(d, up);
    let t = crate::text::trim_start(d);
    let a = t + seq![lo];
    let b = t + seq![up];
    assert(a.last() == lo && b.last() == up);
    assert(a.drop_last() =~= t);
    assert(b.drop_last() =~= t);
}

/// Trimming text that ends in a non-space keeps that last character and
/// trims only the start of what comes before it.
proof fn lemma_trim_before_letter(d: Seq<char>, c: char)
    requires
        !crate::text::is_ws(c),
    ensures
        trim(d + seq![c]) == crate::text::trim_start(d) + seq![c],
{
    lemma_trim_start_append(d, c);
    let t = crate::text::trim_start(d) + seq![c];
    assert(t.last() == c);
}

proof fn lemma_trim_start_append(d: Seq<char>, c: char)
    requires
        !crate::text::is_ws(c),
    ensures
        crate::text::trim_start(d + seq![c]) == crate::text::trim_start(d) + seq![c],
    decreases d.len(),
{
    let x = d + seq![c];
    if d.len() > 0 && crate::text::is_ws(d[0]) {
        assert(x.drop_first() =~= d.drop_first() + seq![c]);
        lemma_trim_start_append(d.drop_first(), c);
    } else if d.len() == 0 {
        assert(x =~= seq![c]);
    }
}

/// `n` mebibytes written with an `m` or `M` suffix is `n * 1048576` bytes,
/// whenever that fits in 64 bits.
pub proof fn lemma_memory_mebibytes(n: u64)
    requires
        n * 1048576 <= u64::MAX,
    ensures
        memory_bytes(decimal(n as nat) + seq!['m']) == Ok::<nat, bool>((n * 1048576) as nat),
        memory_bytes(decimal(n as nat) + seq!['M']) == Ok::<nat, bool>((n * 1048576) as nat),
{
    let d = decimal(n as nat);
    crate::text::lemma_decimal_digits(n as nat);
    crate::text::lemma_parse_decimal(n);
    assert(crate::text::is_digit(d[0]));
    lemma_trim_before_letter(d, 'm');
    lemma_trim_before_letter(d, 'M');
    assert(crate::text::trim_start(d) == d);
    assert((d + seq!['m']).drop_last() =~= d);
    assert((d + seq!['M']).drop_last() =~= d);
}

} // verus!
