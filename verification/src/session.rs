//! The decisions the commands make around SSH: the `ssh` invocation with
//! the pinned identity and host key, the `ProxyCommand` that points back at
//! this CLI, the proxy's fast path, the store probe's session, and the
//! answer to a confirmation prompt.

use vstd::prelude::*;

use crate::config::{join, Config};
use crate::container::{push_arg, push_owned, MachineInfo, MachineStatus};
use crate::machine::{reference_matches, reference_matches_spec};
use crate::text::{chars_of, chars_equal, concat, decimal, decimal_string, trim, trimmed};

verus! {

/// An `ssh` invocation with the pinned identity and host key and the given
/// `ProxyCommand`; callers append the destination and command. The
/// configured port is not passed: every `ProxyCommand` embeds it.
pub open spec fn ssh_argv_spec(config: Config, proxy_command: Seq<char>) -> Seq<Seq<char>> {
    seq![
        "ssh"@,
        "-F"@,
        "none"@,
        "-o"@,
        "ProxyCommand="@ + proxy_command,
        "-o"@,
        "IdentityFile="@ + join(config.state.dir@, "builder_ed25519"@),
        "-o"@,
        "IdentitiesOnly=yes"@,
        "-o"@,
        "UserKnownHostsFile="@ + join(config.state.dir@, "known_hosts"@),
        "-o"@,
        "StrictHostKeyChecking=yes"@,
        "-o"@,
        "User="@ + config.ssh.user@,
    ]
}

/// Builds the `ssh` invocation.
pub fn ssh_command(config: &Config, proxy_command: &str) -> (argv: Vec<String>)
    ensures
        argv.deep_view() == ssh_argv_spec(*config, proxy_command@),
{
    let mut a: Vec<String> = Vec::new();
    push_arg(&mut a, "ssh");
    push_arg(&mut a, "-F");
    push_arg(&mut a, "none");
    push_arg(&mut a, "-o");
    push_owned(&mut a, concat("ProxyCommand=", proxy_command));
    push_arg(&mut a, "-o");
    push_owned(&mut a, concat("IdentityFile=", config.state.builder_key().as_str()));
    push_arg(&mut a, "-o");
    push_arg(&mut a, "IdentitiesOnly=yes");
    push_arg(&mut a, "-o");
    push_owned(&mut a, concat("UserKnownHostsFile=", config.state.known_hosts().as_str()));
    push_arg(&mut a, "-o");
    push_arg(&mut a, "StrictHostKeyChecking=yes");
    push_arg(&mut a, "-o");
    push_owned(&mut a, concat("User=", config.ssh.user.as_str()));
    assert(a.deep_view() =~= ssh_argv_spec(*config, proxy_command@));
    a
}

/// The `ProxyCommand` that runs this CLI's hidden `proxy` command with the
/// same configuration file.
pub open spec fn proxy_command_spec(exe: Seq<char>, config_path: Seq<char>) -> Seq<char> {
    "\""@ + exe + "\" --config \""@ + config_path + "\" proxy"@
}

/// Builds the `ProxyCommand` for `nbac ssh`.
pub fn proxy_command(exe: &str, config_path: &str) -> (s: String)
    ensures
        s@ == proxy_command_spec(exe@, config_path@),
{
    let mut s = concat("\"", exe);
    s.append("\" --config \"");
    s.append(config_path);
    s.append("\" proxy");
    s
}

/// `nbac ssh`: the `ssh` invocation through the proxy, to the host alias,
/// with the user's arguments passed through.
pub fn interactive_ssh_argv(config: &Config, exe: &str, config_path: &str, args: &Vec<String>) -> (argv:
    Vec<String>)
    ensures
        argv.deep_view() == ssh_argv_spec(*config, proxy_command_spec(exe@, config_path@)) + seq![
            config.ssh.host_alias@,
        ] + args.deep_view(),
{
    let proxy = proxy_command(exe, config_path);
    let mut a = ssh_command(config, proxy.as_str());
    push_owned(&mut a, config.ssh.host_alias.clone());
    let ghost head = a.deep_view();
    let mut i: usize = 0;
    while i < args.len()
        invariant
            i <= args@.len(),
            a.deep_view() == head + args.deep_view().take(i as int),
        decreases args@.len() - i,
    {
        push_owned(&mut a, args[i].clone());
        assert(a.deep_view() =~= head + args.deep_view().take(i + 1));
        i = i + 1;
    }
    assert(args.deep_view().take(args@.len() as int) =~= args.deep_view());
    a
}

/// The session the store probe runs: one real SSH session running
/// `nix store info` against the guest daemon, which proves the injected
/// keys, the pinned host key and the daemon socket end to end. The
/// `ProxyCommand` dials the machine directly so the proxy cold path cannot
/// trigger.
pub open spec fn store_probe_argv_spec(config: Config, ip: Seq<char>) -> Seq<Seq<char>> {
    ssh_argv_spec(
        config,
        "/usr/bin/nc -G 3 "@ + ip + " "@ + decimal(config.ssh.port as nat),
    ) + seq![
        "-o"@,
        "BatchMode=yes"@,
        "-o"@,
        "ConnectTimeout=5"@,
        config.ssh.host_alias@,
        "/nix/var/nix/profiles/default/bin/nix"@,
        "store"@,
        "info"@,
        "--store"@,
        "daemon"@,
    ]
}

/// Builds the store probe's session.
pub fn store_probe_argv(config: &Config, ip: &str) -> (argv: Vec<String>)
    ensures
        argv.deep_view() == store_probe_argv_spec(*config, ip@),
{
    let mut proxy = concat("/usr/bin/nc -G 3 ", ip);
    proxy.append(" ");
    proxy.append(decimal_string(config.ssh.port as u64).as_str());
    let mut a = ssh_command(config, proxy.as_str());
    let ghost head = a.deep_view();
    push_arg(&mut a, "-o");
    push_arg(&mut a, "BatchMode=yes");
    push_arg(&mut a, "-o");
    push_arg(&mut a, "ConnectTimeout=5");
    push_owned(&mut a, config.ssh.host_alias.clone());
    push_arg(&mut a, "/nix/var/nix/profiles/default/bin/nix");
    push_arg(&mut a, "store");
    push_arg(&mut a, "info");
    push_arg(&mut a, "--store");
    push_arg(&mut a, "daemon");
    assert(a.deep_view() =~= store_probe_argv_spec(*config, ip@));
    a
}

/// Whether an answer to a `[y/N]` prompt confirms: `y`, `Y` or `yes` once
/// trimmed.
pub open spec fn confirms(answer: Seq<char>) -> bool {
    let a = trim(answer);
    a == "y"@ || a == "Y"@ || a == "yes"@
}

/// Reads an answer to a `[y/N]` prompt.
pub fn confirmed(answer: &str) -> (b: bool)
    ensures
        b == confirms(answer@),
{
    let chars = chars_of(answer);
    let a = trimmed(chars.as_slice());
    let y = chars_of("y");
    let cap = chars_of("Y");
    let yes = chars_of("yes");
    chars_equal(a.as_slice(), y.as_slice()) || chars_equal(a.as_slice(), cap.as_slice())
        || chars_equal(a.as_slice(), yes.as_slice())
}

/// The tag the stored generation marker stands for.
pub open spec fn marker_tag_spec(config: Config, marker: Seq<char>) -> Seq<char> {
    config.image.tag_prefix@ + ":"@ + trim(marker)
}

/// The tag the generation marker's contents stand for.
pub fn marker_tag(config: &Config, marker: &str) -> (s: String)
    ensures
        s@ == marker_tag_spec(*config, marker@),
{
    let mut s = config.image.tag_prefix.clone();
    s.append(":");
    let chars = chars_of(marker);
    let t = trimmed(chars.as_slice());
    let text = crate::text::string_from_chars(t.as_slice());
    s.append(text.as_str());
    s
}

/// The proxy's fast path: a running machine whose image matches the stored
/// generation's tag can be connected to immediately, at the address the
/// same inspect reports; anything else takes the cold path.
pub open spec fn fast_path_spec(inspected: Option<MachineInfo>, tag: Seq<char>) -> Option<Seq<char>> {
    match inspected {
        Some(info) => if info.status == MachineStatus::Running && reference_matches_spec(
            info.image.reference@,
            tag,
        ) {
            match info.ip_address {
                Some(ip) => Some(ip@),
                None => None,
            }
        } else {
            None
        },
        None => None,
    }
}

/// Decides the fast path from one inspect and the stored generation's tag.
pub fn fast_path_ip(inspected: Option<MachineInfo>, tag: &str) -> (r: Option<String>)
    ensures
        match fast_path_spec(inspected, tag@) {
            Some(ip) => r matches Some(s) && s@ == ip,
            None => r is None,
        },
{
    match inspected {
        Some(info) => {
            if info.status == MachineStatus::Running && reference_matches(
                info.image.reference.as_str(),
                tag,
            ) {
                info.ip_address
            } else {
                None
            }
        },
        None => None,
    }
}


/// The generation marker written for an image tag reads back, on the
/// proxy's fast path, as that same tag: for any tag prefix and any
/// generation of twelve hex digits, the marker holds the generation, and
/// the tag rebuilt from it is the tag the machine was set up with.
pub proof fn lemma_marker_round_trip(config: Config, g: Seq<char>)
    requires
        crate::generation::generation_text(g),
    ensures
        crate::machine::marker_spec(config.image.tag_prefix@ + ":"@ + g) == g,
        marker_tag_spec(
            config,
            crate::machine::marker_spec(config.image.tag_prefix@ + ":"@ + g),
        ) == config.image.tag_prefix@ + ":"@ + g,
{
    reveal_strlit(":");
    assert forall|i: int| 0 <= i < g.len() implies g[i] != ':' by {
        assert(crate::text::is_hex_char(g[i]));
    }
    crate::text::lemma_pieces_last(config.image.tag_prefix@, ':', g);
    assert(config.image.tag_prefix@ + ":"@ + g =~= config.image.tag_prefix@ + seq![':'] + g);
    assert(crate::text::is_hex_char(g[0]) && crate::text::is_hex_char(g.last()));
    crate::text::lemma_trim_unchanged(g);
}

} // verus!
