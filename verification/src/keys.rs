//! Builder and host keypairs under the state directory, never in the Nix
//! store, plus the pinned `known_hosts` derived from the host key.

use vstd::prelude::*;

use crate::config::Config;
use crate::container::push_arg;
use crate::text::concat;

verus! {

/// The `ssh-keygen` invocation that creates an unencrypted ed25519 keypair
/// at `path` with `comment`.
pub open spec fn keygen_argv_spec(path: Seq<char>, comment: Seq<char>) -> Seq<Seq<char>> {
    seq![
        "ssh-keygen"@,
        "-q"@,
        "-t"@,
        "ed25519"@,
        "-N"@,
        ""@,
        "-C"@,
        comment,
        "-f"@,
        path,
    ]
}

/// The argument vector that generates a keypair at `path`.
pub fn keygen_argv(path: &str, comment: &str) -> (argv: Vec<String>)
    ensures
        argv.deep_view() == keygen_argv_spec(path@, comment@),
{
    let mut a: Vec<String> = Vec::new();
    push_arg(&mut a, "ssh-keygen");
    push_arg(&mut a, "-q");
    push_arg(&mut a, "-t");
    push_arg(&mut a, "ed25519");
    push_arg(&mut a, "-N");
    push_arg(&mut a, "");
    push_arg(&mut a, "-C");
    push_arg(&mut a, comment);
    push_arg(&mut a, "-f");
    push_arg(&mut a, path);
    assert(a.deep_view() =~= keygen_argv_spec(path@, comment@));
    a
}

/// The comment on the builder's key.
pub const BUILDER_KEY_COMMENT: &'static str = "nbac builder key";

/// The comment on the host key.
pub const HOST_KEY_COMMENT: &'static str = "nbac host key";

/// The `known_hosts` contents that pin the host key: the host alias, a
/// space, and the public host key as `ssh-keygen` wrote it.
pub fn known_hosts_text(config: &Config, host_key_pub: &str) -> (s: String)
    ensures
        s@ == config.ssh.host_alias@ + " "@ + host_key_pub@,
{
    let mut s = concat(config.ssh.host_alias.as_str(), " ");
    s.append(host_key_pub);
    s
}

} // verus!
