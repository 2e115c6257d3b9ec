//! Runtime injection: the single guest exec that writes the SSH keys and
//! idle settings into the machine and (re)starts sshd. It reports the IP the
//! guest itself holds: `machine inspect` lags the DHCP lease during early
//! boot, and this exec runs over vsock, which does not depend on vmnet.

use vstd::prelude::*;

use crate::config::Config;
use crate::container::{Call, Error, Runtime};
use crate::text::{
    chars_of, decimal, is_ipv4, parses_as_ipv4, pieces, push_decimal, split_at_char,
    string_from_chars, trim, trimmed,
};

verus! {

pub const SCRIPT_0: &'static str = "set -eu\ninstall -d -m 700 \"/home/";
pub const SCRIPT_1: &'static str = "/.ssh\"\ncat > \"/home/";
pub const SCRIPT_2: &'static str = "/.ssh/authorized_keys\" <<'NBAC_EOF'\n";
pub const SCRIPT_3: &'static str = "NBAC_EOF\nchmod 600 \"/home/";
pub const SCRIPT_4: &'static str = "/.ssh/authorized_keys\"\nchown -R \"";
pub const SCRIPT_5: &'static str = ":";
pub const SCRIPT_6: &'static str = "\" \"/home/";
pub const SCRIPT_7: &'static str = "/.ssh\"\numask 077\ncat > /etc/ssh/ssh_host_ed25519_key <<'NBAC_EOF'\n";
pub const SCRIPT_8: &'static str = "NBAC_EOF\ncat > /etc/ssh/ssh_host_ed25519_key.pub <<'NBAC_EOF'\n";
pub const SCRIPT_9: &'static str = "NBAC_EOF\ncat > /etc/nbac/runtime.toml <<'NBAC_EOF'\nenable = ";
pub const SCRIPT_10: &'static str = "\ntimeout_seconds = ";
pub const SCRIPT_11: &'static str = "\nNBAC_EOF\nfor _ in $(seq 1 100); do\n    s6-svok /run/service/sshd && break\n    sleep 0.1\ndone\ns6-svc -ru /run/service/sshd\nfor _ in $(seq 1 100); do\n    [ -n \"$(ss -Htln \"sport = :";
pub const SCRIPT_12: &'static str = "\")\" ] && break\n    sleep 0.1\ndone\nif [ -z \"$(ss -Htln \"sport = :";
pub const SCRIPT_13: &'static str = "\")\" ]; then\n    echo \"sshd is not listening on port ";
pub const SCRIPT_14: &'static str = "\" >&2\n    exit 1\nfi\nip -4 addr show dev eth0 | sed -n 's|.*inet \\([0-9.]*\\)/.*|\\1|p'\n";

/// The key material the injection writes, as read from the state
/// directory.
#[derive(Debug)]
pub struct Keys {
    /// The builder's public key, installed as `authorized_keys`.
    pub authorized_keys: String,
    /// The guest sshd's private host key.
    pub host_key: String,
    /// The guest sshd's public host key.
    pub host_key_pub: String,
}

/// `true` or `false`, as `bool` displays.
pub open spec fn bool_text(b: bool) -> Seq<char> {
    if b {
        "true"@
    } else {
        "false"@
    }
}

/// The injection script: install `authorized_keys` for the SSH user, the
/// pinned host key pair, and the idle settings (`enable`,
/// `timeout_seconds`) each as a heredoc; wait for the sshd service to be
/// supervised and restart it; wait for it to listen on the SSH port and fail
/// when it does not; print the guest's IPv4 address on `eth0`.
pub open spec fn script_spec(config: Config, keys: Keys) -> Seq<char> {
    let user = config.ssh.user@;
    let port = decimal(config.ssh.port as nat);
    SCRIPT_0@ + user + SCRIPT_1@ + user + SCRIPT_2@ + keys.authorized_keys@ + SCRIPT_3@ + user
        + SCRIPT_4@ + user + SCRIPT_5@ + user + SCRIPT_6@ + user + SCRIPT_7@ + keys.host_key@
        + SCRIPT_8@ + keys.host_key_pub@ + SCRIPT_9@ + bool_text(config.idle.enable) + SCRIPT_10@
        + decimal(config.idle.timeout_seconds as nat) + SCRIPT_11@ + port + SCRIPT_12@ + port
        + SCRIPT_13@ + port + SCRIPT_14@
}

/// Builds the injection script.
pub fn script(config: &Config, keys: &Keys) -> (s: String)
    ensures
        s@ == script_spec(*config, *keys),
{
    let user = config.ssh.user.as_str();
    let mut s = String::new();
    s.append(SCRIPT_0);
    s.append(user);
    s.append(SCRIPT_1);
    s.append(user);
    s.append(SCRIPT_2);
    s.append(keys.authorized_keys.as_str());
    s.append(SCRIPT_3);
    s.append(user);
    s.append(SCRIPT_4);
    s.append(user);
    s.append(SCRIPT_5);
    s.append(user);
    s.append(SCRIPT_6);
    s.append(user);
    s.append(SCRIPT_7);
    s.append(keys.host_key.as_str());
    s.append(SCRIPT_8);
    s.append(keys.host_key_pub.as_str());
    s.append(SCRIPT_9);
    s.append(if config.idle.enable {
        "true"
    } else {
        "false"
    });
    s.append(SCRIPT_10);
    push_decimal(&mut s, config.idle.timeout_seconds);
    s.append(SCRIPT_11);
    push_decimal(&mut s, config.ssh.port as u64);
    s.append(SCRIPT_12);
    push_decimal(&mut s, config.ssh.port as u64);
    s.append(SCRIPT_13);
    push_decimal(&mut s, config.ssh.port as u64);
    s.append(SCRIPT_14);
    assert(s@ =~= script_spec(*config, *keys));
    s
}

/// The piped guest exec that runs the injection script on the configured
/// machine.
pub fn inject(runtime: &Runtime, config: &Config, keys: &Keys) -> (c: Call)
    ensures
        c.run.argv.deep_view() == runtime.argv_spec(
            crate::container::piped_args_spec(config.machine.name@),
        ),
        c.run.mode == crate::container::Mode::Piped,
        c.run.stdin@ == script_spec(*config, *keys),
        c.command@ == runtime.command_line_spec(
            crate::container::piped_args_spec(config.machine.name@),
        ),
        c.recover,
        c.retry_booting,
{
    let s = script(config, keys);
    runtime.machine_run_piped(config.machine.name.as_str(), s.as_str())
}

/// The trimmed text of the last line that is an IPv4 address, if any.
pub open spec fn last_address(lines: Seq<Seq<char>>) -> Option<Seq<char>>
    decreases lines.len(),
{
    if lines.len() == 0 {
        None
    } else if is_ipv4(trim(lines.last())) {
        Some(trim(lines.last()))
    } else {
        last_address(lines.drop_last())
    }
}

/// `machine run` can interleave CLI chatter with the guest's output, so
/// the guest IP is the last line that, trimmed, is a plain IPv4 address.
pub fn guest_ip(stdout: &str) -> (r: Option<String>)
    ensures
        match last_address(pieces(stdout@, '\n')) {
            Some(a) => r matches Some(s) && s@ == a,
            None => r is None,
        },
{
    let chars = chars_of(stdout);
    let lines = split_at_char(chars.as_slice(), '\n');
    let ghost views = lines@.map_values(|w: Vec<char>| w@);
    let mut i: usize = lines.len();
    assert(views.take(i as int) =~= views);
    while i > 0
        invariant
            i <= lines@.len(),
            views == lines@.map_values(|w: Vec<char>| w@),
            views == pieces(stdout@, '\n'),
            last_address(views) == last_address(views.take(i as int)),
        decreases i,
    {
        let t = trimmed(lines[i - 1].as_slice());
        assert(views.take(i as int).last() == lines@[i - 1]@);
        if parses_as_ipv4(t.as_slice()) {
            return Some(string_from_chars(t.as_slice()));
        }
        assert(views.take(i as int).drop_last() =~= views.take(i - 1));
        i = i - 1;
    }
    None
}

/// Why injection did not give a guest IP.
#[derive(Debug)]
pub enum InjectError {
    /// The guest exec failed.
    Exec(Error),
    /// The exec succeeded but reported no IPv4 address.
    NoAddress,
}

/// The guest IP an injection exec's result reports.
pub fn injected_ip(result: Result<String, Error>) -> (r: Result<String, InjectError>)
    ensures
        match result {
            Err(e) => r matches Err(InjectError::Exec(e2)) && e2 == e,
            Ok(stdout) => match last_address(pieces(stdout@, '\n')) {
                Some(a) => r matches Ok(s) && s@ == a,
                None => r matches Err(InjectError::NoAddress),
            },
        },
{
    match result {
        Err(e) => Err(InjectError::Exec(e)),
        Ok(stdout) => match guest_ip(stdout.as_str()) {
            Some(ip) => Ok(ip),
            None => Err(InjectError::NoAddress),
        },
    }
}


/// `p` occurs in `x + p + y`.
proof fn lemma_contains_middle(x: Seq<char>, p: Seq<char>, y: Seq<char>)
    ensures
        crate::text::contains(x + p + y, p),
{
    let s = x + p + y;
    assert(s.subrange(x.len() as int, (x.len() + p.len()) as int) =~= p);
    assert(crate::text::occurs_at(s, p, x.len() as int));
}

/// What occurs in `a` occurs in `a + b`.
proof fn lemma_contains_left(a: Seq<char>, b: Seq<char>, p: Seq<char>)
    requires
        crate::text::contains(a, p),
    ensures
        crate::text::contains(a + b, p),
{
    let i = choose|i: int| crate::text::occurs_at(a, p, i);
    assert((a + b).subrange(i, i + p.len()) =~= a.subrange(i, i + p.len()));
    assert(crate::text::occurs_at(a + b, p, i));
}

/// Every home-directory path the script writes is under the configured
/// SSH user's home: it creates `/home/{user}/.ssh`, writes and restricts
/// `/home/{user}/.ssh/authorized_keys`, and hands `/home/{user}/.ssh` to
/// `{user}:{user}`; and it reports a missing sshd on the configured port.
#[verifier::rlimit(50)]
pub proof fn lemma_script_targets_user(config: Config, keys: Keys)
    ensures
        crate::text::contains(
            script_spec(config, keys),
            "install -d -m 700 \"/home/"@ + config.ssh.user@ + "/.ssh\""@,
        ),
        crate::text::contains(
            script_spec(config, keys),
            "cat > \"/home/"@ + config.ssh.user@ + "/.ssh/authorized_keys\""@,
        ),
        crate::text::contains(
            script_spec(config, keys),
            "chmod 600 \"/home/"@ + config.ssh.user@ + "/.ssh/authorized_keys\""@,
        ),
        crate::text::contains(
            script_spec(config, keys),
            "chown -R \""@ + config.ssh.user@ + ":"@ + config.ssh.user@ + "\" \"/home/"@
                + config.ssh.user@ + "/.ssh\""@,
        ),
        crate::text::contains(
            script_spec(config, keys),
            "sshd is not listening on port "@ + decimal(config.ssh.port as nat),
        ),
{
    lemma_script_home_paths(config, keys);
    lemma_script_port_message(config, keys);
}

#[verifier::spinoff_prover]
#[verifier::rlimit(50)]
proof fn lemma_script_home_paths(config: Config, keys: Keys)
    ensures
        crate::text::contains(
            script_spec(config, keys),
            "install -d -m 700 \"/home/"@ + config.ssh.user@ + "/.ssh\""@,
        ),
        crate::text::contains(
            script_spec(config, keys),
            "cat > \"/home/"@ + config.ssh.user@ + "/.ssh/authorized_keys\""@,
        ),
        crate::text::contains(
            script_spec(config, keys),
            "chmod 600 \"/home/"@ + config.ssh.user@ + "/.ssh/authorized_keys\""@,
        ),
        crate::text::contains(
            script_spec(config, keys),
            "chown -R \""@ + config.ssh.user@ + ":"@ + config.ssh.user@ + "\" \"/home/"@
                + config.ssh.user@ + "/.ssh\""@,
        ),
{
    reveal_strlit("set -eu\ninstall -d -m 700 \"/home/");
    reveal_strlit("set -eu\n");
    reveal_strlit("install -d -m 700 \"/home/");
    reveal_strlit("/.ssh\"\ncat > \"/home/");
    reveal_strlit("/.ssh\"");
    reveal_strlit("\ncat > \"/home/");
    reveal_strlit("/.ssh\"\n");
    reveal_strlit("cat > \"/home/");
    reveal_strlit("/.ssh/authorized_keys\" <<'NBAC_EOF'\n");
    reveal_strlit("/.ssh/authorized_keys\"");
    reveal_strlit(" <<'NBAC_EOF'\n");
    reveal_strlit("NBAC_EOF\nchmod 600 \"/home/");
    reveal_strlit("NBAC_EOF\n");
    reveal_strlit("chmod 600 \"/home/");
    reveal_strlit("/.ssh/authorized_keys\"\nchown -R \"");
    reveal_strlit("\nchown -R \"");
    reveal_strlit("/.ssh/authorized_keys\"\n");
    reveal_strlit("chown -R \"");
    reveal_strlit("/.ssh\"\numask 077\ncat > /etc/ssh/ssh_host_ed25519_key <<'NBAC_EOF'\n");
    reveal_strlit("\numask 077\ncat > /etc/ssh/ssh_host_ed25519_key <<'NBAC_EOF'\n");
    let u = config.ssh.user@;
    let k = keys.authorized_keys@;
    let s0a = "set -eu\n"@;
    let s0b = "install -d -m 700 \"/home/"@;
    let s1a = "/.ssh\""@;
    let s1b = "\ncat > \"/home/"@;
    let s1c = "/.ssh\"\n"@;
    let s1d = "cat > \"/home/"@;
    let s2a = "/.ssh/authorized_keys\""@;
    let s2b = " <<'NBAC_EOF'\n"@;
    let s3a = "NBAC_EOF\n"@;
    let s3b = "chmod 600 \"/home/"@;
    let s4a = "/.ssh/authorized_keys\""@;
    let s4b = "\nchown -R \""@;
    let s4c = "/.ssh/authorized_keys\"\n"@;
    let s4d = "chown -R \""@;
    let s7a = "/.ssh\""@;
    let s7b = "\numask 077\ncat > /etc/ssh/ssh_host_ed25519_key <<'NBAC_EOF'\n"@;
    assert(SCRIPT_0@ =~= s0a + s0b);
    assert(SCRIPT_1@ =~= s1a + s1b);
    assert(SCRIPT_1@ =~= s1c + s1d);
    assert(SCRIPT_2@ =~= s2a + s2b);
    assert(SCRIPT_3@ =~= s3a + s3b);
    assert(SCRIPT_4@ =~= s4a + s4b);
    assert(SCRIPT_4@ =~= s4c + s4d);
    assert(SCRIPT_7@ =~= s7a + s7b);
    let s = script_spec(config, keys);
    assert forall|a: Seq<char>, b: Seq<char>, p: Seq<char>| crate::text::contains(a, p) implies #[trigger] crate::text::contains(a + b, p) by {
        lemma_contains_left(a, b, p);
    }
    // install -d
    let t3 = SCRIPT_0@ + u + SCRIPT_1@;
    let p1 = s0b + u + s1a;
    assert(t3 =~= s0a + p1 + s1b);
    lemma_contains_middle(s0a, p1, s1b);
    assert(crate::text::contains(s, p1));
    // cat >
    let t5 = SCRIPT_0@ + u + SCRIPT_1@ + u + SCRIPT_2@;
    let p2 = s1d + u + s2a;
    assert(t5 =~= (SCRIPT_0@ + u + s1c) + p2 + s2b);
    lemma_contains_middle(SCRIPT_0@ + u + s1c, p2, s2b);
    assert(crate::text::contains(s, p2));
    // chmod
    let t6 = SCRIPT_0@ + u + SCRIPT_1@ + u + SCRIPT_2@ + k;
    let t9 = t6 + SCRIPT_3@ + u + SCRIPT_4@;
    let p3 = s3b + u + s4a;
    assert(t9 =~= (t6 + s3a) + p3 + s4b);
    lemma_contains_middle(t6 + s3a, p3, s4b);
    assert(crate::text::contains(s, p3));
    // chown
    let t8 = t6 + SCRIPT_3@ + u;
    let t15 = t8 + SCRIPT_4@ + u + SCRIPT_5@ + u + SCRIPT_6@ + u + SCRIPT_7@;
    let p4 = s4d + u + SCRIPT_5@ + u + SCRIPT_6@ + u + s7a;
    assert(t15 =~= (t8 + s4c) + p4 + s7b);
    lemma_contains_middle(t8 + s4c, p4, s7b);
    assert(p4 =~= "chown -R \""@ + u + ":"@ + u + "\" \"/home/"@ + u + "/.ssh\""@);
    assert(crate::text::contains(s, p4));
}

#[verifier::spinoff_prover]
#[verifier::rlimit(50)]
proof fn lemma_script_port_message(config: Config, keys: Keys)
    ensures
        crate::text::contains(
            script_spec(config, keys),
            "sshd is not listening on port "@ + decimal(config.ssh.port as nat),
        ),
{
    reveal_strlit("\")\" ]; then\n    echo \"sshd is not listening on port ");
    reveal_strlit("\")\" ]; then\n    echo \"");
    reveal_strlit("sshd is not listening on port ");
    let s13a = "\")\" ]; then\n    echo \""@;
    let s13b = "sshd is not listening on port "@;
    assert(SCRIPT_13@ =~= s13a + s13b);
    let port = decimal(config.ssh.port as nat);
    let s = script_spec(config, keys);
    let x = s.subrange(0, s.len() - SCRIPT_14@.len() - port.len() - SCRIPT_13@.len());
    assert(s =~= x + SCRIPT_13@ + port + SCRIPT_14@);
    let p5 = s13b + port;
    assert(s =~= (x + s13a) + p5 + SCRIPT_14@);
    lemma_contains_middle(x + s13a, p5, SCRIPT_14@);
}

} // verus!
