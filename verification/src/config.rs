//! The configuration the CLI reads from one TOML file, with its defaults and
//! the paths it derives under the state directory. Paths are held as text.

use vstd::prelude::*;

use crate::text::{chars_of, push_char};

verus! {

/// The whole configuration. `image` and `state` have no defaults.
#[derive(Debug)]
pub struct Config {
    pub machine: Machine,
    pub image: Image,
    pub ssh: Ssh,
    pub state: State,
    pub idle: Idle,
    pub runtime: Runtime,
}

/// The builder machine: its name and resources, and the platform options
/// that change what it runs.
#[derive(Debug)]
pub struct Machine {
    pub name: String,
    pub cpus: u32,
    pub memory: String,
    /// Build the image and create the machine as `linux/amd64`, which makes
    /// `container` attach Rosetta.
    pub rosetta: bool,
    /// Expose `/dev/kvm` inside the guest.
    pub virtualization: bool,
    /// A custom guest kernel to boot.
    pub kernel: Option<String>,
}

/// The image the machine boots: its Containerfile, build context and tag
/// prefix.
#[derive(Debug)]
pub struct Image {
    pub containerfile: String,
    pub build_context: Option<String>,
    pub tag_prefix: String,
}

/// The guest sshd the builder is reached through.
#[derive(Debug)]
pub struct Ssh {
    pub user: String,
    pub port: u16,
    pub host_alias: String,
}

/// Where keys, `known_hosts`, the generation marker and the lock live.
#[derive(Debug)]
pub struct State {
    pub dir: String,
}

/// The guest-side idle shutdown.
#[derive(Debug)]
pub struct Idle {
    pub enable: bool,
    pub timeout_seconds: u64,
}

/// The `container` CLI to drive.
#[derive(Debug)]
pub struct Runtime {
    pub container_binary: String,
}

impl Default for Machine {
    fn default() -> (m: Self)
        ensures
            m.name@ == "nbac"@,
            m.cpus == 4,
            m.memory@ == "6G"@,
            !m.rosetta,
            !m.virtualization,
            m.kernel is None,
    {
        Machine {
            name: String::from_str("nbac"),
            cpus: 4,
            memory: String::from_str("6G"),
            rosetta: false,
            virtualization: false,
            kernel: None,
        }
    }
}

/// The tag prefix an `[image]` table without one gets.
pub fn default_tag_prefix() -> (s: String)
    ensures
        s@ == "nbac-builder"@,
{
    String::from_str("nbac-builder")
}

impl Default for Ssh {
    fn default() -> (s: Self)
        ensures
            s.user@ == "builder"@,
            s.port == 22,
            s.host_alias@ == "nbac"@,
    {
        Ssh { user: String::from_str("builder"), port: 22, host_alias: String::from_str("nbac") }
    }
}

impl Default for Idle {
    fn default() -> (i: Self)
        ensures
            i.enable,
            i.timeout_seconds == 300,
    {
        Idle { enable: true, timeout_seconds: 300 }
    }
}

impl Default for Runtime {
    fn default() -> (r: Self)
        ensures
            r.container_binary@ == "container"@,
    {
        Runtime { container_binary: String::from_str("container") }
    }
}

impl Machine {
    /// The platform architecture the image is built for and the machine
    /// created as.
    pub open spec fn arch_spec(&self) -> Seq<char> {
        if self.rosetta {
            "amd64"@
        } else {
            "arm64"@
        }
    }

    /// `amd64` when Rosetta is enabled, `arm64` otherwise.
    pub fn arch(&self) -> (a: &'static str)
        ensures
            a@ == self.arch_spec(),
    {
        if self.rosetta {
            "amd64"
        } else {
            "arm64"
        }
    }
}

/// `dir` joined with the relative name `name`, as `Path::join` joins them:
/// a separator goes between unless `dir` is empty or already ends in one.
pub open spec fn join(dir: Seq<char>, name: Seq<char>) -> Seq<char> {
    if dir.len() == 0 || dir.last() == '/' {
        dir + name
    } else {
        dir + seq!['/'] + name
    }
}

/// Joins `dir` and the relative name `name`.
pub fn join_path(dir: &str, name: &str) -> (p: String)
    ensures
        p@ == join(dir@, name@),
{
    let d = chars_of(dir);
    let mut p = String::from_str(dir);
    if d.len() != 0 && d[d.len() - 1] != '/' {
        push_char(&mut p, '/');
    }
    p.append(name);
    p
}

impl State {
    /// The builder's private key.
    pub fn builder_key(&self) -> (p: String)
        ensures
            p@ == join(self.dir@, "builder_ed25519"@),
    {
        join_path(self.dir.as_str(), "builder_ed25519")
    }

    /// The builder's public key, installed as the guest's `authorized_keys`.
    pub fn builder_key_pub(&self) -> (p: String)
        ensures
            p@ == join(self.dir@, "builder_ed25519.pub"@),
    {
        join_path(self.dir.as_str(), "builder_ed25519.pub")
    }

    /// The guest sshd's private host key.
    pub fn host_key(&self) -> (p: String)
        ensures
            p@ == join(self.dir@, "host_ed25519"@),
    {
        join_path(self.dir.as_str(), "host_ed25519")
    }

    /// The guest sshd's public host key.
    pub fn host_key_pub(&self) -> (p: String)
        ensures
            p@ == join(self.dir@, "host_ed25519.pub"@),
    {
        join_path(self.dir.as_str(), "host_ed25519.pub")
    }

    /// The `known_hosts` file that pins the host key.
    pub fn known_hosts(&self) -> (p: String)
        ensures
            p@ == join(self.dir@, "known_hosts"@),
    {
        join_path(self.dir.as_str(), "known_hosts")
    }

    /// The generation the running machine's keys were injected for.
    pub fn generation_marker(&self) -> (p: String)
        ensures
            p@ == join(self.dir@, "generation"@),
    {
        join_path(self.dir.as_str(), "generation")
    }

    /// The lock that serializes machine mutations.
    pub fn lock_file(&self) -> (p: String)
        ensures
            p@ == join(self.dir@, "lock"@),
    {
        join_path(self.dir.as_str(), "lock")
    }
}

} // verus!
