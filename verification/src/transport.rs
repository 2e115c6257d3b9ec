//! TCP transport via Apple-signed /usr/bin/nc. Not an in-process relay:
//! macOS Local Network privacy silently blackholes connects from unsigned
//! binaries in contexts without a grant, and a nix-built binary's TCC
//! identity changes on every rebuild, so it can never hold one. `-G` bounds
//! the connect time so a stale IP fails fast instead of hitting the ~75 s
//! OS default.

use vstd::prelude::*;

use crate::container::{push_arg, push_owned};
use crate::text::{decimal, decimal_string};

verus! {

/// The `nc` that carries the transport.
pub const NC: &'static str = "/usr/bin/nc";

/// `nc -z -G 3 <ip> <port>`: whether the address accepts a connection.
pub fn reachable_argv(ip: &str, port: u16) -> (argv: Vec<String>)
    ensures
        argv.deep_view() == seq![NC@, "-z"@, "-G"@, "3"@, ip@, decimal(port as nat)],
{
    let mut a: Vec<String> = Vec::new();
    push_arg(&mut a, NC);
    push_arg(&mut a, "-z");
    push_arg(&mut a, "-G");
    push_arg(&mut a, "3");
    push_arg(&mut a, ip);
    push_owned(&mut a, decimal_string(port as u64));
    assert(a.deep_view() =~= seq![NC@, "-z"@, "-G"@, "3"@, ip@, decimal(port as nat)]);
    a
}

/// `nc -G 3 <ip> <port>`: the transport this process is replaced by.
pub fn exec_argv(ip: &str, port: u16) -> (argv: Vec<String>)
    ensures
        argv.deep_view() == seq![NC@, "-G"@, "3"@, ip@, decimal(port as nat)],
{
    let mut a: Vec<String> = Vec::new();
    push_arg(&mut a, NC);
    push_arg(&mut a, "-G");
    push_arg(&mut a, "3");
    push_arg(&mut a, ip);
    push_owned(&mut a, decimal_string(port as u64));
    assert(a.deep_view() =~= seq![NC@, "-G"@, "3"@, ip@, decimal(port as nat)]);
    a
}

/// How many times the cold path tries to reach the guest.
pub const REACH_ATTEMPTS: u32 = 5;

/// How long it waits between tries.
pub const REACH_RETRY_DELAY_MS: u64 = 500;

/// What follows one try to reach the guest: connect, or wait and then try
/// again or give up.
#[derive(Debug, Clone, Copy, PartialEq, Eq, Structural)]
pub enum Reach {
    Connected,
    Wait { delay_ms: u64, retry: bool },
}

/// Decides what follows try number `attempt` (counting from 1), given
/// whether the guest was reachable: connect when it was; otherwise wait
/// the retry delay, then try again unless this was the last allowed try.
pub fn after_attempt(attempt: u32, reachable: bool) -> (r: Reach)
    ensures
        reachable ==> r == Reach::Connected,
        !reachable ==> r == (Reach::Wait {
            delay_ms: REACH_RETRY_DELAY_MS,
            retry: attempt < REACH_ATTEMPTS,
        }),
{
    if reachable {
        Reach::Connected
    } else {
        Reach::Wait { delay_ms: REACH_RETRY_DELAY_MS, retry: attempt < REACH_ATTEMPTS }
    }
}

} // verus!
