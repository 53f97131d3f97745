//! Timing policy of an endpoint: how long a silence counts as an idle signal,
//! and how many idle signals in a row end a chunk.

use vstd::prelude::*;

verus! {

/// The idle timeout of a socket, in milliseconds.
pub const TCP_IDLE_TIMEOUT_MS: u64 = 50;

/// The debounce count of a socket: a fast network needs little patience.
pub const TCP_DEBOUNCE: usize = 5;

/// The idle timeout of a process behind a remote shell, in milliseconds.
pub const SSH_IDLE_TIMEOUT_MS: u64 = 50;

/// The debounce count of a process behind a remote shell.
pub const SSH_DEBOUNCE: usize = 3;

/// Idle timeout and debounce count of one kind of endpoint.
///
/// The debounce count is at least one. One means that the first idle signal
/// ends the chunk; a larger count asks for that many idle signals in a row.
#[derive(Clone, Copy, Debug)]
pub struct TimingPolicy {
    idle_timeout_ms: u64,
    debounce: usize,
}

impl TimingPolicy {
    #[verifier::type_invariant]
    spec fn well_formed(self) -> bool {
        self.debounce >= 1
    }

    /// The idle timeout, in milliseconds.
    pub closed spec fn timeout_ms(self) -> nat {
        self.idle_timeout_ms as nat
    }

    /// The number of consecutive idle signals that end a chunk.
    pub closed spec fn count(self) -> nat {
        self.debounce as nat
    }

    /// A policy with the given timeout and debounce count, or `None` when
    /// the count is zero.
    pub fn new(idle_timeout_ms: u64, debounce: usize) -> (policy: Option<TimingPolicy>)
        ensures
            policy is Some <==> debounce >= 1,
            policy matches Some(p) ==> p.timeout_ms() == idle_timeout_ms && p.count() == debounce,
    {
        if debounce == 0 {
            None
        } else {
            Some(TimingPolicy { idle_timeout_ms, debounce })
        }
    }

    /// The policy for a socket on a fast network: 50 ms, five idle signals.
    pub fn tcp() -> (policy: TimingPolicy)
        ensures
            policy.timeout_ms() == TCP_IDLE_TIMEOUT_MS,
            policy.count() == TCP_DEBOUNCE,
    {
        TimingPolicy { idle_timeout_ms: TCP_IDLE_TIMEOUT_MS, debounce: TCP_DEBOUNCE }
    }

    /// The policy for a process behind a remote shell: 50 ms, three idle
    /// signals.
    pub fn ssh() -> (policy: TimingPolicy)
        ensures
            policy.timeout_ms() == SSH_IDLE_TIMEOUT_MS,
            policy.count() == SSH_DEBOUNCE,
    {
        TimingPolicy { idle_timeout_ms: SSH_IDLE_TIMEOUT_MS, debounce: SSH_DEBOUNCE }
    }

    /// The idle timeout, in milliseconds.
    pub fn idle_timeout_ms(&self) -> (ms: u64)
        ensures
            ms == self.timeout_ms(),
    {
        self.idle_timeout_ms
    }

    /// The debounce count; never zero.
    pub fn debounce(&self) -> (count: usize)
        ensures
            count == self.count(),
            count >= 1,
    {
        proof {
            use_type_invariant(self);
        }
        self.debounce
    }
}

} // verus!
