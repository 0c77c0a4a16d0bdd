use vstd::prelude::*;

verus! {

/// Raw run state of a process, as the host's process table reports it.
#[derive(Clone, Copy, Debug, PartialEq, Eq)]
pub enum PlatformStatus {
    /// Waiting in uninterruptible disk sleep.
    Idle,
    /// Running or runnable.
    Run,
    /// Sleeping in an interruptible wait.
    Sleep,
    /// Stopped on a signal.
    Stop,
    /// Terminated, not yet reaped by its parent.
    Zombie,
    /// Stopped by a tracer.
    Tracing,
    /// Dead.
    Dead,
    /// Being woken to receive a fatal signal.
    Wakekill,
    /// Being woken.
    Waking,
    /// Parked.
    Parked,
    /// A state that goes by none of these names.
    Unknown,
}

/// Whether a process found in the table counts as a usable live instance.
#[derive(Clone, Copy, Debug, PartialEq, Eq)]
pub enum Liveness {
    Active,
    Inactive,
}

/// The host family, which fixes how much a reported run state can be trusted
/// to say.
#[derive(Clone, Copy, Debug, PartialEq, Eq)]
pub enum Platform {
    /// Hosts that report fine-grained run states.
    Unix,
    /// Hosts that report a single coarse "running" state.
    Windows,
}

impl Platform {
    /// The liveness judgment for `status` on this platform.
    pub open spec fn liveness_of(self, status: PlatformStatus) -> Liveness {
        match self {
            Platform::Windows => Liveness::Active,
            Platform::Unix => match status {
                PlatformStatus::Run | PlatformStatus::Sleep | PlatformStatus::Idle => Liveness::Active,
                _ => Liveness::Inactive,
            },
        }
    }

    /// Whether `c` separates the components of a path on this platform: the
    /// slash everywhere, the backslash on `Windows` too.
    pub open spec fn separates(self, c: char) -> bool {
        c == '/' || (self == Platform::Windows && c == '\\')
    }

    /// Tests a character for a path separator.
    pub fn is_separator(self, c: char) -> (b: bool)
        ensures
            b == self.separates(c),
    {
        match self {
            Platform::Unix => c == '/',
            Platform::Windows => c == '/' || c == '\\',
        }
    }

    /// Classifies a raw status. On `Unix` exactly the running, sleeping and
    /// idle states are active; on `Windows` every reported match is.
    pub fn classify(self, status: PlatformStatus) -> (l: Liveness)
        ensures
            l == self.liveness_of(status),
    {
        match self {
            Platform::Windows => Liveness::Active,
            Platform::Unix => match status {
                PlatformStatus::Run | PlatformStatus::Sleep | PlatformStatus::Idle => Liveness::Active,
                _ => Liveness::Inactive,
            },
        }
    }
}

} // verus!
