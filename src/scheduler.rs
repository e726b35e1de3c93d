//! Requests to the hypervisor's scheduler, as the operation number and
//! argument fields that the privileged call carries.
use vstd::prelude::*;

verus! {

/// Why the domain shuts down.
#[derive(Debug, Clone, Copy, PartialEq, Eq, Structural)]
pub enum ShutdownReason {
    /// Exited normally: clean up and kill.
    Poweroff,
    /// Clean up, kill, and then restart.
    Reboot,
    /// Clean up, save suspend information, kill.
    Suspend,
    /// Tell the controller that the domain crashed.
    Crash,
    /// Restart because the watchdog time expired.
    Watchdog,
}

impl ShutdownReason {
    pub open spec fn spec_code(self) -> u32 {
        match self {
            ShutdownReason::Poweroff => 0,
            ShutdownReason::Reboot => 1,
            ShutdownReason::Suspend => 2,
            ShutdownReason::Crash => 3,
            ShutdownReason::Watchdog => 4,
        }
    }

    /// The reason code that the hypervisor expects.
    pub fn code(self) -> (r: u32)
        ensures
            r == self.spec_code(),
    {
        match self {
            ShutdownReason::Poweroff => 0,
            ShutdownReason::Reboot => 1,
            ShutdownReason::Suspend => 2,
            ShutdownReason::Crash => 3,
            ShutdownReason::Watchdog => 4,
        }
    }
}

/// A scheduling request.
#[derive(Debug, PartialEq, Eq)]
pub enum Command {
    /// Yield the rest of the domain's time slice.
    Yield,
    /// Deschedule the domain until an event arrives.
    Block,
    /// Halt the domain and tell the controller why.
    Shutdown(ShutdownReason),
    /// Wait for one of `ports` to be pending, or for the time `timeout`.
    Poll { ports: Vec<u32>, timeout: u64 },
    /// Declare a shutdown of another domain.
    RemoteShutdown { domain_id: u16, reason: ShutdownReason },
    /// Record the code to report when the domain later shuts down.
    ShutdownCode(ShutdownReason),
    /// Set up (id 0), poke, or (timeout 0) destroy a watchdog timer.
    Watchdog { id: u32, timeout: u32 },
    /// Pin the virtual CPU to a physical one, or undo it with a negative one.
    PinOverride { pcpu: i32 },
}

impl Command {
    pub open spec fn spec_op(&self) -> u32 {
        match self {
            Command::Yield => 0,
            Command::Block => 1,
            Command::Shutdown(_) => 2,
            Command::Poll { .. } => 3,
            Command::RemoteShutdown { .. } => 4,
            Command::ShutdownCode(_) => 5,
            Command::Watchdog { .. } => 6,
            Command::PinOverride { .. } => 7,
        }
    }

    /// The operation number of the request.
    pub fn op(&self) -> (r: u32)
        ensures
            r == self.spec_op(),
    {
        match self {
            Command::Yield => 0,
            Command::Block => 1,
            Command::Shutdown(_) => 2,
            Command::Poll { .. } => 3,
            Command::RemoteShutdown { .. } => 4,
            Command::ShutdownCode(_) => 5,
            Command::Watchdog { .. } => 6,
            Command::PinOverride { .. } => 7,
        }
    }

    /// The reason code that the request carries, if any.
    pub fn reason_code(&self) -> (r: Option<u32>)
        ensures
            r == match self {
                Command::Shutdown(reason) => Some(reason.spec_code()),
                Command::RemoteShutdown { reason, .. } => Some(reason.spec_code()),
                Command::ShutdownCode(reason) => Some(reason.spec_code()),
                _ => None,
            },
    {
        match self {
            Command::Shutdown(reason) => Some(reason.code()),
            Command::RemoteShutdown { reason, .. } => Some(reason.code()),
            Command::ShutdownCode(reason) => Some(reason.code()),
            _ => None,
        }
    }
}

} // verus!
