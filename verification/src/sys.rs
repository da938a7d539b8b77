//! What the operating system is asked for, and how its answers are read.

use vstd::prelude::*;

pub mod net;

verus! {

/// Status with which the power management reports that a request was granted.
pub const IO_RETURN_SUCCESS: i32 = 0;

/// The request that keeps the machine from idle sleep, as the power
/// management wants it spelled out.
pub struct Request {
    /// What is to be prevented.
    pub assertion_type: &'static str,
    /// Who asks.
    pub name: &'static str,
    /// Why, in a few words.
    pub details: &'static str,
    /// Why, as the user is told.
    pub reason: &'static str,
    /// Where translations of the reason would be looked for.
    pub bundle_path: &'static str,
    /// After how many seconds the request lapses; zero for never.
    pub timeout_seconds: u32,
    /// What happens when it lapses.
    pub timeout_action: &'static str,
}

/// An idle-sleep request that the power management has granted. It stays in
/// force until the handle is given back.
#[derive(Debug, PartialEq, Eq)]
pub struct Assertion {
    id: u32,
}

impl Assertion {
    /// The number under which the power management knows the request.
    pub closed spec fn spec_id(&self) -> u32 {
        self.id
    }

    /// The number under which the power management knows the request.
    #[verifier::when_used_as_spec(spec_id)]
    pub fn id(&self) -> (id: u32)
        ensures
            id == self.id(),
    {
        self.id
    }
}

/// The power management did not grant the request.
#[derive(Debug, PartialEq, Eq, Clone, Copy)]
pub struct AcquireError {
    /// The status that the power management returned.
    pub status: i32,
}

/// Asks for idle sleep to be prevented.
pub struct Inhibitor;

impl Inhibitor {
    /// An inhibitor. It keeps nothing from one request to the next.
    pub fn new() -> Self {
        Inhibitor
    }

    /// What to ask the power management for. The reason is shown to the user
    /// as it stands, and the request never times out.
    pub fn request(&self) -> (request: Request)
        ensures
            request.assertion_type@ == "PreventUserIdleDisplaySleep"@,
            request.name@ == "Shinobu"@,
            request.details@ == "System activity"@,
            request.reason@ == "Shinobu is preventing sleep."@,
            request.bundle_path@ == "/System/Library/CoreServices/powerd.bundle"@,
            request.timeout_seconds == 0,
            request.timeout_action@ == "TimeoutActionRelease"@,
    {
        Request {
            assertion_type: "PreventUserIdleDisplaySleep",
            name: "Shinobu",
            details: "System activity",
            reason: "Shinobu is preventing sleep.",
            bundle_path: "/System/Library/CoreServices/powerd.bundle",
            timeout_seconds: 0,
            timeout_action: "TimeoutActionRelease",
        }
    }

    /// Reads the answer to the request: `status` as the power management
    /// returned it, and `id` as it filled it in. Any status but
    /// `IO_RETURN_SUCCESS` means that nothing was granted.
    pub fn inhibit(&self, status: i32, id: u32) -> (granted: Result<Assertion, AcquireError>)
        ensures
            status == IO_RETURN_SUCCESS ==> granted is Ok && granted->Ok_0.id() == id,
            status != IO_RETURN_SUCCESS ==> granted == Err::<Assertion, AcquireError>(
                AcquireError { status },
            ),
    {
        match status {
            IO_RETURN_SUCCESS => Ok(Assertion { id }),
            _ => Err(AcquireError { status }),
        }
    }
}

} // verus!
