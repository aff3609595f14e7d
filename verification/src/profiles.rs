//! Requests for CPU and heap profiles.

use vstd::prelude::*;
use vstd::string::StringExecFns;

use crate::http::{STATUS_FORBIDDEN, STATUS_INTERNAL_SERVER_ERROR};

verus! {

/// How long a CPU profile runs where the request does not say.
pub const DEFAULT_PROFILE_SECONDS: u64 = 10;

/// The parameters of a request for a CPU profile.
#[derive(Clone, Debug)]
pub struct ProfileParams {
    pub seconds: Option<u64>,
}

impl ProfileParams {
    /// How many seconds the profile runs.
    pub fn seconds(&self) -> (seconds: u64)
        ensures
            seconds == match self.seconds {
                Some(s) => s,
                None => DEFAULT_PROFILE_SECONDS,
            },
            self.seconds is None ==> seconds == 10,
    {
        match self.seconds {
            Some(s) => s,
            None => DEFAULT_PROFILE_SECONDS,
        }
    }
}

/// The steps of taking a CPU profile.
#[derive(Clone, Copy, Debug, PartialEq, Eq, Structural)]
pub enum ProfileStep {
    /// Starting the profiler.
    Start,
    /// Building the report.
    Report,
    /// Turning the report into a profile.
    Convert,
    /// Encoding the profile.
    Encode,
}

impl ProfileStep {
    /// What the message about a failure of the step starts with.
    pub open spec fn failure(self) -> Seq<char> {
        match self {
            ProfileStep::Start => "Profiler init failed: "@,
            ProfileStep::Report => "Profile report build failed: "@,
            ProfileStep::Convert => "pprof generation failed: "@,
            ProfileStep::Encode => "Profile encoding failed: "@,
        }
    }

    /// The answer to a request for a CPU profile that failed in this step.
    pub fn failed(&self, error: &str) -> (answer: (u16, String))
        ensures
            answer.0 == STATUS_INTERNAL_SERVER_ERROR,
            answer.1@ == self.failure() + error@,
            answer.0 == 500,
            self is Start ==> answer.1@ == "Profiler init failed: "@ + error@,
            self is Report ==> answer.1@ == "Profile report build failed: "@ + error@,
            self is Convert ==> answer.1@ == "pprof generation failed: "@ + error@,
            self is Encode ==> answer.1@ == "Profile encoding failed: "@ + error@,
    {
        let prefix: &str = match self {
            ProfileStep::Start => "Profiler init failed: ",
            ProfileStep::Report => "Profile report build failed: ",
            ProfileStep::Convert => "pprof generation failed: ",
            ProfileStep::Encode => "Profile encoding failed: ",
        };
        let mut message = prefix.to_owned();
        message.append(error);
        (STATUS_INTERNAL_SERVER_ERROR, message)
    }
}

/// The answer to a request for a heap profile that could not be dumped.
pub fn heap_dump_failed(error: &str) -> (answer: (u16, String))
    ensures
        answer.0 == STATUS_INTERNAL_SERVER_ERROR,
        answer.1@ == error@,
        answer.0 == 500,
{
    (STATUS_INTERNAL_SERVER_ERROR, error.to_owned())
}

/// Refuses a heap profile where heap profiling is not activated.
pub fn require_profiling_activated(activated: bool) -> (allowed: Result<(), (u16, String)>)
    ensures
        match allowed {
            Ok(()) => activated,
            Err((status, message)) => {
                &&& !activated
                &&& status == STATUS_FORBIDDEN
                &&& status == 403
                &&& message@ == "heap profiling not activated"@
            },
        },
{
    if activated {
        Ok(())
    } else {
        Err((STATUS_FORBIDDEN, "heap profiling not activated".to_owned()))
    }
}

} // verus!
