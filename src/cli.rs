//! Decisions of the command-line launcher that runs a single-node cluster in
//! a container: which image to pull, and what each container-engine answer
//! means.
use vstd::prelude::*;
use vstd::string::StringExecFns;

verus! {

/// Name of the container the launcher manages.
pub const CONTAINER_NAME: &'static str = "arroyo-cli-single";

/// Address of the web interface once the container is up.
pub const WEB_UI_URL: &'static str = "http://localhost:8000";

/// The image to run: the single-node image at `tag`, `latest` by default.
pub open spec fn image_for(tag: Option<Seq<char>>) -> Seq<char> {
    "ghcr.io/arroyosystems/arroyo-single:"@ + match tag {
        Some(t) => t,
        None => "latest"@,
    }
}

pub fn image_name(tag: &Option<String>) -> (r: String)
    ensures
        r@ == image_for(
            match tag {
                Some(t) => Some(t@),
                None => None,
            },
        ),
{
    let mut r = String::from_str("ghcr.io/arroyosystems/arroyo-single:");
    match tag {
        Some(t) => r.append(t.as_str()),
        None => r.append("latest"),
    }
    r
}

/// The engine's answer to a request, as far as the launcher reads it.
#[derive(Clone, Copy, Debug, PartialEq, Eq, Structural)]
pub enum EngineReply {
    Accepted,
    /// The engine answered with this HTTP status.
    Status(u16),
    /// Any other failure.
    Failed,
}

/// What to do while waiting for a pulled image to show up.
#[derive(Clone, Copy, Debug, PartialEq, Eq, Structural)]
pub enum ImageWait {
    Available,
    KeepWaiting,
    Fail,
}

/// A missing image (404) is waited for; any other failure ends the wait.
pub fn image_wait(reply: EngineReply) -> (r: ImageWait)
    ensures
        r == match reply {
            EngineReply::Accepted => ImageWait::Available,
            EngineReply::Status(404) => ImageWait::KeepWaiting,
            _ => ImageWait::Fail,
        },
{
    match reply {
        EngineReply::Accepted => ImageWait::Available,
        EngineReply::Status(s) => if s == 404 {
            ImageWait::KeepWaiting
        } else {
            ImageWait::Fail
        },
        EngineReply::Failed => ImageWait::Fail,
    }
}

/// What creating the container led to.
#[derive(Clone, Copy, Debug, PartialEq, Eq, Structural)]
pub enum CreateOutcome {
    /// A new container exists: start it.
    Created,
    /// It exists already (409) and runs: nothing to do.
    AlreadyRunning,
    /// It exists already (409) but is stopped: start it.
    Restart,
    Fail,
}

/// Reads the answer to a create request; `running` says whether an existing
/// container is running, and is consulted only on a conflict.
pub fn create_outcome(reply: EngineReply, running: bool) -> (r: CreateOutcome)
    ensures
        r == match reply {
            EngineReply::Accepted => CreateOutcome::Created,
            EngineReply::Status(409) => if running {
                CreateOutcome::AlreadyRunning
            } else {
                CreateOutcome::Restart
            },
            _ => CreateOutcome::Fail,
        },
{
    match reply {
        EngineReply::Accepted => CreateOutcome::Created,
        EngineReply::Status(s) => if s == 409 {
            if running {
                CreateOutcome::AlreadyRunning
            } else {
                CreateOutcome::Restart
            }
        } else {
            CreateOutcome::Fail
        },
        EngineReply::Failed => CreateOutcome::Fail,
    }
}

/// What stopping the container led to.
#[derive(Clone, Copy, Debug, PartialEq, Eq, Structural)]
pub enum StopOutcome {
    Stopped,
    /// There was no such container (404).
    Missing,
    Fail,
}

pub fn stop_outcome(reply: EngineReply) -> (r: StopOutcome)
    ensures
        r == match reply {
            EngineReply::Accepted => StopOutcome::Stopped,
            EngineReply::Status(404) => StopOutcome::Missing,
            _ => StopOutcome::Fail,
        },
{
    match reply {
        EngineReply::Accepted => StopOutcome::Stopped,
        EngineReply::Status(s) => if s == 404 {
            StopOutcome::Missing
        } else {
            StopOutcome::Fail
        },
        EngineReply::Failed => StopOutcome::Fail,
    }
}

} // verus!
