//! Decisions of the MQTT sink: connection retries with capped exponential
//! backoff, and how event-loop errors are handled.
use vstd::prelude::*;
use vstd::string::StringExecFns;

verus! {

/// Connection attempts made before the sink gives up.
pub const MAX_CONNECT_ATTEMPTS: u32 = 20;

/// Longest wait between connection attempts, in milliseconds.
pub const MAX_BACKOFF_MILLIS: u64 = 5_000;

/// What the sink does after a connection attempt.
#[derive(Clone, Copy, Debug, PartialEq, Eq, Structural)]
pub enum ConnectAction {
    /// Connected: start publishing.
    Ready,
    /// Wait this long, then make attempt number `next_attempt`.
    Retry { delay_millis: u64, next_attempt: u32 },
    /// Every attempt failed.
    GiveUp,
}

/// The wait after failed attempt `attempt`: 50 ms doubled per attempt, at
/// most five seconds.
pub open spec fn backoff_millis(attempt: nat) -> nat {
    if attempt >= 7 {
        5_000
    } else {
        let d = 50 * pow2(attempt);
        if d < 5_000 {
            d
        } else {
            5_000
        }
    }
}

pub open spec fn pow2(n: nat) -> nat
    decreases n,
{
    if n == 0 {
        1
    } else {
        2 * pow2((n - 1) as nat)
    }
}

/// The decision after attempt number `attempt` (counting from zero).
pub open spec fn connect_step(attempt: nat, connected: bool) -> ConnectAction {
    if connected {
        ConnectAction::Ready
    } else if attempt + 1 >= MAX_CONNECT_ATTEMPTS {
        ConnectAction::GiveUp
    } else {
        ConnectAction::Retry {
            delay_millis: backoff_millis(attempt) as u64,
            next_attempt: (attempt + 1) as u32,
        }
    }
}

/// Decides what follows attempt number `attempt`: the counter moves up, so
/// the sink gives up after its twentieth failure.
pub fn next_connect_action(attempt: u32, connected: bool) -> (r: ConnectAction)
    requires
        attempt < MAX_CONNECT_ATTEMPTS,
    ensures
        r == connect_step(attempt as nat, connected),
{
    if connected {
        return ConnectAction::Ready;
    }
    if attempt + 1 >= MAX_CONNECT_ATTEMPTS {
        return ConnectAction::GiveUp;
    }
    proof {
        reveal_with_fuel(pow2, 8);
    }
    let delay: u64 = match attempt {
        0 => 50,
        1 => 100,
        2 => 200,
        3 => 400,
        4 => 800,
        5 => 1_600,
        6 => 3_200,
        _ => MAX_BACKOFF_MILLIS,
    };
    ConnectAction::Retry { delay_millis: delay, next_attempt: attempt + 1 }
}

/// A retry moves the attempt counter up by one, stays under the attempt
/// limit, and waits at most five seconds; so the sink connects or gives up
/// within twenty attempts.
pub proof fn lemma_retries_bounded(attempt: nat, connected: bool)
    requires
        attempt < MAX_CONNECT_ATTEMPTS,
    ensures
        match connect_step(attempt, connected) {
            ConnectAction::Retry { delay_millis, next_attempt } => {
                &&& next_attempt == attempt + 1
                &&& next_attempt < MAX_CONNECT_ATTEMPTS
                &&& delay_millis <= MAX_BACKOFF_MILLIS
            },
            _ => true,
        },
{
}

/// The kind of an error met while polling the MQTT event loop.
#[derive(Clone, Copy, Debug, PartialEq, Eq, Structural)]
pub enum PollErrorKind {
    Timeout,
    ConnectionAborted,
    ConnectionReset,
    Other,
}

/// What the poller does after an error.
#[derive(Clone, Copy, Debug, PartialEq, Eq, Structural)]
pub enum PollAction {
    /// Poll again at once.
    Continue,
    /// Report the error and poll again after a second.
    ReportAndWait { millis: u64 },
}

/// Timeouts and dropped connections are polled through; anything else is
/// reported and waited out for a second.
pub fn poll_error_action(kind: PollErrorKind) -> (r: PollAction)
    ensures
        r == match kind {
            PollErrorKind::Other => PollAction::ReportAndWait { millis: 1_000 },
            _ => PollAction::Continue,
        },
{
    match kind {
        PollErrorKind::Other => PollAction::ReportAndWait { millis: 1_000 },
        _ => PollAction::Continue,
    }
}

/// The operator name of a sink publishing to `topic`.
pub fn sink_name(topic: &String) -> (r: String)
    ensures
        r@ == "mqtt-producer-"@ + topic@,
{
    let mut r = String::from_str("mqtt-producer-");
    r.append(topic.as_str());
    r
}

} // verus!
