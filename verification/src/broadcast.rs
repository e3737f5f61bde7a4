//! Retry policy for fire-and-forget P2P broadcast of committed documents.
//!
//! A broadcast is attempted; a publish error that says there are not enough
//! GossipSub peers is retried with exponential backoff while peers are
//! connected, and every other outcome ends the broadcast with a status. The
//! network call and the sleep are the caller's; the decisions are here.

use vstd::prelude::*;
use vstd::string::StringExecFns;
use crate::text::{cat2, contains_str, has_substring};

verus! {

/// Attempts after which an insufficient-peers error is no longer retried.
pub const BROADCAST_MAX_RETRIES: u32 = 10;

/// 2 to the power `k`.
pub open spec fn pow2(k: nat) -> nat
    decreases k,
{
    if k == 0 { 1 } else { 2 * pow2((k - 1) as nat) }
}

/// The backoff before retry number `attempt`, in milliseconds.
pub open spec fn backoff_ms(attempt: u32) -> nat {
    100 * pow2(if attempt < 5 { attempt as nat } else { 5 })
}

/// Whether an error message reports too few GossipSub peers.
pub open spec fn is_insufficient_peers(err: Seq<char>) -> bool {
    has_substring(err, "InsufficientPeers"@)
}

/// The delay before retrying a failed broadcast, or `None` when the error is
/// not retried: only insufficient-peers errors are retried, only while some
/// peer is connected, and only up to `BROADCAST_MAX_RETRIES` attempts.
pub fn broadcast_retry_delay_ms(err_str: &str, connected_peers: usize, attempt: u32) -> (res: Option<u64>)
    ensures
        is_insufficient_peers(err_str@) && connected_peers != 0 && attempt <= BROADCAST_MAX_RETRIES
            ==> (res matches Some(d) && d as nat == backoff_ms(attempt)),
        !(is_insufficient_peers(err_str@) && connected_peers != 0 && attempt <= BROADCAST_MAX_RETRIES)
            ==> res is None,
{
    if !contains_str(err_str, "InsufficientPeers") {
        return None;
    }
    if connected_peers == 0 || attempt > BROADCAST_MAX_RETRIES {
        return None;
    }
    let k: u32 = if attempt < 5 { attempt } else { 5 };
    let p: u64 = match k {
        0 => 1,
        1 => 2,
        2 => 4,
        3 => 8,
        4 => 16,
        _ => 32,
    };
    proof {
        reveal_with_fuel(pow2, 6);
    }
    Some(100 * p)
}

/// The result of one broadcast attempt.
#[derive(Debug, PartialEq, Eq)]
pub enum BroadcastOutcome {
    /// Both the document and the collection topic were published.
    Success,
    /// The document topic succeeded, the collection topic failed.
    PartialDocumentOnly { collection_error: String },
    /// The collection topic succeeded, the document topic failed.
    PartialCollectionOnly { document_error: String },
    /// Any other success variant, by its debug rendering.
    Unexpected { debug: String },
    /// The publish failed with this error, while this many peers were connected.
    Failed { error: String, connected_peers: usize },
}

/// The final status of a broadcast.
#[derive(Debug, PartialEq, Eq)]
pub enum BroadcastStatus {
    Success,
    Failed(String),
    Pending,
}

/// What to do after a broadcast attempt.
#[derive(Debug, PartialEq, Eq)]
pub enum BroadcastAction {
    /// Stop with this status.
    Finish(BroadcastStatus),
    /// Sleep this many milliseconds, then try again.
    RetryAfter(u64),
    /// Try again at once.
    RetryNow,
}

/// Whether `res` is the decision after attempt number `attempt` came out as
/// `outcome` (an unexpected success variant is handled by each caller).
pub open spec fn decides(attempt: u32, outcome: BroadcastOutcome, res: BroadcastAction) -> bool {
    match outcome {
        BroadcastOutcome::Success => res matches BroadcastAction::Finish(BroadcastStatus::Success),
        BroadcastOutcome::PartialDocumentOnly { collection_error: e } =>
            res matches BroadcastAction::Finish(BroadcastStatus::Failed(m)) && m@ == "Partial: collection topic failed: "@ + e@,
        BroadcastOutcome::PartialCollectionOnly { document_error: e } =>
            res matches BroadcastAction::Finish(BroadcastStatus::Failed(m)) && m@ == "Partial: document topic failed: "@ + e@,
        BroadcastOutcome::Unexpected { debug: _ } => true,
        BroadcastOutcome::Failed { error: e, connected_peers: p } =>
            if is_insufficient_peers(e@) && p != 0 && attempt <= BROADCAST_MAX_RETRIES {
                res matches BroadcastAction::RetryAfter(d) && d as nat == backoff_ms(attempt)
            } else {
                res matches BroadcastAction::Finish(BroadcastStatus::Failed(m)) && m@ == e@
            },
    }
}

/// The decision after attempt number `attempt` (counted from 1): success and
/// partial results finish, an unexpected result fails, a retryable error
/// sleeps for its backoff, any other error fails with its message.
pub fn next_broadcast_action(attempt: u32, outcome: BroadcastOutcome) -> (res: BroadcastAction)
    ensures
        decides(attempt, outcome, res),
        outcome matches BroadcastOutcome::Unexpected { debug: d } ==>
            (res matches BroadcastAction::Finish(BroadcastStatus::Failed(m)) && m@ == "Unexpected broadcast result: "@ + d@),
{
    match outcome {
        BroadcastOutcome::Success => BroadcastAction::Finish(BroadcastStatus::Success),
        BroadcastOutcome::PartialDocumentOnly { collection_error } =>
            BroadcastAction::Finish(BroadcastStatus::Failed(cat2("Partial: collection topic failed: ", collection_error.as_str()))),
        BroadcastOutcome::PartialCollectionOnly { document_error } =>
            BroadcastAction::Finish(BroadcastStatus::Failed(cat2("Partial: document topic failed: ", document_error.as_str()))),
        BroadcastOutcome::Unexpected { debug } =>
            BroadcastAction::Finish(BroadcastStatus::Failed(cat2("Unexpected broadcast result: ", debug.as_str()))),
        BroadcastOutcome::Failed { error, connected_peers } => {
            match broadcast_retry_delay_ms(error.as_str(), connected_peers, attempt) {
                Some(d) => BroadcastAction::RetryAfter(d),
                None => BroadcastAction::Finish(BroadcastStatus::Failed(error)),
            }
        },
    }
}

/// As `next_broadcast_action`, for the mutator variant that does not stop on
/// an unexpected success variant but simply attempts again.
pub fn next_broadcast_action_retrying_unexpected(attempt: u32, outcome: BroadcastOutcome) -> (res: BroadcastAction)
    ensures
        outcome is Unexpected ==> res is RetryNow,
        decides(attempt, outcome, res),
{
    match outcome {
        BroadcastOutcome::Unexpected { .. } => BroadcastAction::RetryNow,
        other => next_broadcast_action(attempt, other),
    }
}

} // verus!
