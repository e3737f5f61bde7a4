use defradb_core::broadcast::{
    broadcast_retry_delay_ms, next_broadcast_action, next_broadcast_action_retrying_unexpected, BroadcastAction,
    BroadcastOutcome, BroadcastStatus,
};

#[test]
fn broadcast_insufficient_peers_without_connections_does_not_retry() {
    let delay = broadcast_retry_delay_ms("gossipsub publish error: InsufficientPeers", 0, 1);
    assert_eq!(delay, None);
}

#[test]
fn broadcast_insufficient_peers_with_connections_retries_with_backoff() {
    let delay = broadcast_retry_delay_ms("gossipsub publish error: InsufficientPeers", 2, 3);
    assert_eq!(delay, Some(800));
}

#[test]
fn broadcast_non_retryable_broadcast_errors_fail_fast() {
    let delay = broadcast_retry_delay_ms("gossipsub publish error: MessageTooLarge", 2, 1);
    assert_eq!(delay, None);
}

#[test]
fn mod_insufficient_peers_without_connections_does_not_retry() {
    let delay = broadcast_retry_delay_ms("gossipsub publish error: InsufficientPeers", 0, 1);
    assert_eq!(delay, None);
}

#[test]
fn mod_insufficient_peers_with_connections_retries_with_backoff() {
    let delay = broadcast_retry_delay_ms("gossipsub publish error: InsufficientPeers", 2, 3);
    assert_eq!(delay, Some(800));
}

#[test]
fn mod_non_retryable_broadcast_errors_fail_fast() {
    let delay = broadcast_retry_delay_ms("gossipsub publish error: MessageTooLarge", 2, 1);
    assert_eq!(delay, None);
}

#[test]
fn backoff_doubles_from_one_hundred_and_caps_at_five_doublings() {
    let err = "gossipsub publish error: InsufficientPeers";
    assert_eq!(broadcast_retry_delay_ms(err, 1, 0), Some(100));
    assert_eq!(broadcast_retry_delay_ms(err, 1, 1), Some(200));
    assert_eq!(broadcast_retry_delay_ms(err, 1, 2), Some(400));
    assert_eq!(broadcast_retry_delay_ms(err, 1, 4), Some(1600));
    assert_eq!(broadcast_retry_delay_ms(err, 1, 5), Some(3200));
}

#[test]
fn retries_stop_after_the_last_allowed_attempt() {
    let err = "gossipsub publish error: InsufficientPeers";
    assert_eq!(broadcast_retry_delay_ms(err, 1, 10), Some(3200));
    assert_eq!(broadcast_retry_delay_ms(err, 1, 11), None);
}

#[test]
fn successful_broadcast_finishes() {
    assert_eq!(next_broadcast_action(1, BroadcastOutcome::Success), BroadcastAction::Finish(BroadcastStatus::Success));
}

#[test]
fn partial_broadcasts_fail_with_the_topic_that_failed() {
    let a = next_broadcast_action(1, BroadcastOutcome::PartialDocumentOnly { collection_error: "boom".to_string() });
    assert_eq!(a, BroadcastAction::Finish(BroadcastStatus::Failed("Partial: collection topic failed: boom".to_string())));
    let b = next_broadcast_action(1, BroadcastOutcome::PartialCollectionOnly { document_error: "bang".to_string() });
    assert_eq!(b, BroadcastAction::Finish(BroadcastStatus::Failed("Partial: document topic failed: bang".to_string())));
}

#[test]
fn failed_broadcast_retries_or_reports_its_error() {
    let retry = next_broadcast_action(
        2,
        BroadcastOutcome::Failed { error: "gossipsub publish error: InsufficientPeers".to_string(), connected_peers: 3 },
    );
    assert_eq!(retry, BroadcastAction::RetryAfter(400));
    let fail = next_broadcast_action(
        2,
        BroadcastOutcome::Failed { error: "gossipsub publish error: MessageTooLarge".to_string(), connected_peers: 3 },
    );
    assert_eq!(
        fail,
        BroadcastAction::Finish(BroadcastStatus::Failed("gossipsub publish error: MessageTooLarge".to_string()))
    );
}

#[test]
fn unexpected_results_fail_or_retry_by_variant() {
    let a = next_broadcast_action(1, BroadcastOutcome::Unexpected { debug: "Other".to_string() });
    assert_eq!(a, BroadcastAction::Finish(BroadcastStatus::Failed("Unexpected broadcast result: Other".to_string())));
    let b = next_broadcast_action_retrying_unexpected(1, BroadcastOutcome::Unexpected { debug: "Other".to_string() });
    assert_eq!(b, BroadcastAction::RetryNow);
}
