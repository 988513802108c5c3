use eager_scheduler::scheduled_batches::ScheduledBatches;
use eager_scheduler::types::SequenceNumber;

fn version(value: u64) -> SequenceNumber {
    SequenceNumber::from_u64(value)
}

#[test]
fn a_batch_is_scheduled_once_marked() {
    let mut batches = ScheduledBatches::new();
    assert!(!batches.is_already_scheduled(version(4)));
    batches.mark_scheduled(version(4));
    assert!(batches.is_already_scheduled(version(4)));
    assert!(!batches.is_already_scheduled(version(3)));
    assert!(!batches.is_already_scheduled(version(5)));
    batches.mark_scheduled(version(4));
    assert_eq!(batches.scheduled_versions.len(), 1);
}

#[test]
fn cleanup_keeps_the_given_version_and_later_ones() {
    let mut batches = ScheduledBatches::new();
    for value in [1, 3, 5, 7] {
        batches.mark_scheduled(version(value));
    }
    batches.cleanup_before(version(5));
    assert!(!batches.is_already_scheduled(version(1)));
    assert!(!batches.is_already_scheduled(version(3)));
    assert!(batches.is_already_scheduled(version(5)));
    assert!(batches.is_already_scheduled(version(7)));
    batches.cleanup_before(version(6));
    assert_eq!(
        batches.scheduled_versions.into_iter().collect::<Vec<_>>(),
        vec![(7, true)]
    );
}

#[test]
fn cleanup_past_every_version_leaves_nothing() {
    let mut batches = ScheduledBatches::new();
    batches.mark_scheduled(version(1));
    batches.cleanup_before(version(u64::MAX));
    assert!(batches.scheduled_versions.is_empty());
    batches.cleanup_before(version(0));
    assert!(batches.scheduled_versions.is_empty());
}
