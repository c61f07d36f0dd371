use chunkstore::sequencer::{ChunkSequencer, SequencerState};
use chunkstore::UploadError;

#[test]
fn states_progress_through_the_lifecycle() {
    let mut seq = ChunkSequencer::new(30, 10, 100);
    assert_eq!(seq.current_state(), SequencerState::Idle);
    let descs = seq.start();
    assert_eq!(descs.len(), 3);
    assert_eq!(seq.chunk_total(), 3);
    assert_eq!(seq.current_state(), SequencerState::Active);

    seq.deliver(0, vec![0; 10]);
    seq.deliver(1, vec![1; 10]);
    assert_eq!(seq.current_state(), SequencerState::Active);
    seq.deliver(2, vec![2; 10]);
    assert_eq!(seq.current_state(), SequencerState::Draining);

    for expected in 0..3usize {
        let cmd = seq.next_append().expect("a result is waiting");
        assert_eq!(cmd.index, expected);
    }
    assert_eq!(seq.current_state(), SequencerState::Completed);
    assert_eq!(seq.appended_count(), 3);
}

#[test]
fn reverse_delivery_is_emitted_in_index_order() {
    let mut seq = ChunkSequencer::new(30, 10, 100);
    seq.start();

    seq.deliver(2, vec![22; 10]);
    assert!(seq.next_append().is_none());
    seq.deliver(1, vec![11; 10]);
    assert!(seq.next_append().is_none());
    seq.deliver(0, vec![0; 10]);

    let first = seq.next_append().expect("chunk zero is ready");
    assert_eq!(first.index, 0);
    assert_eq!(first.bytes, vec![0; 10]);
    let second = seq.next_append().expect("chunk one was held");
    assert_eq!(second.index, 1);
    assert_eq!(second.bytes, vec![11; 10]);
    let third = seq.next_append().expect("chunk two was held");
    assert_eq!(third.index, 2);
    assert_eq!(third.bytes, vec![22; 10]);
    assert!(third.sync, "the final append forces a sync");
    assert_eq!(seq.current_state(), SequencerState::Completed);
}

#[test]
fn empty_job_completes_with_no_reads() {
    let mut seq = ChunkSequencer::new(0, 1_000_000, 100);
    let descs = seq.start();
    assert_eq!(descs.len(), 0);
    assert_eq!(seq.current_state(), SequencerState::Completed);
    assert_eq!(seq.appended_count(), 0);
}

#[test]
fn completions_after_a_failure_are_discarded() {
    let mut seq = ChunkSequencer::new(30, 10, 100);
    seq.start();
    seq.deliver(1, vec![11; 10]);
    seq.on_failure(UploadError::ReadFailure);
    assert_eq!(seq.current_state(), SequencerState::Failed);
    assert_eq!(seq.last_failure(), Some(UploadError::ReadFailure));

    // A straggling completion from an abandoned read changes nothing.
    seq.deliver(0, vec![0; 10]);
    assert_eq!(seq.current_state(), SequencerState::Failed);
    assert_eq!(seq.appended_count(), 0);
}

#[test]
fn cadence_flag_is_set_every_hundred_appends() {
    let mut seq = ChunkSequencer::new(250, 1, 100);
    seq.start();
    for i in 0..250usize {
        seq.deliver(i, vec![i as u8]);
    }
    let mut synced_at = Vec::new();
    for count in 1..=250usize {
        let cmd = seq.next_append().expect("all results are in");
        if cmd.sync {
            synced_at.push(count);
        }
    }
    assert_eq!(synced_at, vec![100, 200, 250]);
}
