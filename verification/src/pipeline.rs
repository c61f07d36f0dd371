//! A whole upload job, driven end to end.
//!
//! [`upload_with_order`] runs one job against an in-memory destination:
//! it issues all chunk reads up front, delivers the decoded results in a
//! caller-chosen order — standing in for the adversarial order in which
//! asynchronous completions really arrive — and appends each result in
//! strict chunk index order. The contract pins the two core guarantees
//! down: the destination holds exactly the source bytes, whatever the
//! delivery order was, and a durability sync is requested exactly at every
//! multiple of the cadence and on the append that completes the final
//! chunk.

use vstd::prelude::*;

use crate::chunks::{chunk_count, chunk_len_at, desc_matches, read_chunk, ByteSource};
use crate::sequencer::{ChunkSequencer, SequencerState};
use crate::sink::UploadSink;

verus! {

/// Whether the append numbered `count` (counting from one) requests a
/// durability sync, in a job of `n` chunks with the given cadence: every
/// `every`-th append does, and so does the append that completes the
/// final chunk.
pub open spec fn sync_requested_at(count: int, every: int, n: int) -> bool {
    count % every == 0 || count == n
}

/// The finished destination object and the job's durability-sync record.
pub struct UploadOutcome {
    /// The destination object's bytes, assembled in chunk index order.
    pub data: Vec<u8>,
    /// The append numbers (counting from one) after which a durability
    /// sync was requested, in increasing order.
    pub sync_log: Vec<usize>,
}

/// Runs one upload job to completion, delivering chunk completions in the
/// order given by `order` — any permutation of the chunk indices. The
/// destination comes out byte-identical to the source regardless of that
/// order, and the sync log holds exactly the appends the cadence calls
/// for.
pub fn upload_with_order(
    source: &ByteSource,
    chunk_size: usize,
    sync_every: usize,
    order: &Vec<usize>,
) -> (outcome: UploadOutcome)
    requires
        chunk_size >= 1,
        sync_every >= 1,
        order@.len() == chunk_count(source@.len(), chunk_size as nat),
        forall|k: int|
            0 <= k < order@.len() ==> (#[trigger] order@[k]) < chunk_count(
                source@.len(),
                chunk_size as nat,
            ),
        forall|k1: int, k2: int|
            0 <= k1 < k2 < order@.len() ==> order@[k1] != order@[k2],
    ensures
        outcome.data@ == source@,
        forall|c: usize|
            #[trigger] outcome.sync_log@.contains(c) <==> (1 <= c <= order@.len()
                && sync_requested_at(c as int, sync_every as int, order@.len() as int)),
        forall|j1: int, j2: int|
            0 <= j1 < j2 < outcome.sync_log@.len() ==> outcome.sync_log@[j1]
                < outcome.sync_log@[j2],
{
    let total_size = source.length();
    let mut seq = ChunkSequencer::new(total_size, chunk_size, sync_every);
    let descs = seq.start();
    let n = descs.len();
    let mut sink = UploadSink::create();
    let mut sync_log: Vec<usize> = Vec::new();
    let mut k: usize = 0;
    while k < n
        invariant
            seq.wf(),
            n == chunk_count(source@.len(), chunk_size as nat),
            n == order@.len(),
            descs@.len() == n,
            forall|i: int|
                0 <= i < n ==> desc_matches(
                    #[trigger] descs@[i],
                    i,
                    source@.len() as int,
                    chunk_size as int,
                ),
            forall|i: int| 0 <= i < n ==> (#[trigger] order@[i]) < n,
            forall|k1: int, k2: int| 0 <= k1 < k2 < n ==> order@[k1] != order@[k2],
            seq.job_total_size() == source@.len(),
            seq.job_chunk_size() == chunk_size,
            seq.sync_cadence() == sync_every,
            seq.total_chunks() == n,
            0 <= k <= n,
            seq.undelivered_chunks() == n - k,
            seq.state() == (if k < n {
                SequencerState::Active
            } else {
                SequencerState::Completed
            }),
            forall|j: int| 0 <= j < k ==> seq.delivered(#[trigger] order@[j] as int),
            forall|i: int|
                #[trigger] seq.delivered(i) ==> exists|j: int| 0 <= j < k && order@[j] == i,
            forall|i: int|
                #[trigger] seq.delivered(i) ==> seq.result_at(i) == source@.subrange(
                    i * chunk_size,
                    i * chunk_size + chunk_len_at(i, source@.len() as int, chunk_size as int),
                ),
            sink.wf(),
            sink.bytes() == seq.written(),
            sink.flushed_bytes() == sink.bytes().len(),
            forall|c: usize|
                #[trigger] sync_log@.contains(c) <==> (1 <= c <= seq.appended()
                    && sync_requested_at(c as int, sync_every as int, n as int)),
            forall|j1: int, j2: int|
                0 <= j1 < j2 < sync_log@.len() ==> sync_log@[j1] < sync_log@[j2],
            forall|j: int| 0 <= j < sync_log@.len() ==> #[trigger] sync_log@[j] <= seq.appended(),
        decreases n - k,
    {
        proof {
            seq.lemma_invariants();
            if seq.delivered(order@[k as int] as int) {
                let j = choose|j: int| 0 <= j < k && order@[j] == order@[k as int];
                assert(order@[j] == order@[k as int]);
                assert(false);
            }
        }
        let idx = order[k];
        let bytes = read_chunk(source, &descs[idx]);
        seq.deliver(idx, bytes);
        k = k + 1;
        proof {
            seq.lemma_invariants();
            assert forall|i: int|
                seq.delivered(i) implies exists|j: int| 0 <= j < k && order@[j] == i by {
                if i == idx as int {
                    assert(order@[k - 1] == i);
                } else {
                    let j0 = choose|j: int| 0 <= j < k - 1 && order@[j] == i;
                    assert(0 <= j0 < k && order@[j0] == i);
                }
            }
        }
        drain_available(&mut seq, &mut sink, &mut sync_log, Ghost(n as int));
    }
    proof {
        seq.lemma_invariants();
        assert forall|i: int|
            0 <= i < seq.total_chunks() implies seq.result_at(i) == source@.subrange(
            i * seq.job_chunk_size(),
            i * seq.job_chunk_size() + chunk_len_at(
                i,
                source@.len() as int,
                seq.job_chunk_size(),
            ),
        ) by {
            assert(seq.delivered(i));
        }
        crate::sequencer::lemma_completed_job_reassembles_source(&seq, source@);
    }
    let data = sink.into_bytes();
    UploadOutcome { data, sync_log }
}

/// Appends every result that is ready, in index order: repeatedly asks the
/// sequencer for the next append command, writes its bytes to the
/// destination, and records the sync requests the commands carry. Stops
/// when the cursor's chunk is still in flight or the job has completed —
/// so the arrival of a result lets several waiting buffers land in one
/// step, and the arrival of the last outstanding result completes the
/// job.
fn drain_available(
    seq: &mut ChunkSequencer,
    sink: &mut UploadSink,
    sync_log: &mut Vec<usize>,
    n: Ghost<int>,
)
    requires
        old(seq).wf(),
        old(seq).total_chunks() == n@,
        old(seq).state() == (if old(seq).undelivered_chunks() > 0 {
            SequencerState::Active
        } else if old(seq).appended() < n@ {
            SequencerState::Draining
        } else {
            SequencerState::Completed
        }),
        old(sink).wf(),
        old(sink).bytes() == old(seq).written(),
        old(sink).flushed_bytes() == old(sink).bytes().len(),
        forall|c: usize|
            #[trigger] old(sync_log)@.contains(c) <==> (1 <= c <= old(seq).appended()
                && sync_requested_at(c as int, old(seq).sync_cadence(), n@)),
        forall|j1: int, j2: int|
            0 <= j1 < j2 < old(sync_log)@.len() ==> old(sync_log)@[j1] < old(sync_log)@[j2],
        forall|j: int|
            0 <= j < old(sync_log)@.len() ==> #[trigger] old(sync_log)@[j] <= old(seq).appended(),
    ensures
        final(seq).wf(),
        final(seq).total_chunks() == n@,
        final(seq).job_total_size() == old(seq).job_total_size(),
        final(seq).job_chunk_size() == old(seq).job_chunk_size(),
        final(seq).sync_cadence() == old(seq).sync_cadence(),
        final(seq).undelivered_chunks() == old(seq).undelivered_chunks(),
        final(seq).results_map() == old(seq).results_map(),
        forall|j: int| final(seq).delivered(j) == old(seq).delivered(j),
        forall|j: int| final(seq).result_at(j) == old(seq).result_at(j),
        final(seq).state() == (if old(seq).undelivered_chunks() > 0 {
            SequencerState::Active
        } else {
            SequencerState::Completed
        }),
        final(seq).state() is Completed || !final(seq).delivered(final(seq).appended()),
        final(sink).wf(),
        final(sink).bytes() == final(seq).written(),
        final(sink).flushed_bytes() == final(sink).bytes().len(),
        forall|c: usize|
            #[trigger] final(sync_log)@.contains(c) <==> (1 <= c <= final(seq).appended()
                && sync_requested_at(c as int, final(seq).sync_cadence(), n@)),
        forall|j1: int, j2: int|
            0 <= j1 < j2 < final(sync_log)@.len() ==> final(sync_log)@[j1]
                < final(sync_log)@[j2],
        forall|j: int|
            0 <= j < final(sync_log)@.len() ==> #[trigger] final(sync_log)@[j]
                <= final(seq).appended(),
{
    loop
        invariant
            seq.wf(),
            seq.total_chunks() == n@,
            seq.job_total_size() == old(seq).job_total_size(),
            seq.job_chunk_size() == old(seq).job_chunk_size(),
            seq.sync_cadence() == old(seq).sync_cadence(),
            seq.undelivered_chunks() == old(seq).undelivered_chunks(),
            seq.results_map() == old(seq).results_map(),
            forall|j: int| seq.delivered(j) == old(seq).delivered(j),
            forall|j: int| seq.result_at(j) == old(seq).result_at(j),
            seq.state() == (if seq.undelivered_chunks() > 0 {
                SequencerState::Active
            } else if seq.appended() < n@ {
                SequencerState::Draining
            } else {
                SequencerState::Completed
            }),
            sink.wf(),
            sink.bytes() == seq.written(),
            sink.flushed_bytes() == sink.bytes().len(),
            forall|c: usize|
                #[trigger] sync_log@.contains(c) <==> (1 <= c <= seq.appended()
                    && sync_requested_at(c as int, seq.sync_cadence(), n@)),
            forall|j1: int, j2: int|
                0 <= j1 < j2 < sync_log@.len() ==> sync_log@[j1] < sync_log@[j2],
            forall|j: int| 0 <= j < sync_log@.len() ==> #[trigger] sync_log@[j] <= seq.appended(),
        ensures
            seq.wf(),
            seq.total_chunks() == n@,
            seq.job_total_size() == old(seq).job_total_size(),
            seq.job_chunk_size() == old(seq).job_chunk_size(),
            seq.sync_cadence() == old(seq).sync_cadence(),
            seq.undelivered_chunks() == old(seq).undelivered_chunks(),
            seq.results_map() == old(seq).results_map(),
            forall|j: int| seq.delivered(j) == old(seq).delivered(j),
            forall|j: int| seq.result_at(j) == old(seq).result_at(j),
            seq.state() == (if seq.undelivered_chunks() > 0 {
                SequencerState::Active
            } else if seq.appended() < n@ {
                SequencerState::Draining
            } else {
                SequencerState::Completed
            }),
            seq.state() is Completed || !seq.delivered(seq.appended()),
            sink.wf(),
            sink.bytes() == seq.written(),
            sink.flushed_bytes() == sink.bytes().len(),
            forall|c: usize|
                #[trigger] sync_log@.contains(c) <==> (1 <= c <= seq.appended()
                    && sync_requested_at(c as int, seq.sync_cadence(), n@)),
            forall|j1: int, j2: int|
                0 <= j1 < j2 < sync_log@.len() ==> sync_log@[j1] < sync_log@[j2],
            forall|j: int| 0 <= j < sync_log@.len() ==> #[trigger] sync_log@[j] <= seq.appended(),
        decreases n@ - seq.appended(),
    {
        proof {
            seq.lemma_invariants();
        }
        let state = seq.current_state();
        let running = matches!(state, SequencerState::Active) || matches!(
            state,
            SequencerState::Draining,
        );
        if !running {
            break ;
        }
        match seq.next_append() {
            None => {
                break ;
            },
            Some(mut cmd) => {
                let ghost log_before = sync_log@;
                let count = cmd.index + 1;
                sink.append(&mut cmd.bytes);
                sink.flush();
                if cmd.sync {
                    sync_log.push(count);
                }
                proof {
                    seq.lemma_invariants();
                    assert forall|c: usize| #[trigger] sync_log@.contains(c) implies (1 <= c
                        <= seq.appended() && sync_requested_at(
                        c as int,
                        seq.sync_cadence(),
                        n@,
                    )) by {
                        if log_before.contains(c) {
                        } else {
                            assert(sync_log@.len() > log_before.len());
                            assert(sync_log@[sync_log@.len() - 1] == count);
                            assert(c == count);
                        }
                    }
                    assert forall|c: usize| (1 <= c <= seq.appended() && sync_requested_at(
                        c as int,
                        seq.sync_cadence(),
                        n@,
                    )) implies #[trigger] sync_log@.contains(c) by {
                        if c < seq.appended() {
                            assert(log_before.contains(c));
                            let j0 = choose|j: int|
                                0 <= j < log_before.len() && log_before[j] == c;
                            assert(sync_log@[j0] == c);
                        } else {
                            assert(c == count);
                            assert(cmd.sync);
                            assert(sync_log@[sync_log@.len() - 1] == c);
                        }
                    }
                }
            },
        }
    }
    proof {
        seq.lemma_invariants();
        if seq.undelivered_chunks() == 0 && !(seq.state() is Completed) {
            assert(seq.all_delivered());
            assert(seq.delivered(seq.appended()));
            assert(false);
        }
    }
}

} // verus!
