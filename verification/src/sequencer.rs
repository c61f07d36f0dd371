//! The core scheduler of the upload pipeline.
//!
//! A [`ChunkSequencer`] owns one upload job. Reads for all chunks are
//! issued up front; decode completions then arrive in arbitrary order, and
//! the sequencer serializes them into append commands strictly in chunk
//! index order. A completion for an index ahead of the append cursor waits
//! in a holding area; whenever the cursor's own result is available, one
//! call of [`ChunkSequencer::next_append`] hands it out, releases it from
//! the holding area, and advances the cursor. Every emitted append carries
//! the sync decision of the cadence: a durability sync is requested when
//! the append counter is a multiple of the cadence, and on the append that
//! completes the final chunk.

use vstd::prelude::*;

use vstd::pervasive::VecAdditionalExecFns;
use vstd::set::axiom_set_insert_len;
use vstd::set_lib::{lemma_int_range, lemma_len_subset, set_int_range};

use crate::assembly::{concat_upto, lemma_chunks_reassemble_source, lemma_concat_upto_congruence};
use crate::chunks::{chunk_count, chunk_len_at, descriptors_of, desc_matches, ChunkDescriptor};
use crate::UploadError;

verus! {

/// The life cycle of an upload job.
///
/// `Idle` until the job starts; `Active` while chunk reads are in flight;
/// `Draining` once every completion has arrived but appends are still
/// being handed out; then the terminal `Completed`, or `Failed` after a
/// fatal error, which abandons the remaining in-flight reads.
#[derive(Clone, Copy, Debug, PartialEq, Eq, Structural)]
pub enum SequencerState {
    Idle,
    Active,
    Draining,
    Completed,
    Failed,
}

/// One serialized write: append `bytes` as chunk `index`'s contribution to
/// the destination object, flush, and, when `sync` is set, request a
/// durability sync afterwards.
pub struct AppendCommand {
    pub index: usize,
    pub bytes: Vec<u8>,
    pub sync: bool,
}

/// The core scheduler: receives chunk results in arbitrary order and emits
/// append commands strictly in chunk index order.
pub struct ChunkSequencer {
    total_size: usize,
    chunk_size: usize,
    sync_every: usize,
    n: usize,
    cursor: usize,
    undelivered: usize,
    holding: Vec<Option<Vec<u8>>>,
    state: SequencerState,
    error: Option<UploadError>,
    results: Ghost<Map<int, Seq<u8>>>,
    written: Ghost<Seq<u8>>,
}

impl ChunkSequencer {
    /// The job's total size in bytes.
    pub closed spec fn job_total_size(&self) -> int {
        self.total_size as int
    }

    /// The job's fixed chunk size in bytes.
    pub closed spec fn job_chunk_size(&self) -> int {
        self.chunk_size as int
    }

    /// Every how many appends a periodic durability sync is requested.
    pub closed spec fn sync_cadence(&self) -> int {
        self.sync_every as int
    }

    /// How many chunks the job has.
    pub closed spec fn total_chunks(&self) -> int {
        self.n as int
    }

    /// How many chunks have been appended; the next append is for this
    /// chunk index.
    pub closed spec fn appended(&self) -> int {
        self.cursor as int
    }

    /// How many chunks have no delivered result yet.
    pub closed spec fn undelivered_chunks(&self) -> int {
        self.undelivered as int
    }

    /// Whether chunk `i`'s result has been delivered.
    pub closed spec fn delivered(&self, i: int) -> bool {
        self.results@.dom().contains(i)
    }

    /// The bytes delivered for chunk `i`.
    pub closed spec fn result_at(&self, i: int) -> Seq<u8> {
        self.results@[i]
    }

    /// All delivered results, by chunk index.
    pub closed spec fn results_map(&self) -> Map<int, Seq<u8>> {
        self.results@
    }

    /// The byte stream emitted so far: the concatenation of every append
    /// command handed out, in the order they were handed out.
    pub closed spec fn written(&self) -> Seq<u8> {
        self.written@
    }

    /// The job's current life-cycle state.
    pub closed spec fn state(&self) -> SequencerState {
        self.state
    }

    /// The fatal error that moved the job to `Failed`, if any.
    pub closed spec fn failure(&self) -> Option<UploadError> {
        self.error
    }

    /// Whether every chunk's result has been delivered.
    pub open spec fn all_delivered(&self) -> bool {
        forall|i: int| 0 <= i < self.total_chunks() ==> self.delivered(i)
    }

    /// The coherence of the holding area with the delivered results:
    /// everything below the cursor has been appended and released, and
    /// above it the holding area retains exactly the delivered results.
    spec fn holding_matches(
        holding: Seq<Option<Vec<u8>>>,
        results: Map<int, Seq<u8>>,
        cursor: int,
        n: int,
    ) -> bool {
        &&& forall|i: int| 0 <= i < cursor ==> results.dom().contains(i)
        &&& forall|i: int| 0 <= i < cursor ==> (#[trigger] holding[i]) is None
        &&& forall|i: int|
            cursor <= i < n ==> match #[trigger] holding[i] {
                Some(b) => results.dom().contains(i) && b@ == results[i],
                None => !results.dom().contains(i),
            }
    }

    /// The sequencer's internal invariant: the holding area retains
    /// exactly the delivered-but-not-yet-appended results, everything
    /// below the cursor has been both delivered and appended, and the
    /// emitted stream is the concatenation of the results below the
    /// cursor, in index order.
    pub closed spec fn wf(&self) -> bool {
        &&& self.chunk_size >= 1
        &&& self.sync_every >= 1
        &&& self.n as nat == chunk_count(self.total_size as nat, self.chunk_size as nat)
        &&& self.holding@.len() == self.n
        &&& self.cursor <= self.n
        &&& self.cursor + self.undelivered <= self.n
        &&& self.results@.dom().finite()
        &&& self.results@.dom().subset_of(set_int_range(0, self.n as int))
        &&& self.results@.dom().len() == self.n - self.undelivered
        &&& Self::holding_matches(self.holding@, self.results@, self.cursor as int, self.n as int)
        &&& self.written@ == concat_upto(self.results@, self.cursor as int)
        &&& (self.state is Idle ==> self.cursor == 0 && self.undelivered == self.n)
        &&& (self.state is Active ==> self.undelivered > 0)
        &&& (self.state is Draining ==> self.undelivered == 0 && self.cursor < self.n)
        &&& (self.state is Completed ==> self.cursor == self.n)
    }

    /// The consequences of the invariant that callers reason with.
    pub proof fn lemma_invariants(&self)
        requires
            self.wf(),
        ensures
            self.job_chunk_size() >= 1,
            self.sync_cadence() >= 1,
            self.total_chunks() == chunk_count(
                self.job_total_size() as nat,
                self.job_chunk_size() as nat,
            ),
            self.total_chunks() <= usize::MAX,
            0 <= self.appended() <= self.total_chunks(),
            0 <= self.undelivered_chunks(),
            self.appended() + self.undelivered_chunks() <= self.total_chunks(),
            forall|i: int| 0 <= i < self.appended() ==> self.delivered(i),
            forall|i: int| self.delivered(i) ==> 0 <= i < self.total_chunks(),
            forall|i: int| self.delivered(i) == self.results_map().dom().contains(i),
            forall|i: int| self.result_at(i) == self.results_map()[i],
            self.written() == concat_upto(self.results_map(), self.appended()),
            self.state() is Idle ==> self.appended() == 0 && self.undelivered_chunks()
                == self.total_chunks(),
            self.state() is Active ==> self.undelivered_chunks() > 0,
            self.state() is Draining ==> self.undelivered_chunks() == 0 && self.appended()
                < self.total_chunks(),
            self.state() is Completed ==> self.appended() == self.total_chunks(),
            self.undelivered_chunks() == 0 ==> self.all_delivered(),
    {
        assert forall|i: int| self.delivered(i) implies 0 <= i < self.total_chunks() by {
            assert(set_int_range(0, self.n as int).contains(i));
        }
        if self.undelivered == 0 {
            assert forall|i: int| 0 <= i < self.total_chunks() implies self.delivered(i) by {
                lemma_int_range(0, self.n as int);
                if !self.results@.dom().contains(i) {
                    self.results@.dom().lemma_subset_not_in_lt(set_int_range(0, self.n as int), i);
                }
            }
        }
    }

    /// Creates the sequencer for one job, in `Idle`, with nothing
    /// delivered and nothing written.
    pub fn new(total_size: usize, chunk_size: usize, sync_every: usize) -> (s: Self)
        requires
            chunk_size >= 1,
            sync_every >= 1,
        ensures
            s.wf(),
            s.state() is Idle,
            s.job_total_size() == total_size,
            s.job_chunk_size() == chunk_size,
            s.sync_cadence() == sync_every,
            s.total_chunks() == chunk_count(total_size as nat, chunk_size as nat),
            s.appended() == 0,
            s.undelivered_chunks() == s.total_chunks(),
            s.written() == Seq::<u8>::empty(),
            forall|i: int| !s.delivered(i),
            s.results_map() == Map::<int, Seq<u8>>::empty(),
            s.failure() is None,
    {
        let mut holding: Vec<Option<Vec<u8>>> = Vec::new();
        let mut offset: usize = 0;
        while offset < total_size
            invariant
                chunk_size >= 1,
                offset <= total_size,
                holding@.len() + chunk_count((total_size - offset) as nat, chunk_size as nat)
                    == chunk_count(total_size as nat, chunk_size as nat),
                forall|j: int| 0 <= j < holding@.len() ==> (#[trigger] holding@[j]) is None,
            decreases total_size - offset,
        {
            let remaining = total_size - offset;
            let byte_length = if remaining < chunk_size {
                remaining
            } else {
                chunk_size
            };
            holding.push(None);
            offset = offset + byte_length;
        }
        let n = holding.len();
        let s = ChunkSequencer {
            total_size,
            chunk_size,
            sync_every,
            n,
            cursor: 0,
            undelivered: n,
            holding,
            state: SequencerState::Idle,
            error: None,
            results: Ghost(Map::empty()),
            written: Ghost(Seq::empty()),
        };
        proof {
            assert(s.results@.dom() =~= Set::<int>::empty());
            assert(s.results@.dom().subset_of(set_int_range(0, s.n as int)));
        }
        s
    }

    /// Enters `Active`: generates all chunk descriptors of the job,
    /// eagerly and up front, so that one read per descriptor can be issued
    /// immediately. A job of zero chunks has nothing to wait for and
    /// completes at once.
    pub fn start(&mut self) -> (descs: Vec<ChunkDescriptor>)
        requires
            old(self).wf(),
            old(self).state() is Idle,
        ensures
            final(self).wf(),
            descs@.len() == old(self).total_chunks(),
            forall|i: int|
                0 <= i < descs@.len() ==> desc_matches(
                    #[trigger] descs@[i],
                    i,
                    old(self).job_total_size(),
                    old(self).job_chunk_size(),
                ),
            final(self).state() == (if old(self).total_chunks() == 0 {
                SequencerState::Completed
            } else {
                SequencerState::Active
            }),
            final(self).job_total_size() == old(self).job_total_size(),
            final(self).job_chunk_size() == old(self).job_chunk_size(),
            final(self).sync_cadence() == old(self).sync_cadence(),
            final(self).total_chunks() == old(self).total_chunks(),
            final(self).appended() == old(self).appended(),
            final(self).undelivered_chunks() == old(self).undelivered_chunks(),
            final(self).written() == old(self).written(),
            final(self).results_map() == old(self).results_map(),
            forall|i: int| final(self).delivered(i) == old(self).delivered(i),
            final(self).failure() == old(self).failure(),
    {
        let descs = descriptors_of(self.total_size, self.chunk_size);
        if self.n == 0 {
            self.state = SequencerState::Completed;
        } else {
            self.state = SequencerState::Active;
        }
        descs
    }

    /// Receives the result of one chunk's read. While the job is `Active`
    /// the buffer enters the holding area until its turn to be appended;
    /// the arrival of the last outstanding result moves the job to
    /// `Draining`. In any other state the completion belongs to an
    /// abandoned read and is discarded unchanged.
    pub fn deliver(&mut self, index: usize, bytes: Vec<u8>)
        requires
            old(self).wf(),
            index < old(self).total_chunks(),
            old(self).state() is Active ==> !old(self).delivered(index as int),
        ensures
            final(self).wf(),
            final(self).job_total_size() == old(self).job_total_size(),
            final(self).job_chunk_size() == old(self).job_chunk_size(),
            final(self).sync_cadence() == old(self).sync_cadence(),
            final(self).total_chunks() == old(self).total_chunks(),
            final(self).appended() == old(self).appended(),
            final(self).written() == old(self).written(),
            final(self).failure() == old(self).failure(),
            old(self).state() is Active ==> {
                &&& final(self).results_map() == old(self).results_map().insert(
                    index as int,
                    bytes@,
                )
                &&& final(self).delivered(index as int)
                &&& final(self).result_at(index as int) == bytes@
                &&& forall|j: int|
                    j != index ==> final(self).delivered(j) == old(self).delivered(j)
                &&& forall|j: int|
                    j != index && old(self).delivered(j) ==> final(self).result_at(j) == old(
                        self,
                    ).result_at(j)
                &&& final(self).undelivered_chunks() == old(self).undelivered_chunks() - 1
                &&& final(self).state() == (if old(self).undelivered_chunks() == 1 {
                    SequencerState::Draining
                } else {
                    SequencerState::Active
                })
            },
            !(old(self).state() is Active) ==> {
                &&& final(self).results_map() == old(self).results_map()
                &&& forall|j: int| final(self).delivered(j) == old(self).delivered(j)
                &&& final(self).undelivered_chunks() == old(self).undelivered_chunks()
                &&& final(self).state() == old(self).state()
            },
    {
        match self.state {
            SequencerState::Active => {
                proof {
                    assert(index >= self.cursor);
                    axiom_set_insert_len(self.results@.dom(), index as int);
                }
                let ghost b = bytes@;
                self.holding.set(index, Some(bytes));
                self.undelivered = self.undelivered - 1;
                self.results = Ghost(self.results@.insert(index as int, b));
                if self.undelivered == 0 {
                    self.state = SequencerState::Draining;
                }
                proof {
                    assert(self.results@.dom() =~= old(self).results@.dom().insert(index as int));
                    lemma_concat_upto_congruence(
                        old(self).results@,
                        self.results@,
                        self.cursor as int,
                    );
                }
            },
            _ => {},
        }
    }

    /// Hands out the next append command, when the result for the append
    /// cursor's chunk is available: the command carries that chunk's
    /// bytes, the buffer leaves the holding area the moment it is handed
    /// out, and the cursor advances — so no chunk is ever appended twice
    /// and none is skipped. The command's `sync` flag is set when the
    /// append counter reaches a multiple of the cadence and on the append
    /// that completes the final chunk; that last append moves the job to
    /// `Completed`. Returns `None` while the cursor's result is still in
    /// flight.
    pub fn next_append(&mut self) -> (r: Option<AppendCommand>)
        requires
            old(self).wf(),
            old(self).state() is Active || old(self).state() is Draining,
        ensures
            final(self).wf(),
            final(self).job_total_size() == old(self).job_total_size(),
            final(self).job_chunk_size() == old(self).job_chunk_size(),
            final(self).sync_cadence() == old(self).sync_cadence(),
            final(self).total_chunks() == old(self).total_chunks(),
            final(self).undelivered_chunks() == old(self).undelivered_chunks(),
            final(self).results_map() == old(self).results_map(),
            forall|j: int| final(self).delivered(j) == old(self).delivered(j),
            forall|j: int| final(self).result_at(j) == old(self).result_at(j),
            final(self).failure() == old(self).failure(),
            r is Some <==> old(self).delivered(old(self).appended()),
            r matches Some(cmd) ==> {
                &&& cmd.index == old(self).appended()
                &&& cmd.bytes@ == old(self).result_at(old(self).appended())
                &&& final(self).appended() == old(self).appended() + 1
                &&& final(self).written() == old(self).written() + cmd.bytes@
                &&& (cmd.sync <==> (final(self).appended() % final(self).sync_cadence() == 0
                    || final(self).appended() == final(self).total_chunks()))
                &&& final(self).state() == (if final(self).appended()
                    == final(self).total_chunks() {
                    SequencerState::Completed
                } else {
                    old(self).state()
                })
            },
            r is None ==> {
                &&& final(self).appended() == old(self).appended()
                &&& final(self).written() == old(self).written()
                &&& final(self).state() == old(self).state()
            },
    {
        let cur = self.cursor;
        let mut taken: Option<Vec<u8>> = None;
        self.holding.set_and_swap(cur, &mut taken);
        match taken {
            None => {
                proof {
                    assert(old(self).holding@[cur as int] is None);
                    assert(self.holding@ =~= old(self).holding@);
                }
                None
            },
            Some(buf) => {
                proof {
                    assert(old(self).holding@[cur as int] matches Some(b) && b@ == old(
                        self,
                    ).results@[cur as int]);
                    assert(old(self).delivered(cur as int));
                }
                self.cursor = cur + 1;
                let count = self.cursor;
                let sync = count % self.sync_every == 0 || count == self.n;
                if count == self.n {
                    self.state = SequencerState::Completed;
                }
                self.written = Ghost(self.written@ + buf@);
                proof {
                    lemma_int_range(0, self.cursor as int);
                    assert forall|i: int|
                        set_int_range(0, self.cursor as int).contains(i) implies self.results@.dom()
                        .contains(i) by {
                        if i < cur {
                            assert(old(self).delivered(i));
                        } else {
                            assert(i == cur);
                        }
                    }
                    lemma_len_subset(set_int_range(0, self.cursor as int), self.results@.dom());
                    assert(self.written@ == concat_upto(self.results@, self.cursor as int));
                }
                Some(AppendCommand { index: cur, bytes: buf, sync })
            },
        }
    }

    /// Halts the job on a fatal error: the state machine moves to
    /// `Failed` at once and keeps the error for the caller. Results of
    /// still-in-flight reads delivered afterwards are discarded, and the
    /// partially written destination object is left in place.
    pub fn on_failure(&mut self, e: UploadError)
        requires
            old(self).wf(),
            e.fatal_to_job(),
            !(old(self).state() is Completed),
            !(old(self).state() is Failed),
        ensures
            final(self).wf(),
            final(self).state() is Failed,
            final(self).failure() == Some(e),
            final(self).job_total_size() == old(self).job_total_size(),
            final(self).job_chunk_size() == old(self).job_chunk_size(),
            final(self).sync_cadence() == old(self).sync_cadence(),
            final(self).total_chunks() == old(self).total_chunks(),
            final(self).appended() == old(self).appended(),
            final(self).written() == old(self).written(),
            final(self).results_map() == old(self).results_map(),
            forall|j: int| final(self).delivered(j) == old(self).delivered(j),
            final(self).undelivered_chunks() == old(self).undelivered_chunks(),
    {
        self.state = SequencerState::Failed;
        self.error = Some(e);
    }

    /// The job's current life-cycle state, for drivers that dispatch on
    /// it.
    pub fn current_state(&self) -> (s: SequencerState)
        ensures
            s == self.state(),
    {
        self.state
    }

    /// How many chunks the job has, as a count.
    pub fn chunk_total(&self) -> (c: usize)
        ensures
            c == self.total_chunks(),
    {
        self.n
    }

    /// How many chunks have been appended so far.
    pub fn appended_count(&self) -> (c: usize)
        ensures
            c == self.appended(),
    {
        self.cursor
    }

    /// The fatal error that halted the job, if any.
    pub fn last_failure(&self) -> (e: Option<UploadError>)
        ensures
            e == self.failure(),
    {
        self.error
    }
}

/// Once two sequencers have completed with the same chunk results, they
/// have written the same byte stream — whatever order the completions were
/// delivered in. The written stream of a completed job is a function of
/// the results alone.
pub proof fn lemma_written_independent_of_delivery_order(a: &ChunkSequencer, b: &ChunkSequencer)
    requires
        a.wf(),
        b.wf(),
        a.state() is Completed,
        b.state() is Completed,
        a.total_chunks() == b.total_chunks(),
        forall|i: int| 0 <= i < a.total_chunks() ==> a.result_at(i) == b.result_at(i),
    ensures
        a.written() == b.written(),
{
    a.lemma_invariants();
    b.lemma_invariants();
    assert forall|i: int|
        0 <= i < a.total_chunks() implies a.results_map()[i] == b.results_map()[i] by {
        assert(a.result_at(i) == b.result_at(i));
    }
    lemma_concat_upto_congruence(a.results_map(), b.results_map(), a.total_chunks());
}

/// A completed job whose every chunk result is its chunk's slice of the
/// source has written back exactly the original source bytes: the
/// byte-for-byte round trip, independent of the delivery order.
pub proof fn lemma_completed_job_reassembles_source(seq: &ChunkSequencer, source: Seq<u8>)
    requires
        seq.wf(),
        seq.state() is Completed,
        source.len() == seq.job_total_size(),
        forall|i: int|
            0 <= i < seq.total_chunks() ==> seq.result_at(i) == source.subrange(
                i * seq.job_chunk_size(),
                i * seq.job_chunk_size() + chunk_len_at(
                    i,
                    source.len() as int,
                    seq.job_chunk_size(),
                ),
            ),
    ensures
        seq.written() == source,
{
    seq.lemma_invariants();
    let cs = seq.job_chunk_size();
    assert forall|i: int|
        0 <= i < chunk_count(source.len(), cs as nat) implies seq.results_map()[i]
        == source.subrange(
        i * cs,
        i * cs + chunk_len_at(i, source.len() as int, cs),
    ) by {
        assert(seq.result_at(i) == source.subrange(
            i * cs,
            i * cs + chunk_len_at(i, source.len() as int, cs),
        ));
    }
    lemma_chunks_reassemble_source(source, cs, seq.results_map());
}

} // verus!
