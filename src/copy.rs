//! Copying one source to every live sink, chunk by chunk.
use crate::registry::MultiWriter;
use crate::relay::{
    add_mark, drained, lemma_chunk_events, lemma_failed_sink_excluded, lists_ids, Mark, Phase,
    Relay, RelayView,
};
use vstd::prelude::*;

verus! {

/// What a copy run reports; `E` is the error type of the caller's I/O.
#[derive(Debug, PartialEq, Eq)]
pub enum CopyEvent<E> {
    /// The sink with this identifier failed to take the chunk.
    Failure(usize, E),
    /// Either no sinks were given, or all of them have failed.
    NoWriters,
    /// This many bytes have been read from the source and handed to the sinks.
    Progress(usize),
    /// Reading the source failed; the run is over.
    SourceFailure(E),
}

/// A copy in progress. It owns the registry until the run is given up or over.
///
/// Each pass: `start_pass`, then (if no event ended the run) the caller reads a
/// chunk from the source and hands the outcome to `source_read`; it writes the
/// chunk to every sink of `targets` and reports each outcome to `write_settled`
/// as it comes; then `finish_chunk` reports the chunk's progress.
pub struct CopyRun {
    relay: Relay,
}

impl View for CopyRun {
    type V = RelayView;

    closed spec fn view(&self) -> RelayView {
        self.relay@
    }
}

impl MultiWriter {
    /// Starts copying to the live sinks.
    pub fn copy(self) -> (r: CopyRun)
        requires
            self.wf(),
        ensures
            r.wf(),
            r@ == (RelayView {
                sinks: self.sinks(),
                pending: self.pending(),
                slots: self.slots(),
                phase: Phase::Ready,
                read: 0,
                outstanding: Seq::empty(),
                chunks: Seq::empty(),
                reads: Seq::empty(),
            }),
    {
        CopyRun { relay: Relay::new(self) }
    }
}

impl CopyRun {
    /// The run's invariant: set up by the constructor, kept by every step.
    pub closed spec fn wf(&self) -> bool {
        self.relay.wf()
    }

    /// Of a run: there is one chunk per successful source read, and each chunk
    /// read and closed holds exactly one `Progress`, as its last event, after
    /// that chunk's failures, carrying that read's length; so the run's
    /// `Progress` events are the read lengths in order. The chunk still
    /// settling holds failures only.
    pub proof fn lemma_one_progress_per_chunk(&self)
        requires
            self.wf(),
        ensures
            self@.chunks.len() == self@.reads.len(),
            forall|k: int|
                0 <= k < self@.chunks.len() && !(self@.phase == Phase::Settling && k == self@.chunks.len()
                    - 1) ==> #[trigger] self@.chunks[k][self@.chunks[k].len() - 1] == Mark::Progress(
                    self@.reads[k],
                ),
            forall|k: int, j: int|
                0 <= k < self@.chunks.len() && !(self@.phase == Phase::Settling && k == self@.chunks.len()
                    - 1) && 0 <= j < self@.chunks[k].len() ==> (#[trigger] self@.chunks[k][j] is Progress
                    <==> j == self@.chunks[k].len() - 1),
            forall|k: int|
                0 <= k < self@.chunks.len() && !(self@.phase == Phase::Settling && k == self@.chunks.len()
                    - 1) ==> #[trigger] self@.chunks[k].len() >= 1,
            self@.phase == Phase::Settling ==> forall|j: int|
                0 <= j < self@.chunks.last().len() ==> #[trigger] self@.chunks.last()[j] is Failure,
    {
        self.relay.lemma_history();
        lemma_chunk_events(self@);
    }

    /// Of a run: a sink that failed in chunk `k` has nothing outstanding, so it
    /// takes part in no later chunk and fails in no other event. It stays in
    /// the registry, queued, until the next pass starts (also if the run is
    /// handed back now); once a later chunk has been read, or the run is over,
    /// it is gone.
    pub proof fn lemma_failed_sink_excluded(&self, k: int, j: int)
        requires
            self.wf(),
            0 <= k < self@.chunks.len(),
            0 <= j < self@.chunks[k].len(),
            self@.chunks[k][j] is Failure,
        ensures
            !self@.outstanding.contains(self@.chunks[k][j]->Failure_0),
            self@.sinks.dom().contains(self@.chunks[k][j]->Failure_0) <==> self@.pending.contains(
                self@.chunks[k][j]->Failure_0,
            ),
            !drained(self@.sinks, self@.pending).dom().contains(self@.chunks[k][j]->Failure_0),
            k < self@.chunks.len() - 1 || self@.phase == Phase::Reading || self@.phase == Phase::Done
                ==> !self@.sinks.dom().contains(self@.chunks[k][j]->Failure_0),
            k == self@.chunks.len() - 1 && (self@.phase == Phase::Ready || self@.phase
                == Phase::Settling) ==> self@.sinks.dom().contains(self@.chunks[k][j]->Failure_0)
                && self@.pending.contains(self@.chunks[k][j]->Failure_0),
            forall|k2: int, j2: int|
                0 <= k2 < self@.chunks.len() && 0 <= j2 < self@.chunks[k2].len() && (k2 != k || j2 != j)
                    ==> #[trigger] self@.chunks[k2][j2] != self@.chunks[k][j],
    {
        self.relay.lemma_history();
        lemma_failed_sink_excluded(self@, k, j);
    }

    pub fn phase(&self) -> (r: Phase)
        ensures
            r == self@.phase,
    {
        self.relay.phase()
    }

    /// The length of the current chunk.
    pub fn read(&self) -> (r: usize)
        ensures
            r == self@.read,
    {
        self.relay.read()
    }

    /// The sinks that still have to settle the current chunk; at the start of
    /// a chunk, every live sink in ascending order.
    pub fn targets(&self) -> (r: Vec<usize>)
        ensures
            r@ == self@.outstanding,
    {
        self.relay.targets()
    }

    /// The registry as the run sees it.
    pub fn writers(&self) -> (r: &MultiWriter)
        requires
            self.wf(),
        ensures
            r.wf(),
            r.sinks() == self@.sinks,
            r.pending() == self@.pending,
            r.slots() == self@.slots,
    {
        self.relay.writers()
    }

    /// Ends the run and hands the registry back.
    pub fn into_writers(self) -> (r: MultiWriter)
        requires
            self.wf(),
        ensures
            r.wf(),
            r.sinks() == self@.sinks,
            r.pending() == self@.pending,
            r.slots() == self@.slots,
    {
        self.relay.into_writers()
    }

    /// Starts a pass: the sinks that failed in the last one leave the registry.
    /// With none left the run ends with `NoWriters`; else the caller reads.
    pub fn start_pass<E>(&mut self) -> (r: Option<CopyEvent<E>>)
        requires
            old(self).wf(),
            old(self)@.phase == Phase::Ready,
        ensures
            final(self).wf(),
            final(self)@.sinks == drained(old(self)@.sinks, old(self)@.pending),
            final(self)@.slots == old(self)@.slots,
            final(self)@.pending == Seq::<usize>::empty(),
            final(self)@.read == old(self)@.read,
            final(self)@.outstanding == old(self)@.outstanding,
            final(self)@.chunks == old(self)@.chunks,
            final(self)@.reads == old(self)@.reads,
            final(self)@.sinks.dom().len() > 0 ==> final(self)@.phase == Phase::Reading && r
                == None::<CopyEvent<E>>,
            final(self)@.sinks.dom().len() == 0 ==> final(self)@.phase == Phase::Done && r
                == Some(CopyEvent::<E>::NoWriters),
    {
        if self.relay.start_pass() {
            None
        } else {
            Some(CopyEvent::NoWriters)
        }
    }

    /// Takes the outcome of reading one chunk from the source. A failure ends
    /// the run with `SourceFailure`; an empty read ends it with no event; a
    /// chunk goes to every live sink.
    pub fn source_read<E>(&mut self, result: Result<usize, E>) -> (r: Option<CopyEvent<E>>)
        requires
            old(self).wf(),
            old(self)@.phase == Phase::Reading,
        ensures
            final(self).wf(),
            final(self)@.sinks == old(self)@.sinks,
            final(self)@.slots == old(self)@.slots,
            final(self)@.pending == old(self)@.pending,
            match result {
                Ok(n) => {
                    &&& r == None::<CopyEvent<E>>
                    &&& n > 0 ==> {
                        &&& final(self)@.phase == Phase::Settling
                        &&& final(self)@.read == n
                        &&& lists_ids(final(self)@.outstanding, final(self)@.sinks)
                        &&& final(self)@.chunks == old(self)@.chunks.push(Seq::empty())
                    &&& final(self)@.reads == old(self)@.reads.push(n)
                    }
                    &&& n == 0 ==> final(self)@ == (RelayView { phase: Phase::Done, ..old(self)@ })
                },
                Err(e) => {
                    &&& r == Some(CopyEvent::SourceFailure(e))
                    &&& final(self)@ == (RelayView { phase: Phase::Done, ..old(self)@ })
                },
            },
    {
        match result {
            Ok(n) => {
                self.relay.source_read(Some(n));
                None
            },
            Err(e) => {
                self.relay.source_read(None);
                Some(CopyEvent::SourceFailure(e))
            },
        }
    }

    /// One sink has finished writing the chunk. A failure is reported at once
    /// and the sink is queued: it takes no later chunk and leaves the registry
    /// at the next pass boundary.
    pub fn write_settled<E>(&mut self, id: usize, result: Result<(), E>) -> (r: Option<CopyEvent<E>>)
        requires
            old(self).wf(),
            old(self)@.phase == Phase::Settling,
            old(self)@.outstanding.contains(id),
        ensures
            final(self).wf(),
            final(self)@.phase == Phase::Settling,
            final(self)@.read == old(self)@.read,
            final(self)@.sinks == old(self)@.sinks,
            final(self)@.slots == old(self)@.slots,
            final(self)@.outstanding == old(self)@.outstanding.remove_value(id),
            final(self)@.reads == old(self)@.reads,
            match result {
                Ok(_) => {
                    &&& r == None::<CopyEvent<E>>
                    &&& final(self)@.pending == old(self)@.pending
                    &&& final(self)@.chunks == old(self)@.chunks
                },
                Err(e) => {
                    &&& r == Some(CopyEvent::Failure(id, e))
                    &&& final(self)@.pending == old(self)@.pending.push(id)
                    &&& final(self)@.chunks == add_mark(old(self)@.chunks, Mark::Failure(id))
                },
            },
    {
        match result {
            Ok(_) => {
                self.relay.settle(id, true);
                None
            },
            Err(e) => {
                self.relay.settle(id, false);
                Some(CopyEvent::Failure(id, e))
            },
        }
    }

    /// Closes the chunk once every sink has settled: its one `Progress` event.
    pub fn finish_chunk<E>(&mut self) -> (r: CopyEvent<E>)
        requires
            old(self).wf(),
            old(self)@.phase == Phase::Settling,
            old(self)@.outstanding.len() == 0,
        ensures
            final(self).wf(),
            r == CopyEvent::<E>::Progress(old(self)@.read),
            final(self)@ == (RelayView {
                phase: Phase::Ready,
                chunks: add_mark(old(self)@.chunks, Mark::Progress(old(self)@.read)),
                ..old(self)@
            }),
    {
        CopyEvent::Progress(self.relay.finish())
    }
}

} // verus!
