//! Checking every live sink against the source, chunk by chunk.
use crate::registry::MultiWriter;
use crate::relay::{
    add_mark, drained, lemma_chunk_events, lemma_failed_sink_excluded, lists_ids, Mark, Phase,
    Relay, RelayView,
};
use vstd::prelude::*;

verus! {

/// Why a sink failed to validate.
#[derive(Debug, PartialEq, Eq)]
pub enum ValidationError<E> {
    /// Reading the chunk back from the sink failed, or came up short.
    Read(E),
    /// The sink holds other bytes than the source.
    Mismatch,
}

/// What a validate run reports; `E` is the error type of the caller's I/O.
#[derive(Debug, PartialEq, Eq)]
pub enum ValidationEvent<E> {
    /// The sink with this identifier failed to validate.
    Failure(usize, ValidationError<E>),
    /// Either no sinks were given, or all of them have failed.
    NoWriters,
    /// This many bytes have been read from the source and compared.
    Progress(usize),
    /// Reading the source failed; the run is over.
    SourceFailure(E),
}

/// `b` grown with zero bytes to at least `n` bytes.
pub open spec fn sized(b: Seq<u8>, n: nat) -> Seq<u8> {
    if b.len() >= n {
        b
    } else {
        b + Seq::new((n - b.len()) as nat, |i: int| 0u8)
    }
}

/// The bytes of a sequence of chunks, one after another.
pub open spec fn joined(chunks: Seq<Seq<u8>>) -> Seq<u8>
    decreases chunks.len(),
{
    if chunks.len() == 0 {
        Seq::empty()
    } else {
        joined(chunks.drop_last()) + chunks.last()
    }
}

/// Where chunk `k` starts.
pub open spec fn offset(chunks: Seq<Seq<u8>>, k: int) -> nat {
    joined(chunks.take(k)).len()
}

/// The sum of the chunk lengths: what the `Progress` events of a run add up to.
pub open spec fn total_len(chunks: Seq<Seq<u8>>) -> nat
    decreases chunks.len(),
{
    if chunks.len() == 0 {
        0
    } else {
        total_len(chunks.drop_last()) + chunks.last().len()
    }
}

proof fn lemma_concat_take(chunks: Seq<Seq<u8>>, k: int)
    requires
        0 <= k < chunks.len(),
    ensures
        joined(chunks.take(k + 1)) == joined(chunks.take(k)) + chunks[k],
{
    assert(chunks.take(k + 1).drop_last() == chunks.take(k));
}

proof fn lemma_concat_prefix(chunks: Seq<Seq<u8>>, k: int)
    requires
        0 <= k <= chunks.len(),
    ensures
        joined(chunks).subrange(0, joined(chunks.take(k)).len() as int) == joined(chunks.take(k)),
        joined(chunks.take(k)).len() <= joined(chunks).len(),
    decreases chunks.len() - k,
{
    if k == chunks.len() {
        assert(chunks.take(k) == chunks);
        assert(joined(chunks).subrange(0, joined(chunks).len() as int) =~= joined(chunks));
    } else {
        lemma_concat_prefix(chunks, k + 1);
        lemma_concat_take(chunks, k);
        let p = joined(chunks.take(k));
        let q = joined(chunks.take(k + 1));
        assert(q.subrange(0, p.len() as int) =~= p);
        assert(joined(chunks).subrange(0, p.len() as int) =~= q.subrange(0, p.len() as int));
    }
}

proof fn lemma_total_len(chunks: Seq<Seq<u8>>)
    ensures
        total_len(chunks) == joined(chunks).len(),
    decreases chunks.len(),
{
    if chunks.len() > 0 {
        lemma_total_len(chunks.drop_last());
    }
}

/// Copy, then seek to the start, then validate: a sink that holds exactly the
/// chunks a copy wrote, read back from its start in the chunks in which the
/// same source is read again, gives each of them back unchanged, so no chunk
/// mismatches; and the chunk lengths add up to the source's length.
pub proof fn lemma_round_trip(written: Seq<Seq<u8>>, reread: Seq<Seq<u8>>)
    requires
        joined(reread) == joined(written),
    ensures
        forall|k: int|
            0 <= k < reread.len() ==> joined(written).subrange(
                offset(reread, k) as int,
                (offset(reread, k) + reread[k].len()) as int,
            ) == #[trigger] reread[k],
        total_len(reread) == joined(written).len(),
{
    assert forall|k: int| 0 <= k < reread.len() implies joined(written).subrange(
        offset(reread, k) as int,
        (offset(reread, k) + reread[k].len()) as int,
    ) == #[trigger] reread[k] by {
        lemma_concat_take(reread, k);
        lemma_concat_prefix(reread, k + 1);
        let p = joined(reread.take(k));
        let q = joined(reread.take(k + 1));
        assert(joined(reread).subrange(p.len() as int, q.len() as int) =~= q.subrange(
            p.len() as int,
            q.len() as int,
        ));
        assert(q.subrange(p.len() as int, q.len() as int) =~= reread[k]);
    }
    lemma_total_len(reread);
}

/// Whether the bytes read back from a sink equal the source's.
pub fn copies_match(copy: &[u8], source: &[u8]) -> (r: bool)
    ensures
        r == (copy@ == source@),
{
    if copy.len() != source.len() {
        return false;
    }
    let mut i: usize = 0;
    while i < copy.len()
        invariant
            0 <= i <= copy@.len(),
            copy@.len() == source@.len(),
            forall|j: int| 0 <= j < i ==> copy@[j] == source@[j],
        decreases copy@.len() - i,
    {
        if copy[i] != source[i] {
            return false;
        }
        i = i + 1;
    }
    assert(copy@ =~= source@);
    true
}

/// Makes one comparison buffer of at least `source_len` bytes for each of
/// `live` sinks: short buffers grow with zeros, missing ones are added, none
/// shrinks or goes away.
pub fn prepare_buffers(copy_bufs: &mut Vec<Vec<u8>>, source_len: usize, live: usize)
    ensures
        final(copy_bufs)@.len() == (if old(copy_bufs)@.len() >= live {
            old(copy_bufs)@.len()
        } else {
            live as nat
        }),
        forall|i: int|
            0 <= i < final(copy_bufs)@.len() ==> (#[trigger] final(copy_bufs)@[i])@ == sized(
                if i < old(copy_bufs)@.len() {
                    old(copy_bufs)@[i]@
                } else {
                    Seq::empty()
                },
                source_len as nat,
            ),
{
    let mut i: usize = 0;
    while i < copy_bufs.len()
        invariant
            0 <= i <= copy_bufs@.len(),
            copy_bufs@.len() == old(copy_bufs)@.len(),
            forall|j: int| 0 <= j < copy_bufs@.len() ==> (#[trigger] copy_bufs@[j])@ == (if j < i {
                sized(old(copy_bufs)@[j]@, source_len as nat)
            } else {
                old(copy_bufs)@[j]@
            }),
        decreases copy_bufs@.len() - i,
    {
        if copy_bufs[i].len() < source_len {
            let ghost b = copy_bufs@[i as int]@;
            copy_bufs[i].resize(source_len, 0u8);
            proof {
                let nb = copy_bufs@[i as int]@;
                assert forall|k: int| b.len() <= k < source_len implies nb[k] == 0u8 by {
                    assert(cloned::<u8>(0u8, nb[k]));
                }
                assert(nb =~= sized(b, source_len as nat)) by {
                    assert(nb.subrange(0, b.len() as int) == b);
                    assert forall|k: int| 0 <= k < b.len() implies nb[k] == b[k] by {
                        assert(nb.subrange(0, b.len() as int)[k] == nb[k]);
                    }
                }
            }
        } else {
            assert(sized(copy_bufs@[i as int]@, source_len as nat) == copy_bufs@[i as int]@);
        }
        i = i + 1;
    }
    while copy_bufs.len() < live
        invariant
            copy_bufs@.len() >= old(copy_bufs)@.len(),
            forall|j: int|
                0 <= j < copy_bufs@.len() ==> (#[trigger] copy_bufs@[j])@ == sized(
                    if j < old(copy_bufs)@.len() {
                        old(copy_bufs)@[j]@
                    } else {
                        Seq::empty()
                    },
                    source_len as nat,
                ),
            old(copy_bufs)@.len() < live ==> copy_bufs@.len() <= live,
            old(copy_bufs)@.len() >= live ==> copy_bufs@.len() == old(copy_bufs)@.len(),
        decreases live - copy_bufs@.len(),
    {
        let fresh = vec![0u8; source_len];
        proof {
            assert forall|k: int| 0 <= k < source_len implies fresh@[k] == 0u8 by {
                assert(cloned::<u8>(0u8, fresh@[k]));
            }
            assert(fresh@ =~= sized(Seq::empty(), source_len as nat));
        }
        copy_bufs.push(fresh);
    }
}

/// A validation in progress. It owns the registry until the run is given up or over.
///
/// Each pass: `start_pass`, then (if no event ended the run) the caller reads a
/// chunk from the source and hands the outcome to `source_read`; it reads as
/// many bytes back from every sink of `targets`, the i-th into the i-th
/// comparison buffer, and hands each outcome to `read_settled` as it comes;
/// then `finish_chunk` reports the chunk's progress.
pub struct ValidateRun {
    relay: Relay,
}

impl View for ValidateRun {
    type V = RelayView;

    closed spec fn view(&self) -> RelayView {
        self.relay@
    }
}

impl MultiWriter {
    /// Starts validating the live sinks against a source read through a buffer
    /// of `source_len` bytes, after preparing one comparison buffer per live sink.
    pub fn validate(self, source_len: usize, copy_bufs: &mut Vec<Vec<u8>>) -> (r: ValidateRun)
        requires
            self.wf(),
        ensures
            final(copy_bufs)@.len() == (if old(copy_bufs)@.len() >= self.sinks().dom().len() {
                old(copy_bufs)@.len()
            } else {
                self.sinks().dom().len()
            }),
            forall|i: int|
                0 <= i < final(copy_bufs)@.len() ==> (#[trigger] final(copy_bufs)@[i])@ == sized(
                    if i < old(copy_bufs)@.len() {
                        old(copy_bufs)@[i]@
                    } else {
                        Seq::empty()
                    },
                    source_len as nat,
                ),
            r.wf(),
            r@ == (RelayView {
                sinks: self.sinks(),
                pending: self.pending(),
                slots: self.slots(),
                phase: Phase::Ready,
                read: 0,
                outstanding: Seq::empty(),
                chunks: Seq::empty(),
                reads: Seq::empty(),
            }),
    {
        let live = self.len();
        prepare_buffers(copy_bufs, source_len, live);
        ValidateRun { relay: Relay::new(self) }
    }
}

impl ValidateRun {
    /// The run's invariant: set up by the constructor, kept by every step.
    pub closed spec fn wf(&self) -> bool {
        self.relay.wf()
    }

    /// Of a run: there is one chunk per successful source read, and each chunk
    /// read and closed holds exactly one `Progress`, as its last event, after
    /// that chunk's failures, carrying that read's length; so the run's
    /// `Progress` events are the read lengths in order. The chunk still
    /// settling holds failures only.
    pub proof fn lemma_one_progress_per_chunk(&self)
        requires
            self.wf(),
        ensures
            self@.chunks.len() == self@.reads.len(),
            forall|k: int|
                0 <= k < self@.chunks.len() && !(self@.phase == Phase::Settling && k == self@.chunks.len()
                    - 1) ==> #[trigger] self@.chunks[k][self@.chunks[k].len() - 1] == Mark::Progress(
                    self@.reads[k],
                ),
            forall|k: int, j: int|
                0 <= k < self@.chunks.len() && !(self@.phase == Phase::Settling && k == self@.chunks.len()
                    - 1) && 0 <= j < self@.chunks[k].len() ==> (#[trigger] self@.chunks[k][j] is Progress
                    <==> j == self@.chunks[k].len() - 1),
            forall|k: int|
                0 <= k < self@.chunks.len() && !(self@.phase == Phase::Settling && k == self@.chunks.len()
                    - 1) ==> #[trigger] self@.chunks[k].len() >= 1,
            self@.phase == Phase::Settling ==> forall|j: int|
                0 <= j < self@.chunks.last().len() ==> #[trigger] self@.chunks.last()[j] is Failure,
    {
        self.relay.lemma_history();
        lemma_chunk_events(self@);
    }

    /// Of a run: a sink that failed in chunk `k` has nothing outstanding, so it
    /// takes part in no later chunk and fails in no other event. It stays in
    /// the registry, queued, until the next pass starts (also if the run is
    /// handed back now); once a later chunk has been read, or the run is over,
    /// it is gone.
    pub proof fn lemma_failed_sink_excluded(&self, k: int, j: int)
        requires
            self.wf(),
            0 <= k < self@.chunks.len(),
            0 <= j < self@.chunks[k].len(),
            self@.chunks[k][j] is Failure,
        ensures
            !self@.outstanding.contains(self@.chunks[k][j]->Failure_0),
            self@.sinks.dom().contains(self@.chunks[k][j]->Failure_0) <==> self@.pending.contains(
                self@.chunks[k][j]->Failure_0,
            ),
            !drained(self@.sinks, self@.pending).dom().contains(self@.chunks[k][j]->Failure_0),
            k < self@.chunks.len() - 1 || self@.phase == Phase::Reading || self@.phase == Phase::Done
                ==> !self@.sinks.dom().contains(self@.chunks[k][j]->Failure_0),
            k == self@.chunks.len() - 1 && (self@.phase == Phase::Ready || self@.phase
                == Phase::Settling) ==> self@.sinks.dom().contains(self@.chunks[k][j]->Failure_0)
                && self@.pending.contains(self@.chunks[k][j]->Failure_0),
            forall|k2: int, j2: int|
                0 <= k2 < self@.chunks.len() && 0 <= j2 < self@.chunks[k2].len() && (k2 != k || j2 != j)
                    ==> #[trigger] self@.chunks[k2][j2] != self@.chunks[k][j],
    {
        self.relay.lemma_history();
        lemma_failed_sink_excluded(self@, k, j);
    }

    pub fn phase(&self) -> (r: Phase)
        ensures
            r == self@.phase,
    {
        self.relay.phase()
    }

    /// The length of the current chunk.
    pub fn read(&self) -> (r: usize)
        ensures
            r == self@.read,
    {
        self.relay.read()
    }

    /// The sinks that still have to settle the current chunk; at the start of
    /// a chunk, every live sink in ascending order.
    pub fn targets(&self) -> (r: Vec<usize>)
        ensures
            r@ == self@.outstanding,
    {
        self.relay.targets()
    }

    /// The registry as the run sees it.
    pub fn writers(&self) -> (r: &MultiWriter)
        requires
            self.wf(),
        ensures
            r.wf(),
            r.sinks() == self@.sinks,
            r.pending() == self@.pending,
            r.slots() == self@.slots,
    {
        self.relay.writers()
    }

    /// Ends the run and hands the registry back.
    pub fn into_writers(self) -> (r: MultiWriter)
        requires
            self.wf(),
        ensures
            r.wf(),
            r.sinks() == self@.sinks,
            r.pending() == self@.pending,
            r.slots() == self@.slots,
    {
        self.relay.into_writers()
    }

    /// Starts a pass: the sinks that failed in the last one leave the registry.
    /// With none left the run ends with `NoWriters`; else the caller reads.
    pub fn start_pass<E>(&mut self) -> (r: Option<ValidationEvent<E>>)
        requires
            old(self).wf(),
            old(self)@.phase == Phase::Ready,
        ensures
            final(self).wf(),
            final(self)@.sinks == drained(old(self)@.sinks, old(self)@.pending),
            final(self)@.slots == old(self)@.slots,
            final(self)@.pending == Seq::<usize>::empty(),
            final(self)@.read == old(self)@.read,
            final(self)@.outstanding == old(self)@.outstanding,
            final(self)@.chunks == old(self)@.chunks,
            final(self)@.reads == old(self)@.reads,
            final(self)@.sinks.dom().len() > 0 ==> final(self)@.phase == Phase::Reading && r
                == None::<ValidationEvent<E>>,
            final(self)@.sinks.dom().len() == 0 ==> final(self)@.phase == Phase::Done && r
                == Some(ValidationEvent::<E>::NoWriters),
    {
        if self.relay.start_pass() {
            None
        } else {
            Some(ValidationEvent::NoWriters)
        }
    }

    /// Takes the outcome of reading one chunk from the source. A failure ends
    /// the run with `SourceFailure`; an empty read ends it with no event; a
    /// chunk goes to every live sink.
    pub fn source_read<E>(&mut self, result: Result<usize, E>) -> (r: Option<ValidationEvent<E>>)
        requires
            old(self).wf(),
            old(self)@.phase == Phase::Reading,
        ensures
            final(self).wf(),
            final(self)@.sinks == old(self)@.sinks,
            final(self)@.slots == old(self)@.slots,
            final(self)@.pending == old(self)@.pending,
            match result {
                Ok(n) => {
                    &&& r == None::<ValidationEvent<E>>
                    &&& n > 0 ==> {
                        &&& final(self)@.phase == Phase::Settling
                        &&& final(self)@.read == n
                        &&& lists_ids(final(self)@.outstanding, final(self)@.sinks)
                        &&& final(self)@.chunks == old(self)@.chunks.push(Seq::empty())
                    &&& final(self)@.reads == old(self)@.reads.push(n)
                    }
                    &&& n == 0 ==> final(self)@ == (RelayView { phase: Phase::Done, ..old(self)@ })
                },
                Err(e) => {
                    &&& r == Some(ValidationEvent::SourceFailure(e))
                    &&& final(self)@ == (RelayView { phase: Phase::Done, ..old(self)@ })
                },
            },
    {
        match result {
            Ok(n) => {
                self.relay.source_read(Some(n));
                None
            },
            Err(e) => {
                self.relay.source_read(None);
                Some(ValidationEvent::SourceFailure(e))
            },
        }
    }

    /// One sink has read the chunk back into `copy`; `source` is the chunk as
    /// read from the source. Both hold exactly the chunk's bytes. A failed read, or bytes that differ, is reported
    /// at once and the sink is queued: it takes part in no later chunk and
    /// leaves the registry at the next pass boundary.
    pub fn read_settled<E>(
        &mut self,
        id: usize,
        result: Result<(), E>,
        copy: &[u8],
        source: &[u8],
    ) -> (r: Option<ValidationEvent<E>>)
        requires
            old(self).wf(),
            old(self)@.phase == Phase::Settling,
            old(self)@.outstanding.contains(id),
            copy@.len() == old(self)@.read,
            source@.len() == old(self)@.read,
        ensures
            final(self).wf(),
            final(self)@.phase == Phase::Settling,
            final(self)@.read == old(self)@.read,
            final(self)@.sinks == old(self)@.sinks,
            final(self)@.slots == old(self)@.slots,
            final(self)@.outstanding == old(self)@.outstanding.remove_value(id),
            final(self)@.reads == old(self)@.reads,
            match result {
                Ok(_) => if copy@ == source@ {
                    &&& r == None::<ValidationEvent<E>>
                    &&& final(self)@.pending == old(self)@.pending
                    &&& final(self)@.chunks == old(self)@.chunks
                } else {
                    &&& r == Some(ValidationEvent::<E>::Failure(id, ValidationError::Mismatch))
                    &&& final(self)@.pending == old(self)@.pending.push(id)
                    &&& final(self)@.chunks == add_mark(old(self)@.chunks, Mark::Failure(id))
                },
                Err(e) => {
                    &&& r == Some(ValidationEvent::Failure(id, ValidationError::Read(e)))
                    &&& final(self)@.pending == old(self)@.pending.push(id)
                    &&& final(self)@.chunks == add_mark(old(self)@.chunks, Mark::Failure(id))
                },
            },
    {
        match result {
            Ok(_) => {
                if copies_match(copy, source) {
                    self.relay.settle(id, true);
                    None
                } else {
                    self.relay.settle(id, false);
                    Some(ValidationEvent::Failure(id, ValidationError::Mismatch))
                }
            },
            Err(e) => {
                self.relay.settle(id, false);
                Some(ValidationEvent::Failure(id, ValidationError::Read(e)))
            },
        }
    }

    /// Closes the chunk once every sink has settled: its one `Progress` event.
    pub fn finish_chunk<E>(&mut self) -> (r: ValidationEvent<E>)
        requires
            old(self).wf(),
            old(self)@.phase == Phase::Settling,
            old(self)@.outstanding.len() == 0,
        ensures
            final(self).wf(),
            r == ValidationEvent::<E>::Progress(old(self)@.read),
            final(self)@ == (RelayView {
                phase: Phase::Ready,
                chunks: add_mark(old(self)@.chunks, Mark::Progress(old(self)@.read)),
                ..old(self)@
            }),
    {
        ValidationEvent::Progress(self.relay.finish())
    }
}

} // verus!
