//! The pass engine shared by copy and validate: drain the removal queue, check
//! for live sinks, read a chunk from the source, let every live sink settle its
//! operation on that chunk, then close the chunk.
use crate::registry::MultiWriter;
use crate::seqs::remove_first;
use vstd::prelude::*;

verus! {

/// Where a copy or validate run stands.
#[derive(Clone, Copy, Debug, PartialEq, Eq, Structural)]
pub enum Phase {
    /// Between chunks: the next step starts a pass.
    Ready,
    /// The caller reads one chunk from the source and reports the outcome.
    Reading,
    /// The live sinks work on the chunk; each reports when it settles.
    Settling,
    /// The run is over.
    Done,
}

/// One event of a chunk, as the run's history records it.
pub enum Mark {
    /// The sink with this identifier failed on the chunk.
    Failure(usize),
    /// The chunk, of this many bytes, is closed.
    Progress(usize),
}

/// A chunk whose events are over: failures only, then its one `Progress`.
pub open spec fn closed_chunk(s: Seq<Mark>) -> bool {
    &&& s.len() >= 1
    &&& s.last() is Progress
    &&& forall|j: int| 0 <= j < s.len() - 1 ==> #[trigger] s[j] is Failure
}

/// The history with `m` added to the current (last) chunk.
pub open spec fn add_mark(chunks: Seq<Seq<Mark>>, m: Mark) -> Seq<Seq<Mark>> {
    chunks.update(chunks.len() - 1, chunks.last().push(m))
}

/// What a run is, seen from outside.
pub struct RelayView {
    /// The live sinks of the registry.
    pub sinks: Map<usize, u64>,
    /// Sinks that failed and are removed at the next pass boundary.
    pub pending: Seq<usize>,
    /// The registry's identifiers handed out so far (see `MultiWriter::slots`).
    pub slots: usize,
    /// Where the run stands.
    pub phase: Phase,
    /// The length of the current (or last) chunk.
    pub read: usize,
    /// Sinks whose operation on the current chunk has not settled yet.
    pub outstanding: Seq<usize>,
    /// The events of each chunk read so far, in order.
    pub chunks: Seq<Seq<Mark>>,
    /// The length of each successful source read so far, in order.
    pub reads: Seq<usize>,
}

/// Ascending and without gaps or repeats over the live identifiers: the order
/// in which the registry lists them.
pub open spec fn lists_ids(s: Seq<usize>, sinks: Map<usize, u64>) -> bool {
    &&& forall|i: int, j: int| 0 <= i < j < s.len() ==> s[i] < s[j]
    &&& forall|k: usize| s.contains(k) <==> sinks.dom().contains(k)
}

/// The registry after a pass boundary: every queued sink removed.
pub open spec fn drained(sinks: Map<usize, u64>, pending: Seq<usize>) -> Map<usize, u64> {
    sinks.remove_keys(pending.to_set())
}

/// The shape of a run's history. There is one chunk per successful read.
/// Every chunk but one still settling is closed, and its `Progress` carries its
/// read's length; the one settling holds failures only. A sink that failed has
/// nothing outstanding and fails at most once; it stays live and queued until
/// the next pass starts, and is gone from then on.
pub open spec fn chunks_ok(v: RelayView) -> bool {
    let c = v.chunks;
    &&& c.len() == v.reads.len()
    &&& v.phase == Phase::Settling ==> v.read == v.reads.last()
    &&& forall|k: int|
        0 <= k < c.len() && !(v.phase == Phase::Settling && k == c.len() - 1) ==> (#[trigger] c[k]).last()
            == Mark::Progress(v.reads[k])
    &&& v.phase == Phase::Settling ==> c.len() > 0 && forall|j: int|
        0 <= j < c.last().len() ==> #[trigger] c.last()[j] is Failure
    &&& forall|k: int|
        0 <= k < c.len() && !(v.phase == Phase::Settling && k == c.len() - 1) ==> closed_chunk(
            #[trigger] c[k],
        )
    &&& forall|k: int, j: int|
        0 <= k < c.len() && 0 <= j < c[k].len() && (#[trigger] c[k][j]) is Failure ==> {
            let id = c[k][j]->Failure_0;
            &&& !v.outstanding.contains(id)
            &&& (k < c.len() - 1 || v.phase == Phase::Reading || v.phase == Phase::Done)
                ==> !v.sinks.dom().contains(id)
            &&& (k == c.len() - 1 && (v.phase == Phase::Ready || v.phase == Phase::Settling))
                ==> v.sinks.dom().contains(id) && v.pending.contains(id)
        }
    &&& forall|k1: int, j1: int, k2: int, j2: int|
        0 <= k1 < c.len() && 0 <= j1 < c[k1].len() && 0 <= k2 < c.len() && 0 <= j2 < c[k2].len()
            && (#[trigger] c[k1][j1]) is Failure && #[trigger] c[k2][j2] == c[k1][j1] ==> k1 == k2
            && j1 == j2
}

/// There is one chunk per successful source read. Each closed chunk holds
/// exactly one `Progress`, as its last event, carrying that read's length, and
/// every event before it is a failure of that chunk; a chunk still settling
/// holds failures only.
pub proof fn lemma_chunk_events(v: RelayView)
    requires
        chunks_ok(v),
    ensures
        v.chunks.len() == v.reads.len(),
        forall|k: int|
            0 <= k < v.chunks.len() && !(v.phase == Phase::Settling && k == v.chunks.len() - 1)
                ==> #[trigger] v.chunks[k][v.chunks[k].len() - 1] == Mark::Progress(v.reads[k]),
        forall|k: int, j: int|
            0 <= k < v.chunks.len() && !(v.phase == Phase::Settling && k == v.chunks.len() - 1) && 0
                <= j < v.chunks[k].len() ==> (#[trigger] v.chunks[k][j] is Progress <==> j
                == v.chunks[k].len() - 1),
        forall|k: int|
            0 <= k < v.chunks.len() && !(v.phase == Phase::Settling && k == v.chunks.len() - 1)
                ==> #[trigger] v.chunks[k].len() >= 1,
        v.phase == Phase::Settling ==> forall|j: int|
            0 <= j < v.chunks.last().len() ==> #[trigger] v.chunks.last()[j] is Failure,
{
    assert forall|k: int, j: int|
        0 <= k < v.chunks.len() && !(v.phase == Phase::Settling && k == v.chunks.len() - 1) && 0 <= j
            < v.chunks[k].len() implies (#[trigger] v.chunks[k][j] is Progress <==> j == v.chunks[k].len()
        - 1) by {
        assert(closed_chunk(v.chunks[k]));
        if j < v.chunks[k].len() - 1 {
            assert(v.chunks[k][j] is Failure);
        }
    }
    assert forall|k: int|
        0 <= k < v.chunks.len() && !(v.phase == Phase::Settling && k == v.chunks.len() - 1) implies
        #[trigger] v.chunks[k].len() >= 1 by {
        assert(closed_chunk(v.chunks[k]));
    }
    assert forall|k: int|
        0 <= k < v.chunks.len() && !(v.phase == Phase::Settling && k == v.chunks.len() - 1) implies
        #[trigger] v.chunks[k][v.chunks[k].len() - 1] == Mark::Progress(v.reads[k]) by {
        assert(v.chunks[k].last() == Mark::Progress(v.reads[k]));
    }
}

/// A sink that failed in chunk `k` has nothing outstanding and fails in no
/// other event. Until the next pass starts it stays in the registry, queued,
/// so that the pass boundary removes it; once a later chunk has been read, or
/// the run is over, it is gone.
pub proof fn lemma_failed_sink_excluded(v: RelayView, k: int, j: int)
    requires
        chunks_ok(v),
        forall|x: usize| #[trigger] v.pending.contains(x) ==> v.sinks.dom().contains(x),
        0 <= k < v.chunks.len(),
        0 <= j < v.chunks[k].len(),
        v.chunks[k][j] is Failure,
    ensures
        !v.outstanding.contains(v.chunks[k][j]->Failure_0),
        v.sinks.dom().contains(v.chunks[k][j]->Failure_0) <==> v.pending.contains(
            v.chunks[k][j]->Failure_0,
        ),
        !drained(v.sinks, v.pending).dom().contains(v.chunks[k][j]->Failure_0),
        k < v.chunks.len() - 1 || v.phase == Phase::Reading || v.phase == Phase::Done
            ==> !v.sinks.dom().contains(v.chunks[k][j]->Failure_0),
        k == v.chunks.len() - 1 && (v.phase == Phase::Ready || v.phase == Phase::Settling)
            ==> v.sinks.dom().contains(v.chunks[k][j]->Failure_0) && v.pending.contains(
            v.chunks[k][j]->Failure_0,
        ),
        forall|k2: int, j2: int|
            0 <= k2 < v.chunks.len() && 0 <= j2 < v.chunks[k2].len() && (k2 != k || j2 != j) ==> #[trigger] v.chunks[k2][j2]
                != v.chunks[k][j],
{
    let id = v.chunks[k][j]->Failure_0;
    if v.pending.contains(id) {
        assert(v.pending.to_set().contains(id));
    }
}

/// The state of a copy or validate run: the registry it owns, where it stands,
/// the current chunk's length, the sinks yet to settle, and the history.
pub struct Relay {
    writers: MultiWriter,
    phase: Phase,
    read: usize,
    outstanding: Vec<usize>,
    chunks: Ghost<Seq<Seq<Mark>>>,
    reads: Ghost<Seq<usize>>,
}

impl View for Relay {
    type V = RelayView;

    closed spec fn view(&self) -> RelayView {
        RelayView {
            sinks: self.writers.sinks(),
            pending: self.writers.pending(),
            slots: self.writers.slots(),
            phase: self.phase,
            read: self.read,
            outstanding: self.outstanding@,
            chunks: self.chunks@,
            reads: self.reads@,
        }
    }
}

impl Relay {
    /// The registry is well formed; the sinks yet to settle are live, not
    /// queued and listed once; and the history has the shape `chunks_ok` gives.
    pub closed spec fn wf(&self) -> bool {
        &&& self.writers.wf()
        &&& self.outstanding@.no_duplicates()
        &&& self.phase != Phase::Settling ==> self.outstanding@.len() == 0
        &&& self.phase == Phase::Reading ==> self.writers.pending().len() == 0
        &&& chunks_ok(self@)
        &&& forall|k: usize| #[trigger]
            self.outstanding@.contains(k) ==> self.writers.sinks().dom().contains(k)
                && !self.writers.pending().contains(k)
    }

    pub(crate) proof fn lemma_history(&self)
        requires
            self.wf(),
        ensures
            chunks_ok(self@),
            forall|k: usize| #[trigger] self@.pending.contains(k) ==> self@.sinks.dom().contains(k),
    {
    }

    pub(crate) fn new(writers: MultiWriter) -> (r: Relay)
        requires
            writers.wf(),
        ensures
            r.wf(),
            r@ == (RelayView {
                sinks: writers.sinks(),
                pending: writers.pending(),
                slots: writers.slots(),
                phase: Phase::Ready,
                read: 0,
                outstanding: Seq::empty(),
                chunks: Seq::empty(),
                reads: Seq::empty(),
            }),
    {
        let r = Relay {
            writers,
            phase: Phase::Ready,
            read: 0,
            outstanding: Vec::new(),
            chunks: Ghost(Seq::empty()),
            reads: Ghost(Seq::empty()),
        };
        assert(r@.outstanding =~= Seq::empty());
        r
    }

    pub(crate) fn phase(&self) -> (r: Phase)
        ensures
            r == self@.phase,
    {
        self.phase
    }

    pub(crate) fn read(&self) -> (r: usize)
        ensures
            r == self@.read,
    {
        self.read
    }

    pub(crate) fn targets(&self) -> (r: Vec<usize>)
        ensures
            r@ == self@.outstanding,
    {
        self.outstanding.clone()
    }

    pub(crate) fn writers(&self) -> (r: &MultiWriter)
        requires
            self.wf(),
        ensures
            r.wf(),
            r.sinks() == self@.sinks,
            r.pending() == self@.pending,
            r.slots() == self@.slots,
    {
        &self.writers
    }

    pub(crate) fn into_writers(self) -> (r: MultiWriter)
        requires
            self.wf(),
        ensures
            r.wf(),
            r.sinks() == self@.sinks,
            r.pending() == self@.pending,
            r.slots() == self@.slots,
    {
        self.writers
    }

    /// Starts a pass: removes the queued sinks, then reports whether any is left.
    pub(crate) fn start_pass(&mut self) -> (live: bool)
        requires
            old(self).wf(),
            old(self)@.phase == Phase::Ready,
        ensures
            final(self).wf(),
            final(self)@.sinks == drained(old(self)@.sinks, old(self)@.pending),
            final(self)@.slots == old(self)@.slots,
            final(self)@.pending == Seq::<usize>::empty(),
            live == (final(self)@.sinks.dom().len() > 0),
            final(self)@.phase == (if live { Phase::Reading } else { Phase::Done }),
            final(self)@.read == old(self)@.read,
            final(self)@.outstanding == old(self)@.outstanding,
            final(self)@.chunks == old(self)@.chunks,
            final(self)@.reads == old(self)@.reads,
    {
        self.writers.drain_pending();
        proof {
            let c = self.chunks@;
            assert forall|k: int, j: int|
                0 <= k < c.len() && 0 <= j < c[k].len() && (#[trigger] c[k][j]) is Failure implies
                !self.writers.sinks().dom().contains(c[k][j]->Failure_0) by {
                let id = c[k][j]->Failure_0;
                if old(self).writers.pending().contains(id) {
                    assert(old(self).writers.pending().to_set().contains(id));
                }
            }
        }
        let live = !self.writers.is_empty();
        self.phase = if live { Phase::Reading } else { Phase::Done };
        live
    }

    /// Takes the outcome of the source read: `None` for a failure, else the
    /// number of bytes read. A chunk of one byte or more goes to every live sink.
    pub(crate) fn source_read(&mut self, got: Option<usize>)
        requires
            old(self).wf(),
            old(self)@.phase == Phase::Reading,
        ensures
            final(self).wf(),
            final(self)@.sinks == old(self)@.sinks,
            final(self)@.slots == old(self)@.slots,
            final(self)@.pending == old(self)@.pending,
            match got {
                Some(n) if n > 0 => {
                    &&& final(self)@.phase == Phase::Settling
                    &&& final(self)@.read == n
                    &&& lists_ids(final(self)@.outstanding, final(self)@.sinks)
                    &&& final(self)@.chunks == old(self)@.chunks.push(Seq::empty())
                    &&& final(self)@.reads == old(self)@.reads.push(n)
                },
                _ => {
                    &&& final(self)@.phase == Phase::Done
                    &&& final(self)@.read == old(self)@.read
                    &&& final(self)@.outstanding == old(self)@.outstanding
                    &&& final(self)@.chunks == old(self)@.chunks
                    &&& final(self)@.reads == old(self)@.reads
                },
            },
    {
        match got {
            Some(n) if n > 0 => {
                let ids = self.writers.ids();
                proof {
                    assert forall|a: int, b: int| 0 <= a < b < ids@.len() implies ids@[a]
                        != ids@[b] by {}
                    assert forall|k: usize| #[trigger] ids@.contains(k) implies
                        self.writers.sinks().dom().contains(k) && !self.writers.pending().contains(k) by {}
                }
                self.outstanding = ids;
                self.read = n;
                self.phase = Phase::Settling;
                self.chunks = Ghost(self.chunks@.push(Seq::empty()));
                self.reads = Ghost(self.reads@.push(n));
                proof {
                    let c = self.chunks@;
                    let oc = old(self).chunks@;
                    assert forall|k: int, j: int|
                        0 <= k < c.len() && 0 <= j < c[k].len() && (#[trigger] c[k][j]) is Failure implies
                        !self.outstanding@.contains(c[k][j]->Failure_0) by {
                        assert(k < oc.len());
                        assert(c[k][j] == oc[k][j]);
                        let id = c[k][j]->Failure_0;
                        assert(!old(self).writers.sinks().dom().contains(id));
                    }
                    assert forall|k: int| 0 <= k < c.len() && !(k == c.len() - 1) implies closed_chunk(
                        #[trigger] c[k]) && c[k].last() == Mark::Progress(self.reads@[k]) by {
                        assert(c[k] == oc[k]);
                        assert(self.reads@[k] == old(self).reads@[k]);
                    }
                    assert forall|k1: int, j1: int, k2: int, j2: int|
                        0 <= k1 < c.len() && 0 <= j1 < c[k1].len() && 0 <= k2 < c.len() && 0 <= j2
                            < c[k2].len() && (#[trigger] c[k1][j1]) is Failure && #[trigger] c[k2][j2]
                            == c[k1][j1] implies k1 == k2 && j1 == j2 by {
                        assert(c[k1] == oc[k1]);
                        assert(c[k2] == oc[k2]);
                    }
                }
            },
            _ => {
                self.phase = Phase::Done;
            },
        }
    }

    /// One sink has settled its operation on the current chunk; a failed one is
    /// queued for removal at the next pass boundary.
    pub(crate) fn settle(&mut self, id: usize, ok: bool)
        requires
            old(self).wf(),
            old(self)@.phase == Phase::Settling,
            old(self)@.outstanding.contains(id),
        ensures
            final(self).wf(),
            final(self)@.phase == Phase::Settling,
            final(self)@.read == old(self)@.read,
            final(self)@.sinks == old(self)@.sinks,
            final(self)@.slots == old(self)@.slots,
            final(self)@.outstanding == old(self)@.outstanding.remove_value(id),
            final(self)@.reads == old(self)@.reads,
            final(self)@.pending == (if ok {
                old(self)@.pending
            } else {
                old(self)@.pending.push(id)
            }),
            final(self)@.chunks == (if ok {
                old(self)@.chunks
            } else {
                add_mark(old(self)@.chunks, Mark::Failure(id))
            }),
    {
        remove_first(&mut self.outstanding, id);
        if !ok {
            self.writers.mark_failed(id);
            self.chunks = Ghost(add_mark(self.chunks@, Mark::Failure(id)));
        }
        proof {
            let c = self.chunks@;
            let oc = old(self).chunks@;
            let last = c.len() - 1;
            assert(c.len() == oc.len());
            assert forall|k: int| 0 <= k < c.len() && k != last implies c[k] == oc[k] by {}
            assert forall|j: int| 0 <= j < c.last().len() implies #[trigger] c.last()[j] is Failure by {
                if j < oc.last().len() {
                    assert(c.last()[j] == oc.last()[j]);
                }
            }
            assert forall|k: int, j: int|
                0 <= k < c.len() && 0 <= j < c[k].len() && (#[trigger] c[k][j]) is Failure implies {
                let fid = c[k][j]->Failure_0;
                &&& !self.outstanding@.contains(fid)
                &&& k < c.len() - 1 ==> !self.writers.sinks().dom().contains(fid)
                &&& k == c.len() - 1 ==> self.writers.sinks().dom().contains(fid)
                    && self.writers.pending().contains(fid)
            } by {
                let fid = c[k][j]->Failure_0;
                if k == last && j == oc[k].len() && !ok {
                    assert(fid == id);
                    assert(self.writers.pending()[self.writers.pending().len() - 1] == id);
                } else {
                    assert(c[k][j] == oc[k][j]);
                    if old(self).writers.pending().contains(fid) {
                        let i = choose|i: int|
                            0 <= i < old(self).writers.pending().len() && old(self).writers.pending()[i] == fid;
                        assert(self.writers.pending()[i] == fid);
                    }
                }
            }
            assert forall|k1: int, j1: int, k2: int, j2: int|
                0 <= k1 < c.len() && 0 <= j1 < c[k1].len() && 0 <= k2 < c.len() && 0 <= j2
                    < c[k2].len() && (#[trigger] c[k1][j1]) is Failure && #[trigger] c[k2][j2]
                    == c[k1][j1] implies k1 == k2 && j1 == j2 by {
                let new1 = !ok && k1 == last && j1 == oc[k1].len();
                let new2 = !ok && k2 == last && j2 == oc[k2].len();
                if new1 && !new2 {
                    assert(c[k2][j2] == oc[k2][j2]);
                    assert(!old(self)@.outstanding.contains(oc[k2][j2]->Failure_0));
                } else if new2 && !new1 {
                    assert(c[k1][j1] == oc[k1][j1]);
                    assert(!old(self)@.outstanding.contains(oc[k1][j1]->Failure_0));
                } else if !new1 && !new2 {
                    assert(c[k1][j1] == oc[k1][j1]);
                    assert(c[k2][j2] == oc[k2][j2]);
                }
            }
        }
        proof {
            assert forall|k: usize| #[trigger] self.outstanding@.contains(k) implies
                self.writers.sinks().dom().contains(k) && !self.writers.pending().contains(k) by {
                assert(old(self).outstanding@.contains(k));
                if !ok {
                    if self.writers.pending().contains(k) {
                        let j = choose|j: int|
                            0 <= j < self.writers.pending().len() && self.writers.pending()[j] == k;
                        if j < old(self).writers.pending().len() {
                            assert(old(self).writers.pending()[j] == k);
                        }
                    }
                }
            }
        }
    }

    /// Closes the current chunk once every sink has settled; returns its length.
    pub(crate) fn finish(&mut self) -> (r: usize)
        requires
            old(self).wf(),
            old(self)@.phase == Phase::Settling,
            old(self)@.outstanding.len() == 0,
        ensures
            final(self).wf(),
            r == old(self)@.read,
            final(self)@ == (RelayView {
                phase: Phase::Ready,
                chunks: add_mark(old(self)@.chunks, Mark::Progress(old(self)@.read)),
                ..old(self)@
            }),
    {
        self.phase = Phase::Ready;
        self.chunks = Ghost(add_mark(self.chunks@, Mark::Progress(self.read)));
        proof {
            let c = self.chunks@;
            let oc = old(self).chunks@;
            let last = c.len() - 1;
            assert forall|k: int| 0 <= k < c.len() && k != last implies c[k] == oc[k] by {}
            assert(c[last].last() == Mark::Progress(self.reads@[last]));
            assert(closed_chunk(c[last])) by {
                assert forall|j: int| 0 <= j < c[last].len() - 1 implies #[trigger] c[last][j]
                    is Failure by {
                    assert(c[last][j] == oc[last][j]);
                }
            }
            assert forall|k: int, j: int|
                0 <= k < c.len() && 0 <= j < c[k].len() && (#[trigger] c[k][j]) is Failure implies
                c[k][j] == oc[k][j] by {}
            assert forall|k1: int, j1: int, k2: int, j2: int|
                0 <= k1 < c.len() && 0 <= j1 < c[k1].len() && 0 <= k2 < c.len() && 0 <= j2
                    < c[k2].len() && (#[trigger] c[k1][j1]) is Failure && #[trigger] c[k2][j2]
                    == c[k1][j1] implies k1 == k2 && j1 == j2 by {
                assert(c[k1][j1] == oc[k1][j1]);
                assert(c[k2][j2] == oc[k2][j2]);
            }
        }
        self.read
    }
}

} // verus!
