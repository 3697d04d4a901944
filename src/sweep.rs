//! Flush and seek: one sweep over the live sinks that reports only failures.
//!
//! Unlike copy and validate, a sweep leaves the registry and its removal queue
//! alone: a sink that fails to flush or seek stays live, and a caller that wants
//! it gone removes it.
use crate::registry::MultiWriter;
use crate::relay::lists_ids;
use crate::seqs::remove_first;
use vstd::prelude::*;

verus! {

/// Where a seek moves each sink to.
#[derive(Clone, Copy, Debug, PartialEq, Eq, Structural)]
pub enum SeekTo {
    /// This many bytes from the start.
    Start(u64),
    /// This many bytes from the end (negative: before it).
    End(i64),
    /// This many bytes from the current position.
    Current(i64),
}

/// The operation a sweep applies to every sink.
#[derive(Clone, Copy, Debug, PartialEq, Eq, Structural)]
pub enum SweepOp {
    /// Push buffered bytes out.
    Flush,
    /// Move to a position.
    Seek(SeekTo),
}

/// What a sweep is, seen from outside.
pub struct SweepView {
    /// The operation applied to every sink.
    pub op: SweepOp,
    /// Sinks whose operation has not settled yet.
    pub outstanding: Seq<usize>,
}

/// A flush or seek in progress: the caller applies `op` to every sink of
/// `targets` and hands each outcome to `settled` as it comes.
pub struct Sweep {
    op: SweepOp,
    outstanding: Vec<usize>,
}

impl View for Sweep {
    type V = SweepView;

    closed spec fn view(&self) -> SweepView {
        SweepView { op: self.op, outstanding: self.outstanding@ }
    }
}

impl MultiWriter {
    /// Starts flushing every live sink.
    pub fn flush(&self) -> (r: Sweep)
        ensures
            r@.op == SweepOp::Flush,
            lists_ids(r@.outstanding, self.sinks()),
    {
        Sweep { op: SweepOp::Flush, outstanding: self.ids() }
    }

    /// Starts moving every live sink to `to`.
    pub fn seek(&self, to: SeekTo) -> (r: Sweep)
        ensures
            r@.op == SweepOp::Seek(to),
            lists_ids(r@.outstanding, self.sinks()),
    {
        Sweep { op: SweepOp::Seek(to), outstanding: self.ids() }
    }
}

impl Sweep {
    pub fn op(&self) -> (r: SweepOp)
        ensures
            r == self@.op,
    {
        self.op
    }

    /// The sinks that have not settled yet; at the start, every live sink in
    /// ascending order.
    pub fn targets(&self) -> (r: Vec<usize>)
        ensures
            r@ == self@.outstanding,
    {
        self.outstanding.clone()
    }

    /// Whether every sink has settled.
    pub fn is_done(&self) -> (r: bool)
        ensures
            r == (self@.outstanding.len() == 0),
    {
        self.outstanding.len() == 0
    }

    /// One sink has settled: a failure is reported with its identifier, a
    /// success reports nothing.
    pub fn settled<E>(&mut self, id: usize, result: Result<(), E>) -> (r: Option<(usize, E)>)
        requires
            old(self)@.outstanding.contains(id),
        ensures
            final(self)@.op == old(self)@.op,
            final(self)@.outstanding == old(self)@.outstanding.remove_value(id),
            match result {
                Ok(_) => r == None::<(usize, E)>,
                Err(e) => r == Some((id, e)),
            },
    {
        remove_first(&mut self.outstanding, id);
        match result {
            Ok(_) => None,
            Err(e) => Some((id, e)),
        }
    }
}

} // verus!
