//! Single-reader, multi-writer replication.
//!
//! A [`MultiWriter`] holds a set of sinks under stable, reusable identifiers.
//! The copy, validate, flush and seek operations are state machines: the caller
//! performs the reads and writes they ask for and feeds the outcomes back, and
//! each step returns the event to report, if any.
mod copy;
mod registry;
mod relay;
mod seqs;
mod slots;
mod sweep;
mod validate;

pub use copy::{CopyEvent, CopyRun};
pub use registry::MultiWriter;
pub use relay::{
    add_mark, chunks_ok, closed_chunk, drained, lemma_chunk_events, lemma_failed_sink_excluded,
    lists_ids, Mark, Phase, RelayView,
};
pub use slots::{slab_entries, slab_slots};
pub use sweep::{SeekTo, Sweep, SweepOp, SweepView};
pub use validate::{
    copies_match, joined, lemma_round_trip, offset, prepare_buffers, sized, total_len, ValidateRun,
    ValidationError, ValidationEvent,
};
