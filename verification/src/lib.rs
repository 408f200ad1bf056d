//! Measure blocks of code with hardware and software event counters, and print
//! what was counted as columns.
//!
//! A [`PerfEvent`] is a group of counters with the readings at both ends of what is
//! measured. A [`PerfEventBlock`] adds a scale, free-form [`BenchmarkParameters`] and a
//! [`PrintMode`]. A [`Sampler`] prints a row per slice of time while the counters go on.
//!
//! Nothing here touches a counter, a clock or the terminal. Starting and stopping counters
//! is a [`CounterRun`], sampling a sequence of [`SamplerStage`]s: both say what is to be
//! done next and are told how it went. Decimal fractions are handed out as [`Number`]s,
//! and come back as text.

pub mod block;
pub mod counter;
pub mod events;
pub mod params;
pub mod perf;
pub mod print;
pub mod runs;
pub mod text;
pub mod timesliced;

pub use block::{PerfEventBlock, Report};
pub use counter::{CounterDelta, CounterState, Measure, Number, Reading};
pub use events::{finalize_builder, Events};
pub use params::{BenchmarkParameterUpdates, BenchmarkParameters};
pub use perf::{Opening, PerfEvent};
pub use print::{ColumnWriter, PrintMode, TransposedWriter};
pub use runs::{Command, CounterRun, Reply, Stage};
pub use timesliced::{effective_period, Sampler, SamplerReply, SamplerStage};

pub use perfcnt::linux::PerfCounterBuilderLinux as Builder;
pub use perfcnt::linux::{CacheId, CacheOpId, CacheOpResultId};
pub use perfcnt::linux::{FileReadFormat, HardwareEventType, PerfCounter, SoftwareEventType};
pub use perfcnt::AbstractPerfCounter;
