//! The integration harness of a heap-allocation profiler: where the
//! profiler's builds and test programs live and how they are compiled and
//! launched (`paths`, `toolchain`, `launch`), what a served report holds
//! (`report`, `scenarios`), and models of the tracer's start/stop control
//! (`control`) and of the analysis engine's pairing of deallocations with
//! allocations (`matching`), with the laws they obey.

pub mod control;
pub mod launch;
pub mod matching;
pub mod paths;
pub mod report;
pub mod scenarios;
pub mod text;
pub mod toolchain;
