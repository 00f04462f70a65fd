//! The engine's error taxonomy.

use vstd::prelude::*;

verus! {

/// Why a render call failed.
///
/// `ConfigError` reports invalid geometry, detected before any work is
/// scheduled. `WorkerFailure` reports a worker of the parallel driver
/// that died while computing a row. `ChannelClosedUnexpectedly` reports
/// a task or result channel that disconnected before every row was
/// processed; reassembly also reports it when the collected rows do not
/// cover the image exactly once.
#[derive(Clone, Copy, Debug, PartialEq, Eq, Structural)]
pub enum RenderError {
    ConfigError,
    WorkerFailure,
    ChannelClosedUnexpectedly,
}

} // verus!
