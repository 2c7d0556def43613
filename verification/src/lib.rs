//! Device-node management for kernel hotplug events: the rule engine that
//! decides what happens to a device node, the plan that carries the decision
//! out, the framing of kernel datagrams, and the state machines that drive
//! the event source and the rebroadcaster.

pub mod engine;
pub mod event;
pub mod executor;
pub mod framing;
pub mod pattern;
pub mod rebroadcast;
pub mod rule;
pub mod scan;
pub mod stream;
pub mod text;

pub use rebroadcast::{RebroadcastMessage, Rebroadcaster};

use vstd::prelude::*;

verus! {

/// The log filter for a verbosity, where the environment names none: `info`
/// without a verbose flag, `warn` with one, `debug` with more.
pub open spec fn log_filter_of(verbose: u8) -> Seq<char> {
    if verbose < 1 {
        "info"@
    } else if verbose < 2 {
        "warn"@
    } else {
        "debug"@
    }
}

/// Computes `log_filter_of`.
pub fn log_filter(verbose: u8) -> (directive: &'static str)
    ensures
        directive@ == log_filter_of(verbose),
{
    if verbose < 1 {
        "info"
    } else if verbose < 2 {
        "warn"
    } else {
        "debug"
    }
}

} // verus!
