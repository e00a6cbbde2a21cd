//! Kernel ring-buffer streaming: attach points, raw-record decoding, and
//! the drain policy.

pub mod ringbuf;
pub mod streamer;

use vstd::prelude::*;

verus! {

/// The kind of kernel call a probe-point attaches to: function entry or
/// function return.
#[derive(Clone, Copy, Debug, PartialEq, Eq, Structural)]
pub enum BpfProbeAttachType {
    Entry,
    Return,
}

} // verus!
