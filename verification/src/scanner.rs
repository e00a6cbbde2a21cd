//! Scanner: turns raw fork/exit kernel events into normalized
//! process-lifecycle notifications, with a filtering policy injected by the
//! caller.

pub mod filter;

use vstd::prelude::*;

verus! {

use vstd::bytes::*;
use vstd::slice::*;
use crate::bpf::streamer::RawEvent;

/// The fork event record emitted by the process-monitor kernel hook,
/// field for field in the producer's layout.
#[derive(Clone, Copy, Debug, PartialEq, Eq, Structural)]
pub struct ProcEvent {
    pub event_type: u32,
    pub pid: u32,
    pub uid: u32,
    pub ppid: u32,
}

impl RawEvent for ProcEvent {
    open spec fn record_size_spec() -> int {
        16
    }

    open spec fn matches_record(&self, data: Seq<u8>) -> bool {
        &&& self.event_type == spec_u32_from_le_bytes(data.subrange(0, 4))
        &&& self.pid == spec_u32_from_le_bytes(data.subrange(4, 8))
        &&& self.uid == spec_u32_from_le_bytes(data.subrange(8, 12))
        &&& self.ppid == spec_u32_from_le_bytes(data.subrange(12, 16))
    }

    fn record_size() -> (r: usize) {
        16
    }

    fn decode_record(data: &[u8]) -> (r: Self) {
        let event_type = u32_from_le_bytes(slice_subrange(data, 0, 4));
        let pid = u32_from_le_bytes(slice_subrange(data, 4, 8));
        let uid = u32_from_le_bytes(slice_subrange(data, 8, 12));
        let ppid = u32_from_le_bytes(slice_subrange(data, 12, 16));
        ProcEvent { event_type, pid, uid, ppid }
    }

    proof fn lemma_record_determined(a: Self, b: Self, data: Seq<u8>) {
    }
}

/// Event-type tag: a process was created.
pub const EVENT_TYPE_NEW: u32 = 1;

/// Event-type tag: a process exited.
pub const EVENT_TYPE_EXIT: u32 = 2;

/// Process filter. Used by the scanner to filter out processes which are
/// not for inspection, like system processes. Implemented by the host
/// application; the policy itself is the implementor's spec.
pub trait ProcFilter {
    /// The filtering policy, as a pure predicate. Left unspecified unless
    /// the implementor says what it is.
    open spec fn filter_spec(&self, event: ProcEvent) -> bool {
        arbitrary()
    }

    /// Returns true if the event should pass and false otherwise.
    fn filter(&self, event: ProcEvent) -> (r: bool)
        ensures
            r == self.filter_spec(event),
    ;
}

/// Normalized process identity.
#[derive(Clone, Copy, Debug, PartialEq, Eq, Structural)]
pub struct Process {
    pub pid: u32,
    pub parent_pid: u32,
}

impl Process {
    pub fn new(pid: u32, parent_pid: u32) -> (r: Self)
        ensures
            r == (Process { pid, parent_pid }),
    {
        Self { pid, parent_pid }
    }
}

/// A process-lifecycle transition.
#[derive(Clone, Copy, Debug, PartialEq, Eq, Structural)]
pub enum ProcessEvent {
    ProcessCreated(Process),
    ProcessExited(usize),
}

/// Consumes raw process events and emits lifecycle notifications for the
/// events its filter accepts. One raw event is handled per step; the host
/// application drives the loop and forwards what comes out.
pub struct ProcScanner<T: ProcFilter> {
    filter: T,
}

impl<T: ProcFilter> ProcScanner<T> {
    /// The injected filtering policy.
    pub closed spec fn spec_filter(&self) -> T {
        self.filter
    }

    pub fn new(filter: T) -> (r: Self)
        ensures
            r.spec_filter() == filter,
    {
        Self { filter }
    }

    /// A process was created: notify only if the filter accepts the event.
    fn handle_proc_new(&self, event: ProcEvent) -> (r: Option<ProcessEvent>)
        ensures
            (r == if self.spec_filter().filter_spec(event) {
                Some(
                    ProcessEvent::ProcessCreated(
                        Process { pid: event.pid, parent_pid: event.ppid },
                    ),
                )
            } else {
                None
            }),
    {
        let proc = Process::new(event.pid, event.ppid);
        if self.filter.filter(event) {
            Some(ProcessEvent::ProcessCreated(proc))
        } else {
            None
        }
    }

    /// A process died: notify only if the filter accepts the event.
    fn handle_proc_dead(&self, event: ProcEvent) -> (r: Option<ProcessEvent>)
        ensures
            (r == if self.spec_filter().filter_spec(event) {
                Some(ProcessEvent::ProcessExited(event.pid as usize))
            } else {
                None
            }),
    {
        let pid = event.pid;
        if self.filter.filter(event) {
            Some(ProcessEvent::ProcessExited(pid as usize))
        } else {
            None
        }
    }

    /// Handle one raw event: branch on the event-type tag, normalize, and
    /// apply the filter. Unknown tags are dropped without notification.
    pub fn scan(&self, event: ProcEvent) -> (r: Option<ProcessEvent>)
        ensures
            (r == if event.event_type == EVENT_TYPE_NEW && self.spec_filter().filter_spec(
                event,
            ) {
                Some(
                    ProcessEvent::ProcessCreated(
                        Process { pid: event.pid, parent_pid: event.ppid },
                    ),
                )
            } else if event.event_type == EVENT_TYPE_EXIT && self.spec_filter().filter_spec(
                event,
            ) {
                Some(ProcessEvent::ProcessExited(event.pid as usize))
            } else {
                None
            }),
    {
        if event.event_type == EVENT_TYPE_NEW {
            self.handle_proc_new(event)
        } else if event.event_type == EVENT_TYPE_EXIT {
            self.handle_proc_dead(event)
        } else {
            None
        }
    }
}

} // verus!
