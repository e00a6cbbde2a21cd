//! The ring-buffer streamer: attach one or more kernel hooks sharing one
//! map, then drain the map's ring buffer record by record.

use vstd::prelude::*;

verus! {

use core::marker::PhantomData;
use crate::bpf::BpfProbeAttachType;
use crate::bpf::streamer::{RawEvent, StreamerNotifier};

/// A fatal configuration failure while attaching one kernel hook.
#[derive(Clone, Copy, Debug, PartialEq, Eq, Structural)]
pub enum AttachError {
    /// The pinned program object could not be opened.
    ProgramObjectOpenFailed,
    /// The pinned map object could not be opened.
    MapObjectOpenFailed,
    /// The kernel rejected the attach request.
    AttachCallFailed,
}

/// A fatal configuration failure while starting a streamer.
#[derive(Clone, Copy, Debug, PartialEq, Eq, Structural)]
pub enum StreamerError {
    /// The streamer was constructed with no attach points at all.
    NoAttachPoints,
    /// One of the attach points failed to attach.
    Attach(AttachError),
    /// Two attach points resolved to different map descriptors.
    MapFdMismatch,
}

/// A kernel hook (e.g. tracepoint, kprobe) feeding one shared map.
/// Implemented by the host application over the kernel interface.
pub trait AttachPoint {
    /// The file descriptor of the shared map this point resolves to. Left
    /// unspecified unless the implementor says what it is.
    open spec fn resolved_fd_spec(&self) -> int {
        arbitrary()
    }

    /// Attach to the point and return the map file descriptor.
    fn attach(&self) -> (r: Result<i32, AttachError>)
        ensures
            (r matches Ok(fd) ==> fd as int == self.resolved_fd_spec()),
    ;
}

/// An attach point whose outcome is settled in advance: it hands out an
/// already-resolved map descriptor, or reports a fixed failure. A stand-in
/// where the descriptor was obtained elsewhere.
#[derive(Clone, Copy, Debug)]
pub struct FixedAttachPoint {
    pub outcome: Result<i32, AttachError>,
}

impl AttachPoint for FixedAttachPoint {
    open spec fn resolved_fd_spec(&self) -> int {
        match self.outcome {
            Ok(fd) => fd as int,
            Err(_) => 0,
        }
    }

    fn attach(&self) -> (r: Result<i32, AttachError>)
        ensures
            r == self.outcome,
    {
        self.outcome
    }
}

/// An attach request for a tracepoint: a pinned program object, the pinned
/// map it feeds, and the tracepoint's category and name.
#[derive(Debug)]
pub struct RingBufferTracepoint {
    pub bpf_tp_prog_path: String,
    pub bpf_map_path: String,
    pub bpf_prog_category: String,
    pub bpf_prog_point: String,
}

impl RingBufferTracepoint {
    pub fn new(bpf_tp_prog_path: &str, bpf_map_path: &str, bpf_prog_category: &str,
        bpf_prog_point: &str) -> (r: Self)
        ensures
            r.bpf_tp_prog_path@ == bpf_tp_prog_path@,
            r.bpf_map_path@ == bpf_map_path@,
            r.bpf_prog_category@ == bpf_prog_category@,
            r.bpf_prog_point@ == bpf_prog_point@,
    {
        RingBufferTracepoint {
            bpf_map_path: bpf_map_path.to_owned(),
            bpf_tp_prog_path: bpf_tp_prog_path.to_owned(),
            bpf_prog_category: bpf_prog_category.to_owned(),
            bpf_prog_point: bpf_prog_point.to_owned(),
        }
    }
}

/// An attach request for a probe-point: a pinned program object, the probe
/// kind, event and symbol names, a byte offset, and an activation limit,
/// plus the pinned map the probe feeds.
#[derive(Debug)]
pub struct RingBufferKprobePoint {
    pub kprobe_prog: String,
    pub kprobe_attach_type: BpfProbeAttachType,
    pub kprobe_event: String,
    pub kprobe_func: String,
    pub kprobe_offset: u64,
    pub kprobe_maxactive: i32,
    pub kprobe_map: String,
}

impl RingBufferKprobePoint {
    pub fn new(kprobe_prog: &str, kprobe_attach_type: BpfProbeAttachType, kprobe_event: &str,
        kprobe_func: &str, kprobe_offset: u64, kprobe_maxactive: i32, kprobe_map: &str) -> (r:
        Self)
        ensures
            r.kprobe_prog@ == kprobe_prog@,
            r.kprobe_attach_type == kprobe_attach_type,
            r.kprobe_event@ == kprobe_event@,
            r.kprobe_func@ == kprobe_func@,
            r.kprobe_offset == kprobe_offset,
            r.kprobe_maxactive == kprobe_maxactive,
            r.kprobe_map@ == kprobe_map@,
    {
        Self {
            kprobe_prog: kprobe_prog.to_owned(),
            kprobe_attach_type,
            kprobe_event: kprobe_event.to_owned(),
            kprobe_func: kprobe_func.to_owned(),
            kprobe_offset,
            kprobe_map: kprobe_map.to_owned(),
            kprobe_maxactive,
        }
    }
}

/// Errno of an interrupted system call: a poll returning its negation is
/// retried transparently.
pub const EINTR: i32 = 4;

/// What the drain loop does with one return value of the ring-buffer poll.
#[derive(Clone, Copy, Debug, PartialEq, Eq, Structural)]
pub enum PollDecision {
    /// Keep polling: records were handled, or an interrupted call is
    /// retried transparently.
    Continue,
    /// Any other failure of the poll is fatal: the agent treats a broken
    /// ring buffer as unrecoverable.
    Fail,
}

/// The poll-loop error policy, one poll return value at a time.
pub fn poll_decision(ret: i32) -> (r: PollDecision)
    ensures
        (r == if ret >= 0 || ret == -EINTR {
            PollDecision::Continue
        } else {
            PollDecision::Fail
        }),
{
    if ret >= 0 {
        PollDecision::Continue
    } else if ret == -EINTR {
        PollDecision::Continue
    } else {
        PollDecision::Fail
    }
}

/// Basic streamer for a kernel ring buffer. Attaches to all points and
/// streams records from a single map; all points must resolve to the same
/// map descriptor.
pub struct RingBufferStreamer<K: RawEvent, T: StreamerNotifier<K>, P: AttachPoint> {
    points: Vec<P>,
    consumer: T,
    events: PhantomData<K>,
}

impl<K: RawEvent, T: StreamerNotifier<K>, P: AttachPoint> RingBufferStreamer<K, T, P> {
    /// The attach points, in registration order.
    pub closed spec fn points_spec(&self) -> Seq<P> {
        self.points@
    }

    /// The consumer that decoded events are delivered to.
    pub closed spec fn consumer_spec(&self) -> T {
        self.consumer
    }

    pub fn new(points: Vec<P>, consumer: T) -> (r: Self)
        ensures
            r.points_spec() == points@,
            r.consumer_spec() == consumer,
    {
        RingBufferStreamer { points, consumer, events: PhantomData }
    }

    /// A look at the consumer, e.g. to inspect what was delivered.
    pub fn consumer(&self) -> (r: &T)
        ensures
            r == self.consumer_spec(),
    {
        &self.consumer
    }

    /// Attach every point in registration order and check that they all
    /// resolved to the same map descriptor; that descriptor is the one the
    /// ring buffer is read from. A mismatch is a fatal configuration error.
    pub fn attach_all(&self) -> (r: Result<i32, StreamerError>)
        ensures
            self.points_spec().len() == 0 ==> (r matches Err(StreamerError::NoAttachPoints)),
            (match r {
                Ok(fd) => self.points_spec().len() > 0 && (forall|i: int|
                    0 <= i < self.points_spec().len()
                        ==> (#[trigger] self.points_spec()[i]).resolved_fd_spec() == fd as int),
                Err(StreamerError::NoAttachPoints) => self.points_spec().len() == 0,
                Err(StreamerError::MapFdMismatch) => exists|i: int, j: int|
                    0 <= i < self.points_spec().len() && 0 <= j < self.points_spec().len()
                        && (#[trigger] self.points_spec()[i]).resolved_fd_spec()
                        != (#[trigger] self.points_spec()[j]).resolved_fd_spec(),
                Err(StreamerError::Attach(e)) => true,
            }),
    {
        if self.points.len() == 0 {
            return Err(StreamerError::NoAttachPoints);
        }
        let mut map_fd: i32 = 0;
        let mut i: usize = 0;
        while i < self.points.len()
            invariant
                i <= self.points.len(),
                i > 0 ==> forall|j: int|
                    0 <= j < i ==> (#[trigger] self.points@[j]).resolved_fd_spec()
                        == map_fd as int,
            decreases self.points.len() - i,
        {
            let fd = match self.points[i].attach() {
                Ok(fd) => fd,
                Err(e) => {
                    return Err(StreamerError::Attach(e));
                },
            };
            if i > 0 && fd != map_fd {
                proof {
                    assert(self.points_spec()[0].resolved_fd_spec() == map_fd as int);
                    assert(self.points_spec()[i as int].resolved_fd_spec() == fd as int);
                    assert(self.points_spec()[0].resolved_fd_spec() != self.points_spec()[
                        i as int
                    ].resolved_fd_spec());
                }
                return Err(StreamerError::MapFdMismatch);
            }
            map_fd = fd;
            i += 1;
        }
        Ok(map_fd)
    }

    /// Handle one delivered record. A record shorter than the target type's
    /// fixed size is dropped silently: no consumer notification, and the
    /// buffer is still reported as accepted (status 0) to the kernel.
    /// Otherwise the record bytes are copied into an owned event and
    /// delivered to the consumer.
    pub fn handle_event(&mut self, data: &[u8]) -> (r: i32)
        ensures
            r == 0,
            (if data@.len() < K::record_size_spec() {
                *final(self) == *old(self)
            } else {
                final(self).points_spec() == old(self).points_spec() && exists|ev: K|
                    (#[trigger] ev.matches_record(data@))
                        && final(self).consumer_spec().delivered()
                        == old(self).consumer_spec().delivered().push(ev)
            }),
    {
        let size = K::record_size();
        if data.len() < size {
            return 0;
        }
        let event = K::decode_record(data);
        self.consumer.notify(event);
        0
    }
}

} // verus!
