//! Tests of the ring-buffer streamer: record decoding, the drop policy for
//! short records, the shared-map attach invariant, and the poll policy.

use edelweissd::bpf::ringbuf::{
    AttachError, FixedAttachPoint, PollDecision, RingBufferKprobePoint, RingBufferStreamer,
    RingBufferTracepoint, StreamerError, poll_decision, EINTR,
};
use edelweissd::bpf::streamer::VecNotifier;
use edelweissd::bpf::BpfProbeAttachType;
use edelweissd::collector::net::NetEvent;
use edelweissd::scanner::ProcEvent;

fn ok_point(fd: i32) -> FixedAttachPoint {
    FixedAttachPoint { outcome: Ok(fd) }
}

fn broken_point() -> FixedAttachPoint {
    FixedAttachPoint { outcome: Err(AttachError::ProgramObjectOpenFailed) }
}

fn le(x: u32) -> [u8; 4] {
    x.to_le_bytes()
}

fn proc_event_bytes(event_type: u32, pid: u32, uid: u32, ppid: u32) -> Vec<u8> {
    let mut b = Vec::new();
    b.extend_from_slice(&le(event_type));
    b.extend_from_slice(&le(pid));
    b.extend_from_slice(&le(uid));
    b.extend_from_slice(&le(ppid));
    b
}

#[test]
fn short_record_is_dropped_silently() {
    let mut streamer: RingBufferStreamer<ProcEvent, VecNotifier<ProcEvent>, FixedAttachPoint> =
        RingBufferStreamer::new(Vec::new(), VecNotifier::new());
    let short = proc_event_bytes(1, 100, 0, 1);
    let status = streamer.handle_event(&short[..15]);
    assert_eq!(status, 0, "a dropped record is still reported as accepted");
    assert!(streamer.consumer().events.is_empty(), "nothing was delivered");
    assert_eq!(streamer.handle_event(&[]), 0);
    assert!(streamer.consumer().events.is_empty());
}

#[test]
fn full_record_is_decoded_and_delivered() {
    let bytes = proc_event_bytes(1, 100, 0, 1);
    let mut streamer: RingBufferStreamer<ProcEvent, VecNotifier<ProcEvent>, FixedAttachPoint> =
        RingBufferStreamer::new(Vec::new(), VecNotifier::new());
    assert_eq!(streamer.handle_event(&bytes), 0);
    assert_eq!(
        streamer.consumer().events,
        vec![ProcEvent { event_type: 1, pid: 100, uid: 0, ppid: 1 }]
    );
    // Trailing bytes past the fixed record size are ignored.
    let mut long = proc_event_bytes(2, 7, 3, 9);
    long.extend_from_slice(&[0xaa; 8]);
    assert_eq!(streamer.handle_event(&long), 0);
    assert_eq!(streamer.consumer().events.len(), 2);
    assert_eq!(
        streamer.consumer().events[1],
        ProcEvent { event_type: 2, pid: 7, uid: 3, ppid: 9 }
    );
}

#[test]
fn attach_all_accepts_matching_descriptors() {
    let points = vec![ok_point(5), ok_point(5), ok_point(5)];
    let streamer: RingBufferStreamer<ProcEvent, VecNotifier<ProcEvent>, FixedAttachPoint> =
        RingBufferStreamer::new(points, VecNotifier::new());
    assert_eq!(streamer.attach_all(), Ok(5));
}

#[test]
fn attach_all_rejects_mismatched_descriptors() {
    let points = vec![ok_point(5), ok_point(6)];
    let streamer: RingBufferStreamer<ProcEvent, VecNotifier<ProcEvent>, FixedAttachPoint> =
        RingBufferStreamer::new(points, VecNotifier::new());
    assert_eq!(streamer.attach_all(), Err(StreamerError::MapFdMismatch));
}

#[test]
fn attach_all_rejects_empty_configuration() {
    let streamer: RingBufferStreamer<ProcEvent, VecNotifier<ProcEvent>, FixedAttachPoint> =
        RingBufferStreamer::new(Vec::new(), VecNotifier::new());
    assert_eq!(streamer.attach_all(), Err(StreamerError::NoAttachPoints));
}

#[test]
fn attach_all_reports_a_failing_point() {
    let points = vec![broken_point()];
    let streamer: RingBufferStreamer<ProcEvent, VecNotifier<ProcEvent>, FixedAttachPoint> =
        RingBufferStreamer::new(points, VecNotifier::new());
    assert_eq!(
        streamer.attach_all(),
        Err(StreamerError::Attach(AttachError::ProgramObjectOpenFailed))
    );
}

#[test]
fn poll_policy_retries_interrupted_calls_only() {
    assert_eq!(poll_decision(0), PollDecision::Continue);
    assert_eq!(poll_decision(17), PollDecision::Continue);
    assert_eq!(poll_decision(-EINTR), PollDecision::Continue);
    assert_eq!(poll_decision(-5), PollDecision::Fail);
    assert_eq!(poll_decision(i32::MIN), PollDecision::Fail);
}

#[test]
fn net_event_record_is_decoded_field_for_field() {
    let mut b = Vec::new();
    b.extend_from_slice(&le(1)); // event_type
    b.extend_from_slice(&le(100)); // pid
    b.extend_from_slice(&le(8080)); // port
    b.extend_from_slice(&le(443)); // remote_port
    b.extend_from_slice(&le(0x0100007f)); // ip4_addr
    for w in [1u32, 2, 3, 4] {
        b.extend_from_slice(&le(w)); // ip6_addr
    }
    b.extend_from_slice(&le(0x08080808)); // remote_ip4
    for w in [5u32, 6, 7, 8] {
        b.extend_from_slice(&le(w)); // remote_ip6
    }
    assert_eq!(b.len(), 56);
    let mut streamer: RingBufferStreamer<NetEvent, VecNotifier<NetEvent>, FixedAttachPoint> =
        RingBufferStreamer::new(Vec::new(), VecNotifier::new());
    assert_eq!(streamer.handle_event(&b), 0);
    assert_eq!(
        streamer.consumer().events,
        vec![NetEvent {
            event_type: 1,
            pid: 100,
            port: 8080,
            remote_port: 443,
            ip4_addr: 0x0100007f,
            ip6_addr: [1, 2, 3, 4],
            remote_ip4: 0x08080808,
            remote_ip6: [5, 6, 7, 8],
        }]
    );
}

#[test]
fn attach_request_constructors_keep_their_configuration() {
    let tp = RingBufferTracepoint::new("/sys/fs/bpf/prog", "/sys/fs/bpf/map", "sched",
        "sched_process_fork");
    assert_eq!(tp.bpf_tp_prog_path, "/sys/fs/bpf/prog");
    assert_eq!(tp.bpf_map_path, "/sys/fs/bpf/map");
    assert_eq!(tp.bpf_prog_category, "sched");
    assert_eq!(tp.bpf_prog_point, "sched_process_fork");

    let kp = RingBufferKprobePoint::new("/sys/fs/bpf/net_prog", BpfProbeAttachType::Entry,
        "inet_listen_ev", "inet_listen", 0, 16, "/sys/fs/bpf/net_map");
    assert_eq!(kp.kprobe_prog, "/sys/fs/bpf/net_prog");
    assert_eq!(kp.kprobe_attach_type, BpfProbeAttachType::Entry);
    assert_eq!(kp.kprobe_event, "inet_listen_ev");
    assert_eq!(kp.kprobe_func, "inet_listen");
    assert_eq!(kp.kprobe_offset, 0);
    assert_eq!(kp.kprobe_maxactive, 16);
    assert_eq!(kp.kprobe_map, "/sys/fs/bpf/net_map");
}
