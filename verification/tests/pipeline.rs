//! End-to-end tests of the actor pipeline: scanner, controller, receptor
//! holders, and the network collector.

use std::cell::RefCell;
use std::rc::Rc;

use edelweissd::collector::net::{
    NetEvent, NetListenPort, NetPhenotypeCollector, PortType, NET_LISTEN_PORTS_KEY,
};
use edelweissd::collector::{CollectorMessage, PhenotypeUpdate};
use edelweissd::controller::{message_for_process_event, Controller, ControllerMessage};
use edelweissd::phenotype::Phenotype;
use edelweissd::receptor::{Confidence, FixedConfidenceReceptor, Receptor, ReceptorHolder, ReceptorMessage};
use edelweissd::scanner::{ProcEvent, ProcFilter, ProcScanner, Process, ProcessEvent};
use edelweissd::scanner::filter::default::DefaultFilter;
use edelweissd::utils::boxable::{Boxable, Unboxable};

/// What a test detector observed.
#[derive(Default)]
struct DetectorLog {
    recognized_pids: Vec<usize>,
    dead_pids: Vec<usize>,
}

/// A detector with a fixed confidence that logs every call.
struct FixedDetector {
    confidence: u32,
    log: Rc<RefCell<DetectorLog>>,
}

impl Receptor for FixedDetector {
    fn recognize(&mut self, phenotype: &Phenotype) -> Confidence {
        self.log.borrow_mut().recognized_pids.push(phenotype.pid);
        Confidence { permille: self.confidence }
    }

    fn on_process_dead(&mut self, pid: usize) {
        self.log.borrow_mut().dead_pids.push(pid);
    }
}

fn holder_with(
    confidence: u32,
    keys: Vec<u64>,
    min_permille: u32,
) -> (ReceptorHolder<FixedDetector>, Rc<RefCell<DetectorLog>>) {
    let log = Rc::new(RefCell::new(DetectorLog::default()));
    let detector = FixedDetector { confidence, log: Rc::clone(&log) };
    (ReceptorHolder::new(detector, keys, Confidence { permille: min_permille }), log)
}

fn net_listen_event(pid: u32, port: u32) -> NetEvent {
    NetEvent {
        event_type: 1,
        pid,
        port,
        remote_port: 0,
        ip4_addr: 0,
        ip6_addr: [0; 4],
        remote_ip4: 0,
        remote_ip6: [0; 4],
    }
}

#[test]
fn scanner_emits_created_for_fork_event() {
    let scanner = ProcScanner::new(DefaultFilter::new());
    let out = scanner.scan(ProcEvent { event_type: 1, pid: 100, uid: 0, ppid: 1 });
    assert_eq!(out, Some(ProcessEvent::ProcessCreated(Process { pid: 100, parent_pid: 1 })));
}

#[test]
fn scanner_emits_exited_for_exit_event() {
    let scanner = ProcScanner::new(DefaultFilter::new());
    let out = scanner.scan(ProcEvent { event_type: 2, pid: 41, uid: 0, ppid: 1 });
    assert_eq!(out, Some(ProcessEvent::ProcessExited(41)));
}

#[test]
fn scanner_drops_unknown_event_types() {
    let scanner = ProcScanner::new(DefaultFilter::new());
    let out = scanner.scan(ProcEvent { event_type: 7, pid: 100, uid: 0, ppid: 1 });
    assert_eq!(out, None);
}

#[test]
fn controller_fans_one_message_per_updated_key_to_every_holder() {
    let mut controller = Controller::new();
    assert!(controller.handle_message(ControllerMessage::NewProc(Process::new(100, 1))).is_empty());

    let update = PhenotypeUpdate { key: 7, new_data: vec![1, 2, 3] };
    let broadcast =
        controller.handle_message(ControllerMessage::PhenodataUpdate(100, vec![update]));
    assert_eq!(broadcast.len(), 1, "one update touching one key: one broadcast message");

    // The host application sends every broadcast message to every holder.
    let mut holders = Vec::new();
    let mut logs = Vec::new();
    for _ in 0..3 {
        let (holder, log) = holder_with(0, Vec::new(), 1000);
        holders.push(holder);
        logs.push(log);
    }
    for msg in &broadcast {
        let ReceptorMessage::PhenotypeUpdate(key, snapshot) = msg else {
            panic!("expected a phenotype update");
        };
        assert_eq!(*key, 7, "the message is tagged with the updated key");
        assert_eq!(snapshot.pid, 100);
        assert_eq!(
            snapshot.get_data(7),
            Some(&vec![1u8, 2, 3]),
            "the snapshot carries the post-update row"
        );
        for holder in &mut holders {
            let again = ReceptorMessage::PhenotypeUpdate(*key, snapshot.clone());
            assert_eq!(holder.handle_message(again), None, "confidence 0 raises no verdict");
        }
    }
    for log in &logs {
        assert_eq!(
            log.borrow().recognized_pids,
            vec![100],
            "every holder saw exactly one message for the key"
        );
    }
}

#[test]
fn controller_applies_updates_in_order_and_snapshots_the_final_row() {
    let mut controller = Controller::new();
    controller.handle_message(ControllerMessage::NewProc(Process::new(5, 1)));
    let updates = vec![
        PhenotypeUpdate { key: 1, new_data: vec![0xa] },
        PhenotypeUpdate { key: 2, new_data: vec![0xb] },
        PhenotypeUpdate { key: 1, new_data: vec![0xc] },
    ];
    let broadcast = controller.handle_message(ControllerMessage::PhenodataUpdate(5, updates));
    assert_eq!(broadcast.len(), 3, "one message per update, in update order");
    let expected_keys = [1u64, 2, 1];
    for (msg, expected_key) in broadcast.iter().zip(expected_keys) {
        let ReceptorMessage::PhenotypeUpdate(key, snapshot) = msg else {
            panic!("expected a phenotype update");
        };
        assert_eq!(*key, expected_key);
        // Every snapshot shows the row after the whole batch.
        assert_eq!(snapshot.get_data(1), Some(&vec![0xcu8]), "the later update won");
        assert_eq!(snapshot.get_data(2), Some(&vec![0xbu8]));
        assert_eq!(snapshot.get_data(3), None);
    }
}

#[test]
fn update_for_unknown_pid_is_dropped() {
    let mut controller = Controller::new();
    let update = PhenotypeUpdate { key: 7, new_data: vec![1] };
    let broadcast =
        controller.handle_message(ControllerMessage::PhenodataUpdate(999, vec![update]));
    assert!(broadcast.is_empty(), "no row, no fan-out");
}

#[test]
fn update_after_death_is_a_no_op() {
    let mut controller = Controller::new();
    controller.handle_message(ControllerMessage::NewProc(Process::new(100, 1)));
    let first = controller.handle_message(ControllerMessage::PhenodataUpdate(
        100,
        vec![PhenotypeUpdate { key: 7, new_data: vec![1] }],
    ));
    assert_eq!(first.len(), 1);

    let broadcast = controller.handle_message(ControllerMessage::ProcDead(100));
    assert_eq!(broadcast.len(), 1);
    assert!(matches!(broadcast[0], ReceptorMessage::ProcDead(100)));

    // The row is gone: a late update for the dead pid is dropped whole.
    let late = controller.handle_message(ControllerMessage::PhenodataUpdate(
        100,
        vec![PhenotypeUpdate { key: 8, new_data: vec![2] }],
    ));
    assert!(late.is_empty(), "update after death is a no-op");

    // A new process under the same pid starts from a fresh row.
    controller.handle_message(ControllerMessage::NewProc(Process::new(100, 1)));
    let fresh = controller.handle_message(ControllerMessage::PhenodataUpdate(
        100,
        vec![PhenotypeUpdate { key: 9, new_data: vec![3] }],
    ));
    assert_eq!(fresh.len(), 1);
    let ReceptorMessage::PhenotypeUpdate(_, snapshot) = &fresh[0] else {
        panic!("expected a phenotype update");
    };
    assert_eq!(snapshot.get_data(7), None, "the old row did not survive the death");
    assert_eq!(snapshot.get_data(9), Some(&vec![3u8]));
}

#[test]
fn new_process_is_idempotent_and_keeps_data() {
    let mut controller = Controller::new();
    controller.handle_message(ControllerMessage::NewProc(Process::new(100, 1)));
    controller.handle_message(ControllerMessage::PhenodataUpdate(
        100,
        vec![PhenotypeUpdate { key: 7, new_data: vec![1] }],
    ));
    // A duplicate creation notification must not reset the row.
    controller.handle_message(ControllerMessage::NewProc(Process::new(100, 1)));
    let broadcast = controller.handle_message(ControllerMessage::PhenodataUpdate(
        100,
        vec![PhenotypeUpdate { key: 8, new_data: vec![2] }],
    ));
    let ReceptorMessage::PhenotypeUpdate(_, snapshot) = &broadcast[0] else {
        panic!("expected a phenotype update");
    };
    assert_eq!(snapshot.get_data(7), Some(&vec![1u8]), "existing data survived");
}

#[test]
fn verdict_needs_confidence_strictly_above_the_minimum() {
    let snapshot = Phenotype::new(100, String::new());

    let (mut meek, _) = holder_with(500, Vec::new(), 800);
    let out = meek.handle_message(ReceptorMessage::PhenotypeUpdate(7, snapshot.clone()));
    assert_eq!(out, None, "confidence 0.5 does not clear 0.8");

    let (mut equal, _) = holder_with(800, Vec::new(), 800);
    let out = equal.handle_message(ReceptorMessage::PhenotypeUpdate(7, snapshot.clone()));
    assert_eq!(out, None, "the threshold must be strictly exceeded");

    let (mut sure, _) = holder_with(950, Vec::new(), 800);
    let out = sure.handle_message(ReceptorMessage::PhenotypeUpdate(7, snapshot.clone()));
    assert_eq!(
        out,
        Some(ControllerMessage::UnsafeProcDetected(100, Confidence { permille: 950 }))
    );
}

#[test]
fn holder_filters_by_subscribed_keys() {
    let snapshot = Phenotype::new(100, String::new());

    let (mut holder, log) = holder_with(950, vec![42], 800);
    let out = holder.handle_message(ReceptorMessage::PhenotypeUpdate(7, snapshot.clone()));
    assert_eq!(out, None, "key 7 is not subscribed");
    assert!(log.borrow().recognized_pids.is_empty(), "the detector was not consulted");

    let out = holder.handle_message(ReceptorMessage::PhenotypeUpdate(42, snapshot.clone()));
    assert!(out.is_some(), "key 42 is subscribed");
    assert_eq!(log.borrow().recognized_pids, vec![100]);

    // An empty subscription set means every key.
    let (mut all_keys, all_log) = holder_with(950, Vec::new(), 800);
    all_keys.handle_message(ReceptorMessage::PhenotypeUpdate(7, snapshot.clone()));
    assert_eq!(all_log.borrow().recognized_pids, vec![100]);
}

#[test]
fn death_reaches_every_detector_exactly_once() {
    let mut controller = Controller::new();
    controller.handle_message(ControllerMessage::NewProc(Process::new(100, 1)));
    let broadcast = controller.handle_message(ControllerMessage::ProcDead(100));
    assert_eq!(broadcast.len(), 1);

    let mut holders = Vec::new();
    let mut logs = Vec::new();
    for _ in 0..4 {
        // Key filtering must not apply to cleanup: subscribe to key 42 only.
        let (holder, log) = holder_with(950, vec![42], 800);
        holders.push(holder);
        logs.push(log);
    }
    for msg in &broadcast {
        let ReceptorMessage::ProcDead(pid) = msg else {
            panic!("expected a death notification");
        };
        for holder in &mut holders {
            assert_eq!(holder.handle_message(ReceptorMessage::ProcDead(*pid)), None);
        }
    }
    for log in &logs {
        assert_eq!(log.borrow().dead_pids, vec![100], "cleanup ran exactly once");
    }
}

#[test]
fn net_collector_emits_a_listen_descriptor_update() {
    let collector = NetPhenotypeCollector::new();
    let update = collector
        .handle_event(net_listen_event(100, 8080))
        .expect("a listen event yields an update");
    assert_eq!(update.key, NET_LISTEN_PORTS_KEY);
    let descriptor = NetListenPort::from_boxed(&update.new_data).expect("the data decodes");
    assert_eq!(descriptor, NetListenPort { port_type: PortType::TCP, port: 8080 });
}

#[test]
fn net_collector_drops_unknown_event_types() {
    let collector = NetPhenotypeCollector::new();
    let mut event = net_listen_event(100, 8080);
    event.event_type = 9;
    assert!(collector.handle_event(event).is_none());
}

#[test]
fn listen_event_flows_to_a_subscribed_receptor() {
    // Kernel record -> collector update -> controller fan-out -> receptor.
    let collector = NetPhenotypeCollector::new();
    let update = collector.handle_event(net_listen_event(100, 8080)).unwrap();

    let mut controller = Controller::new();
    controller.handle_message(ControllerMessage::NewProc(Process::new(100, 1)));
    let broadcast =
        controller.handle_message(ControllerMessage::PhenodataUpdate(100, vec![update]));
    assert_eq!(broadcast.len(), 1);

    let (mut holder, log) = holder_with(950, vec![NET_LISTEN_PORTS_KEY], 800);
    let ReceptorMessage::PhenotypeUpdate(key, snapshot) = &broadcast[0] else {
        panic!("expected a phenotype update");
    };
    assert_eq!(*key, NET_LISTEN_PORTS_KEY);
    let data = snapshot.get_data(NET_LISTEN_PORTS_KEY).expect("the snapshot has the net data");
    let descriptor = NetListenPort::from_boxed(data).unwrap();
    assert_eq!(descriptor.port, 8080);

    let verdict =
        holder.handle_message(ReceptorMessage::PhenotypeUpdate(*key, snapshot.clone()));
    assert_eq!(
        verdict,
        Some(ControllerMessage::UnsafeProcDetected(100, Confidence { permille: 950 }))
    );
    assert_eq!(log.borrow().recognized_pids, vec![100]);
}

#[test]
fn listen_descriptor_codec_round_trip() {
    let tcp = NetListenPort { port_type: PortType::TCP, port: 8080 };
    let udp = NetListenPort { port_type: PortType::UDP, port: 53 };
    for descriptor in [tcp, udp] {
        let enc = descriptor.boxed();
        assert_eq!(descriptor.size_in_boxed_bytes(), enc.len());
        assert_eq!(NetListenPort::from_boxed(&enc), Some(descriptor));
        for cut in 0..enc.len() {
            let prefix = enc[..cut].to_vec();
            assert_eq!(NetListenPort::from_boxed(&prefix), None);
        }
    }
    assert_eq!(tcp.boxed(), vec![0, 0x90, 0x1f, 0, 0]);
}

#[test]
fn listen_descriptor_with_unknown_protocol_tag_is_rejected() {
    let bad = vec![9u8, 0x90, 0x1f, 0, 0];
    assert_eq!(NetListenPort::from_boxed(&bad), None);
}

#[test]
fn phenotype_codec_round_trip_is_byte_identical() {
    let mut ph = Phenotype::new(4711, String::from("com.example.app"));
    ph.on_update(PhenotypeUpdate { key: 1, new_data: vec![1, 2, 3] });
    ph.on_update(PhenotypeUpdate { key: 9, new_data: vec![] });
    ph.on_update(PhenotypeUpdate { key: 1, new_data: vec![4] });
    let enc = ph.boxed();
    assert_eq!(ph.size_in_boxed_bytes(), enc.len());
    let dec = Phenotype::from_boxed(&enc).expect("a valid encoding decodes");
    assert_eq!(dec.pid, 4711);
    assert_eq!(dec.package_name, "com.example.app");
    assert_eq!(dec.get_data(1), Some(&vec![4u8]), "the later update won");
    assert_eq!(dec.get_data(9), Some(&vec![]));
    assert_eq!(dec.get_data(2), None);
    assert_eq!(dec.boxed(), enc, "re-encoding reproduces the bytes");
    // And no proper prefix of the whole record decodes.
    for cut in 0..enc.len() {
        let prefix = enc[..cut].to_vec();
        assert!(Phenotype::from_boxed(&prefix).is_none());
    }
}

/// A filter that rejects every event.
struct DenyFilter;

impl ProcFilter for DenyFilter {
    fn filter(&self, _event: ProcEvent) -> bool {
        false
    }
}

#[test]
fn scanner_respects_a_rejecting_filter() {
    let scanner = ProcScanner::new(DenyFilter);
    assert_eq!(scanner.scan(ProcEvent { event_type: 1, pid: 100, uid: 0, ppid: 1 }), None);
    assert_eq!(scanner.scan(ProcEvent { event_type: 2, pid: 100, uid: 0, ppid: 1 }), None);
}

#[test]
fn collector_message_carries_the_new_pid() {
    let msg = CollectorMessage::NewProcess(77);
    let CollectorMessage::NewProcess(pid) = msg;
    assert_eq!(pid, 77);
}

#[test]
fn scanner_notifications_map_onto_controller_messages() {
    let created = ProcessEvent::ProcessCreated(Process { pid: 100, parent_pid: 1 });
    assert_eq!(
        message_for_process_event(created),
        ControllerMessage::NewProc(Process { pid: 100, parent_pid: 1 })
    );
    let exited = ProcessEvent::ProcessExited(41);
    assert_eq!(message_for_process_event(exited), ControllerMessage::ProcDead(41));
}

#[test]
fn fixed_confidence_receptor_logs_every_call() {
    let detector = FixedConfidenceReceptor::new(Confidence { permille: 950 });
    let mut holder = ReceptorHolder::new(detector, Vec::new(), Confidence { permille: 800 });
    let snapshot = Phenotype::new(100, String::new());

    let verdict = holder.handle_message(ReceptorMessage::PhenotypeUpdate(7, snapshot.clone()));
    assert_eq!(
        verdict,
        Some(ControllerMessage::UnsafeProcDetected(100, Confidence { permille: 950 }))
    );
    assert_eq!(holder.receptor().scored_log.len(), 1);
    assert_eq!(holder.receptor().scored_log[0].0.pid, 100);
    assert_eq!(holder.receptor().scored_log[0].1, Confidence { permille: 950 });
    assert!(holder.receptor().cleaned_log.is_empty());

    assert_eq!(holder.handle_message(ReceptorMessage::ProcDead(100)), None);
    assert_eq!(holder.receptor().cleaned_log, vec![100]);
    assert_eq!(holder.receptor().scored_log.len(), 1, "cleanup scored nothing");
}
