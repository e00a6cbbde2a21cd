//! Network collector: turns kernel listen events into phenotype updates
//! for the network dimension of a process's profile.

use vstd::prelude::*;

verus! {

use vstd::bytes::*;
use vstd::slice::*;
use crate::bpf::streamer::RawEvent;
use crate::collector::PhenotypeUpdate;
use crate::controller::apply_update;
use crate::phenotype::PhenotypeView;
use crate::utils::boxable::{Boxable, Boxed, Unboxable, lemma_lookup_insert_pairs, lookup_pairs};

/// The network event record emitted by the net-monitor kernel hook,
/// field for field in the producer's layout.
#[derive(Clone, Copy, Debug, PartialEq)]
pub struct NetEvent {
    pub event_type: u32,
    pub pid: u32,
    pub port: u32,
    pub remote_port: u32,
    pub ip4_addr: u32,
    pub ip6_addr: [u32; 4],
    pub remote_ip4: u32,
    pub remote_ip6: [u32; 4],
}

/// Event-type tag: a socket started listening.
pub const NET_EVENT_LISTEN: u32 = 1;

impl RawEvent for NetEvent {
    open spec fn record_size_spec() -> int {
        56
    }

    open spec fn matches_record(&self, data: Seq<u8>) -> bool {
        &&& self.event_type == spec_u32_from_le_bytes(data.subrange(0, 4))
        &&& self.pid == spec_u32_from_le_bytes(data.subrange(4, 8))
        &&& self.port == spec_u32_from_le_bytes(data.subrange(8, 12))
        &&& self.remote_port == spec_u32_from_le_bytes(data.subrange(12, 16))
        &&& self.ip4_addr == spec_u32_from_le_bytes(data.subrange(16, 20))
        &&& self.ip6_addr@ == seq![
            spec_u32_from_le_bytes(data.subrange(20, 24)),
            spec_u32_from_le_bytes(data.subrange(24, 28)),
            spec_u32_from_le_bytes(data.subrange(28, 32)),
            spec_u32_from_le_bytes(data.subrange(32, 36)),
        ]
        &&& self.remote_ip4 == spec_u32_from_le_bytes(data.subrange(36, 40))
        &&& self.remote_ip6@ == seq![
            spec_u32_from_le_bytes(data.subrange(40, 44)),
            spec_u32_from_le_bytes(data.subrange(44, 48)),
            spec_u32_from_le_bytes(data.subrange(48, 52)),
            spec_u32_from_le_bytes(data.subrange(52, 56)),
        ]
    }

    fn record_size() -> (r: usize) {
        56
    }

    fn decode_record(data: &[u8]) -> (r: Self) {
        let event_type = u32_from_le_bytes(slice_subrange(data, 0, 4));
        let pid = u32_from_le_bytes(slice_subrange(data, 4, 8));
        let port = u32_from_le_bytes(slice_subrange(data, 8, 12));
        let remote_port = u32_from_le_bytes(slice_subrange(data, 12, 16));
        let ip4_addr = u32_from_le_bytes(slice_subrange(data, 16, 20));
        let ip6_addr: [u32; 4] = [
            u32_from_le_bytes(slice_subrange(data, 20, 24)),
            u32_from_le_bytes(slice_subrange(data, 24, 28)),
            u32_from_le_bytes(slice_subrange(data, 28, 32)),
            u32_from_le_bytes(slice_subrange(data, 32, 36)),
        ];
        let remote_ip4 = u32_from_le_bytes(slice_subrange(data, 36, 40));
        let remote_ip6: [u32; 4] = [
            u32_from_le_bytes(slice_subrange(data, 40, 44)),
            u32_from_le_bytes(slice_subrange(data, 44, 48)),
            u32_from_le_bytes(slice_subrange(data, 48, 52)),
            u32_from_le_bytes(slice_subrange(data, 52, 56)),
        ];
        let r = NetEvent {
            event_type,
            pid,
            port,
            remote_port,
            ip4_addr,
            ip6_addr,
            remote_ip4,
            remote_ip6,
        };
        proof {
            assert(r.ip6_addr@ =~= seq![
                spec_u32_from_le_bytes(data@.subrange(20, 24)),
                spec_u32_from_le_bytes(data@.subrange(24, 28)),
                spec_u32_from_le_bytes(data@.subrange(28, 32)),
                spec_u32_from_le_bytes(data@.subrange(32, 36)),
            ]);
            assert(r.remote_ip6@ =~= seq![
                spec_u32_from_le_bytes(data@.subrange(40, 44)),
                spec_u32_from_le_bytes(data@.subrange(44, 48)),
                spec_u32_from_le_bytes(data@.subrange(48, 52)),
                spec_u32_from_le_bytes(data@.subrange(52, 56)),
            ]);
        }
        r
    }

    proof fn lemma_record_determined(a: Self, b: Self, data: Seq<u8>) {
        assert(a.ip6_addr@ =~= b.ip6_addr@);
        vstd::array::axiom_array_ext_equal(a.ip6_addr, b.ip6_addr);
        assert(a.remote_ip6@ =~= b.remote_ip6@);
        vstd::array::axiom_array_ext_equal(a.remote_ip6, b.remote_ip6);
    }
}

/// The transport protocol of a listening port.
#[derive(Clone, Copy, Debug, PartialEq, Eq, Structural)]
pub enum PortType {
    TCP,
    UDP,
}

/// One listening port of a process: the network collector's listen
/// descriptor.
#[derive(Clone, Copy, Debug, PartialEq, Eq, Structural)]
pub struct NetListenPort {
    pub port_type: PortType,
    pub port: u32,
}

impl DeepView for NetListenPort {
    type V = NetListenPort;

    open spec fn deep_view(&self) -> NetListenPort {
        *self
    }
}

/// The one-byte wire tag of a transport protocol.
pub open spec fn port_type_tag(t: PortType) -> u8 {
    match t {
        PortType::TCP => 0u8,
        PortType::UDP => 1u8,
    }
}

/// A listen descriptor travels as the protocol's one-byte tag followed by
/// the port as four little-endian bytes.
impl Boxable for NetListenPort {
    open spec fn boxed_of(v: NetListenPort) -> Seq<u8> {
        seq![port_type_tag(v.port_type)] + spec_u32_to_le_bytes(v.port)
    }

    open spec fn box_wf(v: NetListenPort) -> bool {
        true
    }

    fn boxed(&self) -> (r: Boxed) {
        let mut r: Vec<u8> = Vec::new();
        let tag: u8 = match self.port_type {
            PortType::TCP => 0,
            PortType::UDP => 1,
        };
        r.push(tag);
        let mut port_bytes = u32_to_le_bytes(self.port);
        r.append(&mut port_bytes);
        proof {
            assert(r@ =~= Self::boxed_of(self.deep_view()));
        }
        r
    }
}

impl Unboxable for NetListenPort {
    open spec fn unboxed_of(b: Seq<u8>) -> Option<NetListenPort> {
        if b.len() < 5 {
            None
        } else {
            let port = spec_u32_from_le_bytes(b.subrange(1, 5));
            if b[0] == 0u8 {
                Some(NetListenPort { port_type: PortType::TCP, port })
            } else if b[0] == 1u8 {
                Some(NetListenPort { port_type: PortType::UDP, port })
            } else {
                None
            }
        }
    }

    fn from_boxed(boxed: &Boxed) -> (r: Option<Self>) {
        if boxed.len() < 5 {
            return None;
        }
        let tag = boxed[0];
        let port = u32_from_le_bytes(slice_subrange(boxed.as_slice(), 1, 5));
        if tag == 0 {
            Some(NetListenPort { port_type: PortType::TCP, port })
        } else if tag == 1 {
            Some(NetListenPort { port_type: PortType::UDP, port })
        } else {
            None
        }
    }

    fn size_in_boxed_bytes(&self) -> (r: usize) {
        proof {
            lemma_auto_spec_u32_to_from_le_bytes();
        }
        5
    }

    proof fn lemma_boxed_nonempty(v: NetListenPort) {
    }

    proof fn lemma_round_trip(v: NetListenPort, rest: Seq<u8>) {
        lemma_auto_spec_u32_to_from_le_bytes();
        let b = Self::boxed_of(v) + rest;
        assert(b[0] == port_type_tag(v.port_type));
        assert(b.subrange(1, 5) =~= spec_u32_to_le_bytes(v.port));
    }

    proof fn lemma_unboxed_wf(b: Seq<u8>) {
        lemma_auto_spec_u32_to_from_le_bytes();
        if b.len() >= 5 && (b[0] == 0u8 || b[0] == 1u8) {
            let port = spec_u32_from_le_bytes(b.subrange(1, 5));
            let t = if b[0] == 0u8 {
                PortType::TCP
            } else {
                PortType::UDP
            };
            assert(Self::boxed_of(NetListenPort { port_type: t, port }) =~= b.take(5));
        }
    }

    proof fn lemma_truncation(v: NetListenPort, p: Seq<u8>) {
        lemma_auto_spec_u32_to_from_le_bytes();
    }
}

/// The aggregated network dimension of one process's phenotype.
#[derive(Debug)]
pub struct NetPhenotype {
    pub listen_ports: Vec<NetListenPort>,
}

/// The reserved phenotype key under which the network collector publishes
/// listen descriptors. Reserved for this collector alone.
pub const NET_LISTEN_PORTS_KEY: u64 = 1;

/// Translates the kernel listen-event stream into phenotype updates. One
/// raw event is handled per step; the host application drives the loop and
/// forwards the updates to the controller.
/// Law for the whole listen-event flow: the update this collector emits
/// for a listening port, applied to any row the way the controller applies
/// it, leaves the encoded listen descriptor under the reserved key — and
/// those bytes decode back to the descriptor itself, so any receptor
/// reading the snapshot recovers the port.
pub proof fn lemma_listen_update_readable(v: PhenotypeView, u: PhenotypeUpdate, port: u32)
    requires
        u.key == NET_LISTEN_PORTS_KEY,
        u.new_data@ == <NetListenPort as Boxable>::boxed_of(
            NetListenPort { port_type: PortType::TCP, port },
        ),
    ensures
        lookup_pairs(apply_update(v, u).pheno_data, NET_LISTEN_PORTS_KEY) == Some(u.new_data@),
        <NetListenPort as Unboxable>::unboxed_of(u.new_data@) == Some(
            NetListenPort { port_type: PortType::TCP, port },
        ),
{
    lemma_lookup_insert_pairs(
        v.pheno_data,
        NET_LISTEN_PORTS_KEY,
        u.new_data@,
        NET_LISTEN_PORTS_KEY,
    );
    let descriptor = NetListenPort { port_type: PortType::TCP, port };
    <NetListenPort as Unboxable>::lemma_round_trip(descriptor, Seq::<u8>::empty());
    assert(<NetListenPort as Boxable>::boxed_of(descriptor) + Seq::<u8>::empty()
        =~= <NetListenPort as Boxable>::boxed_of(descriptor));
}

pub struct NetPhenotypeCollector {}

impl NetPhenotypeCollector {
    pub fn new() -> (r: Self) {
        Self {  }
    }

    /// Handle one raw network event: a listen event becomes a phenotype
    /// update carrying the encoded listen descriptor under this collector's
    /// reserved key; unknown event types are dropped.
    pub fn handle_event(&self, event: NetEvent) -> (r: Option<PhenotypeUpdate>)
        ensures
            (match r {
                Some(u) => event.event_type == NET_EVENT_LISTEN && u.key
                    == NET_LISTEN_PORTS_KEY && u.new_data@ == <NetListenPort as Boxable>::boxed_of(
                    NetListenPort { port_type: PortType::TCP, port: event.port },
                ),
                None => event.event_type != NET_EVENT_LISTEN,
            }),
    {
        if event.event_type == NET_EVENT_LISTEN {
            let descriptor = NetListenPort { port_type: PortType::TCP, port: event.port };
            Some(PhenotypeUpdate { key: NET_LISTEN_PORTS_KEY, new_data: descriptor.boxed() })
        } else {
            None
        }
    }
}

} // verus!
