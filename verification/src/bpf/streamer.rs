//! The streaming boundary: typed records read off the ring buffer, the
//! consumer capability they are delivered through, and the engine contract.

use vstd::prelude::*;

verus! {

/// A fixed-layout record type delivered by a kernel hook. Decoding copies
/// the leading bytes of the delivered buffer into an owned value, field for
/// field, little endian, in the producer's field order.
pub trait RawEvent: Sized {
    /// The fixed size of this record type on the wire.
    spec fn record_size_spec() -> int;

    /// Field-for-field correspondence between a value and the leading bytes
    /// of a delivered record.
    spec fn matches_record(&self, data: Seq<u8>) -> bool;

    fn record_size() -> (r: usize)
        ensures
            r == Self::record_size_spec(),
    ;

    /// Copy one record out of the delivered bytes.
    fn decode_record(data: &[u8]) -> (r: Self)
        requires
            data@.len() >= Self::record_size_spec(),
        ensures
            r.matches_record(data@),
    ;

    /// Law: a record's bytes determine the event. Together with
    /// `decode_record`, decoding is a function of the delivered bytes.
    proof fn lemma_record_determined(a: Self, b: Self, data: Seq<u8>)
        requires
            a.matches_record(data),
            b.matches_record(data),
        ensures
            a == b,
    ;
}

/// The consumer capability of a streamer: somewhere to deliver each decoded
/// event. Implemented by the host application, typically over a bounded
/// channel whose send blocks when the consumer falls behind.
pub trait StreamerNotifier<K> {
    /// The events delivered so far, in order. Left unspecified unless the
    /// implementor says what it is.
    open spec fn delivered(&self) -> Seq<K> {
        arbitrary()
    }

    /// Deliver one event; may suspend the caller for backpressure, but the
    /// event is appended to the delivered stream exactly once.
    fn notify(&mut self, obj: K)
        ensures
            final(self).delivered() == old(self).delivered().push(obj),
    ;
}

/// An engine that drains kernel events to a consumer on its own execution
/// context. Implemented by the host application around the verified
/// per-record handling.
pub trait Streamer<K> {
    /// Start draining; returns immediately to the caller.
    fn start(&mut self);
}

/// A consumer that keeps every delivered event in a growing list, in
/// delivery order: the simplest same-thread consumer.
pub struct VecNotifier<K> {
    pub events: Vec<K>,
}

impl<K> VecNotifier<K> {
    pub fn new() -> (r: Self)
        ensures
            r.delivered() == Seq::<K>::empty(),
    {
        VecNotifier { events: Vec::new() }
    }
}

impl<K> StreamerNotifier<K> for VecNotifier<K> {
    open spec fn delivered(&self) -> Seq<K> {
        self.events@
    }

    fn notify(&mut self, obj: K) {
        self.events.push(obj);
    }
}

} // verus!
