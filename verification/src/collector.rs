//! Collector-side types: contributions of phenotype data for one kernel
//! event domain.

pub mod net;

use vstd::prelude::*;

verus! {

use vstd::slice::slice_to_vec;
use crate::utils::boxable::Boxed;

/// One update of a single phenotype key.
#[derive(Debug, PartialEq)]
pub struct PhenotypeUpdate {
    pub key: u64,
    pub new_data: Boxed,
}

impl Clone for PhenotypeUpdate {
    /// Cloning keeps the key and the data.
    fn clone(&self) -> (r: Self)
        ensures
            r.key == self.key,
            r.new_data@ == self.new_data@,
    {
        PhenotypeUpdate { key: self.key, new_data: slice_to_vec(self.new_data.as_slice()) }
    }
}

/// A message a collector holder may receive.
pub enum CollectorMessage {
    NewProcess(usize),
}

/// A producer of phenotype data, inspecting processes for one phenotype
/// dimension. Implemented by the host application's concrete collectors.
pub trait PhenotypeCollector {
    /// Called when a new process appears; returns this collector's
    /// contribution for it.
    fn on_new_process(&mut self, pid: usize) -> Vec<PhenotypeUpdate>;

    /// Lists all keys that this collector may write. Each key is reserved
    /// for a single collector.
    fn get_keys(&self) -> Vec<u64>;
}

/// Owns a collector and the channel plumbing that feeds it.
pub struct CollectorHolder<T: PhenotypeCollector> {
    pub collector: T,
}

} // verus!
