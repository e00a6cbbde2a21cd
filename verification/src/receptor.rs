//! Receptors: pluggable detectors that score phenotype snapshots for
//! malicious behavior, adapted to the controller's fan-out protocol.

use vstd::prelude::*;

verus! {

use crate::controller::ControllerMessage;
use crate::phenotype::{Phenotype, PhenotypeView};

/// A detector's confidence that a process is harmful, scaled from zero
/// (certainly benign) to [`CONFIDENCE_UNIT`] thousandths (certainly
/// harmful).
#[derive(Clone, Copy, Debug, PartialEq, Eq, Structural)]
pub struct Confidence {
    pub permille: u32,
}

/// The confidence standing for certainty: 1000 thousandths.
pub const CONFIDENCE_UNIT: u32 = 1000;

/// A message a receptor holder may receive.
pub enum ReceptorMessage {
    /// A phenotype key was updated: the trigger key, and a snapshot of the
    /// whole phenotype after the update.
    PhenotypeUpdate(u64, Phenotype),
    /// A process died: receptors must clear the state they keep for it.
    ProcDead(usize),
}

impl Clone for ReceptorMessage {
    /// Cloning keeps the tag and the snapshot's value: fan-out sends the
    /// same message to every receptor.
    fn clone(&self) -> (r: Self)
        ensures
            (match self {
                ReceptorMessage::PhenotypeUpdate(key, ph) => (
                r matches ReceptorMessage::PhenotypeUpdate(k2, ph2) && k2 == key
                    && ph2.deep_view() == ph.deep_view()),
                ReceptorMessage::ProcDead(pid) => (r matches ReceptorMessage::ProcDead(p2)
                    && p2 == pid),
            }),
    {
        match self {
            ReceptorMessage::PhenotypeUpdate(key, ph) => ReceptorMessage::PhenotypeUpdate(
                *key,
                ph.clone(),
            ),
            ReceptorMessage::ProcDead(pid) => ReceptorMessage::ProcDead(*pid),
        }
    }
}

/// A detector for harmful agents. It may do arbitrarily slow work —
/// querying a database, reading files, calling a model — so nothing is
/// promised of its verdicts, only that every call reaches it: each method
/// appends to the matching observation log and leaves the other alone.
/// Implemented by the host application.
pub trait Receptor {
    /// The snapshots scored so far, each with the confidence the detector
    /// returned for it, in call order. Left unspecified unless the
    /// implementor says what it is.
    open spec fn scored(&self) -> Seq<(PhenotypeView, Confidence)> {
        arbitrary()
    }

    /// The pids whose cleanup hook has run so far, in call order. Left
    /// unspecified unless the implementor says what it is.
    open spec fn cleaned(&self) -> Seq<usize> {
        arbitrary()
    }

    /// Try to recognize a harmful agent from its phenotype.
    fn recognize(&mut self, phenotype: &Phenotype) -> (r: Confidence)
        ensures
            final(self).scored() == old(self).scored().push((phenotype.deep_view(), r)),
            final(self).cleaned() == old(self).cleaned(),
    ;

    /// Called when a process dies. Cleans up all the data that the
    /// detector associates with the process.
    fn on_process_dead(&mut self, pid: usize)
        ensures
            final(self).cleaned() == old(self).cleaned().push(pid),
            final(self).scored() == old(self).scored(),
    ;
}

/// A detector that scores every snapshot with one fixed confidence and
/// keeps what it observed in plain lists: the simplest detector, and a
/// stand-in while no real heuristic is plugged in.
pub struct FixedConfidenceReceptor {
    pub confidence: Confidence,
    pub scored_log: Vec<(Phenotype, Confidence)>,
    pub cleaned_log: Vec<usize>,
}

impl FixedConfidenceReceptor {
    pub fn new(confidence: Confidence) -> (r: Self)
        ensures
            r.confidence == confidence,
            r.scored() == Seq::<(PhenotypeView, Confidence)>::empty(),
            r.cleaned() == Seq::<usize>::empty(),
    {
        let r = FixedConfidenceReceptor {
            confidence,
            scored_log: Vec::new(),
            cleaned_log: Vec::new(),
        };
        proof {
            assert(r.scored() =~= Seq::<(PhenotypeView, Confidence)>::empty());
        }
        r
    }
}

impl Receptor for FixedConfidenceReceptor {
    open spec fn scored(&self) -> Seq<(PhenotypeView, Confidence)> {
        self.scored_log@.map_values(|p: (Phenotype, Confidence)| (p.0.deep_view(), p.1))
    }

    open spec fn cleaned(&self) -> Seq<usize> {
        self.cleaned_log@
    }

    fn recognize(&mut self, phenotype: &Phenotype) -> (r: Confidence) {
        let c = self.confidence;
        self.scored_log.push((phenotype.clone(), c));
        proof {
            assert(self.scored() =~= old(self).scored().push((phenotype.deep_view(), c)));
        }
        c
    }

    fn on_process_dead(&mut self, pid: usize) {
        self.cleaned_log.push(pid);
    }
}

/// Whether `keys` holds `key`.
fn keys_contain(keys: &Vec<u64>, key: u64) -> (r: bool)
    ensures
        r == keys@.contains(key),
{
    let n = keys.len();
    let mut i: usize = 0;
    while i < n
        invariant
            i <= n,
            n == keys@.len(),
            forall|j: int| 0 <= j < i ==> keys@[j] != key,
        decreases n - i,
    {
        if keys[i] == key {
            return true;
        }
        i += 1;
    }
    proof {
        assert(!keys@.contains(key));
    }
    false
}

/// Stores a receptor and handles updates from the controller: filters
/// messages by the keys the detector cares about, invokes it, and reports
/// a verdict back when the confidence clears the configured minimum.
pub struct ReceptorHolder<T: Receptor> {
    receptor: T,
    keys: Vec<u64>,
    min_confidence: Confidence,
}

impl<T: Receptor> ReceptorHolder<T> {
    /// The key subscription set; empty means every key.
    pub closed spec fn keys_spec(&self) -> Seq<u64> {
        self.keys@
    }

    /// The verdict threshold.
    pub closed spec fn min_confidence_spec(&self) -> Confidence {
        self.min_confidence
    }

    /// The held detector.
    pub closed spec fn receptor_spec(&self) -> T {
        self.receptor
    }

    /// Whether a message tagged `key` passes this holder's subscription
    /// filter: an empty subscription set subscribes to every key.
    pub open spec fn subscribed(&self, key: u64) -> bool {
        self.keys_spec().len() == 0 || self.keys_spec().contains(key)
    }

    pub fn new(receptor: T, keys: Vec<u64>, min_confidence: Confidence) -> (r: Self)
        ensures
            r.keys_spec() == keys@,
            r.min_confidence_spec() == min_confidence,
            r.receptor_spec() == receptor,
    {
        ReceptorHolder { receptor, keys, min_confidence }
    }

    /// A look at the held detector, e.g. to inspect what it observed.
    pub fn receptor(&self) -> (r: &T)
        ensures
            r == self.receptor_spec(),
    {
        &self.receptor
    }

    /// The verdict owed for one detector result: an unsafe-process report
    /// exactly when the confidence strictly exceeds this holder's minimum.
    pub fn verdict(&self, pid: usize, confidence: Confidence) -> (r: Option<ControllerMessage>)
        ensures
            (r == if confidence.permille > self.min_confidence_spec().permille {
                Some(ControllerMessage::UnsafeProcDetected(pid, confidence))
            } else {
                None
            }),
    {
        if confidence.permille > self.min_confidence.permille {
            Some(ControllerMessage::UnsafeProcDetected(pid, confidence))
        } else {
            None
        }
    }

    /// Handle one message from the controller. A phenotype update tagged
    /// with a key outside a non-empty subscription set is discarded
    /// without consulting the detector; on a subscribed key the detector
    /// scores exactly this snapshot, and a verdict goes back exactly when
    /// the confidence it returned strictly exceeds the minimum. A
    /// process-death message always reaches the detector's cleanup hook —
    /// never key-filtered — exactly once, and yields no verdict.
    pub fn handle_message(&mut self, msg: ReceptorMessage) -> (r: Option<ControllerMessage>)
        ensures
            final(self).keys_spec() == old(self).keys_spec(),
            final(self).min_confidence_spec() == old(self).min_confidence_spec(),
            (match msg {
                ReceptorMessage::PhenotypeUpdate(key, phenotype) => {
                    if old(self).subscribed(key) {
                        &&& (exists|c: Confidence|
                            final(self).receptor_spec().scored() == (#[trigger] old(
                                self,
                            ).receptor_spec().scored().push((phenotype.deep_view(), c))) && r
                                == (if c.permille > old(self).min_confidence_spec().permille {
                                Some(ControllerMessage::UnsafeProcDetected(phenotype.pid, c))
                            } else {
                                None
                            }))
                        &&& final(self).receptor_spec().cleaned() == old(
                            self,
                        ).receptor_spec().cleaned()
                    } else {
                        r is None && *final(self) == *old(self)
                    }
                },
                ReceptorMessage::ProcDead(pid) => {
                    &&& r is None
                    &&& final(self).receptor_spec().cleaned() == old(
                        self,
                    ).receptor_spec().cleaned().push(pid)
                    &&& final(self).receptor_spec().scored() == old(
                        self,
                    ).receptor_spec().scored()
                },
            }),
    {
        let need_check_keys = self.keys.len() > 0;
        match msg {
            ReceptorMessage::PhenotypeUpdate(key, phenotype) => {
                if need_check_keys && !keys_contain(&self.keys, key) {
                    return None;
                }
                let confidence = self.receptor.recognize(&phenotype);
                let out = self.verdict(phenotype.pid, confidence);
                proof {
                    assert(self.receptor_spec().scored() == old(
                        self,
                    ).receptor_spec().scored().push((phenotype.deep_view(), confidence)));
                }
                out
            },
            ReceptorMessage::ProcDead(pid) => {
                self.receptor.on_process_dead(pid);
                None
            },
        }
    }
}

} // verus!
