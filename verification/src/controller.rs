//! The controller: the central actor. It owns the pid-to-phenotype table,
//! applies collector updates, and fans each update out to the registered
//! receptors as a snapshot of the whole row.

use vstd::prelude::*;

verus! {

use std::collections::HashMap;
use crate::collector::PhenotypeUpdate;
use crate::phenotype::{Phenotype, PhenotypeView};
use crate::receptor::{Confidence, ReceptorMessage};
use crate::scanner::{Process, ProcessEvent};
use crate::utils::boxable::insert_pairs;

broadcast use vstd::std_specs::hash::group_hash_axioms;

/// A message the controller may receive.
#[derive(Debug, PartialEq)]
pub enum ControllerMessage {
    /// Phenotype data updates: the pid and the updates to apply in order.
    PhenodataUpdate(usize, Vec<PhenotypeUpdate>),
    /// A process compromising security was detected, with the detector's
    /// confidence. Reserved for downstream alerting; the controller sinks
    /// it.
    UnsafeProcDetected(usize, Confidence),
    /// A process died.
    ProcDead(usize),
    /// A new process was detected.
    NewProc(Process),
}

/// The controller message announcing one scanner notification: a created
/// process arrives as `NewProc`, an exited one as `ProcDead`.
pub fn message_for_process_event(event: ProcessEvent) -> (r: ControllerMessage)
    ensures
        (r == match event {
            ProcessEvent::ProcessCreated(proc) => ControllerMessage::NewProc(proc),
            ProcessEvent::ProcessExited(pid) => ControllerMessage::ProcDead(pid),
        }),
{
    match event {
        ProcessEvent::ProcessCreated(proc) => ControllerMessage::NewProc(proc),
        ProcessEvent::ProcessExited(pid) => ControllerMessage::ProcDead(pid),
    }
}

/// A row as the controller creates it on first reference to a pid: the
/// right pid, no package name, no phenotype data.
pub open spec fn fresh_row(ph: Phenotype, pid: usize) -> bool {
    &&& ph.deep_view().pid == pid
    &&& ph.deep_view().package_name == Seq::<char>::empty()
    &&& ph.deep_view().pheno_data == Seq::<(u64, Seq<u8>)>::empty()
}

/// One collector update applied to a row's value.
pub open spec fn apply_update(v: PhenotypeView, u: PhenotypeUpdate) -> PhenotypeView {
    PhenotypeView {
        pid: v.pid,
        package_name: v.package_name,
        pheno_data: insert_pairs(v.pheno_data, u.key, u.new_data@),
    }
}

/// A batch of collector updates applied to a row's value, in order.
pub open spec fn apply_updates(v: PhenotypeView, updates: Seq<PhenotypeUpdate>) -> PhenotypeView
    decreases updates.len(),
{
    if updates.len() == 0 {
        v
    } else {
        apply_updates(apply_update(v, updates[0]), updates.drop_first())
    }
}

/// Applying one more update at the end of a batch is one more step.
proof fn lemma_apply_updates_push(v: PhenotypeView, s: Seq<PhenotypeUpdate>, u: PhenotypeUpdate)
    ensures
        apply_updates(v, s.push(u)) == apply_update(apply_updates(v, s), u),
    decreases s.len(),
{
    if s.len() == 0 {
        assert(s.push(u)[0] == u);
        assert(s.push(u).drop_first() =~= Seq::<PhenotypeUpdate>::empty());
        assert(apply_updates(v, s.push(u)) == apply_updates(
            apply_update(v, u),
            Seq::<PhenotypeUpdate>::empty(),
        ));
        assert(apply_updates(apply_update(v, u), Seq::<PhenotypeUpdate>::empty()) == apply_update(
            v,
            u,
        ));
        assert(apply_updates(v, s) == v);
    } else {
        assert(s.push(u)[0] == s[0]);
        assert(s.push(u).drop_first() =~= s.drop_first().push(u));
        assert(apply_updates(v, s.push(u)) == apply_updates(
            apply_update(v, s[0]),
            s.drop_first().push(u),
        ));
        lemma_apply_updates_push(apply_update(v, s[0]), s.drop_first(), u);
        assert(apply_updates(v, s) == apply_updates(apply_update(v, s[0]), s.drop_first()));
    }
}

/// Applying updates changes only the phenotype data: the process identity
/// and package name survive any batch.
pub proof fn lemma_apply_updates_keeps_identity(v: PhenotypeView, updates: Seq<PhenotypeUpdate>)
    ensures
        apply_updates(v, updates).pid == v.pid,
        apply_updates(v, updates).package_name == v.package_name,
    decreases updates.len(),
{
    if updates.len() > 0 {
        lemma_apply_updates_keeps_identity(apply_update(v, updates[0]), updates.drop_first());
    }
}

/// Controller lifecycle law: handling a process-exited message leaves the
/// table with no row for that pid, so by the contract of
/// [`Controller::handle_message`] a later phenotype update for the same
/// pid is dropped as a no-op, with no fan-out and the table unchanged.
pub proof fn lemma_update_after_death(table: Map<usize, Phenotype>, pid: usize)
    ensures
        !table.remove(pid).contains_key(pid),
{
}

/// Responsible for tracking live processes and handling phenotype
/// updates. The controller alone mutates its table; everything else sees
/// immutable snapshots carried by the messages it sends out.
pub struct Controller {
    pid_to_phenotype: HashMap<usize, Phenotype>,
}

impl Controller {
    /// The live pid-to-phenotype table.
    pub closed spec fn table(&self) -> Map<usize, Phenotype> {
        self.pid_to_phenotype@
    }

    /// Invariant: every row describes the process it is filed under.
    pub open spec fn wf(&self) -> bool {
        forall|p: usize|
            self.table().contains_key(p) ==> (#[trigger] self.table()[p]).deep_view().pid == p
    }

    /// Initially the table is empty.
    pub fn new() -> (r: Self)
        ensures
            r.table() == Map::<usize, Phenotype>::empty(),
            r.wf(),
    {
        Controller { pid_to_phenotype: HashMap::new() }
    }

    /// Make sure a row exists for `pid`: create a fresh one if absent;
    /// idempotent if present.
    fn ensure_phenotype(&mut self, pid: usize)
        ensures
            final(self).table().dom() == old(self).table().dom().insert(pid),
            (forall|p: usize|
                p != pid && old(self).table().contains_key(p) ==> final(self).table()[p] == old(self).table()[p]),
            old(self).table().contains_key(pid) ==> final(self).table() == old(self).table(),
            !old(self).table().contains_key(pid) ==> fresh_row(final(self).table()[pid], pid),
    {
        if !self.pid_to_phenotype.contains_key(&pid) {
            self.pid_to_phenotype.insert(pid, Phenotype::new(pid, String::new()));
            proof {
                assert(final(self).table().dom() =~= old(self).table().dom().insert(pid));
            }
        } else {
            proof {
                assert(final(self).table().dom() =~= old(self).table().dom().insert(pid));
            }
        }
    }

    /// A process died: drop its row and tell every receptor, so that
    /// detectors can clear their own state for the pid.
    fn handle_dead_proc(&mut self, pid: usize) -> (r: Vec<ReceptorMessage>)
        ensures
            final(self).table() == old(self).table().remove(pid),
            r@.len() == 1,
            (r@[0] matches ReceptorMessage::ProcDead(p) && p == pid),
    {
        self.pid_to_phenotype.remove(&pid);
        let mut r: Vec<ReceptorMessage> = Vec::new();
        r.push(ReceptorMessage::ProcDead(pid));
        r
    }

    /// Apply a batch of updates to an existing row, in order, and return
    /// the broadcast list: for each updated key, in update order, one
    /// message tagged with that key and carrying a snapshot of the row
    /// after the whole batch.
    fn handle_phenodata_updates(&mut self, pid: usize, updates: Vec<PhenotypeUpdate>) -> (r: Vec<
        ReceptorMessage,
    >)
        requires
            old(self).table().contains_key(pid),
        ensures
            final(self).table().dom() == old(self).table().dom(),
            (forall|p: usize|
                p != pid && old(self).table().contains_key(p) ==> final(self).table()[p] == old(self).table()[p]),
            final(self).table()[pid].deep_view() == apply_updates(
                old(self).table()[pid].deep_view(),
                updates@,
            ),
            r@.len() == updates@.len(),
            (forall|i: int|
                0 <= i < r@.len() ==> ((#[trigger] r@[i]) matches ReceptorMessage::PhenotypeUpdate(
                    k,
                    ph,
                ) && k == updates@[i].key && ph.deep_view() == final(self).table()[pid].deep_view())),
    {
        let ghost all = updates@;
        let row_opt = self.pid_to_phenotype.remove(&pid);
        let mut row = match row_opt {
            Some(row) => row,
            None => {
                proof {
                    assert(false);
                }
                vstd::pervasive::unreached()
            },
        };
        let ghost row0 = row.deep_view();
        let mut updated_keys: Vec<u64> = Vec::new();
        let mut remaining = updates;
        while remaining.len() > 0
            invariant
                all.len() >= remaining@.len(),
                remaining@ == all.skip(all.len() - remaining@.len()),
                updated_keys@.len() == all.len() - remaining@.len(),
                (forall|i: int|
                    0 <= i < updated_keys@.len() ==> updated_keys@[i] == (#[trigger] all[i]).key),
                row.deep_view() == apply_updates(
                    row0,
                    all.take(all.len() - remaining@.len()),
                ),
            decreases remaining@.len(),
        {
            let ghost done = all.len() - remaining@.len();
            let update = remaining.remove(0);
            proof {
                assert(update == all[done]);
                assert(remaining@ =~= all.skip(done + 1));
            }
            updated_keys.push(update.key);
            let ghost pre_row = row.deep_view();
            row.on_update(update);
            proof {
                assert(row.deep_view() == apply_update(pre_row, all[done]));
                lemma_apply_updates_push(row0, all.take(done), all[done]);
                assert(all.take(done).push(all[done]) =~= all.take(done + 1));
            }
        }
        proof {
            assert(all.take(all.len() as int) =~= all);
        }
        let mut r: Vec<ReceptorMessage> = Vec::new();
        let n = updated_keys.len();
        let mut i: usize = 0;
        while i < n
            invariant
                i <= n,
                n == updated_keys@.len(),
                n == all.len(),
                (forall|j: int|
                    0 <= j < updated_keys@.len() ==> updated_keys@[j] == (#[trigger] all[j]).key),
                r@.len() == i,
                (forall|j: int|
                    0 <= j < i ==> ((#[trigger] r@[j]) matches ReceptorMessage::PhenotypeUpdate(
                        k,
                        ph,
                    ) && k == all[j].key && ph.deep_view() == row.deep_view())),
            decreases n - i,
        {
            let snapshot = row.clone();
            r.push(ReceptorMessage::PhenotypeUpdate(updated_keys[i], snapshot));
            i += 1;
        }
        self.pid_to_phenotype.insert(pid, row);
        proof {
            assert(final(self).table().dom() =~= old(self).table().dom());
        }
        r
    }

    /// Handle one message: the controller's whole state machine, one
    /// transition at a time. The broadcast list that comes back is what
    /// the host application sends to every registered receptor holder, in
    /// order.
    ///
    /// A phenotype update for a pid with no row — one that arrives before
    /// the process was seen, or after its death — is dropped whole: no row
    /// is created, nothing is fanned out.
    pub fn handle_message(&mut self, msg: ControllerMessage) -> (r: Vec<ReceptorMessage>)
        ensures
            old(self).wf() ==> final(self).wf(),
            (match msg {
                ControllerMessage::NewProc(proc) => {
                    &&& r@.len() == 0
                    &&& final(self).table().dom() == old(self).table().dom().insert(
                        proc.pid as usize,
                    )
                    &&& (forall|p: usize|
                        p != proc.pid as usize && old(self).table().contains_key(p) ==> final(self).table()[p] == old(self).table()[p])
                    &&& (old(self).table().contains_key(proc.pid as usize) ==> final(self).table() == old(self).table())
                    &&& (!old(self).table().contains_key(proc.pid as usize) ==> fresh_row(
                        final(self).table()[proc.pid as usize],
                        proc.pid as usize,
                    ))
                },
                ControllerMessage::ProcDead(pid) => {
                    &&& final(self).table() == old(self).table().remove(pid)
                    &&& r@.len() == 1
                    &&& (r@[0] matches ReceptorMessage::ProcDead(p) && p == pid)
                },
                ControllerMessage::PhenodataUpdate(pid, updates) => {
                    if old(self).table().contains_key(pid) {
                        &&& final(self).table().dom() == old(self).table().dom()
                        &&& (forall|p: usize|
                            p != pid && old(self).table().contains_key(p) ==> final(self).table()[p] == old(self).table()[p])
                        &&& final(self).table()[pid].deep_view() == apply_updates(
                            old(self).table()[pid].deep_view(),
                            updates@,
                        )
                        &&& r@.len() == updates@.len()
                        &&& (forall|i: int|
                            0 <= i < r@.len() ==> ((#[trigger] r@[i])
                                matches ReceptorMessage::PhenotypeUpdate(k, ph)
                                && k == updates@[i].key
                                && ph.deep_view() == final(self).table()[pid].deep_view()))
                    } else {
                        *final(self) == *old(self) && r@.len() == 0
                    }
                },
                ControllerMessage::UnsafeProcDetected(pid, confidence) => *final(self) == *old(self) && r@.len() == 0,
            }),
    {
        match msg {
            ControllerMessage::PhenodataUpdate(pid, updates) => {
                if self.pid_to_phenotype.contains_key(&pid) {
                    let ghost pre = *self;
                    let ghost us = updates@;
                    let r = self.handle_phenodata_updates(pid, updates);
                    proof {
                        if pre.wf() {
                            lemma_apply_updates_keeps_identity(
                                pre.table()[pid].deep_view(),
                                us,
                            );
                            assert forall|p: usize| self.table().contains_key(p) implies (
                            #[trigger] self.table()[p]).deep_view().pid == p by {
                                if p != pid {
                                    assert(self.table()[p] == pre.table()[p]);
                                }
                            }
                        }
                    }
                    r
                } else {
                    Vec::new()
                }
            },
            ControllerMessage::UnsafeProcDetected(pid, confidence) => Vec::new(),
            ControllerMessage::ProcDead(pid) => self.handle_dead_proc(pid),
            ControllerMessage::NewProc(proc) => {
                self.ensure_phenotype(proc.pid as usize);
                Vec::new()
            },
        }
    }
}

} // verus!
