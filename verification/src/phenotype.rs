//! The phenotype: the accumulated behavioral profile of one live process.

use vstd::prelude::*;

verus! {

use crate::collector::PhenotypeUpdate;
use crate::utils::boxable::{
    Boxable, Boxed, Dict, Unboxable, ByteBoxReader, ByteBox, insert_pairs, lookup_pairs,
};

/// The mathematical value of a [`Phenotype`].
pub struct PhenotypeView {
    pub pid: usize,
    pub package_name: Seq<char>,
    pub pheno_data: Seq<(u64, Seq<u8>)>,
}

/// A description of one process's features united in a single place.
/// Phenotype data is contributed by collectors, and every update is sent on
/// to receptors to check whether the phenotype looks harmful.
pub struct Phenotype {
    pub pid: usize,
    pub package_name: String,
    pub pheno_data: Dict<u64, Boxed>,
}

impl DeepView for Phenotype {
    type V = PhenotypeView;

    open spec fn deep_view(&self) -> PhenotypeView {
        PhenotypeView {
            pid: self.pid,
            package_name: self.package_name.deep_view(),
            pheno_data: self.pheno_data.deep_view(),
        }
    }
}

impl Phenotype {
    /// A fresh profile: no phenotype data yet.
    pub fn new(pid: usize, package_name: String) -> (r: Self)
        ensures
            r.deep_view().pid == pid,
            r.deep_view().package_name == package_name.deep_view(),
            r.deep_view().pheno_data == Seq::<(u64, Seq<u8>)>::empty(),
    {
        Phenotype { pid, package_name, pheno_data: Dict::new() }
    }

    /// Apply one collector update: the updated key now maps to the new data,
    /// everything else is untouched.
    pub fn on_update(&mut self, update: PhenotypeUpdate)
        ensures
            final(self).deep_view().pid == old(self).deep_view().pid,
            final(self).deep_view().package_name == old(self).deep_view().package_name,
            final(self).deep_view().pheno_data == insert_pairs(
                old(self).deep_view().pheno_data,
                update.key,
                update.new_data@,
            ),
    {
        proof {
            assert(update.new_data.deep_view() =~= update.new_data@);
        }
        self.pheno_data.insert(update.key, update.new_data);
    }

    /// The data stored under one phenotype key, if any.
    pub fn get_data(&self, key: u64) -> (r: Option<&Boxed>)
        ensures
            (match r {
                Some(d) => lookup_pairs(self.deep_view().pheno_data, key) == Some(d@),
                None => lookup_pairs(self.deep_view().pheno_data, key) is None,
            }),
    {
        self.pheno_data.get(key)
    }
}

impl Clone for Phenotype {
    /// Cloning preserves the profile's value.
    fn clone(&self) -> (r: Self)
        ensures
            r.deep_view() == self.deep_view(),
    {
        Phenotype {
            pid: self.pid,
            package_name: self.package_name.clone(),
            pheno_data: self.pheno_data.clone(),
        }
    }
}

impl Boxable for Phenotype {
    open spec fn boxed_of(v: PhenotypeView) -> Seq<u8> {
        <usize as Boxable>::boxed_of(v.pid) + <String as Boxable>::boxed_of(v.package_name)
            + <Dict<u64, Boxed> as Boxable>::boxed_of(v.pheno_data)
    }

    open spec fn box_wf(v: PhenotypeView) -> bool {
        <usize as Boxable>::box_wf(v.pid) && <String as Boxable>::box_wf(v.package_name)
            && <Dict<u64, Boxed> as Boxable>::box_wf(v.pheno_data) && Self::boxed_of(v).len()
            <= usize::MAX
    }

    fn boxed(&self) -> (r: Boxed) {
        let mut r = Boxed::new();
        r.pack(&self.pid);
        r.pack(&self.package_name);
        r.pack(&self.pheno_data);
        r
    }
}

impl Unboxable for Phenotype {
    open spec fn unboxed_of(b: Seq<u8>) -> Option<PhenotypeView> {
        match <usize as Unboxable>::unboxed_of(b) {
            None => None,
            Some(pid) => {
                let b1 = b.skip(<usize as Boxable>::boxed_of(pid).len() as int);
                match <String as Unboxable>::unboxed_of(b1) {
                    None => None,
                    Some(name) => {
                        let b2 = b1.skip(<String as Boxable>::boxed_of(name).len() as int);
                        match <Dict<u64, Boxed> as Unboxable>::unboxed_of(b2) {
                            None => None,
                            Some(data) => Some(
                                PhenotypeView { pid, package_name: name, pheno_data: data },
                            ),
                        }
                    },
                }
            },
        }
    }

    fn from_boxed(boxed: &Boxed) -> (r: Option<Self>) {
        let mut reader = ByteBoxReader::from_boxed(boxed);
        let pid = match reader.read::<usize>() {
            None => {
                return None;
            },
            Some(v) => v,
        };
        let package_name = match reader.read::<String>() {
            None => {
                return None;
            },
            Some(v) => v,
        };
        let pheno_data = match reader.read::<Dict<u64, Boxed>>() {
            None => {
                return None;
            },
            Some(v) => v,
        };
        Some(Phenotype { pid, package_name, pheno_data })
    }

    fn size_in_boxed_bytes(&self) -> (r: usize) {
        let a = self.pid.size_in_boxed_bytes();
        let b = self.package_name.size_in_boxed_bytes();
        let c = self.pheno_data.size_in_boxed_bytes();
        a + b + c
    }

    proof fn lemma_boxed_nonempty(v: PhenotypeView) {
        <usize as Unboxable>::lemma_boxed_nonempty(v.pid);
    }

    proof fn lemma_round_trip(v: PhenotypeView, rest: Seq<u8>) {
        let e0 = <usize as Boxable>::boxed_of(v.pid);
        let e1 = <String as Boxable>::boxed_of(v.package_name);
        let e2 = <Dict<u64, Boxed> as Boxable>::boxed_of(v.pheno_data);
        let b = Self::boxed_of(v) + rest;
        assert(b =~= e0 + (e1 + (e2 + rest)));
        <usize as Unboxable>::lemma_round_trip(v.pid, e1 + (e2 + rest));
        assert(b.skip(e0.len() as int) =~= e1 + (e2 + rest));
        <String as Unboxable>::lemma_round_trip(v.package_name, e2 + rest);
        assert(b.skip(e0.len() as int).skip(e1.len() as int) =~= e2 + rest);
        <Dict<u64, Boxed> as Unboxable>::lemma_round_trip(v.pheno_data, rest);
    }

    proof fn lemma_unboxed_wf(b: Seq<u8>) {
        match <usize as Unboxable>::unboxed_of(b) {
            None => {},
            Some(pid) => {
                <usize as Unboxable>::lemma_unboxed_wf(b);
                let e0 = <usize as Boxable>::boxed_of(pid);
                let b1 = b.skip(e0.len() as int);
                match <String as Unboxable>::unboxed_of(b1) {
                    None => {},
                    Some(name) => {
                        <String as Unboxable>::lemma_unboxed_wf(b1);
                        let e1 = <String as Boxable>::boxed_of(name);
                        let b2 = b1.skip(e1.len() as int);
                        match <Dict<u64, Boxed> as Unboxable>::unboxed_of(b2) {
                            None => {},
                            Some(data) => {
                                <Dict<u64, Boxed> as Unboxable>::lemma_unboxed_wf(b2);
                                let e2 = <Dict<u64, Boxed> as Boxable>::boxed_of(data);
                                let v = PhenotypeView {
                                    pid,
                                    package_name: name,
                                    pheno_data: data,
                                };
                                assert(Self::boxed_of(v) =~= b.take(
                                    e0.len() as int + e1.len() as int + e2.len() as int,
                                ));
                            },
                        }
                    },
                }
            },
        }
    }

    proof fn lemma_truncation(v: PhenotypeView, p: Seq<u8>) {
        let e0 = <usize as Boxable>::boxed_of(v.pid);
        let e1 = <String as Boxable>::boxed_of(v.package_name);
        let e2 = <Dict<u64, Boxed> as Boxable>::boxed_of(v.pheno_data);
        if p.len() < e0.len() {
            assert(p =~= e0.take(p.len() as int));
            <usize as Unboxable>::lemma_truncation(v.pid, p);
        } else {
            let p1 = p.skip(e0.len() as int);
            assert(p =~= e0 + p1);
            <usize as Unboxable>::lemma_round_trip(v.pid, p1);
            if p1.len() < e1.len() {
                assert(p1 =~= e1.take(p1.len() as int));
                <String as Unboxable>::lemma_truncation(v.package_name, p1);
            } else {
                let p2 = p1.skip(e1.len() as int);
                assert(p1 =~= e1 + p2);
                <String as Unboxable>::lemma_round_trip(v.package_name, p2);
                assert(p2 =~= e2.take(p2.len() as int));
                <Dict<u64, Boxed> as Unboxable>::lemma_truncation(v.pheno_data, p2);
            }
        }
    }
}

} // verus!
