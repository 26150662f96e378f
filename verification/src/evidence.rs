//! The evidence directory and the uploader's rules over it.
//!
//! Evidence lives on disk as a pair `<T>.jpg` + `<T>.json`, named by the
//! timestamp of the infraction. The recorder writes the photograph first
//! and the sidecar second, so a `.json` on disk always marks a complete
//! pair; the uploader keys on `.json`, posts the pair, and deletes both
//! files only after the backend accepted them — a failed upload leaves the
//! pair in place for the next try.

use vstd::prelude::*;

verus! {

/// Byte-string equality.
pub fn bytes_eq(a: &[u8], b: &[u8]) -> (r: bool)
    ensures
        r == (a@ == b@),
{
    if a.len() != b.len() {
        return false;
    }
    let mut i: usize = 0;
    while i < a.len()
        invariant
            i <= a@.len(),
            a@.len() == b@.len(),
            forall|m: int| 0 <= m < i ==> a@[m] == #[trigger] b@[m],
        decreases a@.len() - i,
    {
        if a[i] != b[i] {
            return false;
        }
        i = i + 1;
    }
    proof {
        assert(a@ =~= b@);
    }
    true
}

/// Whether `v` holds `name`.
fn contains_name(v: &Vec<Vec<u8>>, name: &[u8]) -> (r: bool)
    ensures
        r == v.deep_view().contains(name@),
{
    let mut i: usize = 0;
    while i < v.len()
        invariant
            i <= v@.len(),
            forall|m: int| 0 <= m < i ==> v.deep_view()[m] != name@,
        decreases v@.len() - i,
    {
        if bytes_eq(v[i].as_slice(), name) {
            proof {
                assert(v.deep_view()[i as int] =~= name@);
            }
            return true;
        }
        proof {
            assert(v.deep_view()[i as int] =~= v@[i as int]@);
        }
        i = i + 1;
    }
    proof {
        if v.deep_view().contains(name@) {
            let j = choose|j: int| 0 <= j < v.deep_view().len() && v.deep_view()[j] == name@;
            assert(v.deep_view()[j] != name@);
        }
    }
    false
}

/// `s` with every occurrence of `n` removed, order kept.
pub open spec fn without_name(s: Seq<Seq<u8>>, n: Seq<u8>) -> Seq<Seq<u8>>
    decreases s.len(),
{
    if s.len() == 0 {
        Seq::empty()
    } else if s[0] == n {
        without_name(s.drop_first(), n)
    } else {
        seq![s[0]] + without_name(s.drop_first(), n)
    }
}

/// What remains after the removal: exactly the other names.
pub proof fn lemma_without_name_membership(s: Seq<Seq<u8>>, n: Seq<u8>, x: Seq<u8>)
    ensures
        without_name(s, n).contains(x) <==> (s.contains(x) && x != n),
    decreases s.len(),
{
    if s.len() == 0 {
        assert(!s.contains(x));
        assert(!without_name(s, n).contains(x));
    } else {
        let t = s.drop_first();
        lemma_without_name_membership(t, n, x);
        assert(s.contains(x) <==> (s[0] == x || t.contains(x))) by {
            if s.contains(x) {
                let i = choose|i: int| 0 <= i < s.len() && s[i] == x;
                if i > 0 {
                    assert(t[i - 1] == x);
                    assert(t.contains(x));
                }
            }
            if t.contains(x) {
                let i = choose|i: int| 0 <= i < t.len() && t[i] == x;
                assert(s[i + 1] == x);
            }
            if s[0] == x {
                assert(s.contains(x));
            }
        }
        if s[0] == n {
        } else {
            let w = without_name(t, n);
            assert((seq![s[0]] + w).contains(x) <==> (s[0] == x || w.contains(x))) by {
                if (seq![s[0]] + w).contains(x) {
                    let i = choose|i: int|
                        0 <= i < (seq![s[0]] + w).len() && (seq![s[0]] + w)[i] == x;
                    if i > 0 {
                        assert(w[i - 1] == x);
                        assert(w.contains(x));
                    }
                }
                if w.contains(x) {
                    let i = choose|i: int| 0 <= i < w.len() && w[i] == x;
                    assert((seq![s[0]] + w)[i + 1] == x);
                }
                if s[0] == x {
                    assert((seq![s[0]] + w)[0] == x);
                }
            }
        }
    }
}

/// Removes every occurrence of `name` from `v`.
fn remove_name(v: &mut Vec<Vec<u8>>, name: &[u8])
    ensures
        final(v).deep_view() == without_name(old(v).deep_view(), name@),
{
    let mut kept: Vec<Vec<u8>> = Vec::new();
    proof {
        assert(kept.deep_view() + without_name(old(v).deep_view(), name@) =~~= without_name(
            old(v).deep_view(),
            name@,
        ));
    }
    while v.len() > 0
        invariant
            kept.deep_view() + without_name(v.deep_view(), name@) == without_name(
                old(v).deep_view(),
                name@,
            ),
        decreases v@.len(),
    {
        let ghost rest = v.deep_view();
        let e = v.remove(0);
        proof {
            assert(v.deep_view() =~~= rest.drop_first());
            assert(e@ == rest[0]);
        }
        if !bytes_eq(e.as_slice(), name) {
            let ghost kept_before = kept.deep_view();
            kept.push(e);
            proof {
                assert(kept.deep_view() =~~= kept_before.push(rest[0]));
                assert(kept_before + (seq![rest[0]] + without_name(rest.drop_first(), name@))
                    =~~= kept.deep_view() + without_name(rest.drop_first(), name@));
            }
        }
    }
    proof {
        assert(v.deep_view() =~~= Seq::<Seq<u8>>::empty());
        assert(kept.deep_view() + without_name(v.deep_view(), name@) =~~= kept.deep_view());
    }
    *v = kept;
}

/// The mathematical state of the evidence directory.
pub struct EvidenceDirView {
    /// Basenames with a photograph on disk.
    pub jpgs: Seq<Seq<u8>>,
    /// Basenames with a JSON sidecar on disk.
    pub jsons: Seq<Seq<u8>>,
}

/// The evidence directory, by basename (the timestamp, without extension).
pub struct EvidenceDir {
    jpgs: Vec<Vec<u8>>,
    jsons: Vec<Vec<u8>>,
}

impl View for EvidenceDir {
    type V = EvidenceDirView;

    closed spec fn view(&self) -> EvidenceDirView {
        EvidenceDirView { jpgs: self.jpgs.deep_view(), jsons: self.jsons.deep_view() }
    }
}

impl EvidenceDir {
    /// Every sidecar marks a complete pair: its photograph is on disk.
    pub open spec fn wf(self) -> bool {
        forall|i: int| 0 <= i < self@.jsons.len() ==> self@.jpgs.contains(#[trigger] self@.jsons[i])
    }

    /// An empty directory.
    pub fn new() -> (d: EvidenceDir)
        ensures
            d.wf(),
            d@.jpgs =~= Seq::<Seq<u8>>::empty(),
            d@.jsons =~= Seq::<Seq<u8>>::empty(),
    {
        EvidenceDir { jpgs: Vec::new(), jsons: Vec::new() }
    }

    /// Records that the photograph for `name` has been written. This is
    /// the first half of an evidence pair and must come first.
    pub fn record_photo(&mut self, name: &[u8])
        requires
            old(self).wf(),
        ensures
            final(self).wf(),
            final(self)@.jpgs == old(self)@.jpgs.push(name@),
            final(self)@.jsons == old(self)@.jsons,
    {
        let ghost before = self@.jpgs;
        self.jpgs.push(vstd::slice::slice_to_vec(name));
        proof {
            assert(self@.jpgs =~~= before.push(name@));
            assert forall|i: int| 0 <= i < self@.jsons.len() implies self@.jpgs.contains(
                #[trigger] self@.jsons[i],
            ) by {
                let x = self@.jsons[i];
                assert(old(self)@.jpgs.contains(old(self)@.jsons[i]));
                assert(before.contains(x));
                let j = choose|j: int| 0 <= j < before.len() && before[j] == x;
                assert(self@.jpgs[j] == x);
            }
        }
    }

    /// Records that the JSON sidecar for `name` has been written. The
    /// photograph must already be on disk: a sidecar never precedes its
    /// photograph, so no half-written pair is ever visible to the
    /// uploader.
    pub fn record_json(&mut self, name: &[u8])
        requires
            old(self).wf(),
            old(self)@.jpgs.contains(name@),
        ensures
            final(self).wf(),
            final(self)@.jpgs == old(self)@.jpgs,
            final(self)@.jsons == old(self)@.jsons.push(name@),
    {
        let ghost before = self@.jsons;
        self.jsons.push(vstd::slice::slice_to_vec(name));
        proof {
            assert(self@.jsons =~~= before.push(name@));
        }
    }

    /// Whether the photograph for `name` is on disk.
    pub fn has_photo(&self, name: &[u8]) -> (r: bool)
        ensures
            r == self@.jpgs.contains(name@),
    {
        contains_name(&self.jpgs, name)
    }

    /// Whether the sidecar for `name` is on disk.
    pub fn has_json(&self, name: &[u8]) -> (r: bool)
        ensures
            r == self@.jsons.contains(name@),
    {
        contains_name(&self.jsons, name)
    }

    /// The basenames with a complete pair awaiting upload.
    pub fn pending(&self) -> (r: &Vec<Vec<u8>>)
        ensures
            r.deep_view() == self@.jsons,
    {
        &self.jsons
    }

    /// Removes the pair for `name` — after the backend accepted it.
    pub fn delete_pair(&mut self, name: &[u8])
        requires
            old(self).wf(),
        ensures
            final(self).wf(),
            final(self)@.jpgs == without_name(old(self)@.jpgs, name@),
            final(self)@.jsons == without_name(old(self)@.jsons, name@),
    {
        remove_name(&mut self.jpgs, name);
        remove_name(&mut self.jsons, name);
        proof {
            assert forall|i: int| 0 <= i < self@.jsons.len() implies self@.jpgs.contains(
                #[trigger] self@.jsons[i],
            ) by {
                let x = self@.jsons[i];
                lemma_without_name_membership(old(self)@.jsons, name@, x);
                assert(old(self)@.jsons.contains(x) && x != name@);
                lemma_without_name_membership(old(self)@.jpgs, name@, x);
            }
        }
    }
}

/// Every `.json` on disk has its `.jpg` beside it: the photograph is
/// written before the sidecar, and the pair leaves the disk together.
pub proof fn lemma_every_sidecar_has_photo(d: EvidenceDir, name: Seq<u8>)
    requires
        d.wf(),
        d@.jsons.contains(name),
    ensures
        d@.jpgs.contains(name),
{
    let i = choose|i: int| 0 <= i < d@.jsons.len() && d@.jsons[i] == name;
    assert(d@.jpgs.contains(d@.jsons[i]));
}

} // verus!
