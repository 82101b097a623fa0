//! The snapshot store: snapshots, filed under their addresses.

use vstd::prelude::*;
use crate::digest::Address;
use crate::error::{Integrity, Missing, StoreError};
use crate::snapshot::{address_of, is_snapshot, Snapshot, SnapshotView};

verus! {

pub open(crate) spec fn addresses_distinct(s: Seq<Snapshot>) -> bool {
    forall|i: int, j: int|
        0 <= i < s.len() && 0 <= j < s.len() && i != j ==> (#[trigger] s[i]).address@ != (
        #[trigger] s[j]).address@
}

pub open(crate) spec fn filed(s: Seq<Snapshot>, a: Seq<u8>) -> bool {
    exists|i: int| 0 <= i < s.len() && (#[trigger] s[i]).address@ == a
}

pub open(crate) spec fn file_of(s: Seq<Snapshot>, a: Seq<u8>) -> int {
    choose|i: int| 0 <= i < s.len() && (#[trigger] s[i]).address@ == a
}

pub open(crate) spec fn filed_snapshots(s: Seq<Snapshot>) -> Map<Seq<u8>, SnapshotView> {
    Map::new(|a: Seq<u8>| filed(s, a), |a: Seq<u8>| s[file_of(s, a)]@)
}

proof fn lemma_filed_at(s: Seq<Snapshot>, i: int)
    requires
        addresses_distinct(s),
        0 <= i < s.len(),
    ensures
        filed(s, s[i].address@),
        file_of(s, s[i].address@) == i,
        filed_snapshots(s).contains_key(s[i].address@),
        filed_snapshots(s)[s[i].address@] == s[i]@,
{
    assert(s[i].address@ == s[i].address@);
    let k = file_of(s, s[i].address@);
    assert(s[k].address@ == s[i].address@);
}

proof fn lemma_filed_pushed(s: Seq<Snapshot>, e: Snapshot)
    requires
        addresses_distinct(s),
        !filed(s, e.address@),
    ensures
        addresses_distinct(s.push(e)),
        filed_snapshots(s.push(e)) == filed_snapshots(s).insert(e.address@, e@),
{
    let t = s.push(e);
    assert forall|i: int, j: int| 0 <= i < t.len() && 0 <= j < t.len() && i != j implies (
    #[trigger] t[i]).address@ != (#[trigger] t[j]).address@ by {
        if i < s.len() && j < s.len() {
            assert(s[i].address@ != s[j].address@);
        } else if i < s.len() {
            assert(s[i].address@ == s[i].address@);
        } else {
            assert(s[j].address@ == s[j].address@);
        }
    }
    assert forall|a: Seq<u8>| #[trigger] filed_snapshots(t).contains_key(a) <==> filed_snapshots(
        s,
    ).insert(e.address@, e@).contains_key(a) by {
        if filed(t, a) {
            let k = file_of(t, a);
            if k < s.len() {
                assert(s[k].address@ == a);
            }
        }
        if a == e.address@ {
            assert(t[s.len() as int].address@ == a);
        } else if filed(s, a) {
            let k = file_of(s, a);
            assert(t[k].address@ == a);
        }
    }
    assert forall|a: Seq<u8>| #[trigger] filed_snapshots(t).contains_key(a) implies filed_snapshots(
        t,
    )[a] == filed_snapshots(s).insert(e.address@, e@)[a] by {
        let k = file_of(t, a);
        lemma_filed_at(t, k);
        if k < s.len() {
            assert(t[k] == s[k]);
            lemma_filed_at(s, k);
        }
    }
    assert(filed_snapshots(t) =~= filed_snapshots(s).insert(e.address@, e@));
}

/// What the store holds after the snapshot `v` is put into a store that
/// holds `m`, or `None` where the store holds another snapshot under the
/// address of `v`.
pub open spec fn file_into(m: Map<Seq<u8>, SnapshotView>, v: SnapshotView) -> Option<
    Map<Seq<u8>, SnapshotView>,
> {
    let a = address_of(v.root, v.nodes);
    if m.contains_key(a) && m[a] != v {
        None
    } else {
        Some(m.insert(a, v))
    }
}

/// Address-indexed storage for snapshots. A stored snapshot is never changed.
#[derive(Debug)]
pub struct SnapshotStore {
    pub(crate) snapshots: Vec<Snapshot>,
}

impl View for SnapshotStore {
    type V = Map<Seq<u8>, SnapshotView>;

    open(crate) spec fn view(&self) -> Map<Seq<u8>, SnapshotView> {
        filed_snapshots(self.snapshots@)
    }
}

impl SnapshotStore {
    /// Every snapshot is well formed and filed under its address, and no
    /// address occurs twice.
    pub open(crate) spec fn wf(&self) -> bool {
        &&& addresses_distinct(self.snapshots@)
        &&& forall|i: int| 0 <= i < self.snapshots@.len() ==> (#[trigger] self.snapshots@[i]).wf()
    }

    /// Every stored snapshot is a snapshot, filed under the address of what it is.
    pub proof fn lemma_filed_by_address(&self, a: Seq<u8>)
        requires
            self.wf(),
            self@.contains_key(a),
        ensures
            is_snapshot(self@[a]),
            a == address_of(self@[a].root, self@[a].nodes),
    {
        let k = file_of(self.snapshots@, a);
        lemma_filed_at(self.snapshots@, k);
        self.snapshots@[k].lemma_wf();
    }

    /// The empty store.
    pub fn new() -> (s: SnapshotStore)
        ensures
            s.wf(),
            s@ == Map::<Seq<u8>, SnapshotView>::empty(),
    {
        let s = SnapshotStore { snapshots: Vec::new() };
        assert(s@ =~= Map::<Seq<u8>, SnapshotView>::empty());
        s
    }

    fn find(&self, address: &Address) -> (r: Option<usize>)
        requires
            self.wf(),
        ensures
            r is Some == self@.contains_key(address@),
            r matches Some(i) ==> i < self.snapshots@.len() && self.snapshots@[i as int].address@
                == address@ && self@[address@] == self.snapshots@[i as int]@,
    {
        let mut i: usize = 0;
        while i < self.snapshots.len()
            invariant
                i <= self.snapshots@.len(),
                self.wf(),
                forall|k: int| 0 <= k < i ==> (#[trigger] self.snapshots@[k]).address@ != address@,
            decreases self.snapshots@.len() - i,
        {
            if self.snapshots[i].address.same(address) {
                proof {
                    lemma_filed_at(self.snapshots@, i as int);
                }
                return Some(i);
            }
            i += 1;
        }
        proof {
            if filed(self.snapshots@, address@) {
                let k = file_of(self.snapshots@, address@);
                assert(self.snapshots@[k].address@ == address@);
            }
        }
        None
    }

    /// Whether the store has a snapshot under `address`.
    pub fn contains(&self, address: &Address) -> (r: bool)
        requires
            self.wf(),
        ensures
            r == self@.contains_key(address@),
    {
        self.find(address).is_some()
    }

    /// The snapshot under `address`.
    pub fn get(&self, address: &Address) -> (r: Result<&Snapshot, StoreError>)
        requires
            self.wf(),
        ensures
            match r {
                Ok(s) => self@.contains_key(address@) && s@ == self@[address@] && s.wf()
                    && s.spec_address() == *address,
                Err(e) => !self@.contains_key(address@) && e == StoreError::NotFound(
                    Missing::Snapshot(*address),
                ),
            },
    {
        match self.find(address) {
            Some(i) => {
                proof {
                    Address::lemma_same(self.snapshots@[i as int].address, *address);
                }
                Ok(&self.snapshots[i])
            },
            None => Err(StoreError::NotFound(Missing::Snapshot(*address))),
        }
    }

    /// Files the snapshot under its address and returns the address. A
    /// snapshot that the store holds already is not stored again. Where the
    /// store holds another snapshot under that address, it is left as it is
    /// and the call fails.
    pub fn insert(&mut self, snapshot: Snapshot) -> (r: Result<Address, StoreError>)
        requires
            old(self).wf(),
            snapshot.wf(),
        ensures
            final(self).wf(),
            match r {
                Ok(a) => a == snapshot.spec_address() && file_into(old(self)@, snapshot@) == Some(
                    final(self)@,
                ),
                Err(e) => file_into(old(self)@, snapshot@) is None && e
                    == StoreError::IntegrityViolation(Integrity::HashCollision) && final(self)@
                    == old(self)@,
            },
    {
        let address = snapshot.address();
        proof {
            snapshot.lemma_wf();
        }
        match self.find(&address) {
            Some(i) => {
                if self.snapshots[i].same_as(&snapshot) {
                    proof {
                        assert(self@.insert(address@, snapshot@) =~= self@);
                    }
                    Ok(address)
                } else {
                    Err(StoreError::IntegrityViolation(Integrity::HashCollision))
                }
            },
            None => {
                let ghost before = self.snapshots@;
                proof {
                    lemma_filed_pushed(before, snapshot);
                }
                self.snapshots.push(snapshot);
                Ok(address)
            },
        }
    }
}

} // verus!
