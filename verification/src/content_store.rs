//! The content store: immutable payloads, filed under the hash of their
//! canonical bytes.

use vstd::prelude::*;
use crate::content::{content_hash_of, ContentEnvelope, EnvelopeView};
use crate::content_codec::read_envelope;
use crate::digest::ContentHash;
use crate::error::{Integrity, Missing, StoreError};

verus! {

/// A payload with the hash that it is filed under.
#[derive(Debug)]
pub struct StoredContent {
    pub(crate) hash: ContentHash,
    pub(crate) envelope: ContentEnvelope,
}

/// What the store holds after `p` is put into a store that holds `m`, or
/// `None` where the store holds another payload under the hash of `p`.
pub open spec fn put_into(m: Map<Seq<u8>, EnvelopeView>, p: EnvelopeView) -> Option<
    Map<Seq<u8>, EnvelopeView>,
> {
    if m.contains_key(content_hash_of(p)) && m[content_hash_of(p)] != p {
        None
    } else {
        Some(m.insert(content_hash_of(p), p))
    }
}

/// The payload that a store that holds `m` has under the hash `h`.
pub open spec fn get_from(m: Map<Seq<u8>, EnvelopeView>, h: Seq<u8>) -> Option<EnvelopeView> {
    if m.contains_key(h) {
        Some(m[h])
    } else {
        None
    }
}

/// What was put into the store is what the store hands back under the hash
/// of the payload; and to put it a second time changes nothing.
pub proof fn put_then_get(m: Map<Seq<u8>, EnvelopeView>, p: EnvelopeView)
    requires
        put_into(m, p) is Some,
    ensures
        get_from(put_into(m, p)->0, content_hash_of(p)) == Some(p),
        put_into(put_into(m, p)->0, p) == Some(put_into(m, p)->0),
{
    let m2 = m.insert(content_hash_of(p), p);
    assert(m2.insert(content_hash_of(p), p) =~= m2);
}

pub open(crate) spec fn hashes_distinct(s: Seq<StoredContent>) -> bool {
    forall|i: int, j: int|
        0 <= i < s.len() && 0 <= j < s.len() && i != j ==> (#[trigger] s[i]).hash@ != (
        #[trigger] s[j]).hash@
}

pub open(crate) spec fn entries_wf(s: Seq<StoredContent>) -> bool {
    &&& hashes_distinct(s)
    &&& forall|i: int|
        0 <= i < s.len() ==> (#[trigger] s[i]).envelope.wf() && s[i].hash@ == content_hash_of(
            s[i].envelope@,
        )
}

pub open(crate) spec fn holds(s: Seq<StoredContent>, h: Seq<u8>) -> bool {
    exists|i: int| 0 <= i < s.len() && (#[trigger] s[i]).hash@ == h
}

pub open(crate) spec fn place_of(s: Seq<StoredContent>, h: Seq<u8>) -> int {
    choose|i: int| 0 <= i < s.len() && (#[trigger] s[i]).hash@ == h
}

pub open(crate) spec fn contents(s: Seq<StoredContent>) -> Map<Seq<u8>, EnvelopeView> {
    Map::new(|h: Seq<u8>| holds(s, h), |h: Seq<u8>| s[place_of(s, h)].envelope@)
}

proof fn lemma_entry_at(s: Seq<StoredContent>, i: int)
    requires
        hashes_distinct(s),
        0 <= i < s.len(),
    ensures
        holds(s, s[i].hash@),
        place_of(s, s[i].hash@) == i,
        contents(s).contains_key(s[i].hash@),
        contents(s)[s[i].hash@] == s[i].envelope@,
{
    assert(s[i].hash@ == s[i].hash@);
    let k = place_of(s, s[i].hash@);
    assert(s[k].hash@ == s[i].hash@);
}

proof fn lemma_entry_pushed(s: Seq<StoredContent>, e: StoredContent)
    requires
        hashes_distinct(s),
        !holds(s, e.hash@),
    ensures
        hashes_distinct(s.push(e)),
        contents(s.push(e)) == contents(s).insert(e.hash@, e.envelope@),
{
    let t = s.push(e);
    assert forall|i: int, j: int| 0 <= i < t.len() && 0 <= j < t.len() && i != j implies (
    #[trigger] t[i]).hash@ != (#[trigger] t[j]).hash@ by {
        if i < s.len() && j < s.len() {
            assert(s[i].hash@ != s[j].hash@);
        } else if i < s.len() {
            assert(s[i].hash@ == s[i].hash@);
        } else {
            assert(s[j].hash@ == s[j].hash@);
        }
    }
    assert forall|h: Seq<u8>| #[trigger] contents(t).contains_key(h) <==> contents(s).insert(
        e.hash@,
        e.envelope@,
    ).contains_key(h) by {
        if holds(t, h) {
            let k = place_of(t, h);
            if k < s.len() {
                assert(s[k].hash@ == h);
            }
        }
        if h == e.hash@ {
            assert(t[s.len() as int].hash@ == h);
        } else if holds(s, h) {
            let k = place_of(s, h);
            assert(t[k].hash@ == h);
        }
    }
    assert forall|h: Seq<u8>| #[trigger] contents(t).contains_key(h) implies contents(t)[h]
        == contents(s).insert(e.hash@, e.envelope@)[h] by {
        let k = place_of(t, h);
        lemma_entry_at(t, k);
        if k < s.len() {
            assert(t[k] == s[k]);
            lemma_entry_at(s, k);
        }
    }
    assert(contents(t) =~= contents(s).insert(e.hash@, e.envelope@));
}

/// Hash-addressed storage for payloads. Nothing in it is ever changed or removed.
#[derive(Debug)]
pub struct ContentStore {
    pub(crate) entries: Vec<StoredContent>,
}

impl View for ContentStore {
    type V = Map<Seq<u8>, EnvelopeView>;

    open(crate) spec fn view(&self) -> Map<Seq<u8>, EnvelopeView> {
        contents(self.entries@)
    }
}

impl ContentStore {
    /// Every payload is filed under the hash of its canonical bytes, and no
    /// hash occurs twice.
    pub open(crate) spec fn wf(&self) -> bool {
        entries_wf(self.entries@)
    }

    /// Number of stored payloads.
    pub open(crate) spec fn spec_len(&self) -> nat {
        self.entries@.len()
    }

    /// Every payload is filed under the hash of what it is.
    pub proof fn filed_under_own_hash(&self, h: Seq<u8>)
        requires
            self.wf(),
            self@.contains_key(h),
        ensures
            h == content_hash_of(self@[h]),
    {
        let k = place_of(self.entries@, h);
        lemma_entry_at(self.entries@, k);
    }

    /// The empty store.
    pub fn new() -> (s: ContentStore)
        ensures
            s.wf(),
            s@ == Map::<Seq<u8>, EnvelopeView>::empty(),
            s.spec_len() == 0,
    {
        let s = ContentStore { entries: Vec::new() };
        assert(s@ =~= Map::<Seq<u8>, EnvelopeView>::empty());
        s
    }

    pub fn len(&self) -> (n: usize)
        ensures
            n == self.spec_len(),
    {
        self.entries.len()
    }

    fn find(&self, hash: &ContentHash) -> (r: Option<usize>)
        requires
            self.wf(),
        ensures
            r is Some == self@.contains_key(hash@),
            r matches Some(i) ==> i < self.entries@.len() && self.entries@[i as int].hash@ == hash@
                && self@[hash@] == self.entries@[i as int].envelope@,
    {
        let mut i: usize = 0;
        while i < self.entries.len()
            invariant
                i <= self.entries@.len(),
                self.wf(),
                forall|k: int| 0 <= k < i ==> (#[trigger] self.entries@[k]).hash@ != hash@,
            decreases self.entries@.len() - i,
        {
            if self.entries[i].hash.same(hash) {
                proof {
                    lemma_entry_at(self.entries@, i as int);
                }
                return Some(i);
            }
            i += 1;
        }
        proof {
            if holds(self.entries@, hash@) {
                let k = place_of(self.entries@, hash@);
                assert(self.entries@[k].hash@ == hash@);
            }
        }
        None
    }

    /// Whether the store has a payload under `hash`.
    pub fn contains(&self, hash: &ContentHash) -> (r: bool)
        requires
            self.wf(),
        ensures
            r == self@.contains_key(hash@),
    {
        self.find(hash).is_some()
    }

    /// The payload under `hash`.
    pub fn get(&self, hash: &ContentHash) -> (r: Result<&ContentEnvelope, StoreError>)
        requires
            self.wf(),
        ensures
            match r {
                Ok(e) => get_from(self@, hash@) == Some(e@) && e.wf(),
                Err(err) => get_from(self@, hash@) is None && err == StoreError::NotFound(
                    Missing::Content(*hash),
                ),
            },
    {
        match self.find(hash) {
            Some(i) => Ok(&self.entries[i].envelope),
            None => Err(StoreError::NotFound(Missing::Content(*hash))),
        }
    }

    /// Files the payload under the hash of its canonical bytes and returns
    /// the hash. A payload that the store holds already is not stored again.
    /// Where the store holds another payload under that hash, it is left as
    /// it is and the call fails.
    pub fn put(&mut self, envelope: ContentEnvelope) -> (r: Result<ContentHash, StoreError>)
        requires
            old(self).wf(),
            envelope.wf(),
        ensures
            final(self).wf(),
            match r {
                Ok(h) => {
                    &&& h@ == content_hash_of(envelope@)
                    &&& put_into(old(self)@, envelope@) == Some(final(self)@)
                    &&& final(self).spec_len() == old(self).spec_len() + if old(
                        self,
                    )@.contains_key(h@) {
                        0nat
                    } else {
                        1nat
                    }
                },
                Err(e) => {
                    &&& put_into(old(self)@, envelope@) is None
                    &&& e == StoreError::IntegrityViolation(Integrity::HashCollision)
                    &&& final(self)@ == old(self)@
                    &&& final(self).spec_len() == old(self).spec_len()
                },
            },
    {
        let hash = envelope.hash();
        match self.find(&hash) {
            Some(i) => {
                if self.entries[i].envelope.same_as(&envelope) {
                    proof {
                        assert(self@.insert(hash@, envelope@) =~= self@);
                    }
                    Ok(hash)
                } else {
                    Err(StoreError::IntegrityViolation(Integrity::HashCollision))
                }
            },
            None => {
                let ghost before = self.entries@;
                let entry = StoredContent { hash, envelope };
                proof {
                    lemma_entry_pushed(before, entry);
                }
                self.entries.push(entry);
                Ok(hash)
            },
        }
    }

    /// Takes in a payload as the bytes that were kept under `hash`. The
    /// bytes must stand for a payload, and `hash` must be the hash of that
    /// payload; then the payload is filed as by `put`. Where the call fails,
    /// the store is as it was.
    pub fn load(&mut self, hash: &ContentHash, bytes: &[u8]) -> (r: Result<(), StoreError>)
        requires
            old(self).wf(),
        ensures
            final(self).wf(),
            r is Err ==> final(self)@ == old(self)@,
            match read_envelope(bytes@) {
                Err(s) => r == Err::<(), StoreError>(StoreError::SerializationError(s)),
                Ok(v) => if hash@ != content_hash_of(v) {
                    r == Err::<(), StoreError>(StoreError::IntegrityViolation(Integrity::HashMismatch))
                } else if put_into(old(self)@, v) is None {
                    r == Err::<(), StoreError>(
                        StoreError::IntegrityViolation(Integrity::HashCollision),
                    )
                } else {
                    r is Ok && put_into(old(self)@, v) == Some(final(self)@)
                },
            },
    {
        let envelope = match ContentEnvelope::decode(bytes) {
            Ok(e) => e,
            Err(e) => {
                return Err(e);
            },
        };
        let found = envelope.hash();
        if !found.same(hash) {
            return Err(StoreError::IntegrityViolation(Integrity::HashMismatch));
        }
        match self.put(envelope) {
            Ok(_) => Ok(()),
            Err(e) => Err(e),
        }
    }
}

} // verus!
