//! Visibility: whether a stored record is seen from a standpoint, given the
//! change set that the record belongs to and whether it is deleted there.

use vstd::prelude::*;

verus! {

/// Key of a change set in the records.
pub type ChangeSetPk = i64;

/// The key that stands for no change set: the head.
pub const NO_CHANGE_SET_PK: ChangeSetPk = -1;

/// A point in time: whole seconds since the start of 1970 in UTC, and the
/// nanoseconds after them.
#[derive(Clone, Copy, Debug, PartialEq, Eq, Structural, Hash)]
pub struct Instant {
    pub secs: i64,
    pub nanos: u32,
}

/// The reading of the system clock, `std::time::SystemTime::now`, as chrono
/// turns it into a `DateTime<Utc>`, in seconds and nanoseconds. Nothing is
/// promised of the instant. The conversion takes a reading before 1970 as
/// well as one after it; chrono holds the instants within about 262,000
/// years of 1970.
#[verifier::external_body]
fn clock_now() -> Instant {
    let now = chrono::DateTime::<chrono::Utc>::from(std::time::SystemTime::now());
    Instant { secs: now.timestamp(), nanos: now.timestamp_subsec_nanos() }
}

/// Where a record stands: the change set that it belongs to, or the head,
/// and since when it is deleted there, if it is.
///
/// As a standpoint from which records are looked at, it names the change set
/// that is looked from, and a `deleted_at` in it asks for deleted records to
/// be seen as well.
#[derive(Clone, Copy, Debug, PartialEq, Eq)]
pub struct Visibility {
    pub change_set_pk: ChangeSetPk,
    pub deleted_at: Option<Instant>,
}

/// Whether a record is deleted and deleted records are not asked for.
pub open spec fn hidden_as_deleted(record: Visibility, include_deleted: bool) -> bool {
    record.deleted_at is Some && !include_deleted
}

/// Whether a record that stands at `record` is seen from the change set
/// `target`.
///
/// A record of the change set that is looked from is seen unless it is
/// deleted and deleted records are not asked for. A record of the head is
/// seen from a change set, under the same condition, where the change set has
/// no record of its own for the same thing (`overridden` says whether it
/// has). No other record is seen.
pub open spec fn visible(
    record: Visibility,
    target: ChangeSetPk,
    include_deleted: bool,
    overridden: bool,
) -> bool {
    if record.change_set_pk == target {
        !hidden_as_deleted(record, include_deleted)
    } else if record.change_set_pk == NO_CHANGE_SET_PK && !overridden {
        !hidden_as_deleted(record, include_deleted)
    } else {
        false
    }
}

impl Visibility {
    pub fn new(change_set_pk: ChangeSetPk, deleted_at: Option<Instant>) -> (v: Visibility)
        ensures
            v == (Visibility { change_set_pk, deleted_at }),
    {
        Visibility { change_set_pk, deleted_at }
    }

    /// A visibility on the head, deleted as of now if `deleted`.
    pub fn new_head(deleted: bool) -> (v: Visibility)
        ensures
            v.change_set_pk == NO_CHANGE_SET_PK,
            v.deleted_at is Some == deleted,
    {
        let deleted_at = if deleted {
            Some(clock_now())
        } else {
            None
        };
        Visibility::new(NO_CHANGE_SET_PK, deleted_at)
    }

    /// The same on the head: deleted as of now if this one is deleted.
    pub fn to_head(&self) -> (v: Visibility)
        ensures
            v.change_set_pk == NO_CHANGE_SET_PK,
            v.deleted_at is Some == self.deleted_at is Some,
    {
        Visibility::new_head(self.deleted_at.is_some())
    }

    /// Whether this is on the head: in no change set, deleted or not.
    pub fn is_head(&self) -> (r: bool)
        ensures
            r == (self.change_set_pk == NO_CHANGE_SET_PK),
    {
        self.change_set_pk == NO_CHANGE_SET_PK
    }

    /// A visibility in the change set, deleted as of now if `deleted`.
    pub fn new_change_set(change_set_pk: ChangeSetPk, deleted: bool) -> (v: Visibility)
        ensures
            v.change_set_pk == change_set_pk,
            v.deleted_at is Some == deleted,
    {
        let deleted_at = if deleted {
            Some(clock_now())
        } else {
            None
        };
        Visibility::new(change_set_pk, deleted_at)
    }

    /// The same in the same change set: deleted as of now if this one is deleted.
    pub fn to_change_set(&self) -> (v: Visibility)
        ensures
            v.change_set_pk == self.change_set_pk,
            v.deleted_at is Some == self.deleted_at is Some,
    {
        Visibility::new_change_set(self.change_set_pk, self.deleted_at.is_some())
    }

    /// Whether this is in a change set, and not on the head.
    pub fn in_change_set(&self) -> (r: bool)
        ensures
            r == (self.change_set_pk != NO_CHANGE_SET_PK),
    {
        self.change_set_pk != NO_CHANGE_SET_PK
    }

    /// Whether a record that stands here is seen from `check_visibility`.
    /// `overridden` says whether the change set that is looked from has a
    /// record of its own for the same thing.
    pub fn is_visible_to(&self, check_visibility: &Visibility, overridden: bool) -> (r: bool)
        ensures
            r == visible(
                *self,
                check_visibility.change_set_pk,
                check_visibility.deleted_at is Some,
                overridden,
            ),
    {
        let include_deleted = check_visibility.deleted_at.is_some();
        let shown = self.deleted_at.is_none() || include_deleted;
        if self.change_set_pk == check_visibility.change_set_pk {
            shown
        } else if self.change_set_pk == NO_CHANGE_SET_PK && !overridden {
            shown
        } else {
            false
        }
    }
}

/// A stored record of a thing, in a change set or on the head.
#[derive(Clone, Copy, Debug, PartialEq, Eq)]
pub struct Record {
    /// The thing that the record is of.
    pub id: u64,
    pub visibility: Visibility,
}

/// Whether the change set `target` has a record of its own for the thing `id`.
pub open spec fn overridden_in(records: Seq<Record>, id: u64, target: ChangeSetPk) -> bool {
    target != NO_CHANGE_SET_PK && exists|j: int|
        0 <= j < records.len() && (#[trigger] records[j]).id == id && records[j].visibility.change_set_pk
            == target
}

/// Whether the record at position `i` is a record of the thing `id` that is
/// seen from `standpoint`.
pub open spec fn seen_at(records: Seq<Record>, i: int, id: u64, standpoint: Visibility) -> bool {
    &&& 0 <= i < records.len()
    &&& records[i].id == id
    &&& visible(
        records[i].visibility,
        standpoint.change_set_pk,
        standpoint.deleted_at is Some,
        overridden_in(records, id, standpoint.change_set_pk),
    )
}

fn has_own_record(records: &Vec<Record>, id: u64, target: ChangeSetPk) -> (r: bool)
    ensures
        r == overridden_in(records@, id, target),
{
    if target == NO_CHANGE_SET_PK {
        return false;
    }
    let mut j: usize = 0;
    while j < records.len()
        invariant
            j <= records@.len(),
            target != NO_CHANGE_SET_PK,
            forall|k: int|
                0 <= k < j ==> !((#[trigger] records@[k]).id == id
                    && records@[k].visibility.change_set_pk == target),
        decreases records@.len() - j,
    {
        if records[j].id == id && records[j].visibility.change_set_pk == target {
            proof {
                let w = j as int;
                assert(records@[w].id == id && records@[w].visibility.change_set_pk == target);
            }
            return true;
        }
        j += 1;
    }
    proof {
        if overridden_in(records@, id, target) {
            let w = choose|w: int|
                0 <= w < records@.len() && (#[trigger] records@[w]).id == id
                    && records@[w].visibility.change_set_pk == target;
            assert(!(records@[w].id == id && records@[w].visibility.change_set_pk == target));
        }
    }
    false
}

/// The first record of the thing `id` that is seen from `standpoint`: the
/// record of the change set that is looked from, or else that of the head,
/// unless it is hidden as deleted.
pub fn visible_record(records: &Vec<Record>, id: u64, standpoint: &Visibility) -> (r: Option<usize>)
    ensures
        match r {
            Some(i) => seen_at(records@, i as int, id, *standpoint) && forall|k: int|
                0 <= k < i ==> !seen_at(records@, k, id, *standpoint),
            None => forall|k: int| !seen_at(records@, k, id, *standpoint),
        },
{
    let overridden = has_own_record(records, id, standpoint.change_set_pk);
    let mut i: usize = 0;
    while i < records.len()
        invariant
            i <= records@.len(),
            overridden == overridden_in(records@, id, standpoint.change_set_pk),
            forall|k: int| 0 <= k < i ==> !seen_at(records@, k, id, *standpoint),
        decreases records@.len() - i,
    {
        if records[i].id == id && records[i].visibility.is_visible_to(standpoint, overridden) {
            return Some(i);
        }
        i += 1;
    }
    None
}

/// A record that exists only in a change set is seen from that change set
/// and is not seen from the head.
pub proof fn branch_record_seen_only_in_branch(
    change_set_pk: ChangeSetPk,
    include_deleted: bool,
    overridden: bool,
)
    requires
        change_set_pk != NO_CHANGE_SET_PK,
    ensures
        visible(
            Visibility { change_set_pk, deleted_at: None },
            change_set_pk,
            include_deleted,
            overridden,
        ),
        !visible(
            Visibility { change_set_pk, deleted_at: None },
            NO_CHANGE_SET_PK,
            include_deleted,
            overridden,
        ),
{
}

/// A thing that the head has, and that a change set has marked deleted in a
/// record of its own, is not seen from the change set, is seen from the
/// change set where deleted records are asked for, and is seen from the head
/// as before.
pub proof fn tombstone_hides_in_branch_only(
    change_set_pk: ChangeSetPk,
    deleted_at: Instant,
    include_deleted: bool,
)
    requires
        change_set_pk != NO_CHANGE_SET_PK,
    ensures
        ({
            let on_head = Visibility { change_set_pk: NO_CHANGE_SET_PK, deleted_at: None };
            let tombstone = Visibility { change_set_pk, deleted_at: Some(deleted_at) };
            &&& !visible(tombstone, change_set_pk, false, true)
            &&& !visible(on_head, change_set_pk, false, true)
            &&& visible(tombstone, change_set_pk, true, true)
            &&& visible(on_head, NO_CHANGE_SET_PK, include_deleted, false)
            &&& !visible(tombstone, NO_CHANGE_SET_PK, include_deleted, false)
        }),
{
}

/// The records of things, one at most for each thing in each change set
/// and on the head.
#[derive(Clone, Debug)]
pub struct RecordSet {
    pub(crate) records: Vec<Record>,
}

/// No two records are of the same thing in the same change set.
pub open spec fn one_each(s: Seq<Record>) -> bool {
    forall|i: int, j: int|
        0 <= i < s.len() && 0 <= j < s.len() && i != j ==> !((#[trigger] s[i]).id == (
        #[trigger] s[j]).id && s[i].visibility.change_set_pk == s[j].visibility.change_set_pk)
}

pub open spec fn recorded(s: Seq<Record>, id: u64, change_set_pk: ChangeSetPk) -> bool {
    exists|i: int|
        0 <= i < s.len() && (#[trigger] s[i]).id == id && s[i].visibility.change_set_pk
            == change_set_pk
}

pub open spec fn record_of(s: Seq<Record>, id: u64, change_set_pk: ChangeSetPk) -> int {
    choose|i: int|
        0 <= i < s.len() && (#[trigger] s[i]).id == id && s[i].visibility.change_set_pk
            == change_set_pk
}

/// For each thing and change set that has a record, since when the thing
/// is deleted there, if it is.
pub open spec fn deletions(s: Seq<Record>) -> Map<(u64, ChangeSetPk), Option<Instant>> {
    Map::new(
        |k: (u64, ChangeSetPk)| recorded(s, k.0, k.1),
        |k: (u64, ChangeSetPk)| s[record_of(s, k.0, k.1)].visibility.deleted_at,
    )
}

/// Where the thing `id` is seen from the change set `target`: in the
/// record of that change set, or else in the record of the head; nowhere,
/// where the record that counts is hidden as deleted.
pub open spec fn seen_in(
    m: Map<(u64, ChangeSetPk), Option<Instant>>,
    id: u64,
    target: ChangeSetPk,
    include_deleted: bool,
) -> Option<Visibility> {
    let own = Visibility { change_set_pk: target, deleted_at: m[(id, target)] };
    let on_head = Visibility {
        change_set_pk: NO_CHANGE_SET_PK,
        deleted_at: m[(id, NO_CHANGE_SET_PK)],
    };
    if m.contains_key((id, target)) {
        if visible(own, target, include_deleted, true) {
            Some(own)
        } else {
            None
        }
    } else if m.contains_key((id, NO_CHANGE_SET_PK)) && visible(
        on_head,
        target,
        include_deleted,
        false,
    ) {
        Some(on_head)
    } else {
        None
    }
}

/// A thing that a change set has marked deleted stays out of sight from that
/// change set, whatever is recorded of other things or in other change
/// sets, the head among them; and it is back in sight as soon as the change
/// set itself records it as not deleted.
pub proof fn tombstone_persists_in_its_branch(
    m: Map<(u64, ChangeSetPk), Option<Instant>>,
    id: u64,
    change_set_pk: ChangeSetPk,
    other_id: u64,
    other_change_set_pk: ChangeSetPk,
    other_deleted_at: Option<Instant>,
)
    requires
        m.contains_key((id, change_set_pk)),
        m[(id, change_set_pk)] is Some,
    ensures
        seen_in(m, id, change_set_pk, false) is None,
        (other_id, other_change_set_pk) != (id, change_set_pk) ==> seen_in(
            m.insert((other_id, other_change_set_pk), other_deleted_at),
            id,
            change_set_pk,
            false,
        ) is None,
        seen_in(m.insert((id, change_set_pk), None), id, change_set_pk, false) == Some(
            Visibility { change_set_pk, deleted_at: None },
        ),
{
}

proof fn lemma_record_at(s: Seq<Record>, i: int)
    requires
        one_each(s),
        0 <= i < s.len(),
    ensures
        recorded(s, s[i].id, s[i].visibility.change_set_pk),
        record_of(s, s[i].id, s[i].visibility.change_set_pk) == i,
        deletions(s)[(s[i].id, s[i].visibility.change_set_pk)] == s[i].visibility.deleted_at,
{
    assert(s[i].id == s[i].id);
    let k = record_of(s, s[i].id, s[i].visibility.change_set_pk);
    assert(s[k].id == s[i].id && s[k].visibility.change_set_pk == s[i].visibility.change_set_pk);
}

impl View for RecordSet {
    type V = Map<(u64, ChangeSetPk), Option<Instant>>;

    open(crate) spec fn view(&self) -> Map<(u64, ChangeSetPk), Option<Instant>> {
        deletions(self.records@)
    }
}

impl RecordSet {
    pub open(crate) spec fn wf(&self) -> bool {
        one_each(self.records@)
    }

    /// No records.
    pub fn new() -> (r: RecordSet)
        ensures
            r.wf(),
            r@ == Map::<(u64, ChangeSetPk), Option<Instant>>::empty(),
            r.spec_len() == 0,
    {
        let r = RecordSet { records: Vec::new() };
        assert(r@ =~= Map::<(u64, ChangeSetPk), Option<Instant>>::empty());
        r
    }

    fn find(&self, id: u64, change_set_pk: ChangeSetPk) -> (r: Option<usize>)
        requires
            self.wf(),
        ensures
            r is Some == self@.contains_key((id, change_set_pk)),
            r matches Some(i) ==> i < self.records@.len() && self.records@[i as int].id == id
                && self.records@[i as int].visibility.change_set_pk == change_set_pk
                && self.records@[i as int].visibility.deleted_at == self@[(id, change_set_pk)],
    {
        let mut i: usize = 0;
        while i < self.records.len()
            invariant
                i <= self.records@.len(),
                self.wf(),
                forall|k: int|
                    0 <= k < i ==> !((#[trigger] self.records@[k]).id == id
                        && self.records@[k].visibility.change_set_pk == change_set_pk),
            decreases self.records@.len() - i,
        {
            if self.records[i].id == id && self.records[i].visibility.change_set_pk
                == change_set_pk {
                proof {
                    lemma_record_at(self.records@, i as int);
                }
                return Some(i);
            }
            i += 1;
        }
        proof {
            if recorded(self.records@, id, change_set_pk) {
                let k = record_of(self.records@, id, change_set_pk);
                assert(!(self.records@[k].id == id && self.records@[k].visibility.change_set_pk
                    == change_set_pk));
            }
        }
        None
    }

    /// Records where the thing `id` stands in the change set of
    /// `visibility`, or on the head: deleted since the given time, or not
    /// deleted. A record that the change set has of the thing is replaced.
    pub fn put(&mut self, id: u64, visibility: Visibility)
        requires
            old(self).wf(),
        ensures
            final(self).wf(),
            final(self)@ == old(self)@.insert(
                (id, visibility.change_set_pk),
                visibility.deleted_at,
            ),
    {
        let ghost before = self.records@;
        let record = Record { id, visibility };
        match self.find(id, visibility.change_set_pk) {
            Some(i) => {
                self.records[i] = record;
                proof {
                    let after = self.records@;
                    assert forall|a: int, b: int|
                        0 <= a < after.len() && 0 <= b < after.len() && a != b implies !((
                    #[trigger] after[a]).id == (#[trigger] after[b]).id
                        && after[a].visibility.change_set_pk
                        == after[b].visibility.change_set_pk) by {
                        assert(before[a].id == after[a].id && before[a].visibility.change_set_pk
                            == after[a].visibility.change_set_pk);
                        assert(before[b].id == after[b].id && before[b].visibility.change_set_pk
                            == after[b].visibility.change_set_pk);
                    }
                    assert forall|k: (u64, ChangeSetPk)| #[trigger]
                        deletions(after).contains_key(k) <==> deletions(before).insert(
                            (id, visibility.change_set_pk),
                            visibility.deleted_at,
                        ).contains_key(k) by {
                        if recorded(after, k.0, k.1) {
                            let w = record_of(after, k.0, k.1);
                            assert(before[w].id == k.0 && before[w].visibility.change_set_pk
                                == k.1);
                        }
                        if recorded(before, k.0, k.1) {
                            let w = record_of(before, k.0, k.1);
                            assert(after[w].id == k.0 && after[w].visibility.change_set_pk == k.1);
                        }
                    }
                    assert forall|k: (u64, ChangeSetPk)| #[trigger]
                        deletions(after).contains_key(k) implies deletions(after)[k] == deletions(
                        before,
                    ).insert((id, visibility.change_set_pk), visibility.deleted_at)[k] by {
                        let w = record_of(after, k.0, k.1);
                        lemma_record_at(after, w);
                        if w != i {
                            assert(after[w] == before[w]);
                            lemma_record_at(before, w);
                        }
                    }
                    assert(deletions(after) =~= deletions(before).insert(
                        (id, visibility.change_set_pk),
                        visibility.deleted_at,
                    ));
                }
            },
            None => {
                self.records.push(record);
                proof {
                    let after = self.records@;
                    assert forall|a: int, b: int|
                        0 <= a < after.len() && 0 <= b < after.len() && a != b implies !((
                    #[trigger] after[a]).id == (#[trigger] after[b]).id
                        && after[a].visibility.change_set_pk
                        == after[b].visibility.change_set_pk) by {
                        if a < before.len() && b < before.len() {
                            assert(before[a].id == after[a].id);
                            assert(before[b].id == after[b].id);
                        } else if a < before.len() {
                            assert(before[a].id == after[a].id);
                        } else {
                            assert(before[b].id == after[b].id);
                        }
                    }
                    assert forall|k: (u64, ChangeSetPk)| #[trigger]
                        deletions(after).contains_key(k) <==> deletions(before).insert(
                            (id, visibility.change_set_pk),
                            visibility.deleted_at,
                        ).contains_key(k) by {
                        if recorded(after, k.0, k.1) {
                            let w = record_of(after, k.0, k.1);
                            if w < before.len() {
                                assert(before[w].id == k.0 && before[w].visibility.change_set_pk
                                    == k.1);
                            }
                        }
                        if recorded(before, k.0, k.1) {
                            let w = record_of(before, k.0, k.1);
                            assert(after[w].id == k.0 && after[w].visibility.change_set_pk == k.1);
                        }
                        if k == (id, visibility.change_set_pk) {
                            assert(after[before.len() as int].id == id);
                        }
                    }
                    assert forall|k: (u64, ChangeSetPk)| #[trigger]
                        deletions(after).contains_key(k) implies deletions(after)[k] == deletions(
                        before,
                    ).insert((id, visibility.change_set_pk), visibility.deleted_at)[k] by {
                        let w = record_of(after, k.0, k.1);
                        lemma_record_at(after, w);
                        if w < before.len() {
                            assert(after[w] == before[w]);
                            lemma_record_at(before, w);
                        }
                    }
                    assert(deletions(after) =~= deletions(before).insert(
                        (id, visibility.change_set_pk),
                        visibility.deleted_at,
                    ));
                }
            },
        }
    }

    /// Where the thing `id` is seen from `standpoint`, if it is seen.
    pub fn seen(&self, id: u64, standpoint: &Visibility) -> (r: Option<Visibility>)
        requires
            self.wf(),
        ensures
            r == seen_in(self@, id, standpoint.change_set_pk, standpoint.deleted_at is Some),
    {
        match self.find(id, standpoint.change_set_pk) {
            Some(i) => {
                let own = self.records[i].visibility;
                if own.is_visible_to(standpoint, true) {
                    Some(own)
                } else {
                    None
                }
            },
            None => match self.find(id, NO_CHANGE_SET_PK) {
                Some(i) => {
                    let on_head = self.records[i].visibility;
                    if on_head.is_visible_to(standpoint, false) {
                        Some(on_head)
                    } else {
                        None
                    }
                },
                None => None,
            },
        }
    }

    /// Number of records.
    pub fn len(&self) -> (n: usize)
        ensures
            n == self.spec_len(),
    {
        self.records.len()
    }

    pub open(crate) spec fn spec_len(&self) -> nat {
        self.records@.len()
    }
}

} // verus!
