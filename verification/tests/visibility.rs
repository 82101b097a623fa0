use changeset_core::visibility::{
    visible_record, Instant, Record, RecordSet, Visibility, NO_CHANGE_SET_PK,
};

const C: i64 = 7;

fn at() -> Instant {
    Instant { secs: 1_700_000_000, nanos: 5 }
}

#[test]
fn head_is_the_absence_of_a_change_set() {
    assert_eq!(NO_CHANGE_SET_PK, -1);
    let head = Visibility::new_head(false);
    assert_eq!(head, Visibility { change_set_pk: -1, deleted_at: None });
    assert!(head.is_head());
    assert!(!head.in_change_set());
    let branch = Visibility::new_change_set(C, false);
    assert_eq!(branch, Visibility::new(C, None));
    assert!(!branch.is_head());
    assert!(branch.in_change_set());
    let tomb = Visibility::new(C, Some(at()));
    assert!(!tomb.is_head());
    assert!(tomb.in_change_set());
    assert!(Visibility::new(NO_CHANGE_SET_PK, Some(at())).is_head());
}

#[test]
fn deleted_visibilities_carry_the_time_of_the_clock() {
    let deleted = Visibility::new_head(true);
    assert_eq!(deleted.change_set_pk, NO_CHANGE_SET_PK);
    assert!(deleted.is_head());
    assert!(!deleted.in_change_set());
    let stamp = deleted.deleted_at.unwrap();
    // later than the start of 2020, and a whole number of nanoseconds
    assert!(stamp.secs > 1_577_836_800);
    assert!(stamp.nanos < 2_000_000_000);
    let in_branch = Visibility::new_change_set(C, true);
    assert_eq!(in_branch.change_set_pk, C);
    assert!(in_branch.deleted_at.unwrap().secs >= stamp.secs);
}

#[test]
fn conversions_keep_the_deletion() {
    let tomb = Visibility::new(C, Some(at()));
    assert_eq!(tomb.to_head().change_set_pk, NO_CHANGE_SET_PK);
    assert!(tomb.to_head().deleted_at.is_some());
    assert_eq!(tomb.to_change_set().change_set_pk, C);
    assert!(tomb.to_change_set().deleted_at.is_some());
    let live = Visibility::new(C, None);
    assert_eq!(live.to_head(), Visibility::new(NO_CHANGE_SET_PK, None));
    assert_eq!(live.to_change_set(), live);
}

#[test]
fn a_record_of_a_branch_is_seen_in_the_branch_only() {
    let record = Visibility::new(C, None);
    let from_branch = Visibility::new(C, None);
    let from_head = Visibility::new(NO_CHANGE_SET_PK, None);
    let from_other = Visibility::new(C + 1, None);
    assert!(record.is_visible_to(&from_branch, false));
    assert!(record.is_visible_to(&from_branch, true));
    assert!(!record.is_visible_to(&from_head, false));
    assert!(!record.is_visible_to(&from_other, false));
}

#[test]
fn a_record_of_the_head_shows_through_unless_overridden() {
    let record = Visibility::new(NO_CHANGE_SET_PK, None);
    let from_branch = Visibility::new(C, None);
    assert!(record.is_visible_to(&from_branch, false));
    assert!(!record.is_visible_to(&from_branch, true));
    let deleted_on_head = Visibility::new(NO_CHANGE_SET_PK, Some(at()));
    assert!(!deleted_on_head.is_visible_to(&from_branch, false));
    let with_deleted = Visibility::new(C, Some(at()));
    assert!(deleted_on_head.is_visible_to(&with_deleted, false));
}

#[test]
fn a_tombstone_in_a_branch_masks_the_head_record_there_only() {
    let a: u64 = 1;
    let records = vec![
        Record { id: a, visibility: Visibility::new(NO_CHANGE_SET_PK, None) },
        Record { id: a, visibility: Visibility::new(C, Some(at())) },
        Record { id: 2, visibility: Visibility::new(NO_CHANGE_SET_PK, None) },
    ];
    // from the branch, deleted records not asked for: invisible
    assert_eq!(visible_record(&records, a, &Visibility::new(C, None)), None);
    // from the head: visible, deleted asked for or not
    assert_eq!(visible_record(&records, a, &Visibility::new(NO_CHANGE_SET_PK, None)), Some(0));
    assert_eq!(
        visible_record(&records, a, &Visibility::new(NO_CHANGE_SET_PK, Some(at()))),
        Some(0)
    );
    // from the branch, deleted records asked for: the tombstone itself
    assert_eq!(visible_record(&records, a, &Visibility::new(C, Some(at()))), Some(1));
    // what the branch did not touch is seen as on the head
    assert_eq!(visible_record(&records, 2, &Visibility::new(C, None)), Some(2));
    assert_eq!(visible_record(&records, 3, &Visibility::new(C, None)), None);
}

#[test]
fn a_record_made_in_a_branch_is_not_on_the_head() {
    let records = vec![Record { id: 9, visibility: Visibility::new(C, None) }];
    assert_eq!(visible_record(&records, 9, &Visibility::new(C, None)), Some(0));
    assert_eq!(visible_record(&records, 9, &Visibility::new(NO_CHANGE_SET_PK, None)), None);
    assert_eq!(visible_record(&records, 9, &Visibility::new(C + 1, None)), None);
}

#[test]
fn a_tombstone_persists_until_its_own_branch_clears_it() {
    let a: u64 = 1;
    let from_branch = Visibility::new(C, None);
    let from_head = Visibility::new(NO_CHANGE_SET_PK, None);
    let mut records = RecordSet::new();
    records.put(a, Visibility::new(NO_CHANGE_SET_PK, None));
    assert_eq!(records.seen(a, &from_branch), Some(Visibility::new(NO_CHANGE_SET_PK, None)));
    records.put(a, Visibility::new(C, Some(at())));
    assert_eq!(records.len(), 2);
    assert_eq!(records.seen(a, &from_branch), None);
    assert_eq!(records.seen(a, &from_head), Some(Visibility::new(NO_CHANGE_SET_PK, None)));
    assert_eq!(
        records.seen(a, &Visibility::new(C, Some(at()))),
        Some(Visibility::new(C, Some(at())))
    );
    // edits elsewhere do not bring it back
    records.put(a, Visibility::new(C + 1, None));
    records.put(2, Visibility::new(C, None));
    records.put(a, Visibility::new(NO_CHANGE_SET_PK, None));
    assert_eq!(records.seen(a, &from_branch), None);
    // an edit in the same change set does
    records.put(a, Visibility::new(C, None));
    assert_eq!(records.len(), 4);
    assert_eq!(records.seen(a, &from_branch), Some(Visibility::new(C, None)));
    // the head can delete its own record without touching the branch
    records.put(a, Visibility::new(NO_CHANGE_SET_PK, Some(at())));
    assert_eq!(records.seen(a, &from_head), None);
    assert_eq!(records.seen(a, &from_branch), Some(Visibility::new(C, None)));
    assert_eq!(records.seen(3, &from_branch), None);
}
