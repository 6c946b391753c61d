use gen_hash::storage::{Storage, REFCOUNT_1};

#[test]
fn new_reference_counted_starts_at_min() {
    let s = Storage::new_reference_counted();
    assert!(matches!(s, Storage::ReferenceCounted(isize::MIN)));
    assert_eq!(REFCOUNT_1, isize::MIN);
    assert!(!s.is_readonly());
}

#[test]
fn increment_leaves_readonly_alone() {
    let mut s = Storage::Readonly;
    s.increment_reference_count();
    assert!(s.is_readonly());
}

#[test]
fn increment_counts_up_from_min() {
    let mut s = Storage::new_reference_counted();
    s.increment_reference_count();
    assert!(matches!(s, Storage::ReferenceCounted(rc) if rc == isize::MIN + 1));
    s.increment_reference_count();
    assert!(matches!(s, Storage::ReferenceCounted(rc) if rc == isize::MIN + 2));
}

#[test]
fn increment_to_zero_turns_readonly() {
    let mut s = Storage::ReferenceCounted(-1);
    s.increment_reference_count();
    assert!(s.is_readonly());
}

#[test]
fn increment_of_positive_count_stays_counted() {
    let mut s = Storage::ReferenceCounted(41);
    s.increment_reference_count();
    assert!(matches!(s, Storage::ReferenceCounted(42)));
}

#[test]
fn decrease_of_readonly_is_false() {
    let mut s = Storage::Readonly;
    assert!(!s.decrease());
    assert!(s.is_readonly());
}

#[test]
fn decrease_of_last_reference_is_true() {
    let mut s = Storage::new_reference_counted();
    assert!(s.decrease());
    assert!(matches!(s, Storage::ReferenceCounted(isize::MIN)));
}

#[test]
fn decrease_counts_down() {
    let mut s = Storage::new_reference_counted();
    s.increment_reference_count();
    s.increment_reference_count();
    assert!(!s.decrease());
    assert!(matches!(s, Storage::ReferenceCounted(rc) if rc == isize::MIN + 1));
    assert!(!s.decrease());
    assert!(matches!(s, Storage::ReferenceCounted(isize::MIN)));
    assert!(s.decrease());
}

#[test]
fn increment_then_decrease_gives_back_the_count() {
    let mut s = Storage::ReferenceCounted(-7);
    s.increment_reference_count();
    assert!(!s.decrease());
    assert!(matches!(s, Storage::ReferenceCounted(-7)));
}

#[test]
fn is_readonly_tells_the_variants_apart() {
    assert!(Storage::Readonly.is_readonly());
    assert!(!Storage::ReferenceCounted(5).is_readonly());
}
