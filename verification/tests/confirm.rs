//! Deletions of pinned entries are asked for twice.

use niri_clip::confirm::{clear, decide, pending_id, request, Decision, PENDING_TTL_MS};
use niri_clip::store::{get, insert, toggle_pin, Store, StoreError};

const NOW: u128 = 1_700_000_000_000;

fn seed(s: &mut Store, text: &str) -> i64 {
    insert(s, text.to_string(), None, None, 1).unwrap();
    s.rows.iter().find(|r| r.text == text).expect("seeded").id
}

fn seed_pinned(s: &mut Store, text: &str) -> i64 {
    let id = seed(s, text);
    toggle_pin(s, id).unwrap();
    id
}

#[test]
fn non_pinned_deletes_immediately_and_clears_pending() {
    let mut s = Store::new();
    let id = seed(&mut s, "confirm-plain");
    let mut file = Some(format!("{} {}", id, NOW));
    assert_eq!(request(&mut s, &mut file, id, NOW).unwrap(), Decision::Deleted);
    assert!(get(&s, id).is_err());
    assert_eq!(pending_id(&mut file, NOW), None);
}

#[test]
fn pinned_needs_two_requests() {
    let mut s = Store::new();
    let mut file = None;
    let id = seed_pinned(&mut s, "confirm-star");
    assert_eq!(request(&mut s, &mut file, id, NOW).unwrap(), Decision::Pending);
    assert!(get(&s, id).is_ok());
    assert_eq!(pending_id(&mut file, NOW), Some(id));
    assert_eq!(request(&mut s, &mut file, id, NOW).unwrap(), Decision::Deleted);
    assert!(get(&s, id).is_err());
    assert_eq!(pending_id(&mut file, NOW), None);
}

#[test]
fn expired_pending_rearms_instead_of_deleting() {
    let mut s = Store::new();
    let id = seed_pinned(&mut s, "confirm-expired");
    let mut file = Some(format!("{id} 0"));
    assert_eq!(request(&mut s, &mut file, id, NOW).unwrap(), Decision::Pending);
    assert!(get(&s, id).is_ok());
    assert_eq!(file, Some(format!("{id} {NOW}")));
}

#[test]
fn corrupted_pending_file_is_ignored() {
    let mut s = Store::new();
    let id = seed_pinned(&mut s, "confirm-corrupt");
    let mut file = Some("not-a-number\n".to_string());
    assert_eq!(pending_id(&mut file, NOW), None);
    assert_eq!(request(&mut s, &mut file, id, NOW).unwrap(), Decision::Pending);
    assert!(get(&s, id).is_ok());
}

#[test]
fn pending_target_moves_to_the_latest_pinned() {
    let mut s = Store::new();
    let mut file = None;
    let a = seed_pinned(&mut s, "confirm-a");
    let b = seed_pinned(&mut s, "confirm-b");
    assert_eq!(request(&mut s, &mut file, a, NOW).unwrap(), Decision::Pending);
    assert_eq!(pending_id(&mut file, NOW), Some(a));
    assert_eq!(request(&mut s, &mut file, b, NOW).unwrap(), Decision::Pending);
    assert_eq!(pending_id(&mut file, NOW), Some(b));
    assert!(get(&s, a).is_ok());
    assert!(get(&s, b).is_ok());
}

#[test]
fn decide_only_judges_and_never_deletes() {
    let mut s = Store::new();
    let mut file = None;
    let id = seed_pinned(&mut s, "confirm-decide");
    assert_eq!(decide(&mut file, id, true, NOW), Decision::Pending);
    assert!(get(&s, id).is_ok());
    assert_eq!(decide(&mut file, id, true, NOW), Decision::Deleted);
    assert!(get(&s, id).is_ok());
    assert_eq!(pending_id(&mut file, NOW), None);
}

#[test]
fn a_pending_deletion_is_good_up_to_the_last_millisecond() {
    let mut file = None;
    decide(&mut file, 7, true, NOW);
    assert_eq!(pending_id(&mut file, NOW + PENDING_TTL_MS), Some(7));
    assert_eq!(pending_id(&mut file, NOW + PENDING_TTL_MS + 1), None);
    assert_eq!(file, None);
}

#[test]
fn clearing_and_unknown_entries() {
    let mut file = Some("1 2".to_string());
    clear(&mut file);
    assert_eq!(file, None);
    let mut s = Store::new();
    assert_eq!(request(&mut s, &mut file, 5, NOW), Err(StoreError::NotFound));
}
