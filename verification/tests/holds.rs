use seatlease::inventory::{Category, SeatState, Venue};
use seatlease::leases::{HoldError, LeaseManager, LEASE_TTL_SECS};

fn seat(v: &Venue, zone: usize, cat: Category, r: usize, c: usize) -> SeatState {
    v.zones[zone].grid(cat).get(r, c)
}

#[test]
fn hold_marks_seats_pending() {
    let mut m = LeaseManager::seeded();
    let r = m.create_hold("A", "VIP", &vec![(0, 1), (0, 2)], 0);
    let id = r.expect("id generation collided").expect("hold refused");
    assert_eq!(id.len(), 36);
    let v = m.snapshot();
    assert_eq!(seat(&v, 0, Category::Vip, 0, 1), SeatState::LeasedPending);
    assert_eq!(seat(&v, 0, Category::Vip, 0, 2), SeatState::LeasedPending);
    assert!(m.has_lease(&id));
    assert_eq!(m.lease_count(), 1);
}

#[test]
fn confirm_sells_and_later_cancel_is_noop() {
    let mut m = LeaseManager::seeded();
    let id = String::from("lease-1");
    let r = m.create_hold_with_id(id.clone(), "A", "VIP", &vec![(0, 1), (0, 2)], 0);
    assert!(r.is_ok());
    assert!(m.confirm(&id));
    let v = m.snapshot();
    assert_eq!(seat(&v, 0, Category::Vip, 0, 1), SeatState::Sold);
    assert_eq!(seat(&v, 0, Category::Vip, 0, 2), SeatState::Sold);
    assert!(!m.cancel(&id));
    let v2 = m.snapshot();
    assert_eq!(seat(&v2, 0, Category::Vip, 0, 1), SeatState::Sold);
    assert_eq!(seat(&v2, 0, Category::Vip, 0, 2), SeatState::Sold);
}

#[test]
fn expiry_frees_unresolved_hold() {
    let mut m = LeaseManager::seeded();
    let id = String::from("lease-2");
    let r = m.create_hold_with_id(id.clone(), "B", "Regular", &vec![(0, 0)], 0);
    assert!(r.is_ok());
    assert_eq!(
        seat(&m.snapshot(), 1, Category::Regular, 0, 0),
        SeatState::LeasedPending
    );
    // the deferred scheduler fires after the TTL and hands the id back
    assert!(m.expire(&id));
    assert_eq!(seat(&m.snapshot(), 1, Category::Regular, 0, 0), SeatState::Free);
    assert!(!m.confirm(&id));
}

#[test]
fn expiry_after_confirm_is_noop() {
    let mut m = LeaseManager::seeded();
    let id = String::from("lease-3");
    m.create_hold_with_id(id.clone(), "C", "Sol", &vec![(0, 0), (0, 1)], 0)
        .expect("hold refused");
    assert!(m.confirm(&id));
    assert!(!m.expire(&id));
    let v = m.snapshot();
    assert_eq!(seat(&v, 2, Category::Sol, 0, 0), SeatState::Sold);
    assert_eq!(seat(&v, 2, Category::Sol, 0, 1), SeatState::Sold);
}

#[test]
fn resolution_is_idempotent() {
    let mut m = LeaseManager::seeded();
    let id = String::from("lease-4");
    m.create_hold_with_id(id.clone(), "D", "Platea", &vec![(0, 0)], 0)
        .expect("hold refused");
    assert!(m.cancel(&id));
    let v = m.snapshot();
    assert_eq!(seat(&v, 3, Category::Platea, 0, 0), SeatState::Free);
    assert!(!m.cancel(&id));
    assert!(!m.confirm(&id));
    assert!(!m.expire(&id));
    assert_eq!(m.lease_count(), 0);
}

#[test]
fn overlapping_hold_is_refused() {
    let mut m = LeaseManager::seeded();
    let id = String::from("lease-5");
    m.create_hold_with_id(id, "A", "VIP", &vec![(0, 1), (0, 2)], 0)
        .expect("hold refused");
    let r = m.create_hold_with_id(String::from("lease-6"), "A", "VIP", &vec![(0, 2), (0, 3)], 0);
    assert_eq!(r, Err(HoldError::SeatUnavailable));
    // the refused request mutated nothing
    let v = m.snapshot();
    assert_eq!(seat(&v, 0, Category::Vip, 0, 3), SeatState::Free);
    assert_eq!(m.lease_count(), 1);
}

#[test]
fn unknown_category_is_refused() {
    let mut m = LeaseManager::seeded();
    let r = m.create_hold_with_id(String::from("lease-7"), "A", "Gold", &vec![(0, 1)], 0);
    assert_eq!(r, Err(HoldError::InvalidCategory));
}

#[test]
fn unknown_zone_is_refused() {
    let mut m = LeaseManager::seeded();
    let r = m.create_hold_with_id(String::from("lease-8"), "Z", "VIP", &vec![(0, 1)], 0);
    assert_eq!(r, Err(HoldError::ZoneNotFound));
}

#[test]
fn out_of_range_seat_is_refused() {
    let mut m = LeaseManager::seeded();
    let r = m.create_hold_with_id(String::from("lease-9"), "A", "VIP", &vec![(9, 9)], 0);
    assert_eq!(r, Err(HoldError::SeatOutOfRange));
}

#[test]
fn preseeded_seat_is_unavailable() {
    let mut m = LeaseManager::seeded();
    // (0, 0) in zone A VIP is seeded AdminHeld
    let r = m.create_hold_with_id(String::from("lease-10"), "A", "VIP", &vec![(0, 0)], 0);
    assert_eq!(r, Err(HoldError::SeatUnavailable));
}

#[test]
fn duplicate_coordinate_is_unavailable() {
    let mut m = LeaseManager::seeded();
    let r = m.create_hold_with_id(String::from("lease-11"), "A", "VIP", &vec![(0, 1), (0, 1)], 0);
    assert_eq!(r, Err(HoldError::SeatUnavailable));
    assert_eq!(seat(&m.snapshot(), 0, Category::Vip, 0, 1), SeatState::Free);
}

#[test]
fn deadline_is_now_plus_ttl() {
    let mut m = LeaseManager::seeded();
    let id = String::from("lease-12");
    m.create_hold_with_id(id.clone(), "A", "VIP", &vec![(2, 0)], 7)
        .expect("hold refused");
    assert_eq!(m.deadline_of(&id), Some(7 + LEASE_TTL_SECS));
    assert_eq!(m.deadline_of(&String::from("no-such-lease")), None);
}

#[test]
fn fresh_ids_do_not_collide_with_table() {
    let mut m = LeaseManager::seeded();
    let id1 = m
        .create_hold("A", "VIP", &vec![(0, 1)], 0)
        .expect("id generation collided")
        .expect("hold refused");
    let id2 = m
        .create_hold("A", "VIP", &vec![(0, 2)], 0)
        .expect("id generation collided")
        .expect("hold refused");
    assert_ne!(id1, id2);
    assert!(m.confirm(&id1));
    assert!(m.confirm(&id2));
    assert!(!m.confirm(&id1));
}
