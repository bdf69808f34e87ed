use seatlease::inventory::{occ_less, parse_category, Category, Venue};
use seatlease::leases::LeaseManager;
use seatlease::search::find_consecutive;

#[test]
fn category_names_parse_into_closed_set() {
    assert_eq!(parse_category("VIP"), Some(Category::Vip));
    assert_eq!(parse_category("Regular"), Some(Category::Regular));
    assert_eq!(parse_category("Sol"), Some(Category::Sol));
    assert_eq!(parse_category("Platea"), Some(Category::Platea));
    assert_eq!(parse_category("vip"), None);
    assert_eq!(parse_category("Gold"), None);
    assert_eq!(parse_category(""), None);
}

#[test]
fn seeded_occupancy_counts_are_exact() {
    let v = Venue::default_layout();
    // each zone: 2 occupied VIP + 1 Regular + 1 Sol + 1 Platea over
    // (3 + 7 + 5 + 6) * 5 seats
    for z in 0..4 {
        assert_eq!(v.occupancy(z), (5, 105));
    }
}

#[test]
fn occupancy_comparison_is_exact() {
    assert!(occ_less(1, 4, 1, 2));
    assert!(!occ_less(1, 2, 1, 4));
    // equal ratios in different terms are not strictly ordered
    assert!(!occ_less(1, 2, 2, 4));
    assert!(!occ_less(2, 4, 1, 2));
    // a zone with no seats counts as fully occupied
    assert!(occ_less(5, 10, 0, 0));
    assert!(!occ_less(0, 0, 5, 10));
    assert!(!occ_less(0, 0, 0, 0));
}

#[test]
fn search_returns_first_fit_in_first_zone() {
    let v = Venue::default_layout();
    // zone A VIP row 0: seat (0, 0) is AdminHeld, the run starts at (0, 1)
    let f = find_consecutive(&v, "VIP", 2).expect("no run found");
    assert_eq!(f.zone, "A");
    assert_eq!(f.category, Category::Vip);
    assert_eq!(f.seats, vec![(0, 1), (0, 2)]);
}

#[test]
fn search_does_not_span_rows() {
    let v = Venue::default_layout();
    // VIP rows hold 5 seats; row 0 has only 4 free, row 1 is split by a
    // sold seat, so a run of 5 must come from row 2
    let f = find_consecutive(&v, "VIP", 5).expect("no run found");
    assert_eq!(f.zone, "A");
    assert_eq!(f.seats, vec![(2, 0), (2, 1), (2, 2), (2, 3), (2, 4)]);
    let rows: Vec<usize> = f.seats.iter().map(|s| s.0).collect();
    assert!(rows.iter().all(|r| *r == rows[0]));
}

#[test]
fn search_misses_report_none() {
    let v = Venue::default_layout();
    // no VIP row holds 6 consecutive seats in any zone
    assert!(find_consecutive(&v, "VIP", 6).is_none());
    assert!(find_consecutive(&v, "VIP", 0).is_none());
    assert!(find_consecutive(&v, "Gold", 2).is_none());
}

#[test]
fn search_prefers_less_occupied_zone() {
    let mut m = LeaseManager::seeded();
    // zone A VIP already holds (1, 2) Sold; selling one more seat makes
    // zone A strictly more occupied than zone B
    let id = String::from("occupy-a");
    m.create_hold_with_id(id.clone(), "A", "VIP", &vec![(2, 0)], 0)
        .expect("hold refused");
    assert!(m.confirm(&id));
    let f = m.search_seats("VIP", 2).expect("no run found");
    assert_eq!(f.zone, "B");
    assert_eq!(f.seats, vec![(0, 1), (0, 2)]);
}

#[test]
fn search_counts_pending_seats_as_occupied() {
    let mut m = LeaseManager::seeded();
    m.create_hold_with_id(String::from("block-a"), "A", "Regular", &vec![(1, 0)], 0)
        .expect("hold refused");
    // the pending seat raises zone A's occupancy, so the search moves on
    let f = m.search_seats("Regular", 3).expect("no run found");
    assert_eq!(f.zone, "B");
    assert_eq!(f.seats, vec![(0, 0), (0, 1), (0, 2)]);
}
