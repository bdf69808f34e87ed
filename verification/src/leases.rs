//! The lease manager: temporary holds on seats and their resolution.
//!
//! A hold claims a batch of free seats atomically and records a lease
//! with a deadline. Confirm, cancel and expiry all race on removing the
//! lease id from the table; whichever removes it performs the seat
//! transition, the others see "not found" and change nothing.

use vstd::prelude::*;
use crate::ids::fresh_lease_id;
use crate::search::{best_zone, find_consecutive, found_matches, FoundSeats};
use crate::inventory::{
    lemma_seats_in_grid_same_shape, lemma_seats_in_grid_uniform, lemma_zone_index_of,
    lemma_zone_index_of_same_names, parse_category, pos_in_range,
    same_content, same_topology, seat_of, spec_parse_category, zone_index_of, Category,
    is_default_layout, Venue, SeatState,
};

verus! {

/// Seconds a hold stays alive when neither confirmed nor cancelled.
pub const LEASE_TTL_SECS: u64 = 300;

/// Why a hold request was rejected. The inventory is left unchanged in
/// every one of these cases.
#[derive(Clone, Copy, PartialEq, Eq, Structural, Debug)]
pub enum HoldError {
    /// The category name is outside the closed set.
    InvalidCategory,
    /// No zone of the venue carries the requested name.
    ZoneNotFound,
    /// A requested coordinate lies outside the addressed grid.
    SeatOutOfRange,
    /// A requested seat is not free (or was requested twice).
    SeatUnavailable,
}

/// One seat claimed by a lease, resolved to venue coordinates at
/// hold-creation time.
#[derive(Clone, Copy, PartialEq, Eq, Structural, Debug)]
pub struct SeatRef {
    pub zone: usize,
    pub category: Category,
    pub row: usize,
    pub col: usize,
}

/// An in-flight hold: its id, its seats and its expiry deadline.
#[derive(Debug)]
pub struct Lease {
    pub id: String,
    pub seats: Vec<SeatRef>,
    pub deadline: u64,
}

/// The seat reference addresses a seat of the venue.
pub open spec fn ref_valid(v: Venue, sr: SeatRef) -> bool {
    pos_in_range(v, sr.zone as int, sr.category, sr.row as int, sr.col as int)
}

/// The seat reference names exactly the position (z, c, r, col).
pub open spec fn ref_matches(sr: SeatRef, z: int, c: Category, r: int, col: int) -> bool {
    sr.zone as int == z && sr.category == c && sr.row as int == r && sr.col as int == col
}

/// Some reference among the first k names the position.
pub open spec fn refs_hit(refs: Seq<SeatRef>, k: int, z: int, c: Category, r: int, col: int) -> bool {
    exists|j: int| 0 <= j < k && ref_matches(#[trigger] refs[j], z, c, r, col)
}

/// Some reference of the sequence names the position.
pub open spec fn refs_contain(refs: Seq<SeatRef>, z: int, c: Category, r: int, col: int) -> bool {
    refs_hit(refs, refs.len() as int, z, c, r, col)
}

/// The venues agree except that every seat named by `refs` now holds
/// state `st`.
pub open spec fn seats_updated(pre: Venue, post: Venue, refs: Seq<SeatRef>, st: SeatState) -> bool {
    &&& same_topology(pre, post)
    &&& forall|z: int, c: Category, r: int, col: int|
        pos_in_range(pre, z, c, r, col) ==> #[trigger] seat_of(post, z, c, r, col) == (if refs_contain(
            refs,
            z,
            c,
            r,
            col,
        ) {
            st
        } else {
            seat_of(pre, z, c, r, col)
        })
}

/// Every requested coordinate addresses a seat of the chosen grid.
pub open spec fn coords_in_range(
    v: Venue,
    zi: int,
    c: Category,
    coords: Seq<(usize, usize)>,
) -> bool {
    forall|k: int|
        0 <= k < coords.len() ==> pos_in_range(
            v,
            zi,
            c,
            (#[trigger] coords[k]).0 as int,
            coords[k].1 as int,
        )
}

/// No coordinate is requested twice.
pub open spec fn coords_distinct(coords: Seq<(usize, usize)>) -> bool {
    forall|a: int, b: int|
        0 <= a < b < coords.len() ==> (#[trigger] coords[a]) != (#[trigger] coords[b])
}

/// Every requested seat is free.
pub open spec fn coords_free(v: Venue, zi: int, c: Category, coords: Seq<(usize, usize)>) -> bool {
    forall|k: int|
        0 <= k < coords.len() ==> seat_of(
            v,
            zi,
            c,
            (#[trigger] coords[k]).0 as int,
            coords[k].1 as int,
        ) == SeatState::Free
}

/// A hold request the manager must grant: known category, known zone,
/// all coordinates in range, no duplicates, all seats free.
pub open spec fn hold_ok(
    m: LeaseManager,
    zone: Seq<char>,
    cat: Seq<char>,
    coords: Seq<(usize, usize)>,
) -> bool {
    &&& spec_parse_category(cat) is Some
    &&& zone_index_of(m.venue.zones@, zone) is Some
    &&& {
        let zi = zone_index_of(m.venue.zones@, zone)->Some_0;
        let c = spec_parse_category(cat)->Some_0;
        coords_in_range(m.venue, zi, c, coords) && coords_distinct(coords) && coords_free(
            m.venue,
            zi,
            c,
            coords,
        )
    }
}

/// The error a failing hold request reports: the first failing check in
/// the order category, zone, range, availability.
pub open spec fn hold_err(
    m: LeaseManager,
    zone: Seq<char>,
    cat: Seq<char>,
    coords: Seq<(usize, usize)>,
) -> HoldError {
    if spec_parse_category(cat) is None {
        HoldError::InvalidCategory
    } else if zone_index_of(m.venue.zones@, zone) is None {
        HoldError::ZoneNotFound
    } else if !coords_in_range(
        m.venue,
        zone_index_of(m.venue.zones@, zone)->Some_0,
        spec_parse_category(cat)->Some_0,
        coords,
    ) {
        HoldError::SeatOutOfRange
    } else {
        HoldError::SeatUnavailable
    }
}

/// The seat references a request resolves to.
pub open spec fn coord_refs(zi: int, c: Category, coords: Seq<(usize, usize)>) -> Seq<SeatRef> {
    Seq::new(
        coords.len(),
        |k: int|
            SeatRef { zone: zi as usize, category: c, row: coords[k].0, col: coords[k].1 },
    )
}

/// Some coordinate among the first k names the position (r, col).
pub open spec fn coords_hit(coords: Seq<(usize, usize)>, k: int, r: int, col: int) -> bool {
    exists|j: int|
        0 <= j < k && ((#[trigger] coords[j]).0 as int) == r && (coords[j].1 as int) == col
}

/// Containment in the resolved references is containment in the request.
pub proof fn lemma_refs_contain_coords(
    zi: int,
    c: Category,
    coords: Seq<(usize, usize)>,
    z: int,
    c2: Category,
    r: int,
    col: int,
)
    requires
        0 <= zi <= usize::MAX,
    ensures
        refs_contain(coord_refs(zi, c, coords), z, c2, r, col) == (z == zi && c2 == c
            && coords_hit(coords, coords.len() as int, r, col)),
{
    let refs = coord_refs(zi, c, coords);
    if refs_contain(refs, z, c2, r, col) {
        let j = choose|j: int| 0 <= j < refs.len() && ref_matches(#[trigger] refs[j], z, c2, r, col);
        assert(((coords[j]).0 as int) == r && (coords[j].1 as int) == col);
    }
    if z == zi && c2 == c && coords_hit(coords, coords.len() as int, r, col) {
        let j = choose|j: int|
            0 <= j < coords.len() && ((#[trigger] coords[j]).0 as int) == r && (coords[j].1 as int)
                == col;
        assert(ref_matches(refs[j], z, c2, r, col));
    }
}

/// A successful hold: the requested seats turned `LeasedPending` and one
/// lease was appended, carrying the resolved seats and the deadline
/// now + LEASE_TTL_SECS.
pub open spec fn hold_commit(
    pre: LeaseManager,
    post: LeaseManager,
    id: Seq<char>,
    zone: Seq<char>,
    cat: Seq<char>,
    coords: Seq<(usize, usize)>,
    now: u64,
) -> bool {
    let zi = zone_index_of(pre.venue.zones@, zone)->Some_0;
    let c = spec_parse_category(cat)->Some_0;
    let refs = coord_refs(zi, c, coords);
    &&& seats_updated(pre.venue, post.venue, refs, SeatState::LeasedPending)
    &&& post.leases@.len() == pre.leases@.len() + 1
    &&& post.leases@.subrange(0, pre.leases@.len() as int) == pre.leases@
    &&& post.leases@.last().id@ == id
    &&& post.leases@.last().deadline == now + LEASE_TTL_SECS
    &&& post.leases@.last().seats@ == refs
}

/// One resolution step: if the id is still in the table its lease is
/// removed and exactly its seats transition to `st`; otherwise nothing
/// changes and the step reports failure. Confirm, cancel and expiry are
/// all instances of this, so at most one of them can ever succeed for a
/// given id.
pub open spec fn resolve_spec(
    pre: LeaseManager,
    post: LeaseManager,
    id: Seq<char>,
    st: SeatState,
    ret: bool,
) -> bool {
    match lease_index_of(pre.leases@, id) {
        None => !ret && post == pre,
        Some(i) => {
            &&& ret
            &&& post.leases@ == pre.leases@.remove(i)
            &&& seats_updated(pre.venue, post.venue, pre.leases@[i].seats@, st)
        },
    }
}

/// The index of the first lease with the given id, if any.
pub open spec fn lease_index_of(leases: Seq<Lease>, id: Seq<char>) -> Option<int>
    decreases leases.len(),
{
    if leases.len() == 0 {
        None
    } else if leases[0].id@ == id {
        Some(0)
    } else {
        match lease_index_of(leases.drop_first(), id) {
            None => None,
            Some(i) => Some(i + 1),
        }
    }
}

/// A lease with this id is in the table.
pub open spec fn has_lease_id(leases: Seq<Lease>, id: Seq<char>) -> bool {
    lease_index_of(leases, id) is Some
}

/// What `lease_index_of` finds: the first match, or proof that none
/// exists.
pub proof fn lemma_lease_index_of(leases: Seq<Lease>, id: Seq<char>)
    ensures
        match lease_index_of(leases, id) {
            None => forall|j: int| 0 <= j < leases.len() ==> (#[trigger] leases[j]).id@ != id,
            Some(i) => 0 <= i < leases.len() && leases[i].id@ == id && forall|j: int|
                0 <= j < i ==> (#[trigger] leases[j]).id@ != id,
        },
    decreases leases.len(),
{
    if leases.len() > 0 && leases[0].id@ != id {
        let rest = leases.drop_first();
        lemma_lease_index_of(rest, id);
        assert(forall|j: int| 0 <= j < rest.len() ==> rest[j] == leases[j + 1]);
        match lease_index_of(rest, id) {
            None => {
                assert forall|j: int| 0 <= j < leases.len() implies (#[trigger] leases[j]).id@
                    != id by {
                    if j > 0 {
                        assert(leases[j] == rest[j - 1]);
                    }
                }
            },
            Some(i) => {
                assert forall|j: int| 0 <= j < i + 1 implies (#[trigger] leases[j]).id@ != id by {
                    if j > 0 {
                        assert(leases[j] == rest[j - 1]);
                    }
                }
            },
        }
    }
}

/// The converse: a first match determines the result of
/// `lease_index_of`.
pub proof fn lemma_lease_index_of_first(leases: Seq<Lease>, id: Seq<char>, i: int)
    requires
        0 <= i < leases.len(),
        leases[i].id@ == id,
        forall|j: int| 0 <= j < i ==> (#[trigger] leases[j]).id@ != id,
    ensures
        lease_index_of(leases, id) == Some(i),
    decreases leases.len(),
{
    if i > 0 {
        lemma_lease_index_of_first(leases.drop_first(), id, i - 1);
    }
}

/// The lease manager: the venue inventory and the table of in-flight
/// leases, mutated together under one exclusion domain.
#[derive(Debug)]
pub struct LeaseManager {
    pub venue: Venue,
    pub leases: Vec<Lease>,
}

impl LeaseManager {
    /// The venue as the manager currently holds it.
    pub open spec fn spec_venue(self) -> Venue {
        self.venue
    }

    /// The table of in-flight leases.
    pub open spec fn spec_leases(self) -> Seq<Lease> {
        self.leases@
    }

    /// Well-formedness: every leased seat exists and is marked
    /// `LeasedPending`, lease ids are distinct, no seat belongs to two
    /// leases (nor twice to one), and zone sizes fit the machine.
    pub open spec fn wf(self) -> bool {
        &&& forall|i: int, k: int|
            0 <= i < self.leases@.len() && 0 <= k < self.leases@[i].seats@.len() ==> {
                let sr = #[trigger] self.leases@[i].seats@[k];
                ref_valid(self.venue, sr) && seat_of(
                    self.venue,
                    sr.zone as int,
                    sr.category,
                    sr.row as int,
                    sr.col as int,
                ) == SeatState::LeasedPending
            }
        &&& forall|i: int, j: int|
            0 <= i < j < self.leases@.len() ==> (#[trigger] self.leases@[i]).id@
                != (#[trigger] self.leases@[j]).id@
        &&& forall|i: int, k: int, j: int, l: int|
            0 <= i < self.leases@.len() && 0 <= k < self.leases@[i].seats@.len() && 0 <= j
                < self.leases@.len() && 0 <= l < self.leases@[j].seats@.len() && (i != j || k != l)
                ==> (#[trigger] self.leases@[i].seats@[k]) != (#[trigger] self.leases@[j].seats@[l])
        &&& forall|z: int|
            0 <= z < self.venue.zones@.len() ==> (#[trigger] self.venue.zones@[z].spec_total())
                <= usize::MAX
    }

    /// A manager over the given venue with no leases in flight.
    pub fn new(venue: Venue) -> (m: LeaseManager)
        requires
            forall|z: int|
                0 <= z < venue.zones@.len() ==> (#[trigger] venue.zones@[z].spec_total())
                    <= usize::MAX,
        ensures
            m.wf(),
            m.spec_venue() == venue,
            m.spec_leases().len() == 0,
    {
        LeaseManager { venue, leases: Vec::new() }
    }

    /// A manager over the venue as seeded at startup.
    pub fn seeded() -> (m: LeaseManager)
        ensures
            m.wf(),
            is_default_layout(m.spec_venue()),
            m.spec_leases().len() == 0,
    {
        let venue = Venue::default_layout();
        proof {
            assert forall|z: int| 0 <= z < venue.zones@.len() implies (
            #[trigger] venue.zones@[z].spec_total()) <= usize::MAX by {
                lemma_seats_in_grid_uniform(venue.zones@[z].spec_grid(Category::Vip), 5);
                lemma_seats_in_grid_uniform(venue.zones@[z].spec_grid(Category::Regular), 5);
                lemma_seats_in_grid_uniform(venue.zones@[z].spec_grid(Category::Sol), 5);
                lemma_seats_in_grid_uniform(venue.zones@[z].spec_grid(Category::Platea), 5);
            }
        }
        LeaseManager::new(venue)
    }

    /// The index of the lease with this id, if it is still in the table.
    fn index_of_lease(&self, id: &String) -> (r: Option<usize>)
        ensures
            match r {
                None => lease_index_of(self.leases@, id@) is None,
                Some(i) => i < self.leases@.len() && self.leases@[i as int].id@ == id@
                    && lease_index_of(self.leases@, id@) == Some(i as int),
            },
    {
        let mut i: usize = 0;
        while i < self.leases.len()
            invariant
                i <= self.leases@.len(),
                forall|j: int| 0 <= j < i ==> (#[trigger] self.leases@[j]).id@ != id@,
            decreases self.leases@.len() - i,
        {
            if self.leases[i].id == *id {
                proof {
                    lemma_lease_index_of_first(self.leases@, id@, i as int);
                }
                return Some(i);
            }
            i = i + 1;
        }
        proof {
            lemma_lease_index_of(self.leases@, id@);
            if lease_index_of(self.leases@, id@) is Some {
                let k = lease_index_of(self.leases@, id@)->Some_0;
                assert(self.leases@[k].id@ == id@);
            }
        }
        None
    }

    /// Whether a lease with this id is still in flight.
    pub fn has_lease(&self, id: &String) -> (r: bool)
        ensures
            r == has_lease_id(self.leases@, id@),
    {
        self.index_of_lease(id).is_some()
    }

    /// The expiry deadline recorded for an in-flight lease.
    pub fn deadline_of(&self, id: &String) -> (r: Option<u64>)
        ensures
            match lease_index_of(self.leases@, id@) {
                None => r is None,
                Some(i) => r == Some(self.leases@[i].deadline),
            },
    {
        match self.index_of_lease(id) {
            None => None,
            Some(i) => Some(self.leases[i].deadline),
        }
    }

    /// Number of leases currently in flight.
    pub fn lease_count(&self) -> (n: usize)
        ensures
            n == self.spec_leases().len(),
    {
        self.leases.len()
    }

    /// Places a hold under a caller-supplied fresh lease id: validates
    /// the request, then turns every requested seat from `Free` to
    /// `LeasedPending` as one atomic batch and records the lease. On any
    /// failure nothing is mutated and the reported error names the first
    /// failing check.
    #[verifier::rlimit(100)]
    pub fn create_hold_with_id(
        &mut self,
        id: String,
        zone: &str,
        category: &str,
        coords: &Vec<(usize, usize)>,
        now: u64,
    ) -> (r: Result<(), HoldError>)
        requires
            old(self).wf(),
            !has_lease_id(old(self).leases@, id@),
            now + LEASE_TTL_SECS <= u64::MAX,
        ensures
            final(self).wf(),
            (r is Ok) == hold_ok(*old(self), zone@, category@, coords@),
            r is Ok ==> hold_commit(*old(self), *final(self), id@, zone@, category@, coords@, now),
            r matches Err(e) ==> e == hold_err(*old(self), zone@, category@, coords@)
                && *final(self) == *old(self),
    {
        let c = match parse_category(category) {
            None => {
                return Err(HoldError::InvalidCategory);
            },
            Some(c) => c,
        };
        let zi = match self.venue.find_zone(zone) {
            None => {
                return Err(HoldError::ZoneNotFound);
            },
            Some(z) => z,
        };
        // validate all coordinates and resolve them to seat references
        let mut refs: Vec<SeatRef> = Vec::new();
        let mut k: usize = 0;
        while k < coords.len()
            invariant
                *self == *old(self),
                old(self).wf(),
                k <= coords@.len(),
                refs@.len() == k,
                zi < self.venue.zones@.len(),
                forall|j: int|
                    0 <= j < k ==> pos_in_range(
                        self.venue,
                        zi as int,
                        c,
                        (#[trigger] coords@[j]).0 as int,
                        coords@[j].1 as int,
                    ),
                zone_index_of(self.venue.zones@, zone@) == Some(zi as int),
                spec_parse_category(category@) == Some(c),
                forall|j: int|
                    0 <= j < k ==> (#[trigger] refs@[j]) == (SeatRef {
                        zone: zi,
                        category: c,
                        row: coords@[j].0,
                        col: coords@[j].1,
                    }),
            decreases coords@.len() - k,
        {
            let (r0, c0) = coords[k];
            if !self.venue.zones[zi].grid(c).in_range(r0, c0) {
                return Err(HoldError::SeatOutOfRange);
            }
            refs.push(SeatRef { zone: zi, category: c, row: r0, col: c0 });
            k = k + 1;
        }
        // check that every seat is free and requested only once
        let mut k2: usize = 0;
        while k2 < coords.len()
            invariant
                *self == *old(self),
                old(self).wf(),
                k2 <= coords@.len(),
                zi < self.venue.zones@.len(),
                zone_index_of(self.venue.zones@, zone@) == Some(zi as int),
                spec_parse_category(category@) == Some(c),
                coords_in_range(self.venue, zi as int, c, coords@),
                forall|j: int|
                    0 <= j < k2 ==> seat_of(
                        self.venue,
                        zi as int,
                        c,
                        (#[trigger] coords@[j]).0 as int,
                        coords@[j].1 as int,
                    ) == SeatState::Free,
                forall|a: int, b: int|
                    0 <= a < b < k2 ==> (#[trigger] coords@[a]) != (#[trigger] coords@[b]),
            decreases coords@.len() - k2,
        {
            let (r0, c0) = coords[k2];
            if self.venue.zones[zi].grid(c).get(r0, c0) != SeatState::Free {
                return Err(HoldError::SeatUnavailable);
            }
            let mut j: usize = 0;
            while j < k2
                invariant
                    *self == *old(self),
                    old(self).wf(),
                    j <= k2 < coords@.len(),
                    zi < self.venue.zones@.len(),
                    zone_index_of(self.venue.zones@, zone@) == Some(zi as int),
                    spec_parse_category(category@) == Some(c),
                    coords_in_range(self.venue, zi as int, c, coords@),
                    (r0, c0) == coords@[k2 as int],
                    forall|a: int| 0 <= a < j ==> (#[trigger] coords@[a]) != coords@[k2 as int],
                decreases k2 - j,
            {
                let (r1, c1) = coords[j];
                if r1 == r0 && c1 == c0 {
                    proof {
                        assert(coords@[j as int] == coords@[k2 as int]);
                        assert(!coords_distinct(coords@));
                    }
                    return Err(HoldError::SeatUnavailable);
                }
                j = j + 1;
            }
            k2 = k2 + 1;
        }
        proof {
            assert(hold_ok(*old(self), zone@, category@, coords@));
        }
        // commit: mark every requested seat, then record the lease
        let ghost prev = *old(self);
        let mut k3: usize = 0;
        while k3 < coords.len()
            invariant
                k3 <= coords@.len(),
                zi < prev.venue.zones@.len(),
                self.leases == prev.leases,
                coords_in_range(prev.venue, zi as int, c, coords@),
                same_topology(prev.venue, self.venue),
                forall|z: int, c2: Category, r: int, col: int|
                    pos_in_range(prev.venue, z, c2, r, col) ==> #[trigger] seat_of(
                        self.venue,
                        z,
                        c2,
                        r,
                        col,
                    ) == (if z == zi && c2 == c && coords_hit(coords@, k3 as int, r, col) {
                        SeatState::LeasedPending
                    } else {
                        seat_of(prev.venue, z, c2, r, col)
                    }),
            decreases coords@.len() - k3,
        {
            let (r0, c0) = coords[k3];
            proof {
                assert(pos_in_range(prev.venue, zi as int, c, r0 as int, c0 as int));
                assert(pos_in_range(self.venue, zi as int, c, r0 as int, c0 as int));
            }
            let ghost mid = self.venue;
            self.venue.set_seat(zi, c, r0, c0, SeatState::LeasedPending);
            proof {
                assert forall|z: int, c2: Category, r: int, col: int|
                    pos_in_range(prev.venue, z, c2, r, col) implies #[trigger] seat_of(
                    self.venue,
                    z,
                    c2,
                    r,
                    col,
                ) == (if z == zi && c2 == c && coords_hit(coords@, k3 + 1, r, col) {
                    SeatState::LeasedPending
                } else {
                    seat_of(prev.venue, z, c2, r, col)
                }) by {
                    assert(pos_in_range(mid, z, c2, r, col));
                    if z == zi && c2 == c && coords_hit(coords@, k3 + 1, r, col) {
                        if !(r == r0 && col == c0) {
                            let w = choose|j: int|
                                0 <= j < k3 + 1 && ((#[trigger] coords@[j]).0 as int) == r && (
                                coords@[j].1 as int) == col;
                            assert(w < k3);
                            assert(coords_hit(coords@, k3 as int, r, col));
                        }
                    } else {
                        if z == zi && c2 == c && coords_hit(coords@, k3 as int, r, col) {
                            let w = choose|j: int|
                                0 <= j < k3 && ((#[trigger] coords@[j]).0 as int) == r && (
                                coords@[j].1 as int) == col;
                            assert(coords_hit(coords@, k3 + 1, r, col));
                        }
                    }
                }
            }
            k3 = k3 + 1;
        }
        let ghost refs_v = refs@;
        self.leases.push(Lease { id, seats: refs, deadline: now + LEASE_TTL_SECS });
        proof {
            let pre = *old(self);
            let n = pre.leases@.len() as int;
            assert(refs_v =~= coord_refs(zi as int, c, coords@));
            // the batch update, stated over the resolved references
            assert forall|z: int, c2: Category, r: int, col: int|
                pos_in_range(pre.venue, z, c2, r, col) implies #[trigger] seat_of(
                self.venue,
                z,
                c2,
                r,
                col,
            ) == (if refs_contain(refs_v, z, c2, r, col) {
                SeatState::LeasedPending
            } else {
                seat_of(pre.venue, z, c2, r, col)
            }) by {
                lemma_refs_contain_coords(zi as int, c, coords@, z, c2, r, col);
            }
            assert(seats_updated(pre.venue, self.venue, refs_v, SeatState::LeasedPending));
            assert(self.leases@.subrange(0, n) =~= pre.leases@);
            assert(hold_commit(pre, *self, id@, zone@, category@, coords@, now));
            // well-formedness of the new state
            lemma_lease_index_of(pre.leases@, id@);
            assert forall|i: int, k4: int|
                0 <= i < self.leases@.len() && 0 <= k4 < self.leases@[i].seats@.len() implies {
                let sr = #[trigger] self.leases@[i].seats@[k4];
                ref_valid(self.venue, sr) && seat_of(
                    self.venue,
                    sr.zone as int,
                    sr.category,
                    sr.row as int,
                    sr.col as int,
                ) == SeatState::LeasedPending
            } by {
                if i < n {
                    let sr = pre.leases@[i].seats@[k4];
                    assert(ref_valid(pre.venue, sr) && seat_of(
                        pre.venue,
                        sr.zone as int,
                        sr.category,
                        sr.row as int,
                        sr.col as int,
                    ) == SeatState::LeasedPending);
                } else {
                    let sr = refs_v[k4];
                    assert(ref_matches(sr, zi as int, c, coords@[k4].0 as int, coords@[k4].1 as int));
                    assert(refs_contain(refs_v, zi as int, c, sr.row as int, sr.col as int));
                }
            }
            assert forall|i: int, k4: int, j2: int, l: int|
                0 <= i < self.leases@.len() && 0 <= k4 < self.leases@[i].seats@.len() && 0 <= j2
                    < self.leases@.len() && 0 <= l < self.leases@[j2].seats@.len() && (i != j2 || k4
                    != l) implies (#[trigger] self.leases@[i].seats@[k4])
                != (#[trigger] self.leases@[j2].seats@[l]) by {
                if i == n && j2 == n {
                    // two references of the new lease: distinct coordinates
                    assert(coords@[k4] != coords@[l] || k4 == l);
                } else if i == n || j2 == n {
                    // one old, one new: the new seat was free, the old one
                    // is pending, so they cannot coincide
                    let (oi, ok, nk) = if i == n {
                        (j2, l, k4)
                    } else {
                        (i, k4, l)
                    };
                    let osr = pre.leases@[oi].seats@[ok];
                    let nsr = refs_v[nk];
                    assert(seat_of(
                        pre.venue,
                        osr.zone as int,
                        osr.category,
                        osr.row as int,
                        osr.col as int,
                    ) == SeatState::LeasedPending);
                    assert(seat_of(
                        pre.venue,
                        nsr.zone as int,
                        nsr.category,
                        nsr.row as int,
                        nsr.col as int,
                    ) == SeatState::Free);
                }
            }
            assert forall|z: int| 0 <= z < self.venue.zones@.len() implies (
            #[trigger] self.venue.zones@[z].spec_total()) <= usize::MAX by {
                assert(pre.venue.zones@[z].spec_total() <= usize::MAX);
                lemma_seats_in_grid_same_shape(
                    pre.venue.zones@[z].spec_grid(Category::Vip),
                    self.venue.zones@[z].spec_grid(Category::Vip),
                );
                lemma_seats_in_grid_same_shape(
                    pre.venue.zones@[z].spec_grid(Category::Regular),
                    self.venue.zones@[z].spec_grid(Category::Regular),
                );
                lemma_seats_in_grid_same_shape(
                    pre.venue.zones@[z].spec_grid(Category::Sol),
                    self.venue.zones@[z].spec_grid(Category::Sol),
                );
                lemma_seats_in_grid_same_shape(
                    pre.venue.zones@[z].spec_grid(Category::Platea),
                    self.venue.zones@[z].spec_grid(Category::Platea),
                );
            }
            assert(self.wf());
        }
        Ok(())
    }

    /// The shared resolution path of confirm, cancel and expiry: remove
    /// the lease if its id is still present, and transition exactly its
    /// seats to `st`.
    #[verifier::rlimit(100)]
    fn resolve(&mut self, id: &String, st: SeatState) -> (r: bool)
        requires
            old(self).wf(),
            st == SeatState::Sold || st == SeatState::Free,
        ensures
            final(self).wf(),
            resolve_spec(*old(self), *final(self), id@, st, r),
    {
        let i = match self.index_of_lease(id) {
            None => {
                return false;
            },
            Some(i) => i,
        };
        let lease = self.leases.remove(i);
        let ghost pre = *old(self);
        let ghost refs_v = lease.seats@;
        let mut k: usize = 0;
        while k < lease.seats.len()
            invariant
                pre.wf(),
                st == SeatState::Sold || st == SeatState::Free,
                k <= refs_v.len(),
                lease.seats@ == refs_v,
                i < pre.leases@.len(),
                refs_v == pre.leases@[i as int].seats@,
                self.leases@ == pre.leases@.remove(i as int),
                same_topology(pre.venue, self.venue),
                forall|z: int, c2: Category, r: int, col: int|
                    pos_in_range(pre.venue, z, c2, r, col) ==> #[trigger] seat_of(
                        self.venue,
                        z,
                        c2,
                        r,
                        col,
                    ) == (if refs_hit(refs_v, k as int, z, c2, r, col) {
                        st
                    } else {
                        seat_of(pre.venue, z, c2, r, col)
                    }),
            decreases refs_v.len() - k,
        {
            let sr = lease.seats[k];
            proof {
                assert(ref_valid(pre.venue, sr));
                assert(pos_in_range(
                    self.venue,
                    sr.zone as int,
                    sr.category,
                    sr.row as int,
                    sr.col as int,
                ));
            }
            self.venue.set_seat(sr.zone, sr.category, sr.row, sr.col, st);
            proof {
                assert forall|z: int, c2: Category, r: int, col: int|
                    pos_in_range(pre.venue, z, c2, r, col) implies #[trigger] seat_of(
                    self.venue,
                    z,
                    c2,
                    r,
                    col,
                ) == (if refs_hit(refs_v, k + 1, z, c2, r, col) {
                    st
                } else {
                    seat_of(pre.venue, z, c2, r, col)
                }) by {
                    if refs_hit(refs_v, k + 1, z, c2, r, col) {
                        if !ref_matches(sr, z, c2, r, col) {
                            let w = choose|j: int|
                                0 <= j < k + 1 && ref_matches(#[trigger] refs_v[j], z, c2, r, col);
                            assert(w < k);
                            assert(refs_hit(refs_v, k as int, z, c2, r, col));
                        }
                    } else {
                        if refs_hit(refs_v, k as int, z, c2, r, col) {
                            let w = choose|j: int|
                                0 <= j < k && ref_matches(#[trigger] refs_v[j], z, c2, r, col);
                            assert(refs_hit(refs_v, k + 1, z, c2, r, col));
                        }
                    }
                }
            }
            k = k + 1;
        }
        proof {
            assert(seats_updated(pre.venue, self.venue, refs_v, st));
            // well-formedness of the shrunk table over the updated venue
            pre.leases@.remove_ensures(i as int);
            assert forall|i2: int, k4: int|
                0 <= i2 < self.leases@.len() && 0 <= k4 < self.leases@[i2].seats@.len() implies {
                let sr = #[trigger] self.leases@[i2].seats@[k4];
                ref_valid(self.venue, sr) && seat_of(
                    self.venue,
                    sr.zone as int,
                    sr.category,
                    sr.row as int,
                    sr.col as int,
                ) == SeatState::LeasedPending
            } by {
                let oi = if i2 < i { i2 } else { i2 + 1 };
                assert(self.leases@[i2] == pre.leases@[oi]);
                let sr = pre.leases@[oi].seats@[k4];
                assert(ref_valid(pre.venue, sr));
                // no reference of a surviving lease is a reference of the
                // removed one, so the seat is still pending
                if refs_contain(refs_v, sr.zone as int, sr.category, sr.row as int, sr.col as int) {
                    let w = choose|j: int|
                        0 <= j < refs_v.len() && ref_matches(
                            #[trigger] refs_v[j],
                            sr.zone as int,
                            sr.category,
                            sr.row as int,
                            sr.col as int,
                        );
                    assert(pre.leases@[i as int].seats@[w] == pre.leases@[oi].seats@[k4]);
                    assert(false);
                }
            }
            assert forall|i2: int, j2: int|
                0 <= i2 < j2 < self.leases@.len() implies (#[trigger] self.leases@[i2]).id@ != (
            #[trigger] self.leases@[j2]).id@ by {
                let oi = if i2 < i { i2 } else { i2 + 1 };
                let oj = if j2 < i { j2 } else { j2 + 1 };
                assert(self.leases@[i2] == pre.leases@[oi]);
                assert(self.leases@[j2] == pre.leases@[oj]);
            }
            assert forall|i2: int, k4: int, j2: int, l: int|
                0 <= i2 < self.leases@.len() && 0 <= k4 < self.leases@[i2].seats@.len() && 0 <= j2
                    < self.leases@.len() && 0 <= l < self.leases@[j2].seats@.len() && (i2 != j2
                    || k4 != l) implies (#[trigger] self.leases@[i2].seats@[k4])
                != (#[trigger] self.leases@[j2].seats@[l]) by {
                let oi = if i2 < i { i2 } else { i2 + 1 };
                let oj = if j2 < i { j2 } else { j2 + 1 };
                assert(self.leases@[i2] == pre.leases@[oi]);
                assert(self.leases@[j2] == pre.leases@[oj]);
            }
            assert forall|z: int| 0 <= z < self.venue.zones@.len() implies (
            #[trigger] self.venue.zones@[z].spec_total()) <= usize::MAX by {
                assert(pre.venue.zones@[z].spec_total() <= usize::MAX);
                lemma_seats_in_grid_same_shape(
                    pre.venue.zones@[z].spec_grid(Category::Vip),
                    self.venue.zones@[z].spec_grid(Category::Vip),
                );
                lemma_seats_in_grid_same_shape(
                    pre.venue.zones@[z].spec_grid(Category::Regular),
                    self.venue.zones@[z].spec_grid(Category::Regular),
                );
                lemma_seats_in_grid_same_shape(
                    pre.venue.zones@[z].spec_grid(Category::Sol),
                    self.venue.zones@[z].spec_grid(Category::Sol),
                );
                lemma_seats_in_grid_same_shape(
                    pre.venue.zones@[z].spec_grid(Category::Platea),
                    self.venue.zones@[z].spec_grid(Category::Platea),
                );
            }
            assert(self.wf());
        }
        true
    }

    /// Confirms a purchase: if the lease is still in flight, removes it
    /// and turns its seats `LeasedPending -> Sold`, reporting true. If
    /// the id was already resolved or never existed, reports false and
    /// changes nothing.
    pub fn confirm(&mut self, id: &String) -> (r: bool)
        requires
            old(self).wf(),
        ensures
            final(self).wf(),
            resolve_spec(*old(self), *final(self), id@, SeatState::Sold, r),
    {
        self.resolve(id, SeatState::Sold)
    }

    /// Cancels a hold: if the lease is still in flight, removes it and
    /// turns its seats `LeasedPending -> Free`, reporting true. If the
    /// id was already resolved or never existed, reports false and
    /// changes nothing.
    pub fn cancel(&mut self, id: &String) -> (r: bool)
        requires
            old(self).wf(),
        ensures
            final(self).wf(),
            resolve_spec(*old(self), *final(self), id@, SeatState::Free, r),
    {
        self.resolve(id, SeatState::Free)
    }

    /// Expires a hold: invoked by the deferred scheduler once the
    /// deadline recorded at creation has passed. Identical in effect to
    /// `cancel`; a lease already confirmed or cancelled makes this a
    /// silent no-op.
    pub fn expire(&mut self, id: &String) -> (r: bool)
        requires
            old(self).wf(),
        ensures
            final(self).wf(),
            resolve_spec(*old(self), *final(self), id@, SeatState::Free, r),
    {
        self.resolve(id, SeatState::Free)
    }

    /// Places a hold under a freshly drawn lease id. `None` means the
    /// drawn id collided with one already in the table (practically
    /// impossible for random UUIDs) and nothing was changed; the caller
    /// may simply retry.
    pub fn create_hold(
        &mut self,
        zone: &str,
        category: &str,
        coords: &Vec<(usize, usize)>,
        now: u64,
    ) -> (r: Option<Result<String, HoldError>>)
        requires
            old(self).wf(),
            now + LEASE_TTL_SECS <= u64::MAX,
        ensures
            final(self).wf(),
            r is None ==> old(self).spec_leases().len() > 0 && *final(self) == *old(self),
            r matches Some(rr) ==> {
                &&& (rr is Ok) == hold_ok(*old(self), zone@, category@, coords@)
                &&& rr matches Ok(id) ==> !has_lease_id(old(self).leases@, id@) && hold_commit(
                    *old(self),
                    *final(self),
                    id@,
                    zone@,
                    category@,
                    coords@,
                    now,
                )
                &&& rr matches Err(e) ==> e == hold_err(*old(self), zone@, category@, coords@)
                    && *final(self) == *old(self)
            },
    {
        let id = fresh_lease_id();
        if self.has_lease(&id) {
            // a collision presupposes a lease to collide with, so on an
            // empty table this branch is unreachable and success is owed
            proof {
                lemma_lease_index_of(self.leases@, id@);
            }
            return None;
        }
        let id_out = id.clone();
        match self.create_hold_with_id(id, zone, category, coords, now) {
            Ok(()) => Some(Ok(id_out)),
            Err(e) => Some(Err(e)),
        }
    }

    /// A fully materialized copy of the venue, for queries and for
    /// broadcasting to subscribers.
    pub fn snapshot(&self) -> (v: Venue)
        ensures
            same_content(self.spec_venue(), v),
    {
        self.venue.snapshot()
    }

    /// Read-only availability search over the current inventory (see
    /// `find_consecutive`).
    pub fn search_seats(&self, category: &str, count: usize) -> (res: Option<FoundSeats>)
        requires
            self.wf(),
        ensures
            match spec_parse_category(category@) {
                None => res is None,
                Some(cat) => {
                    if count == 0 {
                        res is None
                    } else {
                        match best_zone(self.venue.zones@, cat, count as int) {
                            None => res is None,
                            Some(zi) => res matches Some(f) && found_matches(
                                self.venue,
                                cat,
                                count as int,
                                zi,
                                f,
                            ),
                        }
                    }
                },
            },
    {
        find_consecutive(&self.venue, category, count)
    }
}

/// Mutual exclusion of overlapping holds (law): once a hold on `coords1`
/// has been granted, any second hold request that is otherwise valid but
/// shares a coordinate with it is refused with `SeatUnavailable`.
pub proof fn lemma_hold_mutual_exclusion(
    pre: LeaseManager,
    mid: LeaseManager,
    id: Seq<char>,
    zone: Seq<char>,
    cat: Seq<char>,
    coords1: Seq<(usize, usize)>,
    coords2: Seq<(usize, usize)>,
    now: u64,
    a: int,
    b: int,
)
    requires
        hold_ok(pre, zone, cat, coords1),
        hold_commit(pre, mid, id, zone, cat, coords1, now),
        0 <= a < coords1.len(),
        0 <= b < coords2.len(),
        coords1[a] == coords2[b],
        coords_in_range(
            pre.venue,
            zone_index_of(pre.venue.zones@, zone)->Some_0,
            spec_parse_category(cat)->Some_0,
            coords2,
        ),
    ensures
        !hold_ok(mid, zone, cat, coords2),
        hold_err(mid, zone, cat, coords2) == HoldError::SeatUnavailable,
{
    let zi = zone_index_of(pre.venue.zones@, zone)->Some_0;
    let c = spec_parse_category(cat)->Some_0;
    lemma_zone_index_of(pre.venue.zones@, zone);
    lemma_zone_index_of_same_names(pre.venue.zones@, mid.venue.zones@, zone);
    vstd::std_specs::vec::axiom_spec_len(&pre.venue.zones);
    let r = coords1[a].0 as int;
    let col = coords1[a].1 as int;
    lemma_refs_contain_coords(zi, c, coords1, zi, c, r, col);
    assert(coords_hit(coords1, coords1.len() as int, r, col));
    assert(pos_in_range(pre.venue, zi, c, r, col));
    assert(seat_of(mid.venue, zi, c, r, col) == SeatState::LeasedPending);
    // every coordinate of the second request still addresses a seat
    assert forall|k: int| 0 <= k < coords2.len() implies pos_in_range(
        mid.venue,
        zi,
        c,
        (#[trigger] coords2[k]).0 as int,
        coords2[k].1 as int,
    ) by {
        assert(pos_in_range(pre.venue, zi, c, coords2[k].0 as int, coords2[k].1 as int));
    }
    // but the shared seat is pending, not free
    assert(seat_of(mid.venue, zi, c, coords2[b].0 as int, coords2[b].1 as int)
        == SeatState::LeasedPending);
    assert(!coords_free(mid.venue, zi, c, coords2));
}

/// Resolution exclusivity and idempotence (law): once one of confirm,
/// cancel or expiry has succeeded for a lease id, every later confirm,
/// cancel or expiry of that id reports false and changes nothing. In
/// particular a hold resolved before its deadline is unaffected by the
/// expiry action that fires later, and resolving twice is harmless.
pub proof fn lemma_resolution_exclusive(
    s0: LeaseManager,
    s1: LeaseManager,
    s2: LeaseManager,
    id: Seq<char>,
    st1: SeatState,
    st2: SeatState,
    r1: bool,
    r2: bool,
)
    requires
        s0.wf(),
        has_lease_id(s0.leases@, id),
        resolve_spec(s0, s1, id, st1, r1),
        resolve_spec(s1, s2, id, st2, r2),
    ensures
        r1,
        !r2,
        s2 == s1,
{
    let i = lease_index_of(s0.leases@, id)->Some_0;
    lemma_lease_index_of(s0.leases@, id);
    s0.leases@.remove_ensures(i);
    lemma_lease_index_of(s1.leases@, id);
    if lease_index_of(s1.leases@, id) is Some {
        let j = lease_index_of(s1.leases@, id)->Some_0;
        let oj = if j < i { j } else { j + 1 };
        assert(s1.leases@[j] == s0.leases@[oj]);
        assert(s0.leases@[oj].id@ == s0.leases@[i].id@);
        assert(false);
    }
}


/// At most one resolution wins (law): of confirm, cancel and a fired
/// expiry racing on one lease id, exactly the first reports true; the
/// later two report false and leave the state exactly as the first left
/// it, whatever order they run in.
pub proof fn lemma_resolution_exactly_one(
    s0: LeaseManager,
    s1: LeaseManager,
    s2: LeaseManager,
    s3: LeaseManager,
    id: Seq<char>,
    st1: SeatState,
    st2: SeatState,
    st3: SeatState,
    r1: bool,
    r2: bool,
    r3: bool,
)
    requires
        s0.wf(),
        has_lease_id(s0.leases@, id),
        resolve_spec(s0, s1, id, st1, r1),
        resolve_spec(s1, s2, id, st2, r2),
        resolve_spec(s2, s3, id, st3, r3),
    ensures
        r1,
        !r2,
        !r3,
        s2 == s1,
        s3 == s1,
{
    lemma_resolution_exclusive(s0, s1, s2, id, st1, st2, r1, r2);
    lemma_resolution_exclusive(s0, s1, s3, id, st1, st3, r1, r3);
}

/// Expiry correctness (law): when the expiry action finds the lease
/// still in the table, every one of its seats reverts to `Free`.
pub proof fn lemma_expiry_reverts(
    s0: LeaseManager,
    s1: LeaseManager,
    id: Seq<char>,
    r: bool,
)
    requires
        s0.wf(),
        has_lease_id(s0.leases@, id),
        resolve_spec(s0, s1, id, SeatState::Free, r),
    ensures
        r,
        forall|k: int|
            0 <= k < s0.leases@[lease_index_of(s0.leases@, id)->Some_0].seats@.len() ==> {
                let sr = #[trigger] s0.leases@[lease_index_of(
                    s0.leases@,
                    id,
                )->Some_0].seats@[k];
                seat_of(s1.venue, sr.zone as int, sr.category, sr.row as int, sr.col as int)
                    == SeatState::Free
            },
{
    let i = lease_index_of(s0.leases@, id)->Some_0;
    lemma_lease_index_of(s0.leases@, id);
    let refs = s0.leases@[i].seats@;
    assert forall|k: int| 0 <= k < refs.len() implies {
        let sr = #[trigger] refs[k];
        seat_of(s1.venue, sr.zone as int, sr.category, sr.row as int, sr.col as int)
            == SeatState::Free
    } by {
        let sr = refs[k];
        assert(ref_valid(s0.venue, sr));
        assert(ref_matches(refs[k], sr.zone as int, sr.category, sr.row as int, sr.col as int));
        assert(refs_contain(refs, sr.zone as int, sr.category, sr.row as int, sr.col as int));
    }
}

} // verus!
